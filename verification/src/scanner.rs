//! Streaming scanner that pulls OpenGraph data out of the `<head>` of a page
//! chunk by chunk, with a bounded window.

use vstd::prelude::*;
use crate::bytes::{
    lemma_first_byte_unique, lemma_first_window_unique, window_matches, find_byte, find_insensitive, first_byte, first_window, head_close, is_first_byte,
    is_split_tag_prefix, meta_open, split_tag_prefix, starts_insensitive, starts_with_insensitive,
    title_close, title_open, trailing_prefix, trailing_prefix_len,
};
use crate::domain::{Opengraph, OpengraphDescription, OpengraphImage, OpengraphTitle, ScrapeError};
use crate::entities::{decode_entities, decode_spec};
use crate::meta::{lemma_known_properties, meta_tag_with, no_capital, no_quote, parse_meta, parse_meta_spec, Field};
use crate::text::{chars_to_string, lossy_string, str_chars, trim_chars, trim_spec, utf8_lossy};

verus! {

/// Safety cap on the bytes read from one page.
pub const MAX_BYTES: u64 = 524288;

/// Most bytes kept between two chunks.
pub const SCAN_WINDOW: usize = 8192;

/// What the scanner has found so far.
pub struct Fields {
    pub title: Option<Seq<char>>,
    pub title_open_graph: bool,
    pub description: Option<Seq<char>>,
    pub description_open_graph: bool,
    pub image: Option<Seq<char>>,
    /// `</head>` has been read: nothing after it is used.
    pub head_done: bool,
}

pub open spec fn opt_string(s: Option<String>) -> Option<Seq<char>> {
    match s {
        Some(v) => Some(v@),
        None => None,
    }
}

/// OpenGraph values replace a fallback; the first OpenGraph value stays; a
/// fallback only fills an empty slot.
pub open spec fn assign_text_spec(slot: Option<Seq<char>>, slot_open_graph: bool, value: Seq<char>, open_graph: bool) -> (Option<Seq<char>>, bool) {
    if open_graph {
        if slot is None || !slot_open_graph {
            (Some(value), true)
        } else {
            (slot, slot_open_graph)
        }
    } else if slot is None {
        (Some(value), slot_open_graph)
    } else {
        (slot, slot_open_graph)
    }
}

/// Records a found value (trimmed; blank values are ignored). The first image wins.
pub open spec fn assign_spec(f: Fields, field: Field, value: Seq<char>, open_graph: bool) -> Fields {
    let v = trim_spec(value);
    if v.len() == 0 {
        f
    } else {
        match field {
            Field::Title => {
                let (slot, flag) = assign_text_spec(f.title, f.title_open_graph, v, open_graph);
                Fields { title: slot, title_open_graph: flag, ..f }
            },
            Field::Description => {
                let (slot, flag) = assign_text_spec(f.description, f.description_open_graph, v, open_graph);
                Fields { description: slot, description_open_graph: flag, ..f }
            },
            Field::Image => if f.image is None {
                Fields { image: Some(v), ..f }
            } else {
                f
            },
        }
    }
}

pub open spec fn is_complete_spec(f: Fields) -> bool {
    f.title is Some && f.description is Some && f.image is Some
}

/// A `<meta>` tag applied to the fields.
pub open spec fn apply_meta(f: Fields, tag: Seq<u8>) -> Fields {
    match parse_meta_spec(tag) {
        Some((field, value, open_graph)) => assign_spec(f, field, value, open_graph),
        None => f,
    }
}

/// Where a `<title>` element found at the start of `rest` ends, given the end of its
/// opening tag `open_end` and the offset `close` of `</title` after it.
pub open spec fn title_end(rest: Seq<u8>, open_end: int, close: int) -> int {
    let after = rest.skip(open_end + 1);
    let end = match first_byte(after.skip(close), 62u8) {
        Some(e) => open_end + 1 + close + e + 1,
        None => open_end + 1 + close + 7,
    };
    if end < rest.len() { end } else { rest.len() as int }
}

/// One step of the scan at position `i` (`buf[i]` exists): the new fields and
/// the next position, or `None` when the scan must wait for more bytes.
pub open spec fn scan_step(buf: Seq<u8>, i: int, f: Fields) -> Option<(Fields, int)> {
    let rest = buf.skip(i);
    if buf[i] != 60u8 {
        Some((f, i + 1))
    } else if starts_insensitive(rest, meta_open()) {
        match first_byte(rest, 62u8) {
            Some(e) => Some((apply_meta(f, rest.take(e + 1)), i + e + 1)),
            None => None,
        }
    } else if starts_insensitive(rest, title_open()) {
        match first_byte(rest, 62u8) {
            Some(o) => {
                let after = rest.skip(o + 1);
                match first_window(after, title_close()) {
                    Some(c) => {
                        let text = decode_spec(utf8_lossy(after.take(c)));
                        Some((assign_spec(f, Field::Title, text, false), i + title_end(rest, o, c)))
                    },
                    None => if rest.len() > SCAN_WINDOW { Some((f, i + o + 1)) } else { None },
                }
            },
            None => None,
        }
    } else if starts_insensitive(rest, head_close()) {
        match first_byte(rest, 62u8) {
            Some(e) => Some((Fields { head_done: true, ..f }, i + e + 1)),
            None => None,
        }
    } else if rest.len() < 7 && split_tag_prefix(rest) {
        None
    } else {
        Some((f, i + 1))
    }
}

pub proof fn lemma_first_byte_bounds(s: Seq<u8>, b: u8)
    ensures
        first_byte(s, b) matches Some(k) ==> is_first_byte(s, b, k),
{
    if exists|k: int| is_first_byte(s, b, k) {
        let k = choose|k: int| is_first_byte(s, b, k);
        assert(is_first_byte(s, b, k));
    }
}

pub proof fn lemma_first_window_bounds(s: Seq<u8>, needle: Seq<u8>)
    ensures
        first_window(s, needle) matches Some(k) ==> 0 <= k && k + needle.len() <= s.len(),
{
    if needle.len() > 0 && exists|k: int| crate::bytes::is_first_window(s, needle, k) {
        let k = choose|k: int| crate::bytes::is_first_window(s, needle, k);
        assert(crate::bytes::is_first_window(s, needle, k));
    }
}

pub proof fn lemma_scan_step_advances(buf: Seq<u8>, i: int, f: Fields)
    requires
        0 <= i < buf.len(),
    ensures
        scan_step(buf, i, f) matches Some((g, j)) ==> i < j <= buf.len(),
{
    let rest = buf.skip(i);
    lemma_first_byte_bounds(rest, 62u8);
    if let Some(o) = first_byte(rest, 62u8) {
        let after = rest.skip(o + 1);
        lemma_first_window_bounds(after, title_close());
        if let Some(c) = first_window(after, title_close()) {
            lemma_first_byte_bounds(after.skip(c), 62u8);
        }
    }
}

/// Scans `buf` from `i` on: the fields found, where the scan stopped, and
/// whether all three fields were complete (in which case it stops right there).
/// The scan also stops right after `</head>`.
pub open spec fn scan_from(buf: Seq<u8>, i: int, f: Fields) -> (Fields, int, bool)
    decreases buf.len() - i,
{
    if i < 0 || i >= buf.len() {
        (f, i, false)
    } else {
        proof { lemma_scan_step_advances(buf, i, f); }
        match scan_step(buf, i, f) {
            None => (f, i, false),
            Some((g, j)) => if is_complete_spec(g) {
                (g, j, true)
            } else if g.head_done {
                (g, j, false)
            } else {
                scan_from(buf, j, g)
            },
        }
    }
}

pub open spec fn clamp_keep(n: int) -> int {
    if n < 64 { 64 } else if n > SCAN_WINDOW { SCAN_WINDOW as int } else { n }
}

/// The bytes kept for the next chunk when the scan of `buf` stopped at `index`:
/// the unprocessed rest, or only a possibly cut-off tag at the end when all was
/// processed; a rest over the window keeps only its last 64 bytes.
pub open spec fn retained(buf: Seq<u8>, index: int) -> Seq<u8> {
    let kept = if index >= buf.len() {
        buf.skip(buf.len() - trailing_prefix(buf))
    } else if index > 0 {
        buf.skip(index)
    } else {
        buf
    };
    if kept.len() > SCAN_WINDOW {
        kept.skip(kept.len() - clamp_keep(trailing_prefix(kept)))
    } else {
        kept
    }
}

// ---------------------------------------------------------------------------
// Laws
// ---------------------------------------------------------------------------

/// `g` keeps what `f` had found: no value is lost, an OpenGraph title or
/// description is never replaced, and the image never changes once set.
pub open spec fn keeps(f: Fields, g: Fields) -> bool {
    &&& f.title is Some ==> g.title is Some
    &&& (f.title is Some && f.title_open_graph) ==> (g.title == f.title && g.title_open_graph)
    &&& f.description is Some ==> g.description is Some
    &&& (f.description is Some && f.description_open_graph) ==> (g.description == f.description && g.description_open_graph)
    &&& f.image is Some ==> g.image == f.image
    &&& f.head_done ==> g.head_done
}

proof fn lemma_keeps_transitive(f: Fields, g: Fields, h: Fields)
    requires
        keeps(f, g),
        keeps(g, h),
    ensures
        keeps(f, h),
{
}

/// Recording a value keeps everything found before.
pub proof fn lemma_assign_keeps(f: Fields, field: Field, value: Seq<char>, open_graph: bool)
    ensures
        keeps(f, assign_spec(f, field, value, open_graph)),
{
}

proof fn lemma_step_keeps(buf: Seq<u8>, i: int, f: Fields)
    requires
        0 <= i < buf.len(),
    ensures
        scan_step(buf, i, f) matches Some((g, j)) ==> keeps(f, g),
{
    let rest = buf.skip(i);
    if let Some(e) = first_byte(rest, 62u8) {
        match parse_meta_spec(rest.take(e + 1)) {
            Some((field, value, open_graph)) => lemma_assign_keeps(f, field, value, open_graph),
            None => {},
        }
        let after = rest.skip(e + 1);
        lemma_assign_keeps(f, Field::Title, decode_spec(utf8_lossy(after.take(first_window(after, title_close())->0))), false);
    }
}

/// Scanning never loses a found value, never replaces an OpenGraph title or
/// description, and keeps the first image: OpenGraph wins over the fallbacks,
/// whatever follows in the page.
pub proof fn lemma_scan_keeps(buf: Seq<u8>, i: int, f: Fields)
    ensures
        keeps(f, scan_from(buf, i, f).0),
    decreases buf.len() - i,
{
    if 0 <= i < buf.len() {
        lemma_scan_step_advances(buf, i, f);
        lemma_step_keeps(buf, i, f);
        if let Some((g, j)) = scan_step(buf, i, f) {
            if !is_complete_spec(g) && !g.head_done {
                lemma_scan_keeps(buf, j, g);
                lemma_keeps_transitive(f, g, scan_from(buf, j, g).0);
            }
        }
    }
}

/// A scan reports completion only when title, description and image are all found.
pub proof fn lemma_scan_done_is_complete(buf: Seq<u8>, i: int, f: Fields)
    ensures
        scan_from(buf, i, f).2 ==> is_complete_spec(scan_from(buf, i, f).0),
    decreases buf.len() - i,
{
    if 0 <= i < buf.len() {
        lemma_scan_step_advances(buf, i, f);
        if let Some((g, j)) = scan_step(buf, i, f) {
            if !is_complete_spec(g) && !g.head_done {
                lemma_scan_done_is_complete(buf, j, g);
            }
        }
    }
}

/// A stored value is trimmed and not empty.
pub open spec fn stored_value(v: Option<Seq<char>>) -> bool {
    v matches Some(t) ==> t.len() > 0 && trim_spec(t) == t
}

pub open spec fn clean(f: Fields) -> bool {
    stored_value(f.title) && stored_value(f.description) && stored_value(f.image)
}

/// Recording a value keeps every stored value trimmed and non-empty.
pub proof fn lemma_assign_clean(f: Fields, field: Field, value: Seq<char>, open_graph: bool)
    requires
        clean(f),
    ensures
        clean(assign_spec(f, field, value, open_graph)),
{
    crate::text::lemma_trim_idempotent(value);
}

proof fn lemma_step_clean(buf: Seq<u8>, i: int, f: Fields)
    requires
        0 <= i < buf.len(),
        clean(f),
    ensures
        scan_step(buf, i, f) matches Some((g, j)) ==> clean(g),
{
    let rest = buf.skip(i);
    if let Some(e) = first_byte(rest, 62u8) {
        match parse_meta_spec(rest.take(e + 1)) {
            Some((field, value, open_graph)) => lemma_assign_clean(f, field, value, open_graph),
            None => {},
        }
        let after = rest.skip(e + 1);
        lemma_assign_clean(f, Field::Title, decode_spec(utf8_lossy(after.take(first_window(after, title_close())->0))), false);
    }
}

/// Scanning stores only trimmed, non-empty title, description and image values.
pub proof fn lemma_scan_clean(buf: Seq<u8>, i: int, f: Fields)
    ensures
        clean(f) ==> clean(scan_from(buf, i, f).0),
    decreases buf.len() - i,
{
    if 0 <= i < buf.len() && clean(f) {
        lemma_scan_step_advances(buf, i, f);
        lemma_step_clean(buf, i, f);
        if let Some((g, j)) = scan_step(buf, i, f) {
            if !is_complete_spec(g) && !g.head_done {
                lemma_scan_clean(buf, j, g);
            }
        }
    }
}

/// A slot after the values `calls` (value, is OpenGraph) were offered in order.
pub open spec fn assign_all(slot: Option<Seq<char>>, flag: bool, calls: Seq<(Seq<char>, bool)>) -> (Option<Seq<char>>, bool)
    decreases calls.len(),
{
    if calls.len() == 0 {
        (slot, flag)
    } else {
        let (s2, f2) = assign_text_spec(slot, flag, calls[0].0, calls[0].1);
        assign_all(s2, f2, calls.drop_first())
    }
}

/// The first OpenGraph value among `calls`, if any.
pub open spec fn first_open_graph(calls: Seq<(Seq<char>, bool)>) -> Option<Seq<char>>
    decreases calls.len(),
{
    if calls.len() == 0 {
        None
    } else if calls[0].1 {
        Some(calls[0].0)
    } else {
        first_open_graph(calls.drop_first())
    }
}

proof fn lemma_assign_all_from(slot: Option<Seq<char>>, flag: bool, calls: Seq<(Seq<char>, bool)>)
    requires
        flag ==> slot is Some,
    ensures
        flag ==> assign_all(slot, flag, calls) == (slot, true),
        !flag ==> assign_all(slot, flag, calls) == match first_open_graph(calls) {
            Some(v) => (Some(v), true),
            None => (if slot is None && calls.len() > 0 { Some(calls[0].0) } else { slot }, false),
        },
    decreases calls.len(),
{
    if calls.len() > 0 {
        let (s2, f2) = assign_text_spec(slot, flag, calls[0].0, calls[0].1);
        lemma_assign_all_from(s2, f2, calls.drop_first());
    }
}

/// Over any sequence of offered values, starting from an empty slot: the first
/// OpenGraph value wins; without one, the first value; the flag tells whether
/// any value was OpenGraph.
pub proof fn lemma_first_open_graph_wins(calls: Seq<(Seq<char>, bool)>)
    ensures
        assign_all(None, false, calls) == match first_open_graph(calls) {
            Some(v) => (Some(v), true),
            None => (if calls.len() > 0 { Some(calls[0].0) } else { None }, false),
        },
{
    lemma_assign_all_from(None, false, calls);
}

/// A fallback value (`<title>`, `name=description`) only fills an empty slot.
pub proof fn lemma_fallback_fills_only_empty(f: Fields, field: Field, value: Seq<char>)
    ensures
        field == Field::Title && f.title is Some ==> assign_spec(f, field, value, false).title == f.title,
        field == Field::Description && f.description is Some ==> assign_spec(f, field, value, false).description == f.description,
{
}

/// Blank values (empty once trimmed) are ignored.
pub proof fn lemma_blank_values_ignored(f: Fields, field: Field, value: Seq<char>, open_graph: bool)
    requires
        trim_spec(value).len() == 0,
    ensures
        assign_spec(f, field, value, open_graph) == f,
{
}

/// Nothing found yet.
pub open spec fn no_fields() -> Fields {
    Fields { title: None, title_open_graph: false, description: None, description_open_graph: false, image: None, head_done: false }
}

/// The `<title>` fallback: scanning `<title>T</title>` (with no `<` in `T`)
/// from nothing found stores as title the text of `T` with its character
/// references decoded and surrounding white space trimmed, unless that is empty.
pub proof fn lemma_title_text_decoded(t: Seq<u8>)
    requires
        forall|k: int| 0 <= k < t.len() ==> #[trigger] t[k] != 60u8,
    ensures
        scan_from(seq![60u8, 116u8, 105u8, 116u8, 108u8, 101u8, 62u8] + t + seq![60u8, 47u8, 116u8, 105u8, 116u8, 108u8, 101u8, 62u8], 0, no_fields()).0.title
            == (if trim_spec(decode_spec(utf8_lossy(t))).len() > 0 {
                Some(trim_spec(decode_spec(utf8_lossy(t))))
            } else {
                None
            }),
{
    let open = seq![60u8, 116u8, 105u8, 116u8, 108u8, 101u8, 62u8];
    let close = seq![60u8, 47u8, 116u8, 105u8, 116u8, 108u8, 101u8, 62u8];
    let buf = open + t + close;
    let n = t.len() as int;
    let f = no_fields();
    assert(buf.len() == n + 15);
    assert forall|k: int| 0 <= k < 7 implies buf[k] == open[k] by {}
    assert forall|k: int| 7 <= k < 7 + n implies buf[k] == t[k - 7] by {}
    assert forall|k: int| 7 + n <= k < n + 15 implies buf[k] == close[k - 7 - n] by {}
    let rest = buf.skip(0);
    assert(rest =~= buf);
    // Not `<meta`, but `<title`.
    assert(rest.take(5)[1] == 116u8);
    assert(!starts_insensitive(rest, meta_open()));
    assert(rest.take(6) =~= title_open());
    assert(starts_insensitive(rest, title_open()));
    // The opening tag ends at its `>`.
    lemma_first_byte_unique(rest, 62u8, 6);
    let after = rest.skip(7);
    assert(after =~= t + close);
    // `</title` first occurs right after the text.
    assert(after.subrange(n, n + 7) =~= title_close());
    assert(window_matches(after, title_close(), n));
    assert forall|j: int| 0 <= j < n implies !#[trigger] window_matches(after, title_close(), j) by {
        if window_matches(after, title_close(), j) {
            assert(after.subrange(j, j + 7)[0] == after[j]);
            assert(after[j] == t[j]);
        }
    }
    lemma_first_window_unique(after, title_close(), n);
    assert(after.take(n) =~= t);
    // The closing tag ends at its `>`, the end of the buffer.
    assert(after.skip(n) =~= close);
    lemma_first_byte_unique(after.skip(n), 62u8, 7);
    let text = decode_spec(utf8_lossy(t));
    let g = assign_spec(f, Field::Title, text, false);
    assert(scan_step(buf, 0, f) == Some((g, n + 15)));
    assert(!is_complete_spec(g));
    assert(scan_from(buf, n + 15, g) == (g, n + 15, false));
}

/// A page that is one `<meta ...>` tag (its only `>` the last byte), scanned
/// from nothing found, records exactly what that tag yields.
pub proof fn lemma_meta_tag_scanned(tag: Seq<u8>)
    requires
        tag.len() >= 6,
        starts_insensitive(tag, meta_open()),
        tag[tag.len() - 1] == 62u8,
        forall|k: int| 0 <= k < tag.len() - 1 ==> #[trigger] tag[k] != 62u8,
    ensures
        scan_from(tag, 0, no_fields()).0 == apply_meta(no_fields(), tag),
{
    let n = tag.len() as int;
    let f = no_fields();
    let rest = tag.skip(0);
    assert(rest =~= tag);
    assert(rest.take(5) =~= tag.take(5));
    assert(tag.take(5)[0] == tag[0]);
    lemma_first_byte_unique(rest, 62u8, n - 1);
    assert(rest.take(n) =~= tag);
    let g = apply_meta(f, tag);
    assert(scan_step(tag, 0, f) == Some((g, n)));
    assert(!is_complete_spec(g));
    assert(scan_from(tag, n, g) == (g, n, false));
}

/// What a value found in a tag is stored as: decoded text, trimmed; nothing
/// when that is empty.
pub open spec fn stored_text(content: Seq<u8>) -> Option<Seq<char>> {
    let v = trim_spec(decode_spec(utf8_lossy(content)));
    if v.len() > 0 { Some(v) } else { None }
}

#[verifier::rlimit(40)]
proof fn lemma_meta_tag_shape(key: Seq<u8>, property: Seq<u8>, content: Seq<u8>)
    requires
        key == seq![112u8, 114u8, 111u8, 112u8, 101u8, 114u8, 116u8, 121u8] || key == seq![110u8, 97u8, 109u8, 101u8],
        no_quote(property),
        no_capital(property),
        no_quote(content),
        forall|k: int| 0 <= k < property.len() ==> #[trigger] property[k] != 62u8,
        forall|k: int| 0 <= k < content.len() ==> #[trigger] content[k] != 62u8,
    ensures
        meta_tag_with(key, property, content).len() >= 6,
        starts_insensitive(meta_tag_with(key, property, content), meta_open()),
        meta_tag_with(key, property, content)[meta_tag_with(key, property, content).len() - 1] == 62u8,
        forall|j: int| 0 <= j < meta_tag_with(key, property, content).len() - 1
            ==> #[trigger] meta_tag_with(key, property, content)[j] != 62u8,
{
    let tag = meta_tag_with(key, property, content);
    let k = key.len() as int;
    let p = property.len() as int;
    let v = content.len() as int;
    let open = seq![60u8, 109u8, 101u8, 116u8, 97u8, 32u8];
    assert(tag.len() == 21 + k + p + v);
    assert forall|j: int| 0 <= j < 6 implies tag[j] == open[j] by {}
    assert forall|j: int| 6 <= j < 6 + k implies tag[j] == key[j - 6] by {}
    assert forall|j: int| 8 + k <= j < 8 + k + p implies tag[j] == property[j - 8 - k] by {}
    let mid = seq![34u8, 32u8, 99u8, 111u8, 110u8, 116u8, 101u8, 110u8, 116u8, 61u8, 34u8];
    assert forall|j: int| 8 + k + p <= j < 19 + k + p implies tag[j] == mid[j - 8 - k - p] by {}
    assert forall|j: int| 19 + k + p <= j < 19 + k + p + v implies tag[j] == content[j - 19 - k - p] by {}
    assert(tag[6 + k] == 61u8 && tag[7 + k] == 34u8);
    assert(tag[19 + k + p + v] == 34u8 && tag[20 + k + p + v] == 62u8);
    assert forall|j: int| 0 <= j < tag.len() - 1 implies #[trigger] tag[j] != 62u8 by {
        if 6 <= j < 6 + k {
            assert(tag[j] == key[j - 6]);
        } else if 8 + k <= j < 8 + k + p {
            assert(tag[j] == property[j - 8 - k]);
        } else if 19 + k + p <= j < 19 + k + p + v {
            assert(tag[j] == content[j - 19 - k - p]);
        }
    }
    assert(tag.take(5) =~= meta_open());
}

/// A page that is one `<meta property="P" content="V">` (or `name="P"`) tag:
/// `og:`/`twitter:` title and description fill those fields as OpenGraph
/// values, plain `description` fills the description as a fallback, `og:`/
/// `twitter:` image fill the image, each with the decoded and trimmed content.
pub proof fn lemma_meta_page_fields(key: Seq<u8>, property: Seq<u8>, content: Seq<u8>)
    requires
        key == seq![112u8, 114u8, 111u8, 112u8, 101u8, 114u8, 116u8, 121u8] || key == seq![110u8, 97u8, 109u8, 101u8],
        no_quote(property),
        no_capital(property),
        no_quote(content),
        forall|k: int| 0 <= k < property.len() ==> #[trigger] property[k] != 62u8,
        forall|k: int| 0 <= k < content.len() ==> #[trigger] content[k] != 62u8,
    ensures
        ({
            let g = scan_from(meta_tag_with(key, property, content), 0, no_fields()).0;
            &&& (property == seq![111u8, 103u8, 58u8, 116u8, 105u8, 116u8, 108u8, 101u8] || property == seq![116u8, 119u8, 105u8, 116u8, 116u8, 101u8, 114u8, 58u8, 116u8, 105u8, 116u8, 108u8, 101u8])
                ==> g.title == stored_text(content) && g.title_open_graph == (stored_text(content) is Some)
                    && g.description is None && g.image is None
            &&& (property == seq![111u8, 103u8, 58u8, 100u8, 101u8, 115u8, 99u8, 114u8, 105u8, 112u8, 116u8, 105u8, 111u8, 110u8] || property == seq![116u8, 119u8, 105u8, 116u8, 116u8, 101u8, 114u8, 58u8, 100u8, 101u8, 115u8, 99u8, 114u8, 105u8, 112u8, 116u8, 105u8, 111u8, 110u8])
                ==> g.description == stored_text(content) && g.description_open_graph == (stored_text(content) is Some)
                    && g.title is None && g.image is None
            &&& property == seq![100u8, 101u8, 115u8, 99u8, 114u8, 105u8, 112u8, 116u8, 105u8, 111u8, 110u8]
                ==> g.description == stored_text(content) && !g.description_open_graph
                    && g.title is None && g.image is None
            &&& (property == seq![111u8, 103u8, 58u8, 105u8, 109u8, 97u8, 103u8, 101u8] || property == seq![116u8, 119u8, 105u8, 116u8, 116u8, 101u8, 114u8, 58u8, 105u8, 109u8, 97u8, 103u8, 101u8])
                ==> g.image == stored_text(content) && g.title is None && g.description is None
        }),
{
    lemma_meta_tag_shape(key, property, content);
    let tag = meta_tag_with(key, property, content);
    lemma_meta_tag_scanned(tag);
    lemma_known_properties(key, property, content);
}

proof fn lemma_scan_skips_text(buf: Seq<u8>, i: int, j: int, f: Fields)
    requires
        0 <= i <= j <= buf.len(),
        forall|k: int| i <= k < j ==> #[trigger] buf[k] != 60u8,
        !is_complete_spec(f),
        !f.head_done,
    ensures
        scan_from(buf, i, f) == scan_from(buf, j, f),
    decreases j - i,
{
    if i < j {
        assert(scan_step(buf, i, f) == Some((f, i + 1)));
        lemma_scan_skips_text(buf, i + 1, j, f);
    }
}

/// The scan ends at `</head>`: whatever text without tags comes before it is
/// passed over, nothing after it is read, and what was found stays as it was.
pub proof fn lemma_scan_stops_at_head_close(text: Seq<u8>, rest: Seq<u8>, f: Fields)
    requires
        forall|k: int| 0 <= k < text.len() ==> #[trigger] text[k] != 60u8,
        !is_complete_spec(f),
        !f.head_done,
    ensures
        scan_from(text + seq![60u8, 47u8, 104u8, 101u8, 97u8, 100u8, 62u8] + rest, 0, f)
            == (Fields { head_done: true, ..f }, text.len() + 7int, false),
{
    let close = seq![60u8, 47u8, 104u8, 101u8, 97u8, 100u8, 62u8];
    let buf = text + close + rest;
    let n = text.len() as int;
    assert forall|k: int| 0 <= k < n implies #[trigger] buf[k] != 60u8 by {
        assert(buf[k] == text[k]);
    }
    lemma_scan_skips_text(buf, 0, n, f);
    let tail = buf.skip(n);
    assert(tail =~= close + rest);
    assert(tail.take(5)[1] == 47u8);
    assert(!starts_insensitive(tail, meta_open()));
    assert(tail.take(6)[1] == 47u8);
    assert(!starts_insensitive(tail, title_open()));
    assert(tail.take(6) =~= head_close());
    lemma_first_byte_unique(tail, 62u8, 6);
    let g = Fields { head_done: true, ..f };
    assert(scan_step(buf, n, f) == Some((g, n + 7)));
}

pub struct OpengraphHtmlScanner {
    title: Option<String>,
    description: Option<String>,
    image: Option<String>,
    total: u64,
    title_is_open_graph: bool,
    description_is_open_graph: bool,
    head_closed: bool,
    buffer: Vec<u8>,
}

impl Default for OpengraphHtmlScanner {
    fn default() -> (r: Self)
        ensures
            r.counted() == 0,
            r.fields() == (Fields { title: None, title_open_graph: false, description: None, description_open_graph: false, image: None, head_done: false }),
            r.pending().len() == 0,
            r.wf(),
    {
        OpengraphHtmlScanner {
            title: None,
            description: None,
            image: None,
            total: 0,
            title_is_open_graph: false,
            description_is_open_graph: false,
            head_closed: false,
            buffer: Vec::new(),
        }
    }
}

impl OpengraphHtmlScanner {
    pub closed spec fn fields(&self) -> Fields {
        Fields {
            title: opt_string(self.title),
            title_open_graph: self.title_is_open_graph,
            description: opt_string(self.description),
            description_open_graph: self.description_is_open_graph,
            image: opt_string(self.image),
            head_done: self.head_closed,
        }
    }

    /// What every scanner of this library satisfies: stored values are trimmed
    /// and not empty, the window is bounded, and nothing is kept once `</head>`
    /// was read.
    pub open spec fn wf(&self) -> bool {
        &&& stored_value(self.fields().title)
        &&& stored_value(self.fields().description)
        &&& stored_value(self.fields().image)
        &&& self.pending().len() <= SCAN_WINDOW
        &&& self.fields().head_done ==> self.pending().len() == 0
    }

    /// The title found so far.
    pub fn title(&self) -> (r: Option<&str>)
        ensures
            match r {
                Some(t) => self.fields().title == Some(t@),
                None => self.fields().title is None,
            },
    {
        match &self.title {
            Some(t) => Some(t.as_str()),
            None => None,
        }
    }

    /// The description found so far.
    pub fn description(&self) -> (r: Option<&str>)
        ensures
            match r {
                Some(t) => self.fields().description == Some(t@),
                None => self.fields().description is None,
            },
    {
        match &self.description {
            Some(t) => Some(t.as_str()),
            None => None,
        }
    }

    /// The image found so far.
    pub fn image(&self) -> (r: Option<&str>)
        ensures
            match r {
                Some(t) => self.fields().image == Some(t@),
                None => self.fields().image is None,
            },
    {
        match &self.image {
            Some(t) => Some(t.as_str()),
            None => None,
        }
    }

    /// The bytes counted so far.
    pub fn total(&self) -> (r: u64)
        ensures
            r == self.counted(),
    {
        self.total
    }

    /// Whether `</head>` has been read.
    pub fn head_finished(&self) -> (r: bool)
        ensures
            r == self.fields().head_done,
    {
        self.head_closed
    }

    /// The bytes counted so far.
    pub closed spec fn counted(&self) -> u64 {
        self.total
    }

    /// The bytes held back for the next chunk.
    pub closed spec fn pending(&self) -> Seq<u8> {
        self.buffer@
    }

    /// The data found, once the page has been read.
    pub fn into_opengraph(self) -> (r: Opengraph)
        ensures
            opt_string(r.title.0) == self.fields().title,
            opt_string(r.description.0) == self.fields().description,
            opt_string(r.image.0) == self.fields().image,
    {
        Opengraph::new(OpengraphTitle(self.title), OpengraphDescription(self.description), OpengraphImage(self.image))
    }

    /// Number of bytes held back for the next chunk.
    pub fn buffered_len(&self) -> (r: usize)
        ensures
            r == self.pending().len(),
    {
        self.buffer.len()
    }

    pub fn is_complete(&self) -> (r: bool)
        ensures
            r == is_complete_spec(self.fields()),
    {
        self.title.is_some() && self.description.is_some() && self.image.is_some()
    }

    /// OG overrides fallback, first OG wins.
    fn assign_text(slot: &mut Option<String>, slot_is_open_graph: &mut bool, value: String, is_open_graph: bool)
        ensures
            (opt_string(*final(slot)), *final(slot_is_open_graph))
                == assign_text_spec(opt_string(*old(slot)), *old(slot_is_open_graph), value@, is_open_graph),
    {
        if is_open_graph {
            if slot.is_none() || !*slot_is_open_graph {
                *slot = Some(value);
                *slot_is_open_graph = true;
            }
        } else if slot.is_none() {
            *slot = Some(value);
        }
    }

    fn assign(&mut self, kind: Field, value: String, is_open_graph: bool)
        ensures
            final(self).fields() == assign_spec(old(self).fields(), kind, value@, is_open_graph),
            final(self).buffer == old(self).buffer,
            final(self).total == old(self).total,
    {
        let chars = str_chars(value.as_str());
        let trimmed = trim_chars(chars.as_slice());
        if trimmed.len() == 0 {
            return;
        }
        let value = chars_to_string(trimmed.as_slice());
        match kind {
            Field::Title => Self::assign_text(&mut self.title, &mut self.title_is_open_graph, value, is_open_graph),
            Field::Description => Self::assign_text(
                &mut self.description,
                &mut self.description_is_open_graph,
                value,
                is_open_graph,
            ),
            Field::Image => {
                if self.image.is_none() {
                    self.image = Some(value);
                }
            },
        }
    }
    /// One step of the scan at `index`, as `scan_step` describes it.
    fn step(&mut self, buf: &[u8], index: usize) -> (r: Option<usize>)
        requires
            index < buf@.len(),
        ensures
            match scan_step(buf@, index as int, old(self).fields()) {
                Some((g, j)) => r == Some(j as usize) && final(self).fields() == g,
                None => r is None && final(self).fields() == old(self).fields(),
            },
            final(self).buffer == old(self).buffer,
            final(self).total == old(self).total,
    {
        proof {
            lemma_scan_step_advances(buf@, index as int, self.fields());
        }
        if buf[index] != 60 {
            return Some(index + 1);
        }
        let n = buf.len();
        let rest = &buf[index..n];
        assert(rest@ =~= buf@.skip(index as int));
        let meta: [u8; 5] = [60, 109, 101, 116, 97];
        let title: [u8; 6] = [60, 116, 105, 116, 108, 101];
        let title_end_tag: [u8; 7] = [60, 47, 116, 105, 116, 108, 101];
        let head_end: [u8; 6] = [60, 47, 104, 101, 97, 100];
        assert(meta@ =~= meta_open());
        assert(title@ =~= title_open());
        assert(title_end_tag@ =~= title_close());
        assert(head_end@ =~= head_close());
        if starts_with_insensitive(rest, meta.as_slice()) {
            match find_byte(rest, 62) {
                None => None,
                Some(end) => {
                    let tag = &rest[0..end + 1];
                    assert(tag@ =~= rest@.take(end + 1));
                    match parse_meta(tag) {
                        Some((kind, value, is_open_graph)) => self.assign(kind, value, is_open_graph),
                        None => {},
                    }
                    Some(index + end + 1)
                },
            }
        } else if starts_with_insensitive(rest, title.as_slice()) {
            match find_byte(rest, 62) {
                None => None,
                Some(open_end) => {
                    let rest_length = rest.len();
                    let after = &rest[open_end + 1..rest_length];
                    assert(after@ =~= rest@.skip(open_end + 1));
                    match find_insensitive(after, title_end_tag.as_slice()) {
                        None => {
                            if rest_length > SCAN_WINDOW {
                                Some(index + open_end + 1)
                            } else {
                                None
                            }
                        },
                        Some(close) => {
                            proof {
                                lemma_first_window_bounds(after@, title_close());
                            }
                            let inner = &after[0..close];
                            assert(inner@ =~= after@.take(close as int));
                            let raw = lossy_string(inner);
                            let text = decode_entities(raw.as_str());
                            let tail = &after[close..after.len()];
                            assert(tail@ =~= after@.skip(close as int));
                            let close_end = match find_byte(tail, 62) {
                                Some(e) => open_end + 1 + close + e + 1,
                                None => open_end + 1 + close + 7,
                            };
                            self.assign(Field::Title, text, false);
                            let advance = if close_end < rest_length { close_end } else { rest_length };
                            assert(advance as int == title_end(rest@, open_end as int, close as int));
                            Some(index + advance)
                        },
                    }
                },
            }
        } else if starts_with_insensitive(rest, head_end.as_slice()) {
            match find_byte(rest, 62) {
                None => None,
                Some(end) => {
                    self.head_closed = true;
                    Some(index + end + 1)
                },
            }
        } else if rest.len() < 7 && is_split_tag_prefix(rest) {
            None
        } else {
            Some(index + 1)
        }
    }

    /// Runs the scan over `buf` from its start, as `scan_from` describes it.
    fn scan(&mut self, buf: &[u8]) -> (r: (usize, bool))
        requires
            !old(self).fields().head_done,
        ensures
            scan_from(buf@, 0, old(self).fields()) == (final(self).fields(), r.0 as int, r.1),
            r.0 <= buf@.len(),
            final(self).buffer == old(self).buffer,
            final(self).total == old(self).total,
    {
        let ghost start = self.fields();
        let n = buf.len();
        let mut index: usize = 0;
        while index < n
            invariant
                0 <= index <= n,
                n == buf@.len(),
                scan_from(buf@, 0, start) == scan_from(buf@, index as int, self.fields()),
                start == old(self).fields(),
                !self.fields().head_done,
                self.buffer == old(self).buffer,
                self.total == old(self).total,
            ensures
                0 <= index <= n,
                scan_from(buf@, 0, start) == (self.fields(), index as int, false),
                self.buffer == old(self).buffer,
                self.total == old(self).total,
            decreases n - index,
        {
            let ghost here = self.fields();
            let ghost at = index as int;
            match self.step(buf, index) {
                None => {
                    break;
                },
                Some(next) => {
                    proof {
                        lemma_scan_step_advances(buf@, at, here);
                        assert(scan_from(buf@, at, here) == (if is_complete_spec(self.fields()) {
                            (self.fields(), next as int, true)
                        } else if self.fields().head_done {
                            (self.fields(), next as int, false)
                        } else {
                            scan_from(buf@, next as int, self.fields())
                        }));
                    }
                    index = next;
                    if self.is_complete() {
                        return (index, true);
                    }
                    if self.head_closed {
                        return (index, false);
                    }
                },
            }
        }
        (index, false)
    }

    /// Takes the next chunk of the page. `Ok(true)` once title, description and
    /// image are all found (the window is then emptied); `Err(TooLarge)` once the
    /// page has passed `MAX_BYTES` in total. Only `<head>` is read: once `</head>`
    /// has been read, later chunks are only counted.
    pub fn feed(&mut self, chunk: &[u8]) -> (r: Result<bool, ScrapeError>)
        requires
            old(self).counted() + chunk@.len() <= u64::MAX,
        ensures
            final(self).counted() == old(self).counted() + chunk@.len(),
            old(self).counted() + chunk@.len() > MAX_BYTES ==> {
                &&& r == Err::<bool, ScrapeError>(ScrapeError::TooLarge)
                &&& final(self).fields() == old(self).fields()
                &&& final(self).pending() == old(self).pending()
            },
            old(self).counted() + chunk@.len() <= MAX_BYTES && old(self).fields().head_done ==> {
                &&& r == Ok::<bool, ScrapeError>(false)
                &&& final(self).fields() == old(self).fields()
                &&& final(self).pending().len() == 0
            },
            old(self).counted() + chunk@.len() <= MAX_BYTES && !old(self).fields().head_done ==> {
                let (found, stop, done) = scan_from(old(self).pending() + chunk@, 0, old(self).fields());
                &&& r == Ok::<bool, ScrapeError>(done)
                &&& final(self).fields() == found
                &&& (done || found.head_done) ==> final(self).pending().len() == 0
                &&& !done && !found.head_done ==> final(self).pending() == retained(old(self).pending() + chunk@, stop)
            },
            // TooLarge stays: the count only grows, and a count past the cap always fails.
            old(self).counted() > MAX_BYTES ==> r == Err::<bool, ScrapeError>(ScrapeError::TooLarge),
            r == Err::<bool, ScrapeError>(ScrapeError::TooLarge) ==> final(self).counted() > MAX_BYTES,
            r matches Ok(false) ==> final(self).pending().len() <= SCAN_WINDOW,
            keeps(old(self).fields(), final(self).fields()),
            r matches Ok(true) ==> is_complete_spec(final(self).fields()),
            old(self).wf() ==> final(self).wf(),
    {
        proof {
            lemma_scan_keeps(self.buffer@ + chunk@, 0, self.fields());
            lemma_scan_done_is_complete(self.buffer@ + chunk@, 0, self.fields());
            lemma_scan_clean(self.buffer@ + chunk@, 0, self.fields());
        }
        self.total = self.total + chunk.len() as u64;
        if self.total > MAX_BYTES {
            return Err(ScrapeError::TooLarge);
        }
        if self.head_closed {
            self.buffer = Vec::new();
            return Ok(false);
        }
        let mut buffer: Vec<u8> = Vec::new();
        std::mem::swap(&mut buffer, &mut self.buffer);
        buffer.extend_from_slice(chunk);
        assert(buffer@ =~= old(self).buffer@ + chunk@);
        let (index, done) = self.scan(buffer.as_slice());
        if done || self.head_closed {
            self.buffer = Vec::new();
            return Ok(done);
        }
        let len = buffer.len();
        let mut kept: Vec<u8> = if index >= len {
            let keep = trailing_prefix_len(buffer.as_slice());
            proof {
                crate::bytes::lemma_trailing_prefix_starts_tag(buffer@);
            }
            buffer.split_off(len - keep)
        } else if index > 0 {
            buffer.split_off(index)
        } else {
            buffer
        };
        if kept.len() > SCAN_WINDOW {
            let tail = trailing_prefix_len(kept.as_slice());
            let keep: usize = if tail < 64 { 64 } else if tail > SCAN_WINDOW { SCAN_WINDOW } else { tail };
            let kept_len = kept.len();
            kept = kept.split_off(kept_len - keep);
        }
        self.buffer = kept;
        Ok(false)
    }
}

} // verus!
