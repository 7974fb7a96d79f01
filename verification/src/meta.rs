//! Attribute parsing of one `<meta ...>` tag.

use vstd::prelude::*;
use crate::bytes::{bytes_equal_insensitive, eq_insensitive};
use crate::entities::{decode_entities, decode_spec};
use crate::text::{ascii_alnum, ascii_space, is_ascii_alnum, is_ascii_space, lossy_string, lower, lower_seq, utf8_lossy};

verus! {

/// The OpenGraph field a tag fills.
#[derive(Clone, Copy, PartialEq, Eq, Structural, Debug)]
pub enum Field {
    Title,
    Description,
    Image,
}

/// `property`
pub open spec fn attr_property() -> Seq<u8> {
    seq![112u8, 114u8, 111u8, 112u8, 101u8, 114u8, 116u8, 121u8]
}

/// `name`
pub open spec fn attr_name() -> Seq<u8> {
    seq![110u8, 97u8, 109u8, 101u8]
}

/// `content`
pub open spec fn attr_content() -> Seq<u8> {
    seq![99u8, 111u8, 110u8, 116u8, 101u8, 110u8, 116u8]
}

/// `og:title`
pub open spec fn og_title() -> Seq<u8> {
    seq![111u8, 103u8, 58u8, 116u8, 105u8, 116u8, 108u8, 101u8]
}

/// `twitter:title`
pub open spec fn twitter_title() -> Seq<u8> {
    seq![116u8, 119u8, 105u8, 116u8, 116u8, 101u8, 114u8, 58u8, 116u8, 105u8, 116u8, 108u8, 101u8]
}

/// `og:description`
pub open spec fn og_description() -> Seq<u8> {
    seq![111u8, 103u8, 58u8, 100u8, 101u8, 115u8, 99u8, 114u8, 105u8, 112u8, 116u8, 105u8, 111u8, 110u8]
}

/// `twitter:description`
pub open spec fn twitter_description() -> Seq<u8> {
    seq![116u8, 119u8, 105u8, 116u8, 116u8, 101u8, 114u8, 58u8, 100u8, 101u8, 115u8, 99u8, 114u8, 105u8, 112u8, 116u8, 105u8, 111u8, 110u8]
}

/// `description`
pub open spec fn plain_description() -> Seq<u8> {
    seq![100u8, 101u8, 115u8, 99u8, 114u8, 105u8, 112u8, 116u8, 105u8, 111u8, 110u8]
}

/// `og:image`
pub open spec fn og_image() -> Seq<u8> {
    seq![111u8, 103u8, 58u8, 105u8, 109u8, 97u8, 103u8, 101u8]
}

/// `twitter:image`
pub open spec fn twitter_image() -> Seq<u8> {
    seq![116u8, 119u8, 105u8, 116u8, 116u8, 101u8, 114u8, 58u8, 105u8, 109u8, 97u8, 103u8, 101u8]
}


/// Skipped between attributes: ASCII white space, `/` and `>`.
pub open spec fn is_separator(b: u8) -> bool {
    is_ascii_space(b) || b == 47u8 || b == 62u8
}

/// Bytes of an attribute name: ASCII letters and digits, `-`, `_`, `:`.
pub open spec fn is_name_byte(b: u8) -> bool {
    is_ascii_alnum(b) || b == 45u8 || b == 95u8 || b == 58u8
}

/// Bytes of an unquoted value: anything but white space, `>` and quotes.
pub open spec fn is_unquoted_byte(b: u8) -> bool {
    !is_ascii_space(b) && b != 62u8 && b != 34u8 && b != 39u8
}

/// First position at or after `i` whose byte is no separator (or the end).
pub open spec fn skip_separators(t: Seq<u8>, i: int) -> int
    decreases t.len() - i,
{
    if 0 <= i < t.len() && is_separator(t[i]) { skip_separators(t, i + 1) } else { i }
}

/// First position at or after `i` whose byte is no name byte (or the end).
pub open spec fn skip_name(t: Seq<u8>, i: int) -> int
    decreases t.len() - i,
{
    if 0 <= i < t.len() && is_name_byte(t[i]) { skip_name(t, i + 1) } else { i }
}

/// First position at or after `i` whose byte is no ASCII white space (or the end).
pub open spec fn skip_spaces(t: Seq<u8>, i: int) -> int
    decreases t.len() - i,
{
    if 0 <= i < t.len() && is_ascii_space(t[i]) { skip_spaces(t, i + 1) } else { i }
}

/// First position at or after `i` that holds `quote` (or the end).
pub open spec fn skip_to_quote(t: Seq<u8>, i: int, quote: u8) -> int
    decreases t.len() - i,
{
    if 0 <= i < t.len() && t[i] != quote { skip_to_quote(t, i + 1, quote) } else { i }
}

/// First position at or after `i` that ends an unquoted value (or the end).
pub open spec fn skip_unquoted(t: Seq<u8>, i: int) -> int
    decreases t.len() - i,
{
    if 0 <= i < t.len() && is_unquoted_byte(t[i]) { skip_unquoted(t, i + 1) } else { i }
}

pub proof fn lemma_skips_advance(t: Seq<u8>, i: int, quote: u8)
    requires
        0 <= i,
    ensures
        i <= skip_separators(t, i),
        i <= skip_name(t, i),
        i <= skip_spaces(t, i),
        i <= skip_to_quote(t, i, quote),
        i <= skip_unquoted(t, i),
        i <= t.len() ==> skip_separators(t, i) <= t.len(),
        i <= t.len() ==> skip_name(t, i) <= t.len(),
        i <= t.len() ==> skip_spaces(t, i) <= t.len(),
        i <= t.len() ==> skip_to_quote(t, i, quote) <= t.len(),
        i <= t.len() ==> skip_unquoted(t, i) <= t.len(),
    decreases t.len() - i,
{
    if i < t.len() {
        lemma_skips_advance(t, i + 1, quote);
    }
}

/// The value that starts at `d` (where a non-space byte stands) and the position after it.
pub open spec fn attr_value(t: Seq<u8>, d: int) -> (Seq<u8>, int) {
    if t[d] == 34u8 || t[d] == 39u8 {
        let e = skip_to_quote(t, d + 1, t[d]);
        (t.subrange(d + 1, e), e + 1)
    } else {
        let e = skip_unquoted(t, d);
        (t.subrange(d, e), e)
    }
}

pub proof fn lemma_attr_value_advances(t: Seq<u8>, d: int)
    requires
        0 <= d < t.len(),
    ensures
        attr_value(t, d).1 >= d,
        attr_value(t, d).1 <= t.len() + 1,
{
    lemma_skips_advance(t, d + 1, t[d]);
    lemma_skips_advance(t, d, 0u8);
}

/// Reads the attributes of a tag from position `i`, keeping the last
/// `property`/`name` value (lowercased) and the last `content` value (decoded).
pub open spec fn meta_attrs(t: Seq<u8>, i: int, property: Option<Seq<u8>>, content: Option<Seq<char>>) -> (Option<Seq<u8>>, Option<Seq<char>>)
    decreases t.len() + 1 - i,
{
    if i < 0 || i >= t.len() {
        (property, content)
    } else {
        proof { lemma_skips_advance(t, i, 0u8); }
        let a = skip_separators(t, i);
        if a >= t.len() || t[a] == 60u8 {
            (property, content)
        } else {
            proof { lemma_skips_advance(t, a, 0u8); }
            let b = skip_name(t, a);
            if b == a {
                meta_attrs(t, a + 1, property, content)
            } else {
                proof { lemma_skips_advance(t, b, 0u8); }
                let c = skip_spaces(t, b);
                if c >= t.len() || t[c] != 61u8 {
                    meta_attrs(t, c, property, content)
                } else {
                    proof { lemma_skips_advance(t, c + 1, 0u8); }
                    let d = skip_spaces(t, c + 1);
                    if d >= t.len() {
                        (property, content)
                    } else {
                        proof { lemma_attr_value_advances(t, d); }
                        let (value, next) = attr_value(t, d);
                        let name = t.subrange(a, b);
                        if eq_insensitive(name, attr_property()) || eq_insensitive(name, attr_name()) {
                            meta_attrs(t, next, Some(lower_seq(value)), content)
                        } else if eq_insensitive(name, attr_content()) {
                            meta_attrs(t, next, property, Some(decode_spec(utf8_lossy(value))))
                        } else {
                            meta_attrs(t, next, property, content)
                        }
                    }
                }
            }
        }
    }
}

/// The field a (lowercased) `property`/`name` value names, and whether it is
/// an OpenGraph one (`false` only for the `description` fallback).
pub open spec fn meta_field(property: Seq<u8>) -> Option<(Field, bool)> {
    if property == og_title() || property == twitter_title() {
        Some((Field::Title, true))
    } else if property == og_description() || property == twitter_description() {
        Some((Field::Description, true))
    } else if property == plain_description() {
        Some((Field::Description, false))
    } else if property == og_image() || property == twitter_image() {
        Some((Field::Image, true))
    } else {
        None
    }
}

/// What a `<meta ...>` tag yields: the field, the content text and whether it
/// is an OpenGraph tag; `None` without a known property or without content.
pub open spec fn parse_meta_spec(tag: Seq<u8>) -> Option<(Field, Seq<char>, bool)> {
    match meta_attrs(tag, 5, None, None) {
        (Some(property), Some(content)) => match meta_field(property) {
            Some((field, open_graph)) => Some((field, content, open_graph)),
            None => None,
        },
        _ => None,
    }
}

fn separator(b: u8) -> (r: bool)
    ensures
        r == is_separator(b),
{
    ascii_space(b) || b == 47 || b == 62
}

fn name_byte(b: u8) -> (r: bool)
    ensures
        r == is_name_byte(b),
{
    ascii_alnum(b) || b == 45 || b == 95 || b == 58
}

fn unquoted_byte(b: u8) -> (r: bool)
    ensures
        r == is_unquoted_byte(b),
{
    !ascii_space(b) && b != 62 && b != 34 && b != 39
}

fn exec_skip_separators(t: &[u8], i: usize) -> (r: usize)
    requires
        i <= t@.len(),
    ensures
        r as int == skip_separators(t@, i as int),
{
    let mut k = i;
    while k < t.len() && separator(t[k])
        invariant
            i <= k <= t@.len(),
            skip_separators(t@, i as int) == skip_separators(t@, k as int),
        decreases t@.len() - k,
    {
        k = k + 1;
    }
    k
}

fn exec_skip_name(t: &[u8], i: usize) -> (r: usize)
    requires
        i <= t@.len(),
    ensures
        r as int == skip_name(t@, i as int),
{
    let mut k = i;
    while k < t.len() && name_byte(t[k])
        invariant
            i <= k <= t@.len(),
            skip_name(t@, i as int) == skip_name(t@, k as int),
        decreases t@.len() - k,
    {
        k = k + 1;
    }
    k
}

fn exec_skip_spaces(t: &[u8], i: usize) -> (r: usize)
    requires
        i <= t@.len(),
    ensures
        r as int == skip_spaces(t@, i as int),
{
    let mut k = i;
    while k < t.len() && ascii_space(t[k])
        invariant
            i <= k <= t@.len(),
            skip_spaces(t@, i as int) == skip_spaces(t@, k as int),
        decreases t@.len() - k,
    {
        k = k + 1;
    }
    k
}

fn exec_skip_to_quote(t: &[u8], i: usize, quote: u8) -> (r: usize)
    requires
        i <= t@.len(),
    ensures
        r as int == skip_to_quote(t@, i as int, quote),
{
    let mut k = i;
    while k < t.len() && t[k] != quote
        invariant
            i <= k <= t@.len(),
            skip_to_quote(t@, i as int, quote) == skip_to_quote(t@, k as int, quote),
        decreases t@.len() - k,
    {
        k = k + 1;
    }
    k
}

fn exec_skip_unquoted(t: &[u8], i: usize) -> (r: usize)
    requires
        i <= t@.len(),
    ensures
        r as int == skip_unquoted(t@, i as int),
{
    let mut k = i;
    while k < t.len() && unquoted_byte(t[k])
        invariant
            i <= k <= t@.len(),
            skip_unquoted(t@, i as int) == skip_unquoted(t@, k as int),
        decreases t@.len() - k,
    {
        k = k + 1;
    }
    k
}

pub open spec fn lowered_view(property: Option<Vec<u8>>) -> Option<Seq<u8>> {
    match property {
        Some(v) => Some(lower_seq(v@)),
        None => None,
    }
}

pub open spec fn string_view(content: Option<String>) -> Option<Seq<char>> {
    match content {
        Some(s) => Some(s@),
        None => None,
    }
}

proof fn lemma_insensitive_is_lowered(value: Seq<u8>, literal: Seq<u8>)
    ensures
        eq_insensitive(value, literal) == (lower_seq(value) == literal),
{
    if eq_insensitive(value, literal) {
        assert(lower_seq(value) =~= literal);
    }
    if lower_seq(value) == literal {
        assert forall|i: int| 0 <= i < value.len() implies lower(#[trigger] value[i]) == literal[i] by {
            assert(lower_seq(value)[i] == lower(value[i]));
        }
    }
}

/// Parses `<meta ...>` for `property`/`name` and `content`, in any order, with
/// double, single or no quotes, attribute names in any case. The flag is `false`
/// only for `name=description` (the fallback).
pub fn parse_meta(tag: &[u8]) -> (r: Option<(Field, String, bool)>)
    ensures
        match r {
            Some((field, value, open_graph)) => parse_meta_spec(tag@) == Some((field, value@, open_graph)),
            None => parse_meta_spec(tag@) is None,
        },
{
    let attr_property_bytes: [u8; 8] = [112, 114, 111, 112, 101, 114, 116, 121];
    assert(attr_property_bytes@ =~= attr_property());
    let attr_name_bytes: [u8; 4] = [110, 97, 109, 101];
    assert(attr_name_bytes@ =~= attr_name());
    let attr_content_bytes: [u8; 7] = [99, 111, 110, 116, 101, 110, 116];
    assert(attr_content_bytes@ =~= attr_content());
    let og_title_bytes: [u8; 8] = [111, 103, 58, 116, 105, 116, 108, 101];
    assert(og_title_bytes@ =~= og_title());
    let twitter_title_bytes: [u8; 13] = [116, 119, 105, 116, 116, 101, 114, 58, 116, 105, 116, 108, 101];
    assert(twitter_title_bytes@ =~= twitter_title());
    let og_description_bytes: [u8; 14] = [111, 103, 58, 100, 101, 115, 99, 114, 105, 112, 116, 105, 111, 110];
    assert(og_description_bytes@ =~= og_description());
    let twitter_description_bytes: [u8; 19] = [116, 119, 105, 116, 116, 101, 114, 58, 100, 101, 115, 99, 114, 105, 112, 116, 105, 111, 110];
    assert(twitter_description_bytes@ =~= twitter_description());
    let plain_description_bytes: [u8; 11] = [100, 101, 115, 99, 114, 105, 112, 116, 105, 111, 110];
    assert(plain_description_bytes@ =~= plain_description());
    let og_image_bytes: [u8; 8] = [111, 103, 58, 105, 109, 97, 103, 101];
    assert(og_image_bytes@ =~= og_image());
    let twitter_image_bytes: [u8; 13] = [116, 119, 105, 116, 116, 101, 114, 58, 105, 109, 97, 103, 101];
    assert(twitter_image_bytes@ =~= twitter_image());
    let n = tag.len();
    let mut property: Option<Vec<u8>> = None;
    let mut content: Option<String> = None;
    let mut index: usize = 5;
    if index > n {
        index = n;
    }
    assert(meta_attrs(tag@, 5, None, None) == meta_attrs(tag@, index as int, lowered_view(property), string_view(content)));
    while index < n
        invariant
            0 <= index <= n,
            n == tag@.len(),
            meta_attrs(tag@, 5, None, None) == meta_attrs(tag@, index as int, lowered_view(property), string_view(content)),
            attr_property_bytes@ == attr_property(),
            attr_name_bytes@ == attr_name(),
            attr_content_bytes@ == attr_content(),
        ensures
            meta_attrs(tag@, 5, None, None) == (lowered_view(property), string_view(content)),
        decreases n - index,
    {
        proof { lemma_skips_advance(tag@, index as int, 0u8); }
        let ghost start = index as int;
        let ghost start_property = lowered_view(property);
        let ghost start_content = string_view(content);
        let a = exec_skip_separators(tag, index);
        if a >= n || tag[a] == 60 {
            break;
        }
        proof { lemma_skips_advance(tag@, a as int, 0u8); }
        let b = exec_skip_name(tag, a);
        if b == a {
            index = a + 1;
            continue;
        }
        proof { lemma_skips_advance(tag@, b as int, 0u8); }
        let c = exec_skip_spaces(tag, b);
        if c >= n || tag[c] != 61 {
            index = c;
            continue;
        }
        proof { lemma_skips_advance(tag@, (c + 1) as int, 0u8); }
        let d = exec_skip_spaces(tag, c + 1);
        if d >= n {
            break;
        }
        let value_start: usize;
        let value_end: usize;
        let next: usize;
        if tag[d] == 34 || tag[d] == 39 {
            proof { lemma_skips_advance(tag@, (d + 1) as int, tag@[d as int]); }
            let e = exec_skip_to_quote(tag, d + 1, tag[d]);
            value_start = d + 1;
            value_end = e;
            next = if e < n { e + 1 } else { n };
        } else {
            proof { lemma_skips_advance(tag@, d as int, 0u8); }
            let e = exec_skip_unquoted(tag, d);
            value_start = d;
            value_end = e;
            next = e;
        }
        let value = &tag[value_start..value_end];
        let name = &tag[a..b];
        assert(value@ == attr_value(tag@, d as int).0);
        if bytes_equal_insensitive(name, attr_property_bytes.as_slice())
            || bytes_equal_insensitive(name, attr_name_bytes.as_slice()) {
            let mut kept: Vec<u8> = Vec::new();
            kept.extend_from_slice(value);
            property = Some(kept);
            assert(lowered_view(property) == Some(lower_seq(value@)));
        } else if bytes_equal_insensitive(name, attr_content_bytes.as_slice()) {
            let text = lossy_string(value);
            content = Some(decode_entities(text.as_str()));
        }
        proof {
            lemma_attr_value_advances(tag@, d as int);
            let spec_next = attr_value(tag@, d as int).1;
            assert(meta_attrs(tag@, start, start_property, start_content)
                == meta_attrs(tag@, spec_next, lowered_view(property), string_view(content)));
            if spec_next != next as int {
                assert(spec_next == n + 1);
            }
        }
        index = next;
    }
    let property_value = match property {
        Some(p) => p,
        None => return None,
    };
    let content_value = match content {
        Some(c) => c,
        None => return None,
    };
    proof {
        lemma_insensitive_is_lowered(property_value@, og_title());
        lemma_insensitive_is_lowered(property_value@, twitter_title());
        lemma_insensitive_is_lowered(property_value@, og_description());
        lemma_insensitive_is_lowered(property_value@, twitter_description());
        lemma_insensitive_is_lowered(property_value@, plain_description());
        lemma_insensitive_is_lowered(property_value@, og_image());
        lemma_insensitive_is_lowered(property_value@, twitter_image());
    }
    let p = property_value.as_slice();
    if bytes_equal_insensitive(p, og_title_bytes.as_slice()) || bytes_equal_insensitive(p, twitter_title_bytes.as_slice()) {
        Some((Field::Title, content_value, true))
    } else if bytes_equal_insensitive(p, og_description_bytes.as_slice())
        || bytes_equal_insensitive(p, twitter_description_bytes.as_slice()) {
        Some((Field::Description, content_value, true))
    } else if bytes_equal_insensitive(p, plain_description_bytes.as_slice()) {
        Some((Field::Description, content_value, false))
    } else if bytes_equal_insensitive(p, og_image_bytes.as_slice()) || bytes_equal_insensitive(p, twitter_image_bytes.as_slice()) {
        Some((Field::Image, content_value, true))
    } else {
        None
    }
}

proof fn lemma_skip_separators_run(t: Seq<u8>, i: int, j: int)
    requires
        0 <= i <= j <= t.len(),
        forall|k: int| i <= k < j ==> is_separator(#[trigger] t[k]),
        j == t.len() || !is_separator(t[j]),
    ensures
        skip_separators(t, i) == j,
    decreases j - i,
{
    if i < j {
        lemma_skip_separators_run(t, i + 1, j);
    }
}

proof fn lemma_skip_name_run(t: Seq<u8>, i: int, j: int)
    requires
        0 <= i <= j <= t.len(),
        forall|k: int| i <= k < j ==> is_name_byte(#[trigger] t[k]),
        j == t.len() || !is_name_byte(t[j]),
    ensures
        skip_name(t, i) == j,
    decreases j - i,
{
    if i < j {
        lemma_skip_name_run(t, i + 1, j);
    }
}

proof fn lemma_skip_to_quote_run(t: Seq<u8>, i: int, j: int, quote: u8)
    requires
        0 <= i <= j < t.len(),
        forall|k: int| i <= k < j ==> #[trigger] t[k] != quote,
        t[j] == quote,
    ensures
        skip_to_quote(t, i, quote) == j,
    decreases j - i,
{
    if i < j {
        lemma_skip_to_quote_run(t, i + 1, j, quote);
    }
}

/// `<meta K="P" content="V">`, with `K` the attribute naming the property
/// (`property` or `name`).
pub open spec fn meta_tag_with(key: Seq<u8>, property: Seq<u8>, content: Seq<u8>) -> Seq<u8> {
    seq![60u8, 109u8, 101u8, 116u8, 97u8, 32u8] + key + seq![61u8, 34u8] + property + seq![34u8, 32u8]
        + seq![99u8, 111u8, 110u8, 116u8, 101u8, 110u8, 116u8] + seq![61u8, 34u8] + content + seq![34u8, 62u8]
}

/// `<meta property="P" content="V">`
pub open spec fn meta_tag(property: Seq<u8>, content: Seq<u8>) -> Seq<u8> {
    meta_tag_with(seq![112u8, 114u8, 111u8, 112u8, 101u8, 114u8, 116u8, 121u8], property, content)
}

/// No byte is a double quote.
pub open spec fn no_quote(s: Seq<u8>) -> bool {
    forall|i: int| 0 <= i < s.len() ==> #[trigger] s[i] != 34u8
}

/// No byte is an ASCII capital letter.
pub open spec fn no_capital(s: Seq<u8>) -> bool {
    forall|i: int| 0 <= i < s.len() ==> !(65u8 <= #[trigger] s[i] && s[i] <= 90u8)
}

#[verifier::rlimit(60)]
#[verifier::spinoff_prover]
proof fn lemma_meta_tag_attrs(key: Seq<u8>, property: Seq<u8>, content: Seq<u8>)
    requires
        key == seq![112u8, 114u8, 111u8, 112u8, 101u8, 114u8, 116u8, 121u8] || key == seq![110u8, 97u8, 109u8, 101u8],
        no_quote(property),
        no_quote(content),
    ensures
        meta_attrs(meta_tag_with(key, property, content), 5, None, None)
            == (Some(lower_seq(property)), Some(decode_spec(utf8_lossy(content)))),
{
    let t = meta_tag_with(key, property, content);
    let k = key.len() as int;
    let p = property.len() as int;
    let v = content.len() as int;
    let open = seq![60u8, 109u8, 101u8, 116u8, 97u8, 32u8];
    assert(t.len() == 21 + k + p + v);
    assert forall|j: int| 0 <= j < 6 implies t[j] == open[j] by {}
    assert forall|j: int| 6 <= j < 6 + k implies t[j] == key[j - 6] by {}
    assert(t[6 + k] == 61u8 && t[7 + k] == 34u8);
    assert forall|j: int| 8 + k <= j < 8 + k + p implies t[j] == property[j - 8 - k] by {}
    assert(t[8 + k + p] == 34u8 && t[9 + k + p] == 32u8);
    let mid = seq![99u8, 111u8, 110u8, 116u8, 101u8, 110u8, 116u8] + seq![61u8, 34u8];
    assert forall|j: int| 10 + k + p <= j < 19 + k + p implies t[j] == mid[j - 10 - k - p] by {}
    assert forall|j: int| 19 + k + p <= j < 19 + k + p + v implies t[j] == content[j - 19 - k - p] by {}
    assert(t[19 + k + p + v] == 34u8 && t[20 + k + p + v] == 62u8);

    // K="..."
    lemma_skip_separators_run(t, 5, 6);
    assert forall|j: int| 6 <= j < 6 + k implies is_name_byte(#[trigger] t[j]) by {
        assert(t[j] == key[j - 6]);
    }
    lemma_skip_name_run(t, 6, 6 + k);
    assert(skip_spaces(t, 6 + k) == 6 + k);
    assert(skip_spaces(t, 7 + k) == 7 + k);
    assert forall|j: int| 8 + k <= j < 8 + k + p implies #[trigger] t[j] != 34u8 by {
        assert(t[j] == property[j - 8 - k]);
    }
    lemma_skip_to_quote_run(t, 8 + k, 8 + k + p, 34u8);
    assert(t.subrange(8 + k, 8 + k + p) =~= property);
    assert(t.subrange(6, 6 + k) =~= key);
    assert(eq_insensitive(key, attr_property()) || eq_insensitive(key, attr_name()));
    let after_property = meta_attrs(t, 9 + k + p, Some(lower_seq(property)), None);
    assert(meta_attrs(t, 5, None, None) == after_property);

    // content="..."
    lemma_skip_separators_run(t, 9 + k + p, 10 + k + p);
    lemma_skip_name_run(t, 10 + k + p, 17 + k + p);
    assert(skip_spaces(t, 17 + k + p) == 17 + k + p);
    assert(skip_spaces(t, 18 + k + p) == 18 + k + p);
    assert forall|j: int| 19 + k + p <= j < 19 + k + p + v implies #[trigger] t[j] != 34u8 by {
        assert(t[j] == content[j - 19 - k - p]);
    }
    lemma_skip_to_quote_run(t, 19 + k + p, 19 + k + p + v, 34u8);
    assert(t.subrange(19 + k + p, 19 + k + p + v) =~= content);
    assert(t.subrange(10 + k + p, 17 + k + p) =~= attr_content());
    assert(!eq_insensitive(attr_content(), attr_property()));
    assert(!eq_insensitive(attr_content(), attr_name()));
    assert(eq_insensitive(attr_content(), attr_content()));
    let final_attrs = (Some(lower_seq(property)), Some(decode_spec(utf8_lossy(content))));
    assert(after_property == meta_attrs(t, 20 + k + p + v, final_attrs.0, final_attrs.1));

    // `>` ends the tag.
    lemma_skip_separators_run(t, 20 + k + p + v, 21 + k + p + v);
}

/// The seven properties a `<meta property=... content=...>` (or `name=...`) tag is read for, and
/// the field each fills: `og:` and `twitter:` title, description and image
/// are OpenGraph values, plain `description` is the fallback. Any other
/// property yields nothing.
pub proof fn lemma_known_properties(key: Seq<u8>, property: Seq<u8>, content: Seq<u8>)
    requires
        key == seq![112u8, 114u8, 111u8, 112u8, 101u8, 114u8, 116u8, 121u8] || key == seq![110u8, 97u8, 109u8, 101u8],
        no_quote(property),
        no_capital(property),
        no_quote(content),
    ensures
        property == seq![111u8, 103u8, 58u8, 116u8, 105u8, 116u8, 108u8, 101u8] ==> parse_meta_spec(meta_tag_with(key, property, content))
            == Some((Field::Title, decode_spec(utf8_lossy(content)), true)),
        property == seq![116u8, 119u8, 105u8, 116u8, 116u8, 101u8, 114u8, 58u8, 116u8, 105u8, 116u8, 108u8, 101u8] ==> parse_meta_spec(meta_tag_with(key, property, content))
            == Some((Field::Title, decode_spec(utf8_lossy(content)), true)),
        property == seq![111u8, 103u8, 58u8, 100u8, 101u8, 115u8, 99u8, 114u8, 105u8, 112u8, 116u8, 105u8, 111u8, 110u8] ==> parse_meta_spec(meta_tag_with(key, property, content))
            == Some((Field::Description, decode_spec(utf8_lossy(content)), true)),
        property == seq![116u8, 119u8, 105u8, 116u8, 116u8, 101u8, 114u8, 58u8, 100u8, 101u8, 115u8, 99u8, 114u8, 105u8, 112u8, 116u8, 105u8, 111u8, 110u8] ==> parse_meta_spec(meta_tag_with(key, property, content))
            == Some((Field::Description, decode_spec(utf8_lossy(content)), true)),
        property == seq![100u8, 101u8, 115u8, 99u8, 114u8, 105u8, 112u8, 116u8, 105u8, 111u8, 110u8] ==> parse_meta_spec(meta_tag_with(key, property, content))
            == Some((Field::Description, decode_spec(utf8_lossy(content)), false)),
        property == seq![111u8, 103u8, 58u8, 105u8, 109u8, 97u8, 103u8, 101u8] ==> parse_meta_spec(meta_tag_with(key, property, content))
            == Some((Field::Image, decode_spec(utf8_lossy(content)), true)),
        property == seq![116u8, 119u8, 105u8, 116u8, 116u8, 101u8, 114u8, 58u8, 105u8, 109u8, 97u8, 103u8, 101u8] ==> parse_meta_spec(meta_tag_with(key, property, content))
            == Some((Field::Image, decode_spec(utf8_lossy(content)), true)),
        !(property == seq![111u8, 103u8, 58u8, 116u8, 105u8, 116u8, 108u8, 101u8] || property == seq![116u8, 119u8, 105u8, 116u8, 116u8, 101u8, 114u8, 58u8, 116u8, 105u8, 116u8, 108u8, 101u8]
            || property == seq![111u8, 103u8, 58u8, 100u8, 101u8, 115u8, 99u8, 114u8, 105u8, 112u8, 116u8, 105u8, 111u8, 110u8] || property == seq![116u8, 119u8, 105u8, 116u8, 116u8, 101u8, 114u8, 58u8, 100u8, 101u8, 115u8, 99u8, 114u8, 105u8, 112u8, 116u8, 105u8, 111u8, 110u8]
            || property == seq![100u8, 101u8, 115u8, 99u8, 114u8, 105u8, 112u8, 116u8, 105u8, 111u8, 110u8] || property == seq![111u8, 103u8, 58u8, 105u8, 109u8, 97u8, 103u8, 101u8]
            || property == seq![116u8, 119u8, 105u8, 116u8, 116u8, 101u8, 114u8, 58u8, 105u8, 109u8, 97u8, 103u8, 101u8]) ==> parse_meta_spec(meta_tag_with(key, property, content)) is None,
{
    lemma_meta_tag_attrs(key, property, content);
    assert(lower_seq(property) =~= property);
}

/// `<meta content=qVq K=qPq>`: content first, both values quoted with `q`.
pub open spec fn meta_tag_content_first(key: Seq<u8>, property: Seq<u8>, content: Seq<u8>, q: u8) -> Seq<u8> {
    seq![60u8, 109u8, 101u8, 116u8, 97u8, 32u8, 99u8, 111u8, 110u8, 116u8, 101u8, 110u8, 116u8, 61u8] + seq![q] + content + seq![q, 32u8] + key + seq![61u8, q] + property + seq![q, 62u8]
}

#[verifier::rlimit(60)]
#[verifier::spinoff_prover]
proof fn lemma_content_first_attrs(key: Seq<u8>, property: Seq<u8>, content: Seq<u8>, q: u8)
    requires
        key == seq![112u8, 114u8, 111u8, 112u8, 101u8, 114u8, 116u8, 121u8] || key == seq![110u8, 97u8, 109u8, 101u8],
        q == 34u8 || q == 39u8,
        forall|i: int| 0 <= i < property.len() ==> #[trigger] property[i] != q,
        forall|i: int| 0 <= i < content.len() ==> #[trigger] content[i] != q,
    ensures
        meta_attrs(meta_tag_content_first(key, property, content, q), 5, None, None)
            == (Some(lower_seq(property)), Some(decode_spec(utf8_lossy(content)))),
{
    let t = meta_tag_content_first(key, property, content, q);
    let k = key.len() as int;
    let p = property.len() as int;
    let v = content.len() as int;
    let open = seq![60u8, 109u8, 101u8, 116u8, 97u8, 32u8, 99u8, 111u8, 110u8, 116u8, 101u8, 110u8, 116u8, 61u8];
    assert(t.len() == 21 + k + p + v);
    assert forall|j: int| 0 <= j < 14 implies t[j] == open[j] by {}
    assert(t[14] == q);
    assert forall|j: int| 15 <= j < 15 + v implies t[j] == content[j - 15] by {}
    assert(t[15 + v] == q && t[16 + v] == 32u8);
    assert forall|j: int| 17 + v <= j < 17 + v + k implies t[j] == key[j - 17 - v] by {}
    assert(t[17 + v + k] == 61u8 && t[18 + v + k] == q);
    assert forall|j: int| 19 + v + k <= j < 19 + v + k + p implies t[j] == property[j - 19 - v - k] by {}
    assert(t[19 + v + k + p] == q && t[20 + v + k + p] == 62u8);

    // content=q...q
    lemma_skip_separators_run(t, 5, 6);
    lemma_skip_name_run(t, 6, 13);
    assert(skip_spaces(t, 13) == 13);
    assert(skip_spaces(t, 14) == 14);
    assert forall|j: int| 15 <= j < 15 + v implies #[trigger] t[j] != q by {
        assert(t[j] == content[j - 15]);
    }
    lemma_skip_to_quote_run(t, 15, 15 + v, q);
    assert(t.subrange(15, 15 + v) =~= content);
    assert(t.subrange(6, 13) =~= attr_content());
    assert(!eq_insensitive(attr_content(), attr_property()));
    assert(!eq_insensitive(attr_content(), attr_name()));
    let after_content = meta_attrs(t, 16 + v, None, Some(decode_spec(utf8_lossy(content))));
    assert(meta_attrs(t, 5, None, None) == after_content);

    // K=q...q
    lemma_skip_separators_run(t, 16 + v, 17 + v);
    assert forall|j: int| 17 + v <= j < 17 + v + k implies is_name_byte(#[trigger] t[j]) by {
        assert(t[j] == key[j - 17 - v]);
    }
    lemma_skip_name_run(t, 17 + v, 17 + v + k);
    assert(skip_spaces(t, 17 + v + k) == 17 + v + k);
    assert(skip_spaces(t, 18 + v + k) == 18 + v + k);
    assert forall|j: int| 19 + v + k <= j < 19 + v + k + p implies #[trigger] t[j] != q by {
        assert(t[j] == property[j - 19 - v - k]);
    }
    lemma_skip_to_quote_run(t, 19 + v + k, 19 + v + k + p, q);
    assert(t.subrange(19 + v + k, 19 + v + k + p) =~= property);
    assert(t.subrange(17 + v, 17 + v + k) =~= key);
    assert(eq_insensitive(key, attr_property()) || eq_insensitive(key, attr_name()));
    assert(after_content == meta_attrs(t, 20 + v + k + p, Some(lower_seq(property)), Some(decode_spec(utf8_lossy(content)))));

    // `>` ends the tag.
    lemma_skip_separators_run(t, 20 + v + k + p, 21 + v + k + p);
}

/// The order of the attributes and the quote style (double or single) do not
/// change what a `<meta>` tag yields.
pub proof fn lemma_attribute_order_and_quotes(key: Seq<u8>, property: Seq<u8>, content: Seq<u8>, q: u8)
    requires
        key == seq![112u8, 114u8, 111u8, 112u8, 101u8, 114u8, 116u8, 121u8] || key == seq![110u8, 97u8, 109u8, 101u8],
        q == 34u8 || q == 39u8,
        no_quote(property),
        forall|i: int| 0 <= i < property.len() ==> #[trigger] property[i] != q,
        no_quote(content),
        forall|i: int| 0 <= i < content.len() ==> #[trigger] content[i] != q,
    ensures
        parse_meta_spec(meta_tag_content_first(key, property, content, q))
            == parse_meta_spec(meta_tag_with(key, property, content)),
{
    lemma_meta_tag_attrs(key, property, content);
    lemma_content_first_attrs(key, property, content, q);
}

/// The property is matched ignoring ASCII case: `OG:Title` reads as `og:title`.
pub proof fn lemma_property_case_ignored(key: Seq<u8>, property: Seq<u8>, content: Seq<u8>)
    requires
        key == seq![112u8, 114u8, 111u8, 112u8, 101u8, 114u8, 116u8, 121u8] || key == seq![110u8, 97u8, 109u8, 101u8],
        no_quote(property),
        no_quote(content),
    ensures
        parse_meta_spec(meta_tag_with(key, property, content))
            == parse_meta_spec(meta_tag_with(key, lower_seq(property), content)),
{
    let lowered = lower_seq(property);
    assert forall|i: int| 0 <= i < lowered.len() implies #[trigger] lowered[i] != 34u8 by {
        assert(property[i] != 34u8);
    }
    lemma_meta_tag_attrs(key, property, content);
    lemma_meta_tag_attrs(key, lowered, content);
    assert(lower_seq(lowered) =~= lowered);
}

} // verus!
