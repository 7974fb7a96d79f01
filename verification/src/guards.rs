//! Checks on an upstream response before its body is read.

use vstd::prelude::*;
use crate::domain::ScrapeError;
use crate::entities::{first_char, is_first_char};
use crate::scanner::MAX_BYTES;
use crate::text::{str_chars, trim_chars, trim_spec};

verus! {

/// `StatusCode::is_success`: the 2xx codes.
pub open spec fn is_success_status(status: u16) -> bool {
    200 <= status && status <= 299
}

/// Fails with `Upstream` unless the status is 2xx.
pub fn ensure_success(status: u16) -> (r: Result<(), ScrapeError>)
    ensures
        r == if is_success_status(status) { Ok::<(), ScrapeError>(()) } else { Err(ScrapeError::Upstream) },
{
    if !(200 <= status && status <= 299) {
        return Err(ScrapeError::Upstream);
    }
    Ok(())
}

/// A declared length over the cap; an unknown length is let through (the
/// scanner counts the bytes).
pub open spec fn too_large(content_length: Option<u64>) -> bool {
    content_length matches Some(length) && length > MAX_BYTES
}

pub fn is_body_too_large(content_length: Option<u64>) -> (r: bool)
    ensures
        r == too_large(content_length),
{
    match content_length {
        Some(length) => length > MAX_BYTES,
        None => false,
    }
}

/// Fails with `TooLarge` when the declared length is over the cap.
pub fn ensure_size(content_length: Option<u64>) -> (r: Result<(), ScrapeError>)
    ensures
        r == if too_large(content_length) { Err(ScrapeError::TooLarge) } else { Ok::<(), ScrapeError>(()) },
{
    if is_body_too_large(content_length) {
        return Err(ScrapeError::TooLarge);
    }
    Ok(())
}

/// ASCII lowercase of a character.
pub open spec fn lower_char(c: char) -> char {
    if 'A' <= c && c <= 'Z' { ((c as u32) + 32) as char } else { c }
}

/// `left` equals the lowercase `right` when `left` is ASCII-lowercased.
pub open spec fn chars_eq_insensitive(left: Seq<char>, right: Seq<char>) -> bool {
    left.len() == right.len() && forall|i: int| 0 <= i < left.len() ==> lower_char(#[trigger] left[i]) == right[i]
}

/// The media type of a `Content-Type` value: what stands before the first `;`, trimmed.
pub open spec fn essence(content_type: Seq<char>) -> Seq<char> {
    match first_char(content_type, ';') {
        Some(k) => trim_spec(content_type.take(k)),
        None => trim_spec(content_type),
    }
}

/// `text/html`
pub open spec fn text_html() -> Seq<char> {
    seq!['t', 'e', 'x', 't', '/', 'h', 't', 'm', 'l']
}

/// `application/xhtml+xml`
pub open spec fn application_xhtml() -> Seq<char> {
    seq!['a', 'p', 'p', 'l', 'i', 'c', 'a', 't', 'i', 'o', 'n', '/', 'x', 'h', 't', 'm', 'l', '+', 'x', 'm', 'l']
}

/// An absent (empty) content type, or one whose media type is `text/html` or
/// `application/xhtml+xml` in any case; parameters after `;` do not matter.
pub open spec fn html_content_type(content_type: Seq<char>) -> bool {
    ||| content_type.len() == 0
    ||| chars_eq_insensitive(essence(content_type), text_html())
    ||| chars_eq_insensitive(essence(content_type), application_xhtml())
}

fn to_lower_char(c: char) -> (r: char)
    ensures
        r == lower_char(c),
{
    if 'A' <= c && c <= 'Z' {
        let b = (c as u8) + 32;
        b as char
    } else {
        c
    }
}

fn equal_insensitive_chars(left: &[char], right: &[char]) -> (r: bool)
    ensures
        r == chars_eq_insensitive(left@, right@),
{
    if left.len() != right.len() {
        return false;
    }
    let n = left.len();
    let mut i: usize = 0;
    while i < n
        invariant
            0 <= i <= n,
            n == left@.len(),
            n == right@.len(),
            forall|j: int| 0 <= j < i ==> lower_char(#[trigger] left@[j]) == right@[j],
        decreases n - i,
    {
        if to_lower_char(left[i]) != right[i] {
            return false;
        }
        i = i + 1;
    }
    true
}

/// Empty means no header sent: allowed, the scanner decides.
pub fn is_html_content_type(content_type: &str) -> (r: bool)
    ensures
        r == html_content_type(content_type@),
{
    let chars = str_chars(content_type);
    if chars.len() == 0 {
        return true;
    }
    let n = chars.len();
    let mut end: usize = 0;
    while end < n && chars[end] != ';'
        invariant
            0 <= end <= n,
            n == chars@.len(),
            forall|j: int| 0 <= j < end ==> chars@[j] != ';',
        decreases n - end,
    {
        end = end + 1;
    }
    proof {
        if end < n {
            let w = choose|w: int| is_first_char(chars@, ';', w);
            assert(is_first_char(chars@, ';', end as int));
            if w < end {
                assert(chars@[w] != ';');
            }
            if end < w {
                assert(chars@[end as int] != ';');
            }
        } else {
            assert(chars@.take(end as int) =~= chars@);
            if exists|w: int| is_first_char(chars@, ';', w) {
                let w = choose|w: int| is_first_char(chars@, ';', w);
                assert(chars@[w] == ';');
            }
        }
    }
    let all = chars.as_slice();
    let head = &all[0..end];
    assert(head@ =~= chars@.take(end as int));
    let media = trim_chars(head);
    let html: [char; 9] = ['t', 'e', 'x', 't', '/', 'h', 't', 'm', 'l'];
    let xhtml: [char; 21] = ['a', 'p', 'p', 'l', 'i', 'c', 'a', 't', 'i', 'o', 'n', '/', 'x', 'h', 't', 'm', 'l', '+', 'x', 'm', 'l'];
    assert(html@ =~= text_html());
    assert(xhtml@ =~= application_xhtml());
    equal_insensitive_chars(media.as_slice(), html.as_slice()) || equal_insensitive_chars(media.as_slice(), xhtml.as_slice())
}

/// Fails with `UnsupportedMedia` unless the content type is HTML (or absent).
pub fn ensure_html(content_type: &str) -> (r: Result<(), ScrapeError>)
    ensures
        r == if html_content_type(content_type@) { Ok::<(), ScrapeError>(()) } else { Err(ScrapeError::UnsupportedMedia) },
{
    if !is_html_content_type(content_type) {
        return Err(ScrapeError::UnsupportedMedia);
    }
    Ok(())
}

/// The checks on a response before its body is read, in this order: 2xx
/// status, declared size within the cap, HTML content type.
pub fn check_response(status: u16, content_length: Option<u64>, content_type: &str) -> (r: Result<(), ScrapeError>)
    ensures
        r == if !is_success_status(status) {
            Err(ScrapeError::Upstream)
        } else if too_large(content_length) {
            Err(ScrapeError::TooLarge)
        } else if !html_content_type(content_type@) {
            Err(ScrapeError::UnsupportedMedia)
        } else {
            Ok::<(), ScrapeError>(())
        },
{
    match ensure_success(status) {
        Ok(()) => {},
        Err(e) => return Err(e),
    }
    match ensure_size(content_length) {
        Ok(()) => {},
        Err(e) => return Err(e),
    }
    ensure_html(content_type)
}

/// Content-type parameters never matter: for a non-empty media type `m`
/// without `;`, `m;p` is accepted exactly when `m` is.
pub proof fn lemma_parameters_ignored(media: Seq<char>, parameters: Seq<char>)
    requires
        media.len() > 0,
        forall|i: int| 0 <= i < media.len() ==> media[i] != ';',
    ensures
        html_content_type(media + seq![';'] + parameters) == html_content_type(media),
{
    let full = media + seq![';'] + parameters;
    let k = media.len() as int;
    assert(is_first_char(full, ';', k));
    let w = choose|w: int| is_first_char(full, ';', w);
    assert(is_first_char(full, ';', w));
    if w < k {
        assert(full[w] == media[w]);
    }
    if k < w {
        assert(full[k] != ';');
    }
    assert(full.take(k) =~= media);
    if exists|j: int| is_first_char(media, ';', j) {
        let j = choose|j: int| is_first_char(media, ';', j);
        assert(media[j] == ';');
    }
}

} // verus!
