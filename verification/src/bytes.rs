//! Case-insensitive byte searches used by the streaming HTML scanner.

use vstd::prelude::*;
use crate::text::{lower, to_ascii_lower};

verus! {

/// `Some(k)` as an integer index, or `None`.
pub open spec fn opt_index(r: Option<usize>) -> Option<int> {
    match r {
        Some(k) => Some(k as int),
        None => None,
    }
}

/// Each byte of `left`, ASCII-lowercased, equals the byte of `right` at the same place
/// (`right` is expected in lowercase).
pub open spec fn eq_insensitive(left: Seq<u8>, right: Seq<u8>) -> bool {
    left.len() == right.len() && forall|i: int| 0 <= i < left.len() ==> lower(#[trigger] left[i]) == right[i]
}

pub fn bytes_equal_insensitive(left: &[u8], right: &[u8]) -> (r: bool)
    ensures
        r == eq_insensitive(left@, right@),
{
    if left.len() != right.len() {
        return false;
    }
    let n = left.len();
    let mut i: usize = 0;
    while i < n
        invariant
            0 <= i <= n,
            n == left@.len(),
            n == right@.len(),
            forall|j: int| 0 <= j < i ==> lower(#[trigger] left@[j]) == right@[j],
        decreases n - i,
    {
        if to_ascii_lower(left[i]) != right[i] {
            return false;
        }
        i = i + 1;
    }
    true
}

/// `k` is the first place of `needle` in `haystack`.
pub open spec fn is_first_byte(haystack: Seq<u8>, needle: u8, k: int) -> bool {
    &&& 0 <= k < haystack.len()
    &&& haystack[k] == needle
    &&& forall|j: int| 0 <= j < k ==> haystack[j] != needle
}

/// The first place of `needle` in `haystack`, if it occurs.
pub open spec fn first_byte(haystack: Seq<u8>, needle: u8) -> Option<int> {
    if exists|k: int| is_first_byte(haystack, needle, k) {
        Some(choose|k: int| is_first_byte(haystack, needle, k))
    } else {
        None
    }
}

pub proof fn lemma_first_byte_unique(haystack: Seq<u8>, needle: u8, k: int)
    requires
        is_first_byte(haystack, needle, k),
    ensures
        first_byte(haystack, needle) == Some(k),
{
    let c = choose|c: int| is_first_byte(haystack, needle, c);
    assert(is_first_byte(haystack, needle, c));
    if c < k {
        assert(haystack[c] != needle);
    }
    if k < c {
        assert(haystack[k] != needle);
    }
}

pub fn find_byte(haystack: &[u8], needle: u8) -> (r: Option<usize>)
    ensures
        opt_index(r) == first_byte(haystack@, needle),
        r matches Some(k) ==> is_first_byte(haystack@, needle, k as int),
        r is None ==> forall|j: int| 0 <= j < haystack@.len() ==> haystack@[j] != needle,
{
    let n = haystack.len();
    let mut i: usize = 0;
    while i < n
        invariant
            0 <= i <= n,
            n == haystack@.len(),
            forall|j: int| 0 <= j < i ==> haystack@[j] != needle,
        decreases n - i,
    {
        if haystack[i] == needle {
            proof {
                lemma_first_byte_unique(haystack@, needle, i as int);
            }
            return Some(i);
        }
        i = i + 1;
    }
    proof {
        if exists|k: int| is_first_byte(haystack@, needle, k) {
            let k = choose|k: int| is_first_byte(haystack@, needle, k);
            assert(haystack@[k] == needle);
        }
    }
    None
}

/// `needle` occurs at `k` in `haystack`, ignoring the case of `haystack`.
pub open spec fn window_matches(haystack: Seq<u8>, needle: Seq<u8>, k: int) -> bool {
    &&& 0 <= k
    &&& k + needle.len() <= haystack.len()
    &&& eq_insensitive(haystack.subrange(k, k + needle.len()), needle)
}

pub open spec fn is_first_window(haystack: Seq<u8>, needle: Seq<u8>, k: int) -> bool {
    &&& window_matches(haystack, needle, k)
    &&& forall|j: int| 0 <= j < k ==> !#[trigger] window_matches(haystack, needle, j)
}

/// The first place where a non-empty `needle` occurs in `haystack`, ignoring case.
pub open spec fn first_window(haystack: Seq<u8>, needle: Seq<u8>) -> Option<int> {
    if needle.len() > 0 && exists|k: int| is_first_window(haystack, needle, k) {
        Some(choose|k: int| is_first_window(haystack, needle, k))
    } else {
        None
    }
}

pub proof fn lemma_first_window_unique(haystack: Seq<u8>, needle: Seq<u8>, k: int)
    requires
        needle.len() > 0,
        is_first_window(haystack, needle, k),
    ensures
        first_window(haystack, needle) == Some(k),
{
    let c = choose|c: int| is_first_window(haystack, needle, c);
    assert(is_first_window(haystack, needle, c));
    if c < k {
        assert(!window_matches(haystack, needle, c));
    }
    if k < c {
        assert(!window_matches(haystack, needle, k));
    }
}

pub fn find_insensitive(haystack: &[u8], needle: &[u8]) -> (r: Option<usize>)
    ensures
        opt_index(r) == first_window(haystack@, needle@),
{
    if needle.len() == 0 || haystack.len() < needle.len() {
        proof {
            if needle@.len() > 0 && exists|k: int| is_first_window(haystack@, needle@, k) {
                let k = choose|k: int| is_first_window(haystack@, needle@, k);
                assert(window_matches(haystack@, needle@, k));
            }
        }
        return None;
    }
    let n = haystack.len();
    let m = needle.len();
    let last = n - m;
    let mut i: usize = 0;
    while i <= last
        invariant
            0 <= i <= last + 1,
            last == n - m,
            m <= n,
            m > 0,
            n == haystack@.len(),
            m == needle@.len(),
            forall|j: int| 0 <= j < i ==> !#[trigger] window_matches(haystack@, needle@, j),
        decreases last + 1 - i,
    {
        let window = &haystack[i..i + m];
        if bytes_equal_insensitive(window, needle) {
            proof {
                lemma_first_window_unique(haystack@, needle@, i as int);
            }
            return Some(i);
        }
        i = i + 1;
    }
    proof {
        if exists|k: int| is_first_window(haystack@, needle@, k) {
            let k = choose|k: int| is_first_window(haystack@, needle@, k);
            assert(window_matches(haystack@, needle@, k));
        }
    }
    None
}

/// `haystack` begins with `prefix`, ignoring the case of `haystack`.
pub open spec fn starts_insensitive(haystack: Seq<u8>, prefix: Seq<u8>) -> bool {
    haystack.len() >= prefix.len() && eq_insensitive(haystack.take(prefix.len() as int), prefix)
}

pub fn starts_with_insensitive(haystack: &[u8], prefix: &[u8]) -> (r: bool)
    ensures
        r == starts_insensitive(haystack@, prefix@),
{
    haystack.len() >= prefix.len() && bytes_equal_insensitive(&haystack[0..prefix.len()], prefix)
}

/// `<meta`
pub open spec fn meta_open() -> Seq<u8> {
    seq![60u8, 109u8, 101u8, 116u8, 97u8]
}

/// `<title`
pub open spec fn title_open() -> Seq<u8> {
    seq![60u8, 116u8, 105u8, 116u8, 108u8, 101u8]
}

/// `</title`
pub open spec fn title_close() -> Seq<u8> {
    seq![60u8, 47u8, 116u8, 105u8, 116u8, 108u8, 101u8]
}

/// `</head`
pub open spec fn head_close() -> Seq<u8> {
    seq![60u8, 47u8, 104u8, 101u8, 97u8, 100u8]
}

/// `<head`
pub open spec fn head_open() -> Seq<u8> {
    seq![60u8, 104u8, 101u8, 97u8, 100u8]
}

/// `tail` is the start of `candidate`, both sides compared without case.
pub open spec fn is_prefix_of_tag(tail: Seq<u8>, candidate: Seq<u8>) -> bool {
    candidate.len() >= tail.len() && forall|i: int| 0 <= i < tail.len() ==> lower(#[trigger] candidate[i]) == lower(tail[i])
}

/// `tail` is non-empty and may be the cut-off start of `<meta`, `<title`,
/// `</title`, `</head` or `<head`.
pub open spec fn split_tag_prefix(tail: Seq<u8>) -> bool {
    &&& tail.len() > 0
    &&& {
        ||| is_prefix_of_tag(tail, meta_open())
        ||| is_prefix_of_tag(tail, title_open())
        ||| is_prefix_of_tag(tail, title_close())
        ||| is_prefix_of_tag(tail, head_close())
        ||| is_prefix_of_tag(tail, head_open())
    }
}

fn tag_prefix_matches(tail: &[u8], candidate: &[u8]) -> (r: bool)
    ensures
        r == is_prefix_of_tag(tail@, candidate@),
{
    if candidate.len() < tail.len() {
        return false;
    }
    let n = tail.len();
    let mut i: usize = 0;
    while i < n
        invariant
            0 <= i <= n,
            n == tail@.len(),
            n <= candidate@.len(),
            forall|j: int| 0 <= j < i ==> lower(#[trigger] candidate@[j]) == lower(tail@[j]),
        decreases n - i,
    {
        if to_ascii_lower(candidate[i]) != to_ascii_lower(tail[i]) {
            return false;
        }
        i = i + 1;
    }
    true
}

pub fn is_split_tag_prefix(tail: &[u8]) -> (r: bool)
    ensures
        r == split_tag_prefix(tail@),
{
    if tail.len() == 0 {
        return false;
    }
    let meta: [u8; 5] = [60, 109, 101, 116, 97];
    let title: [u8; 6] = [60, 116, 105, 116, 108, 101];
    let title_end: [u8; 7] = [60, 47, 116, 105, 116, 108, 101];
    let head_end: [u8; 6] = [60, 47, 104, 101, 97, 100];
    let head: [u8; 5] = [60, 104, 101, 97, 100];
    assert(meta@ =~= meta_open());
    assert(title@ =~= title_open());
    assert(title_end@ =~= title_close());
    assert(head_end@ =~= head_close());
    assert(head@ =~= head_open());
    tag_prefix_matches(tail, meta.as_slice()) || tag_prefix_matches(tail, title.as_slice())
        || tag_prefix_matches(tail, title_end.as_slice()) || tag_prefix_matches(tail, head_end.as_slice())
        || tag_prefix_matches(tail, head.as_slice())
}

/// The longest suffix of `buffer` of length at most `length` that `split_tag_prefix` accepts.
pub open spec fn trailing_from(buffer: Seq<u8>, length: int) -> int
    decreases length,
{
    if length <= 0 {
        0
    } else if split_tag_prefix(buffer.skip(buffer.len() - length)) {
        length
    } else {
        trailing_from(buffer, length - 1)
    }
}

/// How many bytes at the end of `buffer` may be a tag cut off by a chunk
/// boundary (at most 8).
pub open spec fn trailing_prefix(buffer: Seq<u8>) -> int {
    trailing_from(buffer, if buffer.len() < 8 { buffer.len() as int } else { 8 })
}

pub fn trailing_prefix_len(buffer: &[u8]) -> (r: usize)
    ensures
        r as int == trailing_prefix(buffer@),
{
    let n = buffer.len();
    let max: usize = if n < 8 { n } else { 8 };
    let mut length: usize = max;
    while length >= 1
        invariant
            0 <= length <= max <= 8,
            max <= n,
            n == buffer@.len(),
            trailing_prefix(buffer@) == trailing_from(buffer@, length as int),
        decreases length,
    {
        let tail = &buffer[n - length..n];
        assert(tail@ =~= buffer@.skip(n - length));
        if is_split_tag_prefix(tail) {
            assert(trailing_from(buffer@, length as int) == length as int);
            return length;
        }
        length = length - 1;
    }
    0
}

// ---------------------------------------------------------------------------
// Laws
// ---------------------------------------------------------------------------

/// What `trailing_prefix_len` keeps is never longer than 8 bytes, and when it keeps
/// anything, the kept suffix starts with `<`: only a tag can be cut in two.
pub proof fn lemma_trailing_prefix_starts_tag(buffer: Seq<u8>)
    ensures
        0 <= trailing_prefix(buffer) <= 8,
        trailing_prefix(buffer) <= buffer.len(),
        trailing_prefix(buffer) > 0 ==> buffer[buffer.len() - trailing_prefix(buffer)] == 60u8,
{
    let max: int = if buffer.len() < 8 { buffer.len() as int } else { 8 };
    lemma_trailing_from(buffer, max);
}

proof fn lemma_trailing_from(buffer: Seq<u8>, length: int)
    requires
        length <= buffer.len(),
    ensures
        0 <= trailing_from(buffer, length),
        length >= 0 ==> trailing_from(buffer, length) <= length,
        trailing_from(buffer, length) > 0 ==> buffer[buffer.len() - trailing_from(buffer, length)] == 60u8,
    decreases length,
{
    if length > 0 {
        let tail = buffer.skip(buffer.len() - length);
        if split_tag_prefix(tail) {
            assert(tail[0] == buffer[buffer.len() - length]);
            assert(lower(tail[0]) == 60u8);
        } else {
            lemma_trailing_from(buffer, length - 1);
        }
    }
}

} // verus!
