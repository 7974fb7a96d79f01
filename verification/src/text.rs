//! Character and byte helpers shared by the HTML scanner and the URL guard.

use vstd::prelude::*;
use vstd::utf8::*;

verus! {

// ---------------------------------------------------------------------------
// Bytes (ASCII)
// ---------------------------------------------------------------------------

/// ASCII lowercase of a byte; every other byte is left as it is.
pub open spec fn lower(b: u8) -> u8 {
    if 65 <= b && b <= 90 { (b + 32) as u8 } else { b }
}

pub fn to_ascii_lower(b: u8) -> (r: u8)
    ensures
        r == lower(b),
{
    if 65 <= b && b <= 90 { b + 32 } else { b }
}

/// The byte set of `u8::is_ascii_whitespace`: space, tab, LF, FF, CR.
pub open spec fn is_ascii_space(b: u8) -> bool {
    b == 32 || b == 9 || b == 10 || b == 12 || b == 13
}

pub fn ascii_space(b: u8) -> (r: bool)
    ensures
        r == is_ascii_space(b),
{
    b == 32 || b == 9 || b == 10 || b == 12 || b == 13
}

/// `u8::is_ascii_alphanumeric`.
pub open spec fn is_ascii_alnum(b: u8) -> bool {
    (48 <= b && b <= 57) || (65 <= b && b <= 90) || (97 <= b && b <= 122)
}

pub fn ascii_alnum(b: u8) -> (r: bool)
    ensures
        r == is_ascii_alnum(b),
{
    (48 <= b && b <= 57) || (65 <= b && b <= 90) || (97 <= b && b <= 122)
}

/// Bytewise ASCII lowercase of a sequence.
pub open spec fn lower_seq(s: Seq<u8>) -> Seq<u8> {
    Seq::new(s.len(), |i: int| lower(s[i]))
}

// ---------------------------------------------------------------------------
// Characters
// ---------------------------------------------------------------------------

/// The characters with the Unicode `White_Space` property, which is what
/// `char::is_whitespace` (and so `str::trim`) tests for.
pub open spec fn is_white_space(c: char) -> bool {
    let v = c as u32;
    (9 <= v && v <= 13) || v == 32 || v == 0x85 || v == 0xA0 || v == 0x1680
        || (0x2000 <= v && v <= 0x200A) || v == 0x2028 || v == 0x2029 || v == 0x202F
        || v == 0x205F || v == 0x3000
}

pub fn white_space(c: char) -> (r: bool)
    ensures
        r == is_white_space(c),
{
    let v = c as u32;
    (9 <= v && v <= 13) || v == 32 || v == 0x85 || v == 0xA0 || v == 0x1680
        || (0x2000 <= v && v <= 0x200A) || v == 0x2028 || v == 0x2029 || v == 0x202F
        || v == 0x205F || v == 0x3000
}

/// Number of leading white-space characters of `s`.
pub open spec fn leading_white(s: Seq<char>) -> nat
    decreases s.len(),
{
    if s.len() > 0 && is_white_space(s[0]) {
        1 + leading_white(s.drop_first())
    } else {
        0
    }
}

/// Number of trailing white-space characters of `s`.
pub open spec fn trailing_white(s: Seq<char>) -> nat
    decreases s.len(),
{
    if s.len() > 0 && is_white_space(s.last()) {
        1 + trailing_white(s.drop_last())
    } else {
        0
    }
}

/// `str::trim`: `s` without its leading and trailing white space.
pub open spec fn trim_spec(s: Seq<char>) -> Seq<char> {
    let head = s.skip(leading_white(s) as int);
    head.take(head.len() - trailing_white(head))
}

proof fn lemma_leading_white(s: Seq<char>, i: int)
    requires
        0 <= i <= s.len(),
        forall|j: int| 0 <= j < i ==> is_white_space(#[trigger] s[j]),
        i == s.len() || !is_white_space(s[i]),
    ensures
        leading_white(s) == i,
    decreases i,
{
    if i > 0 {
        lemma_leading_white(s.drop_first(), i - 1);
    }
}

proof fn lemma_trailing_white(s: Seq<char>, k: int)
    requires
        0 <= k <= s.len(),
        forall|j: int| s.len() - k <= j < s.len() ==> is_white_space(#[trigger] s[j]),
        k == s.len() || !is_white_space(s[s.len() - k - 1]),
    ensures
        trailing_white(s) == k,
    decreases k,
{
    if k > 0 {
        lemma_trailing_white(s.drop_last(), k - 1);
    }
}

proof fn lemma_leading_white_stops(s: Seq<char>)
    ensures
        leading_white(s) <= s.len(),
        leading_white(s) < s.len() ==> !is_white_space(s[leading_white(s) as int]),
    decreases s.len(),
{
    if s.len() > 0 && is_white_space(s[0]) {
        lemma_leading_white_stops(s.drop_first());
        if leading_white(s) < s.len() {
            assert(s[leading_white(s) as int] == s.drop_first()[leading_white(s.drop_first()) as int]);
        }
    }
}

proof fn lemma_trailing_white_stops(s: Seq<char>)
    ensures
        trailing_white(s) <= s.len(),
        trailing_white(s) < s.len() ==> !is_white_space(s[s.len() - trailing_white(s) - 1]),
    decreases s.len(),
{
    if s.len() > 0 && is_white_space(s.last()) {
        lemma_trailing_white_stops(s.drop_last());
        if trailing_white(s) < s.len() {
            assert(s[s.len() - trailing_white(s) - 1] == s.drop_last()[s.drop_last().len() - trailing_white(s.drop_last()) - 1]);
        }
    }
}

/// Trimming twice is trimming once.
pub proof fn lemma_trim_idempotent(s: Seq<char>)
    ensures
        trim_spec(trim_spec(s)) == trim_spec(s),
{
    lemma_leading_white_stops(s);
    let head = s.skip(leading_white(s) as int);
    lemma_trailing_white_stops(head);
    let t = trim_spec(s);
    if t.len() > 0 {
        assert(t[0] == head[0]);
        assert(head[0] == s[leading_white(s) as int]);
        assert(leading_white(t) == 0);
        assert(t.last() == head[head.len() - trailing_white(head) - 1]);
        assert(trailing_white(t) == 0);
    }
    assert(trim_spec(t) =~= t);
}

/// The characters of `s` with the leading and trailing white space removed.
pub fn trim_chars(s: &[char]) -> (res: Vec<char>)
    ensures
        res@ == trim_spec(s@),
{
    let n = s.len();
    let mut start: usize = 0;
    while start < n && white_space(s[start])
        invariant
            0 <= start <= n,
            n == s@.len(),
            forall|j: int| 0 <= j < start ==> is_white_space(#[trigger] s@[j]),
        decreases n - start,
    {
        start = start + 1;
    }
    proof {
        lemma_leading_white(s@, start as int);
    }
    let ghost head = s@.skip(start as int);
    let mut end: usize = n;
    while end > start && white_space(s[end - 1])
        invariant
            start <= end <= n,
            n == s@.len(),
            head == s@.skip(start as int),
            forall|j: int| end <= j < n ==> is_white_space(#[trigger] s@[j]),
        decreases end - start,
    {
        end = end - 1;
    }
    proof {
        let k = (n - end) as int;
        assert forall|j: int| head.len() - k <= j < head.len() implies is_white_space(#[trigger] head[j]) by {
            assert(head[j] == s@[j + start]);
        }
        if k < head.len() {
            assert(head[head.len() - k - 1] == s@[end - 1]);
        }
        lemma_trailing_white(head, k);
    }
    let mut res: Vec<char> = Vec::new();
    let mut i = start;
    while i < end
        invariant
            start <= i <= end <= n,
            n == s@.len(),
            res@ == s@.subrange(start as int, i as int),
        decreases end - i,
    {
        res.push(s[i]);
        i = i + 1;
    }
    assert(res@ =~= trim_spec(s@));
    res
}

/// Exact equality of two character slices.
pub fn chars_eq(a: &[char], b: &[char]) -> (r: bool)
    ensures
        r == (a@ == b@),
{
    if a.len() != b.len() {
        return false;
    }
    let n = a.len();
    let mut i: usize = 0;
    while i < n
        invariant
            0 <= i <= n,
            n == a@.len(),
            n == b@.len(),
            forall|j: int| 0 <= j < i ==> a@[j] == b@[j],
        decreases n - i,
    {
        if a[i] != b[i] {
            return false;
        }
        i = i + 1;
    }
    assert(a@ =~= b@);
    true
}

/// The characters of `s`, in order.
pub fn str_chars(s: &str) -> (res: Vec<char>)
    ensures
        res@ == s@,
{
    let mut res: Vec<char> = Vec::new();
    for c in it: s.chars()
        invariant
            res@ == it.seq().take(it.index() as int),
            it.seq() == s@,
    {
        res.push(c);
    }
    res
}

/// Collects characters into a `String` (std's `FromIterator<&char> for String`);
/// the string holds exactly these characters.
#[verifier::external_body]
pub fn chars_to_string(chars: &[char]) -> (res: String)
    ensures
        res@ == chars@,
{
    chars.iter().collect()
}

/// What `String::from_utf8_lossy` makes of a byte sequence.
pub uninterp spec fn utf8_lossy(bytes: Seq<u8>) -> Seq<char>;

/// `String::from_utf8_lossy(bytes).into_owned()`. Its documentation: valid UTF-8
/// is decoded as it is; each invalid sequence becomes U+FFFD. The contract
/// states the first half (valid input decodes as UTF-8); what comes of invalid
/// input is left to the name `utf8_lossy`.
#[verifier::external_body]
pub fn lossy_string(bytes: &[u8]) -> (res: String)
    ensures
        res@ == utf8_lossy(bytes@),
        valid_utf8(bytes@) ==> res@ == decode_utf8(bytes@),
{
    String::from_utf8_lossy(bytes).into_owned()
}

/// The Unicode scalar values: the values that `char::from_u32` accepts.
pub open spec fn is_scalar_value(v: u32) -> bool {
    v <= 0x10FFFF && !(0xD800 <= v && v <= 0xDFFF)
}

/// `char::from_u32`: the character with code `v`, if `v` is a Unicode scalar value.
#[verifier::external_body]
pub fn char_from_u32(v: u32) -> (res: Option<char>)
    ensures
        res is Some <==> is_scalar_value(v),
        res matches Some(c) ==> c as u32 == v,
{
    char::from_u32(v)
}

// ---------------------------------------------------------------------------
// Integers in a radix (std's `u32::from_str_radix`, `str::parse::<u32>`)
// ---------------------------------------------------------------------------

/// `char::to_digit(radix)`: ASCII digits, then letters of either case from 10.
pub open spec fn digit_of(c: char, radix: u32) -> Option<u32> {
    let v = c as u32;
    let d: u32 = if 48 <= v && v <= 57 {
        (v - 48) as u32
    } else if 97 <= v && v <= 122 {
        (v - 97 + 10) as u32
    } else if 65 <= v && v <= 90 {
        (v - 65 + 10) as u32
    } else {
        99
    };
    if d < radix { Some(d) } else { None }
}

pub fn to_digit(c: char, radix: u32) -> (r: Option<u32>)
    requires
        2 <= radix <= 36,
    ensures
        r == digit_of(c, radix),
{
    let v = c as u32;
    let d: u32 = if 48 <= v && v <= 57 {
        v - 48
    } else if 97 <= v && v <= 122 {
        v - 97 + 10
    } else if 65 <= v && v <= 90 {
        v - 65 + 10
    } else {
        99
    };
    if d < radix { Some(d) } else { None }
}

/// The number that a sequence of digits spells in `radix`, if every character is a digit.
pub open spec fn digits_value(s: Seq<char>, radix: u32) -> Option<nat>
    decreases s.len(),
{
    if s.len() == 0 {
        Some(0)
    } else {
        match (digits_value(s.drop_last(), radix), digit_of(s.last(), radix)) {
            (Some(high), Some(d)) => Some(high * (radix as nat) + (d as nat)),
            _ => None,
        }
    }
}

/// `u32::from_str_radix(s, radix)`: an optional leading `+`, then at least one
/// digit, and a value that fits in a `u32`.
pub open spec fn radix_u32(s: Seq<char>, radix: u32) -> Option<u32> {
    let digits = if s.len() > 0 && s[0] == '+' { s.skip(1) } else { s };
    if digits.len() == 0 {
        None
    } else {
        match digits_value(digits, radix) {
            Some(v) => if v <= u32::MAX { Some(v as u32) } else { None },
            None => None,
        }
    }
}

proof fn lemma_digits_prefix(s: Seq<char>, radix: u32, i: int)
    requires
        0 <= i <= s.len(),
        2 <= radix,
        digits_value(s, radix) is Some,
    ensures
        digits_value(s.take(i), radix) is Some,
        digits_value(s.take(i), radix)->0 <= digits_value(s, radix)->0,
    decreases s.len(),
{
    if i < s.len() {
        assert(s.drop_last().take(i) =~= s.take(i));
        lemma_digits_prefix(s.drop_last(), radix, i);
        let high = digits_value(s.drop_last(), radix)->0;
        assert(high <= high * radix) by (nonlinear_arith)
            requires radix >= 2;
    } else {
        assert(s.take(i) =~= s);
    }
}

/// Parses `s` as std's `u32::from_str_radix(s, radix)` does.
pub fn parse_radix(s: &[char], radix: u32) -> (r: Option<u32>)
    requires
        2 <= radix <= 36,
    ensures
        r == radix_u32(s@, radix),
{
    let n = s.len();
    let start: usize = if n > 0 && s[0] == '+' { 1 } else { 0 };
    let ghost digits = if s@.len() > 0 && s@[0] == '+' { s@.skip(1) } else { s@ };
    assert(digits =~= s@.skip(start as int));
    if start == n {
        return None;
    }
    let mut acc: u64 = 0;
    let mut i = start;
    while i < n
        invariant
            start <= i <= n,
            n == s@.len(),
            2 <= radix <= 36,
            digits == s@.skip(start as int),
            digits == (if s@.len() > 0 && s@[0] == '+' { s@.skip(1) } else { s@ }),
            digits_value(digits.take(i - start), radix) == Some(acc as nat),
            acc <= u32::MAX,
        decreases n - i,
    {
        let ghost k = (i - start) as int;
        assert(digits.take(k + 1).drop_last() =~= digits.take(k));
        assert(digits.take(k + 1).last() == s@[i as int]);
        match to_digit(s[i], radix) {
            None => {
                proof {
                    assert(digits_value(digits.take(k + 1), radix) is None);
                    if digits_value(digits, radix) is Some {
                        lemma_digits_prefix(digits, radix, k + 1);
                    }
                }
                return None;
            },
            Some(d) => {
                assert(acc * (radix as u64) <= 0xFFFF_FFFF * 36) by (nonlinear_arith)
                    requires acc <= 0xFFFF_FFFF, radix <= 36;
                let next: u64 = acc * (radix as u64) + (d as u64);
                assert(digits_value(digits.take(k + 1), radix) == Some(next as nat));
                if next > 0xFFFF_FFFF {
                    proof {
                        if digits_value(digits, radix) is Some {
                            lemma_digits_prefix(digits, radix, k + 1);
                        }
                    }
                    return None;
                }
                acc = next;
                i = i + 1;
            },
        }
    }
    assert(digits.take(n - start) =~= digits);
    Some(acc as u32)
}

/// `char::is_ascii_digit`.
pub open spec fn is_digit_char(c: char) -> bool {
    '0' <= c && c <= '9'
}

} // verus!
