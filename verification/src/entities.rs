//! HTML character references (`&amp;`, `&#39;`, `&#x27;`, ...) in extracted text.

use vstd::prelude::*;
use crate::bytes::opt_index;
use crate::text::{char_from_u32, chars_eq, chars_to_string, digit_of, digits_value, parse_radix, radix_u32, str_chars};

verus! {

/// `k` is the first place of `c` in `s`.
pub open spec fn is_first_char(s: Seq<char>, c: char, k: int) -> bool {
    &&& 0 <= k < s.len()
    &&& s[k] == c
    &&& forall|j: int| 0 <= j < k ==> s[j] != c
}

/// The first place of `c` in `s`, if it occurs.
pub open spec fn first_char(s: Seq<char>, c: char) -> Option<int> {
    if exists|k: int| is_first_char(s, c, k) {
        Some(choose|k: int| is_first_char(s, c, k))
    } else {
        None
    }
}

pub proof fn lemma_first_char_unique(s: Seq<char>, c: char, k: int)
    requires
        is_first_char(s, c, k),
    ensures
        first_char(s, c) == Some(k),
{
    let w = choose|w: int| is_first_char(s, c, w);
    assert(is_first_char(s, c, w));
    if w < k {
        assert(s[w] != c);
    }
    if k < w {
        assert(s[k] != c);
    }
}

/// First place of `c` in `s` at or after `from`, as an offset from `from`.
fn find_char_from(s: &[char], from: usize, c: char) -> (r: Option<usize>)
    requires
        from <= s@.len(),
    ensures
        opt_index(r) == first_char(s@.skip(from as int), c),
{
    let n = s.len();
    let ghost rest = s@.skip(from as int);
    let mut i = from;
    while i < n
        invariant
            from <= i <= n,
            n == s@.len(),
            rest == s@.skip(from as int),
            forall|j: int| 0 <= j < i - from ==> rest[j] != c,
        decreases n - i,
    {
        if s[i] == c {
            proof {
                lemma_first_char_unique(rest, c, i - from);
            }
            return Some(i - from);
        }
        i = i + 1;
    }
    proof {
        if exists|k: int| is_first_char(rest, c, k) {
            let k = choose|k: int| is_first_char(rest, c, k);
            assert(rest[k] == c);
        }
    }
    None
}

/// The character that a whole reference `&...;` stands for: the five named ones
/// this scanner knows, or `&#N;` / `&#xH;` / `&#XH;` with a Unicode scalar value.
pub open spec fn entity_char(entity: Seq<char>) -> Option<char> {
    if entity == seq!['&', 'a', 'm', 'p', ';'] {
        Some('&')
    } else if entity == seq!['&', 'l', 't', ';'] {
        Some('<')
    } else if entity == seq!['&', 'g', 't', ';'] {
        Some('>')
    } else if entity == seq!['&', 'q', 'u', 'o', 't', ';'] {
        Some('"')
    } else if entity == seq!['&', '#', '3', '9', ';'] || entity == seq!['&', '#', 'x', '2', '7', ';']
        || entity == seq!['&', '#', 'X', '2', '7', ';'] {
        Some('\'')
    } else if entity.len() >= 3 && entity[0] == '&' && entity[1] == '#' {
        let number = entity.subrange(2, entity.len() - 1);
        let code = if number.len() > 0 && (number[0] == 'x' || number[0] == 'X') {
            radix_u32(number.skip(1), 16)
        } else {
            radix_u32(number, 10)
        };
        match code {
            Some(v) => if crate::text::is_scalar_value(v) { Some(v as char) } else { None },
            None => None,
        }
    } else {
        None
    }
}

/// The reference that starts at `i` (where `s[i]` is `&`): the decoded character
/// and the offset of its `;`, which must come within ten characters.
pub open spec fn entity_at(s: Seq<char>, i: int) -> Option<(char, int)> {
    let rest = s.skip(i);
    match first_char(rest, ';') {
        Some(end) => if end <= 10 {
            match entity_char(rest.take(end + 1)) {
                Some(c) => Some((c, end)),
                None => None,
            }
        } else {
            None
        },
        None => None,
    }
}

/// `s` from position `i` on, with each reference replaced by its character; an
/// `&` that starts no known reference is kept.
pub open spec fn decode_from(s: Seq<char>, i: int) -> Seq<char>
    decreases s.len() - i,
{
    if i < 0 || i >= s.len() {
        Seq::empty()
    } else if s[i] != '&' {
        seq![s[i]] + decode_from(s, i + 1)
    } else {
        match entity_at(s, i) {
            Some((c, end)) => seq![c] + decode_from(s, i + end + 1),
            None => seq!['&'] + decode_from(s, i + 1),
        }
    }
}

pub open spec fn decode_spec(s: Seq<char>) -> Seq<char> {
    decode_from(s, 0)
}

/// Appends the character of a whole reference `&...;` to `output`; `false`, with
/// `output` untouched, when `entity` is no reference this scanner decodes.
pub fn push_entity(entity: &[char], output: &mut Vec<char>) -> (r: bool)
    ensures
        r == (entity_char(entity@) is Some),
        r ==> final(output)@ == old(output)@.push(entity_char(entity@)->0),
        !r ==> final(output)@ == old(output)@,
{
    let amp: [char; 5] = ['&', 'a', 'm', 'p', ';'];
    let lt: [char; 4] = ['&', 'l', 't', ';'];
    let gt: [char; 4] = ['&', 'g', 't', ';'];
    let quot: [char; 6] = ['&', 'q', 'u', 'o', 't', ';'];
    let apos_dec: [char; 5] = ['&', '#', '3', '9', ';'];
    let apos_hex: [char; 6] = ['&', '#', 'x', '2', '7', ';'];
    let apos_hex_upper: [char; 6] = ['&', '#', 'X', '2', '7', ';'];
    assert(amp@ =~= seq!['&', 'a', 'm', 'p', ';']);
    assert(lt@ =~= seq!['&', 'l', 't', ';']);
    assert(gt@ =~= seq!['&', 'g', 't', ';']);
    assert(quot@ =~= seq!['&', 'q', 'u', 'o', 't', ';']);
    assert(apos_dec@ =~= seq!['&', '#', '3', '9', ';']);
    assert(apos_hex@ =~= seq!['&', '#', 'x', '2', '7', ';']);
    assert(apos_hex_upper@ =~= seq!['&', '#', 'X', '2', '7', ';']);
    if chars_eq(entity, amp.as_slice()) {
        output.push('&');
    } else if chars_eq(entity, lt.as_slice()) {
        output.push('<');
    } else if chars_eq(entity, gt.as_slice()) {
        output.push('>');
    } else if chars_eq(entity, quot.as_slice()) {
        output.push('"');
    } else if chars_eq(entity, apos_dec.as_slice()) || chars_eq(entity, apos_hex.as_slice())
        || chars_eq(entity, apos_hex_upper.as_slice()) {
        output.push('\'');
    } else if entity.len() >= 3 && entity[0] == '&' && entity[1] == '#' {
        let number = &entity[2..entity.len() - 1];
        let code = if number.len() > 0 && (number[0] == 'x' || number[0] == 'X') {
            let hex = &number[1..number.len()];
            assert(hex@ =~= number@.skip(1));
            parse_radix(hex, 16)
        } else {
            parse_radix(number, 10)
        };
        match code {
            Some(v) => match char_from_u32(v) {
                Some(c) => {
                    proof {
                        vstd::utf8::char_u32_cast(c, v);
                    }
                    output.push(c);
                },
                None => return false,
            },
            None => return false,
        }
    } else {
        return false;
    }
    true
}

/// Replaces the character references in `text` by their characters. An `&`
/// that starts no reference (unknown name, no `;` within ten characters, code
/// that is no Unicode scalar value) is kept as it is.
pub fn decode_entities(text: &str) -> (res: String)
    ensures
        res@ == decode_spec(text@),
{
    let chars = str_chars(text);
    let n = chars.len();
    let mut has_amp = false;
    let mut k: usize = 0;
    while k < n
        invariant
            0 <= k <= n,
            n == chars@.len(),
            !has_amp ==> forall|j: int| 0 <= j < k ==> chars@[j] != '&',
        decreases n - k,
    {
        if chars[k] == '&' {
            has_amp = true;
        }
        k = k + 1;
    }
    if !has_amp {
        proof {
            lemma_decode_without_references(chars@);
        }
        return chars_to_string(chars.as_slice());
    }
    let mut output: Vec<char> = Vec::new();
    let mut index: usize = 0;
    while index < n
        invariant
            0 <= index <= n,
            n == chars@.len(),
            chars@ == text@,
            output@ + decode_from(chars@, index as int) == decode_spec(chars@),
        decreases n - index,
    {
        if chars[index] != '&' {
            let ghost before = output@;
            output.push(chars[index]);
            assert(output@ + decode_from(chars@, index + 1) =~= before + decode_from(chars@, index as int));
            index = index + 1;
            continue;
        }
        let ghost before = output@;
        match find_char_from(chars.as_slice(), index, ';') {
            Some(end) => {
                if end <= 10 {
                    let entity = &chars[index..index + end + 1];
                    assert(entity@ =~= chars@.skip(index as int).take(end + 1));
                    if push_entity(entity, &mut output) {
                        assert(output@ + decode_from(chars@, index + end + 1) =~= before + decode_from(chars@, index as int));
                        index = index + end + 1;
                        continue;
                    }
                }
            },
            None => {},
        }
        output.push('&');
        assert(output@ + decode_from(chars@, index + 1) =~= before + decode_from(chars@, index as int));
        index = index + 1;
    }
    chars_to_string(output.as_slice())
}

// ---------------------------------------------------------------------------
// Laws
// ---------------------------------------------------------------------------

proof fn lemma_decode_plain_from(s: Seq<char>, i: int)
    requires
        0 <= i <= s.len(),
        forall|j: int| 0 <= j < s.len() ==> s[j] != '&',
    ensures
        decode_from(s, i) == s.skip(i),
    decreases s.len() - i,
{
    if i < s.len() {
        lemma_decode_plain_from(s, i + 1);
        assert(s.skip(i) =~= seq![s[i]] + s.skip(i + 1));
    } else {
        assert(s.skip(i) =~= Seq::<char>::empty());
    }
}

/// Text without `&` comes out of decoding unchanged.
pub proof fn lemma_decode_without_references(s: Seq<char>)
    requires
        forall|j: int| 0 <= j < s.len() ==> s[j] != '&',
    ensures
        decode_spec(s) == s,
{
    lemma_decode_plain_from(s, 0);
    assert(s.skip(0) =~= s);
}

/// The digit for `d` (`0`..`9`, then `a`..`f`).
pub open spec fn digit_char(d: int) -> char {
    seq!['0', '1', '2', '3', '4', '5', '6', '7', '8', '9', 'a', 'b', 'c', 'd', 'e', 'f'][d]
}

/// `n` written in decimal, without leading zeros.
pub open spec fn decimal_text(n: nat) -> Seq<char>
    decreases n,
{
    if n < 10 {
        seq![digit_char(n as int)]
    } else {
        decimal_text(n / 10).push(digit_char((n % 10) as int))
    }
}

/// `n` written in hexadecimal (lowercase digits), without leading zeros.
pub open spec fn hex_text(n: nat) -> Seq<char>
    decreases n,
{
    if n < 16 {
        seq![digit_char(n as int)]
    } else {
        hex_text(n / 16).push(digit_char((n % 16) as int))
    }
}

proof fn lemma_digit_char(d: int)
    requires
        0 <= d < 16,
    ensures
        digit_of(digit_char(d), 16) == Some(d as u32),
        d < 10 ==> digit_of(digit_char(d), 10) == Some(d as u32),
        digit_char(d) != ';' && digit_char(d) != 'x' && digit_char(d) != 'X' && digit_char(d) != '+',
{
    assert(d == 0 || d == 1 || d == 2 || d == 3 || d == 4 || d == 5 || d == 6 || d == 7 || d == 8 || d == 9
        || d == 10 || d == 11 || d == 12 || d == 13 || d == 14 || d == 15);
}

proof fn lemma_decimal_text(n: nat)
    ensures
        digits_value(decimal_text(n), 10) == Some(n),
        decimal_text(n).len() >= 1,
        forall|i: int| 0 <= i < decimal_text(n).len()
            ==> #[trigger] decimal_text(n)[i] != ';' && decimal_text(n)[i] != 'x' && decimal_text(n)[i] != 'X' && decimal_text(n)[i] != '+',
        n < 10000000 ==> decimal_text(n).len() <= 7,
    decreases n,
{
    if n < 10 {
        lemma_digit_char(n as int);
        let t = decimal_text(n);
        assert(t.drop_last() =~= Seq::<char>::empty());
        assert(digits_value(t.drop_last(), 10) == Some(0nat));
        assert(t.last() == digit_char(n as int));
    } else {
        lemma_decimal_text(n / 10);
        lemma_digit_char((n % 10) as int);
        let t = decimal_text(n);
        assert(t.drop_last() =~= decimal_text(n / 10));
        assert(t.last() == digit_char((n % 10) as int));
        assert(digits_value(t, 10) == Some((n / 10) * 10 + n % 10));
        assert forall|i: int| 0 <= i < t.len() implies #[trigger] t[i] != ';' && t[i] != 'x' && t[i] != 'X' && t[i] != '+' by {
            if i < t.len() - 1 {
                assert(t[i] == decimal_text(n / 10)[i]);
            }
        }
        lemma_decimal_len(n);
    }
}

proof fn lemma_decimal_len(n: nat)
    ensures
        n < 10 ==> decimal_text(n).len() <= 1,
        n < 100 ==> decimal_text(n).len() <= 2,
        n < 1000 ==> decimal_text(n).len() <= 3,
        n < 10000 ==> decimal_text(n).len() <= 4,
        n < 100000 ==> decimal_text(n).len() <= 5,
        n < 1000000 ==> decimal_text(n).len() <= 6,
        n < 10000000 ==> decimal_text(n).len() <= 7,
    decreases n,
{
    if n >= 10 {
        lemma_decimal_len(n / 10);
    }
}

proof fn lemma_hex_len(n: nat)
    ensures
        n < 16 ==> hex_text(n).len() <= 1,
        n < 256 ==> hex_text(n).len() <= 2,
        n < 4096 ==> hex_text(n).len() <= 3,
        n < 65536 ==> hex_text(n).len() <= 4,
        n < 1048576 ==> hex_text(n).len() <= 5,
        n < 16777216 ==> hex_text(n).len() <= 6,
    decreases n,
{
    if n >= 16 {
        lemma_hex_len(n / 16);
    }
}

proof fn lemma_hex_text(n: nat)
    ensures
        digits_value(hex_text(n), 16) == Some(n),
        hex_text(n).len() >= 1,
        forall|i: int| 0 <= i < hex_text(n).len()
            ==> #[trigger] hex_text(n)[i] != ';' && hex_text(n)[i] != 'x' && hex_text(n)[i] != 'X' && hex_text(n)[i] != '+',
        n < 16777216 ==> hex_text(n).len() <= 6,
    decreases n,
{
    if n < 16 {
        lemma_digit_char(n as int);
        let t = hex_text(n);
        assert(t.drop_last() =~= Seq::<char>::empty());
        assert(digits_value(t.drop_last(), 16) == Some(0nat));
        assert(t.last() == digit_char(n as int));
    } else {
        lemma_hex_text(n / 16);
        lemma_digit_char((n % 16) as int);
        let t = hex_text(n);
        assert(t.drop_last() =~= hex_text(n / 16));
        assert(t.last() == digit_char((n % 16) as int));
        assert(digits_value(t, 16) == Some((n / 16) * 16 + n % 16));
        assert forall|i: int| 0 <= i < t.len() implies #[trigger] t[i] != ';' && t[i] != 'x' && t[i] != 'X' && t[i] != '+' by {
            if i < t.len() - 1 {
                assert(t[i] == hex_text(n / 16)[i]);
            }
        }
        lemma_hex_len(n);
    }
}

/// A whole reference `&#` + `number` + `;` whose number spells `n` decodes to
/// the character `n`.
proof fn lemma_numeric_reference(s: Seq<char>, number: Seq<char>, digits: Seq<char>, radix: u32, n: u32)
    requires
        crate::text::is_scalar_value(n),
        s == seq!['&', '#'] + number + seq![';'],
        number.len() <= 8,
        radix == 10 ==> number == digits,
        radix == 16 ==> number.len() > 0 && (number[0] == 'x' || number[0] == 'X') && number.skip(1) == digits,
        radix == 10 || radix == 16,
        digits.len() >= 1,
        digits_value(digits, radix) == Some(n as nat),
        forall|i: int| 0 <= i < digits.len() ==> #[trigger] digits[i] != ';' && digits[i] != 'x' && digits[i] != 'X' && digits[i] != '+',
        forall|i: int| 0 <= i < number.len() ==> #[trigger] number[i] != ';',
    ensures
        decode_spec(s) == seq![n as char],
{
    let l = number.len() as int;
    assert(s.len() == l + 3);
    assert(s[0] == '&' && s[1] == '#' && s[l + 2] == ';');
    assert forall|j: int| 0 <= j < l + 2 implies s[j] != ';' by {
        if j >= 2 {
            assert(s[j] == number[j - 2]);
        }
    }
    assert(s.skip(0) =~= s);
    lemma_first_char_unique(s, ';', l + 2);
    assert(s.take(l + 3) =~= s);
    assert(s.subrange(2, s.len() - 1) =~= number);
    assert(radix_u32(number.skip(1), 16) == Some(n) || radix != 16);
    if radix == 10 {
        assert(number[0] != '+' && number[0] != 'x' && number[0] != 'X');
        assert(radix_u32(number, 10) == Some(n));
    }
    // The apostrophe spellings name code 39 too.
    if s == seq!['&', '#', '3', '9', ';'] {
        assert(number =~= seq!['3', '9']);
        assert(digits_value(seq!['3'], 10) == Some(3nat)) by {
            assert(seq!['3'].drop_last() =~= Seq::<char>::empty());
            assert(digits_value(seq!['3'].drop_last(), 10) == Some(0nat));
            assert(digit_of('3', 10) == Some(3u32));
        }
        assert(seq!['3', '9'].drop_last() =~= seq!['3']);
        assert(n == 39);
    }
    if s == seq!['&', '#', 'x', '2', '7', ';'] || s == seq!['&', '#', 'X', '2', '7', ';'] {
        assert(number.skip(1) =~= seq!['2', '7']);
        assert(digits_value(seq!['2'], 16) == Some(2nat)) by {
            assert(seq!['2'].drop_last() =~= Seq::<char>::empty());
            assert(digits_value(seq!['2'].drop_last(), 16) == Some(0nat));
            assert(digit_of('2', 16) == Some(2u32));
        }
        assert(seq!['2', '7'].drop_last() =~= seq!['2']);
        assert(n == 39);
    }
    assert(entity_at(s, 0) == Some((n as char, l + 2)));
    assert(decode_from(s, l + 3) =~= Seq::<char>::empty());
}

/// Every Unicode scalar value written as a decimal reference (`&#8217;`)
/// decodes to that character.
pub proof fn lemma_decimal_reference_decodes(n: u32)
    requires
        crate::text::is_scalar_value(n),
    ensures
        decode_spec(seq!['&', '#'] + decimal_text(n as nat) + seq![';']) == seq![n as char],
{
    let d = decimal_text(n as nat);
    lemma_decimal_text(n as nat);
    lemma_numeric_reference(seq!['&', '#'] + d + seq![';'], d, d, 10, n);
}

/// Every Unicode scalar value written as a hexadecimal reference (`&#x2019;`,
/// `&#X2019;`) decodes to that character.
pub proof fn lemma_hex_reference_decodes(n: u32)
    requires
        crate::text::is_scalar_value(n),
    ensures
        decode_spec(seq!['&', '#', 'x'] + hex_text(n as nat) + seq![';']) == seq![n as char],
        decode_spec(seq!['&', '#', 'X'] + hex_text(n as nat) + seq![';']) == seq![n as char],
{
    let h = hex_text(n as nat);
    lemma_hex_text(n as nat);
    let lower_number = seq!['x'] + h;
    let upper_number = seq!['X'] + h;
    assert(lower_number.skip(1) =~= h);
    assert(upper_number.skip(1) =~= h);
    assert forall|i: int| 0 <= i < lower_number.len() implies #[trigger] lower_number[i] != ';' by {
        if i > 0 {
            assert(lower_number[i] == h[i - 1]);
        }
    }
    assert forall|i: int| 0 <= i < upper_number.len() implies #[trigger] upper_number[i] != ';' by {
        if i > 0 {
            assert(upper_number[i] == h[i - 1]);
        }
    }
    assert(seq!['&', '#', 'x'] + h + seq![';'] =~= seq!['&', '#'] + lower_number + seq![';']);
    assert(seq!['&', '#', 'X'] + h + seq![';'] =~= seq!['&', '#'] + upper_number + seq![';']);
    lemma_numeric_reference(seq!['&', '#'] + lower_number + seq![';'], lower_number, h, 16, n);
    lemma_numeric_reference(seq!['&', '#'] + upper_number + seq![';'], upper_number, h, 16, n);
}

proof fn lemma_decode_from_suffix(s: Seq<char>, i: int)
    requires
        0 <= i <= s.len(),
    ensures
        decode_from(s, i) == decode_spec(s.skip(i)),
    decreases s.len() - i,
{
    let u = s.skip(i);
    if i < s.len() {
        assert(u.skip(0) =~= s.skip(i));
        assert(u.skip(1) =~= s.skip(i + 1));
        lemma_decode_from_suffix(s, i + 1);
        lemma_decode_from_suffix(u, 1);
        assert(entity_at(s, i) == entity_at(u, 0));
        if s[i] == '&' {
            if let Some((c, end)) = entity_at(s, i) {
                let rest = s.skip(i);
                lemma_first_char_bounds(rest, ';');
                assert(u.skip(end + 1) =~= s.skip(i + end + 1));
                lemma_decode_from_suffix(s, i + end + 1);
                lemma_decode_from_suffix(u, end + 1);
            }
        }
    } else {
        assert(u =~= Seq::<char>::empty());
    }
}

proof fn lemma_first_char_bounds(s: Seq<char>, c: char)
    ensures
        first_char(s, c) matches Some(k) ==> is_first_char(s, c, k),
{
    if exists|k: int| is_first_char(s, c, k) {
        let k = choose|k: int| is_first_char(s, c, k);
        assert(is_first_char(s, c, k));
    }
}

/// Text without `&` in front of anything passes through decoding unchanged.
pub proof fn lemma_decode_plain_prefix(before: Seq<char>, rest: Seq<char>)
    requires
        forall|j: int| 0 <= j < before.len() ==> before[j] != '&',
    ensures
        decode_spec(before + rest) == before + decode_spec(rest),
    decreases before.len(),
{
    if before.len() > 0 {
        let s = before + rest;
        let tail = before.drop_first();
        assert(s.skip(1) =~= tail + rest);
        lemma_decode_from_suffix(s, 1);
        lemma_decode_plain_prefix(tail, rest);
        assert(before =~= seq![before[0]] + tail);
    } else {
        assert(before + rest =~= rest);
    }
}

/// A whole reference `entity` (its only `;` the last character, at most
/// eleven characters) that stands for `c` is replaced by `c`, and decoding goes
/// on right after it.
proof fn lemma_reference_then(entity: Seq<char>, c: char, after: Seq<char>)
    requires
        2 <= entity.len() <= 11,
        entity[0] == '&',
        entity[entity.len() - 1] == ';',
        forall|j: int| 0 <= j < entity.len() - 1 ==> entity[j] != ';',
        entity_char(entity) == Some(c),
    ensures
        decode_spec(entity + after) == seq![c] + decode_spec(after),
{
    let s = entity + after;
    let l = entity.len() as int;
    assert(s.skip(0) =~= s);
    assert forall|j: int| 0 <= j < l - 1 implies s[j] != ';' by {
        assert(s[j] == entity[j]);
    }
    lemma_first_char_unique(s, ';', l - 1);
    assert(s.take(l) =~= entity);
    assert(entity_at(s, 0) == Some((c, l - 1)));
    lemma_decode_from_suffix(s, l);
    assert(s.skip(l) =~= after);
}

/// The five named references and the numeric spellings of the apostrophe are
/// replaced by their characters wherever they stand in the text.
pub proof fn lemma_named_references_decode(before: Seq<char>, after: Seq<char>)
    requires
        forall|j: int| 0 <= j < before.len() ==> before[j] != '&',
    ensures
        decode_spec(before + seq!['&', 'a', 'm', 'p', ';'] + after) == before + seq!['&'] + decode_spec(after),
        decode_spec(before + seq!['&', 'l', 't', ';'] + after) == before + seq!['<'] + decode_spec(after),
        decode_spec(before + seq!['&', 'g', 't', ';'] + after) == before + seq!['>'] + decode_spec(after),
        decode_spec(before + seq!['&', 'q', 'u', 'o', 't', ';'] + after) == before + seq!['"'] + decode_spec(after),
        decode_spec(before + seq!['&', '#', '3', '9', ';'] + after) == before + seq!['\''] + decode_spec(after),
        decode_spec(before + seq!['&', '#', 'x', '2', '7', ';'] + after) == before + seq!['\''] + decode_spec(after),
        decode_spec(before + seq!['&', '#', 'X', '2', '7', ';'] + after) == before + seq!['\''] + decode_spec(after),
{
    let named: Seq<(Seq<char>, char)> = seq![
        (seq!['&', 'a', 'm', 'p', ';'], '&'),
        (seq!['&', 'l', 't', ';'], '<'),
        (seq!['&', 'g', 't', ';'], '>'),
        (seq!['&', 'q', 'u', 'o', 't', ';'], '"'),
        (seq!['&', '#', '3', '9', ';'], '\''),
        (seq!['&', '#', 'x', '2', '7', ';'], '\''),
        (seq!['&', '#', 'X', '2', '7', ';'], '\''),
    ];
    assert forall|k: int| 0 <= k < 7 implies decode_spec(before + #[trigger] named[k].0 + after)
        == before + seq![named[k].1] + decode_spec(after) by {
        let e = named[k].0;
        lemma_reference_then(e, named[k].1, after);
        assert(before + e + after =~= before + (e + after));
        lemma_decode_plain_prefix(before, e + after);
        assert(before + (seq![named[k].1] + decode_spec(after)) =~= before + seq![named[k].1] + decode_spec(after));
    }
    assert(named[0].0 == seq!['&', 'a', 'm', 'p', ';']);
    assert(named[1].0 == seq!['&', 'l', 't', ';']);
    assert(named[2].0 == seq!['&', 'g', 't', ';']);
    assert(named[3].0 == seq!['&', 'q', 'u', 'o', 't', ';']);
    assert(named[4].0 == seq!['&', '#', '3', '9', ';']);
    assert(named[5].0 == seq!['&', '#', 'x', '2', '7', ';']);
    assert(named[6].0 == seq!['&', '#', 'X', '2', '7', ';']);
}

/// An `&` with no `;` among the ten characters after it starts no reference
/// and is kept as it is.
pub proof fn lemma_unterminated_ampersand_kept(before: Seq<char>, after: Seq<char>)
    requires
        forall|j: int| 0 <= j < before.len() ==> before[j] != '&',
        forall|j: int| 0 <= j < after.len() && j < 10 ==> after[j] != ';',
    ensures
        decode_spec(before + seq!['&'] + after) == before + seq!['&'] + decode_spec(after),
{
    let s = seq!['&'] + after;
    assert(s.skip(0) =~= s);
    lemma_first_char_bounds(s, ';');
    if let Some(k) = first_char(s, ';') {
        assert(s[k] == ';');
        if k <= 10 {
            assert(s[k] == after[k - 1]);
        }
    }
    assert(entity_at(s, 0) is None);
    lemma_decode_from_suffix(s, 1);
    assert(s.skip(1) =~= after);
    assert(before + seq!['&'] + after =~= before + s);
    lemma_decode_plain_prefix(before, s);
    assert(before + (seq!['&'] + decode_spec(after)) =~= before + seq!['&'] + decode_spec(after));
}

} // verus!
