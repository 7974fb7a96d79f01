//! The text forms of IP addresses that std's `IpAddr::from_str` accepts:
//! dotted decimal IPv4 and RFC 4291 IPv6 (with `::` and an embedded IPv4 tail).

use vstd::prelude::*;
use crate::text::{digit_of, to_digit};

verus! {

/// Reads digits of `radix` from `pos` on, with `count` digits already read
/// into `acc`: the value, the number of digits and the position after them;
/// `None` as soon as a digit beyond `max` is read.
pub open spec fn read_digits(s: Seq<char>, pos: int, radix: u32, max: int, count: int, acc: nat) -> Option<(nat, int, int)>
    decreases s.len() - pos,
{
    if 0 <= pos < s.len() && digit_of(s[pos], radix) is Some {
        if count + 1 > max {
            None
        } else {
            read_digits(s, pos + 1, radix, max, count + 1, acc * (radix as nat) + (digit_of(s[pos], radix)->0 as nat))
        }
    } else {
        Some((acc, count, pos))
    }
}

/// At least one and at most `max` digits; with `allow_zero_prefix` off, a
/// number of more than one digit must not start with `0`.
pub open spec fn read_number(s: Seq<char>, pos: int, radix: u32, max: int, allow_zero_prefix: bool) -> Option<(nat, int)> {
    match read_digits(s, pos, radix, max, 0, 0) {
        Some((value, count, next)) => if count == 0 {
            None
        } else if !allow_zero_prefix && s[pos] == '0' && count > 1 {
            None
        } else {
            Some((value, next))
        },
        None => None,
    }
}

/// A decimal octet: one to three digits, no leading zero, at most 255.
pub open spec fn read_octet(s: Seq<char>, pos: int) -> Option<(u8, int)> {
    match read_number(s, pos, 10, 3, false) {
        Some((v, next)) => if v <= 255 { Some((v as u8, next)) } else { None },
        None => None,
    }
}

pub open spec fn read_dot_octet(s: Seq<char>, pos: int) -> Option<(u8, int)> {
    if 0 <= pos < s.len() && s[pos] == '.' { read_octet(s, pos + 1) } else { None }
}

/// Four octets separated by dots, from `pos`.
pub open spec fn read_v4(s: Seq<char>, pos: int) -> Option<(Seq<u8>, int)> {
    match read_octet(s, pos) {
        Some((a, p1)) => match read_dot_octet(s, p1) {
            Some((b, p2)) => match read_dot_octet(s, p2) {
                Some((c, p3)) => match read_dot_octet(s, p3) {
                    Some((d, p4)) => Some((seq![a, b, c, d], p4)),
                    None => None,
                },
                None => None,
            },
            None => None,
        },
        None => None,
    }
}

/// Position after the separator `:` for group `i` (none before the first group).
pub open spec fn after_colon(s: Seq<char>, pos: int, i: int) -> Option<int> {
    if i == 0 {
        Some(pos)
    } else if 0 <= pos < s.len() && s[pos] == ':' {
        Some(pos + 1)
    } else {
        None
    }
}

/// A hex group of one to four digits (leading zeros allowed).
pub open spec fn read_group(s: Seq<char>, pos: int, i: int) -> Option<(u16, int)> {
    match after_colon(s, pos, i) {
        Some(p) => match read_number(s, p, 16, 4, true) {
            Some((v, next)) => Some((v as u16, next)),
            None => None,
        },
        None => None,
    }
}

pub open spec fn read_group_v4(s: Seq<char>, pos: int, i: int) -> Option<(Seq<u8>, int)> {
    match after_colon(s, pos, i) {
        Some(p) => read_v4(s, p),
        None => None,
    }
}

/// Reads colon-separated groups `i..limit` from `pos`: the groups (as octet
/// pairs), the position after them and whether they ended in an embedded IPv4
/// address (allowed only where two groups remain).
pub open spec fn read_groups(s: Seq<char>, pos: int, i: int, limit: int) -> (Seq<u8>, int, bool)
    decreases limit - i,
{
    if i >= limit {
        (Seq::empty(), pos, false)
    } else if i < limit - 1 && read_group_v4(s, pos, i) is Some {
        let (o, next) = read_group_v4(s, pos, i)->0;
        (o, next, true)
    } else {
        match read_group(s, pos, i) {
            Some((g, next)) => {
                let (rest, end, v4) = read_groups(s, next, i + 1, limit);
                (seq![(g / 256) as u8, (g % 256) as u8] + rest, end, v4)
            },
            None => (Seq::empty(), pos, false),
        }
    }
}

/// The 16 octets of an IPv6 address written as the whole of `s`.
pub open spec fn parse_v6(s: Seq<char>) -> Option<Seq<u8>> {
    let (head, p, head_v4) = read_groups(s, 0, 0, 8);
    if head.len() == 16 {
        if p == s.len() { Some(head) } else { None }
    } else if head_v4 {
        None
    } else if 0 <= p && p + 1 < s.len() && s[p] == ':' && s[p + 1] == ':' {
        let limit = 8 - (head.len() / 2 + 1);
        let (tail, q, _) = read_groups(s, p + 2, 0, limit);
        if q == s.len() {
            Some(head + Seq::new((16 - head.len() - tail.len()) as nat, |k: int| 0u8) + tail)
        } else {
            None
        }
    } else {
        None
    }
}

/// What `str::parse::<IpAddr>` accepts, by the octets of the address: four for
/// IPv4, sixteen for IPv6. The whole string must be the address.
pub open spec fn std_ip_text(s: Seq<char>) -> Option<Seq<u8>> {
    match read_v4(s, 0) {
        Some((o, p)) => if p == s.len() { Some(o) } else { None },
        None => parse_v6(s),
    }
}

// ---------------------------------------------------------------------------
// Executable reader
// ---------------------------------------------------------------------------

pub open spec fn digits_bound(count: int) -> int {
    if count <= 0 {
        1
    } else if count == 1 {
        16
    } else if count == 2 {
        256
    } else if count == 3 {
        4096
    } else {
        65536
    }
}

fn exec_read_number(s: &[char], pos: usize, radix: u32, max: usize, allow_zero_prefix: bool) -> (r: Option<(u32, usize)>)
    requires
        pos <= s@.len(),
        2 <= radix <= 16,
        1 <= max <= 4,
    ensures
        match r {
            Some((v, next)) => read_number(s@, pos as int, radix, max as int, allow_zero_prefix) == Some((v as nat, next as int))
                && v < 65536 && next <= s@.len(),
            None => read_number(s@, pos as int, radix, max as int, allow_zero_prefix) is None,
        },
{
    let n = s.len();
    let mut p = pos;
    let mut count: usize = 0;
    let mut acc: u32 = 0;
    while p < n
        invariant
            pos <= p <= n,
            n == s@.len(),
            2 <= radix <= 16,
            1 <= max <= 4,
            count <= max,
            count == p - pos,
            acc < digits_bound(count as int),
            read_digits(s@, pos as int, radix, max as int, 0, 0) == read_digits(s@, p as int, radix, max as int, count as int, acc as nat),
        ensures
            pos <= p <= n,
            count <= max,
            count == p - pos,
            acc < digits_bound(count as int),
            read_digits(s@, pos as int, radix, max as int, 0, 0) == read_digits(s@, p as int, radix, max as int, count as int, acc as nat),
            p == n || digit_of(s@[p as int], radix) is None,
        decreases n - p,
    {
        match to_digit(s[p], radix) {
            None => break,
            Some(d) => {
                if count + 1 > max {
                    return None;
                }
                assert(acc * radix + d < digits_bound(count + 1)) by (nonlinear_arith)
                    requires
                        acc < digits_bound(count as int),
                        radix <= 16,
                        d < radix,
                        count < 4,
                        digits_bound(count + 1) == digits_bound(count as int) * 16;
                acc = acc * radix + d;
                count = count + 1;
                p = p + 1;
            },
        }
    }
    assert(read_digits(s@, p as int, radix, max as int, count as int, acc as nat) == Some((acc as nat, count as int, p as int)));
    if count == 0 {
        return None;
    }
    if !allow_zero_prefix && s[pos] == '0' && count > 1 {
        return None;
    }
    Some((acc, p))
}

fn exec_read_octet(s: &[char], pos: usize) -> (r: Option<(u8, usize)>)
    requires
        pos <= s@.len(),
    ensures
        match r {
            Some((v, next)) => read_octet(s@, pos as int) == Some((v, next as int)) && next <= s@.len(),
            None => read_octet(s@, pos as int) is None,
        },
{
    match exec_read_number(s, pos, 10, 3, false) {
        Some((v, next)) => if v <= 255 { Some((v as u8, next)) } else { None },
        None => None,
    }
}

fn exec_read_dot_octet(s: &[char], pos: usize) -> (r: Option<(u8, usize)>)
    requires
        pos <= s@.len(),
    ensures
        match r {
            Some((v, next)) => read_dot_octet(s@, pos as int) == Some((v, next as int)) && next <= s@.len(),
            None => read_dot_octet(s@, pos as int) is None,
        },
{
    if pos < s.len() && s[pos] == '.' {
        exec_read_octet(s, pos + 1)
    } else {
        None
    }
}

fn exec_read_v4(s: &[char], pos: usize) -> (r: Option<([u8; 4], usize)>)
    requires
        pos <= s@.len(),
    ensures
        match r {
            Some((o, next)) => read_v4(s@, pos as int) == Some((o@, next as int)) && next <= s@.len(),
            None => read_v4(s@, pos as int) is None,
        },
{
    let (a, p1) = match exec_read_octet(s, pos) {
        Some(x) => x,
        None => return None,
    };
    let (b, p2) = match exec_read_dot_octet(s, p1) {
        Some(x) => x,
        None => return None,
    };
    let (c, p3) = match exec_read_dot_octet(s, p2) {
        Some(x) => x,
        None => return None,
    };
    let (d, p4) = match exec_read_dot_octet(s, p3) {
        Some(x) => x,
        None => return None,
    };
    let o: [u8; 4] = [a, b, c, d];
    assert(o@ =~= seq![a, b, c, d]);
    Some((o, p4))
}

fn exec_after_colon(s: &[char], pos: usize, i: usize) -> (r: Option<usize>)
    requires
        pos <= s@.len(),
    ensures
        match r {
            Some(p) => after_colon(s@, pos as int, i as int) == Some(p as int) && p <= s@.len(),
            None => after_colon(s@, pos as int, i as int) is None,
        },
{
    if i == 0 {
        Some(pos)
    } else if pos < s.len() && s[pos] == ':' {
        Some(pos + 1)
    } else {
        None
    }
}

/// Reads groups `i..limit` into `out`, as `read_groups` describes it.
fn exec_read_groups(s: &[char], pos: usize, i: usize, limit: usize, out: &mut Vec<u8>) -> (r: (usize, bool))
    requires
        pos <= s@.len(),
        i <= limit <= 8,
    ensures
        ({
            let (groups, end, v4) = read_groups(s@, pos as int, i as int, limit as int);
            &&& final(out)@ == old(out)@ + groups
            &&& r == (end as usize, v4)
            &&& end == r.0 as int
            &&& r.0 <= s@.len()
            &&& groups.len() <= 2 * (limit - i)
            &&& groups.len() % 2 == 0
        }),
    decreases limit - i,
{
    if i >= limit {
        assert(old(out)@ + Seq::<u8>::empty() =~= old(out)@);
        return (pos, false);
    }
    if i + 1 < limit {
        if let Some(p) = exec_after_colon(s, pos, i) {
            if let Some((o, next)) = exec_read_v4(s, p) {
                out.push(o[0]);
                out.push(o[1]);
                out.push(o[2]);
                out.push(o[3]);
                assert(final(out)@ =~= old(out)@ + o@);
                return (next, true);
            }
        }
    }
    let p = match exec_after_colon(s, pos, i) {
        Some(p) => p,
        None => {
            assert(old(out)@ + Seq::<u8>::empty() =~= old(out)@);
            return (pos, false);
        },
    };
    match exec_read_number(s, p, 16, 4, true) {
        Some((g, next)) => {
            let g16 = g as u16;
            out.push((g16 / 256) as u8);
            out.push((g16 % 256) as u8);
            let (end, v4) = exec_read_groups(s, next, i + 1, limit, out);
            proof {
                let (rest, e, w) = read_groups(s@, next as int, i + 1, limit as int);
                assert(out@ =~= old(out)@ + (seq![(g16 / 256) as u8, (g16 % 256) as u8] + rest));
            }
            (end, v4)
        },
        None => {
            assert(old(out)@ + Seq::<u8>::empty() =~= old(out)@);
            (pos, false)
        },
    }
}

/// Parses `s` as std's `str::parse::<IpAddr>` does, giving the octets.
pub fn parse_std_ip(s: &[char]) -> (r: Option<Vec<u8>>)
    ensures
        match r {
            Some(o) => std_ip_text(s@) == Some(o@) && (o@.len() == 4 || o@.len() == 16),
            None => std_ip_text(s@) is None,
        },
{
    let n = s.len();
    match exec_read_v4(s, 0) {
        Some((o, p)) => {
            if p == n {
                let mut v: Vec<u8> = Vec::new();
                v.push(o[0]);
                v.push(o[1]);
                v.push(o[2]);
                v.push(o[3]);
                assert(v@ =~= o@);
                return Some(v);
            } else {
                return None;
            }
        },
        None => {},
    }
    let mut head: Vec<u8> = Vec::new();
    let (p, head_v4) = exec_read_groups(s, 0, 0, 8, &mut head);
    assert(head@ =~= Seq::<u8>::empty() + read_groups(s@, 0, 0, 8).0);
    if head.len() == 16 {
        return if p == n { Some(head) } else { None };
    }
    if head_v4 {
        return None;
    }
    if !(p < n && n - p > 1 && s[p] == ':' && s[p + 1] == ':') {
        return None;
    }
    let limit = 8 - (head.len() / 2 + 1);
    let mut tail: Vec<u8> = Vec::new();
    let (q, _) = exec_read_groups(s, p + 2, 0, limit, &mut tail);
    assert(tail@ =~= Seq::<u8>::empty() + read_groups(s@, (p + 2) as int, 0, limit as int).0);
    if q != n {
        return None;
    }
    let zeros = 16 - head.len() - tail.len();
    let mut out = head;
    let mut k: usize = 0;
    let ghost start = out@;
    while k < zeros
        invariant
            0 <= k <= zeros,
            out@ == start + Seq::new(k as nat, |j: int| 0u8),
        decreases zeros - k,
    {
        out.push(0);
        k = k + 1;
        assert(out@ =~= start + Seq::new(k as nat, |j: int| 0u8));
    }
    out.append(&mut tail);
    Some(out)
}

} // verus!
