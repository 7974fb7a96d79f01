//! IP addresses and the ranges that outbound requests must never reach.

use vstd::prelude::*;

verus! {

/// An IP address by its octets (network order).
#[derive(Clone, Copy, PartialEq, Eq, Debug)]
pub enum IpAddress {
    V4([u8; 4]),
    V6([u8; 16]),
}

/// The octets of an address.
pub open spec fn octets(ip: IpAddress) -> Seq<u8> {
    match ip {
        IpAddress::V4(o) => o@,
        IpAddress::V6(o) => o@,
    }
}

/// An IPv4 address as the 32-bit number it stands for (`u32::from(Ipv4Addr)`).
pub open spec fn v4_value(o: Seq<u8>) -> int {
    o[0] * 16777216 + o[1] * 65536 + o[2] * 256 + o[3]
}

/// `ip` lies in `network/prefix`: the first `prefix` bits agree.
pub open spec fn in_cidr(ip: Seq<u8>, network: Seq<u8>, prefix: u32) -> bool {
    (v4_value(ip) as u32) >> ((32 - prefix) as u32) == (v4_value(network) as u32) >> ((32 - prefix) as u32)
}

/// `Ipv4Addr::is_private`: 10.0.0.0/8, 172.16.0.0/12, 192.168.0.0/16.
pub open spec fn v4_private(o: Seq<u8>) -> bool {
    o[0] == 10 || (o[0] == 172 && 16 <= o[1] && o[1] <= 31) || (o[0] == 192 && o[1] == 168)
}

/// `Ipv4Addr::is_documentation`: 192.0.2.0/24, 198.51.100.0/24, 203.0.113.0/24.
pub open spec fn v4_documentation(o: Seq<u8>) -> bool {
    (o[0] == 192 && o[1] == 0 && o[2] == 2) || (o[0] == 198 && o[1] == 51 && o[2] == 100)
        || (o[0] == 203 && o[1] == 0 && o[2] == 113)
}

/// IPv4 addresses that are not public: private, loopback (127/8), link-local
/// (169.254/16), multicast (224/4), unspecified, broadcast, documentation,
/// shared CGNAT (100.64/10), IETF assignments (192.0.0/24), benchmarking
/// (198.18/15), software scope (0/8) and reserved (240/4).
pub open spec fn blocked_v4(o: Seq<u8>) -> bool {
    ||| v4_private(o)
    ||| o[0] == 127
    ||| (o[0] == 169 && o[1] == 254)
    ||| (224 <= o[0] && o[0] <= 239)
    ||| (o[0] == 0 && o[1] == 0 && o[2] == 0 && o[3] == 0)
    ||| (o[0] == 255 && o[1] == 255 && o[2] == 255 && o[3] == 255)
    ||| v4_documentation(o)
    ||| in_cidr(o, seq![100u8, 64u8, 0u8, 0u8], 10)
    ||| in_cidr(o, seq![192u8, 0u8, 0u8, 0u8], 24)
    ||| in_cidr(o, seq![198u8, 18u8, 0u8, 0u8], 15)
    ||| in_cidr(o, seq![0u8, 0u8, 0u8, 0u8], 8)
    ||| in_cidr(o, seq![240u8, 0u8, 0u8, 0u8], 4)
}

/// `Ipv6Addr::to_ipv4_mapped`: `::ffff:a.b.c.d` stands for `a.b.c.d`.
pub open spec fn v4_mapped(o: Seq<u8>) -> Option<Seq<u8>> {
    if (forall|i: int| 0 <= i < 10 ==> o[i] == 0u8) && o[10] == 255 && o[11] == 255 {
        Some(o.subrange(12, 16))
    } else {
        None
    }
}

pub open spec fn all_zero(o: Seq<u8>, from: int, to: int) -> bool {
    forall|i: int| from <= i < to ==> o[i] == 0u8
}

/// IPv6 addresses that are not public: loopback (::1), multicast (ff00::/8),
/// unspecified (::), unique local (fc00::/7), link-local (fe80::/10),
/// documentation (2001:db8::/32) and NAT64 (64:ff9b::/96).
pub open spec fn blocked_v6(o: Seq<u8>) -> bool {
    ||| (all_zero(o, 0, 15) && o[15] == 1)
    ||| o[0] == 255
    ||| all_zero(o, 0, 16)
    ||| (o[0] == 0xfc || o[0] == 0xfd)
    ||| (o[0] == 0xfe && 0x80 <= o[1] && o[1] <= 0xbf)
    ||| (o[0] == 0x20 && o[1] == 0x01 && o[2] == 0x0d && o[3] == 0xb8)
    ||| (o[0] == 0 && o[1] == 0x64 && o[2] == 0xff && o[3] == 0x9b && all_zero(o, 4, 12))
}

/// The addresses a request must not go to, by their octets (4 for IPv4, 16 for
/// IPv6); an IPv4-mapped IPv6 address is judged as the IPv4 address it stands for.
pub open spec fn blocked_octets(o: Seq<u8>) -> bool {
    if o.len() == 4 {
        blocked_v4(o)
    } else {
        match v4_mapped(o) {
            Some(m) => blocked_v4(m),
            None => blocked_v6(o),
        }
    }
}

pub open spec fn blocked(ip: IpAddress) -> bool {
    blocked_octets(octets(ip))
}

fn v4_to_u32(o: &[u8; 4]) -> (r: u32)
    ensures
        r as int == v4_value(o@),
{
    (o[0] as u32) * 16777216 + (o[1] as u32) * 65536 + (o[2] as u32) * 256 + (o[3] as u32)
}

pub fn in_v4_cidr(ip: &[u8; 4], network: [u8; 4], prefix: u32) -> (r: bool)
    requires
        1 <= prefix <= 32,
    ensures
        r == in_cidr(ip@, network@, prefix),
{
    let shift = 32 - prefix;
    let mask: u32 = 0xFFFF_FFFFu32 << shift;
    let a = v4_to_u32(ip);
    let b = v4_to_u32(&network);
    assert((a & (0xFFFF_FFFFu32 << shift)) == (b & (0xFFFF_FFFFu32 << shift)) <==> (a >> shift) == (b >> shift)) by (bit_vector)
        requires shift < 32;
    (a & mask) == (b & mask)
}

fn is_blocked_v4(o: &[u8; 4]) -> (r: bool)
    ensures
        r == blocked_v4(o@),
{
    let private = o[0] == 10 || (o[0] == 172 && 16 <= o[1] && o[1] <= 31) || (o[0] == 192 && o[1] == 168);
    let documentation = (o[0] == 192 && o[1] == 0 && o[2] == 2) || (o[0] == 198 && o[1] == 51 && o[2] == 100)
        || (o[0] == 203 && o[1] == 0 && o[2] == 113);
    let cgnat: [u8; 4] = [100, 64, 0, 0];
    let ietf: [u8; 4] = [192, 0, 0, 0];
    let benchmarking: [u8; 4] = [198, 18, 0, 0];
    let software: [u8; 4] = [0, 0, 0, 0];
    let reserved: [u8; 4] = [240, 0, 0, 0];
    assert(cgnat@ =~= seq![100u8, 64u8, 0u8, 0u8]);
    assert(ietf@ =~= seq![192u8, 0u8, 0u8, 0u8]);
    assert(benchmarking@ =~= seq![198u8, 18u8, 0u8, 0u8]);
    assert(software@ =~= seq![0u8, 0u8, 0u8, 0u8]);
    assert(reserved@ =~= seq![240u8, 0u8, 0u8, 0u8]);
    private || o[0] == 127 || (o[0] == 169 && o[1] == 254) || (224 <= o[0] && o[0] <= 239)
        || (o[0] == 0 && o[1] == 0 && o[2] == 0 && o[3] == 0)
        || (o[0] == 255 && o[1] == 255 && o[2] == 255 && o[3] == 255)
        || documentation
        || in_v4_cidr(o, cgnat, 10)
        || in_v4_cidr(o, ietf, 24)
        || in_v4_cidr(o, benchmarking, 15)
        || in_v4_cidr(o, software, 8)
        || in_v4_cidr(o, reserved, 4)
}

fn zero_run(o: &[u8; 16], from: usize, to: usize) -> (r: bool)
    requires
        from <= to <= 16,
    ensures
        r == all_zero(o@, from as int, to as int),
{
    let mut i = from;
    while i < to
        invariant
            from <= i <= to <= 16,
            all_zero(o@, from as int, i as int),
        decreases to - i,
    {
        if o[i] != 0 {
            return false;
        }
        i = i + 1;
    }
    true
}

fn is_blocked_v6(o: &[u8; 16]) -> (r: bool)
    ensures
        r == blocked_v6(o@),
{
    (zero_run(o, 0, 15) && o[15] == 1) || o[0] == 255 || zero_run(o, 0, 16) || (o[0] == 0xfc || o[0] == 0xfd)
        || (o[0] == 0xfe && 0x80 <= o[1] && o[1] <= 0xbf)
        || (o[0] == 0x20 && o[1] == 0x01 && o[2] == 0x0d && o[3] == 0xb8)
        || (o[0] == 0 && o[1] == 0x64 && o[2] == 0xff && o[3] == 0x9b && zero_run(o, 4, 12))
}

fn to_ipv4_mapped(o: &[u8; 16]) -> (r: Option<[u8; 4]>)
    ensures
        match r {
            Some(m) => v4_mapped(o@) == Some(m@),
            None => v4_mapped(o@) is None,
        },
{
    if zero_run(o, 0, 10) && o[10] == 255 && o[11] == 255 {
        let m: [u8; 4] = [o[12], o[13], o[14], o[15]];
        assert(m@ =~= o@.subrange(12, 16));
        Some(m)
    } else {
        None
    }
}

pub fn is_blocked_ip(ip: &IpAddress) -> (r: bool)
    ensures
        r == blocked(*ip),
{
    match ip {
        IpAddress::V4(o) => is_blocked_v4(o),
        IpAddress::V6(o) => match to_ipv4_mapped(o) {
            Some(m) => is_blocked_v4(&m),
            None => is_blocked_v6(o),
        },
    }
}

/// `::ffff:a.b.c.d`
pub open spec fn mapped_v6(o: Seq<u8>) -> Seq<u8> {
    Seq::new(10, |i: int| 0u8) + seq![255u8, 255u8] + o
}

/// An IPv4 address written as IPv4-mapped IPv6 (`::ffff:127.0.0.1`) is blocked
/// exactly when the IPv4 address is.
pub proof fn lemma_mapped_v6_is_judged_as_v4(v4: [u8; 4], v6: [u8; 16])
    requires
        v6@ == mapped_v6(v4@),
    ensures
        blocked(IpAddress::V6(v6)) == blocked(IpAddress::V4(v4)),
{
    assert(v6@.subrange(12, 16) =~= v4@);
    assert(v4_mapped(v6@) == Some(v4@));
}

/// The unique-local range fc00::/7: every address whose first seven bits are
/// `1111110` is blocked.
pub proof fn lemma_unique_local_blocked(o: [u8; 16])
    requires
        (o@[0] & 0xfeu8) == 0xfcu8,
    ensures
        blocked(IpAddress::V6(o)),
{
    let b = o@[0];
    assert((b & 0xfeu8) == 0xfcu8 ==> (b == 0xfcu8 || b == 0xfdu8)) by (bit_vector);
    assert(v4_mapped(o@) is None);
}

/// Which IPv6 addresses (not IPv4-mapped) are blocked, range by range as
/// prefixes: ::1, ::, fc00::/7, ff00::/8, fe80::/10, 2001:db8::/32 and
/// 64:ff9b::/96. Every other IPv6 address is public.
pub proof fn lemma_v6_blocked_ranges(o: [u8; 16])
    requires
        !(o@.take(12) == seq![0u8, 0u8, 0u8, 0u8, 0u8, 0u8, 0u8, 0u8, 0u8, 0u8, 0xffu8, 0xffu8]),
    ensures
        blocked(IpAddress::V6(o)) <==> {
            ||| o@ == seq![0u8, 0u8, 0u8, 0u8, 0u8, 0u8, 0u8, 0u8, 0u8, 0u8, 0u8, 0u8, 0u8, 0u8, 0u8, 1u8]
            ||| o@ == seq![0u8, 0u8, 0u8, 0u8, 0u8, 0u8, 0u8, 0u8, 0u8, 0u8, 0u8, 0u8, 0u8, 0u8, 0u8, 0u8]
            ||| (o@[0] & 0xfeu8) == 0xfcu8
            ||| o@[0] == 0xffu8
            ||| (o@[0] == 0xfeu8 && (o@[1] & 0xc0u8) == 0x80u8)
            ||| o@.take(4) == seq![0x20u8, 0x01u8, 0x0du8, 0xb8u8]
            ||| o@.take(12) == seq![0u8, 0x64u8, 0xffu8, 0x9bu8, 0u8, 0u8, 0u8, 0u8, 0u8, 0u8, 0u8, 0u8]
        },
{
    let v = o@;
    let b0 = v[0];
    let b1 = v[1];
    assert((b0 & 0xfeu8) == 0xfcu8 <==> (b0 == 0xfcu8 || b0 == 0xfdu8)) by (bit_vector);
    assert((b1 & 0xc0u8) == 0x80u8 <==> (0x80u8 <= b1 && b1 <= 0xbfu8)) by (bit_vector);
    let mapped_prefix = seq![0u8, 0u8, 0u8, 0u8, 0u8, 0u8, 0u8, 0u8, 0u8, 0u8, 0xffu8, 0xffu8];
    if v4_mapped(v) is Some {
        assert(v.take(12) =~= mapped_prefix);
    }
    let loopback = seq![0u8, 0u8, 0u8, 0u8, 0u8, 0u8, 0u8, 0u8, 0u8, 0u8, 0u8, 0u8, 0u8, 0u8, 0u8, 1u8];
    let unspecified = seq![0u8, 0u8, 0u8, 0u8, 0u8, 0u8, 0u8, 0u8, 0u8, 0u8, 0u8, 0u8, 0u8, 0u8, 0u8, 0u8];
    let documentation = seq![0x20u8, 0x01u8, 0x0du8, 0xb8u8];
    let nat64 = seq![0u8, 0x64u8, 0xffu8, 0x9bu8, 0u8, 0u8, 0u8, 0u8, 0u8, 0u8, 0u8, 0u8];
    assert((all_zero(v, 0, 15) && v[15] == 1) <==> v == loopback) by {
        if v == loopback {
            assert forall|i: int| 0 <= i < 15 implies v[i] == 0u8 by {
                assert(v[i] == loopback[i]);
            }
        }
        if all_zero(v, 0, 15) && v[15] == 1 {
            assert(v =~= loopback);
        }
    }
    assert(all_zero(v, 0, 16) <==> v == unspecified) by {
        if v == unspecified {
            assert forall|i: int| 0 <= i < 16 implies v[i] == 0u8 by {
                assert(v[i] == unspecified[i]);
            }
        }
        if all_zero(v, 0, 16) {
            assert(v =~= unspecified);
        }
    }
    assert((v[0] == 0x20 && v[1] == 0x01 && v[2] == 0x0d && v[3] == 0xb8) <==> v.take(4) == documentation) by {
        if v.take(4) == documentation {
            assert(v.take(4)[0] == v[0] && v.take(4)[1] == v[1] && v.take(4)[2] == v[2] && v.take(4)[3] == v[3]);
        }
        if v[0] == 0x20 && v[1] == 0x01 && v[2] == 0x0d && v[3] == 0xb8 {
            assert(v.take(4) =~= documentation);
        }
    }
    assert((v[0] == 0 && v[1] == 0x64 && v[2] == 0xff && v[3] == 0x9b && all_zero(v, 4, 12)) <==> v.take(12) == nat64) by {
        if v.take(12) == nat64 {
            assert forall|i: int| 0 <= i < 12 implies v[i] == nat64[i] by {
                assert(v.take(12)[i] == v[i]);
            }
        }
        if v[0] == 0 && v[1] == 0x64 && v[2] == 0xff && v[3] == 0x9b && all_zero(v, 4, 12) {
            assert(v.take(12) =~= nat64);
        }
    }
}

/// Which IPv4 addresses are blocked, range by range as network masks on the
/// address's 32-bit number: 10/8, 172.16/12, 192.168/16, 127/8, 169.254/16,
/// 224/4, 0.0.0.0, 255.255.255.255, 192.0.2/24, 198.51.100/24, 203.0.113/24,
/// 100.64/10, 192.0.0/24, 198.18/15, 0/8 and 240/4. Every other IPv4 address
/// is public.
pub proof fn lemma_v4_blocked_ranges(o: [u8; 4])
    ensures
        blocked(IpAddress::V4(o)) <==> {
            let n = v4_value(o@) as u32;
            ||| (n & 0xff00_0000u32) == 0x0a00_0000u32
            ||| (n & 0xfff0_0000u32) == 0xac10_0000u32
            ||| (n & 0xffff_0000u32) == 0xc0a8_0000u32
            ||| (n & 0xff00_0000u32) == 0x7f00_0000u32
            ||| (n & 0xffff_0000u32) == 0xa9fe_0000u32
            ||| (n & 0xf000_0000u32) == 0xe000_0000u32
            ||| n == 0u32
            ||| n == 0xffff_ffffu32
            ||| (n & 0xffff_ff00u32) == 0xc000_0200u32
            ||| (n & 0xffff_ff00u32) == 0xc633_6400u32
            ||| (n & 0xffff_ff00u32) == 0xcb00_7100u32
            ||| (n & 0xffc0_0000u32) == 0x6440_0000u32
            ||| (n & 0xffff_ff00u32) == 0xc000_0000u32
            ||| (n & 0xfffe_0000u32) == 0xc612_0000u32
            ||| (n & 0xff00_0000u32) == 0u32
            ||| (n & 0xf000_0000u32) == 0xf000_0000u32
        },
{
    let v = o@;
    let a: u8 = v[0];
    let b: u8 = v[1];
    let c: u8 = v[2];
    let d: u8 = v[3];
    let n: u32 = v4_value(v) as u32;
    assert(v4_value(v) == a * 16777216 + b * 65536 + c * 256 + d);
    assert(0 <= v4_value(v) <= 0xffff_ffff);
    assert(n == a * 16777216 + b * 65536 + c * 256 + d);
    assert(v4_value(seq![100u8, 64u8, 0u8, 0u8]) == 0x6440_0000);
    assert(v4_value(seq![192u8, 0u8, 0u8, 0u8]) == 0xc000_0000);
    assert(v4_value(seq![198u8, 18u8, 0u8, 0u8]) == 0xc612_0000);
    assert(v4_value(seq![0u8, 0u8, 0u8, 0u8]) == 0);
    assert(v4_value(seq![240u8, 0u8, 0u8, 0u8]) == 0xf000_0000);
    assert({
        &&& ((n & 0xff00_0000u32) == 0x0a00_0000u32 <==> a == 10)
        &&& ((n & 0xfff0_0000u32) == 0xac10_0000u32 <==> (a == 172 && 16 <= b && b <= 31))
        &&& ((n & 0xffff_0000u32) == 0xc0a8_0000u32 <==> (a == 192 && b == 168))
        &&& ((n & 0xff00_0000u32) == 0x7f00_0000u32 <==> a == 127)
        &&& ((n & 0xffff_0000u32) == 0xa9fe_0000u32 <==> (a == 169 && b == 254))
        &&& ((n & 0xf000_0000u32) == 0xe000_0000u32 <==> (224 <= a && a <= 239))
        &&& (n == 0u32 <==> (a == 0 && b == 0 && c == 0 && d == 0))
        &&& (n == 0xffff_ffffu32 <==> (a == 255 && b == 255 && c == 255 && d == 255))
        &&& ((n & 0xffff_ff00u32) == 0xc000_0200u32 <==> (a == 192 && b == 0 && c == 2))
        &&& ((n & 0xffff_ff00u32) == 0xc633_6400u32 <==> (a == 198 && b == 51 && c == 100))
        &&& ((n & 0xffff_ff00u32) == 0xcb00_7100u32 <==> (a == 203 && b == 0 && c == 113))
    }) by (bit_vector)
        requires
            n == a * 16777216 + b * 65536 + c * 256 + d,
    ;
    assert({
        &&& ((n & 0xffc0_0000u32) == 0x6440_0000u32 <==> (n >> 22u32) == (0x6440_0000u32 >> 22u32))
        &&& ((n & 0xffff_ff00u32) == 0xc000_0000u32 <==> (n >> 8u32) == (0xc000_0000u32 >> 8u32))
        &&& ((n & 0xfffe_0000u32) == 0xc612_0000u32 <==> (n >> 17u32) == (0xc612_0000u32 >> 17u32))
        &&& ((n & 0xff00_0000u32) == 0u32 <==> (n >> 24u32) == (0u32 >> 24u32))
        &&& ((n & 0xf000_0000u32) == 0xf000_0000u32 <==> (n >> 28u32) == (0xf000_0000u32 >> 28u32))
    }) by (bit_vector);
}

} // verus!
