//! SSRF guard: which URLs and hosts may be fetched.

use vstd::prelude::*;
use crate::domain::{DeniedUrl, ScrapeError};
use crate::ip::{blocked, blocked_octets, is_blocked_ip, octets, IpAddress};
use crate::ip_text::{parse_std_ip, read_groups, read_v4, std_ip_text};
use crate::text::{chars_eq, parse_radix, radix_u32, str_chars};

verus! {

/// Why a URL is refused.
#[derive(Clone, Copy, PartialEq, Eq, Structural, Debug)]
pub enum DeniedUrlError {
    InvalidUrl,
    NotHttp,
    Credentials,
    ForbiddenPort,
    ForbiddenHost,
    Unresolvable,
}

pub open spec fn as_denied_url(error: DeniedUrlError) -> DeniedUrl {
    match error {
        DeniedUrlError::InvalidUrl => DeniedUrl::InvalidUrl,
        DeniedUrlError::NotHttp => DeniedUrl::NotHttp,
        DeniedUrlError::Credentials => DeniedUrl::Credentials,
        DeniedUrlError::ForbiddenPort => DeniedUrl::ForbiddenPort,
        DeniedUrlError::ForbiddenHost => DeniedUrl::ForbiddenHost,
        DeniedUrlError::Unresolvable => DeniedUrl::Unresolvable,
    }
}

impl From<DeniedUrlError> for DeniedUrl {
    fn from(error: DeniedUrlError) -> (r: Self) {
        match error {
            DeniedUrlError::InvalidUrl => DeniedUrl::InvalidUrl,
            DeniedUrlError::NotHttp => DeniedUrl::NotHttp,
            DeniedUrlError::Credentials => DeniedUrl::Credentials,
            DeniedUrlError::ForbiddenPort => DeniedUrl::ForbiddenPort,
            DeniedUrlError::ForbiddenHost => DeniedUrl::ForbiddenHost,
            DeniedUrlError::Unresolvable => DeniedUrl::Unresolvable,
        }
    }
}

impl vstd::std_specs::convert::FromSpecImpl<DeniedUrlError> for DeniedUrl {
    open spec fn obeys_from_spec() -> bool {
        true
    }

    open spec fn from_spec(error: DeniedUrlError) -> Self {
        as_denied_url(error)
    }
}

/// A refused URL fails the scrape as `Denied`.
impl From<DeniedUrlError> for ScrapeError {
    fn from(error: DeniedUrlError) -> (r: Self) {
        ScrapeError::Denied(DeniedUrl::from(error))
    }
}

impl vstd::std_specs::convert::FromSpecImpl<DeniedUrlError> for ScrapeError {
    open spec fn obeys_from_spec() -> bool {
        true
    }

    open spec fn from_spec(error: DeniedUrlError) -> Self {
        ScrapeError::Denied(as_denied_url(error))
    }
}

/// What the guard reads of a parsed URL.
#[derive(Debug)]
pub struct UrlParts {
    /// The whole URL, normalized (`Url::as_str`).
    pub serialization: String,
    pub scheme: String,
    pub username: String,
    pub password: Option<String>,
    /// The explicit port; `None` also when it is the scheme's default.
    pub port: Option<u16>,
    /// `Url::host_str`: lowercased for http(s), IPv6 literals in brackets.
    pub host: Option<String>,
}

pub open spec fn opt_chars(s: Option<String>) -> Option<Seq<char>> {
    match s {
        Some(v) => Some(v@),
        None => None,
    }
}

impl View for UrlParts {
    type V = (Seq<char>, Seq<char>, Seq<char>, Option<Seq<char>>, Option<u16>, Option<Seq<char>>);

    open spec fn view(&self) -> Self::V {
        (self.serialization@, self.scheme@, self.username@, opt_chars(self.password), self.port, opt_chars(self.host))
    }
}

/// What `url::Url::parse` makes of a string: serialization, scheme, username,
/// password, port and host, or `None` when it refuses the string.
pub uninterp spec fn url_parse(raw: Seq<char>) -> Option<(Seq<char>, Seq<char>, Seq<char>, Option<Seq<char>>, Option<u16>, Option<Seq<char>>)>;

/// `url::Url::parse(raw)`, read out through `as_str`, `scheme`, `username`,
/// `password`, `port` and `host_str`. The contract only ties the result to the
/// name `url_parse`: the WHATWG parsing rules are not restated.
#[verifier::external_body]
fn parse_url(raw: &str) -> (r: Option<UrlParts>)
    ensures
        r is Some <==> url_parse(raw@) is Some,
        r matches Some(u) ==> url_parse(raw@) == Some(u@),
{
    match ::url::Url::parse(raw) {
        Ok(url) => Some(UrlParts {
            serialization: url.as_str().to_string(),
            scheme: url.scheme().to_string(),
            username: url.username().to_string(),
            password: url.password().map(|p| p.to_string()),
            port: url.port(),
            host: url.host_str().map(|h| h.to_string()),
        }),
        Err(_) => None,
    }
}

// ---------------------------------------------------------------------------
// Numbers in host literals
// ---------------------------------------------------------------------------

pub open spec fn all_digits(t: Seq<char>) -> bool {
    forall|i: int| 0 <= i < t.len() ==> '0' <= #[trigger] t[i] && t[i] <= '9'
}

/// A number as inet_aton-style hosts write it: `0x`/`0X` hex, a leading `0`
/// octal, else decimal.
pub open spec fn int_u32(t: Seq<char>) -> Option<u32> {
    if t.len() >= 2 && t[0] == '0' && (t[1] == 'x' || t[1] == 'X') {
        radix_u32(t.skip(2), 16)
    } else if t.len() > 1 && t[0] == '0' && all_digits(t) {
        radix_u32(t, 8)
    } else {
        radix_u32(t, 10)
    }
}

pub open spec fn int_octet(t: Seq<char>) -> Option<u8> {
    match int_u32(t) {
        Some(v) => if v <= 255 { Some(v as u8) } else { None },
        None => None,
    }
}

pub fn parse_int_u32(text: &[char]) -> (r: Option<u32>)
    ensures
        r == int_u32(text@),
{
    let n = text.len();
    if n >= 2 && text[0] == '0' && (text[1] == 'x' || text[1] == 'X') {
        let hex = &text[2..n];
        assert(hex@ =~= text@.skip(2));
        return parse_radix(hex, 16);
    }
    if n > 1 && text[0] == '0' {
        let mut i: usize = 0;
        while i < n && '0' <= text[i] && text[i] <= '9'
            invariant
                0 <= i <= n,
                n == text@.len(),
                forall|j: int| 0 <= j < i ==> '0' <= #[trigger] text@[j] && text@[j] <= '9',
            decreases n - i,
        {
            i = i + 1;
        }
        if i == n {
            return parse_radix(text, 8);
        }
    }
    parse_radix(text, 10)
}

pub fn parse_int_octet(text: &[char]) -> (r: Option<u8>)
    ensures
        r == int_octet(text@),
{
    match parse_int_u32(text) {
        Some(v) => if v <= 255 { Some(v as u8) } else { None },
        None => None,
    }
}

// ---------------------------------------------------------------------------
// IP literals
// ---------------------------------------------------------------------------

pub open spec fn is_bracket(c: char) -> bool {
    c == '[' || c == ']'
}

pub open spec fn leading_brackets(s: Seq<char>) -> nat
    decreases s.len(),
{
    if s.len() > 0 && is_bracket(s[0]) { 1 + leading_brackets(s.drop_first()) } else { 0 }
}

pub open spec fn trailing_brackets(s: Seq<char>) -> nat
    decreases s.len(),
{
    if s.len() > 0 && is_bracket(s.last()) { 1 + trailing_brackets(s.drop_last()) } else { 0 }
}

/// `str::trim_matches(['[', ']'])`.
pub open spec fn trim_brackets(s: Seq<char>) -> Seq<char> {
    let head = s.skip(leading_brackets(s) as int);
    head.take(head.len() - trailing_brackets(head))
}

proof fn lemma_leading_brackets(s: Seq<char>, i: int)
    requires
        0 <= i <= s.len(),
        forall|j: int| 0 <= j < i ==> is_bracket(#[trigger] s[j]),
        i == s.len() || !is_bracket(s[i]),
    ensures
        leading_brackets(s) == i,
    decreases i,
{
    if i > 0 {
        lemma_leading_brackets(s.drop_first(), i - 1);
    }
}

proof fn lemma_trailing_brackets(s: Seq<char>, k: int)
    requires
        0 <= k <= s.len(),
        forall|j: int| s.len() - k <= j < s.len() ==> is_bracket(#[trigger] s[j]),
        k == s.len() || !is_bracket(s[s.len() - k - 1]),
    ensures
        trailing_brackets(s) == k,
    decreases k,
{
    if k > 0 {
        lemma_trailing_brackets(s.drop_last(), k - 1);
    }
}

fn trim_bracket_chars(s: &[char]) -> (res: Vec<char>)
    ensures
        res@ == trim_brackets(s@),
{
    let n = s.len();
    let mut start: usize = 0;
    while start < n && (s[start] == '[' || s[start] == ']')
        invariant
            0 <= start <= n,
            n == s@.len(),
            forall|j: int| 0 <= j < start ==> is_bracket(#[trigger] s@[j]),
        decreases n - start,
    {
        start = start + 1;
    }
    proof {
        lemma_leading_brackets(s@, start as int);
    }
    let ghost head = s@.skip(start as int);
    let mut end: usize = n;
    while end > start && (s[end - 1] == '[' || s[end - 1] == ']')
        invariant
            start <= end <= n,
            n == s@.len(),
            head == s@.skip(start as int),
            forall|j: int| end <= j < n ==> is_bracket(#[trigger] s@[j]),
        decreases end - start,
    {
        end = end - 1;
    }
    proof {
        let k = (n - end) as int;
        assert forall|j: int| head.len() - k <= j < head.len() implies is_bracket(#[trigger] head[j]) by {
            assert(head[j] == s@[j + start]);
        }
        if k < head.len() {
            assert(head[head.len() - k - 1] == s@[end - 1]);
        }
        lemma_trailing_brackets(head, k);
    }
    let mut res: Vec<char> = Vec::new();
    let mut i = start;
    while i < end
        invariant
            start <= i <= end <= n,
            n == s@.len(),
            res@ == s@.subrange(start as int, i as int),
        decreases end - i,
    {
        res.push(s[i]);
        i = i + 1;
    }
    assert(res@ =~= trim_brackets(s@));
    res
}

/// Splitting by `.`, read left to right: the finished parts and the current one.
pub open spec fn split_acc(s: Seq<char>) -> (Seq<Seq<char>>, Seq<char>)
    decreases s.len(),
{
    if s.len() == 0 {
        (Seq::empty(), Seq::empty())
    } else {
        let (parts, current) = split_acc(s.drop_last());
        if s.last() == '.' {
            (parts.push(current), Seq::empty())
        } else {
            (parts, current.push(s.last()))
        }
    }
}

/// `str::split('.')`: the parts between the dots (at least one).
pub open spec fn split_dots(s: Seq<char>) -> Seq<Seq<char>> {
    split_acc(s).0.push(split_acc(s).1)
}

/// Four dot-separated numbers, each in 0..=255 (decimal, octal or hex).
pub open spec fn dotted_quad(t: Seq<char>) -> Option<Seq<u8>> {
    let parts = split_dots(t);
    if parts.len() == 4 && forall|k: int| 0 <= k < 4 ==> #[trigger] int_octet(parts[k]) is Some {
        Some(seq![int_octet(parts[0])->0, int_octet(parts[1])->0, int_octet(parts[2])->0, int_octet(parts[3])->0])
    } else {
        None
    }
}

/// A 32-bit number as IPv4 octets, most significant first.
pub open spec fn be_octets(n: u32) -> Seq<u8> {
    seq![(n / 16777216) as u8, ((n / 65536) % 256) as u8, ((n / 256) % 256) as u8, (n % 256) as u8]
}

pub open spec fn has_char(s: Seq<char>, c: char) -> bool {
    exists|i: int| 0 <= i < s.len() && s[i] == c
}

/// The address a host names literally, by its octets: the std text forms, a
/// single 32-bit number (`2130706433`), or four numbers that may each be
/// octal or hex (`0x7f.0.0.1`); brackets around the host are ignored.
pub open spec fn ip_literal(host: Seq<char>) -> Option<Seq<u8>> {
    let t = trim_brackets(host);
    match std_ip_text(t) {
        Some(o) => Some(o),
        None => if !has_char(t, '.') {
            if t.len() == 0 {
                None
            } else {
                match int_u32(t) {
                    Some(n) => Some(be_octets(n)),
                    None => None,
                }
            }
        } else {
            dotted_quad(t)
        },
    }
}

fn dotted(t: &[char]) -> (r: Option<[u8; 4]>)
    ensures
        match r {
            Some(o) => dotted_quad(t@) == Some(o@),
            None => dotted_quad(t@) is None,
        },
{
    let n = t.len();
    let mut ok = true;
    let mut values: Vec<u8> = Vec::new();
    let mut current: Vec<char> = Vec::new();
    let ghost mut parts: Seq<Seq<char>> = Seq::empty();
    let mut count: usize = 0;
    let mut i: usize = 0;
    assert(t@.take(0) =~= Seq::<char>::empty());
    while i < n
        invariant
            0 <= i <= n,
            n == t@.len(),
            split_acc(t@.take(i as int)) == (parts, current@),
            count == parts.len(),
            count <= i,
            ok <==> forall|k: int| 0 <= k < parts.len() ==> #[trigger] int_octet(parts[k]) is Some,
            ok ==> values@.len() == count,
            ok ==> forall|k: int| 0 <= k < count ==> values@[k] == (#[trigger] int_octet(parts[k]))->0,
        decreases n - i,
    {
        assert(t@.take(i + 1).drop_last() =~= t@.take(i as int));
        assert(t@.take(i + 1).last() == t@[i as int]);
        if t[i] == '.' {
            let octet = parse_int_octet(current.as_slice());
            let ghost old_parts = parts;
            proof {
                parts = parts.push(current@);
            }
            match octet {
                Some(v) => {
                    if ok {
                        values.push(v);
                    }
                },
                None => {
                    ok = false;
                },
            }
            proof {
                assert(parts[count as int] == current@);
                assert forall|k: int| 0 <= k < old_parts.len() implies parts[k] == old_parts[k] by {}
                if ok {
                    assert forall|k: int| 0 <= k < parts.len() implies #[trigger] int_octet(parts[k]) is Some by {
                        if k < old_parts.len() {
                            assert(int_octet(old_parts[k]) is Some);
                        }
                    }
                }
                if !ok {
                    if octet is None {
                        assert(int_octet(parts[count as int]) is None);
                    } else {
                        let k = choose|k: int| 0 <= k < old_parts.len() && !(#[trigger] int_octet(old_parts[k]) is Some);
                        assert(int_octet(parts[k]) is None);
                    }
                }
            }
            count = count + 1;
            current = Vec::new();
        } else {
            current.push(t[i]);
        }
        i = i + 1;
    }
    assert(t@.take(n as int) =~= t@);
    let last = parse_int_octet(current.as_slice());
    if count != 3 || !ok {
        proof {
            if !ok {
                let k = choose|k: int| 0 <= k < parts.len() && !(#[trigger] int_octet(parts[k]) is Some);
                assert(split_dots(t@)[k] == parts[k]);
            }
        }
        return None;
    }
    match last {
        Some(v) => {
            let o: [u8; 4] = [values[0], values[1], values[2], v];
            proof {
                let all = split_dots(t@);
                assert(all[0] == parts[0]);
                assert(all[1] == parts[1]);
                assert(all[2] == parts[2]);
                assert(all[3] == current@);
                assert(int_octet(parts[0]) is Some);
                assert(int_octet(parts[1]) is Some);
                assert(int_octet(parts[2]) is Some);
            }
            assert(o@ =~= dotted_quad(t@)->0);
            Some(o)
        },
        None => {
            assert(split_dots(t@)[3] == current@);
            None
        },
    }
}

fn u32_octets(number: u32) -> (r: [u8; 4])
    ensures
        r@ == be_octets(number),
{
    let r: [u8; 4] = [
        (number / 16777216) as u8,
        ((number / 65536) % 256) as u8,
        ((number / 256) % 256) as u8,
        (number % 256) as u8,
    ];
    assert(r@ =~= be_octets(number));
    r
}

fn address_of(o: &Vec<u8>) -> (ip: IpAddress)
    requires
        o@.len() == 4 || o@.len() == 16,
    ensures
        octets(ip) == o@,
{
    if o.len() == 4 {
        let v4: [u8; 4] = [o[0], o[1], o[2], o[3]];
        assert(v4@ =~= o@);
        IpAddress::V4(v4)
    } else {
        let v6: [u8; 16] = [o[0], o[1], o[2], o[3], o[4], o[5], o[6], o[7], o[8], o[9], o[10], o[11], o[12], o[13], o[14], o[15]];
        assert(v6@ =~= o@);
        IpAddress::V6(v6)
    }
}

fn contains_char(s: &[char], c: char) -> (r: bool)
    ensures
        r == has_char(s@, c),
{
    let n = s.len();
    let mut i: usize = 0;
    while i < n
        invariant
            0 <= i <= n,
            n == s@.len(),
            forall|j: int| 0 <= j < i ==> s@[j] != c,
        decreases n - i,
    {
        if s[i] == c {
            return true;
        }
        i = i + 1;
    }
    false
}

/// The IP address that `host` writes literally, if any.
pub fn parse_ip_literal(host: &str) -> (r: Result<IpAddress, ()>)
    ensures
        match r {
            Ok(ip) => ip_literal(host@) == Some(octets(ip)),
            Err(_) => ip_literal(host@) is None,
        },
{
    let chars = str_chars(host);
    let trimmed = trim_bracket_chars(chars.as_slice());
    if let Some(o) = parse_std_ip(trimmed.as_slice()) {
        return Ok(address_of(&o));
    }
    if !contains_char(trimmed.as_slice(), '.') {
        if trimmed.len() == 0 {
            return Err(());
        }
        return match parse_int_u32(trimmed.as_slice()) {
            Some(number) => Ok(IpAddress::V4(u32_octets(number))),
            None => Err(()),
        };
    }
    match dotted(trimmed.as_slice()) {
        Some(o) => Ok(IpAddress::V4(o)),
        None => Err(()),
    }
}

// ---------------------------------------------------------------------------
// Hosts and URLs
// ---------------------------------------------------------------------------

/// `localhost`
pub open spec fn localhost() -> Seq<char> {
    seq!['l', 'o', 'c', 'a', 'l', 'h', 'o', 's', 't']
}

/// Hosts refused by name: empty, `localhost` and anything under `.localhost`.
pub open spec fn local_name(host: Seq<char>) -> bool {
    ||| host.len() == 0
    ||| host == localhost()
    ||| (host.len() >= 10 && host.skip(host.len() - 10) == seq!['.'] + localhost())
}

/// A host that may be fetched: not a local name, and not a literal address in a
/// blocked range.
pub open spec fn host_allowed(host: Seq<char>) -> bool {
    &&& !local_name(host)
    &&& !(ip_literal(host) matches Some(o) && blocked_octets(o))
}

/// Validates the host without resolving it.
pub fn validate_host(host: &str) -> (r: Result<(), DeniedUrlError>)
    ensures
        r == if host_allowed(host@) { Ok::<(), DeniedUrlError>(()) } else { Err(DeniedUrlError::ForbiddenHost) },
{
    let chars = str_chars(host);
    let n = chars.len();
    let name: [char; 9] = ['l', 'o', 'c', 'a', 'l', 'h', 'o', 's', 't'];
    let dotted_name: [char; 10] = ['.', 'l', 'o', 'c', 'a', 'l', 'h', 'o', 's', 't'];
    assert(name@ =~= localhost());
    assert(dotted_name@ =~= seq!['.'] + localhost());
    let all = chars.as_slice();
    let is_local = n == 0 || chars_eq(all, name.as_slice()) || (n >= 10 && {
        let tail = &all[n - 10..n];
        assert(tail@ =~= chars@.skip(n - 10));
        chars_eq(tail, dotted_name.as_slice())
    });
    if is_local {
        return Err(DeniedUrlError::ForbiddenHost);
    }
    match parse_ip_literal(host) {
        Ok(address) => {
            if is_blocked_ip(&address) {
                return Err(DeniedUrlError::ForbiddenHost);
            }
        },
        Err(_) => {},
    }
    Ok(())
}

/// `http`
pub open spec fn http() -> Seq<char> {
    seq!['h', 't', 't', 'p']
}

/// `https`
pub open spec fn https() -> Seq<char> {
    seq!['h', 't', 't', 'p', 's']
}

pub open spec fn host_or_empty(host: Option<Seq<char>>) -> Seq<char> {
    match host {
        Some(h) => h,
        None => Seq::empty(),
    }
}

/// A host written as one number, with neither `.` nor `:` nor brackets
/// (`2130706433`), names the IPv4 address of that 32-bit number, so the range
/// checks see through decimal, octal and hex spellings of an address.
pub proof fn lemma_number_host_is_v4(host: Seq<char>, n: u32)
    requires
        host.len() > 0,
        forall|i: int| 0 <= i < host.len() ==> host[i] != '.' && host[i] != ':' && !is_bracket(#[trigger] host[i]),
        int_u32(host) == Some(n),
    ensures
        ip_literal(host) == Some(be_octets(n)),
{
    assert(leading_brackets(host) == 0);
    assert(host.skip(0) =~= host);
    assert(trailing_brackets(host) == 0);
    assert(host.take(host.len() as int) =~= host);
    assert(trim_brackets(host) == host);
    // No dot: no IPv4 text form.
    if let Some((a, p1)) = crate::ip_text::read_octet(host, 0) {
        assert(crate::ip_text::read_dot_octet(host, p1) is None);
    }
    assert(read_v4(host, 0) is None);
    // No colon: at most one IPv6 group, and no `::`.
    let (head, p, head_v4) = read_groups(host, 0, 0, 8);
    match crate::ip_text::read_group(host, 0, 0) {
        Some((g, next)) => {
            assert(crate::ip_text::after_colon(host, next, 1) is None);
            assert(read_groups(host, next, 1, 8).0.len() == 0);
            assert(head.len() == 2);
        },
        None => {
            assert(head.len() == 0);
        },
    }
    assert(!head_v4);
    assert(std_ip_text(host) is None);
    assert(!has_char(host, '.'));
}

/// The verdict on a parsed URL, checks in this order: scheme http(s), no
/// credentials, port absent or 80/443, allowed host.
pub open spec fn url_verdict(u: (Seq<char>, Seq<char>, Seq<char>, Option<Seq<char>>, Option<u16>, Option<Seq<char>>)) -> Result<(), DeniedUrlError> {
    let (_, scheme, username, password, port, host) = u;
    if !(scheme == http() || scheme == https()) {
        Err(DeniedUrlError::NotHttp)
    } else if username.len() > 0 || password is Some {
        Err(DeniedUrlError::Credentials)
    } else if port matches Some(p) && p != 80 && p != 443 {
        Err(DeniedUrlError::ForbiddenPort)
    } else if !host_allowed(host_or_empty(host)) {
        Err(DeniedUrlError::ForbiddenHost)
    } else {
        Ok(())
    }
}

pub fn validate_http_url(url: &UrlParts) -> (r: Result<(), DeniedUrlError>)
    ensures
        r == url_verdict(url@),
{
    let scheme = str_chars(url.scheme.as_str());
    let http_name: [char; 4] = ['h', 't', 't', 'p'];
    let https_name: [char; 5] = ['h', 't', 't', 'p', 's'];
    assert(http_name@ =~= http());
    assert(https_name@ =~= https());
    if !(chars_eq(scheme.as_slice(), http_name.as_slice()) || chars_eq(scheme.as_slice(), https_name.as_slice())) {
        return Err(DeniedUrlError::NotHttp);
    }
    let username = str_chars(url.username.as_str());
    if username.len() > 0 || url.password.is_some() {
        return Err(DeniedUrlError::Credentials);
    }
    if let Some(port) = url.port {
        if port != 80 && port != 443 {
            return Err(DeniedUrlError::ForbiddenPort);
        }
    }
    match &url.host {
        Some(host) => validate_host(host.as_str()),
        None => {
            let empty = String::new();
            validate_host(empty.as_str())
        },
    }
}

/// A URL that passed the guard, with the address when its host is a literal
/// (no DNS lookup is then needed).
#[derive(Debug)]
pub struct CheckedUrl {
    pub url: UrlParts,
    pub literal: Option<IpAddress>,
}

/// Everything of `validate_public_http_url` but the DNS lookup: parse, check,
/// and read a literal host address.
pub fn screen_public_http_url(raw_url: &str) -> (r: Result<CheckedUrl, DeniedUrlError>)
    ensures
        url_parse(raw_url@) is None ==> r == Err::<CheckedUrl, DeniedUrlError>(DeniedUrlError::InvalidUrl),
        url_parse(raw_url@) matches Some(u) ==> match r {
            Ok(checked) => {
                &&& url_verdict(u) is Ok
                &&& checked.url@ == u
                &&& match checked.literal {
                    Some(ip) => ip_literal(host_or_empty(u.5)) == Some(octets(ip)),
                    None => ip_literal(host_or_empty(u.5)) is None,
                }
            },
            Err(e) => url_verdict(u) == Err::<(), DeniedUrlError>(e),
        },
        r matches Ok(checked) ==> (checked.literal matches Some(ip) ==> !blocked(ip)),
{
    let url = match parse_url(raw_url) {
        Some(u) => u,
        None => return Err(DeniedUrlError::InvalidUrl),
    };
    match validate_http_url(&url) {
        Ok(()) => {},
        Err(e) => return Err(e),
    }
    let literal = match &url.host {
        Some(host) => parse_ip_literal(host.as_str()),
        None => {
            let empty = String::new();
            parse_ip_literal(empty.as_str())
        },
    };
    let literal = match literal {
        Ok(ip) => Some(ip),
        Err(_) => None,
    };
    Ok(CheckedUrl { url, literal })
}

/// The screening verdict on a raw URL: unparsable is `InvalidUrl`, else the
/// verdict on the parsed URL.
pub open spec fn screen_verdict(raw: Seq<char>) -> Result<(), DeniedUrlError> {
    match url_parse(raw) {
        Some(u) => url_verdict(u),
        None => Err(DeniedUrlError::InvalidUrl),
    }
}

/// The host named in logs for a parse result: the parsed host, or `unknown`
/// when the URL did not parse or has no host.
pub open spec fn log_host_spec(parsed: Option<(Seq<char>, Seq<char>, Seq<char>, Option<Seq<char>>, Option<u16>, Option<Seq<char>>)>) -> Seq<char> {
    match parsed {
        Some(u) => match u.5 {
            Some(h) => h,
            None => "unknown"@,
        },
        None => "unknown"@,
    }
}

pub open spec fn opt_url_view(parsed: Option<UrlParts>) -> Option<(Seq<char>, Seq<char>, Seq<char>, Option<Seq<char>>, Option<u16>, Option<Seq<char>>)> {
    match parsed {
        Some(u) => Some(u@),
        None => None,
    }
}

/// What `log_host` does with the parse result: the host, or `unknown`.
pub fn host_for_log(parsed: Option<UrlParts>) -> (r: String)
    ensures
        r@ == log_host_spec(opt_url_view(parsed)),
{
    match parsed {
        Some(url) => match url.host {
            Some(host) => host,
            None => "unknown".to_owned(),
        },
        None => "unknown".to_owned(),
    }
}

/// The host to name in logs for a requested URL (never the whole URL):
/// the parsed host, or `unknown`.
pub fn log_host(raw_url: &str) -> (r: String)
    ensures
        r@ == log_host_spec(url_parse(raw_url@)),
{
    let parsed = parse_url(raw_url);
    host_for_log(parsed)
}

/// The decision of `resolve_public_ips` on what DNS answered: no address is
/// `Unresolvable`; any blocked address refuses the whole host (fail closed).
pub fn screen_resolved_ips(addresses: Vec<IpAddress>) -> (r: Result<Vec<IpAddress>, DeniedUrlError>)
    ensures
        addresses@.len() == 0 ==> r == Err::<Vec<IpAddress>, DeniedUrlError>(DeniedUrlError::Unresolvable),
        addresses@.len() > 0 && (exists|i: int| 0 <= i < addresses@.len() && blocked(#[trigger] addresses@[i]))
            ==> r == Err::<Vec<IpAddress>, DeniedUrlError>(DeniedUrlError::ForbiddenHost),
        addresses@.len() > 0 && (forall|i: int| 0 <= i < addresses@.len() ==> !blocked(#[trigger] addresses@[i]))
            ==> (r matches Ok(kept) && kept@ == addresses@),
{
    let n = addresses.len();
    if n == 0 {
        return Err(DeniedUrlError::Unresolvable);
    }
    let mut i: usize = 0;
    while i < n
        invariant
            0 <= i <= n,
            n == addresses@.len(),
            forall|j: int| 0 <= j < i ==> !blocked(#[trigger] addresses@[j]),
        decreases n - i,
    {
        if is_blocked_ip(&addresses[i]) {
            return Err(DeniedUrlError::ForbiddenHost);
        }
        i = i + 1;
    }
    Ok(addresses)
}

} // verus!
