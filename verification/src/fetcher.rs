//! Decisions of the fetch loop: redirects, soft retries, user agents.

use vstd::prelude::*;
use crate::domain::{DeniedUrl, ScrapeError};
use crate::ip::{blocked, octets};
use crate::url_guard::{
    as_denied_url, host_or_empty, http, https, ip_literal, opt_url_view, screen_public_http_url, screen_verdict,
    url_parse, url_verdict, CheckedUrl, UrlParts,
};
use crate::text::{chars_eq, str_chars};

verus! {

/// Redirect hops followed at most.
pub const MAX_REDIRECTS: u8 = 3;

/// The crawler user agents, in rotation (generic bot agents get 403 from some sites).
pub open spec fn user_agent(k: int) -> Seq<char> {
    if k == 0 {
        "WhatsApp/2.22.20.72 A"@
    } else if k == 1 {
        "facebookexternalhit/1.1 (+http://www.facebook.com/externalhit_uatext.php)"@
    } else {
        "Meta-ExternalAgent/1.1 (+https://developers.facebook.com/docs/sharing/webmasters/crawler)"@
    }
}

/// The user agent for attempt `attempt` of a request whose rotation starts at `start`.
pub fn user_agent_for_attempt(start: usize, attempt: usize) -> (r: &'static str)
    requires
        start + attempt <= usize::MAX,
    ensures
        r@ == user_agent((start + attempt) % 3),
{
    let k = (start + attempt) % 3;
    if k == 0 {
        "WhatsApp/2.22.20.72 A"
    } else if k == 1 {
        "facebookexternalhit/1.1 (+http://www.facebook.com/externalhit_uatext.php)"
    } else {
        "Meta-ExternalAgent/1.1 (+https://developers.facebook.com/docs/sharing/webmasters/crawler)"
    }
}

/// What `url::Url::parse(base)` joined with `location` (`Url::join`) gives,
/// read out as `UrlParts` does; `None` when either step refuses.
pub uninterp spec fn url_join(base: Seq<char>, location: Seq<char>) -> Option<(Seq<char>, Seq<char>, Seq<char>, Option<Seq<char>>, Option<u16>, Option<Seq<char>>)>;

/// `url::Url::parse(base)` then `Url::join(location)`, read out through
/// `as_str`, `scheme`, `username`, `password`, `port` and `host_str`. The
/// contract only ties the result to the name `url_join`: the WHATWG rules for
/// relative references are not restated.
#[verifier::external_body]
fn join_url(base: &str, location: &str) -> (r: Option<UrlParts>)
    ensures
        r is Some <==> url_join(base@, location@) is Some,
        r matches Some(u) ==> url_join(base@, location@) == Some(u@),
{
    match ::url::Url::parse(base).and_then(|url| url.join(location)) {
        Ok(url) => Some(UrlParts {
            serialization: url.as_str().to_string(),
            scheme: url.scheme().to_string(),
            username: url.username().to_string(),
            password: url.password().map(|p| p.to_string()),
            port: url.port(),
            host: url.host_str().map(|h| h.to_string()),
        }),
        Err(_) => None,
    }
}

/// `StatusCode::is_redirection`: the 3xx codes.
pub open spec fn is_redirection(status: u16) -> bool {
    300 <= status && status <= 399
}

pub open spec fn opt_str(location: Option<&str>) -> Option<Seq<char>> {
    match location {
        Some(s) => Some(s@),
        None => None,
    }
}

/// A resolved redirect target is followed only when its scheme is http or
/// https; the URL followed is its serialization.
pub open spec fn follow_spec(target: Option<(Seq<char>, Seq<char>, Seq<char>, Option<Seq<char>>, Option<u16>, Option<Seq<char>>)>) -> Option<Seq<char>> {
    match target {
        Some(t) => if t.1 == http() || t.1 == https() { Some(t.0) } else { None },
        None => None,
    }
}

/// The next hop of a 3xx response with a `Location`, resolved against the
/// current URL; only http and https targets are followed.
pub open spec fn redirect_spec(base: Seq<char>, status: u16, location: Option<Seq<char>>) -> Option<Seq<char>> {
    if !is_redirection(status) {
        None
    } else {
        match location {
            None => None,
            Some(l) => follow_spec(url_join(base, l)),
        }
    }
}

/// What `resolve_redirect_target` does with the joined URL: the target's
/// serialization when its scheme is http or https, else nothing.
pub fn followable_target(target: Option<UrlParts>) -> (r: Option<String>)
    ensures
        match r {
            Some(url) => follow_spec(opt_url_view(target)) == Some(url@),
            None => follow_spec(opt_url_view(target)) is None,
        },
{
    let target = match target {
        Some(t) => t,
        None => return None,
    };
    let scheme = str_chars(target.scheme.as_str());
    let http_name: [char; 4] = ['h', 't', 't', 'p'];
    let https_name: [char; 5] = ['h', 't', 't', 'p', 's'];
    assert(http_name@ =~= http());
    assert(https_name@ =~= https());
    if !(chars_eq(scheme.as_slice(), http_name.as_slice()) || chars_eq(scheme.as_slice(), https_name.as_slice())) {
        return None;
    }
    Some(target.serialization)
}

pub fn resolve_redirect_target(base_url: &str, status: u16, location: Option<&str>) -> (r: Option<String>)
    ensures
        match r {
            Some(target) => redirect_spec(base_url@, status, opt_str(location)) == Some(target@),
            None => redirect_spec(base_url@, status, opt_str(location)) is None,
        },
{
    if !(300 <= status && status <= 399) {
        return None;
    }
    let location = match location {
        Some(l) => l,
        None => return None,
    };
    let joined = join_url(base_url, location);
    followable_target(joined)
}

/// The error a failed request turns into: `Timeout` for timeouts, else `Upstream`.
pub fn map_fetch_error(timed_out: bool) -> (r: ScrapeError)
    ensures
        r == if timed_out { ScrapeError::Timeout } else { ScrapeError::Upstream },
{
    if timed_out {
        return ScrapeError::Timeout;
    }
    ScrapeError::Upstream
}

/// How one request attempt ended.
#[derive(Clone, Copy, PartialEq, Eq, Structural, Debug)]
pub enum FetchOutcome {
    /// A response arrived with this status.
    Responded(u16),
    /// No response; whether it failed while connecting and whether it timed out.
    Failed { connect: bool, timed_out: bool },
}

/// What to do after an attempt.
#[derive(Clone, Copy, PartialEq, Eq, Structural, Debug)]
pub enum RetryStep {
    Retry,
    Deliver,
    Fail(ScrapeError),
}

pub open spec fn retry_spec(attempt: usize, outcome: FetchOutcome) -> RetryStep {
    match outcome {
        FetchOutcome::Responded(status) => if (status == 502 || status == 503) && attempt == 0 {
            RetryStep::Retry
        } else {
            RetryStep::Deliver
        },
        FetchOutcome::Failed { connect, timed_out } => if connect && attempt == 0 {
            RetryStep::Retry
        } else {
            RetryStep::Fail(if timed_out { ScrapeError::Timeout } else { ScrapeError::Upstream })
        },
    }
}

/// One soft retry: the first attempt is repeated once on a connect failure or
/// a 502/503; every other outcome is final.
pub fn soft_retry_step(attempt: usize, outcome: FetchOutcome) -> (r: RetryStep)
    ensures
        r == retry_spec(attempt, outcome),
        attempt > 0 ==> r != RetryStep::Retry,
{
    match outcome {
        FetchOutcome::Responded(status) => {
            if (status == 502 || status == 503) && attempt == 0 {
                RetryStep::Retry
            } else {
                RetryStep::Deliver
            }
        },
        FetchOutcome::Failed { connect, timed_out } => {
            if connect && attempt == 0 {
                RetryStep::Retry
            } else {
                RetryStep::Fail(map_fetch_error(timed_out))
            }
        },
    }
}

/// After hop `hop` (0 for the first request): deliver the response when there
/// is no redirect, follow one while fewer than `MAX_REDIRECTS` were followed,
/// and fail with `Upstream` past that.
pub fn redirect_step(hop: u8, next_url: Option<String>) -> (r: Result<Option<String>, ScrapeError>)
    ensures
        next_url is None ==> r == Ok::<Option<String>, ScrapeError>(None),
        next_url is Some && hop < MAX_REDIRECTS ==> r == Ok::<Option<String>, ScrapeError>(next_url),
        next_url is Some && hop >= MAX_REDIRECTS ==> r == Err::<Option<String>, ScrapeError>(ScrapeError::Upstream),
{
    match next_url {
        None => Ok(None),
        Some(url) => if hop < MAX_REDIRECTS {
            Ok(Some(url))
        } else {
            Err(ScrapeError::Upstream)
        },
    }
}

/// After hop `hop` was answered with `status` and `location` for
/// `current_url`: `None` when the response is final, else the next URL to
/// request, already screened. Past `MAX_REDIRECTS` hops a redirect fails with
/// `Upstream`; a target the screening refuses fails as `Denied`. Only a URL
/// that this function (or the first screening) returned may be requested.
pub fn next_hop(hop: u8, current_url: &str, status: u16, location: Option<&str>) -> (r: Result<Option<CheckedUrl>, ScrapeError>)
    ensures
        redirect_spec(current_url@, status, opt_str(location)) is None ==> r == Ok::<Option<CheckedUrl>, ScrapeError>(None),
        redirect_spec(current_url@, status, opt_str(location)) is Some && hop >= MAX_REDIRECTS
            ==> r == Err::<Option<CheckedUrl>, ScrapeError>(ScrapeError::Upstream),
        redirect_spec(current_url@, status, opt_str(location)) is Some && hop < MAX_REDIRECTS ==> match r {
            Ok(Some(c)) => {
                &&& url_parse(redirect_spec(current_url@, status, opt_str(location))->0) == Some(c.url@)
                &&& url_verdict(c.url@) is Ok
                &&& match c.literal {
                    Some(ip) => ip_literal(host_or_empty(c.url@.5)) == Some(octets(ip)),
                    None => ip_literal(host_or_empty(c.url@.5)) is None,
                }
                &&& (c.literal matches Some(ip) ==> !blocked(ip))
            },
            Ok(None) => false,
            Err(e) => screen_verdict(redirect_spec(current_url@, status, opt_str(location))->0) matches Err(d)
                && e == ScrapeError::Denied(as_denied_url(d)),
        },
{
    let target = resolve_redirect_target(current_url, status, location);
    match redirect_step(hop, target) {
        Err(e) => Err(e),
        Ok(None) => Ok(None),
        Ok(Some(next)) => match screen_public_http_url(next.as_str()) {
            Ok(checked) => Ok(Some(checked)),
            Err(denied) => Err(ScrapeError::Denied(DeniedUrl::from(denied))),
        },
    }
}

// ---------------------------------------------------------------------------
// Laws
// ---------------------------------------------------------------------------

/// The retry of a request goes out with another user agent than its first
/// attempt, and the rotation repeats every three requests.
pub proof fn lemma_retry_rotates_user_agent(start: nat)
    ensures
        user_agent((start % 3) as int) != user_agent(((start + 1) % 3) as int),
        user_agent(((start + 3) % 3) as int) == user_agent((start % 3) as int),
{
    reveal_strlit("WhatsApp/2.22.20.72 A");
    reveal_strlit("facebookexternalhit/1.1 (+http://www.facebook.com/externalhit_uatext.php)");
    reveal_strlit("Meta-ExternalAgent/1.1 (+https://developers.facebook.com/docs/sharing/webmasters/crawler)");
    let a = "WhatsApp/2.22.20.72 A"@;
    let b = "facebookexternalhit/1.1 (+http://www.facebook.com/externalhit_uatext.php)"@;
    let c = "Meta-ExternalAgent/1.1 (+https://developers.facebook.com/docs/sharing/webmasters/crawler)"@;
    assert(a[0] != b[0]);
    assert(a[0] != c[0]);
    assert(b[0] != c[0]);
}

/// A request is sent at most twice: no outcome of the second attempt asks for
/// another one.
pub proof fn lemma_at_most_one_retry(outcome: FetchOutcome)
    ensures
        retry_spec(1, outcome) != RetryStep::Retry,
{
}

/// Of the responses, only a 502 Bad Gateway or a 503 Service Unavailable to the
/// first attempt is retried; every other status, and every response to a
/// retry, is delivered as it is.
pub proof fn lemma_retry_statuses(attempt: usize, status: u16)
    ensures
        (retry_spec(attempt, FetchOutcome::Responded(status)) == RetryStep::Retry)
            <==> (attempt == 0 && (status == 502 || status == 503)),
        !(attempt == 0 && (status == 502 || status == 503))
            ==> retry_spec(attempt, FetchOutcome::Responded(status)) == RetryStep::Deliver,
{
}

/// A failed request is retried only when the first attempt could not connect;
/// otherwise it fails, as `Timeout` when it timed out and as `Upstream` else.
pub proof fn lemma_retry_failures(attempt: usize, connect: bool, timed_out: bool)
    ensures
        (retry_spec(attempt, FetchOutcome::Failed { connect, timed_out }) == RetryStep::Retry)
            <==> (connect && attempt == 0),
        !(connect && attempt == 0) && timed_out
            ==> retry_spec(attempt, FetchOutcome::Failed { connect, timed_out }) == RetryStep::Fail(ScrapeError::Timeout),
        !(connect && attempt == 0) && !timed_out
            ==> retry_spec(attempt, FetchOutcome::Failed { connect, timed_out }) == RetryStep::Fail(ScrapeError::Upstream),
{
}

} // verus!
