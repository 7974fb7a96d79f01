use opengraph_scraper::domain::{DeniedUrl, ScrapeError};
use opengraph_scraper::ip::IpAddress;
use opengraph_scraper::url_guard::UrlParts;
use opengraph_scraper::fetcher::{
    followable_target, map_fetch_error, next_hop, redirect_step, resolve_redirect_target, soft_retry_step, user_agent_for_attempt,
    FetchOutcome, RetryStep,
};

const USER_AGENTS: [&str; 3] = [
    "WhatsApp/2.22.20.72 A",
    "facebookexternalhit/1.1 (+http://www.facebook.com/externalhit_uatext.php)",
    "Meta-ExternalAgent/1.1 (+https://developers.facebook.com/docs/sharing/webmasters/crawler)",
];

fn base_url() -> &'static str {
    "https://example.com/a/b"
}

#[test]
fn follows_http_redirects() {
    for status in [301, 302, 303, 307, 308] {
        let target = resolve_redirect_target(base_url(), status, Some("/c"));

        assert_eq!(target.as_deref(), Some("https://example.com/c"));
    }
}

#[test]
fn resolves_relative_locations() {
    let target = resolve_redirect_target(base_url(), 302, Some("c"));

    assert_eq!(target.as_deref(), Some("https://example.com/a/c"));
}

#[test]
fn ignores_non_redirects_and_bad_targets() {
    assert_eq!(resolve_redirect_target(base_url(), 200, Some("/c")), None);
    assert_eq!(resolve_redirect_target(base_url(), 302, None), None);
    assert_eq!(resolve_redirect_target(base_url(), 302, Some("javascript:alert(1)")), None);
    assert_eq!(resolve_redirect_target(base_url(), 302, Some("ftp://x/y")), None);
}

#[test]
fn rotates_user_agents_on_retry() {
    assert_eq!(user_agent_for_attempt(0, 0), USER_AGENTS[0]);
    assert_eq!(user_agent_for_attempt(0, 1), USER_AGENTS[1]);
    assert_eq!(user_agent_for_attempt(1, 0), USER_AGENTS[1]);
    assert_eq!(user_agent_for_attempt(1, 1), USER_AGENTS[2]);
    assert_eq!(user_agent_for_attempt(2, 1), USER_AGENTS[0]);
}

#[test]
fn retries_once_on_connect_errors_and_gateway_statuses() {
    assert_eq!(soft_retry_step(0, FetchOutcome::Responded(502)), RetryStep::Retry);
    assert_eq!(soft_retry_step(0, FetchOutcome::Responded(503)), RetryStep::Retry);
    assert_eq!(soft_retry_step(1, FetchOutcome::Responded(503)), RetryStep::Deliver);
    assert_eq!(soft_retry_step(0, FetchOutcome::Responded(500)), RetryStep::Deliver);
    assert_eq!(
        soft_retry_step(0, FetchOutcome::Failed { connect: true, timed_out: false }),
        RetryStep::Retry
    );
    assert_eq!(
        soft_retry_step(1, FetchOutcome::Failed { connect: true, timed_out: true }),
        RetryStep::Fail(ScrapeError::Timeout)
    );
    assert_eq!(
        soft_retry_step(0, FetchOutcome::Failed { connect: false, timed_out: false }),
        RetryStep::Fail(ScrapeError::Upstream)
    );
}

#[test]
fn follows_at_most_three_redirects() {
    assert_eq!(redirect_step(0, None), Ok(None));
    assert_eq!(redirect_step(2, Some("u".to_string())), Ok(Some("u".to_string())));
    assert_eq!(redirect_step(3, Some("u".to_string())), Err(ScrapeError::Upstream));
    assert_eq!(redirect_step(3, None), Ok(None));
}

#[test]
fn timeouts_map_to_timeout() {
    assert_eq!(map_fetch_error(true), ScrapeError::Timeout);
    assert_eq!(map_fetch_error(false), ScrapeError::Upstream);
}

#[test]
fn a_retry_uses_another_user_agent() {
    for start in 0..6 {
        assert_ne!(user_agent_for_attempt(start, 0), user_agent_for_attempt(start, 1));
        assert_eq!(user_agent_for_attempt(start, 0), user_agent_for_attempt(start + 3, 0));
    }
}

#[test]
fn next_hop_screens_every_redirect_target() {
    assert!(matches!(next_hop(0, base_url(), 200, Some("/c")), Ok(None)));
    assert!(matches!(next_hop(0, base_url(), 302, None), Ok(None)));
    let hop = next_hop(0, base_url(), 302, Some("/c")).unwrap().unwrap();
    assert_eq!(hop.url.serialization, "https://example.com/c");
    assert_eq!(hop.literal, None);
    let hop = next_hop(1, base_url(), 301, Some("http://93.184.215.14/x")).unwrap().unwrap();
    assert_eq!(hop.literal, Some(IpAddress::V4([93, 184, 215, 14])));
    assert_eq!(
        next_hop(0, base_url(), 302, Some("http://127.0.0.1/")).unwrap_err(),
        ScrapeError::Denied(DeniedUrl::ForbiddenHost)
    );
    assert_eq!(
        next_hop(0, base_url(), 302, Some("http://example.com:8080/")).unwrap_err(),
        ScrapeError::Denied(DeniedUrl::ForbiddenPort)
    );
    assert_eq!(next_hop(3, base_url(), 302, Some("/c")).unwrap_err(), ScrapeError::Upstream);
}

fn joined(serialization: &str, scheme: &str) -> UrlParts {
    UrlParts {
        serialization: serialization.to_string(),
        scheme: scheme.to_string(),
        username: String::new(),
        password: None,
        port: None,
        host: Some("example.com".to_string()),
    }
}

#[test]
fn follows_only_http_targets() {
    assert_eq!(
        followable_target(Some(joined("https://example.com/c", "https"))).as_deref(),
        Some("https://example.com/c")
    );
    assert_eq!(
        followable_target(Some(joined("http://example.com/c", "http"))).as_deref(),
        Some("http://example.com/c")
    );
    assert_eq!(followable_target(Some(joined("ftp://example.com/c", "ftp"))), None);
    assert_eq!(followable_target(Some(joined("wss://example.com/c", "wss"))), None);
    assert_eq!(followable_target(None), None);
}
