use opengraph_scraper::domain::ScrapeError;
use opengraph_scraper::guards::{
    check_response, ensure_html, ensure_size, ensure_success, is_body_too_large, is_html_content_type,
};
use opengraph_scraper::scanner::MAX_BYTES;

#[test]
fn accepts_html_content_types() {
    assert!(is_html_content_type("text/html; charset=utf-8"));
    assert!(is_html_content_type("TEXT/HTML"));
    assert!(is_html_content_type("application/xhtml+xml"));
    assert!(is_html_content_type(""));
}

#[test]
fn rejects_non_html_content_types() {
    assert!(!is_html_content_type("application/json"));
    assert!(!is_html_content_type("image/png"));
    assert!(!is_html_content_type("text/html-evil"));
    assert!(!is_html_content_type("image/png; text/html"));
    assert!(!is_html_content_type("text/htmlfoo"));
}

#[test]
fn rejects_oversized_bodies() {
    assert!(is_body_too_large(Some(MAX_BYTES + 1)));
    assert!(!is_body_too_large(Some(MAX_BYTES)));
    assert!(!is_body_too_large(None));
}

#[test]
fn trims_the_media_type() {
    assert!(is_html_content_type("  text/html  ;charset=utf-8"));
    assert!(!is_html_content_type(";text/html"));
}

#[test]
fn guards_map_to_their_errors() {
    assert_eq!(ensure_success(200), Ok(()));
    assert_eq!(ensure_success(299), Ok(()));
    assert_eq!(ensure_success(301), Err(ScrapeError::Upstream));
    assert_eq!(ensure_success(404), Err(ScrapeError::Upstream));
    assert_eq!(ensure_size(Some(MAX_BYTES + 1)), Err(ScrapeError::TooLarge));
    assert_eq!(ensure_size(None), Ok(()));
    assert_eq!(ensure_html("image/png"), Err(ScrapeError::UnsupportedMedia));
    assert_eq!(ensure_html("text/html"), Ok(()));
}

#[test]
fn response_checks_run_in_order() {
    assert_eq!(check_response(200, Some(10), "text/html"), Ok(()));
    assert_eq!(check_response(200, None, ""), Ok(()));
    assert_eq!(check_response(500, Some(MAX_BYTES + 1), "image/png"), Err(ScrapeError::Upstream));
    assert_eq!(check_response(200, Some(MAX_BYTES + 1), "image/png"), Err(ScrapeError::TooLarge));
    assert_eq!(check_response(200, Some(MAX_BYTES), "image/png"), Err(ScrapeError::UnsupportedMedia));
}
