use opengraph_scraper::domain::{DeniedUrl, ScrapeError};
use opengraph_scraper::problem::{Problem, ProblemBody, Violation};
use opengraph_scraper::response::DataResponse;
use opengraph_scraper::url_guard::DeniedUrlError;

#[test]
fn defaults_to_ok_status_code() {
    let response = DataResponse::new("data", "ok".to_string());

    assert_eq!(response.status_code, 200);
}

#[test]
fn honors_custom_status_code() {
    let response = DataResponse::with_status_code(201, "data", "created".to_string());

    assert_eq!(response.status_code, 201);
}

#[test]
fn denied_urls_are_unprocessable_on_the_url_field() {
    let problem = Problem::from_scrape_error(ScrapeError::Denied(DeniedUrl::ForbiddenPort));
    assert_eq!(problem.status(), 422);
    match problem.into_body() {
        ProblemBody::Validation(body) => {
            assert_eq!(body.status, 422);
            assert_eq!(body.title.as_deref(), Some("Unprocessable Entity"));
            assert_eq!(body.detail.as_deref(), Some("Validation failed"));
            assert_eq!(body.violations.len(), 1);
            assert_eq!(body.violations[0].field, "url");
            assert_eq!(body.violations[0].location, "body");
            assert_eq!(body.violations[0].message, "url port is not allowed");
        }
        ProblemBody::Plain(_) => panic!("expected a validation problem"),
    }
}

#[test]
fn each_failure_has_its_status() {
    let cases = [
        (ScrapeError::Upstream, 502, "Bad Gateway", "failed to fetch url"),
        (ScrapeError::UnsupportedMedia, 415, "Unsupported Media Type", "Only text/html can be scrapped"),
        (ScrapeError::TooLarge, 413, "Payload Too Large", "Response exceeds size limit"),
        (ScrapeError::Timeout, 504, "Gateway Timeout", "Upstream fetch timed out"),
        (ScrapeError::Unexpected, 500, "Unexpected Error", "Unexpected internal error"),
    ];
    for (error, status, title, detail) in cases {
        let problem = Problem::from_scrape_error(error);
        assert_eq!(problem.status(), status);
        match problem.into_body() {
            ProblemBody::Plain(body) => {
                assert_eq!(body.status, status as i32);
                assert_eq!(body.type_uri, None);
                assert_eq!(body.title.as_deref(), Some(title));
                assert_eq!(body.detail.as_deref(), Some(detail));
            }
            ProblemBody::Validation(_) => panic!("expected a plain problem"),
        }
    }
}

#[test]
fn refused_url_messages() {
    let problem = Problem::from_denied_url(DeniedUrlError::Unresolvable);
    match problem.into_body() {
        ProblemBody::Validation(body) => {
            assert_eq!(body.violations[0].message, "url host could not be resolved")
        }
        ProblemBody::Plain(_) => panic!("expected a validation problem"),
    }
    let problem = Problem::bad_json("oops".to_string());
    assert_eq!(problem.status(), 400);
}

#[test]
fn refused_urls_fail_the_scrape_as_denied() {
    assert_eq!(
        ScrapeError::from(DeniedUrlError::Credentials),
        ScrapeError::Denied(DeniedUrl::Credentials)
    );
}

#[test]
fn body_violations_name_the_root_when_the_path_is_empty() {
    let root = Violation::in_body(String::new(), "bad".to_string());
    assert_eq!(root.field, "$");
    assert_eq!(root.location, "body");
    assert_eq!(root.message, "bad");
    let field = Violation::in_body("url".to_string(), "not a url".to_string());
    assert_eq!(field.field, "url");
}
