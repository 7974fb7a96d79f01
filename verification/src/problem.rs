//! RFC 9457 problem details: what every failure is answered with.

use vstd::prelude::*;
use crate::domain::{DeniedUrl, ScrapeError};
use crate::url_guard::DeniedUrlError;

verus! {

/// Validation constraint violation details.
#[derive(Debug)]
pub struct Violation {
    /// The field for which the validation failed.
    pub field: String,
    /// Part of the request where the validation error occurred (query, path, header, form, body).
    pub location: String,
    /// Description of the validation error.
    pub message: String,
}

impl View for Violation {
    type V = (Seq<char>, Seq<char>, Seq<char>);

    open spec fn view(&self) -> Self::V {
        (self.field@, self.location@, self.message@)
    }
}

impl Violation {
    /// A violation found in the request body at `path` (the root, `$`, when
    /// the path is empty).
    pub fn in_body(path: String, message: String) -> (r: Self)
        ensures
            r.field@ == if path@.len() == 0 { "$"@ } else { path@ },
            r.location@ == "body"@,
            r.message@ == message@,
    {
        let field = if path.as_str().is_empty() { "$".to_owned() } else { path };
        Violation { field, location: "body".to_owned(), message }
    }
}

/// HTTP problem response body (RFC 9457, RFC 7807).
#[derive(Debug)]
pub struct HttpProblem {
    /// An optional URI reference that identifies the problem type.
    pub type_uri: Option<String>,
    /// An optional short, human-readable summary of the problem type.
    pub title: Option<String>,
    /// The HTTP status code for this occurrence of the problem.
    pub status: i32,
    /// An optional human-readable explanation of this occurrence.
    pub detail: Option<String>,
}

/// HTTP validation problem response body (RFC 9457, RFC 7807).
#[derive(Debug)]
pub struct HttpValidationProblem {
    pub type_uri: Option<String>,
    pub title: Option<String>,
    pub status: i32,
    pub detail: Option<String>,
    /// The validation constraint violations that occurred.
    pub violations: Vec<Violation>,
}

/// The body a problem is answered with.
#[derive(Debug)]
pub enum ProblemBody {
    Plain(HttpProblem),
    Validation(HttpValidationProblem),
}

/// A failure as it is answered: status, title, detail and, for validation
/// failures, the violations.
#[derive(Debug)]
pub struct Problem {
    status: u16,
    title: String,
    detail: String,
    violations: Option<Vec<Violation>>,
}

pub open spec fn violations_view(v: Option<Vec<Violation>>) -> Option<Seq<(Seq<char>, Seq<char>, Seq<char>)>> {
    match v {
        Some(list) => Some(list@.map_values(|x: Violation| x@)),
        None => None,
    }
}

impl View for Problem {
    type V = (u16, Seq<char>, Seq<char>, Option<Seq<(Seq<char>, Seq<char>, Seq<char>)>>);

    closed spec fn view(&self) -> Self::V {
        (self.status, self.title@, self.detail@, violations_view(self.violations))
    }
}

pub open spec fn opt_view(s: Option<String>) -> Option<Seq<char>> {
    match s {
        Some(v) => Some(v@),
        None => None,
    }
}

/// The single violation reported on the request's `url` field.
pub open spec fn url_violation(message: Seq<char>) -> Seq<(Seq<char>, Seq<char>, Seq<char>)> {
    seq![("url"@, "body"@, message)]
}

/// The detail reported for each refused URL.
pub open spec fn denied_message(error: DeniedUrlError) -> Seq<char> {
    match error {
        DeniedUrlError::InvalidUrl => "url must be a valid URL"@,
        DeniedUrlError::NotHttp => "only http/https urls are allowed"@,
        DeniedUrlError::Credentials => "url must not contain credentials"@,
        DeniedUrlError::ForbiddenPort => "url port is not allowed"@,
        DeniedUrlError::ForbiddenHost => "url host is not allowed"@,
        DeniedUrlError::Unresolvable => "url host could not be resolved"@,
    }
}

/// The problem a scrape failure is answered with.
pub open spec fn scrape_problem(error: ScrapeError) -> (u16, Seq<char>, Seq<char>, Option<Seq<(Seq<char>, Seq<char>, Seq<char>)>>) {
    match error {
        ScrapeError::Denied(d) => (422, "Unprocessable Entity"@, "Validation failed"@, Some(url_violation(denied_message(denied_url_error(d))))),
        ScrapeError::Upstream => (502, "Bad Gateway"@, "failed to fetch url"@, None),
        ScrapeError::UnsupportedMedia => (415, "Unsupported Media Type"@, "Only text/html can be scrapped"@, None),
        ScrapeError::TooLarge => (413, "Payload Too Large"@, "Response exceeds size limit"@, None),
        ScrapeError::Timeout => (504, "Gateway Timeout"@, "Upstream fetch timed out"@, None),
        ScrapeError::Unexpected => (500, "Unexpected Error"@, "Unexpected internal error"@, None),
    }
}

pub open spec fn denied_url_error(d: DeniedUrl) -> DeniedUrlError {
    match d {
        DeniedUrl::InvalidUrl => DeniedUrlError::InvalidUrl,
        DeniedUrl::NotHttp => DeniedUrlError::NotHttp,
        DeniedUrl::Credentials => DeniedUrlError::Credentials,
        DeniedUrl::ForbiddenPort => DeniedUrlError::ForbiddenPort,
        DeniedUrl::ForbiddenHost => DeniedUrlError::ForbiddenHost,
        DeniedUrl::Unresolvable => DeniedUrlError::Unresolvable,
    }
}

fn denied_url_to_error(d: DeniedUrl) -> (r: DeniedUrlError)
    ensures
        r == denied_url_error(d),
{
    match d {
        DeniedUrl::InvalidUrl => DeniedUrlError::InvalidUrl,
        DeniedUrl::NotHttp => DeniedUrlError::NotHttp,
        DeniedUrl::Credentials => DeniedUrlError::Credentials,
        DeniedUrl::ForbiddenPort => DeniedUrlError::ForbiddenPort,
        DeniedUrl::ForbiddenHost => DeniedUrlError::ForbiddenHost,
        DeniedUrl::Unresolvable => DeniedUrlError::Unresolvable,
    }
}

impl Problem {
    fn new(status: u16, title: String, detail: String, violations: Option<Vec<Violation>>) -> (r: Self)
        ensures
            r@ == (status, title@, detail@, violations_view(violations)),
    {
        Problem { status, title, detail, violations }
    }

    pub fn bad_json(detail: String) -> (r: Self)
        ensures
            r@ == (400u16, "Invalid JSON"@, detail@, None::<Seq<(Seq<char>, Seq<char>, Seq<char>)>>),
    {
        Self::new(400, "Invalid JSON".to_owned(), detail, None)
    }

    pub fn validation(violations: Vec<Violation>) -> (r: Self)
        ensures
            r@ == (422u16, "Unprocessable Entity"@, "Validation failed"@, Some(violations@.map_values(|x: Violation| x@))),
    {
        Self::new(422, "Unprocessable Entity".to_owned(), "Validation failed".to_owned(), Some(violations))
    }

    /// A validation failure on the request's `url` field.
    pub fn unprocessable(detail: String) -> (r: Self)
        ensures
            r@ == (422u16, "Unprocessable Entity"@, "Validation failed"@, Some(url_violation(detail@))),
    {
        let mut violations: Vec<Violation> = Vec::new();
        violations.push(Violation { field: "url".to_owned(), location: "body".to_owned(), message: detail });
        let r = Self::validation(violations);
        assert(violations@.map_values(|x: Violation| x@) =~= url_violation(detail@));
        r
    }

    pub fn unsupported_media() -> (r: Self)
        ensures
            r@ == (415u16, "Unsupported Media Type"@, "Only text/html can be scrapped"@, None::<Seq<(Seq<char>, Seq<char>, Seq<char>)>>),
    {
        Self::new(415, "Unsupported Media Type".to_owned(), "Only text/html can be scrapped".to_owned(), None)
    }

    pub fn payload_too_large() -> (r: Self)
        ensures
            r@ == (413u16, "Payload Too Large"@, "Response exceeds size limit"@, None::<Seq<(Seq<char>, Seq<char>, Seq<char>)>>),
    {
        Self::new(413, "Payload Too Large".to_owned(), "Response exceeds size limit".to_owned(), None)
    }

    pub fn bad_gateway(detail: String) -> (r: Self)
        ensures
            r@ == (502u16, "Bad Gateway"@, detail@, None::<Seq<(Seq<char>, Seq<char>, Seq<char>)>>),
    {
        Self::new(502, "Bad Gateway".to_owned(), detail, None)
    }

    pub fn gateway_timeout() -> (r: Self)
        ensures
            r@ == (504u16, "Gateway Timeout"@, "Upstream fetch timed out"@, None::<Seq<(Seq<char>, Seq<char>, Seq<char>)>>),
    {
        Self::new(504, "Gateway Timeout".to_owned(), "Upstream fetch timed out".to_owned(), None)
    }

    pub fn unexpected() -> (r: Self)
        ensures
            r@ == (500u16, "Unexpected Error"@, "Unexpected internal error"@, None::<Seq<(Seq<char>, Seq<char>, Seq<char>)>>),
    {
        Self::new(500, "Unexpected Error".to_owned(), "Unexpected internal error".to_owned(), None)
    }

    /// The answer to a refused URL: a 422 naming the `url` field.
    pub fn from_denied_url(error: DeniedUrlError) -> (r: Self)
        ensures
            r@ == (422u16, "Unprocessable Entity"@, "Validation failed"@, Some(url_violation(denied_message(error)))),
    {
        let message = match error {
            DeniedUrlError::InvalidUrl => "url must be a valid URL".to_owned(),
            DeniedUrlError::NotHttp => "only http/https urls are allowed".to_owned(),
            DeniedUrlError::Credentials => "url must not contain credentials".to_owned(),
            DeniedUrlError::ForbiddenPort => "url port is not allowed".to_owned(),
            DeniedUrlError::ForbiddenHost => "url host is not allowed".to_owned(),
            DeniedUrlError::Unresolvable => "url host could not be resolved".to_owned(),
        };
        Self::unprocessable(message)
    }

    /// The answer to a failed scrape.
    pub fn from_scrape_error(error: ScrapeError) -> (r: Self)
        ensures
            r@ == scrape_problem(error),
    {
        match error {
            ScrapeError::Denied(denied) => Self::from_denied_url(denied_url_to_error(denied)),
            ScrapeError::Upstream => Self::bad_gateway("failed to fetch url".to_owned()),
            ScrapeError::UnsupportedMedia => Self::unsupported_media(),
            ScrapeError::TooLarge => Self::payload_too_large(),
            ScrapeError::Timeout => Self::gateway_timeout(),
            ScrapeError::Unexpected => Self::unexpected(),
        }
    }

    /// The HTTP status the problem is answered with.
    pub fn status(&self) -> (r: u16)
        ensures
            r == self@.0,
    {
        self.status
    }

    /// The body of the answer: with violations, a validation problem; without,
    /// a plain one. Title, status and detail are always present, the type never.
    pub fn into_body(self) -> (r: ProblemBody)
        ensures
            match r {
                ProblemBody::Plain(body) => {
                    &&& self@.3 is None
                    &&& body.type_uri is None
                    &&& opt_view(body.title) == Some(self@.1)
                    &&& body.status == self@.0 as i32
                    &&& opt_view(body.detail) == Some(self@.2)
                },
                ProblemBody::Validation(body) => {
                    &&& self@.3 == Some(body.violations@.map_values(|x: Violation| x@))
                    &&& body.type_uri is None
                    &&& opt_view(body.title) == Some(self@.1)
                    &&& body.status == self@.0 as i32
                    &&& opt_view(body.detail) == Some(self@.2)
                },
            },
    {
        let status = self.status as i32;
        match self.violations {
            Some(violations) => ProblemBody::Validation(HttpValidationProblem {
                type_uri: None,
                title: Some(self.title),
                status,
                detail: Some(self.detail),
                violations,
            }),
            None => ProblemBody::Plain(HttpProblem {
                type_uri: None,
                title: Some(self.title),
                status,
                detail: Some(self.detail),
            }),
        }
    }
}

/// Every scrape failure is answered with its own status: 422 for a refused URL,
/// 502 for an upstream failure, 415, 413, 504 and 500; only a refused URL
/// carries violations.
pub proof fn lemma_failure_statuses(error: ScrapeError)
    ensures
        scrape_problem(error).0 == match error {
            ScrapeError::Denied(_) => 422u16,
            ScrapeError::Upstream => 502u16,
            ScrapeError::UnsupportedMedia => 415u16,
            ScrapeError::TooLarge => 413u16,
            ScrapeError::Timeout => 504u16,
            ScrapeError::Unexpected => 500u16,
        },
        scrape_problem(error).3 is Some <==> error is Denied,
{
}

} // verus!
