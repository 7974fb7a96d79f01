//! The scraped data and the ways a scrape can fail.

use vstd::prelude::*;

verus! {

#[derive(Debug)]
pub struct OpengraphTitle(pub Option<String>);

#[derive(Debug)]
pub struct OpengraphDescription(pub Option<String>);

#[derive(Debug)]
pub struct OpengraphImage(pub Option<String>);

#[derive(Debug)]
pub struct Opengraph {
    pub title: OpengraphTitle,
    pub description: OpengraphDescription,
    pub image: OpengraphImage,
}

impl Opengraph {
    pub fn new(title: OpengraphTitle, description: OpengraphDescription, image: OpengraphImage) -> (r: Self)
        ensures
            r.title == title,
            r.description == description,
            r.image == image,
    {
        Opengraph { title, description, image }
    }
}

/// Why a URL is refused before anything is fetched from it.
#[derive(Clone, Copy, PartialEq, Eq, Structural, Debug)]
pub enum DeniedUrl {
    InvalidUrl,
    NotHttp,
    Credentials,
    ForbiddenPort,
    ForbiddenHost,
    Unresolvable,
}

#[derive(Clone, Copy, PartialEq, Eq, Structural, Debug)]
pub enum ScrapeError {
    Denied(DeniedUrl),
    Upstream,
    UnsupportedMedia,
    TooLarge,
    Timeout,
    Unexpected,
}

impl From<DeniedUrl> for ScrapeError {
    fn from(error: DeniedUrl) -> (r: Self) {
        ScrapeError::Denied(error)
    }
}

impl vstd::std_specs::convert::FromSpecImpl<DeniedUrl> for ScrapeError {
    open spec fn obeys_from_spec() -> bool {
        true
    }

    open spec fn from_spec(error: DeniedUrl) -> Self {
        ScrapeError::Denied(error)
    }
}

} // verus!
