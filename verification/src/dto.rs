//! Request and response bodies of the OpenGraph endpoint.

use vstd::prelude::*;
use crate::domain::{Opengraph, OpengraphDescription, OpengraphImage, OpengraphTitle};

verus! {

/// The request: the page to scrape.
#[derive(Debug)]
pub struct OpengraphBody {
    pub url: String,
}

/// The response data.
#[derive(Debug)]
pub struct OpengraphData {
    pub title: OpengraphTitle,
    pub description: OpengraphDescription,
    pub image: OpengraphImage,
}

impl From<Opengraph> for OpengraphData {
    fn from(opengraph: Opengraph) -> (r: Self) {
        OpengraphData { title: opengraph.title, description: opengraph.description, image: opengraph.image }
    }
}

impl vstd::std_specs::convert::FromSpecImpl<Opengraph> for OpengraphData {
    open spec fn obeys_from_spec() -> bool {
        true
    }

    open spec fn from_spec(opengraph: Opengraph) -> Self {
        OpengraphData { title: opengraph.title, description: opengraph.description, image: opengraph.image }
    }
}

} // verus!
