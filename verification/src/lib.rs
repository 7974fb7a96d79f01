//! OpenGraph scraping core: a streaming `<head>` scanner with a bounded window,
//! HTML character references, `<meta>` attribute parsing, an SSRF guard for
//! URLs and IP literals, the fetch-loop decisions and the problem answers.

pub mod text;
pub mod bytes;
pub mod entities;
pub mod meta;
pub mod domain;
pub mod scanner;
pub mod guards;
pub mod ip;
pub mod ip_text;
pub mod url_guard;
pub mod fetcher;
pub mod problem;
pub mod dto;
pub mod response;
