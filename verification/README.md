# opengraph_scraper

Fast, SSRF-safe OpenGraph metadata scraper exposed as a JSON API.

- `src/` is the verified library (Verus): the streaming `<head>` scanner
  (`scanner`, `meta`, `bytes`, `entities`), which stops using the page at
  `</head>`, the SSRF guard (`url_guard`, `ip`,
  `ip_text`), the checks on upstream responses (`guards`), the decisions of the
  fetch loop (`fetcher`: each redirect target screened before it may be
  requested, soft retry, user-agent rotation), the log host and the
  RFC 9457 problem answers (`problem`).
- `app/` is the Axum server around it: routing, OpenAPI docs, DNS pinning,
  HTTP requests and the async loops that feed the library.
- `tests/` exercises the library on concrete inputs.
