use opengraph_scraper::domain::ScrapeError;
use opengraph_scraper::scanner::OpengraphHtmlScanner;

#[test]
fn scanner_closes_early_and_drops_rest() {
    let mut scanner = OpengraphHtmlScanner::default();
    let done = scanner
        .feed(br#"<head><meta property="og:title" content="T"><meta property="og:description" content="D">"#)
        .unwrap();
    assert!(!done);
    let done = scanner.feed(br#"<meta property="og:image" content="I"></head><body>9999"#).unwrap();
    assert!(done);
    assert_eq!(scanner.title(), Some("T"));
}

#[test]
fn scanner_handles_split_tags() {
    let mut scanner = OpengraphHtmlScanner::default();
    assert!(!scanner.feed(br#"<head><meta pro"#).unwrap());
    assert!(!scanner.feed(br#"perty="og:title" con"#).unwrap());
    assert!(!scanner.feed(br#"tent="Split"></head>"#).unwrap());
    assert_eq!(scanner.title(), Some("Split"));
}

#[test]
fn scanner_stops_at_limit() {
    let mut scanner = OpengraphHtmlScanner::default();
    let large_input = vec![b'x'; 600 * 1024];
    assert!(matches!(scanner.feed(&large_input), Err(ScrapeError::TooLarge)));
}

#[test]
fn og_wins_over_title_fallback() {
    let mut scanner = OpengraphHtmlScanner::default();
    assert!(!scanner.feed(br#"<head><title>Fallback</title>"#).unwrap());
    assert_eq!(scanner.title(), Some("Fallback"));
    assert!(!scanner
        .feed(br#"<meta property="og:title" content="Real"><meta property="og:description" content="D">"#)
        .unwrap());
    assert_eq!(scanner.title(), Some("Real"));
    let done = scanner.feed(br#"<meta property="og:image" content="I">"#).unwrap();
    assert!(done);
}

#[test]
fn window_stays_bounded_on_huge_input() {
    let mut scanner = OpengraphHtmlScanner::default();
    assert!(!scanner.feed(&vec![b'x'; 20 * 1024]).unwrap());
    assert!(scanner.buffered_len() <= 8192);
}

#[test]
fn broken_title_without_close_is_skipped() {
    let mut scanner = OpengraphHtmlScanner::default();
    let mut broken = b"<head><title>".to_vec();
    broken.extend(vec![b'x'; 9000]);
    assert!(!scanner.feed(&broken).unwrap());
    assert_eq!(scanner.title(), None);
}

#[test]
fn first_image_wins() {
    let mut scanner = OpengraphHtmlScanner::default();
    assert!(!scanner
        .feed(br#"<head><meta property="og:image" content="first"><meta property="og:image" content="second">"#)
        .unwrap());
    assert_eq!(scanner.image(), Some("first"));
}

#[test]
fn empty_values_are_ignored() {
    let mut scanner = OpengraphHtmlScanner::default();
    assert!(!scanner.feed(br#"<head><meta property="og:title" content="   ">"#).unwrap());
    assert_eq!(scanner.title(), None);
}

#[test]
fn fallback_does_not_replace_open_graph() {
    let mut scanner = OpengraphHtmlScanner::default();
    assert!(!scanner
        .feed(br#"<meta property="og:description" content="OG"><meta name="description" content="Plain"><title>T</title>"#)
        .unwrap());
    assert_eq!(scanner.description(), Some("OG"));
    assert_eq!(scanner.title(), Some("T"));
}

#[test]
fn counts_every_byte_and_keeps_a_cut_tag() {
    let mut scanner = OpengraphHtmlScanner::default();
    assert!(!scanner.feed(b"abc</tit").unwrap());
    assert_eq!(scanner.total(), 8);
    assert_eq!(scanner.buffered_len(), 5);
}

#[test]
fn exactly_at_the_cap_is_accepted() {
    let mut scanner = OpengraphHtmlScanner::default();
    assert!(!scanner.feed(&vec![b'x'; 512 * 1024]).unwrap());
    assert!(matches!(scanner.feed(b"x"), Err(ScrapeError::TooLarge)));
}

#[test]
fn into_opengraph_carries_the_fields() {
    let mut scanner = OpengraphHtmlScanner::default();
    assert!(scanner
        .feed(br#"<meta property="og:title" content=" T "><meta property="twitter:description" content="D"><meta property="og:image" content="I">"#)
        .unwrap());
    let opengraph = scanner.into_opengraph();
    assert_eq!(opengraph.title.0.as_deref(), Some("T"));
    assert_eq!(opengraph.description.0.as_deref(), Some("D"));
    assert_eq!(opengraph.image.0.as_deref(), Some("I"));
}

#[test]
fn only_head_is_read() {
    let mut scanner = OpengraphHtmlScanner::default();
    let done = scanner
        .feed(br#"<head></head><body><meta property="og:title" content="Body">"#)
        .unwrap();
    assert!(!done);
    assert_eq!(scanner.title(), None);
    assert!(scanner.head_finished());
    assert_eq!(scanner.buffered_len(), 0);
    // Later chunks are only counted.
    assert!(!scanner.feed(br#"<meta property="og:image" content="I">"#).unwrap());
    assert_eq!(scanner.image(), None);
    assert_eq!(scanner.total(), 98);
}

#[test]
fn head_end_split_across_chunks() {
    let mut scanner = OpengraphHtmlScanner::default();
    assert!(!scanner.feed(br#"<meta property="og:title" content="T"></he"#).unwrap());
    assert!(!scanner.head_finished());
    assert!(!scanner.feed(br#"ad><meta property="og:image" content="I">"#).unwrap());
    assert!(scanner.head_finished());
    assert_eq!(scanner.title(), Some("T"));
    assert_eq!(scanner.image(), None);
}

#[test]
fn too_large_stays_too_large() {
    let mut scanner = OpengraphHtmlScanner::default();
    assert!(matches!(scanner.feed(&vec![b'x'; 512 * 1024 + 1]), Err(ScrapeError::TooLarge)));
    assert!(matches!(scanner.feed(b""), Err(ScrapeError::TooLarge)));
    assert!(matches!(scanner.feed(b"<head>"), Err(ScrapeError::TooLarge)));
}

#[test]
fn stored_values_are_trimmed() {
    let mut scanner = OpengraphHtmlScanner::default();
    assert!(!scanner
        .feed("<title>\u{A0} Hello \n</title><meta name=description content=' x '>".as_bytes())
        .unwrap());
    assert_eq!(scanner.title(), Some("Hello"));
    assert_eq!(scanner.description(), Some("x"));
}

#[test]
fn first_open_graph_title_wins_over_later_ones() {
    let mut scanner = OpengraphHtmlScanner::default();
    assert!(!scanner
        .feed(br#"<title>A</title><meta name="twitter:title" content="B"><meta property="og:title" content="C"><title>D</title>"#)
        .unwrap());
    assert_eq!(scanner.title(), Some("B"));
}
