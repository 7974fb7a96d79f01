use opengraph_scraper::meta::{parse_meta, Field};

#[test]
fn parses_both_orders_and_quotes() {
    let cases: &[(&[u8], Field, &str, bool)] = &[
        (br#"<meta property="og:title" content="Hello">"#, Field::Title, "Hello", true),
        (br#"<META CONTENT='World' NAME='twitter:title'>"#, Field::Title, "World", true),
    ];

    for (tag, expected_kind, expected_value, expected_open_graph) in cases {
        let (kind, value, is_open_graph) = parse_meta(tag).unwrap();

        assert_eq!(kind, *expected_kind);
        assert_eq!(value, *expected_value);
        assert_eq!(is_open_graph, *expected_open_graph);
    }

    assert!(parse_meta(br#"<meta property="og:title">"#).is_none());
}

#[test]
fn parses_unquoted_values() {
    let (kind, value, is_open_graph) = parse_meta(br#"<meta property=og:title content=Hello>"#).unwrap();

    assert_eq!(kind, Field::Title);
    assert_eq!(value, "Hello");
    assert!(is_open_graph);
}

#[test]
fn name_description_is_fallback() {
    let (kind, value, is_open_graph) = parse_meta(br#"<meta name="description" content="Plain">"#).unwrap();

    assert_eq!(kind, Field::Description);
    assert_eq!(value, "Plain");
    assert!(!is_open_graph);
}

#[test]
fn rejects_unknown_properties() {
    assert!(parse_meta(br#"<meta property="og:video" content="x">"#).is_none());
    assert!(parse_meta(br#"<meta name="viewport" content="x">"#).is_none());
}

#[test]
fn decodes_entities_in_content() {
    let (_, value, _) = parse_meta(br#"<meta property="og:title" content="a &amp; b">"#).unwrap();

    assert_eq!(value, "a & b");
}

#[test]
fn property_values_ignore_case_and_last_attribute_wins() {
    let (kind, value, open_graph) =
        parse_meta(br#"<meta property="OG:IMAGE" content="a" content="b">"#).unwrap();
    assert_eq!(kind, Field::Image);
    assert_eq!(value, "b");
    assert!(open_graph);
}

#[test]
fn unterminated_quote_takes_the_rest() {
    let (_, value, _) = parse_meta(br#"<meta property="og:description" content="abc"#).unwrap();
    assert_eq!(value, "abc");
}

#[test]
fn invalid_utf8_becomes_replacement_characters() {
    let tag: &[u8] = b"<meta property=\"og:title\" content=\"a\xFFb\">";
    let (_, value, _) = parse_meta(tag).unwrap();
    assert_eq!(value, "a\u{FFFD}b");
}
