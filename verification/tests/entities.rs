use opengraph_scraper::entities::{decode_entities, push_entity};

#[test]
fn decodes_entities() {
    assert_eq!(decode_entities("a&#39;b"), "a'b");
    assert_eq!(decode_entities("a &amp; b"), "a & b");
    assert_eq!(decode_entities("Café &amp; crème"), "Café & crème");
    assert_eq!(decode_entities("GitHub · Change"), "GitHub · Change");
}

#[test]
fn decodes_hex_and_decimal_codepoints() {
    assert_eq!(decode_entities("a&#x27;b"), "a'b");
    assert_eq!(decode_entities("a&#X27;b"), "a'b");
    assert_eq!(decode_entities("&#65;&#66;"), "AB");
}

#[test]
fn leaves_malformed_entities_intact() {
    assert_eq!(decode_entities("&foo;"), "&foo;");
    assert_eq!(decode_entities("&amp"), "&amp");
    assert_eq!(decode_entities("a & b"), "a & b");
    assert_eq!(decode_entities("&abcdefghijk;"), "&abcdefghijk;");
}

#[test]
fn decodes_named_references() {
    assert_eq!(decode_entities("&lt;b&gt; &quot;x&quot;"), "<b> \"x\"");
}

#[test]
fn keeps_references_to_non_scalar_codes() {
    // Surrogates and codes past U+10FFFF are no characters.
    assert_eq!(decode_entities("&#xD800;"), "&#xD800;");
    assert_eq!(decode_entities("&#1114112;"), "&#1114112;");
    assert_eq!(decode_entities("&#x1F600;"), "\u{1F600}");
}

#[test]
fn accepts_a_plus_sign_like_std_parsing() {
    assert_eq!(decode_entities("&#+65;"), "A");
    assert_eq!(decode_entities("&#x;"), "&#x;");
    assert_eq!(decode_entities("&#;"), "&#;");
}

#[test]
fn push_entity_reports_unknown_references() {
    let mut output: Vec<char> = Vec::new();
    assert!(push_entity(&['&', 'a', 'm', 'p', ';'], &mut output));
    assert_eq!(output, vec!['&']);
    assert!(!push_entity(&['&', 'x', ';'], &mut output));
    assert_eq!(output, vec!['&']);
}
