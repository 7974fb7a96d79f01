use opengraph_scraper::bytes::{
    find_byte, find_insensitive, is_split_tag_prefix, starts_with_insensitive, trailing_prefix_len,
};

#[test]
fn finds_case_insensitive() {
    assert_eq!(find_insensitive(b"<HEAD><META", b"<meta"), Some(6));
    assert_eq!(find_insensitive(b"<head>", b"</title"), None);
    assert_eq!(find_insensitive(b"abc", b""), None);
    assert_eq!(find_insensitive(b"ab", b"abcd"), None);
}

#[test]
fn detects_split_prefixes() {
    assert!(is_split_tag_prefix(b"<"));
    assert!(is_split_tag_prefix(b"</"));
    assert!(is_split_tag_prefix(b"<M"));
    assert!(is_split_tag_prefix(b"<META"));
    assert!(!is_split_tag_prefix(b""));
    assert!(!is_split_tag_prefix(b"plain text"));
    assert!(!is_split_tag_prefix(b"<div"));
}

#[test]
fn measures_trailing_prefix() {
    // Only suffixes starting with '<' can split a tag
    assert_eq!(trailing_prefix_len(b"abc</title"), 7);
    assert_eq!(trailing_prefix_len(b"text</head"), 6);
    assert_eq!(trailing_prefix_len(b"<head><meta pro"), 0);
    assert_eq!(trailing_prefix_len(b"plain text"), 0);
    assert_eq!(trailing_prefix_len(b""), 0);
}

#[test]
fn starts_with_ignores_case() {
    assert!(starts_with_insensitive(b"<META x>", b"<meta"));
    assert!(!starts_with_insensitive(b"<m", b"<meta"));
}

#[test]
fn finds_first_byte_only() {
    assert_eq!(find_byte(b"a>b>c", b'>'), Some(1));
    assert_eq!(find_byte(b"abc", b'>'), None);
    assert_eq!(find_byte(b"", b'>'), None);
}

#[test]
fn finds_first_of_several_matches() {
    assert_eq!(find_insensitive(b"x</TITLE></title", b"</title"), Some(1));
}

#[test]
fn trailing_prefix_never_exceeds_eight() {
    // "</title" is 7 bytes; a longer suffix cannot be a cut-off tag.
    assert_eq!(trailing_prefix_len(b"xx</titl"), 6);
    assert_eq!(trailing_prefix_len(b"<"), 1);
    assert_eq!(trailing_prefix_len(b"<title>"), 0);
}
