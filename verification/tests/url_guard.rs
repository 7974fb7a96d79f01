use opengraph_scraper::ip::{is_blocked_ip, IpAddress};
use opengraph_scraper::url_guard::{
    host_for_log, log_host, parse_ip_literal, screen_public_http_url, screen_resolved_ips, validate_http_url, DeniedUrlError,
    UrlParts,
};
use url::Url;

fn parts(url: &Url) -> UrlParts {
    UrlParts {
        serialization: url.as_str().to_string(),
        scheme: url.scheme().to_string(),
        username: url.username().to_string(),
        password: url.password().map(|p| p.to_string()),
        port: url.port(),
        host: url.host_str().map(|h| h.to_string()),
    }
}

#[test]
fn blocks_private_literals() {
    for host in [
        "127.0.0.1",
        "0x7f.0.0.1",
        "2130706433",
        "10.0.0.1",
        "192.168.1.1",
        "0.0.0.0",
        "0.1.2.3",
        "100.64.0.1",
        "198.18.0.1",
        "192.0.0.1",
        "169.254.169.254",
        "240.0.0.1",
        "LOCALHOST",
        "evil.localhost",
        "[::1]",
        "[::ffff:127.0.0.1]",
        "[fc00::1]",
        "[fe80::1]",
    ] {
        let url = Url::parse(&format!("http://{host}/")).unwrap();

        assert!(validate_http_url(&parts(&url)).is_err(), "{host}");
    }
}

#[test]
fn allows_public_literals() {
    for host in ["93.184.215.14", "[2606:4700:4700::1111]"] {
        let url = Url::parse(&format!("http://{host}/")).unwrap();

        assert!(validate_http_url(&parts(&url)).is_ok(), "{host}");
    }
}

#[test]
fn blocks_ports_and_creds() {
    let url = Url::parse("http://example.com:22/").unwrap();

    assert!(matches!(validate_http_url(&parts(&url)), Err(DeniedUrlError::ForbiddenPort)));

    let url = Url::parse("http://user@example.com/").unwrap();

    assert!(matches!(validate_http_url(&parts(&url)), Err(DeniedUrlError::Credentials)));

    let url = Url::parse("ftp://example.com/").unwrap();

    assert!(matches!(validate_http_url(&parts(&url)), Err(DeniedUrlError::NotHttp)));
}

#[test]
fn literal_evasions_name_the_same_address() {
    let loopback = IpAddress::V4([127, 0, 0, 1]);
    assert_eq!(parse_ip_literal("127.0.0.1"), Ok(loopback));
    assert_eq!(parse_ip_literal("0x7f.0.0.1"), Ok(loopback));
    assert_eq!(parse_ip_literal("0177.0.0.01"), Ok(loopback));
    assert_eq!(parse_ip_literal("2130706433"), Ok(loopback));
    assert_eq!(parse_ip_literal("0x7f000001"), Ok(loopback));
    assert_eq!(parse_ip_literal("1.2.3"), Err(()));
    assert_eq!(parse_ip_literal("1.2.3.4.5"), Err(()));
    assert_eq!(parse_ip_literal("256.0.0.1"), Err(()));
    assert_eq!(parse_ip_literal("example.com"), Err(()));
    assert_eq!(parse_ip_literal(""), Err(()));
}

#[test]
fn parses_ipv6_text_forms() {
    let mut mapped = [0u8; 16];
    mapped[10] = 255;
    mapped[11] = 255;
    mapped[12] = 127;
    mapped[15] = 1;
    assert_eq!(parse_ip_literal("[::ffff:127.0.0.1]"), Ok(IpAddress::V6(mapped)));
    let mut one = [0u8; 16];
    one[15] = 1;
    assert_eq!(parse_ip_literal("[::1]"), Ok(IpAddress::V6(one)));
    assert_eq!(parse_ip_literal("::"), Ok(IpAddress::V6([0; 16])));
    let full = "1:2:3:4:5:6:7:8";
    assert_eq!(
        parse_ip_literal(full),
        Ok(IpAddress::V6([0, 1, 0, 2, 0, 3, 0, 4, 0, 5, 0, 6, 0, 7, 0, 8]))
    );
    assert_eq!(parse_ip_literal("1::2::3"), Err(()));
    assert_eq!(parse_ip_literal("12345::"), Err(()));
    assert_eq!(parse_ip_literal("1:2:3:4:5:6:7:8:9"), Err(()));
}

#[test]
fn mapped_addresses_are_judged_as_ipv4() {
    let mut mapped_public = [0u8; 16];
    mapped_public[10] = 255;
    mapped_public[11] = 255;
    mapped_public[12] = 93;
    mapped_public[13] = 184;
    mapped_public[14] = 215;
    mapped_public[15] = 14;
    assert!(!is_blocked_ip(&IpAddress::V6(mapped_public)));
    mapped_public[12] = 10;
    assert!(is_blocked_ip(&IpAddress::V6(mapped_public)));
}

#[test]
fn blocks_special_ranges() {
    assert!(is_blocked_ip(&IpAddress::V4([172, 16, 0, 1])));
    assert!(!is_blocked_ip(&IpAddress::V4([172, 32, 0, 1])));
    assert!(is_blocked_ip(&IpAddress::V4([198, 19, 255, 255])));
    assert!(!is_blocked_ip(&IpAddress::V4([198, 20, 0, 0])));
    assert!(is_blocked_ip(&IpAddress::V4([255, 255, 255, 255])));
    assert!(is_blocked_ip(&IpAddress::V4([203, 0, 113, 9])));
    assert!(is_blocked_ip(&IpAddress::V4([224, 0, 0, 1])));
    let mut doc = [0u8; 16];
    doc[0] = 0x20;
    doc[1] = 0x01;
    doc[2] = 0x0d;
    doc[3] = 0xb8;
    assert!(is_blocked_ip(&IpAddress::V6(doc)));
    let mut nat64 = [0u8; 16];
    nat64[1] = 0x64;
    nat64[2] = 0xff;
    nat64[3] = 0x9b;
    nat64[15] = 1;
    assert!(is_blocked_ip(&IpAddress::V6(nat64)));
}

#[test]
fn screens_urls_before_any_lookup() {
    assert!(matches!(screen_public_http_url("not a url"), Err(DeniedUrlError::InvalidUrl)));
    assert!(matches!(screen_public_http_url("http://localhost/"), Err(DeniedUrlError::ForbiddenHost)));
    let checked = screen_public_http_url("https://93.184.215.14/x").unwrap();
    assert_eq!(checked.literal, Some(IpAddress::V4([93, 184, 215, 14])));
    let checked = screen_public_http_url("https://Example.com/x").unwrap();
    assert_eq!(checked.literal, None);
    assert_eq!(checked.url.host.as_deref(), Some("example.com"));
}

#[test]
fn resolved_addresses_fail_closed() {
    assert_eq!(screen_resolved_ips(vec![]), Err(DeniedUrlError::Unresolvable));
    assert_eq!(
        screen_resolved_ips(vec![IpAddress::V4([93, 184, 215, 14]), IpAddress::V4([127, 0, 0, 1])]),
        Err(DeniedUrlError::ForbiddenHost)
    );
    assert_eq!(
        screen_resolved_ips(vec![IpAddress::V4([93, 184, 215, 14])]),
        Ok(vec![IpAddress::V4([93, 184, 215, 14])])
    );
}

#[test]
fn logs_only_the_host() {
    assert_eq!(log_host("https://user:pw@Example.com:8443/secret?q=1"), "example.com");
    assert_eq!(log_host("not a url"), "unknown");
    assert_eq!(log_host("mailto:someone@example.com"), "unknown");
}

#[test]
fn log_host_of_parsed_parts() {
    let with_host = parts(&Url::parse("https://Example.com/x").unwrap());
    assert_eq!(host_for_log(Some(with_host)), "example.com");
    let without_host = parts(&Url::parse("mailto:someone@example.com").unwrap());
    assert_eq!(host_for_log(Some(without_host)), "unknown");
    assert_eq!(host_for_log(None), "unknown");
}
