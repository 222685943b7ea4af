use std::time::Duration;
use wrk::args::{
    count_in_range, duration_in_range, parse_count, parse_duration, parse_headers, parse_url,
};

#[test]
fn parse_duration_seconds() {
    assert_eq!(parse_duration("30s"), Duration::from_secs(30));
}

#[test]
fn parse_duration_minutes() {
    assert_eq!(parse_duration("2m"), Duration::from_secs(120));
}

#[test]
fn parse_url_http_with_path() {
    let (scheme, host, port, path) = parse_url("http://example.com/api");
    assert_eq!(scheme, "http");
    assert_eq!(host, "example.com");
    assert_eq!(port, 80);
    assert_eq!(path, "/api");
}

#[test]
fn parse_url_https_custom_port() {
    let (scheme, _host, port, _path) = parse_url("https://example.com:8443/");
    assert_eq!(scheme, "https");
    assert_eq!(port, 8443);
}

#[test]
fn parse_headers_splits_on_colon() {
    let raw = vec!["Accept: application/json".to_string()];
    let h = parse_headers(&raw);
    assert_eq!(h.get("Accept").unwrap(), "application/json");
}

#[test]
fn parse_count_plain_and_si_units() {
    assert_eq!(parse_count("400").unwrap(), 400);
    assert_eq!(parse_count("1k").unwrap(), 1_000);
    assert_eq!(parse_count("2M").unwrap(), 2_000_000);
    assert_eq!(parse_count("1G").unwrap(), 1_000_000_000);
    assert!(parse_count("abc").is_err());
}

#[test]
fn parse_count_error_names_the_input() {
    assert_eq!(parse_count("12x").unwrap_err(), "invalid count: 12x");
    assert_eq!(parse_count("").unwrap_err(), "invalid count: ");
    assert_eq!(parse_count("k").unwrap_err(), "invalid count: k");
    assert_eq!(parse_count("+5K").unwrap(), 5_000);
    assert_eq!(parse_count("-5").unwrap_err(), "invalid count: -5");
}

#[test]
fn count_range_check_catches_overflow() {
    assert!(count_in_range("18446744073709551615"));
    assert!(!count_in_range("18446744073709551615k"));
    assert!(count_in_range("18446744073709551k"));
    assert!(!count_in_range("18446744073709552k"));
    assert!(count_in_range("not a number"));
}

#[test]
fn parse_duration_units_and_fallbacks() {
    assert_eq!(parse_duration("250ms"), Duration::from_millis(250));
    assert_eq!(parse_duration("3h"), Duration::from_secs(3 * 3600));
    assert_eq!(parse_duration("45"), Duration::from_secs(45));
    assert_eq!(parse_duration("xms"), Duration::from_millis(10_000));
    assert_eq!(parse_duration("xs"), Duration::from_secs(10));
    assert_eq!(parse_duration("xm"), Duration::from_secs(60));
    assert_eq!(parse_duration("xh"), Duration::from_secs(3600));
    assert_eq!(parse_duration("bogus"), Duration::from_secs(10));
    assert_eq!(parse_duration(""), Duration::from_secs(10));
    assert_eq!(parse_duration("ms"), Duration::from_millis(10_000));
}

#[test]
fn duration_range_check_catches_overflow() {
    assert!(duration_in_range("18446744073709551615s"));
    assert!(!duration_in_range("18446744073709551615m"));
    assert!(duration_in_range("307445734561825860m"));
    assert!(!duration_in_range("307445734561825861m"));
    assert!(!duration_in_range("5124095576030432h"));
    assert!(duration_in_range("5124095576030431h"));
}

#[test]
fn parse_url_defaults_and_edges() {
    let (scheme, host, port, path) = parse_url("localhost");
    assert_eq!((scheme.as_str(), host.as_str(), port, path.as_str()), ("http", "localhost", 80, "/"));
    let (scheme, host, port, path) = parse_url("https://h:notaport/a/b?q=1");
    assert_eq!((scheme.as_str(), host.as_str(), port, path.as_str()), ("https", "h", 443, "/a/b?q=1"));
    let (_, host, port, _) = parse_url("http://[::1]:8080/");
    assert_eq!((host.as_str(), port), ("[::1]", 8080));
    let (_, host, port, _) = parse_url("http://h:70000/");
    assert_eq!((host.as_str(), port), ("h", 80));
    let (_, host, port, path) = parse_url("http://h:/x:1");
    assert_eq!((host.as_str(), port, path.as_str()), ("h", 80, "/x:1"));
}

#[test]
fn parse_headers_trims_skips_and_overrides() {
    let raw = vec![
        "  X-One :  a b  ".to_string(),
        "no colon here".to_string(),
        "X-Two: v: with colon".to_string(),
        "X-One: second".to_string(),
        ":empty name".to_string(),
    ];
    let h = parse_headers(&raw);
    assert_eq!(h.len(), 3);
    assert_eq!(h.get("X-One").unwrap(), "second");
    assert_eq!(h.get("X-Two").unwrap(), "v: with colon");
    assert_eq!(h.get("").unwrap(), "empty name");
    assert!(h.get("no colon here").is_none());
    let (k, v) = h.entry(0);
    assert_eq!((k.as_str(), v.as_str()), ("X-One", "second"));
}

#[test]
fn parse_headers_trims_unicode_whitespace() {
    let raw = vec!["\u{3000}Name\u{a0}:\u{2003}value\u{85}".to_string()];
    let h = parse_headers(&raw);
    assert_eq!(h.get("Name").unwrap(), "value");
}

#[test]
fn minutes_and_hours_match_seconds() {
    assert_eq!(parse_duration("3m"), parse_duration("180s"));
    assert_eq!(parse_duration("2h"), parse_duration("7200s"));
}

#[test]
fn written_url_reads_back_its_parts() {
    let (scheme, host, port, path) = parse_url("http://api.local:9000/v1/items");
    assert_eq!(
        (scheme.as_str(), host.as_str(), port, path.as_str()),
        ("http", "api.local", 9000, "/v1/items")
    );
}

#[test]
fn later_header_with_same_name_wins() {
    let raw = vec!["A: 1".to_string(), "B: x".to_string(), "A: 2".to_string()];
    let h = parse_headers(&raw);
    assert_eq!(h.len(), 2);
    assert_eq!(h.get("A").unwrap(), "2");
    assert_eq!(h.get("B").unwrap(), "x");
}

#[test]
fn https_and_portless_urls_read_back() {
    let (scheme, host, port, path) = parse_url("https://secure.local:8443/a");
    assert_eq!((scheme.as_str(), host.as_str(), port, path.as_str()), ("https", "secure.local", 8443, "/a"));
    let (scheme, host, port, path) = parse_url("https://secure.local/a/b");
    assert_eq!((scheme.as_str(), host.as_str(), port, path.as_str()), ("https", "secure.local", 443, "/a/b"));
    let (scheme, host, port, path) = parse_url("http://plain.local/");
    assert_eq!((scheme.as_str(), host.as_str(), port, path.as_str()), ("http", "plain.local", 80, "/"));
}
