use wrk::response::parse_response;

#[test]
fn parses_simple_200_response() {
    let raw = b"HTTP/1.1 200 OK\r\nContent-Length: 5\r\n\r\nhello";
    let r = parse_response(raw).unwrap();
    assert_eq!(r.status, 200);
    assert_eq!(r.content_length, Some(5));
    assert!(r.keep_alive);
}

#[test]
fn detects_connection_close() {
    let raw = b"HTTP/1.1 200 OK\r\nConnection: close\r\nContent-Length: 0\r\n\r\n";
    let r = parse_response(raw).unwrap();
    assert!(!r.keep_alive);
}

#[test]
fn returns_none_for_incomplete_response() {
    let raw = b"HTTP/1.1 200 OK\r\n";
    assert!(parse_response(raw).is_none());
}

#[test]
fn header_names_and_close_ignore_case() {
    let raw = b"HTTP/1.1 404 Not Found\r\nCONTENT-length: 12\r\nconnection: ClOsE\r\nX: \xff\r\n\r\n";
    let r = parse_response(raw).unwrap();
    assert_eq!(r.status, 404);
    assert_eq!(r.content_length, Some(12));
    assert!(!r.keep_alive);
    assert_eq!(r.header_len, raw.len());
    assert_eq!(r.headers[2], ("X".to_string(), String::new()));
    assert_eq!(r.headers[0], ("CONTENT-length".to_string(), "12".to_string()));
}

#[test]
fn last_content_length_wins_and_bad_one_is_none() {
    let raw = b"HTTP/1.1 200 OK\r\nContent-Length: 3\r\nContent-Length: x\r\n\r\n";
    assert_eq!(parse_response(raw).unwrap().content_length, None);
    let raw = b"HTTP/1.1 200 OK\r\nContent-Length: x\r\nContent-Length: 7\r\n\r\n";
    assert_eq!(parse_response(raw).unwrap().content_length, Some(7));
}

#[test]
fn malformed_head_is_none() {
    assert!(parse_response(b"NOT HTTP\r\n\r\n").is_none());
    assert!(parse_response(b"").is_none());
}
