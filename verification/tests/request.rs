use wrk::config::BenchConfig;
use wrk::connection::build_default_request;
use wrk::headers::HeaderMap;
use wrk::request::RequestBuilder;

#[test]
fn builds_minimal_get_request() {
    let req = RequestBuilder::new("GET", "/", "localhost").build();
    let s = String::from_utf8(req).unwrap();
    assert!(s.starts_with("GET / HTTP/1.1\r\n"));
    assert!(s.contains("Host: localhost\r\n"));
    assert!(s.ends_with("\r\n\r\n"));
}

#[test]
fn includes_custom_headers() {
    let req = RequestBuilder::new("GET", "/api", "example.com")
        .header("Accept", "application/json")
        .build();
    let s = String::from_utf8(req).unwrap();
    assert!(s.contains("Accept: application/json\r\n"));
}

#[test]
fn includes_body_with_content_length() {
    let req = RequestBuilder::new("POST", "/data", "example.com")
        .body(b"hello".to_vec())
        .build();
    let s = String::from_utf8(req).unwrap();
    assert!(s.contains("Content-Length: 5\r\n"));
    assert!(s.ends_with("hello"));
}

#[test]
fn builds_exact_request_bytes() {
    let req = RequestBuilder::new("PUT", "/x", "h:81")
        .header("A", "1")
        .header("B", "2")
        .header("A", "3")
        .body(vec![0u8, 255u8])
        .build();
    let mut expected = b"PUT /x HTTP/1.1\r\nHost: h:81\r\nA: 3\r\nB: 2\r\nContent-Length: 2\r\n\r\n".to_vec();
    expected.extend_from_slice(&[0u8, 255u8]);
    assert_eq!(req, expected);
}

#[test]
fn content_length_counts_bytes_up_to_large_sizes() {
    let req = RequestBuilder::new("POST", "/", "h").body(vec![b'x'; 1234]).build();
    let s = String::from_utf8(req).unwrap();
    assert!(s.contains("Content-Length: 1234\r\n"));
    let empty = RequestBuilder::new("POST", "/", "h").body(Vec::new()).build();
    assert_eq!(empty, b"POST / HTTP/1.1\r\nHost: h\r\nContent-Length: 0\r\n\r\n".to_vec());
}

#[test]
fn default_request_follows_config() {
    let mut headers = HeaderMap::new();
    headers.insert("User-Agent".to_string(), "wrk".to_string());
    headers.insert("Accept".to_string(), "*/*".to_string());
    let config = BenchConfig {
        threads: 2,
        connections: 10,
        duration: std::time::Duration::from_secs(1),
        timeout: std::time::Duration::from_secs(1),
        url: "http://example.com/p".to_string(),
        scheme: "http".to_string(),
        host: "example.com".to_string(),
        port: 80,
        path: "/p".to_string(),
        method: "GET".to_string(),
        headers,
        body: None,
        script_source: None,
        script_args: vec![],
        print_latency: false,
    };
    assert_eq!(
        build_default_request(&config),
        b"GET /p HTTP/1.1\r\nHost: example.com\r\nUser-Agent: wrk\r\nAccept: */*\r\n\r\n".to_vec()
    );
    assert_eq!(config.connections_per_thread(), 5);
    let few = BenchConfig { connections: 1, threads: 4, ..config.clone() };
    assert_eq!(few.connections_per_thread(), 1);
}
