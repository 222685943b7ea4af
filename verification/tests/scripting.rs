use mlua::{Lua, Table};
use wrk::scripting::{
    call_delay, call_done, call_init, call_request, call_response, call_setup, delay_from_hook,
    format_request, request_from_hook, setup_wrk_table,
};

#[test]
fn call_request_returns_default_when_no_hook() {
    let lua = Lua::new();
    setup_wrk_table(&lua, "http", "localhost", 80).unwrap();
    let default = b"GET / HTTP/1.1\r\n\r\n";
    let result = call_request(&lua, default).unwrap();
    assert_eq!(result, default);
}

#[test]
fn call_request_uses_hook_when_defined() {
    let lua = Lua::new();
    setup_wrk_table(&lua, "http", "localhost", 80).unwrap();
    lua.load(r#"function request() return "GET /custom HTTP/1.1\r\n\r\n" end"#)
        .exec()
        .unwrap();
    let result = call_request(&lua, b"").unwrap();
    assert_eq!(result, b"GET /custom HTTP/1.1\r\n\r\n");
}

#[test]
fn call_delay_returns_zero_without_hook() {
    let lua = Lua::new();
    let ms = call_delay(&lua).unwrap();
    assert_eq!(ms, 0);
}

#[test]
fn call_delay_returns_hook_value() {
    let lua = Lua::new();
    lua.load("function delay() return 50 end").exec().unwrap();
    let ms = call_delay(&lua).unwrap();
    assert_eq!(ms, 50);
}

#[test]
fn call_response_invokes_hook() {
    let lua = Lua::new();
    lua.load("_resp_status = 0; function response(s, h, b) _resp_status = s end")
        .exec()
        .unwrap();
    call_response(&lua, 200, &[], b"").unwrap();
    let status: u32 = lua.globals().get("_resp_status").unwrap();
    assert_eq!(status, 200);
}

#[test]
fn sets_wrk_globals() {
    let lua = Lua::new();
    setup_wrk_table(&lua, "http", "localhost", 8080).unwrap();
    let wrk: Table = lua.globals().get("wrk").unwrap();
    assert_eq!(wrk.get::<String>("scheme").unwrap(), "http");
    assert_eq!(wrk.get::<String>("host").unwrap(), "localhost");
    assert_eq!(wrk.get::<u16>("port").unwrap(), 8080);
    assert_eq!(wrk.get::<String>("method").unwrap(), "GET");
    assert_eq!(wrk.get::<String>("path").unwrap(), "/");
}

#[test]
fn format_builds_request_string() {
    let lua = Lua::new();
    setup_wrk_table(&lua, "http", "example.com", 80).unwrap();
    let result: String = lua
        .load(r#"wrk.format("POST", "/api", nil, "data")"#)
        .eval()
        .unwrap();
    assert!(result.contains("POST /api HTTP/1.1"));
    assert!(result.contains("Host: example.com"));
    assert!(result.contains("Content-Length: 4"));
    assert!(result.ends_with("data"));
}

#[test]
fn format_request_exact_text() {
    let headers = vec![("X-A".to_string(), "1".to_string())];
    assert_eq!(
        format_request("GET", "/", "h", &headers, Some("é")),
        "GET / HTTP/1.1\r\nHost: h\r\nX-A: 1\r\nContent-Length: 2\r\n\r\né"
    );
    assert_eq!(format_request("GET", "/", "h", &[], None), "GET / HTTP/1.1\r\nHost: h\r\n\r\n");
}

#[test]
fn format_from_lua_with_headers_table() {
    let lua = Lua::new();
    setup_wrk_table(&lua, "http", "h", 80).unwrap();
    let result: String = lua
        .load(r#"wrk.format("GET", "/x", {["K"] = "v"})"#)
        .eval()
        .unwrap();
    assert_eq!(result, "GET /x HTTP/1.1\r\nHost: h\r\nK: v\r\n\r\n");
}

#[test]
fn hooks_receive_their_arguments() {
    let lua = Lua::new();
    lua.load(
        r#"
        seen_id = -1; seen_args = ""; seen_done = ""; seen_body = ""; seen_header = ""
        function setup(t) seen_id = t.id end
        function init(a) seen_args = a[1] .. "," .. a[2] end
        function response(s, h, b) seen_body = b; seen_header = h["K"] end
        function done(s, l, r) seen_done = s.requests .. "/" .. s.duration .. "/" .. s.bytes end
        "#,
    )
    .exec()
    .unwrap();
    call_setup(&lua, 7).unwrap();
    call_init(&lua, &["a".to_string(), "b".to_string()]).unwrap();
    call_response(&lua, 201, &[("K".to_string(), "v".to_string())], b"ok\xff").unwrap();
    call_done(&lua, 3, 4, 5).unwrap();
    let g = lua.globals();
    assert_eq!(g.get::<u32>("seen_id").unwrap(), 7);
    assert_eq!(g.get::<String>("seen_args").unwrap(), "a,b");
    assert_eq!(g.get::<String>("seen_body").unwrap(), "ok\u{fffd}");
    assert_eq!(g.get::<String>("seen_header").unwrap(), "v");
    assert_eq!(g.get::<String>("seen_done").unwrap(), "3/4/5");
}

#[test]
fn missing_hooks_do_nothing_and_failing_hooks_fail() {
    let lua = Lua::new();
    call_setup(&lua, 1).unwrap();
    call_init(&lua, &[]).unwrap();
    call_done(&lua, 0, 0, 0).unwrap();
    lua.load("function request() error('boom') end").exec().unwrap();
    assert!(call_request(&lua, b"x").is_err());
}

#[test]
fn hook_answers_are_resolved() {
    assert_eq!(request_from_hook(None, b"abc").unwrap(), b"abc".to_vec());
    assert_eq!(request_from_hook(Some(Ok("é".to_string())), b"abc").unwrap(), "é".as_bytes().to_vec());
    assert_eq!(delay_from_hook(None).unwrap(), 0);
    assert_eq!(delay_from_hook(Some(Ok(9))).unwrap(), 9);
}

#[test]
fn format_matches_request_builder_bytes() {
    let headers = vec![("Accept".to_string(), "*/*".to_string()), ("X-K".to_string(), "v".to_string())];
    let formatted = format_request("POST", "/api", "example.com", &headers, Some("héllo"));
    let built = wrk::request::RequestBuilder::new("POST", "/api", "example.com")
        .header("Accept", "*/*")
        .header("X-K", "v")
        .body("héllo".as_bytes().to_vec())
        .build();
    assert_eq!(formatted.into_bytes(), built);
    let bare = format_request("GET", "/", "h", &[], None);
    let bare_built = wrk::request::RequestBuilder::new("GET", "/", "h").build();
    assert_eq!(bare.into_bytes(), bare_built);
}

fn thread_config(script: Option<&str>) -> wrk::config::BenchConfig {
    wrk::config::BenchConfig {
        threads: 1,
        connections: 1,
        duration: std::time::Duration::from_secs(1),
        timeout: std::time::Duration::from_secs(1),
        url: "http://example.com:8080/x".to_string(),
        scheme: "http".to_string(),
        host: "example.com".to_string(),
        port: 8080,
        path: "/x".to_string(),
        method: "GET".to_string(),
        headers: wrk::headers::HeaderMap::new(),
        body: None,
        script_source: script.map(|s| s.to_string()),
        script_args: vec!["a1".to_string()],
        print_latency: false,
    }
}

#[test]
fn start_thread_runs_script_and_hooks() {
    let lua = Lua::new();
    let script = "function setup(t) _id = t.id end function init(args) _arg = args[1] end";
    let req = wrk::connection::start_thread(&lua, &thread_config(Some(script)), 7).unwrap();
    assert_eq!(req, b"GET /x HTTP/1.1\r\nHost: example.com\r\n\r\n".to_vec());
    assert_eq!(lua.globals().get::<u32>("_id").unwrap(), 7);
    assert_eq!(lua.globals().get::<String>("_arg").unwrap(), "a1");
    let wrk_table: Table = lua.globals().get("wrk").unwrap();
    assert_eq!(wrk_table.get::<u16>("port").unwrap(), 8080);

    let plain = Lua::new();
    let req = wrk::connection::start_thread(&plain, &thread_config(None), 0).unwrap();
    assert_eq!(req, b"GET /x HTTP/1.1\r\nHost: example.com\r\n\r\n".to_vec());

    let broken = Lua::new();
    assert!(wrk::connection::start_thread(&broken, &thread_config(Some("this is not lua")), 0).is_err());
    let failing = Lua::new();
    let script = "function init(args) error('no') end";
    assert!(wrk::connection::start_thread(&failing, &thread_config(Some(script)), 0).is_err());
}

#[test]
fn start_thread_builds_the_scripted_request() {
    let script = "wrk.method = \"POST\"\n\
                  wrk.body   = '{\"key\":\"value\"}'\n\
                  wrk.headers[\"Content-Type\"] = \"application/json\"\n\
                  function response(status, headers, body) end";
    let lua = Lua::new();
    let req = wrk::connection::start_thread(&lua, &thread_config(Some(script)), 0).unwrap();
    assert_eq!(
        String::from_utf8(req).unwrap(),
        "POST /x HTTP/1.1\r\nHost: example.com\r\nContent-Type: application/json\r\n\
         Content-Length: 15\r\n\r\n{\"key\":\"value\"}"
    );

    let mut config = thread_config(Some("wrk.headers[\"X-B\"] = \"2\""));
    config.headers.insert("X-A".to_string(), "1".to_string());
    let lua = Lua::new();
    let text = String::from_utf8(wrk::connection::start_thread(&lua, &config, 0).unwrap()).unwrap();
    assert!(text.starts_with("GET /x HTTP/1.1\r\nHost: example.com\r\n"));
    assert!(text.contains("X-A: 1\r\n"));
    assert!(text.contains("X-B: 2\r\n"));
    assert!(text.ends_with("\r\n\r\n"));
    assert!(!text.contains("Content-Length"));
}

#[test]
fn request_from_wrk_sets_headers_in_turn_and_skips_empty_body() {
    let headers = vec![
        ("A".to_string(), "1".to_string()),
        ("B".to_string(), "2".to_string()),
        ("A".to_string(), "3".to_string()),
    ];
    let req = wrk::connection::request_from_wrk("PUT", "/p", "h", &headers, Some(Vec::new()));
    assert_eq!(req, b"PUT /p HTTP/1.1\r\nHost: h\r\nA: 3\r\nB: 2\r\n\r\n".to_vec());
    let req = wrk::connection::request_from_wrk("PUT", "/p", "h", &[], Some(b"xy".to_vec()));
    assert_eq!(req, b"PUT /p HTTP/1.1\r\nHost: h\r\nContent-Length: 2\r\n\r\nxy".to_vec());
}

#[test]
fn wrk_table_and_summary_fields() {
    let fields = wrk::scripting::wrk_text_fields("https", "example.org");
    let expected = vec![
        ("scheme", "https"),
        ("host", "example.org"),
        ("method", "GET"),
        ("path", "/"),
        ("body", ""),
    ];
    assert_eq!(fields.len(), expected.len());
    for (f, e) in fields.iter().zip(expected.iter()) {
        assert_eq!((f.0.as_str(), f.1.as_str()), *e);
    }
    let summary = wrk::scripting::done_fields(7, 8, 9);
    assert_eq!(
        summary,
        vec![("requests".to_string(), 7), ("duration".to_string(), 8), ("bytes".to_string(), 9)]
    );
}

#[test]
fn done_hook_receives_the_summary() {
    let lua = Lua::new();
    lua.load("function done(s, l, r) _sum = s.requests + s.duration + s.bytes end").exec().unwrap();
    call_done(&lua, 1, 20, 300).unwrap();
    assert_eq!(lua.globals().get::<u64>("_sum").unwrap(), 321);
}

#[test]
fn hooks_are_handed_exact_values() {
    let setup = wrk::scripting::setup_fields(42);
    assert_eq!(setup, vec![("id".to_string(), 42)]);
    let args = vec!["a".to_string(), "b".to_string()];
    assert_eq!(
        wrk::scripting::init_fields(&args),
        vec![(1, "a".to_string()), (2, "b".to_string())]
    );
    let headers = vec![("K".to_string(), "v".to_string())];
    let (status, pairs, text) = wrk::scripting::response_arguments(204, &headers, b"ok\xff");
    assert_eq!(status, 204);
    assert_eq!(pairs, headers);
    assert_eq!(text, "ok\u{fffd}");
    assert_eq!(wrk::scripting::wrk_integer_fields(8080), vec![("port".to_string(), 8080)]);
}

#[test]
fn response_hook_gets_status_headers_and_text() {
    let lua = Lua::new();
    lua.load("function response(s, h, b) _s = s; _h = h.K; _b = b end").exec().unwrap();
    let headers = vec![("K".to_string(), "v".to_string())];
    call_response(&lua, 201, &headers, b"body").unwrap();
    assert_eq!(lua.globals().get::<u16>("_s").unwrap(), 201);
    assert_eq!(lua.globals().get::<String>("_h").unwrap(), "v");
    assert_eq!(lua.globals().get::<String>("_b").unwrap(), "body");
}

#[test]
fn request_fields_follow_config() {
    let mut config = thread_config(None);
    config.headers.insert("A".to_string(), "1".to_string());
    config.body = Some(b"xyz".to_vec());
    let (method, path, pairs, body) = wrk::connection::wrk_request_fields(&config);
    assert_eq!((method.as_str(), path.as_str()), ("GET", "/x"));
    assert_eq!(pairs, vec![("A".to_string(), "1".to_string())]);
    assert_eq!(body, Some(b"xyz".to_vec()));
}
