use rust_proxy::request::{
    parse_request, read_request, request_is_valid, stored_request_head, stored_request_with_body, version_text,
    Header, HttpRequest, HttpVersion,
};

fn header(name: &str, value: &str) -> Header {
    Header { name: name.to_string(), value: value.to_string() }
}

fn names_values(req: &HttpRequest) -> Vec<(String, String)> {
    req.headers.iter().map(|h| (h.name.clone(), h.value.clone())).collect()
}

#[test]
fn parse_request_reads_all_parts() {
    let raw = "GET http://example.com/a?x=1 HTTP/1.1\r\nHost: example.com\r\nAccept: */*\r\n\r\nbody";
    let req = parse_request(raw);
    assert_eq!(req.method, "GET");
    assert_eq!(req.uri, "http://example.com/a?x=1");
    assert_eq!(req.version, HttpVersion::Http11);
    assert_eq!(
        names_values(&req),
        vec![
            ("Host".to_string(), "example.com".to_string()),
            ("Accept".to_string(), "*/*".to_string())
        ]
    );
    assert_eq!(req.body, "body");
}

#[test]
fn parse_request_versions() {
    let v = |t: &str| parse_request(&format!("GET / {}\r\n\r\n", t)).version;
    assert_eq!(v("HTTP/0.9"), HttpVersion::Http09);
    assert_eq!(v("HTTP/1.0"), HttpVersion::Http10);
    assert_eq!(v("HTTP/1.1"), HttpVersion::Http11);
    assert_eq!(v("HTTP/2.0"), HttpVersion::Http2);
    assert_eq!(v("HTTP/3.0"), HttpVersion::Http3);
    assert_eq!(v("HTTP/9.9"), HttpVersion::Http11);
    assert_eq!(v("HTTP/2.1"), HttpVersion::Http11);
}

#[test]
fn parse_request_value_runs_to_line_end() {
    let req = parse_request("GET / HTTP/1.1\r\nHost: example.com:8080\r\n\r\n");
    assert_eq!(names_values(&req), vec![("Host".to_string(), "example.com:8080".to_string())]);
    let req = parse_request("GET / HTTP/1.1\r\nX:a \t\r\nY:\r\n\r\n");
    assert_eq!(
        names_values(&req),
        vec![("X".to_string(), "a".to_string()), ("Y".to_string(), "".to_string())]
    );
}

#[test]
fn parse_request_body_after_first_empty_line() {
    let req = parse_request("POST / HTTP/1.1\r\n\r\na\r\n\r\nb");
    assert_eq!(req.body, "a\r\n\r\nb");
    assert!(req.headers.is_empty());
}

#[test]
fn parse_request_without_empty_line_has_empty_body() {
    let req = parse_request("GET / HTTP/1.1\r\nHost: x");
    assert_eq!(req.body, "");
    assert_eq!(req.headers.len(), 1);
}

#[test]
fn parse_request_extra_request_line_fields_ignored() {
    let req = parse_request("GET / HTTP/1.0 extra\r\n\r\n");
    assert_eq!(req.version, HttpVersion::Http10);
}

#[test]
fn parse_request_refuses_short_request_line() {
    assert!(read_request("GET /\r\n\r\n").is_none());
    assert!(read_request("").is_none());
}

#[test]
fn parse_request_refuses_header_without_colon() {
    assert!(read_request("GET / HTTP/1.1\r\nHost example.com\r\n\r\n").is_none());
}

#[test]
fn parse_request_refuses_bad_method() {
    assert!(read_request("G(T / HTTP/1.1\r\n\r\n").is_none());
    assert!(read_request(" / HTTP/1.1\r\n\r\n").is_none());
}

#[test]
fn parse_request_accepts_extension_method() {
    let req = parse_request("PURGE / HTTP/1.1\r\n\r\n");
    assert_eq!(req.method, "PURGE");
}

#[test]
fn parse_request_refuses_bad_uri() {
    assert!(read_request("GET http://[::1 HTTP/1.1\r\n\r\n").is_none());
}

#[test]
fn parse_request_refuses_bad_header_name() {
    assert!(read_request("GET / HTTP/1.1\r\nBad Name: x\r\n\r\n").is_none());
    assert!(read_request("GET / HTTP/1.1\r\n: x\r\n\r\n").is_none());
}

#[test]
fn parse_request_refuses_bad_header_value() {
    assert!(read_request("GET / HTTP/1.1\r\nName: a\u{1}b\r\n\r\n").is_none());
}

#[test]
fn parse_request_accepts_non_ascii_value() {
    let req = parse_request("GET / HTTP/1.1\r\nName: \u{44f}\r\n\r\n");
    assert_eq!(req.headers[0].value, "\u{44f}");
}

fn sample() -> HttpRequest {
    HttpRequest {
        method: "POST".to_string(),
        uri: "http://example.com/form".to_string(),
        version: HttpVersion::Http2,
        headers: vec![header("host", "example.com"), header("content-type", "text/plain")],
        body: "a=1&b=2".to_string(),
    }
}

#[test]
fn stored_head_writes_lines() {
    assert_eq!(
        stored_request_head(&sample()),
        "POST http://example.com/form HTTP/2.0\r\nhost: example.com\r\ncontent-type: text/plain\r\n\r\n"
    );
}

#[test]
fn stored_with_body_appends_body() {
    assert_eq!(
        stored_request_with_body(&sample()),
        "POST http://example.com/form HTTP/2.0\r\nhost: example.com\r\ncontent-type: text/plain\r\n\r\na=1&b=2"
    );
}

#[test]
fn stored_head_without_headers() {
    let mut r = sample();
    r.headers.clear();
    assert_eq!(stored_request_head(&r), "POST http://example.com/form HTTP/2.0\r\n\r\n");
}

#[test]
fn stored_request_reads_back() {
    let r = sample();
    let back = parse_request(&stored_request_with_body(&r));
    assert_eq!(back.method, r.method);
    assert_eq!(back.uri, r.uri);
    assert_eq!(back.version, r.version);
    assert_eq!(back.body, r.body);
    assert_eq!(
        names_values(&back),
        vec![
            ("host".to_string(), "example.com".to_string()),
            ("content-type".to_string(), "text/plain".to_string())
        ]
    );
}

#[test]
fn version_text_names() {
    assert_eq!(version_text(HttpVersion::Http09), "HTTP/0.9");
    assert_eq!(version_text(HttpVersion::Http10), "HTTP/1.0");
    assert_eq!(version_text(HttpVersion::Http11), "HTTP/1.1");
    assert_eq!(version_text(HttpVersion::Http2), "HTTP/2.0");
    assert_eq!(version_text(HttpVersion::Http3), "HTTP/3.0");
}

#[test]
fn request_is_valid_checks_http_rules() {
    assert!(request_is_valid(&sample()));
    let mut r = sample();
    r.headers.push(header("bad:name", "x"));
    assert!(!request_is_valid(&r));
    let mut r = sample();
    r.method = "GE T".to_string();
    assert!(!request_is_valid(&r));
}

#[test]
fn read_request_gives_valid_requests() {
    let req = read_request("GET / HTTP/1.1\r\nHost: x\r\n\r\nb").unwrap();
    assert_eq!(req.uri, "/");
    assert_eq!(req.body, "b");
    assert_eq!(names_values(&req), vec![("Host".to_string(), "x".to_string())]);
}

#[test]
fn header_value_with_colon_reads_back() {
    let mut r = sample();
    r.headers = vec![header("host", "example.com:8080")];
    let back = parse_request(&stored_request_with_body(&r));
    assert_eq!(names_values(&back), vec![("host".to_string(), "example.com:8080".to_string())]);
}

#[test]
fn version_named_by_request_line() {
    for (t, v) in [("HTTP/0.9", HttpVersion::Http09), ("HTTP/1.0", HttpVersion::Http10), ("HTTP/2.0", HttpVersion::Http2), ("HTTP/3.0", HttpVersion::Http3), ("HTTP/1.1", HttpVersion::Http11), ("HTTP/2", HttpVersion::Http11), ("junk", HttpVersion::Http11)] {
        assert_eq!(parse_request(&format!("GET / {}\r\nHost: x\r\n\r\nbody", t)).version, v);
        let back = parse_request(&format!("GET / {}\r\n\r\n", version_text(v))).version;
        assert_eq!(back, v);
    }
}
