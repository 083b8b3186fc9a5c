use rust_proxy::cli::history_row;
use rust_proxy::proxy::{connect_reply, error, new_store_path, route, store_path, IoErrorKind, Route};
use rust_proxy::store::load_request;
use rust_proxy::request::HttpVersion;

#[test]
fn route_connect_is_tunnelled() {
    assert_eq!(route("CONNECT"), Route::Tunnel);
    assert_eq!(route("GET"), Route::Forward);
    assert_eq!(route("connect"), Route::Forward);
}

#[test]
fn connect_reply_status() {
    let r = connect_reply(true);
    assert_eq!((r.status, r.body.as_str()), (200, ""));
    let r = connect_reply(false);
    assert_eq!((r.status, r.body.as_str()), (400, "CONNECT must be to a socket address"));
}

#[test]
fn store_path_fields() {
    assert_eq!(
        store_path("id", "GET", Some("example.com"), 1700000000000),
        "./requests/id|||GET|||example.com|||1700000000000"
    );
    assert_eq!(store_path("id", "POST", None, -5), "./requests/id|||POST|||localhost|||-5");
}

#[test]
fn new_store_path_has_uuid_and_time() {
    let p = new_store_path("GET", Some("h"));
    let name = p.strip_prefix("./requests/").unwrap();
    let f: Vec<&str> = name.split("|||").collect();
    assert_eq!(f.len(), 4);
    let id = f[0];
    assert_eq!(id.len(), 36);
    for (i, c) in id.chars().enumerate() {
        if [8, 13, 18, 23].contains(&i) {
            assert_eq!(c, '-');
        } else {
            assert!(c.is_ascii_hexdigit() && !c.is_ascii_uppercase());
        }
    }
    assert_eq!(id.chars().nth(14), Some('4'));
    assert!("89ab".contains(id.chars().nth(19).unwrap()));
    assert_eq!((f[1], f[2]), ("GET", "h"));
    assert!(f[3].parse::<i64>().unwrap() > 1_600_000_000_000);
    assert_ne!(new_store_path("GET", None), new_store_path("GET", None));
}

#[test]
fn stored_name_is_listed_with_its_date() {
    let p = store_path("id-1", "GET", Some("example.com"), 1000);
    let name = p.strip_prefix("./requests/").unwrap();
    let fields: Vec<String> = name.split("|||").map(|s| s.to_string()).collect();
    let row = history_row(&fields).unwrap();
    assert_eq!(row, vec!["id-1", "GET", "example.com", "Thu, 1 Jan 1970 00:00:01 +0000"]);
}

#[test]
fn error_is_other_kind() {
    let e = error("broken".to_string());
    assert_eq!(e.kind, IoErrorKind::Other);
    assert_eq!(e.message, "broken");
}

const SEP: &str = "SDFBAJDGFKABDKJFGANWEJFOJ23R32NRID9232OHF340RJ230D23HF230HF349HF2349RF3J49HF3";

#[test]
fn load_kept_request() {
    let raw = ["GET", "http", "example.com", "/a?b=1", "HTTP/2.1", "{\"host\": \"x\"}"].join(SEP);
    let k = load_request(&raw).unwrap();
    assert_eq!(k.method, "GET");
    assert_eq!(k.scheme, "http");
    assert_eq!(k.authority, "example.com");
    assert_eq!(k.path_and_query, "/a?b=1");
    assert_eq!(k.version, HttpVersion::Http2);
    assert_eq!(k.headers, "{\"host\": \"x\"}");
    let raw = ["GET", "http", "example.com", "/", "HTTP/2.0", ""].join(SEP);
    assert_eq!(load_request(&raw).unwrap().version, HttpVersion::Http11);
}

#[test]
fn load_kept_request_refusals() {
    assert!(load_request("GET").is_none());
    let raw = ["GET", "ht tp", "example.com", "/", "HTTP/1.1", ""].join(SEP);
    assert!(load_request(&raw).is_none());
    let raw = ["G T", "http", "example.com", "/", "HTTP/1.1", ""].join(SEP);
    assert!(load_request(&raw).is_none());
    let raw = ["GET", "http", "exa mple.com", "/", "HTTP/1.1", ""].join(SEP);
    assert!(load_request(&raw).is_none());
    let raw = ["GET", "http", "example.com", "no slash", "HTTP/1.1", ""].join(SEP);
    assert!(load_request(&raw).is_none());
}

#[test]
fn load_kept_request_scheme_rule() {
    let raw = ["GET", "git+ssh", "example.com", "/", "HTTP/1.1", ""].join(SEP);
    assert_eq!(load_request(&raw).unwrap().scheme, "git+ssh");
    let raw = ["GET", "a:b", "example.com", "/", "HTTP/1.1", ""].join(SEP);
    assert!(load_request(&raw).is_none());
    let long = "a".repeat(64);
    let raw = ["GET", long.as_str(), "example.com", "/", "HTTP/1.1", ""].join(SEP);
    assert!(load_request(&raw).is_some());
    let long = "a".repeat(65);
    let raw = ["GET", long.as_str(), "example.com", "/", "HTTP/1.1", ""].join(SEP);
    assert!(load_request(&raw).is_none());
    let raw = ["GET", "h\u{e9}", "example.com", "/", "HTTP/1.1", ""].join(SEP);
    assert!(load_request(&raw).is_none());
}
