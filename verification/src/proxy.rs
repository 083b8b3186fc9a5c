//! The proxy's decisions: which requests are tunnelled, what a `CONNECT`
//! is answered, and under which file name a request is stored.
use vstd::prelude::*;
use crate::cli::{name_fields, row_of, rfc2822_of_millis, rfc2822_writable};
use crate::numbers::{decimal, i64_text, is_digit, lemma_decimal_chars, lemma_parse_i64_decimal};
use crate::text::{chars_eq, chars_of, concat, free_of, join, lemma_split_join, string_of};

verus! {

/// Where a request goes.
#[derive(Clone, Copy, Debug, PartialEq, Eq, Structural)]
pub enum Route {
    /// `CONNECT`: a TLS tunnel to the named host.
    Tunnel,
    /// Anything else: forwarded as it is.
    Forward,
}

/// The route of a request with the given method: `CONNECT` is tunnelled,
/// every other method forwarded.
pub fn route(method: &str) -> (r: Route)
    ensures
        r == (if method@ == "CONNECT"@ {
            Route::Tunnel
        } else {
            Route::Forward
        }),
{
    if chars_eq(&chars_of(method), &chars_of("CONNECT")) {
        Route::Tunnel
    } else {
        Route::Forward
    }
}

/// The answer to a `CONNECT`: its status code and body.
pub struct ConnectReply {
    pub status: u16,
    pub body: String,
}

/// The answer to a `CONNECT`: `200` with an empty body where the target
/// resolved to a socket address (the tunnel then starts), else `400` with
/// `CONNECT must be to a socket address`.
pub fn connect_reply(resolved: bool) -> (r: ConnectReply)
    ensures
        resolved ==> r.status == 200 && r.body@ == Seq::<char>::empty(),
        !resolved ==> r.status == 400 && r.body@ == "CONNECT must be to a socket address"@,
{
    if resolved {
        ConnectReply { status: 200, body: String::new() }
    } else {
        ConnectReply { status: 400, body: string_of(&chars_of("CONNECT must be to a socket address")) }
    }
}

/// The host a request is filed under: its URI's host, else `localhost`.
pub open spec fn host_or_local(host: Option<&str>) -> Seq<char> {
    match host {
        Some(h) => h@,
        None => "localhost"@,
    }
}

/// The name a request is stored under: id, method, host and the time in
/// milliseconds, separated by `|||`.
pub open spec fn stored_name(id: Seq<char>, method: Seq<char>, host: Seq<char>, ms: int) -> Seq<char> {
    id + "|||"@ + method + "|||"@ + host + "|||"@ + decimal(ms)
}

/// The path a request is stored at.
pub open spec fn stored_path(id: Seq<char>, method: Seq<char>, host: Seq<char>, ms: int) -> Seq<char> {
    "./requests/"@ + stored_name(id, method, host, ms)
}

fn opt_view(h: Option<&str>) -> (r: Vec<char>)
    ensures
        r@ == host_or_local(h),
{
    match h {
        Some(s) => chars_of(s),
        None => chars_of("localhost"),
    }
}

/// The path a request is stored at, given its id, method, host (if its URI
/// names one) and time.
pub fn store_path(id: &str, method: &str, host: Option<&str>, ms: i64) -> (r: String)
    ensures
        r@ == stored_path(
            id@,
            method@,
            host_or_local(host),
            ms as int,
        ),
{
    let sep = chars_of("|||");
    let mut v = concat(&chars_of("./requests/"), &chars_of(id));
    v = concat(&v, &sep);
    v = concat(&v, &chars_of(method));
    v = concat(&v, &sep);
    v = concat(&v, &opt_view(host));
    v = concat(&v, &sep);
    v = concat(&v, &chars_of(i64_text(ms).as_str()));
    let ghost h = host_or_local(host);
    assert(v@ =~= stored_path(id@, method@, h, ms as int));
    string_of(&v)
}

/// `c` is a lower-case hexadecimal digit.
pub open spec fn is_lower_hex(c: char) -> bool {
    ('0' <= c && c <= '9') || ('a' <= c && c <= 'f')
}

/// The text of a random (version 4) UUID: 36 characters, hyphens at 8, 13,
/// 18 and 23, lower-case hexadecimal digits elsewhere, the version digit `4`
/// and a variant digit of `8`, `9`, `a` or `b`.
pub open spec fn uuid_v4_text(s: Seq<char>) -> bool {
    &&& s.len() == 36
    &&& forall|i: int|
        0 <= i < 36 ==> if i == 8 || i == 13 || i == 18 || i == 23 {
            s[i] == '-'
        } else {
            is_lower_hex(#[trigger] s[i])
        }
    &&& s[14] == '4'
    &&& (s[19] == '8' || s[19] == '9' || s[19] == 'a' || s[19] == 'b')
}

/// `uuid::Uuid::new_v4().to_string()`: the hyphenated lower-case text of a
/// random UUID. Which UUID comes back is chance and left unsaid; the call
/// panics where the system gives no random bytes, which no `requires` can
/// rule out.
#[verifier::external_body]
fn new_uuid_text() -> (r: String)
    ensures
        uuid_v4_text(r@),
{
    uuid::Uuid::new_v4().to_string()
}

/// `chrono::Utc::now().timestamp_millis()`: the current time, of which
/// nothing is promised.
#[verifier::external_body]
fn now_millis() -> (r: i64) {
    chrono::Utc::now().timestamp_millis()
}

/// A fresh path for storing a request: a random UUID as its id and the
/// current time.
pub fn new_store_path(method: &str, host: Option<&str>) -> (r: String)
    ensures
        exists|id: Seq<char>, ms: i64|
            uuid_v4_text(id) && r@ == #[trigger] stored_path(
                id,
                method@,
                host_or_local(host),
                ms as int,
            ),
{
    let id = new_uuid_text();
    let ms = now_millis();
    store_path(id.as_str(), method, host, ms)
}

/// The kinds of I/O error that this library makes.
#[derive(Clone, Copy, Debug, PartialEq, Eq, Structural)]
pub enum IoErrorKind {
    /// An error that fits no other kind.
    Other,
}

/// An I/O error: its kind and its message.
#[derive(Debug)]
pub struct IoError {
    pub kind: IoErrorKind,
    pub message: String,
}

/// An I/O error of kind `Other` carrying the message.
pub fn error(err: String) -> (r: IoError)
    ensures
        r.kind == IoErrorKind::Other,
        r.message@ == err@,
{
    IoError { kind: IoErrorKind::Other, message: err }
}

/// A request stored under a name whose id, method and host hold no `|` is
/// listed in the history with that id, method and host and the date of the
/// time it was stored.
pub proof fn lemma_stored_name_listed(id: Seq<char>, method: Seq<char>, host: Seq<char>, ms: i64)
    requires
        free_of(id, '|'),
        free_of(method, '|'),
        free_of(host, '|'),
        rfc2822_writable(ms as int),
    ensures
        name_fields(stored_name(id, method, host, ms as int)).len() == 4,
        row_of(name_fields(stored_name(id, method, host, ms as int))) == Some(
            seq![id, method, host, rfc2822_of_millis(ms as int)],
        ),
{
    reveal_strlit("|||");
    let d = decimal(ms as int);
    let fields = seq![id, method, host, d];
    lemma_decimal_chars(ms as int);
    assert forall|i: int| 0 <= i < fields.len() implies free_of(#[trigger] fields[i], '|') by {
        if i == 3 {
            assert forall|j: int| 0 <= j < d.len() implies d[j] != '|' by {
                assert(is_digit(d[j]) || d[j] == '-');
            }
        }
    }
    let sep = "|||"@;
    assert(join(fields, sep) =~= stored_name(id, method, host, ms as int)) by {
        let f1 = fields.skip(1);
        let f2 = f1.skip(1);
        let f3 = f2.skip(1);
        assert(f3 =~= seq![d]);
        assert(join(f3, sep) == d);
        assert(f2 =~= seq![host, d]);
        assert(join(f2, sep) == host + sep + d);
        assert(f1 =~= seq![method, host, d]);
        assert(join(f1, sep) == method + sep + join(f2, sep));
        assert(join(fields, sep) == id + sep + join(f1, sep));
    }
    lemma_split_join(fields, sep);
    lemma_parse_i64_decimal(ms);
}

} // verus!
