//! HTTP requests as the proxy stores them in text and reads them back.
//!
//! A stored request is its request line `METHOD URI VERSION`, one line
//! `name: value` per header, an empty line and then the body, the lines
//! ended by `\r\n`. Reading splits the text at the first `\r\n\r\n`, the
//! head into lines at `\r\n`, the request line at spaces and each header
//! line at `:`; the method, URI and header names and values must then be
//! accepted by the `http` crate.
use vstd::prelude::*;
use crate::text::{
    chars_eq, chars_of, concat, find_chars, find_from, free_of, join, join_chars, lemma_find_from_at,
    lemma_find_from_bounds, lemma_join_split, lemma_trim_space_prefix, lemma_join_split_at, lemma_split_join, match_at, split,
    split_at, split_chars, string_of, sub_chars, trim, trim_chars, views,
};

verus! {

/// The HTTP versions that a request can name.
#[derive(Clone, Copy, Debug, PartialEq, Eq, Structural)]
pub enum HttpVersion {
    Http09,
    Http10,
    Http11,
    Http2,
    Http3,
}

/// One header of a request.
#[derive(Clone, Debug)]
pub struct Header {
    pub name: String,
    pub value: String,
}

/// A request: method, URI, version, headers in order, and body.
#[derive(Clone, Debug)]
pub struct HttpRequest {
    pub method: String,
    pub uri: String,
    pub version: HttpVersion,
    pub headers: Vec<Header>,
    pub body: String,
}

/// The mathematical value of a header.
pub struct HeaderModel {
    pub name: Seq<char>,
    pub value: Seq<char>,
}

/// The mathematical value of a request.
pub struct RequestModel {
    pub method: Seq<char>,
    pub uri: Seq<char>,
    pub version: HttpVersion,
    pub headers: Seq<HeaderModel>,
    pub body: Seq<char>,
}

impl View for Header {
    type V = HeaderModel;

    open spec fn view(&self) -> HeaderModel {
        HeaderModel { name: self.name@, value: self.value@ }
    }
}

impl View for HttpRequest {
    type V = RequestModel;

    open spec fn view(&self) -> RequestModel {
        RequestModel {
            method: self.method@,
            uri: self.uri@,
            version: self.version,
            headers: self.headers@.map_values(|h: Header| h@),
            body: self.body@,
        }
    }
}

// ---------------------------------------------------------------------
// What the http crate accepts
// ---------------------------------------------------------------------

/// `c` may stand in a method (the `http` crate's table of method bytes).
pub open spec fn is_method_char(c: char) -> bool {
    ||| ('0' <= c && c <= '9')
    ||| ('A' <= c && c <= 'Z')
    ||| ('a' <= c && c <= 'z')
    ||| c == '!' || c == '*' || c == '+' || c == '-' || c == '.'
    ||| c == '^' || c == '_' || c == '`' || c == '|' || c == '~'
}

/// `http::Method::from_bytes` accepts the method `s`.
pub open spec fn method_ok(s: Seq<char>) -> bool {
    s.len() > 0 && forall|i: int| 0 <= i < s.len() ==> is_method_char(#[trigger] s[i])
}

/// `c` may stand in a header name (the `http` crate's table of header
/// name bytes).
pub open spec fn is_header_name_char(c: char) -> bool {
    ||| ('0' <= c && c <= '9')
    ||| ('A' <= c && c <= 'Z')
    ||| ('a' <= c && c <= 'z')
    ||| c == '!' || c == '"' || c == '#' || c == '$' || c == '%' || c == '&' || c == '\''
    ||| c == '*' || c == '+' || c == '-' || c == '.'
    ||| c == '^' || c == '_' || c == '`' || c == '|' || c == '~'
}

/// `http::header::HeaderName::from_bytes` accepts the name `s`.
pub open spec fn header_name_ok(s: Seq<char>) -> bool {
    &&& 1 <= s.len() <= 65535
    &&& forall|i: int| 0 <= i < s.len() ==> is_header_name_char(#[trigger] s[i])
}

/// `c` may stand in a header value: no control character but tab.
pub open spec fn is_header_value_char(c: char) -> bool {
    (' ' <= c && c != '\u{7f}') || c == '\t'
}

/// `http::header::HeaderValue::from_str` accepts the value `s`.
pub open spec fn header_value_ok(s: Seq<char>) -> bool {
    forall|i: int| 0 <= i < s.len() ==> is_header_value_char(#[trigger] s[i])
}

/// Whether `http::Uri` parses from the text: the crate's URI grammar,
/// which this library does not restate.
pub uninterp spec fn uri_parses(s: Seq<char>) -> bool;

/// `http::Method::from_bytes(s.as_bytes()).is_ok()`. Claimed: the crate
/// accepts exactly a non-empty method whose every byte stands in its table
/// of method bytes (`method_ok`); a character outside ASCII has bytes the
/// table refuses.
#[verifier::external_body]
pub(crate) fn http_method_ok(s: &str) -> (r: bool)
    ensures
        r == method_ok(s@),
{
    http::Method::from_bytes(s.as_bytes()).is_ok()
}

/// `s.parse::<http::Uri>().is_ok()`. Claimed only that the answer is the
/// same for the same text (`uri_parses`); the crate's URI grammar is not
/// restated.
#[verifier::external_body]
fn http_uri_ok(s: &str) -> (r: bool)
    ensures
        r == uri_parses(s@),
{
    s.parse::<http::Uri>().is_ok()
}

/// `http::header::HeaderName::from_bytes(s.as_bytes()).is_ok()`. Claimed:
/// the crate accepts exactly a name of 1 to 65535 bytes whose every byte
/// stands in its table of header name bytes (`header_name_ok`).
#[verifier::external_body]
fn http_header_name_ok(s: &str) -> (r: bool)
    ensures
        r == header_name_ok(s@),
{
    http::header::HeaderName::from_bytes(s.as_bytes()).is_ok()
}

/// `s.parse::<http::header::HeaderValue>().is_ok()`. Claimed: the crate
/// accepts exactly a value without control bytes other than tab
/// (`header_value_ok`); bytes of characters outside ASCII are accepted.
#[verifier::external_body]
fn http_header_value_ok(s: &str) -> (r: bool)
    ensures
        r == header_value_ok(s@),
{
    s.parse::<http::header::HeaderValue>().is_ok()
}

// ---------------------------------------------------------------------
// Reading a request from text
// ---------------------------------------------------------------------

/// The version that a request line names; anything else is HTTP/1.1.
pub open spec fn version_of(t: Seq<char>) -> HttpVersion {
    if t == "HTTP/0.9"@ {
        HttpVersion::Http09
    } else if t == "HTTP/1.0"@ {
        HttpVersion::Http10
    } else if t == "HTTP/2.0"@ {
        HttpVersion::Http2
    } else if t == "HTTP/3.0"@ {
        HttpVersion::Http3
    } else {
        HttpVersion::Http11
    }
}

/// How a version is written (as the `http` crate's `Debug` writes it).
pub open spec fn version_name(v: HttpVersion) -> Seq<char> {
    match v {
        HttpVersion::Http09 => "HTTP/0.9"@,
        HttpVersion::Http10 => "HTTP/1.0"@,
        HttpVersion::Http11 => "HTTP/1.1"@,
        HttpVersion::Http2 => "HTTP/2.0"@,
        HttpVersion::Http3 => "HTTP/3.0"@,
    }
}

/// The text before the first empty line.
pub open spec fn head_of(raw: Seq<char>) -> Seq<char> {
    split(raw, "\r\n\r\n"@)[0]
}

/// The text after the first empty line (empty when there is none).
pub open spec fn body_of(raw: Seq<char>) -> Seq<char> {
    join(split(raw, "\r\n\r\n"@).skip(1), "\r\n\r\n"@)
}

/// The lines of the head.
pub open spec fn head_lines(raw: Seq<char>) -> Seq<Seq<char>> {
    split(head_of(raw), "\r\n"@)
}

/// Where the first colon of a header line stands.
pub open spec fn colon_of(line: Seq<char>) -> int {
    find_from(line, ":"@, 0)->0
}

/// The header that a header line gives: the text before its first colon,
/// and the text after it without white space at either end (the optional
/// white space that HTTP allows around a field value).
pub open spec fn header_of_line(line: Seq<char>) -> HeaderModel {
    HeaderModel {
        name: line.take(colon_of(line)),
        value: trim(line.skip(colon_of(line) + 1)),
    }
}

/// The text has the shape of a request: a request line of at least three
/// space-separated fields, and a colon in every header line.
pub open spec fn request_shaped(raw: Seq<char>) -> bool {
    let lines = head_lines(raw);
    &&& split(lines[0], " "@).len() >= 3
    &&& forall|i: int| 1 <= i < lines.len() ==> (find_from(#[trigger] lines[i], ":"@, 0) is Some)
}

/// The request that a text of that shape describes.
pub open spec fn request_of(raw: Seq<char>) -> RequestModel {
    let lines = head_lines(raw);
    let first = split(lines[0], " "@);
    RequestModel {
        method: first[0],
        uri: first[1],
        version: version_of(first[2]),
        headers: Seq::new((lines.len() - 1) as nat, |i: int| header_of_line(lines[i + 1])),
        body: body_of(raw),
    }
}

/// The `http` crate accepts the method, the URI and every header.
pub open spec fn request_valid(r: RequestModel) -> bool {
    &&& method_ok(r.method)
    &&& uri_parses(r.uri)
    &&& forall|i: int|
        0 <= i < r.headers.len() ==> header_name_ok(#[trigger] r.headers[i].name)
            && header_value_ok(r.headers[i].value)
}

/// The request that a text gives, where it gives one.
pub open spec fn parse_request_spec(raw: Seq<char>) -> Option<RequestModel> {
    if request_shaped(raw) && request_valid(request_of(raw)) {
        Some(request_of(raw))
    } else {
        None
    }
}

fn version_from_chars(t: &Vec<char>) -> (v: HttpVersion)
    ensures
        v == version_of(t@),
{
    if chars_eq(t, &chars_of("HTTP/0.9")) {
        HttpVersion::Http09
    } else if chars_eq(t, &chars_of("HTTP/1.0")) {
        HttpVersion::Http10
    } else if chars_eq(t, &chars_of("HTTP/2.0")) {
        HttpVersion::Http2
    } else if chars_eq(t, &chars_of("HTTP/3.0")) {
        HttpVersion::Http3
    } else {
        HttpVersion::Http11
    }
}

/// How a version is written in a request line.
pub fn version_text(v: HttpVersion) -> (r: String)
    ensures
        r@ == version_name(v),
{
    let s = match v {
        HttpVersion::Http09 => "HTTP/0.9",
        HttpVersion::Http10 => "HTTP/1.0",
        HttpVersion::Http11 => "HTTP/1.1",
        HttpVersion::Http2 => "HTTP/2.0",
        HttpVersion::Http3 => "HTTP/3.0",
    };
    string_of(&chars_of(s))
}

/// Whether the `http` crate accepts the method, the URI and every header
/// of the request.
pub fn request_is_valid(req: &HttpRequest) -> (r: bool)
    ensures
        r == request_valid(req@),
{
    if !http_method_ok(req.method.as_str()) {
        return false;
    }
    if !http_uri_ok(req.uri.as_str()) {
        return false;
    }
    let ghost hs = req@.headers;
    assert(hs.len() == req.headers@.len());
    let mut k: usize = 0;
    while k < req.headers.len()
        invariant
            k <= req.headers.len(),
            hs == req@.headers,
            hs.len() == req.headers@.len(),
            method_ok(req@.method),
            uri_parses(req@.uri),
            forall|i: int|
                0 <= i < k ==> header_name_ok(#[trigger] hs[i].name) && header_value_ok(
                    hs[i].value,
                ),
        decreases req.headers.len() - k,
    {
        let h = &req.headers[k];
        assert(hs[k as int] == h@);
        let name_ok = http_header_name_ok(h.name.as_str());
        let value_ok = http_header_value_ok(h.value.as_str());
        assert(name_ok == header_name_ok(hs[k as int].name));
        assert(value_ok == header_value_ok(hs[k as int].value));
        let ok = name_ok && value_ok;
        if !ok {
            assert(!(header_name_ok(hs[k as int].name) && header_value_ok(hs[k as int].value)));
            return false;
        }
        assert forall|i: int| 0 <= i < k + 1 implies header_name_ok(#[trigger] hs[i].name)
            && header_value_ok(hs[i].value) by {
            if i == k {
                assert(header_name_ok(hs[k as int].name));
            }
        }
        k = k + 1;
    }
    true
}

/// The head and the body of a request text.
pub fn head_and_body(raw: &Vec<char>) -> (r: (Vec<char>, Vec<char>))
    ensures
        r.0@ == head_of(raw@),
        r.1@ == body_of(raw@),
{
    let sep = chars_of("\r\n\r\n");
    proof {
        reveal_strlit("\r\n\r\n");
    }
    let pieces = split_chars(raw, &sep);
    proof {
        lemma_join_split(raw@, sep@);
    }
    let head = pieces[0].clone();
    let mut rest: Vec<Vec<char>> = Vec::new();
    let mut k: usize = 1;
    while k < pieces.len()
        invariant
            1 <= k <= pieces.len(),
            views(rest@) == views(pieces@).subrange(1, k as int),
        decreases pieces.len() - k,
    {
        rest.push(pieces[k].clone());
        assert(views(pieces@).subrange(1, k + 1) =~= views(pieces@).subrange(1, k as int).push(
            pieces@[k as int]@,
        ));
        assert(views(rest@) =~= views(pieces@).subrange(1, k as int).push(pieces@[k as int]@));
        k = k + 1;
    }
    assert(views(pieces@).subrange(1, pieces.len() as int) =~= views(pieces@).skip(1));
    let body = join_chars(&rest, &sep);
    (head, body)
}

fn header_from_line(line: &Vec<char>, colon: &Vec<char>) -> (r: Option<Header>)
    requires
        colon@ == ":"@,
    ensures
        r is Some <==> find_from(line@, ":"@, 0) is Some,
        r matches Some(h) ==> h@ == header_of_line(line@),
{
    match find_chars(line, colon, 0) {
        Some(i) => {
            proof {
                reveal_strlit(":");
                lemma_find_from_bounds(line@, ":"@, 0);
                assert(":"@.len() == 1);
                assert(find_from(line@, ":"@, 0) == Some(i as int));
                assert(match_at(line@, i as int, ":"@));
                assert(i + 1 <= line@.len());
                assert(line@.len() == line.len());
            }
            let name = sub_chars(line, 0, i);
            let value = trim_chars(&sub_chars(line, i + 1, line.len()));
            assert(line@.skip(i + 1) =~= line@.subrange(i + 1, line@.len() as int));
            Some(Header { name: string_of(&name), value: string_of(&value) })
        },
        None => None,
    }
}

/// The request that a text of the shape of a request describes, before
/// the `http` crate is asked about its parts.
fn parse_parts(raw: &str) -> (r: Option<HttpRequest>)
    ensures
        r is Some <==> request_shaped(raw@),
        r matches Some(req) ==> req@ == request_of(raw@),
{
    let s = chars_of(raw);
    let (head, body) = head_and_body(&s);
    let crlf = chars_of("\r\n");
    let space = chars_of(" ");
    let colon = chars_of(":");
    proof {
        reveal_strlit("\r\n");
        reveal_strlit(" ");
        reveal_strlit(":");
    }
    let lines = split_chars(&head, &crlf);
    proof {
        lemma_join_split(head@, crlf@);
    }
    let first = split_chars(&lines[0], &space);
    if first.len() < 3 {
        return None;
    }
    let ghost ls = head_lines(raw@);
    let mut headers: Vec<Header> = Vec::new();
    let mut k: usize = 1;
    while k < lines.len()
        invariant
            1 <= k <= lines.len(),
            views(lines@) == ls,
            ls == head_lines(raw@),
            ls.len() >= 1,
            colon@ == ":"@,
            headers@.len() == k - 1,
            forall|i: int| 1 <= i < k ==> (find_from(#[trigger] ls[i], ":"@, 0) is Some),
            forall|i: int|
                0 <= i < k - 1 ==> #[trigger] headers@[i]@ == header_of_line(ls[i + 1]),
        decreases lines.len() - k,
    {
        assert(lines@[k as int]@ == ls[k as int]);
        match header_from_line(&lines[k], &colon) {
            Some(h) => {
                headers.push(h);
            },
            None => {
                assert(views(lines@).len() == lines@.len());
                assert(find_from(head_lines(raw@)[k as int], ":"@, 0) is None);
                assert(!request_shaped(raw@));
                return None;
            },
        }
        k = k + 1;
    }
    let req = HttpRequest {
        method: string_of(&first[0]),
        uri: string_of(&first[1]),
        version: version_from_chars(&first[2]),
        headers,
        body: string_of(&body),
    };
    assert(req@ =~= request_of(raw@)) by {
        assert(req@.headers =~= request_of(raw@).headers);
    }
    Some(req)
}

/// Reads a request from its text, which must have the shape of a request
/// whose method, URI and headers the `http` crate accepts (elsewhere the
/// console stops).
pub fn parse_request(raw: &str) -> (r: HttpRequest)
    requires
        request_shaped(raw@),
        request_valid(request_of(raw@)),
    ensures
        r@ == request_of(raw@),
{
    match parse_parts(raw) {
        Some(req) => req,
        None => {
            assert(false);
            HttpRequest {
                method: String::new(),
                uri: String::new(),
                version: HttpVersion::Http11,
                headers: Vec::new(),
                body: String::new(),
            }
        },
    }
}

/// Reads a request from its text where it can be read: `None` where the
/// text has not the shape of a request or the `http` crate refuses its
/// method, URI or a header.
pub fn read_request(raw: &str) -> (r: Option<HttpRequest>)
    ensures
        r is Some <==> parse_request_spec(raw@) is Some,
        r matches Some(req) ==> parse_request_spec(raw@) == Some(req@),
{
    match parse_parts(raw) {
        Some(req) => {
            if request_is_valid(&req) {
                Some(parse_request(raw))
            } else {
                None
            }
        },
        None => None,
    }
}

// ---------------------------------------------------------------------
// Writing a request as text
// ---------------------------------------------------------------------

/// A header as its line is written, without the line end.
pub open spec fn header_line(h: HeaderModel) -> Seq<char> {
    h.name + ": "@ + h.value
}

/// The header lines, each ended by `\r\n`.
pub open spec fn headers_text(hs: Seq<HeaderModel>) -> Seq<char>
    decreases hs.len(),
{
    if hs.len() == 0 {
        Seq::empty()
    } else {
        header_line(hs[0]) + "\r\n"@ + headers_text(hs.skip(1))
    }
}

/// The request line, without the line end.
pub open spec fn request_line(r: RequestModel) -> Seq<char> {
    r.method + " "@ + r.uri + " "@ + version_name(r.version)
}

/// The head of a request as it is stored: request line, header lines and
/// the empty line that ends the head.
pub open spec fn stored_head(r: RequestModel) -> Seq<char> {
    request_line(r) + "\r\n"@ + headers_text(r.headers) + "\r\n"@
}

fn header_line_chars(h: &Header) -> (r: Vec<char>)
    ensures
        r@ == header_line(h@),
{
    let a = concat(&chars_of(h.name.as_str()), &chars_of(": "));
    concat(&a, &chars_of(h.value.as_str()))
}

/// The head of a request as it is stored.
pub fn stored_request_head(req: &HttpRequest) -> (r: String)
    ensures
        r@ == stored_head(req@),
{
    let space = chars_of(" ");
    let crlf = chars_of("\r\n");
    let mut line = concat(&chars_of(req.method.as_str()), &space);
    line = concat(&line, &chars_of(req.uri.as_str()));
    line = concat(&line, &space);
    line = concat(&line, &chars_of(version_text(req.version).as_str()));
    line = concat(&line, &crlf);
    let ghost hs = req@.headers;
    let mut hdrs: Vec<char> = Vec::new();
    let mut k: usize = req.headers.len();
    assert(hs.skip(hs.len() as int) =~= Seq::<HeaderModel>::empty());
    while k > 0
        invariant
            k <= req.headers.len(),
            hs == req@.headers,
            crlf@ == "\r\n"@,
            hdrs@ == headers_text(hs.skip(k as int)),
        decreases k,
    {
        k = k - 1;
        let one = concat(&header_line_chars(&req.headers[k]), &crlf);
        hdrs = concat(&one, &hdrs);
        assert(hs.skip(k as int).skip(1) =~= hs.skip(k + 1));
        assert(hs.skip(k as int)[0] == req.headers@[k as int]@);
    }
    assert(hs.skip(0) =~= hs);
    let all = concat(&concat(&line, &hdrs), &crlf);
    string_of(&all)
}

/// The request as it is stored with its body: the head, then the body.
pub fn stored_request_with_body(req: &HttpRequest) -> (r: String)
    ensures
        r@ == stored_head(req@) + req@.body,
{
    let head = chars_of(stored_request_head(req).as_str());
    string_of(&concat(&head, &chars_of(req.body.as_str())))
}

// ---------------------------------------------------------------------
// Reading back what was written
// ---------------------------------------------------------------------

/// A request whose stored text reads back: the `http` crate accepts it,
/// its URI holds no space and no carriage return, and no header value has
/// white space at either end.
pub open spec fn storable(r: RequestModel) -> bool {
    &&& request_valid(r)
    &&& free_of(r.uri, ' ')
    &&& free_of(r.uri, '\r')
    &&& forall|i: int| 0 <= i < r.headers.len() ==> trim(#[trigger] r.headers[i].value) == r.headers[i].value
}

/// The lines of a stored head, without their line ends.
pub open spec fn stored_lines(r: RequestModel) -> Seq<Seq<char>> {
    seq![request_line(r)] + Seq::new(r.headers.len(), |i: int| header_line(r.headers[i]))
}

proof fn lemma_headers_text_join(x: Seq<char>, hs: Seq<HeaderModel>)
    ensures
        x + "\r\n"@ + headers_text(hs) == join(
            seq![x] + Seq::new(hs.len(), |i: int| header_line(hs[i])),
            "\r\n"@,
        ) + "\r\n"@,
    decreases hs.len(),
{
    let crlf = "\r\n"@;
    let lines = seq![x] + Seq::new(hs.len(), |i: int| header_line(hs[i]));
    if hs.len() == 0 {
        assert(lines =~= seq![x]);
        assert(headers_text(hs) =~= Seq::<char>::empty());
        assert(x + crlf + headers_text(hs) =~= x + crlf);
    } else {
        let y = header_line(hs[0]);
        let rest = hs.skip(1);
        lemma_headers_text_join(y, rest);
        let tail = seq![y] + Seq::new(rest.len(), |i: int| header_line(rest[i]));
        assert(lines.skip(1) =~= tail);
        assert(join(lines, crlf) == x + crlf + join(tail, crlf));
        assert(headers_text(hs) == y + crlf + headers_text(rest));
        assert(x + crlf + headers_text(hs) =~= x + crlf + (y + crlf + headers_text(rest)));
    }
}

proof fn lemma_crlf_join_shape(lines: Seq<Seq<char>>)
    requires
        lines.len() >= 1,
        forall|i: int|
            0 <= i < lines.len() ==> (#[trigger] lines[i]).len() > 0 && free_of(lines[i], '\r'),
    ensures
        join(lines, "\r\n"@).len() > 0,
        join(lines, "\r\n"@)[0] != '\r',
        forall|j: int|
            0 <= j < join(lines, "\r\n"@).len() && #[trigger] join(lines, "\r\n"@)[j] == '\r' ==> j + 2
                < join(lines, "\r\n"@).len() && join(lines, "\r\n"@)[j + 2] != '\r',
    decreases lines.len(),
{
    reveal_strlit("\r\n");
    let crlf = "\r\n"@;
    let head = join(lines, crlf);
    let l = lines[0];
    if lines.len() == 1 {
        assert(head == l);
    } else {
        let rest = lines.skip(1);
        assert forall|i: int| 0 <= i < rest.len() implies (#[trigger] rest[i]).len() > 0
            && free_of(rest[i], '\r') by {
            assert(rest[i] == lines[i + 1]);
        }
        lemma_crlf_join_shape(rest);
        let rh = join(rest, crlf);
        assert(head == l + crlf + rh);
        assert(head[0] == l[0]);
        assert forall|j: int| 0 <= j < head.len() && #[trigger] head[j] == '\r' implies j + 2 < head.len()
            && head[j + 2] != '\r' by {
            if j < l.len() {
                assert(head[j] == l[j]);
            } else if j == l.len() {
                assert(head[j + 2] == rh[0]);
            } else if j == l.len() + 1 {
                assert(head[j] == '\n');
            } else {
                assert(head[j] == rh[j - l.len() - 2]);
                assert(head[j + 2] == rh[j - l.len()]);
            }
        }
    }
}

proof fn lemma_head_end(lines: Seq<Seq<char>>, body: Seq<char>)
    requires
        lines.len() >= 1,
        forall|i: int|
            0 <= i < lines.len() ==> (#[trigger] lines[i]).len() > 0 && free_of(lines[i], '\r'),
    ensures
        find_from(join(lines, "\r\n"@) + "\r\n\r\n"@ + body, "\r\n\r\n"@, 0) == Some(
            join(lines, "\r\n"@).len() as int,
        ),
{
    reveal_strlit("\r\n\r\n");
    let sep = "\r\n\r\n"@;
    let head = join(lines, "\r\n"@);
    let s = head + sep + body;
    lemma_crlf_join_shape(lines);
    assert forall|j: int| 0 <= j < head.len() implies !match_at(s, j, sep) by {
        if match_at(s, j, sep) {
            assert(s.subrange(j, j + 4)[0] == s[j]);
            assert(s.subrange(j, j + 4)[2] == s[j + 2]);
            assert(s[j] == head[j]);
            assert(s[j + 2] == head[j + 2]);
        }
    }
    assert(s.subrange(head.len() as int, (head.len() + 4) as int) =~= sep);
    lemma_find_from_at(s, sep, 0, head.len() as int);
}

/// A text made of lines that are not empty and hold no carriage return, an
/// empty line and a body has those lines as its head and that body.
pub proof fn lemma_text_of_lines(lines: Seq<Seq<char>>, body: Seq<char>)
    requires
        lines.len() >= 1,
        forall|i: int|
            0 <= i < lines.len() ==> (#[trigger] lines[i]).len() > 0 && free_of(lines[i], '\r'),
    ensures
        head_of(join(lines, "\r\n"@) + "\r\n\r\n"@ + body) == join(lines, "\r\n"@),
        body_of(join(lines, "\r\n"@) + "\r\n\r\n"@ + body) == body,
        head_lines(join(lines, "\r\n"@) + "\r\n\r\n"@ + body) == lines,
{
    reveal_strlit("\r\n");
    reveal_strlit("\r\n\r\n");
    let crlf = "\r\n"@;
    let sep = "\r\n\r\n"@;
    let head = join(lines, crlf);
    let text = head + sep + body;
    let cut: int = (head.len() + 4) as int;
    lemma_head_end(lines, body);
    assert(text.subrange(0, head.len() as int) =~= head);
    assert(split(text, sep) == seq![head] + split_at(text, sep, cut));
    lemma_join_split_at(text, sep, cut);
    assert(text.subrange(cut, text.len() as int) =~= body);
    assert((seq![head] + split_at(text, sep, cut)).skip(1) =~= split_at(text, sep, cut));
    lemma_split_join(lines, crlf);
}

/// Reading the written version gives it back.
pub proof fn lemma_version_round_trip(v: HttpVersion)
    ensures
        version_of(version_name(v)) == v,
{
    reveal_strlit("HTTP/0.9");
    reveal_strlit("HTTP/1.0");
    reveal_strlit("HTTP/1.1");
    reveal_strlit("HTTP/2.0");
    reveal_strlit("HTTP/3.0");
    let n = version_name(v);
    if n != "HTTP/0.9"@ && v == HttpVersion::Http09 {
        assert(n =~= "HTTP/0.9"@);
    }
    if v != HttpVersion::Http09 {
        assert(n[5] != "HTTP/0.9"@[5] || n[7] != "HTTP/0.9"@[7]);
    }
    if v != HttpVersion::Http10 {
        assert(n[5] != "HTTP/1.0"@[5] || n[7] != "HTTP/1.0"@[7]);
    }
    if v != HttpVersion::Http2 {
        assert(n[5] != "HTTP/2.0"@[5] || n[7] != "HTTP/2.0"@[7]);
    }
    if v != HttpVersion::Http3 {
        assert(n[5] != "HTTP/3.0"@[5] || n[7] != "HTTP/3.0"@[7]);
    }
    if v == HttpVersion::Http10 {
        assert(n =~= "HTTP/1.0"@);
    }
    if v == HttpVersion::Http2 {
        assert(n =~= "HTTP/2.0"@);
    }
    if v == HttpVersion::Http3 {
        assert(n =~= "HTTP/3.0"@);
    }
}

/// A request text reads with the version that its request line names in
/// its third field: `HTTP/0.9`, `HTTP/1.0`, `HTTP/2.0` and `HTTP/3.0` as
/// such, anything else as HTTP/1.1; so the written form of a version reads
/// back as that version. The headers and the body play no part.
pub proof fn lemma_request_line_version(raw: Seq<char>, v: HttpVersion)
    requires
        split(head_lines(raw)[0], " "@).len() >= 3,
    ensures
        request_of(raw).version == version_of(split(head_lines(raw)[0], " "@)[2]),
        split(head_lines(raw)[0], " "@)[2] == version_name(v) ==> request_of(raw).version == v,
        parse_request_spec(raw) matches Some(r) ==> r.version == request_of(raw).version,
{
    lemma_version_round_trip(v);
}

/// A stored request, head and body, reads back as itself.
pub proof fn lemma_stored_request_reads_back(r: RequestModel)
    requires
        storable(r),
    ensures
        parse_request_spec(stored_head(r) + r.body) == Some(r),
{
    reveal_strlit("\r\n");
    reveal_strlit("\r\n\r\n");
    reveal_strlit(" ");
    reveal_strlit(":");
    reveal_strlit(": ");
    reveal_strlit("HTTP/0.9");
    reveal_strlit("HTTP/1.0");
    reveal_strlit("HTTP/1.1");
    reveal_strlit("HTTP/2.0");
    reveal_strlit("HTTP/3.0");
    let crlf = "\r\n"@;
    let sep = "\r\n\r\n"@;
    let lines = stored_lines(r);
    let head = join(lines, crlf);
    let text = stored_head(r) + r.body;
    let cut: int = (head.len() + 4) as int;
    let vn = version_name(r.version);
    // the stored text is the lines, an empty line and the body
    lemma_headers_text_join(request_line(r), r.headers);
    assert(text =~= head + sep + r.body);
    // every line is non-empty and holds no carriage return
    assert(r.method[0] != '\r' && is_method_char(r.method[0]));
    assert forall|i: int| 0 <= i < lines.len() implies (#[trigger] lines[i]).len() > 0
        && free_of(lines[i], '\r') by {
        if i == 0 {
            assert(lines[0] == request_line(r));
            assert forall|j: int| 0 <= j < lines[0].len() implies lines[0][j] != '\r' by {
                let m = r.method;
                let u = r.uri;
                if j < m.len() {
                    assert(lines[0][j] == m[j]);
                    assert(is_method_char(m[j]));
                } else if j == m.len() {
                } else if j < m.len() + 1 + u.len() {
                    assert(lines[0][j] == u[j - m.len() - 1]);
                } else if j == m.len() + 1 + u.len() {
                } else {
                    assert(lines[0][j] == vn[j - m.len() - 2 - u.len()]);
                }
            }
        } else {
            let h = r.headers[i - 1];
            assert(lines[i] == header_line(h));
            assert(header_name_ok(h.name) && header_value_ok(h.value));
            assert forall|j: int| 0 <= j < lines[i].len() implies lines[i][j] != '\r' by {
                if j < h.name.len() {
                    assert(lines[i][j] == h.name[j]);
                    assert(is_header_name_char(h.name[j]));
                } else if j >= h.name.len() + 2 {
                    assert(lines[i][j] == h.value[j - h.name.len() - 2]);
                    assert(is_header_value_char(h.value[j - h.name.len() - 2]));
                }
            }
        }
    }
    // the head is the lines, the body follows the empty line
    lemma_text_of_lines(lines, r.body);
    // the request line splits into method, URI and version
    let fields = seq![r.method, r.uri, vn];
    assert forall|i: int| 0 <= i < fields.len() implies free_of(#[trigger] fields[i], ' ') by {
        if i == 0 {
            assert forall|j: int| 0 <= j < r.method.len() implies r.method[j] != ' ' by {
                assert(is_method_char(r.method[j]));
            }
        }
    }
    assert(join(fields, " "@) =~= request_line(r)) by {
        let f1 = fields.skip(1);
        assert(f1 =~= seq![r.uri, vn]);
        assert(f1.skip(1) =~= seq![vn]);
        assert(join(f1.skip(1), " "@) == vn);
        assert(join(f1, " "@) == r.uri + " "@ + vn);
        assert(join(fields, " "@) == r.method + " "@ + join(f1, " "@));
    }
    lemma_split_join(fields, " "@);
    lemma_version_round_trip(r.version);
    // each header line gives its header back
    assert forall|i: int| 1 <= i < lines.len() implies (find_from(#[trigger] lines[i], ":"@, 0)
        is Some) && header_of_line(lines[i]) == r.headers[i - 1] by {
        let h = r.headers[i - 1];
        let line = lines[i];
        let n: int = h.name.len() as int;
        assert(line == header_line(h));
        assert(header_name_ok(h.name));
        assert forall|j: int| 0 <= j < h.name.len() implies line[j] != ':' by {
            assert(line[j] == h.name[j]);
            assert(is_header_name_char(h.name[j]));
        }
        assert forall|j: int| 0 <= j < h.name.len() implies !match_at(line, j, ":"@) by {
            if match_at(line, j, ":"@) {
                assert(line.subrange(j, j + 1)[0] == line[j]);
            }
        }
        assert(line.subrange(n, n + 1) =~= ":"@);
        lemma_find_from_at(line, ":"@, 0, n);
        assert(line.take(n) =~= h.name);
        assert(line.skip(n + 1) =~= seq![' '] + h.value);
        assert(trim(h.value) == h.value);
        lemma_trim_space_prefix(h.value);
    }
    // so the text has the shape of a request, and it is the request
    let got = request_of(text);
    assert(got.headers =~= r.headers);
    assert(got =~= r);
}

} // verus!
