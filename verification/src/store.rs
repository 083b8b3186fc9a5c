//! Requests kept as one line of fields joined by a long separator:
//! method, scheme, authority, path and query, version and the header text.
use vstd::prelude::*;
use crate::request::{http_method_ok, method_ok, version_name, HttpVersion};
use crate::text::{chars_eq, chars_of, split, split_chars, string_of};

verus! {

/// The separator between the fields of a kept request.
pub open spec fn field_separator() -> Seq<char> {
    "SDFBAJDGFKABDKJFGANWEJFOJ23R32NRID9232OHF340RJ230D23HF230HF349HF2349RF3J49HF3"@
}

/// A character that a URI scheme may hold: an ASCII letter or digit, `+`,
/// `-`, `.` or `~`.
pub open spec fn is_scheme_char(c: char) -> bool {
    ('a' <= c && c <= 'z') || ('A' <= c && c <= 'Z') || ('0' <= c && c <= '9') || c == '+' || c
        == '-' || c == '.' || c == '~'
}

/// Whether `http::uri::Scheme` parses from the text: at most 64 characters,
/// each a scheme character (the empty text too).
pub open spec fn scheme_ok(s: Seq<char>) -> bool {
    s.len() <= 64 && forall|i: int| 0 <= i < s.len() ==> is_scheme_char(#[trigger] s[i])
}

/// Whether `http::uri::Authority` parses from the text (the crate's grammar).
pub uninterp spec fn authority_parses(s: Seq<char>) -> bool;

/// Whether `http::uri::PathAndQuery` parses from the text (the crate's
/// grammar).
pub uninterp spec fn path_and_query_parses(s: Seq<char>) -> bool;

/// `s.parse::<http::uri::Scheme>().is_ok()`. Claimed: the crate accepts
/// `http`, `https`, and any other text of at most 64 bytes whose every byte
/// stands in its table of scheme bytes (`scheme_ok`; a character outside
/// ASCII has bytes the table refuses).
#[verifier::external_body]
fn http_scheme_ok(s: &str) -> (r: bool)
    ensures
        r == scheme_ok(s@),
{
    s.parse::<http::uri::Scheme>().is_ok()
}

/// `s.parse::<http::uri::Authority>().is_ok()`. Claimed only that the
/// answer is the same for the same text (`authority_parses`).
#[verifier::external_body]
fn http_authority_ok(s: &str) -> (r: bool)
    ensures
        r == authority_parses(s@),
{
    s.parse::<http::uri::Authority>().is_ok()
}

/// `s.parse::<http::uri::PathAndQuery>().is_ok()`. Claimed only that the
/// answer is the same for the same text (`path_and_query_parses`).
#[verifier::external_body]
fn http_path_and_query_ok(s: &str) -> (r: bool)
    ensures
        r == path_and_query_parses(s@),
{
    s.parse::<http::uri::PathAndQuery>().is_ok()
}

/// The version a kept request names: `HTTP/0.9`, `HTTP/1.0`, `HTTP/2.1`
/// (for HTTP/2) and `HTTP/3.0`; anything else is HTTP/1.1.
pub open spec fn kept_version_of(t: Seq<char>) -> HttpVersion {
    if t == "HTTP/0.9"@ {
        HttpVersion::Http09
    } else if t == "HTTP/1.0"@ {
        HttpVersion::Http10
    } else if t == "HTTP/2.1"@ {
        HttpVersion::Http2
    } else if t == "HTTP/3.0"@ {
        HttpVersion::Http3
    } else {
        HttpVersion::Http11
    }
}

/// The version field of a kept request reads as the version it names:
/// `HTTP/0.9`, `HTTP/1.0` and `HTTP/3.0` as such, `HTTP/2.1` as HTTP/2,
/// and anything else as HTTP/1.1; so every version but HTTP/2 reads back
/// from the way it is written.
pub proof fn lemma_kept_version(t: Seq<char>)
    ensures
        t == "HTTP/0.9"@ ==> kept_version_of(t) == HttpVersion::Http09,
        t == "HTTP/1.0"@ ==> kept_version_of(t) == HttpVersion::Http10,
        t == "HTTP/2.1"@ ==> kept_version_of(t) == HttpVersion::Http2,
        t == "HTTP/3.0"@ ==> kept_version_of(t) == HttpVersion::Http3,
        (t != "HTTP/0.9"@ && t != "HTTP/1.0"@ && t != "HTTP/2.1"@ && t != "HTTP/3.0"@) ==> kept_version_of(t)
            == HttpVersion::Http11,
        forall|v: HttpVersion| v != HttpVersion::Http2 ==> kept_version_of(#[trigger] version_name(v)) == v,
{
    reveal_strlit("HTTP/0.9");
    reveal_strlit("HTTP/1.0");
    reveal_strlit("HTTP/1.1");
    reveal_strlit("HTTP/2.0");
    reveal_strlit("HTTP/2.1");
    reveal_strlit("HTTP/3.0");
    let names = seq!["HTTP/0.9"@, "HTTP/1.0"@, "HTTP/2.1"@, "HTTP/3.0"@, "HTTP/1.1"@];
    assert forall|i: int, j: int| 0 <= i < j < 5 implies names[i] != names[j] by {
        assert(names[i][5] != names[j][5] || names[i][7] != names[j][7]);
    }
    assert("HTTP/0.9"@ != "HTTP/1.0"@ && "HTTP/0.9"@ != "HTTP/2.1"@ && "HTTP/0.9"@ != "HTTP/3.0"@);
    assert("HTTP/1.0"@ != "HTTP/2.1"@ && "HTTP/1.0"@ != "HTTP/3.0"@ && "HTTP/2.1"@ != "HTTP/3.0"@);
    assert("HTTP/1.1"@ != "HTTP/0.9"@ && "HTTP/1.1"@ != "HTTP/1.0"@ && "HTTP/1.1"@ != "HTTP/2.1"@
        && "HTTP/1.1"@ != "HTTP/3.0"@) by {
        assert(names[4] != names[0] && names[4] != names[1] && names[4] != names[2] && names[4]
            != names[3]);
    }
}

/// The fields of a kept request.
pub struct KeptRequest {
    pub method: String,
    pub scheme: String,
    pub authority: String,
    pub path_and_query: String,
    pub version: HttpVersion,
    pub headers: String,
}

/// The kept request that a text gives: at least six fields, and the
/// `http` crate accepts its scheme, authority, path and query, and method.
pub open spec fn kept_request_ok(raw: Seq<char>) -> bool {
    let f = split(raw, field_separator());
    &&& f.len() >= 6
    &&& scheme_ok(f[1])
    &&& authority_parses(f[2])
    &&& path_and_query_parses(f[3])
    &&& method_ok(f[0])
}

/// Reads a kept request. `None` where it has fewer than six fields or the
/// `http` crate refuses a part of it (the reading stops there).
pub fn load_request(raw: &str) -> (r: Option<KeptRequest>)
    ensures
        r is Some <==> kept_request_ok(raw@),
        r matches Some(k) ==> {
            let f = split(raw@, field_separator());
            &&& k.method@ == f[0]
            &&& k.scheme@ == f[1]
            &&& k.authority@ == f[2]
            &&& k.path_and_query@ == f[3]
            &&& k.version == kept_version_of(f[4])
            &&& k.headers@ == f[5]
        },
{
    let sep = chars_of(
        "SDFBAJDGFKABDKJFGANWEJFOJ23R32NRID9232OHF340RJ230D23HF230HF349HF2349RF3J49HF3",
    );
    proof {
        reveal_strlit(
            "SDFBAJDGFKABDKJFGANWEJFOJ23R32NRID9232OHF340RJ230D23HF230HF349HF2349RF3J49HF3",
        );
    }
    let f = split_chars(&chars_of(raw), &sep);
    if f.len() < 6 {
        return None;
    }
    let method = string_of(&f[0]);
    let scheme = string_of(&f[1]);
    let authority = string_of(&f[2]);
    let path_and_query = string_of(&f[3]);
    if !http_scheme_ok(scheme.as_str()) || !http_authority_ok(authority.as_str())
        || !http_path_and_query_ok(path_and_query.as_str()) || !http_method_ok(method.as_str()) {
        return None;
    }
    let v = &f[4];
    let version = if chars_eq(v, &chars_of("HTTP/0.9")) {
        HttpVersion::Http09
    } else if chars_eq(v, &chars_of("HTTP/1.0")) {
        HttpVersion::Http10
    } else if chars_eq(v, &chars_of("HTTP/2.1")) {
        HttpVersion::Http2
    } else if chars_eq(v, &chars_of("HTTP/3.0")) {
        HttpVersion::Http3
    } else {
        HttpVersion::Http11
    };
    Some(
        KeptRequest {
            method,
            scheme,
            authority,
            path_and_query,
            version,
            headers: string_of(&f[5]),
        },
    )
}

} // verus!
