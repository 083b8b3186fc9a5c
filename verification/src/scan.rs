//! The command-injection scan of a stored request: one probe request per
//! header line, query argument (for `GET`) or form argument (for `POST`)
//! and payload, with the payload put after that line or argument; a probe
//! finds the flaw when its answer shows `root:` (a line of `/etc/passwd`).
use vstd::prelude::*;
use crate::request::{
    body_of, head_and_body, head_lines, head_of, lemma_text_of_lines, parse_request,
    parse_request_spec, read_request, request_of, request_shaped, HttpRequest, RequestModel,
};
use crate::text::{
    chars_of, concat, contains, contains_chars, find_from, free_of, join, join_chars, lemma_free_concat,
    lemma_join_free, lemma_split_char_free, lemma_split_free, lemma_split_join, split, split_chars,
    string_of, views,
};

verus! {

/// The three payloads, each of which makes a shell read `/etc/passwd`.
pub open spec fn payload(k: int) -> Seq<char> {
    if k == 0 {
        ";cat /etc/passwd;"@
    } else if k == 1 {
        "|cat /etc/passwd|"@
    } else {
        "`cat /etc/passwd`"@
    }
}

fn percent_spaces_chars(v: &Vec<char>) -> (r: Vec<char>)
    ensures
        r@ == percent_spaces(v@),
{
    let enc = chars_of("%20");
    let mut r: Vec<char> = Vec::new();
    let mut i: usize = 0;
    assert(v@.skip(0) =~= v@);
    while i < v.len()
        invariant
            i <= v.len(),
            enc@ == "%20"@,
            r@ + percent_spaces(v@.skip(i as int)) == percent_spaces(v@),
        decreases v.len() - i,
    {
        let ghost t = v@.skip(i as int);
        assert(t[0] == v@[i as int]);
        assert(t.skip(1) =~= v@.skip(i + 1));
        let ghost before = r@;
        if v[i] == ' ' {
            r = concat(&r, &enc);
        } else {
            r.push(v[i]);
        }
        assert(r@ + percent_spaces(v@.skip(i + 1)) =~= before + percent_spaces(t));
        i = i + 1;
    }
    assert(percent_spaces(v@.skip(v.len() as int)) =~= Seq::<char>::empty()) by {
        assert(v@.skip(v.len() as int).len() == 0);
    }
    assert(r@ =~= r@ + percent_spaces(v@.skip(v.len() as int)));
    r
}

fn payload_chars(k: usize) -> (r: Vec<char>)
    requires
        k < 3,
    ensures
        r@ == payload(k as int),
{
    if k == 0 {
        chars_of(";cat /etc/passwd;")
    } else if k == 1 {
        chars_of("|cat /etc/passwd|")
    } else {
        chars_of("`cat /etc/passwd`")
    }
}

/// One probe: the request text to send and the parameter that carries
/// the payload.
pub struct Probe {
    pub request: String,
    pub param: String,
}

/// The mathematical value of a probe.
pub struct ProbeModel {
    pub request: Seq<char>,
    pub param: Seq<char>,
}

impl View for Probe {
    type V = ProbeModel;

    open spec fn view(&self) -> ProbeModel {
        ProbeModel { request: self.request@, param: self.param@ }
    }
}

/// The views of a vector of probes.
pub open spec fn probe_views(v: Seq<Probe>) -> Seq<ProbeModel> {
    v.map_values(|p: Probe| p@)
}

/// The probe with payload `k` after header line `curr`.
pub open spec fn header_probe(lines: Seq<Seq<char>>, body: Seq<char>, curr: int, k: int) -> ProbeModel {
    let nl = lines[curr] + payload(k);
    ProbeModel {
        request: join(lines.update(curr, nl), "\r\n"@) + "\r\n\r\n"@ + body,
        param: nl,
    }
}

/// The probes of the header lines from `curr` on, three per line.
pub open spec fn header_probes_from(lines: Seq<Seq<char>>, body: Seq<char>, curr: int) -> Seq<
    ProbeModel,
>
    decreases lines.len() - curr,
{
    if curr < 1 || curr >= lines.len() {
        Seq::empty()
    } else {
        seq![
            header_probe(lines, body, curr, 0),
            header_probe(lines, body, curr, 1),
            header_probe(lines, body, curr, 2),
        ] + header_probes_from(lines, body, curr + 1)
    }
}

/// The text with each space written as `%20`, as a URI must carry it.
pub open spec fn percent_spaces(s: Seq<char>) -> Seq<char>
    decreases s.len(),
{
    if s.len() == 0 {
        Seq::empty()
    } else {
        (if s[0] == ' ' {
            "%20"@
        } else {
            seq![s[0]]
        }) + percent_spaces(s.skip(1))
    }
}

/// The query probe with payload `k` after argument `i`: the request line
/// is rebuilt as `METHOD PATH?ARGS VERSION`, the payload carried whole in
/// the URI with its spaces written as `%20`; the parameter is the argument
/// with the payload.
pub open spec fn query_probe(
    lines: Seq<Seq<char>>,
    body: Seq<char>,
    method: Seq<char>,
    path: Seq<char>,
    version: Seq<char>,
    args: Seq<Seq<char>>,
    i: int,
    k: int,
) -> ProbeModel {
    let sent = args[i] + percent_spaces(payload(k));
    let nl = method + " "@ + path + "?"@ + join(args.update(i, sent), "&"@) + " "@ + version;
    ProbeModel {
        request: join(lines.update(0, nl), "\r\n"@) + "\r\n\r\n"@ + body,
        param: args[i] + payload(k),
    }
}

/// Writing spaces as `%20` leaves no space, and adds no carriage return.
pub proof fn lemma_percent_spaces_free(s: Seq<char>)
    ensures
        free_of(percent_spaces(s), ' '),
        free_of(s, '\r') ==> free_of(percent_spaces(s), '\r'),
    decreases s.len(),
{
    reveal_strlit("%20");
    if s.len() > 0 {
        lemma_percent_spaces_free(s.skip(1));
        let h: Seq<char> = if s[0] == ' ' {
            "%20"@
        } else {
            seq![s[0]]
        };
        assert(free_of(h, ' '));
        lemma_free_concat(h, percent_spaces(s.skip(1)), ' ');
        if free_of(s, '\r') {
            assert(free_of(s.skip(1), '\r')) by {
                assert forall|j: int| 0 <= j < s.skip(1).len() implies s.skip(1)[j] != '\r' by {
                    assert(s.skip(1)[j] == s[j + 1]);
                }
            }
            assert(free_of(h, '\r'));
            lemma_free_concat(h, percent_spaces(s.skip(1)), '\r');
        }
    }
}

/// The URI that the query probe with payload `k` after argument `a` sends.
pub open spec fn probe_uri(path: Seq<char>, args: Seq<Seq<char>>, a: int, k: int) -> Seq<char> {
    path + "?"@ + join(args.update(a, args[a] + percent_spaces(payload(k))), "&"@)
}

/// A query probe, read as a request, is the scanned request with the URI
/// `PATH?A_0&...&(A_a + payload)&...`: the payload whole (its spaces written
/// as `%20`), and method, version, headers and body unchanged. This holds
/// for a stored request whose head lines are not empty and hold no carriage
/// return.
pub proof fn lemma_query_probe_reads(raw: Seq<char>, a: int, k: int)
    requires
        forall|i: int|
            0 <= i < head_lines(raw).len() ==> (#[trigger] head_lines(raw)[i]).len() > 0
                && free_of(head_lines(raw)[i], '\r'),
        head_lines(raw).len() >= 1,
        split(head_lines(raw)[0], " "@).len() >= 3,
        split(split(head_lines(raw)[0], " "@)[1], "?"@).len() > 1,
        0 <= a < split(join(split(split(head_lines(raw)[0], " "@)[1], "?"@).skip(1), ""@), "&"@).len(),
        0 <= k < 3,
    ensures
        ({
            let lines = head_lines(raw);
            let first = split(lines[0], " "@);
            let q = split(first[1], "?"@);
            let args = split(join(q.skip(1), ""@), "&"@);
            let p = query_probe(lines, body_of(raw), first[0], q[0], first[2], args, a, k);
            &&& request_of(p.request) == RequestModel { uri: probe_uri(q[0], args, a, k), ..request_of(raw) }
            &&& request_shaped(raw) ==> request_shaped(p.request)
        }),
{
    reveal_strlit(" ");
    reveal_strlit("?");
    reveal_strlit("&");
    reveal_strlit("");
    reveal_strlit(";cat /etc/passwd;");
    reveal_strlit("|cat /etc/passwd|");
    reveal_strlit("`cat /etc/passwd`");
    let lines = head_lines(raw);
    let body = body_of(raw);
    let first = split(lines[0], " "@);
    let method = first[0];
    let uri = first[1];
    let version = first[2];
    let q = split(uri, "?"@);
    let rest = join(q.skip(1), ""@);
    let args = split(rest, "&"@);
    let sent = args[a] + percent_spaces(payload(k));
    let nargs = args.update(a, sent);
    let u2 = probe_uri(q[0], args, a, k);
    let nl = method + " "@ + q[0] + "?"@ + join(nargs, "&"@) + " "@ + version;
    let l2 = lines.update(0, nl);
    let p = query_probe(lines, body, method, q[0], version, args, a, k);
    // no field of the request line holds a space or a carriage return
    assert(" "@ =~= seq![' ']);
    lemma_split_char_free(lines[0], ' ');
    lemma_split_free(lines[0], " "@, '\r');
    assert(free_of(uri, ' ') && free_of(uri, '\r') && free_of(method, ' ') && free_of(version, ' '));
    assert(free_of(method, '\r') && free_of(version, '\r'));
    lemma_split_free(uri, "?"@, ' ');
    lemma_split_free(uri, "?"@, '\r');
    let qs = q.skip(1);
    assert forall|i: int| 0 <= i < qs.len() implies free_of(#[trigger] qs[i], ' ') && free_of(qs[i], '\r') by {
        assert(qs[i] == q[i + 1]);
    }
    lemma_join_free(qs, ""@, ' ');
    lemma_join_free(qs, ""@, '\r');
    lemma_split_free(rest, "&"@, ' ');
    lemma_split_free(rest, "&"@, '\r');
    let pk = payload(k);
    assert(free_of(pk, '\r'));
    lemma_percent_spaces_free(pk);
    lemma_free_concat(args[a], percent_spaces(pk), ' ');
    lemma_free_concat(args[a], percent_spaces(pk), '\r');
    assert forall|i: int| 0 <= i < nargs.len() implies free_of(#[trigger] nargs[i], ' ') && free_of(nargs[i], '\r') by {
        if i != a {
            assert(nargs[i] == args[i]);
        }
    }
    lemma_join_free(nargs, "&"@, ' ');
    lemma_join_free(nargs, "&"@, '\r');
    lemma_free_concat(q[0], "?"@, ' ');
    lemma_free_concat(q[0] + "?"@, join(nargs, "&"@), ' ');
    lemma_free_concat(q[0], "?"@, '\r');
    lemma_free_concat(q[0] + "?"@, join(nargs, "&"@), '\r');
    assert(u2 == q[0] + "?"@ + join(nargs, "&"@));
    // the new request line is method, URI and version
    let fields = seq![method, u2, version];
    assert forall|i: int| 0 <= i < fields.len() implies free_of(#[trigger] fields[i], ' ') by {
    }
    assert(join(fields, " "@) =~= nl) by {
        let f1 = fields.skip(1);
        assert(f1 =~= seq![u2, version]);
        assert(f1.skip(1) =~= seq![version]);
        assert(join(f1.skip(1), " "@) == version);
        assert(join(f1, " "@) == u2 + " "@ + version);
        assert(join(fields, " "@) == method + " "@ + join(f1, " "@));
    }
    lemma_split_join(fields, " "@);
    lemma_free_concat(method, " "@, '\r');
    lemma_free_concat(method + " "@, u2, '\r');
    lemma_free_concat(method + " "@ + u2, " "@, '\r');
    lemma_free_concat(method + " "@ + u2 + " "@, version, '\r');
    assert(nl =~= method + " "@ + u2 + " "@ + version);
    // the probe's head is the new lines, its body the old one
    assert forall|i: int| 0 <= i < l2.len() implies (#[trigger] l2[i]).len() > 0 && free_of(l2[i], '\r') by {
        if i == 0 {
            assert(nl[method.len() as int] == ' ');
        } else {
            assert(l2[i] == lines[i]);
        }
    }
    lemma_text_of_lines(l2, body);
    assert(p.request == join(l2, "\r\n"@) + "\r\n\r\n"@ + body);
    assert(head_lines(p.request) == l2);
    let got = request_of(p.request);
    let old = request_of(raw);
    assert(got.headers =~= old.headers) by {
        assert forall|i: int| 0 <= i < got.headers.len() implies got.headers[i] == old.headers[i] by {
            assert(l2[i + 1] == lines[i + 1]);
        }
    }
    assert(got =~= RequestModel { uri: u2, ..old });
    if request_shaped(raw) {
        assert forall|i: int| 1 <= i < l2.len() implies (find_from(#[trigger] l2[i], ":"@, 0) is Some) by {
            assert(l2[i] == lines[i]);
        }
    }
}

/// The query probes of the arguments from `i` on, three per argument.
pub open spec fn query_probes_from(
    lines: Seq<Seq<char>>,
    body: Seq<char>,
    method: Seq<char>,
    path: Seq<char>,
    version: Seq<char>,
    args: Seq<Seq<char>>,
    i: int,
) -> Seq<ProbeModel>
    decreases args.len() - i,
{
    if i < 0 || i >= args.len() {
        Seq::empty()
    } else {
        seq![
            query_probe(lines, body, method, path, version, args, i, 0),
            query_probe(lines, body, method, path, version, args, i, 1),
            query_probe(lines, body, method, path, version, args, i, 2),
        ] + query_probes_from(lines, body, method, path, version, args, i + 1)
    }
}

/// The form probe with payload `k` after argument `i` of the body.
pub open spec fn form_probe(head: Seq<char>, args: Seq<Seq<char>>, i: int, k: int) -> ProbeModel {
    let na = args[i] + payload(k);
    ProbeModel { request: head + "\r\n\r\n"@ + join(args.update(i, na), "&"@), param: na }
}

/// The form probes of the arguments from `i` on, three per argument.
pub open spec fn form_probes_from(head: Seq<char>, args: Seq<Seq<char>>, i: int) -> Seq<ProbeModel>
    decreases args.len() - i,
{
    if i < 0 || i >= args.len() {
        Seq::empty()
    } else {
        seq![
            form_probe(head, args, i, 0),
            form_probe(head, args, i, 1),
            form_probe(head, args, i, 2),
        ] + form_probes_from(head, args, i + 1)
    }
}

/// The text in upper case, as `str::to_uppercase` gives it (by the Unicode
/// case tables, which this library does not restate).
pub uninterp spec fn upper_case_of(s: Seq<char>) -> Seq<char>;

/// `str::to_uppercase`. Claimed only that the result is the same for the
/// same text (`upper_case_of`); the Unicode case tables are not restated.
#[verifier::external_body]
fn str_to_uppercase(s: &str) -> (r: String)
    ensures
        r@ == upper_case_of(s@),
{
    s.to_uppercase()
}

/// The probes of the arguments: of the query for a method that is `GET` in
/// upper case (when the URI holds a `?`; the arguments are the text after
/// the first `?`, with the other `?` dropped, cut at `&`), of the body
/// for `POST` (cut at `&`), and none for any other method.
pub open spec fn argument_probes(raw: Seq<char>) -> Seq<ProbeModel> {
    let lines = head_lines(raw);
    let first = split(lines[0], " "@);
    let method = first[0];
    let uri = first[1];
    let version = first[2];
    let up = upper_case_of(method);
    if up == "GET"@ {
        let q = split(uri, "?"@);
        if q.len() > 1 {
            let args = split(join(q.skip(1), ""@), "&"@);
            query_probes_from(lines, body_of(raw), method, q[0], version, args, 0)
        } else {
            Seq::empty()
        }
    } else if up == "POST"@ {
        form_probes_from(head_of(raw), split(body_of(raw), "&"@), 0)
    } else {
        Seq::empty()
    }
}

/// The probes of a stored request: those of its header lines, then those of
/// its arguments. `None` where the request line has fewer than three
/// space-separated fields (the scan stops there).
pub open spec fn scan_probes_spec(raw: Seq<char>) -> Option<Seq<ProbeModel>> {
    let lines = head_lines(raw);
    if split(lines[0], " "@).len() >= 3 {
        Some(header_probes_from(lines, body_of(raw), 1) + argument_probes(raw))
    } else {
        None
    }
}

/// The header probes from line `curr` on are three per line, in line
/// order, one per payload in payload order.
pub proof fn lemma_header_probes_cover(lines: Seq<Seq<char>>, body: Seq<char>, curr: int)
    requires
        1 <= curr <= lines.len(),
    ensures
        header_probes_from(lines, body, curr).len() == 3 * (lines.len() - curr),
        forall|c: int, k: int|
            curr <= c < lines.len() && 0 <= k < 3 ==> header_probes_from(lines, body, curr)[3 * (c
                - curr) + k] == header_probe(lines, body, c, k),
    decreases lines.len() - curr,
{
    if curr < lines.len() {
        lemma_header_probes_cover(lines, body, curr + 1);
        let here = seq![
            header_probe(lines, body, curr, 0),
            header_probe(lines, body, curr, 1),
            header_probe(lines, body, curr, 2),
        ];
        let rest = header_probes_from(lines, body, curr + 1);
        assert forall|c: int, k: int| curr <= c < lines.len() && 0 <= k < 3 implies (here + rest)[3
            * (c - curr) + k] == header_probe(lines, body, c, k) by {
            if c > curr {
                assert((here + rest)[3 * (c - curr) + k] == rest[3 * (c - (curr + 1)) + k]);
            }
        }
    }
}

/// The query probes from argument `i` on are three per argument, in
/// argument order, one per payload in payload order.
pub proof fn lemma_query_probes_cover(
    lines: Seq<Seq<char>>,
    body: Seq<char>,
    method: Seq<char>,
    path: Seq<char>,
    version: Seq<char>,
    args: Seq<Seq<char>>,
    i: int,
)
    requires
        0 <= i <= args.len(),
    ensures
        query_probes_from(lines, body, method, path, version, args, i).len() == 3 * (args.len() - i),
        forall|a: int, k: int|
            i <= a < args.len() && 0 <= k < 3 ==> query_probes_from(
                lines,
                body,
                method,
                path,
                version,
                args,
                i,
            )[3 * (a - i) + k] == query_probe(lines, body, method, path, version, args, a, k),
    decreases args.len() - i,
{
    if i < args.len() {
        lemma_query_probes_cover(lines, body, method, path, version, args, i + 1);
        let here = seq![
            query_probe(lines, body, method, path, version, args, i, 0),
            query_probe(lines, body, method, path, version, args, i, 1),
            query_probe(lines, body, method, path, version, args, i, 2),
        ];
        let rest = query_probes_from(lines, body, method, path, version, args, i + 1);
        assert forall|a: int, k: int| i <= a < args.len() && 0 <= k < 3 implies (here + rest)[3 * (a
            - i) + k] == query_probe(lines, body, method, path, version, args, a, k) by {
            if a > i {
                assert((here + rest)[3 * (a - i) + k] == rest[3 * (a - (i + 1)) + k]);
            }
        }
    }
}

/// The form probes from argument `i` on are three per argument, in
/// argument order, one per payload in payload order.
pub proof fn lemma_form_probes_cover(head: Seq<char>, args: Seq<Seq<char>>, i: int)
    requires
        0 <= i <= args.len(),
    ensures
        form_probes_from(head, args, i).len() == 3 * (args.len() - i),
        forall|a: int, k: int|
            i <= a < args.len() && 0 <= k < 3 ==> form_probes_from(head, args, i)[3 * (a - i) + k]
                == form_probe(head, args, a, k),
    decreases args.len() - i,
{
    if i < args.len() {
        lemma_form_probes_cover(head, args, i + 1);
        let here = seq![form_probe(head, args, i, 0), form_probe(head, args, i, 1), form_probe(head, args, i, 2)];
        let rest = form_probes_from(head, args, i + 1);
        assert forall|a: int, k: int| i <= a < args.len() && 0 <= k < 3 implies (here + rest)[3 * (a
            - i) + k] == form_probe(head, args, a, k) by {
            if a > i {
                assert((here + rest)[3 * (a - i) + k] == rest[3 * (a - (i + 1)) + k]);
            }
        }
    }
}

/// A scan probes every header line with every payload: the probe at
/// `3 (c - 1) + k` appends payload `k` to header line `c`, and the
/// argument probes follow.
pub proof fn lemma_scan_probes_every_header(raw: Seq<char>)
    requires
        scan_probes_spec(raw) is Some,
    ensures
        ({
            let ps = scan_probes_spec(raw)->0;
            let lines = head_lines(raw);
            &&& ps.len() == 3 * (lines.len() - 1) + argument_probes(raw).len()
            &&& forall|c: int, k: int|
                1 <= c < lines.len() && 0 <= k < 3 ==> #[trigger] ps[3 * (c - 1) + k] == header_probe(
                    lines,
                    body_of(raw),
                    c,
                    k,
                )
            &&& forall|c: int, k: int|
                1 <= c < lines.len() && 0 <= k < 3 ==> (#[trigger] ps[3 * (c - 1) + k]).request == join(
                    lines.update(c, lines[c] + payload(k)),
                    "\r\n"@,
                ) + "\r\n\r\n"@ + body_of(raw) && ps[3 * (c - 1) + k].param == lines[c] + payload(k)
            &&& forall|j: int|
                0 <= j < argument_probes(raw).len() ==> ps[3 * (lines.len() - 1) + j]
                    == #[trigger] argument_probes(raw)[j]
        }),
{
    let lines = head_lines(raw);
    reveal_strlit("\r\n");
    crate::text::lemma_join_split(head_of(raw), "\r\n"@);
    lemma_header_probes_cover(lines, body_of(raw), 1);
    let ps = scan_probes_spec(raw)->0;
    assert forall|c: int, k: int| 1 <= c < lines.len() && 0 <= k < 3 implies (#[trigger] ps[3 * (c
        - 1) + k]).request == join(lines.update(c, lines[c] + payload(k)), "\r\n"@) + "\r\n\r\n"@
        + body_of(raw) && ps[3 * (c - 1) + k].param == lines[c] + payload(k) by {
        assert(ps[3 * (c - 1) + k] == header_probe(lines, body_of(raw), c, k));
    }
}

/// The three payloads, in order: `;cat /etc/passwd;`, `|cat /etc/passwd|`
/// and `` `cat /etc/passwd` ``; no two of them are the same.
pub proof fn lemma_payloads()
    ensures
        payload(0) == ";cat /etc/passwd;"@,
        payload(1) == "|cat /etc/passwd|"@,
        payload(2) == "`cat /etc/passwd`"@,
        payload(0) != payload(1),
        payload(0) != payload(2),
        payload(1) != payload(2),
{
    reveal_strlit(";cat /etc/passwd;");
    reveal_strlit("|cat /etc/passwd|");
    reveal_strlit("`cat /etc/passwd`");
    assert(payload(0)[0] != payload(1)[0]);
    assert(payload(0)[0] != payload(2)[0]);
    assert(payload(1)[0] != payload(2)[0]);
}

/// Writing spaces as `%20` works piece by piece: a text without spaces
/// stays as it is, a space becomes `%20`, and the writing of two texts put
/// together is the two writings put together.
pub proof fn lemma_percent_spaces_pieces(a: Seq<char>, b: Seq<char>)
    ensures
        free_of(a, ' ') ==> percent_spaces(a) == a,
        percent_spaces(seq![' ']) == "%20"@,
        percent_spaces(a + b) == percent_spaces(a) + percent_spaces(b),
    decreases a.len(),
{
    reveal_strlit("%20");
    assert(seq![' '].skip(1) =~= Seq::<char>::empty());
    assert(percent_spaces(Seq::<char>::empty()) =~= Seq::<char>::empty());
    assert(percent_spaces(seq![' ']) == "%20"@ + percent_spaces(seq![' '].skip(1)));
    assert("%20"@ + Seq::<char>::empty() =~= "%20"@);
    if a.len() == 0 {
        assert(a + b =~= b);
        assert(percent_spaces(a) =~= Seq::<char>::empty());
    } else {
        lemma_percent_spaces_pieces(a.skip(1), b);
        assert((a + b).skip(1) =~= a.skip(1) + b);
        assert((a + b)[0] == a[0]);
        if free_of(a, ' ') {
            assert(free_of(a.skip(1), ' ')) by {
                assert forall|j: int| 0 <= j < a.skip(1).len() implies a.skip(1)[j] != ' ' by {
                    assert(a.skip(1)[j] == a[j + 1]);
                }
            }
            assert(percent_spaces(a) =~= seq![a[0]] + a.skip(1));
            assert(seq![a[0]] + a.skip(1) =~= a);
        }
        let h: Seq<char> = if a[0] == ' ' {
            "%20"@
        } else {
            seq![a[0]]
        };
        assert(percent_spaces(a + b) == h + percent_spaces(a.skip(1) + b));
        assert(h + (percent_spaces(a.skip(1)) + percent_spaces(b)) =~= (h + percent_spaces(a.skip(1)))
            + percent_spaces(b));
    }
}

/// A scan of a `POST` request probes every form argument of its body with
/// every payload, after the header probes: the probe at
/// `3 (h - 1) + 3 a + k` keeps the head, puts payload `k` after argument `a`
/// of the body (cut at `&`), and names that argument with the payload.
pub proof fn lemma_scan_probes_every_form_argument(raw: Seq<char>)
    requires
        scan_probes_spec(raw) is Some,
        upper_case_of(split(head_lines(raw)[0], " "@)[0]) == "POST"@,
    ensures
        ({
            let ps = scan_probes_spec(raw)->0;
            let h = head_lines(raw).len();
            let args = split(body_of(raw), "&"@);
            &&& ps.len() == 3 * (h - 1) + 3 * args.len()
            &&& forall|a: int, k: int|
                0 <= a < args.len() && 0 <= k < 3 ==> (#[trigger] ps[3 * (h - 1) + 3 * a + k]).request
                    == head_of(raw) + "\r\n\r\n"@ + join(args.update(a, args[a] + payload(k)), "&"@)
                    && ps[3 * (h - 1) + 3 * a + k].param == args[a] + payload(k)
        }),
{
    reveal_strlit("GET");
    reveal_strlit("POST");
    assert("GET"@ != "POST"@) by {
        assert("GET"@.len() != "POST"@.len());
    }
    lemma_scan_probes_every_header(raw);
    let args = split(body_of(raw), "&"@);
    lemma_form_probes_cover(head_of(raw), args, 0);
    let ps = scan_probes_spec(raw)->0;
    let h = head_lines(raw).len();
    assert forall|a: int, k: int| 0 <= a < args.len() && 0 <= k < 3 implies (#[trigger] ps[3 * (h - 1)
        + 3 * a + k]).request == head_of(raw) + "\r\n\r\n"@ + join(
        args.update(a, args[a] + payload(k)),
        "&"@,
    ) && ps[3 * (h - 1) + 3 * a + k].param == args[a] + payload(k) by {
        assert(ps[3 * (h - 1) + (3 * a + k)] == argument_probes(raw)[3 * a + k]);
        assert(argument_probes(raw)[3 * (a - 0) + k] == form_probe(head_of(raw), args, a, k));
    }
}

/// A scan of a `GET` request whose URI holds a `?` probes every query
/// argument with every payload, after the header probes: the probe at
/// `3 (h - 1) + 3 a + k` rebuilds the request line as method, path, `?`,
/// the arguments (cut at `&`) with payload `k` after argument `a` (its
/// spaces written as `%20`) and version, keeps the other lines and the
/// body, and names argument `a` with the payload.
pub proof fn lemma_scan_probes_every_query_argument(raw: Seq<char>)
    requires
        scan_probes_spec(raw) is Some,
        upper_case_of(split(head_lines(raw)[0], " "@)[0]) == "GET"@,
        split(split(head_lines(raw)[0], " "@)[1], "?"@).len() > 1,
    ensures
        ({
            let ps = scan_probes_spec(raw)->0;
            let lines = head_lines(raw);
            let h = lines.len();
            let first = split(lines[0], " "@);
            let q = split(first[1], "?"@);
            let args = split(join(q.skip(1), ""@), "&"@);
            &&& ps.len() == 3 * (h - 1) + 3 * args.len()
            &&& forall|a: int, k: int|
                0 <= a < args.len() && 0 <= k < 3 ==> (#[trigger] ps[3 * (h - 1) + 3 * a + k]).request
                    == join(
                    lines.update(
                        0,
                        first[0] + " "@ + q[0] + "?"@ + join(
                            args.update(a, args[a] + percent_spaces(payload(k))),
                            "&"@,
                        ) + " "@ + first[2],
                    ),
                    "\r\n"@,
                ) + "\r\n\r\n"@ + body_of(raw) && ps[3 * (h - 1) + 3 * a + k].param == args[a]
                    + payload(k)
        }),
{
    lemma_scan_probes_every_header(raw);
    let lines = head_lines(raw);
    let first = split(lines[0], " "@);
    let q = split(first[1], "?"@);
    let args = split(join(q.skip(1), ""@), "&"@);
    lemma_query_probes_cover(lines, body_of(raw), first[0], q[0], first[2], args, 0);
    let ps = scan_probes_spec(raw)->0;
    let h = lines.len();
    assert forall|a: int, k: int| 0 <= a < args.len() && 0 <= k < 3 implies #[trigger] ps[3 * (h - 1) + 3
        * a + k] == query_probe(lines, body_of(raw), first[0], q[0], first[2], args, a, k) by {
        assert(ps[3 * (h - 1) + (3 * a + k)] == argument_probes(raw)[3 * a + k]);
        assert(argument_probes(raw)[3 * (a - 0) + k] == query_probe(
            lines,
            body_of(raw),
            first[0],
            q[0],
            first[2],
            args,
            a,
            k,
        ));
    }
}

fn replaced(v: &Vec<Vec<char>>, i: usize, x: &Vec<char>) -> (r: Vec<Vec<char>>)
    requires
        i < v.len(),
    ensures
        views(r@) == views(v@).update(i as int, x@),
{
    let ghost want = views(v@).update(i as int, x@);
    let mut r: Vec<Vec<char>> = Vec::new();
    let mut k: usize = 0;
    while k < v.len()
        invariant
            k <= v.len(),
            i < v.len(),
            want == views(v@).update(i as int, x@),
            views(r@) == want.take(k as int),
        decreases v.len() - k,
    {
        let ghost before = r@;
        let y = if k == i {
            x.clone()
        } else {
            v[k].clone()
        };
        assert(y@ == want[k as int]);
        r.push(y);
        assert(views(r@) =~= views(before).push(want[k as int]));
        assert(want.take(k + 1) =~= want.take(k as int).push(want[k as int]));
        k = k + 1;
    }
    assert(want.take(v.len() as int) =~= want);
    r
}

fn push_probe(out: &mut Vec<Probe>, request: &Vec<char>, param: &Vec<char>)
    ensures
        probe_views(final(out)@) == probe_views(old(out)@).push(
            ProbeModel { request: request@, param: param@ },
        ),
{
    let p = Probe { request: string_of(request), param: string_of(param) };
    out.push(p);
    assert(probe_views(final(out)@) =~= probe_views(old(out)@).push(p@));
}

fn header_probes(lines: &Vec<Vec<char>>, body: &Vec<char>) -> (r: Vec<Probe>)
    ensures
        probe_views(r@) == header_probes_from(views(lines@), body@, 1),
{
    let crlf = chars_of("\r\n");
    let sep = chars_of("\r\n\r\n");
    let ghost ls = views(lines@);
    let mut out: Vec<Probe> = Vec::new();
    let mut curr: usize = 1;
    if lines.len() == 0 {
        return out;
    }
    while curr < lines.len()
        invariant
            1 <= curr <= lines.len(),
            ls == views(lines@),
            crlf@ == "\r\n"@,
            sep@ == "\r\n\r\n"@,
            probe_views(out@) + header_probes_from(ls, body@, curr as int) == header_probes_from(
                ls,
                body@,
                1,
            ),
        decreases lines.len() - curr,
    {
        let ghost before = probe_views(out@);
        let mut k: usize = 0;
        while k < 3
            invariant
                k <= 3,
                1 <= curr < lines.len(),
                ls == views(lines@),
                crlf@ == "\r\n"@,
                sep@ == "\r\n\r\n"@,
                probe_views(out@) == before + Seq::new(
                    k as nat,
                    |j: int| header_probe(ls, body@, curr as int, j),
                ),
            decreases 3 - k,
        {
            let nl = concat(&lines[curr], &payload_chars(k));
            let ls2 = replaced(lines, curr, &nl);
            let joined = join_chars(&ls2, &crlf);
            let req = concat(&concat(&joined, &sep), body);
            assert(ls[curr as int] == lines@[curr as int]@);
            push_probe(&mut out, &req, &nl);
            assert(Seq::new((k + 1) as nat, |j: int| header_probe(ls, body@, curr as int, j))
                =~= Seq::new(k as nat, |j: int| header_probe(ls, body@, curr as int, j)).push(
                header_probe(ls, body@, curr as int, k as int),
            ));
            k = k + 1;
        }
        assert(Seq::new(3, |j: int| header_probe(ls, body@, curr as int, j)) =~= seq![
            header_probe(ls, body@, curr as int, 0),
            header_probe(ls, body@, curr as int, 1),
            header_probe(ls, body@, curr as int, 2),
        ]);
        curr = curr + 1;
    }
    assert(header_probes_from(ls, body@, lines.len() as int) =~= Seq::<ProbeModel>::empty());
    assert(probe_views(out@) =~= probe_views(out@) + header_probes_from(
        ls,
        body@,
        lines.len() as int,
    ));
    out
}

fn query_probes(
    lines: &Vec<Vec<char>>,
    body: &Vec<char>,
    method: &Vec<char>,
    path: &Vec<char>,
    version: &Vec<char>,
    args: &Vec<Vec<char>>,
) -> (r: Vec<Probe>)
    requires
        lines.len() >= 1,
    ensures
        probe_views(r@) == query_probes_from(
            views(lines@),
            body@,
            method@,
            path@,
            version@,
            views(args@),
            0,
        ),
{
    let crlf = chars_of("\r\n");
    let sep = chars_of("\r\n\r\n");
    let amp = chars_of("&");
    let space = chars_of(" ");
    let qmark = chars_of("?");
    let ghost ls = views(lines@);
    let ghost avs = views(args@);
    let mut out: Vec<Probe> = Vec::new();
    let mut i: usize = 0;
    while i < args.len()
        invariant
            i <= args.len(),
            lines.len() >= 1,
            ls == views(lines@),
            avs == views(args@),
            crlf@ == "\r\n"@,
            sep@ == "\r\n\r\n"@,
            amp@ == "&"@,
            space@ == " "@,
            qmark@ == "?"@,
            probe_views(out@) + query_probes_from(ls, body@, method@, path@, version@, avs, i as int)
                == query_probes_from(ls, body@, method@, path@, version@, avs, 0),
        decreases args.len() - i,
    {
        let ghost before = probe_views(out@);
        let mut k: usize = 0;
        while k < 3
            invariant
                k <= 3,
                i < args.len(),
                lines.len() >= 1,
                ls == views(lines@),
                avs == views(args@),
                crlf@ == "\r\n"@,
                sep@ == "\r\n\r\n"@,
                amp@ == "&"@,
                space@ == " "@,
                qmark@ == "?"@,
                probe_views(out@) == before + Seq::new(
                    k as nat,
                    |j: int| query_probe(ls, body@, method@, path@, version@, avs, i as int, j),
                ),
            decreases 3 - k,
        {
            let pk = payload_chars(k);
            let na = concat(&args[i], &pk);
            let sent = concat(&args[i], &percent_spaces_chars(&pk));
            assert(avs[i as int] == args@[i as int]@);
            let new_args = join_chars(&replaced(args, i, &sent), &amp);
            let mut nl = concat(method, &space);
            nl = concat(&nl, path);
            nl = concat(&nl, &qmark);
            nl = concat(&nl, &new_args);
            nl = concat(&nl, &space);
            nl = concat(&nl, version);
            let joined = join_chars(&replaced(lines, 0, &nl), &crlf);
            let req = concat(&concat(&joined, &sep), body);
            push_probe(&mut out, &req, &na);
            assert(Seq::new(
                (k + 1) as nat,
                |j: int| query_probe(ls, body@, method@, path@, version@, avs, i as int, j),
            ) =~= Seq::new(
                k as nat,
                |j: int| query_probe(ls, body@, method@, path@, version@, avs, i as int, j),
            ).push(query_probe(ls, body@, method@, path@, version@, avs, i as int, k as int)));
            k = k + 1;
        }
        assert(Seq::new(
            3,
            |j: int| query_probe(ls, body@, method@, path@, version@, avs, i as int, j),
        ) =~= seq![
            query_probe(ls, body@, method@, path@, version@, avs, i as int, 0),
            query_probe(ls, body@, method@, path@, version@, avs, i as int, 1),
            query_probe(ls, body@, method@, path@, version@, avs, i as int, 2),
        ]);
        i = i + 1;
    }
    assert(probe_views(out@) =~= probe_views(out@) + query_probes_from(
        ls,
        body@,
        method@,
        path@,
        version@,
        avs,
        args.len() as int,
    ));
    out
}

fn form_probes(head: &Vec<char>, args: &Vec<Vec<char>>) -> (r: Vec<Probe>)
    ensures
        probe_views(r@) == form_probes_from(head@, views(args@), 0),
{
    let sep = chars_of("\r\n\r\n");
    let amp = chars_of("&");
    let ghost avs = views(args@);
    let mut out: Vec<Probe> = Vec::new();
    let mut i: usize = 0;
    while i < args.len()
        invariant
            i <= args.len(),
            avs == views(args@),
            sep@ == "\r\n\r\n"@,
            amp@ == "&"@,
            probe_views(out@) + form_probes_from(head@, avs, i as int) == form_probes_from(
                head@,
                avs,
                0,
            ),
        decreases args.len() - i,
    {
        let ghost before = probe_views(out@);
        let mut k: usize = 0;
        while k < 3
            invariant
                k <= 3,
                i < args.len(),
                avs == views(args@),
                sep@ == "\r\n\r\n"@,
                amp@ == "&"@,
                probe_views(out@) == before + Seq::new(
                    k as nat,
                    |j: int| form_probe(head@, avs, i as int, j),
                ),
            decreases 3 - k,
        {
            let na = concat(&args[i], &payload_chars(k));
            assert(avs[i as int] == args@[i as int]@);
            let new_body = join_chars(&replaced(args, i, &na), &amp);
            let req = concat(&concat(head, &sep), &new_body);
            push_probe(&mut out, &req, &na);
            assert(Seq::new((k + 1) as nat, |j: int| form_probe(head@, avs, i as int, j))
                =~= Seq::new(k as nat, |j: int| form_probe(head@, avs, i as int, j)).push(
                form_probe(head@, avs, i as int, k as int),
            ));
            k = k + 1;
        }
        assert(Seq::new(3, |j: int| form_probe(head@, avs, i as int, j)) =~= seq![
            form_probe(head@, avs, i as int, 0),
            form_probe(head@, avs, i as int, 1),
            form_probe(head@, avs, i as int, 2),
        ]);
        i = i + 1;
    }
    assert(probe_views(out@) =~= probe_views(out@) + form_probes_from(
        head@,
        avs,
        args.len() as int,
    ));
    out
}

/// The probes of a stored request, in the order the scan sends them.
pub fn scan_probes(raw: &str) -> (r: Option<Vec<Probe>>)
    ensures
        r is Some <==> scan_probes_spec(raw@) is Some,
        r matches Some(v) ==> scan_probes_spec(raw@) == Some(probe_views(v@)),
{
    proof {
        reveal_strlit("\r\n");
        reveal_strlit(" ");
        reveal_strlit("?");
        reveal_strlit("&");
    }
    let s = chars_of(raw);
    let (head, body) = head_and_body(&s);
    let lines = split_chars(&head, &chars_of("\r\n"));
    proof {
        crate::text::lemma_join_split(head@, "\r\n"@);
    }
    let first = split_chars(&lines[0], &chars_of(" "));
    if first.len() < 3 {
        return None;
    }
    let mut out = header_probes(&lines, &body);
    let method = first[0].clone();
    let up = chars_of(str_to_uppercase(string_of(&method).as_str()).as_str());
    let mut more: Vec<Probe> = if crate::text::chars_eq(&up, &chars_of("GET")) {
        let q = split_chars(&first[1], &chars_of("?"));
        if q.len() > 1 {
            let mut rest: Vec<Vec<char>> = Vec::new();
            let mut k: usize = 1;
            while k < q.len()
                invariant
                    1 <= k <= q.len(),
                    views(rest@) == views(q@).subrange(1, k as int),
                decreases q.len() - k,
            {
                rest.push(q[k].clone());
                assert(views(q@).subrange(1, k + 1) =~= views(q@).subrange(1, k as int).push(
                    q@[k as int]@,
                ));
                assert(views(rest@) =~= views(q@).subrange(1, k as int).push(q@[k as int]@));
                k = k + 1;
            }
            assert(views(q@).subrange(1, q.len() as int) =~= views(q@).skip(1));
            let empty: Vec<char> = Vec::new();
            proof {
                reveal_strlit("");
                assert(empty@ =~= ""@);
            }
            let joined = join_chars(&rest, &empty);
            let args = split_chars(&joined, &chars_of("&"));
            query_probes(&lines, &body, &method, &q[0], &first[2], &args)
        } else {
            Vec::new()
        }
    } else if crate::text::chars_eq(&up, &chars_of("POST")) {
        let args = split_chars(&body, &chars_of("&"));
        form_probes(&head, &args)
    } else {
        Vec::new()
    };
    let ghost a = probe_views(out@);
    let ghost b = probe_views(more@);
    out.append(&mut more);
    assert(probe_views(out@) =~= a + b);
    Some(out)
}

/// One check of a scan: the probe read as a request, and its parameter.
pub struct ScanCheck {
    pub request: HttpRequest,
    pub param: String,
}

/// The stored request can be scanned: it has probes, and every probe reads
/// as a request (elsewhere the console stops).
pub open spec fn scannable(raw: Seq<char>) -> bool {
    scan_probes_spec(raw) matches Some(ps) && forall|i: int|
        0 <= i < ps.len() ==> (#[trigger] parse_request_spec(ps[i].request)) is Some
}

/// The checks of a scan: every probe of the stored request, in order, read
/// as a request, with its parameter.
pub fn scan_request(raw: &str) -> (r: Vec<ScanCheck>)
    requires
        scannable(raw@),
    ensures
        scan_probes_spec(raw@) matches Some(ps) && r@.len() == ps.len() && forall|i: int|
            0 <= i < ps.len() ==> parse_request_spec(ps[i].request) == Some(
                (#[trigger] r@[i]).request@,
            ) && r@[i].param@ == ps[i].param,
{
    let probes = match scan_probes(raw) {
        Some(p) => p,
        None => {
            assert(false);
            Vec::new()
        },
    };
    let ghost ps = probe_views(probes@);
    let mut out: Vec<ScanCheck> = Vec::new();
    let mut i: usize = 0;
    while i < probes.len()
        invariant
            i <= probes.len(),
            ps == probe_views(probes@),
            ps.len() == probes@.len(),
            scan_probes_spec(raw@) == Some(ps),
            scannable(raw@),
            out@.len() == i,
            forall|j: int|
                0 <= j < i ==> parse_request_spec(ps[j].request) == Some((#[trigger] out@[j]).request@)
                    && out@[j].param@ == ps[j].param,
        decreases probes.len() - i,
    {
        let p = &probes[i];
        assert(ps[i as int] == p@);
        assert(parse_request_spec(ps[i as int].request) is Some);
        let req = parse_request(p.request.as_str());
        out.push(ScanCheck { request: req, param: p.param.clone() });
        i = i + 1;
    }
    out
}

/// The checks of a scan where it can be made: `None` where the request line
/// of the stored request has fewer than three fields or a probe does not
/// read as a request; a request with no probes gives no checks.
pub fn try_scan_request(raw: &str) -> (r: Option<Vec<ScanCheck>>)
    ensures
        r is Some <==> scannable(raw@),
        r matches Some(v) ==> (scan_probes_spec(raw@) matches Some(ps) && v@.len() == ps.len()
            && forall|i: int|
            0 <= i < ps.len() ==> parse_request_spec(ps[i].request) == Some(
                (#[trigger] v@[i]).request@,
            ) && v@[i].param@ == ps[i].param),
{
    let probes = match scan_probes(raw) {
        Some(p) => p,
        None => {
            return None;
        },
    };
    let ghost ps = probe_views(probes@);
    let mut i: usize = 0;
    while i < probes.len()
        invariant
            i <= probes.len(),
            ps == probe_views(probes@),
            ps.len() == probes@.len(),
            scan_probes_spec(raw@) == Some(ps),
            forall|j: int| 0 <= j < i ==> (#[trigger] parse_request_spec(ps[j].request)) is Some,
        decreases probes.len() - i,
    {
        let p = &probes[i];
        assert(ps[i as int] == p@);
        if read_request(p.request.as_str()).is_none() {
            assert(parse_request_spec(ps[i as int].request) is None);
            return None;
        }
        i = i + 1;
    }
    Some(scan_request(raw))
}

/// Whether an answer's body shows the flaw: it holds `root:`.
pub fn is_vulnerable(body: &str) -> (r: bool)
    ensures
        r == contains(body@, "root:"@),
{
    contains_chars(&chars_of(body), &chars_of("root:"))
}

/// The state of a running scan: how many checks there are, how many have
/// finished and how many found the flaw.
pub struct ScanProgress {
    pub total: usize,
    pub done: usize,
    pub found: usize,
}

/// The number of outcomes that found the flaw.
pub open spec fn count_found(outcomes: Seq<Option<bool>>) -> nat
    decreases outcomes.len(),
{
    if outcomes.len() == 0 {
        0
    } else {
        count_found(outcomes.drop_last()) + if outcomes.last() == Some(true) {
            1nat
        } else {
            0nat
        }
    }
}

proof fn lemma_count_found_bound(a: Seq<Option<bool>>)
    ensures
        count_found(a) <= a.len(),
    decreases a.len(),
{
    if a.len() > 0 {
        lemma_count_found_bound(a.drop_last());
    }
}

/// Counting the checks that found the flaw goes outcome by outcome: one
/// for `Some(true)`, none for `Some(false)` or a failed check, and the
/// count of two runs of outcomes put together is the sum of their counts.
pub proof fn lemma_count_found_pieces(a: Seq<Option<bool>>, b: Seq<Option<bool>>, x: Option<bool>)
    ensures
        count_found(seq![x]) == (if x == Some(true) {
            1int
        } else {
            0int
        }),
        count_found(a + b) == count_found(a) + count_found(b),
        count_found(a) <= a.len(),
    decreases b.len(),
{
    assert(seq![x].drop_last() =~= Seq::<Option<bool>>::empty());
    assert(count_found(Seq::<Option<bool>>::empty()) == 0);
    assert(seq![x].last() == x);
    lemma_count_found_bound(a);
    if b.len() == 0 {
        assert(a + b =~= a);
    } else {
        lemma_count_found_pieces(a, b.drop_last(), x);
        assert((a + b).drop_last() =~= a + b.drop_last());
        assert((a + b).last() == b.last());
    }
}

impl ScanProgress {
    /// A scan of `total` checks, none finished.
    pub fn new(total: usize) -> (r: ScanProgress)
        ensures
            r.total == total,
            r.done == 0,
            r.found == 0,
    {
        ScanProgress { total, done: 0, found: 0 }
    }

    /// One check finished: `Some(true)` where it found the flaw,
    /// `Some(false)` where it did not, `None` where it failed.
    pub fn record(&mut self, outcome: Option<bool>)
        requires
            old(self).done < old(self).total,
            old(self).found <= old(self).done,
        ensures
            final(self).total == old(self).total,
            final(self).done == old(self).done + 1,
            final(self).found == old(self).found + if outcome == Some(true) {
                1int
            } else {
                0int
            },
            final(self).found <= final(self).done,
    {
        self.done = self.done + 1;
        if outcome == Some(true) {
            self.found = self.found + 1;
        }
    }

    /// Whether the scan found the flaw at least once.
    pub fn found_any(&self) -> (r: bool)
        ensures
            r == (self.found > 0),
    {
        self.found > 0
    }
}

/// The state after all checks have finished with the given outcomes: every
/// check is counted once, and the flaw as often as a check found it.
pub fn tally(outcomes: &Vec<Option<bool>>) -> (r: ScanProgress)
    ensures
        r.total == outcomes.len(),
        r.done == outcomes.len(),
        r.found == count_found(outcomes@),
{
    let mut p = ScanProgress::new(outcomes.len());
    let mut i: usize = 0;
    while i < outcomes.len()
        invariant
            i <= outcomes.len(),
            p.total == outcomes.len(),
            p.done == i,
            p.found == count_found(outcomes@.take(i as int)),
            p.found <= p.done,
        decreases outcomes.len() - i,
    {
        assert(outcomes@.take(i + 1).drop_last() =~= outcomes@.take(i as int));
        p.record(outcomes[i]);
        i = i + 1;
    }
    assert(outcomes@.take(outcomes.len() as int) =~= outcomes@);
    p
}

} // verus!
