use rust_proxy::scan::{is_vulnerable, scan_probes, scan_request, tally, try_scan_request, ScanProgress};

fn pairs(raw: &str) -> Vec<(String, String)> {
    scan_probes(raw).unwrap().into_iter().map(|p| (p.request, p.param)).collect()
}

#[test]
fn header_probes_one_per_line_and_payload() {
    let raw = "PUT /x HTTP/1.1\r\nHost: h\r\nA: b\r\n\r\nbody";
    let p = pairs(raw);
    assert_eq!(p.len(), 6);
    assert_eq!(
        p[0],
        (
            "PUT /x HTTP/1.1\r\nHost: h;cat /etc/passwd;\r\nA: b\r\n\r\nbody".to_string(),
            "Host: h;cat /etc/passwd;".to_string()
        )
    );
    assert_eq!(p[1].1, "Host: h|cat /etc/passwd|");
    assert_eq!(p[2].1, "Host: h`cat /etc/passwd`");
    assert_eq!(p[3].0, "PUT /x HTTP/1.1\r\nHost: h\r\nA: b;cat /etc/passwd;\r\n\r\nbody");
}

#[test]
fn query_probes_for_get() {
    let raw = "GET /p?a=1&b=2 HTTP/1.1\r\nHost: h\r\n\r\n";
    let p = pairs(raw);
    assert_eq!(p.len(), 3 + 6);
    assert_eq!(
        p[3],
        (
            "GET /p?a=1;cat%20/etc/passwd;&b=2 HTTP/1.1\r\nHost: h\r\n\r\n".to_string(),
            "a=1;cat /etc/passwd;".to_string()
        )
    );
    assert_eq!(p[8].0, "GET /p?a=1&b=2`cat%20/etc/passwd` HTTP/1.1\r\nHost: h\r\n\r\n");
    assert_eq!(p[8].1, "b=2`cat /etc/passwd`");
}

#[test]
fn query_probes_drop_later_question_marks() {
    let p = pairs("GET /p?a=1?b HTTP/1.1\r\n\r\n");
    assert_eq!(p.len(), 3);
    assert_eq!(p[0].0, "GET /p?a=1b;cat%20/etc/passwd; HTTP/1.1\r\n\r\n");
}

#[test]
fn lower_case_get_is_get() {
    assert_eq!(pairs("get /p?a HTTP/1.1\r\n\r\n").len(), 3);
}

#[test]
fn get_without_query_has_no_argument_probes() {
    assert_eq!(pairs("GET /p HTTP/1.1\r\nHost: h\r\n\r\n").len(), 3);
}

#[test]
fn form_probes_for_post() {
    let raw = "POST /f HTTP/1.1\r\nHost: h\r\n\r\nx=1&y=2";
    let p = pairs(raw);
    assert_eq!(p.len(), 3 + 6);
    assert_eq!(
        p[6],
        (
            "POST /f HTTP/1.1\r\nHost: h\r\n\r\nx=1&y=2;cat /etc/passwd;".to_string(),
            "y=2;cat /etc/passwd;".to_string()
        )
    );
}

#[test]
fn post_with_empty_body_has_one_argument() {
    let p = pairs("POST /f HTTP/1.1\r\n\r\n");
    assert_eq!(p.len(), 3);
    assert_eq!(p[0].0, "POST /f HTTP/1.1\r\n\r\n;cat /etc/passwd;");
}

#[test]
fn short_request_line_has_no_probes() {
    assert!(scan_probes("GET /\r\nHost: h\r\n\r\n").is_none());
}

#[test]
fn scan_request_reads_every_probe() {
    let checks = scan_request("GET /p?a=1 HTTP/1.1\r\nHost: h\r\n\r\n");
    assert_eq!(checks.len(), 6);
    assert_eq!(checks[0].request.headers[0].value, "h;cat /etc/passwd;");
    assert_eq!(checks[0].param, "Host: h;cat /etc/passwd;");
    assert_eq!(checks[3].request.uri, "/p?a=1;cat%20/etc/passwd;");
    assert_eq!(checks[3].param, "a=1;cat /etc/passwd;");
    assert_eq!(checks[3].request.headers[0].value, "h");
    assert_eq!(checks[4].request.uri, "/p?a=1|cat%20/etc/passwd|");
    assert_eq!(checks[5].request.uri, "/p?a=1`cat%20/etc/passwd`");
    assert_eq!(checks[3].request.version, rust_proxy::request::HttpVersion::Http11);
}

#[test]
fn try_scan_request_refuses_unreadable_probe() {
    let raw = "G(T /p HTTP/1.1\r\nHost: h\r\n\r\n";
    assert_eq!(scan_probes(raw).unwrap().len(), 3);
    assert!(try_scan_request(raw).is_none());
    assert_eq!(try_scan_request("GET /p?a HTTP/1.1\r\n\r\n").unwrap().len(), 3);
    assert!(try_scan_request("GET /\r\n\r\n").is_none());
    assert_eq!(try_scan_request("PUT / HTTP/1.1\r\n\r\n").unwrap().len(), 0);
}

#[test]
fn vulnerable_answers_show_root() {
    assert!(is_vulnerable("root:x:0:0:root:/root:/bin/bash"));
    assert!(is_vulnerable("...\nroot:"));
    assert!(!is_vulnerable("root"));
    assert!(!is_vulnerable(""));
}

#[test]
fn tally_counts_found() {
    let t = tally(&vec![Some(true), None, Some(false), Some(true)]);
    assert_eq!((t.total, t.done, t.found), (4, 4, 2));
    let mut p = ScanProgress::new(2);
    p.record(None);
    assert!(!p.found_any());
    p.record(Some(true));
    assert_eq!((p.done, p.found), (2, 1));
    assert!(p.found_any());
}
