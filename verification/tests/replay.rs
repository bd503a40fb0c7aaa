use hermes::http::build_head;
use hermes::replay::{announce, diff, parse_head, parse_response, plan, report, report_lines};
use hermes::transaction::{RequestData, ResponseData, Timestamp, Transaction, TransactionId};

fn headers(list: &[(&str, &str)]) -> Vec<(String, String)> {
    list.iter().map(|(n, v)| (n.to_string(), v.to_string())).collect()
}

fn recorded(url: &str) -> Transaction {
    let request = RequestData {
        method: "PUT".to_string(),
        url: url.to_string(),
        headers: headers(&[("connection", "keep-alive"), ("Keep-Alive", "1"), ("A", "b")]),
        body: b"body".to_vec(),
    };
    let id = TransactionId { bytes: [0x11; 16] };
    Transaction::begin(id, Timestamp { seconds: 0, nanos: 0 }, request)
}

#[test]
fn a_request_is_planned() {
    let p = plan(&recorded("https://example.com:8443/a?b")).unwrap();
    assert!(p.secure);
    assert_eq!((p.host.as_str(), p.port), ("example.com", 8443));
    assert_eq!(
        p.head,
        b"PUT /a?b HTTP/1.1\r\nKeep-Alive: 1\r\nA: b\r\nConnection: close\r\n\r\n"
    );
    assert_eq!(p.body, b"body");
    let p = plan(&recorded("http://example.com")).unwrap();
    assert!(!p.secure);
    assert_eq!((p.host.as_str(), p.port), ("example.com", 80));
    assert!(p.head.starts_with(b"PUT / HTTP/1.1\r\n"));
    let p = plan(&recorded("https://h/")).unwrap();
    assert_eq!((p.host.as_str(), p.port), ("h", 443));
    assert_eq!(plan(&recorded("ftp://x/")).unwrap_err(), "Cannot parse URL: ftp://x/");
}

#[test]
fn a_response_is_read() {
    let r = parse_response(b"HTTP/1.1 404 Not Found\r\nA:  b \r\nnone\r\nC:d:e\r\n\r\n\x00\xffx\r\n\r\n");
    assert_eq!(r.status, 404);
    assert_eq!(r.headers, headers(&[("A", "b"), ("C", "d:e")]));
    assert_eq!(r.body, b"\x00\xffx\r\n\r\n");
    let r = parse_response(b"");
    assert_eq!((r.status, r.headers.len(), r.body.len()), (0, 0, 0));
    let r = parse_response(b"HTTP/1.1 200 OK\r\nA: b");
    assert_eq!(r.status, 200);
    assert_eq!(r.headers, headers(&[("A", "b")]));
    assert!(r.body.is_empty());
    let r = parse_response(b"\r\n\r\n\r\n\r\n");
    assert_eq!(r.status, 0);
    assert_eq!(r.body, b"\r\n\r\n");
}

#[test]
fn a_head_that_is_not_utf8_is_read_with_replacements() {
    let r = parse_response(b"HTTP/1.1 200 OK\r\nA: x\xffy\r\n\r\nz");
    assert_eq!(r.headers, headers(&[("A", "x\u{fffd}y")]));
    assert_eq!(parse_head("HTTP/1.1 7\nB: c").0, 7);
    assert_eq!(parse_head("").1.len(), 0);
}

#[test]
fn a_written_response_reads_back() {
    let list = headers(&[("Größe", "1 2"), ("B", ""), ("C", "é: ü")]);
    let mut raw = build_head("HTTP/1.1 200 Größe", &list);
    raw.extend_from_slice(b"\r\n\r\nbody");
    let r = parse_response(&raw);
    assert_eq!(r.status, 200);
    assert_eq!(r.headers, list);
    assert_eq!(r.body, b"\r\n\r\nbody");
}

#[test]
fn bodies_are_compared_line_by_line() {
    assert_eq!(diff("a\nb", "a\nb"), vec!["  (responses are identical)".to_string()]);
    assert_eq!(diff("", ""), vec!["  (responses are identical)".to_string()]);
    assert_eq!(
        diff("a\nb\nc\n", "a\nx\nc\nd\ne"),
        vec!["    a", "  - b", "  + x", "    c", "  + d", "  + e"]
    );
    assert_eq!(diff("a\nb", "a"), vec!["    a", "  - b"]);
    assert_eq!(diff("a\n", "a"), vec!["    a"]);
    assert_eq!(diff("", "a"), vec!["  + a"]);
    assert!(diff("\n", "").len() == 1);
}

#[test]
fn a_replay_is_announced() {
    assert_eq!(
        announce(&recorded("http://a/")),
        vec![
            "━━━ Replaying transaction 11111111-1111-1111-1111-111111111111 ━━━",
            "  PUT http://a/",
            ""
        ]
    );
}

#[test]
fn a_replay_is_reported() {
    let mut original = recorded("http://a/");
    let response = ResponseData {
        status: 200,
        headers: headers(&[("A", "b")]),
        body: b"new\xff".to_vec(),
    };
    let first = vec![
        "━━━ New Response ━━━",
        "  Status  : 200",
        "  Duration: 15 ms",
        "  Headers :",
        "    A: b",
        "  Body (4 bytes):",
        "new\u{fffd}",
    ];
    assert_eq!(report(&original, &response, 15, false), first);
    let mut lines = first.clone();
    lines.push("(original response not recorded — no diff available)");
    assert_eq!(report(&original, &response, 15, true), lines);
    original.response =
        Some(ResponseData { status: 500, headers: vec![], body: b"old".to_vec() });
    let mut lines = first.clone();
    lines.extend(["", "━━━ Diff (original vs replayed body) ━━━", "  - old", "  + new\u{fffd}"]);
    assert_eq!(report(&original, &response, 15, true), lines);
    let empty = ResponseData { status: 204, headers: vec![], body: vec![] };
    assert_eq!(
        report_lines(&empty, 1, "", Some(""), true),
        vec![
            "━━━ New Response ━━━",
            "  Status  : 204",
            "  Duration: 1 ms",
            "  Headers :",
            "",
            "━━━ Diff (original vs replayed body) ━━━",
            "  (responses are identical)"
        ]
    );
}
