use hermes::head::ResponseReader;
use hermes::http::{BodyKind, HttpError, RequestHead};
use hermes::proxy::{
    established, force_close, http_reason, mock_response, resolve_upstream,
    rewrite_response_head_close, route, timeout_message, Decision, Exchange, Prefix, Route, Scheme,
};
use hermes::relay::BodyRelay;
use hermes::script::action::ScriptAction;
use hermes::script::engine::{consider, FileStep, ScriptEngine};

fn headers(list: &[(&str, &str)]) -> Vec<(String, String)> {
    list.iter().map(|(n, v)| (n.to_string(), v.to_string())).collect()
}

fn request(method: &str, target: &str, list: &[(&str, &str)]) -> RequestHead {
    RequestHead {
        method: method.to_string(),
        target: target.to_string(),
        version: "HTTP/1.1".to_string(),
        headers: headers(list),
    }
}

fn exchange() -> Exchange {
    let r = request(
        "POST",
        "http://example.com:8080/a?b",
        &[("Proxy-Connection", "keep-alive"), ("Content-Length", "3"), ("Keep-Alive", "5")],
    );
    Exchange::prepare(&r, Scheme::Http, 80).unwrap()
}

fn body(bytes: &[u8]) -> BodyRelay {
    let relay = BodyRelay::new(BodyKind::ContentLength(bytes.len() as u64));
    if bytes.is_empty() {
        return relay;
    }
    relay.on_read(bytes).ok().unwrap()
}

#[test]
fn connect_asks_for_a_tunnel() {
    match route(&request("connect", "example.com:8443", &[])) {
        Route::Tunnel { host, port } => assert_eq!((host.as_str(), port), ("example.com", 8443)),
        Route::Plain => panic!("no tunnel"),
    }
    match route(&request("CONNECT", "example.com", &[])) {
        Route::Tunnel { host, port } => assert_eq!((host.as_str(), port), ("example.com", 443)),
        Route::Plain => panic!("no tunnel"),
    }
    assert!(matches!(route(&request("GET", "/", &[])), Route::Plain));
    assert_eq!(established(), b"HTTP/1.1 200 Connection Established\r\n\r\n");
}

#[test]
fn upstreams_are_resolved() {
    let (host, port, target, h) =
        resolve_upstream(&request("GET", "http://a.b/c", &[("Host", "x:1")])).unwrap();
    assert_eq!((host.as_str(), port, target.as_str()), ("a.b", 80, "/c"));
    assert_eq!(h, headers(&[("Host", "x:1")]));
    let (host, port, target, _) =
        resolve_upstream(&request("GET", "/c", &[("host", "x:81")])).unwrap();
    assert_eq!((host.as_str(), port, target.as_str()), ("x", 81, "/c"));
    assert_eq!(resolve_upstream(&request("GET", "/c", &[])).unwrap_err(), HttpError::MissingHost);
    assert!(Exchange::prepare(&request("GET", "/c", &[]), Scheme::Https, 443).is_err());
}

#[test]
fn requests_are_prepared() {
    let e = exchange();
    assert_eq!(e.url, "http://example.com:8080/a?b");
    assert_eq!((e.host.as_str(), e.port, e.target.as_str()), ("example.com", 8080, "/a?b"));
    assert_eq!(
        e.headers,
        headers(&[
            ("Content-Length", "3"),
            ("Connection", "close"),
            ("Host", "example.com:8080")
        ])
    );
    assert_eq!(
        e.head_bytes(),
        b"POST /a?b HTTP/1.1\r\nContent-Length: 3\r\nConnection: close\r\n\
          Host: example.com:8080\r\n\r\n"
    );
    assert!(matches!(e.body(), BodyKind::ContentLength(3)));
    assert_eq!(timeout_message("h", 8080), "connect to h:8080 timed out");
    let e = Exchange::prepare(&request("GET", "/x", &[("HOST", "h")]), Scheme::Https, 443).unwrap();
    assert_eq!(e.url, "https://h/x");
    assert_eq!(e.headers, headers(&[("HOST", "h"), ("Connection", "close")]));
    let e = Exchange::prepare(&request("GET", "https://h/x", &[]), Scheme::Https, 443).unwrap();
    assert_eq!(e.headers, headers(&[("Connection", "close"), ("Host", "h")]));
    let e = Exchange::prepare(&request("GET", "http://h/x", &[]), Scheme::Https, 443).unwrap();
    assert_eq!(e.headers, headers(&[("Connection", "close"), ("Host", "h:80")]));
}

#[test]
fn a_body_survives_a_changed_header_list() {
    let r = request("POST", "/x", &[("Host", "example.com"), ("Content-Length", "5")]);
    let e = Exchange::prepare(&r, Scheme::Http, 80).unwrap();
    match e.decide(ScriptAction::ModifyHeaders(headers(&[("Host", "example.com")]))) {
        Decision::Forward(e) => {
            assert_eq!(e.head_bytes(), b"POST /x HTTP/1.1\r\nHost: example.com\r\n\r\n");
            assert!(matches!(e.body(), BodyKind::ContentLength(5)));
            assert_eq!(e.sent(body(b"hello")).transaction.request.body, b"hello");
        }
        Decision::Reply(_) => panic!("not forwarded"),
    }
}

#[test]
fn urls_keep_the_port() {
    let url = |target: &str, host: &str, scheme: Scheme, port: u16| {
        Exchange::prepare(&request("GET", target, &[("Host", host)]), scheme, port).unwrap().url
    };
    assert_eq!(url("/get", "h:8080", Scheme::Http, 80), "http://h:8080/get");
    assert_eq!(url("/get", "h:80", Scheme::Http, 80), "http://h/get");
    assert_eq!(url("/get", "h", Scheme::Https, 443), "https://h/get");
    assert_eq!(url("/get", "h", Scheme::Https, 8443), "https://h:8443/get");
    assert_eq!(url("/get", "h:443", Scheme::Https, 8443), "https://h/get");
    assert_eq!(url("/get", "[::1]:81", Scheme::Http, 80), "http://[::1]:81/get");
    let r = request("GET", "http://example.com:8080/get", &[]);
    let e = Exchange::prepare(&r, Scheme::Http, 80).unwrap();
    assert_eq!(e.url, "http://example.com:8080/get");
    let p = hermes::replay::plan(&e.sent(body(b"")).transaction).unwrap();
    assert_eq!((p.host.as_str(), p.port), ("example.com", 8080));
    assert!(p.head.starts_with(b"GET /get HTTP/1.1\r\n"));
}

fn response(lines: &[&str]) -> hermes::http::ResponseHead {
    let mut r = ResponseReader::start(lines[0]).unwrap();
    for line in &lines[1..] {
        r.push_line(line);
    }
    r.into_head()
}

#[test]
fn a_response_that_ends_with_the_stream_is_recorded() {
    let answering = exchange().sent(body(b"")).answered(response(&["HTTP/1.1 200 OK\r\n", "\r\n"]));
    assert_eq!(answering.head, b"HTTP/1.1 200 OK\r\nConnection: close\r\n\r\n");
    assert!(matches!(answering.body, BodyKind::UntilClose));
    let relay = BodyRelay::new(answering.body);
    let relay = relay.on_read(b"hel").ok().unwrap().on_read(b"lo").ok().unwrap();
    let relay = relay.on_read(b"").ok().unwrap();
    let tx = answering.finish(relay, 1);
    assert_eq!(tx.response.unwrap().body, b"hello");
}

#[test]
fn a_head_request_has_no_body_in_its_answer() {
    let r = request("HEAD", "/x", &[("Host", "h")]);
    let e = Exchange::prepare(&r, Scheme::Http, 80).unwrap();
    let head = response(&["HTTP/1.1 200 OK\r\n", "Content-Length: 9\r\n", "\r\n"]);
    assert!(matches!(e.sent(body(b"")).answered(head).body, BodyKind::Empty));
    let head = response(&["HTTP/1.1 204 No Content\r\n", "\r\n"]);
    assert!(matches!(exchange().sent(body(b"")).answered(head).body, BodyKind::Empty));
    let head = response(&["HTTP/1.1 200 OK\r\n", "Transfer-Encoding: chunked\r\n", "\r\n"]);
    assert!(matches!(exchange().sent(body(b"")).answered(head).body, BodyKind::Chunked));
}

#[test]
fn connections_are_closed_once() {
    let mut h = headers(&[("connection", "keep-alive"), ("KEEP-ALIVE", "1"), ("A", "b")]);
    force_close(&mut h);
    assert_eq!(h, headers(&[("A", "b"), ("Connection", "close")]));
    force_close(&mut h);
    assert_eq!(h, headers(&[("A", "b"), ("Connection", "close")]));
    assert_eq!(
        rewrite_response_head_close("HTTP/1.1 200 OK", &headers(&[("Connection", "x"), ("A", "b")])),
        b"HTTP/1.1 200 OK\r\nA: b\r\nConnection: close\r\n\r\n"
    );
}

#[test]
fn reasons() {
    let known = [
        (200, "OK"), (201, "Created"), (204, "No Content"), (301, "Moved Permanently"),
        (302, "Found"), (304, "Not Modified"), (400, "Bad Request"), (401, "Unauthorized"),
        (403, "Forbidden"), (404, "Not Found"), (405, "Method Not Allowed"),
        (418, "I'm a Teapot"), (429, "Too Many Requests"), (500, "Internal Server Error"),
        (502, "Bad Gateway"), (503, "Service Unavailable"), (504, "Gateway Timeout"),
        (299, "Unknown"),
    ];
    for (status, reason) in known {
        assert_eq!(http_reason(status), reason);
    }
}

#[test]
fn dropped_requests_are_answered_with_502() {
    match exchange().decide(ScriptAction::Drop) {
        Decision::Reply(bytes) => assert_eq!(
            bytes,
            b"HTTP/1.1 502 Bad Gateway\r\nContent-Length: 0\r\nConnection: close\r\n\r\n"
        ),
        Decision::Forward(_) => panic!("forwarded"),
    }
}

#[test]
fn mocked_requests_are_answered() {
    assert_eq!(
        mock_response(418, headers(&[("X", "y")]), b"tea".to_vec()),
        b"HTTP/1.1 418 I'm a Teapot\r\nX: y\r\nContent-Length: 3\r\nConnection: close\r\n\r\ntea"
    );
    let action = ScriptAction::MockResponse {
        status: 7,
        headers: headers(&[("content-LENGTH", "9")]),
        body: vec![0, 255],
    };
    match exchange().decide(action) {
        Decision::Reply(bytes) => assert_eq!(
            bytes,
            b"HTTP/1.1 7 Unknown\r\ncontent-LENGTH: 9\r\nConnection: close\r\n\r\n\x00\xff"
        ),
        Decision::Forward(_) => panic!("forwarded"),
    }
}

#[test]
fn scripts_replace_headers_only() {
    let before = exchange();
    match exchange().decide(ScriptAction::ModifyHeaders(headers(&[("Transfer-Encoding", "chunked")]))) {
        Decision::Forward(e) => {
            assert_eq!(e.url, before.url);
            assert_eq!(e.method, before.method);
            assert_eq!(e.headers, headers(&[("Transfer-Encoding", "chunked")]));
            assert!(matches!(e.body(), BodyKind::ContentLength(3)));
            assert_eq!(
                e.head_bytes(),
                b"POST /a?b HTTP/1.1\r\nTransfer-Encoding: chunked\r\n\r\n"
            );
        }
        Decision::Reply(_) => panic!("not forwarded"),
    }
    match exchange().decide(ScriptAction::Passthrough) {
        Decision::Forward(e) => assert_eq!(e.head_bytes(), before.head_bytes()),
        Decision::Reply(_) => panic!("not forwarded"),
    }
}

#[test]
fn scripts_see_the_prepared_request() {
    let source = "fn handle(req) { if req.headers[1][1] == \"close\" && req.method == \"POST\" \
                  { \"drop\" } else { \"passthrough\" } }";
    let engine = match consider(Some("rhai"), Some("http://example.com:8080/a*")) {
        FileStep::Read(candidate) => {
            ScriptEngine::new().add_script(candidate, "p", Ok(source.to_string())).0
        }
        _ => panic!("not a script"),
    };
    let run = exchange().consult(&engine);
    assert!(matches!(run.action, ScriptAction::Drop));
    assert!(run.warnings.is_empty());
}

#[test]
fn an_exchange_is_recorded() {
    let pending = exchange().sent(body(b"abc"));
    assert!(pending.transaction.response.is_none());
    let id = pending.transaction.id.bytes;
    let mut r = ResponseReader::start("HTTP/1.1 200 OK\r\n").unwrap();
    r.push_line("Connection: keep-alive\r\n");
    r.push_line("Content-Length: 2\r\n");
    r.push_line("\r\n");
    let answering = pending.answered(r.into_head());
    assert_eq!(
        answering.head,
        b"HTTP/1.1 200 OK\r\nContent-Length: 2\r\nConnection: close\r\n\r\n"
    );
    assert!(matches!(answering.body, BodyKind::ContentLength(2)));
    let tx = answering.finish(body(b"hi"), 12);
    assert_eq!(tx.id.bytes, id);
    assert_eq!(tx.request.method, "POST");
    assert_eq!(tx.request.url, "http://example.com:8080/a?b");
    assert_eq!(tx.request.body, b"abc");
    assert_eq!(tx.request.headers.len(), 3);
    let response = tx.response.unwrap();
    assert_eq!(response.status, 200);
    assert_eq!(response.headers, headers(&[("Connection", "keep-alive"), ("Content-Length", "2")]));
    assert_eq!(response.body, b"hi");
    assert_eq!(tx.duration_ms, Some(12));
}

#[test]
fn bodyless_answers_are_not_relayed() {
    let mut r = ResponseReader::start("HTTP/1.1 304 Not Modified\r\n").unwrap();
    r.push_line("Content-Length: 2\r\n");
    r.push_line("\r\n");
    assert!(matches!(exchange().sent(body(b"")).answered(r.into_head()).body, BodyKind::Empty));
}

#[test]
fn buffered_bytes_come_first() {
    let prefix = Prefix::new(vec![1, 2, 3, 4, 5]);
    let (prefix, a) = prefix.replay(2);
    assert_eq!(a, Some(vec![1, 2]));
    let (prefix, b) = prefix.replay(0);
    assert_eq!(b, Some(vec![]));
    let (prefix, c) = prefix.replay(100);
    assert_eq!(c, Some(vec![3, 4, 5]));
    let (_, d) = prefix.replay(100);
    assert_eq!(d, None);
    assert_eq!(Prefix::new(vec![]).replay(8).1, None);
}
