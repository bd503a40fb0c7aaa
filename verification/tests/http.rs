use hermes::http::{
    body_kind, build_head, has_header, header_value, parse_absolute_target, parse_request_line,
    parse_status_code, remove_header, response_body_kind, split_host_port, BodyKind, HttpError,
};
use hermes::text::{
    chars_of, decimal_text, is_space_exec, lines_exec, pad_right_exec, parse_number_exec,
    trim_exec, words_exec,
};

fn headers(list: &[(&str, &str)]) -> Vec<(String, String)> {
    list.iter().map(|(n, v)| (n.to_string(), v.to_string())).collect()
}

#[test]
fn lookup_ignores_case_and_takes_the_first() {
    let h = headers(&[("Content-Type", "a"), ("CONTENT-TYPE", "b")]);
    assert_eq!(header_value(&h, "content-type"), Some("a"));
    assert_eq!(header_value(&h, "accept"), None);
    assert!(has_header(&h, "cOnTeNt-TyPe"));
    assert!(!has_header(&h, "content"));
}

#[test]
fn removal_takes_all_of_a_name() {
    let mut h = headers(&[("A", "1"), ("b", "2"), ("a", "3"), ("C", "4")]);
    remove_header(&mut h, "A");
    assert_eq!(h, headers(&[("b", "2"), ("C", "4")]));
    remove_header(&mut h, "A");
    assert_eq!(h, headers(&[("b", "2"), ("C", "4")]));
}

#[test]
fn folding_is_ascii_only() {
    let h = headers(&[("\u{212a}ey", "kelvin"), ("É", "e")]);
    assert_eq!(header_value(&h, "key"), None);
    assert_eq!(header_value(&h, "é"), None);
    assert_eq!(header_value(&h, "É"), Some("e"));
}

#[test]
fn body_kinds() {
    assert!(matches!(body_kind(&headers(&[])), BodyKind::Empty));
    assert!(matches!(
        body_kind(&headers(&[("Content-Length", " 42 ")])),
        BodyKind::ContentLength(42)
    ));
    assert!(matches!(
        body_kind(&headers(&[("Content-Length", "+7")])),
        BodyKind::ContentLength(7)
    ));
    assert!(matches!(body_kind(&headers(&[("Content-Length", "-1")])), BodyKind::Empty));
    assert!(matches!(body_kind(&headers(&[("Content-Length", "4x")])), BodyKind::Empty));
    assert!(matches!(body_kind(&headers(&[("Content-Length", "")])), BodyKind::Empty));
    assert!(matches!(
        body_kind(&headers(&[("Content-Length", "18446744073709551615")])),
        BodyKind::ContentLength(u64::MAX)
    ));
    assert!(matches!(
        body_kind(&headers(&[("Content-Length", "18446744073709551616")])),
        BodyKind::Empty
    ));
    assert!(matches!(
        body_kind(&headers(&[("Transfer-Encoding", "gzip, Chunked"), ("Content-Length", "3")])),
        BodyKind::Chunked
    ));
    assert!(matches!(
        body_kind(&headers(&[("Transfer-Encoding", "gzip"), ("Content-Length", "3")])),
        BodyKind::ContentLength(3)
    ));
}

#[test]
fn some_statuses_have_no_body() {
    let h = headers(&[("Content-Length", "5")]);
    for status in [100, 101, 199, 204, 304] {
        assert!(matches!(response_body_kind(status, &h), BodyKind::Empty));
    }
    for status in [0, 99, 200, 205, 303, 404] {
        assert!(matches!(response_body_kind(status, &h), BodyKind::ContentLength(5)));
    }
}

#[test]
fn heads_are_written_as_lines() {
    let head = build_head("GET / HTTP/1.1", &headers(&[("Host", "é.example"), ("A", "")]));
    assert_eq!(head, "GET / HTTP/1.1\r\nHost: é.example\r\nA: \r\n\r\n".as_bytes());
    assert_eq!(build_head("", &[]), b"\r\n\r\n");
}

#[test]
fn request_lines() {
    assert_eq!(
        parse_request_line("GET  /a\tHTTP/1.1 extra").unwrap(),
        ("GET".to_string(), "/a".to_string(), "HTTP/1.1".to_string())
    );
    assert_eq!(parse_request_line("   ").unwrap_err(), HttpError::MissingMethod);
    assert_eq!(parse_request_line("GET").unwrap_err(), HttpError::MissingTarget);
    assert_eq!(parse_request_line("GET /").unwrap_err(), HttpError::MissingVersion);
    assert_eq!(HttpError::MissingMethod.message(), "missing method in request line");
    assert_eq!(HttpError::MissingTarget.message(), "missing target in request line");
    assert_eq!(HttpError::MissingVersion.message(), "missing version in request line");
    assert_eq!(HttpError::MissingHost.message(), "missing Host header");
    assert!(!HttpError::MissingHost.is_closed());
}

#[test]
fn status_codes() {
    assert_eq!(parse_status_code("HTTP/1.1 404 Not Found"), 404);
    assert_eq!(parse_status_code("HTTP/1.1 65535"), 65535);
    assert_eq!(parse_status_code("HTTP/1.1 65536"), 0);
    assert_eq!(parse_status_code("HTTP/1.1 abc"), 0);
    assert_eq!(parse_status_code("HTTP/1.1"), 0);
    assert_eq!(parse_status_code(""), 0);
}

#[test]
fn authorities_split() {
    let split = |s: &str, p: u16| split_host_port(s, p).unwrap();
    assert_eq!(split("example.com:8443", 443), ("example.com".to_string(), 8443));
    assert_eq!(split("example.com", 443), ("example.com".to_string(), 443));
    assert_eq!(split("example.com:http", 80), ("example.com:http".to_string(), 80));
    assert_eq!(split("[::1]:9000", 443), ("[::1]".to_string(), 9000));
    assert_eq!(split("[::1]", 443), ("[::1]".to_string(), 443));
    assert_eq!(split("[::1]x", 443), ("[::1]".to_string(), 443));
    assert_eq!(split("[::1]:x", 443), ("[::1]".to_string(), 443));
    assert_eq!(split("[::1", 443), ("[:".to_string(), 1));
    assert_eq!(split("::1", 443), (":".to_string(), 1));
    assert_eq!(split("a:65536", 443), ("a:65536".to_string(), 443));
    assert_eq!(split("", 443), ("".to_string(), 443));
}

#[test]
fn absolute_targets() {
    let t = parse_absolute_target("http://example.com:8080/a/b?c=d").unwrap();
    assert_eq!((t.host.as_str(), t.port, t.path.as_str()), ("example.com", 8080, "/a/b?c=d"));
    let t = parse_absolute_target("https://example.com").unwrap();
    assert_eq!((t.host.as_str(), t.port, t.path.as_str()), ("example.com", 443, "/"));
    let t = parse_absolute_target("http://").unwrap();
    assert_eq!((t.host.as_str(), t.port, t.path.as_str()), ("", 80, "/"));
    assert!(parse_absolute_target("/a").is_none());
    assert!(parse_absolute_target("HTTP://example.com/").is_none());
    assert!(parse_absolute_target("ftp://example.com/").is_none());
}

#[test]
fn spaces_are_those_of_unicode() {
    let mut n: u32 = 0;
    while n <= 0x10ffff {
        if let Some(c) = char::from_u32(n) {
            assert_eq!(is_space_exec(c), c.is_whitespace(), "U+{:04X}", n);
        }
        n += 1;
    }
}

#[test]
fn text_helpers_agree_with_std() {
    let samples = [
        "", " ", "a", " a b ", "\u{3000}x\u{85}y\r\n", "a\r\nb\n\nc\r", "\r\n", "\n", "a\r\r\nb",
        "tail\n", "+12", "007", "12 ", "", "+", "-0",
    ];
    for s in samples {
        let chars = chars_of(s);
        let trimmed: String = trim_exec(&chars).iter().collect();
        assert_eq!(trimmed, s.trim());
        let words: Vec<String> = words_exec(&chars).iter().map(|w| w.iter().collect()).collect();
        assert_eq!(words, s.split_whitespace().collect::<Vec<_>>());
        let lines: Vec<String> = lines_exec(&chars).iter().map(|w| w.iter().collect()).collect();
        assert_eq!(lines, s.lines().collect::<Vec<_>>());
        assert_eq!(parse_number_exec(&chars, 10, u64::MAX), s.parse::<u64>().ok());
        assert_eq!(
            parse_number_exec(&chars, 16, u16::MAX as u64),
            u16::from_str_radix(s, 16).ok().map(|n| n as u64)
        );
    }
    for n in [0, 9, 10, 99, 100, 12345, u64::MAX] {
        assert_eq!(decimal_text(n), n.to_string());
        assert_eq!(parse_number_exec(&chars_of(&n.to_string()), 10, u64::MAX), Some(n));
    }
    assert_eq!(pad_right_exec("é", 3), format!("{:<3}", "é"));
    assert_eq!(pad_right_exec("abcd", 3), "abcd");
}
