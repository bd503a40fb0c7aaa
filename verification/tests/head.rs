use hermes::head::{RequestReader, ResponseReader};
use hermes::http::{build_head, BodyKind, HttpError};
use hermes::relay::{
    capture_chunk, parse_chunk_size, BodyRelay, ChunkState, ChunkedRelay, FixedRelay, Want,
    BUFFER_SIZE, CAPTURE_LIMIT,
};

#[test]
fn a_request_head_is_assembled() {
    let mut r = RequestReader::start("POST /x HTTP/1.1\r\n").unwrap().unwrap();
    assert!(!r.finished());
    for line in ["Host: example.com\r\n", "no colon here\r\n", " A :  b: c \n", "\r\n"] {
        assert!(!r.finished());
        r.push_line(line);
    }
    assert!(r.finished());
    let head = r.into_head();
    assert_eq!(head.method, "POST");
    assert_eq!(head.target, "/x");
    assert_eq!(head.version, "HTTP/1.1");
    assert_eq!(
        head.headers,
        vec![
            ("Host".to_string(), "example.com".to_string()),
            ("A".to_string(), "b: c".to_string())
        ]
    );
}

#[test]
fn no_request_is_no_head() {
    assert!(RequestReader::start("").unwrap().is_none());
    assert!(RequestReader::start("\r\n").unwrap().is_none());
    assert!(matches!(RequestReader::start("GET /\r\n"), Err(HttpError::MissingVersion)));
}

#[test]
fn a_response_head_keeps_its_bytes() {
    let mut r = ResponseReader::start("HTTP/1.1 201 Created\r\n").unwrap();
    r.push_line("X: 1\r\n");
    r.push_line("\r\n");
    assert!(r.finished());
    let head = r.into_head();
    assert_eq!(head.start_line, "HTTP/1.1 201 Created");
    assert_eq!(head.status_code, 201);
    assert_eq!(head.headers, vec![("X".to_string(), "1".to_string())]);
    assert_eq!(head.raw, b"HTTP/1.1 201 Created\r\nX: 1\r\n\r\n");
}

#[test]
fn an_upstream_that_closes_gives_no_response_head() {
    let e = ResponseReader::start("").err().unwrap();
    assert_eq!(e, HttpError::ClosedInStatusLine);
    assert_eq!(e.message(), "upstream closed while reading response line");
    assert!(e.is_closed());
}

#[test]
fn a_written_head_reads_back() {
    let headers = vec![
        ("Host".to_string(), "example.com".to_string()),
        ("Accept".to_string(), "*/*; q=0.1, a:b".to_string()),
        ("Empty".to_string(), "".to_string()),
    ];
    let text = String::from_utf8(build_head("GET /p HTTP/1.1", &headers)).unwrap();
    let mut lines = text.split_inclusive('\n');
    let mut r = RequestReader::start(lines.next().unwrap()).unwrap().unwrap();
    while !r.finished() {
        r.push_line(lines.next().unwrap());
    }
    assert!(lines.next().is_none());
    assert_eq!(r.into_head().headers, headers);
}

#[test]
fn captures_stop_at_the_limit() {
    let mut kept = Vec::new();
    capture_chunk(&mut kept, &[1, 2, 3], 4);
    capture_chunk(&mut kept, &[4, 5], 4);
    capture_chunk(&mut kept, &[6], 4);
    assert_eq!(kept, vec![1, 2, 3, 4]);
    assert_eq!(CAPTURE_LIMIT, 16384);
    let mut large = Vec::new();
    capture_chunk(&mut large, &vec![7; 20000], CAPTURE_LIMIT);
    assert_eq!(large.len(), 16384);
}

#[test]
fn a_body_of_known_length_is_relayed() {
    let mut relay = FixedRelay::new(10000);
    let mut kept = Vec::new();
    assert_eq!(relay.next_read(), BUFFER_SIZE);
    relay.on_read(&vec![1; 8192], &mut kept, 5).unwrap();
    assert_eq!(relay.next_read(), 1808);
    assert_eq!(relay.on_read(&[], &mut kept, 5).unwrap_err(), HttpError::ClosedInBody);
    relay.on_read(&vec![2; 1808], &mut kept, 5).unwrap();
    assert_eq!(relay.next_read(), 0);
    assert_eq!(kept, vec![1; 5]);
    assert_eq!(FixedRelay::new(0).next_read(), 0);
    assert_eq!(HttpError::ClosedInBody.message(), "unexpected EOF while reading body");
}

#[test]
fn chunk_sizes() {
    assert_eq!(parse_chunk_size("1aF\r\n"), 0x1af);
    assert_eq!(parse_chunk_size(" 10 ; name=value\r\n"), 16);
    assert_eq!(parse_chunk_size("0\r\n"), 0);
    assert_eq!(parse_chunk_size("xyz\r\n"), 0);
    assert_eq!(parse_chunk_size("\r\n"), 0);
    assert_eq!(parse_chunk_size("10000000000000000\r\n"), 0);
}

#[test]
fn a_chunked_body_is_relayed() {
    let mut relay = ChunkedRelay::new();
    let mut kept = Vec::new();
    assert_eq!(relay.wants(), Want::Line);
    relay.on_line("3;x\r\n").unwrap();
    assert_eq!(relay.wants(), Want::Bytes(3));
    relay.on_read(b"ab", &mut kept, 100).unwrap();
    assert_eq!(relay.wants(), Want::Bytes(1));
    assert_eq!(relay.on_read(b"", &mut kept, 100).unwrap_err(), HttpError::ClosedInBody);
    relay.on_read(b"c", &mut kept, 100).unwrap();
    assert_eq!(relay.wants(), Want::LineEnd);
    relay.on_line_end();
    assert_eq!(relay.wants(), Want::Line);
    assert_eq!(relay.on_line("").unwrap_err(), HttpError::ClosedInChunkSize);
    relay.on_line("0\r\n").unwrap();
    assert_eq!(relay.state, ChunkState::Trailer);
    assert_eq!(relay.on_line("").unwrap_err(), HttpError::ClosedInTrailer);
    relay.on_line("Trailer: 1\r\n").unwrap();
    assert_eq!(relay.wants(), Want::Line);
    relay.on_line("\r\n").unwrap();
    assert_eq!(relay.wants(), Want::Nothing);
    assert_eq!(kept, b"abc");
    assert_eq!(
        HttpError::ClosedInChunkSize.message(),
        "unexpected EOF while reading chunk size"
    );
    assert_eq!(
        HttpError::ClosedInTrailer.message(),
        "unexpected EOF while reading chunk trailer"
    );
}

#[test]
fn bodies_of_every_kind_are_relayed() {
    let body = BodyRelay::new(BodyKind::Empty);
    assert_eq!(body.wants(), Want::Nothing);
    assert!(body.into_kept().is_empty());

    let mut body = BodyRelay::new(BodyKind::ContentLength(20000));
    let mut sent: usize = 0;
    while let Want::Bytes(n) = body.wants() {
        sent += n;
        body = body.on_read(&vec![sent as u8; n]).ok().unwrap();
    }
    assert_eq!(sent, 20000);
    assert_eq!(body.wants(), Want::Nothing);
    assert_eq!(body.into_kept().len(), CAPTURE_LIMIT);

    let body = BodyRelay::new(BodyKind::ContentLength(1));
    assert_eq!(body.on_read(&[]).err().unwrap(), HttpError::ClosedInBody);

    let body = BodyRelay::new(BodyKind::Chunked);
    assert_eq!(body.wants(), Want::Line);
    let body = body.on_line("2\r\n").ok().unwrap();
    assert_eq!(body.wants(), Want::Bytes(2));
    let body = body.on_read(b"ab").ok().unwrap();
    assert_eq!(body.wants(), Want::LineEnd);
    let body = body.on_line_end().on_line("0\r\n").ok().unwrap();
    let body = body.on_line("\r\n").ok().unwrap();
    assert_eq!(body.wants(), Want::Nothing);
    assert_eq!(body.into_kept(), b"ab");
    let mut body = BodyRelay::new(BodyKind::UntilClose);
    for _ in 0..5 {
        assert_eq!(body.wants(), Want::Bytes(BUFFER_SIZE));
        body = body.on_read(&[7; 5000]).ok().unwrap();
    }
    let body = body.on_read(&[]).ok().unwrap();
    assert_eq!(body.wants(), Want::Nothing);
    assert_eq!(body.into_kept(), vec![7; CAPTURE_LIMIT]);

    let body = BodyRelay::new(BodyKind::Chunked);
    assert_eq!(body.on_line("").err().unwrap(), HttpError::ClosedInChunkSize);
}
