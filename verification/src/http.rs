//! HTTP message heads: header lists, request and status lines, and targets.

use vstd::prelude::*;
use vstd::slice::slice_subrange;
use vstd::utf8::encode_utf8;

use crate::text::{
    chars_of, eq_fold, find_exec, lower_exec, occurs_exec, parse_number_exec, rfind_exec,
    starts_with_exec, text_of, trim_exec, words_exec,
};

verus! {

// ---------------------------------------------------------------------------
// Types
// ---------------------------------------------------------------------------

/// The head of a request.
#[derive(Debug, Clone)]
pub struct RequestHead {
    pub method: String,
    pub target: String,
    pub version: String,
    pub headers: Vec<(String, String)>,
}

/// The head of a response, with the bytes it was read from.
#[derive(Debug, Clone)]
pub struct ResponseHead {
    pub start_line: String,
    pub status_code: u16,
    pub headers: Vec<(String, String)>,
    pub raw: Vec<u8>,
}

/// How the body of a message is delimited.
#[derive(Debug, Clone, Copy)]
pub enum BodyKind {
    Empty,
    ContentLength(u64),
    Chunked,
    /// The body ends where the stream does.
    UntilClose,
}

/// The parts of an absolute request target.
#[derive(Debug, Clone)]
pub struct AbsoluteTarget {
    pub host: String,
    pub port: u16,
    pub path: String,
}

/// What can be wrong with a message, beyond a failing connection.
#[derive(Debug, Clone, Copy, PartialEq, Eq, Structural)]
pub enum HttpError {
    MissingMethod,
    MissingTarget,
    MissingVersion,
    MissingHost,
    ClosedInStatusLine,
    ClosedInBody,
    ClosedInChunkSize,
    ClosedInTrailer,
}

/// A list of header fields, in order.
pub type HeaderSeq = Seq<(Seq<char>, Seq<char>)>;

/// The mathematical view of a header list.
pub open spec fn headers_view(headers: Seq<(String, String)>) -> HeaderSeq {
    headers.map_values(|h: (String, String)| (h.0@, h.1@))
}

/// What a [`RequestHead`] holds.
pub struct RequestHeadView {
    pub method: Seq<char>,
    pub target: Seq<char>,
    pub version: Seq<char>,
    pub headers: HeaderSeq,
}

impl View for RequestHead {
    type V = RequestHeadView;

    open spec fn view(&self) -> RequestHeadView {
        RequestHeadView {
            method: self.method@,
            target: self.target@,
            version: self.version@,
            headers: headers_view(self.headers@),
        }
    }
}

/// What a [`ResponseHead`] holds.
pub struct ResponseHeadView {
    pub start_line: Seq<char>,
    pub status_code: u16,
    pub headers: HeaderSeq,
    pub raw: Seq<u8>,
}

impl View for ResponseHead {
    type V = ResponseHeadView;

    open spec fn view(&self) -> ResponseHeadView {
        ResponseHeadView {
            start_line: self.start_line@,
            status_code: self.status_code,
            headers: headers_view(self.headers@),
            raw: self.raw@,
        }
    }
}

impl HttpError {
    /// The text shown for the error.
    pub open spec fn text(self) -> Seq<char> {
        match self {
            HttpError::MissingMethod => "missing method in request line"@,
            HttpError::MissingTarget => "missing target in request line"@,
            HttpError::MissingVersion => "missing version in request line"@,
            HttpError::MissingHost => "missing Host header"@,
            HttpError::ClosedInStatusLine => "upstream closed while reading response line"@,
            HttpError::ClosedInBody => "unexpected EOF while reading body"@,
            HttpError::ClosedInChunkSize => "unexpected EOF while reading chunk size"@,
            HttpError::ClosedInTrailer => "unexpected EOF while reading chunk trailer"@,
        }
    }

    /// Whether the peer stopped too early, rather than sent something malformed.
    pub open spec fn closed(self) -> bool {
        match self {
            HttpError::ClosedInStatusLine => true,
            HttpError::ClosedInBody => true,
            HttpError::ClosedInChunkSize => true,
            HttpError::ClosedInTrailer => true,
            _ => false,
        }
    }

    /// The text shown for the error.
    pub fn message(&self) -> (out: &'static str)
        ensures
            out@ == self.text(),
    {
        match self {
            HttpError::MissingMethod => "missing method in request line",
            HttpError::MissingTarget => "missing target in request line",
            HttpError::MissingVersion => "missing version in request line",
            HttpError::MissingHost => "missing Host header",
            HttpError::ClosedInStatusLine => "upstream closed while reading response line",
            HttpError::ClosedInBody => "unexpected EOF while reading body",
            HttpError::ClosedInChunkSize => "unexpected EOF while reading chunk size",
            HttpError::ClosedInTrailer => "unexpected EOF while reading chunk trailer",
        }
    }

    /// Whether the peer stopped too early, rather than sent something malformed.
    pub fn is_closed(&self) -> (out: bool)
        ensures
            out == self.closed(),
    {
        match self {
            HttpError::ClosedInStatusLine => true,
            HttpError::ClosedInBody => true,
            HttpError::ClosedInChunkSize => true,
            HttpError::ClosedInTrailer => true,
            _ => false,
        }
    }
}

// ---------------------------------------------------------------------------
// Header lists
// ---------------------------------------------------------------------------

/// The value of the first field called `name`, up to ASCII case.
pub open spec fn value_of(headers: HeaderSeq, name: Seq<char>) -> Option<Seq<char>>
    decreases headers.len(),
{
    if headers.len() == 0 {
        None
    } else if crate::text::same_fold(headers[0].0, name) {
        Some(headers[0].1)
    } else {
        value_of(headers.skip(1), name)
    }
}

/// The fields that are not called `name`, up to ASCII case, in order.
pub open spec fn without(headers: HeaderSeq, name: Seq<char>) -> HeaderSeq {
    headers.filter(|h: (Seq<char>, Seq<char>)| !crate::text::same_fold(h.0, name))
}

/// The value of the first field called `name`, up to ASCII case.
pub fn header_value<'a>(headers: &'a [(String, String)], name: &str) -> (r: Option<&'a str>)
    ensures
        match r {
            Some(v) => value_of(headers_view(headers@), name@) == Some(v@),
            None => value_of(headers_view(headers@), name@) is None,
        },
{
    let ghost all = headers_view(headers@);
    let mut i: usize = 0;
    assert(all.skip(0) =~= all);
    while i < headers.len()
        invariant
            i <= headers.len(),
            all == headers_view(headers@),
            value_of(all, name@) == value_of(all.skip(i as int), name@),
        decreases headers.len() - i,
    {
        proof {
            assert(all.skip(i as int)[0] == all[i as int]);
            assert(all.skip(i as int).skip(1) =~= all.skip(i as int + 1));
        }
        if eq_fold(headers[i].0.as_str(), name) {
            return Some(headers[i].1.as_str());
        }
        i += 1;
    }
    None
}

/// Removes every field called `name`, up to ASCII case; the others keep their order.
pub fn remove_header(headers: &mut Vec<(String, String)>, name: &str)
    ensures
        headers_view(final(headers)@) == without(headers_view(old(headers)@), name@),
{
    let mut kept: Vec<(String, String)> = Vec::new();
    let ghost all = headers_view(headers@);
    let ghost keep = |h: (Seq<char>, Seq<char>)| !crate::text::same_fold(h.0, name@);
    let mut i: usize = 0;
    proof {
        reveal(Seq::filter);
        assert(headers_view(kept@) =~= all.take(0).filter(keep));
    }
    while i < headers.len()
        invariant
            i <= headers@.len(),
            all == headers_view(headers@),
            keep == (|h: (Seq<char>, Seq<char>)| !crate::text::same_fold(h.0, name@)),
            headers_view(kept@) == all.take(i as int).filter(keep),
        decreases headers@.len() - i,
    {
        proof {
            reveal(Seq::filter);
            assert(all.take(i as int + 1).drop_last() =~= all.take(i as int));
            assert(all.take(i as int + 1).last() == all[i as int]);
        }
        let ghost before = kept@;
        if !eq_fold(headers[i].0.as_str(), name) {
            kept.push((headers[i].0.clone(), headers[i].1.clone()));
            assert(headers_view(kept@) =~= headers_view(before).push(all[i as int]));
        }
        i += 1;
    }
    assert(all.take(i as int) =~= all);
    *headers = kept;
}

/// Whether there is a field called `name`, up to ASCII case.
pub fn has_header(headers: &[(String, String)], name: &str) -> (r: bool)
    ensures
        r == (value_of(headers_view(headers@), name@) is Some),
{
    header_value(headers, name).is_some()
}

/// A copy of a header list.
pub fn copy_headers(headers: &[(String, String)]) -> (out: Vec<(String, String)>)
    ensures
        headers_view(out@) == headers_view(headers@),
{
    let mut out: Vec<(String, String)> = Vec::new();
    let mut i: usize = 0;
    assert(headers_view(out@) =~= headers_view(headers@).take(0));
    while i < headers.len()
        invariant
            i <= headers@.len(),
            headers_view(out@) == headers_view(headers@).take(i as int),
        decreases headers@.len() - i,
    {
        let ghost before = headers_view(out@);
        out.push((headers[i].0.clone(), headers[i].1.clone()));
        proof {
            assert(headers_view(out@) =~= before.push(headers_view(headers@)[i as int]));
            assert(headers_view(headers@).take(i as int + 1) =~= before.push(
                headers_view(headers@)[i as int],
            ));
        }
        i += 1;
    }
    assert(headers_view(headers@).take(i as int) =~= headers_view(headers@));
    out
}

/// Appends the field `name: value`.
pub fn push_header(headers: &mut Vec<(String, String)>, name: &str, value: &str)
    ensures
        headers_view(final(headers)@) == headers_view(old(headers)@).push((name@, value@)),
{
    let ghost before = headers@;
    headers.push((name.to_string(), value.to_string()));
    assert(headers_view(headers@) =~= headers_view(before).push((name@, value@)));
}

// ---------------------------------------------------------------------------
// Body delimiting
// ---------------------------------------------------------------------------

/// How a body with these headers is delimited: chunked if the first
/// `Transfer-Encoding` mentions `chunked`, else by the first `Content-Length`
/// if that is a number.
pub open spec fn body_kind_of(headers: HeaderSeq) -> BodyKind {
    let length = match value_of(headers, "content-length"@) {
        Some(v) => match crate::text::parse_number(crate::text::trim(v), 10, u64::MAX as nat) {
            Some(n) => BodyKind::ContentLength(n as u64),
            None => BodyKind::Empty,
        },
        None => BodyKind::Empty,
    };
    match value_of(headers, "transfer-encoding"@) {
        Some(v) => if crate::text::occurs("chunked"@, crate::text::lower(v)) {
            BodyKind::Chunked
        } else {
            length
        },
        None => length,
    }
}

/// Whether a response with this status never has a body.
pub open spec fn bodyless(status: u16) -> bool {
    100 <= status < 200 || status == 204 || status == 304
}

/// How the body of a message with these headers is delimited.
pub fn body_kind(headers: &[(String, String)]) -> (kind: BodyKind)
    ensures
        kind == body_kind_of(headers_view(headers@)),
{
    if let Some(encoding) = header_value(headers, "transfer-encoding") {
        let folded = lower_exec(chars_of(encoding).as_slice());
        let word = chars_of("chunked");
        if occurs_exec(word.as_slice(), folded.as_slice()) {
            return BodyKind::Chunked;
        }
    }
    if let Some(length) = header_value(headers, "content-length") {
        let chars = chars_of(length);
        if let Some(value) = parse_number_exec(trim_exec(chars.as_slice()), 10, u64::MAX) {
            return BodyKind::ContentLength(value);
        }
    }
    BodyKind::Empty
}

/// How the body of a response is delimited.
pub fn response_body_kind(status_code: u16, headers: &[(String, String)]) -> (kind: BodyKind)
    ensures
        kind == (if bodyless(status_code) {
            BodyKind::Empty
        } else {
            body_kind_of(headers_view(headers@))
        }),
{
    if (100 <= status_code && status_code < 200) || status_code == 204 || status_code == 304 {
        return BodyKind::Empty;
    }
    body_kind(headers)
}

// ---------------------------------------------------------------------------
// Writing heads
// ---------------------------------------------------------------------------

/// One header field as it is written.
pub open spec fn header_line(h: (Seq<char>, Seq<char>)) -> Seq<char> {
    h.0 + ": "@ + h.1 + "\r\n"@
}

/// The header fields as they are written, one line each.
pub open spec fn header_lines(headers: HeaderSeq) -> Seq<char>
    decreases headers.len(),
{
    if headers.len() == 0 {
        seq![]
    } else {
        header_line(headers[0]) + header_lines(headers.skip(1))
    }
}

/// A head as it is written: the start line, the fields and an empty line.
pub open spec fn head_text(start_line: Seq<char>, headers: HeaderSeq) -> Seq<char> {
    start_line + "\r\n"@ + header_lines(headers) + "\r\n"@
}

/// The bytes of a head: the start line, the fields and an empty line.
pub fn build_head(start_line: &str, headers: &[(String, String)]) -> (out: Vec<u8>)
    ensures
        out@ == encode_utf8(head_text(start_line@, headers_view(headers@))),
{
    let ghost all = headers_view(headers@);
    let mut data = start_line.to_string();
    data.append("\r\n");
    let mut i: usize = 0;
    assert(all.skip(0) =~= all);
    while i < headers.len()
        invariant
            i <= headers@.len(),
            all == headers_view(headers@),
            start_line@ + "\r\n"@ + header_lines(all) == data@ + header_lines(all.skip(i as int)),
        decreases headers@.len() - i,
    {
        let ghost before = data@;
        data.append(headers[i].0.as_str());
        data.append(": ");
        data.append(headers[i].1.as_str());
        data.append("\r\n");
        proof {
            assert(all.skip(i as int)[0] == all[i as int]);
            assert(all.skip(i as int).skip(1) =~= all.skip(i as int + 1));
            assert(data@ =~= before + header_line(all[i as int]));
            assert(before + (header_line(all[i as int]) + header_lines(all.skip(i as int + 1)))
                =~= data@ + header_lines(all.skip(i as int + 1)));
        }
        i += 1;
    }
    proof {
        assert(all.skip(i as int).len() == 0);
        assert(data@ + header_lines(all.skip(i as int)) =~= data@);
    }
    data.append("\r\n");
    vstd::slice::slice_to_vec(data.as_str().as_bytes())
}

// ---------------------------------------------------------------------------
// Start lines
// ---------------------------------------------------------------------------

/// The method, target and version of a request line.
pub open spec fn request_line(line: Seq<char>) -> Result<
    (Seq<char>, Seq<char>, Seq<char>),
    HttpError,
> {
    let w = crate::text::words(line);
    if w.len() == 0 {
        Err(HttpError::MissingMethod)
    } else if w.len() == 1 {
        Err(HttpError::MissingTarget)
    } else if w.len() == 2 {
        Err(HttpError::MissingVersion)
    } else {
        Ok((w[0], w[1], w[2]))
    }
}

/// The status code of a status line; zero if its second word is not one.
pub open spec fn status_code_of(line: Seq<char>) -> u16 {
    let w = crate::text::words(line);
    if w.len() < 2 {
        0
    } else {
        match crate::text::parse_number(w[1], 10, u16::MAX as nat) {
            Some(n) => n as u16,
            None => 0,
        }
    }
}

/// Splits a request line into method, target and version; further words are ignored.
pub fn parse_request_line(line: &str) -> (r: Result<(String, String, String), HttpError>)
    ensures
        match r {
            Ok(p) => request_line(line@) == Ok::<_, HttpError>((p.0@, p.1@, p.2@)),
            Err(e) => request_line(line@) == Err::<(Seq<char>, Seq<char>, Seq<char>), _>(e),
        },
{
    let words = words_exec(chars_of(line).as_slice());
    assert(words@.len() == crate::text::words(line@).len());
    if words.len() == 0 {
        return Err(HttpError::MissingMethod);
    }
    if words.len() == 1 {
        return Err(HttpError::MissingTarget);
    }
    if words.len() == 2 {
        return Err(HttpError::MissingVersion);
    }
    assert(crate::text::words(line@)[0] == words@[0]@);
    assert(crate::text::words(line@)[1] == words@[1]@);
    assert(crate::text::words(line@)[2] == words@[2]@);
    Ok((text_of(words[0].as_slice()), text_of(words[1].as_slice()), text_of(words[2].as_slice())))
}

/// The status code of a status line; zero if its second word is not one.
pub fn parse_status_code(line: &str) -> (code: u16)
    ensures
        code == status_code_of(line@),
{
    let words = words_exec(chars_of(line).as_slice());
    assert(words@.len() == crate::text::words(line@).len());
    if words.len() < 2 {
        return 0;
    }
    assert(crate::text::words(line@)[1] == words@[1]@);
    match parse_number_exec(words[1].as_slice(), 10, 65535) {
        Some(n) => n as u16,
        None => 0,
    }
}

// ---------------------------------------------------------------------------
// Targets
// ---------------------------------------------------------------------------

/// The port that `s` denotes, or `default` if it denotes none.
pub open spec fn port_or(s: Seq<char>, default: u16) -> u16 {
    match crate::text::parse_number(s, 10, u16::MAX as nat) {
        Some(n) => n as u16,
        None => default,
    }
}

/// The part of `s` before the last colon and the port after it, if that is one.
pub open spec fn split_last_colon(s: Seq<char>, default: u16) -> (Seq<char>, u16) {
    match crate::text::rfind(s, ':') {
        Some(i) => match crate::text::parse_number(s.skip(i + 1), 10, u16::MAX as nat) {
            Some(n) => (s.take(i), n as u16),
            None => (s, default),
        },
        None => (s, default),
    }
}

/// The host and port of an authority. A bracketed host keeps its brackets; a
/// port that is missing or not a number gives way to `default`.
pub open spec fn host_port(authority: Seq<char>, default: u16) -> (Seq<char>, u16) {
    if authority.len() > 0 && authority[0] == '[' && crate::text::find(authority, ']') is Some {
        let end = crate::text::find(authority, ']').unwrap();
        let rest = authority.skip(end + 1);
        (
            authority.take(end + 1),
            if rest.len() > 0 && rest[0] == ':' {
                port_or(rest.skip(1), default)
            } else {
                default
            },
        )
    } else {
        split_last_colon(authority, default)
    }
}

pub(crate) fn port_of(s: &[char]) -> (r: Option<u16>)
    ensures
        match r {
            Some(p) => crate::text::parse_number(s@, 10, u16::MAX as nat) == Some(p as nat),
            None => crate::text::parse_number(s@, 10, u16::MAX as nat) is None,
        },
{
    match parse_number_exec(s, 10, 65535) {
        Some(n) => Some(n as u16),
        None => None,
    }
}

/// The part before the last colon and the port after it, if that is one.
pub(crate) fn split_colon(chars: &[char], default_port: u16) -> (r: (String, u16))
    ensures
        (r.0@, r.1) == split_last_colon(chars@, default_port),
{
    let len: usize = chars.len();
    if let Some(i) = rfind_exec(chars, ':') {
        let tail = slice_subrange(chars, i + 1, len);
        assert(tail@ =~= chars@.skip(i as int + 1));
        if let Some(port) = port_of(tail) {
            let host = slice_subrange(chars, 0, i);
            assert(host@ =~= chars@.take(i as int));
            return (text_of(host), port);
        }
    }
    (text_of(chars), default_port)
}

/// Splits an authority into host and port. It never fails.
pub fn split_host_port(authority: &str, default_port: u16) -> (r: Result<(String, u16), HttpError>)
    ensures
        r is Ok,
        (r->Ok_0.0@, r->Ok_0.1) == host_port(authority@, default_port),
{
    let chars = chars_of(authority);
    if chars.len() > 0 && chars[0] == '[' {
        if let Some(end) = find_exec(chars.as_slice(), ']') {
            let host = slice_subrange(chars.as_slice(), 0, end + 1);
            let rest = slice_subrange(chars.as_slice(), end + 1, chars.len());
            assert(host@ =~= authority@.take(end as int + 1));
            assert(rest@ =~= authority@.skip(end as int + 1));
            let port: u16 = if rest.len() > 0 && rest[0] == ':' {
                let digits = slice_subrange(rest, 1, rest.len());
                assert(digits@ =~= rest@.skip(1));
                match port_of(digits) {
                    Some(p) => p,
                    None => default_port,
                }
            } else {
                default_port
            };
            return Ok((text_of(host), port));
        }
    }
    Ok(split_colon(chars.as_slice(), default_port))
}

/// What follows the authority: from the first slash on, or `/` if there is none.
pub open spec fn path_of(rest: Seq<char>) -> Seq<char> {
    match crate::text::find(rest, '/') {
        Some(i) => rest.skip(i),
        None => "/"@,
    }
}

/// What stands before the first slash.
pub open spec fn authority_of(rest: Seq<char>) -> Seq<char> {
    match crate::text::find(rest, '/') {
        Some(i) => rest.take(i),
        None => rest,
    }
}

/// The host, port and path of an `http://` or `https://` target.
pub open spec fn absolute_target(target: Seq<char>) -> Option<(Seq<char>, u16, Seq<char>)> {
    if crate::text::starts_with(target, "http://"@) {
        let rest = target.skip("http://"@.len() as int);
        let hp = host_port(authority_of(rest), 80);
        Some((hp.0, hp.1, path_of(rest)))
    } else if crate::text::starts_with(target, "https://"@) {
        let rest = target.skip("https://"@.len() as int);
        let hp = host_port(authority_of(rest), 443);
        Some((hp.0, hp.1, path_of(rest)))
    } else {
        None
    }
}

/// What stands in `s` after `prefix`, if `s` begins with it.
pub(crate) fn strip_prefix<'a>(s: &'a [char], prefix: &str) -> (r: Option<&'a [char]>)
    ensures
        match r {
            Some(rest) => crate::text::starts_with(s@, prefix@) && rest@ == s@.skip(
                prefix@.len() as int,
            ),
            None => !crate::text::starts_with(s@, prefix@),
        },
{
    let p = chars_of(prefix);
    if starts_with_exec(s, p.as_slice()) {
        let rest = slice_subrange(s, p.len(), s.len());
        assert(rest@ =~= s@.skip(prefix@.len() as int));
        Some(rest)
    } else {
        None
    }
}

/// The authority and the path of what follows the scheme.
pub(crate) fn split_path(rest: &[char]) -> (r: (String, String))
    ensures
        r.0@ == authority_of(rest@),
        r.1@ == path_of(rest@),
{
    match find_exec(rest, '/') {
        Some(i) => {
            let authority = slice_subrange(rest, 0, i);
            let path = slice_subrange(rest, i, rest.len());
            assert(authority@ =~= rest@.take(i as int));
            assert(path@ =~= rest@.skip(i as int));
            (text_of(authority), text_of(path))
        },
        None => (text_of(rest), "/".to_string()),
    }
}

/// Splits an `http://` or `https://` target into host, port and path.
pub fn parse_absolute_target(target: &str) -> (r: Option<AbsoluteTarget>)
    ensures
        match r {
            Some(t) => absolute_target(target@) == Some((t.host@, t.port, t.path@)),
            None => absolute_target(target@) is None,
        },
{
    let chars = chars_of(target);
    let default_port: u16;
    let rest;
    if let Some(stripped) = strip_prefix(chars.as_slice(), "http://") {
        default_port = 80;
        rest = stripped;
    } else if let Some(stripped) = strip_prefix(chars.as_slice(), "https://") {
        default_port = 443;
        rest = stripped;
    } else {
        return None;
    }
    let (authority, path) = split_path(rest);
    match split_host_port(authority.as_str(), default_port) {
        Ok((host, port)) => Some(AbsoluteTarget { host, port, path }),
        Err(_) => None,
    }
}

// ---------------------------------------------------------------------------
// Laws
// ---------------------------------------------------------------------------

/// Field names are looked up and removed without regard to ASCII case.
pub proof fn lookup_ignores_case(headers: HeaderSeq, a: Seq<char>, b: Seq<char>)
    requires
        crate::text::same_fold(a, b),
    ensures
        value_of(headers, a) == value_of(headers, b),
        without(headers, a) == without(headers, b),
    decreases headers.len(),
{
    if headers.len() > 0 {
        lookup_ignores_case(headers.skip(1), a, b);
    }
    assert(without(headers, a) == without(headers, b)) by {
        let f = |h: (Seq<char>, Seq<char>)| !crate::text::same_fold(h.0, a);
        let g = |h: (Seq<char>, Seq<char>)| !crate::text::same_fold(h.0, b);
        assert(f =~= g);
    }
}

proof fn lemma_without_front(headers: HeaderSeq, name: Seq<char>)
    requires
        headers.len() > 0,
    ensures
        without(headers, name) == (if crate::text::same_fold(headers[0].0, name) {
            without(headers.skip(1), name)
        } else {
            seq![headers[0]] + without(headers.skip(1), name)
        }),
{
    let keep = |h: (Seq<char>, Seq<char>)| !crate::text::same_fold(h.0, name);
    let one = seq![headers[0]];
    assert(headers =~= one + headers.skip(1));
    Seq::filter_distributes_over_add(one, headers.skip(1), keep);
    reveal(Seq::filter);
    assert(one.drop_last() =~= Seq::empty());
    assert(one.last() == headers[0]);
    assert(one.drop_last().filter(keep) =~= Seq::empty());
    if keep(headers[0]) {
        assert(one.filter(keep) =~= one);
    } else {
        assert(one.filter(keep) =~= Seq::empty());
        assert(Seq::empty() + without(headers.skip(1), name) =~= without(headers.skip(1), name));
    }
}

/// After a removal no field of that name is left, every other name has the
/// value it had, and a second removal changes nothing.
pub proof fn removal_is_exact(headers: HeaderSeq, name: Seq<char>, other: Seq<char>)
    ensures
        value_of(without(headers, name), name) is None,
        !crate::text::same_fold(other, name) ==> value_of(without(headers, name), other)
            == value_of(headers, other),
        without(without(headers, name), name) == without(headers, name),
    decreases headers.len(),
{
    let w = without(headers, name);
    if headers.len() == 0 {
        reveal(Seq::filter);
        assert(w =~= headers);
    } else {
        lemma_without_front(headers, name);
        let rest = headers.skip(1);
        removal_is_exact(rest, name, other);
        if !crate::text::same_fold(headers[0].0, name) {
            assert(w.skip(1) =~= without(rest, name));
            assert(w[0] == headers[0]);
            lemma_without_front(w, name);
            assert(without(w, name) =~= w);
        }
    }
}

/// A host and a port that are written with a colon between them split into the
/// same host and port. The host is not bracketed, or is one bracketed address.
pub proof fn authority_splits_back(host: Seq<char>, port: u16, default: u16)
    requires
        host.len() > 0 && host[0] == '[' ==> crate::text::find(host, ']') == Some(host.len() - 1),
    ensures
        host_port(host + seq![':'] + crate::text::decimal(port as nat), default) == (host, port),
{
    let digits = crate::text::decimal(port as nat);
    let s = host + seq![':'] + digits;
    let n = host.len() as int;
    crate::text::decimal_reads_back(port as nat, u16::MAX as nat);
    crate::text::decimal_is_digits(port as nat);
    assert(s[n] == ':');
    assert(s.skip(n + 1) =~= digits);
    assert(s.take(n) =~= host);
    if n > 0 && host[0] == '[' {
        crate::text::lemma_find(host, ']');
        assert forall|j: int| 0 <= j < n - 1 implies s[j] != ']' by {
            assert(s[j] == host[j]);
        }
        crate::text::lemma_find_is(s, ']', n - 1);
        let rest = s.skip(n);
        assert(rest[0] == ':');
        assert(rest.skip(1) =~= digits);
    } else {
        assert forall|j: int| n < j < s.len() implies s[j] != ':' by {
            assert(s[j] == digits[j - n - 1]);
        }
        crate::text::lemma_rfind_is(s, ':', n);
        if n > 0 {
            assert(s[0] == host[0]);
        }
    }
}

/// A host without a colon keeps the default port.
pub proof fn bare_host_has_default_port(host: Seq<char>, default: u16)
    requires
        !host.contains(':'),
    ensures
        host_port(host, default).1 == default,
        host.len() == 0 || host[0] != '[' ==> host_port(host, default).0 == host,
{
    crate::text::lemma_rfind(host, ':');
    if host.len() > 0 && host[0] == '[' && crate::text::find(host, ']') is Some {
        crate::text::lemma_find(host, ']');
        let end = crate::text::find(host, ']').unwrap();
        let rest = host.skip(end + 1);
        if rest.len() > 0 && rest[0] == ':' {
            assert(host.contains(host[end + 1]));
        }
    }
}

/// A target that is put together from a scheme, an authority without a slash
/// and a path that begins with a slash comes apart into the same parts.
pub proof fn target_comes_apart(authority: Seq<char>, path: Seq<char>)
    requires
        !authority.contains('/'),
        path.len() > 0,
        path[0] == '/',
    ensures
        absolute_target("http://"@ + authority + path) == Some(
            (host_port(authority, 80).0, host_port(authority, 80).1, path),
        ),
        absolute_target("https://"@ + authority + path) == Some(
            (host_port(authority, 443).0, host_port(authority, 443).1, path),
        ),
        absolute_target("http://"@ + authority) == Some(
            (host_port(authority, 80).0, host_port(authority, 80).1, "/"@),
        ),
        absolute_target("https://"@ + authority) == Some(
            (host_port(authority, 443).0, host_port(authority, 443).1, "/"@),
        ),
{
    reveal_strlit("http://");
    reveal_strlit("https://");
    let plain = "http://"@;
    let tls = "https://"@;
    let rest = authority + path;
    let n = authority.len() as int;
    assert forall|j: int| 0 <= j < n implies rest[j] != '/' by {
        assert(authority.contains(authority[j]));
        assert(rest[j] == authority[j]);
    }
    crate::text::lemma_find_is(rest, '/', n);
    crate::text::lemma_find(authority, '/');
    assert(rest.take(n) =~= authority);
    assert(rest.skip(n) =~= path);
    assert((plain + authority + path).take(7) =~= plain);
    assert((plain + authority + path).skip(7) =~= rest);
    assert((plain + authority).take(7) =~= plain);
    assert((plain + authority).skip(7) =~= authority);
    assert((tls + authority + path).take(8) =~= tls);
    assert((tls + authority + path).skip(8) =~= rest);
    assert((tls + authority).take(8) =~= tls);
    assert((tls + authority).skip(8) =~= authority);
    assert((tls + authority + path).take(7)[4] == 's');
    assert((tls + authority).take(7)[4] == 's');
}

} // verus!
