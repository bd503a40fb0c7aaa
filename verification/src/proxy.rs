//! One proxied exchange: where a request goes, what a script makes of it, what
//! is sent on, what the client gets back and what is recorded.

use vstd::prelude::*;
use vstd::slice::{slice_subrange, slice_to_vec};
use vstd::utf8::encode_utf8;

use crate::http::{
    body_kind, build_head, copy_headers, has_header, header_value, parse_absolute_target,
    push_header, remove_header, response_body_kind, split_host_port, BodyKind, HeaderSeq,
    HttpError, RequestHead, RequestHeadView, ResponseHead,
};
use crate::relay::{BodyRelay, CAPTURE_LIMIT};
use crate::script::action::{ActionView, ScriptAction};
use crate::script::engine::{paths, possible, run_of, Outcome, ScriptEngine, ScriptRun};
use crate::script::value::request_value;
use crate::text::{decimal_text, eq_fold};
use crate::transaction::{RequestData, RequestView, ResponseData, ResponseView, Transaction};

verus! {

// ---------------------------------------------------------------------------
// Routing
// ---------------------------------------------------------------------------

/// How a connection goes on after its first request head.
#[derive(Debug, Clone)]
pub enum Route {
    /// The client asks for a tunnel to this host and port.
    Tunnel { host: String, port: u16 },
    /// The request is to be forwarded as it is.
    Plain,
}

/// The answer to a request for a tunnel.
pub open spec fn tunnel_reply() -> Seq<char> {
    "HTTP/1.1 200 Connection Established\r\n\r\n"@
}

/// A `CONNECT` request asks for a tunnel, by default to port 443; every other
/// request is forwarded.
pub fn route(request: &RequestHead) -> (r: Route)
    ensures
        match r {
            Route::Tunnel { host, port } => crate::text::same_fold(request.method@, "CONNECT"@)
                && (host@, port) == crate::http::host_port(request.target@, 443),
            Route::Plain => !crate::text::same_fold(request.method@, "CONNECT"@),
        },
{
    if eq_fold(request.method.as_str(), "CONNECT") {
        match split_host_port(request.target.as_str(), 443) {
            Ok((host, port)) => Route::Tunnel { host, port },
            Err(_) => Route::Plain,
        }
    } else {
        Route::Plain
    }
}

/// The bytes that answer a request for a tunnel.
pub fn established() -> (out: Vec<u8>)
    ensures
        out@ == encode_utf8(tunnel_reply()),
{
    slice_to_vec("HTTP/1.1 200 Connection Established\r\n\r\n".as_bytes())
}

/// Where a request is to be sent: what its absolute target says, else what its
/// `Host` field says, with the target as it stands. A `Host` field without a
/// port means `default_port`.
pub open spec fn upstream_of(request: RequestHeadView, default_port: u16) -> Result<
    (Seq<char>, u16, Seq<char>),
    HttpError,
> {
    match crate::http::absolute_target(request.target) {
        Some(t) => Ok(t),
        None => match crate::http::value_of(request.headers, "host"@) {
            Some(value) => {
                let (host, port) = crate::http::host_port(value, default_port);
                Ok((host, port, request.target))
            },
            None => Err(HttpError::MissingHost),
        },
    }
}

/// The host, port and target that a request is to be sent to, and its headers.
/// A `Host` field without a port means `default_port`.
pub fn resolve_upstream_at(request: &RequestHead, default_port: u16) -> (r: Result<
    (String, u16, String, Vec<(String, String)>),
    HttpError,
>)
    ensures
        match r {
            Ok((host, port, target, headers)) => upstream_of(request@, default_port) == Ok::<
                _,
                HttpError,
            >((host@, port, target@)) && crate::http::headers_view(headers@) == request@.headers,
            Err(e) => upstream_of(request@, default_port) == Err::<
                (Seq<char>, u16, Seq<char>),
                _,
            >(e),
        },
{
    let headers = copy_headers(request.headers.as_slice());
    if let Some(target) = parse_absolute_target(request.target.as_str()) {
        return Ok((target.host, target.port, target.path, headers));
    }
    match header_value(request.headers.as_slice(), "host") {
        Some(value) => {
            let (host, port) = split_host_port(value, default_port)?;
            Ok((host, port, request.target.clone(), headers))
        },
        None => Err(HttpError::MissingHost),
    }
}

/// The host, port and target that a request outside a tunnel is to be sent to,
/// and its headers.
pub fn resolve_upstream(request: &RequestHead) -> (r: Result<
    (String, u16, String, Vec<(String, String)>),
    HttpError,
>)
    ensures
        match r {
            Ok((host, port, target, headers)) => upstream_of(request@, 80) == Ok::<_, HttpError>(
                (host@, port, target@),
            ) && crate::http::headers_view(headers@) == request@.headers,
            Err(e) => upstream_of(request@, 80) == Err::<(Seq<char>, u16, Seq<char>), _>(e),
        },
{
    resolve_upstream_at(request, 80)
}

/// The error text for an upstream that does not answer in time.
pub fn timeout_message(host: &str, port: u16) -> (out: String)
    ensures
        out@ == "connect to "@ + host@ + ":"@ + crate::text::decimal(port as nat) + " timed out"@,
{
    let mut out = "connect to ".to_string();
    out.append(host);
    out.append(":");
    out.append(decimal_text(port as u64).as_str());
    out.append(" timed out");
    out
}

// ---------------------------------------------------------------------------
// Closing connections
// ---------------------------------------------------------------------------

/// A header list that asks for the connection to be closed, and is otherwise as
/// `headers`.
pub open spec fn closing(headers: HeaderSeq) -> HeaderSeq {
    crate::http::without(crate::http::without(headers, "connection"@), "keep-alive"@).push(
        ("Connection"@, "close"@),
    )
}

/// Replaces or adds `Connection: close`, so that the connection ends after one
/// response.
pub fn force_close(headers: &mut Vec<(String, String)>)
    ensures
        crate::http::headers_view(final(headers)@) == closing(
            crate::http::headers_view(old(headers)@),
        ),
{
    remove_header(headers, "connection");
    remove_header(headers, "keep-alive");
    push_header(headers, "Connection", "close");
}

/// The head of a response as the client gets it: that of the upstream, except
/// that it asks for the connection to be closed.
pub fn rewrite_response_head_close(start_line: &str, headers: &[(String, String)]) -> (out: Vec<u8>)
    ensures
        out@ == encode_utf8(
            crate::http::head_text(start_line@, closing(crate::http::headers_view(headers@))),
        ),
{
    let mut new_headers = copy_headers(headers);
    force_close(&mut new_headers);
    build_head(start_line, new_headers.as_slice())
}

// ---------------------------------------------------------------------------
// Answers that do not come from upstream
// ---------------------------------------------------------------------------

/// The standard reason phrase of a status code.
pub open spec fn reason_of(status: u16) -> Seq<char> {
    if status == 200 {
        "OK"@
    } else if status == 201 {
        "Created"@
    } else if status == 204 {
        "No Content"@
    } else if status == 301 {
        "Moved Permanently"@
    } else if status == 302 {
        "Found"@
    } else if status == 304 {
        "Not Modified"@
    } else if status == 400 {
        "Bad Request"@
    } else if status == 401 {
        "Unauthorized"@
    } else if status == 403 {
        "Forbidden"@
    } else if status == 404 {
        "Not Found"@
    } else if status == 405 {
        "Method Not Allowed"@
    } else if status == 418 {
        "I'm a Teapot"@
    } else if status == 429 {
        "Too Many Requests"@
    } else if status == 500 {
        "Internal Server Error"@
    } else if status == 502 {
        "Bad Gateway"@
    } else if status == 503 {
        "Service Unavailable"@
    } else if status == 504 {
        "Gateway Timeout"@
    } else {
        "Unknown"@
    }
}

/// The standard reason phrase of a status code.
pub fn http_reason(status: u16) -> (out: &'static str)
    ensures
        out@ == reason_of(status),
{
    match status {
        200 => "OK",
        201 => "Created",
        204 => "No Content",
        301 => "Moved Permanently",
        302 => "Found",
        304 => "Not Modified",
        400 => "Bad Request",
        401 => "Unauthorized",
        403 => "Forbidden",
        404 => "Not Found",
        405 => "Method Not Allowed",
        418 => "I'm a Teapot",
        429 => "Too Many Requests",
        500 => "Internal Server Error",
        502 => "Bad Gateway",
        503 => "Service Unavailable",
        504 => "Gateway Timeout",
        _ => "Unknown",
    }
}

/// The answer to a dropped request.
pub open spec fn dropped_reply() -> Seq<char> {
    "HTTP/1.1 502 Bad Gateway\r\nContent-Length: 0\r\nConnection: close\r\n\r\n"@
}

/// The start line of a mocked response.
pub open spec fn mock_line(status: u16) -> Seq<char> {
    "HTTP/1.1 "@ + crate::text::decimal(status as nat) + " "@ + reason_of(status)
}

/// The headers of a mocked response: the given ones, a length if they give
/// none, and `Connection: close`.
pub open spec fn mock_headers(headers: HeaderSeq, body_len: nat) -> HeaderSeq {
    let sized = if crate::http::value_of(headers, "content-length"@) is Some {
        headers
    } else {
        headers.push(("Content-Length"@, crate::text::decimal(body_len)))
    };
    sized.push(("Connection"@, "close"@))
}

/// The bytes of a mocked response.
pub open spec fn mock_reply(status: u16, headers: HeaderSeq, body: Seq<u8>) -> Seq<u8> {
    encode_utf8(crate::http::head_text(mock_line(status), mock_headers(headers, body.len()))) + body
}

/// The bytes of a mocked response.
pub fn mock_response(status: u16, headers: Vec<(String, String)>, body: Vec<u8>) -> (out: Vec<u8>)
    ensures
        out@ == mock_reply(status, crate::http::headers_view(headers@), body@),
{
    let mut line = "HTTP/1.1 ".to_string();
    line.append(decimal_text(status as u64).as_str());
    line.append(" ");
    line.append(http_reason(status));
    let mut mock_hdrs = headers;
    if !has_header(mock_hdrs.as_slice(), "content-length") {
        push_header(
            &mut mock_hdrs,
            "Content-Length",
            decimal_text(body.len() as u64).as_str(),
        );
    }
    push_header(&mut mock_hdrs, "Connection", "close");
    let mut out = build_head(line.as_str(), mock_hdrs.as_slice());
    out.extend_from_slice(body.as_slice());
    assert(out@ =~= mock_reply(status, crate::http::headers_view(headers@), body@));
    out
}

// ---------------------------------------------------------------------------
// The exchange
// ---------------------------------------------------------------------------

/// How the client's connection is protected.
#[derive(Debug, Clone, Copy, PartialEq, Eq, Structural)]
pub enum Scheme {
    Http,
    Https,
}

impl Scheme {
    /// The port that needs no mention.
    pub open spec fn port(self) -> u16 {
        match self {
            Scheme::Http => 80,
            Scheme::Https => 443,
        }
    }

    /// What a URL of this scheme starts with.
    pub open spec fn prefix(self) -> Seq<char> {
        match self {
            Scheme::Http => "http://"@,
            Scheme::Https => "https://"@,
        }
    }
}

/// A request that is about to be forwarded.
#[derive(Debug, Clone)]
pub struct Exchange {
    pub method: String,
    pub version: String,
    /// The host and port to connect to, for a request outside a tunnel.
    pub host: String,
    pub port: u16,
    pub target: String,
    pub url: String,
    pub headers: Vec<(String, String)>,
    /// How the client's body is delimited, which no script changes.
    pub framing: BodyKind,
}

/// What an [`Exchange`] holds.
pub struct ExchangeView {
    pub method: Seq<char>,
    pub version: Seq<char>,
    pub host: Seq<char>,
    pub port: u16,
    pub target: Seq<char>,
    pub url: Seq<char>,
    pub headers: HeaderSeq,
    pub framing: BodyKind,
}

impl View for Exchange {
    type V = ExchangeView;

    open spec fn view(&self) -> ExchangeView {
        ExchangeView {
            method: self.method@,
            version: self.version@,
            host: self.host@,
            port: self.port,
            target: self.target@,
            url: self.url@,
            headers: crate::http::headers_view(self.headers@),
            framing: self.framing,
        }
    }
}

/// A host and port as a `Host` field and a URL name them: the port is left out
/// if it is the scheme's own.
pub open spec fn host_field(scheme: Scheme, host: Seq<char>, port: u16) -> Seq<char> {
    if port == scheme.port() {
        host
    } else {
        host + ":"@ + crate::text::decimal(port as nat)
    }
}

/// The headers of a request as they are sent on: without the proxy's own
/// field, asking for the connection to be closed, and naming the host.
pub open spec fn forwarded_headers(
    headers: HeaderSeq,
    scheme: Scheme,
    host: Seq<char>,
    port: u16,
) -> HeaderSeq {
    let closed = closing(crate::http::without(headers, "proxy-connection"@));
    if crate::http::value_of(closed, "host"@) is Some {
        closed
    } else {
        closed.push(("Host"@, host_field(scheme, host, port)))
    }
}

/// A request as it is prepared for the scripts and for upstream. A `Host` field
/// without a port means `default_port`.
pub open spec fn exchange_of(
    request: RequestHeadView,
    scheme: Scheme,
    default_port: u16,
) -> Result<ExchangeView, HttpError> {
    match upstream_of(request, default_port) {
        Ok((host, port, target)) => Ok(
            ExchangeView {
                method: request.method,
                version: request.version,
                host,
                port,
                target,
                url: scheme.prefix() + host_field(scheme, host, port) + target,
                headers: forwarded_headers(request.headers, scheme, host, port),
                framing: crate::http::body_kind_of(request.headers),
            },
        ),
        Err(e) => Err(e),
    }
}

/// What the proxy does with a request once the scripts have decided.
pub enum Decision {
    /// Send these bytes to the client and forward nothing.
    Reply(Vec<u8>),
    /// Forward the request.
    Forward(Exchange),
}

/// What a [`Decision`] says.
pub enum DecisionView {
    Reply(Seq<u8>),
    Forward(ExchangeView),
}

impl View for Decision {
    type V = DecisionView;

    open spec fn view(&self) -> DecisionView {
        match *self {
            Decision::Reply(bytes) => DecisionView::Reply(bytes@),
            Decision::Forward(exchange) => DecisionView::Forward(exchange@),
        }
    }
}

/// What the proxy does with `exchange` when the scripts decide `action`.
pub open spec fn decision_of(exchange: ExchangeView, action: ActionView) -> DecisionView {
    match action {
        ActionView::Passthrough => DecisionView::Forward(exchange),
        ActionView::ModifyHeaders(headers) => DecisionView::Forward(
            ExchangeView { headers, ..exchange },
        ),
        ActionView::Drop => DecisionView::Reply(encode_utf8(dropped_reply())),
        ActionView::MockResponse { status, headers, body } => DecisionView::Reply(
            mock_reply(status, headers, body),
        ),
    }
}

impl ExchangeView {
    /// The head that is sent upstream.
    pub open spec fn head(self) -> Seq<char> {
        crate::http::head_text(
            self.method + " "@ + self.target + " "@ + self.version,
            self.headers,
        )
    }

    /// What is recorded of the request, with what was kept of its body.
    pub open spec fn recorded(self, body: Seq<u8>) -> RequestView {
        RequestView { method: self.method, url: self.url, headers: self.headers, body }
    }
}

impl Exchange {
    /// Prepares a request for the scripts and for upstream. A `Host` field
    /// without a port means `default_port`: that of the scheme, or of the tunnel
    /// that the request came through.
    pub fn prepare(request: &RequestHead, scheme: Scheme, default_port: u16) -> (r: Result<
        Exchange,
        HttpError,
    >)
        ensures
            match r {
                Ok(exchange) => exchange_of(request@, scheme, default_port) == Ok::<_, HttpError>(
                    exchange@,
                ),
                Err(e) => exchange_of(request@, scheme, default_port) == Err::<ExchangeView, _>(e),
            },
    {
        let (host, port, target, headers) = match resolve_upstream_at(request, default_port) {
            Ok(found) => found,
            Err(e) => return Err(e),
        };
        let framing = body_kind(headers.as_slice());
        let mut headers = headers;
        remove_header(&mut headers, "proxy-connection");
        force_close(&mut headers);
        let scheme_port: u16 = match scheme {
            Scheme::Http => 80,
            Scheme::Https => 443,
        };
        let mut named = host.clone();
        if port != scheme_port {
            named.append(":");
            named.append(decimal_text(port as u64).as_str());
        }
        if !has_header(headers.as_slice(), "host") {
            push_header(&mut headers, "Host", named.as_str());
        }
        let mut url = match scheme {
            Scheme::Http => "http://".to_string(),
            Scheme::Https => "https://".to_string(),
        };
        url.append(named.as_str());
        url.append(target.as_str());
        Ok(
            Exchange {
                method: request.method.clone(),
                version: request.version.clone(),
                host,
                port,
                target,
                url,
                headers,
                framing,
            },
        )
    }

    /// Asks the scripts about the request as it is about to be sent.
    pub fn consult(&self, engine: &ScriptEngine) -> (run: ScriptRun)
        ensures
            exists|outcomes: Seq<Outcome>|
                {
                    &&& #[trigger] possible(
                        engine@,
                        self@.url,
                        request_value(self@.method, self@.url, self@.headers),
                        outcomes,
                    )
                    &&& run@ == run_of(paths(engine@.scripts), outcomes)
                },
    {
        engine.evaluate(self.method.as_str(), self.url.as_str(), self.headers.as_slice())
    }

    /// What to do when the scripts decide `action`.
    pub fn decide(self, action: ScriptAction) -> (r: Decision)
        ensures
            r@ == decision_of(self@, action@),
    {
        match action {
            ScriptAction::Passthrough => Decision::Forward(self),
            ScriptAction::ModifyHeaders(headers) => {
                let mut exchange = self;
                exchange.headers = headers;
                Decision::Forward(exchange)
            },
            ScriptAction::Drop => Decision::Reply(
                slice_to_vec(
                    "HTTP/1.1 502 Bad Gateway\r\nContent-Length: 0\r\nConnection: close\r\n\r\n".as_bytes(),
                ),
            ),
            ScriptAction::MockResponse { status, headers, body } => Decision::Reply(
                mock_response(status, headers, body),
            ),
        }
    }

    /// The bytes of the head that is sent upstream.
    pub fn head_bytes(&self) -> (out: Vec<u8>)
        ensures
            out@ == encode_utf8(self@.head()),
    {
        let mut line = self.method.clone();
        line.append(" ");
        line.append(self.target.as_str());
        line.append(" ");
        line.append(self.version.as_str());
        build_head(line.as_str(), self.headers.as_slice())
    }

    /// How the body that follows the head is delimited: as the client's own
    /// headers say, whatever a script made of them.
    pub fn body(&self) -> (kind: BodyKind)
        ensures
            kind == self@.framing,
    {
        self.framing
    }

    /// Records the request as it was sent, with what was kept of its body.
    pub fn sent(self, body: BodyRelay) -> (r: Pending)
        ensures
            r.transaction@.request == self@.recorded(body@.kept),
            r.transaction@.request.body.len() <= CAPTURE_LIMIT,
            r.transaction@.response is None,
            r.transaction@.duration_ms is None,
            crate::transaction::is_version_4(r.transaction@.id),
            r.transaction@.timestamp.seconds >= 0,
            r.transaction@.timestamp.nanos < 1_000_000_000,
    {
        Pending {
            transaction: Transaction::new(
                RequestData {
                    method: self.method,
                    url: self.url,
                    headers: self.headers,
                    body: body.into_kept(),
                },
            ),
        }
    }
}

/// An exchange whose request was sent and whose response is awaited.
pub struct Pending {
    pub transaction: Transaction,
}

/// An exchange whose response is being handed to the client.
pub struct Answering {
    pub transaction: Transaction,
    /// The bytes of the head that the client gets.
    pub head: Vec<u8>,
    /// How the body that follows the head is delimited.
    pub body: BodyKind,
    pub status: u16,
    pub headers: Vec<(String, String)>,
}

/// How the body of a response is delimited. The answer to a `HEAD` request and
/// a status that never has a body have none; a body that is neither measured
/// nor chunked goes on until the stream ends.
pub open spec fn answer_framing(method: Seq<char>, status: u16, headers: HeaderSeq) -> BodyKind {
    if crate::text::same_fold(method, "HEAD"@) || crate::http::bodyless(status) {
        BodyKind::Empty
    } else {
        match crate::http::body_kind_of(headers) {
            BodyKind::Empty => BodyKind::UntilClose,
            kind => kind,
        }
    }
}

fn has_no_body(status: u16) -> (r: bool)
    ensures
        r == crate::http::bodyless(status),
{
    (100 <= status && status < 200) || status == 204 || status == 304
}

impl Pending {
    /// Takes in the head of the response.
    pub fn answered(self, response: ResponseHead) -> (r: Answering)
        ensures
            r.transaction@ == self.transaction@,
            r.head@ == encode_utf8(
                crate::http::head_text(response@.start_line, closing(response@.headers)),
            ),
            r.body == answer_framing(
                self.transaction@.request.method,
                response@.status_code,
                response@.headers,
            ),
            r.status == response@.status_code,
            crate::http::headers_view(r.headers@) == response@.headers,
    {
        let head = rewrite_response_head_close(
            response.start_line.as_str(),
            response.headers.as_slice(),
        );
        let body = if eq_fold(self.transaction.request.method.as_str(), "HEAD") {
            BodyKind::Empty
        } else {
            match response_body_kind(response.status_code, response.headers.as_slice()) {
                BodyKind::Empty => if has_no_body(response.status_code) {
                    BodyKind::Empty
                } else {
                    BodyKind::UntilClose
                },
                kind => kind,
            }
        };
        Answering {
            transaction: self.transaction,
            head,
            body,
            status: response.status_code,
            headers: response.headers,
        }
    }
}

impl Answering {
    /// Completes the record: the response as the upstream sent it, with what
    /// was kept of its body, and how long the exchange took.
    pub fn finish(self, body: BodyRelay, duration_ms: u64) -> (tx: Transaction)
        ensures
            tx@.id == self.transaction@.id,
            tx@.timestamp == self.transaction@.timestamp,
            tx@.request == self.transaction@.request,
            tx@.response == Some(
                ResponseView {
                    status: self.status,
                    headers: crate::http::headers_view(self.headers@),
                    body: body@.kept,
                },
            ),
            body@.kept.len() <= CAPTURE_LIMIT,
            tx@.duration_ms == Some(duration_ms),
    {
        let mut tx = self.transaction;
        tx.response = Some(
            ResponseData { status: self.status, headers: self.headers, body: body.into_kept() },
        );
        tx.duration_ms = Some(duration_ms);
        tx
    }
}

// ---------------------------------------------------------------------------
// Bytes that were read ahead
// ---------------------------------------------------------------------------

/// Bytes that were read before the stream they belong to was handed on. They
/// are replayed first.
pub struct Prefix {
    buffer: Vec<u8>,
    offset: usize,
}

impl View for Prefix {
    type V = Seq<u8>;

    /// The bytes that are still to be replayed.
    closed spec fn view(&self) -> Seq<u8> {
        self.buffer@.skip(self.offset as int)
    }
}

impl Prefix {
    #[verifier::type_invariant]
    closed spec fn inv(self) -> bool {
        self.offset <= self.buffer@.len()
    }

    /// All of `buffer` is still to be replayed.
    pub fn new(buffer: Vec<u8>) -> (r: Prefix)
        ensures
            r@ == buffer@,
    {
        let r = Prefix { buffer, offset: 0 };
        assert(r@ =~= buffer@);
        r
    }

    /// The next bytes, at most `room` of them, and what is left; nothing once
    /// all were replayed.
    pub fn replay(self, room: usize) -> (r: (Prefix, Option<Vec<u8>>))
        ensures
            match r.1 {
                Some(bytes) => {
                    &&& self@.len() > 0
                    &&& bytes@.len() == if room < self@.len() {
                        room as nat
                    } else {
                        self@.len()
                    }
                    &&& bytes@ + r.0@ == self@
                },
                None => self@.len() == 0 && r.0@ == self@,
            },
    {
        proof {
            use_type_invariant(&self);
        }
        let len: usize = self.buffer.len();
        if self.offset < len {
            let remaining: usize = len - self.offset;
            let count: usize = if room < remaining {
                room
            } else {
                remaining
            };
            let end: usize = self.offset + count;
            let bytes = slice_to_vec(slice_subrange(self.buffer.as_slice(), self.offset, end));
            let ghost before = self@;
            let rest = Prefix { buffer: self.buffer, offset: end };
            assert(bytes@ + rest@ =~= before);
            (rest, Some(bytes))
        } else {
            (self, None)
        }
    }
}

// ---------------------------------------------------------------------------
// Laws
// ---------------------------------------------------------------------------

/// The fields called `name`, up to ASCII case.
pub open spec fn called(headers: HeaderSeq, name: Seq<char>) -> HeaderSeq {
    headers.filter(|h: (Seq<char>, Seq<char>)| crate::text::same_fold(h.0, name))
}

pub(crate) proof fn lemma_value_of_push(headers: HeaderSeq, h: (Seq<char>, Seq<char>), name: Seq<char>)
    ensures
        crate::http::value_of(headers.push(h), name) == match crate::http::value_of(
            headers,
            name,
        ) {
            Some(v) => Some(v),
            None => if crate::text::same_fold(h.0, name) {
                Some(h.1)
            } else {
                None
            },
        },
    decreases headers.len(),
{
    let all = headers.push(h);
    if headers.len() == 0 {
        assert(all[0] == h);
        assert(crate::http::value_of(all.skip(1), name) is None);
    } else {
        lemma_value_of_push(headers.skip(1), h, name);
        assert(all.skip(1) =~= headers.skip(1).push(h));
        assert(all[0] == headers[0]);
    }
}

pub(crate) proof fn lemma_called_push(headers: HeaderSeq, h: (Seq<char>, Seq<char>), name: Seq<char>)
    ensures
        called(headers.push(h), name) == if crate::text::same_fold(h.0, name) {
            called(headers, name).push(h)
        } else {
            called(headers, name)
        },
{
    reveal(Seq::filter);
    assert(headers.push(h).drop_last() =~= headers);
    assert(headers.push(h).last() == h);
}

pub(crate) proof fn lemma_none_called(headers: HeaderSeq, name: Seq<char>)
    requires
        crate::http::value_of(headers, name) is None,
    ensures
        called(headers, name) == Seq::<(Seq<char>, Seq<char>)>::empty(),
    decreases headers.len(),
{
    reveal(Seq::filter);
    if headers.len() > 0 {
        let last = headers.last();
        let rest = headers.drop_last();
        assert(headers =~= rest.push(last));
        lemma_value_of_push(rest, last, name);
        lemma_none_called(rest, name);
    } else {
        assert(called(headers, name) =~= Seq::empty());
    }
}

pub(crate) proof fn lemma_names()
    ensures
        crate::text::same_fold("Connection"@, "connection"@),
        crate::text::same_fold("Host"@, "host"@),
        crate::text::same_fold("Content-Length"@, "content-length"@),
        !crate::text::same_fold("Connection"@, "keep-alive"@),
        !crate::text::same_fold("Connection"@, "proxy-connection"@),
        !crate::text::same_fold("Connection"@, "host"@),
        !crate::text::same_fold("Connection"@, "content-length"@),
        !crate::text::same_fold("Host"@, "connection"@),
        !crate::text::same_fold("Host"@, "keep-alive"@),
        !crate::text::same_fold("Host"@, "proxy-connection"@),
        !crate::text::same_fold("connection"@, "keep-alive"@),
        !crate::text::same_fold("proxy-connection"@, "connection"@),
        !crate::text::same_fold("proxy-connection"@, "keep-alive"@),
{
    reveal_strlit("Connection");
    reveal_strlit("connection");
    reveal_strlit("Host");
    reveal_strlit("host");
    reveal_strlit("Content-Length");
    reveal_strlit("content-length");
    reveal_strlit("keep-alive");
    reveal_strlit("proxy-connection");
    assert(crate::text::lower("Connection"@) =~= crate::text::lower("connection"@));
    assert(crate::text::lower("Host"@) =~= crate::text::lower("host"@));
    assert(crate::text::lower("Content-Length"@) =~= crate::text::lower("content-length"@));
    assert(crate::text::lower("Connection"@)[0] == 'c');
    assert(crate::text::lower("connection"@)[0] == 'c');
    assert(crate::text::lower("keep-alive"@)[0] == 'k');
    assert(crate::text::lower("Connection"@).len() == 10);
    assert(crate::text::lower("proxy-connection"@).len() == 16);
    assert(crate::text::lower("host"@).len() == 4);
    assert(crate::text::lower("Host"@).len() == 4);
    assert(crate::text::lower("content-length"@).len() == 14);
}

/// A header list that was made to close the connection says so once, does not
/// speak of keeping it, and has every other field as it was.
pub proof fn closing_is_exact(headers: HeaderSeq, other: Seq<char>)
    requires
        !crate::text::same_fold(other, "connection"@),
        !crate::text::same_fold(other, "keep-alive"@),
    ensures
        called(closing(headers), "connection"@) == seq![("Connection"@, "close"@)],
        crate::http::value_of(closing(headers), "connection"@) == Some("close"@),
        crate::http::value_of(closing(headers), "keep-alive"@) is None,
        crate::http::value_of(closing(headers), other) == crate::http::value_of(headers, other),
{
    lemma_names();
    let h = ("Connection"@, "close"@);
    let a = crate::http::without(headers, "connection"@);
    let b = crate::http::without(a, "keep-alive"@);
    crate::http::removal_is_exact(headers, "connection"@, other);
    crate::http::removal_is_exact(a, "keep-alive"@, other);
    crate::http::removal_is_exact(a, "keep-alive"@, "connection"@);
    lemma_value_of_push(b, h, "connection"@);
    lemma_value_of_push(b, h, "keep-alive"@);
    lemma_value_of_push(b, h, other);
    lemma_none_called(b, "connection"@);
    lemma_called_push(b, h, "connection"@);
    assert(closing(headers) == b.push(h));
    assert(Seq::<(Seq<char>, Seq<char>)>::empty().push(h) =~= seq![h]);
}

/// A request is sent on with `Connection: close` once, without `Keep-Alive` and
/// without `Proxy-Connection`; it names its host, the one that the client named
/// if it did; and every other field is as it was.
pub proof fn forwarding_is_exact(
    headers: HeaderSeq,
    scheme: Scheme,
    host: Seq<char>,
    port: u16,
    other: Seq<char>,
)
    requires
        !crate::text::same_fold(other, "connection"@),
        !crate::text::same_fold(other, "keep-alive"@),
        !crate::text::same_fold(other, "proxy-connection"@),
        !crate::text::same_fold(other, "host"@),
    ensures
        ({
            let sent = forwarded_headers(headers, scheme, host, port);
            &&& called(sent, "connection"@) == seq![("Connection"@, "close"@)]
            &&& crate::http::value_of(sent, "keep-alive"@) is None
            &&& crate::http::value_of(sent, "proxy-connection"@) is None
            &&& crate::http::value_of(sent, "host"@) == match crate::http::value_of(
                headers,
                "host"@,
            ) {
                Some(value) => Some(value),
                None => Some(host_field(scheme, host, port)),
            }
            &&& crate::http::value_of(sent, other) == crate::http::value_of(headers, other)
        }),
{
    lemma_names();
    let plain = crate::http::without(headers, "proxy-connection"@);
    let closed = closing(plain);
    let h = ("Host"@, host_field(scheme, host, port));
    assert(!crate::text::same_fold("host"@, "connection"@));
    assert(!crate::text::same_fold("host"@, "keep-alive"@));
    assert(!crate::text::same_fold("host"@, "proxy-connection"@));
    crate::http::removal_is_exact(headers, "proxy-connection"@, other);
    crate::http::removal_is_exact(headers, "proxy-connection"@, "host"@);
    closing_is_exact(plain, other);
    closing_is_exact(plain, "host"@);
    closing_is_exact(plain, "proxy-connection"@);
    lemma_called_push(closed, h, "connection"@);
    lemma_value_of_push(closed, h, "keep-alive"@);
    lemma_value_of_push(closed, h, "proxy-connection"@);
    lemma_value_of_push(closed, h, "host"@);
    lemma_value_of_push(closed, h, other);
    assert(!crate::text::same_fold("Host"@, other)) by {
        assert(crate::text::lower("Host"@) == crate::text::lower("host"@));
    }
}

/// A mocked response says how long it is: as the script said, else the length
/// of its body. Its last field closes the connection, and the script's own
/// fields come first.
pub proof fn mocked_response_is_sized(headers: HeaderSeq, body_len: nat)
    ensures
        ({
            let sent = mock_headers(headers, body_len);
            &&& crate::http::value_of(sent, "content-length"@) == match crate::http::value_of(
                headers,
                "content-length"@,
            ) {
                Some(value) => Some(value),
                None => Some(crate::text::decimal(body_len)),
            }
            &&& sent.last() == ("Connection"@, "close"@)
            &&& headers.is_prefix_of(sent)
        }),
{
    lemma_names();
    let h = ("Content-Length"@, crate::text::decimal(body_len));
    let close = ("Connection"@, "close"@);
    lemma_value_of_push(headers, h, "content-length"@);
    lemma_value_of_push(headers.push(h), close, "content-length"@);
    lemma_value_of_push(headers, close, "content-length"@);
}

/// A dropped request is answered with a complete response of status 502 and no
/// body.
pub proof fn dropped_reply_is_bad_gateway()
    ensures
        dropped_reply() == crate::http::head_text(
            "HTTP/1.1 502 Bad Gateway"@,
            seq![("Content-Length"@, "0"@), ("Connection"@, "close"@)],
        ),
{
    reveal_strlit("HTTP/1.1 502 Bad Gateway\r\nContent-Length: 0\r\nConnection: close\r\n\r\n");
    reveal_strlit("HTTP/1.1 502 Bad Gateway");
    reveal_strlit("Content-Length");
    reveal_strlit("Connection");
    reveal_strlit("close");
    reveal_strlit("0");
    reveal_strlit(": ");
    reveal_strlit("\r\n");
    let a = ("Content-Length"@, "0"@);
    let b = ("Connection"@, "close"@);
    let all = seq![a, b];
    assert(all.skip(1) =~= seq![b]);
    assert(seq![b].skip(1) =~= Seq::empty());
    reveal_with_fuel(crate::http::header_lines, 3);
    assert(crate::http::header_lines(all) =~= crate::http::header_line(a)
        + crate::http::header_line(b));
    assert(dropped_reply() =~= crate::http::head_text("HTTP/1.1 502 Bad Gateway"@, all));
}

/// A request that is dropped or mocked is not forwarded; every other one is,
/// and a script can change nothing of it but its headers: its body is relayed as
/// the client delimited it.
pub proof fn scripts_change_headers_only(exchange: ExchangeView, action: ActionView)
    ensures
        match decision_of(exchange, action) {
            DecisionView::Reply(_) => action is Drop || action is MockResponse,
            DecisionView::Forward(sent) => {
                &&& !(action is Drop) && !(action is MockResponse)
                &&& sent.method == exchange.method
                &&& sent.version == exchange.version
                &&& sent.host == exchange.host
                &&& sent.port == exchange.port
                &&& sent.target == exchange.target
                &&& sent.url == exchange.url
                &&& sent.framing == exchange.framing
                &&& sent.headers == match action {
                    ActionView::ModifyHeaders(headers) => headers,
                    _ => exchange.headers,
                }
            },
        },
{
}

/// The URL that scripts and records see is the scheme, the host with its port
/// unless that is the scheme's own, and the target; and the body is delimited as
/// the client said.
pub proof fn url_names_the_target(request: RequestHeadView, scheme: Scheme, default_port: u16)
    ensures
        match exchange_of(request, scheme, default_port) {
            Ok(exchange) => {
                &&& exchange.url == scheme.prefix() + host_field(
                    scheme,
                    exchange.host,
                    exchange.port,
                ) + exchange.target
                &&& exchange.framing == crate::http::body_kind_of(request.headers)
            },
            Err(e) => e == HttpError::MissingHost
                && crate::http::absolute_target(request.target) is None
                && crate::http::value_of(request.headers, "host"@) is None,
        },
{
}

/// A response of a status with a body, to a request other than `HEAD`, is handed
/// on whole: by its length, by its chunks, or until the stream ends.
pub proof fn answers_are_delimited(method: Seq<char>, status: u16, headers: HeaderSeq)
    requires
        !crate::text::same_fold(method, "HEAD"@),
        !crate::http::bodyless(status),
    ensures
        !(answer_framing(method, status, headers) is Empty),
        !(crate::http::body_kind_of(headers) is Empty) ==> answer_framing(method, status, headers)
            == crate::http::body_kind_of(headers),
{
}

} // verus!
