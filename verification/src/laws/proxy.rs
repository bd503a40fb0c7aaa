//! What holds of a proxied exchange: where a request goes, what is sent on, and
//! what answers it.

use vstd::prelude::*;
use vstd::utf8::{decode_utf8, encode_utf8};

use crate::head::plain_field;
use crate::http::{
    absolute_target, authority_of, head_text, host_port, path_of, value_of, without, BodyKind,
    HeaderSeq, HttpError, RequestHeadView,
};
use crate::laws::http::{
    fields_delimit_the_body, heads_are_written_line_by_line, none_called, says_chunked,
    status_lines_hold_the_status,
};
use crate::laws::text::{
    all_space, decimal_counts_by_tens, is_word, lemma_numeral, numeral,
    trimming_removes_outer_whitespace,
};
use crate::proxy::{
    answer_framing, closing, decision_of, exchange_of, forwarded_headers, host_field, mock_headers,
    mock_line, mock_reply, reason_of, tunnel_reply, DecisionView, ExchangeView, Scheme,
};
use crate::replay::{head_end, replay_headers, response_of, response_reads_back};
use crate::script::action::ActionView;
use crate::text::{is_space, parse_number, same_fold, starts_with, trim};
use crate::transaction::ResponseView;

verus! {

// ---------------------------------------------------------------------------
// Where a request goes
// ---------------------------------------------------------------------------

/// A host with its port, or without if the port is `own`.
pub open spec fn named(host: Seq<char>, port: u16, own: u16) -> Seq<char> {
    if port == own {
        host
    } else {
        host + seq![':'] + numeral(port as nat, 10, false)
    }
}

/// A URL of a scheme.
pub open spec fn url_at(scheme: Scheme, host: Seq<char>, port: u16, target: Seq<char>) -> Seq<
    char,
> {
    match scheme {
        Scheme::Http => "http://"@ + named(host, port, 80) + target,
        Scheme::Https => "https://"@ + named(host, port, 443) + target,
    }
}

proof fn lemma_named(scheme: Scheme, host: Seq<char>, port: u16, target: Seq<char>)
    ensures
        host_field(scheme, host, port) == named(
            host,
            port,
            match scheme {
                Scheme::Http => 80,
                Scheme::Https => 443,
            },
        ),
        scheme.prefix() + host_field(scheme, host, port) + target == url_at(
            scheme,
            host,
            port,
            target,
        ),
{
    reveal_strlit(":");
    decimal_counts_by_tens(port as nat);
    assert(":"@ =~= seq![':']);
}

/// The head that is sent upstream starts with the method, the target and the
/// version, with a space between each, and then has every field of the exchange.
pub proof fn upstream_heads_are_written_whole(exchange: ExchangeView)
    ensures
        ({
            let line = exchange.method + seq![' '] + exchange.target + seq![' ']
                + exchange.version;
            &&& exchange.head() == head_text(line, exchange.headers)
            &&& exchange.head().take(line.len() as int) == line
            &&& exchange.head().subrange(line.len() as int, line.len() as int + 2) == seq![
                '\r',
                '\n',
            ]
        }),
{
    reveal_strlit(" ");
    assert(" "@ =~= seq![' ']);
    let line = exchange.method + seq![' '] + exchange.target + seq![' '] + exchange.version;
    heads_are_written_line_by_line(line, exchange.headers, (line, line));
}

/// A request whose target is no URL goes to the host that it names, and its
/// target is not changed by a character: the head that is sent upstream starts
/// with the client's own method, target and version. Without a `Host` field it
/// goes nowhere.
pub proof fn targets_are_sent_as_they_stand(
    request: RequestHeadView,
    scheme: Scheme,
    default_port: u16,
)
    requires
        !starts_with(request.target, "http://"@),
        !starts_with(request.target, "https://"@),
    ensures
        match value_of(request.headers, "host"@) {
            Some(value) => {
                let (host, port) = host_port(value, default_port);
                let line = request.method + seq![' '] + request.target + seq![' ']
                    + request.version;
                &&& exchange_of(request, scheme, default_port) matches Ok(exchange)
                &&& exchange.target == request.target
                &&& exchange.method == request.method
                &&& exchange.version == request.version
                &&& exchange.host == host
                &&& exchange.port == port
                &&& exchange.url == url_at(scheme, host, port, request.target)
                &&& exchange.head().take(line.len() as int) == line
                &&& exchange.head().subrange(line.len() as int, line.len() as int + 2) == seq![
                    '\r',
                    '\n',
                ]
            },
            None => exchange_of(request, scheme, default_port) == Err::<ExchangeView, HttpError>(
                HttpError::MissingHost,
            ),
        },
{
    if let Some(value) = value_of(request.headers, "host"@) {
        let (host, port) = host_port(value, default_port);
        lemma_named(scheme, host, port, request.target);
        let exchange = exchange_of(request, scheme, default_port).unwrap();
        upstream_heads_are_written_whole(exchange);
    }
}

/// A request whose target is a URL goes to the host of that URL, whatever its
/// `Host` field says, and what it asks for there is the path of the URL with all
/// that follows it, or `/` if the URL ends at its host.
pub proof fn urls_are_taken_apart(
    request: RequestHeadView,
    secure: bool,
    authority: Seq<char>,
    path: Seq<char>,
    scheme: Scheme,
    default_port: u16,
)
    requires
        !authority.contains('/'),
        path.len() > 0 ==> path[0] == '/',
        request.target == (if secure {
            "https://"@
        } else {
            "http://"@
        }) + authority + path,
    ensures
        ({
            let target = if path.len() == 0 {
                seq!['/']
            } else {
                path
            };
            let (host, port) = host_port(
                authority,
                if secure {
                    443
                } else {
                    80
                },
            );
            let line = request.method + seq![' '] + target + seq![' '] + request.version;
            &&& exchange_of(request, scheme, default_port) matches Ok(exchange)
            &&& exchange.target == target
            &&& exchange.method == request.method
            &&& exchange.version == request.version
            &&& exchange.host == host
            &&& exchange.port == port
            &&& exchange.url == url_at(scheme, host, port, target)
            &&& exchange.head().take(line.len() as int) == line
            &&& exchange.head().subrange(line.len() as int, line.len() as int + 2) == seq![
                '\r',
                '\n',
            ]
        }),
{
    reveal_strlit("http://");
    reveal_strlit("https://");
    reveal_strlit("/");
    assert("/"@ =~= seq!['/']);
    let prefix = if secure {
        "https://"@
    } else {
        "http://"@
    };
    let rest = authority + path;
    assert(request.target =~= prefix + rest);
    assert(request.target.take(prefix.len() as int) =~= prefix);
    assert(request.target.skip(prefix.len() as int) =~= rest);
    if secure {
        assert(request.target.take(7)[4] == 's');
        assert("http://"@[4] == ':');
    }
    lemma_parts(authority, path);
    let target = if path.len() == 0 {
        seq!['/']
    } else {
        path
    };
    assert(absolute_target(request.target) is Some);
    let exchange = exchange_of(request, scheme, default_port).unwrap();
    lemma_named(scheme, exchange.host, exchange.port, target);
    upstream_heads_are_written_whole(exchange);
}

/// What follows the scheme of a URL is its authority, up to the first slash, and
/// its path from there on.
pub(crate) proof fn lemma_parts(authority: Seq<char>, path: Seq<char>)
    requires
        !authority.contains('/'),
        path.len() > 0 ==> path[0] == '/',
    ensures
        authority_of(authority + path) == authority,
        path_of(authority + path) == if path.len() == 0 {
            seq!['/']
        } else {
            path
        },
{
    reveal_strlit("/");
    assert("/"@ =~= seq!['/']);
    let rest = authority + path;
    let n = authority.len() as int;
    if path.len() == 0 {
        assert(rest =~= authority);
        crate::text::lemma_find(rest, '/');
    } else {
        assert(rest[n] == '/');
        assert forall|j: int| 0 <= j < n implies rest[j] != '/' by {
            assert(rest[j] == authority[j]);
            assert(authority.contains(authority[j]));
        }
        crate::text::lemma_find_is(rest, '/', n);
        assert(rest.take(n) =~= authority);
        assert(rest.skip(n) =~= path);
    }
}

// ---------------------------------------------------------------------------
// Which fields are sent on
// ---------------------------------------------------------------------------

pub(crate) proof fn lemma_filter_twice(
    headers: HeaderSeq,
    p: spec_fn((Seq<char>, Seq<char>)) -> bool,
    q: spec_fn((Seq<char>, Seq<char>)) -> bool,
)
    ensures
        headers.filter(p).filter(q) == headers.filter(
            |h: (Seq<char>, Seq<char>)| p(h) && q(h),
        ),
    decreases headers.len(),
{
    reveal(Seq::filter);
    let both = |h: (Seq<char>, Seq<char>)| p(h) && q(h);
    if headers.len() == 0 {
        assert(headers.filter(p).filter(q) =~= headers.filter(both));
    } else {
        let rest = headers.drop_last();
        let last = headers.last();
        lemma_filter_twice(rest, p, q);
        if p(last) {
            assert(headers.filter(p) == rest.filter(p).push(last));
            assert(rest.filter(p).push(last).drop_last() =~= rest.filter(p));
            assert(rest.filter(p).push(last).last() == last);
        }
        assert(headers.filter(p).filter(q) =~= headers.filter(both));
    }
}

pub(crate) proof fn lemma_filter_same(
    headers: HeaderSeq,
    p: spec_fn((Seq<char>, Seq<char>)) -> bool,
    q: spec_fn((Seq<char>, Seq<char>)) -> bool,
)
    requires
        forall|h: (Seq<char>, Seq<char>)| #[trigger] p(h) == q(h),
    ensures
        headers.filter(p) == headers.filter(q),
    decreases headers.len(),
{
    reveal(Seq::filter);
    if headers.len() > 0 {
        lemma_filter_same(headers.drop_last(), p, q);
        assert(p(headers.last()) == q(headers.last()));
    }
    assert(headers.filter(p) =~= headers.filter(q));
}

/// A field that speaks of one connection only.
pub open spec fn of_connection(h: (Seq<char>, Seq<char>)) -> bool {
    same_fold(h.0, "connection"@) || same_fold(h.0, "keep-alive"@)
}

/// A list is made to close the connection by taking out the fields that speak of
/// it and saying so at the end; no other field is lost, changed or moved, however
/// often it occurs. A request that is sent again keeps its `Keep-Alive` fields.
pub proof fn closing_keeps_every_other_field(headers: HeaderSeq)
    ensures
        closing(headers) == headers.filter(|h: (Seq<char>, Seq<char>)| !of_connection(h)) + seq![
            ("Connection"@, "close"@),
        ],
        replay_headers(headers) == headers.filter(
            |h: (Seq<char>, Seq<char>)| !same_fold(h.0, "connection"@),
        ) + seq![("Connection"@, "close"@)],
{
    let p = |h: (Seq<char>, Seq<char>)| !same_fold(h.0, "connection"@);
    let q = |h: (Seq<char>, Seq<char>)| !same_fold(h.0, "keep-alive"@);
    let r = |h: (Seq<char>, Seq<char>)| !of_connection(h);
    lemma_filter_twice(headers, p, q);
    lemma_filter_same(headers, |h: (Seq<char>, Seq<char>)| p(h) && q(h), r);
    assert(without(headers, "connection"@) == headers.filter(p));
    assert(without(headers.filter(p), "keep-alive"@) == headers.filter(p).filter(q));
    assert(closing(headers) =~= headers.filter(r) + seq![("Connection"@, "close"@)]);
    assert(replay_headers(headers) =~= headers.filter(p) + seq![("Connection"@, "close"@)]);
}

proof fn lemma_value_of_none(headers: HeaderSeq, name: Seq<char>)
    ensures
        value_of(headers, name) is None <==> none_called(headers, name),
    decreases headers.len(),
{
    if headers.len() > 0 {
        let rest = headers.skip(1);
        lemma_value_of_none(rest, name);
        if none_called(headers, name) {
            assert(!same_fold(headers[0].0, name));
            assert forall|i: int| 0 <= i < rest.len() implies !same_fold(
                (#[trigger] rest[i]).0,
                name,
            ) by {
                assert(rest[i] == headers[i + 1]);
            }
        }
        if value_of(headers, name) is None {
            assert forall|i: int| 0 <= i < headers.len() implies !same_fold(
                (#[trigger] headers[i]).0,
                name,
            ) by {
                if i > 0 {
                    assert(headers[i] == rest[i - 1]);
                }
            }
        }
    }
}

/// A request is sent on with every field of the client, in order, but those that
/// speak of one connection; then it asks for the connection to be closed, and
/// then it names its host if the client did not.
pub proof fn forwarding_keeps_every_other_field(
    headers: HeaderSeq,
    scheme: Scheme,
    host: Seq<char>,
    port: u16,
)
    ensures
        forwarded_headers(headers, scheme, host, port) == headers.filter(
            |h: (Seq<char>, Seq<char>)|
                !of_connection(h) && !same_fold(h.0, "proxy-connection"@),
        ) + seq![("Connection"@, "close"@)] + (if none_called(headers, "host"@) {
            seq![
                (
                    "Host"@,
                    named(
                        host,
                        port,
                        match scheme {
                            Scheme::Http => 80,
                            Scheme::Https => 443,
                        },
                    ),
                ),
            ]
        } else {
            seq![]
        }),
{
    let p = |h: (Seq<char>, Seq<char>)| !same_fold(h.0, "proxy-connection"@);
    let q = |h: (Seq<char>, Seq<char>)| !of_connection(h);
    let r = |h: (Seq<char>, Seq<char>)| !of_connection(h) && !same_fold(h.0, "proxy-connection"@);
    let plain = without(headers, "proxy-connection"@);
    assert(plain == headers.filter(p));
    closing_keeps_every_other_field(plain);
    lemma_filter_twice(headers, p, q);
    lemma_filter_same(headers, |h: (Seq<char>, Seq<char>)| p(h) && q(h), r);
    lemma_named(scheme, host, port, host);
    lemma_value_of_none(headers, "host"@);
    crate::proxy::lemma_names();
    crate::http::removal_is_exact(headers, "proxy-connection"@, "host"@);
    crate::proxy::closing_is_exact(plain, "host"@);
    assert(forwarded_headers(headers, scheme, host, port) =~= headers.filter(r) + seq![
        ("Connection"@, "close"@),
    ] + (if none_called(headers, "host"@) {
        seq![("Host"@, host_field(scheme, host, port))]
    } else {
        seq![]
    }));
}

/// What is sent on and recorded is what was prepared: the fields as forwarding
/// leaves them, the body as the client delimits it, and a record of the method,
/// the URL, those fields and the body that was kept.
pub proof fn exchanges_are_sent_and_recorded_whole(
    request: RequestHeadView,
    scheme: Scheme,
    default_port: u16,
    body: Seq<u8>,
)
    ensures
        exchange_of(request, scheme, default_port) matches Ok(exchange) ==> {
            &&& exchange.headers == forwarded_headers(
                request.headers,
                scheme,
                exchange.host,
                exchange.port,
            )
            &&& exchange.framing is Chunked <==> says_chunked(request.headers)
            &&& exchange.framing == crate::http::body_kind_of(request.headers)
            &&& exchange.recorded(body).method == request.method
            &&& exchange.recorded(body).url == exchange.url
            &&& exchange.recorded(body).headers == exchange.headers
            &&& exchange.recorded(body).body == body
        },
{
    fields_delimit_the_body(request.headers, 0, Seq::empty(), Seq::empty(), Seq::empty());
}

// ---------------------------------------------------------------------------
// Answers that do not come from upstream
// ---------------------------------------------------------------------------

/// The reason phrase that goes with a status code.
pub proof fn reasons_are_standard(status: u16)
    ensures
        status == 200 ==> reason_of(status) == "OK"@,
        status == 201 ==> reason_of(status) == "Created"@,
        status == 204 ==> reason_of(status) == "No Content"@,
        status == 301 ==> reason_of(status) == "Moved Permanently"@,
        status == 302 ==> reason_of(status) == "Found"@,
        status == 304 ==> reason_of(status) == "Not Modified"@,
        status == 400 ==> reason_of(status) == "Bad Request"@,
        status == 401 ==> reason_of(status) == "Unauthorized"@,
        status == 403 ==> reason_of(status) == "Forbidden"@,
        status == 404 ==> reason_of(status) == "Not Found"@,
        status == 405 ==> reason_of(status) == "Method Not Allowed"@,
        status == 418 ==> reason_of(status) == "I'm a Teapot"@,
        status == 429 ==> reason_of(status) == "Too Many Requests"@,
        status == 500 ==> reason_of(status) == "Internal Server Error"@,
        status == 502 ==> reason_of(status) == "Bad Gateway"@,
        status == 503 ==> reason_of(status) == "Service Unavailable"@,
        status == 504 ==> reason_of(status) == "Gateway Timeout"@,
        !(seq![
            200u16,
            201u16,
            204u16,
            301u16,
            302u16,
            304u16,
            400u16,
            401u16,
            403u16,
            404u16,
            405u16,
            418u16,
            429u16,
            500u16,
            502u16,
            503u16,
            504u16,
        ].contains(status)) ==> reason_of(status) == "Unknown"@,
{
    let known = seq![
        200u16,
        201u16,
        204u16,
        301u16,
        302u16,
        304u16,
        400u16,
        401u16,
        403u16,
        404u16,
        405u16,
        418u16,
        429u16,
        500u16,
        502u16,
        503u16,
        504u16,
    ];
    assert(known[0] == 200 && known[1] == 201 && known[2] == 204 && known[3] == 301);
    assert(known[4] == 302 && known[5] == 304 && known[6] == 400 && known[7] == 401);
    assert(known[8] == 403 && known[9] == 404 && known[10] == 405 && known[11] == 418);
    assert(known[12] == 429 && known[13] == 500 && known[14] == 502 && known[15] == 503);
    assert(known[16] == 504);
}

proof fn lemma_reason(status: u16)
    ensures
        !reason_of(status).contains('\n'),
        reason_of(status).len() > 0,
        reason_of(status).last() != '\r',
{
    reveal_strlit("OK");
    reveal_strlit("Created");
    reveal_strlit("No Content");
    reveal_strlit("Moved Permanently");
    reveal_strlit("Found");
    reveal_strlit("Not Modified");
    reveal_strlit("Bad Request");
    reveal_strlit("Unauthorized");
    reveal_strlit("Forbidden");
    reveal_strlit("Not Found");
    reveal_strlit("Method Not Allowed");
    reveal_strlit("I'm a Teapot");
    reveal_strlit("Too Many Requests");
    reveal_strlit("Internal Server Error");
    reveal_strlit("Bad Gateway");
    reveal_strlit("Service Unavailable");
    reveal_strlit("Gateway Timeout");
    reveal_strlit("Unknown");
}

/// The fields of a mocked response as they are sent.
pub open spec fn sent_fields(headers: HeaderSeq, body_len: nat) -> HeaderSeq {
    headers + (if none_called(headers, "content-length"@) {
        seq![("Content-Length"@, numeral(body_len, 10, false))]
    } else {
        seq![]
    }) + seq![("Connection"@, "close"@)]
}

proof fn lemma_sent_fields(headers: HeaderSeq, body_len: nat)
    ensures
        mock_headers(headers, body_len) == sent_fields(headers, body_len),
{
    lemma_value_of_none(headers, "content-length"@);
    decimal_counts_by_tens(body_len);
    assert(mock_headers(headers, body_len) =~= sent_fields(headers, body_len));
}

/// A mocked response has the script's fields, in order, a length if they give
/// none, and a line that closes the connection. For every status its start line
/// names that status, and its bytes end in every byte of the script's body.
pub proof fn mocked_bodies_are_sent_whole(status: u16, headers: HeaderSeq, body: Seq<u8>)
    ensures
        ({
            let raw = mock_reply(status, headers, body);
            let n = raw.len() - body.len();
            let line = "HTTP/1.1 "@ + numeral(status as nat, 10, false) + seq![' '] + reason_of(
                status,
            );
            &&& n >= 0
            &&& raw.skip(n) == body
            &&& raw.take(n) == encode_utf8(head_text(line, sent_fields(headers, body.len())))
        }),
{
    reveal_strlit(" ");
    assert(" "@ =~= seq![' ']);
    decimal_counts_by_tens(status as nat);
    lemma_sent_fields(headers, body.len());
    let raw = mock_reply(status, headers, body);
    let n = raw.len() - body.len();
    assert(raw.skip(n) =~= body);
    assert(raw.take(n) =~= encode_utf8(
        head_text(mock_line(status), mock_headers(headers, body.len())),
    ));
}

proof fn lemma_plain(name: Seq<char>, value: Seq<char>)
    requires
        forall|i: int|
            0 <= i < name.len() ==> (#[trigger] name[i]) != '\n' && name[i] != ':' && !is_space(
                name[i],
            ),
        forall|i: int| 0 <= i < value.len() ==> (#[trigger] value[i]) != '\n' && !is_space(value[i]),
    ensures
        plain_field((name, value)),
{
    let none = Seq::<char>::empty();
    trimming_removes_outer_whitespace(none, name, none);
    trimming_removes_outer_whitespace(none, value, none);
    assert(none + name + none =~= name);
    assert(none + value + none =~= value);
}

proof fn lemma_mock_line(status: u16)
    ensures
        crate::head::plain_start(mock_line(status)),
        crate::http::status_code_of(mock_line(status)) == status,
{
    let digits = numeral(status as nat, 10, false);
    let space = seq![' '];
    decimal_counts_by_tens(status as nat);
    lemma_numeral(status as nat, 10, false);
    lemma_reason(status);
    reveal_strlit(" ");
    reveal_strlit("HTTP/1.1 ");
    assert(" "@ =~= space);
    let version = "HTTP/1.1 "@.drop_last();
    assert("HTTP/1.1 "@ =~= version + space);
    assert(is_word(version));
    assert(all_space(space));
    status_lines_hold_the_status(version, status as nat, version, space, reason_of(status));
    let line = mock_line(status);
    assert(line =~= version + space + digits + space + reason_of(status));
    assert(line.last() == reason_of(status).last());
    if line.contains('\n') {
        let k = choose|k: int| 0 <= k < line.len() && line[k] == '\n';
        let d = 9 + digits.len() as int;
        if 9 <= k < d {
            assert(line[k] == digits[k - 9]);
        } else if k > d {
            assert(line[k] == reason_of(status)[k - d - 1]);
            assert(reason_of(status).contains(line[k]));
        }
    }
}

/// A mocked response reads back: for every status and body, whoever gets its
/// bytes finds that status, the script's fields with those that were added, and
/// exactly that body.
pub proof fn mocked_responses_read_back(status: u16, headers: HeaderSeq, body: Seq<u8>)
    requires
        forall|i: int| 0 <= i < headers.len() ==> plain_field(#[trigger] headers[i]),
    ensures
        ({
            let raw = mock_reply(status, headers, body);
            let head = raw.take(head_end(raw) as int);
            &&& vstd::utf8::valid_utf8(head)
            &&& response_of(raw, decode_utf8(head)) == (ResponseView {
                status,
                headers: sent_fields(headers, body.len()),
                body,
            })
        }),
{
    let line = mock_line(status);
    let sent = sent_fields(headers, body.len());
    lemma_sent_fields(headers, body.len());
    lemma_mock_line(status);
    lemma_numeral(body.len(), 10, false);
    reveal_strlit("Content-Length");
    reveal_strlit("Connection");
    reveal_strlit("close");
    lemma_plain("Content-Length"@, numeral(body.len(), 10, false));
    lemma_plain("Connection"@, "close"@);
    assert forall|i: int| 0 <= i < sent.len() implies plain_field(#[trigger] sent[i]) by {
        if i < headers.len() {
            assert(sent[i] == headers[i]);
        }
    }
    response_reads_back(line, sent, body);
}

/// What the proxy answers in place of upstream: a dropped request gets a complete
/// response of status 502 without a body, a mocked one the script's response, a
/// tunnel a head of status 200 without fields. Every other request is forwarded
/// as it was prepared, but for the fields that a script gives it.
pub proof fn decisions_follow_the_action(
    exchange: ExchangeView,
    status: u16,
    headers: HeaderSeq,
    body: Seq<u8>,
)
    ensures
        decision_of(exchange, ActionView::Passthrough) == DecisionView::Forward(exchange),
        decision_of(exchange, ActionView::ModifyHeaders(headers)) == DecisionView::Forward(
            ExchangeView {
                method: exchange.method,
                version: exchange.version,
                host: exchange.host,
                port: exchange.port,
                target: exchange.target,
                url: exchange.url,
                headers,
                framing: exchange.framing,
            },
        ),
        decision_of(exchange, ActionView::Drop) == DecisionView::Reply(
            encode_utf8(
                head_text(
                    "HTTP/1.1 502 Bad Gateway"@,
                    seq![("Content-Length"@, "0"@), ("Connection"@, "close"@)],
                ),
            ),
        ),
        decision_of(exchange, ActionView::MockResponse { status, headers, body })
            == DecisionView::Reply(
            encode_utf8(
                head_text(
                    "HTTP/1.1 "@ + numeral(status as nat, 10, false) + seq![' '] + reason_of(status),
                    sent_fields(headers, body.len()),
                ),
            ) + body,
        ),
        tunnel_reply() == head_text("HTTP/1.1 200 Connection Established"@, Seq::empty()),
{
    crate::proxy::dropped_reply_is_bad_gateway();
    mocked_bodies_are_sent_whole(status, headers, body);
    let raw = mock_reply(status, headers, body);
    let n = raw.len() - body.len();
    assert(raw =~= raw.take(n) + raw.skip(n));
    let line = "HTTP/1.1 200 Connection Established"@;
    reveal_strlit("HTTP/1.1 200 Connection Established");
    reveal_strlit("HTTP/1.1 200 Connection Established\r\n\r\n");
    heads_are_written_line_by_line(line, Seq::empty(), (line, line));
    assert(tunnel_reply() =~= line + seq!['\r', '\n', '\r', '\n']);
}

// ---------------------------------------------------------------------------
// Answers from upstream
// ---------------------------------------------------------------------------

/// The body of an answer is read as the answer says: none for a `HEAD` request or
/// a status that has none; else in chunks if it says so, else as many bytes as it
/// says, else until the stream ends.
pub proof fn answers_are_read_as_they_say(
    method: Seq<char>,
    status: u16,
    headers: HeaderSeq,
    n: nat,
    a: Seq<char>,
    b: Seq<char>,
    v: Seq<char>,
)
    requires
        n <= u64::MAX,
        all_space(a),
        all_space(b),
    ensures
        ({
            let none = same_fold(method, "HEAD"@) || status / 100 == 1 || status == 204 || status
                == 304;
            let framing = answer_framing(method, status, headers);
            let length = value_of(headers, "content-length"@);
            &&& framing == BodyKind::Empty <==> none
            &&& !none ==> (framing == BodyKind::Chunked <==> says_chunked(headers))
            &&& !none && !says_chunked(headers) && length == Some(a + numeral(n, 10, false) + b)
                ==> framing == BodyKind::ContentLength(n as u64)
            &&& !none && !says_chunked(headers) && length == Some(v) && parse_number(
                trim(v),
                10,
                u64::MAX as nat,
            ) == Some(n) ==> framing == BodyKind::ContentLength(n as u64)
            &&& !none && !says_chunked(headers) && length is None ==> framing
                == BodyKind::UntilClose
            &&& !none && !says_chunked(headers) && length == Some(v) && parse_number(
                trim(v),
                10,
                u64::MAX as nat,
            ) is None ==> framing == BodyKind::UntilClose
        }),
{
    fields_delimit_the_body(headers, n, a, b, v);
}

} // verus!
