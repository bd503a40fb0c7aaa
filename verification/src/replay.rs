//! Sending a recorded request again, and comparing what comes back.

use vstd::prelude::*;
use vstd::slice::{slice_subrange, slice_to_vec};
use vstd::utf8::encode_utf8;

use crate::head::split_field;
use crate::http::{
    build_head, copy_headers, parse_status_code, push_header, remove_header, split_colon,
    split_path, strip_prefix, HeaderSeq,
};
use crate::text::{chars_of, decimal_text, lines_exec, same_text, text_of, utf8_lossy};
use crate::transaction::{RequestView, ResponseData, ResponseView, Transaction, TransactionView};

verus! {

// ---------------------------------------------------------------------------
// What is sent
// ---------------------------------------------------------------------------

/// A request that is about to be sent again.
#[derive(Debug, Clone)]
pub struct Plan {
    /// Whether the connection is protected.
    pub secure: bool,
    pub host: String,
    pub port: u16,
    /// The bytes of the head.
    pub head: Vec<u8>,
    /// The bytes that follow the head.
    pub body: Vec<u8>,
}

/// What a [`Plan`] holds.
pub struct PlanView {
    pub secure: bool,
    pub host: Seq<char>,
    pub port: u16,
    pub head: Seq<u8>,
    pub body: Seq<u8>,
}

impl View for Plan {
    type V = PlanView;

    open spec fn view(&self) -> PlanView {
        PlanView {
            secure: self.secure,
            host: self.host@,
            port: self.port,
            head: self.head@,
            body: self.body@,
        }
    }
}

/// The headers of a request that is sent again: as recorded, except that the
/// connection is to be closed, so that the response ends where the stream does.
pub open spec fn replay_headers(headers: HeaderSeq) -> HeaderSeq {
    crate::http::without(headers, "connection"@).push(("Connection"@, "close"@))
}

/// The plan for what follows the scheme of the recorded URL.
pub open spec fn plan_for(request: RequestView, secure: bool, rest: Seq<char>) -> PlanView {
    let (host, port) = crate::http::split_last_colon(
        crate::http::authority_of(rest),
        if secure {
            443
        } else {
            80
        },
    );
    PlanView {
        secure,
        host,
        port,
        head: encode_utf8(
            crate::http::head_text(
                request.method + " "@ + crate::http::path_of(rest) + " HTTP/1.1"@,
                replay_headers(request.headers),
            ),
        ),
        body: request.body,
    }
}

/// The plan for a recorded request; none if its URL is not an HTTP one.
pub open spec fn plan_of(request: RequestView) -> Option<PlanView> {
    if crate::text::starts_with(request.url, "https://"@) {
        Some(plan_for(request, true, request.url.skip("https://"@.len() as int)))
    } else if crate::text::starts_with(request.url, "http://"@) {
        Some(plan_for(request, false, request.url.skip("http://"@.len() as int)))
    } else {
        None
    }
}

/// Prepares to send the request of `original` again. The error is the text
/// shown for a URL that is not an HTTP one.
pub fn plan(original: &Transaction) -> (r: Result<Plan, String>)
    ensures
        match r {
            Ok(p) => plan_of(original@.request) == Some(p@),
            Err(e) => plan_of(original@.request) is None && e@ == "Cannot parse URL: "@
                + original@.request.url,
        },
{
    let url = chars_of(original.request.url.as_str());
    let secure: bool;
    let rest;
    if let Some(stripped) = strip_prefix(url.as_slice(), "https://") {
        secure = true;
        rest = stripped;
    } else if let Some(stripped) = strip_prefix(url.as_slice(), "http://") {
        secure = false;
        rest = stripped;
    } else {
        let mut e = "Cannot parse URL: ".to_string();
        e.append(original.request.url.as_str());
        return Err(e);
    }
    let (authority, path) = split_path(rest);
    let default_port: u16 = if secure {
        443
    } else {
        80
    };
    let (host, port) = split_colon(chars_of(authority.as_str()).as_slice(), default_port);
    let mut line = original.request.method.clone();
    line.append(" ");
    line.append(path.as_str());
    line.append(" HTTP/1.1");
    let mut headers = copy_headers(original.request.headers.as_slice());
    remove_header(&mut headers, "connection");
    push_header(&mut headers, "Connection", "close");
    let head = build_head(line.as_str(), headers.as_slice());
    let body = slice_to_vec(original.request.body.as_slice());
    Ok(Plan { secure, host, port, head, body })
}

// ---------------------------------------------------------------------------
// What comes back
// ---------------------------------------------------------------------------

/// Where the head of a response ends: behind its first empty line, or where
/// the response ends if it has none.
pub open spec fn head_end(raw: Seq<u8>) -> nat
    decreases raw.len(),
{
    if raw.len() < 4 {
        raw.len()
    } else if raw.take(4) == seq![13u8, 10u8, 13u8, 10u8] {
        4
    } else {
        1 + head_end(raw.skip(1))
    }
}

/// The field that a line denotes: the trimmed texts before and after its first
/// colon; none if it has no colon.
pub open spec fn line_field(line: Seq<char>) -> HeaderSeq {
    match crate::text::find(line, ':') {
        Some(i) => seq![(crate::text::trim(line.take(i)), crate::text::trim(line.skip(i + 1)))],
        None => seq![],
    }
}

/// The fields that lines denote, in order.
pub open spec fn line_fields(lines: Seq<Seq<char>>) -> HeaderSeq
    decreases lines.len(),
{
    if lines.len() == 0 {
        seq![]
    } else {
        line_field(lines[0]) + line_fields(lines.skip(1))
    }
}

/// The status and the fields of a head.
pub open spec fn head_of(head: Seq<char>) -> (u16, HeaderSeq) {
    let lines = crate::text::lines(head);
    if lines.len() == 0 {
        (0, seq![])
    } else {
        (crate::http::status_code_of(lines[0]), line_fields(lines.skip(1)))
    }
}

/// The response that `raw` holds, whose head reads `head`.
pub open spec fn response_of(raw: Seq<u8>, head: Seq<char>) -> ResponseView {
    ResponseView {
        status: head_of(head).0,
        headers: head_of(head).1,
        body: raw.skip(head_end(raw) as int),
    }
}

fn find_head_end(raw: &[u8]) -> (end: usize)
    ensures
        end == head_end(raw@),
        end <= raw@.len(),
{
    let len: usize = raw.len();
    let mut i: usize = 0;
    assert(raw@.skip(0) =~= raw@);
    while len - i >= 4
        invariant
            len == raw@.len(),
            i <= len,
            head_end(raw@) == i + head_end(raw@.skip(i as int)),
        decreases len - i,
    {
        let ghost rest = raw@.skip(i as int);
        if raw[i] == 13 && raw[i + 1] == 10 && raw[i + 2] == 13 && raw[i + 3] == 10 {
            assert(rest.take(4) =~= seq![13u8, 10u8, 13u8, 10u8]);
            return i + 4;
        }
        proof {
            assert(rest.take(4)[0] == raw@[i as int]);
            assert(rest.take(4)[1] == raw@[i as int + 1]);
            assert(rest.take(4)[2] == raw@[i as int + 2]);
            assert(rest.take(4)[3] == raw@[i as int + 3]);
            let mark = seq![13u8, 10u8, 13u8, 10u8];
            assert(mark[0] == 13 && mark[1] == 10 && mark[2] == 13 && mark[3] == 10);
            assert(rest.take(4) != mark);
            assert(rest.skip(1) =~= raw@.skip(i as int + 1));
        }
        i += 1;
    }
    len
}

/// Reads the status and the fields of a head.
pub fn parse_head(head: &str) -> (r: (u16, Vec<(String, String)>))
    ensures
        (r.0, crate::http::headers_view(r.1@)) == head_of(head@),
{
    let lines = lines_exec(chars_of(head).as_slice());
    let ghost all = crate::text::lines(head@);
    let mut headers: Vec<(String, String)> = Vec::new();
    if lines.len() == 0 {
        assert(crate::http::headers_view(headers@) =~= seq![]);
        return (0, headers);
    }
    assert(crate::text::char_views(lines@)[0] == all[0]);
    let status: u16 = parse_status_code(text_of(lines[0].as_slice()).as_str());
    let mut i: usize = 1;
    proof {
        assert(crate::http::headers_view(headers@) + line_fields(all.skip(1)) =~= line_fields(
            all.skip(1),
        ));
    }
    while i < lines.len()
        invariant
            1 <= i <= lines@.len(),
            all == crate::text::char_views(lines@),
            line_fields(all.skip(1)) == crate::http::headers_view(headers@) + line_fields(
                all.skip(i as int),
            ),
        decreases lines@.len() - i,
    {
        let ghost before = crate::http::headers_view(headers@);
        proof {
            assert(all.skip(i as int)[0] == all[i as int]);
            assert(all[i as int] == lines@[i as int]@);
            assert(all.skip(i as int).skip(1) =~= all.skip(i as int + 1));
        }
        if let Some(h) = split_field(lines[i].as_slice()) {
            headers.push(h);
            assert(crate::http::headers_view(headers@) =~= before + line_field(all[i as int]));
        } else {
            assert(crate::http::headers_view(headers@) =~= before + line_field(all[i as int]));
        }
        assert(before + (line_field(all[i as int]) + line_fields(all.skip(i as int + 1)))
            =~= crate::http::headers_view(headers@) + line_fields(all.skip(i as int + 1)));
        i += 1;
    }
    proof {
        assert(all.skip(i as int).len() == 0);
        assert(crate::http::headers_view(headers@) + line_fields(all.skip(i as int))
            =~= crate::http::headers_view(headers@));
    }
    (status, headers)
}

/// Reads a whole response. What is not UTF-8 in its head is replaced.
pub fn parse_response(raw: &[u8]) -> (r: ResponseData)
    ensures
        ({
            let head = raw@.take(head_end(raw@) as int);
            &&& r@ == response_of(raw@, crate::text::lossy_text(head))
            &&& vstd::utf8::valid_utf8(head) ==> crate::text::lossy_text(head)
                == vstd::utf8::decode_utf8(head)
        }),
{
    let end: usize = find_head_end(raw);
    let section = slice_subrange(raw, 0, end);
    assert(section@ =~= raw@.take(end as int));
    let head = utf8_lossy(section);
    let (status, headers) = parse_head(head.as_str());
    let tail = slice_subrange(raw, end, raw.len());
    assert(tail@ =~= raw@.skip(end as int));
    let body = slice_to_vec(tail);
    ResponseData { status, headers, body }
}

// ---------------------------------------------------------------------------
// Comparison
// ---------------------------------------------------------------------------

/// A line-by-line comparison: lines that are the same on both sides stand once.
pub open spec fn compared(a: Seq<Seq<char>>, b: Seq<Seq<char>>) -> Seq<Seq<char>>
    decreases a.len() + b.len(),
{
    if a.len() > 0 && b.len() > 0 {
        (if a[0] == b[0] {
            seq!["    "@ + a[0]]
        } else {
            seq!["  - "@ + a[0], "  + "@ + b[0]]
        }) + compared(a.skip(1), b.skip(1))
    } else if a.len() > 0 {
        seq!["  - "@ + a[0]] + compared(a.skip(1), b)
    } else if b.len() > 0 {
        seq!["  + "@ + b[0]] + compared(a, b.skip(1))
    } else {
        seq![]
    }
}

/// The comparison of two bodies.
pub open spec fn diff_of(original: Seq<char>, replayed: Seq<char>) -> Seq<Seq<char>> {
    if original == replayed {
        seq!["  (responses are identical)"@]
    } else {
        compared(crate::text::lines(original), crate::text::lines(replayed))
    }
}

fn marked(mark: &str, line: &[char]) -> (out: String)
    ensures
        out@ == mark@ + line@,
{
    let mut out = mark.to_string();
    out.append(text_of(line).as_str());
    out
}

/// The lines of a line-by-line comparison of two bodies.
pub fn diff(original: &str, replayed: &str) -> (out: Vec<String>)
    ensures
        crate::text::texts(out@) == diff_of(original@, replayed@),
{
    let mut out: Vec<String> = Vec::new();
    let x = chars_of(original);
    let y = chars_of(replayed);
    if same_text(original, replayed) {
        out.push("  (responses are identical)".to_string());
        assert(crate::text::texts(out@) =~= diff_of(original@, replayed@));
        return out;
    }
    let xs = lines_exec(x.as_slice());
    let ys = lines_exec(y.as_slice());
    let ghost a = crate::text::char_views(xs@);
    let ghost b = crate::text::char_views(ys@);
    let mut i: usize = 0;
    proof {
        assert(a.skip(0) =~= a);
        assert(b.skip(0) =~= b);
        assert(crate::text::texts(out@) + compared(a, b) =~= compared(a, b));
    }
    while i < xs.len() && i < ys.len()
        invariant
            a == crate::text::char_views(xs@),
            b == crate::text::char_views(ys@),
            i <= xs@.len(),
            i <= ys@.len(),
            compared(a, b) == crate::text::texts(out@) + compared(a.skip(i as int), b.skip(i as int)),
        decreases xs@.len() - i,
    {
        let ghost before = crate::text::texts(out@);
        let ghost ra = a.skip(i as int);
        let ghost rb = b.skip(i as int);
        proof {
            assert(ra[0] == xs@[i as int]@);
            assert(rb[0] == ys@[i as int]@);
            assert(ra.skip(1) =~= a.skip(i as int + 1));
            assert(rb.skip(1) =~= b.skip(i as int + 1));
        }
        let o = text_of(xs[i].as_slice());
        let n = text_of(ys[i].as_slice());
        if same_text(o.as_str(), n.as_str()) {
            out.push(marked("    ", xs[i].as_slice()));
            assert(crate::text::texts(out@) =~= before + seq!["    "@ + ra[0]]);
        } else {
            out.push(marked("  - ", xs[i].as_slice()));
            out.push(marked("  + ", ys[i].as_slice()));
            assert(crate::text::texts(out@) =~= before + seq!["  - "@ + ra[0], "  + "@ + rb[0]]);
        }
        assert(compared(a, b) =~= crate::text::texts(out@) + compared(ra.skip(1), rb.skip(1)));
        i += 1;
    }
    let mut j: usize = i;
    while j < xs.len()
        invariant
            a == crate::text::char_views(xs@),
            b == crate::text::char_views(ys@),
            i <= j <= xs@.len(),
            i <= ys@.len(),
            i == ys@.len() || j == xs@.len(),
            compared(a, b) == crate::text::texts(out@) + compared(a.skip(j as int), b.skip(i as int)),
        decreases xs@.len() - j,
    {
        let ghost before = crate::text::texts(out@);
        let ghost ra = a.skip(j as int);
        let ghost rb = b.skip(i as int);
        proof {
            assert(ra[0] == xs@[j as int]@);
            assert(ra.skip(1) =~= a.skip(j as int + 1));
        }
        out.push(marked("  - ", xs[j].as_slice()));
        assert(crate::text::texts(out@) =~= before + seq!["  - "@ + ra[0]]);
        assert(compared(a, b) =~= crate::text::texts(out@) + compared(ra.skip(1), rb));
        j += 1;
    }
    while i < ys.len()
        invariant
            a == crate::text::char_views(xs@),
            b == crate::text::char_views(ys@),
            j == xs@.len(),
            i <= ys@.len(),
            compared(a, b) == crate::text::texts(out@) + compared(a.skip(j as int), b.skip(i as int)),
        decreases ys@.len() - i,
    {
        let ghost before = crate::text::texts(out@);
        let ghost ra = a.skip(j as int);
        let ghost rb = b.skip(i as int);
        proof {
            assert(rb[0] == ys@[i as int]@);
            assert(rb.skip(1) =~= b.skip(i as int + 1));
        }
        out.push(marked("  + ", ys[i].as_slice()));
        assert(crate::text::texts(out@) =~= before + seq!["  + "@ + rb[0]]);
        assert(compared(a, b) =~= crate::text::texts(out@) + compared(ra, rb.skip(1)));
        i += 1;
    }
    assert(compared(a.skip(j as int), b.skip(i as int)) =~= seq![]);
    assert(crate::text::texts(out@) =~= compared(a, b));
    out
}

// ---------------------------------------------------------------------------
// The printed report
// ---------------------------------------------------------------------------

/// The lines printed before a request is sent again.
pub open spec fn announcement(original: TransactionView) -> Seq<Seq<char>> {
    seq![
        "━━━ Replaying transaction "@ + crate::transaction::id_text(original.id) + " ━━━"@,
        "  "@ + original.request.method + " "@ + original.request.url,
        ""@,
    ]
}

/// The lines printed before a request is sent again.
pub fn announce(original: &Transaction) -> (out: Vec<String>)
    ensures
        crate::text::texts(out@) == announcement(original@),
{
    let mut title = "━━━ Replaying transaction ".to_string();
    title.append(original.id.to_text().as_str());
    title.append(" ━━━");
    let mut request = "  ".to_string();
    request.append(original.request.method.as_str());
    request.append(" ");
    request.append(original.request.url.as_str());
    let mut out: Vec<String> = Vec::new();
    out.push(title);
    out.push(request);
    out.push("".to_string());
    assert(crate::text::texts(out@) =~= announcement(original@));
    out
}

/// The lines printed for header fields.
pub open spec fn field_lines(headers: HeaderSeq) -> Seq<Seq<char>> {
    headers.map_values(|h: (Seq<char>, Seq<char>)| "    "@ + h.0 + ": "@ + h.1)
}

/// The lines printed for a response whose body reads `body`.
pub open spec fn response_lines(
    response: ResponseView,
    duration_ms: u64,
    body: Seq<char>,
) -> Seq<Seq<char>> {
    seq![
        "━━━ New Response ━━━"@,
        "  Status  : "@ + crate::text::decimal(response.status as nat),
        "  Duration: "@ + crate::text::decimal(duration_ms as nat) + " ms"@,
        "  Headers :"@,
    ] + field_lines(response.headers) + (if response.body.len() == 0 {
        seq![]
    } else {
        seq!["  Body ("@ + crate::text::decimal(response.body.len()) + " bytes):"@, body]
    })
}

/// The lines that compare the recorded body, if there is one, with `replayed`.
pub open spec fn comparison_lines(original: Option<Seq<char>>, replayed: Seq<char>) -> Seq<
    Seq<char>,
> {
    match original {
        Some(body) => seq![""@, "━━━ Diff (original vs replayed body) ━━━"@] + diff_of(
            body,
            replayed,
        ),
        None => seq!["(original response not recorded — no diff available)"@],
    }
}

/// The lines printed for a response. `body` is the text of its body, `original`
/// that of the recorded one; with `show_diff` the two are compared.
pub fn report_lines(
    response: &ResponseData,
    duration_ms: u64,
    body: &str,
    original: Option<&str>,
    show_diff: bool,
) -> (out: Vec<String>)
    ensures
        crate::text::texts(out@) == response_lines(response@, duration_ms, body@) + (if show_diff {
            comparison_lines(
                match original {
                    Some(text) => Some(text@),
                    None => None,
                },
                body@,
            )
        } else {
            seq![]
        }),
{
    let mut out: Vec<String> = Vec::new();
    let mut status = "  Status  : ".to_string();
    status.append(decimal_text(response.status as u64).as_str());
    let mut duration = "  Duration: ".to_string();
    duration.append(decimal_text(duration_ms).as_str());
    duration.append(" ms");
    out.push("━━━ New Response ━━━".to_string());
    out.push(status);
    out.push(duration);
    out.push("  Headers :".to_string());
    let ghost first = crate::text::texts(out@);
    let ghost rows = field_lines(response@.headers);
    let mut i: usize = 0;
    assert(crate::text::texts(out@) =~= first + rows.take(0));
    while i < response.headers.len()
        invariant
            i <= response.headers@.len(),
            rows == field_lines(response@.headers),
            crate::text::texts(out@) == first + rows.take(i as int),
        decreases response.headers@.len() - i,
    {
        let ghost before = crate::text::texts(out@);
        let mut row = "    ".to_string();
        row.append(response.headers[i].0.as_str());
        row.append(": ");
        row.append(response.headers[i].1.as_str());
        assert(row@ == rows[i as int]);
        out.push(row);
        proof {
            assert(crate::text::texts(out@) =~= before.push(rows[i as int]));
            assert(first + rows.take(i as int + 1) =~= (first + rows.take(i as int)).push(
                rows[i as int],
            ));
        }
        i += 1;
    }
    assert(rows.take(i as int) =~= rows);
    let ghost sofar = crate::text::texts(out@);
    if response.body.len() > 0 {
        let mut size = "  Body (".to_string();
        size.append(decimal_text(response.body.len() as u64).as_str());
        size.append(" bytes):");
        out.push(size);
        out.push(body.to_string());
        assert(crate::text::texts(out@) =~= sofar + seq![
            "  Body ("@ + crate::text::decimal(response@.body.len()) + " bytes):"@,
            body@,
        ]);
    }
    assert(first =~= response_lines(response@, duration_ms, body@).take(4));
    assert(crate::text::texts(out@) =~= response_lines(response@, duration_ms, body@));
    if show_diff {
        let ghost before = crate::text::texts(out@);
        match original {
            Some(text) => {
                out.push("".to_string());
                out.push("━━━ Diff (original vs replayed body) ━━━".to_string());
                let mut lines = diff(text, body);
                let ghost added = crate::text::texts(lines@);
                let ghost sofar = crate::text::texts(out@);
                out.append(&mut lines);
                assert(crate::text::texts(out@) =~= sofar + added);
                assert(crate::text::texts(out@) =~= before + comparison_lines(Some(text@), body@));
            },
            None => {
                out.push("(original response not recorded — no diff available)".to_string());
                assert(crate::text::texts(out@) =~= before + comparison_lines(None, body@));
            },
        }
    } else {
        assert(crate::text::texts(out@) + seq![] =~= crate::text::texts(out@));
    }
    out
}

/// The lines printed for the response to a request that was sent again.
pub fn report(
    original: &Transaction,
    response: &ResponseData,
    duration_ms: u64,
    show_diff: bool,
) -> (out: Vec<String>)
    ensures
        ({
            let body = crate::text::lossy_text(response@.body);
            crate::text::texts(out@) == response_lines(response@, duration_ms, body) + (
            if show_diff {
                comparison_lines(
                    match original@.response {
                        Some(r) => Some(crate::text::lossy_text(r.body)),
                        None => None,
                    },
                    body,
                )
            } else {
                seq![]
            })
        }),
{
    let body = utf8_lossy(response.body.as_slice());
    match &original.response {
        Some(r) => {
            let text = utf8_lossy(r.body.as_slice());
            report_lines(response, duration_ms, body.as_str(), Some(text.as_str()), show_diff)
        },
        None => report_lines(response, duration_ms, body.as_str(), None, show_diff),
    }
}

// ---------------------------------------------------------------------------
// Laws
// ---------------------------------------------------------------------------

/// The lines of a comparison that belong to one side: those that stand on both
/// sides and those with that side's mark, without their margin.
pub open spec fn side(lines: Seq<Seq<char>>, mark: char) -> Seq<Seq<char>>
    decreases lines.len(),
{
    if lines.len() == 0 {
        seq![]
    } else {
        (if lines[0][2] == ' ' || lines[0][2] == mark {
            seq![lines[0].skip(4)]
        } else {
            seq![]
        }) + side(lines.skip(1), mark)
    }
}

proof fn lemma_side_add(a: Seq<Seq<char>>, b: Seq<Seq<char>>, mark: char)
    ensures
        side(a + b, mark) == side(a, mark) + side(b, mark),
    decreases a.len(),
{
    if a.len() == 0 {
        assert(a + b =~= b);
        assert(side(a, mark) + side(b, mark) =~= side(b, mark));
    } else {
        assert((a + b)[0] == a[0]);
        assert((a + b).skip(1) =~= a.skip(1) + b);
        lemma_side_add(a.skip(1), b, mark);
        assert(side(a + b, mark) =~= side(a, mark) + side(b, mark));
    }
}

proof fn lemma_side_one(text: Seq<char>, margin: Seq<char>, mark: char)
    requires
        margin.len() == 4,
    ensures
        side(seq![margin + text], mark) == if margin[2] == ' ' || margin[2] == mark {
            seq![text]
        } else {
            Seq::<Seq<char>>::empty()
        },
{
    let lines = seq![margin + text];
    assert(lines.skip(1) =~= Seq::empty());
    assert(lines[0][2] == margin[2]);
    assert((margin + text).skip(4) =~= text);
    assert(side(lines.skip(1), mark) =~= Seq::empty());
    assert(side(lines, mark) =~= if margin[2] == ' ' || margin[2] == mark {
        seq![text]
    } else {
        Seq::<Seq<char>>::empty()
    });
}

/// A comparison shows all lines of both sides, in order: without the lines
/// marked `+` it is the original, without those marked `-` the replayed text.
pub proof fn comparison_shows_both_sides(a: Seq<Seq<char>>, b: Seq<Seq<char>>)
    ensures
        side(compared(a, b), '-') == a,
        side(compared(a, b), '+') == b,
    decreases a.len() + b.len(),
{
    reveal_strlit("    ");
    reveal_strlit("  - ");
    reveal_strlit("  + ");
    if a.len() > 0 && b.len() > 0 {
        let (ra, rb) = (a.skip(1), b.skip(1));
        comparison_shows_both_sides(ra, rb);
        if a[0] == b[0] {
            let one = seq!["    "@ + a[0]];
            lemma_side_one(a[0], "    "@, '-');
            lemma_side_one(a[0], "    "@, '+');
            lemma_side_add(one, compared(ra, rb), '-');
            lemma_side_add(one, compared(ra, rb), '+');
        } else {
            let x = seq!["  - "@ + a[0]];
            let y = seq!["  + "@ + b[0]];
            lemma_side_one(a[0], "  - "@, '-');
            lemma_side_one(a[0], "  - "@, '+');
            lemma_side_one(b[0], "  + "@, '-');
            lemma_side_one(b[0], "  + "@, '+');
            lemma_side_add(x, y, '-');
            lemma_side_add(x, y, '+');
            assert(seq!["  - "@ + a[0], "  + "@ + b[0]] =~= x + y);
            lemma_side_add(x + y, compared(ra, rb), '-');
            lemma_side_add(x + y, compared(ra, rb), '+');
        }
        assert(seq![a[0]] + ra =~= a);
        assert(seq![b[0]] + rb =~= b);
        assert(side(compared(a, b), '-') =~= a);
        assert(side(compared(a, b), '+') =~= b);
    } else if a.len() > 0 {
        comparison_shows_both_sides(a.skip(1), b);
        let x = seq!["  - "@ + a[0]];
        lemma_side_one(a[0], "  - "@, '-');
        lemma_side_one(a[0], "  - "@, '+');
        lemma_side_add(x, compared(a.skip(1), b), '-');
        lemma_side_add(x, compared(a.skip(1), b), '+');
        assert(side(compared(a, b), '-') =~= a);
        assert(side(compared(a, b), '+') =~= b);
    } else if b.len() > 0 {
        comparison_shows_both_sides(a, b.skip(1));
        let y = seq!["  + "@ + b[0]];
        lemma_side_one(b[0], "  + "@, '-');
        lemma_side_one(b[0], "  + "@, '+');
        lemma_side_add(y, compared(a, b.skip(1)), '-');
        lemma_side_add(y, compared(a, b.skip(1)), '+');
        assert(side(compared(a, b), '-') =~= a);
        assert(side(compared(a, b), '+') =~= b);
    } else {
        assert(side(compared(a, b), '-') =~= a);
        assert(side(compared(a, b), '+') =~= b);
    }
}

proof fn lemma_margins(a: Seq<Seq<char>>, b: Seq<Seq<char>>)
    ensures
        forall|i: int|
            0 <= i < compared(a, b).len() ==> {
                let line = #[trigger] compared(a, b)[i];
                line.len() >= 4 && (line[2] == ' ' || line[2] == '-' || line[2] == '+')
            },
    decreases a.len() + b.len(),
{
    reveal_strlit("    ");
    reveal_strlit("  - ");
    reveal_strlit("  + ");
    let all = compared(a, b);
    let (ra, rb) = if a.len() > 0 && b.len() > 0 {
        (a.skip(1), b.skip(1))
    } else if a.len() > 0 {
        (a.skip(1), b)
    } else if b.len() > 0 {
        (a, b.skip(1))
    } else {
        (a, b)
    };
    if a.len() + b.len() > 0 {
        lemma_margins(ra, rb);
        let rest = compared(ra, rb);
        let k = all.len() - rest.len();
        assert(all.skip(k) =~= rest);
        assert forall|i: int| 0 <= i < all.len() implies {
            let line = #[trigger] all[i];
            line.len() >= 4 && (line[2] == ' ' || line[2] == '-' || line[2] == '+')
        } by {
            if i >= k {
                assert(all[i] == rest[i - k]);
            }
        }
    }
}

/// Two bodies are called identical exactly if they are.
pub proof fn identical_is_said_of_equals_only(original: Seq<char>, replayed: Seq<char>)
    ensures
        diff_of(original, replayed).contains("  (responses are identical)"@) <==> original
            == replayed,
{
    let said = "  (responses are identical)"@;
    reveal_strlit("  (responses are identical)");
    if original == replayed {
        assert(diff_of(original, replayed)[0] == said);
    } else {
        let (a, b) = (crate::text::lines(original), crate::text::lines(replayed));
        lemma_margins(a, b);
        if compared(a, b).contains(said) {
            let i = choose|i: int| 0 <= i < compared(a, b).len() && compared(a, b)[i] == said;
            assert(compared(a, b)[i][2] == '(');
        }
    }
}

/// A request that is sent again closes its connection, says so once, and has
/// every other field as it was recorded.
pub proof fn replay_closes(headers: HeaderSeq, other: Seq<char>)
    requires
        !crate::text::same_fold(other, "connection"@),
    ensures
        crate::proxy::called(replay_headers(headers), "connection"@) == seq![
            ("Connection"@, "close"@),
        ],
        crate::http::value_of(replay_headers(headers), other) == crate::http::value_of(
            headers,
            other,
        ),
{
    let h = ("Connection"@, "close"@);
    let kept = crate::http::without(headers, "connection"@);
    crate::proxy::lemma_names();
    crate::http::removal_is_exact(headers, "connection"@, other);
    crate::proxy::lemma_none_called(kept, "connection"@);
    crate::proxy::lemma_called_push(kept, h, "connection"@);
    crate::proxy::lemma_value_of_push(kept, h, other);
    assert(Seq::<(Seq<char>, Seq<char>)>::empty().push(h) =~= seq![h]);
}

/// A request that the proxy recorded is sent again to the same host and port,
/// with the same method and target and the body that was kept. Its target
/// starts with a slash and its host holds none; and where the port is left out,
/// the host does not itself end in one.
pub proof fn recorded_request_is_sent_again(
    exchange: crate::proxy::ExchangeView,
    scheme: crate::proxy::Scheme,
    body: Seq<u8>,
)
    requires
        exchange.url == scheme.prefix() + crate::proxy::host_field(
            scheme,
            exchange.host,
            exchange.port,
        ) + exchange.target,
        !exchange.host.contains('/'),
        exchange.target.len() > 0,
        exchange.target[0] == '/',
        exchange.port == scheme.port() ==> crate::http::split_last_colon(
            exchange.host,
            scheme.port(),
        ) == (exchange.host, scheme.port()),
    ensures
        plan_of(exchange.recorded(body)) == Some(
            PlanView {
                secure: scheme == crate::proxy::Scheme::Https,
                host: exchange.host,
                port: exchange.port,
                head: encode_utf8(
                    crate::http::head_text(
                        exchange.method + " "@ + exchange.target + " HTTP/1.1"@,
                        replay_headers(exchange.headers),
                    ),
                ),
                body,
            },
        ),
{
    reveal_strlit("http://");
    reveal_strlit("https://");
    reveal_strlit(":");
    let url = exchange.url;
    let named = crate::proxy::host_field(scheme, exchange.host, exchange.port);
    let rest = named + exchange.target;
    assert(url =~= scheme.prefix() + rest);
    let n = scheme.prefix().len() as int;
    assert(url.skip(n) =~= rest);
    assert(url.take(n) =~= scheme.prefix());
    if scheme == crate::proxy::Scheme::Http {
        assert(url[4] == ':');
        assert(!crate::text::starts_with(url, "https://"@)) by {
            if crate::text::starts_with(url, "https://"@) {
                assert(url.take(8)[4] == "https://"@[4]);
            }
        }
    }
    let port = crate::text::decimal(exchange.port as nat);
    crate::text::decimal_is_digits(exchange.port as nat);
    let k = named.len() as int;
    assert(rest[k] == '/');
    assert forall|j: int| 0 <= j < k implies rest[j] != '/' by {
        assert(rest[j] == named[j]);
        if j < exchange.host.len() {
            assert(named[j] == exchange.host[j]);
            assert(exchange.host.contains(exchange.host[j]));
        } else if j > exchange.host.len() {
            assert(named[j] == port[j - exchange.host.len() - 1]);
        }
    }
    crate::text::lemma_find_is(rest, '/', k);
    assert(rest.take(k) =~= named);
    assert(rest.skip(k) =~= exchange.target);
    if exchange.port != scheme.port() {
        let c = exchange.host.len() as int;
        assert(named[c] == ':');
        assert forall|j: int| c < j < named.len() implies named[j] != ':' by {
            assert(named[j] == port[j - c - 1]);
        }
        crate::text::lemma_rfind_is(named, ':', c);
        assert(named.take(c) =~= exchange.host);
        assert(named.skip(c + 1) =~= port);
        crate::text::decimal_reads_back(exchange.port as nat, u16::MAX as nat);
    }
}

/// The characters of an empty line after another line.
spec fn blank() -> Seq<char> {
    seq!['\r', '\n', '\r', '\n']
}

/// Whether `s` ends in an empty line and holds none before.
spec fn ends_blank(s: Seq<char>) -> bool
    decreases s.len(),
{
    s.len() >= 4 && if s.take(4) == blank() {
        s.len() == 4
    } else {
        ends_blank(s.skip(1))
    }
}

/// Text without a line feed before a line end does not matter.
proof fn lemma_blank_skips(x: Seq<char>, t: Seq<char>)
    requires
        !x.contains('\n'),
        t.len() >= 4,
        t[0] == '\r',
        ends_blank(t),
    ensures
        ends_blank(x + t),
    decreases x.len(),
{
    let s = x + t;
    if x.len() == 0 {
        assert(s =~= t);
    } else {
        let y = x.skip(1);
        assert(s.skip(1) =~= y + t);
        assert(!y.contains('\n')) by {
            if y.contains('\n') {
                let k = choose|k: int| 0 <= k < y.len() && y[k] == '\n';
                assert(x[k + 1] == '\n');
            }
        }
        lemma_blank_skips(y, t);
        assert(s.take(4)[1] != '\n') by {
            if x.len() > 1 {
                assert(s[1] == x[1]);
                assert(x.contains(x[1]));
            } else {
                assert(s[1] == t[0]);
            }
        }
        assert(blank()[1] == '\n');
    }
}

proof fn lemma_blank_line_end(t: Seq<char>)
    requires
        ends_blank(t),
        t[0] != '\r',
    ensures
        ends_blank(seq!['\r', '\n'] + t),
{
    let s = seq!['\r', '\n'] + t;
    assert(s.take(4)[2] == t[0]);
    assert(blank()[2] == '\r');
    assert(s.skip(1).take(4)[0] == '\n');
    assert(blank()[0] == '\r');
    assert(s.skip(1).skip(1) =~= t);
    assert(ends_blank(s.skip(1)));
}

proof fn lemma_fields_blank(headers: HeaderSeq)
    requires
        forall|i: int|
            0 <= i < headers.len() ==> crate::head::plain_field(#[trigger] headers[i]),
    ensures
        ends_blank("\r\n"@ + crate::http::header_lines(headers) + "\r\n"@),
    decreases headers.len(),
{
    reveal_strlit("\r\n");
    reveal_strlit(": ");
    let s = "\r\n"@ + crate::http::header_lines(headers) + "\r\n"@;
    if headers.len() == 0 {
        assert(s =~= blank());
        assert(s.take(4) =~= blank());
    } else {
        let h = headers[0];
        let rest = headers.skip(1);
        assert forall|i: int| 0 <= i < rest.len() implies crate::head::plain_field(
            #[trigger] rest[i],
        ) by {
            assert(rest[i] == headers[i + 1]);
        }
        lemma_fields_blank(rest);
        crate::head::lemma_field_line(h);
        let line = h.0 + ": "@ + h.1;
        let t = "\r\n"@ + crate::http::header_lines(rest) + "\r\n"@;
        assert(t[0] == '\r');
        lemma_blank_skips(line, t);
        assert((line + t)[0] != '\r') by {
            if h.0.len() > 0 {
                crate::head::lemma_trim_start_fix(h.0);
                assert(line[0] == h.0[0]);
                if h.0[0] == '\r' {
                    crate::text::lemma_trim_start_len(h.0.skip(1));
                    assert(crate::text::trim_start(h.0) == crate::text::trim_start(h.0.skip(1)));
                }
            } else {
                assert(line[0] == ':');
            }
        }
        lemma_blank_line_end(line + t);
        assert(s =~= seq!['\r', '\n'] + (line + t));
    }
}

proof fn lemma_ascii_byte(c: char)
    ensures
        (c as u32) < 0x80 ==> {
            let e = vstd::utf8::encode_scalar(c as u32);
            e.len() == 1 && e[0] == c as u32
        },
        (c as u32) >= 0x80 ==> {
            let e = vstd::utf8::encode_scalar(c as u32);
            e.len() >= 2 && forall|i: int| 0 <= i < e.len() ==> (#[trigger] e[i]) >= 0x80
        },
{
    vstd::utf8::char_is_scalar(c);
    let n: u32 = c as u32;
    assert(n < 0x80 ==> (n & 0x7F) as u8 == n) by (bit_vector);
    assert((0xC0u8 | ((n >> 6) & 0x1F) as u8) >= 0x80u8) by (bit_vector);
    assert((0xE0u8 | ((n >> 12) & 0x0F) as u8) >= 0x80u8) by (bit_vector);
    assert((0xF0u8 | ((n >> 18) & 0x7) as u8) >= 0x80u8) by (bit_vector);
    assert((0x80u8 | (n & 0x3F) as u8) >= 0x80u8) by (bit_vector);
    assert((0x80u8 | ((n >> 6) & 0x3F) as u8) >= 0x80u8) by (bit_vector);
    assert((0x80u8 | ((n >> 12) & 0x3F) as u8) >= 0x80u8) by (bit_vector);
}

proof fn lemma_first_byte(s: Seq<char>, tail: Seq<u8>)
    requires
        s.len() > 0,
        (encode_utf8(s) + tail)[0] < 0x80,
    ensures
        (s[0] as u32) == (encode_utf8(s) + tail)[0],
        (encode_utf8(s) + tail).skip(1) == encode_utf8(s.skip(1)) + tail,
{
    lemma_ascii_byte(s[0]);
    let e = vstd::utf8::encode_scalar(s[0] as u32);
    assert(s.drop_first() =~= s.skip(1));
    assert((encode_utf8(s) + tail)[0] == e[0]);
    assert((encode_utf8(s) + tail).skip(1) =~= encode_utf8(s.skip(1)) + tail);
}

/// Bytes that cannot start an empty line are passed over.
proof fn lemma_head_end_skip(e: Seq<u8>, tail: Seq<u8>)
    requires
        forall|i: int| 0 <= i < e.len() ==> (#[trigger] e[i]) >= 0x80,
        tail.len() >= 4,
    ensures
        head_end(e + tail) == e.len() + head_end(tail),
    decreases e.len(),
{
    if e.len() == 0 {
        assert(e + tail =~= tail);
    } else {
        let s = e + tail;
        assert(s.skip(1) =~= e.skip(1) + tail);
        lemma_head_end_skip(e.skip(1), tail);
        assert(s.take(4)[0] == e[0]);
        assert(seq![13u8, 10u8, 13u8, 10u8][0] == 13u8);
    }
}

proof fn lemma_encoded_len(s: Seq<char>)
    ensures
        encode_utf8(s).len() >= s.len(),
    decreases s.len(),
{
    if s.len() > 0 {
        lemma_ascii_byte(s[0]);
        lemma_encoded_len(s.drop_first());
    }
}

proof fn lemma_head_end(s: Seq<char>, body: Seq<u8>)
    requires
        ends_blank(s),
    ensures
        head_end(encode_utf8(s) + body) == encode_utf8(s).len(),
    decreases s.len(),
{
    let raw = encode_utf8(s) + body;
    let mark = seq![13u8, 10u8, 13u8, 10u8];
    lemma_encoded_len(s);
    lemma_ascii_byte(s[0]);
    let e = vstd::utf8::encode_scalar(s[0] as u32);
    assert(s.drop_first() =~= s.skip(1));
    assert(raw =~= e + (encode_utf8(s.skip(1)) + body));
    if s.take(4) == blank() {
        assert(s =~= blank());
        vstd::utf8::is_ascii_chars_encode_utf8(s);
        assert(s[0] == '\r' && s[1] == '\n' && s[2] == '\r' && s[3] == '\n');
        assert(raw.take(4) =~= mark);
    } else {
        lemma_head_end(s.skip(1), body);
        reveal_with_fuel(ends_blank, 2);
        lemma_encoded_len(s.skip(1));
        if (s[0] as u32) >= 0x80 {
            lemma_head_end_skip(e, encode_utf8(s.skip(1)) + body);
        } else {
            assert(raw.skip(1) =~= encode_utf8(s.skip(1)) + body);
            if raw.take(4) == mark {
                let (s1, s2, s3) = (s.skip(1), s.skip(2), s.skip(3));
                assert(mark[0] == 13 && mark[1] == 10 && mark[2] == 13 && mark[3] == 10);
                assert(raw.take(4)[0] == raw[0] && raw.take(4)[1] == raw[1]);
                assert(raw.take(4)[2] == raw[2] && raw.take(4)[3] == raw[3]);
                let r1 = encode_utf8(s1) + body;
                assert(r1[0] == raw[1] && r1[1] == raw[2] && r1[2] == raw[3]);
                lemma_first_byte(s1, body);
                assert(s1.skip(1) =~= s2);
                let r2 = encode_utf8(s2) + body;
                assert(r2[0] == r1.skip(1)[0] && r2[1] == r1.skip(1)[1]);
                lemma_first_byte(s2, body);
                assert(s2.skip(1) =~= s3);
                let r3 = encode_utf8(s3) + body;
                assert(r3[0] == r2.skip(1)[0]);
                lemma_first_byte(s3, body);
                assert(s1[0] == s[1] && s2[0] == s[2] && s3[0] == s[3]);
                assert(raw[0] == e[0]);
                assert(s[0] as u32 == 13 && s[1] as u32 == 10 && s[2] as u32 == 13 && s[3] as u32
                    == 10);
                vstd::utf8::char_u32_cast('\r', 13);
                vstd::utf8::char_u32_cast('\n', 10);
                vstd::utf8::char_u32_cast(s[0], 13);
                vstd::utf8::char_u32_cast(s[1], 10);
                vstd::utf8::char_u32_cast(s[2], 13);
                vstd::utf8::char_u32_cast(s[3], 10);
                assert(s[0] == '\r' && s[1] == '\n' && s[2] == '\r' && s[3] == '\n');
                assert(s.take(4) =~= blank());
            }
        }
    }
}

proof fn lemma_lines_split(a: Seq<char>, b: Seq<char>)
    requires
        !a.contains('\n'),
    ensures
        crate::text::lines(a + "\r\n"@ + b) == seq![a] + crate::text::lines(b),
{
    reveal_strlit("\r\n");
    let s = a + "\r\n"@ + b;
    let i = a.len() + 1;
    assert(s[i as int] == '\n');
    assert forall|j: int| 0 <= j < i implies s[j] != '\n' by {
        if j < a.len() {
            assert(s[j] == a[j]);
            assert(a.contains(a[j]));
        } else {
            assert(s[j] == '\r');
        }
    }
    crate::text::lemma_find_is(s, '\n', i as int);
    assert(s.take(i as int).last() == '\r');
    assert(s.take(i as int).drop_last() =~= a);
    assert(s.skip(i as int + 1) =~= b);
}

proof fn lemma_field_lines(headers: HeaderSeq)
    requires
        forall|i: int|
            0 <= i < headers.len() ==> crate::head::plain_field(#[trigger] headers[i]),
    ensures
        line_fields(crate::text::lines(crate::http::header_lines(headers) + "\r\n"@)) == headers,
    decreases headers.len(),
{
    reveal_strlit("\r\n");
    reveal_strlit(": ");
    let s = crate::http::header_lines(headers) + "\r\n"@;
    let none: Seq<char> = seq![];
    if headers.len() == 0 {
        assert(s =~= none + "\r\n"@ + none);
        lemma_lines_split(none, none);
        let ls = crate::text::lines(s);
        assert(ls =~= seq![none]);
        assert(ls.skip(1) =~= Seq::empty());
        assert(crate::text::find(none, ':') is None);
        reveal_with_fuel(line_fields, 2);
        assert(line_fields(ls) =~= headers);
    } else {
        let h = headers[0];
        let rest = headers.skip(1);
        assert forall|i: int| 0 <= i < rest.len() implies crate::head::plain_field(
            #[trigger] rest[i],
        ) by {
            assert(rest[i] == headers[i + 1]);
        }
        lemma_field_lines(rest);
        crate::head::lemma_field_line(h);
        let a = h.0 + ": "@ + h.1;
        let b = crate::http::header_lines(rest) + "\r\n"@;
        assert(s =~= a + "\r\n"@ + b);
        lemma_lines_split(a, b);
        let ls = crate::text::lines(s);
        assert(ls[0] == a);
        assert(ls.skip(1) =~= crate::text::lines(b));
        assert(a[h.0.len() as int] == ':');
        assert forall|j: int| 0 <= j < h.0.len() implies a[j] != ':' by {
            assert(a[j] == h.0[j]);
            assert(h.0.contains(h.0[j]));
        }
        crate::text::lemma_find_is(a, ':', h.0.len() as int);
        assert(a.take(h.0.len() as int) =~= h.0);
        assert(a.skip(h.0.len() as int + 1) =~= seq![' '] + h.1);
        crate::head::lemma_trim_space(h.1);
        assert(line_field(a) =~= seq![h]);
        assert(seq![h] + rest =~= headers);
    }
}

/// A response that is written reads back: its status, its fields and every byte
/// of its body.
pub proof fn response_reads_back(start_line: Seq<char>, headers: HeaderSeq, body: Seq<u8>)
    requires
        crate::head::plain_start(start_line),
        forall|i: int|
            0 <= i < headers.len() ==> crate::head::plain_field(#[trigger] headers[i]),
    ensures
        ({
            let head = crate::http::head_text(start_line, headers);
            let raw = encode_utf8(head) + body;
            &&& raw.take(head_end(raw) as int) == encode_utf8(head)
            &&& vstd::utf8::valid_utf8(encode_utf8(head))
            &&& vstd::utf8::decode_utf8(encode_utf8(head)) == head
            &&& response_of(raw, head) == (ResponseView {
                status: crate::http::status_code_of(start_line),
                headers,
                body,
            })
        }),
{
    reveal_strlit("\r\n");
    let head = crate::http::head_text(start_line, headers);
    let raw = encode_utf8(head) + body;
    let block = "\r\n"@ + crate::http::header_lines(headers) + "\r\n"@;
    lemma_fields_blank(headers);
    lemma_blank_skips(start_line, block);
    assert(head =~= start_line + block);
    lemma_head_end(head, body);
    assert(raw.take(head_end(raw) as int) =~= encode_utf8(head));
    assert(raw.skip(head_end(raw) as int) =~= body);
    vstd::utf8::encode_utf8_valid_utf8(head);
    vstd::utf8::encode_utf8_decode_utf8(head);
    let rest = crate::http::header_lines(headers) + "\r\n"@;
    assert(head =~= start_line + "\r\n"@ + rest);
    lemma_lines_split(start_line, rest);
    lemma_field_lines(headers);
    let ls = crate::text::lines(head);
    assert(ls[0] == start_line);
    assert(ls.skip(1) =~= crate::text::lines(rest));
}

} // verus!
