//! Reading message heads line by line, and the law that a written head reads
//! back as what was written.

use vstd::prelude::*;
use vstd::slice::slice_subrange;
use vstd::utf8::encode_utf8;

use crate::http::{
    parse_request_line, parse_status_code, HeaderSeq, HttpError, RequestHead, ResponseHead,
};
use crate::text::{chars_of, find_exec, text_of, trim_exec, trim_newlines_exec};

verus! {

// ---------------------------------------------------------------------------
// One header line
// ---------------------------------------------------------------------------

/// Whether a line ends a head: it is empty, or nothing came any more.
pub open spec fn ends_head(line: Seq<char>) -> bool {
    crate::text::trim_newlines(line).len() == 0
}

/// The field that a line denotes: the trimmed texts before and after its first
/// colon. A line without a colon denotes none.
pub open spec fn field_of(line: Seq<char>) -> HeaderSeq {
    let t = crate::text::trim_newlines(line);
    match crate::text::find(t, ':') {
        Some(i) => seq![(crate::text::trim(t.take(i)), crate::text::trim(t.skip(i + 1)))],
        None => seq![],
    }
}

/// The field that a line denotes, without a look at its line end.
pub fn split_field(line: &[char]) -> (r: Option<(String, String)>)
    ensures
        match (r, crate::text::find(line@, ':')) {
            (Some(h), Some(i)) => h.0@ == crate::text::trim(line@.take(i)) && h.1@
                == crate::text::trim(line@.skip(i + 1)),
            (None, None) => true,
            _ => false,
        },
{
    match find_exec(line, ':') {
        Some(i) => {
            let len: usize = line.len();
            let name = slice_subrange(line, 0, i);
            let value = slice_subrange(line, i + 1, len);
            assert(name@ =~= line@.take(i as int));
            assert(value@ =~= line@.skip(i as int + 1));
            Some((text_of(trim_exec(name)), text_of(trim_exec(value))))
        },
        None => None,
    }
}

// ---------------------------------------------------------------------------
// Readers
// ---------------------------------------------------------------------------

/// The header block read so far.
pub struct BlockView {
    pub headers: HeaderSeq,
    pub finished: bool,
}

/// The block after one more line.
pub open spec fn block_step(block: BlockView, line: Seq<char>) -> BlockView {
    if block.finished {
        block
    } else if ends_head(line) {
        BlockView { headers: block.headers, finished: true }
    } else {
        BlockView { headers: block.headers + field_of(line), finished: false }
    }
}

/// The block after all of `lines`.
pub open spec fn block_steps(block: BlockView, lines: Seq<Seq<char>>) -> BlockView
    decreases lines.len(),
{
    if lines.len() == 0 {
        block
    } else {
        block_steps(block_step(block, lines[0]), lines.skip(1))
    }
}

/// Collects header fields, one line at a time, up to the empty line.
pub struct HeaderReader {
    pub headers: Vec<(String, String)>,
    pub finished: bool,
}

impl View for HeaderReader {
    type V = BlockView;

    open spec fn view(&self) -> BlockView {
        BlockView {
            headers: crate::http::headers_view(self.headers@),
            finished: self.finished,
        }
    }
}

impl HeaderReader {
    /// A reader that has seen no line.
    pub fn new() -> (r: HeaderReader)
        ensures
            r@ == (BlockView { headers: seq![], finished: false }),
    {
        let r = HeaderReader { headers: Vec::new(), finished: false };
        assert(r@.headers =~= seq![]);
        r
    }

    /// Takes one line with its line end; an empty `line` says that nothing came any more.
    pub fn push_line(&mut self, line: &str)
        ensures
            final(self)@ == block_step(old(self)@, line@),
    {
        if self.finished {
            return;
        }
        let chars = chars_of(line);
        let trimmed = trim_newlines_exec(chars.as_slice());
        if trimmed.len() == 0 {
            self.finished = true;
            return;
        }
        let ghost before = self.headers@;
        if let Some(field) = split_field(trimmed) {
            self.headers.push(field);
            assert(crate::http::headers_view(self.headers@) =~= crate::http::headers_view(before)
                + field_of(line@));
        } else {
            assert(crate::http::headers_view(before) + field_of(line@)
                =~= crate::http::headers_view(before));
        }
    }
}

/// Assembles the head of a request.
pub struct RequestReader {
    pub method: String,
    pub target: String,
    pub version: String,
    pub block: HeaderReader,
}

/// What the first line of a request starts: nothing if the line is empty, else
/// a head with the line's three words.
pub open spec fn request_start(line: Seq<char>) -> Result<
    Option<(Seq<char>, Seq<char>, Seq<char>)>,
    HttpError,
> {
    if ends_head(line) {
        Ok(None)
    } else {
        match crate::http::request_line(crate::text::trim_newlines(line)) {
            Ok(p) => Ok(Some(p)),
            Err(e) => Err(e),
        }
    }
}

impl RequestReader {
    /// Starts on the first line of a request; `None` if the client sent none.
    pub fn start(line: &str) -> (r: Result<Option<RequestReader>, HttpError>)
        ensures
            match r {
                Ok(Some(h)) => request_start(line@) == Ok::<_, HttpError>(
                    Some((h.method@, h.target@, h.version@)),
                ) && h.block@ == (BlockView { headers: seq![], finished: false }),
                Ok(None) => request_start(line@) == Ok::<
                    Option<(Seq<char>, Seq<char>, Seq<char>)>,
                    HttpError,
                >(None),
                Err(e) => request_start(line@) == Err::<
                    Option<(Seq<char>, Seq<char>, Seq<char>)>,
                    HttpError,
                >(e),
            },
    {
        let chars = chars_of(line);
        let trimmed = trim_newlines_exec(chars.as_slice());
        if trimmed.len() == 0 {
            return Ok(None);
        }
        match parse_request_line(text_of(trimmed).as_str()) {
            Ok((method, target, version)) => Ok(
                Some(RequestReader { method, target, version, block: HeaderReader::new() }),
            ),
            Err(e) => Err(e),
        }
    }

    /// Takes one header line.
    pub fn push_line(&mut self, line: &str)
        ensures
            final(self).block@ == block_step(old(self).block@, line@),
            final(self).method == old(self).method,
            final(self).target == old(self).target,
            final(self).version == old(self).version,
    {
        self.block.push_line(line);
    }

    /// Whether the head is complete.
    pub fn finished(&self) -> (r: bool)
        ensures
            r == self.block@.finished,
    {
        self.block.finished
    }

    /// The head as read.
    pub fn into_head(self) -> (head: RequestHead)
        ensures
            head@.method == self.method@,
            head@.target == self.target@,
            head@.version == self.version@,
            head@.headers == self.block@.headers,
    {
        RequestHead {
            method: self.method,
            target: self.target,
            version: self.version,
            headers: self.block.headers,
        }
    }
}

/// Assembles the head of a response.
pub struct ResponseReader {
    pub start_line: String,
    pub status_code: u16,
    pub raw: Vec<u8>,
    pub block: HeaderReader,
}

impl ResponseReader {
    /// Starts on the status line; an empty `line` says that the upstream closed.
    pub fn start(line: &str) -> (r: Result<ResponseReader, HttpError>)
        ensures
            match r {
                Ok(h) => {
                    &&& line@.len() > 0
                    &&& h.start_line@ == crate::text::trim_newlines(line@)
                    &&& h.status_code == crate::http::status_code_of(
                        crate::text::trim_newlines(line@),
                    )
                    &&& h.raw@ == encode_utf8(line@)
                    &&& h.block@ == (BlockView { headers: seq![], finished: false })
                },
                Err(e) => line@.len() == 0 && e == HttpError::ClosedInStatusLine,
            },
    {
        let chars = chars_of(line);
        if chars.len() == 0 {
            return Err(HttpError::ClosedInStatusLine);
        }
        let start_line = text_of(trim_newlines_exec(chars.as_slice()));
        let status_code: u16 = parse_status_code(start_line.as_str());
        Ok(
            ResponseReader {
                start_line,
                status_code,
                raw: vstd::slice::slice_to_vec(line.as_bytes()),
                block: HeaderReader::new(),
            },
        )
    }

    /// Takes one header line and keeps its bytes.
    pub fn push_line(&mut self, line: &str)
        ensures
            final(self).block@ == block_step(old(self).block@, line@),
            final(self).raw@ == old(self).raw@ + encode_utf8(line@),
            final(self).start_line == old(self).start_line,
            final(self).status_code == old(self).status_code,
    {
        self.block.push_line(line);
        let bytes = line.as_bytes();
        self.raw.extend_from_slice(bytes);
        assert(self.raw@ =~= old(self).raw@ + encode_utf8(line@));
    }

    /// Whether the head is complete.
    pub fn finished(&self) -> (r: bool)
        ensures
            r == self.block@.finished,
    {
        self.block.finished
    }

    /// The head as read.
    pub fn into_head(self) -> (head: ResponseHead)
        ensures
            head@.start_line == self.start_line@,
            head@.status_code == self.status_code,
            head@.headers == self.block@.headers,
            head@.raw == self.raw@,
    {
        ResponseHead {
            start_line: self.start_line,
            status_code: self.status_code,
            headers: self.block.headers,
            raw: self.raw,
        }
    }
}

// ---------------------------------------------------------------------------
// Laws
// ---------------------------------------------------------------------------

/// The first line of `s`, with its line feed.
pub open spec fn first_line(s: Seq<char>) -> Seq<char> {
    match crate::text::find(s, '\n') {
        Some(i) => s.take(i + 1),
        None => s,
    }
}

/// What follows the first line of `s`.
pub open spec fn after_line(s: Seq<char>) -> Seq<char> {
    s.skip(first_line(s).len() as int)
}

/// The first `n` lines of `s`, each with its line feed.
pub open spec fn first_lines(s: Seq<char>, n: nat) -> Seq<Seq<char>>
    decreases n,
{
    if n == 0 {
        seq![]
    } else {
        seq![first_line(s)] + first_lines(after_line(s), (n - 1) as nat)
    }
}

/// What follows the first `n` lines of `s`.
pub open spec fn after_lines(s: Seq<char>, n: nat) -> Seq<char>
    decreases n,
{
    if n == 0 {
        s
    } else {
        after_lines(after_line(s), (n - 1) as nat)
    }
}

/// A field that is written on one line and has no space around its parts.
pub open spec fn plain_field(h: (Seq<char>, Seq<char>)) -> bool {
    &&& !h.0.contains('\n')
    &&& !h.1.contains('\n')
    &&& !h.0.contains(':')
    &&& crate::text::trim(h.0) == h.0
    &&& crate::text::trim(h.1) == h.1
}

/// A start line that is written on one line and does not end in a carriage return.
pub open spec fn plain_start(s: Seq<char>) -> bool {
    !s.contains('\n') && (s.len() > 0 ==> s.last() != '\r')
}

pub(crate) proof fn lemma_first_line(a: Seq<char>, b: Seq<char>)
    requires
        !a.contains('\n'),
    ensures
        first_line(a + "\r\n"@ + b) == a + "\r\n"@,
        after_line(a + "\r\n"@ + b) == b,
{
    reveal_strlit("\r\n");
    let s = a + "\r\n"@ + b;
    let i = a.len() + 1;
    assert(s[i as int] == '\n');
    assert forall|j: int| 0 <= j < i implies s[j] != '\n' by {
        if j < a.len() {
            assert(s[j] == a[j]);
            assert(a.contains(a[j]));
        } else {
            assert(s[j] == '\r');
        }
    }
    crate::text::lemma_find_is(s, '\n', i as int);
    assert(s.take(i as int + 1) =~= a + "\r\n"@);
    assert(s.skip(i as int + 1) =~= b);
}

pub(crate) proof fn lemma_trim_line(a: Seq<char>)
    ensures
        crate::text::trim_newlines(a + "\r\n"@) == crate::text::trim_newlines(a),
{
    reveal_strlit("\r\n");
    let s = a + "\r\n"@;
    assert(s.last() == '\n');
    assert(s.drop_last().last() == '\r');
    assert(s.drop_last().drop_last() =~= a);
    assert(crate::text::trim_newlines(s) == crate::text::trim_newlines(s.drop_last()));
    assert(crate::text::trim_newlines(s.drop_last()) == crate::text::trim_newlines(a));
}

pub(crate) proof fn lemma_trim_start_fix(s: Seq<char>)
    requires
        crate::text::trim(s) == s,
    ensures
        crate::text::trim_start(s) == s,
        crate::text::trim_end(s) == s,
{
    crate::text::lemma_trim_start_len(s);
    lemma_trim_end_len(crate::text::trim_start(s));
    assert(crate::text::trim_start(s).len() == s.len());
    assert(s.skip(0) =~= s);
}

proof fn lemma_trim_end_len(s: Seq<char>)
    ensures
        crate::text::trim_end(s).len() <= s.len(),
    decreases s.len(),
{
    if s.len() > 0 && crate::text::is_space(s.last()) {
        lemma_trim_end_len(s.drop_last());
    }
}

/// A space before trimmed text is trimmed away.
pub(crate) proof fn lemma_trim_space(v: Seq<char>)
    requires
        crate::text::trim(v) == v,
    ensures
        crate::text::trim(seq![' '] + v) == v,
{
    lemma_trim_start_fix(v);
    let s = seq![' '] + v;
    assert(s.skip(1) =~= v);
    assert(crate::text::trim_start(s) == crate::text::trim_start(v));
}

/// Trimmed text ends neither in a carriage return nor in a line feed.
proof fn lemma_trimmed_end(v: Seq<char>)
    requires
        crate::text::trim(v) == v,
        v.len() > 0,
    ensures
        v.last() != '\r',
        v.last() != '\n',
{
    lemma_trim_start_fix(v);
    if crate::text::is_space(v.last()) {
        lemma_trim_end_len(v.drop_last());
    }
}

pub(crate) proof fn lemma_field_line(h: (Seq<char>, Seq<char>))
    requires
        plain_field(h),
    ensures
        !ends_head(crate::http::header_line(h)),
        field_of(crate::http::header_line(h)) == seq![h],
        !(h.0 + ": "@ + h.1).contains('\n'),
{
    reveal_strlit(": ");
    let a = h.0 + ": "@ + h.1;
    assert(crate::http::header_line(h) == a + "\r\n"@);
    lemma_trim_line(a);
    assert(a[h.0.len() as int] == ':');
    assert(a.last() != '\r' && a.last() != '\n') by {
        if h.1.len() > 0 {
            lemma_trimmed_end(h.1);
            assert(a.last() == h.1.last());
        } else {
            assert(a.last() == ' ');
        }
    }
    assert(crate::text::trim_newlines(a) == a);
    assert forall|j: int| 0 <= j < h.0.len() implies a[j] != ':' by {
        assert(a[j] == h.0[j]);
        assert(h.0.contains(h.0[j]));
    }
    crate::text::lemma_find_is(a, ':', h.0.len() as int);
    assert(a.take(h.0.len() as int) =~= h.0);
    assert(a.skip(h.0.len() as int + 1) =~= seq![' '] + h.1);
    lemma_trim_space(h.1);
    if a.contains('\n') {
        let k = choose|k: int| 0 <= k < a.len() && a[k] == '\n';
        if k < h.0.len() {
            assert(h.0.contains(h.0[k]));
        } else if k >= h.0.len() + 2 {
            assert(h.1.contains(h.1[k - h.0.len() - 2]));
        }
    }
}

/// Reading the written fields and the empty line after them gives the fields
/// back and leaves what follows.
pub proof fn fields_read_back(headers: HeaderSeq, body: Seq<char>, start: HeaderSeq)
    requires
        forall|i: int| 0 <= i < headers.len() ==> plain_field(#[trigger] headers[i]),
    ensures
        ({
            let s = crate::http::header_lines(headers) + "\r\n"@ + body;
            let n = headers.len() + 1;
            &&& block_steps(
                BlockView { headers: start, finished: false },
                first_lines(s, n),
            ) == (BlockView { headers: start + headers, finished: true })
            &&& after_lines(s, n) == body
        }),
    decreases headers.len(),
{
    let n = headers.len() + 1;
    let s = crate::http::header_lines(headers) + "\r\n"@ + body;
    let b0 = BlockView { headers: start, finished: false };
    let ls = first_lines(s, n);
    assert(ls.skip(1) =~= first_lines(after_line(s), (n - 1) as nat));
    assert(ls[0] == first_line(s));
    if headers.len() == 0 {
        let none: Seq<char> = seq![];
        assert(s =~= none + "\r\n"@ + body);
        lemma_first_line(none, body);
        lemma_trim_line(none);
        assert(start + headers =~= start);
        reveal_with_fuel(block_steps, 2);
        reveal_with_fuel(first_lines, 2);
        reveal_with_fuel(after_lines, 2);
        assert(ls.skip(1).len() == 0);
    } else {
        let h = headers[0];
        let rest = crate::http::header_lines(headers.skip(1)) + "\r\n"@ + body;
        lemma_field_line(h);
        let a = h.0 + ": "@ + h.1;
        assert(s =~= a + "\r\n"@ + rest);
        lemma_first_line(a, rest);
        assert(first_line(s) == crate::http::header_line(h));
        assert forall|i: int| 0 <= i < headers.skip(1).len() implies plain_field(
            #[trigger] headers.skip(1)[i],
        ) by {
            assert(headers.skip(1)[i] == headers[i + 1]);
        }
        fields_read_back(headers.skip(1), body, start + seq![h]);
        assert(start + seq![h] + headers.skip(1) =~= start + headers);
        assert(block_step(b0, ls[0]) == (BlockView { headers: start + seq![h], finished: false }));
        assert(ls.skip(1) == first_lines(rest, headers.len()));
    }
}

/// A head that is written reads back: its first line is the start line, the
/// lines after it give the fields, and the body is what is left.
pub proof fn head_reads_back(start_line: Seq<char>, headers: HeaderSeq, body: Seq<char>)
    requires
        plain_start(start_line),
        forall|i: int| 0 <= i < headers.len() ==> plain_field(#[trigger] headers[i]),
    ensures
        ({
            let s = crate::http::head_text(start_line, headers) + body;
            let n = headers.len() + 1;
            &&& crate::text::trim_newlines(first_line(s)) == start_line
            &&& block_steps(
                BlockView { headers: seq![], finished: false },
                first_lines(after_line(s), n),
            ) == (BlockView { headers, finished: true })
            &&& after_lines(after_line(s), n) == body
        }),
{
    let s = crate::http::head_text(start_line, headers) + body;
    let rest = crate::http::header_lines(headers) + "\r\n"@ + body;
    assert(s =~= start_line + "\r\n"@ + rest);
    lemma_first_line(start_line, rest);
    lemma_trim_line(start_line);
    assert(crate::text::trim_newlines(start_line) == start_line) by {
        if start_line.len() > 0 && start_line.last() == '\n' {
            assert(start_line.contains(start_line.last()));
        }
    }
    fields_read_back(headers, body, seq![]);
    assert(Seq::<(Seq<char>, Seq<char>)>::empty() + headers =~= headers);
}

} // verus!
