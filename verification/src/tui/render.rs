//! What the terminal interface shows: lines of styled text, made from
//! transactions. Nothing that comes from the network reaches a span with a
//! control character in it.

use vstd::prelude::*;
use vstd::slice::slice_subrange;
use vstd::utf8::{decode_utf8, encode_utf8};

use crate::text::{
    chars_of, decimal_text, eq_fold, lines_exec, pad_right_exec, text_of, utf8_lossy,
};
use crate::transaction::{Transaction, TransactionView};
use crate::tui::app::{App, AppView, Focus};

verus! {

// ---------------------------------------------------------------------------
// Styled text
// ---------------------------------------------------------------------------

/// A colour of the palette, by what it is used for.
#[derive(Debug, Clone, Copy, PartialEq, Eq, Structural)]
pub enum Tone {
    Background,
    Border,
    BorderFocus,
    Text,
    Dim,
    SelectedBackground,
    SelectedText,
    MethodGet,
    MethodPost,
    MethodPut,
    MethodDelete,
    MethodOther,
    StatusSuccess,
    StatusRedirect,
    StatusClientError,
    StatusServerError,
    StatusPending,
    HeaderName,
    Key,
}

impl Tone {
    /// Red, green and blue of the colour.
    pub open spec fn channels(self) -> (u8, u8, u8) {
        match self {
            Tone::Background => (10, 10, 10),
            Tone::Border => (40, 40, 40),
            Tone::BorderFocus => (200, 200, 200),
            Tone::Text => (220, 220, 220),
            Tone::Dim => (110, 110, 110),
            Tone::SelectedBackground => (45, 45, 45),
            Tone::SelectedText => (255, 255, 255),
            Tone::MethodGet => (143, 220, 151),
            Tone::MethodPost => (100, 180, 255),
            Tone::MethodPut => (255, 200, 80),
            Tone::MethodDelete => (255, 100, 100),
            Tone::MethodOther => (200, 120, 255),
            Tone::StatusSuccess => (143, 220, 151),
            Tone::StatusRedirect => (100, 180, 255),
            Tone::StatusClientError => (255, 200, 80),
            Tone::StatusServerError => (255, 100, 100),
            Tone::StatusPending => (130, 130, 130),
            Tone::HeaderName => (150, 150, 150),
            Tone::Key => (130, 130, 130),
        }
    }

    /// Red, green and blue of the colour.
    pub fn rgb(self) -> (out: (u8, u8, u8))
        ensures
            out == self.channels(),
    {
        match self {
            Tone::Background => (10, 10, 10),
            Tone::Border => (40, 40, 40),
            Tone::BorderFocus => (200, 200, 200),
            Tone::Text => (220, 220, 220),
            Tone::Dim => (110, 110, 110),
            Tone::SelectedBackground => (45, 45, 45),
            Tone::SelectedText => (255, 255, 255),
            Tone::MethodGet => (143, 220, 151),
            Tone::MethodPost => (100, 180, 255),
            Tone::MethodPut => (255, 200, 80),
            Tone::MethodDelete => (255, 100, 100),
            Tone::MethodOther => (200, 120, 255),
            Tone::StatusSuccess => (143, 220, 151),
            Tone::StatusRedirect => (100, 180, 255),
            Tone::StatusClientError => (255, 200, 80),
            Tone::StatusServerError => (255, 100, 100),
            Tone::StatusPending => (130, 130, 130),
            Tone::HeaderName => (150, 150, 150),
            Tone::Key => (130, 130, 130),
        }
    }
}

/// How letters are drawn.
#[derive(Debug, Clone, Copy, PartialEq, Eq, Structural)]
pub enum Weight {
    Plain,
    Bold,
    Italic,
}

/// A piece of text in one style.
#[derive(Debug, Clone)]
pub struct StyledSpan {
    pub text: String,
    pub fg: Tone,
    pub bg: Option<Tone>,
    pub weight: Weight,
}

/// What a [`StyledSpan`] holds.
pub struct SpanView {
    pub text: Seq<char>,
    pub fg: Tone,
    pub bg: Option<Tone>,
    pub weight: Weight,
}

/// A line: spans from left to right.
pub type LineView = Seq<SpanView>;

impl View for StyledSpan {
    type V = SpanView;

    open spec fn view(&self) -> SpanView {
        SpanView { text: self.text@, fg: self.fg, bg: self.bg, weight: self.weight }
    }
}

/// The view of a line.
pub open spec fn line_view(line: Seq<StyledSpan>) -> LineView {
    line.map_values(|s: StyledSpan| s@)
}

/// The views of lines.
pub open spec fn lines_view(lines: Seq<Vec<StyledSpan>>) -> Seq<LineView> {
    lines.map_values(|line: Vec<StyledSpan>| line_view(line@))
}

/// A span on the panel's own background.
pub open spec fn span_of(text: Seq<char>, fg: Tone, weight: Weight) -> SpanView {
    SpanView { text, fg, bg: None, weight }
}

fn span(text: String, fg: Tone, weight: Weight) -> (out: StyledSpan)
    ensures
        out@ == span_of(text@, fg, weight),
{
    StyledSpan { text, fg, bg: None, weight }
}

fn one(only: StyledSpan) -> (line: Vec<StyledSpan>)
    ensures
        line_view(line@) == seq![only@],
{
    let mut line: Vec<StyledSpan> = Vec::new();
    line.push(only);
    assert(line_view(line@) =~= seq![only@]);
    line
}

fn two(first: StyledSpan, second: StyledSpan) -> (line: Vec<StyledSpan>)
    ensures
        line_view(line@) == seq![first@, second@],
{
    let mut line: Vec<StyledSpan> = Vec::new();
    line.push(first);
    line.push(second);
    assert(line_view(line@) =~= seq![first@, second@]);
    line
}

fn blank() -> (line: Vec<StyledSpan>)
    ensures
        line_view(line@) == LineView::empty(),
{
    let line: Vec<StyledSpan> = Vec::new();
    assert(line_view(line@) =~= LineView::empty());
    line
}

fn put(lines: &mut Vec<Vec<StyledSpan>>, line: Vec<StyledSpan>)
    ensures
        lines_view(final(lines)@) == lines_view(old(lines)@) + seq![line_view(line@)],
{
    let ghost before = lines_view(lines@);
    lines.push(line);
    assert(lines_view(lines@) =~= before + seq![line_view(line@)]);
}

fn put_all(lines: &mut Vec<Vec<StyledSpan>>, more: Vec<Vec<StyledSpan>>)
    ensures
        lines_view(final(lines)@) == lines_view(old(lines)@) + lines_view(more@),
{
    let ghost before = lines_view(lines@);
    let mut more = more;
    let ghost added = lines_view(more@);
    lines.append(&mut more);
    assert(lines_view(lines@) =~= before + added);
}

// ---------------------------------------------------------------------------
// Control characters
// ---------------------------------------------------------------------------

/// Whether a terminal would act on `c` rather than show it.
pub open spec fn is_control(c: char) -> bool {
    (c as u32) < 0x20 || 0x7f <= (c as u32) <= 0x9f
}

/// What is shown for `c`.
pub open spec fn safe_char(c: char) -> char {
    if c == '\t' {
        ' '
    } else if is_control(c) {
        '·'
    } else {
        c
    }
}

/// What is shown for `s`.
pub open spec fn safe(s: Seq<char>) -> Seq<char> {
    s.map_values(|c: char| safe_char(c))
}

/// Whether no control character stands in `s`.
pub open spec fn clean(s: Seq<char>) -> bool {
    forall|i: int| 0 <= i < s.len() ==> !is_control(#[trigger] s[i])
}

fn sanitize_chars(s: &[char]) -> (out: Vec<char>)
    ensures
        out@ == safe(s@),
{
    let mut out: Vec<char> = Vec::new();
    let mut i: usize = 0;
    while i < s.len()
        invariant
            i <= s@.len(),
            out@ =~= safe(s@.take(i as int)),
        decreases s@.len() - i,
    {
        let c = s[i];
        let code: u32 = c as u32;
        if c == '\t' {
            out.push(' ');
        } else if code < 0x20 || (0x7f <= code && code <= 0x9f) {
            out.push('·');
        } else {
            out.push(c);
        }
        i += 1;
    }
    assert(s@.take(i as int) =~= s@);
    out
}

/// Replaces control characters: a tab by a space, every other by a dot.
pub fn sanitize(s: &str) -> (out: String)
    ensures
        out@ == safe(s@),
{
    text_of(sanitize_chars(chars_of(s).as_slice()).as_slice())
}

// ---------------------------------------------------------------------------
// Fitting text
// ---------------------------------------------------------------------------

/// `s` cut into pieces of `width` characters, the last of which may be shorter.
pub open spec fn chunks(s: Seq<char>, width: nat) -> Seq<Seq<char>>
    decreases s.len(),
{
    if width == 0 || s.len() <= width {
        seq![s]
    } else {
        seq![s.take(width as int)] + chunks(s.skip(width as int), width)
    }
}

fn chunk(s: &[char], width: usize) -> (out: Vec<String>)
    requires
        width > 0,
    ensures
        crate::text::texts(out@) == chunks(s@, width as nat),
{
    let mut out: Vec<String> = Vec::new();
    let mut pos: usize = 0;
    let len: usize = s.len();
    proof {
        assert(s@.skip(0) =~= s@);
        assert(crate::text::texts(out@) + chunks(s@, width as nat) =~= chunks(s@, width as nat));
    }
    while len - pos > width
        invariant
            width > 0,
            len == s@.len(),
            pos <= len,
            chunks(s@, width as nat) == crate::text::texts(out@) + chunks(
                s@.skip(pos as int),
                width as nat,
            ),
        decreases len - pos,
    {
        let ghost before = crate::text::texts(out@);
        let ghost rest = s@.skip(pos as int);
        let piece = slice_subrange(s, pos, pos + width);
        out.push(text_of(piece));
        proof {
            assert(piece@ =~= rest.take(width as int));
            assert(rest.skip(width as int) =~= s@.skip(pos + width));
            assert(crate::text::texts(out@) =~= before + seq![piece@]);
            assert(before + (seq![piece@] + chunks(s@.skip(pos + width), width as nat))
                =~= crate::text::texts(out@) + chunks(s@.skip(pos + width), width as nat));
        }
        pos = pos + width;
    }
    let ghost before = crate::text::texts(out@);
    let piece = slice_subrange(s, pos, len);
    out.push(text_of(piece));
    proof {
        assert(piece@ =~= s@.skip(pos as int));
        assert(crate::text::texts(out@) =~= before + seq![piece@]);
    }
    out
}

/// The larger of two numbers.
pub open spec fn at_least(n: int, least: int) -> int {
    if n < least {
        least
    } else {
        n
    }
}

/// `a - b`, but not below zero.
pub open spec fn minus(a: int, b: int) -> int {
    at_least(a - b, 0)
}

/// The least width to which a URL is split.
pub const LEAST_WIDTH: usize = 20;

/// The width to which a text is split if `width` is asked for. There are no
/// pieces without characters, so that none at all means the least width.
pub open spec fn split_width(width: int) -> nat {
    if width <= 0 {
        LEAST_WIDTH as nat
    } else {
        width as nat
    }
}

/// Splits a long text into pieces of `width` characters, the last of which may
/// be shorter.
pub fn split_value(value: &str, width: usize) -> (out: Vec<String>)
    ensures
        crate::text::texts(out@) == chunks(value@, split_width(width as int)),
{
    let w: usize = if width == 0 {
        LEAST_WIDTH
    } else {
        width
    };
    chunk(chars_of(value).as_slice(), w)
}

/// `s` cut to `max` characters, the last of which is then an ellipsis. Without
/// room for that `s` is left as it is.
pub open spec fn truncated(s: Seq<char>, max: nat) -> Seq<char> {
    if max == 0 || s.len() <= max {
        s
    } else {
        s.take(max - 1).push('…')
    }
}

/// Cuts `s` to `max` characters, the last of which is then an ellipsis.
pub fn trunc(s: String, max: usize) -> (out: String)
    ensures
        out@ == truncated(s@, max as nat),
{
    if max == 0 {
        return s;
    }
    let chars = chars_of(s.as_str());
    if chars.len() > max {
        let kept = slice_subrange(chars.as_slice(), 0, max - 1);
        let mut out = text_of(kept);
        out.push('…');
        assert(out@ =~= truncated(s@, max as nat));
        out
    } else {
        s
    }
}

// ---------------------------------------------------------------------------
// Colours
// ---------------------------------------------------------------------------

/// The colour of a method.
pub open spec fn tone_of_method(m: Seq<char>) -> Tone {
    if crate::text::same_fold(m, "GET"@) {
        Tone::MethodGet
    } else if crate::text::same_fold(m, "POST"@) {
        Tone::MethodPost
    } else if crate::text::same_fold(m, "PUT"@) || crate::text::same_fold(m, "PATCH"@) {
        Tone::MethodPut
    } else if crate::text::same_fold(m, "DELETE"@) {
        Tone::MethodDelete
    } else {
        Tone::MethodOther
    }
}

/// The colour of a method, in any case of letters.
pub fn method_color(m: &str) -> (tone: Tone)
    ensures
        tone == tone_of_method(m@),
{
    if eq_fold(m, "GET") {
        Tone::MethodGet
    } else if eq_fold(m, "POST") {
        Tone::MethodPost
    } else if eq_fold(m, "PUT") || eq_fold(m, "PATCH") {
        Tone::MethodPut
    } else if eq_fold(m, "DELETE") {
        Tone::MethodDelete
    } else {
        Tone::MethodOther
    }
}

/// The colour of a status code, by its class.
pub open spec fn tone_of_status(code: u16) -> Tone {
    if code / 100 == 2 {
        Tone::StatusSuccess
    } else if code / 100 == 3 {
        Tone::StatusRedirect
    } else if code / 100 == 4 {
        Tone::StatusClientError
    } else if code / 100 == 5 {
        Tone::StatusServerError
    } else {
        Tone::StatusPending
    }
}

/// The colour of a status code.
pub fn status_color(code: u16) -> (tone: Tone)
    ensures
        tone == tone_of_status(code),
{
    if 200 <= code && code <= 299 {
        Tone::StatusSuccess
    } else if 300 <= code && code <= 399 {
        Tone::StatusRedirect
    } else if 400 <= code && code <= 499 {
        Tone::StatusClientError
    } else if 500 <= code && code <= 599 {
        Tone::StatusServerError
    } else {
        Tone::StatusPending
    }
}

/// The colours of a panel's border and title.
pub fn panel_tones(focused: bool) -> (tones: (Tone, Tone))
    ensures
        focused ==> tones == (Tone::BorderFocus, Tone::BorderFocus),
        !focused ==> tones == (Tone::Border, Tone::Dim),
{
    if focused {
        (Tone::BorderFocus, Tone::BorderFocus)
    } else {
        (Tone::Border, Tone::Dim)
    }
}

// ---------------------------------------------------------------------------
// Lines of the detail panel
// ---------------------------------------------------------------------------

/// The title of a section.
pub open spec fn section_line(title: Seq<char>) -> LineView {
    seq![span_of(title, Tone::BorderFocus, Weight::Bold)]
}

/// The title of a part of a section.
pub open spec fn sub_line(title: Seq<char>) -> LineView {
    seq![span_of(title, Tone::Dim, Weight::Plain)]
}

/// A key in a column of ten characters, and a value.
pub open spec fn pair_line(key: Seq<char>, value: Seq<char>, tone: Tone) -> LineView {
    seq![
        span_of(crate::text::pad_right(key, 10), Tone::Key, Weight::Plain),
        span_of(safe(value), tone, Weight::Plain),
    ]
}

/// How wide the column of header names is.
pub const NAME_WIDTH: usize = 26;

/// A header field: its name in a column of fixed width and its value in what is
/// left of the panel, each cut to fit.
pub open spec fn field_line(name: Seq<char>, value: Seq<char>, panel_width: int) -> LineView {
    seq![
        span_of(
            crate::text::pad_right(truncated(safe(name), NAME_WIDTH as nat), NAME_WIDTH as int),
            Tone::HeaderName,
            Weight::Plain,
        ),
        span_of(
            truncated(safe(value), at_least(panel_width - NAME_WIDTH - 1, 10) as nat),
            Tone::Text,
            Weight::Plain,
        ),
    ]
}

/// The title of a section.
pub fn section_header(title: &str) -> (line: Vec<StyledSpan>)
    ensures
        line_view(line@) == section_line(title@),
{
    one(span(title.to_string(), Tone::BorderFocus, Weight::Bold))
}

/// The title of a part of a section.
pub fn sub_header(title: &str) -> (line: Vec<StyledSpan>)
    ensures
        line_view(line@) == sub_line(title@),
{
    one(span(title.to_string(), Tone::Dim, Weight::Plain))
}

/// A key in a column of ten characters, and a sanitized value.
pub fn kv(key: &str, value: &str, tone: Tone) -> (line: Vec<StyledSpan>)
    ensures
        line_view(line@) == pair_line(key@, value@, tone),
{
    two(
        span(pad_right_exec(key, 10), Tone::Key, Weight::Plain),
        span(sanitize(value), tone, Weight::Plain),
    )
}

/// A header field, sanitized and cut to fit.
pub fn hdr_line(name: &str, value: &str, panel_width: usize) -> (line: Vec<StyledSpan>)
    ensures
        line_view(line@) == field_line(name@, value@, panel_width as int),
{
    let name = trunc(sanitize(name), NAME_WIDTH);
    let budget: usize = if panel_width < NAME_WIDTH + 11 {
        10
    } else {
        panel_width - NAME_WIDTH - 1
    };
    let value = trunc(sanitize(value), budget);
    two(
        span(pad_right_exec(name.as_str(), NAME_WIDTH), Tone::HeaderName, Weight::Plain),
        span(value, Tone::Text, Weight::Plain),
    )
}

// ---------------------------------------------------------------------------
// Bodies
// ---------------------------------------------------------------------------

/// How many characters of a body stand on one line, at most.
pub const MAX_LINE: usize = 200;

/// How many lines of a body are shown, at most.
pub const MAX_BODY_LINES: usize = 300;

/// How many bytes of a body decide whether it is text.
pub const SAMPLE: usize = 512;

/// Whether a byte does not occur in ordinary text.
pub open spec fn unprintable(b: u8) -> bool {
    b < 0x09 || 0x0d < b < 0x20 || b == 0x7f
}

/// The first bytes of a body.
pub open spec fn sample_of(data: Seq<u8>) -> Seq<u8> {
    if data.len() < SAMPLE {
        data
    } else {
        data.take(SAMPLE as int)
    }
}

/// Whether a body looks like binary content: a zero byte anywhere, or more than
/// one byte in twenty unprintable among the first ones.
pub open spec fn looks_binary(data: Seq<u8>) -> bool {
    ||| data.contains(0u8)
    ||| sample_of(data).filter(|b: u8| unprintable(b)).len() * 20 > sample_of(data).len()
}

/// Whether a body looks like binary content, which is not to be shown as text.
pub fn is_binary(data: &[u8]) -> (r: bool)
    ensures
        r == looks_binary(data@),
{
    let len: usize = data.len();
    let mut i: usize = 0;
    while i < len
        invariant
            len == data@.len(),
            i <= len,
            forall|k: int| 0 <= k < i ==> data@[k] != 0,
        decreases len - i,
    {
        if data[i] == 0 {
            return true;
        }
        i += 1;
    }
    let bound: usize = if len < SAMPLE {
        len
    } else {
        SAMPLE
    };
    let ghost sample = sample_of(data@);
    let ghost odd = |b: u8| unprintable(b);
    let mut count: usize = 0;
    let mut k: usize = 0;
    proof {
        reveal(Seq::filter);
        assert(sample.take(0).filter(odd) =~= Seq::empty());
    }
    while k < bound
        invariant
            bound <= SAMPLE,
            bound <= data@.len(),
            bound == sample.len(),
            sample == sample_of(data@),
            odd == (|b: u8| unprintable(b)),
            k <= bound,
            count <= k,
            count == sample.take(k as int).filter(odd).len(),
        decreases bound - k,
    {
        let b: u8 = data[k];
        proof {
            reveal(Seq::filter);
            assert(sample.take(k as int + 1).drop_last() =~= sample.take(k as int));
            assert(sample.take(k as int + 1).last() == b);
        }
        if b < 0x09 || (b > 0x0d && b < 0x20) || b == 0x7f {
            count += 1;
        }
        k += 1;
    }
    assert(sample.take(k as int) =~= sample);
    count * 20 > bound
}

/// Whether `data` starts with `magic`.
pub open spec fn begins(data: Seq<u8>, magic: Seq<u8>) -> bool {
    data.len() >= magic.len() && data.take(magic.len() as int) == magic
}

/// The kind of content that the first bytes of a body suggest.
pub open spec fn kind_of(data: Seq<u8>) -> Seq<char> {
    if begins(data, seq![0x89u8, 0x50u8, 0x4eu8, 0x47u8]) {
        "image/png"@
    } else if begins(data, seq![0xffu8, 0xd8u8, 0xffu8]) {
        "image/jpeg"@
    } else if begins(data, seq![0x47u8, 0x49u8, 0x46u8]) {
        "image/gif"@
    } else if begins(data, seq![0x52u8, 0x49u8, 0x46u8, 0x46u8]) {
        "image/webp"@
    } else if begins(data, seq![0x1fu8, 0x8bu8]) {
        "application/gzip"@
    } else if begins(data, seq![0x50u8, 0x4bu8, 0x03u8, 0x04u8]) {
        "application/zip"@
    } else if begins(data, seq![0x25u8, 0x50u8, 0x44u8, 0x46u8]) {
        "application/pdf"@
    } else {
        "binary"@
    }
}

/// Whether a body is content of a kind that is never text: an image, an archive
/// or a PDF.
pub open spec fn known_content(data: Seq<u8>) -> bool {
    ||| begins(data, seq![0x89u8, 0x50u8, 0x4eu8, 0x47u8])
    ||| begins(data, seq![0xffu8, 0xd8u8, 0xffu8])
    ||| begins(data, seq![0x47u8, 0x49u8, 0x46u8, 0x38u8, 0x37u8, 0x61u8])
    ||| begins(data, seq![0x47u8, 0x49u8, 0x46u8, 0x38u8, 0x39u8, 0x61u8])
    ||| {
        &&& begins(data, seq![0x52u8, 0x49u8, 0x46u8, 0x46u8])
        &&& data.len() >= 12
        &&& data.subrange(8, 12) == seq![0x57u8, 0x45u8, 0x42u8, 0x50u8]
    }
    ||| begins(data, seq![0x1fu8, 0x8bu8])
    ||| begins(data, seq![0x50u8, 0x4bu8, 0x03u8, 0x04u8])
    ||| begins(data, seq![0x25u8, 0x50u8, 0x44u8, 0x46u8, 0x2du8])
}

fn has_at<const N: usize>(data: &[u8], at: usize, magic: [u8; N]) -> (r: bool)
    requires
        at <= 8,
        N <= 8,
    ensures
        r == (data@.len() >= at + N && data@.subrange(at as int, at + N) == magic@),
{
    if data.len() < at + N {
        return false;
    }
    let mut i: usize = 0;
    while i < N
        invariant
            i <= N,
            at <= 8,
            N <= 8,
            at + N <= data@.len(),
            forall|k: int| 0 <= k < i ==> data@[at + k] == magic@[k],
        decreases N - i,
    {
        if data[at + i] != magic[i] {
            assert(data@.subrange(at as int, at + N)[i as int] != magic@[i as int]);
            return false;
        }
        i += 1;
    }
    assert(data@.subrange(at as int, at + N) =~= magic@);
    true
}

fn starts<const N: usize>(data: &[u8], magic: [u8; N]) -> (r: bool)
    requires
        N <= 8,
    ensures
        r == begins(data@, magic@),
{
    let r = has_at(data, 0, magic);
    assert(data@.len() >= N ==> data@.subrange(0, N as int) =~= data@.take(N as int));
    r
}

/// Whether a body is content of a kind that is never text: an image, an archive
/// or a PDF.
pub fn is_known_content(data: &[u8]) -> (r: bool)
    ensures
        r == known_content(data@),
{
    let png: [u8; 4] = [0x89, 0x50, 0x4e, 0x47];
    let jpeg: [u8; 3] = [0xff, 0xd8, 0xff];
    let gif87: [u8; 6] = [0x47, 0x49, 0x46, 0x38, 0x37, 0x61];
    let gif89: [u8; 6] = [0x47, 0x49, 0x46, 0x38, 0x39, 0x61];
    let riff: [u8; 4] = [0x52, 0x49, 0x46, 0x46];
    let webp: [u8; 4] = [0x57, 0x45, 0x42, 0x50];
    let gzip: [u8; 2] = [0x1f, 0x8b];
    let zip: [u8; 4] = [0x50, 0x4b, 0x03, 0x04];
    let pdf: [u8; 5] = [0x25, 0x50, 0x44, 0x46, 0x2d];
    assert(png@ =~= seq![0x89u8, 0x50u8, 0x4eu8, 0x47u8]);
    assert(jpeg@ =~= seq![0xffu8, 0xd8u8, 0xffu8]);
    assert(gif87@ =~= seq![0x47u8, 0x49u8, 0x46u8, 0x38u8, 0x37u8, 0x61u8]);
    assert(gif89@ =~= seq![0x47u8, 0x49u8, 0x46u8, 0x38u8, 0x39u8, 0x61u8]);
    assert(riff@ =~= seq![0x52u8, 0x49u8, 0x46u8, 0x46u8]);
    assert(webp@ =~= seq![0x57u8, 0x45u8, 0x42u8, 0x50u8]);
    assert(gzip@ =~= seq![0x1fu8, 0x8bu8]);
    assert(zip@ =~= seq![0x50u8, 0x4bu8, 0x03u8, 0x04u8]);
    assert(pdf@ =~= seq![0x25u8, 0x50u8, 0x44u8, 0x46u8, 0x2du8]);
    starts(data, png) || starts(data, jpeg) || starts(data, gif87) || starts(data, gif89) || (
    starts(data, riff) && has_at(data, 8, webp)) || starts(data, gzip) || starts(data, zip)
        || starts(data, pdf)
}

/// The kind of content that the first bytes of a body suggest.
pub fn sniff_mime(data: &[u8]) -> (kind: &'static str)
    ensures
        kind@ == kind_of(data@),
{
    let png: [u8; 4] = [0x89, 0x50, 0x4e, 0x47];
    let jpeg: [u8; 3] = [0xff, 0xd8, 0xff];
    let gif: [u8; 3] = [0x47, 0x49, 0x46];
    let riff: [u8; 4] = [0x52, 0x49, 0x46, 0x46];
    let gzip: [u8; 2] = [0x1f, 0x8b];
    let zip: [u8; 4] = [0x50, 0x4b, 0x03, 0x04];
    let pdf: [u8; 4] = [0x25, 0x50, 0x44, 0x46];
    assert(png@ =~= seq![0x89u8, 0x50u8, 0x4eu8, 0x47u8]);
    assert(jpeg@ =~= seq![0xffu8, 0xd8u8, 0xffu8]);
    assert(gif@ =~= seq![0x47u8, 0x49u8, 0x46u8]);
    assert(riff@ =~= seq![0x52u8, 0x49u8, 0x46u8, 0x46u8]);
    assert(gzip@ =~= seq![0x1fu8, 0x8bu8]);
    assert(zip@ =~= seq![0x50u8, 0x4bu8, 0x03u8, 0x04u8]);
    assert(pdf@ =~= seq![0x25u8, 0x50u8, 0x44u8, 0x46u8]);
    if starts(data, png) {
        "image/png"
    } else if starts(data, jpeg) {
        "image/jpeg"
    } else if starts(data, gif) {
        "image/gif"
    } else if starts(data, riff) {
        "image/webp"
    } else if starts(data, gzip) {
        "application/gzip"
    } else if starts(data, zip) {
        "application/zip"
    } else if starts(data, pdf) {
        "application/pdf"
    } else {
        "binary"
    }
}

/// How many characters of a body stand on one line of a panel.
pub open spec fn wrap_width(width: int) -> nat {
    if minus(width, 2) < 40 {
        40
    } else if minus(width, 2) > MAX_LINE {
        MAX_LINE as nat
    } else {
        minus(width, 2) as nat
    }
}

/// The lines that show one line of a body.
pub open spec fn wrapped(line: Seq<char>, wrap: nat) -> Seq<LineView> {
    if line.len() == 0 {
        seq![LineView::empty()]
    } else {
        chunks(safe(line), wrap).map_values(
            |c: Seq<char>| seq![span_of(c, Tone::Text, Weight::Plain)],
        )
    }
}

/// The lines that show lines of a body.
pub open spec fn all_wrapped(lines: Seq<Seq<char>>, wrap: nat) -> Seq<LineView>
    decreases lines.len(),
{
    if lines.len() == 0 {
        seq![]
    } else {
        all_wrapped(lines.drop_last(), wrap) + wrapped(lines.last(), wrap)
    }
}

/// A remark in place of content.
pub open spec fn remark(text: Seq<char>) -> LineView {
    seq![span_of(text, Tone::Dim, Weight::Italic)]
}

/// The remark about lines that are not shown.
pub open spec fn more_lines(count: nat) -> Seq<char> {
    "… "@ + crate::text::decimal(count)
        + " more lines — scroll or use `hermes replay` to view full body"@
}

/// The lines that show a text body.
pub open spec fn text_body(raw: Seq<char>, width: int) -> Seq<LineView> {
    let lines = crate::text::lines(raw);
    let wrap = wrap_width(width);
    if lines.len() == 0 {
        seq![remark("(empty body)"@)]
    } else if lines.len() <= MAX_BODY_LINES {
        all_wrapped(lines, wrap)
    } else {
        all_wrapped(lines.take(MAX_BODY_LINES as int), wrap) + seq![
            remark(more_lines((lines.len() - MAX_BODY_LINES) as nat)),
        ]
    }
}

/// The remark in place of a binary body.
pub open spec fn not_rendered(body: Seq<u8>) -> Seq<char> {
    "("@ + kind_of(body) + " — "@ + crate::text::decimal(body.len()) + " bytes, not rendered)"@
}

/// Whether a body is not shown as text: it looks binary, or is of a known kind of
/// binary content.
pub open spec fn never_text(body: Seq<u8>) -> bool {
    looks_binary(body) || known_content(body)
}

/// The lines that show a body whose text is `text`.
pub open spec fn body_of(body: Seq<u8>, text: Seq<char>, width: int) -> Seq<LineView> {
    if never_text(body) {
        seq![remark(not_rendered(body))]
    } else {
        text_body(text, width)
    }
}

fn wrap_line(line: &[char], wrap: usize) -> (out: Vec<Vec<StyledSpan>>)
    requires
        wrap > 0,
    ensures
        lines_view(out@) == wrapped(line@, wrap as nat),
{
    let mut out: Vec<Vec<StyledSpan>> = Vec::new();
    if line.len() == 0 {
        put(&mut out, blank());
        assert(lines_view(out@) =~= wrapped(line@, wrap as nat));
        return out;
    }
    let safe_line = sanitize_chars(line);
    let pieces = chunk(safe_line.as_slice(), wrap);
    let ghost want = wrapped(line@, wrap as nat);
    let mut i: usize = 0;
    assert(lines_view(out@) =~= want.take(0));
    while i < pieces.len()
        invariant
            i <= pieces@.len(),
            line@.len() > 0,
            want == wrapped(line@, wrap as nat),
            crate::text::texts(pieces@) == chunks(safe(line@), wrap as nat),
            lines_view(out@) == want.take(i as int),
        decreases pieces@.len() - i,
    {
        let ghost before = lines_view(out@);
        let piece = pieces[i].clone();
        put(&mut out, one(span(piece, Tone::Text, Weight::Plain)));
        proof {
            assert(crate::text::texts(pieces@)[i as int] == piece@);
            assert(want[i as int] == seq![span_of(piece@, Tone::Text, Weight::Plain)]);
            assert(want.take(i as int + 1) =~= before + seq![want[i as int]]);
        }
        i += 1;
    }
    proof {
        assert(crate::text::texts(pieces@).len() == want.len());
        assert(want.take(i as int) =~= want);
    }
    out
}

fn note(text: String) -> (line: Vec<StyledSpan>)
    ensures
        line_view(line@) == remark(text@),
{
    one(span(text, Tone::Dim, Weight::Italic))
}

/// The lines that show a text body: sanitized, wrapped to the panel, and no
/// more than fit a sensible count.
pub fn text_lines(raw: &str, width: usize) -> (out: Vec<Vec<StyledSpan>>)
    ensures
        lines_view(out@) == text_body(raw@, width as int),
{
    let lines = lines_exec(chars_of(raw).as_slice());
    let total: usize = lines.len();
    let ghost all = crate::text::lines(raw@);
    let wrap: usize = if width < 42 {
        40
    } else if width - 2 > MAX_LINE {
        MAX_LINE
    } else {
        width - 2
    };
    let mut out: Vec<Vec<StyledSpan>> = Vec::new();
    if total == 0 {
        put(&mut out, note("(empty body)".to_string()));
        assert(lines_view(out@) =~= text_body(raw@, width as int));
        return out;
    }
    let shown: usize = if total < MAX_BODY_LINES {
        total
    } else {
        MAX_BODY_LINES
    };
    let mut i: usize = 0;
    assert(all.take(0) =~= seq![]);
    assert(lines_view(out@) =~= all_wrapped(all.take(0), wrap as nat));
    while i < shown
        invariant
            i <= shown,
            shown <= lines@.len(),
            wrap > 0,
            all == crate::text::char_views(lines@),
            lines_view(out@) == all_wrapped(all.take(i as int), wrap as nat),
        decreases shown - i,
    {
        put_all(&mut out, wrap_line(lines[i].as_slice(), wrap));
        proof {
            assert(all.take(i as int + 1).drop_last() =~= all.take(i as int));
            assert(all.take(i as int + 1).last() == lines@[i as int]@);
        }
        i += 1;
    }
    if total > MAX_BODY_LINES {
        let mut text = "… ".to_string();
        text.append(decimal_text((total - MAX_BODY_LINES) as u64).as_str());
        text.append(" more lines — scroll or use `hermes replay` to view full body");
        put(&mut out, note(text));
    } else {
        assert(all.take(i as int) =~= all);
    }
    out
}

/// The lines that show a body. A binary body is never shown as text.
pub fn body_lines(body: &[u8], width: usize) -> (out: Vec<Vec<StyledSpan>>)
    ensures
        lines_view(out@) == body_of(body@, crate::text::lossy_text(body@), width as int),
{
    let kind = sniff_mime(body);
    if is_binary(body) || is_known_content(body) {
        let mut text = "(".to_string();
        text.append(kind);
        text.append(" — ");
        text.append(decimal_text(body.len() as u64).as_str());
        text.append(" bytes, not rendered)");
        let mut out: Vec<Vec<StyledSpan>> = Vec::new();
        put(&mut out, note(text));
        assert(lines_view(out@) =~= body_of(
            body@,
            crate::text::lossy_text(body@),
            width as int,
        ));
        return out;
    }
    let raw = utf8_lossy(body);
    text_lines(raw.as_str(), width)
}

// ---------------------------------------------------------------------------
// The detail panel
// ---------------------------------------------------------------------------

/// The lines that show a URL.
pub open spec fn url_lines(url: Seq<char>, width: int) -> Seq<LineView> {
    chunks(url, at_least(minus(width, 10), LEAST_WIDTH as int) as nat).map_values(
        |piece: Seq<char>| pair_line("URL"@, piece, Tone::Text),
    )
}

/// The lines that show headers; none if there are none.
pub open spec fn header_block(headers: crate::http::HeaderSeq, width: int) -> Seq<LineView> {
    if headers.len() == 0 {
        seq![]
    } else {
        seq![sub_line("Headers"@)] + headers.map_values(
            |h: (Seq<char>, Seq<char>)| field_line(h.0, h.1, width),
        ) + seq![LineView::empty()]
    }
}

/// The lines that show a body under a title; none if it is empty.
pub open spec fn body_block(body: Seq<u8>, text: Seq<char>, width: int) -> Seq<LineView> {
    if body.len() == 0 {
        seq![]
    } else {
        seq![sub_line("Body"@)] + body_of(body, text, width)
    }
}

/// The lines that show a request whose body reads `text`.
pub open spec fn request_block(tx: TransactionView, text: Seq<char>, width: int) -> Seq<LineView> {
    let request = tx.request;
    seq![
        section_line("REQUEST"@),
        pair_line("Method"@, request.method, tone_of_method(request.method)),
    ] + url_lines(request.url, width) + seq![LineView::empty()] + header_block(
        request.headers,
        width,
    ) + body_block(request.body, text, width) + (if request.body.len() == 0 {
        seq![]
    } else {
        seq![LineView::empty()]
    })
}

/// The lines that show a response whose body reads `text`.
pub open spec fn response_block(tx: TransactionView, text: Seq<char>, width: int) -> Seq<LineView> {
    seq![section_line("RESPONSE"@)] + match tx.response {
        None => seq![seq![span_of("pending…"@, Tone::StatusPending, Weight::Italic)]],
        Some(response) => seq![
            pair_line(
                "Status"@,
                crate::text::decimal(response.status as nat),
                tone_of_status(response.status),
            ),
        ] + (match tx.duration_ms {
            Some(ms) => seq![
                pair_line("Duration"@, crate::text::decimal(ms as nat) + " ms"@, Tone::Dim),
            ],
            None => seq![],
        }) + seq![LineView::empty()] + header_block(response.headers, width) + body_block(
            response.body,
            text,
            width,
        ),
    }
}

fn put_url(out: &mut Vec<Vec<StyledSpan>>, url: &str, panel_width: usize)
    ensures
        lines_view(final(out)@) == lines_view(old(out)@) + url_lines(url@, panel_width as int),
{
    let width: usize = if panel_width < LEAST_WIDTH + 10 {
        LEAST_WIDTH
    } else {
        panel_width - 10
    };
    let pieces = split_value(url, width);
    let ghost start = lines_view(out@);
    let ghost want = url_lines(url@, panel_width as int);
    let mut i: usize = 0;
    assert(want.take(0) =~= seq![]);
    assert(lines_view(out@) =~= start + want.take(0));
    while i < pieces.len()
        invariant
            i <= pieces@.len(),
            want == url_lines(url@, panel_width as int),
            crate::text::texts(pieces@) == chunks(
                url@,
                at_least(minus(panel_width as int, 10), LEAST_WIDTH as int) as nat,
            ),
            lines_view(out@) == start + want.take(i as int),
        decreases pieces@.len() - i,
    {
        put(out, kv("URL", pieces[i].as_str(), Tone::Text));
        proof {
            assert(crate::text::texts(pieces@)[i as int] == pieces@[i as int]@);
            assert(start + want.take(i as int + 1) =~= start + want.take(i as int) + seq![
                want[i as int],
            ]);
        }
        i += 1;
    }
    proof {
        assert(crate::text::texts(pieces@).len() == want.len());
        assert(want.take(i as int) =~= want);
    }
}

fn put_headers(out: &mut Vec<Vec<StyledSpan>>, headers: &[(String, String)], panel_width: usize)
    ensures
        lines_view(final(out)@) == lines_view(old(out)@) + header_block(
            crate::http::headers_view(headers@),
            panel_width as int,
        ),
{
    let ghost start = lines_view(out@);
    let ghost fields = crate::http::headers_view(headers@);
    if headers.len() == 0 {
        assert(start + header_block(fields, panel_width as int) =~= start);
        return;
    }
    put(out, sub_header("Headers"));
    let ghost titled = lines_view(out@);
    let ghost want = fields.map_values(
        |h: (Seq<char>, Seq<char>)| field_line(h.0, h.1, panel_width as int),
    );
    let mut i: usize = 0;
    assert(want.take(0) =~= seq![]);
    assert(lines_view(out@) =~= titled + want.take(0));
    while i < headers.len()
        invariant
            i <= headers@.len(),
            fields == crate::http::headers_view(headers@),
            want == fields.map_values(
                |h: (Seq<char>, Seq<char>)| field_line(h.0, h.1, panel_width as int),
            ),
            lines_view(out@) == titled + want.take(i as int),
        decreases headers@.len() - i,
    {
        put(out, hdr_line(headers[i].0.as_str(), headers[i].1.as_str(), panel_width));
        proof {
            assert(titled + want.take(i as int + 1) =~= titled + want.take(i as int) + seq![
                want[i as int],
            ]);
        }
        i += 1;
    }
    assert(want.take(i as int) =~= want);
    put(out, blank());
    proof {
        let block = header_block(fields, panel_width as int);
        assert(block =~= seq![sub_line("Headers"@)] + want + seq![LineView::empty()]);
        assert(lines_view(out@) =~= start + block);
    }
}

fn put_body(out: &mut Vec<Vec<StyledSpan>>, body: &[u8], panel_width: usize)
    ensures
        lines_view(final(out)@) == lines_view(old(out)@) + body_block(
            body@,
            crate::text::lossy_text(body@),
            panel_width as int,
        ),
{
    let ghost start = lines_view(out@);
    if body.len() > 0 {
        put(out, sub_header("Body"));
        put_all(out, body_lines(body, panel_width));
    }
    assert(lines_view(out@) =~= start + body_block(
        body@,
        crate::text::lossy_text(body@),
        panel_width as int,
    ));
}

/// The text of the body of a response, if there is one.
pub open spec fn response_text(tx: TransactionView) -> Seq<char> {
    match tx.response {
        Some(response) => crate::text::lossy_text(response.body),
        None => seq![],
    }
}

/// The lines of the detail panel for a transaction. They are wrapped to the
/// width of the panel, so that no section runs into the next.
pub fn build_detail_lines(tx: &Transaction, panel_width: usize) -> (out: Vec<Vec<StyledSpan>>)
    ensures
        lines_view(out@) == request_block(
            tx@,
            crate::text::lossy_text(tx@.request.body),
            panel_width as int,
        ) + response_block(tx@, response_text(tx@), panel_width as int),
{
    let mut out: Vec<Vec<StyledSpan>> = Vec::new();
    let ghost width = panel_width as int;
    put(&mut out, section_header("REQUEST"));
    put(
        &mut out,
        kv("Method", tx.request.method.as_str(), method_color(tx.request.method.as_str())),
    );
    put_url(&mut out, tx.request.url.as_str(), panel_width);
    put(&mut out, blank());
    put_headers(&mut out, tx.request.headers.as_slice(), panel_width);
    put_body(&mut out, tx.request.body.as_slice(), panel_width);
    if tx.request.body.len() > 0 {
        put(&mut out, blank());
    }
    let ghost request = request_block(tx@, crate::text::lossy_text(tx@.request.body), width);
    assert(lines_view(out@) =~= request);
    put(&mut out, section_header("RESPONSE"));
    match &tx.response {
        None => {
            put(
                &mut out,
                one(span("pending…".to_string(), Tone::StatusPending, Weight::Italic)),
            );
        },
        Some(response) => {
            put(
                &mut out,
                kv(
                    "Status",
                    decimal_text(response.status as u64).as_str(),
                    status_color(response.status),
                ),
            );
            if let Some(ms) = tx.duration_ms {
                let mut text = decimal_text(ms);
                text.append(" ms");
                put(&mut out, kv("Duration", text.as_str(), Tone::Dim));
            }
            put(&mut out, blank());
            put_headers(&mut out, response.headers.as_slice(), panel_width);
            put_body(&mut out, response.body.as_slice(), panel_width);
        },
    }
    assert(lines_view(out@) =~= request + response_block(tx@, response_text(tx@), width));
    out
}

/// What the detail panel shows.
pub enum DetailPanel {
    /// There is nothing to show but this remark.
    Remark(&'static str),
    /// These lines, from line `scroll` on, with a scrollbar if it is given: the
    /// number of lines and the position.
    Lines { lines: Vec<Vec<StyledSpan>>, scroll: u16, scrollbar: Option<(usize, usize)> },
}

/// The scrollbar for so many lines: none if they fit. The count is kept in
/// sixteen bits.
pub open spec fn scrollbar_for(count: nat, scroll: u16, height: u16) -> Option<(usize, usize)> {
    let total = count % 0x1_0000;
    if total > height {
        Some((total as usize, scroll as usize))
    } else {
        None
    }
}

/// What the detail panel shows in a space of `width` columns and `height` rows.
pub fn detail_panel(app: &App, width: u16, height: u16) -> (r: DetailPanel)
    ensures
        match r {
            DetailPanel::Remark(text) => app@.chosen() is None && text@
                == "\nNo transactions captured yet.\nBrowse through the proxy to see traffic."@,
            DetailPanel::Lines { lines, scroll, scrollbar } => {
                &&& app@.chosen() matches Some(tx)
                &&& lines_view(lines@) == request_block(
                    tx@,
                    crate::text::lossy_text(tx@.request.body),
                    width as int,
                ) + response_block(tx@, response_text(tx@), width as int)
                &&& scroll == app@.detail_scroll
                &&& scrollbar == scrollbar_for(lines@.len(), scroll, height)
            },
        },
{
    match app.selected_transaction() {
        None => DetailPanel::Remark(
            "\nNo transactions captured yet.\nBrowse through the proxy to see traffic.",
        ),
        Some(tx) => {
            let lines = build_detail_lines(tx, width as usize);
            let total: usize = lines.len() % 0x1_0000;
            let scroll = app.detail_scroll;
            let scrollbar = if total > height as usize {
                Some((total, scroll as usize))
            } else {
                None
            };
            DetailPanel::Lines { lines, scroll, scrollbar }
        },
    }
}

// ---------------------------------------------------------------------------
// The list and the status bar
// ---------------------------------------------------------------------------

/// How many bytes of host and path a row has room for.
pub const ROW_BYTES: usize = 28;

/// How many bytes of a path fit a row beside `host`.
pub open spec fn path_room(host: Seq<char>) -> int {
    minus(ROW_BYTES as int, encode_utf8(host).len() as int)
}

/// Whether a path is shown in part.
pub open spec fn path_is_cut(host: Seq<char>, path: Seq<char>) -> bool {
    encode_utf8(path).len() > path_room(host)
}

/// The path as a row shows it: cut, with an ellipsis, if there is no room.
pub open spec fn row_path(host: Seq<char>, path: Seq<char>) -> Seq<char> {
    if path_is_cut(host, path) {
        decode_utf8(encode_utf8(path).subrange(0, minus(path_room(host), 1))).push('…')
    } else {
        path
    }
}

/// Whether the path of a URL is cut between two characters, if it is cut.
pub open spec fn cuts_cleanly(url: Seq<char>) -> bool {
    let rest = crate::transaction::after_scheme(url);
    let host = crate::http::authority_of(rest);
    let path = crate::http::path_of(rest);
    path_is_cut(host, path) ==> vstd::utf8::is_char_boundary(
        encode_utf8(path),
        minus(path_room(host), 1),
    )
}

/// The duration of a transaction as a row shows it. `seconds` is the text for
/// one of a second or more.
pub open spec fn row_duration(duration_ms: Option<u64>, seconds: Seq<char>) -> Seq<char> {
    match duration_ms {
        Some(ms) => if ms < 1000 {
            " "@ + crate::text::decimal(ms as nat) + "ms"@
        } else {
            " "@ + safe(seconds) + "s"@
        },
        None => seq![],
    }
}

/// The row of a transaction.
pub open spec fn row_of(tx: TransactionView, seconds: Seq<char>) -> LineView {
    let rest = crate::transaction::after_scheme(tx.request.url);
    let host = crate::http::authority_of(rest);
    let path = crate::http::path_of(rest);
    let (status, tone) = match tx.response {
        Some(r) => (crate::text::decimal(r.status as nat), tone_of_status(r.status)),
        None => ("···"@, Tone::StatusPending),
    };
    seq![
        span_of(
            crate::text::pad_right(safe(tx.request.method), 5) + " "@,
            tone_of_method(tx.request.method),
            Weight::Bold,
        ),
        span_of(crate::text::pad_right(status, 3) + " "@, tone, Weight::Plain),
        span_of(safe(host + row_path(host, path)), Tone::Text, Weight::Plain),
        span_of(row_duration(tx.duration_ms, seconds), Tone::Dim, Weight::Plain),
    ]
}

fn room_beside(host: &str) -> (room: usize)
    ensures
        room == path_room(host@),
{
    let used: usize = host.as_bytes().len();
    if used < ROW_BYTES {
        ROW_BYTES - used
    } else {
        0
    }
}

/// Whether the path of a transaction's URL is cut between two characters, if
/// it is cut.
pub fn can_list(tx: &Transaction) -> (r: bool)
    ensures
        r == cuts_cleanly(tx@.request.url),
{
    let room: usize = room_beside(tx.host());
    let path = tx.path();
    if path.as_bytes().len() > room {
        path.is_char_boundary(if room > 0 {
            room - 1
        } else {
            0
        })
    } else {
        true
    }
}

fn shown_path(host: &str, path: &str) -> (out: String)
    requires
        path_is_cut(host@, path@) ==> vstd::utf8::is_char_boundary(
            encode_utf8(path@),
            minus(path_room(host@), 1),
        ),
    ensures
        out@ == row_path(host@, path@),
{
    let room: usize = room_beside(host);
    if path.as_bytes().len() > room {
        let end: usize = if room > 0 {
            room - 1
        } else {
            0
        };
        let (kept, _) = path.split_at(end);
        proof {
            vstd::utf8::encode_utf8_decode_utf8(kept@);
        }
        let mut out = kept.to_string();
        out.push('…');
        out
    } else {
        path.to_string()
    }
}

/// The row of a transaction in the list: method, status, host and path, and
/// duration. `seconds` is the text for a duration of a second or more.
pub fn list_item(tx: &Transaction, seconds: &str) -> (line: Vec<StyledSpan>)
    requires
        cuts_cleanly(tx@.request.url),
    ensures
        line_view(line@) == row_of(tx@, seconds@),
{
    let mut method = pad_right_exec(sanitize(tx.request.method.as_str()).as_str(), 5);
    method.append(" ");
    let (status, tone) = match &tx.response {
        Some(r) => (decimal_text(r.status as u64), status_color(r.status)),
        None => ("···".to_string(), Tone::StatusPending),
    };
    let mut status = pad_right_exec(status.as_str(), 3);
    status.append(" ");
    let host = tx.host();
    let mut place = host.to_string();
    place.append(shown_path(host, tx.path()).as_str());
    let duration = match tx.duration_ms {
        Some(ms) => {
            let mut text = " ".to_string();
            if ms < 1000 {
                text.append(decimal_text(ms).as_str());
                text.append("ms");
            } else {
                text.append(sanitize(seconds).as_str());
                text.append("s");
            }
            text
        },
        None => String::new(),
    };
    let mut line: Vec<StyledSpan> = Vec::new();
    line.push(span(method, method_color(tx.request.method.as_str()), Weight::Bold));
    line.push(span(status, tone, Weight::Plain));
    line.push(span(sanitize(place.as_str()), Tone::Text, Weight::Plain));
    line.push(span(duration, Tone::Dim, Weight::Plain));
    assert(line_view(line@) =~= row_of(tx@, seconds@));
    line
}

/// The row of the list that is highlighted, if there are rows.
pub fn highlighted(app: &App) -> (r: Option<usize>)
    ensures
        r == (if app@.transactions.len() == 0 {
            None
        } else {
            Some(app.selected)
        }),
{
    if app.transactions.len() == 0 {
        None
    } else {
        Some(app.selected)
    }
}

/// The status bar.
pub open spec fn bar_of(app: AppView) -> LineView {
    let hint = match app.focus {
        Focus::List => "TAB→detail"@,
        Focus::Detail => "TAB→list"@,
    };
    seq![
        SpanView {
            text: " HERMES "@,
            fg: Tone::Background,
            bg: Some(Tone::BorderFocus),
            weight: Weight::Bold,
        },
        SpanView {
            text: "  "@ + crate::text::decimal(app.transactions.len()) + " captured  ↑↓/jk  "@
                + hint + "  q quit "@,
            fg: Tone::Dim,
            bg: Some(Tone::Background),
            weight: Weight::Plain,
        },
    ]
}

/// The status bar: how much was captured and which keys there are.
pub fn status_bar(app: &App) -> (line: Vec<StyledSpan>)
    ensures
        line_view(line@) == bar_of(app@),
{
    let mut text = "  ".to_string();
    text.append(decimal_text(app.transactions.len() as u64).as_str());
    text.append(" captured  ↑↓/jk  ");
    text.append(
        match app.focus {
            Focus::List => "TAB→detail",
            Focus::Detail => "TAB→list",
        },
    );
    text.append("  q quit ");
    two(
        StyledSpan {
            text: " HERMES ".to_string(),
            fg: Tone::Background,
            bg: Some(Tone::BorderFocus),
            weight: Weight::Bold,
        },
        StyledSpan { text, fg: Tone::Dim, bg: Some(Tone::Background), weight: Weight::Plain },
    )
}

// ---------------------------------------------------------------------------
// Laws
// ---------------------------------------------------------------------------

/// Sanitized text holds no control character, has as many characters as the
/// text it was made from, and is that text if it held none.
pub proof fn sanitized_text_is_clean(s: Seq<char>)
    ensures
        clean(safe(s)),
        safe(s).len() == s.len(),
        clean(s) ==> safe(s) == s,
        safe(safe(s)) == safe(s),
{
    assert forall|i: int| 0 <= i < safe(s).len() implies !is_control(#[trigger] safe(s)[i]) by {
        assert(safe(s)[i] == safe_char(s[i]));
        assert(!is_control(' ') && !is_control('·'));
    }
    if clean(s) {
        assert forall|i: int| 0 <= i < s.len() implies safe(s)[i] == s[i] by {
            assert(!is_control(s[i]));
            assert(is_control('\t'));
        }
        assert(safe(s) =~= s);
    }
    assert forall|i: int| 0 <= i < s.len() implies safe(safe(s))[i] == safe(s)[i] by {
        assert(!is_control(safe(s)[i]));
        assert(is_control('\t'));
    }
    assert(safe(safe(s)) =~= safe(s));
}

/// All pieces of a text, one after the other.
pub open spec fn joined(pieces: Seq<Seq<char>>) -> Seq<char>
    decreases pieces.len(),
{
    if pieces.len() == 0 {
        seq![]
    } else {
        pieces[0] + joined(pieces.skip(1))
    }
}

/// Splitting loses nothing: the pieces join to the text. No piece is longer
/// than the width, and all but the last are as long.
pub proof fn pieces_join_back(s: Seq<char>, width: nat)
    requires
        width > 0,
    ensures
        joined(chunks(s, width)) == s,
        forall|i: int|
            0 <= i < chunks(s, width).len() ==> (#[trigger] chunks(s, width)[i]).len() <= width,
        forall|i: int|
            0 <= i < chunks(s, width).len() - 1 ==> (#[trigger] chunks(s, width)[i]).len() == width,
    decreases s.len(),
{
    let all = chunks(s, width);
    if s.len() <= width {
        assert(all.skip(1) =~= seq![]);
        reveal_with_fuel(joined, 2);
        assert(joined(all) =~= s);
    } else {
        let rest = chunks(s.skip(width as int), width);
        pieces_join_back(s.skip(width as int), width);
        assert(all.skip(1) =~= rest);
        assert(all[0] =~= s.take(width as int));
        assert(joined(all) =~= s);
        assert forall|i: int| 0 <= i < all.len() implies (#[trigger] all[i]).len() <= width by {
            if i > 0 {
                assert(all[i] == rest[i - 1]);
            }
        }
        assert forall|i: int| 0 <= i < all.len() - 1 implies (#[trigger] all[i]).len() == width by {
            if i > 0 {
                assert(all[i] == rest[i - 1]);
            }
        }
    }
}

/// Text that is cut is as long as it may be, starts as the text did and ends in
/// an ellipsis; text that fits is left as it is.
pub proof fn cut_text_fits(s: Seq<char>, max: nat)
    requires
        max >= 1,
    ensures
        truncated(s, max).len() <= max,
        s.len() <= max ==> truncated(s, max) == s,
        s.len() > max ==> {
            &&& truncated(s, max).len() == max
            &&& truncated(s, max).drop_last().is_prefix_of(s)
            &&& truncated(s, max).last() == '…'
        },
{
    if s.len() > max {
        assert(truncated(s, max).drop_last() =~= s.take(max - 1));
    }
}

/// Whether no span of a line holds a control character.
pub open spec fn clean_line(line: LineView) -> bool {
    forall|i: int| 0 <= i < line.len() ==> clean((#[trigger] line[i]).text)
}

/// Whether no span of these lines holds a control character.
pub open spec fn clean_lines(lines: Seq<LineView>) -> bool {
    forall|i: int| 0 <= i < lines.len() ==> clean_line(#[trigger] lines[i])
}

proof fn lemma_clean_add(a: Seq<char>, b: Seq<char>)
    requires
        clean(a),
        clean(b),
    ensures
        clean(a + b),
{
    assert forall|i: int| 0 <= i < (a + b).len() implies !is_control(#[trigger] (a + b)[i]) by {
        if i < a.len() {
            assert((a + b)[i] == a[i]);
        } else {
            assert((a + b)[i] == b[i - a.len()]);
        }
    }
}

proof fn lemma_clean_pad(s: Seq<char>, width: int)
    requires
        clean(s),
    ensures
        clean(crate::text::pad_right(s, width)),
{
    if s.len() < width {
        let fill = crate::text::spaces(width - s.len());
        assert(clean(fill)) by {
            assert(!is_control(' '));
        }
        lemma_clean_add(s, fill);
    }
}

proof fn lemma_clean_decimal(n: nat)
    ensures
        clean(crate::text::decimal(n)),
{
    crate::text::decimal_is_digits(n);
}

proof fn lemma_clean_cut(s: Seq<char>, max: nat)
    requires
        clean(s),
    ensures
        clean(truncated(s, max)),
{
    if max >= 1 && s.len() > max {
        let out = truncated(s, max);
        assert forall|i: int| 0 <= i < out.len() implies !is_control(#[trigger] out[i]) by {
            if i < max - 1 {
                assert(out[i] == s[i]);
            } else {
                assert(out[i] == '…');
                assert(!is_control('…'));
            }
        }
    }
}

proof fn lemma_clean_chunks(s: Seq<char>, width: nat)
    requires
        clean(s),
    ensures
        forall|i: int|
            0 <= i < chunks(s, width).len() ==> clean(#[trigger] chunks(s, width)[i]),
    decreases s.len(),
{
    if width > 0 && s.len() > width {
        let (a, b) = (s.take(width as int), s.skip(width as int));
        assert forall|i: int| 0 <= i < a.len() implies !is_control(#[trigger] a[i]) by {
            assert(a[i] == s[i]);
        }
        assert forall|i: int| 0 <= i < b.len() implies !is_control(#[trigger] b[i]) by {
            assert(b[i] == s[i + width]);
        }
        lemma_clean_chunks(b, width);
        let all = chunks(s, width);
        assert forall|i: int| 0 <= i < all.len() implies clean(#[trigger] all[i]) by {
            if i > 0 {
                assert(all[i] == chunks(b, width)[i - 1]);
            }
        }
    }
}

proof fn lemma_clean_lines_add(a: Seq<LineView>, b: Seq<LineView>)
    requires
        clean_lines(a),
        clean_lines(b),
    ensures
        clean_lines(a + b),
{
    assert forall|i: int| 0 <= i < (a + b).len() implies clean_line(#[trigger] (a + b)[i]) by {
        if i < a.len() {
            assert((a + b)[i] == a[i]);
        } else {
            assert((a + b)[i] == b[i - a.len()]);
        }
    }
}

proof fn lemma_clean_pair(key: Seq<char>, value: Seq<char>, tone: Tone)
    requires
        clean(key),
    ensures
        clean_line(pair_line(key, value, tone)),
{
    lemma_clean_pad(key, 10);
    sanitized_text_is_clean(value);
}

proof fn lemma_clean_field(name: Seq<char>, value: Seq<char>, width: int)
    ensures
        clean_line(field_line(name, value, width)),
{
    sanitized_text_is_clean(name);
    sanitized_text_is_clean(value);
    lemma_clean_cut(safe(name), NAME_WIDTH as nat);
    lemma_clean_pad(truncated(safe(name), NAME_WIDTH as nat), NAME_WIDTH as int);
    lemma_clean_cut(safe(value), at_least(width - NAME_WIDTH - 1, 10) as nat);
}

proof fn lemma_clean_wrapped(lines: Seq<Seq<char>>, wrap: nat)
    ensures
        clean_lines(all_wrapped(lines, wrap)),
    decreases lines.len(),
{
    if lines.len() > 0 {
        lemma_clean_wrapped(lines.drop_last(), wrap);
        let line = lines.last();
        let last = wrapped(line, wrap);
        sanitized_text_is_clean(line);
        lemma_clean_chunks(safe(line), wrap);
        assert forall|i: int| 0 <= i < last.len() implies clean_line(#[trigger] last[i]) by {
            if line.len() > 0 {
                assert(last[i] == seq![
                    span_of(chunks(safe(line), wrap)[i], Tone::Text, Weight::Plain),
                ]);
            }
        }
        lemma_clean_lines_add(all_wrapped(lines.drop_last(), wrap), last);
    }
}

proof fn lemma_clean_kind(body: Seq<u8>)
    ensures
        clean(kind_of(body)),
{
    reveal_strlit("image/png");
    reveal_strlit("image/jpeg");
    reveal_strlit("image/gif");
    reveal_strlit("image/webp");
    reveal_strlit("application/gzip");
    reveal_strlit("application/zip");
    reveal_strlit("application/pdf");
    reveal_strlit("binary");
}

proof fn lemma_clean_body(body: Seq<u8>, text: Seq<char>, width: int)
    ensures
        clean_lines(body_of(body, text, width)),
{
    reveal_strlit("(empty body)");
    reveal_strlit("… ");
    reveal_strlit(" more lines — scroll or use `hermes replay` to view full body");
    reveal_strlit("(");
    reveal_strlit(" — ");
    reveal_strlit(" bytes, not rendered)");
    if never_text(body) {
        lemma_clean_kind(body);
        lemma_clean_decimal(body.len());
        lemma_clean_add("("@, kind_of(body));
        lemma_clean_add("("@ + kind_of(body), " — "@);
        lemma_clean_add("("@ + kind_of(body) + " — "@, crate::text::decimal(body.len()));
        lemma_clean_add(
            "("@ + kind_of(body) + " — "@ + crate::text::decimal(body.len()),
            " bytes, not rendered)"@,
        );
        assert(clean_line(remark(not_rendered(body))));
    } else {
        let lines = crate::text::lines(text);
        let wrap = wrap_width(width);
        if lines.len() == 0 {
            assert(clean_line(remark("(empty body)"@)));
        } else if lines.len() <= MAX_BODY_LINES {
            lemma_clean_wrapped(lines, wrap);
        } else {
            let count = (lines.len() - MAX_BODY_LINES) as nat;
            lemma_clean_wrapped(lines.take(MAX_BODY_LINES as int), wrap);
            lemma_clean_decimal(count);
            lemma_clean_add("… "@, crate::text::decimal(count));
            lemma_clean_add(
                "… "@ + crate::text::decimal(count),
                " more lines — scroll or use `hermes replay` to view full body"@,
            );
            assert(clean_line(remark(more_lines(count))));
            assert(clean_lines(seq![remark(more_lines(count))]));
            lemma_clean_lines_add(
                all_wrapped(lines.take(MAX_BODY_LINES as int), wrap),
                seq![remark(more_lines(count))],
            );
        }
    }
}

proof fn lemma_clean_headers(headers: crate::http::HeaderSeq, width: int)
    ensures
        clean_lines(header_block(headers, width)),
{
    reveal_strlit("Headers");
    let block = header_block(headers, width);
    assert forall|i: int| 0 <= i < block.len() implies clean_line(#[trigger] block[i]) by {
        if i == 0 {
            assert(block[i] == sub_line("Headers"@));
        } else if i < block.len() - 1 {
            let h = headers[i - 1];
            assert(block[i] == field_line(h.0, h.1, width));
            lemma_clean_field(h.0, h.1, width);
        } else {
            assert(block[i] == LineView::empty());
        }
    }
}

proof fn lemma_clean_body_block(body: Seq<u8>, text: Seq<char>, width: int)
    ensures
        clean_lines(body_block(body, text, width)),
{
    reveal_strlit("Body");
    if body.len() > 0 {
        assert(clean_line(sub_line("Body"@)));
        assert(clean_lines(seq![sub_line("Body"@)]));
        lemma_clean_body(body, text, width);
        lemma_clean_lines_add(seq![sub_line("Body"@)], body_of(body, text, width));
    }
}

proof fn lemma_clean_request(tx: TransactionView, text: Seq<char>, width: int)
    ensures
        clean_lines(request_block(tx, text, width)),
{
    reveal_strlit("REQUEST");
    reveal_strlit("Method");
    reveal_strlit("URL");
    let r = tx.request;
    let empty = seq![LineView::empty()];
    let first = seq![
        section_line("REQUEST"@),
        pair_line("Method"@, r.method, tone_of_method(r.method)),
    ];
    lemma_clean_pair("Method"@, r.method, tone_of_method(r.method));
    assert(clean_line(section_line("REQUEST"@)));
    assert(clean_lines(first));
    let urls = url_lines(r.url, width);
    assert forall|i: int| 0 <= i < urls.len() implies clean_line(#[trigger] urls[i]) by {
        let piece = chunks(r.url, at_least(minus(width, 10), LEAST_WIDTH as int) as nat)[i];
        assert(urls[i] == pair_line("URL"@, piece, Tone::Text));
        lemma_clean_pair("URL"@, piece, Tone::Text);
    }
    assert(clean_lines(empty));
    lemma_clean_headers(r.headers, width);
    lemma_clean_body_block(r.body, text, width);
    let headers = header_block(r.headers, width);
    let body = body_block(r.body, text, width);
    let last = if r.body.len() == 0 {
        Seq::<LineView>::empty()
    } else {
        empty
    };
    lemma_clean_lines_add(first, urls);
    lemma_clean_lines_add(first + urls, empty);
    lemma_clean_lines_add(first + urls + empty, headers);
    lemma_clean_lines_add(first + urls + empty + headers, body);
    lemma_clean_lines_add(first + urls + empty + headers + body, last);
    assert(request_block(tx, text, width) =~= first + urls + empty + headers + body + last);
}

proof fn lemma_clean_response(tx: TransactionView, text: Seq<char>, width: int)
    ensures
        clean_lines(response_block(tx, text, width)),
{
    reveal_strlit("RESPONSE");
    reveal_strlit("pending…");
    reveal_strlit("Status");
    reveal_strlit("Duration");
    let title = seq![section_line("RESPONSE"@)];
    assert(clean_line(section_line("RESPONSE"@)));
    assert(clean_lines(title));
    match tx.response {
        None => {
            let line = seq![span_of("pending…"@, Tone::StatusPending, Weight::Italic)];
            assert(clean_line(line));
            assert(clean_lines(seq![line]));
            lemma_clean_lines_add(title, seq![line]);
        },
        Some(r) => {
            let status = seq![
                pair_line(
                    "Status"@,
                    crate::text::decimal(r.status as nat),
                    tone_of_status(r.status),
                ),
            ];
            lemma_clean_pair(
                "Status"@,
                crate::text::decimal(r.status as nat),
                tone_of_status(r.status),
            );
            assert(clean_lines(status));
            let duration = match tx.duration_ms {
                Some(ms) => seq![
                    pair_line("Duration"@, crate::text::decimal(ms as nat) + " ms"@, Tone::Dim),
                ],
                None => seq![],
            };
            if let Some(ms) = tx.duration_ms {
                lemma_clean_pair("Duration"@, crate::text::decimal(ms as nat) + " ms"@, Tone::Dim);
            }
            assert(clean_lines(duration));
            let empty = seq![LineView::empty()];
            assert(clean_lines(empty));
            let headers = header_block(r.headers, width);
            let body = body_block(r.body, text, width);
            lemma_clean_headers(r.headers, width);
            lemma_clean_body_block(r.body, text, width);
            lemma_clean_lines_add(status, duration);
            lemma_clean_lines_add(status + duration, empty);
            lemma_clean_lines_add(status + duration + empty, headers);
            lemma_clean_lines_add(status + duration + empty + headers, body);
            lemma_clean_lines_add(title, status + duration + empty + headers + body);
            assert(response_block(tx, text, width) =~= title + (status + duration + empty + headers
                + body));
        },
    }
}

/// Nothing in the detail panel holds a control character, whatever was captured
/// and whatever the bodies read.
pub proof fn detail_is_clean(
    tx: TransactionView,
    request_text: Seq<char>,
    response_text: Seq<char>,
    width: int,
)
    ensures
        clean_lines(
            request_block(tx, request_text, width) + response_block(tx, response_text, width),
        ),
{
    lemma_clean_request(tx, request_text, width);
    lemma_clean_response(tx, response_text, width);
    lemma_clean_lines_add(
        request_block(tx, request_text, width),
        response_block(tx, response_text, width),
    );
}

/// No row of the list holds a control character, whatever was captured.
pub proof fn rows_are_clean(tx: TransactionView, seconds: Seq<char>)
    ensures
        clean_line(row_of(tx, seconds)),
{
    reveal_strlit(" ");
    reveal_strlit("···");
    reveal_strlit("ms");
    reveal_strlit("s");
    let rest = crate::transaction::after_scheme(tx.request.url);
    let host = crate::http::authority_of(rest);
    let path = crate::http::path_of(rest);
    sanitized_text_is_clean(tx.request.method);
    lemma_clean_pad(safe(tx.request.method), 5);
    lemma_clean_add(crate::text::pad_right(safe(tx.request.method), 5), " "@);
    let status = match tx.response {
        Some(r) => crate::text::decimal(r.status as nat),
        None => "···"@,
    };
    if let Some(r) = tx.response {
        lemma_clean_decimal(r.status as nat);
    }
    assert(clean(status));
    lemma_clean_pad(status, 3);
    lemma_clean_add(crate::text::pad_right(status, 3), " "@);
    sanitized_text_is_clean(host + row_path(host, path));
    if let Some(ms) = tx.duration_ms {
        lemma_clean_decimal(ms as nat);
        sanitized_text_is_clean(seconds);
        lemma_clean_add(" "@, crate::text::decimal(ms as nat));
        lemma_clean_add(" "@ + crate::text::decimal(ms as nat), "ms"@);
        lemma_clean_add(" "@, safe(seconds));
        lemma_clean_add(" "@ + safe(seconds), "s"@);
    }
    assert(clean(row_duration(tx.duration_ms, seconds)));
}

/// The status bar holds no control character.
pub proof fn bar_is_clean(app: AppView)
    ensures
        clean_line(bar_of(app)),
{
    reveal_strlit(" HERMES ");
    reveal_strlit("  ");
    reveal_strlit(" captured  ↑↓/jk  ");
    reveal_strlit("TAB→detail");
    reveal_strlit("TAB→list");
    reveal_strlit("  q quit ");
    let count = crate::text::decimal(app.transactions.len());
    let hint = match app.focus {
        Focus::List => "TAB→detail"@,
        Focus::Detail => "TAB→list"@,
    };
    lemma_clean_decimal(app.transactions.len());
    lemma_clean_add("  "@, count);
    lemma_clean_add("  "@ + count, " captured  ↑↓/jk  "@);
    lemma_clean_add("  "@ + count + " captured  ↑↓/jk  "@, hint);
    lemma_clean_add("  "@ + count + " captured  ↑↓/jk  "@ + hint, "  q quit "@);
}

/// A binary body is shown as one remark, whatever its bytes would read as: one
/// that looks binary, and any that is an image, an archive or a PDF. Any other
/// body is shown as its text.
pub proof fn binary_bodies_are_not_shown(body: Seq<u8>, a: Seq<char>, b: Seq<char>, width: int)
    ensures
        looks_binary(body) || known_content(body) ==> {
            &&& body_of(body, a, width) == body_of(body, b, width)
            &&& body_of(body, a, width).len() == 1
        },
        !looks_binary(body) && !known_content(body) ==> body_of(body, a, width) == text_body(
            a,
            width,
        ),
{
}

proof fn lemma_wrapped_widths(lines: Seq<Seq<char>>, wrap: nat)
    requires
        wrap > 0,
    ensures
        forall|i: int|
            0 <= i < all_wrapped(lines, wrap).len() ==> {
                let line = #[trigger] all_wrapped(lines, wrap)[i];
                line.len() == 0 || line.len() == 1 && line[0].text.len() <= wrap
            },
    decreases lines.len(),
{
    if lines.len() > 0 {
        let before = all_wrapped(lines.drop_last(), wrap);
        let line = lines.last();
        let last = wrapped(line, wrap);
        let all = all_wrapped(lines, wrap);
        lemma_wrapped_widths(lines.drop_last(), wrap);
        pieces_join_back(safe(line), wrap);
        assert forall|i: int| 0 <= i < all.len() implies {
            let l = #[trigger] all[i];
            l.len() == 0 || l.len() == 1 && l[0].text.len() <= wrap
        } by {
            if i < before.len() {
                assert(all[i] == before[i]);
            } else {
                let k = i - before.len();
                assert(all[i] == last[k]);
                if line.len() > 0 {
                    assert(last[k] == seq![
                        span_of(chunks(safe(line), wrap)[k], Tone::Text, Weight::Plain),
                    ]);
                }
            }
        }
    }
}

/// A line of a text body, apart from the remark about lines that are not shown,
/// fits the panel and the limit; a panel that is less than forty-two columns
/// wide counts as that wide.
pub proof fn body_lines_fit(text: Seq<char>, width: int, i: int)
    requires
        crate::text::lines(text).len() > 0,
        0 <= i < text_body(text, width).len(),
        i < text_body(text, width).len() - 1 || crate::text::lines(text).len() <= MAX_BODY_LINES,
    ensures
        ({
            let line = text_body(text, width)[i];
            line.len() == 0 || line.len() == 1 && line[0].text.len() <= MAX_LINE
                && line[0].text.len() <= at_least(width, 42) - 2
        }),
{
    let lines = crate::text::lines(text);
    let shown = if lines.len() <= MAX_BODY_LINES {
        lines
    } else {
        lines.take(MAX_BODY_LINES as int)
    };
    lemma_wrapped_widths(shown, wrap_width(width));
    assert(text_body(text, width)[i] == all_wrapped(shown, wrap_width(width))[i]);
}

} // verus!
