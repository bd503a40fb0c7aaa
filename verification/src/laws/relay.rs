//! What holds of bodies under way: the sizes of chunks, what is asked for, what
//! is kept, and when a body is complete.

use vstd::prelude::*;

use crate::http::{BodyKind, HttpError};
use crate::laws::text::{
    all_line_ends, all_space, lemma_numeral, line_ends_are_removed, numbers_read_back, numeral,
    searching_finds_the_first, trimming_removes_outer_whitespace,
};
use crate::relay::{
    body_events, captured, chunk_size, chunked_body_completes, chunked_steps, data_step, fits,
    joined, line_step, payload, read_size, BodyState, ChunkInput, ChunkState, ChunkedView, Want,
    BUFFER_SIZE, CAPTURE_LIMIT,
};
use crate::text::{find, is_space, parse_number, trim, trim_newlines};

verus! {

// ---------------------------------------------------------------------------
// Sizes of chunks
// ---------------------------------------------------------------------------

proof fn lemma_size_text(a: Seq<char>, n: nat, upper: bool, b: Seq<char>)
    requires
        all_space(a),
        all_space(b),
        forall|i: int| 0 <= i < a.len() ==> (#[trigger] a[i]) != '\n' && a[i] != '\r',
        forall|i: int| 0 <= i < b.len() ==> (#[trigger] b[i]) != '\n' && b[i] != '\r',
    ensures
        ({
            let t = a + numeral(n, 16, upper) + b;
            &&& trim(t) == numeral(n, 16, upper)
            &&& t.len() > 0
            &&& t.last() != '\r' && t.last() != '\n'
            &&& !t.contains(';')
        }),
{
    let digits = numeral(n, 16, upper);
    let t = a + digits + b;
    lemma_numeral(n, 16, upper);
    assert(!is_space(digits[0]));
    assert(!is_space(digits[digits.len() - 1]));
    trimming_removes_outer_whitespace(a, digits, b);
    if b.len() > 0 {
        assert(t.last() == b[b.len() - 1]);
    } else {
        assert(t.last() == digits[digits.len() - 1]);
    }
    if t.contains(';') {
        let k = choose|k: int| 0 <= k < t.len() && t[k] == ';';
        if k < a.len() {
            assert(is_space(a[k]));
        } else if k < a.len() + digits.len() {
            assert(t[k] == digits[k - a.len()]);
        } else {
            assert(is_space(b[k - a.len() - digits.len()]));
        }
    }
}

/// A size line with the hexadecimal digits of a number, in lower or upper case,
/// gives that number, up to the largest one that a size can be. Spaces around the
/// digits, what follows a semicolon and how the line ends make no difference.
pub proof fn size_lines_give_their_number(
    n: nat,
    upper: bool,
    a: Seq<char>,
    b: Seq<char>,
    extension: Seq<char>,
    end: Seq<char>,
)
    requires
        all_space(a),
        all_space(b),
        forall|i: int| 0 <= i < a.len() ==> (#[trigger] a[i]) != '\n' && a[i] != '\r',
        forall|i: int| 0 <= i < b.len() ==> (#[trigger] b[i]) != '\n' && b[i] != '\r',
        extension.len() > 0 ==> extension.last() != '\r' && extension.last() != '\n',
        all_line_ends(end),
    ensures
        ({
            let size = if n <= usize::MAX {
                n
            } else {
                0
            };
            &&& chunk_size(numeral(n, 16, upper) + end) == size
            &&& chunk_size(a + numeral(n, 16, upper) + b + end) == size
            &&& chunk_size(a + numeral(n, 16, upper) + b + seq![';'] + extension + end) == size
        }),
{
    let none = Seq::<char>::empty();
    let digits = numeral(n, 16, upper);
    numbers_read_back(n, 16, upper, usize::MAX as nat);
    lemma_size_text(none, n, upper, none);
    assert(none + digits + none =~= digits);
    line_ends_are_removed(digits, end);
    crate::text::lemma_find(digits, ';');
    let t = a + digits + b;
    lemma_size_text(a, n, upper, b);
    line_ends_are_removed(t, end);
    crate::text::lemma_find(t, ';');
    let u = t + seq![';'] + extension;
    line_ends_are_removed(u, end);
    searching_finds_the_first(t, ';', extension);
    assert(u.take(t.len() as int) =~= t);
    assert(find(digits, ';') is None) by {
        if let Some(i) = find(digits, ';') {
            assert(digits.contains(digits[i]));
        }
    }
    assert(find(t, ';') is None) by {
        if let Some(i) = find(t, ';') {
            assert(t.contains(t[i]));
        }
    }
}

/// However its number is written, with leading zeros or a sign, a size line gives
/// what stands before its first semicolon; zero if that is no number.
pub proof fn size_lines_are_read_up_to_a_semicolon(
    text: Seq<char>,
    extension: Seq<char>,
    end: Seq<char>,
)
    requires
        !text.contains(';'),
        extension.len() > 0 ==> extension.last() != '\r' && extension.last() != '\n',
        all_line_ends(end),
    ensures
        ({
            let whole = text.len() == 0 || text.last() != '\r' && text.last() != '\n';
            let size = match parse_number(trim(text), 16, usize::MAX as nat) {
                Some(n) => n,
                None => 0,
            };
            &&& whole ==> chunk_size(text + end) == size
            &&& chunk_size(text + seq![';'] + extension + end) == size
        }),
{
    if text.len() == 0 || text.last() != '\r' && text.last() != '\n' {
        line_ends_are_removed(text, end);
    }
    let u = text + seq![';'] + extension;
    line_ends_are_removed(u, end);
    searching_finds_the_first(text, ';', extension);
    assert(u.take(text.len() as int) =~= text);
    crate::text::lemma_find(text, ';');
    assert(find(text, ';') is None) by {
        if let Some(i) = find(text, ';') {
            assert(text.contains(text[i]));
        }
    }
}

// ---------------------------------------------------------------------------
// Steps
// ---------------------------------------------------------------------------

/// A size line opens a chunk of just that size, or the trailer if the size is
/// zero; the trailer ends at an empty line and at no other. Where a line was to
/// come and none did, the body was cut off.
pub proof fn lines_open_chunks_and_end_bodies(
    n: nat,
    upper: bool,
    text: Seq<char>,
    end: Seq<char>,
)
    requires
        n <= usize::MAX,
        all_line_ends(end),
        text.len() > 0 ==> text.last() != '\r' && text.last() != '\n',
    ensures
        n > 0 ==> line_step(ChunkState::Size, numeral(n, 16, upper) + end) == Ok::<
            ChunkState,
            HttpError,
        >(ChunkState::Data(n as u64)),
        n == 0 ==> line_step(ChunkState::Size, numeral(n, 16, upper) + end) == Ok::<
            ChunkState,
            HttpError,
        >(ChunkState::Trailer),
        line_step(ChunkState::Size, Seq::empty()) == Err::<ChunkState, HttpError>(
            HttpError::ClosedInChunkSize,
        ),
        text.len() > 0 ==> line_step(ChunkState::Trailer, text + end) == Ok::<
            ChunkState,
            HttpError,
        >(ChunkState::Trailer),
        end.len() > 0 ==> line_step(ChunkState::Trailer, end) == Ok::<ChunkState, HttpError>(
            ChunkState::Done,
        ),
        line_step(ChunkState::Trailer, Seq::empty()) == Err::<ChunkState, HttpError>(
            HttpError::ClosedInTrailer,
        ),
        text.len() > 0 ==> line_step(ChunkState::Size, text + end) == Ok::<ChunkState, HttpError>(
            if chunk_size(text + end) == 0 {
                ChunkState::Trailer
            } else {
                ChunkState::Data(chunk_size(text + end) as u64)
            },
        ),
{
    let none = Seq::<char>::empty();
    size_lines_give_their_number(n, upper, none, none, none, end);
    lemma_numeral(n, 16, upper);
    line_ends_are_removed(text, end);
    line_ends_are_removed(none, end);
    assert(none + end =~= end);
}

/// Every byte that comes brings a chunk or a body of known length one byte nearer
/// to its end, and the last one is at the end.
pub proof fn bytes_are_counted(remaining: u64, count: nat)
    requires
        0 < count <= remaining,
    ensures
        count < remaining ==> data_step(remaining, count) == ChunkState::Data(
            (remaining - count) as u64,
        ),
        count == remaining ==> data_step(remaining, count) == ChunkState::DataEnd,
        BodyState::Fixed(remaining).after_bytes(count) == BodyState::Fixed(
            (remaining - count) as u64,
        ),
        BodyState::Chunked(ChunkState::Data(remaining)).after_bytes(count) == BodyState::Chunked(
            data_step(remaining, count),
        ),
        BodyState::UntilClose(false).after_bytes(count) == BodyState::UntilClose(false),
        BodyState::UntilClose(false).after_bytes(0) == BodyState::UntilClose(true),
{
}

/// No more is read at once than is missing and than the buffer holds, and as much
/// as both allow; a complete body asks for nothing more.
pub proof fn reads_fit_what_is_missing(n: u64)
    ensures
        read_size(n) <= n,
        read_size(n) <= 8192,
        read_size(n) == n || read_size(n) == 8192,
        BUFFER_SIZE == 8192,
        n > 0 ==> BodyState::Fixed(n).want() == Want::Bytes(read_size(n)),
        BodyState::Fixed(0).want() == Want::Nothing,
        BodyState::Chunked(ChunkState::Size).want() == Want::Line,
        n > 0 ==> BodyState::Chunked(ChunkState::Data(n)).want() == Want::Bytes(read_size(n)),
        BodyState::Chunked(ChunkState::DataEnd).want() == Want::LineEnd,
        BodyState::Chunked(ChunkState::Trailer).want() == Want::Line,
        BodyState::Chunked(ChunkState::Done).want() == Want::Nothing,
        BodyState::UntilClose(false).want() == Want::Bytes(8192),
        BodyState::UntilClose(true).want() == Want::Nothing,
{
}

/// A body starts with all of it missing, and the end of the stream completes it
/// only if nothing else can.
pub proof fn bodies_start_with_nothing(length: u64, state: BodyState)
    ensures
        BodyState::start(BodyKind::Empty).want() == Want::Nothing,
        BodyState::start(BodyKind::ContentLength(length)) == BodyState::Fixed(length),
        BodyState::start(BodyKind::Chunked) == BodyState::Chunked(ChunkState::Size),
        BodyState::start(BodyKind::UntilClose) == BodyState::UntilClose(false),
        state.may_end() <==> state == BodyState::UntilClose(false) || state
            == BodyState::UntilClose(true),
{
}

// ---------------------------------------------------------------------------
// What is kept
// ---------------------------------------------------------------------------

/// What is kept of a body is its beginning, up to the limit: what was kept, and
/// of what comes as much as there is room for. The limit is 16384 bytes.
pub proof fn the_beginning_is_kept(kept: Seq<u8>, chunk: Seq<u8>, limit: nat)
    ensures
        kept.len() <= limit && kept.len() + chunk.len() <= limit ==> captured(kept, chunk, limit)
            == kept + chunk,
        kept.len() <= limit && kept.len() + chunk.len() > limit ==> captured(kept, chunk, limit)
            == (kept + chunk).take(limit as int),
        kept.len() > limit ==> captured(kept, chunk, limit) == kept,
        CAPTURE_LIMIT == 16384,
{
    if kept.len() <= limit {
        if kept.len() + chunk.len() <= limit {
            assert(captured(kept, chunk, limit) =~= kept + chunk);
        } else {
            assert(captured(kept, chunk, limit) =~= (kept + chunk).take(limit as int));
        }
    }
}

/// A chunked body whose size lines hold the lengths of its chunks, in
/// hexadecimal, is complete at the empty line after its last chunk, and what is
/// kept of it are the bytes of its chunks, one after the other, up to the limit.
pub proof fn written_chunks_are_read(
    chunks: Seq<ChunkInput>,
    upper: bool,
    trailers: Seq<Seq<char>>,
    end: Seq<char>,
    limit: nat,
)
    requires
        all_line_ends(end),
        end.len() > 0,
        forall|i: int|
            0 <= i < chunks.len() ==> {
                let chunk = #[trigger] chunks[i];
                let size = joined(chunk.pieces).len();
                &&& 0 < size <= usize::MAX
                &&& chunk.line == numeral(size, 16, upper) + end
                &&& forall|k: int|
                    0 <= k < chunk.pieces.len() ==> 0 < (#[trigger] chunk.pieces[k]).len() <= 8192
            },
        forall|i: int|
            0 <= i < trailers.len() ==> trim_newlines(#[trigger] trailers[i]).len() > 0,
    ensures
        ({
            let body = payload(chunks);
            let done = chunked_steps(
                ChunkedView { state: ChunkState::Size, kept: Seq::empty() },
                body_events(chunks, numeral(0, 16, upper) + end, trailers, end),
                limit,
            );
            &&& done matches Some(view)
            &&& view.state == ChunkState::Done
            &&& body.len() <= limit ==> view.kept == body
            &&& body.len() > limit ==> view.kept == body.take(limit as int)
        }),
{
    let none = Seq::<char>::empty();
    let last = numeral(0, 16, upper) + end;
    lemma_numeral(0, 16, upper);
    size_lines_give_their_number(0, upper, none, none, none, end);
    line_ends_are_removed(none, end);
    assert(none + end =~= end);
    assert forall|i: int| 0 <= i < chunks.len() implies fits(#[trigger] chunks[i]) by {
        let size = joined(chunks[i].pieces).len();
        lemma_numeral(size, 16, upper);
        size_lines_give_their_number(size, upper, none, none, none, end);
    }
    chunked_body_completes(Seq::empty(), chunks, last, trailers, end, limit);
    let body = payload(chunks);
    the_beginning_is_kept(Seq::empty(), body, limit);
    assert(Seq::<u8>::empty() + body =~= body);
}

} // verus!
