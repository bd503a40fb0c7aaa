//! Relaying message bodies: what to read next, when the body is complete, and
//! which of its bytes are kept.

use vstd::prelude::*;
use vstd::slice::slice_subrange;

use crate::http::{BodyKind, HttpError};
use crate::text::{chars_of, find_exec, parse_number_exec, trim_exec, trim_newlines_exec};

verus! {

/// How many bytes of a body are kept, at most.
pub const CAPTURE_LIMIT: usize = 16 * 1024;

/// How many bytes are read at once, at most.
pub const BUFFER_SIZE: usize = 8192;

// ---------------------------------------------------------------------------
// Capturing
// ---------------------------------------------------------------------------

/// What is kept after `chunk` came: as much of it as `limit` leaves room for.
pub open spec fn captured(kept: Seq<u8>, chunk: Seq<u8>, limit: nat) -> Seq<u8> {
    if kept.len() < limit {
        kept + chunk.take(if limit - kept.len() < chunk.len() {
            limit - kept.len()
        } else {
            chunk.len() as int
        })
    } else {
        kept
    }
}

/// Keeps as much of `chunk` as `limit` leaves room for.
pub fn capture_chunk(capture: &mut Vec<u8>, chunk: &[u8], limit: usize)
    ensures
        final(capture)@ == captured(old(capture)@, chunk@, limit as nat),
{
    if capture.len() < limit {
        let room: usize = limit - capture.len();
        let take: usize = if room < chunk.len() {
            room
        } else {
            chunk.len()
        };
        let part = slice_subrange(chunk, 0, take);
        capture.extend_from_slice(part);
        assert(capture@ =~= captured(old(capture)@, chunk@, limit as nat));
    }
}

// ---------------------------------------------------------------------------
// Bodies of a known length
// ---------------------------------------------------------------------------

/// A body of known length under way.
pub struct FixedRelay {
    pub remaining: u64,
}

/// How many bytes to read next while `remaining` are missing.
pub open spec fn read_size(remaining: u64) -> usize {
    if remaining < BUFFER_SIZE {
        remaining as usize
    } else {
        BUFFER_SIZE
    }
}

impl FixedRelay {
    /// A body of `length` bytes of which nothing has come.
    pub fn new(length: u64) -> (r: FixedRelay)
        ensures
            r.remaining == length,
    {
        FixedRelay { remaining: length }
    }

    /// How many bytes to read next; zero when the body is complete.
    pub fn next_read(&self) -> (n: usize)
        ensures
            n == read_size(self.remaining),
            n == 0 <==> self.remaining == 0,
    {
        if self.remaining < BUFFER_SIZE as u64 {
            self.remaining as usize
        } else {
            BUFFER_SIZE
        }
    }

    /// Takes what one read gave; nothing means that the peer stopped too early.
    pub fn on_read(&mut self, chunk: &[u8], capture: &mut Vec<u8>, limit: usize) -> (r: Result<
        (),
        HttpError,
    >)
        requires
            chunk@.len() <= read_size(old(self).remaining),
        ensures
            match r {
                Ok(_) => {
                    &&& chunk@.len() > 0
                    &&& final(self).remaining == old(self).remaining - chunk@.len()
                    &&& final(capture)@ == captured(old(capture)@, chunk@, limit as nat)
                },
                Err(e) => {
                    &&& chunk@.len() == 0
                    &&& e == HttpError::ClosedInBody
                    &&& *final(self) == *old(self)
                    &&& *final(capture) == *old(capture)
                },
            },
    {
        if chunk.len() == 0 {
            return Err(HttpError::ClosedInBody);
        }
        capture_chunk(capture, chunk, limit);
        self.remaining = self.remaining - chunk.len() as u64;
        Ok(())
    }
}

// ---------------------------------------------------------------------------
// Chunked bodies
// ---------------------------------------------------------------------------

/// Where a chunked body stands.
#[derive(Debug, Clone, Copy, PartialEq, Eq, Structural)]
pub enum ChunkState {
    /// The line with the size of the next chunk comes next.
    Size,
    /// So many bytes of the current chunk are missing.
    Data(u64),
    /// The line end after a chunk comes next.
    DataEnd,
    /// A trailer line or the final empty line comes next.
    Trailer,
    /// The body is complete.
    Done,
}

/// What a chunked body needs next.
#[derive(Debug, Clone, Copy, PartialEq, Eq, Structural)]
pub enum Want {
    /// One line.
    Line,
    /// At least one byte and at most so many.
    Bytes(usize),
    /// The two bytes of a line end.
    LineEnd,
    /// Nothing more.
    Nothing,
}

/// The part of a size line that holds the size.
pub open spec fn size_part(line: Seq<char>) -> Seq<char> {
    let t = crate::text::trim_newlines(line);
    crate::text::trim(match crate::text::find(t, ';') {
        Some(i) => t.take(i),
        None => t,
    })
}

/// The size that a size line gives: a hexadecimal number before any `;`, and
/// zero if there is none.
pub open spec fn chunk_size(line: Seq<char>) -> nat {
    match crate::text::parse_number(size_part(line), 16, usize::MAX as nat) {
        Some(n) => n,
        None => 0,
    }
}

/// The state after a line came.
pub open spec fn line_step(state: ChunkState, line: Seq<char>) -> Result<ChunkState, HttpError> {
    match state {
        ChunkState::Size => if line.len() == 0 {
            Err(HttpError::ClosedInChunkSize)
        } else if chunk_size(line) == 0 {
            Ok(ChunkState::Trailer)
        } else {
            Ok(ChunkState::Data(chunk_size(line) as u64))
        },
        ChunkState::Trailer => if line.len() == 0 {
            Err(HttpError::ClosedInTrailer)
        } else if crate::text::trim_newlines(line).len() == 0 {
            Ok(ChunkState::Done)
        } else {
            Ok(ChunkState::Trailer)
        },
        _ => Ok(state),
    }
}

/// The state after `n` more bytes of a chunk came.
pub open spec fn data_step(remaining: u64, n: nat) -> ChunkState {
    if n < remaining {
        ChunkState::Data((remaining - n) as u64)
    } else {
        ChunkState::DataEnd
    }
}

/// The size that a size line gives.
pub fn parse_chunk_size(line: &str) -> (size: u64)
    ensures
        size == chunk_size(line@),
{
    let chars = chars_of(line);
    let trimmed = trim_newlines_exec(chars.as_slice());
    let part = match find_exec(trimmed, ';') {
        Some(i) => slice_subrange(trimmed, 0, i),
        None => trimmed,
    };
    assert(crate::text::trim(part@) == size_part(line@)) by {
        let t = crate::text::trim_newlines(line@);
        match crate::text::find(t, ';') {
            Some(i) => assert(part@ =~= t.take(i)),
            None => {},
        }
    }
    match parse_number_exec(trim_exec(part), 16, usize::MAX as u64) {
        Some(n) => n,
        None => 0,
    }
}

/// A chunked body under way. Every line and byte that comes is passed on as it is.
pub struct ChunkedRelay {
    pub state: ChunkState,
}

impl ChunkedRelay {
    /// A chunked body of which nothing has come.
    pub fn new() -> (r: ChunkedRelay)
        ensures
            r.state == ChunkState::Size,
    {
        ChunkedRelay { state: ChunkState::Size }
    }

    /// What the body needs next.
    pub fn wants(&self) -> (w: Want)
        ensures
            w == (match self.state {
                ChunkState::Size => Want::Line,
                ChunkState::Data(n) => Want::Bytes(read_size(n)),
                ChunkState::DataEnd => Want::LineEnd,
                ChunkState::Trailer => Want::Line,
                ChunkState::Done => Want::Nothing,
            }),
    {
        match self.state {
            ChunkState::Size => Want::Line,
            ChunkState::Data(n) => {
                let relay = FixedRelay { remaining: n };
                Want::Bytes(relay.next_read())
            },
            ChunkState::DataEnd => Want::LineEnd,
            ChunkState::Trailer => Want::Line,
            ChunkState::Done => Want::Nothing,
        }
    }

    /// Takes one line; an empty `line` says that the peer stopped.
    pub fn on_line(&mut self, line: &str) -> (r: Result<(), HttpError>)
        ensures
            match r {
                Ok(_) => line_step(old(self).state, line@) == Ok::<_, HttpError>(
                    final(self).state,
                ),
                Err(e) => line_step(old(self).state, line@) == Err::<ChunkState, _>(e)
                    && final(self).state == old(self).state,
            },
    {
        let came = !line.is_empty();
        match self.state {
            ChunkState::Size => {
                if !came {
                    return Err(HttpError::ClosedInChunkSize);
                }
                let size: u64 = parse_chunk_size(line);
                if size == 0 {
                    self.state = ChunkState::Trailer;
                } else {
                    self.state = ChunkState::Data(size);
                }
                Ok(())
            },
            ChunkState::Trailer => {
                if !came {
                    return Err(HttpError::ClosedInTrailer);
                }
                let chars = chars_of(line);
                if trim_newlines_exec(chars.as_slice()).len() == 0 {
                    self.state = ChunkState::Done;
                }
                Ok(())
            },
            _ => Ok(()),
        }
    }

    /// Takes what one read of chunk data gave; nothing means that the peer stopped too early.
    pub fn on_read(&mut self, chunk: &[u8], capture: &mut Vec<u8>, limit: usize) -> (r: Result<
        (),
        HttpError,
    >)
        requires
            old(self).state is Data,
            chunk@.len() <= read_size(old(self).state->Data_0),
        ensures
            match r {
                Ok(_) => {
                    &&& chunk@.len() > 0
                    &&& final(self).state == data_step(old(self).state->Data_0, chunk@.len())
                    &&& final(capture)@ == captured(old(capture)@, chunk@, limit as nat)
                },
                Err(e) => {
                    &&& chunk@.len() == 0
                    &&& e == HttpError::ClosedInBody
                    &&& *final(self) == *old(self)
                    &&& *final(capture) == *old(capture)
                },
            },
    {
        match self.state {
            ChunkState::Data(n) => {
                let mut relay = FixedRelay { remaining: n };
                match relay.on_read(chunk, capture, limit) {
                    Ok(_) => {
                        if relay.remaining == 0 {
                            self.state = ChunkState::DataEnd;
                        } else {
                            self.state = ChunkState::Data(relay.remaining);
                        }
                        Ok(())
                    },
                    Err(e) => Err(e),
                }
            },
            _ => Ok(()),
        }
    }

    /// Takes the line end after a chunk.
    pub fn on_line_end(&mut self)
        requires
            old(self).state == ChunkState::DataEnd,
        ensures
            final(self).state == ChunkState::Size,
    {
        self.state = ChunkState::Size;
    }
}

// ---------------------------------------------------------------------------
// Any body
// ---------------------------------------------------------------------------

/// Where a body stands.
#[derive(Debug, Clone, Copy, PartialEq, Eq, Structural)]
pub enum BodyState {
    /// So many bytes are missing.
    Fixed(u64),
    Chunked(ChunkState),
    /// The body goes on until the stream ends; whether that has come.
    UntilClose(bool),
}

impl BodyState {
    /// Where a body stands before anything has come.
    pub open spec fn start(kind: BodyKind) -> BodyState {
        match kind {
            BodyKind::Empty => BodyState::Fixed(0),
            BodyKind::ContentLength(length) => BodyState::Fixed(length),
            BodyKind::Chunked => BodyState::Chunked(ChunkState::Size),
            BodyKind::UntilClose => BodyState::UntilClose(false),
        }
    }

    /// What the body needs next.
    pub open spec fn want(self) -> Want {
        match self {
            BodyState::Fixed(n) => if n == 0 {
                Want::Nothing
            } else {
                Want::Bytes(read_size(n))
            },
            BodyState::Chunked(state) => match state {
                ChunkState::Size => Want::Line,
                ChunkState::Data(n) => Want::Bytes(read_size(n)),
                ChunkState::DataEnd => Want::LineEnd,
                ChunkState::Trailer => Want::Line,
                ChunkState::Done => Want::Nothing,
            },
            BodyState::UntilClose(ended) => if ended {
                Want::Nothing
            } else {
                Want::Bytes(BUFFER_SIZE)
            },
        }
    }

    /// Where the body stands after `count` bytes.
    pub open spec fn after_bytes(self, count: nat) -> BodyState {
        match self {
            BodyState::Fixed(n) => BodyState::Fixed((n - count) as u64),
            BodyState::Chunked(state) => BodyState::Chunked(data_step(state->Data_0, count)),
            BodyState::UntilClose(_) => BodyState::UntilClose(count == 0),
        }
    }

    /// Whether the end of the stream completes the body rather than cuts it off.
    pub open spec fn may_end(self) -> bool {
        self is UntilClose
    }
}

/// A body that is being relayed, and what is kept of it for the record.
pub struct BodyRelay {
    state: BodyState,
    kept: Vec<u8>,
}

/// What a [`BodyRelay`] holds.
pub struct BodyView {
    pub state: BodyState,
    pub kept: Seq<u8>,
}

impl View for BodyRelay {
    type V = BodyView;

    closed spec fn view(&self) -> BodyView {
        BodyView { state: self.state, kept: self.kept@ }
    }
}

impl BodyRelay {
    #[verifier::type_invariant]
    closed spec fn inv(self) -> bool {
        self.kept@.len() <= CAPTURE_LIMIT
    }

    /// A body of which nothing has come.
    pub fn new(kind: BodyKind) -> (r: BodyRelay)
        ensures
            r@ == (BodyView { state: BodyState::start(kind), kept: seq![] }),
    {
        let state = match kind {
            BodyKind::Empty => BodyState::Fixed(0),
            BodyKind::ContentLength(length) => BodyState::Fixed(length),
            BodyKind::Chunked => BodyState::Chunked(ChunkState::Size),
            BodyKind::UntilClose => BodyState::UntilClose(false),
        };
        let r = BodyRelay { state, kept: Vec::new() };
        assert(r@.kept =~= seq![]);
        r
    }

    /// What the body needs next; nothing when it is complete.
    pub fn wants(&self) -> (w: Want)
        ensures
            w == self@.state.want(),
    {
        match self.state {
            BodyState::Fixed(n) => {
                let relay = FixedRelay::new(n);
                let size: usize = relay.next_read();
                if size == 0 {
                    Want::Nothing
                } else {
                    Want::Bytes(size)
                }
            },
            BodyState::Chunked(state) => {
                let relay = ChunkedRelay { state };
                relay.wants()
            },
            BodyState::UntilClose(ended) => {
                if ended {
                    Want::Nothing
                } else {
                    Want::Bytes(BUFFER_SIZE)
                }
            },
        }
    }

    /// Takes one line; an empty `line` says that the peer stopped.
    pub fn on_line(self, line: &str) -> (r: Result<BodyRelay, HttpError>)
        requires
            self@.state.want() == Want::Line,
        ensures
            match r {
                Ok(next) => {
                    &&& next@.state matches BodyState::Chunked(state)
                    &&& line_step(self@.state->Chunked_0, line@) == Ok::<_, HttpError>(state)
                    &&& next@.kept == self@.kept
                },
                Err(e) => line_step(self@.state->Chunked_0, line@) == Err::<ChunkState, _>(e),
            },
    {
        proof {
            use_type_invariant(&self);
        }
        match self.state {
            BodyState::Chunked(state) => {
                let mut relay = ChunkedRelay { state };
                match relay.on_line(line) {
                    Ok(_) => Ok(
                        BodyRelay { state: BodyState::Chunked(relay.state), kept: self.kept },
                    ),
                    Err(e) => Err(e),
                }
            },
            _ => Err(HttpError::ClosedInBody),
        }
    }

    /// Takes what one read gave, of which as much is kept as the limit leaves
    /// room for. Nothing means that the stream ended: that completes a body that
    /// goes on until then, and any other came to its end too early.
    pub fn on_read(self, chunk: &[u8]) -> (r: Result<BodyRelay, HttpError>)
        requires
            self@.state.want() is Bytes,
            chunk@.len() <= self@.state.want()->Bytes_0,
        ensures
            match r {
                Ok(next) => {
                    &&& chunk@.len() > 0 || self@.state.may_end()
                    &&& next@.state == self@.state.after_bytes(chunk@.len())
                    &&& next@.kept == captured(self@.kept, chunk@, CAPTURE_LIMIT as nat)
                },
                Err(e) => {
                    &&& chunk@.len() == 0 && !self@.state.may_end()
                    &&& e == HttpError::ClosedInBody
                },
            },
    {
        proof {
            use_type_invariant(&self);
        }
        let mut kept = self.kept;
        match self.state {
            BodyState::Fixed(n) => {
                let mut relay = FixedRelay::new(n);
                match relay.on_read(chunk, &mut kept, CAPTURE_LIMIT) {
                    Ok(_) => Ok(BodyRelay { state: BodyState::Fixed(relay.remaining), kept }),
                    Err(e) => Err(e),
                }
            },
            BodyState::Chunked(state) => {
                let mut relay = ChunkedRelay { state };
                match relay.on_read(chunk, &mut kept, CAPTURE_LIMIT) {
                    Ok(_) => Ok(BodyRelay { state: BodyState::Chunked(relay.state), kept }),
                    Err(e) => Err(e),
                }
            },
            BodyState::UntilClose(_) => {
                capture_chunk(&mut kept, chunk, CAPTURE_LIMIT);
                Ok(BodyRelay { state: BodyState::UntilClose(chunk.len() == 0), kept })
            },
        }
    }

    /// Takes the line end after a chunk.
    pub fn on_line_end(self) -> (next: BodyRelay)
        requires
            self@.state.want() == Want::LineEnd,
        ensures
            next@ == (BodyView { state: BodyState::Chunked(ChunkState::Size), ..self@ }),
    {
        proof {
            use_type_invariant(&self);
        }
        BodyRelay { state: BodyState::Chunked(ChunkState::Size), kept: self.kept }
    }

    /// What was kept, which is never more than the limit.
    pub fn into_kept(self) -> (kept: Vec<u8>)
        ensures
            kept@ == self@.kept,
            kept@.len() <= CAPTURE_LIMIT,
    {
        proof {
            use_type_invariant(&self);
        }
        self.kept
    }
}

// ---------------------------------------------------------------------------
// Laws
// ---------------------------------------------------------------------------

/// The bytes of `pieces`, one after the other.
pub open spec fn joined(pieces: Seq<Seq<u8>>) -> Seq<u8>
    decreases pieces.len(),
{
    if pieces.len() == 0 {
        seq![]
    } else {
        pieces[0] + joined(pieces.skip(1))
    }
}

/// What is kept after all of `pieces` came.
pub open spec fn captured_all(kept: Seq<u8>, pieces: Seq<Seq<u8>>, limit: nat) -> Seq<u8>
    decreases pieces.len(),
{
    if pieces.len() == 0 {
        kept
    } else {
        captured_all(captured(kept, pieces[0], limit), pieces.skip(1), limit)
    }
}

proof fn lemma_captured_twice(kept: Seq<u8>, a: Seq<u8>, b: Seq<u8>, limit: nat)
    ensures
        captured(captured(kept, a, limit), b, limit) == captured(kept, a + b, limit),
{
    assert(captured(captured(kept, a, limit), b, limit) =~= captured(kept, a + b, limit));
}

/// How a body comes in pieces makes no difference to what is kept of it.
pub proof fn pieces_do_not_matter(kept: Seq<u8>, pieces: Seq<Seq<u8>>, limit: nat)
    ensures
        captured_all(kept, pieces, limit) == captured(kept, joined(pieces), limit),
    decreases pieces.len(),
{
    if pieces.len() == 0 {
        assert(captured(kept, joined(pieces), limit) =~= kept);
    } else {
        pieces_do_not_matter(captured(kept, pieces[0], limit), pieces.skip(1), limit);
        lemma_captured_twice(kept, pieces[0], joined(pieces.skip(1)), limit);
    }
}

/// What is kept of a body is its beginning: all of it if it fits the limit,
/// else as many bytes as the limit says.
pub proof fn capture_is_a_prefix(pieces: Seq<Seq<u8>>, limit: nat)
    ensures
        captured_all(seq![], pieces, limit) == joined(pieces).take(
            if limit < joined(pieces).len() {
                limit as int
            } else {
                joined(pieces).len() as int
            },
        ),
        captured_all(seq![], pieces, limit).len() <= limit,
{
    pieces_do_not_matter(seq![], pieces, limit);
    let body = joined(pieces);
    let n = if limit < body.len() {
        limit as int
    } else {
        body.len() as int
    };
    assert(captured(seq![], body, limit) =~= body.take(n));
}

/// What comes for a chunked body.
pub enum ChunkEvent {
    Line(Seq<char>),
    Data(Seq<u8>),
    LineEnd,
}

/// A chunked body and what is kept of it.
pub struct ChunkedView {
    pub state: ChunkState,
    pub kept: Seq<u8>,
}

/// The body after one event; `None` if the event is an error or was not asked for.
pub open spec fn chunked_step(body: ChunkedView, event: ChunkEvent, limit: nat) -> Option<
    ChunkedView,
> {
    match (body.state, event) {
        (ChunkState::Size, ChunkEvent::Line(line)) => match line_step(body.state, line) {
            Ok(state) => Some(ChunkedView { state, kept: body.kept }),
            Err(_) => None,
        },
        (ChunkState::Trailer, ChunkEvent::Line(line)) => match line_step(body.state, line) {
            Ok(state) => Some(ChunkedView { state, kept: body.kept }),
            Err(_) => None,
        },
        (ChunkState::Data(n), ChunkEvent::Data(chunk)) => if 0 < chunk.len() <= read_size(n) {
            Some(
                ChunkedView {
                    state: data_step(n, chunk.len()),
                    kept: captured(body.kept, chunk, limit),
                },
            )
        } else {
            None
        },
        (ChunkState::DataEnd, ChunkEvent::LineEnd) => Some(
            ChunkedView { state: ChunkState::Size, kept: body.kept },
        ),
        _ => None,
    }
}

/// The body after all of `events`.
pub open spec fn chunked_steps(body: ChunkedView, events: Seq<ChunkEvent>, limit: nat) -> Option<
    ChunkedView,
>
    decreases events.len(),
{
    if events.len() == 0 {
        Some(body)
    } else {
        match chunked_step(body, events[0], limit) {
            Some(next) => chunked_steps(next, events.skip(1), limit),
            None => None,
        }
    }
}

/// One chunk as it comes: its size line, its data in pieces, its line end.
pub struct ChunkInput {
    pub line: Seq<char>,
    pub pieces: Seq<Seq<u8>>,
}

/// Whether the pieces of a chunk fit its size line and come in reads of the
/// size that is asked for.
pub open spec fn fits(chunk: ChunkInput) -> bool {
    &&& chunk.line.len() > 0
    &&& joined(chunk.pieces).len() > 0
    &&& chunk_size(chunk.line) == joined(chunk.pieces).len()
    &&& forall|i: int|
        0 <= i < chunk.pieces.len() ==> 0 < (#[trigger] chunk.pieces[i]).len() <= BUFFER_SIZE
}

/// The events of the data of one chunk.
pub open spec fn piece_events(pieces: Seq<Seq<u8>>) -> Seq<ChunkEvent>
    decreases pieces.len(),
{
    if pieces.len() == 0 {
        seq![ChunkEvent::LineEnd]
    } else {
        seq![ChunkEvent::Data(pieces[0])] + piece_events(pieces.skip(1))
    }
}

/// The events of a whole chunked body: its chunks, the line with size zero,
/// the trailer lines and the empty line.
pub open spec fn body_events(
    chunks: Seq<ChunkInput>,
    last: Seq<char>,
    trailers: Seq<Seq<char>>,
    empty: Seq<char>,
) -> Seq<ChunkEvent>
    decreases chunks.len(),
{
    if chunks.len() == 0 {
        seq![ChunkEvent::Line(last)] + trailers.map_values(|t: Seq<char>| ChunkEvent::Line(t))
            + seq![ChunkEvent::Line(empty)]
    } else {
        seq![ChunkEvent::Line(chunks[0].line)] + piece_events(chunks[0].pieces) + body_events(
            chunks.skip(1),
            last,
            trailers,
            empty,
        )
    }
}

/// The data of all chunks, one after the other.
pub open spec fn payload(chunks: Seq<ChunkInput>) -> Seq<u8>
    decreases chunks.len(),
{
    if chunks.len() == 0 {
        seq![]
    } else {
        joined(chunks[0].pieces) + payload(chunks.skip(1))
    }
}

proof fn lemma_steps_concat(
    body: ChunkedView,
    a: Seq<ChunkEvent>,
    b: Seq<ChunkEvent>,
    limit: nat,
)
    requires
        chunked_steps(body, a, limit) is Some,
    ensures
        chunked_steps(body, a + b, limit) == chunked_steps(
            chunked_steps(body, a, limit).unwrap(),
            b,
            limit,
        ),
    decreases a.len(),
{
    if a.len() == 0 {
        assert(a + b =~= b);
    } else {
        let next = chunked_step(body, a[0], limit).unwrap();
        lemma_steps_concat(next, a.skip(1), b, limit);
        assert((a + b).skip(1) =~= a.skip(1) + b);
        assert((a + b)[0] == a[0]);
    }
}

proof fn lemma_pieces(kept: Seq<u8>, n: u64, pieces: Seq<Seq<u8>>, limit: nat)
    requires
        n == joined(pieces).len(),
        n > 0,
        forall|i: int| 0 <= i < pieces.len() ==> 0 < (#[trigger] pieces[i]).len() <= BUFFER_SIZE,
    ensures
        chunked_steps(
            ChunkedView { state: ChunkState::Data(n), kept },
            piece_events(pieces),
            limit,
        ) == Some(
            ChunkedView {
                state: ChunkState::Size,
                kept: captured(kept, joined(pieces), limit),
            },
        ),
    decreases pieces.len(),
{
    let events = piece_events(pieces);
    let body = ChunkedView { state: ChunkState::Data(n), kept };
    if pieces.len() == 0 {
        assert(false);
    } else {
        let rest = pieces.skip(1);
        assert(events[0] == ChunkEvent::Data(pieces[0]));
        assert(events.skip(1) =~= piece_events(rest));
        assert(pieces[0].len() <= n);
        let next = chunked_step(body, events[0], limit).unwrap();
        lemma_captured_twice(kept, pieces[0], joined(rest), limit);
        assert forall|i: int| 0 <= i < rest.len() implies 0 < (#[trigger] rest[i]).len()
            <= BUFFER_SIZE by {
            assert(rest[i] == pieces[i + 1]);
        }
        if pieces[0].len() < n {
            lemma_pieces(next.kept, (n - pieces[0].len()) as u64, rest, limit);
        } else {
            assert(joined(rest).len() == 0);
            if rest.len() > 0 {
                assert(rest[0].len() > 0);
            }
            assert(piece_events(rest) =~= seq![ChunkEvent::LineEnd]);
            assert(joined(pieces) =~= pieces[0]);
            assert(next.state == ChunkState::DataEnd);
            let tail = events.skip(1);
            assert(tail.skip(1).len() == 0);
            let done = chunked_step(next, tail[0], limit).unwrap();
            assert(chunked_steps(done, tail.skip(1), limit) == Some(done));
            assert(chunked_steps(next, tail, limit) == Some(done));
        }
    }
}

proof fn lemma_trailers(kept: Seq<u8>, trailers: Seq<Seq<char>>, empty: Seq<char>, limit: nat)
    requires
        forall|i: int|
            0 <= i < trailers.len() ==> crate::text::trim_newlines(#[trigger] trailers[i]).len()
                > 0,
        empty.len() > 0,
        crate::text::trim_newlines(empty).len() == 0,
    ensures
        chunked_steps(
            ChunkedView { state: ChunkState::Trailer, kept },
            trailers.map_values(|t: Seq<char>| ChunkEvent::Line(t)) + seq![
                ChunkEvent::Line(empty),
            ],
            limit,
        ) == Some(ChunkedView { state: ChunkState::Done, kept }),
    decreases trailers.len(),
{
    let f = |t: Seq<char>| ChunkEvent::Line(t);
    let end = seq![ChunkEvent::Line(empty)];
    let events = trailers.map_values(f) + end;
    let body = ChunkedView { state: ChunkState::Trailer, kept };
    if trailers.len() == 0 {
        assert(events =~= end);
        reveal_with_fuel(chunked_steps, 2);
        assert(events.skip(1).len() == 0);
    } else {
        assert(events[0] == ChunkEvent::Line(trailers[0]));
        assert(events.skip(1) =~= trailers.skip(1).map_values(f) + end);
        assert(trailers[0].len() > 0) by {
            if trailers[0].len() == 0 {
                assert(crate::text::trim_newlines(trailers[0]).len() == 0);
            }
        }
        assert(chunked_step(body, events[0], limit) == Some(body));
        assert forall|i: int| 0 <= i < trailers.skip(1).len() implies crate::text::trim_newlines(
            #[trigger] trailers.skip(1)[i],
        ).len() > 0 by {
            assert(trailers.skip(1)[i] == trailers[i + 1]);
        }
        lemma_trailers(kept, trailers.skip(1), empty, limit);
    }
}

/// A chunked body is recognised as complete exactly at its final empty line,
/// and what is kept of it is the data of its chunks, up to the limit, without
/// the size lines, line ends and trailers between and after them.
pub proof fn chunked_body_completes(
    kept: Seq<u8>,
    chunks: Seq<ChunkInput>,
    last: Seq<char>,
    trailers: Seq<Seq<char>>,
    empty: Seq<char>,
    limit: nat,
)
    requires
        forall|i: int| 0 <= i < chunks.len() ==> fits(#[trigger] chunks[i]),
        last.len() > 0,
        chunk_size(last) == 0,
        forall|i: int|
            0 <= i < trailers.len() ==> crate::text::trim_newlines(#[trigger] trailers[i]).len()
                > 0,
        empty.len() > 0,
        crate::text::trim_newlines(empty).len() == 0,
    ensures
        chunked_steps(
            ChunkedView { state: ChunkState::Size, kept },
            body_events(chunks, last, trailers, empty),
            limit,
        ) == Some(
            ChunkedView { state: ChunkState::Done, kept: captured(kept, payload(chunks), limit) },
        ),
    decreases chunks.len(),
{
    let events = body_events(chunks, last, trailers, empty);
    let body = ChunkedView { state: ChunkState::Size, kept };
    if chunks.len() == 0 {
        lemma_trailers(kept, trailers, empty, limit);
        assert(events[0] == ChunkEvent::Line(last));
        assert(events.skip(1) =~= trailers.map_values(|t: Seq<char>| ChunkEvent::Line(t)) + seq![
            ChunkEvent::Line(empty),
        ]);
        assert(captured(kept, payload(chunks), limit) =~= kept);
    } else {
        let chunk = chunks[0];
        let rest = body_events(chunks.skip(1), last, trailers, empty);
        let data = piece_events(chunk.pieces);
        assert(fits(chunk));
        assert(events[0] == ChunkEvent::Line(chunk.line));
        assert(events.skip(1) =~= data + rest);
        let n = chunk_size(chunk.line) as u64;
        lemma_pieces(kept, n, chunk.pieces, limit);
        let open = ChunkedView { state: ChunkState::Data(n), kept };
        assert(chunked_step(body, events[0], limit) == Some(open));
        lemma_steps_concat(open, data, rest, limit);
        assert forall|i: int| 0 <= i < chunks.skip(1).len() implies fits(
            #[trigger] chunks.skip(1)[i],
        ) by {
            assert(chunks.skip(1)[i] == chunks[i + 1]);
        }
        let kept2 = captured(kept, joined(chunk.pieces), limit);
        chunked_body_completes(kept2, chunks.skip(1), last, trailers, empty, limit);
        lemma_captured_twice(kept, joined(chunk.pieces), payload(chunks.skip(1)), limit);
    }
}

/// Where a body stands after all of `pieces`.
pub open spec fn after_pieces(state: BodyState, pieces: Seq<Seq<u8>>) -> BodyState
    decreases pieces.len(),
{
    if pieces.len() == 0 {
        state
    } else {
        after_pieces(state.after_bytes(pieces[0].len()), pieces.skip(1))
    }
}

/// A body of known length is complete exactly when as many bytes have come, in
/// whatever pieces.
pub proof fn fixed_body_completes(length: u64, pieces: Seq<Seq<u8>>)
    requires
        joined(pieces).len() <= length,
    ensures
        after_pieces(BodyState::Fixed(length), pieces) == BodyState::Fixed(
            (length - joined(pieces).len()) as u64,
        ),
        after_pieces(BodyState::Fixed(length), pieces).want() == Want::Nothing <==> joined(
            pieces,
        ).len() == length,
    decreases pieces.len(),
{
    if pieces.len() > 0 {
        fixed_body_completes((length - pieces[0].len()) as u64, pieces.skip(1));
    }
}

/// A body that goes on until the stream ends is complete exactly when nothing
/// more comes, and all of it counts.
pub proof fn open_body_completes(pieces: Seq<Seq<u8>>)
    requires
        forall|i: int| 0 <= i < pieces.len() ==> (#[trigger] pieces[i]).len() > 0,
    ensures
        after_pieces(BodyState::UntilClose(false), pieces) == BodyState::UntilClose(false),
        after_pieces(BodyState::UntilClose(false), pieces).want() == Want::Bytes(BUFFER_SIZE),
        after_pieces(BodyState::UntilClose(false), pieces).after_bytes(0).want() == Want::Nothing,
    decreases pieces.len(),
{
    if pieces.len() > 0 {
        let rest = pieces.skip(1);
        assert forall|i: int| 0 <= i < rest.len() implies (#[trigger] rest[i]).len() > 0 by {
            assert(rest[i] == pieces[i + 1]);
        }
        assert(pieces[0].len() > 0);
        open_body_completes(rest);
    }
}

} // verus!
