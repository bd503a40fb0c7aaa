//! Captured exchanges: a request, its response, when it was made and how it
//! is identified.

use vstd::prelude::*;

use crate::http::{strip_prefix, HeaderSeq};
use crate::text::{chars_of, find_exec};

verus! {

// ---------------------------------------------------------------------------
// Identifiers
// ---------------------------------------------------------------------------

/// A globally unique identifier, as its sixteen bytes.
#[derive(Debug, Clone, Copy)]
pub struct TransactionId {
    pub bytes: [u8; 16],
}

/// The error of the crate `uuid`.
#[verifier::external_type_specification]
#[verifier::external_body]
pub struct ExUuidError(uuid::Error);

/// The identifier that a text denotes: what `uuid::Uuid::parse_str` gives.
pub uninterp spec fn uuid_parsed(text: Seq<char>) -> Option<Seq<u8>>;

/// The lower-case hexadecimal digit `n`.
pub open spec fn hex_digit(n: int) -> char {
    if n < 10 {
        (48 + n) as char
    } else {
        (87 + n) as char
    }
}

/// `bytes` in lower-case hexadecimal, two digits each.
pub open spec fn hex_text(bytes: Seq<u8>) -> Seq<char> {
    Seq::new(
        2 * bytes.len(),
        |i: int|
            if i % 2 == 0 {
                hex_digit(bytes[i / 2] as int / 16)
            } else {
                hex_digit(bytes[i / 2] as int % 16)
            },
    )
}

/// An identifier in its usual form: groups of 8, 4, 4, 4 and 12 digits with
/// hyphens between them.
pub open spec fn id_text(bytes: Seq<u8>) -> Seq<char> {
    let h = hex_text(bytes);
    h.subrange(0, 8) + seq!['-'] + h.subrange(8, 12) + seq!['-'] + h.subrange(12, 16) + seq!['-']
        + h.subrange(16, 20) + seq!['-'] + h.subrange(20, 32)
}

/// Whether sixteen bytes are an identifier of version 4: the high half of byte
/// 6 is 4 and the two high bits of byte 8 are 10.
pub open spec fn is_version_4(bytes: Seq<u8>) -> bool {
    &&& bytes.len() == 16
    &&& bytes[6] as int / 16 == 4
    &&& bytes[8] as int / 64 == 2
}

/// `uuid::Uuid::new_v4`: a random identifier. Beyond its version nothing is
/// said of it, since it rests on chance.
#[verifier::external_body]
fn random_id() -> (bytes: [u8; 16])
    ensures
        is_version_4(bytes@),
{
    uuid::Uuid::new_v4().into_bytes()
}

/// `uuid::Uuid::parse_str`: the identifier that a text denotes, or the error
/// if it denotes none. The usual form of an identifier denotes it.
#[verifier::external_body]
fn parse_uuid(text: &str) -> (r: Result<[u8; 16], uuid::Error>)
    ensures
        match r {
            Ok(bytes) => uuid_parsed(text@) == Some(bytes@),
            Err(_) => uuid_parsed(text@) is None,
        },
        forall|b: Seq<u8>|
            b.len() == 16 && text@ == #[trigger] id_text(b) ==> r is Ok && r->Ok_0@ == b,
{
    uuid::Uuid::parse_str(text).map(|id| id.into_bytes())
}

/// The `Display` form of `uuid::Uuid`: the usual form of the identifier.
#[verifier::external_body]
fn show_uuid(bytes: [u8; 16]) -> (text: String)
    ensures
        text@ == id_text(bytes@),
{
    uuid::Uuid::from_bytes(bytes).to_string()
}

impl TransactionId {
    /// The identifier that a text denotes, or the text of the error.
    pub fn parse(text: &str) -> (r: Result<TransactionId, String>)
        ensures
            match r {
                Ok(id) => uuid_parsed(text@) == Some(id.bytes@),
                Err(_) => uuid_parsed(text@) is None,
            },
            forall|b: Seq<u8>|
                b.len() == 16 && text@ == #[trigger] id_text(b) ==> r is Ok && r->Ok_0.bytes@ == b,
    {
        match parse_uuid(text) {
            Ok(bytes) => Ok(TransactionId { bytes }),
            Err(e) => Err(e.to_string()),
        }
    }

    /// The usual form of the identifier.
    pub fn to_text(&self) -> (text: String)
        ensures
            text@ == id_text(self.bytes@),
    {
        show_uuid(self.bytes)
    }
}

// ---------------------------------------------------------------------------
// Time
// ---------------------------------------------------------------------------

/// A point in time: seconds since 1970 and the nanoseconds after them.
#[derive(Debug, Clone, Copy, PartialEq, Eq, Structural)]
pub struct Timestamp {
    pub seconds: i64,
    pub nanos: u32,
}

impl Timestamp {
    /// Whether `self` is no later than `other`.
    pub open spec fn no_later(self, other: Timestamp) -> bool {
        self.seconds < other.seconds || (self.seconds == other.seconds && self.nanos
            <= other.nanos)
    }

    /// Whether `self` is no later than `other`.
    pub fn is_no_later(&self, other: &Timestamp) -> (r: bool)
        ensures
            r == self.no_later(*other),
    {
        self.seconds < other.seconds || (self.seconds == other.seconds && self.nanos
            <= other.nanos)
    }
}

/// `chrono::Utc::now`: the current time, which is not before 1970, as the
/// seconds and nanoseconds that `timestamp` and `timestamp_subsec_nanos` give.
#[verifier::external_body]
fn utc_now() -> (r: (i64, u32))
    ensures
        r.0 >= 0,
        r.1 < 1_000_000_000,
{
    let now = chrono::Utc::now();
    (now.timestamp(), now.timestamp_subsec_nanos())
}

// ---------------------------------------------------------------------------
// Transactions
// ---------------------------------------------------------------------------

/// A captured request.
#[derive(Debug, Clone)]
pub struct RequestData {
    pub method: String,
    pub url: String,
    pub headers: Vec<(String, String)>,
    /// The beginning of the body, up to the capture limit.
    pub body: Vec<u8>,
}

/// A captured response.
#[derive(Debug, Clone)]
pub struct ResponseData {
    pub status: u16,
    pub headers: Vec<(String, String)>,
    /// The beginning of the body, up to the capture limit.
    pub body: Vec<u8>,
}

/// A request and its response.
#[derive(Debug, Clone)]
pub struct Transaction {
    pub id: TransactionId,
    pub timestamp: Timestamp,
    pub request: RequestData,
    /// `None` while the response has not come.
    pub response: Option<ResponseData>,
    /// From the request to the end of the response, in milliseconds.
    pub duration_ms: Option<u64>,
}

/// What a [`RequestData`] holds.
pub struct RequestView {
    pub method: Seq<char>,
    pub url: Seq<char>,
    pub headers: HeaderSeq,
    pub body: Seq<u8>,
}

/// What a [`ResponseData`] holds.
pub struct ResponseView {
    pub status: u16,
    pub headers: HeaderSeq,
    pub body: Seq<u8>,
}

/// What a [`Transaction`] holds.
pub struct TransactionView {
    pub id: Seq<u8>,
    pub timestamp: Timestamp,
    pub request: RequestView,
    pub response: Option<ResponseView>,
    pub duration_ms: Option<u64>,
}

impl View for RequestData {
    type V = RequestView;

    open spec fn view(&self) -> RequestView {
        RequestView {
            method: self.method@,
            url: self.url@,
            headers: crate::http::headers_view(self.headers@),
            body: self.body@,
        }
    }
}

impl View for ResponseData {
    type V = ResponseView;

    open spec fn view(&self) -> ResponseView {
        ResponseView {
            status: self.status,
            headers: crate::http::headers_view(self.headers@),
            body: self.body@,
        }
    }
}

impl View for Transaction {
    type V = TransactionView;

    open spec fn view(&self) -> TransactionView {
        TransactionView {
            id: self.id.bytes@,
            timestamp: self.timestamp,
            request: self.request@,
            response: match self.response {
                Some(r) => Some(r@),
                None => None,
            },
            duration_ms: self.duration_ms,
        }
    }
}

/// What follows the scheme of a URL.
pub open spec fn after_scheme(url: Seq<char>) -> Seq<char> {
    if crate::text::starts_with(url, "https://"@) {
        url.skip("https://"@.len() as int)
    } else if crate::text::starts_with(url, "http://"@) {
        url.skip("http://"@.len() as int)
    } else {
        url
    }
}

impl Transaction {
    /// A transaction with this identifier and time, without a response.
    pub fn begin(id: TransactionId, timestamp: Timestamp, request: RequestData) -> (tx: Transaction)
        ensures
            tx@ == (TransactionView {
                id: id.bytes@,
                timestamp,
                request: request@,
                response: None,
                duration_ms: None,
            }),
    {
        Transaction { id, timestamp, request, response: None, duration_ms: None }
    }

    /// A transaction made now, with a fresh identifier and without a response.
    pub fn new(request: RequestData) -> (tx: Transaction)
        ensures
            tx@.request == request@,
            tx@.response is None,
            tx@.duration_ms is None,
            is_version_4(tx@.id),
            tx@.timestamp.seconds >= 0,
            tx@.timestamp.nanos < 1_000_000_000,
    {
        let (seconds, nanos) = utc_now();
        Transaction::begin(
            TransactionId { bytes: random_id() },
            Timestamp { seconds, nanos },
            request,
        )
    }

    /// The host in the URL, with its port if it has one.
    pub fn host(&self) -> (host: &str)
        ensures
            host@ == crate::http::authority_of(after_scheme(self.request.url@)),
    {
        let url = self.request.url.as_str();
        let chars = chars_of(url);
        let total: usize = chars.len();
        let rest = rest_of(chars.as_slice());
        let start: usize = total - rest.len();
        let end: usize = match find_exec(rest, '/') {
            Some(i) => start + i,
            None => total,
        };
        let host = url.substring_char(start, end);
        assert(host@ =~= crate::http::authority_of(rest@));
        host
    }

    /// The path in the URL; `/` if it has none.
    pub fn path(&self) -> (path: &str)
        ensures
            path@ == crate::http::path_of(after_scheme(self.request.url@)),
    {
        let url = self.request.url.as_str();
        let chars = chars_of(url);
        let total: usize = chars.len();
        let rest = rest_of(chars.as_slice());
        let start: usize = total - rest.len();
        match find_exec(rest, '/') {
            Some(i) => {
                let path = url.substring_char(start + i, total);
                assert(path@ =~= rest@.skip(i as int));
                path
            },
            None => "/",
        }
    }
}

/// What follows the scheme of a URL.
pub(crate) fn rest_of(url: &[char]) -> (rest: &[char])
    ensures
        rest@ == after_scheme(url@),
        rest@.len() <= url@.len(),
        rest@ == url@.skip(url@.len() - rest@.len()),
{
    match strip_prefix(url, "https://") {
        Some(rest) => rest,
        None => match strip_prefix(url, "http://") {
            Some(rest) => rest,
            None => {
                assert(url@.skip(0) =~= url@);
                url
            },
        },
    }
}

// ---------------------------------------------------------------------------
// Laws
// ---------------------------------------------------------------------------

/// The host and the path of a URL are the URL without its scheme. A URL
/// without a slash after its scheme is all host, and its path is `/`.
pub proof fn host_and_path_are_the_url(url: Seq<char>)
    ensures
        ({
            let rest = after_scheme(url);
            let host = crate::http::authority_of(rest);
            let path = crate::http::path_of(rest);
            &&& rest.contains('/') ==> host + path == rest
            &&& !rest.contains('/') ==> host == rest && path == "/"@
            &&& !host.contains('/')
            &&& path.len() > 0 && path[0] == '/'
        }),
{
    reveal_strlit("/");
    let rest = after_scheme(url);
    crate::text::lemma_find(rest, '/');
    match crate::text::find(rest, '/') {
        Some(i) => {
            assert(rest.contains(rest[i]));
            assert(rest.take(i) + rest.skip(i) =~= rest);
        },
        None => {},
    }
}

} // verus!
