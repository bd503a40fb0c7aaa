//! What holds of sending a request again: what is sent, how the answer is read,
//! and how two answers are compared.

use vstd::prelude::*;
use vstd::utf8::encode_utf8;

use crate::http::{head_text, split_last_colon, status_code_of, HeaderSeq};
use crate::laws::proxy::lemma_parts;
use crate::laws::text::{decimal_counts_by_tens, lines_end_at_line_feeds, numeral};
use crate::replay::{
    announcement, compared, comparison_lines, diff_of, head_end, head_of, line_field, line_fields, plan_of,
    replay_headers, response_lines, response_of, PlanView,
};
use crate::text::{lines, starts_with};
use crate::transaction::{RequestView, ResponseView, TransactionView};

verus! {

// ---------------------------------------------------------------------------
// What is sent
// ---------------------------------------------------------------------------

/// A request whose URL is put together from a scheme, an authority and a path is
/// sent again to that authority, at the scheme's own port if none is given, with
/// the recorded method, that path, the recorded fields and the recorded body. A
/// URL of another scheme is not sent anywhere.
pub proof fn recorded_urls_are_sent_to(
    request: RequestView,
    secure: bool,
    authority: Seq<char>,
    path: Seq<char>,
)
    requires
        !authority.contains('/'),
        path.len() > 0 ==> path[0] == '/',
    ensures
        request.url == (if secure {
            "https://"@
        } else {
            "http://"@
        }) + authority + path ==> {
            let target = if path.len() == 0 {
                seq!['/']
            } else {
                path
            };
            let (host, port) = split_last_colon(
                authority,
                if secure {
                    443
                } else {
                    80
                },
            );
            plan_of(request) == Some(
                PlanView {
                    secure,
                    host,
                    port,
                    head: encode_utf8(
                        head_text(
                            request.method + seq![' '] + target + " HTTP/1.1"@,
                            replay_headers(request.headers),
                        ),
                    ),
                    body: request.body,
                },
            )
        },
        plan_of(request) is None <==> !starts_with(request.url, "http://"@) && !starts_with(
            request.url,
            "https://"@,
        ),
{
    reveal_strlit("http://");
    reveal_strlit("https://");
    reveal_strlit(" ");
    assert(" "@ =~= seq![' ']);
    let prefix = if secure {
        "https://"@
    } else {
        "http://"@
    };
    if request.url == prefix + authority + path {
        let rest = authority + path;
        assert(request.url =~= prefix + rest);
        assert(request.url.take(prefix.len() as int) =~= prefix);
        assert(request.url.skip(prefix.len() as int) =~= rest);
        if !secure && starts_with(request.url, "https://"@) {
            assert(request.url.take(8)[4] == request.url[4]);
            assert("https://"@[4] == 's');
        }
        lemma_parts(authority, path);
    }
}

// ---------------------------------------------------------------------------
// What comes back
// ---------------------------------------------------------------------------

/// Whether an empty line stands at `i`: the two bytes of a line end, twice.
pub open spec fn empty_line_at(raw: Seq<u8>, i: int) -> bool {
    &&& 0 <= i
    &&& i + 4 <= raw.len()
    &&& raw[i] == 13
    &&& raw[i + 1] == 10
    &&& raw[i + 2] == 13
    &&& raw[i + 3] == 10
}

/// The head of a response ends behind its first empty line, and everything after
/// that is its body; without an empty line all of it is head.
pub proof fn heads_end_at_the_first_empty_line(raw: Seq<u8>, i: int, head: Seq<char>)
    requires
        0 <= i,
        forall|j: int| 0 <= j < i ==> !#[trigger] empty_line_at(raw, j),
    ensures
        empty_line_at(raw, i) ==> head_end(raw) == i + 4 && response_of(raw, head).body
            == raw.skip(i + 4),
        i >= raw.len() ==> head_end(raw) == raw.len() && response_of(raw, head).body == Seq::<
            u8,
        >::empty(),
    decreases raw.len(),
{
    let mark = seq![13u8, 10u8, 13u8, 10u8];
    assert(mark[0] == 13 && mark[1] == 10 && mark[2] == 13 && mark[3] == 10);
    if raw.len() >= 4 {
        if raw.take(4) == mark {
            assert(raw.take(4)[0] == 13 && raw.take(4)[1] == 10);
            assert(raw.take(4)[2] == 13 && raw.take(4)[3] == 10);
            assert(empty_line_at(raw, 0));
            assert(i == 0);
        } else if i == 0 {
            if empty_line_at(raw, 0) {
                assert(raw.take(4) =~= mark);
            }
        } else {
            let rest = raw.skip(1);
            assert forall|j: int| 0 <= j < i - 1 implies !#[trigger] empty_line_at(rest, j) by {
                assert(!empty_line_at(raw, j + 1));
            }
            heads_end_at_the_first_empty_line(rest, i - 1, head);
            if empty_line_at(raw, i) {
                assert(empty_line_at(rest, i - 1));
            }
        }
    }
    if i >= raw.len() {
        assert(raw.skip(head_end(raw) as int) =~= Seq::<u8>::empty());
    }
}

/// The status of a response is that of the first line of its head, and its fields
/// are those of the lines after it, in order; an empty head has neither.
pub proof fn heads_are_read_line_by_line(
    first: Seq<char>,
    line: Seq<char>,
    rest: Seq<char>,
    raw: Seq<u8>,
)
    requires
        !first.contains('\n'),
        !line.contains('\n'),
    ensures
        head_of(first + seq!['\r', '\n'] + rest).0 == status_code_of(first),
        head_of(first + seq!['\r', '\n']).1 == HeaderSeq::empty(),
        head_of(first + seq!['\r', '\n'] + (line + seq!['\r', '\n'] + rest)).1 == line_field(line)
            + head_of(first + seq!['\r', '\n'] + rest).1,
        head_of(Seq::empty()) == (0u16, HeaderSeq::empty()),
        lines(rest).len() > 0 ==> head_of(rest).0 == status_code_of(lines(rest)[0])
            && head_of(rest).1 == line_fields(lines(rest).skip(1)),
        line_fields(Seq::empty()) == HeaderSeq::empty(),
        line_fields(seq![line] + lines(rest)) == line_field(line) + line_fields(lines(rest)),
        response_of(raw, first).status == head_of(first).0,
        response_of(raw, first).headers == head_of(first).1,
{
    let none = Seq::<char>::empty();
    let end = seq!['\r', '\n'];
    lines_end_at_line_feeds(first, rest);
    lines_end_at_line_feeds(first, none);
    assert(first + end + none =~= first + end);
    let one = lines(first + end);
    assert(one =~= seq![first]);
    assert(one.skip(1) =~= Seq::empty());
    let short = lines(first + end + rest);
    assert(short.skip(1) =~= lines(rest));
    assert(short[0] == first);
    let more = line + end + rest;
    lines_end_at_line_feeds(line, rest);
    lines_end_at_line_feeds(first, more);
    let long = lines(first + end + more);
    assert(long.skip(1) =~= lines(more));
    assert(lines(more)[0] == line);
    assert(lines(more).skip(1) =~= lines(rest));
    let some = seq![line] + lines(rest);
    assert(some[0] == line);
    assert(some.skip(1) =~= lines(rest));
}

// ---------------------------------------------------------------------------
// Comparison
// ---------------------------------------------------------------------------

/// How many lines of a comparison stand before those for position `i`: two for
/// each position where the sides differ, one for each other.
pub open spec fn place(a: Seq<Seq<char>>, b: Seq<Seq<char>>, i: nat) -> nat
    decreases i,
{
    if i == 0 {
        0
    } else {
        let j = i - 1;
        place(a, b, j as nat) + if j < a.len() && j < b.len() && a[j] != b[j] {
            2nat
        } else {
            1nat
        }
    }
}

spec fn rest_of(a: Seq<Seq<char>>) -> Seq<Seq<char>> {
    if a.len() > 0 {
        a.skip(1)
    } else {
        a
    }
}

proof fn lemma_place(a: Seq<Seq<char>>, b: Seq<Seq<char>>, i: nat)
    requires
        i > 0,
    ensures
        place(a, b, i) == place(a, b, 1) + place(rest_of(a), rest_of(b), (i - 1) as nat),
    decreases i,
{
    reveal_with_fuel(place, 2);
    if i > 1 {
        lemma_place(a, b, (i - 1) as nat);
        let j = i - 1;
        if j < a.len() {
            assert(rest_of(a)[j - 1] == a[j]);
        }
        if j < b.len() {
            assert(rest_of(b)[j - 1] == b[j]);
        }
    }
}

/// A line that is the same on both sides at the same position stands once and is
/// not marked. Where the sides differ, the line of each stands with its mark, and
/// so does a line for which the other side has none. Nothing else stands in a
/// comparison.
pub proof fn lines_are_marked_exactly_if_they_differ(
    a: Seq<Seq<char>>,
    b: Seq<Seq<char>>,
    i: nat,
)
    ensures
        ({
            let all = compared(a, b);
            let k = place(a, b, i) as int;
            &&& i < a.len() && i < b.len() && a[i as int] == b[i as int] ==> all[k] == seq![
                ' ',
                ' ',
                ' ',
                ' ',
            ] + a[i as int]
            &&& i < a.len() && i < b.len() && a[i as int] != b[i as int] ==> all[k] == seq![
                ' ',
                ' ',
                '-',
                ' ',
            ] + a[i as int] && all[k + 1] == seq![' ', ' ', '+', ' '] + b[i as int]
            &&& i < a.len() && i >= b.len() ==> all[k] == seq![' ', ' ', '-', ' '] + a[i as int]
            &&& i >= a.len() && i < b.len() ==> all[k] == seq![' ', ' ', '+', ' '] + b[i as int]
            &&& i < a.len() || i < b.len() ==> k < all.len()
            &&& all.len() == place(
                a,
                b,
                if a.len() < b.len() {
                    b.len()
                } else {
                    a.len()
                },
            )
        }),
    decreases a.len() + b.len(),
{
    reveal_strlit("    ");
    reveal_strlit("  - ");
    reveal_strlit("  + ");
    assert("    "@ =~= seq![' ', ' ', ' ', ' ']);
    assert("  - "@ =~= seq![' ', ' ', '-', ' ']);
    assert("  + "@ =~= seq![' ', ' ', '+', ' ']);
    let all = compared(a, b);
    let most = if a.len() < b.len() {
        b.len()
    } else {
        a.len()
    };
    if most > 0 {
        let (ra, rb) = (rest_of(a), rest_of(b));
        let rest = compared(ra, rb);
        let n = place(a, b, 1) as int;
        reveal_with_fuel(place, 2);
        assert(all.len() == n + rest.len());
        assert(all.skip(n) =~= rest);
        lemma_place(a, b, most);
        let before = if i > 0 {
            (i - 1) as nat
        } else {
            0
        };
        lines_are_marked_exactly_if_they_differ(ra, rb, before);
        if i > 0 {
            lemma_place(a, b, i);
            let k = place(ra, rb, before) as int;
            assert(place(a, b, i) == n + k);
            if i < a.len() {
                assert(ra[i - 1] == a[i as int]);
            }
            if i < b.len() {
                assert(rb[i - 1] == b[i as int]);
            }
            if i < a.len() || i < b.len() {
                assert(all[n + k] == rest[k]);
                if i < a.len() && i < b.len() && a[i as int] != b[i as int] {
                    lemma_more(ra, rb, before);
                    assert(all[n + k + 1] == rest[k + 1]);
                }
            }
        }
    }
}

proof fn lemma_more(a: Seq<Seq<char>>, b: Seq<Seq<char>>, i: nat)
    requires
        i < a.len(),
        i < b.len(),
        a[i as int] != b[i as int],
    ensures
        place(a, b, i) + 1 < compared(a, b).len(),
    decreases a.len(),
{
    let (ra, rb) = (a.skip(1), b.skip(1));
    reveal_with_fuel(place, 2);
    assert(compared(a, b).len() == place(a, b, 1) + compared(ra, rb).len());
    if i > 0 {
        assert(ra[i - 1] == a[i as int]);
        assert(rb[i - 1] == b[i as int]);
        lemma_more(ra, rb, (i - 1) as nat);
        lemma_place(a, b, i);
    }
}

/// Two texts are compared line by line, unless they are the same: then a comparison
/// says so and shows nothing else.
pub proof fn texts_are_compared_by_their_lines(original: Seq<char>, replayed: Seq<char>)
    ensures
        original == replayed ==> diff_of(original, replayed) == seq![
            "  (responses are identical)"@,
        ],
        original != replayed ==> diff_of(original, replayed) == compared(
            lines(original),
            lines(replayed),
        ),
{
}

// ---------------------------------------------------------------------------
// The printed report
// ---------------------------------------------------------------------------

/// A request is announced by its identifier, its method and its URL.
pub proof fn announcements_name_the_request(original: TransactionView)
    ensures
        announcement(original).len() == 3,
        announcement(original)[0] == "━━━ Replaying transaction "@ + crate::transaction::id_text(
            original.id,
        ) + " ━━━"@,
        announcement(original)[1] == "  "@ + original.request.method + " "@ + original.request.url,
        announcement(original)[2] == Seq::<char>::empty(),
{
    reveal_strlit("");
    assert(""@ =~= Seq::<char>::empty());
}

/// A response is reported with its status, its duration, a line for each field in
/// order and, whatever its status, its body and how long that is, unless it has
/// none.
pub proof fn reports_show_the_whole_response(
    response: ResponseView,
    duration_ms: u64,
    body: Seq<char>,
)
    ensures
        ({
            let all = response_lines(response, duration_ms, body);
            let n = response.headers.len() as int;
            &&& all[0] == "━━━ New Response ━━━"@
            &&& all[1] == "  Status  : "@ + numeral(response.status as nat, 10, false)
            &&& all[2] == "  Duration: "@ + numeral(duration_ms as nat, 10, false) + " ms"@
            &&& all[3] == "  Headers :"@
            &&& forall|i: int|
                0 <= i < n ==> #[trigger] all[4 + i] == "    "@ + response.headers[i].0 + ": "@
                    + response.headers[i].1
            &&& response.body.len() > 0 ==> {
                &&& all.len() == n + 6
                &&& all[n + 4] == "  Body ("@ + numeral(response.body.len(), 10, false) + " bytes):"@
                &&& all[n + 5] == body
            }
            &&& response.body.len() == 0 ==> all.len() == n + 4
        }),
{
    decimal_counts_by_tens(response.status as nat);
    decimal_counts_by_tens(duration_ms as nat);
    decimal_counts_by_tens(response.body.len());
    let all = response_lines(response, duration_ms, body);
    let rows = crate::replay::field_lines(response.headers);
    assert forall|i: int| 0 <= i < response.headers.len() implies #[trigger] all[4 + i] == "    "@
        + response.headers[i].0 + ": "@ + response.headers[i].1 by {
        assert(all[4 + i] == rows[i]);
    }
}

/// What is compared is the recorded body, if there is one, with the new one.
pub proof fn recorded_bodies_are_compared(original: Seq<char>, replayed: Seq<char>)
    ensures
        ({
            let all = comparison_lines(Some(original), replayed);
            &&& all.len() == diff_of(original, replayed).len() + 2
            &&& all[0] == Seq::<char>::empty()
            &&& all[1] == "━━━ Diff (original vs replayed body) ━━━"@
            &&& all.skip(2) == diff_of(original, replayed)
        }),
        comparison_lines(None, replayed) == seq![
            "(original response not recorded — no diff available)"@,
        ],
{
    reveal_strlit("");
    assert(""@ =~= Seq::<char>::empty());
    let all = comparison_lines(Some(original), replayed);
    assert(all.skip(2) =~= diff_of(original, replayed));
}

} // verus!
