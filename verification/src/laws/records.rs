//! What holds of recorded transactions, of their list and of the texts of errors.

use vstd::prelude::*;

use crate::http::{authority_of, path_of, HttpError};
use crate::laws::proxy::lemma_parts;
use crate::laws::text::{decimal_counts_by_tens, numeral, numeral_char, padding_fills_with_spaces};
use crate::script::action::ScriptError;
use crate::store::{
    chronological_order, listed_status, listing, made_at, row, transaction_row, StoreError,
};
use crate::text::{pad_right, starts_with};
use crate::transaction::{after_scheme, id_text, Timestamp, Transaction, TransactionView};

verus! {

// ---------------------------------------------------------------------------
// Transactions
// ---------------------------------------------------------------------------

/// Where the digits of byte `i` stand in the usual form of an identifier.
pub open spec fn digits_at(i: int) -> int {
    2 * i + if i < 4 {
        0int
    } else if i < 6 {
        1
    } else if i < 8 {
        2
    } else if i < 10 {
        3
    } else {
        4
    }
}

/// An identifier is written as the two hexadecimal digits of each of its bytes, in
/// order, with hyphens after the fourth, sixth, eighth and tenth.
pub proof fn identifiers_are_written_in_hexadecimal(bytes: Seq<u8>, i: int)
    requires
        bytes.len() == 16,
        0 <= i < 16,
    ensures
        id_text(bytes).len() == 36,
        id_text(bytes)[8] == '-',
        id_text(bytes)[13] == '-',
        id_text(bytes)[18] == '-',
        id_text(bytes)[23] == '-',
        id_text(bytes)[digits_at(i)] == numeral_char((bytes[i] / 16) as nat, false),
        id_text(bytes)[digits_at(i) + 1] == numeral_char((bytes[i] % 16) as nat, false),
{
    let h = crate::transaction::hex_text(bytes);
    assert(h.len() == 32);
    assert((2 * i) / 2 == i && (2 * i) % 2 == 0);
    assert((2 * i + 1) / 2 == i && (2 * i + 1) % 2 == 1);
    assert(h[2 * i] == crate::transaction::hex_digit(bytes[i] as int / 16));
    assert(h[2 * i + 1] == crate::transaction::hex_digit(bytes[i] as int % 16));
    let t = id_text(bytes);
    if i < 4 {
        assert(t[2 * i] == h[2 * i] && t[2 * i + 1] == h[2 * i + 1]);
    } else if i < 6 {
        assert(t[2 * i + 1] == h[2 * i] && t[2 * i + 2] == h[2 * i + 1]);
    } else if i < 8 {
        assert(t[2 * i + 2] == h[2 * i] && t[2 * i + 3] == h[2 * i + 1]);
    } else if i < 10 {
        assert(t[2 * i + 3] == h[2 * i] && t[2 * i + 4] == h[2 * i + 1]);
    } else {
        assert(t[2 * i + 4] == h[2 * i] && t[2 * i + 5] == h[2 * i + 1]);
    }
}

/// A point in time as nanoseconds since 1970.
pub open spec fn nanoseconds(time: Timestamp) -> int {
    time.seconds * 1_000_000_000 + time.nanos
}

/// A point in time is no later than another exactly if no more nanoseconds have
/// gone by; within a second that is told by the nanoseconds alone.
pub proof fn times_are_told_by_nanoseconds(a: Timestamp, b: Timestamp)
    ensures
        a.nanos < 1_000_000_000 && b.nanos < 1_000_000_000 ==> (a.no_later(b) <==> nanoseconds(a)
            <= nanoseconds(b)),
        a.seconds < b.seconds ==> a.no_later(b) && !b.no_later(a),
        a.seconds == b.seconds ==> (a.no_later(b) <==> a.nanos <= b.nanos),
{
}

/// The host of a URL stands between its scheme and the next slash, and its path
/// starts there; both are found in either scheme, and without one from the start.
pub proof fn urls_have_a_host_and_a_path(host: Seq<char>, path: Seq<char>)
    requires
        !host.contains('/'),
        path.len() > 0 ==> path[0] == '/',
    ensures
        ({
            let shown = if path.len() == 0 {
                seq!['/']
            } else {
                path
            };
            let plain = after_scheme("http://"@ + host + path);
            let secure = after_scheme("https://"@ + host + path);
            let bare = after_scheme(host + path);
            &&& authority_of(plain) == host && path_of(plain) == shown
            &&& authority_of(secure) == host && path_of(secure) == shown
            &&& !starts_with(host + path, "http://"@) && !starts_with(host + path, "https://"@)
                ==> authority_of(bare) == host && path_of(bare) == shown
        }),
{
    reveal_strlit("http://");
    reveal_strlit("https://");
    let rest = host + path;
    lemma_parts(host, path);
    let plain = "http://"@ + host + path;
    assert(plain =~= "http://"@ + rest);
    assert(plain.take(7) =~= "http://"@);
    assert(plain.skip(7) =~= rest);
    assert(!starts_with(plain, "https://"@)) by {
        if starts_with(plain, "https://"@) {
            assert(plain.take(8)[4] == ':');
            assert("https://"@[4] == 's');
        }
    }
    let secure = "https://"@ + host + path;
    assert(secure =~= "https://"@ + rest);
    assert(secure.take(8) =~= "https://"@);
    assert(secure.skip(8) =~= rest);
}

// ---------------------------------------------------------------------------
// Order and list
// ---------------------------------------------------------------------------

/// A list is in chronological order exactly if no transaction in it is followed by
/// one that was made fewer nanoseconds after 1970; and those made at one time are
/// picked out of a list one by one, in order.
pub proof fn order_is_by_nanoseconds(
    txs: Seq<Transaction>,
    tx: Transaction,
    more: Seq<Transaction>,
    time: Timestamp,
)
    requires
        forall|i: int| 0 <= i < txs.len() ==> (#[trigger] txs[i]).timestamp.nanos < 1_000_000_000,
    ensures
        chronological_order(txs) <==> forall|i: int, j: int|
            0 <= i < j < txs.len() ==> nanoseconds((#[trigger] txs[i]).timestamp) <= nanoseconds(
                (#[trigger] txs[j]).timestamp,
            ),
        made_at(Seq::empty(), time) == Seq::<Transaction>::empty(),
        made_at(txs + seq![tx] + more, time) == made_at(txs, time) + (if tx.timestamp == time {
            seq![tx]
        } else {
            Seq::<Transaction>::empty()
        }) + made_at(more, time),
{
    assert forall|i: int, j: int| 0 <= i < j < txs.len() implies (
    #[trigger] txs[i]).timestamp.no_later((#[trigger] txs[j]).timestamp) == (nanoseconds(
        txs[i].timestamp,
    ) <= nanoseconds(txs[j].timestamp)) by {
        times_are_told_by_nanoseconds(txs[i].timestamp, txs[j].timestamp);
    }
    if chronological_order(txs) {
        assert forall|i: int, j: int| 0 <= i < j < txs.len() implies nanoseconds(
            (#[trigger] txs[i]).timestamp,
        ) <= nanoseconds((#[trigger] txs[j]).timestamp) by {
            assert(txs[i].timestamp.no_later(txs[j].timestamp));
        }
    }
    let p = |t: Transaction| t.timestamp == time;
    let one = seq![tx];
    Seq::filter_distributes_over_add(txs + one, more, p);
    Seq::filter_distributes_over_add(txs, one, p);
    reveal(Seq::filter);
    assert(one.drop_last() =~= Seq::empty());
    assert(one.last() == tx);
    assert(one.drop_last().filter(p) =~= Seq::empty());
    assert(made_at(Seq::empty(), time) =~= Seq::<Transaction>::empty());
    if tx.timestamp == time {
        assert(one.filter(p) =~= one);
    } else {
        assert(one.filter(p) =~= Seq::<Transaction>::empty());
    }
}

/// How wide a column is that is meant to be `width` wide and holds `text`.
pub open spec fn column(text: Seq<char>, width: int) -> int {
    if text.len() < width {
        width
    } else {
        text.len() as int
    }
}

/// A row holds all of its four texts: each but the last in a column that is filled
/// up with spaces, and is as wide as it needs to be if the text does not fit, with
/// two spaces after it.
pub proof fn rows_have_columns(
    id: Seq<char>,
    status: Seq<char>,
    method: Seq<char>,
    url: Seq<char>,
)
    ensures
        ({
            let line = row(id, status, method, url);
            let p = column(id, 36) + 2;
            let q = p + column(status, 6) + 2;
            let r = q + column(method, 7) + 2;
            &&& line.len() == r + url.len()
            &&& line.take(id.len() as int) == id
            &&& line.subrange(p, p + status.len()) == status
            &&& line.subrange(q, q + method.len()) == method
            &&& line.skip(r) == url
            &&& forall|i: int|
                id.len() <= i < p || p + status.len() <= i < q || q + method.len() <= i < r
                    ==> #[trigger] line[i] == ' '
        }),
{
    reveal_strlit("  ");
    padding_fills_with_spaces(id, 36);
    padding_fills_with_spaces(status, 6);
    padding_fills_with_spaces(method, 7);
    let (a, b, c) = (pad_right(id, 36), pad_right(status, 6), pad_right(method, 7));
    let line = row(id, status, method, url);
    let p = column(id, 36) + 2;
    let q = p + column(status, 6) + 2;
    let r = q + column(method, 7) + 2;
    assert(line.take(p - 2) =~= a);
    assert(line.subrange(p, q - 2) =~= b);
    assert(line.subrange(q, r - 2) =~= c);
    assert(line.take(id.len() as int) =~= a.take(id.len() as int));
    assert(line.subrange(p, p + status.len()) =~= b.take(status.len() as int));
    assert(line.subrange(q, q + method.len()) =~= c.take(method.len() as int));
    assert(line.skip(r) =~= url);
    assert forall|i: int|
        id.len() <= i < p || p + status.len() <= i < q || q + method.len() <= i
            < r implies #[trigger] line[i] == ' ' by {
        if i < p - 2 {
            assert(line[i] == a[i]);
        } else if p <= i < q - 2 {
            assert(line[i] == b[i - p]);
        } else if q <= i < r - 2 {
            assert(line[i] == c[i - q]);
        }
    }
}

/// Every transaction is listed on a line of its own, in order, with its
/// identifier, its status whatever that is, its method and its URL, under a line
/// of titles and a rule; and they are counted at the end.
pub proof fn lists_show_every_transaction(txs: Seq<TransactionView>, db: Seq<char>, i: int)
    ensures
        txs.len() == 0 ==> listing(txs, db) == seq!["No transactions stored in '"@ + db + "'."@],
        txs.len() > 0 ==> {
            let all = listing(txs, db);
            &&& all.len() == txs.len() + 4
            &&& all[0] == row("ID"@, "STATUS"@, "METHOD"@, "URL"@)
            &&& all[1].len() == 90 && forall|k: int| 0 <= k < 90 ==> #[trigger] all[1][k] == '─'
            &&& all[txs.len() as int + 2] == Seq::<char>::empty()
            &&& all[txs.len() as int + 3] == numeral(txs.len(), 10, false) + " transaction(s) total."@
            &&& 0 <= i < txs.len() && txs[i].response is Some ==> all[i + 2] == row(
                id_text(txs[i].id),
                numeral(txs[i].response->Some_0.status as nat, 10, false),
                txs[i].request.method,
                txs[i].request.url,
            )
            &&& 0 <= i < txs.len() && txs[i].response is None ==> all[i + 2] == row(
                id_text(txs[i].id),
                seq!['—'],
                txs[i].request.method,
                txs[i].request.url,
            )
        },
{
    reveal_strlit("");
    reveal_strlit("—");
    assert(""@ =~= Seq::<char>::empty());
    assert("—"@ =~= seq!['—']);
    decimal_counts_by_tens(txs.len());
    if 0 <= i < txs.len() {
        if let Some(response) = txs[i].response {
            decimal_counts_by_tens(response.status as nat);
        }
        assert(listing(txs, db)[i + 2] == transaction_row(txs[i]));
        assert(listed_status(txs[i]) == match txs[i].response {
            Some(response) => numeral(response.status as nat, 10, false),
            None => seq!['—'],
        });
    }
}

// ---------------------------------------------------------------------------
// Errors
// ---------------------------------------------------------------------------

/// What is said of an error names its kind and repeats what was said of it.
pub proof fn errors_are_told_apart(store: StoreError, script: ScriptError)
    ensures
        store matches StoreError::Db(e) ==> store.text() == "database error: "@ + e@,
        store matches StoreError::Bincode(e) ==> store.text() == "serialization error: "@ + e@,
        store matches StoreError::NotFound(e) ==> store.text() == "transaction not found: "@ + e@,
        script matches ScriptError::Eval(e) ==> script.text() == "Rhai evaluation error: "@ + e@,
        script matches ScriptError::Parse(e) ==> script.text() == "Rhai parse error: "@ + e@,
        script matches ScriptError::InvalidAction(e) ==> script.text()
            == "Script returned an invalid action map: "@ + e@,
        script matches ScriptError::Io { path, source } ==> script.text()
            == "I/O error reading script '"@ + path@ + "': "@ + source@,
        HttpError::MissingMethod.text() == "missing method in request line"@,
        HttpError::MissingTarget.text() == "missing target in request line"@,
        HttpError::MissingVersion.text() == "missing version in request line"@,
        HttpError::MissingHost.text() == "missing Host header"@,
        HttpError::ClosedInStatusLine.text() == "upstream closed while reading response line"@,
        HttpError::ClosedInBody.text() == "unexpected EOF while reading body"@,
        HttpError::ClosedInChunkSize.text() == "unexpected EOF while reading chunk size"@,
        HttpError::ClosedInTrailer.text() == "unexpected EOF while reading chunk trailer"@,
{
}

/// A peer stopped too early exactly if it was in the middle of something.
pub proof fn early_ends_are_told_apart(e: HttpError)
    ensures
        e.closed() <==> e == HttpError::ClosedInStatusLine || e == HttpError::ClosedInBody || e
            == HttpError::ClosedInChunkSize || e == HttpError::ClosedInTrailer,
{
}

} // verus!
