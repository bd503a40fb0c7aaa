//! Stored sessions: keys, order, errors, the log beside them and the printed list.

use vstd::prelude::*;

use crate::text::{chars_of, decimal_text, pad_right_exec, text_of, trim_end_char_exec};
use crate::transaction::{Timestamp, Transaction, TransactionId, TransactionView};

verus! {

// ---------------------------------------------------------------------------
// Errors and keys
// ---------------------------------------------------------------------------

/// What can go wrong with the session store.
#[derive(Debug, Clone)]
pub enum StoreError {
    /// The database failed.
    Db(String),
    /// A record could not be written or read.
    Bincode(String),
    /// There is no such transaction.
    NotFound(String),
}

impl StoreError {
    /// The text shown for the error.
    pub open spec fn text(&self) -> Seq<char> {
        match *self {
            StoreError::Db(e) => "database error: "@ + e@,
            StoreError::Bincode(e) => "serialization error: "@ + e@,
            StoreError::NotFound(e) => "transaction not found: "@ + e@,
        }
    }

    /// The text shown for the error.
    pub fn message(&self) -> (out: String)
        ensures
            out@ == self.text(),
    {
        let mut out;
        match self {
            StoreError::Db(e) => {
                out = "database error: ".to_string();
                out.append(e.as_str());
            },
            StoreError::Bincode(e) => {
                out = "serialization error: ".to_string();
                out.append(e.as_str());
            },
            StoreError::NotFound(e) => {
                out = "transaction not found: ".to_string();
                out.append(e.as_str());
            },
        }
        out
    }
}

/// The key under which a transaction is stored: the bytes of its identifier.
pub fn record_key(id: &TransactionId) -> (key: Vec<u8>)
    ensures
        key@ == id.bytes@,
{
    let mut key: Vec<u8> = Vec::new();
    let mut i: usize = 0;
    while i < 16
        invariant
            i <= 16,
            key@ == id.bytes@.take(i as int),
        decreases 16 - i,
    {
        key.push(id.bytes[i]);
        assert(id.bytes@.take(i as int + 1) =~= id.bytes@.take(i as int).push(id.bytes@[i as int]));
        i += 1;
    }
    assert(id.bytes@.take(16) =~= id.bytes@);
    key
}

/// Where the log of a session goes: beside its database.
pub fn log_path(db: &str) -> (path: String)
    ensures
        path@ == crate::text::trim_end_char(db@, '/') + ".log"@,
{
    let chars = chars_of(db);
    let mut path = text_of(trim_end_char_exec(chars.as_slice(), '/'));
    path.append(".log");
    path
}

/// The text shown for a transaction that is not in the database.
pub fn missing_message(id: &str, db: &str) -> (out: String)
    ensures
        out@ == "Transaction "@ + id@ + " not found in "@ + db@,
{
    let mut out = "Transaction ".to_string();
    out.append(id);
    out.append(" not found in ");
    out.append(db);
    out
}

// ---------------------------------------------------------------------------
// Chronological order
// ---------------------------------------------------------------------------

/// Whether no transaction stands before an earlier one.
pub open spec fn chronological_order(txs: Seq<Transaction>) -> bool {
    forall|i: int, j: int|
        0 <= i < j < txs.len() ==> (#[trigger] txs[i]).timestamp.no_later(
            (#[trigger] txs[j]).timestamp,
        )
}

/// The transactions made at `time`, in order.
pub open spec fn made_at(txs: Seq<Transaction>, time: Timestamp) -> Seq<Transaction> {
    txs.filter(|tx: Transaction| tx.timestamp == time)
}

proof fn lemma_insert_keeps(before: Seq<Transaction>, pos: int, tx: Transaction, time: Timestamp)
    requires
        0 <= pos <= before.len(),
        forall|k: int| pos <= k < before.len() ==> (#[trigger] before[k]).timestamp != tx.timestamp,
    ensures
        made_at(before.insert(pos, tx), time) == (if tx.timestamp == time {
            made_at(before, time).push(tx)
        } else {
            made_at(before, time)
        }),
{
    let p = |t: Transaction| t.timestamp == time;
    let a = before.take(pos);
    let b = before.skip(pos);
    let one = seq![tx];
    assert(before =~= a + b);
    assert(before.insert(pos, tx) =~= a + one + b);
    Seq::filter_distributes_over_add(a, b, p);
    Seq::filter_distributes_over_add(a + one, b, p);
    Seq::filter_distributes_over_add(a, one, p);
    reveal(Seq::filter);
    assert(one.drop_last() =~= Seq::empty());
    assert(one.last() == tx);
    assert(one.drop_last().filter(p) =~= Seq::empty());
    if tx.timestamp == time {
        lemma_none_at(b, time);
        assert(one.filter(p) =~= one);
        assert(a.filter(p) + one + b.filter(p) =~= (a.filter(p) + b.filter(p)).push(tx));
    } else {
        assert(one.filter(p) =~= Seq::empty());
        assert(a.filter(p) + Seq::empty() + b.filter(p) =~= a.filter(p) + b.filter(p));
    }
}

proof fn lemma_none_at(txs: Seq<Transaction>, time: Timestamp)
    requires
        forall|k: int| 0 <= k < txs.len() ==> (#[trigger] txs[k]).timestamp != time,
    ensures
        made_at(txs, time) =~= Seq::empty(),
    decreases txs.len(),
{
    reveal(Seq::filter);
    if txs.len() > 0 {
        assert forall|k: int| 0 <= k < txs.drop_last().len() implies (
        #[trigger] txs.drop_last()[k]).timestamp != time by {
            assert(txs.drop_last()[k] == txs[k]);
        }
        lemma_none_at(txs.drop_last(), time);
        assert(txs.last().timestamp != time);
    }
}

/// Puts transactions in chronological order. Those made at the same time keep
/// their order, and none is lost or added: if they are all that is stored, so is
/// the result.
pub fn chronological(txs: Vec<Transaction>) -> (out: Vec<Transaction>)
    ensures
        chronological_order(out@),
        forall|time: Timestamp| #[trigger] made_at(out@, time) == made_at(txs@, time),
        out@.to_multiset() == txs@.to_multiset(),
        forall|stored: Map<Seq<u8>, Transaction>| #[trigger]
            lists(txs@, stored) ==> lists(out@, stored),
{
    let ghost all = txs@;
    let mut rest = txs;
    let mut out: Vec<Transaction> = Vec::new();
    let ghost mut n: int = 0;
    proof {
        reveal(Seq::filter);
        assert(all.skip(0) =~= all);
        assert forall|time: Timestamp| #[trigger] made_at(out@, time) == made_at(
            all.take(0),
            time,
        ) by {}
        assert(out@ =~= all.take(0));
    }
    while rest.len() > 0
        invariant
            0 <= n <= all.len(),
            rest@ == all.skip(n),
            chronological_order(out@),
            out@.to_multiset() == all.take(n).to_multiset(),
            forall|time: Timestamp| #[trigger] made_at(out@, time) == made_at(all.take(n), time),
        decreases rest@.len(),
    {
        let tx = rest.remove(0);
        let ghost before = out@;
        let mut pos: usize = out.len();
        while pos > 0 && !out[pos - 1].timestamp.is_no_later(&tx.timestamp)
            invariant
                pos <= out@.len(),
                forall|k: int|
                    pos <= k < out@.len() ==> !(#[trigger] out@[k]).timestamp.no_later(tx.timestamp),
            decreases pos,
        {
            pos -= 1;
        }
        let ghost g = tx;
        out.insert(pos, tx);
        proof {
            assert(rest@ =~= all.skip(n + 1));
            assert(g == all[n]);
            assert forall|i: int, j: int| 0 <= i < j < out@.len() implies (
            #[trigger] out@[i]).timestamp.no_later((#[trigger] out@[j]).timestamp) by {
                let a = if i < pos {
                    before[i]
                } else if i == pos {
                    g
                } else {
                    before[i - 1]
                };
                let b = if j < pos {
                    before[j]
                } else if j == pos {
                    g
                } else {
                    before[j - 1]
                };
                assert(out@[i] == a && out@[j] == b);
                if i < pos && j == pos {
                    assert(before[pos - 1].timestamp.no_later(g.timestamp));
                    if i < pos - 1 {
                        assert(before[i].timestamp.no_later(before[pos - 1].timestamp));
                    }
                }
            }
            assert forall|time: Timestamp| #[trigger] made_at(out@, time) == made_at(
                all.take(n + 1),
                time,
            ) by {
                lemma_insert_keeps(before, pos as int, g, time);
                reveal(Seq::filter);
                assert(all.take(n + 1).drop_last() =~= all.take(n));
                assert(all.take(n + 1).last() == g);
                assert(made_at(before, time) == made_at(all.take(n), time));
            }
            vstd::seq_lib::to_multiset_insert(before, pos as int, g);
            vstd::seq_lib::to_multiset_build(all.take(n), g);
            assert(all.take(n + 1) =~= all.take(n).push(g));
            n = n + 1;
        }
    }
    proof {
        assert(n == all.len());
        assert(all.take(n) =~= all);
        assert forall|stored: Map<Seq<u8>, Transaction>| #[trigger]
            lists(all, stored) implies lists(out@, stored) by {
            lemma_reordered(all, out@, stored);
        }
    }
    out
}

// ---------------------------------------------------------------------------
// The printed list
// ---------------------------------------------------------------------------

/// The views of a list of transactions.
pub open spec fn transaction_views(txs: Seq<Transaction>) -> Seq<TransactionView> {
    txs.map_values(|tx: Transaction| tx@)
}

/// One row: four columns, the last of which is as wide as it needs to be.
pub open spec fn row(
    id: Seq<char>,
    status: Seq<char>,
    method: Seq<char>,
    url: Seq<char>,
) -> Seq<char> {
    crate::text::pad_right(id, 36) + "  "@ + crate::text::pad_right(status, 6) + "  "@
        + crate::text::pad_right(method, 7) + "  "@ + url
}

/// The status of a transaction as it is listed.
pub open spec fn listed_status(tx: TransactionView) -> Seq<char> {
    match tx.response {
        Some(r) => crate::text::decimal(r.status as nat),
        None => "—"@,
    }
}

/// The row of a transaction.
pub open spec fn transaction_row(tx: TransactionView) -> Seq<char> {
    row(
        crate::transaction::id_text(tx.id),
        listed_status(tx),
        tx.request.method,
        tx.request.url,
    )
}

/// The lines of the list of `txs`, stored in `db`.
pub open spec fn listing(txs: Seq<TransactionView>, db: Seq<char>) -> Seq<Seq<char>> {
    if txs.len() == 0 {
        seq!["No transactions stored in '"@ + db + "'."@]
    } else {
        seq![row("ID"@, "STATUS"@, "METHOD"@, "URL"@), Seq::new(90, |i: int| '─')]
            + txs.map_values(|tx: TransactionView| transaction_row(tx)) + seq![
            ""@,
            crate::text::decimal(txs.len()) + " transaction(s) total."@,
        ]
    }
}

fn make_row(id: &str, status: &str, method: &str, url: &str) -> (out: String)
    ensures
        out@ == row(id@, status@, method@, url@),
{
    let mut out = pad_right_exec(id, 36);
    out.append("  ");
    out.append(pad_right_exec(status, 6).as_str());
    out.append("  ");
    out.append(pad_right_exec(method, 7).as_str());
    out.append("  ");
    out.append(url);
    out
}

fn rule() -> (out: String)
    ensures
        out@ == Seq::new(90, |i: int| '─'),
{
    let mut out = String::new();
    let mut i: usize = 0;
    while i < 90
        invariant
            i <= 90,
            out@ == Seq::new(i as nat, |k: int| '─'),
        decreases 90 - i,
    {
        out.push('─');
        assert(out@ =~= Seq::new((i + 1) as nat, |k: int| '─'));
        i += 1;
    }
    out
}

/// The row of a transaction.
fn make_transaction_row(tx: &Transaction) -> (out: String)
    ensures
        out@ == transaction_row(tx@),
{
    let id = tx.id.to_text();
    let status = match &tx.response {
        Some(r) => decimal_text(r.status as u64),
        None => "—".to_string(),
    };
    make_row(id.as_str(), status.as_str(), tx.request.method.as_str(), tx.request.url.as_str())
}

/// The lines of the list of `txs`, stored in `db`.
pub fn list_lines(txs: &[Transaction], db: &str) -> (out: Vec<String>)
    ensures
        crate::text::texts(out@) == listing(transaction_views(txs@), db@),
{
    let mut out: Vec<String> = Vec::new();
    if txs.len() == 0 {
        let mut line = "No transactions stored in '".to_string();
        line.append(db);
        line.append("'.");
        out.push(line);
        assert(crate::text::texts(out@) =~= listing(transaction_views(txs@), db@));
        return out;
    }
    out.push(make_row("ID", "STATUS", "METHOD", "URL"));
    out.push(rule());
    let ghost head = seq![row("ID"@, "STATUS"@, "METHOD"@, "URL"@), Seq::new(90, |i: int| '─')];
    let ghost rows = transaction_views(txs@).map_values(
        |tx: TransactionView| transaction_row(tx),
    );
    let mut i: usize = 0;
    assert(crate::text::texts(out@) =~= head + rows.take(0));
    while i < txs.len()
        invariant
            i <= txs@.len(),
            rows == transaction_views(txs@).map_values(|tx: TransactionView| transaction_row(tx)),
            crate::text::texts(out@) == head + rows.take(i as int),
        decreases txs@.len() - i,
    {
        let ghost before = crate::text::texts(out@);
        out.push(make_transaction_row(&txs[i]));
        proof {
            assert(crate::text::texts(out@) =~= before.push(rows[i as int]));
            assert(rows.take(i as int + 1) =~= rows.take(i as int).push(rows[i as int]));
            assert(head + rows.take(i as int).push(rows[i as int]) =~= before.push(
                rows[i as int],
            ));
        }
        i += 1;
    }
    out.push("".to_string());
    let mut total = decimal_text(txs.len() as u64);
    total.append(" transaction(s) total.");
    out.push(total);
    proof {
        assert(rows.take(i as int) =~= rows);
        assert(crate::text::texts(out@) =~= listing(transaction_views(txs@), db@));
    }
    out
}

// ---------------------------------------------------------------------------
// Laws
// ---------------------------------------------------------------------------

proof fn lemma_made_at_last(txs: Seq<Transaction>, time: Timestamp)
    requires
        txs.len() > 0,
    ensures
        made_at(txs, time) == if txs.last().timestamp == time {
            made_at(txs.drop_last(), time).push(txs.last())
        } else {
            made_at(txs.drop_last(), time)
        },
{
    reveal(Seq::filter);
}

proof fn lemma_some_at(txs: Seq<Transaction>, time: Timestamp) -> (i: int)
    requires
        made_at(txs, time).len() > 0,
    ensures
        0 <= i < txs.len(),
        txs[i].timestamp == time,
    decreases txs.len(),
{
    reveal(Seq::filter);
    lemma_made_at_last(txs, time);
    if txs.last().timestamp == time {
        txs.len() - 1
    } else {
        lemma_some_at(txs.drop_last(), time)
    }
}

/// There is one chronological order: two lists that are in order and have the
/// same transactions of each time, in the same order, are the same list.
pub proof fn chronological_order_is_unique(a: Seq<Transaction>, b: Seq<Transaction>)
    requires
        chronological_order(a),
        chronological_order(b),
        forall|time: Timestamp| #[trigger] made_at(a, time) == made_at(b, time),
    ensures
        a == b,
    decreases a.len(),
{
    reveal(Seq::filter);
    if a.len() == 0 {
        if b.len() > 0 {
            let t = b.last().timestamp;
            lemma_made_at_last(b, t);
            assert(made_at(a, t) == made_at(b, t));
        }
        assert(a =~= b);
    } else {
        let t = a.last().timestamp;
        lemma_made_at_last(a, t);
        assert(made_at(a, t) == made_at(b, t));
        let i = lemma_some_at(b, t);
        let u = b.last().timestamp;
        lemma_made_at_last(b, u);
        assert(made_at(a, u) == made_at(b, u));
        let j = lemma_some_at(a, u);
        assert(t == u) by {
            if i < b.len() - 1 {
                assert(b[i].timestamp.no_later(b[b.len() - 1].timestamp));
            }
            if j < a.len() - 1 {
                assert(a[j].timestamp.no_later(a[a.len() - 1].timestamp));
            }
        }
        let (ra, rb) = (a.drop_last(), b.drop_last());
        assert(made_at(a, t).last() == a.last());
        assert(made_at(b, t).last() == b.last());
        assert(a.last() == b.last());
        assert forall|time: Timestamp| #[trigger] made_at(ra, time) == made_at(rb, time) by {
            lemma_made_at_last(a, time);
            lemma_made_at_last(b, time);
            assert(made_at(a, time) == made_at(b, time));
            if time == t {
                assert(made_at(a, time).drop_last() =~= made_at(ra, time));
                assert(made_at(b, time).drop_last() =~= made_at(rb, time));
            }
        }
        assert(chronological_order(ra)) by {
            assert forall|x: int, y: int| 0 <= x < y < ra.len() implies (
            #[trigger] ra[x]).timestamp.no_later((#[trigger] ra[y]).timestamp) by {
                assert(a[x].timestamp.no_later(a[y].timestamp));
            }
        }
        assert(chronological_order(rb)) by {
            assert forall|x: int, y: int| 0 <= x < y < rb.len() implies (
            #[trigger] rb[x]).timestamp.no_later((#[trigger] rb[y]).timestamp) by {
                assert(b[x].timestamp.no_later(b[y].timestamp));
            }
        }
        chronological_order_is_unique(ra, rb);
        assert(a =~= ra.push(a.last()));
        assert(b =~= rb.push(b.last()));
    }
}

/// What is done to the stored transactions.
pub enum StoreOp {
    Save(Transaction),
    Remove(TransactionId),
}

/// The stored transactions by key, after `ops`.
pub open spec fn contents(ops: Seq<StoreOp>) -> Map<Seq<u8>, Transaction>
    decreases ops.len(),
{
    if ops.len() == 0 {
        Map::empty()
    } else {
        let before = contents(ops.drop_last());
        match ops.last() {
            StoreOp::Save(tx) => before.insert(tx.id.bytes@, tx),
            StoreOp::Remove(id) => before.remove(id.bytes@),
        }
    }
}

/// Whether an operation is about the transaction with this key.
pub open spec fn concerns(op: StoreOp, key: Seq<u8>) -> bool {
    match op {
        StoreOp::Save(tx) => tx.id.bytes@ == key,
        StoreOp::Remove(id) => id.bytes@ == key,
    }
}

/// Whether `txs` are the stored transactions, each once.
pub open spec fn lists(txs: Seq<Transaction>, stored: Map<Seq<u8>, Transaction>) -> bool {
    &&& forall|i: int|
        0 <= i < txs.len() ==> stored.contains_key((#[trigger] txs[i]).id.bytes@)
            && stored[txs[i].id.bytes@] == txs[i]
    &&& forall|i: int, j: int|
        0 <= i < j < txs.len() ==> (#[trigger] txs[i]).id.bytes@ != (#[trigger] txs[j]).id.bytes@
    &&& forall|key: Seq<u8>| #[trigger]
        stored.contains_key(key) ==> exists|i: int|
            0 <= i < txs.len() && (#[trigger] txs[i]).id.bytes@ == key
}

/// A transaction is stored exactly if it was saved and not removed since, in
/// the version that was saved last: what comes after the last operation about
/// its key does not matter.
pub proof fn last_operation_counts(ops: Seq<StoreOp>, k: int, key: Seq<u8>)
    requires
        0 <= k < ops.len(),
        concerns(ops[k], key),
        forall|i: int| k < i < ops.len() ==> !concerns(#[trigger] ops[i], key),
    ensures
        match ops[k] {
            StoreOp::Save(tx) => contents(ops).contains_key(key) && contents(ops)[key] == tx,
            StoreOp::Remove(_) => !contents(ops).contains_key(key),
        },
    decreases ops.len(),
{
    if k < ops.len() - 1 {
        let before = ops.drop_last();
        assert forall|i: int| k < i < before.len() implies !concerns(#[trigger] before[i], key) by {
            assert(before[i] == ops[i]);
        }
        last_operation_counts(before, k, key);
        assert(!concerns(ops[ops.len() - 1], key));
    }
}

/// A transaction that was never saved is not stored.
pub proof fn unsaved_is_not_stored(ops: Seq<StoreOp>, key: Seq<u8>)
    requires
        forall|i: int| 0 <= i < ops.len() ==> !concerns(#[trigger] ops[i], key),
    ensures
        !contents(ops).contains_key(key),
    decreases ops.len(),
{
    if ops.len() > 0 {
        let before = ops.drop_last();
        assert forall|i: int| 0 <= i < before.len() implies !concerns(#[trigger] before[i], key) by {
            assert(before[i] == ops[i]);
        }
        unsaved_is_not_stored(before, key);
        assert(!concerns(ops[ops.len() - 1], key));
    }
}

proof fn lemma_reordered(
    found: Seq<Transaction>,
    listed: Seq<Transaction>,
    stored: Map<Seq<u8>, Transaction>,
)
    requires
        lists(found, stored),
        listed.to_multiset() == found.to_multiset(),
    ensures
        lists(listed, stored),
{
    assert forall|x: Transaction| listed.contains(x) == found.contains(x) by {
        vstd::seq_lib::to_multiset_contains(listed, x);
        vstd::seq_lib::to_multiset_contains(found, x);
    }
    assert(found.no_duplicates());
    found.lemma_multiset_has_no_duplicates();
    listed.lemma_multiset_has_no_duplicates_conv();
    assert forall|i: int| 0 <= i < listed.len() implies stored.contains_key(
        (#[trigger] listed[i]).id.bytes@,
    ) && stored[listed[i].id.bytes@] == listed[i] by {
        assert(listed.contains(listed[i]));
        let k = choose|k: int| 0 <= k < found.len() && found[k] == listed[i];
        assert(stored.contains_key(found[k].id.bytes@));
    }
    assert forall|i: int, j: int| 0 <= i < j < listed.len() implies (
    #[trigger] listed[i]).id.bytes@ != (#[trigger] listed[j]).id.bytes@ by {
        if listed[i].id.bytes@ == listed[j].id.bytes@ {
            assert(listed[i] == stored[listed[i].id.bytes@]);
            assert(listed[j] == stored[listed[j].id.bytes@]);
            assert(listed[i] == listed[j]);
        }
    }
    assert forall|key: Seq<u8>| #[trigger] stored.contains_key(key) implies exists|i: int|
        0 <= i < listed.len() && (#[trigger] listed[i]).id.bytes@ == key by {
        let k = choose|k: int| 0 <= k < found.len() && (#[trigger] found[k]).id.bytes@ == key;
        assert(found.contains(found[k]));
        assert(listed.contains(found[k]));
        let i = choose|i: int| 0 <= i < listed.len() && listed[i] == found[k];
        assert(listed[i].id.bytes@ == key);
    }
}

/// Whatever was saved and removed, the list that is made of the stored
/// transactions is in chronological order and holds each of them once, in the
/// version that was saved last.
pub proof fn stored_list_is_current(
    ops: Seq<StoreOp>,
    found: Seq<Transaction>,
    listed: Seq<Transaction>,
)
    requires
        lists(found, contents(ops)),
        chronological_order(listed),
        listed.to_multiset() == found.to_multiset(),
    ensures
        lists(listed, contents(ops)),
        chronological_order(listed),
{
    lemma_reordered(found, listed, contents(ops));
}

} // verus!
