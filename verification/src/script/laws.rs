//! What holds of scripts as a whole.

use vstd::prelude::*;

use crate::script::action::ActionView;
use crate::script::engine::{
    glob_matches, may_happen, paths, plain_word, possible, run_of, same_everywhere, verdict,
    EngineView, Outcome, RunView, Verdict,
};
use crate::script::value::{action_of, cut, headers_of, pair_of, pairs_of, Value};

verus! {

proof fn lemma_pair_cut(v: Value, n: nat)
    requires
        n >= 2,
    ensures
        pair_of(cut(v, n)) == pair_of(v),
{
    reveal_with_fuel(cut, 3);
    match v {
        Value::Array(pair) => {
            let short = cut(v, n)->Array_0;
            assert(short.len() == pair.len());
            if pair.len() > 0 {
                assert(short[0] == cut(pair[0], (n - 1) as nat));
            }
            if pair.len() > 1 {
                assert(short[1] == cut(pair[1], (n - 1) as nat));
            }
        },
        _ => {},
    }
}

proof fn lemma_pairs_cut(items: Seq<Value>, n: nat)
    requires
        n >= 2,
    ensures
        pairs_of(items.map_values(|x: Value| cut(x, n))) == pairs_of(items),
    decreases items.len(),
{
    let f = |x: Value| cut(x, n);
    let short = items.map_values(f);
    if items.len() > 0 {
        lemma_pair_cut(items[0], n);
        lemma_pairs_cut(items.skip(1), n);
        assert(short[0] == cut(items[0], n));
        assert(short.skip(1) =~= items.skip(1).map_values(f));
    }
}

proof fn lemma_headers_cut(v: Value, n: nat)
    requires
        n >= 3,
    ensures
        headers_of(cut(v, n)) == headers_of(v),
{
    match v {
        Value::Array(items) => {
            let m = (n - 1) as nat;
            lemma_pairs_cut(items, m);
            reveal_with_fuel(cut, 2);
            assert(cut(v, n)->Array_0 =~= items.map_values(|x: Value| cut(x, m)));
        },
        _ => {},
    }
}

/// An answer read to the depth that the engine uses stands for the same
/// decision as the whole answer.
pub proof fn reading_depth_suffices(v: Value)
    ensures
        action_of(cut(v, crate::script::engine::READ_DEPTH as nat)) == action_of(v),
{
    let short = cut(v, 4);
    match v {
        Value::Table(table) => {
            let t = short->Table_0;
            let f = |x: Value| cut(x, 3);
            assert(t == table.map_values(f));
            assert forall|k: Seq<char>| table.contains_key(k) == #[trigger] t.contains_key(k) by {}
            assert forall|k: Seq<char>| #[trigger] t.contains_key(k) implies t[k] == cut(
                table[k],
                3,
            ) by {}
            if table.contains_key("modify_headers"@) {
                lemma_headers_cut(table["modify_headers"@], 3);
            }
            if table.contains_key("headers"@) {
                lemma_headers_cut(table["headers"@], 3);
            }
        },
        _ => {},
    }
}

/// A request whose URL no pattern matches passes through without a warning,
/// and no script is called. With a backslash in one of them the machine decides
/// what matches.
pub proof fn unmatched_requests_pass(
    engine: EngineView,
    url: Seq<char>,
    request: Value,
    outcomes: Seq<Outcome>,
)
    requires
        possible(engine, url, request, outcomes),
        forall|i: int|
            0 <= i < engine.scripts.len() ==> same_everywhere(
                (#[trigger] engine.scripts[i]).pattern,
                url,
            ) && !glob_matches(engine.scripts[i].pattern, url),
    ensures
        run_of(paths(engine.scripts), outcomes) == (RunView {
            action: ActionView::Passthrough,
            warnings: seq![],
        }),
        forall|i: int| 0 <= i < outcomes.len() ==> (#[trigger] outcomes[i]) is Skipped,
{
    let p = paths(engine.scripts);
    assert forall|i: int| 0 <= i < outcomes.len() implies (#[trigger] outcomes[i]) is Skipped by {
        assert(may_happen(engine, engine.scripts[i], url, request, outcomes[i]));
        assert(same_everywhere(engine.scripts[i].pattern, url));
    }
    lemma_all_skipped(p, outcomes);
}

proof fn lemma_all_skipped(p: Seq<Seq<char>>, outcomes: Seq<Outcome>)
    requires
        forall|i: int| 0 <= i < outcomes.len() ==> (#[trigger] outcomes[i]) is Skipped,
    ensures
        run_of(p, outcomes) == (RunView { action: ActionView::Passthrough, warnings: seq![] }),
    decreases outcomes.len(),
{
    if p.len() > 0 && outcomes.len() > 0 {
        assert(outcomes[0] is Skipped);
        assert forall|i: int| 0 <= i < outcomes.skip(1).len() implies (#[trigger] outcomes.skip(
            1,
        )[i]) is Skipped by {
            assert(outcomes.skip(1)[i] == outcomes[i + 1]);
        }
        lemma_all_skipped(p.skip(1), outcomes.skip(1));
        let none: Seq<Seq<char>> = seq![];
        assert(none + none =~= none);
    }
}

/// The first decision other than to pass the request through stands: scripts
/// before it do not change it and scripts after it are not asked.
pub proof fn first_decision_stands(
    engine: EngineView,
    url: Seq<char>,
    request: Value,
    outcomes: Seq<Outcome>,
    k: int,
)
    requires
        possible(engine, url, request, outcomes),
        0 <= k < outcomes.len(),
        verdict(engine.scripts[k].path, outcomes[k]) is Decided,
    ensures
        k == outcomes.len() - 1,
        run_of(paths(engine.scripts), outcomes).action == verdict(
            engine.scripts[k].path,
            outcomes[k],
        )->Decided_0,
{
    if k < outcomes.len() - 1 {
        assert(verdict(engine.scripts[k].path, outcomes[k]) is Next);
    }
    let p = paths(engine.scripts);
    assert(p[k] == engine.scripts[k].path);
    assert forall|i: int| 0 <= i < k implies verdict(p[i], #[trigger] outcomes[i]) is Next by {
        assert(p[i] == engine.scripts[i].path);
    }
    lemma_decided_at(p, outcomes, k);
}

proof fn lemma_decided_at(p: Seq<Seq<char>>, outcomes: Seq<Outcome>, k: int)
    requires
        0 <= k < outcomes.len() <= p.len(),
        forall|i: int| 0 <= i < k ==> verdict(p[i], #[trigger] outcomes[i]) is Next,
        verdict(p[k], outcomes[k]) is Decided,
    ensures
        run_of(p, outcomes).action == verdict(p[k], outcomes[k])->Decided_0,
    decreases k,
{
    if k > 0 {
        assert(verdict(p[0], outcomes[0]) is Next);
        assert forall|i: int| 0 <= i < k - 1 implies verdict(
            p.skip(1)[i],
            #[trigger] outcomes.skip(1)[i],
        ) is Next by {
            assert(outcomes.skip(1)[i] == outcomes[i + 1]);
            assert(p.skip(1)[i] == p[i + 1]);
        }
        lemma_decided_at(p.skip(1), outcomes.skip(1), k - 1);
    }
}

/// Without a decision the request passes through.
pub proof fn undecided_requests_pass(p: Seq<Seq<char>>, outcomes: Seq<Outcome>)
    requires
        outcomes.len() <= p.len(),
        forall|i: int|
            0 <= i < outcomes.len() ==> verdict(p[i], #[trigger] outcomes[i]) is Next,
    ensures
        run_of(p, outcomes).action is Passthrough,
    decreases outcomes.len(),
{
    if outcomes.len() > 0 {
        assert(verdict(p[0], outcomes[0]) is Next);
        assert forall|i: int| 0 <= i < outcomes.skip(1).len() implies verdict(
            p.skip(1)[i],
            #[trigger] outcomes.skip(1)[i],
        ) is Next by {
            assert(outcomes.skip(1)[i] == outcomes[i + 1]);
            assert(p.skip(1)[i] == p[i + 1]);
        }
        undecided_requests_pass(p.skip(1), outcomes.skip(1));
    }
}

/// A script named `*word*` is consulted exactly for the URLs that have the
/// word in them, and a script named `*` for every URL. A word with a slash is
/// held against URLs without a backslash, for which it might be taken.
pub proof fn names_select_urls(
    engine: EngineView,
    url: Seq<char>,
    request: Value,
    outcomes: Seq<Outcome>,
    i: int,
    word: Seq<char>,
)
    requires
        possible(engine, url, request, outcomes),
        0 <= i < outcomes.len(),
        plain_word(word),
        !word.contains('/') || !url.contains('\\'),
    ensures
        engine.scripts[i].pattern == seq!['*'] ==> !(outcomes[i] is Skipped),
        engine.scripts[i].pattern == crate::script::engine::containing(word) ==> (
        outcomes[i] is Skipped <==> !crate::text::occurs(word, url)),
{
    assert(may_happen(engine, engine.scripts[i], url, request, outcomes[i]));
}

/// A script that answers `drop`, in any case of letters, has the request
/// dropped, and one that answers `passthrough` leaves it to the next script
/// without a warning.
pub proof fn words_decide(
    engine: EngineView,
    url: Seq<char>,
    request: Value,
    outcomes: Seq<Outcome>,
    k: int,
    word: Seq<char>,
)
    requires
        possible(engine, url, request, outcomes),
        0 <= k < outcomes.len(),
        outcomes[k] == Outcome::Returned(Value::Text(word)),
        vstd::utf8::is_ascii_chars(word),
    ensures
        crate::text::same_fold(word, "drop"@) ==> run_of(paths(engine.scripts), outcomes).action
            == ActionView::Drop,
        crate::text::same_fold(word, "passthrough"@) ==> verdict(
            engine.scripts[k].path,
            outcomes[k],
        ) == Verdict::Next(seq![]),
{
    reveal_strlit("drop");
    reveal_strlit("passthrough");
    assert(may_happen(engine, engine.scripts[k], url, request, outcomes[k]));
    assert(crate::script::value::lower_fact(Value::Text(word)));
    assert(crate::text::lower("drop"@) =~= "drop"@);
    assert(crate::text::lower("passthrough"@) =~= "passthrough"@);
    if crate::text::same_fold(word, "drop"@) {
        assert("drop"@.len() != "passthrough"@.len());
        first_decision_stands(engine, url, request, outcomes, k);
    }
}

} // verus!
