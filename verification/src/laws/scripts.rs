//! What holds of what scripts are given and of what their answers mean.

use vstd::prelude::*;
use vstd::utf8::encode_utf8;

use crate::http::HeaderSeq;
use crate::script::action::ActionView;
use crate::script::engine::{
    bad_pattern_text, is_script_file, outcome_of, parse_error_text, paths, possible,
    refused_functions, run_of, script_may_give, stem_pattern, verdict, EngineSettings, EngineView,
    Outcome, Parameters, RunView, Verdict, MAX_PATTERN,
};
use crate::script::value::{
    action_of, cut, debug_text, header_array, headers_of, kind_name, pair_of, pairs_of,
    request_value, unicode_lower, word_action_of, ScriptValue, Value,
};

verus! {

// ---------------------------------------------------------------------------
// What a script is given
// ---------------------------------------------------------------------------

/// A script is given the method, the URL and every field of the request, in
/// order, and nothing else.
pub proof fn requests_are_handed_over_whole(
    method: Seq<char>,
    url: Seq<char>,
    headers: HeaderSeq,
    key: Seq<char>,
)
    ensures
        request_value(method, url, headers) matches Value::Table(table) && {
            &&& table.contains_key(key) <==> key == "method"@ || key == "url"@ || key
                == "headers"@
            &&& table["method"@] == Value::Text(method)
            &&& table["url"@] == Value::Text(url)
            &&& table["headers"@] matches Value::Array(items) && {
                &&& items.len() == headers.len()
                &&& forall|i: int|
                    0 <= i < headers.len() ==> #[trigger] items[i] == Value::Array(
                        seq![Value::Text(headers[i].0), Value::Text(headers[i].1)],
                    )
            }
        },
{
    reveal_strlit("method");
    reveal_strlit("url");
    reveal_strlit("headers");
    assert("method"@.len() == 6 && "url"@.len() == 3 && "headers"@.len() == 7);
}

// ---------------------------------------------------------------------------
// Header lists
// ---------------------------------------------------------------------------

spec fn pair_value(h: (Seq<char>, Seq<char>)) -> Value {
    Value::Array(seq![Value::Text(h.0), Value::Text(h.1)])
}

proof fn lemma_pairs(headers: HeaderSeq, rest: Seq<Value>)
    ensures
        ({
            let items = header_array(headers)->Array_0;
            pairs_of(items + rest) == match pairs_of(rest) {
                Ok(more) => Ok::<HeaderSeq, Seq<char>>(headers + more),
                Err(e) => Err::<HeaderSeq, Seq<char>>(e),
            }
        }),
    decreases headers.len(),
{
    let items = header_array(headers)->Array_0;
    if headers.len() == 0 {
        assert(items + rest =~= rest);
        if let Ok(more) = pairs_of(rest) {
            assert(headers + more =~= more);
        }
    } else {
        let all = items + rest;
        let tail = headers.skip(1);
        lemma_pairs(tail, rest);
        assert(header_array(tail)->Array_0 =~= items.skip(1));
        assert(all.skip(1) =~= header_array(tail)->Array_0 + rest);
        assert(all[0] == pair_value(headers[0]));
        let pair = all[0]->Array_0;
        assert(pair[0] == Value::Text(headers[0].0) && pair[1] == Value::Text(headers[0].1));
        if let Ok(more) = pairs_of(rest) {
            assert(seq![headers[0]] + (tail + more) =~= headers + more);
        }
    }
}

/// A header list that a script is given and hands back is the same list. What
/// follows a name and a value in an item does not matter.
pub proof fn header_lists_read_back(
    headers: HeaderSeq,
    name: Seq<char>,
    value: Seq<char>,
    more: Seq<Value>,
)
    ensures
        headers_of(header_array(headers)) == Ok::<HeaderSeq, Seq<char>>(headers),
        pair_of(Value::Array(seq![Value::Text(name), Value::Text(value)] + more)) == Ok::<
            (Seq<char>, Seq<char>),
            Seq<char>,
        >((name, value)),
{
    let items = header_array(headers)->Array_0;
    lemma_pairs(headers, Seq::empty());
    assert(items + Seq::<Value>::empty() =~= items);
    assert(headers + HeaderSeq::empty() =~= headers);
    let pair = seq![Value::Text(name), Value::Text(value)] + more;
    assert(pair[0] == Value::Text(name) && pair[1] == Value::Text(value));
}

/// The items of a list are read one by one, up to the first complaint.
pub proof fn header_lists_are_read_item_by_item(item: Value, rest: Seq<Value>)
    ensures
        pairs_of(Seq::empty()) == Ok::<HeaderSeq, Seq<char>>(HeaderSeq::empty()),
        pair_of(item) matches Err(e) ==> pairs_of(seq![item] + rest) == Err::<
            HeaderSeq,
            Seq<char>,
        >(e),
        pair_of(item) matches Ok(field) ==> match pairs_of(rest) {
            Ok(fields) => pairs_of(seq![item] + rest) == Ok::<HeaderSeq, Seq<char>>(
                seq![field] + fields,
            ),
            Err(e) => pairs_of(seq![item] + rest) == Err::<HeaderSeq, Seq<char>>(e),
        },
        headers_of(Value::Array(rest)) == pairs_of(rest),
{
    let all = seq![item] + rest;
    assert(all[0] == item);
    assert(all.skip(1) =~= rest);
}

/// The first item of a list that is no field is named, whatever follows it; and
/// so is a list that is none.
pub proof fn bad_fields_are_named(
    headers: HeaderSeq,
    bad: Value,
    rest: Seq<Value>,
    name: Seq<char>,
    other: Value,
    more: Seq<Value>,
)
    requires
        !(bad is Array),
        !(other is Text),
    ensures
        ({
            let items = header_array(headers)->Array_0;
            &&& headers_of(bad) == Err::<HeaderSeq, Seq<char>>("headers must be an array"@)
            &&& headers_of(Value::Array(items + (seq![bad] + rest))) == Err::<HeaderSeq, Seq<char>>(
                "each header must be a [name, value] array"@,
            )
            &&& headers_of(
                Value::Array(items + (seq![Value::Array(Seq::<Value>::empty())] + rest)),
            ) == Err::<HeaderSeq, Seq<char>>("header name must be a string"@)
            &&& headers_of(
                Value::Array(items + (seq![Value::Array(seq![other] + more)] + rest)),
            ) == Err::<HeaderSeq, Seq<char>>("header name must be a string"@)
            &&& headers_of(
                Value::Array(items + (seq![Value::Array(seq![Value::Text(name)])] + rest)),
            ) == Err::<HeaderSeq, Seq<char>>("header value must be a string"@)
            &&& headers_of(
                Value::Array(
                    items + (seq![Value::Array(seq![Value::Text(name), other] + more)] + rest),
                ),
            ) == Err::<HeaderSeq, Seq<char>>("header value must be a string"@)
        }),
{
    let empty = Value::Array(Seq::<Value>::empty());
    let unnamed = Value::Array(seq![other] + more);
    let short = Value::Array(seq![Value::Text(name)]);
    let unvalued = Value::Array(seq![Value::Text(name), other] + more);
    lemma_pairs(headers, seq![bad] + rest);
    lemma_pairs(headers, seq![empty] + rest);
    lemma_pairs(headers, seq![unnamed] + rest);
    lemma_pairs(headers, seq![short] + rest);
    lemma_pairs(headers, seq![unvalued] + rest);
    assert((seq![bad] + rest)[0] == bad);
    assert((seq![empty] + rest)[0] == empty);
    assert((seq![unnamed] + rest)[0] == unnamed);
    assert((seq![short] + rest)[0] == short);
    assert((seq![unvalued] + rest)[0] == unvalued);
    assert(unnamed->Array_0[0] == other);
    assert(unvalued->Array_0[0] == Value::Text(name));
    assert(unvalued->Array_0[1] == other);
}

// ---------------------------------------------------------------------------
// Decisions
// ---------------------------------------------------------------------------

/// A table with new fields asks for just these fields, whatever else it holds.
pub proof fn new_fields_are_taken_over(table: Map<Seq<char>, Value>, headers: HeaderSeq)
    requires
        table.contains_key("modify_headers"@),
        headers_of(table["modify_headers"@]) == Ok::<HeaderSeq, Seq<char>>(headers),
    ensures
        action_of(Value::Table(table)) == Ok::<ActionView, Seq<char>>(
            ActionView::ModifyHeaders(headers),
        ),
{
}

/// A table that asks for a mocked response gives every part of it: its status,
/// whatever that is, its fields and every character of its body. What the table
/// does not say is 200, no fields and an empty body.
pub proof fn mocked_responses_are_as_asked(
    table: Map<Seq<char>, Value>,
    code: i64,
    headers: HeaderSeq,
    text: Seq<char>,
)
    requires
        table.contains_key("mock"@),
        !table.contains_key("modify_headers"@),
        !table.contains_key("headers"@) && headers.len() == 0 || table.contains_key("headers"@)
            && headers_of(table["headers"@]) == Ok::<HeaderSeq, Seq<char>>(headers),
    ensures
        action_of(Value::Table(table)) matches Ok(ActionView::MockResponse {
            status,
            headers: fields,
            body,
        }) && {
            &&& fields == headers
            &&& table.contains_key("status"@) && table["status"@] == Value::Int(code) ==> status
                == code as u16
            &&& table.contains_key("status"@) && table["status"@] == Value::Int(code) && 0 <= code
                <= 65535 ==> status == code
            &&& !table.contains_key("status"@) || !(table["status"@] is Int) ==> status == 200
            &&& table.contains_key("body"@) && table["body"@] == Value::Text(text) ==> body
                == encode_utf8(text)
            &&& !table.contains_key("body"@) || !(table["body"@] is Text) ==> body == Seq::<
                u8,
            >::empty()
        },
{
    assert(headers.len() == 0 ==> headers =~= HeaderSeq::empty());
}

/// A table whose fields are no header list is refused with the complaint about
/// them, and so is a table that asks for nothing.
pub proof fn bad_tables_are_refused(table: Map<Seq<char>, Value>, error: Seq<char>)
    ensures
        table.contains_key("modify_headers"@) && headers_of(table["modify_headers"@]) == Err::<
            HeaderSeq,
            Seq<char>,
        >(error) ==> action_of(Value::Table(table)) == Err::<ActionView, Seq<char>>(error),
        !table.contains_key("modify_headers"@) && table.contains_key("mock"@)
            && table.contains_key("headers"@) && headers_of(table["headers"@]) == Err::<
            HeaderSeq,
            Seq<char>,
        >(error) ==> action_of(Value::Table(table)) == Err::<ActionView, Seq<char>>(error),
        !table.contains_key("modify_headers"@) && !table.contains_key("mock"@) ==> action_of(
            Value::Table(table),
        ) == Err::<ActionView, Seq<char>>("map has neither 'modify_headers' nor 'mock' key"@),
{
}

/// Two words decide, in any case of letters; any other word and any value that is
/// neither a word nor a table are refused by name.
pub proof fn words_decide_or_are_refused(word: Seq<char>, n: i64, items: Seq<Value>)
    ensures
        word_action_of("passthrough"@) == Ok::<ActionView, Seq<char>>(ActionView::Passthrough),
        word_action_of("drop"@) == Ok::<ActionView, Seq<char>>(ActionView::Drop),
        word != "passthrough"@ && word != "drop"@ ==> word_action_of(word) == Err::<
            ActionView,
            Seq<char>,
        >("unknown string action '"@ + word + "'"@),
        action_of(Value::Text(word)) == word_action_of(unicode_lower(word)),
        action_of(Value::Int(n)) == Err::<ActionView, Seq<char>>(
            "expected String or Map, got: "@ + debug_text("i64"@),
        ),
        action_of(Value::Array(items)) == Err::<ActionView, Seq<char>>(
            "expected String or Map, got: "@ + debug_text("array"@),
        ),
        action_of(Value::Other(word)) == Err::<ActionView, Seq<char>>(
            "expected String or Map, got: "@ + debug_text(word),
        ),
{
    reveal_strlit("passthrough");
    reveal_strlit("drop");
    assert("passthrough"@.len() != "drop"@.len());
}

/// Reading an answer to some depth keeps texts and numbers as they are, and arrays
/// and tables with all that they hold, read one level less deep.
pub proof fn answers_are_read_level_by_level(
    v: Value,
    items: Seq<Value>,
    table: Map<Seq<char>, Value>,
    depth: nat,
    i: int,
    key: Seq<char>,
)
    ensures
        v is Text || v is Int || v is Other ==> cut(v, depth + 1) == v,
        cut(Value::Array(items), depth + 1) matches Value::Array(read) && read.len() == items.len()
            && (0 <= i < items.len() ==> read[i] == cut(items[i], depth)),
        cut(Value::Table(table), depth + 1) matches Value::Table(read) && (read.contains_key(key)
            <==> table.contains_key(key)) && (table.contains_key(key) ==> read[key] == cut(
            table[key],
            depth,
        )),
        cut(v, 0) == Value::Other(kind_name(v)),
        v is Text ==> kind_name(v) == "string"@,
        v is Int ==> kind_name(v) == "i64"@,
        v is Array ==> kind_name(v) == "array"@,
        v is Table ==> kind_name(v) == "map"@,
        v matches Value::Other(name) ==> kind_name(v) == name,
{
}

// ---------------------------------------------------------------------------
// Several scripts
// ---------------------------------------------------------------------------

/// A script that is not for the URL, and one that lets the request pass, leave it
/// to the next without a word; one that fails or answers nothing sensible leaves
/// it to the next with a warning that names it; any other answer decides.
pub proof fn answers_settle_what_follows(
    path: Seq<char>,
    error: Seq<char>,
    value: Value,
    action: ActionView,
)
    ensures
        verdict(path, Outcome::Skipped) == Verdict::Next(Seq::empty()),
        verdict(path, Outcome::Failed(error)) == Verdict::Next(
            seq!["[scripts] error in "@ + path + ": "@ + error],
        ),
        action_of(value) == Ok::<ActionView, Seq<char>>(ActionView::Passthrough) ==> verdict(
            path,
            Outcome::Returned(value),
        ) == Verdict::Next(Seq::empty()),
        action_of(value) == Ok::<ActionView, Seq<char>>(action) && !(action is Passthrough)
            ==> verdict(path, Outcome::Returned(value)) == Verdict::Decided(action),
        action_of(value) == Err::<ActionView, Seq<char>>(error) ==> verdict(
            path,
            Outcome::Returned(value),
        ) == Verdict::Next(
            seq![
                "[scripts] invalid action from "@ + path + ": "@ + (
                "Script returned an invalid action map: "@ + error),
            ],
        ),
{
}

/// Scripts are asked in turn: a decision ends the round, and warnings are shown in
/// the order in which they came.
pub proof fn warnings_keep_their_order(
    path: Seq<char>,
    others: Seq<Seq<char>>,
    outcome: Outcome,
    more: Seq<Outcome>,
)
    ensures
        run_of(others, Seq::empty()) == (RunView {
            action: ActionView::Passthrough,
            warnings: Seq::empty(),
        }),
        ({
            let all = run_of(seq![path] + others, seq![outcome] + more);
            match verdict(path, outcome) {
                Verdict::Decided(action) => all.action == action && all.warnings == Seq::<
                    Seq<char>,
                >::empty(),
                Verdict::Next(warnings) => all.action == run_of(others, more).action
                    && all.warnings == warnings + run_of(others, more).warnings,
            }
        }),
{
    assert((seq![path] + others)[0] == path);
    assert((seq![outcome] + more)[0] == outcome);
    assert((seq![path] + others).skip(1) =~= others);
    assert((seq![outcome] + more).skip(1) =~= more);
}

/// Every script is asked, in the order in which they were loaded, until one
/// decides; and each that is asked is called with the request, and what it gave is
/// what counts.
pub proof fn every_script_is_asked_until_one_decides(
    engine: EngineView,
    url: Seq<char>,
    request: Value,
    outcomes: Seq<Outcome>,
    i: int,
)
    requires
        possible(engine, url, request, outcomes),
    ensures
        outcomes.len() <= engine.scripts.len(),
        outcomes.len() < engine.scripts.len() ==> outcomes.len() > 0 && verdict(
            engine.scripts[outcomes.len() - 1].path,
            outcomes.last(),
        ) is Decided,
        0 <= i < outcomes.len() - 1 ==> verdict(engine.scripts[i].path, outcomes[i]) is Next,
        0 <= i < outcomes.len() ==> paths(engine.scripts)[i] == engine.scripts[i].path,
        0 <= i < outcomes.len() && outcomes[i] is Failed ==> script_may_give(
            engine.scripts[i].source,
            "handle"@,
            engine.settings,
            request,
            None,
        ),
        0 <= i < outcomes.len() && outcomes[i] is Returned ==> exists|whole: Value| #[trigger]
            script_may_give(
                engine.scripts[i].source,
                "handle"@,
                engine.settings,
                request,
                Some(whole),
            ) && action_of(outcomes[i]->Returned_0) == action_of(whole),
{
    if 0 <= i < outcomes.len() {
        assert(crate::script::engine::may_happen(
            engine,
            engine.scripts[i],
            url,
            request,
            outcomes[i],
        ));
        if outcomes[i] is Returned {
            let value = outcomes[i]->Returned_0;
            let whole = choose|whole: Value|
                {
                    &&& #[trigger] script_may_give(
                        engine.scripts[i].source,
                        "handle"@,
                        engine.settings,
                        request,
                        Some(whole),
                    )
                    &&& value == cut(whole, crate::script::engine::READ_DEPTH as nat)
                    &&& crate::script::value::lower_fact(value)
                };
            crate::script::laws::reading_depth_suffices(whole);
        }
    }
}

/// The answer of a script is its value, or its failure with the text of it.
pub proof fn answers_are_values_or_failures(value: ScriptValue, error: String)
    ensures
        outcome_of(Ok(value)) == Outcome::Returned(value@),
        outcome_of(Err(error)) == Outcome::Failed(error@),
{
}

// ---------------------------------------------------------------------------
// Files and limits
// ---------------------------------------------------------------------------

/// A file is a script exactly if its extension is `rhai`, and the stem of its name
/// is the pattern of the URLs that it is for, of 1024 characters at most; without a
/// stem it is for all. What is wrong with a file is said with its name.
pub proof fn file_names_say_what_scripts_are_for(name: &str, error: Seq<char>)
    ensures
        is_script_file(Some(name)) <==> name@ == "rhai"@,
        !is_script_file(None),
        stem_pattern(Some(name)) == name@,
        stem_pattern(None) == "*"@,
        bad_pattern_text(name@, error) == "[scripts] bad pattern in filename '"@ + name@ + "': "@
            + error,
        parse_error_text(name@, error) == "[scripts] parse error in "@ + name@ + ": "@ + error,
        MAX_PATTERN == 1024,
{
}

/// Scripts run under limits that keep every one of them from running on for ever
/// or from taking more room than there is, and reach no function that would.
pub proof fn scripts_run_under_limits()
    ensures
        ({
            let settings = EngineSettings::of_scripts();
            &&& settings.contained()
            &&& settings.standard
            &&& settings.max_operations == 100_000
            &&& settings.max_call_levels == 5
            &&& settings.max_expr_depth == 64
            &&& settings.max_function_expr_depth == 32
            &&& settings.max_string_size == 16_777_216
            &&& settings.max_array_size == 360
            &&& settings.max_map_size == 40
            &&& !settings.sleeps
            &&& !settings.closures
            &&& settings.disabled == set!["eval"@, "import"@, "curry"@]
            &&& settings.refused == refused_functions()
            &&& refused_functions().contains(("parse_json"@, Parameters::Text))
            &&& refused_functions().contains(("pad"@, Parameters::TextLengthText))
            &&& refused_functions().contains(("pad"@, Parameters::ArrayLengthValue))
            &&& refused_functions().contains(("sort"@, Parameters::Array))
            &&& refused_functions().contains(("sort_desc"@, Parameters::Array))
            &&& refused_functions().contains(("order"@, Parameters::Array))
            &&& refused_functions().contains(("order_desc"@, Parameters::Array))
            &&& refused_functions().contains(("print"@, Parameters::Array))
            &&& refused_functions().contains(("debug"@, Parameters::Array))
            &&& refused_functions().contains(("to_string"@, Parameters::Array))
            &&& refused_functions().contains(("to_debug"@, Parameters::Array))
            &&& refused_functions().contains(("print"@, Parameters::Table))
            &&& refused_functions().contains(("debug"@, Parameters::Table))
            &&& refused_functions().contains(("to_string"@, Parameters::Table))
            &&& refused_functions().contains(("to_debug"@, Parameters::Table))
            &&& refused_functions().contains(("=="@, Parameters::TwoArrays))
            &&& refused_functions().contains(("!="@, Parameters::TwoArrays))
            &&& refused_functions().contains(("=="@, Parameters::TwoTables))
            &&& refused_functions().contains(("!="@, Parameters::TwoTables))
        }),
{
}

} // verus!
