//! What holds of views: each says what its value holds, and nothing else.

use vstd::prelude::*;

use crate::ca::Leaf;
use crate::http::{headers_view, RequestHead, ResponseHead};
use crate::proxy::{Decision, DecisionView, Exchange};
use crate::replay::Plan;
use crate::script::action::{ActionView, ScriptAction};
use crate::script::engine::ScriptRun;
use crate::script::value::{first_entry, ScriptValue, Value};
use crate::text::{char_views, texts};
use crate::transaction::{RequestData, ResponseData, Transaction};
use crate::tui::app::App;
use crate::tui::render::{line_view, lines_view, StyledSpan};

verus! {

/// A list is viewed item by item.
pub proof fn lists_are_viewed_item_by_item(
    headers: Seq<(String, String)>,
    strings: Seq<String>,
    chars: Seq<Vec<char>>,
    line: Seq<StyledSpan>,
    lines: Seq<Vec<StyledSpan>>,
    i: int,
)
    ensures
        headers_view(headers).len() == headers.len(),
        0 <= i < headers.len() ==> headers_view(headers)[i] == (headers[i].0@, headers[i].1@),
        texts(strings).len() == strings.len(),
        0 <= i < strings.len() ==> texts(strings)[i] == strings[i]@,
        char_views(chars).len() == chars.len(),
        0 <= i < chars.len() ==> char_views(chars)[i] == chars[i]@,
        line_view(line).len() == line.len(),
        0 <= i < line.len() ==> line_view(line)[i].text == line[i].text@ && line_view(line)[i].fg
            == line[i].fg && line_view(line)[i].bg == line[i].bg && line_view(line)[i].weight
            == line[i].weight,
        lines_view(lines).len() == lines.len(),
        0 <= i < lines.len() ==> lines_view(lines)[i] == line_view(lines[i]@),
{
}

/// Messages and exchanges are viewed field by field.
pub proof fn messages_are_viewed_field_by_field(
    request: RequestHead,
    response: ResponseHead,
    exchange: Exchange,
    plan: Plan,
)
    ensures
        request@.method == request.method@,
        request@.target == request.target@,
        request@.version == request.version@,
        request@.headers == headers_view(request.headers@),
        response@.start_line == response.start_line@,
        response@.status_code == response.status_code,
        response@.headers == headers_view(response.headers@),
        response@.raw == response.raw@,
        exchange@.method == exchange.method@,
        exchange@.version == exchange.version@,
        exchange@.host == exchange.host@,
        exchange@.port == exchange.port,
        exchange@.target == exchange.target@,
        exchange@.url == exchange.url@,
        exchange@.headers == headers_view(exchange.headers@),
        exchange@.framing == exchange.framing,
        plan@.secure == plan.secure,
        plan@.host == plan.host@,
        plan@.port == plan.port,
        plan@.head == plan.head@,
        plan@.body == plan.body@,
{
}

/// Records and the state of the interface are viewed field by field.
pub proof fn records_are_viewed_field_by_field(
    request: RequestData,
    response: ResponseData,
    tx: Transaction,
    app: App,
    leaf: Leaf,
    i: int,
)
    ensures
        request@.method == request.method@,
        request@.url == request.url@,
        request@.headers == headers_view(request.headers@),
        request@.body == request.body@,
        response@.status == response.status,
        response@.headers == headers_view(response.headers@),
        response@.body == response.body@,
        tx@.id == tx.id.bytes@,
        tx@.timestamp == tx.timestamp,
        tx@.request == tx.request@,
        tx@.response is None <==> tx.response is None,
        tx.response matches Some(r) ==> tx@.response == Some(r@),
        tx@.duration_ms == tx.duration_ms,
        app@.transactions == app.transactions@,
        app@.selected == app.selected,
        app@.detail_scroll == app.detail_scroll,
        app@.focus == app.focus,
        app@.should_quit == app.should_quit,
        leaf@.key == leaf.key@,
        leaf@.chain.len() == leaf.chain@.len(),
        0 <= i < leaf.chain@.len() ==> leaf@.chain[i] == leaf.chain@[i]@,
{
}

/// Decisions are viewed as what they say.
pub proof fn decisions_are_viewed_as_they_are(
    action: ScriptAction,
    run: ScriptRun,
    decision: Decision,
)
    ensures
        action is Passthrough ==> action@ == ActionView::Passthrough,
        action is Drop ==> action@ == ActionView::Drop,
        action matches ScriptAction::ModifyHeaders(headers) ==> action@
            == ActionView::ModifyHeaders(headers_view(headers@)),
        action matches ScriptAction::MockResponse { status, headers, body } ==> action@ == (
        ActionView::MockResponse { status, headers: headers_view(headers@), body: body@ }),
        run@.action == run.action@,
        run@.warnings == texts(run.warnings@),
        decision matches Decision::Reply(bytes) ==> decision@ == DecisionView::Reply(bytes@),
        decision matches Decision::Forward(exchange) ==> decision@ == DecisionView::Forward(
            exchange@,
        ),
{
}

/// A script value is viewed as what it holds; of entries with the same key the
/// first counts.
pub proof fn script_values_are_viewed_as_they_are(
    text: String,
    n: i64,
    items: Vec<ScriptValue>,
    entries: Vec<(String, ScriptValue)>,
    i: int,
)
    ensures
        ScriptValue::Text(text)@ == Value::Text(text@),
        ScriptValue::Int(n)@ == Value::Int(n),
        ScriptValue::Other(text)@ == Value::Other(text@),
        ScriptValue::Array(items)@ matches Value::Array(seen) && seen.len() == items@.len() && (0
            <= i < items@.len() ==> seen[i] == items@[i]@),
        ScriptValue::Table(entries)@ matches Value::Table(table) && (0 <= i < entries@.len()
            && (forall|j: int| 0 <= j < i ==> (#[trigger] entries@[j]).0@ != entries@[i].0@)
            ==> table.contains_key(entries@[i].0@) && table[entries@[i].0@] == entries@[i].1@) && (
        (forall|j: int| 0 <= j < entries@.len() ==> (#[trigger] entries@[j]).0@ != text@)
            ==> !table.contains_key(text@)),
{
    let whole = ScriptValue::Table(entries);
    let table = whole@->Table_0;
    if 0 <= i < entries@.len() && (forall|j: int|
        0 <= j < i ==> (#[trigger] entries@[j]).0@ != entries@[i].0@) {
        let key = entries@[i].0@;
        assert(first_entry(entries@, key, i));
        let k = choose|k: int| first_entry(entries@, key, k);
        assert(k == i) by {
            if k < i {
                assert(entries@[k].0@ != key);
            }
            if i < k {
                assert(entries@[i].0@ != key);
            }
        }
    }
    if (forall|j: int| 0 <= j < entries@.len() ==> (#[trigger] entries@[j]).0@ != text@)
        && table.contains_key(text@) {
        let k = choose|k: int| first_entry(entries@, text@, k);
        assert(entries@[k].0@ != text@);
    }
}

} // verus!
