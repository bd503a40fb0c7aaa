//! The values that pass between the proxy and a script: what a script is
//! given, and what its answer means.

use vstd::prelude::*;

use crate::script::action::{ActionView, ScriptAction, ScriptError};
use crate::http::HeaderSeq;
use crate::text::same_text;

verus! {

// ---------------------------------------------------------------------------
// Script values
// ---------------------------------------------------------------------------

/// A value of the script language, as far as requests and decisions use it.
#[derive(Debug)]
pub enum ScriptValue {
    Text(String),
    Int(i64),
    Array(Vec<ScriptValue>),
    /// Keys and values; the first entry with a key counts.
    Table(Vec<(String, ScriptValue)>),
    /// Any other value, by the name of its type.
    Other(String),
}

/// What a [`ScriptValue`] stands for.
pub enum Value {
    Text(Seq<char>),
    Int(i64),
    Array(Seq<Value>),
    Table(Map<Seq<char>, Value>),
    Other(Seq<char>),
}

/// Whether entry `i` is the first one with key `k`.
pub open spec fn first_entry(entries: Seq<(String, ScriptValue)>, k: Seq<char>, i: int) -> bool {
    &&& 0 <= i < entries.len()
    &&& entries[i].0@ == k
    &&& forall|j: int| 0 <= j < i ==> (#[trigger] entries[j]).0@ != k
}

impl ScriptValue {
    /// The value stood for.
    pub open spec fn view(&self) -> Value
        decreases self,
    {
        match *self {
            ScriptValue::Text(s) => Value::Text(s@),
            ScriptValue::Int(n) => Value::Int(n),
            ScriptValue::Array(items) => Value::Array(
                Seq::new(
                    items@.len(),
                    |i: int|
                        if 0 <= i < items@.len() {
                            items@[i].view()
                        } else {
                            arbitrary()
                        },
                ),
            ),
            ScriptValue::Table(entries) => Value::Table(
                Map::new(
                    |k: Seq<char>| exists|i: int| first_entry(entries@, k, i),
                    |k: Seq<char>|
                        {
                            let i = choose|i: int| first_entry(entries@, k, i);
                            if 0 <= i < entries@.len() {
                                entries@[i].1.view()
                            } else {
                                arbitrary()
                            }
                        },
                ),
            ),
            ScriptValue::Other(s) => Value::Other(s@),
        }
    }

    /// Whether the value is made of texts, numbers, arrays and tables without
    /// repeated keys only.
    pub open spec fn is_data(&self) -> bool
        decreases self,
    {
        match *self {
            ScriptValue::Text(_) => true,
            ScriptValue::Int(_) => true,
            ScriptValue::Array(items) => forall|i: int|
                0 <= i < items@.len() ==> (#[trigger] items@[i]).is_data(),
            ScriptValue::Table(entries) => {
                &&& forall|i: int| 0 <= i < entries@.len() ==> (#[trigger] entries@[i]).1.is_data()
                &&& forall|i: int, j: int|
                    0 <= i < j < entries@.len() ==> (#[trigger] entries@[i]).0@ != (
                    #[trigger] entries@[j]).0@
            },
            ScriptValue::Other(_) => false,
        }
    }
}

/// The name of the type of a value.
pub open spec fn kind_name(v: Value) -> Seq<char> {
    match v {
        Value::Text(_) => "string"@,
        Value::Int(_) => "i64"@,
        Value::Array(_) => "array"@,
        Value::Table(_) => "map"@,
        Value::Other(name) => name,
    }
}

/// `v` down to a nesting of `depth`; what lies deeper is known by its type name only.
pub open spec fn cut(v: Value, depth: nat) -> Value
    decreases depth,
{
    if depth == 0 {
        Value::Other(kind_name(v))
    } else {
        match v {
            Value::Array(items) => Value::Array(
                items.map_values(|x: Value| cut(x, (depth - 1) as nat)),
            ),
            Value::Table(entries) => Value::Table(
                entries.map_values(|x: Value| cut(x, (depth - 1) as nat)),
            ),
            _ => v,
        }
    }
}

/// The name of the type of a value.
fn kind_name_exec(v: &ScriptValue) -> (out: String)
    ensures
        out@ == kind_name(v@),
{
    match v {
        ScriptValue::Text(_) => "string".to_string(),
        ScriptValue::Int(_) => "i64".to_string(),
        ScriptValue::Array(_) => "array".to_string(),
        ScriptValue::Table(_) => "map".to_string(),
        ScriptValue::Other(name) => name.clone(),
    }
}

/// The value under `key`.
fn lookup<'a>(entries: &'a Vec<(String, ScriptValue)>, key: &str) -> (r: Option<&'a ScriptValue>)
    ensures
        ({
            let table = ScriptValue::Table(*entries)@->Table_0;
            match r {
                Some(v) => table.contains_key(key@) && table[key@] == v@,
                None => !table.contains_key(key@),
            }
        }),
{
    let mut i: usize = 0;
    while i < entries.len()
        invariant
            i <= entries@.len(),
            forall|j: int| 0 <= j < i ==> (#[trigger] entries@[j]).0@ != key@,
        decreases entries@.len() - i,
    {
        if same_text(entries[i].0.as_str(), key) {
            proof {
                assert(first_entry(entries@, key@, i as int));
                let k = choose|k: int| first_entry(entries@, key@, k);
                assert(k == i) by {
                    if k < i {
                        assert(entries@[k].0@ != key@);
                    }
                    if i < k {
                        assert(entries@[i as int].0@ != key@);
                    }
                }
            }
            return Some(&entries[i].1);
        }
        i += 1;
    }
    None
}

// ---------------------------------------------------------------------------
// What a script is given
// ---------------------------------------------------------------------------

/// A header list as a script sees it: an array of `[name, value]` arrays.
pub open spec fn header_array(headers: HeaderSeq) -> Value {
    Value::Array(
        headers.map_values(
            |h: (Seq<char>, Seq<char>)| Value::Array(seq![Value::Text(h.0), Value::Text(h.1)]),
        ),
    )
}

/// A request as a script sees it.
pub open spec fn request_value(method: Seq<char>, url: Seq<char>, headers: HeaderSeq) -> Value {
    Value::Table(
        map![
            "method"@ => Value::Text(method),
            "url"@ => Value::Text(url),
            "headers"@ => header_array(headers),
        ],
    )
}

fn header_pair(name: &str, value: &str) -> (v: ScriptValue)
    ensures
        v@ == Value::Array(seq![Value::Text(name@), Value::Text(value@)]),
        v.is_data(),
{
    let mut pair: Vec<ScriptValue> = Vec::new();
    pair.push(ScriptValue::Text(name.to_string()));
    pair.push(ScriptValue::Text(value.to_string()));
    let v = ScriptValue::Array(pair);
    proof {
        reveal_with_fuel(ScriptValue::view, 2);
        reveal_with_fuel(ScriptValue::is_data, 2);
    }
    assert(v@->Array_0 =~= seq![Value::Text(name@), Value::Text(value@)]);
    v
}

/// The value that is handed to a script for a request: a table with `method`,
/// `url` and `headers`.
pub fn build_req_map(method: &str, url: &str, headers: &[(String, String)]) -> (v: ScriptValue)
    ensures
        v@ == request_value(method@, url@, crate::http::headers_view(headers@)),
        v.is_data(),
{
    let ghost all = crate::http::headers_view(headers@);
    let mut pairs: Vec<ScriptValue> = Vec::new();
    let mut i: usize = 0;
    while i < headers.len()
        invariant
            i <= headers@.len(),
            all == crate::http::headers_view(headers@),
            pairs@.len() == i,
            forall|j: int|
                0 <= j < i ==> (#[trigger] pairs@[j])@ == Value::Array(
                    seq![Value::Text(all[j].0), Value::Text(all[j].1)],
                ) && pairs@[j].is_data(),
        decreases headers@.len() - i,
    {
        let ghost before = pairs@;
        pairs.push(header_pair(headers[i].0.as_str(), headers[i].1.as_str()));
        assert forall|j: int| 0 <= j < i + 1 implies (#[trigger] pairs@[j])@ == Value::Array(
            seq![Value::Text(all[j].0), Value::Text(all[j].1)],
        ) && pairs@[j].is_data() by {
            if j < i {
                assert(pairs@[j] == before[j]);
            }
        }
        i += 1;
    }
    let list = ScriptValue::Array(pairs);
    proof {
        assert(list@->Array_0 =~= header_array(all)->Array_0);
        assert(list.is_data());
    }
    let mut entries: Vec<(String, ScriptValue)> = Vec::new();
    entries.push(("method".to_string(), ScriptValue::Text(method.to_string())));
    entries.push(("url".to_string(), ScriptValue::Text(url.to_string())));
    entries.push(("headers".to_string(), list));
    let v = ScriptValue::Table(entries);
    proof {
        reveal_strlit("method");
        reveal_strlit("url");
        reveal_strlit("headers");
        let e = entries@;
        assert(e[0].0@ == "method"@);
        assert(e[1].0@ == "url"@);
        assert(e[2].0@ == "headers"@);
        assert("method"@.len() == 6 && "url"@.len() == 3 && "headers"@.len() == 7);
        assert(first_entry(e, "method"@, 0));
        assert(first_entry(e, "url"@, 1));
        assert(first_entry(e, "headers"@, 2));
        let got = v@->Table_0;
        let want = request_value(method@, url@, all)->Table_0;
        assert forall|k: Seq<char>| got.contains_key(k) == want.contains_key(k) by {
            if got.contains_key(k) {
                let i = choose|i: int| first_entry(e, k, i);
                assert(e[i].0@ == k);
            }
        }
        reveal_with_fuel(ScriptValue::view, 2);
        assert forall|k: Seq<char>| want.contains_key(k) implies got[k] == want[k] by {
            let i = choose|i: int| first_entry(e, k, i);
            if k == "method"@ {
                assert(first_entry(e, k, 0));
                assert(i == 0);
            } else if k == "url"@ {
                assert(first_entry(e, k, 1));
                assert(i == 1);
            } else {
                assert(first_entry(e, k, 2));
                assert(i == 2);
            }
            assert(got[k] == e[i].1@);
        }
        assert(got =~= want);
        assert(e[0].1.is_data());
        assert(e[1].1.is_data());
    }
    v
}

// ---------------------------------------------------------------------------
// What the answer of a script means
// ---------------------------------------------------------------------------

/// Lower case of a text, by the rules of Unicode: what `str::to_lowercase` gives.
pub uninterp spec fn unicode_lower(s: Seq<char>) -> Seq<char>;

/// A text in quotes with its special characters escaped: what `Debug` gives for a `str`.
pub uninterp spec fn debug_text(s: Seq<char>) -> Seq<char>;

/// `str::to_lowercase` of the standard library. Its result is the lower case
/// by the rules of Unicode, which for a text of ASCII characters is the ASCII
/// lower case.
#[verifier::external_body]
fn to_lowercase(s: &str) -> (out: String)
    ensures
        out@ == unicode_lower(s@),
        vstd::utf8::is_ascii_chars(s@) ==> out@ == crate::text::lower(s@),
{
    s.to_lowercase()
}

/// The `Debug` form of a `str`, by `format!` of the standard library.
#[verifier::external_body]
fn debug_form(s: &str) -> (out: String)
    ensures
        out@ == debug_text(s@),
{
    format!("{:?}", s)
}

/// The field that an array item denotes: an array whose first two values are texts.
pub open spec fn pair_of(v: Value) -> Result<(Seq<char>, Seq<char>), Seq<char>> {
    match v {
        Value::Array(pair) => if pair.len() == 0 || !(pair[0] is Text) {
            Err("header name must be a string"@)
        } else if pair.len() == 1 || !(pair[1] is Text) {
            Err("header value must be a string"@)
        } else {
            Ok((pair[0]->Text_0, pair[1]->Text_0))
        },
        _ => Err("each header must be a [name, value] array"@),
    }
}

/// The fields that array items denote, or the first complaint.
pub open spec fn pairs_of(items: Seq<Value>) -> Result<HeaderSeq, Seq<char>>
    decreases items.len(),
{
    if items.len() == 0 {
        Ok(seq![])
    } else {
        match (pair_of(items[0]), pairs_of(items.skip(1))) {
            (Err(e), _) => Err(e),
            (Ok(p), Err(e)) => Err(e),
            (Ok(p), Ok(rest)) => Ok(seq![p] + rest),
        }
    }
}

/// The header list that a value denotes: an array of `[name, value]` arrays.
pub open spec fn headers_of(v: Value) -> Result<HeaderSeq, Seq<char>> {
    match v {
        Value::Array(items) => pairs_of(items),
        _ => Err("headers must be an array"@),
    }
}

/// The response that a table with the key `mock` asks for. The status is 200
/// and the body empty unless the table says otherwise.
pub open spec fn mock_of(table: Map<Seq<char>, Value>) -> Result<ActionView, Seq<char>> {
    let status = if table.contains_key("status"@) && table["status"@] is Int {
        table["status"@]->Int_0 as u16
    } else {
        200u16
    };
    let body = if table.contains_key("body"@) && table["body"@] is Text {
        vstd::utf8::encode_utf8(table["body"@]->Text_0)
    } else {
        seq![]
    };
    let headers = if table.contains_key("headers"@) {
        headers_of(table["headers"@])
    } else {
        Ok(seq![])
    };
    match headers {
        Ok(headers) => Ok(ActionView::MockResponse { status, headers, body }),
        Err(e) => Err(e),
    }
}

/// The decision that a lower-case word stands for, or what is wrong with it.
pub open spec fn word_action_of(word: Seq<char>) -> Result<ActionView, Seq<char>> {
    if word == "passthrough"@ {
        Ok(ActionView::Passthrough)
    } else if word == "drop"@ {
        Ok(ActionView::Drop)
    } else {
        Err("unknown string action '"@ + word + "'"@)
    }
}

/// What is said of the lower case of a text: that of ASCII characters is the
/// ASCII one.
pub open spec fn lower_fact(v: Value) -> bool {
    v matches Value::Text(s) ==> vstd::utf8::is_ascii_chars(s) ==> unicode_lower(s)
        == crate::text::lower(s)
}

/// The decision that a value stands for, or what is wrong with it.
pub open spec fn action_of(v: Value) -> Result<ActionView, Seq<char>> {
    match v {
        Value::Text(s) => word_action_of(unicode_lower(s)),
        Value::Table(table) => if table.contains_key("modify_headers"@) {
            match headers_of(table["modify_headers"@]) {
                Ok(headers) => Ok(ActionView::ModifyHeaders(headers)),
                Err(e) => Err(e),
            }
        } else if table.contains_key("mock"@) {
            mock_of(table)
        } else {
            Err("map has neither 'modify_headers' nor 'mock' key"@)
        },
        _ => Err("expected String or Map, got: "@ + debug_text(kind_name(v))),
    }
}

fn parse_pair(item: &ScriptValue) -> (r: Result<(String, String), String>)
    ensures
        match r {
            Ok(p) => pair_of(item@) == Ok::<_, Seq<char>>((p.0@, p.1@)),
            Err(e) => pair_of(item@) == Err::<(Seq<char>, Seq<char>), _>(e@),
        },
{
    match item {
        ScriptValue::Array(pair) => {
            let ghost view = item@->Array_0;
            assert(view.len() == pair@.len());
            if pair.len() == 0 {
                return Err("header name must be a string".to_string());
            }
            assert(view[0] == pair@[0]@);
            let name = match &pair[0] {
                ScriptValue::Text(s) => s.clone(),
                _ => {
                    return Err("header name must be a string".to_string());
                },
            };
            if pair.len() == 1 {
                return Err("header value must be a string".to_string());
            }
            assert(view[1] == pair@[1]@);
            match &pair[1] {
                ScriptValue::Text(s) => Ok((name, s.clone())),
                _ => Err("header value must be a string".to_string()),
            }
        },
        _ => Err("each header must be a [name, value] array".to_string()),
    }
}

/// The header list that a value denotes.
pub fn dynamic_to_headers(value: &ScriptValue) -> (r: Result<Vec<(String, String)>, ScriptError>)
    ensures
        match r {
            Ok(h) => headers_of(value@) == Ok::<_, Seq<char>>(crate::http::headers_view(h@)),
            Err(ScriptError::InvalidAction(e)) => headers_of(value@) == Err::<HeaderSeq, _>(e@),
            Err(_) => false,
        },
{
    match value {
        ScriptValue::Array(items) => {
            let ghost view = value@->Array_0;
            assert(view.len() == items@.len());
            let mut out: Vec<(String, String)> = Vec::new();
            let mut i: usize = 0;
            proof {
                assert(view.skip(0) =~= view);
                assert(crate::http::headers_view(out@) =~= seq![]);
                match pairs_of(view) {
                    Ok(h) => assert(crate::http::headers_view(out@) + h =~= h),
                    Err(_) => {},
                }
            }
            while i < items.len()
                invariant
                    i <= items@.len(),
                    view == value@->Array_0,
                    *value == ScriptValue::Array(*items),
                    view.len() == items@.len(),
                    match (pairs_of(view), pairs_of(view.skip(i as int))) {
                        (Ok(a), Ok(b)) => a == crate::http::headers_view(out@) + b,
                        (Err(a), Err(b)) => a == b,
                        _ => false,
                    },
                decreases items@.len() - i,
            {
                proof {
                    assert(view.skip(i as int)[0] == view[i as int]);
                    assert(view[i as int] == items@[i as int]@);
                    assert(view.skip(i as int).skip(1) =~= view.skip(i as int + 1));
                }
                match parse_pair(&items[i]) {
                    Ok(pair) => {
                        let ghost before = crate::http::headers_view(out@);
                        let ghost p = (pair.0@, pair.1@);
                        out.push(pair);
                        proof {
                            assert(crate::http::headers_view(out@) =~= before.push(p));
                            match pairs_of(view.skip(i as int + 1)) {
                                Ok(rest) => assert(before + (seq![p] + rest) =~= before.push(p)
                                    + rest),
                                Err(_) => {},
                            }
                        }
                    },
                    Err(e) => {
                        return Err(ScriptError::InvalidAction(e));
                    },
                }
                i += 1;
            }
            proof {
                assert(view.skip(i as int).len() == 0);
                let none: HeaderSeq = seq![];
                assert(crate::http::headers_view(out@) + none =~= crate::http::headers_view(out@));
            }
            Ok(out)
        },
        _ => Err(ScriptError::InvalidAction("headers must be an array".to_string())),
    }
}

/// The decision that a lower-case word stands for.
pub fn word_action(word: &str) -> (r: Result<ScriptAction, ScriptError>)
    ensures
        match r {
            Ok(a) => word_action_of(word@) == Ok::<_, Seq<char>>(a@),
            Err(ScriptError::InvalidAction(e)) => word_action_of(word@) == Err::<ActionView, _>(e@),
            Err(_) => false,
        },
{
    if same_text(word, "passthrough") {
        return Ok(ScriptAction::Passthrough);
    }
    if same_text(word, "drop") {
        return Ok(ScriptAction::Drop);
    }
    let mut message = "unknown string action '".to_string();
    message.append(word);
    message.append("'");
    Err(ScriptError::InvalidAction(message))
}

/// The decision that the answer of a script stands for. Words count in any case
/// of letters.
pub fn parse_action(value: &ScriptValue) -> (r: Result<ScriptAction, ScriptError>)
    ensures
        lower_fact(value@),
        match r {
            Ok(a) => action_of(value@) == Ok::<_, Seq<char>>(a@),
            Err(ScriptError::InvalidAction(e)) => action_of(value@) == Err::<ActionView, _>(e@),
            Err(_) => false,
        },
{
    match value {
        ScriptValue::Text(s) => {
            let word = to_lowercase(s.as_str());
            word_action(word.as_str())
        },
        ScriptValue::Table(entries) => {
            if let Some(new_headers) = lookup(entries, "modify_headers") {
                return match dynamic_to_headers(new_headers) {
                    Ok(headers) => Ok(ScriptAction::ModifyHeaders(headers)),
                    Err(e) => Err(e),
                };
            }
            if lookup(entries, "mock").is_some() {
                let status: u16 = match lookup(entries, "status") {
                    Some(ScriptValue::Int(n)) => *n as u16,
                    _ => 200,
                };
                let body: Vec<u8> = match lookup(entries, "body") {
                    Some(ScriptValue::Text(s)) => vstd::slice::slice_to_vec(s.as_str().as_bytes()),
                    _ => Vec::new(),
                };
                let headers: Vec<(String, String)> = match lookup(entries, "headers") {
                    Some(v) => match dynamic_to_headers(v) {
                        Ok(h) => h,
                        Err(e) => {
                            return Err(e);
                        },
                    },
                    None => Vec::new(),
                };
                proof {
                    let table = value@->Table_0;
                    if !table.contains_key("headers"@) {
                        assert(crate::http::headers_view(headers@) =~= seq![]);
                    }
                }
                return Ok(ScriptAction::MockResponse { status, headers, body });
            }
            Err(
                ScriptError::InvalidAction(
                    "map has neither 'modify_headers' nor 'mock' key".to_string(),
                ),
            )
        },
        _ => {
            let mut message = "expected String or Map, got: ".to_string();
            message.append(debug_form(kind_name_exec(value).as_str()).as_str());
            Err(ScriptError::InvalidAction(message))
        },
    }
}

} // verus!
