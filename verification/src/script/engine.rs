//! The script engine: loads scripts by file name and asks those that match a
//! URL what to do with a request.

use vstd::prelude::*;

use crate::script::action::{ActionView, ScriptAction};
use crate::script::value::{build_req_map, parse_action, ScriptValue, Value};
use crate::text::{chars_of, same_text};

verus! {

// ---------------------------------------------------------------------------
// The script language
// ---------------------------------------------------------------------------

/// The `Engine` of the crate `rhai`.
#[verifier::external_type_specification]
#[verifier::external_body]
pub struct ExEngine(rhai::Engine);

/// The compiled script of the crate `rhai`.
#[verifier::external_type_specification]
#[verifier::external_body]
pub struct ExAst(rhai::AST);

/// The value type of the crate `rhai`.
#[verifier::external_type_specification]
#[verifier::external_body]
pub struct ExDynamic(rhai::Dynamic);

/// The evaluation error of the crate `rhai`.
#[verifier::external_type_specification]
#[verifier::external_body]
pub struct ExEvalAltResult(rhai::EvalAltResult);

/// The parse error of the crate `rhai`.
#[verifier::external_type_specification]
#[verifier::external_body]
pub struct ExParseError(rhai::ParseError);

/// What a function of the script language takes.
pub enum Parameters {
    Text,
    Array,
    Table,
    TwoArrays,
    TwoTables,
    TextLengthText,
    ArrayLengthValue,
}

/// What bears on how an engine compiles and runs scripts.
#[verifier::ext_equal]
pub struct EngineSettings {
    /// Whether the engine was made by `rhai::Engine::new` and has been changed
    /// since in the ways below only.
    pub standard: bool,
    /// Whether the function `sleep` of the standard packages is the one that
    /// scripts reach. It blocks for as long as it is told to, which no limit
    /// stops, and panics on a time that is too long to express.
    pub sleeps: bool,
    /// The functions of the standard packages, by name and parameters, in place
    /// of which scripts reach one that fails.
    pub refused: Set<(Seq<char>, Parameters)>,
    /// Whether scripts may write functions in place. What these capture can nest
    /// without a limit.
    pub closures: bool,
    /// The keywords that scripts may not use.
    pub disabled: Set<Seq<char>>,
    /// The number of operations after which a script is stopped; zero for no limit.
    pub max_operations: u64,
    /// How deep calls of functions may nest.
    pub max_call_levels: usize,
    /// How deep expressions may nest; zero for no limit.
    pub max_expr_depth: usize,
    /// How deep expressions may nest in functions; zero for no limit.
    pub max_function_expr_depth: usize,
    /// How long texts may be, in bytes, nested ones counted in; zero for no limit.
    pub max_string_size: usize,
    /// How many items arrays may have, nested ones counted in; zero for no limit.
    pub max_array_size: usize,
    /// How many entries tables may have, nested ones counted in; zero for no limit.
    pub max_map_size: usize,
}

/// The limits that scripts run under.
pub const MAX_OPERATIONS: u64 = 100_000;

pub const MAX_CALL_LEVELS: usize = 5;

pub const MAX_EXPR_DEPTH: usize = 64;

pub const MAX_FUNCTION_EXPR_DEPTH: usize = 32;

pub const MAX_STRING_SIZE: usize = 16 * 1024 * 1024;

pub const MAX_ARRAY_SIZE: usize = 360;

pub const MAX_MAP_SIZE: usize = 40;

/// The functions of the standard packages that scripts do not reach:
/// - `pad` of a text with a text, which does not return on an empty one, and of
///   an array, which may panic on a great length;
/// - sorting by a comparison of its own, which may panic on numbers without an
///   order;
/// - `parse_json`, which evaluates what it is given, apart from the limits of the
///   script that calls it;
/// - printing and comparing arrays and tables, which needs much stack for what
///   nests deep.
pub open spec fn refused_functions() -> Set<(Seq<char>, Parameters)> {
    set![
        ("pad"@, Parameters::TextLengthText),
        ("pad"@, Parameters::ArrayLengthValue),
        ("sort"@, Parameters::Array),
        ("sort_desc"@, Parameters::Array),
        ("order"@, Parameters::Array),
        ("order_desc"@, Parameters::Array),
        ("parse_json"@, Parameters::Text),
        ("print"@, Parameters::Array),
        ("debug"@, Parameters::Array),
        ("to_string"@, Parameters::Array),
        ("to_debug"@, Parameters::Array),
        ("print"@, Parameters::Table),
        ("debug"@, Parameters::Table),
        ("to_string"@, Parameters::Table),
        ("to_debug"@, Parameters::Table),
        ("=="@, Parameters::TwoArrays),
        ("!="@, Parameters::TwoArrays),
        ("=="@, Parameters::TwoTables),
        ("!="@, Parameters::TwoTables),
    ]
}

impl EngineSettings {
    /// These settings, with one function more refused.
    pub open spec fn refusing(self, name: Seq<char>, parameters: Parameters) -> EngineSettings {
        EngineSettings { refused: self.refused.insert((name, parameters)), ..self }
    }

    /// Whether the nesting of what is compiled is bounded, as the stack needs.
    pub open spec fn compiles_safely(self) -> bool {
        &&& self.standard
        &&& 0 < self.max_expr_depth <= MAX_EXPR_DEPTH
        &&& 0 < self.max_function_expr_depth <= MAX_FUNCTION_EXPR_DEPTH
    }

    /// Whether every script comes to an end: it is stopped after a number of
    /// operations, reaches no function that does not return or that panics,
    /// cannot nest scripts, calls or values without end, and cannot ask for more
    /// room than there can be.
    pub open spec fn contained(self) -> bool {
        &&& self.compiles_safely()
        &&& !self.sleeps
        &&& refused_functions().subset_of(self.refused)
        &&& !self.closures
        &&& self.disabled.contains("eval"@)
        &&& self.disabled.contains("import"@)
        &&& self.disabled.contains("curry"@)
        &&& 0 < self.max_operations <= MAX_OPERATIONS
        &&& 0 < self.max_call_levels <= MAX_CALL_LEVELS
        &&& 0 < self.max_string_size <= MAX_STRING_SIZE
        &&& 0 < self.max_array_size <= MAX_ARRAY_SIZE
        &&& 0 < self.max_map_size <= MAX_MAP_SIZE
    }

    /// The settings that scripts run under.
    pub open spec fn of_scripts() -> EngineSettings {
        EngineSettings {
            standard: true,
            sleeps: false,
            refused: refused_functions(),
            closures: false,
            disabled: set!["eval"@, "import"@, "curry"@],
            max_operations: MAX_OPERATIONS,
            max_call_levels: MAX_CALL_LEVELS,
            max_expr_depth: MAX_EXPR_DEPTH,
            max_function_expr_depth: MAX_FUNCTION_EXPR_DEPTH,
            max_string_size: MAX_STRING_SIZE,
            max_array_size: MAX_ARRAY_SIZE,
            max_map_size: MAX_MAP_SIZE,
        }
    }
}

/// The settings of an engine.
pub uninterp spec fn engine_settings(engine: rhai::Engine) -> EngineSettings;

/// The source text that a script was compiled from.
pub uninterp spec fn ast_source(ast: rhai::AST) -> Seq<char>;

/// The settings under which a script was compiled.
pub uninterp spec fn ast_settings(ast: rhai::AST) -> EngineSettings;

/// What a value of the script language holds.
pub uninterp spec fn dynamic_value(value: rhai::Dynamic) -> Value;

/// Whether `rhai::Engine::compile` accepts a source text under these settings.
pub uninterp spec fn script_compiles(source: Seq<char>, settings: EngineSettings) -> bool;

/// Whether a call of `function` in the script `source` with one argument may
/// give `outcome` under these settings: a value, or `None` for a failure. A
/// script can read the clock, so that one call may have several outcomes.
pub uninterp spec fn script_may_give(
    source: Seq<char>,
    function: Seq<char>,
    settings: EngineSettings,
    argument: Value,
    outcome: Option<Value>,
) -> bool;

/// `rhai::Engine::new`: an engine with the standard packages and every keyword.
#[verifier::external_body]
fn new_engine() -> (engine: rhai::Engine)
    ensures
        engine_settings(engine).standard,
        engine_settings(engine).sleeps,
        engine_settings(engine).refused == Set::<(Seq<char>, Parameters)>::empty(),
        engine_settings(engine).closures,
        engine_settings(engine).disabled == Set::<Seq<char>>::empty(),
{
    rhai::Engine::new()
}

/// What scripts reach in place of `sleep`.
fn no_wait() {
}

/// `rhai::Engine::register_fn` for both forms of `sleep`, whole seconds and
/// fractions: what an engine has registered itself is found before what its
/// packages hold, so that scripts no longer reach the functions that block.
#[verifier::external_body]
fn replace_sleep(engine: &mut rhai::Engine)
    ensures
        engine_settings(*final(engine)) == (EngineSettings {
            sleeps: false,
            ..engine_settings(*old(engine))
        }),
{
    engine.register_fn("sleep", |_: rhai::INT| no_wait());
    engine.register_fn("sleep", |_: rhai::FLOAT| no_wait());
}

/// What scripts reach in place of a function that is not available.
fn not_available() -> (r: Result<(), &'static str>)
    ensures
        r is Err,
        r->Err_0@ == "this function is not available"@,
{
    Err("this function is not available")
}

/// `rhai::Engine::register_fn` with a function of a text: what an engine has
/// registered itself is found before what its packages hold, so that a script
/// that calls it fails.
#[verifier::external_body]
fn refuse_text(engine: &mut rhai::Engine, name: &str)
    requires
        refused_functions().contains((name@, Parameters::Text)),
    ensures
        engine_settings(*final(engine)) == engine_settings(*old(engine)).refusing(
            name@,
            Parameters::Text,
        ),
{
    engine.register_fn(name, |_: &str| {
        not_available().map_err(Box::<rhai::EvalAltResult>::from)
    });
}

/// `rhai::Engine::register_fn` with a function of an array: what an engine has
/// registered itself is found before what its packages hold, so that a script
/// that calls it fails.
#[verifier::external_body]
fn refuse_array(engine: &mut rhai::Engine, name: &str)
    requires
        refused_functions().contains((name@, Parameters::Array)),
    ensures
        engine_settings(*final(engine)) == engine_settings(*old(engine)).refusing(
            name@,
            Parameters::Array,
        ),
{
    engine.register_fn(name, |_: &mut rhai::Array| {
        not_available().map_err(Box::<rhai::EvalAltResult>::from)
    });
}

/// `rhai::Engine::register_fn` with a function of a table: what an engine has
/// registered itself is found before what its packages hold, so that a script
/// that calls it fails.
#[verifier::external_body]
fn refuse_table(engine: &mut rhai::Engine, name: &str)
    requires
        refused_functions().contains((name@, Parameters::Table)),
    ensures
        engine_settings(*final(engine)) == engine_settings(*old(engine)).refusing(
            name@,
            Parameters::Table,
        ),
{
    engine.register_fn(name, |_: &mut rhai::Map| {
        not_available().map_err(Box::<rhai::EvalAltResult>::from)
    });
}

/// `rhai::Engine::register_fn` with a function of two arrays: what an engine has
/// registered itself is found before what its packages hold, so that a script
/// that calls it fails.
#[verifier::external_body]
fn refuse_arrays(engine: &mut rhai::Engine, name: &str)
    requires
        refused_functions().contains((name@, Parameters::TwoArrays)),
    ensures
        engine_settings(*final(engine)) == engine_settings(*old(engine)).refusing(
            name@,
            Parameters::TwoArrays,
        ),
{
    engine.register_fn(name, |_: &mut rhai::Array, _: rhai::Array| {
        not_available().map_err(Box::<rhai::EvalAltResult>::from)
    });
}

/// `rhai::Engine::register_fn` with a function of two tables: what an engine has
/// registered itself is found before what its packages hold, so that a script
/// that calls it fails.
#[verifier::external_body]
fn refuse_tables(engine: &mut rhai::Engine, name: &str)
    requires
        refused_functions().contains((name@, Parameters::TwoTables)),
    ensures
        engine_settings(*final(engine)) == engine_settings(*old(engine)).refusing(
            name@,
            Parameters::TwoTables,
        ),
{
    engine.register_fn(name, |_: &mut rhai::Map, _: rhai::Map| {
        not_available().map_err(Box::<rhai::EvalAltResult>::from)
    });
}

/// `rhai::Engine::register_fn` with a function of a text, a length and a text: what an engine has
/// registered itself is found before what its packages hold, so that a script
/// that calls it fails.
#[verifier::external_body]
fn refuse_text_length_text(engine: &mut rhai::Engine, name: &str)
    requires
        refused_functions().contains((name@, Parameters::TextLengthText)),
    ensures
        engine_settings(*final(engine)) == engine_settings(*old(engine)).refusing(
            name@,
            Parameters::TextLengthText,
        ),
{
    engine.register_fn(name, |_: &mut rhai::ImmutableString, _: rhai::INT, _: &str| {
        not_available().map_err(Box::<rhai::EvalAltResult>::from)
    });
}

/// `rhai::Engine::register_fn` with a function of an array, a length and a value: what an engine has
/// registered itself is found before what its packages hold, so that a script
/// that calls it fails.
#[verifier::external_body]
fn refuse_array_length_value(engine: &mut rhai::Engine, name: &str)
    requires
        refused_functions().contains((name@, Parameters::ArrayLengthValue)),
    ensures
        engine_settings(*final(engine)) == engine_settings(*old(engine)).refusing(
            name@,
            Parameters::ArrayLengthValue,
        ),
{
    engine.register_fn(name, |_: &mut rhai::Array, _: rhai::INT, _: rhai::Dynamic| {
        not_available().map_err(Box::<rhai::EvalAltResult>::from)
    });
}

/// `rhai::Engine::set_allow_anonymous_fn`: whether a script that writes a
/// function in place compiles. Nothing else changes.
#[verifier::external_body]
fn allow_closures(engine: &mut rhai::Engine, allowed: bool)
    ensures
        engine_settings(*final(engine)) == (EngineSettings {
            closures: allowed,
            ..engine_settings(*old(engine))
        }),
{
    engine.set_allow_anonymous_fn(allowed);
}

/// `rhai::Engine::set_max_call_levels`: sets the limit and nothing else.
#[verifier::external_body]
fn set_max_call_levels(engine: &mut rhai::Engine, levels: usize)
    ensures
        engine_settings(*final(engine)) == (EngineSettings {
            max_call_levels: levels,
            ..engine_settings(*old(engine))
        }),
{
    engine.set_max_call_levels(levels);
}

/// `rhai::Engine::disable_symbol`: a script that uses the keyword no longer
/// compiles. Nothing else changes.
#[verifier::external_body]
fn disable_keyword(engine: &mut rhai::Engine, keyword: &str)
    ensures
        engine_settings(*final(engine)) == (EngineSettings {
            disabled: engine_settings(*old(engine)).disabled.insert(keyword@),
            ..engine_settings(*old(engine))
        }),
{
    engine.disable_symbol(keyword);
}

/// `rhai::Engine::set_max_operations`: sets the limit and nothing else.
#[verifier::external_body]
fn set_max_operations(engine: &mut rhai::Engine, operations: u64)
    ensures
        engine_settings(*final(engine)) == (EngineSettings {
            max_operations: operations,
            ..engine_settings(*old(engine))
        }),
{
    engine.set_max_operations(operations);
}

/// `rhai::Engine::set_max_expr_depths`: sets the two limits on nesting and
/// nothing else.
#[verifier::external_body]
fn set_max_expr_depths(engine: &mut rhai::Engine, outside: usize, inside: usize)
    ensures
        engine_settings(*final(engine)) == (EngineSettings {
            max_expr_depth: outside,
            max_function_expr_depth: inside,
            ..engine_settings(*old(engine))
        }),
{
    engine.set_max_expr_depths(outside, inside);
}

/// `rhai::Engine::set_max_string_size`: sets the limit and nothing else.
#[verifier::external_body]
fn set_max_string_size(engine: &mut rhai::Engine, size: usize)
    ensures
        engine_settings(*final(engine)) == (EngineSettings {
            max_string_size: size,
            ..engine_settings(*old(engine))
        }),
{
    engine.set_max_string_size(size);
}

/// `rhai::Engine::set_max_array_size`: sets the limit and nothing else.
#[verifier::external_body]
fn set_max_array_size(engine: &mut rhai::Engine, size: usize)
    ensures
        engine_settings(*final(engine)) == (EngineSettings {
            max_array_size: size,
            ..engine_settings(*old(engine))
        }),
{
    engine.set_max_array_size(size);
}

/// `rhai::Engine::set_max_map_size`: sets the limit and nothing else.
#[verifier::external_body]
fn set_max_map_size(engine: &mut rhai::Engine, size: usize)
    ensures
        engine_settings(*final(engine)) == (EngineSettings {
            max_map_size: size,
            ..engine_settings(*old(engine))
        }),
{
    engine.set_max_map_size(size);
}

/// `rhai::Engine::compile`: a compiled script, or the error if the source text
/// is not one under the settings of the engine. Without a limit on nesting a
/// deep text could exhaust the stack.
#[verifier::external_body]
fn compile_script(engine: &rhai::Engine, source: &str) -> (r: Result<rhai::AST, rhai::ParseError>)
    requires
        engine_settings(*engine).compiles_safely(),
    ensures
        r is Ok == script_compiles(source@, engine_settings(*engine)),
        r matches Ok(ast) ==> ast_source(ast) == source@ && ast_settings(ast) == engine_settings(
            *engine,
        ),
{
    engine.compile(source)
}

/// `rhai::Engine::call_fn` with a fresh scope: calls a function of a script
/// with one argument. The outcome is one that the script may give for that
/// argument; which one it is rests on the script and on the time. An engine
/// that is not contained might never return, or panic, and so might a script
/// that was compiled by one.
#[verifier::external_body]
fn call_function(
    engine: &rhai::Engine,
    ast: &rhai::AST,
    function: &str,
    argument: rhai::Dynamic,
) -> (r: Result<rhai::Dynamic, Box<rhai::EvalAltResult>>)
    requires
        engine_settings(*engine).contained(),
        ast_settings(*ast) == engine_settings(*engine),
    ensures
        script_may_give(
            ast_source(*ast),
            function@,
            engine_settings(*engine),
            dynamic_value(argument),
            match r {
                Ok(d) => Some(dynamic_value(d)),
                Err(_) => None,
            },
        ),
{
    engine.call_fn(&mut rhai::Scope::new(), ast, function, (argument,))
}

/// `rhai::Dynamic::from` of a string: the value that holds a text.
#[verifier::external_body]
fn text_dynamic(text: &str) -> (d: rhai::Dynamic)
    ensures
        dynamic_value(d) == Value::Text(text@),
{
    rhai::Dynamic::from(text.to_string())
}

/// `rhai::Dynamic::from` of a number: the value that holds it.
#[verifier::external_body]
fn int_dynamic(n: i64) -> (d: rhai::Dynamic)
    ensures
        dynamic_value(d) == Value::Int(n),
{
    rhai::Dynamic::from(n)
}

/// `rhai::Dynamic::from_array`: the value that holds an array of values.
#[verifier::external_body]
fn array_dynamic(items: Vec<rhai::Dynamic>) -> (d: rhai::Dynamic)
    ensures
        dynamic_value(d) == Value::Array(dynamic_values(items@)),
{
    rhai::Dynamic::from_array(items)
}

/// `rhai::Dynamic::from_map`: the value that holds a table with these entries.
#[verifier::external_body]
fn table_dynamic(entries: Vec<(String, rhai::Dynamic)>) -> (d: rhai::Dynamic)
    requires
        forall|i: int, j: int|
            0 <= i < j < entries@.len() ==> (#[trigger] entries@[i]).0@ != (
            #[trigger] entries@[j]).0@,
    ensures
        is_table_of(dynamic_value(d), entries@),
{
    rhai::Dynamic::from_map(entries.into_iter().map(|(k, v)| (k.into(), v)).collect())
}

/// `rhai::Dynamic::try_cast` to a string: the text, if the value is one.
#[verifier::external_body]
fn dynamic_text(d: &rhai::Dynamic) -> (r: Option<String>)
    ensures
        match r {
            Some(text) => dynamic_value(*d) == Value::Text(text@),
            None => !(dynamic_value(*d) is Text),
        },
{
    d.clone().try_cast::<String>()
}

/// `rhai::Dynamic::try_cast` to a number: the number, if the value is one.
#[verifier::external_body]
fn dynamic_int(d: &rhai::Dynamic) -> (r: Option<i64>)
    ensures
        match r {
            Some(n) => dynamic_value(*d) == Value::Int(n),
            None => !(dynamic_value(*d) is Int),
        },
{
    d.clone().try_cast::<i64>()
}

/// `rhai::Dynamic::try_cast` to an array: its items, if the value is one.
#[verifier::external_body]
fn dynamic_array(d: &rhai::Dynamic) -> (r: Option<Vec<rhai::Dynamic>>)
    ensures
        match r {
            Some(items) => dynamic_value(*d) == Value::Array(dynamic_values(items@)),
            None => !(dynamic_value(*d) is Array),
        },
{
    d.clone().try_cast::<rhai::Array>()
}

/// `rhai::Dynamic::try_cast` to a table: its entries, if the value is one. No
/// key occurs twice.
#[verifier::external_body]
fn dynamic_table(d: &rhai::Dynamic) -> (r: Option<Vec<(String, rhai::Dynamic)>>)
    ensures
        match r {
            Some(entries) => is_table_of(dynamic_value(*d), entries@),
            None => !(dynamic_value(*d) is Table),
        },
{
    let table = d.clone().try_cast::<rhai::Map>();
    table.map(|t| t.into_iter().map(|(k, v)| (k.to_string(), v)).collect())
}

/// The name of the type of a value: the unit's is `()`, and for any other value
/// `rhai::Dynamic::as_unit` fails with it.
#[verifier::external_body]
fn dynamic_kind(d: &rhai::Dynamic) -> (name: String)
    ensures
        name@ == crate::script::value::kind_name(dynamic_value(*d)),
{
    d.flatten_clone().as_unit().err().unwrap_or("()").to_string()
}

/// What values of the script language hold.
pub open spec fn dynamic_values(items: Seq<rhai::Dynamic>) -> Seq<Value> {
    items.map_values(|d: rhai::Dynamic| dynamic_value(d))
}

/// Whether `table` has these entries, each key once, and no others.
pub open spec fn holds_entries(
    table: Map<Seq<char>, Value>,
    entries: Seq<(String, rhai::Dynamic)>,
) -> bool {
    &&& forall|i: int|
        0 <= i < entries.len() ==> table.contains_key((#[trigger] entries[i]).0@)
            && table[entries[i].0@] == dynamic_value(entries[i].1)
    &&& forall|i: int, j: int|
        0 <= i < j < entries.len() ==> (#[trigger] entries[i]).0@ != (#[trigger] entries[j]).0@
    &&& forall|k: Seq<char>| #[trigger]
        table.contains_key(k) ==> exists|i: int|
            0 <= i < entries.len() && (#[trigger] entries[i]).0@ == k
}

/// Whether `value` is a table with these entries, each key once, and no others.
pub open spec fn is_table_of(value: Value, entries: Seq<(String, rhai::Dynamic)>) -> bool {
    value is Table && holds_entries(value->Table_0, entries)
}

proof fn lemma_first_entry(entries: Seq<(String, ScriptValue)>, k: Seq<char>, i: int)
    requires
        0 <= i < entries.len(),
        entries[i].0@ == k,
        forall|x: int, y: int|
            0 <= x < y < entries.len() ==> (#[trigger] entries[x]).0@ != (#[trigger] entries[y]).0@,
    ensures
        crate::script::value::first_entry(entries, k, i),
        forall|j: int| crate::script::value::first_entry(entries, k, j) ==> j == i,
{
    assert forall|j: int| crate::script::value::first_entry(entries, k, j) implies j == i by {
        if j < i {
            assert(entries[j].0@ != entries[i].0@);
        } else if i < j {
            assert(entries[i].0@ != entries[j].0@);
        }
    }
}

/// The value of the script language that stands for `value`.
fn to_dynamic(value: &ScriptValue) -> (d: rhai::Dynamic)
    requires
        value.is_data(),
    ensures
        dynamic_value(d) == value@,
    decreases value,
{
    match value {
        ScriptValue::Text(s) => text_dynamic(s.as_str()),
        ScriptValue::Int(n) => int_dynamic(*n),
        ScriptValue::Array(items) => {
            let mut out: Vec<rhai::Dynamic> = Vec::new();
            let mut i: usize = 0;
            while i < items.len()
                invariant
                    i <= items@.len(),
                    *value == ScriptValue::Array(*items),
                    value.is_data(),
                    out@.len() == i,
                    forall|k: int| 0 <= k < i ==> dynamic_value(#[trigger] out@[k]) == items@[k]@,
                decreases items@.len() - i,
            {
                proof {
                    assert(value->Array_0@[i as int].is_data());
                    assert(decreases_to!(value->Array_0 => value->Array_0[i as int]));
                }
                out.push(to_dynamic(&items[i]));
                i += 1;
            }
            let d = array_dynamic(out);
            proof {
                reveal_with_fuel(ScriptValue::view, 2);
                assert(dynamic_value(d)->Array_0 =~= value@->Array_0);
            }
            d
        },
        ScriptValue::Table(entries) => {
            let mut out: Vec<(String, rhai::Dynamic)> = Vec::new();
            let mut i: usize = 0;
            while i < entries.len()
                invariant
                    i <= entries@.len(),
                    *value == ScriptValue::Table(*entries),
                    value.is_data(),
                    out@.len() == i,
                    forall|k: int|
                        0 <= k < i ==> (#[trigger] out@[k]).0@ == entries@[k].0@ && dynamic_value(
                            out@[k].1,
                        ) == entries@[k].1@,
                decreases entries@.len() - i,
            {
                proof {
                    assert(value->Table_0@[i as int].1.is_data());
                    assert(decreases_to!(value->Table_0 => value->Table_0[i as int]));
                }
                out.push((entries[i].0.clone(), to_dynamic(&entries[i].1)));
                i += 1;
            }
            proof {
                assert forall|x: int, y: int| 0 <= x < y < out@.len() implies (
                #[trigger] out@[x]).0@ != (#[trigger] out@[y]).0@ by {
                    assert(entries@[x].0@ != entries@[y].0@);
                }
            }
            let ghost list = out@;
            let d = table_dynamic(out);
            proof {
                reveal_with_fuel(ScriptValue::view, 2);
                let table = dynamic_value(d)->Table_0;
                let want = value@->Table_0;
                assert forall|k: Seq<char>| table.contains_key(k) == want.contains_key(k) by {
                    if table.contains_key(k) {
                        let x = choose|x: int| 0 <= x < list.len() && (#[trigger] list[x]).0@ == k;
                        lemma_first_entry(entries@, k, x);
                    }
                    if want.contains_key(k) {
                        let x = choose|x: int|
                            crate::script::value::first_entry(entries@, k, x);
                        assert(table.contains_key(list[x].0@));
                    }
                }
                assert forall|k: Seq<char>| #[trigger] table.contains_key(k) implies table[k]
                    == want[k] by {
                    let x = choose|x: int| 0 <= x < list.len() && (#[trigger] list[x]).0@ == k;
                    lemma_first_entry(entries@, k, x);
                    assert(table[list[x].0@] == dynamic_value(list[x].1));
                }
                assert(table =~= want);
            }
            d
        },
        ScriptValue::Other(name) => text_dynamic(name.as_str()),
    }
}

/// What a value of the script language holds, down to a nesting of `depth`.
fn from_dynamic(d: &rhai::Dynamic, depth: u8) -> (value: ScriptValue)
    ensures
        value@ == crate::script::value::cut(dynamic_value(*d), depth as nat),
    decreases depth,
{
    if depth == 0 {
        return ScriptValue::Other(dynamic_kind(d));
    }
    if let Some(text) = dynamic_text(d) {
        return ScriptValue::Text(text);
    }
    if let Some(n) = dynamic_int(d) {
        return ScriptValue::Int(n);
    }
    if let Some(items) = dynamic_array(d) {
        let mut out: Vec<ScriptValue> = Vec::new();
        let mut i: usize = 0;
        while i < items.len()
            invariant
                i <= items@.len(),
                depth > 0,
                out@.len() == i,
                forall|k: int|
                    0 <= k < i ==> (#[trigger] out@[k])@ == crate::script::value::cut(
                        dynamic_value(items@[k]),
                        (depth - 1) as nat,
                    ),
            decreases items@.len() - i,
        {
            out.push(from_dynamic(&items[i], depth - 1));
            i += 1;
        }
        let value = ScriptValue::Array(out);
        proof {
            let want = crate::script::value::cut(dynamic_value(*d), depth as nat);
            reveal_with_fuel(ScriptValue::view, 2);
            assert(value@->Array_0 =~= want->Array_0);
        }
        return value;
    }
    if let Some(entries) = dynamic_table(d) {
        let mut out: Vec<(String, ScriptValue)> = Vec::new();
        let mut i: usize = 0;
        while i < entries.len()
            invariant
                i <= entries@.len(),
                depth > 0,
                out@.len() == i,
                forall|k: int|
                    0 <= k < i ==> (#[trigger] out@[k]).0@ == entries@[k].0@ && out@[k].1@
                        == crate::script::value::cut(
                        dynamic_value(entries@[k].1),
                        (depth - 1) as nat,
                    ),
            decreases entries@.len() - i,
        {
            out.push((entries[i].0.clone(), from_dynamic(&entries[i].1, depth - 1)));
            i += 1;
        }
        let ghost list = out@;
        let value = ScriptValue::Table(out);
        proof {
            let table = dynamic_value(*d)->Table_0;
            let want = crate::script::value::cut(dynamic_value(*d), depth as nat)->Table_0;
            reveal_with_fuel(ScriptValue::view, 2);
            let got = value@->Table_0;
            assert forall|x: int, y: int| 0 <= x < y < list.len() implies (
            #[trigger] list[x]).0@ != (#[trigger] list[y]).0@ by {
                assert(entries@[x].0@ != entries@[y].0@);
            }
            assert forall|k: Seq<char>| got.contains_key(k) == want.contains_key(k) by {
                if table.contains_key(k) {
                    let x = choose|x: int|
                        0 <= x < entries@.len() && (#[trigger] entries@[x]).0@ == k;
                    lemma_first_entry(list, k, x);
                }
                if got.contains_key(k) {
                    let x = choose|x: int| crate::script::value::first_entry(list, k, x);
                    assert(table.contains_key(entries@[x].0@));
                }
            }
            assert forall|k: Seq<char>| #[trigger] want.contains_key(k) implies got[k]
                == want[k] by {
                assert(table.contains_key(k));
                let x = choose|x: int| 0 <= x < entries@.len() && (#[trigger] entries@[x]).0@ == k;
                lemma_first_entry(list, k, x);
                assert(table[entries@[x].0@] == dynamic_value(entries@[x].1));
            }
            assert(got =~= want);
        }
        return value;
    }
    ScriptValue::Other(dynamic_kind(d))
}

// ---------------------------------------------------------------------------
// URL patterns
// ---------------------------------------------------------------------------

/// The compiled pattern of the crate `glob`.
#[verifier::external_type_specification]
#[verifier::external_body]
pub struct ExPattern(glob::Pattern);

/// The pattern error of the crate `glob`.
#[verifier::external_type_specification]
#[verifier::external_body]
pub struct ExPatternError(glob::PatternError);

/// The text of a compiled pattern: what `glob::Pattern::as_str` gives.
pub uninterp spec fn pattern_text(pattern: glob::Pattern) -> Seq<char>;

/// Whether `glob::Pattern::new` accepts a text without a backslash.
pub uninterp spec fn glob_valid(text: Seq<char>) -> bool;

/// Whether the pattern with the first text matches the second, neither with a
/// backslash: what `glob::Pattern::matches` gives.
pub uninterp spec fn glob_matches(pattern: Seq<char>, url: Seq<char>) -> bool;

/// Whether a text has none of the characters with a meaning in patterns, and at least one other.
pub open spec fn plain_word(w: Seq<char>) -> bool {
    &&& w.len() > 0
    &&& !w.contains('*')
    &&& !w.contains('?')
    &&& !w.contains('[')
    &&& !w.contains(']')
    &&& !w.contains('\\')
}

/// How long a pattern may be.
pub const MAX_PATTERN: usize = 1024;

/// The pattern for any text that has `w` in it.
pub open spec fn containing(w: Seq<char>) -> Seq<char> {
    seq!['*'] + w + seq!['*']
}

/// Whether a match means the same on every machine: on some, a backslash
/// separates as a slash does.
pub open spec fn same_everywhere(pattern: Seq<char>, url: Seq<char>) -> bool {
    !pattern.contains('\\') && !url.contains('\\')
}

/// What is said of a match for the two documented forms of patterns: `*`
/// matches everything, and `*word*` what has `word` in it. A slash in the word
/// may also stand for a backslash in the URL.
pub open spec fn glob_fact(pattern: Seq<char>, url: Seq<char>, matched: bool) -> bool {
    &&& pattern == seq!['*'] ==> matched
    &&& forall|w: Seq<char>|
        plain_word(w) && (!w.contains('/') || !url.contains('\\')) && pattern
            == #[trigger] containing(w) ==> matched == crate::text::occurs(w, url)
}

/// `glob::Pattern::new`: the compiled pattern, or the error if the text is not
/// one, which a backslash lets the machine decide. `*` and a word between two
/// `*` are patterns.
#[verifier::external_body]
fn compile_pattern(text: &str) -> (r: Result<glob::Pattern, glob::PatternError>)
    ensures
        !text@.contains('\\') ==> r is Ok == glob_valid(text@),
        r matches Ok(p) ==> pattern_text(p) == text@,
        text@ == seq!['*'] ==> r is Ok,
        forall|w: Seq<char>| plain_word(w) && text@ == #[trigger] containing(w) ==> r is Ok,
{
    glob::Pattern::new(text)
}

/// `glob::Pattern::matches`: whether the pattern matches the whole of `url`,
/// which a backslash lets the machine decide. A match goes a call deeper for
/// each `*`, so that the pattern must not be long.
#[verifier::external_body]
fn pattern_matches(pattern: &glob::Pattern, url: &str) -> (matched: bool)
    requires
        pattern_text(*pattern).len() <= MAX_PATTERN,
    ensures
        same_everywhere(pattern_text(*pattern), url@) ==> matched == glob_matches(
            pattern_text(*pattern),
            url@,
        ),
        glob_fact(pattern_text(*pattern), url@, matched),
{
    pattern.matches(url)
}

// ---------------------------------------------------------------------------
// One answer
// ---------------------------------------------------------------------------

/// What came of consulting one script.
pub enum Outcome {
    /// Its pattern does not match the URL.
    Skipped,
    /// It failed, with this text.
    Failed(Seq<char>),
    /// It returned this value.
    Returned(Value),
}

/// The outcome that the answer of a script is.
pub open spec fn outcome_of(answer: Result<ScriptValue, String>) -> Outcome {
    match answer {
        Ok(value) => Outcome::Returned(value@),
        Err(error) => Outcome::Failed(error@),
    }
}

/// What follows from the answer of one script.
pub enum Verdict {
    /// The decision stands.
    Decided(ActionView),
    /// The next script is asked; these warnings are shown.
    Next(Seq<Seq<char>>),
}

/// The warning about a script that failed.
pub open spec fn failure_text(path: Seq<char>, error: Seq<char>) -> Seq<char> {
    "[scripts] error in "@ + path + ": "@ + error
}

/// The warning about a script whose answer is no decision.
pub open spec fn invalid_text(path: Seq<char>, error: Seq<char>) -> Seq<char> {
    "[scripts] invalid action from "@ + path + ": "@ + ("Script returned an invalid action map: "@
        + error)
}

/// What follows from the outcome of the script at `path`.
pub open spec fn verdict(path: Seq<char>, outcome: Outcome) -> Verdict {
    match outcome {
        Outcome::Skipped => Verdict::Next(seq![]),
        Outcome::Failed(error) => Verdict::Next(seq![failure_text(path, error)]),
        Outcome::Returned(value) => match crate::script::value::action_of(value) {
            Ok(ActionView::Passthrough) => Verdict::Next(seq![]),
            Ok(action) => Verdict::Decided(action),
            Err(error) => Verdict::Next(seq![invalid_text(path, error)]),
        },
    }
}

/// What follows from the answer of a script that was asked.
pub enum Settled {
    Decided(ScriptAction),
    Next(Option<String>),
}

impl Settled {
    /// What is settled.
    pub open spec fn view(&self) -> Verdict {
        match *self {
            Settled::Decided(action) => Verdict::Decided(action@),
            Settled::Next(Some(warning)) => Verdict::Next(seq![warning@]),
            Settled::Next(None) => Verdict::Next(seq![]),
        }
    }
}

/// Settles what follows from the answer of the script at `path`: the first
/// decision other than to pass the request through stands, and a failure or an
/// answer that is no decision is a warning.
pub fn settle(path: &str, answer: &Result<ScriptValue, String>) -> (r: Settled)
    ensures
        r@ == verdict(path@, outcome_of(*answer)),
        answer matches Ok(value) ==> crate::script::value::lower_fact(value@),
{
    match answer {
        Ok(value) => match parse_action(value) {
            Ok(ScriptAction::Passthrough) => Settled::Next(None),
            Ok(action) => Settled::Decided(action),
            Err(error) => {
                let mut warning = "[scripts] invalid action from ".to_string();
                warning.append(path);
                warning.append(": ");
                warning.append(error.message().as_str());
                Settled::Next(Some(warning))
            },
        },
        Err(error) => {
            let mut warning = "[scripts] error in ".to_string();
            warning.append(path);
            warning.append(": ");
            warning.append(error.as_str());
            Settled::Next(Some(warning))
        },
    }
}

// ---------------------------------------------------------------------------
// The engine
// ---------------------------------------------------------------------------

/// A compiled script and the URLs it is for.
pub struct ScriptEntry {
    /// Matched against the full URL, scheme included.
    pattern: glob::Pattern,
    ast: rhai::AST,
    /// Shown in warnings.
    path: String,
}

/// What a [`ScriptEntry`] is.
pub struct EntryView {
    pub pattern: Seq<char>,
    pub source: Seq<char>,
    pub path: Seq<char>,
}

impl View for ScriptEntry {
    type V = EntryView;

    closed spec fn view(&self) -> EntryView {
        EntryView {
            pattern: pattern_text(self.pattern),
            source: ast_source(self.ast),
            path: self.path@,
        }
    }
}

/// The loaded scripts, in order, and the limits under which they run.
pub struct ScriptEngine {
    rhai: rhai::Engine,
    scripts: Vec<ScriptEntry>,
}

/// What a [`ScriptEngine`] is.
pub struct EngineView {
    pub scripts: Seq<EntryView>,
    pub settings: EngineSettings,
}

impl View for ScriptEngine {
    type V = EngineView;

    closed spec fn view(&self) -> EngineView {
        EngineView {
            scripts: self.scripts@.map_values(|e: ScriptEntry| e@),
            settings: engine_settings(self.rhai),
        }
    }
}

// ---------------------------------------------------------------------------
// One run
// ---------------------------------------------------------------------------

/// The decision about a request and the warnings on the way to it.
pub struct ScriptRun {
    pub action: ScriptAction,
    pub warnings: Vec<String>,
}

/// What a [`ScriptRun`] says.
pub struct RunView {
    pub action: ActionView,
    pub warnings: Seq<Seq<char>>,
}

impl View for ScriptRun {
    type V = RunView;

    open spec fn view(&self) -> RunView {
        RunView { action: self.action@, warnings: crate::text::texts(self.warnings@) }
    }
}

/// The paths of scripts.
pub open spec fn paths(scripts: Seq<EntryView>) -> Seq<Seq<char>> {
    scripts.map_values(|e: EntryView| e.path)
}

/// What the outcomes of scripts come to: the first decision, or to pass the
/// request through, with all warnings up to there.
pub open spec fn run_of(paths: Seq<Seq<char>>, outcomes: Seq<Outcome>) -> RunView
    decreases outcomes.len(),
{
    if paths.len() == 0 || outcomes.len() == 0 {
        RunView { action: ActionView::Passthrough, warnings: seq![] }
    } else {
        match verdict(paths[0], outcomes[0]) {
            Verdict::Decided(action) => RunView { action, warnings: seq![] },
            Verdict::Next(warnings) => {
                let rest = run_of(paths.skip(1), outcomes.skip(1));
                RunView { action: rest.action, warnings: warnings + rest.warnings }
            },
        }
    }
}

/// Whether a script may have this outcome for a request: it is skipped if and
/// only if its pattern does not match the URL, and otherwise its function
/// `handle` was called with the request.
pub open spec fn may_happen(
    engine: EngineView,
    script: EntryView,
    url: Seq<char>,
    request: Value,
    outcome: Outcome,
) -> bool {
    &&& same_everywhere(script.pattern, url) ==> glob_matches(script.pattern, url) == !(
    outcome is Skipped)
    &&& glob_fact(script.pattern, url, !(outcome is Skipped))
    &&& match outcome {
        Outcome::Skipped => true,
        Outcome::Failed(_) => script_may_give(
            script.source,
            "handle"@,
            engine.settings,
            request,
            None,
        ),
        Outcome::Returned(value) => exists|whole: Value|
            {
                &&& #[trigger] script_may_give(
                    script.source,
                    "handle"@,
                    engine.settings,
                    request,
                    Some(whole),
                )
                &&& value == crate::script::value::cut(whole, READ_DEPTH as nat)
                &&& crate::script::value::lower_fact(value)
            },
    }
}

/// Whether the scripts of an engine may have these outcomes for a request: all
/// of them up to the first decision are consulted, in order, and no further.
pub open spec fn possible(
    engine: EngineView,
    url: Seq<char>,
    request: Value,
    outcomes: Seq<Outcome>,
) -> bool {
    &&& outcomes.len() <= engine.scripts.len()
    &&& forall|i: int|
        0 <= i < outcomes.len() ==> may_happen(
            engine,
            engine.scripts[i],
            url,
            request,
            #[trigger] outcomes[i],
        )
    &&& forall|i: int|
        0 <= i < outcomes.len() - 1 ==> verdict(
            engine.scripts[i].path,
            #[trigger] outcomes[i],
        ) is Next
    &&& outcomes.len() < engine.scripts.len() ==> outcomes.len() > 0 && verdict(
        engine.scripts[outcomes.len() - 1].path,
        outcomes.last(),
    ) is Decided
}

/// How deep an answer is read: a table, its header list, a pair and its texts.
pub const READ_DEPTH: u8 = 4;

proof fn lemma_run_push(paths: Seq<Seq<char>>, outcomes: Seq<Outcome>, outcome: Outcome)
    requires
        outcomes.len() < paths.len(),
        forall|i: int| 0 <= i < outcomes.len() ==> verdict(paths[i], #[trigger] outcomes[i]) is Next,
    ensures
        run_of(paths, outcomes).action is Passthrough,
        run_of(paths, outcomes.push(outcome)) == (match verdict(
            paths[outcomes.len() as int],
            outcome,
        ) {
            Verdict::Decided(action) => RunView {
                action,
                warnings: run_of(paths, outcomes).warnings,
            },
            Verdict::Next(w) => RunView {
                action: ActionView::Passthrough,
                warnings: run_of(paths, outcomes).warnings + w,
            },
        }),
    decreases outcomes.len(),
{
    let more = outcomes.push(outcome);
    if outcomes.len() == 0 {
        assert(more[0] == outcome);
        assert(more.skip(1).len() == 0);
        match verdict(paths[0], outcome) {
            Verdict::Decided(_) => {},
            Verdict::Next(w) => {
                let none: Seq<Seq<char>> = seq![];
                assert(w + none =~= none + w);
                assert(run_of(paths.skip(1), more.skip(1)).warnings == none);
            },
        }
    } else {
        let p = paths.skip(1);
        let o = outcomes.skip(1);
        assert(more.skip(1) =~= o.push(outcome));
        assert(more[0] == outcomes[0]);
        assert(verdict(paths[0], outcomes[0]) is Next);
        assert forall|i: int| 0 <= i < o.len() implies verdict(p[i], #[trigger] o[i]) is Next by {
            assert(o[i] == outcomes[i + 1]);
            assert(p[i] == paths[i + 1]);
        }
        lemma_run_push(p, o, outcome);
        let w0 = verdict(paths[0], outcomes[0])->Next_0;
        match verdict(paths[outcomes.len() as int], outcome) {
            Verdict::Decided(_) => {},
            Verdict::Next(w) => {
                assert(w0 + (run_of(p, o).warnings + w) =~= w0 + run_of(p, o).warnings + w);
            },
        }
    }
}

// ---------------------------------------------------------------------------
// Loading
// ---------------------------------------------------------------------------

/// A script file that is to be loaded.
pub struct Candidate {
    pattern: glob::Pattern,
    stem: String,
}

impl View for Candidate {
    type V = Seq<char>;

    /// The file stem, which is the URL pattern.
    closed spec fn view(&self) -> Seq<char> {
        self.stem@
    }
}

/// What to do about a directory entry.
pub enum FileStep {
    /// It is not a script.
    Skip,
    /// Its name is not a pattern; show the warning and go on.
    Warn(String),
    /// Read it.
    Read(Candidate),
}

/// The pattern that a file name stands for.
pub open spec fn stem_pattern(stem: Option<&str>) -> Seq<char> {
    match stem {
        Some(s) => s@,
        None => "*"@,
    }
}

/// Whether a file with this extension is a script.
pub open spec fn is_script_file(extension: Option<&str>) -> bool {
    match extension {
        Some(e) => e@ == "rhai"@,
        None => false,
    }
}

/// The warning about a file name that is not a pattern.
pub open spec fn bad_pattern_text(pattern: Seq<char>, error: Seq<char>) -> Seq<char> {
    "[scripts] bad pattern in filename '"@ + pattern + "': "@ + error
}

/// The warning about a script that does not compile.
pub open spec fn parse_error_text(path: Seq<char>, error: Seq<char>) -> Seq<char> {
    "[scripts] parse error in "@ + path + ": "@ + error
}

/// Decides what to do about a directory entry with this extension and stem:
/// only files with the extension `rhai` are scripts, and the stem is the URL
/// pattern, which must not be too long.
pub fn consider(extension: Option<&str>, stem: Option<&str>) -> (step: FileStep)
    ensures
        step is Skip <==> !is_script_file(extension),
        !stem_pattern(stem).contains('\\') ==> (step is Read <==> is_script_file(extension)
            && stem_pattern(stem).len() <= MAX_PATTERN && glob_valid(stem_pattern(stem))),
        is_script_file(extension) && stem_pattern(stem).len() > MAX_PATTERN ==> step is Warn
            && step->Warn_0@ == bad_pattern_text(
            stem_pattern(stem),
            "the pattern is too long"@,
        ),
        step matches FileStep::Read(candidate) ==> candidate@ == stem_pattern(stem),
        step matches FileStep::Warn(text) ==> exists|error: Seq<char>|
            text@ == #[trigger] bad_pattern_text(stem_pattern(stem), error),
{
    let is_script = match extension {
        Some(e) => same_text(e, "rhai"),
        None => false,
    };
    if !is_script {
        return FileStep::Skip;
    }
    let name = match stem {
        Some(s) => s.to_string(),
        None => "*".to_string(),
    };
    if chars_of(name.as_str()).len() > MAX_PATTERN {
        let mut text = "[scripts] bad pattern in filename '".to_string();
        text.append(name.as_str());
        text.append("': ");
        text.append("the pattern is too long");
        assert(text@ == bad_pattern_text(stem_pattern(stem), "the pattern is too long"@));
        return FileStep::Warn(text);
    }
    match compile_pattern(name.as_str()) {
        Ok(pattern) => {
            let candidate = Candidate { pattern, stem: name };
            proof {
                use_type_invariant(&candidate);
            }
            FileStep::Read(candidate)
        },
        Err(e) => {
            let error = e.to_string();
            let mut text = "[scripts] bad pattern in filename '".to_string();
            text.append(name.as_str());
            text.append("': ");
            text.append(error.as_str());
            assert(text@ == bad_pattern_text(stem_pattern(stem), error@));
            FileStep::Warn(text)
        },
    }
}

impl Candidate {
    #[verifier::type_invariant]
    spec fn pattern_is_stem(self) -> bool {
        pattern_text(self.pattern) == self.stem@ && self.stem@.len() <= MAX_PATTERN
    }
}

impl ScriptEngine {
    #[verifier::type_invariant]
    spec fn bounded(self) -> bool {
        &&& engine_settings(self.rhai).contained()
        &&& forall|i: int|
            0 <= i < self.scripts@.len() ==> {
                let entry = #[trigger] self.scripts@[i];
                &&& pattern_text(entry.pattern).len() <= MAX_PATTERN
                &&& ast_settings(entry.ast) == engine_settings(self.rhai)
            }
    }

    /// An engine without scripts, which stops a script after 100,000 operations.
    ///
    /// A script cannot run on for ever or bring the proxy down. `sleep` returns at
    /// once. `eval`, `import`, `curry` and functions that are written in place
    /// do not compile. `parse_json` fails, as do `pad` for a text with a text
    /// and for an array, sorting other than by a function of the script, and
    /// printing or comparing whole arrays and tables. Texts, arrays, tables and
    /// nested calls are limited.
    pub fn new() -> (r: ScriptEngine)
        ensures
            r@ == (EngineView { scripts: seq![], settings: EngineSettings::of_scripts() }),
    {
        let mut engine = new_engine();
        replace_sleep(&mut engine);
        refuse_text_length_text(&mut engine, "pad");
        refuse_array_length_value(&mut engine, "pad");
        refuse_array(&mut engine, "sort");
        refuse_array(&mut engine, "sort_desc");
        refuse_array(&mut engine, "order");
        refuse_array(&mut engine, "order_desc");
        refuse_text(&mut engine, "parse_json");
        refuse_array(&mut engine, "print");
        refuse_array(&mut engine, "debug");
        refuse_array(&mut engine, "to_string");
        refuse_array(&mut engine, "to_debug");
        refuse_table(&mut engine, "print");
        refuse_table(&mut engine, "debug");
        refuse_table(&mut engine, "to_string");
        refuse_table(&mut engine, "to_debug");
        refuse_arrays(&mut engine, "==");
        refuse_arrays(&mut engine, "!=");
        refuse_tables(&mut engine, "==");
        refuse_tables(&mut engine, "!=");
        allow_closures(&mut engine, false);
        disable_keyword(&mut engine, "eval");
        disable_keyword(&mut engine, "import");
        disable_keyword(&mut engine, "curry");
        set_max_call_levels(&mut engine, MAX_CALL_LEVELS);
        set_max_operations(&mut engine, MAX_OPERATIONS);
        set_max_expr_depths(&mut engine, MAX_EXPR_DEPTH, MAX_FUNCTION_EXPR_DEPTH);
        set_max_string_size(&mut engine, MAX_STRING_SIZE);
        set_max_array_size(&mut engine, MAX_ARRAY_SIZE);
        set_max_map_size(&mut engine, MAX_MAP_SIZE);
        assert(engine_settings(engine).disabled =~= EngineSettings::of_scripts().disabled);
        assert(engine_settings(engine).refused =~= refused_functions());
        let r = ScriptEngine { rhai: engine, scripts: Vec::new() };
        assert(r@.scripts =~= seq![]);
        r
    }

    /// Adds the script at `path` once its source text has been read, or not if
    /// that failed or the text does not compile. Also gives the line to log.
    pub fn add_script(
        self,
        candidate: Candidate,
        path: &str,
        source: Result<String, String>,
    ) -> (r: (ScriptEngine, String))
        ensures
            r.0@.settings == self@.settings,
            match source {
                Ok(text) => if script_compiles(text@, self@.settings) {
                    &&& r.0@.scripts == self@.scripts.push(
                        EntryView { pattern: candidate@, source: text@, path: path@ },
                    )
                    &&& r.1@ == "[scripts] loaded: "@ + path@ + " (pattern: "@ + candidate@ + ")"@
                } else {
                    &&& r.0@.scripts == self@.scripts
                    &&& exists|error: Seq<char>|
                        r.1@ == #[trigger] parse_error_text(path@, error)
                },
                Err(error) => {
                    &&& r.0@.scripts == self@.scripts
                    &&& r.1@ == "[scripts] cannot read "@ + path@ + ": "@ + error@
                },
            },
    {
        proof {
            use_type_invariant(&self);
            use_type_invariant(&candidate);
        }
        match source {
            Ok(text) => match compile_script(&self.rhai, text.as_str()) {
                Ok(ast) => {
                    let mut log = "[scripts] loaded: ".to_string();
                    log.append(path);
                    log.append(" (pattern: ");
                    log.append(candidate.stem.as_str());
                    log.append(")");
                    let entry = ScriptEntry {
                        pattern: candidate.pattern,
                        ast,
                        path: path.to_string(),
                    };
                    let mut scripts = self.scripts;
                    scripts.push(entry);
                    let next = ScriptEngine { rhai: self.rhai, scripts };
                    assert(next@.scripts =~= self@.scripts.push(entry@));
                    (next, log)
                },
                Err(e) => {
                    let error = e.to_string();
                    let mut log = "[scripts] parse error in ".to_string();
                    log.append(path);
                    log.append(": ");
                    log.append(error.as_str());
                    assert(log@ == parse_error_text(path@, error@));
                    (self, log)
                },
            },
            Err(error) => {
                let mut log = "[scripts] cannot read ".to_string();
                log.append(path);
                log.append(": ");
                log.append(error.as_str());
                (self, log)
            },
        }
    }

    /// Asks the scripts that match `url`, in the order they were loaded, what
    /// to do with a request. The first decision other than to pass it through
    /// stands; without one the request passes through. Also gives the warnings
    /// about scripts that failed or answered with something else.
    pub fn evaluate(&self, method: &str, url: &str, headers: &[(String, String)]) -> (r: ScriptRun)
        ensures
            self@.settings.contained(),
            exists|outcomes: Seq<Outcome>|
                {
                    &&& #[trigger] possible(
                        self@,
                        url@,
                        crate::script::value::request_value(
                            method@,
                            url@,
                            crate::http::headers_view(headers@),
                        ),
                        outcomes,
                    )
                    &&& r@ == run_of(paths(self@.scripts), outcomes)
                },
    {
        proof {
            use_type_invariant(self);
        }
        let ghost request = crate::script::value::request_value(
            method@,
            url@,
            crate::http::headers_view(headers@),
        );
        let ghost mut outcomes: Seq<Outcome> = seq![];
        let ghost all = paths(self@.scripts);
        let mut warnings: Vec<String> = Vec::new();
        let mut i: usize = 0;
        assert(crate::text::texts(warnings@) =~= seq![]);
        while i < self.scripts.len()
            invariant
                self.bounded(),
                i <= self.scripts@.len(),
                request == crate::script::value::request_value(
                    method@,
                    url@,
                    crate::http::headers_view(headers@),
                ),
                all == paths(self@.scripts),
                all.len() == self.scripts@.len(),
                outcomes.len() == i,
                forall|j: int|
                    0 <= j < i ==> may_happen(
                        self@,
                        self@.scripts[j],
                        url@,
                        request,
                        #[trigger] outcomes[j],
                    ),
                forall|j: int| 0 <= j < i ==> verdict(all[j], #[trigger] outcomes[j]) is Next,
                run_of(all, outcomes) == (RunView {
                    action: ActionView::Passthrough,
                    warnings: crate::text::texts(warnings@),
                }),
            decreases self.scripts@.len() - i,
        {
            let entry = &self.scripts[i];
            assert(self@.scripts[i as int] == entry@);
            assert(all[i as int] == entry.path@);
            let ghost mut outcome = Outcome::Skipped;
            let ghost before = crate::text::texts(warnings@);
            if pattern_matches(&entry.pattern, url) {
                let argument = to_dynamic(&build_req_map(method, url, headers));
                let ghost mut whole: Option<Value> = None;
                let answer: Result<ScriptValue, String> = match call_function(
                    &self.rhai,
                    &entry.ast,
                    "handle",
                    argument,
                ) {
                    Ok(value) => {
                        proof {
                            whole = Some(dynamic_value(value));
                        }
                        Ok(from_dynamic(&value, READ_DEPTH))
                    },
                    Err(e) => Err(e.to_string()),
                };
                let settled = settle(entry.path.as_str(), &answer);
                proof {
                    outcome = outcome_of(answer);
                    assert(script_may_give(
                        entry@.source,
                        "handle"@,
                        self@.settings,
                        request,
                        whole,
                    ));
                    assert(may_happen(self@, entry@, url@, request, outcome));
                    lemma_run_push(all, outcomes, outcome);
                }
                match settled {
                    Settled::Decided(action) => {
                        proof {
                            assert(possible(self@, url@, request, outcomes.push(outcome)));
                        }
                        return ScriptRun { action, warnings };
                    },
                    Settled::Next(Some(w)) => {
                        warnings.push(w);
                        assert(crate::text::texts(warnings@) =~= before + seq![w@]);
                    },
                    Settled::Next(None) => {
                        assert(before + seq![] =~= before);
                    },
                }
            } else {
                proof {
                    lemma_run_push(all, outcomes, outcome);
                    assert(before + seq![] =~= before);
                }
            }
            proof {
                outcomes = outcomes.push(outcome);
            }
            i += 1;
        }
        proof {
            assert(possible(self@, url@, request, outcomes));
        }
        ScriptRun { action: ScriptAction::Passthrough, warnings }
    }

    /// The decision of [`ScriptEngine::evaluate`] alone.
    pub fn run(&self, method: &str, url: &str, headers: &[(String, String)]) -> (r: ScriptAction)
        ensures
            exists|outcomes: Seq<Outcome>|
                {
                    &&& #[trigger] possible(
                        self@,
                        url@,
                        crate::script::value::request_value(
                            method@,
                            url@,
                            crate::http::headers_view(headers@),
                        ),
                        outcomes,
                    )
                    &&& r@ == run_of(paths(self@.scripts), outcomes).action
                },
    {
        self.evaluate(method, url, headers).action
    }

    /// Whether no scripts are loaded.
    pub fn is_empty(&self) -> (r: bool)
        ensures
            r == (self@.scripts.len() == 0),
    {
        self.scripts.is_empty()
    }
}

impl Default for ScriptEngine {
    fn default() -> (r: ScriptEngine)
        ensures
            r@ == (EngineView { scripts: seq![], settings: EngineSettings::of_scripts() }),
    {
        ScriptEngine::new()
    }
}

} // verus!
