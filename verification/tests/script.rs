use hermes::script::action::{ScriptAction, ScriptError};
use hermes::script::engine::{consider, settle, FileStep, ScriptEngine, Settled};
use hermes::script::value::{
    build_req_map, dynamic_to_headers, parse_action, word_action, ScriptValue,
};

fn text(s: &str) -> ScriptValue {
    ScriptValue::Text(s.to_string())
}

fn pair(n: &str, v: &str) -> ScriptValue {
    ScriptValue::Array(vec![text(n), text(v)])
}

fn table(entries: Vec<(&str, ScriptValue)>) -> ScriptValue {
    ScriptValue::Table(entries.into_iter().map(|(k, v)| (k.to_string(), v)).collect())
}

fn invalid(r: Result<ScriptAction, ScriptError>) -> String {
    match r {
        Err(ScriptError::InvalidAction(e)) => e,
        _ => panic!("not an invalid action"),
    }
}

fn with(engine: ScriptEngine, stem: &str, source: &str) -> ScriptEngine {
    match consider(Some("rhai"), Some(stem)) {
        FileStep::Read(candidate) => {
            let path = format!("scripts/{}.rhai", stem);
            let (engine, log) = engine.add_script(candidate, &path, Ok(source.to_string()));
            assert_eq!(log, format!("[scripts] loaded: {} (pattern: {})", path, stem));
            engine
        }
        _ => panic!("not a script"),
    }
}

fn headers(list: &[(&str, &str)]) -> Vec<(String, String)> {
    list.iter().map(|(n, v)| (n.to_string(), v.to_string())).collect()
}

#[test]
fn words_are_actions_in_any_case() {
    assert!(matches!(parse_action(&text("passthrough")), Ok(ScriptAction::Passthrough)));
    assert!(matches!(parse_action(&text("PassThrough")), Ok(ScriptAction::Passthrough)));
    assert!(matches!(parse_action(&text("DROP")), Ok(ScriptAction::Drop)));
    assert_eq!(invalid(parse_action(&text("Stop"))), "unknown string action 'stop'");
    assert_eq!(invalid(parse_action(&text("ÄB"))), "unknown string action 'äb'");
}

#[test]
fn lower_case_words_are_actions() {
    assert!(matches!(word_action("passthrough"), Ok(ScriptAction::Passthrough)));
    assert!(matches!(word_action("drop"), Ok(ScriptAction::Drop)));
    assert_eq!(invalid(word_action("Drop")), "unknown string action 'Drop'");
}

#[test]
fn tables_replace_headers() {
    let v = table(vec![
        ("modify_headers", ScriptValue::Array(vec![pair("A", "1"), pair("B", "2")])),
        ("mock", ScriptValue::Int(1)),
    ]);
    match parse_action(&v) {
        Ok(ScriptAction::ModifyHeaders(h)) => assert_eq!(h, headers(&[("A", "1"), ("B", "2")])),
        _ => panic!("no headers"),
    }
    let v = table(vec![("modify_headers", text("x"))]);
    assert_eq!(invalid(parse_action(&v)), "headers must be an array");
    let v = table(vec![("modify_headers", ScriptValue::Array(vec![text("x")]))]);
    assert_eq!(invalid(parse_action(&v)), "each header must be a [name, value] array");
    let bad = ScriptValue::Array(vec![ScriptValue::Array(vec![ScriptValue::Int(1), text("v")])]);
    let v = table(vec![("modify_headers", bad)]);
    assert_eq!(invalid(parse_action(&v)), "header name must be a string");
    let bad = ScriptValue::Array(vec![ScriptValue::Array(vec![text("n")])]);
    let v = table(vec![("modify_headers", bad)]);
    assert_eq!(invalid(parse_action(&v)), "header value must be a string");
}

#[test]
fn tables_mock_responses() {
    match parse_action(&table(vec![("mock", ScriptValue::Int(0))])) {
        Ok(ScriptAction::MockResponse { status, headers, body }) => {
            assert_eq!(status, 200);
            assert!(headers.is_empty());
            assert!(body.is_empty());
        }
        _ => panic!("no mock"),
    }
    let v = table(vec![
        ("mock", text("yes")),
        ("status", ScriptValue::Int(65536 + 418)),
        ("body", text("tée")),
        ("headers", ScriptValue::Array(vec![pair("X", "y")])),
    ]);
    match parse_action(&v) {
        Ok(ScriptAction::MockResponse { status, headers: h, body }) => {
            assert_eq!(status, 418);
            assert_eq!(h, headers(&[("X", "y")]));
            assert_eq!(body, "tée".as_bytes());
        }
        _ => panic!("no mock"),
    }
    let v = table(vec![("mock", ScriptValue::Int(1)), ("status", ScriptValue::Int(-1))]);
    assert!(matches!(parse_action(&v), Ok(ScriptAction::MockResponse { status: 65535, .. })));
    let v = table(vec![("mock", ScriptValue::Int(1)), ("status", text("404"))]);
    assert!(matches!(parse_action(&v), Ok(ScriptAction::MockResponse { status: 200, .. })));
    let v = table(vec![("mock", ScriptValue::Int(1)), ("headers", ScriptValue::Int(1))]);
    assert_eq!(invalid(parse_action(&v)), "headers must be an array");
}

#[test]
fn other_values_are_no_actions() {
    assert_eq!(
        invalid(parse_action(&table(vec![("status", ScriptValue::Int(1))]))),
        "map has neither 'modify_headers' nor 'mock' key"
    );
    assert_eq!(invalid(parse_action(&ScriptValue::Int(1))), "expected String or Map, got: \"i64\"");
    assert_eq!(
        invalid(parse_action(&ScriptValue::Other("()".to_string()))),
        "expected String or Map, got: \"()\""
    );
    assert!(dynamic_to_headers(&text("x")).is_err());
    assert!(dynamic_to_headers(&ScriptValue::Array(vec![])).unwrap().is_empty());
}

#[test]
fn requests_become_tables() {
    match build_req_map("GET", "http://a/", &headers(&[("N", "v")])) {
        ScriptValue::Table(entries) => {
            let get = |name: &str| &entries.iter().find(|(k, _)| k == name).unwrap().1;
            assert!(matches!(get("method"), ScriptValue::Text(s) if s == "GET"));
            assert!(matches!(get("url"), ScriptValue::Text(s) if s == "http://a/"));
            let sent = dynamic_to_headers(get("headers")).unwrap();
            assert_eq!(sent, headers(&[("N", "v")]));
            assert_eq!(entries.len(), 3);
        }
        _ => panic!("not a table"),
    }
}

#[test]
fn error_texts() {
    assert_eq!(ScriptError::Eval("e".to_string()).message(), "Rhai evaluation error: e");
    assert_eq!(ScriptError::Parse("e".to_string()).message(), "Rhai parse error: e");
    assert_eq!(
        ScriptError::InvalidAction("e".to_string()).message(),
        "Script returned an invalid action map: e"
    );
    assert_eq!(
        ScriptError::Io { path: "p".to_string(), source: "s".to_string() }.message(),
        "I/O error reading script 'p': s"
    );
}

#[test]
fn answers_settle_or_pass_on() {
    assert!(matches!(settle("p", &Ok(text("passthrough"))), Settled::Next(None)));
    assert!(matches!(settle("p", &Ok(text("drop"))), Settled::Decided(ScriptAction::Drop)));
    match settle("p", &Ok(text("no"))) {
        Settled::Next(Some(w)) => assert_eq!(
            w,
            "[scripts] invalid action from p: \
             Script returned an invalid action map: unknown string action 'no'"
        ),
        _ => panic!("settled"),
    }
    match settle("p", &Err("boom".to_string())) {
        Settled::Next(Some(w)) => assert_eq!(w, "[scripts] error in p: boom"),
        _ => panic!("settled"),
    }
}

#[test]
fn only_rhai_files_are_scripts() {
    assert!(matches!(consider(Some("txt"), Some("*")), FileStep::Skip));
    assert!(matches!(consider(None, Some("*")), FileStep::Skip));
    assert!(matches!(consider(Some("RHAI"), Some("*")), FileStep::Skip));
    assert!(matches!(consider(Some("rhai"), None), FileStep::Read(_)));
    match consider(Some("rhai"), Some("a[")) {
        FileStep::Warn(w) => {
            assert!(w.starts_with("[scripts] bad pattern in filename 'a[': "), "{}", w);
        }
        _ => panic!("a bad pattern was taken"),
    }
}

#[test]
fn scripts_that_do_not_load_are_logged() {
    let load = |source: Result<String, String>| match consider(Some("rhai"), Some("*")) {
        FileStep::Read(candidate) => ScriptEngine::new().add_script(candidate, "x.rhai", source),
        _ => panic!("not a script"),
    };
    let (engine, log) = load(Err("gone".to_string()));
    assert_eq!(log, "[scripts] cannot read x.rhai: gone");
    assert!(engine.is_empty());
    let (engine, log) = load(Ok("fn handle(req) {".to_string()));
    assert!(log.starts_with("[scripts] parse error in x.rhai: "), "{}", log);
    assert!(engine.is_empty());
    let (engine, _) = load(Ok("fn handle(req) { \"drop\" }".to_string()));
    assert!(!engine.is_empty());
}

#[test]
fn without_scripts_requests_pass() {
    let engine = ScriptEngine::default();
    assert!(engine.is_empty());
    assert!(matches!(engine.run("GET", "http://a/", &[]), ScriptAction::Passthrough));
}

const STRIP: &str = r#"
fn handle(req) {
  let new_headers = [];
  for pair in req.headers {
    if pair[0].to_lower() != "authorization" { new_headers.push(pair); }
  }
  return #{ modify_headers: new_headers };
}
"#;

const TEAPOT: &str = r#"
fn handle(req) {
  if req.method != "GET" { return "passthrough"; }
  return #{ mock: true, status: 418, body: "I'm a teapot (mocked by Hermes)" };
}
"#;

#[test]
fn a_script_strips_the_authorization_header() {
    let engine = with(ScriptEngine::new(), "*api.domain*", STRIP);
    let sent = headers(&[("Host", "api.domain"), ("Authorization", "secret"), ("X", "1")]);
    match engine.run("GET", "https://api.domain/v1", &sent) {
        ScriptAction::ModifyHeaders(h) => {
            assert_eq!(h, headers(&[("Host", "api.domain"), ("X", "1")]))
        }
        _ => panic!("headers were not replaced"),
    }
    assert!(matches!(
        engine.run("GET", "https://other.domain/v1", &sent),
        ScriptAction::Passthrough
    ));
}

#[test]
fn a_script_mocks_a_response() {
    let engine = with(ScriptEngine::new(), "*httpbin.org/status/*", TEAPOT);
    match engine.run("GET", "http://httpbin.org/status/200", &[]) {
        ScriptAction::MockResponse { status, headers, body } => {
            assert_eq!(status, 418);
            assert!(headers.is_empty());
            assert_eq!(body, b"I'm a teapot (mocked by Hermes)");
        }
        _ => panic!("nothing was mocked"),
    }
    assert!(matches!(
        engine.run("POST", "http://httpbin.org/status/200", &[]),
        ScriptAction::Passthrough
    ));
}

#[test]
fn patterns_see_the_full_url() {
    let engine = with(ScriptEngine::new(), "*://api.github.com/*", "fn handle(req) { \"drop\" }");
    assert!(matches!(engine.run("GET", "https://api.github.com/x", &[]), ScriptAction::Drop));
    assert!(matches!(
        engine.run("GET", "https://github.com/x", &[]),
        ScriptAction::Passthrough
    ));
    let engine = with(ScriptEngine::new(), "*", "fn handle(req) { req.url }");
    let run = engine.evaluate("GET", "http://a/stop", &[]);
    assert_eq!(
        run.warnings,
        vec![
            "[scripts] invalid action from scripts/*.rhai: \
             Script returned an invalid action map: unknown string action 'http://a/stop'"
                .to_string()
        ]
    );
}

#[test]
fn the_first_decision_stands() {
    let engine = with(ScriptEngine::new(), "*", "fn handle(req) { \"passthrough\" }");
    let engine = with(engine, "nowhere", "fn handle(req) { #{ mock: true } }");
    let engine = with(engine, "*a*", "fn handle(req) { \"drop\" }");
    let engine = with(engine, "**", "fn handle(req) { #{ mock: true } }");
    let run = engine.evaluate("GET", "http://a/", &[]);
    assert!(matches!(run.action, ScriptAction::Drop));
    assert!(run.warnings.is_empty());
    assert!(matches!(engine.run("GET", "http://b/", &[]), ScriptAction::MockResponse { .. }));
}

#[test]
fn failing_scripts_are_passed_over() {
    let engine = with(ScriptEngine::new(), "*", "fn other(req) { \"drop\" }");
    let engine = with(engine, "**", "fn handle(req) { throw \"no\" }");
    let engine = with(engine, "*?", "fn handle(req) { 42 }");
    let run = engine.evaluate("GET", "http://a/", &[]);
    assert!(matches!(run.action, ScriptAction::Passthrough));
    assert_eq!(run.warnings.len(), 3);
    assert!(run.warnings[0].starts_with("[scripts] error in scripts/*.rhai: "));
    assert!(run.warnings[1].starts_with("[scripts] error in scripts/**.rhai: "));
    assert_eq!(
        run.warnings[2],
        "[scripts] invalid action from scripts/*?.rhai: \
         Script returned an invalid action map: expected String or Map, got: \"i64\""
    );
}

#[test]
fn a_script_that_runs_away_is_stopped() {
    let engine = with(ScriptEngine::new(), "*", "fn handle(req) { loop { } }");
    let run = engine.evaluate("GET", "http://a/", &[]);
    assert!(matches!(run.action, ScriptAction::Passthrough));
    assert_eq!(run.warnings.len(), 1);
    assert!(run.warnings[0].contains("operations"), "{}", run.warnings[0]);
}

#[test]
fn values_that_are_no_answer_are_named() {
    let cases = [
        ("()", "()"), ("1.5", "f64"), ("'c'", "char"), ("true", "bool"), ("[1]", "array"),
        ("42", "i64"),
    ];
    for (value, kind) in cases {
        let source = format!("fn handle(req) {{ {} }}", value);
        let engine = with(ScriptEngine::new(), "*", &source);
        let run = engine.evaluate("GET", "http://a/", &[]);
        assert_eq!(
            run.warnings,
            vec![format!(
                "[scripts] invalid action from scripts/*.rhai: \
                 Script returned an invalid action map: expected String or Map, got: \"{}\"",
                kind
            )]
        );
    }
}

#[test]
fn answers_are_read_in_full() {
    let source = "fn handle(req) { #{ mock: true, status: 201, body: \"b\", \
                  headers: [[\"A\", \"1\"], [\"B\", \"2\", [3]]], other: [[[[1]]]] } }";
    let engine = with(ScriptEngine::new(), "*", source);
    match engine.run("GET", "http://a/", &[]) {
        ScriptAction::MockResponse { status, headers: h, body } => {
            assert_eq!(status, 201);
            assert_eq!(h, headers(&[("A", "1"), ("B", "2")]));
            assert_eq!(body, b"b");
        }
        _ => panic!("nothing was mocked"),
    }
}

#[test]
fn scripts_cannot_sleep() {
    for call in [
        "sleep(9223372036854775807)", "sleep(1e30)", "sleep(1000)", "Fn(\"sleep\").call(1e30)",
        "Fn(\"sleep\").call(9223372036854775807)",
    ] {
        let source = format!("fn handle(req) {{ {}; \"drop\" }}", call);
        let engine = with(ScriptEngine::new(), "*", &source);
        assert!(matches!(engine.run("GET", "http://a/", &[]), ScriptAction::Drop), "{}", call);
    }
}

#[test]
fn scripts_cannot_ask_for_too_much() {
    for expression in [
        "blob(9223372036854775807)", "let s = \"\"; s.pad(9223372036854775807, 'x')",
        "let s = \"x\"; loop { s += s; }", "let a = []; loop { a.push(1); }",
        "let m = #{}; let i = 0; loop { m[i.to_string()] = i; i += 1; }",
        "let a = []; loop { a = [a]; }", "let m = #{}; loop { m = #{m: m}; }", "handle(req)",
        "let a = [0]; loop { a[0] = a; }", "let m = #{}; loop { m.m = m; }",
    ] {
        let source = format!("fn handle(req) {{ {}; \"drop\" }}", expression);
        let engine = with(ScriptEngine::new(), "*", &source);
        let run = engine.evaluate("GET", "http://a/", &[]);
        assert!(matches!(run.action, ScriptAction::Passthrough), "{}", expression);
        assert_eq!(run.warnings.len(), 1);
    }
}

#[test]
fn some_functions_are_not_available() {
    for expression in [
        "let s = \"a\"; s.pad(5, \"\")", "let s = \"a\"; s.pad(5, \"xy\")",
        "let s = \"a\"; pad(s, 5, \"\")", "let s = \"a\"; Fn(\"pad\").call(s, 5, \"\")",
        "let a = []; a.pad(9223372036854775807, 0)", "let a = [1]; a.pad(3, \"x\")",
        "let a = []; Fn(\"pad\").call(a, 3, 'x')", "let a = [2.0, 0.0/0.0, 1.0]; a.sort()",
        "let a = [2, 1]; a.sort_desc()", "let a = [2, 1]; order(a)", "let a = [2, 1]; a.order_desc()",
        "let a = [2, 1]; Fn(\"sort\").call(a)", "parse_json(\"{}\")", "\"{}\".parse_json()",
        "Fn(\"parse_json\").call(\"{}\")", "print([1])", "debug([1])", "[1].to_string()",
        "[1].to_debug()", "print(#{a: 1})", "debug(#{a: 1})", "#{a: 1}.to_string()",
        "#{a: 1}.to_debug()", "let x = [1] == [1]", "let x = [1] != [1]",
        "let x = #{a: 1} == #{a: 1}", "let x = #{a: 1} != #{a: 1}", "let x = [1] in [[1]]",
        "let x = [[1]].index_of([1])",
    ] {
        let source = format!("fn handle(req) {{ {}; \"drop\" }}", expression);
        let engine = with(ScriptEngine::new(), "*", &source);
        let run = engine.evaluate("GET", "http://a/", &[]);
        assert!(matches!(run.action, ScriptAction::Passthrough), "{}", expression);
        assert_eq!(run.warnings.len(), 1);
        assert!(run.warnings[0].contains("this function is not available"), "{}", run.warnings[0]);
    }
}

#[test]
fn their_neighbours_are_available() {
    for condition in [
        "let s = \"a\"; s.pad(3, 'x'); s == \"axx\"",
        "let a = [3, 1, 2]; a.sort(\"by_size\"); a[0] == 1 && a[1] == 2 && a[2] == 3",
        "let a = [1, 2, 3]; a.filter(Fn(\"is_odd\")).len() == 2",
        "let a = [\"x\", 1]; `${a}` == \"[\\\"x\\\", 1]\"", "\"b\" in [\"a\", \"b\"]",
        "#{a: 1}.to_json() == \"{\\\"a\\\":1}\"", "1.5 == 1.5 && 'a' != 'b'",
    ] {
        let (before, last) = condition.rsplit_once("; ").unwrap_or(("", condition));
        let source = format!(
            "fn by_size(a, b) {{ a - b }} fn is_odd(n) {{ n % 2 == 1 }} \
             fn handle(req) {{ {}; if {} {{ \"drop\" }} else {{ \"passthrough\" }} }}",
            before, last
        );
        let engine = with(ScriptEngine::new(), "*", &source);
        let run = engine.evaluate("GET", "http://a/", &[]);
        assert!(run.warnings.is_empty(), "{:?}", run.warnings);
        assert!(matches!(run.action, ScriptAction::Drop), "{}", condition);
    }
}

#[test]
fn what_nests_deep_is_let_go() {
    let nested = "let a = []; for i in 0..39 { let b = [[[a]]]; b = [[[b]]]; b = [[[b]]]; a = #{a: b}; }";
    let wrapped = |depth: usize, inner: &str| {
        format!("{} {} {}", "id(1 + ".repeat(depth), inner, ")".repeat(depth))
    };
    for last in ["let b = [a]; 0", "let s = `${a}`; 0", "let s = a.to_json(); 0", "throw a"] {
        let thrown = last == "throw a";
        let functions = format!(
            "fn id(n) {{ n }} fn f(n, a) {{ if n == 0 {{ {} }} else {{ {} }} }} ",
            last,
            wrapped(9, "f(n - 1, a)")
        );
        for source in [
            format!("{} fn handle(req) {{ {} f(3, a); \"drop\" }}", functions, nested),
            format!(
                "{} {} let z = {}; fn handle(req) {{ \"drop\" }}",
                functions, nested, wrapped(20, "f(4, a)")
            ),
        ] {
            let engine = with(ScriptEngine::new(), "*", &source);
            let run = engine.evaluate("GET", "http://a/", &[]);
            assert_eq!(matches!(run.action, ScriptAction::Drop), !thrown, "{}", last);
            assert_eq!(run.warnings.len(), if thrown { 1 } else { 0 });
        }
    }
}

#[test]
fn a_script_handles_many_headers() {
    let engine = with(ScriptEngine::new(), "*", STRIP);
    let mut sent: Vec<(String, String)> = Vec::new();
    for i in 0..119 {
        sent.push((format!("X-{}", i), "v".to_string()));
    }
    let kept = sent.clone();
    sent.push(("AUTHORIZATION".to_string(), "secret".to_string()));
    match engine.run("GET", "http://a/", &sent) {
        ScriptAction::ModifyHeaders(h) => assert_eq!(h, kept),
        _ => panic!("headers were not replaced"),
    }
}

#[test]
fn scripts_cannot_nest_scripts() {
    for source in [
        "fn handle(req) { let s = \"eval(s)\"; eval(s) }",
        "import \"other\" as o; fn handle(req) { \"drop\" }",
        "fn handle(req) { let f = |x| x; \"drop\" }",
        "fn handle(req) { let f = || 1; \"drop\" }",
        "fn id(x) { x } fn handle(req) { let f = Fn(\"id\").curry(1); \"drop\" }",
        "fn id(x) { x } fn handle(req) { let f = curry(Fn(\"id\"), 1); \"drop\" }",
    ] {
        match consider(Some("rhai"), Some("*")) {
            FileStep::Read(candidate) => {
                let (engine, log) =
                    ScriptEngine::new().add_script(candidate, "x.rhai", Ok(source.to_string()));
                assert!(log.starts_with("[scripts] parse error in x.rhai: "), "{}", log);
                assert!(engine.is_empty());
            }
            _ => panic!("not a script"),
        }
    }
}

#[test]
fn long_patterns_are_refused() {
    let long = "a*".repeat(513);
    match consider(Some("rhai"), Some(&long)) {
        FileStep::Warn(w) => assert_eq!(
            w,
            format!("[scripts] bad pattern in filename '{}': the pattern is too long", long)
        ),
        _ => panic!("a long pattern was taken"),
    }
    assert!(matches!(consider(Some("txt"), Some(&long)), FileStep::Skip));
    let engine = with(ScriptEngine::new(), &"a*".repeat(512), "fn handle(req) { \"drop\" }");
    assert!(matches!(engine.run("GET", &"a".repeat(512), &[]), ScriptAction::Drop));
    assert!(matches!(engine.run("GET", &"a".repeat(511), &[]), ScriptAction::Passthrough));
    assert!(matches!(engine.run("GET", &"ab".repeat(2000), &[]), ScriptAction::Drop));
}

#[test]
fn a_word_may_hold_a_slash() {
    let engine = with(ScriptEngine::new(), "*/api/*", "fn handle(req) { \"drop\" }");
    assert!(matches!(engine.run("GET", "http://a/api/b", &[]), ScriptAction::Drop));
    assert!(matches!(engine.run("GET", "http://a/apib", &[]), ScriptAction::Passthrough));
}
