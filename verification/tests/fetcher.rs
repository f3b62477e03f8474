use v8_matrix::bindings::native_console_log;
use v8_matrix::event_loop::{LoopAction, LoopEvent, OpState, PromiseState};
use v8_matrix::fetch::{
    build_fetch_response_object, do_fetch, fetch_outcome, header_text, FetchReply,
};
use v8_matrix::fetcher::{
    build_ctx_object, build_env_object, build_request_object, default_method, CallOutcome,
    Fetcher, FetcherAction, FetcherEvent, HandlerProbe, HandlerPromise, RequestOutcome,
    ScriptSource,
};
use v8_matrix::json::{json_to_v8, JsValue, Json, JsonNumber};
use v8_matrix::response::{
    is_pair, BodyPromise, HeaderItem, ReadAction, ReadEvent, ResponseReader, TextCall,
};
use v8_matrix::script::{
    execute_js, run_script, wrap_module, Evaluation, ScriptOutcome, MODULE_HEAD, MODULE_TAIL,
    TIMER_SHIM,
};
use v8_matrix::{execute_fetcher, BindingValue, FetcherConfig, JsRequest, ResourceLimits};

fn integer(i: i64) -> Json {
    Json::Number(JsonNumber { as_i64: Some(i), as_f64_bits: Some((i as f64).to_bits()) })
}

fn config() -> FetcherConfig {
    FetcherConfig {
        script: "module.exports = { fetch() {} };".to_string(),
        request: JsRequest {
            url: "https://example.com/incoming".to_string(),
            method: default_method(),
            headers: vec![("authorization".to_string(), "Bearer tok_123".to_string())],
            body: None,
        },
        bindings: vec![
            (
                "API_BASE".to_string(),
                BindingValue::Text("https://api.example.com".to_string()),
            ),
            (
                "CONFIG".to_string(),
                BindingValue::Json(Json::Object(vec![("retries".to_string(), integer(3))])),
            ),
        ],
        limits: ResourceLimits::default(),
    }
}

/// The name and value of each property.
fn fields(v: &JsValue) -> Vec<(String, String)> {
    match v {
        JsValue::Object(o) => o.iter().map(|(k, v)| (k.clone(), format!("{v:?}"))).collect(),
        _ => panic!("no object"),
    }
}

fn failure(action: FetcherAction) -> String {
    match action {
        FetcherAction::Finish { result } => result.unwrap_err(),
        _ => panic!("the run goes on"),
    }
}

fn done(now: u64) -> FetcherEvent {
    FetcherEvent::Script { outcome: ScriptOutcome::Done, now }
}

/// A run up to the call of its handler.
fn called(config: FetcherConfig, ops: &mut OpState) -> Fetcher {
    let (mut run, _) = execute_fetcher(config);
    run.step(ops, FetcherEvent::Client { error: None, now: 1_000_000 });
    run.step(ops, FetcherEvent::Isolate);
    for now in [2_000_000, 3_000_000, 4_000_000, 5_000_000, 6_500_900, 9_000_000] {
        run.step(ops, done(now));
    }
    run.step(ops, FetcherEvent::Handler { probe: HandlerProbe::Found });
    let action = run.step(ops, FetcherEvent::Request { outcome: RequestOutcome::Built });
    assert!(matches!(action, FetcherAction::Call { freeze_env: true, .. }));
    run
}

fn read(event: ReadEvent, now: u64) -> FetcherEvent {
    FetcherEvent::Read { event, now }
}

/// Reads a response with the given body to its end.
fn answer(run: &mut Fetcher, ops: &mut OpState, body: &str, now: u64) -> FetcherAction {
    run.step(ops, read(ReadEvent::Object { is_object: true }, now));
    run.step(ops, read(ReadEvent::Status { status: Some(201) }, now));
    run.step(ops, read(ReadEvent::Iterator { found: false }, now));
    let call = TextCall::Value { text: body.to_string() };
    run.step(ops, read(ReadEvent::Text { call }, now))
}

#[test]
fn limits_have_defaults() {
    let limits = ResourceLimits::default();
    assert_eq!(limits.max_duration_ms, 30_000);
    assert_eq!(limits.max_heap_bytes, 256 * 1024 * 1024);
    assert_eq!(limits.max_event_loop_iterations, 10_000);
    assert_eq!(default_method(), "GET");
}

#[test]
fn a_run_sets_everything_up_in_order() {
    let mut ops = OpState::new();
    let (mut run, action) = execute_fetcher(config());
    match action {
        FetcherAction::CreateClient { user_agent, timeout_ms } => {
            assert_eq!(user_agent, "v8-matrix/0.1");
            assert_eq!(timeout_ms, 30_000);
        }
        _ => panic!("no client"),
    }
    match run.step(&mut ops, FetcherEvent::Client { error: None, now: 0 }) {
        FetcherAction::CreateIsolate { heap_limit, deadline, natives } => {
            assert_eq!(heap_limit, Some(256 * 1024 * 1024));
            assert_eq!(deadline, 30_000_000_000);
            assert_eq!(natives.len(), 6);
        }
        _ => panic!("no isolate"),
    }
    let mut action = run.step(&mut ops, FetcherEvent::Isolate);
    let mut names = Vec::new();
    loop {
        match action {
            FetcherAction::RunScript { filename, source } => {
                names.push(filename);
                match source {
                    ScriptSource::Bootstrap => assert!(names.len() <= 4),
                    ScriptSource::Text(text) if names.len() == 5 => assert_eq!(text, TIMER_SHIM),
                    ScriptSource::Text(text) => {
                        assert_eq!(text, wrap_module("module.exports = { fetch() {} };"))
                    }
                }
            }
            FetcherAction::FindHandler => break,
            _ => panic!("no script"),
        }
        action = run.step(&mut ops, done(0));
    }
    assert_eq!(
        names,
        [
            "00_primordials.js",
            "01_fetch.js",
            "02_encoding.js",
            "03_console.js",
            "timer_shim.js",
            "user_script.js",
        ]
    );
}

#[test]
fn no_heap_limit_means_the_default() {
    let mut ops = OpState::new();
    let mut c = config();
    c.limits.max_heap_bytes = 0;
    let (mut run, _) = execute_fetcher(c);
    match run.step(&mut ops, FetcherEvent::Client { error: None, now: 0 }) {
        FetcherAction::CreateIsolate { heap_limit, .. } => assert_eq!(heap_limit, None),
        _ => panic!("no isolate"),
    }
}

#[test]
fn a_client_that_cannot_be_made_ends_the_run() {
    let mut ops = OpState::new();
    let (mut run, _) = execute_fetcher(config());
    let event = FetcherEvent::Client { error: Some("no tls".to_string()), now: 0 };
    assert_eq!(failure(run.step(&mut ops, event)), "Failed to create HTTP client: no tls");
}

#[test]
fn a_failing_script_ends_the_run() {
    let mut ops = OpState::new();
    let (mut run, _) = execute_fetcher(config());
    run.step(&mut ops, FetcherEvent::Client { error: None, now: 0 });
    run.step(&mut ops, FetcherEvent::Isolate);
    run.step(&mut ops, done(0));
    let outcome = ScriptOutcome::Failed { exception: Some("TypeError: x".to_string()) };
    let action = run.step(&mut ops, FetcherEvent::Script { outcome, now: 0 });
    assert_eq!(failure(action), "01_fetch.js: TypeError: x");
}

#[test]
fn scripts_report_what_went_wrong() {
    let f = "user_script.js";
    let oops = || Some("SyntaxError: oops".to_string());
    assert_eq!(run_script(f, ScriptOutcome::Done), Ok(()));
    assert_eq!(
        run_script(f, ScriptOutcome::NoSource),
        Err("Failed to create source string for user_script.js".to_string())
    );
    assert_eq!(
        run_script(f, ScriptOutcome::NotCompiled { exception: oops() }),
        Err("user_script.js: SyntaxError: oops".to_string())
    );
    assert_eq!(
        run_script(f, ScriptOutcome::NotCompiled { exception: None }),
        Err("Failed to compile user_script.js".to_string())
    );
    assert_eq!(
        run_script(f, ScriptOutcome::Failed { exception: oops() }),
        Err("user_script.js: SyntaxError: oops".to_string())
    );
    assert_eq!(
        run_script(f, ScriptOutcome::Failed { exception: None }),
        Err("user_script.js: execution failed".to_string())
    );
}

#[test]
fn modules_are_wrapped() {
    let wrapped = wrap_module("exports.default = 1;");
    assert_eq!(wrapped, format!("{MODULE_HEAD}exports.default = 1;{MODULE_TAIL}"));
    assert!(wrapped.contains("return __module.exports || __exports.default || __exports;"));
}

#[test]
fn default_exports_are_rewritten() {
    assert_eq!(
        wrap_module("\n  export default { fetch() {} }"),
        format!("{MODULE_HEAD}\n  __exports.default = {{ fetch() {{}} }}{MODULE_TAIL}")
    );
    assert_eq!(
        wrap_module("export default{}"),
        format!("{MODULE_HEAD}__exports.default ={{}}{MODULE_TAIL}")
    );
    for front in [
        "\u{feff}",
        "// a worker\n",
        "// one\r// two\u{2028}",
        "/* a * b / **/ ",
        "\u{feff}/* a\n */ // b\n\t",
        "/**/",
    ] {
        assert_eq!(
            wrap_module(&format!("{front}export default 1")),
            format!("{MODULE_HEAD}{front}__exports.default = 1{MODULE_TAIL}")
        );
    }
    for other in [
        "// export default 1",
        "/* export default 1",
        "/*/ export default 1",
        "/ export default 1",
        "/",
        "//",
    ] {
        assert_eq!(wrap_module(other), format!("{MODULE_HEAD}{other}{MODULE_TAIL}"));
    }
    for other in ["export defaults", "export default$", "export const a = 1", "exports default"] {
        assert_eq!(wrap_module(other), format!("{MODULE_HEAD}{other}{MODULE_TAIL}"));
    }
}

#[test]
fn any_whitespace_parts_the_words_of_an_export() {
    for gap in ["  ", "\t", "\n", "\r\n    ", "\u{a0}", "\u{feff}", "/* the handler */", " // it\n "] {
        assert_eq!(
            wrap_module(&format!("export{gap}default 1")),
            format!("{MODULE_HEAD}__exports.default = 1{MODULE_TAIL}")
        );
    }
    for gap in ["", "_", " const ", " /* ", " // "] {
        let other = format!("export{gap}default 1");
        assert_eq!(wrap_module(&other), format!("{MODULE_HEAD}{other}{MODULE_TAIL}"));
    }
}

#[test]
fn default_exports_are_found_behind_other_code() {
    for front in [
        "x; ",
        "const a = 1\n",
        "function f(a, b) { return a / b; }\n",
        "class A { static b = { c: [1, (2)] } }\n",
        "const s = 'it\\'s', t = \"/*\";",
        "const s = 'a\\\r\nb';",
        "const t = `a ${ { b: `}${c}` } } \\` // `;",
        "const r = /[/\"]\\/'/g, q = (1 + 2) / 3 / 4;",
        "if (a) /\"/.test(b);",
        "for await (const a of b) /'/.test(a);",
        "a.if (b) / 2 / c;",
        "n++ / 2; m-- / 2;",
        "while (n --> 0) {}\n",
        "// export default 0\n",
        "/* export default 0 */ ;",
        "<!-- export default 0 'x\n",
        "const s = 'export default 0';",
        "const t = `export default 0`;",
        "({ a() { export default 0 } });",
        "a.export;",
        "export const a = 1;\n",
        "typeof /\"/;",
        "x = a[0] / 2;",
    ] {
        assert_eq!(
            wrap_module(&format!("{front}export default {{ fetch() {{}} }} // '")),
            format!("{MODULE_HEAD}{front}__exports.default = {{ fetch() {{}} }} // '{MODULE_TAIL}")
        );
    }
}

#[test]
fn only_default_exports_at_the_top_level_are_rewritten() {
    for other in [
        "{ export default 1 }",
        "f(export default 1)",
        "[export default 1",
        "'export default 1'",
        "\"a\\\" export default 1",
        "`${ export default 1 }`",
        "/[/] export default 1/",
        "a.export default 1",
        "'a\nexport default 1",
        "/a\nexport default 1",
        ") export default 1",
        "(] export default 1",
        "await / export default 1 /",
    ] {
        assert_eq!(wrap_module(other), format!("{MODULE_HEAD}{other}{MODULE_TAIL}"));
    }
    assert_eq!(
        wrap_module("export default 1; export default 2"),
        format!("{MODULE_HEAD}__exports.default = 1; export default 2{MODULE_TAIL}")
    );
}

#[test]
fn a_handler_must_be_found() {
    for (probe, message) in [
        (HandlerProbe::NotAnObject, "Worker module did not return an object"),
        (HandlerProbe::NoFetch, "Worker module has no 'fetch' export"),
        (HandlerProbe::NotAFunction, "Worker 'fetch' export is not a function"),
    ] {
        let mut ops = OpState::new();
        let (mut run, _) = execute_fetcher(config());
        run.step(&mut ops, FetcherEvent::Client { error: None, now: 0 });
        run.step(&mut ops, FetcherEvent::Isolate);
        for _ in 0..6 {
            run.step(&mut ops, done(0));
        }
        assert_eq!(failure(run.step(&mut ops, FetcherEvent::Handler { probe })), message);
    }
}

#[test]
fn a_request_must_be_built() {
    for (outcome, message) in [
        (RequestOutcome::Missing, "Request constructor not found"),
        (RequestOutcome::NotAFunction, "Request is not a constructor"),
        (RequestOutcome::Failed, "Failed to construct Request object"),
    ] {
        let mut ops = OpState::new();
        let (mut run, _) = execute_fetcher(config());
        run.step(&mut ops, FetcherEvent::Client { error: None, now: 0 });
        run.step(&mut ops, FetcherEvent::Isolate);
        for _ in 0..6 {
            run.step(&mut ops, done(0));
        }
        match run.step(&mut ops, FetcherEvent::Handler { probe: HandlerProbe::Found }) {
            FetcherAction::BuildRequest { url, init } => {
                assert_eq!(url, "https://example.com/incoming");
                assert_eq!(fields(&init).len(), 2);
            }
            _ => panic!("no request"),
        }
        assert_eq!(failure(run.step(&mut ops, FetcherEvent::Request { outcome })), message);
    }
}

#[test]
fn requests_carry_method_headers_and_body() {
    let mut request = config().request;
    let init = build_request_object(&request);
    assert_eq!(
        fields(&init),
        [
            ("method".to_string(), r#"Text("GET")"#.to_string()),
            (
                "headers".to_string(),
                r#"Object([("authorization", Text("Bearer tok_123"))])"#.to_string()
            ),
        ]
    );
    request.body = Some("hi".to_string());
    let init = build_request_object(&request);
    assert_eq!(fields(&init)[2], ("body".to_string(), r#"Text("hi")"#.to_string()));
}

#[test]
fn env_holds_the_bindings() {
    let env = build_env_object(&config().bindings).unwrap();
    assert_eq!(
        fields(&env),
        [
            ("API_BASE".to_string(), r#"Text("https://api.example.com")"#.to_string()),
            ("CONFIG".to_string(), r#"Object([("retries", Integer(3))])"#.to_string()),
        ]
    );
    assert_eq!(build_ctx_object(), ["waitUntil", "passThroughOnException"]);
}

#[test]
fn unsupported_numbers_end_the_run() {
    let odd = Json::Number(JsonNumber { as_i64: None, as_f64_bits: None });
    let bindings = vec![("X".to_string(), BindingValue::Json(Json::Array(vec![odd])))];
    assert_eq!(build_env_object(&bindings).unwrap_err(), "Unsupported number value");
    let mut c = config();
    c.bindings = bindings;
    let mut ops = OpState::new();
    let (mut run, _) = execute_fetcher(c);
    run.step(&mut ops, FetcherEvent::Client { error: None, now: 0 });
    run.step(&mut ops, FetcherEvent::Isolate);
    for _ in 0..6 {
        run.step(&mut ops, done(0));
    }
    run.step(&mut ops, FetcherEvent::Handler { probe: HandlerProbe::Found });
    let event = FetcherEvent::Request { outcome: RequestOutcome::Built };
    assert_eq!(failure(run.step(&mut ops, event)), "Unsupported number value");
}

#[test]
fn json_values_are_converted() {
    let half = Json::Number(JsonNumber { as_i64: None, as_f64_bits: Some(0.5f64.to_bits()) });
    let value = Json::Array(vec![
        Json::Null,
        Json::Bool(true),
        integer(-2),
        half,
        Json::Text("t".to_string()),
        Json::Object(vec![("k".to_string(), Json::Array(Vec::new()))]),
    ]);
    let expected = format!(
        r#"Array([Null, Bool(true), Integer(-2), Double({}), Text("t"), Object([("k", Array([]))])])"#,
        0.5f64.to_bits()
    );
    assert_eq!(format!("{:?}", json_to_v8(&value).unwrap()), expected);
}

#[test]
fn a_handler_may_throw() {
    for (exception, message) in
        [(Some("Error: no".to_string()), "Error: no"), (None, "fetch() threw an exception")]
    {
        let mut ops = OpState::new();
        let mut run = called(config(), &mut ops);
        let outcome = CallOutcome::Threw { exception };
        let event = FetcherEvent::Called { outcome, started: 0, now: 0 };
        assert_eq!(failure(run.step(&mut ops, event)), message);
    }
}

#[test]
fn a_value_is_the_response() {
    let mut ops = OpState::new();
    native_console_log(&mut ops, "log".to_string(), "hello".to_string());
    let mut run = called(config(), &mut ops);
    let outcome = CallOutcome::Value;
    let event = FetcherEvent::Called { outcome, started: 9_100_000, now: 9_600_000 };
    let action = run.step(&mut ops, event);
    assert!(matches!(action, FetcherAction::Read { action: ReadAction::CheckObject }));
    let result = match answer(&mut run, &mut ops, "body", 10_000_999) {
        FetcherAction::Finish { result } => result.unwrap(),
        _ => panic!("the run goes on"),
    };
    assert_eq!(result.response.status, 201);
    assert_eq!(result.response.body, "body");
    assert_eq!(result.metrics.setup_us, 5500);
    assert_eq!(result.metrics.compile_us, 2499);
    assert_eq!(result.metrics.execute_us, 500);
    assert_eq!(result.metrics.total_us, 10_000);
    assert_eq!(result.metrics.fetch_count, 0);
    assert_eq!(result.metrics.event_loop_iterations, 0);
    assert_eq!(result.metrics.console_output, [("log".to_string(), "hello".to_string())]);
}

#[test]
fn a_run_reports_what_happened() {
    let mut ops = OpState::new();
    let print = |ops: &mut OpState, text: &str| {
        ops.console_output.push(("log".to_string(), text.to_string()));
    };
    print(&mut ops, "first");
    let mut run = called(config(), &mut ops);
    print(&mut ops, "second");
    ops.fetch_count += 1;
    let event = FetcherEvent::Called { outcome: CallOutcome::Promise, started: 0, now: 0 };
    run.step(&mut ops, event);
    ops.pending_ops.push(v8_matrix::event_loop::PendingOp::Timer {
        id: 1,
        deadline: 0,
        callback: 3,
    });
    for _ in 0..2 {
        let pending = LoopEvent::Promise { state: PromiseState::Pending, now: 0 };
        run.step(&mut ops, FetcherEvent::Loop { event: pending });
        run.step(&mut ops, FetcherEvent::Loop { event: LoopEvent::Fetched { outcomes: vec![] } });
        run.step(&mut ops, FetcherEvent::Loop { event: LoopEvent::Clock { now: 0 } });
        print(&mut ops, "timer");
        ops.fetch_count += 1;
        ops.pending_ops.push(v8_matrix::event_loop::PendingOp::Timer {
            id: 2,
            deadline: 0,
            callback: 3,
        });
        run.step(&mut ops, FetcherEvent::Loop { event: LoopEvent::Settled });
    }
    let fulfilled = LoopEvent::Promise { state: PromiseState::Fulfilled, now: 0 };
    run.step(&mut ops, FetcherEvent::Loop { event: fulfilled });
    run.step(&mut ops, FetcherEvent::Promise { state: HandlerPromise::Fulfilled, now: 0 });
    print(&mut ops, "last");
    let metrics = match answer(&mut run, &mut ops, "", 0) {
        FetcherAction::Finish { result } => result.unwrap().metrics,
        _ => panic!("the run goes on"),
    };
    let printed: Vec<&str> = metrics.console_output.iter().map(|(_, t)| t.as_str()).collect();
    assert_eq!(printed, ["first", "second", "timer", "timer", "last"]);
    assert_eq!(metrics.fetch_count, 3);
    assert_eq!(metrics.event_loop_iterations, 2);
}

#[test]
fn a_promise_is_driven_to_its_end() {
    let mut ops = OpState::new();
    let mut run = called(config(), &mut ops);
    ops.pending_ops.push(v8_matrix::event_loop::PendingOp::Timer {
        id: 1,
        deadline: 0,
        callback: 3,
    });
    ops.fetch_count = 2;
    let outcome = CallOutcome::Promise;
    let event = FetcherEvent::Called { outcome, started: 9_000_000, now: 9_000_000 };
    let action = run.step(&mut ops, event);
    assert!(matches!(action, FetcherAction::Loop { action: LoopAction::Checkpoint }));
    let mut tell = |run: &mut Fetcher, event| run.step(&mut ops, FetcherEvent::Loop { event });
    tell(&mut run, LoopEvent::Promise { state: PromiseState::Pending, now: 9_000_000 });
    tell(&mut run, LoopEvent::Fetched { outcomes: Vec::new() });
    tell(&mut run, LoopEvent::Clock { now: 9_000_000 });
    tell(&mut run, LoopEvent::Settled);
    let action =
        tell(&mut run, LoopEvent::Promise { state: PromiseState::Fulfilled, now: 9_000_000 });
    assert!(matches!(action, FetcherAction::ReadPromise));
    let event = FetcherEvent::Promise { state: HandlerPromise::Fulfilled, now: 12_000_000 };
    run.step(&mut ops, event);
    let result = match answer(&mut run, &mut ops, "", 12_000_000) {
        FetcherAction::Finish { result } => result.unwrap(),
        _ => panic!("the run goes on"),
    };
    assert_eq!(result.metrics.execute_us, 3000);
    assert_eq!(result.metrics.event_loop_iterations, 1);
    assert_eq!(result.metrics.fetch_count, 2);
    let parts = result.metrics.setup_us + result.metrics.compile_us + result.metrics.execute_us;
    assert!(parts <= result.metrics.total_us);
}

const LATE: &str = "Event loop exceeded max duration (50 ms)";
const LIMIT: u64 = 50_000_000;

fn hurried() -> FetcherConfig {
    let mut c = config();
    c.limits.max_duration_ms = 50;
    c
}

#[test]
fn a_timer_past_the_limit_does_not_save_the_run() {
    let mut ops = OpState::new();
    let mut run = called(hurried(), &mut ops);
    ops.pending_ops.push(v8_matrix::event_loop::PendingOp::Timer {
        id: 1,
        deadline: 1_000_000_000,
        callback: 3,
    });
    let outcome = CallOutcome::Promise;
    run.step(&mut ops, FetcherEvent::Called { outcome, started: 0, now: 0 });
    let mut tell = |run: &mut Fetcher, event| run.step(&mut ops, FetcherEvent::Loop { event });
    tell(&mut run, LoopEvent::Promise { state: PromiseState::Pending, now: 0 });
    tell(&mut run, LoopEvent::Fetched { outcomes: Vec::new() });
    let action = tell(&mut run, LoopEvent::Clock { now: 0 });
    assert!(matches!(
        action,
        FetcherAction::Loop { action: LoopAction::SleepUntil { deadline: LIMIT } }
    ));
    tell(&mut run, LoopEvent::Clock { now: 1_000_000_000 });
    tell(&mut run, LoopEvent::Settled);
    let state = PromiseState::Fulfilled;
    let action = tell(&mut run, LoopEvent::Promise { state, now: 1_000_000_000 });
    assert!(matches!(action, FetcherAction::ReadPromise));
    let event = FetcherEvent::Promise { state: HandlerPromise::Fulfilled, now: 1_000_000_000 };
    assert_eq!(failure(run.step(&mut ops, event)), LATE);
}

#[test]
fn late_results_are_not_accepted() {
    for promise in [false, true] {
        for (now, late) in [(LIMIT - 1, false), (LIMIT, true)] {
            let outcome = if promise { CallOutcome::Promise } else { CallOutcome::Value };
            let mut ops = OpState::new();
            let mut run = called(hurried(), &mut ops);
            let action = run.step(&mut ops, FetcherEvent::Called { outcome, started: 0, now });
            if late {
                assert_eq!(failure(action), LATE);
            } else {
                assert!(!matches!(action, FetcherAction::Finish { .. }));
            }
        }
    }
}

#[test]
fn late_responses_are_not_accepted() {
    for (now, late) in [(LIMIT - 1, false), (LIMIT, true), (10_000_000_000, true)] {
        let mut ops = OpState::new();
        native_console_log(&mut ops, "log".to_string(), "x".to_string());
        let mut run = called(hurried(), &mut ops);
        let outcome = CallOutcome::Value;
        run.step(&mut ops, FetcherEvent::Called { outcome, started: 0, now: 0 });
        match answer(&mut run, &mut ops, "body", now) {
            FetcherAction::Finish { result } if late => assert_eq!(result.unwrap_err(), LATE),
            FetcherAction::Finish { result } => assert_eq!(result.unwrap().response.body, "body"),
            _ => panic!("the run goes on"),
        }
        assert_eq!(ops.console_output.is_empty(), !late);
    }
}

#[test]
fn the_last_binding_counts() {
    let bind = |v: &str| ("K".to_string(), BindingValue::Text(v.to_string()));
    let env = build_env_object(&vec![bind("old"), bind("new")]).unwrap();
    assert_eq!(fields(&env).last().unwrap().1, r#"Text("new")"#);
}

#[test]
fn configurations_can_be_cloned() {
    let c = config();
    assert_eq!(format!("{:?}", c.clone()), format!("{c:?}"));
}

#[test]
fn different_json_values_stay_apart() {
    let array = |items: Vec<Json>| format!("{:?}", json_to_v8(&Json::Array(items)).unwrap());
    let values = [
        array(vec![]),
        array(vec![Json::Null]),
        array(vec![Json::Null, Json::Null]),
        array(vec![Json::Array(vec![])]),
        array(vec![Json::Object(vec![])]),
        array(vec![Json::Object(vec![("a".to_string(), Json::Null)])]),
        array(vec![Json::Object(vec![("b".to_string(), Json::Null)])]),
        array(vec![Json::Text(String::new())]),
        array(vec![integer(0)]),
        array(vec![Json::Bool(false)]),
    ];
    for (i, a) in values.iter().enumerate() {
        for b in &values[i + 1..] {
            assert_ne!(a, b);
        }
    }
}

#[test]
fn an_event_loop_that_fails_ends_the_run() {
    let mut ops = OpState::new();
    let mut run = called(config(), &mut ops);
    let event = FetcherEvent::Called { outcome: CallOutcome::Promise, started: 0, now: 0 };
    run.step(&mut ops, event);
    let pending = || FetcherEvent::Loop {
        event: LoopEvent::Promise { state: PromiseState::Pending, now: 0 },
    };
    run.step(&mut ops, pending());
    assert_eq!(
        failure(run.step(&mut ops, pending())),
        "Event loop stalled: promise pending with no ops"
    );

    let mut c = config();
    c.limits.max_event_loop_iterations = 0;
    let mut run = called(c, &mut ops);
    let event = FetcherEvent::Called { outcome: CallOutcome::Promise, started: 0, now: 0 };
    assert_eq!(failure(run.step(&mut ops, event)), "Event loop exceeded max iterations (0)");
}

#[test]
fn a_promise_may_be_rejected() {
    for (state, message) in [
        (
            HandlerPromise::Rejected { reason: "Error: bad".to_string() },
            "fetch() rejected: Error: bad",
        ),
        (HandlerPromise::Pending, "fetch() promise never resolved"),
    ] {
        let mut ops = OpState::new();
        let mut run = called(config(), &mut ops);
        let event = FetcherEvent::Called { outcome: CallOutcome::Promise, started: 0, now: 0 };
        run.step(&mut ops, event);
        let event = LoopEvent::Promise { state: PromiseState::Rejected, now: 0 };
        run.step(&mut ops, FetcherEvent::Loop { event });
        let event = FetcherEvent::Promise { state, now: 0 };
        assert_eq!(failure(run.step(&mut ops, event)), message);
    }
}

#[test]
fn a_run_ends_with_an_unreadable_response() {
    let mut ops = OpState::new();
    let mut run = called(config(), &mut ops);
    let event = FetcherEvent::Called { outcome: CallOutcome::Value, started: 0, now: 0 };
    run.step(&mut ops, event);
    let event = read(ReadEvent::Object { is_object: false }, 0);
    assert_eq!(failure(run.step(&mut ops, event)), "fetch() did not return an object");
}

fn reader_at_body() -> ResponseReader {
    let (mut r, _) = ResponseReader::new();
    r.step(ReadEvent::Object { is_object: true });
    r.step(ReadEvent::Status { status: None });
    assert!(matches!(r.step(ReadEvent::Iterator { found: false }), ReadAction::CallText));
    r
}

fn body_failure(action: ReadAction) -> String {
    match action {
        ReadAction::Finish { result } => result.unwrap_err(),
        _ => panic!("the reader goes on"),
    }
}

#[test]
fn headers_are_read_up_to_the_end() {
    let (mut r, action) = ResponseReader::new();
    assert!(matches!(action, ReadAction::CheckObject));
    assert!(matches!(r.step(ReadEvent::Object { is_object: true }), ReadAction::ReadStatus));
    let action = r.step(ReadEvent::Status { status: Some(70_000) });
    assert!(matches!(action, ReadAction::OpenHeaders));
    assert!(matches!(r.step(ReadEvent::Iterator { found: true }), ReadAction::NextHeader));
    let pair = |k: &str| Some((k.to_string(), "v".to_string()));
    for p in [pair("a"), None, pair("b")] {
        let action = r.step(ReadEvent::Header { item: HeaderItem::Entry { pair: p } });
        assert!(matches!(action, ReadAction::NextHeader));
    }
    let action = r.step(ReadEvent::Header { item: HeaderItem::End });
    assert!(matches!(action, ReadAction::CallText));
    assert_eq!([0, 1, 2, 3].map(is_pair), [false, false, true, true]);
    let call = TextCall::Value { text: "x".to_string() };
    match r.step(ReadEvent::Text { call }) {
        ReadAction::Finish { result } => {
            let response = result.unwrap();
            assert_eq!(response.status, 4464);
            let names: Vec<&str> = response.headers.iter().map(|h| h.0.as_str()).collect();
            assert_eq!(names, ["a", "b"]);
            assert_eq!(response.body, "x");
        }
        _ => panic!("the reader goes on"),
    }
}

#[test]
fn unreadable_headers_end_the_list() {
    let (mut r, _) = ResponseReader::new();
    r.step(ReadEvent::Object { is_object: true });
    r.step(ReadEvent::Status { status: None });
    r.step(ReadEvent::Iterator { found: true });
    let action = r.step(ReadEvent::Header { item: HeaderItem::Unreadable });
    assert!(matches!(action, ReadAction::CallText));
    assert_eq!(r.status, 200);
}

#[test]
fn a_body_needs_a_text_function() {
    for (call, message) in [
        (TextCall::Missing, "Response has no text() method"),
        (TextCall::NotAFunction, "Response.text is not a function"),
        (TextCall::Failed, "Response.text() call failed"),
    ] {
        assert_eq!(body_failure(reader_at_body().step(ReadEvent::Text { call })), message);
    }
}

#[test]
fn a_body_may_be_rejected_at_first() {
    let mut r = reader_at_body();
    let action = r.step(ReadEvent::Text { call: TextCall::Promise });
    assert!(matches!(action, ReadAction::Checkpoint));
    let promise = BodyPromise::Rejected { reason: "gone".to_string() };
    assert_eq!(
        body_failure(r.step(ReadEvent::Body { promise })),
        "Response.text() rejected: gone"
    );
}

#[test]
fn a_late_rejection_counts_as_unresolved() {
    let mut r = reader_at_body();
    r.step(ReadEvent::Text { call: TextCall::Promise });
    r.step(ReadEvent::Body { promise: BodyPromise::Pending });
    let promise = BodyPromise::Rejected { reason: "gone".to_string() };
    assert_eq!(
        body_failure(r.step(ReadEvent::Body { promise })),
        "Response.text() never resolved"
    );
}

#[test]
fn a_body_has_eleven_chances() {
    for patience in [1, 10, 11] {
        let mut r = reader_at_body();
        r.step(ReadEvent::Text { call: TextCall::Promise });
        for _ in 0..patience - 1 {
            let action = r.step(ReadEvent::Body { promise: BodyPromise::Pending });
            assert!(matches!(action, ReadAction::Checkpoint));
        }
        if patience < 11 {
            let promise = BodyPromise::Fulfilled { text: "late".to_string() };
            match r.step(ReadEvent::Body { promise }) {
                ReadAction::Finish { result } => assert_eq!(result.unwrap().body, "late"),
                _ => panic!("the reader goes on"),
            }
        } else {
            let action = r.step(ReadEvent::Body { promise: BodyPromise::Pending });
            assert_eq!(body_failure(action), "Response.text() never resolved");
        }
    }
}

#[test]
fn fetches_need_a_method() {
    let r = do_fetch("http://a".to_string(), "PURGE", Vec::new(), Some("b".to_string())).unwrap();
    assert_eq!(r.method.as_str(), "PURGE");
    assert_eq!(r.url, "http://a");
    assert_eq!(r.body.as_deref(), Some("b"));
    for bad in ["", "GE T", "é", "G\u{7f}"] {
        let e = do_fetch("u".to_string(), bad, Vec::new(), None).map(|_| ()).unwrap_err();
        assert_eq!(e, "Invalid HTTP method: invalid HTTP method");
    }
}

#[test]
fn every_method_character_is_accepted() {
    for u in 0..128u8 {
        let name = (u as char).to_string();
        let accepted = do_fetch(String::new(), &name, Vec::new(), None).is_ok();
        assert_eq!(accepted, http::Method::from_bytes(name.as_bytes()).is_ok(), "{u}");
    }
}

#[test]
fn header_values_are_shown_if_visible() {
    for b in 0..=255u8 {
        let bytes = vec![b'a', b];
        let shown = match http::HeaderValue::from_bytes(&bytes) {
            Ok(v) => v.to_str().unwrap_or("").to_string(),
            Err(_) => continue,
        };
        assert_eq!(header_text(&bytes), shown, "{b}");
    }
}

#[test]
fn replies_become_responses() {
    let reply = FetchReply::Response {
        status: 404,
        headers: vec![("x".to_string(), b"y".to_vec()), ("z".to_string(), vec![0xff])],
        body: "nothing".to_string(),
    };
    let r = fetch_outcome(reply).unwrap();
    assert_eq!(r.status, 404);
    assert_eq!(r.status_text, "Not Found");
    assert_eq!(r.headers[0], ("x".to_string(), "y".to_string()));
    assert_eq!(r.headers[1], ("z".to_string(), String::new()));
    let shown = fields(&build_fetch_response_object(&r));
    assert_eq!(shown[0], ("status".to_string(), "Integer(404)".to_string()));
    assert_eq!(shown[1], ("statusText".to_string(), r#"Text("Not Found")"#.to_string()));
    assert_eq!(
        shown[2],
        (
            "headers".to_string(),
            r#"Array([Array([Text("x"), Text("y")]), Array([Text("z"), Text("")])])"#.to_string()
        )
    );
    assert_eq!(shown[3], ("body".to_string(), r#"Text("nothing")"#.to_string()));
}

#[test]
fn unknown_statuses_have_no_phrase() {
    for status in [799, 42, 0] {
        let reply = FetchReply::Response { status, headers: Vec::new(), body: String::new() };
        assert_eq!(fetch_outcome(reply).unwrap().status_text, "");
    }
}

#[test]
fn failed_fetches_say_why() {
    let e = fetch_outcome(FetchReply::SendFailed { error: "dns".to_string() });
    assert_eq!(e.map(|_| ()).unwrap_err(), "fetch failed: dns");
    let e = fetch_outcome(FetchReply::BodyFailed { error: "eof".to_string() });
    assert_eq!(e.map(|_| ()).unwrap_err(), "Failed to read response body: eof");
}

#[test]
fn scripts_are_evaluated_on_their_own() {
    let value = Evaluation::Value { text: "3 hello from V8!".to_string() };
    assert_eq!(execute_js(value), Ok("3 hello from V8!".to_string()));
    for (evaluation, message) in [
        (Evaluation::NoSource, "failed to create source string"),
        (Evaluation::NotCompiled, "failed to compile script"),
        (Evaluation::Failed, "script execution failed"),
        (Evaluation::NoText, "failed to convert result to string"),
    ] {
        assert_eq!(execute_js(evaluation), Err(message.to_string()));
    }
}
