//! Running a fetcher: a JavaScript module whose `fetch(request, env, ctx)`
//! answers a request.
//!
//! [`execute_fetcher`] starts a run. The run says what the script engine is to do
//! next ([`FetcherAction`]) and is told what came of it ([`FetcherEvent`]): set the
//! globals up, compile the module, find its handler, build the arguments, call
//! the handler, drive the event loop until the promise settles, and read the
//! response. Times are nanoseconds since the start of the run.

use vstd::prelude::*;

use crate::bindings;
use crate::bindings::{install_bindings, Native};
use crate::clock;
use crate::clock::{duration_limit, micros};
use crate::event_loop;
use crate::event_loop::{run_event_loop, time_exceeded, EventLoop, LoopAction, LoopEvent, OpState};
use crate::json;
use crate::json::{js_object, js_text, json_to_v8, JsValue, JsView, Json};
use crate::response;
use crate::response::{
    BodyPromise, HeaderItem, JsResponse, ReadAction, ReadEvent, ResponseReader, TextCall,
};
use crate::script;
use crate::script::{run_script, wrap_module, ScriptOutcome, TIMER_SHIM};
use crate::text;
use crate::text::join2;

verus! {

/// A value that can be bound to `env.<name>` in the worker.
#[derive(Debug, Clone)]
pub enum BindingValue {
    /// Plain string: `env.API_KEY` is `"sk-..."`
    Text(String),
    /// JSON value: `env.CONFIG` is `{ "retries": 3 }`
    Json(Json),
}

/// Incoming request passed to the worker's `fetch(request, env, ctx)`.
#[derive(Debug, Clone)]
pub struct JsRequest {
    pub url: String,
    pub method: String,
    pub headers: Vec<(String, String)>,
    pub body: Option<String>,
}

/// The method of a request that does not name one.
pub fn default_method() -> (s: String)
    ensures
        s@ == "GET"@,
{
    "GET".to_string()
}

/// Resource limits for a single execution.
#[derive(Debug, Clone, Copy)]
pub struct ResourceLimits {
    /// Maximum wall-clock time in milliseconds.
    pub max_duration_ms: u64,
    /// Maximum heap size in bytes (0 = the engine's default).
    pub max_heap_bytes: usize,
    /// Maximum event loop iterations.
    pub max_event_loop_iterations: usize,
}

impl Default for ResourceLimits {
    /// Half a minute, 256 MiB and ten thousand iterations.
    fn default() -> (l: Self)
        ensures
            l.max_duration_ms == 30_000,
            l.max_heap_bytes == 256 * 1024 * 1024,
            l.max_event_loop_iterations == 10_000,
    {
        ResourceLimits {
            max_duration_ms: 30_000,
            max_heap_bytes: 256 * 1024 * 1024,
            max_event_loop_iterations: 10_000,
        }
    }
}

/// Configuration for a fetcher workload execution.
#[derive(Debug, Clone)]
pub struct FetcherConfig {
    /// The user's JavaScript module source code.
    pub script: String,
    /// Incoming request to pass as the first argument.
    pub request: JsRequest,
    /// Environment bindings accessible as `env.<key>`. Of several with the same
    /// name the last counts.
    pub bindings: Vec<(String, BindingValue)>,
    /// Resource limits for the execution.
    pub limits: ResourceLimits,
}

/// Detailed metrics from a fetcher execution.
#[derive(Debug, Clone)]
pub struct FetcherMetrics {
    /// Time to set up the isolate and bootstrap globals (microseconds).
    pub setup_us: u128,
    /// Time to compile and evaluate the user script (microseconds).
    pub compile_us: u128,
    /// Time spent in the event loop executing the fetch handler (microseconds).
    pub execute_us: u128,
    /// Total wall-clock time (microseconds).
    pub total_us: u128,
    /// Number of outbound fetch calls made by the script.
    pub fetch_count: usize,
    /// Number of event loop iterations.
    pub event_loop_iterations: usize,
    /// Console output collected: (level, message).
    pub console_output: Vec<(String, String)>,
}

/// The result of a fetcher execution.
#[derive(Debug)]
pub struct FetcherResult {
    pub response: JsResponse,
    pub metrics: FetcherMetrics,
}

// ---- the arguments of the handler ----

/// The headers of a request as the fields of an object.
pub open spec fn header_fields(headers: Seq<(Seq<char>, Seq<char>)>) -> Seq<(Seq<char>, JsView)> {
    headers.map_values(|h: (Seq<char>, Seq<char>)| (h.0, JsView::Text(h.1)))
}

/// The second argument of the `Request` constructor: method, headers, and the
/// body if there is one.
pub open spec fn request_init(req: JsRequest) -> JsView {
    let fields = seq![
        ("method"@, JsView::Text(req.method@)),
        ("headers"@, JsView::Object(header_fields(req.headers.deep_view()))),
    ];
    JsView::Object(
        match req.body {
            Some(body) => fields.push(("body"@, JsView::Text(body@))),
            None => fields,
        },
    )
}

/// Builds the second argument of the `Request` constructor; the first is the
/// URL.
pub fn build_request_object(req: &JsRequest) -> (v: JsValue)
    ensures
        v@ == request_init(*req),
{
    let mut header_values: Vec<(String, JsValue)> = Vec::new();
    for i in 0..req.headers.len()
        invariant
            json::js_fields(header_values@) == header_fields(
                req.headers.deep_view().take(i as int),
            ),
    {
        let (k, v) = &req.headers[i];
        let ghost before = header_values@;
        let ghost seen = req.headers.deep_view().take(i as int);
        header_values.push((k.clone(), js_text(v)));
        assert(json::js_fields(header_values@) =~= json::js_fields(before).push(
            (k@, JsView::Text(v@)),
        ));
        assert(req.headers.deep_view().take(i + 1) =~= seen.push((k@, v@)));
        assert(header_fields(seen.push((k@, v@))) =~= header_fields(seen).push(
            (k@, JsView::Text(v@)),
        ));
    }
    assert(req.headers.deep_view().take(req.headers@.len() as int) =~= req.headers.deep_view());
    let mut fields: Vec<(String, JsValue)> = Vec::new();
    fields.push(("method".to_string(), js_text(&req.method)));
    fields.push(("headers".to_string(), js_object(header_values)));
    if let Some(body) = &req.body {
        fields.push(("body".to_string(), js_text(body)));
    }
    assert(json::js_fields(fields@) =~= request_init(*req)->Object_0);
    js_object(fields)
}

/// What came of constructing the `Request`.
#[derive(Clone, Copy, PartialEq, Eq, Structural, Debug)]
pub enum RequestOutcome {
    /// There is no global `Request`.
    Missing,
    /// The global `Request` is not a function.
    NotAFunction,
    /// The constructor failed.
    Failed,
    /// The object exists; the engine keeps it.
    Built,
}

/// Whether every binding can be handed to the script engine.
pub open spec fn bindings_supported(b: Seq<(String, BindingValue)>) -> bool {
    forall|i: int|
        0 <= i < b.len() ==> ((#[trigger] b[i]).1 matches BindingValue::Json(j) ==> json::supported(j))
}

/// The value of a binding.
pub open spec fn binding_view(b: BindingValue) -> JsView {
    match b {
        BindingValue::Text(s) => JsView::Text(s@),
        BindingValue::Json(j) => json::js_of(j),
    }
}

/// The fields of `env`: one for each binding, in order.
pub open spec fn env_fields(b: Seq<(String, BindingValue)>) -> Seq<(Seq<char>, JsView)> {
    b.map_values(|p: (String, BindingValue)| (p.0@, binding_view(p.1)))
}

/// Builds `env`, which is frozen before the script sees it. It fails if a
/// binding holds a number that the engine cannot take.
pub fn build_env_object(bindings: &Vec<(String, BindingValue)>) -> (r: Result<JsValue, String>)
    ensures
        r is Ok <==> bindings_supported(bindings@),
        r matches Ok(v) ==> v@ == JsView::Object(env_fields(bindings@)),
        r matches Err(e) ==> e@ == "Unsupported number value"@,
{
    let mut fields: Vec<(String, JsValue)> = Vec::new();
    for i in 0..bindings.len()
        invariant
            json::js_fields(fields@) == env_fields(bindings@.take(i as int)),
            bindings_supported(bindings@.take(i as int)),
    {
        let (key, value) = &bindings[i];
        let ghost before = fields@;
        let ghost seen = bindings@.take(i as int);
        assert(bindings@.take(i + 1) =~= seen.push(bindings@[i as int]));
        let v = match value {
            BindingValue::Text(s) => js_text(s),
            BindingValue::Json(j) => match json_to_v8(j) {
                Ok(v) => v,
                Err(e) => {
                    assert(!(bindings@[i as int].1 matches BindingValue::Json(j) ==> json::supported(j)));
                    return Err(e);
                },
            },
        };
        fields.push((key.clone(), v));
        assert(json::js_fields(fields@) =~= json::js_fields(before).push((key@, v@)));
        assert(env_fields(seen.push(bindings@[i as int])) =~= env_fields(seen).push(
            (key@, binding_view(*value)),
        ));
    }
    assert(bindings@.take(bindings@.len() as int) =~= bindings@);
    Ok(js_object(fields))
}

/// Builds `ctx`: the names of its functions, none of which does anything.
pub fn build_ctx_object() -> (names: Vec<&'static str>)
    ensures
        names@.len() == 2,
        names@[0]@ == "waitUntil"@,
        names@[1]@ == "passThroughOnException"@,
{
    let mut names: Vec<&'static str> = Vec::new();
    names.push("waitUntil");
    names.push("passThroughOnException");
    names
}

// ---- the run ----

/// The name of the client in outbound requests.
pub const USER_AGENT: &'static str = "v8-matrix/0.1";

/// Where the text of a script comes from.
pub enum ScriptSource {
    /// It is part of the program, under the name of the file.
    Bootstrap,
    /// It is given.
    Text(String),
}

/// Where the handler was looked for.
#[derive(Clone, Copy, PartialEq, Eq, Structural, Debug)]
pub enum HandlerProbe {
    /// The module's value is not an object.
    NotAnObject,
    /// The object has no property `fetch`.
    NoFetch,
    /// The property is not a function.
    NotAFunction,
    /// The handler was found; the engine keeps it.
    Found,
}

/// What came of calling the handler.
pub enum CallOutcome {
    /// It threw, with this exception if there is one.
    Threw { exception: Option<String> },
    /// It returned something other than a promise.
    Value,
    /// It returned a promise.
    Promise,
}

/// What has become of the handler's promise.
pub enum HandlerPromise {
    Pending,
    Fulfilled,
    Rejected { reason: String },
}

/// Where a run stands.
pub enum FetcherPhase {
    /// The HTTP client is being made.
    Client,
    /// The isolate is being made.
    Isolate,
    /// A script is running.
    Script { index: usize },
    /// The handler is looked for.
    Handler,
    /// The request is being built.
    Request,
    /// The handler is being called.
    Calling,
    /// The event loop is running.
    Looping { event_loop: EventLoop },
    /// The event loop has ended; the promise is looked at.
    Settling,
    /// The response is being read.
    Reading { reader: ResponseReader },
    Finished,
}

/// What a run is told.
#[allow(inconsistent_fields)]
pub enum FetcherEvent {
    /// The HTTP client is there, or why it is not; the time.
    Client { error: Option<String>, now: u64 },
    /// The isolate is there.
    Isolate,
    /// What came of the script; the time.
    Script { outcome: ScriptOutcome, now: u64 },
    Handler { probe: HandlerProbe },
    Request { outcome: RequestOutcome },
    /// What came of the call, which began at `started`; the time.
    Called { outcome: CallOutcome, started: u64, now: u64 },
    /// What the event loop is told.
    Loop { event: LoopEvent },
    Promise { state: HandlerPromise, now: u64 },
    /// What the reader of the response is told; the time.
    Read { event: ReadEvent, now: u64 },
}

/// What a run wants done next.
#[allow(inconsistent_fields)]
pub enum FetcherAction {
    /// Make an HTTP client that calls itself `user_agent` and gives up on a
    /// request after `timeout_ms` milliseconds.
    CreateClient { user_agent: &'static str, timeout_ms: u64 },
    /// Make an isolate with at most this much heap, in which these functions
    /// are global and which is stopped at the deadline.
    CreateIsolate {
        heap_limit: Option<usize>,
        deadline: u64,
        natives: Vec<(&'static str, Native)>,
    },
    /// Compile and run a script.
    RunScript { filename: &'static str, source: ScriptSource },
    /// Take the value of the last script, and its property `fetch`.
    FindHandler,
    /// Call the global constructor `Request` with these arguments.
    BuildRequest { url: String, init: JsValue },
    /// Make an object with the fields of `env`, frozen if asked, and one with the
    /// functions named in `ctx`, and call the handler with request, `env` and
    /// `ctx`; its `this` is the module that was exported.
    Call { env: JsValue, freeze_env: bool, ctx: Vec<&'static str> },
    /// Do what the event loop wants.
    Loop { action: LoopAction },
    /// Look at the promise.
    ReadPromise,
    /// Do what the reader of the response wants.
    Read { action: ReadAction },
    /// The run is over.
    Finish { result: Result<FetcherResult, String> },
}

/// What was measured so far.
#[derive(Clone, Copy, PartialEq, Eq, Structural, Debug)]
pub struct Timings {
    /// When the part that is being measured began.
    pub started: u64,
    pub setup_us: u128,
    pub compile_us: u128,
    pub execute_us: u128,
}

/// A run of one fetcher.
pub struct Fetcher {
    pub config: FetcherConfig,
    pub phase: FetcherPhase,
    pub times: Timings,
    /// How many rounds of the event loop are complete.
    pub iterations: usize,
}

/// The scripts of a run, in order: those that set the globals up, then the
/// user's module.
pub open spec fn script_name(index: int) -> Seq<char> {
    if index == 0 {
        "00_primordials.js"@
    } else if index == 1 {
        "01_fetch.js"@
    } else if index == 2 {
        "02_encoding.js"@
    } else if index == 3 {
        "03_console.js"@
    } else if index == 4 {
        "timer_shim.js"@
    } else {
        "user_script.js"@
    }
}

/// The place of the script that sets the timers up.
pub const SHIM: usize = 4;

/// The place of the user's module.
pub const USER_SCRIPT: usize = 5;

fn script_filename(index: usize) -> (name: &'static str)
    ensures
        name@ == script_name(index as int),
{
    if index == 0 {
        "00_primordials.js"
    } else if index == 1 {
        "01_fetch.js"
    } else if index == 2 {
        "02_encoding.js"
    } else if index == 3 {
        "03_console.js"
    } else if index == 4 {
        "timer_shim.js"
    } else {
        "user_script.js"
    }
}

/// The text of the script at `index`.
pub open spec fn is_source(config: FetcherConfig, index: int, source: ScriptSource) -> bool {
    if index < SHIM {
        source is Bootstrap
    } else if index == SHIM {
        source matches ScriptSource::Text(t) && t@ == TIMER_SHIM@
    } else {
        source matches ScriptSource::Text(t) && t@ == script::module_text(config.script@)
    }
}

pub open spec fn run_fails(a: FetcherAction, message: Seq<char>) -> bool {
    a matches FetcherAction::Finish { result } && result matches Err(e) && e@ == message
}

impl Fetcher {
    pub open spec fn wf(self) -> bool {
        match self.phase {
            FetcherPhase::Script { index } => index <= USER_SCRIPT,
            FetcherPhase::Looping { event_loop } => event_loop.wf() && !(event_loop.phase is Finished),
            FetcherPhase::Reading { reader } => reader.wf() && !(reader.phase is Finished),
            _ => true,
        }
    }

    /// Whether `event` answers what the run has asked for.
    pub open spec fn awaits(self, event: FetcherEvent) -> bool {
        match self.phase {
            FetcherPhase::Client => event is Client,
            FetcherPhase::Isolate => event is Isolate,
            FetcherPhase::Script { .. } => event is Script,
            FetcherPhase::Handler => event is Handler,
            FetcherPhase::Request => event is Request,
            FetcherPhase::Calling => event is Called,
            FetcherPhase::Looping { event_loop } => event matches FetcherEvent::Loop { event }
                && event_loop.awaits(event),
            FetcherPhase::Settling => event is Promise,
            FetcherPhase::Reading { reader } => event matches FetcherEvent::Read { event, .. }
                && reader.awaits(event),
            FetcherPhase::Finished => false,
        }
    }

    /// The run ends with this message.
    pub open spec fn ends_with(next: Self, action: FetcherAction, message: Seq<char>) -> bool {
        next.phase is Finished && run_fails(action, message)
    }

    /// Whether the wall-clock time of the run is used up at `now`.
    pub open spec fn is_late(self, now: u64) -> bool {
        now >= clock::time_limit(self.config.limits.max_duration_ms)
    }

    /// The run ends because its wall-clock time is used up.
    pub open spec fn times_out(self, next: Self, action: FetcherAction) -> bool {
        Self::ends_with(
            next,
            action,
            event_loop::out_of_time(self.config.limits.max_duration_ms),
        )
    }

    pub open spec fn after_client(
        self,
        error: Option<String>,
        now: u64,
        next: Self,
        action: FetcherAction,
    ) -> bool {
        match error {
            Some(e) => Self::ends_with(next, action, "Failed to create HTTP client: "@ + e@),
            None => {
                &&& next.phase is Isolate
                &&& next.times == Timings { started: now, ..self.times }
                &&& action matches FetcherAction::CreateIsolate { heap_limit, deadline, natives }
                &&& heap_limit == if self.config.limits.max_heap_bytes > 0 {
                    Some(self.config.limits.max_heap_bytes)
                } else {
                    None
                }
                &&& deadline == clock::time_limit(self.config.limits.max_duration_ms)
                &&& bindings::is_install_list(natives@)
            },
        }
    }

    /// The script at `index` is to be run.
    pub open spec fn runs(self, index: int, next: Self, action: FetcherAction) -> bool {
        &&& next.phase matches FetcherPhase::Script { index: i } && i == index
        &&& action matches FetcherAction::RunScript { filename, source }
        &&& filename@ == script_name(index)
        &&& is_source(self.config, index, source)
    }

    /// A script that failed ends the run. Otherwise the next one follows; after
    /// the globals are set up and after the user's module the time is taken.
    pub open spec fn after_script(
        self,
        index: int,
        outcome: ScriptOutcome,
        now: u64,
        next: Self,
        action: FetcherAction,
    ) -> bool {
        match script::script_report(script_name(index), outcome) {
            Some(message) => Self::ends_with(next, action, message),
            None => if index < USER_SCRIPT {
                &&& self.runs(index + 1, next, action)
                &&& next.times == if index == SHIM {
                    Timings {
                        setup_us: clock::elapsed_us(self.times.started, now),
                        started: now,
                        ..self.times
                    }
                } else {
                    self.times
                }
            } else {
                &&& next.phase is Handler
                &&& action is FindHandler
                &&& next.times == (Timings {
                    compile_us: clock::elapsed_us(self.times.started, now),
                    ..self.times
                })
            },
        }
    }

    pub open spec fn after_handler(
        self,
        probe: HandlerProbe,
        next: Self,
        action: FetcherAction,
    ) -> bool {
        match probe {
            HandlerProbe::NotAnObject => Self::ends_with(
                next,
                action,
                "Worker module did not return an object"@,
            ),
            HandlerProbe::NoFetch => Self::ends_with(
                next,
                action,
                "Worker module has no 'fetch' export"@,
            ),
            HandlerProbe::NotAFunction => Self::ends_with(
                next,
                action,
                "Worker 'fetch' export is not a function"@,
            ),
            HandlerProbe::Found => {
                &&& next.phase is Request
                &&& next.times == self.times
                &&& action matches FetcherAction::BuildRequest { url, init }
                &&& url@ == self.config.request.url@
                &&& init@ == request_init(self.config.request)
            },
        }
    }

    pub open spec fn after_request(
        self,
        outcome: RequestOutcome,
        next: Self,
        action: FetcherAction,
    ) -> bool {
        match outcome {
            RequestOutcome::Missing => Self::ends_with(
                next,
                action,
                "Request constructor not found"@,
            ),
            RequestOutcome::NotAFunction => Self::ends_with(
                next,
                action,
                "Request is not a constructor"@,
            ),
            RequestOutcome::Failed => Self::ends_with(
                next,
                action,
                "Failed to construct Request object"@,
            ),
            RequestOutcome::Built => if bindings_supported(self.config.bindings@) {
                &&& next.phase is Calling
                &&& next.times == self.times
                &&& action matches FetcherAction::Call { env, freeze_env, ctx }
                &&& freeze_env
                &&& env@ == JsView::Object(env_fields(self.config.bindings@))
                &&& ctx@.len() == 2
                &&& ctx@[0]@ == "waitUntil"@
                &&& ctx@[1]@ == "passThroughOnException"@
            } else {
                Self::ends_with(next, action, "Unsupported number value"@)
            },
        }
    }

    /// The response is read from the start.
    pub open spec fn starts_reading(next: Self, action: FetcherAction) -> bool {
        &&& next.phase matches FetcherPhase::Reading { reader }
        &&& reader.phase is Object
        &&& reader.headers@.len() == 0
        &&& action == FetcherAction::Read { action: ReadAction::CheckObject }
    }

    /// A value is the response; a promise is driven by the event loop. Neither is
    /// accepted once the wall-clock time is used up.
    pub open spec fn after_call(
        self,
        outcome: CallOutcome,
        started: u64,
        now: u64,
        next: Self,
        action: FetcherAction,
    ) -> bool {
        match outcome {
            CallOutcome::Threw { exception: Some(e) } => Self::ends_with(next, action, e@),
            CallOutcome::Threw { exception: None } => Self::ends_with(
                next,
                action,
                "fetch() threw an exception"@,
            ),
            CallOutcome::Value => if self.is_late(now) {
                self.times_out(next, action)
            } else {
                &&& Self::starts_reading(next, action)
                &&& next.times == (Timings {
                    started,
                    execute_us: clock::elapsed_us(started, now),
                    ..self.times
                })
            },
            CallOutcome::Promise => if self.is_late(now) {
                self.times_out(next, action)
            } else if self.config.limits.max_event_loop_iterations == 0 {
                Self::ends_with(next, action, event_loop::too_many_rounds(0))
            } else {
                &&& next.times == Timings { started, ..self.times }
                &&& next.phase matches FetcherPhase::Looping { event_loop }
                &&& event_loop.phase is Checkpoint
                &&& event_loop.iterations == 0
                &&& event_loop.max_iterations == self.config.limits.max_event_loop_iterations
                &&& event_loop.max_duration_ms == self.config.limits.max_duration_ms
                &&& action == FetcherAction::Loop { action: LoopAction::Checkpoint }
            },
        }
    }

    /// What a step of the event loop to `l` with `a` means for the run.
    pub open spec fn follows_loop(
        self,
        l: EventLoop,
        a: LoopAction,
        next: Self,
        action: FetcherAction,
    ) -> bool {
        &&& next.times == self.times
        &&& next.iterations == l.iterations
        &&& match a {
            LoopAction::Finish { result: Ok(()) } => next.phase is Settling && action is ReadPromise,
            LoopAction::Finish { result: Err(e) } => Self::ends_with(next, action, e@),
            _ => next.phase == FetcherPhase::Looping { event_loop: l } && action
                == FetcherAction::Loop { action: a },
        }
    }

    pub open spec fn after_promise(
        self,
        state: HandlerPromise,
        now: u64,
        next: Self,
        action: FetcherAction,
    ) -> bool {
        match state {
            HandlerPromise::Fulfilled => if self.is_late(now) {
                self.times_out(next, action)
            } else {
                &&& Self::starts_reading(next, action)
                &&& next.times == (Timings {
                    execute_us: clock::elapsed_us(self.times.started, now),
                    ..self.times
                })
            },
            HandlerPromise::Rejected { reason } => Self::ends_with(
                next,
                action,
                "fetch() rejected: "@ + reason@,
            ),
            HandlerPromise::Pending => Self::ends_with(
                next,
                action,
                "fetch() promise never resolved"@,
            ),
        }
    }

    /// What a run reports that ends with `response` at `now`.
    pub open spec fn reports(
        self,
        response: JsResponse,
        ops: OpState,
        now: u64,
        result: FetcherResult,
    ) -> bool {
        &&& result.response == response
        &&& result.metrics.setup_us == self.times.setup_us
        &&& result.metrics.compile_us == self.times.compile_us
        &&& result.metrics.execute_us == self.times.execute_us
        &&& result.metrics.total_us == clock::elapsed_us(0, now)
        &&& result.metrics.fetch_count == ops.fetch_count
        &&& result.metrics.event_loop_iterations == self.iterations
        &&& result.metrics.console_output@ == ops.console_output@
    }

    /// What a step of the reader to `r` with `a` means for the run. A response
    /// that comes too late is not accepted. The console output leaves the state
    /// of the run with the result.
    pub open spec fn follows_reader(
        self,
        r: ResponseReader,
        a: ReadAction,
        now: u64,
        ops: OpState,
        next: Self,
        ops2: OpState,
        action: FetcherAction,
    ) -> bool {
        match a {
            ReadAction::Finish { result: Ok(response) } => if self.is_late(now) {
                self.times_out(next, action) && ops2 == ops
            } else {
                &&& next.phase is Finished
                &&& action matches FetcherAction::Finish { result: Ok(result) }
                &&& self.reports(response, ops, now, result)
                &&& ops2.console_output@.len() == 0
                &&& ops2.pending_ops == ops.pending_ops
                &&& ops2.next_timer_id == ops.next_timer_id
                &&& ops2.cancelled_timers == ops.cancelled_timers
                &&& ops2.fetch_count == ops.fetch_count
            },
            ReadAction::Finish { result: Err(e) } => Self::ends_with(next, action, e@) && ops2 == ops,
            _ => {
                &&& next.phase == FetcherPhase::Reading { reader: r }
                &&& next.times == self.times
                &&& action == FetcherAction::Read { action: a }
                &&& ops2 == ops
            },
        }
    }

    /// What a step does.
    pub open spec fn steps(
        self,
        ops: OpState,
        event: FetcherEvent,
        next: Self,
        ops2: OpState,
        action: FetcherAction,
    ) -> bool {
        &&& next.config == self.config
        &&& !(event is Loop) ==> next.iterations == self.iterations
        &&& !(event is Loop || event is Read) ==> ops2 == ops
        &&& match (self.phase, event) {
            (FetcherPhase::Client, FetcherEvent::Client { error, now }) => self.after_client(
                error,
                now,
                next,
                action,
            ),
            (FetcherPhase::Isolate, FetcherEvent::Isolate) => self.runs(0, next, action)
                && next.times == self.times,
            (
                FetcherPhase::Script { index },
                FetcherEvent::Script { outcome, now },
            ) => self.after_script(index as int, outcome, now, next, action),
            (FetcherPhase::Handler, FetcherEvent::Handler { probe }) => self.after_handler(
                probe,
                next,
                action,
            ),
            (FetcherPhase::Request, FetcherEvent::Request { outcome }) => self.after_request(
                outcome,
                next,
                action,
            ),
            (
                FetcherPhase::Calling,
                FetcherEvent::Called { outcome, started, now },
            ) => self.after_call(outcome, started, now, next, action),
            (
                FetcherPhase::Looping { event_loop },
                FetcherEvent::Loop { event },
            ) => exists|l: EventLoop, a: LoopAction|
                #[trigger] event_loop.steps(ops, event, l, ops2, a) && self.follows_loop(
                    l,
                    a,
                    next,
                    action,
                ),
            (FetcherPhase::Settling, FetcherEvent::Promise { state, now }) => self.after_promise(
                state,
                now,
                next,
                action,
            ),
            (
                FetcherPhase::Reading { reader },
                FetcherEvent::Read { event, now },
            ) => exists|r: ResponseReader, a: ReadAction|
                #[trigger] reader.steps(event, r, a) && self.follows_reader(
                    r,
                    a,
                    now,
                    ops,
                    next,
                    ops2,
                    action,
                ),
            _ => false,
        }
    }

    fn take_phase(&mut self) -> (p: FetcherPhase)
        ensures
            p == old(self).phase,
            final(self).phase is Finished,
            final(self).config == old(self).config,
            final(self).times == old(self).times,
            final(self).iterations == old(self).iterations,
    {
        let mut p = FetcherPhase::Finished;
        core::mem::swap(&mut p, &mut self.phase);
        p
    }

    fn out_of_time(&self, now: u64) -> (b: bool)
        ensures
            b == self.is_late(now),
    {
        now >= duration_limit(self.config.limits.max_duration_ms)
    }

    fn time_out(&self) -> (action: FetcherAction)
        ensures
            run_fails(action, event_loop::out_of_time(self.config.limits.max_duration_ms)),
    {
        fail(time_exceeded(self.config.limits.max_duration_ms))
    }

    /// Lets the script at `index` run.
    fn run(&mut self, index: usize) -> (action: FetcherAction)
        requires
            index <= USER_SCRIPT,
        ensures
            old(self).runs(index as int, *final(self), action),
            final(self).config == old(self).config,
            final(self).times == old(self).times,
            final(self).iterations == old(self).iterations,
    {
        let source = if index < SHIM {
            ScriptSource::Bootstrap
        } else if index == SHIM {
            ScriptSource::Text(TIMER_SHIM.to_string())
        } else {
            ScriptSource::Text(wrap_module(self.config.script.as_str()))
        };
        self.phase = FetcherPhase::Script { index };
        FetcherAction::RunScript { filename: script_filename(index), source }
    }

    /// Starts reading the response.
    fn read(&mut self) -> (action: FetcherAction)
        ensures
            Self::starts_reading(*final(self), action),
            final(self).wf(),
            final(self).config == old(self).config,
            final(self).times == old(self).times,
            final(self).iterations == old(self).iterations,
    {
        let (reader, action) = ResponseReader::new();
        self.phase = FetcherPhase::Reading { reader };
        FetcherAction::Read { action }
    }

    /// Tells the run what came of its last action, and returns the next one.
    pub fn step(&mut self, ops: &mut OpState, event: FetcherEvent) -> (action: FetcherAction)
        requires
            old(self).wf(),
            old(self).awaits(event),
        ensures
            final(self).wf(),
            old(self).steps(*old(ops), event, *final(self), *final(ops), action),
            action is Finish <==> final(self).phase is Finished,
    {
        let phase = self.take_phase();
        match event {
            FetcherEvent::Client { error, now } => match error {
                Some(e) => fail(join2("Failed to create HTTP client: ", e.as_str())),
                None => {
                    self.times.started = now;
                    self.phase = FetcherPhase::Isolate;
                    let limits = &self.config.limits;
                    FetcherAction::CreateIsolate {
                        heap_limit: if limits.max_heap_bytes > 0 {
                            Some(limits.max_heap_bytes)
                        } else {
                            None
                        },
                        deadline: duration_limit(limits.max_duration_ms),
                        natives: install_bindings(),
                    }
                },
            },
            FetcherEvent::Isolate => self.run(0),
            FetcherEvent::Script { outcome, now } => {
                let index: usize = match phase {
                    FetcherPhase::Script { index } => index,
                    _ => vstd::pervasive::unreached(),
                };
                if let Err(e) = run_script(script_filename(index), outcome) {
                    return fail(e);
                }
                let spent = micros(self.times.started, now);
                if index < USER_SCRIPT {
                    if index == SHIM {
                        self.times.setup_us = spent;
                        self.times.started = now;
                    }
                    self.run(index + 1)
                } else {
                    self.times.compile_us = spent;
                    self.phase = FetcherPhase::Handler;
                    FetcherAction::FindHandler
                }
            },
            FetcherEvent::Handler { probe } => match probe {
                HandlerProbe::NotAnObject => fail(
                    "Worker module did not return an object".to_string(),
                ),
                HandlerProbe::NoFetch => fail("Worker module has no 'fetch' export".to_string()),
                HandlerProbe::NotAFunction => fail(
                    "Worker 'fetch' export is not a function".to_string(),
                ),
                HandlerProbe::Found => {
                    self.phase = FetcherPhase::Request;
                    let request = &self.config.request;
                    FetcherAction::BuildRequest {
                        url: request.url.clone(),
                        init: build_request_object(request),
                    }
                },
            },
            FetcherEvent::Request { outcome } => match outcome {
                RequestOutcome::Missing => fail("Request constructor not found".to_string()),
                RequestOutcome::NotAFunction => fail("Request is not a constructor".to_string()),
                RequestOutcome::Failed => fail("Failed to construct Request object".to_string()),
                RequestOutcome::Built => match build_env_object(&self.config.bindings) {
                    Ok(env) => {
                        self.phase = FetcherPhase::Calling;
                        FetcherAction::Call { env, freeze_env: true, ctx: build_ctx_object() }
                    },
                    Err(e) => fail(e),
                },
            },
            FetcherEvent::Called { outcome, started, now } => match outcome {
                CallOutcome::Threw { exception } => match exception {
                    Some(e) => fail(e),
                    None => fail("fetch() threw an exception".to_string()),
                },
                CallOutcome::Value => {
                    if self.out_of_time(now) {
                        return self.time_out();
                    }
                    self.times.started = started;
                    self.times.execute_us = micros(started, now);
                    self.read()
                },
                CallOutcome::Promise => {
                    if self.out_of_time(now) {
                        return self.time_out();
                    }
                    self.times.started = started;
                    let limits = &self.config.limits;
                    let (event_loop, action) = run_event_loop(
                        limits.max_event_loop_iterations,
                        limits.max_duration_ms,
                    );
                    match action {
                        LoopAction::Finish { result: Err(e) } => fail(e),
                        action => {
                            self.phase = FetcherPhase::Looping { event_loop };
                            FetcherAction::Loop { action }
                        },
                    }
                },
            },
            FetcherEvent::Loop { event } => {
                let mut event_loop = match phase {
                    FetcherPhase::Looping { event_loop } => event_loop,
                    _ => vstd::pervasive::unreached(),
                };
                let action = event_loop.step(ops, event);
                self.iterations = event_loop.iterations;
                match action {
                    LoopAction::Finish { result: Ok(()) } => {
                        self.phase = FetcherPhase::Settling;
                        FetcherAction::ReadPromise
                    },
                    LoopAction::Finish { result: Err(e) } => fail(e),
                    action => {
                        self.phase = FetcherPhase::Looping { event_loop };
                        FetcherAction::Loop { action }
                    },
                }
            },
            FetcherEvent::Promise { state, now } => match state {
                HandlerPromise::Fulfilled => {
                    if self.out_of_time(now) {
                        return self.time_out();
                    }
                    self.times.execute_us = micros(self.times.started, now);
                    self.read()
                },
                HandlerPromise::Rejected { reason } => fail(
                    join2("fetch() rejected: ", reason.as_str()),
                ),
                HandlerPromise::Pending => fail("fetch() promise never resolved".to_string()),
            },
            FetcherEvent::Read { event, now } => {
                let mut reader = match phase {
                    FetcherPhase::Reading { reader } => reader,
                    _ => vstd::pervasive::unreached(),
                };
                let action = reader.step(event);
                match action {
                    ReadAction::Finish { result: Ok(response) } => {
                        if self.out_of_time(now) {
                            return self.time_out();
                        }
                        let mut console_output: Vec<(String, String)> = Vec::new();
                        core::mem::swap(&mut console_output, &mut ops.console_output);
                        let metrics = FetcherMetrics {
                            setup_us: self.times.setup_us,
                            compile_us: self.times.compile_us,
                            execute_us: self.times.execute_us,
                            total_us: micros(0, now),
                            fetch_count: ops.fetch_count,
                            event_loop_iterations: self.iterations,
                            console_output,
                        };
                        FetcherAction::Finish { result: Ok(FetcherResult { response, metrics }) }
                    },
                    ReadAction::Finish { result: Err(e) } => fail(e),
                    action => {
                        self.phase = FetcherPhase::Reading { reader };
                        FetcherAction::Read { action }
                    },
                }
            },
        }
    }
}

fn fail(message: String) -> (a: FetcherAction)
    ensures
        run_fails(a, message@),
{
    FetcherAction::Finish { result: Err(message) }
}

/// Starts a run. The first thing that it needs is an HTTP client, none of whose
/// requests may take longer than the run.
pub fn execute_fetcher(config: FetcherConfig) -> (r: (Fetcher, FetcherAction))
    ensures
        r.0.wf(),
        r.0.config == config,
        r.0.phase is Client,
        r.0.times == (Timings { started: 0, setup_us: 0, compile_us: 0, execute_us: 0 }),
        r.0.iterations == 0,
        r.1 matches FetcherAction::CreateClient { user_agent, timeout_ms } && user_agent@
            == USER_AGENT@ && timeout_ms == config.limits.max_duration_ms,
        r.1->user_agent@ == "v8-matrix/0.1"@,
        forall|answer: FetcherEvent| answer is Client ==> #[trigger] r.0.awaits(answer),
{
    let timeout_ms = config.limits.max_duration_ms;
    (
        Fetcher {
            config,
            phase: FetcherPhase::Client,
            times: Timings { started: 0, setup_us: 0, compile_us: 0, execute_us: 0 },
            iterations: 0,
        },
        FetcherAction::CreateClient { user_agent: USER_AGENT, timeout_ms },
    )
}

// ---- laws ----

/// Whether an event comes after the time `last`, with its times in order.
pub open spec fn comes_after(event: FetcherEvent, last: u64) -> bool {
    match event {
        FetcherEvent::Client { now, .. } => last <= now,
        FetcherEvent::Script { now, .. } => last <= now,
        FetcherEvent::Called { started, now, .. } => last <= started <= now,
        FetcherEvent::Promise { now, .. } => last <= now,
        FetcherEvent::Read { now, .. } => last <= now,
        _ => true,
    }
}

/// The time of an event, or `last` for an event without one.
pub open spec fn time_after(event: FetcherEvent, last: u64) -> u64 {
    match event {
        FetcherEvent::Client { now, .. } => now,
        FetcherEvent::Script { now, .. } => now,
        FetcherEvent::Called { now, .. } => now,
        FetcherEvent::Promise { now, .. } => now,
        FetcherEvent::Read { now, .. } => now,
        _ => last,
    }
}

/// The parts of the run that were measured do not overlap: at the time `last`
/// there was room for them one after the other.
pub open spec fn timed(f: Fetcher, last: u64) -> bool {
    let t = f.times;
    let spent = 1000 * (t.setup_us + t.compile_us + t.execute_us);
    match f.phase {
        FetcherPhase::Client => spent == 0,
        FetcherPhase::Isolate => spent == 0 && t.started <= last,
        FetcherPhase::Script { index } => {
            &&& t.started <= last
            &&& t.compile_us == 0 && t.execute_us == 0
            &&& if index <= SHIM {
                t.setup_us == 0
            } else {
                spent <= t.started
            }
        },
        FetcherPhase::Handler | FetcherPhase::Request | FetcherPhase::Calling => spent <= last
            && t.execute_us == 0,
        FetcherPhase::Looping { .. } | FetcherPhase::Settling => spent <= t.started <= last
            && t.execute_us == 0,
        FetcherPhase::Reading { .. } => spent <= last,
        FetcherPhase::Finished => true,
    }
}

/// A step keeps the measured parts of a run apart.
proof fn lemma_step_is_timed(
    f: Fetcher,
    last: u64,
    ops: OpState,
    event: FetcherEvent,
    next: Fetcher,
    ops2: OpState,
    action: FetcherAction,
)
    requires
        f.wf(),
        timed(f, last),
        comes_after(event, last),
        f.steps(ops, event, next, ops2, action),
    ensures
        timed(next, time_after(event, last)),
        action matches FetcherAction::Finish { result: Ok(r) } ==> r.metrics.setup_us
            + r.metrics.compile_us + r.metrics.execute_us <= r.metrics.total_us,
{
}

/// A run never succeeds once its wall-clock time is used up: the step that ends
/// it with a response is told a time before the limit.
pub proof fn law_no_success_after_the_limit(
    f: Fetcher,
    ops: OpState,
    event: FetcherEvent,
    next: Fetcher,
    ops2: OpState,
    action: FetcherAction,
)
    requires
        f.steps(ops, event, next, ops2, action),
        action matches FetcherAction::Finish { result } && result is Ok,
    ensures
        event matches FetcherEvent::Read { now, .. } && now < clock::time_limit(
            f.config.limits.max_duration_ms,
        ),
{
}

/// Where several bindings have the same name the last one counts: that is the
/// value of the property of `env`. A binding whose name no other has is found
/// under it.
pub proof fn law_the_last_binding_counts(bindings: Seq<(String, BindingValue)>, i: int)
    requires
        0 <= i < bindings.len(),
        forall|j: int| i < j < bindings.len() ==> (#[trigger] bindings[j]).0@ != bindings[i].0@,
    ensures
        json::property(env_fields(bindings), bindings[i].0@) == Some(binding_view(bindings[i].1)),
    decreases bindings.len(),
{
    let last = bindings.len() - 1;
    let rest = bindings.drop_last();
    assert(env_fields(bindings).drop_last() =~= env_fields(rest));
    if i < last {
        assert(bindings[last].0@ != bindings[i].0@);
        assert(forall|j: int| 0 <= j < rest.len() ==> #[trigger] rest[j] == bindings[j]);
        law_the_last_binding_counts(rest, i);
    }
}

/// A run from `states[0]` on, step by step. Between two steps the script may
/// have changed the state of its operations.
pub open spec fn is_run(
    states: Seq<Fetcher>,
    before: Seq<OpState>,
    events: Seq<FetcherEvent>,
    after: Seq<OpState>,
    actions: Seq<FetcherAction>,
) -> bool {
    &&& states.len() == events.len() + 1
    &&& before.len() == events.len()
    &&& after.len() == events.len()
    &&& actions.len() == events.len()
    &&& forall|i: int|
        0 <= i < events.len() ==> {
            &&& (#[trigger] states[i]).wf()
            &&& states[i].awaits(events[i])
            &&& states[i].steps(before[i], events[i], states[i + 1], after[i], actions[i])
        }
}

/// The names of the scripts that `actions` run, in order.
pub open spec fn scripts_run(actions: Seq<FetcherAction>) -> Seq<Seq<char>>
    decreases actions.len(),
{
    if actions.len() == 0 {
        Seq::empty()
    } else {
        match actions.last() {
            FetcherAction::RunScript { filename, .. } => scripts_run(actions.drop_last()).push(
                filename@,
            ),
            _ => scripts_run(actions.drop_last()),
        }
    }
}

/// The names of the first `n` scripts of a run.
pub open spec fn first_scripts(n: nat) -> Seq<Seq<char>> {
    Seq::new(n, |i: int| script_name(i))
}

/// How many scripts were run when a run stands at `phase`.
pub open spec fn scripts_before(phase: FetcherPhase) -> nat {
    match phase {
        FetcherPhase::Client | FetcherPhase::Isolate => 0,
        FetcherPhase::Script { index } => index as nat + 1,
        _ => USER_SCRIPT as nat + 1,
    }
}

/// Every run executes the scripts that set the globals up before the user's
/// module, each once and in order, and the handler is looked for and called only
/// after all of them.
pub proof fn law_scripts_run_in_order(
    states: Seq<Fetcher>,
    before: Seq<OpState>,
    events: Seq<FetcherEvent>,
    after: Seq<OpState>,
    actions: Seq<FetcherAction>,
)
    requires
        is_run(states, before, events, after, actions),
        states[0].phase is Client,
    ensures
        scripts_run(actions) == first_scripts(scripts_run(actions).len()),
        scripts_run(actions).len() <= USER_SCRIPT + 1,
        scripts_run(actions).is_prefix_of(
            seq![
                "00_primordials.js"@,
                "01_fetch.js"@,
                "02_encoding.js"@,
                "03_console.js"@,
                "timer_shim.js"@,
                "user_script.js"@,
            ],
        ),
        !(states.last().phase is Finished) ==> scripts_run(actions).len() == scripts_before(
            states.last().phase,
        ),
    decreases events.len(),
{
    if events.len() == 0 {
        assert(scripts_run(actions) =~= first_scripts(0));
    } else {
        let n = events.len() - 1;
        let s = states.drop_last();
        let e = events.drop_last();
        lemma_run_before(states, before, events, after, actions);
        law_scripts_run_in_order(s, before.drop_last(), e, after.drop_last(), actions.drop_last());
        assert(s.last() == states[n]);
        assert(states[n].steps(before[n], events[n], states[n + 1], after[n], actions[n]));
        assert(scripts_run(actions) =~= first_scripts(scripts_run(actions).len()));
    }
    lemma_first_scripts(scripts_run(actions).len());
}

/// The names of the scripts, in order.
proof fn lemma_first_scripts(n: nat)
    requires
        n <= USER_SCRIPT + 1,
    ensures
        first_scripts(n).is_prefix_of(
            seq![
                "00_primordials.js"@,
                "01_fetch.js"@,
                "02_encoding.js"@,
                "03_console.js"@,
                "timer_shim.js"@,
                "user_script.js"@,
            ],
        ),
{
    let all = seq![
        "00_primordials.js"@,
        "01_fetch.js"@,
        "02_encoding.js"@,
        "03_console.js"@,
        "timer_shim.js"@,
        "user_script.js"@,
    ];
    assert(first_scripts(n) =~= all.take(n as int));
}

/// The part of a run that comes before its last step is a run.
proof fn lemma_run_before(
    states: Seq<Fetcher>,
    before: Seq<OpState>,
    events: Seq<FetcherEvent>,
    after: Seq<OpState>,
    actions: Seq<FetcherAction>,
)
    requires
        is_run(states, before, events, after, actions),
        events.len() > 0,
    ensures
        is_run(
            states.drop_last(),
            before.drop_last(),
            events.drop_last(),
            after.drop_last(),
            actions.drop_last(),
        ),
{
    let s = states.drop_last();
    let e = events.drop_last();
    assert forall|i: int| 0 <= i < e.len() implies {
        &&& (#[trigger] s[i]).wf()
        &&& s[i].awaits(e[i])
        &&& s[i].steps(
            before.drop_last()[i],
            e[i],
            s[i + 1],
            after.drop_last()[i],
            actions.drop_last()[i],
        )
    } by {
        assert(s[i] == states[i]);
    }
}

/// The time of the last event that has one; the start of the run without any.
pub open spec fn last_time(events: Seq<FetcherEvent>) -> u64
    decreases events.len(),
{
    if events.len() == 0 {
        0
    } else {
        time_after(events.last(), last_time(events.drop_last()))
    }
}

/// Whether the times of the events never go back.
pub open spec fn in_time_order(events: Seq<FetcherEvent>) -> bool {
    forall|i: int|
        0 <= i < events.len() ==> comes_after(#[trigger] events[i], last_time(events.take(i)))
}

/// On a clock that does not go back, the times that a whole run reports for
/// setting up, compiling and executing never add up to more than the total.
pub proof fn law_measured_parts_fit_in_the_total(
    states: Seq<Fetcher>,
    before: Seq<OpState>,
    events: Seq<FetcherEvent>,
    after: Seq<OpState>,
    actions: Seq<FetcherAction>,
)
    requires
        is_run(states, before, events, after, actions),
        states[0].phase is Client,
        states[0].times == (Timings { started: 0, setup_us: 0, compile_us: 0, execute_us: 0 }),
        in_time_order(events),
    ensures
        timed(states.last(), last_time(events)),
        events.len() > 0 ==> (actions.last() matches FetcherAction::Finish { result: Ok(r) }
            ==> r.metrics.setup_us + r.metrics.compile_us + r.metrics.execute_us
            <= r.metrics.total_us),
    decreases events.len(),
{
    if events.len() > 0 {
        let n = events.len() - 1;
        let e = events.drop_last();
        lemma_run_before(states, before, events, after, actions);
        assert forall|i: int| 0 <= i < e.len() implies comes_after(
            #[trigger] e[i],
            last_time(e.take(i)),
        ) by {
            assert(e[i] == events[i]);
            assert(e.take(i) =~= events.take(i));
        }
        law_measured_parts_fit_in_the_total(
            states.drop_last(),
            before.drop_last(),
            e,
            after.drop_last(),
            actions.drop_last(),
        );
        assert(states.drop_last().last() == states[n]);
        assert(events.take(n) =~= e);
        assert(comes_after(events[n], last_time(e)));
        lemma_step_is_timed(
            states[n],
            last_time(e),
            before[n],
            events[n],
            states[n + 1],
            after[n],
            actions[n],
        );
    }
}

/// What the script does between two steps of its run: it prints, it starts
/// fetches, or both.
pub struct Activity {
    pub printed: Seq<(String, String)>,
    pub fetches: nat,
}

/// The operations after a script has done something.
pub open spec fn acts(from: OpState, did: Activity, to: OpState) -> bool {
    &&& to.console_output@ == from.console_output@ + did.printed
    &&& to.fetch_count == from.fetch_count + did.fetches
}

/// Whether `did` is what the script has done before each step of a run that began
/// with nothing printed and nothing fetched.
pub open spec fn is_activity(
    before: Seq<OpState>,
    after: Seq<OpState>,
    did: Seq<Activity>,
) -> bool {
    &&& did.len() == before.len()
    &&& forall|i: int|
        0 <= i < did.len() ==> if i == 0 {
            &&& before[0].console_output@ == (#[trigger] did[i]).printed
            &&& before[0].fetch_count == did[i].fetches
        } else {
            acts(after[i - 1], did[i], before[i])
        }
}

/// Everything that was printed, in order.
pub open spec fn all_printed(did: Seq<Activity>) -> Seq<(String, String)>
    decreases did.len(),
{
    if did.len() == 0 {
        Seq::empty()
    } else {
        all_printed(did.drop_last()) + did.last().printed
    }
}

/// How many fetches were started.
pub open spec fn all_fetches(did: Seq<Activity>) -> nat
    decreases did.len(),
{
    if did.len() == 0 {
        0
    } else {
        all_fetches(did.drop_last()) + did.last().fetches
    }
}

/// How many rounds of the event loop were completed.
pub open spec fn rounds_among(events: Seq<FetcherEvent>) -> nat
    decreases events.len(),
{
    if events.len() == 0 {
        0
    } else {
        rounds_among(events.drop_last()) + if events.last() == (FetcherEvent::Loop {
            event: LoopEvent::Settled,
        }) {
            1nat
        } else {
            0nat
        }
    }
}

/// Whether the run has counted its rounds.
pub open spec fn has_counted(f: Fetcher, events: Seq<FetcherEvent>) -> bool {
    &&& f.iterations == rounds_among(events)
    &&& f.phase matches FetcherPhase::Looping { event_loop } ==> event_loop.iterations
        == f.iterations
    &&& (f.phase is Client || f.phase is Isolate || f.phase is Script || f.phase is Handler
        || f.phase is Request || f.phase is Calling) ==> f.iterations == 0
}

/// A whole run reports exactly what the script has printed, in order, how many
/// fetches it has started, and how many rounds of the event loop were completed.
pub proof fn law_a_run_reports_what_happened(
    states: Seq<Fetcher>,
    before: Seq<OpState>,
    events: Seq<FetcherEvent>,
    after: Seq<OpState>,
    actions: Seq<FetcherAction>,
    did: Seq<Activity>,
)
    requires
        is_run(states, before, events, after, actions),
        states[0].phase is Client,
        states[0].iterations == 0,
        is_activity(before, after, did),
    ensures
        !(states.last().phase is Finished) ==> has_counted(states.last(), events),
        events.len() > 0 && !(states.last().phase is Finished) ==> {
            &&& after.last().console_output@ == all_printed(did)
            &&& after.last().fetch_count == all_fetches(did)
        },
        events.len() > 0 ==> (actions.last() matches FetcherAction::Finish { result: Ok(r) } ==> {
            &&& r.metrics.console_output@ == all_printed(did)
            &&& r.metrics.fetch_count == all_fetches(did)
            &&& r.metrics.event_loop_iterations == rounds_among(events)
        }),
    decreases events.len(),
{
    if events.len() > 0 {
        let n = events.len() - 1;
        let e = events.drop_last();
        let b = before.drop_last();
        let a = after.drop_last();
        lemma_run_before(states, before, events, after, actions);
        assert forall|i: int| 0 <= i < did.drop_last().len() implies if i == 0 {
            &&& b[0].console_output@ == (#[trigger] did.drop_last()[i]).printed
            &&& b[0].fetch_count == did.drop_last()[i].fetches
        } else {
            acts(a[i - 1], did.drop_last()[i], b[i])
        } by {
            assert(did.drop_last()[i] == did[i]);
        }
        law_a_run_reports_what_happened(
            states.drop_last(),
            b,
            e,
            a,
            actions.drop_last(),
            did.drop_last(),
        );
        assert(states.drop_last().last() == states[n]);
        assert(states[n].awaits(events[n]));
        assert(states[n].steps(before[n], events[n], states[n + 1], after[n], actions[n]));
        assert(did[n] == did.last());
        if n == 0 {
            assert(all_printed(did.drop_last()) =~= Seq::empty());
            assert(all_printed(did) =~= did[0].printed);
            assert(all_fetches(did.drop_last()) == 0);
        } else {
            assert(a.last() == after[n - 1]);
        }
        assert(before[n].console_output@ == all_printed(did));
        assert(before[n].fetch_count == all_fetches(did));
        assert(actions.last() == actions[n] && events.last() == events[n]);
    }
}

/// A handler finds in its request what the request was: the method, every header
/// in order, and the body exactly if there is one.
pub proof fn law_a_request_is_handed_over_whole(req: JsRequest)
    ensures
        request_init(req) is Object,
        ({
            let fields = request_init(req)->Object_0;
            &&& json::property(fields, "method"@) == Some(JsView::Text(req.method@))
            &&& match req.body {
                Some(body) => json::property(fields, "body"@) == Some(JsView::Text(body@)),
                None => json::property(fields, "body"@) is None,
            }
            &&& json::property(fields, "headers"@) matches Some(JsView::Object(headers))
            &&& headers.len() == req.headers@.len()
            &&& forall|i: int|
                0 <= i < headers.len() ==> {
                    &&& (#[trigger] headers[i]).0 == req.headers@[i].0@
                    &&& headers[i].1 == JsView::Text(req.headers@[i].1@)
                }
        }),
{
    reveal_strlit("method");
    reveal_strlit("headers");
    reveal_strlit("body");
    assert("method"@[0] == 'm' && "headers"@[0] == 'h' && "body"@[0] == 'b');
    let fields = request_init(req)->Object_0;
    let headers = header_fields(req.headers.deep_view());
    assert forall|i: int| 0 <= i < headers.len() implies (#[trigger] headers[i]).0
        == req.headers@[i].0@ && headers[i].1 == JsView::Text(req.headers@[i].1@) by {
        assert(req.headers.deep_view()[i] == (req.headers@[i].0@, req.headers@[i].1@));
    }
    assert(fields[0] == ("method"@, JsView::Text(req.method@)));
    assert(fields[1] == ("headers"@, JsView::Object(headers)));
    json::law_the_last_value_set_is_found(fields, "method"@, 0);
    json::law_the_last_value_set_is_found(fields, "headers"@, 1);
    json::law_the_last_value_set_is_found(fields, "body"@, 2);
}

/// `env` has a field for every binding, in order, under its name: a text that is
/// bound is that text, and a JSON value what [`json::js_of`] makes of it. Only a
/// JSON value with a number that the engine cannot take stands in the way.
pub proof fn law_every_binding_is_in_env(bindings: Seq<(String, BindingValue)>)
    ensures
        env_fields(bindings).len() == bindings.len(),
        forall|i: int|
            0 <= i < bindings.len() ==> {
                &&& (#[trigger] env_fields(bindings)[i]).0 == bindings[i].0@
                &&& env_fields(bindings)[i].1 == match bindings[i].1 {
                    BindingValue::Text(t) => JsView::Text(t@),
                    BindingValue::Json(j) => json::js_of(j),
                }
            },
        bindings_supported(bindings) <==> !(exists|i: int|
            0 <= i < bindings.len() && (#[trigger] bindings[i]).1 is Json && !json::supported(
                bindings[i].1->Json_0,
            )),
{
}

/// What each success leads to. The isolate gets the heap that the limits allow,
/// or the engine's default, is stopped when the time is over, and has all native
/// functions. The scripts follow each other, the user's module last. The handler
/// is called with the request, a frozen `env` and `ctx`. A value that it returns
/// is read, a promise is driven until it settles.
pub proof fn law_each_success_leads_on(
    f: Fetcher,
    ops: OpState,
    event: FetcherEvent,
    next: Fetcher,
    ops2: OpState,
    action: FetcherAction,
)
    requires
        f.wf(),
        f.awaits(event),
        f.steps(ops, event, next, ops2, action),
    ensures
        next.config == f.config,
        !(event is Loop || event is Read) ==> ops2 == ops,
        event is Client && event->error is None ==> {
            let limits = f.config.limits;
            &&& action is CreateIsolate
            &&& limits.max_heap_bytes == 0 ==> action->heap_limit is None
            &&& limits.max_heap_bytes > 0 ==> action->heap_limit == Some(limits.max_heap_bytes)
            &&& limits.max_duration_ms * 1_000_000 <= u64::MAX ==> action->deadline
                == limits.max_duration_ms * 1_000_000
            &&& limits.max_duration_ms * 1_000_000 > u64::MAX ==> action->deadline == u64::MAX
            &&& bindings::is_install_list(action->natives@)
            &&& next.phase is Isolate
        },
        event is Isolate ==> {
            &&& action is RunScript
            &&& action->filename@ == "00_primordials.js"@
            &&& action->source is Bootstrap
            &&& next.phase == (FetcherPhase::Script { index: 0 })
        },
        event is Script && event->Script_outcome is Done && f.phase->index < 5 ==> {
            let i = f.phase->index;
            &&& action is RunScript
            &&& next.phase == (FetcherPhase::Script { index: (i + 1) as usize })
            &&& i == 0 ==> action->filename@ == "01_fetch.js"@ && action->source is Bootstrap
            &&& i == 1 ==> action->filename@ == "02_encoding.js"@ && action->source is Bootstrap
            &&& i == 2 ==> action->filename@ == "03_console.js"@ && action->source is Bootstrap
            &&& i == 3 ==> action->filename@ == "timer_shim.js"@ && (
            action->source matches ScriptSource::Text(t) && t@ == TIMER_SHIM@)
            &&& i == 4 ==> action->filename@ == "user_script.js"@ && (
            action->source matches ScriptSource::Text(t) && t@ == script::MODULE_HEAD@
                + script::module_body(f.config.script@) + script::MODULE_TAIL@)
        },
        event is Script && event->Script_outcome is Done && f.phase->index == 5 ==> action
            is FindHandler && next.phase is Handler,
        event is Handler && event->probe is Found ==> {
            &&& action is BuildRequest
            &&& action->url@ == f.config.request.url@
            &&& action->init@ == request_init(f.config.request)
            &&& next.phase is Request
        },
        event is Request && event->Request_outcome is Built && bindings_supported(
            f.config.bindings@,
        ) ==> {
            &&& action is Call
            &&& action->env@ == JsView::Object(env_fields(f.config.bindings@))
            &&& action->freeze_env
            &&& action->ctx@.len() == 2
            &&& action->ctx@[0]@ == "waitUntil"@
            &&& action->ctx@[1]@ == "passThroughOnException"@
            &&& next.phase is Calling
        },
        event is Called && !(event->Called_now >= f.config.limits.max_duration_ms * 1_000_000
            || event->Called_now == u64::MAX) ==> match event->Called_outcome {
            CallOutcome::Value => {
                &&& action == FetcherAction::Read { action: ReadAction::CheckObject }
                &&& next.phase is Reading
            },
            CallOutcome::Promise => f.config.limits.max_event_loop_iterations > 0 ==> {
                &&& action == FetcherAction::Loop { action: LoopAction::Checkpoint }
                &&& next.phase is Looping
                &&& next.phase->event_loop.iterations == 0
                &&& next.phase->event_loop.phase is Checkpoint
                &&& next.phase->event_loop.max_iterations
                    == f.config.limits.max_event_loop_iterations
                &&& next.phase->event_loop.max_duration_ms == f.config.limits.max_duration_ms
            },
            CallOutcome::Threw { .. } => true,
        },
        event is Promise && event->state is Fulfilled && !(event->Promise_now
            >= f.config.limits.max_duration_ms * 1_000_000 || event->Promise_now == u64::MAX) ==> {
            &&& action == FetcherAction::Read { action: ReadAction::CheckObject }
            &&& next.phase is Reading
        },
{
}

/// A run fails for a reason, which the error names, and for no other.
pub proof fn law_a_run_fails_for_a_reason(
    f: Fetcher,
    ops: OpState,
    event: FetcherEvent,
    next: Fetcher,
    ops2: OpState,
    action: FetcherAction,
)
    requires
        f.wf(),
        f.awaits(event),
        f.steps(ops, event, next, ops2, action),
    ensures
        ({
            let failure = action matches FetcherAction::Finish { result: Err(_) };
            let message = action->result->Err_0@;
            let max_ms = f.config.limits.max_duration_ms;
            let too_late = "Event loop exceeded max duration ("@ + text::numeral(max_ms as nat)
                + " ms)"@;
            match event {
                FetcherEvent::Client { error, .. } => match error {
                    Some(e) => failure && message == "Failed to create HTTP client: "@ + e@,
                    None => !failure,
                },
                FetcherEvent::Isolate => !failure,
                FetcherEvent::Script { outcome, .. } => match script::script_report(
                    script_name(f.phase->index as int),
                    outcome,
                ) {
                    Some(report) => failure && message == report,
                    None => !failure,
                },
                FetcherEvent::Handler { probe } => match probe {
                    HandlerProbe::NotAnObject => failure && message
                        == "Worker module did not return an object"@,
                    HandlerProbe::NoFetch => failure && message
                        == "Worker module has no 'fetch' export"@,
                    HandlerProbe::NotAFunction => failure && message
                        == "Worker 'fetch' export is not a function"@,
                    HandlerProbe::Found => !failure,
                },
                FetcherEvent::Request { outcome } => match outcome {
                    RequestOutcome::Missing => failure && message
                        == "Request constructor not found"@,
                    RequestOutcome::NotAFunction => failure && message
                        == "Request is not a constructor"@,
                    RequestOutcome::Failed => failure && message
                        == "Failed to construct Request object"@,
                    RequestOutcome::Built => {
                        &&& failure <==> !bindings_supported(f.config.bindings@)
                        &&& failure ==> message == "Unsupported number value"@
                    },
                },
                FetcherEvent::Called { outcome, now, .. } => {
                    let late = now >= max_ms * 1_000_000 || now == u64::MAX;
                    match outcome {
                        CallOutcome::Threw { exception: Some(e) } => failure && message == e@,
                        CallOutcome::Threw { exception: None } => failure && message
                            == "fetch() threw an exception"@,
                        CallOutcome::Value => (failure <==> late) && (late ==> message == too_late),
                        CallOutcome::Promise => {
                            let none = f.config.limits.max_event_loop_iterations == 0;
                            &&& failure <==> late || none
                            &&& late ==> message == too_late
                            &&& !late && none ==> message == "Event loop exceeded max iterations ("@
                                + text::numeral(0) + ")"@
                        },
                    }
                },
                FetcherEvent::Promise { state, now } => {
                    let late = now >= max_ms * 1_000_000 || now == u64::MAX;
                    match state {
                        HandlerPromise::Fulfilled => (failure <==> late) && (late ==> message
                            == too_late),
                        HandlerPromise::Rejected { reason } => failure && message
                            == "fetch() rejected: "@ + reason@,
                        HandlerPromise::Pending => failure && message
                            == "fetch() promise never resolved"@,
                    }
                },
                FetcherEvent::Loop { event: told } => exists|l: EventLoop, a: LoopAction|
                    {
                        &&& #[trigger] f.phase->event_loop.steps(ops, told, l, ops2, a)
                        &&& next.iterations == l.iterations
                        &&& match a {
                            LoopAction::Finish { result: Ok(_) } => action is ReadPromise
                                && next.phase is Settling,
                            LoopAction::Finish { result: Err(e) } => failure && message == e@,
                            _ => action == (FetcherAction::Loop { action: a }) && next.phase == (
                            FetcherPhase::Looping { event_loop: l }),
                        }
                    },
                FetcherEvent::Read { event: told, now } => exists|r: ResponseReader, a: ReadAction|
                    {
                        &&& #[trigger] f.phase->reader.steps(told, r, a)
                        &&& match a {
                            ReadAction::Finish { result: Ok(response) } => {
                                let late = now >= max_ms * 1_000_000 || now == u64::MAX;
                                &&& late ==> failure && message == too_late
                                &&& !late ==> (action matches FetcherAction::Finish {
                                    result: Ok(result),
                                } && result.response == response && result.metrics.fetch_count
                                    == ops.fetch_count && result.metrics.console_output@
                                    == ops.console_output@ && result.metrics.event_loop_iterations
                                    == f.iterations)
                            },
                            ReadAction::Finish { result: Err(e) } => failure && message == e@,
                            _ => action == (FetcherAction::Read { action: a }) && next.phase == (
                            FetcherPhase::Reading { reader: r }),
                        }
                    },
            }
        }),
{
    if let FetcherEvent::Loop { event: told } = event {
        let (l, a) = choose|l: EventLoop, a: LoopAction|
            #[trigger] f.phase->event_loop.steps(ops, told, l, ops2, a) && f.follows_loop(
                l,
                a,
                next,
                action,
            );
        assert(f.phase->event_loop.steps(ops, told, l, ops2, a));
    }
    if let FetcherEvent::Read { event: told, now } = event {
        let (r, a) = choose|r: ResponseReader, a: ReadAction|
            #[trigger] f.phase->reader.steps(told, r, a) && f.follows_reader(
                r,
                a,
                now,
                ops,
                next,
                ops2,
                action,
            );
        assert(f.phase->reader.steps(told, r, a));
    }
}

/// Whatever comes of what a run has asked for is an answer to it.
pub proof fn law_a_run_takes_every_answer(
    f: Fetcher,
    ops: OpState,
    event: FetcherEvent,
    next: Fetcher,
    ops2: OpState,
    action: FetcherAction,
    answer: FetcherEvent,
)
    requires
        f.awaits(event),
        f.steps(ops, event, next, ops2, action),
    ensures
        action is CreateIsolate && answer is Isolate ==> next.awaits(answer),
        action is RunScript && answer is Script ==> next.awaits(answer),
        action is FindHandler && answer is Handler ==> next.awaits(answer),
        action is BuildRequest && answer is Request ==> next.awaits(answer),
        action is Call && answer is Called ==> next.awaits(answer),
        action is ReadPromise && answer is Promise ==> next.awaits(answer),
        action is Loop && answer is Loop && next.phase->event_loop.awaits(answer->Loop_event)
            ==> next.awaits(answer),
        action is Read && answer is Read && next.phase->reader.awaits(answer->Read_event)
            ==> next.awaits(answer),
{
}

/// The readers that a run goes through while it reads the response, and what they
/// ask for.
proof fn lemma_a_run_reads(
    states: Seq<Fetcher>,
    before: Seq<OpState>,
    events: Seq<FetcherEvent>,
    after: Seq<OpState>,
    actions: Seq<FetcherAction>,
) -> (r: (Seq<ResponseReader>, Seq<ReadAction>))
    requires
        is_run(states, before, events, after, actions),
        states[0].phase is Client,
    ensures
        ({
            let reads = events.filter(|e: FetcherEvent| e is Read).map_values(
                |e: FetcherEvent| e->Read_event,
            );
            let (readers, asked) = r;
            let last = states.last();
            &&& !(last.phase is Reading || last.phase is Finished) ==> reads.len() == 0
            &&& last.phase is Reading ==> {
                &&& response::is_reading(readers, reads, asked)
                &&& readers[0].phase is Object
                &&& readers[0].headers@.len() == 0
                &&& readers.last() == last.phase->reader
            }
            &&& events.len() > 0 ==> (actions.last() matches FetcherAction::Finish { result: Ok(result) }
                ==> {
                &&& response::is_reading(readers, reads, asked)
                &&& readers[0].phase is Object
                &&& readers[0].headers@.len() == 0
                &&& reads.len() > 0
                &&& asked.last() == ReadAction::Finish { result: Ok(result.response) }
            })
        }),
    decreases events.len(),
{
    reveal(Seq::filter);
    let is_read = |e: FetcherEvent| e is Read;
    let told = |e: FetcherEvent| e->Read_event;
    if events.len() == 0 {
        assert(events.filter(is_read).map_values(told).len() == 0);
        (Seq::empty(), Seq::empty())
    } else {
        let n = events.len() - 1;
        let e = events.drop_last();
        lemma_run_before(states, before, events, after, actions);
        let (readers, asked) = lemma_a_run_reads(
            states.drop_last(),
            before.drop_last(),
            e,
            after.drop_last(),
            actions.drop_last(),
        );
        let f = states[n];
        let next = states[n + 1];
        assert(states.drop_last().last() == f);
        assert(f.wf() && f.awaits(events[n]));
        assert(f.steps(before[n], events[n], next, after[n], actions[n]));
        let reads = e.filter(is_read).map_values(told);
        let now_reads = events.filter(is_read).map_values(told);
        if let FetcherEvent::Read { event, now } = events[n] {
            assert(now_reads =~= reads.push(event));
            let (r, a) = choose|r: ResponseReader, a: ReadAction|
                #[trigger] f.phase->reader.steps(event, r, a) && f.follows_reader(
                    r,
                    a,
                    now,
                    before[n],
                    next,
                    after[n],
                    actions[n],
                );
            let readers2 = readers.push(r);
            let asked2 = asked.push(a);
            assert forall|i: int| 0 <= i < now_reads.len() implies {
                &&& (#[trigger] readers2[i]).wf()
                &&& readers2[i].awaits(now_reads[i])
                &&& readers2[i].steps(now_reads[i], readers2[i + 1], asked2[i])
            } by {
                if i < reads.len() {
                    assert(readers[i].wf());
                    assert(readers2[i] == readers[i] && readers2[i + 1] == readers[i + 1]);
                    assert(now_reads[i] == reads[i] && asked2[i] == asked[i]);
                } else {
                    assert(readers2[i] == readers.last());
                    assert(readers2[i + 1] == r && asked2[i] == a && now_reads[i] == event);
                }
            }
            (readers2, asked2)
        } else {
            assert(now_reads =~= reads);
            if next.phase is Reading {
                assert(reads.len() == 0);
                (seq![next.phase->reader], Seq::empty())
            } else {
                (readers, asked)
            }
        }
    }
}

/// A run returns the response of the handler: the status that it has, as a
/// number of 16 bits and 200 where it has none, all of its headers, in order, and
/// the text of its body.
pub proof fn law_a_run_returns_the_handlers_response(
    states: Seq<Fetcher>,
    before: Seq<OpState>,
    events: Seq<FetcherEvent>,
    after: Seq<OpState>,
    actions: Seq<FetcherAction>,
)
    requires
        is_run(states, before, events, after, actions),
        states[0].phase is Client,
        events.len() > 0,
        actions.last() matches FetcherAction::Finish { result: Ok(_) },
    ensures
        ({
            let response = actions.last()->result->Ok_0.response;
            let reads = events.filter(|e: FetcherEvent| e is Read).map_values(
                |e: FetcherEvent| e->Read_event,
            );
            &&& reads.len() > 1
            &&& reads[1] matches ReadEvent::Status { status }
            &&& match status {
                Some(n) => {
                    &&& n < 0x1_0000 ==> response.status == n
                    &&& response.status as int == n as int % 0x1_0000
                },
                None => response.status == 200,
            }
            &&& response.headers@ == reads.filter(
                |e: ReadEvent|
                    e matches ReadEvent::Header { item: HeaderItem::Entry { pair } } && pair is Some,
            ).map_values(|e: ReadEvent| e->item->pair->0)
            &&& match reads.last() {
                ReadEvent::Text { call } => call matches TextCall::Value { text } && response.body@
                    == text@,
                ReadEvent::Body { promise } => promise matches BodyPromise::Fulfilled { text }
                    && response.body@ == text@,
                _ => false,
            }
        }),
{
    let (readers, asked) = lemma_a_run_reads(states, before, events, after, actions);
    let reads = events.filter(|e: FetcherEvent| e is Read).map_values(
        |e: FetcherEvent| e->Read_event,
    );
    response::law_a_response_is_what_was_read(readers, reads, asked);
}

/// Where a run stands before it has called the handler, as a number.
pub open spec fn place(phase: FetcherPhase) -> nat {
    match phase {
        FetcherPhase::Client => 0,
        FetcherPhase::Isolate => 1,
        FetcherPhase::Script { index } => (2 + index) as nat,
        FetcherPhase::Handler => 8,
        FetcherPhase::Request => 9,
        FetcherPhase::Calling => 10,
        _ => 11,
    }
}

/// What a run has measured of the parts that are over: setting up, from the first
/// event to the end of the scripts that set the globals up, and compiling, from
/// there to the end of the user's module.
pub open spec fn has_measured(f: Fetcher, events: Seq<FetcherEvent>) -> bool {
    let n = events.len();
    let set_up = events[6]->Script_now;
    let t = f.times;
    &&& place(f.phase) < 11 ==> n == place(f.phase)
    &&& place(f.phase) == 11 ==> n >= 11
    &&& n > 0 ==> events[0] is Client
    &&& n > 6 ==> events[6] is Script
    &&& n > 7 ==> events[7] is Script
    &&& n > 10 ==> events[10] is Called
    &&& 1 <= n <= 6 ==> t.started == events[0]->Client_now
    &&& n == 7 ==> t.started == set_up
    &&& n >= 7 ==> t.setup_us == clock::elapsed_us(events[0]->Client_now, set_up)
    &&& n >= 8 ==> t.compile_us == clock::elapsed_us(set_up, events[7]->Script_now)
    &&& f.phase is Looping || f.phase is Settling ==> {
        &&& t.started == events[10]->started
        &&& events[10]->Called_outcome is Promise
    }
    &&& f.phase is Reading ==> was_executed(t.execute_us, events)
}

/// Whether `us` is the time from the call of the handler to the moment at which
/// its result was there: right after the call, or when its promise was fulfilled.
pub open spec fn was_executed(us: u128, events: Seq<FetcherEvent>) -> bool {
    ||| events[10]->Called_outcome is Value && us == clock::elapsed_us(
        events[10]->started,
        events[10]->Called_now,
    )
    ||| events[10]->Called_outcome is Promise && exists|k: int|
        10 < k < events.len() && (#[trigger] events[k]) is Promise && events[k]->state is Fulfilled
            && us == clock::elapsed_us(events[10]->started, events[k]->Promise_now)
}

/// A run reports how long its parts took: setting up from the first event to the
/// end of the last script that sets the globals up, compiling from there to the
/// end of the user's module, executing from the call of the handler to the moment
/// at which its result was there, and in total from the start of the clock to the
/// last event.
pub proof fn law_a_run_measures_its_parts(
    states: Seq<Fetcher>,
    before: Seq<OpState>,
    events: Seq<FetcherEvent>,
    after: Seq<OpState>,
    actions: Seq<FetcherAction>,
)
    requires
        is_run(states, before, events, after, actions),
        states[0].phase is Client,
    ensures
        !(states.last().phase is Finished) ==> has_measured(states.last(), events),
        events.len() > 0 ==> (actions.last() matches FetcherAction::Finish { result: Ok(r) } ==> {
            &&& events.len() > 11
            &&& events[0] is Client && events[6] is Script && events[7] is Script && events[10]
                is Called
            &&& r.metrics.setup_us == clock::elapsed_us(
                events[0]->Client_now,
                events[6]->Script_now,
            )
            &&& r.metrics.compile_us == clock::elapsed_us(
                events[6]->Script_now,
                events[7]->Script_now,
            )
            &&& was_executed(r.metrics.execute_us, events)
            &&& r.metrics.total_us == clock::elapsed_us(0, events.last()->Read_now)
        }),
    decreases events.len(),
{
    if events.len() > 0 {
        let n = events.len() - 1;
        let e = events.drop_last();
        lemma_run_before(states, before, events, after, actions);
        law_a_run_measures_its_parts(
            states.drop_last(),
            before.drop_last(),
            e,
            after.drop_last(),
            actions.drop_last(),
        );
        assert(states.drop_last().last() == states[n]);
        assert(states[n].wf() && states[n].awaits(events[n]));
        lemma_measuring_goes_on(
            states[n],
            before[n],
            e,
            events[n],
            states[n + 1],
            after[n],
            actions[n],
        );
        assert(e.push(events[n]) =~= events);
    }
}

/// A step keeps what was measured.
#[verifier::rlimit(40)]
proof fn lemma_measuring_goes_on(
    f: Fetcher,
    ops: OpState,
    e: Seq<FetcherEvent>,
    event: FetcherEvent,
    next: Fetcher,
    ops2: OpState,
    action: FetcherAction,
)
    requires
        f.wf(),
        f.awaits(event),
        f.steps(ops, event, next, ops2, action),
        has_measured(f, e),
    ensures
        !(next.phase is Finished) ==> has_measured(next, e.push(event)),
        action matches FetcherAction::Finish { result: Ok(r) } ==> {
            let events = e.push(event);
            &&& events.len() > 11
            &&& events[0] is Client && events[6] is Script && events[7] is Script && events[10]
                is Called
            &&& r.metrics.setup_us == clock::elapsed_us(
                events[0]->Client_now,
                events[6]->Script_now,
            )
            &&& r.metrics.compile_us == clock::elapsed_us(
                events[6]->Script_now,
                events[7]->Script_now,
            )
            &&& was_executed(r.metrics.execute_us, events)
            &&& r.metrics.total_us == clock::elapsed_us(0, events.last()->Read_now)
        },
{
    let events = e.push(event);
    let n = e.len() as int;
    assert(events.drop_last() =~= e);
    assert(events[n] == event);
    assert(forall|i: int| 0 <= i < n ==> #[trigger] events[i] == e[i]);
    match f.phase {
        FetcherPhase::Reading { .. } => {
            lemma_was_executed(f.times.execute_us, events);
        },
        FetcherPhase::Settling => {
            assert(events[n] is Promise);
        },
        _ => {},
    }
}

proof fn lemma_was_executed(us: u128, events: Seq<FetcherEvent>)
    requires
        events.len() > 11,
        was_executed(us, events.drop_last()),
    ensures
        was_executed(us, events),
{
    let e = events.drop_last();
    assert(e[10] == events[10]);
    if !(e[10]->Called_outcome is Value && us == clock::elapsed_us(
        e[10]->started,
        e[10]->Called_now,
    )) {
        let k = choose|k: int|
            10 < k < e.len() && (#[trigger] e[k]) is Promise && e[k]->state is Fulfilled && us
                == clock::elapsed_us(e[10]->started, e[k]->Promise_now);
        assert(events[k] == e[k]);
    }
}

} // verus!
