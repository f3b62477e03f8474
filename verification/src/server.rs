//! The HTTP server: what each route runs, and what it answers.
//!
//! A route turns a request into a [`Workload`]. The program runs it and hands
//! back what came of it ([`TaskOutcome`]), or passes on what a streaming run prints
//! ([`Received`]).

use vstd::prelude::*;
use vstd::utf8::*;

use crate::encoding;
use crate::encoding::{decode_base64, decode_text_lossy};
use crate::text;
use crate::text::{join2, join3, lines_of, same_text, split_whitespace};
use crate::wasm;
use crate::wasm::{Preopen, WasmConfig, WasmMetrics};

verus! {

/// What the routes share.
pub struct AppState {
    /// The directory that components see as `/state`.
    pub state_dir: std::path::PathBuf,
}

// ---- answers ----

/// An answer that reports a failure.
#[derive(Debug)]
pub struct HttpError {
    pub status: u16,
    pub error: String,
}

/// The answer that reports `msg` with the given status.
pub fn err(status: u16, msg: String) -> (e: HttpError)
    ensures
        e.status == status,
        e.error@ == msg@,
{
    HttpError { status, error: msg }
}

/// How long the phases of a run took.
#[derive(Debug)]
pub struct Metrics {
    pub wasm_size_bytes: usize,
    pub engine_us: u128,
    pub compile_us: u128,
    pub link_us: u128,
    pub instantiate_us: u128,
    pub run_us: u128,
    pub total_us: u128,
}

/// The answer that reports a run.
#[derive(Debug)]
pub struct WasmResponse {
    pub stdout: String,
    pub stderr: String,
    pub metrics: Metrics,
}

/// Whether `r` reports the run that `m` describes.
pub open spec fn is_report(r: WasmResponse, m: WasmMetrics) -> bool {
    &&& r.stdout@ == m.stdout@
    &&& r.stderr@ == m.stderr@
    &&& r.metrics.wasm_size_bytes == m.wasm_size
    &&& r.metrics.engine_us == m.engine_us
    &&& r.metrics.compile_us == m.compile_us
    &&& r.metrics.link_us == m.link_us
    &&& r.metrics.instantiate_us == m.instantiate_us
    &&& r.metrics.run_us == m.run_us
    &&& r.metrics.total_us == m.total_us
}

/// The answer that reports a run.
pub fn metrics_response(m: WasmMetrics) -> (r: WasmResponse)
    ensures
        is_report(r, m),
        r.stdout@ == m.stdout@,
        r.stderr@ == m.stderr@,
        r.metrics.wasm_size_bytes == m.wasm_size,
        r.metrics.engine_us == m.engine_us,
        r.metrics.compile_us == m.compile_us,
        r.metrics.link_us == m.link_us,
        r.metrics.instantiate_us == m.instantiate_us,
        r.metrics.run_us == m.run_us,
        r.metrics.total_us == m.total_us,
{
    WasmResponse {
        stdout: m.stdout,
        stderr: m.stderr,
        metrics: Metrics {
            wasm_size_bytes: m.wasm_size,
            engine_us: m.engine_us,
            compile_us: m.compile_us,
            link_us: m.link_us,
            instantiate_us: m.instantiate_us,
            run_us: m.run_us,
            total_us: m.total_us,
        },
    }
}

/// Who chose the component that a route runs.
#[derive(Clone, Copy, PartialEq, Eq, Structural, Debug)]
pub enum Origin {
    /// The client sent it.
    Client,
    /// It is the server's own.
    Server,
}

/// What came of running a workload in a task of its own.
pub enum TaskOutcome {
    /// The task was lost.
    Lost { error: String },
    /// The run failed.
    Failed { error: String },
    Done { metrics: WasmMetrics },
}

/// The answer to a request that ran a workload. A run that fails is the client's
/// fault where the client chose the component, and the server's otherwise.
pub fn run_outcome(origin: Origin, outcome: TaskOutcome) -> (r: Result<WasmResponse, HttpError>)
    ensures
        match outcome {
            TaskOutcome::Lost { error } => r matches Err(e) && e.status == 500 && e.error@
                == "task failed: "@ + error@,
            TaskOutcome::Failed { error } => r matches Err(e) && e.error@ == error@ && e.status
                == match origin {
                Origin::Client => 400u16,
                Origin::Server => 500u16,
            },
            TaskOutcome::Done { metrics } => r matches Ok(response) && is_report(response, metrics)
                && response.stdout@ == metrics.stdout@ && response.stderr@ == metrics.stderr@,
        },
{
    match outcome {
        TaskOutcome::Lost { error } => Err(err(500, join2("task failed: ", error.as_str()))),
        TaskOutcome::Failed { error } => match origin {
            Origin::Client => Err(err(400, error)),
            Origin::Server => Err(err(500, error)),
        },
        TaskOutcome::Done { metrics } => Ok(metrics_response(metrics)),
    }
}

// ---- workloads ----

/// A component and everything that it is run with.
pub struct Workload {
    pub wasm_bytes: Vec<u8>,
    pub args: Vec<String>,
    pub env_vars: Vec<(String, String)>,
    pub allow_network: bool,
    pub preopens: Vec<Preopen>,
}

impl Workload {
    /// The configuration of a run of this workload.
    pub fn config<'a>(&'a self) -> (c: WasmConfig<'a>)
        ensures
            c.wasm_bytes@ == self.wasm_bytes@,
            c.args@ == self.args@,
            c.env_vars@ == self.env_vars@,
            c.allow_network == self.allow_network,
            c.preopens@ == self.preopens@,
    {
        WasmConfig {
            wasm_bytes: self.wasm_bytes.as_slice(),
            args: self.args.as_slice(),
            env_vars: self.env_vars.as_slice(),
            allow_network: self.allow_network,
            preopens: self.preopens.as_slice(),
        }
    }

    /// Whether the workload sees `state_dir` as `/state` and no other directory.
    pub open spec fn sees_only_state(self, state_dir: std::path::PathBuf) -> bool {
        &&& self.preopens@.len() == 1
        &&& self.preopens@[0].host_path == state_dir
        &&& self.preopens@[0].guest_path@ == "/state"@
    }
}

/// Opens `state_dir` as `/state`.
pub fn state_preopens(state_dir: std::path::PathBuf) -> (v: Vec<Preopen>)
    ensures
        v@.len() == 1,
        v@[0].host_path == state_dir,
        v@[0].guest_path@ == "/state"@,
{
    let mut v: Vec<Preopen> = Vec::new();
    v.push(Preopen { host_path: state_dir, guest_path: "/state".to_string() });
    v
}

fn push_var(vars: &mut Vec<(String, String)>, name: &str, value: &str)
    ensures
        final(vars).deep_view() == old(vars).deep_view().push((name@, value@)),
{
    let ghost before = vars.deep_view();
    vars.push((name.to_string(), value.to_string()));
    assert(vars.deep_view() =~= before.push((name@, value@)));
}

fn push_arg(args: &mut Vec<String>, arg: &str)
    ensures
        final(args).deep_view() == old(args).deep_view().push(arg@),
{
    let ghost before = args.deep_view();
    args.push(arg.to_string());
    assert(args.deep_view() =~= before.push(arg@));
}

// ---- POST /run ----

/// A request to run a component.
pub struct WasmRequest {
    /// The component, in Base64.
    pub wasm: String,
    pub args: Vec<String>,
    pub env: Vec<(String, String)>,
    pub allow_network: bool,
    /// Context for the component, which it finds in its environment.
    pub ctx: Option<serde_json::Value>,
}

/// The text of a JSON value.
pub uninterp spec fn json_text(v: serde_json::Value) -> Seq<char>;

/// `serde_json::to_string` for a `serde_json::Value`: its text, which depends on
/// the value alone. A value that exists can always be written.
#[verifier::external_body]
fn value_to_string(v: &serde_json::Value) -> (r: Option<String>)
    ensures
        r is Some,
        r->0@ == json_text(*v),
{
    serde_json::to_string(v).ok()
}

/// The environment of a component that a client sent.
pub open spec fn run_env(
    env: Seq<(Seq<char>, Seq<char>)>,
    ctx: Option<serde_json::Value>,
) -> Seq<(Seq<char>, Seq<char>)> {
    match ctx {
        Some(v) => env.push(("CF_CTX_JSON"@, json_text(v))),
        None => env,
    }
}

/// What `POST /run` runs: the component that the client sent, with the
/// arguments and environment that it asked for and without any directory.
pub fn run_wasm_handler(req: WasmRequest) -> (r: Result<Workload, HttpError>)
    ensures
        if encoding::is_base64(req.wasm@) {
            &&& r matches Ok(w)
            &&& encoding::base64_encoded(w.wasm_bytes@) == req.wasm@
            &&& w.args@ == req.args@
            &&& w.env_vars.deep_view() == run_env(req.env.deep_view(), req.ctx)
            &&& match req.ctx {
                Some(v) => {
                    let vars = w.env_vars.deep_view();
                    &&& vars.len() == req.env@.len() + 1
                    &&& vars.last() == ("CF_CTX_JSON"@, json_text(v))
                    &&& vars.drop_last() == req.env.deep_view()
                },
                None => w.env_vars@ == req.env@,
            }
            &&& w.allow_network == req.allow_network
            &&& w.preopens@.len() == 0
        } else {
            r matches Err(failure) && failure.status == 400 && failure.error@
                == "invalid base64: "@ + encoding::base64_error(req.wasm@)
        },
{
    let wasm_bytes = match decode_base64(req.wasm.as_str()) {
        Ok(bytes) => bytes,
        Err(e) => return Err(err(400, join2("invalid base64: ", e.as_str()))),
    };
    let mut env_vars = req.env;
    if let Some(ctx) = &req.ctx {
        if let Some(json) = value_to_string(ctx) {
            push_var(&mut env_vars, "CF_CTX_JSON", json.as_str());
        }
    }
    Ok(
        Workload {
            wasm_bytes,
            args: req.args,
            env_vars,
            allow_network: req.allow_network,
            preopens: Vec::new(),
        },
    )
}

// ---- the server's own components ----

/// A component that lies on the server's disk.
#[derive(Clone, Copy, PartialEq, Eq, Structural, Debug)]
pub enum Installed {
    /// The tour of the WASI interfaces.
    Showcase,
    /// The shell.
    Shell,
}

/// The environment variable that names the file of a component.
pub fn wasm_path_variable(which: Installed) -> (s: &'static str)
    ensures
        s@ == match which {
            Installed::Showcase => "DEMO_WASM_PATH"@,
            Installed::Shell => "UDP_WASM_PATH"@,
        },
{
    match which {
        Installed::Showcase => "DEMO_WASM_PATH",
        Installed::Shell => "UDP_WASM_PATH",
    }
}

/// Where the file of a component lies if nothing else is said.
pub open spec fn default_wasm_path(which: Installed) -> Seq<char> {
    match which {
        Installed::Showcase =>
            "crates/examples/wasip2-showcase/target/wasm32-wasip2/release/wasip2-showcase.wasm"@,
        Installed::Shell =>
            "crates/examples/wasip2-udp-pingpong/target/wasm32-wasip2/release/wasip2-udp-pingpong.wasm"@,
    }
}

/// The file of a component, given the value of its environment variable.
pub fn wasm_path(which: Installed, configured: Option<String>) -> (path: String)
    ensures
        path@ == match configured {
            Some(p) => p@,
            None => default_wasm_path(which),
        },
        path@ == match configured {
            Some(p) => p@,
            None => match which {
                Installed::Showcase =>
                    "crates/examples/wasip2-showcase/target/wasm32-wasip2/release/wasip2-showcase.wasm"@,
                Installed::Shell =>
                    "crates/examples/wasip2-udp-pingpong/target/wasm32-wasip2/release/wasip2-udp-pingpong.wasm"@,
            },
        },
{
    match configured {
        Some(p) => p,
        None => match which {
            Installed::Showcase =>
                "crates/examples/wasip2-showcase/target/wasm32-wasip2/release/wasip2-showcase.wasm".to_string(),
            Installed::Shell =>
                "crates/examples/wasip2-udp-pingpong/target/wasm32-wasip2/release/wasip2-udp-pingpong.wasm".to_string(),
        },
    }
}

/// The bytes of a component, given what came of reading its file.
pub fn load_wasm(path: &str, read: Result<Vec<u8>, String>) -> (r: Result<Vec<u8>, HttpError>)
    ensures
        match read {
            Ok(bytes) => r matches Ok(b) && b@ == bytes@,
            Err(e) => r matches Err(failure) && failure.status == 500 && failure.error@ == path@
                + ": "@ + e@,
        },
{
    match read {
        Ok(bytes) => Ok(bytes),
        Err(e) => Err(err(500, join3(path, ": ", e.as_str()))),
    }
}

/// What `GET /demo` runs.
pub fn demo_showcase(wasm_bytes: Vec<u8>) -> (w: Workload)
    ensures
        w.wasm_bytes@ == wasm_bytes@,
        w.args.deep_view() == seq!["wasip2-showcase"@, "--demo"@],
        w.env_vars.deep_view() == seq![
            ("RUNTIME"@, "v8-matrix"@),
            ("WASI_VERSION"@, "preview2"@),
            ("DEMO"@, "true"@),
        ],
        !w.allow_network,
        w.preopens@.len() == 0,
{
    let mut args: Vec<String> = Vec::new();
    push_arg(&mut args, "wasip2-showcase");
    push_arg(&mut args, "--demo");
    let mut env_vars: Vec<(String, String)> = Vec::new();
    push_var(&mut env_vars, "RUNTIME", "v8-matrix");
    push_var(&mut env_vars, "WASI_VERSION", "preview2");
    push_var(&mut env_vars, "DEMO", "true");
    Workload { wasm_bytes, args, env_vars, allow_network: false, preopens: Vec::new() }
}

/// The arguments of the shell for a command line.
pub open spec fn shell_args(cmd: Seq<char>) -> Seq<Seq<char>> {
    seq!["wasi-shell"@] + text::words(cmd)
}

/// Whether a command line needs the network.
pub open spec fn needs_network(cmd: Seq<char>) -> bool {
    text::words(cmd).len() > 0 && text::words(cmd)[0] == "echo"@
}

/// Splits a command line into the arguments of the shell, and says whether the
/// command needs the network.
fn shell_command(cmd: &str) -> (r: (Vec<String>, bool))
    ensures
        r.0.deep_view() == shell_args(cmd@),
        r.1 == needs_network(cmd@),
{
    let parts = split_whitespace(cmd);
    assert(parts.deep_view().len() == parts@.len());
    let network = parts.len() > 0 && same_text(parts[0].as_str(), "echo");
    let mut args: Vec<String> = Vec::new();
    push_arg(&mut args, "wasi-shell");
    let ghost (head, tail) = (args, parts);
    let mut parts = parts;
    args.append(&mut parts);
    assert(args@ =~= head@ + tail@);
    assert(args.deep_view() =~= head.deep_view() + tail.deep_view());
    assert(head.deep_view() =~= seq!["wasi-shell"@]);
    (args, network)
}

/// What `GET /exec` runs: the shell with the given command. Only `echo` gets the
/// network.
pub fn exec_cmd(state_dir: std::path::PathBuf, cmd: &str, wasm_bytes: Vec<u8>) -> (w: Workload)
    ensures
        w.wasm_bytes@ == wasm_bytes@,
        w.args.deep_view() == shell_args(cmd@),
        w.env_vars.deep_view() == seq![
            ("RUNTIME"@, "v8-matrix"@),
            ("WASI_VERSION"@, "preview2"@),
        ],
        w.allow_network == needs_network(cmd@),
        w.sees_only_state(state_dir),
        w.args@.len() == 1 + text::words(cmd@).len(),
        w.args@[0]@ == "wasi-shell"@,
        w.args.deep_view().skip(1) == text::words(cmd@),
        w.allow_network <==> text::words(cmd@).len() > 0 && text::words(cmd@)[0] == "echo"@,
        w.preopens@.len() == 1,
        w.preopens@[0].host_path == state_dir,
        w.preopens@[0].guest_path@ == "/state"@,
{
    let (args, allow_network) = shell_command(cmd);
    proof {
        law_the_shell_gets_every_word(cmd@);
        assert(args.deep_view()[0] == args@[0]@);
    }
    let mut env_vars: Vec<(String, String)> = Vec::new();
    push_var(&mut env_vars, "RUNTIME", "v8-matrix");
    push_var(&mut env_vars, "WASI_VERSION", "preview2");
    Workload { wasm_bytes, args, env_vars, allow_network, preopens: state_preopens(state_dir) }
}

// ---- streaming ----

/// What `GET /exec/stream` runs: the shell with the given command and the
/// network.
pub fn exec_stream(state_dir: std::path::PathBuf, cmd: &str, wasm_bytes: Vec<u8>) -> (w: Workload)
    ensures
        w.wasm_bytes@ == wasm_bytes@,
        w.args.deep_view() == shell_args(cmd@),
        w.env_vars@.len() == 0,
        w.allow_network,
        w.sees_only_state(state_dir),
        w.args@.len() == 1 + text::words(cmd@).len(),
        w.args@[0]@ == "wasi-shell"@,
        w.args.deep_view().skip(1) == text::words(cmd@),
        w.preopens@.len() == 1,
        w.preopens@[0].host_path == state_dir,
        w.preopens@[0].guest_path@ == "/state"@,
{
    let (args, _needs_network) = shell_command(cmd);
    proof {
        law_the_shell_gets_every_word(cmd@);
        assert(args.deep_view()[0] == args@[0]@);
    }
    Workload {
        wasm_bytes,
        args,
        env_vars: Vec::new(),
        allow_network: true,
        preopens: state_preopens(state_dir),
    }
}

/// What waiting for the output of a streaming run has given.
pub enum Received {
    Data { bytes: Vec<u8> },
    /// Nothing yet.
    Timeout,
    /// The run is over and everything was received.
    Disconnected,
}

/// What a stream of events does next.
pub enum StreamStep {
    /// Send one event for each line.
    Send { lines: Vec<String> },
    /// Let others run, and wait again.
    Wait,
    /// End the stream.
    Stop,
}

/// How long a stream waits for output, in milliseconds.
pub const RECEIVE_TIMEOUT_MS: u64 = 50;

/// Seconds between two signs of life on a stream of events.
pub const KEEP_ALIVE_SECS: u64 = 1;

/// What a stream of events does with what was received: every line becomes an
/// event.
pub fn stream_step(received: Received) -> (step: StreamStep)
    ensures
        match received {
            Received::Data { bytes } => step matches StreamStep::Send { lines } && lines.deep_view()
                == text::text_lines(encoding::utf8_lossy(bytes@)),
            Received::Timeout => step is Wait,
            Received::Disconnected => step is Stop,
        },
{
    match received {
        Received::Data { bytes } => {
            let shown = decode_text_lossy(bytes.as_slice());
            StreamStep::Send { lines: lines_of(shown.as_str()) }
        },
        Received::Timeout => StreamStep::Wait,
        Received::Disconnected => StreamStep::Stop,
    }
}

// ---- the server itself ----

/// The largest body that a request may have.
pub const MAX_BODY_BYTES: usize = 50 * 1024 * 1024;

/// The port for plain HTTP.
pub const HTTP_PORT: u16 = 3000;

/// The port for WebTransport: the standard one where certificates are
/// provisioned for a domain, another one otherwise.
pub fn webtransport_port(provisioned: bool) -> (port: u16)
    ensures
        port == if provisioned {
            443u16
        } else {
            4433u16
        },
{
    if provisioned {
        443
    } else {
        4433
    }
}

/// The command that starts a browser which accepts the server's certificate.
pub fn browser_command(spki_hash: &str) -> (s: String)
    ensures
        s@
            == "open -na 'Google Chrome' --args --origin-to-force-quic-on=127.0.0.1:4433 --ignore-certificate-errors-spki-list="@
            + spki_hash@ + " http://localhost:3000"@,
{
    join3(
        "open -na 'Google Chrome' --args --origin-to-force-quic-on=127.0.0.1:4433 --ignore-certificate-errors-spki-list=",
        spki_hash,
        " http://localhost:3000",
    )
}

// ---- laws ----

/// A report tells everything that was measured, each under its own name, and
/// what was printed where it was printed.
pub proof fn law_a_report_tells_everything(r: WasmResponse, m: WasmMetrics)
    requires
        is_report(r, m),
    ensures
        r.stdout@ == m.stdout@,
        r.stderr@ == m.stderr@,
        r.metrics.wasm_size_bytes == m.wasm_size,
        r.metrics.engine_us == m.engine_us,
        r.metrics.compile_us == m.compile_us,
        r.metrics.link_us == m.link_us,
        r.metrics.instantiate_us == m.instantiate_us,
        r.metrics.run_us == m.run_us,
        r.metrics.total_us == m.total_us,
{
}

/// A context reaches the component whatever its environment is: it is the last of
/// the variables, and those before it are the ones that the client asked for.
/// Without a context the environment is what the client asked for.
pub proof fn law_a_context_is_handed_on(
    env: Seq<(Seq<char>, Seq<char>)>,
    ctx: Option<serde_json::Value>,
)
    ensures
        match ctx {
            Some(v) => {
                &&& run_env(env, ctx).len() == env.len() + 1
                &&& run_env(env, ctx).last() == ("CF_CTX_JSON"@, json_text(v))
                &&& run_env(env, ctx).drop_last() == env
            },
            None => run_env(env, ctx) == env,
        },
{
    if let Some(v) = ctx {
        assert(run_env(env, ctx).drop_last() =~= env);
    }
}

/// The shell is called by its name, with every word of the command line, in
/// order, and gets the network exactly if the first word is `echo`.
pub proof fn law_the_shell_gets_every_word(cmd: Seq<char>)
    ensures
        shell_args(cmd).len() == 1 + text::words(cmd).len(),
        shell_args(cmd)[0] == "wasi-shell"@,
        shell_args(cmd).skip(1) == text::words(cmd),
        needs_network(cmd) <==> text::words(cmd).len() > 0 && text::words(cmd)[0] == "echo"@,
{
    assert(shell_args(cmd).skip(1) =~= text::words(cmd));
}

/// A workload that sees the server's state sees it as `/state`, and no other
/// directory.
pub proof fn law_only_the_state_is_open(w: Workload, state_dir: std::path::PathBuf)
    requires
        w.sees_only_state(state_dir),
    ensures
        w.preopens@.len() == 1,
        forall|i: int|
            0 <= i < w.preopens@.len() ==> {
                &&& (#[trigger] w.preopens@[i]).host_path == state_dir
                &&& w.preopens@[i].guest_path@ == "/state"@
            },
{
}

/// The lines that each of the given pieces of output shows, one after the other.
pub open spec fn shown_lines(pieces: Seq<Seq<u8>>) -> Seq<Seq<char>> {
    pieces.map_values(|p: Seq<u8>| text::text_lines(decode_utf8(p))).flatten()
}

/// Output that is text makes the same events whether it is received as a whole
/// or line by line, and each line by itself is text again.
pub proof fn law_lines_make_the_same_events(bytes: Seq<u8>)
    requires
        valid_utf8(bytes),
    ensures
        forall|i: int|
            0 <= i < wasm::line_pieces(bytes).len() ==> valid_utf8(
                #[trigger] wasm::line_pieces(bytes)[i],
            ),
        shown_lines(wasm::line_pieces(bytes)) == text::text_lines(decode_utf8(bytes)),
{
    wasm::law_lines_are_what_was_written(bytes);
    lemma_shown_lines(wasm::line_pieces(bytes));
}

proof fn lemma_shown_lines(pieces: Seq<Seq<u8>>)
    requires
        valid_utf8(pieces.flatten()),
        forall|i: int| 0 <= i < pieces.len() ==> wasm::is_line(#[trigger] pieces[i]),
        forall|i: int| 0 <= i < pieces.len() - 1 ==> (#[trigger] pieces[i]).last() == 0x0a,
    ensures
        forall|i: int| 0 <= i < pieces.len() ==> valid_utf8(#[trigger] pieces[i]),
        shown_lines(pieces) == text::text_lines(decode_utf8(pieces.flatten())),
    decreases pieces.len(),
{
    let f = |p: Seq<u8>| text::text_lines(decode_utf8(p));
    if pieces.len() == 0 {
        assert(pieces.flatten() =~= Seq::<u8>::empty());
        assert(shown_lines(pieces) =~= Seq::<Seq<char>>::empty());
        assert(decode_utf8(Seq::<u8>::empty()) =~= Seq::<char>::empty());
    } else {
        let first = pieces[0];
        let rest = pieces.drop_first();
        let all = pieces.flatten();
        let k = first.len() as int;
        assert(all == first + rest.flatten());
        assert(pieces.map_values(f).drop_first() =~= rest.map_values(f));
        assert(shown_lines(pieces) == f(first) + shown_lines(rest));
        if rest.len() == 0 {
            assert(rest.flatten() =~= Seq::<u8>::empty());
            assert(all =~= first);
            assert(shown_lines(rest) =~= Seq::<Seq<char>>::empty());
            assert(shown_lines(pieces) =~= f(first));
        } else {
            assert(first.last() == 0x0a);
            assert(all[k - 1] == 0x0a);
            lemma_boundary_after_ascii(all, k - 1);
            valid_utf8_split(all, k);
            decode_utf8_split(all, k);
            assert(all.subrange(0, k) =~= first);
            assert(all.subrange(k, all.len() as int) =~= rest.flatten());
            assert(forall|i: int| 0 <= i < rest.len() ==> #[trigger] rest[i] == pieces[i + 1]);
            lemma_shown_lines(rest);
            lemma_decode_newline(first);
            text::lemma_lines_after_newline(decode_utf8(first), decode_utf8(rest.flatten()));
            assert forall|i: int| 0 <= i < pieces.len() implies valid_utf8(#[trigger] pieces[i]) by {
                if i > 0 {
                    assert(rest[i - 1] == pieces[i]);
                }
            }
        }
    }
}

/// Behind a byte of one character there is a character boundary.
proof fn lemma_boundary_after_ascii(bytes: Seq<u8>, k: int)
    requires
        valid_utf8(bytes),
        0 <= k < bytes.len(),
        bytes[k] <= 0x7f,
    ensures
        is_char_boundary(bytes, k + 1),
    decreases bytes.len(),
{
    let n = length_of_first_scalar(bytes);
    let rest = pop_first_scalar(bytes);
    if k < n {
        assert(k == 0);
        assert(is_char_boundary(rest, 0));
    } else {
        lemma_boundary_after_ascii(rest, k - n);
    }
}

/// Bytes that end with a newline encode a text that ends with one.
proof fn lemma_decode_newline(bytes: Seq<u8>)
    requires
        valid_utf8(bytes),
        bytes.len() > 0,
        bytes.last() == 0x0a,
    ensures
        decode_utf8(bytes).len() > 0,
        decode_utf8(bytes).last() == '\n',
{
    let n = bytes.len() - 1;
    is_char_boundary_iff_not_is_continuation_byte(bytes, n);
    valid_utf8_split(bytes, n);
    decode_utf8_split(bytes, n);
    let end = bytes.subrange(n, bytes.len() as int);
    assert(end =~= seq![0x0au8]);
    let newline = seq!['\n'];
    is_ascii_chars_encode_utf8(newline);
    assert(newline[0] as u8 == 0x0a);
    assert(encode_utf8(newline) =~= end);
    encode_utf8_decode_utf8(newline);
}

} // verus!
