//! Running a WASI component: what it may reach, the phases of a run, and what
//! is reported of it.
//!
//! [`execute_wasm`] and [`execute_wasm_streaming`] start a run. The run says what the
//! engine is to do next ([`WasmAction`]) and is told what came of it
//! ([`WasmEvent`]). Times are nanoseconds since the start of the run.

use vstd::prelude::*;
use vstd::utf8::*;

use crate::clock;
use crate::clock::micros;
use crate::encoding;
use crate::encoding::decode_text;

verus! {

/// `std::path::PathBuf`, carried from the configuration to the engine.
#[verifier::external_type_specification]
#[verifier::external_body]
pub struct ExPathBuf(std::path::PathBuf);

/// `wasmtime::Engine`, carried from its creation to the engine's other calls.
#[verifier::external_type_specification]
#[verifier::external_body]
pub struct ExEngine(wasmtime::Engine);

/// `wasmtime::component::Component`, carried from its compilation to the linker.
#[verifier::external_type_specification]
#[verifier::external_body]
pub struct ExComponent(wasmtime::component::Component);

/// Metrics from a WASM execution run.
#[derive(Debug)]
pub struct WasmMetrics {
    /// Captured stdout from the component.
    pub stdout: String,
    /// Captured stderr from the component.
    pub stderr: String,
    /// Size of the input wasm component in bytes.
    pub wasm_size: usize,
    /// Time to create the wasmtime engine.
    pub engine_us: u128,
    /// Time to compile the component.
    pub compile_us: u128,
    /// Time to link WASI imports.
    pub link_us: u128,
    /// Time to instantiate the component.
    pub instantiate_us: u128,
    /// Time to execute the component's run function.
    pub run_us: u128,
    /// Total wall-clock time.
    pub total_us: u128,
}

/// A preopened directory mapping.
pub struct Preopen {
    pub host_path: std::path::PathBuf,
    pub guest_path: String,
}

/// Configuration for executing a WASI P2 component.
#[derive(Clone, Copy)]
pub struct WasmConfig<'a> {
    pub wasm_bytes: &'a [u8],
    pub args: &'a [String],
    pub env_vars: &'a [(String, String)],
    pub allow_network: bool,
    pub preopens: &'a [Preopen],
}

// ---- the engine ----

/// The first bytes of every component in the binary format.
pub open spec fn is_component(bytes: Seq<u8>) -> bool {
    &&& bytes.len() >= 8
    &&& bytes.take(8) == seq![0u8, 0x61, 0x73, 0x6d, 0x0d, 0x00, 0x01, 0x00]
}

/// What an engine is made with.
#[derive(Clone, Copy, PartialEq, Eq, Structural, Debug)]
pub struct EngineSettings {
    /// Whether it takes components.
    pub component_model: bool,
    /// Whether a component can be interrupted from outside.
    pub epoch_interruption: bool,
}

/// The settings with which an engine was made.
pub uninterp spec fn settings_of(engine: wasmtime::Engine) -> EngineSettings;

/// `wasmtime::Engine::new`, with a `wasmtime::Config` that differs from the
/// default in the given settings: an engine that has these settings. Whether one
/// can be made depends on the machine, and is not claimed.
#[verifier::external_body]
fn engine_new(settings: EngineSettings) -> (r: Result<wasmtime::Engine, String>)
    ensures
        r matches Ok(engine) ==> settings_of(engine) == settings,
{
    let mut config = wasmtime::Config::new();
    config.wasm_component_model(settings.component_model);
    config.epoch_interruption(settings.epoch_interruption);
    wasmtime::Engine::new(&config).map_err(|e| e.to_string())
}

/// The engine that a component was compiled by, as `Component::engine` gives it.
pub uninterp spec fn component_engine(c: wasmtime::component::Component) -> wasmtime::Engine;

/// The bytes from which a component was compiled.
pub uninterp spec fn component_source(c: wasmtime::component::Component) -> Seq<u8>;

/// `wasmtime::component::Component::new`: the component that the bytes hold,
/// compiled by the given engine. Bytes without the preamble of a component are
/// refused; whether others compile depends on their contents and on the machine,
/// and is not claimed.
#[verifier::external_body]
fn component_new(engine: &wasmtime::Engine, bytes: &[u8]) -> (r: Result<
    wasmtime::component::Component,
    String,
>)
    ensures
        r is Ok ==> is_component(bytes@),
        r matches Ok(c) ==> component_engine(c) == *engine,
        r matches Ok(c) ==> component_source(c) == bytes@,
{
    wasmtime::component::Component::new(engine, bytes).map_err(|e| e.to_string())
}

/// The settings of an engine: only a streaming run can be interrupted.
pub fn engine_settings(mode: WasmMode) -> (settings: EngineSettings)
    ensures
        settings.component_model,
        settings.epoch_interruption == (mode == WasmMode::Streaming),
{
    EngineSettings { component_model: true, epoch_interruption: mode == WasmMode::Streaming }
}

/// Makes an engine for components, which can interrupt them if the run is a
/// streaming one. Whether it succeeds depends on the machine.
pub fn create_engine(mode: WasmMode) -> (r: Result<wasmtime::Engine, String>)
    ensures
        r matches Ok(engine) ==> settings_of(engine) == (EngineSettings {
            component_model: true,
            epoch_interruption: mode == WasmMode::Streaming,
        }),
{
    engine_new(engine_settings(mode))
}

/// Compiles a component with the given engine. What is not a component in the
/// binary format is refused, whatever the engine; whether the rest succeeds
/// depends on the contents and on the machine.
pub fn compile_component(engine: &wasmtime::Engine, bytes: &[u8]) -> (r: Result<
    wasmtime::component::Component,
    String,
>)
    ensures
        !is_component(bytes@) ==> r is Err,
        r matches Ok(c) ==> component_engine(c) == *engine && component_source(c) == bytes@,
{
    component_new(engine, bytes)
}

// ---- what a component may reach ----

/// How a run hands out what the component prints.
#[derive(Clone, Copy, PartialEq, Eq, Structural, Debug)]
pub enum WasmMode {
    /// All at once, at the end.
    Buffered,
    /// Line by line, while the component runs.
    Streaming,
}

/// How many bytes of output are kept in memory.
pub const PIPE_CAPACITY: usize = 64 * 1024;

/// How many bytes a component may write to a stream at a time.
pub const STREAM_BUDGET: usize = 1024 * 1024;

/// One step in setting up what a component may reach.
pub enum SetupStep<'a> {
    /// Standard output goes to a pipe in memory of this size.
    StdoutPipe { capacity: usize },
    /// Standard output goes to a channel.
    StdoutChannel,
    /// Standard error goes to a pipe in memory of this size.
    StderrPipe { capacity: usize },
    Args { args: &'a [String] },
    Envs { vars: &'a [(String, String)] },
    InheritNetwork,
    AllowUdp,
    AllowTcp,
    /// A directory is open to the component, for reading and writing.
    OpenDirectory { preopen: &'a Preopen },
}

pub open spec fn output_step<'a>(mode: WasmMode) -> SetupStep<'a> {
    match mode {
        WasmMode::Buffered => SetupStep::StdoutPipe { capacity: PIPE_CAPACITY },
        WasmMode::Streaming => SetupStep::StdoutChannel,
    }
}

pub open spec fn network_steps<'a>(allow: bool) -> Seq<SetupStep<'a>> {
    if allow {
        seq![SetupStep::InheritNetwork, SetupStep::AllowUdp, SetupStep::AllowTcp]
    } else {
        Seq::empty()
    }
}

pub open spec fn directory_steps<'a>(preopens: Seq<Preopen>) -> Seq<SetupStep<'a>> {
    preopens.map_values(|p: Preopen| SetupStep::OpenDirectory { preopen: &p })
}

/// The steps that set a component up: output, arguments and environment, the
/// network if it is allowed, and the directories in order.
pub open spec fn setup_steps<'a>(config: WasmConfig<'a>, mode: WasmMode) -> Seq<SetupStep<'a>> {
    seq![
        output_step(mode),
        SetupStep::StderrPipe { capacity: PIPE_CAPACITY },
        SetupStep::Args { args: config.args },
        SetupStep::Envs { vars: config.env_vars },
    ] + network_steps(config.allow_network) + directory_steps(config.preopens@)
}

/// Lists the steps that set a component up.
pub fn wasi_setup<'a>(config: &WasmConfig<'a>, mode: WasmMode) -> (steps: Vec<SetupStep<'a>>)
    ensures
        steps@ == setup_steps(*config, mode),
{
    let mut steps: Vec<SetupStep<'a>> = Vec::new();
    match mode {
        WasmMode::Buffered => {
            steps.push(SetupStep::StdoutPipe { capacity: PIPE_CAPACITY });
        },
        WasmMode::Streaming => {
            steps.push(SetupStep::StdoutChannel);
        },
    }
    steps.push(SetupStep::StderrPipe { capacity: PIPE_CAPACITY });
    steps.push(SetupStep::Args { args: config.args });
    steps.push(SetupStep::Envs { vars: config.env_vars });
    if config.allow_network {
        steps.push(SetupStep::InheritNetwork);
        steps.push(SetupStep::AllowUdp);
        steps.push(SetupStep::AllowTcp);
    }
    let ghost start = steps@;
    let preopens = config.preopens;
    assert(steps@ =~= start + directory_steps(preopens@.take(0)));
    for i in 0..preopens.len()
        invariant
            steps@ == start + directory_steps(preopens@.take(i as int)),
    {
        assert(preopens@.take(i + 1) =~= preopens@.take(i as int).push(preopens@[i as int]));
        assert(directory_steps::<'a>(preopens@.take(i + 1)) =~= directory_steps::<'a>(
            preopens@.take(i as int),
        ).push(SetupStep::OpenDirectory { preopen: &preopens@[i as int] }));
        steps.push(SetupStep::OpenDirectory { preopen: &preopens[i] });
    }
    assert(preopens@.take(preopens@.len() as int) =~= preopens@);
    assert(steps@ =~= setup_steps(*config, mode));
    steps
}

// ---- the run ----

/// What came of the component's run function.
pub enum RunOutcome {
    /// The call failed.
    Trapped { error: String },
    /// The component reported an error.
    ExitedWithError,
    /// The component reported success.
    Exited,
}

/// Where a run stands.
#[derive(Clone, Copy, PartialEq, Eq, Structural, Debug)]
pub enum WasmPhase {
    Engine,
    Compile,
    Link,
    Setup,
    Instantiate,
    Run,
    Collect,
    Finished,
}

/// What a run is told.
pub enum WasmEvent {
    /// What came of the last action, and when it began and ended.
    Done { result: Result<(), String>, started: u64, now: u64 },
    /// What came of the component, and when it began and ended.
    Ran { outcome: RunOutcome, started: u64, now: u64 },
    /// What the component has printed.
    Output { stdout: Vec<u8>, stderr: Vec<u8> },
}

/// What a run wants done next.
pub enum WasmAction<'a> {
    /// Make an engine with [`create_engine`].
    CreateEngine,
    /// Compile the component with [`compile_component`].
    Compile { bytes: &'a [u8] },
    /// Link the interfaces of WASI.
    Link,
    /// Take these steps, and let the component be interrupted once the epoch
    /// has been advanced that often, if at all.
    Setup { steps: Vec<SetupStep<'a>>, epoch_deadline: Option<u64> },
    /// Instantiate the component.
    Instantiate,
    /// Call the component's run function and wait for it.
    Run,
    /// Call the component's run function in a thread of its own; the run is
    /// over, and whoever asked for it gets the channel and the means to cancel.
    Spawn,
    /// Look at what the component has printed.
    Collect,
    /// The run is over.
    Finish { result: Result<WasmMetrics, String> },
}

/// What was measured so far, in microseconds.
#[derive(Clone, Copy, PartialEq, Eq, Structural, Debug)]
pub struct WasmTimes {
    pub engine_us: u128,
    pub compile_us: u128,
    pub link_us: u128,
    pub instantiate_us: u128,
    pub run_us: u128,
    pub total_us: u128,
}

/// A run of one component.
pub struct WasmRun<'a> {
    pub config: WasmConfig<'a>,
    pub mode: WasmMode,
    pub phase: WasmPhase,
    pub times: WasmTimes,
}

/// After how many advances of the epoch a streaming run is interrupted.
pub const EPOCH_DEADLINE: u64 = 1;

/// Nothing was measured yet.
pub open spec fn unmeasured() -> WasmTimes {
    WasmTimes {
        engine_us: 0,
        compile_us: 0,
        link_us: 0,
        instantiate_us: 0,
        run_us: 0,
        total_us: 0,
    }
}

pub open spec fn wasm_fails(a: WasmAction, message: Seq<char>) -> bool {
    a matches WasmAction::Finish { result } && result matches Err(e) && e@ == message
}

impl<'a> WasmRun<'a> {
    /// Whether `event` answers what the run has asked for.
    pub open spec fn awaits(self, event: WasmEvent) -> bool {
        match self.phase {
            WasmPhase::Run => event is Ran,
            WasmPhase::Collect => event is Output,
            WasmPhase::Finished => false,
            _ => event is Done,
        }
    }

    /// What follows when the phase that the run stands at has succeeded.
    pub open spec fn after_success(
        self,
        started: u64,
        now: u64,
        next: Self,
        action: WasmAction<'a>,
    ) -> bool {
        let us = clock::elapsed_us(started, now);
        match self.phase {
            WasmPhase::Engine => {
                &&& next.phase is Compile
                &&& action matches WasmAction::Compile { bytes }
                &&& bytes == self.config.wasm_bytes
                &&& next.times == WasmTimes { engine_us: us, ..self.times }
            },
            WasmPhase::Compile => {
                &&& next.phase is Link
                &&& action is Link
                &&& next.times == WasmTimes { compile_us: us, ..self.times }
            },
            WasmPhase::Link => {
                &&& next.phase is Setup
                &&& action matches WasmAction::Setup { steps, epoch_deadline }
                &&& steps@ == setup_steps(self.config, self.mode)
                &&& epoch_deadline == match self.mode {
                    WasmMode::Buffered => None,
                    WasmMode::Streaming => Some(EPOCH_DEADLINE),
                }
                &&& next.times == WasmTimes { link_us: us, ..self.times }
            },
            WasmPhase::Setup => {
                &&& next.phase is Instantiate
                &&& action is Instantiate
                &&& next.times == self.times
            },
            _ => {
                &&& next.times == WasmTimes { instantiate_us: us, ..self.times }
                &&& match self.mode {
                    WasmMode::Buffered => next.phase is Run && action is Run,
                    WasmMode::Streaming => next.phase is Finished && action is Spawn,
                }
            },
        }
    }

    /// What the run reports of a component that printed `stdout` and `stderr`:
    /// both must be text, and standard output is looked at first.
    pub open spec fn after_output(
        self,
        stdout: Seq<u8>,
        stderr: Seq<u8>,
        action: WasmAction<'a>,
    ) -> bool {
        if !valid_utf8(stdout) {
            wasm_fails(action, encoding::utf8_error(stdout))
        } else if !valid_utf8(stderr) {
            wasm_fails(action, encoding::utf8_error(stderr))
        } else {
            &&& action matches WasmAction::Finish { result: Ok(m) }
            &&& m.stdout@ == decode_utf8(stdout)
            &&& m.stderr@ == decode_utf8(stderr)
            &&& m.wasm_size == self.config.wasm_bytes@.len()
            &&& m.engine_us == self.times.engine_us
            &&& m.compile_us == self.times.compile_us
            &&& m.link_us == self.times.link_us
            &&& m.instantiate_us == self.times.instantiate_us
            &&& m.run_us == self.times.run_us
            &&& m.total_us == self.times.total_us
        }
    }

    /// What a step does. An error of any phase ends the run with its text.
    pub open spec fn steps(self, event: WasmEvent, next: Self, action: WasmAction<'a>) -> bool {
        &&& next.config == self.config
        &&& next.mode == self.mode
        &&& match event {
            WasmEvent::Done { result: Err(e), .. } => next.phase is Finished && wasm_fails(action, e@),
            WasmEvent::Done { result: Ok(()), started, now } => self.after_success(
                started,
                now,
                next,
                action,
            ),
            WasmEvent::Ran { outcome, started, now } => match outcome {
                RunOutcome::Trapped { error } => next.phase is Finished && wasm_fails(
                    action,
                    error@,
                ),
                RunOutcome::ExitedWithError => next.phase is Finished && wasm_fails(
                    action,
                    "component exited with error"@,
                ),
                RunOutcome::Exited => {
                    &&& next.phase is Collect
                    &&& action is Collect
                    &&& next.times == (WasmTimes {
                        run_us: clock::elapsed_us(started, now),
                        total_us: clock::elapsed_us(0, now),
                        ..self.times
                    })
                },
            },
            WasmEvent::Output { stdout, stderr } => next.phase is Finished && self.after_output(
                stdout@,
                stderr@,
                action,
            ),
        }
    }

    fn start(config: WasmConfig<'a>, mode: WasmMode) -> (r: (Self, WasmAction<'a>))
        ensures
            r.0.config == config,
            r.0.mode == mode,
            r.0.phase is Engine,
            r.0.times == unmeasured(),
            r.1 is CreateEngine,
    {
        let times = WasmTimes {
            engine_us: 0,
            compile_us: 0,
            link_us: 0,
            instantiate_us: 0,
            run_us: 0,
            total_us: 0,
        };
        (WasmRun { config, mode, phase: WasmPhase::Engine, times }, WasmAction::CreateEngine)
    }

    /// Tells the run what came of its last action, and returns the next one.
    pub fn step(&mut self, event: WasmEvent) -> (action: WasmAction<'a>)
        requires
            old(self).awaits(event),
        ensures
            old(self).steps(event, *final(self), action),
            action is Finish || action is Spawn <==> final(self).phase is Finished,
    {
        let phase = self.phase;
        match event {
            WasmEvent::Done { result, started, now } => {
                if let Err(e) = result {
                    self.phase = WasmPhase::Finished;
                    return WasmAction::Finish { result: Err(e) };
                }
                let us = micros(started, now);
                match phase {
                    WasmPhase::Engine => {
                        self.times.engine_us = us;
                        self.phase = WasmPhase::Compile;
                        WasmAction::Compile { bytes: self.config.wasm_bytes }
                    },
                    WasmPhase::Compile => {
                        self.times.compile_us = us;
                        self.phase = WasmPhase::Link;
                        WasmAction::Link
                    },
                    WasmPhase::Link => {
                        self.times.link_us = us;
                        self.phase = WasmPhase::Setup;
                        WasmAction::Setup {
                            steps: wasi_setup(&self.config, self.mode),
                            epoch_deadline: match self.mode {
                                WasmMode::Buffered => None,
                                WasmMode::Streaming => Some(EPOCH_DEADLINE),
                            },
                        }
                    },
                    WasmPhase::Setup => {
                        self.phase = WasmPhase::Instantiate;
                        WasmAction::Instantiate
                    },
                    _ => {
                        self.times.instantiate_us = us;
                        match self.mode {
                            WasmMode::Buffered => {
                                self.phase = WasmPhase::Run;
                                WasmAction::Run
                            },
                            WasmMode::Streaming => {
                                self.phase = WasmPhase::Finished;
                                WasmAction::Spawn
                            },
                        }
                    },
                }
            },
            WasmEvent::Ran { outcome, started, now } => match outcome {
                RunOutcome::Trapped { error } => {
                    self.phase = WasmPhase::Finished;
                    WasmAction::Finish { result: Err(error) }
                },
                RunOutcome::ExitedWithError => {
                    self.phase = WasmPhase::Finished;
                    WasmAction::Finish { result: Err("component exited with error".to_string()) }
                },
                RunOutcome::Exited => {
                    self.times.run_us = micros(started, now);
                    self.times.total_us = micros(0, now);
                    self.phase = WasmPhase::Collect;
                    WasmAction::Collect
                },
            },
            WasmEvent::Output { stdout, stderr } => {
                self.phase = WasmPhase::Finished;
                WasmAction::Finish { result: self.collect(stdout, stderr) }
            },
        }
    }

    fn collect(&self, stdout: Vec<u8>, stderr: Vec<u8>) -> (r: Result<WasmMetrics, String>)
        ensures
            self.after_output(stdout@, stderr@, WasmAction::Finish { result: r }),
    {
        let stdout = match decode_text(stdout) {
            Ok(s) => s,
            Err(e) => return Err(e),
        };
        let stderr = match decode_text(stderr) {
            Ok(s) => s,
            Err(e) => return Err(e),
        };
        Ok(
            WasmMetrics {
                stdout,
                stderr,
                wasm_size: self.config.wasm_bytes.len(),
                engine_us: self.times.engine_us,
                compile_us: self.times.compile_us,
                link_us: self.times.link_us,
                instantiate_us: self.times.instantiate_us,
                run_us: self.times.run_us,
                total_us: self.times.total_us,
            },
        )
    }
}

/// Starts a run that hands out everything at its end.
pub fn execute_wasm<'a>(config: WasmConfig<'a>) -> (r: (WasmRun<'a>, WasmAction<'a>))
    ensures
        r.0.config == config,
        r.0.mode == WasmMode::Buffered,
        r.0.phase is Engine,
        r.0.times == unmeasured(),
        r.1 is CreateEngine,
        forall|answer: WasmEvent| answer is Done ==> #[trigger] r.0.awaits(answer),
{
    WasmRun::start(config, WasmMode::Buffered)
}

/// Starts a run whose standard output is handed out line by line and that can
/// be cancelled.
pub fn execute_wasm_streaming<'a>(config: WasmConfig<'a>) -> (r: (WasmRun<'a>, WasmAction<'a>))
    ensures
        r.0.config == config,
        r.0.mode == WasmMode::Streaming,
        r.0.phase is Engine,
        r.0.times == unmeasured(),
        r.1 is CreateEngine,
        forall|answer: WasmEvent| answer is Done ==> #[trigger] r.0.awaits(answer),
{
    WasmRun::start(config, WasmMode::Streaming)
}

// ---- streaming ----

/// The pieces of a stream of bytes that end with a newline, and what is left.
pub open spec fn piece_scan(bytes: Seq<u8>) -> (Seq<Seq<u8>>, Seq<u8>)
    decreases bytes.len(),
{
    if bytes.len() == 0 {
        (Seq::empty(), Seq::empty())
    } else {
        let (done, open) = piece_scan(bytes.drop_last());
        let open = open.push(bytes.last());
        if bytes.last() == 0x0a {
            (done.push(open), Seq::empty())
        } else {
            (done, open)
        }
    }
}

/// The lines of what was written, each with its newline; the last may have
/// none.
pub open spec fn line_pieces(bytes: Seq<u8>) -> Seq<Seq<u8>> {
    let (done, open) = piece_scan(bytes);
    if open.len() == 0 {
        done
    } else {
        done.push(open)
    }
}

/// Makes lines of what a component writes piece by piece.
pub struct LineBuffer {
    /// What was written since the last newline.
    pub open: Vec<u8>,
}

impl LineBuffer {
    /// What is buffered is part of one line.
    pub open spec fn wf(self) -> bool {
        forall|i: int| 0 <= i < self.open@.len() ==> (#[trigger] self.open@[i]) != 0x0a
    }

    /// The lines that are complete once `bytes` are written, in `next` what is left.
    pub open spec fn writes(self, bytes: Seq<u8>, next: Self, lines: Seq<Seq<u8>>) -> bool {
        (lines, next.open@) == piece_scan(self.open@ + bytes)
    }

    /// What is left at the end: a line without a newline, if there is one.
    pub open spec fn rest(self) -> Seq<Seq<u8>> {
        if self.open@.len() == 0 {
            Seq::empty()
        } else {
            seq![self.open@]
        }
    }

    pub fn new() -> (b: Self)
        ensures
            b.wf(),
            b.open@.len() == 0,
    {
        LineBuffer { open: Vec::new() }
    }

    /// Takes what was written, and returns the lines that are complete now, each
    /// with its newline.
    pub fn write(&mut self, bytes: &[u8]) -> (lines: Vec<Vec<u8>>)
        requires
            old(self).wf(),
        ensures
            final(self).wf(),
            old(self).writes(bytes@, *final(self), lines.deep_view()),
    {
        let mut done: Vec<Vec<u8>> = Vec::new();
        let ghost start = self.open@;
        proof {
            assert(done.deep_view() =~= Seq::<Seq<u8>>::empty());
            lemma_scan_open(start);
            assert(start + bytes@.take(0) =~= start);
        }
        for i in 0..bytes.len()
            invariant
                self.wf(),
                (done.deep_view(), self.open@) == piece_scan(start + bytes@.take(i as int)),
        {
            let b: u8 = bytes[i];
            assert((start + bytes@.take(i + 1)).drop_last() =~= start + bytes@.take(i as int));
            assert((start + bytes@.take(i + 1)).last() == b);
            let ghost before = done.deep_view();
            if b == 0x0a {
                let mut line: Vec<u8> = Vec::new();
                core::mem::swap(&mut line, &mut self.open);
                line.push(b);
                done.push(line);
                assert(line.deep_view() =~= line@);
                assert(done.deep_view() =~= before.push(line@));
            } else {
                self.open.push(b);
            }
        }
        assert(bytes@.take(bytes@.len() as int) =~= bytes@);
        done
    }

    /// Ends the output: returns what is left, and starts anew.
    pub fn finish(&mut self) -> (line: Option<Vec<u8>>)
        ensures
            final(self).wf(),
            final(self).open@.len() == 0,
            match line {
                Some(l) => old(self).rest() == seq![l@],
                None => old(self).rest().len() == 0,
            },
            match line {
                Some(l) => l@ == old(self).open@ && l@.len() > 0,
                None => old(self).open@.len() == 0,
            },
    {
        let mut line: Vec<u8> = Vec::new();
        core::mem::swap(&mut line, &mut self.open);
        if line.len() == 0 {
            None
        } else {
            Some(line)
        }
    }
}

/// Without a newline there is no complete line.
proof fn lemma_scan_open(bytes: Seq<u8>)
    requires
        forall|i: int| 0 <= i < bytes.len() ==> (#[trigger] bytes[i]) != 0x0a,
    ensures
        piece_scan(bytes) == (Seq::<Seq<u8>>::empty(), bytes),
    decreases bytes.len(),
{
    if bytes.len() > 0 {
        lemma_scan_open(bytes.drop_last());
        assert(bytes.drop_last().push(bytes.last()) =~= bytes);
    } else {
        assert(piece_scan(bytes).1 =~= bytes);
    }
}

// ---- laws ----

/// Whether a step gives the component access to the network.
pub open spec fn opens_network(step: SetupStep) -> bool {
    step is InheritNetwork || step is AllowUdp || step is AllowTcp
}

/// A component reaches the network if and only if its configuration allows it.
pub proof fn law_network_needs_permission(config: WasmConfig, mode: WasmMode)
    ensures
        (exists|i: int|
            0 <= i < setup_steps(config, mode).len() && opens_network(
                #[trigger] setup_steps(config, mode)[i],
            )) <==> config.allow_network,
{
    let steps = setup_steps(config, mode);
    if config.allow_network {
        assert(opens_network(steps[4]));
    }
}

/// The directories that a component can open are those of its configuration,
/// in order, and no others.
pub proof fn law_only_configured_directories(config: WasmConfig, mode: WasmMode)
    ensures
        setup_steps(config, mode).filter(|s: SetupStep| s is OpenDirectory) == directory_steps(
            config.preopens@,
        ),
{
    broadcast use vstd::seq_lib::group_filter_ensures;

    let dirs = |s: SetupStep| s is OpenDirectory;
    let steps = setup_steps(config, mode);
    let rest = directory_steps(config.preopens@);
    let head = steps.take(steps.len() - rest.len());
    assert(steps =~= head + rest);
    Seq::filter_distributes_over_add(head, rest, dirs);
    lemma_filter_none(head, dirs);
    lemma_filter_all(rest, dirs);
    assert(head.filter(dirs) + rest.filter(dirs) =~= rest);
}

proof fn lemma_filter_none<A>(s: Seq<A>, f: spec_fn(A) -> bool)
    requires
        forall|i: int| 0 <= i < s.len() ==> !f(#[trigger] s[i]),
    ensures
        s.filter(f) == Seq::<A>::empty(),
    decreases s.len(),
{
    reveal(Seq::filter);
    if s.len() > 0 {
        lemma_filter_none(s.drop_last(), f);
    }
}

proof fn lemma_filter_all<A>(s: Seq<A>, f: spec_fn(A) -> bool)
    requires
        forall|i: int| 0 <= i < s.len() ==> f(#[trigger] s[i]),
    ensures
        s.filter(f) == s,
    decreases s.len(),
{
    reveal(Seq::filter);
    if s.len() > 0 {
        lemma_filter_all(s.drop_last(), f);
        assert(s.drop_last().push(s.last()) =~= s);
    }
}

/// In both modes a component is given the arguments and the environment of its
/// configuration, each once.
pub proof fn law_a_component_gets_its_arguments<'a>(config: WasmConfig<'a>, mode: WasmMode)
    ensures
        setup_steps(config, mode).filter(|s: SetupStep<'a>| s is Args) == seq![
            SetupStep::Args { args: config.args },
        ],
        setup_steps(config, mode).filter(|s: SetupStep<'a>| s is Envs) == seq![
            SetupStep::Envs { vars: config.env_vars },
        ],
{
    let steps = setup_steps(config, mode);
    lemma_steps(config, mode);
    lemma_filter_one(steps, 2, |s: SetupStep<'a>| s is Args);
    lemma_filter_one(steps, 3, |s: SetupStep<'a>| s is Envs);
}

/// What a component prints goes to one place: to a pipe if it is handed out at
/// the end, to a channel if it is handed out line by line. Its errors go to
/// another pipe.
pub proof fn law_output_goes_to_one_place<'a>(config: WasmConfig<'a>, mode: WasmMode)
    ensures
        setup_steps(config, mode).filter(
            |s: SetupStep<'a>| s is StdoutPipe || s is StdoutChannel,
        ) == match mode {
            WasmMode::Buffered => seq![SetupStep::StdoutPipe { capacity: 65536 }],
            WasmMode::Streaming => seq![SetupStep::StdoutChannel],
        },
        setup_steps(config, mode).filter(|s: SetupStep<'a>| s is StderrPipe) == seq![
            SetupStep::StderrPipe { capacity: 65536 },
        ],
{
    let steps = setup_steps(config, mode);
    lemma_steps(config, mode);
    lemma_filter_one(steps, 0, |s: SetupStep<'a>| s is StdoutPipe || s is StdoutChannel);
    lemma_filter_one(steps, 1, |s: SetupStep<'a>| s is StderrPipe);
}

/// A component gets the network whole or not at all.
pub proof fn law_the_network_comes_whole<'a>(config: WasmConfig<'a>, mode: WasmMode)
    ensures
        config.allow_network ==> {
            let steps = setup_steps(config, mode);
            &&& steps.contains(SetupStep::InheritNetwork)
            &&& steps.contains(SetupStep::AllowUdp)
            &&& steps.contains(SetupStep::AllowTcp)
        },
        !config.allow_network ==> {
            let steps = setup_steps(config, mode);
            &&& !steps.contains(SetupStep::InheritNetwork)
            &&& !steps.contains(SetupStep::AllowUdp)
            &&& !steps.contains(SetupStep::AllowTcp)
        },
{
    let steps = setup_steps(config, mode);
    lemma_steps(config, mode);
    if config.allow_network {
        assert(steps[4] is InheritNetwork && steps[5] is AllowUdp && steps[6] is AllowTcp);
    }
}

/// A component can open as many directories as its configuration names, and each
/// of them is the one at its place.
pub proof fn law_every_directory_is_open<'a>(config: WasmConfig<'a>, mode: WasmMode, i: int)
    requires
        0 <= i < config.preopens@.len(),
    ensures
        setup_steps(config, mode).filter(|s: SetupStep| s is OpenDirectory).len()
            == config.preopens@.len(),
        setup_steps(config, mode).filter(|s: SetupStep| s is OpenDirectory)[i] == (
        SetupStep::OpenDirectory { preopen: &config.preopens@[i] }),
{
    law_only_configured_directories(config, mode);
}

/// Which steps set a component up.
proof fn lemma_steps<'a>(config: WasmConfig<'a>, mode: WasmMode)
    ensures
        setup_steps(config, mode).len() >= 4,
        setup_steps(config, mode)[0] == match mode {
            WasmMode::Buffered => SetupStep::StdoutPipe { capacity: 65536 },
            WasmMode::Streaming => SetupStep::StdoutChannel,
        },
        setup_steps(config, mode)[1] == (SetupStep::StderrPipe { capacity: 65536 }),
        setup_steps(config, mode)[2] == (SetupStep::Args { args: config.args }),
        setup_steps(config, mode)[3] == (SetupStep::Envs { vars: config.env_vars }),
        forall|i: int|
            4 <= i < setup_steps(config, mode).len() ==> {
                let step = #[trigger] setup_steps(config, mode)[i];
                step is OpenDirectory || config.allow_network && opens_network(step)
            },
{
}

/// One item is picked if it is the only one to be picked.
proof fn lemma_filter_one<A>(s: Seq<A>, k: int, f: spec_fn(A) -> bool)
    requires
        0 <= k < s.len(),
        f(s[k]),
        forall|i: int| 0 <= i < s.len() && i != k ==> !f(#[trigger] s[i]),
    ensures
        s.filter(f) == seq![s[k]],
    decreases s.len(),
{
    reveal(Seq::filter);
    let t = s.drop_last();
    assert(forall|i: int| 0 <= i < t.len() ==> #[trigger] t[i] == s[i]);
    if k == s.len() - 1 {
        lemma_filter_none(t, f);
        assert(Seq::<A>::empty().push(s[k]) =~= seq![s[k]]);
    } else {
        assert(!f(s[s.len() - 1]));
        lemma_filter_one(t, k, f);
    }
}

/// A streaming run goes on until its first cancellation, however often it is
/// cancelled; a buffered run cannot be cancelled.
pub proof fn law_the_first_cancellation_counts(
    run: WasmRun,
    event: WasmEvent,
    next: WasmRun,
    action: WasmAction,
    cancellations: nat,
)
    requires
        run.awaits(event),
        run.steps(event, next, action),
        action is Setup,
    ensures
        match run.mode {
            WasmMode::Streaming => action->epoch_deadline matches Some(ticks) && (cancellations
                >= ticks <==> cancellations > 0),
            WasmMode::Buffered => action->epoch_deadline is None,
        },
{
}

/// The time that the measured phases of a run took up to `last`.
pub open spec fn wasm_timed(run: WasmRun, last: u64) -> bool {
    let t = run.times;
    let spent = t.engine_us + t.compile_us + t.link_us + t.instantiate_us;
    match run.phase {
        WasmPhase::Engine => spent == 0,
        WasmPhase::Compile => 1000 * spent <= last && t.compile_us + t.link_us + t.instantiate_us == 0,
        WasmPhase::Link => 1000 * spent <= last && t.link_us + t.instantiate_us == 0,
        WasmPhase::Setup => 1000 * spent <= last && t.instantiate_us == 0,
        WasmPhase::Instantiate => 1000 * spent <= last && t.instantiate_us == 0,
        WasmPhase::Run => 1000 * spent <= last,
        WasmPhase::Collect => spent + t.run_us <= t.total_us,
        WasmPhase::Finished => true,
    }
}

/// A step keeps the measured phases of a run apart.
proof fn lemma_step_is_timed(
    run: WasmRun,
    last: u64,
    event: WasmEvent,
    next: WasmRun,
    action: WasmAction,
)
    requires
        run.awaits(event),
        run.steps(event, next, action),
        wasm_timed(run, last),
        event matches WasmEvent::Done { started, now, .. } ==> last <= started <= now,
        event matches WasmEvent::Ran { started, now, .. } ==> last <= started <= now,
    ensures
        wasm_timed(
            next,
            match event {
                WasmEvent::Done { now, .. } => now,
                WasmEvent::Ran { now, .. } => now,
                WasmEvent::Output { .. } => last,
            },
        ),
        action matches WasmAction::Finish { result: Ok(m) } ==> m.engine_us + m.compile_us + m.link_us
            + m.instantiate_us + m.run_us <= m.total_us,
{
}

/// A run from `states[0]` on, step by step.
pub open spec fn is_wasm_run<'a>(
    states: Seq<WasmRun<'a>>,
    events: Seq<WasmEvent>,
    actions: Seq<WasmAction<'a>>,
) -> bool {
    &&& states.len() == events.len() + 1
    &&& actions.len() == events.len()
    &&& forall|i: int|
        0 <= i < events.len() ==> (#[trigger] states[i]).awaits(events[i]) && states[i].steps(
            events[i],
            states[i + 1],
            actions[i],
        )
}

/// The part of a run that comes before its last step is a run.
proof fn lemma_run_before<'a>(
    states: Seq<WasmRun<'a>>,
    events: Seq<WasmEvent>,
    actions: Seq<WasmAction<'a>>,
)
    requires
        is_wasm_run(states, events, actions),
        events.len() > 0,
    ensures
        is_wasm_run(states.drop_last(), events.drop_last(), actions.drop_last()),
{
    let s = states.drop_last();
    let e = events.drop_last();
    assert forall|i: int| 0 <= i < e.len() implies (#[trigger] s[i]).awaits(e[i]) && s[i].steps(
        e[i],
        s[i + 1],
        actions.drop_last()[i],
    ) by {
        assert(s[i] == states[i]);
    }
}

/// The time of the last event that has one; the start of the run without any.
pub open spec fn last_time(events: Seq<WasmEvent>) -> u64
    decreases events.len(),
{
    if events.len() == 0 {
        0
    } else {
        match events.last() {
            WasmEvent::Done { now, .. } => now,
            WasmEvent::Ran { now, .. } => now,
            WasmEvent::Output { .. } => last_time(events.drop_last()),
        }
    }
}

/// Whether an event comes after the time `last`, with its times in order.
pub open spec fn comes_after(event: WasmEvent, last: u64) -> bool {
    match event {
        WasmEvent::Done { started, now, .. } => last <= started <= now,
        WasmEvent::Ran { started, now, .. } => last <= started <= now,
        WasmEvent::Output { .. } => true,
    }
}

/// Whether the times of the events never go back.
pub open spec fn in_time_order(events: Seq<WasmEvent>) -> bool {
    forall|i: int|
        0 <= i < events.len() ==> comes_after(#[trigger] events[i], last_time(events.take(i)))
}

/// On a clock that does not go back, the times that a whole run reports for its
/// phases never add up to more than the total.
pub proof fn law_phases_fit_in_the_total<'a>(
    states: Seq<WasmRun<'a>>,
    events: Seq<WasmEvent>,
    actions: Seq<WasmAction<'a>>,
)
    requires
        is_wasm_run(states, events, actions),
        states[0].phase is Engine,
        states[0].times == unmeasured(),
        in_time_order(events),
    ensures
        wasm_timed(states.last(), last_time(events)),
        events.len() > 0 ==> (actions.last() matches WasmAction::Finish { result: Ok(m) }
            ==> m.engine_us + m.compile_us + m.link_us + m.instantiate_us + m.run_us <= m.total_us),
    decreases events.len(),
{
    if events.len() > 0 {
        let n = events.len() - 1;
        let e = events.drop_last();
        lemma_run_before(states, events, actions);
        assert forall|i: int| 0 <= i < e.len() implies comes_after(
            #[trigger] e[i],
            last_time(e.take(i)),
        ) by {
            assert(e[i] == events[i]);
            assert(e.take(i) =~= events.take(i));
        }
        law_phases_fit_in_the_total(states.drop_last(), e, actions.drop_last());
        assert(states.drop_last().last() == states[n]);
        assert(events.take(n) =~= e);
        assert(comes_after(events[n], last_time(e)));
        assert(states[n].awaits(events[n]));
        lemma_step_is_timed(states[n], last_time(e), events[n], states[n + 1], actions[n]);
    }
}

/// How many phases are complete where a run stands at `phase`.
pub open spec fn phases_before(phase: WasmPhase) -> nat {
    match phase {
        WasmPhase::Engine => 0,
        WasmPhase::Compile => 1,
        WasmPhase::Link => 2,
        WasmPhase::Setup => 3,
        WasmPhase::Instantiate => 4,
        WasmPhase::Run => 5,
        _ => 6,
    }
}

/// Whether an event reports success.
pub open spec fn succeeds(event: WasmEvent) -> bool {
    match event {
        WasmEvent::Done { result, .. } => result is Ok,
        WasmEvent::Ran { outcome, .. } => outcome is Exited,
        WasmEvent::Output { stdout, stderr } => valid_utf8(stdout@) && valid_utf8(stderr@),
    }
}

/// A run ends well only if every phase did, in order: a report is made only of
/// a component that was compiled, linked, set up, instantiated, run to its end
/// with success and printed text, and it shows what was printed; a component is
/// let loose in a thread of its own only after it was instantiated.
pub proof fn law_success_takes_every_phase<'a>(
    states: Seq<WasmRun<'a>>,
    events: Seq<WasmEvent>,
    actions: Seq<WasmAction<'a>>,
)
    requires
        is_wasm_run(states, events, actions),
        states[0].phase is Engine,
    ensures
        !(states.last().phase is Finished) ==> events.len() == phases_before(states.last().phase),
        !(states.last().phase is Finished) ==> forall|i: int|
            0 <= i < events.len() ==> succeeds(#[trigger] events[i]),
        events.len() > 0 ==> {
            &&& actions.last() is Spawn ==> events.len() == 5 && forall|i: int|
                0 <= i < events.len() ==> succeeds(#[trigger] events[i])
            &&& actions.last() matches WasmAction::Finish { result: Ok(m) } ==> {
                &&& events.len() == 7
                &&& forall|i: int| 0 <= i < events.len() ==> succeeds(#[trigger] events[i])
                &&& events[6] matches WasmEvent::Output { stdout, stderr }
                &&& m.stdout@ == decode_utf8(stdout@)
                &&& m.stderr@ == decode_utf8(stderr@)
            }
        },
    decreases events.len(),
{
    if events.len() > 0 {
        let n = events.len() - 1;
        let s = states.drop_last();
        let e = events.drop_last();
        lemma_run_before(states, events, actions);
        law_success_takes_every_phase(s, e, actions.drop_last());
        assert(s.last() == states[n]);
        assert(states[n].awaits(events[n]));
        assert forall|i: int|
            0 <= i < events.len() && (i < n || succeeds(events[n])) implies succeeds(
            #[trigger] events[i],
        ) by {
            if i < n {
                assert(e[i] == events[i]);
            }
        }
    }
}

/// The part of a run up to a place is a run.
proof fn lemma_run_up_to<'a>(
    states: Seq<WasmRun<'a>>,
    events: Seq<WasmEvent>,
    actions: Seq<WasmAction<'a>>,
    n: int,
)
    requires
        is_wasm_run(states, events, actions),
        0 <= n <= events.len(),
    ensures
        is_wasm_run(states.take(n + 1), events.take(n), actions.take(n)),
{
    assert forall|i: int| 0 <= i < n implies (#[trigger] states.take(n + 1)[i]).awaits(
        events.take(n)[i],
    ) && states.take(n + 1)[i].steps(
        events.take(n)[i],
        states.take(n + 1)[i + 1],
        actions.take(n)[i],
    ) by {
        assert(states[i].awaits(events[i]));
    }
}

/// Where a run stands after so many steps.
proof fn lemma_phase_at<'a>(
    states: Seq<WasmRun<'a>>,
    events: Seq<WasmEvent>,
    actions: Seq<WasmAction<'a>>,
    n: int,
)
    requires
        is_wasm_run(states, events, actions),
        states[0].phase is Engine,
        0 <= n < events.len(),
    ensures
        phases_before(states[n].phase) == n,
        !(states[n].phase is Finished),
        states[n].config == states[0].config,
        states[n].mode == states[0].mode,
        states[n].awaits(events[n]),
        states[n].steps(events[n], states[n + 1], actions[n]),
    decreases n,
{
    lemma_run_up_to(states, events, actions, n);
    law_success_takes_every_phase(states.take(n + 1), events.take(n), actions.take(n));
    assert(states.take(n + 1).last() == states[n]);
    assert(states[n].awaits(events[n]));
    if n > 0 {
        lemma_phase_at(states, events, actions, n - 1);
    }
}

/// A run takes one phase after the other, each as soon as the one before has
/// succeeded: it compiles the bytes of its configuration, links, sets up what was
/// configured, instantiates, and runs the component or lets it loose. In the end
/// it reports what the component has printed, the size of the component, and the
/// time of each phase from its start to its end. The first phase that fails ends
/// the run with its error.
pub proof fn law_a_run_takes_its_phases_in_order<'a>(
    states: Seq<WasmRun<'a>>,
    events: Seq<WasmEvent>,
    actions: Seq<WasmAction<'a>>,
)
    requires
        is_wasm_run(states, events, actions),
        states[0].phase is Engine,
    ensures
        events.len() <= 7,
        forall|i: int| 0 <= i < events.len() ==> ((#[trigger] events[i]) is Done <==> i < 5),
        events.len() > 5 ==> events[5] is Ran,
        events.len() > 6 ==> events[6] is Output,
        forall|i: int|
            0 <= i < events.len() && (events[i] matches WasmEvent::Done { result: Err(_), .. }) ==> (
            #[trigger] actions[i] matches WasmAction::Finish { result: Err(e) } && e@
                == events[i]->Done_result->Err_0@),
        events.len() > 0 && (events[0] matches WasmEvent::Done { result: Ok(_), .. }) ==> (
        actions[0] matches WasmAction::Compile { bytes } && bytes == states[0].config.wasm_bytes),
        events.len() > 1 && (events[1] matches WasmEvent::Done { result: Ok(_), .. }) ==> actions[1]
            is Link,
        events.len() > 2 && (events[2] matches WasmEvent::Done { result: Ok(_), .. }) ==> {
            &&& actions[2] is Setup
            &&& actions[2]->steps@ == setup_steps(states[0].config, states[0].mode)
            &&& states[0].mode == WasmMode::Buffered ==> actions[2]->epoch_deadline is None
            &&& states[0].mode == WasmMode::Streaming ==> actions[2]->epoch_deadline == Some(1u64)
        },
        events.len() > 3 && (events[3] matches WasmEvent::Done { result: Ok(_), .. }) ==> actions[3]
            is Instantiate,
        events.len() > 4 && (events[4] matches WasmEvent::Done { result: Ok(_), .. }) ==> {
            &&& states[0].mode == WasmMode::Buffered ==> actions[4] is Run
            &&& states[0].mode == WasmMode::Streaming ==> actions[4] is Spawn
        },
        events.len() > 5 ==> match events[5]->outcome {
            RunOutcome::Exited => actions[5] is Collect,
            RunOutcome::ExitedWithError => actions[5] matches WasmAction::Finish { result: Err(e) }
                && e@ == "component exited with error"@,
            RunOutcome::Trapped { error } => actions[5] matches WasmAction::Finish {
                result: Err(e),
            } && e@ == error@,
        },
        events.len() > 6 ==> {
            let stdout = events[6]->stdout@;
            let stderr = events[6]->stderr@;
            &&& valid_utf8(stdout) && valid_utf8(stderr) ==> (actions[6] matches WasmAction::Finish {
                result: Ok(m),
            } && {
                &&& m.stdout@ == decode_utf8(stdout)
                &&& m.stderr@ == decode_utf8(stderr)
                &&& m.wasm_size == states[0].config.wasm_bytes@.len()
                &&& m.engine_us == clock::elapsed_us(events[0]->Done_started, events[0]->Done_now)
                &&& m.compile_us == clock::elapsed_us(events[1]->Done_started, events[1]->Done_now)
                &&& m.link_us == clock::elapsed_us(events[2]->Done_started, events[2]->Done_now)
                &&& m.instantiate_us == clock::elapsed_us(
                    events[4]->Done_started,
                    events[4]->Done_now,
                )
                &&& m.run_us == clock::elapsed_us(events[5]->Ran_started, events[5]->Ran_now)
                &&& m.total_us == clock::elapsed_us(0, events[5]->Ran_now)
            })
            &&& !valid_utf8(stdout) ==> (actions[6] matches WasmAction::Finish { result: Err(e) } && e@
                == encoding::utf8_error(stdout))
            &&& valid_utf8(stdout) && !valid_utf8(stderr) ==> (actions[6] matches WasmAction::Finish {
                result: Err(e),
            } && e@ == encoding::utf8_error(stderr))
        },
{
    let n = events.len() as int;
    assert forall|i: int| 0 <= i < n implies {
        &&& phases_before((#[trigger] states[i]).phase) == i
        &&& !(states[i].phase is Finished)
        &&& states[i].config == states[0].config
        &&& states[i].mode == states[0].mode
        &&& states[i].awaits(events[i])
        &&& states[i].steps(events[i], states[i + 1], actions[i])
    } by {
        lemma_phase_at(states, events, actions, i);
    }
    if n > 7 {
        assert(phases_before(states[7].phase) == 7);
    }
    if n > 6 {
        assert(states[6].awaits(events[6]));
    }
    assert forall|i: int| 0 <= i < n implies ((#[trigger] events[i]) is Done <==> i < 5) by {
        assert(states[i].awaits(events[i]));
    }
    assert forall|i: int|
        0 <= i < n && (events[i] matches WasmEvent::Done { result: Err(_), .. }) implies (
    #[trigger] actions[i] matches WasmAction::Finish { result: Err(e) } && e@
        == events[i]->Done_result->Err_0@) by {
        assert(states[i].awaits(events[i]));
    }
    if n > 0 {
        assert(states[0].awaits(events[0]));
    }
    if n > 1 {
        assert(states[1].awaits(events[1]));
    }
    if n > 2 {
        assert(states[2].awaits(events[2]));
    }
    if n > 3 {
        assert(states[3].awaits(events[3]));
    }
    if n > 4 {
        assert(states[4].awaits(events[4]));
    }
    if n > 5 {
        assert(states[5].awaits(events[5]));
    }
}

/// Whatever comes of what a run has asked for is an answer to it.
pub proof fn law_a_wasm_run_takes_every_answer<'a>(
    run: WasmRun<'a>,
    event: WasmEvent,
    next: WasmRun<'a>,
    action: WasmAction<'a>,
    answer: WasmEvent,
)
    requires
        run.awaits(event),
        run.steps(event, next, action),
    ensures
        (action is Compile || action is Link || action is Setup || action is Instantiate) && answer
            is Done ==> next.awaits(answer),
        action is Run && answer is Ran ==> next.awaits(answer),
        action is Collect && answer is Output ==> next.awaits(answer),
{
}

/// Whether a piece is a line: not empty, and without a newline before its end.
pub open spec fn is_line(piece: Seq<u8>) -> bool {
    &&& piece.len() > 0
    &&& forall|i: int| 0 <= i < piece.len() - 1 ==> (#[trigger] piece[i]) != 0x0a
}

/// Whether `buffers` follow each other by the given writes, after each of which
/// the lines in `sent` were complete.
pub open spec fn is_output(
    buffers: Seq<LineBuffer>,
    writes: Seq<Seq<u8>>,
    sent: Seq<Seq<Seq<u8>>>,
) -> bool {
    &&& buffers.len() == writes.len() + 1
    &&& sent.len() == writes.len()
    &&& forall|i: int|
        0 <= i < writes.len() ==> (#[trigger] buffers[i]).wf() && buffers[i].writes(
            writes[i],
            buffers[i + 1],
            sent[i],
        )
}

/// However a component cuts its output into writes, what is sent, with what is
/// left at the end, are the lines of everything that it has written.
pub proof fn law_stdout_is_sent_line_by_line(
    buffers: Seq<LineBuffer>,
    writes: Seq<Seq<u8>>,
    sent: Seq<Seq<Seq<u8>>>,
)
    requires
        is_output(buffers, writes, sent),
        buffers[0].open@.len() == 0,
    ensures
        sent.flatten() + buffers.last().rest() == line_pieces(writes.flatten()),
        sent.flatten().flatten() + buffers.last().open@ == writes.flatten(),
        forall|i: int|
            0 <= i < sent.flatten().len() ==> {
                let line = #[trigger] sent.flatten()[i];
                &&& line.len() > 0
                &&& line.last() == 0x0a
                &&& !line.drop_last().contains(0x0a)
            },
        !buffers.last().open@.contains(0x0a),
        buffers.last().rest().flatten() == buffers.last().open@,
{
    lemma_output(buffers, writes, sent);
    lemma_piece_scan(writes.flatten());
    assert forall|i: int| 0 <= i < sent.flatten().len() implies {
        let line = #[trigger] sent.flatten()[i];
        &&& line.len() > 0
        &&& line.last() == 0x0a
        &&& !line.drop_last().contains(0x0a)
    } by {
        assert(is_line(piece_scan(writes.flatten()).0[i]));
    }
    if buffers.last().open@.len() == 0 {
        assert(buffers.last().rest().flatten() =~= buffers.last().open@);
    } else {
        let none = Seq::<Seq<u8>>::empty();
        none.lemma_flatten_push(buffers.last().open@);
        assert(none.push(buffers.last().open@) =~= buffers.last().rest());
        assert(none.flatten() + buffers.last().open@ =~= buffers.last().open@);
    }
    let (done, open) = piece_scan(writes.flatten());
    if open.len() == 0 {
        assert(done + buffers.last().rest() =~= done);
    } else {
        assert(done + buffers.last().rest() =~= done.push(open));
    }
}

proof fn lemma_output(buffers: Seq<LineBuffer>, writes: Seq<Seq<u8>>, sent: Seq<Seq<Seq<u8>>>)
    requires
        is_output(buffers, writes, sent),
        buffers[0].open@.len() == 0,
    ensures
        (sent.flatten(), buffers.last().open@) == piece_scan(writes.flatten()),
    decreases writes.len(),
{
    if writes.len() == 0 {
        assert(writes.flatten() =~= Seq::<u8>::empty());
        assert(sent.flatten() =~= Seq::<Seq<u8>>::empty());
        assert(buffers.last().open@ =~= Seq::<u8>::empty());
    } else {
        let n = writes.len() - 1;
        let w = writes.drop_last();
        let b = buffers.drop_last();
        assert forall|i: int| 0 <= i < w.len() implies (#[trigger] b[i]).wf() && b[i].writes(
            w[i],
            b[i + 1],
            sent.drop_last()[i],
        ) by {
            assert(b[i] == buffers[i]);
        }
        lemma_output(b, w, sent.drop_last());
        assert(b.last() == buffers[n]);
        assert(buffers[n].writes(writes[n], buffers[n + 1], sent[n]));
        lemma_scan_goes_on(w.flatten(), writes[n]);
        w.lemma_flatten_push(writes[n]);
        assert(w.push(writes[n]) =~= writes);
        sent.drop_last().lemma_flatten_push(sent[n]);
        assert(sent.drop_last().push(sent[n]) =~= sent);
    }
}

/// Scanning can be interrupted: what is left of the first part goes before the
/// second.
proof fn lemma_scan_goes_on(a: Seq<u8>, b: Seq<u8>)
    ensures
        piece_scan(a + b) == (
            piece_scan(a).0 + piece_scan(piece_scan(a).1 + b).0,
            piece_scan(piece_scan(a).1 + b).1,
        ),
    decreases b.len(),
{
    let (done, open) = piece_scan(a);
    if b.len() == 0 {
        lemma_piece_scan(a);
        lemma_scan_open(open);
        assert(a + b =~= a);
        assert(open + b =~= open);
        assert(done + Seq::<Seq<u8>>::empty() =~= done);
    } else {
        lemma_scan_goes_on(a, b.drop_last());
        assert((a + b).drop_last() =~= a + b.drop_last());
        assert((open + b).drop_last() =~= open + b.drop_last());
        let (d, o) = piece_scan(open + b.drop_last());
        assert((done + d).push(o.push(b.last())) =~= done + d.push(o.push(b.last())));
    }
}

/// Streaming loses nothing and adds nothing, and every message is one line:
/// the pieces together are what was written, none of them is empty or runs past
/// a newline, and each but the last ends with one.
pub proof fn law_lines_are_what_was_written(bytes: Seq<u8>)
    ensures
        line_pieces(bytes).flatten() == bytes,
        forall|i: int| 0 <= i < line_pieces(bytes).len() ==> is_line(#[trigger] line_pieces(bytes)[i]),
        forall|i: int|
            0 <= i < line_pieces(bytes).len() - 1 ==> (#[trigger] line_pieces(bytes)[i]).last()
                == 0x0a,
{
    lemma_piece_scan(bytes);
    let (done, open) = piece_scan(bytes);
    if open.len() > 0 {
        done.lemma_flatten_push(open);
    } else {
        assert(done.flatten() =~= done.flatten() + open);
    }
}

proof fn lemma_piece_scan(bytes: Seq<u8>)
    ensures
        piece_scan(bytes).0.flatten() + piece_scan(bytes).1 == bytes,
        forall|i: int|
            0 <= i < piece_scan(bytes).0.len() ==> is_line(#[trigger] piece_scan(bytes).0[i])
                && piece_scan(bytes).0[i].last() == 0x0a,
        forall|i: int| 0 <= i < piece_scan(bytes).1.len() ==> (#[trigger] piece_scan(bytes).1[i]) != 0x0a,
    decreases bytes.len(),
{
    if bytes.len() == 0 {
        assert(piece_scan(bytes).0.flatten() + piece_scan(bytes).1 =~= bytes);
    } else {
        lemma_piece_scan(bytes.drop_last());
        let (done, open) = piece_scan(bytes.drop_last());
        let more = open.push(bytes.last());
        done.lemma_flatten_push(more);
        assert(done.flatten() + more =~= (done.flatten() + open).push(bytes.last()));
        assert(bytes.drop_last().push(bytes.last()) =~= bytes);
        assert(done.push(more).flatten() + Seq::<u8>::empty() =~= done.flatten() + more);
    }
}

} // verus!
