use std::path::PathBuf;
use v8_matrix::cert::{
    acme, generate_self_signed, local_names, self_signed_mode, CertSource, SelfSigned, TlsMode,
};
use v8_matrix::encoding::fingerprint;
use v8_matrix::server::{
    browser_command, demo_showcase, exec_cmd, exec_stream, load_wasm, metrics_response,
    run_outcome, run_wasm_handler, stream_step, wasm_path, wasm_path_variable, webtransport_port,
    AppState, Installed, Origin, Received, StreamStep, TaskOutcome, WasmRequest, Workload,
};
use v8_matrix::wasm::{
    compile_component, create_engine, engine_settings, wasi_setup, LineBuffer, RunOutcome,
    SetupStep, WasmAction, WasmEvent, WasmMode, WasmRun, EPOCH_DEADLINE,
};
use v8_matrix::webtransport::{
    handle_connection, handle_session, session_sent, session_step, transport_settings, Accepted,
    ConnectionStep, SessionStep,
};
use v8_matrix::{execute_wasm, execute_wasm_streaming, Preopen, WasmConfig, WasmMetrics};

const EMPTY_COMPONENT: [u8; 8] = [0, 0x61, 0x73, 0x6d, 0x0d, 0, 1, 0];
const EMPTY_MODULE: [u8; 8] = [0, 0x61, 0x73, 0x6d, 0x01, 0, 0, 0];

fn config() -> WasmConfig<'static> {
    WasmConfig {
        wasm_bytes: &EMPTY_COMPONENT,
        args: &[],
        env_vars: &[],
        allow_network: false,
        preopens: &[],
    }
}

fn ok(started: u64, now: u64) -> WasmEvent {
    WasmEvent::Done { result: Ok(()), started, now }
}

/// A buffered run up to the call of the component.
fn instantiated(config: WasmConfig<'static>) -> WasmRun<'static> {
    let (mut run, action) = execute_wasm(config);
    assert!(matches!(action, WasmAction::CreateEngine));
    assert!(matches!(run.step(ok(0, 1_000)), WasmAction::Compile { bytes } if bytes.len() == 8));
    assert!(matches!(run.step(ok(1_000, 3_500)), WasmAction::Link));
    match run.step(ok(4_000, 7_000)) {
        WasmAction::Setup { epoch_deadline, .. } => assert_eq!(epoch_deadline, None),
        _ => panic!("no setup"),
    }
    assert!(matches!(run.step(ok(7_000, 8_000)), WasmAction::Instantiate));
    assert!(matches!(run.step(ok(8_000, 12_000)), WasmAction::Run));
    run
}

fn metrics_of(action: WasmAction) -> Result<WasmMetrics, String> {
    match action {
        WasmAction::Finish { result } => result,
        _ => panic!("the run goes on"),
    }
}

#[test]
fn engines_can_be_made() {
    assert!(engine_settings(WasmMode::Streaming).epoch_interruption);
    assert!(!engine_settings(WasmMode::Buffered).epoch_interruption);
    assert!(engine_settings(WasmMode::Buffered).component_model);
    assert!(create_engine(WasmMode::Buffered).is_ok());
    assert!(create_engine(WasmMode::Streaming).is_ok());
}

#[test]
fn only_components_are_compiled() {
    let engine = create_engine(WasmMode::Buffered).unwrap();
    let component = compile_component(&engine, &EMPTY_COMPONENT).unwrap();
    assert!(wasmtime::Engine::same(component.engine(), &engine));
    assert!(compile_component(&engine, &EMPTY_MODULE).is_err());
    assert!(compile_component(&engine, b"").is_err());
    assert!(compile_component(&engine, &EMPTY_COMPONENT[..7]).is_err());
    assert!(compile_component(&engine, b"(component)").is_err());
}

#[test]
fn buffered_runs_report_their_phases() {
    let mut run = instantiated(config());
    let event = WasmEvent::Ran { outcome: RunOutcome::Exited, started: 12_000, now: 20_999 };
    assert!(matches!(run.step(event), WasmAction::Collect));
    let event = WasmEvent::Output { stdout: b"out\n".to_vec(), stderr: b"err".to_vec() };
    let m = metrics_of(run.step(event)).unwrap();
    assert_eq!(m.stdout, "out\n");
    assert_eq!(m.stderr, "err");
    assert_eq!(m.wasm_size, 8);
    assert_eq!(m.engine_us, 1);
    assert_eq!(m.compile_us, 2);
    assert_eq!(m.link_us, 3);
    assert_eq!(m.instantiate_us, 4);
    assert_eq!(m.run_us, 8);
    assert_eq!(m.total_us, 20);
    assert!(m.engine_us + m.compile_us + m.link_us + m.instantiate_us + m.run_us <= m.total_us);
}

#[test]
fn components_that_fail_are_reported() {
    let mut run = instantiated(config());
    let event = WasmEvent::Ran { outcome: RunOutcome::ExitedWithError, started: 0, now: 0 };
    assert_eq!(metrics_of(run.step(event)).unwrap_err(), "component exited with error");
    let mut run = instantiated(config());
    let outcome = RunOutcome::Trapped { error: "unreachable".to_string() };
    let event = WasmEvent::Ran { outcome, started: 0, now: 0 };
    assert_eq!(metrics_of(run.step(event)).unwrap_err(), "unreachable");
}

#[test]
fn every_phase_can_fail() {
    for phase in 0..5 {
        let (mut run, _) = execute_wasm(config());
        for _ in 0..phase {
            run.step(ok(0, 0));
        }
        let event = WasmEvent::Done { result: Err(format!("phase {phase}")), started: 0, now: 0 };
        assert_eq!(metrics_of(run.step(event)).unwrap_err(), format!("phase {phase}"));
    }
}

#[test]
fn output_must_be_text() {
    for (stdout, stderr) in [(vec![0xff], Vec::new()), (Vec::new(), vec![0xff])] {
        let mut run = instantiated(config());
        run.step(WasmEvent::Ran { outcome: RunOutcome::Exited, started: 0, now: 0 });
        let e = metrics_of(run.step(WasmEvent::Output { stdout, stderr })).unwrap_err();
        assert_eq!(e, "invalid utf-8 sequence of 1 bytes from index 0");
    }
}

#[test]
fn streaming_runs_stop_at_the_first_cancellation() {
    let (mut run, _) = execute_wasm_streaming(config());
    run.step(ok(0, 0));
    run.step(ok(0, 0));
    match run.step(ok(0, 0)) {
        WasmAction::Setup { steps, epoch_deadline } => {
            assert_eq!(epoch_deadline, Some(1));
            assert!(matches!(steps[0], SetupStep::StdoutChannel));
        }
        _ => panic!("no setup"),
    }
    run.step(ok(0, 0));
    assert!(matches!(run.step(ok(0, 0)), WasmAction::Spawn));
}

/// A module whose function `f` has the given body.
fn module_with(body: &[u8]) -> Vec<u8> {
    let mut m = EMPTY_MODULE.to_vec();
    m.extend([1, 4, 1, 0x60, 0, 0]);
    m.extend([3, 2, 1, 0]);
    m.extend([7, 5, 1, 1, b'f', 0, 0]);
    m.extend([10, body.len() as u8 + 2, 1, body.len() as u8]);
    m.extend(body);
    m
}

#[test]
fn a_cancellation_interrupts_and_nothing_else_does() {
    let engine = create_engine(WasmMode::Streaming).unwrap();
    let endless = module_with(&[0, 3, 0x40, 0x0c, 0, 0x0b, 0x0b]);
    let short = module_with(&[0, 0x0b]);
    for (bytes, cancellations, finishes) in [(&short, 0, true), (&endless, 1, false), (&endless, 3, false)]
    {
        let module = wasmtime::Module::new(&engine, bytes).unwrap();
        let mut store = wasmtime::Store::new(&engine, ());
        store.set_epoch_deadline(EPOCH_DEADLINE);
        let instance = wasmtime::Instance::new(&mut store, &module, &[]).unwrap();
        let f = instance.get_typed_func::<(), ()>(&mut store, "f").unwrap();
        for _ in 0..cancellations {
            engine.increment_epoch();
        }
        assert_eq!(f.call(&mut store, ()).is_ok(), finishes);
    }
}

#[test]
fn components_reach_what_they_are_given() {
    let args = ["a".to_string()];
    let vars = [("K".to_string(), "V".to_string())];
    let preopens = [
        Preopen { host_path: PathBuf::from("/tmp/x"), guest_path: "/x".to_string() },
        Preopen { host_path: PathBuf::from("/tmp/y"), guest_path: "/y".to_string() },
    ];
    let mut c = WasmConfig {
        wasm_bytes: &[],
        args: &args,
        env_vars: &vars,
        allow_network: false,
        preopens: &preopens,
    };
    let steps = wasi_setup(&c, WasmMode::Buffered);
    assert_eq!(steps.len(), 6);
    assert!(matches!(steps[0], SetupStep::StdoutPipe { capacity: 65_536 }));
    assert!(matches!(steps[1], SetupStep::StderrPipe { capacity: 65_536 }));
    assert!(matches!(steps[2], SetupStep::Args { args } if args == ["a"]));
    assert!(matches!(steps[3], SetupStep::Envs { vars } if vars[0].1 == "V"));
    for (step, guest) in steps[4..].iter().zip(["/x", "/y"]) {
        assert!(matches!(step, SetupStep::OpenDirectory { preopen } if preopen.guest_path == guest));
    }
    c.allow_network = true;
    let steps = wasi_setup(&c, WasmMode::Buffered);
    assert_eq!(steps.len(), 9);
    assert!(matches!(steps[4], SetupStep::InheritNetwork));
    assert!(matches!(steps[5], SetupStep::AllowUdp));
    assert!(matches!(steps[6], SetupStep::AllowTcp));
}

/// What is sent of these writes.
fn sent(writes: &[&str]) -> Vec<String> {
    let mut buffer = LineBuffer::new();
    let mut lines = Vec::new();
    for w in writes {
        lines.extend(buffer.write(w.as_bytes()));
    }
    lines.extend(buffer.finish());
    lines.into_iter().map(|l| String::from_utf8(l).unwrap()).collect()
}

#[test]
fn stdout_is_sent_line_by_line() {
    assert_eq!(sent(&["one\ntwo\n"]), ["one\n", "two\n"]);
    assert_eq!(sent(&["one\ntw"]), ["one\n", "tw"]);
    assert_eq!(sent(&["\n\nx"]), ["\n", "\n", "x"]);
    assert!(sent(&[""]).is_empty());
    assert!(sent(&[]).is_empty());
}

#[test]
fn writes_do_not_cut_lines() {
    let whole = "one\ntwo\n\nthree";
    let lines = ["one\n", "two\n", "\n", "three"];
    for at in 0..=whole.len() {
        assert_eq!(sent(&[&whole[..at], &whole[at..]]), lines);
    }
    let bytes: Vec<&str> = (0..whole.len()).map(|i| &whole[i..i + 1]).collect();
    assert_eq!(sent(&bytes), lines);
    let mut buffer = LineBuffer::new();
    assert!(buffer.write(b"on").is_empty());
    assert_eq!(buffer.write(b"e\ntwo"), [b"one\n".to_vec()]);
    assert_eq!(buffer.finish(), Some(b"two".to_vec()));
    assert_eq!(buffer.finish(), None);
}

fn lines(received: Received) -> Vec<String> {
    match stream_step(received) {
        StreamStep::Send { lines } => lines,
        _ => panic!("nothing sent"),
    }
}

#[test]
fn lines_make_the_same_events() {
    for s in ["a\r\nb\n\nü", "one line", "x\n", ""] {
        let whole = lines(Received::Data { bytes: s.as_bytes().to_vec() });
        let mut apart = Vec::new();
        for line in sent(&[s]) {
            apart.extend(lines(Received::Data { bytes: line.into_bytes() }));
        }
        assert_eq!(whole, apart);
    }
}

#[test]
fn streams_wait_and_stop() {
    assert_eq!(lines(Received::Data { bytes: vec![b'a', 0xff, b'\n'] }), ["a\u{fffd}"]);
    assert!(matches!(stream_step(Received::Timeout), StreamStep::Wait));
    assert!(matches!(stream_step(Received::Disconnected), StreamStep::Stop));
}

fn strings(v: &[String]) -> Vec<&str> {
    v.iter().map(|s| s.as_str()).collect()
}

fn vars(w: &Workload) -> Vec<(&str, &str)> {
    w.env_vars.iter().map(|(k, v)| (k.as_str(), v.as_str())).collect()
}

#[test]
fn requests_become_workloads() {
    let req = WasmRequest {
        wasm: "AGFzbQ==".to_string(),
        args: vec!["x".to_string()],
        env: vec![("A".to_string(), "B".to_string())],
        allow_network: true,
        ctx: Some(serde_json::from_str(r#"{"b": [1, 2.5], "a": null}"#).unwrap()),
    };
    let w = run_wasm_handler(req).unwrap();
    assert_eq!(w.wasm_bytes, b"\0asm");
    assert_eq!(strings(&w.args), ["x"]);
    assert_eq!(vars(&w), [("A", "B"), ("CF_CTX_JSON", r#"{"a":null,"b":[1,2.5]}"#)]);
    assert!(w.allow_network);
    assert!(w.preopens.is_empty());
    let c = w.config();
    assert_eq!(c.wasm_bytes, b"\0asm");
    assert_eq!(c.args.len(), 1);
}

#[test]
fn requests_without_context_keep_their_environment() {
    let req = WasmRequest {
        wasm: String::new(),
        args: Vec::new(),
        env: vec![("A".to_string(), "B".to_string())],
        allow_network: false,
        ctx: None,
    };
    let w = run_wasm_handler(req).unwrap();
    assert_eq!(vars(&w), [("A", "B")]);
    assert!(!w.allow_network);
}

#[test]
fn bad_base64_is_the_clients_fault() {
    let req = WasmRequest {
        wasm: "!".to_string(),
        args: Vec::new(),
        env: Vec::new(),
        allow_network: false,
        ctx: None,
    };
    let e = run_wasm_handler(req).map(|_| ()).unwrap_err();
    assert_eq!(e.status, 400);
    assert_eq!(e.error, "invalid base64: Invalid symbol 33, offset 0.");
}

fn sample_metrics() -> WasmMetrics {
    WasmMetrics {
        stdout: "o".to_string(),
        stderr: "e".to_string(),
        wasm_size: 1,
        engine_us: 2,
        compile_us: 3,
        link_us: 4,
        instantiate_us: 5,
        run_us: 6,
        total_us: 7,
    }
}

#[test]
fn runs_are_reported() {
    let r = metrics_response(sample_metrics());
    assert_eq!((r.stdout.as_str(), r.stderr.as_str()), ("o", "e"));
    let m = r.metrics;
    assert_eq!((m.wasm_size_bytes, m.engine_us, m.compile_us, m.link_us), (1, 2, 3, 4));
    assert_eq!((m.instantiate_us, m.run_us, m.total_us), (5, 6, 7));
    let outcome = TaskOutcome::Done { metrics: sample_metrics() };
    assert_eq!(run_outcome(Origin::Client, outcome).unwrap().stdout, "o");
}

#[test]
fn failures_have_the_right_status() {
    let failed = || TaskOutcome::Failed { error: "bad".to_string() };
    let e = run_outcome(Origin::Client, failed()).unwrap_err();
    assert_eq!((e.status, e.error.as_str()), (400, "bad"));
    let e = run_outcome(Origin::Server, failed()).unwrap_err();
    assert_eq!((e.status, e.error.as_str()), (500, "bad"));
    for origin in [Origin::Client, Origin::Server] {
        let e = run_outcome(origin, TaskOutcome::Lost { error: "panic".to_string() }).unwrap_err();
        assert_eq!((e.status, e.error.as_str()), (500, "task failed: panic"));
    }
}

#[test]
fn components_are_loaded_from_disk() {
    assert_eq!(wasm_path_variable(Installed::Showcase), "DEMO_WASM_PATH");
    assert_eq!(wasm_path_variable(Installed::Shell), "UDP_WASM_PATH");
    assert_eq!(wasm_path(Installed::Shell, Some("/x.wasm".to_string())), "/x.wasm");
    assert_eq!(
        wasm_path(Installed::Showcase, None),
        "crates/examples/wasip2-showcase/target/wasm32-wasip2/release/wasip2-showcase.wasm"
    );
    assert_eq!(
        wasm_path(Installed::Shell, None),
        "crates/examples/wasip2-udp-pingpong/target/wasm32-wasip2/release/wasip2-udp-pingpong.wasm"
    );
    assert_eq!(load_wasm("p", Ok(vec![1])).unwrap(), vec![1]);
    let e = load_wasm("p", Err("not found".to_string())).unwrap_err();
    assert_eq!((e.status, e.error.as_str()), (500, "p: not found"));
}

#[test]
fn the_demo_runs_without_network() {
    let w = demo_showcase(vec![9]);
    assert_eq!(w.wasm_bytes, [9]);
    assert_eq!(strings(&w.args), ["wasip2-showcase", "--demo"]);
    assert_eq!(
        vars(&w),
        [("RUNTIME", "v8-matrix"), ("WASI_VERSION", "preview2"), ("DEMO", "true")]
    );
    assert!(!w.allow_network);
    assert!(w.preopens.is_empty());
}

#[test]
fn only_echo_gets_the_network() {
    let state = AppState { state_dir: PathBuf::from("/tmp/state") };
    let run = |cmd: &str| exec_cmd(state.state_dir.clone(), cmd, vec![1]);
    let w = run("  echo hi  there ");
    assert_eq!(strings(&w.args), ["wasi-shell", "echo", "hi", "there"]);
    assert_eq!(vars(&w), [("RUNTIME", "v8-matrix"), ("WASI_VERSION", "preview2")]);
    assert!(w.allow_network);
    assert_eq!(w.preopens.len(), 1);
    assert_eq!(w.preopens[0].host_path, PathBuf::from("/tmp/state"));
    assert_eq!(w.preopens[0].guest_path, "/state");
    for cmd in ["", "set echo 1", "Echo x", "echoes"] {
        assert!(!run(cmd).allow_network, "{cmd}");
    }
    assert_eq!(strings(&run("").args), ["wasi-shell"]);
}

#[test]
fn streams_always_get_the_network() {
    let w = exec_stream(PathBuf::from("/s"), "flood 32", vec![2]);
    assert_eq!(w.wasm_bytes, [2]);
    assert_eq!(strings(&w.args), ["wasi-shell", "flood", "32"]);
    assert!(w.env_vars.is_empty());
    assert!(w.allow_network);
    assert_eq!(w.preopens[0].guest_path, "/state");
}

#[test]
fn servers_listen_where_they_should() {
    assert_eq!(v8_matrix::server::HTTP_PORT, 3000);
    assert_eq!(webtransport_port(true), 443);
    assert_eq!(webtransport_port(false), 4433);
    assert_eq!(
        browser_command("HASH"),
        "open -na 'Google Chrome' --args --origin-to-force-quic-on=127.0.0.1:4433 \
         --ignore-certificate-errors-spki-list=HASH http://localhost:3000"
    );
}

#[test]
fn certificates_are_signed_for_the_local_host() {
    assert_eq!(local_names(), ["localhost", "127.0.0.1"]);
    let one = generate_self_signed().unwrap();
    let two = generate_self_signed().unwrap();
    assert_eq!(one.cert_hash().len(), 44);
    assert_ne!(one.cert_hash(), two.cert_hash());
    let hash = one.cert_hash();
    match one {
        TlsMode::SelfSigned { cert_der, key_der, .. } => {
            let cert = rustls::pki_types::CertificateDer::from(cert_der);
            let parsed = rustls::server::ParsedCertificate::try_from(&cert).unwrap();
            for (name, listed) in [("localhost", true), ("127.0.0.1", true), ("example.com", false)] {
                let host = rustls::pki_types::ServerName::try_from(name).unwrap();
                let verified = rustls::client::verify_server_name(&parsed, &host);
                assert_eq!(verified.is_ok(), listed, "{name}");
            }
            assert_eq!(fingerprint(parsed.subject_public_key_info().as_ref()), hash);
            let key = rustls::pki_types::PrivatePkcs8KeyDer::from(key_der);
            let provider = std::sync::Arc::new(rustls::crypto::ring::default_provider());
            let config = rustls::ServerConfig::builder_with_provider(provider)
                .with_safe_default_protocol_versions()
                .unwrap()
                .with_no_client_auth()
                .with_single_cert(vec![cert], key.into());
            assert!(config.is_ok());
        }
        TlsMode::Acme { .. } => panic!("provisioned"),
    }
}

#[test]
fn fingerprints_are_those_of_the_key() {
    let made = SelfSigned { cert_der: vec![1], key_der: vec![2], public_key_der: b"abc".to_vec() };
    let mode = self_signed_mode(made);
    assert_eq!(mode.cert_hash(), fingerprint(b"abc"));
    assert_eq!(mode.quinn_rustls_config().source, CertSource::Own);
    match mode {
        TlsMode::SelfSigned { cert_der, key_der, .. } => {
            assert_eq!((cert_der, key_der), (vec![1], vec![2]))
        }
        TlsMode::Acme { .. } => panic!("provisioned"),
    }
}

#[test]
fn domains_are_provisioned() {
    let mode = acme("example.com");
    assert_eq!(mode.cert_hash(), "");
    let tls = mode.quinn_rustls_config();
    assert_eq!(tls.source, CertSource::Provisioned);
    assert_eq!(tls.alpn_protocols, [b"h3".to_vec()]);
    assert_eq!(tls.max_early_data_size, u32::MAX);
    match mode {
        TlsMode::Acme { domain, contact, cache_dir, production } => {
            assert_eq!(domain, "example.com");
            assert_eq!(contact, "mailto:acme@example.com");
            assert_eq!(cache_dir, "/data/acme_cache");
            assert!(production);
        }
        TlsMode::SelfSigned { .. } => panic!("self-signed"),
    }
}

#[test]
fn sessions_are_opened_by_the_right_request() {
    let ask = |method: &str, protocol: Option<&str>| {
        handle_connection(Accepted::Request {
            method: method.to_string(),
            protocol: protocol.map(|p| p.to_string()),
        })
    };
    assert!(matches!(ask("CONNECT", Some("webtransport")), ConnectionStep::Serve));
    assert!(matches!(ask("CONNECT", Some("connect-udp")), ConnectionStep::Next));
    assert!(matches!(ask("CONNECT", None), ConnectionStep::Next));
    assert!(matches!(ask("GET", Some("webtransport")), ConnectionStep::Next));
    match handle_connection(Accepted::Closed) {
        ConnectionStep::End { result } => assert_eq!(result, Ok(())),
        _ => panic!("goes on"),
    }
    match handle_connection(Accepted::Failed { error: "reset".to_string() }) {
        ConnectionStep::End { result } => assert_eq!(result, Err("reset".to_string())),
        _ => panic!("goes on"),
    }
}

#[test]
fn sessions_flood_the_client() {
    let w = handle_session(PathBuf::from("/s"), vec![3]);
    assert_eq!(w.wasm_bytes, [3]);
    assert_eq!(strings(&w.args), ["wasi-shell", "flood", "64"]);
    assert!(w.env_vars.is_empty());
    assert!(w.allow_network);
    assert_eq!(w.preopens[0].guest_path, "/state");
    match session_step(Received::Data { bytes: vec![0xff, 10] }) {
        SessionStep::Send { datagram } => assert_eq!(datagram, [0xff, 10]),
        _ => panic!("nothing sent"),
    }
    assert!(matches!(session_step(Received::Timeout), SessionStep::Wait));
    assert!(matches!(session_step(Received::Disconnected), SessionStep::Stop));
    assert!(matches!(session_sent(Ok(())), SessionStep::Wait));
    assert!(matches!(session_sent(Err("gone".to_string())), SessionStep::Stop));
    let settings = transport_settings();
    assert_eq!((settings.keep_alive_secs, settings.max_idle_secs, settings.max_sessions), (2, 30, 1));
}
