use std::collections::HashSet;
use v8_matrix::bindings::{
    install_bindings, native_clear_timeout, native_console_log, native_decode_utf8,
    native_encode_utf8, native_fetch, native_set_timeout, queue_fetch, Native,
};
use v8_matrix::event_loop::{
    any_due, earliest_deadline, pair_results, partition_ops, resolvers_of, run_event_loop,
    split_due, EventLoop, FetchResponse, LoopAction, LoopEvent, OpState, PendingOp, PromiseState,
};

fn fetch_op(resolver: u64) -> PendingOp {
    PendingOp::Fetch {
        url: format!("http://host/{resolver}"),
        method: "GET".to_string(),
        headers: Vec::new(),
        body: None,
        resolver,
    }
}

fn timer(id: u32, deadline: u128) -> PendingOp {
    PendingOp::Timer { id, deadline, callback: 100 + id as u64 }
}

fn ids(ops: &[PendingOp]) -> Vec<u32> {
    ops.iter()
        .map(|op| match op {
            PendingOp::Timer { id, .. } => *id,
            PendingOp::Fetch { .. } => panic!("not a timer"),
        })
        .collect()
}

fn response(body: &str) -> Result<FetchResponse, String> {
    Ok(FetchResponse {
        status: 200,
        status_text: "OK".to_string(),
        headers: Vec::new(),
        body: body.to_string(),
    })
}

fn pending(now: u64) -> LoopEvent {
    LoopEvent::Promise { state: PromiseState::Pending, now }
}

fn start(max_iterations: usize) -> EventLoop {
    let (l, action) = run_event_loop(max_iterations, 30_000);
    assert!(matches!(action, LoopAction::Checkpoint));
    l
}

fn failure(action: LoopAction) -> String {
    match action {
        LoopAction::Finish { result } => result.unwrap_err(),
        _ => panic!("the loop goes on"),
    }
}

#[test]
fn natives_have_their_names() {
    let list = install_bindings();
    let names: Vec<&str> = list.iter().map(|(name, _)| *name).collect();
    assert_eq!(
        names,
        [
            "__native_fetch",
            "__native_console_log",
            "__native_set_timeout",
            "__native_clear_timeout",
            "__native_encode_utf8",
            "__native_decode_utf8",
        ]
    );
    assert_eq!(list[0].1, Native::Fetch);
    assert_eq!(list[5].1, Native::DecodeUtf8);
}

#[test]
fn fetches_are_queued_with_their_headers() {
    let mut ops = OpState::new();
    native_fetch(
        &mut ops,
        "http://a".to_string(),
        "POST".to_string(),
        r#"[["accept","*/*"],["x","y"]]"#,
        Some("body".to_string()),
        7,
    );
    assert_eq!(ops.fetch_count, 1);
    match &ops.pending_ops[0] {
        PendingOp::Fetch { url, method, headers, body, resolver } => {
            assert_eq!(url, "http://a");
            assert_eq!(method, "POST");
            let expected =
                vec![("accept".to_string(), "*/*".to_string()), ("x".to_string(), "y".to_string())];
            assert_eq!(headers, &expected);
            assert_eq!(body.as_deref(), Some("body"));
            assert_eq!(*resolver, 7);
        }
        PendingOp::Timer { .. } => panic!("a timer"),
    }
}

#[test]
fn unreadable_headers_count_as_none() {
    for json in ["", "{}", "[[1,2]]", "undefined", r#"[["a"]]"#] {
        let mut ops = OpState::new();
        native_fetch(&mut ops, "u".to_string(), "GET".to_string(), json, None, 1);
        match &ops.pending_ops[0] {
            PendingOp::Fetch { headers, .. } => assert!(headers.is_empty(), "{json}"),
            PendingOp::Timer { .. } => panic!("a timer"),
        }
    }
}

#[test]
fn parsed_headers_are_queued_as_they_are() {
    let mut ops = OpState::new();
    let headers = vec![("a".to_string(), "b".to_string())];
    queue_fetch(&mut ops, "u".to_string(), "GET".to_string(), Some(headers.clone()), None, 1);
    queue_fetch(&mut ops, "u".to_string(), "GET".to_string(), None, None, 2);
    assert_eq!(ops.fetch_count, 2);
    match &ops.pending_ops[0] {
        PendingOp::Fetch { headers: h, .. } => assert_eq!(h, &headers),
        PendingOp::Timer { .. } => panic!("a timer"),
    }
    assert_eq!(resolvers_of(&ops.pending_ops), vec![1, 2]);
}

#[test]
fn console_output_is_kept_in_order() {
    let mut ops = OpState::new();
    native_console_log(&mut ops, "log".to_string(), "one".to_string());
    native_console_log(&mut ops, "warn".to_string(), "two".to_string());
    let expected =
        vec![("log".to_string(), "one".to_string()), ("warn".to_string(), "two".to_string())];
    assert_eq!(ops.console_output, expected);
}

#[test]
fn timers_are_numbered_from_one() {
    let mut ops = OpState::new();
    assert_eq!(native_set_timeout(&mut ops, Some(5), Some(10), 1_000), Ok(1));
    assert_eq!(native_set_timeout(&mut ops, Some(6), None, 1_000), Ok(2));
    match (&ops.pending_ops[0], &ops.pending_ops[1]) {
        (
            PendingOp::Timer { id: 1, deadline: 10_001_000, callback: 5 },
            PendingOp::Timer { id: 2, deadline: 1_000, callback: 6 },
        ) => {}
        _ => panic!("wrong timers"),
    }
}

#[test]
fn timers_count_up_whatever_happens_between() {
    let mut ops = OpState::new();
    assert_eq!(native_set_timeout(&mut ops, Some(1), None, 0), Ok(1));
    native_clear_timeout(&mut ops, Some(1));
    queue_fetch(&mut ops, "u".to_string(), "GET".to_string(), None, None, 9);
    native_set_timeout(&mut ops, None, None, 0).unwrap_err();
    assert_eq!(native_set_timeout(&mut ops, Some(2), None, 0), Ok(2));
    assert_eq!(native_set_timeout(&mut ops, Some(3), Some(u32::MAX), u64::MAX), Ok(3));
    match ops.pending_ops.last() {
        Some(PendingOp::Timer { id: 3, deadline, .. }) => {
            assert_eq!(*deadline, u64::MAX as u128 + u32::MAX as u128 * 1_000_000)
        }
        _ => panic!("no timer"),
    }
}

#[test]
fn timers_need_a_function() {
    let mut ops = OpState::new();
    assert_eq!(
        native_set_timeout(&mut ops, None, Some(10), 0),
        Err("setTimeout: first argument must be a function".to_string())
    );
    assert!(ops.pending_ops.is_empty());
    assert_eq!(ops.next_timer_id, 1);
}

#[test]
fn cleared_timers_do_not_fire() {
    let mut ops = OpState::new();
    native_set_timeout(&mut ops, Some(1), Some(0), 0).unwrap();
    native_set_timeout(&mut ops, Some(2), Some(0), 0).unwrap();
    native_clear_timeout(&mut ops, Some(1));
    native_clear_timeout(&mut ops, None);
    let mut l = start(10);
    assert!(matches!(l.step(&mut ops, pending(0)), LoopAction::Fetch { ops } if ops.is_empty()));
    let action = l.step(&mut ops, LoopEvent::Fetched { outcomes: Vec::new() });
    assert!(matches!(action, LoopAction::ReadClock));
    match l.step(&mut ops, LoopEvent::Clock { now: 5 }) {
        LoopAction::Settle { callbacks, .. } => assert_eq!(callbacks, vec![2]),
        _ => panic!("nothing settled"),
    }
}

#[test]
fn text_is_encoded_and_decoded_for_scripts() {
    assert_eq!(native_encode_utf8("é"), vec![0xc3, 0xa9]);
    assert_eq!(native_decode_utf8(Some(vec![0xc3, 0xa9])), Ok("é".to_string()));
    assert_eq!(
        native_decode_utf8(Some(vec![0xff])),
        Err("decode_utf8: invalid UTF-8".to_string())
    );
    assert_eq!(
        native_decode_utf8(None),
        Err("decode_utf8: expected ArrayBufferView".to_string())
    );
}

#[test]
fn operations_are_sorted_out() {
    let ops = vec![timer(1, 5), fetch_op(1), timer(2, 6), fetch_op(2), timer(3, 1)];
    let cancelled: HashSet<u32> = HashSet::from([2, 9]);
    let (fetches, timers) = partition_ops(ops, &cancelled);
    assert_eq!(resolvers_of(&fetches), vec![1, 2]);
    assert_eq!(ids(&timers), vec![1, 3]);
}

#[test]
fn due_timers_are_told_from_others() {
    let timers = || vec![timer(1, 10), timer(2, 20), timer(3, 11)];
    assert!(any_due(&timers(), 10));
    assert!(!any_due(&timers(), 9));
    assert_eq!(earliest_deadline(&timers()), 10);
    let (ready, rest) = split_due(timers(), 11);
    assert_eq!(ready, vec![101, 103]);
    assert_eq!(ids(&rest), vec![2]);
}

#[test]
fn outcomes_go_to_their_resolvers() {
    let results = pair_results(vec![4, 5], vec![response("a"), Err("b".to_string())]);
    assert_eq!(results[0].resolver, 4);
    assert_eq!(results[0].outcome.as_ref().map(|r| r.body.as_str()), Ok("a"));
    assert_eq!(results[1].resolver, 5);
    assert_eq!(results[1].outcome.as_ref().map(|_| ()), Err(&"b".to_string()));
}

#[test]
fn a_settled_promise_ends_the_loop() {
    for state in [PromiseState::Fulfilled, PromiseState::Rejected] {
        let mut ops = OpState::new();
        ops.pending_ops.push(timer(1, 5));
        let mut l = start(10);
        match l.step(&mut ops, LoopEvent::Promise { state, now: u64::MAX }) {
            LoopAction::Finish { result } => assert_eq!(result, Ok(())),
            _ => panic!("the loop goes on"),
        }
        assert_eq!(ops.pending_ops.len(), 1);
        assert_eq!(l.iterations, 0);
    }
}

#[test]
fn a_loop_with_nothing_to_wait_for_stalls() {
    let mut ops = OpState::new();
    let mut l = start(10);
    assert!(matches!(l.step(&mut ops, pending(0)), LoopAction::Checkpoint));
    assert_eq!(
        failure(l.step(&mut ops, pending(0))),
        "Event loop stalled: promise pending with no ops"
    );
}

#[test]
fn a_promise_may_settle_at_the_second_look() {
    let mut ops = OpState::new();
    let mut l = start(10);
    l.step(&mut ops, pending(0));
    let event = LoopEvent::Promise { state: PromiseState::Fulfilled, now: 0 };
    assert!(matches!(l.step(&mut ops, event), LoopAction::Finish { result: Ok(()) }));
}

#[test]
fn a_round_fetches_sleeps_and_fires() {
    let mut ops = OpState::new();
    ops.pending_ops = vec![timer(1, 50), fetch_op(9), timer(2, 40)];
    let mut l = start(10);
    match l.step(&mut ops, pending(0)) {
        LoopAction::Fetch { ops: fetches } => assert_eq!(resolvers_of(&fetches), vec![9]),
        _ => panic!("no fetch"),
    }
    assert!(ops.pending_ops.is_empty());
    let action = l.step(&mut ops, LoopEvent::Fetched { outcomes: vec![response("x")] });
    assert!(matches!(action, LoopAction::ReadClock));
    let action = l.step(&mut ops, LoopEvent::Clock { now: 1 });
    assert!(matches!(action, LoopAction::SleepUntil { deadline: 40 }));
    match l.step(&mut ops, LoopEvent::Clock { now: 41 }) {
        LoopAction::Settle { fetched, callbacks } => {
            assert_eq!(fetched.len(), 1);
            assert_eq!(fetched[0].resolver, 9);
            assert_eq!(callbacks, vec![102]);
        }
        _ => panic!("nothing settled"),
    }
    assert_eq!(ids(&ops.pending_ops), vec![1]);
    assert!(matches!(l.step(&mut ops, LoopEvent::Settled), LoopAction::Checkpoint));
    assert_eq!(l.iterations, 1);
}

#[test]
fn requeued_timers_come_after_new_ones() {
    let mut ops = OpState::new();
    ops.pending_ops = vec![timer(1, 5), timer(2, 500)];
    let mut l = start(10);
    l.step(&mut ops, pending(10));
    ops.pending_ops.push(timer(3, 7));
    l.step(&mut ops, LoopEvent::Fetched { outcomes: Vec::new() });
    l.step(&mut ops, LoopEvent::Clock { now: 10 });
    assert_eq!(ids(&ops.pending_ops), vec![3, 2]);
}

#[test]
fn without_timers_fetches_are_settled_at_once() {
    let mut ops = OpState::new();
    ops.pending_ops = vec![fetch_op(3)];
    let mut l = start(10);
    l.step(&mut ops, pending(0));
    match l.step(&mut ops, LoopEvent::Fetched { outcomes: vec![Err("down".to_string())] }) {
        LoopAction::Settle { fetched, callbacks } => {
            assert_eq!(fetched[0].outcome.as_ref().map(|_| ()), Err(&"down".to_string()));
            assert!(callbacks.is_empty());
        }
        _ => panic!("nothing settled"),
    }
}

#[test]
fn too_many_rounds_end_the_loop() {
    let mut ops = OpState::new();
    let mut l = start(2);
    for round in 0..2 {
        ops.pending_ops.push(fetch_op(round));
        l.step(&mut ops, pending(0));
        l.step(&mut ops, LoopEvent::Fetched { outcomes: vec![response("")] });
        let action = l.step(&mut ops, LoopEvent::Settled);
        if round == 1 {
            assert_eq!(failure(action), "Event loop exceeded max iterations (2)");
        }
    }
    assert_eq!(l.iterations, 2);
}

#[test]
fn a_loop_without_rounds_ends_at_once() {
    let (_, action) = run_event_loop(0, 30_000);
    assert_eq!(failure(action), "Event loop exceeded max iterations (0)");
}

#[test]
fn the_end_of_the_time_ends_the_loop() {
    let mut ops = OpState::new();
    ops.pending_ops.push(timer(1, 5));
    let (mut l, _) = run_event_loop(10, 20);
    assert_eq!(
        failure(l.step(&mut ops, pending(20_000_000))),
        "Event loop exceeded max duration (20 ms)"
    );
}

#[test]
fn a_sleep_does_not_outlast_the_time() {
    let mut ops = OpState::new();
    ops.pending_ops.push(timer(1, 1_000_000_000));
    let (mut l, _) = run_event_loop(10, 20);
    l.step(&mut ops, pending(0));
    l.step(&mut ops, LoopEvent::Fetched { outcomes: Vec::new() });
    let action = l.step(&mut ops, LoopEvent::Clock { now: 0 });
    assert!(matches!(action, LoopAction::SleepUntil { deadline: 20_000_000 }));
    match l.step(&mut ops, LoopEvent::Clock { now: 20_000_001 }) {
        LoopAction::Settle { callbacks, .. } => assert!(callbacks.is_empty()),
        _ => panic!("nothing settled"),
    }
    assert_eq!(ids(&ops.pending_ops), vec![1]);
}
