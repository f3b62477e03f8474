//! The event loop of a fetcher run: which operations are pending, which of
//! them are due, and what happens next until the top-level promise settles.
//!
//! The loop itself performs nothing. It says what is to be done next
//! ([`LoopAction`]) and is told what came of it ([`LoopEvent`]):
//!   1. drain the microtask queue and report the state of the promise;
//!   2. perform the pending fetches;
//!   3. find the timers that are due, after a sleep if none is;
//!   4. settle the fetch promises, then call the timer callbacks;
//!   5. start over.
//!
//! Promise resolvers and callbacks belong to the script engine; here they are
//! the numbers under which the engine keeps them. Times are nanoseconds on a
//! monotonic clock that starts at zero when the run starts.

use std::collections::HashSet;
use vstd::prelude::*;

use crate::clock;
use crate::clock::duration_limit;
use crate::text;
use crate::text::{decimal, join3};

verus! {

broadcast use vstd::std_specs::hash::group_hash_axioms;

/// A single pending asynchronous operation.
pub enum PendingOp {
    /// An outbound request, with the resolver of the promise that waits for it.
    Fetch {
        url: String,
        method: String,
        headers: Vec<(String, String)>,
        body: Option<String>,
        resolver: u64,
    },
    /// A timer, with the callback to call once its deadline has passed.
    Timer { id: u32, deadline: u128, callback: u64 },
}

/// What a script has asked for and printed so far.
pub struct OpState {
    /// Operations that wait to be driven, in the order in which they came.
    pub pending_ops: Vec<PendingOp>,
    /// Console output: level and message.
    pub console_output: Vec<(String, String)>,
    /// The number of the next timer.
    pub next_timer_id: u32,
    /// The numbers of the timers that were cleared.
    pub cancelled_timers: HashSet<u32>,
    /// How many fetches the script has started.
    pub fetch_count: usize,
}

impl OpState {
    /// A state in which nothing has happened yet. Timers are numbered from 1.
    pub fn new() -> (s: Self)
        ensures
            s.pending_ops@.len() == 0,
            s.console_output@.len() == 0,
            s.next_timer_id == 1,
            s.cancelled_timers@ == Set::<u32>::empty(),
            s.fetch_count == 0,
    {
        OpState {
            pending_ops: Vec::new(),
            console_output: Vec::new(),
            next_timer_id: 1,
            cancelled_timers: HashSet::new(),
            fetch_count: 0,
        }
    }
}

/// A completed fetch.
pub struct FetchResponse {
    pub status: u16,
    pub status_text: String,
    pub headers: Vec<(String, String)>,
    pub body: String,
}

/// What came of a fetch, for the promise that waits for it.
pub struct FetchResult {
    pub resolver: u64,
    pub outcome: Result<FetchResponse, String>,
}

/// The state of a promise.
#[derive(Clone, Copy, PartialEq, Eq, Structural, Debug)]
pub enum PromiseState {
    Pending,
    Fulfilled,
    Rejected,
}

// ---- sorting operations out ----

/// Picks the fetches.
pub open spec fn fetches() -> spec_fn(PendingOp) -> bool {
    |op: PendingOp| op is Fetch
}

/// Picks the timers that were not cleared.
pub open spec fn live_timers(cancelled: Set<u32>) -> spec_fn(PendingOp) -> bool {
    |op: PendingOp| op is Timer && !cancelled.contains(op->id)
}

/// Picks the timers whose deadline has passed.
pub open spec fn due(now: u64) -> spec_fn(PendingOp) -> bool {
    |op: PendingOp| op is Timer && op->deadline <= now
}

/// Picks the timers whose deadline is still to come.
pub open spec fn waiting(now: u64) -> spec_fn(PendingOp) -> bool {
    |op: PendingOp| op is Timer && op->deadline > now
}

pub open spec fn all_timers(ops: Seq<PendingOp>) -> bool {
    forall|i: int| 0 <= i < ops.len() ==> (#[trigger] ops[i]) is Timer
}

/// The callbacks of a sequence of timers.
pub open spec fn callbacks(timers: Seq<PendingOp>) -> Seq<u64> {
    timers.map_values(|op: PendingOp| op->callback)
}

/// The promise resolvers of a sequence of fetches.
pub open spec fn resolvers(ops: Seq<PendingOp>) -> Seq<u64> {
    ops.map_values(|op: PendingOp| op->resolver)
}

proof fn lemma_filter_step<A>(s: Seq<A>, i: int, f: spec_fn(A) -> bool)
    requires
        0 <= i < s.len(),
    ensures
        s.take(i + 1).filter(f) == if f(s[i]) {
            s.take(i).filter(f).push(s[i])
        } else {
            s.take(i).filter(f)
        },
{
    reveal(Seq::filter);
    assert(s.take(i + 1).drop_last() =~= s.take(i));
}

/// Separates the fetches from the timers and drops the timers that were
/// cleared. Both keep the order in which the operations came.
pub fn partition_ops(ops: Vec<PendingOp>, cancelled: &HashSet<u32>) -> (r: (
    Vec<PendingOp>,
    Vec<PendingOp>,
))
    ensures
        r.0@ == ops@.filter(fetches()),
        r.1@ == ops@.filter(live_timers(cancelled@)),
{
    let mut fetch_ops: Vec<PendingOp> = Vec::new();
    let mut timer_ops: Vec<PendingOp> = Vec::new();
    let ghost all = ops@;
    reveal(Seq::filter);
    for op in it: ops
        invariant
            it.seq() == all,
            fetch_ops@ == all.take(it.index() as int).filter(fetches()),
            timer_ops@ == all.take(it.index() as int).filter(live_timers(cancelled@)),
    {
        proof {
            lemma_filter_step(all, it.index() as int, fetches());
            lemma_filter_step(all, it.index() as int, live_timers(cancelled@));
        }
        let skip = match &op {
            PendingOp::Fetch { .. } => false,
            PendingOp::Timer { id, .. } => cancelled.contains(id),
        };
        if !skip {
            match &op {
                PendingOp::Fetch { .. } => {
                    fetch_ops.push(op);
                },
                PendingOp::Timer { .. } => {
                    timer_ops.push(op);
                },
            }
        }
    }
    assert(all.take(all.len() as int) =~= all);
    (fetch_ops, timer_ops)
}

/// Separates the timers that are due at `now`, of which only the callbacks
/// matter from here on, from those that still have to wait.
pub fn split_due(timers: Vec<PendingOp>, now: u64) -> (r: (Vec<u64>, Vec<PendingOp>))
    ensures
        r.0@ == callbacks(timers@.filter(due(now))),
        r.1@ == timers@.filter(waiting(now)),
{
    let mut ready: Vec<u64> = Vec::new();
    let mut rest: Vec<PendingOp> = Vec::new();
    let ghost all = timers@;
    proof {
        reveal(Seq::filter);
        assert(callbacks(all.take(0).filter(due(now))) =~= Seq::<u64>::empty());
    }
    for op in it: timers
        invariant
            it.seq() == all,
            ready@ == callbacks(all.take(it.index() as int).filter(due(now))),
            rest@ == all.take(it.index() as int).filter(waiting(now)),
    {
        proof {
            lemma_filter_step(all, it.index() as int, due(now));
            lemma_filter_step(all, it.index() as int, waiting(now));
        }
        let ghost before = all.take(it.index() as int).filter(due(now));
        if let PendingOp::Timer { id, deadline, callback } = op {
            if deadline <= now as u128 {
                ready.push(callback);
                assert(callbacks(before.push(op)) =~= callbacks(before).push(callback));
            } else {
                rest.push(PendingOp::Timer { id, deadline, callback });
            }
        }
    }
    assert(all.take(all.len() as int) =~= all);
    (ready, rest)
}

/// Whether any timer is due at `now`.
pub fn any_due(timers: &Vec<PendingOp>, now: u64) -> (b: bool)
    ensures
        b == (timers@.filter(due(now)).len() > 0),
{
    reveal(Seq::filter);
    for i in 0..timers.len()
        invariant
            timers@.take(i as int).filter(due(now)).len() == 0,
    {
        proof {
            lemma_filter_step(timers@, i as int, due(now));
        }
        let now_due = match &timers[i] {
            PendingOp::Timer { deadline, .. } => *deadline <= now as u128,
            PendingOp::Fetch { .. } => false,
        };
        if now_due {
            proof {
                timers@.lemma_filter_contains(due(now), i as int);
            }
            return true;
        }
    }
    assert(timers@.take(timers@.len() as int) =~= timers@);
    false
}

/// Whether `d` is the earliest deadline of the timers.
pub open spec fn is_earliest(timers: Seq<PendingOp>, d: u128) -> bool {
    &&& exists|i: int| 0 <= i < timers.len() && (#[trigger] timers[i])->deadline == d
    &&& forall|i: int| 0 <= i < timers.len() ==> d <= (#[trigger] timers[i])->deadline
}

/// The earliest deadline of at least one timer.
pub fn earliest_deadline(timers: &Vec<PendingOp>) -> (d: u128)
    requires
        timers@.len() > 0,
        all_timers(timers@),
    ensures
        is_earliest(timers@, d),
{
    let mut best: u128 = u128::MAX;
    let ghost mut at: int = 0;
    for i in 0..timers.len()
        invariant
            timers@.len() > 0,
            all_timers(timers@),
            i > 0 ==> 0 <= at < i && timers@[at]->deadline == best,
            i == 0 ==> best == u128::MAX,
            forall|j: int| 0 <= j < i ==> best <= (#[trigger] timers@[j])->deadline,
    {
        assert(timers@[i as int] is Timer);
        if let PendingOp::Timer { deadline, .. } = &timers[i] {
            if i == 0 || *deadline < best {
                best = *deadline;
                proof {
                    at = i as int;
                }
            }
        }
    }
    assert(timers@[at]->deadline == best);
    best
}

/// The resolvers of the promises that wait for the given fetches.
pub fn resolvers_of(ops: &Vec<PendingOp>) -> (r: Vec<u64>)
    requires
        forall|i: int| 0 <= i < ops@.len() ==> (#[trigger] ops@[i]) is Fetch,
    ensures
        r@ == resolvers(ops@),
{
    let mut r: Vec<u64> = Vec::new();
    for i in 0..ops.len()
        invariant
            forall|i: int| 0 <= i < ops@.len() ==> (#[trigger] ops@[i]) is Fetch,
            r@ == resolvers(ops@.take(i as int)),
    {
        assert(ops@[i as int] is Fetch);
        assert(resolvers(ops@.take(i + 1)) =~= resolvers(ops@.take(i as int)).push(
            ops@[i as int]->resolver,
        ));
        if let PendingOp::Fetch { resolver, .. } = &ops[i] {
            r.push(*resolver);
        }
    }
    assert(ops@.take(ops@.len() as int) =~= ops@);
    r
}

/// Whether `results` holds each outcome under the resolver at its place.
pub open spec fn paired(
    results: Seq<FetchResult>,
    waiting_for: Seq<u64>,
    outcomes: Seq<Result<FetchResponse, String>>,
) -> bool {
    &&& results.len() == outcomes.len()
    &&& forall|i: int|
        0 <= i < results.len() ==> (#[trigger] results[i]).resolver == waiting_for[i]
            && results[i].outcome == outcomes[i]
}

/// Puts each outcome under the resolver at its place.
pub fn pair_results(
    waiting_for: Vec<u64>,
    outcomes: Vec<Result<FetchResponse, String>>,
) -> (r: Vec<FetchResult>)
    requires
        waiting_for@.len() == outcomes@.len(),
    ensures
        paired(r@, waiting_for@, outcomes@),
{
    let mut r: Vec<FetchResult> = Vec::new();
    let ghost all = outcomes@;
    for outcome in it: outcomes
        invariant
            it.seq() == all,
            waiting_for@.len() == all.len(),
            paired(r@, waiting_for@, all.take(it.index() as int)),
    {
        let i: usize = r.len();
        r.push(FetchResult { resolver: waiting_for[i], outcome });
        assert(all.take(it.index() + 1) =~= all.take(it.index() as int).push(outcome));
    }
    assert(all.take(all.len() as int) =~= all);
    r
}

// ---- the loop ----

/// Where a loop stands.
pub enum LoopPhase {
    /// The microtask queue is being drained.
    Checkpoint,
    /// Nothing was pending; the microtask queue is drained once more.
    Recheck,
    /// Fetches are being performed, in the order of their resolvers.
    Fetching { waiting_for: Vec<u64>, timers: Vec<PendingOp> },
    /// The fetches are done; the clock is read to find the timers that are due.
    Timing { fetched: Vec<FetchResult>, timers: Vec<PendingOp> },
    /// No timer was due; the loop sleeps until the earliest deadline.
    Sleeping { fetched: Vec<FetchResult>, timers: Vec<PendingOp> },
    /// Promises are being settled and callbacks called.
    Settling,
    /// The loop has ended.
    Finished,
}

/// What the loop is told.
pub enum LoopEvent {
    /// The microtask queue is empty; the promise is in this state, at this time.
    Promise { state: PromiseState, now: u64 },
    /// The outcomes of the fetches, in the order in which they were asked for.
    Fetched { outcomes: Vec<Result<FetchResponse, String>> },
    /// The time, after the sleep if there was one.
    Clock { now: u64 },
    /// Promises are settled and callbacks called.
    Settled,
}

/// What the loop wants done next.
pub enum LoopAction {
    /// Drain the microtask queue and look at the promise.
    Checkpoint,
    /// Perform these fetches one after the other.
    Fetch { ops: Vec<PendingOp> },
    /// Read the clock.
    ReadClock,
    /// Sleep until this time, if it is still to come, and read the clock.
    SleepUntil { deadline: u64 },
    /// Settle the promises of these fetches, then call these callbacks.
    Settle { fetched: Vec<FetchResult>, callbacks: Vec<u64> },
    /// The loop is over.
    Finish { result: Result<(), String> },
}

/// The event loop of one run.
pub struct EventLoop {
    /// How many rounds the loop may take.
    pub max_iterations: usize,
    /// How many rounds are complete.
    pub iterations: usize,
    /// The wall-clock time that the run may take, in milliseconds.
    pub max_duration_ms: u64,
    pub phase: LoopPhase,
}

/// The message of a loop that took too many rounds.
pub open spec fn too_many_rounds(max: usize) -> Seq<char> {
    "Event loop exceeded max iterations ("@ + text::numeral(max as nat) + ")"@
}

/// The message of a loop that ran out of wall-clock time.
pub open spec fn out_of_time(max_ms: u64) -> Seq<char> {
    "Event loop exceeded max duration ("@ + text::numeral(max_ms as nat) + " ms)"@
}

/// The message of a run that ran out of wall-clock time.
pub fn time_exceeded(max_ms: u64) -> (s: String)
    ensures
        s@ == out_of_time(max_ms),
{
    let n = decimal(max_ms);
    join3("Event loop exceeded max duration (", n.as_str(), " ms)")
}

/// The message of a loop with nothing left to wait for.
pub open spec fn stalled() -> Seq<char> {
    "Event loop stalled: promise pending with no ops"@
}

pub open spec fn finishes_ok(a: LoopAction) -> bool {
    a matches LoopAction::Finish { result } && result is Ok
}

pub open spec fn finishes_with(a: LoopAction, message: Seq<char>) -> bool {
    a matches LoopAction::Finish { result } && result matches Err(e) && e@ == message
}

/// Everything but the pending operations is as it was.
pub open spec fn same_but_pending(a: OpState, b: OpState) -> bool {
    &&& a.console_output == b.console_output
    &&& a.next_timer_id == b.next_timer_id
    &&& a.cancelled_timers == b.cancelled_timers
    &&& a.fetch_count == b.fetch_count
}

impl EventLoop {
    /// What holds of every loop between two steps.
    pub open spec fn wf(self) -> bool {
        &&& self.iterations <= self.max_iterations
        &&& !(self.phase is Finished) ==> self.iterations < self.max_iterations
        &&& match self.phase {
            LoopPhase::Fetching { timers, .. } => all_timers(timers@),
            LoopPhase::Timing { timers, .. } => all_timers(timers@) && timers@.len() > 0,
            LoopPhase::Sleeping { timers, .. } => all_timers(timers@) && timers@.len() > 0,
            _ => true,
        }
    }

    /// Whether `event` answers what the loop has asked for.
    pub open spec fn awaits(self, event: LoopEvent) -> bool {
        match self.phase {
            LoopPhase::Checkpoint => event is Promise,
            LoopPhase::Recheck => event is Promise,
            LoopPhase::Fetching { waiting_for, .. } => event is Fetched
                && event->outcomes@.len() == waiting_for@.len(),
            LoopPhase::Timing { .. } => event is Clock,
            LoopPhase::Sleeping { .. } => event is Clock,
            LoopPhase::Settling => event is Settled,
            LoopPhase::Finished => false,
        }
    }

    /// A bound on the number of steps that are left.
    pub open spec fn steps_left(self) -> nat {
        let rounds = (self.max_iterations - self.iterations) as nat;
        match self.phase {
            LoopPhase::Checkpoint => 6 * rounds,
            LoopPhase::Fetching { .. } => (6 * rounds - 1) as nat,
            LoopPhase::Timing { .. } => (6 * rounds - 2) as nat,
            LoopPhase::Sleeping { .. } => (6 * rounds - 3) as nat,
            LoopPhase::Settling => (6 * rounds - 4) as nat,
            LoopPhase::Recheck => 1,
            LoopPhase::Finished => 0,
        }
    }

    /// The limits of a loop do not change.
    pub open spec fn same_limits(self, next: Self) -> bool {
        next.max_iterations == self.max_iterations && next.max_duration_ms
            == self.max_duration_ms
    }

    /// After a checkpoint: a settled promise ends the loop, and so does the end
    /// of the wall-clock time. With nothing pending the queue is drained once
    /// more. Otherwise the pending operations are taken: the fetches are to be
    /// performed, and the timers that were not cleared are kept.
    pub open spec fn after_checkpoint(
        self,
        ops: OpState,
        state: PromiseState,
        now: u64,
        next: Self,
        ops2: OpState,
        action: LoopAction,
    ) -> bool {
        if state != PromiseState::Pending {
            next.phase is Finished && ops2 == ops && finishes_ok(action)
        } else if now >= clock::time_limit(self.max_duration_ms) {
            next.phase is Finished && ops2 == ops && finishes_with(action, out_of_time(
                self.max_duration_ms,
            ))
        } else if ops.pending_ops@.len() == 0 {
            next.phase is Recheck && ops2 == ops && action is Checkpoint
        } else {
            &&& same_but_pending(ops2, ops)
            &&& ops2.pending_ops@.len() == 0
            &&& action matches LoopAction::Fetch { ops: fetch_ops }
            &&& fetch_ops@ == ops.pending_ops@.filter(fetches())
            &&& next.phase matches LoopPhase::Fetching { waiting_for, timers }
            &&& waiting_for@ == resolvers(fetch_ops@)
            &&& timers@ == ops.pending_ops@.filter(live_timers(ops.cancelled_timers@))
        }
    }

    /// After the second checkpoint with nothing pending, the loop ends.
    pub open spec fn after_recheck(
        self,
        ops: OpState,
        state: PromiseState,
        next: Self,
        ops2: OpState,
        action: LoopAction,
    ) -> bool {
        &&& next.phase is Finished
        &&& ops2 == ops
        &&& if state != PromiseState::Pending {
            finishes_ok(action)
        } else {
            finishes_with(action, stalled())
        }
    }

    /// After the fetches: without timers everything is settled at once,
    /// otherwise the clock is read.
    pub open spec fn after_fetches(
        waiting_for: Seq<u64>,
        timers: Seq<PendingOp>,
        outcomes: Seq<Result<FetchResponse, String>>,
        ops: OpState,
        next: Self,
        ops2: OpState,
        action: LoopAction,
    ) -> bool {
        &&& ops2 == ops
        &&& if timers.len() == 0 {
            &&& next.phase is Settling
            &&& action matches LoopAction::Settle { fetched, callbacks: c }
            &&& paired(fetched@, waiting_for, outcomes)
            &&& c@.len() == 0
        } else {
            &&& action is ReadClock
            &&& next.phase matches LoopPhase::Timing { fetched, timers: t }
            &&& paired(fetched@, waiting_for, outcomes)
            &&& t@ == timers
        }
    }

    /// The timers that are due fire, and the others are pending again, behind
    /// what has become pending meanwhile.
    pub open spec fn fires(
        fetched: Seq<FetchResult>,
        timers: Seq<PendingOp>,
        now: u64,
        ops: OpState,
        next: Self,
        ops2: OpState,
        action: LoopAction,
    ) -> bool {
        &&& next.phase is Settling
        &&& same_but_pending(ops2, ops)
        &&& ops2.pending_ops@ == ops.pending_ops@ + timers.filter(waiting(now))
        &&& action matches LoopAction::Settle { fetched: f, callbacks: c }
        &&& f@ == fetched
        &&& c@ == callbacks(timers.filter(due(now)))
    }

    /// After the first look at the clock: if no timer is due the loop sleeps
    /// until the earliest deadline, or until the end of the wall-clock time if
    /// that comes first.
    pub open spec fn after_clock(
        self,
        fetched: Seq<FetchResult>,
        timers: Seq<PendingOp>,
        now: u64,
        ops: OpState,
        next: Self,
        ops2: OpState,
        action: LoopAction,
    ) -> bool {
        if timers.filter(due(now)).len() == 0 {
            &&& ops2 == ops
            &&& next.phase matches LoopPhase::Sleeping { fetched: f, timers: t }
            &&& f@ == fetched
            &&& t@ == timers
            &&& action matches LoopAction::SleepUntil { deadline }
            &&& exists|d: u128| #[trigger]
                is_earliest(timers, d) && deadline == if d <= clock::time_limit(self.max_duration_ms) {
                    d as int
                } else {
                    clock::time_limit(self.max_duration_ms) as int
                }
        } else {
            Self::fires(fetched, timers, now, ops, next, ops2, action)
        }
    }

    /// After promises are settled and callbacks called, a round is complete.
    pub open spec fn after_settling(
        self,
        ops: OpState,
        next: Self,
        ops2: OpState,
        action: LoopAction,
    ) -> bool {
        &&& ops2 == ops
        &&& if next.iterations == self.max_iterations {
            next.phase is Finished && finishes_with(action, too_many_rounds(self.max_iterations))
        } else {
            next.phase is Checkpoint && action is Checkpoint
        }
    }

    /// What a step does.
    pub open spec fn steps(
        self,
        ops: OpState,
        event: LoopEvent,
        next: Self,
        ops2: OpState,
        action: LoopAction,
    ) -> bool {
        &&& self.same_limits(next)
        &&& next.iterations == self.iterations + if event is Settled {
            1int
        } else {
            0int
        }
        &&& match (self.phase, event) {
            (LoopPhase::Checkpoint, LoopEvent::Promise { state, now }) => self.after_checkpoint(
                ops,
                state,
                now,
                next,
                ops2,
                action,
            ),
            (LoopPhase::Recheck, LoopEvent::Promise { state, .. }) => self.after_recheck(
                ops,
                state,
                next,
                ops2,
                action,
            ),
            (
                LoopPhase::Fetching { waiting_for, timers },
                LoopEvent::Fetched { outcomes },
            ) => Self::after_fetches(waiting_for@, timers@, outcomes@, ops, next, ops2, action),
            (LoopPhase::Timing { fetched, timers }, LoopEvent::Clock { now }) => self.after_clock(
                fetched@,
                timers@,
                now,
                ops,
                next,
                ops2,
                action,
            ),
            (LoopPhase::Sleeping { fetched, timers }, LoopEvent::Clock { now }) => Self::fires(
                fetched@,
                timers@,
                now,
                ops,
                next,
                ops2,
                action,
            ),
            (LoopPhase::Settling, LoopEvent::Settled) => self.after_settling(
                ops,
                next,
                ops2,
                action,
            ),
            _ => false,
        }
    }

    /// Takes the phase out of the loop.
    fn take_phase(&mut self) -> (p: LoopPhase)
        ensures
            p == old(self).phase,
            final(self).phase is Finished,
            final(self).max_iterations == old(self).max_iterations,
            final(self).iterations == old(self).iterations,
            final(self).max_duration_ms == old(self).max_duration_ms,
    {
        let mut p = LoopPhase::Finished;
        core::mem::swap(&mut p, &mut self.phase);
        p
    }

    fn exceeded(&self) -> (a: LoopAction)
        ensures
            finishes_with(a, too_many_rounds(self.max_iterations)),
    {
        let n = decimal(self.max_iterations as u64);
        LoopAction::Finish {
            result: Err(join3("Event loop exceeded max iterations (", n.as_str(), ")")),
        }
    }

    /// Lets the timers that are due fire and queues the others again.
    fn fire(
        &mut self,
        ops: &mut OpState,
        fetched: Vec<FetchResult>,
        timers: Vec<PendingOp>,
        now: u64,
    ) -> (action: LoopAction)
        ensures
            Self::fires(fetched@, timers@, now, *old(ops), *final(self), *final(ops), action),
            old(self).same_limits(*final(self)),
            final(self).iterations == old(self).iterations,
    {
        let (ready, rest) = split_due(timers, now);
        let mut rest = rest;
        ops.pending_ops.append(&mut rest);
        self.phase = LoopPhase::Settling;
        LoopAction::Settle { fetched, callbacks: ready }
    }

    /// Tells the loop what came of its last action, and returns the next one.
    pub fn step(&mut self, ops: &mut OpState, event: LoopEvent) -> (action: LoopAction)
        requires
            old(self).wf(),
            old(self).awaits(event),
        ensures
            final(self).wf(),
            old(self).steps(*old(ops), event, *final(self), *final(ops), action),
            action is Finish <==> final(self).phase is Finished,
            final(self).steps_left() < old(self).steps_left(),
    {
        let phase = self.take_phase();
        match event {
            LoopEvent::Promise { state, now } => {
                if state != PromiseState::Pending {
                    return LoopAction::Finish { result: Ok(()) };
                }
                if let LoopPhase::Recheck = phase {
                    return LoopAction::Finish {
                        result: Err("Event loop stalled: promise pending with no ops".to_string()),
                    };
                }
                if now >= duration_limit(self.max_duration_ms) {
                    return LoopAction::Finish { result: Err(time_exceeded(self.max_duration_ms)) };
                }
                if ops.pending_ops.len() == 0 {
                    self.phase = LoopPhase::Recheck;
                    return LoopAction::Checkpoint;
                }
                let mut taken: Vec<PendingOp> = Vec::new();
                core::mem::swap(&mut taken, &mut ops.pending_ops);
                let ghost all = taken@;
                let (fetch_ops, timers) = partition_ops(taken, &ops.cancelled_timers);
                proof {
                    broadcast use vstd::seq_lib::group_filter_ensures;
                }
                let waiting_for = resolvers_of(&fetch_ops);
                self.phase = LoopPhase::Fetching { waiting_for, timers };
                LoopAction::Fetch { ops: fetch_ops }
            },
            LoopEvent::Fetched { outcomes } => match phase {
                LoopPhase::Fetching { waiting_for, timers } => {
                    let fetched = pair_results(waiting_for, outcomes);
                    if timers.len() == 0 {
                        self.phase = LoopPhase::Settling;
                        LoopAction::Settle { fetched, callbacks: Vec::new() }
                    } else {
                        self.phase = LoopPhase::Timing { fetched, timers };
                        LoopAction::ReadClock
                    }
                },
                _ => vstd::pervasive::unreached(),
            },
            LoopEvent::Clock { now } => match phase {
                LoopPhase::Timing { fetched, timers } => {
                    if any_due(&timers, now) {
                        self.fire(ops, fetched, timers, now)
                    } else {
                        let earliest = earliest_deadline(&timers);
                        let limit = duration_limit(self.max_duration_ms);
                        let deadline: u64 = if earliest <= limit as u128 {
                            earliest as u64
                        } else {
                            limit
                        };
                        self.phase = LoopPhase::Sleeping { fetched, timers };
                        LoopAction::SleepUntil { deadline }
                    }
                },
                LoopPhase::Sleeping { fetched, timers } => self.fire(ops, fetched, timers, now),
                _ => vstd::pervasive::unreached(),
            },
            LoopEvent::Settled => {
                self.iterations = self.iterations + 1;
                if self.iterations == self.max_iterations {
                    self.exceeded()
                } else {
                    self.phase = LoopPhase::Checkpoint;
                    LoopAction::Checkpoint
                }
            },
        }
    }
}

/// Starts a loop that may take `max_iterations` rounds and `max_duration_ms`
/// milliseconds. A loop that may take no round at all ends at once.
pub fn run_event_loop(max_iterations: usize, max_duration_ms: u64) -> (r: (EventLoop, LoopAction))
    ensures
        r.0.wf(),
        r.0.max_iterations == max_iterations,
        r.0.max_duration_ms == max_duration_ms,
        r.0.iterations == 0,
        if max_iterations == 0 {
            r.0.phase is Finished && finishes_with(r.1, too_many_rounds(max_iterations))
        } else {
            r.0.phase is Checkpoint && r.1 is Checkpoint
        },
        r.0.steps_left() == 6 * max_iterations,
        max_iterations > 0 ==> forall|answer: LoopEvent|
            answer is Promise ==> #[trigger] r.0.awaits(answer),
        max_iterations == 0 ==> (r.1 matches LoopAction::Finish { result: Err(e) } && e@
            == "Event loop exceeded max iterations ("@ + text::numeral(0) + ")"@),
{
    let mut l = EventLoop {
        max_iterations,
        iterations: 0,
        max_duration_ms,
        phase: LoopPhase::Finished,
    };
    if max_iterations == 0 {
        let a = l.exceeded();
        (l, a)
    } else {
        l.phase = LoopPhase::Checkpoint;
        (l, LoopAction::Checkpoint)
    }
}

// ---- what every run of the loop keeps ----

/// The timers that fire in a round: those that are due at the first look at
/// the clock, or, if none is, those that are due after the sleep.
pub open spec fn fired(timers: Seq<PendingOp>, first: u64, second: u64) -> Seq<PendingOp> {
    if timers.filter(due(first)).len() > 0 {
        timers.filter(due(first))
    } else {
        timers.filter(due(second))
    }
}

/// The timers that a round queues again.
pub open spec fn requeued(timers: Seq<PendingOp>, first: u64, second: u64) -> Seq<PendingOp> {
    if timers.filter(due(first)).len() > 0 {
        timers.filter(waiting(first))
    } else {
        timers.filter(waiting(second))
    }
}

/// Picks the timers that were cleared.
pub open spec fn cleared_timers(cancelled: Set<u32>) -> spec_fn(PendingOp) -> bool {
    |op: PendingOp| op is Timer && cancelled.contains(op->id)
}

proof fn lemma_filter_three_ways<A>(
    s: Seq<A>,
    f: spec_fn(A) -> bool,
    g: spec_fn(A) -> bool,
    h: spec_fn(A) -> bool,
)
    requires
        forall|i: int|
            0 <= i < s.len() ==> {
                ||| f(#[trigger] s[i]) && !g(s[i]) && !h(s[i])
                ||| !f(s[i]) && g(s[i]) && !h(s[i])
                ||| !f(s[i]) && !g(s[i]) && h(s[i])
            },
    ensures
        s.to_multiset() == s.filter(f).to_multiset().add(s.filter(g).to_multiset()).add(
            s.filter(h).to_multiset(),
        ),
    decreases s.len(),
{
    broadcast use vstd::seq_lib::group_to_multiset_ensures;

    reveal(Seq::filter);
    if s.len() == 0 {
        assert(s.to_multiset() =~= s.filter(f).to_multiset().add(s.filter(g).to_multiset()).add(
            s.filter(h).to_multiset(),
        ));
    } else {
        let t = s.drop_last();
        let x = s.last();
        assert(s =~= t.push(x));
        assert(forall|i: int| 0 <= i < t.len() ==> #[trigger] t[i] == s[i]);
        assert(s[s.len() - 1] == x);
        lemma_filter_three_ways(t, f, g, h);
        assert(s.to_multiset() =~= s.filter(f).to_multiset().add(s.filter(g).to_multiset()).add(
            s.filter(h).to_multiset(),
        ));
    }
}

/// No operation is lost and none is made up: what was pending at the start of a
/// round is fetched, fired, queued again, or a timer that was cleared, and each
/// operation is one of these once.
pub proof fn law_operations_are_conserved(
    ops: Seq<PendingOp>,
    cancelled: Set<u32>,
    first: u64,
    second: u64,
)
    ensures
        ({
            let timers = ops.filter(live_timers(cancelled));
            ops.to_multiset() == ops.filter(fetches()).to_multiset().add(
                fired(timers, first, second).to_multiset(),
            ).add(requeued(timers, first, second).to_multiset()).add(
                ops.filter(cleared_timers(cancelled)).to_multiset(),
            )
        }),
{
    broadcast use vstd::seq_lib::group_filter_ensures;

    let timers = ops.filter(live_timers(cancelled));
    let none = |op: PendingOp| false;
    lemma_filter_three_ways(
        ops,
        fetches(),
        live_timers(cancelled),
        cleared_timers(cancelled),
    );
    let now = if timers.filter(due(first)).len() > 0 {
        first
    } else {
        second
    };
    assert(forall|i: int| 0 <= i < timers.len() ==> (#[trigger] timers[i]) is Timer);
    lemma_filter_three_ways(timers, due(now), waiting(now), none);
    assert(timers.filter(none).len() == 0) by {
        if timers.filter(none).len() > 0 {
            assert(none(timers.filter(none)[0]));
        }
    }
    assert(timers.filter(none) =~= Seq::empty());
    assert(ops.to_multiset() =~= ops.filter(fetches()).to_multiset().add(
        fired(timers, first, second).to_multiset(),
    ).add(requeued(timers, first, second).to_multiset()).add(
        ops.filter(cleared_timers(cancelled)).to_multiset(),
    )) by {
        broadcast use vstd::seq_lib::group_to_multiset_ensures;

    }
}

/// A round of the loop with timers in it, from the checkpoint to the settling,
/// asks for exactly the pending fetches, fires exactly the timers that
/// [`fired`] names and leaves exactly those pending that [`requeued`] names;
/// with the timers that were cleared, that is everything that was pending.
/// `middle` is where the clock has been read once, `end` where the settling
/// starts: the same place, unless the loop had to sleep.
pub proof fn law_a_round_drives_every_operation(
    start: EventLoop,
    fetching: EventLoop,
    timing: EventLoop,
    middle: EventLoop,
    end: EventLoop,
    ops: Seq<OpState>,
    actions: Seq<LoopAction>,
    checked: LoopEvent,
    answered: LoopEvent,
    first: u64,
    second: u64,
)
    requires
        ops.len() == 5,
        actions.len() == 4,
        start.phase is Checkpoint,
        start.steps(ops[0], checked, fetching, ops[1], actions[0]),
        actions[0] is Fetch,
        fetching.awaits(answered),
        fetching.steps(ops[1], answered, timing, ops[2], actions[1]),
        actions[1] is ReadClock,
        timing.steps(ops[2], LoopEvent::Clock { now: first }, middle, ops[3], actions[2]),
        if actions[2] is Settle {
            end == middle && ops[4] == ops[3] && actions[3] == actions[2]
        } else {
            middle.steps(ops[3], LoopEvent::Clock { now: second }, end, ops[4], actions[3])
        },
    ensures
        ({
            let pending = ops[0].pending_ops@;
            let cancelled = ops[0].cancelled_timers@;
            let timers = pending.filter(live_timers(cancelled));
            &&& actions[0]->ops@ == pending.filter(fetches())
            &&& actions[3] is Settle
            &&& actions[3]->callbacks@ == callbacks(fired(timers, first, second))
            &&& actions[3]->fetched@.len() == pending.filter(fetches()).len()
            &&& ops[4].pending_ops@ == requeued(timers, first, second)
            &&& same_but_pending(ops[4], ops[0])
            &&& pending.to_multiset() == actions[0]->ops@.to_multiset().add(
                fired(timers, first, second).to_multiset(),
            ).add(ops[4].pending_ops@.to_multiset()).add(
                pending.filter(cleared_timers(cancelled)).to_multiset(),
            )
        }),
        ({
            let pending = ops[0].pending_ops@;
            let asked = pending.filter(|op: PendingOp| op is Fetch);
            let timers = pending.filter(
                |op: PendingOp| op is Timer && !ops[0].cancelled_timers@.contains(op->id),
            );
            let early = timers.filter(|op: PendingOp| op->deadline <= first);
            let now = if early.len() > 0 {
                first
            } else {
                second
            };
            let ready = timers.filter(|op: PendingOp| op->deadline <= now);
            &&& actions[0]->ops@ == asked
            &&& answered->outcomes@.len() == asked.len()
            &&& actions[3]->fetched@.len() == asked.len()
            &&& forall|i: int|
                0 <= i < asked.len() ==> {
                    &&& (#[trigger] actions[3]->fetched@[i]).resolver == asked[i]->resolver
                    &&& actions[3]->fetched@[i].outcome == answered->outcomes@[i]
                }
            &&& actions[3]->callbacks@.len() == ready.len()
            &&& forall|i: int|
                0 <= i < ready.len() ==> #[trigger] actions[3]->callbacks@[i] == ready[i]->callback
            &&& ops[4].pending_ops@ == timers.filter(|op: PendingOp| op->deadline > now)
            &&& actions[2] is Settle <==> early.len() > 0
        }),
{
    broadcast use vstd::seq_lib::group_filter_ensures;

    let pending = ops[0].pending_ops@;
    let cancelled = ops[0].cancelled_timers@;
    law_operations_are_conserved(pending, cancelled, first, second);
    let timers = pending.filter(live_timers(cancelled));
    assert(fetches() =~= |op: PendingOp| op is Fetch);
    assert(live_timers(cancelled) =~= |op: PendingOp|
        op is Timer && !ops[0].cancelled_timers@.contains(op->id));
    assert(all_timers(timers));
    assert forall|now: u64| #[trigger] timers.filter(due(now)) == timers.filter(
        |op: PendingOp| op->deadline <= now,
    ) by {
        lemma_same_filter(timers, due(now), |op: PendingOp| op->deadline <= now);
    }
    assert forall|now: u64| #[trigger] timers.filter(waiting(now)) == timers.filter(
        |op: PendingOp| op->deadline > now,
    ) by {
        lemma_same_filter(timers, waiting(now), |op: PendingOp| op->deadline > now);
    }
    assert(timing.phase->Timing_timers@ == timers);
    assert(Seq::<PendingOp>::empty() + requeued(timers, first, second) =~= requeued(
        timers,
        first,
        second,
    ));
    assert(ops[2].pending_ops@ =~= Seq::<PendingOp>::empty());
}

/// Predicates that agree on a sequence pick the same of it.
proof fn lemma_same_filter<A>(s: Seq<A>, f: spec_fn(A) -> bool, g: spec_fn(A) -> bool)
    requires
        forall|i: int| 0 <= i < s.len() ==> f(#[trigger] s[i]) == g(s[i]),
    ensures
        s.filter(f) == s.filter(g),
    decreases s.len(),
{
    reveal(Seq::filter);
    if s.len() > 0 {
        let t = s.drop_last();
        assert(forall|i: int| 0 <= i < t.len() ==> #[trigger] t[i] == s[i]);
        assert(f(s[s.len() - 1]) == g(s[s.len() - 1]));
        lemma_same_filter(t, f, g);
    }
}

/// A round without timers asks for exactly the pending fetches and settles each
/// of them with what came of it, whatever that is, and nothing stays pending.
pub proof fn law_a_round_settles_every_fetch(
    start: EventLoop,
    fetching: EventLoop,
    end: EventLoop,
    ops: Seq<OpState>,
    checked: LoopEvent,
    asking: LoopAction,
    answered: LoopEvent,
    settling: LoopAction,
)
    requires
        ops.len() == 3,
        start.phase is Checkpoint,
        start.steps(ops[0], checked, fetching, ops[1], asking),
        asking is Fetch,
        fetching.awaits(answered),
        fetching.steps(ops[1], answered, end, ops[2], settling),
        ops[0].pending_ops@.filter(
            |op: PendingOp| op is Timer && !ops[0].cancelled_timers@.contains(op->id),
        ).len() == 0,
    ensures
        ({
            let asked = ops[0].pending_ops@.filter(|op: PendingOp| op is Fetch);
            &&& asking->ops@ == asked
            &&& answered->outcomes@.len() == asked.len()
            &&& settling is Settle
            &&& settling->fetched@.len() == asked.len()
            &&& forall|i: int|
                0 <= i < asked.len() ==> {
                    &&& (#[trigger] settling->fetched@[i]).resolver == asked[i]->resolver
                    &&& settling->fetched@[i].outcome == answered->outcomes@[i]
                }
            &&& settling->callbacks@.len() == 0
            &&& ops[2].pending_ops@.len() == 0
        }),
{
    assert(fetches() =~= |op: PendingOp| op is Fetch);
    assert(live_timers(ops[0].cancelled_timers@) =~= |op: PendingOp|
        op is Timer && !ops[0].cancelled_timers@.contains(op->id));
}

/// A loop ends well exactly when the promise has settled. It fails for one of
/// three reasons, which the error names: the time is used up, nothing is left to
/// wait for, or there were too many rounds. Otherwise it goes on: with the
/// pending operations, or with another look at the promise if there are none.
pub proof fn law_a_loop_ends_for_a_reason(
    l: EventLoop,
    ops: OpState,
    event: LoopEvent,
    next: EventLoop,
    ops2: OpState,
    action: LoopAction,
)
    requires
        l.wf(),
        l.awaits(event),
        l.steps(ops, event, next, ops2, action),
    ensures
        action matches LoopAction::Finish { result: Ok(_) } <==> event is Promise && event->state
            != PromiseState::Pending,
        event is Promise && event->state == PromiseState::Pending && l.phase is Checkpoint ==> {
            let late = event->Promise_now >= l.max_duration_ms * 1_000_000
                || event->Promise_now == u64::MAX;
            &&& late ==> (action matches LoopAction::Finish { result: Err(e) } && e@
                == "Event loop exceeded max duration ("@ + text::numeral(l.max_duration_ms as nat)
                + " ms)"@)
            &&& !late && ops.pending_ops@.len() > 0 ==> action is Fetch
            &&& !late && ops.pending_ops@.len() == 0 ==> action is Checkpoint && next.phase
                is Recheck
        },
        event is Promise && event->state == PromiseState::Pending && l.phase is Recheck ==> (action matches LoopAction::Finish { result: Err(e) } && e@
            == "Event loop stalled: promise pending with no ops"@),
        event is Settled ==> next.iterations == l.iterations + 1,
        event is Settled && l.iterations + 1 < l.max_iterations ==> action is Checkpoint && next.phase
            is Checkpoint,
        event is Settled && l.iterations + 1 == l.max_iterations ==> (
        action matches LoopAction::Finish { result: Err(e) } && e@
            == "Event loop exceeded max iterations ("@ + text::numeral(l.max_iterations as nat) + ")"@),
        event is Fetched || event is Clock ==> !(action is Finish),
        event is Fetched && l.phase->Fetching_timers@.len() > 0 ==> action is ReadClock,
        event is Fetched && l.phase->Fetching_timers@.len() == 0 ==> action is Settle,
        event is Clock && l.phase is Sleeping ==> action is Settle,
        next.max_iterations == l.max_iterations && next.max_duration_ms == l.max_duration_ms,
        !(event is Settled) ==> next.iterations == l.iterations,
{
}

/// Whatever comes of what a loop has asked for is an answer to it, and nothing
/// of what the script has asked for and printed changes meanwhile, but for the
/// operations that a round takes and those that it puts back.
pub proof fn law_a_loop_takes_every_answer(
    l: EventLoop,
    ops: OpState,
    event: LoopEvent,
    next: EventLoop,
    ops2: OpState,
    action: LoopAction,
    answer: LoopEvent,
)
    requires
        l.awaits(event),
        l.steps(ops, event, next, ops2, action),
    ensures
        action is Checkpoint && answer is Promise ==> next.awaits(answer),
        action is Fetch && answer is Fetched && answer->outcomes@.len() == action->ops@.len()
            ==> next.awaits(answer),
        (action is ReadClock || action is SleepUntil) && answer is Clock ==> next.awaits(answer),
        action is Settle && answer is Settled ==> next.awaits(answer),
        ops2.console_output == ops.console_output,
        ops2.next_timer_id == ops.next_timer_id,
        ops2.cancelled_timers == ops.cancelled_timers,
        ops2.fetch_count == ops.fetch_count,
        action is Fetch ==> ops2.pending_ops@.len() == 0,
        !(action is Fetch || event is Clock) ==> ops2.pending_ops == ops.pending_ops,
        event is Clock ==> ops.pending_ops@.is_prefix_of(ops2.pending_ops@),
{
    if event is Clock {
        assert(ops.pending_ops@.is_prefix_of(ops2.pending_ops@)) by {
            assert(ops2.pending_ops@.take(ops.pending_ops@.len() as int) =~= ops.pending_ops@);
        }
    }
}

/// A loop sleeps only if none of its timers is due, and then up to the first of
/// their deadlines, or up to the end of the time that the run may take if that
/// comes first.
pub proof fn law_a_loop_sleeps_until_a_timer_is_due(
    l: EventLoop,
    ops: OpState,
    now: u64,
    next: EventLoop,
    ops2: OpState,
    action: LoopAction,
)
    requires
        l.wf(),
        l.phase is Timing,
        l.steps(ops, LoopEvent::Clock { now }, next, ops2, action),
    ensures
        ({
            let timers = l.phase->Timing_timers@;
            let none_due = forall|i: int|
                0 <= i < timers.len() ==> (#[trigger] timers[i])->deadline > now;
            &&& none_due <==> action is SleepUntil
            &&& !none_due <==> action is Settle
            &&& action matches LoopAction::SleepUntil { deadline } ==> {
                let limit = l.max_duration_ms * 1_000_000;
                &&& forall|i: int|
                    0 <= i < timers.len() ==> deadline <= (#[trigger] timers[i])->deadline
                &&& deadline <= limit
                &&& deadline < u64::MAX && deadline < limit ==> exists|i: int|
                    0 <= i < timers.len() && (#[trigger] timers[i])->deadline == deadline
            }
        }),
{
    broadcast use vstd::seq_lib::group_filter_ensures;

    let timers = l.phase->Timing_timers@;
    if timers.filter(due(now)).len() == 0 {
        assert forall|i: int| 0 <= i < timers.len() implies (#[trigger] timers[i])->deadline > now by {
            if timers[i]->deadline <= now {
                timers.lemma_filter_contains(due(now), i);
            }
        }
    } else {
        lemma_filter_member(timers, due(now), 0);
    }
}

/// A timer fires only after its deadline, at the latest look at the clock, and
/// only if it was not cleared before the round. A timer that is queued again
/// has its deadline ahead.
pub proof fn law_timers_fire_in_time(
    ops: Seq<PendingOp>,
    cancelled: Set<u32>,
    first: u64,
    second: u64,
)
    requires
        first <= second,
    ensures
        ({
            let timers = ops.filter(live_timers(cancelled));
            &&& forall|i: int|
                0 <= i < fired(timers, first, second).len() ==> {
                    let op = #[trigger] fired(timers, first, second)[i];
                    op is Timer && op->deadline <= second && !cancelled.contains(op->id)
                }
            &&& forall|i: int|
                0 <= i < requeued(timers, first, second).len() ==> {
                    let op = #[trigger] requeued(timers, first, second)[i];
                    op is Timer && op->deadline > first && !cancelled.contains(op->id)
                }
        }),
{
    broadcast use vstd::seq_lib::group_filter_ensures;

    let timers = ops.filter(live_timers(cancelled));
    let now = if timers.filter(due(first)).len() > 0 {
        first
    } else {
        second
    };
    assert forall|i: int| 0 <= i < fired(timers, first, second).len() implies {
        let op = #[trigger] fired(timers, first, second)[i];
        op is Timer && op->deadline <= second && !cancelled.contains(op->id)
    } by {
        lemma_filter_member(timers, due(now), i);
    }
    assert forall|i: int| 0 <= i < requeued(timers, first, second).len() implies {
        let op = #[trigger] requeued(timers, first, second)[i];
        op is Timer && op->deadline > first && !cancelled.contains(op->id)
    } by {
        lemma_filter_member(timers, waiting(now), i);
    }
}

proof fn lemma_filter_member<A>(s: Seq<A>, f: spec_fn(A) -> bool, i: int)
    requires
        0 <= i < s.filter(f).len(),
    ensures
        f(s.filter(f)[i]),
        exists|j: int| 0 <= j < s.len() && #[trigger] s[j] == s.filter(f)[i],
    decreases s.len(),
{
    reveal(Seq::filter);
    let t = s.drop_last();
    if i < t.filter(f).len() {
        lemma_filter_member(t, f, i);
        let j = choose|j: int| 0 <= j < t.len() && #[trigger] t[j] == t.filter(f)[i];
        assert(s[j] == s.filter(f)[i]);
    } else {
        assert(s[s.len() - 1] == s.filter(f)[i]);
    }
}

/// A loop that has slept until the earliest deadline makes progress: at least
/// one timer fires in that round.
pub proof fn law_a_sleep_ends_with_a_timer(timers: Seq<PendingOp>, earliest: u128, woken: u64)
    requires
        all_timers(timers),
        is_earliest(timers, earliest),
        earliest <= woken,
    ensures
        timers.filter(due(woken)).len() > 0,
{
    let i = choose|i: int| 0 <= i < timers.len() && (#[trigger] timers[i])->deadline == earliest;
    assert(timers[i] is Timer);
    timers.lemma_filter_contains(due(woken), i);
}

/// Whether the timers among `ops` can be told apart by their numbers, all of
/// which are below `next_id`.
pub open spec fn numbered(ops: Seq<PendingOp>, next_id: u32) -> bool {
    &&& 1 <= next_id
    &&& forall|i: int|
        0 <= i < ops.len() && (#[trigger] ops[i]) is Timer ==> 1 <= ops[i]->id < next_id
    &&& forall|i: int, j: int|
        0 <= i < j < ops.len() && (#[trigger] ops[i]) is Timer && (#[trigger] ops[j]) is Timer
            ==> ops[i]->id != ops[j]->id
}

/// The timers that the loop holds between two steps.
pub open spec fn held_timers(l: EventLoop) -> Seq<PendingOp> {
    match l.phase {
        LoopPhase::Fetching { timers, .. } => timers@,
        LoopPhase::Timing { timers, .. } => timers@,
        LoopPhase::Sleeping { timers, .. } => timers@,
        _ => Seq::empty(),
    }
}

/// A step of the loop keeps all timers apart, those that are pending and those
/// that the loop holds.
pub proof fn law_timer_numbers_stay_apart(
    l: EventLoop,
    ops: OpState,
    event: LoopEvent,
    next: EventLoop,
    ops2: OpState,
    action: LoopAction,
)
    requires
        l.awaits(event),
        l.steps(ops, event, next, ops2, action),
        numbered(ops.pending_ops@ + held_timers(l), ops.next_timer_id),
    ensures
        numbered(ops2.pending_ops@ + held_timers(next), ops2.next_timer_id),
{
    let pending = ops.pending_ops@;
    let held = held_timers(l);
    let none = Seq::<PendingOp>::empty();
    match event {
        LoopEvent::Promise { .. } => {
            assert(pending + none =~= pending);
            assert(none + pending =~= pending);
            assert(ops2.pending_ops@.len() == 0 ==> ops2.pending_ops@ =~= none);
            lemma_numbered_filter(none, pending, live_timers(ops.cancelled_timers@), ops.next_timer_id);
        },
        LoopEvent::Clock { now } => {
            lemma_numbered_filter(pending, held, waiting(now), ops.next_timer_id);
            assert(ops2.pending_ops@ + none =~= ops2.pending_ops@);
        },
        _ => {
            if held_timers(next) != held {
                assert(held_timers(next) =~= none);
                assert(forall|i: int|
                    0 <= i < pending.len() ==> #[trigger] (pending + held)[i] == (pending + none)[i]);
            }
        },
    }
}

proof fn lemma_numbered_filter(
    front: Seq<PendingOp>,
    s: Seq<PendingOp>,
    f: spec_fn(PendingOp) -> bool,
    next_id: u32,
)
    requires
        numbered(front + s, next_id),
    ensures
        numbered(front + s.filter(f), next_id),
    decreases s.len(),
{
    reveal(Seq::filter);
    if s.len() == 0 {
        assert(front + s.filter(f) =~= front + s);
    } else {
        let t = s.drop_last();
        let x = s.last();
        let all = front + s;
        assert((front + t) =~= all.drop_last());
        lemma_numbered_filter(front, t, f, next_id);
        if f(x) {
            let kept = front + t.filter(f);
            assert(front + s.filter(f) =~= kept.push(x));
            assert forall|i: int| #![trigger kept[i]] 0 <= i < kept.len() implies exists|j: int|
                0 <= j < all.len() - 1 && #[trigger] all[j] == kept[i] by {
                if i < front.len() {
                    assert(all[i] == kept[i]);
                } else {
                    lemma_filter_member(t, f, i - front.len());
                    let j = choose|j: int|
                        0 <= j < t.len() && #[trigger] t[j] == t.filter(f)[i - front.len()];
                    assert(all[front.len() + j] == kept[i]);
                }
            }
            assert(all[all.len() - 1] == x);
        }
    }
}

} // verus!
