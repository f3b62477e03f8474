//! The native functions that a script finds on its global object.
//!
//! They do not wait for anything: what takes time is queued in the
//! [`OpState`] of the run, and the event loop drives it.

use vstd::prelude::*;
use vstd::utf8::*;

use crate::encoding::{decode_text, encode_text};
use crate::event_loop;
use crate::event_loop::{OpState, PendingOp};

verus! {

broadcast use vstd::std_specs::hash::group_hash_axioms;

/// The native functions.
#[derive(Clone, Copy, PartialEq, Eq, Structural, Debug)]
pub enum Native {
    Fetch,
    ConsoleLog,
    SetTimeout,
    ClearTimeout,
    EncodeUtf8,
    DecodeUtf8,
}

/// The global name of a native function.
pub open spec fn native_name(f: Native) -> Seq<char> {
    match f {
        Native::Fetch => "__native_fetch"@,
        Native::ConsoleLog => "__native_console_log"@,
        Native::SetTimeout => "__native_set_timeout"@,
        Native::ClearTimeout => "__native_clear_timeout"@,
        Native::EncodeUtf8 => "__native_encode_utf8"@,
        Native::DecodeUtf8 => "__native_decode_utf8"@,
    }
}

/// The native functions in the order in which they are installed.
pub open spec fn natives() -> Seq<Native> {
    seq![
        Native::Fetch,
        Native::ConsoleLog,
        Native::SetTimeout,
        Native::ClearTimeout,
        Native::EncodeUtf8,
        Native::DecodeUtf8,
    ]
}

/// Whether `list` holds every native function under its name, in order.
pub open spec fn is_install_list(list: Seq<(&'static str, Native)>) -> bool {
    &&& list.len() == natives().len()
    &&& forall|i: int|
        0 <= i < list.len() ==> (#[trigger] list[i]).1 == natives()[i] && list[i].0@ == native_name(
            natives()[i],
        )
}

/// The names to install on the global object, and what each stands for.
pub fn install_bindings() -> (r: Vec<(&'static str, Native)>)
    ensures
        is_install_list(r@),
        r@.len() == 6,
        r@[0].0@ == "__native_fetch"@ && r@[0].1 is Fetch,
        r@[1].0@ == "__native_console_log"@ && r@[1].1 is ConsoleLog,
        r@[2].0@ == "__native_set_timeout"@ && r@[2].1 is SetTimeout,
        r@[3].0@ == "__native_clear_timeout"@ && r@[3].1 is ClearTimeout,
        r@[4].0@ == "__native_encode_utf8"@ && r@[4].1 is EncodeUtf8,
        r@[5].0@ == "__native_decode_utf8"@ && r@[5].1 is DecodeUtf8,
{
    let mut r: Vec<(&'static str, Native)> = Vec::new();
    r.push(("__native_fetch", Native::Fetch));
    r.push(("__native_console_log", Native::ConsoleLog));
    r.push(("__native_set_timeout", Native::SetTimeout));
    r.push(("__native_clear_timeout", Native::ClearTimeout));
    r.push(("__native_encode_utf8", Native::EncodeUtf8));
    r.push(("__native_decode_utf8", Native::DecodeUtf8));
    r
}

// ---- fetch ----

/// The list of pairs of strings that a JSON text denotes, if it denotes one.
pub uninterp spec fn json_pairs(json: Seq<char>) -> Option<Seq<(Seq<char>, Seq<char>)>>;

/// `serde_json::from_str` for a list of pairs of strings. That a text is such a
/// list, and which, is left to the name.
#[verifier::external_body]
fn pairs_from_json(json: &str) -> (r: Option<Vec<(String, String)>>)
    ensures
        r.deep_view() == json_pairs(json@),
{
    serde_json::from_str::<Vec<(String, String)>>(json).ok()
}

/// Nothing but the pending operations and the number of fetches has changed.
pub open spec fn fetch_queued(before: OpState, after: OpState, op: PendingOp) -> bool {
    &&& after.pending_ops@ == before.pending_ops@.push(op)
    &&& after.fetch_count == if before.fetch_count < usize::MAX {
        before.fetch_count + 1
    } else {
        before.fetch_count as int
    }
    &&& after.console_output == before.console_output
    &&& after.next_timer_id == before.next_timer_id
    &&& after.cancelled_timers == before.cancelled_timers
}

/// Queues a fetch whose headers were parsed, or could not be.
pub fn queue_fetch(
    ops: &mut OpState,
    url: String,
    method: String,
    headers: Option<Vec<(String, String)>>,
    body: Option<String>,
    resolver: u64,
)
    ensures
        exists|op: PendingOp| #[trigger]
            fetch_queued(*old(ops), *final(ops), op) && op is Fetch && op->url == url && op->method
                == method && op->body == body && op->resolver == resolver && op->headers@ == (
            match headers {
                Some(h) => h@,
                None => Seq::empty(),
            }),
        final(ops).pending_ops@.len() == old(ops).pending_ops@.len() + 1,
        final(ops).pending_ops@.drop_last() == old(ops).pending_ops@,
        final(ops).pending_ops@.last() is Fetch,
        final(ops).pending_ops@.last()->url@ == url@,
        final(ops).pending_ops@.last()->method@ == method@,
        final(ops).pending_ops@.last()->headers@ == match headers {
            Some(h) => h@,
            None => Seq::empty(),
        },
        final(ops).pending_ops@.last()->body == body,
        final(ops).pending_ops@.last()->resolver == resolver,
        old(ops).fetch_count < usize::MAX ==> final(ops).fetch_count == old(ops).fetch_count + 1,
{
    let headers = match headers {
        Some(h) => h,
        None => Vec::new(),
    };
    let op = PendingOp::Fetch { url, method, headers, body, resolver };
    let ghost queued = op;
    ops.pending_ops.push(op);
    if ops.fetch_count < usize::MAX {
        ops.fetch_count = ops.fetch_count + 1;
    }
    assert(fetch_queued(*old(ops), *ops, queued));
}

/// `__native_fetch(url, method, headersJson, body)`: queues a fetch for the
/// promise behind `resolver`. Headers that are not a JSON list of pairs of
/// strings count as none.
pub fn native_fetch(
    ops: &mut OpState,
    url: String,
    method: String,
    headers_json: &str,
    body: Option<String>,
    resolver: u64,
)
    ensures
        exists|op: PendingOp| #[trigger]
            fetch_queued(*old(ops), *final(ops), op) && op is Fetch && op->url == url && op->method
                == method && op->body == body && op->resolver == resolver && op->headers.deep_view()
                == (match json_pairs(headers_json@) {
                Some(pairs) => pairs,
                None => Seq::empty(),
            }),
        final(ops).pending_ops@.len() == old(ops).pending_ops@.len() + 1,
        final(ops).pending_ops@.drop_last() == old(ops).pending_ops@,
        final(ops).pending_ops@.last() is Fetch,
        final(ops).pending_ops@.last()->url@ == url@,
        final(ops).pending_ops@.last()->method@ == method@,
        final(ops).pending_ops@.last()->headers.deep_view() == match json_pairs(headers_json@) {
            Some(pairs) => pairs,
            None => Seq::empty(),
        },
        final(ops).pending_ops@.last()->body == body,
        final(ops).pending_ops@.last()->resolver == resolver,
        old(ops).fetch_count < usize::MAX ==> final(ops).fetch_count == old(ops).fetch_count + 1,
{
    let headers = pairs_from_json(headers_json);
    let ghost h = headers;
    queue_fetch(ops, url, method, headers, body, resolver);
    proof {
        let op = choose|op: PendingOp| #[trigger]
            fetch_queued(*old(ops), *ops, op) && op is Fetch && op->url == url && op->method
                == method && op->body == body && op->resolver == resolver && op->headers@ == (
            match h {
                Some(h) => h@,
                None => Seq::empty(),
            });
        assert(op->headers.deep_view() =~= (match json_pairs(headers_json@) {
            Some(pairs) => pairs,
            None => Seq::empty(),
        }));
    }
}

// ---- console ----

/// `__native_console_log(level, message)`: records a line of console output.
pub fn native_console_log(ops: &mut OpState, level: String, message: String)
    ensures
        final(ops).console_output@ == old(ops).console_output@.push((level, message)),
        final(ops).pending_ops == old(ops).pending_ops,
        final(ops).next_timer_id == old(ops).next_timer_id,
        final(ops).cancelled_timers == old(ops).cancelled_timers,
        final(ops).fetch_count == old(ops).fetch_count,
{
    ops.console_output.push((level, message));
}

// ---- timers ----

/// When a timer of `delay_ms` milliseconds that is set at `now` is due.
pub open spec fn deadline_of(now: u64, delay_ms: u32) -> u128 {
    (now + delay_ms * 1_000_000) as u128
}

/// A timer with the next number is pending behind everything else; nothing but
/// the pending operations and the next number has changed.
pub open spec fn timer_set(
    before: OpState,
    after: OpState,
    id: u32,
    deadline: u128,
    callback: u64,
) -> bool {
    &&& id == before.next_timer_id
    &&& after.next_timer_id == before.next_timer_id + 1
    &&& after.pending_ops@ == before.pending_ops@.push(
        PendingOp::Timer { id, deadline, callback },
    )
    &&& after.console_output == before.console_output
    &&& after.cancelled_timers == before.cancelled_timers
    &&& after.fetch_count == before.fetch_count
}

/// `__native_set_timeout(callback, delay_ms)`: queues a timer and returns its
/// number. `callback` is `None` if the first argument is not a function, which
/// is an error; a delay that is not a number counts as none.
pub fn native_set_timeout(
    ops: &mut OpState,
    callback: Option<u64>,
    delay_ms: Option<u32>,
    now: u64,
) -> (r: Result<u32, String>)
    requires
        callback is Some ==> old(ops).next_timer_id < u32::MAX,
    ensures
        match callback {
            None => *final(ops) == *old(ops) && (r matches Err(e) && e@
                == "setTimeout: first argument must be a function"@),
            Some(f) => {
                &&& r == Ok::<u32, String>(old(ops).next_timer_id)
                &&& timer_set(
                    *old(ops),
                    *final(ops),
                    old(ops).next_timer_id,
                    deadline_of(now, delay_ms.unwrap_or(0)),
                    f,
                )
                &&& final(ops).pending_ops@.last() is Timer
                &&& final(ops).pending_ops@.last()->callback == f
                &&& final(ops).pending_ops@.last()->id == old(ops).next_timer_id
                &&& final(ops).pending_ops@.last()->deadline - now == 1_000_000 * match delay_ms {
                    Some(ms) => ms,
                    None => 0,
                }
            },
        },
{
    match callback {
        None => Err("setTimeout: first argument must be a function".to_string()),
        Some(f) => {
            let id = ops.next_timer_id;
            ops.next_timer_id = id + 1;
            let delay: u32 = delay_ms.unwrap_or(0);
            let deadline: u128 = now as u128 + delay as u128 * 1_000_000;
            ops.pending_ops.push(PendingOp::Timer { id, deadline, callback: f });
            Ok(id)
        },
    }
}

/// `__native_clear_timeout(timer_id)`: the timer will not fire. An argument
/// that is not a number stands for timer 0, which is never set.
pub fn native_clear_timeout(ops: &mut OpState, timer_id: Option<u32>)
    ensures
        final(ops).cancelled_timers@ == old(ops).cancelled_timers@.insert(timer_id.unwrap_or(0)),
        final(ops).pending_ops == old(ops).pending_ops,
        final(ops).console_output == old(ops).console_output,
        final(ops).next_timer_id == old(ops).next_timer_id,
        final(ops).fetch_count == old(ops).fetch_count,
{
    ops.cancelled_timers.insert(timer_id.unwrap_or(0));
}

// ---- encoding ----

/// `__native_encode_utf8(string)`: the bytes of a text.
pub fn native_encode_utf8(input: &str) -> (bytes: Vec<u8>)
    ensures
        bytes@ == encode_utf8(input@),
{
    encode_text(input)
}

/// `__native_decode_utf8(view)`: the text of the bytes in a buffer view. `view`
/// is `None` if the argument is none.
pub fn native_decode_utf8(view: Option<Vec<u8>>) -> (r: Result<String, String>)
    ensures
        match view {
            None => r matches Err(e) && e@ == "decode_utf8: expected ArrayBufferView"@,
            Some(bytes) => if valid_utf8(bytes@) {
                r matches Ok(s) && s@ == decode_utf8(bytes@)
            } else {
                r matches Err(e) && e@ == "decode_utf8: invalid UTF-8"@
            },
        },
{
    match view {
        None => Err("decode_utf8: expected ArrayBufferView".to_string()),
        Some(bytes) => match decode_text(bytes) {
            Ok(s) => Ok(s),
            Err(_) => Err("decode_utf8: invalid UTF-8".to_string()),
        },
    }
}

// ---- laws ----

/// Every native function is installed, each once and under the name by which the
/// scripts call it.
pub proof fn law_every_native_is_installed(list: Seq<(&'static str, Native)>, f: Native)
    requires
        is_install_list(list),
    ensures
        ({
            let name = match f {
                Native::Fetch => "__native_fetch"@,
                Native::ConsoleLog => "__native_console_log"@,
                Native::SetTimeout => "__native_set_timeout"@,
                Native::ClearTimeout => "__native_clear_timeout"@,
                Native::EncodeUtf8 => "__native_encode_utf8"@,
                Native::DecodeUtf8 => "__native_decode_utf8"@,
            };
            &&& exists|i: int| 0 <= i < list.len() && (#[trigger] list[i]).1 == f && list[i].0@ == name
            &&& forall|i: int|
                0 <= i < list.len() && (#[trigger] list[i]).1 == f ==> list[i].0@ == name
            &&& forall|i: int, j: int|
                0 <= i < j < list.len() ==> (#[trigger] list[i]).1 != (#[trigger] list[j]).1
        }),
{
    let at = match f {
        Native::Fetch => 0int,
        Native::ConsoleLog => 1,
        Native::SetTimeout => 2,
        Native::ClearTimeout => 3,
        Native::EncodeUtf8 => 4,
        Native::DecodeUtf8 => 5,
    };
    assert(list[at].1 == f);
}

/// A fetch is queued behind everything that is pending, and counted; nothing
/// else changes.
pub proof fn law_a_fetch_is_queued_last(before: OpState, after: OpState, op: PendingOp)
    requires
        fetch_queued(before, after, op),
    ensures
        after.pending_ops@.len() == before.pending_ops@.len() + 1,
        after.pending_ops@.last() == op,
        after.pending_ops@.drop_last() == before.pending_ops@,
        before.fetch_count < usize::MAX ==> after.fetch_count == before.fetch_count + 1,
        before.fetch_count == usize::MAX ==> after.fetch_count == usize::MAX,
        after.console_output@ == before.console_output@,
        after.next_timer_id == before.next_timer_id,
        after.cancelled_timers@ == before.cancelled_timers@,
{
}

/// A timer is queued behind everything that is pending, under the next number,
/// and is due its delay after the moment at which it was set, not before and not
/// later; nothing else changes.
pub proof fn law_a_timer_is_due_after_its_delay(
    before: OpState,
    after: OpState,
    id: u32,
    now: u64,
    delay_ms: u32,
    callback: u64,
)
    requires
        timer_set(before, after, id, deadline_of(now, delay_ms), callback),
    ensures
        after.pending_ops@.len() == before.pending_ops@.len() + 1,
        after.pending_ops@.drop_last() == before.pending_ops@,
        after.pending_ops@.last() is Timer,
        after.pending_ops@.last()->callback == callback,
        after.pending_ops@.last()->id == before.next_timer_id,
        id == before.next_timer_id,
        after.pending_ops@.last()->deadline - now == 1_000_000 * delay_ms,
        after.next_timer_id == before.next_timer_id + 1,
        after.console_output@ == before.console_output@,
        after.fetch_count == before.fetch_count,
        after.cancelled_timers@ == before.cancelled_timers@,
{
}

/// Setting a timer keeps all timers apart, those that are pending and those that
/// the event loop holds: the new number is none of theirs, and not 0.
pub proof fn law_timer_numbers_are_fresh(
    before: OpState,
    after: OpState,
    held: Seq<PendingOp>,
    callback: u64,
    deadline: u128,
)
    requires
        event_loop::numbered(before.pending_ops@ + held, before.next_timer_id),
        timer_set(before, after, before.next_timer_id, deadline, callback),
    ensures
        event_loop::numbered(after.pending_ops@ + held, after.next_timer_id),
        before.next_timer_id != 0,
{
    let old_ops = before.pending_ops@ + held;
    let new_ops = after.pending_ops@ + held;
    let n = before.pending_ops@.len() as int;
    let at = |i: int|
        if i < n {
            i
        } else {
            i - 1
        };
    assert(forall|i: int| 0 <= i < new_ops.len() && i != n ==> #[trigger] new_ops[i] == old_ops[at(i)]);
}

/// Whether a call has set the timer with the given number or, without one, left
/// the next number alone.
pub open spec fn may_set_timer(before: OpState, after: OpState, id: Option<u32>) -> bool {
    match id {
        Some(n) => exists|deadline: u128, callback: u64| #[trigger]
            timer_set(before, after, n, deadline, callback),
        None => after.next_timer_id == before.next_timer_id,
    }
}

/// Whether `states` follow each other by calls that have set the timers in `ids`.
pub open spec fn sets_timers(states: Seq<OpState>, ids: Seq<Option<u32>>) -> bool {
    &&& states.len() == ids.len() + 1
    &&& forall|i: int|
        0 <= i < ids.len() ==> may_set_timer(states[i], states[i + 1], #[trigger] ids[i])
}

/// How many of the calls have set a timer.
pub open spec fn timers_among(ids: Seq<Option<u32>>) -> nat
    decreases ids.len(),
{
    if ids.len() == 0 {
        0
    } else {
        timers_among(ids.drop_last()) + if ids.last() is Some {
            1nat
        } else {
            0nat
        }
    }
}

/// From a fresh state on, the timers get the numbers 1, 2, 3 and so on, whatever
/// happens between them: a number is one more than the count of the timers set
/// before. So no number comes twice, and none is 0.
pub proof fn law_timers_count_up(states: Seq<OpState>, ids: Seq<Option<u32>>)
    requires
        sets_timers(states, ids),
        states[0].next_timer_id == 1,
    ensures
        states.last().next_timer_id == 1 + timers_among(ids),
        forall|i: int|
            0 <= i < ids.len() && ids[i] is Some ==> (#[trigger] ids[i])->0 == 1 + timers_among(
                ids.take(i),
            ),
        forall|i: int, j: int|
            0 <= i < j < ids.len() && ids[i] is Some && ids[j] is Some ==> (#[trigger] ids[i])->0 < (
            #[trigger] ids[j])->0,
    decreases ids.len(),
{
    if ids.len() > 0 {
        let n = ids.len() - 1;
        let rest = ids.drop_last();
        let before = states.drop_last();
        assert forall|i: int| 0 <= i < rest.len() implies may_set_timer(
            before[i],
            before[i + 1],
            #[trigger] rest[i],
        ) by {
            assert(rest[i] == ids[i]);
        }
        law_timers_count_up(before, rest);
        assert(ids[n] == ids.last());
        assert(before.last() == states[n]);
        assert(ids.take(n) =~= rest);
        assert forall|i: int| 0 <= i < ids.len() && ids[i] is Some implies (#[trigger] ids[i])->0 == 1
            + timers_among(ids.take(i)) by {
            if i < n {
                assert(rest[i] == ids[i]);
                assert(rest.take(i) =~= ids.take(i));
            }
        }
        assert forall|i: int, j: int|
            0 <= i < j < ids.len() && ids[i] is Some && ids[j] is Some implies (#[trigger] ids[i])->0 < (
        #[trigger] ids[j])->0 by {
            assert(rest[i] == ids[i]);
            if j < n {
                assert(rest[j] == ids[j]);
            } else {
                lemma_timers_among_grow(rest, i);
                assert(rest.take(i) =~= ids.take(i));
            }
        }
    }
}

/// A timer counts in everything that comes after it.
proof fn lemma_timers_among_grow(ids: Seq<Option<u32>>, i: int)
    requires
        0 <= i < ids.len(),
        ids[i] is Some,
    ensures
        timers_among(ids.take(i)) < timers_among(ids),
    decreases ids.len(),
{
    if i == ids.len() - 1 {
        assert(ids.take(i) =~= ids.drop_last());
    } else {
        lemma_timers_among_grow(ids.drop_last(), i);
        assert(ids.drop_last().take(i) =~= ids.take(i));
    }
}

/// A timer that was cleared before a round of the event loop is not among the
/// timers that the round keeps, whatever else is pending and whatever else was
/// cleared; and no other timer is affected.
pub proof fn law_cleared_timers_do_not_fire(
    before: OpState,
    after: OpState,
    timer_id: u32,
)
    requires
        after.cancelled_timers@ == before.cancelled_timers@.insert(timer_id),
        after.pending_ops == before.pending_ops,
    ensures
        ({
            let kept = after.pending_ops@.filter(
                event_loop::live_timers(after.cancelled_timers@),
            );
            let kept_before = before.pending_ops@.filter(
                event_loop::live_timers(before.cancelled_timers@),
            );
            &&& forall|i: int| 0 <= i < kept.len() ==> (#[trigger] kept[i])->id != timer_id
            &&& kept == kept_before.filter(|op: PendingOp| op->id != timer_id)
        }),
{
    let f = event_loop::live_timers(before.cancelled_timers@);
    let g = |op: PendingOp| op->id != timer_id;
    let h = event_loop::live_timers(after.cancelled_timers@);
    lemma_filter_twice(before.pending_ops@, f, g, h);
    broadcast use vstd::seq_lib::group_filter_ensures;

}

proof fn lemma_filter_twice<A>(
    s: Seq<A>,
    f: spec_fn(A) -> bool,
    g: spec_fn(A) -> bool,
    h: spec_fn(A) -> bool,
)
    requires
        forall|x: A| #[trigger] h(x) <==> f(x) && g(x),
    ensures
        s.filter(h) == s.filter(f).filter(g),
    decreases s.len(),
{
    reveal(Seq::filter);
    if s.len() > 0 {
        lemma_filter_twice(s.drop_last(), f, g, h);
        if f(s.last()) {
            assert(s.filter(f).drop_last() =~= s.drop_last().filter(f));
        }
    }
}

} // verus!
