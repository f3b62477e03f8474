//! Reading the response object that a script's handler has returned.
//!
//! The object belongs to the script: every look at it can run code of the
//! script. The reader says what to look at next ([`ReadAction`]) and is told
//! what was there ([`ReadEvent`]): the status, then the headers one by one, then
//! the body, which `text()` gives directly or as a promise.

use vstd::prelude::*;

use crate::text::join2;

verus! {

/// Response returned from the worker's `fetch()` handler.
#[derive(Debug, Clone)]
pub struct JsResponse {
    pub status: u16,
    pub headers: Vec<(String, String)>,
    pub body: String,
}

/// What the iterator over the headers gave.
pub enum HeaderItem {
    /// Nothing that can be read: the call failed or gave no object.
    Unreadable,
    /// An object whose `done` is true.
    End,
    /// Another object. If its `value` is a list for whose length [`is_pair`]
    /// holds, the first two items as text.
    Entry { pair: Option<(String, String)> },
}

/// Whether a list of this length holds a name and a value.
pub fn is_pair(length: u32) -> (b: bool)
    ensures
        b == (length >= 2),
{
    length >= 2
}

/// What calling `text()` gave.
pub enum TextCall {
    /// There is no property `text`.
    Missing,
    /// The property is not a function.
    NotAFunction,
    /// The call failed.
    Failed,
    /// A promise.
    Promise,
    /// Any other value, as text.
    Value { text: String },
}

/// The state of the promise for the body, with the text of its result.
pub enum BodyPromise {
    Pending,
    Fulfilled { text: String },
    Rejected { reason: String },
}

/// What the reader is told.
pub enum ReadEvent {
    /// Whether the handler returned an object.
    Object { is_object: bool },
    /// The property `status` as an unsigned number, if it is one.
    Status { status: Option<u32> },
    /// Whether `headers.entries()` gave an iterator.
    Iterator { found: bool },
    /// What the iterator gave.
    Header { item: HeaderItem },
    /// What `text()` gave.
    Text { call: TextCall },
    /// The promise for the body, after a microtask checkpoint.
    Body { promise: BodyPromise },
}

/// What the reader wants done next.
pub enum ReadAction {
    /// Look whether the value is an object.
    CheckObject,
    /// Read the property `status`.
    ReadStatus,
    /// Call `headers.entries()`.
    OpenHeaders,
    /// Call `next()` on the iterator over the headers.
    NextHeader,
    /// Call `text()`.
    CallText,
    /// Drain the microtask queue and look at the promise for the body.
    Checkpoint,
    /// The response, or the reason why there is none.
    Finish { result: Result<JsResponse, String> },
}

/// Where the reader stands.
#[derive(Clone, Copy, PartialEq, Eq, Structural, Debug)]
pub enum ReadPhase {
    Object,
    Status,
    OpenHeaders,
    Headers,
    Text,
    /// Waiting for the body; the number of checkpoints so far.
    Body { checkpoints: u8 },
    Finished,
}

/// How often the microtask queue is drained for the body at most.
pub const MAX_BODY_CHECKPOINTS: u8 = 11;

/// A reader of one response.
pub struct ResponseReader {
    pub phase: ReadPhase,
    pub status: u16,
    pub headers: Vec<(String, String)>,
}

/// The status of a response: what the property holds, reduced to 16 bits, or
/// 200 if it holds no number.
pub open spec fn status_of(status: Option<u32>) -> u16 {
    match status {
        Some(n) => (n % 0x1_0000) as u16,
        None => 200,
    }
}

pub open spec fn read_fails(a: ReadAction, message: Seq<char>) -> bool {
    a matches ReadAction::Finish { result } && result matches Err(e) && e@ == message
}

pub open spec fn read_ends(a: ReadAction, reader: ResponseReader, body: Seq<char>) -> bool {
    &&& a matches ReadAction::Finish { result }
    &&& result matches Ok(response)
    &&& response.status == reader.status
    &&& response.headers@ == reader.headers@
    &&& response.body@ == body
}

impl ResponseReader {
    pub open spec fn wf(self) -> bool {
        self.phase matches ReadPhase::Body { checkpoints } ==> checkpoints < MAX_BODY_CHECKPOINTS
    }

    /// Whether `event` answers what the reader has asked for.
    pub open spec fn awaits(self, event: ReadEvent) -> bool {
        match self.phase {
            ReadPhase::Object => event is Object,
            ReadPhase::Status => event is Status,
            ReadPhase::OpenHeaders => event is Iterator,
            ReadPhase::Headers => event is Header,
            ReadPhase::Text => event is Text,
            ReadPhase::Body { .. } => event is Body,
            ReadPhase::Finished => false,
        }
    }

    /// What a look at the promise for the body means. After the first
    /// checkpoint a rejection is reported as such; after that only a body will
    /// do, and the reader gives up after the last checkpoint.
    pub open spec fn after_body(
        self,
        checkpoints: u8,
        promise: BodyPromise,
        next: Self,
        action: ReadAction,
    ) -> bool {
        match promise {
            BodyPromise::Fulfilled { text } => next.phase is Finished && read_ends(
                action,
                self,
                text@,
            ),
            BodyPromise::Rejected { reason } => next.phase is Finished && read_fails(
                action,
                if checkpoints == 0 {
                    "Response.text() rejected: "@ + reason@
                } else {
                    "Response.text() never resolved"@
                },
            ),
            BodyPromise::Pending => if checkpoints + 1 == MAX_BODY_CHECKPOINTS {
                next.phase is Finished && read_fails(action, "Response.text() never resolved"@)
            } else {
                next.phase == ReadPhase::Body { checkpoints: (checkpoints + 1) as u8 }
                    && action is Checkpoint && next.headers == self.headers
            },
        }
    }

    /// What the result of `text()` means.
    pub open spec fn after_text(self, call: TextCall, next: Self, action: ReadAction) -> bool {
        match call {
            TextCall::Missing => next.phase is Finished && read_fails(
                action,
                "Response has no text() method"@,
            ),
            TextCall::NotAFunction => next.phase is Finished && read_fails(
                action,
                "Response.text is not a function"@,
            ),
            TextCall::Failed => next.phase is Finished && read_fails(
                action,
                "Response.text() call failed"@,
            ),
            TextCall::Value { text } => next.phase is Finished && read_ends(action, self, text@),
            TextCall::Promise => next.phase == ReadPhase::Body { checkpoints: 0 } && action is Checkpoint
                && next.headers == self.headers,
        }
    }

    /// What a step does.
    pub open spec fn steps(self, event: ReadEvent, next: Self, action: ReadAction) -> bool {
        match event {
            ReadEvent::Object { is_object } => {
                &&& next.headers == self.headers
                &&& next.status == self.status
                &&& if is_object {
                    next.phase is Status && action is ReadStatus
                } else {
                    next.phase is Finished && read_fails(
                        action,
                        "fetch() did not return an object"@,
                    )
                }
            },
            ReadEvent::Status { status } => {
                &&& next.headers == self.headers
                &&& next.status == status_of(status)
                &&& next.phase is OpenHeaders
                &&& action is OpenHeaders
            },
            ReadEvent::Iterator { found } => {
                &&& next.headers == self.headers
                &&& next.status == self.status
                &&& if found {
                    next.phase is Headers && action is NextHeader
                } else {
                    next.phase is Text && action is CallText
                }
            },
            ReadEvent::Header { item } => {
                &&& next.status == self.status
                &&& next.headers@ == self.headers@ + header_of(item)
                &&& if item is Entry {
                    next.phase is Headers && action is NextHeader
                } else {
                    next.phase is Text && action is CallText
                }
            },
            ReadEvent::Text { call } => next.status == self.status && self.after_text(
                call,
                next,
                action,
            ),
            ReadEvent::Body { promise } => next.status == self.status && self.after_body(
                self.phase->checkpoints,
                promise,
                next,
                action,
            ),
        }
    }

    /// A reader that has not looked at anything yet.
    pub fn new() -> (r: (ResponseReader, ReadAction))
        ensures
            r.0.wf(),
            r.0.phase is Object,
            r.0.status == 200,
            r.0.headers@.len() == 0,
            r.1 is CheckObject,
            forall|answer: ReadEvent| answer is Object ==> #[trigger] r.0.awaits(answer),
    {
        (
            ResponseReader { phase: ReadPhase::Object, status: 200, headers: Vec::new() },
            ReadAction::CheckObject,
        )
    }

    fn fail(&mut self, message: String) -> (a: ReadAction)
        ensures
            read_fails(a, message@),
            final(self).phase is Finished,
            final(self).status == old(self).status,
            final(self).headers == old(self).headers,
    {
        self.phase = ReadPhase::Finished;
        ReadAction::Finish { result: Err(message) }
    }

    fn end(&mut self, body: String) -> (a: ReadAction)
        ensures
            read_ends(a, *old(self), body@),
            final(self).phase is Finished,
            final(self).status == old(self).status,
    {
        let mut headers: Vec<(String, String)> = Vec::new();
        core::mem::swap(&mut headers, &mut self.headers);
        self.phase = ReadPhase::Finished;
        ReadAction::Finish { result: Ok(JsResponse { status: self.status, headers, body }) }
    }

    /// Tells the reader what was found, and returns what to look at next.
    pub fn step(&mut self, event: ReadEvent) -> (action: ReadAction)
        requires
            old(self).wf(),
            old(self).awaits(event),
        ensures
            final(self).wf(),
            old(self).steps(event, *final(self), action),
            action is Finish <==> final(self).phase is Finished,
    {
        match event {
            ReadEvent::Object { is_object } => {
                if is_object {
                    self.phase = ReadPhase::Status;
                    ReadAction::ReadStatus
                } else {
                    self.fail("fetch() did not return an object".to_string())
                }
            },
            ReadEvent::Status { status } => {
                let n: u32 = status.unwrap_or(200);
                self.status = (n % 0x1_0000) as u16;
                self.phase = ReadPhase::OpenHeaders;
                ReadAction::OpenHeaders
            },
            ReadEvent::Iterator { found } => {
                if found {
                    self.phase = ReadPhase::Headers;
                    ReadAction::NextHeader
                } else {
                    self.phase = ReadPhase::Text;
                    ReadAction::CallText
                }
            },
            ReadEvent::Header { item } => match item {
                HeaderItem::Entry { pair } => {
                    if let Some(p) = pair {
                        self.headers.push(p);
                        assert(self.headers@ =~= old(self).headers@ + seq![p]);
                    } else {
                        assert(self.headers@ =~= old(self).headers@ + Seq::<(String, String)>::empty());
                    }
                    ReadAction::NextHeader
                },
                _ => {
                    self.phase = ReadPhase::Text;
                    assert(self.headers@ =~= old(self).headers@ + Seq::<(String, String)>::empty());
                    ReadAction::CallText
                },
            },
            ReadEvent::Text { call } => match call {
                TextCall::Missing => self.fail("Response has no text() method".to_string()),
                TextCall::NotAFunction => self.fail("Response.text is not a function".to_string()),
                TextCall::Failed => self.fail("Response.text() call failed".to_string()),
                TextCall::Value { text } => self.end(text),
                TextCall::Promise => {
                    self.phase = ReadPhase::Body { checkpoints: 0 };
                    ReadAction::Checkpoint
                },
            },
            ReadEvent::Body { promise } => {
                let checkpoints: u8 = match self.phase {
                    ReadPhase::Body { checkpoints } => checkpoints,
                    _ => 0,
                };
                match promise {
                    BodyPromise::Fulfilled { text } => self.end(text),
                    BodyPromise::Rejected { reason } => {
                        if checkpoints == 0 {
                            self.fail(join2("Response.text() rejected: ", reason.as_str()))
                        } else {
                            self.fail("Response.text() never resolved".to_string())
                        }
                    },
                    BodyPromise::Pending => {
                        if checkpoints + 1 == MAX_BODY_CHECKPOINTS {
                            self.fail("Response.text() never resolved".to_string())
                        } else {
                            self.phase = ReadPhase::Body { checkpoints: checkpoints + 1 };
                            ReadAction::Checkpoint
                        }
                    },
                }
            },
        }
    }
}

/// What an item of the iterator adds to the headers.
pub open spec fn header_of(item: HeaderItem) -> Seq<(String, String)> {
    match item {
        HeaderItem::Entry { pair: Some(p) } => seq![p],
        _ => Seq::empty(),
    }
}

// ---- laws ----

/// The headers that a sequence of items amounts to: the pairs, in order, up to
/// the first item that is no entry.
pub open spec fn headers_of(items: Seq<HeaderItem>) -> Seq<(String, String)>
    decreases items.len(),
{
    if items.len() == 0 || !(items[0] is Entry) {
        Seq::empty()
    } else {
        header_of(items[0]) + headers_of(items.skip(1))
    }
}

/// A reader from `states[0]` on, step by step.
pub open spec fn is_reading(
    states: Seq<ResponseReader>,
    events: Seq<ReadEvent>,
    actions: Seq<ReadAction>,
) -> bool {
    &&& states.len() == events.len() + 1
    &&& actions.len() == events.len()
    &&& forall|i: int|
        0 <= i < events.len() ==> {
            &&& (#[trigger] states[i]).wf()
            &&& states[i].awaits(events[i])
            &&& states[i].steps(events[i], states[i + 1], actions[i])
        }
}

/// What the iterator over the headers gave in the course of `events`.
pub open spec fn items_in(events: Seq<ReadEvent>) -> Seq<HeaderItem>
    decreases events.len(),
{
    if events.len() == 0 {
        Seq::empty()
    } else {
        match events.last() {
            ReadEvent::Header { item } => items_in(events.drop_last()).push(item),
            _ => items_in(events.drop_last()),
        }
    }
}

/// The text that an event brings as the body, if it brings one.
pub open spec fn body_in(event: ReadEvent) -> Option<Seq<char>> {
    match event {
        ReadEvent::Text { call: TextCall::Value { text } } => Some(text@),
        ReadEvent::Body { promise: BodyPromise::Fulfilled { text } } => Some(text@),
        _ => None,
    }
}

/// How far a reader has come with what it was told.
pub open spec fn has_read(r: ResponseReader, events: Seq<ReadEvent>) -> bool {
    let status_read = events.len() > 1 && (events[1] matches ReadEvent::Status { status }
        && r.status == status_of(status));
    match r.phase {
        ReadPhase::Object => events.len() == 0 && r.headers@.len() == 0,
        ReadPhase::Status => events.len() == 1 && r.headers@.len() == 0 && items_in(events).len() == 0,
        ReadPhase::OpenHeaders => {
            &&& events.len() == 2 && status_read
            &&& r.headers@.len() == 0 && items_in(events).len() == 0
        },
        ReadPhase::Headers => {
            &&& status_read && r.headers@ == headers_of(items_in(events))
            &&& forall|i: int|
                0 <= i < items_in(events).len() ==> (#[trigger] items_in(events)[i]) is Entry
        },
        ReadPhase::Text | ReadPhase::Body { .. } => status_read && r.headers@ == headers_of(
            items_in(events),
        ),
        ReadPhase::Finished => true,
    }
}

/// A response holds what was read, and all of it: the status, the headers in the
/// order of the iterator, and the text of the body.
pub proof fn law_a_response_is_what_was_read(
    states: Seq<ResponseReader>,
    events: Seq<ReadEvent>,
    actions: Seq<ReadAction>,
)
    requires
        is_reading(states, events, actions),
        states[0].phase is Object,
        states[0].headers@.len() == 0,
    ensures
        has_read(states.last(), events),
        events.len() > 0 ==> (actions.last() matches ReadAction::Finish { result: Ok(response) } ==> {
            &&& events.len() > 1
            &&& events[1] matches ReadEvent::Status { status }
            &&& match status {
                Some(n) => {
                    &&& n < 0x1_0000 ==> response.status == n
                    &&& response.status as int == n as int % 0x1_0000
                },
                None => response.status == 200,
            }
            &&& response.headers@ == headers_of(items_in(events))
            &&& response.headers@ == events.filter(
                |e: ReadEvent|
                    e matches ReadEvent::Header { item: HeaderItem::Entry { pair } } && pair is Some,
            ).map_values(|e: ReadEvent| e->item->pair->0)
            &&& body_in(events.last()) == Some(response.body@)
            &&& match events.last() {
                ReadEvent::Text { call } => call matches TextCall::Value { text } && response.body@
                    == text@,
                ReadEvent::Body { promise } => promise matches BodyPromise::Fulfilled { text }
                    && response.body@ == text@,
                _ => false,
            }
        }),
    decreases events.len(),
{
    if events.len() > 0 {
        lemma_headers_are_the_pairs(states, events, actions);
        let n = events.len() - 1;
        let s = states.drop_last();
        let e = events.drop_last();
        assert forall|i: int| 0 <= i < e.len() implies {
            &&& (#[trigger] s[i]).wf()
            &&& s[i].awaits(e[i])
            &&& s[i].steps(e[i], s[i + 1], actions.drop_last()[i])
        } by {
            assert(s[i] == states[i]);
        }
        law_a_response_is_what_was_read(s, e, actions.drop_last());
        assert(s.last() == states[n]);
        assert(states[n].steps(events[n], states[n + 1], actions[n]));
        let items = items_in(e);
        if let ReadEvent::Header { item } = events[n] {
            lemma_headers_of_push(items, item);
        }
        if states[n].headers@.len() == 0 && items.len() == 0 {
            assert(states[n].headers@ =~= headers_of(items));
        }
    }
}

/// As long as a reading goes on, the reader holds the pairs that it was told.
proof fn lemma_headers_are_the_pairs(
    states: Seq<ResponseReader>,
    events: Seq<ReadEvent>,
    actions: Seq<ReadAction>,
)
    requires
        is_reading(states, events, actions),
        states[0].headers@.len() == 0,
    ensures
        ({
            let pairs = events.filter(
                |e: ReadEvent|
                    e matches ReadEvent::Header { item: HeaderItem::Entry { pair } } && pair is Some,
            ).map_values(|e: ReadEvent| e->item->pair->0);
            &&& !(states.last().phase is Finished) ==> states.last().headers@ == pairs
            &&& events.len() > 0 ==> (actions.last() matches ReadAction::Finish {
                result: Ok(response),
            } ==> response.headers@ == pairs)
        }),
    decreases events.len(),
{
    reveal(Seq::filter);
    let holds = |e: ReadEvent|
        e matches ReadEvent::Header { item: HeaderItem::Entry { pair } } && pair is Some;
    let pair = |e: ReadEvent| e->item->pair->0;
    if events.len() == 0 {
        assert(events.filter(holds).map_values(pair) =~= states.last().headers@);
    } else {
        let n = events.len() - 1;
        let s = states.drop_last();
        let e = events.drop_last();
        assert forall|i: int| 0 <= i < e.len() implies {
            &&& (#[trigger] s[i]).wf()
            &&& s[i].awaits(e[i])
            &&& s[i].steps(e[i], s[i + 1], actions.drop_last()[i])
        } by {
            assert(s[i] == states[i]);
        }
        lemma_headers_are_the_pairs(s, e, actions.drop_last());
        assert(s.last() == states[n]);
        assert(states[n].awaits(events[n]));
        assert(states[n].steps(events[n], states[n + 1], actions[n]));
        let told = e.filter(holds).map_values(pair);
        if holds(events[n]) {
            assert(events.filter(holds).map_values(pair) =~= told.push(pair(events[n])));
            assert(states[n].headers@ + seq![pair(events[n])] =~= told.push(pair(events[n])));
        } else {
            assert(states[n].headers@ + Seq::<(String, String)>::empty() =~= told);
        }
    }
}

/// A reading fails for a reason, which the error names, and for no other: the
/// value is no object, it has no `text()` that can be called, or there is no
/// body in the end. Otherwise the reader goes on, until it is told the body.
pub proof fn law_a_reading_fails_for_a_reason(
    reader: ResponseReader,
    event: ReadEvent,
    next: ResponseReader,
    action: ReadAction,
)
    requires
        reader.wf(),
        reader.awaits(event),
        reader.steps(event, next, action),
    ensures
        action matches ReadAction::Finish { result: Ok(_) } <==> (event matches ReadEvent::Text {
            call: TextCall::Value { .. },
        }) || (event matches ReadEvent::Body { promise: BodyPromise::Fulfilled { .. } }),
        action matches ReadAction::Finish { result: Err(e) } ==> match event {
            ReadEvent::Object { is_object } => !is_object && e@ == "fetch() did not return an object"@,
            ReadEvent::Text { call: TextCall::Missing } => e@ == "Response has no text() method"@,
            ReadEvent::Text { call: TextCall::NotAFunction } => e@
                == "Response.text is not a function"@,
            ReadEvent::Text { call: TextCall::Failed } => e@ == "Response.text() call failed"@,
            ReadEvent::Body { promise: BodyPromise::Rejected { reason } } => {
                &&& reader.phase->checkpoints == 0 ==> e@ == "Response.text() rejected: "@ + reason@
                &&& reader.phase->checkpoints > 0 ==> e@ == "Response.text() never resolved"@
            },
            ReadEvent::Body { promise: BodyPromise::Pending } => reader.phase->checkpoints == 10
                && e@ == "Response.text() never resolved"@,
            _ => false,
        },
        event is Object && !event->is_object ==> action is Finish,
        event is Text && !(event->call is Promise) ==> action is Finish,
        event is Body && !(event->promise is Pending) ==> action is Finish,
        event is Object ==> (action is ReadStatus <==> event->is_object),
        event is Status ==> action is OpenHeaders,
        event is Iterator ==> (action is NextHeader <==> event->found) && (action is CallText
            <==> !event->found),
        event is Header ==> (action is NextHeader <==> event->item is Entry) && (action is CallText
            <==> !(event->item is Entry)),
        event matches ReadEvent::Text { call: TextCall::Promise } ==> action is Checkpoint,
        event matches ReadEvent::Body { promise: BodyPromise::Pending } ==> (action is Checkpoint
            <==> reader.phase->checkpoints < 10),
{
}

/// Whatever is found of what a reader has asked for is an answer to it.
pub proof fn law_a_reader_takes_every_answer(
    reader: ResponseReader,
    event: ReadEvent,
    next: ResponseReader,
    action: ReadAction,
    answer: ReadEvent,
)
    requires
        reader.awaits(event),
        reader.steps(event, next, action),
    ensures
        action is ReadStatus && answer is Status ==> next.awaits(answer),
        action is OpenHeaders && answer is Iterator ==> next.awaits(answer),
        action is NextHeader && answer is Header ==> next.awaits(answer),
        action is CallText && answer is Text ==> next.awaits(answer),
        action is Checkpoint && answer is Body ==> next.awaits(answer),
{
}

/// A body that stays pending is looked at eleven times, and no more.
pub proof fn law_a_body_has_eleven_chances(
    states: Seq<ResponseReader>,
    events: Seq<ReadEvent>,
    actions: Seq<ReadAction>,
)
    requires
        is_reading(states, events, actions),
        states[0].phase is Object,
    ensures
        states.last().phase matches ReadPhase::Body { checkpoints } ==> checkpoints == events.filter(
            |e: ReadEvent| e is Body,
        ).len(),
        events.len() > 0 && (events.last() matches ReadEvent::Body { promise: BodyPromise::Pending })
            ==> {
            let looks = events.filter(|e: ReadEvent| e is Body).len();
            &&& 1 <= looks <= 11
            &&& looks < 11 ==> actions.last() is Checkpoint
            &&& looks == 11 ==> actions.last() is Finish
        },
        !(states.last().phase is Body || states.last().phase is Finished) ==> events.filter(
            |e: ReadEvent| e is Body,
        ).len() == 0,
    decreases events.len(),
{
    reveal(Seq::filter);
    if events.len() > 0 {
        let n = events.len() - 1;
        let s = states.drop_last();
        let e = events.drop_last();
        assert forall|i: int| 0 <= i < e.len() implies {
            &&& (#[trigger] s[i]).wf()
            &&& s[i].awaits(e[i])
            &&& s[i].steps(e[i], s[i + 1], actions.drop_last()[i])
        } by {
            assert(s[i] == states[i]);
        }
        law_a_body_has_eleven_chances(s, e, actions.drop_last());
        assert(s.last() == states[n]);
        assert(states[n].wf() && states[n].awaits(events[n]));
        assert(states[n].steps(events[n], states[n + 1], actions[n]));
    }
}

proof fn lemma_headers_of_push(items: Seq<HeaderItem>, item: HeaderItem)
    requires
        forall|i: int| 0 <= i < items.len() ==> (#[trigger] items[i]) is Entry,
    ensures
        headers_of(items.push(item)) == headers_of(items) + header_of(item),
    decreases items.len(),
{
    let all = items.push(item);
    if items.len() == 0 {
        assert(headers_of(all.skip(1)) =~= Seq::empty());
        assert(headers_of(all) =~= header_of(item));
        assert(headers_of(items) + header_of(item) =~= header_of(item));
    } else {
        lemma_headers_of_push(items.skip(1), item);
        assert(all.skip(1) =~= items.skip(1).push(item));
        assert(headers_of(all) =~= headers_of(items) + header_of(item));
    }
}

} // verus!
