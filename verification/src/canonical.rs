//! Canonical response events and the response grammar every emitted sequence obeys.
use vstd::prelude::*;
use crate::errors::{GatewayError, spec_upstream_protocol_error, upstream_protocol_error};
use crate::json::str_eq;
use std::collections::VecDeque;

verus! {

/// Token counters one usage report carries; absent counters were not reported.
#[derive(Clone, Copy, Debug, PartialEq, Eq, Structural)]
pub struct Usage {
    pub input_tokens: Option<u64>,
    pub output_tokens: Option<u64>,
    pub reasoning_tokens: Option<u64>,
    pub cached_tokens: Option<u64>,
    pub cache_read_tokens: Option<u64>,
    pub cache_creation_tokens: Option<u64>,
}

/// One provider-neutral response event.
#[derive(Debug, PartialEq, Eq)]
pub enum CanonicalEvent {
    ResponseStart { response_id: String },
    MessageStart { role: String },
    TextDelta { text: String },
    ToolCallStart { call_id: String, name: String },
    ToolCallArgumentsDelta { call_id: String, delta: String },
    ToolCallEnd { call_id: String, arguments: String },
    UsageDelta { usage: Usage, is_final: bool },
    MessageEnd,
    ResponseEnd { stop_reason: String },
    StreamError { error: GatewayError },
}

/// The specification-level form of a [`CanonicalEvent`]: every text is its characters.
pub enum Event {
    ResponseStart { response_id: Seq<char> },
    MessageStart { role: Seq<char> },
    TextDelta { text: Seq<char> },
    ToolCallStart { call_id: Seq<char>, name: Seq<char> },
    ToolCallArgumentsDelta { call_id: Seq<char>, delta: Seq<char> },
    ToolCallEnd { call_id: Seq<char>, arguments: Seq<char> },
    UsageDelta { usage: Usage, is_final: bool },
    MessageEnd,
    ResponseEnd { stop_reason: Seq<char> },
    StreamError { error: GatewayError },
}

impl View for CanonicalEvent {
    type V = Event;

    open spec fn view(&self) -> Event {
        match self {
            CanonicalEvent::ResponseStart { response_id } => Event::ResponseStart {
                response_id: response_id@,
            },
            CanonicalEvent::MessageStart { role } => Event::MessageStart { role: role@ },
            CanonicalEvent::TextDelta { text } => Event::TextDelta { text: text@ },
            CanonicalEvent::ToolCallStart { call_id, name } => Event::ToolCallStart {
                call_id: call_id@,
                name: name@,
            },
            CanonicalEvent::ToolCallArgumentsDelta { call_id, delta } =>
                Event::ToolCallArgumentsDelta { call_id: call_id@, delta: delta@ },
            CanonicalEvent::ToolCallEnd { call_id, arguments } => Event::ToolCallEnd {
                call_id: call_id@,
                arguments: arguments@,
            },
            CanonicalEvent::UsageDelta { usage, is_final } => Event::UsageDelta {
                usage: *usage,
                is_final: *is_final,
            },
            CanonicalEvent::MessageEnd => Event::MessageEnd,
            CanonicalEvent::ResponseEnd { stop_reason } => Event::ResponseEnd {
                stop_reason: stop_reason@,
            },
            CanonicalEvent::StreamError { error } => Event::StreamError { error: *error },
        }
    }
}

/// Where one response stands in the grammar.
#[derive(Clone, Copy, Debug, PartialEq, Eq, Structural)]
pub enum ResponsePhase {
    NotStarted,
    Open,
    Closed,
}

/// Where the response's one message stands.
#[derive(Clone, Copy, Debug, PartialEq, Eq, Structural)]
pub enum MessagePhase {
    NotOpened,
    Open,
    Ended,
}

/// One declared tool call: its identifier, whether it ended, and the argument text delivered.
pub struct ToolGrammar {
    pub call_id: Seq<char>,
    pub ended: bool,
    pub delivered: Seq<char>,
}

/// The grammar state reached after a prefix of events.
pub struct GrammarState {
    pub phase: ResponsePhase,
    pub message: MessagePhase,
    pub tools: Seq<ToolGrammar>,
}

pub open spec fn grammar_start() -> GrammarState {
    GrammarState {
        phase: ResponsePhase::NotStarted,
        message: MessagePhase::NotOpened,
        tools: Seq::empty(),
    }
}

/// The index of the tool call `call_id` among `tools` from index `i`, or the length.
pub open spec fn tool_index_from(tools: Seq<ToolGrammar>, call_id: Seq<char>, i: int) -> int
    decreases tools.len() - i,
{
    if i < 0 || i >= tools.len() {
        tools.len() as int
    } else if tools[i].call_id == call_id {
        i
    } else {
        tool_index_from(tools, call_id, i + 1)
    }
}

pub open spec fn tool_index(tools: Seq<ToolGrammar>, call_id: Seq<char>) -> int {
    tool_index_from(tools, call_id, 0)
}

pub open spec fn all_tools_ended(tools: Seq<ToolGrammar>) -> bool {
    forall|i: int| 0 <= i < tools.len() ==> (#[trigger] tools[i]).ended
}

/// The canonical response grammar: one response opens, carries at most one message, and
/// closes. Text and tool calls stream only inside the open message; every tool call is
/// declared once, receives argument fragments only while open, and ends with exactly the
/// text its fragments delivered (an empty delivery ends as `{}`); the message ends only once
/// every tool call ended; usage may be reported while the response is open; the response
/// ends only outside an open message, and a stream error ends it at any point before it
/// closed.
pub open spec fn grammar_step(g: GrammarState, e: Event) -> Option<GrammarState> {
    match e {
        Event::ResponseStart { .. } => if g.phase is NotStarted {
            Some(GrammarState { phase: ResponsePhase::Open, ..g })
        } else {
            None
        },
        Event::StreamError { .. } => if g.phase is Closed {
            None
        } else {
            Some(GrammarState { phase: ResponsePhase::Closed, ..g })
        },
        Event::UsageDelta { .. } => if g.phase is Open {
            Some(g)
        } else {
            None
        },
        Event::MessageStart { .. } => if g.phase is Open && g.message is NotOpened {
            Some(GrammarState { message: MessagePhase::Open, ..g })
        } else {
            None
        },
        Event::TextDelta { text } => if g.phase is Open && g.message is Open && text.len() > 0 {
            Some(g)
        } else {
            None
        },
        Event::ToolCallStart { call_id, .. } => if g.phase is Open && g.message is Open
            && tool_index(g.tools, call_id) == g.tools.len() {
            Some(
                GrammarState {
                    tools: g.tools.push(
                        ToolGrammar { call_id: call_id, ended: false, delivered: Seq::empty() },
                    ),
                    ..g
                },
            )
        } else {
            None
        },
        Event::ToolCallArgumentsDelta { call_id, delta } => {
            let k = tool_index(g.tools, call_id);
            if g.phase is Open && k < g.tools.len() && !g.tools[k].ended && delta.len() > 0 {
                Some(
                    GrammarState {
                        tools: g.tools.update(
                            k,
                            ToolGrammar { delivered: g.tools[k].delivered + delta, ..g.tools[k] },
                        ),
                        ..g
                    },
                )
            } else {
                None
            }
        },
        Event::ToolCallEnd { call_id, arguments } => {
            let k = tool_index(g.tools, call_id);
            if g.phase is Open && k < g.tools.len() && !g.tools[k].ended && (arguments
                == g.tools[k].delivered || (g.tools[k].delivered.len() == 0 && arguments
                == "{}"@)) {
                Some(
                    GrammarState {
                        tools: g.tools.update(k, ToolGrammar { ended: true, ..g.tools[k] }),
                        ..g
                    },
                )
            } else {
                None
            }
        },
        Event::MessageEnd => if g.phase is Open && g.message is Open && all_tools_ended(
            g.tools,
        ) {
            Some(GrammarState { message: MessagePhase::Ended, ..g })
        } else {
            None
        },
        Event::ResponseEnd { .. } => if g.phase is Open && !(g.message is Open) {
            Some(GrammarState { phase: ResponsePhase::Closed, ..g })
        } else {
            None
        },
    }
}

/// The grammar state after `events`, or `None` once one of them is out of grammar.
pub open spec fn grammar_run(g: GrammarState, events: Seq<Event>) -> Option<GrammarState>
    decreases events.len(),
{
    if events.len() == 0 {
        Some(g)
    } else {
        match grammar_run(g, events.drop_last()) {
            None => None,
            Some(h) => grammar_step(h, events.last()),
        }
    }
}

pub proof fn lemma_grammar_run_push(g: GrammarState, events: Seq<Event>, e: Event)
    ensures
        grammar_run(g, events.push(e)) == match grammar_run(g, events) {
            None => None,
            Some(h) => grammar_step(h, e),
        },
{
    assert(events.push(e).drop_last() == events);
}


/// One declared tool call as the event validator tracks it.
pub struct ToolProgress {
    pub call_id: String,
    pub ended: bool,
    pub delivered: String,
}

impl View for ToolProgress {
    type V = ToolGrammar;

    open spec fn view(&self) -> ToolGrammar {
        ToolGrammar { call_id: self.call_id@, ended: self.ended, delivered: self.delivered@ }
    }
}

/// The executable validator of the canonical response grammar.
pub struct CanonicalEventState {
    pub phase: ResponsePhase,
    pub message: MessagePhase,
    pub tools: Vec<ToolProgress>,
}

impl View for CanonicalEventState {
    type V = GrammarState;

    open spec fn view(&self) -> GrammarState {
        GrammarState {
            phase: self.phase,
            message: self.message,
            tools: self.tools@.map_values(|t: ToolProgress| t@),
        }
    }
}

impl Default for CanonicalEventState {
    fn default() -> (s: Self)
        ensures
            s@ == grammar_start(),
    {
        CanonicalEventState::new()
    }
}

impl CanonicalEventState {
    /// A validator before any event.
    pub fn new() -> (s: Self)
        ensures
            s@ == grammar_start(),
    {
        let s = CanonicalEventState {
            phase: ResponsePhase::NotStarted,
            message: MessagePhase::NotOpened,
            tools: Vec::new(),
        };
        assert(s@.tools =~= Seq::<ToolGrammar>::empty());
        s
    }

    /// The position of the tool call `call_id`, or the number of declared tool calls.
    fn find_tool(&self, call_id: &String) -> (k: usize)
        ensures
            k == tool_index(self@.tools, call_id@),
    {
        let ghost tools = self@.tools;
        let mut i: usize = 0;
        while i < self.tools.len()
            invariant
                0 <= i <= self.tools@.len(),
                tools == self@.tools,
                tools.len() == self.tools@.len(),
                tool_index_from(tools, call_id@, 0) == tool_index_from(tools, call_id@, i as int),
            decreases self.tools.len() - i,
        {
            if self.tools[i].call_id == *call_id {
                return i;
            }
            i = i + 1;
        }
        i
    }

    /// Applies one event: it is accepted exactly when the grammar allows it after the events
    /// accepted so far, and a refused event leaves the validator unchanged.
    pub fn apply(&mut self, e: &CanonicalEvent) -> (r: Result<(), GatewayError>)
        ensures
            match grammar_step(old(self)@, e@) {
                Some(g) => r is Ok && final(self)@ == g,
                None => r == Err::<(), GatewayError>(spec_upstream_protocol_error())
                    && final(self)@ == old(self)@,
            },
    {
        let ghost g0 = self@;
        match e {
            CanonicalEvent::ResponseStart { .. } => {
                if self.phase == ResponsePhase::NotStarted {
                    self.phase = ResponsePhase::Open;
                    Ok(())
                } else {
                    Err(upstream_protocol_error())
                }
            },
            CanonicalEvent::StreamError { .. } => {
                if self.phase == ResponsePhase::Closed {
                    Err(upstream_protocol_error())
                } else {
                    self.phase = ResponsePhase::Closed;
                    Ok(())
                }
            },
            CanonicalEvent::UsageDelta { .. } => {
                if self.phase == ResponsePhase::Open {
                    Ok(())
                } else {
                    Err(upstream_protocol_error())
                }
            },
            CanonicalEvent::MessageStart { .. } => {
                if self.phase == ResponsePhase::Open && self.message == MessagePhase::NotOpened {
                    self.message = MessagePhase::Open;
                    Ok(())
                } else {
                    Err(upstream_protocol_error())
                }
            },
            CanonicalEvent::TextDelta { text } => {
                if self.phase == ResponsePhase::Open && self.message == MessagePhase::Open
                    && !text.as_str().is_empty() {
                    Ok(())
                } else {
                    Err(upstream_protocol_error())
                }
            },
            CanonicalEvent::ToolCallStart { call_id, .. } => {
                let k = self.find_tool(call_id);
                if self.phase == ResponsePhase::Open && self.message == MessagePhase::Open && k
                    == self.tools.len() {
                    self.tools.push(
                        ToolProgress { call_id: call_id.clone(), ended: false, delivered: String::new() },
                    );
                    assert(self@.tools =~= g0.tools.push(
                        ToolGrammar { call_id: call_id@, ended: false, delivered: Seq::empty() },
                    ));
                    Ok(())
                } else {
                    Err(upstream_protocol_error())
                }
            },
            CanonicalEvent::ToolCallArgumentsDelta { call_id, delta } => {
                let k = self.find_tool(call_id);
                if self.phase == ResponsePhase::Open && k < self.tools.len() && !self.tools[k].ended
                    && !delta.as_str().is_empty() {
                    let mut t = self.tools.remove(k);
                    t.delivered.append(delta.as_str());
                    self.tools.insert(k, t);
                    assert(self@.tools =~= g0.tools.update(
                        k as int,
                        ToolGrammar { delivered: g0.tools[k as int].delivered + delta@, ..g0.tools[k as int] },
                    ));
                    Ok(())
                } else {
                    Err(upstream_protocol_error())
                }
            },
            CanonicalEvent::ToolCallEnd { call_id, arguments } => {
                let k = self.find_tool(call_id);
                if self.phase == ResponsePhase::Open && k < self.tools.len() && !self.tools[k].ended
                    && (*arguments == self.tools[k].delivered || (self.tools[k].delivered.as_str().is_empty() && str_eq(arguments.as_str(), "{}"))) {
                    let mut t = self.tools.remove(k);
                    t.ended = true;
                    self.tools.insert(k, t);
                    assert(self@.tools =~= g0.tools.update(
                        k as int,
                        ToolGrammar { ended: true, ..g0.tools[k as int] },
                    ));
                    Ok(())
                } else {
                    Err(upstream_protocol_error())
                }
            },
            CanonicalEvent::MessageEnd => {
                if self.phase == ResponsePhase::Open && self.message == MessagePhase::Open
                    && self.all_ended() {
                    self.message = MessagePhase::Ended;
                    Ok(())
                } else {
                    Err(upstream_protocol_error())
                }
            },
            CanonicalEvent::ResponseEnd { .. } => {
                if self.phase == ResponsePhase::Open && self.message != MessagePhase::Open {
                    self.phase = ResponsePhase::Closed;
                    Ok(())
                } else {
                    Err(upstream_protocol_error())
                }
            },
        }
    }

    /// Whether every declared tool call has ended.
    fn all_ended(&self) -> (r: bool)
        ensures
            r == all_tools_ended(self@.tools),
    {
        let mut i: usize = 0;
        while i < self.tools.len()
            invariant
                0 <= i <= self.tools@.len(),
                forall|j: int| 0 <= j < i ==> (#[trigger] self@.tools[j]).ended,
            decreases self.tools.len() - i,
        {
            if !self.tools[i].ended {
                assert(!self@.tools[i as int].ended);
                return false;
            }
            i = i + 1;
        }
        true
    }
}

/// Validates one event against the response grammar, then queues it.
///
/// Every emission of the streamed decoder goes through here, so no sequence the grammar
/// forbids can be queued.
pub fn queue_event(
    state: &mut CanonicalEventState,
    pending: &mut VecDeque<CanonicalEvent>,
    event: CanonicalEvent,
) -> (r: Result<(), GatewayError>)
    ensures
        match grammar_step(old(state)@, event@) {
            Some(g) => r is Ok && final(state)@ == g && final(pending)@ == old(pending)@.push(
                event,
            ),
            None => r == Err::<(), GatewayError>(spec_upstream_protocol_error()) && final(state)@
                == old(state)@ && final(pending)@ == old(pending)@,
        },
{
    if let Err(e) = state.apply(&event) {
        return Err(e);
    }
    pending.push_back(event);
    Ok(())
}


/// The queue's events as specification values.
pub open spec fn events_view(q: Seq<CanonicalEvent>) -> Seq<Event> {
    q.map_values(|e: CanonicalEvent| e@)
}

/// The events a decoder emits, kept with the grammar validator they all passed.
///
/// Its invariant, [`EventQueue::valid`]: the events already taken followed by the pending ones
/// are a run of the grammar from its start that ends in the validator's state.
pub struct EventQueue {
    state: CanonicalEventState,
    pending: VecDeque<CanonicalEvent>,
    taken: Ghost<Seq<Event>>,
}

impl EventQueue {
    /// The grammar state after every event queued so far.
    pub closed spec fn grammar(self) -> GrammarState {
        self.state@
    }

    /// The events queued and not yet taken, oldest first.
    pub closed spec fn pending(self) -> Seq<Event> {
        events_view(self.pending@)
    }

    /// The events taken so far, oldest first.
    pub closed spec fn taken(self) -> Seq<Event> {
        self.taken@
    }

    /// An empty queue before any event.
    pub fn new() -> (q: Self)
        ensures
            q.grammar() == grammar_start(),
            q.pending() == Seq::<Event>::empty(),
            q.taken() == Seq::<Event>::empty(),
            q.valid(),
    {
        let q = EventQueue {
            state: CanonicalEventState::new(),
            pending: VecDeque::new(),
            taken: Ghost(Seq::empty()),
        };
        assert(q.taken@ + events_view(q.pending@) =~= Seq::<Event>::empty());
        q
    }

    /// Every event taken so far, followed by the pending ones, is a run of the grammar
    /// that ends in the validator's state.
    pub closed spec fn valid(self) -> bool {
        grammar_run(grammar_start(), self.taken@ + events_view(self.pending@)) == Some(self.state@)
    }

    /// What [`EventQueue::valid`] states.
    pub proof fn lemma_valid(self)
        requires
            self.valid(),
        ensures
            grammar_run(grammar_start(), self.taken() + self.pending()) == Some(self.grammar()),
    {
    }

    /// Whether no event is pending.
    pub fn is_empty(&self) -> (r: bool)
        ensures
            r == (self.pending().len() == 0),
    {
        self.pending.len() == 0
    }

    /// Validates one event against the grammar, then queues it; a refused event changes
    /// nothing.
    pub fn queue(&mut self, event: CanonicalEvent) -> (r: Result<(), GatewayError>)
        requires
            old(self).valid(),
        ensures
            final(self).taken() == old(self).taken(),
            final(self).valid(),
            match grammar_step(old(self).grammar(), event@) {
                Some(g) => r is Ok && final(self).grammar() == g && final(self).pending() == old(self).pending().push(event@),
                None => r == Err::<(), GatewayError>(spec_upstream_protocol_error())
                    && final(self).grammar() == old(self).grammar() && final(self).pending() == old(self).pending(),
            },
    {
        let ghost before = self.taken@ + events_view(self.pending@);
        let ghost e = event@;
        let r = queue_event(&mut self.state, &mut self.pending, event);
        proof {
            if r is Ok {
                lemma_grammar_run_push(grammar_start(), before, e);
                assert(self.taken@ + events_view(self.pending@) =~= before.push(e));
            }
        }
        r
    }

    /// Takes the oldest pending event.
    pub fn take(&mut self) -> (r: Option<CanonicalEvent>)
        requires
            old(self).valid(),
        ensures
            final(self).grammar() == old(self).grammar(),
            final(self).valid(),
            old(self).pending().len() == 0 ==> r is None && final(self).pending() == old(self).pending() && final(self).taken() == old(self).taken(),
            old(self).pending().len() > 0 ==> (r matches Some(e) && e@ == old(self).pending()[0]
                && final(self).pending() == old(self).pending().drop_first() && final(self).taken()
                == old(self).taken().push(e@)),
    {
        let ghost before = self.taken@ + events_view(self.pending@);
        let r = self.pending.pop_front();
        match r {
            Some(e) => {
                proof {
                    self.taken@ = self.taken@.push(e@);
                    assert(self.taken@ + events_view(self.pending@) =~= before);
                }
                Some(e)
            },
            None => None,
        }
    }

}

/// A prefix of a grammar run is a grammar run.
pub proof fn lemma_grammar_run_prefix(g: GrammarState, events: Seq<Event>, n: int)
    requires
        grammar_run(g, events) is Some,
        0 <= n <= events.len(),
    ensures
        grammar_run(g, events.take(n)) is Some,
    decreases events.len(),
{
    if n < events.len() {
        assert(events.drop_last().take(n) =~= events.take(n));
        lemma_grammar_run_prefix(g, events.drop_last(), n);
    } else {
        assert(events.take(n) =~= events);
    }
}


/// Whether `events` is one complete canonical response: a grammar run that closes it.
pub fn is_complete_response(events: &Vec<CanonicalEvent>) -> (r: bool)
    ensures
        r == (grammar_run(grammar_start(), events_view(events@)) matches Some(g) && g.phase
            is Closed),
{
    let mut state = CanonicalEventState::new();
    let mut i: usize = 0;
    while i < events.len()
        invariant
            0 <= i <= events@.len(),
            grammar_run(grammar_start(), events_view(events@).take(i as int)) == Some(state@),
        decreases events.len() - i,
    {
        let ghost g0 = state@;
        let ghost prefix = events_view(events@).take(i as int);
        if state.apply(&events[i]).is_err() {
            proof {
                lemma_grammar_run_push(grammar_start(), prefix, events[i as int]@);
                assert(events_view(events@).take(i + 1) =~= prefix.push(events[i as int]@));
                lemma_run_stays_refused(events_view(events@), i + 1);
            }
            return false;
        }
        proof {
            lemma_grammar_run_push(grammar_start(), prefix, events[i as int]@);
            assert(events_view(events@).take(i + 1) =~= prefix.push(events[i as int]@));
        }
        i = i + 1;
    }
    proof {
        assert(events_view(events@).take(i as int) =~= events_view(events@));
    }
    state.phase == ResponsePhase::Closed
}

/// Once a prefix is refused, every longer prefix is refused.
proof fn lemma_run_stays_refused(events: Seq<Event>, n: int)
    requires
        0 <= n <= events.len(),
        grammar_run(grammar_start(), events.take(n)) is None,
    ensures
        grammar_run(grammar_start(), events) is None,
    decreases events.len() - n,
{
    if n < events.len() {
        lemma_grammar_run_push(grammar_start(), events.take(n), events[n]);
        assert(events.take(n + 1) =~= events.take(n).push(events[n]));
        lemma_run_stays_refused(events, n + 1);
    } else {
        assert(events.take(n) =~= events);
    }
}

} // verus!
