//! The output-item state of one open streamed response: its one message and its tool calls.
use vstd::prelude::*;
use vstd::utf8::*;
use vstd::string::StringSliceAdditionalSpecFns;
use crate::canonical::{CanonicalEvent, Event, EventQueue, GrammarState, events_view, grammar_step};
use crate::errors::{GatewayError, spec_upstream_protocol_error, upstream_protocol_error};
use crate::json::{JsonValue, json_get, json_get_str, get_str, json_parse};
use crate::sse::tool::{SseToolCall, ToolView};

verus! {

/// Bytes of tool arguments one response may retain.
pub const MAX_SSE_TOOL_ARGUMENT_BYTES: usize = 8388608;

/// Tool calls one response may declare.
pub const MAX_SSE_TOOL_CALLS: usize = 32;

/// Bytes one upstream item or call identifier may hold.
pub const MAX_SSE_IDENTIFIER_BYTES: usize = 256;

/// The output-item state as the decoder models it.
pub struct StreamView {
    pub message_open: bool,
    pub emitted_content: bool,
    /// Tool calls keyed by their upstream item identifier, in declaration order.
    pub tools: Seq<(Seq<char>, ToolView)>,
    pub call_ids: Seq<Seq<char>>,
    pub retained: nat,
}

/// The state a frame handler works on: the output items, the grammar validator and the queue.
pub struct Ctx {
    pub s: StreamView,
    pub g: GrammarState,
    pub p: Seq<Event>,
}

/// Queues `e` when the grammar accepts it; `None` stands for the protocol error.
pub open spec fn emit(c: Ctx, e: Event) -> Option<Ctx> {
    match grammar_step(c.g, e) {
        Some(g) => Some(Ctx { g, p: c.p.push(e), ..c }),
        None => None,
    }
}

/// Member `key` of `value` as a non-empty string.
pub open spec fn required(value: JsonValue, key: Seq<char>) -> Option<Seq<char>> {
    match json_get_str(value, key) {
        Some(s) => if s.len() > 0 {
            Some(s)
        } else {
            None
        },
        None => None,
    }
}

/// The UTF-8 byte length of `s`.
pub open spec fn byte_len(s: Seq<char>) -> nat {
    encode_utf8(s).len()
}

/// The position of the tool call of item `item_id` from index `i`, or the number of calls.
pub open spec fn item_index_from(tools: Seq<(Seq<char>, ToolView)>, item_id: Seq<char>, i: int) -> int
    decreases tools.len() - i,
{
    if i < 0 || i >= tools.len() {
        tools.len() as int
    } else if tools[i].0 == item_id {
        i
    } else {
        item_index_from(tools, item_id, i + 1)
    }
}

pub open spec fn item_index(tools: Seq<(Seq<char>, ToolView)>, item_id: Seq<char>) -> int {
    item_index_from(tools, item_id, 0)
}

/// Replaces the tool call at `k`.
pub open spec fn with_tool(c: Ctx, k: int, t: ToolView) -> Ctx {
    Ctx { s: StreamView { tools: c.s.tools.update(k, (c.s.tools[k].0, t)), ..c.s }, ..c }
}

/// Opens the response's one message unless it is open.
pub open spec fn ensure_message_step(c: Ctx) -> Option<Ctx> {
    if c.s.message_open {
        Some(c)
    } else {
        match emit(c, Event::MessageStart { role: "assistant"@ }) {
            Some(c2) => Some(Ctx { s: StreamView { message_open: true, ..c2.s }, ..c2 }),
            None => None,
        }
    }
}

/// Declares the tool call of a `function_call` output item.
pub open spec fn start_tool_step(c: Ctx, item: JsonValue) -> Option<Ctx> {
    match (required(item, "id"@), required(item, "call_id"@), required(item, "name"@)) {
        (Some(item_id), Some(call_id), Some(name)) => if byte_len(item_id)
            > MAX_SSE_IDENTIFIER_BYTES || byte_len(call_id) > MAX_SSE_IDENTIFIER_BYTES
            || c.s.tools.len() >= MAX_SSE_TOOL_CALLS || item_index(c.s.tools, item_id)
            < c.s.tools.len() || c.s.call_ids.contains(call_id) {
            None
        } else {
            match ensure_message_step(c) {
                Some(c1) => match emit(c1, Event::ToolCallStart { call_id, name }) {
                    Some(c2) => Some(
                        Ctx {
                            s: StreamView {
                                tools: c2.s.tools.push(
                                    (
                                        item_id,
                                        ToolView {
                                            call_id,
                                            assembled: Seq::empty(),
                                            released: 0,
                                            ended: false,
                                        },
                                    ),
                                ),
                                call_ids: c2.s.call_ids.push(call_id),
                                ..c2.s
                            },
                            ..c2
                        },
                    ),
                    None => None,
                },
                None => None,
            }
        },
        _ => None,
    }
}

/// Stores tool call `t` at `k` and delivers what its value frames beyond the delivered part.
pub open spec fn release_step(c: Ctx, k: int, t: ToolView) -> Option<Ctx> {
    if !t.has_release() {
        Some(with_tool(c, k, t))
    } else {
        let t2 = ToolView { released: crate::sse::tool::value_end(t.bytes()) as nat, ..t };
        match emit(with_tool(c, k, t2), t.release_event()) {
            Some(c2) => Some(c2),
            None => None,
        }
    }
}

/// Appends one reported argument fragment to its open tool call.
pub open spec fn append_arguments_step(c: Ctx, value: JsonValue) -> Option<Ctx> {
    match (required(value, "item_id"@), json_get_str(value, "delta"@)) {
        (Some(item_id), Some(delta)) => {
            let retained = c.s.retained + byte_len(delta);
            let k = item_index(c.s.tools, item_id);
            if retained > MAX_SSE_TOOL_ARGUMENT_BYTES || k >= c.s.tools.len()
                || c.s.tools[k].1.ended {
                None
            } else {
                let t = ToolView { assembled: c.s.tools[k].1.assembled + delta, ..c.s.tools[k].1 };
                match release_step(c, k, t) {
                    Some(c2) => Some(
                        Ctx { s: StreamView { retained: retained as nat, ..c2.s }, ..c2 },
                    ),
                    None => None,
                }
            }
        },
        _ => None,
    }
}

/// Takes the arguments a completion frame reports for a call that assembled nothing.
pub open spec fn fill_step(c: Ctx, k: int, reported: Option<Seq<char>>) -> Option<Ctx> {
    let t = c.s.tools[k].1;
    if t.no_value() && reported is Some {
        let r = reported->0;
        let next = c.s.retained + byte_len(r);
        if next > MAX_SSE_TOOL_ARGUMENT_BYTES {
            None
        } else {
            match release_step(c, k, ToolView { assembled: t.assembled + r, ..t }) {
                Some(c2) => Some(Ctx { s: StreamView { retained: next as nat, ..c2.s }, ..c2 }),
                None => None,
            }
        }
    } else {
        Some(c)
    }
}

/// Ends the tool call at `k` with its completed arguments, which must be one JSON text.
pub open spec fn close_step(c: Ctx, k: int) -> Option<Ctx> {
    let t = c.s.tools[k].1;
    let args = t.completed_text();
    if json_parse(encode_utf8(args)) is None {
        None
    } else {
        match emit(c, Event::ToolCallEnd { call_id: t.call_id, arguments: args }) {
            Some(c2) => {
                let c3 = with_tool(c2, k, ToolView { ended: true, ..t });
                Some(Ctx { s: StreamView { emitted_content: true, ..c3.s }, ..c3 })
            },
            None => None,
        }
    }
}

/// Closes one open tool call with its assembled arguments. A completion that reports nothing
/// for a call that assembled nothing leaves the call open unless it is `authoritative`, and
/// reported arguments are taken only when no fragment was assembled.
pub open spec fn end_tool_step(
    c: Ctx,
    item_id: Seq<char>,
    reported: Option<Seq<char>>,
    authoritative: bool,
) -> Option<Ctx> {
    let k = item_index(c.s.tools, item_id);
    if k >= c.s.tools.len() {
        None
    } else if c.s.tools[k].1.ended {
        Some(c)
    } else if !authoritative && c.s.tools[k].1.no_value() && (reported is None || reported
        == Some(Seq::<char>::empty())) {
        Some(c)
    } else {
        match fill_step(c, k, reported) {
            Some(c1) => close_step(c1, k),
            None => None,
        }
    }
}

/// The UTF-8 byte length of `s`.
pub fn byte_length(s: &str) -> (n: usize)
    ensures
        n == byte_len(s@),
{
    s.as_bytes().len()
}

/// Member `field` of `value` as a non-empty string, or the protocol error.
pub fn required_string(value: &JsonValue, field: &str) -> (r: Result<String, GatewayError>)
    ensures
        match required(*value, field@) {
            Some(s) => r matches Ok(x) && x@ == s,
            None => r == Err::<String, GatewayError>(spec_upstream_protocol_error()),
        },
{
    match get_str(value, field) {
        Some(s) => if s.as_str().is_empty() {
            Err(upstream_protocol_error())
        } else {
            Ok(s.clone())
        },
        None => Err(upstream_protocol_error()),
    }
}

/// Output-item state retained between the frames of one open streamed response.
///
/// Every visible output item is projected into one canonical message, so a text item
/// followed by tool calls stays one message.
pub struct SseStreamingState {
    pub message_open: bool,
    pub emitted_content: bool,
    pub tool_calls: Vec<(String, SseToolCall)>,
    pub call_ids: Vec<String>,
    pub retained_argument_bytes: usize,
}

impl View for SseStreamingState {
    type V = StreamView;

    open spec fn view(&self) -> StreamView {
        StreamView {
            message_open: self.message_open,
            emitted_content: self.emitted_content,
            tools: self.tool_calls@.map_values(|p: (String, SseToolCall)| (p.0@, p.1@)),
            call_ids: self.call_ids@.map_values(|s: String| s@),
            retained: self.retained_argument_bytes as nat,
        }
    }
}

impl StreamView {
    /// Every tool call delivered a prefix that ends on a character boundary, and the
    /// retained argument bytes stay under their bound.
    pub open spec fn wf(self) -> bool {
        &&& forall|i: int| 0 <= i < self.tools.len() ==> (#[trigger] self.tools[i]).1.wf()
        &&& self.retained <= MAX_SSE_TOOL_ARGUMENT_BYTES
    }

    /// Whether a declared tool call has not ended.
    pub open spec fn has_open_tool(self) -> bool {
        exists|i: int| 0 <= i < self.tools.len() && !(#[trigger] self.tools[i]).1.ended
    }
}

/// The stop reason a completed response reports when the upstream gave none.
pub open spec fn stop_reason_of(s: StreamView) -> Seq<char> {
    if s.call_ids.len() == 0 {
        "end_turn"@
    } else {
        "tool_use"@
    }
}

impl SseStreamingState {
    /// The state of a response whose output items have not opened yet.
    pub fn new() -> (s: Self)
        ensures
            s@ == (StreamView {
                message_open: false,
                emitted_content: false,
                tools: Seq::empty(),
                call_ids: Seq::empty(),
                retained: 0,
            }),
    {
        let s = SseStreamingState {
            message_open: false,
            emitted_content: false,
            tool_calls: Vec::new(),
            call_ids: Vec::new(),
            retained_argument_bytes: 0,
        };
        assert(s@.tools =~= Seq::<(Seq<char>, ToolView)>::empty());
        assert(s@.call_ids =~= Seq::<Seq<char>>::empty());
        s
    }

    /// Reports whether any declared tool call has not yet ended.
    pub fn has_open_tool_call(&self) -> (r: bool)
        ensures
            r == self@.has_open_tool(),
    {
        let mut i: usize = 0;
        while i < self.tool_calls.len()
            invariant
                0 <= i <= self.tool_calls@.len(),
                forall|j: int| 0 <= j < i ==> (#[trigger] self@.tools[j]).1.ended,
            decreases self.tool_calls.len() - i,
        {
            if !self.tool_calls[i].1.ended {
                assert(!self@.tools[i as int].1.ended);
                return true;
            }
            i = i + 1;
        }
        false
    }

    /// Mirrors the non-streaming completion projection for this response.
    pub fn stop_reason(&self) -> (r: &'static str)
        ensures
            r@ == stop_reason_of(self@),
    {
        if self.call_ids.len() == 0 {
            "end_turn"
        } else {
            "tool_use"
        }
    }

    /// The position of the tool call of item `item_id`, or the number of calls.
    fn find_item(&self, item_id: &String) -> (k: usize)
        ensures
            k == item_index(self@.tools, item_id@),
    {
        let ghost tools = self@.tools;
        let mut i: usize = 0;
        while i < self.tool_calls.len()
            invariant
                0 <= i <= self.tool_calls@.len(),
                tools == self@.tools,
                item_index_from(tools, item_id@, 0) == item_index_from(tools, item_id@, i as int),
            decreases self.tool_calls.len() - i,
        {
            if self.tool_calls[i].0 == *item_id {
                return i;
            }
            i = i + 1;
        }
        i
    }

    /// Whether `call_id` was declared before.
    fn has_call_id(&self, call_id: &String) -> (r: bool)
        ensures
            r == self@.call_ids.contains(call_id@),
    {
        let mut i: usize = 0;
        while i < self.call_ids.len()
            invariant
                0 <= i <= self.call_ids@.len(),
                forall|j: int| 0 <= j < i ==> (#[trigger] self@.call_ids[j]) != call_id@,
            decreases self.call_ids.len() - i,
        {
            if self.call_ids[i] == *call_id {
                assert(self@.call_ids[i as int] == call_id@);
                return true;
            }
            i = i + 1;
        }
        false
    }

    /// Opens the one canonical message that carries every output item of this response.
    pub fn ensure_message(
        &mut self,
        events: &mut EventQueue,
    ) -> (r: Result<(), GatewayError>)
        requires
            old(events).valid(),
        ensures
            final(events).taken() == old(events).taken(),
            match ensure_message_step(Ctx { s: old(self)@, g: old(events).grammar(), p: old(events).pending() }) {
                Some(c) => r is Ok && final(events).valid() && final(self)@ == c.s && final(events).grammar() == c.g && final(events).pending() == c.p,
                None => r == Err::<(), GatewayError>(spec_upstream_protocol_error()),
            },
    {
        if self.message_open {
            return Ok(());
        }
        let ghost q0 = events.pending();
        let role = "assistant".to_owned();
        let r = events.queue(CanonicalEvent::MessageStart { role });
        if r.is_err() {
            return r;
        }
        proof {
            assert(events.pending() =~= q0.push(Event::MessageStart { role: "assistant"@ }));
        }
        self.message_open = true;
        Ok(())
    }

    /// Declares one streamed tool call from a `function_call` output item.
    ///
    /// Identifiers longer than [`MAX_SSE_IDENTIFIER_BYTES`] fail closed: both are retained for
    /// the rest of the response, so the retained total stays bounded by a small constant.
    pub fn start_tool_call(
        &mut self,
        events: &mut EventQueue,
        item: &JsonValue,
    ) -> (r: Result<(), GatewayError>)
        requires
            old(events).valid(),
            old(self)@.wf(),
        ensures
            final(events).taken() == old(events).taken(),
            match start_tool_step(Ctx { s: old(self)@, g: old(events).grammar(), p: old(events).pending() }, *item) {
                Some(c) => r is Ok && final(events).valid() && final(self)@ == c.s && final(events).grammar() == c.g && final(events).pending() == c.p && final(self)@.wf(),
                None => r == Err::<(), GatewayError>(spec_upstream_protocol_error()),
            },
    {
        let ghost c0 = Ctx { s: self@, g: events.grammar(), p: events.pending() };
        let item_id = match required_string(item, "id") {
            Ok(v) => v,
            Err(e) => return Err(e),
        };
        let call_id = match required_string(item, "call_id") {
            Ok(v) => v,
            Err(e) => return Err(e),
        };
        let name = match required_string(item, "name") {
            Ok(v) => v,
            Err(e) => return Err(e),
        };
        if byte_length(item_id.as_str()) > MAX_SSE_IDENTIFIER_BYTES || byte_length(call_id.as_str())
            > MAX_SSE_IDENTIFIER_BYTES || self.tool_calls.len() >= MAX_SSE_TOOL_CALLS
            || self.find_item(&item_id) < self.tool_calls.len() || self.has_call_id(&call_id) {
            return Err(upstream_protocol_error());
        }
        if let Err(e) = self.ensure_message(events) {
            return Err(e);
        }
        let ghost c1 = Ctx { s: self@, g: events.grammar(), p: events.pending() };
        assert(ensure_message_step(c0) == Some(c1));
        let ghost q1 = events.pending();
        let ghost s1 = self@;
        let start = CanonicalEvent::ToolCallStart { call_id: call_id.clone(), name };
        assert(start@ == Event::ToolCallStart { call_id: call_id@, name: name@ });
        if let Err(e) = events.queue(start) {
            return Err(e);
        }
        proof {
            assert(events.pending() =~= q1.push(start@));
            assert(emit(c1, start@) == Some(Ctx { s: s1, g: events.grammar(), p: events.pending() }));
        }
        self.call_ids.push(call_id.clone());
        self.tool_calls.push((item_id, SseToolCall::new(call_id)));
        proof {
            assert(self@.tools =~= s1.tools.push(
                (
                    item_id@,
                    ToolView { call_id: call_id@, assembled: Seq::empty(), released: 0, ended: false },
                ),
            ));
            assert(self@.call_ids =~= s1.call_ids.push(call_id@));
            assert forall|i: int| 0 <= i < self@.tools.len() implies (#[trigger] self@.tools[i]).1.wf() by {
                if i < s1.tools.len() {
                    assert(self@.tools[i] == s1.tools[i]);
                }
            }
            assert(required(*item, "id"@) == Some(item_id@));
            assert(required(*item, "call_id"@) == Some(call_id@));
            assert(required(*item, "name"@) == Some(name@));
            assert(!(byte_len(item_id@) > MAX_SSE_IDENTIFIER_BYTES));
            assert(!c0.s.call_ids.contains(call_id@));
            assert(start_tool_step(c0, *item) == Some(Ctx { s: self@, g: events.grammar(), p: events.pending() }));
        }
        Ok(())
    }

    /// Appends one reported tool argument fragment to its open tool call.
    pub fn append_tool_arguments(
        &mut self,
        events: &mut EventQueue,
        value: &JsonValue,
    ) -> (r: Result<(), GatewayError>)
        requires
            old(events).valid(),
            old(self)@.wf(),
        ensures
            final(events).taken() == old(events).taken(),
            match append_arguments_step(Ctx { s: old(self)@, g: old(events).grammar(), p: old(events).pending() }, *value) {
                Some(c) => r is Ok && final(events).valid() && final(self)@ == c.s && final(events).grammar() == c.g && final(events).pending() == c.p && final(self)@.wf(),
                None => r == Err::<(), GatewayError>(spec_upstream_protocol_error()),
            },
    {
        let ghost c0 = Ctx { s: self@, g: events.grammar(), p: events.pending() };
        let item_id = match required_string(value, "item_id") {
            Ok(v) => v,
            Err(e) => return Err(e),
        };
        let delta = match get_str(value, "delta") {
            Some(d) => d,
            None => return Err(upstream_protocol_error()),
        };
        let retained = match self.retained_argument_bytes.checked_add(byte_length(delta.as_str())) {
            Some(n) => n,
            None => return Err(upstream_protocol_error()),
        };
        if retained > MAX_SSE_TOOL_ARGUMENT_BYTES {
            return Err(upstream_protocol_error());
        }
        let k = self.find_item(&item_id);
        if k >= self.tool_calls.len() || self.tool_calls[k].1.ended {
            return Err(upstream_protocol_error());
        }
        let ghost s0 = self@;
        let (id, mut call) = self.tool_calls.remove(k);
        proof {
            assert(s0.tools[k as int] == (id@, call@));
        }
        call.append(delta.as_str());
        let ghost t = call@;
        let ghost q0 = events.pending();
        let rel = call.release_arguments(events);
        self.tool_calls.insert(k, (id, call));
        proof {
            assert(self@.tools =~= s0.tools.update(k as int, (id@, call@)));
        }
        rel?;
        self.retained_argument_bytes = retained;
        proof {
            if t.has_release() {
                assert(events.pending() =~= q0.push(t.release_event()));
            }
            assert forall|i: int| 0 <= i < self@.tools.len() implies (#[trigger] self@.tools[i]).1.wf() by {
                if i != k {
                    assert(self@.tools[i] == s0.tools[i]);
                }
            }
        }
        Ok(())
    }

    /// Completes one open tool call with its fully assembled JSON arguments.
    ///
    /// A completion frame supplies the arguments only when no fragment was assembled: the
    /// fragments the client already received stay authoritative.
    pub fn end_tool_call(
        &mut self,
        events: &mut EventQueue,
        item_id: &String,
        reported_arguments: Option<&String>,
        authoritative: bool,
    ) -> (r: Result<(), GatewayError>)
        requires
            old(events).valid(),
            old(self)@.wf(),
        ensures
            final(events).taken() == old(events).taken(),
            match end_tool_step(
                Ctx { s: old(self)@, g: old(events).grammar(), p: old(events).pending() },
                item_id@,
                match reported_arguments {
                    Some(a) => Some(a@),
                    None => None,
                },
                authoritative,
            ) {
                Some(c) => r is Ok && final(events).valid() && final(self)@ == c.s && final(events).grammar() == c.g && final(events).pending() == c.p && final(self)@.wf(),
                None => r == Err::<(), GatewayError>(spec_upstream_protocol_error()),
            },
    {
        let retained = self.retained_argument_bytes;
        let k = self.find_item(item_id);
        if k >= self.tool_calls.len() {
            return Err(upstream_protocol_error());
        }
        if self.tool_calls[k].1.ended {
            return Ok(());
        }
        let no_value = self.tool_calls[k].1.has_no_value();
        let reported_empty = match reported_arguments {
            None => true,
            Some(a) => a.as_str().is_empty(),
        };
        if !authoritative && no_value && reported_empty {
            proof {
                if let Some(a) = reported_arguments {
                    assert(a@ =~= Seq::<char>::empty());
                }
            }
            return Ok(());
        }
        let ghost s0 = self@;
        let ghost g0 = events.grammar();
        let ghost q0 = events.pending();
        let ghost c0 = Ctx { s: s0, g: g0, p: q0 };
        let ghost rep = match reported_arguments {
            Some(a) => Some(a@),
            None => None,
        };
        let (id, mut call) = self.tool_calls.remove(k);
        proof {
            assert(s0.tools[k as int] == (id@, call@));
        }
        if no_value {
            if let Some(a) = reported_arguments {
                let next = match retained.checked_add(byte_length(a.as_str())) {
                    Some(n) => n,
                    None => return Err(upstream_protocol_error()),
                };
                if next > MAX_SSE_TOOL_ARGUMENT_BYTES {
                    return Err(upstream_protocol_error());
                }
                call.append(a.as_str());
                let ghost t1 = call@;
                if let Err(e) = call.release_arguments(events) {
                    return Err(e);
                }
                proof {
                    if t1.has_release() {
                        assert(events.pending() =~= q0.push(t1.release_event()));
                    }
                    let c1 = release_step(c0, k as int, t1);
                    assert(c1 == Some(Ctx {
                        s: StreamView { tools: s0.tools.update(k as int, (id@, call@)), ..s0 },
                        g: events.grammar(),
                        p: events.pending(),
                    }));
                }
                self.retained_argument_bytes = next;
            }
        }
        let ghost filled = Ctx {
            s: StreamView {
                tools: s0.tools.update(k as int, (id@, call@)),
                retained: self.retained_argument_bytes as nat,
                ..s0
            },
            g: events.grammar(),
            p: events.pending(),
        };
        proof {
            if !(no_value && rep is Some) {
                assert(filled.s.tools =~= s0.tools);
                assert(filled == c0);
            }
            assert(fill_step(c0, k as int, rep) == Some(filled));
        }
        let ghost t1 = call@;
        let ghost q1 = events.pending();
        let ghost g1 = events.grammar();
        let arguments = match call.completed_arguments() {
            Ok(v) => v,
            Err(e) => return Err(e),
        };
        let end = CanonicalEvent::ToolCallEnd { call_id: call.call_id.clone(), arguments };
        if let Err(e) = events.queue(end) {
            return Err(e);
        }
        proof {
            assert(events.pending() =~= q1.push(end@));
            assert(end@ == Event::ToolCallEnd { call_id: t1.call_id, arguments: t1.completed_text() });
            assert(emit(filled, end@) == Some(Ctx { g: events.grammar(), p: events.pending(), ..filled }));
        }
        call.ended = true;
        self.tool_calls.insert(k, (id, call));
        self.emitted_content = true;
        proof {
            assert(self@.tools =~= s0.tools.update(k as int, (id@, call@)));
            assert(filled.s.tools[k as int].1 == t1);
            let c2 = Ctx { g: events.grammar(), p: events.pending(), ..filled };
            let c3 = with_tool(c2, k as int, ToolView { ended: true, ..t1 });
            assert(c3.s.tools =~= self@.tools);
            assert(call@ == ToolView { ended: true, ..t1 });
            assert(close_step(filled, k as int) == Some(Ctx { s: self@, g: events.grammar(), p: events.pending() }));
            assert forall|i: int| 0 <= i < self@.tools.len() implies (#[trigger] self@.tools[i]).1.wf() by {
                if i != k {
                    assert(self@.tools[i] == s0.tools[i]);
                }
            }
        }
        Ok(())
    }
}

} // verus!
