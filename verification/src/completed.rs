//! The completed, non-streaming Responses envelope decoded into one canonical response.
use vstd::prelude::*;
use vstd::string::StringSliceAdditionalSpecFns;
use vstd::utf8::*;
use crate::canonical::{
    CanonicalEvent, Event, Usage, events_view, grammar_run, grammar_start, is_complete_response,
};
use crate::errors::{GatewayError, spec_upstream_protocol_error, upstream_protocol_error};
use crate::json::{JsonValue, get_str, json_get, json_get_str, json_parse, parse_json, str_eq};
use crate::sse::decoder::response_usage;
use crate::sse::stream::{required, required_string};
use crate::usage::{
    P12ResponseUsageProjection, decode_usage, initial_snapshot, initial_usage_snapshot,
    project_usage_for_response,
};

verus! {

/// The decoding state after a prefix of the output items.
pub struct CompletedView {
    pub events: Seq<Event>,
    pub message_open: bool,
    pub emitted: bool,
    pub call_ids: Seq<Seq<char>>,
}

/// Opens the assistant message unless it is open.
pub open spec fn open_message(c: CompletedView) -> CompletedView {
    if c.message_open {
        c
    } else {
        CompletedView {
            events: c.events.push(Event::MessageStart { role: "assistant"@ }),
            message_open: true,
            ..c
        }
    }
}

/// One content part of an assistant message: only `output_text` with non-empty text.
pub open spec fn part_step(c: CompletedView, part: JsonValue) -> Option<CompletedView> {
    if json_get_str(part, "type"@) != Some("output_text"@) {
        None
    } else {
        match required(part, "text"@) {
            None => None,
            Some(text) => {
                let c1 = open_message(c);
                Some(
                    CompletedView {
                        events: c1.events.push(Event::TextDelta { text }),
                        emitted: true,
                        ..c1
                    },
                )
            },
        }
    }
}

/// The content parts of one message, in order.
pub open spec fn parts_run(c: CompletedView, parts: Seq<JsonValue>) -> Option<CompletedView>
    decreases parts.len(),
{
    if parts.len() == 0 {
        Some(c)
    } else {
        match parts_run(c, parts.drop_last()) {
            None => None,
            Some(c1) => part_step(c1, parts.last()),
        }
    }
}

/// A `message` item: an assistant message whose `content` is an array of text parts.
pub open spec fn message_item_step(c: CompletedView, item: JsonValue) -> Option<CompletedView> {
    if json_get_str(item, "role"@) != Some("assistant"@) {
        None
    } else {
        match json_get(item, "content"@) {
            Some(JsonValue::Array(parts)) => parts_run(c, parts@),
            _ => None,
        }
    }
}

/// A `function_call` item: a complete tool call whose identifier is new and whose arguments
/// are one JSON text, delivered whole.
pub open spec fn tool_item_step(c: CompletedView, item: JsonValue) -> Option<CompletedView> {
    match (required(item, "call_id"@), required(item, "name"@), required(item, "arguments"@)) {
        (Some(call_id), Some(name), Some(arguments)) => if c.call_ids.contains(call_id) || json_parse(
            encode_utf8(arguments),
        ) is None {
            None
        } else {
            let c1 = open_message(c);
            Some(
                CompletedView {
                    events: c1.events.push(Event::ToolCallStart { call_id, name }).push(
                        Event::ToolCallArgumentsDelta { call_id, delta: arguments },
                    ).push(Event::ToolCallEnd { call_id, arguments }),
                    emitted: true,
                    call_ids: c1.call_ids.push(call_id),
                    ..c1
                },
            )
        },
        _ => None,
    }
}

/// One output item: a message, a tool call, or an internal reasoning item, which is skipped;
/// any other item is refused.
pub open spec fn item_step(c: CompletedView, item: JsonValue) -> Option<CompletedView> {
    match json_get_str(item, "type"@) {
        Some(kind) => if kind == "message"@ {
            message_item_step(c, item)
        } else if kind == "function_call"@ {
            tool_item_step(c, item)
        } else if kind == "reasoning"@ {
            Some(c)
        } else {
            None
        },
        None => None,
    }
}

/// The output items, in order.
pub open spec fn items_run(c: CompletedView, items: Seq<JsonValue>) -> Option<CompletedView>
    decreases items.len(),
{
    if items.len() == 0 {
        Some(c)
    } else {
        match items_run(c, items.drop_last()) {
            None => None,
            Some(c1) => item_step(c1, items.last()),
        }
    }
}

/// The stop reason of a completed response: `tool_use` once it called a tool.
pub open spec fn completed_stop_reason(call_ids: Seq<Seq<char>>) -> Seq<char> {
    if call_ids.len() == 0 {
        "end_turn"@
    } else {
        "tool_use"@
    }
}

/// The response start, then the input-side usage snapshot when input tokens were reported.
pub open spec fn completed_prefix(id: Seq<char>, usage: Option<Usage>) -> Seq<Event> {
    let start = seq![Event::ResponseStart { response_id: id }];
    match usage {
        Some(u) => if u.input_tokens is Some {
            start.push(Event::UsageDelta { usage: initial_snapshot(u), is_final: false })
        } else {
            start
        },
        None => start,
    }
}

/// The events after the items: the message end, the final usage, and the response end.
pub open spec fn completed_suffix(c: CompletedView, usage: Option<Usage>) -> Seq<Event> {
    let a = if c.message_open {
        c.events.push(Event::MessageEnd)
    } else {
        c.events
    };
    let b = match usage {
        Some(u) => a.push(Event::UsageDelta { usage: u, is_final: true }),
        None => a,
    };
    b.push(Event::ResponseEnd { stop_reason: completed_stop_reason(c.call_ids) })
}

/// The response that the items' run closes: nothing visible, or a sequence outside the
/// response grammar, is refused.
pub open spec fn completed_events(run: Option<CompletedView>, usage: Option<Usage>) -> Option<Seq<Event>> {
    match run {
        Some(c) => if !c.emitted {
            None
        } else {
            let events = completed_suffix(c, usage);
            if (grammar_run(grammar_start(), events) matches Some(g) && g.phase is Closed) {
                Some(events)
            } else {
                None
            }
        },
        None => None,
    }
}

/// The canonical response a completed Responses body decodes to, or `None` when the body is
/// not one: not JSON, no non-empty `id`, a `status` other than `completed`, a malformed
/// `usage`, no `output` array, an item refused, nothing visible, or a sequence outside the
/// response grammar.
pub open spec fn decode_completed(body: Seq<u8>, projection: P12ResponseUsageProjection) -> Option<
    Seq<Event>,
> {
    match json_parse(body) {
        None => None,
        Some(v) => decode_completed_value(v, projection),
    }
}

/// The canonical events of one parsed completed Responses object, or `None` when it is not a
/// completed response with an identifier, well-formed usage and an output array.
pub open spec fn decode_completed_value(v: JsonValue, projection: P12ResponseUsageProjection) -> Option<Seq<Event>> {
    match (required(v, "id"@), response_usage(v, projection), json_get(v, "output"@)) {
        (Some(id), Some(usage), Some(JsonValue::Array(items))) => if json_get_str(v, "status"@)
            != Some("completed"@) {
            None
        } else {
            completed_events(
                items_run(
                    CompletedView {
                        events: completed_prefix(id, usage),
                        message_open: false,
                        emitted: false,
                        call_ids: Seq::empty(),
                    },
                    items@,
                ),
                usage,
            )
        },
        _ => None,
    }
}

/// The decoding state of the executable decoder, as a model.
pub open spec fn completed_view(
    events: Seq<CanonicalEvent>,
    message_open: bool,
    emitted: bool,
    call_ids: Seq<String>,
) -> CompletedView {
    CompletedView {
        events: events_view(events),
        message_open,
        emitted,
        call_ids: call_ids.map_values(|s: String| s@),
    }
}

/// Opens the assistant message unless it is open.
pub fn ensure_message(events: &mut Vec<CanonicalEvent>, message_open: &mut bool)
    ensures
        *final(message_open),
        events_view(final(events)@) == if *old(message_open) {
            events_view(old(events)@)
        } else {
            events_view(old(events)@).push(Event::MessageStart { role: "assistant"@ })
        },
{
    if !*message_open {
        let ghost before = events@;
        events.push(CanonicalEvent::MessageStart { role: String::from_str("assistant") });
        *message_open = true;
        proof {
            assert(events_view(events@) =~= events_view(before).push(
                Event::MessageStart { role: "assistant"@ },
            ));
        }
    }
}

/// Whether `ids` holds `id`.
fn holds_id(ids: &Vec<String>, id: &String) -> (r: bool)
    ensures
        r == ids@.map_values(|s: String| s@).contains(id@),
{
    let ghost m = ids@.map_values(|s: String| s@);
    let mut i: usize = 0;
    while i < ids.len()
        invariant
            0 <= i <= ids@.len(),
            m == ids@.map_values(|s: String| s@),
            forall|j: int| 0 <= j < i ==> (#[trigger] m[j]) != id@,
        decreases ids.len() - i,
    {
        if str_eq(ids[i].as_str(), id.as_str()) {
            assert(m[i as int] == id@);
            return true;
        }
        i = i + 1;
    }
    false
}

/// Decodes one `message` item into the message's text deltas.
pub fn decode_completed_message(
    item: &JsonValue,
    events: &mut Vec<CanonicalEvent>,
    message_open: &mut bool,
    emitted_content: &mut bool,
    call_ids: &Vec<String>,
) -> (r: Result<(), GatewayError>)
    ensures
        match message_item_step(
            completed_view(old(events)@, *old(message_open), *old(emitted_content), call_ids@),
            *item,
        ) {
            Some(c) => r is Ok && completed_view(
                final(events)@,
                *final(message_open),
                *final(emitted_content),
                call_ids@,
            ) == c,
            None => r == Err::<(), GatewayError>(spec_upstream_protocol_error()),
        },
{
    let role_ok = match get_str(item, "role") {
        Some(role) => str_eq(role.as_str(), "assistant"),
        None => false,
    };
    if !role_ok {
        return Err(upstream_protocol_error());
    }
    let parts = match item.get("content") {
        Some(JsonValue::Array(parts)) => parts,
        _ => return Err(upstream_protocol_error()),
    };
    let ghost c0 = completed_view(events@, *message_open, *emitted_content, call_ids@);
    let mut i: usize = 0;
    while i < parts.len()
        invariant
            0 <= i <= parts@.len(),
            c0 == completed_view(old(events)@, *old(message_open), *old(emitted_content), call_ids@),
            message_item_step(c0, *item) == parts_run(c0, parts@),
            parts_run(c0, parts@.take(i as int)) == Some(
                completed_view(events@, *message_open, *emitted_content, call_ids@),
            ),
        decreases parts.len() - i,
    {
        let part = &parts[i];
        let ghost c1 = completed_view(events@, *message_open, *emitted_content, call_ids@);
        proof {
            assert(parts@.take(i + 1).drop_last() =~= parts@.take(i as int));
            assert(parts@.take(i + 1).last() == parts@[i as int]);
        }
        let kind_ok = match get_str(part, "type") {
            Some(kind) => str_eq(kind.as_str(), "output_text"),
            None => false,
        };
        if !kind_ok {
            proof {
                lemma_parts_run_stays_refused(c0, parts@, i + 1);
            }
            return Err(upstream_protocol_error());
        }
        let text = match required_string(part, "text") {
            Ok(t) => t,
            Err(e) => {
                proof {
                    lemma_parts_run_stays_refused(c0, parts@, i + 1);
                }
                return Err(e);
            },
        };
        ensure_message(events, message_open);
        let ghost before = events@;
        events.push(CanonicalEvent::TextDelta { text });
        *emitted_content = true;
        proof {
            assert(events_view(events@) =~= events_view(before).push(events@.last()@));
        }
        i = i + 1;
    }
    proof {
        assert(parts@.take(i as int) =~= parts@);
    }
    Ok(())
}

/// Once a prefix of the parts is refused, the whole run is refused.
proof fn lemma_parts_run_stays_refused(c: CompletedView, parts: Seq<JsonValue>, n: int)
    requires
        0 <= n <= parts.len(),
        parts_run(c, parts.take(n)) is None,
    ensures
        parts_run(c, parts) is None,
    decreases parts.len() - n,
{
    if n < parts.len() {
        assert(parts.take(n + 1).drop_last() =~= parts.take(n));
        lemma_parts_run_stays_refused(c, parts, n + 1);
    } else {
        assert(parts.take(n) =~= parts);
    }
}

/// Once a prefix of the items is refused, the whole run is refused.
proof fn lemma_items_run_stays_refused(c: CompletedView, items: Seq<JsonValue>, n: int)
    requires
        0 <= n <= items.len(),
        items_run(c, items.take(n)) is None,
    ensures
        items_run(c, items) is None,
    decreases items.len() - n,
{
    if n < items.len() {
        assert(items.take(n + 1).drop_last() =~= items.take(n));
        lemma_items_run_stays_refused(c, items, n + 1);
    } else {
        assert(items.take(n) =~= items);
    }
}

/// Decodes one `function_call` item into a whole tool call lifecycle.
pub fn decode_completed_tool_call(
    item: &JsonValue,
    events: &mut Vec<CanonicalEvent>,
    message_open: &mut bool,
    emitted_content: &mut bool,
    call_ids: &mut Vec<String>,
) -> (r: Result<(), GatewayError>)
    ensures
        match tool_item_step(
            completed_view(old(events)@, *old(message_open), *old(emitted_content), old(call_ids)@),
            *item,
        ) {
            Some(c) => r is Ok && completed_view(
                final(events)@,
                *final(message_open),
                *final(emitted_content),
                final(call_ids)@,
            ) == c,
            None => r == Err::<(), GatewayError>(spec_upstream_protocol_error()),
        },
{
    let call_id = match required_string(item, "call_id") {
        Ok(s) => s,
        Err(e) => return Err(e),
    };
    let name = match required_string(item, "name") {
        Ok(s) => s,
        Err(e) => return Err(e),
    };
    let arguments = match required_string(item, "arguments") {
        Ok(s) => s,
        Err(e) => return Err(e),
    };
    if holds_id(call_ids, &call_id) {
        return Err(upstream_protocol_error());
    }
    if parse_json(arguments.as_str().as_bytes()).is_none() {
        return Err(upstream_protocol_error());
    }
    let ghost ids_before = call_ids@;
    call_ids.push(call_id.clone());
    proof {
        assert(call_ids@.map_values(|s: String| s@) =~= ids_before.map_values(|s: String| s@).push(
            call_id@,
        ));
    }
    ensure_message(events, message_open);
    let ghost before = events@;
    events.push(CanonicalEvent::ToolCallStart { call_id: call_id.clone(), name });
    events.push(CanonicalEvent::ToolCallArgumentsDelta { call_id: call_id.clone(), delta: arguments.clone() });
    events.push(CanonicalEvent::ToolCallEnd { call_id, arguments });
    *emitted_content = true;
    proof {
        let n = before.len() as int;
        assert(events_view(events@) =~= events_view(before).push(events@[n]@).push(
            events@[n + 1]@,
        ).push(events@[n + 2]@));
    }
    Ok(())
}

/// Decodes a completed Responses body into one canonical response, projecting its usage for
/// the client's protocol.
pub fn decode_json_events_with_usage_projection(
    body: &[u8],
    usage_projection: P12ResponseUsageProjection,
) -> (r: Result<Vec<CanonicalEvent>, GatewayError>)
    ensures
        match decode_completed(body@, usage_projection) {
            Some(events) => r matches Ok(v) && events_view(v@) == events,
            None => r == Err::<Vec<CanonicalEvent>, GatewayError>(spec_upstream_protocol_error()),
        },
        r matches Ok(v) ==> (grammar_run(grammar_start(), events_view(v@)) matches Some(g)
            && g.phase is Closed),
{
    match parse_json(body) {
        Some(value) => decode_completed_response(&value, usage_projection),
        None => Err(upstream_protocol_error()),
    }
}

/// Decodes one parsed completed Responses object into one canonical response, projecting its
/// usage for the client's protocol.
pub fn decode_completed_response(
    value: &JsonValue,
    usage_projection: P12ResponseUsageProjection,
) -> (r: Result<Vec<CanonicalEvent>, GatewayError>)
    ensures
        match decode_completed_value(*value, usage_projection) {
            Some(events) => r matches Ok(v) && events_view(v@) == events,
            None => r == Err::<Vec<CanonicalEvent>, GatewayError>(spec_upstream_protocol_error()),
        },
        r matches Ok(v) ==> (grammar_run(grammar_start(), events_view(v@)) matches Some(g)
            && g.phase is Closed),
{
    let response_id = match required_string(value, "id") {
        Ok(s) => s,
        Err(e) => return Err(e),
    };
    let completed = match get_str(value, "status") {
        Some(status) => str_eq(status.as_str(), "completed"),
        None => false,
    };
    if !completed {
        return Err(upstream_protocol_error());
    }
    let decoded = match decode_usage(value.get("usage")) {
        Ok(u) => u,
        Err(e) => return Err(e),
    };
    let usage = project_usage_for_response(decoded, usage_projection);
    let items = match value.get("output") {
        Some(JsonValue::Array(items)) => items,
        _ => return Err(upstream_protocol_error()),
    };
    let mut events: Vec<CanonicalEvent> = Vec::new();
    events.push(CanonicalEvent::ResponseStart { response_id });
    match &usage {
        Some(u) => if u.input_tokens.is_some() {
            events.push(CanonicalEvent::UsageDelta { usage: initial_usage_snapshot(u), is_final: false });
        },
        None => {},
    }
    let mut message_open = false;
    let mut emitted_content = false;
    let mut call_ids: Vec<String> = Vec::new();
    let ghost c0 = completed_view(events@, message_open, emitted_content, call_ids@);
    proof {
        assert(c0.events =~= completed_prefix(c0.events[0]->response_id, usage));
        assert(c0.call_ids =~= Seq::<Seq<char>>::empty());
    }
    proof {
        assert(decode_completed_value(*value, usage_projection) == completed_events(items_run(c0, items@), usage));
    }
    let mut i: usize = 0;
    while i < items.len()
        invariant
            0 <= i <= items@.len(),
            decode_completed_value(*value, usage_projection) == completed_events(items_run(c0, items@), usage),
            items_run(c0, items@.take(i as int)) == Some(
                completed_view(events@, message_open, emitted_content, call_ids@),
            ),
        decreases items.len() - i,
    {
        let item = &items[i];
        proof {
            assert(items@.take(i + 1).drop_last() =~= items@.take(i as int));
            assert(items@.take(i + 1).last() == items@[i as int]);
        }
        let kind = match get_str(item, "type") {
            Some(k) => k,
            None => {
                proof {
                    lemma_items_run_stays_refused(c0, items@, i + 1);
                }
                return Err(upstream_protocol_error());
            },
        };
        let step = if str_eq(kind.as_str(), "message") {
            decode_completed_message(item, &mut events, &mut message_open, &mut emitted_content, &call_ids)
        } else if str_eq(kind.as_str(), "function_call") {
            decode_completed_tool_call(item, &mut events, &mut message_open, &mut emitted_content, &mut call_ids)
        } else if str_eq(kind.as_str(), "reasoning") {
            Ok(())
        } else {
            Err(upstream_protocol_error())
        };
        if step.is_err() {
            proof {
                lemma_items_run_stays_refused(c0, items@, i + 1);
            }
            return Err(upstream_protocol_error());
        }
        i = i + 1;
    }
    proof {
        assert(items@.take(i as int) =~= items@);
    }
    if !emitted_content {
        return Err(upstream_protocol_error());
    }
    let ghost c = completed_view(events@, message_open, emitted_content, call_ids@);
    let ghost before_end = events@;
    if message_open {
        events.push(CanonicalEvent::MessageEnd);
    }
    let ghost after_message = events@;
    match usage {
        Some(u) => {
            events.push(CanonicalEvent::UsageDelta { usage: u, is_final: true });
        },
        None => {},
    }
    let ghost after_usage = events@;
    let stop_reason = if call_ids.len() == 0 {
        String::from_str("end_turn")
    } else {
        String::from_str("tool_use")
    };
    events.push(CanonicalEvent::ResponseEnd { stop_reason });
    proof {
        let a = if c.message_open {
            c.events.push(Event::MessageEnd)
        } else {
            c.events
        };
        assert(events_view(after_message) =~= a);
        let b = match usage {
            Some(u) => a.push(Event::UsageDelta { usage: u, is_final: true }),
            None => a,
        };
        assert(events_view(after_usage) =~= b);
        assert(events_view(events@) =~= completed_suffix(c, usage));
    }
    if !is_complete_response(&events) {
        return Err(upstream_protocol_error());
    }
    Ok(events)
}

/// Decodes a completed Responses body for a client of the Responses protocol.
pub fn decode_json_events(body: &[u8]) -> (r: Result<Vec<CanonicalEvent>, GatewayError>)
    ensures
        match decode_completed(body@, P12ResponseUsageProjection::OpenAiResponses) {
            Some(events) => r matches Ok(v) && events_view(v@) == events,
            None => r == Err::<Vec<CanonicalEvent>, GatewayError>(spec_upstream_protocol_error()),
        },
{
    decode_json_events_with_usage_projection(body, P12ResponseUsageProjection::OpenAiResponses)
}

} // verus!
