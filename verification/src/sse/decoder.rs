//! The streamed `OpenAI` Responses decoder: frames in, validated canonical events out.
use vstd::prelude::*;
use vstd::utf8::*;
use crate::canonical::{CanonicalEvent, Event, EventQueue, GrammarState, events_view, grammar_run, grammar_start, grammar_step, Usage};
use vstd::string::StringSliceAdditionalSpecFns;
use crate::errors::{
    GatewayError, provider_transient_error, spec_provider_transient_error,
    spec_stream_truncated_error, spec_upstream_protocol_error, stream_truncated_error,
    upstream_protocol_error,
};
use crate::json::{JsonValue, json_get, json_get_str, json_parse, get_str, parse_json, str_eq};
use crate::sse::data::{frame_data, is_utf8, sse_data};
use crate::sse::frame::{MAX_SSE_FRAME_BYTES, SseFrameBuffer, lemma_first_delimiter_bounds, next_frame};
use crate::sse::stream::{
    Ctx, SseStreamingState, StreamView, append_arguments_step, emit, end_tool_step,
    ensure_message_step, required, required_string, start_tool_step, stop_reason_of,
};
use crate::usage::{
    P12ResponseUsageProjection, decode_usage, decode_usage_spec, initial_snapshot,
    initial_usage_snapshot, project_usage, project_usage_for_response,
};

verus! {

/// Consecutive frames that prove only socket liveness before the stream counts as wedged.
pub const MAX_SSE_PROGRESS_FREE_FRAMES: usize = 4096;

/// Where one streamed response stands, as the decoder models it.
pub enum LifeView {
    AwaitingResponseStart,
    Streaming(StreamView),
    Finished,
}

/// The decoder state that frames act on.
pub struct DecoderView {
    pub life: LifeView,
    pub g: GrammarState,
    pub p: Seq<Event>,
    pub progress_free: usize,
    pub progress_marks: u64,
    pub projection: P12ResponseUsageProjection,
}


/// Saturating increment of a frame counter.
pub open spec fn sat_inc(n: usize) -> usize {
    if n == usize::MAX {
        n
    } else {
        (n + 1) as usize
    }
}

/// Saturating increment of the progress mark count.
pub open spec fn sat_inc_u64(n: u64) -> u64 {
    if n == u64::MAX {
        n
    } else {
        (n + 1) as u64
    }
}

/// Queues `e` when the grammar accepts it; `None` stands for the protocol error.
pub open spec fn emit_m(m: DecoderView, e: Event) -> Option<DecoderView> {
    match grammar_step(m.g, e) {
        Some(g) => Some(DecoderView { g, p: m.p.push(e), ..m }),
        None => None,
    }
}

/// The handler context of an open response.
pub open spec fn ctx_of(m: DecoderView, s: StreamView) -> Ctx {
    Ctx { s, g: m.g, p: m.p }
}

/// The decoder state after a handler of the open response produced `c`.
pub open spec fn lift(m: DecoderView, c: Option<Ctx>) -> Option<DecoderView> {
    match c {
        Some(c) => Some(DecoderView { life: LifeView::Streaming(c.s), g: c.g, p: c.p, ..m }),
        None => None,
    }
}

/// A frame that proves only socket liveness: it spends one unit of the progress-free run,
/// and a run longer than [`MAX_SSE_PROGRESS_FREE_FRAMES`] ends the stream with a transient
/// provider failure.
pub open spec fn progress_free_step(m: DecoderView) -> Option<DecoderView> {
    let m1 = DecoderView { progress_free: sat_inc(m.progress_free), ..m };
    if m1.progress_free > MAX_SSE_PROGRESS_FREE_FRAMES {
        match emit_m(m1, Event::StreamError { error: spec_provider_transient_error() }) {
            Some(m2) => Some(DecoderView { life: LifeView::Finished, ..m2 }),
            None => None,
        }
    } else {
        Some(m1)
    }
}

/// A frame that proves generation advances: it refills the progress-free run.
pub open spec fn progress_step(m: DecoderView) -> DecoderView {
    DecoderView { progress_free: 0, progress_marks: sat_inc_u64(m.progress_marks), ..m }
}

/// The usage member of `response`, projected for the client; outer `None` when malformed.
pub open spec fn response_usage(response: JsonValue, projection: P12ResponseUsageProjection) -> Option<Option<Usage>> {
    match decode_usage_spec(json_get(response, "usage"@)) {
        Some(Some(u)) => Some(Some(project_usage(u, projection))),
        Some(None) => Some(None),
        None => None,
    }
}

/// `response.created`: opens the response, reporting input usage first when known.
pub open spec fn created_step(m: DecoderView, v: JsonValue) -> Option<DecoderView> {
    if !(m.life is AwaitingResponseStart) {
        None
    } else {
        match json_get(v, "response"@) {
            None => None,
            Some(response) => match (required(response, "id"@), response_usage(response, m.projection)) {
                (Some(id), Some(usage)) => {
                    let m1 = DecoderView {
                        life: LifeView::Streaming(
                            StreamView {
                                message_open: false,
                                emitted_content: false,
                                tools: Seq::empty(),
                                call_ids: Seq::empty(),
                                retained: 0,
                            },
                        ),
                        ..m
                    };
                    match emit_m(m1, Event::ResponseStart { response_id: id }) {
                        None => None,
                        Some(m2) => match usage {
                            Some(u) => if u.input_tokens is Some {
                                emit_m(m2, Event::UsageDelta { usage: initial_snapshot(u), is_final: false })
                            } else {
                                Some(m2)
                            },
                            None => Some(m2),
                        },
                    }
                },
                _ => None,
            },
        }
    }
}

/// `response.output_item.added`: an assistant message opens the message, a reasoning item is
/// ignored, a function call declares a tool call; any other item is refused.
pub open spec fn item_added_step(m: DecoderView, v: JsonValue) -> Option<DecoderView> {
    match json_get(v, "item"@) {
        None => None,
        Some(item) => match m.life {
            LifeView::Streaming(s) => {
                let kind = json_get_str(item, "type"@);
                if kind == Some("message"@) && json_get_str(item, "role"@) == Some("assistant"@) {
                    lift(m, ensure_message_step(ctx_of(m, s)))
                } else if kind == Some("reasoning"@) {
                    Some(m)
                } else if kind == Some("function_call"@) {
                    lift(m, start_tool_step(ctx_of(m, s), item))
                } else {
                    None
                }
            },
            _ => None,
        },
    }
}

/// `response.output_text.delta`: streams text inside the open message; an empty fragment
/// is dropped.
pub open spec fn text_delta_step(m: DecoderView, v: JsonValue) -> Option<DecoderView> {
    match json_get_str(v, "delta"@) {
        None => None,
        Some(delta) => match m.life {
            LifeView::Streaming(s) => if !s.message_open {
                None
            } else if delta.len() == 0 {
                Some(m)
            } else {
                lift(
                    m,
                    emit(
                        ctx_of(m, StreamView { emitted_content: true, ..s }),
                        Event::TextDelta { text: delta },
                    ),
                )
            },
            _ => None,
        },
    }
}

/// `response.function_call_arguments.delta`: one argument fragment of an open tool call.
pub open spec fn arguments_delta_step(m: DecoderView, v: JsonValue) -> Option<DecoderView> {
    match m.life {
        LifeView::Streaming(s) => lift(m, append_arguments_step(ctx_of(m, s), v)),
        _ => None,
    }
}

/// `response.function_call_arguments.done`: closes a tool call, unless it reports nothing
/// for a call that assembled nothing.
pub open spec fn arguments_done_step(m: DecoderView, v: JsonValue) -> Option<DecoderView> {
    match required(v, "item_id"@) {
        None => None,
        Some(item_id) => match m.life {
            LifeView::Streaming(s) => lift(
                m,
                end_tool_step(ctx_of(m, s), item_id, json_get_str(v, "arguments"@), false),
            ),
            _ => None,
        },
    }
}

/// `response.output_item.done`: the last chance to close a function call's tool call; other
/// items carry nothing.
pub open spec fn item_done_step(m: DecoderView, v: JsonValue) -> Option<DecoderView> {
    match json_get(v, "item"@) {
        None => None,
        Some(item) => if json_get_str(item, "type"@) != Some("function_call"@) {
            Some(m)
        } else {
            match required(item, "id"@) {
                None => None,
                Some(item_id) => match m.life {
                    LifeView::Streaming(s) => lift(
                        m,
                        end_tool_step(
                            ctx_of(m, s),
                            item_id,
                            json_get_str(item, "arguments"@),
                            true,
                        ),
                    ),
                    _ => None,
                },
            }
        },
    }
}

/// The terminal projection: the message ends, final usage is reported when known, and the
/// response ends with the reported stop reason or the one its output implies. A response
/// with no content or with an open tool call is refused.
pub open spec fn finish_step(m: DecoderView, v: JsonValue, reported: Option<Seq<char>>) -> Option<DecoderView> {
    match json_get(v, "response"@) {
        None => None,
        Some(response) => match response_usage(response, m.projection) {
            None => None,
            Some(usage) => match m.life {
                LifeView::Streaming(s) => if !s.emitted_content || s.has_open_tool() {
                    None
                } else {
                    let stop = match reported {
                        Some(r) => r,
                        None => stop_reason_of(s),
                    };
                    let m1 = if s.message_open {
                        emit_m(m, Event::MessageEnd)
                    } else {
                        Some(m)
                    };
                    match m1 {
                        None => None,
                        Some(m1) => {
                            let m2 = match usage {
                                Some(u) => emit_m(m1, Event::UsageDelta { usage: u, is_final: true }),
                                None => Some(m1),
                            };
                            match m2 {
                                None => None,
                                Some(m2) => match emit_m(m2, Event::ResponseEnd { stop_reason: stop }) {
                                    None => None,
                                    Some(m3) => Some(DecoderView { life: LifeView::Finished, ..m3 }),
                                },
                            }
                        },
                    }
                },
                _ => None,
            },
        },
    }
}

/// The stop reason of `response.incomplete`: a content filter is a refusal, anything else
/// the output limit.
pub open spec fn incomplete_reason(v: JsonValue) -> Seq<char> {
    match json_get(v, "response"@) {
        Some(response) => match json_get(response, "incomplete_details"@) {
            Some(details) => match json_get_str(details, "reason"@) {
                Some(reason) => if reason == "content_filter"@ {
                    "refusal"@
                } else {
                    "max_tokens"@
                },
                None => "max_tokens"@,
            },
            None => "max_tokens"@,
        },
        None => "max_tokens"@,
    }
}

/// `response.failed`: ends a started stream with a transient provider failure.
pub open spec fn failed_step(m: DecoderView) -> Option<DecoderView> {
    if m.life is AwaitingResponseStart {
        None
    } else {
        match emit_m(m, Event::StreamError { error: spec_provider_transient_error() }) {
            Some(m2) => Some(DecoderView { life: LifeView::Finished, ..m2 }),
            None => None,
        }
    }
}

/// Frame kinds that carry no canonical semantics but prove generation advances.
pub open spec fn is_informational(kind: Seq<char>) -> bool {
    ||| kind == "response.content_part.added"@
    ||| kind == "response.content_part.done"@
    ||| kind == "response.output_text.done"@
    ||| kind == "response.output_text.annotation.added"@
    ||| kind == "response.reasoning_summary_part.added"@
    ||| kind == "response.reasoning_summary_part.done"@
    ||| kind == "response.reasoning_summary_text.delta"@
    ||| kind == "response.reasoning_summary_text.done"@
    ||| kind == "response.reasoning_text.delta"@
    ||| kind == "response.reasoning_text.done"@
    ||| kind == "response.refusal.delta"@
    ||| kind == "response.refusal.done"@
}

/// Dispatches one payload frame on its `type`.
pub open spec fn dispatch_step(m: DecoderView, kind: Seq<char>, v: JsonValue) -> Option<DecoderView> {
    if kind == "response.created"@ {
        created_step(m, v)
    } else if is_informational(kind) {
        Some(m)
    } else if kind == "response.output_item.added"@ {
        item_added_step(m, v)
    } else if kind == "response.output_text.delta"@ {
        text_delta_step(m, v)
    } else if kind == "response.function_call_arguments.delta"@ {
        arguments_delta_step(m, v)
    } else if kind == "response.function_call_arguments.done"@ {
        arguments_done_step(m, v)
    } else if kind == "response.output_item.done"@ {
        item_done_step(m, v)
    } else if kind == "response.completed"@ {
        finish_step(m, v, None)
    } else if kind == "response.incomplete"@ {
        finish_step(m, v, Some(incomplete_reason(v)))
    } else if kind == "response.failed"@ {
        failed_step(m)
    } else {
        None
    }
}

/// What one parsed frame payload does to the decoder: its `type` picks its handler, and an
/// `in_progress` payload proves only liveness.
pub open spec fn payload_step(m: DecoderView, v: JsonValue) -> Option<DecoderView> {
    match required(v, "type"@) {
        None => None,
        Some(kind) => if kind == "response.in_progress"@ {
            progress_free_step(m)
        } else {
            dispatch_step(progress_step(m), kind, v)
        },
    }
}

/// What one complete SSE frame does to the decoder; `None` is the protocol error. The frame
/// must be UTF-8; one without a `data:` payload (a comment or keepalive) and an
/// `in_progress` frame prove only liveness; any other payload is one JSON object whose
/// `type` picks its handler.
#[verifier::opaque]
pub open spec fn frame_step(m: DecoderView, frame: Seq<u8>) -> Option<DecoderView> {
    if !valid_utf8(frame) {
        None
    } else {
        let data = sse_data(frame);
        if data.len() == 0 {
            progress_free_step(m)
        } else {
            match json_parse(data) {
                None => None,
                Some(v) => payload_step(m, v),
            }
        }
    }
}


/// A frame that carries no data, or only a `response.in_progress` object, just spends the
/// progress-free run: within the budget it queues nothing and counts one more frame; the frame
/// past the budget ends the stream with a transient provider failure.
pub proof fn lemma_keepalive_frames_spend_the_progress_budget(m: DecoderView, frame: Seq<u8>)
    requires
        valid_utf8(frame),
        sse_data(frame).len() == 0 || (json_parse(sse_data(frame)) matches Some(v) && required(v, "type"@)
            == Some("response.in_progress"@)),
        !(m.g.phase is Closed),
        m.progress_free < usize::MAX,
    ensures
        m.progress_free + 1 <= MAX_SSE_PROGRESS_FREE_FRAMES ==> frame_step(m, frame) == Some(
            DecoderView { progress_free: (m.progress_free + 1) as usize, ..m },
        ),
        m.progress_free + 1 > MAX_SSE_PROGRESS_FREE_FRAMES ==> (frame_step(m, frame) matches Some(m2)
            && m2.life is Finished && m2.p == m.p.push(Event::StreamError { error: spec_provider_transient_error() })),
{
    reveal(frame_step);
    assert(frame_step(m, frame) == progress_free_step(m));
    let m1 = DecoderView { progress_free: sat_inc(m.progress_free), ..m };
    assert(m1.progress_free == m.progress_free + 1);
    let e = Event::StreamError { error: spec_provider_transient_error() };
    assert(grammar_step(m1.g, e) is Some);
}

/// Any other accepted frame proves progress: it resets the progress-free run to zero.
pub proof fn lemma_progress_frames_reset_the_run(m: DecoderView, frame: Seq<u8>)
    requires
        valid_utf8(frame),
        sse_data(frame).len() > 0,
        json_parse(sse_data(frame)) matches Some(v) && required(v, "type"@) matches Some(kind) && kind
            != "response.in_progress"@,
    ensures
        frame_step(m, frame) matches Some(m2) ==> m2.progress_free == 0,
{
    reveal(frame_step);
    let v = json_parse(sse_data(frame))->0;
    let kind = required(v, "type"@)->0;
    let m1 = progress_step(m);
    assert(m1.progress_free == 0);
    assert(frame_step(m, frame) == dispatch_step(m1, kind, v));
}

/// Taking a frame shortens the residue.
pub proof fn lemma_next_frame_shorter(r: Seq<u8>)
    ensures
        match next_frame(r) {
            Some((f, rest)) => rest.len() < r.len(),
            None => true,
        },
{
    lemma_first_delimiter_bounds(r, 0);
}

/// Decodes buffered frames until one event is pending, the response finished, or no
/// complete frame remains.
pub open spec fn drain_until_event(m: DecoderView, r: Seq<u8>) -> Option<(DecoderView, Seq<u8>)>
    decreases r.len(),
{
    if m.p.len() > 0 || m.life is Finished {
        Some((m, r))
    } else {
        match next_frame(r) {
            None => Some((m, r)),
            Some((f, rest)) => {
                proof {
                    lemma_next_frame_shorter(r);
                }
                match frame_step(m, f) {
                    None => None,
                    Some(m2) => drain_until_event(m2, rest),
                }
            },
        }
    }
}

/// Decodes every buffered frame until the response finished or no complete frame remains.
/// `m.p` accumulates every event emitted; each frame is decoded with no event pending.
pub open spec fn drain_all(m: DecoderView, r: Seq<u8>) -> Option<(DecoderView, Seq<u8>)>
    decreases r.len(),
{
    if m.life is Finished {
        Some((m, r))
    } else {
        match next_frame(r) {
            None => Some((m, r)),
            Some((f, rest)) => {
                proof {
                    lemma_next_frame_shorter(r);
                }
                match frame_step(DecoderView { p: Seq::empty(), ..m }, f) {
                    None => None,
                    Some(m2) => drain_all(DecoderView { p: m.p + m2.p, ..m2 }, rest),
                }
            },
        }
    }
}

/// The chunk of `body` that starts at `pos`.
pub open spec fn chunk_at(body: Seq<u8>, pos: int, size: int) -> Seq<u8> {
    if body.len() - pos > size {
        body.subrange(pos, pos + size)
    } else {
        body.subrange(pos, body.len() as int)
    }
}

/// Decodes `body[pos..]` pushed in chunks of `size` bytes after state `m` and residue `r`:
/// a chunk that would grow the residue past [`MAX_SSE_FRAME_BYTES`] is refused, the frames
/// buffered after each chunk are decoded, and a body that ends before its response
/// finished is truncated. The result is every event emitted.
pub open spec fn decode_chunks(
    m: DecoderView,
    r: Seq<u8>,
    body: Seq<u8>,
    pos: int,
    size: int,
) -> Result<Seq<Event>, GatewayError>
    decreases body.len() - pos,
{
    if pos < 0 || pos >= body.len() || size <= 0 {
        if m.life is Finished {
            Ok(m.p)
        } else {
            Err(spec_stream_truncated_error())
        }
    } else {
        let chunk = chunk_at(body, pos, size);
        if r.len() + chunk.len() > MAX_SSE_FRAME_BYTES {
            Err(spec_upstream_protocol_error())
        } else {
            match drain_all(m, r + chunk) {
                None => Err(spec_upstream_protocol_error()),
                Some((m2, r2)) => {
                    proof {
                        assert(chunk.len() >= 1);
                    }
                    decode_chunks(m2, r2, body, pos + chunk.len(), size)
                },
            }
        }
    }
}

/// Decodes the frames buffered in `r`, then the chunks of `body` from `pos`.
pub open spec fn after_push(
    m: DecoderView,
    r: Seq<u8>,
    body: Seq<u8>,
    pos: int,
    size: int,
) -> Result<Seq<Event>, GatewayError> {
    match drain_all(m, r) {
        None => Err(spec_upstream_protocol_error()),
        Some((m2, r2)) => decode_chunks(m2, r2, body, pos, size),
    }
}

/// What decoding `body` in chunks of `size` bytes (at least one) yields.
pub open spec fn decode_body(body: Seq<u8>, size: int, projection: P12ResponseUsageProjection) -> Result<Seq<Event>, GatewayError> {
    decode_chunks(initial_model(projection), Seq::empty(), body, 0, if size < 1 { 1 } else { size })
}


/// Draining stops on a pending event, a finished response or a residue without a complete
/// frame, and either changes nothing or shortens the residue.
pub proof fn lemma_drain_until_event(m: DecoderView, r: Seq<u8>)
    ensures
        match drain_until_event(m, r) {
            Some((m1, r1)) => ((m1 == m && r1 == r) || r1.len() < r.len()) && (m1.p.len() > 0
                || m1.life is Finished || next_frame(r1) is None),
            None => true,
        },
    decreases r.len(),
{
    if !(m.p.len() > 0 || m.life is Finished) {
        if let Some((f, rest)) = next_frame(r) {
            lemma_next_frame_shorter(r);
            if let Some(m2) = frame_step(m, f) {
                lemma_drain_until_event(m2, rest);
            }
        }
    }
}

/// With no event pending, draining to the first event and then everything else decodes
/// what draining everything decodes.
pub proof fn lemma_drain_split(m: DecoderView, r: Seq<u8>)
    requires
        m.p.len() == 0,
    ensures
        match drain_until_event(m, r) {
            Some((m1, r1)) => drain_all(m, r) == drain_all(m1, r1),
            None => drain_all(m, r) is None,
        },
    decreases r.len(),
{
    if !(m.life is Finished) {
        if let Some((f, rest)) = next_frame(r) {
            lemma_next_frame_shorter(r);
            assert(m.p =~= Seq::<Event>::empty());
            assert(DecoderView { p: Seq::empty(), ..m } == m);
            if let Some(m2) = frame_step(m, f) {
                assert(DecoderView { p: m.p + m2.p, ..m2 } == m2) by {
                    assert(m.p + m2.p =~= m2.p);
                }
                if m2.p.len() == 0 && !(m2.life is Finished) {
                    lemma_drain_split(m2, rest);
                }
            }
        }
    }
}

/// Events already emitted stay in front of whatever draining emits.
pub proof fn lemma_drain_all_prefix(m: DecoderView, x: Seq<Event>, r: Seq<u8>)
    ensures
        drain_all(DecoderView { p: x + m.p, ..m }, r) == match drain_all(m, r) {
            Some((m1, r1)) => Some((DecoderView { p: x + m1.p, ..m1 }, r1)),
            None => None,
        },
    decreases r.len(),
{
    let mx = DecoderView { p: x + m.p, ..m };
    if !(m.life is Finished) {
        if let Some((f, rest)) = next_frame(r) {
            lemma_next_frame_shorter(r);
            assert(DecoderView { p: Seq::empty(), ..mx } == DecoderView { p: Seq::empty(), ..m });
            if let Some(m2) = frame_step(DecoderView { p: Seq::empty(), ..m }, f) {
                let n2 = DecoderView { p: m.p + m2.p, ..m2 };
                lemma_drain_all_prefix(n2, x, rest);
                assert(DecoderView { p: mx.p + m2.p, ..m2 } == DecoderView { p: x + n2.p, ..n2 }) by {
                    assert(mx.p + m2.p =~= x + n2.p);
                }
                if let Some((m3, r3)) = drain_all(n2, rest) {
                    assert(DecoderView { p: x + m3.p, ..m3 } == DecoderView { p: x + m3.p, ..m3 });
                }
            }
        }
    }
}

/// Events already emitted stay in front of whatever decoding the remaining chunks emits.
pub proof fn lemma_decode_chunks_prefix(
    m: DecoderView,
    x: Seq<Event>,
    r: Seq<u8>,
    body: Seq<u8>,
    pos: int,
    size: int,
)
    ensures
        decode_chunks(DecoderView { p: x + m.p, ..m }, r, body, pos, size) == match decode_chunks(
            m,
            r,
            body,
            pos,
            size,
        ) {
            Ok(p) => Ok::<Seq<Event>, GatewayError>(x + p),
            Err(e) => Err(e),
        },
    decreases body.len() - pos,
{
    if !(pos < 0 || pos >= body.len() || size <= 0) {
        let chunk = chunk_at(body, pos, size);
        if r.len() + chunk.len() <= MAX_SSE_FRAME_BYTES {
            lemma_drain_all_prefix(m, x, r + chunk);
            if let Some((m2, r2)) = drain_all(m, r + chunk) {
                assert(chunk.len() >= 1);
                lemma_decode_chunks_prefix(m2, x, r2, body, pos + chunk.len(), size);
            }
        }
    }
}

/// The bounded lifecycle of one streamed Responses body.
pub enum SseLifecycle {
    /// No `response.created` frame has been accepted yet.
    AwaitingResponseStart,
    /// `ResponseStart` was emitted; output items may open, stream, and close.
    Streaming(SseStreamingState),
    /// A terminal `ResponseEnd` or `StreamError` is already queued.
    Finished,
}

impl View for SseLifecycle {
    type V = LifeView;

    open spec fn view(&self) -> LifeView {
        match self {
            SseLifecycle::AwaitingResponseStart => LifeView::AwaitingResponseStart,
            SseLifecycle::Streaming(s) => LifeView::Streaming(s@),
            SseLifecycle::Finished => LifeView::Finished,
        }
    }
}

impl SseLifecycle {
    pub fn is_finished(&self) -> (r: bool)
        ensures
            r == (self@ is Finished),
    {
        match self {
            SseLifecycle::Finished => true,
            _ => false,
        }
    }

    /// Returns the open streaming state, rejecting a frame that arrives outside it.
    pub fn streaming_state(&mut self) -> (r: Result<&mut SseStreamingState, GatewayError>)
        ensures
            match old(self)@ {
                LifeView::Streaming(s) => r is Ok && *final(self) == SseLifecycle::Streaming(
                    *final(r->Ok_0),
                ) && r->Ok_0@ == s,
                _ => r == Err::<&mut SseStreamingState, GatewayError>(
                    spec_upstream_protocol_error(),
                ) && *final(self) == *old(self),
            },
    {
        match self {
            SseLifecycle::Streaming(state) => Ok(state),
            _ => Err(upstream_protocol_error()),
        }
    }
}


/// Transport-free `OpenAI` Responses SSE decoder for one streamed upstream response.
///
/// Frame reassembly and canonical projection stay outside any transport, so the same state
/// machine can be driven from arbitrary chunk boundaries. Every event passes the canonical
/// grammar before it is queued.
pub struct OpenAiSseDecoder {
    frames: SseFrameBuffer,
    events: EventQueue,
    lifecycle: SseLifecycle,
    usage_projection: P12ResponseUsageProjection,
    /// Consecutive frames that proved only socket liveness, reset by any progress frame.
    progress_free_frames: usize,
    /// Monotone count of consumed frames that proved generation is advancing.
    progress_marks: u64,
}

impl OpenAiSseDecoder {
    /// The state frames act on.
    pub closed spec fn model(&self) -> DecoderView {
        DecoderView {
            life: self.lifecycle@,
            g: self.events.grammar(),
            p: self.events.pending(),
            progress_free: self.progress_free_frames,
            progress_marks: self.progress_marks,
            projection: self.usage_projection,
        }
    }

    /// The bytes received and not yet decoded into a frame.
    pub closed spec fn residue(&self) -> Seq<u8> {
        self.frames.residue()
    }

    /// The events already taken out of the decoder, oldest first.
    pub closed spec fn taken(&self) -> Seq<Event> {
        self.events.taken()
    }

    /// The number of bytes the frame buffer holds, decoded prefix included.
    pub closed spec fn held(&self) -> nat {
        self.frames.held()
    }

    pub closed spec fn wf(&self) -> bool {
        &&& self.frames.wf()
        &&& self.events.valid()
        &&& match self.lifecycle@ {
            LifeView::Streaming(s) => s.wf(),
            _ => true,
        }
    }

    /// Every event taken so far, followed by the pending ones, is a grammar run, and the
    /// frame buffer holds at most twice [`crate::sse::frame::MAX_SSE_FRAME_BYTES`].
    pub proof fn lemma_wf(&self)
        requires
            self.wf(),
        ensures
            grammar_run(grammar_start(), self.taken() + self.model().p) == Some(self.model().g),
            self.residue().len() <= crate::sse::frame::MAX_SSE_FRAME_BYTES,
            self.held() <= 2 * crate::sse::frame::MAX_SSE_FRAME_BYTES,
    {
        self.events.lemma_valid();
        self.frames.lemma_wf_bounds();
    }

    pub fn new(usage_projection: P12ResponseUsageProjection) -> (d: Self)
        ensures
            d.wf(),
            d.model() == initial_model(usage_projection),
            d.residue() == Seq::<u8>::empty(),
            d.taken() == Seq::<Event>::empty(),
    {
        OpenAiSseDecoder {
            frames: SseFrameBuffer::new(),
            events: EventQueue::new(),
            lifecycle: SseLifecycle::AwaitingResponseStart,
            usage_projection,
            progress_free_frames: 0,
            progress_marks: 0,
        }
    }

    /// Appends one bounded transport chunk without interpreting it.
    pub fn push_chunk(&mut self, chunk: &[u8]) -> (r: Result<(), GatewayError>)
        requires
            old(self).wf(),
        ensures
            final(self).wf(),
            final(self).model() == old(self).model(),
            final(self).taken() == old(self).taken(),
            old(self).residue().len() + chunk@.len() > crate::sse::frame::MAX_SSE_FRAME_BYTES
                ==> r == Err::<(), GatewayError>(spec_upstream_protocol_error())
                && final(self).residue() == old(self).residue(),
            old(self).residue().len() + chunk@.len() <= crate::sse::frame::MAX_SSE_FRAME_BYTES
                ==> r is Ok && final(self).residue() == old(self).residue() + chunk@,
    {
        self.frames.push_chunk(chunk)
    }

    /// The number of bytes the frame buffer holds, decoded prefix included.
    pub fn held_len(&self) -> (n: usize)
        ensures
            n == self.held(),
    {
        self.frames.held_len()
    }

    /// The number of bytes received and not yet decoded into a frame.
    pub fn residue_len(&self) -> (n: usize)
        requires
            self.wf(),
        ensures
            n == self.residue().len(),
    {
        self.frames.residue_len()
    }

    pub fn is_finished(&self) -> (r: bool)
        ensures
            r == (self.model().life is Finished),
    {
        self.lifecycle.is_finished()
    }

    /// Takes the oldest queued event.
    pub fn take_event(&mut self) -> (r: Option<CanonicalEvent>)
        requires
            old(self).wf(),
        ensures
            final(self).wf(),
            final(self).residue() == old(self).residue(),
            old(self).model().p.len() == 0 ==> r is None && final(self).model() == old(self).model()
                && final(self).taken() == old(self).taken(),
            old(self).model().p.len() > 0 ==> (r matches Some(e) && e@ == old(self).model().p[0]
                && final(self).model() == (DecoderView { p: old(self).model().p.drop_first(), ..old(self).model() })
                && final(self).taken() == old(self).taken().push(e@)),
    {
        self.events.take()
    }

    /// Records one consumed frame that proves the upstream is still generating.
    fn note_progress_frame(&mut self)
        requires
            old(self).wf(),
        ensures
            final(self).wf(),
            final(self).model() == progress_step(old(self).model()),
            final(self).residue() == old(self).residue(),
            final(self).taken() == old(self).taken(),
    {
        self.progress_free_frames = 0;
        self.progress_marks = self.progress_marks.saturating_add(1);
    }

    /// Records one keepalive-class frame that proves only that the socket is alive.
    ///
    /// A run longer than [`MAX_SSE_PROGRESS_FREE_FRAMES`] is a wedged upstream: it terminates
    /// with the same projection as an upstream `response.failed`.
    fn note_progress_free_frame(&mut self) -> (r: Result<(), GatewayError>)
        requires
            old(self).wf(),
        ensures
            final(self).residue() == old(self).residue(),
            final(self).taken() == old(self).taken(),
            match progress_free_step(old(self).model()) {
                Some(m) => r is Ok && final(self).model() == m && final(self).wf(),
                None => r == Err::<(), GatewayError>(spec_upstream_protocol_error()),
            },
    {
        self.progress_free_frames = self.progress_free_frames.saturating_add(1);
        if self.progress_free_frames > MAX_SSE_PROGRESS_FREE_FRAMES {
            let error = provider_transient_error();
            if let Err(e) = self.events.queue(CanonicalEvent::StreamError { error }) {
                return Err(e);
            }
            self.lifecycle = SseLifecycle::Finished;
        }
        Ok(())
    }
}

impl OpenAiSseDecoder {
    fn consume_response_created(&mut self, value: &JsonValue) -> (r: Result<(), GatewayError>)
        requires
            old(self).wf(),
        ensures
            final(self).residue() == old(self).residue(),
            final(self).taken() == old(self).taken(),
            match created_step(old(self).model(), *value) {
                Some(m) => r is Ok && final(self).model() == m && final(self).wf(),
                None => r == Err::<(), GatewayError>(spec_upstream_protocol_error()),
            },
    {
        match self.lifecycle {
            SseLifecycle::AwaitingResponseStart => {},
            _ => return Err(upstream_protocol_error()),
        }
        let response = match value.get("response") {
            Some(v) => v,
            None => return Err(upstream_protocol_error()),
        };
        let response_id = match required_string(response, "id") {
            Ok(v) => v,
            Err(e) => return Err(e),
        };
        let decoded = match decode_usage(response.get("usage")) {
            Ok(u) => u,
            Err(e) => return Err(e),
        };
        let usage = project_usage_for_response(decoded, self.usage_projection);
        self.lifecycle = SseLifecycle::Streaming(SseStreamingState::new());
        if let Err(e) = self.events.queue(CanonicalEvent::ResponseStart { response_id }) {
            return Err(e);
        }
        // The reported input usage precedes the message, exactly as the non-streaming decoder
        // supplies it; usage the upstream did not report is never invented.
        if let Some(u) = usage {
            if u.input_tokens.is_some() {
                let snapshot = initial_usage_snapshot(&u);
                if let Err(e) = self.events.queue(CanonicalEvent::UsageDelta { usage: snapshot, is_final: false }) {
                    return Err(e);
                }
            }
        }
        Ok(())
    }

    fn consume_output_item_added(&mut self, value: &JsonValue) -> (r: Result<(), GatewayError>)
        requires
            old(self).wf(),
        ensures
            final(self).residue() == old(self).residue(),
            final(self).taken() == old(self).taken(),
            match item_added_step(old(self).model(), *value) {
                Some(m) => r is Ok && final(self).model() == m && final(self).wf(),
                None => r == Err::<(), GatewayError>(spec_upstream_protocol_error()),
            },
    {
        let item = match value.get("item") {
            Some(v) => v,
            None => return Err(upstream_protocol_error()),
        };
        match &mut self.lifecycle {
            SseLifecycle::Streaming(streaming) => {
                let kind = get_str(item, "type");
                let is_message = match kind {
                    Some(k) => str_eq(k.as_str(), "message"),
                    None => false,
                };
                let is_assistant = match get_str(item, "role") {
                    Some(role) => str_eq(role.as_str(), "assistant"),
                    None => false,
                };
                let is_reasoning = match kind {
                    Some(k) => str_eq(k.as_str(), "reasoning"),
                    None => false,
                };
                let is_function_call = match kind {
                    Some(k) => str_eq(k.as_str(), "function_call"),
                    None => false,
                };
                if is_message && is_assistant {
                    streaming.ensure_message(&mut self.events)
                } else if is_reasoning {
                    // A model may open an internal reasoning item before its visible output;
                    // it is not exposed, and it must not fail an otherwise valid response.
                    Ok(())
                } else if is_function_call {
                    streaming.start_tool_call(&mut self.events, item)
                } else {
                    Err(upstream_protocol_error())
                }
            },
            _ => Err(upstream_protocol_error()),
        }
    }

    fn consume_output_text_delta(&mut self, value: &JsonValue) -> (r: Result<(), GatewayError>)
        requires
            old(self).wf(),
        ensures
            final(self).residue() == old(self).residue(),
            final(self).taken() == old(self).taken(),
            match text_delta_step(old(self).model(), *value) {
                Some(m) => r is Ok && final(self).model() == m && final(self).wf(),
                None => r == Err::<(), GatewayError>(spec_upstream_protocol_error()),
            },
    {
        let delta = match get_str(value, "delta") {
            Some(d) => d,
            None => return Err(upstream_protocol_error()),
        };
        match &mut self.lifecycle {
            SseLifecycle::Streaming(streaming) => {
                if !streaming.message_open {
                    return Err(upstream_protocol_error());
                }
                // An empty fragment carries no client-visible semantics and cannot become a
                // canonical text delta, so it is dropped instead of failing the stream.
                if delta.as_str().is_empty() {
                    return Ok(());
                }
                streaming.emitted_content = true;
                self.events.queue(CanonicalEvent::TextDelta { text: delta.clone() })
            },
            _ => Err(upstream_protocol_error()),
        }
    }

    fn consume_function_arguments_delta(&mut self, value: &JsonValue) -> (r: Result<(), GatewayError>)
        requires
            old(self).wf(),
        ensures
            final(self).residue() == old(self).residue(),
            final(self).taken() == old(self).taken(),
            match arguments_delta_step(old(self).model(), *value) {
                Some(m) => r is Ok && final(self).model() == m && final(self).wf(),
                None => r == Err::<(), GatewayError>(spec_upstream_protocol_error()),
            },
    {
        match &mut self.lifecycle {
            SseLifecycle::Streaming(streaming) => streaming.append_tool_arguments(&mut self.events, value),
            _ => Err(upstream_protocol_error()),
        }
    }

    fn consume_function_arguments_done(&mut self, value: &JsonValue) -> (r: Result<(), GatewayError>)
        requires
            old(self).wf(),
        ensures
            final(self).residue() == old(self).residue(),
            final(self).taken() == old(self).taken(),
            match arguments_done_step(old(self).model(), *value) {
                Some(m) => r is Ok && final(self).model() == m && final(self).wf(),
                None => r == Err::<(), GatewayError>(spec_upstream_protocol_error()),
            },
    {
        let item_id = match required_string(value, "item_id") {
            Ok(v) => v,
            Err(e) => return Err(e),
        };
        match &mut self.lifecycle {
            SseLifecycle::Streaming(streaming) => streaming.end_tool_call(
                &mut self.events,
                &item_id,
                get_str(value, "arguments"),
                false,
            ),
            _ => Err(upstream_protocol_error()),
        }
    }

    fn consume_output_item_done(&mut self, value: &JsonValue) -> (r: Result<(), GatewayError>)
        requires
            old(self).wf(),
        ensures
            final(self).residue() == old(self).residue(),
            final(self).taken() == old(self).taken(),
            match item_done_step(old(self).model(), *value) {
                Some(m) => r is Ok && final(self).model() == m && final(self).wf(),
                None => r == Err::<(), GatewayError>(spec_upstream_protocol_error()),
            },
    {
        let item = match value.get("item") {
            Some(v) => v,
            None => return Err(upstream_protocol_error()),
        };
        let is_function_call = match get_str(item, "type") {
            Some(k) => str_eq(k.as_str(), "function_call"),
            None => false,
        };
        if !is_function_call {
            return Ok(());
        }
        let item_id = match required_string(item, "id") {
            Ok(v) => v,
            Err(e) => return Err(e),
        };
        // A completed function call item is the last chance to close a tool call whose
        // upstream omitted the dedicated arguments completion frame.
        match &mut self.lifecycle {
            SseLifecycle::Streaming(streaming) => streaming.end_tool_call(
                &mut self.events,
                &item_id,
                get_str(item, "arguments"),
                true,
            ),
            _ => Err(upstream_protocol_error()),
        }
    }

    fn consume_response_failed(&mut self) -> (r: Result<(), GatewayError>)
        requires
            old(self).wf(),
        ensures
            final(self).residue() == old(self).residue(),
            final(self).taken() == old(self).taken(),
            match failed_step(old(self).model()) {
                Some(m) => r is Ok && final(self).model() == m && final(self).wf(),
                None => r == Err::<(), GatewayError>(spec_upstream_protocol_error()),
            },
    {
        match self.lifecycle {
            SseLifecycle::AwaitingResponseStart => return Err(upstream_protocol_error()),
            _ => {},
        }
        let error = provider_transient_error();
        if let Err(e) = self.events.queue(CanonicalEvent::StreamError { error }) {
            return Err(e);
        }
        self.lifecycle = SseLifecycle::Finished;
        Ok(())
    }
}

/// The stop reason a `response.incomplete` frame reports.
fn incomplete_stop_reason(value: &JsonValue) -> (r: &'static str)
    ensures
        r@ == incomplete_reason(*value),
{
    let reason = match value.get("response") {
        Some(response) => match response.get("incomplete_details") {
            Some(details) => get_str(details, "reason"),
            None => None,
        },
        None => None,
    };
    match reason {
        Some(reason) => if str_eq(reason.as_str(), "content_filter") {
            "refusal"
        } else {
            "max_tokens"
        },
        None => "max_tokens",
    }
}

/// Whether `kind` names a frame that carries no canonical semantics.
fn informational_kind(kind: &str) -> (r: bool)
    ensures
        r == is_informational(kind@),
{
    str_eq(kind, "response.content_part.added") || str_eq(kind, "response.content_part.done")
        || str_eq(kind, "response.output_text.done") || str_eq(
        kind,
        "response.output_text.annotation.added",
    ) || str_eq(kind, "response.reasoning_summary_part.added") || str_eq(
        kind,
        "response.reasoning_summary_part.done",
    ) || str_eq(kind, "response.reasoning_summary_text.delta") || str_eq(
        kind,
        "response.reasoning_summary_text.done",
    ) || str_eq(kind, "response.reasoning_text.delta") || str_eq(
        kind,
        "response.reasoning_text.done",
    ) || str_eq(kind, "response.refusal.delta") || str_eq(kind, "response.refusal.done")
}

impl OpenAiSseDecoder {
    /// Emits the shared terminal projection, overriding the stop reason when the upstream
    /// gave one.
    fn finish_response(&mut self, value: &JsonValue, reported_stop_reason: Option<&str>) -> (r: Result<(), GatewayError>)
        requires
            old(self).wf(),
        ensures
            final(self).residue() == old(self).residue(),
            final(self).taken() == old(self).taken(),
            match finish_step(old(self).model(), *value, match reported_stop_reason { Some(x) => Some(x@), None => None }) {
                Some(m) => r is Ok && final(self).model() == m && final(self).wf(),
                None => r == Err::<(), GatewayError>(spec_upstream_protocol_error()),
            },
    {
        let response = match value.get("response") {
            Some(v) => v,
            None => return Err(upstream_protocol_error()),
        };
        let decoded = match decode_usage(response.get("usage")) {
            Ok(u) => u,
            Err(e) => return Err(e),
        };
        let usage = project_usage_for_response(decoded, self.usage_projection);
        let (message_open, stop_reason) = match &self.lifecycle {
            SseLifecycle::Streaming(state) => {
                if !state.emitted_content || state.has_open_tool_call() {
                    return Err(upstream_protocol_error());
                }
                let stop = match reported_stop_reason {
                    Some(reason) => reason.to_owned(),
                    None => state.stop_reason().to_owned(),
                };
                (state.message_open, stop)
            },
            _ => return Err(upstream_protocol_error()),
        };
        if message_open {
            if let Err(e) = self.events.queue(CanonicalEvent::MessageEnd) {
                return Err(e);
            }
        }
        if let Some(u) = usage {
            if let Err(e) = self.events.queue(CanonicalEvent::UsageDelta { usage: u, is_final: true }) {
                return Err(e);
            }
        }
        if let Err(e) = self.events.queue(CanonicalEvent::ResponseEnd { stop_reason }) {
            return Err(e);
        }
        self.lifecycle = SseLifecycle::Finished;
        Ok(())
    }

    /// Dispatches one payload frame on its `type`.
    fn dispatch(&mut self, kind: &str, value: &JsonValue) -> (r: Result<(), GatewayError>)
        requires
            old(self).wf(),
        ensures
            final(self).residue() == old(self).residue(),
            final(self).taken() == old(self).taken(),
            match dispatch_step(old(self).model(), kind@, *value) {
                Some(m) => r is Ok && final(self).model() == m && final(self).wf(),
                None => r == Err::<(), GatewayError>(spec_upstream_protocol_error()),
            },
    {
        if str_eq(kind, "response.created") {
            self.consume_response_created(value)
        } else if informational_kind(kind) {
            // Informational frames carry no canonical semantics; they are ignored rather than
            // rejected, since rejecting them would truncate an otherwise healthy answer.
            Ok(())
        } else if str_eq(kind, "response.output_item.added") {
            self.consume_output_item_added(value)
        } else if str_eq(kind, "response.output_text.delta") {
            self.consume_output_text_delta(value)
        } else if str_eq(kind, "response.function_call_arguments.delta") {
            self.consume_function_arguments_delta(value)
        } else if str_eq(kind, "response.function_call_arguments.done") {
            self.consume_function_arguments_done(value)
        } else if str_eq(kind, "response.output_item.done") {
            self.consume_output_item_done(value)
        } else if str_eq(kind, "response.completed") {
            self.finish_response(value, None)
        } else if str_eq(kind, "response.incomplete") {
            // The Responses API reports an output-limit cutoff with this frame instead of
            // `response.completed`: it is an ordinary terminal frame.
            let reason = incomplete_stop_reason(value);
            self.finish_response(value, Some(reason))
        } else if str_eq(kind, "response.failed") {
            self.consume_response_failed()
        } else {
            Err(upstream_protocol_error())
        }
    }

    /// Decodes one complete SSE frame.
    pub fn consume_frame(&mut self, frame: &[u8]) -> (r: Result<(), GatewayError>)
        requires
            old(self).wf(),
        ensures
            final(self).residue() == old(self).residue(),
            final(self).taken() == old(self).taken(),
            match frame_step(old(self).model(), frame@) {
                Some(m) => r is Ok && final(self).model() == m && final(self).wf(),
                None => r == Err::<(), GatewayError>(spec_upstream_protocol_error()),
            },
    {
        reveal(frame_step);
        if !is_utf8(frame) {
            return Err(upstream_protocol_error());
        }
        let data = frame_data(frame);
        // Comments and keepalive frames carry no event payload. They must not alter the
        // canonical lifecycle, but each spends one unit of the progress-free run.
        if data.len() == 0 {
            return self.note_progress_free_frame();
        }
        match parse_json(data.as_slice()) {
            Some(value) => self.consume_payload(&value),
            None => Err(upstream_protocol_error()),
        }
    }

    /// Applies one parsed frame payload.
    pub fn consume_payload(&mut self, value: &JsonValue) -> (r: Result<(), GatewayError>)
        requires
            old(self).wf(),
        ensures
            final(self).residue() == old(self).residue(),
            final(self).taken() == old(self).taken(),
            match payload_step(old(self).model(), *value) {
                Some(m) => r is Ok && final(self).model() == m && final(self).wf(),
                None => r == Err::<(), GatewayError>(spec_upstream_protocol_error()),
            },
    {
        let kind = match required_string(value, "type") {
            Ok(k) => k,
            Err(e) => return Err(e),
        };
        // `response.in_progress` is the one payload frame that proves only relay liveness:
        // a wedged upstream can repeat it forever.
        if str_eq(kind.as_str(), "response.in_progress") {
            return self.note_progress_free_frame();
        }
        self.note_progress_frame();
        self.dispatch(kind.as_str(), value)
    }
}

impl OpenAiSseDecoder {
    /// Decodes buffered frames until one event is queued or no complete frame remains.
    pub fn drain_buffered_frames(&mut self) -> (r: Result<(), GatewayError>)
        requires
            old(self).wf(),
        ensures
            final(self).taken() == old(self).taken(),
            match drain_until_event(old(self).model(), old(self).residue()) {
                Some((m, rest)) => r is Ok && final(self).wf() && final(self).model() == m
                    && final(self).residue() == rest,
                None => r == Err::<(), GatewayError>(spec_upstream_protocol_error()),
            },
    {
        let ghost target = drain_until_event(self.model(), self.residue());
        while self.events.is_empty() && !self.lifecycle.is_finished()
            invariant
                self.wf(),
                self.taken() == old(self).taken(),
                drain_until_event(self.model(), self.residue()) == target,
                target == drain_until_event(old(self).model(), old(self).residue()),
            decreases self.residue().len(),
        {
            let ghost r0 = self.residue();
            let ghost m0 = self.model();
            assert(m0.p.len() == 0 && !(m0.life is Finished));
            let frame = match self.frames.take_frame() {
                Some(f) => f,
                None => {
                    assert(next_frame(r0) is None);
                    assert(drain_until_event(m0, r0) == Some((m0, r0)));
                    return Ok(());
                },
            };
            proof {
                lemma_next_frame_shorter(r0);
                assert(next_frame(r0) == Some((frame@, self.residue())));
            }
            if let Err(e) = self.consume_frame(frame.as_slice()) {
                assert(frame_step(m0, frame@) is None);
                assert(drain_until_event(m0, r0) is None);
                return Err(e);
            }
            assert(drain_until_event(m0, r0) == drain_until_event(self.model(), self.residue()));
        }
        Ok(())
    }
}

/// Decodes `body` pushed in chunks of `chunk_size` bytes (at least one), projecting usage
/// for `usage_projection`, and returns every event once the response finished.
///
/// Every returned sequence is a run of the canonical grammar.
pub fn decode_sse_events_with_usage_projection(
    body: &str,
    chunk_size: usize,
    usage_projection: P12ResponseUsageProjection,
) -> (r: Result<Vec<CanonicalEvent>, GatewayError>)
    ensures
        match decode_body(body.spec_bytes(), chunk_size as int, usage_projection) {
            Ok(events) => r matches Ok(v) && events_view(v@) == events,
            Err(e) => r == Err::<Vec<CanonicalEvent>, GatewayError>(e),
        },
        r matches Ok(v) ==> grammar_run(grammar_start(), events_view(v@)) is Some,
{
    let bytes = body.as_bytes();
    let size: usize = if chunk_size == 0 {
        1
    } else {
        chunk_size
    };
    let ghost b = bytes@;
    let ghost target = decode_body(b, chunk_size as int, usage_projection);
    let mut decoder = OpenAiSseDecoder::new(usage_projection);
    let mut events: Vec<CanonicalEvent> = Vec::new();
    let mut pos: usize = 0;
    proof {
        assert(events_view(events@) =~= Seq::<Event>::empty());
        assert(initial_model(usage_projection) == DecoderView { p: Seq::<Event>::empty() + initial_model(usage_projection).p, ..initial_model(usage_projection) });
    }
    while pos < bytes.len()
        invariant
            b == bytes@,
            b == body.spec_bytes(),
            size >= 1,
            size == (if chunk_size < 1 { 1 } else { chunk_size as int }),
            target == decode_body(b, chunk_size as int, usage_projection),
            0 <= pos <= bytes@.len(),
            decoder.wf(),
            decoder.model().p.len() == 0,
            decoder.taken() == events_view(events@),
            target == match decode_chunks(decoder.model(), decoder.residue(), b, pos as int, size as int) {
                Ok(p) => Ok::<Seq<Event>, GatewayError>(events_view(events@) + p),
                Err(e) => Err(e),
            },
        decreases bytes.len() - pos,
    {
        let end = if bytes.len() - pos > size {
            pos + size
        } else {
            bytes.len()
        };
        let chunk = vstd::slice::slice_subrange(bytes, pos, end);
        proof {
            assert(chunk@ == chunk_at(b, pos as int, size as int));
        }
        let ghost m0 = decoder.model();
        let ghost r0 = decoder.residue();
        if let Err(e) = decoder.push_chunk(chunk) {
            return Err(e);
        }
        loop
            invariant
                b == bytes@,
                b == body.spec_bytes(),
                size >= 1,
                size == (if chunk_size < 1 { 1 } else { chunk_size as int }),
                target == decode_body(b, chunk_size as int, usage_projection),
                decoder.wf(),
                pos < end <= bytes@.len(),
                decoder.taken() == events_view(events@),
                target == match after_push(decoder.model(), decoder.residue(), b, end as int, size as int) {
                    Ok(p) => Ok::<Seq<Event>, GatewayError>(events_view(events@) + p),
                    Err(e) => Err(e),
                },
            ensures
                decoder.wf(),
                decoder.model().p.len() == 0,
                decoder.taken() == events_view(events@),
                target == match decode_chunks(decoder.model(), decoder.residue(), b, end as int, size as int) {
                    Ok(p) => Ok::<Seq<Event>, GatewayError>(events_view(events@) + p),
                    Err(e) => Err(e),
                },
            decreases decoder.residue().len(), decoder.model().p.len(),
        {
            let ghost m1 = decoder.model();
            let ghost r1 = decoder.residue();
            let ghost before = events_view(events@);
            proof {
                lemma_drain_until_event(m1, r1);
                if m1.p.len() == 0 {
                    lemma_drain_split(m1, r1);
                }
            }
            if let Err(e) = decoder.drain_buffered_frames() {
                proof {
                    assert(drain_all(m1, r1) is None);
                }
                return Err(e);
            }
            let ghost m2 = decoder.model();
            let ghost r2 = decoder.residue();
            assert(after_push(m2, r2, b, end as int, size as int) == after_push(m1, r1, b, end as int, size as int));
            match decoder.take_event() {
                Some(event) => {
                    let ghost x = seq![event@];
                    proof {
                        let rest = DecoderView { p: m2.p.drop_first(), ..m2 };
                        assert(m2 == DecoderView { p: x + rest.p, ..rest }) by {
                            assert(m2.p =~= x + rest.p);
                        }
                        lemma_drain_all_prefix(rest, x, r2);
                        match drain_all(rest, r2) {
                            Some((m3, r3)) => {
                                lemma_decode_chunks_prefix(m3, x, r3, b, end as int, size as int);
                            },
                            None => {},
                        }
                        assert(decoder.model() == rest);
                        assert(after_push(m2, r2, b, end as int, size as int) == match after_push(rest, r2, b, end as int, size as int) {
                            Ok(p) => Ok::<Seq<Event>, GatewayError>(x + p),
                            Err(e) => Err(e),
                        });
                    }
                    events.push(event);
                    proof {
                        assert(events_view(events@) =~= before.push(event@));
                        assert(events_view(events@) =~= decoder.taken());
                        match after_push(decoder.model(), decoder.residue(), b, end as int, size as int) {
                            Ok(p) => {
                                assert(events_view(events@) + p =~= before + (x + p));
                            },
                            Err(e) => {},
                        }
                    }
                },
                None => {
                    proof {
                        assert(drain_all(m2, r2) == Some((m2, r2)));
                    }
                    break;
                },
            }
        }
        pos = end;
    }
    proof {
        decoder.lemma_wf();
        assert(decoder.taken() + decoder.model().p =~= decoder.taken());
    }
    if decoder.is_finished() {
        proof {
            assert(events_view(events@) + decoder.model().p =~= events_view(events@));
        }
        Ok(events)
    } else {
        Err(stream_truncated_error())
    }
}

/// Decodes `body` pushed in chunks of `chunk_size` bytes for an `OpenAI` Responses client.
pub fn decode_sse_events(body: &str, chunk_size: usize) -> (r: Result<Vec<CanonicalEvent>, GatewayError>)
    ensures
        match decode_body(body.spec_bytes(), chunk_size as int, P12ResponseUsageProjection::OpenAiResponses) {
            Ok(events) => r matches Ok(v) && events_view(v@) == events,
            Err(e) => r == Err::<Vec<CanonicalEvent>, GatewayError>(e),
        },
        r matches Ok(v) ==> grammar_run(grammar_start(), events_view(v@)) is Some,
{
    decode_sse_events_with_usage_projection(body, chunk_size, P12ResponseUsageProjection::OpenAiResponses)
}

/// The decoder state before any frame.
pub open spec fn initial_model(projection: P12ResponseUsageProjection) -> DecoderView {
    DecoderView {
        life: LifeView::AwaitingResponseStart,
        g: grammar_start(),
        p: Seq::empty(),
        progress_free: 0,
        progress_marks: 0,
        projection,
    }
}

} // verus!
