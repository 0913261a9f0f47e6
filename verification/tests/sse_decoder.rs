use gateway::canonical::{is_complete_response, queue_event, CanonicalEvent, CanonicalEventState};
use gateway::errors::{ErrorScope, GatewayErrorCode};
use gateway::sse::decoder::{decode_sse_events, OpenAiSseDecoder, MAX_SSE_PROGRESS_FREE_FRAMES};
use gateway::sse::frame::MAX_SSE_FRAME_BYTES;
use gateway::sse::stream::{MAX_SSE_IDENTIFIER_BYTES, MAX_SSE_TOOL_CALLS};
use gateway::canonical::Usage;
use gateway::completed::decode_completed_response;
use gateway::json::JsonValue;
use gateway::sse::decoder::SseLifecycle;
use gateway::usage::{project_usage_events, P12ResponseUsageProjection};
use std::collections::VecDeque;

/// Renders one upstream SSE body from ordered `data`-only frames.
fn sse_stream_body<T: AsRef<str>>(frames: &[T]) -> String {
    let mut body = String::new();
    for frame in frames {
        body.push_str(&format!("data: {}\n\n", frame.as_ref()));
    }
    body
}

fn canonical_event_labels(events: &[CanonicalEvent]) -> Vec<&'static str> {
    events
        .iter()
        .map(|event| match event {
            CanonicalEvent::ResponseStart { .. } => "response_start",
            CanonicalEvent::MessageStart { .. } => "message_start",
            CanonicalEvent::TextDelta { .. } => "text_delta",
            CanonicalEvent::ToolCallStart { .. } => "tool_call_start",
            CanonicalEvent::ToolCallArgumentsDelta { .. } => "tool_call_arguments_delta",
            CanonicalEvent::ToolCallEnd { .. } => "tool_call_end",
            CanonicalEvent::UsageDelta { .. } => "usage_delta",
            CanonicalEvent::MessageEnd => "message_end",
            CanonicalEvent::ResponseEnd { .. } => "response_end",
            CanonicalEvent::StreamError { .. } => "stream_error",
        })
        .collect()
}

fn protocol_failure(body: &str) -> Option<(GatewayErrorCode, ErrorScope)> {
    decode_sse_events(body, body.len())
        .err()
        .map(|error| (error.code(), error.scope()))
}

/// One realistic streamed Responses body whose only visible output item is a Function Call.
fn p12_streamed_tool_body() -> String {
    sse_stream_body(&[
        r#"{"type":"response.created","response":{"id":"response-p12-stream-tool","usage":{"input_tokens":3}}}"#,
        r#"{"type":"response.in_progress","response":{"id":"response-p12-stream-tool"}}"#,
        r#"{"type":"response.output_item.added","output_index":0,"item":{"id":"fc-p12-stream","type":"function_call","call_id":"call-p12-stream","name":"echo","arguments":""}}"#,
        r#"{"type":"response.function_call_arguments.delta","item_id":"fc-p12-stream","output_index":0,"delta":"{\"value\":"}"#,
        r#"{"type":"response.function_call_arguments.delta","item_id":"fc-p12-stream","output_index":0,"delta":"\"ok\"}"}"#,
        r#"{"type":"response.function_call_arguments.done","item_id":"fc-p12-stream","output_index":0,"arguments":"{\"value\":\"ok\"}"}"#,
        r#"{"type":"response.output_item.done","output_index":0,"item":{"id":"fc-p12-stream","type":"function_call","call_id":"call-p12-stream","name":"echo","arguments":"{\"value\":\"ok\"}","status":"completed"}}"#,
        r#"{"type":"response.completed","response":{"id":"response-p12-stream-tool","status":"completed","usage":{"input_tokens":3,"output_tokens":5,"output_tokens_details":{"reasoning_tokens":2}}}}"#,
    ])
}

#[test]
fn streamed_function_call_emits_a_complete_canonical_tool_lifecycle() {
    let body = p12_streamed_tool_body();
    let events = decode_sse_events(&body, body.len()).unwrap();

    assert_eq!(
        canonical_event_labels(&events),
        vec![
            "response_start",
            "usage_delta",
            "message_start",
            "tool_call_start",
            "tool_call_arguments_delta",
            "tool_call_arguments_delta",
            "tool_call_end",
            "message_end",
            "usage_delta",
            "response_end",
        ]
    );
    assert!(events.iter().any(|event| matches!(
        event,
        CanonicalEvent::ToolCallStart { call_id, name }
            if call_id == "call-p12-stream" && name == "echo"
    )));
    assert!(events.iter().any(|event| matches!(
        event,
        CanonicalEvent::ToolCallEnd { call_id, arguments }
            if call_id == "call-p12-stream" && arguments == r#"{"value":"ok"}"#
    )));
    assert!(matches!(
        events.last(),
        Some(CanonicalEvent::ResponseEnd { stop_reason }) if stop_reason == "tool_use"
    ));
    assert!(is_complete_response(&events));
}

#[test]
fn streamed_text_then_function_call_stays_one_message_and_reports_tool_use() {
    let body = sse_stream_body(&[
        r#"{"type":"response.created","response":{"id":"response-p12-stream-mixed"}}"#,
        r#"{"type":"response.output_item.added","output_index":0,"item":{"id":"msg-p12","type":"message","role":"assistant","content":[]}}"#,
        r#"{"type":"response.content_part.added","item_id":"msg-p12","output_index":0}"#,
        r#"{"type":"response.output_text.delta","item_id":"msg-p12","output_index":0,"delta":"ok"}"#,
        r#"{"type":"response.output_text.done","item_id":"msg-p12","output_index":0}"#,
        r#"{"type":"response.content_part.done","item_id":"msg-p12","output_index":0}"#,
        r#"{"type":"response.output_item.done","output_index":0,"item":{"id":"msg-p12","type":"message","role":"assistant","status":"completed"}}"#,
        r#"{"type":"response.output_item.added","output_index":1,"item":{"id":"fc-p12","type":"function_call","call_id":"call-p12-mixed","name":"echo","arguments":""}}"#,
        r#"{"type":"response.function_call_arguments.delta","item_id":"fc-p12","output_index":1,"delta":"{\"value\":\"ok\"}"}"#,
        r#"{"type":"response.function_call_arguments.done","item_id":"fc-p12","output_index":1,"arguments":"{\"value\":\"ok\"}"}"#,
        r#"{"type":"response.output_item.done","output_index":1,"item":{"id":"fc-p12","type":"function_call","call_id":"call-p12-mixed","name":"echo","arguments":"{\"value\":\"ok\"}","status":"completed"}}"#,
        r#"{"type":"response.completed","response":{"id":"response-p12-stream-mixed","status":"completed","usage":{"input_tokens":3,"output_tokens":5}}}"#,
    ]);
    let events = decode_sse_events(&body, body.len()).unwrap();
    let labels = canonical_event_labels(&events);

    assert_eq!(labels.iter().filter(|label| **label == "message_start").count(), 1);
    assert_eq!(labels.iter().filter(|label| **label == "message_end").count(), 1);
    let text_index = labels.iter().position(|label| *label == "text_delta").unwrap();
    let tool_index = labels.iter().position(|label| *label == "tool_call_start").unwrap();
    let message_end_index = labels.iter().position(|label| *label == "message_end").unwrap();
    assert!(text_index < tool_index);
    assert!(tool_index < message_end_index);
    assert!(matches!(
        events.last(),
        Some(CanonicalEvent::ResponseEnd { stop_reason }) if stop_reason == "tool_use"
    ));
    assert!(is_complete_response(&events));
}

#[test]
fn streamed_parallel_function_calls_emit_two_independent_tool_lifecycles() {
    let body = sse_stream_body(&[
        r#"{"type":"response.created","response":{"id":"response-p12-stream-parallel"}}"#,
        r#"{"type":"response.output_item.added","output_index":0,"item":{"id":"fc-alpha","type":"function_call","call_id":"call-alpha","name":"first","arguments":""}}"#,
        r#"{"type":"response.output_item.added","output_index":1,"item":{"id":"fc-beta","type":"function_call","call_id":"call-beta","name":"second","arguments":""}}"#,
        r#"{"type":"response.function_call_arguments.delta","item_id":"fc-alpha","delta":"{\"x\":"}"#,
        r#"{"type":"response.function_call_arguments.delta","item_id":"fc-beta","delta":"{\"y\":"}"#,
        r#"{"type":"response.function_call_arguments.delta","item_id":"fc-alpha","delta":"1}"}"#,
        r#"{"type":"response.function_call_arguments.delta","item_id":"fc-beta","delta":"2}"}"#,
        r#"{"type":"response.function_call_arguments.done","item_id":"fc-alpha","arguments":"{\"x\":1}"}"#,
        r#"{"type":"response.function_call_arguments.done","item_id":"fc-beta","arguments":"{\"y\":2}"}"#,
        r#"{"type":"response.completed","response":{"id":"response-p12-stream-parallel","status":"completed","usage":{"input_tokens":3,"output_tokens":5}}}"#,
    ]);
    let events = decode_sse_events(&body, body.len()).unwrap();

    assert_eq!(
        events
            .iter()
            .filter_map(|event| match event {
                CanonicalEvent::ToolCallArgumentsDelta { call_id, .. } => Some(call_id.as_str()),
                _ => None,
            })
            .collect::<Vec<_>>(),
        vec!["call-alpha", "call-beta", "call-alpha", "call-beta"]
    );
    assert_eq!(
        events
            .iter()
            .filter_map(|event| match event {
                CanonicalEvent::ToolCallEnd { call_id, arguments } =>
                    Some((call_id.as_str(), arguments.as_str())),
                _ => None,
            })
            .collect::<Vec<_>>(),
        vec![("call-alpha", r#"{"x":1}"#), ("call-beta", r#"{"y":2}"#)]
    );
    assert_eq!(
        canonical_event_labels(&events)
            .iter()
            .filter(|label| **label == "message_start")
            .count(),
        1
    );
    assert!(matches!(
        events.last(),
        Some(CanonicalEvent::ResponseEnd { stop_reason }) if stop_reason == "tool_use"
    ));
    assert!(is_complete_response(&events));
}

#[test]
fn streamed_tool_arguments_are_independent_of_transport_chunk_boundaries() {
    // Mixed frame delimiters and interleaved comment frames force every resume path of the
    // scan cursor: a CRLF delimiter split across appends, several frames inside one chunk,
    // and no-event frames between event-bearing ones.
    let frames = [
        r#"{"type":"response.created","response":{"id":"response-p12-stream-chunks"}}"#,
        r#"{"type":"response.output_item.added","output_index":0,"item":{"id":"fc-chunks","type":"function_call","call_id":"call-chunks","name":"echo","arguments":""}}"#,
        r#"{"type":"response.function_call_arguments.delta","item_id":"fc-chunks","delta":"{\"value\":\"caf"}"#,
        r#"{"type":"response.function_call_arguments.delta","item_id":"fc-chunks","delta":"é\"}"}"#,
        r#"{"type":"response.function_call_arguments.done","item_id":"fc-chunks","arguments":"{\"value\":\"café\"}"}"#,
        r#"{"type":"response.completed","response":{"id":"response-p12-stream-chunks","status":"completed","usage":{"input_tokens":3,"output_tokens":5}}}"#,
    ];
    let mut body = String::new();
    for (index, frame) in frames.iter().enumerate() {
        let delimiter = if index % 2 == 0 { "\r\n\r\n" } else { "\n\n" };
        body.push_str(&format!("data: {frame}{delimiter}: keep-alive{delimiter}"));
    }
    let reference = decode_sse_events(&body, body.len()).unwrap();

    for chunk_size in [1, 3, 29] {
        assert_eq!(decode_sse_events(&body, chunk_size).unwrap(), reference);
    }
    assert!(reference.iter().any(|event| matches!(
        event,
        CanonicalEvent::ToolCallEnd { arguments, .. } if arguments == "{\"value\":\"café\"}"
    )));
    assert!(is_complete_response(&reference));
}

#[test]
fn streamed_tool_arguments_reported_only_by_the_item_completion_are_preserved() {
    // The dedicated arguments frame reports nothing; the item's own completion carries the
    // real string. Closing on the earlier frame would deliver a fabricated empty input.
    let body = sse_stream_body(&[
        r#"{"type":"response.created","response":{"id":"response-p12-late-args"}}"#,
        r#"{"type":"response.output_item.added","output_index":0,"item":{"id":"fc-late","type":"function_call","call_id":"call-late","name":"echo","arguments":""}}"#,
        r#"{"type":"response.function_call_arguments.done","item_id":"fc-late"}"#,
        r#"{"type":"response.output_item.done","output_index":0,"item":{"id":"fc-late","type":"function_call","call_id":"call-late","name":"echo","arguments":"{\"value\":\"ok\"}","status":"completed"}}"#,
        r#"{"type":"response.completed","response":{"id":"response-p12-late-args","status":"completed","usage":{"input_tokens":3,"output_tokens":5}}}"#,
    ]);
    let events = decode_sse_events(&body, 7).unwrap();

    assert!(events.iter().any(|event| matches!(
        event,
        CanonicalEvent::ToolCallEnd { call_id, arguments }
            if call_id == "call-late" && arguments == r#"{"value":"ok"}"#
    )));
    assert!(is_complete_response(&events));
}

#[test]
fn the_decoder_refuses_to_emit_an_illegal_canonical_sequence() {
    // A text delta before any output item opened would put a TextDelta ahead of MessageStart.
    let body = sse_stream_body(&[
        r#"{"type":"response.created","response":{"id":"response-p12-illegal"}}"#,
        r#"{"type":"response.output_text.delta","item_id":"msg-1","delta":"early"}"#,
    ]);
    assert_eq!(
        protocol_failure(&body),
        Some((GatewayErrorCode::UpstreamProtocolError, ErrorScope::Stream))
    );

    // Queueing a terminal ResponseEnd with no open response is refused by the same validator.
    let mut state = CanonicalEventState::default();
    let mut pending = VecDeque::new();
    assert!(queue_event(
        &mut state,
        &mut pending,
        CanonicalEvent::ResponseEnd { stop_reason: "end_turn".to_owned() },
    )
    .is_err());
    assert!(pending.is_empty());
}

#[test]
fn streamed_response_incomplete_terminates_with_the_reported_stop_reason() {
    let body = sse_stream_body(&[
        r#"{"type":"response.created","response":{"id":"response-p12-incomplete"}}"#,
        r#"{"type":"response.output_item.added","output_index":0,"item":{"id":"msg-1","type":"message","role":"assistant"}}"#,
        r#"{"type":"response.output_text.delta","item_id":"msg-1","delta":"partial"}"#,
        r#"{"type":"response.incomplete","response":{"id":"response-p12-incomplete","status":"incomplete","incomplete_details":{"reason":"max_output_tokens"},"usage":{"input_tokens":3,"output_tokens":5}}}"#,
    ]);
    let events = decode_sse_events(&body, 11).unwrap();

    let labels = canonical_event_labels(&events);
    assert_eq!(labels.first(), Some(&"response_start"));
    assert_eq!(labels.get(1), Some(&"message_start"));
    assert!(labels.ends_with(&["text_delta", "message_end", "usage_delta", "response_end"]));
    assert!(events.iter().any(|event| matches!(
        event,
        CanonicalEvent::ResponseEnd { stop_reason } if stop_reason == "max_tokens"
    )));
    assert!(is_complete_response(&events));
}

#[test]
fn streamed_informational_reasoning_frames_never_abort_a_healthy_stream() {
    let body = sse_stream_body(&[
        r#"{"type":"response.created","response":{"id":"response-p12-reasoning"}}"#,
        r#"{"type":"response.output_item.added","output_index":0,"item":{"id":"rs-1","type":"reasoning"}}"#,
        r#"{"type":"response.reasoning_summary_part.added","item_id":"rs-1","summary_index":0}"#,
        r#"{"type":"response.reasoning_summary_text.delta","item_id":"rs-1","delta":"thinking"}"#,
        r#"{"type":"response.reasoning_summary_text.done","item_id":"rs-1","text":"thinking"}"#,
        r#"{"type":"response.output_item.added","output_index":1,"item":{"id":"msg-1","type":"message","role":"assistant"}}"#,
        r#"{"type":"response.output_text.delta","item_id":"msg-1","delta":"visible"}"#,
        r#"{"type":"response.completed","response":{"id":"response-p12-reasoning","status":"completed","usage":{"input_tokens":3,"output_tokens":5}}}"#,
    ]);
    let events = decode_sse_events(&body, 13).unwrap();

    assert_eq!(
        canonical_event_labels(&events),
        vec![
            "response_start",
            "message_start",
            "text_delta",
            "message_end",
            "usage_delta",
            "response_end",
        ]
    );
    assert!(is_complete_response(&events));
}

#[test]
fn streamed_function_call_without_arguments_normalizes_the_empty_input() {
    let body = sse_stream_body(&[
        r#"{"type":"response.created","response":{"id":"response-p12-stream-empty"}}"#,
        r#"{"type":"response.output_item.added","output_index":0,"item":{"id":"fc-empty","type":"function_call","call_id":"call-empty","name":"enter_plan_mode","arguments":""}}"#,
        r#"{"type":"response.function_call_arguments.done","item_id":"fc-empty","arguments":""}"#,
        r#"{"type":"response.output_item.done","output_index":0,"item":{"id":"fc-empty","type":"function_call","call_id":"call-empty","name":"enter_plan_mode","arguments":"","status":"completed"}}"#,
        r#"{"type":"response.completed","response":{"id":"response-p12-stream-empty","status":"completed","usage":{"input_tokens":3,"output_tokens":5}}}"#,
    ]);
    let events = decode_sse_events(&body, 5).unwrap();

    assert_eq!(
        canonical_event_labels(&events),
        vec![
            "response_start",
            "message_start",
            "tool_call_start",
            "tool_call_end",
            "message_end",
            "usage_delta",
            "response_end",
        ]
    );
    assert!(events.iter().any(|event| matches!(
        event,
        CanonicalEvent::ToolCallEnd { call_id, arguments }
            if call_id == "call-empty" && arguments == "{}"
    )));
    assert!(is_complete_response(&events));
}

#[test]
fn streamed_text_only_response_ignores_reasoning_items_and_reports_end_turn() {
    let body = sse_stream_body(&[
        r#"{"type":"response.created","response":{"id":"response-p12-stream-text"}}"#,
        r#"{"type":"response.output_item.added","output_index":0,"item":{"id":"rsn-p12","type":"reasoning","summary":[]}}"#,
        r#"{"type":"response.output_item.added","output_index":1,"item":{"id":"msg-p12","type":"message","role":"assistant","content":[]}}"#,
        r#"{"type":"response.output_text.delta","item_id":"msg-p12","output_index":1,"delta":"ok"}"#,
        r#"{"type":"response.completed","response":{"id":"response-p12-stream-text","status":"completed","usage":{"input_tokens":3,"output_tokens":5}}}"#,
    ]);
    let events = decode_sse_events(&body, 11).unwrap();

    assert_eq!(
        canonical_event_labels(&events),
        vec![
            "response_start",
            "message_start",
            "text_delta",
            "message_end",
            "usage_delta",
            "response_end",
        ]
    );
    assert!(matches!(
        events.last(),
        Some(CanonicalEvent::ResponseEnd { stop_reason }) if stop_reason == "end_turn"
    ));
    assert!(is_complete_response(&events));
}

#[test]
fn streamed_tool_frames_reject_unknown_items_duplicate_calls_and_open_completion() {
    let created = r#"{"type":"response.created","response":{"id":"response-p12-stream-guard"}}"#;
    let added = r#"{"type":"response.output_item.added","output_index":0,"item":{"id":"fc-guard","type":"function_call","call_id":"call-guard","name":"echo","arguments":""}}"#;
    let unknown_item = sse_stream_body(&[
        created,
        added,
        r#"{"type":"response.function_call_arguments.delta","item_id":"fc-missing","delta":"{}"}"#,
    ]);
    let duplicate_call = sse_stream_body(&[
        created,
        added,
        r#"{"type":"response.output_item.added","output_index":1,"item":{"id":"fc-other","type":"function_call","call_id":"call-guard","name":"echo","arguments":""}}"#,
    ]);
    let open_completion = sse_stream_body(&[
        created,
        added,
        r#"{"type":"response.completed","response":{"id":"response-p12-stream-guard","status":"completed"}}"#,
    ]);
    let mut overflow = vec![created.to_owned()];
    for index in 0..=MAX_SSE_TOOL_CALLS {
        overflow.push(format!(
            r#"{{"type":"response.output_item.added","item":{{"id":"fc-{index}","type":"function_call","call_id":"call-{index}","name":"echo","arguments":""}}}}"#
        ));
    }
    let overflow = sse_stream_body(&overflow);

    for body in [unknown_item, duplicate_call, open_completion, overflow] {
        assert_eq!(
            protocol_failure(&body),
            Some((GatewayErrorCode::UpstreamProtocolError, ErrorScope::Stream))
        );
    }
}

#[test]
fn streamed_tool_identifiers_at_the_bound_decode_and_longer_ones_fail_closed() {
    let bounded_item_id = "i".repeat(MAX_SSE_IDENTIFIER_BYTES);
    let bounded_call_id = "c".repeat(MAX_SSE_IDENTIFIER_BYTES);
    let accepted = sse_stream_body(&[
        r#"{"type":"response.created","response":{"id":"response-p12-id-bound"}}"#.to_owned(),
        format!(
            r#"{{"type":"response.output_item.added","output_index":0,"item":{{"id":"{bounded_item_id}","type":"function_call","call_id":"{bounded_call_id}","name":"echo","arguments":""}}}}"#
        ),
        format!(
            r#"{{"type":"response.function_call_arguments.done","item_id":"{bounded_item_id}","arguments":"{{}}"}}"#
        ),
        r#"{"type":"response.completed","response":{"id":"response-p12-id-bound","status":"completed","usage":{"input_tokens":3,"output_tokens":5}}}"#.to_owned(),
    ]);
    let events = decode_sse_events(&accepted, 17).unwrap();
    assert!(events.iter().any(|event| matches!(
        event,
        CanonicalEvent::ToolCallEnd { call_id, .. } if *call_id == bounded_call_id
    )));

    let long_item_id = "i".repeat(MAX_SSE_IDENTIFIER_BYTES + 1);
    let long_call_id = "c".repeat(MAX_SSE_IDENTIFIER_BYTES + 1);
    let oversized_item = sse_stream_body(&[
        r#"{"type":"response.created","response":{"id":"response-p12-id-guard"}}"#.to_owned(),
        format!(
            r#"{{"type":"response.output_item.added","output_index":0,"item":{{"id":"{long_item_id}","type":"function_call","call_id":"call-short","name":"echo","arguments":""}}}}"#
        ),
    ]);
    let oversized_call = sse_stream_body(&[
        r#"{"type":"response.created","response":{"id":"response-p12-id-guard"}}"#.to_owned(),
        format!(
            r#"{{"type":"response.output_item.added","output_index":0,"item":{{"id":"fc-short","type":"function_call","call_id":"{long_call_id}","name":"echo","arguments":""}}}}"#
        ),
    ]);
    for body in [oversized_item, oversized_call] {
        assert_eq!(
            protocol_failure(&body),
            Some((GatewayErrorCode::UpstreamProtocolError, ErrorScope::Stream))
        );
    }
}

#[test]
fn a_pure_keepalive_stream_exhausts_the_progress_frame_budget_into_a_stream_error() {
    let mut frames = vec![
        r#"{"type":"response.created","response":{"id":"response-p12-wedged"}}"#.to_owned(),
        r#"{"type":"response.output_item.added","output_index":0,"item":{"id":"msg-wedged","type":"message","role":"assistant"}}"#.to_owned(),
        r#"{"type":"response.output_text.delta","item_id":"msg-wedged","delta":"ok"}"#.to_owned(),
    ];
    for _ in 0..=MAX_SSE_PROGRESS_FREE_FRAMES {
        frames.push(r#"{"type":"response.in_progress"}"#.to_owned());
    }
    let body = sse_stream_body(&frames);
    let reference = decode_sse_events(&body, body.len()).unwrap();

    assert_eq!(
        canonical_event_labels(&reference),
        vec!["response_start", "message_start", "text_delta", "stream_error"]
    );
    assert!(matches!(
        reference.last(),
        Some(CanonicalEvent::StreamError { error })
            if error.code() == GatewayErrorCode::ProviderTransient
                && error.scope() == ErrorScope::Provider
    ));
    // Transport segmentation must change neither when the budget expires nor what the
    // terminated stream emitted.
    for chunk_size in [7, 4096] {
        assert_eq!(decode_sse_events(&body, chunk_size).unwrap(), reference);
    }
}

#[test]
fn comment_only_keepalive_frames_spend_the_same_progress_budget() {
    let mut body = sse_stream_body(&[
        r#"{"type":"response.created","response":{"id":"response-p12-comment-wedged"}}"#,
        r#"{"type":"response.output_item.added","output_index":0,"item":{"id":"msg-cw","type":"message","role":"assistant"}}"#,
        r#"{"type":"response.output_text.delta","item_id":"msg-cw","delta":"ok"}"#,
    ]);
    for _ in 0..=MAX_SSE_PROGRESS_FREE_FRAMES {
        body.push_str(": keepalive\n\n");
    }
    let events = decode_sse_events(&body, 23).unwrap();

    assert!(matches!(
        events.last(),
        Some(CanonicalEvent::StreamError { error })
            if error.code() == GatewayErrorCode::ProviderTransient
    ));
}

#[test]
fn reasoning_summary_progress_refills_the_budget_between_keepalive_runs() {
    // Three runs of keepalives, each one frame short of tripping the budget, separated by
    // reasoning-summary deltas that still prove generation is advancing.
    let mut frames = vec![
        r#"{"type":"response.created","response":{"id":"response-p12-thinking"}}"#.to_owned(),
        r#"{"type":"response.output_item.added","output_index":0,"item":{"id":"rs-think","type":"reasoning"}}"#.to_owned(),
    ];
    for _ in 0..3 {
        for _ in 0..MAX_SSE_PROGRESS_FREE_FRAMES {
            frames.push(r#"{"type":"response.in_progress"}"#.to_owned());
        }
        frames.push(
            r#"{"type":"response.reasoning_summary_text.delta","item_id":"rs-think","delta":"…"}"#
                .to_owned(),
        );
    }
    frames.extend([
        r#"{"type":"response.output_item.added","output_index":1,"item":{"id":"msg-think","type":"message","role":"assistant"}}"#.to_owned(),
        r#"{"type":"response.output_text.delta","item_id":"msg-think","delta":"ok"}"#.to_owned(),
        r#"{"type":"response.completed","response":{"id":"response-p12-thinking","status":"completed","usage":{"input_tokens":3,"output_tokens":5}}}"#.to_owned(),
    ]);
    let body = sse_stream_body(&frames);
    let events = decode_sse_events(&body, 4096).unwrap();

    assert_eq!(
        canonical_event_labels(&events),
        vec![
            "response_start",
            "message_start",
            "text_delta",
            "message_end",
            "usage_delta",
            "response_end",
        ]
    );
    assert!(is_complete_response(&events));
}

#[test]
fn oversized_sse_frame_is_rejected_without_buffer_growth() {
    let mut decoder = OpenAiSseDecoder::new(P12ResponseUsageProjection::OpenAiResponses);
    decoder.push_chunk(&vec![b'x'; MAX_SSE_FRAME_BYTES]).unwrap();
    assert!(decoder.push_chunk(b"y").is_err());
    assert_eq!(decoder.held_len(), MAX_SSE_FRAME_BYTES);
}

#[test]
fn sse_frame_budget_counts_only_the_undecoded_residue() {
    const HALF_FRAME: usize = MAX_SSE_FRAME_BYTES / 2;

    let mut decoder = OpenAiSseDecoder::new(P12ResponseUsageProjection::OpenAiResponses);
    let mut first = b": keep-alive\n\n".to_vec();
    first.extend_from_slice(&vec![b'x'; HALF_FRAME]);
    decoder.push_chunk(&first).unwrap();
    // The comment frame decodes to nothing, leaving dead bytes ahead of a large open frame.
    decoder.drain_buffered_frames().unwrap();
    assert!(decoder.held_len() > decoder.residue_len());

    // A full frame bound of live bytes must still be admitted despite the decoded prefix...
    decoder.push_chunk(&vec![b'x'; MAX_SSE_FRAME_BYTES - HALF_FRAME]).unwrap();
    // ...while the first byte past the live bound is rejected and the buffer stays bounded.
    assert!(decoder.push_chunk(b"y").is_err());
    assert!(decoder.held_len() <= MAX_SSE_FRAME_BYTES * 2);
}

#[test]
fn a_body_that_ends_before_its_response_finishes_is_truncated() {
    let body = sse_stream_body(&[
        r#"{"type":"response.created","response":{"id":"response-cut"}}"#,
        r#"{"type":"response.output_item.added","output_index":0,"item":{"id":"msg-cut","type":"message","role":"assistant"}}"#,
    ]);
    assert_eq!(
        decode_sse_events(&body, 5).err().map(|error| (error.code(), error.scope())),
        Some((GatewayErrorCode::StreamTruncated, ErrorScope::Stream))
    );
    assert!(decode_sse_events("", 5).is_err());
}

#[test]
fn a_failed_response_ends_with_a_transient_stream_error() {
    let body = sse_stream_body(&[
        r#"{"type":"response.created","response":{"id":"response-failed"}}"#,
        r#"{"type":"response.failed","response":{"id":"response-failed"}}"#,
    ]);
    let events = decode_sse_events(&body, 3).unwrap();
    assert_eq!(canonical_event_labels(&events), vec!["response_start", "stream_error"]);

    let early = sse_stream_body(&[r#"{"type":"response.failed"}"#]);
    assert_eq!(
        protocol_failure(&early),
        Some((GatewayErrorCode::UpstreamProtocolError, ErrorScope::Stream))
    );
}

#[test]
fn content_filter_cutoffs_report_a_refusal_and_usage_is_projected_per_client() {
    let body = sse_stream_body(&[
        r#"{"type":"response.created","response":{"id":"r","usage":{"input_tokens":7,"output_tokens":1}}}"#,
        r#"{"type":"response.output_item.added","item":{"type":"message","role":"assistant"}}"#,
        r#"{"type":"response.output_text.delta","delta":"x"}"#,
        r#"{"type":"response.incomplete","response":{"incomplete_details":{"reason":"content_filter"},"usage":{"input_tokens":7,"output_tokens":2,"output_tokens_details":{"reasoning_tokens":1}}}}"#,
    ]);
    let events = decode_sse_events(&body, 64).unwrap();
    assert!(matches!(
        events.last(),
        Some(CanonicalEvent::ResponseEnd { stop_reason }) if stop_reason == "refusal"
    ));
    // The initial snapshot carries only the input-side counters.
    assert!(matches!(
        &events[1],
        CanonicalEvent::UsageDelta { usage, is_final: false }
            if usage.input_tokens == Some(7) && usage.output_tokens.is_none()
    ));
    let anthropic = gateway::sse::decoder::decode_sse_events_with_usage_projection(
        &body,
        64,
        P12ResponseUsageProjection::AnthropicMessages,
    )
    .unwrap();
    let final_usage = anthropic
        .iter()
        .find_map(|event| match event {
            CanonicalEvent::UsageDelta { usage, is_final: true } => Some(*usage),
            _ => None,
        })
        .unwrap();
    assert_eq!(final_usage.output_tokens, Some(2));
    assert_eq!(final_usage.reasoning_tokens, None);

    let malformed = sse_stream_body(&[
        r#"{"type":"response.created","response":{"id":"r","usage":{"input_tokens":"seven"}}}"#,
    ]);
    assert_eq!(
        protocol_failure(&malformed),
        Some((GatewayErrorCode::UpstreamProtocolError, ErrorScope::Stream))
    );
}

#[test]
fn frames_that_are_not_utf8_json_or_a_known_kind_are_refused() {
    for body in [
        "data: not json\n\n",
        "data: {\"type\":\"\"}\n\n",
        "data: {\"type\":\"response.unknown\"}\n\n",
    ] {
        assert_eq!(
            protocol_failure(body),
            Some((GatewayErrorCode::UpstreamProtocolError, ErrorScope::Stream))
        );
    }
    let mut decoder = OpenAiSseDecoder::new(P12ResponseUsageProjection::OpenAiResponses);
    assert!(decoder.consume_frame(b"data: {\"type\":\"response.created\"}\xff").is_err());
}

#[test]
fn usage_projection_narrows_only_usage_events() {
    let usage = Usage {
        input_tokens: Some(10),
        output_tokens: Some(5),
        reasoning_tokens: Some(2),
        cached_tokens: Some(3),
        cache_read_tokens: Some(4),
        cache_creation_tokens: Some(1),
    };
    let events = vec![
        CanonicalEvent::TextDelta {
            text: "hi".to_owned(),
        },
        CanonicalEvent::UsageDelta {
            usage,
            is_final: true,
        },
    ];
    let projected = project_usage_events(events, P12ResponseUsageProjection::AnthropicMessages);
    assert_eq!(projected.len(), 2);
    assert_eq!(
        projected[0],
        CanonicalEvent::TextDelta {
            text: "hi".to_owned()
        }
    );
    assert_eq!(
        projected[1],
        CanonicalEvent::UsageDelta {
            usage: Usage {
                reasoning_tokens: None,
                cached_tokens: None,
                ..usage
            },
            is_final: true,
        }
    );
    let projected = project_usage_events(
        vec![CanonicalEvent::UsageDelta {
            usage,
            is_final: false,
        }],
        P12ResponseUsageProjection::OpenAiResponses,
    );
    assert_eq!(
        projected,
        vec![CanonicalEvent::UsageDelta {
            usage: Usage {
                cache_read_tokens: None,
                cache_creation_tokens: None,
                ..usage
            },
            is_final: false,
        }]
    );
}

#[test]
fn only_a_streaming_lifecycle_exposes_its_state() {
    let mut waiting = SseLifecycle::AwaitingResponseStart;
    let error = waiting.streaming_state().err().map(|e| (e.code, e.scope));
    assert_eq!(
        error,
        Some((GatewayErrorCode::UpstreamProtocolError, ErrorScope::Stream))
    );
    let mut finished = SseLifecycle::Finished;
    assert!(finished.streaming_state().is_err());
}

fn object(members: Vec<(&str, JsonValue)>) -> JsonValue {
    JsonValue::Object(members.into_iter().map(|(k, v)| (k.to_owned(), v)).collect())
}

#[test]
fn parsed_payloads_decode_without_the_parser() {
    let mut decoder = OpenAiSseDecoder::new(P12ResponseUsageProjection::OpenAiResponses);
    let in_progress = object(vec![("type", JsonValue::Str("response.in_progress".to_owned()))]);
    assert!(decoder.consume_payload(&in_progress).is_ok());
    let unknown = object(vec![("type", JsonValue::Str("response.unknown".to_owned()))]);
    assert!(decoder.consume_payload(&unknown).is_err());
    let untyped = object(vec![]);
    assert!(OpenAiSseDecoder::new(P12ResponseUsageProjection::OpenAiResponses)
        .consume_payload(&untyped)
        .is_err());

    let unfinished = object(vec![
        ("id", JsonValue::Str("resp-1".to_owned())),
        ("status", JsonValue::Str("in_progress".to_owned())),
        ("output", JsonValue::Array(vec![])),
    ]);
    let error = decode_completed_response(&unfinished, P12ResponseUsageProjection::OpenAiResponses)
        .err()
        .map(|e| (e.code, e.scope));
    assert_eq!(
        error,
        Some((GatewayErrorCode::UpstreamProtocolError, ErrorScope::Stream))
    );
    let empty = object(vec![
        ("id", JsonValue::Str("resp-1".to_owned())),
        ("status", JsonValue::Str("completed".to_owned())),
        ("output", JsonValue::Array(vec![])),
    ]);
    assert!(decode_completed_response(&empty, P12ResponseUsageProjection::OpenAiResponses).is_err());
}
