use gateway::canonical::{CanonicalEvent, Usage};
use gateway::completed::{decode_json_events, decode_json_events_with_usage_projection};
use gateway::errors::{upstream_protocol_error, GatewayError};
use gateway::usage::P12ResponseUsageProjection;

fn decode(body: &str) -> Result<Vec<CanonicalEvent>, GatewayError> {
    decode_json_events(body.as_bytes())
}

#[test]
fn completed_non_streaming_function_call_is_a_valid_canonical_tool_lifecycle() {
    let events = decode(
        r#"{
          "id":"response-p12-tool",
          "status":"completed",
          "output":[{
            "type":"function_call",
            "call_id":"call-p12-tool",
            "name":"echo",
            "arguments":"{\"value\":\"ok\"}"
          }]
        }"#,
    )
    .expect("a completed tool call decodes");
    assert!(events.iter().any(|event| matches!(
        event,
        CanonicalEvent::ToolCallEnd { call_id, arguments }
            if call_id == "call-p12-tool" && arguments == r#"{"value":"ok"}"#
    )));
    assert!(matches!(
        events.last(),
        Some(CanonicalEvent::ResponseEnd { stop_reason }) if stop_reason == "tool_use"
    ));
}

#[test]
fn completed_non_streaming_response_seeds_anthropic_initial_usage_and_end_turn() {
    let events = decode(
        r#"{
          "id":"response-p12-anthropic-lifecycle",
          "status":"completed",
          "output":[{
            "id":"message-p12-anthropic-http",
            "type":"message",
            "role":"assistant",
            "status":"completed",
            "content":[{"type":"output_text","text":"ok"}]
          }],
          "usage":{
            "input_tokens":3,
            "output_tokens":5,
            "output_tokens_details":{"reasoning_tokens":2}
          }
        }"#,
    )
    .expect("a completed message decodes");
    let initial_usage_index = events
        .iter()
        .position(|event| {
            matches!(
                event,
                CanonicalEvent::UsageDelta { usage, is_final }
                    if !*is_final
                        && usage.input_tokens == Some(3)
                        && usage.output_tokens.is_none()
                        && usage.reasoning_tokens.is_none()
            )
        })
        .expect("missing input-only initial usage");
    let message_start_index = events
        .iter()
        .position(|event| matches!(event, CanonicalEvent::MessageStart { .. }))
        .expect("missing message start");
    let message_end_index = events
        .iter()
        .position(|event| matches!(event, CanonicalEvent::MessageEnd))
        .expect("missing message end");
    let final_usage_index = events
        .iter()
        .position(|event| {
            matches!(
                event,
                CanonicalEvent::UsageDelta { usage, is_final }
                    if *is_final
                        && usage.input_tokens == Some(3)
                        && usage.output_tokens == Some(5)
                        && usage.reasoning_tokens == Some(2)
            )
        })
        .expect("missing final usage");
    assert!(initial_usage_index < message_start_index);
    assert!(message_end_index < final_usage_index);
    assert!(matches!(
        events.last(),
        Some(CanonicalEvent::ResponseEnd { stop_reason }) if stop_reason == "end_turn"
    ));
}

#[test]
fn completed_non_streaming_response_ignores_internal_reasoning() {
    let events = decode(
        r#"{
          "id":"response-p12-reasoning",
          "status":"completed",
          "output":[
            {"type":"reasoning","summary":[]},
            {"type":"message","role":"assistant","content":[{"type":"output_text","text":"ok"}]}
          ]
        }"#,
    )
    .expect("reasoning items are skipped");
    assert!(events
        .iter()
        .any(|event| matches!(event, CanonicalEvent::TextDelta { text } if text == "ok")));
}

#[test]
fn a_completed_text_response_decodes_to_the_exact_event_sequence() {
    let events = decode(
        r#"{"id":"r1","status":"completed","output":[
            {"type":"message","role":"assistant","content":[
                {"type":"output_text","text":"a"},{"type":"output_text","text":"b"}]},
            {"type":"function_call","call_id":"c1","name":"f","arguments":"[]"}]}"#,
    )
    .expect("decodes");
    assert_eq!(
        events,
        vec![
            CanonicalEvent::ResponseStart { response_id: "r1".to_owned() },
            CanonicalEvent::MessageStart { role: "assistant".to_owned() },
            CanonicalEvent::TextDelta { text: "a".to_owned() },
            CanonicalEvent::TextDelta { text: "b".to_owned() },
            CanonicalEvent::ToolCallStart { call_id: "c1".to_owned(), name: "f".to_owned() },
            CanonicalEvent::ToolCallArgumentsDelta { call_id: "c1".to_owned(), delta: "[]".to_owned() },
            CanonicalEvent::ToolCallEnd { call_id: "c1".to_owned(), arguments: "[]".to_owned() },
            CanonicalEvent::MessageEnd,
            CanonicalEvent::ResponseEnd { stop_reason: "tool_use".to_owned() },
        ]
    );
}

#[test]
fn the_anthropic_projection_drops_only_what_messages_cannot_encode() {
    let body = r#"{"id":"r","status":"completed",
        "output":[{"type":"message","role":"assistant","content":[{"type":"output_text","text":"x"}]}],
        "usage":{"input_tokens":1,"output_tokens":2,"output_tokens_details":{"reasoning_tokens":1}}}"#;
    let events = decode_json_events_with_usage_projection(
        body.as_bytes(),
        P12ResponseUsageProjection::AnthropicMessages,
    )
    .expect("decodes");
    let final_usage = events.iter().find_map(|event| match event {
        CanonicalEvent::UsageDelta { usage, is_final: true } => Some(*usage),
        _ => None,
    });
    assert_eq!(
        final_usage,
        Some(Usage {
            input_tokens: Some(1),
            output_tokens: Some(2),
            reasoning_tokens: None,
            cached_tokens: None,
            cache_read_tokens: None,
            cache_creation_tokens: None,
        })
    );
}

#[test]
fn malformed_completed_bodies_are_protocol_errors() {
    let refused = [
        "not json",
        r#"{"status":"completed","output":[]}"#,
        r#"{"id":"","status":"completed","output":[{"type":"message","role":"assistant","content":[{"type":"output_text","text":"x"}]}]}"#,
        r#"{"id":"r","status":"in_progress","output":[{"type":"message","role":"assistant","content":[{"type":"output_text","text":"x"}]}]}"#,
        r#"{"id":"r","status":"completed","output":{}}"#,
        r#"{"id":"r","status":"completed","output":[]}"#,
        r#"{"id":"r","status":"completed","output":[{"type":"reasoning"}]}"#,
        r#"{"id":"r","status":"completed","output":[{"type":"image"}]}"#,
        r#"{"id":"r","status":"completed","output":[{"type":"message","role":"user","content":[{"type":"output_text","text":"x"}]}]}"#,
        r#"{"id":"r","status":"completed","output":[{"type":"message","role":"assistant","content":[{"type":"refusal","text":"x"}]}]}"#,
        r#"{"id":"r","status":"completed","output":[{"type":"message","role":"assistant","content":[{"type":"output_text","text":""}]}]}"#,
        r#"{"id":"r","status":"completed","output":[{"type":"function_call","call_id":"c","name":"f","arguments":"{"}]}"#,
        r#"{"id":"r","status":"completed","output":[
            {"type":"function_call","call_id":"c","name":"f","arguments":"{}"},
            {"type":"function_call","call_id":"c","name":"g","arguments":"{}"}]}"#,
        r#"{"id":"r","status":"completed","usage":{"input_tokens":-1},
            "output":[{"type":"message","role":"assistant","content":[{"type":"output_text","text":"x"}]}]}"#,
    ];
    for body in refused {
        assert_eq!(decode(body), Err(upstream_protocol_error()), "{body}");
    }
}
