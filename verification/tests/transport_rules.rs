use gateway::errors::{ErrorScope, GatewayErrorCode};
use gateway::sse::decoder::{OpenAiSseDecoder, MAX_SSE_PROGRESS_FREE_FRAMES};
use gateway::sse::frame::MAX_UPSTREAM_RESPONSE_BYTES;
use gateway::transport::{
    append_error_body_chunk, append_response_chunk, classify_http_status,
    expected_content_type_matches, p12_attempt_start_timeout, p12_connect_timeout,
    p12_non_streaming_total_timeout, p12_openai_rejects_max_output_tokens,
    p12_streaming_idle_timeout, p12_streaming_progress_timeout, p12_streaming_total_timeout,
    p12_streaming_ttfb_timeout, p12_transport_headers, p12_transport_timeouts,
    retry_after_seconds, should_retry_without_max_output_tokens, HttpFailureProfile,
    ResponsesResponseMode, Span, StatusDisposition, MAX_PROVIDER_ERROR_BODY_BYTES,
    P12_BOOTSTRAP_TIMEOUT_MILLISECONDS, P12_KRILL_COMPATIBILITY_USER_AGENT,
};
use gateway::usage::P12ResponseUsageProjection;

fn nanos(span: Span) -> u128 {
    u128::from(span.secs) * 1_000_000_000 + u128::from(span.nanos)
}

#[test]
fn p12_transport_headers_preserve_standard_headers_and_add_only_the_verified_compatibility_header(
) {
    let headers = p12_transport_headers(
        "application/json",
        "Bearer fixture-credential",
        "application/json",
    );

    assert_eq!(
        headers,
        [
            ("accept".to_owned(), "application/json".to_owned()),
            (
                "authorization".to_owned(),
                "Bearer fixture-credential".to_owned(),
            ),
            ("content-type".to_owned(), "application/json".to_owned()),
            (
                "user-agent".to_owned(),
                P12_KRILL_COMPATIBILITY_USER_AGENT.to_owned(),
            ),
        ]
    );
}

#[test]
fn an_oversized_non_streaming_body_is_rejected_without_buffer_growth() {
    let mut body = vec![b'y'; MAX_UPSTREAM_RESPONSE_BYTES];
    assert!(append_response_chunk(&mut body, b"y").is_err());
    assert_eq!(body.len(), MAX_UPSTREAM_RESPONSE_BYTES);
}

#[test]
fn megabyte_scale_completions_fit_inside_the_streaming_and_non_streaming_bounds() {
    const ONE_MEBIBYTE: usize = 1024 * 1024;

    // `response.output_text.done` and `response.completed` each repeat the entire answer in
    // one frame, so a megabyte of buffered residue must not be a protocol failure.
    let mut decoder = OpenAiSseDecoder::new(P12ResponseUsageProjection::OpenAiResponses);
    decoder.push_chunk(&vec![b'x'; ONE_MEBIBYTE]).unwrap();
    decoder.push_chunk(b"tail").unwrap();
    assert_eq!(decoder.held_len(), ONE_MEBIBYTE + 4);

    let mut body = vec![b'y'; ONE_MEBIBYTE];
    append_response_chunk(&mut body, b"tail").unwrap();
    assert_eq!(body.len(), ONE_MEBIBYTE + 4);
}

#[test]
fn codex_missing_response_content_type_is_scoped_and_strict_when_present() {
    assert!(expected_content_type_matches(None, ResponsesResponseMode::Streaming, true));
    assert!(expected_content_type_matches(None, ResponsesResponseMode::NonStreaming, true));
    assert!(!expected_content_type_matches(None, ResponsesResponseMode::Streaming, false));
    assert!(!expected_content_type_matches(
        Some("application/json"),
        ResponsesResponseMode::Streaming,
        true
    ));
    assert!(expected_content_type_matches(
        Some("text/event-stream; charset=utf-8"),
        ResponsesResponseMode::Streaming,
        false
    ));
    assert!(expected_content_type_matches(
        Some("application/json; charset=utf-8"),
        ResponsesResponseMode::NonStreaming,
        false
    ));
}

#[test]
fn streaming_transport_outlives_a_long_completion_while_non_streaming_stays_short() {
    let streaming = p12_transport_timeouts(ResponsesResponseMode::Streaming);
    let non_streaming = p12_transport_timeouts(ResponsesResponseMode::NonStreaming);

    assert_eq!(streaming.connect, p12_connect_timeout());
    assert_eq!(streaming.ttfb, p12_streaming_ttfb_timeout());
    assert_eq!(streaming.idle, p12_streaming_idle_timeout());
    assert_eq!(streaming.total, p12_streaming_total_timeout());
    assert!(nanos(streaming.total) >= nanos(Span::from_secs(30 * 60)));
    assert!(nanos(p12_streaming_progress_timeout()) > nanos(streaming.idle));
    assert!(nanos(p12_streaming_progress_timeout()) >= nanos(Span::from_secs(10 * 60)));
    assert!(nanos(p12_streaming_progress_timeout()) < nanos(streaming.total));
    assert!(MAX_SSE_PROGRESS_FREE_FRAMES as u64 >= streaming.total.secs);
    assert!(nanos(streaming.idle) < nanos(streaming.total));

    assert_eq!(non_streaming.connect, p12_connect_timeout());
    assert_eq!(non_streaming.total, p12_non_streaming_total_timeout());
    assert!(nanos(non_streaming.total) < nanos(streaming.total));
    assert_eq!(non_streaming.ttfb, non_streaming.total);
    assert_eq!(non_streaming.idle, non_streaming.total);
    assert_ne!(streaming, non_streaming);
}

#[test]
fn non_streaming_attempts_extend_their_start_ceiling_to_the_transport_total() {
    let admitted_bootstrap = Span::from_millis(P12_BOOTSTRAP_TIMEOUT_MILLISECONDS as u64);

    assert_eq!(
        p12_attempt_start_timeout(ResponsesResponseMode::Streaming, admitted_bootstrap),
        admitted_bootstrap
    );
    let non_streaming =
        p12_attempt_start_timeout(ResponsesResponseMode::NonStreaming, admitted_bootstrap);
    assert_eq!(
        non_streaming,
        admitted_bootstrap.saturating_add(p12_non_streaming_total_timeout())
    );
    assert_eq!(nanos(non_streaming), 615 * 1_000_000_000);
    assert!(nanos(non_streaming) > nanos(admitted_bootstrap));
}

#[test]
fn span_arithmetic_carries_nanoseconds_and_saturates() {
    let a = Span { secs: 1, nanos: 600_000_000 };
    let b = Span { secs: 2, nanos: 700_000_000 };
    assert_eq!(a.saturating_add(b), Span { secs: 4, nanos: 300_000_000 });
    let max = Span { secs: u64::MAX, nanos: 999_999_999 };
    assert_eq!(max.saturating_add(Span::from_millis(1)), max);
    assert_eq!(Span::from_millis(1_500), Span { secs: 1, nanos: 500_000_000 });
    assert_eq!(
        p12_attempt_start_timeout(ResponsesResponseMode::NonStreaming, max),
        max
    );
}

#[test]
fn codex_field_rejection_is_recognized_only_for_the_bounded_signal() {
    assert!(p12_openai_rejects_max_output_tokens(
        br#"{"error":{"message":"Unsupported parameter: max_output_tokens"}}"#
    ));
    assert!(p12_openai_rejects_max_output_tokens(
        br#"{"detail":"Unknown field MAX_OUTPUT_TOKENS"}"#
    ));
    assert!(!p12_openai_rejects_max_output_tokens(
        br#"{"error":{"message":"max_output_tokens must be positive"}}"#
    ));
    assert!(!p12_openai_rejects_max_output_tokens(b"unsupported model"));
    assert!(!p12_openai_rejects_max_output_tokens(b""));
    assert!(p12_openai_rejects_max_output_tokens(
        b"\xff unknown \xfe max_output_tokens"
    ));
    assert!(should_retry_without_max_output_tokens(
        true,
        400,
        b"unknown max_output_tokens"
    ));
    assert!(!should_retry_without_max_output_tokens(
        false,
        400,
        b"unknown max_output_tokens"
    ));
    assert!(!should_retry_without_max_output_tokens(
        true,
        422,
        b"unknown max_output_tokens"
    ));
}

#[test]
fn reply_statuses_are_classified_before_their_bodies() {
    assert_eq!(classify_http_status(200, None), StatusDisposition::Proceed);
    assert_eq!(
        classify_http_status(204, Some(HttpFailureProfile::OpenAiCompatible)),
        StatusDisposition::Proceed
    );
    assert_eq!(
        classify_http_status(400, Some(HttpFailureProfile::OpenAiCompatible)),
        StatusDisposition::ClassifyOpenAiBody
    );
    assert_eq!(
        classify_http_status(503, Some(HttpFailureProfile::AnthropicCompatible)),
        StatusDisposition::ClassifyAnthropicBody
    );
    assert_eq!(classify_http_status(429, None), StatusDisposition::RateLimited);
    assert_eq!(classify_http_status(502, None), StatusDisposition::ServerError);
    match classify_http_status(404, None) {
        StatusDisposition::Permanent(error) => {
            assert_eq!(error.code(), GatewayErrorCode::ProviderPermanent);
            assert_eq!(error.scope(), ErrorScope::Provider);
        }
        other => panic!("unexpected disposition {other:?}"),
    }
}

#[test]
fn provider_error_bodies_past_their_bound_are_dropped_whole() {
    let mut body = Vec::new();
    assert!(append_error_body_chunk(&mut body, b"quota"));
    assert_eq!(body, b"quota".to_vec());
    let large = vec![b'x'; MAX_PROVIDER_ERROR_BODY_BYTES];
    assert!(!append_error_body_chunk(&mut body, &large));
    assert!(body.is_empty());
    assert!(append_error_body_chunk(&mut body, &large));
    assert_eq!(body.len(), MAX_PROVIDER_ERROR_BODY_BYTES);
}

#[test]
fn retry_after_reads_only_whole_seconds() {
    assert_eq!(retry_after_seconds(Some("30")), Some(30));
    assert_eq!(retry_after_seconds(Some("+7")), Some(7));
    assert_eq!(retry_after_seconds(Some("1.5")), None);
    assert_eq!(retry_after_seconds(Some("")), None);
    assert_eq!(retry_after_seconds(None), None);
}
