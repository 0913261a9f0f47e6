use gateway::attempt::{
    attempt_failure_for_action, candidate_format_agrees, codex_outbound_adjustments,
    codex_send_step, is_codex_oauth_attempt, p12_classify_grok_start_failure,
    p12_classify_kiro_start_failure, responses_reply_decoding, AttemptFailure, CodexSendStep,
    ReplyDecoding, RuntimeFailureAction, SendFailure,
};
use gateway::attempt::{routed_execution_plan, ContinuationPin, RoutedPlan};
use gateway::composition::ApiFormat;
use gateway::errors::route_not_found_error;
use gateway::endpoint::EndpointAdapter;
use gateway::errors::{
    internal_error, provider_transient_error, upstream_protocol_error, ErrorScope, GatewayError,
    GatewayErrorCode,
};
use gateway::request::{
    p12_kiro_request_projection, p12_openai_compatible_request, p12_response_usage_projection,
    p12_transport_request, OutboundRequest,
};
use gateway::transport::{ResponsesResponseMode, Span, P12_KRILL_COMPATIBILITY_USER_AGENT};
use gateway::usage::P12ResponseUsageProjection;

fn ext(pairs: &[(&str, &str)]) -> Vec<(String, String)> {
    pairs.iter().map(|(n, v)| (n.to_string(), v.to_string())).collect()
}

fn error(code: GatewayErrorCode) -> GatewayError {
    GatewayError { code, scope: ErrorScope::Provider }
}

#[test]
fn kiro_start_failures_preserve_exact_router_state_owners() {
    let unauthorized = GatewayError {
        code: GatewayErrorCode::CredentialUnauthorized,
        scope: ErrorScope::Credential,
    };
    assert!(matches!(
        p12_classify_kiro_start_failure(unauthorized),
        AttemptFailure::NonRetryable(error)
            if error.code() == GatewayErrorCode::CredentialUnauthorized
    ));

    let forbidden = GatewayError {
        code: GatewayErrorCode::CredentialForbidden,
        scope: ErrorScope::Account,
    };
    assert!(matches!(
        p12_classify_kiro_start_failure(forbidden),
        AttemptFailure::NonRetryable(error)
            if error.code() == GatewayErrorCode::CredentialForbidden
    ));

    for error in [
        GatewayError {
            code: GatewayErrorCode::CredentialQuotaExceeded,
            scope: ErrorScope::QuotaWindow,
        },
        GatewayError {
            code: GatewayErrorCode::ProviderRateLimited,
            scope: ErrorScope::Provider,
        },
    ] {
        assert!(matches!(
            p12_classify_kiro_start_failure(error),
            AttemptFailure::RateLimited { retry_after: None }
        ));
    }

    let transient = GatewayError {
        code: GatewayErrorCode::ProviderTransient,
        scope: ErrorScope::Provider,
    };
    assert!(matches!(
        p12_classify_kiro_start_failure(transient),
        AttemptFailure::Connection
    ));
    assert_eq!(
        p12_classify_kiro_start_failure(error(GatewayErrorCode::EgressUnavailable)),
        AttemptFailure::Connection
    );
}

#[test]
fn grok_start_failures_keep_transient_failures_retryable() {
    assert_eq!(
        p12_classify_grok_start_failure(provider_transient_error()),
        AttemptFailure::ServerError
    );
    assert_eq!(
        p12_classify_grok_start_failure(error(GatewayErrorCode::EgressUnavailable)),
        AttemptFailure::Connection
    );
    assert_eq!(
        p12_classify_grok_start_failure(internal_error()),
        AttemptFailure::NonRetryable(internal_error())
    );
}

#[test]
fn classified_provider_bodies_map_onto_retry_ownership() {
    let delay = Some(Span { secs: 7, nanos: 0 });
    let e = error(GatewayErrorCode::ProviderRateLimited);
    assert_eq!(
        attempt_failure_for_action(RuntimeFailureAction::RecordExactQuota, delay, e),
        AttemptFailure::RateLimited { retry_after: delay }
    );
    assert_eq!(
        attempt_failure_for_action(RuntimeFailureAction::CoolEndpoint, delay, e),
        AttemptFailure::ServerError
    );
    assert_eq!(
        attempt_failure_for_action(RuntimeFailureAction::RequireCredentialReauthorization, delay, e),
        AttemptFailure::NonRetryable(e)
    );
}

#[test]
fn the_codex_route_replays_once_without_the_rejected_field() {
    assert_eq!(
        codex_send_step(SendFailure::RetryWithoutMaxOutputTokens, true, false),
        CodexSendStep::RetryWithoutMaxOutputTokens
    );
    assert_eq!(
        codex_send_step(SendFailure::RetryWithoutMaxOutputTokens, true, true),
        CodexSendStep::Fail(AttemptFailure::NonRetryable(upstream_protocol_error()))
    );
    assert_eq!(
        codex_send_step(SendFailure::RetryWithoutMaxOutputTokens, false, false),
        CodexSendStep::Fail(AttemptFailure::NonRetryable(upstream_protocol_error()))
    );
    assert_eq!(
        codex_send_step(SendFailure::Attempt(AttemptFailure::ServerError), true, false),
        CodexSendStep::Fail(AttemptFailure::ServerError)
    );
    assert_eq!(
        SendFailure::RetryWithoutMaxOutputTokens.into_attempt(),
        AttemptFailure::NonRetryable(upstream_protocol_error())
    );
}

#[test]
fn only_the_bound_codex_url_is_the_codex_route() {
    let url = "https://chatgpt.com/backend-api/codex/responses";
    assert!(is_codex_oauth_attempt(url, true));
    assert!(!is_codex_oauth_attempt(url, false));
    assert!(!is_codex_oauth_attempt("https://gateway.example.test/v1/responses", true));
    let adjust = codex_outbound_adjustments(true, ResponsesResponseMode::NonStreaming);
    assert!(adjust.force_store_false && adjust.force_streaming);
    let adjust = codex_outbound_adjustments(true, ResponsesResponseMode::Streaming);
    assert!(adjust.force_store_false && !adjust.force_streaming);
    let adjust = codex_outbound_adjustments(false, ResponsesResponseMode::NonStreaming);
    assert!(!adjust.force_store_false && !adjust.force_streaming);
    assert_eq!(
        responses_reply_decoding(ResponsesResponseMode::NonStreaming, true),
        ReplyDecoding::EventStream
    );
    assert_eq!(
        responses_reply_decoding(ResponsesResponseMode::NonStreaming, false),
        ReplyDecoding::CompletedJson
    );
    assert_eq!(
        responses_reply_decoding(ResponsesResponseMode::Streaming, false),
        ReplyDecoding::EventStream
    );
}

#[test]
fn a_candidate_format_that_disagrees_with_its_bound_adapter_fails_the_attempt() {
    let adapter = EndpointAdapter::OpenAiResponses { url: "https://gateway.example.test/v1/responses".to_owned() };
    assert!(candidate_format_agrees(Some(ApiFormat::OpenAiResponses), &adapter));
    assert!(!candidate_format_agrees(Some(ApiFormat::AnthropicMessages), &adapter));
    assert!(!candidate_format_agrees(None, &adapter));

    let mut stages = gateway::stage_ledger::AttemptStageLedger::new();
    let request_id = "p12-format-guard-request".to_owned();
    let capabilities = gateway::composition::CapabilitySet::empty();
    assert_eq!(
        gateway::attempt::attempt_start_gate(
            &request_id,
            &mut stages,
            Some(&adapter),
            Some(ApiFormat::AnthropicMessages),
            gateway::config::TransformMode::Canonical,
            false,
            &capabilities,
        ),
        Err(AttemptFailure::NonRetryable(internal_error()))
    );
    assert_eq!(
        stages.recorded_stage(&request_id),
        Some(gateway::stage_ledger::ManagementRequestAttemptStage::RequestConversion)
    );
    assert_eq!(
        gateway::attempt::attempt_start_gate(
            &request_id,
            &mut stages,
            Some(&adapter),
            Some(ApiFormat::OpenAiResponses),
            gateway::config::TransformMode::Canonical,
            false,
            &capabilities,
        ),
        Ok(())
    );
}

#[test]
fn p12_maps_anthropic_canonical_max_tokens_to_bounded_openai_output_without_relaxing_foreign_extensions() {
    let openai = ext(&[]);
    assert_eq!(p12_openai_compatible_request(&openai), Ok(openai.clone()));
    assert_eq!(
        p12_response_usage_projection(&openai),
        P12ResponseUsageProjection::OpenAiResponses
    );

    let anthropic = ext(&[("anthropic.messages.max_tokens", "19")]);
    assert_eq!(
        p12_response_usage_projection(&anthropic),
        P12ResponseUsageProjection::AnthropicMessages
    );
    let translated = p12_openai_compatible_request(&anthropic).expect("translates");
    assert_eq!(translated, ext(&[("openai.responses.max_output_tokens", "19")]));

    let foreign = ext(&[
        ("anthropic.messages.max_tokens", "19"),
        ("anthropic.messages.metadata", r#"{"unmapped":true}"#),
    ]);
    // The foreign extension is kept, for the provider boundary to reject.
    assert_eq!(
        p12_openai_compatible_request(&foreign),
        Ok(ext(&[
            ("anthropic.messages.metadata", r#"{"unmapped":true}"#),
            ("openai.responses.max_output_tokens", "19"),
        ]))
    );
    for bad in ["0", "-1", "1.5", "\"19\"", "x"] {
        assert_eq!(
            p12_openai_compatible_request(&ext(&[("anthropic.messages.max_tokens", bad)])),
            Err(upstream_protocol_error())
        );
    }
    assert_eq!(
        p12_openai_compatible_request(&ext(&[
            ("anthropic.messages.max_tokens", "19"),
            ("openai.responses.max_output_tokens", "20"),
        ])),
        Err(upstream_protocol_error())
    );
}

#[test]
fn p12_kiro_drops_only_the_inexpressible_output_ceiling_and_keeps_every_other_extension() {
    let openai = ext(&[]);
    assert_eq!(p12_kiro_request_projection(&openai), openai);

    let anthropic = ext(&[
        ("anthropic.messages.max_tokens", "19"),
        ("anthropic.messages.metadata", "{}"),
    ]);
    let projected = p12_kiro_request_projection(&anthropic);
    assert!(!projected.iter().any(|(n, _)| n == "anthropic.messages.max_tokens"));
    let expected: Vec<(String, String)> = anthropic
        .iter()
        .filter(|(n, _)| n != "anthropic.messages.max_tokens")
        .cloned()
        .collect();
    assert_eq!(projected, expected);

    let mut foreign = anthropic.clone();
    foreign.push(("vendor.private.beta_feature".to_owned(), "true".to_owned()));
    let projected = p12_kiro_request_projection(&foreign);
    assert!(!projected.iter().any(|(n, _)| n == "anthropic.messages.max_tokens"));
    assert_eq!(
        projected
            .iter()
            .find(|(n, _)| n == "vendor.private.beta_feature")
            .map(|(_, v)| v.as_str()),
        Some("true")
    );
}

fn outbound() -> OutboundRequest {
    OutboundRequest {
        url: "https://gateway.example.test/v1/responses".to_owned(),
        accept: Some("text/event-stream".to_owned()),
        authorization: Some("Bearer p12-test-bearer".to_owned()),
        content_type: Some("application/json".to_owned()),
        body: b"{\"model\":\"m\"}".to_vec(),
    }
}

#[test]
fn p12_transport_request_preserves_the_admitted_target_body_and_method() {
    let outbound = outbound();
    let request = p12_transport_request(&outbound, &outbound.url, false, None).expect("admitted");
    assert_eq!(request.body, outbound.body);
    assert_eq!(request.url, outbound.url);
    assert_eq!(
        request.headers.iter().find(|(n, _)| n == "user-agent").map(|(_, v)| v.as_str()),
        Some(P12_KRILL_COMPATIBILITY_USER_AGENT)
    );
    assert_eq!(request.headers.len(), 4);
    let mismatched = p12_transport_request(
        &outbound,
        "https://gateway.example.test/v1/not-responses",
        false,
        None,
    );
    assert_eq!(mismatched.err().map(|e| e.code), Some(GatewayErrorCode::EgressRejected));
}

#[test]
fn the_codex_route_adds_its_account_binding_headers() {
    let outbound = outbound();
    let request = p12_transport_request(&outbound, &outbound.url, true, Some("acct-1")).expect("admitted");
    let names: Vec<&str> = request.headers.iter().map(|(n, _)| n.as_str()).collect();
    assert_eq!(
        names,
        [
            "accept",
            "authorization",
            "content-type",
            "user-agent",
            "chatgpt-account-id",
            "openai-beta",
            "originator",
            "version"
        ]
    );
    assert_eq!(request.headers[4].1, "acct-1");
    assert_eq!(
        p12_transport_request(&outbound, &outbound.url, true, None).err().map(|e| e.code),
        Some(GatewayErrorCode::CredentialUnavailable)
    );
    let mut headless = outbound.clone();
    headless.authorization = None;
    assert_eq!(
        p12_transport_request(&headless, &headless.url, false, None),
        Err(internal_error())
    );
}

#[test]
fn a_routed_request_starts_only_on_its_own_generation_and_route() {
    let fresh = RoutedPlan {
        exact_continuation: false,
        allow_compatibility_retry: true,
        allow_egress_refresh: true,
    };
    assert_eq!(routed_execution_plan(true, "v1", "v1", Some("r"), None), Ok(fresh));
    assert_eq!(
        routed_execution_plan(false, "v1", "v1", Some("r"), None),
        Err(internal_error())
    );
    assert_eq!(
        routed_execution_plan(true, "v2", "v1", Some("r"), None),
        Err(internal_error())
    );
    assert_eq!(
        routed_execution_plan(true, "v1", "v1", None, None),
        Err(route_not_found_error())
    );
    let pin = ContinuationPin { snapshot_version: "v1".to_owned(), route_id: "r".to_owned() };
    assert_eq!(
        routed_execution_plan(true, "v1", "v1", Some("r"), Some(&pin)),
        Ok(RoutedPlan {
            exact_continuation: true,
            allow_compatibility_retry: false,
            allow_egress_refresh: false,
        })
    );
    assert_eq!(
        routed_execution_plan(true, "v1", "v1", Some("other"), Some(&pin)),
        Err(internal_error())
    );
}

#[test]
fn provider_specific_endpoints_take_only_canonical_transforms_and_websocket_needs_support() {
    let mut capabilities = gateway::composition::CapabilitySet::empty();
    let grok = EndpointAdapter::GrokBuildResponses;
    let generic = EndpointAdapter::OpenAiResponses {
        url: "https://gateway.example.test/v1/responses".to_owned(),
    };
    assert_eq!(
        gateway::attempt::candidate_projection_gate(
            &grok,
            gateway::config::TransformMode::LosslessBridge,
            false,
            &capabilities
        ),
        Err(gateway::attempt::ProjectionRefusal::PairUnregistered)
    );
    assert_eq!(
        gateway::attempt::candidate_projection_gate(
            &grok,
            gateway::config::TransformMode::CanonicalBridge,
            false,
            &capabilities
        ),
        Ok(())
    );
    assert_eq!(
        gateway::attempt::candidate_projection_gate(
            &generic,
            gateway::config::TransformMode::LosslessBridge,
            true,
            &capabilities
        ),
        Err(gateway::attempt::ProjectionRefusal::ResponsesWebSocketUnsupported)
    );
    capabilities.responses_websocket = true;
    assert_eq!(
        gateway::attempt::candidate_projection_gate(
            &generic,
            gateway::config::TransformMode::LosslessBridge,
            true,
            &capabilities
        ),
        Ok(())
    );
}

#[test]
fn an_attempt_reads_the_clock_in_non_negative_epoch_milliseconds() {
    match gateway::attempt::system_now_ms() {
        Ok(ms) => assert!(ms > 1_600_000_000_000),
        Err(failure) => panic!("clock unavailable: {failure:?}"),
    }
}
