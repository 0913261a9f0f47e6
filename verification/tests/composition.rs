use gateway::composition::{
    composed_endpoint_url, epoch_millis_as_i64, grok_account_kind, implemented_format,
    is_generic_compatible_adapter, native_grok_provider_for_adapter, p12_adapter_capabilities,
    p12_adapter_id_serves, resolve_adapter, system_now_ms_runtime, ApiFormat, CapabilitySet,
    GrokAccountProvider, RuntimeCompositionError, RuntimeCompositionStage, SemanticCapability,
};
use gateway::composition::SemanticCapability::{
    JsonSchema, ParallelTools, Reasoning, ResponseCompaction, ResponsesWebSocket, StoredResponses,
    Streaming, Tools, Vision,
};
use gateway::endpoint::{
    build_kiro_messages_adapter, kiro_policy_url, p12_kiro_endpoint_shape, probe_limit_extension,
    validate_endpoint_shape, EndpointAdapter, EndpointConfig, KiroEndpointKind,
    P12_ANTHROPIC_MAX_TOKENS_EXTENSION, P12_OPENAI_CHAT_MAX_TOKENS_EXTENSION,
    P12_OPENAI_MAX_OUTPUT_TOKENS_EXTENSION,
};

#[test]
fn production_adapter_capability_ledger_is_conservative_and_fail_closed() {
    let cases = [
        (
            "openai-compatible.chat-completions",
            vec![Tools, ParallelTools, JsonSchema, Streaming, ResponsesWebSocket],
        ),
        (
            "openai-compatible.responses",
            vec![Tools, ParallelTools, Reasoning, JsonSchema, Streaming, ResponsesWebSocket],
        ),
        (
            "anthropic-compatible.messages",
            vec![Tools, ParallelTools, Reasoning, JsonSchema, Streaming, ResponsesWebSocket],
        ),
        (
            "grok.build.responses",
            vec![
                Tools,
                Reasoning,
                JsonSchema,
                Streaming,
                ResponsesWebSocket,
                StoredResponses,
                ResponseCompaction,
            ],
        ),
        (
            "grok.console.responses",
            vec![Tools, Reasoning, JsonSchema, Streaming, ResponsesWebSocket],
        ),
        (
            "grok.official.responses",
            vec![Tools, ParallelTools, Reasoning, JsonSchema, Streaming, ResponsesWebSocket],
        ),
        (
            "grok.web.responses",
            vec![Streaming, ResponsesWebSocket, StoredResponses],
        ),
        (
            "kiro.messages",
            vec![Tools, Reasoning, JsonSchema, Streaming, ResponsesWebSocket],
        ),
    ];
    for (adapter, supported) in cases {
        let capabilities = p12_adapter_capabilities(adapter).expect("a bound adapter");
        for capability in [
            Tools,
            ParallelTools,
            Reasoning,
            JsonSchema,
            Vision,
            Streaming,
            ResponsesWebSocket,
            StoredResponses,
            ResponseCompaction,
        ] {
            assert_eq!(
                capabilities.supports(capability),
                supported.contains(&capability),
                "unexpected {capability:?} ledger value for {adapter}"
            );
        }
    }

    assert!(matches!(
        p12_adapter_capabilities("unknown.responses"),
        Err(RuntimeCompositionError::Unavailable)
    ));
}

#[test]
fn production_registry_composes_only_locally_passed_channel_pairs() {
    for (format, adapter) in [
        (ApiFormat::OpenAiChatCompletions, "openai-compatible.chat-completions"),
        (ApiFormat::OpenAiResponses, "openai-compatible.responses"),
        (ApiFormat::AnthropicMessages, "anthropic-compatible.messages"),
        (ApiFormat::OpenAiResponses, "grok.build.responses"),
        (ApiFormat::OpenAiResponses, "grok.console.responses"),
        (ApiFormat::OpenAiResponses, "grok.official.responses"),
        (ApiFormat::OpenAiResponses, "grok.web.responses"),
        (ApiFormat::AnthropicMessages, "kiro.messages"),
    ] {
        assert!(p12_adapter_id_serves(format, adapter));
        assert!(implemented_format(adapter).is_some());
        assert!(p12_adapter_capabilities(adapter).expect("a bound adapter") != CapabilitySet::empty());
    }
}

#[test]
fn the_p12_registry_binds_verified_provider_adapters() {
    assert!(resolve_adapter("anthropic/messages", "anthropic-compatible.messages").is_some());
    assert!(resolve_adapter("anthropic/messages", "kiro.messages").is_some());
    assert!(resolve_adapter("openai/responses", "openai-compatible.responses").is_some());
    assert!(resolve_adapter("openai/responses", "grok.build.responses").is_some());
    assert!(resolve_adapter("openai/responses", "grok.console.responses").is_some());
    assert!(resolve_adapter("openai/responses", "grok.official.responses").is_some());
    assert!(resolve_adapter("openai/responses", "grok.web.responses").is_some());
    assert!(resolve_adapter(
        "openai/chat-completions",
        "openai-compatible.chat-completions"
    )
    .is_some());
    assert!(resolve_adapter("openai/responses", "kiro.messages").is_none());
    assert!(resolve_adapter("kiro/messages", "kiro.messages").is_none());
    assert!(resolve_adapter("openai/responses", "openai-compatible.chat-completions").is_none());
}

fn endpoint(adapter_id: &str, api_format: &str, base_url: &str, inference_path: &str) -> EndpointConfig {
    EndpointConfig {
        id: "p12-shape-endpoint".to_owned(),
        upstream_id: "p12-shape-upstream".to_owned(),
        adapter_id: adapter_id.to_owned(),
        api_format: api_format.to_owned(),
        base_url: base_url.to_owned(),
        inference_path: inference_path.to_owned(),
        http_transport: true,
        enabled: true,
    }
}

#[test]
fn endpoint_shape_admission_requires_a_paired_adapter_and_serving_format() {
    let base = endpoint(
        "openai-compatible.responses",
        "openai/responses",
        "https://gateway.example.test/v1",
        "/responses",
    );
    assert_eq!(validate_endpoint_shape(&base), Ok(ApiFormat::OpenAiResponses));

    let mut chat = base.clone();
    chat.adapter_id = "openai-compatible.chat-completions".to_owned();
    chat.api_format = "openai/chat-completions".to_owned();
    chat.inference_path = "/chat/completions".to_owned();
    assert_eq!(validate_endpoint_shape(&chat), Ok(ApiFormat::OpenAiChatCompletions));

    let mut messages = base.clone();
    messages.adapter_id = "anthropic-compatible.messages".to_owned();
    messages.api_format = "anthropic/messages".to_owned();
    assert_eq!(validate_endpoint_shape(&messages), Ok(ApiFormat::AnthropicMessages));

    let mut unsupported = base.clone();
    unsupported.api_format = "openai_responses".to_owned();
    assert!(validate_endpoint_shape(&unsupported).is_err());

    let mut mismatched = base.clone();
    mismatched.api_format = "anthropic/messages".to_owned();
    assert!(validate_endpoint_shape(&mismatched).is_err());

    let mut swapped = messages.clone();
    swapped.adapter_id = "openai-compatible.responses".to_owned();
    assert!(validate_endpoint_shape(&swapped).is_err());

    let mut disabled = base.clone();
    disabled.enabled = false;
    assert!(validate_endpoint_shape(&disabled).is_err());

    let mut streamed = base.clone();
    streamed.http_transport = false;
    assert_eq!(
        validate_endpoint_shape(&streamed),
        Err(RuntimeCompositionError::Unavailable)
    );
}

#[test]
fn kiro_endpoint_shape_derives_its_kind_and_region_and_rejects_foreign_hosts() {
    let base = endpoint(
        "kiro.messages",
        "anthropic/messages",
        "https://runtime.us-east-1.kiro.dev",
        "/",
    );
    assert_eq!(validate_endpoint_shape(&base), Ok(ApiFormat::AnthropicMessages));

    let (kind, region) = p12_kiro_endpoint_shape(&base).expect("a CLI shape");
    assert_eq!(kind, KiroEndpointKind::Cli);
    assert_eq!(region.as_str(), "us-east-1");
    assert!(build_kiro_messages_adapter(&base).is_ok());

    let mut ide = base.clone();
    ide.base_url = "https://q.eu-west-1.amazonaws.com".to_owned();
    ide.inference_path = "/generateAssistantResponse".to_owned();
    let (kind, region) = p12_kiro_endpoint_shape(&ide).expect("an IDE shape");
    assert_eq!(kind, KiroEndpointKind::Ide);
    assert_eq!(region.as_str(), "eu-west-1");
    assert!(build_kiro_messages_adapter(&ide).is_ok());

    let mut foreign_host = base.clone();
    foreign_host.base_url = "https://attacker.example.test".to_owned();
    assert!(p12_kiro_endpoint_shape(&foreign_host).is_err());
    assert!(build_kiro_messages_adapter(&foreign_host).is_err());

    let mut crossed = base.clone();
    crossed.inference_path = "/generateAssistantResponse".to_owned();
    assert!(build_kiro_messages_adapter(&crossed).is_err());

    let mut extra_segment = base.clone();
    extra_segment.base_url = "https://runtime.us-east-1.kiro.dev/v1".to_owned();
    assert!(build_kiro_messages_adapter(&extra_segment).is_err());

    let mut plaintext = base.clone();
    plaintext.base_url = "http://runtime.us-east-1.kiro.dev".to_owned();
    assert!(p12_kiro_endpoint_shape(&plaintext).is_err());

    let mut unknown_path = base.clone();
    unknown_path.inference_path = "/v1/messages".to_owned();
    assert!(p12_kiro_endpoint_shape(&unknown_path).is_err());
}

#[test]
fn kiro_urls_are_derived_from_kind_and_region() {
    assert_eq!(
        kiro_policy_url(KiroEndpointKind::Cli, "us-east-1"),
        "https://runtime.us-east-1.kiro.dev"
    );
    assert_eq!(
        kiro_policy_url(KiroEndpointKind::Ide, "eu-west-1"),
        "https://q.eu-west-1.amazonaws.com/generateAssistantResponse"
    );
    let mut trailing = endpoint(
        "kiro.messages",
        "anthropic/messages",
        "https://runtime.us-east-1.kiro.dev//",
        "/",
    );
    assert!(build_kiro_messages_adapter(&trailing).is_ok());
    trailing.base_url = "https://runtime..kiro.dev".to_owned();
    assert!(p12_kiro_endpoint_shape(&trailing).is_err());
}

#[test]
fn composed_urls_drop_only_trailing_slashes_of_the_base() {
    assert_eq!(
        composed_endpoint_url("https://gateway.example.test/v1/", "/responses"),
        "https://gateway.example.test/v1/responses"
    );
    assert_eq!(
        composed_endpoint_url("https://gateway.example.test/v1", "/responses"),
        "https://gateway.example.test/v1/responses"
    );
    assert_eq!(composed_endpoint_url("///", ""), "");
}

#[test]
fn probe_limits_follow_the_binding_and_skip_the_codex_endpoint() {
    assert_eq!(
        probe_limit_extension(&EndpointAdapter::OpenAiChatCompletions {
            url: "https://gateway.example.test/v1/chat/completions".to_owned()
        }),
        Some(P12_OPENAI_CHAT_MAX_TOKENS_EXTENSION)
    );
    assert_eq!(
        probe_limit_extension(&EndpointAdapter::OpenAiResponses {
            url: "https://gateway.example.test/v1/responses".to_owned()
        }),
        Some(P12_OPENAI_MAX_OUTPUT_TOKENS_EXTENSION)
    );
    assert_eq!(
        probe_limit_extension(&EndpointAdapter::OpenAiResponses {
            url: "https://chatgpt.com/backend-api/codex/responses".to_owned()
        }),
        None
    );
    assert_eq!(
        probe_limit_extension(&EndpointAdapter::AnthropicMessages {
            url: "https://gateway.example.test/v1/messages".to_owned()
        }),
        Some(P12_ANTHROPIC_MAX_TOKENS_EXTENSION)
    );
    assert_eq!(probe_limit_extension(&EndpointAdapter::GrokWebResponses), None);
    let kiro = EndpointAdapter::KiroMessages {
        kind: KiroEndpointKind::Cli,
        region: "us-east-1".to_owned(),
    };
    assert_eq!(kiro.api_format(), ApiFormat::AnthropicMessages);
    assert_eq!(probe_limit_extension(&kiro), None);
}

#[test]
fn adapter_names_and_formats_parse_exactly() {
    assert_eq!(ApiFormat::parse("openai/responses"), Some(ApiFormat::OpenAiResponses));
    assert_eq!(ApiFormat::parse("OpenAI/Responses"), None);
    assert!(ApiFormat::AnthropicMessages.serves("kiro.messages"));
    assert!(!ApiFormat::OpenAiChatCompletions.serves("grok.web.responses"));
    assert!(is_generic_compatible_adapter("anthropic-compatible.messages"));
    assert!(!is_generic_compatible_adapter("kiro.messages"));
    assert_eq!(
        native_grok_provider_for_adapter("grok.build.responses"),
        Some(GrokAccountProvider::Build)
    );
    assert_eq!(native_grok_provider_for_adapter("openai-compatible.responses"), None);
    assert_eq!(grok_account_kind(GrokAccountProvider::Web), "grok_web_sso");
}

#[test]
fn composition_failures_render_only_their_stage() {
    assert_eq!(
        RuntimeCompositionError::Unavailable.message(),
        "P12 Staging runtime is unavailable"
    );
    let staged = RuntimeCompositionError::Stage(RuntimeCompositionStage::ControlPlane);
    assert_eq!(
        staged.message(),
        format!(
            "P12 Staging runtime is unavailable (stage={})",
            RuntimeCompositionStage::ControlPlane.label()
        )
    );
}

#[test]
fn the_clock_reads_epoch_milliseconds_within_i64() {
    let now = system_now_ms_runtime().expect("the clock is past the epoch");
    assert!(now > 1_600_000_000_000);
    assert_eq!(epoch_millis_as_i64(Some(42)), Ok(42));
    assert_eq!(epoch_millis_as_i64(Some(i64::MAX as u128)), Ok(i64::MAX));
    assert_eq!(
        epoch_millis_as_i64(Some(i64::MAX as u128 + 1)),
        Err(RuntimeCompositionError::Unavailable)
    );
    assert_eq!(epoch_millis_as_i64(None), Err(RuntimeCompositionError::Unavailable));
}

#[test]
fn a_stored_endpoint_names_its_native_grok_family_by_adapter() {
    let mut endpoint = endpoint(
        "grok.web.responses",
        "openai/responses",
        "https://grok.com",
        "/rest/app-chat/conversations/new",
    );
    assert_eq!(
        gateway::composition::native_grok_provider_for_endpoint(&endpoint),
        Some(GrokAccountProvider::Web)
    );
    endpoint.adapter_id = "grok.console.responses".to_owned();
    assert_eq!(
        gateway::composition::native_grok_provider_for_endpoint(&endpoint),
        Some(GrokAccountProvider::Console)
    );
    endpoint.adapter_id = "openai-compatible.responses".to_owned();
    assert_eq!(gateway::composition::native_grok_provider_for_endpoint(&endpoint), None);
}

#[test]
fn two_endpoint_graph_binds_each_endpoint_to_its_declared_format_adapter() {
    let a = endpoint(
        "openai-compatible.responses",
        "openai/responses",
        "https://gateway-a.example.test:443/v1",
        "/responses",
    );
    let b = endpoint(
        "anthropic-compatible.messages",
        "anthropic/messages",
        "https://gateway-b.example.test:443/v1",
        "/responses",
    );
    assert_eq!(validate_endpoint_shape(&a), Ok(ApiFormat::OpenAiResponses));
    assert_eq!(validate_endpoint_shape(&b), Ok(ApiFormat::AnthropicMessages));
    assert_eq!(
        resolve_adapter(&a.api_format, &a.adapter_id),
        Some(ApiFormat::OpenAiResponses)
    );
    assert_eq!(
        resolve_adapter(&b.api_format, &b.adapter_id),
        Some(ApiFormat::AnthropicMessages)
    );
}

#[test]
fn single_format_graph_still_composes_and_binds_only_the_openai_adapter() {
    for host in ["gateway-a", "gateway-b"] {
        let e = endpoint(
            "openai-compatible.responses",
            "openai/responses",
            &format!("https://{host}.example.test:443/v1"),
            "/responses",
        );
        assert_eq!(validate_endpoint_shape(&e), Ok(ApiFormat::OpenAiResponses));
        assert_eq!(
            resolve_adapter(&e.api_format, &e.adapter_id),
            Some(ApiFormat::OpenAiResponses)
        );
    }
}
