use gateway::composition::RuntimeCompositionError;
use gateway::deployment::deployment_endpoint_capabilities;
use gateway::endpoint::EndpointConfig;

fn widened_endpoint(suffix: &str, adapter_id: &str, api_format: &str) -> EndpointConfig {
    EndpointConfig {
        id: format!("p12-widened-endpoint-{suffix}"),
        upstream_id: format!("p12-widened-upstream-{suffix}"),
        adapter_id: adapter_id.to_owned(),
        api_format: api_format.to_owned(),
        base_url: format!("https://gateway-{suffix}.example.test:443/v1"),
        inference_path: "/responses".to_owned(),
        http_transport: true,
        enabled: true,
    }
}

fn widened_version(endpoint_b_adapter: &str, endpoint_b_api_format: &str) -> Vec<EndpointConfig> {
    vec![
        widened_endpoint("a", "openai-compatible.responses", "openai/responses"),
        widened_endpoint("b", endpoint_b_adapter, endpoint_b_api_format),
    ]
}

#[test]
fn deployment_compiler_profiles_only_stored_endpoints() {
    let empty = deployment_endpoint_capabilities(&Vec::new());
    assert!(matches!(&empty, Ok(entries) if entries.is_empty()));

    let stored = widened_version("openai-compatible.responses", "openai/responses");
    let entries = match deployment_endpoint_capabilities(&stored) {
        Ok(entries) => entries,
        Err(error) => panic!("view refused: {error:?}"),
    };
    assert_eq!(entries.len(), 2);
    assert_eq!(entries[0].endpoint_id, "p12-widened-endpoint-a");
    assert_eq!(entries[1].endpoint_id, "p12-widened-endpoint-b");
    for entry in &entries {
        let capabilities = entry.capabilities;
        assert!(capabilities.tools);
        assert!(capabilities.parallel_tools);
        assert!(capabilities.reasoning);
        assert!(capabilities.json_schema);
        assert!(capabilities.streaming);
        assert!(capabilities.responses_websocket);
        assert!(!capabilities.vision);
    }
}

#[test]
fn one_endpoint_identity_cannot_change_capability_profile_across_versions() {
    let mut rows = widened_version("openai-compatible.responses", "openai/responses");
    rows.extend(widened_version("anthropic-compatible.messages", "anthropic/messages"));
    assert_eq!(
        deployment_endpoint_capabilities(&rows).err(),
        Some(RuntimeCompositionError::Unavailable)
    );
}

#[test]
fn repeated_versions_with_one_profile_merge_into_one_ordered_view() {
    let mut rows = widened_version("openai-compatible.responses", "openai/responses");
    rows.reverse();
    rows.extend(widened_version("openai-compatible.responses", "openai/responses"));
    let entries = match deployment_endpoint_capabilities(&rows) {
        Ok(entries) => entries,
        Err(error) => panic!("view refused: {error:?}"),
    };
    let ids: Vec<&str> = entries.iter().map(|entry| entry.endpoint_id.as_str()).collect();
    assert_eq!(ids, vec!["p12-widened-endpoint-a", "p12-widened-endpoint-b"]);
}

#[test]
fn an_unknown_adapter_refuses_the_view() {
    let rows = widened_version("unknown.adapter", "openai/responses");
    assert_eq!(
        deployment_endpoint_capabilities(&rows).err(),
        Some(RuntimeCompositionError::Unavailable)
    );
}
