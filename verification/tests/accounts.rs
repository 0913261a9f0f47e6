use gateway::accounts::{
    native_provider_account_descriptors, ordinary_provider_account_descriptors,
    provider_account_models, AccountAuthStatus, AccountRuntimeStatus, DescriptorSource,
    NativeAccount, NativeAuthStatus, NativeBinding,
};
use gateway::composition::{GrokAccountProvider, RuntimeCompositionError, RuntimeCompositionStage};
use gateway::config::{
    AccessGroupConfig, AccessGroupRouteConfig, BindingConfig, ClientKeyConfig, ControlPlaneConfig,
    CredentialConfig, CredentialStatus, EgressPolicyConfig, ModelRouteConfig, PublicModelConfig,
    RedirectMode, RouteCandidateConfig, RoutePolicy, TransformMode, UpstreamConfig,
};
use gateway::endpoint::EndpointConfig;

fn egress_policy() -> EgressPolicyConfig {
    EgressPolicyConfig {
        id: "p12-egress".to_owned(),
        allowed_schemes_json: r#"["https"]"#.to_owned(),
        allowed_hosts_json: r#"["gateway.example.test"]"#.to_owned(),
        allowed_ports_json: "[443]".to_owned(),
        allowed_cidrs_json: "[]".to_owned(),
        redirect_mode: RedirectMode::Deny,
        max_redirects: 0,
    }
}

fn p12_configuration() -> ControlPlaneConfig {
    ControlPlaneConfig {
        version_id: "p12-runtime-config".to_owned(),
        version_active: true,
        egress_policies: vec![egress_policy()],
        upstreams: vec![UpstreamConfig {
            id: "p12-runtime-upstream".to_owned(),
            enabled: true,
            egress_policy_id: Some("p12-egress".to_owned()),
        }],
        endpoints: vec![EndpointConfig {
            id: "p12-krill-endpoint".to_owned(),
            upstream_id: "p12-runtime-upstream".to_owned(),
            adapter_id: "openai-compatible.responses".to_owned(),
            api_format: "openai/responses".to_owned(),
            base_url: "https://gateway.example.test/v1".to_owned(),
            inference_path: "/responses".to_owned(),
            http_transport: true,
            enabled: true,
        }],
        credentials: vec![CredentialConfig {
            id: "p12-credential".to_owned(),
            upstream_id: "p12-runtime-upstream".to_owned(),
            kind: "bearer".to_owned(),
            status: CredentialStatus::Active,
        }],
        endpoint_credential_bindings: vec![BindingConfig {
            endpoint_id: "p12-krill-endpoint".to_owned(),
            credential_id: "p12-credential".to_owned(),
            upstream_id: "p12-runtime-upstream".to_owned(),
            enabled: true,
            priority: 0,
            weight: 1,
            concurrency: 1,
        }],
        public_models: vec![PublicModelConfig {
            id: "p12-model".to_owned(),
            active: true,
            capabilities_json: "{}".to_owned(),
        }],
        model_routes: vec![ModelRouteConfig {
            id: "p12-route".to_owned(),
            public_model_id: "p12-model".to_owned(),
            policy: RoutePolicy::SmoothWeightedRoundRobin,
            max_attempts: 1,
            bootstrap_timeout_ms: 15_000,
        }],
        route_candidates: vec![RouteCandidateConfig {
            id: "p12-runtime-candidate".to_owned(),
            route_id: "p12-route".to_owned(),
            endpoint_id: "p12-krill-endpoint".to_owned(),
            upstream_model: "p12-test-upstream-model".to_owned(),
            endpoint_bindings_scope: true,
            transform_mode: TransformMode::Canonical,
            enabled: true,
            priority: 0,
            weight: 1,
            capability_override_json: r#"{"allow_unlisted_model":true}"#.to_owned(),
        }],
        access_groups: vec![AccessGroupConfig {
            id: "p12-group".to_owned(),
            active: true,
            limits_json: "{}".to_owned(),
        }],
        access_group_routes: vec![AccessGroupRouteConfig {
            access_group_id: "p12-group".to_owned(),
            route_id: "p12-route".to_owned(),
            enabled: true,
        }],
        client_keys: vec![ClientKeyConfig {
            access_group_id: "p12-group".to_owned(),
            active: true,
        }],
        compatible_proxy_pools: Vec::new(),
        compatible_proxy_nodes: Vec::new(),
        compatible_egress_bindings: Vec::new(),
    }
}

fn account(id: &str, auth_status: NativeAuthStatus, priority: i64) -> NativeAccount {
    NativeAccount {
        id: id.to_owned(),
        provider: GrokAccountProvider::Build,
        auth_status,
        enabled: true,
        priority,
        weight: 3,
        max_concurrency: 2,
        refresh_due_at_ms: Some(500),
        quota_sync_due_at_ms: Some(600),
    }
}

#[test]
fn native_grok_metadata_maps_to_the_configured_provider_channel_without_a_send() {
    let configuration = p12_configuration();
    let bindings = vec![NativeBinding {
        provider: GrokAccountProvider::Build,
        endpoint_id: configuration.endpoints[0].id.clone(),
    }];
    let mut reauth = account("native-build-reauth", NativeAuthStatus::ReauthRequired, 800);
    reauth.weight = 1;
    reauth.max_concurrency = 1;
    reauth.refresh_due_at_ms = None;
    reauth.quota_sync_due_at_ms = None;
    let accounts = vec![account("native-build-active", NativeAuthStatus::Active, -1_000), reauth];

    let rows = native_provider_account_descriptors(&configuration, &bindings, &accounts)
        .expect("native rows project");
    assert_eq!(rows.len(), 2);
    let active = rows.iter().find(|row| row.account_id == "native-build-active").expect("active row");
    assert_eq!(active.provider_id, "p12-runtime-upstream");
    assert_eq!(active.channel_id, "p12-krill-endpoint");
    assert_eq!(active.account_kind, "grok_build_oauth");
    assert_eq!(active.priority, 2_000);
    assert_eq!(active.weight, 3);
    assert_eq!(active.max_concurrency, 2);
    assert_eq!(active.upstream_models, ["p12-test-upstream-model"]);
    assert_eq!(active.runtime_status_hint, AccountRuntimeStatus::Available);
    assert_eq!(active.source, DescriptorSource::Native);
    let reauth = rows.iter().find(|row| row.account_id == "native-build-reauth").expect("reauth row");
    assert_eq!(reauth.auth_status, AccountAuthStatus::ReauthRequired);
    assert_eq!(reauth.runtime_status_hint, AccountRuntimeStatus::Unauthorized);
}

#[test]
fn unbound_families_are_skipped_and_a_family_bound_twice_fails() {
    let configuration = p12_configuration();
    let bindings = vec![NativeBinding {
        provider: GrokAccountProvider::Web,
        endpoint_id: configuration.endpoints[0].id.clone(),
    }];
    let accounts = vec![account("build", NativeAuthStatus::Active, 0)];
    assert_eq!(
        native_provider_account_descriptors(&configuration, &bindings, &accounts).map(|v| v.len()),
        Ok(0)
    );
    let doubled = vec![bindings[0].clone(), bindings[0].clone()];
    assert_eq!(
        native_provider_account_descriptors(&configuration, &doubled, &accounts),
        Err(RuntimeCompositionError::Stage(RuntimeCompositionStage::ProviderAccountPool))
    );
    let missing = vec![NativeBinding { provider: GrokAccountProvider::Build, endpoint_id: "gone".to_owned() }];
    assert_eq!(
        native_provider_account_descriptors(&configuration, &missing, &accounts),
        Err(RuntimeCompositionError::Stage(RuntimeCompositionStage::ProviderAccountPool))
    );
    let overflow = vec![account("build", NativeAuthStatus::Active, i64::MIN)];
    let bound = vec![NativeBinding {
        provider: GrokAccountProvider::Build,
        endpoint_id: configuration.endpoints[0].id.clone(),
    }];
    assert!(native_provider_account_descriptors(&configuration, &bound, &overflow).is_err());
}

#[test]
fn ordinary_bindings_project_their_credential_status() {
    let mut configuration = p12_configuration();
    let rows = ordinary_provider_account_descriptors(&configuration, &vec![]).expect("projects");
    assert_eq!(rows.len(), 1);
    let row = &rows[0];
    assert_eq!(row.source, DescriptorSource::Ordinary);
    assert_eq!(row.provider_id, "p12-runtime-upstream");
    assert_eq!(row.channel_id, "p12-krill-endpoint");
    assert_eq!(row.account_id, "p12-credential");
    assert_eq!(row.account_kind, "bearer");
    assert_eq!(row.auth_status, AccountAuthStatus::Active);
    assert_eq!(row.runtime_status_hint, AccountRuntimeStatus::Available);
    assert!(row.enabled);
    assert_eq!(row.upstream_models, ["p12-test-upstream-model"]);

    configuration.credentials[0].status = CredentialStatus::Disabled;
    let rows = ordinary_provider_account_descriptors(&configuration, &vec![]).expect("projects");
    assert_eq!(rows[0].auth_status, AccountAuthStatus::Disabled);
    assert!(!rows[0].enabled);

    let skipped = ordinary_provider_account_descriptors(
        &configuration,
        &vec!["p12-krill-endpoint".to_owned()],
    )
    .expect("projects");
    assert!(skipped.is_empty());

    configuration.endpoint_credential_bindings[0].weight = -1;
    assert_eq!(
        ordinary_provider_account_descriptors(&configuration, &vec![]),
        Err(RuntimeCompositionError::Stage(RuntimeCompositionStage::ProviderAccountPool))
    );
}

#[test]
fn channel_models_are_distinct_enabled_and_ordered() {
    let mut configuration = p12_configuration();
    let mut second = configuration.route_candidates[0].clone();
    second.upstream_model = "a-model".to_owned();
    let mut third = configuration.route_candidates[0].clone();
    third.upstream_model = "z-model".to_owned();
    third.enabled = false;
    let duplicate = configuration.route_candidates[0].clone();
    configuration.route_candidates.push(second);
    configuration.route_candidates.push(third);
    configuration.route_candidates.push(duplicate);
    assert_eq!(
        provider_account_models(&configuration.route_candidates, "p12-krill-endpoint"),
        ["a-model", "p12-test-upstream-model"]
    );
    assert!(provider_account_models(&configuration.route_candidates, "other").is_empty());
}
