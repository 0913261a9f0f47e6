use gateway::composition::{RuntimeCompositionError, RuntimeCompositionStage};
use gateway::config::{
    admit_p12_configuration, cached_client_capacity, has_native_grok_endpoint,
    has_p12_https_only_egress_shape, has_p12_unlisted_model_override, is_empty_capability_object,
    p12_candidate_override_is_admissible, validate_p12_credential_bindings,
    validate_p12_network_shape, validate_p12_required_resources, validate_p12_route_access_shape,
    AccessGroupConfig, AccessGroupRouteConfig, BindingConfig, ClientKeyConfig, ControlPlaneConfig,
    CredentialConfig, CredentialStatus, EgressPolicyConfig, ModelRouteConfig, PublicModelConfig,
    RedirectMode, RouteCandidateConfig, RoutePolicy, TransformMode, UpstreamConfig,
};
use gateway::endpoint::EndpointConfig;

fn egress_policy() -> EgressPolicyConfig {
    EgressPolicyConfig {
        id: "p12-egress".to_owned(),
        allowed_schemes_json: r#"["https"]"#.to_owned(),
        allowed_hosts_json: r#"["gateway.example.test"]"#.to_owned(),
        allowed_ports_json: "[443]".to_owned(),
        allowed_cidrs_json: "[]".to_owned(),
        redirect_mode: RedirectMode::Deny,
        max_redirects: 0,
    }
}

fn p12_configuration() -> ControlPlaneConfig {
    ControlPlaneConfig {
        version_id: "p12-runtime-config".to_owned(),
        version_active: true,
        egress_policies: vec![egress_policy()],
        upstreams: vec![UpstreamConfig {
            id: "p12-upstream".to_owned(),
            enabled: true,
            egress_policy_id: Some("p12-egress".to_owned()),
        }],
        endpoints: vec![EndpointConfig {
            id: "p12-endpoint".to_owned(),
            upstream_id: "p12-upstream".to_owned(),
            adapter_id: "openai-compatible.responses".to_owned(),
            api_format: "openai/responses".to_owned(),
            base_url: "https://gateway.example.test/v1".to_owned(),
            inference_path: "/responses".to_owned(),
            http_transport: true,
            enabled: true,
        }],
        credentials: vec![CredentialConfig {
            id: "p12-credential".to_owned(),
            upstream_id: "p12-upstream".to_owned(),
            kind: "bearer".to_owned(),
            status: CredentialStatus::Active,
        }],
        endpoint_credential_bindings: vec![BindingConfig {
            endpoint_id: "p12-endpoint".to_owned(),
            credential_id: "p12-credential".to_owned(),
            upstream_id: "p12-upstream".to_owned(),
            enabled: true,
            priority: 0,
            weight: 1,
            concurrency: 1,
        }],
        public_models: vec![PublicModelConfig {
            id: "p12-model".to_owned(),
            active: true,
            capabilities_json: "{}".to_owned(),
        }],
        model_routes: vec![ModelRouteConfig {
            id: "p12-route".to_owned(),
            public_model_id: "p12-model".to_owned(),
            policy: RoutePolicy::SmoothWeightedRoundRobin,
            max_attempts: 1,
            bootstrap_timeout_ms: 15_000,
        }],
        route_candidates: vec![RouteCandidateConfig {
            id: "p12-runtime-candidate".to_owned(),
            route_id: "p12-route".to_owned(),
            endpoint_id: "p12-endpoint".to_owned(),
            upstream_model: "p12-test-upstream-model".to_owned(),
            endpoint_bindings_scope: true,
            transform_mode: TransformMode::Canonical,
            enabled: true,
            priority: 0,
            weight: 1,
            capability_override_json: r#"{"allow_unlisted_model":true}"#.to_owned(),
        }],
        access_groups: vec![AccessGroupConfig {
            id: "p12-group".to_owned(),
            active: true,
            limits_json: "{}".to_owned(),
        }],
        access_group_routes: vec![AccessGroupRouteConfig {
            access_group_id: "p12-group".to_owned(),
            route_id: "p12-route".to_owned(),
            enabled: true,
        }],
        client_keys: vec![ClientKeyConfig {
            access_group_id: "p12-group".to_owned(),
            active: true,
        }],
        compatible_proxy_pools: Vec::new(),
        compatible_proxy_nodes: Vec::new(),
        compatible_egress_bindings: Vec::new(),
    }
}

#[test]
fn widened_egress_shape_requires_https_only_hosts_and_no_redirects() {
    let mut policy = egress_policy();
    assert!(has_p12_https_only_egress_shape(&policy));
    policy.allowed_hosts_json = r#"["gateway.example.test","other.example.test"]"#.to_owned();
    assert!(has_p12_https_only_egress_shape(&policy));
    policy.allowed_hosts_json = "[]".to_owned();
    assert!(!has_p12_https_only_egress_shape(&policy));
    policy.allowed_hosts_json = r#"["gateway.example.test"]"#.to_owned();
    policy.allowed_cidrs_json = r#"["127.0.0.0/8"]"#.to_owned();
    assert!(!has_p12_https_only_egress_shape(&policy));
    policy.allowed_cidrs_json = "[]".to_owned();
    policy.allowed_schemes_json = r#"["https","http"]"#.to_owned();
    assert!(!has_p12_https_only_egress_shape(&policy));
    policy.allowed_schemes_json = r#"["https"]"#.to_owned();
    policy.redirect_mode = RedirectMode::SameOrigin;
    policy.max_redirects = 1;
    assert!(!has_p12_https_only_egress_shape(&policy));
    assert!(has_p12_unlisted_model_override(r#"{"allow_unlisted_model":true}"#));
    assert!(!has_p12_unlisted_model_override(
        r#"{"allow_unlisted_model":true,"tools":true}"#
    ));
    assert!(p12_candidate_override_is_admissible(
        "grok.build.responses",
        r#"{"allow_unlisted_model":true,"reasoning":false}"#
    ));
    assert!(p12_candidate_override_is_admissible(
        "grok.console.responses",
        r#"{"allow_unlisted_model":true,"reasoning":false}"#
    ));
    assert!(p12_candidate_override_is_admissible(
        "openai-compatible.responses",
        r#"{"allow_unlisted_model":true,"reasoning":false}"#
    ));
    assert!(!p12_candidate_override_is_admissible(
        "grok.build.responses",
        r#"{"allow_unlisted_model":true,"reasoning":true}"#
    ));
}

#[test]
fn p12_composition_admits_normalized_codex_oauth_credentials() {
    let mut configuration = p12_configuration();
    configuration.credentials[0].kind = "oauth_json".to_owned();
    assert_eq!(validate_p12_credential_bindings(&configuration), Ok(()));

    configuration.credentials[0].kind = "foreign_json".to_owned();
    assert!(validate_p12_credential_bindings(&configuration).is_err());
}

#[test]
fn max_attempts_above_the_widened_bound_fails_admission_closed() {
    let mut configuration = p12_configuration();
    configuration.model_routes[0].max_attempts = 6;
    assert_eq!(
        admit_p12_configuration(&configuration, "p12-runtime-config"),
        Err(RuntimeCompositionError::Unavailable)
    );
    configuration.model_routes[0].max_attempts = 5;
    assert_eq!(admit_p12_configuration(&configuration, "p12-runtime-config"), Ok(()));
}

#[test]
fn the_reference_graph_passes_every_gate() {
    let configuration = p12_configuration();
    assert_eq!(validate_p12_required_resources(&configuration), Ok(()));
    assert_eq!(validate_p12_network_shape(&configuration), Ok(()));
    assert_eq!(validate_p12_credential_bindings(&configuration), Ok(()));
    assert_eq!(validate_p12_route_access_shape(&configuration), Ok(()));
    assert_eq!(admit_p12_configuration(&configuration, "p12-runtime-config"), Ok(()));
    assert_eq!(
        admit_p12_configuration(&configuration, "p12-other-config"),
        Err(RuntimeCompositionError::Stage(RuntimeCompositionStage::Snapshot))
    );
}

#[test]
fn a_native_grok_graph_reports_the_failing_stage() {
    let mut configuration = p12_configuration();
    configuration.endpoints[0].adapter_id = "grok.build.responses".to_owned();
    configuration.credentials.clear();
    configuration.endpoint_credential_bindings.clear();
    assert!(has_native_grok_endpoint(&configuration.endpoints));
    assert_eq!(validate_p12_required_resources(&configuration), Ok(()));
    configuration.public_models[0].capabilities_json = r#"{"tools":true}"#.to_owned();
    assert_eq!(
        admit_p12_configuration(&configuration, "p12-runtime-config"),
        Err(RuntimeCompositionError::Stage(RuntimeCompositionStage::RouteAccess))
    );
    configuration.version_active = false;
    assert_eq!(
        admit_p12_configuration(&configuration, "p12-runtime-config"),
        Err(RuntimeCompositionError::Stage(RuntimeCompositionStage::RequiredResources))
    );
}

#[test]
fn an_ordinary_graph_without_credentials_is_refused() {
    let mut configuration = p12_configuration();
    configuration.credentials.clear();
    assert_eq!(
        validate_p12_required_resources(&configuration),
        Err(RuntimeCompositionError::Unavailable)
    );
    assert_eq!(
        admit_p12_configuration(&configuration, "p12-runtime-config"),
        Err(RuntimeCompositionError::Unavailable)
    );
}

#[test]
fn the_network_gate_needs_known_enabled_upstreams_and_admitted_endpoints() {
    let mut configuration = p12_configuration();
    configuration.upstreams[0].egress_policy_id = Some("missing".to_owned());
    assert!(validate_p12_network_shape(&configuration).is_err());
    configuration.upstreams[0].egress_policy_id = None;
    assert!(validate_p12_network_shape(&configuration).is_err());

    let mut configuration = p12_configuration();
    configuration.upstreams[0].enabled = false;
    assert!(validate_p12_network_shape(&configuration).is_err());

    let mut configuration = p12_configuration();
    configuration.endpoints[0].upstream_id = "elsewhere".to_owned();
    assert!(validate_p12_network_shape(&configuration).is_err());

    let mut configuration = p12_configuration();
    configuration.endpoints[0].api_format = "anthropic/messages".to_owned();
    assert!(validate_p12_network_shape(&configuration).is_err());

    let mut configuration = p12_configuration();
    configuration.egress_policies[0].allowed_ports_json = r#"[70000]"#.to_owned();
    assert!(validate_p12_network_shape(&configuration).is_err());
}

#[test]
fn the_binding_gate_bounds_total_concurrency() {
    let mut configuration = p12_configuration();
    configuration.endpoint_credential_bindings[0].concurrency = 16;
    assert_eq!(validate_p12_credential_bindings(&configuration), Ok(()));
    configuration.endpoint_credential_bindings[0].concurrency = 17;
    assert!(validate_p12_credential_bindings(&configuration).is_err());

    let mut configuration = p12_configuration();
    let mut second = configuration.endpoint_credential_bindings[0].clone();
    second.concurrency = i64::MAX;
    configuration.endpoint_credential_bindings.push(second);
    assert!(validate_p12_credential_bindings(&configuration).is_err());

    let mut configuration = p12_configuration();
    configuration.endpoint_credential_bindings[0].upstream_id = "other".to_owned();
    assert!(validate_p12_credential_bindings(&configuration).is_err());

    let mut configuration = p12_configuration();
    configuration.endpoint_credential_bindings[0].credential_id = "missing".to_owned();
    assert!(validate_p12_credential_bindings(&configuration).is_err());

    let mut configuration = p12_configuration();
    configuration.credentials[0].status = CredentialStatus::Cooling;
    assert!(validate_p12_credential_bindings(&configuration).is_err());
}

#[test]
fn the_route_gate_checks_policy_budget_deadline_and_candidates() {
    let mut configuration = p12_configuration();
    configuration.model_routes[0].policy = RoutePolicy::RoundRobin;
    assert!(validate_p12_route_access_shape(&configuration).is_err());

    let mut configuration = p12_configuration();
    configuration.model_routes[0].bootstrap_timeout_ms = 15_001;
    assert!(validate_p12_route_access_shape(&configuration).is_err());
    configuration.model_routes[0].bootstrap_timeout_ms = 0;
    assert!(validate_p12_route_access_shape(&configuration).is_err());

    let mut configuration = p12_configuration();
    configuration.route_candidates[0].capability_override_json = "{}".to_owned();
    assert!(validate_p12_route_access_shape(&configuration).is_err());

    let mut configuration = p12_configuration();
    configuration.endpoints[0].adapter_id = "kiro.messages".to_owned();
    configuration.route_candidates[0].transform_mode = TransformMode::LosslessBridge;
    assert!(validate_p12_route_access_shape(&configuration).is_err());
    configuration.route_candidates[0].transform_mode = TransformMode::Canonical;
    assert_eq!(validate_p12_route_access_shape(&configuration), Ok(()));

    let mut configuration = p12_configuration();
    configuration.client_keys[0].access_group_id = "missing".to_owned();
    assert!(validate_p12_route_access_shape(&configuration).is_err());

    let mut configuration = p12_configuration();
    configuration.access_group_routes[0].enabled = false;
    assert!(validate_p12_route_access_shape(&configuration).is_err());
}

#[test]
fn capability_objects_must_be_empty_json_objects() {
    assert!(is_empty_capability_object("{}"));
    assert!(is_empty_capability_object(" { } "));
    assert!(!is_empty_capability_object("[]"));
    assert!(!is_empty_capability_object(r#"{"a":1}"#));
    assert!(!is_empty_capability_object("{"));
}

#[test]
fn the_client_cache_holds_two_profiles_per_endpoint() {
    assert_eq!(cached_client_capacity(0), 4);
    assert_eq!(cached_client_capacity(2), 4);
    assert_eq!(cached_client_capacity(3), 6);
    assert_eq!(cached_client_capacity(usize::MAX), usize::MAX);
}
