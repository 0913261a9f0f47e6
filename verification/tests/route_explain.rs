use gateway::recovery::{
    recovery_step_for_account, recovery_step_for_quota, recovery_ticket_expiry, AccountStatus,
    QuotaAvailability, QuotaRecoveryState, RecoveryStep,
};
use gateway::route_explain::{
    explain_route_candidates, management_price_evidence, management_route_explain_reason,
    route_explain_scope, BaseCandidate, CandidateReason, ExplainCandidate, ExplainedCandidate,
    HealthAvailability, PriceEvidence, ProjectedSelection,
};
use gateway::stage_ledger::ManagementRuntimeError;

fn candidate(id: &str, upstream: &str, hard_eligible: bool, publishable: bool) -> ExplainCandidate {
    ExplainCandidate {
        id: id.to_owned(),
        upstream_id: upstream.to_owned(),
        hard_eligible,
        publishable,
    }
}

fn explained(id: &str, reason: Option<&'static str>, price: &'static str) -> ExplainedCandidate {
    ExplainedCandidate {
        candidate_id: id.to_owned(),
        excluded_reason: reason,
        price_evidence: price,
    }
}

#[test]
fn the_first_scheduler_reason_names_the_exclusion() {
    assert_eq!(management_route_explain_reason(&vec![]), "no_eligible_credential");
    assert_eq!(
        management_route_explain_reason(&vec![
            CandidateReason::EndpointHealth(HealthAvailability::CoolingDown),
            CandidateReason::MissingCredentialPool,
        ]),
        "endpoint_cooldown"
    );
    assert_eq!(
        management_route_explain_reason(&vec![CandidateReason::EndpointHealth(
            HealthAvailability::CircuitOpen
        )]),
        "endpoint_circuit_open"
    );
    assert_eq!(
        management_route_explain_reason(&vec![CandidateReason::EndpointHealth(
            HealthAvailability::AccountForbidden
        )]),
        "endpoint_unavailable"
    );
    assert_eq!(
        management_route_explain_reason(&vec![CandidateReason::NotHardEligible]),
        "not_hard_eligible"
    );
    assert_eq!(management_price_evidence(PriceEvidence::Dominated), "dominated");
    assert_eq!(management_price_evidence(PriceEvidence::NotEvaluated), "not_evaluated");
}

#[test]
fn one_admitted_provider_scopes_the_explanation_and_two_are_ambiguous() {
    let one = vec![
        candidate("a", "p1", true, true),
        candidate("b", "p1", true, true),
        candidate("c", "p2", false, true),
    ];
    let scope = route_explain_scope(&one, None, true);
    assert_eq!(scope.admitted_candidate_ids, vec!["a".to_owned(), "b".to_owned()]);
    assert_eq!(scope.provider_count, 1);
    assert_eq!(scope.inferred_provider.as_deref(), Some("p1"));
    assert!(!scope.ambiguous);

    let two = vec![candidate("a", "p1", true, true), candidate("b", "p2", true, true)];
    let scope = route_explain_scope(&two, None, true);
    assert_eq!(scope.provider_count, 2);
    assert_eq!(scope.inferred_provider, None);
    assert!(scope.ambiguous);
    let scope = route_explain_scope(&two, Some("p2"), true);
    assert_eq!(scope.inferred_provider.as_deref(), Some("p2"));
    assert!(!scope.ambiguous);
    assert!(!route_explain_scope(&two, None, false).ambiguous);
}

#[test]
fn an_unscoped_explanation_selects_the_first_admitted_candidate() {
    let candidates = vec![
        candidate("blocked", "p1", false, true),
        candidate("bridgeless", "p1", true, false),
        candidate("first", "p1", true, true),
        candidate("second", "p1", true, true),
    ];
    let explained_candidates = explain_route_candidates(&candidates, None, false, false, None, None);
    assert_eq!(
        explained_candidates,
        vec![
            explained("blocked", Some("not_hard_eligible"), "disabled"),
            explained("bridgeless", Some("protocol_transform_unavailable"), "disabled"),
            explained("first", None, "disabled"),
            explained("second", Some("after_selected_candidate"), "disabled"),
        ]
    );
}

#[test]
fn a_projected_selection_carries_scheduler_reasons_and_price_evidence() {
    let candidates = vec![
        candidate("cool", "p1", true, true),
        candidate("chosen", "p1", true, true),
        candidate("later", "p1", true, true),
    ];
    let projected = ProjectedSelection {
        selected_candidate_id: Some("chosen".to_owned()),
        price_decisions: vec![
            ("chosen".to_owned(), PriceEvidence::Equal),
            ("chosen".to_owned(), PriceEvidence::Dominant),
            ("later".to_owned(), PriceEvidence::Dominated),
        ],
    };
    let bases = vec![BaseCandidate {
        candidate_id: "cool".to_owned(),
        eligible: false,
        reasons: vec![CandidateReason::EndpointHealth(HealthAvailability::CoolingDown)],
    }];
    let result = explain_route_candidates(&candidates, None, true, true, Some(&projected), Some(&bases));
    assert_eq!(
        result,
        vec![
            explained("cool", Some("endpoint_cooldown"), "not_evaluated"),
            explained("chosen", None, "dominant"),
            explained("later", Some("after_selected_candidate"), "dominated"),
        ]
    );
}

#[test]
fn provider_scoped_route_explain_requires_scope_for_multiple_providers() {
    let candidates = vec![candidate("a", "p1", true, true), candidate("b", "p2", true, true)];
    let result = explain_route_candidates(&candidates, None, true, false, None, None);
    assert_eq!(
        result,
        vec![
            explained("a", Some("provider_scope_required"), "disabled"),
            explained("b", Some("provider_scope_required"), "disabled"),
        ]
    );
    let projected = ProjectedSelection {
        selected_candidate_id: Some("b".to_owned()),
        price_decisions: vec![],
    };
    let result = explain_route_candidates(&candidates, Some("p2"), true, false, Some(&projected), None);
    assert_eq!(
        result,
        vec![
            explained("a", Some("provider_mismatch"), "disabled"),
            explained("b", None, "disabled"),
        ]
    );
}

#[test]
fn recovery_requests_follow_account_status_then_quota() {
    assert_eq!(
        recovery_step_for_account(AccountStatus::Forbidden, true),
        RecoveryStep::Respond(QuotaRecoveryState::Rejected)
    );
    assert_eq!(
        recovery_step_for_account(AccountStatus::Unauthorized, false),
        RecoveryStep::RecoverAccount
    );
    assert_eq!(
        recovery_step_for_account(AccountStatus::RecoveryInFlight, true),
        RecoveryStep::Respond(QuotaRecoveryState::ProbeScheduled)
    );
    assert_eq!(
        recovery_step_for_account(AccountStatus::Available, true),
        RecoveryStep::CheckQuota
    );
    assert_eq!(
        recovery_step_for_quota(QuotaAvailability::Available),
        RecoveryStep::Respond(QuotaRecoveryState::Rejected)
    );
    assert_eq!(
        recovery_step_for_quota(QuotaAvailability::Exhausted),
        RecoveryStep::Respond(QuotaRecoveryState::RecoveryRequired)
    );
    assert_eq!(
        recovery_step_for_quota(QuotaAvailability::RecoveryProbeInFlight),
        RecoveryStep::Respond(QuotaRecoveryState::ProbeScheduled)
    );
    assert_eq!(
        recovery_step_for_quota(QuotaAvailability::RecoveryRequired),
        RecoveryStep::CompleteDueProbe
    );
    assert_eq!(recovery_ticket_expiry(1_000), Ok(31_000));
    assert_eq!(
        recovery_ticket_expiry(i64::MAX - 1),
        Err(ManagementRuntimeError::Unavailable)
    );
}

#[test]
fn operator_quota_reset_recovers_a_due_binding_through_the_real_handle() {
    assert_eq!(
        recovery_step_for_account(AccountStatus::Available, false),
        RecoveryStep::CheckQuota
    );
    assert_eq!(
        recovery_step_for_quota(QuotaAvailability::Available),
        RecoveryStep::Respond(QuotaRecoveryState::Rejected)
    );
    assert_eq!(
        recovery_step_for_quota(QuotaAvailability::Exhausted),
        RecoveryStep::Respond(QuotaRecoveryState::RecoveryRequired)
    );
    assert_eq!(
        recovery_step_for_quota(QuotaAvailability::RecoveryRequired),
        RecoveryStep::CompleteDueProbe
    );
    assert_eq!(gateway::recovery::recovery_ticket_expiry(1_500), Ok(31_500));
}

#[test]
fn operator_endpoint_recovers_a_forbidden_account_with_explicit_evidence() {
    assert_eq!(
        recovery_step_for_account(AccountStatus::Forbidden, false),
        RecoveryStep::RecoverAccount
    );
    assert_eq!(gateway::recovery::recovery_ticket_expiry(1_000), Ok(31_000));
    assert_eq!(
        gateway::recovery::recovery_ticket_expiry(i64::MAX),
        Err(gateway::stage_ledger::ManagementRuntimeError::Unavailable)
    );
}

#[test]
fn route_explain_projects_protocol_registry_without_an_upstream_attempt() {
    let candidates = vec![
        candidate("p12-d3-anthropic", "p12-d3-upstream", true, false),
        candidate("p12-d3-openai", "p12-d3-upstream", true, true),
    ];
    let explained_candidates = explain_route_candidates(&candidates, None, false, false, None, None);
    assert_eq!(explained_candidates.len(), 2);
    assert_eq!(
        explained_candidates[0],
        explained("p12-d3-anthropic", Some("protocol_transform_unavailable"), "disabled")
    );
    assert_eq!(explained_candidates[1], explained("p12-d3-openai", None, "disabled"));
    let ledger = gateway::stage_ledger::AttemptStageLedger::new();
    assert_eq!(ledger.list_request_attempts(&"never-started".to_owned()), Ok(vec![]));
}
