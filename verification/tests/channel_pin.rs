use gateway::pin_plan::{channel_pin_receipt, plan_channel_pin, PinEnd, PinRequest, PinSnapshot};
use gateway::channel_pin::{
    channel_pin_request_id, channel_pin_start_failure_outcome, draw_boot_nonce, next_in_flight,
    ChannelPinAdmission, ChannelPinIds, ManagementChannelPinError, ManagementChannelPinOutcome,
    P13ChannelPinObservation, P13_CHANNEL_PIN_MAX_IN_FLIGHT,
};
use gateway::channel_pin::{
    channel_pin_response_mode, channel_pin_usage_projection, select_pinned_candidate,
    ManagementChannelPinMode, ManagementRequestProtocol, PinCandidate,
};
use gateway::canonical::CanonicalEvent;
use gateway::channel_pin::{
    channel_pin_deadline_expired, channel_pin_snapshot_matches, channel_pin_source_failure,
    channel_pin_upstream_sent, ChannelPinDrain, DrainStep,
};
use gateway::endpoint::{channel_pin_single_transport_adapter, EndpointAdapter};
use gateway::errors::upstream_protocol_error;
use gateway::stage_ledger::ManagementRequestAttemptStage;
use gateway::transport::ResponsesResponseMode;
use gateway::usage::P12ResponseUsageProjection;

#[test]
fn channel_pin_admission_is_bounded_and_releases_on_drop() {
    let mut admission = ChannelPinAdmission::new();
    assert!(admission.try_acquire().is_ok());
    assert!(admission.try_acquire().is_ok());
    assert_eq!(admission.in_flight(), P13_CHANNEL_PIN_MAX_IN_FLIGHT);
    assert_eq!(
        admission.try_acquire(),
        Err(ManagementChannelPinError::Unavailable)
    );
    admission.release();
    assert_eq!(admission.in_flight(), 1);
    assert!(admission.try_acquire().is_ok());
    assert_eq!(admission.in_flight(), P13_CHANNEL_PIN_MAX_IN_FLIGHT);
    admission.release();
    admission.release();
    assert_eq!(admission.in_flight(), 0);
}

#[test]
fn channel_pin_request_ids_have_restart_unique_boot_nonce() {
    let nonce = draw_boot_nonce().expect("the boot nonce should be drawn");
    assert_eq!(nonce.len(), 16);
    assert!(nonce.chars().all(|c| c.is_ascii_hexdigit() && !c.is_ascii_uppercase()));
    let mut ids = ChannelPinIds::new(nonce.clone());
    let first = ids.next_id();
    let second = ids.next_id();
    assert_ne!(first, second);
    assert!(first.starts_with("channel-pin-"));
    assert!(second.starts_with("channel-pin-"));
    assert_eq!(first, format!("channel-pin-{nonce}-1"));
    assert_eq!(second, format!("channel-pin-{nonce}-2"));
}

#[test]
fn channel_pin_rejects_native_adapters_before_the_transport_boundary() {
    let generic = EndpointAdapter::OpenAiResponses {
        url: "https://gateway.example.test/v1/responses".to_owned(),
    };
    assert!(channel_pin_single_transport_adapter(&generic));
    assert!(!channel_pin_single_transport_adapter(
        &EndpointAdapter::GrokBuildResponses
    ));
    assert!(!channel_pin_single_transport_adapter(
        &EndpointAdapter::GrokConsoleResponses
    ));
    assert!(!channel_pin_single_transport_adapter(
        &EndpointAdapter::GrokWebResponses
    ));
    assert!(!channel_pin_single_transport_adapter(
        &EndpointAdapter::GrokOfficialResponses
    ));
}

#[test]
fn channel_pin_request_id_renders_the_counter_in_decimal() {
    assert_eq!(
        channel_pin_request_id("00ff10ab", 0),
        "channel-pin-00ff10ab-0"
    );
    assert_eq!(
        channel_pin_request_id("00ff10ab", 1234567890),
        "channel-pin-00ff10ab-1234567890"
    );
    assert_eq!(
        channel_pin_request_id("n", u64::MAX),
        format!("channel-pin-n-{}", u64::MAX)
    );
}

#[test]
fn the_in_flight_budget_admits_exactly_its_bound() {
    assert_eq!(next_in_flight(0), Some(1));
    assert_eq!(next_in_flight(1), Some(2));
    assert_eq!(next_in_flight(2), None);
    assert_eq!(next_in_flight(usize::MAX), None);
}

#[test]
fn the_request_counter_wraps_like_an_atomic_add() {
    let mut ids = ChannelPinIds::new("abc".to_owned());
    for _ in 0..3 {
        ids.next_id();
    }
    assert_eq!(ids.next_id(), "channel-pin-abc-4");
}

#[test]
fn pin_observations_only_ever_latch_true() {
    let mut observation = P13ChannelPinObservation::new();
    assert!(!observation.attempted());
    assert!(!observation.upstream_sent());
    observation.mark_attempted();
    assert!(observation.attempted());
    assert!(!observation.upstream_sent());
    observation.mark_upstream_sent();
    observation.mark_attempted();
    assert!(observation.attempted());
    assert!(observation.upstream_sent());
}

#[test]
fn a_start_failure_is_rejected_only_before_any_attempt() {
    assert_eq!(
        channel_pin_start_failure_outcome(0),
        ManagementChannelPinOutcome::Rejected
    );
    assert_eq!(
        channel_pin_start_failure_outcome(1),
        ManagementChannelPinOutcome::Failed
    );
}

#[test]
fn a_pin_targets_exactly_one_candidate_of_its_channel_and_provider() {
    let c = |e: &str, p: &str| PinCandidate { endpoint_id: e.to_owned(), provider_id: p.to_owned() };
    let candidates = vec![c("e1", "p1"), c("e2", "p1"), c("e2", "p2")];
    assert_eq!(select_pinned_candidate(&candidates, "e2", "p1"), Ok(1));
    assert_eq!(
        select_pinned_candidate(&candidates, "e3", "p1"),
        Err(ManagementChannelPinError::InvalidTarget)
    );
    let doubled = vec![c("e1", "p1"), c("e1", "p1")];
    assert_eq!(
        select_pinned_candidate(&doubled, "e1", "p1"),
        Err(ManagementChannelPinError::InvalidTarget)
    );
}

#[test]
fn a_pin_reads_its_reply_in_the_requested_mode_and_projection() {
    assert_eq!(
        channel_pin_response_mode(ManagementChannelPinMode::Json),
        ResponsesResponseMode::NonStreaming
    );
    assert_eq!(
        channel_pin_response_mode(ManagementChannelPinMode::Sse),
        ResponsesResponseMode::Streaming
    );
    assert_eq!(
        channel_pin_usage_projection(ManagementRequestProtocol::AnthropicMessages),
        P12ResponseUsageProjection::AnthropicMessages
    );
    assert_eq!(
        channel_pin_usage_projection(ManagementRequestProtocol::OpenAiChatCompletions),
        P12ResponseUsageProjection::OpenAiResponses
    );
}

#[test]
fn a_pin_reached_the_upstream_when_observed_or_staged_past_conversion() {
    assert!(channel_pin_upstream_sent(true, None));
    assert!(!channel_pin_upstream_sent(false, None));
    assert!(!channel_pin_upstream_sent(
        false,
        Some(ManagementRequestAttemptStage::RequestConversion)
    ));
    assert!(!channel_pin_upstream_sent(
        false,
        Some(ManagementRequestAttemptStage::EgressAdmission)
    ));
    assert!(channel_pin_upstream_sent(
        false,
        Some(ManagementRequestAttemptStage::HttpTransport)
    ));
}

#[test]
fn a_pin_runs_only_on_the_current_snapshot_it_names() {
    assert!(channel_pin_snapshot_matches("v1", 3, "v1", 3, true));
    assert!(!channel_pin_snapshot_matches("v1", 3, "v2", 3, true));
    assert!(!channel_pin_snapshot_matches("v1", 2, "v1", 3, true));
    assert!(!channel_pin_snapshot_matches("v1", 3, "v1", 3, false));
}

#[test]
fn a_pin_drain_succeeds_only_on_a_closed_response() {
    let mut drain = ChannelPinDrain::new();
    let events = [
        CanonicalEvent::ResponseStart {
            response_id: "resp-1".to_owned(),
        },
        CanonicalEvent::MessageStart {
            role: "assistant".to_owned(),
        },
        CanonicalEvent::TextDelta {
            text: "hi".to_owned(),
        },
        CanonicalEvent::MessageEnd,
    ];
    for event in &events {
        assert_eq!(drain.on_event(event), DrainStep::Continue);
    }
    assert_eq!(
        drain.on_end(),
        DrainStep::Failed(ManagementRequestAttemptStage::BodyRead)
    );
    assert_eq!(
        drain.on_event(&CanonicalEvent::ResponseEnd {
            stop_reason: "end_turn".to_owned(),
        }),
        DrainStep::Succeeded
    );
    assert_eq!(drain.on_end(), DrainStep::Succeeded);

    let mut failed = ChannelPinDrain::new();
    assert_eq!(
        failed.on_event(&CanonicalEvent::StreamError {
            error: upstream_protocol_error(),
        }),
        DrainStep::Failed(ManagementRequestAttemptStage::Decoder)
    );
    let mut out_of_order = ChannelPinDrain::new();
    assert_eq!(
        out_of_order.on_event(&CanonicalEvent::MessageEnd),
        DrainStep::Failed(ManagementRequestAttemptStage::Decoder)
    );
    assert_eq!(
        channel_pin_source_failure(),
        DrainStep::Failed(ManagementRequestAttemptStage::Decoder)
    );
    assert_eq!(
        channel_pin_deadline_expired(),
        DrainStep::Failed(ManagementRequestAttemptStage::BodyRead)
    );
}

fn pin_request() -> PinRequest {
    PinRequest {
        config_version_id: "v1".to_owned(),
        config_revision: 3,
        route_id: "route".to_owned(),
        requested_model: "model".to_owned(),
        provider_id: "provider".to_owned(),
        channel_id: "channel".to_owned(),
        credential_id: "credential".to_owned(),
        protocol: ManagementRequestProtocol::AnthropicMessages,
        mode: ManagementChannelPinMode::Sse,
    }
}

fn pin_snapshot() -> PinSnapshot {
    PinSnapshot {
        snapshot_version: "v1".to_owned(),
        config_revision: 3,
        current_on_arrival: true,
        route_scheduled: true,
        model_route: Some("route".to_owned()),
        model_route_present: true,
        current_before_start: true,
        scheduler_version: "v1".to_owned(),
    }
}

fn pin_candidates() -> Vec<PinCandidate> {
    vec![
        PinCandidate {
            endpoint_id: "other".to_owned(),
            provider_id: "provider".to_owned(),
        },
        PinCandidate {
            endpoint_id: "channel".to_owned(),
            provider_id: "provider".to_owned(),
        },
    ]
}

#[test]
fn a_stale_snapshot_is_refused_before_a_slot_is_taken_and_a_late_conflict_returns_it() {
    let adapter = EndpointAdapter::AnthropicMessages {
        url: "https://relay.example.test/v1/messages".to_owned(),
    };
    let mut admission = ChannelPinAdmission::new();
    let mut stale = pin_request();
    stale.config_revision = 2;
    assert_eq!(
        plan_channel_pin(&stale, &pin_snapshot(), &pin_candidates(), Some(&adapter), None, &mut admission).err(),
        Some(ManagementChannelPinError::SnapshotConflict)
    );
    assert_eq!(admission.in_flight(), 0);

    let mut moved = pin_snapshot();
    moved.scheduler_version = "v2".to_owned();
    assert_eq!(
        plan_channel_pin(&pin_request(), &moved, &pin_candidates(), Some(&adapter), Some(5), &mut admission).err(),
        Some(ManagementChannelPinError::SnapshotConflict)
    );
    assert_eq!(admission.in_flight(), 0);

    assert_eq!(
        plan_channel_pin(&pin_request(), &pin_snapshot(), &pin_candidates(), Some(&EndpointAdapter::GrokWebResponses), Some(5), &mut admission).err(),
        Some(ManagementChannelPinError::InvalidTarget)
    );
    assert_eq!(admission.in_flight(), 0);

    let plan = match plan_channel_pin(&pin_request(), &pin_snapshot(), &pin_candidates(), Some(&adapter), Some(5), &mut admission) {
        Ok(plan) => plan,
        Err(error) => panic!("pin refused: {error:?}"),
    };
    assert_eq!(admission.in_flight(), 1);
    assert_eq!(plan.candidate, 1);
    assert_eq!(plan.observed_at_ms, 5);
    assert_eq!(plan.probe_extension, Some("anthropic.messages.max_tokens"));
    assert_eq!(plan.response_mode, ResponsesResponseMode::Streaming);
    assert_eq!(plan.usage_projection, P12ResponseUsageProjection::AnthropicMessages);

    let receipt = channel_pin_receipt(
        &pin_request(),
        "pin-1".to_owned(),
        3,
        PinEnd::Drained(DrainStep::Failed(ManagementRequestAttemptStage::Decoder)),
        Some(ManagementRequestAttemptStage::BodyRead),
        1,
        true,
        true,
        5,
    );
    assert_eq!(receipt.outcome, ManagementChannelPinOutcome::Failed);
    assert_eq!(receipt.stage, Some(ManagementRequestAttemptStage::Decoder));
    let rejected = channel_pin_receipt(&pin_request(), "pin-2".to_owned(), 3, PinEnd::StartFailed, None, 0, false, false, 5);
    assert_eq!(rejected.outcome, ManagementChannelPinOutcome::Rejected);
    assert_eq!(rejected.channel_id, "channel");
}
