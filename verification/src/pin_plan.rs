//! The decisions of one management Channel Pin, in the order the executor takes them: the
//! snapshot check, the target checks, the in-flight admission, the re-check of the snapshot
//! just before the start, and, once the pinned source is drained, the receipt.
//!
//! A refusal comes before anything is spent: a stale snapshot is refused before an identifier
//! is drawn, a slot taken, a credential leased or a stage recorded, and a refusal after the
//! admission gives its slot back.
use vstd::prelude::*;
use crate::channel_pin::{
    ChannelPinAdmission, DrainStep, ManagementChannelPinError, ManagementChannelPinMode,
    ManagementChannelPinOutcome, ManagementRequestProtocol, P13_CHANNEL_PIN_MAX_IN_FLIGHT, PinCandidate,
    channel_pin_response_mode, channel_pin_snapshot_matches, channel_pin_start_failure_outcome, channel_pin_usage_projection, pin_matches,
    select_pinned_candidate,
};
use crate::endpoint::{
    CODEX_OAUTH_URL_PREFIX, EndpointAdapter, P12_ANTHROPIC_MAX_TOKENS_EXTENSION,
    P12_OPENAI_CHAT_MAX_TOKENS_EXTENSION, P12_OPENAI_MAX_OUTPUT_TOKENS_EXTENSION,
    channel_pin_single_transport_adapter, has_prefix, probe_limit_extension,
};
use crate::json::str_eq;
use crate::stage_ledger::ManagementRequestAttemptStage;
use crate::transport::ResponsesResponseMode;
use crate::usage::P12ResponseUsageProjection;

verus! {

/// One management Channel Pin request.
#[derive(Clone, Debug)]
pub struct PinRequest {
    pub config_version_id: String,
    pub config_revision: i64,
    pub route_id: String,
    pub requested_model: String,
    pub provider_id: String,
    pub channel_id: String,
    pub credential_id: String,
    pub protocol: ManagementRequestProtocol,
    pub mode: ManagementChannelPinMode,
}

/// What the executor observes of its generation: on the pin's arrival, and again just before
/// the start.
#[derive(Clone, Debug)]
pub struct PinSnapshot {
    /// The Version the executor serves.
    pub snapshot_version: String,
    /// The configuration revision the executor serves.
    pub config_revision: i64,
    /// Whether the executor's snapshot was the registry's current one on arrival.
    pub current_on_arrival: bool,
    /// Whether the scheduler holds the pinned route.
    pub route_scheduled: bool,
    /// The route the requested public model resolves to in the live snapshot, if any.
    pub model_route: Option<String>,
    /// Whether the live snapshot holds that route.
    pub model_route_present: bool,
    /// Whether the executor's snapshot was still current just before the start.
    pub current_before_start: bool,
    /// The Version the scheduler serves just before the start.
    pub scheduler_version: String,
}

/// What a pin that passed every check runs with.
#[derive(Clone, Debug)]
pub struct PinPlan {
    /// The clock reading the receipt carries.
    pub observed_at_ms: i64,
    /// The index of the one pinned candidate.
    pub candidate: usize,
    /// The extension bounding the probe's output, if the binding takes one.
    pub probe_extension: Option<&'static str>,
    pub response_mode: ResponsesResponseMode,
    pub usage_projection: P12ResponseUsageProjection,
}

/// Whether the pin names the executor's Version and revision and the executor's snapshot is
/// current.
pub open spec fn snapshot_fresh(req: PinRequest, snap: PinSnapshot) -> bool {
    req.config_version_id@ == snap.snapshot_version@ && req.config_revision == snap.config_revision
        && snap.current_on_arrival
}

/// Whether a binding sends exactly one upstream request per attempt.
pub open spec fn single_transport(a: EndpointAdapter) -> bool {
    a is OpenAiChatCompletions || a is OpenAiResponses || a is AnthropicMessages
}

/// The first refusal of a pin, in the executor's order, or `None` when every check passes:
/// `in_flight` pins are already admitted, `observed_at_ms` is the clock reading (none when the
/// clock is unreadable) and `adapter` the pinned channel's binding.
pub open spec fn pin_refusal(
    req: PinRequest,
    snap: PinSnapshot,
    candidates: Seq<PinCandidate>,
    adapter: Option<EndpointAdapter>,
    observed_at_ms: Option<i64>,
    in_flight: nat,
) -> Option<ManagementChannelPinError> {
    if !snapshot_fresh(req, snap) {
        Some(ManagementChannelPinError::SnapshotConflict)
    } else if observed_at_ms is None {
        Some(ManagementChannelPinError::Unavailable)
    } else if !snap.route_scheduled {
        Some(ManagementChannelPinError::InvalidTarget)
    } else if !(snap.model_route matches Some(r) && r@ == req.route_id@) || !snap.model_route_present {
        Some(ManagementChannelPinError::InvalidTarget)
    } else if pin_matches(candidates, req.channel_id@, req.provider_id@).len() != 1 {
        Some(ManagementChannelPinError::InvalidTarget)
    } else if !(adapter matches Some(a) && single_transport(a)) {
        Some(ManagementChannelPinError::InvalidTarget)
    } else if in_flight >= P13_CHANNEL_PIN_MAX_IN_FLIGHT {
        Some(ManagementChannelPinError::Unavailable)
    } else if !(snap.current_before_start && snap.scheduler_version@ == snap.snapshot_version@) {
        Some(ManagementChannelPinError::SnapshotConflict)
    } else {
        None
    }
}

/// The extension bounding a probe on binding `a`: none for the official Codex endpoint nor
/// for native bindings.
pub open spec fn probe_extension_of(a: EndpointAdapter) -> Option<Seq<char>> {
    match a {
        EndpointAdapter::OpenAiChatCompletions { .. } => Some(P12_OPENAI_CHAT_MAX_TOKENS_EXTENSION@),
        EndpointAdapter::OpenAiResponses { url } => if has_prefix(url@, CODEX_OAUTH_URL_PREFIX@) {
            None
        } else {
            Some(P12_OPENAI_MAX_OUTPUT_TOKENS_EXTENSION@)
        },
        EndpointAdapter::AnthropicMessages { .. } => Some(P12_ANTHROPIC_MAX_TOKENS_EXTENSION@),
        _ => None,
    }
}

proof fn lemma_pin_matches_in_range(cs: Seq<PinCandidate>, channel: Seq<char>, provider: Seq<char>)
    ensures
        forall|k: int|
            0 <= k < pin_matches(cs, channel, provider).len() ==> 0 <= #[trigger] pin_matches(cs, channel, provider)[k]
                < cs.len(),
    decreases cs.len(),
{
    if cs.len() > 0 {
        let m = pin_matches(cs.drop_last(), channel, provider);
        lemma_pin_matches_in_range(cs.drop_last(), channel, provider);
        let r = pin_matches(cs, channel, provider);
        assert forall|k: int| 0 <= k < r.len() implies 0 <= #[trigger] r[k] < cs.len() by {
            if k < m.len() {
                assert(r[k] == m[k]);
            }
        }
    }
}

/// The binding a pin found for its channel, if any.
pub open spec fn binding_of(adapter: Option<&EndpointAdapter>) -> Option<EndpointAdapter> {
    match adapter {
        Some(a) => Some(*a),
        None => None,
    }
}

/// Takes the decisions of one pin before its start. A refusal leaves the admission as it was;
/// a plan holds one more admitted pin, which the caller releases once the receipt is written.
pub fn plan_channel_pin(
    req: &PinRequest,
    snap: &PinSnapshot,
    candidates: &Vec<PinCandidate>,
    adapter: Option<&EndpointAdapter>,
    observed_at_ms: Option<i64>,
    admission: &mut ChannelPinAdmission,
) -> (r: Result<PinPlan, ManagementChannelPinError>)
    ensures
        !snapshot_fresh(*req, *snap) ==> r == Err::<PinPlan, ManagementChannelPinError>(
            ManagementChannelPinError::SnapshotConflict,
        ) && final(admission).count() == old(admission).count(),
        match pin_refusal(
            *req,
            *snap,
            candidates@,
            binding_of(adapter),
            observed_at_ms,
            old(admission).count(),
        ) {
            Some(e) => r == Err::<PinPlan, ManagementChannelPinError>(e) && final(admission).count()
                == old(admission).count(),
            None => r matches Ok(plan) && final(admission).count() == old(admission).count() + 1
                && observed_at_ms == Some(plan.observed_at_ms) && plan.candidate as int == pin_matches(
                candidates@,
                req.channel_id@,
                req.provider_id@,
            )[0] && (match plan.probe_extension {
                Some(x) => probe_extension_of(binding_of(adapter)->0) == Some(x@),
                None => probe_extension_of(binding_of(adapter)->0) is None,
            }) && plan.response_mode == (match req.mode {
                ManagementChannelPinMode::Json => ResponsesResponseMode::NonStreaming,
                ManagementChannelPinMode::Sse => ResponsesResponseMode::Streaming,
            }) && plan.usage_projection == (if req.protocol == ManagementRequestProtocol::AnthropicMessages {
                P12ResponseUsageProjection::AnthropicMessages
            } else {
                P12ResponseUsageProjection::OpenAiResponses
            }),
        },
{
    if !channel_pin_snapshot_matches(
        req.config_version_id.as_str(),
        req.config_revision,
        snap.snapshot_version.as_str(),
        snap.config_revision,
        snap.current_on_arrival,
    ) {
        return Err(ManagementChannelPinError::SnapshotConflict);
    }
    let observed = match observed_at_ms {
        Some(ms) => ms,
        None => return Err(ManagementChannelPinError::Unavailable),
    };
    if !snap.route_scheduled {
        return Err(ManagementChannelPinError::InvalidTarget);
    }
    let model_route_matches = match &snap.model_route {
        Some(route) => str_eq(route.as_str(), req.route_id.as_str()),
        None => false,
    };
    if !model_route_matches || !snap.model_route_present {
        return Err(ManagementChannelPinError::InvalidTarget);
    }
    let candidate = match select_pinned_candidate(candidates, req.channel_id.as_str(), req.provider_id.as_str()) {
        Ok(k) => k,
        Err(e) => return Err(e),
    };
    let binding = match adapter {
        Some(a) => a,
        None => return Err(ManagementChannelPinError::InvalidTarget),
    };
    if !channel_pin_single_transport_adapter(binding) {
        return Err(ManagementChannelPinError::InvalidTarget);
    }
    match admission.try_acquire() {
        Ok(()) => {},
        Err(e) => return Err(e),
    }
    if !snap.current_before_start || !str_eq(snap.scheduler_version.as_str(), snap.snapshot_version.as_str()) {
        admission.release();
        return Err(ManagementChannelPinError::SnapshotConflict);
    }
    let probe_extension = probe_limit_extension(binding);
    assert(binding_of(adapter)->0 == *binding);
    assert(match probe_extension {
        Some(x) => probe_extension_of(*binding) == Some(x@),
        None => probe_extension_of(*binding) is None,
    });
    assert(pin_matches(candidates@, req.channel_id@, req.provider_id@).len() == 1);
    assert(pin_refusal(*req, *snap, candidates@, binding_of(adapter), observed_at_ms, old(admission).count()) is None);
    proof {
        lemma_pin_matches_in_range(candidates@, req.channel_id@, req.provider_id@);
        assert(0 <= pin_matches(candidates@, req.channel_id@, req.provider_id@)[0] < candidates@.len());
    }
    let plan = PinPlan {
        observed_at_ms: observed,
        candidate,
        probe_extension,
        response_mode: channel_pin_response_mode(req.mode),
        usage_projection: channel_pin_usage_projection(req.protocol),
    };
    assert(admission.count() == old(admission).count() + 1);
    assert(observed_at_ms == Some(plan.observed_at_ms));
    assert(candidate == pin_matches(candidates@, req.channel_id@, req.provider_id@)[0] as usize);
    let count: usize = candidates.len();
    assert(candidates@.len() == count);
    assert(plan.candidate as int == pin_matches(candidates@, req.channel_id@, req.provider_id@)[0]);
    Ok(plan)
}

/// The receipt of one Channel Pin.
#[derive(Clone, Debug)]
pub struct PinReceipt {
    pub request_id: String,
    pub config_version_id: String,
    pub config_revision: i64,
    pub provider_id: String,
    pub channel_id: String,
    pub route_id: String,
    pub credential_id: String,
    pub requested_model: String,
    pub protocol: ManagementRequestProtocol,
    pub mode: ManagementChannelPinMode,
    pub outcome: ManagementChannelPinOutcome,
    pub upstream_sent: bool,
    pub attempt_count: u8,
    pub response_started: bool,
    pub observed_at_ms: i64,
    pub stage: Option<ManagementRequestAttemptStage>,
}

/// How a pin's start and drain ended.
#[derive(Clone, Copy, Debug, PartialEq, Eq, Structural)]
pub enum PinEnd {
    /// The pinned attempt could not start.
    StartFailed,
    /// The started source was drained to this step.
    Drained(DrainStep),
}

/// The outcome and stage a receipt reports: a start that failed before any attempt is a
/// rejection and one after an attempt a failure, both with the recorded stage; a drain that
/// failed names its own stage, and a completed drain keeps the recorded one.
pub open spec fn settled(end: PinEnd, recorded: Option<ManagementRequestAttemptStage>, attempt_count: u8) -> (
    ManagementChannelPinOutcome,
    Option<ManagementRequestAttemptStage>,
) {
    match end {
        PinEnd::StartFailed => (
            if attempt_count == 0 {
                ManagementChannelPinOutcome::Rejected
            } else {
                ManagementChannelPinOutcome::Failed
            },
            recorded,
        ),
        PinEnd::Drained(DrainStep::Failed(stage)) => (ManagementChannelPinOutcome::Failed, Some(stage)),
        PinEnd::Drained(_) => (ManagementChannelPinOutcome::Succeeded, recorded),
    }
}

/// Writes the receipt of a pin once its start failed or its source was drained; it is written
/// only after the drain ended, so it never claims a success a later decoder failure would
/// refute.
pub fn channel_pin_receipt(
    req: &PinRequest,
    request_id: String,
    config_revision: i64,
    end: PinEnd,
    recorded: Option<ManagementRequestAttemptStage>,
    attempt_count: u8,
    upstream_sent: bool,
    response_started: bool,
    observed_at_ms: i64,
) -> (r: PinReceipt)
    requires
        end != PinEnd::Drained(DrainStep::Continue),
    ensures
        r.request_id == request_id,
        r.config_version_id == req.config_version_id,
        r.config_revision == config_revision,
        r.provider_id == req.provider_id,
        r.channel_id == req.channel_id,
        r.route_id == req.route_id,
        r.credential_id == req.credential_id,
        r.requested_model == req.requested_model,
        r.protocol == req.protocol,
        r.mode == req.mode,
        (r.outcome, r.stage) == settled(end, recorded, attempt_count),
        r.upstream_sent == upstream_sent,
        r.attempt_count == attempt_count,
        r.response_started == response_started,
        r.observed_at_ms == observed_at_ms,
{
    let (outcome, stage) = match end {
        PinEnd::StartFailed => (channel_pin_start_failure_outcome(attempt_count), recorded),
        PinEnd::Drained(DrainStep::Failed(stage)) => (ManagementChannelPinOutcome::Failed, Some(stage)),
        PinEnd::Drained(_) => (ManagementChannelPinOutcome::Succeeded, recorded),
    };
    PinReceipt {
        request_id,
        config_version_id: req.config_version_id.clone(),
        config_revision,
        provider_id: req.provider_id.clone(),
        channel_id: req.channel_id.clone(),
        route_id: req.route_id.clone(),
        credential_id: req.credential_id.clone(),
        requested_model: req.requested_model.clone(),
        protocol: req.protocol,
        mode: req.mode,
        outcome,
        upstream_sent,
        attempt_count,
        response_started,
        observed_at_ms,
        stage,
    }
}

} // verus!
