//! The decisions of one upstream attempt: which failures the route may retry on another
//! candidate, the one request-local compatibility retry of the Codex OAuth route, and how a
//! successful reply is decoded.
use vstd::prelude::*;
use crate::composition::{ApiFormat, CapabilitySet};
use crate::config::TransformMode;
use crate::stage_ledger::{AttemptStageLedger, ManagementRequestAttemptStage};
use crate::endpoint::{CODEX_OAUTH_URL_PREFIX, EndpointAdapter, binding_format, has_prefix};
use crate::composition::{clock_millis_since_epoch, epoch_millis_as_i64};
use crate::errors::{
    GatewayError, GatewayErrorCode, internal_error, spec_internal_error, spec_upstream_protocol_error,
    upstream_protocol_error,
};
use crate::text::chars_of;
use crate::transport::{ResponsesResponseMode, Span};

verus! {

/// How one attempt failed, as the route's retry owner sees it.
#[derive(Clone, Copy, Debug, PartialEq, Eq, Structural)]
pub enum AttemptFailure {
    /// The connection failed before a reply: the next candidate may succeed.
    Connection,
    /// The compatible egress lease failed; its transport failure was recorded.
    CompatibleEgress,
    /// The account is throttled: fail over, after the reported delay when one was given.
    RateLimited { retry_after: Option<Span> },
    /// The upstream failed on its side: fail over.
    ServerError,
    /// Nothing another candidate could change.
    NonRetryable(GatewayError),
}

/// The current time in epoch milliseconds for an attempt; a clock before the epoch or past what
/// an `i64` holds fails the attempt with an internal error.
pub fn system_now_ms() -> (r: Result<i64, AttemptFailure>)
    ensures
        r matches Ok(ms) ==> ms >= 0,
        r matches Err(e) ==> e == AttemptFailure::NonRetryable(spec_internal_error()),
{
    match epoch_millis_as_i64(clock_millis_since_epoch()) {
        Ok(ms) => Ok(ms),
        Err(_) => Err(AttemptFailure::NonRetryable(internal_error())),
    }
}

/// The retry ownership of an already-classified Kiro start failure: an explicit allow-list,
/// every other class failing the request.
pub open spec fn kiro_start_failure(error: GatewayError) -> AttemptFailure {
    match error.code {
        GatewayErrorCode::ProviderTransient | GatewayErrorCode::EgressUnavailable => AttemptFailure::Connection,
        GatewayErrorCode::ProviderRateLimited | GatewayErrorCode::CredentialQuotaExceeded => AttemptFailure::RateLimited {
            retry_after: None,
        },
        _ => AttemptFailure::NonRetryable(error),
    }
}

/// Maps a classified Kiro start failure onto the route's retry ownership.
pub fn p12_classify_kiro_start_failure(error: GatewayError) -> (r: AttemptFailure)
    ensures
        r == kiro_start_failure(error),
{
    match error.code() {
        GatewayErrorCode::ProviderTransient | GatewayErrorCode::EgressUnavailable => AttemptFailure::Connection,
        GatewayErrorCode::ProviderRateLimited | GatewayErrorCode::CredentialQuotaExceeded => AttemptFailure::RateLimited {
            retry_after: None,
        },
        _ => AttemptFailure::NonRetryable(error),
    }
}

/// The retry ownership of a classified Grok failure before the first semantic event.
pub open spec fn grok_start_failure(error: GatewayError) -> AttemptFailure {
    match error.code {
        GatewayErrorCode::ProviderTransient => AttemptFailure::ServerError,
        GatewayErrorCode::EgressUnavailable => AttemptFailure::Connection,
        GatewayErrorCode::ProviderRateLimited | GatewayErrorCode::CredentialQuotaExceeded => AttemptFailure::RateLimited {
            retry_after: None,
        },
        _ => AttemptFailure::NonRetryable(error),
    }
}

/// Maps a classified Grok start failure onto the route's retry ownership.
pub fn p12_classify_grok_start_failure(error: GatewayError) -> (r: AttemptFailure)
    ensures
        r == grok_start_failure(error),
{
    match error.code() {
        GatewayErrorCode::ProviderTransient => AttemptFailure::ServerError,
        GatewayErrorCode::EgressUnavailable => AttemptFailure::Connection,
        GatewayErrorCode::ProviderRateLimited | GatewayErrorCode::CredentialQuotaExceeded => AttemptFailure::RateLimited {
            retry_after: None,
        },
        _ => AttemptFailure::NonRetryable(error),
    }
}

/// A Grok start failure fails over unless nothing another candidate could change: a throttled
/// account or a spent quota fails over as a rate limit with no delay, a transient provider
/// failure as a server error, an egress failure as a connection failure, and only every other
/// class fails the request, carrying its own error. Grok and Kiro agree on every class but the
/// transient provider failure.
pub proof fn lemma_grok_start_failures_fail_over_on_throttling(error: GatewayError)
    ensures
        (error.code == GatewayErrorCode::ProviderRateLimited || error.code == GatewayErrorCode::CredentialQuotaExceeded)
            ==> grok_start_failure(error) == (AttemptFailure::RateLimited { retry_after: None }),
        error.code == GatewayErrorCode::ProviderTransient ==> grok_start_failure(error) == AttemptFailure::ServerError,
        error.code == GatewayErrorCode::EgressUnavailable ==> grok_start_failure(error) == AttemptFailure::Connection,
        grok_start_failure(error) is NonRetryable <==> !(error.code == GatewayErrorCode::ProviderRateLimited
            || error.code == GatewayErrorCode::CredentialQuotaExceeded || error.code
            == GatewayErrorCode::ProviderTransient || error.code == GatewayErrorCode::EgressUnavailable),
        grok_start_failure(error) is NonRetryable ==> grok_start_failure(error) == AttemptFailure::NonRetryable(error),
        error.code != GatewayErrorCode::ProviderTransient ==> grok_start_failure(error) == kiro_start_failure(error),
        (error.code == GatewayErrorCode::ProviderRateLimited || error.code == GatewayErrorCode::CredentialQuotaExceeded)
            ==> kiro_start_failure(error) == (AttemptFailure::RateLimited { retry_after: None }),
{
}

/// What a provider's runtime failure classifier asks of the runtime.
#[derive(Clone, Copy, Debug, PartialEq, Eq, Structural)]
pub enum RuntimeFailureAction {
    NoAction,
    RecordExactQuota,
    CoolEndpoint,
    RequireCredentialReauthorization,
}

/// The attempt failure a classified provider error body becomes: a recorded quota is a rate
/// limit with the classifier's delay, a cooled endpoint a server error, anything else fails
/// with the classifier's error.
pub open spec fn runtime_action_failure(
    action: RuntimeFailureAction,
    retry_after: Option<Span>,
    error: GatewayError,
) -> AttemptFailure {
    match action {
        RuntimeFailureAction::RecordExactQuota => AttemptFailure::RateLimited { retry_after },
        RuntimeFailureAction::CoolEndpoint => AttemptFailure::ServerError,
        _ => AttemptFailure::NonRetryable(error),
    }
}

/// Maps a provider classifier's disposition onto the route's retry ownership.
pub fn attempt_failure_for_action(
    action: RuntimeFailureAction,
    retry_after: Option<Span>,
    error: GatewayError,
) -> (r: AttemptFailure)
    ensures
        r == runtime_action_failure(action, retry_after, error),
{
    match action {
        RuntimeFailureAction::RecordExactQuota => AttemptFailure::RateLimited { retry_after },
        RuntimeFailureAction::CoolEndpoint => AttemptFailure::ServerError,
        RuntimeFailureAction::NoAction | RuntimeFailureAction::RequireCredentialReauthorization => AttemptFailure::NonRetryable(error),
    }
}

/// How one send failed: an attempt failure, or the Codex route's explicit rejection of the
/// root `max_output_tokens` field.
#[derive(Clone, Copy, Debug, PartialEq, Eq, Structural)]
pub enum SendFailure {
    Attempt(AttemptFailure),
    RetryWithoutMaxOutputTokens,
}

impl SendFailure {
    /// The attempt failure this send failure amounts to once no retry remains.
    pub fn into_attempt(self) -> (r: AttemptFailure)
        ensures
            r == match self {
                SendFailure::Attempt(f) => f,
                SendFailure::RetryWithoutMaxOutputTokens => AttemptFailure::NonRetryable(spec_upstream_protocol_error()),
            },
    {
        match self {
            SendFailure::Attempt(f) => f,
            SendFailure::RetryWithoutMaxOutputTokens => AttemptFailure::NonRetryable(upstream_protocol_error()),
        }
    }
}

/// What the Codex route does after one send.
#[derive(Clone, Copy, Debug, PartialEq, Eq, Structural)]
pub enum CodexSendStep {
    /// Remove the root `max_output_tokens` field and replay once on the same lease.
    RetryWithoutMaxOutputTokens,
    /// The attempt fails.
    Fail(AttemptFailure),
}

/// Decides the Codex route's step after a failed send: one field-removal replay when the
/// route allows it and none was made yet, a protocol failure on a second rejection.
pub fn codex_send_step(failure: SendFailure, allow_retry: bool, retried: bool) -> (r: CodexSendStep)
    ensures
        r == match failure {
            SendFailure::RetryWithoutMaxOutputTokens => if allow_retry && !retried {
                CodexSendStep::RetryWithoutMaxOutputTokens
            } else {
                CodexSendStep::Fail(AttemptFailure::NonRetryable(spec_upstream_protocol_error()))
            },
            SendFailure::Attempt(f) => CodexSendStep::Fail(f),
        },
{
    match failure {
        SendFailure::RetryWithoutMaxOutputTokens => if allow_retry && !retried {
            CodexSendStep::RetryWithoutMaxOutputTokens
        } else {
            CodexSendStep::Fail(AttemptFailure::NonRetryable(upstream_protocol_error()))
        },
        SendFailure::Attempt(f) => CodexSendStep::Fail(f),
    }
}

/// Whether an attempt runs on the official Codex OAuth route: the endpoint is the Codex URL
/// and the credential carries an account binding.
pub fn is_codex_oauth_attempt(endpoint_url: &str, has_account_binding: bool) -> (r: bool)
    ensures
        r == (has_prefix(endpoint_url@, CODEX_OAUTH_URL_PREFIX@) && has_account_binding),
{
    let u = chars_of(endpoint_url);
    let p = chars_of(CODEX_OAUTH_URL_PREFIX);
    if u.len() < p.len() {
        return false;
    }
    let mut i: usize = 0;
    while i < p.len()
        invariant
            0 <= i <= p@.len(),
            p@.len() <= u@.len(),
            u@ == endpoint_url@,
            p@ == CODEX_OAUTH_URL_PREFIX@,
            forall|j: int| 0 <= j < i ==> u@[j] == p@[j],
        decreases p.len() - i,
    {
        if u[i] != p[i] {
            assert(u@.take(p@.len() as int)[i as int] != p@[i as int]);
            return false;
        }
        i = i + 1;
    }
    assert(u@.take(p@.len() as int) =~= p@);
    has_account_binding
}

/// How a Responses request is adjusted before it is sent.
#[derive(Clone, Copy, Debug, PartialEq, Eq, Structural)]
pub struct OutboundAdjustments {
    /// Force `store` to `false`.
    pub force_store_false: bool,
    /// Force a streaming upstream reply.
    pub force_streaming: bool,
}

/// The Codex OAuth route never stores a response and always streams its reply, also for a
/// non-streaming client; other routes send the request as encoded.
pub fn codex_outbound_adjustments(codex_oauth: bool, mode: ResponsesResponseMode) -> (r: OutboundAdjustments)
    ensures
        r.force_store_false == codex_oauth,
        r.force_streaming == (codex_oauth && mode == ResponsesResponseMode::NonStreaming),
{
    OutboundAdjustments {
        force_store_false: codex_oauth,
        force_streaming: codex_oauth && mode == ResponsesResponseMode::NonStreaming,
    }
}

/// How a successful Responses reply is decoded.
#[derive(Clone, Copy, Debug, PartialEq, Eq, Structural)]
pub enum ReplyDecoding {
    /// As a server-sent event stream.
    EventStream,
    /// As one completed JSON response.
    CompletedJson,
}

/// A streaming client, or any Codex OAuth reply, is an event stream; otherwise the reply is one
/// completed JSON response.
pub fn responses_reply_decoding(mode: ResponsesResponseMode, codex_oauth: bool) -> (r: ReplyDecoding)
    ensures
        r == if mode == ResponsesResponseMode::NonStreaming && !codex_oauth {
            ReplyDecoding::CompletedJson
        } else {
            ReplyDecoding::EventStream
        },
{
    if mode == ResponsesResponseMode::NonStreaming && !codex_oauth {
        ReplyDecoding::CompletedJson
    } else {
        ReplyDecoding::EventStream
    }
}

/// Whether a candidate's protocol format agrees with the adapter its endpoint is bound to; an
/// attempt is refused before any secret is read when it does not.
pub fn candidate_format_agrees(candidate_format: Option<ApiFormat>, adapter: &EndpointAdapter) -> (r: bool)
    ensures
        r == (candidate_format == Some(binding_format(*adapter))),
{
    match candidate_format {
        Some(f) => f == adapter.api_format(),
        None => false,
    }
}

/// The stored-response lineage a continuation request is pinned to.
#[derive(Clone, Debug)]
pub struct ContinuationPin {
    pub snapshot_version: String,
    pub route_id: String,
}

/// How a routed request executes once admitted.
#[derive(Clone, Copy, Debug, PartialEq, Eq, Structural)]
pub struct RoutedPlan {
    /// The request continues a stored response on its pinned candidate.
    pub exact_continuation: bool,
    /// The Codex field-removal replay is allowed.
    pub allow_compatibility_retry: bool,
    /// A compatible egress lease may be refreshed.
    pub allow_egress_refresh: bool,
}

/// Admits a routed request at its start: the serving generation must still be the one it was
/// built for, a route must be resolved, and a continuation must be pinned to this generation's
/// snapshot and this route. An exact continuation neither replays nor refreshes.
pub fn routed_execution_plan(
    snapshot_current: bool,
    registry_version: &str,
    snapshot_version: &str,
    route_id: Option<&str>,
    continuation: Option<&ContinuationPin>,
) -> (r: Result<RoutedPlan, GatewayError>)
    ensures
        r == if !snapshot_current || registry_version@ != snapshot_version@ {
            Err(crate::errors::spec_internal_error())
        } else if route_id is None {
            Err(crate::errors::spec_route_not_found_error())
        } else if continuation matches Some(pin) && (pin.snapshot_version@ != snapshot_version@
            || pin.route_id@ != route_id->0@) {
            Err(crate::errors::spec_internal_error())
        } else {
            Ok(
                RoutedPlan {
                    exact_continuation: continuation is Some,
                    allow_compatibility_retry: continuation is None,
                    allow_egress_refresh: continuation is None,
                },
            )
        },
{
    if !snapshot_current || !crate::json::str_eq(registry_version, snapshot_version) {
        return Err(crate::errors::stale_runtime_error());
    }
    let route = match route_id {
        Some(r) => r,
        None => return Err(crate::errors::route_not_found_error()),
    };
    match continuation {
        Some(pin) => {
            if !crate::json::str_eq(pin.snapshot_version.as_str(), snapshot_version) || !crate::json::str_eq(
                pin.route_id.as_str(),
                route,
            ) {
                return Err(crate::errors::stale_runtime_error());
            }
            Ok(RoutedPlan { exact_continuation: true, allow_compatibility_retry: false, allow_egress_refresh: false })
        },
        None => Ok(RoutedPlan { exact_continuation: false, allow_compatibility_retry: true, allow_egress_refresh: true }),
    }
}

/// Why a candidate's request cannot be projected onto its endpoint.
#[derive(Clone, Copy, Debug, PartialEq, Eq, Structural)]
pub enum ProjectionRefusal {
    /// No projection is registered for the pair.
    PairUnregistered,
    /// A WebSocket client reached a candidate without Responses WebSocket support.
    ResponsesWebSocketUnsupported,
}

/// Whether an adapter is provider-specific: it serves only its typed Canonical paths.
pub open spec fn provider_specific(adapter: EndpointAdapter) -> bool {
    match adapter {
        EndpointAdapter::KiroMessages { .. } | EndpointAdapter::GrokBuildResponses
        | EndpointAdapter::GrokConsoleResponses | EndpointAdapter::GrokWebResponses
        | EndpointAdapter::GrokOfficialResponses => true,
        _ => false,
    }
}

/// Whether a candidate's request may be translated for its endpoint: a WebSocket client needs
/// the candidate's Responses WebSocket capability, and a provider-specific endpoint serves only
/// the Canonical transforms.
pub fn candidate_projection_gate(
    adapter: &EndpointAdapter,
    transform: TransformMode,
    websocket_client: bool,
    effective: &CapabilitySet,
) -> (r: Result<(), ProjectionRefusal>)
    ensures
        r == if websocket_client && !effective.responses_websocket {
            Err(ProjectionRefusal::ResponsesWebSocketUnsupported)
        } else if provider_specific(*adapter) && transform == TransformMode::LosslessBridge {
            Err(ProjectionRefusal::PairUnregistered)
        } else {
            Ok(())
        },
{
    if websocket_client && !effective.supports(crate::composition::SemanticCapability::ResponsesWebSocket) {
        return Err(ProjectionRefusal::ResponsesWebSocketUnsupported);
    }
    let specific = match adapter {
        EndpointAdapter::KiroMessages { .. } | EndpointAdapter::GrokBuildResponses
        | EndpointAdapter::GrokConsoleResponses | EndpointAdapter::GrokWebResponses
        | EndpointAdapter::GrokOfficialResponses => true,
        _ => false,
    };
    if specific && transform == TransformMode::LosslessBridge {
        return Err(ProjectionRefusal::PairUnregistered);
    }
    Ok(())
}

/// The first steps of one attempt, before any secret is read, URL composed or connection
/// opened: the request's stage is recorded as its conversion, then an endpoint without a
/// binding, a candidate format that disagrees with the binding, or a candidate that cannot be
/// translated for it fails the attempt as non-retryable.
pub fn attempt_start_gate(
    request_id: &String,
    stages: &mut AttemptStageLedger,
    adapter: Option<&EndpointAdapter>,
    candidate_format: Option<ApiFormat>,
    transform: TransformMode,
    websocket_client: bool,
    effective: &CapabilitySet,
) -> (r: Result<(), AttemptFailure>)
    requires
        old(stages)@.wf(),
    ensures
        final(stages)@ == old(stages)@.after_stage(request_id@, ManagementRequestAttemptStage::RequestConversion),
        final(stages)@.wf(),
        r == match adapter {
            None => Err(AttemptFailure::NonRetryable(spec_internal_error())),
            Some(a) => if candidate_format != Some(binding_format(*a)) {
                Err(AttemptFailure::NonRetryable(spec_internal_error()))
            } else if (websocket_client && !effective.responses_websocket) || (provider_specific(*a)
                && transform == TransformMode::LosslessBridge) {
                Err(AttemptFailure::NonRetryable(spec_upstream_protocol_error()))
            } else {
                Ok(())
            },
        },
{
    stages.record_stage(request_id, ManagementRequestAttemptStage::RequestConversion);
    let binding = match adapter {
        Some(a) => a,
        None => return Err(AttemptFailure::NonRetryable(internal_error())),
    };
    if !candidate_format_agrees(candidate_format, binding) {
        return Err(AttemptFailure::NonRetryable(internal_error()));
    }
    match candidate_projection_gate(binding, transform, websocket_client, effective) {
        Ok(()) => Ok(()),
        Err(_) => Err(AttemptFailure::NonRetryable(upstream_protocol_error())),
    }
}

} // verus!
