//! Operator-requested recovery of one credential binding: which controlled transition a
//! request may take, given the binding's account status and quota availability.
use vstd::prelude::*;
use crate::stage_ledger::ManagementRuntimeError;

verus! {

/// Lifetime of one operator-driven recovery ticket; begin and complete happen in one call.
pub const P12_OPERATOR_RECOVERY_TTL_MS: i64 = 30000;

/// The account-level status the runtime health registry reports for a binding.
#[derive(Clone, Copy, Debug, PartialEq, Eq, Structural)]
pub enum AccountStatus {
    Unauthorized,
    Forbidden,
    RecoveryInFlight,
    Available,
}

/// The quota availability the runtime quota registry reports for a target.
#[derive(Clone, Copy, Debug, PartialEq, Eq, Structural)]
pub enum QuotaAvailability {
    Available,
    Exhausted,
    RecoveryProbeInFlight,
    RecoveryRequired,
}

/// What a recovery request reports back.
#[derive(Clone, Copy, Debug, PartialEq, Eq, Structural)]
pub enum QuotaRecoveryState {
    Rejected,
    RecoveryRequired,
    ProbeScheduled,
}

/// The next step of a recovery request.
#[derive(Clone, Copy, Debug, PartialEq, Eq, Structural)]
pub enum RecoveryStep {
    /// Answer with this state; nothing changes.
    Respond(QuotaRecoveryState),
    /// Run the controlled account recovery of the whole binding.
    RecoverAccount,
    /// Read the target's quota availability.
    CheckQuota,
    /// Run the controlled recovery probe of a due quota target.
    CompleteDueProbe,
}

/// The step an account status admits. An account block covers the whole binding, so only a
/// binding-scoped request (no upstream model) may clear it.
pub open spec fn account_step(status: AccountStatus, model_scoped: bool) -> RecoveryStep {
    match status {
        AccountStatus::Unauthorized | AccountStatus::Forbidden => if model_scoped {
            RecoveryStep::Respond(QuotaRecoveryState::Rejected)
        } else {
            RecoveryStep::RecoverAccount
        },
        AccountStatus::RecoveryInFlight => RecoveryStep::Respond(QuotaRecoveryState::ProbeScheduled),
        AccountStatus::Available => RecoveryStep::CheckQuota,
    }
}

/// Decides the first step of a recovery request from the binding's account status.
pub fn recovery_step_for_account(status: AccountStatus, model_scoped: bool) -> (r: RecoveryStep)
    ensures
        r == account_step(status, model_scoped),
{
    match status {
        AccountStatus::Unauthorized | AccountStatus::Forbidden => if model_scoped {
            RecoveryStep::Respond(QuotaRecoveryState::Rejected)
        } else {
            RecoveryStep::RecoverAccount
        },
        AccountStatus::RecoveryInFlight => RecoveryStep::Respond(QuotaRecoveryState::ProbeScheduled),
        AccountStatus::Available => RecoveryStep::CheckQuota,
    }
}

/// The step a quota availability admits: an available target has nothing to recover, a window
/// before its reset cannot be moved by an operator, a probe in flight reports itself, and only
/// a due target runs the controlled probe.
pub open spec fn quota_step(availability: QuotaAvailability) -> RecoveryStep {
    match availability {
        QuotaAvailability::Available => RecoveryStep::Respond(QuotaRecoveryState::Rejected),
        QuotaAvailability::Exhausted => RecoveryStep::Respond(QuotaRecoveryState::RecoveryRequired),
        QuotaAvailability::RecoveryProbeInFlight => RecoveryStep::Respond(QuotaRecoveryState::ProbeScheduled),
        QuotaAvailability::RecoveryRequired => RecoveryStep::CompleteDueProbe,
    }
}

/// Decides the quota step of a recovery request.
pub fn recovery_step_for_quota(availability: QuotaAvailability) -> (r: RecoveryStep)
    ensures
        r == quota_step(availability),
{
    match availability {
        QuotaAvailability::Available => RecoveryStep::Respond(QuotaRecoveryState::Rejected),
        QuotaAvailability::Exhausted => RecoveryStep::Respond(QuotaRecoveryState::RecoveryRequired),
        QuotaAvailability::RecoveryProbeInFlight => RecoveryStep::Respond(QuotaRecoveryState::ProbeScheduled),
        QuotaAvailability::RecoveryRequired => RecoveryStep::CompleteDueProbe,
    }
}

/// The expiry of a recovery ticket begun at `observed_at_ms`, or `Unavailable` when it does
/// not fit in an `i64`.
pub fn recovery_ticket_expiry(observed_at_ms: i64) -> (r: Result<i64, ManagementRuntimeError>)
    ensures
        observed_at_ms + P12_OPERATOR_RECOVERY_TTL_MS <= i64::MAX ==> r == Ok::<i64, ManagementRuntimeError>(
            (observed_at_ms + P12_OPERATOR_RECOVERY_TTL_MS) as i64,
        ),
        observed_at_ms + P12_OPERATOR_RECOVERY_TTL_MS > i64::MAX ==> r == Err::<i64, ManagementRuntimeError>(
            ManagementRuntimeError::Unavailable,
        ),
{
    match observed_at_ms.checked_add(P12_OPERATOR_RECOVERY_TTL_MS) {
        Some(t) => Ok(t),
        None => Err(ManagementRuntimeError::Unavailable),
    }
}

/// A recovery never clears an account block through a model-scoped request, and never reports
/// a scheduled probe for a target whose quota is simply available.
pub proof fn lemma_model_scope_never_clears_an_account_block(status: AccountStatus)
    requires
        status is Unauthorized || status is Forbidden,
    ensures
        account_step(status, true) == RecoveryStep::Respond(QuotaRecoveryState::Rejected),
        quota_step(QuotaAvailability::Available) == RecoveryStep::Respond(QuotaRecoveryState::Rejected),
{
}

} // verus!
