//! Safe, value-free gateway failures: a closed code and the scope that owns it.
use vstd::prelude::*;

verus! {

/// The closed failure classes the runtime reports.
#[derive(Clone, Copy, Debug, PartialEq, Eq, Structural)]
pub enum GatewayErrorCode {
    RouteNotFound,
    InternalError,
    CredentialUnavailable,
    EgressRejected,
    ProviderPermanent,
    ProviderTransient,
    UpstreamProtocolError,
    StreamTruncated,
    CredentialUnauthorized,
    CredentialForbidden,
    CredentialQuotaExceeded,
    EgressUnavailable,
    ProviderRateLimited,
}

/// The component a failure is attributed to.
#[derive(Clone, Copy, Debug, PartialEq, Eq, Structural)]
pub enum ErrorScope {
    Model,
    Internal,
    Credential,
    Egress,
    Provider,
    Stream,
    Account,
    QuotaWindow,
}

/// One safe, value-free failure.
#[derive(Clone, Copy, Debug, PartialEq, Eq, Structural)]
pub struct GatewayError {
    pub code: GatewayErrorCode,
    pub scope: ErrorScope,
}

impl GatewayError {
    /// The failure class.
    pub fn code(&self) -> (c: GatewayErrorCode)
        ensures
            c == self.code,
    {
        self.code
    }

    /// The component the failure is attributed to.
    pub fn scope(&self) -> (s: ErrorScope)
        ensures
            s == self.scope,
    {
        self.scope
    }
}

pub fn route_not_found_error() -> (e: GatewayError)
    ensures
        e == spec_route_not_found_error(),
{
    GatewayError { code: GatewayErrorCode::RouteNotFound, scope: ErrorScope::Model }
}

pub open spec fn spec_internal_error() -> GatewayError {
    GatewayError { code: GatewayErrorCode::InternalError, scope: ErrorScope::Internal }
}

pub fn internal_error() -> (e: GatewayError)
    ensures
        e == spec_internal_error(),
{
    GatewayError { code: GatewayErrorCode::InternalError, scope: ErrorScope::Internal }
}

pub open spec fn spec_credential_unavailable_error() -> GatewayError {
    GatewayError { code: GatewayErrorCode::CredentialUnavailable, scope: ErrorScope::Credential }
}

/// A request that met a replaced serving generation.
pub fn stale_runtime_error() -> (e: GatewayError)
    ensures
        e == spec_internal_error(),
{
    GatewayError { code: GatewayErrorCode::InternalError, scope: ErrorScope::Internal }
}

pub open spec fn spec_route_not_found_error() -> GatewayError {
    GatewayError { code: GatewayErrorCode::RouteNotFound, scope: ErrorScope::Model }
}

pub fn credential_unavailable_error() -> (e: GatewayError)
    ensures
        e == spec_credential_unavailable_error(),
{
    GatewayError { code: GatewayErrorCode::CredentialUnavailable, scope: ErrorScope::Credential }
}

pub open spec fn spec_egress_rejected_error() -> GatewayError {
    GatewayError { code: GatewayErrorCode::EgressRejected, scope: ErrorScope::Egress }
}

pub fn egress_rejected_error() -> (e: GatewayError)
    ensures
        e == spec_egress_rejected_error(),
{
    GatewayError { code: GatewayErrorCode::EgressRejected, scope: ErrorScope::Egress }
}

pub fn provider_permanent_error() -> (e: GatewayError)
    ensures
        e == (GatewayError {
            code: GatewayErrorCode::ProviderPermanent,
            scope: ErrorScope::Provider,
        }),
{
    GatewayError { code: GatewayErrorCode::ProviderPermanent, scope: ErrorScope::Provider }
}

pub open spec fn spec_provider_transient_error() -> GatewayError {
    GatewayError { code: GatewayErrorCode::ProviderTransient, scope: ErrorScope::Provider }
}

pub fn provider_transient_error() -> (e: GatewayError)
    ensures
        e == spec_provider_transient_error(),
{
    GatewayError { code: GatewayErrorCode::ProviderTransient, scope: ErrorScope::Provider }
}

pub open spec fn spec_upstream_protocol_error() -> GatewayError {
    GatewayError { code: GatewayErrorCode::UpstreamProtocolError, scope: ErrorScope::Stream }
}

pub fn upstream_protocol_error() -> (e: GatewayError)
    ensures
        e == spec_upstream_protocol_error(),
{
    GatewayError { code: GatewayErrorCode::UpstreamProtocolError, scope: ErrorScope::Stream }
}

pub open spec fn spec_stream_truncated_error() -> GatewayError {
    GatewayError { code: GatewayErrorCode::StreamTruncated, scope: ErrorScope::Stream }
}

pub fn stream_truncated_error() -> (e: GatewayError)
    ensures
        e == spec_stream_truncated_error(),
{
    GatewayError { code: GatewayErrorCode::StreamTruncated, scope: ErrorScope::Stream }
}

} // verus!
