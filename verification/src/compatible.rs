//! The compatible egress graph of a configuration Version: which generic upstreams may own
//! proxy pools and nodes, and the exact egress settings of each endpoint-credential binding.
//!
//! Compatible egress is a contract of the generic adapters only. An enabled pool or node that
//! no generic upstream owns fails the whole graph rather than sit unreachable behind a graph
//! that looks healthy; disabled rows stay inert.
use vstd::prelude::*;
use crate::accounts::{
    insert_model, lemma_sorted_insert_keeps_a_strict_order, sorted_insert, strictly_ordered,
};
use crate::composition::{RuntimeCompositionError, is_generic_compatible_adapter};
use crate::config::{
    BindingConfig, ControlPlaneConfig, Keyed, find_first_key, first_index, holds_key, keys_of,
    lemma_first_index_append, lemma_first_index_bounds,
};
use crate::endpoint::EndpointConfig;
use crate::json::str_eq;

verus! {

/// One stored proxy pool of a generic upstream.
#[derive(Clone, Debug)]
pub struct ProxyPoolConfig {
    pub id: String,
    pub upstream_id: String,
    pub enabled: bool,
}

/// One stored proxy node: a fixed proxy when it belongs to no pool, else a member of its pool.
#[derive(Clone, Debug)]
pub struct ProxyNodeConfig {
    pub id: String,
    pub upstream_id: String,
    pub pool_id: Option<String>,
    pub enabled: bool,
    pub weight: u16,
    pub maximum_concurrency: i64,
}

/// Where a binding's requests leave the gateway, as stored.
#[derive(Clone, Debug)]
pub enum EgressTargetConfig {
    Direct,
    FixedProxy(String),
    ProxyPool(String),
}

/// What a failure of a compatible attempt is charged to.
#[derive(Clone, Copy, Debug, PartialEq, Eq, Structural)]
pub enum FailureScope {
    Endpoint,
    Credential,
    EgressNode,
}

/// Which choices a continued conversation keeps.
#[derive(Clone, Copy, Debug, PartialEq, Eq, Structural)]
pub enum Stickiness {
    NotSticky,
    Credential,
    CredentialAndEgress,
}

/// The stored egress profile of one endpoint-credential binding.
#[derive(Clone, Debug)]
pub struct CompatibleEgressBindingConfig {
    pub endpoint_id: String,
    pub credential_id: String,
    pub target: EgressTargetConfig,
    pub failure_scope: FailureScope,
    pub stickiness: Stickiness,
    pub pre_submit_max_attempts: u8,
}

/// A resolved egress target.
#[derive(Clone, Debug)]
pub enum EgressTarget {
    Direct,
    FixedProxy { profile_id: String },
    ProxyPool { pool_id: String },
}

/// How often a compatible attempt is retried before its request is submitted.
#[derive(Clone, Copy, Debug, PartialEq, Eq, Structural)]
pub enum RetryPolicy {
    NoRetry,
    PreSubmit { max_attempts: u8 },
}

/// The runtime egress settings of one endpoint-credential binding.
#[derive(Clone, Debug)]
pub struct BindingRuntimeSettings {
    pub target: EgressTarget,
    pub failure_scope: FailureScope,
    pub stickiness: Stickiness,
    pub retry_policy: RetryPolicy,
}

/// The settings of one binding, under its endpoint and credential.
#[derive(Clone, Debug)]
pub struct BindingSettingsEntry {
    pub endpoint_id: String,
    pub credential_id: String,
    pub settings: BindingRuntimeSettings,
}

impl Keyed for ProxyPoolConfig {
    open spec fn key(&self) -> Seq<char> {
        self.id@
    }

    fn key_str(&self) -> (k: &str) {
        self.id.as_str()
    }
}

impl Keyed for ProxyNodeConfig {
    open spec fn key(&self) -> Seq<char> {
        self.id@
    }

    fn key_str(&self) -> (k: &str) {
        self.id.as_str()
    }
}

impl Keyed for String {
    open spec fn key(&self) -> Seq<char> {
        self@
    }

    fn key_str(&self) -> (k: &str) {
        self.as_str()
    }
}

/// Whether an adapter is one of the three generic compatible adapters.
pub open spec fn generic_adapter(adapter_id: Seq<char>) -> bool {
    adapter_id == "openai-compatible.chat-completions"@ || adapter_id
        == "openai-compatible.responses"@ || adapter_id == "anthropic-compatible.messages"@
}

/// Whether endpoint `e` is an enabled generic endpoint whose upstream (the first row with its
/// identifier) exists and is enabled.
pub open spec fn serves_generic_upstream(c: ControlPlaneConfig, e: EndpointConfig) -> bool {
    let i = first_index(keys_of(c.upstreams@), e.upstream_id@);
    &&& e.enabled
    &&& generic_adapter(e.adapter_id@)
    &&& i >= 0
    &&& c.upstreams@[i].enabled
}

/// The upstreams that the endpoints `es` serve generically, each once, in identifier order.
pub open spec fn generic_upstreams_of(c: ControlPlaneConfig, es: Seq<EndpointConfig>) -> Seq<Seq<char>>
    decreases es.len(),
{
    if es.len() == 0 {
        Seq::empty()
    } else {
        let r = generic_upstreams_of(c, es.drop_last());
        if serves_generic_upstream(c, es.last()) {
            sorted_insert(r, es.last().upstream_id@)
        } else {
            r
        }
    }
}

/// The generic upstreams are exactly the upstreams that some endpoint serves generically, each
/// once, in identifier order.
pub proof fn lemma_generic_upstreams_are_the_served_upstreams(c: ControlPlaneConfig, es: Seq<EndpointConfig>)
    ensures
        strictly_ordered(generic_upstreams_of(c, es)),
        forall|u: Seq<char>|
            #[trigger] generic_upstreams_of(c, es).contains(u) <==> exists|i: int|
                0 <= i < es.len() && serves_generic_upstream(c, #[trigger] es[i]) && es[i].upstream_id@ == u,
    decreases es.len(),
{
    if es.len() > 0 {
        let init = es.drop_last();
        lemma_generic_upstreams_are_the_served_upstreams(c, init);
        let r = generic_upstreams_of(c, init);
        if serves_generic_upstream(c, es.last()) {
            lemma_sorted_insert_keeps_a_strict_order(r, es.last().upstream_id@);
        }
        assert forall|u: Seq<char>|
            #[trigger] generic_upstreams_of(c, es).contains(u) <==> exists|i: int|
                0 <= i < es.len() && serves_generic_upstream(c, #[trigger] es[i]) && es[i].upstream_id@ == u by {
            if exists|i: int| 0 <= i < es.len() && serves_generic_upstream(c, #[trigger] es[i]) && es[i].upstream_id@ == u {
                let i = choose|i: int|
                    0 <= i < es.len() && serves_generic_upstream(c, #[trigger] es[i]) && es[i].upstream_id@ == u;
                if i < es.len() - 1 {
                    assert(init[i] == es[i]);
                }
            }
            if exists|i: int| 0 <= i < init.len() && serves_generic_upstream(c, #[trigger] init[i]) && init[i].upstream_id@ == u {
                let i = choose|i: int|
                    0 <= i < init.len() && serves_generic_upstream(c, #[trigger] init[i]) && init[i].upstream_id@ == u;
                assert(es[i] == init[i]);
            }
        }
    }
}

/// Returns whether endpoint `e` serves its upstream generically.
fn serves_generic(configuration: &ControlPlaneConfig, e: &EndpointConfig) -> (r: bool)
    ensures
        r == serves_generic_upstream(*configuration, *e),
{
    if !e.enabled || !is_generic_compatible_adapter(e.adapter_id.as_str()) {
        return false;
    }
    match find_first_key(&configuration.upstreams, e.upstream_id.as_str()) {
        Some(i) => configuration.upstreams[i].enabled,
        None => false,
    }
}

/// Returns the generic upstreams of the Version, each once, in identifier order.
pub fn compatible_generic_upstreams(configuration: &ControlPlaneConfig) -> (r: Vec<String>)
    ensures
        keys_of(r@) == generic_upstreams_of(*configuration, configuration.endpoints@),
{
    let mut upstreams: Vec<String> = Vec::new();
    let mut i: usize = 0;
    proof {
        assert(keys_of(upstreams@) =~= Seq::<Seq<char>>::empty());
        assert(configuration.endpoints@.take(0) =~= Seq::<EndpointConfig>::empty());
    }
    while i < configuration.endpoints.len()
        invariant
            0 <= i <= configuration.endpoints@.len(),
            keys_of(upstreams@) == generic_upstreams_of(*configuration, configuration.endpoints@.take(i as int)),
        decreases configuration.endpoints.len() - i,
    {
        let ghost before = configuration.endpoints@.take(i as int);
        let ghost after = configuration.endpoints@.take(i + 1);
        proof {
            assert(after.drop_last() =~= before);
            assert(after.last() == configuration.endpoints@[i as int]);
        }
        let e = &configuration.endpoints[i];
        if serves_generic(configuration, e) {
            proof {
                assert(keys_of(upstreams@) =~= upstreams@.map_values(|s: String| s@));
            }
            insert_model(&mut upstreams, &e.upstream_id);
            proof {
                assert(keys_of(upstreams@) =~= upstreams@.map_values(|s: String| s@));
            }
        }
        i = i + 1;
    }
    proof {
        assert(configuration.endpoints@.take(i as int) =~= configuration.endpoints@);
    }
    upstreams
}

/// Whether an enabled pool belongs to one of the generic upstreams `g`.
pub open spec fn pool_owned(g: Seq<Seq<char>>, p: ProxyPoolConfig) -> bool {
    p.enabled ==> g.contains(p.upstream_id@)
}

/// Whether an enabled node belongs to one of the generic upstreams `g`, and either sits in an
/// enabled pool of its own upstream (the first pool with its identifier) or, outside any pool,
/// has weight 1.
pub open spec fn node_owned(c: ControlPlaneConfig, g: Seq<Seq<char>>, n: ProxyNodeConfig) -> bool {
    n.enabled ==> {
        &&& g.contains(n.upstream_id@)
        &&& match n.pool_id {
            Some(pool_id) => {
                let i = first_index(keys_of(c.compatible_proxy_pools@), pool_id@);
                &&& i >= 0
                &&& c.compatible_proxy_pools@[i].upstream_id@ == n.upstream_id@
                &&& c.compatible_proxy_pools@[i].enabled
            },
            None => n.weight == 1,
        }
    }
}

/// Whether every enabled pool and node of the Version is owned by a generic upstream of `g`.
pub open spec fn resources_owned(c: ControlPlaneConfig, g: Seq<Seq<char>>) -> bool {
    &&& forall|i: int|
        0 <= i < c.compatible_proxy_pools@.len() ==> pool_owned(g, #[trigger] c.compatible_proxy_pools@[i])
    &&& forall|i: int|
        0 <= i < c.compatible_proxy_nodes@.len() ==> node_owned(c, g, #[trigger] c.compatible_proxy_nodes@[i])
}

/// Returns whether node `n` is owned by one of `generic_upstreams`.
fn node_is_owned(
    configuration: &ControlPlaneConfig,
    generic_upstreams: &Vec<String>,
    n: &ProxyNodeConfig,
) -> (r: bool)
    ensures
        r == node_owned(*configuration, keys_of(generic_upstreams@), *n),
{
    if !n.enabled {
        return true;
    }
    if !holds_key(generic_upstreams, n.upstream_id.as_str()) {
        return false;
    }
    match &n.pool_id {
        Some(pool_id) => match find_first_key(&configuration.compatible_proxy_pools, pool_id.as_str()) {
            Some(i) => {
                let pool = &configuration.compatible_proxy_pools[i];
                str_eq(pool.upstream_id.as_str(), n.upstream_id.as_str()) && pool.enabled
            },
            None => false,
        },
        None => n.weight == 1,
    }
}

/// Checks that every enabled proxy pool and node is owned by a generic upstream of
/// `generic_upstreams`; any other is `Unavailable`.
pub fn validate_compatible_resource_ownership(
    configuration: &ControlPlaneConfig,
    generic_upstreams: &Vec<String>,
) -> (r: Result<(), RuntimeCompositionError>)
    ensures
        r is Ok <==> resources_owned(*configuration, keys_of(generic_upstreams@)),
        r is Err ==> r == Err::<(), RuntimeCompositionError>(RuntimeCompositionError::Unavailable),
{
    let ghost g = keys_of(generic_upstreams@);
    let mut i: usize = 0;
    while i < configuration.compatible_proxy_pools.len()
        invariant
            0 <= i <= configuration.compatible_proxy_pools@.len(),
            g == keys_of(generic_upstreams@),
            forall|j: int| 0 <= j < i ==> pool_owned(g, #[trigger] configuration.compatible_proxy_pools@[j]),
        decreases configuration.compatible_proxy_pools.len() - i,
    {
        let pool = &configuration.compatible_proxy_pools[i];
        if pool.enabled && !holds_key(generic_upstreams, pool.upstream_id.as_str()) {
            assert(!pool_owned(g, configuration.compatible_proxy_pools@[i as int]));
            return Err(RuntimeCompositionError::Unavailable);
        }
        i = i + 1;
    }
    let mut k: usize = 0;
    while k < configuration.compatible_proxy_nodes.len()
        invariant
            0 <= k <= configuration.compatible_proxy_nodes@.len(),
            g == keys_of(generic_upstreams@),
            forall|j: int|
                0 <= j < configuration.compatible_proxy_pools@.len() ==> pool_owned(g, #[trigger] configuration.compatible_proxy_pools@[j]),
            forall|j: int| 0 <= j < k ==> node_owned(*configuration, g, #[trigger] configuration.compatible_proxy_nodes@[j]),
        decreases configuration.compatible_proxy_nodes.len() - k,
    {
        if !node_is_owned(configuration, generic_upstreams, &configuration.compatible_proxy_nodes[k]) {
            assert(!node_owned(*configuration, g, configuration.compatible_proxy_nodes@[k as int]));
            return Err(RuntimeCompositionError::Unavailable);
        }
        k = k + 1;
    }
    Ok(())
}

/// The target a binding of endpoint `e` resolves to: a fixed proxy must be an enabled node of
/// the endpoint's upstream outside any pool, a pool an enabled pool of that upstream (each the
/// first row with its identifier); anything else is `Unavailable`.
pub open spec fn binding_target(c: ControlPlaneConfig, e: EndpointConfig, t: EgressTargetConfig) -> Result<
    EgressTarget,
    RuntimeCompositionError,
> {
    match t {
        EgressTargetConfig::Direct => Ok(EgressTarget::Direct),
        EgressTargetConfig::FixedProxy(node_id) => {
            let i = first_index(keys_of(c.compatible_proxy_nodes@), node_id@);
            if i >= 0 && c.compatible_proxy_nodes@[i].upstream_id@ == e.upstream_id@
                && c.compatible_proxy_nodes@[i].pool_id is None && c.compatible_proxy_nodes@[i].enabled {
                Ok(EgressTarget::FixedProxy { profile_id: c.compatible_proxy_nodes@[i].id })
            } else {
                Err(RuntimeCompositionError::Unavailable)
            }
        },
        EgressTargetConfig::ProxyPool(pool_id) => {
            let i = first_index(keys_of(c.compatible_proxy_pools@), pool_id@);
            if i >= 0 && c.compatible_proxy_pools@[i].upstream_id@ == e.upstream_id@
                && c.compatible_proxy_pools@[i].enabled {
                Ok(EgressTarget::ProxyPool { pool_id: c.compatible_proxy_pools@[i].id })
            } else {
                Err(RuntimeCompositionError::Unavailable)
            }
        },
    }
}

/// A resolved target never leaves its endpoint's upstream: a fixed proxy is an enabled node of
/// that upstream outside any pool, and a pool an enabled pool of that upstream.
pub proof fn lemma_resolved_targets_stay_on_their_upstream(c: ControlPlaneConfig, e: EndpointConfig, t: EgressTargetConfig)
    requires
        binding_target(c, e, t) is Ok,
    ensures
        match binding_target(c, e, t) {
            Ok(EgressTarget::FixedProxy { profile_id }) => exists|i: int|
                0 <= i < c.compatible_proxy_nodes@.len() && (#[trigger] c.compatible_proxy_nodes@[i]).id
                    == profile_id && c.compatible_proxy_nodes@[i].upstream_id@ == e.upstream_id@
                    && c.compatible_proxy_nodes@[i].enabled && c.compatible_proxy_nodes@[i].pool_id is None,
            Ok(EgressTarget::ProxyPool { pool_id }) => exists|i: int|
                0 <= i < c.compatible_proxy_pools@.len() && (#[trigger] c.compatible_proxy_pools@[i]).id
                    == pool_id && c.compatible_proxy_pools@[i].upstream_id@ == e.upstream_id@
                    && c.compatible_proxy_pools@[i].enabled,
            _ => true,
        },
{
    match t {
        EgressTargetConfig::FixedProxy(node_id) => {
            lemma_first_index_bounds(keys_of(c.compatible_proxy_nodes@), node_id@);
        },
        EgressTargetConfig::ProxyPool(pool_id) => {
            lemma_first_index_bounds(keys_of(c.compatible_proxy_pools@), pool_id@);
        },
        EgressTargetConfig::Direct => {},
    }
}

/// Resolves the stored target of a binding of `endpoint`.
pub fn compatible_binding_target(
    configuration: &ControlPlaneConfig,
    endpoint: &EndpointConfig,
    target: &EgressTargetConfig,
) -> (r: Result<EgressTarget, RuntimeCompositionError>)
    ensures
        r == binding_target(*configuration, *endpoint, *target),
{
    match target {
        EgressTargetConfig::Direct => Ok(EgressTarget::Direct),
        EgressTargetConfig::FixedProxy(node_id) => {
            match find_first_key(&configuration.compatible_proxy_nodes, node_id.as_str()) {
                Some(i) => {
                    let node = &configuration.compatible_proxy_nodes[i];
                    if str_eq(node.upstream_id.as_str(), endpoint.upstream_id.as_str()) && node.pool_id.is_none()
                        && node.enabled {
                        Ok(EgressTarget::FixedProxy { profile_id: node.id.clone() })
                    } else {
                        Err(RuntimeCompositionError::Unavailable)
                    }
                },
                None => Err(RuntimeCompositionError::Unavailable),
            }
        },
        EgressTargetConfig::ProxyPool(pool_id) => {
            match find_first_key(&configuration.compatible_proxy_pools, pool_id.as_str()) {
                Some(i) => {
                    let pool = &configuration.compatible_proxy_pools[i];
                    if str_eq(pool.upstream_id.as_str(), endpoint.upstream_id.as_str()) && pool.enabled {
                        Ok(EgressTarget::ProxyPool { pool_id: pool.id.clone() })
                    } else {
                        Err(RuntimeCompositionError::Unavailable)
                    }
                },
                None => Err(RuntimeCompositionError::Unavailable),
            }
        },
    }
}

/// Whether the Version holds the endpoint-credential binding that a compatible egress profile
/// `b` refines, on the endpoint's upstream.
pub open spec fn binding_row_matches(x: BindingConfig, b: CompatibleEgressBindingConfig, upstream_id: Seq<char>) -> bool {
    &&& x.endpoint_id@ == b.endpoint_id@
    &&& x.credential_id@ == b.credential_id@
    &&& x.upstream_id@ == upstream_id
}

/// The retry policy of a stored attempt budget: one attempt retries nothing, none is refused.
pub open spec fn retry_policy_for(max_attempts: u8) -> Option<RetryPolicy> {
    if max_attempts == 1 {
        Some(RetryPolicy::NoRetry)
    } else if max_attempts == 0 {
        None
    } else {
        Some(RetryPolicy::PreSubmit { max_attempts })
    }
}

/// The runtime settings of egress profile `b`, or `None` when it is refused: its endpoint (the
/// first with its identifier) must be an enabled generic endpoint whose upstream is one of the
/// generic upstreams `g`, its credential (likewise) must belong to that upstream, the plain
/// binding must exist, and its target and attempt budget must resolve.
pub open spec fn binding_settings(c: ControlPlaneConfig, g: Seq<Seq<char>>, b: CompatibleEgressBindingConfig) -> Option<
    BindingRuntimeSettings,
> {
    let ei = first_index(keys_of(c.endpoints@), b.endpoint_id@);
    let ki = first_index(keys_of(c.credentials@), b.credential_id@);
    if ei < 0 || ki < 0 {
        None
    } else {
        let e = c.endpoints@[ei];
        if !e.enabled || !generic_adapter(e.adapter_id@) || c.credentials@[ki].upstream_id@ != e.upstream_id@
            || !(exists|j: int|
            0 <= j < c.endpoint_credential_bindings@.len() && binding_row_matches(
                #[trigger] c.endpoint_credential_bindings@[j],
                b,
                e.upstream_id@,
            )) {
            None
        } else {
            match (binding_target(c, e, b.target), retry_policy_for(b.pre_submit_max_attempts)) {
                (Ok(target), Some(retry_policy)) => if g.contains(e.upstream_id@) {
                    Some(
                        BindingRuntimeSettings {
                            target,
                            failure_scope: b.failure_scope,
                            stickiness: b.stickiness,
                            retry_policy,
                        },
                    )
                } else {
                    None
                },
                _ => None,
            }
        }
    }
}

/// Returns whether the Version holds the plain binding that `b` refines.
fn binding_row_exists(configuration: &ControlPlaneConfig, b: &CompatibleEgressBindingConfig, upstream_id: &str) -> (r: bool)
    ensures
        r == exists|j: int|
            0 <= j < configuration.endpoint_credential_bindings@.len() && binding_row_matches(
                #[trigger] configuration.endpoint_credential_bindings@[j],
                *b,
                upstream_id@,
            ),
{
    let mut i: usize = 0;
    while i < configuration.endpoint_credential_bindings.len()
        invariant
            0 <= i <= configuration.endpoint_credential_bindings@.len(),
            forall|j: int|
                0 <= j < i ==> !binding_row_matches(#[trigger] configuration.endpoint_credential_bindings@[j], *b, upstream_id@),
        decreases configuration.endpoint_credential_bindings.len() - i,
    {
        let x = &configuration.endpoint_credential_bindings[i];
        if str_eq(x.endpoint_id.as_str(), b.endpoint_id.as_str()) && str_eq(
            x.credential_id.as_str(),
            b.credential_id.as_str(),
        ) && str_eq(x.upstream_id.as_str(), upstream_id) {
            assert(binding_row_matches(configuration.endpoint_credential_bindings@[i as int], *b, upstream_id@));
            return true;
        }
        i = i + 1;
    }
    false
}

/// Resolves the runtime settings of one egress profile.
fn binding_runtime_settings(
    configuration: &ControlPlaneConfig,
    generic_upstreams: &Vec<String>,
    b: &CompatibleEgressBindingConfig,
) -> (r: Option<BindingRuntimeSettings>)
    ensures
        r == binding_settings(*configuration, keys_of(generic_upstreams@), *b),
{
    let ei = match find_first_key(&configuration.endpoints, b.endpoint_id.as_str()) {
        Some(i) => i,
        None => return None,
    };
    let ki = match find_first_key(&configuration.credentials, b.credential_id.as_str()) {
        Some(i) => i,
        None => return None,
    };
    let endpoint = &configuration.endpoints[ei];
    if !endpoint.enabled || !is_generic_compatible_adapter(endpoint.adapter_id.as_str()) {
        return None;
    }
    if !str_eq(configuration.credentials[ki].upstream_id.as_str(), endpoint.upstream_id.as_str()) {
        return None;
    }
    if !binding_row_exists(configuration, b, endpoint.upstream_id.as_str()) {
        return None;
    }
    let target = match compatible_binding_target(configuration, endpoint, &b.target) {
        Ok(t) => t,
        Err(_) => return None,
    };
    let retry_policy = if b.pre_submit_max_attempts == 1 {
        RetryPolicy::NoRetry
    } else if b.pre_submit_max_attempts == 0 {
        return None;
    } else {
        RetryPolicy::PreSubmit { max_attempts: b.pre_submit_max_attempts }
    };
    if !holds_key(generic_upstreams, endpoint.upstream_id.as_str()) {
        return None;
    }
    Some(BindingRuntimeSettings { target, failure_scope: b.failure_scope, stickiness: b.stickiness, retry_policy })
}

/// Whether two egress profiles refine the same endpoint-credential binding.
pub open spec fn same_binding(a: CompatibleEgressBindingConfig, b: CompatibleEgressBindingConfig) -> bool {
    a.endpoint_id@ == b.endpoint_id@ && a.credential_id@ == b.credential_id@
}

/// Whether every egress profile of the Version resolves and no two refine the same binding.
pub open spec fn bindings_admitted(c: ControlPlaneConfig, g: Seq<Seq<char>>) -> bool {
    &&& forall|i: int|
        0 <= i < c.compatible_egress_bindings@.len() ==> (#[trigger] binding_settings(c, g, c.compatible_egress_bindings@[i])) is Some
    &&& forall|i: int, j: int|
        0 <= i < j < c.compatible_egress_bindings@.len() ==> !same_binding(
            #[trigger] c.compatible_egress_bindings@[i],
            #[trigger] c.compatible_egress_bindings@[j],
        )
}

/// Whether entry `x` holds the resolved settings of profile `b`.
pub open spec fn entry_of(c: ControlPlaneConfig, g: Seq<Seq<char>>, b: CompatibleEgressBindingConfig, x: BindingSettingsEntry) -> bool {
    &&& x.endpoint_id == b.endpoint_id
    &&& x.credential_id == b.credential_id
    &&& binding_settings(c, g, b) == Some(x.settings)
}

/// Returns whether an earlier entry is keyed by `endpoint_id` and `credential_id`.
fn holds_binding(entries: &Vec<BindingSettingsEntry>, endpoint_id: &str, credential_id: &str) -> (r: bool)
    ensures
        r == exists|j: int|
            0 <= j < entries@.len() && (#[trigger] entries@[j]).endpoint_id@ == endpoint_id@
                && entries@[j].credential_id@ == credential_id@,
{
    let mut i: usize = 0;
    while i < entries.len()
        invariant
            0 <= i <= entries@.len(),
            forall|j: int|
                0 <= j < i ==> !((#[trigger] entries@[j]).endpoint_id@ == endpoint_id@ && entries@[j].credential_id@
                    == credential_id@),
        decreases entries.len() - i,
    {
        if str_eq(entries[i].endpoint_id.as_str(), endpoint_id) && str_eq(
            entries[i].credential_id.as_str(),
            credential_id,
        ) {
            return true;
        }
        i = i + 1;
    }
    false
}

/// Resolves the runtime egress settings of every endpoint-credential binding, in stored order;
/// a profile that does not resolve, or a second profile for one binding, is `Unavailable`.
pub fn compatible_binding_runtime_settings(
    configuration: &ControlPlaneConfig,
    generic_upstreams: &Vec<String>,
) -> (r: Result<Vec<BindingSettingsEntry>, RuntimeCompositionError>)
    ensures
        r is Ok <==> bindings_admitted(*configuration, keys_of(generic_upstreams@)),
        match r {
            Ok(v) => v@.len() == configuration.compatible_egress_bindings@.len() && forall|i: int|
                0 <= i < v@.len() ==> entry_of(
                    *configuration,
                    keys_of(generic_upstreams@),
                    configuration.compatible_egress_bindings@[i],
                    #[trigger] v@[i],
                ),
            Err(e) => e == RuntimeCompositionError::Unavailable,
        },
{
    let ghost g = keys_of(generic_upstreams@);
    let ghost bs = configuration.compatible_egress_bindings@;
    let mut entries: Vec<BindingSettingsEntry> = Vec::new();
    let mut i: usize = 0;
    while i < configuration.compatible_egress_bindings.len()
        invariant
            0 <= i <= bs.len(),
            g == keys_of(generic_upstreams@),
            bs == configuration.compatible_egress_bindings@,
            entries@.len() == i,
            forall|j: int| 0 <= j < i ==> entry_of(*configuration, g, bs[j], #[trigger] entries@[j]),
            forall|j: int| 0 <= j < i ==> (#[trigger] binding_settings(*configuration, g, bs[j])) is Some,
            forall|j: int, k: int| 0 <= j < k < i ==> !same_binding(#[trigger] bs[j], #[trigger] bs[k]),
        decreases bs.len() - i,
    {
        let b = &configuration.compatible_egress_bindings[i];
        let settings = match binding_runtime_settings(configuration, generic_upstreams, b) {
            Some(s) => s,
            None => {
                assert(binding_settings(*configuration, g, bs[i as int]) is None);
                return Err(RuntimeCompositionError::Unavailable);
            },
        };
        if holds_binding(&entries, b.endpoint_id.as_str(), b.credential_id.as_str()) {
            proof {
                let j = choose|j: int|
                    0 <= j < entries@.len() && (#[trigger] entries@[j]).endpoint_id@ == b.endpoint_id@
                        && entries@[j].credential_id@ == b.credential_id@;
                assert(entry_of(*configuration, g, bs[j], entries@[j]));
                assert(same_binding(bs[j], bs[i as int]));
            }
            return Err(RuntimeCompositionError::Unavailable);
        }
        proof {
            assert forall|j: int, k: int| 0 <= j < k < i + 1 implies !same_binding(#[trigger] bs[j], #[trigger] bs[k]) by {
                if k == i {
                    assert(entry_of(*configuration, g, bs[j], entries@[j]));
                }
            }
        }
        entries.push(
            BindingSettingsEntry {
                endpoint_id: b.endpoint_id.clone(),
                credential_id: b.credential_id.clone(),
                settings,
            },
        );
        i = i + 1;
    }
    Ok(entries)
}

/// Whether some enabled pool of upstream `upstream_id` has identifier `pool_id`.
pub open spec fn has_enabled_pool(c: ControlPlaneConfig, upstream_id: Seq<char>, pool_id: Seq<char>) -> bool {
    exists|k: int|
        0 <= k < c.compatible_proxy_pools@.len() && (#[trigger] c.compatible_proxy_pools@[k]).enabled
            && c.compatible_proxy_pools@[k].upstream_id@ == upstream_id && c.compatible_proxy_pools@[k].id@ == pool_id
}

/// Whether node `n` feeds the transport registry of a generic upstream of `g`: as a fixed proxy,
/// or as a member of an enabled pool of its upstream.
pub open spec fn node_feeds_registry(c: ControlPlaneConfig, g: Seq<Seq<char>>, n: ProxyNodeConfig) -> bool {
    &&& n.enabled
    &&& g.contains(n.upstream_id@)
    &&& match n.pool_id {
        Some(pool_id) => has_enabled_pool(c, n.upstream_id@, pool_id@),
        None => true,
    }
}

/// Whether enabled pool `p` of a generic upstream of `g` has at least one enabled member of
/// its own upstream: an empty pool would turn its bindings into an implicit fallback.
pub open spec fn pool_populated(c: ControlPlaneConfig, g: Seq<Seq<char>>, p: ProxyPoolConfig) -> bool {
    p.enabled && g.contains(p.upstream_id@) ==> exists|j: int|
        0 <= j < c.compatible_proxy_nodes@.len() && pool_member(#[trigger] c.compatible_proxy_nodes@[j], p)
}

/// Whether node `n` is an enabled member of pool `p`.
pub open spec fn pool_member(n: ProxyNodeConfig, p: ProxyPoolConfig) -> bool {
    &&& n.enabled
    &&& n.upstream_id@ == p.upstream_id@
    &&& n.pool_id matches Some(pool_id) && pool_id@ == p.id@
}

/// Whether the transport registries of the generic upstreams `g` can be built from the stored
/// rows: every enabled pool has a member, and every node that feeds a registry has a
/// concurrency limit that is a machine size.
pub open spec fn registry_shape_admitted(c: ControlPlaneConfig, g: Seq<Seq<char>>) -> bool {
    &&& forall|i: int|
        0 <= i < c.compatible_proxy_pools@.len() ==> pool_populated(c, g, #[trigger] c.compatible_proxy_pools@[i])
    &&& forall|i: int|
        0 <= i < c.compatible_proxy_nodes@.len() && node_feeds_registry(c, g, #[trigger] c.compatible_proxy_nodes@[i])
            ==> 0 <= c.compatible_proxy_nodes@[i].maximum_concurrency <= usize::MAX
}

/// Returns whether some enabled pool of `upstream_id` has identifier `pool_id`.
fn enabled_pool_exists(configuration: &ControlPlaneConfig, upstream_id: &str, pool_id: &str) -> (r: bool)
    ensures
        r == has_enabled_pool(*configuration, upstream_id@, pool_id@),
{
    let mut k: usize = 0;
    while k < configuration.compatible_proxy_pools.len()
        invariant
            0 <= k <= configuration.compatible_proxy_pools@.len(),
            forall|j: int|
                0 <= j < k ==> !((#[trigger] configuration.compatible_proxy_pools@[j]).enabled
                    && configuration.compatible_proxy_pools@[j].upstream_id@ == upstream_id@
                    && configuration.compatible_proxy_pools@[j].id@ == pool_id@),
        decreases configuration.compatible_proxy_pools.len() - k,
    {
        let p = &configuration.compatible_proxy_pools[k];
        if p.enabled && str_eq(p.upstream_id.as_str(), upstream_id) && str_eq(p.id.as_str(), pool_id) {
            return true;
        }
        k = k + 1;
    }
    false
}

/// Returns whether pool `p` has an enabled member.
fn pool_has_member(configuration: &ControlPlaneConfig, p: &ProxyPoolConfig) -> (r: bool)
    ensures
        r == exists|j: int|
            0 <= j < configuration.compatible_proxy_nodes@.len() && pool_member(#[trigger] configuration.compatible_proxy_nodes@[j], *p),
{
    let mut j: usize = 0;
    while j < configuration.compatible_proxy_nodes.len()
        invariant
            0 <= j <= configuration.compatible_proxy_nodes@.len(),
            forall|k: int| 0 <= k < j ==> !pool_member(#[trigger] configuration.compatible_proxy_nodes@[k], *p),
        decreases configuration.compatible_proxy_nodes.len() - j,
    {
        let n = &configuration.compatible_proxy_nodes[j];
        let member = match &n.pool_id {
            Some(pool_id) => n.enabled && str_eq(n.upstream_id.as_str(), p.upstream_id.as_str()) && str_eq(
                pool_id.as_str(),
                p.id.as_str(),
            ),
            None => false,
        };
        if member {
            assert(pool_member(configuration.compatible_proxy_nodes@[j as int], *p));
            return true;
        }
        j = j + 1;
    }
    false
}

/// Checks that the transport registries of `generic_upstreams` can be built from the stored
/// rows; an empty enabled pool or a concurrency limit that is no machine size is `Unavailable`.
pub fn validate_compatible_registry_shape(
    configuration: &ControlPlaneConfig,
    generic_upstreams: &Vec<String>,
) -> (r: Result<(), RuntimeCompositionError>)
    ensures
        r is Ok <==> registry_shape_admitted(*configuration, keys_of(generic_upstreams@)),
        r is Err ==> r == Err::<(), RuntimeCompositionError>(RuntimeCompositionError::Unavailable),
{
    let ghost g = keys_of(generic_upstreams@);
    let mut i: usize = 0;
    while i < configuration.compatible_proxy_pools.len()
        invariant
            0 <= i <= configuration.compatible_proxy_pools@.len(),
            g == keys_of(generic_upstreams@),
            forall|j: int| 0 <= j < i ==> pool_populated(*configuration, g, #[trigger] configuration.compatible_proxy_pools@[j]),
        decreases configuration.compatible_proxy_pools.len() - i,
    {
        let p = &configuration.compatible_proxy_pools[i];
        if p.enabled && holds_key(generic_upstreams, p.upstream_id.as_str()) && !pool_has_member(configuration, p) {
            assert(!pool_populated(*configuration, g, configuration.compatible_proxy_pools@[i as int]));
            return Err(RuntimeCompositionError::Unavailable);
        }
        i = i + 1;
    }
    let mut k: usize = 0;
    while k < configuration.compatible_proxy_nodes.len()
        invariant
            0 <= k <= configuration.compatible_proxy_nodes@.len(),
            g == keys_of(generic_upstreams@),
            forall|j: int|
                0 <= j < configuration.compatible_proxy_pools@.len() ==> pool_populated(*configuration, g, #[trigger] configuration.compatible_proxy_pools@[j]),
            forall|j: int|
                0 <= j < k && node_feeds_registry(*configuration, g, #[trigger] configuration.compatible_proxy_nodes@[j])
                    ==> 0 <= configuration.compatible_proxy_nodes@[j].maximum_concurrency <= usize::MAX,
        decreases configuration.compatible_proxy_nodes.len() - k,
    {
        let n = &configuration.compatible_proxy_nodes[k];
        let feeds = n.enabled && holds_key(generic_upstreams, n.upstream_id.as_str()) && match &n.pool_id {
            Some(pool_id) => enabled_pool_exists(configuration, n.upstream_id.as_str(), pool_id.as_str()),
            None => true,
        };
        if feeds && (n.maximum_concurrency < 0 || n.maximum_concurrency as u64 > usize::MAX as u64) {
            assert(node_feeds_registry(*configuration, g, configuration.compatible_proxy_nodes@[k as int]));
            return Err(RuntimeCompositionError::Unavailable);
        }
        k = k + 1;
    }
    Ok(())
}

/// The compatible egress graph of a Version, as far as it is decided by the stored rows.
#[derive(Clone, Debug)]
pub struct CompatibleEgressGraph {
    /// The generic upstreams, each once, in identifier order.
    pub generic_upstreams: Vec<String>,
    /// The runtime settings of each egress profile, in stored order.
    pub bindings: Vec<BindingSettingsEntry>,
}

/// Whether the compatible egress graph of `c` is admitted over its generic upstreams `g`.
pub open spec fn egress_graph_admitted(c: ControlPlaneConfig, g: Seq<Seq<char>>) -> bool {
    resources_owned(c, g) && registry_shape_admitted(c, g) && bindings_admitted(c, g)
}

/// Compiles the compatible egress graph of a Version: its generic upstreams, the ownership of
/// every proxy pool and node, the shape of each upstream's transport registry, and the runtime
/// settings of each binding. Any refusal is `Unavailable`.
pub fn compatible_egress_graph(configuration: &ControlPlaneConfig) -> (r: Result<CompatibleEgressGraph, RuntimeCompositionError>)
    ensures
        r is Ok <==> egress_graph_admitted(
            *configuration,
            generic_upstreams_of(*configuration, configuration.endpoints@),
        ),
        match r {
            Ok(graph) => {
                &&& keys_of(graph.generic_upstreams@) == generic_upstreams_of(*configuration, configuration.endpoints@)
                &&& graph.bindings@.len() == configuration.compatible_egress_bindings@.len()
                &&& forall|i: int|
                    0 <= i < graph.bindings@.len() ==> entry_of(
                        *configuration,
                        keys_of(graph.generic_upstreams@),
                        configuration.compatible_egress_bindings@[i],
                        #[trigger] graph.bindings@[i],
                    )
            },
            Err(e) => e == RuntimeCompositionError::Unavailable,
        },
{
    let generic_upstreams = compatible_generic_upstreams(configuration);
    match validate_compatible_resource_ownership(configuration, &generic_upstreams) {
        Ok(()) => {},
        Err(e) => return Err(e),
    }
    match validate_compatible_registry_shape(configuration, &generic_upstreams) {
        Ok(()) => {},
        Err(e) => return Err(e),
    }
    match compatible_binding_runtime_settings(configuration, &generic_upstreams) {
        Ok(bindings) => Ok(CompatibleEgressGraph { generic_upstreams, bindings }),
        Err(e) => Err(e),
    }
}

/// Whether `d` is `c` with only disabled proxy pools and nodes appended.
pub open spec fn with_disabled_resources_appended(c: ControlPlaneConfig, d: ControlPlaneConfig) -> bool {
    &&& d.upstreams@ == c.upstreams@
    &&& d.endpoints@ == c.endpoints@
    &&& d.credentials@ == c.credentials@
    &&& d.endpoint_credential_bindings@ == c.endpoint_credential_bindings@
    &&& d.compatible_egress_bindings@ == c.compatible_egress_bindings@
    &&& c.compatible_proxy_pools@.len() <= d.compatible_proxy_pools@.len()
    &&& d.compatible_proxy_pools@.take(c.compatible_proxy_pools@.len() as int) == c.compatible_proxy_pools@
    &&& forall|i: int|
        c.compatible_proxy_pools@.len() <= i < d.compatible_proxy_pools@.len()
            ==> !(#[trigger] d.compatible_proxy_pools@[i]).enabled
    &&& c.compatible_proxy_nodes@.len() <= d.compatible_proxy_nodes@.len()
    &&& d.compatible_proxy_nodes@.take(c.compatible_proxy_nodes@.len() as int) == c.compatible_proxy_nodes@
    &&& forall|i: int|
        c.compatible_proxy_nodes@.len() <= i < d.compatible_proxy_nodes@.len()
            ==> !(#[trigger] d.compatible_proxy_nodes@[i]).enabled
}

proof fn lemma_generic_upstreams_read_only_upstreams(c: ControlPlaneConfig, d: ControlPlaneConfig, es: Seq<EndpointConfig>)
    requires
        d.upstreams@ == c.upstreams@,
    ensures
        generic_upstreams_of(d, es) == generic_upstreams_of(c, es),
    decreases es.len(),
{
    if es.len() > 0 {
        lemma_generic_upstreams_read_only_upstreams(c, d, es.drop_last());
    }
}

/// The first pool (node) found under a key in `d` is the one found in `c`, or an appended
/// disabled row, or none in both.
proof fn lemma_lookups_after_disabled_append(c: ControlPlaneConfig, d: ControlPlaneConfig, key: Seq<char>)
    requires
        with_disabled_resources_appended(c, d),
    ensures
        ({
            let i = first_index(keys_of(c.compatible_proxy_pools@), key);
            let j = first_index(keys_of(d.compatible_proxy_pools@), key);
            &&& -1 <= i < c.compatible_proxy_pools@.len()
            &&& -1 <= j < d.compatible_proxy_pools@.len()
            &&& i >= 0 ==> j == i && d.compatible_proxy_pools@[j] == c.compatible_proxy_pools@[i]
            &&& i < 0 && j >= 0 ==> !d.compatible_proxy_pools@[j].enabled
        }),
        ({
            let i = first_index(keys_of(c.compatible_proxy_nodes@), key);
            let j = first_index(keys_of(d.compatible_proxy_nodes@), key);
            &&& -1 <= i < c.compatible_proxy_nodes@.len()
            &&& -1 <= j < d.compatible_proxy_nodes@.len()
            &&& i >= 0 ==> j == i && d.compatible_proxy_nodes@[j] == c.compatible_proxy_nodes@[i]
            &&& i < 0 && j >= 0 ==> !d.compatible_proxy_nodes@[j].enabled
        }),
{
    let cp = c.compatible_proxy_pools@;
    let dp = d.compatible_proxy_pools@;
    let xp = dp.skip(cp.len() as int);
    assert(dp =~= cp + xp);
    assert(keys_of(dp) =~= keys_of(cp) + keys_of(xp));
    lemma_first_index_append(keys_of(cp), keys_of(xp), key);
    lemma_first_index_bounds(keys_of(cp), key);
    lemma_first_index_bounds(keys_of(dp), key);
    lemma_first_index_bounds(keys_of(xp), key);
    let cn = c.compatible_proxy_nodes@;
    let dn = d.compatible_proxy_nodes@;
    let xn = dn.skip(cn.len() as int);
    assert(dn =~= cn + xn);
    assert(keys_of(dn) =~= keys_of(cn) + keys_of(xn));
    lemma_first_index_append(keys_of(cn), keys_of(xn), key);
    lemma_first_index_bounds(keys_of(cn), key);
    lemma_first_index_bounds(keys_of(dn), key);
    lemma_first_index_bounds(keys_of(xn), key);
    let i = first_index(keys_of(cp), key);
    if i >= 0 {
        assert(dp[i] == cp[i]);
    }
    let k = first_index(keys_of(cn), key);
    if k >= 0 {
        assert(dn[k] == cn[k]);
    }
}

/// Disabled draft pools and nodes stay inert: appending them to a Version changes neither its
/// generic upstreams, nor its egress graph verdict, nor the settings of any binding.
pub proof fn lemma_disabled_resources_are_inert(c: ControlPlaneConfig, d: ControlPlaneConfig, g: Seq<Seq<char>>)
    requires
        with_disabled_resources_appended(c, d),
    ensures
        generic_upstreams_of(d, d.endpoints@) == generic_upstreams_of(c, c.endpoints@),
        forall|b: CompatibleEgressBindingConfig| #[trigger] binding_settings(d, g, b) == binding_settings(c, g, b),
        egress_graph_admitted(d, g) == egress_graph_admitted(c, g),
{
    lemma_generic_upstreams_read_only_upstreams(c, d, c.endpoints@);
    let cp = c.compatible_proxy_pools@;
    let dp = d.compatible_proxy_pools@;
    let cn = c.compatible_proxy_nodes@;
    let dn = d.compatible_proxy_nodes@;
    assert forall|i: int| 0 <= i < cp.len() implies #[trigger] dp[i] == cp[i] by {
        assert(dp.take(cp.len() as int)[i] == dp[i]);
    }
    assert forall|i: int| 0 <= i < cn.len() implies #[trigger] dn[i] == cn[i] by {
        assert(dn.take(cn.len() as int)[i] == dn[i]);
    }
    assert forall|e: EndpointConfig, t: EgressTargetConfig| #[trigger] binding_target(d, e, t) == binding_target(c, e, t) by {
        match t {
            EgressTargetConfig::FixedProxy(node_id) => lemma_lookups_after_disabled_append(c, d, node_id@),
            EgressTargetConfig::ProxyPool(pool_id) => lemma_lookups_after_disabled_append(c, d, pool_id@),
            EgressTargetConfig::Direct => {},
        }
    }
    assert forall|b: CompatibleEgressBindingConfig| #[trigger] binding_settings(d, g, b) == binding_settings(c, g, b) by {
        let ei = first_index(keys_of(c.endpoints@), b.endpoint_id@);
        if ei >= 0 {
            lemma_first_index_bounds(keys_of(c.endpoints@), b.endpoint_id@);
            let e = c.endpoints@[ei];
            assert(binding_target(d, e, b.target) == binding_target(c, e, b.target));
        }
    }
    // Ownership.
    assert forall|n: ProxyNodeConfig| #[trigger] node_owned(d, g, n) == node_owned(c, g, n) by {
        if let Some(pool_id) = n.pool_id {
            lemma_lookups_after_disabled_append(c, d, pool_id@);
        }
    }
    if resources_owned(c, g) {
        assert forall|i: int| 0 <= i < dn.len() implies node_owned(d, g, #[trigger] dn[i]) by {
            if i < cn.len() {
                assert(node_owned(c, g, cn[i]));
            }
        }
        assert forall|i: int| 0 <= i < dp.len() implies pool_owned(g, #[trigger] dp[i]) by {
            if i < cp.len() {
                assert(pool_owned(g, cp[i]));
            }
        }
    }
    if resources_owned(d, g) {
        assert forall|i: int| 0 <= i < cn.len() implies node_owned(c, g, #[trigger] cn[i]) by {
            assert(node_owned(d, g, dn[i]));
        }
        assert forall|i: int| 0 <= i < cp.len() implies pool_owned(g, #[trigger] cp[i]) by {
            assert(pool_owned(g, dp[i]));
        }
    }
    // Registry shape.
    assert forall|u: Seq<char>, k: Seq<char>| #[trigger] has_enabled_pool(d, u, k) == has_enabled_pool(c, u, k) by {
        if has_enabled_pool(d, u, k) {
            let j = choose|j: int|
                0 <= j < dp.len() && (#[trigger] dp[j]).enabled && dp[j].upstream_id@ == u && dp[j].id@ == k;
            assert(j < cp.len());
            assert(cp[j] == dp[j]);
        }
        if has_enabled_pool(c, u, k) {
            let j = choose|j: int|
                0 <= j < cp.len() && (#[trigger] cp[j]).enabled && cp[j].upstream_id@ == u && cp[j].id@ == k;
            assert(dp[j] == cp[j]);
        }
    }
    assert forall|n: ProxyNodeConfig| #[trigger] node_feeds_registry(d, g, n) == node_feeds_registry(c, g, n) by {
        if let Some(pool_id) = n.pool_id {
            assert(has_enabled_pool(d, n.upstream_id@, pool_id@) == has_enabled_pool(c, n.upstream_id@, pool_id@));
        }
    }
    assert forall|p: ProxyPoolConfig| #[trigger] pool_populated(d, g, p) == pool_populated(c, g, p) by {
        if exists|j: int| 0 <= j < dn.len() && pool_member(#[trigger] dn[j], p) {
            let j = choose|j: int| 0 <= j < dn.len() && pool_member(#[trigger] dn[j], p);
            assert(j < cn.len());
            assert(pool_member(cn[j], p));
        }
        if exists|j: int| 0 <= j < cn.len() && pool_member(#[trigger] cn[j], p) {
            let j = choose|j: int| 0 <= j < cn.len() && pool_member(#[trigger] cn[j], p);
            assert(pool_member(dn[j], p));
        }
    }
    if registry_shape_admitted(c, g) {
        assert forall|i: int| 0 <= i < dp.len() implies pool_populated(d, g, #[trigger] dp[i]) by {
            if i < cp.len() {
                assert(pool_populated(c, g, cp[i]));
            }
        }
        assert forall|i: int|
            0 <= i < dn.len() && node_feeds_registry(d, g, #[trigger] dn[i]) implies 0 <= dn[i].maximum_concurrency
            <= usize::MAX by {
            assert(i < cn.len());
            assert(node_feeds_registry(c, g, cn[i]));
        }
    }
    if registry_shape_admitted(d, g) {
        assert forall|i: int| 0 <= i < cp.len() implies pool_populated(c, g, #[trigger] cp[i]) by {
            assert(pool_populated(d, g, dp[i]));
        }
        assert forall|i: int|
            0 <= i < cn.len() && node_feeds_registry(c, g, #[trigger] cn[i]) implies 0 <= cn[i].maximum_concurrency
            <= usize::MAX by {
            assert(node_feeds_registry(d, g, dn[i]));
        }
    }
    // Bindings.
    let bs = c.compatible_egress_bindings@;
    assert(d.compatible_egress_bindings@ == bs);
    if bindings_admitted(c, g) {
        assert forall|i: int| 0 <= i < bs.len() implies (#[trigger] binding_settings(d, g, bs[i])) is Some by {
            assert(binding_settings(c, g, bs[i]) is Some);
        }
    }
    if bindings_admitted(d, g) {
        assert forall|i: int| 0 <= i < bs.len() implies (#[trigger] binding_settings(c, g, bs[i])) is Some by {
            assert(binding_settings(d, g, bs[i]) is Some);
        }
    }
}

} // verus!
