//! Admission of one control-plane configuration Version: the fail-closed shape gate a Version
//! passes before any Secret is opened or any outbound request is built.
//!
//! One non-conforming row fails admission of the whole Version instead of serving a subset.
use vstd::prelude::*;
use vstd::string::StringSliceAdditionalSpecFns;
use vstd::utf8::*;
use crate::compatible::{CompatibleEgressBindingConfig, ProxyNodeConfig, ProxyPoolConfig};
use crate::composition::{RuntimeCompositionError, RuntimeCompositionStage, adapter_format, format_named};
use crate::endpoint::{EndpointConfig, validate_endpoint_shape};
use crate::json::{JsonValue, json_get, json_parse, parse_json, str_eq};
use crate::stage_ledger::{P12_MAX_ROUTE_ATTEMPTS, P12_MAX_TOTAL_BINDING_CONCURRENCY};
use crate::transport::P12_BOOTSTRAP_TIMEOUT_MILLISECONDS;

verus! {

/// How an egress policy treats redirects.
#[derive(Clone, Copy, Debug, PartialEq, Eq, Structural)]
pub enum RedirectMode {
    Deny,
    SameOrigin,
}

/// One stored egress policy; its allow-lists are JSON arrays.
#[derive(Clone, Debug)]
pub struct EgressPolicyConfig {
    pub id: String,
    pub allowed_schemes_json: String,
    pub allowed_hosts_json: String,
    pub allowed_ports_json: String,
    pub allowed_cidrs_json: String,
    pub redirect_mode: RedirectMode,
    pub max_redirects: u32,
}

/// One stored upstream.
#[derive(Clone, Debug)]
pub struct UpstreamConfig {
    pub id: String,
    pub enabled: bool,
    pub egress_policy_id: Option<String>,
}

/// The administrative state of a credential.
#[derive(Clone, Copy, Debug, PartialEq, Eq, Structural)]
pub enum CredentialStatus {
    Active,
    Cooling,
    Disabled,
    Unauthorized,
}

/// One stored credential, without its sealed secret.
#[derive(Clone, Debug)]
pub struct CredentialConfig {
    pub id: String,
    pub upstream_id: String,
    pub kind: String,
    pub status: CredentialStatus,
}

/// One weighted binding of a credential to an endpoint.
#[derive(Clone, Debug)]
pub struct BindingConfig {
    pub endpoint_id: String,
    pub credential_id: String,
    pub upstream_id: String,
    pub enabled: bool,
    pub priority: i64,
    pub weight: i64,
    pub concurrency: i64,
}

/// One stored public model.
#[derive(Clone, Debug)]
pub struct PublicModelConfig {
    pub id: String,
    pub active: bool,
    pub capabilities_json: String,
}

/// How a route picks among its candidates.
#[derive(Clone, Copy, Debug, PartialEq, Eq, Structural)]
pub enum RoutePolicy {
    SmoothWeightedRoundRobin,
    RoundRobin,
    PriorityFailover,
}

/// One stored model route.
#[derive(Clone, Debug)]
pub struct ModelRouteConfig {
    pub id: String,
    pub public_model_id: String,
    pub policy: RoutePolicy,
    pub max_attempts: i64,
    pub bootstrap_timeout_ms: i64,
}

/// How a candidate translates between the client's protocol and its endpoint's.
#[derive(Clone, Copy, Debug, PartialEq, Eq, Structural)]
pub enum TransformMode {
    Canonical,
    CanonicalBridge,
    LosslessBridge,
}

/// One stored route candidate.
#[derive(Clone, Debug)]
pub struct RouteCandidateConfig {
    pub id: String,
    pub route_id: String,
    pub endpoint_id: String,
    pub upstream_model: String,
    /// Whether the candidate draws its credentials from its endpoint's bindings.
    pub endpoint_bindings_scope: bool,
    pub transform_mode: TransformMode,
    pub enabled: bool,
    pub priority: i64,
    pub weight: i64,
    pub capability_override_json: String,
}

/// One stored access group.
#[derive(Clone, Debug)]
pub struct AccessGroupConfig {
    pub id: String,
    pub active: bool,
    pub limits_json: String,
}

/// One route an access group may use.
#[derive(Clone, Debug)]
pub struct AccessGroupRouteConfig {
    pub access_group_id: String,
    pub route_id: String,
    pub enabled: bool,
}

/// One stored client key, as far as admission reads it.
#[derive(Clone, Debug)]
pub struct ClientKeyConfig {
    pub access_group_id: String,
    pub active: bool,
}

/// One control-plane configuration Version.
#[derive(Clone, Debug)]
pub struct ControlPlaneConfig {
    pub version_id: String,
    pub version_active: bool,
    pub egress_policies: Vec<EgressPolicyConfig>,
    pub upstreams: Vec<UpstreamConfig>,
    pub endpoints: Vec<EndpointConfig>,
    pub credentials: Vec<CredentialConfig>,
    pub endpoint_credential_bindings: Vec<BindingConfig>,
    pub public_models: Vec<PublicModelConfig>,
    pub model_routes: Vec<ModelRouteConfig>,
    pub route_candidates: Vec<RouteCandidateConfig>,
    pub access_groups: Vec<AccessGroupConfig>,
    pub access_group_routes: Vec<AccessGroupRouteConfig>,
    pub client_keys: Vec<ClientKeyConfig>,
    pub compatible_proxy_pools: Vec<ProxyPoolConfig>,
    pub compatible_proxy_nodes: Vec<ProxyNodeConfig>,
    pub compatible_egress_bindings: Vec<CompatibleEgressBindingConfig>,
}

/// The strings `serde_json::from_str::<Vec<String>>` reads from `text`, or `None` when `text`
/// is not a JSON array of strings.
pub uninterp spec fn json_string_list(text: Seq<char>) -> Option<Seq<Seq<char>>>;

/// The ports `serde_json::from_str::<Vec<u16>>` reads from `text`, or `None` when `text` is not
/// a JSON array of port numbers.
pub uninterp spec fn json_port_list(text: Seq<char>) -> Option<Seq<u16>>;

/// Reads a JSON array of strings with `serde_json::from_str::<Vec<String>>`.
///
/// Trusted: the result is named [`json_string_list`] of the text.
#[verifier::external_body]
fn parse_string_list(text: &str) -> (r: Option<Vec<String>>)
    ensures
        match r {
            Some(v) => json_string_list(text@) == Some(v@.map_values(|s: String| s@)),
            None => json_string_list(text@) is None,
        },
{
    serde_json::from_str::<Vec<String>>(text).ok()
}

/// Reads a JSON array of port numbers with `serde_json::from_str::<Vec<u16>>`.
///
/// Trusted: the result is named [`json_port_list`] of the text.
#[verifier::external_body]
fn parse_port_list(text: &str) -> (r: Option<Vec<u16>>)
    ensures
        match r {
            Some(v) => json_port_list(text@) == Some(v@),
            None => json_port_list(text@) is None,
        },
{
    serde_json::from_str::<Vec<u16>>(text).ok()
}

/// Whether an egress policy is HTTPS-only: exactly the `https` scheme, at least one host and
/// one port, no CIDR range, and no redirect.
pub open spec fn https_only_egress(p: EgressPolicyConfig) -> bool {
    &&& json_string_list(p.allowed_schemes_json@) == Some(seq!["https"@])
    &&& (json_string_list(p.allowed_hosts_json@) matches Some(hosts) && hosts.len() > 0)
    &&& (json_port_list(p.allowed_ports_json@) matches Some(ports) && ports.len() > 0)
    &&& (json_string_list(p.allowed_cidrs_json@) matches Some(cidrs) && cidrs.len() == 0)
    &&& p.redirect_mode == RedirectMode::Deny
    &&& p.max_redirects == 0
}

/// Returns whether one egress policy has the HTTPS-only shape the composition admits.
pub fn has_p12_https_only_egress_shape(policy: &EgressPolicyConfig) -> (r: bool)
    ensures
        r == https_only_egress(*policy),
{
    let schemes_ok = match parse_string_list(policy.allowed_schemes_json.as_str()) {
        Some(schemes) => {
            let ok = schemes.len() == 1 && str_eq(schemes[0].as_str(), "https");
            proof {
                let m = schemes@.map_values(|s: String| s@);
                let want = seq!["https"@];
                assert(want.len() == 1 && want[0] == "https"@);
                if schemes@.len() == 1 {
                    assert(m[0] == schemes@[0]@);
                }
                if ok {
                    assert(m =~= want);
                } else {
                    assert(m.len() != 1 || m[0] != want[0]);
                }
            }
            ok
        },
        None => false,
    };
    let hosts_ok = match parse_string_list(policy.allowed_hosts_json.as_str()) {
        Some(hosts) => hosts.len() > 0,
        None => false,
    };
    let ports_ok = match parse_port_list(policy.allowed_ports_json.as_str()) {
        Some(ports) => ports.len() > 0,
        None => false,
    };
    let cidrs_ok = match parse_string_list(policy.allowed_cidrs_json.as_str()) {
        Some(cidrs) => cidrs.len() == 0,
        None => false,
    };
    schemes_ok && hosts_ok && ports_ok && cidrs_ok && policy.redirect_mode == RedirectMode::Deny
        && policy.max_redirects == 0
}

/// The JSON object `text` parses to, as its members.
pub open spec fn json_object(text: Seq<char>) -> Option<Seq<(String, JsonValue)>> {
    match json_parse(encode_utf8(text)) {
        Some(JsonValue::Object(members)) => Some(members@),
        _ => None,
    }
}

/// Whether `text` is the empty JSON object.
pub open spec fn is_empty_object(text: Seq<char>) -> bool {
    json_object(text) matches Some(m) && m.len() == 0
}

/// Whether `text` is exactly `{"allow_unlisted_model": true}`.
pub open spec fn is_unlisted_model_override(text: Seq<char>) -> bool {
    match json_parse(encode_utf8(text)) {
        Some(JsonValue::Object(members)) => members@.len() == 1 && json_get(
            JsonValue::Object(members),
            "allow_unlisted_model"@,
        ) == Some(JsonValue::Bool(true)),
        _ => false,
    }
}

/// Whether `text` is exactly `{"allow_unlisted_model": true, "reasoning": false}`.
pub open spec fn is_reasoning_narrowing_override(text: Seq<char>) -> bool {
    match json_parse(encode_utf8(text)) {
        Some(JsonValue::Object(members)) => members@.len() == 2 && json_get(
            JsonValue::Object(members),
            "allow_unlisted_model"@,
        ) == Some(JsonValue::Bool(true)) && json_get(JsonValue::Object(members), "reasoning"@)
            == Some(JsonValue::Bool(false)),
        _ => false,
    }
}

/// The adapters on which a candidate may narrow Reasoning.
pub open spec fn narrows_reasoning(adapter_id: Seq<char>) -> bool {
    adapter_id == "openai-compatible.responses"@ || adapter_id == "grok.build.responses"@
        || adapter_id == "grok.console.responses"@
}

/// Whether a candidate's capability override is admitted: it may opt into an unlisted upstream
/// model, or, on a Responses-family adapter, also narrow Reasoning away.
pub open spec fn override_admissible(adapter_id: Seq<char>, text: Seq<char>) -> bool {
    is_unlisted_model_override(text) || (narrows_reasoning(adapter_id)
        && is_reasoning_narrowing_override(text))
}

/// Member `key` of `v` as a boolean.
fn bool_member(v: &JsonValue, key: &str) -> (r: Option<bool>)
    ensures
        r == match json_get(*v, key@) {
            Some(JsonValue::Bool(b)) => Some(b),
            _ => None::<bool>,
        },
{
    match v.get(key) {
        Some(JsonValue::Bool(b)) => Some(*b),
        _ => None,
    }
}

/// Returns whether `value` is the empty JSON object.
pub fn is_empty_capability_object(value: &str) -> (r: bool)
    ensures
        r == is_empty_object(value@),
{
    match parse_json(value.as_bytes()) {
        Some(JsonValue::Object(members)) => members.len() == 0,
        _ => false,
    }
}

/// Returns whether `value` is exactly the unlisted-model opt-in.
pub fn has_p12_unlisted_model_override(value: &str) -> (r: bool)
    ensures
        r == is_unlisted_model_override(value@),
{
    let parsed = parse_json(value.as_bytes());
    match parsed {
        Some(v) => match &v {
            JsonValue::Object(members) => members.len() == 1 && bool_member(&v, "allow_unlisted_model")
                == Some(true),
            _ => false,
        },
        None => false,
    }
}

/// Returns whether a candidate carries a capability override the runtime shape gate admits.
pub fn p12_candidate_override_is_admissible(adapter_id: &str, value: &str) -> (r: bool)
    ensures
        r == override_admissible(adapter_id@, value@),
{
    if has_p12_unlisted_model_override(value) {
        return true;
    }
    if !(str_eq(adapter_id, "openai-compatible.responses") || str_eq(adapter_id, "grok.build.responses")
        || str_eq(adapter_id, "grok.console.responses")) {
        return false;
    }
    let parsed = parse_json(value.as_bytes());
    match parsed {
        Some(v) => match &v {
            JsonValue::Object(members) => members.len() == 2 && bool_member(&v, "allow_unlisted_model")
                == Some(true) && bool_member(&v, "reasoning") == Some(false),
            _ => false,
        },
        None => false,
    }
}

/// The index of the last `key` in `keys`, or -1: a map collected from rows keeps the last row
/// of each key.
pub open spec fn last_index(keys: Seq<Seq<char>>, key: Seq<char>) -> int
    decreases keys.len(),
{
    if keys.len() == 0 {
        -1
    } else if keys.last() == key {
        keys.len() - 1
    } else {
        last_index(keys.drop_last(), key)
    }
}

pub(crate) proof fn lemma_last_index_bounds(keys: Seq<Seq<char>>, key: Seq<char>)
    ensures
        -1 <= last_index(keys, key) < keys.len(),
        last_index(keys, key) >= 0 ==> keys[last_index(keys, key)] == key,
        last_index(keys, key) == -1 <==> !keys.contains(key),
    decreases keys.len(),
{
    if keys.len() > 0 {
        lemma_last_index_bounds(keys.drop_last(), key);
        if keys.last() != key {
            if keys.contains(key) {
                let j = choose|j: int| 0 <= j < keys.len() && keys[j] == key;
                assert(keys.drop_last()[j] == key);
            }
            if keys.drop_last().contains(key) {
                let j = choose|j: int| 0 <= j < keys.len() - 1 && keys.drop_last()[j] == key;
                assert(keys[j] == key);
            }
        }
    }
}

/// The index of the first `key` in `keys`, or -1: a search that stops at its first match.
pub open spec fn first_index(keys: Seq<Seq<char>>, key: Seq<char>) -> int
    decreases keys.len(),
{
    if keys.len() == 0 {
        -1
    } else if keys[0] == key {
        0
    } else if first_index(keys.drop_first(), key) < 0 {
        -1
    } else {
        1 + first_index(keys.drop_first(), key)
    }
}

pub(crate) proof fn lemma_first_index_bounds(keys: Seq<Seq<char>>, key: Seq<char>)
    ensures
        -1 <= first_index(keys, key) < keys.len(),
        first_index(keys, key) >= 0 ==> keys[first_index(keys, key)] == key,
        forall|j: int| 0 <= j < first_index(keys, key) ==> keys[j] != key,
        first_index(keys, key) == -1 <==> !keys.contains(key),
    decreases keys.len(),
{
    if keys.len() > 0 {
        let t = keys.drop_first();
        lemma_first_index_bounds(t, key);
        if keys[0] != key {
            assert forall|j: int| 0 <= j < first_index(keys, key) implies keys[j] != key by {
                if j > 0 {
                    assert(keys[j] == t[j - 1]);
                }
            }
            if keys.contains(key) {
                let j = choose|j: int| 0 <= j < keys.len() && keys[j] == key;
                assert(t[j - 1] == key);
            }
            if t.contains(key) {
                let j = choose|j: int| 0 <= j < t.len() && t[j] == key;
                assert(keys[j + 1] == key);
            }
        }
    }
}

/// A search over two lists in turn finds the first list's match, else the second's.
pub(crate) proof fn lemma_first_index_append(a: Seq<Seq<char>>, b: Seq<Seq<char>>, key: Seq<char>)
    ensures
        first_index(a + b, key) == if first_index(a, key) >= 0 {
            first_index(a, key)
        } else if first_index(b, key) >= 0 {
            a.len() + first_index(b, key)
        } else {
            -1
        },
    decreases a.len(),
{
    if a.len() == 0 {
        assert(a + b =~= b);
    } else {
        assert((a + b).drop_first() =~= a.drop_first() + b);
        assert((a + b)[0] == a[0]);
        lemma_first_index_append(a.drop_first(), b, key);
    }
}

/// A row identified by one key.
pub trait Keyed {
    /// The row's key.
    spec fn key(&self) -> Seq<char>;

    /// Returns the row's key.
    fn key_str(&self) -> (k: &str)
        ensures
            k@ == self.key(),
    ;
}

impl Keyed for EgressPolicyConfig {
    open spec fn key(&self) -> Seq<char> {
        self.id@
    }

    fn key_str(&self) -> (k: &str) {
        self.id.as_str()
    }
}

impl Keyed for UpstreamConfig {
    open spec fn key(&self) -> Seq<char> {
        self.id@
    }

    fn key_str(&self) -> (k: &str) {
        self.id.as_str()
    }
}

impl Keyed for EndpointConfig {
    open spec fn key(&self) -> Seq<char> {
        self.id@
    }

    fn key_str(&self) -> (k: &str) {
        self.id.as_str()
    }
}

impl Keyed for CredentialConfig {
    open spec fn key(&self) -> Seq<char> {
        self.id@
    }

    fn key_str(&self) -> (k: &str) {
        self.id.as_str()
    }
}

impl Keyed for PublicModelConfig {
    open spec fn key(&self) -> Seq<char> {
        self.id@
    }

    fn key_str(&self) -> (k: &str) {
        self.id.as_str()
    }
}

impl Keyed for ModelRouteConfig {
    open spec fn key(&self) -> Seq<char> {
        self.id@
    }

    fn key_str(&self) -> (k: &str) {
        self.id.as_str()
    }
}

impl Keyed for AccessGroupConfig {
    open spec fn key(&self) -> Seq<char> {
        self.id@
    }

    fn key_str(&self) -> (k: &str) {
        self.id.as_str()
    }
}

/// The keys of `rows`, in order.
pub open spec fn keys_of<T: Keyed>(rows: Seq<T>) -> Seq<Seq<char>> {
    rows.map_values(|r: T| r.key())
}

/// Whether some row of `rows` has key `id`.
pub(crate) fn holds_key<T: Keyed>(rows: &Vec<T>, id: &str) -> (r: bool)
    ensures
        r == keys_of(rows@).contains(id@),
{
    let mut i: usize = 0;
    while i < rows.len()
        invariant
            0 <= i <= rows@.len(),
            forall|j: int| 0 <= j < i ==> (#[trigger] keys_of(rows@)[j]) != id@,
        decreases rows.len() - i,
    {
        if str_eq(rows[i].key_str(), id) {
            assert(keys_of(rows@)[i as int] == id@);
            return true;
        }
        i = i + 1;
    }
    false
}

/// The index of the last row of `rows` whose key is `key`.
pub(crate) fn find_last_key<T: Keyed>(rows: &Vec<T>, key: &str) -> (r: Option<usize>)
    ensures
        match r {
            Some(i) => i < rows@.len() && i as int == last_index(keys_of(rows@), key@),
            None => last_index(keys_of(rows@), key@) == -1,
        },
{
    let mut i = rows.len();
    assert(keys_of(rows@).take(i as int) =~= keys_of(rows@));
    while i > 0
        invariant
            0 <= i <= rows@.len(),
            last_index(keys_of(rows@), key@) == last_index(keys_of(rows@).take(i as int), key@),
        decreases i,
    {
        let ghost t = keys_of(rows@).take(i as int);
        assert(t.drop_last() =~= keys_of(rows@).take(i - 1));
        if str_eq(rows[i - 1].key_str(), key) {
            assert(t.last() == key@);
            return Some(i - 1);
        }
        i = i - 1;
    }
    None
}

/// The index of the first row of `rows` whose key is `key`.
pub(crate) fn find_first_key<T: Keyed>(rows: &Vec<T>, key: &str) -> (r: Option<usize>)
    ensures
        match r {
            Some(i) => i < rows@.len() && i as int == first_index(keys_of(rows@), key@),
            None => first_index(keys_of(rows@), key@) == -1,
        },
{
    let ghost keys = keys_of(rows@);
    let mut i: usize = 0;
    proof {
        assert(keys.skip(0) =~= keys);
        lemma_first_index_bounds(keys, key@);
    }
    while i < rows.len()
        invariant
            0 <= i <= rows@.len(),
            keys == keys_of(rows@),
            first_index(keys, key@) == if first_index(keys.skip(i as int), key@) < 0 {
                -1
            } else {
                i + first_index(keys.skip(i as int), key@)
            },
        decreases rows.len() - i,
    {
        let ghost t = keys.skip(i as int);
        assert(t.drop_first() =~= keys.skip(i + 1));
        assert(t[0] == keys[i as int]);
        if str_eq(rows[i].key_str(), key) {
            return Some(i);
        }
        i = i + 1;
    }
    assert(keys.skip(i as int).len() == 0);
    None
}

/// Whether an adapter is a native Grok account adapter.
pub open spec fn native_grok_adapter(adapter_id: Seq<char>) -> bool {
    adapter_id == "grok.build.responses"@ || adapter_id == "grok.console.responses"@ || adapter_id
        == "grok.web.responses"@
}

/// Whether some endpoint of the Version is served by a native Grok adapter.
pub open spec fn has_native_grok(c: ControlPlaneConfig) -> bool {
    exists|i: int| 0 <= i < c.endpoints@.len() && native_grok_adapter(#[trigger] c.endpoints@[i].adapter_id@)
}

/// Returns whether some endpoint is served by a native Grok adapter.
pub fn has_native_grok_endpoint(endpoints: &Vec<EndpointConfig>) -> (r: bool)
    ensures
        r == exists|i: int| 0 <= i < endpoints@.len() && native_grok_adapter(#[trigger] endpoints@[i].adapter_id@),
{
    let mut i: usize = 0;
    while i < endpoints.len()
        invariant
            0 <= i <= endpoints@.len(),
            forall|j: int| 0 <= j < i ==> !native_grok_adapter(#[trigger] endpoints@[j].adapter_id@),
        decreases endpoints.len() - i,
    {
        if crate::composition::native_grok_provider_for_adapter(endpoints[i].adapter_id.as_str()).is_some() {
            return true;
        }
        i = i + 1;
    }
    false
}

/// Whether the Version is active and holds every resource a served graph needs; a graph with
/// a native Grok endpoint draws its credentials from the account pool instead.
pub open spec fn required_resources_present(c: ControlPlaneConfig) -> bool {
    &&& c.version_active
    &&& c.egress_policies@.len() > 0
    &&& c.upstreams@.len() > 0
    &&& c.endpoints@.len() > 0
    &&& (has_native_grok(c) || c.credentials@.len() > 0)
    &&& (has_native_grok(c) || c.endpoint_credential_bindings@.len() > 0)
    &&& c.public_models@.len() > 0
    &&& c.model_routes@.len() > 0
    &&& c.route_candidates@.len() > 0
    &&& c.access_groups@.len() > 0
    &&& c.access_group_routes@.len() > 0
    &&& c.client_keys@.len() > 0
}

/// Admits the Version only when it is active and holds every resource a served graph needs.
pub fn validate_p12_required_resources(configuration: &ControlPlaneConfig) -> (r: Result<(), RuntimeCompositionError>)
    ensures
        r == if required_resources_present(*configuration) {
            Ok::<(), RuntimeCompositionError>(())
        } else {
            Err(RuntimeCompositionError::Unavailable)
        },
{
    let native = has_native_grok_endpoint(&configuration.endpoints);
    if !configuration.version_active || configuration.egress_policies.len() == 0
        || configuration.upstreams.len() == 0 || configuration.endpoints.len() == 0 || (!native
        && configuration.credentials.len() == 0) || (!native
        && configuration.endpoint_credential_bindings.len() == 0)
        || configuration.public_models.len() == 0 || configuration.model_routes.len() == 0
        || configuration.route_candidates.len() == 0 || configuration.access_groups.len() == 0
        || configuration.access_group_routes.len() == 0 || configuration.client_keys.len() == 0 {
        return Err(RuntimeCompositionError::Unavailable);
    }
    Ok(())
}

/// Whether an endpoint row passes shape admission.
pub open spec fn endpoint_admitted(e: EndpointConfig) -> bool {
    &&& format_named(e.api_format@) matches Some(f)
    &&& e.enabled
    &&& adapter_format(e.adapter_id@) == Some(f)
    &&& e.http_transport
}

/// Whether an upstream is enabled and names one of the Version's egress policies.
pub open spec fn upstream_admitted(c: ControlPlaneConfig, u: UpstreamConfig) -> bool {
    u.enabled && (u.egress_policy_id matches Some(id) && keys_of(c.egress_policies@).contains(id@))
}

/// Whether every egress policy is HTTPS-only, every upstream is enabled behind one of them,
/// and every endpoint passes shape admission under one of the upstreams.
pub open spec fn network_shape_admitted(c: ControlPlaneConfig) -> bool {
    &&& forall|i: int| 0 <= i < c.egress_policies@.len() ==> https_only_egress(#[trigger] c.egress_policies@[i])
    &&& forall|i: int| 0 <= i < c.upstreams@.len() ==> upstream_admitted(c, #[trigger] c.upstreams@[i])
    &&& forall|i: int| 0 <= i < c.endpoints@.len() ==> endpoint_admitted(#[trigger] c.endpoints@[i])
        && keys_of(c.upstreams@).contains(c.endpoints@[i].upstream_id@)
}

/// Admits the Version's network graph: HTTPS-only egress, enabled upstreams behind a known
/// policy, and endpoints that pass shape admission under a known upstream.
pub fn validate_p12_network_shape(configuration: &ControlPlaneConfig) -> (r: Result<(), RuntimeCompositionError>)
    ensures
        r == if network_shape_admitted(*configuration) {
            Ok::<(), RuntimeCompositionError>(())
        } else {
            Err(RuntimeCompositionError::Unavailable)
        },
{
    let c = configuration;
    let mut i: usize = 0;
    while i < c.egress_policies.len()
        invariant
            c == configuration,
            0 <= i <= c.egress_policies@.len(),
            forall|j: int| 0 <= j < i ==> https_only_egress(#[trigger] c.egress_policies@[j]),
        decreases c.egress_policies.len() - i,
    {
        if !has_p12_https_only_egress_shape(&c.egress_policies[i]) {
            return Err(RuntimeCompositionError::Unavailable);
        }
        i = i + 1;
    }
    let mut i: usize = 0;
    while i < c.upstreams.len()
        invariant
            c == configuration,
            0 <= i <= c.upstreams@.len(),
            forall|j: int| 0 <= j < i ==> upstream_admitted(*c, #[trigger] c.upstreams@[j]),
        decreases c.upstreams.len() - i,
    {
        let u = &c.upstreams[i];
        let ok = u.enabled && match &u.egress_policy_id {
            Some(id) => holds_key(&c.egress_policies, id.as_str()),
            None => false,
        };
        if !ok {
            return Err(RuntimeCompositionError::Unavailable);
        }
        i = i + 1;
    }
    let mut i: usize = 0;
    while i < c.endpoints.len()
        invariant
            c == configuration,
            0 <= i <= c.endpoints@.len(),
            forall|j: int| 0 <= j < i ==> endpoint_admitted(#[trigger] c.endpoints@[j])
                && keys_of(c.upstreams@).contains(c.endpoints@[j].upstream_id@),
        decreases c.endpoints.len() - i,
    {
        if validate_endpoint_shape(&c.endpoints[i]).is_err() {
            return Err(RuntimeCompositionError::Unavailable);
        }
        if !holds_key(&c.upstreams, c.endpoints[i].upstream_id.as_str()) {
            return Err(RuntimeCompositionError::Unavailable);
        }
        i = i + 1;
    }
    Ok(())
}

/// Whether a credential is an active bearer or normalized OAuth envelope of a known upstream.
pub open spec fn credential_admitted(c: ControlPlaneConfig, k: CredentialConfig) -> bool {
    &&& (k.kind@ == "bearer"@ || k.kind@ == "oauth_json"@)
    &&& k.status == CredentialStatus::Active
    &&& keys_of(c.upstreams@).contains(k.upstream_id@)
}

/// Whether a binding joins a known endpoint and credential of its own upstream, enabled, with
/// a non-negative priority and a positive weight and concurrency.
pub open spec fn binding_admitted(c: ControlPlaneConfig, b: BindingConfig) -> bool {
    let e = last_index(keys_of(c.endpoints@), b.endpoint_id@);
    let k = last_index(keys_of(c.credentials@), b.credential_id@);
    &&& e >= 0
    &&& k >= 0
    &&& b.enabled
    &&& b.priority >= 0
    &&& b.weight >= 1
    &&& b.concurrency >= 1
    &&& c.endpoints@[e].upstream_id@ == b.upstream_id@
    &&& c.credentials@[k].upstream_id@ == b.upstream_id@
}

/// `a + b`, saturated to the `i64` range.
pub open spec fn saturating_add_i64(a: i64, b: i64) -> i64 {
    if a + b > i64::MAX {
        i64::MAX
    } else if a + b < i64::MIN {
        i64::MIN
    } else {
        (a + b) as i64
    }
}

/// The saturating sum of the bindings' concurrency.
pub open spec fn concurrency_total(bindings: Seq<BindingConfig>) -> i64
    decreases bindings.len(),
{
    if bindings.len() == 0 {
        0
    } else {
        saturating_add_i64(concurrency_total(bindings.drop_last()), bindings.last().concurrency)
    }
}

/// Whether every credential and binding is admitted and the bindings' total concurrency stays
/// within [`P12_MAX_TOTAL_BINDING_CONCURRENCY`].
pub open spec fn credential_bindings_admitted(c: ControlPlaneConfig) -> bool {
    &&& forall|i: int| 0 <= i < c.credentials@.len() ==> credential_admitted(c, #[trigger] c.credentials@[i])
    &&& forall|i: int| 0 <= i < c.endpoint_credential_bindings@.len() ==> binding_admitted(
        c,
        #[trigger] c.endpoint_credential_bindings@[i],
    )
    &&& concurrency_total(c.endpoint_credential_bindings@) <= P12_MAX_TOTAL_BINDING_CONCURRENCY
}

/// A binding that is disabled, has a negative priority, a weight below 1 or a concurrency below
/// 1 fails the credential-binding gate, and so the whole Version's admission, whatever else it
/// holds.
pub proof fn lemma_malformed_bindings_fail_admission(c: ControlPlaneConfig, i: int, snapshot_version: Seq<char>)
    requires
        0 <= i < c.endpoint_credential_bindings@.len(),
        !c.endpoint_credential_bindings@[i].enabled || c.endpoint_credential_bindings@[i].priority < 0
            || c.endpoint_credential_bindings@[i].weight < 1 || c.endpoint_credential_bindings@[i].concurrency < 1,
    ensures
        !credential_bindings_admitted(c),
        admission(c, snapshot_version) is Err,
{
    assert(!binding_admitted(c, c.endpoint_credential_bindings@[i]));
}

/// Admits the Version's credentials and weighted endpoint bindings.
pub fn validate_p12_credential_bindings(configuration: &ControlPlaneConfig) -> (r: Result<(), RuntimeCompositionError>)
    ensures
        r == if credential_bindings_admitted(*configuration) {
            Ok::<(), RuntimeCompositionError>(())
        } else {
            Err(RuntimeCompositionError::Unavailable)
        },
{
    let c = configuration;
    let mut i: usize = 0;
    while i < c.credentials.len()
        invariant
            c == configuration,
            0 <= i <= c.credentials@.len(),
            forall|j: int| 0 <= j < i ==> credential_admitted(*c, #[trigger] c.credentials@[j]),
        decreases c.credentials.len() - i,
    {
        let k = &c.credentials[i];
        if !(str_eq(k.kind.as_str(), "bearer") || str_eq(k.kind.as_str(), "oauth_json"))
            || k.status != CredentialStatus::Active || !holds_key(&c.upstreams, k.upstream_id.as_str()) {
            return Err(RuntimeCompositionError::Unavailable);
        }
        i = i + 1;
    }
    let bindings = &c.endpoint_credential_bindings;
    let mut total: i64 = 0;
    let mut i: usize = 0;
    while i < bindings.len()
        invariant
            0 <= i <= bindings@.len(),
            c == configuration,
            bindings == &c.endpoint_credential_bindings,
            forall|j: int| 0 <= j < i ==> binding_admitted(*c, #[trigger] bindings@[j]),
            total == concurrency_total(bindings@.take(i as int)),
        decreases bindings.len() - i,
    {
        let b = &bindings[i];
        proof {
            lemma_last_index_bounds(keys_of(c.endpoints@), b.endpoint_id@);
            lemma_last_index_bounds(keys_of(c.credentials@), b.credential_id@);
        }
        let e = match find_last_key(&c.endpoints, b.endpoint_id.as_str()) {
            Some(e) => e,
            None => return Err(RuntimeCompositionError::Unavailable),
        };
        let k = match find_last_key(&c.credentials, b.credential_id.as_str()) {
            Some(k) => k,
            None => return Err(RuntimeCompositionError::Unavailable),
        };
        if !b.enabled || b.priority < 0 || b.weight < 1 || b.concurrency < 1 || !str_eq(
            c.endpoints[e].upstream_id.as_str(),
            b.upstream_id.as_str(),
        ) || !str_eq(c.credentials[k].upstream_id.as_str(), b.upstream_id.as_str()) {
            return Err(RuntimeCompositionError::Unavailable);
        }
        total = match total.checked_add(b.concurrency) {
            Some(t) => t,
            None => if b.concurrency > 0 {
                i64::MAX
            } else {
                i64::MIN
            },
        };
        proof {
            assert(bindings@.take(i + 1).drop_last() =~= bindings@.take(i as int));
        }
        i = i + 1;
    }
    proof {
        assert(bindings@.take(i as int) =~= bindings@);
    }
    if total > P12_MAX_TOTAL_BINDING_CONCURRENCY {
        return Err(RuntimeCompositionError::Unavailable);
    }
    Ok(())
}

/// Whether a public model is active and declares no capability of its own.
pub open spec fn model_admitted(m: PublicModelConfig) -> bool {
    m.active && is_empty_object(m.capabilities_json@)
}

/// Whether a route serves a known model by smooth weighted round robin, with a bounded attempt
/// budget and a positive bootstrap deadline within the admitted bound.
pub open spec fn route_admitted(c: ControlPlaneConfig, r: ModelRouteConfig) -> bool {
    &&& keys_of(c.public_models@).contains(r.public_model_id@)
    &&& r.policy == RoutePolicy::SmoothWeightedRoundRobin
    &&& 1 <= r.max_attempts <= P12_MAX_ROUTE_ATTEMPTS
    &&& 0 < r.bootstrap_timeout_ms <= P12_BOOTSTRAP_TIMEOUT_MILLISECONDS
}

/// Whether a candidate joins a known route and endpoint through the endpoint's bindings, is
/// canonical on Kiro, enabled, with a non-negative priority, a positive weight and an
/// admitted capability override.
pub open spec fn candidate_admitted(c: ControlPlaneConfig, k: RouteCandidateConfig) -> bool {
    let e = last_index(keys_of(c.endpoints@), k.endpoint_id@);
    &&& e >= 0
    &&& keys_of(c.model_routes@).contains(k.route_id@)
    &&& k.endpoint_bindings_scope
    &&& (c.endpoints@[e].adapter_id@ == "kiro.messages"@ ==> k.transform_mode == TransformMode::Canonical)
    &&& k.enabled
    &&& k.priority >= 0
    &&& k.weight >= 1
    &&& override_admissible(c.endpoints@[e].adapter_id@, k.capability_override_json@)
}

/// Whether an access group is active and declares no limit.
pub open spec fn group_admitted(g: AccessGroupConfig) -> bool {
    g.active && is_empty_object(g.limits_json@)
}

/// Whether an access-group route joins a known group and route and is enabled.
pub open spec fn group_route_admitted(c: ControlPlaneConfig, b: AccessGroupRouteConfig) -> bool {
    keys_of(c.access_groups@).contains(b.access_group_id@) && keys_of(c.model_routes@).contains(b.route_id@)
        && b.enabled
}

/// Whether a client key belongs to a known group and is active.
pub open spec fn client_key_admitted(c: ControlPlaneConfig, k: ClientKeyConfig) -> bool {
    keys_of(c.access_groups@).contains(k.access_group_id@) && k.active
}

/// Whether every model, route, candidate, access group, group route and client key is
/// admitted.
pub open spec fn route_access_admitted(c: ControlPlaneConfig) -> bool {
    &&& forall|i: int| 0 <= i < c.public_models@.len() ==> model_admitted(#[trigger] c.public_models@[i])
    &&& forall|i: int| 0 <= i < c.model_routes@.len() ==> route_admitted(c, #[trigger] c.model_routes@[i])
    &&& forall|i: int| 0 <= i < c.route_candidates@.len() ==> candidate_admitted(c, #[trigger] c.route_candidates@[i])
    &&& forall|i: int| 0 <= i < c.access_groups@.len() ==> group_admitted(#[trigger] c.access_groups@[i])
    &&& forall|i: int| 0 <= i < c.access_group_routes@.len() ==> group_route_admitted(
        c,
        #[trigger] c.access_group_routes@[i],
    )
    &&& forall|i: int| 0 <= i < c.client_keys@.len() ==> client_key_admitted(c, #[trigger] c.client_keys@[i])
}

/// Admits the Version's routing and access graph.
pub fn validate_p12_route_access_shape(configuration: &ControlPlaneConfig) -> (r: Result<(), RuntimeCompositionError>)
    ensures
        r == if route_access_admitted(*configuration) {
            Ok::<(), RuntimeCompositionError>(())
        } else {
            Err(RuntimeCompositionError::Unavailable)
        },
{
    let c = configuration;
    let mut i: usize = 0;
    while i < c.public_models.len()
        invariant
            c == configuration,
            0 <= i <= c.public_models@.len(),
            forall|j: int| 0 <= j < i ==> model_admitted(#[trigger] c.public_models@[j]),
        decreases c.public_models.len() - i,
    {
        let m = &c.public_models[i];
        if !m.active || !is_empty_capability_object(m.capabilities_json.as_str()) {
            return Err(RuntimeCompositionError::Unavailable);
        }
        i = i + 1;
    }
    let mut i: usize = 0;
    while i < c.model_routes.len()
        invariant
            c == configuration,
            0 <= i <= c.model_routes@.len(),
            forall|j: int| 0 <= j < i ==> route_admitted(*c, #[trigger] c.model_routes@[j]),
        decreases c.model_routes.len() - i,
    {
        let r = &c.model_routes[i];
        if !holds_key(&c.public_models, r.public_model_id.as_str()) || r.policy
            != RoutePolicy::SmoothWeightedRoundRobin || r.max_attempts < 1 || r.max_attempts > 5
            || r.bootstrap_timeout_ms <= 0 || r.bootstrap_timeout_ms > P12_BOOTSTRAP_TIMEOUT_MILLISECONDS {
            return Err(RuntimeCompositionError::Unavailable);
        }
        i = i + 1;
    }
    let mut i: usize = 0;
    while i < c.route_candidates.len()
        invariant
            c == configuration,
            0 <= i <= c.route_candidates@.len(),
            forall|j: int| 0 <= j < i ==> candidate_admitted(*c, #[trigger] c.route_candidates@[j]),
        decreases c.route_candidates.len() - i,
    {
        let k = &c.route_candidates[i];
        proof {
            lemma_last_index_bounds(keys_of(c.endpoints@), k.endpoint_id@);
        }
        let e = match find_last_key(&c.endpoints, k.endpoint_id.as_str()) {
            Some(e) => e,
            None => return Err(RuntimeCompositionError::Unavailable),
        };
        let adapter_id = c.endpoints[e].adapter_id.as_str();
        if !holds_key(&c.model_routes, k.route_id.as_str()) || !k.endpoint_bindings_scope || (str_eq(
            adapter_id,
            "kiro.messages",
        ) && k.transform_mode != TransformMode::Canonical) || !k.enabled || k.priority < 0
            || k.weight < 1 || !p12_candidate_override_is_admissible(
            adapter_id,
            k.capability_override_json.as_str(),
        ) {
            return Err(RuntimeCompositionError::Unavailable);
        }
        i = i + 1;
    }
    let mut i: usize = 0;
    while i < c.access_groups.len()
        invariant
            c == configuration,
            0 <= i <= c.access_groups@.len(),
            forall|j: int| 0 <= j < i ==> group_admitted(#[trigger] c.access_groups@[j]),
        decreases c.access_groups.len() - i,
    {
        let g = &c.access_groups[i];
        if !g.active || !is_empty_capability_object(g.limits_json.as_str()) {
            return Err(RuntimeCompositionError::Unavailable);
        }
        i = i + 1;
    }
    let mut i: usize = 0;
    while i < c.access_group_routes.len()
        invariant
            c == configuration,
            0 <= i <= c.access_group_routes@.len(),
            forall|j: int| 0 <= j < i ==> group_route_admitted(*c, #[trigger] c.access_group_routes@[j]),
        decreases c.access_group_routes.len() - i,
    {
        let b = &c.access_group_routes[i];
        if !holds_key(&c.access_groups, b.access_group_id.as_str()) || !holds_key(
            &c.model_routes,
            b.route_id.as_str(),
        ) || !b.enabled {
            return Err(RuntimeCompositionError::Unavailable);
        }
        i = i + 1;
    }
    let mut i: usize = 0;
    while i < c.client_keys.len()
        invariant
            c == configuration,
            0 <= i <= c.client_keys@.len(),
            forall|j: int| 0 <= j < i ==> client_key_admitted(*c, #[trigger] c.client_keys@[j]),
        decreases c.client_keys.len() - i,
    {
        let k = &c.client_keys[i];
        if !holds_key(&c.access_groups, k.access_group_id.as_str()) || !k.active {
            return Err(RuntimeCompositionError::Unavailable);
        }
        i = i + 1;
    }
    Ok(())
}

/// The failure a gate of `stage` reports: the value-free stage on a graph with a native Grok
/// endpoint, the generic failure otherwise.
pub open spec fn gate_error(c: ControlPlaneConfig, stage: RuntimeCompositionStage) -> RuntimeCompositionError {
    if has_native_grok(c) {
        RuntimeCompositionError::Stage(stage)
    } else {
        RuntimeCompositionError::Unavailable
    }
}

/// The admission of a Version against the published snapshot: the four shape gates in order,
/// then the snapshot must be the Version's own.
pub open spec fn admission(c: ControlPlaneConfig, snapshot_version: Seq<char>) -> Result<(), RuntimeCompositionError> {
    if !required_resources_present(c) {
        Err(gate_error(c, RuntimeCompositionStage::RequiredResources))
    } else if !network_shape_admitted(c) {
        Err(gate_error(c, RuntimeCompositionStage::NetworkShape))
    } else if !credential_bindings_admitted(c) {
        Err(gate_error(c, RuntimeCompositionStage::CredentialBindings))
    } else if !route_access_admitted(c) {
        Err(gate_error(c, RuntimeCompositionStage::RouteAccess))
    } else if snapshot_version != c.version_id@ {
        Err(RuntimeCompositionError::Stage(RuntimeCompositionStage::Snapshot))
    } else {
        Ok(())
    }
}

/// Runs the Version through every shape gate before any Secret is opened, and checks that the
/// published snapshot is the Version's own.
pub fn admit_p12_configuration(
    configuration: &ControlPlaneConfig,
    snapshot_version: &str,
) -> (r: Result<(), RuntimeCompositionError>)
    ensures
        r == admission(*configuration, snapshot_version@),
{
    let native = has_native_grok_endpoint(&configuration.endpoints);
    let stage_error = |stage: RuntimeCompositionStage| -> (e: RuntimeCompositionError)
        ensures
            e == (if native {
                RuntimeCompositionError::Stage(stage)
            } else {
                RuntimeCompositionError::Unavailable
            }),
        {
            if native {
                RuntimeCompositionError::Stage(stage)
            } else {
                RuntimeCompositionError::Unavailable
            }
        };
    if validate_p12_required_resources(configuration).is_err() {
        return Err(stage_error(RuntimeCompositionStage::RequiredResources));
    }
    if validate_p12_network_shape(configuration).is_err() {
        return Err(stage_error(RuntimeCompositionStage::NetworkShape));
    }
    if validate_p12_credential_bindings(configuration).is_err() {
        return Err(stage_error(RuntimeCompositionStage::CredentialBindings));
    }
    if validate_p12_route_access_shape(configuration).is_err() {
        return Err(stage_error(RuntimeCompositionStage::RouteAccess));
    }
    if !str_eq(snapshot_version, configuration.version_id.as_str()) {
        return Err(RuntimeCompositionError::Stage(RuntimeCompositionStage::Snapshot));
    }
    Ok(())
}

/// The transport clients the composition caches: two response-mode profiles per endpoint,
/// and never fewer than four.
pub fn cached_client_capacity(endpoint_count: usize) -> (n: usize)
    ensures
        n == if endpoint_count * 2 > usize::MAX {
            usize::MAX as int
        } else if endpoint_count * 2 < 4 {
            4
        } else {
            endpoint_count * 2
        },
{
    let doubled = match endpoint_count.checked_mul(2) {
        Some(d) => d,
        None => usize::MAX,
    };
    if doubled < 4 {
        4
    } else {
        doubled
    }
}

} // verus!
