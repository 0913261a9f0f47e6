//! The provider-account projection of a configuration Version: one descriptor per ordinary
//! credential binding and per native Grok account, with the upstream models each channel
//! serves.
use vstd::prelude::*;
use crate::catalog::{key_less, lemma_lex_asymmetric, lemma_lex_transitive, lemma_lex_trichotomy, lex_lt};
use crate::composition::{GrokAccountProvider, RuntimeCompositionError, RuntimeCompositionStage, grok_account_kind};
use crate::config::{
    BindingConfig, ControlPlaneConfig, CredentialStatus, RouteCandidateConfig, find_last_key,
    keys_of, last_index, lemma_last_index_bounds,
};
use crate::json::str_eq;

verus! {

/// `m` inserted into the ordered list `s` unless it holds it already.
pub open spec fn sorted_insert(s: Seq<Seq<char>>, m: Seq<char>) -> Seq<Seq<char>>
    decreases s.len(),
{
    if s.len() == 0 {
        seq![m]
    } else if lex_lt(s[0], m) {
        seq![s[0]] + sorted_insert(s.drop_first(), m)
    } else if s[0] == m {
        s
    } else {
        seq![m] + s
    }
}

/// The position of the first element of `s` that does not order before `m`.
pub open spec fn first_not_below(s: Seq<Seq<char>>, m: Seq<char>) -> int
    decreases s.len(),
{
    if s.len() == 0 {
        0
    } else if lex_lt(s[0], m) {
        1 + first_not_below(s.drop_first(), m)
    } else {
        0
    }
}

proof fn lemma_sorted_insert_at(s: Seq<Seq<char>>, m: Seq<char>)
    ensures
        0 <= first_not_below(s, m) <= s.len(),
        sorted_insert(s, m) == if first_not_below(s, m) < s.len() && s[first_not_below(s, m)] == m {
            s
        } else {
            s.take(first_not_below(s, m)) + seq![m] + s.skip(first_not_below(s, m))
        },
    decreases s.len(),
{
    if s.len() == 0 {
        assert(s.take(0) + seq![m] + s.skip(0) =~= seq![m]);
    } else if lex_lt(s[0], m) {
        let t = s.drop_first();
        lemma_sorted_insert_at(t, m);
        let i = first_not_below(t, m);
        if i < t.len() {
            assert(s[i + 1] == t[i]);
        }
        if i < t.len() && t[i] == m {
            assert(seq![s[0]] + t =~= s);
        } else {
            assert(seq![s[0]] + (t.take(i) + seq![m] + t.skip(i)) =~= s.take(i + 1) + seq![m] + s.skip(i + 1));
        }
    } else if s[0] == m {
    } else {
        assert(s.take(0) + seq![m] + s.skip(0) =~= seq![m] + s);
    }
}

/// Whether `s` is strictly increasing, so that each text occurs once.
pub open spec fn strictly_ordered(s: Seq<Seq<char>>) -> bool {
    forall|p: int, q: int| 0 <= p < q < s.len() ==> lex_lt(#[trigger] s[p], #[trigger] s[q])
}

/// Inserting into a strictly increasing list keeps it strictly increasing and adds exactly the
/// inserted text.
pub proof fn lemma_sorted_insert_keeps_a_strict_order(s: Seq<Seq<char>>, m: Seq<char>)
    requires
        strictly_ordered(s),
    ensures
        strictly_ordered(sorted_insert(s, m)),
        forall|x: Seq<char>| #[trigger] sorted_insert(s, m).contains(x) <==> (s.contains(x) || x == m),
    decreases s.len(),
{
    let r = sorted_insert(s, m);
    if s.len() == 0 {
        assert(r[0] == m);
    } else if lex_lt(s[0], m) {
        let t = s.drop_first();
        assert forall|p: int, q: int| 0 <= p < q < t.len() implies lex_lt(#[trigger] t[p], #[trigger] t[q]) by {
            assert(t[p] == s[p + 1] && t[q] == s[q + 1]);
        }
        lemma_sorted_insert_keeps_a_strict_order(t, m);
        let rt = sorted_insert(t, m);
        assert(r == seq![s[0]] + rt);
        assert forall|x: Seq<char>| #[trigger] t.contains(x) implies lex_lt(s[0], x) by {
            let j = choose|j: int| 0 <= j < t.len() && t[j] == x;
            assert(s[j + 1] == x);
        }
        assert forall|p: int, q: int| 0 <= p < q < r.len() implies lex_lt(#[trigger] r[p], #[trigger] r[q]) by {
            assert(r[q] == rt[q - 1]);
            if p > 0 {
                assert(r[p] == rt[p - 1]);
            } else {
                assert(rt.contains(rt[q - 1]));
            }
        }
        assert forall|x: Seq<char>| #[trigger] r.contains(x) <==> (s.contains(x) || x == m) by {
            if r.contains(x) {
                let j = choose|j: int| 0 <= j < r.len() && r[j] == x;
                if j > 0 {
                    assert(rt[j - 1] == x);
                    assert(rt.contains(x));
                    if t.contains(x) {
                        let k = choose|k: int| 0 <= k < t.len() && t[k] == x;
                        assert(s[k + 1] == x);
                    }
                } else {
                    assert(s[0] == x);
                }
            }
            if s.contains(x) {
                let j = choose|j: int| 0 <= j < s.len() && s[j] == x;
                if j > 0 {
                    assert(t[j - 1] == x);
                    assert(rt.contains(x));
                    let k = choose|k: int| 0 <= k < rt.len() && rt[k] == x;
                    assert(r[k + 1] == x);
                } else {
                    assert(r[0] == x);
                }
            }
            if x == m {
                assert(rt.contains(m));
                let k = choose|k: int| 0 <= k < rt.len() && rt[k] == m;
                assert(r[k + 1] == m);
            }
        }
    } else if s[0] == m {
    } else {
        lemma_lex_trichotomy(s[0], m);
        assert(r == seq![m] + s);
        assert forall|p: int, q: int| 0 <= p < q < r.len() implies lex_lt(#[trigger] r[p], #[trigger] r[q]) by {
            assert(r[q] == s[q - 1]);
            if p > 0 {
                assert(r[p] == s[p - 1]);
            } else if q > 1 {
                lemma_lex_transitive(m, s[0], s[q - 1]);
            }
        }
        assert forall|x: Seq<char>| #[trigger] r.contains(x) <==> (s.contains(x) || x == m) by {
            if r.contains(x) {
                let j = choose|j: int| 0 <= j < r.len() && r[j] == x;
                if j > 0 {
                    assert(s[j - 1] == x);
                }
            }
            if s.contains(x) {
                let j = choose|j: int| 0 <= j < s.len() && s[j] == x;
                assert(r[j + 1] == x);
            }
            if x == m {
                assert(r[0] == m);
            }
        }
    }
}

/// The upstream models the enabled candidates of channel `endpoint_id` name, each once, in
/// identifier order.
pub open spec fn endpoint_models(cs: Seq<RouteCandidateConfig>, endpoint_id: Seq<char>) -> Seq<Seq<char>>
    decreases cs.len(),
{
    if cs.len() == 0 {
        Seq::empty()
    } else {
        let r = endpoint_models(cs.drop_last(), endpoint_id);
        if cs.last().enabled && cs.last().endpoint_id@ == endpoint_id {
            sorted_insert(r, cs.last().upstream_model@)
        } else {
            r
        }
    }
}

/// Whether candidate `c` is enabled on channel `endpoint_id` and names upstream model `m`.
pub open spec fn names_model(c: RouteCandidateConfig, endpoint_id: Seq<char>, m: Seq<char>) -> bool {
    c.enabled && c.endpoint_id@ == endpoint_id && c.upstream_model@ == m
}

/// The models of a channel are exactly the upstream models its enabled candidates name, each
/// once, in identifier order.
pub proof fn lemma_endpoint_models_are_the_named_models(cs: Seq<RouteCandidateConfig>, endpoint_id: Seq<char>)
    ensures
        strictly_ordered(endpoint_models(cs, endpoint_id)),
        forall|m: Seq<char>|
            #[trigger] endpoint_models(cs, endpoint_id).contains(m) <==> exists|i: int|
                0 <= i < cs.len() && names_model(#[trigger] cs[i], endpoint_id, m),
    decreases cs.len(),
{
    if cs.len() > 0 {
        let init = cs.drop_last();
        lemma_endpoint_models_are_the_named_models(init, endpoint_id);
        let r = endpoint_models(init, endpoint_id);
        if cs.last().enabled && cs.last().endpoint_id@ == endpoint_id {
            lemma_sorted_insert_keeps_a_strict_order(r, cs.last().upstream_model@);
        }
        assert forall|m: Seq<char>|
            #[trigger] endpoint_models(cs, endpoint_id).contains(m) <==> exists|i: int|
                0 <= i < cs.len() && names_model(#[trigger] cs[i], endpoint_id, m) by {
            if exists|i: int| 0 <= i < cs.len() && names_model(#[trigger] cs[i], endpoint_id, m) {
                let i = choose|i: int| 0 <= i < cs.len() && names_model(#[trigger] cs[i], endpoint_id, m);
                if i < cs.len() - 1 {
                    assert(names_model(init[i], endpoint_id, m));
                }
            }
            if exists|i: int| 0 <= i < init.len() && names_model(#[trigger] init[i], endpoint_id, m) {
                let i = choose|i: int| 0 <= i < init.len() && names_model(#[trigger] init[i], endpoint_id, m);
                assert(names_model(cs[i], endpoint_id, m));
            }
        }
    }
}

pub(crate) fn insert_model(models: &mut Vec<String>, m: &String)
    ensures
        final(models)@.map_values(|s: String| s@) == sorted_insert(old(models)@.map_values(|s: String| s@), m@),
{
    let ghost s = models@.map_values(|x: String| x@);
    proof {
        lemma_sorted_insert_at(s, m@);
        assert(s.skip(0) =~= s);
    }
    let mut i: usize = 0;
    while i < models.len() && key_less(models[i].as_str(), m.as_str())
        invariant
            0 <= i <= models@.len(),
            s == models@.map_values(|x: String| x@),
            models@ == old(models)@,
            first_not_below(s, m@) == i + first_not_below(s.skip(i as int), m@),
        decreases models.len() - i,
    {
        assert(s.skip(i as int).drop_first() =~= s.skip(i + 1));
        assert(s.skip(i as int)[0] == s[i as int]);
        i = i + 1;
    }
    proof {
        if i < models.len() {
            assert(s.skip(i as int)[0] == s[i as int]);
        }
    }
    if i < models.len() && str_eq(models[i].as_str(), m.as_str()) {
        return;
    }
    models.insert(i, m.clone());
    proof {
        assert(models@.map_values(|x: String| x@) =~= s.take(i as int) + seq![m@] + s.skip(i as int));
    }
}

/// Returns the upstream models of channel `endpoint_id`.
pub fn provider_account_models(candidates: &Vec<RouteCandidateConfig>, endpoint_id: &str) -> (r: Vec<String>)
    ensures
        r@.map_values(|s: String| s@) == endpoint_models(candidates@, endpoint_id@),
{
    let mut models: Vec<String> = Vec::new();
    let mut i: usize = 0;
    proof {
        assert(models@.map_values(|s: String| s@) =~= Seq::<Seq<char>>::empty());
    }
    while i < candidates.len()
        invariant
            0 <= i <= candidates@.len(),
            models@.map_values(|s: String| s@) == endpoint_models(candidates@.take(i as int), endpoint_id@),
        decreases candidates.len() - i,
    {
        proof {
            assert(candidates@.take(i + 1).drop_last() =~= candidates@.take(i as int));
            assert(candidates@.take(i + 1).last() == candidates@[i as int]);
        }
        let c = &candidates[i];
        if c.enabled && str_eq(c.endpoint_id.as_str(), endpoint_id) {
            insert_model(&mut models, &c.upstream_model);
        }
        i = i + 1;
    }
    proof {
        assert(candidates@.take(i as int) =~= candidates@);
    }
    models
}

/// Where a provider account comes from.
#[derive(Clone, Copy, Debug, PartialEq, Eq, Structural)]
pub enum DescriptorSource {
    Ordinary,
    Native,
}

/// Whether an account may authenticate.
#[derive(Clone, Copy, Debug, PartialEq, Eq, Structural)]
pub enum AccountAuthStatus {
    Active,
    ReauthRequired,
    Disabled,
}

/// The runtime state an account starts from.
#[derive(Clone, Copy, Debug, PartialEq, Eq, Structural)]
pub enum AccountRuntimeStatus {
    Available,
    Cooling,
    Unauthorized,
}

/// One provider account of the management pool projection.
#[derive(Clone, Debug, PartialEq, Eq)]
pub struct ProviderAccountDescriptor {
    pub source: DescriptorSource,
    pub provider_id: String,
    pub channel_id: String,
    pub account_id: String,
    pub account_kind: String,
    pub auth_status: AccountAuthStatus,
    pub runtime_status_hint: AccountRuntimeStatus,
    pub enabled: bool,
    pub priority: i64,
    pub weight: u32,
    pub max_concurrency: u32,
    pub expires_at_ms: Option<i64>,
    pub refresh_due_at_ms: Option<i64>,
    pub quota_sync_due_at_ms: Option<i64>,
    pub upstream_models: Vec<String>,
}

/// The auth status and runtime hint a stored credential status projects to.
pub open spec fn credential_statuses(status: CredentialStatus) -> (AccountAuthStatus, AccountRuntimeStatus) {
    match status {
        CredentialStatus::Active => (AccountAuthStatus::Active, AccountRuntimeStatus::Available),
        CredentialStatus::Cooling => (AccountAuthStatus::Active, AccountRuntimeStatus::Cooling),
        CredentialStatus::Unauthorized => (AccountAuthStatus::ReauthRequired, AccountRuntimeStatus::Unauthorized),
        CredentialStatus::Disabled => (AccountAuthStatus::Disabled, AccountRuntimeStatus::Available),
    }
}

/// Whether an ordinary binding projects to a descriptor: its endpoint, credential and
/// upstream exist, all three under the binding's upstream, and its weight and concurrency fit
/// in `u32`.
pub open spec fn binding_projects(c: ControlPlaneConfig, b: BindingConfig) -> bool {
    let e = last_index(keys_of(c.endpoints@), b.endpoint_id@);
    let k = last_index(keys_of(c.credentials@), b.credential_id@);
    let u = last_index(keys_of(c.upstreams@), b.upstream_id@);
    &&& e >= 0 && k >= 0 && u >= 0
    &&& c.endpoints@[e].upstream_id@ == b.upstream_id@
    &&& c.credentials@[k].upstream_id@ == b.upstream_id@
    &&& 0 <= b.weight <= u32::MAX
    &&& 0 <= b.concurrency <= u32::MAX
}

/// The descriptor an ordinary binding projects to, as a model.
pub open spec fn binding_descriptor_ok(c: ControlPlaneConfig, b: BindingConfig, d: ProviderAccountDescriptor) -> bool {
    let e = c.endpoints@[last_index(keys_of(c.endpoints@), b.endpoint_id@)];
    let k = c.credentials@[last_index(keys_of(c.credentials@), b.credential_id@)];
    let u = c.upstreams@[last_index(keys_of(c.upstreams@), b.upstream_id@)];
    &&& d.source == DescriptorSource::Ordinary
    &&& d.provider_id@ == u.id@
    &&& d.channel_id@ == e.id@
    &&& d.account_id@ == k.id@
    &&& d.account_kind@ == k.kind@
    &&& (d.auth_status, d.runtime_status_hint) == credential_statuses(k.status)
    &&& d.enabled == (u.enabled && e.enabled && b.enabled && k.status != CredentialStatus::Disabled)
    &&& d.priority == b.priority
    &&& d.weight == b.weight
    &&& d.max_concurrency == b.concurrency
    &&& d.expires_at_ms is None && d.refresh_due_at_ms is None && d.quota_sync_due_at_ms is None
    &&& d.upstream_models@.map_values(|s: String| s@) == endpoint_models(c.route_candidates@, e.id@)
}

/// The ordinary bindings, those not on a native endpoint, in order.
pub open spec fn ordinary_bindings(bs: Seq<BindingConfig>, native: Seq<Seq<char>>) -> Seq<BindingConfig>
    decreases bs.len(),
{
    if bs.len() == 0 {
        bs
    } else {
        let r = ordinary_bindings(bs.drop_last(), native);
        if native.contains(bs.last().endpoint_id@) {
            r
        } else {
            r.push(bs.last())
        }
    }
}

fn holds_string(ids: &Vec<String>, id: &str) -> (r: bool)
    ensures
        r == ids@.map_values(|s: String| s@).contains(id@),
{
    let ghost m = ids@.map_values(|s: String| s@);
    let mut i: usize = 0;
    while i < ids.len()
        invariant
            0 <= i <= ids@.len(),
            m == ids@.map_values(|s: String| s@),
            forall|j: int| 0 <= j < i ==> (#[trigger] m[j]) != id@,
        decreases ids.len() - i,
    {
        if str_eq(ids[i].as_str(), id) {
            assert(m[i as int] == id@);
            return true;
        }
        i = i + 1;
    }
    false
}

/// Each descriptor of `ds` is the projection of the binding at its position in `bs`.
pub open spec fn descriptors_ok(c: ControlPlaneConfig, bs: Seq<BindingConfig>, ds: Seq<ProviderAccountDescriptor>) -> bool {
    &&& ds.len() == bs.len()
    &&& forall|j: int| 0 <= j < ds.len() ==> #[trigger] projects_to(c, bs[j], ds[j])
}

/// Binding `b` projects, and to descriptor `d`.
pub open spec fn projects_to(c: ControlPlaneConfig, b: BindingConfig, d: ProviderAccountDescriptor) -> bool {
    binding_projects(c, b) && binding_descriptor_ok(c, b, d)
}

/// Every projected ordinary descriptor reports its credential's state: its runtime hint is
/// Cooling exactly when the credential is cooling and Unauthorized exactly when it is
/// unauthorized, its account needs reauthorization exactly when the credential is
/// unauthorized, and a disabled credential projects a disabled, not-enabled account. A cooling
/// credential is never reported Available.
pub proof fn lemma_descriptors_report_their_credential_state(
    c: ControlPlaneConfig,
    bs: Seq<BindingConfig>,
    ds: Seq<ProviderAccountDescriptor>,
    j: int,
)
    requires
        descriptors_ok(c, bs, ds),
        0 <= j < ds.len(),
    ensures
        ({
            let k = c.credentials@[last_index(keys_of(c.credentials@), bs[j].credential_id@)];
            &&& (ds[j].runtime_status_hint == AccountRuntimeStatus::Cooling) <==> (k.status == CredentialStatus::Cooling)
            &&& (ds[j].runtime_status_hint == AccountRuntimeStatus::Unauthorized) <==> (k.status
                == CredentialStatus::Unauthorized)
            &&& (ds[j].runtime_status_hint == AccountRuntimeStatus::Available) <==> (k.status == CredentialStatus::Active
                || k.status == CredentialStatus::Disabled)
            &&& (ds[j].auth_status == AccountAuthStatus::ReauthRequired) <==> (k.status == CredentialStatus::Unauthorized)
            &&& (ds[j].auth_status == AccountAuthStatus::Disabled) <==> (k.status == CredentialStatus::Disabled)
            &&& k.status == CredentialStatus::Disabled ==> !ds[j].enabled
        }),
{
    assert(projects_to(c, bs[j], ds[j]));
}

/// Projects the ordinary credential bindings of the Version onto provider accounts; any
/// binding that does not project fails the pool projection.
pub fn ordinary_provider_account_descriptors(
    configuration: &ControlPlaneConfig,
    native_endpoint_ids: &Vec<String>,
) -> (r: Result<Vec<ProviderAccountDescriptor>, RuntimeCompositionError>)
    ensures
        ({
            let bs = ordinary_bindings(
                configuration.endpoint_credential_bindings@,
                native_endpoint_ids@.map_values(|s: String| s@),
            );
            match r {
                Ok(v) => descriptors_ok(*configuration, bs, v@),
                Err(e) => e == RuntimeCompositionError::Stage(RuntimeCompositionStage::ProviderAccountPool)
                    && exists|i: int| 0 <= i < bs.len() && !binding_projects(*configuration, #[trigger] bs[i]),
            }
        }),
{
    let c = configuration;
    let ghost native = native_endpoint_ids@.map_values(|s: String| s@);
    let bindings = &c.endpoint_credential_bindings;
    let mut out: Vec<ProviderAccountDescriptor> = Vec::new();
    let mut i: usize = 0;
    while i < bindings.len()
        invariant
            0 <= i <= bindings@.len(),
            bindings == &c.endpoint_credential_bindings,
            c == configuration,
            native == native_endpoint_ids@.map_values(|s: String| s@),
            descriptors_ok(*c, ordinary_bindings(bindings@.take(i as int), native), out@),
        decreases bindings.len() - i,
    {
        let ghost pre = ordinary_bindings(bindings@.take(i as int), native);
        proof {
            assert(bindings@.take(i + 1).drop_last() =~= bindings@.take(i as int));
            assert(bindings@.take(i + 1).last() == bindings@[i as int]);
        }
        let b = &bindings[i];
        if holds_string(native_endpoint_ids, b.endpoint_id.as_str()) {
            proof {
                assert(ordinary_bindings(bindings@.take(i + 1), native) == pre);
            }
        } else {
        let ghost post = ordinary_bindings(bindings@.take(i + 1), native);
        proof {
            assert(post == pre.push(*b));
            lemma_last_index_bounds(keys_of(c.endpoints@), b.endpoint_id@);
            lemma_last_index_bounds(keys_of(c.credentials@), b.credential_id@);
            lemma_last_index_bounds(keys_of(c.upstreams@), b.upstream_id@);
            lemma_ordinary_prefix(bindings@, native, i + 1);
            let full = ordinary_bindings(bindings@, native);
            assert(full[pre.len() as int] == post[pre.len() as int]);
            assert(post[pre.len() as int] == *b);
        }
        let fail = RuntimeCompositionError::Stage(RuntimeCompositionStage::ProviderAccountPool);
        let e = match find_last_key(&c.endpoints, b.endpoint_id.as_str()) {
            Some(e) => e,
            None => return Err(fail),
        };
        let k = match find_last_key(&c.credentials, b.credential_id.as_str()) {
            Some(k) => k,
            None => return Err(fail),
        };
        let u = match find_last_key(&c.upstreams, b.upstream_id.as_str()) {
            Some(u) => u,
            None => return Err(fail),
        };
        let endpoint = &c.endpoints[e];
        let credential = &c.credentials[k];
        let upstream = &c.upstreams[u];
        if !str_eq(endpoint.upstream_id.as_str(), b.upstream_id.as_str()) || !str_eq(
            credential.upstream_id.as_str(),
            b.upstream_id.as_str(),
        ) {
            return Err(fail);
        }
        if b.weight < 0 || b.weight > 4294967295 || b.concurrency < 0 || b.concurrency > 4294967295 {
            return Err(fail);
        }
        let (auth_status, runtime_status_hint) = match credential.status {
            CredentialStatus::Active => (AccountAuthStatus::Active, AccountRuntimeStatus::Available),
            CredentialStatus::Cooling => (AccountAuthStatus::Active, AccountRuntimeStatus::Cooling),
            CredentialStatus::Unauthorized => (AccountAuthStatus::ReauthRequired, AccountRuntimeStatus::Unauthorized),
            CredentialStatus::Disabled => (AccountAuthStatus::Disabled, AccountRuntimeStatus::Available),
        };
        let weight = b.weight as u32;
        let max_concurrency = b.concurrency as u32;
        let d = ProviderAccountDescriptor {
            source: DescriptorSource::Ordinary,
            provider_id: upstream.id.clone(),
            channel_id: endpoint.id.clone(),
            account_id: credential.id.clone(),
            account_kind: credential.kind.clone(),
            auth_status,
            runtime_status_hint,
            enabled: upstream.enabled && endpoint.enabled && b.enabled && credential.status
                != CredentialStatus::Disabled,
            priority: b.priority,
            weight,
            max_concurrency,
            expires_at_ms: None,
            refresh_due_at_ms: None,
            quota_sync_due_at_ms: None,
            upstream_models: provider_account_models(&c.route_candidates, endpoint.id.as_str()),
        };
        proof {
            assert(binding_projects(*c, *b));
            assert(binding_descriptor_ok(*c, *b, d));
        }
        let ghost out_before = out@;
        assert(descriptors_ok(*c, pre, out_before));
        assert(out_before.len() == pre.len());
        out.push(d);
        proof {
            assert(out@ == out_before.push(d));
            assert(post == pre.push(*b));
            assert forall|j: int| 0 <= j < out@.len() implies #[trigger] projects_to(*c, post[j], out@[j]) by {
                if j < out_before.len() {
                    assert(post[j] == pre[j]);
                    assert(out@[j] == out_before[j]);
                    assert(projects_to(*c, pre[j], out_before[j]));
                } else {
                    assert(j == pre.len());
                    assert(post[j] == *b);
                    assert(out@[j] == d);
                }
            }
            assert(descriptors_ok(*c, post, out@));
        }
        }
        let ghost next = ordinary_bindings(bindings@.take(i + 1), native);
        assert(descriptors_ok(*c, next, out@));
        i = i + 1;
        assert(next == ordinary_bindings(bindings@.take(i as int), native));
    }
    proof {
        assert(bindings@.take(i as int) =~= bindings@);
        let bs = ordinary_bindings(configuration.endpoint_credential_bindings@, native_endpoint_ids@.map_values(|s: String| s@));
        assert(bs == ordinary_bindings(bindings@.take(i as int), native));
    }
    Ok(out)
}

/// The ordinary bindings of a prefix are a prefix of the ordinary bindings.
proof fn lemma_ordinary_prefix(bs: Seq<BindingConfig>, native: Seq<Seq<char>>, n: int)
    requires
        0 <= n <= bs.len(),
    ensures
        ordinary_bindings(bs.take(n), native).len() <= ordinary_bindings(bs, native).len(),
        ordinary_bindings(bs, native).take(ordinary_bindings(bs.take(n), native).len() as int)
            == ordinary_bindings(bs.take(n), native),
    decreases bs.len() - n,
{
    let p = ordinary_bindings(bs.take(n), native);
    let full = ordinary_bindings(bs, native);
    if n < bs.len() {
        lemma_ordinary_prefix(bs, native, n + 1);
        let q = ordinary_bindings(bs.take(n + 1), native);
        assert(bs.take(n + 1).drop_last() =~= bs.take(n));
        assert(q.take(p.len() as int) =~= p);
        assert(full.take(p.len() as int) =~= q.take(p.len() as int));
    } else {
        assert(bs.take(n) =~= bs);
        assert(full.take(full.len() as int) =~= full);
    }
}

/// Whether a native account may authenticate.
#[derive(Clone, Copy, Debug, PartialEq, Eq, Structural)]
pub enum NativeAuthStatus {
    Active,
    ReauthRequired,
    Disabled,
}

/// One native Grok account, as the account pool reports it.
#[derive(Clone, Debug)]
pub struct NativeAccount {
    pub id: String,
    pub provider: GrokAccountProvider,
    pub auth_status: NativeAuthStatus,
    pub enabled: bool,
    pub priority: i64,
    pub weight: u32,
    pub max_concurrency: u32,
    pub refresh_due_at_ms: Option<i64>,
    pub quota_sync_due_at_ms: Option<i64>,
}

/// The endpoint one native Grok family is bound to.
#[derive(Clone, Debug)]
pub struct NativeBinding {
    pub provider: GrokAccountProvider,
    pub endpoint_id: String,
}

/// Whether no family is bound twice.
pub open spec fn providers_distinct(bs: Seq<NativeBinding>) -> bool {
    forall|i: int, j: int| 0 <= i < j < bs.len() ==> (#[trigger] bs[i]).provider != (#[trigger] bs[j]).provider
}

/// The endpoint family `p` is bound to.
pub open spec fn bound_endpoint(bs: Seq<NativeBinding>, p: GrokAccountProvider) -> Option<Seq<char>>
    decreases bs.len(),
{
    if bs.len() == 0 {
        None
    } else if bs[0].provider == p {
        Some(bs[0].endpoint_id@)
    } else {
        bound_endpoint(bs.drop_first(), p)
    }
}

/// The accounts of a bound family, in order.
pub open spec fn bound_accounts(accounts: Seq<NativeAccount>, bs: Seq<NativeBinding>) -> Seq<NativeAccount>
    decreases accounts.len(),
{
    if accounts.len() == 0 {
        accounts
    } else {
        let r = bound_accounts(accounts.drop_last(), bs);
        if bound_endpoint(bs, accounts.last().provider) is Some {
            r.push(accounts.last())
        } else {
            r
        }
    }
}

/// The auth status a native status projects to.
pub open spec fn native_auth(status: NativeAuthStatus) -> AccountAuthStatus {
    match status {
        NativeAuthStatus::Active => AccountAuthStatus::Active,
        NativeAuthStatus::ReauthRequired => AccountAuthStatus::ReauthRequired,
        NativeAuthStatus::Disabled => AccountAuthStatus::Disabled,
    }
}

/// Whether a bound account projects: its endpoint and that endpoint's upstream exist, and its
/// priority inverts within `i64`.
pub open spec fn account_projects(c: ControlPlaneConfig, endpoint_id: Seq<char>, a: NativeAccount) -> bool {
    let e = last_index(keys_of(c.endpoints@), endpoint_id);
    &&& e >= 0
    &&& last_index(keys_of(c.upstreams@), c.endpoints@[e].upstream_id@) >= 0
    &&& i64::MIN <= 1000 - a.priority <= i64::MAX
}

/// The descriptor a bound account projects to: higher stored priority ranks first.
pub open spec fn account_descriptor_ok(c: ControlPlaneConfig, endpoint_id: Seq<char>, a: NativeAccount, d: ProviderAccountDescriptor) -> bool {
    let e = c.endpoints@[last_index(keys_of(c.endpoints@), endpoint_id)];
    let u = c.upstreams@[last_index(keys_of(c.upstreams@), e.upstream_id@)];
    let auth = native_auth(a.auth_status);
    &&& d.source == DescriptorSource::Native
    &&& d.provider_id@ == u.id@
    &&& d.channel_id@ == e.id@
    &&& d.account_id@ == a.id@
    &&& d.account_kind@ == match a.provider {
        GrokAccountProvider::Build => "grok_build_oauth"@,
        GrokAccountProvider::Web => "grok_web_sso"@,
        GrokAccountProvider::Console => "grok_console_sso"@,
    }
    &&& d.auth_status == auth
    &&& d.runtime_status_hint == if auth == AccountAuthStatus::ReauthRequired {
        AccountRuntimeStatus::Unauthorized
    } else {
        AccountRuntimeStatus::Available
    }
    &&& d.enabled == (u.enabled && e.enabled && a.enabled && auth != AccountAuthStatus::Disabled)
    &&& d.priority == 1000 - a.priority
    &&& d.weight == a.weight
    &&& d.max_concurrency == a.max_concurrency
    &&& d.expires_at_ms is None
    &&& d.refresh_due_at_ms == a.refresh_due_at_ms
    &&& d.quota_sync_due_at_ms == a.quota_sync_due_at_ms
    &&& d.upstream_models@.map_values(|s: String| s@) == endpoint_models(c.route_candidates@, endpoint_id)
}

/// Account `a` projects, and to descriptor `d`.
pub open spec fn account_projects_to(c: ControlPlaneConfig, bs: Seq<NativeBinding>, a: NativeAccount, d: ProviderAccountDescriptor) -> bool {
    bound_endpoint(bs, a.provider) matches Some(endpoint_id) && account_projects(c, endpoint_id, a)
        && account_descriptor_ok(c, endpoint_id, a, d)
}

/// Each descriptor of `ds` is the projection of the account at its position in `accounts`.
pub open spec fn native_descriptors_ok(
    c: ControlPlaneConfig,
    bs: Seq<NativeBinding>,
    accounts: Seq<NativeAccount>,
    ds: Seq<ProviderAccountDescriptor>,
) -> bool {
    &&& ds.len() == accounts.len()
    &&& forall|j: int| 0 <= j < ds.len() ==> #[trigger] account_projects_to(c, bs, accounts[j], ds[j])
}

fn find_bound_endpoint<'a>(bindings: &'a Vec<NativeBinding>, p: GrokAccountProvider) -> (r: Option<&'a String>)
    ensures
        (match r {
            Some(s) => Some(s@),
            None => None,
        }) == bound_endpoint(bindings@, p),
{
    let mut i: usize = 0;
    assert(bindings@.skip(0) =~= bindings@);
    while i < bindings.len()
        invariant
            0 <= i <= bindings@.len(),
            bound_endpoint(bindings@, p) == bound_endpoint(bindings@.skip(i as int), p),
        decreases bindings.len() - i,
    {
        assert(bindings@.skip(i as int).drop_first() =~= bindings@.skip(i + 1));
        assert(bindings@.skip(i as int)[0] == bindings@[i as int]);
        if bindings[i].provider == p {
            return Some(&bindings[i].endpoint_id);
        }
        i = i + 1;
    }
    None
}

/// Projects the native Grok accounts of bound families onto provider accounts; a family bound
/// twice, or a bound account that does not project, fails the pool projection.
pub fn native_provider_account_descriptors(
    configuration: &ControlPlaneConfig,
    bindings: &Vec<NativeBinding>,
    accounts: &Vec<NativeAccount>,
) -> (r: Result<Vec<ProviderAccountDescriptor>, RuntimeCompositionError>)
    ensures
        match r {
            Ok(v) => providers_distinct(bindings@) && native_descriptors_ok(
                *configuration,
                bindings@,
                bound_accounts(accounts@, bindings@),
                v@,
            ),
            Err(e) => e == RuntimeCompositionError::Stage(RuntimeCompositionStage::ProviderAccountPool)
                && (!providers_distinct(bindings@) || exists|i: int| 0 <= i < bound_accounts(accounts@, bindings@).len()
                && !account_projects(
                *configuration,
                bound_endpoint(bindings@, #[trigger] bound_accounts(accounts@, bindings@)[i].provider)->0,
                bound_accounts(accounts@, bindings@)[i],
            )),
        },
{
    let c = configuration;
    let mut i: usize = 0;
    while i < bindings.len()
        invariant
            0 <= i <= bindings@.len(),
            forall|p: int, q: int| 0 <= p < q < i ==> (#[trigger] bindings@[p]).provider != (#[trigger] bindings@[q]).provider,
        decreases bindings.len() - i,
    {
        let mut j: usize = 0;
        while j < i
            invariant
                0 <= j <= i < bindings@.len(),
                forall|p: int| 0 <= p < j ==> (#[trigger] bindings@[p]).provider != bindings@[i as int].provider,
            decreases i - j,
        {
            if bindings[j].provider == bindings[i].provider {
                proof {
                    assert(bindings@[j as int].provider == bindings@[i as int].provider);
                    assert(!providers_distinct(bindings@));
                }
                return Err(RuntimeCompositionError::Stage(RuntimeCompositionStage::ProviderAccountPool));
            }
            j = j + 1;
        }
        i = i + 1;
    }
    let mut out: Vec<ProviderAccountDescriptor> = Vec::new();
    let mut i: usize = 0;
    while i < accounts.len()
        invariant
            0 <= i <= accounts@.len(),
            c == configuration,
            providers_distinct(bindings@),
            native_descriptors_ok(*c, bindings@, bound_accounts(accounts@.take(i as int), bindings@), out@),
        decreases accounts.len() - i,
    {
        let ghost pre = bound_accounts(accounts@.take(i as int), bindings@);
        proof {
            assert(accounts@.take(i + 1).drop_last() =~= accounts@.take(i as int));
            assert(accounts@.take(i + 1).last() == accounts@[i as int]);
        }
        let a = &accounts[i];
        match find_bound_endpoint(bindings, a.provider) {
            None => {
                proof {
                    assert(bound_accounts(accounts@.take(i + 1), bindings@) == pre);
                }
            },
            Some(endpoint_id) => {
                let ghost post = bound_accounts(accounts@.take(i + 1), bindings@);
                proof {
                    assert(post == pre.push(*a));
                    lemma_bound_prefix(accounts@, bindings@, i + 1);
                    let full = bound_accounts(accounts@, bindings@);
                    assert(full[pre.len() as int] == post[pre.len() as int]);
                    assert(full[pre.len() as int] == *a);
                    assert(bound_endpoint(bindings@, full[pre.len() as int].provider)->0 == endpoint_id@);
                    lemma_last_index_bounds(keys_of(c.endpoints@), endpoint_id@);
                }
                let ghost k = pre.len() as int;
                let e = match find_last_key(&c.endpoints, endpoint_id.as_str()) {
                    Some(e) => e,
                    None => {
                        proof {
                            let full = bound_accounts(accounts@, bindings@);
                            assert(!account_projects(*c, bound_endpoint(bindings@, full[k].provider)->0, full[k]));
                        }
                        return Err(RuntimeCompositionError::Stage(RuntimeCompositionStage::ProviderAccountPool));
                    },
                };
                let endpoint = &c.endpoints[e];
                proof {
                    lemma_last_index_bounds(keys_of(c.upstreams@), endpoint.upstream_id@);
                }
                let u = match find_last_key(&c.upstreams, endpoint.upstream_id.as_str()) {
                    Some(u) => u,
                    None => {
                        proof {
                            let full = bound_accounts(accounts@, bindings@);
                            assert(!account_projects(*c, bound_endpoint(bindings@, full[k].provider)->0, full[k]));
                        }
                        return Err(RuntimeCompositionError::Stage(RuntimeCompositionStage::ProviderAccountPool));
                    },
                };
                let upstream = &c.upstreams[u];
                let priority = match 1000i64.checked_sub(a.priority) {
                    Some(p) => p,
                    None => {
                        proof {
                            let full = bound_accounts(accounts@, bindings@);
                            assert(!account_projects(*c, bound_endpoint(bindings@, full[k].provider)->0, full[k]));
                        }
                        return Err(RuntimeCompositionError::Stage(RuntimeCompositionStage::ProviderAccountPool));
                    },
                };
                let auth_status = match a.auth_status {
                    NativeAuthStatus::Active => AccountAuthStatus::Active,
                    NativeAuthStatus::ReauthRequired => AccountAuthStatus::ReauthRequired,
                    NativeAuthStatus::Disabled => AccountAuthStatus::Disabled,
                };
                let runtime_status_hint = if auth_status == AccountAuthStatus::ReauthRequired {
                    AccountRuntimeStatus::Unauthorized
                } else {
                    AccountRuntimeStatus::Available
                };
                let d = ProviderAccountDescriptor {
                    source: DescriptorSource::Native,
                    provider_id: upstream.id.clone(),
                    channel_id: endpoint.id.clone(),
                    account_id: a.id.clone(),
                    account_kind: String::from_str(grok_account_kind(a.provider)),
                    auth_status,
                    runtime_status_hint,
                    enabled: upstream.enabled && endpoint.enabled && a.enabled && auth_status
                        != AccountAuthStatus::Disabled,
                    priority,
                    weight: a.weight,
                    max_concurrency: a.max_concurrency,
                    expires_at_ms: None,
                    refresh_due_at_ms: a.refresh_due_at_ms,
                    quota_sync_due_at_ms: a.quota_sync_due_at_ms,
                    upstream_models: provider_account_models(&c.route_candidates, endpoint_id.as_str()),
                };
                proof {
                    assert(account_projects_to(*c, bindings@, *a, d));
                }
                let ghost out_before = out@;
                out.push(d);
                proof {
                    assert forall|j: int| 0 <= j < out@.len() implies #[trigger] account_projects_to(*c, bindings@, post[j], out@[j]) by {
                        if j < out_before.len() {
                            assert(post[j] == pre[j]);
                            assert(out@[j] == out_before[j]);
                            assert(account_projects_to(*c, bindings@, pre[j], out_before[j]));
                        } else {
                            assert(post[j] == *a);
                            assert(out@[j] == d);
                        }
                    }
                }
            },
        }
        let ghost next = bound_accounts(accounts@.take(i + 1), bindings@);
        assert(native_descriptors_ok(*c, bindings@, next, out@));
        i = i + 1;
        assert(next == bound_accounts(accounts@.take(i as int), bindings@));
    }
    proof {
        assert(accounts@.take(i as int) =~= accounts@);
    }
    Ok(out)
}

/// The bound accounts of a prefix are a prefix of the bound accounts.
proof fn lemma_bound_prefix(accounts: Seq<NativeAccount>, bs: Seq<NativeBinding>, n: int)
    requires
        0 <= n <= accounts.len(),
    ensures
        bound_accounts(accounts.take(n), bs).len() <= bound_accounts(accounts, bs).len(),
        bound_accounts(accounts, bs).take(bound_accounts(accounts.take(n), bs).len() as int)
            == bound_accounts(accounts.take(n), bs),
    decreases accounts.len() - n,
{
    let p = bound_accounts(accounts.take(n), bs);
    let full = bound_accounts(accounts, bs);
    if n < accounts.len() {
        lemma_bound_prefix(accounts, bs, n + 1);
        let q = bound_accounts(accounts.take(n + 1), bs);
        assert(accounts.take(n + 1).drop_last() =~= accounts.take(n));
        assert(q.take(p.len() as int) =~= p);
        assert(full.take(p.len() as int) =~= q.take(p.len() as int));
    } else {
        assert(accounts.take(n) =~= accounts);
        assert(full.take(full.len() as int) =~= full);
    }
}

} // verus!
