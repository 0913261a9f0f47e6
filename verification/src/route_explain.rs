//! The value-free projection of one route explanation: which candidates are admitted for the
//! request's protocol, which provider scope the explanation runs under, and why each candidate
//! was selected or excluded.
use vstd::prelude::*;
use crate::json::str_eq;

verus! {

/// Why the runtime health registry holds an endpoint back.
#[derive(Clone, Copy, Debug, PartialEq, Eq, Structural)]
pub enum HealthAvailability {
    CoolingDown,
    CircuitOpen,
    AccountForbidden,
    CredentialUnauthorized,
    AccountRecoveryInFlight,
    Available,
}

/// One reason the scheduler gives for a candidate it did not find eligible.
#[derive(Clone, Copy, Debug, PartialEq, Eq, Structural)]
pub enum CandidateReason {
    NotHardEligible,
    EndpointHealth(HealthAvailability),
    EndpointHealthUnavailable,
    MissingCredentialPool,
    NoEligibleCredential,
}

/// How a candidate's price compares within the selection.
#[derive(Clone, Copy, Debug, PartialEq, Eq, Structural)]
pub enum PriceEvidence {
    Dominant,
    Equal,
    Dominated,
    Incomparable,
    Unpriced,
    NotEvaluated,
}

/// The label of one scheduler reason.
pub open spec fn reason_label(reason: CandidateReason) -> Seq<char> {
    match reason {
        CandidateReason::NotHardEligible => "not_hard_eligible"@,
        CandidateReason::EndpointHealth(HealthAvailability::CoolingDown) => "endpoint_cooldown"@,
        CandidateReason::EndpointHealth(HealthAvailability::CircuitOpen) => "endpoint_circuit_open"@,
        CandidateReason::EndpointHealth(_) => "endpoint_unavailable"@,
        CandidateReason::EndpointHealthUnavailable => "endpoint_unavailable"@,
        CandidateReason::MissingCredentialPool => "missing_credential_pool"@,
        CandidateReason::NoEligibleCredential => "no_eligible_credential"@,
    }
}

/// The label an ineligible candidate is excluded with: its first reason, or
/// `no_eligible_credential` when the scheduler gave none.
pub open spec fn first_reason_label(reasons: Seq<CandidateReason>) -> Seq<char> {
    if reasons.len() == 0 {
        "no_eligible_credential"@
    } else {
        reason_label(reasons[0])
    }
}

fn label_of(reason: CandidateReason) -> (r: &'static str)
    ensures
        r@ == reason_label(reason),
{
    match reason {
        CandidateReason::NotHardEligible => "not_hard_eligible",
        CandidateReason::EndpointHealth(HealthAvailability::CoolingDown) => "endpoint_cooldown",
        CandidateReason::EndpointHealth(HealthAvailability::CircuitOpen) => "endpoint_circuit_open",
        CandidateReason::EndpointHealth(_) => "endpoint_unavailable",
        CandidateReason::EndpointHealthUnavailable => "endpoint_unavailable",
        CandidateReason::MissingCredentialPool => "missing_credential_pool",
        CandidateReason::NoEligibleCredential => "no_eligible_credential",
    }
}

/// Only a candidate's first scheduler reason names its exclusion, and each cause keeps a label
/// of its own: a missing credential pool, an ineligible credential, a hard-eligibility failure,
/// a cooling endpoint and an open circuit are never reported as one another, and a candidate
/// the scheduler gave no reason for reads as having no eligible credential.
pub proof fn lemma_each_exclusion_cause_keeps_its_label(r: CandidateReason, rest: Seq<CandidateReason>)
    ensures
        first_reason_label(seq![r] + rest) == first_reason_label(seq![r]),
        first_reason_label(Seq::empty()) == "no_eligible_credential"@,
        first_reason_label(seq![CandidateReason::MissingCredentialPool]) == "missing_credential_pool"@,
        first_reason_label(seq![CandidateReason::NoEligibleCredential]) == "no_eligible_credential"@,
        first_reason_label(seq![CandidateReason::NotHardEligible]) == "not_hard_eligible"@,
        first_reason_label(seq![CandidateReason::EndpointHealth(HealthAvailability::CoolingDown)])
            == "endpoint_cooldown"@,
        first_reason_label(seq![CandidateReason::EndpointHealth(HealthAvailability::CircuitOpen)])
            == "endpoint_circuit_open"@,
        first_reason_label(seq![CandidateReason::EndpointHealthUnavailable]) == "endpoint_unavailable"@,
        r is EndpointHealth && !(r->0 is CoolingDown) && !(r->0 is CircuitOpen) ==> first_reason_label(seq![r])
            == "endpoint_unavailable"@,
        first_reason_label(seq![CandidateReason::MissingCredentialPool]) != first_reason_label(
            seq![CandidateReason::NoEligibleCredential],
        ),
        first_reason_label(seq![CandidateReason::MissingCredentialPool]) != first_reason_label(Seq::empty()),
        r != CandidateReason::NoEligibleCredential ==> first_reason_label(seq![r]) != first_reason_label(
            Seq::empty(),
        ),
{
    reveal_strlit("no_eligible_credential");
    reveal_strlit("missing_credential_pool");
    reveal_strlit("not_hard_eligible");
    reveal_strlit("endpoint_cooldown");
    reveal_strlit("endpoint_circuit_open");
    reveal_strlit("endpoint_unavailable");
    assert("missing_credential_pool"@.len() != "no_eligible_credential"@.len());
    assert("not_hard_eligible"@[2] != "no_eligible_credential"@[2]);
    assert("endpoint_cooldown"@[0] != "no_eligible_credential"@[0]);
    assert("endpoint_circuit_open"@[0] != "no_eligible_credential"@[0]);
    assert("endpoint_unavailable"@[0] != "no_eligible_credential"@[0]);
    assert((seq![r] + rest)[0] == r);
}

/// Returns the label an ineligible candidate is excluded with.
pub fn management_route_explain_reason(reasons: &Vec<CandidateReason>) -> (r: &'static str)
    ensures
        r@ == first_reason_label(reasons@),
{
    if reasons.len() == 0 {
        "no_eligible_credential"
    } else {
        label_of(reasons[0])
    }
}

/// The label of one price comparison outcome.
pub open spec fn price_label(value: PriceEvidence) -> Seq<char> {
    match value {
        PriceEvidence::Dominant => "dominant"@,
        PriceEvidence::Equal => "equal"@,
        PriceEvidence::Dominated => "dominated"@,
        PriceEvidence::Incomparable => "incomparable"@,
        PriceEvidence::Unpriced => "unpriced"@,
        PriceEvidence::NotEvaluated => "not_evaluated"@,
    }
}

/// Each price comparison outcome keeps a label of its own.
pub proof fn lemma_price_labels_tell_outcomes_apart(a: PriceEvidence, b: PriceEvidence)
    ensures
        price_label(PriceEvidence::Dominant) == "dominant"@,
        price_label(PriceEvidence::Equal) == "equal"@,
        price_label(PriceEvidence::Dominated) == "dominated"@,
        price_label(PriceEvidence::Incomparable) == "incomparable"@,
        price_label(PriceEvidence::Unpriced) == "unpriced"@,
        price_label(PriceEvidence::NotEvaluated) == "not_evaluated"@,
        a != b ==> price_label(a) != price_label(b),
{
    reveal_strlit("dominant");
    reveal_strlit("equal");
    reveal_strlit("dominated");
    reveal_strlit("incomparable");
    reveal_strlit("unpriced");
    reveal_strlit("not_evaluated");
    assert("dominant"@.len() != "dominated"@.len());
    assert("dominant"@[0] != "equal"@[0] && "dominant"@[0] != "incomparable"@[0]);
    assert("dominant"@[0] != "unpriced"@[0] && "dominant"@[0] != "not_evaluated"@[0]);
    assert("dominated"@[0] != "equal"@[0] && "dominated"@[0] != "incomparable"@[0]);
    assert("dominated"@[0] != "unpriced"@[0] && "dominated"@[0] != "not_evaluated"@[0]);
    assert("equal"@[0] != "incomparable"@[0] && "equal"@[0] != "unpriced"@[0]);
    assert("equal"@[0] != "not_evaluated"@[0] && "incomparable"@[0] != "unpriced"@[0]);
    assert("incomparable"@[0] != "not_evaluated"@[0] && "unpriced"@[0] != "not_evaluated"@[0]);
}

/// Returns the label of one price comparison outcome.
pub fn management_price_evidence(value: PriceEvidence) -> (r: &'static str)
    ensures
        r@ == price_label(value),
{
    match value {
        PriceEvidence::Dominant => "dominant",
        PriceEvidence::Equal => "equal",
        PriceEvidence::Dominated => "dominated",
        PriceEvidence::Incomparable => "incomparable",
        PriceEvidence::Unpriced => "unpriced",
        PriceEvidence::NotEvaluated => "not_evaluated",
    }
}

/// One route candidate as the explanation reads it: its identifiers, whether it is hard
/// eligible, and whether the request's protocol pair is publishable through it.
#[derive(Clone, Debug)]
pub struct ExplainCandidate {
    pub id: String,
    pub upstream_id: String,
    pub hard_eligible: bool,
    pub publishable: bool,
}

/// What the scheduler's explanation says of one candidate.
#[derive(Clone, Debug)]
pub struct BaseCandidate {
    pub candidate_id: String,
    pub eligible: bool,
    pub reasons: Vec<CandidateReason>,
}

/// The provider-scoped selection the scheduler projected, when it ran one.
#[derive(Clone, Debug)]
pub struct ProjectedSelection {
    pub selected_candidate_id: Option<String>,
    pub price_decisions: Vec<(String, PriceEvidence)>,
}

/// How one candidate is explained: selected (no reason) or excluded with a reason, and the
/// price evidence it carries.
#[derive(Clone, Debug, PartialEq, Eq)]
pub struct ExplainedCandidate {
    pub candidate_id: String,
    pub excluded_reason: Option<&'static str>,
    pub price_evidence: &'static str,
}

/// Whether a candidate is admitted for the request: hard eligible and publishable.
pub open spec fn admitted(c: ExplainCandidate) -> bool {
    c.hard_eligible && c.publishable
}

/// `s` with `x` appended unless it already holds it.
pub open spec fn push_distinct(s: Seq<Seq<char>>, x: Seq<char>) -> Seq<Seq<char>> {
    if s.contains(x) {
        s
    } else {
        s.push(x)
    }
}

/// The distinct providers of the admitted candidates, in first-seen order.
pub open spec fn admitted_providers(cs: Seq<ExplainCandidate>) -> Seq<Seq<char>>
    decreases cs.len(),
{
    if cs.len() == 0 {
        Seq::empty()
    } else {
        let p = admitted_providers(cs.drop_last());
        if admitted(cs.last()) {
            push_distinct(p, cs.last().upstream_id@)
        } else {
            p
        }
    }
}

/// The distinct identifiers of the admitted candidates, in first-seen order.
pub open spec fn admitted_ids(cs: Seq<ExplainCandidate>) -> Seq<Seq<char>>
    decreases cs.len(),
{
    if cs.len() == 0 {
        Seq::empty()
    } else {
        let p = admitted_ids(cs.drop_last());
        if admitted(cs.last()) {
            push_distinct(p, cs.last().id@)
        } else {
            p
        }
    }
}

/// The provider an explanation is scoped to: the requested one, or the only provider among
/// the admitted candidates.
pub open spec fn inferred_provider(cs: Seq<ExplainCandidate>, request: Option<Seq<char>>) -> Option<Seq<char>> {
    match request {
        Some(p) => Some(p),
        None => if admitted_providers(cs).len() == 1 {
            Some(admitted_providers(cs)[0])
        } else {
            None
        },
    }
}

/// Whether a scheduled explanation needs a provider scope the request did not give.
pub open spec fn ambiguous_scope(cs: Seq<ExplainCandidate>, request: Option<Seq<char>>, scheduler: bool) -> bool {
    scheduler && request is None && admitted_providers(cs).len() > 1
}

/// The provider scope of one explanation.
pub struct ExplainScope {
    pub admitted_candidate_ids: Vec<String>,
    pub provider_count: usize,
    pub inferred_provider: Option<String>,
    pub ambiguous: bool,
}

/// Whether `s` holds `x`.
fn holds(s: &Vec<String>, x: &str) -> (r: bool)
    ensures
        r == s@.map_values(|v: String| v@).contains(x@),
{
    let ghost m = s@.map_values(|v: String| v@);
    let mut i: usize = 0;
    while i < s.len()
        invariant
            0 <= i <= s@.len(),
            m == s@.map_values(|v: String| v@),
            forall|j: int| 0 <= j < i ==> (#[trigger] m[j]) != x@,
        decreases s.len() - i,
    {
        if str_eq(s[i].as_str(), x) {
            assert(m[i as int] == x@);
            return true;
        }
        i = i + 1;
    }
    false
}

/// Appends `x` unless `s` already holds it.
fn push_distinct_string(s: &mut Vec<String>, x: &String)
    ensures
        final(s)@.map_values(|v: String| v@) == push_distinct(old(s)@.map_values(|v: String| v@), x@),
{
    if !holds(s, x.as_str()) {
        let ghost before = s@;
        s.push(x.clone());
        assert(s@.map_values(|v: String| v@) =~= before.map_values(|v: String| v@).push(x@));
    }
}

/// Computes the admitted candidates and the provider scope of one explanation.
pub fn route_explain_scope(
    candidates: &Vec<ExplainCandidate>,
    request_provider: Option<&str>,
    scheduler_present: bool,
) -> (r: ExplainScope)
    ensures
        r.admitted_candidate_ids@.map_values(|v: String| v@) == admitted_ids(candidates@),
        r.provider_count == admitted_providers(candidates@).len(),
        (match r.inferred_provider {
            Some(p) => Some(p@),
            None => None,
        }) == inferred_provider(
            candidates@,
            match request_provider {
                Some(p) => Some(p@),
                None => None,
            },
        ),
        r.ambiguous == ambiguous_scope(
            candidates@,
            match request_provider {
                Some(p) => Some(p@),
                None => None,
            },
            scheduler_present,
        ),
{
    let mut ids: Vec<String> = Vec::new();
    let mut providers: Vec<String> = Vec::new();
    let mut i: usize = 0;
    while i < candidates.len()
        invariant
            0 <= i <= candidates@.len(),
            ids@.map_values(|v: String| v@) == admitted_ids(candidates@.take(i as int)),
            providers@.map_values(|v: String| v@) == admitted_providers(candidates@.take(i as int)),
        decreases candidates.len() - i,
    {
        let c = &candidates[i];
        proof {
            assert(candidates@.take(i + 1).drop_last() =~= candidates@.take(i as int));
            assert(candidates@.take(i + 1).last() == candidates@[i as int]);
        }
        if c.hard_eligible && c.publishable {
            push_distinct_string(&mut ids, &c.id);
            push_distinct_string(&mut providers, &c.upstream_id);
        }
        i = i + 1;
    }
    proof {
        assert(candidates@.take(i as int) =~= candidates@);
    }
    let inferred = match request_provider {
        Some(p) => Some(String::from_str(p)),
        None => if providers.len() == 1 {
            proof {
                assert(providers@.map_values(|v: String| v@)[0] == providers@[0]@);
            }
            Some(providers[0].clone())
        } else {
            None
        },
    };
    let ambiguous = scheduler_present && request_provider.is_none() && providers.len() > 1;
    ExplainScope {
        admitted_candidate_ids: ids,
        provider_count: providers.len(),
        inferred_provider: inferred,
        ambiguous,
    }
}

/// The first admitted candidate, which an unscoped explanation without a projection selects.
pub open spec fn first_admitted(cs: Seq<ExplainCandidate>) -> Option<Seq<char>>
    decreases cs.len(),
{
    if cs.len() == 0 {
        None
    } else if admitted(cs[0]) {
        Some(cs[0].id@)
    } else {
        first_admitted(cs.drop_first())
    }
}

/// The scheduler's record of candidate `id`: the first one that names it.
pub open spec fn base_of(bases: Seq<BaseCandidate>, id: Seq<char>) -> Option<BaseCandidate>
    decreases bases.len(),
{
    if bases.len() == 0 {
        None
    } else if bases[0].candidate_id@ == id {
        Some(bases[0])
    } else {
        base_of(bases.drop_first(), id)
    }
}

/// The price evidence of candidate `id`: the last decision that names it.
pub open spec fn price_of(decisions: Seq<(String, PriceEvidence)>, id: Seq<char>) -> Option<PriceEvidence>
    decreases decisions.len(),
{
    if decisions.len() == 0 {
        None
    } else if decisions.last().0@ == id {
        Some(decisions.last().1)
    } else {
        price_of(decisions.drop_last(), id)
    }
}

/// Why candidate `c` is excluded, or `None` when it is the selected one. The checks run in
/// order: selected by the projection or by the unscoped fallback, not hard eligible, protocol
/// pair not publishable, found ineligible by the scheduler, provider scope missing, another
/// provider requested, and otherwise ranked after the selected candidate.
pub open spec fn exclusion(
    c: ExplainCandidate,
    selected: Option<Seq<char>>,
    fallback: Option<Seq<char>>,
    base: Option<BaseCandidate>,
    ambiguous: bool,
    request: Option<Seq<char>>,
) -> Option<Seq<char>> {
    if selected == Some(c.id@) || fallback == Some(c.id@) {
        None
    } else if !c.hard_eligible {
        Some("not_hard_eligible"@)
    } else if !c.publishable {
        Some("protocol_transform_unavailable"@)
    } else if base matches Some(b) && !b.eligible {
        Some(first_reason_label(base->0.reasons@))
    } else if ambiguous {
        Some("provider_scope_required"@)
    } else if request matches Some(p) && p != c.upstream_id@ {
        Some("provider_mismatch"@)
    } else {
        Some("after_selected_candidate"@)
    }
}

/// The price evidence candidate `id` carries: its projected decision when a price policy and a
/// projection exist, else `not_evaluated` under a price policy and `disabled` without one.
pub open spec fn evidence(price_policy: bool, projected: Option<ProjectedSelection>, id: Seq<char>) -> Seq<char> {
    let default = if price_policy {
        "not_evaluated"@
    } else {
        "disabled"@
    };
    if price_policy && projected is Some {
        match price_of(projected->0.price_decisions@, id) {
            Some(p) => price_label(p),
            None => default,
        }
    } else {
        default
    }
}

/// The candidate the explanation selects without a projection: the first admitted one, when
/// the request named no provider and the scope is not ambiguous.
pub open spec fn fallback_selection(
    cs: Seq<ExplainCandidate>,
    request: Option<Seq<char>>,
    scheduler: bool,
    projected: bool,
) -> Option<Seq<char>> {
    if !projected && !ambiguous_scope(cs, request, scheduler) && request is None {
        first_admitted(cs)
    } else {
        None
    }
}

fn first_admitted_id(candidates: &Vec<ExplainCandidate>) -> (r: Option<&String>)
    ensures
        (match r {
            Some(s) => Some(s@),
            None => None,
        }) == first_admitted(candidates@),
{
    let mut i: usize = 0;
    assert(candidates@.skip(0) =~= candidates@);
    while i < candidates.len()
        invariant
            0 <= i <= candidates@.len(),
            first_admitted(candidates@) == first_admitted(candidates@.skip(i as int)),
        decreases candidates.len() - i,
    {
        let ghost rest = candidates@.skip(i as int);
        assert(rest.drop_first() =~= candidates@.skip(i + 1));
        assert(rest[0] == candidates@[i as int]);
        if candidates[i].hard_eligible && candidates[i].publishable {
            return Some(&candidates[i].id);
        }
        i = i + 1;
    }
    None
}

fn find_base<'a>(bases: &'a Vec<BaseCandidate>, id: &str) -> (r: Option<&'a BaseCandidate>)
    ensures
        (match r {
            Some(b) => Some(*b),
            None => None,
        }) == base_of(bases@, id@),
{
    let mut i: usize = 0;
    assert(bases@.skip(0) =~= bases@);
    while i < bases.len()
        invariant
            0 <= i <= bases@.len(),
            base_of(bases@, id@) == base_of(bases@.skip(i as int), id@),
        decreases bases.len() - i,
    {
        let ghost rest = bases@.skip(i as int);
        assert(rest.drop_first() =~= bases@.skip(i + 1));
        assert(rest[0] == bases@[i as int]);
        if str_eq(bases[i].candidate_id.as_str(), id) {
            return Some(&bases[i]);
        }
        i = i + 1;
    }
    None
}

fn find_price(decisions: &Vec<(String, PriceEvidence)>, id: &str) -> (r: Option<PriceEvidence>)
    ensures
        r == price_of(decisions@, id@),
{
    let mut i = decisions.len();
    assert(decisions@.take(i as int) =~= decisions@);
    while i > 0
        invariant
            0 <= i <= decisions@.len(),
            price_of(decisions@, id@) == price_of(decisions@.take(i as int), id@),
        decreases i,
    {
        let ghost t = decisions@.take(i as int);
        assert(t.drop_last() =~= decisions@.take(i - 1));
        assert(t.last() == decisions@[i - 1]);
        if str_eq(decisions[i - 1].0.as_str(), id) {
            return Some(decisions[i - 1].1);
        }
        i = i - 1;
    }
    None
}

/// Explains every candidate of the route, in route order.
pub fn explain_route_candidates(
    candidates: &Vec<ExplainCandidate>,
    request_provider: Option<&str>,
    scheduler_present: bool,
    price_policy_present: bool,
    projected: Option<&ProjectedSelection>,
    bases: Option<&Vec<BaseCandidate>>,
) -> (r: Vec<ExplainedCandidate>)
    ensures
        r@.len() == candidates@.len(),
        forall|i: int| #![trigger r@[i]] 0 <= i < candidates@.len() ==> {
            let c = candidates@[i];
            let request = match request_provider {
                Some(p) => Some(p@),
                None => None,
            };
            let selected = match projected {
                Some(p) => match p.selected_candidate_id {
                    Some(s) => Some(s@),
                    None => None,
                },
                None => None,
            };
            let base = match bases {
                Some(b) => base_of(b@, c.id@),
                None => None,
            };
            &&& r@[i].candidate_id@ == c.id@
            &&& (match r@[i].excluded_reason {
                Some(x) => Some(x@),
                None => None,
            }) == exclusion(
                c,
                selected,
                fallback_selection(candidates@, request, scheduler_present, projected is Some),
                base,
                ambiguous_scope(candidates@, request, scheduler_present),
                request,
            )
            &&& r@[i].price_evidence@ == evidence(
                price_policy_present,
                match projected {
                    Some(p) => Some(*p),
                    None => None,
                },
                c.id@,
            )
        },
{
    let scope = route_explain_scope(candidates, request_provider, scheduler_present);
    let fallback = if projected.is_none() && !scope.ambiguous && request_provider.is_none() {
        first_admitted_id(candidates)
    } else {
        None
    };
    let selected = match projected {
        Some(p) => match &p.selected_candidate_id {
            Some(s) => Some(s),
            None => None,
        },
        None => None,
    };
    let default_evidence = if price_policy_present {
        "not_evaluated"
    } else {
        "disabled"
    };
    let mut out: Vec<ExplainedCandidate> = Vec::new();
    let mut i: usize = 0;
    while i < candidates.len()
        invariant
            0 <= i <= candidates@.len(),
            out@.len() == i,
            forall|j: int| #![trigger out@[j]] 0 <= j < i ==> {
                let c = candidates@[j];
                let request = match request_provider {
                    Some(p) => Some(p@),
                    None => None,
                };
                let sel = match projected {
                    Some(p) => match p.selected_candidate_id {
                        Some(s) => Some(s@),
                        None => None,
                    },
                    None => None,
                };
                let base = match bases {
                    Some(b) => base_of(b@, c.id@),
                    None => None,
                };
                &&& out@[j].candidate_id@ == c.id@
                &&& (match out@[j].excluded_reason {
                    Some(x) => Some(x@),
                    None => None,
                }) == exclusion(
                    c,
                    sel,
                    fallback_selection(candidates@, request, scheduler_present, projected is Some),
                    base,
                    ambiguous_scope(candidates@, request, scheduler_present),
                    request,
                )
                &&& out@[j].price_evidence@ == evidence(
                    price_policy_present,
                    match projected {
                        Some(p) => Some(*p),
                        None => None,
                    },
                    c.id@,
                )
            },
            (match selected {
                Some(s) => Some(s@),
                None => None,
            }) == (match projected {
                Some(p) => match p.selected_candidate_id {
                    Some(s) => Some(s@),
                    None => None,
                },
                None => None,
            }),
            (match fallback {
                Some(s) => Some(s@),
                None => None,
            }) == fallback_selection(
                candidates@,
                match request_provider {
                    Some(p) => Some(p@),
                    None => None,
                },
                scheduler_present,
                projected is Some,
            ),
            scope.ambiguous == ambiguous_scope(
                candidates@,
                match request_provider {
                    Some(p) => Some(p@),
                    None => None,
                },
                scheduler_present,
            ),
            default_evidence@ == (if price_policy_present {
                "not_evaluated"@
            } else {
                "disabled"@
            }),
        decreases candidates.len() - i,
    {
        let c = &candidates[i];
        let is_selected = match selected {
            Some(s) => str_eq(s.as_str(), c.id.as_str()),
            None => false,
        } || match fallback {
            Some(s) => str_eq(s.as_str(), c.id.as_str()),
            None => false,
        };
        let base = match bases {
            Some(b) => find_base(b, c.id.as_str()),
            None => None,
        };
        let reason: Option<&'static str> = if is_selected {
            None
        } else if !c.hard_eligible {
            Some("not_hard_eligible")
        } else if !c.publishable {
            Some("protocol_transform_unavailable")
        } else if base.is_some() && !base.unwrap().eligible {
            Some(management_route_explain_reason(&base.unwrap().reasons))
        } else if scope.ambiguous {
            Some("provider_scope_required")
        } else if match request_provider {
            Some(p) => !str_eq(p, c.upstream_id.as_str()),
            None => false,
        } {
            Some("provider_mismatch")
        } else {
            Some("after_selected_candidate")
        };
        let price = if price_policy_present && projected.is_some() {
            match find_price(&projected.unwrap().price_decisions, c.id.as_str()) {
                Some(p) => management_price_evidence(p),
                None => default_evidence,
            }
        } else {
            default_evidence
        };
        out.push(ExplainedCandidate { candidate_id: c.id.clone(), excluded_reason: reason, price_evidence: price });
        i = i + 1;
    }
    out
}

} // verus!
