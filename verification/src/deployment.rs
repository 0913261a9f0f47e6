//! The endpoint capability view a deployment's route compiler is built from: every endpoint
//! identifier stored in any configuration Version, with the capabilities its adapter proves.
//!
//! An endpoint identifier keeps one adapter across Versions; one that changes adapter between
//! Versions, or names an adapter the build does not know, fails the whole view.
use vstd::prelude::*;
use crate::accounts::{insert_model, lemma_sorted_insert_keeps_a_strict_order, sorted_insert, strictly_ordered};
use crate::composition::{CapabilitySet, RuntimeCompositionError, adapter_capability_table, p12_adapter_capabilities};
use crate::config::{find_first_key, first_index, keys_of, lemma_first_index_bounds};
use crate::endpoint::EndpointConfig;
use crate::json::str_eq;

verus! {

/// The capabilities of one endpoint identifier.
#[derive(Clone, Debug)]
pub struct EndpointCapabilityEntry {
    pub endpoint_id: String,
    pub capabilities: CapabilitySet,
}

/// The endpoint identifiers of `rows`, each once, in identifier order.
pub open spec fn endpoint_ids_of(rows: Seq<EndpointConfig>) -> Seq<Seq<char>>
    decreases rows.len(),
{
    if rows.len() == 0 {
        Seq::empty()
    } else {
        sorted_insert(endpoint_ids_of(rows.drop_last()), rows.last().id@)
    }
}

/// Whether every row names a known adapter and rows that share an identifier share an adapter.
pub open spec fn capabilities_agree(rows: Seq<EndpointConfig>) -> bool {
    &&& forall|i: int| 0 <= i < rows.len() ==> (#[trigger] adapter_capability_table(rows[i].adapter_id@)) is Some
    &&& forall|i: int, j: int|
        0 <= i < j < rows.len() && (#[trigger] rows[i]).id@ == (#[trigger] rows[j]).id@ ==> rows[i].adapter_id@
            == rows[j].adapter_id@
}

/// Whether `x` is the entry of identifier `id`: the capabilities of the adapter of its first row.
pub open spec fn capability_entry_of(rows: Seq<EndpointConfig>, id: Seq<char>, x: EndpointCapabilityEntry) -> bool {
    let i = first_index(keys_of(rows), id);
    &&& x.endpoint_id@ == id
    &&& i >= 0
    &&& adapter_capability_table(rows[i].adapter_id@) == Some(x.capabilities)
}

/// The view's identifiers are exactly the stored endpoint identifiers, each once, in order.
pub proof fn lemma_endpoint_ids_are_the_stored_ids(rows: Seq<EndpointConfig>)
    ensures
        strictly_ordered(endpoint_ids_of(rows)),
        forall|id: Seq<char>| #[trigger] endpoint_ids_of(rows).contains(id) <==> keys_of(rows).contains(id),
    decreases rows.len(),
{
    if rows.len() > 0 {
        let init = rows.drop_last();
        lemma_endpoint_ids_are_the_stored_ids(init);
        lemma_sorted_insert_keeps_a_strict_order(endpoint_ids_of(init), rows.last().id@);
        assert(keys_of(rows) =~= keys_of(init).push(rows.last().id@));
        assert(endpoint_ids_of(rows) == sorted_insert(endpoint_ids_of(init), rows.last().id@));
        assert forall|id: Seq<char>| #[trigger] endpoint_ids_of(rows).contains(id) <==> keys_of(rows).contains(id) by {
            assert(sorted_insert(endpoint_ids_of(init), rows.last().id@).contains(id) <==> (endpoint_ids_of(
                init,
            ).contains(id) || id == rows.last().id@));
            assert(endpoint_ids_of(init).contains(id) <==> keys_of(init).contains(id));
            if id == rows.last().id@ {
                assert(keys_of(rows)[rows.len() - 1] == id);
            }
            if keys_of(rows).contains(id) {
                let j = choose|j: int| 0 <= j < keys_of(rows).len() && keys_of(rows)[j] == id;
                if j < init.len() {
                    assert(keys_of(init)[j] == id);
                }
            }
            if keys_of(init).contains(id) {
                let j = choose|j: int| 0 <= j < keys_of(init).len() && keys_of(init)[j] == id;
                assert(keys_of(rows)[j] == id);
            }
        }
    }
}

/// Returns the capability view of the endpoint rows of every stored Version, in identifier
/// order; an unknown adapter, or an identifier whose adapter changes, is `Unavailable`.
pub fn deployment_endpoint_capabilities(rows: &Vec<EndpointConfig>) -> (r: Result<
    Vec<EndpointCapabilityEntry>,
    RuntimeCompositionError,
>)
    ensures
        r is Ok <==> capabilities_agree(rows@),
        match r {
            Ok(v) => v@.len() == endpoint_ids_of(rows@).len() && forall|k: int|
                0 <= k < v@.len() ==> capability_entry_of(rows@, endpoint_ids_of(rows@)[k], #[trigger] v@[k]),
            Err(e) => e == RuntimeCompositionError::Unavailable,
        },
{
    let ghost s = rows@;
    let mut i: usize = 0;
    while i < rows.len()
        invariant
            0 <= i <= s.len(),
            s == rows@,
            forall|a: int| 0 <= a < i ==> (#[trigger] adapter_capability_table(s[a].adapter_id@)) is Some,
            forall|a: int, b: int|
                0 <= a < b < i && (#[trigger] s[a]).id@ == (#[trigger] s[b]).id@ ==> s[a].adapter_id@ == s[b].adapter_id@,
        decreases s.len() - i,
    {
        if p12_adapter_capabilities(rows[i].adapter_id.as_str()).is_err() {
            return Err(RuntimeCompositionError::Unavailable);
        }
        let mut j: usize = 0;
        while j < i
            invariant
                0 <= j <= i < s.len(),
                s == rows@,
                forall|a: int| 0 <= a < j && s[a].id@ == s[i as int].id@ ==> s[a].adapter_id@ == s[i as int].adapter_id@,
            decreases i - j,
        {
            if str_eq(rows[j].id.as_str(), rows[i].id.as_str()) && !str_eq(
                rows[j].adapter_id.as_str(),
                rows[i].adapter_id.as_str(),
            ) {
                assert(!capabilities_agree(s)) by {
                    assert(s[j as int].id@ == s[i as int].id@);
                }
                return Err(RuntimeCompositionError::Unavailable);
            }
            j = j + 1;
        }
        i = i + 1;
    }
    let mut ids: Vec<String> = Vec::new();
    let mut k: usize = 0;
    proof {
        assert(ids@.map_values(|x: String| x@) =~= Seq::<Seq<char>>::empty());
        assert(s.take(0) =~= Seq::<EndpointConfig>::empty());
    }
    while k < rows.len()
        invariant
            0 <= k <= s.len(),
            s == rows@,
            ids@.map_values(|x: String| x@) == endpoint_ids_of(s.take(k as int)),
        decreases s.len() - k,
    {
        proof {
            assert(s.take(k + 1).drop_last() =~= s.take(k as int));
        }
        insert_model(&mut ids, &rows[k].id);
        k = k + 1;
    }
    proof {
        assert(s.take(k as int) =~= s);
        lemma_endpoint_ids_are_the_stored_ids(s);
    }
    let ghost idv = endpoint_ids_of(s);
    let mut entries: Vec<EndpointCapabilityEntry> = Vec::new();
    let mut m: usize = 0;
    while m < ids.len()
        invariant
            0 <= m <= ids@.len(),
            s == rows@,
            capabilities_agree(s),
            ids@.map_values(|x: String| x@) == idv,
            idv == endpoint_ids_of(s),
            forall|id: Seq<char>| #[trigger] idv.contains(id) <==> keys_of(s).contains(id),
            entries@.len() == m,
            forall|q: int| 0 <= q < m ==> capability_entry_of(s, idv[q], #[trigger] entries@[q]),
        decreases ids@.len() - m,
    {
        let ghost id = idv[m as int];
        assert(ids@[m as int]@ == id);
        assert(idv.contains(id));
        proof {
            lemma_first_index_bounds(keys_of(s), id);
        }
        let row = match find_first_key(rows, ids[m].as_str()) {
            Some(x) => x,
            None => return Err(RuntimeCompositionError::Unavailable),
        };
        let capabilities = match p12_adapter_capabilities(rows[row].adapter_id.as_str()) {
            Ok(c) => c,
            Err(e) => return Err(e),
        };
        entries.push(EndpointCapabilityEntry { endpoint_id: ids[m].clone(), capabilities });
        m = m + 1;
    }
    Ok(entries)
}

} // verus!
