//! The insertion-ordered map of the `indexmap` crate, as the bounded store
//! uses it: identities to clients.
use vstd::prelude::*;
use indexmap::IndexMap;
use crate::entity::{Client, ClientId, ClientView};

verus! {

#[verifier::external_type_specification]
#[verifier::external_body]
#[verifier::reject_recursive_types(K)]
#[verifier::reject_recursive_types(V)]
#[verifier::reject_recursive_types(S)]
pub struct ExIndexMap<K, V, S>(IndexMap<K, V, S>);

/// The pairs that a map holds, in its order.
pub uninterp spec fn index_map_entries(m: IndexMap<ClientId, Client>) -> Seq<(ClientId, ClientView)>;

/// Relies on `IndexMap::with_capacity`: a new map holds no pairs.
#[verifier::external_body]
pub(crate) fn map_with_capacity(n: usize) -> (r: IndexMap<ClientId, Client>)
    ensures
        index_map_entries(r) == Seq::<(ClientId, ClientView)>::empty(),
{
    IndexMap::with_capacity(n)
}

/// Relies on `IndexMap::len`: the number of pairs held.
#[verifier::external_body]
pub(crate) fn map_len(m: &IndexMap<ClientId, Client>) -> (r: usize)
    ensures
        r == index_map_entries(*m).len(),
{
    m.len()
}

/// Relies on `IndexMap::get`: the value paired with `k`, if any pair holds `k`.
#[verifier::external_body]
pub(crate) fn map_get<'a>(m: &'a IndexMap<ClientId, Client>, k: ClientId) -> (r: Option<&'a Client>)
    ensures
        r is None <==> forall|i: int|
            0 <= i < index_map_entries(*m).len() ==> #[trigger] index_map_entries(*m)[i].0 != k,
        r matches Some(v) ==> exists|i: int|
            0 <= i < index_map_entries(*m).len() && #[trigger] index_map_entries(*m)[i] == (
            k,
            v@,
        ),
{
    m.get(&k)
}

/// Relies on `IndexMap::insert`: where a pair holds `k` its value is replaced
/// in place; otherwise the pair is appended last. Hashing and comparing a
/// `u128` do not panic; a failed allocation aborts rather than unwinds.
#[verifier::external_body]
pub(crate) fn map_insert(m: &mut IndexMap<ClientId, Client>, k: ClientId, v: Client)
    ensures
        (exists|i: int|
            0 <= i < index_map_entries(*old(m)).len() && #[trigger] index_map_entries(
                *old(m),
            )[i].0 == k) ==> exists|i: int|
            0 <= i < index_map_entries(*old(m)).len() && #[trigger] index_map_entries(
                *old(m),
            )[i].0 == k && index_map_entries(*final(m)) == index_map_entries(*old(m)).update(
                i,
                (k, v@),
            ),
        (forall|i: int|
            0 <= i < index_map_entries(*old(m)).len() ==> #[trigger] index_map_entries(
                *old(m),
            )[i].0 != k) ==> index_map_entries(*final(m)) == index_map_entries(*old(m)).push(
            (k, v@),
        ),
    no_unwind
{
    m.insert(k, v);
}

/// Relies on `IndexMap::shift_remove_index`: the pair at `index` is removed
/// and the others keep their order; an index past the end changes nothing.
/// It neither allocates nor panics.
#[verifier::external_body]
pub(crate) fn map_shift_remove_index(m: &mut IndexMap<ClientId, Client>, index: usize)
    ensures
        index < index_map_entries(*old(m)).len() ==> index_map_entries(*final(m))
            == index_map_entries(*old(m)).remove(index as int),
        index >= index_map_entries(*old(m)).len() ==> index_map_entries(*final(m))
            == index_map_entries(*old(m)),
    no_unwind
{
    m.shift_remove_index(index);
}

} // verus!
