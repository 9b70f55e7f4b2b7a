//! The two stores: one without bound, and one of fixed capacity that evicts
//! its oldest entry.
use vstd::prelude::*;
use std::collections::HashMap;
use indexmap::IndexMap;
use crate::entity::{Client, ClientId, ClientView};
use crate::eviction::{
    after_save, as_map, has_key, index_of, keys_unique, law_evicts_only_oldest,
    lemma_lookup_at, lookup,
};
use crate::index_map::{
    index_map_entries, map_get, map_insert, map_len, map_shift_remove_index, map_with_capacity,
};
use crate::repository::{not_found_error, not_found_message, ClientRepository};

verus! {

broadcast use vstd::std_specs::hash::group_hash_axioms;

/// The bits that mark a UUID as version 4, variant RFC 9562.
pub open spec fn is_v4_bits(id: ClientId) -> bool {
    id & 0xF000_C000_0000_0000_0000u128 == 0x4000_8000_0000_0000_0000u128
}

/// Relies on `uuid::Uuid::new_v4` and `Uuid::as_u128`: a random version 4
/// UUID, read as a big-endian integer, whose version and variant bits are set.
#[verifier::external_body]
fn random_v4_id() -> (r: ClientId)
    ensures
        is_v4_bits(r),
{
    uuid::Uuid::new_v4().as_u128()
}

/// In a map whose pairs hold distinct identities, each the identity of its
/// client, the clients hold distinct identities.
proof fn lemma_clients_unique(m: Seq<(ClientId, ClientView)>)
    requires
        forall|i: int| 0 <= i < m.len() ==> #[trigger] m[i].0 == m[i].1.id,
        forall|i: int, j: int| 0 <= i < j < m.len() ==> #[trigger] m[i].0 != #[trigger] m[j].0,
    ensures
        keys_unique(m.map_values(|e: (ClientId, ClientView)| e.1)),
{
    let e = m.map_values(|e: (ClientId, ClientView)| e.1);
    assert forall|i: int, j: int| 0 <= i < j < e.len() implies #[trigger] e[i].id
        != #[trigger] e[j].id by {
        assert(m[i].0 != m[j].0);
        assert(m[i].0 == m[i].1.id);
        assert(m[j].0 == m[j].1.id);
    }
}

/// A store without bound.
pub struct InMemoryClientRepository {
    clients: HashMap<ClientId, Client>,
}

impl InMemoryClientRepository {
    /// The clients held, by identity.
    pub closed spec fn contents(&self) -> Map<ClientId, ClientView> {
        self.clients@.map_values(|c: Client| c@)
    }

    pub fn new() -> (r: Self)
        ensures
            r.contents() == Map::<ClientId, ClientView>::empty(),
    {
        let r = Self { clients: HashMap::new() };
        assert(r.contents() =~= Map::<ClientId, ClientView>::empty());
        r
    }
}

impl Default for InMemoryClientRepository {
    /// An empty store.
    fn default() -> (r: Self)
        ensures
            r.contents() == Map::<ClientId, ClientView>::empty(),
    {
        InMemoryClientRepository::new()
    }
}

impl ClientRepository for InMemoryClientRepository {
    open spec fn stored(&self) -> Map<ClientId, ClientView> {
        self.contents()
    }

    /// Nothing is ever dropped: the client is inserted or overwritten.
    open spec fn saves_to(&self, c: ClientView, next: &Self) -> bool {
        next.contents() == self.contents().insert(c.id, c)
    }

    fn by_id(&self, id: ClientId) -> (r: Result<Client, String>) {
        match self.clients.get(&id) {
            Some(client) => Ok(client.clone()),
            None => Err(not_found_error()),
        }
    }

    fn save(&mut self, client: Client) {
        let id = client.id();
        self.clients.insert(id, client);
        assert(self.contents() =~= old(self).contents().insert(id, client@));
    }

    fn next_identity(&self) -> (r: ClientId)
        ensures
            is_v4_bits(r),
    {
        random_v4_id()
    }
}

/// A store of fixed capacity. Before each save, where it holds more entries
/// than its capacity, it drops the one inserted first; so between two saves
/// it may hold one entry more than its capacity.
pub struct LimitInMemoryClientRepository {
    clients: IndexMap<ClientId, Client>,
    limit: usize,
}

impl LimitInMemoryClientRepository {
    #[verifier::type_invariant]
    spec fn well_formed(self) -> bool {
        let m = index_map_entries(self.clients);
        &&& forall|i: int| 0 <= i < m.len() ==> #[trigger] m[i].0 == m[i].1.id
        &&& forall|i: int, j: int| 0 <= i < j < m.len() ==> #[trigger] m[i].0 != #[trigger] m[j].0
    }

    /// The clients held, oldest first.
    pub closed spec fn entries(&self) -> Seq<ClientView> {
        index_map_entries(self.clients).map_values(|e: (ClientId, ClientView)| e.1)
    }

    /// The capacity fixed at construction.
    pub closed spec fn capacity(&self) -> nat {
        self.limit as nat
    }

    /// An empty store of capacity `limit`.
    pub fn new(limit: usize) -> (r: Self)
        ensures
            r.entries() == Seq::<ClientView>::empty(),
            r.capacity() == limit,
    {
        let clients = map_with_capacity(limit);
        let r = Self { clients, limit };
        assert(r.entries() =~= Seq::<ClientView>::empty());
        r
    }

    /// A copy of the client stored under `id`, or the not-found failure.
    pub fn by_id(&self, id: ClientId) -> (r: Result<Client, String>)
        ensures
            r is Ok <==> lookup(self.entries(), id) is Some,
            r matches Ok(c) ==> lookup(self.entries(), id) == Some(c@),
            r matches Err(e) ==> e@ == not_found_message(),
            keys_unique(self.entries()),
    {
        proof {
            use_type_invariant(self);
        }
        let ghost e = self.entries();
        let ghost m = index_map_entries(self.clients);
        proof {
            lemma_clients_unique(m);
        }
        match map_get(&self.clients, id) {
            Some(client) => {
                proof {
                    let i = choose|i: int| 0 <= i < m.len() && #[trigger] m[i] == (id, client@);
                    assert(m[i].0 == m[i].1.id);
                    assert(e[i] == client@);
                    lemma_lookup_at(e, i);
                }
                Ok(client.clone())
            },
            None => {
                proof {
                    if has_key(e, id) {
                        let i = index_of(e, id);
                        assert(m[i].0 != id);
                    }
                }
                Err(not_found_error())
            },
        }
    }

    /// Stores `client` under its identity: first, where the store holds more
    /// entries than its capacity, the oldest one is dropped; then the client
    /// replaces the entry of its identity in place, or is appended last.
    pub fn save(&mut self, client: Client)
        ensures
            final(self).entries() == after_save(old(self).entries(), old(self).capacity(), client@),
            final(self).capacity() == old(self).capacity(),
            keys_unique(final(self).entries()),
    {
        proof {
            use_type_invariant(&*self);
            lemma_clients_unique(index_map_entries(self.clients));
        }
        let ghost s0 = self.entries();
        let len = map_len(&self.clients);
        if len > self.limit {
            map_shift_remove_index(&mut self.clients, 0);
            assert(self.entries() =~= s0.drop_first());
        }
        let ghost s1 = self.entries();
        let ghost m1 = index_map_entries(self.clients);
        let id = client.id();
        map_insert(&mut self.clients, id, client);
        proof {
            let m2 = index_map_entries(self.clients);
            if has_key(s1, id) {
                let p = index_of(s1, id);
                assert(m1[p].0 == id);
                let q = choose|q: int|
                    0 <= q < m1.len() && #[trigger] m1[q].0 == id && m2 == m1.update(q, (id, client@));
                assert(s1[q].id == id);
                assert(q == p) by {
                    if q < p {
                        assert(s1[q].id != s1[p].id);
                    } else if p < q {
                        assert(s1[p].id != s1[q].id);
                    }
                }
                assert(self.entries() =~= s1.update(p, client@));
            } else {
                assert forall|i: int| 0 <= i < m1.len() implies #[trigger] m1[i].0 != id by {
                    assert(s1[i].id == m1[i].0);
                }
                assert(self.entries() =~= s1.push(client@));
            }
            law_evicts_only_oldest(s0, self.limit as nat, client@);
        }
    }

    /// A fresh random identity.
    pub fn next_identity(&self) -> (r: ClientId)
        ensures
            is_v4_bits(r),
    {
        random_v4_id()
    }
}

impl ClientRepository for LimitInMemoryClientRepository {
    open spec fn stored(&self) -> Map<ClientId, ClientView> {
        as_map(self.entries())
    }

    /// The entries change as `after_save` says, and the capacity stays.
    open spec fn saves_to(&self, c: ClientView, next: &Self) -> bool {
        &&& next.entries() == after_save(self.entries(), self.capacity(), c)
        &&& next.capacity() == self.capacity()
        &&& keys_unique(next.entries())
    }

    fn by_id(&self, id: ClientId) -> (r: Result<Client, String>) {
        LimitInMemoryClientRepository::by_id(self, id)
    }

    fn save(&mut self, client: Client) {
        proof {
            use_type_invariant(&*self);
            lemma_clients_unique(index_map_entries(self.clients));
            law_evicts_only_oldest(self.entries(), self.capacity(), client@);
        }
        LimitInMemoryClientRepository::save(self, client);
        let ghost s = self.entries();
        assert forall|k: ClientId|
            k != client@.id && #[trigger] as_map(s).contains_key(k) implies {
                &&& as_map(old(self).entries()).contains_key(k)
                &&& as_map(s)[k] == as_map(old(self).entries())[k]
            } by {
            assert(lookup(s, k) is Some);
        }
    }

    fn next_identity(&self) -> (r: ClientId)
        ensures
            is_v4_bits(r),
    {
        random_v4_id()
    }
}

impl Default for LimitInMemoryClientRepository {
    /// An empty store of capacity zero.
    fn default() -> (r: Self)
        ensures
            r.entries() == Seq::<ClientView>::empty(),
            r.capacity() == 0,
    {
        LimitInMemoryClientRepository::new(0)
    }
}

} // verus!
