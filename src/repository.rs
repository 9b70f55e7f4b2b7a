//! The capability that handlers need from a store of clients.
use vstd::prelude::*;
use crate::entity::{Client, ClientId, ClientView};

verus! {

/// The message carried by a failed lookup.
pub open spec fn not_found_message() -> Seq<char> {
    "No client found for given ID"@
}

/// Builds the failure returned by a lookup of an absent identity.
pub fn not_found_error() -> (r: String)
    ensures
        r@ == not_found_message(),
{
    let r = "No client found for given ID".to_owned();
    proof {
        reveal_strlit("No client found for given ID");
    }
    r
}

/// A store of clients keyed by identity.
pub trait ClientRepository {
    /// The client stored under each identity.
    spec fn stored(&self) -> Map<ClientId, ClientView>;

    /// `next` is what this store becomes when `c` is saved into it.
    spec fn saves_to(&self, c: ClientView, next: &Self) -> bool;

    /// A copy of the client stored under `id`, or the not-found failure.
    fn by_id(&self, id: ClientId) -> (r: Result<Client, String>)
        ensures
            r is Ok <==> self.stored().contains_key(id),
            r matches Ok(c) ==> c@ == self.stored()[id],
            r matches Err(e) ==> e@ == not_found_message(),
    ;

    /// Stores `client` under its identity, replacing what was stored there.
    /// A store may drop other entries to make room, but changes none.
    fn save(&mut self, client: Client)
        ensures
            old(self).saves_to(client@, &*final(self)),
            final(self).stored().contains_key(client@.id),
            final(self).stored()[client@.id] == client@,
            forall|k: ClientId|
                k != client@.id && #[trigger] final(self).stored().contains_key(k) ==> {
                    &&& old(self).stored().contains_key(k)
                    &&& final(self).stored()[k] == old(self).stored()[k]
                },
    ;

    /// A fresh random identity.
    fn next_identity(&self) -> ClientId;
}

} // verus!
