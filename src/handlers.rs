//! Handlers: the operations that callers run against a store.
use vstd::prelude::*;
use std::rc::Rc;
use crate::entity::{Client, ClientId, ClientView};
use crate::eviction::lookup;
use crate::repository::{not_found_message, ClientRepository};
use crate::repository_impl::LimitInMemoryClientRepository;

verus! {

/// Looks clients up in a shared store.
pub struct GetClientHandler<T: ClientRepository> {
    client_repo: Rc<T>,
}

impl<T: ClientRepository> GetClientHandler<T> {
    /// The store that lookups go to.
    pub closed spec fn repo(&self) -> T {
        *self.client_repo
    }

    pub fn new(client_repo: Rc<T>) -> (r: Self)
        ensures
            r.repo() == *client_repo,
    {
        Self { client_repo }
    }

    /// The client stored under `id`, or the store's not-found failure.
    pub fn execute(&self, id: ClientId) -> (r: Result<Client, String>)
        ensures
            r is Ok <==> self.repo().stored().contains_key(id),
            r matches Ok(c) ==> c@ == self.repo().stored()[id],
            r matches Err(e) ==> e@ == not_found_message(),
    {
        let client = self.client_repo.by_id(id);
        client
    }
}

/// Creates clients in the store that it holds.
pub struct CreateClientHandler<T: ClientRepository> {
    client_repo: T,
}

impl<T: ClientRepository> CreateClientHandler<T> {
    /// The store that new clients go to.
    pub closed spec fn repo(&self) -> T {
        self.client_repo
    }

    pub fn new(client_repo: T) -> (r: Self)
        ensures
            r.repo() == client_repo,
    {
        Self { client_repo }
    }

    /// Hands the store back.
    pub fn into_repo(self) -> (r: T)
        ensures
            r == self.repo(),
    {
        self.client_repo
    }

    /// Stores a new client under a fresh identity, and returns that identity.
    /// The store changes as a save of that client changes it: the other
    /// clients stay as they were, unless the store dropped them to make room.
    pub fn execute(&mut self, name: String, location: String) -> (r: ClientId)
        ensures
            old(self).repo().saves_to(
                ClientView { id: r, name: name@, location: location@ },
                &final(self).repo(),
            ),
            final(self).repo().stored().contains_key(r),
            final(self).repo().stored()[r] == (ClientView {
                id: r,
                name: name@,
                location: location@,
            }),
            forall|k: ClientId|
                k != r && #[trigger] final(self).repo().stored().contains_key(k) ==> {
                    &&& old(self).repo().stored().contains_key(k)
                    &&& final(self).repo().stored()[k] == old(self).repo().stored()[k]
                },
    {
        let id = self.client_repo.next_identity();
        let client = Client::new(id, name, location);
        self.client_repo.save(client);
        id
    }
}

/// Looks clients up in a shared bounded store.
pub type LimitGetClientHanderV1 = GetClientHandler<LimitInMemoryClientRepository>;

/// Creates clients in a bounded store.
pub type LimitCreateClientHandler = CreateClientHandler<LimitInMemoryClientRepository>;

/// The capacity of the store that `LimitGetClientHanderV2::new` makes.
pub const DEFAULT_LIMIT: usize = 10;

/// Looks clients up in a shared bounded store, which it makes itself unless
/// one is handed to it.
pub struct LimitGetClientHanderV2 {
    client_repo: Rc<LimitInMemoryClientRepository>,
}

impl LimitGetClientHanderV2 {
    /// The store that lookups go to.
    pub closed spec fn repo(&self) -> LimitInMemoryClientRepository {
        *self.client_repo
    }

    /// A handler over a new empty store of capacity `DEFAULT_LIMIT`.
    pub fn new() -> (r: Self)
        ensures
            r.repo().entries() == Seq::<ClientView>::empty(),
            r.repo().capacity() == DEFAULT_LIMIT,
    {
        let client_repo = Rc::new(LimitInMemoryClientRepository::new(DEFAULT_LIMIT));
        Self { client_repo }
    }

    /// Makes lookups go to `new_client_repo`.
    pub fn set_client_repo(&mut self, new_client_repo: Rc<LimitInMemoryClientRepository>)
        ensures
            final(self).repo() == *new_client_repo,
    {
        self.client_repo = new_client_repo;
    }

    /// The client stored under `id`, or the store's not-found failure.
    pub fn execute(&self, id: ClientId) -> (r: Result<Client, String>)
        ensures
            r is Ok <==> lookup(self.repo().entries(), id) is Some,
            r matches Ok(c) ==> lookup(self.repo().entries(), id) == Some(c@),
            r matches Err(e) ==> e@ == not_found_message(),
    {
        let client = self.client_repo.by_id(id);
        client
    }
}

impl Default for LimitGetClientHanderV2 {
    /// A handler over a new empty store of capacity zero.
    fn default() -> (r: Self)
        ensures
            r.repo().entries() == Seq::<ClientView>::empty(),
            r.repo().capacity() == 0,
    {
        let client_repo = Rc::new(LimitInMemoryClientRepository::new(0));
        Self { client_repo }
    }
}

} // verus!
