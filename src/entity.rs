//! The stored record: a client with its identity and two text fields.
use vstd::prelude::*;

verus! {

/// The identity of a client: the 128 bits of a UUID.
pub type ClientId = u128;

/// What a client is, as plain values.
pub struct ClientView {
    pub id: ClientId,
    pub name: Seq<char>,
    pub location: Seq<char>,
}

/// A client. Its identity is fixed at construction; its name and location
/// change only through `edit`.
#[derive(Debug)]
pub struct Client {
    id: ClientId,
    name: String,
    location: String,
}

impl View for Client {
    type V = ClientView;

    closed spec fn view(&self) -> ClientView {
        ClientView { id: self.id, name: self.name@, location: self.location@ }
    }
}

impl Client {
    pub fn new(id: ClientId, name: String, location: String) -> (r: Self)
        ensures
            r@ == (ClientView { id, name: name@, location: location@ }),
    {
        Self { id, name, location }
    }

    pub fn id(&self) -> (r: ClientId)
        ensures
            r == self@.id,
    {
        self.id
    }

    pub fn name(&self) -> (r: &str)
        ensures
            r@ == self@.name,
    {
        self.name.as_str()
    }

    pub fn location(&self) -> (r: &str)
        ensures
            r@ == self@.location,
    {
        self.location.as_str()
    }

    /// Replaces name and location; the identity stays.
    pub fn edit(&mut self, name: String, location: String)
        ensures
            final(self)@ == (ClientView { id: old(self)@.id, name: name@, location: location@ }),
    {
        self.name = name;
        self.location = location;
    }
}

impl Clone for Client {
    fn clone(&self) -> (r: Self)
        ensures
            r@ == self@,
    {
        Client { id: self.id, name: self.name.clone(), location: self.location.clone() }
    }
}

impl PartialEq for Client {
    fn eq(&self, other: &Client) -> (r: bool) {
        self.id == other.id && self.name == other.name && self.location == other.location
    }
}

impl vstd::std_specs::cmp::PartialEqSpecImpl for Client {
    open spec fn obeys_eq_spec() -> bool {
        true
    }

    open spec fn eq_spec(&self, other: &Client) -> bool {
        self@ == other@
    }
}

impl Eq for Client {

}

} // verus!
