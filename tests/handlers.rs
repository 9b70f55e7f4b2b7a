use std::rc::Rc;

use client_store::entity::Client;
use client_store::handlers::{
    CreateClientHandler, GetClientHandler, LimitCreateClientHandler, LimitGetClientHanderV1,
    LimitGetClientHanderV2,
};
use client_store::repository::ClientRepository;
use client_store::repository_impl::{InMemoryClientRepository, LimitInMemoryClientRepository};
use fake::{Fake, Faker};

fn fake_client() -> Client {
    let id: u128 = Faker.fake();
    let name: String = Faker.fake();
    let location: String = Faker.fake();
    Client::new(id, name, location)
}

#[test]
fn get_client_handler() {
    let client = fake_client();
    let id = client.id();

    let mut repo = InMemoryClientRepository::new();
    repo.save(client.clone());

    let get_handler = GetClientHandler::new(Rc::new(repo));
    let client2 = get_handler.execute(id).unwrap();
    assert_eq!(client, client2);
}

#[test]
fn limit_get_client_handler_v1() {
    let client = fake_client();
    let id = client.id();

    let mut repo = LimitInMemoryClientRepository::new(10);
    repo.save(client.clone());

    let get_handler = LimitGetClientHanderV1::new(Rc::new(repo));
    let client2 = get_handler.execute(id).unwrap();
    assert_eq!(client, client2);
}

#[test]
fn limit_get_client_handler_v2() {
    let client = fake_client();
    let id = client.id();

    let repo = LimitInMemoryClientRepository::new(10);

    let mut get_handler = LimitGetClientHanderV2::new();
    get_handler.set_client_repo(Rc::new(repo));
    let err = get_handler.execute(id);
    assert_eq!(Err("No client found for given ID".to_string()), err);
}

#[test]
fn create_then_get_unbounded() {
    let mut create_handler = CreateClientHandler::new(InMemoryClientRepository::new());
    let id = create_handler.execute("Taro".to_string(), "Tokyo".to_string());
    let get_handler = GetClientHandler::new(Rc::new(create_handler.into_repo()));
    let client = get_handler.execute(id).unwrap();
    assert_eq!(client.id(), id);
    assert_eq!(client.name(), "Taro");
    assert_eq!(client.location(), "Tokyo");
}

#[test]
fn create_then_get_bounded() {
    let mut create_handler = LimitCreateClientHandler::new(LimitInMemoryClientRepository::new(10));
    let id = create_handler.execute("Jiro".to_string(), "Saitama".to_string());
    let get_handler = LimitGetClientHanderV1::new(Rc::new(create_handler.into_repo()));
    let client = get_handler.execute(id).unwrap();
    assert_eq!(client, Client::new(id, "Jiro".to_string(), "Saitama".to_string()));
}

#[test]
fn fresh_v2_handler_finds_nothing() {
    let get_handler = LimitGetClientHanderV2::new();
    assert_eq!(
        get_handler.execute(0x1234),
        Err("No client found for given ID".to_string())
    );
}

#[test]
fn default_v2_handler_finds_nothing() {
    let get_handler = LimitGetClientHanderV2::default();
    assert_eq!(
        get_handler.execute(7),
        Err("No client found for given ID".to_string())
    );
}
