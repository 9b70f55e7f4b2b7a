use std::collections::HashSet;

use client_store::entity::Client;
use client_store::repository::{not_found_error, ClientRepository};
use client_store::repository_impl::{InMemoryClientRepository, LimitInMemoryClientRepository};

fn client(id: u128, name: &str) -> Client {
    Client::new(id, name.to_string(), format!("{name} town"))
}

fn not_found() -> Result<Client, String> {
    Err("No client found for given ID".to_string())
}

fn present(repo: &LimitInMemoryClientRepository, ids: &[u128]) -> Vec<u128> {
    ids.iter().copied().filter(|id| repo.by_id(*id).is_ok()).collect()
}

#[test]
fn identities_are_distinct() {
    let repo = LimitInMemoryClientRepository::new(4);
    let mut seen = HashSet::new();
    for _ in 0..1000 {
        assert!(seen.insert(repo.next_identity()));
    }
    let other = InMemoryClientRepository::new();
    for _ in 0..1000 {
        assert!(seen.insert(other.next_identity()));
    }
}

#[test]
fn identities_carry_version_four_bits() {
    let repo = LimitInMemoryClientRepository::new(1);
    for _ in 0..100 {
        let id = repo.next_identity();
        assert_eq!((id >> 76) & 0xF, 4);
        assert_eq!((id >> 62) & 0x3, 2);
    }
}

#[test]
fn save_then_by_id_returns_the_client() {
    let mut repo = LimitInMemoryClientRepository::new(3);
    let a = client(11, "A");
    repo.save(a.clone());
    assert_eq!(repo.by_id(11), Ok(a));
}

#[test]
fn unknown_key_is_not_found() {
    let mut repo = LimitInMemoryClientRepository::new(3);
    assert_eq!(repo.by_id(5), not_found());
    repo.save(client(1, "A"));
    repo.save(client(2, "B"));
    assert_eq!(repo.by_id(5), not_found());
    let mut plain = InMemoryClientRepository::new();
    assert_eq!(plain.by_id(5), not_found());
    plain.save(client(1, "A"));
    assert_eq!(plain.by_id(5), not_found());
}

#[test]
fn not_found_message_text() {
    assert_eq!(not_found_error(), "No client found for given ID");
}

#[test]
fn capacity_two_four_inserts() {
    let mut repo = LimitInMemoryClientRepository::new(2);
    let ids = [1u128, 2, 3, 4];
    repo.save(client(1, "A"));
    assert_eq!(present(&repo, &ids), vec![1]);
    repo.save(client(2, "B"));
    assert_eq!(present(&repo, &ids), vec![1, 2]);
    repo.save(client(3, "C"));
    assert_eq!(present(&repo, &ids), vec![1, 2, 3]);
    repo.save(client(4, "D"));
    assert_eq!(present(&repo, &ids), vec![2, 3, 4]);
    assert_eq!(repo.by_id(1), not_found());
    assert_eq!(repo.by_id(2), Ok(client(2, "B")));
}

#[test]
fn capacity_zero_holds_one_entry() {
    let mut repo = LimitInMemoryClientRepository::new(0);
    repo.save(client(1, "A"));
    assert_eq!(repo.by_id(1), Ok(client(1, "A")));
    repo.save(client(2, "B"));
    assert_eq!(repo.by_id(1), not_found());
    assert_eq!(repo.by_id(2), Ok(client(2, "B")));
}

#[test]
fn capacity_plus_n_keeps_last_capacity_plus_one() {
    let cap: usize = 3;
    for n in 1..6u128 {
        let mut repo = LimitInMemoryClientRepository::new(cap);
        let total = cap as u128 + n;
        let ids: Vec<u128> = (0..total).collect();
        for id in 0..total {
            repo.save(client(id, "X"));
        }
        let kept = present(&repo, &ids);
        assert_eq!(kept.len(), cap + 1);
        assert_eq!(kept, ((n - 1)..total).collect::<Vec<u128>>());
    }
}

#[test]
fn eviction_takes_the_oldest() {
    let mut repo = LimitInMemoryClientRepository::new(1);
    repo.save(client(7, "A"));
    repo.save(client(3, "B"));
    repo.save(client(9, "C"));
    assert_eq!(present(&repo, &[7, 3, 9]), vec![3, 9]);
    repo.save(client(1, "D"));
    assert_eq!(present(&repo, &[7, 3, 9, 1]), vec![9, 1]);
}

#[test]
fn overwrite_keeps_position() {
    let mut repo = LimitInMemoryClientRepository::new(2);
    repo.save(client(1, "A"));
    repo.save(client(2, "B"));
    repo.save(client(1, "A2"));
    assert_eq!(repo.by_id(1), Ok(client(1, "A2")));
    assert_eq!(repo.by_id(2), Ok(client(2, "B")));
    repo.save(client(3, "C"));
    assert_eq!(present(&repo, &[1, 2, 3]), vec![1, 2, 3]);
    repo.save(client(4, "D"));
    assert_eq!(present(&repo, &[1, 2, 3, 4]), vec![2, 3, 4]);
}

#[test]
fn overwrite_after_eviction_moves_last() {
    let mut repo = LimitInMemoryClientRepository::new(1);
    repo.save(client(1, "A"));
    repo.save(client(2, "B"));
    repo.save(client(1, "A2"));
    assert_eq!(present(&repo, &[1, 2]), vec![1, 2]);
    assert_eq!(repo.by_id(1), Ok(client(1, "A2")));
    repo.save(client(3, "C"));
    assert_eq!(present(&repo, &[1, 2, 3]), vec![1, 3]);
}

#[test]
fn unbounded_store_keeps_everything() {
    let mut repo = InMemoryClientRepository::new();
    for id in 0..50u128 {
        repo.save(client(id, "X"));
    }
    repo.save(client(10, "Y"));
    for id in 0..50u128 {
        let name = if id == 10 { "Y" } else { "X" };
        assert_eq!(repo.by_id(id), Ok(client(id, name)));
    }
}

#[test]
fn lookups_return_copies() {
    let mut repo = LimitInMemoryClientRepository::new(2);
    repo.save(client(1, "A"));
    let mut copy = repo.by_id(1).unwrap();
    copy.edit("Z".to_string(), "Nowhere".to_string());
    assert_eq!(repo.by_id(1), Ok(client(1, "A")));
}

#[test]
fn client_accessors_and_edit() {
    let mut c = Client::new(42, "Hanako".to_string(), "Osaka".to_string());
    assert_eq!(c.id(), 42);
    assert_eq!(c.name(), "Hanako");
    assert_eq!(c.location(), "Osaka");
    c.edit("Hana".to_string(), "Kyoto".to_string());
    assert_eq!(c.id(), 42);
    assert_eq!(c.name(), "Hana");
    assert_eq!(c.location(), "Kyoto");
}

#[test]
fn clients_compare_by_all_fields() {
    let a = Client::new(1, "A".to_string(), "L".to_string());
    assert_eq!(a, a.clone());
    assert_ne!(a, Client::new(2, "A".to_string(), "L".to_string()));
    assert_ne!(a, Client::new(1, "B".to_string(), "L".to_string()));
    assert_ne!(a, Client::new(1, "A".to_string(), "M".to_string()));
}

#[test]
fn default_stores_are_empty() {
    let mut bounded = LimitInMemoryClientRepository::default();
    assert_eq!(bounded.by_id(1), not_found());
    bounded.save(client(1, "A"));
    bounded.save(client(2, "B"));
    assert_eq!(present(&bounded, &[1, 2]), vec![2]);
    let plain = InMemoryClientRepository::default();
    assert_eq!(plain.by_id(1), not_found());
}

#[test]
fn trait_save_on_bounded_store_evicts_oldest() {
    let mut repo = LimitInMemoryClientRepository::new(1);
    ClientRepository::save(&mut repo, client(1, "A"));
    ClientRepository::save(&mut repo, client(2, "B"));
    ClientRepository::save(&mut repo, client(3, "C"));
    assert_eq!(ClientRepository::by_id(&repo, 1), not_found());
    assert_eq!(ClientRepository::by_id(&repo, 2), Ok(client(2, "B")));
    let id = ClientRepository::next_identity(&repo);
    assert_eq!((id >> 76) & 0xF, 4);
}
