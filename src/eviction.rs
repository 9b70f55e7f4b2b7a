//! The model of a bounded store: its entries in insertion order, and what a
//! save does to them.
use vstd::prelude::*;
use crate::entity::{ClientId, ClientView};

verus! {

/// Some entry of `s` has identity `k`.
pub open spec fn has_key(s: Seq<ClientView>, k: ClientId) -> bool {
    exists|i: int| 0 <= i < s.len() && #[trigger] s[i].id == k
}

/// No two entries of `s` share an identity.
pub open spec fn keys_unique(s: Seq<ClientView>) -> bool {
    forall|i: int, j: int| 0 <= i < j < s.len() ==> #[trigger] s[i].id != #[trigger] s[j].id
}

/// A position of `s` that holds identity `k`, where there is one.
pub open spec fn index_of(s: Seq<ClientView>, k: ClientId) -> int {
    choose|i: int| 0 <= i < s.len() && #[trigger] s[i].id == k
}

/// The entry of `s` with identity `k`.
pub open spec fn lookup(s: Seq<ClientView>, k: ClientId) -> Option<ClientView> {
    if has_key(s, k) {
        Some(s[index_of(s, k)])
    } else {
        None
    }
}

/// `s` with `c` stored under its identity: replaced in place where the
/// identity is present, appended last where it is not.
pub open spec fn stored_in(s: Seq<ClientView>, c: ClientView) -> Seq<ClientView> {
    if has_key(s, c.id) {
        s.update(index_of(s, c.id), c)
    } else {
        s.push(c)
    }
}

/// The entries after a save of `c` into a store of capacity `cap` holding
/// `s`: the oldest entry is dropped first when `s` holds more than `cap`
/// entries, so a store may hold `cap + 1` entries between two saves.
pub open spec fn after_save(s: Seq<ClientView>, cap: nat, c: ClientView) -> Seq<ClientView> {
    let t = if s.len() > cap {
        s.drop_first()
    } else {
        s
    };
    stored_in(t, c)
}

/// The entries of a store of capacity `cap` that started empty and saw the
/// saves of `cs` in order.
pub open spec fn saved_all(cap: nat, cs: Seq<ClientView>) -> Seq<ClientView>
    decreases cs.len(),
{
    if cs.len() == 0 {
        Seq::empty()
    } else {
        after_save(saved_all(cap, cs.drop_last()), cap, cs.last())
    }
}

/// In a sequence with unique identities, the entry found is the one at the
/// position that holds the identity.
pub proof fn lemma_lookup_at(s: Seq<ClientView>, i: int)
    requires
        keys_unique(s),
        0 <= i < s.len(),
    ensures
        lookup(s, s[i].id) == Some(s[i]),
{
    assert(has_key(s, s[i].id));
    let j = index_of(s, s[i].id);
    assert(j == i) by {
        if j < i {
            assert(s[j].id != s[i].id);
        } else if i < j {
            assert(s[i].id != s[j].id);
        }
    }
}

/// Dropping the oldest entry keeps identities unique.
proof fn lemma_drop_first_unique(s: Seq<ClientView>)
    requires
        keys_unique(s),
        s.len() > 0,
    ensures
        keys_unique(s.drop_first()),
{
    let t = s.drop_first();
    assert forall|i: int, j: int| 0 <= i < j < t.len() implies #[trigger] t[i].id
        != #[trigger] t[j].id by {
        assert(t[i] == s[i + 1] && t[j] == s[j + 1]);
    }
}

/// Storing an entry keeps identities unique, puts the entry under its
/// identity and leaves every other identity as it was.
pub proof fn lemma_stored_in(s: Seq<ClientView>, c: ClientView)
    requires
        keys_unique(s),
    ensures
        keys_unique(stored_in(s, c)),
        lookup(stored_in(s, c), c.id) == Some(c),
        forall|k: ClientId| k != c.id ==> lookup(#[trigger] stored_in(s, c), k) == lookup(s, k),
        stored_in(s, c).len() == if has_key(s, c.id) {
            s.len()
        } else {
            s.len() + 1
        },
{
    let r = stored_in(s, c);
    if has_key(s, c.id) {
        let p = index_of(s, c.id);
        assert forall|i: int, j: int| 0 <= i < j < r.len() implies #[trigger] r[i].id
            != #[trigger] r[j].id by {
            assert(s[i].id != s[j].id);
        }
        lemma_lookup_at(r, p);
        assert forall|k: ClientId| k != c.id implies lookup(#[trigger] stored_in(s, c), k)
            == lookup(s, k) by {
            if has_key(s, k) {
                let q = index_of(s, k);
                assert(r[q] == s[q]);
                lemma_lookup_at(s, q);
                lemma_lookup_at(r, q);
            } else {
                assert(!has_key(r, k)) by {
                    if has_key(r, k) {
                        let q = index_of(r, k);
                        assert(s[q].id == k);
                    }
                }
            }
        }
    } else {
        assert forall|i: int, j: int| 0 <= i < j < r.len() implies #[trigger] r[i].id
            != #[trigger] r[j].id by {
            if j == s.len() {
                assert(s[i].id == r[i].id);
            } else {
                assert(s[i].id != s[j].id);
            }
        }
        lemma_lookup_at(r, s.len() as int);
        assert forall|k: ClientId| k != c.id implies lookup(#[trigger] stored_in(s, c), k)
            == lookup(s, k) by {
            if has_key(s, k) {
                let q = index_of(s, k);
                assert(r[q] == s[q]);
                lemma_lookup_at(s, q);
                lemma_lookup_at(r, q);
            } else {
                assert(!has_key(r, k)) by {
                    if has_key(r, k) {
                        let q = index_of(r, k);
                        assert(q < s.len());
                        assert(s[q].id == k);
                    }
                }
            }
        }
    }
}

/// A save keeps identities unique.
pub proof fn lemma_after_save_unique(s: Seq<ClientView>, cap: nat, c: ClientView)
    requires
        keys_unique(s),
    ensures
        keys_unique(after_save(s, cap, c)),
{
    if s.len() > cap {
        lemma_drop_first_unique(s);
        lemma_stored_in(s.drop_first(), c);
    } else {
        lemma_stored_in(s, c);
    }
}

/// The entries of `s` as a map from identity to client.
pub open spec fn as_map(s: Seq<ClientView>) -> Map<ClientId, ClientView> {
    Map::new(|k: ClientId| has_key(s, k), |k: ClientId| s[index_of(s, k)])
}

/// Dropping the oldest entry loses its identity and keeps every other one.
pub proof fn lemma_drop_first_lookup(s: Seq<ClientView>)
    requires
        keys_unique(s),
        s.len() > 0,
    ensures
        lookup(s.drop_first(), s[0].id) is None,
        forall|k: ClientId| k != s[0].id ==> lookup(#[trigger] s.drop_first(), k) == lookup(s, k),
{
    let t = s.drop_first();
    lemma_drop_first_unique(s);
    if has_key(t, s[0].id) {
        let q = index_of(t, s[0].id);
        assert(s[q + 1].id == s[0].id);
    }
    assert forall|k: ClientId| k != s[0].id implies lookup(#[trigger] s.drop_first(), k) == lookup(
        s,
        k,
    ) by {
        if has_key(s, k) {
            let q = index_of(s, k);
            assert(q > 0);
            assert(t[q - 1] == s[q]);
            lemma_lookup_at(s, q);
            lemma_lookup_at(t, q - 1);
        } else if has_key(t, k) {
            let q = index_of(t, k);
            assert(s[q + 1].id == k);
        }
    }
}

/// A save evicts nothing but the oldest entry: the saved client is found
/// under its identity; any other identity is found as before, or no longer at
/// all where it was the oldest one and the store held more than `cap` entries.
pub proof fn law_evicts_only_oldest(s: Seq<ClientView>, cap: nat, c: ClientView)
    requires
        keys_unique(s),
    ensures
        keys_unique(after_save(s, cap, c)),
        lookup(after_save(s, cap, c), c.id) == Some(c),
        forall|k: ClientId|
            k != c.id ==> lookup(#[trigger] after_save(s, cap, c), k) == if s.len() > cap && k
                == s[0].id {
                None
            } else {
                lookup(s, k)
            },
{
    lemma_after_save_unique(s, cap, c);
    if s.len() > cap {
        lemma_drop_first_unique(s);
        lemma_drop_first_lookup(s);
        lemma_stored_in(s.drop_first(), c);
    } else {
        lemma_stored_in(s, c);
    }
}

/// A client just saved is found under its identity.
pub proof fn law_round_trip(s: Seq<ClientView>, cap: nat, c: ClientView)
    requires
        keys_unique(s),
    ensures
        lookup(after_save(s, cap, c), c.id) == Some(c),
{
    law_evicts_only_oldest(s, cap, c);
}

/// The entries after any saves from empty hold unique identities.
pub proof fn lemma_saved_all_unique(cap: nat, cs: Seq<ClientView>)
    ensures
        keys_unique(saved_all(cap, cs)),
    decreases cs.len(),
{
    if cs.len() > 0 {
        lemma_saved_all_unique(cap, cs.drop_last());
        lemma_after_save_unique(saved_all(cap, cs.drop_last()), cap, cs.last());
    }
}

/// An identity that no save carried is never found.
pub proof fn law_not_found(cap: nat, cs: Seq<ClientView>, k: ClientId)
    requires
        forall|i: int| 0 <= i < cs.len() ==> #[trigger] cs[i].id != k,
    ensures
        lookup(saved_all(cap, cs), k) is None,
    decreases cs.len(),
{
    if cs.len() > 0 {
        let prev = saved_all(cap, cs.drop_last());
        assert forall|i: int| 0 <= i < cs.drop_last().len() implies #[trigger] cs.drop_last()[i].id
            != k by {
            assert(cs.drop_last()[i] == cs[i]);
        }
        law_not_found(cap, cs.drop_last(), k);
        lemma_saved_all_unique(cap, cs.drop_last());
        assert(cs.last().id != k) by {
            assert(cs[cs.len() - 1].id != k);
        }
        law_evicts_only_oldest(prev, cap, cs.last());
    }
}

/// Saves of clients with distinct identities into a store that started
/// empty leave the last `cap + 1` of them, or all where there are fewer.
pub proof fn lemma_saved_all_suffix(cap: nat, cs: Seq<ClientView>)
    requires
        keys_unique(cs),
    ensures
        saved_all(cap, cs) == cs.subrange(
            if cs.len() > cap + 1 {
                cs.len() - (cap + 1)
            } else {
                0
            },
            cs.len() as int,
        ),
    decreases cs.len(),
{
    let m = cs.len() as int;
    if m > 0 {
        let d = cs.drop_last();
        assert forall|i: int, j: int| 0 <= i < j < d.len() implies #[trigger] d[i].id
            != #[trigger] d[j].id by {
            assert(cs[i].id != cs[j].id);
        }
        lemma_saved_all_suffix(cap, d);
        let lo_prev: int = if m - 1 > cap + 1 {
            m - 1 - (cap + 1)
        } else {
            0
        };
        let lo: int = if m > cap + 1 {
            m - (cap + 1)
        } else {
            0
        };
        let prev = saved_all(cap, d);
        assert(prev =~= cs.subrange(lo_prev, m - 1));
        let t = if prev.len() > cap {
            prev.drop_first()
        } else {
            prev
        };
        assert(t =~= cs.subrange(lo, m - 1));
        let c = cs.last();
        assert(!has_key(t, c.id)) by {
            if has_key(t, c.id) {
                let q = index_of(t, c.id);
                assert(t[q] == cs[lo + q]);
                assert(cs[lo + q].id != cs[m - 1].id);
            }
        }
        assert(saved_all(cap, cs) =~= cs.subrange(lo, m));
    } else {
        assert(saved_all(cap, cs) =~= cs.subrange(0, 0));
    }
}

/// After saves of `cap + n` clients with distinct identities, `n >= 1`, into
/// a store of capacity `cap` that started empty, the store holds `cap + 1`
/// entries: the first `n - 1` clients are evicted and the last `cap + 1` are
/// found.
pub proof fn law_capacity_bound(cap: nat, cs: Seq<ClientView>, n: nat)
    requires
        n >= 1,
        cs.len() == cap + n,
        keys_unique(cs),
    ensures
        saved_all(cap, cs).len() == cap + 1,
        forall|i: int| 0 <= i < n - 1 ==> lookup(saved_all(cap, cs), #[trigger] cs[i].id) is None,
        forall|i: int|
            n - 1 <= i < cs.len() ==> lookup(saved_all(cap, cs), #[trigger] cs[i].id) == Some(
                cs[i],
            ),
{
    lemma_saved_all_suffix(cap, cs);
    let r = saved_all(cap, cs);
    lemma_saved_all_unique(cap, cs);
    assert forall|i: int| 0 <= i < n - 1 implies lookup(r, #[trigger] cs[i].id) is None by {
        if has_key(r, cs[i].id) {
            let q = index_of(r, cs[i].id);
            assert(r[q] == cs[n - 1 + q]);
            assert(cs[i].id != cs[n - 1 + q].id);
        }
    }
    assert forall|i: int| n - 1 <= i < cs.len() implies lookup(r, #[trigger] cs[i].id) == Some(
        cs[i],
    ) by {
        assert(r[i - (n - 1)] == cs[i]);
        lemma_lookup_at(r, i - (n - 1));
    }
}

} // verus!
