//! A store of entities of several kinds, keyed by kind and identifier.
//!
//! Every kind has a key space of its own: the same identifier under two
//! kinds names two unrelated entries. Identifiers of new entries are drawn
//! from a pseudo-random generator.

use std::collections::HashMap;
use vstd::prelude::*;

verus! {

/// The identifier of an entity, unique among the entities of its kind in one store.
pub type UID = u64;

/// The tag of a kind of entity.
pub type TypeTag = u64;

/// The mathematical state of an [`EntityHeap`]: its entries by kind and identifier.
pub type Entries<V> = Map<(TypeTag, UID), V>;

/// The entry under `tag` and `uid`, if there is one.
pub open spec fn lookup<V>(entries: Entries<V>, tag: TypeTag, uid: UID) -> Option<V> {
    if entries.contains_key((tag, uid)) {
        Some(entries[(tag, uid)])
    } else {
        None
    }
}

/// The identifier `distance` steps after `start`, going round after the last one.
pub open spec fn probe(start: UID, distance: int) -> UID {
    ((start + distance) % 0x1_0000_0000_0000_0000) as u64
}

/// How many steps lead from `start` to `uid`, going round after the last identifier.
pub open spec fn distance(start: UID, uid: UID) -> int {
    if uid >= start {
        uid - start
    } else {
        uid - start + 0x1_0000_0000_0000_0000
    }
}

/// `uid` is the first identifier at or after `start`, going round, that is
/// not in use under `tag`.
pub open spec fn is_first_free<V>(entries: Entries<V>, tag: TypeTag, start: UID, uid: UID) -> bool {
    &&& !entries.contains_key((tag, uid))
    &&& forall|u: UID| distance(start, u) < distance(start, uid) ==> entries.contains_key((tag, u))
}

/// The key under which the map holds the entry of `tag` and `uid`.
spec fn key_of(tag: TypeTag, uid: UID) -> u128 {
    (tag * 0x1_0000_0000_0000_0000 + uid) as u128
}

/// Two entries share a key only if they share kind and identifier.
proof fn lemma_key_injective(tag1: TypeTag, uid1: UID, tag2: TypeTag, uid2: UID)
    requires
        key_of(tag1, uid1) == key_of(tag2, uid2),
    ensures
        tag1 == tag2,
        uid1 == uid2,
{
}

/// Where `count` identifiers in a row are in use under `tag`, the map holds
/// at least `count` keys.
proof fn lemma_probe_count(keys: Set<u128>, tag: TypeTag, start: UID, count: nat)
    requires
        keys.finite(),
        count <= 0x1_0000_0000_0000_0000,
        forall|j: int| 0 <= j < count ==> keys.contains(#[trigger] key_of(tag, probe(start, j))),
    ensures
        keys.len() >= count,
    decreases count,
{
    if count > 0 {
        let last = key_of(tag, probe(start, count - 1));
        let rest = keys.remove(last);
        assert forall|j: int| 0 <= j < count - 1 implies rest.contains(
            #[trigger] key_of(tag, probe(start, j)),
        ) by {
            if key_of(tag, probe(start, j)) == last {
                lemma_key_injective(tag, probe(start, j), tag, probe(start, count - 1));
            }
        }
        lemma_probe_count(rest, tag, start, (count - 1) as nat);
    }
}

/// The generator `rand::XorShiftRng`. The store carries it along and
/// draws from it; nothing is said of what is inside.
#[verifier::external_type_specification]
#[verifier::external_body]
pub struct ExXorShiftRng(rand::XorShiftRng);

/// How many draws in a row may meet an identifier in use before the store
/// looks for a free one by counting up.
pub const DRAWS: usize = 64;

/// A store of values of type `V`, filed by kind and identifier.
pub struct EntityHeap<V> {
    content: HashMap<u128, V>,
    key_seed: rand::XorShiftRng,
}

impl<V> View for EntityHeap<V> {
    type V = Entries<V>;

    closed spec fn view(&self) -> Entries<V> {
        Map::new(
            |k: (TypeTag, UID)| self.content@.contains_key(key_of(k.0, k.1)),
            |k: (TypeTag, UID)| self.content@[key_of(k.0, k.1)],
        )
    }
}

/// A generator seeded from the thread's source of randomness, by
/// `rand::weak_rng`. Nothing is claimed of its state. The call panics on a
/// system that has no source of entropy.
#[verifier::external_body]
fn seeded_rng() -> rand::XorShiftRng {
    rand::weak_rng()
}

/// The next 64 bits of the generator, by `rand::Rng::next_u64`. Nothing is
/// claimed of the number.
#[verifier::external_body]
fn next_u64(rng: &mut rand::XorShiftRng) -> u64 {
    rand::Rng::next_u64(rng)
}

/// The value under `k`, for writing, by `HashMap::get_mut`: the value that
/// the map holds there, or nothing where it holds none. What the caller
/// writes through the reference is what the map holds under `k` afterwards;
/// nothing else in the map changes.
#[verifier::external_body]
fn value_mut<V>(map: &mut HashMap<u128, V>, k: u128) -> (found: Option<&mut V>)
    ensures
        match found {
            Some(v) => old(map)@.contains_key(k) && *v == old(map)@[k] && final(map)@ == old(
                map,
            )@.insert(k, *final(v)),
            None => !old(map)@.contains_key(k) && final(map)@ == old(map)@,
        },
{
    map.get_mut(&k)
}

/// The key under which the map holds the entry of `tag` and `uid`.
fn key(tag: TypeTag, uid: UID) -> (k: u128)
    ensures
        k == key_of(tag, uid),
{
    let high: u128 = tag as u128;
    let low: u128 = uid as u128;
    high * 0x1_0000_0000_0000_0000u128 + low
}

impl<V> EntityHeap<V> {
    /// An empty store with a freshly seeded generator. Seeding panics on a
    /// system that has no source of entropy.
    pub fn new() -> (heap: Self)
        ensures
            heap@ == Map::<(TypeTag, UID), V>::empty(),
    {
        EntityHeap { content: HashMap::new(), key_seed: seeded_rng() }
    }

    /// The entry under `tag` and `k`.
    pub fn get(&self, tag: TypeTag, k: UID) -> (found: Option<&V>)
        ensures
            match found {
                Some(v) => lookup(self@, tag, k) == Some(*v),
                None => lookup(self@, tag, k) is None,
            },
    {
        broadcast use vstd::std_specs::hash::group_hash_axioms;

        self.content.get(&key(tag, k))
    }

    /// The entry under `tag` and `k`, for writing.
    pub fn get_mut(&mut self, tag: TypeTag, k: UID) -> (found: Option<&mut V>)
        ensures
            match found {
                Some(v) => lookup(old(self)@, tag, k) == Some(*v) && final(self)@ == old(
                    self,
                )@.insert((tag, k), *final(v)),
                None => lookup(old(self)@, tag, k) is None && final(self)@ == old(self)@,
            },
    {
        value_mut(&mut self.content, key(tag, k))
    }

    /// Files `v` under `tag` and `uid` and returns the entry that was there before.
    pub fn insert(&mut self, tag: TypeTag, uid: UID, v: V) -> (prior: Option<V>)
        ensures
            final(self)@ == old(self)@.insert((tag, uid), v),
            prior == lookup(old(self)@, tag, uid),
    {
        broadcast use vstd::std_specs::hash::group_hash_axioms;

        let prior = self.content.insert(key(tag, uid), v);
        proof {
            assert(self@ =~= old(self)@.insert((tag, uid), v));
        }
        prior
    }

    /// Removes the entry under `tag` and `k` and returns it.
    pub fn remove(&mut self, tag: TypeTag, k: UID) -> (taken: Option<V>)
        ensures
            final(self)@ == old(self)@.remove((tag, k)),
            taken == lookup(old(self)@, tag, k),
    {
        broadcast use vstd::std_specs::hash::group_hash_axioms;

        let taken = self.content.remove(&key(tag, k));
        proof {
            assert(self@ =~= old(self)@.remove((tag, k)));
        }
        taken
    }

    /// The first identifier at or after `start`, going round after the last
    /// one, that is not in use under `tag`.
    pub fn free_uid_from(&self, tag: TypeTag, start: UID) -> (uid: UID)
        ensures
            is_first_free(self@, tag, start, uid),
    {
        broadcast use vstd::std_specs::hash::group_hash_axioms;

        let held = self.content.len();
        let mut uid = start;
        let mut steps: u64 = 0;
        while self.content.contains_key(&key(tag, uid))
            invariant
                held == self.content@.len(),
                self.content@.dom().finite(),
                steps <= held,
                uid == probe(start, steps as int),
                forall|j: int|
                    0 <= j < steps ==> self.content@.contains_key(
                        #[trigger] key_of(tag, probe(start, j)),
                    ),
            decreases held - steps,
        {
            proof {
                lemma_probe_count(self.content@.dom(), tag, start, (steps + 1) as nat);
            }
            uid = if uid == u64::MAX { 0 } else { uid + 1 };
            steps = steps + 1;
        }
        proof {
            assert forall|u: UID| distance(start, u) < distance(start, uid) implies self@.contains_key(
                (tag, u),
            ) by {
                let j = distance(start, u);
                assert(probe(start, j) == u);
                assert(j < steps);
                assert(self.content@.contains_key(key_of(tag, probe(start, j))));
            }
        }
        uid
    }

    /// An identifier that is not in use under `tag`: the first draw of the
    /// generator that is free, or, once [`DRAWS`] draws in a row have met
    /// identifiers in use, the first free one after the last draw.
    fn new_uid(&mut self, tag: TypeTag) -> (uid: UID)
        ensures
            final(self)@ == old(self)@,
            !old(self)@.contains_key((tag, uid)),
    {
        broadcast use vstd::std_specs::hash::group_hash_axioms;

        let mut candidate = next_u64(&mut self.key_seed);
        let mut draws: usize = 1;
        while draws < DRAWS && self.content.contains_key(&key(tag, candidate))
            invariant
                self@ == old(self)@,
                draws <= DRAWS,
            decreases DRAWS - draws,
        {
            candidate = next_u64(&mut self.key_seed);
            draws = draws + 1;
        }
        self.free_uid_from(tag, candidate)
    }

    /// Files `v` under `tag` with a fresh identifier and returns the
    /// identifier. There always is a free one: a store cannot hold as many
    /// entries as there are identifiers.
    pub fn add(&mut self, tag: TypeTag, v: V) -> (uid: UID)
        ensures
            !old(self)@.contains_key((tag, uid)),
            final(self)@ == old(self)@.insert((tag, uid), v),
    {
        let uid = self.new_uid(tag);
        self.insert(tag, uid, v);
        uid
    }
}

/// What was filed under a kind and an identifier is what a lookup there finds.
pub proof fn law_insert_then_get<V>(entries: Entries<V>, tag: TypeTag, uid: UID, v: V)
    ensures
        lookup(entries.insert((tag, uid), v), tag, uid) == Some(v),
{
}

/// Every kind has a key space of its own, and entries do not disturb one
/// another: filing under one kind and identifier leaves what is found
/// under any other kind, or any other identifier, as it was.
pub proof fn law_entries_are_separate<V>(
    entries: Entries<V>,
    tag: TypeTag,
    uid: UID,
    v: V,
    other_tag: TypeTag,
    other_uid: UID,
)
    requires
        other_tag != tag || other_uid != uid,
    ensures
        lookup(entries.insert((tag, uid), v), other_tag, other_uid) == lookup(
            entries,
            other_tag,
            other_uid,
        ),
        lookup(entries.remove((tag, uid)), other_tag, other_uid) == lookup(
            entries,
            other_tag,
            other_uid,
        ),
{
}

/// Nothing is found where nothing was filed: not in an empty store, and
/// not under a key that was removed.
pub proof fn law_absent_is_none<V>(entries: Entries<V>, tag: TypeTag, uid: UID)
    ensures
        lookup(Map::<(TypeTag, UID), V>::empty(), tag, uid) is None,
        lookup(entries.remove((tag, uid)), tag, uid) is None,
        !entries.contains_key((tag, uid)) ==> lookup(entries, tag, uid) is None,
{
}

/// Identifiers that `add` hands out for one kind differ from one another
/// for as long as their entries stay in the store: an identifier that is
/// free after an earlier one was filed is not that earlier one.
pub proof fn law_added_uids_differ<V>(
    entries: Entries<V>,
    tag: TypeTag,
    first: UID,
    v: V,
    second: UID,
)
    requires
        !entries.insert((tag, first), v).contains_key((tag, second)),
    ensures
        first != second,
{
}

/// Filing an entry and removing it again gives the entry back and leaves
/// the store as it was without that key; where the key was free before,
/// the store is as it was.
pub proof fn law_insert_remove_round_trip<V>(entries: Entries<V>, tag: TypeTag, uid: UID, v: V)
    ensures
        lookup(entries.insert((tag, uid), v), tag, uid) == Some(v),
        entries.insert((tag, uid), v).remove((tag, uid)) == entries.remove((tag, uid)),
        !entries.contains_key((tag, uid)) ==> entries.insert((tag, uid), v).remove((tag, uid))
            == entries,
{
    assert(entries.insert((tag, uid), v).remove((tag, uid)) =~= entries.remove((tag, uid)));
    if !entries.contains_key((tag, uid)) {
        assert(entries.remove((tag, uid)) =~= entries);
    }
}

/// The first free identifier from a start is one and only one.
pub proof fn law_first_free_unique<V>(
    entries: Entries<V>,
    tag: TypeTag,
    start: UID,
    a: UID,
    b: UID,
)
    requires
        is_first_free(entries, tag, start, a),
        is_first_free(entries, tag, start, b),
    ensures
        a == b,
{
    if distance(start, a) < distance(start, b) {
        assert(entries.contains_key((tag, a)));
    } else if distance(start, b) < distance(start, a) {
        assert(entries.contains_key((tag, b)));
    }
}

} // verus!
