use simserver::entity_heap::EntityHeap;

const PLAYER: u64 = 1;
const MONSTER: u64 = 2;

#[test]
fn a_new_store_holds_nothing() {
    let h: EntityHeap<String> = EntityHeap::new();
    assert_eq!(h.get(PLAYER, 0), None);
    assert_eq!(h.get(MONSTER, u64::MAX), None);
}

#[test]
fn insert_then_get_finds_the_value() {
    let mut h: EntityHeap<String> = EntityHeap::new();
    assert_eq!(h.insert(PLAYER, 7, String::from("ann")), None);
    assert_eq!(h.get(PLAYER, 7), Some(&String::from("ann")));
}

#[test]
fn insert_replaces_and_returns_the_prior_value() {
    let mut h: EntityHeap<u32> = EntityHeap::new();
    assert_eq!(h.insert(PLAYER, 7, 1), None);
    assert_eq!(h.insert(PLAYER, 7, 2), Some(1));
    assert_eq!(h.get(PLAYER, 7), Some(&2));
}

#[test]
fn kinds_have_separate_key_spaces() {
    let mut h: EntityHeap<u32> = EntityHeap::new();
    h.insert(PLAYER, 7, 10);
    assert_eq!(h.get(MONSTER, 7), None);
    h.insert(MONSTER, 7, 20);
    assert_eq!(h.get(PLAYER, 7), Some(&10));
    assert_eq!(h.get(MONSTER, 7), Some(&20));
    assert_eq!(h.remove(PLAYER, 7), Some(10));
    assert_eq!(h.get(MONSTER, 7), Some(&20));
    assert_eq!(h.get(PLAYER, 7), None);
}

#[test]
fn extreme_tags_and_uids_do_not_collide() {
    let mut h: EntityHeap<u32> = EntityHeap::new();
    h.insert(0, u64::MAX, 1);
    h.insert(1, 0, 2);
    h.insert(u64::MAX, u64::MAX, 3);
    h.insert(u64::MAX, 0, 4);
    h.insert(0, 0, 5);
    assert_eq!(h.get(0, u64::MAX), Some(&1));
    assert_eq!(h.get(1, 0), Some(&2));
    assert_eq!(h.get(u64::MAX, u64::MAX), Some(&3));
    assert_eq!(h.get(u64::MAX, 0), Some(&4));
    assert_eq!(h.get(0, 0), Some(&5));
}

#[test]
fn get_of_an_unknown_uid_is_none() {
    let mut h: EntityHeap<u32> = EntityHeap::new();
    h.insert(PLAYER, 7, 10);
    assert_eq!(h.get(PLAYER, 8), None);
    assert_eq!(h.get(PLAYER, 6), None);
}

#[test]
fn get_mut_writes_through_to_the_store() {
    let mut h: EntityHeap<u32> = EntityHeap::new();
    h.insert(PLAYER, 7, 10);
    h.insert(PLAYER, 8, 80);
    match h.get_mut(PLAYER, 7) {
        Some(v) => {
            assert_eq!(*v, 10);
            *v = 11;
        }
        None => panic!("the entry is there"),
    }
    assert_eq!(h.get(PLAYER, 7), Some(&11));
    assert_eq!(h.get(PLAYER, 8), Some(&80));
    assert!(h.get_mut(PLAYER, 9).is_none());
    assert!(h.get_mut(MONSTER, 7).is_none());
}

#[test]
fn remove_returns_the_value_and_forgets_it() {
    let mut h: EntityHeap<u32> = EntityHeap::new();
    h.insert(PLAYER, 7, 10);
    assert_eq!(h.remove(PLAYER, 7), Some(10));
    assert_eq!(h.remove(PLAYER, 7), None);
    assert_eq!(h.get(PLAYER, 7), None);
}

#[test]
fn insert_then_remove_round_trips() {
    let mut h: EntityHeap<String> = EntityHeap::new();
    h.insert(PLAYER, 1, String::from("stays"));
    h.insert(PLAYER, 2, String::from("v"));
    assert_eq!(h.remove(PLAYER, 2), Some(String::from("v")));
    assert_eq!(h.get(PLAYER, 2), None);
    assert_eq!(h.get(PLAYER, 1), Some(&String::from("stays")));
}

#[test]
fn add_files_the_value_under_the_returned_uid() {
    let mut h: EntityHeap<u32> = EntityHeap::new();
    let uid = h.add(PLAYER, 33);
    assert_eq!(h.get(PLAYER, uid), Some(&33));
    assert_eq!(h.get(MONSTER, uid), None);
}

#[test]
fn add_returns_pairwise_distinct_uids() {
    let mut h: EntityHeap<usize> = EntityHeap::new();
    let mut uids: Vec<u64> = Vec::new();
    for i in 0..500usize {
        uids.push(h.add(PLAYER, i));
    }
    for (i, uid) in uids.iter().enumerate() {
        assert_eq!(h.get(PLAYER, *uid), Some(&i));
    }
    let mut sorted = uids.clone();
    sorted.sort();
    sorted.dedup();
    assert_eq!(sorted.len(), 500);
}

#[test]
fn add_does_not_reuse_a_uid_that_was_inserted_by_hand() {
    let mut h: EntityHeap<u32> = EntityHeap::new();
    for uid in 0..64u64 {
        h.insert(PLAYER, uid, 0);
    }
    for _ in 0..64 {
        let uid = h.add(PLAYER, 1);
        assert!(uid >= 64 || h.get(PLAYER, uid) == Some(&1));
    }
    for uid in 0..64u64 {
        assert_eq!(h.get(PLAYER, uid), Some(&0));
    }
}

#[test]
fn free_uid_from_a_free_start_is_the_start() {
    let h: EntityHeap<u32> = EntityHeap::new();
    assert_eq!(h.free_uid_from(PLAYER, 0), 0);
    assert_eq!(h.free_uid_from(PLAYER, 12345), 12345);
    assert_eq!(h.free_uid_from(PLAYER, u64::MAX), u64::MAX);
}

#[test]
fn free_uid_from_skips_what_is_in_use() {
    let mut h: EntityHeap<u32> = EntityHeap::new();
    h.insert(PLAYER, 5, 0);
    h.insert(PLAYER, 6, 0);
    h.insert(PLAYER, 7, 0);
    h.insert(PLAYER, 9, 0);
    assert_eq!(h.free_uid_from(PLAYER, 5), 8);
    assert_eq!(h.free_uid_from(PLAYER, 6), 8);
    assert_eq!(h.free_uid_from(PLAYER, 8), 8);
    assert_eq!(h.free_uid_from(PLAYER, 9), 10);
    assert_eq!(h.free_uid_from(PLAYER, 4), 4);
    assert_eq!(h.free_uid_from(MONSTER, 5), 5);
}

#[test]
fn free_uid_from_goes_round_after_the_last_uid() {
    let mut h: EntityHeap<u32> = EntityHeap::new();
    h.insert(PLAYER, u64::MAX - 1, 0);
    h.insert(PLAYER, u64::MAX, 0);
    h.insert(PLAYER, 0, 0);
    assert_eq!(h.free_uid_from(PLAYER, u64::MAX - 1), 1);
    assert_eq!(h.free_uid_from(PLAYER, u64::MAX), 1);
}
