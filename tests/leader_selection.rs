use std::collections::HashMap;

use eternix_sim::leader_selection::{select_bucket, select_ticket, slot_seed};

#[test]
fn slot_seed_is_deterministic() {
    let seed = [42u8; 32];
    let a = slot_seed(seed, 10);
    let b = slot_seed(seed, 10);
    assert_eq!(a, b);
}

#[test]
fn bucket_selection_is_deterministic() {
    let seed = [1u8; 32];

    let mut buckets = HashMap::new();
    buckets.insert(1, 10);
    buckets.insert(2, 20);
    buckets.insert(3, 30);

    let a = select_bucket(seed, &buckets);
    let b = select_bucket(seed, &buckets);

    assert_eq!(a, b);
}

#[test]
fn slot_seed_hashes_its_input() {
    let seed = [42u8; 32];
    let a = slot_seed(seed, 10);
    let b = slot_seed(seed, 11);
    assert_ne!(a, seed);
    assert_ne!(a, b);
    assert_ne!(slot_seed([43u8; 32], 10), a);
}

#[test]
fn bucket_selection_skips_empty_buckets() {
    let seed = [9u8; 32];
    let mut buckets = HashMap::new();
    buckets.insert(1, 0);
    buckets.insert(7, 3);
    buckets.insert(4, 0);
    assert_eq!(select_bucket(seed, &buckets), 7);
}

#[test]
fn bucket_selection_ignores_map_order() {
    let seed = [5u8; 32];
    let mut a = HashMap::new();
    let mut b = HashMap::new();
    for id in 0..20u64 {
        a.insert(id, (id as usize % 4) + 1);
    }
    for id in (0..20u64).rev() {
        b.insert(id, (id as usize % 4) + 1);
    }
    assert_eq!(select_bucket(seed, &a), select_bucket(seed, &b));
}

#[test]
fn ticket_selection_is_order_independent() {
    let seed = [3u8; 32];
    let ids = vec![5u64, 1, 9, 12, 3];
    let mut rev = ids.clone();
    rev.reverse();
    let a = select_ticket(seed, &ids);
    assert!(ids.contains(&a));
    assert_eq!(a, select_ticket(seed, &rev));
    assert_eq!(select_ticket(seed, &[42]), 42);
}
