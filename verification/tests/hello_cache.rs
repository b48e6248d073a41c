use tlsproxy::hello_cache::{insert, insert_request_token, is_looped, request_token_is_looped, Cache, DEFAULT_TTL};

fn random(seed: u8) -> Vec<u8> {
    vec![seed; 32]
}

#[test]
fn forwarded_random_is_detected_once() {
    let mut cache = Cache::new();
    cache.insert(random(1), DEFAULT_TTL, 0);
    assert!(cache.is_looped(&random(1), 0));
    assert!(!cache.is_looped(&random(1), 0), "hit should consume entry");
}

#[test]
fn unknown_random_is_not_a_loop() {
    let mut cache = Cache::new();
    assert!(!cache.is_looped(&random(2), 0));
}

#[test]
fn expired_random_is_not_a_loop() {
    let mut cache = Cache::new();
    cache.insert(random(3), 0, 0);
    assert!(!cache.is_looped(&random(3), 0));
}

#[test]
fn insert_evicts_expired_entries_from_both_structures() {
    let mut cache = Cache::new();
    cache.insert(random(4), 0, 0);
    cache.insert(random(5), DEFAULT_TTL, 0);
    assert!(!cache.by_key.contains_key(&random(4)));
    assert!(cache.by_key.contains_key(&random(5)));
    assert!(!cache.by_insertion.iter().any(|(random_key, _)| *random_key == random(4)));
}

#[test]
fn stale_node_of_consumed_entry_does_not_evict_fresh_reinsert() {
    let mut cache = Cache::new();
    cache.insert(random(6), 0, 0);
    assert!(!cache.is_looped(&random(6), 0));
    // re-inserting after consumption must not be evicted by the stale node
    cache.insert(random(6), DEFAULT_TTL, 0);
    cache.insert(random(7), DEFAULT_TTL, 0);
    assert!(cache.by_key.contains_key(&random(6)));
}

#[test]
fn fresh_entries_survive_and_expired_ones_do_not() {
    let mut cache = Cache::new();
    cache.insert(random(8), 10, 0);
    cache.insert(random(9), 20, 0);
    cache.evict_expired(15);
    assert!(!cache.by_key.contains_key(&random(8)));
    assert!(cache.by_key.contains_key(&random(9)));
    assert_eq!(DEFAULT_TTL, 10_000);
}

#[test]
fn hellos_and_request_tokens_are_remembered_for_ten_seconds() {
    let mut hellos = Cache::new();
    insert(&mut hellos, random(1), 100);
    assert!(!is_looped(&mut hellos, &random(1), 10_100));
    insert(&mut hellos, random(1), 100);
    assert!(is_looped(&mut hellos, &random(1), 10_099));
    let mut tokens = Cache::new();
    insert_request_token(&mut tokens, "cafe", 0);
    assert!(request_token_is_looped(&mut tokens, "cafe", 1));
    assert!(!request_token_is_looped(&mut tokens, "cafe", 1));
}
