use wcore::channels::dedupe::{DedupeCache, DedupeKey};

fn key(id: &str) -> DedupeKey {
    DedupeKey::new("slack", "acct", id)
}

#[test]
fn new_key_is_new_and_recorded() {
    let mut c = DedupeCache::new(1000, 100);
    assert!(c.check(key("m1"), 0), "first sight of a key is new");
    assert_eq!(c.len(), 1);
}

#[test]
fn immediate_duplicate_is_not_new() {
    let mut c = DedupeCache::new(1000, 100);
    assert!(c.check(key("m1"), 0));
    assert!(!c.check(key("m1"), 10), "live duplicate must be suppressed");
    assert_eq!(c.len(), 1);
}

#[test]
fn key_equality_is_on_all_three_fields() {
    let mut c = DedupeCache::new(1000, 100);
    assert!(c.check(DedupeKey::new("slack", "a", "m1"), 0));
    assert!(c.check(DedupeKey::new("discord", "a", "m1"), 0));
    assert!(c.check(DedupeKey::new("slack", "b", "m1"), 0));
    assert!(c.check(DedupeKey::new("slack", "a", "m2"), 0));
    assert_eq!(c.len(), 4);
}

#[test]
fn reappears_as_new_after_ttl_elapses() {
    let mut c = DedupeCache::new(1000, 100);
    assert!(c.check(key("m1"), 0));
    assert!(!c.check(key("m1"), 999), "still live just under ttl");
    assert!(c.check(key("m1"), 1000), "expired at the ttl boundary -> new again");
}

#[test]
fn ttl_zero_disables_expiry() {
    let mut c = DedupeCache::new(0, 100);
    assert!(c.check(key("m1"), 0));
    assert!(!c.check(key("m1"), u64::MAX), "ttl=0 means entries never age out");
}

#[test]
fn lru_evicts_oldest_keeps_recently_touched() {
    let mut c = DedupeCache::new(0, 2);
    assert!(c.check(key("m1"), 1));
    assert!(c.check(key("m2"), 2));
    assert!(!c.check(key("m1"), 3));
    assert!(c.check(key("m3"), 4));
    assert_eq!(c.len(), 2);
    assert!(c.peek(&key("m1"), 5), "recently-touched m1 retained");
    assert!(c.peek(&key("m3"), 5), "newest m3 present");
    assert!(!c.peek(&key("m2"), 5), "LRU m2 evicted");
    assert!(c.check(key("m2"), 6));
}

#[test]
fn max_size_zero_disables_capping() {
    let mut c = DedupeCache::new(0, 0);
    for i in 0..1000 {
        assert!(c.check(key(&format!("m{i}")), i as u64));
    }
    assert_eq!(c.len(), 1000, "no cap -> all distinct keys retained");
}

#[test]
fn peek_does_not_record() {
    let mut c = DedupeCache::new(1000, 100);
    assert!(!c.peek(&key("m1"), 0), "absent key is not live");
    assert_eq!(c.len(), 0, "peek must not insert");
    assert!(c.check(key("m1"), 0));
}

#[test]
fn peek_respects_ttl() {
    let mut c = DedupeCache::new(1000, 100);
    c.check(key("m1"), 0);
    assert!(c.peek(&key("m1"), 500), "live within ttl");
    assert!(!c.peek(&key("m1"), 1000), "expired at ttl boundary");
}

#[test]
fn duplicate_refreshes_recency_for_lru() {
    let mut c = DedupeCache::new(0, 2);
    c.check(key("a"), 1);
    c.check(key("b"), 2);
    assert!(!c.check(key("a"), 3));
    assert!(c.check(key("c"), 4));
    assert!(c.peek(&key("a"), 5));
    assert!(!c.peek(&key("b"), 5), "b was LRU after a's refresh");
}

#[test]
fn duplicate_does_not_slide_the_ttl_window() {
    let mut c = DedupeCache::new(100, 10);
    assert!(c.check(key("m"), 0));
    assert!(!c.check(key("m"), 90));
    // Still anchored at first sight (0): new again at 100.
    assert!(c.check(key("m"), 100));
    assert!(c.is_empty() == false);
}
