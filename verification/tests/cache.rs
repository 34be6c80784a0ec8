use signet::cache::{NegCache, NegEntry};
use std::time::Duration;

#[test]
fn insert_then_get() {
    let mut c = NegCache::new(Duration::from_secs(30).as_nanos(), 10);
    c.insert("cs_1".into(), NegEntry::Unpaid, 0);
    c.insert("cs_2".into(), NegEntry::NotFound, 0);
    assert_eq!(c.get("cs_1", 0), Some(NegEntry::Unpaid));
    assert_eq!(c.get("cs_2", 0), Some(NegEntry::NotFound));
    assert_eq!(c.get("cs_missing", 0), None);
}

#[test]
fn expired_entry_not_returned() {
    let mut c = NegCache::new(Duration::from_millis(0).as_nanos(), 10);
    c.insert("cs_1".into(), NegEntry::Unpaid, 0);
    assert_eq!(c.get("cs_1", Duration::from_millis(1).as_nanos()), None);
}

#[test]
fn cap_eviction_does_not_panic() {
    let mut c = NegCache::new(Duration::from_secs(30).as_nanos(), 4);
    for i in 0..100 {
        c.insert(format!("cs_{i}"), NegEntry::Unpaid, i);
    }
    assert!(c.len() <= 4);
}

#[test]
fn entries_are_believed_for_less_than_the_ttl() {
    let mut c = NegCache::new(10, 4);
    c.insert("a".into(), NegEntry::Unpaid, 100);
    assert_eq!(c.get("a", 50), Some(NegEntry::Unpaid));
    assert_eq!(c.get("a", 109), Some(NegEntry::Unpaid));
    assert_eq!(c.get("a", 110), None);
    assert_eq!(c.len(), 0);
}

#[test]
fn a_full_cache_loses_what_is_stale_first() {
    let mut c = NegCache::new(10, 3);
    c.insert("a".into(), NegEntry::Unpaid, 0);
    c.insert("b".into(), NegEntry::Unpaid, 5);
    c.insert("c".into(), NegEntry::NotFound, 6);
    c.insert("d".into(), NegEntry::NotFound, 12);
    assert_eq!(c.len(), 3);
    assert_eq!(c.get("a", 12), None);
    assert_eq!(c.get("b", 12), Some(NegEntry::Unpaid));
    assert_eq!(c.get("c", 12), Some(NegEntry::NotFound));
    assert_eq!(c.get("d", 12), Some(NegEntry::NotFound));
}

#[test]
fn a_full_cache_of_fresh_entries_starts_over() {
    let mut c = NegCache::new(100, 2);
    c.insert("a".into(), NegEntry::Unpaid, 0);
    c.insert("b".into(), NegEntry::Unpaid, 1);
    c.insert("c".into(), NegEntry::Unpaid, 2);
    assert_eq!(c.len(), 1);
    assert_eq!(c.get("a", 2), None);
    assert_eq!(c.get("c", 2), Some(NegEntry::Unpaid));
}

#[test]
fn a_second_entry_takes_the_place_of_the_first() {
    let mut c = NegCache::new(100, 5);
    c.insert("a".into(), NegEntry::Unpaid, 0);
    c.insert("b".into(), NegEntry::Unpaid, 0);
    c.insert("a".into(), NegEntry::NotFound, 1);
    assert_eq!(c.len(), 2);
    assert_eq!(c.get("a", 1), Some(NegEntry::NotFound));
    assert_eq!(c.get("b", 1), Some(NegEntry::Unpaid));
}

#[test]
fn a_cache_without_room_holds_one_entry() {
    let mut c = NegCache::new(100, 0);
    c.insert("a".into(), NegEntry::Unpaid, 0);
    c.insert("b".into(), NegEntry::Unpaid, 0);
    assert_eq!(c.len(), 1);
    assert_eq!(c.get("b", 0), Some(NegEntry::Unpaid));
}
