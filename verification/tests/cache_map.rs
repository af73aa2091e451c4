use rust_box::cache_map::{is_live, CacheMapExt, EntryExt};
use rust_box::std_ext::TimedValue;
use std::collections::{BTreeMap, HashMap};
use std::time::Duration;

#[test]
fn test_timed_value_new_no_expiry() {
    let mut tv = TimedValue::new(42, None);
    assert_eq!(*tv.value(), 42);
    assert_eq!(*tv.value_mut(), 42);
    assert_eq!(tv.into_value(), 42);
}

#[test]
fn test_timed_value_with_duration() {
    let tv = TimedValue::new(42, Some(std::time::Duration::from_secs(60)));
    assert_eq!(*tv.value(), 42);
    assert!(!tv.is_expired());
}

#[test]
fn test_timed_value_value_mut_modify() {
    let mut tv = TimedValue::new(1, None);
    *tv.value_mut() = 100;
    assert_eq!(*tv.value(), 100);
}

#[test]
fn test_cache_map_ext_hashmap_basic() {
    let mut m: std::collections::HashMap<&str, TimedValue<i32>> = std::collections::HashMap::new();

    m.insert_with_timeout("a", 1, None);
    m.insert_with_timeout("b", 2, Some(std::time::Duration::from_secs(60)));

    assert_eq!(m.get_with_timeout("a"), Some(&1));
    assert_eq!(m.get_with_timeout("b"), Some(&2));
    assert_eq!(m.get_with_timeout("c"), None);
}

#[test]
fn test_cache_map_ext_hashmap_overwrite() {
    let mut m: std::collections::HashMap<&str, TimedValue<i32>> = std::collections::HashMap::new();

    let old = m.insert_with_timeout("k", 1, None);
    assert_eq!(old, None);

    let old = m.insert_with_timeout("k", 2, None);
    assert_eq!(old, Some(1));
    assert_eq!(m.get_with_timeout("k"), Some(&2));
}

#[test]
fn test_cache_map_ext_hashmap_get_mut_and_set_ttl() {
    let mut m: std::collections::HashMap<&str, TimedValue<i32>> = std::collections::HashMap::new();

    m.insert_with_timeout("k", 1, None);
    m.get_with_timeout_mut("k").map(|v| *v = 42);
    assert_eq!(m.get_with_timeout("k"), Some(&42));
}

#[test]
fn test_cache_map_ext_btreemap() {
    let mut m: std::collections::BTreeMap<&str, TimedValue<i32>> = std::collections::BTreeMap::new();

    m.insert_with_timeout("a", 1, None);
    m.insert_with_timeout("b", 2, Some(std::time::Duration::from_secs(60)));

    assert_eq!(m.get_with_timeout("a"), Some(&1));
    assert_eq!(m.get_with_timeout("b"), Some(&2));
    assert_eq!(m.get_with_timeout("c"), None);

    m.get_with_timeout_mut("a").map(|v| *v = 10);
    assert_eq!(m.get_with_timeout("a"), Some(&10));
}

#[test]
fn test_timed_value_partial_eq() {
    let tv1 = TimedValue::new(42, None);
    let tv2 = TimedValue::new(42, Some(std::time::Duration::from_secs(60)));
    let tv3 = TimedValue::new(99, None);

    assert_eq!(tv1, tv2);
    assert_ne!(tv1, tv3);
}

#[test]
fn expired_values_are_hidden_and_swept() {
    let mut m: HashMap<&str, TimedValue<i32>> = HashMap::new();
    m.insert("gone", TimedValue::new(1, Some(Duration::from_nanos(0))));
    m.insert("keep", TimedValue::new(2, None));
    assert!(m.get("gone").unwrap().is_expired());
    assert!(!is_live(m.get("gone").unwrap()));
    assert_eq!(m.get_with_timeout("gone"), None);
    assert_eq!(m.get_with_timeout_mut("gone"), None);
    m.remove_expired_values();
    assert_eq!(m.len(), 1);
    assert!(m.contains_key("keep"));

    let mut b: BTreeMap<u32, TimedValue<&str>> = BTreeMap::new();
    b.insert(1, TimedValue::new("old", Some(Duration::from_nanos(0))));
    b.insert(2, TimedValue::new("new", Some(Duration::from_secs(600))));
    b.remove_expired_values();
    assert_eq!(b.len(), 1);
    assert_eq!(b.get_with_timeout(&2), Some(&"new"));
    assert_eq!(b.insert_with_timeout(2, "newer", None), Some("new"));
}

#[test]
fn test_entry_ext_hashmap_or_insert_with_timeout() {
    let mut m: std::collections::HashMap<&str, TimedValue<i32>> = std::collections::HashMap::new();

    // Vacant entry
    let val = m.entry("a").or_insert_with_timeout(10, None);
    assert_eq!(*val, 10);

    // Occupied entry (not expired)
    let val = m.entry("a").or_insert_with_timeout(99, None);
    assert_eq!(*val, 10);
}

#[test]
fn entry_ext_replaces_an_expired_value() {
    let mut m: std::collections::HashMap<&str, TimedValue<i32>> = std::collections::HashMap::new();

    // A zero timeout has passed as soon as it is set.
    m.insert("a", TimedValue::new(1, Some(Duration::ZERO)));

    // Expired entry — should be replaced
    let val = m.entry("a").or_insert_with_timeout(200, None);
    assert_eq!(*val, 200);
}

#[test]
fn test_entry_ext_hashmap_or_insert_with_timeout_f() {
    let mut m: std::collections::HashMap<&str, TimedValue<i32>> = std::collections::HashMap::new();

    let val = m.entry("a").or_insert_with_timeout_f(|| 42, None);
    assert_eq!(*val, 42);
}

#[test]
fn test_entry_ext_hashmap_or_insert_with_timeout_key_f() {
    let mut m: std::collections::HashMap<&str, TimedValue<String>> =
        std::collections::HashMap::new();

    let val = m
        .entry("a")
        .or_insert_with_timeout_key_f(|k| format!("val-{}", k), None);
    assert_eq!(**val, "val-a".to_string());
}

#[test]
fn test_entry_ext_hashmap_and_modify_with_timeout() {
    let mut m: std::collections::HashMap<&str, TimedValue<i32>> = std::collections::HashMap::new();
    m.insert("a", TimedValue::new(1, None));

    m.entry("a").and_modify_with_timeout(|v| *v = 99);
    assert_eq!(m.get_with_timeout("a"), Some(&99));
}

#[test]
fn entry_ext_keeps_a_live_value_and_its_changes() {
    let mut m: HashMap<u64, TimedValue<u64>> = HashMap::new();
    *m.entry(7).or_insert_with_timeout(1, Some(Duration::from_secs(60))) += 10;
    assert_eq!(m.get_with_timeout(&7), Some(&11));
    let v = m.entry(7).or_insert_with_timeout_f(|| 500, None);
    assert_eq!(*v, 11);
    m.entry(8).and_modify_with_timeout(|v| *v = 3);
    assert!(!m.contains_key(&8));
}

#[test]
fn timed_value_expires_at_its_deadline() {
    let tv = TimedValue::new_at(5, Some(10), 100);
    assert!(!tv.is_expired_at(109));
    assert!(tv.is_expired_at(110));
    let forever = TimedValue::new_at(5, None, 100);
    assert!(!forever.is_expired_at(u64::MAX));
    // A deadline past what the clock can hold never comes.
    let far = TimedValue::new_at(5, Some(u64::MAX), 1);
    assert!(!far.is_expired_at(u64::MAX));
}

#[test]
fn cache_map_ext_at_a_clock_reading() {
    let mut m: HashMap<u64, TimedValue<u64>> = HashMap::new();
    m.insert(1, TimedValue::new_at(10, Some(10), 100));
    m.insert(2, TimedValue::new_at(20, None, 100));
    m.insert(3, TimedValue::new_at(30, Some(50), 100));
    assert_eq!(m.get_with_timeout_at(&1, 109), Some(&10));
    assert_eq!(m.get_with_timeout_at(&1, 110), None);
    if let Some(v) = m.get_with_timeout_mut_at(&3, 120) {
        *v = 33;
    }
    assert_eq!(m.get_with_timeout_mut_at(&1, 200), None);
    m.remove_expired_values_at(120);
    let mut keys: Vec<u64> = m.keys().copied().collect();
    keys.sort();
    assert_eq!(keys, vec![2, 3]);
    assert_eq!(m.get_with_timeout_at(&3, 149), Some(&33));

    let mut b: BTreeMap<u64, TimedValue<u64>> = BTreeMap::new();
    b.insert(1, TimedValue::new_at(10, Some(10), 100));
    b.insert(2, TimedValue::new_at(20, None, 100));
    b.remove_expired_values_at(110);
    assert_eq!(b.keys().copied().collect::<Vec<u64>>(), vec![2]);
    assert_eq!(b.get_with_timeout_at(&2, u64::MAX), Some(&20));
}

#[test]
fn entry_ext_at_a_clock_reading() {
    let mut m: HashMap<u64, TimedValue<u64>> = HashMap::new();
    m.insert(1, TimedValue::new_at(10, Some(10), 100));
    // Live at 105: kept.
    assert_eq!(*m.entry(1).or_insert_with_timeout_at(99, Some(5), 105), 10);
    // Expired at 110: replaced, with a deadline 5 later.
    assert_eq!(*m.entry(1).or_insert_with_timeout_at(99, Some(5), 110), 99);
    assert_eq!(m.get_with_timeout_at(&1, 114), Some(&99));
    assert_eq!(m.get_with_timeout_at(&1, 115), None);
}
