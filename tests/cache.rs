use trait_bounds::cache::{Cache, CacheError, CapacityPolicy, DisplayLenPolicy};

fn policy(max_chars: usize) -> Box<dyn CapacityPolicy<String, String>> {
    Box::new(DisplayLenPolicy::<String>::new(max_chars))
}

#[test]
fn cache_with_policy_and_bounds() {
    let policy: Box<dyn CapacityPolicy<String, String>> = Box::new(DisplayLenPolicy::<String>::new(8));
    let mut c: Cache<String, String> = Cache::new(policy, 2).unwrap();
    assert!(!c.insert("a".into(), "this is longer than 8".into())); // rejected by policy
    assert!(c.insert("a".into(), "short".into()));
    assert!(c.insert("b".into(), "small".into()));
    assert_eq!(c.len(), 2);
    // cache full: inserting a third admitted item should evict one existing entry
    assert!(c.insert("c".into(), "tiny".into()));
    assert_eq!(c.len(), 2);
    // At least the newly inserted one exists
    assert!(c.get(&"c".into()).is_some());
}

#[test]
fn scenario_lengths_after_each_insert() {
    let mut c: Cache<String, String> = Cache::new(policy(8), 2).unwrap();
    assert!(!c.insert("a".into(), "this is longer than 8".into()));
    assert_eq!(c.len(), 0);
    assert!(c.insert("a".into(), "short".into()));
    assert_eq!(c.len(), 1);
    assert!(c.insert("b".into(), "small".into()));
    assert_eq!(c.len(), 2);
    assert!(c.insert("c".into(), "tiny".into()));
    assert_eq!(c.len(), 2);
    assert_eq!(c.get(&"c".to_string()), Some(&"tiny".to_string()));
}

#[test]
fn zero_capacity_is_refused() {
    let r: Result<Cache<String, String>, CacheError> = Cache::new(policy(8), 0);
    assert!(matches!(r, Err(CacheError::ZeroCapacity)));
}

#[test]
fn capacity_one_is_accepted() {
    let r: Result<Cache<String, String>, CacheError> = Cache::new(policy(8), 1);
    assert!(r.is_ok());
}

#[test]
fn full_cache_evicts_earliest_key() {
    let mut c: Cache<String, String> = Cache::new(policy(8), 2).unwrap();
    assert!(c.insert("a".into(), "1".into()));
    assert!(c.insert("b".into(), "2".into()));
    assert!(c.insert("c".into(), "3".into()));
    assert_eq!(c.len(), 2);
    assert_eq!(c.get(&"a".to_string()), None);
    assert_eq!(c.get(&"b".to_string()), Some(&"2".to_string()));
    assert_eq!(c.get(&"c".to_string()), Some(&"3".to_string()));
}

#[test]
fn overwrite_keeps_occupancy_and_position() {
    let mut c: Cache<String, String> = Cache::new(policy(8), 2).unwrap();
    assert!(c.insert("a".into(), "first".into()));
    assert!(c.insert("b".into(), "b".into()));
    assert!(c.insert("a".into(), "second".into()));
    assert_eq!(c.len(), 2);
    assert_eq!(c.get(&"a".to_string()), Some(&"second".to_string()));
    // "a" is still the earliest inserted key, so it goes first
    assert!(c.insert("c".into(), "c".into()));
    assert_eq!(c.get(&"a".to_string()), None);
    assert_eq!(c.get(&"b".to_string()), Some(&"b".to_string()));
}

#[test]
fn rejected_value_is_never_visible() {
    let mut c: Cache<String, String> = Cache::new(policy(3), 2).unwrap();
    assert!(!c.insert("k".into(), "too long".into()));
    assert_eq!(c.get(&"k".to_string()), None);
    assert!(c.insert("k".into(), "ok".into()));
    assert!(!c.insert("k".into(), "too long".into()));
    assert_eq!(c.get(&"k".to_string()), Some(&"ok".to_string()));
    assert_eq!(c.len(), 1);
}

#[test]
fn repeated_get_changes_nothing() {
    let mut c: Cache<String, String> = Cache::new(policy(8), 2).unwrap();
    assert!(c.insert("a".into(), "x".into()));
    for _ in 0..3 {
        assert_eq!(c.get(&"a".to_string()), Some(&"x".to_string()));
        assert_eq!(c.get(&"z".to_string()), None);
        assert_eq!(c.len(), 1);
    }
}

#[test]
fn policy_counts_characters_not_bytes() {
    let mut c: Cache<String, String> = Cache::new(policy(5), 2).unwrap();
    // five characters, ten bytes
    assert!(c.insert("e".into(), "ééééé".into()));
    assert!(!c.insert("f".into(), "éééééé".into()));
    assert_eq!(c.len(), 1);
}

#[test]
fn policy_boundary_is_inclusive() {
    let p = DisplayLenPolicy::<String>::new(4);
    assert_eq!(p.max_chars, 4);
    let boxed: Box<dyn CapacityPolicy<String, String>> = Box::new(p);
    let mut c: Cache<String, String> = Cache::new(boxed, 3).unwrap();
    assert!(c.insert("a".into(), "four".into()));
    assert!(!c.insert("b".into(), "five!".into()));
    assert!(c.insert("c".into(), "".into()));
}

#[test]
fn integer_keys_with_own_policy_type() {
    let mut c: Cache<u64, String, DisplayLenPolicy<String>> =
        Cache::new(DisplayLenPolicy::new(10), 1).unwrap();
    assert!(c.insert(7, "seven".into()));
    assert!(c.insert(8, "eight".into()));
    assert_eq!(c.len(), 1);
    assert_eq!(c.get(&7), None);
    assert_eq!(c.get(&8), Some(&"eight".to_string()));
}

#[test]
fn integer_values_are_measured_by_their_digits() {
    let mut c: Cache<u32, u64, DisplayLenPolicy<u64>> = Cache::new(DisplayLenPolicy::new(3), 4).unwrap();
    assert!(c.insert(1, 999));
    assert!(!c.insert(2, 1000));
    assert!(c.insert(3, 0));
    assert_eq!(c.len(), 2);

    let mut wide: Cache<u32, u64, DisplayLenPolicy<u64>> = Cache::new(DisplayLenPolicy::new(20), 1).unwrap();
    assert!(wide.insert(1, u64::MAX));
    let mut narrow: Cache<u32, u64, DisplayLenPolicy<u64>> = Cache::new(DisplayLenPolicy::new(19), 1).unwrap();
    assert!(!narrow.insert(1, u64::MAX));
}

#[test]
fn negative_values_count_their_sign() {
    let mut c: Cache<u32, i32, DisplayLenPolicy<i32>> = Cache::new(DisplayLenPolicy::new(3), 4).unwrap();
    assert!(c.insert(1, -10));
    assert!(!c.insert(2, -100));
    assert!(c.insert(3, 100));
    let mut m: Cache<u32, i32, DisplayLenPolicy<i32>> = Cache::new(DisplayLenPolicy::new(11), 1).unwrap();
    assert!(m.insert(1, i32::MIN));
    assert_eq!(m.get(&1), Some(&i32::MIN));
}
