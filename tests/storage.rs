use trait_bounds::storage::{MemErr, MemoryStore, Storage};

#[test]
fn storage_trait_bounds() {
    let mut s = MemoryStore::default();
    s.save("k", b"hello").unwrap();
    let bytes = s.load("k").unwrap();
    assert_eq!(bytes, b"hello");
    let err = s.load("missing").unwrap_err();
    assert!(err.message().contains("missing"));
}

#[test]
fn save_replaces_earlier_bytes() {
    let mut s = MemoryStore::new();
    s.save("k", b"one").unwrap();
    s.save("j", b"other").unwrap();
    s.save("k", b"two").unwrap();
    assert_eq!(s.load("k").unwrap(), b"two");
    assert_eq!(s.load("j").unwrap(), b"other");
}

#[test]
fn missing_error_names_the_id() {
    let mut s = MemoryStore::new();
    assert_eq!(s.load("nope"), Err(MemErr::Missing("nope".to_string())));
    assert_eq!(MemErr::Missing("nope".into()).message(), "missing: nope");
}

fn round_trip<S: Storage>(s: &mut S) -> Vec<u8> {
    s.save("id", &[1, 2, 3]).ok().unwrap();
    s.load("id").ok().unwrap()
}

#[test]
fn store_through_the_trait() {
    let mut s = MemoryStore::new();
    assert_eq!(round_trip(&mut s), vec![1, 2, 3]);
}
