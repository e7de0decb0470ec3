use hostcap::decimal::{decode_i64, encode_i64};
use hostcap::memory_store::MemoryStore;
use hostcap::store::{Error, StoreBindings, SwapError};

#[test]
fn set_get_delete_exists_round_trip() {
    let mut store = MemoryStore::new();
    assert_eq!(store.get("k").unwrap(), None);
    assert!(!store.key_exists("k").unwrap());

    store.set("k", b"hello").unwrap();
    assert_eq!(store.get("k").unwrap(), Some(b"hello".to_vec()));
    assert!(store.key_exists("k").unwrap());

    store.set("k", b"replaced").unwrap();
    assert_eq!(store.get("k").unwrap(), Some(b"replaced".to_vec()));

    store.delete("k").unwrap();
    assert_eq!(store.get("k").unwrap(), None);
    assert!(!store.key_exists("k").unwrap());

    // deleting an absent key is a no-op
    store.delete("k").unwrap();
    assert_eq!(store.get("k").unwrap(), None);
}

#[test]
fn get_keys_lists_each_present_key_once() {
    let mut store = MemoryStore::new();
    store.set("a", b"1").unwrap();
    store.set("b", b"2").unwrap();
    store.set("a", b"3").unwrap();
    store.delete("b").unwrap();
    store.set("c", b"4").unwrap();
    let mut keys = store.get_keys().unwrap();
    keys.sort();
    assert_eq!(keys, vec!["a".to_string(), "c".to_string()]);
}

#[test]
fn get_many_pairs_each_requested_key() {
    let mut store = MemoryStore::new();
    store.set("a", b"1").unwrap();
    store.set("c", b"3").unwrap();
    let out = store
        .get_many(&vec!["a".to_string(), "b".to_string(), "c".to_string()])
        .unwrap();
    assert_eq!(
        out,
        vec![
            ("a".to_string(), Some(b"1".to_vec())),
            ("b".to_string(), None),
            ("c".to_string(), Some(b"3".to_vec())),
        ]
    );
}

#[test]
fn set_many_and_delete_many_apply_in_order() {
    let mut store = MemoryStore::new();
    store
        .set_many(&vec![
            ("x".to_string(), b"1".to_vec()),
            ("y".to_string(), b"2".to_vec()),
            ("x".to_string(), b"3".to_vec()),
        ])
        .unwrap();
    assert_eq!(store.get("x").unwrap(), Some(b"3".to_vec()));
    assert_eq!(store.get("y").unwrap(), Some(b"2".to_vec()));

    store
        .delete_many(&vec!["x".to_string(), "missing".to_string()])
        .unwrap();
    assert_eq!(store.get("x").unwrap(), None);
    assert_eq!(store.get("y").unwrap(), Some(b"2".to_vec()));
}

#[test]
fn increment_creates_at_zero_and_accumulates() {
    let mut store = MemoryStore::new();
    assert_eq!(store.increment("counter", 5).unwrap(), 5);
    assert_eq!(store.increment("counter", 3).unwrap(), 8);
    assert_eq!(store.get("counter").unwrap(), Some(b"8".to_vec()));
    assert_eq!(store.increment("counter", -10).unwrap(), -2);
    assert_eq!(store.get("counter").unwrap(), Some(b"-2".to_vec()));
}

#[test]
fn increment_rejects_non_integer_values_and_overflow() {
    let mut store = MemoryStore::new();
    store.set("text", b"not a number").unwrap();
    assert_eq!(store.increment("text", 1), Err(Error::Runtime));
    // the failed increment changes nothing
    assert_eq!(store.get("text").unwrap(), Some(b"not a number".to_vec()));

    store.set("big", i64::MAX.to_string().as_bytes()).unwrap();
    assert_eq!(store.increment("big", 1), Err(Error::Runtime));
    assert_eq!(
        store.get("big").unwrap(),
        Some(i64::MAX.to_string().into_bytes())
    );
}

#[test]
fn cas_fresh_key_swap_and_reread() {
    let mut store = MemoryStore::new();
    let mut session = store.new_compare_and_swap(7, "slot").unwrap();
    assert_eq!(session.current(&store).unwrap(), None);
    session.swap(&mut store, b"1").unwrap();

    let mut second = store.new_compare_and_swap(7, "slot").unwrap();
    assert_eq!(second.current(&store).unwrap(), Some(b"1".to_vec()));
    assert_eq!(second.bucket_rep(), 7);
    assert_eq!(second.key(), "slot".to_string());
}

#[test]
fn cas_interleaved_swap_loses_the_race() {
    let mut store = MemoryStore::new();
    store.set("slot", b"base").unwrap();

    let mut first = store.new_compare_and_swap(0, "slot").unwrap();
    assert_eq!(first.current(&store).unwrap(), Some(b"base".to_vec()));

    // a second session writes between the first session's observation and
    // its swap
    let mut second = store.new_compare_and_swap(0, "slot").unwrap();
    second.current(&store).unwrap();
    second.swap(&mut store, b"interloper").unwrap();

    match first.swap(&mut store, b"mine") {
        Err(SwapError::CasFailed(_)) => {}
        other => panic!("expected the swap to lose the race, got {other:?}"),
    }
    // the losing swap wrote nothing
    assert_eq!(store.get("slot").unwrap(), Some(b"interloper".to_vec()));
}

#[test]
fn cas_same_value_write_still_loses_the_race() {
    // the watch is modification-based, not value-based: rewriting the same
    // bytes still invalidates the observation
    let mut store = MemoryStore::new();
    store.set("slot", b"v").unwrap();
    let mut first = store.new_compare_and_swap(0, "slot").unwrap();
    first.current(&store).unwrap();
    store.set("slot", b"v").unwrap();
    assert!(matches!(
        first.swap(&mut store, b"w"),
        Err(SwapError::CasFailed(_))
    ));
}

#[test]
fn cas_swap_without_observation_is_unguarded() {
    let mut store = MemoryStore::new();
    store.set("slot", b"old").unwrap();
    let mut session = store.new_compare_and_swap(0, "slot").unwrap();
    session.swap(&mut store, b"new").unwrap();
    assert_eq!(store.get("slot").unwrap(), Some(b"new".to_vec()));
}

#[test]
fn cas_writes_to_other_keys_do_not_disturb_the_watch() {
    let mut store = MemoryStore::new();
    store.set("slot", b"base").unwrap();
    let mut session = store.new_compare_and_swap(0, "slot").unwrap();
    session.current(&store).unwrap();
    store.set("unrelated", b"x").unwrap();
    session.swap(&mut store, b"mine").unwrap();
    assert_eq!(store.get("slot").unwrap(), Some(b"mine".to_vec()));
}

#[test]
fn decimal_codec_round_trips() {
    for n in [0i64, 5, -2, 42, 1000, i64::MAX, i64::MIN] {
        let bytes = encode_i64(n);
        assert_eq!(bytes, n.to_string().into_bytes());
        assert_eq!(decode_i64(&bytes), Some(n));
    }
}

#[test]
fn decimal_decode_rejects_non_canonical_text() {
    assert_eq!(decode_i64(&b"".to_vec()), None);
    assert_eq!(decode_i64(&b"-".to_vec()), None);
    assert_eq!(decode_i64(&b"01".to_vec()), None);
    assert_eq!(decode_i64(&b"-0".to_vec()), None);
    assert_eq!(decode_i64(&b"1x".to_vec()), None);
    assert_eq!(decode_i64(&b" 1".to_vec()), None);
    assert_eq!(decode_i64(&b"9223372036854775808".to_vec()), None);
    assert_eq!(decode_i64(&b"-9223372036854775809".to_vec()), None);
    assert_eq!(decode_i64(&b"99999999999999999999999".to_vec()), None);
}

#[test]
fn unbound_store_names_are_denied_without_io() {
    let bindings = StoreBindings::new(vec!["default".to_string(), "cache".to_string()]);
    assert!(bindings.is_bound("default"));
    assert!(bindings.is_bound("cache"));
    assert!(!bindings.is_bound("secrets"));
    assert!(bindings.check_access("cache").is_ok());
    assert_eq!(bindings.check_access("secrets"), Err(Error::AccessDenied));
    assert_eq!(
        StoreBindings::new(vec![]).check_access("default"),
        Err(Error::AccessDenied)
    );
}
