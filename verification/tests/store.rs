use resp_kv::store::{DataMap, MapEntry, MapValue, MapValueTimer, NANOS_PER_MILLI};

fn entry(key: &[u8], data: &[u8], timer: Option<MapValueTimer>) -> MapEntry {
    MapEntry::new(key.to_vec(), MapValue::new(data.to_vec(), timer))
}

#[test]
fn timer_keeps_start_and_timeout() {
    let timer = MapValueTimer::new(7, 100);
    assert_eq!(timer.start, 7);
    assert_eq!(timer.timeout, 100);
}

#[test]
fn timer_expires_when_elapsed_reaches_timeout() {
    let timer = MapValueTimer::new(1_000, 2);
    assert!(!timer.is_expired(1_000));
    assert!(!timer.is_expired(1_000 + 2 * NANOS_PER_MILLI - 1));
    assert!(timer.is_expired(1_000 + 2 * NANOS_PER_MILLI));
    assert!(timer.is_expired(1_000 + 2 * NANOS_PER_MILLI + 1));
    assert!(timer.is_expired(u128::MAX));
}

#[test]
fn timer_of_zero_is_expired_at_once() {
    let timer = MapValueTimer::new(5, 0);
    assert!(timer.is_expired(5));
    assert!(timer.is_expired(6));
    assert!(timer.is_expired(0));
}

#[test]
fn timer_read_before_its_start_has_not_elapsed() {
    let timer = MapValueTimer::new(1_000_000, 1);
    assert!(!timer.is_expired(0));
    assert!(!timer.is_expired(999_999));
}

#[test]
fn timer_of_longest_timeout_does_not_overflow() {
    let timer = MapValueTimer::new(0, u64::MAX);
    assert!(!timer.is_expired(u64::MAX as u128));
    assert!(!timer.is_expired(u64::MAX as u128 * NANOS_PER_MILLI - 1));
    assert!(timer.is_expired(u64::MAX as u128 * NANOS_PER_MILLI));
}

#[test]
fn value_without_timer_never_expires() {
    let value = MapValue::new(b"v".to_vec(), None);
    assert!(!value.is_expired(0));
    assert!(!value.is_expired(u128::MAX));
    assert_eq!(value.data(), &b"v".to_vec());
    assert_eq!(value.timer(), None);
}

#[test]
fn value_with_timer_expires_with_it() {
    let value = MapValue::new(b"v".to_vec(), Some(MapValueTimer::new(10, 1)));
    assert!(!value.is_expired(10));
    assert!(value.is_expired(10 + NANOS_PER_MILLI));
    assert_eq!(value.timer(), Some(MapValueTimer { start: 10, timeout: 1 }));
}

#[test]
fn entry_keeps_key_and_value() {
    let e = entry(b"k", b"v", None);
    assert_eq!(e.key(), &b"k".to_vec());
    assert_eq!(e.value().data(), &b"v".to_vec());
}

#[test]
fn new_store_is_empty() {
    let store = DataMap::new();
    assert_eq!(store.len(), 0);
    assert_eq!(store.get(b"k", 0), None);
    assert_eq!(store.get(b"", 0), None);
}

#[test]
fn get_returns_what_insert_stored() {
    let mut store = DataMap::new();
    store.insert(entry(b"foo", b"bar", None));
    assert_eq!(store.get(b"foo", 0), Some(&b"bar".to_vec()));
    assert_eq!(store.get(b"foo", u128::MAX), Some(&b"bar".to_vec()));
    assert_eq!(store.get(b"fo", 0), None);
    assert_eq!(store.get(b"foo ", 0), None);
    assert_eq!(store.get(b"FOO", 0), None);
    assert_eq!(store.len(), 1);
}

#[test]
fn insert_overwrites_value_and_timer() {
    let mut store = DataMap::new();
    store.insert(entry(b"k", b"one", Some(MapValueTimer::new(0, 0))));
    assert_eq!(store.get(b"k", 1), None);
    store.insert(entry(b"k", b"two", None));
    assert_eq!(store.get(b"k", 1), Some(&b"two".to_vec()));
    store.insert(entry(b"k", b"three", Some(MapValueTimer::new(0, 1))));
    assert_eq!(store.get(b"k", 1), Some(&b"three".to_vec()));
    assert_eq!(store.get(b"k", NANOS_PER_MILLI), None);
    assert_eq!(store.len(), 1);
}

#[test]
fn keys_are_kept_apart() {
    let mut store = DataMap::new();
    store.insert(entry(b"a", b"1", None));
    store.insert(entry(b"b", b"2", None));
    store.insert(entry(b"", b"3", None));
    store.insert(entry(b"a", b"4", None));
    assert_eq!(store.get(b"a", 0), Some(&b"4".to_vec()));
    assert_eq!(store.get(b"b", 0), Some(&b"2".to_vec()));
    assert_eq!(store.get(b"", 0), Some(&b"3".to_vec()));
    assert_eq!(store.len(), 3);
}

#[test]
fn expired_entry_stays_in_the_store() {
    let mut store = DataMap::new();
    store.insert(entry(b"k", b"v", Some(MapValueTimer::new(100, 1))));
    assert_eq!(store.get(b"k", 100 + NANOS_PER_MILLI), None);
    assert_eq!(store.len(), 1);
    // Read at an earlier clock reading, the entry is still there.
    assert_eq!(store.get(b"k", 100), Some(&b"v".to_vec()));
}

#[test]
fn last_write_wins() {
    let mut store = DataMap::new();
    for i in 0..50u8 {
        store.insert(entry(b"k", &[i], None));
    }
    assert_eq!(store.get(b"k", 0), Some(&vec![49u8]));
    assert_eq!(store.len(), 1);
}
