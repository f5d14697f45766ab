use kvstore::index::key_le;
use kvstore::{deadline_after, sweep, ExpirationIndex, Store, SweepPhase};

fn bytes(s: &str) -> Vec<u8> {
    s.as_bytes().to_vec()
}

#[test]
fn end_to_end_set_get_expire() {
    let mut s = Store::new();
    s.set("a".to_string(), bytes("1"), 0, Some(50));
    assert_eq!(s.get("a", 0), Some(bytes("1")));
    assert_eq!(sweep(&mut s, 60), SweepPhase::WaitingForSignal);
    assert_eq!(s.get("a", 60), None);
    assert_eq!(s.next_expiration(), None);
}

#[test]
fn get_missing_key_is_none() {
    let s = Store::new();
    assert_eq!(s.get("nope", 0), None);
}

#[test]
fn get_treats_expired_unswept_entry_as_missing() {
    let mut s = Store::new();
    s.set("k".to_string(), bytes("v"), 10, Some(5));
    assert_eq!(s.get("k", 14), Some(bytes("v")));
    assert_eq!(s.get("k", 15), None);
    // still indexed until a sweep runs
    assert_eq!(s.next_expiration(), Some(15));
}

#[test]
fn set_without_ttl_never_expires() {
    let mut s = Store::new();
    let wake = s.set("k".to_string(), bytes("v"), 0, None);
    assert!(!wake);
    assert_eq!(s.next_expiration(), None);
    assert_eq!(sweep(&mut s, u64::MAX), SweepPhase::WaitingForSignal);
    assert_eq!(s.get("k", u64::MAX), Some(bytes("v")));
}

#[test]
fn overwrite_without_ttl_drops_deadline() {
    let mut s = Store::new();
    s.set("k".to_string(), bytes("1"), 0, Some(10));
    s.set("k".to_string(), bytes("2"), 0, None);
    assert_eq!(s.next_expiration(), None);
    assert_eq!(s.get("k", 100), Some(bytes("2")));
}

#[test]
fn delete_absent_key_twice_is_noop() {
    let mut s = Store::new();
    s.set("x".to_string(), bytes("1"), 0, Some(7));
    s.delete("missing");
    s.delete("missing");
    assert_eq!(s.get("x", 0), Some(bytes("1")));
    assert_eq!(s.get("missing", 0), None);
    assert_eq!(s.next_expiration(), Some(7));
}

#[test]
fn delete_removes_entry_and_its_deadline() {
    let mut s = Store::new();
    s.set("x".to_string(), bytes("1"), 0, Some(7));
    s.delete("x");
    assert_eq!(s.get("x", 0), None);
    assert_eq!(s.next_expiration(), None);
}

#[test]
fn reset_with_shorter_ttl_keeps_only_new_deadline() {
    let mut s = Store::new();
    s.set("k".to_string(), bytes("1"), 0, Some(100));
    s.set("k".to_string(), bytes("2"), 0, Some(10));
    assert_eq!(s.next_expiration(), Some(10));
    assert_eq!(sweep(&mut s, 10), SweepPhase::WaitingForSignal);
    assert_eq!(s.get("k", 0), None);
    assert_eq!(s.next_expiration(), None);
}

#[test]
fn sweep_between_deadlines_keeps_only_later_entry() {
    let mut s = Store::new();
    s.set("a".to_string(), bytes("1"), 0, Some(10));
    s.set("b".to_string(), bytes("2"), 0, Some(20));
    s.set("c".to_string(), bytes("3"), 0, Some(30));
    assert_eq!(sweep(&mut s, 25), SweepPhase::WaitingUntil(30));
    assert_eq!(s.get("a", 0), None);
    assert_eq!(s.get("b", 0), None);
    assert_eq!(s.get("c", 25), Some(bytes("3")));
}

#[test]
fn sweep_at_exact_deadline_removes_entry() {
    let mut s = Store::new();
    s.set("a".to_string(), bytes("1"), 0, Some(10));
    s.set("b".to_string(), bytes("2"), 0, Some(11));
    assert_eq!(sweep(&mut s, 10), SweepPhase::WaitingUntil(11));
    assert_eq!(s.get("a", 0), None);
    assert_eq!(s.get("b", 0), Some(bytes("2")));
}

#[test]
fn sweep_before_any_deadline_removes_nothing() {
    let mut s = Store::new();
    s.set("a".to_string(), bytes("1"), 0, Some(10));
    assert_eq!(sweep(&mut s, 9), SweepPhase::WaitingUntil(10));
    assert_eq!(s.get("a", 9), Some(bytes("1")));
}

#[test]
fn purge_returns_next_deadline() {
    let mut s = Store::new();
    s.set("a".to_string(), bytes("1"), 0, Some(5));
    s.set("b".to_string(), bytes("2"), 0, Some(8));
    assert_eq!(s.purge_expired_keys(6), Some(8));
    assert_eq!(s.purge_expired_keys(8), None);
}

#[test]
fn equal_deadlines_are_all_swept() {
    let mut s = Store::new();
    s.set("a".to_string(), bytes("1"), 0, Some(5));
    s.set("b".to_string(), bytes("2"), 0, Some(5));
    assert_eq!(s.next_expiration(), Some(5));
    assert_eq!(sweep(&mut s, 5), SweepPhase::WaitingForSignal);
    assert_eq!(s.get("a", 0), None);
    assert_eq!(s.get("b", 0), None);
}

#[test]
fn earlier_deadline_wakes_sweeper() {
    let mut s = Store::new();
    assert!(s.set("far".to_string(), bytes("1"), 0, Some(100)));
    assert_eq!(sweep(&mut s, 0), SweepPhase::WaitingUntil(100));
    assert!(s.set("near".to_string(), bytes("2"), 0, Some(10)));
    assert_eq!(s.next_expiration(), Some(10));
    assert_eq!(sweep(&mut s, 10), SweepPhase::WaitingUntil(100));
    assert_eq!(s.get("near", 0), None);
    assert_eq!(s.get("far", 10), Some(bytes("1")));
}

#[test]
fn later_or_equal_deadline_does_not_wake() {
    let mut s = Store::new();
    s.set("a".to_string(), bytes("1"), 0, Some(10));
    assert!(!s.set("b".to_string(), bytes("2"), 0, Some(20)));
    assert!(!s.set("c".to_string(), bytes("3"), 0, Some(10)));
}

#[test]
fn shutdown_stops_sweeps() {
    let mut s = Store::new();
    s.set("a".to_string(), bytes("1"), 0, Some(5));
    assert!(!s.is_shutdown());
    s.shutdown();
    assert!(s.is_shutdown());
    assert_eq!(sweep(&mut s, 10), SweepPhase::Stopped);
    assert_eq!(s.purge_expired_keys(10), None);
    // nothing was purged after shutdown
    assert_eq!(s.next_expiration(), Some(5));
}

#[test]
fn shut_down_store_ignores_reads_and_writes() {
    let mut s = Store::new();
    s.set("a".to_string(), bytes("1"), 0, Some(5));
    s.shutdown();
    assert_eq!(s.get("a", 0), None);
    assert!(!s.set("b".to_string(), bytes("2"), 0, Some(1)));
    s.delete("a");
    assert_eq!(s.get("b", 0), None);
    assert_eq!(s.next_expiration(), Some(5));
}

#[test]
fn deadline_adds_ttl() {
    assert_eq!(deadline_after(10, Some(5)), Some(15));
    assert_eq!(deadline_after(10, None), None);
    assert_eq!(deadline_after(0, Some(0)), Some(0));
}

#[test]
fn deadline_saturates_at_clock_end() {
    assert_eq!(deadline_after(u64::MAX - 1, Some(5)), Some(u64::MAX));
    assert_eq!(deadline_after(u64::MAX, Some(u64::MAX)), Some(u64::MAX));
}

#[test]
fn index_pops_in_deadline_order() {
    let mut ix = ExpirationIndex::new();
    ix.insert(30, "c".to_string());
    ix.insert(10, "a".to_string());
    ix.insert(20, "b".to_string());
    assert_eq!(ix.first_deadline(), Some(10));
    ix.remove(20, &"b".to_string());
    ix.remove(99, &"a".to_string());
    assert_eq!(ix.pop_first(), Some((10, "a".to_string())));
    assert_eq!(ix.pop_first(), Some((30, "c".to_string())));
    assert_eq!(ix.pop_first(), None);
    assert_eq!(ix.first_deadline(), None);
}

#[test]
fn index_orders_equal_deadlines_by_key() {
    let mut ix = ExpirationIndex::new();
    ix.insert(5, "y".to_string());
    ix.insert(7, "a".to_string());
    ix.insert(5, "x".to_string());
    assert_eq!(ix.pop_first(), Some((5, "x".to_string())));
    assert_eq!(ix.pop_first(), Some((5, "y".to_string())));
    assert_eq!(ix.pop_first(), Some((7, "a".to_string())));
}

#[test]
fn keys_compare_bytewise() {
    assert!(key_le(&"abc".to_string(), &"abd".to_string()));
    assert!(!key_le(&"abd".to_string(), &"abc".to_string()));
    assert!(key_le(&"ab".to_string(), &"abc".to_string()));
    assert!(!key_le(&"abc".to_string(), &"ab".to_string()));
    assert!(key_le(&"".to_string(), &"".to_string()));
    assert!(key_le(&"same".to_string(), &"same".to_string()));
    assert!(key_le(&"Z".to_string(), &"a".to_string()));
    assert!(key_le(&"z".to_string(), &"\u{e9}".to_string()));
}
