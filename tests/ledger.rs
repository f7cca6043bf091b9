use rinha::ledger::{Payment, Store, DEFAULT_PROCESSOR, FALLBACK_PROCESSOR};

fn entry(amount: u64, requested_at: i64, processor_id: u8) -> Payment {
    Payment { amount, requested_at, processor_id }
}

#[test]
fn summary_range_is_inclusive() {
    let mut store = Store::new();
    assert!(store.insert(entry(1000, 100, DEFAULT_PROCESSOR)));
    assert!(store.insert(entry(2000, 200, DEFAULT_PROCESSOR)));
    assert!(store.insert(entry(3000, 300, DEFAULT_PROCESSOR)));

    let s = store.get((150, 250));
    assert_eq!(s.default.count, 1);
    assert_eq!(s.default.amount, 2000);
    assert_eq!(s.fallback.count, 0);

    let s = store.get((200, 300));
    assert_eq!(s.default.count, 2);
    assert_eq!(s.default.amount, 5000);
}

#[test]
fn point_range_includes_exact_time() {
    let mut store = Store::new();
    assert!(store.insert(entry(700, 42, FALLBACK_PROCESSOR)));
    assert!(store.insert(entry(300, 42, DEFAULT_PROCESSOR)));
    assert!(store.insert(entry(900, 43, DEFAULT_PROCESSOR)));
    let s = store.get((42, 42));
    assert_eq!((s.default.count, s.default.amount), (1, 300));
    assert_eq!((s.fallback.count, s.fallback.amount), (1, 700));
}

#[test]
fn reversed_range_is_empty() {
    let mut store = Store::new();
    assert!(store.insert(entry(100, 10, DEFAULT_PROCESSOR)));
    assert!(store.insert(entry(100, 20, FALLBACK_PROCESSOR)));
    let s = store.get((20, 10));
    assert_eq!((s.default.count, s.default.amount, s.fallback.count, s.fallback.amount), (0, 0, 0, 0));
}

#[test]
fn purge_then_widest_range_is_zero() {
    let mut store = Store::new();
    for i in 0..10i64 {
        let id = if i % 2 == 0 { DEFAULT_PROCESSOR } else { FALLBACK_PROCESSOR };
        assert!(store.insert(entry(1050, i * 1000, id)));
    }
    assert_eq!(store.get((0, i64::MAX)).default.count, 5);
    store.purge();
    assert_eq!(store.len(), 0);
    let s = store.get((i64::MIN, i64::MAX));
    assert_eq!((s.default.count, s.default.amount, s.fallback.count, s.fallback.amount), (0, 0, 0, 0));
}

#[test]
fn late_entry_is_appended() {
    let mut store = Store::new();
    assert!(store.insert(entry(1, 100, DEFAULT_PROCESSOR)));
    assert!(store.insert(entry(2, 300, DEFAULT_PROCESSOR)));
    assert!(store.insert(entry(4, 200, FALLBACK_PROCESSOR)));
    assert_eq!(store.len(), 3);
    assert_eq!(store.total_amount(), 7);
    let s = store.get((100, 300));
    assert_eq!((s.default.count, s.default.amount), (2, 3));
    assert_eq!((s.fallback.count, s.fallback.amount), (1, 4));
}

#[test]
fn counts_add_up_over_the_range() {
    let mut store = Store::new();
    let times = [1i64, 3, 3, 5, 7, 9, 11];
    for (k, t) in times.iter().enumerate() {
        let id = if k % 3 == 0 { FALLBACK_PROCESSOR } else { DEFAULT_PROCESSOR };
        assert!(store.insert(entry(100 * (k as u64 + 1), *t, id)));
    }
    let s = store.get((3, 9));
    let in_range: Vec<(usize, &i64)> = times.iter().enumerate().filter(|(_, t)| **t >= 3 && **t <= 9).collect();
    assert_eq!(s.default.count + s.fallback.count, in_range.len() as u64);
    let total: u64 = in_range.iter().map(|(k, _)| 100 * (*k as u64 + 1)).sum();
    assert_eq!(s.default.amount + s.fallback.amount, total);
}

#[test]
fn overflowing_amount_is_refused() {
    let mut store = Store::new();
    assert!(store.insert(entry(u64::MAX - 10, 1, DEFAULT_PROCESSOR)));
    assert!(!store.insert(entry(11, 2, DEFAULT_PROCESSOR)));
    assert_eq!(store.len(), 1);
    assert!(store.insert(entry(10, 2, FALLBACK_PROCESSOR)));
    assert_eq!(store.total_amount(), u64::MAX);
}
