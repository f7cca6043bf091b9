use rinha::codec::Request;
use rinha::dispatch::{
    get_client, observed_latency, settle, to_entry, Settled, DEFAULT_MICROS_CUTOUT, FAILED_LATENCY,
    RESET_LATENCY,
};
use rinha::ledger::{Store, DEFAULT_PROCESSOR, FALLBACK_PROCESSOR};

fn request(id: &str, amount: u64) -> Request {
    Request { correlation_id: id.as_bytes().to_vec(), amount }
}

#[test]
fn default_is_preferred_within_cutout() {
    assert_eq!(get_client(0, 0, DEFAULT_MICROS_CUTOUT), DEFAULT_PROCESSOR);
    assert_eq!(get_client(110_000, 10_000, 100_000), DEFAULT_PROCESSOR);
    assert_eq!(get_client(110_001, 10_000, 100_000), FALLBACK_PROCESSOR);
}

#[test]
fn slow_default_steers_to_fallback() {
    assert_eq!(get_client(500_000, 10_000, 100_000), FALLBACK_PROCESSOR);
}

#[test]
fn reset_brings_back_default() {
    assert_eq!(get_client(FAILED_LATENCY, 0, DEFAULT_MICROS_CUTOUT), FALLBACK_PROCESSOR);
    assert_eq!(get_client(RESET_LATENCY, RESET_LATENCY, DEFAULT_MICROS_CUTOUT), DEFAULT_PROCESSOR);
}

#[test]
fn cutout_sum_does_not_wrap() {
    assert_eq!(get_client(u32::MAX, u32::MAX, u32::MAX), DEFAULT_PROCESSOR);
    assert_eq!(get_client(u32::MAX - 1, 1, u32::MAX - 3), FALLBACK_PROCESSOR);
}

#[test]
fn latencies_stay_in_their_ranges() {
    assert_eq!(observed_latency(true, 1234), 1234);
    assert_eq!(observed_latency(true, 0), 0);
    assert_eq!(observed_latency(true, u32::MAX as u128), u32::MAX - 1);
    assert_eq!(observed_latency(true, u128::MAX), u32::MAX - 1);
    assert_eq!(observed_latency(false, 10), u32::MAX);
    assert_eq!(RESET_LATENCY, 0);
}

#[test]
fn failed_send_leaves_no_entry() {
    let mut store = Store::new();
    match settle(&mut store, request("c1", 1050), DEFAULT_PROCESSOR, 10, false) {
        Settled::Requeue(r) => {
            assert_eq!(r.correlation_id, b"c1".to_vec());
            assert_eq!(r.amount, 1050);
        }
        other => panic!("unexpected {:?}", other),
    }
    assert_eq!(store.len(), 0);
}

#[test]
fn requeued_payment_lands_on_fallback() {
    let mut store = Store::new();
    let mut latencies = [0u32, 0u32];
    let mut pending = vec![request("c1", 1999)];
    let mut attempts = 0;
    while let Some(req) = pending.pop() {
        attempts += 1;
        let id = get_client(latencies[0], latencies[1], DEFAULT_MICROS_CUTOUT);
        let ok = id == FALLBACK_PROCESSOR;
        latencies[(id - 1) as usize] = observed_latency(ok, 900);
        match settle(&mut store, req, id, 77, ok) {
            Settled::Recorded => {}
            Settled::Requeue(r) => pending.push(r),
            Settled::Refused(_) => panic!("refused"),
        }
    }
    assert_eq!(attempts, 2);
    assert_eq!(store.len(), 1);
    let s = store.get((i64::MIN, i64::MAX));
    assert_eq!((s.default.count, s.fallback.count, s.fallback.amount), (0, 1, 1999));
}

#[test]
fn acknowledged_send_records_request_amount() {
    let mut store = Store::new();
    let r = request("c9", 1234);
    let e = to_entry(&r, 55, FALLBACK_PROCESSOR);
    assert_eq!((e.amount, e.requested_at, e.processor_id), (1234, 55, FALLBACK_PROCESSOR));
    assert!(matches!(settle(&mut store, r, FALLBACK_PROCESSOR, 55, true), Settled::Recorded));
    let s = store.get((55, 55));
    assert_eq!((s.fallback.count, s.fallback.amount), (1, 1234));
}

#[test]
fn overflowing_payment_is_refused() {
    let mut store = Store::new();
    assert!(matches!(settle(&mut store, request("a", u64::MAX), DEFAULT_PROCESSOR, 1, true), Settled::Recorded));
    assert!(matches!(settle(&mut store, request("b", 1), DEFAULT_PROCESSOR, 2, true), Settled::Refused(_)));
    assert_eq!(store.len(), 1);
}
