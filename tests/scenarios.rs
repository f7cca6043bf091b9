use rinha::codec::{Request, WorkerRequest};
use rinha::dispatch::{get_client, observed_latency, settle, Settled, DEFAULT_MICROS_CUTOUT, RESET_LATENCY};
use rinha::frame::{frame_request, next_request, payload_range, Next};
use rinha::http::{json_body, route, Route};
use rinha::ledger::{Store, DEFAULT_PROCESSOR, FALLBACK_PROCESSOR};
use rinha::query::get_query;
use rinha::worker::process;

const WIDEST: &[u8] = b"GET /payments-summary?from=1970-01-01T00:00:00.000Z&to=2999-01-01T00:00:00.000Z HTTP/1.1\r\n\r\n";

fn worker_receives(req: WorkerRequest) -> WorkerRequest {
    let frame = frame_request(&req);
    match next_request(&frame, 0) {
        Next::Request(req, _) => req,
        other => panic!("unexpected {:?}", other),
    }
}

fn summary_body(store: &Store) -> String {
    assert_eq!(route(WIDEST), Route::Summary);
    let query = get_query(WIDEST).expect("query");
    let reply = process(store, query);
    let (start, end) = payload_range(&reply).expect("framed reply");
    String::from_utf8(reply[start..end].to_vec()).expect("utf-8")
}

#[test]
fn happy_path_default() {
    let post = b"POST /payments HTTP/1.1\r\nContent-Type: application/json\r\n\r\n{\"correlationId\":\"c1\",\"amount\":10.50}";
    assert_eq!(route(post), Route::Payment);
    let (start, end) = json_body(post).expect("body");
    assert_eq!(&post[start..end + 1], b"{\"correlationId\":\"c1\",\"amount\":10.50}");

    let req = match worker_receives(WorkerRequest::Payment(Request { correlation_id: b"c1".to_vec(), amount: 1050 })) {
        WorkerRequest::Payment(req) => req,
        other => panic!("unexpected {:?}", other),
    };

    let mut store = Store::new();
    let id = get_client(RESET_LATENCY, RESET_LATENCY, DEFAULT_MICROS_CUTOUT);
    assert_eq!(id, DEFAULT_PROCESSOR);
    assert!(matches!(settle(&mut store, req, id, 1_700_000_000_000_000, true), Settled::Recorded));

    assert_eq!(
        summary_body(&store),
        r#"{"default":{"totalRequests":1,"totalAmount":10.5},"fallback":{"totalRequests":0,"totalAmount":0.0}}"#
    );
}

#[test]
fn fallback_selection_steady_state() {
    let mut store = Store::new();
    let mut latency = [RESET_LATENCY, RESET_LATENCY];
    for k in 0..100u64 {
        let id = get_client(latency[0], latency[1], 100_000);
        let elapsed = if id == DEFAULT_PROCESSOR { 500_000 } else { 10_000 };
        latency[(id - 1) as usize] = observed_latency(true, elapsed);
        let req = Request { correlation_id: format!("c{k}").into_bytes(), amount: 100 };
        assert!(matches!(settle(&mut store, req, id, k as i64, true), Settled::Recorded));
    }
    let s = store.get((0, i64::MAX));
    assert_eq!(s.default.count + s.fallback.count, 100);
    assert!(s.fallback.count >= 90);
}

#[test]
fn purge_after_payments() {
    let mut store = Store::new();
    for k in 0..5i64 {
        let req = Request { correlation_id: vec![b'a' + k as u8], amount: 250 };
        let id = if k % 2 == 0 { DEFAULT_PROCESSOR } else { FALLBACK_PROCESSOR };
        assert!(matches!(settle(&mut store, req, id, k, true), Settled::Recorded));
    }
    assert!(matches!(worker_receives(WorkerRequest::PurgeDb), WorkerRequest::PurgeDb));
    store.purge();
    assert_eq!(
        summary_body(&store),
        r#"{"default":{"totalRequests":0,"totalAmount":0.0},"fallback":{"totalRequests":0,"totalAmount":0.0}}"#
    );
}
