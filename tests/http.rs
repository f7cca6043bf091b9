use rinha::http::{
    buffer_index, dispatch, json_body, ok_response, pick_backend, response_head, route, Dispatch,
    Route, BUFFER_POOL_SIZE,
};

#[test]
fn api_routes_by_prefix() {
    assert_eq!(route(b"GET /payments-summary?from=x"), Route::Summary);
    assert_eq!(route(b"POST /payments HTTP/1.1"), Route::Payment);
    assert_eq!(route(b"POST /purge-payments HTTP/1.1"), Route::Purge);
    assert_eq!(route(b"PUT /x HTTP/1.1"), Route::Invalid);
    assert_eq!(route(b"POST"), Route::Invalid);
    assert_eq!(route(b""), Route::Invalid);
}

#[test]
fn balancer_dispatches_by_first_byte() {
    assert_eq!(dispatch(b"GET /"), Dispatch::Forward);
    assert_eq!(dispatch(b"POST /payments"), Dispatch::AcknowledgeThenForward);
    assert_eq!(dispatch(b"DELETE /"), Dispatch::Drop);
    assert_eq!(dispatch(b""), Dispatch::Drop);
}

#[test]
fn round_robin_backends_and_buffers() {
    assert_eq!(pick_backend(0, 3), 0);
    assert_eq!(pick_backend(7, 3), 1);
    assert_eq!(buffer_index(1024), 0);
    assert_eq!(buffer_index(1030), 6);
    assert_eq!(BUFFER_POOL_SIZE, 1024);
}

#[test]
fn ok_response_is_empty_200() {
    assert_eq!(ok_response(), b"HTTP/1.1 200 OK\r\nContent-Length: 0\r\n\r\n".to_vec());
}

#[test]
fn response_head_carries_length() {
    assert_eq!(response_head(107), b"HTTP/1.1 200 OK\r\nContent-Length: 107\r\n\r\n".to_vec());
    assert_eq!(response_head(0), b"HTTP/1.1 200 OK\r\nContent-Length: 0\r\n\r\n".to_vec());
}

#[test]
fn json_body_spans_outer_braces() {
    let req = b"POST /payments HTTP/1.1\r\nContent-Length: 40\r\n\r\n{\"correlationId\":\"c1\",\"amount\":{}}\0\0";
    let (start, end) = json_body(req).expect("body");
    assert_eq!(req[start], b'{');
    assert_eq!(req[end], b'}');
    assert_eq!(&req[start..end + 1], b"{\"correlationId\":\"c1\",\"amount\":{}}");
}

#[test]
fn json_body_missing_braces() {
    assert_eq!(json_body(b"POST /payments\r\n\r\n"), None);
    assert_eq!(json_body(b"{ no close"), None);
    assert_eq!(json_body(b"} then {"), None);
}
