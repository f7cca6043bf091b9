use rinha::codec::{decode, encode, Request, WorkerRequest};
use rinha::frame::{
    encode_frame, frame_fits_at, frame_request, next_request, payload_range, FrameCursor, Next, Read,
};

fn round_trip(req: &WorkerRequest) -> WorkerRequest {
    let frame = frame_request(req);
    assert!(frame_fits_at(&frame, 0));
    match next_request(&frame, 0) {
        Next::Request(back, next) => {
            assert_eq!(next, frame.len());
            back
        }
        other => panic!("unexpected {:?}", other),
    }
}

#[test]
fn summary_round_trip() {
    match round_trip(&WorkerRequest::Summary((-5, i64::MAX))) {
        WorkerRequest::Summary(range) => assert_eq!(range, (-5, i64::MAX)),
        other => panic!("unexpected {:?}", other),
    }
}

#[test]
fn payment_round_trip() {
    let req = WorkerRequest::Payment(Request { correlation_id: b"c1-4a7e".to_vec(), amount: 1050 });
    match round_trip(&req) {
        WorkerRequest::Payment(p) => {
            assert_eq!(p.correlation_id, b"c1-4a7e".to_vec());
            assert_eq!(p.amount, 1050);
        }
        other => panic!("unexpected {:?}", other),
    }
}

#[test]
fn purge_round_trip() {
    assert!(matches!(round_trip(&WorkerRequest::PurgeDb), WorkerRequest::PurgeDb));
}

#[test]
fn wire_format_is_tagged_little_endian() {
    let bytes = encode(&WorkerRequest::Summary((1, 258)));
    assert_eq!(bytes, vec![0, 1, 0, 0, 0, 0, 0, 0, 0, 2, 1, 0, 0, 0, 0, 0, 0]);
    let bytes = encode(&WorkerRequest::Payment(Request { correlation_id: b"ab".to_vec(), amount: 7 }));
    assert_eq!(bytes, vec![1, 2, 0, 0, 0, 0, 0, 0, 0, b'a', b'b', 7, 0, 0, 0, 0, 0, 0, 0]);
    assert_eq!(encode(&WorkerRequest::PurgeDb), vec![2]);
    assert_eq!(encode_frame(&[9, 8]), vec![0, 0, 0, 0, 0, 0, 0, 2, 9, 8]);
}

#[test]
fn malformed_payloads_are_rejected() {
    assert!(decode(&[]).is_none());
    assert!(decode(&[3]).is_none());
    assert!(decode(&[2, 0]).is_none());
    assert!(decode(&[0, 1, 2]).is_none());
    assert!(decode(&[1, 5, 0, 0, 0, 0, 0, 0, 0, 1, 2, 3, 4, 5, 6, 7, 8]).is_none());
}

#[test]
fn exact_buffer_decodes_and_one_short_does_not() {
    let frame = frame_request(&WorkerRequest::Summary((100, 200)));
    assert!(frame_fits_at(&frame, 0));
    assert_eq!(payload_range(&frame), Some((8, frame.len())));
    let short = &frame[..frame.len() - 1];
    assert!(!frame_fits_at(short, 0));
    assert_eq!(payload_range(short), None);
}

#[test]
fn batch_ends_at_zero_length() {
    let mut buf = vec![0u8; 1024];
    let a = frame_request(&WorkerRequest::Payment(Request { correlation_id: b"x".to_vec(), amount: 1 }));
    let b = frame_request(&WorkerRequest::PurgeDb);
    buf[..a.len()].copy_from_slice(&a);
    buf[a.len()..a.len() + b.len()].copy_from_slice(&b);
    let mut offset = 0;
    let mut seen = 0;
    loop {
        assert!(frame_fits_at(&buf, offset));
        match next_request(&buf, offset) {
            Next::End => break,
            Next::Request(_, next) => {
                seen += 1;
                offset = next;
            }
            Next::Invalid(_) => panic!("invalid frame"),
        }
    }
    assert_eq!(seen, 2);
    assert_eq!(offset, a.len() + b.len());
}

#[test]
fn invalid_payload_is_skipped() {
    let frame = encode_frame(&[7, 7, 7]);
    match next_request(&frame, 0) {
        Next::Invalid(next) => assert_eq!(next, frame.len()),
        other => panic!("unexpected {:?}", other),
    }
}

#[test]
fn frame_past_the_end_does_not_fit() {
    assert!(!frame_fits_at(&[0, 0, 0, 0, 0, 0, 0], 0));
    assert!(!frame_fits_at(&[0, 0, 0, 0, 0, 0, 0, 5, 1, 2], 0));
    assert!(frame_fits_at(&[0u8; 8], 0));
    assert!(!frame_fits_at(&[0u8; 8], 9));
}

#[test]
fn exhausted_buffer_ends_batch() {
    let frame = frame_request(&WorkerRequest::PurgeDb);
    let next = match next_request(&frame, 0) {
        Next::Request(_, next) => next,
        other => panic!("unexpected {:?}", other),
    };
    assert_eq!(next, frame.len());
    assert!(frame_fits_at(&frame, next));
    assert!(matches!(next_request(&frame, next), Next::End));
    assert!(!frame_fits_at(&frame, next - 1));
}

#[test]
fn cursor_reads_a_batch_and_skips_malformed_frames() {
    let mut buf = vec![0u8; 1024];
    let mut at = 0;
    for frame in [
        frame_request(&WorkerRequest::Summary((1, 2))),
        encode_frame(&[9, 9]),
        frame_request(&WorkerRequest::PurgeDb),
    ] {
        buf[at..at + frame.len()].copy_from_slice(&frame);
        at += frame.len();
    }
    let mut cursor = FrameCursor::new();
    assert!(matches!(cursor.next(&buf), Read::Request(WorkerRequest::Summary((1, 2)))));
    assert!(matches!(cursor.next(&buf), Read::Request(WorkerRequest::PurgeDb)));
    assert!(matches!(cursor.next(&buf), Read::End));
    assert!(matches!(cursor.next(&buf), Read::Request(WorkerRequest::Summary((1, 2)))));
}

#[test]
fn cursor_refuses_overrun() {
    let frame = frame_request(&WorkerRequest::Summary((1, 2)));
    let cursor = FrameCursor::new();
    assert!(!cursor.can_read(&frame[..frame.len() - 1]));
    assert!(cursor.can_read(&frame));
    let mut cursor = cursor;
    assert!(matches!(cursor.next(&frame), Read::Request(_)));
    assert!(cursor.can_read(&frame));
    assert!(matches!(cursor.next(&frame), Read::End));
}
