use vstd::prelude::*;

use crate::bytes::{le_bytes, le_value, lemma_bytes_of_value, lemma_le_round_trip, push_le, read_le};

verus! {

/// Leading byte of a range query.
pub const SUMMARY_TAG: u8 = 0;

/// Leading byte of a payment to dispatch.
pub const PAYMENT_TAG: u8 = 1;

/// Leading byte of a request to empty the ledger.
pub const PURGE_TAG: u8 = 2;

/// A payment accepted from a client, not yet acknowledged by any processor.
#[derive(Debug)]
pub struct Request {
    /// Client-supplied identifier, carried through to the processor untouched.
    pub correlation_id: Vec<u8>,
    /// Amount in cents.
    pub amount: u64,
}

pub struct RequestView {
    pub correlation_id: Seq<u8>,
    pub amount: u64,
}

impl View for Request {
    type V = RequestView;

    open spec fn view(&self) -> RequestView {
        RequestView { correlation_id: self.correlation_id@, amount: self.amount }
    }
}

/// What the worker is asked over its socket.
#[derive(Debug)]
pub enum WorkerRequest {
    /// Summary of the ledger over `[from, to]`, in microseconds.
    Summary((i64, i64)),
    /// Payment to forward to a processor.
    Payment(Request),
    /// Empty the ledger.
    PurgeDb,
}

pub enum WorkerRequestView {
    Summary((i64, i64)),
    Payment(RequestView),
    PurgeDb,
}

impl View for WorkerRequest {
    type V = WorkerRequestView;

    open spec fn view(&self) -> WorkerRequestView {
        match self {
            WorkerRequest::Summary(range) => WorkerRequestView::Summary(*range),
            WorkerRequest::Payment(r) => WorkerRequestView::Payment(r@),
            WorkerRequest::PurgeDb => WorkerRequestView::PurgeDb,
        }
    }
}

/// A request whose payload length can be written in 64 bits.
pub open spec fn encodable(v: WorkerRequestView) -> bool {
    match v {
        WorkerRequestView::Payment(r) => r.correlation_id.len() + 17 <= u64::MAX,
        _ => true,
    }
}

/// The payload bytes of a request: its tag, then each field in fixed-width
/// little-endian form; the identifier is preceded by its length.
pub open spec fn encoded(v: WorkerRequestView) -> Seq<u8> {
    match v {
        WorkerRequestView::Summary((from, to)) => seq![SUMMARY_TAG] + le_bytes(from as u64)
            + le_bytes(to as u64),
        WorkerRequestView::Payment(r) => seq![PAYMENT_TAG] + le_bytes(
            r.correlation_id.len() as u64,
        ) + r.correlation_id + le_bytes(r.amount),
        WorkerRequestView::PurgeDb => seq![PURGE_TAG],
    }
}

/// The request that the payload `b` holds, if it is well formed.
pub open spec fn parsed(b: Seq<u8>) -> Option<WorkerRequestView> {
    if b.len() == 0 {
        None
    } else if b[0] == SUMMARY_TAG {
        if b.len() == 17 {
            Some(
                WorkerRequestView::Summary(
                    (le_value(b.subrange(1, 9)) as i64, le_value(b.subrange(9, 17)) as i64),
                ),
            )
        } else {
            None
        }
    } else if b[0] == PAYMENT_TAG {
        if b.len() >= 17 && le_value(b.subrange(1, 9)) == b.len() - 17 {
            let n = b.len() - 17;
            Some(
                WorkerRequestView::Payment(
                    RequestView {
                        correlation_id: b.subrange(9, 9 + n),
                        amount: le_value(b.subrange(9 + n, 17 + n)),
                    },
                ),
            )
        } else {
            None
        }
    } else if b[0] == PURGE_TAG {
        if b.len() == 1 {
            Some(WorkerRequestView::PurgeDb)
        } else {
            None
        }
    } else {
        None
    }
}

pub open spec fn parsed_as(r: Option<WorkerRequest>) -> Option<WorkerRequestView> {
    match r {
        Some(x) => Some(x@),
        None => None,
    }
}

/// The payload bytes of `req`.
pub fn encode(req: &WorkerRequest) -> (r: Vec<u8>)
    ensures
        r@ == encoded(req@),
{
    let mut out: Vec<u8> = Vec::new();
    match req {
        WorkerRequest::Summary((from, to)) => {
            out.push(SUMMARY_TAG);
            push_le(&mut out, *from as u64);
            push_le(&mut out, *to as u64);
        },
        WorkerRequest::Payment(p) => {
            out.push(PAYMENT_TAG);
            push_le(&mut out, p.correlation_id.len() as u64);
            out.extend_from_slice(p.correlation_id.as_slice());
            push_le(&mut out, p.amount);
        },
        WorkerRequest::PurgeDb => {
            out.push(PURGE_TAG);
        },
    }
    assert(out@ =~= encoded(req@));
    out
}

/// The request held by the payload `b`, or `None` when `b` is not a well-formed payload.
pub fn decode(b: &[u8]) -> (r: Option<WorkerRequest>)
    ensures
        parsed_as(r) == parsed(b@),
{
    let len = b.len();
    if len == 0 {
        return None;
    }
    let tag = b[0];
    if tag == SUMMARY_TAG {
        if len != 17 {
            return None;
        }
        let from = #[verifier::truncate] (read_le(b, 1) as i64);
        let to = #[verifier::truncate] (read_le(b, 9) as i64);
        Some(WorkerRequest::Summary((from, to)))
    } else if tag == PAYMENT_TAG {
        if len < 17 {
            return None;
        }
        let n = read_le(b, 1);
        if n != (len - 17) as u64 {
            return None;
        }
        let n = len - 17;
        let mut id: Vec<u8> = Vec::new();
        id.extend_from_slice(&b[9..9 + n]);
        let amount = read_le(b, 9 + n);
        assert(id@ =~= b@.subrange(9, 9 + n as int));
        let r = Request { correlation_id: id, amount };
        assert(r@ == RequestView {
            correlation_id: b@.subrange(9, 9 + n as int),
            amount: le_value(b@.subrange(9 + n as int, 17 + n as int)),
        });
        Some(WorkerRequest::Payment(r))
    } else if tag == PURGE_TAG {
        if len != 1 {
            return None;
        }
        Some(WorkerRequest::PurgeDb)
    } else {
        None
    }
}

/// Decoding the payload written for a request gives that request back.
pub proof fn decode_of_encode(v: WorkerRequestView)
    requires
        encodable(v),
    ensures
        parsed(encoded(v)) == Some(v),
        0 < encoded(v).len() <= u64::MAX,
{
    let b = encoded(v);
    match v {
        WorkerRequestView::Summary((from, to)) => {
            lemma_le_round_trip(from as u64);
            lemma_le_round_trip(to as u64);
            assert(b.subrange(1, 9) =~= le_bytes(from as u64));
            assert(b.subrange(9, 17) =~= le_bytes(to as u64));
            assert((from as u64) as i64 == from) by (bit_vector);
            assert((to as u64) as i64 == to) by (bit_vector);
        },
        WorkerRequestView::Payment(r) => {
            let n = r.correlation_id.len() as int;
            lemma_le_round_trip(n as u64);
            lemma_le_round_trip(r.amount);
            assert(b.subrange(1, 9) =~= le_bytes(n as u64));
            assert(b.subrange(9, 9 + n) =~= r.correlation_id);
            assert(b.subrange(9 + n, 17 + n) =~= le_bytes(r.amount));
        },
        WorkerRequestView::PurgeDb => {},
    }
}

/// A well-formed payload is exactly the bytes written for the request it holds:
/// every request has one encoding.
pub proof fn encode_of_decode(b: Seq<u8>)
    requires
        parsed(b) is Some,
    ensures
        encoded(parsed(b)->0) == b,
{
    if b[0] == SUMMARY_TAG {
        let x = le_value(b.subrange(1, 9));
        let y = le_value(b.subrange(9, 17));
        lemma_bytes_of_value(b.subrange(1, 9));
        lemma_bytes_of_value(b.subrange(9, 17));
        assert(((x as i64) as u64) == x) by (bit_vector);
        assert(((y as i64) as u64) == y) by (bit_vector);
        assert(encoded(parsed(b)->0) =~= b);
    } else if b[0] == PAYMENT_TAG {
        let n = b.len() - 17;
        lemma_bytes_of_value(b.subrange(1, 9));
        lemma_bytes_of_value(b.subrange(9 + n, 17 + n));
        assert(encoded(parsed(b)->0) =~= b);
    } else {
        assert(encoded(parsed(b)->0) =~= b);
    }
}

} // verus!
