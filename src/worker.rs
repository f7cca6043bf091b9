use vstd::prelude::*;

use crate::frame::{encode_frame, framed};
use crate::ledger::{
    cents_in, count_in, ordered, summarizes_span, Store, DEFAULT_PROCESSOR, FALLBACK_PROCESSOR,
};
use crate::summary::{build_payload, summary_json, ProcessedData, Summary};

verus! {

/// The summary of the entries `s` over `[from, to]`.
pub open spec fn summary_of(s: Seq<crate::ledger::Payment>, from: i64, to: i64) -> Summary {
    Summary {
        default: ProcessedData {
            count: count_in(s, from, to, DEFAULT_PROCESSOR) as u64,
            amount: cents_in(s, from, to, DEFAULT_PROCESSOR) as u64,
        },
        fallback: ProcessedData {
            count: count_in(s, from, to, FALLBACK_PROCESSOR) as u64,
            amount: cents_in(s, from, to, FALLBACK_PROCESSOR) as u64,
        },
    }
}

/// Answers a summary query: the framed JSON body of `Store::get` over `[from, to]`,
/// which on a ledger ordered by request time is the summary of the whole range.
pub fn process(store: &Store, query: (i64, i64)) -> (r: Vec<u8>)
    ensures
        ordered(store@) ==> r@ == framed(summary_json(summary_of(store@, query.0, query.1))),
        exists|s: Summary, a: int, b: int|
            {
                &&& r@ == framed(summary_json(s))
                &&& 0 <= a <= b <= store@.len()
                &&& summarizes_span(s, store@, query.0, query.1, a, b)
            },
{
    let summary = store.get(query);
    proof {
        if ordered(store@) {
            assert(summary == summary_of(store@, query.0, query.1));
        }
    }
    let payload = build_payload(&summary);
    let _len = payload.len();
    encode_frame(payload.as_slice())
}

} // verus!
