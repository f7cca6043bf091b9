use vstd::prelude::*;

use crate::codec::Request;
use crate::ledger::{
    total_cents, valid_processor, Payment, Store, DEFAULT_PROCESSOR, FALLBACK_PROCESSOR,
};

verus! {

/// How much slower than the fallback, in microseconds, the default processor may be
/// and still be chosen, unless configured otherwise.
pub const DEFAULT_MICROS_CUTOUT: u32 = 100_000;

/// Seconds between two resets of the observed latencies, unless configured otherwise.
pub const DEFAULT_RESET_TIMEOUT: u64 = 6;

/// Number of concurrent dispatcher workers, unless configured otherwise.
pub const DEFAULT_HTTP_WORKERS: usize = 16;

/// Latency recorded for a processor whose last send failed.
pub const FAILED_LATENCY: u32 = u32::MAX;

/// Latency that a periodic reset stores for both processors.
pub const RESET_LATENCY: u32 = 0;

/// The default processor is preferred unless it is slower than the fallback by more
/// than the cutout.
pub open spec fn prefers_default(default_latency: u32, fallback_latency: u32, cutout: u32) -> bool {
    default_latency <= fallback_latency + cutout
}

/// Once a reset has cleared both latencies, the default processor is chosen again,
/// whatever the cutout.
pub proof fn reset_prefers_default(micros_cutout: u32)
    ensures
        prefers_default(RESET_LATENCY, RESET_LATENCY, micros_cutout),
{
}

/// Chooses the processor for the next send from the last latencies observed.
pub fn get_client(default_latency: u32, fallback_latency: u32, micros_cutout: u32) -> (id: u8)
    ensures
        id == (if prefers_default(default_latency, fallback_latency, micros_cutout) {
            DEFAULT_PROCESSOR
        } else {
            FALLBACK_PROCESSOR
        }),
        valid_processor(id),
{
    if (default_latency as u64) <= (fallback_latency as u64) + (micros_cutout as u64) {
        DEFAULT_PROCESSOR
    } else {
        FALLBACK_PROCESSOR
    }
}

/// The latency to record after a send that took `elapsed_micros`: the time taken,
/// capped below `FAILED_LATENCY`, when the processor acknowledged, else `FAILED_LATENCY`.
pub fn observed_latency(acknowledged: bool, elapsed_micros: u128) -> (r: u32)
    ensures
        acknowledged ==> r == (if elapsed_micros < FAILED_LATENCY {
            elapsed_micros as u32
        } else {
            (FAILED_LATENCY - 1) as u32
        }),
        acknowledged ==> r < FAILED_LATENCY,
        !acknowledged ==> r == FAILED_LATENCY,
{
    if !acknowledged {
        FAILED_LATENCY
    } else if elapsed_micros < FAILED_LATENCY as u128 {
        elapsed_micros as u32
    } else {
        FAILED_LATENCY - 1
    }
}

/// The ledger entry for `req`, sent at `requested_at` and acknowledged by `processor_id`.
pub fn to_entry(req: &Request, requested_at: i64, processor_id: u8) -> (p: Payment)
    ensures
        p == (Payment { amount: req.amount, requested_at, processor_id }),
{
    Payment { amount: req.amount, requested_at, processor_id }
}

/// What became of a payment after one send.
#[derive(Debug)]
pub enum Settled {
    /// Acknowledged and recorded in the ledger.
    Recorded,
    /// Not acknowledged: to be queued again.
    Requeue(Request),
    /// Acknowledged, but its amount would take the ledger's total past `u64::MAX` cents.
    Refused(Request),
}

/// Settles one send of `req` to `processor_id`, stamped `requested_at`: an acknowledged
/// payment is appended to the ledger; a failed one leaves the ledger as it was and goes back
/// to the queue.
pub fn settle(
    store: &mut Store,
    req: Request,
    processor_id: u8,
    requested_at: i64,
    acknowledged: bool,
) -> (r: Settled)
    requires
        valid_processor(processor_id),
    ensures
        !acknowledged ==> r == Settled::Requeue(req) && final(store)@ == old(store)@,
        acknowledged && total_cents(old(store)@) + req.amount <= u64::MAX ==> {
            &&& r is Recorded
            &&& final(store)@ == old(store)@.push(
                Payment { amount: req.amount, requested_at, processor_id },
            )
        },
        acknowledged && total_cents(old(store)@) + req.amount > u64::MAX ==> r == Settled::Refused(
            req,
        ) && final(store)@ == old(store)@,
{
    if !acknowledged {
        return Settled::Requeue(req);
    }
    let entry = to_entry(&req, requested_at, processor_id);
    if store.insert(entry) {
        Settled::Recorded
    } else {
        Settled::Refused(req)
    }
}

} // verus!
