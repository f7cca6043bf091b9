use vstd::prelude::*;

use crate::summary::Summary;

verus! {

/// Identifier of the preferred, cheaper processor.
pub const DEFAULT_PROCESSOR: u8 = 1;

/// Identifier of the more expensive processor used when the default one lags.
pub const FALLBACK_PROCESSOR: u8 = 2;

/// One payment acknowledged by a processor.
#[derive(Clone, Copy, Debug, PartialEq, Eq, Structural)]
pub struct Payment {
    /// Amount in cents.
    pub amount: u64,
    /// Time the payment was sent to the processor, in microseconds since the epoch.
    pub requested_at: i64,
    /// Processor that acknowledged it.
    pub processor_id: u8,
}

pub open spec fn valid_processor(id: u8) -> bool {
    id == DEFAULT_PROCESSOR || id == FALLBACK_PROCESSOR
}

/// Entries are nondecreasing in request time.
pub open spec fn ordered(s: Seq<Payment>) -> bool {
    forall|i: int, j: int| 0 <= i <= j < s.len() ==> s[i].requested_at <= s[j].requested_at
}

/// Every entry belongs to one of the two processors.
pub open spec fn partitioned(s: Seq<Payment>) -> bool {
    forall|i: int| 0 <= i < s.len() ==> valid_processor(#[trigger] s[i].processor_id)
}

pub open spec fn within(p: Payment, from: i64, to: i64) -> bool {
    from <= p.requested_at <= to
}

/// Number of entries of processor `id` requested in `[from, to]`.
pub open spec fn count_in(s: Seq<Payment>, from: i64, to: i64, id: u8) -> nat
    decreases s.len(),
{
    if s.len() == 0 {
        0
    } else {
        count_in(s.drop_last(), from, to, id) + if within(s.last(), from, to)
            && s.last().processor_id == id {
            1nat
        } else {
            0nat
        }
    }
}

/// Sum of the amounts, in cents, of the entries of processor `id` requested in `[from, to]`.
pub open spec fn cents_in(s: Seq<Payment>, from: i64, to: i64, id: u8) -> nat
    decreases s.len(),
{
    if s.len() == 0 {
        0
    } else {
        cents_in(s.drop_last(), from, to, id) + if within(s.last(), from, to)
            && s.last().processor_id == id {
            s.last().amount as nat
        } else {
            0nat
        }
    }
}

/// Number of entries, of either processor, requested in `[from, to]`.
pub open spec fn count_all(s: Seq<Payment>, from: i64, to: i64) -> nat
    decreases s.len(),
{
    if s.len() == 0 {
        0
    } else {
        count_all(s.drop_last(), from, to) + if within(s.last(), from, to) {
            1nat
        } else {
            0nat
        }
    }
}

/// Sum of the amounts, in cents, of the entries of either processor requested in `[from, to]`.
pub open spec fn cents_all(s: Seq<Payment>, from: i64, to: i64) -> nat
    decreases s.len(),
{
    if s.len() == 0 {
        0
    } else {
        cents_all(s.drop_last(), from, to) + if within(s.last(), from, to) {
            s.last().amount as nat
        } else {
            0nat
        }
    }
}

/// Sum of all amounts, in cents.
pub open spec fn total_cents(s: Seq<Payment>) -> nat
    decreases s.len(),
{
    if s.len() == 0 {
        0
    } else {
        total_cents(s.drop_last()) + s.last().amount as nat
    }
}

/// What a summary over `[from, to]` of the entries `s` holds.
pub open spec fn summarizes(r: Summary, s: Seq<Payment>, from: i64, to: i64) -> bool {
    &&& r.default.count == count_in(s, from, to, DEFAULT_PROCESSOR)
    &&& r.default.amount == cents_in(s, from, to, DEFAULT_PROCESSOR)
    &&& r.fallback.count == count_in(s, from, to, FALLBACK_PROCESSOR)
    &&& r.fallback.amount == cents_in(s, from, to, FALLBACK_PROCESSOR)
}

proof fn lemma_cents_bounded(s: Seq<Payment>, from: i64, to: i64, id: u8)
    ensures
        cents_in(s, from, to, id) <= total_cents(s),
        count_in(s, from, to, id) <= s.len(),
    decreases s.len(),
{
    if s.len() > 0 {
        lemma_cents_bounded(s.drop_last(), from, to, id);
    }
}

proof fn lemma_prefix_step(s: Seq<Payment>, i: int)
    requires
        0 <= i < s.len(),
    ensures
        s.take(i + 1).drop_last() == s.take(i),
        s.take(i + 1).last() == s[i],
{
    assert(s.take(i + 1).drop_last() =~= s.take(i));
}

proof fn lemma_total_monotone(s: Seq<Payment>, i: int)
    requires
        0 <= i <= s.len(),
    ensures
        total_cents(s.take(i)) <= total_cents(s),
    decreases s.len() - i,
{
    if i < s.len() {
        lemma_prefix_step(s, i);
        lemma_total_monotone(s, i + 1);
    } else {
        assert(s.take(i) =~= s);
    }
}

/// Entries in `s[lo..hi]` that fall outside `[from, to]` leave the tallies unchanged.
proof fn lemma_outside_span(s: Seq<Payment>, from: i64, to: i64, id: u8, lo: int, hi: int)
    requires
        0 <= lo <= hi <= s.len(),
        forall|j: int| lo <= j < hi ==> !within(#[trigger] s[j], from, to),
    ensures
        count_in(s.take(hi), from, to, id) == count_in(s.take(lo), from, to, id),
        cents_in(s.take(hi), from, to, id) == cents_in(s.take(lo), from, to, id),
    decreases hi - lo,
{
    if lo < hi {
        lemma_prefix_step(s, hi - 1);
        lemma_outside_span(s, from, to, id, lo, hi - 1);
    }
}

proof fn lemma_total_push(s: Seq<Payment>, p: Payment)
    ensures
        total_cents(s.push(p)) == total_cents(s) + p.amount,
{
    assert(s.push(p).drop_last() =~= s);
}

/// What the summary `r` holds when it tallies, over `[from, to]`, the entries at
/// positions `a..b` of `s`.
pub open spec fn summarizes_span(r: Summary, s: Seq<Payment>, from: i64, to: i64, a: int, b: int) -> bool {
    &&& r.default.count == count_in(s.take(b), from, to, DEFAULT_PROCESSOR) - count_in(
        s.take(a),
        from,
        to,
        DEFAULT_PROCESSOR,
    )
    &&& r.default.amount == cents_in(s.take(b), from, to, DEFAULT_PROCESSOR) - cents_in(
        s.take(a),
        from,
        to,
        DEFAULT_PROCESSOR,
    )
    &&& r.fallback.count == count_in(s.take(b), from, to, FALLBACK_PROCESSOR) - count_in(
        s.take(a),
        from,
        to,
        FALLBACK_PROCESSOR,
    )
    &&& r.fallback.amount == cents_in(s.take(b), from, to, FALLBACK_PROCESSOR) - cents_in(
        s.take(a),
        from,
        to,
        FALLBACK_PROCESSOR,
    )
}

/// The ledger: every payment acknowledged by a processor, in the order of arrival.
pub struct Store {
    payments: Vec<Payment>,
    total: u64,
}

impl View for Store {
    type V = Seq<Payment>;

    closed spec fn view(&self) -> Seq<Payment> {
        self.payments@
    }
}

impl Store {
    /// Entries belong to a known processor, and `total` is their amounts' sum.
    #[verifier::type_invariant]
    spec fn wf(self) -> bool {
        &&& partitioned(self.payments@)
        &&& self.total as nat == total_cents(self.payments@)
    }

    /// An empty ledger.
    pub fn new() -> (r: Self)
        ensures
            r@ == Seq::<Payment>::empty(),
    {
        Store { payments: Vec::with_capacity(100_000), total: 0 }
    }

    /// Number of entries.
    pub fn len(&self) -> (r: usize)
        ensures
            r == self@.len(),
    {
        self.payments.len()
    }

    /// Sum of the amounts of all entries, in cents.
    pub fn total_amount(&self) -> (r: u64)
        ensures
            r == total_cents(self@),
    {
        proof {
            use_type_invariant(self);
        }
        self.total
    }

    /// Appends an acknowledged payment. A payment whose amount would take the
    /// ledger's total past `u64::MAX` cents is refused.
    pub fn insert(&mut self, payment: Payment) -> (accepted: bool)
        requires
            valid_processor(payment.processor_id),
        ensures
            accepted == (total_cents(old(self)@) + payment.amount <= u64::MAX),
            accepted ==> final(self)@ == old(self)@.push(payment),
            !accepted ==> final(self)@ == old(self)@,
            partitioned(final(self)@),
    {
        proof {
            use_type_invariant(&*self);
        }
        if payment.amount > u64::MAX - self.total {
            return false;
        }
        let ghost s = self.payments@;
        let mut taken = Store { payments: Vec::new(), total: 0 };
        std::mem::swap(self, &mut taken);
        proof {
            use_type_invariant(&taken);
            lemma_total_push(s, payment);
        }
        let Store { mut payments, total } = taken;
        payments.push(payment);
        assert(partitioned(payments@));
        *self = Store { payments, total: total + payment.amount };
        true
    }

    /// Index where a binary search for the first entry requested at or after `key`
    /// ends. On entries ordered by request time it is that entry's index.
    fn lower_bound(&self, key: i64) -> (r: usize)
        ensures
            r <= self@.len(),
            ordered(self@) ==> forall|j: int| 0 <= j < r ==> self@[j].requested_at < key,
            ordered(self@) ==> forall|j: int| r <= j < self@.len() ==> self@[j].requested_at >= key,
    {
        let mut lo: usize = 0;
        let mut hi: usize = self.payments.len();
        while lo < hi
            invariant
                lo <= hi <= self@.len(),
                ordered(self@) ==> forall|j: int| 0 <= j < lo ==> self@[j].requested_at < key,
                ordered(self@) ==> forall|j: int| hi <= j < self@.len() ==> self@[j].requested_at >= key,
            decreases hi - lo,
        {
            let mid = lo + (hi - lo) / 2;
            if self.payments[mid].requested_at < key {
                lo = mid + 1;
            } else {
                hi = mid;
            }
        }
        lo
    }

    /// Index where a binary search for the first entry requested after `key` ends.
    /// On entries ordered by request time it is that entry's index.
    fn upper_bound(&self, key: i64) -> (r: usize)
        ensures
            r <= self@.len(),
            ordered(self@) ==> forall|j: int| 0 <= j < r ==> self@[j].requested_at <= key,
            ordered(self@) ==> forall|j: int| r <= j < self@.len() ==> self@[j].requested_at > key,
    {
        let mut lo: usize = 0;
        let mut hi: usize = self.payments.len();
        while lo < hi
            invariant
                lo <= hi <= self@.len(),
                ordered(self@) ==> forall|j: int| 0 <= j < lo ==> self@[j].requested_at <= key,
                ordered(self@) ==> forall|j: int| hi <= j < self@.len() ==> self@[j].requested_at > key,
            decreases hi - lo,
        {
            let mid = lo + (hi - lo) / 2;
            if self.payments[mid].requested_at <= key {
                lo = mid + 1;
            } else {
                hi = mid;
            }
        }
        lo
    }

    /// Per-processor count and amount of the entries requested in `[from, to]`,
    /// both ends included; an empty range (`from > to`) gives zeros. Two binary
    /// searches bound the entries looked at: on a ledger ordered by request time the
    /// summary covers every entry in the range. On any ledger it tallies the entries
    /// in the range among those at positions `a..b`, for the bounds `a` and `b` that
    /// the searches found.
    pub fn get(&self, range: (i64, i64)) -> (r: Summary)
        ensures
            ordered(self@) ==> summarizes(r, self@, range.0, range.1),
            exists|a: int, b: int|
                0 <= a <= b <= self@.len() && summarizes_span(r, self@, range.0, range.1, a, b),
            partitioned(self@),
    {
        proof {
            use_type_invariant(self);
        }
        let (from, to) = range;
        let ghost s = self.payments@;
        let start = self.lower_bound(from);
        let found_end = self.upper_bound(to);
        let end = if found_end < start {
            start
        } else {
            found_end
        };
        let mut default_count: u64 = 0;
        let mut default_cents: u64 = 0;
        let mut fallback_count: u64 = 0;
        let mut fallback_cents: u64 = 0;
        let mut i: usize = start;
        while i < end
            invariant
                partitioned(s),
                self.total == total_cents(s),
                s == self@,
                start <= i <= end <= s.len(),
                default_count + count_in(s.take(start as int), from, to, DEFAULT_PROCESSOR)
                    == count_in(s.take(i as int), from, to, DEFAULT_PROCESSOR),
                default_cents + cents_in(s.take(start as int), from, to, DEFAULT_PROCESSOR)
                    == cents_in(s.take(i as int), from, to, DEFAULT_PROCESSOR),
                fallback_count + count_in(s.take(start as int), from, to, FALLBACK_PROCESSOR)
                    == count_in(s.take(i as int), from, to, FALLBACK_PROCESSOR),
                fallback_cents + cents_in(s.take(start as int), from, to, FALLBACK_PROCESSOR)
                    == cents_in(s.take(i as int), from, to, FALLBACK_PROCESSOR),
            decreases end - i,
        {
            let p = self.payments[i];
            proof {
                lemma_prefix_step(s, i as int);
                lemma_cents_bounded(s.take(i as int + 1), from, to, DEFAULT_PROCESSOR);
                lemma_cents_bounded(s.take(i as int + 1), from, to, FALLBACK_PROCESSOR);
                lemma_total_monotone(s, i as int + 1);
                assert(valid_processor(s[i as int].processor_id));
            }
            if from <= p.requested_at && p.requested_at <= to {
                if p.processor_id == DEFAULT_PROCESSOR {
                    default_count = default_count + 1;
                    default_cents = default_cents + p.amount;
                } else {
                    fallback_count = fallback_count + 1;
                    fallback_cents = fallback_cents + p.amount;
                }
            }
            i = i + 1;
        }
        let r = Summary::new([(default_count, default_cents), (fallback_count, fallback_cents)]);
        proof {
            assert(summarizes_span(r, s, from, to, start as int, end as int));
            if ordered(s) {
                assert(s.take(0) =~= Seq::<Payment>::empty());
                lemma_outside_span(s, from, to, DEFAULT_PROCESSOR, 0, start as int);
                lemma_outside_span(s, from, to, FALLBACK_PROCESSOR, 0, start as int);
                if start <= found_end {
                    lemma_outside_span(s, from, to, DEFAULT_PROCESSOR, end as int, s.len() as int);
                    lemma_outside_span(s, from, to, FALLBACK_PROCESSOR, end as int, s.len() as int);
                } else {
                    lemma_outside_span(s, from, to, DEFAULT_PROCESSOR, start as int, s.len() as int);
                    lemma_outside_span(s, from, to, FALLBACK_PROCESSOR, start as int, s.len() as int);
                }
                assert(s.take(s.len() as int) =~= s);
            }
        }
        r
    }

    /// Removes every entry.
    pub fn purge(&mut self)
        ensures
            final(self)@ == Seq::<Payment>::empty(),
    {
        let mut taken = Store { payments: Vec::new(), total: 0 };
        std::mem::swap(self, &mut taken);
        let Store { mut payments, total: _ } = taken;
        payments.clear();
        *self = Store { payments, total: 0 };
    }
}

proof fn lemma_partition_sums(s: Seq<Payment>, from: i64, to: i64)
    requires
        partitioned(s),
    ensures
        count_in(s, from, to, DEFAULT_PROCESSOR) + count_in(s, from, to, FALLBACK_PROCESSOR)
            == count_all(s, from, to),
        cents_in(s, from, to, DEFAULT_PROCESSOR) + cents_in(s, from, to, FALLBACK_PROCESSOR)
            == cents_all(s, from, to),
    decreases s.len(),
{
    if s.len() > 0 {
        let t = s.drop_last();
        assert(partitioned(t)) by {
            assert forall|i: int| 0 <= i < t.len() implies valid_processor(
                #[trigger] t[i].processor_id,
            ) by {
                assert(t[i] == s[i]);
            }
        }
        assert(valid_processor(s[s.len() - 1].processor_id));
        lemma_partition_sums(t, from, to);
    }
}

/// A summary of entries that each belong to one of the two processors splits the range
/// between them: the counts add up to the number of entries requested in `[from, to]`,
/// and the amounts to their total.
pub proof fn summary_covers_range(s: Seq<Payment>, from: i64, to: i64, r: Summary)
    requires
        partitioned(s),
        summarizes(r, s, from, to),
    ensures
        r.default.count + r.fallback.count == count_all(s, from, to),
        r.default.amount + r.fallback.amount == cents_all(s, from, to),
{
    lemma_partition_sums(s, from, to);
}

/// A summary of an emptied ledger is all zeros, whatever the range.
pub proof fn purged_summary_is_zero(from: i64, to: i64, r: Summary)
    requires
        summarizes(r, Seq::<Payment>::empty(), from, to),
    ensures
        r.default.count == 0,
        r.default.amount == 0,
        r.fallback.count == 0,
        r.fallback.amount == 0,
{
}

/// Appending an entry requested no earlier than every entry already there keeps
/// the entries ordered by request time.
pub proof fn append_keeps_order(s: Seq<Payment>, p: Payment)
    requires
        ordered(s),
        forall|i: int| 0 <= i < s.len() ==> #[trigger] s[i].requested_at <= p.requested_at,
    ensures
        ordered(s.push(p)),
{
    let t = s.push(p);
    assert forall|i: int, j: int| 0 <= i <= j < t.len() implies t[i].requested_at
        <= t[j].requested_at by {
        if j == s.len() {
            if i < s.len() {
                assert(t[i] == s[i]);
            }
        } else {
            assert(t[i] == s[i] && t[j] == s[j]);
        }
    }
}

/// A range whose two ends are equal includes the entries requested at exactly that time.
pub proof fn point_range_includes_endpoint(s: Seq<Payment>, p: Payment)
    ensures
        count_in(s.push(p), p.requested_at, p.requested_at, p.processor_id) == count_in(
            s,
            p.requested_at,
            p.requested_at,
            p.processor_id,
        ) + 1,
        cents_in(s.push(p), p.requested_at, p.requested_at, p.processor_id) == cents_in(
            s,
            p.requested_at,
            p.requested_at,
            p.processor_id,
        ) + p.amount,
{
    assert(s.push(p).drop_last() =~= s);
}

} // verus!
