use vstd::prelude::*;

use crate::summary::{decimal_value, is_digit, POINT, ZERO};

verus! {

/// Number of decimal digits at the front of `t`.
pub open spec fn leading_digits(t: Seq<u8>) -> nat
    decreases t.len(),
{
    if t.len() == 0 || !is_digit(t[0]) {
        0
    } else {
        1 + leading_digits(t.drop_first())
    }
}

pub open spec fn all_digits(t: Seq<u8>) -> bool {
    forall|i: int| 0 <= i < t.len() ==> is_digit(#[trigger] t[i])
}

/// The `i`-th digit of `t` as a number, or 0 past its end.
pub open spec fn digit_or_zero(t: Seq<u8>, i: int) -> nat {
    if 0 <= i < t.len() {
        (t[i] - 48) as nat
    } else {
        0
    }
}

/// Cents of the decimal fraction digits `f`, rounded half up: the first two digits,
/// plus one when the third is 5 or more.
pub open spec fn fraction_cents(f: Seq<u8>) -> nat {
    10 * digit_or_zero(f, 0) + digit_or_zero(f, 1) + if digit_or_zero(f, 2) >= 5 {
        1nat
    } else {
        0nat
    }
}

/// The amount in cents that the decimal text `t` stands for, rounded half up to the
/// cent: `t` is digits, or digits, a point and digits. Any other text stands for none.
pub open spec fn decimal_cents(t: Seq<u8>) -> Option<nat> {
    let k = leading_digits(t) as int;
    if k == 0 {
        None
    } else if k == t.len() {
        Some(decimal_value(t) * 100)
    } else if t[k] == POINT && k + 1 < t.len() && all_digits(t.subrange(k + 1, t.len() as int)) {
        Some(decimal_value(t.subrange(0, k)) * 100 + fraction_cents(
            t.subrange(k + 1, t.len() as int),
        ))
    } else {
        None
    }
}

pub(crate) proof fn lemma_leading_digits(t: Seq<u8>, i: int)
    requires
        0 <= i <= t.len(),
        forall|j: int| 0 <= j < i ==> is_digit(#[trigger] t[j]),
        i == t.len() || !is_digit(t[i]),
    ensures
        leading_digits(t) == i,
    decreases i,
{
    if i > 0 {
        lemma_leading_digits(t.drop_first(), i - 1);
    }
}

pub(crate) proof fn lemma_value_step(t: Seq<u8>, i: int)
    requires
        0 <= i < t.len(),
    ensures
        decimal_value(t.subrange(0, i + 1)) == decimal_value(t.subrange(0, i)) * 10 + (t[i]
            - 48) as nat,
{
    assert(t.subrange(0, i + 1).drop_last() =~= t.subrange(0, i));
}

pub(crate) proof fn lemma_value_grows(t: Seq<u8>, i: int, k: int)
    requires
        0 <= i <= k <= t.len(),
        forall|j: int| 0 <= j < k ==> is_digit(#[trigger] t[j]),
    ensures
        decimal_value(t.subrange(0, i)) <= decimal_value(t.subrange(0, k)),
    decreases k - i,
{
    if i < k {
        lemma_value_grows(t, i, k - 1);
        lemma_value_step(t, k - 1);
    }
}

pub(crate) proof fn lemma_leading_prefix(t: Seq<u8>)
    ensures
        leading_digits(t) <= t.len(),
        forall|j: int| 0 <= j < leading_digits(t) ==> is_digit(#[trigger] t[j]),
        leading_digits(t) < t.len() ==> !is_digit(t[leading_digits(t) as int]),
    decreases t.len(),
{
    if t.len() > 0 && is_digit(t[0]) {
        let u = t.drop_first();
        lemma_leading_prefix(u);
        assert forall|j: int| 0 <= j < leading_digits(t) implies is_digit(#[trigger] t[j]) by {
            if j > 0 {
                assert(t[j] == u[j - 1]);
            }
        }
    }
}

/// Once the digits at the front of `t` spell more than `u64::MAX / 100`, the cents
/// that `t` stands for, if any, do not fit in `u64`.
proof fn lemma_too_large(t: Seq<u8>, m: int)
    requires
        0 < m <= t.len(),
        forall|j: int| 0 <= j < m ==> is_digit(#[trigger] t[j]),
        decimal_value(t.subrange(0, m)) > u64::MAX / 100,
    ensures
        decimal_cents(t) is None || decimal_cents(t)->0 > u64::MAX,
{
    lemma_leading_prefix(t);
    let k = leading_digits(t) as int;
    if k < m {
        assert(is_digit(t[k]));
    }
    lemma_value_grows(t, m, k);
    let v = decimal_value(t.subrange(0, k));
    assert(v * 100 > u64::MAX) by (nonlinear_arith)
        requires
            v > u64::MAX / 100,
    ;
    if k == t.len() {
        assert(t.subrange(0, k) =~= t);
    }
}

/// The cents that the decimal text `t` stands for (see `decimal_cents`), or `None`
/// when `t` is not such a text or the cents do not fit in `u64`.
pub fn cents_of(t: &[u8]) -> (r: Option<u64>)
    ensures
        match r {
            Some(c) => decimal_cents(t@) == Some(c as nat),
            None => decimal_cents(t@) is None || decimal_cents(t@)->0 > u64::MAX,
        },
{
    let len = t.len();
    let mut i: usize = 0;
    let mut whole: u64 = 0;
    while i < len && ZERO <= t[i] && t[i] <= ZERO + 9
        invariant
            i <= len == t@.len(),
            forall|j: int| 0 <= j < i ==> is_digit(#[trigger] t@[j]),
            whole as nat == decimal_value(t@.subrange(0, i as int)),
            whole <= u64::MAX / 100,
        decreases len - i,
    {
        proof {
            lemma_value_step(t@, i as int);
        }
        let d = (t[i] - ZERO) as u64;
        if whole > (u64::MAX / 100 - d) / 10 {
            proof {
                lemma_too_large(t@, i as int + 1);
            }
            return None;
        }
        whole = whole * 10 + d;
        i = i + 1;
    }
    proof {
        lemma_leading_digits(t@, i as int);
    }
    if i == 0 {
        return None;
    }
    if i == len {
        assert(t@.subrange(0, len as int) =~= t@);
        return Some(whole * 100);
    }
    if t[i] != POINT || i + 1 == len {
        return None;
    }
    let mut j: usize = i + 1;
    while j < len && ZERO <= t[j] && t[j] <= ZERO + 9
        invariant
            i + 1 <= j <= len == t@.len(),
            forall|m: int| i + 1 <= m < j ==> is_digit(#[trigger] t@[m]),
        decreases len - j,
    {
        j = j + 1;
    }
    if j < len {
        assert(t@.subrange(i + 1, len as int)[j - i - 1] == t@[j as int]);
        return None;
    }
    let f = &t[i + 1..len];
    assert(f@ =~= t@.subrange(i + 1, len as int));
    let first = (f[0] - ZERO) as u64;
    let second = if f.len() > 1 {
        (f[1] - ZERO) as u64
    } else {
        0
    };
    let third = if f.len() > 2 {
        (f[2] - ZERO) as u64
    } else {
        0
    };
    let rounding: u64 = if third >= 5 {
        1
    } else {
        0
    };
    let cents = whole * 100;
    let part = 10 * first + second + rounding;
    if cents > u64::MAX - part {
        return None;
    }
    Some(cents + part)
}

} // verus!
