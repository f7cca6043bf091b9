use vstd::prelude::*;
use vstd::string::StringSliceAdditionalSpecFns;

use crate::amount::{
    leading_digits, lemma_leading_digits, lemma_leading_prefix, lemma_value_grows, lemma_value_step,
};

verus! {

/// Aggregate of one processor's payments over a time range.
#[derive(Clone, Copy, Debug, PartialEq, Eq, Structural)]
pub struct ProcessedData {
    /// Number of payments.
    pub count: u64,
    /// Sum of their amounts, in cents.
    pub amount: u64,
}

impl ProcessedData {
    /// Builds the aggregate from a `(count, cents)` pair.
    pub fn new(data: (u64, u64)) -> (r: Self)
        ensures
            r.count == data.0,
            r.amount == data.1,
    {
        ProcessedData { count: data.0, amount: data.1 }
    }
}

/// Per-processor aggregates: the default processor and the fallback one.
#[derive(Clone, Copy, Debug, PartialEq, Eq, Structural)]
pub struct Summary {
    pub default: ProcessedData,
    pub fallback: ProcessedData,
}

impl Summary {
    /// Builds a summary from `[(count, cents) of default, (count, cents) of fallback]`.
    pub fn new(summary: [(u64, u64); 2]) -> (r: Self)
        ensures
            r.default.count == summary@[0].0,
            r.default.amount == summary@[0].1,
            r.fallback.count == summary@[1].0,
            r.fallback.amount == summary@[1].1,
    {
        Summary { default: ProcessedData::new(summary[0]), fallback: ProcessedData::new(summary[1]) }
    }
}

/// ASCII `0`.
pub const ZERO: u8 = 48;

/// ASCII `.`.
pub const POINT: u8 = 46;

/// Decimal digits of `n`, most significant first, with no leading zero.
pub open spec fn digits(n: nat) -> Seq<u8>
    decreases n,
{
    if n < 10 {
        seq![(48 + n) as u8]
    } else {
        digits(n / 10) + seq![(48 + n % 10) as u8]
    }
}

/// An amount of `cents` written in currency units: the whole part, a point, then
/// the cents with trailing zeros dropped, keeping at least one digit (`10.5`, `0.0`, `3.07`).
pub open spec fn amount_text(cents: nat) -> Seq<u8> {
    digits(cents / 100) + seq![POINT] + cents_text(cents % 100)
}

/// The cents `c` (below 100) as written after the point: trailing zeros dropped, at
/// least one digit kept.
pub open spec fn cents_text(c: nat) -> Seq<u8> {
    if c == 0 {
        seq![48u8]
    } else if c % 10 == 0 {
        seq![(48 + c / 10) as u8]
    } else {
        seq![(48 + c / 10) as u8, (48 + c % 10) as u8]
    }
}

/// The JSON body that answers a summary query.
pub open spec fn summary_json(s: Summary) -> Seq<u8> {
    "{\"default\":{\"totalRequests\":".spec_bytes() + digits(s.default.count as nat)
        + ",\"totalAmount\":".spec_bytes() + amount_text(s.default.amount as nat)
        + "},\"fallback\":{\"totalRequests\":".spec_bytes() + digits(s.fallback.count as nat)
        + ",\"totalAmount\":".spec_bytes() + amount_text(s.fallback.amount as nat)
        + "}}".spec_bytes()
}

/// Appends the bytes of `s`.
pub fn push_str(out: &mut Vec<u8>, s: &str)
    ensures
        final(out)@ == old(out)@ + s.spec_bytes(),
{
    out.extend_from_slice(s.as_bytes());
}

/// Appends the decimal digits of `n`.
pub fn push_decimal(out: &mut Vec<u8>, n: u64)
    ensures
        final(out)@ == old(out)@ + digits(n as nat),
    decreases n,
{
    if n >= 10 {
        push_decimal(out, n / 10);
    }
    out.push(ZERO + (n % 10) as u8);
    assert(out@ =~= old(out)@ + digits(n as nat));
}

/// Appends an amount of `cents` in currency units (see `amount_text`).
pub fn push_amount(out: &mut Vec<u8>, cents: u64)
    ensures
        final(out)@ == old(out)@ + amount_text(cents as nat),
{
    push_decimal(out, cents / 100);
    out.push(POINT);
    let c = cents % 100;
    if c == 0 {
        out.push(ZERO);
    } else if c % 10 == 0 {
        out.push(ZERO + (c / 10) as u8);
    } else {
        out.push(ZERO + (c / 10) as u8);
        out.push(ZERO + (c % 10) as u8);
    }
    assert(out@ =~= old(out)@ + amount_text(cents as nat));
}

/// Writes `summary` as the JSON body of a summary reply, fields in fixed order.
pub fn build_payload(summary: &Summary) -> (r: Vec<u8>)
    ensures
        r@ == summary_json(*summary),
{
    let mut out: Vec<u8> = Vec::new();
    push_str(&mut out, "{\"default\":{\"totalRequests\":");
    push_decimal(&mut out, summary.default.count);
    push_str(&mut out, ",\"totalAmount\":");
    push_amount(&mut out, summary.default.amount);
    push_str(&mut out, "},\"fallback\":{\"totalRequests\":");
    push_decimal(&mut out, summary.fallback.count);
    push_str(&mut out, ",\"totalAmount\":");
    push_amount(&mut out, summary.fallback.amount);
    push_str(&mut out, "}}");
    assert(out@ =~= summary_json(*summary));
    out
}

pub open spec fn is_digit(b: u8) -> bool {
    48 <= b <= 57
}

/// The number that the decimal digits `s` spell.
pub open spec fn decimal_value(s: Seq<u8>) -> nat
    decreases s.len(),
{
    if s.len() == 0 {
        0
    } else {
        decimal_value(s.drop_last()) * 10 + (s.last() - 48) as nat
    }
}

proof fn lemma_digits_shape(n: nat)
    ensures
        digits(n).len() >= 1,
        forall|i: int| 0 <= i < digits(n).len() ==> is_digit(#[trigger] digits(n)[i]),
        decimal_value(digits(n)) == n,
    decreases n,
{
    if n >= 10 {
        lemma_digits_shape(n / 10);
        let d = digits(n);
        assert(d.drop_last() =~= digits(n / 10));
        assert(d.last() == (48 + n % 10) as u8);
        assert(n % 10 < 10);
        assert((d.last() - 48) as nat == n % 10);
        assert(decimal_value(d) == decimal_value(d.drop_last()) * 10 + (d.last() - 48) as nat);
        assert(n == (n / 10) * 10 + n % 10);
        assert forall|i: int| 0 <= i < d.len() implies is_digit(#[trigger] d[i]) by {
            if i < d.len() - 1 {
                assert(d[i] == digits(n / 10)[i]);
            }
        }
    } else {
        let d = digits(n);
        assert(d.drop_last() =~= Seq::<u8>::empty());
        assert(decimal_value(d) == decimal_value(d.drop_last()) * 10 + (d.last() - 48) as nat);
    }
}

/// Digits followed by a non-digit can be told apart: equal texts give equal numbers
/// and equal remainders.
proof fn lemma_digits_split(x: nat, y: nat, p: Seq<u8>, q: Seq<u8>)
    requires
        digits(x) + p == digits(y) + q,
        p.len() > 0 && !is_digit(p[0]),
        q.len() > 0 && !is_digit(q[0]),
    ensures
        x == y,
        p == q,
{
    lemma_digits_shape(x);
    lemma_digits_shape(y);
    let a = digits(x);
    let b = digits(y);
    let s = a + p;
    if a.len() < b.len() {
        assert(s[a.len() as int] == p[0]);
        assert(s[a.len() as int] == b[a.len() as int]);
    } else if b.len() < a.len() {
        assert(s[b.len() as int] == q[0]);
        assert(s[b.len() as int] == a[b.len() as int]);
    } else {
        assert(a =~= s.subrange(0, a.len() as int));
        assert(b =~= s.subrange(0, a.len() as int));
        assert(p =~= s.subrange(a.len() as int, s.len() as int));
        assert(q =~= s.subrange(a.len() as int, s.len() as int));
    }
}

proof fn lemma_cents_split(x: nat, y: nat, p: Seq<u8>, q: Seq<u8>)
    requires
        x < 100,
        y < 100,
        cents_text(x) + p == cents_text(y) + q,
        p.len() > 0 && !is_digit(p[0]),
        q.len() > 0 && !is_digit(q[0]),
    ensures
        x == y,
        p == q,
{
    let a = cents_text(x);
    let b = cents_text(y);
    let s = a + p;
    if a.len() < b.len() {
        assert(s[1] == p[0]);
        assert(s[1] == b[1]);
    } else if b.len() < a.len() {
        assert(s[1] == q[0]);
        assert(s[1] == a[1]);
    } else {
        assert(a =~= s.subrange(0, a.len() as int));
        assert(b =~= s.subrange(0, a.len() as int));
        assert(p =~= s.subrange(a.len() as int, s.len() as int));
        assert(q =~= s.subrange(a.len() as int, s.len() as int));
        assert(a[0] == b[0]);
        if a.len() == 2 {
            assert(a[1] == b[1]);
        }
    }
}

proof fn lemma_amount_split(x: nat, y: nat, p: Seq<u8>, q: Seq<u8>)
    requires
        amount_text(x) + p == amount_text(y) + q,
        p.len() > 0 && !is_digit(p[0]),
        q.len() > 0 && !is_digit(q[0]),
    ensures
        x == y,
        p == q,
{
    let fx = cents_text(x % 100);
    let fy = cents_text(y % 100);
    assert(amount_text(x) + p =~= digits(x / 100) + (seq![46u8] + (fx + p)));
    assert(amount_text(y) + q =~= digits(y / 100) + (seq![46u8] + (fy + q)));
    lemma_digits_split(x / 100, y / 100, seq![46u8] + (fx + p), seq![46u8] + (fy + q));
    assert(fx + p =~= (seq![46u8] + (fx + p)).subrange(1, (fx.len() + p.len() + 1) as int));
    assert(fy + q =~= (seq![46u8] + (fy + q)).subrange(1, (fy.len() + q.len() + 1) as int));
    lemma_cents_split(x % 100, y % 100, p, q);
}

proof fn lemma_separators()
    ensures
        ",\"totalAmount\":".spec_bytes().len() > 0,
        ",\"totalAmount\":".spec_bytes()[0] == 44u8,
        "},\"fallback\":{\"totalRequests\":".spec_bytes().len() > 0,
        "},\"fallback\":{\"totalRequests\":".spec_bytes()[0] == 125u8,
        "}}".spec_bytes().len() > 0,
        "}}".spec_bytes()[0] == 125u8,
{
    reveal_strlit(",\"totalAmount\":");
    reveal_strlit("},\"fallback\":{\"totalRequests\":");
    reveal_strlit("}}");
    broadcast use vstd::string::is_ascii_spec_bytes;

    assert(vstd::string::is_ascii(",\"totalAmount\":"));
    assert(vstd::string::is_ascii("},\"fallback\":{\"totalRequests\":"));
    assert(vstd::string::is_ascii("}}"));
}

#[verifier::opaque]
spec fn tail_fallback_amount(s: Summary) -> Seq<u8> {
    amount_text(s.fallback.amount as nat) + "}}".spec_bytes()
}

#[verifier::opaque]
spec fn tail_fallback(s: Summary) -> Seq<u8> {
    digits(s.fallback.count as nat) + (",\"totalAmount\":".spec_bytes() + tail_fallback_amount(s))
}

#[verifier::opaque]
spec fn tail_default_amount(s: Summary) -> Seq<u8> {
    amount_text(s.default.amount as nat) + ("},\"fallback\":{\"totalRequests\":".spec_bytes()
        + tail_fallback(s))
}

#[verifier::opaque]
spec fn tail_default(s: Summary) -> Seq<u8> {
    digits(s.default.count as nat) + (",\"totalAmount\":".spec_bytes() + tail_default_amount(s))
}

proof fn lemma_layout(s: Summary)
    ensures
        summary_json(s) == "{\"default\":{\"totalRequests\":".spec_bytes() + tail_default(s),
        tail_default(s) == digits(s.default.count as nat) + (",\"totalAmount\":".spec_bytes()
            + tail_default_amount(s)),
        tail_default_amount(s) == amount_text(s.default.amount as nat) + (
        "},\"fallback\":{\"totalRequests\":".spec_bytes() + tail_fallback(s)),
        tail_fallback(s) == digits(s.fallback.count as nat) + (",\"totalAmount\":".spec_bytes()
            + tail_fallback_amount(s)),
        tail_fallback_amount(s) == amount_text(s.fallback.amount as nat) + "}}".spec_bytes(),
{
    reveal(tail_default);
    reveal(tail_default_amount);
    reveal(tail_fallback);
    reveal(tail_fallback_amount);
    let l1 = "{\"default\":{\"totalRequests\":".spec_bytes();
    let l2 = ",\"totalAmount\":".spec_bytes();
    let l3 = "},\"fallback\":{\"totalRequests\":".spec_bytes();
    let l5 = "}}".spec_bytes();
    let d = digits(s.default.count as nat);
    let a = amount_text(s.default.amount as nat);
    let f = digits(s.fallback.count as nat);
    let b = amount_text(s.fallback.amount as nat);
    let x7 = b + l5;
    let x6 = l2 + x7;
    let x5 = f + x6;
    let x4 = l3 + x5;
    let x3 = a + x4;
    let x2 = l2 + x3;
    let x1 = d + x2;
    let head1 = l1 + d;
    let head2 = head1 + l2;
    let head3 = head2 + a;
    let head4 = head3 + l3;
    let head5 = head4 + f;
    let head6 = head5 + l2;
    let head7 = head6 + b;
    assert(summary_json(s) == head7 + l5);
    lemma_assoc(head6, b, l5);
    lemma_assoc(head5, l2, x7);
    lemma_assoc(head4, f, x6);
    lemma_assoc(head3, l3, x5);
    lemma_assoc(head2, a, x4);
    lemma_assoc(head1, l2, x3);
    lemma_assoc(l1, d, x2);
}

proof fn lemma_assoc(a: Seq<u8>, b: Seq<u8>, c: Seq<u8>)
    ensures
        (a + b) + c == a + (b + c),
{
    assert((a + b) + c =~= a + (b + c));
}

proof fn lemma_strip(l: Seq<u8>, x: Seq<u8>, y: Seq<u8>)
    requires
        l + x == l + y,
    ensures
        x == y,
{
    assert(x =~= (l + x).subrange(l.len() as int, (l + x).len() as int));
    assert(y =~= (l + y).subrange(l.len() as int, (l + y).len() as int));
}

/// A summary body reads back: two summaries written as the same bytes are the same
/// summary, count for count and cent for cent.
pub proof fn summary_json_reads_back(a: Summary, b: Summary)
    requires
        summary_json(a) == summary_json(b),
    ensures
        a == b,
{
    let l2 = ",\"totalAmount\":".spec_bytes();
    let l3 = "},\"fallback\":{\"totalRequests\":".spec_bytes();
    let l5 = "}}".spec_bytes();
    lemma_separators();
    lemma_layout(a);
    lemma_layout(b);
    lemma_strip("{\"default\":{\"totalRequests\":".spec_bytes(), tail_default(a), tail_default(b));
    lemma_digits_split(
        a.default.count as nat,
        b.default.count as nat,
        l2 + tail_default_amount(a),
        l2 + tail_default_amount(b),
    );
    lemma_strip(l2, tail_default_amount(a), tail_default_amount(b));
    lemma_amount_split(
        a.default.amount as nat,
        b.default.amount as nat,
        l3 + tail_fallback(a),
        l3 + tail_fallback(b),
    );
    lemma_strip(l3, tail_fallback(a), tail_fallback(b));
    lemma_digits_split(
        a.fallback.count as nat,
        b.fallback.count as nat,
        l2 + tail_fallback_amount(a),
        l2 + tail_fallback_amount(b),
    );
    lemma_strip(l2, tail_fallback_amount(a), tail_fallback_amount(b));
    lemma_amount_split(a.fallback.amount as nat, b.fallback.amount as nat, l5, l5);
}

/// The rest of `b` after the text `lit`, if `b` starts with it.
fn strip_text<'a>(b: &'a [u8], lit: &str) -> (r: Option<&'a [u8]>)
    ensures
        b@.len() >= lit.spec_bytes().len() && b@.subrange(0, lit.spec_bytes().len() as int)
            == lit.spec_bytes() ==> (r matches Some(x) && x@ == b@.subrange(
            lit.spec_bytes().len() as int,
            b@.len() as int,
        )),
{
    let l = lit.as_bytes();
    let n = l.len();
    let len = b.len();
    if len < n {
        return None;
    }
    let mut i: usize = 0;
    while i < n
        invariant
            i <= n == l@.len() <= len == b@.len(),
            l@ == lit.spec_bytes(),
            forall|j: int| 0 <= j < i ==> b@[j] == l@[j],
        decreases n - i,
    {
        if b[i] != l[i] {
            assert(b@.subrange(0, n as int)[i as int] == b@[i as int]);
            return None;
        }
        i = i + 1;
    }
    Some(&b[n..len])
}

/// The number spelled by the digits at the front of `b`, and the rest of `b`.
fn read_number<'a>(b: &'a [u8]) -> (r: Option<(u64, &'a [u8])>)
    ensures
        ({
            let k = leading_digits(b@) as int;
            k > 0 && decimal_value(b@.subrange(0, k)) <= u64::MAX ==> (r matches Some((v, x))
                && v == decimal_value(b@.subrange(0, k)) && x@ == b@.subrange(k, b@.len() as int))
        }),
{
    let len = b.len();
    let mut i: usize = 0;
    let mut v: u64 = 0;
    while i < len && ZERO <= b[i] && b[i] <= ZERO + 9
        invariant
            i <= len == b@.len(),
            forall|j: int| 0 <= j < i ==> is_digit(#[trigger] b@[j]),
            v as nat == decimal_value(b@.subrange(0, i as int)),
        decreases len - i,
    {
        proof {
            lemma_value_step(b@, i as int);
        }
        let d = (b[i] - ZERO) as u64;
        if v > (u64::MAX - d) / 10 {
            proof {
                lemma_leading_prefix(b@);
                let k = leading_digits(b@) as int;
                if k < i + 1 {
                    assert(is_digit(b@[k]));
                }
                lemma_value_grows(b@, i as int + 1, k);
            }
            return None;
        }
        v = v * 10 + d;
        i = i + 1;
    }
    proof {
        lemma_leading_digits(b@, i as int);
    }
    if i == 0 {
        return None;
    }
    Some((v, &b[i..len]))
}

/// The cents written after the point at the front of `b` (one or two digits followed
/// by a non-digit), and the rest of `b`.
fn read_fraction<'a>(b: &'a [u8]) -> (r: Option<(u64, &'a [u8])>)
    ensures
        b@.len() >= 2 && is_digit(b@[0]) && !is_digit(b@[1]) ==> (r matches Some((f, x)) && f
            == 10 * (b@[0] - 48) && x@ == b@.subrange(1, b@.len() as int)),
        b@.len() >= 3 && is_digit(b@[0]) && is_digit(b@[1]) && !is_digit(b@[2]) ==> (r matches Some(
            (f, x),
        ) && f == 10 * (b@[0] - 48) + (b@[1] - 48) && x@ == b@.subrange(2, b@.len() as int)),
{
    let len = b.len();
    if len >= 2 && ZERO <= b[0] && b[0] <= ZERO + 9 && !(ZERO <= b[1] && b[1] <= ZERO + 9) {
        return Some((10 * (b[0] - ZERO) as u64, &b[1..len]));
    }
    if len >= 3 && ZERO <= b[0] && b[0] <= ZERO + 9 && ZERO <= b[1] && b[1] <= ZERO + 9 && !(ZERO
        <= b[2] && b[2] <= ZERO + 9) {
        return Some((10 * (b[0] - ZERO) as u64 + (b[1] - ZERO) as u64, &b[2..len]));
    }
    None
}

proof fn lemma_number_prefix(n: nat, t: Seq<u8>, b: Seq<u8>)
    requires
        b == digits(n) + t,
        t.len() > 0,
        !is_digit(t[0]),
    ensures
        leading_digits(b) == digits(n).len(),
        decimal_value(b.subrange(0, digits(n).len() as int)) == n,
        b.subrange(digits(n).len() as int, b.len() as int) == t,
{
    lemma_digits_shape(n);
    let k = digits(n).len() as int;
    assert forall|j: int| 0 <= j < k implies is_digit(#[trigger] b[j]) by {
        assert(b[j] == digits(n)[j]);
    }
    assert(b[k] == t[0]);
    lemma_leading_digits(b, k);
    assert(b.subrange(0, k) =~= digits(n));
    assert(b.subrange(k, b.len() as int) =~= t);
}

proof fn lemma_fraction_prefix(c: nat, t: Seq<u8>, b: Seq<u8>)
    requires
        c < 100,
        b == cents_text(c) + t,
        t.len() > 0,
        !is_digit(t[0]),
    ensures
        cents_text(c).len() == 1 ==> b.len() >= 2 && is_digit(b[0]) && !is_digit(b[1]) && 10 * (
        b[0] - 48) == c && b.subrange(1, b.len() as int) == t,
        cents_text(c).len() == 2 ==> b.len() >= 3 && is_digit(b[0]) && is_digit(b[1]) && !is_digit(
            b[2],
        ) && 10 * (b[0] - 48) + (b[1] - 48) == c && b.subrange(2, b.len() as int) == t,
        cents_text(c).len() == 1 || cents_text(c).len() == 2,
{
    let k = cents_text(c).len() as int;
    assert(b[k] == t[0]);
    assert(b.subrange(k, b.len() as int) =~= t);
    assert(c == 10 * (c / 10) + c % 10);
}

/// Reads the cents written as `amount_text` at the front of `b`, and the rest of `b`.
fn read_amount<'a>(b: &'a [u8], Ghost(c): Ghost<nat>, Ghost(t): Ghost<Seq<u8>>) -> (r: Option<
    (u64, &'a [u8]),
>)
    ensures
        c <= u64::MAX && b@ == amount_text(c) + t && t.len() > 0 && !is_digit(t[0]) ==> (r matches Some(
            (v, x),
        ) && v == c && x@ == t),
{
    let ghost good = c <= u64::MAX && b@ == amount_text(c) + t && t.len() > 0 && !is_digit(t[0]);
    let ghost after_point = cents_text(c % 100) + t;
    proof {
        if good {
            assert(b@ =~= digits(c / 100) + (seq![POINT] + after_point));
            lemma_number_prefix(c / 100, seq![POINT] + after_point, b@);
        }
    }
    let (whole, rest) = match read_number(b) {
        Some(found) => found,
        None => return None,
    };
    if rest.len() == 0 || rest[0] != POINT {
        return None;
    }
    let frac = &rest[1..rest.len()];
    proof {
        if good {
            assert(frac@ =~= after_point);
            lemma_fraction_prefix(c % 100, t, frac@);
        }
    }
    let (cents, tail) = match read_fraction(frac) {
        Some(found) => found,
        None => return None,
    };
    if whole > (u64::MAX - cents) / 100 {
        proof {
            if good {
                assert(c == 100 * (c / 100) + c % 100);
                assert(false) by (nonlinear_arith)
                    requires
                        whole == c / 100,
                        cents == c % 100,
                        c <= u64::MAX,
                        c == 100 * (c / 100) + c % 100,
                        whole > (u64::MAX - cents) / 100,
                ;
            }
        }
        return None;
    }
    proof {
        if good {
            assert(c == 100 * (c / 100) + c % 100);
        }
    }
    Some((whole * 100 + cents, tail))
}

/// Compares two byte strings.
fn same_bytes(a: &[u8], b: &[u8]) -> (r: bool)
    ensures
        r == (a@ == b@),
{
    if a.len() != b.len() {
        return false;
    }
    let mut i: usize = 0;
    while i < a.len()
        invariant
            i <= a@.len() == b@.len(),
            forall|j: int| 0 <= j < i ==> a@[j] == b@[j],
        decreases a@.len() - i,
    {
        if a[i] != b[i] {
            return false;
        }
        i = i + 1;
    }
    assert(a@ =~= b@);
    true
}

/// Reads a summary body back: the summary that `b` is the body of, if there is one.
pub fn read_summary(b: &[u8]) -> (r: Option<Summary>)
    ensures
        r matches Some(s) ==> summary_json(s) == b@,
        forall|s: Summary| summary_json(s) == b@ ==> r == Some(s),
{
    let ghost has = exists|s: Summary| summary_json(s) == b@;
    let ghost s0 = choose|s: Summary| summary_json(s) == b@;
    let ghost l1 = "{\"default\":{\"totalRequests\":".spec_bytes();
    let ghost l2 = ",\"totalAmount\":".spec_bytes();
    let ghost l3 = "},\"fallback\":{\"totalRequests\":".spec_bytes();
    let ghost l5 = "}}".spec_bytes();
    proof {
        lemma_separators();
        if has {
            lemma_layout(s0);
            assert(b@.subrange(0, l1.len() as int) =~= l1);
            assert(b@.subrange(l1.len() as int, b@.len() as int) =~= tail_default(s0));
        }
    }
    let x = match strip_text(b, "{\"default\":{\"totalRequests\":") {
        Some(x) => x,
        None => return None,
    };
    proof {
        if has {
            lemma_number_prefix(s0.default.count as nat, l2 + tail_default_amount(s0), x@);
        }
    }
    let (default_count, x) = match read_number(x) {
        Some(found) => found,
        None => return None,
    };
    proof {
        if has {
            assert(x@.subrange(0, l2.len() as int) =~= l2);
            assert(x@.subrange(l2.len() as int, x@.len() as int) =~= tail_default_amount(s0));
        }
    }
    let x = match strip_text(x, ",\"totalAmount\":") {
        Some(x) => x,
        None => return None,
    };
    let (default_amount, x) = match read_amount(
        x,
        Ghost(s0.default.amount as nat),
        Ghost(l3 + tail_fallback(s0)),
    ) {
        Some(found) => found,
        None => return None,
    };
    proof {
        if has {
            assert(x@.subrange(0, l3.len() as int) =~= l3);
            assert(x@.subrange(l3.len() as int, x@.len() as int) =~= tail_fallback(s0));
        }
    }
    let x = match strip_text(x, "},\"fallback\":{\"totalRequests\":") {
        Some(x) => x,
        None => return None,
    };
    proof {
        if has {
            lemma_number_prefix(s0.fallback.count as nat, l2 + tail_fallback_amount(s0), x@);
        }
    }
    let (fallback_count, x) = match read_number(x) {
        Some(found) => found,
        None => return None,
    };
    proof {
        if has {
            assert(x@.subrange(0, l2.len() as int) =~= l2);
            assert(x@.subrange(l2.len() as int, x@.len() as int) =~= tail_fallback_amount(s0));
        }
    }
    let x = match strip_text(x, ",\"totalAmount\":") {
        Some(x) => x,
        None => return None,
    };
    let (fallback_amount, x) = match read_amount(
        x,
        Ghost(s0.fallback.amount as nat),
        Ghost(l5),
    ) {
        Some(found) => found,
        None => return None,
    };
    proof {
        if has {
            assert(x@.subrange(0, l5.len() as int) =~= l5);
        }
    }
    let x = match strip_text(x, "}}") {
        Some(x) => x,
        None => return None,
    };
    if x.len() != 0 {
        return None;
    }
    let s = Summary::new([(default_count, default_amount), (fallback_count, fallback_amount)]);
    let written = build_payload(&s);
    if !same_bytes(written.as_slice(), b) {
        return None;
    }
    proof {
        assert forall|t: Summary| summary_json(t) == b@ implies Some(s) == Some(t) by {
            summary_json_reads_back(s, t);
        }
    }
    Some(s)
}

} // verus!
