use vstd::prelude::*;

verus! {

/// Offset of the `from` timestamp in `GET /payments-summary?from=<ts>&to=<ts>`.
pub const FROM_START: usize = 27;

/// Offset one past the `from` timestamp.
pub const FROM_END: usize = 51;

/// Offset of the `to` timestamp.
pub const TO_START: usize = 55;

/// Offset one past the `to` timestamp: the shortest request that holds both.
pub const TO_END: usize = 79;

/// Upper end of the range when `to` cannot be read.
pub const DISTANT_FUTURE: i64 = i64::MAX;

/// The text that the bytes `b` spell in UTF-8, if they are valid UTF-8.
pub uninterp spec fn utf8_text(b: Seq<u8>) -> Option<Seq<char>>;

/// Microseconds since the epoch of the RFC 3339 timestamp `s`, if it is one.
pub uninterp spec fn rfc3339_micros(s: Seq<char>) -> Option<i64>;

/// Relies on std::str::from_utf8: the same bytes read as text, or an error when they
/// are not valid UTF-8; the outcome depends on the bytes alone.
#[verifier::external_body]
fn text_of(b: &[u8]) -> (r: Option<&str>)
    ensures
        match r {
            Some(s) => utf8_text(b@) == Some(s@),
            None => utf8_text(b@) is None,
        },
{
    std::str::from_utf8(b).ok()
}

/// Relies on chrono's DateTime::parse_from_rfc3339, then DateTime::timestamp_micros
/// (which cannot fail for a parsed date): the result depends on the text alone.
#[verifier::external_body]
fn rfc3339_to_micros(s: &str) -> (r: Option<i64>)
    ensures
        r == rfc3339_micros(s@),
{
    match chrono::DateTime::parse_from_rfc3339(s) {
        Ok(d) => Some(d.timestamp_micros()),
        Err(_) => None,
    }
}

/// The time that the timestamp bytes `b` stand for, or `default` when they are not
/// an RFC 3339 timestamp.
pub open spec fn timestamp_or(b: Seq<u8>, default: i64) -> i64 {
    match utf8_text(b) {
        Some(t) => match rfc3339_micros(t) {
            Some(m) => m,
            None => default,
        },
        None => default,
    }
}

/// Why a summary request could not be read.
#[derive(Clone, Copy, Debug, PartialEq, Eq, Structural)]
pub enum QueryError {
    /// The request ends before the `to` timestamp does.
    Truncated,
}

fn timestamp(b: &[u8], default: i64) -> (r: i64)
    ensures
        r == timestamp_or(b@, default),
{
    match text_of(b) {
        Some(t) => match rfc3339_to_micros(t) {
            Some(m) => m,
            None => default,
        },
        None => default,
    }
}

/// Reads the range of `GET /payments-summary?from=<ts>&to=<ts>` from fixed offsets,
/// each timestamp being 24 characters long. An unreadable `from` stands for `0`, an
/// unreadable `to` for `DISTANT_FUTURE`.
pub fn get_query(buf: &[u8]) -> (r: Result<(i64, i64), QueryError>)
    ensures
        buf@.len() < TO_END ==> r == Err::<(i64, i64), QueryError>(QueryError::Truncated),
        buf@.len() >= TO_END ==> r == Ok::<(i64, i64), QueryError>(
            (
                timestamp_or(buf@.subrange(FROM_START as int, FROM_END as int), 0),
                timestamp_or(buf@.subrange(TO_START as int, TO_END as int), DISTANT_FUTURE),
            ),
        ),
{
    if buf.len() < TO_END {
        return Err(QueryError::Truncated);
    }
    let from = timestamp(&buf[FROM_START..FROM_END], 0);
    let to = timestamp(&buf[TO_START..TO_END], DISTANT_FUTURE);
    Ok((from, to))
}

} // verus!
