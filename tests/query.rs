use chrono::{DateTime, NaiveDate, NaiveDateTime, NaiveTime, Utc};
use rinha::query::{get_query, QueryError, DISTANT_FUTURE};

#[test]
fn test_add() {
    let input = b"GET /payments-summary?from=2001-04-27T12:30:00.000Z&to=2025-05-27T15:37:50.000Z";

    let date = NaiveDate::from_ymd_opt(2001, 4, 27).expect("valid date");
    let time = NaiveTime::from_hms_opt(12, 30, 0).expect("valid time");
    let datetime = NaiveDateTime::new(date, time);

    let from: DateTime<Utc> = DateTime::from_naive_utc_and_offset(datetime, Utc);

    let date = NaiveDate::from_ymd_opt(2025, 5, 27).expect("valid date");
    let time = NaiveTime::from_hms_opt(15, 37, 50).expect("valid time");
    let datetime = NaiveDateTime::new(date, time);

    let to: DateTime<Utc> = DateTime::from_naive_utc_and_offset(datetime, Utc);

    let result = get_query(input).expect("get query");

    assert_eq!(result, (from.timestamp_micros(), to.timestamp_micros()));
}

#[test]
fn query_reads_milliseconds() {
    let input = b"GET /payments-summary?from=1970-01-01T00:00:00.250Z&to=1970-01-01T00:00:01.000Z";
    assert_eq!(get_query(input), Ok((250_000, 1_000_000)));
}

#[test]
fn unreadable_from_stands_for_zero() {
    let input = b"GET /payments-summary?from=not-a-timestamp-at-all!!&to=1970-01-01T00:00:01.000Z";
    assert_eq!(get_query(input), Ok((0, 1_000_000)));
}

#[test]
fn unreadable_to_stands_for_distant_future() {
    let input = b"GET /payments-summary?from=1970-01-01T00:00:01.000Z&to=xxxxxxxxxxxxxxxxxxxxxxxx";
    assert_eq!(get_query(input), Ok((1_000_000, DISTANT_FUTURE)));
    assert_eq!(DISTANT_FUTURE, i64::MAX);
}

#[test]
fn invalid_utf8_timestamp_stands_for_default() {
    let mut input = b"GET /payments-summary?from=1970-01-01T00:00:01.000Z&to=1970-01-01T00:00:02.000Z".to_vec();
    input[30] = 0xff;
    input[60] = 0xfe;
    assert_eq!(get_query(&input), Ok((0, i64::MAX)));
}

#[test]
fn widest_range_query() {
    let input = b"GET /payments-summary?from=1970-01-01T00:00:00.000Z&to=2999-01-01T00:00:00.000Z";
    let to = NaiveDate::from_ymd_opt(2999, 1, 1)
        .expect("valid date")
        .and_hms_opt(0, 0, 0)
        .expect("valid time")
        .and_utc()
        .timestamp_micros();
    assert_eq!(get_query(input), Ok((0, to)));
}

#[test]
fn truncated_query_is_refused() {
    let input = b"GET /payments-summary?from=1970-01-01T00:00:00.000Z&to=1970";
    assert_eq!(get_query(input), Err(QueryError::Truncated));
    assert_eq!(get_query(b""), Err(QueryError::Truncated));
}
