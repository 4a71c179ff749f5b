use chrono::{DateTime, Duration, Utc};
use dateparser::eval::{evaluate, EvalError, Timestamp};
use dateparser::grammar::{recognize, Direction, Term, Unit};
use dateparser::{parse, parse_at};

const T: Timestamp = Timestamp { secs: 1_700_000_000, nanos: 123_456_789 };

const MINUTE: i64 = 60;
const HOUR: i64 = 3600;
const DAY: i64 = 86400;
const WEEK: i64 = 604800;

fn at(delta: i64) -> Option<Result<Timestamp, EvalError>> {
    Some(Ok(Timestamp { secs: T.secs + delta, nanos: T.nanos }))
}

fn to_chrono(ts: Timestamp) -> DateTime<Utc> {
    DateTime::from_timestamp(ts.secs, ts.nanos).unwrap()
}

#[test]
fn english_natural_language() {
    let test_cases = [
        ("3 weeks ago", -Duration::days(3 * 7)),
        ("3 weeks and 5 days ago", -Duration::days(3 * 7 + 5)),
        (
            "3 weeks and 5 minutes and 12 seconds",
            Duration::weeks(3) + Duration::minutes(5) + Duration::seconds(12),
        ),
        ("in 5 days", Duration::days(5)),
        ("in 5 days and 6 minutes", Duration::days(5) + Duration::minutes(6)),
        (
            "in 5 days and 2 hours and 6 minutes",
            Duration::days(5) + Duration::hours(2) + Duration::minutes(6),
        ),
    ];

    for &(input, delta) in test_cases.iter() {
        let start = Utc::now();
        let result = parse(input).expect("Failed to parse input").unwrap();
        let end = Utc::now();

        let result = to_chrono(result);
        let start = start + delta;
        let end = end + delta;
        assert!(
            start <= result && result <= end,
            "The parsed result lies outside the expected date range:\n\
            Start: {start:?}, Actual: {result:?}, End: {end:?}"
        )
    }
}

#[test]
fn single_term_ago_lies_in_bracket() {
    for (input, secs) in [("0 seconds ago", 0), ("7 minutes ago", 7 * MINUTE), ("2 weeks ago", 2 * WEEK)] {
        let before = Utc::now();
        let result = to_chrono(parse(input).unwrap().unwrap());
        let after = Utc::now();
        assert!(before - Duration::seconds(secs) <= result);
        assert!(result <= after - Duration::seconds(secs));
    }
}

#[test]
fn in_phrase_lies_in_bracket() {
    let before = Utc::now();
    let result = to_chrono(parse("in 1 hour and 30 minutes").unwrap().unwrap());
    let after = Utc::now();
    let total = Duration::seconds(HOUR + 30 * MINUTE);
    assert!(before + total <= result && result <= after + total);
}

#[test]
fn three_weeks_ago() {
    assert_eq!(parse_at(T, "3 weeks ago"), at(-21 * DAY));
}

#[test]
fn three_weeks_and_five_days_ago() {
    assert_eq!(parse_at(T, "3 weeks and 5 days ago"), at(-26 * DAY));
}

#[test]
fn in_five_days_and_six_minutes() {
    assert_eq!(parse_at(T, "in 5 days and 6 minutes"), at(5 * DAY + 6 * MINUTE));
}

#[test]
fn unmarked_phrase_is_forward() {
    assert_eq!(
        parse_at(T, "3 weeks and 5 minutes and 12 seconds"),
        at(3 * WEEK + 5 * MINUTE + 12)
    );
    assert_eq!(parse_at(T, "2 hours"), parse_at(T, "in 2 hours"));
}

#[test]
fn in_five_days_two_hours_six_minutes() {
    assert_eq!(
        parse_at(T, "in 5 days and 2 hours and 6 minutes"),
        at(5 * DAY + 2 * HOUR + 6 * MINUTE)
    );
}

#[test]
fn order_does_not_matter() {
    assert_eq!(parse_at(T, "3 weeks and 5 days ago"), parse_at(T, "5 days and 3 weeks ago"));
    assert_eq!(
        parse_at(T, "1 second, 2 minutes and 3 hours"),
        parse_at(T, "3 hours and 2 minutes, 1 second")
    );
}

#[test]
fn empty_is_not_applicable() {
    assert_eq!(parse_at(T, ""), None);
    assert_eq!(parse_at(T, "   \t "), None);
}

#[test]
fn conflicting_markers_are_not_applicable() {
    assert_eq!(parse_at(T, "in 5 days ago"), None);
    assert_eq!(parse_at(T, "ago in 5 days"), None);
}

#[test]
fn malformed_phrases_are_not_applicable() {
    for input in [
        "five days",
        "5 fortnights",
        "5 months ago",
        "5",
        "days",
        "-5 days",
        "5.5 days",
        "5 days 2 hours",
        "5 days and",
        "and 5 days",
        "5 days and and 2 hours",
        "in",
        "ago",
        "in ago",
        "5 days ago ago",
        "in in 5 days",
        "friday 2pm",
        "5days",
        "5 dayss",
        "5 jours",
    ] {
        assert_eq!(parse_at(T, input), None, "{input}");
        assert!(recognize(input).is_none(), "{input}");
    }
}

#[test]
fn comma_joins_terms() {
    assert_eq!(parse_at(T, "5 days, 2 hours ago"), at(-(5 * DAY + 2 * HOUR)));
    assert_eq!(parse_at(T, "5 days,2 hours ago"), at(-(5 * DAY + 2 * HOUR)));
}

#[test]
fn keywords_ignore_case() {
    assert_eq!(parse_at(T, "In 5 DAYS And 1 Hour"), at(5 * DAY + HOUR));
    assert_eq!(parse_at(T, "1 Week AGO"), at(-WEEK));
}

#[test]
fn whitespace_is_flexible() {
    assert_eq!(parse_at(T, "  in\t5   days\n"), at(5 * DAY));
}

#[test]
fn singular_and_plural_units() {
    assert_eq!(parse_at(T, "1 second ago"), at(-1));
    assert_eq!(parse_at(T, "1 seconds ago"), at(-1));
    assert_eq!(parse_at(T, "in 1 minute"), at(MINUTE));
    assert_eq!(parse_at(T, "in 1 hour"), at(HOUR));
    assert_eq!(parse_at(T, "in 1 day"), at(DAY));
    assert_eq!(parse_at(T, "in 1 week"), at(WEEK));
}

#[test]
fn zero_contributes_nothing() {
    assert_eq!(parse_at(T, "0 weeks ago"), at(0));
    assert_eq!(parse_at(T, "in 0 days and 4 seconds"), at(4));
}

#[test]
fn leading_zeros_are_digits() {
    assert_eq!(parse_at(T, "007 seconds ago"), at(-7));
}

#[test]
fn huge_quantity_is_an_error() {
    assert_eq!(parse_at(T, "99999999999999999999999 weeks ago"), Some(Err(EvalError::Overflow)));
    assert_eq!(parse_at(T, "in 18446744073709551615 seconds"), Some(Err(EvalError::Overflow)));
    assert_eq!(
        parse_at(T, "in 9223372036854775807 seconds and 9223372036854775807 seconds and 5 weeks"),
        Some(Err(EvalError::Overflow))
    );
}

#[test]
fn result_past_the_range_is_an_error() {
    let last = Timestamp { secs: i64::MAX, nanos: 0 };
    assert_eq!(parse_at(last, "in 1 second"), Some(Err(EvalError::Overflow)));
    assert_eq!(parse_at(last, "1 second ago"), Some(Ok(Timestamp { secs: i64::MAX - 1, nanos: 0 })));
    let first = Timestamp { secs: i64::MIN, nanos: 5 };
    assert_eq!(parse_at(first, "1 second ago"), Some(Err(EvalError::Overflow)));
    assert_eq!(parse_at(first, "in 0 seconds"), Some(Ok(first)));
}

#[test]
fn recognize_keeps_terms_in_order() {
    let e = recognize("in 5 days and 2 hours").unwrap();
    assert_eq!(e.direction, Direction::Future);
    assert_eq!(
        e.terms,
        vec![Term { quantity: 5, unit: Unit::Day }, Term { quantity: 2, unit: Unit::Hour }]
    );
    let e = recognize("3 weeks ago").unwrap();
    assert_eq!(e.direction, Direction::Past);
    assert_eq!(e.terms, vec![Term { quantity: 3, unit: Unit::Week }]);
    let e = recognize("12 seconds").unwrap();
    assert_eq!(e.direction, Direction::Unspecified);
    assert_eq!(e.terms, vec![Term { quantity: 12, unit: Unit::Second }]);
}

#[test]
fn recognize_saturates_long_numbers() {
    let e = recognize("123456789012345678901234567890 minutes").unwrap();
    assert_eq!(e.terms, vec![Term { quantity: u64::MAX, unit: Unit::Minute }]);
}

#[test]
fn evaluate_sums_terms() {
    let e = recognize("1 week and 1 day and 1 hour and 1 minute and 1 second ago").unwrap();
    assert_eq!(evaluate(&e, T), Ok(Timestamp { secs: T.secs - (WEEK + DAY + HOUR + MINUTE + 1), nanos: T.nanos }));
}

#[test]
fn unit_seconds() {
    assert_eq!(Unit::Second.seconds(), 1);
    assert_eq!(Unit::Minute.seconds(), 60);
    assert_eq!(Unit::Hour.seconds(), 3600);
    assert_eq!(Unit::Day.seconds(), 86400);
    assert_eq!(Unit::Week.seconds(), 604800);
}

#[test]
fn parse_reads_the_clock() {
    let before = Utc::now().timestamp();
    let result = parse("1 week ago").unwrap().unwrap();
    let after = Utc::now().timestamp();
    assert!(before - WEEK <= result.secs && result.secs <= after - WEEK);
    assert!(result.nanos < 1_000_000_000);
    assert_eq!(parse("in 5 days ago"), None);
}
