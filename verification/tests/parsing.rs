use timestamp_workflow::moment::Context;
use timestamp_workflow::parse::{parse, ParseError, SourceKind};

fn ctx_with(now_secs: i64, offset_secs: i32) -> Context {
    Context::new_checked(now_secs, 0, offset_secs).unwrap()
}

#[test]
fn empty_input_fails() {
    let ctx = ctx_with(1700000000, 0);
    assert!(matches!(parse("", &ctx), Err(ParseError::EmptyInput)));
}

#[test]
fn over_22_chars_fails_too_long() {
    let ctx = ctx_with(1700000000, 0);
    assert!(matches!(
        parse("11111111111111111111111", &ctx),
        Err(ParseError::TooLong)
    ));
}

#[test]
fn long_iso_string_still_parses() {
    // 26 characters: longer than the numeric budget, still a valid date
    let ctx = ctx_with(1700000000, 0);
    let (m, kind) = parse("2022-09-10T10:00:00 +02:00", &ctx).unwrap();
    assert_eq!(m.secs, 1662796800);
    assert_eq!(kind, SourceKind::TextualInput);
}

#[test]
fn huge_negative_integer_is_not_a_timestamp() {
    let ctx = ctx_with(1700000000, 0);
    assert!(matches!(
        parse("-9000000000000000000", &ctx),
        Err(ParseError::NotATimestamp)
    ));
}

#[test]
fn huge_positive_integer_is_not_a_timestamp() {
    let ctx = ctx_with(1700000000, 0);
    assert!(matches!(
        parse("9000000000000000000", &ctx),
        Err(ParseError::NotATimestamp)
    ));
}

#[test]
fn garbage_fails_no_format_matched() {
    let ctx = ctx_with(1700000000, 0);
    assert!(matches!(parse("abc", &ctx), Err(ParseError::NoFormatMatched)));
}

#[test]
fn error_messages_name_the_failure() {
    let ctx = ctx_with(1700000000, 0);
    let e = parse("abc", &ctx).unwrap_err();
    assert_eq!(e.message(), "no supported date or time format matched");
    let e = parse("", &ctx).unwrap_err();
    assert_eq!(e.message(), "empty input");
}

#[test]
fn magnitude_detection_seconds() {
    let ctx = ctx_with(1700000000, 0);
    let (m, kind) = parse("1662796800", &ctx).unwrap();
    assert_eq!((m.secs, m.nanos), (1662796800, 0));
    assert_eq!(kind, SourceKind::NumericInput);
}

#[test]
fn magnitude_detection_milliseconds() {
    let ctx = ctx_with(1700000000, 0);
    let (m, _) = parse("1662796800123", &ctx).unwrap();
    assert_eq!((m.secs, m.nanos), (1662796800, 123000000));
}

#[test]
fn magnitude_detection_microseconds() {
    let ctx = ctx_with(1700000000, 0);
    let (m, _) = parse("1662796800123456", &ctx).unwrap();
    assert_eq!((m.secs, m.nanos), (1662796800, 123456000));
}

#[test]
fn magnitude_detection_nanoseconds() {
    let ctx = ctx_with(1700000000, 0);
    let (m, _) = parse("1662796800123456789", &ctx).unwrap();
    assert_eq!((m.secs, m.nanos), (1662796800, 123456789));
}

#[test]
fn negative_integer_passes_through_as_raw_seconds() {
    let ctx = ctx_with(1700000000, 0);
    let (m, kind) = parse("-1", &ctx).unwrap();
    assert_eq!((m.secs, m.nanos), (-1, 0));
    assert_eq!(kind, SourceKind::NumericInput);
}

#[test]
fn plus_signed_integer_parses() {
    let ctx = ctx_with(1700000000, 0);
    let (m, kind) = parse("+1662796800", &ctx).unwrap();
    assert_eq!(m.secs, 1662796800);
    assert_eq!(kind, SourceKind::NumericInput);
}

#[test]
fn iso8601_utc_designator() {
    let ctx = ctx_with(1700000000, 0);
    let (m, kind) = parse("2022-09-10T10:00:00Z", &ctx).unwrap();
    assert_eq!(m.secs, 1662804000);
    assert_eq!(kind, SourceKind::TextualInput);
}

#[test]
fn rfc2822_with_offset() {
    let ctx = ctx_with(1700000000, 0);
    let (m, _) = parse("Sat, 10 Sep 2022 10:00:00 +0200", &ctx).unwrap();
    assert_eq!(m.secs, 1662796800);
}

#[test]
fn date_and_time_uses_local_offset() {
    let ctx = ctx_with(1700000000, 7200);
    let (m, _) = parse("2022-09-10 10:00:00", &ctx).unwrap();
    assert_eq!(m.secs, 1662796800);
}

#[test]
fn date_only_is_local_midnight() {
    let ctx = ctx_with(1700000000, 0);
    let (m, _) = parse("2022-09-10", &ctx).unwrap();
    assert_eq!(m.secs, 1662768000);
}

#[test]
fn date_only_respects_offset() {
    let ctx = ctx_with(1700000000, 7200);
    let (m, _) = parse("2022-09-10", &ctx).unwrap();
    assert_eq!(m.secs, 1662768000 - 7200);
}

#[test]
fn time_only_is_todays_local_date() {
    // now is 2022-09-10T08:00:00Z; at +02:00 the local date is 2022-09-10
    let ctx = ctx_with(1662796800, 7200);
    let (m, _) = parse("10:00:00", &ctx).unwrap();
    assert_eq!(m.secs, 1662796800);
}

#[test]
fn invalid_calendar_date_is_rejected() {
    let ctx = ctx_with(1700000000, 0);
    assert!(parse("2022-02-30", &ctx).is_err());
    assert!(parse("2022-13-01", &ctx).is_err());
    assert!(parse("25:00:00", &ctx).is_err());
}

#[test]
fn leap_day_is_accepted_only_in_leap_years() {
    let ctx = ctx_with(1700000000, 0);
    assert!(parse("2020-02-29", &ctx).is_ok());
    assert!(parse("2022-02-29", &ctx).is_err());
    assert!(parse("2000-02-29", &ctx).is_ok());
    assert!(parse("1900-02-28", &ctx).is_ok());
}
