use timestamp_workflow::moment::Context;
use timestamp_workflow::parse::{parse, ParseError};
use timestamp_workflow::workflow::run;

fn ctx_utc() -> Context {
    Context::new_checked(1700000000, 0, 0).unwrap()
}

#[test]
fn twenty_digits_over_i64_fail_no_format() {
    // twenty nines exceed an i64, so integer parsing itself rejects them
    assert!(matches!(
        parse("99999999999999999999", &ctx_utc()),
        Err(ParseError::NoFormatMatched)
    ));
}

#[test]
fn magnitude_boundary_at_u32_max() {
    // the largest value read as raw seconds
    let (m, _) = parse("4294967295", &ctx_utc()).unwrap();
    assert_eq!((m.secs, m.nanos), (4294967295, 0));
    // one more and three digits are demoted into the fraction
    let (m, _) = parse("4294967296", &ctx_utc()).unwrap();
    assert_eq!((m.secs, m.nanos), (4294967, 296000000));
}

#[test]
fn largest_nanosecond_magnitude_round_trips() {
    let (m, _) = parse("4294967295999999999", &ctx_utc()).unwrap();
    assert_eq!((m.secs, m.nanos), (4294967295, 999999999));
    let entries = run("", Some("4294967295999999999"), &ctx_utc()).unwrap();
    // the clipboard value is numeric, so the first entry is its local civil time
    assert_eq!(entries.len(), 9);
}

#[test]
fn second_range_matches_chrono() {
    // the most negative second chrono can represent still parses ...
    let (m, _) = parse("-8334601228800", &ctx_utc()).unwrap();
    assert_eq!(m.secs, -8334601228800);
    assert!(chrono::DateTime::from_timestamp(-8334601228800, 0).is_some());
    // ... and one below it is rejected, exactly as chrono rejects it
    assert!(matches!(
        parse("-8334601228801", &ctx_utc()),
        Err(ParseError::NotATimestamp)
    ));
    assert!(chrono::DateTime::from_timestamp(-8334601228801, 0).is_none());
}

#[test]
fn civil_rendering_matches_chrono() {
    // raw-second inputs: small enough to escape magnitude demotion
    let samples: [i64; 5] = [0, 1662804000, -1, 951782400, -62135596800];
    for secs in samples {
        let entries = run(&secs.to_string(), None, &ctx_utc()).unwrap();
        let expected = chrono::DateTime::from_timestamp(secs, 0)
            .unwrap()
            .format("%Y-%m-%d %H:%M:%S")
            .to_string();
        assert_eq!(entries[1].title, expected, "for {} seconds", secs);
    }
    // far-future seconds reach the renderer through the current-time block
    let far: [i64; 2] = [253402300799, 8210266876799];
    for secs in far {
        let ctx = Context::new_checked(secs, 0, 0).unwrap();
        let entries = run("", None, &ctx).unwrap();
        let expected = chrono::DateTime::from_timestamp(secs, 0)
            .unwrap()
            .format("%Y-%m-%d %H:%M:%S")
            .to_string();
        assert_eq!(entries[5].title, expected, "for {} seconds", secs);
    }
}
