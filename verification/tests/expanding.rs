use timestamp_workflow::expand::{expand, OutputEntry};
use timestamp_workflow::moment::{Context, Moment};
use timestamp_workflow::parse::SourceKind;
use timestamp_workflow::workflow::run;

fn ctx_with(now_secs: i64, offset_secs: i32) -> Context {
    Context::new_checked(now_secs, 0, offset_secs).unwrap()
}

fn values_equal_titles(entries: &[OutputEntry]) {
    for e in entries {
        assert_eq!(e.value, e.title);
    }
}

#[test]
fn numeric_input_emits_three_then_current_block() {
    let ctx = ctx_with(1662796800, 0);
    let entries = run("1662796800", None, &ctx).unwrap();
    assert_eq!(entries.len(), 9);
    assert_eq!(entries[0].subtitle, "From timestamp: Local time (+00:00)");
    assert_eq!(entries[1].subtitle, "From timestamp: UTC");
    assert_eq!(entries[2].subtitle, "Relative time");
    assert_eq!(entries[3].subtitle, "Current time in seconds (s)");
    values_equal_titles(&entries);
}

#[test]
fn textual_input_emits_four_epoch_renderings() {
    let ctx = ctx_with(1700000000, 0);
    let entries = run("2022-09-10T10:00:00Z", None, &ctx).unwrap();
    assert_eq!(entries.len(), 10);
    assert_eq!(entries[0].title, "1662804000");
    assert_eq!(entries[1].title, "1662804000000");
    assert_eq!(entries[2].title, "1662804000000000");
    assert_eq!(entries[3].title, "1662804000000000000");
    assert_eq!(entries[0].subtitle, "Time since epoch in seconds (s)");
    assert_eq!(entries[1].subtitle, "Time since epoch in milliseconds (ms)");
    assert_eq!(entries[2].subtitle, "Time since epoch in microseconds (µs)");
    assert_eq!(entries[3].subtitle, "Time since epoch in nanoseconds (ns)");
    values_equal_titles(&entries);
}

#[test]
fn no_input_emits_current_block_alone() {
    let ctx = ctx_with(1662796800, 0);
    let entries = run("", None, &ctx).unwrap();
    assert_eq!(entries.len(), 6);
    assert_eq!(entries[0].title, "1662796800");
    assert_eq!(entries[4].subtitle, "From Current time: Local time (+00:00)");
    assert_eq!(entries[5].subtitle, "From Current time: UTC");
    assert_eq!(entries[5].title, "2022-09-10 08:00:00");
    values_equal_titles(&entries);
}

#[test]
fn local_rendering_shifts_by_offset() {
    let ctx = ctx_with(1700000000, 7200);
    let entries = run("1662796800", None, &ctx).unwrap();
    assert_eq!(entries[0].title, "2022-09-10 10:00:00");
    assert_eq!(entries[0].subtitle, "From timestamp: Local time (+02:00)");
    assert_eq!(entries[1].title, "2022-09-10 08:00:00");
}

#[test]
fn negative_offset_renders_with_minus() {
    let ctx = ctx_with(1700000000, -3600);
    let entries = run("1662796800", None, &ctx).unwrap();
    assert_eq!(entries[0].title, "2022-09-10 07:00:00");
    assert_eq!(entries[0].subtitle, "From timestamp: Local time (-01:00)");
}

#[test]
fn relative_entry_matches_humantime() {
    let ctx = ctx_with(1662796800, 0);
    let entries = run("1662796923", None, &ctx).unwrap();
    let expected = humantime::format_duration(std::time::Duration::new(123, 0)).to_string();
    assert_eq!(entries[2].title, expected);
}

#[test]
fn relative_entry_shows_magnitude_for_past_moments() {
    let ctx = ctx_with(1662796923, 0);
    let entries = run("1662796800", None, &ctx).unwrap();
    let expected = humantime::format_duration(std::time::Duration::new(123, 0)).to_string();
    assert_eq!(entries[2].title, expected);
}

#[test]
fn pre_epoch_civil_rendering() {
    let ctx = ctx_with(1700000000, 0);
    let entries = run("-1", None, &ctx).unwrap();
    assert_eq!(entries[1].title, "1969-12-31 23:59:59");
}

#[test]
fn fractional_moment_truncates_toward_zero() {
    let ctx = ctx_with(1700000000, 0);
    let entries = run("1662796800123", None, &ctx).unwrap();
    // a millisecond-sized numeric input keeps its fraction internally
    assert_eq!(entries.len(), 9);
    let entries = run("2022-09-10T10:00:00.5Z", None, &ctx).unwrap();
    assert_eq!(entries[0].title, "1662804000");
    assert_eq!(entries[1].title, "1662804000500");
    assert_eq!(entries[2].title, "1662804000500000");
    assert_eq!(entries[3].title, "1662804000500000000");
}

#[test]
fn expanding_twice_is_identical() {
    let ctx = ctx_with(1662796800, 0);
    let m = Moment { secs: 1662796800, nanos: 0 };
    let a = expand(&m, SourceKind::TextualInput, "x", &ctx);
    let b = expand(&m, SourceKind::TextualInput, "x", &ctx);
    assert_eq!(a.len(), b.len());
    for (ea, eb) in a.iter().zip(b.iter()) {
        assert_eq!(ea.title, eb.title);
        assert_eq!(ea.subtitle, eb.subtitle);
        assert_eq!(ea.value, eb.value);
    }
}
