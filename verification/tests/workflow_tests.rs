use timestamp_workflow::moment::Context;
use timestamp_workflow::workflow::run;

fn ctx_utc() -> Context {
    Context::new_checked(1700000000, 0, 0).unwrap()
}

#[test]
fn it_parses_valid_timestamps() {
    let cases = [
        ("1662796800", "2022-09-10 08:00:00"),
        ("1662796800000", "2022-09-10 08:00:00"),
        ("1662796800000000", "2022-09-10 08:00:00"),
    ];
    for (input, expected_date_str) in cases {
        let items = run(input, None, &ctx_utc()).unwrap();
        assert_eq!(items[1].title, expected_date_str);
        assert_eq!(items[1].value, items[1].title);
    }
}

#[test]
fn it_parses_valid_strings() {
    let cases = [
        ("2022-09-10T10:00:00Z", 1662804000),
        ("2022-09-10T10:00:00 +00:00", 1662804000),
        ("2022-09-10T10:00:00 +02:00", 1662796800),
        ("Sat, 10 Sep 2022 10:00:00 +0200", 1662796800),
        ("2022-09-10 10:00:00", 1662804000),
        ("2022-09-10", 1662768000),
    ];
    for (input, expected_timestamp) in cases {
        let items = run(input, None, &ctx_utc()).unwrap();
        assert_eq!(items[0].title, expected_timestamp.to_string());
        assert_eq!(items[0].value, items[0].title);
    }
    // The local formats follow the snapshot's offset: at +02:00 the same
    // combined string is two hours earlier in UTC, and the bare date is
    // local midnight shifted likewise.
    let ctx = Context::new_checked(1700000000, 0, 7200).unwrap();
    let items = run("2022-09-10 10:00:00", None, &ctx).unwrap();
    assert_eq!(items[0].title, "1662796800");
    let items = run("2022-09-10", None, &ctx).unwrap();
    assert_eq!(items[0].title, "1662760800");
}

#[test]
fn it_ignores_clipboard_if_input_present() {
    let items = run(
        "2022-09-10T10:00:00Z",
        Some("1970-01-01T00:00:00Z"),
        &ctx_utc(),
    )
    .unwrap();
    assert_eq!(items[0].title, "1662804000");
    assert_eq!(items[0].value, items[0].title);
}

#[test]
fn it_uses_clipboard_if_no_input_present() {
    let items = run("", Some("1970-01-01T00:00:00Z"), &ctx_utc()).unwrap();
    assert_eq!(items[0].title, "0");
    assert_eq!(items[0].value, items[0].title);
}

#[test]
fn unparsable_clipboard_falls_back_to_current_time() {
    let items = run("", Some("not a date"), &ctx_utc()).unwrap();
    assert_eq!(items.len(), 6);
    assert_eq!(items[0].title, "1700000000");
}

#[test]
fn unparsable_query_is_an_error() {
    assert!(run("not a date", None, &ctx_utc()).is_err());
}
