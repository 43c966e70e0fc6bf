use catacomb::crash::{
    civil_from_unix, crash_entry, iso8601, needs_rotation, now_iso8601, panic_location, with_suffix,
    LOG_SIZE_CAP_BYTES,
};

#[test]
fn civil_round_trips_known_dates() {
    // 2024-01-01T00:00:00Z is 1704067200
    assert_eq!(civil_from_unix(1_704_067_200), (2024, 1, 1, 0, 0, 0));
    // 2026-05-22T18:42:11Z is 1779475331
    assert_eq!(civil_from_unix(1_779_475_331), (2026, 5, 22, 18, 42, 11));
    // Unix epoch
    assert_eq!(civil_from_unix(0), (1970, 1, 1, 0, 0, 0));
    // Leap day
    assert_eq!(civil_from_unix(1_582_934_400), (2020, 2, 29, 0, 0, 0));
}

#[test]
fn iso_format_has_expected_shape() {
    let s = now_iso8601();
    // YYYY-MM-DDTHH:MM:SSZ — 20 chars
    assert_eq!(s.len(), 20);
    assert!(s.ends_with('Z'));
    assert_eq!(s.as_bytes()[4], b'-');
    assert_eq!(s.as_bytes()[7], b'-');
    assert_eq!(s.as_bytes()[10], b'T');
}

#[test]
fn civil_before_epoch() {
    // One second before the epoch is the last second of 1969.
    assert_eq!(civil_from_unix(-1), (1969, 12, 31, 23, 59, 59));
    // 1900-03-01 00:00:00 UTC (1900 is not a leap year).
    assert_eq!(civil_from_unix(-2_203_891_200), (1900, 3, 1, 0, 0, 0));
}

#[test]
fn iso8601_formats_known_instants() {
    assert_eq!(iso8601(1_779_475_331), "2026-05-22T18:42:11Z");
    assert_eq!(iso8601(0), "1970-01-01T00:00:00Z");
    assert_eq!(iso8601(-1), "1969-12-31T23:59:59Z");
}

#[test]
fn rotation_name_and_threshold() {
    assert_eq!(with_suffix("/data/catacomb.crash.log", ".1"), "/data/catacomb.crash.log.1");
    assert_eq!(LOG_SIZE_CAP_BYTES, 256 * 1024);
    assert!(!needs_rotation(LOG_SIZE_CAP_BYTES - 1));
    assert!(needs_rotation(LOG_SIZE_CAP_BYTES));
}

#[test]
fn panic_location_is_file_line_column() {
    assert_eq!(panic_location("src/main.rs", 42, 7), "src/main.rs:42:7");
}

#[test]
fn crash_entry_has_header_location_and_indented_message() {
    let e = crash_entry(
        "2024-01-01T00:00:00Z",
        "\"crash-test\"",
        "src/x.rs:1:2",
        "deliberate test panic — please ignore\nsecond line",
    );
    assert_eq!(
        e,
        "\n── 2024-01-01T00:00:00Z  thread: \"crash-test\"  ─────────────────────────\n\
         panic at src/x.rs:1:2:\n  deliberate test panic — please ignore\n  second line\n"
    );
    assert!(e.contains("deliberate test panic — please ignore"));
}

#[test]
fn crash_entry_with_empty_message_has_no_message_lines() {
    let e = crash_entry("t", "\"main\"", "<unknown>", "");
    assert!(e.ends_with("panic at <unknown>:\n"));
}

