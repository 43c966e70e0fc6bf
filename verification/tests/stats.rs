use catacomb::stats::{monday_start, now_unix};

#[test]
fn monday_start_aligns_to_monday() {
    // 1970-01-05 00:00 UTC = 345600 (Monday).
    assert_eq!(monday_start(345_600), 345_600);
    // 1970-01-12 00:00 UTC = 950400 (next Monday).
    assert_eq!(monday_start(950_400), 950_400);
    // A Wednesday rolls back to the Monday two days earlier.
    assert_eq!(monday_start(345_600 + 2 * 86_400), 345_600);
    // Pre-1970-01-05 returns 0.
    assert_eq!(monday_start(86_400), 0);
}

#[test]
fn monday_start_of_a_sunday_night() {
    // 2024-01-07 23:59:59 UTC is a Sunday; its week began 2024-01-01.
    assert_eq!(monday_start(1_704_671_999), 1_704_067_200);
}

#[test]
fn clock_reads_after_2020() {
    assert!(now_unix() > 1_577_836_800);
}

#[test]
fn video_totals_count_sizes_and_watched() {
    let t = catacomb::stats::video_totals(&vec![Some(10), None, Some(5)], &vec![true, false, true]);
    assert_eq!(t.videos, 3);
    assert_eq!(t.size_bytes, 15);
    assert_eq!(t.watched, 2);
    let e = catacomb::stats::video_totals(&vec![], &vec![]);
    assert_eq!((e.videos, e.size_bytes, e.watched), (0, 0, 0));
}
