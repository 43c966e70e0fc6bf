use catacomb::autotag::{cadence_per_month, month_span};
use catacomb::config::{
    backup_with_dir, default_max_concurrent, default_theme, PlayerSection, SchedulerSection,
    SubtitlesSection, WebSection,
};
use catacomb::database::{fts_match_expr, RestoreSummary, VideoFlagsBundle};
use catacomb::desktop::{file_label, format_upload_date, week_label};
use catacomb::maintenance::{best_copy_index, missing_assets, refusal_message, DuplicateCopy};
use catacomb::remote::{is_peer_media_path, rewrite_media_value};
use catacomb::tray::{activate_event, menu_entries, TrayEntry, TrayEvent};
use catacomb::vtt::strip_tags;

#[test]
fn fts_expression_quotes_terms() {
    assert_eq!(fts_match_expr("async dive"), "\"async\"* \"dive\"*");
    assert_eq!(fts_match_expr("   \"  "), "");
    assert_eq!(fts_match_expr("a\"b OR"), "\"a b\"* \"OR\"*");
}

#[test]
fn empty_records_by_default() {
    let f = VideoFlagsBundle::default();
    assert!(f.bookmark.is_empty() && f.archive.is_empty());
    assert_eq!(RestoreSummary::default().notes_added, 0);
}

#[test]
fn config_defaults() {
    assert!(SubtitlesSection::default().enabled);
    assert_eq!(PlayerSection::default().command, "mpv");
    assert_eq!(SchedulerSection::default().interval_hours, 24);
    let w = WebSection::default();
    assert_eq!((w.port, w.bind.as_str()), (8080, "127.0.0.1"));
    assert_eq!(default_max_concurrent(), 3);
    assert_eq!(default_theme(), "dark");
    assert_eq!(backup_with_dir("/v".into()).directory, "/v");
}

#[test]
fn desktop_labels() {
    assert_eq!(file_label("/a/b/c.mkv"), "c.mkv");
    assert_eq!(file_label("/"), "/");
    assert_eq!(format_upload_date("20240315"), "2024-03-15");
    assert_eq!(format_upload_date("2024031"), "");
    assert_eq!(format_upload_date("2024-03-15"), "");
    assert_eq!(week_label(1_704_067_200), "1/1");
    assert_eq!(week_label(1_582_934_400), "2/29");
}

#[test]
fn cadence_from_upload_dates() {
    assert_eq!(month_span(20240115, 20240610), 5);
    assert_eq!(month_span(20240610, 20240115), 0);
    let dates = vec![
        Some("20240115".to_string()),
        None,
        Some("bad".to_string()),
        Some("20240610".to_string()),
        Some("20240301".to_string()),
        Some("0".to_string()),
    ];
    // Three usable dates over five months: rounds down to 0, floored at 1.
    assert_eq!(cadence_per_month(&dates), Some(1));
    assert_eq!(cadence_per_month(&vec![Some("20240101".to_string())]), None);
    let many: Vec<Option<String>> = (1..=20).map(|d| Some(format!("202401{d:02}"))).collect();
    assert_eq!(cadence_per_month(&many), Some(20));
}

#[test]
fn duplicate_copy_choice() {
    let copy = |has_video: bool, size: Option<u64>, n: usize| DuplicateCopy {
        location: String::new(),
        files: vec![String::new(); n],
        file_size: size,
        has_video,
        recommended_keep: false,
    };
    let copies = vec![copy(false, Some(900), 5), copy(true, Some(10), 1), copy(true, Some(10), 1)];
    // A video file dominates; among equals the last wins.
    assert_eq!(best_copy_index(&copies), 2);
    let copies = vec![copy(true, None, 3), copy(true, Some(1), 1)];
    assert_eq!(best_copy_index(&copies), 1);
    assert!(missing_assets("i".into(), "t".into(), "l".into(), true, true, true).is_none());
    let m = missing_assets("i".into(), "t".into(), "l".into(), false, true, true).unwrap();
    assert!(m.missing_thumbnail && !m.missing_info);
    assert_eq!(refusal_message("/etc/passwd"), "refused (outside library): /etc/passwd");
}

#[test]
fn media_values_rewritten_by_key_and_path() {
    assert!(is_peer_media_path("/files/channels/chan/folder.jpg"));
    assert!(!is_peer_media_path("https://youtube.com/@chan"));
    assert_eq!(
        rewrite_media_value("video_url", "/api/transcode/abc", "http://peer:8081", "TOK"),
        Some("http://peer:8081/api/transcode/abc?token=TOK".to_string())
    );
    assert_eq!(
        rewrite_media_value("url", "/api/sub-vtt/x.vtt?lang=en", "http://p", "T"),
        Some("http://p/api/sub-vtt/x.vtt?lang=en&token=T".to_string())
    );
    assert_eq!(rewrite_media_value("channel_url", "https://youtube.com/@chan", "http://p", "T"), None);
    assert_eq!(rewrite_media_value("title", "/files/x", "http://p", "T"), None);
}

#[test]
fn tray_menu_layout() {
    assert_eq!(activate_event(), TrayEvent::Show);
    let m = menu_entries();
    assert_eq!(m.len(), 4);
    assert!(matches!(m[2], TrayEntry::Separator));
    match m[3] {
        TrayEntry::Item { label, icon, event } => {
            assert_eq!(label, "Quit");
            assert_eq!(icon, "application-exit");
            assert_eq!(event, TrayEvent::Quit);
        }
        _ => panic!("expected the Quit item"),
    }
}

#[test]
fn strips_inline_tags() {
    assert_eq!(strip_tags("<c.colorE5E5E5>Hello</c> <00:00:01.000>world"), "Hello world");
    assert_eq!(strip_tags("a > b"), "a  b");
}
