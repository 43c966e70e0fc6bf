use catacomb::download_options::DownloadOptions;
use catacomb::downloader::DownloadQuality;
use catacomb::web::{check_quality, scheduler_due};
use catacomb::config::{backup_with_dir, PlexSection, SchedulerSection, WebSection};
use catacomb::web::{
    apply_settings, library_etag, music_file_url, next_check_secs, preview_args, subtitle_url,
    transcode_stream_args, video_url, SettingsUpdate,
};

fn update() -> SettingsUpdate {
    SettingsUpdate {
        transcode: true,
        bind_mode: None,
        plex_library_path: None,
        source_url: None,
        scheduler_enabled: true,
        scheduler_interval_hours: 0,
        max_concurrent: 0,
        use_bundled_ytdlp: true,
    }
}

#[test]
fn settings_update_sets_switches_and_keeps_zeroes() {
    let mut web = WebSection::default();
    let mut plex = PlexSection::default();
    let mut sched = SchedulerSection::default();
    let mut backup = backup_with_dir("/lib/channels".into());
    let before_concurrent = backup.max_concurrent;
    apply_settings(&mut web, &mut plex, &mut sched, &mut backup, &update(), None, None);
    assert!(web.transcode);
    assert_eq!(web.bind, "127.0.0.1");
    assert_eq!(web.port, 8080);
    assert!(sched.enabled);
    assert_eq!(sched.interval_hours, 24);
    assert_eq!(backup.max_concurrent, before_concurrent);
    assert!(backup.use_bundled_ytdlp);
    assert_eq!(backup.directory, "/lib/channels");
    assert_eq!(plex.library_path, None);
}

#[test]
fn settings_update_text_fields_trim_and_clear() {
    let mut web = WebSection::default();
    web.source_url = Some("https://old.example".into());
    let mut plex = PlexSection { library_path: Some("/plex".into()) };
    let mut sched = SchedulerSection::default();
    let mut backup = backup_with_dir("/lib/channels".into());
    let mut u = update();
    u.plex_library_path = Some("   ".into());
    u.source_url = Some("  https://code.example/x  ".into());
    u.scheduler_interval_hours = 6;
    u.max_concurrent = 5;
    u.bind_mode = Some("lan".into());
    apply_settings(&mut web, &mut plex, &mut sched, &mut backup, &u, Some("100.64.0.1"), Some("192.168.1.5"));
    assert_eq!(plex.library_path, None);
    assert_eq!(web.source_url.as_deref(), Some("https://code.example/x"));
    assert_eq!(sched.interval_hours, 6);
    assert_eq!(backup.max_concurrent, 5);
    assert_eq!(web.bind, "192.168.1.5");
}

#[test]
fn settings_update_bind_modes() {
    for (mode, ts, lan, want) in [
        ("tailscale", Some("100.64.0.1"), None, "100.64.0.1"),
        ("tailscale", None, Some("192.168.1.5"), "127.0.0.1"),
        ("all", None, None, "0.0.0.0"),
        ("whatever", Some("100.64.0.1"), Some("192.168.1.5"), "127.0.0.1"),
    ] {
        let mut web = WebSection::default();
        let mut plex = PlexSection::default();
        let mut sched = SchedulerSection::default();
        let mut backup = backup_with_dir("/c".into());
        let mut u = update();
        u.bind_mode = Some(mode.into());
        apply_settings(&mut web, &mut plex, &mut sched, &mut backup, &u, ts, lan);
        assert_eq!(web.bind, want, "mode {mode}");
    }
}

#[test]
fn next_check_countdown() {
    assert_eq!(next_check_secs(false, 24, Some(10)), None);
    assert_eq!(next_check_secs(true, 24, None), Some(0));
    assert_eq!(next_check_secs(true, 1, Some(600)), Some(3000));
    assert_eq!(next_check_secs(true, 1, Some(3600)), Some(0));
    assert_eq!(next_check_secs(true, 1, Some(99_999)), Some(0));
}

#[test]
fn transcode_arguments() {
    let a = transcode_stream_args("/lib/v.mkv");
    assert_eq!(a.len(), 20);
    assert_eq!(&a[3..5], &["-i".to_string(), "/lib/v.mkv".to_string()]);
    assert_eq!(a.last().map(String::as_str), Some("-"));
    assert!(a.windows(2).any(|w| w == ["-c:v", "libx264"]));
}

#[test]
fn preview_arguments() {
    assert_eq!(
        preview_args("https://www.youtube.com/@x", true, "firefox"),
        vec![
            "--dump-single-json",
            "--flat-playlist",
            "--no-warnings",
            "--cookies",
            "cookies.txt",
            "--impersonate",
            "Chrome-146:Macos-26",
            "https://www.youtube.com/@x",
        ]
    );
    assert_eq!(
        preview_args("https://www.twitch.tv/x", false, "firefox"),
        vec![
            "--dump-single-json",
            "--flat-playlist",
            "--no-warnings",
            "--cookies-from-browser",
            "firefox",
            "https://www.twitch.tv/x",
        ]
    );
    assert_eq!(
        preview_args("https://www.tiktok.com/@x", false, "none"),
        vec![
            "--dump-single-json",
            "--flat-playlist",
            "--no-warnings",
            "--impersonate",
            "Chrome-Android-131",
            "https://www.tiktok.com/@x",
        ]
    );
}

#[test]
fn media_urls() {
    assert_eq!(video_url(true, "a b", "/lib", "/lib/x.mkv").as_deref(), Some("/api/transcode/a%20b"));
    assert_eq!(video_url(false, "id", "/lib", "/lib/ch/x y.mkv").as_deref(), Some("/files/ch/x%20y.mkv"));
    assert_eq!(video_url(false, "id", "/lib", "/elsewhere/x.mkv"), None);
    assert_eq!(subtitle_url("/lib", "/lib/ch/x.en.srt").as_deref(), Some("/api/sub-vtt/ch/x.en.srt"));
    assert_eq!(subtitle_url("/lib", "/lib/ch/x.en.vtt").as_deref(), Some("/files/ch/x.en.vtt"));
    assert_eq!(subtitle_url("/lib", "/other/x.en.srt"), None);
    assert_eq!(music_file_url("/lib/music", "/lib/music/A/s.opus").as_deref(), Some("/music-files/A/s.opus"));
    assert_eq!(music_file_url("/lib/music", "/lib/channels/s.opus"), None);
    assert_eq!(library_etag(42), "\"42\"");
    assert_eq!(library_etag(0), "\"0\"");
}

#[test]
fn scheduler_runs_when_due() {
    assert!(!scheduler_due(false, 24, false, None));
    assert!(!scheduler_due(true, 24, true, None));
    assert!(scheduler_due(true, 24, false, None));
    assert!(!scheduler_due(true, 2, false, Some(7199)));
    assert!(scheduler_due(true, 2, false, Some(7200)));
    // A zero interval counts as one hour.
    assert!(!scheduler_due(true, 0, false, Some(60)));
    assert!(scheduler_due(true, 0, false, Some(3600)));
}

#[test]
fn scheduled_check_quality_follows_channel_cap() {
    assert_eq!(check_quality(&DownloadOptions::default()), DownloadQuality::Best);
    let o = DownloadOptions { quality: Some(DownloadQuality::Res720), ..Default::default() };
    assert_eq!(check_quality(&o), DownloadQuality::Res720);
}
