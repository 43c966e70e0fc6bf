use catacomb::config::{ConvertSection, SubtitlesSection};
use catacomb::download_options::DownloadOptions;
use catacomb::downloader::{
    check_url_for_folder, comments_args, cookie_args, finish_class, finished_state,
    format_compact_utc, impersonation_args, is_retryable, platform_extra_args, player_client_args,
    push_log_line, recheck_url, redact_sensitive, retry_args, retry_decision, retry_delay_secs,
    sponsorblock_args, subtitle_args, watchdog_should_kill, ConvertSpec, DownloadQuality, JobState,
    JOB_LOG_CAP, MAX_AUTO_RETRIES,
};
use catacomb::error_class::ErrorClass;
use catacomb::platform::Platform;

#[test]
fn check_url_for_folder_picks_channel_form_for_ids() {
    let url = check_url_for_folder("UC1234567890123456789012");
    assert_eq!(url, "https://www.youtube.com/channel/UC1234567890123456789012");
}

#[test]
fn check_url_for_folder_picks_handle_form_otherwise() {
    let url = check_url_for_folder("LinusTechTips");
    assert_eq!(url, "https://www.youtube.com/@LinusTechTips");
}

#[test]
fn check_url_counts_bytes_not_chars() {
    // 23 characters but 24 bytes: still the channel-id form, as str::len counts.
    assert_eq!(
        check_url_for_folder("UC12345678901234567890é"),
        "https://www.youtube.com/channel/UC12345678901234567890é"
    );
}

#[test]
fn recheck_prefers_stored_source_url() {
    assert_eq!(recheck_url(Some("https://www.tiktok.com/@x"), "x"), "https://www.tiktok.com/@x");
    assert_eq!(recheck_url(None, "x"), "https://www.youtube.com/@x");
}

#[test]
fn redact_sensitive_strips_cookie_path() {
    let abs = "/home/luna/.config/catacomb/cookies.txt";
    let input = format!("Unable to load cookies from {abs}");
    let out = redact_sensitive(&input, abs);
    assert_eq!(out, "Unable to load cookies from cookies.txt");
}

#[test]
fn redact_sensitive_pass_through_when_not_present() {
    let abs = "/home/luna/cookies.txt";
    let input = "[download]  47.2% of 100MiB";
    assert_eq!(redact_sensitive(input, abs), input);
}

#[test]
fn redact_with_empty_path_changes_nothing() {
    assert_eq!(redact_sensitive("abc", ""), "abc");
}

#[test]
fn quality_selectors_and_labels() {
    assert_eq!(DownloadQuality::Best.format_spec(), None);
    assert_eq!(
        DownloadQuality::Res720.format_spec(),
        Some("bestvideo[height<=720]+bestaudio/best[height<=720]")
    );
    assert_eq!(DownloadQuality::Res360.label(), "360p");
    assert_eq!(DownloadQuality::all().len(), 5);
    assert_eq!(DownloadQuality::default(), DownloadQuality::Best);
}

#[test]
fn retryable_only_for_transient_classes() {
    assert!(is_retryable(ErrorClass::RateLimited));
    assert!(is_retryable(ErrorClass::NetworkError));
    assert!(!is_retryable(ErrorClass::NotFound));
    assert!(!is_retryable(ErrorClass::MembersOnly));
    assert!(!is_retryable(ErrorClass::Geoblocked));
    assert!(!is_retryable(ErrorClass::CodecMissing));
    assert!(!is_retryable(ErrorClass::DiskFull));
    assert!(!is_retryable(ErrorClass::BadCookies));
    assert!(!is_retryable(ErrorClass::Other));
}

#[test]
fn retry_decisions() {
    let d = retry_decision(Some(ErrorClass::RateLimited), 0, true);
    assert!(d.engage_backoff);
    assert_eq!(d.next_attempt, Some(1));
    let d = retry_decision(Some(ErrorClass::NetworkError), MAX_AUTO_RETRIES, true);
    assert!(!d.engage_backoff);
    assert_eq!(d.next_attempt, None);
    let d = retry_decision(Some(ErrorClass::NotFound), 0, true);
    assert_eq!(d.next_attempt, None);
    let d = retry_decision(Some(ErrorClass::RateLimited), 0, false);
    assert!(d.engage_backoff);
    assert_eq!(d.next_attempt, None);
    let d = retry_decision(None, 0, true);
    assert!(!d.engage_backoff);
    assert_eq!(d.next_attempt, None);
    assert_eq!(retry_delay_secs(2), 180);
}

#[test]
fn watchdog_killed_job_fails_retryable() {
    assert_eq!(finished_state(false), JobState::Failed);
    let class = finish_class(false, None, true, &Vec::new());
    assert_eq!(class, Some(ErrorClass::NetworkError));
    assert!(is_retryable(class.unwrap()));
}

#[test]
fn normal_failure_still_classified_from_log() {
    let log = vec!["ERROR: Video unavailable. This video has been removed".to_string()];
    assert_eq!(finish_class(false, None, false, &log), Some(ErrorClass::NotFound));
    // Success and already-classified jobs keep what they had.
    assert_eq!(finish_class(true, None, false, &log), None);
    assert_eq!(finish_class(false, Some(ErrorClass::DiskFull), false, &log), Some(ErrorClass::DiskFull));
    assert_eq!(finished_state(true), JobState::Done);
}

#[test]
fn watchdog_decision() {
    assert!(watchdog_should_kill(JobState::Running, false, true, 300));
    assert!(!watchdog_should_kill(JobState::Running, false, true, 299));
    assert!(!watchdog_should_kill(JobState::Running, true, true, 1000));
    assert!(!watchdog_should_kill(JobState::Done, false, true, 1000));
    assert!(!watchdog_should_kill(JobState::Running, false, false, 1000));
}

#[test]
fn log_is_capped() {
    let mut log: Vec<String> = Vec::new();
    for i in 0..(JOB_LOG_CAP + 5) {
        push_log_line(&mut log, format!("line {i}"));
    }
    assert_eq!(log.len(), JOB_LOG_CAP);
    assert_eq!(log[0], "line 5");
    assert_eq!(log[JOB_LOG_CAP - 1], format!("line {}", JOB_LOG_CAP + 4));
}

#[test]
fn adaptive_backoff_triples_sleeps() {
    let args = retry_args(false);
    assert!(args.windows(2).any(|w| w == ["--sleep-requests", "1"]));
    assert!(args.windows(2).any(|w| w == ["--max-sleep-interval", "6"]));
    let args2 = retry_args(true);
    assert!(args2.windows(2).any(|w| w == ["--sleep-requests", "3"]));
    assert!(args2.windows(2).any(|w| w == ["--max-sleep-interval", "20"]));
}

#[test]
fn convert_off_when_global_empty_and_no_override() {
    let g = ConvertSection::default(); // mode = ""
    assert!(ConvertSpec::resolve(&g, None).is_none());
}

#[test]
fn convert_global_h264_defaults_filled() {
    let g = ConvertSection {
        mode: "h264-mp4".into(),
        crf: 0,
        preset: String::new(),
        audio_format: String::new(),
        keep_original: false,
    };
    let s = ConvertSpec::resolve(&g, None).unwrap();
    assert_eq!(s.mode, "h264-mp4");
    assert_eq!(s.crf, 23); // 0 → default 23
    assert_eq!(s.preset, "medium"); // empty → default
}

#[test]
fn convert_per_channel_off_overrides_global_on() {
    let g = ConvertSection { mode: "h264-mp4".into(), ..Default::default() };
    let opts = DownloadOptions { convert_mode: Some("off".into()), ..Default::default() };
    assert!(ConvertSpec::resolve(&g, Some(&opts)).is_none());
}

#[test]
fn convert_per_channel_mode_wins() {
    let g = ConvertSection { mode: "h264-mp4".into(), ..Default::default() };
    let opts = DownloadOptions { convert_mode: Some("audio".into()), ..Default::default() };
    let s = ConvertSpec::resolve(&g, Some(&opts)).unwrap();
    assert_eq!(s.mode, "audio");
    assert_eq!(s.audio_format, "mp3"); // empty global → default mp3
}

#[test]
fn convert_mode_is_trimmed_and_empty_override_defers() {
    let g = ConvertSection { mode: "  remux-mp4 ".into(), crf: 30, ..Default::default() };
    let opts = DownloadOptions { convert_mode: Some(String::new()), ..Default::default() };
    let s = ConvertSpec::resolve(&g, Some(&opts)).unwrap();
    assert_eq!(s.mode, "remux-mp4");
    assert_eq!(s.crf, 30);
}

#[test]
fn subs_global_defaults_emit_write_and_auto() {
    let args = subtitle_args(&SubtitlesSection::default(), None);
    assert!(args.contains(&"--write-subs".to_string()));
    assert!(args.contains(&"--write-auto-subs".to_string()));
    assert!(!args.contains(&"--embed-subs".to_string()));
    assert!(!args.iter().any(|a| a == "--convert-subs"));
}

#[test]
fn subs_disabled_emits_nothing() {
    let mut g = SubtitlesSection::default();
    g.enabled = false;
    assert!(subtitle_args(&g, None).is_empty());
}

#[test]
fn subs_global_format_embed_langs() {
    let g = SubtitlesSection {
        enabled: true,
        auto_generated: false,
        embed: true,
        format: "srt".into(),
        langs: "en,ja".into(),
    };
    let args = subtitle_args(&g, None);
    assert!(args.contains(&"--write-subs".to_string()));
    assert!(!args.contains(&"--write-auto-subs".to_string()));
    assert!(args.windows(2).any(|w| w == ["--sub-langs", "en,ja"]));
    assert!(args.windows(2).any(|w| w == ["--convert-subs", "srt"]));
    assert!(args.contains(&"--embed-subs".to_string()));
}

#[test]
fn subs_per_channel_overrides_global() {
    let g = SubtitlesSection::default();
    let opts = DownloadOptions { subtitles_enabled: Some(false), ..Default::default() };
    assert!(subtitle_args(&g, Some(&opts)).is_empty());
    let opts2 = DownloadOptions {
        subtitles_auto: Some(false),
        subtitles_embed: Some(true),
        subtitle_langs: vec!["en".into()],
        subtitle_format: Some("vtt".into()),
        ..Default::default()
    };
    let args = subtitle_args(&g, Some(&opts2));
    assert!(!args.contains(&"--write-auto-subs".to_string()));
    assert!(args.contains(&"--embed-subs".to_string()));
    assert!(args.windows(2).any(|w| w == ["--sub-langs", "en"]));
    assert!(args.windows(2).any(|w| w == ["--convert-subs", "vtt"]));
}

#[test]
fn subs_channel_settings_in_order() {
    let g = SubtitlesSection::default();
    let opts = DownloadOptions { subtitles_enabled: Some(false), ..Default::default() };
    assert!(subtitle_args(&g, Some(&opts)).is_empty());
    let opts2 = DownloadOptions {
        subtitles_auto: Some(false),
        subtitles_embed: Some(true),
        subtitle_langs: vec!["en".into(), "ja".into()],
        subtitle_format: Some("vtt".into()),
        ..Default::default()
    };
    let args = subtitle_args(&g, Some(&opts2));
    assert_eq!(
        args,
        vec!["--write-subs", "--sub-langs", "en,ja", "--convert-subs", "vtt", "--embed-subs"]
    );
}

#[test]
fn player_client_sponsorblock_and_comments() {
    assert!(player_client_args("", None).is_empty());
    assert_eq!(
        player_client_args(" tv,mweb ", None),
        vec!["--extractor-args", "youtube:player_client=tv,mweb"]
    );
    let opts = DownloadOptions { youtube_player_clients: Some("  ".into()), ..Default::default() };
    assert_eq!(
        player_client_args("web", Some(&opts)),
        vec!["--extractor-args", "youtube:player_client=web"]
    );
    assert_eq!(sponsorblock_args("mark", None), vec!["--sponsorblock-mark", "all"]);
    let opts = DownloadOptions { sponsorblock_mode: Some("remove".into()), ..Default::default() };
    assert_eq!(sponsorblock_args("mark", Some(&opts)), vec!["--sponsorblock-remove", "all"]);
    assert!(sponsorblock_args("off", None).is_empty());
    assert_eq!(comments_args(true, None), vec!["--write-comments"]);
    let opts = DownloadOptions { fetch_comments: Some(false), ..Default::default() };
    assert!(comments_args(true, Some(&opts)).is_empty());
}

#[test]
fn platform_cookie_and_impersonation_flags() {
    assert_eq!(platform_extra_args(Platform::Bandcamp), vec!["--embed-thumbnail"]);
    assert!(platform_extra_args(Platform::YouTube).is_empty());
    assert!(impersonation_args(Platform::Twitch).is_empty());
    assert_eq!(impersonation_args(Platform::TikTok), vec!["--impersonate", "Chrome-Android-131"]);
    assert_eq!(cookie_args(true, "firefox"), vec!["--cookies", "cookies.txt"]);
    assert_eq!(cookie_args(false, "firefox"), vec!["--cookies-from-browser", "firefox"]);
    assert!(cookie_args(false, "none").is_empty());
    assert!(cookie_args(false, "").is_empty());
}

#[test]
fn compact_utc_timestamps() {
    assert_eq!(format_compact_utc(0), "19700101-000000");
    assert_eq!(format_compact_utc(1_779_475_331), "20260522-184211");
    assert_eq!(format_compact_utc(1_582_934_400), "20200229-000000");
}
