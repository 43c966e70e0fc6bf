use catacomb::download_options::DownloadOptions;
use catacomb::downloader::DownloadQuality;

#[test]
fn is_empty_detects_default() {
    assert!(DownloadOptions::default().is_empty());
    assert!(!DownloadOptions {
        audio_only: true,
        ..Default::default()
    }
    .is_empty());
}

#[test]
fn empty_options_emit_nothing() {
    assert!(DownloadOptions::default().apply().is_empty());
}

#[test]
fn limit_rate_emits_correct_flag() {
    let args = DownloadOptions { limit_rate_kb: Some(500), ..Default::default() }.apply();
    assert_eq!(args, vec!["--limit-rate", "500K"]);
}

#[test]
fn skip_auth_check_emits_extractor_arg() {
    let args = DownloadOptions { skip_auth_check: true, ..Default::default() }.apply();
    assert_eq!(args, vec!["--extractor-args", "youtubetab:skip=authcheck"]);
}

#[test]
fn audio_only_adds_extract_audio_chain() {
    let args = DownloadOptions { audio_only: true, ..Default::default() }.apply();
    assert!(args.windows(2).any(|w| w == ["--extract-audio".to_string(), "--audio-format".to_string()]));
    assert_eq!(args, vec!["--extract-audio", "--audio-format", "best", "--audio-quality", "0"]);
}

#[test]
fn extra_args_pass_through_verbatim() {
    let args = DownloadOptions {
        extra_args: vec!["--no-cache-dir".into(), "--verbose".into()],
        ..Default::default()
    }
    .apply();
    assert_eq!(args, vec!["--no-cache-dir", "--verbose"]);
}

#[test]
fn extra_args_skip_empty_entries() {
    let args = DownloadOptions {
        extra_args: vec!["--no-cache-dir".into(), "".into(), "--verbose".into()],
        ..Default::default()
    }
    .apply();
    assert_eq!(args, vec!["--no-cache-dir", "--verbose"]);
}

#[test]
fn all_options_in_order() {
    let args = DownloadOptions {
        quality: Some(DownloadQuality::Res1080),
        min_filesize_mb: Some(1),
        max_filesize_mb: Some(2048),
        date_after: Some("20240101".into()),
        match_filter: Some(String::new()),
        ..Default::default()
    }
    .apply();
    assert_eq!(
        args,
        vec!["--min-filesize", "1M", "--max-filesize", "2048M", "--dateafter", "20240101"]
    );
}

#[test]
fn non_default_fields_are_not_empty() {
    assert!(!DownloadOptions { date_after: Some(String::new()), ..Default::default() }.is_empty());
    assert!(!DownloadOptions { subtitle_langs: vec!["en".into()], ..Default::default() }.is_empty());
    assert!(!DownloadOptions { fetch_comments: Some(false), ..Default::default() }.is_empty());
}
