use catacomb::error_class::{classify, classify_line, ErrorClass};

fn classify_str(s: &str) -> ErrorClass {
    let lines: Vec<String> = s.lines().map(String::from).collect();
    classify(&lines)
}

#[test]
fn detects_rate_limit_429() {
    assert_eq!(
        classify_str("ERROR: HTTP Error 429: Too Many Requests"),
        ErrorClass::RateLimited
    );
}

#[test]
fn detects_sign_in_to_confirm() {
    assert_eq!(
        classify_str("ERROR: [youtube] dQw4w9WgXcQ: Sign in to confirm you're not a bot. Use --cookies-from-browser..."),
        ErrorClass::RateLimited
    );
}

#[test]
fn detects_members_only() {
    assert_eq!(
        classify_str("ERROR: [youtube] abc: Join this channel to get access to members-only content."),
        ErrorClass::MembersOnly
    );
}

#[test]
fn detects_video_removed() {
    assert_eq!(
        classify_str("ERROR: [youtube] xyz: Video unavailable. This video has been removed by the uploader."),
        ErrorClass::NotFound
    );
}

#[test]
fn captcha_wall_is_rate_limited_not_not_found() {
    assert_eq!(
        classify_str("ERROR: [youtube] tfoprUBw0H0: Video unavailable. YouTube is requiring a captcha challenge before playback"),
        ErrorClass::RateLimited
    );
}

#[test]
fn detects_geo_block() {
    assert_eq!(
        classify_str("ERROR: The uploader has not made this video available in your country."),
        ErrorClass::Geoblocked
    );
}

#[test]
fn detects_disk_full() {
    assert_eq!(
        classify_str("ERROR: unable to write data: [Errno 28] No space left on device"),
        ErrorClass::DiskFull
    );
}

#[test]
fn detects_network() {
    assert_eq!(
        classify_str("ERROR: Unable to download webpage: <urlopen error [Errno -3] Temporary failure in name resolution>"),
        ErrorClass::NetworkError
    );
}

#[test]
fn detects_ffmpeg_missing() {
    assert_eq!(
        classify_str("ERROR: ffmpeg not found. The downloaded file cannot be merged."),
        ErrorClass::CodecMissing
    );
}

#[test]
fn returns_other_when_no_match() {
    assert_eq!(
        classify_str("ERROR: something weird happened that we have no fingerprint for"),
        ErrorClass::Other
    );
}

#[test]
fn walks_from_end_first() {
    let log = "[info] some ffmpeg postprocessing thing\n\
               [download] 50% done\n\
               ERROR: HTTP Error 429: Too Many Requests";
    assert_eq!(classify_str(log), ErrorClass::RateLimited);
}

#[test]
fn classify_rate_limit_label_and_hint() {
    let lines = vec!["ERROR: HTTP Error 429: Too Many Requests".to_string()];
    let class = classify(&lines);
    assert_eq!(class, ErrorClass::RateLimited);
    assert_eq!(class.label(), "rate-limited");
    assert!(!class.hint().is_empty());
}

#[test]
fn bad_cookies_detected() {
    assert_eq!(classify_str("ERROR: the cookies file has expired"), ErrorClass::BadCookies);
    assert_eq!(classify_str("invalid cookies supplied"), ErrorClass::BadCookies);
}

#[test]
fn http_404_on_playlist_is_not_not_found() {
    assert_eq!(classify_str("HTTP Error 404 for playlist page"), ErrorClass::Other);
    assert_eq!(classify_str("HTTP Error 404: Not Found"), ErrorClass::NotFound);
}

#[test]
fn disk_write_error_needs_space_hint() {
    assert_eq!(classify_str("write error: ENOSPC"), ErrorClass::DiskFull);
    assert_eq!(classify_str("write error: broken pipe"), ErrorClass::Other);
}

#[test]
fn empty_log_is_other() {
    assert_eq!(classify(&Vec::new()), ErrorClass::Other);
    assert_eq!(ErrorClass::Other.hint(), "");
    assert_eq!(ErrorClass::Other.label(), "error");
}

#[test]
fn labels_of_every_class() {
    assert_eq!(ErrorClass::MembersOnly.label(), "members-only");
    assert_eq!(ErrorClass::Geoblocked.label(), "geo-blocked");
    assert_eq!(ErrorClass::NotFound.label(), "not found");
    assert_eq!(ErrorClass::CodecMissing.label(), "codec missing");
    assert_eq!(ErrorClass::DiskFull.label(), "disk full");
    assert_eq!(ErrorClass::NetworkError.label(), "network error");
    assert_eq!(ErrorClass::BadCookies.label(), "bad cookies");
}

#[test]
fn single_line_classes() {
    let l = |s: &str| -> Vec<char> { s.chars().collect() };
    assert_eq!(classify_line(&l("error: http error 429: too many requests")), Some(ErrorClass::RateLimited));
    assert_eq!(classify_line(&l("[download] 12% of 3mib")), None);
    assert_eq!(classify_line(&l("")), None);
}
