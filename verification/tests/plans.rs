use catacomb::config::ConvertSection;
use catacomb::download_options::DownloadOptions;
use catacomb::downloader::{
    convert_paths, exit_outcome, ffmpeg_args, has_free_slot, plan_download, plan_music,
    plan_repair, pot_args, stderr_line, stdout_line, transcode_plan, ConvertSpec,
    DownloadQuality, DownloadSettings,
};
use catacomb::platform::{classify_url, platform_root, Platform};

fn s(v: &[&str]) -> Vec<String> {
    v.iter().map(|x| x.to_string()).collect()
}

const RETRY: [&str; 12] = [
    "--retries",
    "30",
    "--fragment-retries",
    "30",
    "--retry-sleep",
    "linear=1:30:2",
    "--sleep-requests",
    "1",
    "--sleep-interval",
    "2",
    "--max-sleep-interval",
    "6",
];

const META: [&str; 11] = [
    "--write-thumbnail",
    "--write-description",
    "--write-info-json",
    "--no-write-playlist-metafiles",
    "--remux-video",
    "mkv",
    "--embed-metadata",
    "--embed-info-json",
    "--embed-chapters",
    "--xattrs",
    "--progress",
];

#[test]
fn plan_download_youtube_channel_with_defaults() {
    let st = DownloadSettings::new("firefox".to_string());
    let url = "https://www.youtube.com/@LinusTechTips";
    let info = classify_url(url);
    let root = platform_root("/media/channels", info.platform);
    let plan = plan_download(
        &st, url, &info, &root, false, DownloadQuality::Best, false, "", false, None,
    );
    assert_eq!(plan.channel_dir.as_deref(), Some("/media/channels/LinusTechTips"));
    assert_eq!(plan.out_arg, "/media/channels/LinusTechTips/%(title)s [%(id)s].%(ext)s");
    assert_eq!(plan.label, "channels/LinusTechTips/");
    assert!(plan.convert.is_none());
    let mut want = s(&["--newline", "--no-color", "--cookies-from-browser", "firefox"]);
    want.extend(s(&META));
    want.extend(s(&[
        "--break-on-existing",
        "--download-archive",
        "/media/channels/archive.txt",
        "--impersonate",
        "Chrome-146:Macos-26",
        "--write-subs",
        "--write-auto-subs",
        "--sponsorblock-mark",
        "all",
        "-o",
        "/media/channels/LinusTechTips/%(title)s [%(id)s].%(ext)s",
        url,
    ]));
    want.extend(s(&RETRY));
    assert_eq!(plan.args, want);
}

#[test]
fn plan_download_live_playlist_with_options_and_conversion() {
    let mut st = DownloadSettings::new("none".to_string());
    st.convert_defaults = ConvertSection { mode: "remux-mp4".to_string(), ..ConvertSection::default() };
    st.rate_limited_backoff = true;
    let url = "https://www.youtube.com/playlist?list=PL123";
    let info = classify_url(url);
    let mut opts = DownloadOptions::default();
    opts.limit_rate_kb = Some(500);
    opts.sponsorblock_mode = Some("off".to_string());
    let plan = plan_download(
        &st,
        url,
        &info,
        "/v",
        false,
        DownloadQuality::Res720,
        true,
        "20240102-030405",
        true,
        Some(&opts),
    );
    assert_eq!(plan.channel_dir, None);
    assert_eq!(
        plan.out_arg,
        "/v/%(uploader,channel,creator|Unknown)s/%(playlist_title)s/%(title)s [%(id)s] [20240102-030405].%(ext)s"
    );
    assert_eq!(plan.label, "channels/<creator>/<playlist>/ 🔴 LIVE");
    assert_eq!(plan.convert.as_ref().map(|c| c.mode.as_str()), Some("remux-mp4"));
    let mut want = s(&["--newline", "--no-color", "--cookies", "cookies.txt"]);
    want.extend(s(&META));
    want.extend(s(&[
        "-f",
        "bestvideo[height<=720]+bestaudio/best[height<=720]",
        "--live-from-start",
        "--wait-for-video",
        "30",
        "--download-archive",
        "/v/archive.txt",
        "--impersonate",
        "Chrome-146:Macos-26",
        "--write-subs",
        "--write-auto-subs",
        "--print",
        "after_move:CONVERT_PATH:%(filepath)s",
        "--limit-rate",
        "500K",
        "-o",
        &plan.out_arg,
        url,
        "--retries",
        "30",
        "--fragment-retries",
        "30",
        "--retry-sleep",
        "linear=1:30:2",
        "--sleep-requests",
        "3",
        "--sleep-interval",
        "8",
        "--max-sleep-interval",
        "20",
    ]));
    assert_eq!(plan.args, want);
}

#[test]
fn plan_download_bandcamp_artist_sorts_by_album() {
    let st = DownloadSettings::new(String::new());
    let url = "https://someartist.bandcamp.com";
    let info = classify_url(url);
    assert_eq!(info.platform, Platform::Bandcamp);
    let plan = plan_download(
        &st, url, &info, "/m/bandcamp", true, DownloadQuality::Best, false, "", false, None,
    );
    assert!(plan.out_arg.contains("/%(album|Unknown)s/%(title)s [%(id)s].%(ext)s"));
    assert!(plan.args.iter().any(|a| a == "--embed-thumbnail"));
    // A full scan does not stop at the first archived item.
    assert!(!plan.args.iter().any(|a| a == "--break-on-existing"));
}

#[test]
fn plan_repair_escapes_percent_and_fetches_sidecars_only() {
    let st = DownloadSettings::new("none".to_string());
    let job = plan_repair(&st, "abc123", "/c/chan", "100% real [abc123]", false);
    assert_eq!(job.url, "https://www.youtube.com/watch?v=abc123");
    assert_eq!(job.out_arg, "/c/chan/100%% real [abc123].%(ext)s");
    assert_eq!(job.label, "repair 100% real [abc123]");
    let mut want = s(&[
        "--newline",
        "--no-color",
        "--skip-download",
        "--write-thumbnail",
        "--write-info-json",
        "--write-description",
        "--write-subs",
        "--write-auto-subs",
        "--impersonate",
        "Chrome-146:Macos-26",
        "-o",
        "/c/chan/100%% real [abc123].%(ext)s",
        "https://www.youtube.com/watch?v=abc123",
    ]);
    want.extend(s(&RETRY));
    assert_eq!(job.args, want);
}

#[test]
fn plan_music_goes_to_music_folder() {
    let st = DownloadSettings::new("chrome".to_string());
    let url = "https://soundcloud.com/artist/track";
    let job = plan_music(&st, "/root/channels", url, false);
    assert_eq!(job.label, "music");
    assert_eq!(job.out_arg, "/root/channels/music/%(artist,channel|Unknown)s/%(title)s [%(id)s].%(ext)s");
    let mut want = s(&[
        "--newline",
        "--no-color",
        "--cookies-from-browser",
        "chrome",
        "--extract-audio",
        "--audio-format",
        "best",
        "--audio-quality",
        "0",
        "--write-thumbnail",
        "--write-info-json",
        "--embed-metadata",
        "--xattrs",
        "--impersonate",
        "Chrome-146:Macos-26",
        "--progress",
        "--download-archive",
        "/root/channels/archive.txt",
        "-o",
        "/root/channels/music/%(artist,channel|Unknown)s/%(title)s [%(id)s].%(ext)s",
        url,
    ]);
    want.extend(s(&RETRY));
    assert_eq!(job.args, want);
}

#[test]
fn pot_args_only_when_active() {
    assert!(pot_args(false).is_empty());
    assert_eq!(
        pot_args(true),
        s(&["--extractor-args", "youtubepot-bgutilhttp:base_url=http://127.0.0.1:4416"])
    );
}

#[test]
fn stdout_line_drops_abort_notice_and_redacts() {
    assert_eq!(stdout_line("  Aborting remaining downloads ", "/x/cookies.txt"), None);
    assert_eq!(
        stdout_line("using /x/cookies.txt now", "/x/cookies.txt").as_deref(),
        Some("using cookies.txt now")
    );
    assert_eq!(stderr_line("oops", "/x/cookies.txt"), "[stderr] oops");
}

#[test]
fn exit_code_101_counts_as_success() {
    assert_eq!(exit_outcome(true, Some(0)), (true, None));
    assert_eq!(
        exit_outcome(false, Some(101)),
        (true, Some("(up to date — stopped at already-downloaded content)"))
    );
    assert_eq!(exit_outcome(false, Some(1)), (false, None));
    assert_eq!(exit_outcome(false, None), (false, None));
}

#[test]
fn convert_paths_collects_printed_files() {
    let log = s(&["[download] 10%", "CONVERT_PATH: /a/b.mkv ", "noise", "CONVERT_PATH:/c.webm"]);
    assert_eq!(convert_paths(&log), s(&["/a/b.mkv", "/c.webm"]));
}

#[test]
fn free_slot_rules() {
    assert!(has_free_slot(0, 100));
    assert!(has_free_slot(2, 1));
    assert!(!has_free_slot(2, 2));
}

fn spec(mode: &str, crf: u8, preset: &str, af: &str) -> ConvertSpec {
    ConvertSpec {
        mode: mode.to_string(),
        crf,
        preset: preset.to_string(),
        audio_format: af.to_string(),
        keep_original: false,
    }
}

#[test]
fn transcode_plan_remux_same_extension_uses_temp_name() {
    let p = transcode_plan(&spec("remux-mp4", 23, "medium", "mp3"), "clip", "MP4");
    assert_eq!(p.out_ext, "mp4");
    assert_eq!(p.codec_args, s(&["-c", "copy", "-c:a", "aac"]));
    assert!(p.same_ext);
    assert_eq!(p.out_name, "clip.mp4");
    assert_eq!(p.work_name, "clip.converting.mp4");
    assert_eq!(p.label, "transcode → mp4: clip");
}

#[test]
fn transcode_plan_audio_and_h264() {
    let a = transcode_plan(&spec("audio", 23, "medium", "aac"), "song", "webm");
    assert_eq!(a.out_ext, "m4a");
    assert_eq!(a.codec_args, s(&["-vn", "-c:a", "aac", "-b:a", "192k"]));
    assert!(!a.same_ext);
    assert_eq!(a.work_name, "song.m4a");
    let o = transcode_plan(&spec("audio", 23, "medium", "opus"), "song", "webm");
    assert_eq!(o.codec_args, s(&["-vn", "-c:a", "libopus", "-b:a", "160k"]));
    let m = transcode_plan(&spec("audio", 23, "medium", "mp3"), "song", "webm");
    assert_eq!(m.codec_args, s(&["-vn", "-c:a", "libmp3lame", "-q:a", "2"]));
    let h = transcode_plan(&spec("h264-mp4", 28, "slow", "mp3"), "v", "mkv");
    assert_eq!(
        h.codec_args,
        s(&[
            "-c:v", "libx264", "-crf", "28", "-preset", "slow", "-c:a", "aac", "-b:a", "192k",
            "-movflags", "+faststart"
        ])
    );
    assert_eq!(
        ffmpeg_args("in.mkv", &h.codec_args, "v.mp4")[..7],
        s(&["-hide_banner", "-loglevel", "error", "-stats", "-y", "-i", "in.mkv"])[..]
    );
}
