//! Sections of `config.toml` and their defaults.
//!
//! Each top-level section maps to a TOML table. Missing sections get sane
//! defaults so existing config files continue to work after upgrades. The
//! file itself is read and written where the rest of the I/O lives; the
//! values and the defaults are here.

use vstd::prelude::*;

verus! {

/// `[convert]` table — global post-download format-conversion defaults.
/// Per-channel download options can override `mode`.
#[derive(Clone, Debug)]
pub struct ConvertSection {
    /// `""` / `"off"`: nothing; `"remux-mp4"`: container change;
    /// `"h264-mp4"`: re-encode at [`Self::crf`]; `"audio"`: extract audio.
    pub mode: String,
    /// CRF for `h264-mp4` (0–51). 0 means "use the default of 23".
    pub crf: u8,
    /// x264 preset for `h264-mp4`. Empty = "medium".
    pub preset: String,
    /// Audio format for `audio` mode. Empty = "mp3".
    pub audio_format: String,
    /// Keep the original download alongside the converted file.
    pub keep_original: bool,
}

impl Default for ConvertSection {
    fn default() -> (r: Self)
        ensures
            r.mode@.len() == 0,
            r.crf == 0,
            r.preset@.len() == 0,
            r.audio_format@.len() == 0,
            !r.keep_original,
    {
        ConvertSection {
            mode: String::new(),
            crf: 0,
            preset: String::new(),
            audio_format: String::new(),
            keep_original: false,
        }
    }
}

/// `[subtitles]` table — global subtitle download defaults. Per-channel
/// download options can override any of these.
#[derive(Clone, Debug)]
pub struct SubtitlesSection {
    /// Master switch. When false, no subtitle flags are emitted at all.
    pub enabled: bool,
    /// Include auto-generated captions via `--write-auto-subs`.
    pub auto_generated: bool,
    /// Embed subtitle tracks into the container (`--embed-subs`).
    pub embed: bool,
    /// Convert downloaded subtitles to this format. Empty = keep native.
    pub format: String,
    /// Comma-separated language codes (`--sub-langs`). Empty = all.
    pub langs: String,
}

impl Default for SubtitlesSection {
    fn default() -> (r: Self)
        ensures
            r.enabled,
            r.auto_generated,
            !r.embed,
            r.format@.len() == 0,
            r.langs@.len() == 0,
    {
        SubtitlesSection {
            enabled: default_true(),
            auto_generated: default_true(),
            embed: false,
            format: String::new(),
            langs: String::new(),
        }
    }
}

/// `[backup]` table — where to store downloaded videos and how to run yt-dlp.
#[derive(Clone, Debug)]
pub struct BackupSection {
    pub directory: String,
    /// Maximum simultaneous yt-dlp processes (0 = no limit).
    pub max_concurrent: usize,
    /// Use the bundled yt-dlp + deno instead of the `yt-dlp` on PATH.
    pub use_bundled_ytdlp: bool,
    /// Run the bgutil-pot server and pass its extractor-args to yt-dlp
    /// (only effective with the bundled yt-dlp).
    pub use_pot_provider: bool,
    /// YouTube player clients, comma-separated. Empty = yt-dlp's defaults.
    pub youtube_player_clients: String,
}

/// Default `[backup].max_concurrent`.
pub fn default_max_concurrent() -> (r: usize)
    ensures
        r == 3,
{
    3
}

/// Default for switches that are on unless turned off.
pub fn default_true() -> (r: bool)
    ensures
        r,
{
    true
}

/// `[player]` table — external player and browser cookie source.
#[derive(Clone, Debug)]
pub struct PlayerSection {
    pub command: String,
    pub browser: String,
}

impl Default for PlayerSection {
    fn default() -> (r: Self)
        ensures
            r.command@ == "mpv"@,
            r.browser@ == "firefox"@,
    {
        PlayerSection { command: default_player(), browser: default_browser() }
    }
}

/// `[scheduler]` table — periodic background download schedule.
#[derive(Clone, Debug)]
pub struct SchedulerSection {
    pub enabled: bool,
    pub interval_hours: u32,
}

impl Default for SchedulerSection {
    fn default() -> (r: Self)
        ensures
            !r.enabled,
            r.interval_hours == 24,
    {
        SchedulerSection { enabled: false, interval_hours: default_interval_hours() }
    }
}

/// `[plex]` table — Plex-compatible TV-show symlink library.
#[derive(Clone, Debug)]
pub struct PlexSection {
    /// Directory where the Plex symlink tree is written; unset disables it.
    pub library_path: Option<String>,
}

impl Default for PlexSection {
    fn default() -> (r: Self)
        ensures
            r.library_path is None,
    {
        PlexSection { library_path: None }
    }
}

/// `[web]` table — built-in HTTP server settings.
///
/// `source_url` is required for AGPL §13 compliance: a URL where the
/// running source code can be obtained, shown as a "Source" link.
#[derive(Clone, Debug)]
pub struct WebSection {
    pub port: u16,
    /// Address to bind to. Defaults to `127.0.0.1` (localhost only).
    pub bind: String,
    pub transcode: bool,
    pub source_url: Option<String>,
}

impl Default for WebSection {
    fn default() -> (r: Self)
        ensures
            r.port == 8080,
            r.bind@ == "127.0.0.1"@,
            !r.transcode,
            r.source_url is None,
    {
        WebSection {
            port: default_web_port(),
            bind: default_web_bind(),
            transcode: false,
            source_url: None,
        }
    }
}

/// Default `[player].command`.
pub fn default_player() -> (r: String)
    ensures
        r@ == "mpv"@,
{
    String::from_str("mpv")
}

/// Default `[player].browser`.
pub fn default_browser() -> (r: String)
    ensures
        r@ == "firefox"@,
{
    String::from_str("firefox")
}

/// Default `[ui].theme`.
pub fn default_theme() -> (r: String)
    ensures
        r@ == "dark"@,
{
    String::from_str("dark")
}

/// Default `[scheduler].interval_hours`.
pub fn default_interval_hours() -> (r: u32)
    ensures
        r == 24,
{
    24
}

/// Default `[web].port`.
pub fn default_web_port() -> (r: u16)
    ensures
        r == 8080,
{
    8080
}

/// Default `[web].bind`.
pub fn default_web_bind() -> (r: String)
    ensures
        r@ == "127.0.0.1"@,
{
    String::from_str("127.0.0.1")
}

/// The `[backup]` table of a fresh config that stores videos in `dir`.
pub fn backup_with_dir(dir: String) -> (r: BackupSection)
    ensures
        r.directory@ == dir@,
        r.max_concurrent == 3,
        !r.use_bundled_ytdlp,
        !r.use_pot_provider,
        r.youtube_player_clients@.len() == 0,
{
    BackupSection {
        directory: dir,
        max_concurrent: default_max_concurrent(),
        use_bundled_ytdlp: false,
        use_pot_provider: false,
        youtube_player_clients: String::new(),
    }
}

} // verus!
