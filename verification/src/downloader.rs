//! The decisions behind running `yt-dlp` in the background: which quality
//! selector to pass, which flags each setting adds, how a finished job is
//! classified, when a failure is retried, and how long a job's log grows.
//!
//! Spawning processes, reading their output and keeping time happen with
//! the rest of the process plumbing; every value they act on is computed
//! here.

use vstd::prelude::*;
use vstd::string::StringSliceAdditionalSpecFns;
use crate::civil::{civil_of, epoch_day, walk_date};
use crate::config::{ConvertSection, SubtitlesSection};
use crate::num::{dec_pad, push_dec_pad};
use crate::download_options::DownloadOptions;
use crate::error_class::{classify, classify_lines, ErrorClass};
use crate::platform::{impersonate_of, Platform};
use crate::text::{
    begins, chars_of, contains, includes, eq_lit, join, join_strings, push_arg, push_string,
    replace, replace_vec, starts_with, string_of, strings, trim, trim_vec,
};

verus! {

/// Video quality level passed as a `-f` format selector to yt-dlp.
#[derive(Clone, Copy, PartialEq, Eq, Debug, Structural)]
pub enum DownloadQuality {
    /// No `-f` flag — yt-dlp picks the best available streams (default).
    Best,
    Res1080,
    Res720,
    Res480,
    Res360,
}

impl Default for DownloadQuality {
    fn default() -> (r: Self)
        ensures
            r == DownloadQuality::Best,
    {
        DownloadQuality::Best
    }
}

/// The `-f` selector of each quality (`None` = no flag).
pub open spec fn format_spec_of(q: DownloadQuality) -> Option<Seq<char>> {
    match q {
        DownloadQuality::Best => None,
        DownloadQuality::Res1080 => Some("bestvideo[height<=1080]+bestaudio/best[height<=1080]"@),
        DownloadQuality::Res720 => Some("bestvideo[height<=720]+bestaudio/best[height<=720]"@),
        DownloadQuality::Res480 => Some("bestvideo[height<=480]+bestaudio/best[height<=480]"@),
        DownloadQuality::Res360 => Some("bestvideo[height<=360]+bestaudio/best[height<=360]"@),
    }
}

/// The picker label of each quality.
pub open spec fn quality_label_of(q: DownloadQuality) -> Seq<char> {
    match q {
        DownloadQuality::Best => "Best"@,
        DownloadQuality::Res1080 => "1080p"@,
        DownloadQuality::Res720 => "720p"@,
        DownloadQuality::Res480 => "480p"@,
        DownloadQuality::Res360 => "360p"@,
    }
}

impl DownloadQuality {
    /// The yt-dlp `-f` format selector, or `None` for "best".
    pub fn format_spec(self) -> (r: Option<&'static str>)
        ensures
            match r {
                Some(s) => format_spec_of(self) == Some(s@),
                None => format_spec_of(self) is None,
            },
    {
        match self {
            DownloadQuality::Best => None,
            DownloadQuality::Res1080 => Some("bestvideo[height<=1080]+bestaudio/best[height<=1080]"),
            DownloadQuality::Res720 => Some("bestvideo[height<=720]+bestaudio/best[height<=720]"),
            DownloadQuality::Res480 => Some("bestvideo[height<=480]+bestaudio/best[height<=480]"),
            DownloadQuality::Res360 => Some("bestvideo[height<=360]+bestaudio/best[height<=360]"),
        }
    }

    /// The label shown in the quality picker.
    pub fn label(self) -> (r: &'static str)
        ensures
            r@ == quality_label_of(self),
    {
        match self {
            DownloadQuality::Best => "Best",
            DownloadQuality::Res1080 => "1080p",
            DownloadQuality::Res720 => "720p",
            DownloadQuality::Res480 => "480p",
            DownloadQuality::Res360 => "360p",
        }
    }

    /// Every quality, best first.
    pub fn all() -> (r: Vec<DownloadQuality>)
        ensures
            r@ == seq![
                DownloadQuality::Best,
                DownloadQuality::Res1080,
                DownloadQuality::Res720,
                DownloadQuality::Res480,
                DownloadQuality::Res360,
            ],
    {
        let v = vec![
            DownloadQuality::Best,
            DownloadQuality::Res1080,
            DownloadQuality::Res720,
            DownloadQuality::Res480,
            DownloadQuality::Res360,
        ];
        assert(v@ =~= seq![
            DownloadQuality::Best,
            DownloadQuality::Res1080,
            DownloadQuality::Res720,
            DownloadQuality::Res480,
            DownloadQuality::Res360,
        ]);
        v
    }
}

/// The `-f` selector that caps the video height at `h` (decimal digits),
/// falling back to the best single file under the same cap.
pub open spec fn height_cap_selector(h: Seq<char>) -> Seq<char> {
    "bestvideo[height<="@ + h + "]+bestaudio/best[height<="@ + h + "]"@
}

/// Law: the quality labelled "Best" passes no `-f` flag, and every other
/// quality is labelled `<N>p` and selects at most `N` lines of video, both
/// for the separate video stream and for the single-file fallback.
pub proof fn lemma_quality_caps_height(q: DownloadQuality)
    ensures
        (quality_label_of(q) == "Best"@) <==> (format_spec_of(q) is None),
        q != DownloadQuality::Best ==> {
            let label = quality_label_of(q);
            &&& label.len() >= 1
            &&& label.last() == 'p'
            &&& format_spec_of(q) == Some(height_cap_selector(label.drop_last()))
        },
{
    reveal_strlit("Best");
    reveal_strlit("1080p");
    reveal_strlit("720p");
    reveal_strlit("480p");
    reveal_strlit("360p");
    reveal_strlit("bestvideo[height<=");
    reveal_strlit("]+bestaudio/best[height<=");
    reveal_strlit("]");
    reveal_strlit("bestvideo[height<=1080]+bestaudio/best[height<=1080]");
    reveal_strlit("bestvideo[height<=720]+bestaudio/best[height<=720]");
    reveal_strlit("bestvideo[height<=480]+bestaudio/best[height<=480]");
    reveal_strlit("bestvideo[height<=360]+bestaudio/best[height<=360]");
    match q {
        DownloadQuality::Best => {},
        DownloadQuality::Res1080 => {
            assert("1080p"@.len() != "Best"@.len());
            assert("1080p"@.drop_last() =~= seq!['1', '0', '8', '0']);
            assert(height_cap_selector("1080p"@.drop_last())
                =~= "bestvideo[height<=1080]+bestaudio/best[height<=1080]"@);
        },
        DownloadQuality::Res720 => {
            assert("720p"@[0] != "Best"@[0]);
            assert("720p"@.drop_last() =~= seq!['7', '2', '0']);
            assert(height_cap_selector("720p"@.drop_last())
                =~= "bestvideo[height<=720]+bestaudio/best[height<=720]"@);
        },
        DownloadQuality::Res480 => {
            assert("480p"@[0] != "Best"@[0]);
            assert("480p"@.drop_last() =~= seq!['4', '8', '0']);
            assert(height_cap_selector("480p"@.drop_last())
                =~= "bestvideo[height<=480]+bestaudio/best[height<=480]"@);
        },
        DownloadQuality::Res360 => {
            assert("360p"@[0] != "Best"@[0]);
            assert("360p"@.drop_last() =~= seq!['3', '6', '0']);
            assert(height_cap_selector("360p"@.drop_last())
                =~= "bestvideo[height<=360]+bestaudio/best[height<=360]"@);
        },
    }
}

// ── Re-check URLs for legacy folders ────────────────────────────────────────

/// The YouTube URL of a library folder: the `/channel/` form for a folder
/// named like a channel id (`UC` and 24 bytes in all), the `/@handle` form
/// otherwise.
pub open spec fn folder_url(name: Seq<char>, byte_len: nat) -> Seq<char> {
    if starts_with(name, "UC"@) && byte_len == 24 {
        "https://www.youtube.com/channel/"@ + name
    } else {
        "https://www.youtube.com/@"@ + name
    }
}

/// Build a YouTube URL from a legacy library folder name, for channel
/// folders that have no `.source-url` sidecar.
pub fn check_url_for_folder(folder_name: &str) -> (r: String)
    ensures
        r@ == folder_url(folder_name@, folder_name.spec_bytes().len()),
{
    let v = chars_of(folder_name);
    let mut out: Vec<char> = Vec::new();
    let byte_len = folder_name.as_bytes().len();
    if begins(&v, "UC") && byte_len == 24 {
        crate::text::extend_str(&mut out, "https://www.youtube.com/channel/");
    } else {
        crate::text::extend_str(&mut out, "https://www.youtube.com/@");
    }
    crate::text::extend(&mut out, &v);
    string_of(&out)
}

/// Re-check URL for a channel: its stored `.source-url` when present, the
/// YouTube folder heuristic otherwise.
pub fn recheck_url(source_url: Option<&str>, folder_name: &str) -> (r: String)
    ensures
        r@ == match source_url {
            Some(u) => u@,
            None => folder_url(folder_name@, folder_name.spec_bytes().len()),
        },
{
    match source_url {
        Some(u) => String::from_str(u),
        None => check_url_for_folder(folder_name),
    }
}

// ── Jobs ─────────────────────────────────────────────────────────────────────

/// Lifecycle state of a download job.
#[derive(Clone, Copy, PartialEq, Eq, Debug, Structural)]
pub enum JobState {
    Running,
    Done,
    Failed,
}

/// Maximum lines retained in a job's log before old lines are evicted.
pub const JOB_LOG_CAP: usize = 800;

/// Max automatic re-queues per job for transient failures.
pub const MAX_AUTO_RETRIES: u8 = 2;

/// Cooldown before an auto-retry fires, in seconds (scaled by the attempt).
pub const AUTO_RETRY_COOLDOWN_SECS: u64 = 90;

/// A running job silent for this many seconds is considered hung.
pub const HANG_TIMEOUT_SECS: u64 = 300;

/// A log after appending `line` and evicting the oldest lines beyond the cap.
pub open spec fn capped_log(log: Seq<Seq<char>>, line: Seq<char>) -> Seq<Seq<char>> {
    let s = log.push(line);
    if s.len() > JOB_LOG_CAP {
        s.skip(s.len() - JOB_LOG_CAP)
    } else {
        s
    }
}

/// Append a line to a job's log, evicting the oldest lines so that at most
/// [`JOB_LOG_CAP`] remain.
pub fn push_log_line(log: &mut Vec<String>, line: String)
    ensures
        strings(final(log)@) == capped_log(strings(old(log)@), line@),
        final(log)@.len() <= JOB_LOG_CAP,
{
    push_string(log, line);
    let ghost full = strings(log@);
    assert(full.skip(0) =~= full);
    while log.len() > JOB_LOG_CAP
        invariant
            full.len() >= log@.len(),
            full.len() <= JOB_LOG_CAP ==> log@.len() == full.len(),
            full.len() > JOB_LOG_CAP ==> log@.len() >= JOB_LOG_CAP,
            strings(log@) == full.skip(full.len() - log@.len()),
        decreases log.len(),
    {
        let ghost before = log@;
        log.remove(0);
        assert(strings(log@) =~= strings(before).drop_first());
        assert(strings(log@) =~= full.skip(full.len() - log@.len()));
    }
    assert(full.len() <= JOB_LOG_CAP ==> strings(log@) =~= full);
}

/// The state a job enters when its process exits.
pub fn finished_state(ok: bool) -> (r: JobState)
    ensures
        r == if ok {
            JobState::Done
        } else {
            JobState::Failed
        },
{
    if ok {
        JobState::Done
    } else {
        JobState::Failed
    }
}

/// The failure class recorded when a job finishes: set only on the failure
/// transition of a job not yet classified — a watchdog kill leaves no
/// telltale line and counts as a network error; otherwise the log decides.
pub open spec fn finish_class_spec(
    ok: bool,
    existing: Option<ErrorClass>,
    watchdog_killed: bool,
    log: Seq<Seq<char>>,
) -> Option<ErrorClass> {
    if !ok && existing is None {
        Some(
            if watchdog_killed {
                ErrorClass::NetworkError
            } else {
                classify_lines(log)
            },
        )
    } else {
        existing
    }
}

/// The failure class of a job after its `Finished(ok)` message.
pub fn finish_class(
    ok: bool,
    existing: Option<ErrorClass>,
    watchdog_killed: bool,
    log: &Vec<String>,
) -> (r: Option<ErrorClass>)
    ensures
        r == finish_class_spec(ok, existing, watchdog_killed, strings(log@)),
{
    if !ok && existing.is_none() {
        if watchdog_killed {
            Some(ErrorClass::NetworkError)
        } else {
            Some(classify(log))
        }
    } else {
        existing
    }
}

/// Whether a failure class warrants an automatic retry: only transient
/// ones (rate limit / captcha, network).
pub fn is_retryable(class: ErrorClass) -> (b: bool)
    ensures
        b == (class == ErrorClass::RateLimited || class == ErrorClass::NetworkError),
{
    match class {
        ErrorClass::RateLimited | ErrorClass::NetworkError => true,
        _ => false,
    }
}

/// What the retry scan does with one freshly failed job.
#[derive(Clone, Copy, Debug)]
pub struct RetryDecision {
    /// Slow the rest of the batch down (the job hit a rate limit).
    pub engage_backoff: bool,
    /// Schedule this attempt number, if the job is retried.
    pub next_attempt: Option<u8>,
}

/// Retry decision for a failed job with class `class`, `retry_count`
/// retries already spent and (`has_spec`) the inputs to re-run it.
pub open spec fn retry_decision_spec(class: Option<ErrorClass>, retry_count: u8, has_spec: bool) -> (
    bool,
    Option<u8>,
) {
    match class {
        None => (false, None),
        Some(c) => (
            c == ErrorClass::RateLimited,
            if (c == ErrorClass::RateLimited || c == ErrorClass::NetworkError) && retry_count
                < MAX_AUTO_RETRIES && has_spec {
                Some((retry_count + 1) as u8)
            } else {
                None
            },
        ),
    }
}

/// Decide whether a failed job is retried and whether it engages the
/// adaptive backoff.
pub fn retry_decision(class: Option<ErrorClass>, retry_count: u8, has_spec: bool) -> (r:
    RetryDecision)
    ensures
        (r.engage_backoff, r.next_attempt) == retry_decision_spec(class, retry_count, has_spec),
        r.next_attempt matches Some(a) ==> 1 <= a <= MAX_AUTO_RETRIES,
{
    match class {
        None => RetryDecision { engage_backoff: false, next_attempt: None },
        Some(c) => {
            let engage = c == ErrorClass::RateLimited;
            if is_retryable(c) && retry_count < MAX_AUTO_RETRIES && has_spec {
                RetryDecision { engage_backoff: engage, next_attempt: Some(retry_count + 1) }
            } else {
                RetryDecision { engage_backoff: engage, next_attempt: None }
            }
        },
    }
}

/// Seconds before retry attempt `attempt` fires: linear backoff.
pub fn retry_delay_secs(attempt: u8) -> (r: u64)
    ensures
        r == AUTO_RETRY_COOLDOWN_SECS * attempt,
{
    AUTO_RETRY_COOLDOWN_SECS * (attempt as u64)
}

/// Whether the watchdog kills a job: still running, not already killed,
/// backed by a process, and silent for at least [`HANG_TIMEOUT_SECS`].
pub fn watchdog_should_kill(state: JobState, already_killed: bool, has_pid: bool, idle_secs: u64) -> (b:
    bool)
    ensures
        b == (state == JobState::Running && !already_killed && has_pid && idle_secs
            >= HANG_TIMEOUT_SECS),
{
    state == JobState::Running && !already_killed && has_pid && idle_secs >= HANG_TIMEOUT_SECS
}

// ── Log redaction ────────────────────────────────────────────────────────────

/// `line` with the absolute cookies path replaced by the bare file name.
pub open spec fn redact_spec(line: Seq<char>, cookies_abs: Seq<char>) -> Seq<char> {
    if cookies_abs.len() == 0 || !contains(line, cookies_abs) {
        line
    } else {
        replace(line, cookies_abs, "cookies.txt"@)
    }
}

/// Strip the absolute on-disk path to `cookies.txt` from a log line,
/// leaving the bare file name, so the user's home directory does not reach
/// the UI or the progress API.
pub fn redact_sensitive(line: &str, cookies_abs: &str) -> (r: String)
    ensures
        r@ == redact_spec(line@, cookies_abs@),
{
    let l = chars_of(line);
    let a = chars_of(cookies_abs);
    if a.len() == 0 || !includes(&l, cookies_abs) {
        return String::from_str(line);
    }
    let rep = chars_of("cookies.txt");
    let out = replace_vec(&l, &a, &rep);
    string_of(&out)
}

// ── Post-download conversion ─────────────────────────────────────────────────

/// Resolved post-download conversion settings attached to a download job.
#[derive(Clone, Debug)]
pub struct ConvertSpec {
    pub mode: String,
    pub crf: u8,
    pub preset: String,
    pub audio_format: String,
    pub keep_original: bool,
}

/// The conversion mode before trimming: a non-empty per-channel override,
/// else the global mode.
pub open spec fn convert_mode_src(global: ConvertSection, opts: Option<&DownloadOptions>) -> Seq<
    char,
> {
    match opts {
        Some(o) => match o.convert_mode {
            Some(m) => if m@.len() > 0 {
                m@
            } else {
                global.mode@
            },
            None => global.mode@,
        },
        None => global.mode@,
    }
}

/// `s`, or `default` when `s` is empty.
pub open spec fn or_default(s: Seq<char>, default: Seq<char>) -> Seq<char> {
    if s.len() == 0 {
        default
    } else {
        s
    }
}

impl ConvertSpec {
    /// The effective mode is off.
    pub open spec fn resolves_off(global: ConvertSection, opts: Option<&DownloadOptions>) -> bool {
        let m = trim(convert_mode_src(global, opts));
        m.len() == 0 || m == "off"@
    }

    /// `c` is the conversion that the global section and the channel's
    /// override resolve to: the effective mode trimmed, CRF 0 as 23, an
    /// empty preset as "medium", an empty audio format as "mp3", and the
    /// global keep-original switch.
    pub open spec fn resolved(c: ConvertSpec, global: ConvertSection, opts: Option<&DownloadOptions>) -> bool {
        &&& c.mode@ == trim(convert_mode_src(global, opts))
        &&& c.crf == if global.crf == 0 {
            23
        } else {
            global.crf
        }
        &&& c.preset@ == or_default(global.preset@, "medium"@)
        &&& c.audio_format@ == or_default(global.audio_format@, "mp3"@)
        &&& c.keep_original == global.keep_original
    }


    /// Build the conversion spec from the global `[convert]` config merged
    /// with a per-channel `convert_mode` override: `None` when the effective
    /// mode is off or empty; otherwise CRF 0 becomes 23, an empty preset
    /// "medium" and an empty audio format "mp3".
    pub fn resolve(global: &ConvertSection, opts: Option<&DownloadOptions>) -> (r: Option<
        ConvertSpec,
    >)
        ensures
            r is None <==> Self::resolves_off(*global, opts),
            r matches Some(c) ==> Self::resolved(c, *global, opts),
    {
        let src: &String = match opts {
            Some(o) => match &o.convert_mode {
                Some(m) => if !m.as_str().is_empty() {
                    m
                } else {
                    &global.mode
                },
                None => &global.mode,
            },
            None => &global.mode,
        };
        let sv = chars_of(src.as_str());
        let mode = trim_vec(&sv);
        if mode.len() == 0 || eq_lit(&mode, "off") {
            return None;
        }
        let crf = if global.crf == 0 {
            23
        } else {
            global.crf
        };
        let preset = if global.preset.as_str().is_empty() {
            String::from_str("medium")
        } else {
            global.preset.clone()
        };
        let audio_format = if global.audio_format.as_str().is_empty() {
            String::from_str("mp3")
        } else {
            global.audio_format.clone()
        };
        Some(
            ConvertSpec {
                mode: string_of(&mode),
                crf,
                preset,
                audio_format,
                keep_original: global.keep_original,
            },
        )
    }
}

// ── Flag builders ────────────────────────────────────────────────────────────

/// Per-channel override of a boolean knob, else the global value.
pub open spec fn knob(o: Option<bool>, global: bool) -> bool {
    match o {
        Some(b) => b,
        None => global,
    }
}

/// The subtitle knobs `(enabled, auto, embed)` after merging.
pub open spec fn sub_knobs(g: SubtitlesSection, opts: Option<&DownloadOptions>) -> (bool, bool, bool) {
    match opts {
        Some(o) => (
            knob(o.subtitles_enabled, g.enabled),
            knob(o.subtitles_auto, g.auto_generated),
            knob(o.subtitles_embed, g.embed),
        ),
        None => (g.enabled, g.auto_generated, g.embed),
    }
}

/// The subtitle conversion format after merging: a non-empty per-channel
/// format wins.
pub open spec fn sub_format(g: SubtitlesSection, opts: Option<&DownloadOptions>) -> Seq<char> {
    match opts {
        Some(o) => match o.subtitle_format {
            Some(f) => if f@.len() > 0 {
                f@
            } else {
                g.format@
            },
            None => g.format@,
        },
        None => g.format@,
    }
}

/// The subtitle languages after merging: a non-empty per-channel list,
/// comma-joined, wins.
pub open spec fn sub_langs(g: SubtitlesSection, opts: Option<&DownloadOptions>) -> Seq<char> {
    match opts {
        Some(o) => if o.subtitle_langs@.len() > 0 {
            join(strings(o.subtitle_langs@), ","@)
        } else {
            g.langs@
        },
        None => g.langs@,
    }
}

/// `seq![a]` when `b`, else nothing.
pub open spec fn flag_if(b: bool, a: Seq<char>) -> Seq<Seq<char>> {
    if b {
        seq![a]
    } else {
        seq![]
    }
}

/// `--flag value` when `value` is non-empty, else nothing.
pub open spec fn pair_if_nonempty(flag: Seq<char>, value: Seq<char>) -> Seq<Seq<char>> {
    if value.len() > 0 {
        seq![flag, value]
    } else {
        seq![]
    }
}

/// The subtitle flags for the global `[subtitles]` config merged with the
/// per-channel overrides; nothing at all when subtitles are disabled.
pub open spec fn subtitle_args_spec(g: SubtitlesSection, opts: Option<&DownloadOptions>) -> Seq<
    Seq<char>,
> {
    let (enabled, auto, embed) = sub_knobs(g, opts);
    if !enabled {
        seq![]
    } else {
        seq!["--write-subs"@] + flag_if(auto, "--write-auto-subs"@) + pair_if_nonempty(
            "--sub-langs"@,
            sub_langs(g, opts),
        ) + pair_if_nonempty("--convert-subs"@, sub_format(g, opts)) + flag_if(
            embed,
            "--embed-subs"@,
        )
    }
}

/// Resolve the global `[subtitles]` config and the per-channel overrides
/// into the yt-dlp subtitle flags: a per-channel `Some` wins for each knob.
pub fn subtitle_args(g: &SubtitlesSection, opts: Option<&DownloadOptions>) -> (args: Vec<String>)
    ensures
        strings(args@) == subtitle_args_spec(*g, opts),
{
    let mut args: Vec<String> = Vec::new();
    let (enabled, auto, embed) = match opts {
        Some(o) => (
            match o.subtitles_enabled {
                Some(b) => b,
                None => g.enabled,
            },
            match o.subtitles_auto {
                Some(b) => b,
                None => g.auto_generated,
            },
            match o.subtitles_embed {
                Some(b) => b,
                None => g.embed,
            },
        ),
        None => (g.enabled, g.auto_generated, g.embed),
    };
    if !enabled {
        assert(strings(args@) =~= subtitle_args_spec(*g, opts));
        return args;
    }
    let format: &String = match opts {
        Some(o) => match &o.subtitle_format {
            Some(f) => if !f.as_str().is_empty() {
                f
            } else {
                &g.format
            },
            None => &g.format,
        },
        None => &g.format,
    };
    let langs: String = match opts {
        Some(o) => if o.subtitle_langs.len() > 0 {
            string_of(&join_strings(&o.subtitle_langs, ","))
        } else {
            g.langs.clone()
        },
        None => g.langs.clone(),
    };
    push_arg(&mut args, "--write-subs");
    if auto {
        push_arg(&mut args, "--write-auto-subs");
    }
    if !langs.as_str().is_empty() {
        push_arg(&mut args, "--sub-langs");
        push_string(&mut args, langs);
    }
    if !format.as_str().is_empty() {
        push_arg(&mut args, "--convert-subs");
        push_string(&mut args, format.clone());
    }
    if embed {
        push_arg(&mut args, "--embed-subs");
    }
    assert(strings(args@) =~= subtitle_args_spec(*g, opts));
    args
}

/// A per-channel string override that is non-blank after trimming, else
/// the global value; then trimmed.
pub open spec fn trimmed_override(o: Option<String>, global: Seq<char>) -> Seq<char> {
    trim(
        match o {
            Some(c) => if trim(c@).len() > 0 {
                c@
            } else {
                global
            },
            None => global,
        },
    )
}

/// The effective YouTube player-client list.
pub open spec fn player_clients_spec(global: Seq<char>, opts: Option<&DownloadOptions>) -> Seq<
    char,
> {
    match opts {
        Some(o) => trimmed_override(o.youtube_player_clients, global),
        None => trim(global),
    }
}

/// `trim(o)` when `o` is non-blank, else `trim(global)`.
fn trimmed_choice(o: &Option<String>, global: &str) -> (r: Vec<char>)
    ensures
        r@ == trimmed_override(*o, global@),
{
    let gv = chars_of(global);
    match o {
        Some(c) => {
            let cv = chars_of(c.as_str());
            let t = trim_vec(&cv);
            if t.len() > 0 {
                t
            } else {
                trim_vec(&gv)
            }
        },
        None => trim_vec(&gv),
    }
}

/// `--extractor-args youtube:player_client=<list>` when a client list is
/// configured (per-channel override or global default); nothing otherwise,
/// so yt-dlp uses its own default clients.
pub fn player_client_args(global: &str, opts: Option<&DownloadOptions>) -> (args: Vec<String>)
    ensures
        strings(args@) == {
            let c = player_clients_spec(global@, opts);
            if c.len() == 0 {
                seq![]
            } else {
                seq!["--extractor-args"@, "youtube:player_client="@ + c]
            }
        },
{
    let clients = match opts {
        Some(o) => trimmed_choice(&o.youtube_player_clients, global),
        None => {
            let gv = chars_of(global);
            trim_vec(&gv)
        },
    };
    let mut args: Vec<String> = Vec::new();
    if clients.len() > 0 {
        push_arg(&mut args, "--extractor-args");
        let mut v: Vec<char> = Vec::new();
        crate::text::extend_str(&mut v, "youtube:player_client=");
        crate::text::extend(&mut v, &clients);
        push_string(&mut args, string_of(&v));
    }
    args
}

/// The effective SponsorBlock mode.
pub open spec fn sponsorblock_mode_spec(global: Seq<char>, opts: Option<&DownloadOptions>) -> Seq<
    char,
> {
    match opts {
        Some(o) => trimmed_override(o.sponsorblock_mode, global),
        None => trim(global),
    }
}

/// SponsorBlock flags for the effective mode: "mark" chapter-marks the
/// segments, "remove" cuts them, anything else (including "off") adds
/// nothing.
pub fn sponsorblock_args(global: &str, opts: Option<&DownloadOptions>) -> (args: Vec<String>)
    ensures
        strings(args@) == {
            let m = sponsorblock_mode_spec(global@, opts);
            if m == "mark"@ {
                seq!["--sponsorblock-mark"@, "all"@]
            } else if m == "remove"@ {
                seq!["--sponsorblock-remove"@, "all"@]
            } else {
                seq![]
            }
        },
{
    let mode = match opts {
        Some(o) => trimmed_choice(&o.sponsorblock_mode, global),
        None => {
            let gv = chars_of(global);
            trim_vec(&gv)
        },
    };
    let mut args: Vec<String> = Vec::new();
    if eq_lit(&mode, "mark") {
        push_arg(&mut args, "--sponsorblock-mark");
        push_arg(&mut args, "all");
    } else if eq_lit(&mode, "remove") {
        push_arg(&mut args, "--sponsorblock-remove");
        push_arg(&mut args, "all");
    }
    args
}

/// `--write-comments` when comment fetching is on: the per-channel
/// override when set, the global default otherwise.
pub fn comments_args(global: bool, opts: Option<&DownloadOptions>) -> (args: Vec<String>)
    ensures
        strings(args@) == flag_if(
            match opts {
                Some(o) => knob(o.fetch_comments, global),
                None => global,
            },
            "--write-comments"@,
        ),
{
    let enabled = match opts {
        Some(o) => match o.fetch_comments {
            Some(b) => b,
            None => global,
        },
        None => global,
    };
    let mut args: Vec<String> = Vec::new();
    if enabled {
        push_arg(&mut args, "--write-comments");
    }
    assert(strings(args@) =~= flag_if(enabled, "--write-comments"@));
    args
}

/// `--embed-thumbnail` on music-first platforms, whose players read
/// embedded album art.
pub fn platform_extra_args(platform: Platform) -> (args: Vec<String>)
    ensures
        strings(args@) == flag_if((platform == Platform::Bandcamp || platform == Platform::SoundCloud), "--embed-thumbnail"@),
{
    let mut args: Vec<String> = Vec::new();
    if platform.is_audio_first() {
        push_arg(&mut args, "--embed-thumbnail");
    }
    assert(strings(args@) =~= flag_if((platform == Platform::Bandcamp || platform == Platform::SoundCloud), "--embed-thumbnail"@));
    args
}

/// `--impersonate <target>` for the platform's browser profile, if any.
pub fn impersonation_args(platform: Platform) -> (args: Vec<String>)
    ensures
        strings(args@) == match impersonate_of(platform) {
            Some(t) => seq!["--impersonate"@, t],
            None => seq![],
        },
{
    let mut args: Vec<String> = Vec::new();
    if let Some(t) = platform.impersonate_target() {
        push_arg(&mut args, "--impersonate");
        push_arg(&mut args, t);
    }
    args
}

/// The cookie-source flags: `cookies.txt` in the working directory when it
/// exists, else the browser's cookie store unless the browser is empty or
/// `"none"`.
pub open spec fn cookie_args_spec(cookies_txt_exists: bool, browser: Seq<char>) -> Seq<Seq<char>> {
    if cookies_txt_exists {
        seq!["--cookies"@, "cookies.txt"@]
    } else if browser.len() > 0 && browser != "none"@ {
        seq!["--cookies-from-browser"@, browser]
    } else {
        seq![]
    }
}

/// The cookie-source flags ([`cookie_args_spec`]).
pub fn cookie_args(cookies_txt_exists: bool, browser: &str) -> (args: Vec<String>)
    ensures
        strings(args@) == cookie_args_spec(cookies_txt_exists, browser@),
{
    let mut args: Vec<String> = Vec::new();
    if cookies_txt_exists {
        push_arg(&mut args, "--cookies");
        push_arg(&mut args, "cookies.txt");
    } else {
        let bv = chars_of(browser);
        if bv.len() > 0 && !eq_lit(&bv, "none") {
            push_arg(&mut args, "--cookies-from-browser");
            push_arg(&mut args, browser);
        }
    }
    args
}

/// The retry and throttling flags of every yt-dlp invocation; the sleeps
/// roughly triple while the adaptive backoff is engaged.
pub open spec fn retry_args_spec(backoff: bool) -> Seq<Seq<char>> {
    let (req, lo, hi) = if backoff {
        ("3"@, "8"@, "20"@)
    } else {
        ("1"@, "2"@, "6"@)
    };
    seq![
        "--retries"@,
        "30"@,
        "--fragment-retries"@,
        "30"@,
        "--retry-sleep"@,
        "linear=1:30:2"@,
        "--sleep-requests"@,
        req,
        "--sleep-interval"@,
        lo,
        "--max-sleep-interval"@,
        hi,
    ]
}

/// The retry and throttling flags.
pub fn retry_args(backoff: bool) -> (args: Vec<String>)
    ensures
        strings(args@) == retry_args_spec(backoff),
{
    let (req, lo, hi) = if backoff {
        ("3", "8", "20")
    } else {
        ("1", "2", "6")
    };
    let mut args: Vec<String> = Vec::new();
    push_arg(&mut args, "--retries");
    push_arg(&mut args, "30");
    push_arg(&mut args, "--fragment-retries");
    push_arg(&mut args, "30");
    push_arg(&mut args, "--retry-sleep");
    push_arg(&mut args, "linear=1:30:2");
    push_arg(&mut args, "--sleep-requests");
    push_arg(&mut args, req);
    push_arg(&mut args, "--sleep-interval");
    push_arg(&mut args, lo);
    push_arg(&mut args, "--max-sleep-interval");
    push_arg(&mut args, hi);
    assert(strings(args@) =~= retry_args_spec(backoff));
    args
}

// ── Timestamps in file names ─────────────────────────────────────────────────

/// `YYYYMMDD-HHMMSS` (UTC) of UNIX second `unix`.
pub open spec fn compact_utc_spec(unix: int) -> Seq<char> {
    let secs = unix % 86400;
    let d = civil_of(unix / 86400);
    dec_pad(d.0 as nat, 4) + dec_pad(d.1 as nat, 2) + dec_pad(d.2 as nat, 2) + "-"@ + dec_pad(
        (secs / 3600) as nat,
        2,
    ) + dec_pad(((secs % 3600) / 60) as nat, 2) + dec_pad((secs % 60) as nat, 2)
}

/// Format a UNIX timestamp as `YYYYMMDD-HHMMSS` (UTC) for the file names
/// of live recordings, walking the calendar a year at a time. The year
/// must fit a `u32`.
pub fn format_compact_utc(unix: u64) -> (r: String)
    requires
        unix / 86400 <= epoch_day(u32::MAX as int, 12, 31),
    ensures
        r@ == compact_utc_spec(unix as int),
{
    let day = unix / 86400;
    let day_secs = unix % 86400;
    let hour = day_secs / 3600;
    let minute = (day_secs % 3600) / 60;
    let second = day_secs % 60;
    let (year, month, dom) = walk_date(day);
    let mut out: Vec<char> = Vec::new();
    push_dec_pad(&mut out, year as u64, 4);
    push_dec_pad(&mut out, month as u64, 2);
    push_dec_pad(&mut out, dom as u64, 2);
    crate::text::extend_str(&mut out, "-");
    push_dec_pad(&mut out, hour, 2);
    push_dec_pad(&mut out, minute, 2);
    push_dec_pad(&mut out, second, 2);
    assert(out@ =~= compact_utc_spec(unix as int));
    string_of(&out)
}

// ── Process output ───────────────────────────────────────────────────────────

/// The log line of a line yt-dlp printed on stdout: the abort notice of
/// `--break-on-existing` is suppressed (`None`); anything else is kept,
/// with the cookies path redacted.
pub fn stdout_line(line: &str, cookies_abs: &str) -> (r: Option<String>)
    ensures
        match r {
            None => trim(line@) == "Aborting remaining downloads"@,
            Some(l) => trim(line@) != "Aborting remaining downloads"@ && l@ == redact_spec(
                line@,
                cookies_abs@,
            ),
        },
{
    let v = chars_of(line);
    let t = trim_vec(&v);
    if eq_lit(&t, "Aborting remaining downloads") {
        None
    } else {
        Some(redact_sensitive(line, cookies_abs))
    }
}

/// The log line of a line printed on stderr: tagged, cookies path redacted.
pub fn stderr_line(line: &str, cookies_abs: &str) -> (r: String)
    ensures
        r@ == "[stderr] "@ + redact_spec(line@, cookies_abs@),
{
    let mut out: Vec<char> = Vec::new();
    crate::text::extend_str(&mut out, "[stderr] ");
    crate::text::extend_str(&mut out, redact_sensitive(line, cookies_abs).as_str());
    string_of(&out)
}

/// How a finished yt-dlp run counts: success, and exit code 101 (stopped
/// at already-archived content by `--break-on-existing`) also counts as
/// success, with a note for the log.
pub fn exit_outcome(success: bool, code: Option<i32>) -> (r: (bool, Option<&'static str>))
    ensures
        r.0 == (success || code == Some(101i32)),
        match r.1 {
            Some(note) => !success && code == Some(101i32) && note@
                == "(up to date — stopped at already-downloaded content)"@,
            None => success || code != Some(101i32),
        },
{
    if success {
        (true, None)
    } else if code == Some(101i32) {
        (true, Some("(up to date — stopped at already-downloaded content)"))
    } else {
        (false, None)
    }
}

/// The files a finished download printed for conversion: every log line
/// `CONVERT_PATH:<path>`, the path trimmed.
pub open spec fn convert_paths_spec(log: Seq<Seq<char>>) -> Seq<Seq<char>>
    decreases log.len(),
{
    if log.len() == 0 {
        seq![]
    } else {
        convert_paths_spec(log.drop_last()) + match crate::text::strip_prefix(
            log.last(),
            "CONVERT_PATH:"@,
        ) {
            Some(p) => seq![trim(p)],
            None => seq![],
        }
    }
}

/// The paths a finished download printed for the conversion pass.
pub fn convert_paths(log: &Vec<String>) -> (r: Vec<String>)
    ensures
        strings(r@) == convert_paths_spec(strings(log@)),
{
    let mut out: Vec<String> = Vec::new();
    let mut i: usize = 0;
    while i < log.len()
        invariant
            i <= log@.len(),
            strings(out@) == convert_paths_spec(strings(log@).take(i as int)),
        decreases log.len() - i,
    {
        assert(strings(log@).take(i + 1).drop_last() =~= strings(log@).take(i as int));
        assert(strings(log@).take(i + 1).last() == log@[i as int]@);
        let l = chars_of(log[i].as_str());
        match crate::text::strip_prefix_vec(&l, "CONVERT_PATH:") {
            Some(p) => {
                push_string(&mut out, string_of(&trim_vec(&p)));
            },
            None => {},
        }
        i += 1;
        assert(strings(out@) =~= convert_paths_spec(strings(log@).take(i as int)));
    }
    assert(strings(log@).take(i as int) =~= strings(log@));
    out
}

/// Whether a queued job may start: no limit (0), or fewer jobs running
/// than the limit.
pub fn has_free_slot(max_concurrent: usize, running: usize) -> (b: bool)
    ensures
        b == (max_concurrent == 0 || running < max_concurrent),
{
    max_concurrent == 0 || running < max_concurrent
}

// ── Transcoding ──────────────────────────────────────────────────────────────

/// The ffmpeg codec arguments and target extension of a conversion.
pub open spec fn codec_plan(mode: Seq<char>, audio_format: Seq<char>, crf: u8, preset: Seq<char>) -> (
    Seq<char>,
    Seq<Seq<char>>,
) {
    if mode == "remux-mp4"@ {
        ("mp4"@, seq!["-c"@, "copy"@, "-c:a"@, "aac"@])
    } else if mode == "audio"@ {
        (
            if audio_format == "aac"@ {
                "m4a"@
            } else {
                audio_format
            },
            seq!["-vn"@] + if audio_format == "m4a"@ || audio_format == "aac"@ {
                seq!["-c:a"@, "aac"@, "-b:a"@, "192k"@]
            } else if audio_format == "opus"@ {
                seq!["-c:a"@, "libopus"@, "-b:a"@, "160k"@]
            } else if audio_format == "flac"@ {
                seq!["-c:a"@, "flac"@]
            } else {
                seq!["-c:a"@, "libmp3lame"@, "-q:a"@, "2"@]
            },
        )
    } else {
        (
            "mp4"@,
            seq![
                "-c:v"@,
                "libx264"@,
                "-crf"@,
                crate::num::dec(crf as nat),
                "-preset"@,
                preset,
                "-c:a"@,
                "aac"@,
                "-b:a"@,
                "192k"@,
                "-movflags"@,
                "+faststart"@,
            ],
        )
    }
}

/// What an ffmpeg conversion of one finished file does.
#[derive(Clone, Debug)]
pub struct TranscodePlan {
    /// Extension of the converted file.
    pub out_ext: String,
    /// Codec arguments between the input and the output.
    pub codec_args: Vec<String>,
    /// The source already has the target extension (ASCII
    /// case-insensitively), so ffmpeg writes a temporary file first.
    pub same_ext: bool,
    /// File name of the converted file: `<stem>.<out_ext>`.
    pub out_name: String,
    /// File name ffmpeg writes: `<stem>.converting.<out_ext>` when
    /// `same_ext`, else `out_name`.
    pub work_name: String,
    /// Job label: `transcode → <out_ext>: <stem>`.
    pub label: String,
}

/// Plan the ffmpeg pass of a finished file with stem `stem` and extension
/// `src_ext`: remux to mp4, extract audio, or (any other mode) re-encode
/// to H.264 mp4.
pub fn transcode_plan(spec: &ConvertSpec, stem: &str, src_ext: &str) -> (r: TranscodePlan)
    ensures
        ({
            let (ext, codec) = codec_plan(spec.mode@, spec.audio_format@, spec.crf, spec.preset@);
            &&& r.out_ext@ == ext
            &&& strings(r.codec_args@) == codec
            &&& r.same_ext == (crate::text::ascii_lower(src_ext@) == crate::text::ascii_lower(ext))
            &&& r.out_name@ == stem@ + "."@ + ext
            &&& r.work_name@ == if r.same_ext {
                stem@ + ".converting."@ + ext
            } else {
                stem@ + "."@ + ext
            }
            &&& r.label@ == "transcode → "@ + ext + ": "@ + stem@
        }),
{
    let mode = chars_of(spec.mode.as_str());
    let af = chars_of(spec.audio_format.as_str());
    let mut codec: Vec<String> = Vec::new();
    let out_ext: String;
    if eq_lit(&mode, "remux-mp4") {
        out_ext = String::from_str("mp4");
        push_arg(&mut codec, "-c");
        push_arg(&mut codec, "copy");
        push_arg(&mut codec, "-c:a");
        push_arg(&mut codec, "aac");
    } else if eq_lit(&mode, "audio") {
        out_ext = if eq_lit(&af, "aac") {
            String::from_str("m4a")
        } else {
            spec.audio_format.clone()
        };
        push_arg(&mut codec, "-vn");
        if eq_lit(&af, "m4a") || eq_lit(&af, "aac") {
            push_arg(&mut codec, "-c:a");
            push_arg(&mut codec, "aac");
            push_arg(&mut codec, "-b:a");
            push_arg(&mut codec, "192k");
        } else if eq_lit(&af, "opus") {
            push_arg(&mut codec, "-c:a");
            push_arg(&mut codec, "libopus");
            push_arg(&mut codec, "-b:a");
            push_arg(&mut codec, "160k");
        } else if eq_lit(&af, "flac") {
            push_arg(&mut codec, "-c:a");
            push_arg(&mut codec, "flac");
        } else {
            push_arg(&mut codec, "-c:a");
            push_arg(&mut codec, "libmp3lame");
            push_arg(&mut codec, "-q:a");
            push_arg(&mut codec, "2");
        }
    } else {
        out_ext = String::from_str("mp4");
        push_arg(&mut codec, "-c:v");
        push_arg(&mut codec, "libx264");
        push_arg(&mut codec, "-crf");
        let mut crf: Vec<char> = Vec::new();
        crate::num::push_dec(&mut crf, spec.crf as u64);
        push_string(&mut codec, string_of(&crf));
        push_arg(&mut codec, "-preset");
        push_string(&mut codec, spec.preset.clone());
        push_arg(&mut codec, "-c:a");
        push_arg(&mut codec, "aac");
        push_arg(&mut codec, "-b:a");
        push_arg(&mut codec, "192k");
        push_arg(&mut codec, "-movflags");
        push_arg(&mut codec, "+faststart");
    }
    assert(strings(codec@) =~= codec_plan(spec.mode@, spec.audio_format@, spec.crf, spec.preset@).1);
    let se = chars_of(src_ext);
    let oe = chars_of(out_ext.as_str());
    let same_ext = crate::text::eq_vec(
        &crate::text::ascii_lower_vec(&se),
        &crate::text::ascii_lower_vec(&oe),
    );
    let mut out_name: Vec<char> = Vec::new();
    crate::text::extend_str(&mut out_name, stem);
    crate::text::extend_str(&mut out_name, ".");
    crate::text::extend(&mut out_name, &oe);
    let mut work: Vec<char> = Vec::new();
    crate::text::extend_str(&mut work, stem);
    if same_ext {
        crate::text::extend_str(&mut work, ".converting.");
    } else {
        crate::text::extend_str(&mut work, ".");
    }
    crate::text::extend(&mut work, &oe);
    let mut label: Vec<char> = Vec::new();
    crate::text::extend_str(&mut label, "transcode → ");
    crate::text::extend(&mut label, &oe);
    crate::text::extend_str(&mut label, ": ");
    crate::text::extend_str(&mut label, stem);
    TranscodePlan {
        out_ext,
        codec_args: codec,
        same_ext,
        out_name: string_of(&out_name),
        work_name: string_of(&work),
        label: string_of(&label),
    }
}

/// The full ffmpeg argument list of a conversion: quiet with progress
/// stats, overwrite, input, codec arguments, output.
pub fn ffmpeg_args(src: &str, codec_args: &Vec<String>, work_out: &str) -> (r: Vec<String>)
    ensures
        strings(r@) == seq!["-hide_banner"@, "-loglevel"@, "error"@, "-stats"@, "-y"@, "-i"@, src@]
            + strings(codec_args@) + seq![work_out@],
{
    let mut args: Vec<String> = Vec::new();
    push_arg(&mut args, "-hide_banner");
    push_arg(&mut args, "-loglevel");
    push_arg(&mut args, "error");
    push_arg(&mut args, "-stats");
    push_arg(&mut args, "-y");
    push_arg(&mut args, "-i");
    push_arg(&mut args, src);
    let ghost head = strings(args@);
    append_strings(&mut args, codec_args);
    push_arg(&mut args, work_out);
    args
}

/// Appends copies of `more` to `args`.
pub fn append_strings(args: &mut Vec<String>, more: &Vec<String>)
    ensures
        strings(final(args)@) == strings(old(args)@) + strings(more@),
{
    let ghost start = strings(args@);
    let mut i: usize = 0;
    while i < more.len()
        invariant
            i <= more@.len(),
            strings(args@) == start + strings(more@).take(i as int),
        decreases more.len() - i,
    {
        push_string(args, more[i].clone());
        i += 1;
        assert(strings(args@) =~= start + strings(more@).take(i as int));
    }
    assert(strings(more@).take(i as int) =~= strings(more@));
}

// ── Planning a download ──────────────────────────────────────────────────────

/// The global settings a download's command line depends on.
#[derive(Clone, Debug)]
pub struct DownloadSettings {
    /// Browser for `--cookies-from-browser` when no `cookies.txt` exists
    /// (`"none"` to skip).
    pub browser: String,
    /// Global `[subtitles]` defaults.
    pub subtitle_defaults: SubtitlesSection,
    /// Global YouTube player clients (empty = yt-dlp's defaults).
    pub youtube_player_clients: String,
    /// Global SponsorBlock mode ("off" / "mark" / "remove").
    pub sponsorblock_mode: String,
    /// Global comment fetching.
    pub fetch_comments: bool,
    /// Global `[convert]` config.
    pub convert_defaults: ConvertSection,
    /// The adaptive backoff after a rate-limit hit is in effect.
    pub rate_limited_backoff: bool,
}

impl DownloadSettings {
    /// The settings of a fresh downloader: SponsorBlock marking on, comments
    /// off, default subtitles and conversion, no backoff.
    pub fn new(browser: String) -> (r: Self)
        ensures
            r.browser@ == browser@,
            r.subtitle_defaults.enabled && r.subtitle_defaults.auto_generated,
            !r.subtitle_defaults.embed,
            r.subtitle_defaults.format@.len() == 0 && r.subtitle_defaults.langs@.len() == 0,
            r.youtube_player_clients@.len() == 0,
            r.sponsorblock_mode@ == "mark"@,
            !r.fetch_comments,
            r.convert_defaults.mode@.len() == 0 && r.convert_defaults.crf == 0,
            r.convert_defaults.preset@.len() == 0 && r.convert_defaults.audio_format@.len() == 0,
            !r.convert_defaults.keep_original,
            !r.rate_limited_backoff,
    {
        DownloadSettings {
            browser,
            subtitle_defaults: SubtitlesSection::default(),
            youtube_player_clients: String::new(),
            sponsorblock_mode: String::from_str("mark"),
            fetch_comments: false,
            convert_defaults: ConvertSection::default(),
            rate_limited_backoff: false,
        }
    }
}

/// Everything a download job needs from its request and settings.
#[derive(Clone, Debug)]
pub struct DownloadPlan {
    /// The creator folder to create, with its `.source-url` sidecar
    /// (channel URLs only).
    pub channel_dir: Option<String>,
    /// The yt-dlp `-o` output template.
    pub out_arg: String,
    /// Short label shown in the UI.
    pub label: String,
    /// The yt-dlp arguments, after the program name.
    pub args: Vec<String>,
    /// The conversion to run on the finished files, if any.
    pub convert: Option<ConvertSpec>,
}

/// ` [<stamp>]` for a live recording's file name, else nothing.
pub open spec fn live_suffix(live: bool, stamp: Seq<char>) -> Seq<char> {
    if live {
        " ["@ + stamp + "]"@
    } else {
        seq![]
    }
}

/// The label mark of a live recording.
pub open spec fn live_label(live: bool) -> Seq<char> {
    if live {
        " 🔴 LIVE"@
    } else {
        seq![]
    }
}

/// `(creator folder, output template, label)` of a download: a channel
/// lands in its own folder (Bandcamp discographies by album), playlists
/// and single videos under the uploader's folder.
pub open spec fn layout_spec(
    kind: crate::platform::KindView,
    platform: Platform,
    platform_dir: Seq<char>,
    live: bool,
    stamp: Seq<char>,
) -> (Option<Seq<char>>, Seq<char>, Seq<char>) {
    let sfx = live_suffix(live, stamp);
    let pl = crate::platform::dir_name_of(platform);
    match kind {
        crate::platform::KindView::Channel(handle) => {
            let dir = crate::paths::path_join(platform_dir, handle);
            (
                Some(dir),
                if platform == Platform::Bandcamp {
                    dir + "/%(album|Unknown)s/%(title)s [%(id)s]"@ + sfx + ".%(ext)s"@
                } else {
                    dir + "/%(title)s [%(id)s]"@ + sfx + ".%(ext)s"@
                },
                pl + "/"@ + handle + "/"@ + live_label(live),
            )
        },
        crate::platform::KindView::Playlist => (
            None,
            platform_dir + "/%(uploader,channel,creator|Unknown)s/%(playlist_title)s/%(title)s [%(id)s]"@
                + sfx + ".%(ext)s"@,
            pl + "/<creator>/<playlist>/"@ + live_label(live),
        ),
        _ => (
            None,
            platform_dir + "/%(uploader,channel,creator|Unknown)s/%(title)s [%(id)s]"@ + sfx
                + ".%(ext)s"@,
            pl + "/<creator>/"@ + live_label(live),
        ),
    }
}

/// The standard metadata flags of every download.
pub open spec fn metadata_flags() -> Seq<Seq<char>> {
    seq![
        "--write-thumbnail"@,
        "--write-description"@,
        "--write-info-json"@,
        "--no-write-playlist-metafiles"@,
        "--remux-video"@,
        "mkv"@,
        "--embed-metadata"@,
        "--embed-info-json"@,
        "--embed-chapters"@,
        "--xattrs"@,
        "--progress"@,
    ]
}

/// The leading part of a download's arguments: output and cookie flags,
/// metadata flags, the quality selector, live or archive mode and the
/// archive file.
#[verifier::opaque]
pub open spec fn head_args_spec(
    st: DownloadSettings,
    platform_dir: Seq<char>,
    full_scan: bool,
    quality: DownloadQuality,
    live: bool,
    cookies_txt_exists: bool,
) -> Seq<Seq<char>> {
    seq!["--newline"@, "--no-color"@] + cookie_args_spec(cookies_txt_exists, st.browser@)
        + metadata_flags() + (match format_spec_of(quality) {
        Some(f) => seq!["-f"@, f],
        None => seq![],
    }) + (if live {
        seq!["--live-from-start"@, "--wait-for-video"@, "30"@]
    } else if !full_scan {
        seq!["--break-on-existing"@]
    } else {
        seq![]
    }) + seq!["--download-archive"@, crate::paths::path_join(platform_dir, "archive.txt"@)]
}

/// The middle part of a download's arguments: impersonation, platform
/// extras, subtitles, player clients, SponsorBlock and comments, each
/// resolved between the channel's options and the global settings.
#[verifier::opaque]
pub open spec fn mid_args_spec(
    st: DownloadSettings,
    platform: Platform,
    opts: Option<&DownloadOptions>,
) -> Seq<Seq<char>> {
    (match impersonate_of(platform) {
        Some(t) => seq!["--impersonate"@, t],
        None => seq![],
    }) + flag_if(platform == Platform::Bandcamp || platform == Platform::SoundCloud, "--embed-thumbnail"@)
        + subtitle_args_spec(st.subtitle_defaults, opts) + ({
        let c = player_clients_spec(st.youtube_player_clients@, opts);
        if c.len() == 0 {
            seq![]
        } else {
            seq!["--extractor-args"@, "youtube:player_client="@ + c]
        }
    }) + ({
        let m = sponsorblock_mode_spec(st.sponsorblock_mode@, opts);
        if m == "mark"@ {
            seq!["--sponsorblock-mark"@, "all"@]
        } else if m == "remove"@ {
            seq!["--sponsorblock-remove"@, "all"@]
        } else {
            seq![]
        }
    }) + flag_if(
        match opts {
            Some(o) => knob(o.fetch_comments, st.fetch_comments),
            None => st.fetch_comments,
        },
        "--write-comments"@,
    )
}

/// The closing part of a download's arguments: the conversion print hook,
/// the channel's own options (last, so they win), output and URL, then the
/// retry flags.
#[verifier::opaque]
pub open spec fn tail_args_spec(
    st: DownloadSettings,
    url: Seq<char>,
    out_arg: Seq<char>,
    opts: Option<&DownloadOptions>,
    convert_on: bool,
) -> Seq<Seq<char>> {
    (if convert_on {
        seq!["--print"@, "after_move:CONVERT_PATH:%(filepath)s"@]
    } else {
        seq![]
    }) + (match opts {
        Some(o) => o.args_spec(),
        None => seq![],
    }) + seq!["-o"@, out_arg, url] + retry_args_spec(st.rate_limited_backoff)
}

/// The full yt-dlp argument list of a download, in order: output and
/// cookie flags, metadata flags, the quality selector, live or archive
/// mode, the archive file, impersonation, platform extras, subtitles,
/// player clients, SponsorBlock, comments, the conversion print hook, the
/// channel's own options (last, so they win), output and URL, then the
/// retry flags.
pub open spec fn download_args_spec(
    st: DownloadSettings,
    url: Seq<char>,
    platform: Platform,
    platform_dir: Seq<char>,
    out_arg: Seq<char>,
    full_scan: bool,
    quality: DownloadQuality,
    live: bool,
    cookies_txt_exists: bool,
    opts: Option<&DownloadOptions>,
    convert_on: bool,
) -> Seq<Seq<char>> {
    head_args_spec(st, platform_dir, full_scan, quality, live, cookies_txt_exists)
        + mid_args_spec(st, platform, opts)
        + tail_args_spec(st, url, out_arg, opts, convert_on)
}

/// The leading arguments of a download ([`head_args_spec`]).
fn head_args(
    st: &DownloadSettings,
    platform_dir: &str,
    full_scan: bool,
    quality: DownloadQuality,
    live: bool,
    cookies_txt_exists: bool,
) -> (r: Vec<String>)
    ensures
        strings(r@) == head_args_spec(*st, platform_dir@, full_scan, quality, live, cookies_txt_exists),
{
    reveal(head_args_spec);
    let mut args: Vec<String> = Vec::new();
    push_arg(&mut args, "--newline");
    push_arg(&mut args, "--no-color");
    append_strings(&mut args, &cookie_args(cookies_txt_exists, st.browser.as_str()));
    let ghost a0 = strings(args@);
    push_arg(&mut args, "--write-thumbnail");
    push_arg(&mut args, "--write-description");
    push_arg(&mut args, "--write-info-json");
    push_arg(&mut args, "--no-write-playlist-metafiles");
    push_arg(&mut args, "--remux-video");
    push_arg(&mut args, "mkv");
    push_arg(&mut args, "--embed-metadata");
    push_arg(&mut args, "--embed-info-json");
    push_arg(&mut args, "--embed-chapters");
    push_arg(&mut args, "--xattrs");
    push_arg(&mut args, "--progress");
    assert(strings(args@) =~= a0 + metadata_flags());
    let ghost a1 = strings(args@);
    if let Some(fmt) = quality.format_spec() {
        push_arg(&mut args, "-f");
        push_arg(&mut args, fmt);
    }
    let ghost a2 = strings(args@);
    if live {
        push_arg(&mut args, "--live-from-start");
        push_arg(&mut args, "--wait-for-video");
        push_arg(&mut args, "30");
    } else if !full_scan {
        push_arg(&mut args, "--break-on-existing");
    }
    push_arg(&mut args, "--download-archive");
    push_string(&mut args, crate::paths::join(platform_dir, "archive.txt"));
    assert(strings(args@) =~= head_args_spec(*st, platform_dir@, full_scan, quality, live, cookies_txt_exists));
    args
}

/// The middle arguments of a download ([`mid_args_spec`]).
fn mid_args(st: &DownloadSettings, platform: Platform, opts: Option<&DownloadOptions>) -> (r: Vec<String>)
    ensures
        strings(r@) == mid_args_spec(*st, platform, opts),
{
    reveal(mid_args_spec);
    let mut args: Vec<String> = impersonation_args(platform);
    append_strings(&mut args, &platform_extra_args(platform));
    append_strings(&mut args, &subtitle_args(&st.subtitle_defaults, opts));
    append_strings(&mut args, &player_client_args(st.youtube_player_clients.as_str(), opts));
    append_strings(&mut args, &sponsorblock_args(st.sponsorblock_mode.as_str(), opts));
    append_strings(&mut args, &comments_args(st.fetch_comments, opts));
    assert(strings(args@) =~= mid_args_spec(*st, platform, opts));
    args
}

/// The closing arguments of a download ([`tail_args_spec`]).
fn tail_args(
    st: &DownloadSettings,
    url: &str,
    out_arg: &str,
    opts: Option<&DownloadOptions>,
    convert_on: bool,
) -> (r: Vec<String>)
    ensures
        strings(r@) == tail_args_spec(*st, url@, out_arg@, opts, convert_on),
{
    reveal(tail_args_spec);
    let mut args: Vec<String> = Vec::new();
    if convert_on {
        push_arg(&mut args, "--print");
        push_arg(&mut args, "after_move:CONVERT_PATH:%(filepath)s");
    }
    if let Some(o) = opts {
        append_strings(&mut args, &o.apply());
    }
    push_arg(&mut args, "-o");
    push_arg(&mut args, out_arg);
    push_arg(&mut args, url);
    append_strings(&mut args, &retry_args(st.rate_limited_backoff));
    assert(strings(args@) =~= tail_args_spec(*st, url@, out_arg@, opts, convert_on));
    args
}

/// Plan a download of `url`: the creator folder, output template, label,
/// complete yt-dlp argument list and post-download conversion.
/// `platform_dir` is the platform's folder ([`crate::platform::platform_root`]),
/// `live_stamp` the [`format_compact_utc`] of the start time (used for
/// live recordings), `cookies_txt_exists` whether `cookies.txt` is in the
/// working directory.
pub fn plan_download(
    st: &DownloadSettings,
    url: &str,
    info: &crate::platform::UrlInfo,
    platform_dir: &str,
    full_scan: bool,
    quality: DownloadQuality,
    live: bool,
    live_stamp: &str,
    cookies_txt_exists: bool,
    channel_options: Option<&DownloadOptions>,
) -> (r: DownloadPlan)
    ensures
        ({
            let (dir, out, label) = layout_spec(info.kind@, info.platform, platform_dir@, live, live_stamp@);
            &&& match r.channel_dir {
                Some(d) => dir == Some(d@),
                None => dir is None,
            }
            &&& r.out_arg@ == out
            &&& r.label@ == label
            &&& (r.convert is None <==> ConvertSpec::resolves_off(st.convert_defaults, channel_options))
            &&& (r.convert matches Some(c) ==> ConvertSpec::resolved(c, st.convert_defaults, channel_options))
            &&& strings(r.args@) == download_args_spec(
                *st,
                url@,
                info.platform,
                platform_dir@,
                out,
                full_scan,
                quality,
                live,
                cookies_txt_exists,
                channel_options,
                r.convert is Some,
            )
        }),
{
    let (channel_dir, out_arg, label) = plan_layout(info, platform_dir, live, live_stamp);
    let convert = ConvertSpec::resolve(&st.convert_defaults, channel_options);
    let mut args = head_args(st, platform_dir, full_scan, quality, live, cookies_txt_exists);
    append_strings(&mut args, &mid_args(st, info.platform, channel_options));
    append_strings(&mut args, &tail_args(st, url, out_arg.as_str(), channel_options, convert.is_some()));
    DownloadPlan { channel_dir, out_arg, label, args, convert }
}

/// The creator folder, output template and label of a download.
fn plan_layout(info: &crate::platform::UrlInfo, platform_dir: &str, live: bool, live_stamp: &str) -> (r: (
    Option<String>,
    String,
    String,
))
    ensures
        ({
            let (dir, out, label) = layout_spec(info.kind@, info.platform, platform_dir@, live, live_stamp@);
            &&& match r.0 {
                Some(d) => dir == Some(d@),
                None => dir is None,
            }
            &&& r.1@ == out
            &&& r.2@ == label
        }),
{
    let mut sfx: Vec<char> = Vec::new();
    if live {
        crate::text::extend_str(&mut sfx, " [");
        crate::text::extend_str(&mut sfx, live_stamp);
        crate::text::extend_str(&mut sfx, "]");
    }
    let mut mark: Vec<char> = Vec::new();
    if live {
        crate::text::extend_str(&mut mark, " 🔴 LIVE");
    }
    let pl = info.platform.dir_name();
    let mut out: Vec<char> = Vec::new();
    let mut label: Vec<char> = Vec::new();
    crate::text::extend_str(&mut label, pl);
    match &info.kind {
        crate::platform::UrlKind::Channel { handle } => {
            let dir = crate::paths::join(platform_dir, handle.as_str());
            crate::text::extend_str(&mut out, dir.as_str());
            if info.platform == Platform::Bandcamp {
                crate::text::extend_str(&mut out, "/%(album|Unknown)s/%(title)s [%(id)s]");
            } else {
                crate::text::extend_str(&mut out, "/%(title)s [%(id)s]");
            }
            crate::text::extend(&mut out, &sfx);
            crate::text::extend_str(&mut out, ".%(ext)s");
            crate::text::extend_str(&mut label, "/");
            crate::text::extend_str(&mut label, handle.as_str());
            crate::text::extend_str(&mut label, "/");
            crate::text::extend(&mut label, &mark);
            (Some(dir), string_of(&out), string_of(&label))
        },
        crate::platform::UrlKind::Playlist => {
            crate::text::extend_str(&mut out, platform_dir);
            crate::text::extend_str(
                &mut out,
                "/%(uploader,channel,creator|Unknown)s/%(playlist_title)s/%(title)s [%(id)s]",
            );
            crate::text::extend(&mut out, &sfx);
            crate::text::extend_str(&mut out, ".%(ext)s");
            crate::text::extend_str(&mut label, "/<creator>/<playlist>/");
            crate::text::extend(&mut label, &mark);
            (None, string_of(&out), string_of(&label))
        },
        _ => {
            crate::text::extend_str(&mut out, platform_dir);
            crate::text::extend_str(&mut out, "/%(uploader,channel,creator|Unknown)s/%(title)s [%(id)s]");
            crate::text::extend(&mut out, &sfx);
            crate::text::extend_str(&mut out, ".%(ext)s");
            crate::text::extend_str(&mut label, "/<creator>/");
            crate::text::extend(&mut label, &mark);
            (None, string_of(&out), string_of(&label))
        },
    }
}

/// The POT provider's extractor argument, added at spawn time while the
/// provider is enabled and its server is running.
pub fn pot_args(active: bool) -> (r: Vec<String>)
    ensures
        strings(r@) == if active {
            seq!["--extractor-args"@, "youtubepot-bgutilhttp:base_url="@
                + crate::pot_provider::server_url_spec()]
        } else {
            seq![]
        },
{
    let mut args: Vec<String> = Vec::new();
    if active {
        push_arg(&mut args, "--extractor-args");
        push_string(&mut args, crate::pot_provider::extractor_args());
    }
    args
}

/// The arguments of a sidecar repair: no video download, only the
/// thumbnail, info JSON, description and (global-default) subtitles,
/// fetched as YouTube.
pub open spec fn repair_args_spec(
    st: DownloadSettings,
    cookies_txt_exists: bool,
    out_arg: Seq<char>,
    url: Seq<char>,
) -> Seq<Seq<char>> {
    seq!["--newline"@, "--no-color"@, "--skip-download"@] + cookie_args_spec(
        cookies_txt_exists,
        st.browser@,
    ) + seq!["--write-thumbnail"@, "--write-info-json"@, "--write-description"@]
        + subtitle_args_spec(st.subtitle_defaults, None) + (match impersonate_of(Platform::YouTube) {
        Some(t) => seq!["--impersonate"@, t],
        None => seq![],
    }) + seq!["-o"@, out_arg, url] + retry_args_spec(st.rate_limited_backoff)
}

/// A job that re-fetches the missing sidecars of one video.
#[derive(Clone, Debug)]
pub struct SideJob {
    /// The URL handed to yt-dlp.
    pub url: String,
    /// The yt-dlp `-o` output template.
    pub out_arg: String,
    /// Short label shown in the UI.
    pub label: String,
    /// The yt-dlp arguments, after the program name.
    pub args: Vec<String>,
}

/// Plan the re-fetch of the missing sidecars (thumbnail, info JSON,
/// description, subtitles) of the YouTube video `video_id`, whose file has
/// stem `stem` in folder `dir`. A `%` in the stem is doubled so yt-dlp
/// takes it literally.
pub fn plan_repair(st: &DownloadSettings, video_id: &str, dir: &str, stem: &str, cookies_txt_exists: bool) -> (r:
    SideJob)
    ensures
        r.out_arg@ == dir@ + "/"@ + crate::text::replace(stem@, "%"@, "%%"@) + ".%(ext)s"@,
        r.url@ == "https://www.youtube.com/watch?v="@ + video_id@,
        r.label@ == "repair "@ + stem@,
        strings(r.args@) == repair_args_spec(*st, cookies_txt_exists, r.out_arg@, r.url@),
{
    let sv = chars_of(stem);
    let mut pct: Vec<char> = Vec::new();
    pct.push('%');
    let mut pct2: Vec<char> = Vec::new();
    pct2.push('%');
    pct2.push('%');
    proof {
        reveal_strlit("%");
        reveal_strlit("%%");
        assert(pct@ =~= "%"@);
        assert(pct2@ =~= "%%"@);
    }
    let safe = crate::text::replace_vec(&sv, &pct, &pct2);
    let mut out: Vec<char> = Vec::new();
    crate::text::extend_str(&mut out, dir);
    crate::text::extend_str(&mut out, "/");
    crate::text::extend(&mut out, &safe);
    crate::text::extend_str(&mut out, ".%(ext)s");
    let out_arg = string_of(&out);
    let mut u: Vec<char> = Vec::new();
    crate::text::extend_str(&mut u, "https://www.youtube.com/watch?v=");
    crate::text::extend_str(&mut u, video_id);
    let url = string_of(&u);
    let mut l: Vec<char> = Vec::new();
    crate::text::extend_str(&mut l, "repair ");
    crate::text::extend_str(&mut l, stem);
    let label = string_of(&l);
    let mut args: Vec<String> = Vec::new();
    push_arg(&mut args, "--newline");
    push_arg(&mut args, "--no-color");
    push_arg(&mut args, "--skip-download");
    append_strings(&mut args, &cookie_args(cookies_txt_exists, st.browser.as_str()));
    push_arg(&mut args, "--write-thumbnail");
    push_arg(&mut args, "--write-info-json");
    push_arg(&mut args, "--write-description");
    append_strings(&mut args, &subtitle_args(&st.subtitle_defaults, None));
    append_strings(&mut args, &impersonation_args(Platform::YouTube));
    push_arg(&mut args, "-o");
    push_arg(&mut args, out_arg.as_str());
    push_arg(&mut args, url.as_str());
    append_strings(&mut args, &retry_args(st.rate_limited_backoff));
    assert(strings(args@) =~= repair_args_spec(*st, cookies_txt_exists, out_arg@, url@));
    SideJob { url, out_arg, label, args }
}

/// The arguments of an audio-only download into the music folder.
pub open spec fn music_args_spec(
    st: DownloadSettings,
    cookies_txt_exists: bool,
    platform: Platform,
    archive: Seq<char>,
    out_arg: Seq<char>,
    url: Seq<char>,
) -> Seq<Seq<char>> {
    seq!["--newline"@, "--no-color"@] + cookie_args_spec(cookies_txt_exists, st.browser@) + seq![
        "--extract-audio"@,
        "--audio-format"@,
        "best"@,
        "--audio-quality"@,
        "0"@,
        "--write-thumbnail"@,
        "--write-info-json"@,
        "--embed-metadata"@,
        "--xattrs"@,
    ] + (match impersonate_of(platform) {
        Some(t) => seq!["--impersonate"@, t],
        None => seq![],
    }) + seq!["--progress"@, "--download-archive"@, archive, "-o"@, out_arg, url]
        + retry_args_spec(st.rate_limited_backoff)
}

/// Plan an audio-only download of `url` into `<channels_root>/music/<artist>/`,
/// recorded in the shared `<channels_root>/archive.txt`, impersonating as
/// the URL's platform.
pub fn plan_music(st: &DownloadSettings, channels_root: &str, url: &str, cookies_txt_exists: bool) -> (r: SideJob)
    ensures
        r.url@ == url@,
        r.out_arg@ == crate::paths::path_join(channels_root@, "music"@)
            + "/%(artist,channel|Unknown)s/%(title)s [%(id)s].%(ext)s"@,
        r.label@ == "music"@,
        strings(r.args@) == music_args_spec(
            *st,
            cookies_txt_exists,
            crate::platform::platform_of_lowered(crate::text::unicode_lower(url@)),
            crate::paths::path_join(channels_root@, "archive.txt"@),
            r.out_arg@,
            url@,
        ),
{
    let music_root = crate::paths::join(channels_root, "music");
    let archive = crate::paths::join(channels_root, "archive.txt");
    let mut out: Vec<char> = Vec::new();
    crate::text::extend_str(&mut out, music_root.as_str());
    crate::text::extend_str(&mut out, "/%(artist,channel|Unknown)s/%(title)s [%(id)s].%(ext)s");
    let out_arg = string_of(&out);
    let platform = crate::platform::classify_url(url).platform;
    let mut args: Vec<String> = Vec::new();
    push_arg(&mut args, "--newline");
    push_arg(&mut args, "--no-color");
    append_strings(&mut args, &cookie_args(cookies_txt_exists, st.browser.as_str()));
    push_arg(&mut args, "--extract-audio");
    push_arg(&mut args, "--audio-format");
    push_arg(&mut args, "best");
    push_arg(&mut args, "--audio-quality");
    push_arg(&mut args, "0");
    push_arg(&mut args, "--write-thumbnail");
    push_arg(&mut args, "--write-info-json");
    push_arg(&mut args, "--embed-metadata");
    push_arg(&mut args, "--xattrs");
    append_strings(&mut args, &impersonation_args(platform));
    push_arg(&mut args, "--progress");
    push_arg(&mut args, "--download-archive");
    push_string(&mut args, archive);
    push_arg(&mut args, "-o");
    push_arg(&mut args, out_arg.as_str());
    push_arg(&mut args, url);
    append_strings(&mut args, &retry_args(st.rate_limited_backoff));
    assert(strings(args@) =~= music_args_spec(
        *st,
        cookies_txt_exists,
        platform,
        crate::paths::path_join(channels_root@, "archive.txt"@),
        out_arg@,
        url@,
    ));
    SideJob { url: String::from_str(url), out_arg, label: String::from_str("music"), args }
}

} // verus!
