//! Per-channel download option overrides.
//!
//! The cascade has two levels: channel options, set per `(platform,
//! handle)` and stored in the `channel_options` table, and the global
//! defaults the downloader applies when no channel options exist. Every
//! field is optional or empty by default, so an empty `DownloadOptions`
//! changes nothing.

use vstd::prelude::*;
use crate::downloader::DownloadQuality;
use crate::num::{dec, push_dec};
use crate::text::{extend_str, non_empty, push_arg, push_string, string_of, strings};

verus! {

/// Per-channel overrides applied on top of the standard yt-dlp flags.
#[derive(Clone, Debug)]
pub struct DownloadOptions {
    /// Quality cap for this channel's re-checks.
    pub quality: Option<DownloadQuality>,
    /// Force audio-only extraction (`--extract-audio --audio-format best
    /// --audio-quality 0`).
    pub audio_only: bool,
    /// Bandwidth cap in KB/s (`--limit-rate <N>K`).
    pub limit_rate_kb: Option<u32>,
    /// Skip videos smaller than this many MB (`--min-filesize`).
    pub min_filesize_mb: Option<u32>,
    /// Skip videos larger than this many MB (`--max-filesize`).
    pub max_filesize_mb: Option<u32>,
    /// Only videos uploaded on or after this `YYYYMMDD` (`--dateafter`).
    pub date_after: Option<String>,
    /// Free-form yt-dlp `--match-filter` expression.
    pub match_filter: Option<String>,
    /// Subtitle languages to fetch; empty for the global default.
    pub subtitle_langs: Vec<String>,
    /// Master subtitle switch for this channel (`None` = global).
    pub subtitles_enabled: Option<bool>,
    /// Include auto-generated captions (`None` = global).
    pub subtitles_auto: Option<bool>,
    /// Embed subtitles into the container (`None` = global).
    pub subtitles_embed: Option<bool>,
    /// Convert subtitles to this format (`None` or empty = global).
    pub subtitle_format: Option<String>,
    /// YouTube player clients for this channel (`None` = global).
    pub youtube_player_clients: Option<String>,
    /// SponsorBlock mode: "off" / "mark" / "remove" (`None` = global).
    pub sponsorblock_mode: Option<String>,
    /// Post-download conversion mode override (`None` = global).
    pub convert_mode: Option<String>,
    /// Raw arguments appended verbatim to the yt-dlp command line.
    pub extra_args: Vec<String>,
    /// Fetch comments into the info.json sidecar (`None` = global).
    pub fetch_comments: Option<bool>,
    /// Pass `--extractor-args youtubetab:skip=authcheck`.
    pub skip_auth_check: bool,
}

impl Default for DownloadOptions {
    fn default() -> (r: Self)
        ensures
            r.is_default(),
    {
        DownloadOptions {
            quality: None,
            audio_only: false,
            limit_rate_kb: None,
            min_filesize_mb: None,
            max_filesize_mb: None,
            date_after: None,
            match_filter: None,
            subtitle_langs: Vec::new(),
            subtitles_enabled: None,
            subtitles_auto: None,
            subtitles_embed: None,
            subtitle_format: None,
            youtube_player_clients: None,
            sponsorblock_mode: None,
            convert_mode: None,
            extra_args: Vec::new(),
            fetch_comments: None,
            skip_auth_check: false,
        }
    }
}

/// `--flag N<unit>` for an optional limit.
pub open spec fn limit_args(flag: Seq<char>, v: Option<u32>, unit: Seq<char>) -> Seq<Seq<char>> {
    match v {
        Some(n) => seq![flag, dec(n as nat) + unit],
        None => seq![],
    }
}

/// `--flag value` for an optional, non-empty value.
pub open spec fn value_args(flag: Seq<char>, v: Option<String>) -> Seq<Seq<char>> {
    match v {
        Some(s) => if s@.len() > 0 {
            seq![flag, s@]
        } else {
            seq![]
        },
        None => seq![],
    }
}

impl DownloadOptions {
    /// Every field is at its default.
    pub open spec fn is_default(&self) -> bool {
        &&& self.quality is None
        &&& !self.audio_only
        &&& self.limit_rate_kb is None
        &&& self.min_filesize_mb is None
        &&& self.max_filesize_mb is None
        &&& self.date_after is None
        &&& self.match_filter is None
        &&& self.subtitle_langs@.len() == 0
        &&& self.subtitles_enabled is None
        &&& self.subtitles_auto is None
        &&& self.subtitles_embed is None
        &&& self.subtitle_format is None
        &&& self.youtube_player_clients is None
        &&& self.sponsorblock_mode is None
        &&& self.convert_mode is None
        &&& self.extra_args@.len() == 0
        &&& self.fetch_comments is None
        &&& !self.skip_auth_check
    }

    /// The arguments these options append to a yt-dlp command line.
    pub open spec fn args_spec(&self) -> Seq<Seq<char>> {
        (if self.audio_only {
            seq!["--extract-audio"@, "--audio-format"@, "best"@, "--audio-quality"@, "0"@]
        } else {
            seq![]
        }) + limit_args("--limit-rate"@, self.limit_rate_kb, "K"@) + limit_args(
            "--min-filesize"@,
            self.min_filesize_mb,
            "M"@,
        ) + limit_args("--max-filesize"@, self.max_filesize_mb, "M"@) + value_args(
            "--dateafter"@,
            self.date_after,
        ) + value_args("--match-filter"@, self.match_filter) + non_empty(
            strings(self.extra_args@),
        ) + (if self.skip_auth_check {
            seq!["--extractor-args"@, "youtubetab:skip=authcheck"@]
        } else {
            seq![]
        })
    }

    /// Options at their defaults add nothing to a command line, so dropping
    /// an empty options row changes no download.
    pub proof fn lemma_default_adds_nothing(&self)
        requires
            self.is_default(),
        ensures
            self.args_spec() =~= seq![],
    {
        assert(strings(self.extra_args@) =~= seq![]);
        assert(non_empty(strings(self.extra_args@)) =~= seq![]);
    }

    /// True when every field is at its default, so an options row holding
    /// it can be dropped instead of stored.
    pub fn is_empty(&self) -> (b: bool)
        ensures
            b == self.is_default(),
    {
        self.quality.is_none() && !self.audio_only && self.limit_rate_kb.is_none()
            && self.min_filesize_mb.is_none() && self.max_filesize_mb.is_none()
            && self.date_after.is_none() && self.match_filter.is_none()
            && self.subtitle_langs.len() == 0 && self.subtitles_enabled.is_none()
            && self.subtitles_auto.is_none() && self.subtitles_embed.is_none()
            && self.subtitle_format.is_none() && self.youtube_player_clients.is_none()
            && self.sponsorblock_mode.is_none() && self.convert_mode.is_none()
            && self.extra_args.len() == 0 && self.fetch_comments.is_none()
            && !self.skip_auth_check
    }

    /// The option overrides to append to a yt-dlp command line, after the
    /// standard flag set so that an explicit override here wins. Subtitle,
    /// player-client, SponsorBlock and comment flags are merged with the
    /// global config by the downloader instead.
    pub fn apply(&self) -> (args: Vec<String>)
        ensures
            strings(args@) == self.args_spec(),
    {
        let mut args: Vec<String> = Vec::new();
        if self.audio_only {
            push_arg(&mut args, "--extract-audio");
            push_arg(&mut args, "--audio-format");
            push_arg(&mut args, "best");
            push_arg(&mut args, "--audio-quality");
            push_arg(&mut args, "0");
        }
        let ghost a1 = strings(args@);
        push_limit(&mut args, "--limit-rate", self.limit_rate_kb, "K");
        push_limit(&mut args, "--min-filesize", self.min_filesize_mb, "M");
        push_limit(&mut args, "--max-filesize", self.max_filesize_mb, "M");
        push_value(&mut args, "--dateafter", &self.date_after);
        push_value(&mut args, "--match-filter", &self.match_filter);
        let ghost before_extra = strings(args@);
        let mut i: usize = 0;
        while i < self.extra_args.len()
            invariant
                i <= self.extra_args@.len(),
                strings(args@) == before_extra + non_empty(
                    strings(self.extra_args@).take(i as int),
                ),
            decreases self.extra_args.len() - i,
        {
            let ghost prev = strings(args@);
            assert(strings(self.extra_args@).take(i + 1).drop_last() =~= strings(
                self.extra_args@,
            ).take(i as int));
            let a = &self.extra_args[i];
            if !a.as_str().is_empty() {
                push_string(&mut args, a.clone());
                assert(strings(args@) =~= before_extra + non_empty(
                    strings(self.extra_args@).take(i + 1),
                ));
            } else {
                assert(strings(args@) =~= before_extra + non_empty(
                    strings(self.extra_args@).take(i + 1),
                ));
            }
            i += 1;
        }
        assert(strings(self.extra_args@).take(i as int) =~= strings(self.extra_args@));
        if self.skip_auth_check {
            push_arg(&mut args, "--extractor-args");
            push_arg(&mut args, "youtubetab:skip=authcheck");
        }
        assert(strings(args@) =~= self.args_spec());
        args
    }
}

/// Appends `limit_args(flag, v, unit)`.
fn push_limit(args: &mut Vec<String>, flag: &str, v: Option<u32>, unit: &str)
    ensures
        strings(final(args)@) == strings(old(args)@) + limit_args(flag@, v, unit@),
{
    match v {
        Some(n) => {
            push_arg(args, flag);
            let mut s: Vec<char> = Vec::new();
            push_dec(&mut s, n as u64);
            extend_str(&mut s, unit);
            push_string(args, string_of(&s));
        },
        None => {},
    }
    assert(strings(args@) =~= strings(old(args)@) + limit_args(flag@, v, unit@));
}

/// Appends `value_args(flag, v)`.
fn push_value(args: &mut Vec<String>, flag: &str, v: &Option<String>)
    ensures
        strings(final(args)@) == strings(old(args)@) + value_args(flag@, *v),
{
    match v {
        Some(s) => {
            if !s.as_str().is_empty() {
                push_arg(args, flag);
                push_string(args, s.clone());
            }
        },
        None => {},
    }
    assert(strings(args@) =~= strings(old(args)@) + value_args(flag@, *v));
}

} // verus!
