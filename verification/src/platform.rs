//! Source-platform classification.
//!
//! 1. **URL → platform**: pattern-match the host to a [`Platform`].
//! 2. **Platform → directory**: each platform owns a folder next to
//!    `channels/` (which remains YouTube for backward compatibility).
//! 3. **Folder → display**: icon and human label for the UI.
//!
//! Anything that doesn't match a known host is [`Platform::Other`].

use vstd::prelude::*;
use crate::num::all_digits;
use crate::paths::{path_join, path_with_file_name};
use crate::text::{
    begins, chars_of, contains, ends_with, find, find_any_at, find_any_from, find_char_at,
    find_char_from, find_vec, first_piece, first_piece_vec, includes, eq_lit, lemma_find_any_from,
    lemma_find_char_from, lemma_find_from, slice, split_second, split_second_vec, starts_with,
    string_of, strip_suffix, strip_suffix_vec, to_lowercase, trim, trim_end_char,
    trim_end_char_vec, trim_start_char, trim_start_char_vec, trim_start_matches,
    trim_start_matches_vec, trim_vec, unicode_lower,
};

verus! {

/// Where a download came from. Drives output paths and sidebar grouping.
#[derive(Debug, Clone, Copy, PartialEq, Eq, Hash, Structural)]
pub enum Platform {
    YouTube,
    TikTok,
    Twitch,
    Vimeo,
    Bandcamp,
    SoundCloud,
    Odysee,
    Other,
}

impl Default for Platform {
    fn default() -> (r: Self)
        ensures
            r == Platform::YouTube,
    {
        Platform::YouTube
    }
}

/// Folder name of each platform under the library root.
pub open spec fn dir_name_of(p: Platform) -> Seq<char> {
    match p {
        Platform::YouTube => "channels"@,
        Platform::TikTok => "tiktok"@,
        Platform::Twitch => "twitch"@,
        Platform::Vimeo => "vimeo"@,
        Platform::Bandcamp => "bandcamp"@,
        Platform::SoundCloud => "soundcloud"@,
        Platform::Odysee => "odysee"@,
        Platform::Other => "other"@,
    }
}

/// Human-readable label of each platform.
pub open spec fn display_name_of(p: Platform) -> Seq<char> {
    match p {
        Platform::YouTube => "YouTube"@,
        Platform::TikTok => "TikTok"@,
        Platform::Twitch => "Twitch"@,
        Platform::Vimeo => "Vimeo"@,
        Platform::Bandcamp => "Bandcamp"@,
        Platform::SoundCloud => "SoundCloud"@,
        Platform::Odysee => "Odysee"@,
        Platform::Other => "Other"@,
    }
}

/// Sidebar icon of each platform.
pub open spec fn icon_of(p: Platform) -> Seq<char> {
    match p {
        Platform::YouTube => "▶"@,
        Platform::TikTok => "♪"@,
        Platform::Twitch => "📺"@,
        Platform::Vimeo => "🎬"@,
        Platform::Bandcamp => "🎵"@,
        Platform::SoundCloud => "☁"@,
        Platform::Odysee => "◈"@,
        Platform::Other => "📼"@,
    }
}

/// The platform whose folder is called `name`, if any.
pub open spec fn platform_of_dir(name: Seq<char>) -> Option<Platform> {
    if name == "channels"@ {
        Some(Platform::YouTube)
    } else if name == "tiktok"@ {
        Some(Platform::TikTok)
    } else if name == "twitch"@ {
        Some(Platform::Twitch)
    } else if name == "vimeo"@ {
        Some(Platform::Vimeo)
    } else if name == "bandcamp"@ {
        Some(Platform::Bandcamp)
    } else if name == "soundcloud"@ {
        Some(Platform::SoundCloud)
    } else if name == "odysee"@ {
        Some(Platform::Odysee)
    } else if name == "other"@ {
        Some(Platform::Other)
    } else {
        None
    }
}

/// The platform a lower-cased URL belongs to, by loose host matching.
pub open spec fn platform_of_lowered(s: Seq<char>) -> Platform {
    if contains(s, "youtube.com"@) || contains(s, "youtu.be"@) || contains(
        s,
        "youtube-nocookie.com"@,
    ) {
        Platform::YouTube
    } else if contains(s, "tiktok.com"@) || contains(s, "vm.tiktok.com"@) {
        Platform::TikTok
    } else if contains(s, "twitch.tv"@) {
        Platform::Twitch
    } else if contains(s, "vimeo.com"@) {
        Platform::Vimeo
    } else if contains(s, ".bandcamp.com"@) || contains(s, "//bandcamp.com"@) {
        Platform::Bandcamp
    } else if contains(s, "soundcloud.com"@) {
        Platform::SoundCloud
    } else if contains(s, "odysee.com"@) {
        Platform::Odysee
    } else {
        Platform::Other
    }
}

/// `yt-dlp --impersonate` target of each platform (`None` = skip the flag).
pub open spec fn impersonate_of(p: Platform) -> Option<Seq<char>> {
    match p {
        Platform::Twitch => None,
        Platform::TikTok => Some("Chrome-Android-131"@),
        _ => Some("Chrome-146:Macos-26"@),
    }
}

/// Every platform, in sidebar order.
pub open spec fn all_platforms() -> Seq<Platform> {
    seq![
        Platform::YouTube,
        Platform::TikTok,
        Platform::Twitch,
        Platform::Vimeo,
        Platform::Bandcamp,
        Platform::SoundCloud,
        Platform::Odysee,
        Platform::Other,
    ]
}

impl Platform {
    /// Folder name used under the backup root. YouTube keeps the legacy
    /// `channels/` for backward compatibility with existing libraries.
    pub fn dir_name(self) -> (r: &'static str)
        ensures
            r@ == dir_name_of(self),
    {
        match self {
            Platform::YouTube => "channels",
            Platform::TikTok => "tiktok",
            Platform::Twitch => "twitch",
            Platform::Vimeo => "vimeo",
            Platform::Bandcamp => "bandcamp",
            Platform::SoundCloud => "soundcloud",
            Platform::Odysee => "odysee",
            Platform::Other => "other",
        }
    }

    /// Human-readable label for the UI (sidebar / tooltips).
    pub fn display_name(self) -> (r: &'static str)
        ensures
            r@ == display_name_of(self),
    {
        match self {
            Platform::YouTube => "YouTube",
            Platform::TikTok => "TikTok",
            Platform::Twitch => "Twitch",
            Platform::Vimeo => "Vimeo",
            Platform::Bandcamp => "Bandcamp",
            Platform::SoundCloud => "SoundCloud",
            Platform::Odysee => "Odysee",
            Platform::Other => "Other",
        }
    }

    /// Single-character icon shown in the sidebar.
    pub fn icon(self) -> (r: &'static str)
        ensures
            r@ == icon_of(self),
    {
        match self {
            Platform::YouTube => "▶",
            Platform::TikTok => "♪",
            Platform::Twitch => "📺",
            Platform::Vimeo => "🎬",
            Platform::Bandcamp => "🎵",
            Platform::SoundCloud => "☁",
            Platform::Odysee => "◈",
            Platform::Other => "📼",
        }
    }

    /// Inverse of [`Self::dir_name`].
    pub fn from_dir_name(name: &str) -> (r: Option<Platform>)
        ensures
            r == platform_of_dir(name@),
    {
        let n = chars_of(name);
        if eq_lit(&n, "channels") {
            Some(Platform::YouTube)
        } else if eq_lit(&n, "tiktok") {
            Some(Platform::TikTok)
        } else if eq_lit(&n, "twitch") {
            Some(Platform::Twitch)
        } else if eq_lit(&n, "vimeo") {
            Some(Platform::Vimeo)
        } else if eq_lit(&n, "bandcamp") {
            Some(Platform::Bandcamp)
        } else if eq_lit(&n, "soundcloud") {
            Some(Platform::SoundCloud)
        } else if eq_lit(&n, "odysee") {
            Some(Platform::Odysee)
        } else if eq_lit(&n, "other") {
            Some(Platform::Other)
        } else {
            None
        }
    }

    /// The platform of a URL that is already lower-cased.
    pub fn from_lowercase_url(s: &str) -> (r: Platform)
        ensures
            r == platform_of_lowered(s@),
    {
        let s = chars_of(s);
        if includes(&s, "youtube.com") || includes(&s, "youtu.be") || includes(
            &s,
            "youtube-nocookie.com",
        ) {
            Platform::YouTube
        } else if includes(&s, "tiktok.com") || includes(&s, "vm.tiktok.com") {
            Platform::TikTok
        } else if includes(&s, "twitch.tv") {
            Platform::Twitch
        } else if includes(&s, "vimeo.com") {
            Platform::Vimeo
        } else if includes(&s, ".bandcamp.com") || includes(&s, "//bandcamp.com") {
            Platform::Bandcamp
        } else if includes(&s, "soundcloud.com") {
            Platform::SoundCloud
        } else if includes(&s, "odysee.com") {
            Platform::Odysee
        } else {
            Platform::Other
        }
    }

    /// Pick the platform from a URL's host portion. Matching is on the
    /// Unicode-lower-cased URL and intentionally loose so subdomains
    /// (`m.youtube.com`, `*.bandcamp.com`) still resolve.
    pub fn from_url(url: &str) -> (r: Platform)
        ensures
            r == platform_of_lowered(unicode_lower(url@)),
    {
        let s = to_lowercase(url);
        Platform::from_lowercase_url(s.as_str())
    }

    /// Every variant, in sidebar order.
    pub fn all() -> (r: Vec<Platform>)
        ensures
            r@ == all_platforms(),
    {
        let v = vec![
            Platform::YouTube,
            Platform::TikTok,
            Platform::Twitch,
            Platform::Vimeo,
            Platform::Bandcamp,
            Platform::SoundCloud,
            Platform::Odysee,
            Platform::Other,
        ];
        assert(v@ =~= all_platforms());
        v
    }

    /// Whether downloads from this platform are audio-only by default.
    pub fn is_audio_first(self) -> (b: bool)
        ensures
            b == (self == Platform::Bandcamp || self == Platform::SoundCloud),
    {
        match self {
            Platform::Bandcamp | Platform::SoundCloud => true,
            _ => false,
        }
    }

    /// yt-dlp `--impersonate` target tuned for each source: none for Twitch
    /// (its OAuth dislikes TLS impersonation), mobile Chrome for TikTok,
    /// desktop Chrome otherwise.
    pub fn impersonate_target(self) -> (r: Option<&'static str>)
        ensures
            match r {
                Some(t) => impersonate_of(self) == Some(t@),
                None => impersonate_of(self) is None,
            },
    {
        match self {
            Platform::Twitch => None,
            Platform::TikTok => Some("Chrome-Android-131"),
            _ => Some("Chrome-146:Macos-26"),
        }
    }
}

/// What kind of URL we're looking at — drives the yt-dlp `-o` template.
#[derive(Clone, Debug)]
pub enum UrlKind {
    /// A creator profile / channel URL. `handle` becomes the on-disk folder.
    Channel { handle: String },
    /// A playlist / album / collection.
    Playlist,
    /// A single video / track / VOD.
    Video,
    /// Can't tell from the URL alone — yt-dlp figures it out.
    Unknown,
}

/// The mathematical value of a [`UrlKind`].
pub enum KindView {
    Channel(Seq<char>),
    Playlist,
    Video,
    Unknown,
}

impl View for UrlKind {
    type V = KindView;

    open spec fn view(&self) -> KindView {
        match self {
            UrlKind::Channel { handle } => KindView::Channel(handle@),
            UrlKind::Playlist => KindView::Playlist,
            UrlKind::Video => KindView::Video,
            UrlKind::Unknown => KindView::Unknown,
        }
    }
}

/// Fully classified URL: where it's from and what it points at.
#[derive(Clone, Debug)]
pub struct UrlInfo {
    pub platform: Platform,
    pub kind: UrlKind,
}

// ── Per-platform URL → kind, as specifications ──────────────────────────────

/// The run after the first `marker`, up to the next `/`, `?`, `&` or `#`;
/// `None` when `marker` is absent or the run is empty.
pub open spec fn extract_after_spec(url: Seq<char>, marker: Seq<char>) -> Option<Seq<char>> {
    match find(url, marker) {
        None => None,
        Some(i) => {
            let rest = url.skip(i + marker.len());
            let end = match find_any_from(rest, "/?&#"@, 0) {
                Some(e) => e,
                None => rest.len() as int,
            };
            if end == 0 {
                None
            } else {
                Some(rest.take(end))
            }
        },
    }
}

/// YouTube: playlist, `/@handle`, `/channel/id`, `/c/name`, or a video.
pub open spec fn youtube_kind(u: Seq<char>) -> KindView {
    if contains(u, "playlist?list="@) {
        KindView::Playlist
    } else if let Some(h) = extract_after_spec(u, "/@"@) {
        KindView::Channel(h)
    } else if let Some(h) = extract_after_spec(u, "/channel/"@) {
        KindView::Channel(h)
    } else if let Some(h) = extract_after_spec(u, "/c/"@) {
        KindView::Channel(h)
    } else if contains(u, "watch?v="@) || contains(u, "youtu.be/"@) {
        KindView::Video
    } else {
        KindView::Unknown
    }
}

/// TikTok: `/@user/video/<id>` is a video, `/@user` a channel.
pub open spec fn tiktok_kind(u: Seq<char>) -> KindView {
    match split_second(u, "/@"@) {
        Some(rest) => {
            let handle = first_piece(rest, "/"@);
            if handle.len() == 0 {
                KindView::Unknown
            } else if contains(rest, "/video/"@) {
                KindView::Video
            } else {
                KindView::Channel(handle)
            }
        },
        None => if contains(u, "vm.tiktok.com"@) {
            KindView::Video
        } else {
            KindView::Unknown
        },
    }
}

/// Twitch: `videos/<id>`, `/clip/` and `/video/` are videos; a bare
/// channel and its `videos` / `about` / `clips` listings are the channel.
pub open spec fn twitch_kind(u: Seq<char>) -> KindView {
    match split_second(u, "twitch.tv/"@) {
        Some(rest) => {
            let first = trim_end_char(first_piece(rest, "/"@), '?');
            if first.len() == 0 {
                KindView::Unknown
            } else if first == "videos"@ {
                KindView::Video
            } else if contains(rest, "/clip/"@) || contains(rest, "/video/"@) {
                KindView::Video
            } else {
                let nested = first_piece(
                    trim_start_char(trim_start_matches(rest, first), '/'),
                    "?"@,
                );
                if nested.len() == 0 || nested == "videos"@ || nested == "about"@ || nested
                    == "clips"@ {
                    KindView::Channel(first)
                } else {
                    KindView::Unknown
                }
            }
        },
        None => KindView::Unknown,
    }
}

/// Vimeo: numeric ids are videos; `channels/<name>` and any other first
/// segment are channels.
pub open spec fn vimeo_kind(u: Seq<char>) -> KindView {
    match split_second(u, "vimeo.com/"@) {
        Some(rest) => {
            let first = first_piece(rest, "/?#"@);
            if first.len() == 0 {
                KindView::Unknown
            } else if first == "channels"@ {
                match split_second(rest, "/"@) {
                    Some(name) => if name.len() > 0 {
                        KindView::Channel(name)
                    } else {
                        KindView::Unknown
                    },
                    None => KindView::Unknown,
                }
            } else if all_digits(first) {
                KindView::Video
            } else {
                KindView::Channel(first)
            }
        },
        None => KindView::Unknown,
    }
}

/// Bandcamp: `<artist>.bandcamp.com` is a channel, `/track/` a video,
/// `/album/` a playlist.
pub open spec fn bandcamp_kind(u: Seq<char>) -> KindView {
    match find(u, "://"@) {
        Some(h) => {
            let hp = u.skip(h + "://"@.len());
            match find_char_from(hp, '/', 0) {
                Some(e) => {
                    let host = hp.take(e);
                    let path = hp.skip(e);
                    match strip_suffix(host, ".bandcamp.com"@) {
                        Some(artist) => if starts_with(path, "/track/"@) {
                            KindView::Video
                        } else if starts_with(path, "/album/"@) {
                            KindView::Playlist
                        } else {
                            KindView::Channel(artist)
                        },
                        None => KindView::Unknown,
                    }
                },
                None => match strip_suffix(hp, ".bandcamp.com"@) {
                    Some(artist) => KindView::Channel(artist),
                    None => KindView::Unknown,
                },
            }
        },
        None => KindView::Unknown,
    }
}

/// SoundCloud: `<user>` is a channel, `<user>/sets/<x>` a playlist,
/// `<user>/<track>` a video.
pub open spec fn soundcloud_kind(u: Seq<char>) -> KindView {
    match split_second(u, "soundcloud.com/"@) {
        Some(rest) => {
            let first = first_piece(rest, "/?#"@);
            if first.len() == 0 {
                KindView::Unknown
            } else if contains(rest, "/sets/"@) {
                KindView::Playlist
            } else {
                let tail = first_piece(
                    trim_start_char(trim_start_matches(rest, first), '/'),
                    "?#"@,
                );
                if tail.len() == 0 {
                    KindView::Channel(first)
                } else {
                    KindView::Video
                }
            }
        },
        None => KindView::Unknown,
    }
}

/// Odysee: `@channel:n` is a channel (claim id dropped), anything after
/// it a video.
pub open spec fn odysee_kind(u: Seq<char>) -> KindView {
    match split_second(u, "/@"@) {
        Some(rest) => {
            let head = first_piece(rest, "/"@);
            if head.len() == 0 {
                KindView::Unknown
            } else {
                let handle = first_piece(head, ":"@);
                let tail = first_piece(
                    trim_start_char(trim_start_matches(rest, head), '/'),
                    "?#"@,
                );
                if tail.len() == 0 {
                    KindView::Channel(handle)
                } else {
                    KindView::Video
                }
            }
        },
        None => KindView::Unknown,
    }
}

/// The kind of `url` given its platform.
pub open spec fn kind_for(p: Platform, url: Seq<char>) -> KindView {
    match p {
        Platform::YouTube => youtube_kind(url),
        Platform::TikTok => tiktok_kind(url),
        Platform::Twitch => twitch_kind(url),
        Platform::Vimeo => vimeo_kind(url),
        Platform::Bandcamp => bandcamp_kind(url),
        Platform::SoundCloud => soundcloud_kind(url),
        Platform::Odysee => odysee_kind(url),
        Platform::Other => KindView::Unknown,
    }
}

// ── Per-platform URL → kind, executable ──────────────────────────────────────

fn channel(v: Vec<char>) -> (k: UrlKind)
    ensures
        k@ == KindView::Channel(v@),
{
    UrlKind::Channel { handle: string_of(&v) }
}

/// The run after the first `marker`, up to the next `/`, `?`, `&` or `#`.
fn extract_after(url: &Vec<char>, marker: &str) -> (r: Option<Vec<char>>)
    ensures
        match r {
            Some(v) => extract_after_spec(url@, marker@) == Some(v@),
            None => extract_after_spec(url@, marker@) is None,
        },
{
    let m = chars_of(marker);
    match find_vec(url, &m) {
        None => None,
        Some(i) => {
            proof {
                lemma_find_from(url@, m@, 0);
            }
            let ul = url.len();
            let ml = m.len();
            assert(i + ml <= ul);
            let rest = slice(url, i + ml, ul);
            assert(rest@ =~= url@.skip(i + m@.len()));
            let set = chars_of("/?&#");
            let end = match find_any_at(&rest, &set, 0) {
                Some(e) => {
                    proof {
                        lemma_find_any_from(rest@, set@, 0);
                    }
                    e
                },
                None => rest.len(),
            };
            if end == 0 {
                None
            } else {
                Some(slice(&rest, 0, end))
            }
        },
    }
}

fn classify_youtube(url: &Vec<char>) -> (k: UrlKind)
    ensures
        k@ == youtube_kind(url@),
{
    if includes(url, "playlist?list=") {
        return UrlKind::Playlist;
    }
    if let Some(h) = extract_after(url, "/@") {
        return channel(h);
    }
    if let Some(h) = extract_after(url, "/channel/") {
        return channel(h);
    }
    if let Some(h) = extract_after(url, "/c/") {
        return channel(h);
    }
    if includes(url, "watch?v=") || includes(url, "youtu.be/") {
        return UrlKind::Video;
    }
    UrlKind::Unknown
}

fn classify_tiktok(url: &Vec<char>) -> (k: UrlKind)
    ensures
        k@ == tiktok_kind(url@),
{
    if let Some(rest) = split_second_vec(url, "/@") {
        let handle = first_piece_vec(&rest, "/");
        if handle.len() == 0 {
            return UrlKind::Unknown;
        }
        if includes(&rest, "/video/") {
            return UrlKind::Video;
        }
        return channel(handle);
    }
    if includes(url, "vm.tiktok.com") {
        return UrlKind::Video;
    }
    UrlKind::Unknown
}

fn classify_twitch(url: &Vec<char>) -> (k: UrlKind)
    ensures
        k@ == twitch_kind(url@),
{
    if let Some(rest) = split_second_vec(url, "twitch.tv/") {
        let seg = first_piece_vec(&rest, "/");
        let first = trim_end_char_vec(&seg, '?');
        if first.len() == 0 {
            return UrlKind::Unknown;
        }
        if eq_lit(&first, "videos") {
            return UrlKind::Video;
        }
        if includes(&rest, "/clip/") || includes(&rest, "/video/") {
            return UrlKind::Video;
        }
        let a = trim_start_matches_vec(&rest, &first);
        let b = trim_start_char_vec(&a, '/');
        let nested = first_piece_vec(&b, "?");
        if nested.len() == 0 || eq_lit(&nested, "videos") || eq_lit(&nested, "about") || eq_lit(
            &nested,
            "clips",
        ) {
            return channel(first);
        }
    }
    UrlKind::Unknown
}

fn classify_vimeo(url: &Vec<char>) -> (k: UrlKind)
    ensures
        k@ == vimeo_kind(url@),
{
    if let Some(rest) = split_second_vec(url, "vimeo.com/") {
        let first = first_piece_vec(&rest, "/?#");
        if first.len() == 0 {
            return UrlKind::Unknown;
        }
        if eq_lit(&first, "channels") {
            if let Some(name) = split_second_vec(&rest, "/") {
                if name.len() > 0 {
                    return channel(name);
                }
            }
            return UrlKind::Unknown;
        }
        if crate::num::all_digits_vec(&first) {
            return UrlKind::Video;
        }
        return channel(first);
    }
    UrlKind::Unknown
}

fn classify_bandcamp(url: &Vec<char>) -> (k: UrlKind)
    ensures
        k@ == bandcamp_kind(url@),
{
    let sep = chars_of("://");
    if let Some(h) = find_vec(url, &sep) {
        proof {
            lemma_find_from(url@, sep@, 0);
        }
        let ul = url.len();
        let sl = sep.len();
        assert(h + sl <= ul);
        let hp = slice(url, h + sl, ul);
        assert(hp@ =~= url@.skip(h + sep@.len()));
        if let Some(e) = find_char_at(&hp, '/', 0) {
            proof {
                lemma_find_char_from(hp@, '/', 0);
            }
            let host = slice(&hp, 0, e);
            let path = slice(&hp, e, hp.len());
            assert(path@ =~= hp@.skip(e as int));
            if let Some(artist) = strip_suffix_vec(&host, ".bandcamp.com") {
                if begins(&path, "/track/") {
                    return UrlKind::Video;
                }
                if begins(&path, "/album/") {
                    return UrlKind::Playlist;
                }
                return channel(artist);
            }
        } else if let Some(artist) = strip_suffix_vec(&hp, ".bandcamp.com") {
            return channel(artist);
        }
    }
    UrlKind::Unknown
}

fn classify_soundcloud(url: &Vec<char>) -> (k: UrlKind)
    ensures
        k@ == soundcloud_kind(url@),
{
    if let Some(rest) = split_second_vec(url, "soundcloud.com/") {
        let first = first_piece_vec(&rest, "/?#");
        if first.len() == 0 {
            return UrlKind::Unknown;
        }
        if includes(&rest, "/sets/") {
            return UrlKind::Playlist;
        }
        let a = trim_start_matches_vec(&rest, &first);
        let b = trim_start_char_vec(&a, '/');
        let tail = first_piece_vec(&b, "?#");
        if tail.len() == 0 {
            return channel(first);
        }
        UrlKind::Video
    } else {
        UrlKind::Unknown
    }
}

fn classify_odysee(url: &Vec<char>) -> (k: UrlKind)
    ensures
        k@ == odysee_kind(url@),
{
    if let Some(rest) = split_second_vec(url, "/@") {
        let head = first_piece_vec(&rest, "/");
        if head.len() == 0 {
            return UrlKind::Unknown;
        }
        let handle = first_piece_vec(&head, ":");
        let a = trim_start_matches_vec(&rest, &head);
        let b = trim_start_char_vec(&a, '/');
        let tail = first_piece_vec(&b, "?#");
        if tail.len() == 0 {
            return channel(handle);
        }
        UrlKind::Video
    } else {
        UrlKind::Unknown
    }
}

/// The kind of `url` once its platform is known.
pub fn kind_for_platform(platform: Platform, url: &str) -> (k: UrlKind)
    ensures
        k@ == kind_for(platform, url@),
{
    let u = chars_of(url);
    match platform {
        Platform::YouTube => classify_youtube(&u),
        Platform::TikTok => classify_tiktok(&u),
        Platform::Twitch => classify_twitch(&u),
        Platform::Vimeo => classify_vimeo(&u),
        Platform::Bandcamp => classify_bandcamp(&u),
        Platform::SoundCloud => classify_soundcloud(&u),
        Platform::Odysee => classify_odysee(&u),
        Platform::Other => UrlKind::Unknown,
    }
}

/// Classify any URL the user pastes: its platform, and what it points at.
pub fn classify_url(url: &str) -> (r: UrlInfo)
    ensures
        r.platform == platform_of_lowered(unicode_lower(url@)),
        r.kind@ == kind_for(r.platform, url@),
{
    let platform = Platform::from_url(url);
    let kind = kind_for_platform(platform, url);
    UrlInfo { platform, kind }
}

// ── Filesystem layout ────────────────────────────────────────────────────────

/// Path of a platform's video folder, derived from the configured YouTube
/// `channels_root`: YouTube keeps it verbatim, every other platform is a
/// sibling folder named by [`Platform::dir_name`].
pub fn platform_root(channels_root: &str, platform: Platform) -> (r: String)
    ensures
        r@ == if platform == Platform::YouTube {
            channels_root@
        } else {
            path_with_file_name(channels_root@, dir_name_of(platform))
        },
{
    if platform == Platform::YouTube {
        return channels_root.to_owned();
    }
    crate::paths::with_file_name(channels_root, platform.dir_name())
}

/// Where the `.source-url` sidecar lives for a creator folder.
pub fn source_url_path(creator_dir: &str) -> (r: String)
    ensures
        r@ == path_join(creator_dir@, ".source-url"@),
{
    crate::paths::join(creator_dir, ".source-url")
}

/// The text to store in a `.source-url` sidecar: the URL, trimmed.
pub fn source_url_contents(url: &str) -> (r: String)
    ensures
        r@ == trim(url@),
{
    let u = chars_of(url);
    string_of(&trim_vec(&u))
}

/// The URL read back from a `.source-url` sidecar's text: trimmed, and
/// `None` when nothing is left.
pub fn parse_source_url(contents: &str) -> (r: Option<String>)
    ensures
        match r {
            Some(s) => trim(contents@).len() > 0 && s@ == trim(contents@),
            None => trim(contents@).len() == 0,
        },
{
    let c = chars_of(contents);
    let t = trim_vec(&c);
    if t.len() == 0 {
        None
    } else {
        Some(string_of(&t))
    }
}

// ── Channel handles name one folder ─────────────────────────────────────────

/// `s` holds no `/`.
pub open spec fn no_slash(s: Seq<char>) -> bool {
    forall|i: int| 0 <= i < s.len() ==> #[trigger] s[i] != '/'
}

proof fn lemma_prefix_no_slash(s: Seq<char>, n: int)
    requires
        no_slash(s),
        0 <= n <= s.len(),
    ensures
        no_slash(s.take(n)),
{
    assert forall|i: int| 0 <= i < s.take(n).len() implies #[trigger] s.take(n)[i] != '/' by {
        assert(s.take(n)[i] == s[i]);
    }
}

/// The text before the first character of `set`, which holds `/`, has no `/`.
proof fn lemma_piece_no_slash(s: Seq<char>, set: Seq<char>)
    requires
        exists|j: int| 0 <= j < set.len() && set[j] == '/',
    ensures
        no_slash(first_piece(s, set)),
        match find_any_from(s, set, 0) {
            Some(e) => no_slash(s.take(e)),
            None => no_slash(s),
        },
{
    lemma_find_any_from(s, set, 0);
    match find_any_from(s, set, 0) {
        Some(e) => {
            assert forall|i: int| 0 <= i < s.take(e).len() implies #[trigger] s.take(e)[i] != '/' by {
                assert(s.take(e)[i] == s[i]);
                assert(!crate::text::in_set(s[i], set));
            }
        },
        None => {
            assert forall|i: int| 0 <= i < s.len() implies #[trigger] s[i] != '/' by {
                assert(!crate::text::in_set(s[i], set));
            }
        },
    }
}

proof fn lemma_trim_end_no_slash(s: Seq<char>, c: char)
    requires
        no_slash(s),
    ensures
        no_slash(trim_end_char(s, c)),
    decreases s.len(),
{
    if s.len() > 0 && s.last() == c {
        lemma_prefix_no_slash(s, s.len() - 1);
        assert(s.drop_last() =~= s.take(s.len() - 1));
        lemma_trim_end_no_slash(s.drop_last(), c);
    }
}

proof fn lemma_strip_suffix_no_slash(s: Seq<char>, suf: Seq<char>)
    requires
        no_slash(s),
    ensures
        strip_suffix(s, suf) matches Some(r) ==> no_slash(r),
{
    if let Some(r) = strip_suffix(s, suf) {
        lemma_prefix_no_slash(s, s.len() - suf.len());
    }
}

/// The text of `s` up to the first `/` (all of it without one) has no `/`.
proof fn lemma_before_slash(s: Seq<char>)
    ensures
        match find(s, "/"@) {
            Some(j) => no_slash(s.take(j)),
            None => no_slash(s),
        },
{
    reveal_strlit("/");
    lemma_find_from(s, "/"@, 0);
    assert forall|i: int| 0 <= i < s.len() && s[i] == '/' implies crate::text::occurs_at(s, "/"@, i) by {
        assert(s.subrange(i, i + 1) =~= "/"@);
    }
    match find(s, "/"@) {
        Some(j) => {
            assert forall|i: int| 0 <= i < s.take(j).len() implies #[trigger] s.take(j)[i] != '/' by {
                assert(s.take(j)[i] == s[i]);
            }
        },
        None => {},
    }
}

/// Law: a URL classified as a channel names its channel by a handle with
/// no `/`, so the handle is one folder under the platform's folder.
pub proof fn lemma_channel_handle_is_one_folder(p: Platform, url: Seq<char>)
    ensures
        kind_for(p, url) matches KindView::Channel(h) ==> no_slash(h),
{
    reveal_strlit("/?&#");
    reveal_strlit("/?#");
    reveal_strlit("/");
    assert("/?&#"@[0] == '/');
    assert("/?#"@[0] == '/');
    assert("/"@[0] == '/');
    match p {
        Platform::YouTube => {
            assert forall|m: Seq<char>| #![trigger extract_after_spec(url, m)]
                extract_after_spec(url, m) is Some implies no_slash(extract_after_spec(url, m)->0) by {
                if let Some(i) = find(url, m) {
                    lemma_piece_no_slash(url.skip(i + m.len()), "/?&#"@);
                }
            }
        },
        Platform::TikTok => {
            if let Some(rest) = split_second(url, "/@"@) {
                lemma_piece_no_slash(rest, "/"@);
            }
        },
        Platform::Twitch => {
            if let Some(rest) = split_second(url, "twitch.tv/"@) {
                lemma_piece_no_slash(rest, "/"@);
                lemma_trim_end_no_slash(first_piece(rest, "/"@), '?');
            }
        },
        Platform::Vimeo => {
            if let Some(rest) = split_second(url, "vimeo.com/"@) {
                lemma_piece_no_slash(rest, "/?#"@);
                if let Some(i) = find(rest, "/"@) {
                    lemma_before_slash(rest.skip(i + 1));
                }
            }
        },
        Platform::Bandcamp => {
            if let Some(h) = find(url, "://"@) {
                let hp = url.skip(h + "://"@.len());
                lemma_find_char_from(hp, '/', 0);
                match find_char_from(hp, '/', 0) {
                    Some(e) => {
                        assert forall|i: int| 0 <= i < hp.take(e).len() implies #[trigger] hp.take(e)[i] != '/' by {
                            assert(hp.take(e)[i] == hp[i]);
                        }
                        lemma_strip_suffix_no_slash(hp.take(e), ".bandcamp.com"@);
                    },
                    None => {
                        lemma_strip_suffix_no_slash(hp, ".bandcamp.com"@);
                    },
                }
            }
        },
        Platform::SoundCloud => {
            if let Some(rest) = split_second(url, "soundcloud.com/"@) {
                lemma_piece_no_slash(rest, "/?#"@);
            }
        },
        Platform::Odysee => {
            if let Some(rest) = split_second(url, "/@"@) {
                lemma_piece_no_slash(rest, "/"@);
                let head = first_piece(rest, "/"@);
                crate::text::lemma_find_any_from(head, ":"@, 0);
                match find_any_from(head, ":"@, 0) {
                    Some(e) => lemma_prefix_no_slash(head, e),
                    None => {},
                }
            }
        },
        Platform::Other => {},
    }
}

// ── Laws ─────────────────────────────────────────────────────────────────────

/// Law: a platform's folder name leads back to the platform.
pub proof fn lemma_dir_name_round_trip(p: Platform)
    ensures
        platform_of_dir(dir_name_of(p)) == Some(p),
{
    reveal_strlit("channels");
    reveal_strlit("tiktok");
    reveal_strlit("twitch");
    reveal_strlit("vimeo");
    reveal_strlit("bandcamp");
    reveal_strlit("soundcloud");
    reveal_strlit("odysee");
    reveal_strlit("other");
    match p {
        Platform::YouTube => {
        },
        Platform::TikTok => {
            assert("tiktok"@.len() != "channels"@.len());
            assert("tiktok"@ != "channels"@);
        },
        Platform::Twitch => {
            assert("twitch"@.len() != "channels"@.len());
            assert("twitch"@ != "channels"@);
            assert("twitch"@[1] != "tiktok"@[1]);
            assert("twitch"@ != "tiktok"@);
        },
        Platform::Vimeo => {
            assert("vimeo"@.len() != "channels"@.len());
            assert("vimeo"@ != "channels"@);
            assert("vimeo"@.len() != "tiktok"@.len());
            assert("vimeo"@ != "tiktok"@);
            assert("vimeo"@.len() != "twitch"@.len());
            assert("vimeo"@ != "twitch"@);
        },
        Platform::Bandcamp => {
            assert("bandcamp"@[0] != "channels"@[0]);
            assert("bandcamp"@ != "channels"@);
            assert("bandcamp"@.len() != "tiktok"@.len());
            assert("bandcamp"@ != "tiktok"@);
            assert("bandcamp"@.len() != "twitch"@.len());
            assert("bandcamp"@ != "twitch"@);
            assert("bandcamp"@.len() != "vimeo"@.len());
            assert("bandcamp"@ != "vimeo"@);
        },
        Platform::SoundCloud => {
            assert("soundcloud"@.len() != "channels"@.len());
            assert("soundcloud"@ != "channels"@);
            assert("soundcloud"@.len() != "tiktok"@.len());
            assert("soundcloud"@ != "tiktok"@);
            assert("soundcloud"@.len() != "twitch"@.len());
            assert("soundcloud"@ != "twitch"@);
            assert("soundcloud"@.len() != "vimeo"@.len());
            assert("soundcloud"@ != "vimeo"@);
            assert("soundcloud"@.len() != "bandcamp"@.len());
            assert("soundcloud"@ != "bandcamp"@);
        },
        Platform::Odysee => {
            assert("odysee"@.len() != "channels"@.len());
            assert("odysee"@ != "channels"@);
            assert("odysee"@[0] != "tiktok"@[0]);
            assert("odysee"@ != "tiktok"@);
            assert("odysee"@[0] != "twitch"@[0]);
            assert("odysee"@ != "twitch"@);
            assert("odysee"@.len() != "vimeo"@.len());
            assert("odysee"@ != "vimeo"@);
            assert("odysee"@.len() != "bandcamp"@.len());
            assert("odysee"@ != "bandcamp"@);
            assert("odysee"@.len() != "soundcloud"@.len());
            assert("odysee"@ != "soundcloud"@);
        },
        Platform::Other => {
            assert("other"@.len() != "channels"@.len());
            assert("other"@ != "channels"@);
            assert("other"@.len() != "tiktok"@.len());
            assert("other"@ != "tiktok"@);
            assert("other"@.len() != "twitch"@.len());
            assert("other"@ != "twitch"@);
            assert("other"@[0] != "vimeo"@[0]);
            assert("other"@ != "vimeo"@);
            assert("other"@.len() != "bandcamp"@.len());
            assert("other"@ != "bandcamp"@);
            assert("other"@.len() != "soundcloud"@.len());
            assert("other"@ != "soundcloud"@);
            assert("other"@.len() != "odysee"@.len());
            assert("other"@ != "odysee"@);
        },
    }
}

/// Law: reading back a `.source-url` sidecar gives the URL that was
/// written, trimmed; nothing when the URL was blank.
pub proof fn lemma_source_url_round_trip(url: Seq<char>)
    ensures
        trim(trim(url)) == trim(url),
        trim(url).len() > 0 ==> trim(trim(url)).len() > 0,
{
    crate::text::lemma_trim_idempotent(url);
}

} // verus!
