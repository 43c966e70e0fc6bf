//! Classification of yt-dlp / network failures into actionable buckets.
//!
//! A failed job's log is scanned from its last line backwards; the first
//! line that matches one of the well-known fingerprints decides the class.
//! When nothing matches the result is [`ErrorClass::Other`]: a false
//! positive would be worse than no classification.

use vstd::prelude::*;
use crate::text::{ascii_lower, ascii_lower_vec, chars_of, contains, includes, strings};

verus! {

/// One of a handful of well-known yt-dlp failure modes, or `Other`.
#[derive(Clone, Copy, Debug, PartialEq, Eq, Structural)]
pub enum ErrorClass {
    /// HTTP 429, "too many requests", or a bot / captcha challenge.
    RateLimited,
    /// Members-only, private or paid content.
    MembersOnly,
    /// Not available in the user's region.
    Geoblocked,
    /// Removed, deleted or otherwise gone.
    NotFound,
    /// ffmpeg / ffprobe missing.
    CodecMissing,
    /// Out of disk space.
    DiskFull,
    /// DNS, connection or TLS failure.
    NetworkError,
    /// The cookies file was rejected.
    BadCookies,
    /// No fingerprint matched.
    Other,
}

/// The badge label of each class.
pub open spec fn label_of(c: ErrorClass) -> Seq<char> {
    match c {
        ErrorClass::RateLimited => "rate-limited"@,
        ErrorClass::MembersOnly => "members-only"@,
        ErrorClass::Geoblocked => "geo-blocked"@,
        ErrorClass::NotFound => "not found"@,
        ErrorClass::CodecMissing => "codec missing"@,
        ErrorClass::DiskFull => "disk full"@,
        ErrorClass::NetworkError => "network error"@,
        ErrorClass::BadCookies => "bad cookies"@,
        ErrorClass::Other => "error"@,
    }
}

/// The one-sentence suggested fix of each class.
pub open spec fn hint_of(c: ErrorClass) -> Seq<char> {
    match c {
        ErrorClass::RateLimited => "YouTube is rate-limiting you or demanding a captcha (bot detection). Refresh your cookies.txt from a logged-in browser session (Settings → Cookies), enable the POT token provider, and/or wait 10–60 minutes before retrying."@,
        ErrorClass::MembersOnly => "This video requires a logged-in session with access (members-only, private, or paid). Update cookies.txt from an account that can view it."@,
        ErrorClass::Geoblocked => "This video is not available in your region. Try a different cookies.txt from an unblocked region, or use a VPN."@,
        ErrorClass::NotFound => "The video appears to have been removed by the uploader or platform. Nothing to download."@,
        ErrorClass::CodecMissing => "A required codec or tool is missing. Make sure ffmpeg is installed and on your PATH."@,
        ErrorClass::DiskFull => "The destination disk is full. Free up space and retry — yt-dlp resumes from where it stopped."@,
        ErrorClass::NetworkError => "Network issue reaching the platform. Check connectivity / firewall and retry."@,
        ErrorClass::BadCookies => "yt-dlp rejected the cookies file. The session probably expired — export a fresh cookies.txt from your browser."@,
        ErrorClass::Other => ""@,
    }
}

impl ErrorClass {
    /// Short label for badges and JSON.
    pub fn label(self) -> (r: &'static str)
        ensures
            r@ == label_of(self),
    {
        match self {
            ErrorClass::RateLimited => "rate-limited",
            ErrorClass::MembersOnly => "members-only",
            ErrorClass::Geoblocked => "geo-blocked",
            ErrorClass::NotFound => "not found",
            ErrorClass::CodecMissing => "codec missing",
            ErrorClass::DiskFull => "disk full",
            ErrorClass::NetworkError => "network error",
            ErrorClass::BadCookies => "bad cookies",
            ErrorClass::Other => "error",
        }
    }

    /// One-sentence suggested action; empty for `Other`.
    pub fn hint(self) -> (r: &'static str)
        ensures
            r@ == hint_of(self),
    {
        match self {
            ErrorClass::RateLimited => "YouTube is rate-limiting you or demanding a captcha (bot detection). Refresh your cookies.txt from a logged-in browser session (Settings → Cookies), enable the POT token provider, and/or wait 10–60 minutes before retrying.",
            ErrorClass::MembersOnly => "This video requires a logged-in session with access (members-only, private, or paid). Update cookies.txt from an account that can view it.",
            ErrorClass::Geoblocked => "This video is not available in your region. Try a different cookies.txt from an unblocked region, or use a VPN.",
            ErrorClass::NotFound => "The video appears to have been removed by the uploader or platform. Nothing to download.",
            ErrorClass::CodecMissing => "A required codec or tool is missing. Make sure ffmpeg is installed and on your PATH.",
            ErrorClass::DiskFull => "The destination disk is full. Free up space and retry — yt-dlp resumes from where it stopped.",
            ErrorClass::NetworkError => "Network issue reaching the platform. Check connectivity / firewall and retry.",
            ErrorClass::BadCookies => "yt-dlp rejected the cookies file. The session probably expired — export a fresh cookies.txt from your browser.",
            ErrorClass::Other => "",
        }
    }
}

/// The class a single (already lower-cased) log line points at, if any.
/// The checks run in this order, so a captcha wall that also says
/// "video unavailable" is rate-limited rather than not-found.
pub open spec fn line_class(l: Seq<char>) -> Option<ErrorClass> {
    if contains(l, "http error 429"@) || contains(l, "too many requests"@) || contains(
        l,
        "sign in to confirm you"@,
    ) || contains(l, "sign in to confirm your age"@) || contains(l, "ratelimit"@) || contains(
        l,
        "rate limit"@,
    ) || contains(l, "captcha"@) || contains(l, "requiring a captcha challenge"@) || contains(
        l,
        "not a bot"@,
    ) {
        Some(ErrorClass::RateLimited)
    } else if contains(l, "members-only"@) || contains(l, "join this channel"@) || contains(
        l,
        "private video"@,
    ) || contains(l, "requires payment"@) || contains(l, "requires purchase"@) {
        Some(ErrorClass::MembersOnly)
    } else if contains(l, "in your country"@) || contains(l, "in your region"@) || contains(
        l,
        "geo restricted"@,
    ) || contains(l, "video unavailable in your"@) {
        Some(ErrorClass::Geoblocked)
    } else if contains(l, "this video has been removed"@) || contains(
        l,
        "video has been deleted"@,
    ) || contains(l, "account has been terminated"@) || (contains(l, "video unavailable"@)
        && !contains(l, "in your"@)) || (contains(l, "http error 404"@) && !contains(
        l,
        "playlist"@,
    )) {
        Some(ErrorClass::NotFound)
    } else if contains(l, "ffmpeg not found"@) || contains(l, "ffprobe not found"@) || contains(
        l,
        "you have requested merging of multiple formats"@,
    ) || contains(l, "postprocessing: ffmpeg"@) {
        Some(ErrorClass::CodecMissing)
    } else if contains(l, "no space left on device"@) || contains(l, "disk full"@) || (contains(
        l,
        "write error"@,
    ) && (contains(l, "space"@) || contains(l, "enospc"@))) {
        Some(ErrorClass::DiskFull)
    } else if contains(l, "invalid cookies"@) || (contains(l, "cookies file"@) && (contains(
        l,
        "expired"@,
    ) || contains(l, "invalid"@) || contains(l, "malformed"@))) {
        Some(ErrorClass::BadCookies)
    } else if contains(l, "name or service not known"@) || contains(
        l,
        "temporary failure in name resolution"@,
    ) || contains(l, "connection refused"@) || contains(l, "connection reset"@) || contains(
        l,
        "connection timed out"@,
    ) || contains(l, "network is unreachable"@) || contains(l, "ssl: certificate"@) || contains(
        l,
        "read timed out"@,
    ) {
        Some(ErrorClass::NetworkError)
    } else {
        None
    }
}

/// The class of a whole log: the class of the last line that matches a
/// fingerprint (lines compared ASCII-case-insensitively), else `Other`.
pub open spec fn classify_lines(lines: Seq<Seq<char>>) -> ErrorClass
    decreases lines.len(),
{
    if lines.len() == 0 {
        ErrorClass::Other
    } else {
        match line_class(ascii_lower(lines.last())) {
            Some(c) => c,
            None => classify_lines(lines.drop_last()),
        }
    }
}

/// The class a single lower-cased line points at, if any.
pub fn classify_line(l: &Vec<char>) -> (r: Option<ErrorClass>)
    ensures
        r == line_class(l@),
{
    if includes(l, "http error 429") || includes(l, "too many requests") || includes(l, "sign in to confirm you")
        || includes(l, "sign in to confirm your age") || includes(l, "ratelimit") || includes(l, "rate limit")
        || includes(l, "captcha") || includes(l, "requiring a captcha challenge") || includes(l, "not a bot") {
        return Some(ErrorClass::RateLimited);
    }
    if includes(l, "members-only") || includes(l, "join this channel") || includes(l, "private video") || includes(
        l,
        "requires payment",
    ) || includes(l, "requires purchase") {
        return Some(ErrorClass::MembersOnly);
    }
    if includes(l, "in your country") || includes(l, "in your region") || includes(l, "geo restricted") || includes(
        l,
        "video unavailable in your",
    ) {
        return Some(ErrorClass::Geoblocked);
    }
    if includes(l, "this video has been removed") || includes(l, "video has been deleted") || includes(
        l,
        "account has been terminated",
    ) || (includes(l, "video unavailable") && !includes(l, "in your")) || (includes(l, "http error 404")
        && !includes(l, "playlist")) {
        return Some(ErrorClass::NotFound);
    }
    if includes(l, "ffmpeg not found") || includes(l, "ffprobe not found") || includes(
        l,
        "you have requested merging of multiple formats",
    ) || includes(l, "postprocessing: ffmpeg") {
        return Some(ErrorClass::CodecMissing);
    }
    if includes(l, "no space left on device") || includes(l, "disk full") || (includes(l, "write error") && (includes(
        l,
        "space",
    ) || includes(l, "enospc"))) {
        return Some(ErrorClass::DiskFull);
    }
    if includes(l, "invalid cookies") || (includes(l, "cookies file") && (includes(l, "expired") || includes(
        l,
        "invalid",
    ) || includes(l, "malformed"))) {
        return Some(ErrorClass::BadCookies);
    }
    if includes(l, "name or service not known") || includes(l, "temporary failure in name resolution")
        || includes(l, "connection refused") || includes(l, "connection reset") || includes(
        l,
        "connection timed out",
    ) || includes(l, "network is unreachable") || includes(l, "ssl: certificate") || includes(
        l,
        "read timed out",
    ) {
        return Some(ErrorClass::NetworkError);
    }
    None
}

/// Classify a failed yt-dlp job by scanning its log from the end.
pub fn classify(log_lines: &Vec<String>) -> (r: ErrorClass)
    ensures
        r == classify_lines(strings(log_lines@)),
{
    let ghost all = strings(log_lines@);
    let mut i = log_lines.len();
    assert(all.take(i as int) =~= all);
    while i > 0
        invariant
            i <= log_lines@.len(),
            all == strings(log_lines@),
            classify_lines(all) == classify_lines(all.take(i as int)),
        decreases i,
    {
        let l = chars_of(log_lines[i - 1].as_str());
        let low = ascii_lower_vec(&l);
        let ghost pre = all.take(i as int);
        assert(pre.last() == l@);
        assert(pre.drop_last() =~= all.take(i - 1));
        match classify_line(&low) {
            Some(c) => {
                return c;
            },
            None => {},
        }
        i -= 1;
    }
    ErrorClass::Other
}

// ── The fingerprints, class by class ─────────────────────────────────────────

/// Phrases of a rate limit or a bot / captcha challenge.
pub open spec fn rate_limit_phrases() -> Seq<Seq<char>> {
    seq![
        "http error 429"@,
        "too many requests"@,
        "sign in to confirm you"@,
        "sign in to confirm your age"@,
        "ratelimit"@,
        "rate limit"@,
        "captcha"@,
        "requiring a captcha challenge"@,
        "not a bot"@,
    ]
}

/// Phrases of members-only, private or paid content.
pub open spec fn access_phrases() -> Seq<Seq<char>> {
    seq!["members-only"@, "join this channel"@, "requires payment"@, "requires purchase"@, "private video"@]
}

/// Phrases of a regional block.
pub open spec fn geo_phrases() -> Seq<Seq<char>> {
    seq!["in your country"@, "in your region"@, "geo restricted"@, "video unavailable in your"@]
}

/// Phrases of content that is gone for good.
pub open spec fn gone_phrases() -> Seq<Seq<char>> {
    seq!["this video has been removed"@, "video has been deleted"@, "account has been terminated"@]
}

/// Phrases of a missing local tool.
pub open spec fn codec_phrases() -> Seq<Seq<char>> {
    seq![
        "ffmpeg not found"@,
        "ffprobe not found"@,
        "you have requested merging of multiple formats"@,
        "postprocessing: ffmpeg"@,
    ]
}

/// Phrases of a full disk.
pub open spec fn disk_phrases() -> Seq<Seq<char>> {
    seq!["no space left on device"@, "disk full"@]
}

/// Phrases of a network failure.
pub open spec fn network_phrases() -> Seq<Seq<char>> {
    seq![
        "name or service not known"@,
        "temporary failure in name resolution"@,
        "connection refused"@,
        "connection reset"@,
        "connection timed out"@,
        "network is unreachable"@,
        "ssl: certificate"@,
        "read timed out"@,
    ]
}

/// The line contains one of `phrases`.
pub open spec fn has_phrase(l: Seq<char>, phrases: Seq<Seq<char>>) -> bool {
    exists|i: int| 0 <= i < phrases.len() && contains(l, #[trigger] phrases[i])
}

/// Law: each fingerprint decides its class unless a fingerprint of a class
/// checked earlier is present too. Rate limits come first; then access
/// control (members-only, private, paid); then regional blocks; then gone
/// content; then missing tools; then a full disk; then the network.
pub proof fn lemma_fingerprint_classes(l: Seq<char>)
    ensures
        has_phrase(l, rate_limit_phrases()) ==> line_class(l) == Some(ErrorClass::RateLimited),
        has_phrase(l, access_phrases()) && !has_phrase(l, rate_limit_phrases()) ==> line_class(l) == Some(
            ErrorClass::MembersOnly,
        ),
        has_phrase(l, geo_phrases()) && !has_phrase(l, rate_limit_phrases()) && !has_phrase(l, access_phrases())
            ==> line_class(l) == Some(ErrorClass::Geoblocked),
        has_phrase(l, gone_phrases()) && !has_phrase(l, rate_limit_phrases()) && !has_phrase(l, access_phrases())
            && !has_phrase(l, geo_phrases()) ==> line_class(l) == Some(ErrorClass::NotFound),
        has_phrase(l, codec_phrases()) && !has_phrase(l, rate_limit_phrases()) && !has_phrase(l, access_phrases())
            && !has_phrase(l, geo_phrases()) && !has_phrase(l, gone_phrases()) && !contains(l, "video unavailable"@)
            && !contains(l, "http error 404"@) ==> line_class(l) == Some(ErrorClass::CodecMissing),
        has_phrase(l, disk_phrases()) && !has_phrase(l, rate_limit_phrases()) && !has_phrase(l, access_phrases())
            && !has_phrase(l, geo_phrases()) && !has_phrase(l, gone_phrases()) && !contains(l, "video unavailable"@)
            && !contains(l, "http error 404"@) && !has_phrase(l, codec_phrases()) ==> line_class(l) == Some(
            ErrorClass::DiskFull,
        ),
        has_phrase(l, network_phrases()) && !has_phrase(l, rate_limit_phrases()) && !has_phrase(l, access_phrases())
            && !has_phrase(l, geo_phrases()) && !has_phrase(l, gone_phrases()) && !contains(l, "video unavailable"@)
            && !contains(l, "http error 404"@) && !has_phrase(l, codec_phrases()) && !has_phrase(l, disk_phrases())
            && !contains(l, "write error"@) && !contains(l, "invalid cookies"@) && !contains(l, "cookies file"@) ==> line_class(l) == Some(
            ErrorClass::NetworkError,
        ),
{
    let r = rate_limit_phrases();
    let a = access_phrases();
    let g = geo_phrases();
    let d = gone_phrases();
    let c = codec_phrases();
    let k = disk_phrases();
    let n = network_phrases();
    assert(r[0] == "http error 429"@ && r[1] == "too many requests"@ && r[2] == "sign in to confirm you"@ && r[3]
        == "sign in to confirm your age"@ && r[4] == "ratelimit"@ && r[5] == "rate limit"@ && r[6] == "captcha"@
        && r[7] == "requiring a captcha challenge"@ && r[8] == "not a bot"@);
    assert(a[0] == "members-only"@ && a[1] == "join this channel"@ && a[2] == "requires payment"@ && a[3]
        == "requires purchase"@ && a[4] == "private video"@);
    assert(g[0] == "in your country"@ && g[1] == "in your region"@ && g[2] == "geo restricted"@ && g[3]
        == "video unavailable in your"@);
    assert(d[0] == "this video has been removed"@ && d[1] == "video has been deleted"@ && d[2]
        == "account has been terminated"@);
    assert(c[0] == "ffmpeg not found"@ && c[1] == "ffprobe not found"@ && c[2]
        == "you have requested merging of multiple formats"@ && c[3] == "postprocessing: ffmpeg"@);
    assert(k[0] == "no space left on device"@ && k[1] == "disk full"@);
    assert(n[0] == "name or service not known"@ && n[1] == "temporary failure in name resolution"@ && n[2]
        == "connection refused"@ && n[3] == "connection reset"@ && n[4] == "connection timed out"@ && n[5]
        == "network is unreachable"@ && n[6] == "ssl: certificate"@ && n[7] == "read timed out"@);
    if !has_phrase(l, r) {
        assert(forall|i: int| 0 <= i < 9 ==> !contains(l, #[trigger] r[i]));
    }
    if !has_phrase(l, a) {
        assert(forall|i: int| 0 <= i < 5 ==> !contains(l, #[trigger] a[i]));
    }
    if !has_phrase(l, g) {
        assert(forall|i: int| 0 <= i < 4 ==> !contains(l, #[trigger] g[i]));
    }
    if !has_phrase(l, d) {
        assert(forall|i: int| 0 <= i < 3 ==> !contains(l, #[trigger] d[i]));
    }
    if !has_phrase(l, c) {
        assert(forall|i: int| 0 <= i < 4 ==> !contains(l, #[trigger] c[i]));
    }
    if !has_phrase(l, k) {
        assert(forall|i: int| 0 <= i < 2 ==> !contains(l, #[trigger] k[i]));
    }
}

/// Law: a log is classified by its last line that carries a fingerprint,
/// whatever its letter case; lines after it that carry none do not count.
pub proof fn lemma_last_fingerprint_decides(lines: Seq<Seq<char>>, k: int, c: ErrorClass)
    requires
        0 <= k < lines.len(),
        line_class(ascii_lower(lines[k])) == Some(c),
        forall|j: int| k < j < lines.len() ==> line_class(ascii_lower(#[trigger] lines[j])) is None,
    ensures
        classify_lines(lines) == c,
    decreases lines.len(),
{
    if k < lines.len() - 1 {
        let rest = lines.drop_last();
        assert(line_class(ascii_lower(lines[lines.len() - 1])) is None);
        assert forall|j: int| k < j < rest.len() implies line_class(ascii_lower(#[trigger] rest[j])) is None by {
            assert(rest[j] == lines[j]);
        }
        assert(rest[k] == lines[k]);
        lemma_last_fingerprint_decides(rest, k, c);
    }
}

} // verus!
