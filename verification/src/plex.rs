//! Plex-compatible TV-show library naming.
//!
//! Each channel becomes a show; videos become episodes numbered by upload
//! date and grouped into year-based seasons, with Kodi-format `.nfo`
//! sidecars for the metadata. Creating the symlinks and writing the files
//! happens with the rest of the I/O; the names, the numbering and the
//! sidecar texts are computed here.
//!
//! ```text
//! <plex_root>/
//!   Channel Name/
//!     .plexmatch
//!     tvshow.nfo
//!     Season 2023/
//!       Channel Name - S2023E001 - Video Title.mkv   → symlink to real file
//!       Channel Name - S2023E001 - Video Title.nfo
//! ```

use vstd::prelude::*;
use crate::num::{dec, dec_pad, parse_u32, parse_u32_vec, push_dec, push_dec_pad};
use crate::platform::{display_name_of, Platform};
use crate::text::{
    lemma_lex_asym, lemma_lex_total, lemma_lex_trans, lex_less, lex_lt, chars_at_byte, chars_at_byte_exec, chars_of, extend, extend_str, replace, replace_vec, slice,
    string_of, trim, trim_vec, utf8_len, utf8_width_exec,
};

verus! {

/// Result of a Plex library generation run.
pub struct GenerateResult {
    pub links_created: usize,
    pub errors: Vec<String>,
}

// ── File names ───────────────────────────────────────────────────────────────

/// A character that common filesystems refuse becomes `-`.
pub open spec fn fs_safe_char(c: char) -> char {
    if c == '/' || c == '\\' || c == ':' || c == '*' || c == '?' || c == '"' || c == '<' || c
        == '>' || c == '|' {
        '-'
    } else {
        c
    }
}

/// `s` with unsafe characters replaced and surrounding white space trimmed.
pub open spec fn sanitize_spec(s: Seq<char>) -> Seq<char> {
    trim(s.map_values(|c: char| fs_safe_char(c)))
}

/// Replace characters that are invalid in file names on common
/// filesystems with `-`, then trim.
pub fn sanitize(s: &str) -> (r: String)
    ensures
        r@ == sanitize_spec(s@),
{
    let v = chars_of(s);
    let mut out: Vec<char> = Vec::new();
    let mut i: usize = 0;
    while i < v.len()
        invariant
            i <= v@.len(),
            out@ == v@.take(i as int).map_values(|c: char| fs_safe_char(c)),
        decreases v.len() - i,
    {
        let c = v[i];
        let d = if c == '/' || c == '\\' || c == ':' || c == '*' || c == '?' || c == '"' || c
            == '<' || c == '>' || c == '|' {
            '-'
        } else {
            c
        };
        out.push(d);
        i += 1;
        assert(out@ =~= v@.take(i as int).map_values(|c: char| fs_safe_char(c)));
    }
    assert(v@.take(i as int) =~= v@);
    string_of(&trim_vec(&out))
}

/// `s` is at least `n` bytes long in UTF-8.
fn byte_len_at_least(s: &Vec<char>, n: usize) -> (b: bool)
    requires
        n <= 64,
    ensures
        b == (utf8_len(s@) >= n),
{
    let mut i: usize = 0;
    let mut acc: usize = 0;
    assert(s@.take(0) =~= Seq::<char>::empty());
    while i < s.len() && acc < n
        invariant
            i <= s@.len(),
            n <= 64,
            acc == utf8_len(s@.take(i as int)),
            acc < n + 4,
        decreases s.len() - i,
    {
        assert(s@.take(i + 1).drop_last() =~= s@.take(i as int));
        acc = acc + utf8_width_exec(s[i]);
        i = i + 1;
    }
    proof {
        crate::text::lemma_utf8_len_take_mono(s@, i as int, s@.len() as int);
        assert(s@.take(s@.len() as int) =~= s@);
        if i == s@.len() {
            assert(s@.take(i as int) =~= s@);
        }
    }
    acc >= n
}

/// Byte offset `n` of `s` is a character boundary (or past the end).
pub open spec fn boundary_ok(s: Seq<char>, n: int) -> bool {
    utf8_len(s) >= n ==> chars_at_byte(s, n) is Some
}

/// The characters of `s` spanning its first `n` bytes.
pub open spec fn byte_prefix(s: Seq<char>, n: int) -> Seq<char> {
    s.take(chars_at_byte(s, n)->Some_0)
}

/// The characters of `s` between byte offsets `m` and `n`.
pub open spec fn byte_range(s: Seq<char>, m: int, n: int) -> Seq<char> {
    s.subrange(chars_at_byte(s, m)->Some_0, chars_at_byte(s, n)->Some_0)
}

/// The year of a `YYYYMMDD` date: its first four bytes parsed as a `u32`,
/// 0 when shorter or unparsable.
pub open spec fn year_of_spec(date: Seq<char>) -> u32 {
    if utf8_len(date) >= 4 {
        match parse_u32(byte_prefix(date, 4)) {
            Some(v) => v,
            None => 0,
        }
    } else {
        0
    }
}

/// Extract the four-digit year from a `YYYYMMDD` upload date, or 0 if
/// unavailable. Byte offset 4 must not fall inside a character (slicing
/// there would panic).
pub fn year_of(date: &str) -> (r: u32)
    requires
        boundary_ok(date@, 4),
    ensures
        r == year_of_spec(date@),
{
    let v = chars_of(date);
    if byte_len_at_least(&v, 4) {
        let k = chars_at_byte_exec(&v, 4);
        match k {
            Some(k) => {
                let prefix = slice(&v, 0, k);
                match parse_u32_vec(&prefix) {
                    Some(y) => y,
                    None => 0,
                }
            },
            None => 0,
        }
    } else {
        0
    }
}

/// `YYYY-MM-DD` from the first eight bytes of a `YYYYMMDD` date, or the
/// empty string when it is shorter.
pub open spec fn aired_date_spec(date: Seq<char>) -> Seq<char> {
    if utf8_len(date) >= 8 {
        byte_prefix(date, 4) + "-"@ + byte_range(date, 4, 6) + "-"@ + byte_range(date, 6, 8)
    } else {
        seq![]
    }
}

/// Convert `YYYYMMDD` into `YYYY-MM-DD` for NFO `<aired>` tags. Byte
/// offsets 4, 6 and 8 must not fall inside characters (slicing there would
/// panic).
pub fn aired_date(date: &str) -> (r: String)
    requires
        utf8_len(date@) >= 8 ==> boundary_ok(date@, 4) && boundary_ok(date@, 6) && boundary_ok(
            date@,
            8,
        ),
    ensures
        r@ == aired_date_spec(date@),
{
    let v = chars_of(date);
    if !byte_len_at_least(&v, 8) {
        return String::new();
    }
    let k4 = chars_at_byte_exec(&v, 4);
    let k6 = chars_at_byte_exec(&v, 6);
    let k8 = chars_at_byte_exec(&v, 8);
    match (k4, k6, k8) {
        (Some(a), Some(b), Some(c)) => {
            proof {
                lemma_boundaries_ordered(v@, 4, 6, a as int, b as int);
                lemma_boundaries_ordered(v@, 6, 8, b as int, c as int);
            }
            let mut out: Vec<char> = Vec::new();
            extend(&mut out, &slice(&v, 0, a));
            extend_str(&mut out, "-");
            extend(&mut out, &slice(&v, a, b));
            extend_str(&mut out, "-");
            extend(&mut out, &slice(&v, b, c));
            assert(out@ =~= aired_date_spec(date@));
            string_of(&out)
        },
        _ => String::new(),
    }
}

proof fn lemma_boundaries_ordered(s: Seq<char>, m: int, n: int, a: int, b: int)
    requires
        m < n,
        chars_at_byte(s, m) == Some(a),
        chars_at_byte(s, n) == Some(b),
    ensures
        0 <= a <= b <= s.len(),
{
    if a > b {
        crate::text::lemma_utf8_len_take_mono(s, b, a);
    }
}

/// `s` with `&`, `<` and `>` escaped, in that order.
pub open spec fn nfo_escape_spec(s: Seq<char>) -> Seq<char> {
    replace(replace(replace(s, "&"@, "&amp;"@), "<"@, "&lt;"@), ">"@, "&gt;"@)
}

/// Minimal XML escaping for text-node content in NFO files.
pub fn xml_escape(s: &str) -> (r: String)
    ensures
        r@ == nfo_escape_spec(s@),
{
    let v = chars_of(s);
    let amp = chars_of("&");
    let lt = chars_of("<");
    let gt = chars_of(">");
    proof {
        reveal_strlit("&");
        reveal_strlit("<");
        reveal_strlit(">");
    }
    let a = replace_vec(&v, &amp, &chars_of("&amp;"));
    let b = replace_vec(&a, &lt, &chars_of("&lt;"));
    let c = replace_vec(&b, &gt, &chars_of("&gt;"));
    string_of(&c)
}

// ── Shows, seasons and episodes ──────────────────────────────────────────────

/// The show folder of a channel: its sanitized name, prefixed with the
/// platform's display name unless it is YouTube.
pub open spec fn show_name_spec(channel_name: Seq<char>, platform: Platform) -> Seq<char> {
    if platform == Platform::YouTube {
        sanitize_spec(channel_name)
    } else {
        display_name_of(platform) + " - "@ + sanitize_spec(channel_name)
    }
}

/// The show folder name of a channel.
pub fn show_name(channel_name: &str, platform: Platform) -> (r: String)
    ensures
        r@ == show_name_spec(channel_name@, platform),
{
    let base = sanitize(channel_name);
    if platform == Platform::YouTube {
        base
    } else {
        let mut out: Vec<char> = Vec::new();
        extend_str(&mut out, platform.display_name());
        extend_str(&mut out, " - ");
        extend_str(&mut out, base.as_str());
        string_of(&out)
    }
}

/// The platform a channel folder belongs to: that of its stored channel
/// URL, else that of the platform folder it sits in, else YouTube.
pub open spec fn channel_platform_spec(channel_url: Option<Seq<char>>, parent_dir: Option<Seq<char>>) -> Platform {
    match channel_url {
        Some(u) => crate::platform::platform_of_lowered(crate::text::unicode_lower(u)),
        None => match parent_dir {
            Some(d) => match crate::platform::platform_of_dir(d) {
                Some(p) => p,
                None => Platform::YouTube,
            },
            None => Platform::YouTube,
        },
    }
}

/// The platform of a channel folder (see [`channel_platform_spec`]),
/// which decides its show name.
pub fn channel_platform(channel_url: Option<&str>, parent_dir: Option<&str>) -> (r: Platform)
    ensures
        r == channel_platform_spec(
            match channel_url {
                Some(u) => Some(u@),
                None => None,
            },
            match parent_dir {
                Some(d) => Some(d@),
                None => None,
            },
        ),
{
    match channel_url {
        Some(u) => Platform::from_url(u),
        None => match parent_dir {
            Some(d) => match Platform::from_dir_name(d) {
                Some(p) => p,
                None => Platform::YouTube,
            },
            None => Platform::YouTube,
        },
    }
}

/// The season folder of a year: `Season <year>`, or `Season 01` for
/// undated videos (year 0).
pub fn season_label(year: u32) -> (r: String)
    ensures
        r@ == if year > 0 {
            "Season "@ + dec(year as nat)
        } else {
            "Season 01"@
        },
{
    if year > 0 {
        let mut out: Vec<char> = Vec::new();
        extend_str(&mut out, "Season ");
        push_dec(&mut out, year as u64);
        string_of(&out)
    } else {
        String::from_str("Season 01")
    }
}

/// The season number of a year (1 for undated videos).
pub fn season_number(year: u32) -> (r: u32)
    ensures
        r == if year > 0 {
            year
        } else {
            1
        },
{
    if year > 0 {
        year
    } else {
        1
    }
}

/// `<show> - S<season:04>E<episode:03> - <title>`.
pub open spec fn episode_stem_spec(show: Seq<char>, season: u32, episode: u32, title: Seq<char>) -> Seq<
    char,
> {
    show + " - S"@ + dec_pad(season as nat, 4) + "E"@ + dec_pad(episode as nat, 3) + " - "@
        + sanitize_spec(title)
}

/// The file stem shared by an episode's video, thumbnail, NFO and
/// subtitles.
pub fn episode_stem(show: &str, season: u32, episode: u32, title: &str) -> (r: String)
    ensures
        r@ == episode_stem_spec(show@, season, episode, title@),
{
    let t = sanitize(title);
    let mut out: Vec<char> = Vec::new();
    extend_str(&mut out, show);
    extend_str(&mut out, " - S");
    push_dec_pad(&mut out, season as u64, 4);
    extend_str(&mut out, "E");
    push_dec_pad(&mut out, episode as u64, 3);
    extend_str(&mut out, " - ");
    extend_str(&mut out, t.as_str());
    string_of(&out)
}

/// The `.plexmatch` show-title hint.
pub fn plexmatch_text(channel_name: &str) -> (r: String)
    ensures
        r@ == "title: "@ + channel_name@ + "\n"@,
{
    let mut out: Vec<char> = Vec::new();
    extend_str(&mut out, "title: ");
    extend_str(&mut out, channel_name);
    extend_str(&mut out, "\n");
    string_of(&out)
}

/// The show-level `tvshow.nfo`.
pub open spec fn tvshow_nfo_spec(name: Seq<char>, uploader: Seq<char>, plot: Seq<char>) -> Seq<char> {
    "<?xml version=\"1.0\" encoding=\"UTF-8\"?>\n<tvshow>\n  <title>"@ + nfo_escape_spec(name)
        + "</title>\n  <studio>"@ + nfo_escape_spec(uploader) + "</studio>\n  <plot>"@
        + nfo_escape_spec(plot) + "</plot>\n</tvshow>\n"@
}

/// The show-level `tvshow.nfo`: channel title, uploader and plot.
pub fn tvshow_nfo(name: &str, uploader: &str, plot: &str) -> (r: String)
    ensures
        r@ == tvshow_nfo_spec(name@, uploader@, plot@),
{
    let mut out: Vec<char> = Vec::new();
    extend_str(&mut out, "<?xml version=\"1.0\" encoding=\"UTF-8\"?>\n<tvshow>\n  <title>");
    extend_str(&mut out, xml_escape(name).as_str());
    extend_str(&mut out, "</title>\n  <studio>");
    extend_str(&mut out, xml_escape(uploader).as_str());
    extend_str(&mut out, "</studio>\n  <plot>");
    extend_str(&mut out, xml_escape(plot).as_str());
    extend_str(&mut out, "</plot>\n</tvshow>\n");
    assert(out@ =~= tvshow_nfo_spec(name@, uploader@, plot@));
    string_of(&out)
}

/// An episode's `.nfo` sidecar.
pub open spec fn episode_nfo_spec(
    title: Seq<char>,
    season: u32,
    episode: u32,
    aired: Seq<char>,
    runtime_min: u64,
    plot: Seq<char>,
) -> Seq<char> {
    "<?xml version=\"1.0\" encoding=\"UTF-8\"?>\n<episodedetails>\n  <title>"@ + nfo_escape_spec(
        title,
    ) + "</title>\n  <season>"@ + dec(season as nat) + "</season>\n  <episode>"@ + dec(
        episode as nat,
    ) + "</episode>\n  <aired>"@ + nfo_escape_spec(aired) + "</aired>\n  <runtime>"@ + dec(
        runtime_min as nat,
    ) + "</runtime>\n  <plot>"@ + nfo_escape_spec(plot) + "</plot>\n</episodedetails>\n"@
}

/// An episode's `.nfo` sidecar: title, season, episode, aired date,
/// runtime in minutes and plot.
pub fn episode_nfo(
    title: &str,
    season: u32,
    episode: u32,
    aired: &str,
    runtime_min: u64,
    plot: &str,
) -> (r: String)
    ensures
        r@ == episode_nfo_spec(title@, season, episode, aired@, runtime_min, plot@),
{
    let mut out: Vec<char> = Vec::new();
    extend_str(
        &mut out,
        "<?xml version=\"1.0\" encoding=\"UTF-8\"?>\n<episodedetails>\n  <title>",
    );
    extend_str(&mut out, xml_escape(title).as_str());
    extend_str(&mut out, "</title>\n  <season>");
    push_dec(&mut out, season as u64);
    extend_str(&mut out, "</season>\n  <episode>");
    push_dec(&mut out, episode as u64);
    extend_str(&mut out, "</episode>\n  <aired>");
    extend_str(&mut out, xml_escape(aired).as_str());
    extend_str(&mut out, "</aired>\n  <runtime>");
    push_dec(&mut out, runtime_min);
    extend_str(&mut out, "</runtime>\n  <plot>");
    extend_str(&mut out, xml_escape(plot).as_str());
    extend_str(&mut out, "</plot>\n</episodedetails>\n");
    assert(out@ =~= episode_nfo_spec(title@, season, episode, aired@, runtime_min, plot@));
    string_of(&out)
}

// ── Episode numbering ────────────────────────────────────────────────────────

/// Video `j` comes before video `i` in the same season: an earlier date,
/// or the same date and an earlier position (the sort is stable).
pub open spec fn earlier_in_season(years: Seq<u32>, dates: Seq<Seq<char>>, j: int, i: int) -> bool {
    years[j] == years[i] && (lex_lt(dates[j], dates[i]) || (dates[j] == dates[i] && j < i))
}

/// How many of the first `k` videos come before video `i` in its season.
pub open spec fn rank_upto(years: Seq<u32>, dates: Seq<Seq<char>>, i: int, k: int) -> nat
    decreases k,
{
    if k <= 0 {
        0
    } else {
        rank_upto(years, dates, i, k - 1) + if earlier_in_season(years, dates, k - 1, i) {
            1nat
        } else {
            0nat
        }
    }
}

/// Every date can be sliced at byte 4.
pub open spec fn dates_sliceable(dates: Seq<String>) -> bool {
    forall|i: int| 0 <= i < dates.len() ==> boundary_ok(#[trigger] dates[i]@, 4)
}

/// Season year and episode number of every video, given its upload date
/// (empty when unknown): videos are sorted by date (stably) and grouped by
/// year; each season numbers its episodes from 1.
pub fn episode_numbers(dates: &Vec<String>) -> (r: Vec<(u32, u32)>)
    requires
        dates_sliceable(dates@),
        dates@.len() < u32::MAX,
    ensures
        r@.len() == dates@.len(),
        forall|i: int|
            0 <= i < r@.len() ==> #[trigger] r@[i].0 == year_of_spec(dates@[i]@) && r@[i].1 == 1
                + rank_upto(
                dates@.map_values(|d: String| year_of_spec(d@)),
                crate::text::strings(dates@),
                i,
                dates@.len() as int,
            ),
{
    let n = dates.len();
    let ghost ds = crate::text::strings(dates@);
    let ghost ys = dates@.map_values(|d: String| year_of_spec(d@));
    let mut years: Vec<u32> = Vec::new();
    let mut chars: Vec<Vec<char>> = Vec::new();
    let mut i: usize = 0;
    while i < n
        invariant
            n == dates@.len(),
            dates_sliceable(dates@),
            i <= n,
            years@.len() == i,
            chars@.len() == i,
            forall|j: int| 0 <= j < i ==> #[trigger] years@[j] == year_of_spec(dates@[j]@),
            forall|j: int| 0 <= j < i ==> #[trigger] chars@[j]@ == dates@[j]@,
        decreases n - i,
    {
        assert(boundary_ok(dates@[i as int]@, 4));
        years.push(year_of(dates[i].as_str()));
        chars.push(chars_of(dates[i].as_str()));
        i += 1;
    }
    assert(years@ =~= ys);
    assert forall|j: int| 0 <= j < n implies #[trigger] chars@[j]@ == ds[j] by {}
    let mut out: Vec<(u32, u32)> = Vec::new();
    let mut i: usize = 0;
    while i < n
        invariant
            n == dates@.len(),
            n < u32::MAX,
            years@ == ys,
            ys.len() == n,
            chars@.len() == n,
            ds.len() == n,
            forall|j: int| 0 <= j < n ==> #[trigger] chars@[j]@ == ds[j],
            i <= n,
            out@.len() == i,
            forall|j: int|
                0 <= j < i ==> #[trigger] out@[j].0 == ys[j] && out@[j].1 == 1 + rank_upto(
                    ys,
                    ds,
                    j,
                    n as int,
                ),
        decreases n - i,
    {
        let mut count: u32 = 0;
        let mut j: usize = 0;
        while j < n
            invariant
                n == dates@.len(),
                n < u32::MAX,
                years@ == ys,
                ys.len() == n,
                chars@.len() == n,
                ds.len() == n,
                forall|k: int| 0 <= k < n ==> #[trigger] chars@[k]@ == ds[k],
                i < n,
                j <= n,
                out@.len() == i,
                forall|k: int|
                    0 <= k < i ==> #[trigger] out@[k].0 == ys[k] && out@[k].1 == 1 + rank_upto(
                        ys,
                        ds,
                        k,
                        n as int,
                    ),
                count == rank_upto(ys, ds, i as int, j as int),
                count <= j,
            decreases n - j,
        {
            let earlier = years[j] == years[i] && (lex_less(&chars[j], &chars[i]) || (
            j < i && crate::text::eq_vec(&chars[j], &chars[i])));
            if earlier {
                count = count + 1;
            }
            j += 1;
        }
        out.push((years[i], count + 1));
        i += 1;
    }
    out
}

// ── Laws ─────────────────────────────────────────────────────────────────────

/// A character common filesystems refuse in a file name.
pub open spec fn fs_unsafe_char(c: char) -> bool {
    c == '/' || c == '\\' || c == ':' || c == '*' || c == '?' || c == '"' || c == '<' || c == '>'
        || c == '|'
}

proof fn lemma_trim_keeps_safe(x: Seq<char>)
    requires
        forall|i: int| 0 <= i < x.len() ==> !fs_unsafe_char(#[trigger] x[i]),
    ensures
        forall|i: int| 0 <= i < trim(x).len() ==> !fs_unsafe_char(#[trigger] trim(x)[i]),
{
    lemma_trim_start_safe(x);
    lemma_trim_end_safe(crate::text::trim_start(x));
}

proof fn lemma_trim_start_safe(x: Seq<char>)
    requires
        forall|i: int| 0 <= i < x.len() ==> !fs_unsafe_char(#[trigger] x[i]),
    ensures
        forall|i: int|
            0 <= i < crate::text::trim_start(x).len() ==> !fs_unsafe_char(
                #[trigger] crate::text::trim_start(x)[i],
            ),
    decreases x.len(),
{
    if x.len() > 0 && crate::text::is_ws(x[0]) {
        assert forall|i: int| 0 <= i < x.drop_first().len() implies !fs_unsafe_char(
            #[trigger] x.drop_first()[i],
        ) by {
            assert(x.drop_first()[i] == x[i + 1]);
        }
        lemma_trim_start_safe(x.drop_first());
        assert(crate::text::trim_start(x) == crate::text::trim_start(x.drop_first()));
    } else {
        assert(crate::text::trim_start(x) == x);
    }
}

proof fn lemma_trim_end_safe(x: Seq<char>)
    requires
        forall|i: int| 0 <= i < x.len() ==> !fs_unsafe_char(#[trigger] x[i]),
    ensures
        forall|i: int|
            0 <= i < crate::text::trim_end(x).len() ==> !fs_unsafe_char(
                #[trigger] crate::text::trim_end(x)[i],
            ),
    decreases x.len(),
{
    if x.len() > 0 && crate::text::is_ws(x.last()) {
        assert forall|i: int| 0 <= i < x.drop_last().len() implies !fs_unsafe_char(
            #[trigger] x.drop_last()[i],
        ) by {
            assert(x.drop_last()[i] == x[i]);
        }
        lemma_trim_end_safe(x.drop_last());
        assert(crate::text::trim_end(x) == crate::text::trim_end(x.drop_last()));
    } else {
        assert(crate::text::trim_end(x) == x);
    }
}

/// Law: a sanitized name holds none of the characters that file systems
/// refuse.
pub proof fn lemma_sanitize_safe(s: Seq<char>)
    ensures
        forall|i: int|
            0 <= i < sanitize_spec(s).len() ==> !fs_unsafe_char(#[trigger] sanitize_spec(s)[i]),
{
    let m = s.map_values(|c: char| fs_safe_char(c));
    assert forall|i: int| 0 <= i < m.len() implies !fs_unsafe_char(#[trigger] m[i]) by {
        assert(m[i] == fs_safe_char(s[i]));
    }
    lemma_trim_keeps_safe(m);
}

/// "Earlier in the season" is transitive and irreflexive.
proof fn lemma_earlier_order(years: Seq<u32>, dates: Seq<Seq<char>>, a: int, b: int, c: int)
    ensures
        !earlier_in_season(years, dates, a, a),
        earlier_in_season(years, dates, a, b) && earlier_in_season(years, dates, b, c) ==> earlier_in_season(
            years,
            dates,
            a,
            c,
        ),
{
    lemma_lex_asym(dates[a], dates[a]);
    if lex_lt(dates[a], dates[b]) && lex_lt(dates[b], dates[c]) {
        lemma_lex_trans(dates[a], dates[b], dates[c]);
    }
}

/// A video counts every video earlier than one it comes after, and that
/// one too.
proof fn lemma_rank_step(years: Seq<u32>, dates: Seq<Seq<char>>, i: int, j: int, k: int)
    requires
        earlier_in_season(years, dates, i, j),
        0 <= i,
    ensures
        rank_upto(years, dates, j, k) >= rank_upto(years, dates, i, k) + if i < k {
            1nat
        } else {
            0nat
        },
    decreases k,
{
    if k > 0 {
        lemma_rank_step(years, dates, i, j, k - 1);
        lemma_earlier_order(years, dates, k - 1, i, j);
        lemma_earlier_order(years, dates, i, i, i);
    }
}

/// Within a season, episode numbers follow the upload order: a video
/// uploaded earlier (or on the same day but listed first) gets a smaller
/// number, so no two videos of one season share a number.
pub proof fn lemma_episodes_ordered(years: Seq<u32>, dates: Seq<Seq<char>>, i: int, j: int)
    requires
        years.len() == dates.len(),
        0 <= i < years.len(),
        0 <= j < years.len(),
        i != j,
        years[i] == years[j],
    ensures
        earlier_in_season(years, dates, i, j) ==> rank_upto(years, dates, i, years.len() as int) < rank_upto(
            years,
            dates,
            j,
            years.len() as int,
        ),
        rank_upto(years, dates, i, years.len() as int) != rank_upto(years, dates, j, years.len() as int),
{
    let n = years.len() as int;
    if dates[i] != dates[j] {
        lemma_lex_total(dates[i], dates[j]);
    }
    if earlier_in_season(years, dates, i, j) {
        lemma_rank_step(years, dates, i, j, n);
    } else {
        assert(earlier_in_season(years, dates, j, i));
        lemma_rank_step(years, dates, j, i, n);
    }
}

} // verus!
