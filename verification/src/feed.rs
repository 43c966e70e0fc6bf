//! RSS 2.0 + iTunes podcast feed rendering for the library.
//!
//! Turns a set of archived videos into a feed any podcast app can
//! subscribe to. Pure string-building: the web layer gathers the items and
//! serves the result. Enclosure URLs are absolute because podcast clients
//! fetch media out-of-band.

use vstd::prelude::*;
use crate::civil::{civil_from_days, civil_of, day_split, days_from_civil, epoch_day, lemma_civil_of};
use crate::num::{
    all_digits, all_digits_vec, dec, dec_pad, idec_pad, parse_i64, parse_i64_vec, push_dec,
    push_dec_pad, push_idec_pad,
};
use crate::paths::path_extension;
use crate::text::{ascii_lower, ascii_lower_vec, chars_of, extend_str, eq_lit, slice, string_of};

verus! {

/// One episode in the feed.
pub struct FeedItem {
    pub title: String,
    pub description: String,
    /// Absolute URL to the media file (the `/files/...` mount).
    pub enclosure_url: String,
    pub enclosure_len: u64,
    pub enclosure_type: String,
    /// Stable GUID — the yt-dlp video id.
    pub guid: String,
    /// RFC-2822 publication date.
    pub pub_date: String,
    /// `HH:MM:SS`, or empty when unknown.
    pub duration: String,
    /// Absolute thumbnail URL, or empty.
    pub image_url: String,
}

/// Feed-level metadata wrapping the items.
pub struct Feed {
    pub title: String,
    pub description: String,
    /// Absolute link back to the web UI.
    pub link: String,
    pub items: Vec<FeedItem>,
}

// ── MIME types ───────────────────────────────────────────────────────────────

/// MIME type for a lower-cased file extension.
pub open spec fn mime_of_ext(ext: Option<Seq<char>>) -> Seq<char> {
    match ext {
        Some(e) => if e == "mp4"@ || e == "m4v"@ {
            "video/mp4"@
        } else if e == "mkv"@ {
            "video/x-matroska"@
        } else if e == "webm"@ {
            "video/webm"@
        } else if e == "mov"@ {
            "video/quicktime"@
        } else if e == "avi"@ {
            "video/x-msvideo"@
        } else if e == "ts"@ {
            "video/mp2t"@
        } else if e == "m4a"@ {
            "audio/mp4"@
        } else if e == "mp3"@ {
            "audio/mpeg"@
        } else if e == "opus"@ || e == "ogg"@ {
            "audio/ogg"@
        } else if e == "flac"@ {
            "audio/flac"@
        } else if e == "wav"@ {
            "audio/wav"@
        } else {
            "application/octet-stream"@
        },
        None => "application/octet-stream"@,
    }
}

/// The registered media type of each extension the feed knows: the
/// extension, the top-level type and the subtype.
pub open spec fn registered_media_types() -> Seq<(Seq<char>, Seq<char>, Seq<char>)> {
    seq![
        ("mp4"@, "video"@, "mp4"@),
        ("m4v"@, "video"@, "mp4"@),
        ("mkv"@, "video"@, "x-matroska"@),
        ("webm"@, "video"@, "webm"@),
        ("mov"@, "video"@, "quicktime"@),
        ("avi"@, "video"@, "x-msvideo"@),
        ("ts"@, "video"@, "mp2t"@),
        ("m4a"@, "audio"@, "mp4"@),
        ("mp3"@, "audio"@, "mpeg"@),
        ("opus"@, "audio"@, "ogg"@),
        ("ogg"@, "audio"@, "ogg"@),
        ("flac"@, "audio"@, "flac"@),
        ("wav"@, "audio"@, "wav"@),
    ]
}

/// Law: each known extension gets its registered type, written
/// `type/subtype`, and any other extension (or none) the generic binary
/// type.
pub proof fn lemma_registered_media_types(ext: Option<Seq<char>>)
    ensures
        forall|i: int|
            0 <= i < registered_media_types().len() ==> mime_of_ext(Some(#[trigger] registered_media_types()[i].0))
                == registered_media_types()[i].1 + "/"@ + registered_media_types()[i].2,
        (forall|i: int| 0 <= i < registered_media_types().len() ==> ext != Some(
            #[trigger] registered_media_types()[i].0,
        )) ==> mime_of_ext(ext) == "application/octet-stream"@,
{
    let t = registered_media_types();
    reveal_strlit("mp4");
    reveal_strlit("m4v");
    reveal_strlit("mkv");
    reveal_strlit("webm");
    reveal_strlit("mov");
    reveal_strlit("avi");
    reveal_strlit("ts");
    reveal_strlit("m4a");
    reveal_strlit("mp3");
    reveal_strlit("opus");
    reveal_strlit("ogg");
    reveal_strlit("flac");
    reveal_strlit("wav");
    reveal_strlit("video");
    reveal_strlit("audio");
    reveal_strlit("/");
    reveal_strlit("x-matroska");
    reveal_strlit("quicktime");
    reveal_strlit("x-msvideo");
    reveal_strlit("mp2t");
    reveal_strlit("mpeg");
    reveal_strlit("video/mp4");
    reveal_strlit("video/x-matroska");
    reveal_strlit("video/webm");
    reveal_strlit("video/quicktime");
    reveal_strlit("video/x-msvideo");
    reveal_strlit("video/mp2t");
    reveal_strlit("audio/mp4");
    reveal_strlit("audio/mpeg");
    reveal_strlit("audio/ogg");
    reveal_strlit("audio/flac");
    reveal_strlit("audio/wav");
    // Tell the extensions apart by their characters.
    assert("mp4"@[1] == 'p' && "mp4"@[2] == '4' && "m4v"@[1] == '4' && "mkv"@[1] == 'k' && "mov"@[1] == 'o');
    assert("m4a"@[1] == '4' && "m4a"@[2] == 'a' && "mp3"@[1] == 'p' && "mp3"@[2] == '3');
    assert("avi"@[0] == 'a' && "ogg"@[0] == 'o' && "wav"@[0] == 'w' && "mp4"@[0] == 'm');
    assert("webm"@[0] == 'w' && "opus"@[0] == 'o' && "flac"@[0] == 'f' && "ts"@.len() == 2);
    assert("wav"@.len() != "flac"@.len() && "wav"@[0] != "ogg"@[0] && "wav"@.len() != "opus"@.len());
    assert forall|i: int| 0 <= i < t.len() implies mime_of_ext(Some(#[trigger] t[i].0)) == t[i].1 + "/"@ + t[i].2 by {
        if i == 0 {
            assert(t[i] == ("mp4"@, "video"@, "mp4"@));
            assert("video/mp4"@ =~= "video"@ + "/"@ + "mp4"@);
        } else if i == 1 {
            assert(t[i] == ("m4v"@, "video"@, "mp4"@));
            assert("video/mp4"@ =~= "video"@ + "/"@ + "mp4"@);
        } else if i == 2 {
            assert(t[i] == ("mkv"@, "video"@, "x-matroska"@));
            assert("video/x-matroska"@ =~= "video"@ + "/"@ + "x-matroska"@);
        } else if i == 3 {
            assert(t[i] == ("webm"@, "video"@, "webm"@));
            assert("video/webm"@ =~= "video"@ + "/"@ + "webm"@);
        } else if i == 4 {
            assert(t[i] == ("mov"@, "video"@, "quicktime"@));
            assert("video/quicktime"@ =~= "video"@ + "/"@ + "quicktime"@);
        } else if i == 5 {
            assert(t[i] == ("avi"@, "video"@, "x-msvideo"@));
            assert("video/x-msvideo"@ =~= "video"@ + "/"@ + "x-msvideo"@);
        } else if i == 6 {
            assert(t[i] == ("ts"@, "video"@, "mp2t"@));
            assert("video/mp2t"@ =~= "video"@ + "/"@ + "mp2t"@);
        } else if i == 7 {
            assert(t[i] == ("m4a"@, "audio"@, "mp4"@));
            assert("audio/mp4"@ =~= "audio"@ + "/"@ + "mp4"@);
        } else if i == 8 {
            assert(t[i] == ("mp3"@, "audio"@, "mpeg"@));
            assert("audio/mpeg"@ =~= "audio"@ + "/"@ + "mpeg"@);
        } else if i == 9 {
            assert(t[i] == ("opus"@, "audio"@, "ogg"@));
            assert("audio/ogg"@ =~= "audio"@ + "/"@ + "ogg"@);
        } else if i == 10 {
            assert(t[i] == ("ogg"@, "audio"@, "ogg"@));
            assert("audio/ogg"@ =~= "audio"@ + "/"@ + "ogg"@);
        } else if i == 11 {
            assert(t[i] == ("flac"@, "audio"@, "flac"@));
            assert("audio/flac"@ =~= "audio"@ + "/"@ + "flac"@);
        } else {
            assert(t[i] == ("wav"@, "audio"@, "wav"@));
            assert("audio/wav"@ =~= "audio"@ + "/"@ + "wav"@);
        }
    }
    if forall|i: int| 0 <= i < t.len() ==> ext != Some(#[trigger] t[i].0) {
        assert(ext != Some(t[0].0) && ext != Some(t[1].0) && ext != Some(t[2].0) && ext != Some(t[3].0));
        assert(ext != Some(t[4].0) && ext != Some(t[5].0) && ext != Some(t[6].0) && ext != Some(t[7].0));
        assert(ext != Some(t[8].0) && ext != Some(t[9].0) && ext != Some(t[10].0) && ext != Some(t[11].0));
        assert(ext != Some(t[12].0));
    }
}

/// The lower-cased extension of a path, if it has one.
pub open spec fn lower_ext(path: Seq<char>) -> Option<Seq<char>> {
    match path_extension(path) {
        Some(e) => Some(ascii_lower(e)),
        None => None,
    }
}

/// MIME type for a media file, by extension (ASCII case-insensitive).
/// Falls back to `application/octet-stream` so an unknown container still
/// produces a valid enclosure.
pub fn mime_for(path: &str) -> (r: &'static str)
    ensures
        r@ == mime_of_ext(lower_ext(path@)),
{
    let ext = crate::paths::extension(path);
    match ext {
        None => "application/octet-stream",
        Some(e) => {
            let ev = chars_of(e.as_str());
            let l = ascii_lower_vec(&ev);
            if eq_lit(&l, "mp4") || eq_lit(&l, "m4v") {
                "video/mp4"
            } else if eq_lit(&l, "mkv") {
                "video/x-matroska"
            } else if eq_lit(&l, "webm") {
                "video/webm"
            } else if eq_lit(&l, "mov") {
                "video/quicktime"
            } else if eq_lit(&l, "avi") {
                "video/x-msvideo"
            } else if eq_lit(&l, "ts") {
                "video/mp2t"
            } else if eq_lit(&l, "m4a") {
                "audio/mp4"
            } else if eq_lit(&l, "mp3") {
                "audio/mpeg"
            } else if eq_lit(&l, "opus") || eq_lit(&l, "ogg") {
                "audio/ogg"
            } else if eq_lit(&l, "flac") {
                "audio/flac"
            } else if eq_lit(&l, "wav") {
                "audio/wav"
            } else {
                "application/octet-stream"
            }
        },
    }
}

// ── XML escaping ─────────────────────────────────────────────────────────────

/// The XML text for one character: the five specials escaped, control
/// characters other than tab / newline / return dropped.
pub open spec fn xml_char(c: char) -> Seq<char> {
    if c == '&' {
        "&amp;"@
    } else if c == '<' {
        "&lt;"@
    } else if c == '>' {
        "&gt;"@
    } else if c == '"' {
        "&quot;"@
    } else if c == '\'' {
        "&apos;"@
    } else if (c as u32) < 0x20 && c != '\t' && c != '\n' && c != '\r' {
        seq![]
    } else {
        seq![c]
    }
}

/// `s` escaped for XML element text or attribute values.
pub open spec fn xml_escape_spec(s: Seq<char>) -> Seq<char>
    decreases s.len(),
{
    if s.len() == 0 {
        seq![]
    } else {
        xml_escape_spec(s.drop_last()) + xml_char(s.last())
    }
}

/// Appends `xml_escape_spec(s)` to `out`.
pub fn push_xml_escaped(out: &mut Vec<char>, s: &str)
    ensures
        final(out)@ == old(out)@ + xml_escape_spec(s@),
{
    let v = chars_of(s);
    let ghost start = out@;
    let mut i: usize = 0;
    while i < v.len()
        invariant
            i <= v@.len(),
            v@ == s@,
            out@ == start + xml_escape_spec(v@.take(i as int)),
        decreases v.len() - i,
    {
        let c = v[i];
        let ghost before = out@;
        if c == '&' {
            extend_str(out, "&amp;");
        } else if c == '<' {
            extend_str(out, "&lt;");
        } else if c == '>' {
            extend_str(out, "&gt;");
        } else if c == '"' {
            extend_str(out, "&quot;");
        } else if c == '\'' {
            extend_str(out, "&apos;");
        } else if (c as u32) < 0x20 && c != '\t' && c != '\n' && c != '\r' {
        } else {
            out.push(c);
        }
        assert(out@ =~= before + xml_char(c));
        assert(v@.take(i + 1).drop_last() =~= v@.take(i as int));
        i += 1;
        assert(out@ =~= start + xml_escape_spec(v@.take(i as int)));
    }
    assert(v@.take(i as int) =~= v@);
}

/// Escape the five XML special characters for safe inclusion in element
/// text or attribute values, dropping control characters that XML 1.0
/// forbids (tab, newline and return are kept).
pub fn xml_escape(s: &str) -> (r: String)
    ensures
        r@ == xml_escape_spec(s@),
{
    let mut out: Vec<char> = Vec::new();
    push_xml_escaped(&mut out, s);
    string_of(&out)
}

// ── Dates ────────────────────────────────────────────────────────────────────

/// Three-letter weekday name, counted from Thursday (the Unix epoch).
pub open spec fn weekday_name(k: int) -> Seq<char> {
    if k == 0 {
        "Thu"@
    } else if k == 1 {
        "Fri"@
    } else if k == 2 {
        "Sat"@
    } else if k == 3 {
        "Sun"@
    } else if k == 4 {
        "Mon"@
    } else if k == 5 {
        "Tue"@
    } else {
        "Wed"@
    }
}

/// Three-letter month name of month `m` (1–12).
pub open spec fn month_name(m: int) -> Seq<char> {
    if m == 1 {
        "Jan"@
    } else if m == 2 {
        "Feb"@
    } else if m == 3 {
        "Mar"@
    } else if m == 4 {
        "Apr"@
    } else if m == 5 {
        "May"@
    } else if m == 6 {
        "Jun"@
    } else if m == 7 {
        "Jul"@
    } else if m == 8 {
        "Aug"@
    } else if m == 9 {
        "Sep"@
    } else if m == 10 {
        "Oct"@
    } else if m == 11 {
        "Nov"@
    } else {
        "Dec"@
    }
}

/// RFC-2822 date of UNIX time `ts` in GMT, e.g. `Sun, 07 Jun 2026 00:00:00 GMT`.
pub open spec fn rfc2822_spec(ts: int) -> Seq<char> {
    let days = ts / 86400;
    let secs = ts % 86400;
    let date = civil_of(days);
    weekday_name(days % 7) + ", "@ + dec_pad(date.2 as nat, 2) + " "@ + month_name(date.1) + " "@
        + idec_pad(date.0, 4) + " "@ + dec_pad((secs / 3600) as nat, 2) + ":"@ + dec_pad(
        ((secs % 3600) / 60) as nat,
        2,
    ) + ":"@ + dec_pad((secs % 60) as nat, 2) + " GMT"@
}

/// Format a UNIX timestamp as an RFC-2822 date in GMT.
pub fn rfc2822(ts: i64) -> (r: String)
    ensures
        r@ == rfc2822_spec(ts as int),
{
    let (days, secs) = day_split(ts);
    let h = secs / 3600;
    let mi = (secs % 3600) / 60;
    let s = secs % 60;
    let k = if days >= 0 {
        days % 7
    } else {
        let q = -((-(days + 1)) / 7) - 1;
        proof {
            vstd::arithmetic::div_mod::lemma_fundamental_div_mod(-(days + 1), 7);
            vstd::arithmetic::div_mod::lemma_fundamental_div_mod_converse(
                days as int,
                7,
                q as int,
                days - q * 7,
            );
        }
        days - q * 7
    };
    assert(k == days % 7);
    let wd = if k == 0 {
        "Thu"
    } else if k == 1 {
        "Fri"
    } else if k == 2 {
        "Sat"
    } else if k == 3 {
        "Sun"
    } else if k == 4 {
        "Mon"
    } else if k == 5 {
        "Tue"
    } else {
        "Wed"
    };
    let (y, m, d) = civil_from_days(days);
    proof {
        lemma_civil_of(y as int, m as int, d as int);
    }
    let mon = if m == 1 {
        "Jan"
    } else if m == 2 {
        "Feb"
    } else if m == 3 {
        "Mar"
    } else if m == 4 {
        "Apr"
    } else if m == 5 {
        "May"
    } else if m == 6 {
        "Jun"
    } else if m == 7 {
        "Jul"
    } else if m == 8 {
        "Aug"
    } else if m == 9 {
        "Sep"
    } else if m == 10 {
        "Oct"
    } else if m == 11 {
        "Nov"
    } else {
        "Dec"
    };
    let mut out: Vec<char> = Vec::new();
    extend_str(&mut out, wd);
    extend_str(&mut out, ", ");
    push_dec_pad(&mut out, d as u64, 2);
    extend_str(&mut out, " ");
    extend_str(&mut out, mon);
    extend_str(&mut out, " ");
    push_idec_pad(&mut out, y, 4);
    extend_str(&mut out, " ");
    push_dec_pad(&mut out, h as u64, 2);
    extend_str(&mut out, ":");
    push_dec_pad(&mut out, mi as u64, 2);
    extend_str(&mut out, ":");
    push_dec_pad(&mut out, s as u64, 2);
    extend_str(&mut out, " GMT");
    assert(out@ =~= rfc2822_spec(ts as int));
    string_of(&out)
}

/// Days since the Unix epoch of the date spelled `y`, `m`, `d` (each parsed
/// as `str::parse::<i64>` does): an error unless all three parse and the
/// month is 1–12 and the day 1–31.
pub open spec fn ymd_spec(y: Seq<char>, m: Seq<char>, d: Seq<char>) -> Result<int, ()> {
    match (parse_i64(y), parse_i64(m), parse_i64(d)) {
        (Some(yv), Some(mv), Some(dv)) => if 1 <= mv <= 12 && 1 <= dv <= 31 {
            Ok(epoch_day(yv as int, mv as int, dv as int))
        } else {
            Err(())
        },
        _ => Err(()),
    }
}

/// Days since the Unix epoch for a Y/M/D given as text.
fn ymd_to_unix_days(y: &Vec<char>, m: &Vec<char>, d: &Vec<char>) -> (r: Result<i64, ()>)
    requires
        parse_i64(y@) matches Some(v) ==> -1000000000000 <= v <= 1000000000000,
    ensures
        match r {
            Ok(v) => ymd_spec(y@, m@, d@) == Ok::<int, ()>(v as int),
            Err(_) => ymd_spec(y@, m@, d@) is Err,
        },
{
    let yv = match parse_i64_vec(y) {
        Some(v) => v,
        None => return Err(()),
    };
    let mv = match parse_i64_vec(m) {
        Some(v) => v,
        None => return Err(()),
    };
    let dv = match parse_i64_vec(d) {
        Some(v) => v,
        None => return Err(()),
    };
    if !(1 <= mv && mv <= 12) || !(1 <= dv && dv <= 31) {
        return Err(());
    }
    Ok(days_from_civil(yv, mv, dv))
}

/// The `<pubDate>` for an upload date `YYYYMMDD` (or, failing that, a
/// modification time, or the epoch).
pub open spec fn pub_date_spec(upload_date: Option<Seq<char>>, mtime_unix: Option<u64>) -> Seq<
    char,
> {
    let fallback = rfc2822_spec(
        (match mtime_unix {
            Some(t) => t,
            None => 0,
        }) as i64 as int,
    );
    match upload_date {
        Some(d) => if d.len() == 8 && all_digits(d) {
            match ymd_spec(d.subrange(0, 4), d.subrange(4, 6), d.subrange(6, 8)) {
                Ok(days) => rfc2822_spec(days * 86400),
                Err(_) => fallback,
            }
        } else {
            fallback
        },
        None => fallback,
    }
}

/// Convert yt-dlp's `YYYYMMDD` upload date (or a UNIX mtime fallback) into
/// an RFC-2822 date for `<pubDate>`, treating the date as midnight UTC.
/// Defaults to the Unix epoch when both are missing.
pub fn pub_date(upload_date: Option<&str>, mtime_unix: Option<u64>) -> (r: String)
    ensures
        r@ == pub_date_spec(
            match upload_date {
                Some(d) => Some(d@),
                None => None,
            },
            mtime_unix,
        ),
{
    if let Some(d) = upload_date {
        let dv = chars_of(d);
        if dv.len() == 8 && all_digits_vec(&dv) {
            let ys = slice(&dv, 0, 4);
            let ms = slice(&dv, 4, 6);
            let ds = slice(&dv, 6, 8);
            proof {
                lemma_four_digits(ys@);
            }
            if let Ok(days) = ymd_to_unix_days(&ys, &ms, &ds) {
                proof {
                    assert(days == ymd_spec(ys@, ms@, ds@)->Ok_0);
                    lemma_four_digit_days(ys@, ms@, ds@);
                }
                return rfc2822(days * 86400);
            }
        }
    }
    let t: u64 = match mtime_unix {
        Some(t) => t,
        None => 0,
    };
    rfc2822(t as i64)
}

/// A four-digit run parses to a value below 10000.
proof fn lemma_four_digits(y: Seq<char>)
    requires
        y.len() == 4,
        all_digits(y),
    ensures
        parse_i64(y) matches Some(v) ==> 0 <= v < 10000,
{
    let s3 = y.drop_last();
    let s2 = s3.drop_last();
    let s1 = s2.drop_last();
    let s0 = s1.drop_last();
    assert(s0.len() == 0);
    assert(crate::num::is_digit(y[0]) && crate::num::is_digit(y[1]));
    assert(crate::num::is_digit(y[2]) && crate::num::is_digit(y[3]));
    assert(s1.last() == y[0] && s2.last() == y[1] && s3.last() == y[2] && y.last() == y[3]);
    assert(crate::num::digits_val(s0) == 0);
    assert(crate::num::digits_val(s1) < 10);
    assert(crate::num::digits_val(s2) < 100);
    assert(crate::num::digits_val(s3) < 1000);
    assert(crate::num::digits_val(y) < 10000);
    assert(y[0] != '-' && y[0] != '+');
    assert(crate::num::unsigned_body(y) == y);
}

/// A date with a four-digit year has a day count whose seconds fit in i64.
proof fn lemma_four_digit_days(y: Seq<char>, m: Seq<char>, d: Seq<char>)
    requires
        y.len() == 4,
        all_digits(y),
        ymd_spec(y, m, d) is Ok,
    ensures
        -1000000000000 <= ymd_spec(y, m, d)->Ok_0 <= 1000000000000,
{
    lemma_four_digits(y);
    let yv = parse_i64(y)->Some_0 as int;
    let mv = parse_i64(m)->Some_0 as int;
    let dv = parse_i64(d)->Some_0 as int;
    crate::civil::lemma_hinnant_days(yv, mv, dv);
    assert(0 <= yv < 10000);
}

// ── Rendering ────────────────────────────────────────────────────────────────

/// `open`, then `s` escaped, then `close`.
pub open spec fn elem(open: Seq<char>, s: Seq<char>, close: Seq<char>) -> Seq<char> {
    open + xml_escape_spec(s) + close
}

/// `elem(open, s, close)`, or nothing when `s` is empty.
pub open spec fn opt_elem(open: Seq<char>, s: Seq<char>, close: Seq<char>) -> Seq<char> {
    if s.len() > 0 {
        elem(open, s, close)
    } else {
        seq![]
    }
}

/// The `<enclosure>` element of one episode.
pub open spec fn enclosure_xml(it: FeedItem) -> Seq<char> {
    elem("<enclosure url=\""@, it.enclosure_url@, "\" length=\""@) + dec(it.enclosure_len as nat)
        + elem("\" type=\""@, it.enclosure_type@, "\"/>\n"@)
}

/// The `<item>` element of one episode.
pub open spec fn item_xml(it: FeedItem) -> Seq<char> {
    "<item>\n"@ + elem("<title>"@, it.title@, "</title>\n"@) + elem(
        "<description>"@,
        it.description@,
        "</description>\n"@,
    ) + enclosure_xml(it) + elem("<guid isPermaLink=\"false\">"@, it.guid@, "</guid>\n"@) + elem(
        "<pubDate>"@,
        it.pub_date@,
        "</pubDate>\n"@,
    ) + opt_elem("<itunes:duration>"@, it.duration@, "</itunes:duration>\n"@) + opt_elem(
        "<itunes:image href=\""@,
        it.image_url@,
        "\"/>\n"@,
    ) + "</item>\n"@
}

/// The `<item>` elements of a list of episodes, in order.
pub open spec fn items_xml(items: Seq<FeedItem>) -> Seq<char>
    decreases items.len(),
{
    if items.len() == 0 {
        seq![]
    } else {
        items_xml(items.drop_last()) + item_xml(items.last())
    }
}

/// The whole RSS document of a feed.
pub open spec fn render_spec(feed: Feed) -> Seq<char> {
    "<?xml version=\"1.0\" encoding=\"UTF-8\"?>"@ + "\n"@
        + "<rss version=\"2.0\" xmlns:itunes=\"http://www.itunes.com/dtds/podcast-1.0.dtd\">"@
        + "\n<channel>\n"@ + "<title>"@ + xml_escape_spec(feed.title@) + "</title>\n"@ + "<link>"@
        + xml_escape_spec(feed.link@) + "</link>\n"@ + "<description>"@ + xml_escape_spec(
        feed.description@,
    ) + "</description>\n"@ + "<language>en</language>\n"@ + "<itunes:explicit>no</itunes:explicit>\n"@
        + items_xml(feed.items@) + "</channel>\n</rss>\n"@
}

fn push_elem(out: &mut Vec<char>, open: &str, s: &str, close: &str)
    ensures
        final(out)@ == old(out)@ + elem(open@, s@, close@),
{
    extend_str(out, open);
    push_xml_escaped(out, s);
    extend_str(out, close);
    assert(out@ =~= old(out)@ + elem(open@, s@, close@));
}

fn push_opt_elem(out: &mut Vec<char>, open: &str, s: &str, close: &str)
    ensures
        final(out)@ == old(out)@ + opt_elem(open@, s@, close@),
{
    if !s.is_empty() {
        push_elem(out, open, s, close);
    } else {
        assert(out@ =~= old(out)@ + opt_elem(open@, s@, close@));
    }
}

fn push_enclosure(out: &mut Vec<char>, it: &FeedItem)
    ensures
        final(out)@ == old(out)@ + enclosure_xml(*it),
{
    push_elem(out, "<enclosure url=\"", it.enclosure_url.as_str(), "\" length=\"");
    push_dec(out, it.enclosure_len);
    push_elem(out, "\" type=\"", it.enclosure_type.as_str(), "\"/>\n");
    assert(out@ =~= old(out)@ + enclosure_xml(*it));
}

fn push_item(out: &mut Vec<char>, it: &FeedItem)
    ensures
        final(out)@ == old(out)@ + item_xml(*it),
{
    extend_str(out, "<item>\n");
    push_elem(out, "<title>", it.title.as_str(), "</title>\n");
    push_elem(out, "<description>", it.description.as_str(), "</description>\n");
    push_enclosure(out, it);
    push_elem(out, "<guid isPermaLink=\"false\">", it.guid.as_str(), "</guid>\n");
    push_elem(out, "<pubDate>", it.pub_date.as_str(), "</pubDate>\n");
    push_opt_elem(out, "<itunes:duration>", it.duration.as_str(), "</itunes:duration>\n");
    push_opt_elem(out, "<itunes:image href=\"", it.image_url.as_str(), "\"/>\n");
    extend_str(out, "</item>\n");
    assert(out@ =~= old(out)@ + item_xml(*it));
}

/// Render the feed as an RSS 2.0 document with the iTunes podcast namespace.
pub fn render(feed: &Feed) -> (r: String)
    ensures
        r@ == render_spec(*feed),
{
    let mut out: Vec<char> = Vec::new();
    extend_str(&mut out, "<?xml version=\"1.0\" encoding=\"UTF-8\"?>");
    extend_str(&mut out, "\n");
    extend_str(
        &mut out,
        "<rss version=\"2.0\" xmlns:itunes=\"http://www.itunes.com/dtds/podcast-1.0.dtd\">",
    );
    extend_str(&mut out, "\n<channel>\n");
    extend_str(&mut out, "<title>");
    push_xml_escaped(&mut out, feed.title.as_str());
    extend_str(&mut out, "</title>\n");
    extend_str(&mut out, "<link>");
    push_xml_escaped(&mut out, feed.link.as_str());
    extend_str(&mut out, "</link>\n");
    extend_str(&mut out, "<description>");
    push_xml_escaped(&mut out, feed.description.as_str());
    extend_str(&mut out, "</description>\n");
    extend_str(&mut out, "<language>en</language>\n");
    extend_str(&mut out, "<itunes:explicit>no</itunes:explicit>\n");
    let ghost head = out@;
    let mut i: usize = 0;
    while i < feed.items.len()
        invariant
            i <= feed.items@.len(),
            out@ == head + items_xml(feed.items@.take(i as int)),
        decreases feed.items.len() - i,
    {
        push_item(&mut out, &feed.items[i]);
        assert(feed.items@.take(i + 1).drop_last() =~= feed.items@.take(i as int));
        i += 1;
        assert(out@ =~= head + items_xml(feed.items@.take(i as int)));
    }
    assert(feed.items@.take(i as int) =~= feed.items@);
    extend_str(&mut out, "</channel>\n</rss>\n");
    assert(out@ =~= render_spec(*feed));
    string_of(&out)
}

// ── Laws ─────────────────────────────────────────────────────────────────────

/// A character that may stand unescaped in XML text and attribute values.
pub open spec fn xml_safe_char(c: char) -> bool {
    c != '<' && c != '>' && c != '"' && c != '\'' && ((c as u32) >= 0x20 || c == '\t' || c
        == '\n' || c == '\r')
}

/// Law: escaped text holds no markup character, no quote and no control
/// character that XML 1.0 forbids.
pub proof fn lemma_xml_escape_safe(s: Seq<char>)
    ensures
        forall|i: int|
            0 <= i < xml_escape_spec(s).len() ==> xml_safe_char(#[trigger] xml_escape_spec(s)[i]),
    decreases s.len(),
{
    reveal_strlit("&amp;");
    reveal_strlit("&lt;");
    reveal_strlit("&gt;");
    reveal_strlit("&quot;");
    reveal_strlit("&apos;");
    if s.len() > 0 {
        lemma_xml_escape_safe(s.drop_last());
        let a = xml_escape_spec(s.drop_last());
        let b = xml_char(s.last());
        assert(forall|i: int| 0 <= i < b.len() ==> xml_safe_char(#[trigger] b[i]));
        assert forall|i: int| 0 <= i < xml_escape_spec(s).len() implies xml_safe_char(
            #[trigger] xml_escape_spec(s)[i],
        ) by {
            if i < a.len() {
                assert(xml_escape_spec(s)[i] == a[i]);
            } else {
                assert(xml_escape_spec(s)[i] == b[i - a.len()]);
            }
        }
    }
}

} // verus!
