//! Display formatting of the desktop window: file labels, upload dates,
//! clock durations and week labels of the statistics chart.

use vstd::prelude::*;
use crate::civil::{civil_of, epoch_day, walk_date};
use crate::disk_space::{div_round_even, f64_of, f64_value};
use crate::num::{all_digits, all_digits_vec, dec, dec_pad, is_digit, push_dec, push_dec_pad};
use crate::paths::{file_name, path_file_name};
use crate::text::{
    chars_of, contains, extend, extend_str, includes, slice, string_of, to_lowercase, trim, trim_vec,
    unicode_lower, utf8_len, utf8_width,
};
use crate::order::{is_perm, key_view, num_before, num_sorted, stable_order_num, stable_order_text, text_sorted};

verus! {

/// The label of a file: its file name, or the whole path without one.
pub fn file_label(path: &str) -> (r: String)
    ensures
        r@ == match path_file_name(path@) {
            Some(n) => n,
            None => path@,
        },
{
    match file_name(path) {
        Some(n) => n,
        None => String::from_str(path),
    }
}

/// A string of ASCII digits is as many bytes long as it has characters.
pub proof fn lemma_digits_utf8_len(s: Seq<char>)
    requires
        all_digits(s),
    ensures
        utf8_len(s) == s.len(),
    decreases s.len(),
{
    if s.len() > 0 {
        assert(all_digits(s.drop_last()));
        assert(is_digit(s[s.len() - 1]));
        lemma_digits_utf8_len(s.drop_last());
    }
}

/// `YYYY-MM-DD` of a `YYYYMMDD` date, or "" unless the input is at least
/// eight bytes of ASCII digits.
pub open spec fn upload_date_spec(s: Seq<char>) -> Seq<char> {
    if utf8_len(s) < 8 || !all_digits(s) {
        seq![]
    } else {
        s.take(4) + "-"@ + s.subrange(4, 6) + "-"@ + s.subrange(6, 8)
    }
}

/// Convert yt-dlp's `YYYYMMDD` upload date into `YYYY-MM-DD` for display;
/// the empty string when the input doesn't look like a date.
pub fn format_upload_date(yyyymmdd: &str) -> (r: String)
    ensures
        r@ == upload_date_spec(yyyymmdd@),
{
    let s = chars_of(yyyymmdd);
    if !all_digits_vec(&s) {
        return String::new();
    }
    proof {
        lemma_digits_utf8_len(s@);
    }
    if s.len() < 8 {
        return String::new();
    }
    let mut out: Vec<char> = Vec::new();
    extend(&mut out, &slice(&s, 0, 4));
    extend_str(&mut out, "-");
    extend(&mut out, &slice(&s, 4, 6));
    extend_str(&mut out, "-");
    extend(&mut out, &slice(&s, 6, 8));
    string_of(&out)
}

/// `H:MM:SS` when at least an hour, `M:SS` otherwise.
pub open spec fn clock_spec(secs: u64) -> Seq<char> {
    let h = secs / 3600;
    let m = (secs % 3600) / 60;
    let s = secs % 60;
    if h > 0 {
        dec(h as nat) + ":"@ + dec_pad(m as nat, 2) + ":"@ + dec_pad(s as nat, 2)
    } else {
        dec(m as nat) + ":"@ + dec_pad(s as nat, 2)
    }
}

/// Format whole seconds as `H:MM:SS` (or `M:SS` under an hour).
pub fn format_clock(secs: u64) -> (r: String)
    ensures
        r@ == clock_spec(secs),
{
    let h = secs / 3600;
    let m = (secs % 3600) / 60;
    let s = secs % 60;
    let mut out: Vec<char> = Vec::new();
    if h > 0 {
        push_dec(&mut out, h);
        extend_str(&mut out, ":");
        push_dec_pad(&mut out, m, 2);
    } else {
        push_dec(&mut out, m);
    }
    extend_str(&mut out, ":");
    push_dec_pad(&mut out, s, 2);
    string_of(&out)
}

/// `M/D` of the day containing UNIX second `unix`.
pub open spec fn week_label_spec(unix: int) -> Seq<char> {
    let d = civil_of(unix / 86400);
    dec(d.1 as nat) + "/"@ + dec(d.2 as nat)
}

/// Format a week-start UNIX time as `M/D` for a chart axis, walking the
/// calendar from 1970. The year must fit a `u32`.
pub fn week_label(unix: u64) -> (r: String)
    requires
        unix / 86400 <= epoch_day(u32::MAX as int, 12, 31),
    ensures
        r@ == week_label_spec(unix as int),
{
    let (_y, m, d) = walk_date(unix / 86400);
    let mut out: Vec<char> = Vec::new();
    push_dec(&mut out, m as u64);
    extend_str(&mut out, "/");
    push_dec(&mut out, d as u64);
    string_of(&out)
}

/// A file size for the video list: one decimal of GiB, else whole MiB or
/// KiB rounded (as `{:.0}` rounds the `f64` quotient, ties to even).
pub open spec fn format_size_spec(bytes: u64) -> Seq<char> {
    if bytes >= 1073741824 {
        let t = div_round_even(f64_of(bytes as nat) * 10, 1073741824);
        dec(t / 10) + "."@ + dec(t % 10) + " GB"@
    } else if bytes >= 1048576 {
        dec(div_round_even(bytes as nat, 1048576)) + " MB"@
    } else {
        dec(div_round_even(bytes as nat, 1024)) + " KB"@
    }
}

/// Format a file size: `1.4 GB`, `700 MB`, `12 KB`.
pub fn format_size(bytes: u64) -> (r: String)
    ensures
        r@ == format_size_spec(bytes),
{
    let mut out: Vec<char> = Vec::new();
    if bytes >= 1073741824 {
        let f = f64_value(bytes);
        let tq = (f * 10) / 1073741824;
        let tr = (f * 10) % 1073741824;
        let t: u128 = if 2 * tr > 1073741824 || (2 * tr == 1073741824 && tq % 2 == 1) {
            tq + 1
        } else {
            tq
        };
        assert(t == div_round_even(f64_of(bytes as nat) * 10, 1073741824));
        assert(t / 10 <= u64::MAX) by (nonlinear_arith)
            requires
                t <= tq + 1,
                tq == (f * 10) / 1073741824,
                f <= 0x1_0000_0000_0000_0000u128 * 4096,
        ;
        push_dec(&mut out, (t / 10) as u64);
        extend_str(&mut out, ".");
        push_dec(&mut out, (t % 10) as u64);
        extend_str(&mut out, " GB");
    } else {
        let d: u64 = if bytes >= 1048576 {
            1048576
        } else {
            1024
        };
        let q = bytes / d;
        let rem = bytes % d;
        let n = if 2 * rem > d || (2 * rem == d && q % 2 == 1) {
            q + 1
        } else {
            q
        };
        assert(n == div_round_even(bytes as nat, d as nat));
        push_dec(&mut out, n);
        if bytes >= 1048576 {
            extend_str(&mut out, " MB");
        } else {
            extend_str(&mut out, " KB");
        }
    }
    string_of(&out)
}

// ── The video grid ───────────────────────────────────────────────────────────

/// The search query as matched: trimmed, then lower-cased.
pub open spec fn query_key(query: Seq<char>) -> Seq<char> {
    unicode_lower(trim(query))
}

/// Whether a video shows for a search: an empty query shows everything,
/// else the lower-cased title or id must contain it.
pub fn card_matches(query: &str, title: &str, id: &str) -> (b: bool)
    ensures
        b == (query_key(query@).len() == 0 || contains(unicode_lower(title@), query_key(query@)) || contains(
            unicode_lower(id@),
            query_key(query@),
        )),
{
    let q = to_lowercase(string_of(&trim_vec(&chars_of(query))).as_str());
    if q.as_str().unicode_len() == 0 {
        return true;
    }
    let t = chars_of(to_lowercase(title).as_str());
    if includes(&t, q.as_str()) {
        return true;
    }
    let i = chars_of(to_lowercase(id).as_str());
    includes(&i, q.as_str())
}

/// The grid order for sorting by title: stable, by the lower-cased title.
pub fn order_by_title(titles: &Vec<String>) -> (p: Vec<usize>)
    ensures
        is_perm(p@, titles@.len()),
        forall|i: int, j: int| 0 <= i < j < p@.len() ==> crate::order::text_before(
            (false, unicode_lower(titles@[#[trigger] p@[i] as int]@)),
            (false, unicode_lower(titles@[#[trigger] p@[j] as int]@)),
            p@[i],
            p@[j],
            false,
        ),
{
    let mut keys: Vec<(bool, Vec<char>)> = Vec::new();
    let mut i: usize = 0;
    while i < titles.len()
        invariant
            i <= titles@.len(),
            keys@.len() == i,
            forall|k: int| 0 <= k < i ==> key_view(#[trigger] keys@[k]) == (false, unicode_lower(titles@[k]@)),
        decreases titles.len() - i,
    {
        keys.push((false, chars_of(to_lowercase(titles[i].as_str()).as_str())));
        i += 1;
    }
    stable_order_text(&keys, false)
}

/// The grid order for sorting by size: a stable sort by size (a missing
/// size counting as 0), reversed as a whole for largest first.
pub fn order_by_size(sizes: &Vec<Option<u64>>, largest_first: bool) -> (p: Vec<usize>)
    ensures
        is_perm(p@, sizes@.len()),
        ({
            let keys = sizes@.map_values(|s: Option<u64>| match s {
                Some(n) => n,
                None => 0u64,
            });
            let asc = if largest_first {
                p@.reverse()
            } else {
                p@
            };
            num_sorted(keys, asc, false)
        }),
{
    let mut keys: Vec<u64> = Vec::new();
    let mut i: usize = 0;
    while i < sizes.len()
        invariant
            i <= sizes@.len(),
            keys@ == sizes@.take(i as int).map_values(|s: Option<u64>| match s {
                Some(n) => n,
                None => 0u64,
            }),
        decreases sizes.len() - i,
    {
        let k: u64 = match sizes[i] {
            Some(n) => n,
            None => 0,
        };
        keys.push(k);
        i += 1;
        assert(keys@ =~= sizes@.take(i as int).map_values(|s: Option<u64>| match s {
            Some(n) => n,
            None => 0u64,
        }));
    }
    assert(sizes@.take(i as int) =~= sizes@);
    let asc = stable_order_num(&keys, false);
    if !largest_first {
        return asc;
    }
    let mut out: Vec<usize> = Vec::new();
    let mut k: usize = asc.len();
    while k > 0
        invariant
            k <= asc@.len(),
            out@ == asc@.skip(k as int).reverse(),
        decreases k,
    {
        k -= 1;
        out.push(asc[k]);
        assert(out@ =~= asc@.skip(k as int).reverse());
    }
    assert(asc@.skip(0) =~= asc@);
    assert(out@.reverse() =~= asc@);
    proof {
        assert forall|i: int, j: int| 0 <= i < j < out@.len() implies #[trigger] out@[i] != #[trigger] out@[j] by {
            assert(out@[i] == asc@[asc@.len() - 1 - i]);
            assert(out@[j] == asc@[asc@.len() - 1 - j]);
        }
        assert forall|i: int| 0 <= i < out@.len() implies #[trigger] out@[i] < sizes@.len() by {
            assert(out@[i] == asc@[asc@.len() - 1 - i]);
        }
    }
    out
}

/// The date key of a card: missing dates last when `missing_last`, else
/// a missing date counts as the empty string.
pub open spec fn date_key(d: Option<String>, missing_last: bool) -> (bool, Seq<char>) {
    match d {
        Some(s) => (false, s@),
        None => if missing_last {
            (true, seq![])
        } else {
            (false, seq![])
        },
    }
}

/// The grid order for sorting by upload date: newest first (a missing
/// date counting as the empty string, so last), or oldest first with
/// missing dates last; stable either way.
pub fn order_by_date(dates: &Vec<Option<String>>, newest_first: bool) -> (p: Vec<usize>)
    ensures
        is_perm(p@, dates@.len()),
        forall|i: int, j: int| 0 <= i < j < p@.len() ==> crate::order::text_before(
            date_key(dates@[#[trigger] p@[i] as int], !newest_first),
            date_key(dates@[#[trigger] p@[j] as int], !newest_first),
            p@[i],
            p@[j],
            newest_first,
        ),
{
    let mut keys: Vec<(bool, Vec<char>)> = Vec::new();
    let mut i: usize = 0;
    while i < dates.len()
        invariant
            i <= dates@.len(),
            keys@.len() == i,
            forall|k: int| 0 <= k < i ==> key_view(#[trigger] keys@[k]) == date_key(dates@[k], !newest_first),
        decreases dates.len() - i,
    {
        let key = match &dates[i] {
            Some(s) => (false, chars_of(s.as_str())),
            None => (!newest_first, Vec::new()),
        };
        keys.push(key);
        proof {
            assert(key_view(keys@[i as int]) == date_key(dates@[i as int], !newest_first));
        }
        i += 1;
    }
    stable_order_text(&keys, newest_first)
}

/// The "recent" view: the most recently modified videos first (stable),
/// at most 100.
pub fn recent_order(mtimes: &Vec<u64>) -> (p: Vec<usize>)
    ensures
        p@.len() == if mtimes@.len() < 100 {
            mtimes@.len()
        } else {
            100
        },
        forall|i: int| 0 <= i < p@.len() ==> #[trigger] p@[i] < mtimes@.len(),
        forall|i: int, j: int| 0 <= i < j < p@.len() ==> #[trigger] p@[i] != #[trigger] p@[j],
        num_sorted(mtimes@, p@, true),
        // Nothing left out is newer than what was kept.
        forall|i: int, x: int| 0 <= i < p@.len() && 0 <= x < mtimes@.len() && !p@.contains(x as usize) ==> #[trigger] mtimes@[x]
            <= mtimes@[#[trigger] p@[i] as int],
        // Every kept video precedes every video left out in the stable
        // newest-first order: among equal times the earlier ones are kept,
        // so the result is that order cut to its first 100.
        forall|i: int, x: int|
            0 <= i < p@.len() && 0 <= x < mtimes@.len() && !p@.contains(x as usize) ==> num_before(
                mtimes@[#[trigger] p@[i] as int],
                #[trigger] mtimes@[x],
                p@[i],
                x as usize,
                true,
            ),
{
    let all = stable_order_num(mtimes, true);
    let mut out: Vec<usize> = Vec::new();
    let mut i: usize = 0;
    while i < all.len() && i < 100
        invariant
            i <= all@.len(),
            i <= 100,
            out@ == all@.take(i as int),
        decreases all.len() - i,
    {
        out.push(all[i]);
        i += 1;
        assert(out@ =~= all@.take(i as int));
    }
    proof {
        assert forall|a: int, x: int| 0 <= a < out@.len() && 0 <= x < mtimes@.len() && !out@.contains(x as usize) implies #[trigger] mtimes@[x]
            <= mtimes@[#[trigger] out@[a] as int] by {
            crate::order::lemma_perm_covers(all@, mtimes@.len(), x);
            let w = choose|w: int| 0 <= w < all@.len() && all@[w] == x as usize;
            if w < out@.len() {
                assert(out@[w] == x as usize);
            } else {
                assert(all@[a] == out@[a]);
            }
        }
        assert forall|a: int, x: int| 0 <= a < out@.len() && 0 <= x < mtimes@.len() && !out@.contains(x as usize) implies num_before(
            mtimes@[#[trigger] out@[a] as int],
            #[trigger] mtimes@[x],
            out@[a],
            x as usize,
            true,
        ) by {
            crate::order::lemma_perm_covers(all@, mtimes@.len(), x);
            let w = choose|w: int| 0 <= w < all@.len() && all@[w] == x as usize;
            if w < out@.len() {
                assert(out@[w] == x as usize);
            } else {
                assert(all@[a] == out@[a]);
                assert(num_before(mtimes@[all@[a] as int], mtimes@[all@[w] as int], all@[a], all@[w], true));
            }
        }
    }
    out
}

/// What the video grid shows.
#[derive(Clone, Copy, Debug, PartialEq, Eq, Structural)]
pub enum GridView {
    /// The channel list (drawn on its own; no video cards).
    Channels,
    /// The music library (drawn on its own; no video cards).
    Music,
    /// Videos with a saved resume position.
    ContinueWatching,
    /// Videos with a known modification time.
    Recent,
    /// Every video.
    All,
    /// The videos of one channel, its playlists' included.
    Channel(usize),
    /// The videos of one playlist of one channel.
    Playlist(usize, usize),
}

/// Where a video sits in the library: its channel, and its playlist
/// (`None` for the channel's own list), with whether it has a saved resume
/// position, a known modification time, and matches the search box.
#[derive(Clone, Copy, Debug)]
pub struct GridSlot {
    pub channel: usize,
    pub playlist: Option<usize>,
    pub resumable: bool,
    pub has_mtime: bool,
    pub matches: bool,
}

/// The video in `slot` is shown in `view`.
pub open spec fn in_view(view: GridView, slot: GridSlot) -> bool {
    slot.matches && match view {
        GridView::Channels | GridView::Music => false,
        GridView::ContinueWatching => slot.resumable,
        GridView::Recent => slot.has_mtime,
        GridView::All => true,
        GridView::Channel(c) => slot.channel == c,
        GridView::Playlist(c, p) => slot.channel == c && slot.playlist == Some(p),
    }
}

/// The positions of `slots` shown in `view`, ascending.
pub open spec fn grid_spec(view: GridView, slots: Seq<GridSlot>) -> Seq<usize>
    decreases slots.len(),
{
    if slots.len() == 0 {
        seq![]
    } else {
        let prev = grid_spec(view, slots.drop_last());
        if in_view(view, slots.last()) {
            prev.push((slots.len() - 1) as usize)
        } else {
            prev
        }
    }
}

/// The cards of the grid before sorting: the positions (in library
/// order, channel by channel, each channel's own videos before its
/// playlists') of the videos `view` shows and the search matches.
pub fn grid_selection(view: GridView, slots: &Vec<GridSlot>) -> (r: Vec<usize>)
    ensures
        r@ == grid_spec(view, slots@),
{
    let mut out: Vec<usize> = Vec::new();
    let mut k: usize = 0;
    while k < slots.len()
        invariant
            k <= slots@.len(),
            out@ == grid_spec(view, slots@.take(k as int)),
        decreases slots.len() - k,
    {
        let s = slots[k];
        let shown = s.matches && match view {
            GridView::Channels | GridView::Music => false,
            GridView::ContinueWatching => s.resumable,
            GridView::Recent => s.has_mtime,
            GridView::All => true,
            GridView::Channel(c) => s.channel == c,
            GridView::Playlist(c, p) => s.channel == c && match s.playlist {
                Some(q) => q == p,
                None => false,
            },
        };
        assert(slots@.take(k as int + 1).drop_last() =~= slots@.take(k as int));
        assert(slots@.take(k as int + 1).last() == s);
        if shown {
            out.push(k);
        }
        k += 1;
    }
    assert(slots@.take(slots@.len() as int) =~= slots@);
    out
}

} // verus!
