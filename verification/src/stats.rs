//! Pieces of the library statistics report: the histogram rows and the
//! calendar arithmetic that buckets downloads by week.

use vstd::prelude::*;
use crate::num::{parse_u32, parse_u32_vec};
use crate::order::{is_perm, num_sorted, stable_order_num};
use crate::text::{chars_at_byte, chars_at_byte_exec, chars_of, slice, utf8_len};

verus! {

/// One column of the per-year upload histogram.
#[derive(Clone, Debug)]
pub struct YearStat {
    pub year: u32,
    pub count: usize,
}

/// One column of the per-week download-activity histogram.
///
/// `week_start_unix` is the UNIX time of the Monday 00:00 UTC that begins
/// the bucket, so clients can format the label in any locale.
#[derive(Clone, Debug)]
pub struct WeekStat {
    pub week_start_unix: u64,
    pub count: usize,
    pub size_bytes: u64,
}

/// 1970-01-05 00:00 UTC, the first Monday after the epoch.
pub const FIRST_MONDAY: u64 = 345600;

/// Seconds in a week.
pub const WEEK_SECS: u64 = 604800;

/// The Monday 00:00 UTC that begins the week containing `t` (0 before the
/// first Monday).
pub open spec fn monday_start_spec(t: int) -> int {
    if t < FIRST_MONDAY {
        0
    } else {
        FIRST_MONDAY + ((t - FIRST_MONDAY) / (WEEK_SECS as int)) * WEEK_SECS
    }
}

/// Return the UNIX timestamp of the Monday 00:00 UTC that begins the week
/// containing `t_unix`, anchored at 1970-01-05 (a Monday).
pub fn monday_start(t_unix: u64) -> (r: u64)
    ensures
        r == monday_start_spec(t_unix as int),
        t_unix >= FIRST_MONDAY ==> r <= t_unix < r + WEEK_SECS,
        t_unix >= FIRST_MONDAY ==> (r - FIRST_MONDAY) % (WEEK_SECS as int) == 0,
{
    if t_unix < FIRST_MONDAY {
        return 0;
    }
    let offset = (t_unix - FIRST_MONDAY) / WEEK_SECS;
    proof {
        vstd::arithmetic::div_mod::lemma_fundamental_div_mod(
            (t_unix - FIRST_MONDAY) as int,
            WEEK_SECS as int,
        );
        vstd::arithmetic::div_mod::lemma_mod_multiples_basic(offset as int, WEEK_SECS as int);
    }
    FIRST_MONDAY + offset * WEEK_SECS
}

/// The current UNIX time in seconds, as the system clock reports it (0 if
/// the clock reads before 1970). Wraps `SystemTime::now` and
/// `SystemTime::duration_since(UNIX_EPOCH)`; nothing is claimed of the
/// reading.
#[verifier::external_body]
pub fn now_unix() -> u64 {
    match std::time::SystemTime::now().duration_since(std::time::UNIX_EPOCH) {
        Ok(d) => d.as_secs(),
        Err(_) => 0,
    }
}

// ── Report pieces ────────────────────────────────────────────────────────────

/// Rows in each top-N channel table.
pub const TOP_N: usize = 10;

/// Weeks shown in the download-activity histogram.
pub const RECENT_WEEKS: u64 = 12;

/// The first `n` positions of a stable largest-first order of `keys`.
pub fn top_n(keys: &Vec<u64>, n: usize) -> (p: Vec<usize>)
    ensures
        p@.len() == if keys@.len() < n {
            keys@.len()
        } else {
            n as nat
        },
        forall|i: int| 0 <= i < p@.len() ==> #[trigger] p@[i] < keys@.len(),
        forall|i: int, j: int| 0 <= i < j < p@.len() ==> #[trigger] p@[i] != #[trigger] p@[j],
        num_sorted(keys@, p@, true),
        forall|i: int, x: int| 0 <= i < p@.len() && 0 <= x < keys@.len() && !p@.contains(x as usize) ==> #[trigger] keys@[x]
            <= keys@[#[trigger] p@[i] as int],
{
    let all = stable_order_num(keys, true);
    let mut out: Vec<usize> = Vec::new();
    let mut i: usize = 0;
    while i < all.len() && i < n
        invariant
            i <= all@.len(),
            i <= n,
            out@ == all@.take(i as int),
        decreases all.len() - i,
    {
        out.push(all[i]);
        i += 1;
        assert(out@ =~= all@.take(i as int));
    }
    proof {
        assert forall|a: int, x: int| 0 <= a < out@.len() && 0 <= x < keys@.len() && !out@.contains(x as usize) implies #[trigger] keys@[x]
            <= keys@[#[trigger] out@[a] as int] by {
            crate::order::lemma_perm_covers(all@, keys@.len(), x);
            let w = choose|w: int| 0 <= w < all@.len() && all@[w] == x as usize;
            if w < out@.len() {
                assert(out@[w] == x as usize);
            } else {
                assert(all@[a] == out@[a]);
            }
        }
    }
    out
}

/// The year of an upload date: its first four bytes as a number, when it
/// has that many bytes.
pub open spec fn upload_year_spec(d: Seq<char>) -> Option<u32> {
    if utf8_len(d) >= 4 {
        parse_u32(d.take(chars_at_byte(d, 4)->0))
    } else {
        None
    }
}

/// The year of an upload date `YYYYMMDD`. The first four bytes must end
/// on a character boundary.
pub fn upload_year(d: &str) -> (r: Option<u32>)
    requires
        utf8_len(d@) >= 4 ==> chars_at_byte(d@, 4) is Some,
    ensures
        r == upload_year_spec(d@),
{
    let v = chars_of(d);
    match chars_at_byte_exec(&v, 4) {
        Some(k) => {
            proof {
                crate::text::lemma_utf8_len_take_mono(v@, k as int, v@.len() as int);
            }
            assert(v@.take(v@.len() as int) =~= v@);
            parse_u32_vec(&slice(&v, 0, k))
        },
        None => None,
    }
}

/// How many of `years` are `y`.
pub open spec fn year_count(years: Seq<Option<u32>>, y: u32) -> nat
    decreases years.len(),
{
    if years.len() == 0 {
        0
    } else {
        year_count(years.drop_last(), y) + if years.last() == Some(y) {
            1nat
        } else {
            0
        }
    }
}

/// The per-year histogram: one row per year that occurs, in increasing
/// year order, with its number of videos.
pub fn year_histogram(years: &Vec<Option<u32>>) -> (r: Vec<YearStat>)
    ensures
        forall|a: int, b: int| 0 <= a < b < r@.len() ==> (#[trigger] r@[a]).year < (#[trigger] r@[b]).year,
        forall|a: int| 0 <= a < r@.len() ==> (#[trigger] r@[a]).count == year_count(years@, r@[a].year) && r@[a].count
            >= 1,
        forall|y: u32| year_count(years@, y) > 0 ==> exists|a: int| 0 <= a < r@.len() && #[trigger] r@[a].year == y,
{
    let mut out: Vec<YearStat> = Vec::new();
    let mut n: usize = 0;
    while n < years.len()
        invariant
            n <= years@.len(),
            forall|a: int, b: int| 0 <= a < b < out@.len() ==> (#[trigger] out@[a]).year < (#[trigger] out@[b]).year,
            forall|a: int| 0 <= a < out@.len() ==> (#[trigger] out@[a]).count == year_count(years@.take(n as int), out@[a].year)
                && out@[a].count >= 1,
            forall|y: u32| year_count(years@.take(n as int), y) > 0 ==> exists|a: int| 0 <= a < out@.len() && #[trigger] out@[a].year == y,
            out@.len() <= n,
        decreases years.len() - n,
    {
        let ghost pre = years@.take(n as int);
        assert(years@.take(n + 1).drop_last() =~= pre);
        let ghost old_out = out@;
        if let Some(y) = years[n] {
            let mut j: usize = 0;
            while j < out.len() && out[j].year < y
                invariant
                    j <= out@.len(),
                    out@ == old_out,
                    forall|a: int| 0 <= a < j ==> (#[trigger] out@[a]).year < y,
                decreases out.len() - j,
            {
                j += 1;
            }
            if j < out.len() && out[j].year == y {
                let c = out[j].count;
                assert(c == year_count(pre, y));
                proof {
                    lemma_year_count_le(pre, y);
                }
                out.set(j, YearStat { year: y, count: c + 1 });
                proof {
                    assert forall|a: int| 0 <= a < out@.len() implies (#[trigger] out@[a]).count == year_count(
                        years@.take(n + 1),
                        out@[a].year,
                    ) && out@[a].count >= 1 by {
                        if a != j {
                            assert(out@[a] == old_out[a]);
                        }
                    }
                    assert forall|yy: u32| #[trigger] year_count(years@.take(n + 1), yy) > 0 implies exists|a: int| 0 <= a < out@.len()
                        && #[trigger] out@[a].year == yy by {
                        if yy == y {
                            assert(out@[j as int].year == yy);
                        } else {
                            assert(year_count(years@.take(n as int), yy) > 0);
                            let a = choose|a: int| 0 <= a < old_out.len() && #[trigger] old_out[a].year == yy;
                            assert(out@[a].year == yy);
                        }
                    }
                }
            } else {
                proof {
                    assert(year_count(pre, y) == 0) by {
                        if year_count(pre, y) > 0 {
                            let a = choose|a: int| 0 <= a < old_out.len() && #[trigger] old_out[a].year == y;
                            if a >= j {
                                if j < old_out.len() {
                                    assert(old_out[j as int].year <= old_out[a].year);
                                }
                            }
                        }
                    }
                }
                out.insert(j, YearStat { year: y, count: 1 });
                proof {
                    assert(out@ =~= old_out.insert(j as int, YearStat { year: y, count: 1 }));
                    assert forall|a: int, b: int| 0 <= a < b < out@.len() implies (#[trigger] out@[a]).year < (
                    #[trigger] out@[b]).year by {
                        if b < j {
                        } else if b == j {
                        } else if a < j {
                            assert(out@[b] == old_out[b - 1]);
                            if j < old_out.len() {
                                assert(old_out[j as int].year > y);
                            }
                        } else if a == j {
                            assert(out@[b] == old_out[b - 1]);
                            assert(old_out[j as int].year > y);
                        } else {
                            assert(out@[a] == old_out[a - 1] && out@[b] == old_out[b - 1]);
                        }
                    }
                    assert forall|a: int| 0 <= a < out@.len() implies (#[trigger] out@[a]).count == year_count(
                        years@.take(n + 1),
                        out@[a].year,
                    ) && out@[a].count >= 1 by {
                        if a < j {
                            assert(out@[a] == old_out[a]);
                        } else if a > j {
                            assert(out@[a] == old_out[a - 1]);
                        }
                    }
                    assert forall|yy: u32| #[trigger] year_count(years@.take(n + 1), yy) > 0 implies exists|a: int| 0 <= a < out@.len()
                        && #[trigger] out@[a].year == yy by {
                        if yy == y {
                            assert(out@[j as int].year == yy);
                        } else {
                            assert(year_count(years@.take(n as int), yy) > 0);
                            let a = choose|a: int| 0 <= a < old_out.len() && #[trigger] old_out[a].year == yy;
                            if a < j {
                                assert(out@[a].year == yy);
                            } else {
                                assert(out@[a + 1].year == yy);
                            }
                        }
                    }
                }
            }
        } else {
            proof {
                assert forall|yy: u32| #[trigger] year_count(years@.take(n + 1), yy) > 0 implies exists|a: int| 0 <= a < out@.len()
                    && #[trigger] out@[a].year == yy by {
                    assert(year_count(years@.take(n as int), yy) > 0);
                }
                assert forall|a: int| 0 <= a < out@.len() implies (#[trigger] out@[a]).count == year_count(
                    years@.take(n + 1),
                    out@[a].year,
                ) by {
                }
            }
        }
        n += 1;
    }
    assert(years@.take(n as int) =~= years@);
    out
}

/// The first week shown: eleven weeks before the current one (0 if that
/// would be before the epoch).
pub open spec fn oldest_week_spec(now: u64) -> int {
    let w = monday_start_spec(now as int);
    if w >= (WEEK_SECS * (RECENT_WEEKS - 1)) as int {
        w - WEEK_SECS * (RECENT_WEEKS - 1)
    } else {
        0
    }
}

/// Downloads `(mtime, size)` in `items` that fall in the week starting
/// at `week`, counted from the window start `oldest`.
pub open spec fn in_week(item: (u64, u64), oldest: int, week: int) -> bool {
    item.0 >= oldest && monday_start_spec(item.0 as int) == week
}

/// How many of `items` were downloaded in the week starting at `week`.
pub open spec fn week_count(items: Seq<(u64, u64)>, oldest: int, week: int) -> nat
    decreases items.len(),
{
    if items.len() == 0 {
        0
    } else {
        week_count(items.drop_last(), oldest, week) + if in_week(items.last(), oldest, week) {
            1nat
        } else {
            0
        }
    }
}

/// The bytes downloaded in the week starting at `week`.
pub open spec fn week_bytes(items: Seq<(u64, u64)>, oldest: int, week: int) -> nat
    decreases items.len(),
{
    if items.len() == 0 {
        0
    } else {
        week_bytes(items.drop_last(), oldest, week) + if in_week(items.last(), oldest, week) {
            items.last().1 as nat
        } else {
            0
        }
    }
}

/// The total size of all items.
pub open spec fn total_bytes(items: Seq<(u64, u64)>) -> nat
    decreases items.len(),
{
    if items.len() == 0 {
        0
    } else {
        total_bytes(items.drop_last()) + items.last().1 as nat
    }
}

proof fn lemma_week_bytes_bounded(items: Seq<(u64, u64)>, oldest: int, week: int)
    ensures
        week_bytes(items, oldest, week) <= total_bytes(items),
        week_count(items, oldest, week) <= items.len(),
    decreases items.len(),
{
    if items.len() > 0 {
        lemma_week_bytes_bounded(items.drop_last(), oldest, week);
    }
}

/// The download-activity histogram at time `now`: the twelve weeks up to
/// the current one, oldest first, each with the number and total size of
/// the videos whose file was written in it (`items` are `(mtime, size)`).
/// Empty weeks are listed too.
pub fn week_histogram(now: u64, items: &Vec<(u64, u64)>) -> (r: Vec<WeekStat>)
    requires
        total_bytes(items@) <= u64::MAX,
    ensures
        r@.len() == RECENT_WEEKS,
        forall|k: int| 0 <= k < r@.len() ==> {
            let week = oldest_week_spec(now) + k * WEEK_SECS;
            &&& (#[trigger] r@[k]).week_start_unix == week
            &&& r@[k].count == week_count(items@, oldest_week_spec(now), week)
            &&& r@[k].size_bytes == week_bytes(items@, oldest_week_spec(now), week)
        },
{
    let w = monday_start(now);
    let oldest: u64 = if w >= WEEK_SECS * (RECENT_WEEKS - 1) {
        w - WEEK_SECS * (RECENT_WEEKS - 1)
    } else {
        0
    };
    let mut out: Vec<WeekStat> = Vec::new();
    let mut k: u64 = 0;
    while k < RECENT_WEEKS
        invariant
            k <= RECENT_WEEKS,
            oldest == oldest_week_spec(now),
            oldest <= now,
            total_bytes(items@) <= u64::MAX,
            out@.len() == k,
            forall|a: int| 0 <= a < out@.len() ==> {
                let week = oldest_week_spec(now) + a * WEEK_SECS;
                &&& (#[trigger] out@[a]).week_start_unix == week
                &&& out@[a].count == week_count(items@, oldest_week_spec(now), week)
                &&& out@[a].size_bytes == week_bytes(items@, oldest_week_spec(now), week)
            },
        decreases RECENT_WEEKS - k,
    {
        let week: u64 = oldest + k * WEEK_SECS;
        let mut count: usize = 0;
        let mut size: u64 = 0;
        let mut i: usize = 0;
        while i < items.len()
            invariant
                i <= items@.len(),
                week == oldest_week_spec(now) + k * WEEK_SECS,
                oldest == oldest_week_spec(now),
                total_bytes(items@) <= u64::MAX,
                count == week_count(items@.take(i as int), oldest as int, week as int),
                size == week_bytes(items@.take(i as int), oldest as int, week as int),
                count <= i,
            decreases items.len() - i,
        {
            assert(items@.take(i + 1).drop_last() =~= items@.take(i as int));
            let (mtime, sz) = items[i];
            proof {
                lemma_week_bytes_bounded(items@.take(i + 1), oldest as int, week as int);
                lemma_total_bytes_prefix(items@, i + 1);
            }
            if mtime >= oldest && monday_start(mtime) == week {
                count += 1;
                size = size + sz;
            }
            i += 1;
        }
        assert(items@.take(i as int) =~= items@);
        out.push(WeekStat { week_start_unix: week, count, size_bytes: size });
        k += 1;
    }
    out
}

proof fn lemma_total_bytes_prefix(items: Seq<(u64, u64)>, n: int)
    requires
        0 <= n <= items.len(),
    ensures
        total_bytes(items.take(n)) <= total_bytes(items),
    decreases items.len(),
{
    if n == items.len() {
        assert(items.take(n) =~= items);
    } else {
        lemma_total_bytes_prefix(items.drop_last(), n);
        assert(items.drop_last().take(n) =~= items.take(n));
    }
}

proof fn lemma_year_count_le(years: Seq<Option<u32>>, y: u32)
    ensures
        year_count(years, y) <= years.len(),
    decreases years.len(),
{
    if years.len() > 0 {
        lemma_year_count_le(years.drop_last(), y);
    }
}

/// The integer totals of a list of videos.
#[derive(Clone, Copy, Debug)]
pub struct VideoTotals {
    pub videos: u64,
    pub size_bytes: u64,
    pub watched: u64,
}

/// The sum of the known sizes (unknown ones count 0).
pub open spec fn size_sum(sizes: Seq<Option<u64>>) -> int
    decreases sizes.len(),
{
    if sizes.len() == 0 {
        0
    } else {
        size_sum(sizes.drop_last()) + match sizes.last() {
            Some(s) => s as int,
            None => 0,
        }
    }
}

/// How many entries are `true`.
pub open spec fn count_true(flags: Seq<bool>) -> int
    decreases flags.len(),
{
    if flags.len() == 0 {
        0
    } else {
        count_true(flags.drop_last()) + if flags.last() {
            1int
        } else {
            0
        }
    }
}

proof fn lemma_size_sum_prefix(sizes: Seq<Option<u64>>, k: int)
    requires
        0 <= k <= sizes.len(),
    ensures
        0 <= size_sum(sizes.take(k)) <= size_sum(sizes),
    decreases sizes.len(),
{
    if k < sizes.len() {
        assert(sizes.drop_last().take(k) =~= sizes.take(k));
        lemma_size_sum_prefix(sizes.drop_last(), k);
    } else {
        assert(sizes.take(k) =~= sizes);
        lemma_size_sum_nonneg(sizes);
    }
}

proof fn lemma_size_sum_nonneg(sizes: Seq<Option<u64>>)
    ensures
        size_sum(sizes) >= 0,
    decreases sizes.len(),
{
    if sizes.len() > 0 {
        lemma_size_sum_nonneg(sizes.drop_last());
    }
}

proof fn lemma_count_true_bound(flags: Seq<bool>)
    ensures
        0 <= count_true(flags) <= flags.len(),
    decreases flags.len(),
{
    if flags.len() > 0 {
        lemma_count_true_bound(flags.drop_last());
    }
}

/// How many videos, their total known size, and how many are watched;
/// `sizes[k]` and `watched[k]` describe video `k`. The total size must
/// fit in 64 bits.
pub fn video_totals(sizes: &Vec<Option<u64>>, watched: &Vec<bool>) -> (r: VideoTotals)
    requires
        sizes@.len() == watched@.len(),
        size_sum(sizes@) <= u64::MAX,
    ensures
        r.videos == sizes@.len(),
        r.size_bytes == size_sum(sizes@),
        r.watched == count_true(watched@),
{
    let mut size: u64 = 0;
    let mut seen: u64 = 0;
    let mut k: usize = 0;
    while k < sizes.len()
        invariant
            k <= sizes@.len(),
            sizes@.len() == watched@.len(),
            size_sum(sizes@) <= u64::MAX,
            size == size_sum(sizes@.take(k as int)),
            seen == count_true(watched@.take(k as int)),
            seen <= k,
        decreases sizes.len() - k,
    {
        assert(sizes@.take(k as int + 1).drop_last() =~= sizes@.take(k as int));
        assert(watched@.take(k as int + 1).drop_last() =~= watched@.take(k as int));
        proof {
            lemma_size_sum_prefix(sizes@, k as int + 1);
        }
        if let Some(s) = sizes[k] {
            size = size + s;
        }
        if watched[k] {
            seen = seen + 1;
        }
        k += 1;
    }
    assert(sizes@.take(sizes@.len() as int) =~= sizes@);
    assert(watched@.take(watched@.len() as int) =~= watched@);
    VideoTotals { videos: sizes.len() as u64, size_bytes: size, watched: seen }
}

} // verus!
