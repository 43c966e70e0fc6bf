//! Proleptic Gregorian calendar arithmetic on days since 1970-01-01,
//! without a date library.
//!
//! The specification counts days directly (years of 365 or 366 days,
//! months by the usual table); the executable code uses Howard Hinnant's
//! branch-light `days_from_civil` / `civil_from_days`, and the proofs show
//! that the two agree.

use vstd::prelude::*;
use vstd::arithmetic::div_mod::{lemma_fundamental_div_mod, lemma_fundamental_div_mod_converse};

verus! {

/// Gregorian leap year.
pub open spec fn leap(y: int) -> bool {
    (y % 4 == 0 && y % 100 != 0) || y % 400 == 0
}

/// Days in month `m` (1–12) of year `y`.
pub open spec fn month_len(y: int, m: int) -> int {
    if m == 2 {
        if leap(y) {
            29
        } else {
            28
        }
    } else if m == 4 || m == 6 || m == 9 || m == 11 {
        30
    } else {
        31
    }
}

/// Days of year `y` before the first of month `m` (1–12).
pub open spec fn days_before_month(y: int, m: int) -> int {
    let base: int = if m == 1 {
        0
    } else if m == 2 {
        31
    } else if m == 3 {
        59
    } else if m == 4 {
        90
    } else if m == 5 {
        120
    } else if m == 6 {
        151
    } else if m == 7 {
        181
    } else if m == 8 {
        212
    } else if m == 9 {
        243
    } else if m == 10 {
        273
    } else if m == 11 {
        304
    } else {
        334
    };
    base + if m > 2 && leap(y) {
        1int
    } else {
        0int
    }
}

/// A count of leap years that grows by one exactly after each leap year:
/// `leaps_before(y + 1) - leaps_before(y)` is 1 when `y` is leap, else 0.
pub open spec fn leaps_before(y: int) -> int {
    (y - 1) / 4 - (y - 1) / 100 + (y - 1) / 400
}

/// Days from 1970-01-01 to January 1st of year `y` (negative before 1970).
pub open spec fn days_before_year(y: int) -> int {
    365 * (y - 1970) + leaps_before(y) - leaps_before(1970)
}

/// Days from 1970-01-01 to `y-m-d`. Linear in `d`, so a day past the end of
/// the month counts on into the next one.
pub open spec fn epoch_day(y: int, m: int, d: int) -> int {
    days_before_year(y) + days_before_month(y, m) + d - 1
}

/// `y-m-d` is a real calendar date.
pub open spec fn valid_date(y: int, m: int, d: int) -> bool {
    1 <= m <= 12 && 1 <= d <= month_len(y, m)
}

/// Whether `y` is a leap year.
pub fn is_leap(y: u32) -> (b: bool)
    ensures
        b == leap(y as int),
{
    (y % 4 == 0 && y % 100 != 0) || y % 400 == 0
}

/// `(d * q + x) / d == q + x / d`.
pub proof fn lemma_div_shift(x: int, q: int, d: int)
    requires
        d > 0,
    ensures
        (d * q + x) / d == q + x / d,
        (d * q + x) % d == x % d,
{
    lemma_fundamental_div_mod(x, d);
    let r = x % d;
    assert(d * q + x == (q + x / d) * d + r) by (nonlinear_arith)
        requires
            x == d * (x / d) + r,
    ;
    lemma_fundamental_div_mod_converse(d * q + x, d, q + x / d, r);
}

/// Leap-year counting step: `leaps_before(y + 1) - leaps_before(y)`.
pub proof fn lemma_leaps_step(y: int)
    ensures
        leaps_before(y + 1) == leaps_before(y) + if leap(y) {
            1int
        } else {
            0int
        },
{
    lemma_div_step(y - 1, 4);
    lemma_div_step(y - 1, 100);
    lemma_div_step(y - 1, 400);
    assert(y % 4 == 0 ==> (y % 100 == 0 ==> true));
    lemma_mod_link(y);
}

/// `(x + 1) / d` is `x / d + 1` exactly when `d` divides `x + 1`.
proof fn lemma_div_step(x: int, d: int)
    requires
        d > 0,
    ensures
        (x + 1) / d == x / d + if (x + 1) % d == 0 {
            1int
        } else {
            0int
        },
{
    lemma_fundamental_div_mod(x, d);
    vstd::arithmetic::div_mod::lemma_mod_bound(x, d);
    let q = x / d;
    let r = x % d;
    if r + 1 == d {
        assert(x + 1 == (q + 1) * d + 0) by (nonlinear_arith)
            requires
                x == d * q + r,
                r + 1 == d,
        ;
        lemma_fundamental_div_mod_converse(x + 1, d, q + 1, 0);
    } else {
        assert(x + 1 == q * d + (r + 1)) by (nonlinear_arith)
            requires
                x == d * q + r,
        ;
        lemma_fundamental_div_mod_converse(x + 1, d, q, r + 1);
    }
}

/// Divisibility by 100 and 400 implies divisibility by 4 and 100.
proof fn lemma_mod_link(y: int)
    ensures
        y % 100 == 0 ==> y % 4 == 0,
        y % 400 == 0 ==> y % 100 == 0,
{
    lemma_fundamental_div_mod(y, 100);
    lemma_fundamental_div_mod(y, 400);
    if y % 100 == 0 {
        lemma_div_shift(0, 25 * (y / 100), 4);
        assert(y == 4 * (25 * (y / 100)) + 0);
    }
    if y % 400 == 0 {
        lemma_div_shift(0, 4 * (y / 400), 100);
        assert(y == 100 * (4 * (y / 400)) + 0);
    }
}

/// Consecutive years differ by the length of the earlier one.
pub proof fn lemma_year_step(y: int)
    ensures
        days_before_year(y + 1) == days_before_year(y) + if leap(y) {
            366int
        } else {
            365int
        },
{
    lemma_leaps_step(y);
}

// ── Hinnant's `days_from_civil` ─────────────────────────────────────────────

/// Day of the March-based year at which month `mp` (0 = March) starts.
pub open spec fn march_doy(mp: int) -> int {
    (153 * mp + 2) / 5
}

/// Hinnant's `days_from_civil`, term by term.
pub open spec fn hinnant_days(y: int, m: int, d: int) -> int {
    let y2 = if m <= 2 {
        y - 1
    } else {
        y
    };
    let era = y2 / 400;
    let yoe = y2 - era * 400;
    let mp = if m > 2 {
        m - 3
    } else {
        m + 9
    };
    let doy = march_doy(mp) + d - 1;
    let doe = yoe * 365 + yoe / 4 - yoe / 100 + doy;
    era * 146097 + doe - 719468
}

/// The era/year-of-era split does not change the day count of a year.
proof fn lemma_era_split(y2: int)
    ensures
        (y2 / 400) * 146097 + (y2 - (y2 / 400) * 400) * 365 + (y2 - (y2 / 400) * 400) / 4 - (y2
            - (y2 / 400) * 400) / 100 == 365 * y2 + y2 / 4 - y2 / 100 + y2 / 400,
{
    let era = y2 / 400;
    lemma_fundamental_div_mod(y2, 400);
    let yoe = y2 % 400;
    assert(y2 - era * 400 == yoe) by (nonlinear_arith)
        requires
            y2 == 400 * era + yoe,
    ;
    lemma_div_shift(yoe, 100 * era, 4);
    lemma_div_shift(yoe, 4 * era, 100);
    assert(y2 == 4 * (100 * era) + yoe) by (nonlinear_arith)
        requires
            y2 == 400 * era + yoe,
    ;
    assert(y2 == 100 * (4 * era) + yoe) by (nonlinear_arith)
        requires
            y2 == 400 * era + yoe,
    ;
    assert(era * 146097 + yoe * 365 == 365 * y2 + 100 * era - 4 * era + era) by (nonlinear_arith)
        requires
            y2 == 400 * era + yoe,
    ;
}

/// Hinnant's formula counts days exactly as [`epoch_day`] does.
pub proof fn lemma_hinnant_days(y: int, m: int, d: int)
    requires
        1 <= m <= 12,
    ensures
        hinnant_days(y, m, d) == epoch_day(y, m, d),
{
    let y2 = if m <= 2 {
        y - 1
    } else {
        y
    };
    lemma_era_split(y2);
    lemma_leaps_step(y - 1);
    assert(leaps_before(1970) == 477);
    assert(y2 + 1 - 1 == y2);
    // leaps_before(y2 + 1) == y2/4 - y2/100 + y2/400
    assert(leaps_before(y2 + 1) == y2 / 4 - y2 / 100 + y2 / 400);
    if m <= 2 {
        assert(leaps_before(y) == y2 / 4 - y2 / 100 + y2 / 400);
    } else {
        lemma_leaps_step(y);
        assert(leaps_before(y + 1) == y2 / 4 - y2 / 100 + y2 / 400);
    }
    assert(march_doy(0) == 0 && march_doy(1) == 31 && march_doy(2) == 61 && march_doy(3) == 92
        && march_doy(4) == 122 && march_doy(5) == 153 && march_doy(6) == 184 && march_doy(7) == 214
        && march_doy(8) == 245 && march_doy(9) == 275 && march_doy(10) == 306 && march_doy(11)
        == 337);
}

/// Days since 1970-01-01 of `y-m-d` for a month in 1–12 and a day in 1–31
/// (Hinnant's `days_from_civil`).
pub fn days_from_civil(y: i64, m: i64, d: i64) -> (r: i64)
    requires
        -1000000000000 <= y <= 1000000000000,
        1 <= m <= 12,
        1 <= d <= 31,
    ensures
        r == epoch_day(y as int, m as int, d as int),
{
    let y2 = if m <= 2 {
        y - 1
    } else {
        y
    };
    let era: i64 = if y2 >= 0 {
        y2 / 400
    } else {
        -((399 - y2) / 400)
    };
    proof {
        if y2 < 0 {
            lemma_fundamental_div_mod(399 - y2, 400);
            lemma_fundamental_div_mod(y2 as int, 400);
            let q = (399 - y2) / 400;
            let r = (399 - y2) % 400;
            assert(y2 == 400 * (-q) + (399 - r));
            lemma_fundamental_div_mod_converse(y2 as int, 400, -q, 399 - r);
        }
    }
    assert(era == y2 / 400);
    let yoe = y2 - era * 400;
    assert(0 <= yoe < 400) by {
        lemma_fundamental_div_mod(y2 as int, 400);
    }
    let mp = if m > 2 {
        m - 3
    } else {
        m + 9
    };
    let doy = (153 * mp + 2) / 5 + d - 1;
    let doe = yoe * 365 + yoe / 4 - yoe / 100 + doy;
    proof {
        lemma_hinnant_days(y as int, m as int, d as int);
    }
    era * 146097 + doe - 719468
}

// ── From a day count back to a calendar date ────────────────────────────────

/// Days in year `y`.
pub open spec fn year_len(y: int) -> int {
    if leap(y) {
        366
    } else {
        365
    }
}

/// Days in year `y`.
pub fn year_length(y: i64) -> (r: i64)
    ensures
        r == year_len(y as int),
{
    if (y % 4 == 0 && y % 100 != 0) || y % 400 == 0 {
        366
    } else {
        365
    }
}

/// Consecutive months differ by the length of the earlier one, and the
/// twelve months fill the year.
pub proof fn lemma_month_step(y: int, m: int)
    requires
        1 <= m <= 12,
    ensures
        m < 12 ==> days_before_month(y, m + 1) == days_before_month(y, m) + month_len(y, m),
        m == 12 ==> days_before_month(y, m) + month_len(y, m) == year_len(y),
        days_before_month(y, 1) == 0,
{
}

/// Days in month `m` of year `y`, given whether `y` is a leap year.
fn month_length(y: i64, ly: bool, m: i64) -> (r: i64)
    requires
        ly == leap(y as int),
        1 <= m <= 12,
    ensures
        r == month_len(y as int, m as int),
{
    if m == 2 {
        if ly {
            29
        } else {
            28
        }
    } else if m == 4 || m == 6 || m == 9 || m == 11 {
        30
    } else {
        31
    }
}

/// Day `d` (0-based `rem`) of month `m` of year `y` as found by walking
/// months from January.
pub fn month_and_day(y: i64, rem: i64) -> (r: (i64, i64))
    requires
        0 <= rem < year_len(y as int),
    ensures
        valid_date(y as int, r.0 as int, r.1 as int),
        days_before_month(y as int, r.0 as int) + r.1 - 1 == rem,
{
    let ly = (y % 4 == 0 && y % 100 != 0) || y % 400 == 0;
    let mut m: i64 = 1;
    let mut left = rem;
    loop
        invariant
            1 <= m <= 12,
            0 <= left,
            ly == leap(y as int),
            days_before_month(y as int, m as int) + left == rem,
            rem < year_len(y as int),
        decreases 12 - m,
    {
        let ml = month_length(y, ly, m);
        proof {
            lemma_month_step(y as int, m as int);
        }
        if left < ml {
            return (m, left + 1);
        }
        left = left - ml;
        m = m + 1;
    }
}

/// The calendar date of day `z` since 1970-01-01 (the inverse of
/// [`days_from_civil`]): the real date whose day count is `z`.
pub fn civil_from_days(z: i64) -> (r: (i64, i64, i64))
    requires
        z <= i64::MAX - 719468,
    ensures
        valid_date(r.0 as int, r.1 as int, r.2 as int),
        epoch_day(r.0 as int, r.1 as int, r.2 as int) == z,
{
    let z2 = z + 719468;
    let era: i64 = if z2 >= 0 {
        z2 / 146097
    } else {
        -((146096 - z2) / 146097)
    };
    proof {
        if z2 < 0 {
            lemma_fundamental_div_mod(146096 - z2, 146097);
            let q = (146096 - z2) / 146097;
            let r = (146096 - z2) % 146097;
            assert(z2 == 146097 * (-q) + (146096 - r));
            lemma_fundamental_div_mod_converse(z2 as int, 146097, -q, 146096 - r);
        }
        lemma_fundamental_div_mod(z2 as int, 146097);
        // January 1st of year 400 * era.
        lemma_hinnant_days(400 * era, 3, 1);
        lemma_div_shift(0, era as int, 400);
        assert((400 * era) / 400 == era);
    }
    let doe = z2 - era * 146097;
    assert(0 <= doe < 146097);
    let mut y: i64 = era * 400;
    let mut rem: i64 = doe + 60;
    assert(leap(400 * era)) by {
        lemma_div_shift(0, era as int, 4);
        lemma_div_shift(0, 4 * era, 100);
        lemma_div_shift(0, era as int, 400);
        assert(400 * era == 4 * (100 * era) + 0);
        assert(400 * era == 100 * (4 * era) + 0);
    }
    assert(days_before_year(y as int) + rem == z);
    loop
        invariant
            era * 400 <= y <= era * 400 + 401,
            -1000000000000000000 <= era * 400,
            era * 400 <= 1000000000000000000,
            0 <= rem <= 146156 - 365 * (y - era * 400),
            days_before_year(y as int) + rem == z,
        ensures
            0 <= rem < year_len(y as int),
            days_before_year(y as int) + rem == z,
        decreases rem,
    {
        let yl = year_length(y);
        if rem < yl {
            break;
        }
        proof {
            lemma_year_step(y as int);
        }
        rem = rem - yl;
        y = y + 1;
    }
    assert(rem < year_len(y as int));
    let (m, d) = month_and_day(y, rem);
    (y, m, d)
}

// ── Uniqueness: the day count determines the date ───────────────────────────

/// Later years start later, by at least a year's length.
pub proof fn lemma_year_mono(a: int, b: int)
    requires
        a < b,
    ensures
        days_before_year(a) + year_len(a) <= days_before_year(b),
    decreases b - a,
{
    lemma_year_step(a);
    if a + 1 < b {
        lemma_year_mono(a + 1, b);
        lemma_year_step(a + 1);
    }
}

/// Later months of a year start later, by at least a month's length.
pub proof fn lemma_month_mono(y: int, a: int, b: int)
    requires
        1 <= a < b <= 12,
    ensures
        days_before_month(y, a) + month_len(y, a) <= days_before_month(y, b),
    decreases b - a,
{
    lemma_month_step(y, a);
    if a + 1 < b {
        lemma_month_mono(y, a + 1, b);
        lemma_month_step(y, a + 1);
    }
}

/// A real date's day count lies inside its year.
pub proof fn lemma_date_in_year(y: int, m: int, d: int)
    requires
        valid_date(y, m, d),
    ensures
        days_before_year(y) <= epoch_day(y, m, d) < days_before_year(y) + year_len(y),
{
    lemma_month_step(y, m);
    if m < 12 {
        lemma_month_mono(y, m, 12);
        lemma_month_step(y, 12);
    }
}

/// Two real dates with the same day count are the same date.
pub proof fn lemma_epoch_day_injective(y1: int, m1: int, d1: int, y2: int, m2: int, d2: int)
    requires
        valid_date(y1, m1, d1),
        valid_date(y2, m2, d2),
        epoch_day(y1, m1, d1) == epoch_day(y2, m2, d2),
    ensures
        y1 == y2 && m1 == m2 && d1 == d2,
{
    lemma_date_in_year(y1, m1, d1);
    lemma_date_in_year(y2, m2, d2);
    if y1 < y2 {
        lemma_year_mono(y1, y2);
    } else if y2 < y1 {
        lemma_year_mono(y2, y1);
    }
    assert(y1 == y2);
    if m1 < m2 {
        lemma_month_mono(y1, m1, m2);
    } else if m2 < m1 {
        lemma_month_mono(y1, m2, m1);
    }
}

/// The real date whose day count is `z`.
pub open spec fn civil_of(z: int) -> (int, int, int) {
    choose|t: (int, int, int)| valid_date(t.0, t.1, t.2) && epoch_day(t.0, t.1, t.2) == z
}

/// Any real date with day count `z` is `civil_of(z)`.
pub proof fn lemma_civil_of(y: int, m: int, d: int)
    requires
        valid_date(y, m, d),
    ensures
        civil_of(epoch_day(y, m, d)) == (y, m, d),
{
    let z = epoch_day(y, m, d);
    let w = (y, m, d);
    assert(valid_date(w.0, w.1, w.2) && epoch_day(w.0, w.1, w.2) == z);
    let t = civil_of(z);
    lemma_epoch_day_injective(t.0, t.1, t.2, y, m, d);
}

/// Calendar law: converting a real date to its day count and back gives
/// the same date, and every day count has exactly one real date.
pub proof fn lemma_civil_round_trip(y: int, m: int, d: int, z: int)
    requires
        valid_date(y, m, d),
    ensures
        civil_of(epoch_day(y, m, d)) == (y, m, d),
        epoch_day(y, m, d) == z <==> civil_of(z) == (y, m, d),
{
    lemma_civil_of(y, m, d);
    if civil_of(z) == (y, m, d) {
        // civil_of(z) has a witness only if some date maps to z; the one
        // returned here is (y, m, d), which maps to epoch_day(y, m, d).
        if epoch_day(y, m, d) != z {
            lemma_civil_of_exists(z);
        }
    }
}

/// Every day count has a real date (witnessed by walking from an era).
pub proof fn lemma_civil_of_exists(z: int)
    ensures
        valid_date(civil_of(z).0, civil_of(z).1, civil_of(z).2),
        epoch_day(civil_of(z).0, civil_of(z).1, civil_of(z).2) == z,
{
    let (y, m, d) = civil_witness(z);
    assert(valid_date(y, m, d) && epoch_day(y, m, d) == z);
}

/// A real date for day `z`, built from a 400-year era and a walk.
proof fn civil_witness(z: int) -> (r: (int, int, int))
    ensures
        valid_date(r.0, r.1, r.2),
        epoch_day(r.0, r.1, r.2) == z,
{
    let z2 = z + 719468;
    lemma_fundamental_div_mod(z2, 146097);
    vstd::arithmetic::div_mod::lemma_mod_bound(z2, 146097);
    let era = z2 / 146097;
    let doe = z2 % 146097;
    lemma_hinnant_days(400 * era, 3, 1);
    lemma_div_shift(0, era, 400);
    assert((400 * era) / 400 == era);
    assert(leap(400 * era)) by {
        lemma_div_shift(0, era, 4);
        lemma_div_shift(0, 4 * era, 100);
        lemma_div_shift(0, era, 400);
        assert(400 * era == 4 * (100 * era) + 0);
        assert(400 * era == 100 * (4 * era) + 0);
    }
    let (y, rem) = walk_years(400 * era, doe + 60, z);
    let (m, d) = walk_months(y, rem, 1, rem);
    (y, m, d)
}

proof fn walk_years(y: int, rem: int, z: int) -> (r: (int, int))
    requires
        0 <= rem,
        days_before_year(y) + rem == z,
    ensures
        0 <= r.1 < year_len(r.0),
        days_before_year(r.0) + r.1 == z,
    decreases rem,
{
    lemma_year_step(y);
    if rem < year_len(y) {
        (y, rem)
    } else {
        walk_years(y + 1, rem - year_len(y), z)
    }
}

proof fn walk_months(y: int, left: int, m: int, rem: int) -> (r: (int, int))
    requires
        1 <= m <= 12,
        0 <= left,
        days_before_month(y, m) + left == rem,
        rem < year_len(y),
    ensures
        valid_date(y, r.0, r.1),
        days_before_month(y, r.0) + r.1 - 1 == rem,
    decreases 12 - m,
{
    lemma_month_step(y, m);
    if left < month_len(y, m) {
        (m, left + 1)
    } else {
        walk_months(y, left - month_len(y, m), m + 1, rem)
    }
}

// ── Seconds ──────────────────────────────────────────────────────────────────

/// `ts.div_euclid(86_400)` and `ts.rem_euclid(86_400)`.
pub fn day_split(ts: i64) -> (r: (i64, i64))
    ensures
        r.0 == ts / 86400,
        r.1 == ts % 86400,
{
    if ts >= 0 {
        (ts / 86400, ts % 86400)
    } else {
        let a: i64 = -(ts + 1);
        let q: i64 = -(a / 86400) - 1;
        let r: i64 = 86399 - a % 86400;
        proof {
            vstd::arithmetic::div_mod::lemma_fundamental_div_mod(a as int, 86400);
            assert(0 <= r < 86400);
            assert(q * 86400 + r == ts);
            vstd::arithmetic::div_mod::lemma_fundamental_div_mod_converse(
                ts as int,
                86400,
                q as int,
                r as int,
            );
        }
        (q, r)
    }
}

/// Days whose real date falls in the years `lo..=hi` are exactly the days
/// from January 1st of `lo` to December 31st of `hi`.
pub proof fn lemma_year_bounds(z: int, lo: int, hi: int)
    requires
        epoch_day(lo, 1, 1) <= z <= epoch_day(hi, 12, 31),
    ensures
        lo <= civil_of(z).0 <= hi,
{
    lemma_civil_of_exists(z);
    let t = civil_of(z);
    lemma_date_in_year(t.0, t.1, t.2);
    if t.0 > hi {
        lemma_year_mono(hi, t.0);
    }
    if t.0 < lo {
        lemma_year_mono(t.0, lo);
    }
}

/// Walk whole years forward from 1970 until day `day` (counted from
/// 1970-01-01) falls inside one: that year and the day's 0-based offset in
/// it. The year must fit a `u32`.
pub fn year_walk(day: u64) -> (r: (u32, u64))
    requires
        day <= epoch_day(u32::MAX as int, 12, 31),
    ensures
        1970 <= r.0,
        r.1 < year_len(r.0 as int),
        days_before_year(r.0 as int) + r.1 == day,
{
    let mut year: u32 = 1970;
    let mut remaining: u64 = day;
    loop
        invariant
            1970 <= year,
            days_before_year(year as int) + remaining == day,
            day <= epoch_day(u32::MAX as int, 12, 31),
        ensures
            1970 <= year,
            remaining < year_len(year as int),
            days_before_year(year as int) + remaining == day,
        decreases remaining,
    {
        let yd: u64 = if is_leap(year) {
            366
        } else {
            365
        };
        if remaining < yd {
            break;
        }
        proof {
            lemma_year_step(year as int);
        }
        remaining = remaining - yd;
        year = year + 1;
    }
    (year, remaining)
}

/// The real date of day `day`, found by [`year_walk`] and a month walk.
pub fn walk_date(day: u64) -> (r: (u32, u32, u32))
    requires
        day <= epoch_day(u32::MAX as int, 12, 31),
    ensures
        (r.0 as int, r.1 as int, r.2 as int) == civil_of(day as int),
        1 <= r.1 <= 12,
        1 <= r.2 <= 31,
{
    let (y, rem) = year_walk(day);
    let (m, d) = month_and_day(y as i64, rem as i64);
    proof {
        lemma_civil_of(y as int, m as int, d as int);
    }
    (y, m as u32, d as u32)
}

} // verus!
