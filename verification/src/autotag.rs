//! Upload cadence of a channel, from the spread of its upload dates.

use vstd::prelude::*;
use crate::num::{parse_u32, parse_u32_vec};
use crate::text::chars_of;

verus! {

/// Whole-month span between two `YYYYMMDD` integers (clamped at 0).
pub open spec fn month_span_spec(a: u32, b: u32) -> int {
    let d = (b / 10000 - a / 10000) * 12 + ((b / 100) % 100 - (a / 100) % 100);
    if d > 0 {
        d
    } else {
        0
    }
}

/// Whole-month span between two `YYYYMMDD` integers (clamped at 0).
pub fn month_span(a: u32, b: u32) -> (r: u64)
    ensures
        r == month_span_spec(a, b),
{
    let ay = (a / 10000) as i64;
    let am = ((a / 100) % 100) as i64;
    let by = (b / 10000) as i64;
    let bm = ((b / 100) % 100) as i64;
    let d = (by - ay) * 12 + (bm - am);
    if d > 0 {
        d as u64
    } else {
        0
    }
}

/// The parseable, positive `YYYYMMDD` dates among `dates`, in order.
pub open spec fn usable_dates(dates: Seq<Option<Seq<char>>>) -> Seq<u32>
    decreases dates.len(),
{
    if dates.len() == 0 {
        seq![]
    } else {
        usable_dates(dates.drop_last()) + match dates.last() {
            Some(d) => match parse_u32(d) {
                Some(v) => if v > 0 {
                    seq![v]
                } else {
                    seq![]
                },
                None => seq![],
            },
            None => seq![],
        }
    }
}

/// The smallest and largest of a non-empty list.
pub open spec fn is_min(s: Seq<u32>, m: u32) -> bool {
    (exists|i: int| 0 <= i < s.len() && s[i] == m) && forall|i: int|
        0 <= i < s.len() ==> m <= #[trigger] s[i]
}

/// The largest of a non-empty list.
pub open spec fn is_max(s: Seq<u32>, m: u32) -> bool {
    (exists|i: int| 0 <= i < s.len() && s[i] == m) && forall|i: int|
        0 <= i < s.len() ==> #[trigger] s[i] <= m
}

/// The view of a list of optional upload dates.
pub open spec fn date_views(dates: Seq<Option<String>>) -> Seq<Option<Seq<char>>> {
    dates.map_values(
        |d: Option<String>|
            match d {
                Some(s) => Some(s@),
                None => None,
            },
    )
}

/// Rough videos-per-month from the spread of upload dates (`YYYYMMDD`,
/// unparseable or zero dates ignored): `None` with fewer than two dates,
/// else the count divided by the month span (at least 1), at least 1.
pub fn cadence_per_month(dates: &Vec<Option<String>>) -> (r: Option<u64>)
    ensures
        ({
            let u = usable_dates(date_views(dates@));
            match r {
                None => u.len() < 2,
                Some(c) => u.len() >= 2 && exists|lo: u32, hi: u32|
                    is_min(u, lo) && is_max(u, hi) && #[trigger] month_span_spec(lo, hi) >= 0 && c
                        == ({
                        let m = if month_span_spec(lo, hi) > 1 {
                            month_span_spec(lo, hi)
                        } else {
                            1
                        };
                        let q = u.len() as int / m;
                        if q > 1 {
                            q
                        } else {
                            1
                        }
                    }),
            }
        }),
{
    let ghost dv = date_views(dates@);
    let mut vals: Vec<u32> = Vec::new();
    let mut i: usize = 0;
    while i < dates.len()
        invariant
            i <= dates@.len(),
            dv == date_views(dates@),
            vals@ == usable_dates(dv.take(i as int)),
        decreases dates.len() - i,
    {
        assert(dv.take(i + 1).drop_last() =~= dv.take(i as int));
        match &dates[i] {
            Some(d) => {
                let dc = chars_of(d.as_str());
                match parse_u32_vec(&dc) {
                    Some(v) => {
                        if v > 0 {
                            vals.push(v);
                        }
                    },
                    None => {},
                }
            },
            None => {},
        }
        i += 1;
        assert(vals@ =~= usable_dates(dv.take(i as int)));
    }
    assert(dv.take(i as int) =~= dv);
    if vals.len() < 2 {
        return None;
    }
    let mut lo: u32 = vals[0];
    let mut hi: u32 = vals[0];
    let mut j: usize = 1;
    while j < vals.len()
        invariant
            1 <= j <= vals@.len(),
            exists|k: int| 0 <= k < j && vals@[k] == lo,
            exists|k: int| 0 <= k < j && vals@[k] == hi,
            forall|k: int| 0 <= k < j ==> lo <= #[trigger] vals@[k] <= hi,
        decreases vals.len() - j,
    {
        if vals[j] < lo {
            lo = vals[j];
        }
        if vals[j] > hi {
            hi = vals[j];
        }
        j += 1;
    }
    let span = month_span(lo, hi);
    let months = if span > 1 {
        span
    } else {
        1
    };
    let q = (vals.len() as u64) / months;
    let c = if q > 1 {
        q
    } else {
        1
    };
    assert(is_min(vals@, lo) && is_max(vals@, hi) && month_span_spec(lo, hi) >= 0);
    Some(c)
}

} // verus!
