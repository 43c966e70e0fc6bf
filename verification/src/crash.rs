//! Timestamps and file names for the persistent panic log.
//!
//! GUI users don't see stderr, so the application appends every panic to
//! `<channels_root>/catacomb.crash.log`. The hook itself lives with the
//! process plumbing; this module holds the parts that compute: the
//! `2026-05-27T18:42:11Z` stamp of each entry, the civil date behind it,
//! the rotation threshold and the rotated file's name.

use vstd::prelude::*;
use crate::civil::{civil_from_days, civil_of, day_split, epoch_day, lemma_civil_of, lemma_year_bounds};
use crate::num::{dec, dec_pad, idec_pad, push_dec, push_dec_pad, push_idec_pad};
use crate::text::{chars_of, extend, extend_str, lines, lines_vec, string_of, views};

verus! {

/// Past this size the next entry first rotates the log to `*.1`.
pub const LOG_SIZE_CAP_BYTES: u64 = 262144;

/// The UTC `(year, month, day, hour, minute, second)` of UNIX second `secs`.
pub open spec fn civil_time_of(secs: int) -> (int, int, int, int, int, int) {
    let days = secs / 86400;
    let rem = secs % 86400;
    let date = civil_of(days);
    (date.0, date.1, date.2, rem / 3600, (rem % 3600) / 60, rem % 60)
}

/// The date of `secs` falls in a year that `i32` holds (year `i32::MIN`
/// itself excepted: its January and February overflow the computation).
pub open spec fn year_fits_i32(secs: int) -> bool {
    epoch_day(i32::MIN + 1, 1, 1) <= secs / 86400 <= epoch_day(i32::MAX as int, 12, 31)
}

/// Convert UNIX seconds to `(year, month, day, hour, minute, second)` UTC.
pub fn civil_from_unix(secs: i64) -> (r: (i32, u32, u32, u32, u32, u32))
    requires
        year_fits_i32(secs as int),
    ensures
        (r.0 as int, r.1 as int, r.2 as int, r.3 as int, r.4 as int, r.5 as int)
            == civil_time_of(secs as int),
{
    let (days, rem) = day_split(secs);
    let (y, m, d) = civil_from_days(days);
    proof {
        lemma_civil_of(y as int, m as int, d as int);
        lemma_year_bounds(days as int, i32::MIN + 1, i32::MAX as int);
    }
    let h = rem / 3600;
    let mi = (rem % 3600) / 60;
    let s = rem % 60;
    (y as i32, m as u32, d as u32, h as u32, mi as u32, s as u32)
}

/// `YYYY-MM-DDTHH:MM:SSZ` for UNIX second `secs` (the year zero-padded to
/// four places, with its sign when negative).
pub open spec fn iso8601_spec(secs: int) -> Seq<char> {
    let t = civil_time_of(secs);
    idec_pad(t.0, 4) + "-"@ + dec_pad(t.1 as nat, 2) + "-"@ + dec_pad(t.2 as nat, 2) + "T"@
        + dec_pad(t.3 as nat, 2) + ":"@ + dec_pad(t.4 as nat, 2) + ":"@ + dec_pad(t.5 as nat, 2)
        + "Z"@
}

/// Format UNIX second `secs` as an RFC 3339 UTC timestamp, e.g.
/// `2026-05-27T18:42:11Z`.
pub fn iso8601(secs: i64) -> (r: String)
    ensures
        r@ == iso8601_spec(secs as int),
{
    let (days, rem) = day_split(secs);
    let (y, m, d) = civil_from_days(days);
    proof {
        lemma_civil_of(y as int, m as int, d as int);
    }
    let h = rem / 3600;
    let mi = (rem % 3600) / 60;
    let s = rem % 60;
    let mut out: Vec<char> = Vec::new();
    push_idec_pad(&mut out, y, 4);
    extend_str(&mut out, "-");
    push_dec_pad(&mut out, m as u64, 2);
    extend_str(&mut out, "-");
    push_dec_pad(&mut out, d as u64, 2);
    extend_str(&mut out, "T");
    push_dec_pad(&mut out, h as u64, 2);
    extend_str(&mut out, ":");
    push_dec_pad(&mut out, mi as u64, 2);
    extend_str(&mut out, ":");
    push_dec_pad(&mut out, s as u64, 2);
    extend_str(&mut out, "Z");
    assert(out@ =~= iso8601_spec(secs as int));
    string_of(&out)
}

/// The current time as an RFC 3339 UTC timestamp. The clock reading is
/// whatever the system reports; the text is its [`iso8601`] rendering.
pub fn now_iso8601() -> (r: String)
    ensures
        exists|t: u64| r@ == #[trigger] iso8601_spec(t as i64 as int),
{
    let t = crate::stats::now_unix();
    let r = iso8601(t as i64);
    assert(r@ == iso8601_spec(t as i64 as int));
    r
}

/// `<path><suffix>`: the name a log is rotated to.
pub fn with_suffix(path: &str, suffix: &str) -> (r: String)
    ensures
        r@ == path@ + suffix@,
{
    let mut out: Vec<char> = Vec::new();
    extend_str(&mut out, path);
    extend_str(&mut out, suffix);
    string_of(&out)
}

/// Whether a log of `len` bytes is rotated before the next entry.
pub fn needs_rotation(len: u64) -> (b: bool)
    ensures
        b == (len >= LOG_SIZE_CAP_BYTES),
{
    len >= LOG_SIZE_CAP_BYTES
}

/// `file:line:column` of a panic location.
pub fn panic_location(file: &str, line: u32, column: u32) -> (r: String)
    ensures
        r@ == file@ + ":"@ + dec(line as nat) + ":"@ + dec(column as nat),
{
    let mut out: Vec<char> = Vec::new();
    extend_str(&mut out, file);
    extend_str(&mut out, ":");
    push_dec(&mut out, line as u64);
    extend_str(&mut out, ":");
    push_dec(&mut out, column as u64);
    string_of(&out)
}

/// The message lines of an entry, each indented by two spaces and ended.
pub open spec fn indented(ls: Seq<Seq<char>>) -> Seq<char>
    decreases ls.len(),
{
    if ls.len() == 0 {
        seq![]
    } else {
        indented(ls.drop_last()) + "  "@ + ls.last() + "\n"@
    }
}

/// The text of one crash-log entry: a blank line, a header with the time
/// and the (debug-quoted) thread name, the panic location, and the
/// message's lines indented.
pub open spec fn crash_entry_spec(ts: Seq<char>, thread: Seq<char>, location: Seq<char>, msg: Seq<char>) -> Seq<char> {
    "\n── "@ + ts + "  thread: "@ + thread + "  ─────────────────────────\n"@ + "panic at "@ + location
        + ":\n"@ + indented(lines(msg))
}

/// Format a crash-log entry (see [`crash_entry_spec`]); `thread` is the
/// thread name already quoted as `{:?}` quotes it.
pub fn crash_entry(ts: &str, thread: &str, location: &str, msg: &str) -> (r: String)
    ensures
        r@ == crash_entry_spec(ts@, thread@, location@, msg@),
{
    let mut out: Vec<char> = Vec::new();
    extend_str(&mut out, "\n── ");
    extend_str(&mut out, ts);
    extend_str(&mut out, "  thread: ");
    extend_str(&mut out, thread);
    extend_str(&mut out, "  ─────────────────────────\n");
    extend_str(&mut out, "panic at ");
    extend_str(&mut out, location);
    extend_str(&mut out, ":\n");
    let ghost head = out@;
    let ls = lines_vec(&chars_of(msg));
    let ghost lv = views(ls@);
    let mut i: usize = 0;
    while i < ls.len()
        invariant
            i <= ls@.len(),
            lv == views(ls@),
            out@ == head + indented(lv.take(i as int)),
        decreases ls.len() - i,
    {
        assert(lv.take(i + 1).drop_last() =~= lv.take(i as int));
        extend_str(&mut out, "  ");
        extend(&mut out, &ls[i]);
        extend_str(&mut out, "\n");
        i += 1;
        assert(out@ =~= head + indented(lv.take(i as int)));
    }
    assert(lv.take(i as int) =~= lv);
    string_of(&out)
}

} // verus!
