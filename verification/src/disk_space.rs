//! Free-space arithmetic for the download preflight: the space a
//! `statvfs` result leaves to an unprivileged user, the floor below which
//! a download is refused, and the human-readable size shown in the
//! refusal.

use vstd::prelude::*;
use crate::num::{dec, push_dec};
use crate::text::{extend_str, string_of};

verus! {

/// Below this many free bytes a new download is refused: starting with
/// less than 500 MB free is a near-certain aborted job.
pub const FREE_SPACE_FLOOR_BYTES: u64 = 524288000;

/// `f_frsize * f_bavail`, saturating, when the `statvfs` call returned 0;
/// `None` when it failed (the preflight is then skipped).
pub fn available_bytes(statvfs_rc: i32, frsize: u64, bavail: u64) -> (r: Option<u64>)
    ensures
        r == if statvfs_rc != 0 {
            None
        } else {
            Some(
                if frsize * bavail > u64::MAX {
                    u64::MAX
                } else {
                    (frsize * bavail) as u64
                },
            )
        },
{
    if statvfs_rc != 0 {
        return None;
    }
    match frsize.checked_mul(bavail) {
        Some(p) => Some(p),
        None => Some(u64::MAX),
    }
}

/// Whether a download may start with `free` bytes available (`None`: the
/// query failed, so the check is skipped).
pub fn has_room(free: Option<u64>) -> (b: bool)
    ensures
        b == match free {
            None => true,
            Some(f) => f >= FREE_SPACE_FLOOR_BYTES,
        },
{
    match free {
        None => true,
        Some(f) => f >= FREE_SPACE_FLOOR_BYTES,
    }
}

/// `n / d` rounded to the nearest integer, ties to even.
pub open spec fn div_round_even(n: nat, d: nat) -> nat
    recommends
        d > 0,
{
    let q = n / d;
    let r = n % d;
    if 2 * r > d || (2 * r == d && q % 2 == 1) {
        q + 1
    } else {
        q
    }
}

/// The spacing of `f64` values around `n`: 1 below 2^53, doubling with
/// every further bit.
pub open spec fn f64_ulp(n: nat) -> nat
    decreases n,
{
    if n < 0x20_0000_0000_0000 {
        1
    } else {
        2 * f64_ulp(n / 2)
    }
}

/// `n as f64`: `n` rounded to the nearest `f64`, ties to even.
pub open spec fn f64_of(n: nat) -> nat {
    div_round_even(n, f64_ulp(n)) * f64_ulp(n)
}

/// A byte count for people: one decimal of GiB (rounded as `{:.1}` rounds
/// the `f64` quotient), or whole MiB, KiB or bytes.
pub open spec fn fmt_bytes_spec(bytes: u64) -> Seq<char> {
    if bytes >= 1073741824 {
        let t = div_round_even(f64_of(bytes as nat) * 10, 1073741824);
        dec(t / 10) + "."@ + dec(t % 10) + " GB"@
    } else if bytes >= 1048576 {
        dec((bytes / 1048576) as nat) + " MB"@
    } else if bytes >= 1024 {
        dec((bytes / 1024) as nat) + " KB"@
    } else {
        dec(bytes as nat) + " B"@
    }
}

proof fn lemma_ulp_positive(n: nat)
    ensures
        f64_ulp(n) >= 1,
        n < 0x20_0000_0000_0000 ==> f64_ulp(n) == 1,
    decreases n,
{
    if n >= 0x20_0000_0000_0000 {
        lemma_ulp_positive(n / 2);
    }
}

/// `bytes as f64`, as an exact integer.
pub fn f64_value(bytes: u64) -> (f: u128)
    ensures
        f == f64_of(bytes as nat),
        f <= 0x1_0000_0000_0000_0000u128 * 4096,
{
    // The spacing of f64 values at `bytes`.
    let mut u: u64 = 1;
    let mut m: u64 = bytes;
    proof {
        lemma_ulp_positive(m as nat);
    }
    while m >= 0x20_0000_0000_0000
        invariant
            f64_ulp(bytes as nat) == u * f64_ulp(m as nat),
            1 <= u <= 4096,
            u * m <= bytes,
        decreases m,
    {
        proof {
            lemma_ulp_positive((m / 2) as nat);
            assert(u * 2 * (m / 2) <= u * m) by (nonlinear_arith)
                requires
                    u >= 1,
                    m >= 1,
            ;
            assert(u * m >= u * 0x20_0000_0000_0000) by (nonlinear_arith)
                requires
                    m >= 0x20_0000_0000_0000,
                    u >= 1,
            ;
            assert(f64_ulp(m as nat) == 2 * f64_ulp((m / 2) as nat));
            assert(u * f64_ulp(m as nat) == (u * 2) * f64_ulp((m / 2) as nat)) by (nonlinear_arith)
                requires
                    f64_ulp(m as nat) == 2 * f64_ulp((m / 2) as nat),
            ;
        }
        assert(u * 0x20_0000_0000_0000 <= u * m) by (nonlinear_arith)
            requires
                m >= 0x20_0000_0000_0000,
                u >= 1,
        ;
        assert(u < 2048);
        u = u * 2;
        m = m / 2;
    }
    proof {
        lemma_ulp_positive(m as nat);
    }
    assert(f64_ulp(bytes as nat) == u);
    let q = bytes / u;
    let rem = bytes % u;
    let rounded: u128 = if 2 * (rem as u128) > u as u128 || (2 * (rem as u128) == u as u128 && q % 2 == 1) {
        q as u128 + 1
    } else {
        q as u128
    };
    assert(rounded == div_round_even(bytes as nat, u as nat));
    assert(rounded <= bytes as u128 + 1) by (nonlinear_arith)
        requires
            rounded <= q + 1,
            q <= bytes,
    ;
    assert(rounded * (u as u128) <= 0x1_0000_0000_0000_0000u128 * 4096) by (nonlinear_arith)
        requires
            rounded <= 0x1_0000_0000_0000_0000u128,
            u <= 4096,
    ;
    let f: u128 = rounded * (u as u128);
    assert(f == f64_of(bytes as nat));
    f
}

/// Format a byte count for display: `3.2 GB`, `250 MB`, `15 KB`, `512 B`.
pub fn fmt_bytes(bytes: u64) -> (r: String)
    ensures
        r@ == fmt_bytes_spec(bytes),
{
    let mut out: Vec<char> = Vec::new();
    if bytes >= 1073741824 {
        let f = f64_value(bytes);
        let tq = (f * 10) / 1073741824;
        let tr = (f * 10) % 1073741824;
        let t: u128 = if 2 * tr > 1073741824 || (2 * tr == 1073741824 && tq % 2 == 1) {
            tq + 1
        } else {
            tq
        };
        assert(t == div_round_even(f64_of(bytes as nat) * 10, 1073741824));
        assert(t / 10 <= u64::MAX) by (nonlinear_arith)
            requires
                t <= tq + 1,
                tq == (f * 10) / 1073741824,
                f <= 0x1_0000_0000_0000_0000u128 * 4096,
        ;
        push_dec(&mut out, (t / 10) as u64);
        extend_str(&mut out, ".");
        push_dec(&mut out, (t % 10) as u64);
        extend_str(&mut out, " GB");
    } else if bytes >= 1048576 {
        push_dec(&mut out, bytes / 1048576);
        extend_str(&mut out, " MB");
    } else if bytes >= 1024 {
        push_dec(&mut out, bytes / 1024);
        extend_str(&mut out, " KB");
    } else {
        push_dec(&mut out, bytes);
        extend_str(&mut out, " B");
    }
    string_of(&out)
}

/// The reason a download is refused for want of space on `root`:
/// `only <free> free on <root> (need at least 500 MB)`; `None` when there
/// is room.
pub fn refusal_reason(free: Option<u64>, root: &str) -> (r: Option<String>)
    ensures
        match r {
            None => has_room_spec(free),
            Some(s) => !has_room_spec(free) && s@ == "only "@ + fmt_bytes_spec(free->0) + " free on "@
                + root@ + " (need at least "@ + fmt_bytes_spec(FREE_SPACE_FLOOR_BYTES) + ")"@,
        },
{
    if has_room(free) {
        return None;
    }
    let f = free.unwrap();
    let mut out: Vec<char> = Vec::new();
    extend_str(&mut out, "only ");
    extend_str(&mut out, fmt_bytes(f).as_str());
    extend_str(&mut out, " free on ");
    extend_str(&mut out, root);
    extend_str(&mut out, " (need at least ");
    extend_str(&mut out, fmt_bytes(FREE_SPACE_FLOOR_BYTES).as_str());
    extend_str(&mut out, ")");
    Some(string_of(&out))
}

/// Whether `free` bytes are enough to start a download.
pub open spec fn has_room_spec(free: Option<u64>) -> bool {
    match free {
        None => true,
        Some(f) => f >= FREE_SPACE_FLOOR_BYTES,
    }
}

} // verus!
