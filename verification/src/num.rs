//! Decimal formatting and parsing of integers, as `format!("{n}")`,
//! `format!("{n:0w}")` and `str::parse` produce and accept them.

use vstd::prelude::*;

verus! {

/// The ASCII digit for `d` (`0 <= d < 10`).
pub open spec fn digit(d: int) -> char {
    (48 + d) as char
}

/// The decimal digits of `n`, most significant first, without leading zeros.
pub open spec fn dec(n: nat) -> Seq<char>
    decreases n,
{
    if n < 10 {
        seq![digit(n as int)]
    } else {
        dec(n / 10).push(digit((n % 10) as int))
    }
}

/// `w - s.len()` zeros followed by `s` (just `s` when it is already `w` long).
pub open spec fn zero_pad(s: Seq<char>, w: nat) -> Seq<char> {
    if s.len() >= w {
        s
    } else {
        Seq::new((w - s.len()) as nat, |i: int| '0') + s
    }
}

/// `format!("{n:0w$}")` for a non-negative `n`.
pub open spec fn dec_pad(n: nat, w: nat) -> Seq<char> {
    zero_pad(dec(n), w)
}

/// `format!("{n:0w$}")` for a signed `n`: the sign counts toward the width.
pub open spec fn idec_pad(n: int, w: nat) -> Seq<char> {
    if n < 0 {
        seq!['-'] + zero_pad(dec((-n) as nat), if w >= 1 {
            (w - 1) as nat
        } else {
            0
        })
    } else {
        dec_pad(n as nat, w)
    }
}

/// The ASCII digit for `d`.
pub fn digit_exec(d: u64) -> (c: char)
    requires
        d < 10,
    ensures
        c == digit(d as int),
{
    ((d as u8) + 48u8) as char
}

/// Appends the decimal digits of `n` (`format!("{n}")`).
pub fn push_dec(out: &mut Vec<char>, n: u64)
    ensures
        final(out)@ == old(out)@ + dec(n as nat),
    decreases n,
{
    if n >= 10 {
        push_dec(out, n / 10);
    }
    out.push(digit_exec(n % 10));
    proof {
        if n >= 10 {
            assert(final(out)@ =~= old(out)@ + dec(n as nat));
        } else {
            assert(final(out)@ =~= old(out)@ + dec(n as nat));
        }
    }
}

/// `dec(n)` is at least one and at most twenty characters long.
pub proof fn lemma_dec_len(n: nat)
    ensures
        1 <= dec(n).len(),
        n < 10 ==> dec(n).len() == 1,
        10 <= n < 100 ==> dec(n).len() == 2,
        100 <= n < 1000 ==> dec(n).len() == 3,
        1000 <= n < 10000 ==> dec(n).len() == 4,
    decreases n,
{
    if n >= 10 {
        lemma_dec_len(n / 10);
    }
}

/// Appends `n` zero-padded to width `w` (`format!("{n:0w$}")`).
pub fn push_dec_pad(out: &mut Vec<char>, n: u64, w: usize)
    requires
        w <= 64,
    ensures
        final(out)@ == old(out)@ + dec_pad(n as nat, w as nat),
{
    let mut digits: Vec<char> = Vec::new();
    push_dec(&mut digits, n);
    proof {
        lemma_dec_len(n as nat);
        assert(digits@ =~= dec(n as nat));
    }
    let mut k: usize = digits.len();
    let ghost start = out@;
    while k < w
        invariant
            digits@ == dec(n as nat),
            digits@.len() <= k,
            k <= w || k == digits@.len(),
            out@ == start + Seq::new((k - digits@.len()) as nat, |i: int| '0'),
        decreases w - k,
    {
        out.push('0');
        k += 1;
        assert(out@ =~= start + Seq::new((k - digits@.len()) as nat, |i: int| '0'));
    }
    let ghost mid = out@;
    crate::text::extend(out, &digits);
    proof {
        if digits@.len() >= w {
            assert(k == digits@.len());
            assert(out@ =~= start + dec_pad(n as nat, w as nat));
        } else {
            assert(k == w);
            assert(out@ =~= start + dec_pad(n as nat, w as nat));
        }
    }
}

/// Appends a signed `n` zero-padded to width `w` (`format!("{n:0w$}")`).
pub fn push_idec_pad(out: &mut Vec<char>, n: i64, w: usize)
    requires
        1 <= w <= 64,
    ensures
        final(out)@ == old(out)@ + idec_pad(n as int, w as nat),
{
    if n < 0 {
        out.push('-');
        let ghost mid = out@;
        let m: u64 = if n == i64::MIN {
            9223372036854775808u64
        } else {
            (-n) as u64
        };
        push_dec_pad(out, m, w - 1);
        assert(out@ =~= old(out)@ + idec_pad(n as int, w as nat));
    } else {
        push_dec_pad(out, n as u64, w);
    }
}

/// `c` is an ASCII digit (`char::is_ascii_digit`).
pub open spec fn is_digit(c: char) -> bool {
    '0' <= c && c <= '9'
}

/// Every character of `s` is an ASCII digit.
pub open spec fn all_digits(s: Seq<char>) -> bool {
    forall|i: int| 0 <= i < s.len() ==> is_digit(#[trigger] s[i])
}

/// The value of a run of ASCII digits.
pub open spec fn digits_val(s: Seq<char>) -> nat
    decreases s.len(),
{
    if s.len() == 0 {
        0
    } else {
        digits_val(s.drop_last()) * 10 + ((s.last() as int) - 48) as nat
    }
}

/// `s` without one leading `+`.
pub open spec fn unsigned_body(s: Seq<char>) -> Seq<char> {
    if s.len() > 0 && s[0] == '+' {
        s.drop_first()
    } else {
        s
    }
}

/// The value of `s` as an unsigned decimal no larger than `max`, as
/// `str::parse` reads it: one optional `+`, then at least one digit.
pub open spec fn parse_unsigned(s: Seq<char>, max: nat) -> Option<nat> {
    let b = unsigned_body(s);
    if b.len() > 0 && all_digits(b) && digits_val(b) <= max {
        Some(digits_val(b))
    } else {
        None
    }
}

/// `s.parse::<u32>()`.
pub open spec fn parse_u32(s: Seq<char>) -> Option<u32> {
    match parse_unsigned(s, u32::MAX as nat) {
        Some(v) => Some(v as u32),
        None => None,
    }
}

/// `s.parse::<i64>()`: an optional sign, then at least one digit.
pub open spec fn parse_i64(s: Seq<char>) -> Option<i64> {
    if s.len() > 0 && s[0] == '-' {
        let b = s.drop_first();
        if b.len() > 0 && all_digits(b) && digits_val(b) <= 9223372036854775808 {
            Some((-(digits_val(b) as int)) as i64)
        } else {
            None
        }
    } else {
        match parse_unsigned(s, i64::MAX as nat) {
            Some(v) => Some(v as i64),
            None => None,
        }
    }
}

/// A prefix of a digit run is worth no more than the whole run.
pub proof fn lemma_digits_val_prefix(s: Seq<char>, k: int)
    requires
        0 <= k <= s.len(),
        all_digits(s),
    ensures
        digits_val(s.take(k)) <= digits_val(s),
    decreases s.len(),
{
    if k < s.len() {
        assert(all_digits(s.drop_last()));
        assert(s.drop_last().take(k) =~= s.take(k));
        lemma_digits_val_prefix(s.drop_last(), k);
    } else {
        assert(s.take(k) =~= s);
    }
}

/// The value of `s[from..]` if it is a non-empty digit run worth at most `max`.
pub fn parse_digits(s: &Vec<char>, from: usize, max: u64) -> (r: Option<u64>)
    requires
        from <= s@.len(),
    ensures
        match r {
            Some(v) => {
                let b = s@.skip(from as int);
                b.len() > 0 && all_digits(b) && digits_val(b) <= max && v == digits_val(b)
            },
            None => {
                let b = s@.skip(from as int);
                !(b.len() > 0 && all_digits(b) && digits_val(b) <= max)
            },
        },
{
    let ghost b = s@.skip(from as int);
    if from == s.len() {
        return None;
    }
    let mut acc: u64 = 0;
    let mut i: usize = from;
    while i < s.len()
        invariant
            from <= i <= s@.len(),
            b == s@.skip(from as int),
            all_digits(b.take(i - from)),
            acc == digits_val(b.take(i - from)),
            acc <= max,
        decreases s.len() - i,
    {
        let c = s[i];
        assert(b[i - from] == c);
        if !('0' <= c && c <= '9') {
            return None;
        }
        let d = ((c as u32) - 48) as u64;
        assert(b.take(i - from + 1).drop_last() =~= b.take(i - from));
        assert(all_digits(b.take(i - from + 1)));
        if d > max || acc > (max - d) / 10 {
            proof {
                assert(digits_val(b.take(i - from + 1)) == acc * 10 + d);
                if d <= max {
                    assert(digits_val(b.take(i - from + 1)) > max) by (nonlinear_arith)
                        requires
                            acc > (max - d) / 10,
                            digits_val(b.take(i - from + 1)) == acc * 10 + d,
                            d <= max,
                    ;
                }
                if all_digits(b) {
                    lemma_digits_val_prefix(b, i - from + 1);
                }
            }
            return None;
        }
        proof {
            assert(acc * 10 + d <= max) by (nonlinear_arith)
                requires
                    acc <= (max - d) / 10,
                    d <= max,
            ;
        }
        acc = acc * 10 + d;
        i += 1;
    }
    assert(b.take(i - from) =~= b);
    Some(acc)
}

/// `s.parse::<u32>()`.
pub fn parse_u32_vec(s: &Vec<char>) -> (r: Option<u32>)
    ensures
        r == parse_u32(s@),
{
    let from: usize = if s.len() > 0 && s[0] == '+' {
        1
    } else {
        0
    };
    assert(unsigned_body(s@) =~= s@.skip(from as int));
    match parse_digits(s, from, 4294967295u64) {
        Some(v) => Some(v as u32),
        None => None,
    }
}

/// `s.parse::<i64>()`.
pub fn parse_i64_vec(s: &Vec<char>) -> (r: Option<i64>)
    ensures
        r == parse_i64(s@),
{
    if s.len() > 0 && s[0] == '-' {
        assert(s@.drop_first() =~= s@.skip(1));
        match parse_digits(s, 1, 9223372036854775808u64) {
            Some(v) => {
                if v == 9223372036854775808u64 {
                    Some(i64::MIN)
                } else {
                    Some(-(v as i64))
                }
            },
            None => None,
        }
    } else {
        let from: usize = if s.len() > 0 && s[0] == '+' {
            1
        } else {
            0
        };
        assert(unsigned_body(s@) =~= s@.skip(from as int));
        match parse_digits(s, from, 9223372036854775807u64) {
            Some(v) => Some(v as i64),
            None => None,
        }
    }
}

/// Whether every character of `s` is an ASCII digit.
pub fn all_digits_vec(s: &Vec<char>) -> (b: bool)
    ensures
        b == all_digits(s@),
{
    let mut i: usize = 0;
    while i < s.len()
        invariant
            i <= s@.len(),
            forall|j: int| 0 <= j < i ==> is_digit(#[trigger] s@[j]),
        decreases s.len() - i,
    {
        if !('0' <= s[i] && s[i] <= '9') {
            assert(!is_digit(s@[i as int]));
            return false;
        }
        i += 1;
    }
    true
}

} // verus!
