//! Character-level text helpers shared by the rest of the library.
//!
//! Every operation here works on the character view of a string
//! (`Seq<char>`), and each executable function is tied to a spec function
//! that says what it computes in the most direct way available.

use vstd::prelude::*;

verus! {

// ── Conversions between `str`/`String` and character vectors ────────────────

/// Appends one character to a `String` (`String::push`).
/// Trusted: the new contents are the old contents followed by `c`.
#[verifier::external_body]
pub(crate) fn push_char(s: &mut String, c: char)
    ensures
        final(s)@ == old(s)@.push(c),
{
    s.push(c);
}

/// The characters of `s`, in order.
pub fn chars_of(s: &str) -> (v: Vec<char>)
    ensures
        v@ == s@,
{
    let mut v: Vec<char> = Vec::new();
    for c in it: s.chars()
        invariant
            v@ == it.seq().take(it.index() as int),
    {
        v.push(c);
    }
    v
}

/// A `String` holding exactly the characters of `v`.
pub fn string_of(v: &Vec<char>) -> (s: String)
    ensures
        s@ == v@,
{
    let mut s = String::new();
    let mut i: usize = 0;
    while i < v.len()
        invariant
            i <= v@.len(),
            s@ == v@.take(i as int),
        decreases v.len() - i,
    {
        push_char(&mut s, v[i]);
        i += 1;
        assert(s@ =~= v@.take(i as int));
    }
    assert(v@.take(i as int) =~= v@);
    s
}

/// Appends all characters of `src` to `dst`.
pub fn extend(dst: &mut Vec<char>, src: &Vec<char>)
    ensures
        final(dst)@ == old(dst)@ + src@,
{
    let mut i: usize = 0;
    while i < src.len()
        invariant
            i <= src@.len(),
            dst@ == old(dst)@ + src@.take(i as int),
        decreases src.len() - i,
    {
        dst.push(src[i]);
        i += 1;
        assert(dst@ =~= old(dst)@ + src@.take(i as int));
    }
    assert(src@.take(i as int) =~= src@);
}

/// Appends the characters of `src` to `dst`.
pub fn extend_str(dst: &mut Vec<char>, src: &str)
    ensures
        final(dst)@ == old(dst)@ + src@,
{
    let v = chars_of(src);
    extend(dst, &v);
}

/// A copy of `s[from..to]`.
pub fn slice(s: &Vec<char>, from: usize, to: usize) -> (r: Vec<char>)
    requires
        from <= to <= s@.len(),
    ensures
        r@ == s@.subrange(from as int, to as int),
{
    let mut r: Vec<char> = Vec::new();
    let mut i: usize = from;
    while i < to
        invariant
            from <= i <= to <= s@.len(),
            r@ == s@.subrange(from as int, i as int),
        decreases to - i,
    {
        r.push(s[i]);
        i += 1;
        assert(r@ =~= s@.subrange(from as int, i as int));
    }
    r
}

// ── Argument lists ───────────────────────────────────────────────────────────

/// The character views of a list of strings.
pub open spec fn strings(v: Seq<String>) -> Seq<Seq<char>> {
    v.map_values(|x: String| x@)
}

/// Appends `a` to an argument list.
pub fn push_string(args: &mut Vec<String>, a: String)
    ensures
        strings(final(args)@) == strings(old(args)@).push(a@),
{
    let ghost a_view = a@;
    args.push(a);
    assert(strings(args@) =~= strings(old(args)@).push(a_view));
}

/// Appends a copy of the literal `a` to an argument list.
pub fn push_arg(args: &mut Vec<String>, a: &str)
    ensures
        strings(final(args)@) == strings(old(args)@).push(a@),
{
    push_string(args, String::from_str(a));
}

// ── Substring search ─────────────────────────────────────────────────────────

/// `pat` occurs in `s` starting at position `i`.
pub open spec fn occurs_at(s: Seq<char>, pat: Seq<char>, i: int) -> bool {
    0 <= i && i + pat.len() <= s.len() && s.subrange(i, i + pat.len()) == pat
}

/// The first position at or after `k` where `pat` occurs in `s`.
pub open spec fn find_from(s: Seq<char>, pat: Seq<char>, k: int) -> Option<int>
    decreases s.len() + 1 - k,
{
    if k < 0 || k + pat.len() > s.len() {
        None
    } else if occurs_at(s, pat, k) {
        Some(k)
    } else {
        find_from(s, pat, k + 1)
    }
}

/// The first position where `pat` occurs in `s` (`str::find`).
pub open spec fn find(s: Seq<char>, pat: Seq<char>) -> Option<int> {
    find_from(s, pat, 0)
}

/// `pat` occurs somewhere in `s` (`str::contains`).
pub open spec fn contains(s: Seq<char>, pat: Seq<char>) -> bool {
    find(s, pat) is Some
}

/// `s` begins with `pat` (`str::starts_with`).
pub open spec fn starts_with(s: Seq<char>, pat: Seq<char>) -> bool {
    occurs_at(s, pat, 0)
}

/// `s` ends with `pat` (`str::ends_with`).
pub open spec fn ends_with(s: Seq<char>, pat: Seq<char>) -> bool {
    pat.len() <= s.len() && occurs_at(s, pat, s.len() - pat.len())
}

/// `find_from` is the least occurrence at or after `k`.
pub proof fn lemma_find_from(s: Seq<char>, pat: Seq<char>, k: int)
    requires
        0 <= k,
    ensures
        match find_from(s, pat, k) {
            Some(i) => k <= i && occurs_at(s, pat, i) && forall|j: int|
                k <= j < i ==> !occurs_at(s, pat, j),
            None => forall|j: int| k <= j ==> !occurs_at(s, pat, j),
        },
    decreases s.len() + 1 - k,
{
    if k + pat.len() <= s.len() && !occurs_at(s, pat, k) {
        lemma_find_from(s, pat, k + 1);
    }
}

/// `s@[i..i + pat.len()] == pat`.
pub fn matches_at(s: &Vec<char>, pat: &Vec<char>, i: usize) -> (b: bool)
    ensures
        b == occurs_at(s@, pat@, i as int),
{
    if i > s.len() || pat.len() > s.len() - i {
        return false;
    }
    let mut k: usize = 0;
    while k < pat.len()
        invariant
            i + pat@.len() <= s@.len(),
            s@.len() <= usize::MAX,
            k <= pat@.len(),
            forall|j: int| 0 <= j < k ==> s@[i + j] == pat@[j],
        decreases pat.len() - k,
    {
        if s[i + k] != pat[k] {
            assert(s@.subrange(i as int, i + pat@.len())[k as int] != pat@[k as int]);
            return false;
        }
        k += 1;
    }
    assert(s@.subrange(i as int, i + pat@.len()) =~= pat@);
    true
}

/// An optional index, widened to `int`.
pub open spec fn oidx(r: Option<usize>) -> Option<int> {
    match r {
        Some(i) => Some(i as int),
        None => None,
    }
}

/// The first position at or after `start` where `pat` occurs in `s`.
pub fn find_at(s: &Vec<char>, pat: &Vec<char>, start: usize) -> (r: Option<usize>)
    ensures
        oidx(r) == find_from(s@, pat@, start as int),
{
    let mut i = start;
    while i <= s.len() && pat.len() <= s.len() - i
        invariant
            start <= i,
            find_from(s@, pat@, start as int) == find_from(s@, pat@, i as int),
        decreases s.len() + 1 - i,
    {
        if matches_at(s, pat, i) {
            return Some(i);
        }
        if i == s.len() {
            assert(find_from(s@, pat@, i + 1) is None);
            return None;
        }
        i += 1;
    }
    None
}

/// The first position where `pat` occurs in `s`.
pub fn find_vec(s: &Vec<char>, pat: &Vec<char>) -> (r: Option<usize>)
    ensures
        oidx(r) == find(s@, pat@),
{
    find_at(s, pat, 0)
}

/// Whether the literal `pat` occurs in `s`.
pub fn includes(s: &Vec<char>, pat: &str) -> (b: bool)
    ensures
        b == contains(s@, pat@),
{
    let p = chars_of(pat);
    find_at(s, &p, 0).is_some()
}

/// Whether `s` begins with the literal `pat`.
pub fn begins(s: &Vec<char>, pat: &str) -> (b: bool)
    ensures
        b == starts_with(s@, pat@),
{
    let p = chars_of(pat);
    matches_at(s, &p, 0)
}

/// Whether `s` ends with the literal `pat`.
pub fn finishes(s: &Vec<char>, pat: &str) -> (b: bool)
    ensures
        b == ends_with(s@, pat@),
{
    let p = chars_of(pat);
    if p.len() > s.len() {
        false
    } else {
        matches_at(s, &p, s.len() - p.len())
    }
}

/// Whether `s` is exactly the literal `lit`.
pub fn eq_lit(s: &Vec<char>, lit: &str) -> (b: bool)
    ensures
        b == (s@ == lit@),
{
    let p = chars_of(lit);
    if p.len() != s.len() {
        return false;
    }
    let b = matches_at(s, &p, 0);
    assert(s@.subrange(0, p@.len() as int) =~= s@);
    b
}

/// Whether two character vectors are equal.
pub fn eq_vec(a: &Vec<char>, b: &Vec<char>) -> (r: bool)
    ensures
        r == (a@ == b@),
{
    if a.len() != b.len() {
        return false;
    }
    let r = matches_at(a, b, 0);
    assert(a@.subrange(0, b@.len() as int) =~= a@);
    r
}

// ── Single characters ────────────────────────────────────────────────────────

/// The first index at or after `k` holding `c`.
pub open spec fn find_char_from(s: Seq<char>, c: char, k: int) -> Option<int>
    decreases s.len() - k,
{
    if k < 0 || k >= s.len() {
        None
    } else if s[k] == c {
        Some(k)
    } else {
        find_char_from(s, c, k + 1)
    }
}

/// The last index before `k` holding `c` (`str::rfind` on `s[..k]`).
pub open spec fn rfind_char_before(s: Seq<char>, c: char, k: int) -> Option<int>
    decreases k,
{
    if k <= 0 || k > s.len() {
        None
    } else if s[k - 1] == c {
        Some(k - 1)
    } else {
        rfind_char_before(s, c, k - 1)
    }
}

/// The first index at or after `start` holding `c`.
pub fn find_char_at(s: &Vec<char>, c: char, start: usize) -> (r: Option<usize>)
    ensures
        oidx(r) == find_char_from(s@, c, start as int),
{
    let mut i = start;
    while i < s.len()
        invariant
            start <= i,
            find_char_from(s@, c, start as int) == find_char_from(s@, c, i as int),
        decreases s.len() - i,
    {
        if s[i] == c {
            return Some(i);
        }
        i += 1;
    }
    None
}

/// The last index before `end` holding `c`.
pub fn rfind_char_in(s: &Vec<char>, c: char, end: usize) -> (r: Option<usize>)
    requires
        end <= s@.len(),
    ensures
        oidx(r) == rfind_char_before(s@, c, end as int),
{
    let mut i = end;
    while i > 0
        invariant
            i <= end <= s@.len(),
            rfind_char_before(s@, c, end as int) == rfind_char_before(s@, c, i as int),
        decreases i,
    {
        if s[i - 1] == c {
            return Some(i - 1);
        }
        i -= 1;
    }
    None
}

/// `c` is one of the characters of `set`.
pub open spec fn in_set(c: char, set: Seq<char>) -> bool {
    exists|j: int| 0 <= j < set.len() && set[j] == c
}

/// The first index at or after `k` whose character is in `set`.
pub open spec fn find_any_from(s: Seq<char>, set: Seq<char>, k: int) -> Option<int>
    decreases s.len() - k,
{
    if k < 0 || k >= s.len() {
        None
    } else if in_set(s[k], set) {
        Some(k)
    } else {
        find_any_from(s, set, k + 1)
    }
}

/// Whether `c` is one of the characters of `set`.
pub fn char_in(c: char, set: &Vec<char>) -> (b: bool)
    ensures
        b == in_set(c, set@),
{
    let mut j: usize = 0;
    while j < set.len()
        invariant
            j <= set@.len(),
            forall|k: int| 0 <= k < j ==> set@[k] != c,
        decreases set.len() - j,
    {
        if set[j] == c {
            return true;
        }
        j += 1;
    }
    false
}

/// The first index at or after `start` whose character is one of `set`.
pub fn find_any_at(s: &Vec<char>, set: &Vec<char>, start: usize) -> (r: Option<usize>)
    ensures
        oidx(r) == find_any_from(s@, set@, start as int),
{
    let mut i = start;
    while i < s.len()
        invariant
            start <= i,
            find_any_from(s@, set@, start as int) == find_any_from(s@, set@, i as int),
        decreases s.len() - i,
    {
        if char_in(s[i], set) {
            return Some(i);
        }
        i += 1;
    }
    None
}

/// The part of `s` before the first character that is in `set`
/// (`s.split(|c| set.contains(c)).next()`).
pub open spec fn first_piece(s: Seq<char>, set: Seq<char>) -> Seq<char> {
    match find_any_from(s, set, 0) {
        Some(i) => s.take(i),
        None => s,
    }
}

/// The part of `s` before the first character in `set`.
pub fn first_piece_vec(s: &Vec<char>, set: &str) -> (r: Vec<char>)
    ensures
        r@ == first_piece(s@, set@),
{
    let setv = chars_of(set);
    match find_any_at(s, &setv, 0) {
        Some(i) => {
            proof { lemma_find_any_from(s@, setv@, 0); }
            slice(s, 0, i)
        },
        None => slice(s, 0, s.len()),
    }
}

/// `find_any_from` returns an index inside `s`.
pub proof fn lemma_find_any_from(s: Seq<char>, set: Seq<char>, k: int)
    requires
        0 <= k,
    ensures
        match find_any_from(s, set, k) {
            Some(i) => k <= i < s.len() && in_set(s[i], set) && forall|j: int|
                k <= j < i ==> !in_set(#[trigger] s[j], set),
            None => forall|j: int| k <= j < s.len() ==> !in_set(#[trigger] s[j], set),
        },
    decreases s.len() - k,
{
    if k < s.len() && !in_set(s[k], set) {
        lemma_find_any_from(s, set, k + 1);
    }
}

/// `find_char_from` returns an index inside `s` holding `c`.
pub proof fn lemma_find_char_from(s: Seq<char>, c: char, k: int)
    requires
        0 <= k,
    ensures
        match find_char_from(s, c, k) {
            Some(i) => k <= i < s.len() && s[i] == c && forall|j: int|
                k <= j < i ==> #[trigger] s[j] != c,
            None => forall|j: int| k <= j < s.len() ==> #[trigger] s[j] != c,
        },
    decreases s.len() - k,
{
    if k < s.len() && s[k] != c {
        lemma_find_char_from(s, c, k + 1);
    }
}

/// `rfind_char_before` returns an index before `k` holding `c`.
pub proof fn lemma_rfind_char_before(s: Seq<char>, c: char, k: int)
    requires
        0 <= k <= s.len(),
    ensures
        match rfind_char_before(s, c, k) {
            Some(i) => 0 <= i < k && s[i] == c && forall|j: int|
                i < j < k ==> #[trigger] s[j] != c,
            None => forall|j: int| 0 <= j < k ==> #[trigger] s[j] != c,
        },
    decreases k,
{
    if k > 0 && s[k - 1] != c {
        lemma_rfind_char_before(s, c, k - 1);
    }
}

// ── Case and whitespace ──────────────────────────────────────────────────────

/// ASCII lower-casing of one character (`char::to_ascii_lowercase`).
pub open spec fn lower_char(c: char) -> char {
    if 'A' <= c && c <= 'Z' {
        ((c as u32) + 32) as char
    } else {
        c
    }
}

/// ASCII lower-casing of a whole string (`str::to_ascii_lowercase`).
pub open spec fn ascii_lower(s: Seq<char>) -> Seq<char> {
    s.map_values(|c: char| lower_char(c))
}

/// Lower-cases one ASCII letter, leaving every other character alone.
pub fn lower_char_exec(c: char) -> (r: char)
    ensures
        r == lower_char(c),
{
    if 'A' <= c && c <= 'Z' {
        let b = (c as u32) as u8;
        (b + 32) as char
    } else {
        c
    }
}

/// ASCII lower-casing of a character vector.
pub fn ascii_lower_vec(s: &Vec<char>) -> (r: Vec<char>)
    ensures
        r@ == ascii_lower(s@),
{
    let mut r: Vec<char> = Vec::new();
    let mut i: usize = 0;
    while i < s.len()
        invariant
            i <= s@.len(),
            r@ == ascii_lower(s@.take(i as int)),
        decreases s.len() - i,
    {
        r.push(lower_char_exec(s[i]));
        i += 1;
        assert(r@ =~= ascii_lower(s@.take(i as int)));
    }
    assert(s@.take(i as int) =~= s@);
    r
}

/// Unicode `White_Space` (`char::is_whitespace`).
pub open spec fn is_ws(c: char) -> bool {
    let u = c as u32;
    (9 <= u && u <= 13) || u == 32 || u == 0x85 || u == 0xA0 || u == 0x1680 || (0x2000 <= u
        && u <= 0x200A) || u == 0x2028 || u == 0x2029 || u == 0x202F || u == 0x205F || u == 0x3000
}

/// Whether `c` is Unicode white space.
pub fn is_ws_exec(c: char) -> (b: bool)
    ensures
        b == is_ws(c),
{
    let u = c as u32;
    (9 <= u && u <= 13) || u == 32 || u == 0x85 || u == 0xA0 || u == 0x1680 || (0x2000 <= u && u
        <= 0x200A) || u == 0x2028 || u == 0x2029 || u == 0x202F || u == 0x205F || u == 0x3000
}

/// `s` without its leading white space (`str::trim_start`).
pub open spec fn trim_start(s: Seq<char>) -> Seq<char>
    decreases s.len(),
{
    if s.len() > 0 && is_ws(s[0]) {
        trim_start(s.drop_first())
    } else {
        s
    }
}

/// `s` without its trailing white space (`str::trim_end`).
pub open spec fn trim_end(s: Seq<char>) -> Seq<char>
    decreases s.len(),
{
    if s.len() > 0 && is_ws(s.last()) {
        trim_end(s.drop_last())
    } else {
        s
    }
}

/// `s` without leading and trailing white space (`str::trim`).
pub open spec fn trim(s: Seq<char>) -> Seq<char> {
    trim_end(trim_start(s))
}

/// `s[from..to]` with its leading white space removed.
pub fn trim_start_range(s: &Vec<char>, from: usize, to: usize) -> (r: usize)
    requires
        from <= to <= s@.len(),
    ensures
        from <= r <= to,
        trim_start(s@.subrange(from as int, to as int)) == s@.subrange(r as int, to as int),
{
    let mut i = from;
    while i < to && is_ws_exec(s[i])
        invariant
            from <= i <= to <= s@.len(),
            trim_start(s@.subrange(from as int, to as int)) == trim_start(
                s@.subrange(i as int, to as int),
            ),
        decreases to - i,
    {
        assert(s@.subrange(i as int, to as int).drop_first() =~= s@.subrange(
            i + 1,
            to as int,
        ));
        i += 1;
    }
    proof { r_trim_start_stop(s@.subrange(i as int, to as int)); }
    i
}

proof fn r_trim_start_stop(s: Seq<char>)
    requires
        s.len() == 0 || !is_ws(s[0]),
    ensures
        trim_start(s) == s,
{
}

/// `s[from..to]` with its trailing white space removed.
pub fn trim_end_range(s: &Vec<char>, from: usize, to: usize) -> (r: usize)
    requires
        from <= to <= s@.len(),
    ensures
        from <= r <= to,
        trim_end(s@.subrange(from as int, to as int)) == s@.subrange(from as int, r as int),
{
    let mut j = to;
    while j > from && is_ws_exec(s[j - 1])
        invariant
            from <= j <= to <= s@.len(),
            trim_end(s@.subrange(from as int, to as int)) == trim_end(
                s@.subrange(from as int, j as int),
            ),
        decreases j,
    {
        assert(s@.subrange(from as int, j as int).drop_last() =~= s@.subrange(
            from as int,
            j - 1,
        ));
        j -= 1;
    }
    j
}

/// `trim` of `s[from..to]`, as a pair of bounds.
pub fn trim_range(s: &Vec<char>, from: usize, to: usize) -> (r: (usize, usize))
    requires
        from <= to <= s@.len(),
    ensures
        from <= r.0 <= r.1 <= to,
        trim(s@.subrange(from as int, to as int)) == s@.subrange(r.0 as int, r.1 as int),
{
    let a = trim_start_range(s, from, to);
    let b = trim_end_range(s, a, to);
    (a, b)
}

/// `trim(s)` as a new vector.
pub fn trim_vec(s: &Vec<char>) -> (r: Vec<char>)
    ensures
        r@ == trim(s@),
{
    let (a, b) = trim_range(s, 0, s.len());
    assert(s@.subrange(0, s@.len() as int) =~= s@);
    slice(s, a, b)
}

// ── Pattern trimming and replacement ─────────────────────────────────────────

/// `s` with every leading repetition of `pat` removed (`str::trim_start_matches`).
pub open spec fn trim_start_matches(s: Seq<char>, pat: Seq<char>) -> Seq<char>
    decreases s.len(),
{
    if pat.len() > 0 && starts_with(s, pat) {
        trim_start_matches(s.skip(pat.len() as int), pat)
    } else {
        s
    }
}

/// `s` with every trailing `c` removed (`str::trim_end_matches` with a char).
pub open spec fn trim_end_char(s: Seq<char>, c: char) -> Seq<char>
    decreases s.len(),
{
    if s.len() > 0 && s.last() == c {
        trim_end_char(s.drop_last(), c)
    } else {
        s
    }
}

/// `s` with every leading `c` removed (`str::trim_start_matches` with a char).
pub open spec fn trim_start_char(s: Seq<char>, c: char) -> Seq<char>
    decreases s.len(),
{
    if s.len() > 0 && s[0] == c {
        trim_start_char(s.drop_first(), c)
    } else {
        s
    }
}

/// `trim_start_matches` of `s[from..]`, as the new start index.
pub fn trim_start_matches_at(s: &Vec<char>, pat: &Vec<char>, from: usize) -> (r: usize)
    requires
        from <= s@.len(),
    ensures
        from <= r <= s@.len(),
        trim_start_matches(s@.skip(from as int), pat@) == s@.skip(r as int),
{
    let mut i = from;
    if pat.len() == 0 {
        return i;
    }
    while matches_at(s, pat, i)
        invariant
            from <= i <= s@.len(),
            pat@.len() > 0,
            trim_start_matches(s@.skip(from as int), pat@) == trim_start_matches(
                s@.skip(i as int),
                pat@,
            ),
        decreases s.len() - i,
    {
        assert(s@.skip(i as int).subrange(0, pat@.len() as int) =~= s@.subrange(
            i as int,
            i + pat@.len(),
        ));
        assert(s@.skip(i as int).skip(pat@.len() as int) =~= s@.skip(i + pat@.len()));
        i = i + pat.len();
    }
    assert(s@.skip(i as int).len() < pat@.len() || s@.skip(i as int).subrange(
        0,
        pat@.len() as int,
    ) =~= s@.subrange(i as int, i + pat@.len()));
    i
}

/// `trim_start_char` of `s[from..to]`, as the new start index.
pub fn trim_start_char_range(s: &Vec<char>, c: char, from: usize, to: usize) -> (r: usize)
    requires
        from <= to <= s@.len(),
    ensures
        from <= r <= to,
        trim_start_char(s@.subrange(from as int, to as int), c) == s@.subrange(
            r as int,
            to as int,
        ),
{
    let mut i = from;
    while i < to && s[i] == c
        invariant
            from <= i <= to <= s@.len(),
            trim_start_char(s@.subrange(from as int, to as int), c) == trim_start_char(
                s@.subrange(i as int, to as int),
                c,
            ),
        decreases to - i,
    {
        assert(s@.subrange(i as int, to as int).drop_first() =~= s@.subrange(
            i + 1,
            to as int,
        ));
        i += 1;
    }
    i
}

/// `trim_end_char` of `s[from..to]`, as the new end index.
pub fn trim_end_char_range(s: &Vec<char>, c: char, from: usize, to: usize) -> (r: usize)
    requires
        from <= to <= s@.len(),
    ensures
        from <= r <= to,
        trim_end_char(s@.subrange(from as int, to as int), c) == s@.subrange(
            from as int,
            r as int,
        ),
{
    let mut j = to;
    while j > from && s[j - 1] == c
        invariant
            from <= j <= to <= s@.len(),
            trim_end_char(s@.subrange(from as int, to as int), c) == trim_end_char(
                s@.subrange(from as int, j as int),
                c,
            ),
        decreases j,
    {
        assert(s@.subrange(from as int, j as int).drop_last() =~= s@.subrange(
            from as int,
            j - 1,
        ));
        j -= 1;
    }
    j
}

/// `s` with every non-overlapping occurrence of `pat` (scanning left to
/// right) replaced by `rep` (`str::replace` with a non-empty pattern).
pub open spec fn replace(s: Seq<char>, pat: Seq<char>, rep: Seq<char>) -> Seq<char>
    recommends
        pat.len() > 0,
    decreases s.len(),
{
    if s.len() == 0 || pat.len() == 0 {
        s
    } else if starts_with(s, pat) {
        rep + replace(s.skip(pat.len() as int), pat, rep)
    } else {
        seq![s[0]] + replace(s.drop_first(), pat, rep)
    }
}

/// `replace(s, pat, rep)` for a non-empty `pat`.
pub fn replace_vec(s: &Vec<char>, pat: &Vec<char>, rep: &Vec<char>) -> (r: Vec<char>)
    requires
        pat@.len() > 0,
    ensures
        r@ == replace(s@, pat@, rep@),
{
    let mut out: Vec<char> = Vec::new();
    let mut i: usize = 0;
    assert(s@.skip(0) =~= s@);
    assert(out@ + replace(s@.skip(0), pat@, rep@) =~= replace(s@, pat@, rep@));
    while i < s.len()
        invariant
            i <= s@.len(),
            pat@.len() > 0,
            out@ + replace(s@.skip(i as int), pat@, rep@) == replace(s@, pat@, rep@),
        decreases s.len() - i,
    {
        let ghost rest = s@.skip(i as int);
        let ghost out0 = out@;
        if matches_at(s, pat, i) {
            assert(rest.subrange(0, pat@.len() as int) =~= s@.subrange(
                i as int,
                i + pat@.len(),
            ));
            assert(rest.skip(pat@.len() as int) =~= s@.skip(i + pat@.len()));
            assert(replace(rest, pat@, rep@) == rep@ + replace(
                s@.skip(i + pat@.len()),
                pat@,
                rep@,
            ));
            extend(&mut out, rep);
            assert(out@ + replace(s@.skip(i + pat@.len()), pat@, rep@) =~= out0 + (rep@
                + replace(s@.skip(i + pat@.len()), pat@, rep@)));
            i = i + pat.len();
        } else {
            assert(rest.len() < pat@.len() || rest.subrange(0, pat@.len() as int)
                =~= s@.subrange(i as int, i + pat@.len()));
            assert(rest.drop_first() =~= s@.skip(i + 1));
            assert(replace(rest, pat@, rep@) == seq![rest[0]] + replace(
                s@.skip(i + 1),
                pat@,
                rep@,
            ));
            out.push(s[i]);
            i += 1;
            assert(out@ + replace(s@.skip(i as int), pat@, rep@) =~= out0 + (seq![rest[0]]
                + replace(s@.skip(i as int), pat@, rep@)));
        }
    }
    assert(out@ + replace(s@.skip(i as int), pat@, rep@) =~= out@);
    out
}


// ── Lines, words and fields ──────────────────────────────────────────────────

/// A line with one trailing carriage return removed.
pub open spec fn strip_cr(t: Seq<char>) -> Seq<char> {
    if t.len() > 0 && t.last() == '\r' {
        t.drop_last()
    } else {
        t
    }
}

/// The lines of `s` (`str::lines`): split at `\n`, a `\r` just before the
/// `\n` dropped, and no empty line after a final `\n`.
pub open spec fn lines(s: Seq<char>) -> Seq<Seq<char>>
    decreases s.len(),
{
    if s.len() == 0 {
        seq![]
    } else {
        match find_char_from(s, '\n', 0) {
            Some(i) => {
                proof {
                    lemma_find_char_from(s, '\n', 0);
                }
                seq![strip_cr(s.take(i))] + lines(s.skip(i + 1))
            },
            None => seq![s],
        }
    }
}

/// The views of a sequence of character vectors.
pub open spec fn views(v: Seq<Vec<char>>) -> Seq<Seq<char>> {
    v.map_values(|x: Vec<char>| x@)
}

/// The lines of `s`.
pub fn lines_vec(s: &Vec<char>) -> (r: Vec<Vec<char>>)
    ensures
        views(r@) == lines(s@),
{
    let mut out: Vec<Vec<char>> = Vec::new();
    let mut i: usize = 0;
    assert(s@.skip(0) =~= s@);
    assert(views(out@) + lines(s@.skip(0)) =~= lines(s@));
    while i < s.len()
        invariant
            i <= s@.len(),
            views(out@) + lines(s@.skip(i as int)) == lines(s@),
        decreases s.len() - i,
    {
        let ghost rest = s@.skip(i as int);
        let ghost out0 = views(out@);
        match find_char_at(s, '\n', i) {
            Some(j) => {
                proof {
                    lemma_find_char_from(s@, '\n', i as int);
                    lemma_find_char_from(rest, '\n', 0);
                    assert forall|k: int| 0 <= k < j - i implies #[trigger] rest[k] != '\n' by {
                        assert(rest[k] == s@[i + k]);
                    }
                    assert(rest[j - i] == s@[j as int]);
                    assert(find_char_from(rest, '\n', 0) == Some(j - i)) by {
                        lemma_find_char_from(rest, '\n', 0);
                        match find_char_from(rest, '\n', 0) {
                            Some(m) => {
                                if m < j - i {
                                    assert(rest[m] != '\n');
                                }
                            },
                            None => {
                                assert(rest[j - i] != '\n');
                            },
                        }
                    }
                    assert(rest.take(j - i) =~= s@.subrange(i as int, j as int));
                    assert(rest.skip(j - i + 1) =~= s@.skip(j + 1));
                }
                let mut e = j;
                if e > i && s[e - 1] == '\r' {
                    e = e - 1;
                }
                let line = slice(s, i, e);
                proof {
                    assert(line@ =~= strip_cr(s@.subrange(i as int, j as int)));
                }
                out.push(line);
                i = j + 1;
                proof {
                    assert(views(out@) =~= out0.push(line@));
                    assert(views(out@) + lines(s@.skip(i as int)) =~= out0 + lines(rest));
                }
            },
            None => {
                proof {
                    lemma_find_char_from(s@, '\n', i as int);
                    lemma_find_char_from(rest, '\n', 0);
                    match find_char_from(rest, '\n', 0) {
                        Some(m) => {
                            assert(rest[m] == s@[i + m]);
                        },
                        None => {},
                    }
                    assert(rest =~= s@.subrange(i as int, s@.len() as int));
                }
                let line = slice(s, i, s.len());
                out.push(line);
                i = s.len();
                proof {
                    assert(views(out@) =~= out0.push(line@));
                    assert(s@.skip(i as int) =~= Seq::<char>::empty());
                    assert(views(out@) + lines(s@.skip(i as int)) =~= out0 + lines(rest));
                }
            },
        }
    }
    assert(s@.skip(i as int) =~= Seq::<char>::empty());
    assert(views(out@) + lines(s@.skip(i as int)) =~= views(out@));
    out
}

/// The end of the run of non-white-space characters of `s` starting at `k`.
pub open spec fn word_end(s: Seq<char>, k: int) -> int
    decreases s.len() - k,
{
    if k < 0 || k >= s.len() || is_ws(s[k]) {
        k
    } else {
        word_end(s, k + 1)
    }
}

/// The white-space separated words of `s` (`str::split_whitespace`).
pub open spec fn words(s: Seq<char>) -> Seq<Seq<char>>
    decreases s.len(),
{
    let t = trim_start(s);
    if t.len() == 0 {
        seq![]
    } else {
        let k = word_end(t, 0);
        proof {
            lemma_trim_start_len(s);
            lemma_word_end(t, 0);
        }
        seq![t.take(k)] + words(t.skip(k))
    }
}

/// `trim_start` never lengthens, and keeps a non-white first character.
pub proof fn lemma_trim_start_len(s: Seq<char>)
    ensures
        trim_start(s).len() <= s.len(),
        trim_start(s).len() > 0 ==> !is_ws(trim_start(s)[0]),
        trim_start(s).len() == 0 || trim_start(s) == s.skip(s.len() - trim_start(s).len()),
    decreases s.len(),
{
    if s.len() > 0 && is_ws(s[0]) {
        lemma_trim_start_len(s.drop_first());
        let t = trim_start(s.drop_first());
        if t.len() > 0 {
            assert(s.drop_first().skip(s.drop_first().len() - t.len()) =~= s.skip(
                s.len() - t.len(),
            ));
        }
    } else {
        assert(s.skip(0) =~= s);
    }
}

/// `word_end` lies in `[k, s.len()]` and bounds a white-space-free run.
pub proof fn lemma_word_end(s: Seq<char>, k: int)
    requires
        0 <= k <= s.len(),
    ensures
        k <= word_end(s, k) <= s.len(),
        forall|j: int| k <= j < word_end(s, k) ==> !is_ws(#[trigger] s[j]),
        word_end(s, k) < s.len() ==> is_ws(s[word_end(s, k)]),
        (k < s.len() && !is_ws(s[k])) ==> word_end(s, k) > k,
    decreases s.len() - k,
{
    if k < s.len() && !is_ws(s[k]) {
        lemma_word_end(s, k + 1);
    }
}

/// The pieces of `s` between occurrences of `c` (`str::split` with a
/// character): one more piece than there are occurrences.
pub open spec fn split_char(s: Seq<char>, c: char) -> Seq<Seq<char>>
    decreases s.len(),
{
    match find_char_from(s, c, 0) {
        Some(i) => {
            proof {
                lemma_find_char_from(s, c, 0);
            }
            seq![s.take(i)] + split_char(s.skip(i + 1), c)
        },
        None => seq![s],
    }
}

/// The non-empty strings of `v`, in order.
pub open spec fn non_empty(v: Seq<Seq<char>>) -> Seq<Seq<char>>
    decreases v.len(),
{
    if v.len() == 0 {
        seq![]
    } else {
        non_empty(v.drop_last()) + if v.last().len() > 0 {
            seq![v.last()]
        } else {
            seq![]
        }
    }
}

/// The pieces of `s` between occurrences of `c`.
pub fn split_char_vec(s: &Vec<char>, c: char) -> (r: Vec<Vec<char>>)
    ensures
        views(r@) == split_char(s@, c),
{
    let mut out: Vec<Vec<char>> = Vec::new();
    let mut i: usize = 0;
    assert(s@.skip(0) =~= s@);
    assert(views(out@) + split_char(s@.skip(0), c) =~= split_char(s@, c));
    loop
        invariant
            i <= s@.len(),
            views(out@) + split_char(s@.skip(i as int), c) == split_char(s@, c),
        decreases s@.len() - i,
    {
        let ghost rest = s@.skip(i as int);
        let ghost out0 = views(out@);
        proof {
            lemma_find_char_from(s@, c, i as int);
            lemma_find_char_from(rest, c, 0);
        }
        match find_char_at(s, c, i) {
            Some(j) => {
                proof {
                    assert(find_char_from(s@, c, i as int) == Some(j as int));
                    assert(i <= j < s@.len());
                    assert forall|k: int| 0 <= k < j - i implies #[trigger] rest[k] != c by {
                        assert(rest[k] == s@[i + k]);
                    }
                    assert(rest[j - i] == s@[j as int]);
                    match find_char_from(rest, c, 0) {
                        Some(m) => {
                            if m < j - i {
                                assert(rest[m] != c);
                            }
                        },
                        None => {
                            assert(rest[j - i] != c);
                        },
                    }
                    assert(find_char_from(rest, c, 0) == Some(j - i));
                    assert(rest.take(j - i) =~= s@.subrange(i as int, j as int));
                    assert(rest.skip(j - i + 1) =~= s@.skip(j + 1));
                }
                let piece = slice(s, i, j);
                out.push(piece);
                let sl = s.len();
                assert(j < sl);
                i = j + 1;
                proof {
                    assert(views(out@) =~= out0.push(piece@));
                    assert(views(out@) + split_char(s@.skip(i as int), c) =~= out0 + split_char(
                        rest,
                        c,
                    ));
                }
            },
            None => {
                proof {
                    match find_char_from(rest, c, 0) {
                        Some(m) => {
                            assert(rest[m] == s@[i + m]);
                        },
                        None => {},
                    }
                    assert(rest =~= s@.subrange(i as int, s@.len() as int));
                }
                let piece = slice(s, i, s.len());
                out.push(piece);
                proof {
                    assert(views(out@) =~= out0.push(piece@));
                    assert(views(out@) =~= out0 + split_char(rest, c));
                }
                return out;
            },
        }
    }
}

/// The non-empty vectors of `v`, in order.
pub fn non_empty_vec(v: Vec<Vec<char>>) -> (r: Vec<Vec<char>>)
    ensures
        views(r@) == non_empty(views(v@)),
{
    let mut out: Vec<Vec<char>> = Vec::new();
    let mut i: usize = 0;
    while i < v.len()
        invariant
            i <= v@.len(),
            views(out@) == non_empty(views(v@).take(i as int)),
        decreases v.len() - i,
    {
        assert(views(v@).take(i + 1).drop_last() =~= views(v@).take(i as int));
        assert(views(v@).take(i + 1).last() == v@[i as int]@);
        if v[i].len() > 0 {
            let ghost before = views(out@);
            out.push(v[i].clone());
            assert(views(out@) =~= before.push(v@[i as int]@));
        }
        i += 1;
    }
    assert(views(v@).take(i as int) =~= views(v@));
    out
}

/// The words of `s` (`str::split_whitespace`).
pub fn words_vec(s: &Vec<char>) -> (r: Vec<Vec<char>>)
    ensures
        views(r@) == words(s@),
{
    let mut out: Vec<Vec<char>> = Vec::new();
    let mut i: usize = 0;
    assert(s@.skip(0) =~= s@);
    assert(views(out@) + words(s@.skip(0)) =~= words(s@));
    while i < s.len()
        invariant
            i <= s@.len(),
            views(out@) + words(s@.skip(i as int)) == words(s@),
        decreases s.len() - i,
    {
        let ghost rest = s@.skip(i as int);
        let ghost out0 = views(out@);
        let j = trim_start_range(s, i, s.len());
        assert(s@.subrange(i as int, s@.len() as int) =~= rest);
        let ghost t = trim_start(rest);
        assert(t =~= s@.skip(j as int));
        if j == s.len() {
            assert(t.len() == 0);
            assert(words(rest) =~= Seq::<Seq<char>>::empty());
            i = j;
            assert(s@.skip(i as int) =~= Seq::<char>::empty());
            assert(views(out@) + words(s@.skip(i as int)) =~= out0 + words(rest));
        } else {
            let mut k = j;
            while k < s.len() && !is_ws_exec(s[k])
                invariant
                    j <= k <= s@.len(),
                    forall|x: int| j <= x < k ==> !is_ws(#[trigger] s@[x]),
                decreases s.len() - k,
            {
                k += 1;
            }
            proof {
                lemma_trim_start_len(rest);
                lemma_word_end(t, 0);
                let e = word_end(t, 0);
                let m = k - j;
                assert forall|x: int| 0 <= x < m implies !is_ws(#[trigger] t[x]) by {
                    assert(t[x] == s@[j + x]);
                }
                assert(m < t.len() ==> is_ws(t[m])) by {
                    if m < t.len() {
                        assert(t[m] == s@[k as int]);
                    }
                }
                if e < m {
                    assert(is_ws(t[e]));
                    assert(!is_ws(t[e]));
                }
                if m < e {
                    assert(!is_ws(t[m]));
                }
                assert(e == m);
                assert(t.take(m) =~= s@.subrange(j as int, k as int));
                assert(t.skip(m) =~= s@.skip(k as int));
            }
            let w = slice(s, j, k);
            out.push(w);
            i = k;
            proof {
                assert(views(out@) =~= out0.push(w@));
                assert(views(out@) + words(s@.skip(i as int)) =~= out0 + words(rest));
            }
        }
    }
    assert(s@.skip(i as int) =~= Seq::<char>::empty());
    assert(views(out@) + words(s@.skip(i as int)) =~= views(out@));
    out
}

/// `parts` with `sep` between consecutive parts (`[&str]::join`).
pub open spec fn join(parts: Seq<Seq<char>>, sep: Seq<char>) -> Seq<char>
    decreases parts.len(),
{
    if parts.len() == 0 {
        seq![]
    } else if parts.len() == 1 {
        parts[0]
    } else {
        join(parts.drop_last(), sep) + sep + parts.last()
    }
}

/// `join(parts, sep)` of a list of character vectors.
pub fn join_vec(parts: &Vec<Vec<char>>, sep: &str) -> (r: Vec<char>)
    ensures
        r@ == join(views(parts@), sep@),
{
    let mut out: Vec<char> = Vec::new();
    let mut i: usize = 0;
    while i < parts.len()
        invariant
            i <= parts@.len(),
            out@ == join(views(parts@).take(i as int), sep@),
        decreases parts.len() - i,
    {
        assert(views(parts@).take(i + 1).drop_last() =~= views(parts@).take(i as int));
        assert(views(parts@).take(i + 1).last() == parts@[i as int]@);
        if i > 0 {
            extend_str(&mut out, sep);
        }
        extend(&mut out, &parts[i]);
        i += 1;
        assert(out@ =~= join(views(parts@).take(i as int), sep@));
    }
    assert(views(parts@).take(i as int) =~= views(parts@));
    out
}

/// `join(strings(parts), sep)` of a list of strings.
pub fn join_strings(parts: &Vec<String>, sep: &str) -> (r: Vec<char>)
    ensures
        r@ == join(strings(parts@), sep@),
{
    let mut out: Vec<char> = Vec::new();
    let mut i: usize = 0;
    while i < parts.len()
        invariant
            i <= parts@.len(),
            out@ == join(strings(parts@).take(i as int), sep@),
        decreases parts.len() - i,
    {
        assert(strings(parts@).take(i + 1).drop_last() =~= strings(parts@).take(i as int));
        assert(strings(parts@).take(i + 1).last() == parts@[i as int]@);
        if i > 0 {
            extend_str(&mut out, sep);
        }
        extend_str(&mut out, parts[i].as_str());
        i += 1;
        assert(out@ =~= join(strings(parts@).take(i as int), sep@));
    }
    assert(strings(parts@).take(i as int) =~= strings(parts@));
    out
}

// ── Splitting helpers ────────────────────────────────────────────────────────

/// The second piece of `s.split(pat)` (`s.split(pat).nth(1)`): the text
/// between the first and the second occurrence of `pat`, or after the first
/// when there is no second. `None` when `pat` does not occur.
pub open spec fn split_second(s: Seq<char>, pat: Seq<char>) -> Option<Seq<char>> {
    match find(s, pat) {
        None => None,
        Some(i) => {
            let r = s.skip(i + pat.len());
            Some(
                match find(r, pat) {
                    Some(j) => r.take(j),
                    None => r,
                },
            )
        },
    }
}

/// `s.split(pat).nth(1)` for a non-empty literal `pat`.
pub fn split_second_vec(s: &Vec<char>, pat: &str) -> (r: Option<Vec<char>>)
    ensures
        match r {
            Some(v) => split_second(s@, pat@) == Some(v@),
            None => split_second(s@, pat@) is None,
        },
{
    let p = chars_of(pat);
    match find_at(s, &p, 0) {
        None => None,
        Some(i) => {
            proof {
                lemma_find_from(s@, p@, 0);
            }
            assert(occurs_at(s@, p@, i as int));
            let sl = s.len();
            let pl = p.len();
            assert(i + pl <= sl);
            let rest = slice(s, i + pl, sl);
            assert(rest@ =~= s@.skip(i + p@.len()));
            match find_at(&rest, &p, 0) {
                Some(j) => {
                    proof {
                        lemma_find_from(rest@, p@, 0);
                    }
                    Some(slice(&rest, 0, j))
                },
                None => Some(rest),
            }
        },
    }
}

/// `trim_start_matches(s, pat)` as a new vector.
pub fn trim_start_matches_vec(s: &Vec<char>, pat: &Vec<char>) -> (r: Vec<char>)
    ensures
        r@ == trim_start_matches(s@, pat@),
{
    let i = trim_start_matches_at(s, pat, 0);
    assert(s@.skip(0) =~= s@);
    assert(s@.skip(i as int) =~= s@.subrange(i as int, s@.len() as int));
    slice(s, i, s.len())
}

/// `trim_start_char(s, c)` as a new vector.
pub fn trim_start_char_vec(s: &Vec<char>, c: char) -> (r: Vec<char>)
    ensures
        r@ == trim_start_char(s@, c),
{
    let i = trim_start_char_range(s, c, 0, s.len());
    assert(s@.subrange(0, s@.len() as int) =~= s@);
    slice(s, i, s.len())
}

/// `trim_end_char(s, c)` as a new vector.
pub fn trim_end_char_vec(s: &Vec<char>, c: char) -> (r: Vec<char>)
    ensures
        r@ == trim_end_char(s@, c),
{
    let j = trim_end_char_range(s, c, 0, s.len());
    assert(s@.subrange(0, s@.len() as int) =~= s@);
    slice(s, 0, j)
}

/// `s` without the suffix `suf`, when it ends with it (`str::strip_suffix`).
pub open spec fn strip_suffix(s: Seq<char>, suf: Seq<char>) -> Option<Seq<char>> {
    if ends_with(s, suf) {
        Some(s.take(s.len() - suf.len()))
    } else {
        None
    }
}

/// `s` without the prefix `pre`, when it begins with it (`str::strip_prefix`).
pub open spec fn strip_prefix(s: Seq<char>, pre: Seq<char>) -> Option<Seq<char>> {
    if starts_with(s, pre) {
        Some(s.skip(pre.len() as int))
    } else {
        None
    }
}

/// `strip_suffix(s, suf)` for a literal `suf`.
pub fn strip_suffix_vec(s: &Vec<char>, suf: &str) -> (r: Option<Vec<char>>)
    ensures
        match r {
            Some(v) => strip_suffix(s@, suf@) == Some(v@),
            None => strip_suffix(s@, suf@) is None,
        },
{
    let p = chars_of(suf);
    if p.len() <= s.len() && matches_at(s, &p, s.len() - p.len()) {
        Some(slice(s, 0, s.len() - p.len()))
    } else {
        None
    }
}

/// `strip_prefix(s, pre)` for a literal `pre`.
pub fn strip_prefix_vec(s: &Vec<char>, pre: &str) -> (r: Option<Vec<char>>)
    ensures
        match r {
            Some(v) => strip_prefix(s@, pre@) == Some(v@),
            None => strip_prefix(s@, pre@) is None,
        },
{
    let p = chars_of(pre);
    if matches_at(s, &p, 0) {
        let r = slice(s, p.len(), s.len());
        assert(r@ =~= s@.skip(p@.len() as int));
        Some(r)
    } else {
        None
    }
}

// ── Unicode lower-casing ─────────────────────────────────────────────────────

/// What `str::to_lowercase` returns for `s`: Unicode lower-casing by the
/// standard library's character tables.
pub uninterp spec fn unicode_lower(s: Seq<char>) -> Seq<char>;

/// Every character of `s` is ASCII.
pub open spec fn all_ascii(s: Seq<char>) -> bool {
    forall|i: int| 0 <= i < s.len() ==> #[trigger] s[i] <= '\u{7f}'
}

/// `str::to_lowercase`. Trusted: the result is `unicode_lower` of `s`,
/// and for ASCII text it is the ASCII lower-casing (the Unicode lowercase
/// mapping of an ASCII character is its ASCII lowercase); nothing more is
/// stated of the Unicode case tables.
#[verifier::external_body]
pub(crate) fn to_lowercase(s: &str) -> (r: String)
    ensures
        r@ == unicode_lower(s@),
        all_ascii(s@) ==> r@ == ascii_lower(s@),
{
    s.to_lowercase()
}

// ── UTF-8 byte offsets ───────────────────────────────────────────────────────

/// Bytes of `c` in UTF-8.
pub open spec fn utf8_width(c: char) -> nat {
    let u = c as u32;
    if u < 0x80 {
        1
    } else if u < 0x800 {
        2
    } else if u < 0x10000 {
        3
    } else {
        4
    }
}

/// Bytes of `s` in UTF-8 (`str::len`).
pub open spec fn utf8_len(s: Seq<char>) -> nat
    decreases s.len(),
{
    if s.len() == 0 {
        0
    } else {
        utf8_len(s.drop_last()) + utf8_width(s.last())
    }
}

/// The number of characters of `s` that span exactly its first `n` bytes,
/// when byte offset `n` is a character boundary.
pub open spec fn chars_at_byte(s: Seq<char>, n: int) -> Option<int> {
    if exists|k: int| 0 <= k <= s.len() && utf8_len(#[trigger] s.take(k)) == n {
        Some(choose|k: int| 0 <= k <= s.len() && utf8_len(#[trigger] s.take(k)) == n)
    } else {
        None
    }
}

/// Bytes of one character.
pub fn utf8_width_exec(c: char) -> (w: usize)
    ensures
        w == utf8_width(c),
{
    let u = c as u32;
    if u < 0x80 {
        1
    } else if u < 0x800 {
        2
    } else if u < 0x10000 {
        3
    } else {
        4
    }
}

pub proof fn lemma_utf8_len_take_mono(s: Seq<char>, i: int, j: int)
    requires
        0 <= i <= j <= s.len(),
    ensures
        utf8_len(s.take(i)) + (j - i) <= utf8_len(s.take(j)),
    decreases j - i,
{
    if i < j {
        assert(s.take(j).drop_last() =~= s.take(j - 1));
        lemma_utf8_len_take_mono(s, i, j - 1);
    }
}

/// The characters of `s` spanning its first `n` bytes, or `None` when byte
/// `n` falls inside a character or past the end.
pub fn chars_at_byte_exec(s: &Vec<char>, n: usize) -> (r: Option<usize>)
    ensures
        match r {
            Some(k) => chars_at_byte(s@, n as int) == Some(k as int),
            None => chars_at_byte(s@, n as int) is None,
        },
{
    let mut i: usize = 0;
    let mut acc: usize = 0;
    assert(s@.take(0) =~= Seq::<char>::empty());
    while i < s.len() && acc < n
        invariant
            i <= s@.len(),
            acc == utf8_len(s@.take(i as int)),
            acc <= n,
            forall|k: int| 0 <= k < i ==> utf8_len(#[trigger] s@.take(k)) < n,
        decreases s.len() - i,
    {
        assert(s@.take(i + 1).drop_last() =~= s@.take(i as int));
        let w = utf8_width_exec(s[i]);
        if w > n - acc {
            proof {
                assert forall|k: int| 0 <= k <= s@.len() implies utf8_len(#[trigger] s@.take(k))
                    != n by {
                    if k > i {
                        lemma_utf8_len_take_mono(s@, i + 1, k);
                    }
                }
            }
            return None;
        }
        acc = acc + w;
        i = i + 1;
    }
    proof {
        assert forall|k: int| i < k <= s@.len() implies utf8_len(#[trigger] s@.take(k)) > acc by {
            lemma_utf8_len_take_mono(s@, i as int, k);
        }
    }
    if acc == n {
        proof {
            assert(utf8_len(s@.take(i as int)) == n);
            let k = choose|k: int| 0 <= k <= s@.len() && utf8_len(#[trigger] s@.take(k)) == n;
            if k < i {
                assert(utf8_len(s@.take(k)) < n);
            }
            if k > i {
                assert(utf8_len(s@.take(k)) > acc);
            }
        }
        Some(i)
    } else {
        proof {
            assert forall|k: int| 0 <= k <= s@.len() implies utf8_len(#[trigger] s@.take(k)) != n by {
                if k > i {
                    assert(utf8_len(s@.take(k)) > acc);
                }
                if k == i {
                    if acc < n {
                        assert(i == s@.len());
                    }
                }
            }
        }
        None
    }
}

// ── Laws of trimming ─────────────────────────────────────────────────────────

proof fn lemma_trim_start_keeps_end(s: Seq<char>)
    ensures
        trim_start(s).len() == 0 || (s.len() > 0 && trim_start(s).last() == s.last()),
    decreases s.len(),
{
    if s.len() > 0 && is_ws(s[0]) {
        lemma_trim_start_keeps_end(s.drop_first());
    }
}

proof fn lemma_trim_end_keeps_start(s: Seq<char>)
    ensures
        trim_end(s).len() == 0 || (s.len() > 0 && trim_end(s)[0] == s[0]),
    decreases s.len(),
{
    if s.len() > 0 && is_ws(s.last()) {
        lemma_trim_end_keeps_start(s.drop_last());
        if trim_end(s.drop_last()).len() > 0 {
            assert(s.drop_last()[0] == s[0]);
        }
    }
}

proof fn lemma_trim_end_stops(s: Seq<char>)
    ensures
        trim_end(s).len() == 0 || !is_ws(trim_end(s).last()),
    decreases s.len(),
{
    if s.len() > 0 && is_ws(s.last()) {
        lemma_trim_end_stops(s.drop_last());
    }
}

/// Law: trimming twice is trimming once.
pub proof fn lemma_trim_idempotent(s: Seq<char>)
    ensures
        trim(trim(s)) == trim(s),
{
    let t = trim(s);
    let a = trim_start(s);
    lemma_trim_start_len(s);
    lemma_trim_end_keeps_start(a);
    lemma_trim_end_stops(a);
    // `t` starts with a non-white character, so trimming its start is a no-op.
    if t.len() > 0 {
        assert(!is_ws(t[0]));
    }
    assert(trim_start(t) == t);
    // `t` ends with a non-white character, so trimming its end is a no-op.
    if t.len() > 0 {
        assert(trim_end(t) == t);
    } else {
        assert(trim_end(t) == t);
    }
}

// ── Order ────────────────────────────────────────────────────────────────────

/// `a` sorts before `b`, character by character (the order of `str`).
pub open spec fn lex_lt(a: Seq<char>, b: Seq<char>) -> bool
    decreases a.len(),
{
    if a.len() == 0 {
        b.len() > 0
    } else if b.len() == 0 {
        false
    } else if a[0] != b[0] {
        a[0] < b[0]
    } else {
        lex_lt(a.drop_first(), b.drop_first())
    }
}

/// Whether `a` sorts before `b`.
pub fn lex_less(a: &Vec<char>, b: &Vec<char>) -> (r: bool)
    ensures
        r == lex_lt(a@, b@),
{
    let mut i: usize = 0;
    assert(a@.skip(0) =~= a@);
    assert(b@.skip(0) =~= b@);
    while i < a.len() && i < b.len() && a[i] == b[i]
        invariant
            i <= a@.len(),
            i <= b@.len(),
            lex_lt(a@, b@) == lex_lt(a@.skip(i as int), b@.skip(i as int)),
        decreases a.len() - i,
    {
        assert(a@.skip(i as int).drop_first() =~= a@.skip(i + 1));
        assert(b@.skip(i as int).drop_first() =~= b@.skip(i + 1));
        i += 1;
    }
    if i == a.len() {
        i < b.len()
    } else if i == b.len() {
        false
    } else {
        a[i] < b[i]
    }
}

/// `lex_lt` never relates a string to itself and never both ways.
pub proof fn lemma_lex_asym(a: Seq<char>, b: Seq<char>)
    ensures
        !lex_lt(a, a),
        lex_lt(a, b) ==> !lex_lt(b, a),
    decreases a.len(),
{
    if a.len() > 0 {
        lemma_lex_asym(a.drop_first(), a.drop_first());
        if b.len() > 0 {
            lemma_lex_asym(a.drop_first(), b.drop_first());
        }
    }
}

/// `lex_lt` is transitive.
pub proof fn lemma_lex_trans(a: Seq<char>, b: Seq<char>, c: Seq<char>)
    requires
        lex_lt(a, b),
        lex_lt(b, c),
    ensures
        lex_lt(a, c),
    decreases a.len(),
{
    if a.len() > 0 && b.len() > 0 && c.len() > 0 && a[0] == b[0] && b[0] == c[0] {
        lemma_lex_trans(a.drop_first(), b.drop_first(), c.drop_first());
    }
}

/// Two different strings are ordered one way or the other.
pub proof fn lemma_lex_total(a: Seq<char>, b: Seq<char>)
    requires
        a != b,
    ensures
        lex_lt(a, b) || lex_lt(b, a),
    decreases a.len(),
{
    if a.len() > 0 && b.len() > 0 && a[0] == b[0] {
        assert(a.drop_first() != b.drop_first()) by {
            if a.drop_first() == b.drop_first() {
                assert(a =~= seq![a[0]] + a.drop_first());
                assert(b =~= seq![b[0]] + b.drop_first());
            }
        }
        lemma_lex_total(a.drop_first(), b.drop_first());
    } else if a.len() == 0 && b.len() == 0 {
        assert(a =~= b);
    } else if a.len() > 0 && b.len() > 0 {
        assert(a[0] != b[0] ==> a[0] < b[0] || b[0] < a[0]);
    }
}

} // verus!
