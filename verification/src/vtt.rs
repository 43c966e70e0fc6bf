//! Subtitle cues for the transcript view: which lines of a WebVTT / SRT
//! file make up each cue, and the cue's text with inline tags stripped,
//! white space collapsed and rolling duplicates dropped. Reading a cue's
//! start time (fractional seconds) stays with the caller, which tells
//! [`cue_texts`] which lines are timing lines with a readable start.

use vstd::prelude::*;
use crate::text::{
    chars_of, eq_vec, join, join_vec, string_of, strings, trim, trim_vec, views, words,
    words_vec,
};

verus! {

/// The characters of `s` outside `<...>` tags, given whether the scan
/// starts inside a tag.
pub open spec fn untagged(s: Seq<char>, in_tag: bool) -> Seq<char>
    decreases s.len(),
{
    if s.len() == 0 {
        seq![]
    } else if s[0] == '<' {
        untagged(s.drop_first(), true)
    } else if s[0] == '>' {
        untagged(s.drop_first(), false)
    } else if in_tag {
        untagged(s.drop_first(), true)
    } else {
        seq![s[0]] + untagged(s.drop_first(), false)
    }
}

/// Strip simple `<...>` inline tags (e.g. `<c.colorE5E5E5>`,
/// `<00:00:01.000>`) from a caption line.
pub fn strip_tags(s: &str) -> (r: String)
    ensures
        r@ == untagged(s@, false),
{
    let v = chars_of(s);
    let mut out: Vec<char> = Vec::new();
    let mut in_tag = false;
    let mut i: usize = 0;
    assert(v@.skip(0) =~= v@);
    while i < v.len()
        invariant
            i <= v@.len(),
            out@ + untagged(v@.skip(i as int), in_tag) == untagged(v@, false),
        decreases v.len() - i,
    {
        let c = v[i];
        let ghost rest = v@.skip(i as int);
        assert(rest[0] == c);
        assert(rest.drop_first() =~= v@.skip(i + 1));
        let ghost before = out@;
        if c == '<' {
            in_tag = true;
        } else if c == '>' {
            in_tag = false;
        } else if !in_tag {
            out.push(c);
            assert(out@ + untagged(v@.skip(i + 1), in_tag) =~= before + untagged(rest, false));
        }
        i += 1;
    }
    assert(v@.skip(i as int) =~= Seq::<char>::empty());
    assert(out@ + untagged(v@.skip(i as int), in_tag) =~= out@);
    string_of(&out)
}

/// Whether line `i` is a timing line with a readable start.
pub open spec fn is_timing(ok: Seq<bool>, i: int) -> bool {
    0 <= i < ok.len() && ok[i]
}

/// The first line at or after `j` that is blank once trimmed, or the
/// number of lines: where a cue's text block ends.
pub open spec fn block_end(lines: Seq<Seq<char>>, j: int) -> int
    decreases lines.len() - j,
{
    if j < 0 || j >= lines.len() {
        lines.len() as int
    } else if trim(lines[j]).len() == 0 {
        j
    } else {
        block_end(lines, j + 1)
    }
}

/// The text of the cue whose lines are `lines[from..to]`: each line's tags
/// stripped, the lines joined, runs of white space collapsed to one space.
pub open spec fn cue_text(lines: Seq<Seq<char>>, from: int, to: int) -> Seq<char> {
    let stripped = lines.subrange(from, to).map_values(|l: Seq<char>| untagged(l, false));
    join(words(join(stripped, seq![' '])), seq![' '])
}

/// The cues found from line `i` on, given the text of the last cue kept:
/// (index of the timing line, text). A timing line's cue runs to the next
/// blank line; cues with no text, and cues repeating the text of the cue
/// just kept, are dropped.
pub open spec fn cue_scan(lines: Seq<Seq<char>>, ok: Seq<bool>, i: int, last: Option<Seq<char>>) -> Seq<(int, Seq<char>)>
    decreases lines.len() - i,
{
    if i < 0 || i >= lines.len() {
        seq![]
    } else if is_timing(ok, i) {
        let k = block_end(lines, i + 1);
        let t = cue_text(lines, i + 1, k);
        if k <= i || k > lines.len() {
            seq![]
        } else if t.len() > 0 && last != Some(t) {
            seq![(i, t)] + cue_scan(lines, ok, k, Some(t))
        } else {
            cue_scan(lines, ok, k, last)
        }
    } else {
        cue_scan(lines, ok, i + 1, last)
    }
}

/// The characters of an optional text.
pub open spec fn text_view(t: Option<Vec<char>>) -> Option<Seq<char>> {
    match t {
        Some(v) => Some(v@),
        None => None,
    }
}

/// `block_end` lies between its start and the number of lines.
pub proof fn lemma_block_end(lines: Seq<Seq<char>>, j: int)
    requires
        0 <= j <= lines.len(),
    ensures
        j <= block_end(lines, j) <= lines.len(),
    decreases lines.len() - j,
{
    if j < lines.len() && trim(lines[j]).len() != 0 {
        lemma_block_end(lines, j + 1);
    }
}

/// Every cue comes from a timing line, in file order, and has text; no
/// cue repeats the text of the cue just before it (nor, for the first,
/// the text of the cue kept before line `i`).
pub proof fn lemma_cues_in_order_without_repeats(
    lines: Seq<Seq<char>>,
    ok: Seq<bool>,
    i: int,
    last: Option<Seq<char>>,
)
    requires
        0 <= i,
    ensures
        ({
            let s = cue_scan(lines, ok, i, last);
            &&& forall|k: int|
                0 <= k < s.len() ==> i <= #[trigger] s[k].0 < lines.len() && is_timing(ok, s[k].0)
                    && s[k].1.len() > 0
            &&& forall|k: int| 0 <= k < s.len() - 1 ==> #[trigger] s[k].0 < s[k + 1].0 && s[k].1 != s[k + 1].1
            &&& (s.len() > 0 && last is Some) ==> s[0].1 != last.unwrap()
        }),
    decreases lines.len() - i,
{
    if i < lines.len() {
        if is_timing(ok, i) {
            lemma_block_end(lines, i + 1);
            let k = block_end(lines, i + 1);
            let t = cue_text(lines, i + 1, k);
            if t.len() > 0 && last != Some(t) {
                lemma_cues_in_order_without_repeats(lines, ok, k, Some(t));
                let rest = cue_scan(lines, ok, k, Some(t));
                let s = cue_scan(lines, ok, i, last);
                assert(s == seq![(i, t)] + rest);
                assert forall|m: int| 0 <= m < s.len() - 1 implies #[trigger] s[m].0 < s[m + 1].0 && s[m].1
                    != s[m + 1].1 by {
                    if m > 0 {
                        assert(s[m] == rest[m - 1]);
                        assert(s[m + 1] == rest[m]);
                    } else {
                        assert(s[1] == rest[0]);
                    }
                }
                assert forall|m: int| 0 <= m < s.len() implies i <= #[trigger] s[m].0 < lines.len()
                    && is_timing(ok, s[m].0) && s[m].1.len() > 0 by {
                    if m > 0 {
                        assert(s[m] == rest[m - 1]);
                    }
                }
            } else {
                lemma_cues_in_order_without_repeats(lines, ok, k, last);
                assert(cue_scan(lines, ok, i, last) == cue_scan(lines, ok, k, last));
            }
        } else {
            lemma_cues_in_order_without_repeats(lines, ok, i + 1, last);
            assert(cue_scan(lines, ok, i, last) == cue_scan(lines, ok, i + 1, last));
        }
    } else {
        assert(cue_scan(lines, ok, i, last).len() == 0);
    }
}

/// The cues of a subtitle file given as its lines, in file order: for each,
/// the index of its timing line and its text. `timing[i]` says whether line
/// `i` is a timing line (`start --> end`) whose start could be read; lines
/// past the end of `timing` are not.
pub fn cue_texts(lines: &Vec<String>, timing: &Vec<bool>) -> (r: Vec<(usize, String)>)
    ensures
        r@.map_values(|p: (usize, String)| (p.0 as int, p.1@)) == cue_scan(strings(lines@), timing@, 0, None),
{
    let ghost ls = strings(lines@);
    let mut out: Vec<(usize, String)> = Vec::new();
    let mut last: Option<Vec<char>> = None;
    let mut i: usize = 0;
    while i < lines.len()
        invariant
            ls == strings(lines@),
            i <= lines@.len(),
            out@.map_values(|p: (usize, String)| (p.0 as int, p.1@)) + cue_scan(
                ls,
                timing@,
                i as int,
                text_view(last),
            ) == cue_scan(ls, timing@, 0, None),
        decreases lines.len() - i,
    {
        let ghost out0 = out@.map_values(|p: (usize, String)| (p.0 as int, p.1@));
        if i < timing.len() && timing[i] {
            let mut buf: Vec<Vec<char>> = Vec::new();
            let mut j: usize = i + 1;
            proof {
                lemma_block_end(ls, j as int);
            }
            loop
                invariant
                    ls == strings(lines@),
                    i < j <= lines@.len(),
                    block_end(ls, (i + 1) as int) == block_end(ls, j as int),
                    views(buf@) == ls.subrange(i + 1, j as int).map_values(
                        |l: Seq<char>| untagged(l, false),
                    ),
                ensures
                    i < j <= lines@.len(),
                    block_end(ls, (i + 1) as int) == j,
                    views(buf@) == ls.subrange(i + 1, j as int).map_values(
                        |l: Seq<char>| untagged(l, false),
                    ),
                decreases lines.len() - j,
            {
                if j >= lines.len() {
                    break;
                }
                let lj = chars_of(lines[j].as_str());
                let t = trim_vec(&lj);
                if t.len() == 0 {
                    break;
                }
                let stripped = chars_of(strip_tags(lines[j].as_str()).as_str());
                let ghost b0 = views(buf@);
                buf.push(stripped);
                proof {
                    assert(ls[j as int] == lines@[j as int]@);
                    assert(views(buf@) =~= b0.push(untagged(ls[j as int], false)));
                    assert(ls.subrange(i + 1, j + 1).map_values(|l: Seq<char>| untagged(l, false))
                        =~= ls.subrange(i + 1, j as int).map_values(|l: Seq<char>| untagged(l, false)).push(
                        untagged(ls[j as int], false),
                    ));
                }
                j += 1;
            }
            let joined = join_vec(&buf, " ");
            let ws = words_vec(&joined);
            let text = join_vec(&ws, " ");
            proof {
                reveal_strlit(" ");
                assert(" "@ =~= seq![' ']);
                assert(text@ == cue_text(ls, i + 1, j as int));
            }
            let keep = text.len() > 0 && match &last {
                Some(v) => !eq_vec(v, &text),
                None => true,
            };
            if keep {
                out.push((i, string_of(&text)));
                proof {
                    assert(out@.map_values(|p: (usize, String)| (p.0 as int, p.1@)) =~= out0.push(
                        (i as int, text@),
                    ));
                }
                last = Some(text);
            }
            i = j;
        } else {
            i += 1;
        }
    }
    out
}

} // verus!
