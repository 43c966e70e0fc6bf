//! Library health: duplicate copies of one video and videos missing their
//! sidecars. The report's records and the choice of which duplicate copy
//! to recommend keeping are here; listing and deleting files happen with
//! the rest of the I/O (which refuses any path outside the library root).

use vstd::prelude::*;
use crate::text::{
    chars_of, eq_vec, extend_str, lemma_lex_asym, lemma_lex_total, lemma_lex_trans, lex_less, lex_lt,
    string_of, strings,
};

verus! {

/// One stored copy of a video (its files plus what scores it).
#[derive(Clone, Debug)]
pub struct DuplicateCopy {
    /// Directory of the copy, relative to the library root.
    pub location: String,
    /// Every file belonging to this copy (video and sidecars).
    pub files: Vec<String>,
    /// Size of the video file in bytes, if present.
    pub file_size: Option<u64>,
    /// Whether an actual video file is present.
    pub has_video: bool,
    /// The copy the UI recommends keeping.
    pub recommended_keep: bool,
}

/// A set of copies that all share one video id.
#[derive(Clone, Debug)]
pub struct DuplicateGroup {
    pub id: String,
    pub title: String,
    pub copies: Vec<DuplicateCopy>,
}

/// A video that is missing one or more sidecar assets.
#[derive(Clone, Debug)]
pub struct MissingAssets {
    pub id: String,
    pub title: String,
    /// Directory of the video, relative to the library root.
    pub location: String,
    pub missing_thumbnail: bool,
    pub missing_info: bool,
    pub missing_description: bool,
}

/// The full result of a library health scan.
#[derive(Clone, Debug)]
pub struct HealthReport {
    pub duplicates: Vec<DuplicateGroup>,
    pub missing: Vec<MissingAssets>,
}

impl Default for HealthReport {
    fn default() -> (r: Self)
        ensures
            r.duplicates@.len() == 0,
            r.missing@.len() == 0,
    {
        HealthReport { duplicates: Vec::new(), missing: Vec::new() }
    }
}

/// The score of a copy: a present video file dominates, then the file
/// size, then the number of files.
pub open spec fn copy_key(c: DuplicateCopy) -> (bool, int, int) {
    (
        c.has_video,
        match c.file_size {
            Some(n) => n as int,
            None => 0,
        },
        c.files@.len() as int,
    )
}

/// `a` scores no higher than `b`.
pub open spec fn key_le(a: (bool, int, int), b: (bool, int, int)) -> bool {
    if a.0 != b.0 {
        !a.0
    } else if a.1 != b.1 {
        a.1 < b.1
    } else {
        a.2 <= b.2
    }
}

/// The copy recommended for keeping: the best score, the last of equals
/// (as `Iterator::max_by_key` picks).
pub fn best_copy_index(copies: &Vec<DuplicateCopy>) -> (r: usize)
    requires
        copies@.len() > 0,
    ensures
        r < copies@.len(),
        forall|i: int| 0 <= i < copies@.len() ==> key_le(copy_key(#[trigger] copies@[i]), copy_key(copies@[r as int])),
        forall|i: int| r < i < copies@.len() ==> !key_le(copy_key(copies@[r as int]), copy_key(#[trigger] copies@[i])),
{
    let mut best: usize = 0;
    let mut i: usize = 1;
    while i < copies.len()
        invariant
            1 <= i <= copies@.len(),
            best < i,
            forall|k: int| 0 <= k < i ==> key_le(copy_key(#[trigger] copies@[k]), copy_key(copies@[best as int])),
            forall|k: int| best < k < i ==> !key_le(copy_key(copies@[best as int]), copy_key(#[trigger] copies@[k])),
        decreases copies.len() - i,
    {
        let c = &copies[i];
        let b = &copies[best];
        let cs: u64 = match c.file_size {
            Some(n) => n,
            None => 0,
        };
        let bs: u64 = match b.file_size {
            Some(n) => n,
            None => 0,
        };
        let not_worse = if c.has_video != b.has_video {
            c.has_video
        } else if cs != bs {
            cs > bs
        } else {
            c.files.len() >= b.files.len()
        };
        if not_worse {
            best = i;
        }
        i += 1;
    }
    best
}

/// Which sidecars a video lacks, when it lacks any.
pub fn missing_assets(
    id: String,
    title: String,
    location: String,
    has_thumbnail: bool,
    has_info: bool,
    has_description: bool,
) -> (r: Option<MissingAssets>)
    ensures
        r is Some <==> (!has_thumbnail || !has_info || !has_description),
        r matches Some(m) ==> m.id@ == id@ && m.title@ == title@ && m.location@ == location@
            && m.missing_thumbnail == !has_thumbnail && m.missing_info == !has_info
            && m.missing_description == !has_description,
{
    if !has_thumbnail || !has_info || !has_description {
        Some(
            MissingAssets {
                id,
                title,
                location,
                missing_thumbnail: !has_thumbnail,
                missing_info: !has_info,
                missing_description: !has_description,
            },
        )
    } else {
        None
    }
}

/// The error reported for a path outside the library root.
pub fn refusal_message(path: &str) -> (r: String)
    ensures
        r@ == "refused (outside library): "@ + path@,
{
    let mut out: Vec<char> = Vec::new();
    extend_str(&mut out, "refused (outside library): ");
    extend_str(&mut out, path);
    string_of(&out)
}

// ── Grouping by video id ─────────────────────────────────────────────────────

/// The positions of `x` in `ids`, in order.
pub open spec fn occurrences(ids: Seq<Seq<char>>, x: Seq<char>) -> Seq<int>
    decreases ids.len(),
{
    if ids.len() == 0 {
        seq![]
    } else if ids.last() == x {
        occurrences(ids.drop_last(), x).push(ids.len() - 1)
    } else {
        occurrences(ids.drop_last(), x)
    }
}

/// The positions of a group, as integers.
pub open spec fn positions(g: Seq<usize>) -> Seq<int> {
    g.map_values(|i: usize| i as int)
}

/// `groups` are the ids stored more than once among `ids`, in increasing
/// id order, each listing every position of its id in order.
pub open spec fn duplicate_groups_ok(ids: Seq<Seq<char>>, groups: Seq<Vec<usize>>) -> bool {
    &&& forall|k: int| 0 <= k < groups.len() ==> (#[trigger] groups[k])@.len() >= 2
    &&& forall|k: int| 0 <= k < groups.len() ==> positions((#[trigger] groups[k])@) == occurrences(
        ids,
        ids[groups[k]@[0] as int],
    )
    &&& forall|a: int, b: int| 0 <= a < b < groups.len() ==> lex_lt(
        ids[(#[trigger] groups[a])@[0] as int],
        ids[(#[trigger] groups[b])@[0] as int],
    )
    &&& forall|i: int| 0 <= i < ids.len() && occurrences(ids, #[trigger] ids[i]).len() >= 2 ==> exists|k: int|
        0 <= k < groups.len() && ids[groups[k]@[0] as int] == ids[i]
}

proof fn lemma_occurrences_bounds(ids: Seq<Seq<char>>, x: Seq<char>)
    ensures
        forall|k: int| 0 <= k < occurrences(ids, x).len() ==> 0 <= #[trigger] occurrences(ids, x)[k] < ids.len()
            && ids[occurrences(ids, x)[k]] == x,
        forall|i: int| 0 <= i < ids.len() && ids[i] == x ==> occurrences(ids, x).contains(i),
    decreases ids.len(),
{
    if ids.len() > 0 {
        lemma_occurrences_bounds(ids.drop_last(), x);
        assert forall|i: int| 0 <= i < ids.len() && ids[i] == x implies occurrences(ids, x).contains(i) by {
            if i < ids.len() - 1 {
                assert(ids.drop_last()[i] == x);
                let o = occurrences(ids.drop_last(), x);
                let w = choose|w: int| 0 <= w < o.len() && o[w] == i;
                if ids.last() == x {
                    assert(occurrences(ids, x)[w] == i);
                } else {
                    assert(occurrences(ids, x)[w] == i);
                }
            } else {
                assert(occurrences(ids, x).last() == i);
            }
        }
    }
}

/// The ids stored more than once, each with the positions of its copies
/// (see [`duplicate_groups_ok`]).
pub fn duplicate_groups(ids: &Vec<String>) -> (r: Vec<Vec<usize>>)
    ensures
        duplicate_groups_ok(strings(ids@), r@),
{
    let ghost s = strings(ids@);
    // All ids so far, sorted, with their positions.
    let mut keys: Vec<Vec<char>> = Vec::new();
    let mut groups: Vec<Vec<usize>> = Vec::new();
    let mut n: usize = 0;
    while n < ids.len()
        invariant
            n <= ids@.len(),
            s == strings(ids@),
            keys@.len() == groups@.len(),
            forall|a: int, b: int| 0 <= a < b < keys@.len() ==> lex_lt(#[trigger] keys@[a]@, #[trigger] keys@[b]@),
            forall|k: int| 0 <= k < keys@.len() ==> positions((#[trigger] groups@[k])@) == occurrences(
                s.take(n as int),
                keys@[k]@,
            ),
            forall|k: int| 0 <= k < keys@.len() ==> (#[trigger] groups@[k])@.len() >= 1,
            forall|i: int| #![trigger s[i]] 0 <= i < n ==> exists|k: int| 0 <= k < keys@.len() && #[trigger] keys@[k]@ == s[i],
        decreases ids.len() - n,
    {
        let x = chars_of(ids[n].as_str());
        let ghost pre = s.take(n as int);
        assert(s.take(n + 1) =~= pre.push(x@));
        assert(s.take(n + 1).drop_last() =~= pre);
        let ghost old_keys = keys@;
        let ghost old_groups = groups@;
        let mut j: usize = 0;
        while j < keys.len() && lex_less(&keys[j], &x)
            invariant
                j <= keys@.len(),
                keys@ == old_keys,
                forall|a: int| 0 <= a < j ==> lex_lt(#[trigger] keys@[a]@, x@),
            decreases keys.len() - j,
        {
            j += 1;
        }
        if j < keys.len() && eq_vec(&keys[j], &x) {
            let mut g = groups.remove(j);
            let ghost og = g@;
            g.push(n);
            groups.insert(j, g);
            proof {
                assert(groups@ =~= old_groups.update(j as int, g));
                assert forall|k: int| 0 <= k < keys@.len() implies positions((#[trigger] groups@[k])@)
                    == occurrences(s.take(n + 1), keys@[k]@) by {
                    if k == j {
                        assert(positions(g@) =~= positions(og).push(n as int));
                    } else {
                        lemma_lex_asym(keys@[k]@, keys@[k]@);
                        if k < j {
                            assert(keys@[k]@ != x@);
                        } else {
                            assert(lex_lt(keys@[j as int]@, keys@[k]@));
                            assert(keys@[k]@ != x@);
                        }
                    }
                }
                assert forall|i: int| #![trigger s[i]] 0 <= i < n + 1 implies exists|k: int| 0 <= k < keys@.len() && #[trigger] keys@[k]@
                    == s[i] by {
                    if i == n {
                        assert(keys@[j as int]@ == s[i]);
                    }
                }
            }
        } else {
            let ghost xv = x@;
            proof {
                if j < old_keys.len() {
                    assert(old_keys[j as int]@ != xv);
                    lemma_lex_total(old_keys[j as int]@, xv);
                }
                assert forall|a: int| j <= a < old_keys.len() implies lex_lt(xv, #[trigger] old_keys[a]@) by {
                    if a > j {
                        lemma_lex_trans(xv, old_keys[j as int]@, old_keys[a]@);
                    }
                }
            }
            let mut g: Vec<usize> = Vec::new();
            g.push(n);
            keys.insert(j, x);
            groups.insert(j, g);
            proof {
                assert(keys@ =~= old_keys.insert(j as int, keys@[j as int]));
                assert(groups@ =~= old_groups.insert(j as int, g));
                assert forall|a: int, b: int| 0 <= a < b < keys@.len() implies lex_lt(
                    #[trigger] keys@[a]@,
                    #[trigger] keys@[b]@,
                ) by {
                    if b < j {
                    } else if b == j {
                    } else if a < j {
                        assert(lex_lt(old_keys[a]@, xv));
                        assert(lex_lt(xv, old_keys[b - 1]@));
                        lemma_lex_trans(old_keys[a]@, xv, old_keys[b - 1]@);
                    } else if a == j {
                    } else {
                        assert(lex_lt(old_keys[a - 1]@, old_keys[b - 1]@));
                    }
                }
                assert(occurrences(pre, xv) =~= seq![]) by {
                    lemma_occurrences_bounds(pre, xv);
                    if occurrences(pre, xv).len() > 0 {
                        let i = occurrences(pre, xv)[0];
                        assert(pre[i] == xv);
                        let k = choose|k: int| 0 <= k < old_keys.len() && #[trigger] old_keys[k]@ == s[i];
                        if k < j {
                            lemma_lex_asym(xv, xv);
                        } else {
                            lemma_lex_asym(xv, xv);
                        }
                    }
                }
                assert forall|k: int| 0 <= k < keys@.len() implies positions((#[trigger] groups@[k])@)
                    == occurrences(s.take(n + 1), keys@[k]@) by {
                    if k == j {
                        assert(positions(g@) =~= seq![n as int]);
                    } else if k < j {
                        assert(keys@[k] == old_keys[k]);
                        assert(lex_lt(old_keys[k]@, xv));
                        lemma_lex_asym(xv, xv);
                    } else {
                        assert(keys@[k] == old_keys[k - 1]);
                        assert(lex_lt(xv, old_keys[k - 1]@));
                        lemma_lex_asym(xv, xv);
                    }
                }
                assert forall|i: int| #![trigger s[i]] 0 <= i < n + 1 implies exists|k: int| 0 <= k < keys@.len() && #[trigger] keys@[k]@
                    == s[i] by {
                    if i == n {
                        assert(keys@[j as int]@ == s[i]);
                    } else {
                        let k = choose|k: int| 0 <= k < old_keys.len() && #[trigger] old_keys[k]@ == s[i];
                        if k < j {
                            assert(keys@[k]@ == s[i]);
                        } else {
                            assert(keys@[k + 1]@ == s[i]);
                        }
                    }
                }
            }
        }
        n += 1;
    }
    assert(s.take(n as int) =~= s);
    // Keep the ids stored more than once.
    let ghost all_keys = keys@;
    let ghost all_groups = groups@;
    let total = groups.len();
    assert(all_groups.len() == total);
    assert(s.len() == ids@.len());
    assert forall|i: int| #![trigger s[i]] 0 <= i < s.len() implies exists|c: int| 0 <= c < all_keys.len()
        && #[trigger] all_keys[c]@ == s[i] by {
        let w = choose|w: int| 0 <= w < keys@.len() && #[trigger] keys@[w]@ == s[i];
        assert(all_keys[w]@ == s[i]);
    }
    let mut out: Vec<Vec<usize>> = Vec::new();
    let ghost mut picked: Seq<int> = seq![];
    let mut k: usize = 0;
    #[verifier::loop_isolation(false)]
    while groups.len() > 0
        invariant
            all_groups.len() <= usize::MAX,
            all_keys.len() == all_groups.len(),
            forall|c: int| 0 <= c < all_keys.len() ==> positions((#[trigger] all_groups[c])@) == occurrences(
                s,
                all_keys[c]@,
            ),
            forall|c: int| 0 <= c < all_keys.len() ==> (#[trigger] all_groups[c])@.len() >= 1,
            forall|a: int, b: int| 0 <= a < b < all_keys.len() ==> lex_lt(#[trigger] all_keys[a]@, #[trigger] all_keys[b]@),
            forall|a: int| 0 <= a < out@.len() ==> (#[trigger] out@[a])@.len() >= 2,
            k + groups@.len() == all_groups.len(),
            groups@ == all_groups.skip(k as int),
            out@.len() == picked.len(),
            forall|a: int| 0 <= a < picked.len() ==> 0 <= #[trigger] picked[a] < k,
            forall|a: int, b: int| 0 <= a < b < picked.len() ==> #[trigger] picked[a] < #[trigger] picked[b],
            forall|a: int| 0 <= a < out@.len() ==> (#[trigger] out@[a]) == all_groups[picked[a]],
            forall|c: int| 0 <= c < k && all_groups[c]@.len() >= 2 ==> picked.contains(c),
        decreases groups@.len(),
    {
        let ghost before = groups@;
        let g = groups.remove(0);
        assert(groups@ =~= all_groups.skip(k + 1)) by {
            assert(before[0] == all_groups[k as int]);
        }
        assert(g == all_groups[k as int]);
        if g.len() >= 2 {
            let ghost old_picked = picked;
            out.push(g);
            proof {
                picked = picked.push(k as int);
                assert forall|c: int| 0 <= c < k + 1 && all_groups[c]@.len() >= 2 implies picked.contains(c) by {
                    if c == k {
                        assert(picked[picked.len() - 1] == c);
                    } else {
                        assert(all_groups[c]@.len() >= 2);
                        assert(old_picked.contains(c));
                        let w = choose|w: int| 0 <= w < old_picked.len() && old_picked[w] == c;
                        assert(picked[w] == c);
                    }
                }
            }
        }
        k += 1;
    }
    proof {
        assert forall|a: int| 0 <= a < out@.len() implies (#[trigger] out@[a])@.len() >= 2 && positions(out@[a]@)
            == occurrences(s, s[out@[a]@[0] as int]) by {
            let c = picked[a];
            lemma_occurrences_bounds(s, all_keys[c]@);
            assert(positions(all_groups[c]@)[0] == out@[a]@[0] as int);
            assert(s[out@[a]@[0] as int] == all_keys[c]@);
        }
        assert forall|a: int, b: int| 0 <= a < b < out@.len() implies lex_lt(
            s[(#[trigger] out@[a])@[0] as int],
            s[(#[trigger] out@[b])@[0] as int],
        ) by {
            let (ca, cb) = (picked[a], picked[b]);
            lemma_occurrences_bounds(s, all_keys[ca]@);
            lemma_occurrences_bounds(s, all_keys[cb]@);
            assert(positions(all_groups[ca]@)[0] == out@[a]@[0] as int);
            assert(positions(all_groups[cb]@)[0] == out@[b]@[0] as int);
        }
        assert forall|i: int| 0 <= i < s.len() && occurrences(s, #[trigger] s[i]).len() >= 2 implies exists|a: int|
            0 <= a < out@.len() && s[out@[a]@[0] as int] == s[i] by {
            let c = choose|c: int| 0 <= c < all_keys.len() && #[trigger] all_keys[c]@ == s[i];
            assert(positions(all_groups[c]@).len() >= 2);
            assert(picked.contains(c));
            let a = choose|a: int| 0 <= a < picked.len() && picked[a] == c;
            lemma_occurrences_bounds(s, all_keys[c]@);
            assert(positions(all_groups[c]@)[0] == out@[a]@[0] as int);
        }
    }
    out
}

/// The copy of a group whose title names the group: the first with a
/// video file, else the first.
pub fn group_title_index(has_video: &Vec<bool>, group: &Vec<usize>) -> (r: usize)
    requires
        group@.len() > 0,
        forall|k: int| 0 <= k < group@.len() ==> #[trigger] group@[k] < has_video@.len(),
    ensures
        ({
            let first = exists|k: int| 0 <= k < group@.len() && has_video@[#[trigger] group@[k] as int];
            &&& first ==> exists|k: int| 0 <= k < group@.len() && r == group@[k] && has_video@[r as int] && forall|
                m: int,
            | 0 <= m < k ==> !has_video@[#[trigger] group@[m] as int]
            &&& !first ==> r == group@[0]
        }),
{
    let mut k: usize = 0;
    while k < group.len()
        invariant
            k <= group@.len(),
            forall|k: int| 0 <= k < group@.len() ==> #[trigger] group@[k] < has_video@.len(),
            forall|m: int| 0 <= m < k ==> !has_video@[#[trigger] group@[m] as int],
        decreases group.len() - k,
    {
        if has_video[group[k]] {
            return group[k];
        }
        k += 1;
    }
    group[0]
}

/// Whether position `i` is the first copy with a video file among the
/// copies of its id (the one checked for missing sidecars).
pub open spec fn first_video_copy(ids: Seq<Seq<char>>, has_video: Seq<bool>, i: int) -> bool {
    &&& has_video[i]
    &&& forall|j: int| 0 <= j < i && #[trigger] ids[j] == ids[i] ==> !has_video[j]
}

/// The positions checked for missing sidecars: for each id, its first copy
/// that has a video file, in order.
pub fn missing_candidates(ids: &Vec<String>, has_video: &Vec<bool>) -> (r: Vec<usize>)
    requires
        ids@.len() == has_video@.len(),
    ensures
        forall|a: int| 0 <= a < r@.len() ==> #[trigger] r@[a] < ids@.len() && first_video_copy(
            strings(ids@),
            has_video@,
            r@[a] as int,
        ),
        forall|a: int, b: int| 0 <= a < b < r@.len() ==> #[trigger] r@[a] < #[trigger] r@[b],
        forall|i: int| 0 <= i < ids@.len() && first_video_copy(strings(ids@), has_video@, i) ==> r@.contains(
            i as usize,
        ),
{
    let ghost s = strings(ids@);
    let mut out: Vec<usize> = Vec::new();
    let mut i: usize = 0;
    while i < ids.len()
        invariant
            i <= ids@.len(),
            ids@.len() == has_video@.len(),
            s == strings(ids@),
            forall|a: int| 0 <= a < out@.len() ==> #[trigger] out@[a] < i && first_video_copy(s, has_video@, out@[a] as int),
            forall|a: int, b: int| 0 <= a < b < out@.len() ==> #[trigger] out@[a] < #[trigger] out@[b],
            forall|c: int| 0 <= c < i && first_video_copy(s, has_video@, c) ==> out@.contains(c as usize),
        decreases ids.len() - i,
    {
        if has_video[i] {
            let x = chars_of(ids[i].as_str());
            let mut j: usize = 0;
            let mut earlier = false;
            while j < i
                invariant
                    j <= i < ids@.len(),
                    ids@.len() == has_video@.len(),
                    s == strings(ids@),
                    x@ == s[i as int],
                    !earlier ==> forall|m: int| 0 <= m < j && #[trigger] s[m] == s[i as int] ==> !has_video@[m],
                    earlier ==> exists|m: int| 0 <= m < i && #[trigger] s[m] == s[i as int] && has_video@[m],
                decreases i - j,
            {
                if !earlier && has_video[j] && eq_vec(&chars_of(ids[j].as_str()), &x) {
                    assert(s[j as int] == s[i as int]);
                    earlier = true;
                }
                j += 1;
            }
            let ghost old_out = out@;
            if !earlier {
                out.push(i);
                assert(out@[out@.len() - 1] == i);
            } else {
                assert(!first_video_copy(s, has_video@, i as int));
            }
            assert forall|c: int| 0 <= c < i + 1 && first_video_copy(s, has_video@, c) implies out@.contains(c as usize) by {
                if c < i {
                    let w = choose|w: int| 0 <= w < old_out.len() && old_out[w] == c as usize;
                    assert(out@[w] == c as usize);
                } else {
                    assert(out@[out@.len() - 1] == i);
                }
            }
        } else {
            assert(!first_video_copy(s, has_video@, i as int));
        }
        i += 1;
    }
    out
}

/// The first known file of a video: its video file, else its info
/// sidecar, thumbnail, description or first subtitle.
pub open spec fn first_known(
    video: Option<Seq<char>>,
    info: Option<Seq<char>>,
    thumb: Option<Seq<char>>,
    description: Option<Seq<char>>,
    first_subtitle: Option<Seq<char>>,
) -> Option<Seq<char>> {
    if video is Some {
        video
    } else if info is Some {
        info
    } else if thumb is Some {
        thumb
    } else if description is Some {
        description
    } else {
        first_subtitle
    }
}

/// The view of an optional string slice.
pub open spec fn opt_str(o: Option<&str>) -> Option<Seq<char>> {
    match o {
        Some(s) => Some(s@),
        None => None,
    }
}

/// The directory a video lives in: the parent of its first known file.
pub fn video_dir(
    video: Option<&str>,
    info: Option<&str>,
    thumb: Option<&str>,
    description: Option<&str>,
    first_subtitle: Option<&str>,
) -> (r: Option<String>)
    ensures
        ({
            let known = first_known(opt_str(video), opt_str(info), opt_str(thumb), opt_str(description), opt_str(first_subtitle));
            match r {
                Some(d) => known matches Some(p) && crate::paths::path_parent(p) == Some(d@),
                None => known is None || crate::paths::path_parent(known->0) is None,
            }
        }),
{
    let known = if video.is_some() {
        video
    } else if info.is_some() {
        info
    } else if thumb.is_some() {
        thumb
    } else if description.is_some() {
        description
    } else {
        first_subtitle
    };
    match known {
        Some(p) => crate::paths::parent(p),
        None => None,
    }
}

} // verus!
