//! Stable orderings of lists by a key: the positions of the items in the
//! order a stable sort leaves them. Used for the video grid's sort modes
//! and the statistics' top-N tables.

use vstd::prelude::*;
use crate::text::{eq_vec, lemma_lex_asym, lemma_lex_total, lemma_lex_trans, lex_less, lex_lt};

verus! {

/// `p` lists every position below `n` exactly once.
pub open spec fn is_perm(p: Seq<usize>, n: nat) -> bool {
    &&& p.len() == n
    &&& forall|i: int| 0 <= i < p.len() ==> #[trigger] p[i] < n
    &&& forall|i: int, j: int| 0 <= i < j < p.len() ==> #[trigger] p[i] != #[trigger] p[j]
}

/// Item `a` (key `ka`) comes before item `b` (key `kb`) in a stable sort
/// by number: a smaller key (larger when `desc`), or an equal key and an
/// earlier position.
pub open spec fn num_before(ka: u64, kb: u64, a: usize, b: usize, desc: bool) -> bool {
    if ka == kb {
        a < b
    } else if desc {
        ka > kb
    } else {
        ka < kb
    }
}

/// `p` is `keys`' positions in stable numeric order.
pub open spec fn num_sorted(keys: Seq<u64>, p: Seq<usize>, desc: bool) -> bool {
    forall|i: int, j: int| 0 <= i < j < p.len() ==> num_before(
        keys[#[trigger] p[i] as int],
        keys[#[trigger] p[j] as int],
        p[i],
        p[j],
        desc,
    )
}

/// The positions of `keys` in the order a stable sort by the number
/// (descending when `desc`) leaves them.
pub fn stable_order_num(keys: &Vec<u64>, desc: bool) -> (p: Vec<usize>)
    ensures
        is_perm(p@, keys@.len()),
        num_sorted(keys@, p@, desc),
{
    let mut out: Vec<usize> = Vec::new();
    let mut i: usize = 0;
    while i < keys.len()
        invariant
            i <= keys@.len(),
            out@.len() == i,
            forall|a: int| 0 <= a < out@.len() ==> #[trigger] out@[a] < i,
            forall|a: int, b: int| 0 <= a < b < out@.len() ==> #[trigger] out@[a] != #[trigger] out@[b],
            num_sorted(keys@, out@, desc),
        decreases keys.len() - i,
    {
        let k = keys[i];
        let mut j: usize = 0;
        while j < out.len() && ((!desc && keys[out[j]] <= k) || (desc && keys[out[j]] >= k))
            invariant
                j <= out@.len(),
                i < keys@.len(),
                k == keys@[i as int],
                forall|a: int| 0 <= a < out@.len() ==> #[trigger] out@[a] < i,
                forall|a: int| 0 <= a < j ==> num_before(keys@[#[trigger] out@[a] as int], k, out@[a], i, desc),
            decreases out.len() - j,
        {
            j += 1;
        }
        let ghost old_out = out@;
        out.insert(j, i);
        proof {
            assert(out@ =~= old_out.insert(j as int, i));
            assert forall|a: int, b: int| 0 <= a < b < out@.len() implies num_before(
                keys@[#[trigger] out@[a] as int],
                keys@[#[trigger] out@[b] as int],
                out@[a],
                out@[b],
                desc,
            ) by {
                if b < j {
                    assert(out@[a] == old_out[a] && out@[b] == old_out[b]);
                } else if b == j {
                    assert(out@[a] == old_out[a]);
                } else if a < j {
                    assert(out@[a] == old_out[a] && out@[b] == old_out[b - 1]);
                    // old_out[a] comes before i, i before old_out[j] (strictly by key).
                    assert(num_before(keys@[old_out[a] as int], keys@[old_out[b - 1] as int], old_out[a], old_out[b - 1], desc));
                } else if a == j {
                    assert(out@[b] == old_out[b - 1]);
                    let kj = keys@[old_out[j as int] as int];
                    assert(if desc { kj < k } else { kj > k });
                    if b - 1 > j {
                        assert(num_before(kj, keys@[old_out[b - 1] as int], old_out[j as int], old_out[b - 1], desc));
                    }
                } else {
                    assert(out@[a] == old_out[a - 1] && out@[b] == old_out[b - 1]);
                }
            }
            assert forall|a: int, b: int| 0 <= a < b < out@.len() implies #[trigger] out@[a] != #[trigger] out@[b] by {
                if a == j {
                    assert(out@[b] == old_out[b - 1]);
                } else if b == j {
                    assert(out@[a] == old_out[a]);
                } else if a < j && b < j {
                    assert(out@[a] == old_out[a] && out@[b] == old_out[b]);
                } else if a < j {
                    assert(out@[a] == old_out[a] && out@[b] == old_out[b - 1]);
                } else {
                    assert(out@[a] == old_out[a - 1] && out@[b] == old_out[b - 1]);
                }
            }
        }
        i += 1;
    }
    out
}

/// A text key: strings that are missing sort after all present ones, and
/// present ones by their characters.
pub open spec fn text_lt(a: (bool, Seq<char>), b: (bool, Seq<char>)) -> bool {
    if a.0 != b.0 {
        !a.0
    } else {
        lex_lt(a.1, b.1)
    }
}

/// Item `a` comes before item `b` in a stable sort by text key.
pub open spec fn text_before(ka: (bool, Seq<char>), kb: (bool, Seq<char>), a: usize, b: usize, desc: bool) -> bool {
    if ka == kb {
        a < b
    } else if desc {
        text_lt(kb, ka)
    } else {
        text_lt(ka, kb)
    }
}

/// The view of a text key.
pub open spec fn key_view(k: (bool, Vec<char>)) -> (bool, Seq<char>) {
    (k.0, k.1@)
}

/// `p` is `keys`' positions in stable text order.
pub open spec fn text_sorted(keys: Seq<(bool, Vec<char>)>, p: Seq<usize>, desc: bool) -> bool {
    forall|i: int, j: int| 0 <= i < j < p.len() ==> text_before(
        key_view(keys[#[trigger] p[i] as int]),
        key_view(keys[#[trigger] p[j] as int]),
        p[i],
        p[j],
        desc,
    )
}

/// `text_lt` is a strict total order.
pub proof fn lemma_text_order(a: (bool, Seq<char>), b: (bool, Seq<char>), c: (bool, Seq<char>))
    ensures
        !text_lt(a, a),
        text_lt(a, b) ==> !text_lt(b, a),
        text_lt(a, b) && text_lt(b, c) ==> text_lt(a, c),
        a != b ==> text_lt(a, b) || text_lt(b, a),
{
    lemma_lex_asym(a.1, b.1);
    lemma_lex_asym(b.1, c.1);
    if lex_lt(a.1, b.1) && lex_lt(b.1, c.1) {
        lemma_lex_trans(a.1, b.1, c.1);
    }
    if a.1 != b.1 {
        lemma_lex_total(a.1, b.1);
    }
}

fn text_less(a: &(bool, Vec<char>), b: &(bool, Vec<char>)) -> (r: bool)
    ensures
        r == text_lt(key_view(*a), key_view(*b)),
{
    if a.0 != b.0 {
        !a.0
    } else {
        lex_less(&a.1, &b.1)
    }
}

/// Whether an item with key `kj` belongs strictly after one with key
/// `ki` (by `text_lt`, reversed when `desc`).
fn sorts_after(kj: &(bool, Vec<char>), ki: &(bool, Vec<char>), desc: bool) -> (r: bool)
    ensures
        r == if desc {
            text_lt(key_view(*kj), key_view(*ki))
        } else {
            text_lt(key_view(*ki), key_view(*kj))
        },
{
    if desc {
        text_less(kj, ki)
    } else {
        text_less(ki, kj)
    }
}

/// The positions of `keys` in the order a stable sort by the text key
/// (descending when `desc`) leaves them.
pub fn stable_order_text(keys: &Vec<(bool, Vec<char>)>, desc: bool) -> (p: Vec<usize>)
    ensures
        is_perm(p@, keys@.len()),
        text_sorted(keys@, p@, desc),
{
    let mut out: Vec<usize> = Vec::new();
    let mut i: usize = 0;
    while i < keys.len()
        invariant
            i <= keys@.len(),
            out@.len() == i,
            forall|a: int| 0 <= a < out@.len() ==> #[trigger] out@[a] < i,
            forall|a: int, b: int| 0 <= a < b < out@.len() ==> #[trigger] out@[a] != #[trigger] out@[b],
            text_sorted(keys@, out@, desc),
        decreases keys.len() - i,
    {
        let ghost k = key_view(keys@[i as int]);
        let mut j: usize = 0;
        while j < out.len() && !sorts_after(&keys[out[j]], &keys[i], desc)
            invariant
                j <= out@.len(),
                i < keys@.len(),
                k == key_view(keys@[i as int]),
                forall|a: int| 0 <= a < out@.len() ==> #[trigger] out@[a] < i,
                forall|a: int| 0 <= a < j ==> text_before(key_view(keys@[#[trigger] out@[a] as int]), k, out@[a], i, desc),
            decreases out.len() - j,
        {
            proof {
                let ka = key_view(keys@[out@[j as int] as int]);
                lemma_text_order(ka, k, k);
                lemma_text_order(k, ka, ka);
            }
            j += 1;
        }
        let ghost old_out = out@;
        out.insert(j, i);
        proof {
            assert(out@ =~= old_out.insert(j as int, i));
            assert forall|a: int, b: int| 0 <= a < b < out@.len() implies text_before(
                key_view(keys@[#[trigger] out@[a] as int]),
                key_view(keys@[#[trigger] out@[b] as int]),
                out@[a],
                out@[b],
                desc,
            ) by {
                if b < j {
                    assert(out@[a] == old_out[a] && out@[b] == old_out[b]);
                } else if b == j {
                    assert(out@[a] == old_out[a]);
                } else if a < j {
                    assert(out@[a] == old_out[a] && out@[b] == old_out[b - 1]);
                } else if a == j {
                    assert(out@[b] == old_out[b - 1]);
                    let kj = key_view(keys@[old_out[j as int] as int]);
                    let kb = key_view(keys@[old_out[b - 1] as int]);
                    assert(if desc { text_lt(kj, k) } else { text_lt(k, kj) });
                    lemma_text_order(k, kj, kb);
                    lemma_text_order(kb, kj, k);
                    lemma_text_order(kj, kb, k);
                    lemma_text_order(k, kb, kj);
                    if b - 1 > j {
                        assert(text_before(kj, kb, old_out[j as int], old_out[b - 1], desc));
                    }
                } else {
                    assert(out@[a] == old_out[a - 1] && out@[b] == old_out[b - 1]);
                }
            }
            assert forall|a: int, b: int| 0 <= a < b < out@.len() implies #[trigger] out@[a] != #[trigger] out@[b] by {
                if a == j {
                    assert(out@[b] == old_out[b - 1]);
                } else if b == j {
                    assert(out@[a] == old_out[a]);
                } else if a < j && b < j {
                    assert(out@[a] == old_out[a] && out@[b] == old_out[b]);
                } else if a < j {
                    assert(out@[a] == old_out[a] && out@[b] == old_out[b - 1]);
                } else {
                    assert(out@[a] == old_out[a - 1] && out@[b] == old_out[b - 1]);
                }
            }
        }
        i += 1;
    }
    out
}

/// Pair keys in lexicographic order: by the first text, then the second.
pub open spec fn pair_lt(a: (Seq<char>, Seq<char>), b: (Seq<char>, Seq<char>)) -> bool {
    lex_lt(a.0, b.0) || (a.0 == b.0 && lex_lt(a.1, b.1))
}

/// Item `a` comes before item `b` in a stable sort by pair key.
pub open spec fn pair_before(ka: (Seq<char>, Seq<char>), kb: (Seq<char>, Seq<char>), a: usize, b: usize) -> bool {
    if ka == kb {
        a < b
    } else {
        pair_lt(ka, kb)
    }
}

/// The view of a pair key.
pub open spec fn pair_view(k: (Vec<char>, Vec<char>)) -> (Seq<char>, Seq<char>) {
    (k.0@, k.1@)
}

/// `p` is `keys`' positions in stable pair order.
pub open spec fn pair_sorted(keys: Seq<(Vec<char>, Vec<char>)>, p: Seq<usize>) -> bool {
    forall|i: int, j: int| 0 <= i < j < p.len() ==> pair_before(
        pair_view(keys[#[trigger] p[i] as int]),
        pair_view(keys[#[trigger] p[j] as int]),
        p[i],
        p[j],
    )
}

/// `pair_lt` is a strict total order.
pub proof fn lemma_pair_order(a: (Seq<char>, Seq<char>), b: (Seq<char>, Seq<char>), c: (Seq<char>, Seq<char>))
    ensures
        !pair_lt(a, a),
        pair_lt(a, b) ==> !pair_lt(b, a),
        pair_lt(a, b) && pair_lt(b, c) ==> pair_lt(a, c),
        a != b ==> pair_lt(a, b) || pair_lt(b, a),
{
    lemma_lex_asym(a.0, b.0);
    lemma_lex_asym(b.0, c.0);
    lemma_lex_asym(a.1, b.1);
    lemma_lex_asym(b.1, c.1);
    lemma_lex_asym(a.0, a.0);
    lemma_lex_asym(a.1, a.1);
    if lex_lt(a.0, b.0) && lex_lt(b.0, c.0) {
        lemma_lex_trans(a.0, b.0, c.0);
    }
    if lex_lt(a.1, b.1) && lex_lt(b.1, c.1) {
        lemma_lex_trans(a.1, b.1, c.1);
    }
    if a.0 != b.0 {
        lemma_lex_total(a.0, b.0);
    }
    if a.1 != b.1 {
        lemma_lex_total(a.1, b.1);
    }
    assert(a != b ==> a.0 != b.0 || a.1 != b.1);
}

fn pair_less(a: &(Vec<char>, Vec<char>), b: &(Vec<char>, Vec<char>)) -> (r: bool)
    ensures
        r == pair_lt(pair_view(*a), pair_view(*b)),
{
    if lex_less(&a.0, &b.0) {
        true
    } else if eq_vec(&a.0, &b.0) {
        lex_less(&a.1, &b.1)
    } else {
        false
    }
}

/// The positions of `keys` in the order a stable ascending sort by the
/// pair of texts (first text, then second) leaves them.
pub fn stable_order_pairs(keys: &Vec<(Vec<char>, Vec<char>)>) -> (p: Vec<usize>)
    ensures
        is_perm(p@, keys@.len()),
        pair_sorted(keys@, p@),
{
    let mut out: Vec<usize> = Vec::new();
    let mut i: usize = 0;
    while i < keys.len()
        invariant
            i <= keys@.len(),
            out@.len() == i,
            forall|a: int| 0 <= a < out@.len() ==> #[trigger] out@[a] < i,
            forall|a: int, b: int| 0 <= a < b < out@.len() ==> #[trigger] out@[a] != #[trigger] out@[b],
            pair_sorted(keys@, out@),
        decreases keys.len() - i,
    {
        let ghost k = pair_view(keys@[i as int]);
        let mut j: usize = 0;
        while j < out.len() && !pair_less(&keys[i], &keys[out[j]])
            invariant
                j <= out@.len(),
                i < keys@.len(),
                k == pair_view(keys@[i as int]),
                forall|a: int| 0 <= a < out@.len() ==> #[trigger] out@[a] < i,
                forall|a: int| 0 <= a < j ==> pair_before(pair_view(keys@[#[trigger] out@[a] as int]), k, out@[a], i),
            decreases out.len() - j,
        {
            proof {
                let ka = pair_view(keys@[out@[j as int] as int]);
                lemma_pair_order(ka, k, k);
                lemma_pair_order(k, ka, ka);
            }
            j += 1;
        }
        let ghost old_out = out@;
        out.insert(j, i);
        proof {
            assert(out@ =~= old_out.insert(j as int, i));
            assert forall|a: int, b: int| 0 <= a < b < out@.len() implies pair_before(
                pair_view(keys@[#[trigger] out@[a] as int]),
                pair_view(keys@[#[trigger] out@[b] as int]),
                out@[a],
                out@[b],
            ) by {
                if b < j {
                    assert(out@[a] == old_out[a] && out@[b] == old_out[b]);
                } else if b == j {
                    assert(out@[a] == old_out[a]);
                } else if a < j {
                    assert(out@[a] == old_out[a] && out@[b] == old_out[b - 1]);
                } else if a == j {
                    assert(out@[b] == old_out[b - 1]);
                    let kj = pair_view(keys@[old_out[j as int] as int]);
                    let kb = pair_view(keys@[old_out[b - 1] as int]);
                    assert(pair_lt(k, kj));
                    lemma_pair_order(k, kj, kb);
                    lemma_pair_order(kb, kj, k);
                    lemma_pair_order(kj, kb, k);
                    lemma_pair_order(k, kb, kj);
                    if b - 1 > j {
                        assert(pair_before(kj, kb, old_out[j as int], old_out[b - 1]));
                    }
                } else {
                    assert(out@[a] == old_out[a - 1] && out@[b] == old_out[b - 1]);
                }
            }
            assert forall|a: int, b: int| 0 <= a < b < out@.len() implies #[trigger] out@[a] != #[trigger] out@[b] by {
                if a == j {
                    assert(out@[b] == old_out[b - 1]);
                } else if b == j {
                    assert(out@[a] == old_out[a]);
                } else if a < j && b < j {
                    assert(out@[a] == old_out[a] && out@[b] == old_out[b]);
                } else if a < j {
                    assert(out@[a] == old_out[a] && out@[b] == old_out[b - 1]);
                } else {
                    assert(out@[a] == old_out[a - 1] && out@[b] == old_out[b - 1]);
                }
            }
        }
        i += 1;
    }
    out
}

/// A permutation of the positions below `n` holds each of them.
pub proof fn lemma_perm_covers(p: Seq<usize>, n: nat, x: int)
    requires
        is_perm(p, n),
        0 <= x < n,
    ensures
        exists|w: int| 0 <= w < p.len() && p[w] == x as usize,
{
    broadcast use vstd::seq_lib::seq_to_set_is_finite;
    let q = p.map_values(|v: usize| v as int);
    assert(q.no_duplicates()) by {
        assert forall|i: int, j: int| 0 <= i < q.len() && 0 <= j < q.len() && i != j implies q[i] != q[j] by {
            if i < j {
                assert(p[i] != p[j]);
            } else {
                assert(p[j] != p[i]);
            }
        }
    }
    q.unique_seq_to_set();
    let s = q.to_set();
    let full = vstd::set_lib::set_int_range(0, n as int);
    vstd::set_lib::lemma_int_range(0, n as int);
    assert forall|k: int| s.contains(k) implies full.contains(k) by {
        let w = choose|w: int| 0 <= w < q.len() && q[w] == k;
        assert(p[w] < n);
    }
    if !s.contains(x) {
        assert(s.subset_of(full.remove(x)));
        vstd::set_lib::lemma_len_subset(s, full.remove(x));
        assert(false);
    }
    let w = choose|w: int| 0 <= w < q.len() && q[w] == x;
    assert(p[w] == x as usize);
}

} // verus!
