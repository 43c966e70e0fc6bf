//! Grouping of visually similar videos.
//!
//! Videos are compared along an order (by duration, computed by the
//! caller) within a window: position `a` is compared with the positions
//! `a + 1 .. reach[a]`. Similar pairs are edges of a graph, and the groups
//! are its connected components with at least two members, largest first.

use vstd::prelude::*;
use crate::fingerprint::{clusters, clusters_upto, similar, similar_spec, UnionFind};
use crate::order::{is_perm, num_sorted, stable_order_num};

verus! {

// ── Walks in a graph over positions ─────────────────────────────────────────

/// Step `k` of `q` goes along `adj`.
pub open spec fn walk_step(adj: spec_fn(int, int) -> bool, q: Seq<int>, k: int) -> bool {
    adj(q[k], q[k + 1])
}

/// `q` is a walk through positions `0..n`, each step along `adj`.
pub open spec fn is_walk(adj: spec_fn(int, int) -> bool, n: int, q: Seq<int>) -> bool {
    &&& q.len() >= 1
    &&& forall|k: int| 0 <= k < q.len() ==> 0 <= #[trigger] q[k] < n
    &&& forall|k: int| 0 <= k < q.len() - 1 ==> #[trigger] walk_step(adj, q, k)
}

/// Items `y` and `z` are the same item, or the items at the two ends of a
/// walk (positions map to items through `order`).
pub open spec fn joined(adj: spec_fn(int, int) -> bool, order: Seq<usize>, y: int, z: int) -> bool {
    y == z || exists|q: Seq<int>|
        #[trigger] is_walk(adj, order.len() as int, q) && order[q[0]] == y && order[q.last()] == z
}

/// `adj` goes both ways.
pub open spec fn symmetric(adj: spec_fn(int, int) -> bool) -> bool {
    forall|u: int, v: int| #[trigger] adj(u, v) ==> adj(v, u)
}

/// No two positions hold the same item.
pub open spec fn distinct(order: Seq<usize>) -> bool {
    forall|i: int, j: int| 0 <= i < order.len() && 0 <= j < order.len() && i != j ==> #[trigger] order[i]
        != #[trigger] order[j]
}

proof fn lemma_joined_sym(adj: spec_fn(int, int) -> bool, order: Seq<usize>, y: int, z: int)
    requires
        symmetric(adj),
        joined(adj, order, y, z),
    ensures
        joined(adj, order, z, y),
{
    if y != z {
        let q = choose|q: Seq<int>|
            #[trigger] is_walk(adj, order.len() as int, q) && order[q[0]] == y && order[q.last()] == z;
        let r = q.reverse();
        assert forall|k: int| 0 <= k < r.len() - 1 implies #[trigger] walk_step(adj, r, k) by {
            let k2 = q.len() - 2 - k;
            assert(walk_step(adj, q, k2));
            assert(r[k] == q[k2 + 1]);
            assert(r[k + 1] == q[k2]);
        }
        assert forall|k: int| 0 <= k < r.len() implies 0 <= #[trigger] r[k] < order.len() by {
            assert(r[k] == q[q.len() - 1 - k]);
        }
        assert(is_walk(adj, order.len() as int, r));
        assert(r[0] == q.last());
        assert(r.last() == q[0]);
    }
}

proof fn lemma_joined_trans(adj: spec_fn(int, int) -> bool, order: Seq<usize>, x: int, y: int, z: int)
    requires
        distinct(order),
        joined(adj, order, x, y),
        joined(adj, order, y, z),
    ensures
        joined(adj, order, x, z),
{
    if x != y && y != z {
        let n = order.len() as int;
        let q1 = choose|q: Seq<int>| #[trigger] is_walk(adj, n, q) && order[q[0]] == x && order[q.last()] == y;
        let q2 = choose|q: Seq<int>| #[trigger] is_walk(adj, n, q) && order[q[0]] == y && order[q.last()] == z;
        assert(q1.last() == q2[0]) by {
            assert(0 <= q1[q1.len() - 1] < n);
            assert(0 <= q2[0] < n);
        }
        let w = q1 + q2.drop_first();
        assert forall|k: int| 0 <= k < w.len() implies 0 <= #[trigger] w[k] < n by {
            if k < q1.len() {
                assert(w[k] == q1[k]);
            } else {
                assert(w[k] == q2[k - q1.len() + 1]);
            }
        }
        assert forall|k: int| 0 <= k < w.len() - 1 implies #[trigger] walk_step(adj, w, k) by {
            if k < q1.len() - 1 {
                assert(walk_step(adj, q1, k));
                assert(w[k] == q1[k] && w[k + 1] == q1[k + 1]);
            } else {
                let k2 = k - q1.len() + 1;
                assert(w[k] == q2[k2]);
                assert(w[k + 1] == q2[k2 + 1]);
                assert(walk_step(adj, q2, k2));
            }
        }
        assert(is_walk(adj, n, w));
        assert(w[0] == q1[0]);
        assert(w.last() == q2.last());
    }
}

proof fn lemma_joined_mono(a1: spec_fn(int, int) -> bool, a2: spec_fn(int, int) -> bool, order: Seq<usize>, y: int, z: int)
    requires
        forall|u: int, v: int| #[trigger] a1(u, v) ==> a2(u, v),
        joined(a1, order, y, z),
    ensures
        joined(a2, order, y, z),
{
    if y != z {
        let n = order.len() as int;
        let q = choose|q: Seq<int>| #[trigger] is_walk(a1, n, q) && order[q[0]] == y && order[q.last()] == z;
        assert forall|k: int| 0 <= k < q.len() - 1 implies #[trigger] walk_step(a2, q, k) by {
            assert(walk_step(a1, q, k));
        }
        assert(is_walk(a2, n, q));
    }
}

proof fn lemma_joined_step(adj: spec_fn(int, int) -> bool, order: Seq<usize>, p: int, b: int)
    requires
        0 <= p < order.len(),
        0 <= b < order.len(),
        adj(p, b),
    ensures
        joined(adj, order, order[p] as int, order[b] as int),
{
    let q = seq![p, b];
    assert(q[0] == p && q[1] == b);
    assert(walk_step(adj, q, 0));
    assert(is_walk(adj, order.len() as int, q));
}

/// Without edges, only an item is joined with itself.
proof fn lemma_joined_none(adj: spec_fn(int, int) -> bool, order: Seq<usize>, y: int, z: int)
    requires
        forall|u: int, v: int| !#[trigger] adj(u, v),
    ensures
        joined(adj, order, y, z) <==> y == z,
{
    if y != z && joined(adj, order, y, z) {
        let q = choose|q: Seq<int>|
            #[trigger] is_walk(adj, order.len() as int, q) && order[q[0]] == y && order[q.last()] == z;
        if q.len() >= 2 {
            assert(walk_step(adj, q, 0));
        }
    }
}

/// What joins `y` and `z` once the edge between positions `p` and `b` is
/// added.
pub open spec fn joined_after(adj: spec_fn(int, int) -> bool, order: Seq<usize>, i: int, j: int, y: int, z: int) -> bool {
    joined(adj, order, y, z) || ((joined(adj, order, y, i) || joined(adj, order, y, j)) && (joined(
        adj,
        order,
        z,
        i,
    ) || joined(adj, order, z, j)))
}

proof fn lemma_walk_after(
    adj: spec_fn(int, int) -> bool,
    adj2: spec_fn(int, int) -> bool,
    order: Seq<usize>,
    p: int,
    b: int,
    q: Seq<int>,
    len: int,
)
    requires
        symmetric(adj),
        distinct(order),
        forall|u: int, v: int| #[trigger] adj2(u, v) <==> adj(u, v) || (u == p && v == b) || (u == b && v == p),
        is_walk(adj2, order.len() as int, q),
        1 <= len <= q.len(),
        0 <= p < order.len(),
        0 <= b < order.len(),
    ensures
        joined_after(adj, order, order[p] as int, order[b] as int, order[q[0]] as int, order[q[len - 1]] as int),
    decreases len,
{
    let i = order[p] as int;
    let j = order[b] as int;
    let y = order[q[0]] as int;
    let z = order[q[len - 1]] as int;
    if len == 1 {
    } else {
        lemma_walk_after(adj, adj2, order, p, b, q, len - 1);
        let m = order[q[len - 2]] as int;
        assert(walk_step(adj2, q, len - 2));
        assert(adj2(q[len - 2], q[len - 1]));
        if adj(q[len - 2], q[len - 1]) {
            lemma_joined_step(adj, order, q[len - 2], q[len - 1]);
            assert(joined(adj, order, m, z));
            if joined(adj, order, y, m) {
                lemma_joined_trans(adj, order, y, m, z);
            } else {
                lemma_joined_sym(adj, order, m, z);
                if joined(adj, order, m, i) {
                    lemma_joined_trans(adj, order, z, m, i);
                } else {
                    lemma_joined_trans(adj, order, z, m, j);
                }
            }
        } else {
            assert(z == i || z == j);
            assert(m == i || m == j);
            if joined(adj, order, y, m) {
                assert(joined(adj, order, y, i) || joined(adj, order, y, j));
            }
        }
    }
}

/// Adding the edge between positions `p` and `b` joins exactly what
/// [`joined_after`] says.
proof fn lemma_joined_add(
    adj: spec_fn(int, int) -> bool,
    adj2: spec_fn(int, int) -> bool,
    order: Seq<usize>,
    p: int,
    b: int,
    y: int,
    z: int,
)
    requires
        symmetric(adj),
        distinct(order),
        0 <= p < order.len(),
        0 <= b < order.len(),
        forall|u: int, v: int| #[trigger] adj2(u, v) <==> adj(u, v) || (u == p && v == b) || (u == b && v == p),
    ensures
        joined(adj2, order, y, z) <==> joined_after(adj, order, order[p] as int, order[b] as int, y, z),
{
    let i = order[p] as int;
    let j = order[b] as int;
    assert(symmetric(adj2));
    if joined(adj2, order, y, z) && y != z {
        let q = choose|q: Seq<int>|
            #[trigger] is_walk(adj2, order.len() as int, q) && order[q[0]] == y && order[q.last()] == z;
        lemma_walk_after(adj, adj2, order, p, b, q, q.len() as int);
    }
    if joined_after(adj, order, i, j, y, z) {
        assert forall|u: int, v: int| #[trigger] adj(u, v) implies adj2(u, v) by {}
        if joined(adj, order, y, z) {
            lemma_joined_mono(adj, adj2, order, y, z);
        } else {
            lemma_joined_step(adj2, order, p, b);
            lemma_joined_step(adj2, order, b, p);
            // y reaches one end, z reaches one end, and the ends are joined.
            let ey = if joined(adj, order, y, i) { i } else { j };
            let ez = if joined(adj, order, z, i) { i } else { j };
            lemma_joined_mono(adj, adj2, order, y, ey);
            lemma_joined_mono(adj, adj2, order, z, ez);
            lemma_joined_sym(adj2, order, z, ez);
            assert(joined(adj2, order, ey, ez));
            lemma_joined_trans(adj2, order, y, ey, ez);
            lemma_joined_trans(adj2, order, y, ez, z);
        }
    }
}

// ── The similarity graph ─────────────────────────────────────────────────────

/// The frame hashes of each video, as sequences.
pub open spec fn hash_views(hashes: Seq<Vec<u64>>) -> Seq<Seq<u64>> {
    hashes.map_values(|h: Vec<u64>| h@)
}

/// Positions `a < b` are compared (`b` lies in `a`'s window) and the
/// videos there are similar.
pub open spec fn pair_linked(
    hs: Seq<Seq<u64>>,
    order: Seq<usize>,
    reach: Seq<usize>,
    max_ham: u32,
    min_match: usize,
    a: int,
    b: int,
) -> bool {
    &&& 0 <= a < b < order.len()
    &&& b < reach[a]
    &&& similar_spec(hs[order[a] as int], hs[order[b] as int], max_ham, min_match as int)
}

/// The pair `(a, b)` is linked and comes before `(oi, j)` in the order of
/// comparison.
pub open spec fn link_done(
    hs: Seq<Seq<u64>>,
    order: Seq<usize>,
    reach: Seq<usize>,
    max_ham: u32,
    min_match: usize,
    oi: int,
    j: int,
    a: int,
    b: int,
) -> bool {
    pair_linked(hs, order, reach, max_ham, min_match, a, b) && (a < oi || (a == oi && b < j))
}

/// The edges found before comparing position `oi` with position `j`,
/// both ways.
pub open spec fn links(
    hs: Seq<Seq<u64>>,
    order: Seq<usize>,
    reach: Seq<usize>,
    max_ham: u32,
    min_match: usize,
    oi: int,
    j: int,
) -> spec_fn(int, int) -> bool {
    |u: int, v: int|
        link_done(hs, order, reach, max_ham, min_match, oi, j, u, v) || link_done(
            hs,
            order,
            reach,
            max_ham,
            min_match,
            oi,
            j,
            v,
            u,
        )
}

/// The similarity graph: every compared pair of similar videos, both ways.
pub open spec fn similarity_graph(
    hs: Seq<Seq<u64>>,
    order: Seq<usize>,
    reach: Seq<usize>,
    max_ham: u32,
    min_match: usize,
) -> spec_fn(int, int) -> bool {
    links(hs, order, reach, max_ham, min_match, order.len() as int, 0)
}

/// The groups, as sequences.
pub open spec fn group_views(g: Seq<Vec<usize>>) -> Seq<Seq<usize>> {
    g.map_values(|v: Vec<usize>| v@)
}

/// The size of each group.
pub open spec fn group_sizes(c: Seq<Seq<usize>>) -> Seq<u64> {
    c.map_values(|m: Seq<usize>| m.len() as u64)
}

/// `g` is `c` stably ordered by size, largest first.
pub open spec fn largest_first(c: Seq<Seq<usize>>, g: Seq<Seq<usize>>) -> bool {
    exists|p: Seq<usize>|
        #[trigger] is_perm(p, c.len()) && num_sorted(group_sizes(c), p, true) && g.len() == c.len() && (forall|
            k: int,
        |
            0 <= k < g.len() ==> #[trigger] g[k] == c[p[k] as int])
}

/// Groups (indices into `hashes`) of two or more videos joined by chains
/// of similar pairs, largest first.
///
/// Position `a` of `order` is compared with positions `a + 1 .. reach[a]`
/// (those past the end are not); two compared videos are linked when
/// [`similar_spec`] holds of their frame hashes. The result is exactly the
/// connected components of that graph with at least two members, each
/// listed in ascending index order; components come in order of their
/// smallest member, then stably sorted by size, largest first.
pub fn group_by_similarity(
    hashes: &Vec<Vec<u64>>,
    order: &Vec<usize>,
    reach: &Vec<usize>,
    max_ham: u32,
    min_match: usize,
) -> (g: Vec<Vec<usize>>)
    requires
        is_perm(order@, hashes@.len()),
        reach@.len() == order@.len(),
    ensures
        exists|reps: Seq<usize>|
            {
                &&& reps.len() == hashes@.len()
                &&& forall|y: int, z: int|
                    0 <= y < reps.len() && 0 <= z < reps.len() ==> (#[trigger] reps[y] == #[trigger] reps[z]
                        <==> joined(
                        similarity_graph(hash_views(hashes@), order@, reach@, max_ham, min_match),
                        order@,
                        y,
                        z,
                    ))
                &&& largest_first(clusters_upto(reps, reps.len() as int), group_views(g@))
            },
{
    let ghost hs = hash_views(hashes@);
    let ghost ord = order@;
    let ghost rch = reach@;
    let n = order.len();
    proof {
        assert(distinct(ord)) by {
            assert forall|i: int, j: int|
                0 <= i < ord.len() && 0 <= j < ord.len() && i != j implies #[trigger] ord[i] != #[trigger] ord[j] by {
                if i < j {
                    assert(ord[i] != ord[j]);
                } else {
                    assert(ord[j] != ord[i]);
                }
            }
        }
    }
    let mut uf = UnionFind::new(n);
    proof {
        assert forall|u: int, v: int| !#[trigger] links(hs, ord, rch, max_ham, min_match, 0, 0)(u, v) by {}
        assert forall|y: int, z: int| 0 <= y < n && 0 <= z < n implies (#[trigger] uf.same(y, z) <==> joined(
            links(hs, ord, rch, max_ham, min_match, 0, 0),
            ord,
            y,
            z,
        )) by {
            lemma_joined_none(links(hs, ord, rch, max_ham, min_match, 0, 0), ord, y, z);
        }
    }
    let mut oi: usize = 0;
    while oi < n
        invariant
            n == ord.len(),
            n == hashes@.len(),
            hs == hash_views(hashes@),
            ord == order@,
            rch == reach@,
            rch.len() == n,
            is_perm(ord, n as nat),
            distinct(ord),
            oi <= n,
            uf.wf(),
            uf.size() == n,
            forall|y: int, z: int|
                0 <= y < n && 0 <= z < n ==> (#[trigger] uf.same(y, z) <==> joined(
                    links(hs, ord, rch, max_ham, min_match, oi as int, 0),
                    ord,
                    y,
                    z,
                )),
        decreases n - oi,
    {
        let i = order[oi];
        let lim = if reach[oi] < n {
            reach[oi]
        } else {
            n
        };
        let mut j: usize = oi + 1;
        proof {
            assert(links(hs, ord, rch, max_ham, min_match, oi as int, 0) =~= links(
                hs,
                ord,
                rch,
                max_ham,
                min_match,
                oi as int,
                j as int,
            ));
        }
        while j < lim
            invariant
                n == ord.len(),
                n == hashes@.len(),
                hs == hash_views(hashes@),
                ord == order@,
                rch == reach@,
                rch.len() == n,
                is_perm(ord, n as nat),
                distinct(ord),
                oi < n,
                i == ord[oi as int],
                lim <= n,
                lim <= rch[oi as int],
                lim == n || lim == rch[oi as int],
                oi < j,
                uf.wf(),
                uf.size() == n,
                forall|y: int, z: int|
                    0 <= y < n && 0 <= z < n ==> (#[trigger] uf.same(y, z) <==> joined(
                        links(hs, ord, rch, max_ham, min_match, oi as int, j as int),
                        ord,
                        y,
                        z,
                    )),
            decreases lim - j,
        {
            let k = order[j];
            let ghost adj = links(hs, ord, rch, max_ham, min_match, oi as int, j as int);
            let ghost adj2 = links(hs, ord, rch, max_ham, min_match, oi as int, j as int + 1);
            assert(hashes@[i as int]@ == hs[i as int]);
            assert(hashes@[k as int]@ == hs[k as int]);
            if similar(&hashes[i], &hashes[k], max_ham, min_match) {
                let ghost before = uf;
                uf.union(i, k);
                proof {
                    assert(pair_linked(hs, ord, rch, max_ham, min_match, oi as int, j as int));
                    assert forall|u: int, v: int| #[trigger] adj2(u, v) <==> adj(u, v) || (u == oi && v == j) || (u
                        == j && v == oi) by {}
                    assert forall|y: int, z: int| 0 <= y < n && 0 <= z < n implies (#[trigger] uf.same(y, z)
                        <==> joined(adj2, ord, y, z)) by {
                        lemma_joined_add(adj, adj2, ord, oi as int, j as int, y, z);
                        assert(before.same(y, i as int) == joined(adj, ord, y, i as int));
                        assert(before.same(y, k as int) == joined(adj, ord, y, k as int));
                        assert(before.same(z, i as int) == joined(adj, ord, z, i as int));
                        assert(before.same(z, k as int) == joined(adj, ord, z, k as int));
                        assert(before.same(y, z) == joined(adj, ord, y, z));
                        if joined(adj, ord, y, i as int) {
                            lemma_joined_sym(adj, ord, y, i as int);
                        }
                        if joined(adj, ord, z, i as int) {
                            lemma_joined_sym(adj, ord, z, i as int);
                        }
                    }
                }
            } else {
                proof {
                    assert(adj2 =~= adj);
                }
            }
            j += 1;
        }
        proof {
            assert(links(hs, ord, rch, max_ham, min_match, oi as int, j as int) =~= links(
                hs,
                ord,
                rch,
                max_ham,
                min_match,
                oi as int + 1,
                0,
            ));
        }
        oi += 1;
    }
    let ghost ufb = uf;
    let reps = uf.reps();
    let groups = clusters(&reps);
    let mut sizes: Vec<u64> = Vec::new();
    let mut t: usize = 0;
    while t < groups.len()
        invariant
            t <= groups@.len(),
            sizes@.len() == t,
            forall|s: int| 0 <= s < t ==> #[trigger] sizes@[s] == groups@[s]@.len() as u64,
        decreases groups.len() - t,
    {
        sizes.push(groups[t].len() as u64);
        t += 1;
    }
    let p = stable_order_num(&sizes, true);
    let mut out: Vec<Vec<usize>> = Vec::new();
    let mut t: usize = 0;
    while t < p.len()
        invariant
            t <= p@.len(),
            p@.len() == sizes@.len(),
            sizes@.len() == groups@.len(),
            is_perm(p@, sizes@.len()),
            out@.len() == t,
            forall|s: int| 0 <= s < t ==> (#[trigger] out@[s])@ == groups@[p@[s] as int]@,
        decreases p.len() - t,
    {
        out.push(groups[p[t]].clone());
        t += 1;
    }
    proof {
        let c = clusters_upto(reps@, reps@.len() as int);
        assert(group_views(groups@) =~= c);
        assert(group_sizes(c) =~= sizes@) by {
            assert forall|s: int| 0 <= s < sizes@.len() implies #[trigger] group_sizes(c)[s] == sizes@[s] by {
                assert(c[s] == groups@[s]@);
            }
        }
        assert forall|s: int| 0 <= s < out@.len() implies #[trigger] group_views(out@)[s] == c[p@[s] as int] by {
            assert(c[p@[s] as int] == groups@[p@[s] as int]@);
        }
        assert(largest_first(c, group_views(out@)));
        let rv: Seq<usize> = reps@;
        assert forall|y: int, z: int| 0 <= y < rv.len() && 0 <= z < rv.len() implies (#[trigger] rv[y]
            == #[trigger] rv[z] <==> joined(
            similarity_graph(hs, ord, rch, max_ham, min_match),
            ord,
            y,
            z,
        )) by {
            assert(ufb.same(y, z) <==> joined(links(hs, ord, rch, max_ham, min_match, n as int, 0), ord, y, z));
            assert(rv[y] as int == ufb.rep(y));
            assert(rv[z] as int == ufb.rep(z));
        }
    }
    out
}

} // verus!
