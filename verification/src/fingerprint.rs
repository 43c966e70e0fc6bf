//! Perceptual-hash fingerprinting for content-aware duplicate detection.
//!
//! Each sampled frame, downscaled to a 9×8 grayscale grid, becomes a 64-bit
//! difference hash: bit *k* says whether a pixel is brighter than its
//! right-hand neighbour. Two videos are similar when enough of their frame
//! hashes find a partner within a few bits, and similar videos are
//! clustered transitively with a disjoint-set forest.
//!
//! Frame extraction (ffmpeg) and the duration-sorted comparison window
//! run with the process plumbing; the hashing, the similarity test and the
//! clustering structure are here, and the grouping built on them is in
//! [`crate::dedup`].

use vstd::prelude::*;

verus! {

/// Frames sampled per video.
pub const FRAMES: usize = 6;

/// dHash grid width (one more than the comparisons per row).
pub const GW: usize = 9;

/// dHash grid height.
pub const GH: usize = 8;

/// Default hash tolerance: frame hashes within 8 of 64 bits match.
pub const DEFAULT_MAX_HAM: u32 = 8;

/// Default number of matching frames for two videos to be similar.
pub const DEFAULT_MIN_MATCH: usize = 3;

// ── Difference hash ──────────────────────────────────────────────────────────

/// Bit `k` of `h` is set.
pub open spec fn bit_of(h: u64, k: int) -> bool {
    (h >> (k as u64)) & 1u64 == 1u64
}

/// Comparison `k` (row `k / 8`, column `k % 8`): the pixel is brighter than
/// its right-hand neighbour.
pub open spec fn brighter_right(gray: Seq<u8>, k: int) -> bool {
    gray[(k / 8) * 9 + k % 8] > gray[(k / 8) * 9 + k % 8 + 1]
}

proof fn lemma_set_bit(h: u64, b: u64, k: u64)
    requires
        b < 64,
        k < 64,
    ensures
        ((h | (1u64 << b)) >> k) & 1u64 == if k == b {
            1u64
        } else {
            (h >> k) & 1u64
        },
{
    assert(((h | (1u64 << b)) >> k) & 1u64 == if k == b {
        1u64
    } else {
        (h >> k) & 1u64
    }) by (bit_vector)
        requires
            b < 64,
            k < 64,
    ;
}

proof fn lemma_zero_bits(k: u64)
    requires
        k < 64,
    ensures
        (0u64 >> k) & 1u64 == 0u64,
{
    assert((0u64 >> k) & 1u64 == 0u64) by (bit_vector)
        requires
            k < 64,
    ;
}

/// Compute a difference hash from a 9×8 grayscale buffer (row-major):
/// bit `y * 8 + x` is set when pixel `(x, y)` is brighter than pixel
/// `(x + 1, y)`.
pub fn dhash(gray: &[u8]) -> (h: u64)
    requires
        gray@.len() == GW * GH,
    ensures
        forall|k: int| 0 <= k < 64 ==> #[trigger] bit_of(h, k) == brighter_right(gray@, k),
{
    let mut hash: u64 = 0;
    let mut bit: u64 = 0;
    let mut y: usize = 0;
    assert forall|k: int| 0 <= k < 64 implies !#[trigger] bit_of(hash, k) by {
        lemma_zero_bits(k as u64);
    }
    while y < GH
        invariant
            gray@.len() == GW * GH,
            y <= GH,
            bit == y * 8,
            forall|k: int| 0 <= k < bit ==> #[trigger] bit_of(hash, k) == brighter_right(gray@, k),
            forall|k: int| bit <= k < 64 ==> !#[trigger] bit_of(hash, k),
        decreases GH - y,
    {
        let mut x: usize = 0;
        while x < GW - 1
            invariant
                gray@.len() == GW * GH,
                y < GH,
                x <= GW - 1,
                bit == y * 8 + x,
                forall|k: int|
                    0 <= k < bit ==> #[trigger] bit_of(hash, k) == brighter_right(gray@, k),
                forall|k: int| bit <= k < 64 ==> !#[trigger] bit_of(hash, k),
            decreases GW - 1 - x,
        {
            let i = y * GW + x;
            let old_hash = hash;
            let brighter = gray[i] > gray[i + 1];
            if brighter {
                hash = hash | (1u64 << bit);
            }
            proof {
                assert((bit as int) / 8 == y as int && (bit as int) % 8 == x as int);
                assert forall|k: int| 0 <= k < 64 implies #[trigger] bit_of(hash, k) == if k
                    == bit {
                    brighter
                } else {
                    bit_of(old_hash, k)
                } by {
                    if brighter {
                        lemma_set_bit(old_hash, bit, k as u64);
                    }
                }
            }
            bit = bit + 1;
            x = x + 1;
        }
        y = y + 1;
    }
    hash
}

/// How many of the low `n` bit positions differ between `a` and `b`.
pub open spec fn differing(a: u64, b: u64, n: int) -> nat
    decreases n,
{
    if n <= 0 {
        0
    } else {
        differing(a, b, n - 1) + if bit_of(a, n - 1) != bit_of(b, n - 1) {
            1nat
        } else {
            0nat
        }
    }
}

/// The Hamming distance between two 64-bit hashes.
pub open spec fn hamming_spec(a: u64, b: u64) -> nat {
    differing(a, b, 64)
}

proof fn lemma_xor_bit(a: u64, b: u64, k: u64)
    requires
        k < 64,
    ensures
        (((a ^ b) >> k) & 1u64 == 1u64) == (((a >> k) & 1u64 == 1u64) != ((b >> k) & 1u64
            == 1u64)),
{
    assert((((a ^ b) >> k) & 1u64 == 1u64) == (((a >> k) & 1u64 == 1u64) != ((b >> k) & 1u64
        == 1u64))) by (bit_vector)
        requires
            k < 64,
    ;
}

/// Hamming distance between two frame hashes (number of differing bits).
pub fn hamming(a: u64, b: u64) -> (r: u32)
    ensures
        r == hamming_spec(a, b),
{
    let x = a ^ b;
    let mut count: u32 = 0;
    let mut k: u64 = 0;
    while k < 64
        invariant
            k <= 64,
            x == a ^ b,
            count == differing(a, b, k as int),
            count <= k,
        decreases 64 - k,
    {
        proof {
            lemma_xor_bit(a, b, k);
        }
        if (x >> k) & 1 == 1 {
            count = count + 1;
        }
        k = k + 1;
    }
    count
}

/// Law: the Hamming distance is symmetric, zero from a hash to itself,
/// at most the number of bits compared, and obeys the triangle
/// inequality.
pub proof fn lemma_hamming_laws(a: u64, b: u64, c: u64, n: int)
    requires
        0 <= n <= 64,
    ensures
        differing(a, b, n) == differing(b, a, n),
        differing(a, a, n) == 0,
        differing(a, b, n) <= n,
        differing(a, c, n) <= differing(a, b, n) + differing(b, c, n),
    decreases n,
{
    if n > 0 {
        lemma_hamming_laws(a, b, c, n - 1);
    }
}

proof fn lemma_mask_step(a: u64, b: u64, k: u64)
    requires
        k < 63,
        (a & !(0xffff_ffff_ffff_ffffu64 << k)) == (b & !(0xffff_ffff_ffff_ffffu64 << k)),
        (a >> k) & 1u64 == (b >> k) & 1u64,
    ensures
        (a & !(0xffff_ffff_ffff_ffffu64 << (k + 1u64))) == (b & !(0xffff_ffff_ffff_ffffu64 << (k + 1u64))),
{
    assert((a & !(0xffff_ffff_ffff_ffffu64 << (k + 1u64))) == (b & !(0xffff_ffff_ffff_ffffu64 << (k + 1u64)))) by (bit_vector)
        requires
            k < 63,
            (a & !(0xffff_ffff_ffff_ffffu64 << k)) == (b & !(0xffff_ffff_ffff_ffffu64 << k)),
            (a >> k) & 1u64 == (b >> k) & 1u64,
    ;
}

/// Hashes agreeing on their low `n` bits are equal below bit `n`.
proof fn lemma_same_low_bits(a: u64, b: u64, n: u64)
    requires
        n <= 63,
        differing(a, b, n as int) == 0,
    ensures
        (a & !(0xffff_ffff_ffff_ffffu64 << n)) == (b & !(0xffff_ffff_ffff_ffffu64 << n)),
    decreases n,
{
    if n == 0 {
        assert((a & !(0xffff_ffff_ffff_ffffu64 << 0u64)) == (b & !(0xffff_ffff_ffff_ffffu64 << 0u64))) by (bit_vector);
    } else {
        lemma_same_low_bits(a, b, (n - 1) as u64);
        assert(bit_of(a, n - 1) == bit_of(b, n - 1));
        let k = (n - 1) as u64;
        assert((a >> k) & 1u64 == (b >> k) & 1u64) by (bit_vector)
            requires
                ((a >> k) & 1u64 == 1u64) == ((b >> k) & 1u64 == 1u64),
        ;
        lemma_mask_step(a, b, k);
    }
}

/// Law: two hashes are at Hamming distance 0 exactly when they are equal.
pub proof fn lemma_hamming_zero_iff_equal(a: u64, b: u64)
    ensures
        hamming_spec(a, b) == 0 <==> a == b,
{
    lemma_hamming_laws(a, b, b, 64);
    if hamming_spec(a, b) == 0 {
        lemma_same_low_bits(a, b, 63);
        assert(bit_of(a, 63) == bit_of(b, 63));
        assert(a == b) by (bit_vector)
            requires
                (a & !(0xffff_ffff_ffff_ffffu64 << 63u64)) == (b & !(0xffff_ffff_ffff_ffffu64 << 63u64)),
                ((a >> 63u64) & 1u64 == 1u64) == ((b >> 63u64) & 1u64 == 1u64),
        ;
    }
}

// ── Similarity ───────────────────────────────────────────────────────────────

/// Some hash of `b` is within `max_ham` bits of `h`.
pub open spec fn has_partner(h: u64, b: Seq<u64>, max_ham: u32) -> bool {
    exists|j: int| 0 <= j < b.len() && hamming_spec(h, #[trigger] b[j]) <= max_ham
}

/// How many hashes of `a` have a partner in `b`.
pub open spec fn matched(a: Seq<u64>, b: Seq<u64>, max_ham: u32) -> nat
    decreases a.len(),
{
    if a.len() == 0 {
        0
    } else {
        matched(a.drop_last(), b, max_ham) + if has_partner(a.last(), b, max_ham) {
            1nat
        } else {
            0nat
        }
    }
}

/// The number of matching frames two videos need: `min_match`, capped by
/// each video's frame count.
pub open spec fn needed(a_len: int, b_len: int, min_match: int) -> int {
    let m = if min_match < a_len {
        min_match
    } else {
        a_len
    };
    if m < b_len {
        m
    } else {
        b_len
    }
}

/// Two videos are similar when both have hashes and at least
/// `needed(..)` (and at least one) of `a`'s frame hashes find a partner in
/// `b` within `max_ham` bits.
pub open spec fn similar_spec(a: Seq<u64>, b: Seq<u64>, max_ham: u32, min_match: int) -> bool {
    a.len() > 0 && b.len() > 0 && matched(a, b, max_ham) >= needed(
        a.len() as int,
        b.len() as int,
        min_match,
    ) && matched(a, b, max_ham) > 0
}

proof fn lemma_matched_mono(a: Seq<u64>, b: Seq<u64>, max_ham: u32, i: int, j: int)
    requires
        0 <= i <= j <= a.len(),
    ensures
        matched(a.take(i), b, max_ham) <= matched(a.take(j), b, max_ham),
    decreases j - i,
{
    if i < j {
        assert(a.take(j).drop_last() =~= a.take(j - 1));
        lemma_matched_mono(a, b, max_ham, i, j - 1);
    }
}

/// Whether `h` has a partner in `b`.
fn find_partner(h: u64, b: &Vec<u64>, max_ham: u32) -> (r: bool)
    ensures
        r == has_partner(h, b@, max_ham),
{
    let mut j: usize = 0;
    while j < b.len()
        invariant
            j <= b@.len(),
            forall|i: int| 0 <= i < j ==> hamming_spec(h, #[trigger] b@[i]) > max_ham,
        decreases b.len() - j,
    {
        if hamming(h, b[j]) <= max_ham {
            assert(hamming_spec(h, b@[j as int]) <= max_ham);
            return true;
        }
        j += 1;
    }
    false
}

/// Two videos are "similar" when at least `min_match` of their frame
/// hashes (capped by the shorter list) each find a partner in the other
/// within `max_ham` bits.
pub fn similar(a: &Vec<u64>, b: &Vec<u64>, max_ham: u32, min_match: usize) -> (r: bool)
    ensures
        r == similar_spec(a@, b@, max_ham, min_match as int),
{
    if a.len() == 0 || b.len() == 0 {
        return false;
    }
    let need = if min_match < a.len() {
        min_match
    } else {
        a.len()
    };
    let need = if need < b.len() {
        need
    } else {
        b.len()
    };
    let mut matches: usize = 0;
    let mut i: usize = 0;
    assert(a@.take(0) =~= Seq::<u64>::empty());
    while i < a.len()
        invariant
            i <= a@.len(),
            need == needed(a@.len() as int, b@.len() as int, min_match as int),
            matches == matched(a@.take(i as int), b@, max_ham),
            matches <= i,
            matches > 0 ==> matches < need,
        decreases a.len() - i,
    {
        assert(a@.take(i + 1).drop_last() =~= a@.take(i as int));
        if find_partner(a[i], b, max_ham) {
            matches = matches + 1;
            if matches >= need {
                proof {
                    lemma_matched_mono(a@, b@, max_ham, i + 1, a@.len() as int);
                    assert(a@.take(a@.len() as int) =~= a@);
                }
                return true;
            }
        }
        i = i + 1;
    }
    assert(a@.take(i as int) =~= a@);
    false
}

// ── Disjoint-set forest ──────────────────────────────────────────────────────

/// The root reached from `x` by following parent links, each of which
/// leads to a strictly lower height.
pub open spec fn root_in(p: Seq<usize>, h: Seq<nat>, x: int) -> int
    decreases h[x],
{
    if 0 <= x < p.len() && x < h.len() && p[x] as int != x && (p[x] as int) < h.len() && h[p[x] as int]
        < h[x] {
        root_in(p, h, p[x] as int)
    } else {
        x
    }
}

/// A forest of parent links over `0..p.len()` whose heights fall strictly
/// along every link.
pub open spec fn forest(p: Seq<usize>, h: Seq<nat>) -> bool {
    &&& p.len() == h.len()
    &&& forall|i: int| 0 <= i < p.len() ==> (#[trigger] p[i] as int) < p.len()
    &&& forall|i: int| 0 <= i < p.len() && p[i] as int != i ==> h[#[trigger] p[i] as int] < h[i]
}

proof fn lemma_root(p: Seq<usize>, h: Seq<nat>, x: int)
    requires
        forest(p, h),
        0 <= x < p.len(),
    ensures
        0 <= root_in(p, h, x) < p.len(),
        p[root_in(p, h, x)] as int == root_in(p, h, x),
        p[x] as int != x ==> root_in(p, h, x) == root_in(p, h, p[x] as int),
    decreases h[x],
{
    if p[x] as int != x {
        lemma_root(p, h, p[x] as int);
    }
}

/// Pointing `x` at its grandparent changes no root.
proof fn lemma_halve(p: Seq<usize>, h: Seq<nat>, x: int, y: int)
    requires
        forest(p, h),
        0 <= x < p.len(),
        0 <= y < p.len(),
    ensures
        forest(p.update(x, p[p[x] as int]), h),
        root_in(p.update(x, p[p[x] as int]), h, y) == root_in(p, h, y),
        root_in(p, h, p[p[x] as int] as int) == root_in(p, h, x),
    decreases h[y],
{
    let g = p[p[x] as int];
    let p2 = p.update(x, g);
    lemma_root(p, h, x);
    lemma_root(p, h, p[x] as int);
    assert forall|i: int| 0 <= i < p2.len() && p2[i] as int != i implies h[#[trigger] p2[i] as int]
        < h[i] by {
        if i == x {
            if p[x] as int != x {
                assert(h[p[x] as int] < h[x]);
            }
        }
    }
    assert(forest(p2, h));
    if y == x {
        if p[x] as int != x {
            lemma_halve(p, h, x, g as int);
        }
    } else if p[y] as int != y {
        lemma_halve(p, h, x, p[y] as int);
        lemma_root(p, h, y);
        lemma_root(p2, h, y);
    }
}

/// Heights after linking root `ra` under root `rb`: the whole tree of `ra`
/// is lifted above `rb`.
pub open spec fn linked_heights(p: Seq<usize>, h: Seq<nat>, ra: int, rb: int) -> Seq<nat> {
    Seq::new(
        h.len(),
        |i: int|
            if root_in(p, h, i) == ra {
                h[i] + h[rb] + 1
            } else {
                h[i]
            },
    )
}

/// Linking root `ra` under root `rb` moves exactly `ra`'s tree to `rb`.
proof fn lemma_link(p: Seq<usize>, h: Seq<nat>, ra: int, rb: int, y: int)
    requires
        forest(p, h),
        0 <= ra < p.len(),
        0 <= rb < p.len(),
        p[ra] as int == ra,
        p[rb] as int == rb,
        ra != rb,
        0 <= y < p.len(),
    ensures
        forest(p.update(ra, rb as usize), linked_heights(p, h, ra, rb)),
        root_in(p.update(ra, rb as usize), linked_heights(p, h, ra, rb), y) == if root_in(p, h, y)
            == ra {
            rb
        } else {
            root_in(p, h, y)
        },
    decreases h[y],
{
    let p2 = p.update(ra, rb as usize);
    let h2 = linked_heights(p, h, ra, rb);
    assert(root_in(p, h, ra) == ra);
    assert(root_in(p, h, rb) == rb);
    assert forall|i: int| 0 <= i < p2.len() && p2[i] as int != i implies h2[#[trigger] p2[i] as int]
        < h2[i] by {
        if i != ra {
            lemma_root(p, h, i);
        }
    }
    assert forall|i: int| 0 <= i < p2.len() implies (#[trigger] p2[i] as int) < p2.len() by {}
    assert(forest(p2, h2));
    assert(root_in(p2, h2, rb) == rb);
    if y == ra {
        assert(h2[p2[ra] as int] < h2[ra]);
        assert(root_in(p2, h2, ra) == root_in(p2, h2, rb));
    } else if p[y] as int != y {
        lemma_link(p, h, ra, rb, p[y] as int);
        lemma_root(p, h, y);
        assert(p2[y] == p[y]);
        assert(h2[p2[y] as int] < h2[y]);
        assert(root_in(p2, h2, y) == root_in(p2, h2, p[y] as int));
    } else {
        assert(root_in(p2, h2, y) == y);
    }
}

/// Disjoint-set (union-find) structure over `0..n`, clustering similar
/// videos transitively.
pub struct UnionFind {
    parent: Vec<usize>,
    height: Ghost<Seq<nat>>,
}

impl UnionFind {
    /// The structure is a well-formed forest.
    pub closed spec fn wf(&self) -> bool {
        forest(self.parent@, self.height@)
    }

    /// The number of elements.
    pub closed spec fn size(&self) -> nat {
        self.parent@.len()
    }

    /// The representative of `x`'s class.
    pub closed spec fn rep(&self, x: int) -> int {
        root_in(self.parent@, self.height@, x)
    }

    /// `x` and `y` are in the same class.
    pub open spec fn same(&self, x: int, y: int) -> bool {
        self.rep(x) == self.rep(y)
    }

    /// `n` singleton classes.
    pub fn new(n: usize) -> (r: Self)
        ensures
            r.wf(),
            r.size() == n,
            forall|i: int| 0 <= i < n ==> #[trigger] r.rep(i) == i,
    {
        let mut parent: Vec<usize> = Vec::new();
        let mut i: usize = 0;
        while i < n
            invariant
                i <= n,
                parent@.len() == i,
                forall|j: int| 0 <= j < i ==> #[trigger] parent@[j] == j,
            decreases n - i,
        {
            parent.push(i);
            i += 1;
        }
        let r = UnionFind { parent, height: Ghost(Seq::new(n as nat, |i: int| 0nat)) };
        assert forall|i: int| 0 <= i < n implies #[trigger] r.rep(i) == i by {}
        r
    }

    /// A class representative is an element of the set and represents
    /// itself.
    pub proof fn lemma_rep(&self, x: int)
        requires
            self.wf(),
            0 <= x < self.size(),
        ensures
            0 <= self.rep(x) < self.size(),
            self.rep(self.rep(x)) == self.rep(x),
    {
        lemma_root(self.parent@, self.height@, x);
    }

    /// The representative of `x`'s class, halving the path to it on the way
    /// (each visited node is pointed at its grandparent). No class changes.
    pub fn find(&mut self, x: usize) -> (r: usize)
        requires
            old(self).wf(),
            x < old(self).size(),
        ensures
            final(self).wf(),
            final(self).size() == old(self).size(),
            r == old(self).rep(x as int),
            forall|y: int| 0 <= y < old(self).size() ==> #[trigger] final(self).rep(y) == old(self).rep(y),
    {
        let ghost start = *old(self);
        let ghost x0 = x as int;
        let mut x = x;
        while self.parent[x] != x
            invariant
                self.wf(),
                self.size() == start.size(),
                x < self.size(),
                start.rep(x as int) == start.rep(x0),
                forall|y: int| 0 <= y < start.size() ==> #[trigger] self.rep(y) == start.rep(y),
            decreases self.height@[x as int],
        {
            let px = self.parent[x];
            let gx = self.parent[px];
            let ghost prev = *self;
            proof {
                lemma_root(prev.parent@, prev.height@, x as int);
                lemma_root(prev.parent@, prev.height@, px as int);
                lemma_halve(prev.parent@, prev.height@, x as int, x as int);
            }
            self.parent.set(x, gx);
            proof {
                assert(self.parent@ == prev.parent@.update(x as int, gx));
                assert forall|y: int| 0 <= y < start.size() implies #[trigger] self.rep(y)
                    == start.rep(y) by {
                    lemma_halve(prev.parent@, prev.height@, x as int, y);
                    assert(prev.rep(y) == start.rep(y));
                }
                assert(prev.rep(x as int) == start.rep(x as int));
                assert(prev.rep(gx as int) == start.rep(gx as int));
            }
            x = gx;
        }
        assert(self.rep(x as int) == x);
        x
    }

    /// Merge the classes of `a` and `b`: the members of `a`'s class join
    /// `b`'s class and no other class changes.
    pub fn union(&mut self, a: usize, b: usize)
        requires
            old(self).wf(),
            a < old(self).size(),
            b < old(self).size(),
        ensures
            final(self).wf(),
            final(self).size() == old(self).size(),
            forall|y: int|
                0 <= y < old(self).size() ==> #[trigger] final(self).rep(y) == if old(self).rep(y)
                    == old(self).rep(a as int) {
                    old(self).rep(b as int)
                } else {
                    old(self).rep(y)
                },
            forall|y: int, z: int|
                0 <= y < old(self).size() && 0 <= z < old(self).size() ==> (#[trigger] final(self).same(y, z)
                    <==> old(self).same(y, z) || ((old(self).same(y, a as int) || old(self).same(y, b as int))
                    && (old(self).same(z, a as int) || old(self).same(z, b as int)))),
    {
        let ghost start = *old(self);
        let ra = self.find(a);
        let rb = self.find(b);
        let ghost mid = *self;
        proof {
            assert(mid.rep(a as int) == start.rep(a as int));
            assert(mid.rep(b as int) == start.rep(b as int));
            lemma_root(mid.parent@, mid.height@, a as int);
            lemma_root(mid.parent@, mid.height@, b as int);
        }
        if ra != rb {
            self.parent.set(ra, rb);
            self.height = Ghost(linked_heights(mid.parent@, mid.height@, ra as int, rb as int));
            proof {
                assert(self.parent@ == mid.parent@.update(ra as int, rb));
                assert forall|y: int| 0 <= y < start.size() implies #[trigger] self.rep(y)
                    == if start.rep(y) == start.rep(a as int) {
                    start.rep(b as int)
                } else {
                    start.rep(y)
                } by {
                    lemma_link(mid.parent@, mid.height@, ra as int, rb as int, y);
                    assert(mid.rep(y) == start.rep(y));
                }
                lemma_link(mid.parent@, mid.height@, ra as int, rb as int, 0);
            }
        }
        proof {
            assert forall|y: int| 0 <= y < start.size() implies #[trigger] self.rep(y) == if start.rep(
                y,
            ) == start.rep(a as int) {
                start.rep(b as int)
            } else {
                start.rep(y)
            } by {
                assert(mid.rep(y) == start.rep(y));
            }
            assert forall|y: int, z: int|
                0 <= y < start.size() && 0 <= z < start.size() implies (#[trigger] self.same(y, z)
                <==> start.same(y, z) || ((start.same(y, a as int) || start.same(y, b as int)) && (
                start.same(z, a as int) || start.same(z, b as int)))) by {
                assert(self.rep(y) == if start.rep(y) == start.rep(a as int) {
                    start.rep(b as int)
                } else {
                    start.rep(y)
                });
                assert(self.rep(z) == if start.rep(z) == start.rep(a as int) {
                    start.rep(b as int)
                } else {
                    start.rep(z)
                });
            }
        }
    }

    /// The representative of every element, in index order (halving paths
    /// as [`Self::find`] does).
    pub fn reps(&mut self) -> (r: Vec<usize>)
        requires
            old(self).wf(),
        ensures
            final(self).wf(),
            final(self).size() == old(self).size(),
            forall|y: int| 0 <= y < old(self).size() ==> #[trigger] final(self).rep(y) == old(self).rep(y),
            r@.len() == old(self).size(),
            forall|i: int| 0 <= i < r@.len() ==> #[trigger] r@[i] as int == old(self).rep(i),
    {
        let ghost start = *old(self);
        let n = self.parent.len();
        let mut out: Vec<usize> = Vec::new();
        let mut i: usize = 0;
        while i < n
            invariant
                self.wf(),
                n == start.size(),
                self.size() == start.size(),
                i <= n,
                out@.len() == i,
                forall|y: int| 0 <= y < start.size() ==> #[trigger] self.rep(y) == start.rep(y),
                forall|j: int| 0 <= j < i ==> #[trigger] out@[j] as int == start.rep(j),
            decreases n - i,
        {
            let r = self.find(i);
            out.push(r);
            i += 1;
        }
        out
    }
}

// ── Clusters ─────────────────────────────────────────────────────────────────

/// The indices below `k` whose representative is `r`, ascending.
pub open spec fn members_upto(reps: Seq<usize>, r: usize, k: int) -> Seq<usize>
    decreases k,
{
    if k <= 0 {
        seq![]
    } else {
        members_upto(reps, r, k - 1) + if reps[k - 1] == r {
            seq![(k - 1) as usize]
        } else {
            seq![]
        }
    }
}

/// Index `i` is the first of its class.
pub open spec fn first_of_class(reps: Seq<usize>, i: int) -> bool {
    forall|j: int| 0 <= j < i ==> reps[j] != reps[i]
}

/// The classes with at least two members among the first `k` indices'
/// classes, each as its full ascending member list, ordered by smallest
/// member.
pub open spec fn clusters_upto(reps: Seq<usize>, k: int) -> Seq<Seq<usize>>
    decreases k,
{
    if k <= 0 {
        seq![]
    } else {
        let m = members_upto(reps, reps[k - 1], reps.len() as int);
        clusters_upto(reps, k - 1) + if first_of_class(reps, k - 1) && m.len() >= 2 {
            seq![m]
        } else {
            seq![]
        }
    }
}

/// The members of class `r`, ascending.
fn members(reps: &Vec<usize>, r: usize) -> (m: Vec<usize>)
    ensures
        m@ == members_upto(reps@, r, reps@.len() as int),
{
    let mut m: Vec<usize> = Vec::new();
    let mut j: usize = 0;
    while j < reps.len()
        invariant
            j <= reps@.len(),
            m@ == members_upto(reps@, r, j as int),
        decreases reps.len() - j,
    {
        if reps[j] == r {
            m.push(j);
        }
        j += 1;
    }
    m
}

/// Group indices by representative: every class with at least two
/// members, as its ascending member list, classes ordered by their
/// smallest member.
pub fn clusters(reps: &Vec<usize>) -> (groups: Vec<Vec<usize>>)
    ensures
        groups@.map_values(|g: Vec<usize>| g@) == clusters_upto(reps@, reps@.len() as int),
{
    let mut groups: Vec<Vec<usize>> = Vec::new();
    let mut i: usize = 0;
    while i < reps.len()
        invariant
            i <= reps@.len(),
            groups@.map_values(|g: Vec<usize>| g@) == clusters_upto(reps@, i as int),
        decreases reps.len() - i,
    {
        let mut first = true;
        let mut j: usize = 0;
        while j < i
            invariant
                j <= i < reps@.len(),
                first == forall|k: int| 0 <= k < j ==> reps@[k] != reps@[i as int],
            decreases i - j,
        {
            if reps[j] == reps[i] {
                first = false;
            }
            j += 1;
        }
        let ghost before = groups@.map_values(|g: Vec<usize>| g@);
        if first {
            let m = members(reps, reps[i]);
            if m.len() >= 2 {
                let ghost mv = m@;
                groups.push(m);
                assert(groups@.map_values(|g: Vec<usize>| g@) =~= before.push(mv));
            }
        }
        i += 1;
        assert(groups@.map_values(|g: Vec<usize>| g@) =~= clusters_upto(reps@, i as int));
    }
    groups
}

} // verus!
