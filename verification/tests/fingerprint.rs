use catacomb::fingerprint::{
    clusters, dhash, hamming, similar, UnionFind, DEFAULT_MAX_HAM, DEFAULT_MIN_MATCH, GH, GW,
};

#[test]
fn dhash_gradients() {
    // Strictly increasing rows → every pixel < its right neighbour → no
    // bits set. Strictly decreasing → all 64 bits set.
    let mut inc = [0u8; GW * GH];
    let mut dec = [0u8; GW * GH];
    for y in 0..GH {
        for x in 0..GW {
            inc[y * GW + x] = (x * 20) as u8;
            dec[y * GW + x] = ((GW - x) * 20) as u8;
        }
    }
    assert_eq!(dhash(&inc), 0);
    assert_eq!(dhash(&dec), u64::MAX >> (64 - (GW - 1) * GH));
}

#[test]
fn hamming_basic() {
    assert_eq!(hamming(0b1010, 0b1010), 0);
    assert_eq!(hamming(0b1010, 0b0000), 2);
}

#[test]
fn dhash_sets_single_bit() {
    let mut g = [0u8; GW * GH];
    // Row 2, column 3 brighter than its neighbour → bit 2 * 8 + 3.
    g[2 * GW + 3] = 200;
    assert_eq!(dhash(&g), 1u64 << (2 * 8 + 3));
    assert_eq!(hamming(u64::MAX, 0), 64);
}

#[test]
fn similar_frames() {
    let h = vec![1u64, 2, 3, 4, 5, 6];
    let far = vec![!1u64, !2, !3, !4];
    assert!(similar(&h, &h, DEFAULT_MAX_HAM, DEFAULT_MIN_MATCH));
    assert!(!similar(&h, &far, DEFAULT_MAX_HAM, DEFAULT_MIN_MATCH));
    assert!(!similar(&h, &Vec::new(), DEFAULT_MAX_HAM, DEFAULT_MIN_MATCH));
    // Three shared frames out of six are enough; two are not.
    let b = vec![1u64, 2, 3, 99, 98, 97];
    assert!(similar(&h, &b, 0, 3));
    let c = vec![1u64, 2, 99, 98, 97, 96];
    assert!(!similar(&h, &c, 0, 3));
}

#[test]
fn union_find_transitive_clusters() {
    // a~b and b~c → one group {a, b, c}; d stays alone.
    let mut uf = UnionFind::new(4);
    uf.union(0, 1);
    uf.union(1, 2);
    assert_eq!(uf.find(0), uf.find(2));
    assert_ne!(uf.find(0), uf.find(3));
    let reps = uf.reps();
    let groups = clusters(&reps);
    assert_eq!(groups, vec![vec![0, 1, 2]]);
}

#[test]
fn clusters_in_order_of_first_member() {
    let mut uf = UnionFind::new(6);
    uf.union(4, 1);
    uf.union(0, 5);
    uf.union(3, 3);
    let groups = clusters(&uf.reps());
    assert_eq!(groups, vec![vec![0, 5], vec![1, 4]]);
}

#[test]
fn hamming_metric_laws_on_examples() {
    assert_eq!(hamming(0b1010, 0b1010), 0);
    assert_eq!(hamming(0b1010, 0b0000), 2);
    let (a, b, c) = (0xF0F0_u64, 0x0FF0_u64, 0xFFFF_u64);
    assert_eq!(hamming(a, b), hamming(b, a));
    assert!(hamming(a, c) <= hamming(a, b) + hamming(b, c));
    assert_ne!(hamming(u64::MAX, u64::MAX - 1), 0);
    assert_eq!(hamming(0, u64::MAX), 64);
}
