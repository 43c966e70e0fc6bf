use catacomb::dedup::group_by_similarity;
use catacomb::fingerprint::{DEFAULT_MAX_HAM, DEFAULT_MIN_MATCH};

const DUR_TOL: f64 = 3.0;

/// Positions sorted by duration, and for each position the first later
/// position whose duration lies beyond the tolerance.
fn window(durations: &[f64], tol: f64) -> (Vec<usize>, Vec<usize>) {
    let mut order: Vec<usize> = (0..durations.len()).collect();
    order.sort_by(|&a, &b| durations[a].partial_cmp(&durations[b]).unwrap());
    let reach = (0..order.len())
        .map(|a| {
            let mut b = a + 1;
            while b < order.len() && durations[order[b]] - durations[order[a]] <= tol {
                b += 1;
            }
            b
        })
        .collect();
    (order, reach)
}

fn group(ids: &[&str], durations: &[f64], hashes: &[Vec<u64>]) -> Vec<Vec<String>> {
    let (order, reach) = window(durations, DUR_TOL);
    group_by_similarity(&hashes.to_vec(), &order, &reach, DEFAULT_MAX_HAM, DEFAULT_MIN_MATCH)
        .into_iter()
        .map(|g| g.into_iter().map(|i| ids[i].to_string()).collect())
        .collect()
}

#[test]
fn groups_identical_content() {
    let h = vec![1u64, 2, 3, 4, 5, 6];
    let ids = ["a", "b", "c"];
    let durations = [100.0, 101.0, 100.5];
    let hashes = vec![h.clone(), h.clone(), vec![!1u64, !2, !3, !4]];
    let groups = group(&ids, &durations, &hashes);
    assert_eq!(groups.len(), 1);
    let g = &groups[0];
    assert!(g.contains(&"a".to_string()) && g.contains(&"b".to_string()) && !g.contains(&"c".to_string()));
}

#[test]
fn duration_tolerance_excludes_far_matches() {
    let h = vec![10u64, 20, 30, 40, 50, 60];
    let groups = group(&["a", "b"], &[60.0, 600.0], &[h.clone(), h]);
    assert!(groups.is_empty());
}

#[test]
fn chains_join_transitively_and_largest_comes_first() {
    // 0~1 and 1~2 are similar (0 and 2 are not directly), 3~4 form a pair.
    let a = vec![0u64, 0, 0];
    let b = vec![0u64, 0, 0xffff_0000_0000_0000];
    let c = vec![0u64, 0xffff_0000_0000_0000, 0xffff_0000_0000_0000];
    let d = vec![0xffu64; 3];
    let hashes = vec![d.clone(), a, b, c, d];
    let durations = [10.0, 50.0, 51.0, 52.0, 11.0];
    let (order, reach) = window(&durations, DUR_TOL);
    let groups = group_by_similarity(&hashes, &order, &reach, 8, 2);
    assert_eq!(groups, vec![vec![1, 2, 3], vec![0, 4]]);
}

#[test]
fn fewer_than_two_videos_give_no_group() {
    let groups = group_by_similarity(&vec![vec![1u64, 2, 3]], &vec![0], &vec![1], DEFAULT_MAX_HAM, DEFAULT_MIN_MATCH);
    assert!(groups.is_empty());
}
