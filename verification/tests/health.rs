use catacomb::maintenance::{duplicate_groups, group_title_index, missing_candidates, video_dir};

fn ids(v: &[&str]) -> Vec<String> {
    v.iter().map(|s| s.to_string()).collect()
}

#[test]
fn duplicates_grouped_by_id_in_id_order() {
    let v = ids(&["b", "a", "c", "b", "a", "b", "d"]);
    let g = duplicate_groups(&v);
    assert_eq!(g, vec![vec![1, 4], vec![0, 3, 5]]);
}

#[test]
fn no_duplicates_no_groups() {
    assert!(duplicate_groups(&ids(&["x", "y", "z"])).is_empty());
    assert!(duplicate_groups(&Vec::new()).is_empty());
}

#[test]
fn group_title_prefers_a_copy_with_video() {
    let has_video = vec![false, false, true, true];
    assert_eq!(group_title_index(&has_video, &vec![0, 1, 3, 2]), 3);
    assert_eq!(group_title_index(&has_video, &vec![1, 0]), 1);
}

#[test]
fn missing_checked_once_per_id_for_video_copies() {
    let v = ids(&["a", "a", "b", "c", "b"]);
    let has_video = vec![false, true, true, false, true];
    assert_eq!(missing_candidates(&v, &has_video), vec![1, 2]);
}

#[test]
fn video_dir_uses_first_known_file() {
    assert_eq!(
        video_dir(None, Some("/lib/c/x [1].info.json"), Some("/other/x.webp"), None, None).as_deref(),
        Some("/lib/c")
    );
    assert_eq!(video_dir(Some("/lib/p/v.mkv"), None, None, None, None).as_deref(), Some("/lib/p"));
    assert_eq!(video_dir(None, None, None, None, None), None);
}
