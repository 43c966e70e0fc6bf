use catacomb::database::{check_reparent, index_sync_plan, parent_of, FolderRecord, ReparentError, SearchEntry};

fn folder(id: i64, parent: Option<i64>) -> FolderRecord {
    FolderRecord { id, name: format!("f{id}"), position: 0, parent_id: parent }
}

#[test]
fn reparent_refuses_cycles() {
    // B under A, C under B.
    let fs = vec![folder(1, None), folder(2, Some(1)), folder(3, Some(2))];
    assert_eq!(parent_of(&fs, 3), Some(2));
    assert_eq!(parent_of(&fs, 9), None);
    assert_eq!(check_reparent(&fs, 1, Some(1)), Err(ReparentError::OwnParent));
    assert_eq!(check_reparent(&fs, 1, Some(3)), Err(ReparentError::OwnDescendant));
    assert_eq!(check_reparent(&fs, 3, None), Ok(()));
    assert_eq!(check_reparent(&fs, 3, Some(1)), Ok(()));
    assert_eq!(check_reparent(&fs, 2, Some(9)), Ok(()));
    assert_eq!(
        ReparentError::OwnDescendant.message(),
        "that move would nest a folder inside its own descendant"
    );
}

#[test]
fn reparent_walk_stops_on_a_corrupt_loop() {
    // 2 and 3 already form a loop; the walk gives up instead of hanging.
    let fs = vec![folder(1, None), folder(2, Some(3)), folder(3, Some(2))];
    assert_eq!(check_reparent(&fs, 1, Some(2)), Ok(()));
}

#[test]
fn search_index_sync_reindexes_changed_and_drops_vanished() {
    let entry = |id: &str, mtime: i64| SearchEntry {
        video_id: id.into(),
        mtime_unix: mtime,
        platform: "channels".into(),
        channel: "c".into(),
        title: "t".into(),
        description_path: None,
    };
    let existing = vec![("a".to_string(), 10), ("b".to_string(), 20), ("gone".to_string(), 5)];
    let entries = vec![entry("a", 10), entry("b", 21), entry("new", 1)];
    let (changed, stale) = index_sync_plan(&existing, &entries);
    assert_eq!(changed, vec![1, 2]);
    assert_eq!(stale, vec![2]);
    // Already current: nothing to do.
    let (c2, s2) = index_sync_plan(&existing[..2].to_vec(), &entries[..1].iter().cloned().chain([entry("b", 20)]).collect());
    assert!(c2.is_empty() && s2.is_empty());
}

#[test]
fn applying_the_plan_then_resyncing_plans_nothing() {
    let entry = |id: &str, mtime: i64| SearchEntry {
        video_id: id.into(),
        mtime_unix: mtime,
        platform: "channels".into(),
        channel: "c".into(),
        title: "t".into(),
        description_path: None,
    };
    let mut index = vec![("a".to_string(), 10), ("b".to_string(), 20), ("gone".to_string(), 5)];
    let entries = vec![entry("a", 10), entry("b", 21), entry("new", 1)];
    let (changed, stale) = index_sync_plan(&index, &entries);
    let mut kept: Vec<(String, i64)> =
        index.iter().enumerate().filter(|(i, _)| !stale.contains(i)).map(|(_, r)| r.clone()).collect();
    for &k in &changed {
        let e = &entries[k];
        kept.retain(|r| r.0 != e.video_id);
        kept.push((e.video_id.clone(), e.mtime_unix));
    }
    index = kept;
    index.sort();
    assert_eq!(index, vec![("a".to_string(), 10), ("b".to_string(), 21), ("new".to_string(), 1)]);
    let (c2, s2) = index_sync_plan(&index, &entries);
    assert!(c2.is_empty() && s2.is_empty());
}

#[test]
fn reparent_refused_exactly_below_itself() {
    // 1 ─ 2 ─ 3, and 4 apart.
    let f = vec![folder(1, None), folder(2, Some(1)), folder(3, Some(2)), folder(4, None)];
    assert_eq!(check_reparent(&f, 1, Some(3)), Err(ReparentError::OwnDescendant));
    assert_eq!(check_reparent(&f, 1, Some(1)), Err(ReparentError::OwnParent));
    assert_eq!(check_reparent(&f, 3, Some(1)), Ok(()));
    assert_eq!(check_reparent(&f, 2, Some(4)), Ok(()));
    assert_eq!(check_reparent(&f, 4, Some(3)), Ok(()));
}
