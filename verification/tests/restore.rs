use catacomb::restore::{backup_refusal, merge_backup, missing_table, AssignRow, DbRows, FlagRow, FolderRow, StampedRow};

fn stamped(key: &str, subkey: &str, text: &str, bits: u64, stamp: &str) -> StampedRow {
    StampedRow { key: key.into(), subkey: subkey.into(), text: text.into(), bits, stamp: stamp.into() }
}

fn watched(id: &str, at: &str) -> StampedRow {
    stamped(id, "", "", 0, at)
}

fn position(id: &str, secs: f64, at: &str) -> StampedRow {
    stamped(id, "", "", secs.to_bits(), at)
}

fn flags(id: &str, bookmark: i64, favourite: i64, waiting: i64, archive: i64) -> FlagRow {
    FlagRow { video_id: id.into(), bookmark, favourite, waiting, archive, updated_at: "2024-01-01 00:00:00".into() }
}

fn folder(id: i64, name: &str) -> FolderRow {
    FolderRow { id, name: name.into(), position: 0, created_at: "2024-01-01 00:00:00".into(), parent_id: None }
}

fn empty() -> DbRows {
    DbRows {
        watched: vec![],
        positions: vec![],
        options: vec![],
        flags: vec![],
        folders: vec![],
        assignments: vec![],
        notes: vec![],
        has_notes: true,
    }
}

fn find<'a>(rows: &'a [StampedRow], key: &str) -> Option<&'a StampedRow> {
    rows.iter().find(|r| r.key == key)
}

#[test]
fn restores_watched_and_positions() {
    let mut live = empty();
    live.positions.push(position("v-shared", 10.0, "2024-05-01 10:00:00"));
    let mut backup = empty();
    backup.watched.push(watched("v-only-in-backup", "2024-05-01 09:00:00"));
    backup.positions.push(position("v-shared", 42.5, "2024-05-01 10:00:01"));

    let (merged, summary) = merge_backup(&live, &backup, 1);
    assert_eq!(summary.watched_added, 1);
    assert_eq!(summary.positions_added, 0);
    assert!(find(&merged.watched, "v-only-in-backup").is_some());
    let p = f64::from_bits(find(&merged.positions, "v-shared").unwrap().bits);
    assert!((p - 42.5).abs() < 0.001);
}

#[test]
fn older_backup_row_loses() {
    let mut live = empty();
    live.positions.push(position("v", 10.0, "2024-05-02 00:00:00"));
    let mut backup = empty();
    backup.positions.push(position("v", 99.0, "2024-05-01 00:00:00"));
    let (merged, summary) = merge_backup(&live, &backup, 1);
    assert_eq!(summary.positions_added, 0);
    assert_eq!(f64::from_bits(merged.positions[0].bits), 10.0);
}

#[test]
fn ors_video_flags() {
    let mut live = empty();
    live.flags.push(flags("v1", 0, 1, 0, 0));
    let mut backup = empty();
    backup.flags.push(flags("v1", 1, 0, 0, 0));
    backup.flags.push(flags("v2", 0, 0, 1, 0));

    let (merged, summary) = merge_backup(&live, &backup, 1);
    let v1 = merged.flags.iter().find(|f| f.video_id == "v1").unwrap();
    let v2 = merged.flags.iter().find(|f| f.video_id == "v2").unwrap();
    assert_eq!(v1.favourite, 1);
    assert_eq!(v1.bookmark, 1);
    assert_eq!(v2.waiting, 1);
    assert_eq!(summary.flags_added, 1);
}

#[test]
fn idempotent_when_run_twice() {
    let live = empty();
    let mut backup = empty();
    backup.watched.push(watched("v1", "2024-05-01 09:00:00"));
    backup.positions.push(position("v1", 7.5, "2024-05-01 09:00:00"));

    let (once, s1) = merge_backup(&live, &backup, 1);
    let (twice, s2) = merge_backup(&once, &backup, 1);

    assert_eq!(s1.watched_added, 1);
    assert_eq!(s1.positions_added, 1);
    assert_eq!(s2.watched_added, 0);
    assert_eq!(s2.positions_added, 0);
    assert_eq!(twice.watched.len(), once.watched.len());
    assert_eq!(twice.positions[0].bits, once.positions[0].bits);
}

#[test]
fn notes_merge_keeps_later_on_restore() {
    let mut live = empty();
    live.notes.push(stamped("video", "shared", "old live text", 0, "2024-05-01 10:00:00"));
    let mut backup = empty();
    backup.notes.push(stamped("video", "only-backup", "from backup", 0, "2024-05-01 09:00:00"));
    backup.notes.push(stamped("video", "shared", "newer backup text", 0, "2024-05-01 10:00:01"));

    let (merged, summary) = merge_backup(&live, &backup, 1);
    assert_eq!(summary.notes_added, 1);
    let note = |id: &str| merged.notes.iter().find(|n| n.subkey == id).map(|n| n.text.clone());
    assert_eq!(note("only-backup").as_deref(), Some("from backup"));
    assert_eq!(note("shared").as_deref(), Some("newer backup text"));
}

#[test]
fn backup_without_notes_leaves_notes_alone() {
    let mut live = empty();
    live.notes.push(stamped("channel", "c", "mine", 0, "2024-05-01 10:00:00"));
    let mut backup = empty();
    backup.has_notes = false;
    backup.notes.push(stamped("channel", "c", "theirs", 0, "2025-01-01 00:00:00"));
    let (merged, summary) = merge_backup(&live, &backup, 1);
    assert_eq!(summary.notes_added, 0);
    assert_eq!(merged.notes[0].text, "mine");
}

#[test]
fn folders_and_assignments_resolve_by_name() {
    let mut live = empty();
    live.folders.push(folder(1, "Music"));
    live.assignments.push(AssignRow { platform: "youtube".into(), handle: "kept".into(), folder_id: 1 });
    let mut backup = empty();
    backup.folders.push(folder(7, "Music"));
    backup.folders.push(folder(8, "Cooking"));
    backup.assignments.push(AssignRow { platform: "youtube".into(), handle: "kept".into(), folder_id: 8 });
    backup.assignments.push(AssignRow { platform: "youtube".into(), handle: "chef".into(), folder_id: 8 });
    backup.assignments.push(AssignRow { platform: "youtube".into(), handle: "band".into(), folder_id: 7 });
    backup.assignments.push(AssignRow { platform: "youtube".into(), handle: "lost".into(), folder_id: 99 });

    let (merged, summary) = merge_backup(&live, &backup, 5);
    assert_eq!(summary.folders_added, 1);
    assert_eq!(merged.folders.len(), 2);
    assert_eq!(merged.folders[1].id, 5);
    assert_eq!(merged.folders[1].name, "Cooking");
    assert_eq!(merged.folders[1].parent_id, None);

    assert_eq!(summary.assignments_added, 2);
    let target = |h: &str| merged.assignments.iter().find(|a| a.handle == h).map(|a| a.folder_id);
    assert_eq!(target("kept"), Some(1));
    assert_eq!(target("chef"), Some(5));
    assert_eq!(target("band"), Some(1));
    assert_eq!(target("lost"), None);

    let (_, again) = merge_backup(&merged, &backup, 6);
    assert_eq!(again.folders_added, 0);
    assert_eq!(again.assignments_added, 0);
}

#[test]
fn rejects_backup_missing_a_table() {
    let tables: Vec<String> = ["watched", "positions", "channel_options", "video_flags", "channel_assignments"]
        .iter()
        .map(|s| s.to_string())
        .collect();
    assert_eq!(missing_table(&tables), Some("folders".to_string()));
    let unrelated = vec!["foo".to_string()];
    assert_eq!(missing_table(&unrelated), Some("watched".to_string()));
    let mut all = tables.clone();
    all.push("folders".to_string());
    all.push("settings".to_string());
    assert_eq!(missing_table(&all), None);
}

#[test]
fn rejects_unrelated_sqlite_file() {
    let tables = vec!["foo".to_string()];
    let msg = backup_refusal(&tables).unwrap();
    assert!(msg.contains("missing required table"), "{msg}");
}
