//! Merging a library backup into the live library.
//!
//! A backup is a snapshot of the library's tables. Restoring it merges its
//! rows in, table by table, without disturbing anything on disk:
//!
//! - `watched`, `positions`, `channel_options`, `notes`: a row of the
//!   backup whose key is new is added; for a key on both sides the later
//!   stamp wins (the backup row replaces the live one only when its stamp
//!   sorts after it).
//! - `video_flags`: each flag becomes the larger of the two sides (a flag
//!   set on either side stays set); new videos are added.
//! - `folders`: a folder whose name is new is added, at the top level,
//!   with the next free id; folders the live side has are kept as they are.
//! - `channel_assignments`: a channel the live side has not assigned is
//!   assigned to the live folder with the name of its backup folder.
//! - `settings` are machine-local and never restored.
//!
//! Merging the same backup a second time changes nothing.

use vstd::prelude::*;
use crate::database::RestoreSummary;
use crate::text::{chars_of, eq_vec, extend_str, lemma_lex_asym, lex_less, lex_lt, string_of};

verus! {

// ── Rows ─────────────────────────────────────────────────────────────────────

/// A row keyed by one or two strings and stamped with the time of its last
/// change: `watched` (key: video id), `positions` (key: video id; `bits`:
/// the position in seconds as the bit pattern of an `f64`),
/// `channel_options` (keys: platform and handle; `text`: the options JSON)
/// and `notes` (keys: target kind and id; `text`: the body). Unused fields
/// are empty or zero.
#[derive(Debug)]
pub struct StampedRow {
    pub key: String,
    pub subkey: String,
    pub text: String,
    pub bits: u64,
    pub stamp: String,
}

/// A `video_flags` row.
#[derive(Debug)]
pub struct FlagRow {
    pub video_id: String,
    pub bookmark: i64,
    pub favourite: i64,
    pub waiting: i64,
    pub archive: i64,
    pub updated_at: String,
}

/// A `folders` row.
#[derive(Debug)]
pub struct FolderRow {
    pub id: i64,
    pub name: String,
    pub position: i64,
    pub created_at: String,
    pub parent_id: Option<i64>,
}

/// A `channel_assignments` row.
#[derive(Debug)]
pub struct AssignRow {
    pub platform: String,
    pub handle: String,
    pub folder_id: i64,
}

/// The restorable tables of one library database. `has_notes` tells
/// whether the database has a `notes` table at all (older backups do not).
#[derive(Debug)]
pub struct DbRows {
    pub watched: Vec<StampedRow>,
    pub positions: Vec<StampedRow>,
    pub options: Vec<StampedRow>,
    pub flags: Vec<FlagRow>,
    pub folders: Vec<FolderRow>,
    pub assignments: Vec<AssignRow>,
    pub notes: Vec<StampedRow>,
    pub has_notes: bool,
}

/// The tables of a library database, as sequences of rows.
#[verifier::ext_equal]
pub struct DbView {
    pub watched: Seq<StampedRow>,
    pub positions: Seq<StampedRow>,
    pub options: Seq<StampedRow>,
    pub flags: Seq<FlagRow>,
    pub folders: Seq<FolderRow>,
    pub assignments: Seq<AssignRow>,
    pub notes: Seq<StampedRow>,
    pub has_notes: bool,
}

impl View for DbRows {
    type V = DbView;

    open spec fn view(&self) -> DbView {
        DbView {
            watched: self.watched@,
            positions: self.positions@,
            options: self.options@,
            flags: self.flags@,
            folders: self.folders@,
            assignments: self.assignments@,
            notes: self.notes@,
            has_notes: self.has_notes,
        }
    }
}

// ── Keys ─────────────────────────────────────────────────────────────────────

/// The last position of a row with key `k`, or -1.
pub open spec fn last_index<R, K>(rows: Seq<R>, kf: spec_fn(R) -> K, k: K) -> int
    decreases rows.len(),
{
    if rows.len() == 0 {
        -1
    } else if kf(rows.last()) == k {
        rows.len() - 1
    } else {
        last_index(rows.drop_last(), kf, k)
    }
}

/// Some row has key `k`.
pub open spec fn has_key<R, K>(rows: Seq<R>, kf: spec_fn(R) -> K, k: K) -> bool {
    last_index(rows, kf, k) >= 0
}

/// No two rows share a key (the table's primary key).
pub open spec fn keys_unique<R, K>(rows: Seq<R>, kf: spec_fn(R) -> K) -> bool {
    forall|i: int, j: int| 0 <= i < j < rows.len() ==> kf(#[trigger] rows[i]) != kf(#[trigger] rows[j])
}

/// The rows of `backup` whose key `live` lacks, in order.
pub open spec fn fresh_rows<R, K>(live: Seq<R>, backup: Seq<R>, kf: spec_fn(R) -> K) -> Seq<R>
    decreases backup.len(),
{
    if backup.len() == 0 {
        seq![]
    } else {
        let prev = fresh_rows(live, backup.drop_last(), kf);
        if has_key(live, kf, kf(backup.last())) {
            prev
        } else {
            prev.push(backup.last())
        }
    }
}

proof fn lemma_last_index<R, K>(rows: Seq<R>, kf: spec_fn(R) -> K, k: K)
    ensures
        -1 <= last_index(rows, kf, k) < rows.len(),
        last_index(rows, kf, k) >= 0 ==> kf(rows[last_index(rows, kf, k)]) == k,
        last_index(rows, kf, k) < 0 <==> forall|i: int| 0 <= i < rows.len() ==> kf(#[trigger] rows[i]) != k,
    decreases rows.len(),
{
    if rows.len() > 0 {
        lemma_last_index(rows.drop_last(), kf, k);
        if kf(rows.last()) != k {
            assert forall|i: int| 0 <= i < rows.len() - 1 implies #[trigger] rows[i] == rows.drop_last()[i] by {}
        }
    }
}

proof fn lemma_unique_index<R, K>(rows: Seq<R>, kf: spec_fn(R) -> K, i: int)
    requires
        keys_unique(rows, kf),
        0 <= i < rows.len(),
    ensures
        last_index(rows, kf, kf(rows[i])) == i,
{
    lemma_last_index(rows, kf, kf(rows[i]));
    let li = last_index(rows, kf, kf(rows[i]));
    if li != i {
        if li < i {
            assert(kf(rows[li]) != kf(rows[i]));
        } else {
            assert(kf(rows[i]) != kf(rows[li]));
        }
    }
}

proof fn lemma_has_key_push<R, K>(rows: Seq<R>, kf: spec_fn(R) -> K, a: R, k: K)
    ensures
        has_key(rows.push(a), kf, k) <==> has_key(rows, kf, k) || kf(a) == k,
{
    assert(rows.push(a).drop_last() =~= rows);
}

/// What the fresh rows are: rows of the backup (each the backup's only row
/// with its key), keys the live side lacks, every such key, no key twice.
proof fn lemma_fresh<R, K>(live: Seq<R>, backup: Seq<R>, kf: spec_fn(R) -> K)
    requires
        keys_unique(backup, kf),
    ensures
        forall|x: int|
            0 <= x < fresh_rows(live, backup, kf).len() ==> {
                let f = #[trigger] fresh_rows(live, backup, kf)[x];
                &&& 0 <= last_index(backup, kf, kf(f)) < backup.len()
                &&& backup[last_index(backup, kf, kf(f))] == f
                &&& !has_key(live, kf, kf(f))
            },
        forall|i: int|
            0 <= i < backup.len() && !has_key(live, kf, kf(#[trigger] backup[i])) ==> has_key(
                fresh_rows(live, backup, kf),
                kf,
                kf(backup[i]),
            ),
        keys_unique(fresh_rows(live, backup, kf), kf),
    decreases backup.len(),
{
    if backup.len() > 0 {
        let b0 = backup.drop_last();
        let b = backup.last();
        let n = backup.len() - 1;
        assert(keys_unique(b0, kf)) by {
            assert forall|i: int, j: int| 0 <= i < j < b0.len() implies kf(#[trigger] b0[i]) != kf(
                #[trigger] b0[j],
            ) by {
                assert(b0[i] == backup[i] && b0[j] == backup[j]);
            }
        }
        lemma_fresh(live, b0, kf);
        let prev = fresh_rows(live, b0, kf);
        let f = fresh_rows(live, backup, kf);
        // Keys of earlier backup rows differ from the last row's key.
        assert forall|i: int| 0 <= i < n implies kf(#[trigger] b0[i]) != kf(b) by {
            assert(b0[i] == backup[i]);
            assert(backup[n] == b);
        }
        assert forall|x: int| 0 <= x < f.len() implies {
            let g = #[trigger] f[x];
            &&& 0 <= last_index(backup, kf, kf(g)) < backup.len()
            &&& backup[last_index(backup, kf, kf(g))] == g
            &&& !has_key(live, kf, kf(g))
        } by {
            if x < prev.len() {
                let g = prev[x];
                assert(f[x] == g);
                let i0 = last_index(b0, kf, kf(g));
                assert(b0[i0] == g);
                assert(kf(b0[i0]) != kf(b));
                assert(last_index(backup, kf, kf(g)) == i0);
            } else {
                assert(f[x] == b);
                assert(last_index(backup, kf, kf(b)) == n);
            }
        }
        assert forall|i: int|
            0 <= i < backup.len() && !has_key(live, kf, kf(#[trigger] backup[i])) implies has_key(
            f,
            kf,
            kf(backup[i]),
        ) by {
            if i < n {
                assert(backup[i] == b0[i]);
                assert(has_key(prev, kf, kf(b0[i])));
                if !has_key(live, kf, kf(b)) {
                    lemma_has_key_push(prev, kf, b, kf(backup[i]));
                }
            } else {
                lemma_has_key_push(prev, kf, b, kf(b));
            }
        }
        if !has_key(live, kf, kf(b)) {
            assert forall|i: int, j: int| 0 <= i < j < f.len() implies kf(#[trigger] f[i]) != kf(#[trigger] f[j]) by {
                if j == prev.len() {
                    let i0 = last_index(b0, kf, kf(prev[i]));
                    assert(b0[i0] == prev[i]);
                    assert(f[i] == prev[i]);
                    assert(f[j] == b);
                } else {
                    assert(f[i] == prev[i] && f[j] == prev[j]);
                }
            }
        }
    }
}

/// When the live side has every key of the backup, nothing is fresh.
proof fn lemma_no_fresh<R, K>(live: Seq<R>, backup: Seq<R>, kf: spec_fn(R) -> K)
    requires
        forall|i: int| 0 <= i < backup.len() ==> has_key(live, kf, kf(#[trigger] backup[i])),
    ensures
        fresh_rows(live, backup, kf) == Seq::<R>::empty(),
    decreases backup.len(),
{
    if backup.len() > 0 {
        let b0 = backup.drop_last();
        assert forall|i: int| 0 <= i < b0.len() implies has_key(live, kf, kf(#[trigger] b0[i])) by {
            assert(b0[i] == backup[i]);
        }
        lemma_no_fresh(live, b0, kf);
        assert(has_key(live, kf, kf(backup[backup.len() - 1])));
    }
}

/// A merged table has every key of the live side and of the backup, and
/// still no key twice.
proof fn lemma_merged_keys<R, K>(live: Seq<R>, mapped: Seq<R>, backup: Seq<R>, kf: spec_fn(R) -> K)
    requires
        keys_unique(live, kf),
        keys_unique(backup, kf),
        mapped.len() == live.len(),
        forall|x: int| 0 <= x < live.len() ==> kf(#[trigger] mapped[x]) == kf(live[x]),
    ensures
        keys_unique(mapped + fresh_rows(live, backup, kf), kf),
        forall|i: int| 0 <= i < backup.len() ==> has_key(mapped + fresh_rows(live, backup, kf), kf, kf(#[trigger] backup[i])),
{
    let f = fresh_rows(live, backup, kf);
    let m = mapped + f;
    lemma_fresh(live, backup, kf);
    assert forall|i: int, j: int| 0 <= i < j < m.len() implies kf(#[trigger] m[i]) != kf(#[trigger] m[j]) by {
        if j < live.len() {
            assert(m[i] == mapped[i] && m[j] == mapped[j]);
            assert(kf(live[i]) != kf(live[j]));
        } else if i >= live.len() {
            assert(m[i] == f[i - live.len()] && m[j] == f[j - live.len()]);
        } else {
            assert(m[i] == mapped[i]);
            assert(m[j] == f[j - live.len()]);
            let g = f[j - live.len()];
            assert(!has_key(live, kf, kf(g)));
            lemma_last_index(live, kf, kf(g));
            assert(kf(live[i]) != kf(g));
        }
    }
    assert forall|i: int| 0 <= i < backup.len() implies has_key(m, kf, kf(#[trigger] backup[i])) by {
        let k = kf(backup[i]);
        lemma_last_index(m, kf, k);
        if has_key(live, kf, k) {
            lemma_last_index(live, kf, k);
            let x = last_index(live, kf, k);
            assert(m[x] == mapped[x]);
        } else {
            assert(has_key(f, kf, k));
            lemma_last_index(f, kf, k);
            let y = last_index(f, kf, k);
            assert(m[live.len() + y] == f[y]);
        }
    }
}

// ── Per-table rules ──────────────────────────────────────────────────────────

/// The key of a stamped row.
pub open spec fn stamped_key() -> spec_fn(StampedRow) -> (Seq<char>, Seq<char>) {
    |r: StampedRow| (r.key@, r.subkey@)
}

/// The row that stays for the live row `l`: the backup's row with the same
/// key when its stamp sorts after `l`'s, else `l`.
pub open spec fn newer_row(l: StampedRow, backup: Seq<StampedRow>) -> StampedRow {
    let i = last_index(backup, stamped_key(), (l.key@, l.subkey@));
    if i >= 0 && lex_lt(l.stamp@, backup[i].stamp@) {
        backup[i]
    } else {
        l
    }
}

/// A stamped table after the merge: each live row, the later of it and
/// the backup's row with its key; then the backup's rows with new keys.
pub open spec fn merge_stamped(live: Seq<StampedRow>, backup: Seq<StampedRow>) -> Seq<StampedRow> {
    live.map_values(|l: StampedRow| newer_row(l, backup)) + fresh_rows(live, backup, stamped_key())
}

/// The key of a flags row.
pub open spec fn flag_key() -> spec_fn(FlagRow) -> Seq<char> {
    |r: FlagRow| r.video_id@
}

/// The larger of two flag values.
pub open spec fn flag_max(a: i64, b: i64) -> i64 {
    if a >= b {
        a
    } else {
        b
    }
}

/// The live flags row `l` after the merge: each flag the larger of its
/// value and the backup's value for the video (0 when the backup has no
/// row for it).
pub open spec fn or_flags(l: FlagRow, backup: Seq<FlagRow>) -> FlagRow {
    let i = last_index(backup, flag_key(), l.video_id@);
    let (b1, b2, b3, b4) = if i >= 0 {
        (backup[i].bookmark, backup[i].favourite, backup[i].waiting, backup[i].archive)
    } else {
        (0i64, 0i64, 0i64, 0i64)
    };
    FlagRow {
        video_id: l.video_id,
        bookmark: flag_max(l.bookmark, b1),
        favourite: flag_max(l.favourite, b2),
        waiting: flag_max(l.waiting, b3),
        archive: flag_max(l.archive, b4),
        updated_at: l.updated_at,
    }
}

/// The flags table after the merge.
pub open spec fn merge_flags(live: Seq<FlagRow>, backup: Seq<FlagRow>) -> Seq<FlagRow> {
    live.map_values(|l: FlagRow| or_flags(l, backup)) + fresh_rows(live, backup, flag_key())
}

/// The name of a folder.
pub open spec fn folder_name() -> spec_fn(FolderRow) -> Seq<char> {
    |r: FolderRow| r.name@
}

/// The id of a folder.
pub open spec fn folder_id() -> spec_fn(FolderRow) -> i64 {
    |r: FolderRow| r.id
}

/// `rows` as new top-level folders numbered from `next_id` on.
pub open spec fn numbered(rows: Seq<FolderRow>, next_id: int) -> Seq<FolderRow> {
    Seq::new(
        rows.len(),
        |k: int|
            FolderRow {
                id: (next_id + k) as i64,
                name: rows[k].name,
                position: rows[k].position,
                created_at: rows[k].created_at,
                parent_id: None,
            },
    )
}

/// The folders table after the merge: the live folders, then the backup's
/// folders with new names, numbered from `next_id`.
pub open spec fn merge_folders(live: Seq<FolderRow>, backup: Seq<FolderRow>, next_id: int) -> Seq<FolderRow> {
    live + numbered(fresh_rows(live, backup, folder_name()), next_id)
}

/// The key of an assignment.
pub open spec fn assign_key() -> spec_fn(AssignRow) -> (Seq<char>, Seq<char>) {
    |r: AssignRow| (r.platform@, r.handle@)
}

/// The live folder for the backup assignment `b`: the folder of `folders`
/// named as `b`'s folder in `bfolders`, if both exist.
pub open spec fn assign_target(b: AssignRow, bfolders: Seq<FolderRow>, folders: Seq<FolderRow>) -> Option<i64> {
    let bi = last_index(bfolders, folder_id(), b.folder_id);
    if bi < 0 {
        None
    } else {
        let fi = last_index(folders, folder_name(), bfolders[bi].name@);
        if fi < 0 {
            None
        } else {
            Some(folders[fi].id)
        }
    }
}

/// The assignments the merge adds: each backup assignment of a channel the
/// live side has not assigned, whose folder resolves, pointed at the live
/// folder.
pub open spec fn fresh_assignments(
    live: Seq<AssignRow>,
    backup: Seq<AssignRow>,
    bfolders: Seq<FolderRow>,
    folders: Seq<FolderRow>,
) -> Seq<AssignRow>
    decreases backup.len(),
{
    if backup.len() == 0 {
        seq![]
    } else {
        let prev = fresh_assignments(live, backup.drop_last(), bfolders, folders);
        let b = backup.last();
        match assign_target(b, bfolders, folders) {
            Some(id) => if has_key(live, assign_key(), (b.platform@, b.handle@)) {
                prev
            } else {
                prev.push(AssignRow { platform: b.platform, handle: b.handle, folder_id: id })
            },
            None => prev,
        }
    }
}

/// The whole database after merging `backup` into `live`; new folders are
/// numbered from `next_id`.
pub open spec fn merge_spec(live: DbView, backup: DbView, next_id: int) -> DbView {
    let folders = merge_folders(live.folders, backup.folders, next_id);
    DbView {
        watched: merge_stamped(live.watched, backup.watched),
        positions: merge_stamped(live.positions, backup.positions),
        options: merge_stamped(live.options, backup.options),
        flags: merge_flags(live.flags, backup.flags),
        folders,
        assignments: live.assignments + fresh_assignments(
            live.assignments,
            backup.assignments,
            backup.folders,
            folders,
        ),
        notes: if backup.has_notes {
            merge_stamped(live.notes, backup.notes)
        } else {
            live.notes
        },
        has_notes: live.has_notes,
    }
}

/// Each table's primary key holds: no two rows share a key (folders: no
/// two share an id or a name).
pub open spec fn db_valid(db: DbView) -> bool {
    &&& keys_unique(db.watched, stamped_key())
    &&& keys_unique(db.positions, stamped_key())
    &&& keys_unique(db.options, stamped_key())
    &&& keys_unique(db.flags, flag_key())
    &&& keys_unique(db.folders, folder_name())
    &&& keys_unique(db.folders, folder_id())
    &&& keys_unique(db.assignments, assign_key())
    &&& keys_unique(db.notes, stamped_key())
}

/// The counts a merge reports: each table's rows after, less its rows
/// before.
pub open spec fn summary_spec(live: DbView, merged: DbView) -> (u64, u64, u64, u64, u64, u64, u64) {
    (
        (merged.watched.len() - live.watched.len()) as u64,
        (merged.positions.len() - live.positions.len()) as u64,
        (merged.options.len() - live.options.len()) as u64,
        (merged.flags.len() - live.flags.len()) as u64,
        (merged.folders.len() - live.folders.len()) as u64,
        (merged.assignments.len() - live.assignments.len()) as u64,
        (merged.notes.len() - live.notes.len()) as u64,
    )
}

/// The counts of a summary, in table order.
pub open spec fn summary_counts(s: RestoreSummary) -> (u64, u64, u64, u64, u64, u64, u64) {
    (s.watched_added, s.positions_added, s.options_added, s.flags_added, s.folders_added, s.assignments_added, s.notes_added)
}


// ── Lookups and copies ───────────────────────────────────────────────────────

/// `r` reports the last position `li` (or its absence, when negative).
pub open spec fn found_at(r: Option<usize>, li: int) -> bool {
    match r {
        Some(i) => i as int == li,
        None => li < 0,
    }
}

fn find_stamped(rows: &Vec<StampedRow>, key: &String, subkey: &String) -> (r: Option<usize>)
    ensures
        found_at(r, last_index(rows@, stamped_key(), (key@, subkey@))),
        r matches Some(i) ==> i < rows@.len(),
{
    let ghost k = (key@, subkey@);
    let mut found: Option<usize> = None;
    let mut i: usize = 0;
    while i < rows.len()
        invariant
            i <= rows@.len(),
            found matches Some(f) ==> f < i,
            k == (key@, subkey@),
            found_at(found, last_index(rows@.take(i as int), stamped_key(), k)),
        decreases rows.len() - i,
    {
        assert(rows@.take(i as int + 1).drop_last() =~= rows@.take(i as int));
        let same = rows[i].key == *key && rows[i].subkey == *subkey;
        assert(same == (stamped_key()(rows@.take(i as int + 1).last()) == k)) by {
            assert(rows@.take(i as int + 1).last() == rows@[i as int]);
        }
        if same {
            found = Some(i);
        }
        i += 1;
    }
    assert(rows@.take(rows@.len() as int) =~= rows@);
    found
}

fn find_flag(rows: &Vec<FlagRow>, id: &String) -> (r: Option<usize>)
    ensures
        found_at(r, last_index(rows@, flag_key(), id@)),
        r matches Some(i) ==> i < rows@.len(),
{
    let mut found: Option<usize> = None;
    let mut i: usize = 0;
    while i < rows.len()
        invariant
            i <= rows@.len(),
            found matches Some(f) ==> f < i,
            found_at(found, last_index(rows@.take(i as int), flag_key(), id@)),
        decreases rows.len() - i,
    {
        assert(rows@.take(i as int + 1).drop_last() =~= rows@.take(i as int));
        if rows[i].video_id == *id {
            found = Some(i);
        }
        i += 1;
    }
    assert(rows@.take(rows@.len() as int) =~= rows@);
    found
}

fn find_folder_name(rows: &Vec<FolderRow>, name: &String) -> (r: Option<usize>)
    ensures
        found_at(r, last_index(rows@, folder_name(), name@)),
        r matches Some(i) ==> i < rows@.len(),
{
    let mut found: Option<usize> = None;
    let mut i: usize = 0;
    while i < rows.len()
        invariant
            i <= rows@.len(),
            found matches Some(f) ==> f < i,
            found_at(found, last_index(rows@.take(i as int), folder_name(), name@)),
        decreases rows.len() - i,
    {
        assert(rows@.take(i as int + 1).drop_last() =~= rows@.take(i as int));
        if rows[i].name == *name {
            found = Some(i);
        }
        i += 1;
    }
    assert(rows@.take(rows@.len() as int) =~= rows@);
    found
}

fn find_folder_id(rows: &Vec<FolderRow>, id: i64) -> (r: Option<usize>)
    ensures
        found_at(r, last_index(rows@, folder_id(), id)),
        r matches Some(i) ==> i < rows@.len(),
{
    let mut found: Option<usize> = None;
    let mut i: usize = 0;
    while i < rows.len()
        invariant
            i <= rows@.len(),
            found matches Some(f) ==> f < i,
            found_at(found, last_index(rows@.take(i as int), folder_id(), id)),
        decreases rows.len() - i,
    {
        assert(rows@.take(i as int + 1).drop_last() =~= rows@.take(i as int));
        if rows[i].id == id {
            found = Some(i);
        }
        i += 1;
    }
    assert(rows@.take(rows@.len() as int) =~= rows@);
    found
}

fn find_assign(rows: &Vec<AssignRow>, platform: &String, handle: &String) -> (r: Option<usize>)
    ensures
        found_at(r, last_index(rows@, assign_key(), (platform@, handle@))),
        r matches Some(i) ==> i < rows@.len(),
{
    let ghost k = (platform@, handle@);
    let mut found: Option<usize> = None;
    let mut i: usize = 0;
    while i < rows.len()
        invariant
            i <= rows@.len(),
            found matches Some(f) ==> f < i,
            k == (platform@, handle@),
            found_at(found, last_index(rows@.take(i as int), assign_key(), k)),
        decreases rows.len() - i,
    {
        assert(rows@.take(i as int + 1).drop_last() =~= rows@.take(i as int));
        let same = rows[i].platform == *platform && rows[i].handle == *handle;
        assert(same == (assign_key()(rows@.take(i as int + 1).last()) == k)) by {
            assert(rows@.take(i as int + 1).last() == rows@[i as int]);
        }
        if same {
            found = Some(i);
        }
        i += 1;
    }
    assert(rows@.take(rows@.len() as int) =~= rows@);
    found
}

fn copy_stamped(r: &StampedRow) -> (c: StampedRow)
    ensures
        c == *r,
{
    StampedRow {
        key: r.key.clone(),
        subkey: r.subkey.clone(),
        text: r.text.clone(),
        bits: r.bits,
        stamp: r.stamp.clone(),
    }
}

fn copy_flags(r: &FlagRow) -> (c: FlagRow)
    ensures
        c == *r,
{
    FlagRow {
        video_id: r.video_id.clone(),
        bookmark: r.bookmark,
        favourite: r.favourite,
        waiting: r.waiting,
        archive: r.archive,
        updated_at: r.updated_at.clone(),
    }
}

fn copy_folder(r: &FolderRow) -> (c: FolderRow)
    ensures
        c == *r,
{
    FolderRow {
        id: r.id,
        name: r.name.clone(),
        position: r.position,
        created_at: r.created_at.clone(),
        parent_id: r.parent_id,
    }
}

fn copy_assign(r: &AssignRow) -> (c: AssignRow)
    ensures
        c == *r,
{
    AssignRow { platform: r.platform.clone(), handle: r.handle.clone(), folder_id: r.folder_id }
}

fn copy_all_stamped(rows: &Vec<StampedRow>) -> (c: Vec<StampedRow>)
    ensures
        c@ == rows@,
{
    let mut c: Vec<StampedRow> = Vec::new();
    let mut i: usize = 0;
    while i < rows.len()
        invariant
            i <= rows@.len(),
            c@ == rows@.take(i as int),
        decreases rows.len() - i,
    {
        c.push(copy_stamped(&rows[i]));
        i += 1;
        assert(c@ =~= rows@.take(i as int));
    }
    assert(rows@.take(rows@.len() as int) =~= rows@);
    c
}

proof fn lemma_fresh_len<R, K>(live: Seq<R>, backup: Seq<R>, kf: spec_fn(R) -> K)
    ensures
        fresh_rows(live, backup, kf).len() <= backup.len(),
    decreases backup.len(),
{
    if backup.len() > 0 {
        lemma_fresh_len(live, backup.drop_last(), kf);
    }
}

// ── Merging ──────────────────────────────────────────────────────────────────

/// Merge a stamped table: each live row becomes the later of it and the
/// backup's row with its key; backup rows with new keys are appended.
pub fn merge_stamped_rows(live: &Vec<StampedRow>, backup: &Vec<StampedRow>) -> (r: Vec<StampedRow>)
    ensures
        r@ == merge_stamped(live@, backup@),
{
    let ghost mapped = live@.map_values(|l: StampedRow| newer_row(l, backup@));
    let mut out: Vec<StampedRow> = Vec::new();
    let mut x: usize = 0;
    while x < live.len()
        invariant
            x <= live@.len(),
            mapped == live@.map_values(|l: StampedRow| newer_row(l, backup@)),
            out@ == mapped.take(x as int),
        decreases live.len() - x,
    {
        let l = &live[x];
        let keep = match find_stamped(backup, &l.key, &l.subkey) {
            Some(i) => {
                let newer = lex_less(&chars_of(l.stamp.as_str()), &chars_of(backup[i].stamp.as_str()));
                if newer {
                    copy_stamped(&backup[i])
                } else {
                    copy_stamped(l)
                }
            },
            None => copy_stamped(l),
        };
        out.push(keep);
        x += 1;
        assert(out@ =~= mapped.take(x as int));
    }
    assert(mapped.take(live@.len() as int) =~= mapped);
    let mut i: usize = 0;
    while i < backup.len()
        invariant
            i <= backup@.len(),
            out@ == mapped + fresh_rows(live@, backup@.take(i as int), stamped_key()),
        decreases backup.len() - i,
    {
        let b = &backup[i];
        let ghost prev = fresh_rows(live@, backup@.take(i as int), stamped_key());
        assert(backup@.take(i as int + 1).drop_last() =~= backup@.take(i as int));
        assert(backup@.take(i as int + 1).last() == backup@[i as int]);
        if find_stamped(live, &b.key, &b.subkey).is_none() {
            out.push(copy_stamped(b));
            assert(out@ =~= mapped + prev.push(backup@[i as int]));
        }
        i += 1;
    }
    assert(backup@.take(backup@.len() as int) =~= backup@);
    out
}

/// Merge the flags table: each flag the larger of the two sides; new
/// videos are appended.
pub fn merge_flag_rows(live: &Vec<FlagRow>, backup: &Vec<FlagRow>) -> (r: Vec<FlagRow>)
    ensures
        r@ == merge_flags(live@, backup@),
{
    let ghost mapped = live@.map_values(|l: FlagRow| or_flags(l, backup@));
    let mut out: Vec<FlagRow> = Vec::new();
    let mut x: usize = 0;
    while x < live.len()
        invariant
            x <= live@.len(),
            mapped == live@.map_values(|l: FlagRow| or_flags(l, backup@)),
            out@ == mapped.take(x as int),
        decreases live.len() - x,
    {
        let l = &live[x];
        let (b1, b2, b3, b4) = match find_flag(backup, &l.video_id) {
            Some(i) => (backup[i].bookmark, backup[i].favourite, backup[i].waiting, backup[i].archive),
            None => (0i64, 0i64, 0i64, 0i64),
        };
        let row = FlagRow {
            video_id: l.video_id.clone(),
            bookmark: if l.bookmark >= b1 { l.bookmark } else { b1 },
            favourite: if l.favourite >= b2 { l.favourite } else { b2 },
            waiting: if l.waiting >= b3 { l.waiting } else { b3 },
            archive: if l.archive >= b4 { l.archive } else { b4 },
            updated_at: l.updated_at.clone(),
        };
        assert(row == or_flags(live@[x as int], backup@));
        out.push(row);
        x += 1;
        assert(out@ =~= mapped.take(x as int));
    }
    assert(mapped.take(live@.len() as int) =~= mapped);
    let mut i: usize = 0;
    while i < backup.len()
        invariant
            i <= backup@.len(),
            out@ == mapped + fresh_rows(live@, backup@.take(i as int), flag_key()),
        decreases backup.len() - i,
    {
        let b = &backup[i];
        let ghost prev = fresh_rows(live@, backup@.take(i as int), flag_key());
        assert(backup@.take(i as int + 1).drop_last() =~= backup@.take(i as int));
        assert(backup@.take(i as int + 1).last() == backup@[i as int]);
        if find_flag(live, &b.video_id).is_none() {
            out.push(copy_flags(b));
            assert(out@ =~= mapped + prev.push(backup@[i as int]));
        }
        i += 1;
    }
    assert(backup@.take(backup@.len() as int) =~= backup@);
    out
}

/// Merge the folders table: backup folders with new names are appended as
/// top-level folders numbered from `next_id`.
pub fn merge_folder_rows(live: &Vec<FolderRow>, backup: &Vec<FolderRow>, next_id: i64) -> (r: Vec<FolderRow>)
    requires
        0 <= next_id,
        next_id + backup@.len() <= i64::MAX,
    ensures
        r@ == merge_folders(live@, backup@, next_id as int),
{
    let mut out: Vec<FolderRow> = Vec::new();
    let mut x: usize = 0;
    while x < live.len()
        invariant
            x <= live@.len(),
            out@ == live@.take(x as int),
        decreases live.len() - x,
    {
        out.push(copy_folder(&live[x]));
        x += 1;
        assert(out@ =~= live@.take(x as int));
    }
    assert(live@.take(live@.len() as int) =~= live@);
    let mut count: i64 = 0;
    let mut i: usize = 0;
    while i < backup.len()
        invariant
            i <= backup@.len(),
            0 <= next_id,
            next_id + backup@.len() <= i64::MAX,
            count == fresh_rows(live@, backup@.take(i as int), folder_name()).len(),
            out@ == live@ + numbered(fresh_rows(live@, backup@.take(i as int), folder_name()), next_id as int),
        decreases backup.len() - i,
    {
        let b = &backup[i];
        let ghost prev = fresh_rows(live@, backup@.take(i as int), folder_name());
        proof {
            lemma_fresh_len(live@, backup@.take(i as int), folder_name());
        }
        assert(backup@.take(i as int + 1).drop_last() =~= backup@.take(i as int));
        assert(backup@.take(i as int + 1).last() == backup@[i as int]);
        if find_folder_name(live, &b.name).is_none() {
            let row = FolderRow {
                id: next_id + count,
                name: b.name.clone(),
                position: b.position,
                created_at: b.created_at.clone(),
                parent_id: None,
            };
            out.push(row);
            count += 1;
            assert(numbered(prev.push(backup@[i as int]), next_id as int) =~= numbered(prev, next_id as int).push(
                row,
            ));
            assert(out@ =~= live@ + numbered(prev.push(backup@[i as int]), next_id as int));
        }
        i += 1;
    }
    assert(backup@.take(backup@.len() as int) =~= backup@);
    out
}

/// Merge the assignments table: each backup assignment of a channel the
/// live side has not assigned goes to the live folder (in `folders`) named
/// as its backup folder (in `bfolders`).
pub fn merge_assign_rows(
    live: &Vec<AssignRow>,
    backup: &Vec<AssignRow>,
    bfolders: &Vec<FolderRow>,
    folders: &Vec<FolderRow>,
) -> (r: Vec<AssignRow>)
    ensures
        r@ == live@ + fresh_assignments(live@, backup@, bfolders@, folders@),
{
    let mut out: Vec<AssignRow> = Vec::new();
    let mut x: usize = 0;
    while x < live.len()
        invariant
            x <= live@.len(),
            out@ == live@.take(x as int),
        decreases live.len() - x,
    {
        out.push(copy_assign(&live[x]));
        x += 1;
        assert(out@ =~= live@.take(x as int));
    }
    assert(live@.take(live@.len() as int) =~= live@);
    let mut i: usize = 0;
    while i < backup.len()
        invariant
            i <= backup@.len(),
            out@ == live@ + fresh_assignments(live@, backup@.take(i as int), bfolders@, folders@),
        decreases backup.len() - i,
    {
        let b = &backup[i];
        let ghost prev = fresh_assignments(live@, backup@.take(i as int), bfolders@, folders@);
        assert(backup@.take(i as int + 1).drop_last() =~= backup@.take(i as int));
        assert(backup@.take(i as int + 1).last() == backup@[i as int]);
        if let Some(bi) = find_folder_id(bfolders, b.folder_id) {
            if let Some(fi) = find_folder_name(folders, &bfolders[bi].name) {
                if find_assign(live, &b.platform, &b.handle).is_none() {
                    let row = AssignRow {
                        platform: b.platform.clone(),
                        handle: b.handle.clone(),
                        folder_id: folders[fi].id,
                    };
                    out.push(row);
                    assert(out@ =~= live@ + prev.push(row));
                }
            }
        }
        i += 1;
    }
    assert(backup@.take(backup@.len() as int) =~= backup@);
    out
}

/// Merge `backup` into `live`, table by table, as [`merge_spec`] says;
/// new folders are numbered from `next_folder_id`. Also reports how many
/// rows each table gained.
pub fn merge_backup(live: &DbRows, backup: &DbRows, next_folder_id: i64) -> (r: (DbRows, RestoreSummary))
    requires
        0 <= next_folder_id,
        next_folder_id + backup.folders@.len() <= i64::MAX,
    ensures
        r.0@ == merge_spec(live@, backup@, next_folder_id as int),
        summary_counts(r.1) == summary_spec(live@, r.0@),
{
    let watched = merge_stamped_rows(&live.watched, &backup.watched);
    let positions = merge_stamped_rows(&live.positions, &backup.positions);
    let options = merge_stamped_rows(&live.options, &backup.options);
    let flags = merge_flag_rows(&live.flags, &backup.flags);
    let folders = merge_folder_rows(&live.folders, &backup.folders, next_folder_id);
    let assignments = merge_assign_rows(&live.assignments, &backup.assignments, &backup.folders, &folders);
    let notes = if backup.has_notes {
        merge_stamped_rows(&live.notes, &backup.notes)
    } else {
        copy_all_stamped(&live.notes)
    };
    let summary = RestoreSummary {
        watched_added: (watched.len() - live.watched.len()) as u64,
        positions_added: (positions.len() - live.positions.len()) as u64,
        options_added: (options.len() - live.options.len()) as u64,
        flags_added: (flags.len() - live.flags.len()) as u64,
        folders_added: (folders.len() - live.folders.len()) as u64,
        assignments_added: (assignments.len() - live.assignments.len()) as u64,
        notes_added: (notes.len() - live.notes.len()) as u64,
    };
    let merged = DbRows {
        watched,
        positions,
        options,
        flags,
        folders,
        assignments,
        notes,
        has_notes: live.has_notes,
    };
    assert(merged@ =~= merge_spec(live@, backup@, next_folder_id as int));
    (merged, summary)
}


// ── The schema check ─────────────────────────────────────────────────────────

/// The tables a backup must have, in the order they are checked.
pub open spec fn required_tables() -> Seq<Seq<char>> {
    seq![
        "watched"@,
        "positions"@,
        "channel_options"@,
        "video_flags"@,
        "folders"@,
        "channel_assignments"@,
    ]
}

/// `present` names the table `t`.
pub open spec fn table_present(present: Seq<String>, t: Seq<char>) -> bool {
    exists|j: int| 0 <= j < present.len() && (#[trigger] present[j])@ == t
}

/// The first required table that `present` (the tables of a backup) lacks,
/// or `None` when it has them all. A backup that lacks one is refused.
pub fn missing_table(present: &Vec<String>) -> (r: Option<String>)
    ensures
        r is None <==> forall|k: int| 0 <= k < 6 ==> table_present(present@, #[trigger] required_tables()[k]),
        r matches Some(t) ==> exists|k: int|
            0 <= k < 6 && t@ == #[trigger] required_tables()[k] && !table_present(present@, required_tables()[k])
                && forall|k2: int| 0 <= k2 < k ==> table_present(present@, #[trigger] required_tables()[k2]),
{
    let required: Vec<&str> = vec![
        "watched",
        "positions",
        "channel_options",
        "video_flags",
        "folders",
        "channel_assignments",
    ];
    assert(required@.len() == 6);
    assert forall|k: int| 0 <= k < 6 implies (#[trigger] required@[k])@ == required_tables()[k] by {}
    let mut k: usize = 0;
    while k < required.len()
        invariant
            k <= 6,
            required@.len() == 6,
            forall|k: int| 0 <= k < 6 ==> (#[trigger] required@[k])@ == required_tables()[k],
            forall|k2: int| 0 <= k2 < k ==> table_present(present@, #[trigger] required_tables()[k2]),
        decreases 6 - k,
    {
        let want = chars_of(required[k]);
        let mut found = false;
        let mut j: usize = 0;
        while j < present.len()
            invariant
                j <= present@.len(),
                want@ == required_tables()[k as int],
                found <==> exists|j2: int| 0 <= j2 < j && (#[trigger] present@[j2])@ == want@,
            decreases present.len() - j,
        {
            let have = chars_of(present[j].as_str());
            if eq_vec(&have, &want) {
                found = true;
            }
            j += 1;
        }
        if !found {
            let name = String::from_str(required[k]);
            assert(!table_present(present@, required_tables()[k as int]));
            return Some(name);
        }
        k += 1;
    }
    None
}

/// Why a backup lacking the table `table` is refused.
pub open spec fn refusal_text(table: Seq<char>) -> Seq<char> {
    "backup is missing required table `"@ + table
        + "` — not a yt-offline snapshot, or from an incompatible version"@
}

/// The refusal of a backup whose tables are `present`: `None` when it has
/// every required table, else the message naming the first it lacks.
pub fn backup_refusal(present: &Vec<String>) -> (r: Option<String>)
    ensures
        r is None <==> forall|k: int| 0 <= k < 6 ==> table_present(present@, #[trigger] required_tables()[k]),
        r matches Some(m) ==> exists|k: int|
            0 <= k < 6 && m@ == refusal_text(#[trigger] required_tables()[k]) && !table_present(
                present@,
                required_tables()[k],
            ) && forall|k2: int| 0 <= k2 < k ==> table_present(present@, #[trigger] required_tables()[k2]),
{
    match missing_table(present) {
        None => None,
        Some(t) => {
            let mut msg: Vec<char> = Vec::new();
            extend_str(&mut msg, "backup is missing required table `");
            extend_str(&mut msg, t.as_str());
            extend_str(&mut msg, "` — not a yt-offline snapshot, or from an incompatible version");
            Some(string_of(&msg))
        },
    }
}

/// `m` is the larger of `a` and `b`: at least each, and one of them.
pub open spec fn is_larger_of(m: i64, a: i64, b: i64) -> bool {
    m >= a && m >= b && (m == a || m == b)
}

/// Law: restoring never clears a flag and never loses one the backup
/// has. Each live video keeps its row (same id and stamp) with every flag
/// the larger of its live value and the backup's value for that video (0
/// when the backup has no row for it); videos only the backup has are
/// added with the backup's flags.
pub proof fn lemma_flags_combine(live: Seq<FlagRow>, backup: Seq<FlagRow>)
    requires
        keys_unique(backup, flag_key()),
    ensures
        merge_flags(live, backup).len() >= live.len(),
        forall|x: int| 0 <= x < live.len() ==> {
            let m = #[trigger] merge_flags(live, backup)[x];
            let l = live[x];
            &&& m.video_id == l.video_id
            &&& m.updated_at == l.updated_at
            &&& (forall|j: int|
                0 <= j < backup.len() && (#[trigger] backup[j]).video_id@ == l.video_id@ ==> {
                    &&& is_larger_of(m.bookmark, l.bookmark, backup[j].bookmark)
                    &&& is_larger_of(m.favourite, l.favourite, backup[j].favourite)
                    &&& is_larger_of(m.waiting, l.waiting, backup[j].waiting)
                    &&& is_larger_of(m.archive, l.archive, backup[j].archive)
                })
            &&& ((forall|j: int| 0 <= j < backup.len() ==> (#[trigger] backup[j]).video_id@ != l.video_id@) ==> {
                &&& is_larger_of(m.bookmark, l.bookmark, 0)
                &&& is_larger_of(m.favourite, l.favourite, 0)
                &&& is_larger_of(m.waiting, l.waiting, 0)
                &&& is_larger_of(m.archive, l.archive, 0)
            })
        },
        forall|y: int| live.len() <= y < merge_flags(live, backup).len() ==> exists|j: int|
            0 <= j < backup.len() && #[trigger] merge_flags(live, backup)[y] == backup[j] && !has_key(
                live,
                flag_key(),
                backup[j].video_id@,
            ),
{
    let kf = flag_key();
    let m = merge_flags(live, backup);
    let f = fresh_rows(live, backup, kf);
    lemma_fresh(live, backup, kf);
    assert forall|x: int| 0 <= x < live.len() implies {
        let mm = #[trigger] m[x];
        let l = live[x];
        &&& mm.video_id == l.video_id
        &&& mm.updated_at == l.updated_at
        &&& (forall|j: int|
            0 <= j < backup.len() && (#[trigger] backup[j]).video_id@ == l.video_id@ ==> {
                &&& is_larger_of(mm.bookmark, l.bookmark, backup[j].bookmark)
                &&& is_larger_of(mm.favourite, l.favourite, backup[j].favourite)
                &&& is_larger_of(mm.waiting, l.waiting, backup[j].waiting)
                &&& is_larger_of(mm.archive, l.archive, backup[j].archive)
            })
        &&& ((forall|j: int| 0 <= j < backup.len() ==> (#[trigger] backup[j]).video_id@ != l.video_id@) ==> {
            &&& is_larger_of(mm.bookmark, l.bookmark, 0)
            &&& is_larger_of(mm.favourite, l.favourite, 0)
            &&& is_larger_of(mm.waiting, l.waiting, 0)
            &&& is_larger_of(mm.archive, l.archive, 0)
        })
    } by {
        let l = live[x];
        assert(m[x] == or_flags(l, backup));
        lemma_last_index(backup, kf, l.video_id@);
        assert forall|j: int| 0 <= j < backup.len() && (#[trigger] backup[j]).video_id@ == l.video_id@ implies {
            &&& is_larger_of(m[x].bookmark, l.bookmark, backup[j].bookmark)
            &&& is_larger_of(m[x].favourite, l.favourite, backup[j].favourite)
            &&& is_larger_of(m[x].waiting, l.waiting, backup[j].waiting)
            &&& is_larger_of(m[x].archive, l.archive, backup[j].archive)
        } by {
            lemma_unique_index(backup, kf, j);
        }
    }
    assert forall|y: int| live.len() <= y < m.len() implies exists|j: int|
        0 <= j < backup.len() && #[trigger] m[y] == backup[j] && !has_key(live, kf, backup[j].video_id@) by {
        let g = f[y - live.len()];
        assert(m[y] == g);
        let j = last_index(backup, kf, kf(g));
        assert(backup[j] == g);
    }
}

/// Law: for a key on both sides the merged row is one of the two rows, its
/// stamp is not earlier than either side's, and on equal stamps the live
/// row stays; live rows whose key the backup lacks are kept as they are,
/// and backup rows with new keys are added.
pub proof fn lemma_later_stamp_wins(live: Seq<StampedRow>, backup: Seq<StampedRow>)
    requires
        keys_unique(backup, stamped_key()),
    ensures
        merge_stamped(live, backup).len() >= live.len(),
        forall|x: int, j: int|
            0 <= x < live.len() && 0 <= j < backup.len() && stamped_key()(backup[j]) == stamped_key()(live[x]) ==> {
                let m = #[trigger] merge_stamped(live, backup)[x];
                let l = live[x];
                let b = #[trigger] backup[j];
                &&& (m == l || m == b)
                &&& !lex_lt(m.stamp@, l.stamp@)
                &&& !lex_lt(m.stamp@, b.stamp@)
                &&& (l.stamp@ == b.stamp@ ==> m == l)
            },
        forall|x: int|
            0 <= x < live.len() && !has_key(backup, stamped_key(), stamped_key()(live[x])) ==> #[trigger] merge_stamped(
                live,
                backup,
            )[x] == live[x],
        forall|y: int| live.len() <= y < merge_stamped(live, backup).len() ==> exists|j: int|
            0 <= j < backup.len() && #[trigger] merge_stamped(live, backup)[y] == backup[j] && !has_key(
                live,
                stamped_key(),
                stamped_key()(backup[j]),
            ),
{
    let kf = stamped_key();
    let m = merge_stamped(live, backup);
    let f = fresh_rows(live, backup, kf);
    lemma_fresh(live, backup, kf);
    assert forall|x: int, j: int|
        0 <= x < live.len() && 0 <= j < backup.len() && kf(backup[j]) == kf(live[x]) implies {
        let mm = #[trigger] m[x];
        let l = live[x];
        let b = #[trigger] backup[j];
        &&& (mm == l || mm == b)
        &&& !lex_lt(mm.stamp@, l.stamp@)
        &&& !lex_lt(mm.stamp@, b.stamp@)
        &&& (l.stamp@ == b.stamp@ ==> mm == l)
    } by {
        let l = live[x];
        let b = backup[j];
        assert(m[x] == newer_row(l, backup));
        lemma_unique_index(backup, kf, j);
        lemma_lex_asym(l.stamp@, b.stamp@);
        lemma_lex_asym(b.stamp@, l.stamp@);
        if !lex_lt(l.stamp@, b.stamp@) && l.stamp@ != b.stamp@ {
            crate::text::lemma_lex_total(l.stamp@, b.stamp@);
        }
    }
    assert forall|x: int| 0 <= x < live.len() && !has_key(backup, kf, kf(live[x])) implies #[trigger] m[x]
        == live[x] by {
        assert(m[x] == newer_row(live[x], backup));
    }
    assert forall|y: int| live.len() <= y < m.len() implies exists|j: int|
        0 <= j < backup.len() && #[trigger] m[y] == backup[j] && !has_key(live, kf, kf(backup[j])) by {
        let g = f[y - live.len()];
        assert(m[y] == g);
        let j = last_index(backup, kf, kf(g));
        assert(backup[j] == g);
    }
}

// ── Restoring twice ──────────────────────────────────────────────────────────

proof fn lemma_has_key_concat<R, K>(a: Seq<R>, b: Seq<R>, kf: spec_fn(R) -> K, k: K)
    ensures
        has_key(a + b, kf, k) <==> has_key(a, kf, k) || has_key(b, kf, k),
{
    lemma_last_index(a + b, kf, k);
    lemma_last_index(a, kf, k);
    lemma_last_index(b, kf, k);
    if has_key(a, kf, k) {
        let x = last_index(a, kf, k);
        assert((a + b)[x] == a[x]);
    }
    if has_key(b, kf, k) {
        let y = last_index(b, kf, k);
        assert((a + b)[a.len() + y] == b[y]);
    }
    if has_key(a + b, kf, k) {
        let z = last_index(a + b, kf, k);
        if z < a.len() {
            assert((a + b)[z] == a[z]);
        } else {
            assert((a + b)[z] == b[z - a.len()]);
        }
    }
}

proof fn lemma_stamped_twice(live: Seq<StampedRow>, backup: Seq<StampedRow>)
    requires
        keys_unique(live, stamped_key()),
        keys_unique(backup, stamped_key()),
    ensures
        merge_stamped(merge_stamped(live, backup), backup) == merge_stamped(live, backup),
{
    let kf = stamped_key();
    let mapped = live.map_values(|l: StampedRow| newer_row(l, backup));
    let f = fresh_rows(live, backup, kf);
    let m = merge_stamped(live, backup);
    assert forall|x: int| 0 <= x < live.len() implies kf(#[trigger] mapped[x]) == kf(live[x]) by {
        lemma_last_index(backup, kf, kf(live[x]));
    }
    lemma_merged_keys(live, mapped, backup, kf);
    lemma_no_fresh(m, backup, kf);
    lemma_fresh(live, backup, kf);
    assert forall|x: int| 0 <= x < m.len() implies #[trigger] newer_row(m[x], backup) == m[x] by {
        lemma_lex_asym(m[x].stamp@, m[x].stamp@);
        if x < live.len() {
            lemma_last_index(backup, kf, kf(live[x]));
            assert(m[x] == mapped[x]);
        } else {
            let g = f[x - live.len()];
            assert(m[x] == g);
        }
    }
    assert(m.map_values(|l: StampedRow| newer_row(l, backup)) =~= m);
    assert(merge_stamped(m, backup) =~= m);
}

proof fn lemma_flags_twice(live: Seq<FlagRow>, backup: Seq<FlagRow>)
    requires
        keys_unique(live, flag_key()),
        keys_unique(backup, flag_key()),
    ensures
        merge_flags(merge_flags(live, backup), backup) == merge_flags(live, backup),
{
    let kf = flag_key();
    let mapped = live.map_values(|l: FlagRow| or_flags(l, backup));
    let f = fresh_rows(live, backup, kf);
    let m = merge_flags(live, backup);
    assert forall|x: int| 0 <= x < live.len() implies kf(#[trigger] mapped[x]) == kf(live[x]) by {}
    lemma_merged_keys(live, mapped, backup, kf);
    lemma_no_fresh(m, backup, kf);
    lemma_fresh(live, backup, kf);
    assert forall|x: int| 0 <= x < m.len() implies #[trigger] or_flags(m[x], backup) == m[x] by {
        if x < live.len() {
            assert(m[x] == mapped[x]);
        } else {
            let g = f[x - live.len()];
            assert(m[x] == g);
        }
    }
    assert(m.map_values(|l: FlagRow| or_flags(l, backup)) =~= m);
    assert(merge_flags(m, backup) =~= m);
}

proof fn lemma_folders_twice(live: Seq<FolderRow>, backup: Seq<FolderRow>, next_id: int, again_id: int)
    ensures
        merge_folders(merge_folders(live, backup, next_id), backup, again_id) == merge_folders(live, backup, next_id),
{
    let kf = folder_name();
    let f = fresh_rows(live, backup, kf);
    let nf = numbered(f, next_id);
    let m = merge_folders(live, backup, next_id);
    assert forall|i: int| 0 <= i < backup.len() implies has_key(m, kf, kf(#[trigger] backup[i])) by {
        let k = kf(backup[i]);
        lemma_has_key_concat(live, nf, kf, k);
        if !has_key(live, kf, k) {
            assert(has_key(f, kf, k)) by {
                lemma_fresh_covers(live, backup, kf, i);
            }
            lemma_last_index(f, kf, k);
            let y = last_index(f, kf, k);
            assert(kf(nf[y]) == kf(f[y]));
            lemma_last_index(nf, kf, k);
        }
    }
    lemma_no_fresh(m, backup, kf);
    assert(numbered(Seq::<FolderRow>::empty(), again_id) =~= Seq::<FolderRow>::empty());
    assert(merge_folders(m, backup, again_id) =~= m);
}

/// Every backup row whose key the live side lacks is among the fresh rows.
proof fn lemma_fresh_covers<R, K>(live: Seq<R>, backup: Seq<R>, kf: spec_fn(R) -> K, i: int)
    requires
        0 <= i < backup.len(),
        !has_key(live, kf, kf(backup[i])),
    ensures
        has_key(fresh_rows(live, backup, kf), kf, kf(backup[i])),
    decreases backup.len(),
{
    let b0 = backup.drop_last();
    let prev = fresh_rows(live, b0, kf);
    if i < backup.len() - 1 {
        assert(b0[i] == backup[i]);
        lemma_fresh_covers(live, b0, kf, i);
        if !has_key(live, kf, kf(backup.last())) {
            lemma_has_key_push(prev, kf, backup.last(), kf(backup[i]));
        }
    } else {
        lemma_has_key_push(prev, kf, backup.last(), kf(backup[i]));
    }
}

proof fn lemma_assign_covered(
    live: Seq<AssignRow>,
    backup: Seq<AssignRow>,
    bfolders: Seq<FolderRow>,
    folders: Seq<FolderRow>,
    i: int,
)
    requires
        0 <= i < backup.len(),
        assign_target(backup[i], bfolders, folders) is Some,
    ensures
        has_key(
            live + fresh_assignments(live, backup, bfolders, folders),
            assign_key(),
            (backup[i].platform@, backup[i].handle@),
        ),
    decreases backup.len(),
{
    let kf = assign_key();
    let k = (backup[i].platform@, backup[i].handle@);
    let b0 = backup.drop_last();
    let prev = fresh_assignments(live, b0, bfolders, folders);
    let cur = fresh_assignments(live, backup, bfolders, folders);
    lemma_has_key_concat(live, cur, kf, k);
    lemma_has_key_concat(live, prev, kf, k);
    if i < backup.len() - 1 {
        assert(b0[i] == backup[i]);
        lemma_assign_covered(live, b0, bfolders, folders, i);
        if cur != prev {
            let b = backup.last();
            let row = AssignRow { platform: b.platform, handle: b.handle, folder_id: assign_target(b, bfolders, folders)->0 };
            assert(cur == prev.push(row));
            lemma_has_key_push(prev, kf, row, k);
        }
    } else {
        let b = backup.last();
        if !has_key(live, kf, k) {
            let row = AssignRow { platform: b.platform, handle: b.handle, folder_id: assign_target(b, bfolders, folders)->0 };
            assert(cur == prev.push(row));
            lemma_has_key_push(prev, kf, row, k);
        }
    }
}

proof fn lemma_no_fresh_assign(
    live: Seq<AssignRow>,
    backup: Seq<AssignRow>,
    bfolders: Seq<FolderRow>,
    folders: Seq<FolderRow>,
)
    requires
        forall|i: int|
            0 <= i < backup.len() && (#[trigger] assign_target(backup[i], bfolders, folders)) is Some ==> has_key(
                live,
                assign_key(),
                (backup[i].platform@, backup[i].handle@),
            ),
    ensures
        fresh_assignments(live, backup, bfolders, folders) == Seq::<AssignRow>::empty(),
    decreases backup.len(),
{
    if backup.len() > 0 {
        let b0 = backup.drop_last();
        assert forall|i: int|
            0 <= i < b0.len() && (#[trigger] assign_target(b0[i], bfolders, folders)) is Some implies has_key(
            live,
            assign_key(),
            (b0[i].platform@, b0[i].handle@),
        ) by {
            assert(b0[i] == backup[i]);
        }
        lemma_no_fresh_assign(live, b0, bfolders, folders);
        let n = backup.len() - 1;
        assert(backup[n] == backup.last());
        if assign_target(backup[n], bfolders, folders) is Some {
            assert(has_key(live, assign_key(), (backup[n].platform@, backup[n].handle@)));
        }
    }
}

/// Restoring the same backup a second time changes nothing: every table
/// is as the first restore left it, and the second restore adds no row to
/// any table (whatever id it would give new folders).
pub proof fn lemma_restore_twice(live: DbView, backup: DbView, next_id: int, again_id: int)
    requires
        db_valid(live),
        db_valid(backup),
    ensures
        merge_spec(merge_spec(live, backup, next_id), backup, again_id) == merge_spec(live, backup, next_id),
        summary_spec(merge_spec(live, backup, next_id), merge_spec(merge_spec(live, backup, next_id), backup, again_id))
            == (0u64, 0u64, 0u64, 0u64, 0u64, 0u64, 0u64),
{
    let m = merge_spec(live, backup, next_id);
    lemma_stamped_twice(live.watched, backup.watched);
    lemma_stamped_twice(live.positions, backup.positions);
    lemma_stamped_twice(live.options, backup.options);
    lemma_flags_twice(live.flags, backup.flags);
    lemma_folders_twice(live.folders, backup.folders, next_id, again_id);
    if backup.has_notes {
        lemma_stamped_twice(live.notes, backup.notes);
    }
    assert forall|i: int|
        0 <= i < backup.assignments.len() && (#[trigger] assign_target(
            backup.assignments[i],
            backup.folders,
            m.folders,
        )) is Some implies has_key(
        m.assignments,
        assign_key(),
        (backup.assignments[i].platform@, backup.assignments[i].handle@),
    ) by {
        lemma_assign_covered(live.assignments, backup.assignments, backup.folders, m.folders, i);
    }
    lemma_no_fresh_assign(m.assignments, backup.assignments, backup.folders, m.folders);
    let m2 = merge_spec(m, backup, again_id);
    assert(m2.assignments =~= m.assignments);
    assert(m2 =~= m);
}

} // verus!
