//! The records of the library's database (watched state, positions,
//! settings, folders, notes, full-text search) and the decisions taken
//! around it: turning free-form search input into a safe FTS5 `MATCH`
//! expression, the allow-list of per-video flags, whether a folder may
//! move under a new parent, and what keeps the search index in step with
//! the videos on disk. The database itself (SQLite and its queries) is
//! not part of this crate; merging a backup into it is in
//! [`crate::restore`].

use vstd::prelude::*;
use std::collections::HashSet;
use crate::text::{
    chars_of, eq_lit, extend, extend_str, join, join_vec, replace, replace_vec, string_of, trim, trim_vec,
    views, words, words_vec,
};

verus! {

/// Persisted folder row from the `folders` table.
#[derive(Clone, Debug)]
pub struct FolderRecord {
    pub id: i64,
    pub name: String,
    pub position: i64,
    /// Parent folder id for nesting; `None` = top level.
    pub parent_id: Option<i64>,
}

/// One video's searchable fields, fed to the search index. The description
/// sidecar is read only when the video is new or changed.
#[derive(Clone, Debug)]
pub struct SearchEntry {
    pub video_id: String,
    pub mtime_unix: i64,
    pub platform: String,
    pub channel: String,
    pub title: String,
    pub description_path: Option<String>,
}

/// A full-text search result row.
#[derive(Clone, Debug)]
pub struct SearchHit {
    pub video_id: String,
    pub platform: String,
    pub channel: String,
    pub title: String,
    /// Description excerpt with the matched terms wrapped in `[`…`]`.
    pub snippet: String,
}

/// A per-video flag the library keeps (one column of `video_flags`).
#[derive(Clone, Copy, Debug, PartialEq, Eq, Structural)]
pub enum VideoFlag {
    Bookmark,
    Favourite,
    Waiting,
    Archive,
}

/// The column (and API) name of each flag.
pub open spec fn flag_name(f: VideoFlag) -> Seq<char> {
    match f {
        VideoFlag::Bookmark => "bookmark"@,
        VideoFlag::Favourite => "favourite"@,
        VideoFlag::Waiting => "waiting"@,
        VideoFlag::Archive => "archive"@,
    }
}

/// The flag a name stands for; other names are refused.
pub open spec fn flag_of_name(name: Seq<char>) -> Option<VideoFlag> {
    if name == "bookmark"@ {
        Some(VideoFlag::Bookmark)
    } else if name == "favourite"@ {
        Some(VideoFlag::Favourite)
    } else if name == "waiting"@ {
        Some(VideoFlag::Waiting)
    } else if name == "archive"@ {
        Some(VideoFlag::Archive)
    } else {
        None
    }
}

impl VideoFlag {
    /// The flag named `name`, or `None` for a name outside the allow-list
    /// (only these names are ever written into a query).
    pub fn from_name(name: &str) -> (r: Option<VideoFlag>)
        ensures
            r == flag_of_name(name@),
    {
        let n = chars_of(name);
        if eq_lit(&n, "bookmark") {
            Some(VideoFlag::Bookmark)
        } else if eq_lit(&n, "favourite") {
            Some(VideoFlag::Favourite)
        } else if eq_lit(&n, "waiting") {
            Some(VideoFlag::Waiting)
        } else if eq_lit(&n, "archive") {
            Some(VideoFlag::Archive)
        } else {
            None
        }
    }

    /// The flag's column name.
    pub fn name(self) -> (r: &'static str)
        ensures
            r@ == flag_name(self),
    {
        match self {
            VideoFlag::Bookmark => "bookmark",
            VideoFlag::Favourite => "favourite",
            VideoFlag::Waiting => "waiting",
            VideoFlag::Archive => "archive",
        }
    }
}

/// Law: a flag's name leads back to the flag, and every accepted name is
/// the name of the flag it gives.
pub proof fn lemma_flag_names(f: VideoFlag, name: Seq<char>)
    ensures
        flag_of_name(flag_name(f)) == Some(f),
        flag_of_name(name) matches Some(g) ==> flag_name(g) == name,
{
    reveal_strlit("bookmark");
    reveal_strlit("favourite");
    reveal_strlit("waiting");
    reveal_strlit("archive");
    match f {
        VideoFlag::Bookmark => {},
        VideoFlag::Favourite => {
            assert("favourite"@.len() != "bookmark"@.len());
        },
        VideoFlag::Waiting => {
            assert("waiting"@.len() != "bookmark"@.len());
            assert("waiting"@.len() != "favourite"@.len());
        },
        VideoFlag::Archive => {
            assert("archive"@.len() != "bookmark"@.len());
            assert("archive"@.len() != "favourite"@.len());
            assert("archive"@[0] != "waiting"@[0]);
        },
    }
}

/// The video ids that have each flag enabled.
#[derive(Debug)]
pub struct VideoFlagsBundle {
    pub bookmark: HashSet<String>,
    pub favourite: HashSet<String>,
    pub waiting: HashSet<String>,
    pub archive: HashSet<String>,
}

impl Default for VideoFlagsBundle {
    fn default() -> (r: Self)
        ensures
            r.bookmark@ == Set::<String>::empty(),
            r.favourite@ == Set::<String>::empty(),
            r.waiting@ == Set::<String>::empty(),
            r.archive@ == Set::<String>::empty(),
    {
        VideoFlagsBundle {
            bookmark: HashSet::new(),
            favourite: HashSet::new(),
            waiting: HashSet::new(),
            archive: HashSet::new(),
        }
    }
}

/// Per-table row counts that landed in the live database during a restore.
#[derive(Clone, Copy, Debug)]
pub struct RestoreSummary {
    pub watched_added: u64,
    pub positions_added: u64,
    pub options_added: u64,
    pub flags_added: u64,
    pub folders_added: u64,
    pub assignments_added: u64,
    pub notes_added: u64,
}

impl Default for RestoreSummary {
    fn default() -> (r: Self)
        ensures
            r.watched_added == 0 && r.positions_added == 0 && r.options_added == 0
                && r.flags_added == 0 && r.folders_added == 0 && r.assignments_added == 0
                && r.notes_added == 0,
    {
        RestoreSummary {
            watched_added: 0,
            positions_added: 0,
            options_added: 0,
            flags_added: 0,
            folders_added: 0,
            assignments_added: 0,
            notes_added: 0,
        }
    }
}

/// The search term of one whitespace-separated token: double quotes become
/// spaces, then the token is trimmed.
pub open spec fn fts_term(t: Seq<char>) -> Seq<char> {
    trim(replace(t, "\""@, " "@))
}

/// The quoted prefix terms of the non-empty tokens, in order.
pub open spec fn fts_terms(ws: Seq<Seq<char>>) -> Seq<Seq<char>>
    decreases ws.len(),
{
    if ws.len() == 0 {
        seq![]
    } else {
        fts_terms(ws.drop_last()) + if fts_term(ws.last()).len() > 0 {
            seq!["\""@ + fts_term(ws.last()) + "\"*"@]
        } else {
            seq![]
        }
    }
}

/// The FTS5 expression of a query: its quoted prefix terms, AND-ed by
/// juxtaposition.
pub open spec fn fts_match_spec(query: Seq<char>) -> Seq<char> {
    join(fts_terms(words(query)), " "@)
}

/// Build a safe FTS5 `MATCH` expression from free-form user input: each
/// whitespace token becomes a quoted prefix term (quoting neutralizes FTS5
/// operators, the trailing `*` gives type-ahead matching). Returns "" when
/// nothing is searchable.
pub fn fts_match_expr(query: &str) -> (r: String)
    ensures
        r@ == fts_match_spec(query@),
{
    let q = chars_of(query);
    let ws = words_vec(&q);
    let quote = chars_of("\"");
    let space = chars_of(" ");
    proof {
        reveal_strlit("\"");
    }
    let mut terms: Vec<Vec<char>> = Vec::new();
    let mut i: usize = 0;
    while i < ws.len()
        invariant
            i <= ws@.len(),
            quote@ == "\""@,
            space@ == " "@,
            quote@.len() > 0,
            views(terms@) == fts_terms(views(ws@).take(i as int)),
        decreases ws.len() - i,
    {
        assert(views(ws@).take(i + 1).drop_last() =~= views(ws@).take(i as int));
        assert(views(ws@).take(i + 1).last() == ws@[i as int]@);
        let t = trim_vec(&replace_vec(&ws[i], &quote, &space));
        if t.len() > 0 {
            let mut term: Vec<char> = Vec::new();
            extend_str(&mut term, "\"");
            extend(&mut term, &t);
            extend_str(&mut term, "\"*");
            let ghost before = views(terms@);
            terms.push(term);
            assert(views(terms@) =~= before.push(("\""@ + t@) + "\"*"@));
        }
        i += 1;
        assert(views(terms@) =~= fts_terms(views(ws@).take(i as int)));
    }
    assert(views(ws@).take(i as int) =~= views(ws@));
    string_of(&join_vec(&terms, " "))
}

// ── Folder nesting ───────────────────────────────────────────────────────────

/// How many ancestors the cycle check walks before giving up (a guard
/// against an already corrupt table).
pub const ANCESTOR_WALK_LIMIT: u64 = 10000;

/// The parent of folder `id` in `folders` (the first row with that id):
/// `None` at the top level or for an unknown folder.
pub open spec fn parent_in(folders: Seq<FolderRecord>, id: i64) -> Option<i64>
    decreases folders.len(),
{
    if folders.len() == 0 {
        None
    } else if folders[0].id == id {
        folders[0].parent_id
    } else {
        parent_in(folders.drop_first(), id)
    }
}

/// Whether walking up from `cur` meets `id` within `fuel` more steps.
pub open spec fn walk_meets(folders: Seq<FolderRecord>, cur: Option<i64>, id: i64, fuel: nat) -> bool
    decreases fuel,
{
    match cur {
        None => false,
        Some(c) => c == id || (fuel > 0 && walk_meets(folders, parent_in(folders, c), id, (fuel - 1) as nat)),
    }
}

/// Where walking `n` steps up from `cur` leads (`None` past the top).
pub open spec fn up(folders: Seq<FolderRecord>, cur: Option<i64>, n: nat) -> Option<i64>
    decreases n,
{
    if n == 0 {
        cur
    } else {
        match cur {
            None => None,
            Some(c) => up(folders, parent_in(folders, c), (n - 1) as nat),
        }
    }
}

/// Folder `p` is `id` or lies below it.
pub open spec fn descends(folders: Seq<FolderRecord>, p: i64, id: i64) -> bool {
    exists|n: nat| #[trigger] up(folders, Some(p), n) == Some(id)
}

/// The parent links form a forest of depth below `d`: from any folder,
/// `d` steps up lead past the top.
pub open spec fn forest_below(folders: Seq<FolderRecord>, d: nat) -> bool {
    forall|x: i64| #[trigger] up(folders, Some(x), d) is None
}

proof fn lemma_up_from_none(folders: Seq<FolderRecord>, n: nat)
    ensures
        up(folders, None, n) is None,
{
}

/// Past the top stays past the top.
proof fn lemma_up_none_stays(folders: Seq<FolderRecord>, cur: Option<i64>, m: nat, n: nat)
    requires
        up(folders, cur, m) is None,
        m <= n,
    ensures
        up(folders, cur, n) is None,
    decreases m,
{
    if m > 0 {
        if let Some(c) = cur {
            lemma_up_none_stays(folders, parent_in(folders, c), (m - 1) as nat, (n - 1) as nat);
        } else {
            lemma_up_from_none(folders, n);
        }
    }
}

/// Walking up from `cur` meets `id` within `fuel` steps exactly when some
/// `n <= fuel` steps up lead to `id`.
proof fn lemma_walk_meets_iff(folders: Seq<FolderRecord>, cur: Option<i64>, id: i64, fuel: nat)
    ensures
        walk_meets(folders, cur, id, fuel) <==> exists|n: nat| n <= fuel && #[trigger] up(folders, cur, n) == Some(id),
    decreases fuel,
{
    match cur {
        None => {
            assert forall|n: nat| n <= fuel implies #[trigger] up(folders, cur, n) != Some(id) by {
                lemma_up_from_none(folders, n);
            }
        },
        Some(c) => {
            let par = parent_in(folders, c);
            if fuel > 0 {
                lemma_walk_meets_iff(folders, par, id, (fuel - 1) as nat);
            }
            if walk_meets(folders, cur, id, fuel) {
                if c == id {
                    assert(up(folders, cur, 0) == Some(id));
                } else {
                    let m = choose|m: nat| m <= (fuel - 1) as nat && #[trigger] up(folders, par, m) == Some(id);
                    assert(up(folders, cur, m + 1) == up(folders, par, m));
                }
            }
            if exists|n: nat| n <= fuel && #[trigger] up(folders, cur, n) == Some(id) {
                let n = choose|n: nat| n <= fuel && #[trigger] up(folders, cur, n) == Some(id);
                if n > 0 {
                    assert(up(folders, cur, n) == up(folders, par, (n - 1) as nat));
                }
            }
        },
    }
}

/// Law: in a forest of depth below [`ANCESTOR_WALK_LIMIT`], moving folder
/// `id` under `new_parent` is refused (see [`check_reparent`]) exactly
/// when the new parent is the folder itself or one of its descendants.
pub proof fn lemma_reparent_refuses_exactly_descendants(
    folders: Seq<FolderRecord>,
    id: i64,
    new_parent: Option<i64>,
)
    requires
        forest_below(folders, ANCESTOR_WALK_LIMIT as nat),
    ensures
        (match new_parent {
            None => false,
            Some(p) => p == id || walk_meets(folders, Some(p), id, ANCESTOR_WALK_LIMIT as nat),
        }) <==> (new_parent matches Some(p) && descends(folders, p, id)),
{
    if let Some(p) = new_parent {
        let lim = ANCESTOR_WALK_LIMIT as nat;
        lemma_walk_meets_iff(folders, Some(p), id, lim);
        if p == id {
            assert(up(folders, Some(p), 0) == Some(id));
        }
        if descends(folders, p, id) {
            let n = choose|n: nat| #[trigger] up(folders, Some(p), n) == Some(id);
            assert(up(folders, Some(p), lim) is None);
            if n > lim {
                lemma_up_none_stays(folders, Some(p), lim, n);
            }
            assert(n <= lim);
        }
    }
}

/// Why a folder cannot move under a new parent.
#[derive(Clone, Copy, PartialEq, Eq, Debug, Structural)]
pub enum ReparentError {
    /// The new parent is the folder itself.
    OwnParent,
    /// The new parent is one of the folder's descendants.
    OwnDescendant,
}

impl ReparentError {
    /// The message shown for the refusal.
    pub fn message(self) -> (r: &'static str)
        ensures
            r@ == match self {
                ReparentError::OwnParent => "a folder can't be its own parent"@,
                ReparentError::OwnDescendant => "that move would nest a folder inside its own descendant"@,
            },
    {
        match self {
            ReparentError::OwnParent => "a folder can't be its own parent",
            ReparentError::OwnDescendant => "that move would nest a folder inside its own descendant",
        }
    }
}

/// The parent of folder `id` among `folders`.
pub fn parent_of(folders: &Vec<FolderRecord>, id: i64) -> (r: Option<i64>)
    ensures
        r == parent_in(folders@, id),
{
    let mut i: usize = 0;
    assert(folders@.skip(0) =~= folders@);
    while i < folders.len()
        invariant
            i <= folders@.len(),
            parent_in(folders@, id) == parent_in(folders@.skip(i as int), id),
        decreases folders.len() - i,
    {
        assert(folders@.skip(i as int).drop_first() =~= folders@.skip(i + 1));
        if folders[i].id == id {
            return folders[i].parent_id;
        }
        i += 1;
    }
    None
}

/// Whether folder `id` may move under `new_parent` (`None`: the top
/// level). Refused when the new parent is the folder itself, or when the
/// folder is met walking up from the new parent (within
/// [`ANCESTOR_WALK_LIMIT`] steps), which would form a loop.
pub fn check_reparent(folders: &Vec<FolderRecord>, id: i64, new_parent: Option<i64>) -> (r: Result<(), ReparentError>)
    ensures
        r == match new_parent {
            None => Ok(()),
            Some(p) => if p == id {
                Err(ReparentError::OwnParent)
            } else if walk_meets(folders@, Some(p), id, ANCESTOR_WALK_LIMIT as nat) {
                Err(ReparentError::OwnDescendant)
            } else {
                Ok(())
            },
        },
{
    let p = match new_parent {
        None => return Ok(()),
        Some(p) => p,
    };
    if p == id {
        return Err(ReparentError::OwnParent);
    }
    let mut cur: Option<i64> = Some(p);
    let mut fuel: u64 = ANCESTOR_WALK_LIMIT;
    loop
        invariant
            new_parent == Some(p),
            p != id,
            fuel <= ANCESTOR_WALK_LIMIT,
            walk_meets(folders@, Some(p), id, ANCESTOR_WALK_LIMIT as nat) == walk_meets(folders@, cur, id, fuel as nat),
        decreases fuel,
    {
        match cur {
            None => return Ok(()),
            Some(c) => {
                if c == id {
                    return Err(ReparentError::OwnDescendant);
                }
                if fuel == 0 {
                    return Ok(());
                }
                cur = parent_of(folders, c);
                fuel = fuel - 1;
            },
        }
    }
}

// ── Search index upkeep ──────────────────────────────────────────────────────

/// The indexed modification time of `id` (the first row for it).
pub open spec fn indexed_mtime(existing: Seq<(Seq<char>, i64)>, id: Seq<char>) -> Option<i64>
    decreases existing.len(),
{
    if existing.len() == 0 {
        None
    } else if existing[0].0 == id {
        Some(existing[0].1)
    } else {
        indexed_mtime(existing.drop_first(), id)
    }
}

/// The view of the index rows.
pub open spec fn rows_view(existing: Seq<(String, i64)>) -> Seq<(Seq<char>, i64)> {
    existing.map_values(|r: (String, i64)| (r.0@, r.1))
}

/// Entry `k` must be (re)indexed: its video is new or its file changed.
pub open spec fn needs_index(existing: Seq<(Seq<char>, i64)>, entries: Seq<SearchEntry>, k: int) -> bool {
    indexed_mtime(existing, entries[k].video_id@) != Some(entries[k].mtime_unix)
}

/// How many of the first `k` entries must be (re)indexed.
pub open spec fn count_needing(existing: Seq<(Seq<char>, i64)>, entries: Seq<SearchEntry>, k: int) -> nat
    decreases k,
{
    if k <= 0 {
        0
    } else {
        count_needing(existing, entries, k - 1) + if needs_index(existing, entries, k - 1) {
            1nat
        } else {
            0nat
        }
    }
}

/// Row `k` of the index is stale: no video on disk has its id.
pub open spec fn is_stale(existing: Seq<(Seq<char>, i64)>, entries: Seq<SearchEntry>, k: int) -> bool {
    forall|e: int| 0 <= e < entries.len() ==> #[trigger] entries[e].video_id@ != existing[k].0
}

/// No two entries share a video id.
pub open spec fn distinct_ids(entries: Seq<SearchEntry>) -> bool {
    forall|a: int, b: int|
        0 <= a < entries.len() && 0 <= b < entries.len() && a != b ==> #[trigger] entries[a].video_id@
            != #[trigger] entries[b].video_id@
}

/// Some entry has video id `id`.
pub open spec fn has_entry(entries: Seq<SearchEntry>, id: Seq<char>) -> bool {
    exists|k: int| 0 <= k < entries.len() && #[trigger] entries[k].video_id@ == id
}

/// The index the entries describe: each entry's id to its time.
pub open spec fn entries_index(entries: Seq<SearchEntry>) -> Map<Seq<char>, i64> {
    Map::new(
        |id: Seq<char>| has_entry(entries, id),
        |id: Seq<char>|
            entries[choose|k: int| 0 <= k < entries.len() && #[trigger] entries[k].video_id@ == id].mtime_unix,
    )
}

/// The index after a sync plan is carried out: the rows at `stale` are
/// dropped, the entries at `changed` are written (replacing a row with
/// the same id), the other rows are kept.
pub open spec fn index_after(
    rows: Seq<(Seq<char>, i64)>,
    entries: Seq<SearchEntry>,
    changed: Seq<usize>,
    stale: Seq<usize>,
) -> Map<Seq<char>, i64> {
    Map::new(
        |id: Seq<char>|
            (exists|c: int| 0 <= c < changed.len() && #[trigger] entries[changed[c] as int].video_id@ == id) || (
            indexed_mtime(rows, id) is Some && !(exists|s: int|
                0 <= s < stale.len() && #[trigger] rows[stale[s] as int].0 == id)),
        |id: Seq<char>|
            if exists|c: int| 0 <= c < changed.len() && #[trigger] entries[changed[c] as int].video_id@ == id {
                entries[changed[choose|c: int|
                    0 <= c < changed.len() && #[trigger] entries[changed[c] as int].video_id@ == id] as int].mtime_unix
            } else {
                indexed_mtime(rows, id)->0
            },
    )
}

/// The first row with `id` gives its indexed time.
proof fn lemma_indexed_first(rows: Seq<(Seq<char>, i64)>, id: Seq<char>, k: int)
    requires
        0 <= k < rows.len(),
        rows[k].0 == id,
        forall|j: int| 0 <= j < k ==> #[trigger] rows[j].0 != id,
    ensures
        indexed_mtime(rows, id) == Some(rows[k].1),
    decreases k,
{
    if k > 0 {
        assert(rows[0].0 != id);
        lemma_indexed_first(rows.drop_first(), id, k - 1);
    }
}

/// An indexed time comes from a row with that id; without one, no row
/// has the id.
proof fn lemma_indexed_row(rows: Seq<(Seq<char>, i64)>, id: Seq<char>)
    ensures
        indexed_mtime(rows, id) matches Some(v) ==> exists|s: int| 0 <= s < rows.len() && #[trigger] rows[s] == (id, v),
        indexed_mtime(rows, id) is None ==> forall|s: int| 0 <= s < rows.len() ==> #[trigger] rows[s].0 != id,
    decreases rows.len(),
{
    if rows.len() > 0 {
        lemma_indexed_row(rows.drop_first(), id);
        if rows[0].0 != id {
            if let Some(v) = indexed_mtime(rows, id) {
                let s = choose|s: int| 0 <= s < rows.len() - 1 && #[trigger] rows.drop_first()[s] == (id, v);
                assert(rows[s + 1] == (id, v));
            } else {
                assert forall|s: int| 0 <= s < rows.len() implies #[trigger] rows[s].0 != id by {
                    if s > 0 {
                        assert(rows[s] == rows.drop_first()[s - 1]);
                    }
                }
            }
        } else {
            assert(rows[0] == (id, rows[0].1));
        }
    }
}

/// Law: carrying out the sync plan (positions `changed` and `stale`, as
/// [`index_sync_plan`] returns them) leaves the index mapping exactly the
/// entries' ids, each to its entry's time; ids of no entry are evicted.
pub proof fn lemma_sync_leaves_entries(
    rows: Seq<(Seq<char>, i64)>,
    entries: Seq<SearchEntry>,
    changed: Seq<usize>,
    stale: Seq<usize>,
)
    requires
        entries.len() <= usize::MAX,
        rows.len() <= usize::MAX,
        distinct_ids(entries),
        forall|a: int| 0 <= a < changed.len() ==> #[trigger] changed[a] < entries.len(),
        forall|k: int| 0 <= k < entries.len() ==> (needs_index(rows, entries, k) <==> changed.contains(k as usize)),
        forall|a: int| 0 <= a < stale.len() ==> #[trigger] stale[a] < rows.len(),
        forall|k: int| 0 <= k < rows.len() ==> (is_stale(rows, entries, k) <==> stale.contains(k as usize)),
    ensures
        index_after(rows, entries, changed, stale) =~= entries_index(entries),
{
    let after = index_after(rows, entries, changed, stale);
    let want = entries_index(entries);
    assert forall|id: Seq<char>| #[trigger] after.dom().contains(id) <==> want.dom().contains(id) by {
        lemma_indexed_row(rows, id);
        let up = exists|c: int| 0 <= c < changed.len() && #[trigger] entries[changed[c] as int].video_id@ == id;
        let gone = exists|s: int| 0 <= s < stale.len() && #[trigger] rows[stale[s] as int].0 == id;
        if has_entry(entries, id) {
            let k = choose|k: int| 0 <= k < entries.len() && #[trigger] entries[k].video_id@ == id;
            if !up {
                assert(!changed.contains(k as usize)) by {
                    if changed.contains(k as usize) {
                        let c = choose|c: int| 0 <= c < changed.len() && changed[c] == k as usize;
                        assert(entries[changed[c] as int].video_id@ == id);
                    }
                }
                assert(!needs_index(rows, entries, k));
                assert(indexed_mtime(rows, id) == Some(entries[k].mtime_unix));
                if gone {
                    let s = choose|s: int| 0 <= s < stale.len() && #[trigger] rows[stale[s] as int].0 == id;
                    let r = stale[s] as int;
                    assert(stale.contains(r as usize));
                    assert(is_stale(rows, entries, r));
                    assert(entries[k].video_id@ != rows[r].0);
                }
            }
        } else {
            if up {
                let c = choose|c: int| 0 <= c < changed.len() && #[trigger] entries[changed[c] as int].video_id@ == id;
                let k = changed[c] as int;
                assert(0 <= k < entries.len() && entries[k].video_id@ == id);
            }
            if let Some(v) = indexed_mtime(rows, id) {
                let r = choose|s: int| 0 <= s < rows.len() && #[trigger] rows[s] == (id, v);
                assert(is_stale(rows, entries, r)) by {
                    assert forall|e: int| 0 <= e < entries.len() implies #[trigger] entries[e].video_id@ != rows[r].0 by {
                        if entries[e].video_id@ == rows[r].0 {
                            assert(has_entry(entries, id));
                        }
                    }
                }
                assert(stale.contains(r as usize));
                let s = choose|s: int| 0 <= s < stale.len() && stale[s] == r as usize;
                assert(rows[stale[s] as int].0 == id);
            }
        }
    }
    assert forall|id: Seq<char>| after.dom().contains(id) implies #[trigger] after[id] == want[id] by {
        lemma_indexed_row(rows, id);
        let k = choose|k: int| 0 <= k < entries.len() && #[trigger] entries[k].video_id@ == id;
        if exists|c: int| 0 <= c < changed.len() && #[trigger] entries[changed[c] as int].video_id@ == id {
            let c = choose|c: int| 0 <= c < changed.len() && #[trigger] entries[changed[c] as int].video_id@ == id;
            assert(changed[c] as int == k);
        } else {
            assert(!changed.contains(k as usize)) by {
                if changed.contains(k as usize) {
                    let c = choose|c: int| 0 <= c < changed.len() && changed[c] == k as usize;
                    assert(entries[changed[c] as int].video_id@ == id);
                }
            }
            assert(!needs_index(rows, entries, k));
            assert(indexed_mtime(rows, id) == Some(entries[k].mtime_unix));
        }
    }
}

/// The index rows the entries describe, in order.
pub open spec fn entry_rows(entries: Seq<SearchEntry>) -> Seq<(Seq<char>, i64)> {
    entries.map_values(|e: SearchEntry| (e.video_id@, e.mtime_unix))
}

/// Law: a second sync against the index the entries describe plans
/// nothing: no entry needs indexing and no row is stale.
pub proof fn lemma_resync_plans_nothing(entries: Seq<SearchEntry>)
    requires
        distinct_ids(entries),
    ensures
        forall|k: int| 0 <= k < entries.len() ==> !needs_index(entry_rows(entries), entries, k),
        forall|k: int| 0 <= k < entries.len() ==> !is_stale(entry_rows(entries), entries, k),
{
    let rows = entry_rows(entries);
    assert forall|k: int| 0 <= k < entries.len() implies !needs_index(rows, entries, k) by {
        lemma_indexed_first(rows, entries[k].video_id@, k);
    }
    assert forall|k: int| 0 <= k < entries.len() implies !is_stale(rows, entries, k) by {
        assert(entries[k].video_id@ == rows[k].0);
    }
}

/// The indexed modification time of `id` among `existing`.
fn find_indexed(existing: &Vec<(String, i64)>, id: &Vec<char>) -> (r: Option<i64>)
    ensures
        r == indexed_mtime(rows_view(existing@), id@),
{
    let ghost rows = rows_view(existing@);
    let mut i: usize = 0;
    assert(rows.skip(0) =~= rows);
    while i < existing.len()
        invariant
            i <= existing@.len(),
            rows == rows_view(existing@),
            indexed_mtime(rows, id@) == indexed_mtime(rows.skip(i as int), id@),
        decreases existing.len() - i,
    {
        assert(rows.skip(i as int).drop_first() =~= rows.skip(i + 1));
        if crate::text::eq_vec(&crate::text::chars_of(existing[i].0.as_str()), id) {
            return Some(existing[i].1);
        }
        i += 1;
    }
    None
}

/// What keeps the search index in step with the videos on disk, given
/// the indexed rows `(id, mtime)` and the videos found: the positions of
/// the videos to (re)index (new, or a different modification time) and
/// of the rows to drop (no video with that id any more), both in order.
pub fn index_sync_plan(existing: &Vec<(String, i64)>, entries: &Vec<SearchEntry>) -> (r: (Vec<usize>, Vec<usize>))
    ensures
        forall|a: int, b: int| 0 <= a < b < r.0@.len() ==> #[trigger] r.0@[a] < #[trigger] r.0@[b],
        forall|a: int| 0 <= a < r.0@.len() ==> #[trigger] r.0@[a] < entries@.len(),
        forall|k: int| 0 <= k < entries@.len() ==> (needs_index(rows_view(existing@), entries@, k) <==> r.0@.contains(
            k as usize,
        )),
        r.0@.len() == count_needing(rows_view(existing@), entries@, entries@.len() as int),
        forall|a: int, b: int| 0 <= a < b < r.1@.len() ==> #[trigger] r.1@[a] < #[trigger] r.1@[b],
        forall|a: int| 0 <= a < r.1@.len() ==> #[trigger] r.1@[a] < existing@.len(),
        forall|k: int| 0 <= k < existing@.len() ==> (is_stale(rows_view(existing@), entries@, k) <==> r.1@.contains(
            k as usize,
        )),
{
    let ghost rows = rows_view(existing@);
    let mut changed: Vec<usize> = Vec::new();
    let mut k: usize = 0;
    while k < entries.len()
        invariant
            k <= entries@.len(),
            rows == rows_view(existing@),
            forall|a: int, b: int| 0 <= a < b < changed@.len() ==> #[trigger] changed@[a] < #[trigger] changed@[b],
            forall|a: int| 0 <= a < changed@.len() ==> #[trigger] changed@[a] < k,
            forall|c: int| 0 <= c < k ==> (needs_index(rows, entries@, c) <==> changed@.contains(c as usize)),
            changed@.len() == count_needing(rows, entries@, k as int),
        decreases entries.len() - k,
    {
        let id = crate::text::chars_of(entries[k].video_id.as_str());
        let ghost before = changed@;
        if find_indexed(existing, &id) != Some(entries[k].mtime_unix) {
            changed.push(k);
            proof {
                assert(changed@[changed@.len() - 1] == k);
                assert forall|c: int| 0 <= c < k + 1 implies (needs_index(rows, entries@, c) <==> changed@.contains(
                    c as usize,
                )) by {
                    if c < k {
                        if before.contains(c as usize) {
                            let w = choose|w: int| 0 <= w < before.len() && before[w] == c as usize;
                            assert(changed@[w] == c as usize);
                        }
                        if changed@.contains(c as usize) {
                            let w = choose|w: int| 0 <= w < changed@.len() && changed@[w] == c as usize;
                            if w < before.len() {
                                assert(before[w] == c as usize);
                            }
                        }
                    }
                }
            }
        } else {
            proof {
                assert forall|c: int| 0 <= c < k + 1 implies (needs_index(rows, entries@, c) <==> changed@.contains(
                    c as usize,
                )) by {
                    if c == k && changed@.contains(c as usize) {
                        let w = choose|w: int| 0 <= w < changed@.len() && changed@[w] == c as usize;
                    }
                }
            }
        }
        k += 1;
    }
    let mut stale: Vec<usize> = Vec::new();
    let mut i: usize = 0;
    while i < existing.len()
        invariant
            i <= existing@.len(),
            rows == rows_view(existing@),
            forall|a: int, b: int| 0 <= a < b < stale@.len() ==> #[trigger] stale@[a] < #[trigger] stale@[b],
            forall|a: int| 0 <= a < stale@.len() ==> #[trigger] stale@[a] < i,
            forall|c: int| 0 <= c < i ==> (is_stale(rows, entries@, c) <==> stale@.contains(c as usize)),
        decreases existing.len() - i,
    {
        let id = crate::text::chars_of(existing[i].0.as_str());
        let mut e: usize = 0;
        let mut found = false;
        while e < entries.len() && !found
            invariant
                e <= entries@.len(),
                i < existing@.len(),
                id@ == rows[i as int].0,
                rows == rows_view(existing@),
                !found ==> forall|x: int| 0 <= x < e ==> #[trigger] entries@[x].video_id@ != rows[i as int].0,
                found ==> exists|x: int| 0 <= x < entries@.len() && #[trigger] entries@[x].video_id@ == rows[i as int].0,
            decreases entries.len() - e,
        {
            if crate::text::eq_vec(&crate::text::chars_of(entries[e].video_id.as_str()), &id) {
                found = true;
            }
            e += 1;
        }
        let ghost before = stale@;
        if !found {
            stale.push(i);
            proof {
                assert(stale@[stale@.len() - 1] == i);
                assert forall|c: int| 0 <= c < i + 1 implies (is_stale(rows, entries@, c) <==> stale@.contains(c as usize)) by {
                    if c < i {
                        if before.contains(c as usize) {
                            let w = choose|w: int| 0 <= w < before.len() && before[w] == c as usize;
                            assert(stale@[w] == c as usize);
                        }
                        if stale@.contains(c as usize) {
                            let w = choose|w: int| 0 <= w < stale@.len() && stale@[w] == c as usize;
                            if w < before.len() {
                                assert(before[w] == c as usize);
                            }
                        }
                    }
                }
            }
        } else {
            proof {
                assert forall|c: int| 0 <= c < i + 1 implies (is_stale(rows, entries@, c) <==> stale@.contains(c as usize)) by {
                    if c == i {
                        let x = choose|x: int| 0 <= x < entries@.len() && #[trigger] entries@[x].video_id@ == rows[i as int].0;
                        if stale@.contains(c as usize) {
                            let w = choose|w: int| 0 <= w < stale@.len() && stale@[w] == c as usize;
                        }
                    }
                }
            }
        }
        i += 1;
    }
    (changed, stale)
}

} // verus!
