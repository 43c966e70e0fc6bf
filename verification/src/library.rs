//! Reading the `channels/` directory tree: which files belong to which
//! video, and what a file name says about the video.
//!
//! ```text
//! channels/
//!   <channel-name>/
//!     Title [VIDEO_ID].mkv
//!     Title [VIDEO_ID].webp          ← thumbnail
//!     Title [VIDEO_ID].description
//!     Title [VIDEO_ID].info.json
//!     Title [VIDEO_ID].en.vtt        ← subtitle (lang = "en")
//! ```
//!
//! Files that don't match the `Title [ID].ext` naming convention are
//! ignored. Walking the directories happens with the rest of the I/O.

use vstd::prelude::*;
use crate::paths::path_join;
use crate::text::{
    eq_vec, lemma_lex_asym, lemma_lex_total, lemma_lex_trans, lex_less, lex_lt, strings, chars_of, ends_with, eq_lit, lemma_rfind_char_before, rfind_char_before, rfind_char_in, slice,
    string_of, strip_suffix, strip_suffix_vec, to_lowercase, trim, trim_end_char,
    trim_end_char_vec, trim_vec, unicode_lower,
};

verus! {

/// A single subtitle track discovered alongside a video file.
#[derive(Clone, Debug)]
pub struct Subtitle {
    /// Language code from the `.lang.vtt` file-name suffix.
    pub lang: String,
    pub path: String,
}

/// Channel-level metadata pulled from the first available `info.json`.
#[derive(Clone, Debug)]
pub struct ChannelMeta {
    pub subscriber_count: Option<u64>,
    pub channel_url: Option<String>,
    pub uploader: Option<String>,
}

/// What a file in a channel folder is.
#[derive(Clone, Copy, PartialEq, Eq, Debug, Structural)]
pub enum FileKind {
    Video,
    Thumb,
    Description,
    LiveChat,
    Info,
    Other,
}

// ── Titles and ids ───────────────────────────────────────────────────────────

/// `(title, id)` of a `Title [ID]` stem: the id is inside the last `[...]`
/// (trimmed, non-empty); the title is what precedes it, trimmed, stripped
/// of trailing dashes and trimmed again, or the whole stem when that is
/// empty.
pub open spec fn parse_stem_spec(s: Seq<char>) -> Option<(Seq<char>, Seq<char>)> {
    match rfind_char_before(s, ']', s.len() as int) {
        None => None,
        Some(close) => match rfind_char_before(s, '[', close) {
            None => None,
            Some(open) => {
                let id = trim(s.subrange(open + 1, close));
                if id.len() == 0 {
                    None
                } else {
                    let t = trim(trim_end_char(trim(s.take(open)), '-'));
                    Some(
                        (
                            if t.len() == 0 {
                                s
                            } else {
                                t
                            },
                            id,
                        ),
                    )
                }
            },
        },
    }
}

/// Split a `Title [ID]` file stem into its title and video id.
pub fn parse_stem(stem: &str) -> (r: Option<(String, String)>)
    ensures
        match r {
            Some((t, i)) => parse_stem_spec(stem@) == Some((t@, i@)),
            None => parse_stem_spec(stem@) is None,
        },
{
    let s = chars_of(stem);
    let close = match rfind_char_in(&s, ']', s.len()) {
        Some(c) => c,
        None => return None,
    };
    proof {
        lemma_rfind_char_before(s@, ']', s@.len() as int);
    }
    let open = match rfind_char_in(&s, '[', close) {
        Some(o) => o,
        None => return None,
    };
    proof {
        lemma_rfind_char_before(s@, '[', close as int);
    }
    let inner = slice(&s, open + 1, close);
    let id = trim_vec(&inner);
    if id.len() == 0 {
        return None;
    }
    let head = slice(&s, 0, open);
    let t1 = trim_vec(&head);
    let t2 = trim_end_char_vec(&t1, '-');
    let t3 = trim_vec(&t2);
    let title = if t3.len() == 0 {
        s
    } else {
        t3
    };
    Some((string_of(&title), string_of(&id)))
}

// ── File names ───────────────────────────────────────────────────────────────

/// The part of `s` after its last `.`, if it has one.
pub open spec fn after_last_dot(s: Seq<char>) -> Option<(Seq<char>, Seq<char>)> {
    match rfind_char_before(s, '.', s.len() as int) {
        Some(d) => Some((s.take(d), s.skip(d + 1))),
        None => None,
    }
}

/// The kind of a file with (Unicode-lowercased) extension `ext`.
pub open spec fn kind_of_ext(ext: Seq<char>) -> FileKind {
    if ext == "mkv"@ || ext == "mp4"@ || ext == "webm"@ || ext == "m4v"@ || ext == "mov"@ || ext
        == "avi"@ {
        FileKind::Video
    } else if ext == "webp"@ || ext == "jpg"@ || ext == "jpeg"@ || ext == "png"@ {
        FileKind::Thumb
    } else if ext == "description"@ {
        FileKind::Description
    } else {
        FileKind::Other
    }
}

/// The container extensions the library lists as videos (lower-case).
pub open spec fn video_extensions() -> Seq<Seq<char>> {
    seq!["mkv"@, "mp4"@, "webm"@, "m4v"@, "mov"@, "avi"@]
}

/// The image extensions the library takes for thumbnails (lower-case).
pub open spec fn thumb_extensions() -> Seq<Seq<char>> {
    seq!["webp"@, "jpg"@, "jpeg"@, "png"@]
}

/// Law: an extension is a video exactly when it is one of the video
/// containers, and a thumbnail exactly when it is one of the image types.
pub proof fn lemma_extension_kinds(e: Seq<char>)
    ensures
        kind_of_ext(e) == FileKind::Video <==> video_extensions().contains(e),
        kind_of_ext(e) == FileKind::Thumb <==> thumb_extensions().contains(e),
{
    let v = video_extensions();
    let t = thumb_extensions();
    assert(v[0] == "mkv"@ && v[1] == "mp4"@ && v[2] == "webm"@ && v[3] == "m4v"@ && v[4] == "mov"@ && v[5]
        == "avi"@);
    assert(t[0] == "webp"@ && t[1] == "jpg"@ && t[2] == "jpeg"@ && t[3] == "png"@);
    if v.contains(e) {
        let i = choose|i: int| 0 <= i < v.len() && v[i] == e;
        assert(0 <= i < 6);
    }
    if t.contains(e) {
        let i = choose|i: int| 0 <= i < t.len() && t[i] == e;
        assert(0 <= i < 4);
        reveal_strlit("mkv");
        reveal_strlit("mp4");
        reveal_strlit("webm");
        reveal_strlit("m4v");
        reveal_strlit("mov");
        reveal_strlit("avi");
        reveal_strlit("webp");
        reveal_strlit("jpg");
        reveal_strlit("jpeg");
        reveal_strlit("png");
        assert("webp"@[3] != "webm"@[3]);
        assert("webp"@.len() != "mkv"@.len());
        assert("jpeg"@[0] != "webm"@[0]);
        assert("jpg"@[0] != "mkv"@[0] && "jpg"@[0] != "mp4"@[0] && "jpg"@[0] != "m4v"@[0] && "jpg"@[0]
            != "mov"@[0] && "jpg"@[0] != "avi"@[0]);
        assert("png"@[0] != "mkv"@[0] && "png"@[0] != "mp4"@[0] && "png"@[0] != "m4v"@[0] && "png"@[0]
            != "mov"@[0] && "png"@[0] != "avi"@[0]);
        assert(!v.contains(e)) by {
            if v.contains(e) {
                let k = choose|k: int| 0 <= k < v.len() && v[k] == e;
                assert(0 <= k < 6);
            }
        }
    }
    if kind_of_ext(e) == FileKind::Video {
        assert(v.contains(e)) by {
            if e == "mkv"@ { assert(v[0] == e); }
            else if e == "mp4"@ { assert(v[1] == e); }
            else if e == "webm"@ { assert(v[2] == e); }
            else if e == "m4v"@ { assert(v[3] == e); }
            else if e == "mov"@ { assert(v[4] == e); }
            else { assert(v[5] == e); }
        }
    }
    if kind_of_ext(e) == FileKind::Thumb {
        assert(t.contains(e)) by {
            if e == "webp"@ { assert(t[0] == e); }
            else if e == "jpg"@ { assert(t[1] == e); }
            else if e == "jpeg"@ { assert(t[2] == e); }
            else { assert(t[3] == e); }
        }
    }
}

/// Law: a file that is not a sidecar (`.info.json`, `.live_chat.json`) is
/// listed as a video exactly when its extension, in any letter case, is a
/// video container.
pub proof fn lemma_video_files(name: Seq<char>)
    ensures
        match classify_file_spec(name) {
            Some((st, k)) => (k != FileKind::LiveChat && k != FileKind::Info) ==> match after_last_dot(name) {
                Some((stem, ext)) => (k == FileKind::Video <==> video_extensions().contains(unicode_lower(ext))),
                None => false,
            },
            None => true,
        },
{
    if let Some((st, k)) = classify_file_spec(name) {
        if k != FileKind::LiveChat && k != FileKind::Info {
            if let Some((stem, ext)) = after_last_dot(name) {
                lemma_extension_kinds(unicode_lower(ext));
            }
        }
    }
}

/// The video stem of a file and what the file is: `.live_chat.json` and
/// `.info.json` sidecars by suffix, everything else by the extension after
/// the last dot (`None` without a dot or with an empty stem).
pub open spec fn classify_file_spec(name: Seq<char>) -> Option<(Seq<char>, FileKind)> {
    match strip_suffix(name, ".live_chat.json"@) {
        Some(st) => Some((st, FileKind::LiveChat)),
        None => match strip_suffix(name, ".info.json"@) {
            Some(st) => Some((st, FileKind::Info)),
            None => match after_last_dot(name) {
                None => None,
                Some((st, ext)) => if st.len() == 0 {
                    None
                } else {
                    Some((st, kind_of_ext(unicode_lower(ext))))
                },
            },
        },
    }
}

/// Sort a file of a channel folder by what it is, returning its video stem.
pub fn classify_file(file_name: &str) -> (r: Option<(String, FileKind)>)
    ensures
        match r {
            Some((st, k)) => classify_file_spec(file_name@) == Some((st@, k)),
            None => classify_file_spec(file_name@) is None,
        },
{
    let s = chars_of(file_name);
    if let Some(st) = strip_suffix_vec(&s, ".live_chat.json") {
        return Some((string_of(&st), FileKind::LiveChat));
    }
    if let Some(st) = strip_suffix_vec(&s, ".info.json") {
        return Some((string_of(&st), FileKind::Info));
    }
    let dot = match rfind_char_in(&s, '.', s.len()) {
        Some(d) => d,
        None => return None,
    };
    proof {
        lemma_rfind_char_before(s@, '.', s@.len() as int);
    }
    let stem = slice(&s, 0, dot);
    if stem.len() == 0 {
        return None;
    }
    let ext_raw = slice(&s, dot + 1, s.len());
    assert(ext_raw@ =~= s@.skip(dot + 1));
    let lower = to_lowercase(string_of(&ext_raw).as_str());
    let ext = chars_of(lower.as_str());
    let kind = if eq_lit(&ext, "mkv") || eq_lit(&ext, "mp4") || eq_lit(&ext, "webm") || eq_lit(
        &ext,
        "m4v",
    ) || eq_lit(&ext, "mov") || eq_lit(&ext, "avi") {
        FileKind::Video
    } else if eq_lit(&ext, "webp") || eq_lit(&ext, "jpg") || eq_lit(&ext, "jpeg") || eq_lit(
        &ext,
        "png",
    ) {
        FileKind::Thumb
    } else if eq_lit(&ext, "description") {
        FileKind::Description
    } else {
        FileKind::Other
    };
    Some((string_of(&stem), kind))
}

/// `(video stem, language)` of a subtitle file `Title [id].<lang>.vtt` or
/// `.srt`: `None` for other files or without a language part.
pub open spec fn subtitle_parts_spec(name: Seq<char>) -> Option<(Seq<char>, Seq<char>)> {
    let sub = match strip_suffix(name, ".vtt"@) {
        Some(st) => Some(st),
        None => strip_suffix(name, ".srt"@),
    };
    match sub {
        None => None,
        Some(st) => after_last_dot(st),
    }
}

/// The video stem and language of a subtitle file name.
pub fn subtitle_parts(file_name: &str) -> (r: Option<(String, String)>)
    ensures
        match r {
            Some((st, lang)) => subtitle_parts_spec(file_name@) == Some((st@, lang@)),
            None => subtitle_parts_spec(file_name@) is None,
        },
{
    let s = chars_of(file_name);
    let sub = match strip_suffix_vec(&s, ".vtt") {
        Some(st) => st,
        None => match strip_suffix_vec(&s, ".srt") {
            Some(st) => st,
            None => return None,
        },
    };
    let dot = match rfind_char_in(&sub, '.', sub.len()) {
        Some(d) => d,
        None => return None,
    };
    proof {
        lemma_rfind_char_before(sub@, '.', sub@.len() as int);
    }
    let stem = slice(&sub, 0, dot);
    let lang = slice(&sub, dot + 1, sub.len());
    assert(lang@ =~= sub@.skip(dot + 1));
    Some((string_of(&stem), string_of(&lang)))
}

// ── Grouping a folder listing into videos ────────────────────────────────────

/// What a folder entry contributes to a video: its stem and kind, for a
/// file that is no subtitle and whose stem names a video (`Title [ID]`).
pub open spec fn entry_of(name: Seq<char>) -> Option<(Seq<char>, FileKind)> {
    if subtitle_parts_spec(name) is Some {
        None
    } else {
        match classify_file_spec(name) {
            Some((st, k)) => if parse_stem_spec(st) is Some {
                Some((st, k))
            } else {
                None
            },
            None => None,
        }
    }
}

/// The video stems named by a listing.
pub open spec fn entry_stems(fs: Seq<Seq<char>>) -> Set<Seq<char>>
    decreases fs.len(),
{
    if fs.len() == 0 {
        Set::empty()
    } else {
        match entry_of(fs.last()) {
            Some((st, _)) => entry_stems(fs.drop_last()).insert(st),
            None => entry_stems(fs.drop_last()),
        }
    }
}

/// The first file of the listing that is a `k` of video `st`.
pub open spec fn first_kind(fs: Seq<Seq<char>>, st: Seq<char>, k: FileKind) -> Option<Seq<char>>
    decreases fs.len(),
{
    if fs.len() == 0 {
        None
    } else {
        match first_kind(fs.drop_last(), st, k) {
            Some(n) => Some(n),
            None => if entry_of(fs.last()) == Some((st, k)) {
                Some(fs.last())
            } else {
                None
            },
        }
    }
}

/// The last file of the listing that is a `k` of video `st`.
pub open spec fn last_kind(fs: Seq<Seq<char>>, st: Seq<char>, k: FileKind) -> Option<Seq<char>>
    decreases fs.len(),
{
    if fs.len() == 0 {
        None
    } else if entry_of(fs.last()) == Some((st, k)) {
        Some(fs.last())
    } else {
        last_kind(fs.drop_last(), st, k)
    }
}

/// The subtitles of video `st` in listing order: `(language, path)`.
pub open spec fn subs_of(dir: Seq<char>, fs: Seq<Seq<char>>, st: Seq<char>) -> Seq<(Seq<char>, Seq<char>)>
    decreases fs.len(),
{
    if fs.len() == 0 {
        seq![]
    } else {
        match subtitle_parts_spec(fs.last()) {
            Some((s2, lang)) => if s2 == st {
                subs_of(dir, fs.drop_last(), st).push((lang, path_join(dir, fs.last())))
            } else {
                subs_of(dir, fs.drop_last(), st)
            },
            None => subs_of(dir, fs.drop_last(), st),
        }
    }
}

/// Where `x` goes in `s` when inserted after every entry whose language
/// does not sort after its own (searching from `j`).
pub open spec fn lang_slot(s: Seq<(Seq<char>, Seq<char>)>, x: (Seq<char>, Seq<char>), j: int) -> int
    decreases s.len() - j,
{
    if j >= s.len() {
        s.len() as int
    } else if lex_lt(x.0, s[j].0) {
        j
    } else {
        lang_slot(s, x, j + 1)
    }
}

/// `s` stably sorted by language (the first component).
pub open spec fn by_lang(s: Seq<(Seq<char>, Seq<char>)>) -> Seq<(Seq<char>, Seq<char>)>
    decreases s.len(),
{
    if s.len() == 0 {
        s
    } else {
        let t = by_lang(s.drop_last());
        t.insert(lang_slot(t, s.last(), 0), s.last())
    }
}

/// The `(language, path)` pairs of subtitle tracks.
pub open spec fn sub_views(v: Seq<Subtitle>) -> Seq<(Seq<char>, Seq<char>)> {
    v.map_values(|s: Subtitle| (s.lang@, s.path@))
}

/// The view of an optional string.
pub open spec fn opt_view(o: Option<String>) -> Option<Seq<char>> {
    match o {
        Some(s) => Some(s@),
        None => None,
    }
}

/// A file name as a path inside `dir`.
pub open spec fn joined(dir: Seq<char>, o: Option<Seq<char>>) -> Option<Seq<char>> {
    match o {
        Some(n) => Some(path_join(dir, n)),
        None => None,
    }
}

/// The files of one video, gathered from a folder listing.
#[derive(Clone, Debug)]
pub struct RawVideo {
    pub id: String,
    pub title: String,
    pub stem: String,
    pub video_path: Option<String>,
    pub thumb_path: Option<String>,
    pub description_path: Option<String>,
    pub info_path: Option<String>,
    /// Subtitle tracks, sorted by language.
    pub subtitles: Vec<Subtitle>,
    pub has_live_chat: bool,
}

/// `r` is what listing `fs` of folder `dir` says of the video with `r`'s
/// stem: title and id from the stem, the first video and thumbnail file,
/// the last description and info sidecar, and whether a live-chat replay
/// exists.
pub open spec fn raw_files_ok(r: RawVideo, dir: Seq<char>, fs: Seq<Seq<char>>) -> bool {
    let st = r.stem@;
    &&& parse_stem_spec(st) == Some((r.title@, r.id@))
    &&& opt_view(r.video_path) == joined(dir, first_kind(fs, st, FileKind::Video))
    &&& opt_view(r.thumb_path) == joined(dir, first_kind(fs, st, FileKind::Thumb))
    &&& opt_view(r.description_path) == joined(dir, last_kind(fs, st, FileKind::Description))
    &&& opt_view(r.info_path) == joined(dir, last_kind(fs, st, FileKind::Info))
    &&& r.has_live_chat == last_kind(fs, st, FileKind::LiveChat) is Some
}

/// The videos are in strictly increasing stem order.
pub open spec fn stems_sorted(r: Seq<RawVideo>) -> bool {
    forall|i: int, j: int| 0 <= i < j < r.len() ==> lex_lt(#[trigger] r[i].stem@, #[trigger] r[j].stem@)
}

/// The stems of a list of videos.
pub open spec fn stem_set(r: Seq<RawVideo>) -> Set<Seq<char>> {
    Set::new(|st: Seq<char>| exists|i: int| 0 <= i < r.len() && #[trigger] r[i].stem@ == st)
}

/// One more file in a listing changes nothing for the other (stem, kind)
/// pairs, and for its own pair it is the last file and, unless one came
/// before, the first.
proof fn lemma_listing_step(pre: Seq<Seq<char>>, name: Seq<char>, st: Seq<char>, k: FileKind, dir: Seq<char>)
    ensures
        ({
            let fs = pre.push(name);
            &&& entry_of(name) == Some((st, k)) ==> {
                &&& first_kind(fs, st, k) == match first_kind(pre, st, k) {
                    Some(n) => Some(n),
                    None => Some(name),
                }
                &&& last_kind(fs, st, k) == Some(name)
            }
            &&& entry_of(name) != Some((st, k)) ==> {
                &&& first_kind(fs, st, k) == first_kind(pre, st, k)
                &&& last_kind(fs, st, k) == last_kind(pre, st, k)
            }
            &&& entry_stems(fs) == match entry_of(name) {
                Some((s2, _)) => entry_stems(pre).insert(s2),
                None => entry_stems(pre),
            }
            &&& subs_of(dir, fs, st) == match subtitle_parts_spec(name) {
                Some((s2, lang)) => if s2 == st {
                    subs_of(dir, pre, st).push((lang, path_join(dir, name)))
                } else {
                    subs_of(dir, pre, st)
                },
                None => subs_of(dir, pre, st),
            }
        }),
{
    let fs = pre.push(name);
    assert(fs.drop_last() =~= pre);
    assert(fs.last() == name);
}

/// A stem that no file of the listing names has no files of any kind.
proof fn lemma_absent_stem(fs: Seq<Seq<char>>, st: Seq<char>, k: FileKind)
    requires
        !entry_stems(fs).contains(st),
    ensures
        first_kind(fs, st, k) is None,
        last_kind(fs, st, k) is None,
    decreases fs.len(),
{
    if fs.len() > 0 {
        assert(!entry_stems(fs.drop_last()).contains(st));
        lemma_absent_stem(fs.drop_last(), st, k);
    }
}

/// Sorted stems are distinct.
proof fn lemma_sorted_distinct(r: Seq<RawVideo>, i: int, j: int)
    requires
        stems_sorted(r),
        0 <= i < r.len(),
        0 <= j < r.len(),
        i != j,
    ensures
        r[i].stem@ != r[j].stem@,
{
    lemma_lex_asym(r[i].stem@, r[j].stem@);
    lemma_lex_asym(r[j].stem@, r[i].stem@);
}

/// File `name` (entry `(st, kind)`, stem parsed to `(title, id)`) joins
/// the videos gathered so far from listing `pre`.
#[verifier::rlimit(40)]
fn add_entry(
    out: &mut Vec<RawVideo>,
    dir: &str,
    name: &str,
    st: String,
    kind: FileKind,
    title: String,
    id: String,
    Ghost(pre): Ghost<Seq<Seq<char>>>,
)
    requires
        entry_of(name@) == Some((st@, kind)),
        parse_stem_spec(st@) == Some((title@, id@)),
        stems_sorted(old(out)@),
        stem_set(old(out)@) == entry_stems(pre),
        forall|i: int| 0 <= i < old(out)@.len() ==> raw_files_ok(#[trigger] old(out)@[i], dir@, pre),
        forall|i: int| 0 <= i < old(out)@.len() ==> (#[trigger] old(out)@[i]).subtitles@.len() == 0,
    ensures
        stems_sorted(final(out)@),
        stem_set(final(out)@) == entry_stems(pre.push(name@)),
        forall|i: int| 0 <= i < final(out)@.len() ==> raw_files_ok(#[trigger] final(out)@[i], dir@, pre.push(name@)),
        forall|i: int| 0 <= i < final(out)@.len() ==> (#[trigger] final(out)@[i]).subtitles@.len() == 0,
{
    let ghost fs = pre.push(name@);
    let ghost old_out = out@;
    proof {
        lemma_listing_step(pre, name@, st@, kind, dir@);
        assert forall|i: int, k: FileKind| 0 <= i < old_out.len() && old_out[i].stem@ != st@ implies {
            &&& first_kind(fs, old_out[i].stem@, k) == first_kind(pre, old_out[i].stem@, k)
            &&& last_kind(fs, old_out[i].stem@, k) == last_kind(pre, old_out[i].stem@, k)
        } by {
            lemma_listing_step(pre, name@, old_out[i].stem@, k, dir@);
        }
    }
    let sv = chars_of(st.as_str());
    let mut j: usize = 0;
    while j < out.len() && lex_less(&chars_of(out[j].stem.as_str()), &sv)
        invariant
            j <= out@.len(),
            out@ == old_out,
            sv@ == st@,
            forall|i: int| 0 <= i < j ==> lex_lt(#[trigger] out@[i].stem@, st@),
        decreases out.len() - j,
    {
        j += 1;
    }
    let found = j < out.len() && eq_vec(&chars_of(out[j].stem.as_str()), &sv);
    let joined_path = crate::paths::join(dir, name);
    if found {
        let mut e = out.remove(j);
        match kind {
            FileKind::Video => {
                if e.video_path.is_none() {
                    e.video_path = Some(joined_path);
                }
            },
            FileKind::Thumb => {
                if e.thumb_path.is_none() {
                    e.thumb_path = Some(joined_path);
                }
            },
            FileKind::Description => {
                e.description_path = Some(joined_path);
            },
            FileKind::Info => {
                e.info_path = Some(joined_path);
            },
            FileKind::LiveChat => {
                e.has_live_chat = true;
            },
            FileKind::Other => {},
        }
        out.insert(j, e);
        proof {
            assert(out@ =~= old_out.update(j as int, e));
            assert forall|k: FileKind| true implies {
                &&& first_kind(fs, st@, k) == (if k == kind {
                    match first_kind(pre, st@, k) {
                        Some(n) => Some(n),
                        None => Some(name@),
                    }
                } else {
                    first_kind(pre, st@, k)
                })
                &&& last_kind(fs, st@, k) == (if k == kind {
                    Some(name@)
                } else {
                    last_kind(pre, st@, k)
                })
            } by {
                lemma_listing_step(pre, name@, st@, k, dir@);
            }
            assert(raw_files_ok(out@[j as int], dir@, fs));
            assert forall|i: int| 0 <= i < out@.len() implies raw_files_ok(#[trigger] out@[i], dir@, fs) by {
                if i != j {
                    lemma_sorted_distinct(old_out, i, j as int);
                }
            }
            assert(entry_stems(fs) =~= entry_stems(pre).insert(st@));
            assert(stem_set(out@) =~= stem_set(old_out)) by {
                assert forall|x: Seq<char>| stem_set(old_out).contains(x) implies stem_set(out@).contains(x) by {
                    let w = choose|w: int| 0 <= w < old_out.len() && #[trigger] old_out[w].stem@ == x;
                    assert(out@[w].stem@ == x);
                }
                assert forall|x: Seq<char>| stem_set(out@).contains(x) implies stem_set(old_out).contains(x) by {
                    let w = choose|w: int| 0 <= w < out@.len() && #[trigger] out@[w].stem@ == x;
                    assert(old_out[w].stem@ == x);
                }
            }
            assert(stem_set(old_out).contains(st@)) by {
                assert(old_out[j as int].stem@ == st@);
            }
            assert(stem_set(out@) =~= entry_stems(fs));
        }
    } else {
        let e = RawVideo {
            id,
            title,
            stem: st,
            video_path: if kind == FileKind::Video {
                Some(joined_path.clone())
            } else {
                None
            },
            thumb_path: if kind == FileKind::Thumb {
                Some(joined_path.clone())
            } else {
                None
            },
            description_path: if kind == FileKind::Description {
                Some(joined_path.clone())
            } else {
                None
            },
            info_path: if kind == FileKind::Info {
                Some(joined_path)
            } else {
                None
            },
            subtitles: Vec::new(),
            has_live_chat: kind == FileKind::LiveChat,
        };
        let ghost stv = e.stem@;
        proof {
            // The new stem sorts strictly between its neighbours.
            if j < old_out.len() {
                assert(old_out[j as int].stem@ != stv);
                assert(!lex_lt(old_out[j as int].stem@, stv));
                lemma_lex_total(old_out[j as int].stem@, stv);
            }
            assert forall|i: int| j <= i < old_out.len() implies lex_lt(stv, #[trigger] old_out[i].stem@) by {
                if i > j {
                    lemma_lex_trans(stv, old_out[j as int].stem@, old_out[i].stem@);
                }
            }
            assert(!stem_set(old_out).contains(stv)) by {
                if stem_set(old_out).contains(stv) {
                    let w = choose|w: int| 0 <= w < old_out.len() && #[trigger] old_out[w].stem@ == stv;
                    if w < j {
                        lemma_lex_asym(stv, stv);
                    } else {
                        lemma_lex_asym(stv, stv);
                    }
                }
            }
            assert forall|k: FileKind| true implies first_kind(pre, stv, k) is None && last_kind(pre, stv, k) is None by {
                lemma_absent_stem(pre, stv, k);
            }
            assert forall|k: FileKind| true implies {
                &&& first_kind(fs, stv, k) == (if k == kind {
                    Some(name@)
                } else {
                    None
                })
                &&& last_kind(fs, stv, k) == (if k == kind {
                    Some(name@)
                } else {
                    None
                })
            } by {
                lemma_listing_step(pre, name@, stv, k, dir@);
            }
        }
        out.insert(j, e);
        proof {
            assert(out@ =~= old_out.insert(j as int, e));
            assert(raw_files_ok(out@[j as int], dir@, fs));
            assert forall|i: int| 0 <= i < out@.len() implies raw_files_ok(#[trigger] out@[i], dir@, fs) by {
                if i < j {
                    assert(out@[i] == old_out[i]);
                    assert(old_out[i].stem@ != stv) by {
                        lemma_lex_asym(old_out[i].stem@, stv);
                    }
                } else if i > j {
                    assert(out@[i] == old_out[i - 1]);
                    assert(old_out[i - 1].stem@ != stv) by {
                        lemma_lex_asym(stv, old_out[i - 1].stem@);
                    }
                }
            }
            assert forall|a: int, b: int| 0 <= a < b < out@.len() implies lex_lt(
                #[trigger] out@[a].stem@,
                #[trigger] out@[b].stem@,
            ) by {
                if b < j {
                } else if b == j {
                } else if a < j {
                    assert(lex_lt(old_out[a].stem@, stv));
                    assert(lex_lt(stv, old_out[b - 1].stem@));
                    lemma_lex_trans(old_out[a].stem@, stv, old_out[b - 1].stem@);
                } else if a == j {
                } else {
                    assert(lex_lt(old_out[a - 1].stem@, old_out[b - 1].stem@));
                }
            }
            assert(entry_stems(fs) =~= entry_stems(pre).insert(stv));
            assert(stem_set(out@) =~= stem_set(old_out).insert(stv)) by {
                assert forall|x: Seq<char>| stem_set(old_out).insert(stv).contains(x) implies stem_set(out@).contains(x) by {
                    if x == stv {
                        assert(out@[j as int].stem@ == x);
                    } else {
                        let w = choose|w: int| 0 <= w < old_out.len() && #[trigger] old_out[w].stem@ == x;
                        if w < j {
                            assert(out@[w].stem@ == x);
                        } else {
                            assert(out@[w + 1].stem@ == x);
                        }
                    }
                }
                assert forall|x: Seq<char>| stem_set(out@).contains(x) implies stem_set(old_out).insert(stv).contains(x) by {
                    let w = choose|w: int| 0 <= w < out@.len() && #[trigger] out@[w].stem@ == x;
                    if w < j {
                        assert(old_out[w].stem@ == x);
                    } else if w > j {
                        assert(old_out[w - 1].stem@ == x);
                    }
                }
            }
        }
    }
}

/// Sort subtitle tracks stably by language.
pub fn sort_by_lang(v: Vec<Subtitle>) -> (r: Vec<Subtitle>)
    ensures
        sub_views(r@) == by_lang(sub_views(v@)),
{
    let ghost orig = sub_views(v@);
    let mut v = v;
    let mut out: Vec<Subtitle> = Vec::new();
    assert(orig.take(0) =~= seq![]);
    while v.len() > 0
        invariant
            v@.len() <= orig.len(),
            sub_views(v@) == orig.skip(orig.len() - v@.len()),
            sub_views(out@) == by_lang(orig.take(orig.len() - v@.len())),
        decreases v@.len(),
    {
        let ghost k: int = orig.len() - v@.len();
        let ghost t = sub_views(out@);
        let ghost before = v@;
        assert(sub_views(before)[0] == orig[k]);
        let x = v.remove(0);
        assert(v@ =~= before.drop_first());
        assert(sub_views(v@) =~= sub_views(before).drop_first());
        assert(orig.skip(k + 1) =~= orig.skip(k).drop_first());
        let xl = chars_of(x.lang.as_str());
        let mut j: usize = 0;
        while j < out.len() && !lex_less(&xl, &chars_of(out[j].lang.as_str()))
            invariant
                j <= out@.len(),
                sub_views(out@) == t,
                xl@ == x.lang@,
                lang_slot(t, (x.lang@, x.path@), 0) == lang_slot(t, (x.lang@, x.path@), j as int),
            decreases out.len() - j,
        {
            j += 1;
        }
        let ghost xv = (x.lang@, x.path@);
        assert(lang_slot(t, xv, j as int) == j);
        out.insert(j, x);
        assert(orig.take(k + 1).drop_last() =~= orig.take(k));
        assert(orig.take(k + 1).last() == xv);
        assert(sub_views(out@) =~= t.insert(j as int, xv));
    }
    assert(orig.take(orig.len() as int) =~= orig);
    out
}

/// Group the files of one folder listing into videos. `files` are the
/// names of the regular files in folder `dir`, in listing order. A file
/// `Title [ID].<ext>` belongs to the video with stem `Title [ID]`:
/// `.live_chat.json` and `.info.json` sidecars by suffix, videos,
/// thumbnails and descriptions by extension, and `Title [ID].<lang>.vtt`
/// or `.srt` subtitles to the video of that stem when there is one.
/// Videos come out sorted by stem, each with the first video and
/// thumbnail file, the last description and info sidecar, and its
/// subtitles sorted by language.
pub fn collect_raw_videos(dir: &str, files: &Vec<String>) -> (r: Vec<RawVideo>)
    ensures
        stems_sorted(r@),
        stem_set(r@) == entry_stems(strings(files@)),
        forall|i: int| 0 <= i < r@.len() ==> raw_files_ok(#[trigger] r@[i], dir@, strings(files@)),
        forall|i: int| 0 <= i < r@.len() ==> sub_views((#[trigger] r@[i]).subtitles@) == by_lang(
            subs_of(dir@, strings(files@), r@[i].stem@),
        ),
{
    let ghost fs = strings(files@);
    let mut out: Vec<RawVideo> = Vec::new();
    let mut n: usize = 0;
    assert(entry_stems(fs.take(0)) =~= Set::empty());
    assert(stem_set(out@) =~= Set::empty());
    while n < files.len()
        invariant
            n <= files@.len(),
            fs == strings(files@),
            stems_sorted(out@),
            stem_set(out@) == entry_stems(fs.take(n as int)),
            forall|i: int| 0 <= i < out@.len() ==> raw_files_ok(#[trigger] out@[i], dir@, fs.take(n as int)),
            forall|i: int| 0 <= i < out@.len() ==> (#[trigger] out@[i]).subtitles@.len() == 0,
        decreases files.len() - n,
    {
        let name = files[n].as_str();
        assert(fs.take(n + 1) =~= fs.take(n as int).push(name@));
        proof {
            lemma_listing_step(fs.take(n as int), name@, seq![], FileKind::Other, dir@);
        }
        if subtitle_parts(name).is_none() {
            if let Some((st, kind)) = classify_file(name) {
                if let Some((title, id)) = parse_stem(st.as_str()) {
                    add_entry(&mut out, dir, name, st, kind, title, id, Ghost(fs.take(n as int)));
                } else {
                    proof {
                        assert forall|i: int| 0 <= i < out@.len() implies raw_files_ok(
                            #[trigger] out@[i],
                            dir@,
                            fs.take(n + 1),
                        ) by {
                            assert forall|k: FileKind| true implies first_kind(fs.take(n + 1), out@[i].stem@, k)
                                == first_kind(fs.take(n as int), out@[i].stem@, k) && last_kind(
                                fs.take(n + 1),
                                out@[i].stem@,
                                k,
                            ) == last_kind(fs.take(n as int), out@[i].stem@, k) by {
                                lemma_listing_step(fs.take(n as int), name@, out@[i].stem@, k, dir@);
                            }
                        }
                    }
                }
            } else {
                proof {
                    assert forall|i: int| 0 <= i < out@.len() implies raw_files_ok(
                        #[trigger] out@[i],
                        dir@,
                        fs.take(n + 1),
                    ) by {
                        assert forall|k: FileKind| true implies first_kind(fs.take(n + 1), out@[i].stem@, k)
                            == first_kind(fs.take(n as int), out@[i].stem@, k) && last_kind(
                            fs.take(n + 1),
                            out@[i].stem@,
                            k,
                        ) == last_kind(fs.take(n as int), out@[i].stem@, k) by {
                            lemma_listing_step(fs.take(n as int), name@, out@[i].stem@, k, dir@);
                        }
                    }
                }
            }
        } else {
            proof {
                assert forall|i: int| 0 <= i < out@.len() implies raw_files_ok(
                    #[trigger] out@[i],
                    dir@,
                    fs.take(n + 1),
                ) by {
                    assert forall|k: FileKind| true implies first_kind(fs.take(n + 1), out@[i].stem@, k)
                        == first_kind(fs.take(n as int), out@[i].stem@, k) && last_kind(
                        fs.take(n + 1),
                        out@[i].stem@,
                        k,
                    ) == last_kind(fs.take(n as int), out@[i].stem@, k) by {
                        lemma_listing_step(fs.take(n as int), name@, out@[i].stem@, k, dir@);
                    }
                }
            }
        }
        n += 1;
    }
    assert(fs.take(n as int) =~= fs);
    let ghost gathered = out@;
    attach_subtitles(&mut out, dir, files);
    sort_all_subtitles(&mut out, Ghost(dir@), Ghost(fs));
    proof {
        lemma_same_stems(gathered, out@);
    }
    out
}

/// Two lists of videos with the same stems, index by index, have the same
/// stem set and are sorted alike.
proof fn lemma_same_stems(a: Seq<RawVideo>, b: Seq<RawVideo>)
    requires
        a.len() == b.len(),
        forall|i: int| 0 <= i < a.len() ==> (#[trigger] a[i]).stem == b[i].stem,
    ensures
        stem_set(a) == stem_set(b),
        stems_sorted(a) ==> stems_sorted(b),
{
    assert forall|x: Seq<char>| stem_set(a).contains(x) implies stem_set(b).contains(x) by {
        let w = choose|w: int| 0 <= w < a.len() && #[trigger] a[w].stem@ == x;
        assert(b[w].stem@ == x);
    }
    assert forall|x: Seq<char>| stem_set(b).contains(x) implies stem_set(a).contains(x) by {
        let w = choose|w: int| 0 <= w < b.len() && #[trigger] b[w].stem@ == x;
        assert(a[w].stem == b[w].stem);
    }
    assert(stem_set(a) =~= stem_set(b));
    if stems_sorted(a) {
        assert forall|i: int, j: int| 0 <= i < j < b.len() implies lex_lt(#[trigger] b[i].stem@, #[trigger] b[j].stem@) by {
            assert(a[i].stem == b[i].stem);
            assert(a[j].stem == b[j].stem);
        }
    }
}

/// Attach each subtitle file of the listing, in order, to the video of its
/// stem (files of unknown stems are dropped).
fn attach_subtitles(out: &mut Vec<RawVideo>, dir: &str, files: &Vec<String>)
    requires
        stems_sorted(old(out)@),
        forall|i: int| 0 <= i < old(out)@.len() ==> (#[trigger] old(out)@[i]).subtitles@.len() == 0,
    ensures
        final(out)@.len() == old(out)@.len(),
        forall|i: int| 0 <= i < final(out)@.len() ==> {
            &&& (#[trigger] final(out)@[i]).stem == old(out)@[i].stem
            &&& final(out)@[i].id == old(out)@[i].id
            &&& final(out)@[i].title == old(out)@[i].title
            &&& final(out)@[i].video_path == old(out)@[i].video_path
            &&& final(out)@[i].thumb_path == old(out)@[i].thumb_path
            &&& final(out)@[i].description_path == old(out)@[i].description_path
            &&& final(out)@[i].info_path == old(out)@[i].info_path
            &&& final(out)@[i].has_live_chat == old(out)@[i].has_live_chat
            &&& sub_views(final(out)@[i].subtitles@) == subs_of(dir@, strings(files@), final(out)@[i].stem@)
        },
{
    let ghost fs = strings(files@);
    let ghost start = out@;
    let mut n: usize = 0;
    assert forall|i: int| 0 <= i < out@.len() implies sub_views((#[trigger] out@[i]).subtitles@)
        == subs_of(dir@, fs.take(0), out@[i].stem@) by {
        assert(sub_views(out@[i].subtitles@) =~= seq![]);
    }
    while n < files.len()
        invariant
            n <= files@.len(),
            fs == strings(files@),
            out@.len() == start.len(),
            stems_sorted(start),
            forall|i: int| 0 <= i < out@.len() ==> {
                &&& (#[trigger] out@[i]).stem == start[i].stem
                &&& out@[i].id == start[i].id
                &&& out@[i].title == start[i].title
                &&& out@[i].video_path == start[i].video_path
                &&& out@[i].thumb_path == start[i].thumb_path
                &&& out@[i].description_path == start[i].description_path
                &&& out@[i].info_path == start[i].info_path
                &&& out@[i].has_live_chat == start[i].has_live_chat
                &&& sub_views(out@[i].subtitles@) == subs_of(dir@, fs.take(n as int), out@[i].stem@)
            },
        decreases files.len() - n,
    {
        let name = files[n].as_str();
        let ghost pre = fs.take(n as int);
        assert(fs.take(n + 1) =~= pre.push(name@));
        proof {
            assert forall|i: int| 0 <= i < out@.len() implies subs_of(dir@, fs.take(n + 1), #[trigger] out@[i].stem@)
                == match subtitle_parts_spec(name@) {
                Some((s2, lang)) => if s2 == out@[i].stem@ {
                    subs_of(dir@, pre, out@[i].stem@).push((lang, path_join(dir@, name@)))
                } else {
                    subs_of(dir@, pre, out@[i].stem@)
                },
                None => subs_of(dir@, pre, out@[i].stem@),
            } by {
                lemma_listing_step(pre, name@, out@[i].stem@, FileKind::Other, dir@);
            }
        }
        if let Some((st, lang)) = subtitle_parts(name) {
            let sv = chars_of(st.as_str());
            let mut j: usize = 0;
            while j < out.len() && !eq_vec(&chars_of(out[j].stem.as_str()), &sv)
                invariant
                    j <= out@.len(),
                    sv@ == st@,
                    forall|i: int| 0 <= i < j ==> (#[trigger] out@[i]).stem@ != st@,
                decreases out.len() - j,
            {
                j += 1;
            }
            if j < out.len() {
                let ghost before = out@;
                let mut e = out.remove(j);
                let ghost es = e.subtitles@;
                e.subtitles.push(Subtitle { lang, path: crate::paths::join(dir, name) });
                assert(sub_views(e.subtitles@) =~= sub_views(es).push((lang@, path_join(dir@, name@))));
                out.insert(j, e);
                assert(out@ =~= before.update(j as int, e));
                assert forall|i: int| 0 <= i < out@.len() && i != j implies (#[trigger] out@[i]).stem@ != st@ by {
                    assert(out@[i].stem == start[i].stem);
                    assert(out@[j as int].stem == start[j as int].stem);
                    lemma_sorted_distinct(start, i, j as int);
                }
            }
        }
        n += 1;
    }
    assert(fs.take(n as int) =~= fs);
}

/// Sort the subtitles of every video by language.
fn sort_all_subtitles(out: &mut Vec<RawVideo>, Ghost(dir): Ghost<Seq<char>>, Ghost(fs): Ghost<Seq<Seq<char>>>)
    requires
        forall|i: int| 0 <= i < old(out)@.len() ==> sub_views((#[trigger] old(out)@[i]).subtitles@) == subs_of(
            dir,
            fs,
            old(out)@[i].stem@,
        ),
    ensures
        final(out)@.len() == old(out)@.len(),
        forall|i: int| 0 <= i < final(out)@.len() ==> {
            &&& (#[trigger] final(out)@[i]).stem == old(out)@[i].stem
            &&& final(out)@[i].id == old(out)@[i].id
            &&& final(out)@[i].title == old(out)@[i].title
            &&& final(out)@[i].video_path == old(out)@[i].video_path
            &&& final(out)@[i].thumb_path == old(out)@[i].thumb_path
            &&& final(out)@[i].description_path == old(out)@[i].description_path
            &&& final(out)@[i].info_path == old(out)@[i].info_path
            &&& final(out)@[i].has_live_chat == old(out)@[i].has_live_chat
            &&& sub_views(final(out)@[i].subtitles@) == by_lang(subs_of(dir, fs, final(out)@[i].stem@))
        },
{
    let ghost start = out@;
    let mut i: usize = 0;
    while i < out.len()
        invariant
            i <= out@.len(),
            out@.len() == start.len(),
            forall|a: int| 0 <= a < out@.len() ==> {
                &&& (#[trigger] out@[a]).stem == start[a].stem
                &&& out@[a].id == start[a].id
                &&& out@[a].title == start[a].title
                &&& out@[a].video_path == start[a].video_path
                &&& out@[a].thumb_path == start[a].thumb_path
                &&& out@[a].description_path == start[a].description_path
                &&& out@[a].info_path == start[a].info_path
                &&& out@[a].has_live_chat == start[a].has_live_chat
                &&& sub_views(out@[a].subtitles@) == if a < i {
                    by_lang(subs_of(dir, fs, out@[a].stem@))
                } else {
                    subs_of(dir, fs, out@[a].stem@)
                }
            },
        decreases out.len() - i,
    {
        let ghost before = out@;
        let e0 = out.remove(i);
        let RawVideo {
            id,
            title,
            stem,
            video_path,
            thumb_path,
            description_path,
            info_path,
            subtitles,
            has_live_chat,
        } = e0;
        let e = RawVideo {
            id,
            title,
            stem,
            video_path,
            thumb_path,
            description_path,
            info_path,
            subtitles: sort_by_lang(subtitles),
            has_live_chat,
        };
        out.insert(i, e);
        assert(out@ =~= before.update(i as int, e));
        i += 1;
    }
}

/// Where `lang_slot` puts `x`: after every entry whose language does not
/// sort after `x`'s, before the first that does.
proof fn lemma_lang_slot(s: Seq<(Seq<char>, Seq<char>)>, x: (Seq<char>, Seq<char>), j: int)
    requires
        0 <= j <= s.len(),
    ensures
        j <= lang_slot(s, x, j) <= s.len(),
        forall|k: int| j <= k < lang_slot(s, x, j) ==> !lex_lt(x.0, #[trigger] s[k].0),
        lang_slot(s, x, j) < s.len() ==> lex_lt(x.0, s[lang_slot(s, x, j)].0),
    decreases s.len() - j,
{
    if j < s.len() && !lex_lt(x.0, s[j].0) {
        lemma_lang_slot(s, x, j + 1);
    }
}

/// Subtitle tracks sorted by language keep all their entries, and come
/// out in non-decreasing language order.
pub proof fn lemma_by_lang_sorted(s: Seq<(Seq<char>, Seq<char>)>)
    ensures
        by_lang(s).len() == s.len(),
        by_lang(s).to_multiset() == s.to_multiset(),
        forall|i: int, j: int| 0 <= i < j < by_lang(s).len() ==> !lex_lt(
            #[trigger] by_lang(s)[j].0,
            #[trigger] by_lang(s)[i].0,
        ),
    decreases s.len(),
{
    broadcast use vstd::seq_lib::group_to_multiset_ensures;
    if s.len() == 0 {
        assert(by_lang(s).to_multiset() =~= s.to_multiset());
    } else {
        let t = by_lang(s.drop_last());
        let x = s.last();
        lemma_by_lang_sorted(s.drop_last());
        lemma_lang_slot(t, x, 0);
        let p = lang_slot(t, x, 0);
        let r = t.insert(p, x);
        assert(r == by_lang(s));
        assert(s =~= s.drop_last().push(x));
        vstd::seq_lib::to_multiset_insert(t, p, x);
        assert(s.to_multiset() =~= s.drop_last().to_multiset().insert(x));
        assert forall|i: int, j: int| 0 <= i < j < r.len() implies !lex_lt(#[trigger] r[j].0, #[trigger] r[i].0) by {
            if j < p {
                assert(r[i] == t[i] && r[j] == t[j]);
            } else if j == p {
                assert(r[i] == t[i]);
                assert(!lex_lt(x.0, t[i].0));
            } else if i < p {
                assert(r[i] == t[i] && r[j] == t[j - 1]);
            } else if i == p {
                assert(r[j] == t[j - 1]);
                assert(lex_lt(x.0, t[p].0));
                if lex_lt(t[j - 1].0, x.0) {
                    if j - 1 > p {
                        lemma_lex_trans(t[j - 1].0, x.0, t[p].0);
                    } else {
                        lemma_lex_asym(x.0, t[p].0);
                    }
                }
            } else {
                assert(r[i] == t[i - 1] && r[j] == t[j - 1]);
            }
        }
    }
}

} // verus!
