//! The music library: which files under `music/` are tracks, what a
//! track's title, id and artist are, where its sidecars are looked for,
//! and the order tracks are listed in. Walking the folders, probing for
//! sidecars and reading durations (fractional seconds) are the caller's.

use vstd::prelude::*;
use crate::info::resolve_artist;
use crate::library::{parse_stem, parse_stem_spec};
use crate::order::{is_perm, pair_sorted, stable_order_pairs};
use crate::paths::{path_file_name, path_join, path_parent};
use crate::remote::{opt_json, Json};
use crate::text::{chars_of, eq_lit, rfind_char_in, rfind_char_before, slice, string_of, unicode_lower};

verus! {

/// An audio extension the music library lists (lower-case).
pub open spec fn audio_ext(e: Seq<char>) -> bool {
    e == "mp3"@ || e == "m4a"@ || e == "opus"@ || e == "flac"@ || e == "ogg"@ || e == "wav"@ || e == "aac"@
}

/// The audio extensions the music library lists, in the order a listing
/// shows them (lower-case).
pub open spec fn audio_extensions() -> Seq<Seq<char>> {
    seq!["mp3"@, "m4a"@, "opus"@, "flac"@, "ogg"@, "wav"@, "aac"@]
}

/// Law: an extension is a track's exactly when it is one of the listed
/// audio extensions; every audio type the podcast feed registers is one.
pub proof fn lemma_audio_extensions(e: Seq<char>)
    ensures
        audio_ext(e) <==> audio_extensions().contains(e),
        forall|i: int|
            0 <= i < crate::feed::registered_media_types().len() && #[trigger] crate::feed::registered_media_types()[i].1
                == "audio"@ ==> audio_ext(crate::feed::registered_media_types()[i].0),
{
    let a = audio_extensions();
    assert(a[0] == "mp3"@ && a[1] == "m4a"@ && a[2] == "opus"@ && a[3] == "flac"@ && a[4] == "ogg"@ && a[5] == "wav"@
        && a[6] == "aac"@);
    if a.contains(e) {
        let i = choose|i: int| 0 <= i < a.len() && a[i] == e;
        assert(0 <= i < 7);
    }
    if audio_ext(e) {
        assert(a.contains(e)) by {
            if e == "mp3"@ { assert(a[0] == e); }
            else if e == "m4a"@ { assert(a[1] == e); }
            else if e == "opus"@ { assert(a[2] == e); }
            else if e == "flac"@ { assert(a[3] == e); }
            else if e == "ogg"@ { assert(a[4] == e); }
            else if e == "wav"@ { assert(a[5] == e); }
            else { assert(a[6] == e); }
        }
    }
    let t = crate::feed::registered_media_types();
    reveal_strlit("audio");
    reveal_strlit("video");
    assert("audio"@[0] != "video"@[0]);
    assert forall|i: int| 0 <= i < t.len() && #[trigger] t[i].1 == "audio"@ implies audio_ext(t[i].0) by {
        assert(0 <= i < 13);
        if i < 7 {
            assert(t[i].1 == "video"@);
        }
    }
}

/// Whether `ext` (in any case) is an audio extension.
pub fn is_audio_ext(ext: &str) -> (b: bool)
    ensures
        b == audio_ext(unicode_lower(ext@)),
{
    let l = chars_of(crate::text::to_lowercase(ext).as_str());
    eq_lit(&l, "mp3") || eq_lit(&l, "m4a") || eq_lit(&l, "opus") || eq_lit(&l, "flac") || eq_lit(&l, "ogg")
        || eq_lit(&l, "wav") || eq_lit(&l, "aac")
}

/// A file name's stem and extension, split at its last `.` as
/// `Path::file_stem` and `Path::extension` document it: no extension when
/// the name has no `.`, or only a leading one.
pub open spec fn name_split(n: Seq<char>) -> Option<(Seq<char>, Seq<char>)> {
    match rfind_char_before(n, '.', n.len() as int) {
        Some(k) => if k > 0 {
            Some((n.subrange(0, k), n.subrange(k + 1, n.len() as int)))
        } else {
            None
        },
        None => None,
    }
}

/// An audio file of the music library: its folder, file stem, and the
/// title and id its stem carries (`Title [id]`).
#[derive(Clone, Debug)]
pub struct MusicFile {
    pub dir: String,
    pub stem: String,
    pub title: String,
    pub id: String,
}

/// The music file at `path`, if it is one: it has a file name with an
/// audio extension, a stem of the form `Title [id]`, and a folder.
pub open spec fn music_file_spec(path: Seq<char>) -> Option<(Seq<char>, Seq<char>, Seq<char>, Seq<char>)> {
    match path_file_name(path) {
        None => None,
        Some(n) => match name_split(n) {
            None => None,
            Some((stem, ext)) => if !audio_ext(unicode_lower(ext)) {
                None
            } else {
                match parse_stem_spec(stem) {
                    None => None,
                    Some((t, i)) => match path_parent(path) {
                        None => None,
                        Some(d) => Some((d, stem, t, i)),
                    },
                }
            },
        },
    }
}

/// The music file at `path` (see [`music_file_spec`]).
pub fn music_file(path: &str) -> (r: Option<MusicFile>)
    ensures
        match r {
            Some(m) => music_file_spec(path@) == Some((m.dir@, m.stem@, m.title@, m.id@)),
            None => music_file_spec(path@) is None,
        },
{
    let name = match crate::paths::file_name(path) {
        Some(n) => n,
        None => return None,
    };
    let v = chars_of(name.as_str());
    let k = match rfind_char_in(&v, '.', v.len()) {
        Some(k) => k,
        None => return None,
    };
    proof {
        crate::text::lemma_rfind_char_before(v@, '.', v@.len() as int);
    }
    if k == 0 {
        return None;
    }
    let stem = string_of(&slice(&v, 0, k));
    let ext = string_of(&slice(&v, k + 1, v.len()));
    if !is_audio_ext(ext.as_str()) {
        return None;
    }
    let (title, id) = match parse_stem(stem.as_str()) {
        Some(p) => p,
        None => return None,
    };
    let dir = match crate::paths::parent(path) {
        Some(d) => d,
        None => return None,
    };
    Some(MusicFile { dir, stem, title, id })
}

/// The sidecars looked for beside a track: thumbnails `<stem>.webp`,
/// `.jpg`, `.jpeg`, `.png` in that order (the first that exists is
/// used), and `<stem>.info.json`.
pub fn sidecar_paths(dir: &str, stem: &str) -> (r: (Vec<String>, String))
    ensures
        r.0@.len() == 4,
        r.0@[0]@ == path_join(dir@, stem@ + ".webp"@),
        r.0@[1]@ == path_join(dir@, stem@ + ".jpg"@),
        r.0@[2]@ == path_join(dir@, stem@ + ".jpeg"@),
        r.0@[3]@ == path_join(dir@, stem@ + ".png"@),
        r.1@ == path_join(dir@, stem@ + ".info.json"@),
{
    let mut thumbs: Vec<String> = Vec::new();
    thumbs.push(beside(dir, stem, ".webp"));
    thumbs.push(beside(dir, stem, ".jpg"));
    thumbs.push(beside(dir, stem, ".jpeg"));
    thumbs.push(beside(dir, stem, ".png"));
    (thumbs, beside(dir, stem, ".info.json"))
}

/// `dir/<stem><suffix>`.
fn beside(dir: &str, stem: &str, suffix: &str) -> (r: String)
    ensures
        r@ == path_join(dir@, stem@ + suffix@),
{
    let mut n = chars_of(stem);
    crate::text::extend_str(&mut n, suffix);
    crate::paths::join(dir, string_of(&n).as_str())
}

/// An audio track of the music library. Its duration (fractional
/// seconds) is kept by the caller.
#[derive(Clone, Debug)]
pub struct Track {
    pub id: String,
    pub title: String,
    pub artist: String,
    pub path: String,
    pub thumb_path: Option<String>,
    pub info_path: Option<String>,
    pub file_size: Option<u64>,
}

/// The track of a music file, given its top-level folder's name (the
/// fallback artist), its parsed info if it has a readable one, the
/// sidecars found and its size.
pub fn track_of(
    path: &str,
    m: MusicFile,
    folder_artist: &str,
    info: Option<&Json>,
    thumb_path: Option<String>,
    info_path: Option<String>,
    file_size: Option<u64>,
) -> (r: Track)
    ensures
        r.id@ == m.id@,
        r.title@ == m.title@,
        r.artist@ == resolve_artist(opt_json(info), folder_artist@),
        r.path@ == path@,
        r.thumb_path == thumb_path,
        r.info_path == info_path,
        r.file_size == file_size,
{
    let artist = crate::info::track_artist(info, folder_artist);
    Track { id: m.id, title: m.title, artist, path: String::from_str(path), thumb_path, info_path, file_size }
}

/// The sort key of a track: its lower-cased artist, then title.
pub open spec fn track_key(t: Track) -> (Seq<char>, Seq<char>) {
    (unicode_lower(t.artist@), unicode_lower(t.title@))
}

/// The positions of `tracks` in listing order: a stable sort by the
/// lower-cased (artist, title) pair.
pub fn track_order(tracks: &Vec<Track>) -> (p: Vec<usize>)
    ensures
        is_perm(p@, tracks@.len()),
        forall|i: int, j: int|
            0 <= i < j < p@.len() ==> crate::order::pair_before(
                track_key(tracks@[#[trigger] p@[i] as int]),
                track_key(tracks@[#[trigger] p@[j] as int]),
                p@[i],
                p@[j],
            ),
{
    let mut keys: Vec<(Vec<char>, Vec<char>)> = Vec::new();
    let mut i: usize = 0;
    while i < tracks.len()
        invariant
            i <= tracks@.len(),
            keys@.len() == i,
            forall|k: int| 0 <= k < i ==> crate::order::pair_view(#[trigger] keys@[k]) == track_key(tracks@[k]),
        decreases tracks.len() - i,
    {
        let a = chars_of(crate::text::to_lowercase(tracks[i].artist.as_str()).as_str());
        let t = chars_of(crate::text::to_lowercase(tracks[i].title.as_str()).as_str());
        keys.push((a, t));
        i += 1;
    }
    let p = stable_order_pairs(&keys);
    proof {
        assert forall|x: int, y: int| 0 <= x < y < p@.len() implies crate::order::pair_before(
            track_key(tracks@[#[trigger] p@[x] as int]),
            track_key(tracks@[#[trigger] p@[y] as int]),
            p@[x],
            p@[y],
        ) by {
            assert(crate::order::pair_view(keys@[p@[x] as int]) == track_key(tracks@[p@[x] as int]));
            assert(crate::order::pair_view(keys@[p@[y] as int]) == track_key(tracks@[p@[y] as int]));
        }
    }
    p
}

/// A hidden folder or file name (leading `.`), which scans skip.
pub fn is_hidden_name(name: &str) -> (b: bool)
    ensures
        b == (name@.len() > 0 && name@[0] == '.'),
{
    let v = chars_of(name);
    v.len() > 0 && v[0] == '.'
}

} // verus!
