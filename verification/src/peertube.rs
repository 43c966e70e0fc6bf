//! PeerTube remotes: what a configured remote URL points at, and the
//! canonical watch URL of a video on it. The HTTP client that lists the
//! target's channels and videos lives with the rest of the network code.

use vstd::prelude::*;
use crate::text::{
    chars_of, eq_lit, extend, extend_str, find, find_char_at, find_char_from, find_vec,
    lemma_find_char_from, lemma_find_from, non_empty, non_empty_vec, slice, split_char,
    split_char_vec, string_of, trim, trim_end_char, trim_end_char_vec, trim_vec, views,
};

verus! {

/// What a PeerTube remote points at.
#[derive(Clone, Debug)]
pub enum Target {
    Instance,
    Account(String),
    Channel(String),
}

/// The view of a [`Target`].
pub enum TargetView {
    Instance,
    Account(Seq<char>),
    Channel(Seq<char>),
}

/// The view of a target.
pub open spec fn target_view(t: Target) -> TargetView {
    match t {
        Target::Instance => TargetView::Instance,
        Target::Account(n) => TargetView::Account(n@),
        Target::Channel(h) => TargetView::Channel(h@),
    }
}

/// One channel in a PeerTube target's channel list.
#[derive(Clone, Debug)]
pub struct RemoteChannelInfo {
    pub handle: String,
    pub display_name: String,
    pub video_count: Option<u64>,
    pub avatar_url: Option<String>,
}

/// The remote URL without surrounding white space and trailing slashes.
pub open spec fn trimmed_url(url: Seq<char>) -> Seq<char> {
    trim_end_char(trim(url), '/')
}

/// `(scheme://host[:port], path)` of a trimmed URL: the path starts at the
/// first `/` after `://`, and is empty when there is no `://` or no `/`.
pub open spec fn split_base(t: Seq<char>) -> (Seq<char>, Seq<char>) {
    match find(t, "://"@) {
        Some(i) => {
            let after = t.skip(i + 3);
            match find_char_from(after, '/', 0) {
                Some(j) => (t.take(i + 3 + j), after.skip(j)),
                None => (t, seq![]),
            }
        },
        None => (t, seq![]),
    }
}

/// The target named by the non-empty path segments: `/c/{h}` or
/// `/video-channels/{h}` is a channel, `/a/{n}` or `/accounts/{n}` an
/// account, anything else the whole instance.
pub open spec fn target_of(segs: Seq<Seq<char>>) -> TargetView {
    if segs.len() >= 2 && (segs[0] == "c"@ || segs[0] == "video-channels"@) {
        TargetView::Channel(segs[1])
    } else if segs.len() >= 2 && (segs[0] == "a"@ || segs[0] == "accounts"@) {
        TargetView::Account(segs[1])
    } else {
        TargetView::Instance
    }
}

/// The API base and target of a remote URL.
pub open spec fn parse_target_spec(url: Seq<char>) -> (Seq<char>, TargetView) {
    let (base, path) = split_base(trimmed_url(url));
    (base, target_of(non_empty(split_char(path, '/'))))
}

/// Derive the API base (`scheme://host[:port]`) and the target from a
/// remote URL. The handle or name is the segment after the marker, kept
/// verbatim (it may include `@host` for a federated channel).
pub fn parse_target(url: &str) -> (r: (String, Target))
    ensures
        (r.0@, target_view(r.1)) == parse_target_spec(url@),
{
    let u = chars_of(url);
    let t0 = trim_vec(&u);
    let t = trim_end_char_vec(&t0, '/');
    let sep = chars_of("://");
    proof {
        reveal_strlit("://");
    }
    let (base, path) = match find_vec(&t, &sep) {
        Some(i) => {
            proof {
                lemma_find_from(t@, sep@, 0);
            }
            let tl = t.len();
            assert(i + 3 <= tl);
            let after = slice(&t, i + 3, tl);
            assert(after@ =~= t@.skip(i + 3));
            proof {
                lemma_find_char_from(after@, '/', 0);
            }
            match find_char_at(&after, '/', 0) {
                Some(j) => {
                    let b = slice(&t, 0, i + 3 + j);
                    let p = slice(&after, j, after.len());
                    assert(p@ =~= after@.skip(j as int));
                    (b, p)
                },
                None => (t, Vec::new()),
            }
        },
        None => (t, Vec::new()),
    };
    assert((base@, path@) == split_base(trimmed_url(url@)));
    let segs = non_empty_vec(split_char_vec(&path, '/'));
    let target = if segs.len() >= 2 && (eq_lit(&segs[0], "c") || eq_lit(&segs[0], "video-channels")) {
        Target::Channel(string_of(&segs[1]))
    } else if segs.len() >= 2 && (eq_lit(&segs[0], "a") || eq_lit(&segs[0], "accounts")) {
        Target::Account(string_of(&segs[1]))
    } else {
        Target::Instance
    };
    (string_of(&base), target)
}

/// Canonical watch URL for a video: `<api_base>/w/<uuid>`.
pub fn watch_url(api_base: &str, uuid: &str) -> (r: String)
    ensures
        r@ == api_base@ + "/w/"@ + uuid@,
{
    let mut out: Vec<char> = Vec::new();
    extend_str(&mut out, api_base);
    extend_str(&mut out, "/w/");
    extend_str(&mut out, uuid);
    string_of(&out)
}

} // verus!
