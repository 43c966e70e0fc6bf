//! Browsing another catacomb instance: which URLs in its library JSON point
//! at its media, how the JSON is rewritten so they load straight from the
//! peer without a login, and how it is flattened into channels and videos
//! for the remote browser. The HTTP client lives with the rest of the
//! network code; it hands the parsed JSON over as a [`Json`] tree.

use vstd::prelude::*;
use crate::text::{
    begins, chars_of, contains, ends_with, eq_lit, eq_vec, extend_str, finishes, includes,
    starts_with, string_of,
};

verus! {

/// A path the peer serves media under.
pub open spec fn is_peer_media_spec(s: Seq<char>) -> bool {
    starts_with(s, "/files/"@) || starts_with(s, "/music-files/"@) || starts_with(
        s,
        "/api/transcode/"@,
    ) || starts_with(s, "/api/sub-vtt/"@)
}

/// True for the peer's media paths (raw files, music, transcoded streams,
/// subtitle tracks) — the paths its auth layer lets a token'd GET through.
pub fn is_peer_media_path(s: &str) -> (b: bool)
    ensures
        b == is_peer_media_spec(s@),
{
    let v = chars_of(s);
    begins(&v, "/files/") || begins(&v, "/music-files/") || begins(&v, "/api/transcode/") || begins(
        &v,
        "/api/sub-vtt/",
    )
}

/// A JSON key that holds a URL: `url` or anything ending in `_url`.
pub open spec fn is_url_key_spec(k: Seq<char>) -> bool {
    k == "url"@ || ends_with(k, "_url"@)
}

/// The replacement of a string value under key `key`: a peer media path
/// under a URL key becomes `{base}{path}{?|&}token={token}`; anything else
/// is left alone (`None`).
pub open spec fn rewrite_spec(key: Seq<char>, value: Seq<char>, base: Seq<char>, token: Seq<char>) -> Option<
    Seq<char>,
> {
    if is_url_key_spec(key) && is_peer_media_spec(value) {
        Some(
            base + value + (if contains(value, "?"@) {
                "&"@
            } else {
                "?"@
            }) + "token="@ + token,
        )
    } else {
        None
    }
}

/// How a string value of the peer's library JSON is rewritten so that it
/// resolves on the peer without a login.
pub fn rewrite_media_value(key: &str, value: &str, base: &str, token: &str) -> (r: Option<String>)
    ensures
        match r {
            Some(s) => rewrite_spec(key@, value@, base@, token@) == Some(s@),
            None => rewrite_spec(key@, value@, base@, token@) is None,
        },
{
    let k = chars_of(key);
    let v = chars_of(value);
    let url_key = eq_lit(&k, "url") || finishes(&k, "_url");
    if !(url_key && is_peer_media_path(value)) {
        return None;
    }
    let mut out: Vec<char> = Vec::new();
    extend_str(&mut out, base);
    extend_str(&mut out, value);
    if includes(&v, "?") {
        extend_str(&mut out, "&");
    } else {
        extend_str(&mut out, "?");
    }
    extend_str(&mut out, "token=");
    extend_str(&mut out, token);
    Some(string_of(&out))
}

// ── The library JSON ─────────────────────────────────────────────────────────

/// A JSON value as parsed from the peer (numbers kept as their text).
#[derive(Debug)]
pub enum Json {
    Null,
    Bool(bool),
    Number(String),
    Str(String),
    Array(Vec<Json>),
    Object(Vec<(String, Json)>),
}

/// The mathematical value of a JSON tree.
pub enum JsonV {
    Null,
    Bool(bool),
    Number(Seq<char>),
    Str(Seq<char>),
    Array(Seq<JsonV>),
    Object(Seq<(Seq<char>, JsonV)>),
}

/// The value of a JSON tree.
pub open spec fn json_view(j: Json) -> JsonV
    decreases j,
{
    match j {
        Json::Null => JsonV::Null,
        Json::Bool(b) => JsonV::Bool(b),
        Json::Number(n) => JsonV::Number(n@),
        Json::Str(s) => JsonV::Str(s@),
        Json::Array(v) => JsonV::Array(
            Seq::new(
                v@.len(),
                |i: int|
                    if 0 <= i < v@.len() {
                        json_view(v@[i])
                    } else {
                        JsonV::Null
                    },
            ),
        ),
        Json::Object(v) => JsonV::Object(
            Seq::new(
                v@.len(),
                |i: int|
                    if 0 <= i < v@.len() {
                        (v@[i].0@, json_view(v@[i].1))
                    } else {
                        (seq![], JsonV::Null)
                    },
            ),
        ),
    }
}

/// An object member after the rewrite: a string is replaced as
/// [`rewrite_spec`] says, any other value is rewritten recursively.
pub open spec fn rewrite_member(key: Seq<char>, val: JsonV, base: Seq<char>, token: Seq<char>) -> JsonV
    decreases val, 1nat,
{
    match val {
        JsonV::Str(s) => match rewrite_spec(key, s, base, token) {
            Some(t) => JsonV::Str(t),
            None => JsonV::Str(s),
        },
        _ => rewrite_json(val, base, token),
    }
}

/// The library JSON with every peer media URL made absolute and
/// token-bearing: strings directly under a URL key of an object are
/// rewritten; objects and arrays are walked; everything else is kept.
pub open spec fn rewrite_json(j: JsonV, base: Seq<char>, token: Seq<char>) -> JsonV
    decreases j, 0nat,
{
    match j {
        JsonV::Array(items) => JsonV::Array(
            Seq::new(
                items.len(),
                |i: int|
                    if 0 <= i < items.len() {
                        rewrite_json(items[i], base, token)
                    } else {
                        JsonV::Null
                    },
            ),
        ),
        JsonV::Object(members) => JsonV::Object(
            Seq::new(
                members.len(),
                |i: int|
                    if 0 <= i < members.len() {
                        (members[i].0, rewrite_member(members[i].0, members[i].1, base, token))
                    } else {
                        (seq![], JsonV::Null)
                    },
            ),
        ),
        _ => j,
    }
}

/// `serde_json::Value`, carried opaquely from the parser to the
/// conversion into [`Json`].
#[verifier::external_type_specification]
#[verifier::external_body]
pub struct ExJsonValue(serde_json::Value);

/// What `serde_json::from_str::<serde_json::Value>` gives for `text`, as
/// a [`JsonV`] (numbers by the text `serde_json::Number` prints), or
/// `None` when it refuses the text.
pub uninterp spec fn json_parsed(text: Seq<char>) -> Option<JsonV>;

/// A `serde_json::Value` as a [`Json`] tree, variant for variant (a
/// number by the text `serde_json::Number` prints). Used by
/// [`parse_json`] only.
#[verifier::external_body]
fn json_of_value(v: serde_json::Value) -> Json {
    match v {
        serde_json::Value::Null => Json::Null,
        serde_json::Value::Bool(b) => Json::Bool(b),
        serde_json::Value::Number(n) => Json::Number(n.to_string()),
        serde_json::Value::String(s) => Json::Str(s),
        serde_json::Value::Array(a) => Json::Array(a.into_iter().map(json_of_value).collect()),
        serde_json::Value::Object(m) => Json::Object(m.into_iter().map(|(k, v)| (k, json_of_value(v))).collect()),
    }
}

/// Parse JSON text. Trusted: wraps `serde_json::from_str` into
/// `serde_json::Value` and converts the value one for one into a
/// [`Json`]; the result is `json_parsed` of the text. Nothing more is
/// claimed of serde_json's grammar.
#[verifier::external_body]
pub fn parse_json(text: &str) -> (r: Option<Json>)
    ensures
        match r {
            Some(j) => json_parsed(text@) == Some(json_view(j)),
            None => json_parsed(text@) is None,
        },
{
    match serde_json::from_str::<serde_json::Value>(text) {
        Ok(v) => Some(json_of_value(v)),
        Err(_) => None,
    }
}

/// The text of a number member of an object, if it is one.
pub fn member_number(j: &Json, key: &str) -> (r: Option<String>)
    ensures
        opt_view(r) == as_number(member(json_view(*j), key@)),
{
    number_of(get_member(j, key))
}

/// The value of an array whose items have the values `s`.
proof fn lemma_array_view(v: Vec<Json>, s: Seq<JsonV>)
    requires
        v@.len() == s.len(),
        forall|k: int| 0 <= k < s.len() ==> json_view(#[trigger] v@[k]) == s[k],
    ensures
        json_view(Json::Array(v)) == JsonV::Array(s),
{
    let x = json_view(Json::Array(v));
    assert(x is Array);
    assert(x->Array_0 =~= s);
}

/// The value of an object whose members have the keys and values `s`.
proof fn lemma_object_view(v: Vec<(String, Json)>, s: Seq<(Seq<char>, JsonV)>)
    requires
        v@.len() == s.len(),
        forall|k: int| 0 <= k < s.len() ==> (#[trigger] v@[k]).0@ == s[k].0 && json_view(v@[k].1) == s[k].1,
    ensures
        json_view(Json::Object(v)) == JsonV::Object(s),
{
    let x = json_view(Json::Object(v));
    assert(x is Object);
    assert(x->Object_0 =~= s);
}

/// A copy of a JSON tree.
#[verifier::loop_isolation(false)]
fn copy_json(j: &Json) -> (r: Json)
    ensures
        json_view(r) == json_view(*j),
    decreases j,
{
    match j {
        Json::Null => Json::Null,
        Json::Bool(b) => Json::Bool(*b),
        Json::Number(n) => Json::Number(n.clone()),
        Json::Str(s) => Json::Str(s.clone()),
        Json::Array(items) => {
            let mut out: Vec<Json> = Vec::new();
            let mut i: usize = 0;
            while i < items.len()
                invariant
                    i <= items@.len(),
                    out@.len() == i,
                    forall|k: int| 0 <= k < i ==> #[trigger] json_view(out@[k]) == json_view(items@[k]),
                decreases items.len() - i,
            {
                proof {
                    assert(decreases_to!(*j => *items));
                    assert(decreases_to!(*items => items@));
                    assert(decreases_to!(items@ => items@[i as int]));
                }
                let x = copy_json(&items[i]);
                out.push(x);
                i += 1;
            }
            proof {
                let s = Seq::new(
                    items@.len(),
                    |k: int|
                        if 0 <= k < items@.len() {
                            json_view(items@[k])
                        } else {
                            JsonV::Null
                        },
                );
                lemma_array_view(out, s);
                lemma_array_view(*items, s);
            }
            Json::Array(out)
        },
        Json::Object(members) => {
            let mut out: Vec<(String, Json)> = Vec::new();
            let mut i: usize = 0;
            while i < members.len()
                invariant
                    i <= members@.len(),
                    out@.len() == i,
                    forall|k: int|
                        0 <= k < i ==> (#[trigger] out@[k]).0@ == members@[k].0@ && json_view(out@[k].1)
                            == json_view(members@[k].1),
                decreases members.len() - i,
            {
                proof {
                    assert(decreases_to!(*j => *members));
                    assert(decreases_to!(*members => members@));
                    assert(decreases_to!(members@ => members@[i as int]));
                    assert(decreases_to!(members@[i as int] => members@[i as int].1));
                }
                let x = copy_json(&members[i].1);
                out.push((members[i].0.clone(), x));
                i += 1;
            }
            proof {
                let s = Seq::new(
                    members@.len(),
                    |k: int|
                        if 0 <= k < members@.len() {
                            (members@[k].0@, json_view(members@[k].1))
                        } else {
                            (seq![], JsonV::Null)
                        },
                );
                lemma_object_view(out, s);
                lemma_object_view(*members, s);
            }
            Json::Object(out)
        },
    }
}

/// Rewrite the peer's library JSON so that every media URL (a string
/// under a key `url` or `*_url` that is a peer media path) becomes
/// `{base}{path}{?|&}token={token}` and loads on the peer without a login;
/// external links and all other values are kept.
#[verifier::loop_isolation(false)]
pub fn rewrite_media_urls(j: &Json, base: &str, token: &str) -> (r: Json)
    ensures
        json_view(r) == rewrite_json(json_view(*j), base@, token@),
    decreases j,
{
    match j {
        Json::Array(items) => {
            let mut out: Vec<Json> = Vec::new();
            let mut i: usize = 0;
            while i < items.len()
                invariant
                    i <= items@.len(),
                    out@.len() == i,
                    forall|k: int|
                        0 <= k < i ==> #[trigger] json_view(out@[k]) == rewrite_json(
                            json_view(items@[k]),
                            base@,
                            token@,
                        ),
                decreases items.len() - i,
            {
                proof {
                    assert(decreases_to!(*j => *items));
                    assert(decreases_to!(*items => items@));
                    assert(decreases_to!(items@ => items@[i as int]));
                }
                let x = rewrite_media_urls(&items[i], base, token);
                out.push(x);
                i += 1;
            }
            proof {
                let s = Seq::new(
                    items@.len(),
                    |k: int|
                        if 0 <= k < items@.len() {
                            json_view(items@[k])
                        } else {
                            JsonV::Null
                        },
                );
                let t = Seq::new(
                    items@.len(),
                    |k: int|
                        if 0 <= k < items@.len() {
                            rewrite_json(json_view(items@[k]), base@, token@)
                        } else {
                            JsonV::Null
                        },
                );
                lemma_array_view(out, t);
                lemma_array_view(*items, s);
                assert(json_view(*j) == JsonV::Array(s));
                assert(rewrite_json(JsonV::Array(s), base@, token@) is Array);
                assert(rewrite_json(JsonV::Array(s), base@, token@)->Array_0 =~= t);
            }
            Json::Array(out)
        },
        Json::Object(members) => {
            let mut out: Vec<(String, Json)> = Vec::new();
            let mut i: usize = 0;
            while i < members.len()
                invariant
                    i <= members@.len(),
                    out@.len() == i,
                    forall|k: int|
                        0 <= k < i ==> (#[trigger] out@[k]).0@ == members@[k].0@ && json_view(out@[k].1)
                            == rewrite_member(members@[k].0@, json_view(members@[k].1), base@, token@),
                decreases members.len() - i,
            {
                proof {
                    assert(decreases_to!(*j => *members));
                    assert(decreases_to!(*members => members@));
                    assert(decreases_to!(members@ => members@[i as int]));
                    assert(decreases_to!(members@[i as int] => members@[i as int].1));
                }
                let key = &members[i].0;
                let val = match &members[i].1 {
                    Json::Str(s) => match rewrite_media_value(key.as_str(), s.as_str(), base, token) {
                        Some(t) => Json::Str(t),
                        None => Json::Str(s.clone()),
                    },
                    other => rewrite_media_urls(other, base, token),
                };
                out.push((key.clone(), val));
                i += 1;
            }
            proof {
                let s = Seq::new(
                    members@.len(),
                    |k: int|
                        if 0 <= k < members@.len() {
                            (members@[k].0@, json_view(members@[k].1))
                        } else {
                            (seq![], JsonV::Null)
                        },
                );
                let t = Seq::new(
                    members@.len(),
                    |k: int|
                        if 0 <= k < members@.len() {
                            (
                                members@[k].0@,
                                rewrite_member(members@[k].0@, json_view(members@[k].1), base@, token@),
                            )
                        } else {
                            (seq![], JsonV::Null)
                        },
                );
                lemma_object_view(out, t);
                lemma_object_view(*members, s);
                assert(json_view(*j) == JsonV::Object(s));
                assert(rewrite_json(JsonV::Object(s), base@, token@) is Object);
                assert(rewrite_json(JsonV::Object(s), base@, token@)->Object_0 =~= t);
            }
            Json::Object(out)
        },
        other => copy_json(other),
    }
}

} // verus!

verus! {

// ── The peer's library, flattened ────────────────────────────────────────────

/// The value of the first member of `members` named `key`.
pub open spec fn find_member(members: Seq<(Seq<char>, JsonV)>, key: Seq<char>) -> Option<JsonV>
    decreases members.len(),
{
    if members.len() == 0 {
        None
    } else if members[0].0 == key {
        Some(members[0].1)
    } else {
        find_member(members.drop_first(), key)
    }
}

/// `value.get(key)`: the member `key` of an object, `None` otherwise.
pub open spec fn member(j: JsonV, key: Seq<char>) -> Option<JsonV> {
    match j {
        JsonV::Object(ms) => find_member(ms, key),
        _ => None,
    }
}

/// `as_str` of an optional value.
pub open spec fn as_text(o: Option<JsonV>) -> Option<Seq<char>> {
    match o {
        Some(JsonV::Str(s)) => Some(s),
        _ => None,
    }
}

/// `as_array` of an optional value.
pub open spec fn as_items(o: Option<JsonV>) -> Option<Seq<JsonV>> {
    match o {
        Some(JsonV::Array(a)) => Some(a),
        _ => None,
    }
}

/// The text of an optional number value.
pub open spec fn as_number(o: Option<JsonV>) -> Option<Seq<char>> {
    match o {
        Some(JsonV::Number(n)) => Some(n),
        _ => None,
    }
}

/// The items of an optional array (none when it is absent).
pub open spec fn items_or_none(o: Option<Seq<JsonV>>) -> Seq<JsonV> {
    match o {
        Some(a) => a,
        None => seq![],
    }
}

/// The video entries of a list of playlists, playlist after playlist.
pub open spec fn playlist_videos(pls: Seq<JsonV>) -> Seq<JsonV>
    decreases pls.len(),
{
    if pls.len() == 0 {
        seq![]
    } else {
        playlist_videos(pls.drop_last()) + items_or_none(as_items(member(pls.last(), "videos"@)))
    }
}

/// A channel's video entries: its own, then those of its playlists.
pub open spec fn channel_videos(ch: JsonV) -> Seq<JsonV> {
    items_or_none(as_items(member(ch, "videos"@))) + playlist_videos(
        items_or_none(as_items(member(ch, "playlists"@))),
    )
}

/// A text value or a default.
pub open spec fn text_or(o: Option<Seq<char>>, d: Seq<char>) -> Seq<char> {
    match o {
        Some(s) => s,
        None => d,
    }
}

/// One video of a peer's library, as the remote browser lists it. URLs
/// are the (already rewritten) ones of the library JSON; the duration is
/// the text of its JSON number.
#[derive(Clone, Debug)]
pub struct RemoteVideo {
    pub id: String,
    pub title: String,
    pub channel: String,
    pub video_url: Option<String>,
    pub thumb_url: Option<String>,
    pub duration_secs: Option<String>,
}

/// One channel of a peer's library with all its videos.
#[derive(Clone, Debug)]
pub struct RemoteChannel {
    pub name: String,
    pub videos: Vec<RemoteVideo>,
}

/// A peer's library flattened to channels → videos.
#[derive(Clone, Debug)]
pub struct RemoteLibrary {
    pub channels: Vec<RemoteChannel>,
}

/// The optional text of an optional string.
pub open spec fn opt_view(o: Option<String>) -> Option<Seq<char>> {
    match o {
        Some(s) => Some(s@),
        None => None,
    }
}

/// `r` lists the video entry `vid` of channel `channel`: id (empty when
/// missing), title (`(untitled)` when missing), URLs and duration.
pub open spec fn video_from(r: RemoteVideo, vid: JsonV, channel: Seq<char>) -> bool {
    &&& r.id@ == text_or(as_text(member(vid, "id"@)), seq![])
    &&& r.title@ == text_or(as_text(member(vid, "title"@)), "(untitled)"@)
    &&& r.channel@ == channel
    &&& opt_view(r.video_url) == as_text(member(vid, "video_url"@))
    &&& opt_view(r.thumb_url) == as_text(member(vid, "thumb_url"@))
    &&& opt_view(r.duration_secs) == as_number(member(vid, "duration_secs"@))
}

/// `c` lists the channel entry `ch`: its name (`?` when missing) and one
/// video per video entry of the channel and of its playlists, in order.
pub open spec fn channel_from(c: RemoteChannel, ch: JsonV) -> bool {
    let name = text_or(as_text(member(ch, "name"@)), "?"@);
    &&& c.name@ == name
    &&& c.videos@.len() == channel_videos(ch).len()
    &&& forall|k: int| 0 <= k < c.videos@.len() ==> video_from(#[trigger] c.videos@[k], channel_videos(ch)[k], name)
}

/// The value of an optional JSON reference.
pub open spec fn opt_json(o: Option<&Json>) -> Option<JsonV> {
    match o {
        Some(v) => Some(json_view(*v)),
        None => None,
    }
}

/// The text of an optional `&str`.
pub open spec fn opt_str(o: Option<&str>) -> Option<Seq<char>> {
    match o {
        Some(s) => Some(s@),
        None => None,
    }
}

/// The member `key` of an object value (`value.get(key)`).
pub(crate) fn get_member<'a>(j: &'a Json, key: &str) -> (r: Option<&'a Json>)
    ensures
        opt_json(r) == member(json_view(*j), key@),
{
    match j {
        Json::Object(ms) => {
            let ghost mv = Seq::new(
                ms@.len(),
                |k: int|
                    if 0 <= k < ms@.len() {
                        (ms@[k].0@, json_view(ms@[k].1))
                    } else {
                        (seq![], JsonV::Null)
                    },
            );
            proof {
                lemma_object_view(*ms, mv);
                assert(mv.skip(0) =~= mv);
            }
            let k = chars_of(key);
            let mut i: usize = 0;
            while i < ms.len()
                invariant
                    i <= ms@.len(),
                    mv.len() == ms@.len(),
                    forall|x: int| 0 <= x < ms@.len() ==> (#[trigger] mv[x]) == (ms@[x].0@, json_view(ms@[x].1)),
                    k@ == key@,
                    member(json_view(*j), key@) == find_member(mv, key@),
                    find_member(mv, key@) == find_member(mv.skip(i as int), key@),
                decreases ms.len() - i,
            {
                assert(mv.skip(i as int).drop_first() =~= mv.skip(i + 1));
                assert(mv.skip(i as int)[0] == mv[i as int]);
                if eq_vec(&chars_of(ms[i].0.as_str()), &k) {
                    return Some(&ms[i].1);
                }
                i += 1;
            }
            assert(mv.skip(i as int) =~= Seq::<(Seq<char>, JsonV)>::empty());
            None
        },
        _ => None,
    }
}

/// The text of a string value.
pub(crate) fn text_of<'a>(o: Option<&'a Json>) -> (r: Option<&'a str>)
    ensures
        opt_str(r) == as_text(opt_json(o)),
{
    match o {
        Some(Json::Str(s)) => Some(s.as_str()),
        _ => None,
    }
}

/// The text of a number value.
pub(crate) fn number_of(o: Option<&Json>) -> (r: Option<String>)
    ensures
        opt_view(r) == as_number(opt_json(o)),
{
    match o {
        Some(Json::Number(n)) => Some(n.clone()),
        _ => None,
    }
}

/// The items of an array value.
pub(crate) fn items_of<'a>(o: Option<&'a Json>) -> (r: Option<&'a Vec<Json>>)
    ensures
        match r {
            Some(v) => as_items(opt_json(o)) == Some(
                Seq::new(
                    v@.len(),
                    |k: int|
                        if 0 <= k < v@.len() {
                            json_view(v@[k])
                        } else {
                            JsonV::Null
                        },
                ),
            ),
            None => as_items(opt_json(o)) is None,
        },
{
    match o {
        Some(Json::Array(v)) => {
            proof {
                let s = Seq::new(
                    v@.len(),
                    |k: int|
                        if 0 <= k < v@.len() {
                            json_view(v@[k])
                        } else {
                            JsonV::Null
                        },
                );
                lemma_array_view(*v, s);
            }
            Some(v)
        },
        _ => None,
    }
}

/// `vs` lists the video entries `js` of channel `name`, one for one.
pub open spec fn videos_from(vs: Seq<RemoteVideo>, js: Seq<JsonV>, name: Seq<char>) -> bool {
    &&& vs.len() == js.len()
    &&& forall|k: int| 0 <= k < vs.len() ==> video_from(#[trigger] vs[k], js[k], name)
}

/// The listing of one video entry of channel `channel`.
fn video_of(vid: &Json, channel: &str) -> (r: RemoteVideo)
    ensures
        video_from(r, json_view(*vid), channel@),
{
    proof {
        reveal_strlit("(untitled)");
    }
    let id = match text_of(get_member(vid, "id")) {
        Some(t) => String::from_str(t),
        None => String::new(),
    };
    let title = match text_of(get_member(vid, "title")) {
        Some(t) => String::from_str(t),
        None => String::from_str("(untitled)"),
    };
    let video_url = match text_of(get_member(vid, "video_url")) {
        Some(t) => Some(String::from_str(t)),
        None => None,
    };
    let thumb_url = match text_of(get_member(vid, "thumb_url")) {
        Some(t) => Some(String::from_str(t)),
        None => None,
    };
    let duration_secs = number_of(get_member(vid, "duration_secs"));
    RemoteVideo { id, title, channel: String::from_str(channel), video_url, thumb_url, duration_secs }
}

/// Append the listings of the video entries of the array `arr` (none
/// when it is not an array).
fn push_videos(out: &mut Vec<RemoteVideo>, arr: Option<&Json>, channel: &str)
    ensures
        final(out)@.len() == old(out)@.len() + items_or_none(as_items(opt_json(arr))).len(),
        final(out)@.subrange(0, old(out)@.len() as int) == old(out)@,
        forall|k: int|
            0 <= k < items_or_none(as_items(opt_json(arr))).len() ==> video_from(
                #[trigger] final(out)@[old(out)@.len() + k],
                items_or_none(as_items(opt_json(arr)))[k],
                channel@,
            ),
{
    let ghost start = out@;
    match items_of(arr) {
        None => {
            assert(out@.subrange(0, start.len() as int) =~= start);
        },
        Some(items) => {
            let mut i: usize = 0;
            while i < items.len()
                invariant
                    i <= items@.len(),
                    out@.len() == start.len() + i,
                    out@.subrange(0, start.len() as int) == start,
                    forall|k: int|
                        0 <= k < i ==> video_from(#[trigger] out@[start.len() + k], json_view(items@[k]), channel@),
                decreases items.len() - i,
            {
                let v = video_of(&items[i], channel);
                let ghost before = out@;
                out.push(v);
                proof {
                    assert(out@.subrange(0, start.len() as int) =~= before.subrange(0, start.len() as int));
                    assert forall|k: int| 0 <= k < i + 1 implies video_from(
                        #[trigger] out@[start.len() + k],
                        json_view(items@[k]),
                        channel@,
                    ) by {
                        if k < i {
                            assert(out@[start.len() + k] == before[start.len() + k]);
                        }
                    }
                }
                i += 1;
            }
        },
    }
}

/// The listing of one channel entry: its name and the videos of the
/// channel and of its playlists.
fn channel_of(ch: &Json) -> (r: RemoteChannel)
    ensures
        channel_from(r, json_view(*ch)),
{
    proof {
        reveal_strlit("?");
    }
    let name = match text_of(get_member(ch, "name")) {
        Some(t) => String::from_str(t),
        None => String::from_str("?"),
    };
    let ghost chv = json_view(*ch);
    let mut videos: Vec<RemoteVideo> = Vec::new();
    push_videos(&mut videos, get_member(ch, "videos"), name.as_str());
    let ghost own = items_or_none(as_items(member(chv, "videos"@)));
    proof {
        assert(videos_from(videos@, own, name@)) by {
            assert forall|k: int| 0 <= k < videos@.len() implies video_from(#[trigger] videos@[k], own[k], name@) by {
                assert(videos@[0 + k] == videos@[k]);
            }
        }
    }
    match items_of(get_member(ch, "playlists")) {
        None => {
            assert(own + playlist_videos(seq![]) =~= own);
        },
        Some(pls) => {
            let ghost plv = Seq::new(
                pls@.len(),
                |k: int|
                    if 0 <= k < pls@.len() {
                        json_view(pls@[k])
                    } else {
                        JsonV::Null
                    },
            );
            assert(own + playlist_videos(plv.take(0)) =~= own);
            let mut p: usize = 0;
            while p < pls.len()
                invariant
                    p <= pls@.len(),
                    plv.len() == pls@.len(),
                    forall|k: int| 0 <= k < pls@.len() ==> #[trigger] plv[k] == json_view(pls@[k]),
                    videos_from(videos@, own + playlist_videos(plv.take(p as int)), name@),
                decreases pls.len() - p,
            {
                let ghost before = videos@;
                let ghost js = own + playlist_videos(plv.take(p as int));
                push_videos(&mut videos, get_member(&pls[p], "videos"), name.as_str());
                proof {
                    let add = items_or_none(as_items(member(plv[p as int], "videos"@)));
                    assert(plv.take(p + 1).drop_last() =~= plv.take(p as int));
                    assert(plv.take(p + 1).last() == plv[p as int]);
                    let js2 = own + playlist_videos(plv.take(p + 1));
                    assert(js2 =~= js + add);
                    assert forall|k: int| 0 <= k < videos@.len() implies video_from(
                        #[trigger] videos@[k],
                        js2[k],
                        name@,
                    ) by {
                        if k < before.len() {
                            assert(videos@.subrange(0, before.len() as int)[k] == videos@[k]);
                        } else {
                            let m = k - before.len();
                            assert(videos@[before.len() + m] == videos@[k]);
                        }
                    }
                }
                p += 1;
            }
            assert(plv.take(pls@.len() as int) =~= plv);
        },
    }
    RemoteChannel { name, videos }
}

/// Flatten the peer's library JSON into channels → videos, playlist
/// videos after the channel's own. Anything but an array under
/// `channels` gives no channels.
pub fn parse_library(v: &Json) -> (r: RemoteLibrary)
    ensures
        r.channels@.len() == items_or_none(as_items(member(json_view(*v), "channels"@))).len(),
        forall|c: int|
            0 <= c < r.channels@.len() ==> channel_from(
                #[trigger] r.channels@[c],
                items_or_none(as_items(member(json_view(*v), "channels"@)))[c],
            ),
{
    let mut channels: Vec<RemoteChannel> = Vec::new();
    match items_of(get_member(v, "channels")) {
        None => {},
        Some(chs) => {
            let mut i: usize = 0;
            while i < chs.len()
                invariant
                    i <= chs@.len(),
                    channels@.len() == i,
                    forall|c: int| 0 <= c < i ==> channel_from(#[trigger] channels@[c], json_view(chs@[c])),
                decreases chs.len() - i,
            {
                let c = channel_of(&chs[i]);
                channels.push(c);
                i += 1;
            }
        },
    }
    RemoteLibrary { channels }
}

} // verus!
