//! What the library reads from a video's `info.json` sidecar (parsed into
//! a [`Json`] tree): chapter presence, upload date, the channel metadata
//! and the texts the Plex sidecars and the music library use. Durations
//! are fractional seconds and are read by the caller.

use vstd::prelude::*;
use crate::library::ChannelMeta;
use crate::num::{all_digits, digits_val, parse_digits};
use crate::remote::{
    as_items, as_number, as_text, get_member, items_of, json_view, member, number_of, opt_json,
    opt_view, text_of, text_or, Json, JsonV,
};
use crate::text::{chars_of, string_of};

verus! {

/// The first of two lookups that found a member (`a.or_else(|| b)`).
pub open spec fn first_present(a: Option<JsonV>, b: Option<JsonV>) -> Option<JsonV> {
    match a {
        Some(x) => Some(x),
        None => b,
    }
}

/// A number text as `Number::as_u64` reads it: a run of digits worth at
/// most `u64::MAX`.
pub open spec fn number_u64(t: Option<Seq<char>>) -> Option<u64> {
    match t {
        Some(s) => if s.len() > 0 && all_digits(s) && digits_val(s) <= u64::MAX {
            Some(digits_val(s) as u64)
        } else {
            None
        },
        None => None,
    }
}

/// The video has a non-empty `chapters` array.
pub open spec fn chapters_nonempty(v: JsonV) -> bool {
    match as_items(member(v, "chapters"@)) {
        Some(a) => a.len() > 0,
        None => false,
    }
}

/// The upload date: `upload_date`, else `release_date` (premieres and
/// live content), when it is a string.
pub open spec fn upload_or_release(v: JsonV) -> Option<Seq<char>> {
    match as_text(member(v, "upload_date"@)) {
        Some(s) => Some(s),
        None => as_text(member(v, "release_date"@)),
    }
}

/// Whether a video's info has chapters, and its upload date.
pub fn video_info_fields(j: &Json) -> (r: (bool, Option<String>))
    ensures
        r.0 == chapters_nonempty(json_view(*j)),
        opt_view(r.1) == upload_or_release(json_view(*j)),
{
    let chapters = match items_of(get_member(j, "chapters")) {
        Some(a) => a.len() > 0,
        None => false,
    };
    let date = match text_of(get_member(j, "upload_date")) {
        Some(s) => Some(String::from_str(s)),
        None => match text_of(get_member(j, "release_date")) {
            Some(s) => Some(String::from_str(s)),
            None => None,
        },
    };
    (chapters, date)
}

/// The channel metadata of an info: follower count, channel URL, and the
/// uploader (`uploader`, else `channel`).
pub open spec fn channel_meta_spec(m: ChannelMeta, v: JsonV) -> bool {
    &&& m.subscriber_count == number_u64(as_number(member(v, "channel_follower_count"@)))
    &&& opt_view(m.channel_url) == as_text(member(v, "channel_url"@))
    &&& opt_view(m.uploader) == as_text(first_present(member(v, "uploader"@), member(v, "channel"@)))
}

/// The channel metadata carried by a video's info.
pub fn channel_meta_of(j: &Json) -> (r: ChannelMeta)
    ensures
        channel_meta_spec(r, json_view(*j)),
{
    let subscriber_count = match number_of(get_member(j, "channel_follower_count")) {
        Some(t) => parse_digits(&chars_of(t.as_str()), 0, u64::MAX),
        None => None,
    };
    proof {
        let n = as_number(member(json_view(*j), "channel_follower_count"@));
        if let Some(s) = n {
            assert(s.skip(0) =~= s);
        }
    }
    let channel_url = match text_of(get_member(j, "channel_url")) {
        Some(s) => Some(String::from_str(s)),
        None => None,
    };
    let who = match get_member(j, "uploader") {
        Some(x) => Some(x),
        None => get_member(j, "channel"),
    };
    let uploader = match text_of(who) {
        Some(s) => Some(String::from_str(s)),
        None => None,
    };
    ChannelMeta { subscriber_count, channel_url, uploader }
}

/// A text field's value, or the empty text.
pub open spec fn text_field(o: Option<JsonV>) -> Seq<char> {
    text_or(as_text(o), seq![])
}

/// The text of an optional member, or the empty string.
fn text_or_empty(o: Option<&Json>) -> (r: String)
    ensures
        r@ == text_field(opt_json(o)),
{
    match text_of(o) {
        Some(s) => String::from_str(s),
        None => String::new(),
    }
}

/// The plot and the studio of a Plex show, from a video's info: the
/// channel description (else the uploader description), and the uploader
/// (else the channel); empty when missing.
pub fn plex_channel_meta(j: &Json) -> (r: (String, String))
    ensures
        r.0@ == text_field(
            first_present(member(json_view(*j), "channel_description"@), member(json_view(*j), "uploader_description"@)),
        ),
        r.1@ == text_field(first_present(member(json_view(*j), "uploader"@), member(json_view(*j), "channel"@))),
{
    let plot_src = match get_member(j, "channel_description") {
        Some(x) => Some(x),
        None => get_member(j, "uploader_description"),
    };
    let who = match get_member(j, "uploader") {
        Some(x) => Some(x),
        None => get_member(j, "channel"),
    };
    (text_or_empty(plot_src), text_or_empty(who))
}

/// A video's description from its info (empty when missing), used when
/// there is no `.description` sidecar.
pub fn info_description(j: &Json) -> (r: String)
    ensures
        r@ == text_field(member(json_view(*j), "description"@)),
{
    text_or_empty(get_member(j, "description"))
}

/// The artist of a music track: the info's `artist`, else `creator`, else
/// `uploader` (when a string), else the top-level folder's name; without
/// a readable info, the folder's name. An empty result is `Unknown`.
pub open spec fn resolve_artist(info: Option<JsonV>, folder_artist: Seq<char>) -> Seq<char> {
    let a = match info {
        Some(v) => text_or(
            as_text(first_present(first_present(member(v, "artist"@), member(v, "creator"@)), member(v, "uploader"@))),
            folder_artist,
        ),
        None => folder_artist,
    };
    if a.len() == 0 {
        "Unknown"@
    } else {
        a
    }
}

/// The artist of a music track (see [`resolve_artist`]).
pub fn track_artist(info: Option<&Json>, folder_artist: &str) -> (r: String)
    ensures
        r@ == resolve_artist(opt_json(info), folder_artist@),
{
    let a: String = match info {
        Some(v) => {
            let first = match get_member(v, "artist") {
                Some(x) => Some(x),
                None => get_member(v, "creator"),
            };
            let who = match first {
                Some(x) => Some(x),
                None => get_member(v, "uploader"),
            };
            match text_of(who) {
                Some(s) => String::from_str(s),
                None => String::from_str(folder_artist),
            }
        },
        None => String::from_str(folder_artist),
    };
    if chars_of(a.as_str()).len() == 0 {
        String::from_str("Unknown")
    } else {
        a
    }
}

} // verus!
