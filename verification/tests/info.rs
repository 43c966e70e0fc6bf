use catacomb::info::{channel_meta_of, info_description, plex_channel_meta, track_artist, video_info_fields};
use catacomb::plex::channel_platform;
use catacomb::platform::Platform;
use catacomb::remote::{member_number, parse_json, Json};

fn j(text: &str) -> Json {
    parse_json(text).expect("valid JSON")
}

#[test]
fn parse_json_reads_values_and_refuses_garbage() {
    assert!(parse_json("not even json {").is_none());
    let v = j(r#"{"a": [1, 2.5, "x", true, null]}"#);
    match &v {
        Json::Object(m) => {
            assert_eq!(m[0].0, "a");
            match &m[0].1 {
                Json::Array(items) => {
                    assert!(matches!(&items[0], Json::Number(n) if n == "1"));
                    assert!(matches!(&items[1], Json::Number(n) if n == "2.5"));
                    assert!(matches!(&items[2], Json::Str(s) if s == "x"));
                    assert!(matches!(&items[3], Json::Bool(true)));
                    assert!(matches!(&items[4], Json::Null));
                }
                other => panic!("not an array: {other:?}"),
            }
        }
        other => panic!("not an object: {other:?}"),
    }
}

#[test]
fn chapters_and_upload_date() {
    assert_eq!(video_info_fields(&j(r#"{"chapters": [{"title": "a"}], "upload_date": "20240102"}"#)), (true, Some("20240102".into())));
    assert_eq!(video_info_fields(&j(r#"{"chapters": [], "release_date": "20230101"}"#)), (false, Some("20230101".into())));
    assert_eq!(video_info_fields(&j(r#"{"chapters": null, "upload_date": 5}"#)), (false, None));
    assert_eq!(member_number(&j(r#"{"duration": 61.5}"#), "duration").as_deref(), Some("61.5"));
}

#[test]
fn channel_meta_fields_and_fallbacks() {
    let m = channel_meta_of(&j(r#"{"channel_follower_count": 1200, "channel_url": "https://youtube.com/@x", "channel": "X"}"#));
    assert_eq!(m.subscriber_count, Some(1200));
    assert_eq!(m.channel_url.as_deref(), Some("https://youtube.com/@x"));
    assert_eq!(m.uploader.as_deref(), Some("X"));
    let m = channel_meta_of(&j(r#"{"channel_follower_count": 1.5, "uploader": "U", "channel": "X"}"#));
    assert_eq!(m.subscriber_count, None);
    assert_eq!(m.uploader.as_deref(), Some("U"));
    // A present but non-string uploader does not fall back.
    assert_eq!(channel_meta_of(&j(r#"{"uploader": null, "channel": "X"}"#)).uploader, None);
}

#[test]
fn plex_show_texts() {
    assert_eq!(
        plex_channel_meta(&j(r#"{"uploader_description": "about", "channel": "C"}"#)),
        ("about".to_string(), "C".to_string())
    );
    assert_eq!(plex_channel_meta(&j("{}")), (String::new(), String::new()));
    assert_eq!(info_description(&j(r#"{"description": "hello"}"#)), "hello");
    assert_eq!(info_description(&j("[]")), "");
}

#[test]
fn track_artist_fallbacks() {
    assert_eq!(track_artist(Some(&j(r#"{"artist": "A", "uploader": "U"}"#)), "Folder"), "A");
    assert_eq!(track_artist(Some(&j(r#"{"creator": "C", "uploader": "U"}"#)), "Folder"), "C");
    assert_eq!(track_artist(Some(&j(r#"{"uploader": "U"}"#)), "Folder"), "U");
    assert_eq!(track_artist(Some(&j("{}")), "Folder"), "Folder");
    assert_eq!(track_artist(None, "Folder"), "Folder");
    assert_eq!(track_artist(None, ""), "Unknown");
    assert_eq!(track_artist(Some(&j(r#"{"artist": ""}"#)), "Folder"), "Unknown");
}

#[test]
fn channel_platform_choice() {
    assert_eq!(channel_platform(Some("https://www.tiktok.com/@x"), Some("channels")), Platform::TikTok);
    assert_eq!(channel_platform(None, Some("twitch")), Platform::Twitch);
    assert_eq!(channel_platform(None, Some("lib")), Platform::YouTube);
    assert_eq!(channel_platform(None, None), Platform::YouTube);
}
