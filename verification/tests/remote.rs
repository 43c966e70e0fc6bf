use catacomb::remote::{parse_library, rewrite_media_urls, Json};

fn s(v: &str) -> Json {
    Json::Str(v.to_string())
}

fn obj(members: Vec<(&str, Json)>) -> Json {
    Json::Object(members.into_iter().map(|(k, v)| (k.to_string(), v)).collect())
}

fn get<'a>(j: &'a Json, key: &str) -> &'a Json {
    match j {
        Json::Object(m) => &m.iter().find(|(k, _)| k == key).expect("member present").1,
        other => panic!("not an object: {other:?}"),
    }
}

fn at(j: &Json, i: usize) -> &Json {
    match j {
        Json::Array(v) => &v[i],
        other => panic!("not an array: {other:?}"),
    }
}

fn text(j: &Json) -> &str {
    match j {
        Json::Str(t) => t,
        other => panic!("not a string: {other:?}"),
    }
}

#[test]
fn rewrites_only_media_urls() {
    let v = obj(vec![(
        "channels",
        Json::Array(vec![obj(vec![
            ("name", s("Chan")),
            ("thumb_url", s("/files/channels/chan/folder.jpg")),
            ("channel_url", s("https://youtube.com/@chan")),
            (
                "videos",
                Json::Array(vec![obj(vec![
                    ("id", s("abc")),
                    ("title", s("Vid")),
                    ("video_url", s("/api/transcode/abc")),
                    ("thumb_url", s("/files/channels/chan/abc.webp")),
                    ("subtitles", Json::Array(vec![obj(vec![("url", s("/api/sub-vtt/x.vtt"))])])),
                ])]),
            ),
        ])]),
    )]);
    let v = rewrite_media_urls(&v, "http://peer:8081", "TOK");
    let ch = at(get(&v, "channels"), 0);
    let vid = at(get(ch, "videos"), 0);
    assert_eq!(text(get(vid, "video_url")), "http://peer:8081/api/transcode/abc?token=TOK");
    assert_eq!(text(get(vid, "thumb_url")), "http://peer:8081/files/channels/chan/abc.webp?token=TOK");
    assert_eq!(text(get(at(get(vid, "subtitles"), 0), "url")), "http://peer:8081/api/sub-vtt/x.vtt?token=TOK");
    assert_eq!(text(get(ch, "thumb_url")), "http://peer:8081/files/channels/chan/folder.jpg?token=TOK");
    assert_eq!(text(get(ch, "channel_url")), "https://youtube.com/@chan");
}

#[test]
fn non_url_keys_strings_in_arrays_and_scalars_are_kept() {
    let v = obj(vec![
        ("title", s("/files/not-a-url-key")),
        ("paths", Json::Array(vec![s("/files/a.mp4")])),
        ("count", Json::Number("3".into())),
        ("ok", Json::Bool(true)),
        ("none", Json::Null),
        ("url", s("/files/q.mp4?x=1")),
    ]);
    let r = rewrite_media_urls(&v, "http://p", "T");
    assert_eq!(text(get(&r, "title")), "/files/not-a-url-key");
    assert_eq!(text(at(get(&r, "paths"), 0)), "/files/a.mp4");
    assert!(matches!(get(&r, "count"), Json::Number(n) if n == "3"));
    assert!(matches!(get(&r, "ok"), Json::Bool(true)));
    assert!(matches!(get(&r, "none"), Json::Null));
    assert_eq!(text(get(&r, "url")), "http://p/files/q.mp4?x=1&token=T");
}

#[test]
fn parses_channels_and_playlist_videos() {
    let v = obj(vec![(
        "channels",
        Json::Array(vec![obj(vec![
            ("name", s("Chan")),
            ("videos", Json::Array(vec![obj(vec![("id", s("a")), ("title", s("A")), ("video_url", s("u1"))])])),
            (
                "playlists",
                Json::Array(vec![obj(vec![(
                    "videos",
                    Json::Array(vec![obj(vec![("id", s("b")), ("title", s("B")), ("video_url", s("u2"))])]),
                )])]),
            ),
        ])]),
    )]);
    let lib = parse_library(&v);
    assert_eq!(lib.channels.len(), 1);
    assert_eq!(lib.channels[0].videos.len(), 2);
    assert_eq!(lib.channels[0].videos[1].id, "b");
}

#[test]
fn missing_fields_get_defaults() {
    let v = obj(vec![(
        "channels",
        Json::Array(vec![obj(vec![(
            "videos",
            Json::Array(vec![obj(vec![("duration_secs", Json::Number("61.5".into())), ("thumb_url", s("t"))])]),
        )])]),
    )]);
    let lib = parse_library(&v);
    let c = &lib.channels[0];
    assert_eq!(c.name, "?");
    let vid = &c.videos[0];
    assert_eq!(vid.id, "");
    assert_eq!(vid.title, "(untitled)");
    assert_eq!(vid.channel, "?");
    assert_eq!(vid.video_url, None);
    assert_eq!(vid.thumb_url.as_deref(), Some("t"));
    assert_eq!(vid.duration_secs.as_deref(), Some("61.5"));
    assert!(parse_library(&Json::Array(vec![])).channels.is_empty());
    assert!(parse_library(&obj(vec![("channels", s("x"))])).channels.is_empty());
}
