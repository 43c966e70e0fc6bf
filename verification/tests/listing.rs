use catacomb::library::{collect_raw_videos, sort_by_lang, Subtitle};

fn names(v: &[&str]) -> Vec<String> {
    v.iter().map(|s| s.to_string()).collect()
}

#[test]
fn listing_groups_sidecars_by_stem() {
    let files = names(&[
        "b video [B1].en.vtt",
        "b video [B1].mkv",
        "a video [A1].webp",
        "a video [A1].mp4",
        "a video [A1].MKV",
        "a video [A1].info.json",
        "a video [A1].description",
        "a video [A1].live_chat.json",
        "b video [B1].de.srt",
        "b video [B1].jpg",
        "notes.txt",
        "orphan [Z9].fr.vtt",
        "no brackets.mkv",
    ]);
    let raws = collect_raw_videos("/lib/chan", &files);
    assert_eq!(raws.len(), 2);
    let a = &raws[0];
    assert_eq!(a.stem, "a video [A1]");
    assert_eq!(a.id, "A1");
    assert_eq!(a.title, "a video");
    assert_eq!(a.video_path.as_deref(), Some("/lib/chan/a video [A1].mp4"));
    assert_eq!(a.thumb_path.as_deref(), Some("/lib/chan/a video [A1].webp"));
    assert_eq!(a.info_path.as_deref(), Some("/lib/chan/a video [A1].info.json"));
    assert_eq!(a.description_path.as_deref(), Some("/lib/chan/a video [A1].description"));
    assert!(a.has_live_chat);
    assert!(a.subtitles.is_empty());
    let b = &raws[1];
    assert_eq!(b.id, "B1");
    assert_eq!(b.video_path.as_deref(), Some("/lib/chan/b video [B1].mkv"));
    assert_eq!(b.thumb_path.as_deref(), Some("/lib/chan/b video [B1].jpg"));
    assert_eq!(b.info_path, None);
    assert!(!b.has_live_chat);
    let langs: Vec<&str> = b.subtitles.iter().map(|s| s.lang.as_str()).collect();
    assert_eq!(langs, vec!["de", "en"]);
    assert_eq!(b.subtitles[0].path, "/lib/chan/b video [B1].de.srt");
}

#[test]
fn listing_keeps_unknown_kinds_as_entries() {
    // A file whose stem names a video makes an entry even when it is
    // neither video nor sidecar; a subtitle without a language does too.
    let raws = collect_raw_videos("/d", &names(&["x [1].txt", "y [2].vtt"]));
    let stems: Vec<&str> = raws.iter().map(|r| r.stem.as_str()).collect();
    assert_eq!(stems, vec!["x [1]", "y [2]"]);
    assert!(raws.iter().all(|r| r.video_path.is_none()));
}

#[test]
fn empty_listing_gives_nothing() {
    assert!(collect_raw_videos("/d", &Vec::new()).is_empty());
}

#[test]
fn subtitles_sort_stably_by_language() {
    let subs = vec![
        Subtitle { lang: "en".into(), path: "1".into() },
        Subtitle { lang: "de".into(), path: "2".into() },
        Subtitle { lang: "en".into(), path: "3".into() },
        Subtitle { lang: "a".into(), path: "4".into() },
    ];
    let sorted = sort_by_lang(subs);
    let got: Vec<(&str, &str)> = sorted.iter().map(|s| (s.lang.as_str(), s.path.as_str())).collect();
    assert_eq!(got, vec![("a", "4"), ("de", "2"), ("en", "1"), ("en", "3")]);
}
