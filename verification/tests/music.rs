use catacomb::music::{is_audio_ext, is_hidden_name, music_file, sidecar_paths, track_of, track_order, Track};

fn track(artist: &str, title: &str) -> Track {
    Track {
        id: String::new(),
        title: title.into(),
        artist: artist.into(),
        path: String::new(),
        thumb_path: None,
        info_path: None,
        file_size: None,
    }
}

#[test]
fn audio_extensions_in_any_case() {
    for e in ["mp3", "M4A", "opus", "Flac", "ogg", "wav", "aac"] {
        assert!(is_audio_ext(e), "{e}");
    }
    assert!(!is_audio_ext("mp4"));
    assert!(!is_audio_ext(""));
}

#[test]
fn music_files_need_audio_extension_and_id() {
    let m = music_file("/m/Artist/Album/Song [abc].OPUS").unwrap();
    assert_eq!((m.dir.as_str(), m.stem.as_str(), m.title.as_str(), m.id.as_str()), ("/m/Artist/Album", "Song [abc]", "Song", "abc"));
    assert!(music_file("/m/Song [abc].mp4").is_none());
    assert!(music_file("/m/Song.mp3").is_none());
    assert!(music_file("/m/.mp3").is_none());
    assert!(music_file("/m/noext").is_none());
}

#[test]
fn sidecars_beside_the_track() {
    let (thumbs, info) = sidecar_paths("/m/A", "S [x]");
    assert_eq!(thumbs, vec!["/m/A/S [x].webp", "/m/A/S [x].jpg", "/m/A/S [x].jpeg", "/m/A/S [x].png"]);
    assert_eq!(info, "/m/A/S [x].info.json");
}

#[test]
fn tracks_listed_by_artist_then_title() {
    let ts = vec![track("b", "x"), track("A", "z"), track("a", "Y"), track("B", "a"), track("a", "y")];
    assert_eq!(track_order(&ts), vec![2, 4, 1, 3, 0]);
    assert!(track_order(&Vec::new()).is_empty());
}

#[test]
fn track_takes_names_from_the_file() {
    let m = music_file("/m/Folder/Song [id1].mp3").unwrap();
    let t = track_of("/m/Folder/Song [id1].mp3", m, "Folder", None, None, None, Some(3));
    assert_eq!((t.id.as_str(), t.title.as_str(), t.artist.as_str()), ("id1", "Song", "Folder"));
    assert_eq!(t.file_size, Some(3));
}

#[test]
fn hidden_names() {
    assert!(is_hidden_name(".cache"));
    assert!(!is_hidden_name("music"));
    assert!(!is_hidden_name(""));
}
