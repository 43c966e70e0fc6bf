use catacomb::database::VideoFlag;

#[test]
fn flag_names_round_trip() {
    for f in [VideoFlag::Bookmark, VideoFlag::Favourite, VideoFlag::Waiting, VideoFlag::Archive] {
        assert_eq!(VideoFlag::from_name(f.name()), Some(f));
    }
    assert_eq!(VideoFlag::Favourite.name(), "favourite");
}

#[test]
fn unknown_flag_names_are_refused() {
    assert_eq!(VideoFlag::from_name("watched"), None);
    assert_eq!(VideoFlag::from_name("Bookmark"), None);
    assert_eq!(VideoFlag::from_name("bookmark; DROP TABLE video_flags"), None);
    assert_eq!(VideoFlag::from_name(""), None);
}
