use catacomb::platform::{
    classify_url, kind_for_platform, platform_root, parse_source_url, source_url_contents, Platform, UrlKind,
};

#[test]
fn youtube_urls_route_to_youtube() {
    assert_eq!(Platform::from_url("https://www.youtube.com/@x"), Platform::YouTube);
    assert_eq!(Platform::from_url("https://youtu.be/abc"), Platform::YouTube);
    assert_eq!(Platform::from_url("https://m.youtube.com/watch?v=x"), Platform::YouTube);
}

#[test]
fn other_platforms_route_correctly() {
    assert_eq!(Platform::from_url("https://www.tiktok.com/@u"), Platform::TikTok);
    assert_eq!(Platform::from_url("https://www.twitch.tv/x"), Platform::Twitch);
    assert_eq!(Platform::from_url("https://vimeo.com/12345"), Platform::Vimeo);
    assert_eq!(Platform::from_url("https://artist.bandcamp.com/album/x"), Platform::Bandcamp);
    assert_eq!(Platform::from_url("https://soundcloud.com/x"), Platform::SoundCloud);
    assert_eq!(Platform::from_url("https://odysee.com/@x"), Platform::Odysee);
    assert_eq!(Platform::from_url("https://example.com/video.mp4"), Platform::Other);
}

#[test]
fn tiktok_handle_extracted() {
    let info = classify_url("https://www.tiktok.com/@coolperson");
    assert_eq!(info.platform, Platform::TikTok);
    match info.kind {
        UrlKind::Channel { handle } => assert_eq!(handle, "coolperson"),
        _ => panic!("expected Channel"),
    }
}

#[test]
fn tiktok_video_url_classified_as_video() {
    let info = classify_url("https://www.tiktok.com/@coolperson/video/7123456789");
    assert!(matches!(info.kind, UrlKind::Video));
}

#[test]
fn twitch_channel_url() {
    let info = classify_url("https://www.twitch.tv/streamername");
    assert!(matches!(info.kind, UrlKind::Channel { .. }));
}

#[test]
fn twitch_vod_url_is_video() {
    let info = classify_url("https://www.twitch.tv/videos/123456789");
    assert!(matches!(info.kind, UrlKind::Video));
}

#[test]
fn twitch_clips_listing_is_channel() {
    let info = classify_url("https://www.twitch.tv/streamername/clips");
    match info.kind {
        UrlKind::Channel { handle } => assert_eq!(handle, "streamername"),
        _ => panic!("expected Channel with clips listing"),
    }
}

#[test]
fn vimeo_numeric_is_video() {
    let info = classify_url("https://vimeo.com/123456");
    assert!(matches!(info.kind, UrlKind::Video));
}

#[test]
fn vimeo_user_is_channel() {
    let info = classify_url("https://vimeo.com/staffpicks");
    assert!(matches!(info.kind, UrlKind::Channel { .. }));
}

#[test]
fn bandcamp_subdomain_is_channel() {
    let info = classify_url("https://amazingartist.bandcamp.com/");
    assert!(matches!(info.kind, UrlKind::Channel { .. }));
}

#[test]
fn bandcamp_album_is_playlist() {
    let info = classify_url("https://amazingartist.bandcamp.com/album/my-album");
    assert!(matches!(info.kind, UrlKind::Playlist));
}

#[test]
fn soundcloud_user_is_channel() {
    let info = classify_url("https://soundcloud.com/awesomeartist");
    assert!(matches!(info.kind, UrlKind::Channel { .. }));
}

#[test]
fn soundcloud_set_is_playlist() {
    let info = classify_url("https://soundcloud.com/awesomeartist/sets/myset");
    assert!(matches!(info.kind, UrlKind::Playlist));
}

#[test]
fn odysee_handle_strips_claim_id() {
    let info = classify_url("https://odysee.com/@somebody:abc");
    match info.kind {
        UrlKind::Channel { handle } => assert_eq!(handle, "somebody"),
        _ => panic!("expected Channel"),
    }
}

#[test]
fn platform_root_youtube_is_channels_root() {
    assert_eq!(platform_root("/foo/channels", Platform::YouTube), "/foo/channels");
}

#[test]
fn platform_root_others_are_siblings() {
    assert_eq!(platform_root("/foo/channels", Platform::TikTok), "/foo/tiktok");
    assert_eq!(platform_root("/foo/channels", Platform::Twitch), "/foo/twitch");
}

#[test]
fn twitch_skips_impersonation() {
    assert!(Platform::Twitch.impersonate_target().is_none());
}

#[test]
fn tiktok_uses_mobile_profile() {
    let t = Platform::TikTok.impersonate_target().unwrap();
    assert!(t.to_lowercase().contains("android"));
}

#[test]
fn youtube_uses_desktop_chrome() {
    let t = Platform::YouTube.impersonate_target().unwrap();
    assert!(t.starts_with("Chrome-"));
}

#[test]
fn platform_from_url_youtube_dir_is_channels() {
    let p = Platform::from_url("https://youtu.be/dQw4w9WgXcQ");
    assert_eq!(p.dir_name(), "channels");
    assert_eq!(p.display_name(), "YouTube");
}

#[test]
fn platform_from_url_unknown_is_other() {
    let p = Platform::from_url("https://example.com/x");
    assert_eq!(p.dir_name(), "other");
}

#[test]
fn from_url_is_case_insensitive() {
    assert_eq!(Platform::from_url("HTTPS://WWW.YOUTUBE.COM/@X"), Platform::YouTube);
    assert_eq!(Platform::from_lowercase_url("https://vimeo.com/1"), Platform::Vimeo);
}

#[test]
fn dir_names_round_trip() {
    for p in Platform::all() {
        assert_eq!(Platform::from_dir_name(p.dir_name()), Some(p));
    }
    assert_eq!(Platform::from_dir_name("nope"), None);
    assert_eq!(Platform::all().len(), 8);
}

#[test]
fn youtube_kinds() {
    assert!(matches!(classify_url("https://www.youtube.com/playlist?list=PL1").kind, UrlKind::Playlist));
    match classify_url("https://www.youtube.com/channel/UCabc/videos").kind {
        UrlKind::Channel { handle } => assert_eq!(handle, "UCabc"),
        _ => panic!("expected Channel"),
    }
    match classify_url("https://www.youtube.com/@handle?x=1").kind {
        UrlKind::Channel { handle } => assert_eq!(handle, "handle"),
        _ => panic!("expected Channel"),
    }
    assert!(matches!(classify_url("https://www.youtube.com/watch?v=abc").kind, UrlKind::Video));
    assert!(matches!(classify_url("https://www.youtube.com/feed").kind, UrlKind::Unknown));
    assert!(matches!(classify_url("https://example.com/x").kind, UrlKind::Unknown));
}

#[test]
fn more_kinds() {
    assert!(matches!(classify_url("https://www.twitch.tv/user/clip/abc").kind, UrlKind::Video));
    assert!(matches!(classify_url("https://www.twitch.tv/user/schedule").kind, UrlKind::Unknown));
    match classify_url("https://vimeo.com/channels/staff").kind {
        UrlKind::Channel { handle } => assert_eq!(handle, "staff"),
        _ => panic!("expected Channel"),
    }
    assert!(matches!(classify_url("https://vimeo.com/channels").kind, UrlKind::Unknown));
    assert!(matches!(classify_url("https://a.bandcamp.com/track/t").kind, UrlKind::Video));
    match classify_url("https://a.bandcamp.com").kind {
        UrlKind::Channel { handle } => assert_eq!(handle, "a"),
        _ => panic!("expected Channel"),
    }
    assert!(matches!(classify_url("https://soundcloud.com/u/track").kind, UrlKind::Video));
    assert!(matches!(classify_url("https://odysee.com/@c:1/title:2").kind, UrlKind::Video));
    assert!(matches!(classify_url("https://vm.tiktok.com/ZM123/").kind, UrlKind::Video));
}

#[test]
fn platform_flags() {
    assert!(Platform::Bandcamp.is_audio_first());
    assert!(Platform::SoundCloud.is_audio_first());
    assert!(!Platform::YouTube.is_audio_first());
    assert_eq!(Platform::default(), Platform::YouTube);
    assert_eq!(Platform::Vimeo.icon(), "🎬");
}

#[test]
fn source_url_sidecar_text() {
    assert_eq!(source_url_contents("  https://x.y/z \n"), "https://x.y/z");
    assert_eq!(parse_source_url("https://x.y/z\n"), Some("https://x.y/z".to_string()));
    assert_eq!(parse_source_url("  \n"), None);
    assert!(catacomb::platform::source_url_path("/lib/chan").ends_with(".source-url"));
}

#[test]
fn kind_follows_the_given_platform() {
    match kind_for_platform(Platform::YouTube, "https://www.youtube.com/@LinusTechTips") {
        UrlKind::Channel { handle } => assert_eq!(handle, "LinusTechTips"),
        other => panic!("expected a channel, got {other:?}"),
    }
    assert!(matches!(kind_for_platform(Platform::YouTube, "https://www.youtube.com/watch?v=abc"), UrlKind::Video));
    assert!(matches!(kind_for_platform(Platform::Other, "https://example.com/x"), UrlKind::Unknown));
}

#[test]
fn channel_handles_are_single_folders() {
    for url in [
        "https://vimeo.com/channels/staffpicks/123",
        "https://www.youtube.com/@someone/videos",
        "https://artist.bandcamp.com/",
        "https://odysee.com/@chan:7",
        "https://www.twitch.tv/streamer/videos?filter=all",
    ] {
        match classify_url(url).kind {
            UrlKind::Channel { handle } => assert!(!handle.contains('/') && !handle.is_empty(), "{url}: {handle}"),
            other => panic!("{url}: {other:?}"),
        }
    }
}
