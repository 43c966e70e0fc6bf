use catacomb::desktop::format_clock;
use catacomb::feed::{mime_for, pub_date, render, rfc2822, xml_escape, Feed, FeedItem};

#[test]
fn mime_by_extension() {
    assert_eq!(mime_for("a.mp4"), "video/mp4");
    assert_eq!(mime_for("a.MKV"), "video/x-matroska");
    assert_eq!(mime_for("a.opus"), "audio/ogg");
    assert_eq!(mime_for("a.weird"), "application/octet-stream");
}

#[test]
fn mime_without_extension_is_generic() {
    assert_eq!(mime_for("/library/README"), "application/octet-stream");
    assert_eq!(mime_for("clip.m4a"), "audio/mp4");
}

#[test]
fn escapes_xml() {
    assert_eq!(xml_escape("a & b <c> \"d\" 'e'"), "a &amp; b &lt;c&gt; &quot;d&quot; &apos;e&apos;");
    assert_eq!(xml_escape("tab\tkeep\u{0}drop"), "tab\tkeepdrop");
}

#[test]
fn duration_formats() {
    assert_eq!(format_clock(65), "1:05");
    assert_eq!(format_clock(3661), "1:01:01");
    assert_eq!(format_clock(0), "0:00");
}

#[test]
fn upload_date_to_rfc2822() {
    // 2024-01-02 → a Tuesday.
    assert_eq!(pub_date(Some("20240102"), None), "Tue, 02 Jan 2024 00:00:00 GMT");
    // The Unix epoch is a Thursday.
    assert_eq!(pub_date(None, Some(0)), "Thu, 01 Jan 1970 00:00:00 GMT");
    // Garbage upload date falls back to the mtime.
    assert_eq!(pub_date(Some("notadate"), Some(0)), "Thu, 01 Jan 1970 00:00:00 GMT");
}

#[test]
fn rfc2822_of_known_times() {
    assert_eq!(rfc2822(1_779_475_331), "Fri, 22 May 2026 18:42:11 GMT");
    assert_eq!(rfc2822(-86_400), "Wed, 31 Dec 1969 00:00:00 GMT");
    // An impossible month falls back to the mtime.
    assert_eq!(pub_date(Some("20241302"), Some(86_400)), "Fri, 02 Jan 1970 00:00:00 GMT");
}

#[test]
fn renders_valid_rss() {
    let feed = Feed {
        title: "catacomb — Demo & co".into(),
        description: "archive".into(),
        link: "http://host/".into(),
        items: vec![FeedItem {
            title: "Episode <1>".into(),
            description: "desc".into(),
            enclosure_url: "http://host/files/channels/Demo/a.mkv".into(),
            enclosure_len: 12345,
            enclosure_type: "video/x-matroska".into(),
            guid: "vidABC".into(),
            pub_date: "Tue, 02 Jan 2024 00:00:00 GMT".into(),
            duration: "1:05".into(),
            image_url: "http://host/files/channels/Demo/a.webp".into(),
        }],
    };
    let xml = render(&feed);
    assert!(xml.starts_with("<?xml"));
    assert!(xml.contains("<title>catacomb — Demo &amp; co</title>"));
    assert!(xml.contains("<title>Episode &lt;1&gt;</title>"));
    assert!(xml.contains(r#"<enclosure url="http://host/files/channels/Demo/a.mkv" length="12345" type="video/x-matroska"/>"#));
    assert!(xml.contains("<itunes:duration>1:05</itunes:duration>"));
    assert!(xml.contains(r#"<guid isPermaLink="false">vidABC</guid>"#));
    assert!(xml.trim_end().ends_with("</rss>"));
}

#[test]
fn optional_item_tags_omitted_when_empty() {
    let feed = Feed {
        title: "t".into(),
        description: "d".into(),
        link: "l".into(),
        items: vec![FeedItem {
            title: "x".into(),
            description: String::new(),
            enclosure_url: "u".into(),
            enclosure_len: 0,
            enclosure_type: "video/mp4".into(),
            guid: "g".into(),
            pub_date: "p".into(),
            duration: String::new(),
            image_url: String::new(),
        }],
    };
    let xml = render(&feed);
    assert!(!xml.contains("itunes:duration"));
    assert!(!xml.contains("itunes:image"));
    assert!(xml.contains("<item>\n<title>x</title>\n"));
}
