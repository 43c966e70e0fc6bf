use catacomb::library::{classify_file, parse_stem, subtitle_parts, FileKind};

#[test]
fn parse_stem_extracts_id_and_title() {
    let (title, id) = parse_stem("My great video [abc123]").unwrap();
    assert_eq!(title, "My great video");
    assert_eq!(id, "abc123");
}

#[test]
fn parse_stem_trims_trailing_dash() {
    let (title, _id) = parse_stem("Some video - [xyz]").unwrap();
    assert_eq!(title, "Some video");
}

#[test]
fn parse_stem_rejects_missing_brackets() {
    assert!(parse_stem("no brackets here").is_none());
}

#[test]
fn parse_stem_rejects_empty_id() {
    assert!(parse_stem("foo []").is_none());
}

#[test]
fn parse_stem_handles_brackets_in_title() {
    // The last [..] is the id; earlier ones are part of the title.
    let (title, id) = parse_stem("[NSFW] Some title [vidid]").unwrap();
    assert_eq!(id, "vidid");
    assert!(title.contains("[NSFW]"));
}

#[test]
fn parse_stem_without_title_keeps_whole_stem() {
    let (title, id) = parse_stem(" - [id9]").unwrap();
    assert_eq!(id, "id9");
    assert_eq!(title, " - [id9]");
}

#[test]
fn classifies_sidecars_and_media() {
    let (stem, kind) = classify_file("T [a].info.json").unwrap();
    assert_eq!((stem.as_str(), kind), ("T [a]", FileKind::Info));
    let (stem, kind) = classify_file("T [a].live_chat.json").unwrap();
    assert_eq!((stem.as_str(), kind), ("T [a]", FileKind::LiveChat));
    assert_eq!(classify_file("T [a].MKV").unwrap().1, FileKind::Video);
    assert_eq!(classify_file("T [a].webp").unwrap().1, FileKind::Thumb);
    assert_eq!(classify_file("T [a].description").unwrap().1, FileKind::Description);
    assert_eq!(classify_file("T [a].part").unwrap().1, FileKind::Other);
    assert!(classify_file(".hidden").is_none());
    assert!(classify_file("noext").is_none());
}

#[test]
fn subtitle_file_names() {
    assert_eq!(
        subtitle_parts("T [a].en.vtt"),
        Some(("T [a]".to_string(), "en".to_string()))
    );
    assert_eq!(
        subtitle_parts("T [a].pt-BR.srt"),
        Some(("T [a]".to_string(), "pt-BR".to_string()))
    );
    assert_eq!(subtitle_parts("nolang.vtt"), None);
    assert_eq!(subtitle_parts("T [a].mkv"), None);
}
