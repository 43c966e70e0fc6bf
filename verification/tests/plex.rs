use catacomb::platform::Platform;
use catacomb::plex::{
    aired_date, episode_nfo, episode_numbers, episode_stem, plexmatch_text, sanitize, season_label,
    season_number, show_name, tvshow_nfo, xml_escape, year_of,
};

#[test]
fn sanitize_replaces_invalid_chars() {
    assert_eq!(sanitize("a/b:c*d?e\"f<g>h|i\\j"), "a-b-c-d-e-f-g-h-i-j");
}

#[test]
fn year_of_extracts_year() {
    assert_eq!(year_of("20240315"), 2024);
    assert_eq!(year_of(""), 0);
    assert_eq!(year_of("bad"), 0);
}

#[test]
fn aired_date_formats_yyyymmdd() {
    assert_eq!(aired_date("20240315"), "2024-03-15");
    assert_eq!(aired_date("bad"), "");
}

#[test]
fn xml_escape_escapes_special_chars() {
    assert_eq!(xml_escape("a & b < c > d"), "a &amp; b &lt; c &gt; d");
}

#[test]
fn year_of_unparseable_prefix() {
    assert_eq!(year_of("abcd0101"), 0);
    assert_eq!(year_of("+123xxxx"), 123);
}

#[test]
fn show_season_and_episode_names() {
    assert_eq!(show_name(" Chan: One ", Platform::YouTube), "Chan- One");
    assert_eq!(show_name("Chan", Platform::TikTok), "TikTok - Chan");
    assert_eq!(season_label(2023), "Season 2023");
    assert_eq!(season_label(0), "Season 01");
    assert_eq!(season_number(0), 1);
    assert_eq!(season_number(2023), 2023);
    assert_eq!(episode_stem("Chan", 2023, 7, "A/B"), "Chan - S2023E007 - A-B");
    assert_eq!(plexmatch_text("Chan"), "title: Chan\n");
}

#[test]
fn nfo_texts() {
    assert_eq!(
        tvshow_nfo("A & B", "up", "p<"),
        "<?xml version=\"1.0\" encoding=\"UTF-8\"?>\n<tvshow>\n  <title>A &amp; B</title>\n  <studio>up</studio>\n  <plot>p&lt;</plot>\n</tvshow>\n"
    );
    assert_eq!(
        episode_nfo("T", 2024, 3, "2024-03-15", 12, "plot"),
        "<?xml version=\"1.0\" encoding=\"UTF-8\"?>\n<episodedetails>\n  <title>T</title>\n  <season>2024</season>\n  <episode>3</episode>\n  <aired>2024-03-15</aired>\n  <runtime>12</runtime>\n  <plot>plot</plot>\n</episodedetails>\n"
    );
}

#[test]
fn episodes_numbered_by_date_within_year() {
    let dates: Vec<String> = vec![
        "20240301".into(),
        "20230105".into(),
        "20240101".into(),
        String::new(),
        "20240101".into(),
    ];
    let eps = episode_numbers(&dates);
    assert_eq!(eps, vec![(2024, 3), (2023, 1), (2024, 1), (0, 1), (2024, 2)]);
}
