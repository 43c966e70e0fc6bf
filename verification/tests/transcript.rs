use catacomb::vtt::cue_texts;

fn lines_of(text: &str) -> Vec<String> {
    text.lines().map(str::to_string).collect()
}

fn timing_of(lines: &[String]) -> Vec<bool> {
    lines.iter().map(|l| l.contains("-->")).collect()
}

#[test]
fn cues_keep_file_order_and_strip_tags() {
    let lines = lines_of(
        "WEBVTT\n\n00:00:01.000 --> 00:00:03.000\nHello <c>world</c>\n\n\
         00:01:05.500 --> 00:01:07.000 align:start\nSecond line\n",
    );
    let cues = cue_texts(&lines, &timing_of(&lines));
    assert_eq!(cues, vec![(2, "Hello world".to_string()), (5, "Second line".to_string())]);
}

#[test]
fn consecutive_duplicate_cues_collapse() {
    let lines = lines_of(
        "1\n00:00:02,000 --> 00:00:04,000\nsame\n\n2\n00:00:04,000 --> 00:00:06,000\nsame\n",
    );
    let cues = cue_texts(&lines, &timing_of(&lines));
    assert_eq!(cues, vec![(1, "same".to_string())]);
}

#[test]
fn repeated_text_after_another_cue_is_kept() {
    let lines = lines_of("a --> b\nx\n\nc --> d\ny\n\ne --> f\nx\n");
    let cues = cue_texts(&lines, &timing_of(&lines));
    let texts: Vec<&str> = cues.iter().map(|c| c.1.as_str()).collect();
    assert_eq!(texts, vec!["x", "y", "x"]);
}

#[test]
fn multi_line_cue_text_is_joined_and_spaces_collapse() {
    let lines = lines_of("WEBVTT\n\n00:00:00.000 --> 00:00:02.000\nline   one\n  line two  \n");
    let cues = cue_texts(&lines, &timing_of(&lines));
    assert_eq!(cues, vec![(2, "line one line two".to_string())]);
}

#[test]
fn header_only_and_empty_input_give_no_cues() {
    let lines = lines_of("WEBVTT\n\n");
    assert!(cue_texts(&lines, &timing_of(&lines)).is_empty());
    assert!(cue_texts(&Vec::new(), &Vec::new()).is_empty());
}

#[test]
fn cue_with_only_tags_is_dropped() {
    let lines = lines_of("00:01 --> 00:02\n<c></c>\n\n00:03 --> 00:04\nok\n");
    let cues = cue_texts(&lines, &timing_of(&lines));
    assert_eq!(cues, vec![(3, "ok".to_string())]);
}

#[test]
fn unreadable_timing_lines_are_not_cues() {
    let lines = lines_of("xx --> yy\nnot a cue\n");
    assert!(cue_texts(&lines, &vec![false, false]).is_empty());
    assert!(cue_texts(&lines, &vec![]).is_empty());
}
