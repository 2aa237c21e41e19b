use bard::models::LyricLine;
use bard::parser::parse_lyrics;

#[test]
fn empty_input_gives_no_lines() {
    assert!(parse_lyrics("").is_empty());
    assert!(parse_lyrics("\n\n  \n").is_empty());
}

#[test]
fn timed_lines_are_read_in_hundredths() {
    let lines = parse_lyrics("[00:10.00]Hello\n[01:02.50]World");
    assert_eq!(lines.len(), 2);
    assert_eq!(lines[0].timestamp, 10_000);
    assert_eq!(lines[0].text, "Hello");
    assert_eq!(lines[1].timestamp, 62_500);
    assert_eq!(lines[1].text, "World");
    assert!(lines[0].translation.is_none());
    assert!(lines[0].words.is_empty());
}

#[test]
fn output_is_sorted_by_time() {
    let lines = parse_lyrics("[00:20.00]c\n[00:05.00]a\n[00:10.00]b\n");
    let times: Vec<u64> = lines.iter().map(|l| l.timestamp).collect();
    assert_eq!(times, vec![5_000, 10_000, 20_000]);
    let texts: Vec<&str> = lines.iter().map(|l| l.text.as_str()).collect();
    assert_eq!(texts, vec!["a", "b", "c"]);
}

#[test]
fn next_line_with_same_time_becomes_translation() {
    let lines = parse_lyrics("[00:10.00]Hello\n[00:10.00]Bonjour\n[00:12.00]World");
    assert_eq!(lines.len(), 2);
    assert_eq!(lines[0].text, "Hello");
    assert_eq!(lines[0].translation.as_deref(), Some("Bonjour"));
    assert_eq!(lines[1].text, "World");
}

#[test]
fn third_line_with_same_time_stands_alone() {
    let lines = parse_lyrics("[00:10.00]a\n[00:10.00]b\n[00:10.00]c");
    assert_eq!(lines.len(), 2);
    assert_eq!(lines[0].text, "a");
    assert_eq!(lines[0].translation.as_deref(), Some("b"));
    assert_eq!(lines[1].text, "c");
    assert!(lines[1].translation.is_none());
}

#[test]
fn equal_times_keep_the_order_of_the_text() {
    let lines = parse_lyrics("[00:10.00]first\n[00:05.00]x\n[00:10.00]second");
    let texts: Vec<&str> = lines.iter().map(|l| l.text.as_str()).collect();
    assert_eq!(texts, vec!["x", "first", "second"]);
}

#[test]
fn translation_without_text_is_not_merged() {
    let lines = parse_lyrics("[00:10.00]Hello\n[00:10.00]   \n[00:11.00]Next");
    assert_eq!(lines.len(), 2);
    assert!(lines[0].translation.is_none());
    assert_eq!(lines[1].text, "Next");
}

#[test]
fn word_tags_give_contiguous_words() {
    let lines = parse_lyrics("[00:01.00]<00:01.00>Hel <00:01.50>lo <00:02.25>you");
    assert_eq!(lines.len(), 1);
    let l = &lines[0];
    assert_eq!(l.text, "Hel lo you");
    assert_eq!(l.words.len(), 3);
    assert_eq!((l.words[0].start_time, l.words[0].end_time), (1_000, 1_500));
    assert_eq!((l.words[1].start_time, l.words[1].end_time), (1_500, 2_250));
    assert_eq!((l.words[2].start_time, l.words[2].end_time), (2_250, 2_750));
    assert_eq!(l.words[0].text, "Hel");
    assert_eq!(l.words[2].text, "you");
    for w in l.words.windows(2) {
        assert_eq!(w[0].end_time, w[1].start_time);
    }
}

#[test]
fn line_of_tags_only_is_dropped() {
    let lines = parse_lyrics("[00:01.00]<00:01.00><00:02.00>\n[00:03.00]kept");
    assert_eq!(lines.len(), 1);
    assert_eq!(lines[0].text, "kept");
}

#[test]
fn plain_text_lines_are_kept_at_zero() {
    let lines = parse_lyrics("  Title line  \n[ar:Someone]\n[00:04.00]Sung");
    assert_eq!(lines.len(), 2);
    assert_eq!(lines[0].timestamp, 0);
    assert_eq!(lines[0].text, "Title line");
    assert_eq!(lines[1].text, "Sung");
}

#[test]
fn crlf_endings_are_removed() {
    let lines = parse_lyrics("[00:01.00]one\r\n[00:02.00]two\r\n");
    assert_eq!(lines.len(), 2);
    assert_eq!(lines[0].text, "one");
    assert_eq!(lines[1].text, "two");
}

#[test]
fn number_too_large_reads_as_zero() {
    let lines = parse_lyrics("[99999999999:01.00]x");
    assert_eq!(lines.len(), 1);
    assert_eq!(lines[0].timestamp, 1_000);
}

#[test]
fn malformed_stamp_is_plain_or_dropped() {
    let lines = parse_lyrics("[00:xx.00]broken\nplain [00:01.00] inside");
    assert_eq!(lines.len(), 1);
    assert_eq!(lines[0].timestamp, 0);
    assert_eq!(lines[0].text, "plain [00:01.00] inside");
}

#[test]
fn line_label_in_seconds() {
    let lines = parse_lyrics("[01:02.34]Hello");
    assert_eq!(lines[0].label(), "[62.34] Hello");
    let mut l = LyricLine::empty();
    l.text = "x".to_string();
    l.timestamp = 1_005;
    assert_eq!(l.label(), "[1.01] x");
    l.timestamp = 0;
    assert_eq!(l.label(), "[0.00] x");
    l.timestamp = 4;
    assert_eq!(l.label(), "[0.00] x");
}

#[test]
fn largest_readable_minutes() {
    let lines = parse_lyrics("[4294967295:00.00]last\n[4294967296:00.00]wraps");
    assert_eq!(lines.len(), 2);
    assert_eq!(lines[0].timestamp, 0);
    assert_eq!(lines[0].text, "wraps");
    assert_eq!(lines[1].timestamp, 4_294_967_295 * 60_000);
    assert_eq!(lines[1].text, "last");
}
