use bard::display::{
    current_line_index, get_lyrics_status, has_word_timing, next_delay, plan_refresh,
    visible_range, word_states, WordState, LEAD_OFFSET_MS, NO_LYRICS_DELAY_MS, PAUSED_DELAY_MS,
};
use bard::models::{LyricLine, LyricsStatus, SongInfo, SongStatus, WordTimestamp};

fn line(timestamp: u64, text: &str) -> LyricLine {
    LyricLine { timestamp, text: text.to_string(), translation: None, words: Vec::new() }
}

fn hello_world() -> Vec<LyricLine> {
    vec![line(10_000, "Hello"), line(15_000, "World")]
}

fn status_with_next(next: Option<u64>) -> LyricsStatus {
    LyricsStatus {
        current_line: LyricLine::empty(),
        next_line: String::new(),
        next_timestamp: next,
        translation: None,
        current_word_index: None,
    }
}

#[test]
fn no_lines_give_an_empty_status() {
    let st = get_lyrics_status(&[], 5_000, LEAD_OFFSET_MS);
    assert_eq!(st.current_line.text, "");
    assert_eq!(st.next_line, "");
    assert_eq!(st.next_timestamp, None);
    assert_eq!(st.translation, None);
    assert_eq!(st.current_word_index, None);
}

#[test]
fn before_first_line() {
    let st = get_lyrics_status(&hello_world(), 0, 1_000);
    assert_eq!(st.current_line.text, "");
    assert_eq!(st.next_line, "Hello");
    assert_eq!(st.next_timestamp, Some(10_000));
}

#[test]
fn mid_sequence() {
    let st = get_lyrics_status(&hello_world(), 12_000, 1_000);
    assert_eq!(st.current_line.text, "Hello");
    assert_eq!(st.next_line, "World");
    assert_eq!(st.next_timestamp, Some(15_000));
}

#[test]
fn after_last_line() {
    let st = get_lyrics_status(&hello_world(), 20_000, 1_000);
    assert_eq!(st.current_line.text, "World");
    assert_eq!(st.next_line, "");
    assert_eq!(st.next_timestamp, None);
}

#[test]
fn lead_offset_moves_the_boundary() {
    let lines = hello_world();
    assert_eq!(get_lyrics_status(&lines, 9_000, 1_000).current_line.text, "Hello");
    assert_eq!(get_lyrics_status(&lines, 8_999, 1_000).current_line.text, "");
    assert_eq!(get_lyrics_status(&lines, 10_050, -100).current_line.text, "");
    assert_eq!(get_lyrics_status(&lines, 10_100, -100).current_line.text, "Hello");
}

#[test]
fn translation_of_the_active_line() {
    let mut lines = hello_world();
    lines[0].translation = Some("Bonjour".to_string());
    let st = get_lyrics_status(&lines, 11_000, 0);
    assert_eq!(st.translation.as_deref(), Some("Bonjour"));
}

#[test]
fn active_word_index() {
    let mut l = line(1_000, "a b");
    l.words = vec![
        WordTimestamp { start_time: 1_000, end_time: 1_500, text: "a".to_string() },
        WordTimestamp { start_time: 1_500, end_time: 2_000, text: "b".to_string() },
    ];
    let lines = vec![l];
    assert_eq!(get_lyrics_status(&lines, 1_000, 0).current_word_index, Some(0));
    assert_eq!(get_lyrics_status(&lines, 1_600, 0).current_word_index, Some(1));
    assert_eq!(get_lyrics_status(&lines, 2_000, 0).current_word_index, None);
    let states = word_states(&lines[0], 1_600, 0);
    assert_eq!(states, vec![WordState::Sung, WordState::Active]);
    assert_eq!(word_states(&lines[0], 900, 0), vec![WordState::Upcoming, WordState::Upcoming]);
    assert!(has_word_timing(&lines));
    assert!(!has_word_timing(&hello_world()));
}

#[test]
fn current_index_is_the_last_started_line() {
    let lines = hello_world();
    assert_eq!(current_line_index(&lines, 0, 0), None);
    assert_eq!(current_line_index(&lines, 10_000, 0), Some(0));
    assert_eq!(current_line_index(&lines, 15_000, 0), Some(1));
}

#[test]
fn delay_is_clamped_to_the_refresh_window() {
    assert_eq!(next_delay(&status_with_next(Some(10_000)), 9_995, false), 10);
    assert_eq!(next_delay(&status_with_next(Some(10_000)), 9_700, false), 300);
    assert_eq!(next_delay(&status_with_next(Some(10_000)), 5_000, false), 1_000);
    assert_eq!(next_delay(&status_with_next(Some(10_000)), 9_990, true), 50);
    assert_eq!(next_delay(&status_with_next(Some(10_000)), 5_000, true), 500);
    assert_eq!(next_delay(&status_with_next(Some(10_000)), 9_800, true), 200);
}

#[test]
fn delay_when_late_or_idle() {
    assert_eq!(next_delay(&status_with_next(Some(10_000)), 10_000, false), 50);
    assert_eq!(next_delay(&status_with_next(Some(10_000)), 12_000, true), 50);
    assert_eq!(next_delay(&status_with_next(None), 12_000, true), 200);
    assert_eq!(next_delay(&status_with_next(None), 12_000, false), 1_000);
}

#[test]
fn visible_window_around_the_active_line() {
    assert_eq!(visible_range(100, 50, 34), (40, 70));
    assert_eq!(visible_range(100, 5, 34), (0, 25));
    assert_eq!(visible_range(10, 5, 34), (0, 10));
    assert_eq!(visible_range(10, 0, 2), (0, 0));
}

fn song(status: SongStatus, position: u64) -> SongInfo {
    SongInfo {
        id: "A - T".to_string(),
        artist: "A".to_string(),
        title: "T".to_string(),
        position,
        status,
        url: None,
    }
}

#[test]
fn refresh_plan() {
    let lines = hello_world();
    let r = plan_refresh(None, &song(SongStatus::Playing, 0), 1_000);
    assert!(r.status.is_none());
    assert_eq!(r.delay_ms, NO_LYRICS_DELAY_MS);
    let r = plan_refresh(Some(&lines), &song(SongStatus::Paused, 0), 1_000);
    assert!(r.status.is_none());
    assert_eq!(r.delay_ms, PAUSED_DELAY_MS);
    let r = plan_refresh(Some(&lines), &song(SongStatus::Playing, 13_700), 1_000);
    assert_eq!(r.status.as_ref().unwrap().current_line.text, "Hello");
    assert_eq!(r.delay_ms, 1_000);
    let r = plan_refresh(Some(&lines), &song(SongStatus::Playing, 14_700), 0);
    assert_eq!(r.status.as_ref().unwrap().current_line.text, "Hello");
    assert_eq!(r.delay_ms, 300);
}
