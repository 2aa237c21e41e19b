use bard::color::{parse_color, ColorName};
use bard::models::{LyricLine, LyricsStatus, SongStatus};
use bard::player::{music_path, song_from_metadata};
use bard::tidal::track_id;
use bard::waybar::{
    empty_output, get_lyrics_output, just_output, lyrics_output, no_song_output, song_info_output,
};

#[test]
fn lyrics_output_before_first_line() {
    let o = get_lyrics_output("", "next".to_string(), "tip".to_string());
    assert_eq!(o.text, "...");
    assert_eq!(o.alt, "");
    assert_eq!(o.tooltip, "tip");
    assert_eq!(o.class, "has-lyrics");
}

#[test]
fn lyrics_output_with_a_line() {
    let o = get_lyrics_output("now", "next".to_string(), String::new());
    assert_eq!(o.text, "now");
    assert_eq!(o.alt, "next");
    assert_eq!(o.class, "has-lyrics");
}

#[test]
fn translation_is_shown_under_the_line() {
    let mut current = LyricLine::empty();
    current.text = "Hello".to_string();
    let st = LyricsStatus {
        current_line: current,
        next_line: "World".to_string(),
        next_timestamp: Some(15_000),
        translation: Some("Bonjour".to_string()),
        current_word_index: None,
    };
    assert_eq!(lyrics_output(&st).alt, "Bonjour");
    let st = LyricsStatus { translation: None, ..st };
    assert_eq!(lyrics_output(&st).alt, "World");
}

#[test]
fn fixed_outputs() {
    assert_eq!(no_song_output().class, "no-song");
    assert_eq!(no_song_output().text, "");
    assert_eq!(just_output().text, "...");
    assert_eq!(just_output().class, "has-song");
    assert_eq!(empty_output().class, "hidden");
}

#[test]
fn song_from_player_metadata() {
    let s = song_from_metadata(
        Some(vec!["A".to_string(), "B".to_string()]),
        Some("T".to_string()),
        1_500,
        true,
        None,
    );
    assert_eq!(s.artist, "A, B");
    assert_eq!(s.title, "T");
    assert_eq!(s.id, "A, B - T");
    assert_eq!(s.position, 1_500);
    assert_eq!(s.status, SongStatus::Playing);
    let o = song_info_output(&s);
    assert_eq!(o.text, "A, B - T");
    assert_eq!(o.tooltip, "A, B - T");
    assert_eq!(o.class, "has-song");
}

#[test]
fn song_without_metadata() {
    let s = song_from_metadata(None, None, 0, false, Some("file:///x.mp3".to_string()));
    assert_eq!(s.artist, "Unknown Artist");
    assert_eq!(s.title, "Unknown Title");
    assert_eq!(s.id, "Unknown Artist - Unknown Title");
    assert_eq!(s.status, SongStatus::Paused);
    assert_eq!(s.url.as_deref(), Some("file:///x.mp3"));
}

#[test]
fn url_to_path() {
    assert_eq!(music_path("file:///home/me/a.mp3"), "/home/me/a.mp3");
    assert_eq!(music_path("file://file://a"), "a");
    assert_eq!(music_path("/plain/path"), "/plain/path");
}

#[test]
fn color_names_in_any_case() {
    assert_eq!(parse_color("Red"), ColorName::Red);
    assert_eq!(parse_color("LIGHTBLUE"), ColorName::LightBlue);
    assert_eq!(parse_color("darkgray"), ColorName::DarkGray);
    assert_eq!(parse_color("purple"), ColorName::White);
}

#[test]
fn first_track_id_of_a_search_answer() {
    assert_eq!(
        track_id(r#"{"tracks":{"items":[{"id": 12345,"title":"x"},{"id":6}]}}"#).as_deref(),
        Some("12345")
    );
    assert_eq!(track_id(r#"{"id":"abc","x":{"id":	77}}"#).as_deref(), Some("77"));
    assert_eq!(track_id(r#"{"uuid":"x"}"#), None);
}
