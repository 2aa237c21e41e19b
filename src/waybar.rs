//! What the status-bar module prints: one record per refresh.
use vstd::prelude::*;
use crate::models::{LyricsStatus, SongInfo, opt_view};

verus! {

/// One record for the status bar: the text shown, an alternative text, a tooltip, and
/// the CSS class.
#[derive(Debug, Clone)]
pub struct WaybarOutput {
    pub text: String,
    pub alt: String,
    pub tooltip: String,
    pub class: String,
}

pub struct OutputModel {
    pub text: Seq<char>,
    pub alt: Seq<char>,
    pub tooltip: Seq<char>,
    pub class: Seq<char>,
}

impl View for WaybarOutput {
    type V = OutputModel;

    open spec fn view(&self) -> OutputModel {
        OutputModel {
            text: self.text@,
            alt: self.alt@,
            tooltip: self.tooltip@,
            class: self.class@,
        }
    }
}

/// The record for a lyric line: its text and the text shown after it. Before the first
/// line, `"..."` stands for the text and nothing follows.
pub fn get_lyrics_output(current_lyric_line: &str, next_lyric_line: String, tooltip: String) -> (r:
    WaybarOutput)
    ensures
        current_lyric_line@.len() == 0 ==> r@ == (OutputModel {
            text: "..."@,
            alt: Seq::empty(),
            tooltip: tooltip@,
            class: "has-lyrics"@,
        }),
        current_lyric_line@.len() > 0 ==> r@ == (OutputModel {
            text: current_lyric_line@,
            alt: next_lyric_line@,
            tooltip: tooltip@,
            class: "has-lyrics"@,
        }),
{
    if current_lyric_line.is_empty() {
        return WaybarOutput {
            text: String::from_str("..."),
            alt: String::new(),
            tooltip,
            class: String::from_str("has-lyrics"),
        };
    }
    WaybarOutput {
        text: String::from_str(current_lyric_line),
        alt: next_lyric_line,
        tooltip,
        class: String::from_str("has-lyrics"),
    }
}

/// The record for a status: the active line, and under it its translation where it has
/// one, else the next line.
pub fn lyrics_output(status: &LyricsStatus) -> (r: WaybarOutput)
    ensures
        r@ == (OutputModel {
            text: if status.current_line@.text.len() == 0 {
                "..."@
            } else {
                status.current_line@.text
            },
            alt: if status.current_line@.text.len() == 0 {
                Seq::empty()
            } else {
                match opt_view(status.translation) {
                    Some(t) => t,
                    None => status.next_line@,
                }
            },
            tooltip: Seq::empty(),
            class: "has-lyrics"@,
        }),
{
    let next = match &status.translation {
        Some(t) => t.clone(),
        None => status.next_line.clone(),
    };
    get_lyrics_output(status.current_line.text.as_str(), next, String::new())
}

/// The record when no song plays: nothing shown.
pub fn no_song_output() -> (r: WaybarOutput)
    ensures
        r@ == (OutputModel {
            text: Seq::empty(),
            alt: Seq::empty(),
            tooltip: Seq::empty(),
            class: "no-song"@,
        }),
{
    WaybarOutput {
        text: String::new(),
        alt: String::new(),
        tooltip: String::new(),
        class: String::from_str("no-song"),
    }
}

/// The record shown while the module waits to show a song: `"..."`.
pub fn just_output() -> (r: WaybarOutput)
    ensures
        r@ == (OutputModel {
            text: "..."@,
            alt: Seq::empty(),
            tooltip: Seq::empty(),
            class: "has-song"@,
        }),
{
    WaybarOutput {
        text: String::from_str("..."),
        alt: String::new(),
        tooltip: String::new(),
        class: String::from_str("has-song"),
    }
}

/// The record while the module is hidden.
pub fn empty_output() -> (r: WaybarOutput)
    ensures
        r@ == (OutputModel {
            text: Seq::empty(),
            alt: Seq::empty(),
            tooltip: Seq::empty(),
            class: "hidden"@,
        }),
{
    WaybarOutput {
        text: String::new(),
        alt: String::new(),
        tooltip: String::new(),
        class: String::from_str("hidden"),
    }
}

/// The record for a song without lyrics: `"{artist} - {title}"`, as text and tooltip.
pub fn song_info_output(song_info: &SongInfo) -> (r: WaybarOutput)
    ensures
        r@ == (OutputModel {
            text: song_info.artist@ + " - "@ + song_info.title@,
            alt: Seq::empty(),
            tooltip: song_info.artist@ + " - "@ + song_info.title@,
            class: "has-song"@,
        }),
{
    let mut text = String::from_str(song_info.artist.as_str());
    text.append(" - ");
    text.append(song_info.title.as_str());
    let tooltip = text.clone();
    WaybarOutput { text, alt: String::new(), tooltip, class: String::from_str("has-song") }
}

} // verus!
