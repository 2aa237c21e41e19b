//! The data that the parser produces and the resolver reads.
use vstd::prelude::*;
use crate::text::{decimal, decimal_string};

verus! {

/// One word of a line with its own timing: it is sung from `start` until `end`.
pub struct WordModel {
    pub start: nat,
    pub end: nat,
    pub text: Seq<char>,
}

/// A timed line: `translation` is a second text that shares the line's timestamp.
pub struct LineModel {
    pub timestamp: nat,
    pub text: Seq<char>,
    pub translation: Option<Seq<char>>,
    pub words: Seq<WordModel>,
}

/// A word of a line with its start and end, in milliseconds.
#[derive(Debug, Clone)]
pub struct WordTimestamp {
    pub start_time: u64,
    pub end_time: u64,
    pub text: String,
}

impl View for WordTimestamp {
    type V = WordModel;

    open spec fn view(&self) -> WordModel {
        WordModel { start: self.start_time as nat, end: self.end_time as nat, text: self.text@ }
    }
}

/// A lyric line: its timestamp in milliseconds, its text, an optional translation,
/// and its words with their own timing (empty where the line has none).
#[derive(Debug, Clone)]
pub struct LyricLine {
    pub timestamp: u64,
    pub text: String,
    pub translation: Option<String>,
    pub words: Vec<WordTimestamp>,
}

pub open spec fn opt_view(o: Option<String>) -> Option<Seq<char>> {
    match o {
        Some(s) => Some(s@),
        None => None,
    }
}

pub open spec fn words_view(ws: Seq<WordTimestamp>) -> Seq<WordModel> {
    ws.map_values(|w: WordTimestamp| w@)
}

impl View for LyricLine {
    type V = LineModel;

    open spec fn view(&self) -> LineModel {
        LineModel {
            timestamp: self.timestamp as nat,
            text: self.text@,
            translation: opt_view(self.translation),
            words: words_view(self.words@),
        }
    }
}

pub open spec fn lines_view(ls: Seq<LyricLine>) -> Seq<LineModel> {
    ls.map_values(|l: LyricLine| l@)
}

/// The line's time in hundredths of a second, rounded half up.
pub open spec fn hundredths_of(ms: nat) -> nat {
    ms / 10 + if ms % 10 >= 5 {
        1nat
    } else {
        0nat
    }
}

/// A line as `"[S.CC] text"`.
pub open spec fn label_of(l: LineModel) -> Seq<char> {
    let h = hundredths_of(l.timestamp);
    "["@ + decimal(h / 100) + "."@ + (if h % 100 < 10 {
        "0"@
    } else {
        Seq::empty()
    }) + decimal(h % 100) + "] "@ + l.text
}

/// The placeholder line that stands for "no line yet".
pub open spec fn empty_line() -> LineModel {
    LineModel { timestamp: 0, text: Seq::empty(), translation: None, words: Seq::empty() }
}

impl WordTimestamp {
    /// A copy of this word.
    pub fn duplicate(&self) -> (r: WordTimestamp)
        ensures
            r@ == self@,
    {
        WordTimestamp { start_time: self.start_time, end_time: self.end_time, text: self.text.clone() }
    }
}

pub fn duplicate_opt(o: &Option<String>) -> (r: Option<String>)
    ensures
        opt_view(r) == opt_view(*o),
{
    match o {
        Some(s) => Some(s.clone()),
        None => None,
    }
}

impl LyricLine {
    /// A copy of this line.
    pub fn duplicate(&self) -> (r: LyricLine)
        ensures
            r@ == self@,
    {
        let mut words: Vec<WordTimestamp> = Vec::new();
        let mut k: usize = 0;
        while k < self.words.len()
            invariant
                k <= self.words@.len(),
                words_view(words@) == words_view(self.words@).take(k as int),
            decreases self.words@.len() - k,
        {
            let ghost before = words_view(words@);
            let w = self.words[k].duplicate();
            words.push(w);
            assert(words_view(words@) =~= before.push(w@));
            assert(words_view(self.words@).take(k + 1) =~= words_view(self.words@).take(
                k as int,
            ).push(w@));
            k += 1;
        }
        assert(words_view(self.words@).take(k as int) =~= words_view(self.words@));
        LyricLine {
            timestamp: self.timestamp,
            text: self.text.clone(),
            translation: duplicate_opt(&self.translation),
            words,
        }
    }

    /// The line as `"[S.CC] text"`: its time in seconds, rounded to hundredths (half up).
    pub fn label(&self) -> (r: String)
        ensures
            r@ == label_of(self@),
    {
        let hundredths = self.timestamp / 10 + if self.timestamp % 10 >= 5 {
            1
        } else {
            0
        };
        let mut r = String::from_str("[");
        r.append(decimal_string(hundredths / 100).as_str());
        r.append(".");
        if hundredths % 100 < 10 {
            r.append("0");
        }
        r.append(decimal_string(hundredths % 100).as_str());
        r.append("] ");
        r.append(self.text.as_str());
        r
    }

    /// The placeholder line: no text, at time zero.
    pub fn empty() -> (r: LyricLine)
        ensures
            r@ == empty_line(),
    {
        let r = LyricLine {
            timestamp: 0,
            text: String::new(),
            translation: None,
            words: Vec::new(),
        };
        assert(r@.words =~= Seq::<WordModel>::empty());
        r
    }
}

/// What the resolver found for a playback position.
#[derive(Debug, Clone)]
pub struct LyricsStatus {
    /// The active line, or the placeholder line before the first one.
    pub current_line: LyricLine,
    /// The text of the line after the active one, empty if there is none.
    pub next_line: String,
    /// When the line after the active one starts.
    pub next_timestamp: Option<u64>,
    /// The active line's translation.
    pub translation: Option<String>,
    /// The word of the active line that is being sung.
    pub current_word_index: Option<usize>,
}

/// Whether the player is playing.
#[derive(Debug, Clone, Copy, PartialEq, Eq, Structural)]
pub enum SongStatus {
    Paused,
    Playing,
}

/// The song that a player reports, with its position in milliseconds.
#[derive(Debug, Clone)]
pub struct SongInfo {
    pub id: String,
    pub artist: String,
    pub title: String,
    pub position: u64,
    pub status: SongStatus,
    pub url: Option<String>,
}

} // verus!
