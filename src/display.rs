//! From a playback position to what is on screen: the active line and word, and when
//! to look again.
use vstd::prelude::*;
use crate::models::{
    LineModel, LyricLine, LyricsStatus, SongInfo, SongStatus, WordModel, empty_line, lines_view,
    opt_view,
};

verus! {

/// The default lead that is added to a reported position before it is compared with the
/// timestamps, for players that report a position lagging behind what is heard. Callers
/// pass their own: its right size and sign depend on the player.
pub const LEAD_OFFSET_MS: i64 = 1000;

/// The shortest and longest wait before the next refresh when words are timed.
pub const WORD_REFRESH_MIN_MS: u64 = 50;
pub const WORD_REFRESH_MAX_MS: u64 = 500;

/// The shortest and longest wait before the next refresh when only lines are timed.
pub const LINE_REFRESH_MIN_MS: u64 = 10;
pub const LINE_REFRESH_MAX_MS: u64 = 1000;

/// The wait when the next line should already have started.
pub const RECOVERY_MS: u64 = 50;

/// The wait after the last line, with and without timed words.
pub const IDLE_WORD_MS: u64 = 200;
pub const IDLE_LINE_MS: u64 = 1000;

/// The position that is compared with the timestamps.
pub open spec fn adjusted(position: u64, offset: i64) -> int {
    position as int + offset as int
}

/// The last of the first `n` lines that starts at or before `adj`.
pub open spec fn latest_from(ls: Seq<LineModel>, adj: int, n: int) -> Option<int>
    decreases n,
{
    if n <= 0 {
        None
    } else if ls[n - 1].timestamp <= adj {
        Some(n - 1)
    } else {
        latest_from(ls, adj, n - 1)
    }
}

/// The active line: the last one that starts at or before `adj`.
pub open spec fn current_index(ls: Seq<LineModel>, adj: int) -> Option<int> {
    latest_from(ls, adj, ls.len() as int)
}

pub open spec fn is_active(w: WordModel, adj: int) -> bool {
    w.start <= adj && adj < w.end
}

/// The first word from `k` on that is being sung at `adj`.
pub open spec fn first_active_from(ws: Seq<WordModel>, adj: int, k: int) -> Option<int>
    decreases ws.len() - k,
{
    if k < 0 || k >= ws.len() {
        None
    } else if is_active(ws[k], adj) {
        Some(k)
    } else {
        first_active_from(ws, adj, k + 1)
    }
}

pub struct StatusModel {
    pub current_line: LineModel,
    pub next_line: Seq<char>,
    pub next_timestamp: Option<nat>,
    pub translation: Option<Seq<char>>,
    pub current_word_index: Option<int>,
}

impl View for LyricsStatus {
    type V = StatusModel;

    open spec fn view(&self) -> StatusModel {
        StatusModel {
            current_line: self.current_line@,
            next_line: self.next_line@,
            next_timestamp: match self.next_timestamp {
                Some(t) => Some(t as nat),
                None => None,
            },
            translation: opt_view(self.translation),
            current_word_index: match self.current_word_index {
                Some(k) => Some(k as int),
                None => None,
            },
        }
    }
}

/// The status at position `adj`.
pub open spec fn resolve(ls: Seq<LineModel>, adj: int) -> StatusModel {
    match current_index(ls, adj) {
        None => StatusModel {
            current_line: empty_line(),
            next_line: if ls.len() > 0 {
                ls[0].text
            } else {
                Seq::empty()
            },
            next_timestamp: if ls.len() > 0 {
                Some(ls[0].timestamp)
            } else {
                None
            },
            translation: None,
            current_word_index: None,
        },
        Some(i) => StatusModel {
            current_line: ls[i],
            next_line: if i + 1 < ls.len() {
                ls[i + 1].text
            } else {
                Seq::empty()
            },
            next_timestamp: if i + 1 < ls.len() {
                Some(ls[i + 1].timestamp)
            } else {
                None
            },
            translation: ls[i].translation,
            current_word_index: first_active_from(ls[i].words, adj, 0),
        },
    }
}

proof fn lemma_latest_from(ls: Seq<LineModel>, adj: int, n: int)
    requires
        0 <= n <= ls.len(),
    ensures
        latest_from(ls, adj, n) matches Some(i) ==> 0 <= i < n && ls[i].timestamp <= adj && forall|
            j: int,
        | i < j < n ==> ls[j].timestamp > adj,
        latest_from(ls, adj, n) is None ==> forall|j: int| 0 <= j < n ==> ls[j].timestamp > adj,
    decreases n,
{
    if n > 0 {
        lemma_latest_from(ls, adj, n - 1);
    }
}

/// The index of the active line at `position` with lead `offset`: the last line that starts
/// at or before the adjusted position.
pub fn current_line_index(lyrics: &[LyricLine], position: u64, offset: i64) -> (r: Option<usize>)
    ensures
        match r {
            Some(i) => current_index(lines_view(lyrics@), adjusted(position, offset)) == Some(
                i as int,
            ),
            None => current_index(lines_view(lyrics@), adjusted(position, offset)) is None,
        },
        r matches Some(i) ==> i < lyrics@.len() && lyrics@[i as int].timestamp <= adjusted(
            position,
            offset,
        ) && forall|j: int|
            i < j < lyrics@.len() ==> lyrics@[j].timestamp > adjusted(position, offset),
        r is None ==> forall|j: int|
            0 <= j < lyrics@.len() ==> lyrics@[j].timestamp > adjusted(position, offset),
{
    let ghost ls = lines_view(lyrics@);
    let ghost adj = adjusted(position, offset);
    let adj_e: i128 = position as i128 + offset as i128;
    let mut n = lyrics.len();
    while n > 0 && (lyrics[n - 1].timestamp as i128) > adj_e
        invariant
            n <= lyrics@.len(),
            adj_e == adj,
            ls == lines_view(lyrics@),
            current_index(ls, adj) == latest_from(ls, adj, n as int),
        decreases n,
    {
        n -= 1;
    }
    proof {
        lemma_latest_from(ls, adj, lyrics@.len() as int);
        assert forall|j: int| 0 <= j < lyrics@.len() implies #[trigger] lyrics@[j].timestamp
            == ls[j].timestamp by {}
    }
    if n == 0 {
        None
    } else {
        Some(n - 1)
    }
}

/// The first word of `ws` that is being sung at `adj`.
fn active_word(line: &LyricLine, adj: i128) -> (r: Option<usize>)
    ensures
        match r {
            Some(k) => first_active_from(line@.words, adj as int, 0) == Some(k as int),
            None => first_active_from(line@.words, adj as int, 0) is None,
        },
{
    let mut k: usize = 0;
    while k < line.words.len()
        invariant
            k <= line.words@.len(),
            first_active_from(line@.words, adj as int, 0) == first_active_from(
                line@.words,
                adj as int,
                k as int,
            ),
        decreases line.words@.len() - k,
    {
        let w = &line.words[k];
        assert(line@.words[k as int] == w@);
        if (w.start_time as i128) <= adj && adj < (w.end_time as i128) {
            return Some(k);
        }
        k += 1;
    }
    None
}

/// What is on screen at `position`, with lead `offset`: the last line that starts at or
/// before the adjusted position (or a placeholder before the first line), the line after
/// it, the active line's translation, and the first of its words whose span holds the
/// adjusted position. Past the last word's end no word is active.
pub fn get_lyrics_status(lyrics: &[LyricLine], position: u64, offset: i64) -> (r: LyricsStatus)
    ensures
        r@ == resolve(lines_view(lyrics@), adjusted(position, offset)),
        lyrics@.len() == 0 ==> r.current_line@ == empty_line() && r.next_line@.len() == 0
            && r.next_timestamp is None,
{
    let ghost ls = lines_view(lyrics@);
    let adj: i128 = position as i128 + offset as i128;
    match current_line_index(lyrics, position, offset) {
        None => {
            let (next_line, next_timestamp) = if lyrics.len() > 0 {
                assert(ls[0] == lyrics@[0]@);
                (lyrics[0].text.clone(), Some(lyrics[0].timestamp))
            } else {
                (String::new(), None)
            };
            LyricsStatus {
                current_line: LyricLine::empty(),
                next_line,
                next_timestamp,
                translation: None,
                current_word_index: None,
            }
        },
        Some(i) => {
            let current = &lyrics[i];
            assert(ls[i as int] == current@);
            let (next_line, next_timestamp) = if i + 1 < lyrics.len() {
                assert(ls[i + 1] == lyrics@[i + 1]@);
                (lyrics[i + 1].text.clone(), Some(lyrics[i + 1].timestamp))
            } else {
                (String::new(), None)
            };
            LyricsStatus {
                current_line: current.duplicate(),
                next_line,
                next_timestamp,
                translation: crate::models::duplicate_opt(&current.translation),
                current_word_index: active_word(current, adj),
            }
        },
    }
}

pub open spec fn clamp(x: int, lo: int, hi: int) -> int {
    if x < lo {
        lo
    } else if x > hi {
        hi
    } else {
        x
    }
}

/// How long to wait before the next refresh, given when the next line starts.
pub open spec fn delay_spec(next: Option<nat>, position: nat, has_word_timing: bool) -> int {
    match next {
        Some(t) => if t > position {
            if has_word_timing {
                clamp(t - position, WORD_REFRESH_MIN_MS as int, WORD_REFRESH_MAX_MS as int)
            } else {
                clamp(t - position, LINE_REFRESH_MIN_MS as int, LINE_REFRESH_MAX_MS as int)
            }
        } else {
            RECOVERY_MS as int
        },
        None => if has_word_timing {
            IDLE_WORD_MS as int
        } else {
            IDLE_LINE_MS as int
        },
    }
}

/// How long to wait, in milliseconds, before the next refresh: the time until the next line
/// starts, held within the refresh window (narrower when words are timed); a short wait when
/// that line should already have started; a longer one when no line follows.
pub fn next_delay(status: &LyricsStatus, position: u64, has_word_timing: bool) -> (r: u64)
    ensures
        r == delay_spec(status@.next_timestamp, position as nat, has_word_timing),
{
    match status.next_timestamp {
        Some(t) => {
            if t > position {
                let gap = t - position;
                let (lo, hi) = if has_word_timing {
                    (WORD_REFRESH_MIN_MS, WORD_REFRESH_MAX_MS)
                } else {
                    (LINE_REFRESH_MIN_MS, LINE_REFRESH_MAX_MS)
                };
                if gap < lo {
                    lo
                } else if gap > hi {
                    hi
                } else {
                    gap
                }
            } else {
                RECOVERY_MS
            }
        },
        None => if has_word_timing {
            IDLE_WORD_MS
        } else {
            IDLE_LINE_MS
        },
    }
}

/// Whether some line has timed words.
pub fn has_word_timing(lyrics: &[LyricLine]) -> (r: bool)
    ensures
        r == exists|k: int| 0 <= k < lyrics@.len() && #[trigger] lyrics@[k].words@.len() > 0,
{
    let mut k: usize = 0;
    while k < lyrics.len()
        invariant
            k <= lyrics@.len(),
            forall|j: int| 0 <= j < k ==> #[trigger] lyrics@[j].words@.len() == 0,
        decreases lyrics@.len() - k,
    {
        if lyrics[k].words.len() > 0 {
            return true;
        }
        k += 1;
    }
    false
}

/// Where a word stands at a position.
#[derive(Debug, Clone, Copy, PartialEq, Eq, Structural)]
pub enum WordState {
    /// Not reached yet.
    Upcoming,
    /// Being sung.
    Active,
    /// Sung already.
    Sung,
}

pub open spec fn word_state(w: WordModel, adj: int) -> WordState {
    if is_active(w, adj) {
        WordState::Active
    } else if adj >= w.end {
        WordState::Sung
    } else {
        WordState::Upcoming
    }
}

/// The state of each word of `line` at `position`, with lead `offset`.
pub fn word_states(line: &LyricLine, position: u64, offset: i64) -> (r: Vec<WordState>)
    ensures
        r@.len() == line.words@.len(),
        forall|k: int|
            0 <= k < r@.len() ==> #[trigger] r@[k] == word_state(
                line.words@[k]@,
                adjusted(position, offset),
            ),
{
    let adj: i128 = position as i128 + offset as i128;
    let mut out: Vec<WordState> = Vec::new();
    let mut k: usize = 0;
    while k < line.words.len()
        invariant
            k <= line.words@.len(),
            adj == adjusted(position, offset),
            out@.len() == k,
            forall|j: int|
                0 <= j < k ==> #[trigger] out@[j] == word_state(line.words@[j]@, adj as int),
        decreases line.words@.len() - k,
    {
        let w = &line.words[k];
        let st = if (w.start_time as i128) <= adj && adj < (w.end_time as i128) {
            WordState::Active
        } else if adj >= (w.end_time as i128) {
            WordState::Sung
        } else {
            WordState::Upcoming
        };
        out.push(st);
        k += 1;
    }
    out
}

/// Lines of the screen kept free of lyrics.
pub const RESERVED_ROWS: usize = 4;

/// The lines `[start, end)` shown on a screen of `height` rows around the active line
/// `current`: a third of the free rows before it, the rest from it on.
pub fn visible_range(len: usize, current: usize, height: usize) -> (r: (usize, usize))
    ensures
        ({
            let rows = if height >= RESERVED_ROWS {
                height - RESERVED_ROWS
            } else {
                0
            };
            let before = rows / 3;
            let after = rows - before;
            &&& r.0 == if current >= before {
                current - before
            } else {
                0
            }
            &&& r.1 == if current + after < len {
                current + after
            } else {
                len as int
            }
        }),
{
    let rows = height.saturating_sub(RESERVED_ROWS);
    let before = rows / 3;
    let after = rows - before;
    let start = current.saturating_sub(before);
    let end = if (current as u128) + (after as u128) < (len as u128) {
        current + after
    } else {
        len
    };
    (start, end)
}

/// The wait while the song is paused.
pub const PAUSED_DELAY_MS: u64 = 1000;

/// The wait when the song has no lyrics.
pub const NO_LYRICS_DELAY_MS: u64 = 2000;

/// What a render loop shows next, and how long it waits after that.
pub struct Refresh {
    /// The lyrics status to show, or none to show the song's artist and title.
    pub status: Option<LyricsStatus>,
    pub delay_ms: u64,
}

/// Some line has timed words.
pub open spec fn any_word_timing(lyrics: Seq<LyricLine>) -> bool {
    exists|k: int| 0 <= k < lyrics.len() && #[trigger] lyrics[k].words@.len() > 0
}

/// One step of a render loop: without lyrics, the song is shown for `NO_LYRICS_DELAY_MS`;
/// while paused, for `PAUSED_DELAY_MS`; else the lyrics status at the song's position, until
/// the wait that `next_delay` gives.
pub fn plan_refresh(lyrics: Option<&Vec<LyricLine>>, song: &SongInfo, offset: i64) -> (r: Refresh)
    ensures
        match lyrics {
            None => r.status is None && r.delay_ms == NO_LYRICS_DELAY_MS,
            Some(ls) => if song.status == SongStatus::Paused {
                r.status is None && r.delay_ms == PAUSED_DELAY_MS
            } else {
                r.status matches Some(st) && st@ == resolve(
                    lines_view(ls@),
                    adjusted(song.position, offset),
                ) && r.delay_ms == delay_spec(
                    st@.next_timestamp,
                    song.position as nat,
                    any_word_timing(ls@),
                )
            },
        },
{
    match lyrics {
        None => Refresh { status: None, delay_ms: NO_LYRICS_DELAY_MS },
        Some(ls) => {
            if song.status == SongStatus::Paused {
                Refresh { status: None, delay_ms: PAUSED_DELAY_MS }
            } else {
                let status = get_lyrics_status(ls.as_slice(), song.position, offset);
                let words = has_word_timing(ls.as_slice());
                let delay_ms = next_delay(&status, song.position, words);
                Refresh { status: Some(status), delay_ms }
            }
        },
    }
}

} // verus!
