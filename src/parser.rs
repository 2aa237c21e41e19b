//! The timestamped lyric markup: lines `[MM:SS.FF]text`, where `text` may hold
//! word tags `<MM:SS.FF>word`. `FF` counts hundredths of a second.
use vstd::prelude::*;
use crate::models::{LineModel, LyricLine, WordModel, WordTimestamp, lines_view, words_view};
use crate::text::{chars_of, is_digit, trim, trim_range};

verus! {

/// Lines whose timestamps differ by less than this are one line and its translation.
pub const MERGE_WINDOW_MS: u64 = 10;

/// How long the last word of a line lasts, for want of a tag after it.
pub const LAST_WORD_MS: u64 = 500;

/// The largest value that a number of a timestamp may have; a larger one reads as 0.
pub const MAX_COMPONENT: u64 = 0xffff_ffff;

/// How many decimal digits `s` holds from `i` on.
pub open spec fn digit_run(s: Seq<char>, i: int) -> nat
    decreases s.len() - i,
{
    if 0 <= i < s.len() && is_digit(s[i]) {
        1 + digit_run(s, i + 1)
    } else {
        0
    }
}

/// The number that a string of decimal digits writes.
pub open spec fn digits_value(s: Seq<char>) -> nat
    decreases s.len(),
{
    if s.len() == 0 {
        0
    } else {
        digits_value(s.drop_last()) * 10 + ((s.last() as u32) - 48) as nat
    }
}

/// A number of a timestamp: one too large to read counts as 0.
pub open spec fn component(s: Seq<char>) -> nat {
    if digits_value(s) <= MAX_COMPONENT {
        digits_value(s)
    } else {
        0
    }
}

pub open spec fn stamp_ms(minutes: nat, seconds: nat, hundredths: nat) -> nat {
    minutes * 60000 + seconds * 1000 + hundredths * 10
}

/// The stamp `open MM:SS.FF close` at position `i` of `s`: its time, and the position
/// after it.
pub open spec fn stamp_at(s: Seq<char>, i: int, open: char, close: char) -> Option<(nat, int)> {
    let m = i + 1;
    let mn = digit_run(s, m);
    let sc = m + mn + 1;
    let sn = digit_run(s, sc);
    let fr = sc + sn + 1;
    let fnn = digit_run(s, fr);
    let end = fr + fnn;
    if 0 <= i && end < s.len() && s[i] == open && mn > 0 && s[m + mn] == ':' && sn > 0 && s[sc
        + sn] == '.' && fnn > 0 && s[end] == close {
        Some(
            (
                stamp_ms(
                    component(s.subrange(m, m + mn)),
                    component(s.subrange(sc, sc + sn)),
                    component(s.subrange(fr, end)),
                ),
                end + 1,
            ),
        )
    } else {
        None
    }
}

/// A word tag `<MM:SS.FF>` at position `i`.
pub open spec fn word_tag_at(c: Seq<char>, i: int) -> Option<(nat, int)> {
    stamp_at(c, i, '<', '>')
}

/// A timestamped line: its time and what follows the `[MM:SS.FF]` at its start.
pub open spec fn timed(l: Seq<char>) -> Option<(nat, Seq<char>)> {
    match stamp_at(l, 0, '[', ']') {
        Some((t, e)) => Some((t, l.subrange(e, l.len() as int))),
        None => None,
    }
}

/// The content from `p` on with its word tags removed.
pub open spec fn strip_tags(c: Seq<char>, p: int) -> Seq<char>
    decreases c.len() - p,
{
    if p < 0 || p >= c.len() {
        Seq::empty()
    } else {
        match word_tag_at(c, p) {
            Some((_, e)) => if e > p {
                strip_tags(c, e)
            } else {
                Seq::empty()
            },
            None => seq![c[p]] + strip_tags(c, p + 1),
        }
    }
}

/// What a line displays: its content without word tags, trimmed.
pub open spec fn clean_text(c: Seq<char>) -> Seq<char> {
    trim(strip_tags(c, 0))
}

/// Where the first word tag at or after `p` starts, or the end.
pub open spec fn next_tag(c: Seq<char>, p: int) -> int
    decreases c.len() - p,
{
    if p < 0 || p >= c.len() {
        c.len() as int
    } else if word_tag_at(c, p) is Some {
        p
    } else {
        next_tag(c, p + 1)
    }
}

/// The word tags from `p` on: each one's time, and the trimmed text up to the next tag.
pub open spec fn word_tags(c: Seq<char>, p: int) -> Seq<(nat, Seq<char>)>
    decreases c.len() - p,
{
    if p < 0 || p >= c.len() {
        Seq::empty()
    } else {
        match word_tag_at(c, p) {
            Some((t, e)) => if p < e <= next_tag(c, e) <= c.len() {
                seq![(t, trim(c.subrange(e, next_tag(c, e))))] + word_tags(c, next_tag(c, e))
            } else {
                Seq::empty()
            },
            None => word_tags(c, p + 1),
        }
    }
}

/// Each word lasts until the next one starts; the last one for `LAST_WORD_MS`.
pub open spec fn timed_words(tags: Seq<(nat, Seq<char>)>) -> Seq<WordModel> {
    Seq::new(
        tags.len(),
        |i: int|
            WordModel {
                start: tags[i].0,
                end: if i + 1 < tags.len() {
                    tags[i + 1].0
                } else {
                    (tags[i].0 + LAST_WORD_MS) as nat
                },
                text: tags[i].1,
            },
    )
}

/// Each word ends where the next one starts.
pub open spec fn words_contiguous(ws: Seq<WordModel>) -> bool {
    forall|j: int| 0 <= j < ws.len() - 1 ==> #[trigger] ws[j].end == ws[j + 1].start
}

proof fn lemma_stamp_bound(m: nat, sec: nat, f: nat)
    requires
        m <= MAX_COMPONENT,
        sec <= MAX_COMPONENT,
        f <= MAX_COMPONENT,
    ensures
        stamp_ms(m, sec, f) <= 61010 * MAX_COMPONENT,
{
}

/// The run of digits of `cs` at `i`: its length, and the number it writes (0 if too large).
fn digits_at(cs: &Vec<char>, i: usize) -> (r: (usize, u64))
    requires
        i <= cs@.len(),
    ensures
        r.0 == digit_run(cs@, i as int),
        i + r.0 <= cs@.len(),
        r.1 == component(cs@.subrange(i as int, i + r.0)),
        r.1 <= MAX_COMPONENT,
{
    let mut j = i;
    let mut acc: u64 = 0;
    let mut over = false;
    while j < cs.len() && is_digit_char(cs[j])
        invariant
            i <= j <= cs@.len(),
            digit_run(cs@, i as int) == (j - i) + digit_run(cs@, j as int),
            !over ==> acc == digits_value(cs@.subrange(i as int, j as int)) && acc
                <= MAX_COMPONENT,
            over ==> digits_value(cs@.subrange(i as int, j as int)) > MAX_COMPONENT,
        decreases cs@.len() - j,
    {
        let ghost prev = cs@.subrange(i as int, j as int);
        assert(cs@.subrange(i as int, j + 1).drop_last() =~= prev);
        assert(cs@.subrange(i as int, j + 1).last() == cs@[j as int]);
        let d = (cs[j] as u32 - 48) as u64;
        if !over {
            let v = acc * 10 + d;
            if v > MAX_COMPONENT {
                over = true;
            } else {
                acc = v;
            }
        }
        j += 1;
    }
    if over {
        acc = 0;
    }
    (j - i, acc)
}

fn is_digit_char(c: char) -> (r: bool)
    ensures
        r == is_digit(c),
{
    '0' <= c && c <= '9'
}

/// The stamp `open MM:SS.FF close` at position `i` of `cs`, as `stamp_at` states it.
fn stamp_at_exec(cs: &Vec<char>, i: usize, open: char, close: char) -> (r: Option<(u64, usize)>)
    requires
        i <= cs@.len(),
    ensures
        stamp_at(cs@, i as int, open, close) == match r {
            Some((t, e)) => Some((t as nat, e as int)),
            None => None,
        },
        r matches Some((t, e)) ==> i < e <= cs@.len() && t <= 61010 * MAX_COMPONENT,
{
    if i >= cs.len() || cs[i] != open {
        return None;
    }
    let m = i + 1;
    let (mn, mv) = digits_at(cs, m);
    if mn == 0 || m + mn >= cs.len() || cs[m + mn] != ':' {
        return None;
    }
    let sc = m + mn + 1;
    let (sn, sv) = digits_at(cs, sc);
    if sn == 0 || sc + sn >= cs.len() || cs[sc + sn] != '.' {
        return None;
    }
    let fr = sc + sn + 1;
    let (fnn, fv) = digits_at(cs, fr);
    let end = fr + fnn;
    if fnn == 0 || end >= cs.len() || cs[end] != close {
        return None;
    }
    proof {
        lemma_stamp_bound(mv as nat, sv as nat, fv as nat);
    }
    Some((mv * 60000 + sv * 1000 + fv * 10, end + 1))
}

/// `c` without its word tags.
fn strip_tags_exec(c: &str, cs: &Vec<char>) -> (r: String)
    requires
        cs@ == c@,
    ensures
        r@ == strip_tags(cs@, 0),
{
    let n = cs.len();
    let mut out = String::new();
    let mut seg: usize = 0;
    let mut p: usize = 0;
    while p < n
        invariant
            n == cs@.len(),
            cs@ == c@,
            seg <= p <= n,
            out@ + cs@.subrange(seg as int, p as int) + strip_tags(cs@, p as int) == strip_tags(
                cs@,
                0,
            ),
        decreases n - p,
    {
        match stamp_at_exec(cs, p, '<', '>') {
            Some((_, e)) => {
                out.append(c.substring_char(seg, p));
                assert(cs@.subrange(e as int, e as int) =~= Seq::<char>::empty());
                assert(out@ + cs@.subrange(e as int, e as int) + strip_tags(cs@, e as int)
                    =~= out@ + strip_tags(cs@, e as int));
                p = e;
                seg = e;
            },
            None => {
                let ghost old_out = out@;
                assert(cs@.subrange(seg as int, p as int) + seq![cs@[p as int]] =~= cs@.subrange(
                    seg as int,
                    p + 1,
                ));
                assert(old_out + cs@.subrange(seg as int, p as int) + strip_tags(cs@, p as int)
                    =~= old_out + cs@.subrange(seg as int, p + 1) + strip_tags(cs@, p + 1));
                p += 1;
            },
        }
    }
    out.append(c.substring_char(seg, n));
    assert(out@ =~= out@ + strip_tags(cs@, n as int));
    out
}

/// What a line's content displays: its text without word tags, trimmed.
fn clean_text_exec(c: &str) -> (r: String)
    ensures
        r@ == clean_text(c@),
{
    let cs = chars_of(c);
    let stripped = strip_tags_exec(c, &cs);
    let ss = stripped.as_str();
    let scs = chars_of(ss);
    let (a, b) = trim_range(&scs, 0, scs.len());
    assert(scs@.subrange(0, scs@.len() as int) =~= scs@);
    String::from_str(ss.substring_char(a, b))
}

/// Where the first word tag at or after `p` starts, or the end.
fn next_tag_exec(cs: &Vec<char>, p: usize) -> (r: usize)
    requires
        p <= cs@.len(),
    ensures
        r == next_tag(cs@, p as int),
        p <= r <= cs@.len(),
{
    let mut q = p;
    while q < cs.len() && stamp_at_exec(cs, q, '<', '>').is_none()
        invariant
            p <= q <= cs@.len(),
            next_tag(cs@, p as int) == next_tag(cs@, q as int),
        decreases cs@.len() - q,
    {
        q += 1;
    }
    q
}

pub open spec fn tags_of(times: Seq<u64>, texts: Seq<String>) -> Seq<(nat, Seq<char>)> {
    Seq::new(times.len(), |k: int| (times[k] as nat, texts[k]@))
}

/// The words of a line's content with their timing.
fn words_exec(c: &str) -> (r: Vec<WordTimestamp>)
    ensures
        words_view(r@) == timed_words(word_tags(c@, 0)),
{
    let cs = chars_of(c);
    let n = cs.len();
    let mut times: Vec<u64> = Vec::new();
    let mut texts: Vec<String> = Vec::new();
    let mut p: usize = 0;
    while p < n
        invariant
            n == cs@.len(),
            cs@ == c@,
            p <= n,
            times@.len() == texts@.len(),
            forall|k: int| 0 <= k < times@.len() ==> times@[k] <= 61010 * MAX_COMPONENT,
            tags_of(times@, texts@) + word_tags(cs@, p as int) == word_tags(cs@, 0),
        decreases n - p,
    {
        match stamp_at_exec(&cs, p, '<', '>') {
            Some((t, e)) => {
                let q = next_tag_exec(&cs, e);
                let (a, b) = trim_range(&cs, e, q);
                let w = String::from_str(c.substring_char(a, b));
                let ghost before = tags_of(times@, texts@);
                times.push(t);
                texts.push(w);
                assert(tags_of(times@, texts@) =~= before + seq![(t as nat, w@)]);
                assert(tags_of(times@, texts@) + word_tags(cs@, q as int) =~= before + word_tags(
                    cs@,
                    p as int,
                ));
                p = q;
            },
            None => {
                p += 1;
            },
        }
    }
    assert(tags_of(times@, texts@) =~= word_tags(cs@, 0));
    let ghost tags = tags_of(times@, texts@);
    let mut out: Vec<WordTimestamp> = Vec::new();
    let mut k: usize = 0;
    while k < times.len()
        invariant
            k <= times@.len() == texts@.len(),
            tags == tags_of(times@, texts@),
            forall|j: int| 0 <= j < times@.len() ==> times@[j] <= 61010 * MAX_COMPONENT,
            words_view(out@) == timed_words(tags).take(k as int),
        decreases times@.len() - k,
    {
        let end = if k + 1 < times.len() {
            times[k + 1]
        } else {
            times[k] + LAST_WORD_MS
        };
        let w = WordTimestamp { start_time: times[k], end_time: end, text: texts[k].clone() };
        let ghost before = words_view(out@);
        out.push(w);
        assert(words_view(out@) =~= before.push(w@));
        assert(timed_words(tags).take(k + 1) =~= timed_words(tags).take(k as int).push(w@));
        k += 1;
    }
    assert(timed_words(tags).take(k as int) =~= timed_words(tags));
    out
}

/// A line without the `\r` of a `\r\n` ending.
pub open spec fn strip_cr(p: Seq<char>) -> Seq<char> {
    if p.len() > 0 && p.last() == '\r' {
        p.drop_last()
    } else {
        p
    }
}

/// The lines of `s` from the line that starts at `start`, scanning from `j`: lines end at
/// `\n` or `\r\n`, and the last one needs no ending.
pub open spec fn split_from(s: Seq<char>, start: int, j: int) -> Seq<Seq<char>>
    decreases s.len() - j,
{
    if j < 0 || j >= s.len() {
        if 0 <= start < s.len() {
            seq![s.subrange(start, s.len() as int)]
        } else {
            Seq::empty()
        }
    } else if s[j] == '\n' {
        seq![strip_cr(s.subrange(start, j))] + split_from(s, j + 1, j + 1)
    } else {
        split_from(s, start, j + 1)
    }
}

/// The lines of a text.
pub open spec fn raw_lines(s: Seq<char>) -> Seq<Seq<char>> {
    split_from(s, 0, 0)
}

pub open spec fn strings_view(v: Seq<String>) -> Seq<Seq<char>> {
    v.map_values(|l: String| l@)
}

/// The lines of `text`.
fn split_lines(text: &str) -> (r: Vec<String>)
    ensures
        strings_view(r@) == raw_lines(text@),
{
    let cs = chars_of(text);
    let n = cs.len();
    let mut out: Vec<String> = Vec::new();
    let mut start: usize = 0;
    let mut j: usize = 0;
    while j < n
        invariant
            n == cs@.len(),
            cs@ == text@,
            start <= j <= n,
            strings_view(out@) + split_from(cs@, start as int, j as int) == raw_lines(cs@),
        decreases n - j,
    {
        if cs[j] == '\n' {
            let end = if j > start && cs[j - 1] == '\r' {
                j - 1
            } else {
                j
            };
            let l = String::from_str(text.substring_char(start, end));
            assert(l@ == strip_cr(cs@.subrange(start as int, j as int))) by {
                if j > start && cs@[j - 1] == '\r' {
                    assert(cs@.subrange(start as int, j as int).drop_last() =~= cs@.subrange(
                        start as int,
                        j - 1,
                    ));
                }
            }
            let ghost before = strings_view(out@);
            out.push(l);
            assert(strings_view(out@) =~= before.push(l@));
            assert(strings_view(out@) + split_from(cs@, j + 1, j + 1) =~= before + split_from(
                cs@,
                start as int,
                j as int,
            ));
            start = j + 1;
        }
        j += 1;
    }
    if start < n {
        let l = String::from_str(text.substring_char(start, n));
        let ghost before = strings_view(out@);
        out.push(l);
        assert(strings_view(out@) =~= before + split_from(cs@, start as int, j as int));
    } else {
        assert(strings_view(out@) =~= strings_view(out@) + split_from(
            cs@,
            start as int,
            j as int,
        ));
    }
    out
}

/// Two timestamps within the merge window of each other.
pub open spec fn close_in_time(a: nat, b: nat) -> bool {
    a < b + MERGE_WINDOW_MS && b < a + MERGE_WINDOW_MS
}

/// Raw line `i + 1` is the translation of raw line `i`: both carry timestamps within the
/// merge window, and line `i + 1` has text.
pub open spec fn merges(ls: Seq<Seq<char>>, i: int) -> bool {
    0 <= i && i + 1 < ls.len() && match (timed(ls[i]), timed(ls[i + 1])) {
        (Some((t0, _)), Some((t1, c1))) => close_in_time(t0, t1) && clean_text(c1).len() > 0,
        _ => false,
    }
}

/// Raw line `i` was taken in as the translation of the line before it. A line that is
/// itself a translation takes no translation in.
pub open spec fn taken(ls: Seq<Seq<char>>, i: int) -> bool
    decreases i,
{
    if i <= 0 {
        false
    } else {
        merges(ls, i - 1) && !taken(ls, i - 1)
    }
}

/// The translation that raw line `i` takes in, if any.
pub open spec fn translation_of(ls: Seq<Seq<char>>, i: int) -> Option<Seq<char>> {
    if merges(ls, i) {
        match timed(ls[i + 1]) {
            Some((_, c1)) => Some(clean_text(c1)),
            None => None,
        }
    } else {
        None
    }
}

/// An untimed line is kept as text at time zero when it has text and does not start with `[`.
pub open spec fn is_plain(l: Seq<char>) -> bool {
    trim(l).len() > 0 && !(l.len() > 0 && l[0] == '[')
}

/// The entry that raw line `i` yields, if any.
pub open spec fn entry_at(ls: Seq<Seq<char>>, i: int) -> Option<LineModel> {
    if taken(ls, i) {
        None
    } else {
        match timed(ls[i]) {
            Some((t, c)) => if clean_text(c).len() > 0 {
                Some(
                    LineModel {
                        timestamp: t,
                        text: clean_text(c),
                        translation: translation_of(ls, i),
                        words: timed_words(word_tags(c, 0)),
                    },
                )
            } else {
                None
            },
            None => if is_plain(ls[i]) {
                Some(
                    LineModel {
                        timestamp: 0,
                        text: trim(ls[i]),
                        translation: None,
                        words: Seq::empty(),
                    },
                )
            } else {
                None
            },
        }
    }
}

pub open spec fn opt_seq(o: Option<LineModel>) -> Seq<LineModel> {
    match o {
        Some(l) => seq![l],
        None => Seq::empty(),
    }
}

/// The entries of the first `n` raw lines, in the order of the text.
pub open spec fn emitted(ls: Seq<Seq<char>>, n: int) -> Seq<LineModel>
    decreases n,
{
    if n <= 0 {
        Seq::empty()
    } else {
        emitted(ls, n - 1) + opt_seq(entry_at(ls, n - 1))
    }
}

/// Where a line at time `t` goes in `s`: after every line at or before `t` that no later
/// line passes.
pub open spec fn insert_pos(s: Seq<LineModel>, t: nat) -> int
    decreases s.len(),
{
    if s.len() == 0 {
        0
    } else if s.last().timestamp <= t {
        s.len() as int
    } else {
        insert_pos(s.drop_last(), t)
    }
}

pub open spec fn sorted_insert(s: Seq<LineModel>, x: LineModel) -> Seq<LineModel> {
    s.insert(insert_pos(s, x.timestamp), x)
}

/// `s` sorted by timestamp; lines with equal timestamps keep their order.
pub open spec fn stable_sort(s: Seq<LineModel>) -> Seq<LineModel>
    decreases s.len(),
{
    if s.len() == 0 {
        s
    } else {
        sorted_insert(stable_sort(s.drop_last()), s.last())
    }
}

/// What a lyric text parses to.
pub open spec fn parse_spec(text: Seq<char>) -> Seq<LineModel> {
    stable_sort(emitted(raw_lines(text), raw_lines(text).len() as int))
}

pub open spec fn sorted_by_time(s: Seq<LineModel>) -> bool {
    forall|i: int, j: int| 0 <= i < j < s.len() ==> s[i].timestamp <= s[j].timestamp
}

proof fn lemma_insert_pos(s: Seq<LineModel>, t: nat)
    ensures
        0 <= insert_pos(s, t) <= s.len(),
        forall|j: int| insert_pos(s, t) <= j < s.len() ==> s[j].timestamp > t,
        insert_pos(s, t) > 0 ==> s[insert_pos(s, t) - 1].timestamp <= t,
    decreases s.len(),
{
    if s.len() > 0 && s.last().timestamp > t {
        let d = s.drop_last();
        lemma_insert_pos(d, t);
        assert forall|j: int| insert_pos(s, t) <= j < s.len() implies s[j].timestamp > t by {
            if j < s.len() - 1 {
                assert(s[j] == d[j]);
            }
        }
    }
}

proof fn lemma_sorted_insert(s: Seq<LineModel>, x: LineModel)
    requires
        sorted_by_time(s),
    ensures
        sorted_by_time(sorted_insert(s, x)),
{
    lemma_insert_pos(s, x.timestamp);
    let k = insert_pos(s, x.timestamp);
    let r = sorted_insert(s, x);
    assert forall|i: int, j: int| 0 <= i < j < r.len() implies r[i].timestamp
        <= r[j].timestamp by {
        if i < k && j == k {
            assert(s[i].timestamp <= s[k - 1].timestamp);
        }
    }
}

proof fn lemma_stable_sort_sorted(s: Seq<LineModel>)
    ensures
        sorted_by_time(stable_sort(s)),
    decreases s.len(),
{
    if s.len() > 0 {
        lemma_stable_sort_sorted(s.drop_last());
        lemma_sorted_insert(stable_sort(s.drop_last()), s.last());
    }
}

/// A timestamped line: its time and its content.
fn timed_line(line: &str) -> (r: Option<(u64, String)>)
    ensures
        timed(line@) == match r {
            Some((t, c)) => Some((t as nat, c@)),
            None => None,
        },
{
    let cs = chars_of(line);
    match stamp_at_exec(&cs, 0, '[', ']') {
        Some((t, e)) => Some((t, String::from_str(line.substring_char(e, cs.len())))),
        None => None,
    }
}

fn is_plain_exec(line: &str) -> (r: bool)
    ensures
        r == is_plain(line@),
{
    let cs = chars_of(line);
    let (a, b) = trim_range(&cs, 0, cs.len());
    assert(cs@.subrange(0, cs@.len() as int) =~= cs@);
    a < b && !(cs.len() > 0 && cs[0] == '[')
}

/// Inserts `x` after every line of `out` at or before its time that no later line passes.
fn insert_by_time(out: &mut Vec<LyricLine>, x: LyricLine)
    ensures
        lines_view(final(out)@) == sorted_insert(lines_view(old(out)@), x@),
{
    let ghost s = lines_view(out@);
    let mut k = out.len();
    assert(s.take(k as int) =~= s);
    while k > 0 && out[k - 1].timestamp > x.timestamp
        invariant
            k <= out@.len(),
            s == lines_view(out@),
            insert_pos(s, x@.timestamp) == insert_pos(s.take(k as int), x@.timestamp),
        decreases k,
    {
        assert(s.take(k as int).drop_last() =~= s.take(k - 1));
        k -= 1;
    }
    if k > 0 {
        assert(s.take(k as int).last() == out@[k - 1]@);
    }
    out.insert(k, x);
    assert(lines_view(out@) =~= s.insert(k as int, x@));
}

/// A parsed line has text, and its words are contiguous.
pub open spec fn line_well_formed(l: LineModel) -> bool {
    l.text.len() > 0 && words_contiguous(l.words)
}

pub open spec fn all_well_formed(s: Seq<LineModel>) -> bool {
    forall|k: int| 0 <= k < s.len() ==> line_well_formed(#[trigger] s[k])
}

proof fn lemma_insert_keeps_well_formed(s: Seq<LineModel>, x: LineModel)
    requires
        all_well_formed(s),
        line_well_formed(x),
    ensures
        all_well_formed(sorted_insert(s, x)),
{
    lemma_insert_pos(s, x.timestamp);
    let p = insert_pos(s, x.timestamp);
    let r = sorted_insert(s, x);
    assert forall|k: int| 0 <= k < r.len() implies line_well_formed(#[trigger] r[k]) by {
        if k < p {
            assert(r[k] == s[k]);
        } else if k > p {
            assert(r[k] == s[k - 1]);
        }
    }
}

proof fn lemma_timed_words_contiguous(tags: Seq<(nat, Seq<char>)>)
    ensures
        words_contiguous(timed_words(tags)),
{
}

proof fn lemma_sort_step(e: Seq<LineModel>, o: Option<LineModel>)
    ensures
        stable_sort(e + opt_seq(o)) == match o {
            Some(x) => sorted_insert(stable_sort(e), x),
            None => stable_sort(e),
        },
{
    match o {
        Some(x) => {
            assert((e + seq![x]).drop_last() =~= e);
        },
        None => {
            assert(e + opt_seq(o) =~= e);
        },
    }
}

/// Parses lyric markup into lines sorted by time. Lines with equal timestamps keep the
/// order of the text.
///
/// A line `[MM:SS.FF]content` is timed; its text is the content without word tags,
/// trimmed, and it is dropped when that text is empty. A timed line whose next line is
/// timed within `MERGE_WINDOW_MS` and has text takes that text as its translation, and
/// the next line yields nothing of its own. Any other line that has text and does not
/// start with `[` is kept, trimmed, at time zero. A number too large to read counts as 0.
pub fn parse_lyrics(lyrics_text: &str) -> (r: Vec<LyricLine>)
    ensures
        lines_view(r@) == parse_spec(lyrics_text@),
        sorted_by_time(lines_view(r@)),
        forall|k: int| 0 <= k < r@.len() ==> line_well_formed(#[trigger] r@[k]@),
{
    let lines = split_lines(lyrics_text);
    let ghost ls = strings_view(lines@);
    let n = lines.len();
    let mut out: Vec<LyricLine> = Vec::new();
    let mut i: usize = 0;
    while i < n
        invariant
            n == lines@.len(),
            ls == strings_view(lines@),
            ls == raw_lines(lyrics_text@),
            i <= n,
            !taken(ls, i as int),
            lines_view(out@) == stable_sort(emitted(ls, i as int)),
            all_well_formed(lines_view(out@)),
        decreases n - i,
    {
        let ghost before = lines_view(out@);
        let line = lines[i].as_str();
        assert(line@ == ls[i as int]);
        let ghost entry = entry_at(ls, i as int);
        match timed_line(line) {
            Some((t, c)) => {
                let text = clean_text_exec(c.as_str());
                let mut translation: Option<String> = None;
                let mut step: usize = 1;
                if i + 1 < n {
                    assert(lines[i + 1]@ == ls[i + 1]);
                    match timed_line(lines[i + 1].as_str()) {
                        Some((t1, c1)) => {
                            if t < t1 + MERGE_WINDOW_MS && t1 < t + MERGE_WINDOW_MS {
                                let tr = clean_text_exec(c1.as_str());
                                if !tr.as_str().is_empty() {
                                    translation = Some(tr);
                                    step = 2;
                                }
                            }
                        },
                        None => {},
                    }
                }
                assert(step == 2 <==> merges(ls, i as int));
                assert(crate::models::opt_view(translation) == translation_of(ls, i as int));
                if !text.as_str().is_empty() {
                    let words = words_exec(c.as_str());
                    let l = LyricLine { timestamp: t, text, translation, words };
                    assert(entry == Some(l@));
                    proof {
                        lemma_timed_words_contiguous(word_tags(c@, 0));
                        lemma_insert_keeps_well_formed(before, l@);
                    }
                    insert_by_time(&mut out, l);
                    proof {
                        lemma_sort_step(emitted(ls, i as int), entry);
                    }
                } else {
                    assert(entry is None);
                    proof {
                        lemma_sort_step(emitted(ls, i as int), entry);
                    }
                }
                assert(emitted(ls, i + 1) == emitted(ls, i as int) + opt_seq(entry));
                if step == 2 {
                    assert(taken(ls, i + 1));
                    assert(emitted(ls, i + 2) == emitted(ls, i + 1) + opt_seq(
                        entry_at(ls, i + 1),
                    ));
                    assert(emitted(ls, i + 1) + opt_seq(entry_at(ls, i + 1)) =~= emitted(
                        ls,
                        i + 1,
                    ));
                    assert(!taken(ls, i + 2));
                }
                i += step;
            },
            None => {
                if is_plain_exec(line) {
                    let l = LyricLine {
                        timestamp: 0,
                        text: crate::text::trimmed(line),
                        translation: None,
                        words: Vec::new(),
                    };
                    assert(l@.words =~= Seq::<WordModel>::empty());
                    assert(entry == Some(l@));
                    proof {
                        lemma_insert_keeps_well_formed(before, l@);
                    }
                    insert_by_time(&mut out, l);
                } else {
                    assert(entry is None);
                }
                proof {
                    lemma_sort_step(emitted(ls, i as int), entry);
                }
                assert(emitted(ls, i + 1) == emitted(ls, i as int) + opt_seq(entry));
                i += 1;
            },
        }
    }
    proof {
        lemma_stable_sort_sorted(emitted(ls, n as int));
    }
    assert forall|k: int| 0 <= k < out@.len() implies line_well_formed(#[trigger] out@[k]@) by {
        assert(lines_view(out@)[k] == out@[k]@);
    }
    out
}

/// Sorting by time loses and adds no line: the result holds exactly the entries of the text.
pub proof fn lemma_parse_keeps_entries(text: Seq<char>)
    ensures
        parse_spec(text).to_multiset() == emitted(
            raw_lines(text),
            raw_lines(text).len() as int,
        ).to_multiset(),
{
    lemma_stable_sort_permutes(emitted(raw_lines(text), raw_lines(text).len() as int));
}

proof fn lemma_stable_sort_permutes(s: Seq<LineModel>)
    ensures
        stable_sort(s).to_multiset() == s.to_multiset(),
    decreases s.len(),
{
    if s.len() > 0 {
        let d = s.drop_last();
        lemma_stable_sort_permutes(d);
        lemma_insert_pos(stable_sort(d), s.last().timestamp);
        vstd::seq_lib::to_multiset_insert(
            stable_sort(d),
            insert_pos(stable_sort(d), s.last().timestamp),
            s.last(),
        );
        assert(d.push(s.last()) =~= s);
        vstd::seq_lib::to_multiset_build(d, s.last());
    }
}

/// When two adjacent raw lines carry timestamps within the merge window of each other, the
/// later one never yields an entry of its own; if it has text, the earlier one's entry carries
/// that text as its translation. This holds unless the earlier line is itself taken in as a
/// translation (of three close lines, the third stands alone).
pub proof fn lemma_close_line_merged(text: Seq<char>, i: int)
    requires
        0 <= i,
        i + 1 < raw_lines(text).len(),
        timed(raw_lines(text)[i]) is Some,
        timed(raw_lines(text)[i + 1]) is Some,
        close_in_time(
            (timed(raw_lines(text)[i])->0).0,
            (timed(raw_lines(text)[i + 1])->0).0,
        ),
        !taken(raw_lines(text), i),
    ensures
        entry_at(raw_lines(text), i + 1) is None,
        clean_text((timed(raw_lines(text)[i + 1])->0).1).len() > 0 ==> (entry_at(
            raw_lines(text),
            i,
        ) matches Some(e) ==> e.translation == Some(
            clean_text((timed(raw_lines(text)[i + 1])->0).1),
        )),
{
}

} // verus!
