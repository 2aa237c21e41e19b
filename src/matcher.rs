//! Finding the lyric file of a song among the files of a directory: the file named
//! `"{artist} - {title}.{extension}"`, or else the file whose name scores best.
use vstd::prelude::*;
use crate::text::{chars_of, lower_of, lowercase, trim, trim_range, trimmed};

verus! {

/// `n` occurs in `h`.
pub open spec fn contains(h: Seq<char>, n: Seq<char>) -> bool {
    exists|i: int| 0 <= i && i + n.len() <= h.len() && #[trigger] h.subrange(i, i + n.len()) == n
}

/// `s` with each occurrence of `p` removed, scanning from the left.
pub open spec fn remove_all(s: Seq<char>, p: Seq<char>) -> Seq<char>
    decreases s.len(),
{
    if p.len() == 0 || s.len() < p.len() {
        s
    } else if s.subrange(0, p.len() as int) == p {
        remove_all(s.subrange(p.len() as int, s.len() as int), p)
    } else {
        seq![s[0]] + remove_all(s.drop_first(), p)
    }
}

/// `s` without its leading dashes.
pub open spec fn strip_dashes(s: Seq<char>) -> Seq<char>
    decreases s.len(),
{
    if s.len() > 0 && s[0] == '-' {
        strip_dashes(s.drop_first())
    } else {
        s
    }
}

/// What remains of a title that names its artist once the artist is taken out:
/// `"queen - bohemian rhapsody"` leaves `"bohemian rhapsody"`.
pub open spec fn title_rest(title: Seq<char>, artist: Seq<char>) -> Seq<char> {
    trim(strip_dashes(trim(remove_all(title, artist))))
}

/// Whether `n` occurs in `h` at position `i`.
pub(crate) fn occurs_at(h: &Vec<char>, n: &Vec<char>, i: usize) -> (r: bool)
    requires
        i + n@.len() <= h@.len(),
    ensures
        r == (h@.subrange(i as int, i + n@.len()) == n@),
{
    let hl = h.len();
    let mut j: usize = 0;
    while j < n.len()
        invariant
            hl == h@.len(),
            i + n@.len() <= h@.len(),
            j <= n@.len(),
            forall|k: int| 0 <= k < j ==> h@[i + k] == n@[k],
        decreases n@.len() - j,
    {
        if h[i + j] != n[j] {
            assert(h@.subrange(i as int, i + n@.len())[j as int] != n@[j as int]);
            return false;
        }
        j += 1;
    }
    assert(h@.subrange(i as int, i + n@.len()) =~= n@);
    true
}

/// Whether `n` occurs in `h`.
pub fn contains_chars(h: &Vec<char>, n: &Vec<char>) -> (r: bool)
    ensures
        r == contains(h@, n@),
{
    if n.len() > h.len() {
        return false;
    }
    if n.len() == 0 {
        assert(h@.subrange(0, 0 + n@.len() as int) =~= n@);
        return true;
    }
    let last = h.len() - n.len();
    let mut i: usize = 0;
    while i <= last
        invariant
            last + n@.len() == h@.len(),
            n@.len() > 0,
            last < h.len(),
            forall|k: int| 0 <= k < i ==> #[trigger] h@.subrange(k, k + n@.len()) != n@,
        decreases last + 1 - i,
    {
        if occurs_at(h, n, i) {
            return true;
        }
        i += 1;
    }
    false
}

/// `s[a..b]` as a vector of its own.
fn slice_chars(s: &Vec<char>, a: usize, b: usize) -> (r: Vec<char>)
    requires
        a <= b <= s@.len(),
    ensures
        r@ == s@.subrange(a as int, b as int),
{
    let mut out: Vec<char> = Vec::new();
    let mut k = a;
    while k < b
        invariant
            a <= k <= b <= s@.len(),
            out@ == s@.subrange(a as int, k as int),
        decreases b - k,
    {
        out.push(s[k]);
        assert(out@ =~= s@.subrange(a as int, k + 1));
        k += 1;
    }
    out
}

/// `s` with each occurrence of `p` removed.
fn remove_all_chars(s: &Vec<char>, p: &Vec<char>) -> (r: Vec<char>)
    ensures
        r@ == remove_all(s@, p@),
{
    let n = s.len();
    if p.len() == 0 {
        return slice_chars(s, 0, n);
    }
    let mut out: Vec<char> = Vec::new();
    let mut i: usize = 0;
    assert(s@.subrange(0, n as int) =~= s@);
    while i < n
        invariant
            n == s@.len(),
            p@.len() > 0,
            i <= n,
            out@ + remove_all(s@.subrange(i as int, n as int), p@) == remove_all(s@, p@),
        decreases n - i,
    {
        let ghost rest = s@.subrange(i as int, n as int);
        if p.len() <= n - i && occurs_at(s, p, i) {
            assert(rest.subrange(0, p@.len() as int) =~= s@.subrange(i as int, i + p@.len()));
            assert(rest.subrange(p@.len() as int, rest.len() as int) =~= s@.subrange(
                i + p@.len(),
                n as int,
            ));
            i += p.len();
        } else {
            assert(rest.len() >= p@.len() ==> rest.subrange(0, p@.len() as int)
                =~= s@.subrange(i as int, i + p@.len()));
            assert(rest.drop_first() =~= s@.subrange(i + 1, n as int));
            let ghost before = out@;
            out.push(s[i]);
            assert(out@ + remove_all(s@.subrange(i + 1, n as int), p@) =~= before + (seq![
                s@[i as int],
            ] + remove_all(rest.drop_first(), p@)));
            i += 1;
        }
    }
    assert(out@ + remove_all(s@.subrange(n as int, n as int), p@) =~= out@);
    out
}

/// `s` without its leading dashes.
fn strip_dashes_chars(s: &Vec<char>) -> (r: Vec<char>)
    ensures
        r@ == strip_dashes(s@),
{
    let mut a: usize = 0;
    assert(s@.subrange(0, s@.len() as int) =~= s@);
    while a < s.len() && s[a] == '-'
        invariant
            a <= s@.len(),
            strip_dashes(s@) == strip_dashes(s@.subrange(a as int, s@.len() as int)),
        decreases s@.len() - a,
    {
        assert(s@.subrange(a as int, s@.len() as int).drop_first() =~= s@.subrange(
            a + 1,
            s@.len() as int,
        ));
        a += 1;
    }
    slice_chars(s, a, s.len())
}

fn trim_chars(s: &Vec<char>) -> (r: Vec<char>)
    ensures
        r@ == trim(s@),
{
    let (a, b) = trim_range(s, 0, s.len());
    assert(s@.subrange(0, s@.len() as int) =~= s@);
    slice_chars(s, a, b)
}

/// The remainder of `title` once `artist` is taken out, trimmed, without leading dashes.
fn title_rest_chars(title: &Vec<char>, artist: &Vec<char>) -> (r: Vec<char>)
    ensures
        r@ == title_rest(title@, artist@),
{
    let removed = remove_all_chars(title, artist);
    let t1 = trim_chars(&removed);
    let t2 = strip_dashes_chars(&t1);
    trim_chars(&t2)
}

/// A match score, a number held exactly.
#[derive(Debug, Clone, Copy)]
pub enum Score {
    /// `num / den`.
    Fraction { num: u32, den: u32 },
    /// `0.8 + 0.2 * shorter / longer`: a name that holds both artist and title, weighed by
    /// how near its length is to the expected name's. It is 1 where both lengths are 0.
    Overlap { shorter: u64, longer: u64 },
}

pub open spec fn score_num(s: Score) -> int {
    match s {
        Score::Fraction { num, den } => num as int,
        Score::Overlap { shorter, longer } => if longer == 0 {
            1
        } else {
            4 * longer + shorter
        },
    }
}

pub open spec fn score_den(s: Score) -> int {
    match s {
        Score::Fraction { num, den } => den as int,
        Score::Overlap { shorter, longer } => if longer == 0 {
            1
        } else {
            5 * longer
        },
    }
}

/// A score is a number: its denominator is positive.
pub open spec fn valid_score(s: Score) -> bool {
    score_den(s) > 0
}

/// `a` is greater than `b`.
pub open spec fn score_gt(a: Score, b: Score) -> bool {
    score_num(a) * score_den(b) > score_num(b) * score_den(a)
}

/// The score is exactly 1.
pub open spec fn is_full(s: Score) -> bool {
    score_num(s) == score_den(s)
}

/// The score a file name must exceed: 3/5.
pub const MIN_SCORE_NUM: u32 = 3;

pub const MIN_SCORE_DEN: u32 = 5;

/// The default minimum score, 3/5.
pub fn default_min_score() -> (r: Score)
    ensures
        r == (Score::Fraction { num: MIN_SCORE_NUM, den: MIN_SCORE_DEN }),
{
    Score::Fraction { num: MIN_SCORE_NUM, den: MIN_SCORE_DEN }
}

fn score_parts(s: &Score) -> (r: (u128, u128))
    ensures
        r.0 == score_num(*s),
        r.1 == score_den(*s),
        r.0 < 0x8_0000_0000_0000_0000,
        r.1 < 0x8_0000_0000_0000_0000,
        (*s is Fraction || score_den(*s) == 1) ==> r.0 <= 0xffff_ffff && r.1 <= 0xffff_ffff,
{
    match s {
        Score::Fraction { num, den } => (*num as u128, *den as u128),
        Score::Overlap { shorter, longer } => if *longer == 0 {
            (1, 1)
        } else {
            (4 * (*longer as u128) + (*shorter as u128), 5 * (*longer as u128))
        },
    }
}

/// Whether `a` is greater than `b`.
pub fn exceeds(a: &Score, b: &Score) -> (r: bool)
    ensures
        r == score_gt(*a, *b),
{
    match (a, b) {
        (Score::Overlap { shorter: sa, longer: la }, Score::Overlap { shorter: sb, longer: lb }) => {
            if *la > 0 && *lb > 0 {
                let ghost (x, y, u, v) = (*sa as int, *la as int, *sb as int, *lb as int);
                assert((4 * y + x) * (5 * v) - (4 * v + u) * (5 * y) == 5 * (x * v - u * y))
                    by (nonlinear_arith);
                assert(x * v < 0x1_0000_0000_0000_0000_0000_0000_0000_0000 && u * y
                    < 0x1_0000_0000_0000_0000_0000_0000_0000_0000) by (nonlinear_arith)
                    requires
                        0 <= x < 0x1_0000_0000_0000_0000,
                        0 <= y < 0x1_0000_0000_0000_0000,
                        0 <= u < 0x1_0000_0000_0000_0000,
                        0 <= v < 0x1_0000_0000_0000_0000,
                ;
                return (*sa as u128) * (*lb as u128) > (*sb as u128) * (*la as u128);
            }
        },
        _ => {},
    }
    let (an, ad) = score_parts(a);
    let (bn, bd) = score_parts(b);
    assert(an * bd < 0x8_0000_0000_0000_0000_0000_0000 && bn * ad < 0x8_0000_0000_0000_0000_0000_0000) by (nonlinear_arith)
        requires
            an < 0x8_0000_0000_0000_0000,
            ad < 0x8_0000_0000_0000_0000,
            bn < 0x8_0000_0000_0000_0000,
            bd < 0x8_0000_0000_0000_0000,
            (an <= 0xffff_ffff && ad <= 0xffff_ffff) || (bn <= 0xffff_ffff && bd <= 0xffff_ffff),
    ;
    an * bd > bn * ad
}

/// Whether the score is exactly 1.
pub fn is_full_score(s: &Score) -> (r: bool)
    ensures
        r == is_full(*s),
{
    let (n, d) = score_parts(s);
    n == d
}

/// How a lower-cased file name scores against a lower-cased artist and title, given the
/// length of the expected name `"{artist} - {title}"`:
/// both in the name: 0.8 + 0.2 × the ratio of the shorter length to the longer;
/// the artist only, where the title names the artist and the name holds the rest of the
/// title: 3/4; the artist only: 2/5; the title only: 1/2; neither: 0.
pub open spec fn score_spec(
    name: Seq<char>,
    artist: Seq<char>,
    title: Seq<char>,
    expected_len: nat,
) -> Score {
    let has_artist = contains(name, artist);
    let has_title = contains(name, title);
    if has_artist && has_title {
        Score::Overlap {
            shorter: (if expected_len <= name.len() {
                expected_len
            } else {
                name.len()
            }) as u64,
            longer: (if expected_len <= name.len() {
                name.len()
            } else {
                expected_len
            }) as u64,
        }
    } else if has_artist {
        if contains(title, artist) && title_rest(title, artist).len() > 0 && contains(
            name,
            title_rest(title, artist),
        ) {
            Score::Fraction { num: 3, den: 4 }
        } else {
            Score::Fraction { num: 2, den: 5 }
        }
    } else if has_title {
        Score::Fraction { num: 1, den: 2 }
    } else {
        Score::Fraction { num: 0, den: 1 }
    }
}

/// How a lower-cased, trimmed file name scores against a lower-cased artist and title, given
/// the length of the lower-cased expected name `"{artist} - {title}"`.
pub fn score_name(name: &str, artist: &str, title: &str, expected_len: usize) -> (r: Score)
    ensures
        r == score_spec(name@, artist@, title@, expected_len as nat),
        valid_score(r),
{
    let n = chars_of(name);
    let a = chars_of(artist);
    let t = chars_of(title);
    let has_artist = contains_chars(&n, &a);
    let has_title = contains_chars(&n, &t);
    if has_artist && has_title {
        let nl = n.len();
        if expected_len <= nl {
            Score::Overlap { shorter: expected_len as u64, longer: nl as u64 }
        } else {
            Score::Overlap { shorter: nl as u64, longer: expected_len as u64 }
        }
    } else if has_artist {
        if contains_chars(&t, &a) {
            let rest = title_rest_chars(&t, &a);
            if rest.len() > 0 && contains_chars(&n, &rest) {
                return Score::Fraction { num: 3, den: 4 };
            }
        }
        Score::Fraction { num: 2, den: 5 }
    } else if has_title {
        Score::Fraction { num: 1, den: 2 }
    } else {
        Score::Fraction { num: 0, den: 1 }
    }
}

/// How the file stem `stem` scores for a song: the stem lower-cased and trimmed, the artist
/// and title lower-cased, against the lower-cased `"{artist} - {title}"`.
pub fn match_score(stem: &str, artist: &str, title: &str) -> (r: Score)
    ensures
        r == score_spec(
            trim(lower_of(stem@)),
            lower_of(artist@),
            lower_of(title@),
            lower_of(artist@ + " - "@ + title@).len(),
        ),
        valid_score(r),
{
    let lowered = lowercase(stem);
    let name = trimmed(lowered.as_str());
    let a = lowercase(artist);
    let t = lowercase(title);
    let mut expected = String::from_str(artist);
    expected.append(" - ");
    expected.append(title);
    let expected_lower = lowercase(expected.as_str());
    let expected_len = chars_of(expected_lower.as_str()).len();
    score_name(name.as_str(), a.as_str(), t.as_str(), expected_len)
}

proof fn lemma_gt_over_le(a: Score, b: Score, c: Score)
    requires
        valid_score(a),
        valid_score(b),
        valid_score(c),
        !score_gt(a, b),
        score_gt(c, b),
    ensures
        score_gt(c, a),
{
    let (na, da, nb, db, nc, dc) = (
        score_num(a),
        score_den(a),
        score_num(b),
        score_den(b),
        score_num(c),
        score_den(c),
    );
    assert(na * db * dc <= nb * da * dc) by (nonlinear_arith)
        requires
            na * db <= nb * da,
            dc > 0,
    ;
    assert(nb * dc * da < nc * db * da) by (nonlinear_arith)
        requires
            nb * dc < nc * db,
            da > 0,
    ;
    assert(na * dc < nc * da) by (nonlinear_arith)
        requires
            na * db * dc <= nb * da * dc,
            nb * dc * da < nc * db * da,
            db > 0,
    ;
}

/// `r` is the best of `scores`: the first score of exactly 1 if there is one; else the first
/// of the highest scores, where it exceeds `min_score`; else none.
pub open spec fn is_best_pick(scores: Seq<Score>, min_score: Score, r: Option<usize>) -> bool {
    match r {
        Some(i) => i < scores.len() && ((is_full(scores[i as int]) && forall|j: int|
            0 <= j < i ==> !is_full(#[trigger] scores[j])) || ((forall|j: int|
            0 <= j < scores.len() ==> !is_full(#[trigger] scores[j])) && score_gt(
            scores[i as int],
            min_score,
        ) && (forall|j: int| 0 <= j < i ==> score_gt(scores[i as int], #[trigger] scores[j])) && (
        forall|j: int| i < j < scores.len() ==> !score_gt(#[trigger] scores[j], scores[i as int])))),
        None => forall|j: int|
            0 <= j < scores.len() ==> !is_full(#[trigger] scores[j]) && !score_gt(
                scores[j],
                min_score,
            ),
    }
}

/// The index of the best of `scores`: the first score of exactly 1 if there is one; else the
/// first of the highest scores, where it exceeds `min_score`; else none.
pub fn pick_best(scores: &Vec<Score>, min_score: &Score) -> (r: Option<usize>)
    requires
        valid_score(*min_score),
        forall|k: int| 0 <= k < scores@.len() ==> valid_score(#[trigger] scores@[k]),
    ensures
        is_best_pick(scores@, *min_score, r),
{
    let mut best: Score = *min_score;
    let mut best_index: Option<usize> = None;
    let mut k: usize = 0;
    while k < scores.len()
        invariant
            k <= scores@.len(),
            valid_score(*min_score),
            forall|j: int| 0 <= j < scores@.len() ==> valid_score(#[trigger] scores@[j]),
            valid_score(best),
            forall|j: int| 0 <= j < k ==> !is_full(#[trigger] scores@[j]),
            forall|j: int| 0 <= j < k ==> !score_gt(#[trigger] scores@[j], best),
            match best_index {
                None => best == *min_score,
                Some(i) => i < k && best == scores@[i as int] && score_gt(best, *min_score) && (
                forall|j: int| 0 <= j < i ==> score_gt(best, #[trigger] scores@[j])),
            },
        decreases scores@.len() - k,
    {
        let s = scores[k];
        if is_full_score(&s) {
            return Some(k);
        }
        if exceeds(&s, &best) {
            proof {
                assert forall|j: int| 0 <= j < k implies score_gt(s, #[trigger] scores@[j]) by {
                    lemma_gt_over_le(scores@[j], best, s);
                }
                if best_index is Some {
                    lemma_gt_over_le(*min_score, best, s);
                }
            }
            best = s;
            best_index = Some(k);
        }
        k += 1;
    }
    best_index
}

/// Where the last `.` of the first `n` characters of `s` is, or -1.
pub open spec fn last_dot(s: Seq<char>, n: int) -> int
    decreases n,
{
    if n <= 0 {
        -1
    } else if s[n - 1] == '.' {
        n - 1
    } else {
        last_dot(s, n - 1)
    }
}

/// The stem of a file name whose extension is `ext`: the extension follows the last `.`,
/// which must not start the name.
pub open spec fn stem_of(name: Seq<char>, ext: Seq<char>) -> Option<Seq<char>> {
    let k = last_dot(name, name.len() as int);
    if k > 0 && name.subrange(k + 1, name.len() as int) == ext {
        Some(name.subrange(0, k))
    } else {
        None
    }
}

/// The stem of the file name `name` if its extension is `extension`.
pub fn file_stem(name: &str, extension: &str) -> (r: Option<String>)
    ensures
        opt_string_view(r) == stem_of(name@, extension@),
{
    let cs = chars_of(name);
    let es = chars_of(extension);
    let mut n = cs.len();
    while n > 0 && cs[n - 1] != '.'
        invariant
            n <= cs@.len(),
            last_dot(cs@, cs@.len() as int) == last_dot(cs@, n as int),
        decreases n,
    {
        n -= 1;
    }
    if n <= 1 {
        return None;
    }
    let k = n - 1;
    let ext_part = slice_chars(&cs, k + 1, cs.len());
    if ext_part.len() == es.len() && occurs_at(&ext_part, &es, 0) {
        assert(ext_part@.subrange(0, es@.len() as int) =~= ext_part@);
        Some(String::from_str(name.substring_char(0, k)))
    } else {
        assert(ext_part@.len() == es@.len() ==> ext_part@.subrange(0, es@.len() as int)
            =~= ext_part@);
        None
    }
}

pub open spec fn opt_string_view(o: Option<String>) -> Option<Seq<char>> {
    match o {
        Some(s) => Some(s@),
        None => None,
    }
}

/// The name that a song's lyric file has: `"{artist} - {title}.{extension}"`.
pub fn exact_file_name(artist: &str, title: &str, extension: &str) -> (r: String)
    ensures
        r@ == artist@ + " - "@ + title@ + "."@ + extension@,
{
    let mut r = String::from_str(artist);
    r.append(" - ");
    r.append(title);
    r.append(".");
    r.append(extension);
    r
}

/// How the file name `name` scores for a song: a name without the extension scores 0.
pub open spec fn name_score(
    name: Seq<char>,
    artist: Seq<char>,
    title: Seq<char>,
    extension: Seq<char>,
) -> Score {
    match stem_of(name, extension) {
        Some(stem) => score_spec(
            trim(lower_of(stem)),
            lower_of(artist),
            lower_of(title),
            lower_of(artist + " - "@ + title).len(),
        ),
        None => Score::Fraction { num: 0, den: 1 },
    }
}

pub open spec fn name_scores(
    names: Seq<String>,
    artist: Seq<char>,
    title: Seq<char>,
    extension: Seq<char>,
) -> Seq<Score> {
    Seq::new(names.len(), |k: int| name_score(names[k]@, artist, title, extension))
}

/// The index of the file of `names` whose lyrics belong to the song, where the file named
/// `"{artist} - {title}.{extension}"` is not there: among the names with the extension, the
/// first whose score is exactly 1; else the first of the best scores, where it exceeds
/// `min_score`; else none. A name without the extension is never picked.
pub fn find_best(
    names: &Vec<String>,
    artist: &str,
    title: &str,
    extension: &str,
    min_score: &Score,
) -> (r: Option<usize>)
    requires
        valid_score(*min_score),
    ensures
        is_best_pick(name_scores(names@, artist@, title@, extension@), *min_score, r),
        r matches Some(i) ==> stem_of(names@[i as int]@, extension@) is Some,
{
    let ghost want = name_scores(names@, artist@, title@, extension@);
    let mut scores: Vec<Score> = Vec::new();
    let mut k: usize = 0;
    while k < names.len()
        invariant
            k <= names@.len(),
            want == name_scores(names@, artist@, title@, extension@),
            scores@ == want.take(k as int),
            forall|j: int| 0 <= j < k ==> valid_score(#[trigger] scores@[j]),
        decreases names@.len() - k,
    {
        let s = match file_stem(names[k].as_str(), extension) {
            Some(stem) => match_score(stem.as_str(), artist, title),
            None => Score::Fraction { num: 0, den: 1 },
        };
        scores.push(s);
        assert(scores@ =~= want.take(k + 1));
        k += 1;
    }
    assert(scores@ =~= want);
    let r = pick_best(&scores, min_score);
    proof {
        if let Some(i) = r {
            if stem_of(names@[i as int]@, extension@) is None {
                assert(!is_full(scores@[i as int]));
                assert(!score_gt(scores@[i as int], *min_score)) by (nonlinear_arith)
                    requires
                        score_num(scores@[i as int]) == 0,
                        score_den(scores@[i as int]) == 1,
                        score_num(*min_score) >= 0,
                ;
            }
        }
    }
    r
}

} // verus!
