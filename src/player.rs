//! The song that a media player reports, built from its metadata.
use vstd::prelude::*;
use crate::matcher::{occurs_at, opt_string_view};
use crate::models::{SongInfo, SongStatus};
use crate::text::chars_of;

verus! {

/// `parts` joined with `sep` between each two.
pub open spec fn join(parts: Seq<Seq<char>>, sep: Seq<char>) -> Seq<char>
    decreases parts.len(),
{
    if parts.len() == 0 {
        Seq::empty()
    } else if parts.len() == 1 {
        parts[0]
    } else {
        join(parts.drop_last(), sep) + sep + parts.last()
    }
}

pub open spec fn strings_view(v: Seq<String>) -> Seq<Seq<char>> {
    v.map_values(|s: String| s@)
}

/// `parts` joined with `sep` between each two.
pub fn join_strings(parts: &Vec<String>, sep: &str) -> (r: String)
    ensures
        r@ == join(strings_view(parts@), sep@),
{
    let ghost ps = strings_view(parts@);
    let mut out = String::new();
    let mut k: usize = 0;
    while k < parts.len()
        invariant
            k <= parts@.len(),
            ps == strings_view(parts@),
            out@ == join(ps.take(k as int), sep@),
        decreases parts@.len() - k,
    {
        if k > 0 {
            out.append(sep);
        }
        out.append(parts[k].as_str());
        assert(ps.take(k + 1).drop_last() =~= ps.take(k as int));
        assert(k == 0 ==> out@ =~= ps.take(k + 1)[0]);
        k += 1;
    }
    assert(ps.take(k as int) =~= ps);
    out
}

/// The song that a player reports: the artists joined with `", "` (`"Unknown Artist"` where
/// none is given), the title (`"Unknown Title"` where none is given), and as its id
/// `"{artist} - {title}"`.
pub fn song_from_metadata(
    artists: Option<Vec<String>>,
    title: Option<String>,
    position: u64,
    playing: bool,
    url: Option<String>,
) -> (r: SongInfo)
    ensures
        r.artist@ == match artists {
            Some(v) => join(strings_view(v@), ", "@),
            None => "Unknown Artist"@,
        },
        r.title@ == match title {
            Some(t) => t@,
            None => "Unknown Title"@,
        },
        r.id@ == r.artist@ + " - "@ + r.title@,
        r.position == position,
        r.status == if playing {
            SongStatus::Playing
        } else {
            SongStatus::Paused
        },
        opt_string_view(r.url) == opt_string_view(url),
{
    let artist = match artists {
        Some(v) => join_strings(&v, ", "),
        None => String::from_str("Unknown Artist"),
    };
    let title = match title {
        Some(t) => t,
        None => String::from_str("Unknown Title"),
    };
    let mut id = artist.clone();
    id.append(" - ");
    id.append(title.as_str());
    SongInfo {
        id,
        artist,
        title,
        position,
        status: if playing {
            SongStatus::Playing
        } else {
            SongStatus::Paused
        },
        url,
    }
}

/// `s` without every leading repetition of `p`.
pub open spec fn strip_prefixes(s: Seq<char>, p: Seq<char>) -> Seq<char>
    decreases s.len(),
{
    if p.len() > 0 && s.len() >= p.len() && s.subrange(0, p.len() as int) == p {
        strip_prefixes(s.subrange(p.len() as int, s.len() as int), p)
    } else {
        s
    }
}

/// The path of a `file://` URL: the URL without its leading `"file://"` prefixes.
pub fn music_path(url: &str) -> (r: String)
    ensures
        r@ == strip_prefixes(url@, "file://"@),
{
    let cs = chars_of(url);
    let ps = chars_of("file://");
    let n = cs.len();
    let m = ps.len();
    let mut a: usize = 0;
    assert(cs@.subrange(0, n as int) =~= cs@);
    while m > 0 && m <= n - a && occurs_at(&cs, &ps, a)
        invariant
            a <= n == cs@.len(),
            m == ps@.len(),
            strip_prefixes(cs@, ps@) == strip_prefixes(cs@.subrange(a as int, n as int), ps@),
        decreases n - a,
    {
        let ghost rest = cs@.subrange(a as int, n as int);
        assert(rest.subrange(0, m as int) =~= cs@.subrange(a as int, a + m));
        assert(rest.subrange(m as int, rest.len() as int) =~= cs@.subrange(a + m, n as int));
        a += m;
    }
    let ghost rest = cs@.subrange(a as int, n as int);
    assert(m > 0 && m <= n - a ==> rest.subrange(0, m as int) =~= cs@.subrange(
        a as int,
        a + m,
    ));
    String::from_str(url.substring_char(a, n))
}

} // verus!
