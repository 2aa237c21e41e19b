//! Reading the answer of the remote lyrics service's track search.
use vstd::prelude::*;
use crate::matcher::occurs_at;
use crate::parser::digit_run;
use crate::text::{chars_of, is_whitespace, is_ws};

verus! {

/// How many white-space characters `s` holds from `i` on.
pub open spec fn ws_run(s: Seq<char>, i: int) -> nat
    decreases s.len() - i,
{
    if 0 <= i < s.len() && is_ws(s[i]) {
        1 + ws_run(s, i + 1)
    } else {
        0
    }
}

/// The track id at position `i` of `s`: `"id":`, white space, then the digits of the id.
pub open spec fn track_id_at(s: Seq<char>, i: int) -> Option<Seq<char>> {
    let key = "\"id\":"@;
    let j = i + key.len() + ws_run(s, i + key.len());
    if 0 <= i && i + key.len() <= s.len() && s.subrange(i, i + key.len()) == key && digit_run(
        s,
        j,
    ) > 0 {
        Some(s.subrange(j, j + digit_run(s, j)))
    } else {
        None
    }
}

/// The first track id in `s` from position `i` on.
pub open spec fn first_track_id(s: Seq<char>, i: int) -> Option<Seq<char>>
    decreases s.len() - i,
{
    if i < 0 || i >= s.len() {
        None
    } else if track_id_at(s, i) is Some {
        track_id_at(s, i)
    } else {
        first_track_id(s, i + 1)
    }
}

/// The id of the first track in a search answer: the digits after the first `"id":` that
/// digits follow, past white space.
pub fn track_id(body: &str) -> (r: Option<String>)
    ensures
        crate::matcher::opt_string_view(r) == first_track_id(body@, 0),
{
    let cs = chars_of(body);
    let key = chars_of("\"id\":");
    let n = cs.len();
    let mut i: usize = 0;
    while i < n
        invariant
            n == cs@.len(),
            cs@ == body@,
            key@ == "\"id\":"@,
            i <= n,
            first_track_id(cs@, 0) == first_track_id(cs@, i as int),
        decreases n - i,
    {
        if key.len() <= n - i && occurs_at(&cs, &key, i) {
            let mut j = i + key.len();
            while j < n && is_whitespace(cs[j])
                invariant
                    i + key@.len() <= j <= n == cs@.len(),
                    ws_run(cs@, i + key@.len()) == (j - i - key@.len()) + ws_run(cs@, j as int),
                decreases n - j,
            {
                j += 1;
            }
            let mut e = j;
            while e < n && '0' <= cs[e] && cs[e] <= '9'
                invariant
                    j <= e <= n == cs@.len(),
                    digit_run(cs@, j as int) == (e - j) + digit_run(cs@, e as int),
                decreases n - e,
            {
                e += 1;
            }
            if e > j {
                return Some(String::from_str(body.substring_char(j, e)));
            }
        }
        i += 1;
    }
    None
}

} // verus!
