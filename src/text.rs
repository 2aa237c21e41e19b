//! Character-level helpers on which the parsers and the matcher are built.
use vstd::prelude::*;

verus! {

/// Unicode `White_Space`, the set that `char::is_whitespace` and `str::trim` use.
pub open spec fn is_ws(c: char) -> bool {
    let u = c as u32;
    u == 0x20 || (0x09 <= u && u <= 0x0d) || u == 0x85 || u == 0xa0 || u == 0x1680 || (0x2000
        <= u && u <= 0x200a) || u == 0x2028 || u == 0x2029 || u == 0x202f || u == 0x205f || u
        == 0x3000
}

pub open spec fn is_digit(c: char) -> bool {
    '0' <= c && c <= '9'
}

/// `s` without its leading white space.
pub open spec fn trim_start(s: Seq<char>) -> Seq<char>
    decreases s.len(),
{
    if s.len() > 0 && is_ws(s[0]) {
        trim_start(s.drop_first())
    } else {
        s
    }
}

/// `s` without its trailing white space.
pub open spec fn trim_end(s: Seq<char>) -> Seq<char>
    decreases s.len(),
{
    if s.len() > 0 && is_ws(s.last()) {
        trim_end(s.drop_last())
    } else {
        s
    }
}

/// `s` without white space at either end.
pub open spec fn trim(s: Seq<char>) -> Seq<char> {
    trim_end(trim_start(s))
}

pub fn is_whitespace(c: char) -> (r: bool)
    ensures
        r == is_ws(c),
{
    let u = c as u32;
    u == 0x20 || (0x09 <= u && u <= 0x0d) || u == 0x85 || u == 0xa0 || u == 0x1680 || (0x2000
        <= u && u <= 0x200a) || u == 0x2028 || u == 0x2029 || u == 0x202f || u == 0x205f || u
        == 0x3000
}

/// The characters of `s`, for constant-time indexing.
pub fn chars_of(s: &str) -> (v: Vec<char>)
    ensures
        v@ == s@,
{
    broadcast use vstd::string::group_string_axioms;

    let mut v: Vec<char> = Vec::new();
    for c in it: s.chars()
        invariant
            v@ == it.seq().take(it.index() as int),
    {
        v.push(c);
    }
    v
}

/// What `str::to_lowercase` makes of a string.
pub uninterp spec fn lower_of(s: Seq<char>) -> Seq<char>;

/// Relies on `str::to_lowercase`: the result depends on the characters alone.
#[verifier::external_body]
pub(crate) fn lowercase(s: &str) -> (r: String)
    ensures
        r@ == lower_of(s@),
{
    s.to_lowercase()
}

/// Bounds `(a, b)` such that `cs[a..b]` is `cs[lo..hi]` trimmed.
pub fn trim_range(cs: &Vec<char>, lo: usize, hi: usize) -> (r: (usize, usize))
    requires
        lo <= hi <= cs@.len(),
    ensures
        lo <= r.0 <= r.1 <= hi,
        cs@.subrange(r.0 as int, r.1 as int) == trim(cs@.subrange(lo as int, hi as int)),
{
    let mut a = lo;
    while a < hi && is_whitespace(cs[a])
        invariant
            lo <= a <= hi <= cs@.len(),
            trim_start(cs@.subrange(lo as int, hi as int)) == trim_start(
                cs@.subrange(a as int, hi as int),
            ),
        decreases hi - a,
    {
        assert(cs@.subrange(a as int, hi as int).drop_first() =~= cs@.subrange(
            a + 1,
            hi as int,
        ));
        a += 1;
    }
    if a < hi {
        assert(cs@.subrange(a as int, hi as int)[0] == cs@[a as int]);
    }
    let mut b = hi;
    while b > a && is_whitespace(cs[b - 1])
        invariant
            lo <= a <= b <= hi <= cs@.len(),
            trim_start(cs@.subrange(lo as int, hi as int)) == cs@.subrange(a as int, hi as int),
            trim_end(cs@.subrange(a as int, hi as int)) == trim_end(
                cs@.subrange(a as int, b as int),
            ),
        decreases b - a,
    {
        assert(cs@.subrange(a as int, b as int).drop_last() =~= cs@.subrange(
            a as int,
            b - 1,
        ));
        b -= 1;
    }
    if b > a {
        assert(cs@.subrange(a as int, b as int).last() == cs@[b - 1]);
    }
    (a, b)
}

/// `s` trimmed, as a new string.
pub fn trimmed(s: &str) -> (r: String)
    ensures
        r@ == trim(s@),
{
    let cs = chars_of(s);
    let (a, b) = trim_range(&cs, 0, cs.len());
    assert(cs@.subrange(0, cs@.len() as int) =~= s@);
    String::from_str(s.substring_char(a, b))
}

/// The decimal digits of `n`.
pub open spec fn decimal(n: nat) -> Seq<char>
    decreases n,
{
    if n < 10 {
        seq!["0123456789"@[n as int]]
    } else {
        decimal(n / 10) + seq!["0123456789"@[(n % 10) as int]]
    }
}

/// The digit `d` as a string.
fn digit(d: u64) -> (r: &'static str)
    requires
        d < 10,
    ensures
        r@ == seq!["0123456789"@[d as int]],
{
    let digits = "0123456789";
    proof {
        reveal_strlit("0123456789");
    }
    let r = digits.substring_char(d as usize, d as usize + 1);
    assert(r@ =~= seq!["0123456789"@[d as int]]);
    r
}

/// `n` in decimal.
pub fn decimal_string(n: u64) -> (r: String)
    ensures
        r@ == decimal(n as nat),
    decreases n,
{
    let last = digit(n % 10);
    if n < 10 {
        String::from_str(last)
    } else {
        let mut s = decimal_string(n / 10);
        s.append(last);
        s
    }
}

} // verus!
