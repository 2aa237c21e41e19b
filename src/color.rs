//! Colour names of the terminal front end's configuration.
use vstd::prelude::*;
use crate::matcher::occurs_at;
use crate::text::{chars_of, lower_of, lowercase};

verus! {

/// The sixteen named terminal colours.
#[derive(Debug, Clone, Copy, PartialEq, Eq, Structural)]
pub enum ColorName {
    Black,
    Red,
    Green,
    Yellow,
    Blue,
    Magenta,
    Cyan,
    Gray,
    DarkGray,
    LightRed,
    LightGreen,
    LightYellow,
    LightBlue,
    LightMagenta,
    LightCyan,
    White,
}

/// The colour a lower-cased name names; an unknown name means white.
pub open spec fn color_of(s: Seq<char>) -> ColorName {
    if s == "black"@ {
        ColorName::Black
    } else if s == "red"@ {
        ColorName::Red
    } else if s == "green"@ {
        ColorName::Green
    } else if s == "yellow"@ {
        ColorName::Yellow
    } else if s == "blue"@ {
        ColorName::Blue
    } else if s == "magenta"@ {
        ColorName::Magenta
    } else if s == "cyan"@ {
        ColorName::Cyan
    } else if s == "gray"@ {
        ColorName::Gray
    } else if s == "darkgray"@ {
        ColorName::DarkGray
    } else if s == "lightred"@ {
        ColorName::LightRed
    } else if s == "lightgreen"@ {
        ColorName::LightGreen
    } else if s == "lightyellow"@ {
        ColorName::LightYellow
    } else if s == "lightblue"@ {
        ColorName::LightBlue
    } else if s == "lightmagenta"@ {
        ColorName::LightMagenta
    } else if s == "lightcyan"@ {
        ColorName::LightCyan
    } else {
        ColorName::White
    }
}

/// Whether `cs` holds exactly the characters of `name`.
fn is_named(cs: &Vec<char>, name: &str) -> (r: bool)
    ensures
        r == (cs@ == name@),
{
    let ns = chars_of(name);
    if ns.len() != cs.len() {
        return false;
    }
    let r = occurs_at(cs, &ns, 0);
    assert(cs@.subrange(0, ns@.len() as int) =~= cs@);
    r
}

/// The colour that `color_str` names, in any case; an unknown name means white.
pub fn parse_color(color_str: &str) -> (r: ColorName)
    ensures
        r == color_of(lower_of(color_str@)),
{
    let lowered = lowercase(color_str);
    let cs = chars_of(lowered.as_str());
    if is_named(&cs, "black") {
        ColorName::Black
    } else if is_named(&cs, "red") {
        ColorName::Red
    } else if is_named(&cs, "green") {
        ColorName::Green
    } else if is_named(&cs, "yellow") {
        ColorName::Yellow
    } else if is_named(&cs, "blue") {
        ColorName::Blue
    } else if is_named(&cs, "magenta") {
        ColorName::Magenta
    } else if is_named(&cs, "cyan") {
        ColorName::Cyan
    } else if is_named(&cs, "gray") {
        ColorName::Gray
    } else if is_named(&cs, "darkgray") {
        ColorName::DarkGray
    } else if is_named(&cs, "lightred") {
        ColorName::LightRed
    } else if is_named(&cs, "lightgreen") {
        ColorName::LightGreen
    } else if is_named(&cs, "lightyellow") {
        ColorName::LightYellow
    } else if is_named(&cs, "lightblue") {
        ColorName::LightBlue
    } else if is_named(&cs, "lightmagenta") {
        ColorName::LightMagenta
    } else if is_named(&cs, "lightcyan") {
        ColorName::LightCyan
    } else {
        ColorName::White
    }
}

} // verus!
