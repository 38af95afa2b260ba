//! ANSI styling of terminal text.

use vstd::prelude::*;
use vstd::string::*;

verus! {

pub const RESET_ANSI: &'static str = "\x1B[0m";

pub const BOLD_CODE_ANSI: &'static str = "\x1B[1m";

pub const BOLD_RESET_ANSI: &'static str = "\x1B[22m";

/// The sixteen terminal colors.
#[derive(Clone, Copy, PartialEq, Eq, Structural)]
pub enum Color {
    Black,
    Red,
    Green,
    Yellow,
    Blue,
    Magenta,
    Cyan,
    White,
    BrightBlack,
    BrightRed,
    BrightGreen,
    BrightYellow,
    BrightBlue,
    BrightMagenta,
    BrightCyan,
    BrightWhite,
}

/// The SGR code that sets `c` as foreground color.
pub open spec fn foreground_of(c: Color) -> i32 {
    match c {
        Color::Black => 30,
        Color::Red => 31,
        Color::Green => 32,
        Color::Yellow => 33,
        Color::Blue => 34,
        Color::Magenta => 35,
        Color::Cyan => 36,
        Color::White => 37,
        Color::BrightBlack => 90,
        Color::BrightRed => 91,
        Color::BrightGreen => 92,
        Color::BrightYellow => 93,
        Color::BrightBlue => 94,
        Color::BrightMagenta => 95,
        Color::BrightCyan => 96,
        Color::BrightWhite => 97,
    }
}

/// The SGR code that sets `c` as background color: ten above its
/// foreground code.
pub open spec fn background_of(c: Color) -> i32 {
    (foreground_of(c) + 10) as i32
}

/// The decimal digits of `n`.
pub open spec fn decimal(n: nat) -> Seq<char>
    decreases n,
{
    if n < 10 {
        seq![digit(n)]
    } else {
        decimal(n / 10).push(digit(n % 10))
    }
}

pub open spec fn digit(d: nat) -> char {
    seq!['0', '1', '2', '3', '4', '5', '6', '7', '8', '9'][d as int]
}

/// Relies on `i32`'s `ToString` (through `Display`): a non-negative number
/// is written as its decimal digits, with no sign or padding.
#[verifier::external_body]
fn decimal_text(n: i32) -> (r: String)
    requires
        n >= 0,
    ensures
        r@ == decimal(n as nat),
{
    n.to_string()
}

impl Color {
    pub fn background_code(&self) -> (r: i32)
        ensures
            r == background_of(*self),
    {
        match self {
            Color::Black => 40,
            Color::Red => 41,
            Color::Green => 42,
            Color::Yellow => 43,
            Color::Blue => 44,
            Color::Magenta => 45,
            Color::Cyan => 46,
            Color::White => 47,
            Color::BrightBlack => 100,
            Color::BrightRed => 101,
            Color::BrightGreen => 102,
            Color::BrightYellow => 103,
            Color::BrightBlue => 104,
            Color::BrightMagenta => 105,
            Color::BrightCyan => 106,
            Color::BrightWhite => 107,
        }
    }

    pub fn foreground_code(&self) -> (r: i32)
        ensures
            r == foreground_of(*self),
    {
        match self {
            Color::Black => 30,
            Color::Red => 31,
            Color::Green => 32,
            Color::Yellow => 33,
            Color::Blue => 34,
            Color::Magenta => 35,
            Color::Cyan => 36,
            Color::White => 37,
            Color::BrightBlack => 90,
            Color::BrightRed => 91,
            Color::BrightGreen => 92,
            Color::BrightYellow => 93,
            Color::BrightBlue => 94,
            Color::BrightMagenta => 95,
            Color::BrightCyan => 96,
            Color::BrightWhite => 97,
        }
    }
}

/// `text` in bold.
pub open spec fn bold_spec(text: Seq<char>) -> Seq<char> {
    BOLD_CODE_ANSI@ + text + BOLD_RESET_ANSI@
}

/// `text` with the given colors set before it and reset after it.
pub open spec fn colored_spec(text: Seq<char>, background: Option<Color>, foreground: Option<Color>) -> Seq<char> {
    match (foreground, background) {
        (None, None) => text,
        (None, Some(bg)) => "\x1B["@ + decimal(background_of(bg) as nat) + "m"@ + text + RESET_ANSI@,
        (Some(fg), None) => "\x1B["@ + decimal(foreground_of(fg) as nat) + "m"@ + text + RESET_ANSI@,
        (Some(fg), Some(bg)) => "\x1B["@ + decimal(foreground_of(fg) as nat) + ";"@ + decimal(
            background_of(bg) as nat,
        ) + "m"@ + text + RESET_ANSI@,
    }
}

pub fn bold(text: &str) -> (r: String)
    ensures
        r@ == bold_spec(text@),
{
    let mut r = String::from_str(BOLD_CODE_ANSI);
    r.append(text);
    r.append(BOLD_RESET_ANSI);
    r
}

pub fn colored_background(text: &str, color: Color) -> (r: String)
    ensures
        r@ == colored_spec(text@, Some(color), None),
{
    colored(text, Some(color), None)
}

pub fn colored_foreground(text: &str, color: Color) -> (r: String)
    ensures
        r@ == colored_spec(text@, None, Some(color)),
{
    colored(text, None, Some(color))
}

pub fn colored(text: &str, background_color: Option<Color>, foreground_color: Option<Color>) -> (r: String)
    ensures
        r@ == colored_spec(text@, background_color, foreground_color),
{
    match (foreground_color, background_color) {
        (None, None) => String::from_str(text),
        (None, Some(bg)) => {
            let mut r = String::from_str("\x1B[");
            r.append(decimal_text(bg.background_code()).as_str());
            r.append("m");
            r.append(text);
            r.append(RESET_ANSI);
            r
        },
        (Some(fg), None) => {
            let mut r = String::from_str("\x1B[");
            r.append(decimal_text(fg.foreground_code()).as_str());
            r.append("m");
            r.append(text);
            r.append(RESET_ANSI);
            r
        },
        (Some(fg), Some(bg)) => {
            let mut r = String::from_str("\x1B[");
            r.append(decimal_text(fg.foreground_code()).as_str());
            r.append(";");
            r.append(decimal_text(bg.background_code()).as_str());
            r.append("m");
            r.append(text);
            r.append(RESET_ANSI);
            r
        },
    }
}

} // verus!
