//! The sixteen terminal colours and the escape sequences that paint a text.

use vstd::prelude::*;

verus! {

/// A foreground colour of the standard palette or of its bright variant.
#[derive(Clone, Copy, PartialEq, Eq, Debug, Hash, Structural)]
pub enum Color {
    Black,
    Red,
    Green,
    Yellow,
    Blue,
    Magenta,
    Cyan,
    White,
    BrightBlack,
    BrightRed,
    BrightGreen,
    BrightYellow,
    BrightBlue,
    BrightMagenta,
    BrightCyan,
    BrightWhite,
}

impl Color {
    /// The colour's SGR parameter: 30 to 37 for the standard colours, 90 to 97
    /// for the bright ones.
    pub open spec fn code(self) -> Seq<char> {
        match self {
            Color::Black => "30"@,
            Color::Red => "31"@,
            Color::Green => "32"@,
            Color::Yellow => "33"@,
            Color::Blue => "34"@,
            Color::Magenta => "35"@,
            Color::Cyan => "36"@,
            Color::White => "37"@,
            Color::BrightBlack => "90"@,
            Color::BrightRed => "91"@,
            Color::BrightGreen => "92"@,
            Color::BrightYellow => "93"@,
            Color::BrightBlue => "94"@,
            Color::BrightMagenta => "95"@,
            Color::BrightCyan => "96"@,
            Color::BrightWhite => "97"@,
        }
    }

    pub fn ansi_code(self) -> (r: &'static str)
        ensures
            r@ == self.code(),
    {
        match self {
            Color::Black => "30",
            Color::Red => "31",
            Color::Green => "32",
            Color::Yellow => "33",
            Color::Blue => "34",
            Color::Magenta => "35",
            Color::Cyan => "36",
            Color::White => "37",
            Color::BrightBlack => "90",
            Color::BrightRed => "91",
            Color::BrightGreen => "92",
            Color::BrightYellow => "93",
            Color::BrightBlue => "94",
            Color::BrightMagenta => "95",
            Color::BrightCyan => "96",
            Color::BrightWhite => "97",
        }
    }
}

/// The sequence that switches every attribute off.
pub const RESET: &'static str = "\x1b[0m";

pub open spec fn reset() -> Seq<char> {
    "\x1b[0m"@
}

/// A text in a colour, in bold where asked, with a reset behind it.
pub open spec fn colorized(text: Seq<char>, color: Color, bold: bool) -> Seq<char> {
    if bold {
        "\x1b[1;"@ + color.code() + "m"@ + text + reset()
    } else {
        "\x1b["@ + color.code() + "m"@ + text + reset()
    }
}

/// A text in the dim style.
pub open spec fn dimmed(text: Seq<char>) -> Seq<char> {
    "\x1b[2m"@ + text + reset()
}

/// A text in cyan.
pub open spec fn cyan(text: Seq<char>) -> Seq<char> {
    "\x1b[36m"@ + text + reset()
}

pub fn colorize_text(text: &str, color: Color, bold: bool) -> (r: String)
    ensures
        r@ == colorized(text@, color, bold),
{
    let mut r = if bold {
        "\x1b[1;".to_string()
    } else {
        "\x1b[".to_string()
    };
    r.append(color.ansi_code());
    r.append("m");
    r.append(text);
    r.append("\x1b[0m");
    r
}

pub fn dim_text(text: &str) -> (r: String)
    ensures
        r@ == dimmed(text@),
{
    let mut r = "\x1b[2m".to_string();
    r.append(text);
    r.append("\x1b[0m");
    r
}

pub fn cyan_text(text: &str) -> (r: String)
    ensures
        r@ == cyan(text@),
{
    let mut r = "\x1b[36m".to_string();
    r.append(text);
    r.append("\x1b[0m");
    r
}

} // verus!
