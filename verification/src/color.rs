//! Terminal colors and colored text.

use vstd::prelude::*;
use colored::Colorize;

verus! {

/// The terminal colors that the library paints with.
#[derive(Clone, Copy, Debug, PartialEq, Eq, Structural)]
pub enum Color {
    Cyan,
    Green,
    Yellow,
    Blue,
    Magenta,
    BrightCyan,
    BrightGreen,
    BrightYellow,
    BrightRed,
    White,
}

/// The ANSI foreground code of `c`.
pub open spec fn foreground_code(c: Color) -> Seq<char> {
    match c {
        Color::Cyan => seq!['3', '6'],
        Color::Green => seq!['3', '2'],
        Color::Yellow => seq!['3', '3'],
        Color::Blue => seq!['3', '4'],
        Color::Magenta => seq!['3', '5'],
        Color::BrightCyan => seq!['9', '6'],
        Color::BrightGreen => seq!['9', '2'],
        Color::BrightYellow => seq!['9', '3'],
        Color::BrightRed => seq!['9', '1'],
        Color::White => seq!['3', '7'],
    }
}

/// The escape sequence that switches the foreground to `c`.
pub open spec fn color_start(c: Color) -> Seq<char> {
    seq!['\x1b', '['] + foreground_code(c) + seq!['m']
}

/// The escape sequence that resets all attributes.
pub open spec fn color_reset() -> Seq<char> {
    seq!['\x1b', '[', '0', 'm']
}

/// `s` followed by spaces up to `width` characters.
pub open spec fn pad(s: Seq<char>, width: nat) -> Seq<char> {
    if s.len() < width {
        s + Seq::new((width - s.len()) as nat, |i: int| ' ')
    } else {
        s
    }
}

/// What displaying `text` in `color`, padded to `width`, may give: the padded
/// text alone when coloring is off, or the padded text between the color's
/// escape sequence and the reset sequence when it is on. When the text itself
/// holds an escape character, the colored form repeats the color after every
/// reset sequence inside it; of that form only its ends are stated.
pub open spec fn painted(res: Seq<char>, text: Seq<char>, color: Color, width: nat) -> bool {
    ||| res == pad(text, width)
    ||| res == color_start(color) + pad(text, width) + color_reset()
    ||| text.contains('\x1b') && exists|mid: Seq<char>| res == color_start(color) + mid + color_reset()
}

/// Displays `text` in `color` with `colored`, padded to `width` characters
/// (`format!("{:width$}", text.color(color))`). Whether `colored` emits escape
/// sequences depends on the environment (`CLICOLOR`, `NO_COLOR`,
/// `CLICOLOR_FORCE`, whether stdout is a terminal), so the contract states
/// what holds of either outcome.
#[verifier::external_body]
fn paint(text: &str, color: Color, width: usize) -> (res: String)
    ensures
        painted(res@, text@, color, width as nat),
{
    let c = match color {
        Color::Cyan => colored::Color::Cyan,
        Color::Green => colored::Color::Green,
        Color::Yellow => colored::Color::Yellow,
        Color::Blue => colored::Color::Blue,
        Color::Magenta => colored::Color::Magenta,
        Color::BrightCyan => colored::Color::BrightCyan,
        Color::BrightGreen => colored::Color::BrightGreen,
        Color::BrightYellow => colored::Color::BrightYellow,
        Color::BrightRed => colored::Color::BrightRed,
        Color::White => colored::Color::White,
    };
    format!("{:width$}", text.color(c), width = width)
}

/// A text with the foreground color it is shown in.
pub struct ColoredText {
    pub input: String,
    pub color: Color,
}

impl ColoredText {
    /// The text as a terminal shows it in its color.
    pub fn to_string(&self) -> (res: String)
        ensures
            painted(res@, self.input@, self.color, 0),
    {
        paint(self.input.as_str(), self.color, 0)
    }

    /// The text in its color, padded with spaces to `width` characters.
    pub fn to_padded_string(&self, width: usize) -> (res: String)
        ensures
            painted(res@, self.input@, self.color, width as nat),
    {
        paint(self.input.as_str(), self.color, width)
    }
}

} // verus!
