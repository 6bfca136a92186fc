//! Colors and text styles.

use vstd::prelude::*;

verus! {

/// A terminal color.
#[derive(Clone, Copy, Debug, PartialEq, Eq, Structural)]
pub enum Color {
    Reset,
    Black,
    Red,
    Green,
    Yellow,
    Blue,
    Magenta,
    Cyan,
    Gray,
    DarkGray,
    LightRed,
    LightGreen,
    LightYellow,
    LightBlue,
    LightMagenta,
    LightCyan,
    White,
    Rgb(u8, u8, u8),
    Indexed(u8),
}

/// How a piece of text is drawn. A color that is not given is left as it is.
#[derive(Clone, Copy, Debug, PartialEq, Eq, Structural)]
pub struct Style {
    pub fg: Option<Color>,
    pub bg: Option<Color>,
    pub dim: bool,
}

/// Text drawn as the terminal has it.
pub open spec fn plain() -> Style {
    Style { fg: None, bg: None, dim: false }
}

/// Black text on white: the selected field, the selected entry, a QR code.
pub open spec fn active() -> Style {
    Style { fg: Some(Color::Black), bg: Some(Color::White), dim: false }
}

/// Dimmed text: the line of key hints.
pub open spec fn dimmed() -> Style {
    Style { fg: None, bg: None, dim: true }
}

/// Red text: an error message.
pub open spec fn alarming() -> Style {
    Style { fg: Some(Color::Red), bg: None, dim: false }
}

/// Text drawn as the terminal has it.
pub fn plain_style() -> (style: Style)
    ensures
        style == plain(),
{
    Style { fg: None, bg: None, dim: false }
}

/// Black text on white.
pub fn active_style() -> (style: Style)
    ensures
        style == active(),
{
    Style { fg: Some(Color::Black), bg: Some(Color::White), dim: false }
}

/// Dimmed text.
pub fn hint_style() -> (style: Style)
    ensures
        style == dimmed(),
{
    Style { fg: None, bg: None, dim: true }
}

/// Red text.
pub fn error_style() -> (style: Style)
    ensures
        style == alarming(),
{
    Style { fg: Some(Color::Red), bg: None, dim: false }
}

} // verus!
