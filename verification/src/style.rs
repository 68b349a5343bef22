//! Text with display attributes, which the terminal front end renders.

use vstd::prelude::*;

verus! {

/// A terminal color.
#[derive(Clone, Copy, Debug, PartialEq, Eq, Structural)]
pub enum Color {
    Default,
    Black,
    Red,
    Green,
    Yellow,
    Blue,
    Magenta,
    Cyan,
    White,
    DarkGray,
}

/// Foreground, background, weight and dimming of a piece of text.
#[derive(Clone, Copy, Debug, PartialEq, Eq, Structural)]
pub struct Style {
    pub fg: Color,
    pub bg: Color,
    pub bold: bool,
    pub dimmed: bool,
}

/// A piece of text and how to show it.
pub struct Styled {
    pub text: String,
    pub style: Style,
}

pub struct StyledView {
    pub text: Seq<char>,
    pub style: Style,
}

impl View for Styled {
    type V = StyledView;

    open spec fn view(&self) -> StyledView {
        StyledView { text: self.text@, style: self.style }
    }
}

pub open spec fn styled_views(v: Seq<Styled>) -> Seq<StyledView> {
    v.map_values(|s: Styled| s@)
}

pub open spec fn plain() -> Style {
    Style { fg: Color::Default, bg: Color::Default, bold: false, dimmed: false }
}

pub open spec fn dim() -> Style {
    Style { fg: Color::Default, bg: Color::Default, bold: false, dimmed: true }
}

pub open spec fn fg(c: Color) -> Style {
    Style { fg: c, bg: Color::Default, bold: false, dimmed: false }
}

pub open spec fn fg_bold(c: Color) -> Style {
    Style { fg: c, bg: Color::Default, bold: true, dimmed: false }
}

/// No attributes.
pub fn style_plain() -> (r: Style)
    ensures
        r == plain(),
{
    Style { fg: Color::Default, bg: Color::Default, bold: false, dimmed: false }
}

/// Dimmed text.
pub fn style_dim() -> (r: Style)
    ensures
        r == dim(),
{
    Style { fg: Color::Default, bg: Color::Default, bold: false, dimmed: true }
}

/// A foreground color.
pub fn style_fg(c: Color) -> (r: Style)
    ensures
        r == fg(c),
{
    Style { fg: c, bg: Color::Default, bold: false, dimmed: false }
}

/// A bold foreground color.
pub fn style_fg_bold(c: Color) -> (r: Style)
    ensures
        r == fg_bold(c),
{
    Style { fg: c, bg: Color::Default, bold: true, dimmed: false }
}

/// Text with a style.
pub fn styled(text: String, style: Style) -> (r: Styled)
    ensures
        r@ == (StyledView { text: text@, style }),
{
    Styled { text, style }
}

} // verus!
