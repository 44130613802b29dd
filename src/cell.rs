use vstd::prelude::*;

verus! {

/// A terminal color: the terminal's own default, two named colors, or an
/// explicit 8-bit RGB triple.
#[derive(Clone, Copy, Debug, PartialEq, Eq, Structural)]
pub enum Color {
    Reset,
    White,
    Blue,
    Rgb { r: u8, g: u8, b: u8 },
}

/// One addressable unit of terminal output: a single glyph with its colors.
#[derive(Clone, Copy, Debug, PartialEq, Eq, Structural)]
pub struct Cell {
    pub fg_color: Color,
    pub bg_color: Color,
    pub glyph: char,
}

/// Text to be staged at a position: each character becomes one cell with the
/// same colors, and a line break moves on to the start of the next row.
#[derive(Debug)]
pub struct ScreenItem {
    pub fg_color: Color,
    pub bg_color: Color,
    pub text: Vec<char>,
}

/// The blank cell that clearing stages: a space on the given background.
pub open spec fn blank_cell(bg: Color) -> Cell {
    Cell { fg_color: Color::Reset, bg_color: bg, glyph: ' ' }
}

impl Cell {
    /// The blank cell that clearing stages.
    pub fn blank(bg: Color) -> (c: Cell)
        ensures
            c == blank_cell(bg),
    {
        Cell { fg_color: Color::Reset, bg_color: bg, glyph: ' ' }
    }
}

/// A single terminal write decided by a flush: a cell painted at `(x, y)`, or,
/// where `cell` is `None`, a blank in the terminal's default colors.
#[derive(Clone, Copy, Debug, PartialEq, Eq, Structural)]
pub struct DrawOp {
    pub x: u16,
    pub y: u16,
    pub cell: Option<Cell>,
}

} // verus!
