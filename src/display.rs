//! What the display and the serial echo are told: which matrix lines to
//! drive for one LED, and the bytes that render the board as text.

use vstd::prelude::*;
use crate::world::{Board, grid};

verus! {

/// One line of the LED matrix and the level to drive it to.
#[derive(Clone, Copy, Debug, PartialEq, Eq)]
pub struct LineLevel {
    /// The line's index, in `[0, 5)`.
    pub index: usize,
    /// Drive the line high (`true`) or low (`false`).
    pub high: bool,
}

/// The two lines to drive to light or darken one LED; `None` where the index
/// is out of range, so that line is left alone.
#[derive(Clone, Copy, Debug, PartialEq, Eq)]
pub struct LedLines {
    pub row: Option<LineLevel>,
    pub col: Option<LineLevel>,
}

/// An LED is lit by its row line high and its column line low, and darkened
/// by the inverse. Out-of-range indices drive nothing.
pub fn led_lines(on: bool, row: usize, col: usize) -> (r: LedLines)
    ensures
        r.row == (if row < 5 {
            Some(LineLevel { index: row, high: on })
        } else {
            None
        }),
        r.col == (if col < 5 {
            Some(LineLevel { index: col, high: !on })
        } else {
            None
        }),
{
    let row_line = if row < 5 {
        Some(LineLevel { index: row, high: on })
    } else {
        None
    };
    let col_line = if col < 5 {
        Some(LineLevel { index: col, high: !on })
    } else {
        None
    };
    LedLines { row: row_line, col: col_line }
}

/// The terminal code that clears the screen: ESC c.
pub fn clear_code() -> (r: [u8; 2])
    ensures
        r@ == seq![0x1bu8, 0x63u8],
{
    let r: [u8; 2] = [0x1b, 0x63];
    assert(r@ =~= seq![0x1bu8, 0x63u8]);
    r
}

/// The character for a cell: `X` when alive, `.` otherwise.
pub open spec fn glyph(v: u8) -> u8 {
    if v == 1 {
        0x58u8
    } else {
        0x2eu8
    }
}

/// A row rendered as text: one character per cell, then LF CR.
pub open spec fn row_text(cells: Seq<u8>) -> Seq<u8> {
    Seq::new(5, |c: int| glyph(cells[c])) + seq![0x0au8, 0x0du8]
}

/// The bytes that the serial echo sends for row `row` of the board.
pub fn render_row(w: &Board, row: usize) -> (r: Vec<u8>)
    requires
        row < 5,
    ensures
        r@ == row_text(grid(*w)[row as int]),
{
    let mut out: Vec<u8> = Vec::new();
    let mut col: usize = 0;
    while col < 5
        invariant
            row < 5,
            col <= 5,
            out@ == Seq::new(col as nat, |c: int| glyph(grid(*w)[row as int][c])),
        decreases 5 - col,
    {
        let v: u8 = w[row][col];
        if v == 1 {
            out.push(0x58);
        } else {
            out.push(0x2e);
        }
        assert(out@ =~= Seq::new((col + 1) as nat, |c: int| glyph(grid(*w)[row as int][c])));
        col += 1;
    }
    out.push(0x0a);
    out.push(0x0d);
    assert(out@ =~= row_text(grid(*w)[row as int]));
    out
}

} // verus!
