//! Coordinates of a cell in the grid.

use vstd::prelude::*;
use vstd::std_specs::convert::FromSpecImpl;
use vstd::string::StringExecFns;

use crate::text::{decimal, is_scalar, push_decimal};

verus! {

/// Coordinates `(line, column)` of a cell, both 0-based.
///
/// Line 0 is the top line and column 0 the leftmost column.
#[derive(Clone, Copy, Debug, Default, PartialEq, Eq, Hash, Structural)]
pub struct LineColumn {
    /// Line number (0-based).
    pub line: usize,
    /// Column number (0-based).
    pub column: usize,
}

impl From<(usize, usize)> for LineColumn {
    fn from(value: (usize, usize)) -> (result: Self) {
        Self { line: value.0, column: value.1 }
    }
}

impl FromSpecImpl<(usize, usize)> for LineColumn {
    open spec fn obeys_from_spec() -> bool {
        true
    }

    open spec fn from_spec(value: (usize, usize)) -> Self {
        LineColumn { line: value.0, column: value.1 }
    }
}

impl LineColumn {
    /// Builds the coordinates of the cell at `line` and `column`.
    #[must_use]
    pub fn new(line: usize, column: usize) -> (result: Self)
        ensures
            result == (LineColumn { line, column }),
    {
        Self { line, column }
    }

    /// Line of the cell (0-based).
    #[must_use]
    pub fn line(&self) -> (result: usize)
        ensures
            result == self.line,
    {
        self.line
    }

    /// Column of the cell (0-based).
    #[must_use]
    pub fn column(&self) -> (result: usize)
        ensures
            result == self.column,
    {
        self.column
    }

    /// Row-major order: `self` stands above `other`, or on the same line and
    /// to its left.
    pub open spec fn precedes(self, other: LineColumn) -> bool {
        self.line < other.line || (self.line == other.line && self.column < other.column)
    }

    /// Two cells touch when they differ and lie at most one line and one
    /// column apart (the Moore neighbourhood).
    pub open spec fn touches(self, other: LineColumn) -> bool {
        &&& self != other
        &&& self.line <= other.line + 1
        &&& other.line <= self.line + 1
        &&& self.column <= other.column + 1
        &&& other.column <= self.column + 1
    }
}

/// The label of the line `line`: its number, counted from 1.
pub open spec fn line_label(line: usize) -> Seq<char> {
    decimal((line + 1) as nat)
}

/// The column `column` has a label: a character stands that far after `A`.
pub open spec fn has_column_label(column: usize) -> bool {
    column + 65 <= 0xD7FF || 0xE000 <= column + 65 <= 0x10FFFF
}

/// The label of the column `column`: the character that stands that far
/// after `A`.
pub open spec fn column_label(column: usize) -> Seq<char> {
    seq![(column + 65) as char]
}

/// The label of the line `line`: 0, 1, ... are shown as `1`, `2`, ...
pub fn display_line(line: usize) -> (result: String)
    ensures
        result@ == line_label(line),
{
    let mut text = String::new();
    push_decimal(&mut text, line as u128 + 1);
    proof {
        assert(text@ =~= line_label(line));
    }
    text
}

/// The label of the column `column`: 0, 1, ... are shown as `A`, `B`, ...
pub fn display_column(column: usize) -> (result: String)
    requires
        has_column_label(column),
    ensures
        result@ == column_label(column),
{
    let mut text = String::new();
    let code: u32 = 65 + column as u32;
    match char::from_u32(code) {
        Some(ch) => text.push(ch),
        None => {},
    }
    proof {
        assert(is_scalar(code));
        assert(text@ =~= column_label(column));
    }
    text
}

impl LineColumn {
    /// The text that shows the cell: the label of its column, then that of
    /// its line. The top left cell is `A1`.
    pub open spec fn text(self) -> Seq<char> {
        column_label(self.column) + line_label(self.line)
    }

    /// The text that shows the cell.
    pub fn to_text(&self) -> (result: String)
        requires
            has_column_label(self.column),
        ensures
            result@ == self.text(),
    {
        let mut text = display_column(self.column);
        text.append(display_line(self.line).as_str());
        text
    }
}

} // verus!
