//! A cell of the grid.

use vstd::prelude::*;

use crate::CellValue;
use crate::LineColumn;
use crate::Region;

verus! {

/// A cell of the grid: where it is, the region it belongs to, what is known of it.
#[derive(Clone, Copy, Debug, Default, PartialEq, Eq, Hash, Structural)]
pub struct GridCell {
    /// Coordinates of the cell in the grid (0-based).
    pub line_column: LineColumn,
    /// Region of the cell.
    pub region: Region,
    /// Value of the cell.
    pub value: CellValue,
}

impl GridCell {
    /// `true` when nothing is known of the cell.
    #[must_use]
    pub fn is_unknown(&self) -> (result: bool)
        ensures
            result == (self.value == CellValue::Unknown),
    {
        self.value == CellValue::Unknown
    }

    /// `true` when the cell cannot hold a star.
    #[must_use]
    pub fn is_no_star(&self) -> (result: bool)
        ensures
            result == (self.value == CellValue::NoStar),
    {
        self.value == CellValue::NoStar
    }

    /// `true` when the cell holds a star.
    #[must_use]
    pub fn is_star(&self) -> (result: bool)
        ensures
            result == (self.value == CellValue::Star),
    {
        self.value == CellValue::Star
    }
}

} // verus!
