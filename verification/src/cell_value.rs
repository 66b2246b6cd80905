//! Possible contents of a cell.

use vstd::prelude::*;

verus! {

/// What is known of a cell.
///
/// A cell starts `Unknown`; a deduction turns it into `Star` or `NoStar`.
#[derive(Clone, Copy, Debug, Default, PartialEq, Eq, Hash, Structural)]
pub enum CellValue {
    /// Nothing is known of the cell yet.
    #[default]
    Unknown,
    /// The cell holds a star.
    Star,
    /// The cell cannot hold a star.
    NoStar,
}

} // verus!
