//! Deduction: the cells that hold the same value however the missing stars
//! of a region are placed, the cells of the region being tried all at once.

use vstd::prelude::*;

use crate::grid_good_ruler::good_rule::deduction_of;
use crate::grid_good_ruler::rule_generic_possible_stars::{rule_generic_possible_stars, ZoneToExamine};
use crate::GoodRule;
use crate::Grid;
use crate::GridHandler;

verus! {

/// Looks at every way to place the missing stars of each region, and for the
/// cells that these ways all agree on.
pub fn rule_region_possible_stars(handler: &GridHandler, grid: &Grid) -> (result: Option<GoodRule>)
    requires
        handler.accepts(grid),
    ensures
        deduction_of(result) == handler.generic_possible_stars(
            grid@,
            ZoneToExamine::Region,
            false,
        ),
{
    rule_generic_possible_stars(handler, grid, ZoneToExamine::Region, false)
}

} // verus!
