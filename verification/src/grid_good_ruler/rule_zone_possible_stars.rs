//! Deduction: the cells that hold the same value however the missing stars
//! of a zone are placed, the stars being placed one after the other.

use vstd::prelude::*;

use crate::grid_good_ruler::good_rule::deduction_of;
use crate::grid_good_ruler::rule_generic_possible_stars::{rule_generic_possible_stars, ZoneToExamine};
use crate::GoodRule;
use crate::Grid;
use crate::GridHandler;

verus! {

/// Looks at the ways to place the missing stars of each region.
pub fn rule_region_recursive_possible_stars(handler: &GridHandler, grid: &Grid) -> (result: Option<
    GoodRule,
>)
    requires
        handler.accepts(grid),
    ensures
        deduction_of(result) == handler.generic_possible_stars(
            grid@,
            ZoneToExamine::Region,
            true,
        ),
{
    rule_generic_possible_stars(handler, grid, ZoneToExamine::Region, true)
}

/// Looks at the ways to place the missing stars of each line and each column.
pub fn rule_line_column_recursive_possible_stars(handler: &GridHandler, grid: &Grid) -> (result:
    Option<GoodRule>)
    requires
        handler.accepts(grid),
    ensures
        deduction_of(result) == handler.generic_possible_stars(
            grid@,
            ZoneToExamine::LineAndColumn,
            true,
        ),
{
    rule_generic_possible_stars(handler, grid, ZoneToExamine::LineAndColumn, true)
}

/// Looks at the ways to place the missing stars of each span of 2 lines and
/// of 2 columns.
pub fn rule_multi_2_lines_columns_recursive_possible_stars(
    handler: &GridHandler,
    grid: &Grid,
) -> (result: Option<GoodRule>)
    requires
        handler.accepts(grid),
    ensures
        deduction_of(result) == handler.generic_possible_stars(
            grid@,
            ZoneToExamine::MultipleLinesAndColumns(2),
            true,
        ),
{
    rule_generic_possible_stars(handler, grid, ZoneToExamine::MultipleLinesAndColumns(2), true)
}

/// Looks at the ways to place the missing stars of each span of 3 lines and
/// of 3 columns.
pub fn rule_multi_3_lines_columns_recursive_possible_stars(
    handler: &GridHandler,
    grid: &Grid,
) -> (result: Option<GoodRule>)
    requires
        handler.accepts(grid),
    ensures
        deduction_of(result) == handler.generic_possible_stars(
            grid@,
            ZoneToExamine::MultipleLinesAndColumns(3),
            true,
        ),
{
    rule_generic_possible_stars(handler, grid, ZoneToExamine::MultipleLinesAndColumns(3), true)
}

/// Looks at the ways to place the missing stars of each span of 4 lines and
/// of 4 columns.
pub fn rule_multi_4_lines_columns_recursive_possible_stars(
    handler: &GridHandler,
    grid: &Grid,
) -> (result: Option<GoodRule>)
    requires
        handler.accepts(grid),
    ensures
        deduction_of(result) == handler.generic_possible_stars(
            grid@,
            ZoneToExamine::MultipleLinesAndColumns(4),
            true,
        ),
{
    rule_generic_possible_stars(handler, grid, ZoneToExamine::MultipleLinesAndColumns(4), true)
}

} // verus!
