//! Deduction: the cells around a star cannot hold a star.

use vstd::prelude::*;

use crate::grid::{value_at, GridView};
use crate::grid_good_ruler::good_rule::{deduction_of, no_star_actions, set_no_star_actions, Deduction};
use crate::sequences::{first_some, lemma_first_some_at, lemma_first_some_none};
use crate::CellValue;
use crate::GoodRule;
use crate::Grid;
use crate::GridHandler;
use crate::GridSurfer;
use crate::LineColumn;

verus! {

impl GridHandler {
    /// The neighbours of `lc` that are unknown in `cells`, in the order of
    /// [`GridHandler::neighbours`].
    pub open spec fn unknown_neighbours(&self, cells: GridView, lc: LineColumn) -> Seq<LineColumn> {
        self.neighbours(lc).filter(Self::value_test(cells, CellValue::Unknown))
    }

    /// The deduction that the star at `lc`, if there is one, gives on its
    /// unknown neighbours, if it has any.
    pub open spec fn clearing_at(&self, cells: GridView, lc: LineColumn) -> Option<Deduction> {
        if value_at(cells, lc) == CellValue::Star && self.unknown_neighbours(cells, lc).len() > 0 {
            Some(
                Deduction::NoStarAdjacentToStar(
                    lc,
                    no_star_actions(self.unknown_neighbours(cells, lc)),
                ),
            )
        } else {
            None
        }
    }

    /// [`GridHandler::clearing_at`] as a function of the cell.
    pub open spec fn clearing_test(&self, cells: GridView) -> spec_fn(LineColumn) -> Option<
        Deduction,
    > {
        |lc: LineColumn| self.clearing_at(cells, lc)
    }

    /// What [`rule_no_star_adjacent_to_star`] finds in `cells`: the deduction
    /// of the first star, in row-major order, that has unknown neighbours.
    pub open spec fn no_star_adjacent_to_star(&self, cells: GridView) -> Option<Deduction> {
        first_some(self.all_cells(), self.clearing_test(cells))
    }
}

/// Looks for a star with unknown cells around it: these cannot hold a star.
pub fn rule_no_star_adjacent_to_star(handler: &GridHandler, grid: &Grid) -> (result: Option<
    GoodRule,
>)
    requires
        handler.accepts(grid),
    ensures
        deduction_of(result) == handler.no_star_adjacent_to_star(grid@),
{
    let cells = handler.surfer(grid, &GridSurfer::AllCells);
    let ghost test = handler.clearing_test(grid@);
    proof {
        handler.lemma_zone_all_cells();
    }
    let mut i: usize = 0;
    while i < cells.len()
        invariant
            i <= cells.len(),
            handler.accepts(grid),
            cells@ == handler.all_cells(),
            forall|k: int| 0 <= k < cells@.len() ==> handler.in_grid(#[trigger] cells@[k]),
            test == handler.clearing_test(grid@),
            forall|k: int| 0 <= k < i ==> test(#[trigger] cells@[k]) is None,
        decreases cells.len() - i,
    {
        let line_column = cells[i];
        if grid.cell(line_column).is_star() {
            let around = handler.adjacent_cells(line_column);
            proof {
                handler.lemma_neighbours(line_column);
                assert forall|k: int| 0 <= k < around@.len() implies handler.in_grid(
                    #[trigger] around@[k],
                ) by {
                    assert(around@.contains(around@[k]));
                }
            }
            let unknown_adjacent_cells = handler.keep_unknown(grid, &around);
            if unknown_adjacent_cells.len() > 0 {
                proof {
                    lemma_first_some_at(cells@, test, i as int);
                }
                return Some(
                    GoodRule::NoStarAdjacentToStar(
                        line_column,
                        set_no_star_actions(&unknown_adjacent_cells),
                    ),
                );
            }
        }
        i += 1;
    }
    proof {
        lemma_first_some_none(cells@, test);
    }
    None
}

} // verus!
