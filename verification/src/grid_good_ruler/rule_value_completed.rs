//! Deduction: a zone that has all its stars, or just enough room for them.

use vstd::prelude::*;

use crate::grid::GridView;
use crate::grid_good_ruler::good_rule::{
    deduction_of, no_star_actions, set_no_star_actions, set_star_actions, star_actions, Deduction,
};
use crate::sequences::{first_some, lemma_first_some_at, lemma_first_some_none};
use crate::CellValue;
use crate::GoodRule;
use crate::Grid;
use crate::GridHandler;
use crate::GridSurfer;

verus! {

impl GridHandler {
    /// The deduction that the zone `zone` gives in `cells`, for `nb_stars`
    /// stars to place in it, if it has unknown cells: no star in any of them
    /// if the zone has its stars; a star in each of them if they are as many
    /// as the stars missing.
    pub open spec fn completion_of(&self, cells: GridView, zone: GridSurfer, nb_stars: nat) -> Option<
        Deduction,
    > {
        let stars = Self::count_in(cells, self.zone_cells(zone), CellValue::Star);
        let unknown = self.unknown_in(cells, zone);
        if unknown.len() > 0 && stars == nb_stars {
            Some(Deduction::ZoneNoStarCompleted(zone, no_star_actions(unknown)))
        } else if unknown.len() > 0 && stars + unknown.len() == nb_stars {
            Some(Deduction::ZoneStarCompleted(zone, star_actions(unknown)))
        } else {
            None
        }
    }

    /// [`GridHandler::completion_of`] as a function of the zone, for
    /// `self.nb_stars()` stars.
    pub open spec fn completion_test(&self, cells: GridView) -> spec_fn(GridSurfer) -> Option<
        Deduction,
    > {
        |zone: GridSurfer| self.completion_of(cells, zone, self.spec_nb_stars() as nat)
    }

    /// What [`rule_value_completed`] finds in `cells`: the deduction of the
    /// first zone that gives one, among the regions, then the lines, then
    /// the columns.
    pub open spec fn value_completed(&self, cells: GridView) -> Option<Deduction> {
        first_some(self.star_zones(), self.completion_test(cells))
    }

    /// The regions, the lines and the columns, in that order.
    pub fn list_star_zones(&self) -> (result: Vec<GridSurfer>)
        ensures
            result@ == self.star_zones(),
    {
        let mut zones: Vec<GridSurfer> = Vec::new();
        let regions = self.regions();
        let mut i: usize = 0;
        while i < regions.len()
            invariant
                i <= regions.len(),
                regions@ == self.spec_regions(),
                zones@ == self.region_zones().take(i as int),
            decreases regions.len() - i,
        {
            zones.push(GridSurfer::Region(crate::grid_handler::region_at(&regions, i)));
            proof {
                assert(zones@ =~= self.region_zones().take(i as int + 1));
            }
            i += 1;
        }
        proof {
            assert(self.region_zones().take(regions@.len() as int) =~= self.region_zones());
        }
        let nb_lines = self.nb_lines();
        let mut line: usize = 0;
        while line < nb_lines
            invariant
                line <= nb_lines,
                nb_lines == self.spec_nb_lines(),
                zones@ == self.region_zones() + self.line_zones().take(line as int),
            decreases nb_lines - line,
        {
            zones.push(GridSurfer::Line(line));
            proof {
                assert(zones@ =~= self.region_zones() + self.line_zones().take(line as int + 1));
            }
            line += 1;
        }
        proof {
            assert(self.line_zones().take(nb_lines as int) =~= self.line_zones());
        }
        let nb_columns = self.nb_columns();
        let mut column: usize = 0;
        while column < nb_columns
            invariant
                column <= nb_columns,
                nb_columns == self.spec_nb_columns(),
                zones@ == self.region_zones() + self.line_zones() + self.column_zones().take(
                    column as int,
                ),
            decreases nb_columns - column,
        {
            zones.push(GridSurfer::Column(column));
            proof {
                assert(zones@ =~= self.region_zones() + self.line_zones()
                    + self.column_zones().take(column as int + 1));
            }
            column += 1;
        }
        proof {
            assert(self.column_zones().take(nb_columns as int) =~= self.column_zones());
        }
        zones
    }
}

/// Looks among the regions, the lines and the columns for a zone whose
/// unknown cells are settled by its number of stars.
pub fn rule_value_completed(handler: &GridHandler, grid: &Grid) -> (result: Option<GoodRule>)
    requires
        handler.accepts(grid),
    ensures
        deduction_of(result) == handler.value_completed(grid@),
{
    let zones = handler.list_star_zones();
    let ghost test = handler.completion_test(grid@);
    let mut i: usize = 0;
    while i < zones.len()
        invariant
            i <= zones.len(),
            handler.accepts(grid),
            zones@ == handler.star_zones(),
            test == handler.completion_test(grid@),
            forall|k: int| 0 <= k < i ==> test(#[trigger] zones@[k]) is None,
        decreases zones.len() - i,
    {
        if let Some(good_rule) = try_value_completed(handler, grid, &zones[i], handler.nb_stars()) {
            proof {
                lemma_first_some_at(zones@, test, i as int);
            }
            return Some(good_rule);
        }
        i += 1;
    }
    proof {
        lemma_first_some_none(zones@, test);
    }
    None
}

/// Looks in the zone `grid_surfer`, which takes `nb_stars` stars, for unknown
/// cells that its number of stars settles.
pub fn try_value_completed(
    handler: &GridHandler,
    grid: &Grid,
    grid_surfer: &GridSurfer,
    nb_stars: usize,
) -> (result: Option<GoodRule>)
    requires
        handler.accepts(grid),
    ensures
        deduction_of(result) == handler.completion_of(grid@, *grid_surfer, nb_stars as nat),
{
    let surfer = handler.surfer(grid, grid_surfer);
    let (cur_nb_stars, cur_nb_unknown) = handler.count_stars_and_unknown(grid, &surfer);
    let line_column_unknown = handler.keep_unknown(grid, &surfer);
    if cur_nb_unknown > 0 {
        if cur_nb_stars == nb_stars {
            return Some(
                GoodRule::ZoneNoStarCompleted(
                    *grid_surfer,
                    set_no_star_actions(&line_column_unknown),
                ),
            );
        }
        if cur_nb_stars < nb_stars && cur_nb_unknown == nb_stars - cur_nb_stars {
            return Some(
                GoodRule::ZoneStarCompleted(*grid_surfer, set_star_actions(&line_column_unknown)),
            );
        }
    }
    None
}

} // verus!
