//! Deductions and solutions: a deduction never rules out a solution.
//!
//! A solution of a puzzle is a grid in which every cell is known and no rule
//! is broken. A grid leads to a solution when the solution holds what the
//! grid holds in every cell that is known in the grid.

use vstd::prelude::*;

use crate::grid::{value_at, GridView};
use crate::grid_action::{after_actions, lemma_after_action};
use crate::sequences::{
    lemma_filter_len_le,
    lemma_filter_len_lt,
    lemma_filter_nothing,
    lemma_filter_split,
    lemma_first_some_witness,
};
use crate::CellValue;
use crate::GridAction;
use crate::GridHandler;

use crate::LineColumn;

verus! {

/// The test of the cells that hold a star or are unknown in `cells`.
pub open spec fn open_test(cells: GridView) -> spec_fn(LineColumn) -> bool {
    |lc: LineColumn| value_at(cells, lc) != CellValue::NoStar
}

impl GridHandler {
    /// `solution` is a solution of the puzzle: a grid of its size in which
    /// every cell is known and no rule is broken.
    pub open spec fn is_solution(&self, solution: GridView) -> bool {
        self.fits(solution) && self.fully_known(solution) && self.consistent(solution)
    }

    /// `cells` leads to the solution `solution`: `solution` is a solution, and
    /// holds what `cells` holds in every cell that is known in `cells`.
    pub open spec fn leads_to(&self, cells: GridView, solution: GridView) -> bool {
        &&& self.fits(cells)
        &&& self.is_solution(solution)
        &&& forall|lc: LineColumn|
            self.in_grid(lc) && value_at(cells, lc) != CellValue::Unknown ==> #[trigger] value_at(
                solution,
                lc,
            ) == value_at(cells, lc)
    }

    /// Each of `actions` gives its cell the value that the cell holds in
    /// `solution`.
    pub open spec fn agree_with(solution: GridView, actions: Seq<GridAction>) -> bool {
        forall|i: int|
            0 <= i < actions.len() ==> value_at(
                solution,
                (#[trigger] actions[i]).spec_line_column(),
            ) == actions[i].spec_value()
    }

    /// Each of `places` is a cell of the grid.
    pub open spec fn all_in_grid(&self, places: Seq<LineColumn>) -> bool {
        forall|i: int| 0 <= i < places.len() ==> self.in_grid(#[trigger] places[i])
    }

    /// In a list of cells, a grid that leads to a solution has no more stars
    /// than the solution, and the solution has no more stars than the grid
    /// has stars and unknown cells.
    pub proof fn lemma_counts_toward(
        &self,
        cells: GridView,
        solution: GridView,
        places: Seq<LineColumn>,
    )
        requires
            self.leads_to(cells, solution),
            self.all_in_grid(places),
        ensures
            Self::count_in(cells, places, CellValue::Star) <= Self::count_in(
                solution,
                places,
                CellValue::Star,
            ),
            Self::count_in(solution, places, CellValue::Star) <= Self::count_in(
                cells,
                places,
                CellValue::Star,
            ) + Self::count_in(cells, places, CellValue::Unknown),
            Self::count_in(solution, places, CellValue::Unknown) == 0,
    {
        let star = Self::value_test(cells, CellValue::Star);
        let unknown = Self::value_test(cells, CellValue::Unknown);
        let star_solved = Self::value_test(solution, CellValue::Star);
        let unknown_solved = Self::value_test(solution, CellValue::Unknown);
        let open = open_test(cells);
        lemma_filter_len_le(places, star, star_solved);
        lemma_filter_len_le(places, star_solved, open);
        lemma_filter_split(places, star, unknown, open);
        lemma_filter_nothing(places, unknown_solved);
    }

    /// A region, a line or a column of a solution holds exactly
    /// `self.nb_stars()` stars.
    pub proof fn lemma_solution_zone(&self, solution: GridView, i: int)
        requires
            self.is_solution(solution),
            0 <= i < self.star_zones().len(),
        ensures
            Self::count_in(solution, self.zone_cells(self.star_zones()[i]), CellValue::Star)
                == self.spec_nb_stars(),
    {
        let zone = self.star_zones()[i];
        let places = self.zone_cells(zone);
        self.lemma_zone_cells(zone);
        assert(self.zone_error(solution, zone) is None);
        assert forall|k: int| 0 <= k < places.len() implies !Self::value_test(
            solution,
            CellValue::Unknown,
        )(#[trigger] places[k]) by {
            assert(places.contains(places[k]));
        }
        lemma_filter_nothing(places, Self::value_test(solution, CellValue::Unknown));
    }

    /// A grid that leads to a solution breaks no rule.
    pub proof fn lemma_leads_to_consistent(&self, cells: GridView, solution: GridView)
        requires
            self.leads_to(cells, solution),
        ensures
            self.consistent(cells),
            self.check(cells) is Ok,
    {
        assert forall|a: LineColumn, b: LineColumn|
            self.in_grid(a) && self.in_grid(b) && #[trigger] a.touches(b) && value_at(cells, a)
                == CellValue::Star implies value_at(cells, b) != CellValue::Star by {
            assert(value_at(solution, a) == CellValue::Star);
            assert(value_at(solution, b) != CellValue::Star);
        }
        assert forall|i: int| 0 <= i < self.star_zones().len() implies self.zone_error(
            cells,
            #[trigger] self.star_zones()[i],
        ) is None by {
            let places = self.zone_cells(self.star_zones()[i]);
            self.lemma_zone_cells(self.star_zones()[i]);
            assert(self.all_in_grid(places)) by {
                assert forall|k: int| 0 <= k < places.len() implies self.in_grid(
                    #[trigger] places[k],
                ) by {
                    assert(places.contains(places[k]));
                }
            }
            self.lemma_counts_toward(cells, solution, places);
            self.lemma_solution_zone(solution, i);
        }
        self.lemma_check_ok(cells);
    }

    /// Actions that fill unknown cells of a grid with what a solution holds
    /// there leave a grid that leads to that solution, and so breaks no rule.
    pub proof fn lemma_sound_actions(
        &self,
        cells: GridView,
        solution: GridView,
        actions: Seq<GridAction>,
    )
        requires
            self.leads_to(cells, solution),
            self.fills_unknown(cells, actions),
            Self::agree_with(solution, actions),
        ensures
            self.leads_to(after_actions(cells, actions), solution),
            self.check(after_actions(cells, actions)) is Ok,
        decreases actions.len(),
    {
        let nb_lines = self.spec_nb_lines() as int;
        let nb_columns = self.spec_nb_columns() as int;
        if actions.len() > 0 {
            let front = actions.drop_last();
            let last = actions.last();
            assert(actions[actions.len() - 1] == last);
            assert(self.fills_unknown(cells, front) && Self::agree_with(solution, front)) by {
                assert forall|i: int| 0 <= i < front.len() implies {
                    &&& self.in_grid((#[trigger] front[i]).spec_line_column())
                    &&& value_at(cells, front[i].spec_line_column()) == CellValue::Unknown
                    &&& front[i].spec_value() != CellValue::Unknown
                    &&& value_at(solution, front[i].spec_line_column()) == front[i].spec_value()
                } by {
                    assert(front[i] == actions[i]);
                }
            }
            self.lemma_sound_actions(cells, solution, front);
            let mid = after_actions(cells, front);
            lemma_after_action(mid, last, nb_lines, nb_columns);
        }
        self.lemma_leads_to_consistent(after_actions(cells, actions), solution);
    }

    /// The deduction about the cells around a star agrees with every
    /// solution that the grid leads to.
    pub proof fn lemma_no_star_adjacent_to_star_sound(&self, cells: GridView, solution: GridView)
        requires
            self.leads_to(cells, solution),
            self.no_star_adjacent_to_star(cells) is Some,
        ensures
            Self::agree_with(solution, self.no_star_adjacent_to_star(cells)->0.actions()),
    {
        let i = lemma_first_some_witness(self.all_cells(), self.clearing_test(cells));
        let lc = self.all_cells()[i];
        self.lemma_all_cells();
        assert(self.all_cells().contains(lc));
        self.lemma_neighbours(lc);
        let around = self.neighbours(lc);
        let unknown = Self::value_test(cells, CellValue::Unknown);
        let cleared = around.filter(unknown);
        let actions = self.no_star_adjacent_to_star(cells)->0.actions();
        assert forall|k: int| 0 <= k < actions.len() implies value_at(
            solution,
            (#[trigger] actions[k]).spec_line_column(),
        ) == actions[k].spec_value() by {
            assert(actions[k] == GridAction::SetNoStar(cleared[k]));
            assert(cleared.contains(cleared[k]));
            around.lemma_filter_contains_rev(unknown, cleared[k]);
            assert(self.in_grid(cleared[k]) && lc.touches(cleared[k]));
            assert(value_at(solution, lc) == CellValue::Star);
            assert(value_at(solution, cleared[k]) != CellValue::Unknown);
        }
    }

    /// The deduction about a zone that has its stars, or just enough room for
    /// them, agrees with every solution that the grid leads to.
    pub proof fn lemma_value_completed_sound(&self, cells: GridView, solution: GridView)
        requires
            self.leads_to(cells, solution),
            self.value_completed(cells) is Some,
        ensures
            Self::agree_with(solution, self.value_completed(cells)->0.actions()),
    {
        let i = lemma_first_some_witness(self.star_zones(), self.completion_test(cells));
        let zone = self.star_zones()[i];
        let places = self.zone_cells(zone);
        self.lemma_zone_cells(zone);
        assert(self.all_in_grid(places)) by {
            assert forall|k: int| 0 <= k < places.len() implies self.in_grid(#[trigger] places[k]) by {
                assert(places.contains(places[k]));
            }
        }
        self.lemma_solution_zone(solution, i);
        let star = Self::value_test(cells, CellValue::Star);
        let unknown = Self::value_test(cells, CellValue::Unknown);
        let star_solved = Self::value_test(solution, CellValue::Star);
        let open = open_test(cells);
        let settled = places.filter(unknown);
        let actions = self.value_completed(cells)->0.actions();
        let stars = Self::count_in(cells, places, CellValue::Star);
        lemma_filter_split(places, star, unknown, open);
        assert forall|k: int| 0 <= k < actions.len() implies value_at(
            solution,
            (#[trigger] actions[k]).spec_line_column(),
        ) == actions[k].spec_value() by {
            let lc = settled[k];
            assert(actions[k].spec_line_column() == lc);
            assert(settled.contains(lc));
            places.lemma_filter_contains_rev(unknown, lc);
            places.lemma_filter_pred(unknown, k);
            let at = choose|at: int| 0 <= at < places.len() && places[at] == lc;
            assert(self.in_grid(places[at]));
            assert(value_at(solution, lc) != CellValue::Unknown);
            if stars == self.spec_nb_stars() {
                assert(actions[k] == GridAction::SetNoStar(lc));
                if value_at(solution, lc) == CellValue::Star {
                    lemma_filter_len_lt(places, star, star_solved, at);
                }
            } else {
                assert(actions[k] == GridAction::SetStar(lc));
                if value_at(solution, lc) != CellValue::Star {
                    lemma_filter_len_lt(places, star_solved, open, at);
                }
            }
        }
    }
}

} // verus!
