//! What every deduction does to a grid: it gives a star or no star to cells
//! that were unknown, and to at least one of them.

use vstd::prelude::*;

use crate::grid::{same_layout, value_at, GridView};
use crate::grid_action::{actions_inside, after_actions, lemma_after_action};
use crate::grid_good_ruler::collector::extends;
use crate::grid_good_ruler::good_rule::{found_by, Deduction};
use crate::grid_good_ruler::rule_generic_possible_stars::ZoneToExamine;
use crate::grid_good_ruler::star_adjacent::absent_from;
use crate::grid_good_ruler::variant::invariant_test;
use crate::sequences::{lemma_filter_len_lt, lemma_first_some_witness};
use crate::CellValue;
use crate::GridAction;
use crate::GridHandler;
use crate::GridSurfer;
use crate::LineColumn;

verus! {

impl GridHandler {
    /// Each of `actions` gives a star or no star to a cell of the grid that
    /// is unknown in `cells`.
    pub open spec fn fills_unknown(&self, cells: GridView, actions: Seq<GridAction>) -> bool {
        forall|i: int|
            0 <= i < actions.len() ==> {
                &&& self.in_grid((#[trigger] actions[i]).spec_line_column())
                &&& value_at(cells, actions[i].spec_line_column()) == CellValue::Unknown
                &&& actions[i].spec_value() != CellValue::Unknown
            }
    }

    /// Each of `places` is a cell of the grid that is unknown in `cells`.
    pub open spec fn all_unknown(&self, cells: GridView, places: Seq<LineColumn>) -> bool {
        forall|i: int|
            0 <= i < places.len() ==> self.in_grid(#[trigger] places[i]) && value_at(
                cells,
                places[i],
            ) == CellValue::Unknown
    }

    /// Number of cells of the grid that are unknown in `cells`.
    pub open spec fn unknown_count(&self, cells: GridView) -> nat {
        Self::count_in(cells, self.all_cells(), CellValue::Unknown)
    }

    /// The cells of a list that are unknown in `cells` are unknown cells of
    /// the grid, if the cells of the list are cells of the grid.
    pub proof fn lemma_unknown_of(&self, cells: GridView, places: Seq<LineColumn>)
        requires
            forall|i: int| 0 <= i < places.len() ==> self.in_grid(#[trigger] places[i]),
        ensures
            self.all_unknown(cells, places.filter(Self::value_test(cells, CellValue::Unknown))),
    {
        let test = Self::value_test(cells, CellValue::Unknown);
        let kept = places.filter(test);
        assert forall|i: int| 0 <= i < kept.len() implies self.in_grid(#[trigger] kept[i])
            && value_at(cells, kept[i]) == CellValue::Unknown by {
            places.lemma_filter_pred(test, i);
            assert(kept.contains(kept[i]));
            places.lemma_filter_contains_rev(test, kept[i]);
            let k = choose|k: int| 0 <= k < places.len() && places[k] == kept[i];
            assert(self.in_grid(places[k]));
        }
    }

    /// The unknown cells of a zone are unknown cells of the grid.
    pub proof fn lemma_unknown_in(&self, cells: GridView, zone: GridSurfer)
        ensures
            self.all_unknown(cells, self.unknown_in(cells, zone)),
    {
        self.lemma_zone_cells(zone);
        let places = self.zone_cells(zone);
        assert forall|i: int| 0 <= i < places.len() implies self.in_grid(#[trigger] places[i]) by {
            assert(places.contains(places[i]));
        }
        self.lemma_unknown_of(cells, places);
    }

    /// The deduction about the cells around a star fills unknown cells, and
    /// at least one.
    pub proof fn lemma_no_star_adjacent_to_star_progress(&self, cells: GridView)
        requires
            self.no_star_adjacent_to_star(cells) is Some,
        ensures
            self.fills_unknown(cells, self.no_star_adjacent_to_star(cells)->0.actions()),
            self.no_star_adjacent_to_star(cells)->0.actions().len() > 0,
    {
        let i = lemma_first_some_witness(self.all_cells(), self.clearing_test(cells));
        let lc = self.all_cells()[i];
        self.lemma_neighbours(lc);
        let around = self.neighbours(lc);
        assert forall|k: int| 0 <= k < around.len() implies self.in_grid(#[trigger] around[k]) by {
            assert(around.contains(around[k]));
        }
        self.lemma_unknown_of(cells, around);
    }

    /// The deduction about a zone that has its stars, or just enough room for
    /// them, fills unknown cells, and at least one.
    pub proof fn lemma_value_completed_progress(&self, cells: GridView)
        requires
            self.value_completed(cells) is Some,
        ensures
            self.fills_unknown(cells, self.value_completed(cells)->0.actions()),
            self.value_completed(cells)->0.actions().len() > 0,
    {
        let i = lemma_first_some_witness(self.star_zones(), self.completion_test(cells));
        self.lemma_unknown_in(cells, self.star_zones()[i]);
    }

    /// The deduction about `n` lines or columns of `n` regions at most fills
    /// unknown cells, and at least one.
    pub proof fn lemma_region_exclusions_progress(&self, cells: GridView, n: int)
        requires
            self.region_exclusions(cells, n) is Some,
        ensures
            self.fills_unknown(cells, self.region_exclusions(cells, n)->0.actions()),
            self.region_exclusions(cells, n)->0.actions().len() > 0,
    {
        let i = lemma_first_some_witness(self.spans(n), self.exclusion_test(cells, n));
        let span = self.spans(n)[i];
        let zone = self.zone_cells(span);
        let regions = self.open_regions(cells, span);
        let test = self.excluded_test(cells, zone, regions);
        let all = self.all_cells();
        let candidates = all.filter(test);
        self.lemma_all_cells();
        assert forall|k: int| 0 <= k < candidates.len() implies self.in_grid(
            #[trigger] candidates[k],
        ) && value_at(cells, candidates[k]) == CellValue::Unknown by {
            all.lemma_filter_pred(test, k);
            assert(candidates.contains(candidates[k]));
            all.lemma_filter_contains_rev(test, candidates[k]);
        }
    }

    /// The deduction about regions that lie within as many lines or columns
    /// fills unknown cells, and at least one, whatever the lists of regions
    /// that are tried.
    pub proof fn lemma_region_combinations_progress(
        &self,
        cells: GridView,
        n: int,
        combinations: Seq<Seq<crate::Region>>,
    )
        requires
            self.region_combinations_among(cells, n, combinations) is Some,
        ensures
            self.fills_unknown(
                cells,
                self.region_combinations_among(cells, n, combinations)->0.actions(),
            ),
            self.region_combinations_among(cells, n, combinations)->0.actions().len() > 0,
    {
        let i = lemma_first_some_witness(combinations, self.combination_test(cells, n));
        let regions = combinations[i];
        let deduction = self.combination_in(cells, n, regions)->0;
        let span = match deduction {
            Deduction::ZoneCombinations(_, span, _) => span,
            _ => GridSurfer::AllCells,
        };
        assert(self.strangers_in(cells, regions, span) == Some(deduction));
        let places = self.zone_cells(span);
        let test = self.stranger_test(cells, regions);
        let candidates = places.filter(test);
        self.lemma_zone_cells(span);
        assert forall|k: int| 0 <= k < candidates.len() implies self.in_grid(
            #[trigger] candidates[k],
        ) && value_at(cells, candidates[k]) == CellValue::Unknown by {
            places.lemma_filter_pred(test, k);
            assert(candidates.contains(candidates[k]));
            places.lemma_filter_contains_rev(test, candidates[k]);
        }
    }

    /// The actions that a list of grids forces fill unknown cells.
    pub proof fn lemma_forced_actions(&self, cells: GridView, grids: Seq<GridView>)
        ensures
            self.fills_unknown(cells, self.forced_actions(cells, grids)),
    {
        let unknown = self.unknown_in(cells, GridSurfer::AllCells);
        self.lemma_unknown_in(cells, GridSurfer::AllCells);
        let invariants = self.invariant_actions(cells, grids);
        let hemmed = unknown.filter(self.hemmed_in_test(grids));
        let adjacents = self.star_adjacent_actions(cells, grids);
        let kept = adjacents.filter(absent_from(invariants));
        let forced = self.forced_actions(cells, grids);
        assert forall|i: int| 0 <= i < forced.len() implies {
            &&& self.in_grid((#[trigger] forced[i]).spec_line_column())
            &&& value_at(cells, forced[i].spec_line_column()) == CellValue::Unknown
            &&& forced[i].spec_value() != CellValue::Unknown
        } by {
            if i < invariants.len() {
                assert(forced[i] == invariants[i]);
                assert(invariants.contains(invariants[i]));
                unknown.lemma_filter_map_contains(invariant_test(grids), invariants[i]);
                let lc = choose|lc: LineColumn|
                    #[trigger] unknown.contains(lc) && invariant_test(grids)(lc) == Some(
                        invariants[i],
                    );
                let k = choose|k: int| 0 <= k < unknown.len() && unknown[k] == lc;
                assert(self.in_grid(unknown[k]));
            } else {
                let action = kept[i - invariants.len()];
                assert(forced[i] == action);
                assert(kept.contains(action));
                adjacents.lemma_filter_contains_rev(absent_from(invariants), action);
                let j = choose|j: int| 0 <= j < adjacents.len() && adjacents[j] == action;
                assert(action == GridAction::SetNoStar(hemmed[j]));
                assert(hemmed.contains(hemmed[j]));
                unknown.lemma_filter_contains_rev(self.hemmed_in_test(grids), hemmed[j]);
                let k = choose|k: int| 0 <= k < unknown.len() && unknown[k] == hemmed[j];
                assert(self.in_grid(unknown[k]));
            }
        }
    }

    /// The deduction about the cells that every completion of a zone agrees
    /// on fills unknown cells, and at least one.
    pub proof fn lemma_generic_possible_stars_progress(
        &self,
        cells: GridView,
        kind: ZoneToExamine,
        recursive: bool,
    )
        requires
            self.generic_possible_stars(cells, kind, recursive) is Some,
        ensures
            self.fills_unknown(
                cells,
                self.generic_possible_stars(cells, kind, recursive)->0.actions(),
            ),
            self.generic_possible_stars(cells, kind, recursive)->0.actions().len() > 0,
    {
        let i = choose|i: int| self.is_best_zone(cells, kind, recursive, i);
        let zone = self.examined_zones(kind)[i];
        self.lemma_forced_actions(
            cells,
            self.completions(cells, zone, self.examined_stars(kind), recursive),
        );
    }

    /// Every deduction fills unknown cells, and at least one.
    pub proof fn lemma_first_rule_progress(&self, cells: GridView)
        requires
            self.first_rule(cells) is Some,
        ensures
            self.fills_unknown(cells, self.first_rule(cells)->0.actions()),
            self.first_rule(cells)->0.actions().len() > 0,
    {
        let rules = self.rules(cells);
        let i = lemma_first_some_witness(rules, found_by());
        assert(rules[i] == self.first_rule(cells));
        if i == 0 {
            self.lemma_no_star_adjacent_to_star_progress(cells);
        } else if i == 1 {
            self.lemma_value_completed_progress(cells);
        } else if i == 2 {
            self.lemma_region_exclusions_progress(cells, 1);
        } else if i == 3 {
            self.lemma_region_combinations_progress(
                cells,
                1,
                crate::grid_good_ruler::rule_region_combinations::combinations_of(
                    self.spec_regions(),
                    1,
                ),
            );
        } else if i == 4 {
            self.lemma_generic_possible_stars_progress(cells, ZoneToExamine::Region, false);
        } else if i == 5 {
            self.lemma_region_exclusions_progress(cells, 2);
        } else if i == 6 {
            self.lemma_region_combinations_progress(
                cells,
                2,
                crate::grid_good_ruler::rule_region_combinations::combinations_of(
                    self.spec_regions(),
                    2,
                ),
            );
        } else if i == 7 {
            self.lemma_generic_possible_stars_progress(cells, ZoneToExamine::Region, true);
        } else if i == 8 {
            self.lemma_region_exclusions_progress(cells, 3);
        } else if i == 9 {
            self.lemma_region_combinations_progress(
                cells,
                3,
                crate::grid_good_ruler::rule_region_combinations::combinations_of(
                    self.spec_regions(),
                    3,
                ),
            );
        } else if i == 10 {
            self.lemma_generic_possible_stars_progress(cells, ZoneToExamine::LineAndColumn, true);
        } else if i == 11 {
            self.lemma_region_exclusions_progress(cells, 4);
        } else if i == 12 {
            self.lemma_region_combinations_progress(
                cells,
                4,
                crate::grid_good_ruler::rule_region_combinations::combinations_of(
                    self.spec_regions(),
                    4,
                ),
            );
        } else if i == 13 {
            self.lemma_generic_possible_stars_progress(
                cells,
                ZoneToExamine::MultipleLinesAndColumns(2),
                true,
            );
        } else if i == 14 {
            self.lemma_generic_possible_stars_progress(
                cells,
                ZoneToExamine::MultipleLinesAndColumns(3),
                true,
            );
        } else {
            self.lemma_generic_possible_stars_progress(
                cells,
                ZoneToExamine::MultipleLinesAndColumns(4),
                true,
            );
        }
    }

    /// Actions that fill unknown cells leave a grid of the same size in which
    /// the cells that were known hold what they held, and the cells acted on
    /// are known.
    pub proof fn lemma_fill(&self, cells: GridView, actions: Seq<GridAction>)
        requires
            self.fits(cells),
            self.fills_unknown(cells, actions),
        ensures
            self.fits(after_actions(cells, actions)),
            same_layout(cells, after_actions(cells, actions)),
            extends(cells, after_actions(cells, actions)),
            forall|lc: LineColumn|
                self.in_grid(lc) && #[trigger] value_at(after_actions(cells, actions), lc)
                    == CellValue::Unknown ==> value_at(cells, lc) == CellValue::Unknown,
            forall|i: int|
                0 <= i < actions.len() ==> value_at(
                    after_actions(cells, actions),
                    (#[trigger] actions[i]).spec_line_column(),
                ) != CellValue::Unknown,
        decreases actions.len(),
    {
        let nb_lines = self.spec_nb_lines() as int;
        let nb_columns = self.spec_nb_columns() as int;
        if actions.len() > 0 {
            let front = actions.drop_last();
            let last = actions.last();
            assert(self.fills_unknown(cells, front)) by {
                assert forall|i: int| 0 <= i < front.len() implies {
                    &&& self.in_grid((#[trigger] front[i]).spec_line_column())
                    &&& value_at(cells, front[i].spec_line_column()) == CellValue::Unknown
                    &&& front[i].spec_value() != CellValue::Unknown
                } by {
                    assert(front[i] == actions[i]);
                }
            }
            self.lemma_fill(cells, front);
            let mid = after_actions(cells, front);
            let all = after_actions(cells, actions);
            assert(actions[actions.len() - 1] == last);
            lemma_after_action(mid, last, nb_lines, nb_columns);
            assert forall|lc: LineColumn|
                lc.line < cells.len() && lc.column < cells[lc.line as int].len() && value_at(
                    cells,
                    lc,
                ) != CellValue::Unknown implies #[trigger] value_at(all, lc) == value_at(
                cells,
                lc,
            ) by {
                assert(lc != last.spec_line_column());
                assert(value_at(mid, lc) == value_at(cells, lc));
            }
            assert forall|lc: LineColumn|
                self.in_grid(lc) && #[trigger] value_at(all, lc)
                    == CellValue::Unknown implies value_at(cells, lc) == CellValue::Unknown by {
                assert(lc != last.spec_line_column());
                assert(value_at(mid, lc) == value_at(all, lc));
            }
            assert forall|i: int| 0 <= i < actions.len() implies value_at(
                all,
                (#[trigger] actions[i]).spec_line_column(),
            ) != CellValue::Unknown by {
                if actions[i].spec_line_column() != last.spec_line_column() {
                    assert(front[i] == actions[i]);
                    assert(value_at(mid, front[i].spec_line_column()) != CellValue::Unknown);
                }
            }
            assert(same_layout(cells, all)) by {
                assert forall|l: int, c: int|
                    0 <= l < cells.len() && 0 <= c < cells[l].len() implies {
                    &&& (#[trigger] all[l][c]).line_column == cells[l][c].line_column
                    &&& all[l][c].region == cells[l][c].region
                } by {
                    assert(mid[l][c].line_column == cells[l][c].line_column);
                    assert(all[l][c].line_column == mid[l][c].line_column);
                }
            }
        }
    }

    /// Actions that fill unknown cells, and at least one, leave fewer
    /// unknown cells.
    pub proof fn lemma_fill_progress(&self, cells: GridView, actions: Seq<GridAction>)
        requires
            self.fits(cells),
            self.fills_unknown(cells, actions),
            actions.len() > 0,
        ensures
            self.unknown_count(after_actions(cells, actions)) < self.unknown_count(cells),
    {
        self.lemma_fill(cells, actions);
        self.lemma_all_cells();
        let after = after_actions(cells, actions);
        let all = self.all_cells();
        let target = actions[0].spec_line_column();
        assert(all.contains(target));
        let k = choose|k: int| 0 <= k < all.len() && all[k] == target;
        assert forall|i: int|
            0 <= i < all.len() && Self::value_test(after, CellValue::Unknown)(
                #[trigger] all[i],
            ) implies Self::value_test(cells, CellValue::Unknown)(all[i]) by {
            assert(all.contains(all[i]));
        }
        lemma_filter_len_lt(
            all,
            Self::value_test(after, CellValue::Unknown),
            Self::value_test(cells, CellValue::Unknown),
            k,
        );
    }

    /// Each of `actions` is on a cell of the grid.
    pub proof fn lemma_fills_inside(&self, cells: GridView, actions: Seq<GridAction>)
        requires
            self.fills_unknown(cells, actions),
        ensures
            actions_inside(actions, self.spec_nb_lines() as int, self.spec_nb_columns() as int),
    {
    }
}

} // verus!
