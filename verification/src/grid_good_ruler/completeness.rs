//! The searches for the completions of a zone miss no solution: if the grid
//! leads to a solution, one of the grids found leads to it too.

use vstd::arithmetic::power2::{lemma_pow2_pos, lemma_pow2_unfold, pow2};
use vstd::prelude::*;

use crate::grid::{value_at, with_value, GridView};
use crate::grid_good_ruler::collector::{
    bit_count, bit_value, lemma_low_bit_count, lemma_masked, lemma_no_star_filled,
    lemma_with_value, low_bit_count, masked, no_star_filled, zone_inside,
};
use crate::grid_good_ruler::rule_generic_possible_stars::ZoneToExamine;
use crate::grid_good_ruler::star_adjacent::absent_from;
use crate::grid_good_ruler::variant::{invariant_test, lemma_signal};
use crate::sequences::{
    lemma_filter_agree, lemma_filter_first_item, lemma_filter_kept_nothing, lemma_filter_len_lt,
    lemma_filter_map_has, lemma_filter_map_nothing, lemma_filter_nothing, lemma_filter_split,
    lemma_filter_twice,
};
use crate::CellValue;
use crate::GridAction;
use crate::GridHandler;
use crate::GridSurfer;
use crate::LineColumn;

verus! {

/// The mask that gives each of `unknowns` the value that it holds in
/// `solution`: the bit of a cell is set if the cell holds a star.
pub open spec fn mask_of(solution: GridView, unknowns: Seq<LineColumn>) -> nat
    decreases unknowns.len(),
{
    if unknowns.len() == 0 {
        0
    } else {
        (if value_at(solution, unknowns[0]) == CellValue::Star {
            1nat
        } else {
            0nat
        }) + 2 * mask_of(solution, unknowns.drop_first())
    }
}

/// The mask of a solution has a bit for each cell and no other, as many bits
/// set as cells hold a star, and gives each cell the value that the solution
/// holds.
pub proof fn lemma_mask_of(
    cells: GridView,
    solution: GridView,
    unknowns: Seq<LineColumn>,
    nb_lines: int,
    nb_columns: int,
)
    requires
        crate::grid::has_shape(cells, nb_lines, nb_columns),
        zone_inside(unknowns, nb_lines, nb_columns),
    ensures
        mask_of(solution, unknowns) < pow2(unknowns.len()),
        low_bit_count(mask_of(solution, unknowns), unknowns.len()) == unknowns.filter(
            GridHandler::value_test(solution, CellValue::Star),
        ).len(),
        forall|lc: LineColumn|
            lc.line < nb_lines && lc.column < nb_columns ==> #[trigger] value_at(
                masked(cells, unknowns, mask_of(solution, unknowns)),
                lc,
            ) == if unknowns.contains(lc) {
                if value_at(solution, lc) == CellValue::Star {
                    CellValue::Star
                } else {
                    CellValue::NoStar
                }
            } else {
                value_at(cells, lc)
            },
    decreases unknowns.len(),
{
    let mask = mask_of(solution, unknowns);
    if unknowns.len() == 0 {
        lemma_pow2_pos(0);
        lemma_filter_nothing(unknowns, GridHandler::value_test(solution, CellValue::Star));
    } else {
        let first = unknowns[0];
        let rest = unknowns.drop_first();
        let bit = if value_at(solution, first) == CellValue::Star {
            1nat
        } else {
            0nat
        };
        let high = mask_of(solution, rest);
        assert(mask == bit + 2 * high);
        assert(mask % 2 == bit && mask / 2 == high) by (nonlinear_arith)
            requires
                mask == bit + 2 * high,
                bit <= 1,
        ;
        let one = with_value(cells, first, bit_value(mask));
        lemma_with_value(cells, first, bit_value(mask), nb_lines, nb_columns);
        assert(zone_inside(rest, nb_lines, nb_columns)) by {
            assert forall|i: int| 0 <= i < rest.len() implies (#[trigger] rest[i]).line < nb_lines
                && rest[i].column < nb_columns by {
                assert(rest[i] == unknowns[i + 1]);
            }
        }
        lemma_mask_of(one, solution, rest, nb_lines, nb_columns);
        lemma_pow2_unfold(unknowns.len());
        lemma_filter_first_item(unknowns, GridHandler::value_test(solution, CellValue::Star));
        let all = masked(cells, unknowns, mask);
        assert(all == masked(one, rest, high));
        assert forall|lc: LineColumn| lc.line < nb_lines && lc.column < nb_columns implies #[trigger] value_at(
            all,
            lc,
        ) == if unknowns.contains(lc) {
            if value_at(solution, lc) == CellValue::Star {
                CellValue::Star
            } else {
                CellValue::NoStar
            }
        } else {
            value_at(cells, lc)
        } by {
            if rest.contains(lc) {
                let i = choose|i: int| 0 <= i < rest.len() && rest[i] == lc;
                assert(unknowns[i + 1] == lc);
            }
            if lc == first {
                assert(unknowns[0] == lc);
            }
            if unknowns.contains(lc) && lc != first {
                let i = choose|i: int| 0 <= i < unknowns.len() && unknowns[i] == lc;
                assert(rest[i - 1] == lc);
            }
            assert(value_at(all, lc) == if rest.contains(lc) {
                if value_at(solution, lc) == CellValue::Star {
                    CellValue::Star
                } else {
                    CellValue::NoStar
                }
            } else {
                value_at(one, lc)
            });
        }
    }
}

/// The test of the cells that are unknown in `cells` and hold a star in
/// `solution`.
pub open spec fn found_star_test(cells: GridView, solution: GridView) -> spec_fn(LineColumn) -> bool {
    |lc: LineColumn|
        value_at(cells, lc) == CellValue::Unknown && value_at(solution, lc) == CellValue::Star
}

impl GridHandler {
    /// In a list of cells, the stars of a solution are those of a grid that
    /// leads to it and those that the solution holds in cells unknown in the
    /// grid.
    pub proof fn lemma_stars_to_find(
        &self,
        cells: GridView,
        solution: GridView,
        places: Seq<LineColumn>,
    )
        requires
            self.leads_to(cells, solution),
            self.all_in_grid(places),
        ensures
            Self::count_in(solution, places, CellValue::Star) == Self::count_in(
                cells,
                places,
                CellValue::Star,
            ) + places.filter(Self::value_test(cells, CellValue::Unknown)).filter(
                Self::value_test(solution, CellValue::Star),
            ).len(),
    {
        let star = Self::value_test(cells, CellValue::Star);
        let unknown = Self::value_test(cells, CellValue::Unknown);
        let star_solved = Self::value_test(solution, CellValue::Star);
        let found = found_star_test(cells, solution);
        lemma_filter_twice(places, unknown, star_solved, found);
        lemma_filter_split(places, star, found, star_solved);
    }

    /// The search by masks misses no solution: if the grid leads to a
    /// solution that holds `nb_stars` stars in the zone, and the zone lacks
    /// some of them, one of the grids found leads to the solution.
    pub proof fn lemma_bitmask_complete(
        &self,
        cells: GridView,
        zone: Seq<LineColumn>,
        nb_stars: nat,
        solution: GridView,
    ) -> (k: int)
        requires
            self.leads_to(cells, solution),
            self.all_in_grid(zone),
            Self::count_in(solution, zone, CellValue::Star) == nb_stars,
            Self::count_in(cells, zone, CellValue::Star) < nb_stars,
        ensures
            0 <= k < self.bitmask_completions(cells, zone, nb_stars).len(),
            self.leads_to(self.bitmask_completions(cells, zone, nb_stars)[k], solution),
    {
        let nb_lines = self.spec_nb_lines() as int;
        let nb_columns = self.spec_nb_columns() as int;
        let stars = Self::count_in(cells, zone, CellValue::Star);
        let unknown = Self::value_test(cells, CellValue::Unknown);
        let unknowns = zone.filter(unknown);
        let missing = (nb_stars - stars) as nat;
        let masks = Seq::new((pow2(unknowns.len()) - 1) as nat, |i: int| (i + 1) as nat);
        let test = self.mask_test(cells, unknowns, missing);
        let found = self.bitmask_completions(cells, zone, nb_stars);
        let mask = mask_of(solution, unknowns);
        let grid = masked(cells, unknowns, mask);
        assert(zone_inside(zone, nb_lines, nb_columns));
        assert(zone_inside(unknowns, nb_lines, nb_columns)) by {
            assert forall|i: int| 0 <= i < unknowns.len() implies (#[trigger] unknowns[i]).line
                < nb_lines && unknowns[i].column < nb_columns by {
                assert(unknowns.contains(unknowns[i]));
                zone.lemma_filter_contains_rev(unknown, unknowns[i]);
                let j = choose|j: int| 0 <= j < zone.len() && zone[j] == unknowns[i];
                assert(self.in_grid(zone[j]));
            }
        }
        lemma_mask_of(cells, solution, unknowns, nb_lines, nb_columns);
        lemma_masked(cells, unknowns, mask, nb_lines, nb_columns);
        lemma_low_bit_count(mask, unknowns.len());
        self.lemma_stars_to_find(cells, solution, zone);
        assert(bit_count(mask) == missing);
        assert(mask != 0);
        assert(self.leads_to(grid, solution)) by {
            assert forall|lc: LineColumn|
                self.in_grid(lc) && value_at(grid, lc)
                    != CellValue::Unknown implies #[trigger] value_at(solution, lc) == value_at(
                grid,
                lc,
            ) by {
                assert(value_at(solution, lc) != CellValue::Unknown);
                assert(value_at(grid, lc) == if unknowns.contains(lc) {
                    if value_at(solution, lc) == CellValue::Star {
                        CellValue::Star
                    } else {
                        CellValue::NoStar
                    }
                } else {
                    value_at(cells, lc)
                });
            }
        }
        self.lemma_leads_to_consistent(grid, solution);
        assert(masks[mask - 1] == mask);
        assert(test(masks[mask - 1]) == Some(grid));
        lemma_filter_map_has(masks, test, mask - 1);
        assert(found == masks.filter_map(test));
        choose|k: int| 0 <= k < found.len() && found[k] == grid
    }

    /// The search by successive choices misses no solution: if the grid leads
    /// to a solution that holds `nb_stars` stars in the zone, one of the
    /// grids found leads to the solution.
    pub proof fn lemma_recursive_complete(
        &self,
        cells: GridView,
        zone: Seq<LineColumn>,
        nb_stars: nat,
        solution: GridView,
    ) -> (k: int)
        requires
            self.leads_to(cells, solution),
            self.all_in_grid(zone),
            Self::count_in(solution, zone, CellValue::Star) == nb_stars,
        ensures
            0 <= k < self.recursive_completions(cells, zone, nb_stars).len(),
            self.leads_to(self.recursive_completions(cells, zone, nb_stars)[k], solution),
        decreases Self::count_in(cells, zone, CellValue::Unknown),
    {
        let nb_lines = self.spec_nb_lines() as int;
        let nb_columns = self.spec_nb_columns() as int;
        let star = Self::value_test(cells, CellValue::Star);
        let star_solved = Self::value_test(solution, CellValue::Star);
        let found = self.recursive_completions(cells, zone, nb_stars);
        assert(zone_inside(zone, nb_lines, nb_columns));
        if Self::count_in(cells, zone, CellValue::Star) == nb_stars {
            let filled = no_star_filled(cells, zone);
            lemma_no_star_filled(cells, zone, nb_lines, nb_columns);
            assert forall|lc: LineColumn|
                self.in_grid(lc) && value_at(filled, lc)
                    != CellValue::Unknown implies #[trigger] value_at(solution, lc) == value_at(
                filled,
                lc,
            ) by {
                assert(value_at(solution, lc) != CellValue::Unknown);
                if value_at(cells, lc) == CellValue::Unknown {
                    assert(zone.contains(lc));
                    let at = choose|at: int| 0 <= at < zone.len() && zone[at] == lc;
                    if value_at(solution, lc) == CellValue::Star {
                        lemma_filter_len_lt(zone, star, star_solved, at);
                    }
                }
            }
            self.lemma_leads_to_consistent(filled, solution);
            assert(found[0] == filled);
            0
        } else if self.first_pivot(cells, zone) is None {
            let test = self.pivot_test(cells);
            lemma_filter_kept_nothing(zone, test);
            assert forall|i: int| 0 <= i < zone.len() implies star_solved(#[trigger] zone[i])
                == star(zone[i]) by {
                let lc = zone[i];
                assert(self.in_grid(lc));
                if value_at(solution, lc) == CellValue::Star && value_at(cells, lc)
                    == CellValue::Unknown {
                    assert(!test(lc));
                    let around = self.neighbours(lc);
                    let stars_around = self.star_neighbours(cells, lc);
                    assert(stars_around.len() > 0);
                    let other = stars_around[0];
                    assert(stars_around.contains(other));
                    around.lemma_filter_contains_rev(star, other);
                    around.lemma_filter_pred(star, 0);
                    self.lemma_neighbours(lc);
                    assert(self.in_grid(other) && lc.touches(other));
                    assert(value_at(solution, other) == CellValue::Star);
                }
            }
            lemma_filter_agree(zone, star_solved, star);
            0
        } else {
            let pivot = self.first_pivot(cells, zone)->0;
            self.lemma_pivot(cells, zone);
            let placed = self.star_placed(cells, pivot);
            let skipped = with_value(cells, pivot, CellValue::NoStar);
            let with_star = if self.check(placed) is Ok {
                self.recursive_completions(placed, zone, nb_stars)
            } else {
                Seq::empty()
            };
            let without = self.recursive_completions(skipped, zone, nb_stars);
            assert(found == with_star + without);
            assert(value_at(solution, pivot) != CellValue::Unknown);
            if value_at(solution, pivot) == CellValue::Star {
                assert forall|lc: LineColumn|
                    self.in_grid(lc) && value_at(placed, lc)
                        != CellValue::Unknown implies #[trigger] value_at(solution, lc)
                    == value_at(placed, lc) by {
                    assert(value_at(solution, lc) != CellValue::Unknown);
                    if lc != pivot {
                        assert(value_at(placed, lc) == if pivot.touches(lc) && value_at(cells, lc)
                            == CellValue::Unknown {
                            CellValue::NoStar
                        } else {
                            value_at(cells, lc)
                        });
                    }
                }
                self.lemma_leads_to_consistent(placed, solution);
                let k = self.lemma_recursive_complete(placed, zone, nb_stars, solution);
                assert(found[k] == with_star[k]);
                k
            } else {
                assert forall|lc: LineColumn|
                    self.in_grid(lc) && value_at(skipped, lc)
                        != CellValue::Unknown implies #[trigger] value_at(solution, lc)
                    == value_at(skipped, lc) by {
                    if lc != pivot {
                        assert(value_at(skipped, lc) == value_at(cells, lc));
                    }
                }
                let k = self.lemma_recursive_complete(skipped, zone, nb_stars, solution);
                assert(found[with_star.len() + k] == without[k]);
                with_star.len() + k
            }
        }
    }

    /// Without any grid, no action is forced.
    pub proof fn lemma_nothing_forced(&self, cells: GridView)
        ensures
            self.forced_actions(cells, Seq::empty()).len() == 0,
    {
        let grids = Seq::<GridView>::empty();
        let unknown = self.unknown_in(cells, GridSurfer::AllCells);
        assert forall|i: int| 0 <= i < unknown.len() implies invariant_test(grids)(
            #[trigger] unknown[i],
        ) is None by {
            lemma_signal(grids, unknown[i]);
        }
        lemma_filter_map_nothing(unknown, invariant_test(grids));
        assert forall|i: int| 0 <= i < unknown.len() implies !self.hemmed_in_test(grids)(
            #[trigger] unknown[i],
        ) by {
            self.lemma_star_adjacent_signal(grids, unknown[i]);
        }
        lemma_filter_nothing(unknown, self.hemmed_in_test(grids));
        let adjacents = self.star_adjacent_actions(cells, grids);
        assert(adjacents.len() == 0);
        lemma_filter_nothing(adjacents, absent_from(self.invariant_actions(cells, grids)));
    }

    /// The actions that a list of grids forces agree with a solution, if one
    /// of the grids leads to it.
    pub proof fn lemma_forced_actions_sound(
        &self,
        cells: GridView,
        grids: Seq<GridView>,
        solution: GridView,
        k: int,
    )
        requires
            0 <= k < grids.len(),
            self.leads_to(grids[k], solution),
        ensures
            Self::agree_with(solution, self.forced_actions(cells, grids)),
    {
        let unknown = self.unknown_in(cells, GridSurfer::AllCells);
        self.lemma_unknown_in(cells, GridSurfer::AllCells);
        let invariants = self.invariant_actions(cells, grids);
        let hemmed = unknown.filter(self.hemmed_in_test(grids));
        let adjacents = self.star_adjacent_actions(cells, grids);
        let kept = adjacents.filter(absent_from(invariants));
        let forced = self.forced_actions(cells, grids);
        let grid = grids[k];
        assert forall|i: int| 0 <= i < forced.len() implies value_at(
            solution,
            (#[trigger] forced[i]).spec_line_column(),
        ) == forced[i].spec_value() by {
            if i < invariants.len() {
                assert(forced[i] == invariants[i]);
                assert(invariants.contains(invariants[i]));
                unknown.lemma_filter_map_contains(invariant_test(grids), invariants[i]);
                let lc = choose|lc: LineColumn|
                    #[trigger] unknown.contains(lc) && invariant_test(grids)(lc) == Some(
                        invariants[i],
                    );
                let at = choose|at: int| 0 <= at < unknown.len() && unknown[at] == lc;
                assert(self.in_grid(unknown[at]));
                lemma_signal(grids, lc);
                assert(value_at(grid, lc) == invariants[i].spec_value());
            } else {
                let action = kept[i - invariants.len()];
                assert(forced[i] == action);
                assert(kept.contains(action));
                adjacents.lemma_filter_contains_rev(absent_from(invariants), action);
                let j = choose|j: int| 0 <= j < adjacents.len() && adjacents[j] == action;
                let lc = hemmed[j];
                assert(action == GridAction::SetNoStar(lc));
                assert(hemmed.contains(lc));
                unknown.lemma_filter_contains_rev(self.hemmed_in_test(grids), lc);
                unknown.lemma_filter_pred(self.hemmed_in_test(grids), j);
                let at = choose|at: int| 0 <= at < unknown.len() && unknown[at] == lc;
                assert(self.in_grid(unknown[at]));
                self.lemma_star_adjacent_signal(grids, lc);
                assert(self.hemmed_in(grids, lc));
                let around = self.neighbours(lc);
                let star = Self::value_test(grid, CellValue::Star);
                let stars_around = self.star_neighbours(grid, lc);
                assert(stars_around.len() > 0);
                let other = stars_around[0];
                assert(stars_around.contains(other));
                around.lemma_filter_contains_rev(star, other);
                around.lemma_filter_pred(star, 0);
                self.lemma_neighbours(lc);
                assert(self.in_grid(other) && lc.touches(other));
                assert(value_at(solution, other) == CellValue::Star);
                assert(other.touches(lc));
                assert(value_at(solution, lc) != CellValue::Unknown);
            }
        }
    }
}

/// The test of the cells of the zone `zone` that hold `value` in `cells`.
pub open spec fn zone_value_test(
    handler: &GridHandler,
    cells: GridView,
    zone: GridSurfer,
    value: CellValue,
) -> spec_fn(LineColumn) -> bool {
    |lc: LineColumn| handler.in_zone(zone, lc) && value_at(cells, lc) == value
}

impl GridHandler {
    /// The cells of a zone that hold a value are the cells of the grid that
    /// are of the zone and hold the value.
    pub proof fn lemma_count_in_zone(&self, cells: GridView, zone: GridSurfer, value: CellValue)
        ensures
            Self::count_in(cells, self.zone_cells(zone), value) == self.all_cells().filter(
                zone_value_test(self, cells, zone, value),
            ).len(),
    {
        lemma_filter_twice(
            self.all_cells(),
            self.zone_test(zone),
            Self::value_test(cells, value),
            zone_value_test(self, cells, zone, value),
        );
    }

    /// A zone made of two zones that share no cell holds as many cells of a
    /// value as the two together.
    pub proof fn lemma_zone_union(
        &self,
        cells: GridView,
        whole: GridSurfer,
        one: GridSurfer,
        other: GridSurfer,
        value: CellValue,
    )
        requires
            forall|lc: LineColumn|
                self.in_grid(lc) ==> #[trigger] self.in_zone(whole, lc) == (self.in_zone(one, lc)
                    || self.in_zone(other, lc)) && !(self.in_zone(one, lc) && self.in_zone(
                    other,
                    lc,
                )),
        ensures
            Self::count_in(cells, self.zone_cells(whole), value) == Self::count_in(
                cells,
                self.zone_cells(one),
                value,
            ) + Self::count_in(cells, self.zone_cells(other), value),
    {
        self.lemma_count_in_zone(cells, whole, value);
        self.lemma_count_in_zone(cells, one, value);
        self.lemma_count_in_zone(cells, other, value);
        self.lemma_all_cells();
        let all = self.all_cells();
        assert forall|i: int| 0 <= i < all.len() implies zone_value_test(self, cells, whole, value)(
            #[trigger] all[i],
        ) == (zone_value_test(self, cells, one, value)(all[i]) || zone_value_test(
            self,
            cells,
            other,
            value,
        )(all[i])) && !(zone_value_test(self, cells, one, value)(all[i]) && zone_value_test(
            self,
            cells,
            other,
            value,
        )(all[i])) by {
            assert(all.contains(all[i]));
            assert(self.in_zone(whole, all[i]) == (self.in_zone(one, all[i]) || self.in_zone(
                other,
                all[i],
            )));
        }
        lemma_filter_split(
            all,
            zone_value_test(self, cells, one, value),
            zone_value_test(self, cells, other, value),
            zone_value_test(self, cells, whole, value),
        );
    }

    /// Two zones that the same cells of the grid belong to hold the same cells.
    pub proof fn lemma_zone_same(&self, one: GridSurfer, other: GridSurfer)
        requires
            forall|lc: LineColumn|
                self.in_grid(lc) ==> #[trigger] self.in_zone(one, lc) == self.in_zone(other, lc),
        ensures
            self.zone_cells(one) == self.zone_cells(other),
    {
        self.lemma_all_cells();
        let all = self.all_cells();
        assert forall|i: int| 0 <= i < all.len() implies self.zone_test(one)(#[trigger] all[i])
            == self.zone_test(other)(all[i]) by {
            assert(all.contains(all[i]));
            assert(self.in_zone(one, all[i]) == self.in_zone(other, all[i]));
        }
        lemma_filter_agree(all, self.zone_test(one), self.zone_test(other));
    }

    /// Consecutive lines of a solution hold `self.nb_stars()` stars each.
    pub proof fn lemma_solution_lines(&self, solution: GridView, first: int, last: int)
        requires
            self.is_solution(solution),
            0 <= first <= last < self.spec_nb_lines(),
        ensures
            Self::count_in(
                solution,
                self.zone_cells(GridSurfer::Lines(first as usize, last as usize)),
                CellValue::Star,
            ) == (last - first + 1) * self.spec_nb_stars(),
        decreases last - first,
    {
        let whole = GridSurfer::Lines(first as usize, last as usize);
        let line = GridSurfer::Line(last as usize);
        self.lemma_star_zones();
        self.lemma_solution_zone(solution, self.spec_regions().len() + last);
        if first == last {
            self.lemma_zone_same(whole, line);
            assert(1 * self.spec_nb_stars() == self.spec_nb_stars()) by (nonlinear_arith);
        } else {
            let front = GridSurfer::Lines(first as usize, (last - 1) as usize);
            self.lemma_solution_lines(solution, first, last - 1);
            self.lemma_zone_union(solution, whole, front, line, CellValue::Star);
            assert((last - 1 - first + 1) * self.spec_nb_stars() + self.spec_nb_stars() == (last
                - first + 1) * self.spec_nb_stars()) by (nonlinear_arith);
        }
    }

    /// Consecutive columns of a solution hold `self.nb_stars()` stars each.
    pub proof fn lemma_solution_columns(&self, solution: GridView, first: int, last: int)
        requires
            self.is_solution(solution),
            0 <= first <= last < self.spec_nb_columns(),
        ensures
            Self::count_in(
                solution,
                self.zone_cells(GridSurfer::Columns(first as usize, last as usize)),
                CellValue::Star,
            ) == (last - first + 1) * self.spec_nb_stars(),
        decreases last - first,
    {
        let whole = GridSurfer::Columns(first as usize, last as usize);
        let column = GridSurfer::Column(last as usize);
        self.lemma_star_zones();
        self.lemma_solution_zone(
            solution,
            self.spec_regions().len() + self.spec_nb_lines() + last,
        );
        if first == last {
            self.lemma_zone_same(whole, column);
            assert(1 * self.spec_nb_stars() == self.spec_nb_stars()) by (nonlinear_arith);
        } else {
            let front = GridSurfer::Columns(first as usize, (last - 1) as usize);
            self.lemma_solution_columns(solution, first, last - 1);
            self.lemma_zone_union(solution, whole, front, column, CellValue::Star);
            assert((last - 1 - first + 1) * self.spec_nb_stars() + self.spec_nb_stars() == (last
                - first + 1) * self.spec_nb_stars()) by (nonlinear_arith);
        }
    }

    /// A span of `n` lines or columns of a solution holds `n` times
    /// `self.nb_stars()` stars.
    pub proof fn lemma_solution_span(&self, solution: GridView, n: int, i: int)
        requires
            self.is_solution(solution),
            0 <= i < self.spans(n).len(),
        ensures
            Self::count_in(solution, self.zone_cells(self.spans(n)[i]), CellValue::Star) == n
                * self.spec_nb_stars(),
    {
        let lines = crate::grid_good_ruler::rule_region_exclusions::line_spans(
            self.spec_nb_lines() as int,
            n,
        );
        let columns = crate::grid_good_ruler::rule_region_exclusions::column_spans(
            self.spec_nb_columns() as int,
            n,
        );
        if i < lines.len() {
            assert(self.spans(n)[i] == lines[i]);
            self.lemma_solution_lines(solution, i, i + n - 1);
        } else {
            let j = i - lines.len();
            assert(self.spans(n)[i] == columns[j]);
            self.lemma_solution_columns(solution, j, j + n - 1);
        }
    }

    /// Each zone of a kind holds, in a solution, the number of stars that
    /// the zones of the kind take.
    pub proof fn lemma_solution_examined(&self, solution: GridView, kind: ZoneToExamine, i: int)
        requires
            self.is_solution(solution),
            0 <= i < self.examined_zones(kind).len(),
        ensures
            Self::count_in(
                solution,
                self.zone_cells(self.examined_zones(kind)[i]),
                CellValue::Star,
            ) == self.examined_stars(kind),
    {
        self.lemma_star_zones();
        match kind {
            ZoneToExamine::Region => {
                assert(self.examined_zones(kind)[i] == self.star_zones()[i]);
                self.lemma_solution_zone(solution, i);
            },
            ZoneToExamine::LineAndColumn => {
                let lines = self.line_zones();
                let columns = self.column_zones();
                if i < lines.len() {
                    assert(self.examined_zones(kind)[i] == lines[i]);
                } else {
                    assert(self.examined_zones(kind)[i] == columns[i - lines.len()]);
                }
                assert(self.examined_zones(kind)[i] == self.star_zones()[self.spec_regions().len()
                    + i]);
                self.lemma_solution_zone(solution, self.spec_regions().len() + i);
            },
            ZoneToExamine::MultipleLinesAndColumns(n) => {
                self.lemma_solution_span(solution, n as int, i);
                assert(n * self.spec_nb_stars() >= 0) by (nonlinear_arith)
                    requires
                        n >= 0,
                        self.spec_nb_stars() >= 0,
                ;
            },
        }
    }

    /// The deduction about the cells that every completion of a zone agrees
    /// on agrees with every solution that the grid leads to.
    pub proof fn lemma_generic_possible_stars_sound(
        &self,
        cells: GridView,
        solution: GridView,
        kind: ZoneToExamine,
        recursive: bool,
    )
        requires
            self.leads_to(cells, solution),
            self.generic_possible_stars(cells, kind, recursive) is Some,
        ensures
            Self::agree_with(
                solution,
                self.generic_possible_stars(cells, kind, recursive)->0.actions(),
            ),
    {
        let i = choose|i: int| self.is_best_zone(cells, kind, recursive, i);
        let zone = self.examined_zones(kind)[i];
        let nb_stars = self.examined_stars(kind);
        let places = self.zone_cells(zone);
        self.lemma_zone_cells(zone);
        assert(self.all_in_grid(places)) by {
            assert forall|k: int| 0 <= k < places.len() implies self.in_grid(#[trigger] places[k]) by {
                assert(places.contains(places[k]));
            }
        }
        self.lemma_solution_examined(solution, kind, i);
        self.lemma_counts_toward(cells, solution, places);
        let grids = self.completions(cells, zone, nb_stars, recursive);
        if recursive || !crate::grid_good_ruler::collector::Collector::within_cap(cells, places) {
            let k = self.lemma_recursive_complete(cells, places, nb_stars, solution);
            self.lemma_forced_actions_sound(cells, grids, solution, k);
        } else if Self::count_in(cells, places, CellValue::Star) < nb_stars {
            let k = self.lemma_bitmask_complete(cells, places, nb_stars, solution);
            self.lemma_forced_actions_sound(cells, grids, solution, k);
        } else {
            assert(grids =~= Seq::<GridView>::empty());
            self.lemma_nothing_forced(cells);
        }
    }
}

} // verus!
