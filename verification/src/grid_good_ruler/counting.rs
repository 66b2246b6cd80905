//! Counting of the stars of a solution region by region: why the deductions
//! about regions and spans of lines or columns never rule out a solution.

use vstd::prelude::*;

use crate::grid::{value_at, GridView};
use crate::grid_good_ruler::completeness::zone_value_test;

use crate::grid_good_ruler::rule_region_combinations::{
    greatest_column, greatest_line, least_column, least_line, lemma_bounds,
};
use crate::grid_parser::lemma_first_appearances;
use crate::sequences::{
    lemma_filter_agree, lemma_filter_kept_nothing, lemma_filter_len_le, lemma_filter_len_lt,
    lemma_filter_split, lemma_filter_twice, lemma_first_some_witness,
};
use crate::CellValue;
use crate::GridAction;
use crate::GridHandler;
use crate::GridSurfer;
use crate::LineColumn;
use crate::Region;

verus! {

/// The test of the cells of the region `region` that hold a star in `solution`.
pub open spec fn region_star_test(handler: &GridHandler, solution: GridView, region: Region) -> spec_fn(
    LineColumn,
) -> bool {
    |lc: LineColumn|
        handler.spec_cell_region(lc) == region && value_at(solution, lc) == CellValue::Star
}

/// The test of the cells of one of the regions `regions` that hold a star in
/// `solution`.
pub open spec fn regions_star_test(
    handler: &GridHandler,
    solution: GridView,
    regions: Seq<Region>,
) -> spec_fn(LineColumn) -> bool {
    |lc: LineColumn|
        regions.contains(handler.spec_cell_region(lc)) && value_at(solution, lc)
            == CellValue::Star
}

/// The test of the cells of none of the regions `regions` that hold a star
/// in `solution`.
pub open spec fn strangers_star_test(
    handler: &GridHandler,
    solution: GridView,
    regions: Seq<Region>,
) -> spec_fn(LineColumn) -> bool {
    |lc: LineColumn|
        !regions.contains(handler.spec_cell_region(lc)) && value_at(solution, lc)
            == CellValue::Star
}

/// Number of stars that `solution` holds in the cells `places`, counted
/// region by region over `regions`.
pub open spec fn stars_by_region(
    handler: &GridHandler,
    solution: GridView,
    places: Seq<LineColumn>,
    regions: Seq<Region>,
) -> nat
    decreases regions.len(),
{
    if regions.len() == 0 {
        0
    } else {
        stars_by_region(handler, solution, places, regions.drop_last()) + places.filter(
            region_star_test(handler, solution, regions.last()),
        ).len()
    }
}

/// `list` is a choice of `size` of the items `items`: it has `size` items,
/// all among `items`, and no item twice if `items` has none twice.
pub open spec fn is_choice_of(list: Seq<Region>, items: Seq<Region>, size: nat) -> bool {
    &&& list.len() == size
    &&& forall|j: int| 0 <= j < list.len() ==> items.contains(#[trigger] list[j])
    &&& items.no_duplicates() ==> list.no_duplicates()
}

/// Counting the stars of regions listed once each comes to counting them
/// region by region.
pub proof fn lemma_stars_by_region(
    handler: &GridHandler,
    solution: GridView,
    places: Seq<LineColumn>,
    regions: Seq<Region>,
)
    requires
        regions.no_duplicates(),
    ensures
        places.filter(regions_star_test(handler, solution, regions)).len() == stars_by_region(
            handler,
            solution,
            places,
            regions,
        ),
    decreases regions.len(),
{
    if regions.len() == 0 {
        crate::sequences::lemma_filter_nothing(
            places,
            regions_star_test(handler, solution, regions),
        );
    } else {
        let front = regions.drop_last();
        let last = regions.last();
        assert(front.no_duplicates()) by {
            assert forall|i: int, j: int| 0 <= i < front.len() && 0 <= j < front.len() && i
                != j implies front[i] != front[j] by {
                assert(front[i] == regions[i] && front[j] == regions[j]);
            }
        }
        lemma_stars_by_region(handler, solution, places, front);
        assert forall|i: int| 0 <= i < places.len() implies regions_star_test(
            handler,
            solution,
            regions,
        )(#[trigger] places[i]) == (regions_star_test(handler, solution, front)(places[i])
            || region_star_test(handler, solution, last)(places[i])) && !(regions_star_test(
            handler,
            solution,
            front,
        )(places[i]) && region_star_test(handler, solution, last)(places[i])) by {
            let region = handler.spec_cell_region(places[i]);
            assert(regions[regions.len() - 1] == last);
            if front.contains(region) {
                let k = choose|k: int| 0 <= k < front.len() && front[k] == region;
                assert(regions[k] == region);
                assert(region != last);
            }
            if regions.contains(region) && region != last {
                let k = choose|k: int| 0 <= k < regions.len() && regions[k] == region;
                assert(front[k] == region);
            }
        }
        lemma_filter_split(
            places,
            regions_star_test(handler, solution, front),
            region_star_test(handler, solution, last),
            regions_star_test(handler, solution, regions),
        );
    }
}

/// Where no region has more than `most` stars, the regions have no more than
/// `most` stars each on average; if they have that many in all, each region
/// has `most`.
pub proof fn lemma_stars_by_region_bound(
    handler: &GridHandler,
    solution: GridView,
    places: Seq<LineColumn>,
    regions: Seq<Region>,
    most: nat,
)
    requires
        forall|i: int|
            0 <= i < regions.len() ==> places.filter(
                region_star_test(handler, solution, #[trigger] regions[i]),
            ).len() <= most,
    ensures
        stars_by_region(handler, solution, places, regions) <= regions.len() * most,
        stars_by_region(handler, solution, places, regions) == regions.len() * most ==> forall|
            i: int,
        |
            0 <= i < regions.len() ==> places.filter(
                region_star_test(handler, solution, #[trigger] regions[i]),
            ).len() == most,
    decreases regions.len(),
{
    if regions.len() > 0 {
        let front = regions.drop_last();
        let last = regions.last();
        assert(regions[regions.len() - 1] == last);
        assert forall|i: int| 0 <= i < front.len() implies places.filter(
            region_star_test(handler, solution, #[trigger] front[i]),
        ).len() <= most by {
            assert(front[i] == regions[i]);
        }
        lemma_stars_by_region_bound(handler, solution, places, front, most);
        assert(front.len() * most + most == regions.len() * most) by (nonlinear_arith)
            requires
                front.len() + 1 == regions.len(),
        ;
        if stars_by_region(handler, solution, places, regions) == regions.len() * most {
            assert forall|i: int| 0 <= i < regions.len() implies places.filter(
                region_star_test(handler, solution, #[trigger] regions[i]),
            ).len() == most by {
                if i < front.len() {
                    assert(front[i] == regions[i]);
                }
            }
        }
    } else {
        assert(regions.len() * most == 0) by (nonlinear_arith)
            requires
                regions.len() == 0,
        ;
    }
}

impl GridHandler {
    /// A region of a solution holds `self.nb_stars()` stars.
    pub proof fn lemma_solution_region(&self, solution: GridView, region: Region)
        requires
            self.is_solution(solution),
            self.spec_regions().contains(region),
        ensures
            self.all_cells().filter(region_star_test(self, solution, region)).len()
                == self.spec_nb_stars(),
    {
        let i = choose|i: int| 0 <= i < self.spec_regions().len() && self.spec_regions()[i] == region;
        self.lemma_star_zones();
        self.lemma_solution_zone(solution, i);
        self.lemma_count_in_zone(solution, GridSurfer::Region(region), CellValue::Star);
        lemma_filter_agree(
            self.all_cells(),
            zone_value_test(self, solution, GridSurfer::Region(region), CellValue::Star),
            region_star_test(self, solution, region),
        );
    }

    /// The cells of a zone that pass a test are the cells of the grid that
    /// are of the zone and pass the test: no more than the cells of the grid
    /// that pass the test.
    pub proof fn lemma_zone_part(&self, zone: GridSurfer, test: spec_fn(LineColumn) -> bool)
        ensures
            self.zone_cells(zone).filter(test).len() <= self.all_cells().filter(test).len(),
            self.zone_cells(zone).filter(test) == self.all_cells().filter(
                |lc: LineColumn| self.in_zone(zone, lc) && test(lc),
            ),
    {
        let both = |lc: LineColumn| self.in_zone(zone, lc) && test(lc);
        lemma_filter_twice(self.all_cells(), self.zone_test(zone), test, both);
        lemma_filter_len_le(self.all_cells(), both, test);
    }

    /// The deduction about `n` lines or columns of `n` regions at most agrees
    /// with every solution that the grid leads to.
    pub proof fn lemma_region_exclusions_sound(&self, cells: GridView, solution: GridView, n: int)
        requires
            self.wf(),
            self.leads_to(cells, solution),
            self.region_exclusions(cells, n) is Some,
        ensures
            Self::agree_with(solution, self.region_exclusions(cells, n)->0.actions()),
    {
        self.lemma_wf();
        self.lemma_all_cells();
        let i = lemma_first_some_witness(self.spans(n), self.exclusion_test(cells, n));
        let span = self.spans(n)[i];
        let zone = self.zone_cells(span);
        let regions = self.open_regions(cells, span);
        let all = self.all_cells();
        let test = self.excluded_test(cells, zone, regions);
        let candidates = all.filter(test);
        let actions = self.region_exclusions(cells, n)->0.actions();
        let nb_stars = self.spec_nb_stars() as nat;
        let star = Self::value_test(cells, CellValue::Star);
        let unknown = Self::value_test(cells, CellValue::Unknown);
        let star_solved = Self::value_test(solution, CellValue::Star);
        let unknowns = zone.filter(unknown);
        let labels = self.regions_at(unknowns);
        self.lemma_zone_cells(span);
        lemma_first_appearances(labels);
        self.lemma_solution_span(solution, n, i);
        lemma_filter_kept_nothing(zone, star);
        // every star of the solution in the span is of one of the regions
        assert forall|k: int| 0 <= k < zone.len() implies star_solved(#[trigger] zone[k])
            == regions_star_test(self, solution, regions)(zone[k]) by {
            let lc = zone[k];
            assert(zone.contains(lc));
            if value_at(solution, lc) == CellValue::Star {
                assert(!star(lc));
                assert(value_at(cells, lc) == CellValue::Unknown);
                zone.lemma_filter_contains(unknown, k);
                let at = choose|at: int| 0 <= at < unknowns.len() && unknowns[at] == lc;
                assert(labels[at] == self.spec_cell_region(lc));
                assert(labels.contains(self.spec_cell_region(lc)));
            }
        }
        lemma_filter_agree(zone, star_solved, regions_star_test(self, solution, regions));
        lemma_stars_by_region(self, solution, zone, regions);
        // each of the regions is a region of the puzzle, with its stars
        assert forall|k: int| 0 <= k < regions.len() implies zone.filter(
            region_star_test(self, solution, #[trigger] regions[k]),
        ).len() <= nb_stars && self.spec_regions().contains(regions[k]) by {
            let region = regions[k];
            assert(regions.contains(region));
            assert(labels.contains(region));
            let at = choose|at: int| 0 <= at < labels.len() && labels[at] == region;
            assert(unknowns.contains(unknowns[at]));
            zone.lemma_filter_contains_rev(unknown, unknowns[at]);
            assert(self.in_grid(unknowns[at]));
            assert(self.spec_regions().contains(self.spec_cell_region(unknowns[at])));
            self.lemma_solution_region(solution, region);
            self.lemma_zone_part(span, region_star_test(self, solution, region));
        }
        lemma_stars_by_region_bound(self, solution, zone, regions, nb_stars);
        assert(regions.len() * nb_stars <= n * nb_stars) by (nonlinear_arith)
            requires
                regions.len() <= n,
                nb_stars >= 0,
        ;
        assert forall|k: int| 0 <= k < actions.len() implies value_at(
            solution,
            (#[trigger] actions[k]).spec_line_column(),
        ) == actions[k].spec_value() by {
            let lc = candidates[k];
            assert(actions[k] == GridAction::SetNoStar(lc));
            assert(candidates.contains(lc));
            all.lemma_filter_contains_rev(test, lc);
            all.lemma_filter_pred(test, k);
            let at = choose|at: int| 0 <= at < all.len() && all[at] == lc;
            assert(all.contains(all[at]));
            let region = self.spec_cell_region(lc);
            assert(regions.contains(region));
            let r = choose|r: int| 0 <= r < regions.len() && regions[r] == region;
            let counted = region_star_test(self, solution, regions[r]);
            assert(zone.filter(counted).len() == nb_stars);
            self.lemma_solution_region(solution, region);
            self.lemma_zone_part(span, counted);
            assert(value_at(solution, lc) != CellValue::Unknown);
            if value_at(solution, lc) == CellValue::Star {
                let both = |lc: LineColumn| self.in_zone(span, lc) && counted(lc);
                assert(!zone.contains(lc));
                assert(!both(all[at]));
                lemma_filter_len_lt(all, both, counted, at);
            }
        }
    }

    /// No star of a solution stands, in lines or columns that hold the stars
    /// of as many regions, in a cell of another region.
    pub proof fn lemma_strangers_sound(
        &self,
        cells: GridView,
        solution: GridView,
        regions: Seq<Region>,
        span: GridSurfer,
        n: int,
    )
        requires
            self.wf(),
            self.leads_to(cells, solution),
            is_choice_of(regions, self.spec_regions(), n as nat),
            n >= 0,
            Self::count_in(solution, self.zone_cells(span), CellValue::Star) == n
                * self.spec_nb_stars(),
            forall|lc: LineColumn|
                self.in_grid(lc) && regions.contains(#[trigger] self.spec_cell_region(lc))
                    ==> self.in_zone(span, lc),
            self.strangers_in(cells, regions, span) is Some,
        ensures
            Self::agree_with(solution, self.strangers_in(cells, regions, span)->0.actions()),
    {
        self.lemma_wf();
        self.lemma_all_cells();
        self.lemma_zone_cells(span);
        let zone = self.zone_cells(span);
        let all = self.all_cells();
        let nb_stars = self.spec_nb_stars() as nat;
        let star_solved = Self::value_test(solution, CellValue::Star);
        let test = self.stranger_test(cells, regions);
        let candidates = zone.filter(test);
        let actions = self.strangers_in(cells, regions, span)->0.actions();
        assert forall|k: int| 0 <= k < regions.len() implies zone.filter(
            region_star_test(self, solution, #[trigger] regions[k]),
        ).len() <= nb_stars by {
            self.lemma_solution_region(solution, regions[k]);
            self.lemma_zone_part(span, region_star_test(self, solution, regions[k]));
        }
        lemma_stars_by_region_bound(self, solution, zone, regions, nb_stars);
        // each region has all its stars in the span
        assert forall|k: int| 0 <= k < regions.len() implies zone.filter(
            region_star_test(self, solution, #[trigger] regions[k]),
        ).len() == nb_stars by {
            let counted = region_star_test(self, solution, regions[k]);
            let both = |lc: LineColumn| self.in_zone(span, lc) && counted(lc);
            self.lemma_solution_region(solution, regions[k]);
            self.lemma_zone_part(span, counted);
            assert forall|at: int| 0 <= at < all.len() implies both(#[trigger] all[at]) == counted(
                all[at],
            ) by {
                assert(all.contains(all[at]));
                if counted(all[at]) {
                    assert(regions.contains(self.spec_cell_region(all[at])));
                }
            }
            lemma_filter_agree(all, both, counted);
        }
        lemma_stars_by_region_sum(self, solution, zone, regions, nb_stars);
        lemma_stars_by_region(self, solution, zone, regions);
        lemma_filter_split(
            zone,
            regions_star_test(self, solution, regions),
            strangers_star_test(self, solution, regions),
            star_solved,
        );
        lemma_filter_kept_nothing(zone, strangers_star_test(self, solution, regions));
        assert forall|k: int| 0 <= k < actions.len() implies value_at(
            solution,
            (#[trigger] actions[k]).spec_line_column(),
        ) == actions[k].spec_value() by {
            let lc = candidates[k];
            assert(actions[k] == GridAction::SetNoStar(lc));
            assert(candidates.contains(lc));
            zone.lemma_filter_contains_rev(test, lc);
            zone.lemma_filter_pred(test, k);
            let at = choose|at: int| 0 <= at < zone.len() && zone[at] == lc;
            assert(zone.contains(zone[at]));
            assert(!strangers_star_test(self, solution, regions)(zone[at]));
            assert(value_at(solution, lc) != CellValue::Unknown);
        }
    }

    /// The deduction about regions that lie within as many lines or columns
    /// agrees with every solution that the grid leads to, if each list of
    /// regions tried is a choice of `n` regions of the puzzle.
    pub proof fn lemma_region_combinations_sound(
        &self,
        cells: GridView,
        solution: GridView,
        n: int,
        combinations: Seq<Seq<Region>>,
    )
        requires
            self.wf(),
            self.leads_to(cells, solution),
            n >= 0,
            forall|i: int|
                0 <= i < combinations.len() ==> is_choice_of(
                    #[trigger] combinations[i],
                    self.spec_regions(),
                    n as nat,
                ),
            self.region_combinations_among(cells, n, combinations) is Some,
        ensures
            Self::agree_with(
                solution,
                self.region_combinations_among(cells, n, combinations)->0.actions(),
            ),
    {
        self.lemma_all_cells();
        let i = lemma_first_some_witness(combinations, self.combination_test(cells, n));
        let regions = combinations[i];
        let all = self.all_cells();
        let members = all.filter(self.member_test(regions));
        lemma_bounds(members);
        let lines = GridSurfer::Lines(
            least_line(members) as usize,
            greatest_line(members) as usize,
        );
        let columns = GridSurfer::Columns(
            least_column(members) as usize,
            greatest_column(members) as usize,
        );
        assert forall|lc: LineColumn|
            self.in_grid(lc) && regions.contains(
                #[trigger] self.spec_cell_region(lc),
            ) implies self.in_zone(lines, lc) && self.in_zone(columns, lc) by {
            assert(all.contains(lc));
            let at = choose|at: int| 0 <= at < all.len() && all[at] == lc;
            all.lemma_filter_contains(self.member_test(regions), at);
            let k = choose|k: int| 0 <= k < members.len() && members[k] == lc;
            assert(least_line(members) <= members[k].line <= greatest_line(members));
        }
        let a = choose|a: int| 0 <= a < members.len() && (#[trigger] members[a]).line == least_line(members);
        let b = choose|b: int|
            0 <= b < members.len() && (#[trigger] members[b]).line == greatest_line(members);
        let c = choose|c: int|
            0 <= c < members.len() && (#[trigger] members[c]).column == least_column(members);
        let d = choose|d: int|
            0 <= d < members.len() && (#[trigger] members[d]).column == greatest_column(members);
        assert(self.in_grid(members[a]) && self.in_grid(members[b]) && self.in_grid(members[c])
            && self.in_grid(members[d])) by {
            assert(members.contains(members[a]) && members.contains(members[b])
                && members.contains(members[c]) && members.contains(members[d]));
            all.lemma_filter_contains_rev(self.member_test(regions), members[a]);
            all.lemma_filter_contains_rev(self.member_test(regions), members[b]);
            all.lemma_filter_contains_rev(self.member_test(regions), members[c]);
            all.lemma_filter_contains_rev(self.member_test(regions), members[d]);
        }
        if greatest_line(members) - least_line(members) + 1 == n && self.strangers_in(
            cells,
            regions,
            lines,
        ) is Some {
            self.lemma_solution_lines(solution, least_line(members), greatest_line(members));
            self.lemma_strangers_sound(cells, solution, regions, lines, n);
        } else {
            self.lemma_solution_columns(
                solution,
                least_column(members),
                greatest_column(members),
            );
            self.lemma_strangers_sound(cells, solution, regions, columns, n);
        }
    }
}

/// Regions that hold `each` stars each hold, counted one by one, as many
/// times `each` stars as they are.
pub proof fn lemma_stars_by_region_sum(
    handler: &GridHandler,
    solution: GridView,
    places: Seq<LineColumn>,
    regions: Seq<Region>,
    each: nat,
)
    requires
        forall|i: int|
            0 <= i < regions.len() ==> places.filter(
                region_star_test(handler, solution, #[trigger] regions[i]),
            ).len() == each,
    ensures
        stars_by_region(handler, solution, places, regions) == regions.len() * each,
    decreases regions.len(),
{
    if regions.len() > 0 {
        let front = regions.drop_last();
        assert(regions[regions.len() - 1] == regions.last());
        assert forall|i: int| 0 <= i < front.len() implies places.filter(
            region_star_test(handler, solution, #[trigger] front[i]),
        ).len() == each by {
            assert(front[i] == regions[i]);
        }
        lemma_stars_by_region_sum(handler, solution, places, front, each);
        assert(front.len() * each + each == regions.len() * each) by (nonlinear_arith)
            requires
                front.len() + 1 == regions.len(),
        ;
    } else {
        assert(regions.len() * each == 0) by (nonlinear_arith)
            requires
                regions.len() == 0,
        ;
    }
}

} // verus!
