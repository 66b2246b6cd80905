//! Deduction: `n` regions that lie within `n` lines, or columns.
//!
//! All the stars of these lines are then in these regions, so the cells of
//! other regions in these lines cannot hold a star.

use vstd::prelude::*;

use crate::grid::{value_at, GridView};
use crate::grid_good_ruler::counting::is_choice_of;
use crate::grid_good_ruler::good_rule::{
    copy_regions, deduction_of, no_star_actions, set_no_star_actions, Deduction,
};
use crate::grid_parser::contains_region;
use crate::sequences::{
    first_some, lemma_filter_push_one, lemma_first_some_at, lemma_first_some_none,
};
use crate::CellValue;
use crate::GoodRule;
use crate::Grid;
use crate::GridHandler;
use crate::GridSurfer;
use crate::LineColumn;
use crate::Region;

verus! {

/// The combinations of `size` items of `items` that
/// `combination::combine::from_vec_at` lists, in its order.
pub uninterp spec fn combinations_of(items: Seq<Region>, size: nat) -> Seq<Seq<Region>>;

/// The items of each of `lists`.
pub open spec fn lists_view(lists: Seq<Vec<Region>>) -> Seq<Seq<Region>> {
    lists.map_values(|list: Vec<Region>| list@)
}

/// The least line of `cells`, or `usize::MAX` if there is none.
pub open spec fn least_line(cells: Seq<LineColumn>) -> int
    decreases cells.len(),
{
    if cells.len() == 0 {
        usize::MAX as int
    } else if cells.last().line < least_line(cells.drop_last()) {
        cells.last().line as int
    } else {
        least_line(cells.drop_last())
    }
}

/// The greatest line of `cells`, or 0 if there is none.
pub open spec fn greatest_line(cells: Seq<LineColumn>) -> int
    decreases cells.len(),
{
    if cells.len() == 0 {
        0
    } else if cells.last().line > greatest_line(cells.drop_last()) {
        cells.last().line as int
    } else {
        greatest_line(cells.drop_last())
    }
}

/// The least column of `cells`, or `usize::MAX` if there is none.
pub open spec fn least_column(cells: Seq<LineColumn>) -> int
    decreases cells.len(),
{
    if cells.len() == 0 {
        usize::MAX as int
    } else if cells.last().column < least_column(cells.drop_last()) {
        cells.last().column as int
    } else {
        least_column(cells.drop_last())
    }
}

/// The greatest column of `cells`, or 0 if there is none.
pub open spec fn greatest_column(cells: Seq<LineColumn>) -> int
    decreases cells.len(),
{
    if cells.len() == 0 {
        0
    } else if cells.last().column > greatest_column(cells.drop_last()) {
        cells.last().column as int
    } else {
        greatest_column(cells.drop_last())
    }
}

/// The least and greatest line and column of a list of cells are those of
/// cells of the list, and bound the others.
pub proof fn lemma_bounds(cells: Seq<LineColumn>)
    requires
        cells.len() > 0,
    ensures
        0 <= least_line(cells) <= greatest_line(cells) <= usize::MAX,
        0 <= least_column(cells) <= greatest_column(cells) <= usize::MAX,
        forall|i: int|
            0 <= i < cells.len() ==> least_line(cells) <= (#[trigger] cells[i]).line
                <= greatest_line(cells) && least_column(cells) <= cells[i].column
                <= greatest_column(cells),
        exists|i: int| 0 <= i < cells.len() && (#[trigger] cells[i]).line == least_line(cells),
        exists|i: int| 0 <= i < cells.len() && (#[trigger] cells[i]).line == greatest_line(cells),
        exists|i: int| 0 <= i < cells.len() && (#[trigger] cells[i]).column == least_column(cells),
        exists|i: int|
            0 <= i < cells.len() && (#[trigger] cells[i]).column == greatest_column(cells),
    decreases cells.len(),
{
    let front = cells.drop_last();
    let last = cells.len() - 1;
    if front.len() > 0 {
        lemma_bounds(front);
        assert forall|i: int| 0 <= i < cells.len() implies least_line(cells) <= (#[trigger] cells[i]).line
            <= greatest_line(cells) && least_column(cells) <= cells[i].column <= greatest_column(
            cells,
        ) by {
            if i < front.len() {
                assert(front[i] == cells[i]);
            }
        }
        let a = choose|i: int| 0 <= i < front.len() && (#[trigger] front[i]).line == least_line(front);
        let b = choose|i: int|
            0 <= i < front.len() && (#[trigger] front[i]).line == greatest_line(front);
        let c = choose|i: int|
            0 <= i < front.len() && (#[trigger] front[i]).column == least_column(front);
        let d = choose|i: int|
            0 <= i < front.len() && (#[trigger] front[i]).column == greatest_column(front);
        assert(cells[a] == front[a] && cells[b] == front[b] && cells[c] == front[c] && cells[d]
            == front[d]);
        assert(cells[if cells[last].line < least_line(front) { last } else { a }].line == least_line(cells));
        assert(cells[if cells[last].line > greatest_line(front) { last } else { b }].line == greatest_line(cells));
        assert(cells[if cells[last].column < least_column(front) { last } else { c }].column == least_column(cells));
        assert(cells[if cells[last].column > greatest_column(front) { last } else { d }].column == greatest_column(cells));
    } else {
        assert(least_line(front) == usize::MAX && greatest_line(front) == 0);
        assert(least_column(front) == usize::MAX && greatest_column(front) == 0);
        assert(cells[0].line == least_line(cells));
        assert(cells[0].line == greatest_line(cells));
        assert(cells[0].column == least_column(cells));
        assert(cells[0].column == greatest_column(cells));
    }
}

impl GridHandler {
    /// The test of the cells of one of the regions `regions`.
    pub open spec fn member_test(&self, regions: Seq<Region>) -> spec_fn(LineColumn) -> bool {
        |lc: LineColumn| regions.contains(self.spec_cell_region(lc))
    }

    /// The test of the cells that are unknown in `cells` and of none of the
    /// regions `regions`.
    pub open spec fn stranger_test(&self, cells: GridView, regions: Seq<Region>) -> spec_fn(
        LineColumn,
    ) -> bool {
        |lc: LineColumn|
            value_at(cells, lc) == CellValue::Unknown && !regions.contains(
                self.spec_cell_region(lc),
            )
    }

    /// The deduction that the regions `regions` give in the span `span`: no
    /// star in the unknown cells of the span that are of other regions, if
    /// there are any.
    pub open spec fn strangers_in(&self, cells: GridView, regions: Seq<Region>, span: GridSurfer) -> Option<
        Deduction,
    > {
        let candidates = self.zone_cells(span).filter(self.stranger_test(cells, regions));
        if candidates.len() > 0 {
            Some(Deduction::ZoneCombinations(regions, span, no_star_actions(candidates)))
        } else {
            None
        }
    }

    /// The deduction that the regions `regions` give in `cells`: if they have
    /// cells and these lie within `n` lines, no star in the unknown cells of
    /// other regions in these lines, if there are any; else, if they lie
    /// within `n` columns, the same in these columns.
    pub open spec fn combination_in(&self, cells: GridView, n: int, regions: Seq<Region>) -> Option<
        Deduction,
    > {
        let members = self.all_cells().filter(self.member_test(regions));
        let lines = GridSurfer::Lines(
            least_line(members) as usize,
            greatest_line(members) as usize,
        );
        let columns = GridSurfer::Columns(
            least_column(members) as usize,
            greatest_column(members) as usize,
        );
        if members.len() == 0 {
            None
        } else if greatest_line(members) - least_line(members) + 1 == n && self.strangers_in(
            cells,
            regions,
            lines,
        ) is Some {
            self.strangers_in(cells, regions, lines)
        } else if greatest_column(members) - least_column(members) + 1 == n {
            self.strangers_in(cells, regions, columns)
        } else {
            None
        }
    }

    /// [`GridHandler::combination_in`] as a function of the regions.
    pub open spec fn combination_test(&self, cells: GridView, n: int) -> spec_fn(Seq<Region>) -> Option<
        Deduction,
    > {
        |regions: Seq<Region>| self.combination_in(cells, n, regions)
    }

    /// What [`rule_region_combinations_among`] finds in `cells`: the
    /// deduction of the first of the lists of regions `combinations` that
    /// gives one.
    pub open spec fn region_combinations_among(
        &self,
        cells: GridView,
        n: int,
        combinations: Seq<Seq<Region>>,
    ) -> Option<Deduction> {
        first_some(combinations, self.combination_test(cells, n))
    }

    /// A deduction found among lists of regions names one of the lists.
    pub proof fn lemma_combination_found(
        &self,
        cells: GridView,
        n: int,
        combinations: Seq<Seq<Region>>,
    )
        requires
            self.region_combinations_among(cells, n, combinations) is Some,
        ensures
            self.region_combinations_among(cells, n, combinations) matches Some(
                Deduction::ZoneCombinations(regions, _, _),
            ) && combinations.contains(regions),
    {
        let i = crate::sequences::lemma_first_some_witness(
            combinations,
            self.combination_test(cells, n),
        );
        assert(combinations.contains(combinations[i]));
    }

    /// What [`rule_region_generic_combinations`] finds in `cells`: the
    /// deduction of the first combination of `n` regions that gives one.
    pub open spec fn region_combinations(&self, cells: GridView, n: nat) -> Option<Deduction> {
        self.region_combinations_among(cells, n as int, combinations_of(self.spec_regions(), n))
    }
}

/// The combinations of `size` of the regions `regions`.
///
/// Calls `combination::combine::from_vec_at`, which lists the ways to pick
/// `size` items of a vector. Nothing is proved of it. Its result has a name,
/// [`combinations_of`], and the contract says that this is what comes back,
/// and that each list that comes back holds `size` items of `regions`, taken
/// at different places: so no item twice, if `regions` holds none twice.
#[verifier::external_body]
fn region_combinations(regions: &Vec<Region>, size: usize) -> (result: Vec<Vec<Region>>)
    ensures
        lists_view(result@) == combinations_of(regions@, size as nat),
        forall|i: int|
            0 <= i < result@.len() ==> is_choice_of((#[trigger] result@[i])@, regions@, size as nat),
{
    combination::combine::from_vec_at(regions, size)
}

/// Looks for a region that lies within one line, or one column.
pub fn rule_region_1_combinations(handler: &GridHandler, grid: &Grid) -> (result: Option<GoodRule>)
    requires
        handler.accepts(grid),
    ensures
        deduction_of(result) == handler.region_combinations(grid@, 1),
        result matches Some(GoodRule::ZoneCombinations(regions, _, _)) ==> is_choice_of(
            regions@,
            handler.spec_regions(),
            1,
        ),
        forall|solution: GridView|
            #[trigger] handler.leads_to(grid@, solution) && result is Some
                ==> GridHandler::agree_with(solution, result->0@.actions()),
{
    rule_region_generic_combinations(handler, grid, 1)
}

/// Looks for 2 regions that lie within 2 lines, or 2 columns.
pub fn rule_region_2_combinations(handler: &GridHandler, grid: &Grid) -> (result: Option<GoodRule>)
    requires
        handler.accepts(grid),
    ensures
        deduction_of(result) == handler.region_combinations(grid@, 2),
        result matches Some(GoodRule::ZoneCombinations(regions, _, _)) ==> is_choice_of(
            regions@,
            handler.spec_regions(),
            2,
        ),
        forall|solution: GridView|
            #[trigger] handler.leads_to(grid@, solution) && result is Some
                ==> GridHandler::agree_with(solution, result->0@.actions()),
{
    rule_region_generic_combinations(handler, grid, 2)
}

/// Looks for 3 regions that lie within 3 lines, or 3 columns.
pub fn rule_region_3_combinations(handler: &GridHandler, grid: &Grid) -> (result: Option<GoodRule>)
    requires
        handler.accepts(grid),
    ensures
        deduction_of(result) == handler.region_combinations(grid@, 3),
        result matches Some(GoodRule::ZoneCombinations(regions, _, _)) ==> is_choice_of(
            regions@,
            handler.spec_regions(),
            3,
        ),
        forall|solution: GridView|
            #[trigger] handler.leads_to(grid@, solution) && result is Some
                ==> GridHandler::agree_with(solution, result->0@.actions()),
{
    rule_region_generic_combinations(handler, grid, 3)
}

/// Looks for 4 regions that lie within 4 lines, or 4 columns.
pub fn rule_region_4_combinations(handler: &GridHandler, grid: &Grid) -> (result: Option<GoodRule>)
    requires
        handler.accepts(grid),
    ensures
        deduction_of(result) == handler.region_combinations(grid@, 4),
        result matches Some(GoodRule::ZoneCombinations(regions, _, _)) ==> is_choice_of(
            regions@,
            handler.spec_regions(),
            4,
        ),
        forall|solution: GridView|
            #[trigger] handler.leads_to(grid@, solution) && result is Some
                ==> GridHandler::agree_with(solution, result->0@.actions()),
{
    rule_region_generic_combinations(handler, grid, 4)
}

/// Looks for `n` regions that lie within `n` lines, or `n` columns, and for
/// unknown cells of other regions there.
pub fn rule_region_generic_combinations(handler: &GridHandler, grid: &Grid, n: usize) -> (result:
    Option<GoodRule>)
    requires
        handler.accepts(grid),
    ensures
        deduction_of(result) == handler.region_combinations(grid@, n as nat),
        result matches Some(GoodRule::ZoneCombinations(regions, _, _)) ==> is_choice_of(
            regions@,
            handler.spec_regions(),
            n as nat,
        ),
        forall|solution: GridView|
            #[trigger] handler.leads_to(grid@, solution) && result is Some
                ==> GridHandler::agree_with(solution, result->0@.actions()),
{
    let combinations = region_combinations(&handler.regions(), n);
    let result = rule_region_combinations_among(handler, grid, n, &combinations);
    proof {
        use_type_invariant(handler);
        let lists = lists_view(combinations@);
        assert forall|i: int| 0 <= i < lists.len() implies is_choice_of(
            #[trigger] lists[i],
            handler.spec_regions(),
            n as nat,
        ) by {
            assert(lists[i] == combinations@[i]@);
        }
        if result is Some {
            handler.lemma_combination_found(grid@, n as int, lists);
        }
        assert forall|solution: GridView|
            #[trigger] handler.leads_to(grid@, solution)
                && result is Some implies GridHandler::agree_with(
            solution,
            result->0@.actions(),
        ) by {
            handler.lemma_region_combinations_sound(grid@, solution, n as int, lists);
        }
    }
    result
}

/// Looks among the lists of regions `combinations` for one whose regions lie
/// within `n` lines, or `n` columns, with unknown cells of other regions there.
pub fn rule_region_combinations_among(
    handler: &GridHandler,
    grid: &Grid,
    n: usize,
    combinations: &Vec<Vec<Region>>,
) -> (result: Option<GoodRule>)
    requires
        handler.accepts(grid),
    ensures
        deduction_of(result) == handler.region_combinations_among(
            grid@,
            n as int,
            lists_view(combinations@),
        ),
{
    let ghost lists = lists_view(combinations@);
    let ghost test = handler.combination_test(grid@, n as int);
    let mut i: usize = 0;
    while i < combinations.len()
        invariant
            i <= combinations.len(),
            handler.accepts(grid),
            lists == lists_view(combinations@),
            test == handler.combination_test(grid@, n as int),
            forall|k: int| 0 <= k < i ==> test(#[trigger] lists[k]) is None,
        decreases combinations.len() - i,
    {
        if let Some(rule) = try_region_combination(handler, grid, n, &combinations[i]) {
            proof {
                lemma_first_some_at(lists, test, i as int);
            }
            return Some(rule);
        }
        i += 1;
    }
    proof {
        lemma_first_some_none(lists, test);
    }
    None
}

/// Looks at the regions `vec_regions`: do they lie within `n` lines, or `n`
/// columns, with unknown cells of other regions there?
pub fn try_region_combination(
    handler: &GridHandler,
    grid: &Grid,
    n: usize,
    vec_regions: &Vec<Region>,
) -> (result: Option<GoodRule>)
    requires
        handler.accepts(grid),
    ensures
        deduction_of(result) == handler.combination_in(grid@, n as int, vec_regions@),
{
    let ghost members = handler.all_cells().filter(handler.member_test(vec_regions@));
    let (found, min_line, max_line, min_column, max_column) = bounding_box(
        handler,
        grid,
        vec_regions,
    );
    if !found {
        return None;
    }
    proof {
        lemma_bounds(members);
    }
    if n > 0 && max_line - min_line == n - 1 {
        let grid_surfer = GridSurfer::Lines(min_line, max_line);
        if let Some(rule) = try_strangers(handler, grid, vec_regions, &grid_surfer) {
            return Some(rule);
        }
    }
    if n > 0 && max_column - min_column == n - 1 {
        let grid_surfer = GridSurfer::Columns(min_column, max_column);
        return try_strangers(handler, grid, vec_regions, &grid_surfer);
    }
    None
}

/// Looks in the span `grid_surfer` for unknown cells that are of none of the
/// regions `vec_regions`.
pub fn try_strangers(
    handler: &GridHandler,
    grid: &Grid,
    vec_regions: &Vec<Region>,
    grid_surfer: &GridSurfer,
) -> (result: Option<GoodRule>)
    requires
        handler.accepts(grid),
    ensures
        deduction_of(result) == handler.strangers_in(grid@, vec_regions@, *grid_surfer),
{
    let surfer = handler.surfer(grid, grid_surfer);
    let ghost test = handler.stranger_test(grid@, vec_regions@);
    let mut candidates: Vec<LineColumn> = Vec::new();
    let mut i: usize = 0;
    while i < surfer.len()
        invariant
            i <= surfer.len(),
            handler.accepts(grid),
            forall|k: int| 0 <= k < surfer@.len() ==> handler.in_grid(#[trigger] surfer@[k]),
            test == handler.stranger_test(grid@, vec_regions@),
            candidates@ == surfer@.take(i as int).filter(test),
        decreases surfer.len() - i,
    {
        let line_column = surfer[i];
        proof {
            assert(surfer@.take(i as int + 1) =~= surfer@.take(i as int).push(line_column));
            lemma_filter_push_one(surfer@.take(i as int), test, line_column);
        }
        if grid.cell(line_column).is_unknown() && !contains_region(
            vec_regions,
            handler.cell_region(line_column),
        ) {
            candidates.push(line_column);
        }
        i += 1;
    }
    proof {
        assert(surfer@.take(surfer@.len() as int) =~= surfer@);
    }
    if candidates.len() > 0 {
        let regions = copy_regions(vec_regions);
        Some(GoodRule::ZoneCombinations(regions, *grid_surfer, set_no_star_actions(&candidates)))
    } else {
        None
    }
}

/// Whether the regions `vec_regions` have cells, and the least and greatest
/// line, then column, of these cells.
pub fn bounding_box(handler: &GridHandler, grid: &Grid, vec_regions: &Vec<Region>) -> (result: (
    bool,
    usize,
    usize,
    usize,
    usize,
))
    requires
        handler.accepts(grid),
    ensures
        ({
            let members = handler.all_cells().filter(handler.member_test(vec_regions@));
            &&& result.0 == (members.len() > 0)
            &&& result.1 == least_line(members)
            &&& result.2 == greatest_line(members)
            &&& result.3 == least_column(members)
            &&& result.4 == greatest_column(members)
        }),
{
    let all_cells = handler.surfer(grid, &GridSurfer::AllCells);
    let ghost test = handler.member_test(vec_regions@);
    proof {
        handler.lemma_zone_all_cells();
    }
    let mut found = false;
    let mut min_line = usize::MAX;
    let mut max_line: usize = 0;
    let mut min_column = usize::MAX;
    let mut max_column: usize = 0;
    let mut i: usize = 0;
    while i < all_cells.len()
        invariant
            i <= all_cells.len(),
            all_cells@ == handler.all_cells(),
            forall|k: int| 0 <= k < all_cells@.len() ==> handler.in_grid(#[trigger] all_cells@[k]),
            test == handler.member_test(vec_regions@),
            found == (all_cells@.take(i as int).filter(test).len() > 0),
            min_line == least_line(all_cells@.take(i as int).filter(test)),
            max_line == greatest_line(all_cells@.take(i as int).filter(test)),
            min_column == least_column(all_cells@.take(i as int).filter(test)),
            max_column == greatest_column(all_cells@.take(i as int).filter(test)),
        decreases all_cells.len() - i,
    {
        let line_column = all_cells[i];
        proof {
            assert(all_cells@.take(i as int + 1) =~= all_cells@.take(i as int).push(line_column));
            lemma_filter_push_one(all_cells@.take(i as int), test, line_column);
            let members = all_cells@.take(i as int).filter(test);
            assert(members.push(line_column).drop_last() =~= members);
        }
        if contains_region(vec_regions, handler.cell_region(line_column)) {
            found = true;
            let (line, column) = (line_column.line, line_column.column);
            if line < min_line {
                min_line = line;
            }
            if line > max_line {
                max_line = line;
            }
            if column < min_column {
                min_column = column;
            }
            if column > max_column {
                max_column = column;
            }
        }
        i += 1;
    }
    proof {
        assert(all_cells@.take(all_cells@.len() as int) =~= all_cells@);
    }
    (found, min_line, max_line, min_column, max_column)
}

} // verus!
