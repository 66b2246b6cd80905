//! Deduction: `n` lines, or columns, whose unknown cells are of `n` regions
//! at most.
//!
//! All the stars of these regions are then in these lines, so the cells of
//! these regions in other lines cannot hold a star. The deduction is not
//! looked for where the lines hold a star already. Cells that are known to
//! hold no star do not count, whatever their region.

use vstd::prelude::*;

use crate::grid::{value_at, GridView};
use crate::grid_good_ruler::good_rule::{deduction_of, no_star_actions, set_no_star_actions, Deduction};
use crate::grid_parser::{contains_region, first_appearances};
use crate::grid_parser_checker::contains_cell;
use crate::sequences::{
    first_some, lemma_filter_push_one, lemma_first_some_at, lemma_first_some_none,
};
use crate::CellValue;
use crate::GoodRule;
use crate::Grid;
use crate::GridHandler;
use crate::GridSurfer;
use crate::LineColumn;
use crate::Region;

verus! {

/// The spans of `n` consecutive lines of a grid of `nb_lines` lines, top to bottom.
pub open spec fn line_spans(nb_lines: int, n: int) -> Seq<GridSurfer> {
    if 0 < n <= nb_lines {
        Seq::new(
            (nb_lines - n + 1) as nat,
            |line: int| GridSurfer::Lines(line as usize, (line + n - 1) as usize),
        )
    } else {
        Seq::empty()
    }
}

/// The spans of `n` consecutive columns of a grid of `nb_columns` columns,
/// left to right.
pub open spec fn column_spans(nb_columns: int, n: int) -> Seq<GridSurfer> {
    if 0 < n <= nb_columns {
        Seq::new(
            (nb_columns - n + 1) as nat,
            |column: int| GridSurfer::Columns(column as usize, (column + n - 1) as usize),
        )
    } else {
        Seq::empty()
    }
}

impl GridHandler {
    /// The spans of `n` consecutive lines, then those of `n` consecutive columns.
    pub open spec fn spans(&self, n: int) -> Seq<GridSurfer> {
        line_spans(self.spec_nb_lines() as int, n) + column_spans(self.spec_nb_columns() as int, n)
    }

    /// The region of each of `cells`.
    pub open spec fn regions_at(&self, cells: Seq<LineColumn>) -> Seq<Region> {
        cells.map_values(|lc: LineColumn| self.spec_cell_region(lc))
    }

    /// The regions of the cells of the zone `zone` that are unknown in
    /// `cells`, each once, in the order in which a reading of the zone in
    /// row-major order meets them.
    pub open spec fn open_regions(&self, cells: GridView, zone: GridSurfer) -> Seq<Region> {
        first_appearances(self.regions_at(self.unknown_in(cells, zone)))
    }

    /// The test of the cells outside `zone` that are unknown in `cells` and
    /// of one of the regions `regions`.
    pub open spec fn excluded_test(
        &self,
        cells: GridView,
        zone: Seq<LineColumn>,
        regions: Seq<Region>,
    ) -> spec_fn(LineColumn) -> bool {
        |lc: LineColumn|
            !zone.contains(lc) && value_at(cells, lc) == CellValue::Unknown && regions.contains(
                self.spec_cell_region(lc),
            )
    }

    /// The deduction that the span `span` of `n` lines or columns gives in
    /// `cells`: if the span holds no star and its unknown cells are of `n`
    /// regions at most, no star in the unknown cells of these regions
    /// outside the span, if there are any.
    pub open spec fn exclusion_in(&self, cells: GridView, n: int, span: GridSurfer) -> Option<
        Deduction,
    > {
        let zone = self.zone_cells(span);
        let regions = self.open_regions(cells, span);
        let candidates = self.all_cells().filter(self.excluded_test(cells, zone, regions));
        if Self::count_in(cells, zone, CellValue::Star) > 0 || regions.len() > n
            || candidates.len() == 0 {
            None
        } else {
            Some(Deduction::ZoneExclusions(regions, span, no_star_actions(candidates)))
        }
    }

    /// [`GridHandler::exclusion_in`] as a function of the span.
    pub open spec fn exclusion_test(&self, cells: GridView, n: int) -> spec_fn(GridSurfer) -> Option<
        Deduction,
    > {
        |span: GridSurfer| self.exclusion_in(cells, n, span)
    }

    /// What [`rule_region_generic_exclusions`] finds in `cells`: the
    /// deduction of the first span of `n` lines that gives one or, if none
    /// does, of the first span of `n` columns that gives one.
    pub open spec fn region_exclusions(&self, cells: GridView, n: int) -> Option<Deduction> {
        first_some(self.spans(n), self.exclusion_test(cells, n))
    }

    /// The spans of `n` consecutive lines, then those of `n` consecutive columns.
    pub fn list_spans(&self, n: usize) -> (result: Vec<GridSurfer>)
        ensures
            result@ == self.spans(n as int),
    {
        let mut spans: Vec<GridSurfer> = Vec::new();
        let nb_lines = self.nb_lines();
        let nb_columns = self.nb_columns();
        let ghost lines = line_spans(nb_lines as int, n as int);
        let ghost columns = column_spans(nb_columns as int, n as int);
        if 0 < n && n <= nb_lines {
            let mut line: usize = 0;
            while line <= nb_lines - n
                invariant
                    0 < n <= nb_lines,
                    line <= nb_lines - n + 1,
                    lines == line_spans(nb_lines as int, n as int),
                    spans@ == lines.take(line as int),
                decreases nb_lines - n + 1 - line,
            {
                spans.push(GridSurfer::Lines(line, line + n - 1));
                proof {
                    assert(spans@ =~= lines.take(line as int + 1));
                }
                line += 1;
            }
            proof {
                assert(lines.take(lines.len() as int) =~= lines);
            }
        }
        proof {
            assert(spans@ =~= lines);
        }
        if 0 < n && n <= nb_columns {
            let mut column: usize = 0;
            while column <= nb_columns - n
                invariant
                    0 < n <= nb_columns,
                    column <= nb_columns - n + 1,
                    columns == column_spans(nb_columns as int, n as int),
                    spans@ == lines + columns.take(column as int),
                decreases nb_columns - n + 1 - column,
            {
                spans.push(GridSurfer::Columns(column, column + n - 1));
                proof {
                    assert(spans@ =~= lines + columns.take(column as int + 1));
                }
                column += 1;
            }
            proof {
                assert(columns.take(columns.len() as int) =~= columns);
            }
        }
        proof {
            assert(spans@ =~= lines + columns);
        }
        spans
    }

    /// The regions of `cells`, each once, in order of first appearance.
    pub fn list_regions_at(&self, cells: &Vec<LineColumn>) -> (result: Vec<Region>)
        requires
            forall|i: int| 0 <= i < cells@.len() ==> self.in_grid(#[trigger] cells@[i]),
        ensures
            result@ == first_appearances(self.regions_at(cells@)),
    {
        let ghost labels = self.regions_at(cells@);
        let mut vec_regions: Vec<Region> = Vec::new();
        let mut i: usize = 0;
        while i < cells.len()
            invariant
                i <= cells.len(),
                forall|k: int| 0 <= k < cells@.len() ==> self.in_grid(#[trigger] cells@[k]),
                labels == self.regions_at(cells@),
                vec_regions@ == first_appearances(labels.take(i as int)),
            decreases cells.len() - i,
        {
            let region = self.cell_region(cells[i]);
            proof {
                assert(labels.take(i as int + 1).drop_last() =~= labels.take(i as int));
                assert(labels.take(i as int + 1).last() == region);
            }
            if !contains_region(&vec_regions, region) {
                vec_regions.push(region);
            }
            i += 1;
        }
        proof {
            assert(labels.take(labels.len() as int) =~= labels);
        }
        vec_regions
    }
}

/// Looks for a line, or a column, whose unknown cells are all of one region.
pub fn rule_region_1_exclusions(handler: &GridHandler, grid: &Grid) -> (result: Option<GoodRule>)
    requires
        handler.accepts(grid),
    ensures
        deduction_of(result) == handler.region_exclusions(grid@, 1),
{
    rule_region_generic_exclusions(handler, grid, 1)
}

/// Looks for 2 lines, or columns, whose unknown cells are of 2 regions at most.
pub fn rule_region_2_exclusions(handler: &GridHandler, grid: &Grid) -> (result: Option<GoodRule>)
    requires
        handler.accepts(grid),
    ensures
        deduction_of(result) == handler.region_exclusions(grid@, 2),
{
    rule_region_generic_exclusions(handler, grid, 2)
}

/// Looks for 3 lines, or columns, whose unknown cells are of 3 regions at most.
pub fn rule_region_3_exclusions(handler: &GridHandler, grid: &Grid) -> (result: Option<GoodRule>)
    requires
        handler.accepts(grid),
    ensures
        deduction_of(result) == handler.region_exclusions(grid@, 3),
{
    rule_region_generic_exclusions(handler, grid, 3)
}

/// Looks for 4 lines, or columns, whose unknown cells are of 4 regions at most.
pub fn rule_region_4_exclusions(handler: &GridHandler, grid: &Grid) -> (result: Option<GoodRule>)
    requires
        handler.accepts(grid),
    ensures
        deduction_of(result) == handler.region_exclusions(grid@, 4),
{
    rule_region_generic_exclusions(handler, grid, 4)
}

/// Looks for `n` lines, or columns, whose unknown cells are of `n` regions at
/// most, and for unknown cells of these regions elsewhere.
pub fn rule_region_generic_exclusions(handler: &GridHandler, grid: &Grid, n: usize) -> (result:
    Option<GoodRule>)
    requires
        handler.accepts(grid),
    ensures
        deduction_of(result) == handler.region_exclusions(grid@, n as int),
{
    let spans = handler.list_spans(n);
    let ghost test = handler.exclusion_test(grid@, n as int);
    let mut i: usize = 0;
    while i < spans.len()
        invariant
            i <= spans.len(),
            handler.accepts(grid),
            spans@ == handler.spans(n as int),
            test == handler.exclusion_test(grid@, n as int),
            forall|k: int| 0 <= k < i ==> test(#[trigger] spans@[k]) is None,
        decreases spans.len() - i,
    {
        let grid_surfer = spans[i];
        if let Some((vec_regions, candidates)) = rule_region_more_generic_exclusions(
            handler,
            grid,
            n,
            &grid_surfer,
        ) {
            proof {
                lemma_first_some_at(spans@, test, i as int);
            }
            return Some(
                GoodRule::ZoneExclusions(vec_regions, grid_surfer, set_no_star_actions(&candidates)),
            );
        }
        i += 1;
    }
    proof {
        lemma_first_some_none(spans@, test);
    }
    None
}

/// Looks at the span `grid_surfer`: the regions of its unknown cells and the
/// unknown cells of these regions outside it, if the span holds no star, the
/// regions are `n` at most and there are such cells.
pub fn rule_region_more_generic_exclusions(
    handler: &GridHandler,
    grid: &Grid,
    n: usize,
    grid_surfer: &GridSurfer,
) -> (result: Option<(Vec<Region>, Vec<LineColumn>)>)
    requires
        handler.accepts(grid),
    ensures
        match result {
            Some((regions, candidates)) => handler.exclusion_in(grid@, n as int, *grid_surfer)
                == Some(
                Deduction::ZoneExclusions(regions@, *grid_surfer, no_star_actions(candidates@)),
            ),
            None => handler.exclusion_in(grid@, n as int, *grid_surfer) is None,
        },
{
    let surfer = handler.surfer(grid, grid_surfer);
    let (nb_stars, _) = handler.count_stars_and_unknown(grid, &surfer);
    if nb_stars > 0 {
        return None;
    }
    let unknown = handler.keep_unknown(grid, &surfer);
    let vec_regions = handler.list_regions_at(&unknown);
    if vec_regions.len() > n {
        return None;
    }
    let candidates = list_excluded(handler, grid, &surfer, &vec_regions);
    if candidates.len() == 0 {
        None
    } else {
        Some((vec_regions, candidates))
    }
}

/// The cells outside `surfer` that are unknown in `grid` and of one of the
/// regions `vec_regions`, in row-major order.
pub fn list_excluded(
    handler: &GridHandler,
    grid: &Grid,
    surfer: &Vec<LineColumn>,
    vec_regions: &Vec<Region>,
) -> (candidates: Vec<LineColumn>)
    requires
        handler.accepts(grid),
    ensures
        candidates@ == handler.all_cells().filter(
            handler.excluded_test(grid@, surfer@, vec_regions@),
        ),
{
    let all = handler.surfer(grid, &GridSurfer::AllCells);
    let ghost test = handler.excluded_test(grid@, surfer@, vec_regions@);
    proof {
        handler.lemma_zone_all_cells();
    }
    let mut candidates: Vec<LineColumn> = Vec::new();
    let mut i: usize = 0;
    while i < all.len()
        invariant
            i <= all.len(),
            handler.accepts(grid),
            all@ == handler.all_cells(),
            forall|k: int| 0 <= k < all@.len() ==> handler.in_grid(#[trigger] all@[k]),
            test == handler.excluded_test(grid@, surfer@, vec_regions@),
            candidates@ == all@.take(i as int).filter(test),
        decreases all.len() - i,
    {
        let line_column = all[i];
        proof {
            assert(all@.take(i as int + 1) =~= all@.take(i as int).push(line_column));
            lemma_filter_push_one(all@.take(i as int), test, line_column);
        }
        if !contains_cell(&surfer, line_column) {
            if grid.cell(line_column).is_unknown() && contains_region(
                &vec_regions,
                handler.cell_region(line_column),
            ) {
                candidates.push(line_column);
            }
        }
        i += 1;
    }
    proof {
        assert(all@.take(all@.len() as int) =~= all@);
    }
    candidates
}

} // verus!
