//! Zones of the grid, and the cells that each one holds.

use vstd::prelude::*;
use vstd::string::StringExecFns;

use crate::grid::{value_at, GridView};
use crate::line_column::{
    column_label, display_column, display_line, has_column_label, line_label,
};
use crate::grid_handler::{lemma_filter_row_major, row_major};
use crate::sequences::{lemma_filter_everything, lemma_filter_push_one};
use crate::CellValue;
use crate::Grid;
use crate::GridHandler;
use crate::LineColumn;
use crate::Region;

verus! {

/// A zone: a set of cells of the grid, named by what they have in common.
#[derive(Clone, Copy, Debug, PartialEq, Eq, Structural)]
pub enum GridSurfer {
    /// All the cells of the grid.
    AllCells,
    /// The cells of a region.
    Region(Region),
    /// The cells that touch a given cell, diagonals included.
    Adjacent(LineColumn),
    /// The cells of a line.
    Line(usize),
    /// The cells of a column.
    Column(usize),
    /// The cells of consecutive lines, from the first to the second, both included.
    Lines(usize, usize),
    /// The cells of consecutive columns, from the first to the second, both included.
    Columns(usize, usize),
}

/// The zone of the region `region`.
pub open spec fn region_zone(region: Region) -> GridSurfer {
    GridSurfer::Region(region)
}

impl GridHandler {
    /// The cell `lc` of the grid belongs to the zone `zone`.
    pub open spec fn in_zone(&self, zone: GridSurfer, lc: LineColumn) -> bool {
        match zone {
            GridSurfer::AllCells => true,
            GridSurfer::Region(region) => self.spec_cell_region(lc) == region,
            GridSurfer::Adjacent(center) => center.touches(lc),
            GridSurfer::Line(line) => lc.line == line,
            GridSurfer::Column(column) => lc.column == column,
            GridSurfer::Lines(first, last) => first <= lc.line <= last,
            GridSurfer::Columns(first, last) => first <= lc.column <= last,
        }
    }

    /// The test that [`GridHandler::zone_cells`] filters the cells of the grid with.
    pub open spec fn zone_test(&self, zone: GridSurfer) -> spec_fn(LineColumn) -> bool {
        |lc: LineColumn| self.in_zone(zone, lc)
    }

    /// The cells of the zone `zone`, in row-major order.
    pub open spec fn zone_cells(&self, zone: GridSurfer) -> Seq<LineColumn> {
        self.all_cells().filter(self.zone_test(zone))
    }

    /// The test that [`GridHandler::count_in`] counts with.
    pub open spec fn value_test(cells: GridView, value: CellValue) -> spec_fn(LineColumn) -> bool {
        |lc: LineColumn| value_at(cells, lc) == value
    }

    /// Number of items of `zone` whose cell has the value `value` in the grid
    /// content `cells`.
    pub open spec fn count_in(cells: GridView, zone: Seq<LineColumn>, value: CellValue) -> nat {
        zone.filter(Self::value_test(cells, value)).len()
    }

    /// The zone `zone` holds exactly the cells of the grid that belong to it,
    /// each once, in row-major order.
    pub proof fn lemma_zone_cells(&self, zone: GridSurfer)
        ensures
            forall|lc: LineColumn|
                self.zone_cells(zone).contains(lc) <==> (self.in_grid(lc) && self.in_zone(
                    zone,
                    lc,
                )),
            row_major(self.zone_cells(zone)),
            self.zone_cells(zone).no_duplicates(),
    {
        self.lemma_all_cells();
        let all = self.all_cells();
        let test = self.zone_test(zone);
        let cells = self.zone_cells(zone);
        assert forall|lc: LineColumn|
            cells.contains(lc) <==> (self.in_grid(lc) && self.in_zone(zone, lc)) by {
            if cells.contains(lc) {
                all.lemma_filter_contains_rev(test, lc);
            }
            if self.in_grid(lc) && self.in_zone(zone, lc) {
                assert(all.contains(lc));
                let i = choose|i: int| 0 <= i < all.len() && all[i] == lc;
                all.lemma_filter_contains(test, i);
            }
        }
        lemma_filter_row_major(all, test);
        crate::grid_handler::lemma_row_major_no_duplicates(cells);
    }

    /// The zone of all the cells holds the cells of the grid.
    pub proof fn lemma_zone_all_cells(&self)
        ensures
            self.zone_cells(GridSurfer::AllCells) == self.all_cells(),
    {
        lemma_filter_everything(self.all_cells(), self.zone_test(GridSurfer::AllCells));
    }

    /// The cells of the zone `surfer`, in row-major order.
    ///
    /// The list depends on the puzzle and on the zone only, not on what the
    /// cells of `grid` hold.
    #[must_use]
    pub fn surfer(&self, grid: &Grid, surfer: &GridSurfer) -> (result: Vec<LineColumn>)
        ensures
            result@ == self.zone_cells(*surfer),
            forall|i: int| 0 <= i < result@.len() ==> self.in_grid(#[trigger] result@[i]),
    {
        let cells = self.zone_list(surfer);
        proof {
            self.lemma_zone_cells(*surfer);
            assert forall|i: int| 0 <= i < cells@.len() implies self.in_grid(#[trigger] cells@[i]) by {
                assert(cells@.contains(cells@[i]));
            }
        }
        cells
    }

    /// The cells of the zone `surfer`, in row-major order.
    pub(crate) fn zone_list(&self, surfer: &GridSurfer) -> (result: Vec<LineColumn>)
        ensures
            result@ == self.zone_cells(*surfer),
    {
        let nb_lines = self.nb_lines();
        let nb_columns = self.nb_columns();
        let ghost test = self.zone_test(*surfer);
        let mut cells: Vec<LineColumn> = Vec::new();
        let mut line: usize = 0;
        while line < nb_lines
            invariant
                line <= nb_lines,
                nb_lines == self.spec_nb_lines(),
                nb_columns == self.spec_nb_columns(),
                test == self.zone_test(*surfer),
                cells@ == self.cells_before(line as int).filter(test),
            decreases nb_lines - line,
        {
            let ghost before = self.cells_before(line as int);
            let ghost row = self.line_cells(line as int);
            let mut column: usize = 0;
            while column < nb_columns
                invariant
                    line < nb_lines,
                    column <= nb_columns,
                    nb_lines == self.spec_nb_lines(),
                    nb_columns == self.spec_nb_columns(),
                    test == self.zone_test(*surfer),
                    before == self.cells_before(line as int),
                    row == self.line_cells(line as int),
                    cells@ == (before + row.take(column as int)).filter(test),
                decreases nb_columns - column,
            {
                let line_column = LineColumn::new(line, column);
                let cell_is_matching = match surfer {
                    GridSurfer::AllCells => true,
                    GridSurfer::Region(region) => self.cell_region(line_column) == *region,
                    GridSurfer::Adjacent(center) => {
                        line_column != *center && center.line <= line + 1 && (line == 0 || line
                            - 1 <= center.line) && center.column <= column + 1 && (column == 0
                            || column - 1 <= center.column)
                    },
                    GridSurfer::Line(select_line) => *select_line == line,
                    GridSurfer::Column(select_column) => *select_column == column,
                    GridSurfer::Lines(first, last) => *first <= line && line <= *last,
                    GridSurfer::Columns(first, last) => *first <= column && column <= *last,
                };
                proof {
                    assert(row[column as int] == line_column);
                    assert(before + row.take(column as int + 1) =~= (before + row.take(
                        column as int,
                    )).push(line_column));
                    lemma_filter_push_one(before + row.take(column as int), test, line_column);
                    assert(cell_is_matching == test(line_column));
                }
                if cell_is_matching {
                    cells.push(line_column);
                }
                column += 1;
            }
            proof {
                assert(row.take(nb_columns as int) =~= row);
                assert(self.cells_before(line as int + 1) == before + row);
            }
            line += 1;
        }
        cells
    }

    /// Number of cells of the zone `surfer`.
    #[must_use]
    pub fn surfer_cells_count(&self, grid: &Grid, surfer: &GridSurfer) -> (result: usize)
        ensures
            result == self.zone_cells(*surfer).len(),
    {
        self.surfer(grid, surfer).len()
    }

    /// Number of cells of the zone `surfer` that hold `value` in `grid`.
    #[must_use]
    pub fn surfer_cells_with_value_count(
        &self,
        grid: &Grid,
        surfer: &GridSurfer,
        value: &CellValue,
    ) -> (result: usize)
        requires
            self.accepts(grid),
        ensures
            result == Self::count_in(grid@, self.zone_cells(*surfer), *value),
    {
        let cells = self.surfer(grid, surfer);
        proof {
            self.lemma_zone_cells(*surfer);
        }
        self.count_cells_with_value(grid, &cells, *value)
    }

    /// Number of items of `cells` whose cell holds `value` in `grid`.
    pub fn count_cells_with_value(
        &self,
        grid: &Grid,
        cells: &Vec<LineColumn>,
        value: CellValue,
    ) -> (result: usize)
        requires
            self.accepts(grid),
            forall|i: int| 0 <= i < cells@.len() ==> self.in_grid(#[trigger] cells@[i]),
        ensures
            result == Self::count_in(grid@, cells@, value),
    {
        let ghost test = Self::value_test(grid@, value);
        let mut count: usize = 0;
        let mut i: usize = 0;
        while i < cells.len()
            invariant
                i <= cells.len(),
                self.accepts(grid),
                forall|k: int| 0 <= k < cells@.len() ==> self.in_grid(#[trigger] cells@[k]),
                test == Self::value_test(grid@, value),
                count == cells@.take(i as int).filter(test).len(),
                count <= i,
            decreases cells.len() - i,
        {
            let line_column = cells[i];
            proof {
                assert(cells@.take(i as int + 1) =~= cells@.take(i as int).push(line_column));
                lemma_filter_push_one(cells@.take(i as int), test, line_column);
            }
            if grid.cell(line_column).value == value {
                count += 1;
            }
            i += 1;
        }
        proof {
            assert(cells@.take(cells@.len() as int) =~= cells@);
        }
        count
    }
}

impl GridSurfer {
    /// The columns and the cell that the zone names have labels.
    pub open spec fn has_labels(self) -> bool {
        match self {
            Self::Adjacent(center) => has_column_label(center.column),
            Self::Column(column) => has_column_label(column),
            Self::Columns(first, last) => has_column_label(first) && has_column_label(last),
            _ => true,
        }
    }

    /// The text that names the zone.
    pub open spec fn text(self) -> Seq<char> {
        match self {
            Self::AllCells => "Toute la grille"@,
            Self::Region(region) => "Region '"@.push(region) + "'"@,
            Self::Adjacent(center) => "Cases adjacentes à '"@ + center.text() + "'"@,
            Self::Line(line) => "Ligne "@ + line_label(line),
            Self::Column(column) => "Colonne "@ + column_label(column),
            Self::Lines(first, last) => "Lignes "@ + line_label(first) + "-"@ + line_label(last),
            Self::Columns(first, last) => "Colonnes "@ + column_label(first) + "-"@ + column_label(
                last,
            ),
        }
    }

    /// The text that names the zone.
    pub fn to_text(&self) -> (result: String)
        requires
            self.has_labels(),
        ensures
            result@ == self.text(),
    {
        let mut text = String::new();
        match self {
            Self::AllCells => {
                text.append("Toute la grille");
            },
            Self::Region(region) => {
                text.append("Region '");
                text.push(*region);
                text.append("'");
            },
            Self::Adjacent(center) => {
                text.append("Cases adjacentes à '");
                text.append(center.to_text().as_str());
                text.append("'");
            },
            Self::Line(line) => {
                text.append("Ligne ");
                text.append(display_line(*line).as_str());
            },
            Self::Column(column) => {
                text.append("Colonne ");
                text.append(display_column(*column).as_str());
            },
            Self::Lines(first, last) => {
                text.append("Lignes ");
                text.append(display_line(*first).as_str());
                text.append("-");
                text.append(display_line(*last).as_str());
            },
            Self::Columns(first, last) => {
                text.append("Colonnes ");
                text.append(display_column(*first).as_str());
                text.append("-");
                text.append(display_column(*last).as_str());
            },
        }
        proof {
            assert(text@ =~= self.text());
        }
        text
    }
}

} // verus!
