//! Contents of the cells of a grid.

use vstd::prelude::*;

use vstd::std_specs::convert::FromSpecImpl;

use crate::CellValue;
use crate::GridCell;
use crate::GridHandler;
use crate::LineColumn;
use crate::Region;

verus! {

/// The mathematical content of a grid: its lines, top to bottom, each one the
/// cells of that line, left to right.
pub type GridView = Seq<Seq<GridCell>>;

/// The positions of line `line` in a grid of `nb_columns` columns, left to right.
pub open spec fn line_positions(line: int, nb_columns: int) -> Seq<LineColumn> {
    Seq::new(
        nb_columns as nat,
        |column: int| LineColumn { line: line as usize, column: column as usize },
    )
}

/// The positions of the lines above line `line` in a grid of `nb_columns`
/// columns, in row-major order: line by line from the top, each line from the
/// left.
pub open spec fn positions_before(line: int, nb_columns: int) -> Seq<LineColumn>
    decreases line,
{
    if line <= 0 {
        Seq::empty()
    } else {
        positions_before(line - 1, nb_columns) + line_positions(line - 1, nb_columns)
    }
}

/// Value of the cell at `lc` in the grid content `cells`.
pub open spec fn value_at(cells: GridView, lc: LineColumn) -> CellValue {
    cells[lc.line as int][lc.column as int].value
}

/// The grid content `cells` after the cell at `lc` has been given the value `value`.
pub open spec fn with_value(cells: GridView, lc: LineColumn, value: CellValue) -> GridView {
    cells.update(
        lc.line as int,
        cells[lc.line as int].update(
            lc.column as int,
            GridCell { value, ..cells[lc.line as int][lc.column as int] },
        ),
    )
}

/// `cells` has `nb_lines` lines of `nb_columns` cells each.
pub open spec fn has_shape(cells: GridView, nb_lines: int, nb_columns: int) -> bool {
    &&& cells.len() == nb_lines
    &&& forall|l: int| 0 <= l < cells.len() ==> (#[trigger] cells[l]).len() == nb_columns
}

/// `after` has the shape of `before`, and each of its cells is the cell of
/// `before` at the same place, but possibly for its value.
pub open spec fn same_layout(before: GridView, after: GridView) -> bool {
    &&& after.len() == before.len()
    &&& forall|l: int|
        0 <= l < before.len() ==> (#[trigger] after[l]).len() == before[l].len()
    &&& forall|l: int, c: int|
        0 <= l < before.len() && 0 <= c < before[l].len() ==> {
            &&& (#[trigger] after[l][c]).line_column == before[l][c].line_column
            &&& after[l][c].region == before[l][c].region
        }
}

/// Cells of a grid, with what is known of each.
///
/// The size is fixed when the grid is built.
#[derive(Debug, Default, PartialEq, Eq, Hash)]
pub struct Grid {
    /// Size of the grid.
    size: LineColumn,
    /// Cells of the grid, line by line.
    cells: Vec<Vec<GridCell>>,
}

impl View for Grid {
    type V = GridView;

    closed spec fn view(&self) -> GridView {
        Seq::new(self.cells@.len(), |l: int| self.cells@[l]@)
    }
}

impl Clone for Grid {
    /// A copy of the grid: same size, same cells.
    fn clone(&self) -> (result: Self)
        ensures
            result@ == self@,
            result.spec_nb_lines() == self.spec_nb_lines(),
            result.spec_nb_columns() == self.spec_nb_columns(),
    {
        let mut cells: Vec<Vec<GridCell>> = Vec::new();
        let mut line: usize = 0;
        while line < self.cells.len()
            invariant
                line <= self.cells.len(),
                cells@.len() == line,
                forall|l: int| 0 <= l < line ==> (#[trigger] cells@[l])@ == self.cells@[l]@,
            decreases self.cells.len() - line,
        {
            let source = &self.cells[line];
            let mut cells_line: Vec<GridCell> = Vec::new();
            let mut column: usize = 0;
            while column < source.len()
                invariant
                    column <= source.len(),
                    cells_line@ == source@.take(column as int),
                decreases source.len() - column,
            {
                cells_line.push(source[column]);
                proof {
                    assert(source@.take(column as int + 1) =~= source@.take(column as int).push(
                        source@[column as int],
                    ));
                }
                column += 1;
            }
            proof {
                assert(source@.take(source@.len() as int) =~= source@);
            }
            cells.push(cells_line);
            line += 1;
        }
        let result = Self { size: self.size, cells };
        proof {
            assert(result@ =~= self@);
        }
        result
    }
}

/// The cell at `lc` of the region `region`, with nothing known of it.
pub open spec fn unknown_cell(lc: LineColumn, region: Region) -> GridCell {
    GridCell { line_column: lc, region, value: CellValue::Unknown }
}

impl<'a> From<&'a GridHandler> for Grid {
    /// The grid of the puzzle `value` in which nothing is known yet.
    fn from(value: &'a GridHandler) -> (result: Self)
        ensures
            value.accepts(&result),
            forall|lc: LineColumn|
                value.in_grid(lc) ==> #[trigger] result.spec_cell(lc) == unknown_cell(
                    lc,
                    value.spec_cell_region(lc),
                ),
    {
        let nb_lines = value.nb_lines();
        let nb_columns = value.nb_columns();
        let mut cells: Vec<Vec<GridCell>> = Vec::new();
        let mut line: usize = 0;
        while line < nb_lines
            invariant
                line <= nb_lines,
                nb_lines == value.spec_nb_lines(),
                nb_columns == value.spec_nb_columns(),
                cells@.len() == line,
                forall|l: int| 0 <= l < line ==> (#[trigger] cells@[l])@.len() == nb_columns,
                forall|l: int, c: int|
                    0 <= l < line && 0 <= c < nb_columns ==> #[trigger] cells@[l]@[c]
                        == unknown_cell(
                        LineColumn { line: l as usize, column: c as usize },
                        value.spec_cell_region(LineColumn { line: l as usize, column: c as usize }),
                    ),
            decreases nb_lines - line,
        {
            let mut cells_line: Vec<GridCell> = Vec::new();
            let mut column: usize = 0;
            while column < nb_columns
                invariant
                    line < nb_lines,
                    column <= nb_columns,
                    nb_lines == value.spec_nb_lines(),
                    nb_columns == value.spec_nb_columns(),
                    cells_line@.len() == column,
                    forall|c: int|
                        0 <= c < column ==> #[trigger] cells_line@[c] == unknown_cell(
                            LineColumn { line, column: c as usize },
                            value.spec_cell_region(LineColumn { line, column: c as usize }),
                        ),
                decreases nb_columns - column,
            {
                let line_column = LineColumn::new(line, column);
                let grid_cell = GridCell {
                    line_column,
                    region: value.cell_region(line_column),
                    value: CellValue::Unknown,
                };
                cells_line.push(grid_cell);
                column += 1;
            }
            cells.push(cells_line);
            line += 1;
        }
        let result = Self { size: LineColumn::new(nb_lines, nb_columns), cells };
        proof {
            assert forall|lc: LineColumn| value.in_grid(lc) implies #[trigger] result.spec_cell(lc)
                == unknown_cell(lc, value.spec_cell_region(lc)) by {
                assert(result@[lc.line as int][lc.column as int]
                    == cells@[lc.line as int]@[lc.column as int]);
            }
        }
        result
    }
}

impl<'a> FromSpecImpl<&'a GridHandler> for Grid {
    open spec fn obeys_from_spec() -> bool {
        false
    }

    open spec fn from_spec(value: &'a GridHandler) -> Self {
        arbitrary()
    }
}

impl Grid {
    /// Number of lines that the grid was built with.
    pub closed spec fn spec_nb_lines(&self) -> usize {
        self.size.line
    }

    /// Number of columns that the grid was built with.
    pub closed spec fn spec_nb_columns(&self) -> usize {
        self.size.column
    }

    /// The grid holds as many lines and columns as it was built with.
    pub open spec fn wf(&self) -> bool {
        has_shape(self@, self.spec_nb_lines() as int, self.spec_nb_columns() as int)
    }

    /// `lc` is a cell of the grid.
    pub open spec fn has(&self, lc: LineColumn) -> bool {
        lc.line < self.spec_nb_lines() && lc.column < self.spec_nb_columns()
    }

    /// The cell at `lc`.
    pub open spec fn spec_cell(&self, lc: LineColumn) -> GridCell {
        self@[lc.line as int][lc.column as int]
    }

    /// Number of lines of the grid.
    #[must_use]
    #[verifier::when_used_as_spec(spec_nb_lines)]
    pub fn nb_lines(&self) -> (result: usize)
        ensures
            result == self.spec_nb_lines(),
    {
        self.size.line
    }

    /// Number of columns of the grid.
    #[must_use]
    #[verifier::when_used_as_spec(spec_nb_columns)]
    pub fn nb_columns(&self) -> (result: usize)
        ensures
            result == self.spec_nb_columns(),
    {
        self.size.column
    }

    /// The cell at `line_column`.
    #[must_use]
    pub fn cell(&self, line_column: LineColumn) -> (result: &GridCell)
        requires
            self.wf(),
            self.has(line_column),
        ensures
            *result == self.spec_cell(line_column),
    {
        &self.cells[line_column.line][line_column.column]
    }

    /// The cell at `line_column`, to be written to.
    ///
    /// Whatever is written, the other cells and the size of the grid stay.
    #[must_use]
    pub fn cell_mut(&mut self, line_column: LineColumn) -> (result: &mut GridCell)
        requires
            old(self).wf(),
            old(self).has(line_column),
        ensures
            *result == old(self).spec_cell(line_column),
            final(self)@ == old(self)@.update(
                line_column.line as int,
                old(self)@[line_column.line as int].update(
                    line_column.column as int,
                    *final(result),
                ),
            ),
            final(self).spec_nb_lines() == old(self).spec_nb_lines(),
            final(self).spec_nb_columns() == old(self).spec_nb_columns(),
    {
        &mut self.cells[line_column.line][line_column.column]
    }

    /// Gives the cell at `line_column` the value `value`.
    pub fn set_value(&mut self, line_column: LineColumn, value: CellValue)
        requires
            old(self).wf(),
            old(self).has(line_column),
        ensures
            final(self)@ == with_value(old(self)@, line_column, value),
            final(self).spec_nb_lines() == old(self).spec_nb_lines(),
            final(self).spec_nb_columns() == old(self).spec_nb_columns(),
            final(self).wf(),
    {
        let cell = self.cell_mut(line_column);
        cell.value = value;
    }
}

} // verus!
