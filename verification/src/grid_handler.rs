//! Shape of a puzzle: its size, its regions, the number of stars to place.

use vstd::prelude::*;
use vstd::string::StringExecFns;

use crate::grid::{has_shape, line_positions, positions_before, value_at, GridView};
use crate::line_column::{column_label, display_column, display_line, line_label};
use crate::text::{padded_left, padded_right, push_padded_left, push_padded_right};
use crate::grid_parser::{first_appearances, lemma_first_appearances, region_test, regions_of};
use crate::sequences::{lemma_filter_agree, lemma_filter_nothing, lemma_filter_push_one};
use crate::CellValue;
use crate::Grid;
use crate::GridParser;
use crate::GridSurfer;
use crate::LineColumn;
use crate::Region;

verus! {

/// `cells` is in row-major order: each cell stands above the next one, or on the
/// same line and to its left.
pub open spec fn row_major(cells: Seq<LineColumn>) -> bool {
    forall|i: int, j: int| 0 <= i < j < cells.len() ==> (#[trigger] cells[i]).precedes(#[trigger] cells[j])
}

/// Description of a puzzle. It never changes while the puzzle is solved, and
/// holds no cell value: those are in a [`Grid`].
#[derive(Debug)]
pub struct GridHandler {
    /// Size of the grid.
    size: LineColumn,
    /// Number of stars to place in each line, column and region.
    nb_stars: usize,
    /// Regions of the grid, the smallest first.
    regions: Vec<Region>,
    /// Region of each cell, line by line.
    cells_region: Vec<Vec<Region>>,
}

impl GridHandler {
    /// Number of lines of the grid.
    pub closed spec fn spec_nb_lines(&self) -> usize {
        self.size.line
    }

    /// Number of columns of the grid.
    pub closed spec fn spec_nb_columns(&self) -> usize {
        self.size.column
    }

    /// Number of stars to place in each line, column and region.
    pub closed spec fn spec_nb_stars(&self) -> usize {
        self.nb_stars
    }

    /// Regions of the grid, in the order in which the deductions examine them.
    pub closed spec fn spec_regions(&self) -> Seq<Region> {
        self.regions@
    }

    /// Region of the cell at `lc`.
    pub closed spec fn spec_cell_region(&self, lc: LineColumn) -> Region {
        self.cells_region@[lc.line as int]@[lc.column as int]
    }

    /// `lc` is a cell of the grid.
    pub open spec fn in_grid(&self, lc: LineColumn) -> bool {
        lc.line < self.spec_nb_lines() && lc.column < self.spec_nb_columns()
    }

    /// The cells of line `line`, left to right.
    pub open spec fn line_cells(&self, line: int) -> Seq<LineColumn> {
        line_positions(line, self.spec_nb_columns() as int)
    }

    /// The cells of the lines above line `line`, in row-major order.
    pub open spec fn cells_before(&self, line: int) -> Seq<LineColumn> {
        positions_before(line, self.spec_nb_columns() as int)
    }

    /// All the cells of the grid, in row-major order.
    pub open spec fn all_cells(&self) -> Seq<LineColumn> {
        self.cells_before(self.spec_nb_lines() as int)
    }

    /// The cell at `line` and `column`, if the grid has one there.
    pub open spec fn cell_if_inside(&self, line: int, column: int) -> Seq<LineColumn> {
        if 0 <= line < self.spec_nb_lines() && 0 <= column < self.spec_nb_columns() {
            seq![LineColumn { line: line as usize, column: column as usize }]
        } else {
            Seq::empty()
        }
    }

    /// The cells of the grid that touch `lc`, in the order in which
    /// [`GridHandler::adjacent_cells`] lists them: above, above left, above
    /// right, left, below left, below, below right, right.
    pub open spec fn neighbours(&self, lc: LineColumn) -> Seq<LineColumn> {
        let line = lc.line as int;
        let column = lc.column as int;
        self.cell_if_inside(line - 1, column) + self.cell_if_inside(line - 1, column - 1)
            + self.cell_if_inside(line - 1, column + 1) + self.cell_if_inside(line, column - 1)
            + self.cell_if_inside(line + 1, column - 1) + self.cell_if_inside(line + 1, column)
            + self.cell_if_inside(line + 1, column + 1) + self.cell_if_inside(line, column + 1)
    }

    /// Number of cells of the region `region`.
    pub open spec fn region_size(&self, region: Region) -> nat {
        self.zone_cells(GridSurfer::Region(region)).len()
    }

    /// The least number of cells in which the stars of a line, a column or a
    /// region can be placed without touching.
    pub open spec fn min_zone_size(nb_stars: usize) -> int {
        2 * nb_stars - 1
    }

    /// The grid content `cells` has the size of this puzzle.
    pub open spec fn fits(&self, cells: GridView) -> bool {
        has_shape(cells, self.spec_nb_lines() as int, self.spec_nb_columns() as int)
    }

    /// `grid` is a grid of this puzzle's size.
    pub open spec fn accepts(&self, grid: &Grid) -> bool {
        &&& grid.wf()
        &&& grid.spec_nb_lines() == self.spec_nb_lines()
        &&& grid.spec_nb_columns() == self.spec_nb_columns()
    }

    /// What holds of every puzzle description: the grid has at least one line
    /// and one column, there is at least one star to place, every line, column
    /// and region is large enough for its stars, the regions are those of the
    /// cells, each listed once, the smallest first.
    #[verifier::type_invariant]
    pub closed spec fn wf(&self) -> bool {
        &&& self.cells_region@.len() == self.size.line
        &&& forall|l: int|
            0 <= l < self.cells_region@.len() ==> (#[trigger] self.cells_region@[l])@.len()
                == self.size.column
        &&& self.size.line > 0
        &&& self.size.column > 0
        &&& self.nb_stars > 0
        &&& Self::min_zone_size(self.nb_stars) <= self.size.line
        &&& Self::min_zone_size(self.nb_stars) <= self.size.column
        &&& self.regions@.no_duplicates()
        &&& forall|lc: LineColumn|
            self.in_grid(lc) ==> self.regions@.contains(#[trigger] self.spec_cell_region(lc))
        &&& forall|i: int|
            0 <= i < self.regions@.len() ==> Self::min_zone_size(self.nb_stars)
                <= self.region_size(#[trigger] self.regions@[i])
        &&& forall|i: int, j: int|
            0 <= i < j < self.regions@.len() ==> self.region_size(#[trigger] self.regions@[i])
                <= self.region_size(#[trigger] self.regions@[j])
    }

    /// What a well-formed puzzle description promises, in terms that other
    /// modules can use.
    pub proof fn lemma_wf(&self)
        requires
            self.wf(),
        ensures
            self.spec_nb_lines() > 0,
            self.spec_nb_columns() > 0,
            self.spec_nb_stars() > 0,
            Self::min_zone_size(self.spec_nb_stars()) <= self.spec_nb_lines(),
            Self::min_zone_size(self.spec_nb_stars()) <= self.spec_nb_columns(),
            self.spec_regions().no_duplicates(),
            forall|lc: LineColumn|
                self.in_grid(lc) ==> self.spec_regions().contains(
                    #[trigger] self.spec_cell_region(lc),
                ),
            forall|i: int|
                0 <= i < self.spec_regions().len() ==> Self::min_zone_size(self.spec_nb_stars())
                    <= self.region_size(#[trigger] self.spec_regions()[i]),
            forall|i: int, j: int|
                0 <= i < j < self.spec_regions().len() ==> self.region_size(
                    #[trigger] self.spec_regions()[i],
                ) <= self.region_size(#[trigger] self.spec_regions()[j]),
    {
    }

    /// A cell is among the cells of the lines above `line` exactly when it is
    /// a cell of the grid above that line; those cells are in row-major order.
    pub proof fn lemma_cells_before(&self, line: int)
        requires
            0 <= line <= self.spec_nb_lines(),
        ensures
            forall|lc: LineColumn|
                self.cells_before(line).contains(lc) <==> (lc.line < line && lc.column
                    < self.spec_nb_columns()),
            row_major(self.cells_before(line)),
        decreases line,
    {
        if line > 0 {
            self.lemma_cells_before(line - 1);
            let before = self.cells_before(line - 1);
            let row = self.line_cells(line - 1);
            let all = self.cells_before(line);
            assert forall|lc: LineColumn|
                all.contains(lc) <==> (lc.line < line && lc.column < self.spec_nb_columns()) by {
                if all.contains(lc) {
                    let i = choose|i: int| 0 <= i < all.len() && all[i] == lc;
                    if i < before.len() {
                        assert(before[i] == lc);
                        assert(before.contains(lc));
                    } else {
                        assert(row[i - before.len()] == lc);
                    }
                }
                if lc.line < line && lc.column < self.spec_nb_columns() {
                    if lc.line < line - 1 {
                        assert(before.contains(lc));
                        let i = choose|i: int| 0 <= i < before.len() && before[i] == lc;
                        assert(all[i] == lc);
                    } else {
                        assert(row[lc.column as int] == lc);
                        assert(all[before.len() + lc.column] == lc);
                    }
                }
            }
            assert forall|i: int, j: int| 0 <= i < j < all.len() implies (#[trigger] all[i]).precedes(
                #[trigger] all[j],
            ) by {
                if j < before.len() {
                    assert(all[i] == before[i] && all[j] == before[j]);
                } else if i < before.len() {
                    assert(before.contains(before[i]));
                    assert(all[i] == before[i]);
                    assert(all[j] == row[j - before.len()]);
                } else {
                    assert(all[i] == row[i - before.len()]);
                    assert(all[j] == row[j - before.len()]);
                }
            }
        }
    }

    /// The cells of the grid are listed once each, in row-major order.
    pub proof fn lemma_all_cells(&self)
        ensures
            forall|lc: LineColumn| self.all_cells().contains(lc) <==> self.in_grid(lc),
            row_major(self.all_cells()),
            self.all_cells().no_duplicates(),
    {
        self.lemma_cells_before(self.spec_nb_lines() as int);
        lemma_row_major_no_duplicates(self.all_cells());
    }

    /// What [`GridHandler::cell_if_inside`] holds.
    pub proof fn lemma_cell_if_inside(&self, line: int, column: int, other: LineColumn)
        ensures
            self.cell_if_inside(line, column).contains(other) <==> (self.in_grid(other)
                && other.line == line && other.column == column),
            self.cell_if_inside(line, column).no_duplicates(),
    {
        let s = self.cell_if_inside(line, column);
        if self.in_grid(other) && other.line == line && other.column == column {
            assert(s[0] == other);
        }
    }

    /// A cell is listed among the neighbours of `lc` exactly when it is a cell
    /// of the grid that touches `lc`. No cell is listed twice.
    pub proof fn lemma_neighbours(&self, lc: LineColumn)
        ensures
            forall|other: LineColumn|
                self.neighbours(lc).contains(other) <==> (self.in_grid(other) && lc.touches(
                    other,
                )),
            self.neighbours(lc).no_duplicates(),
            self.neighbours(lc).len() <= 8,
    {
        let line = lc.line as int;
        let column = lc.column as int;
        let n = self.neighbours(lc);
        let a = self.cell_if_inside(line - 1, column);
        let b = self.cell_if_inside(line - 1, column - 1);
        let c = self.cell_if_inside(line - 1, column + 1);
        let d = self.cell_if_inside(line, column - 1);
        let e = self.cell_if_inside(line + 1, column - 1);
        let f = self.cell_if_inside(line + 1, column);
        let g = self.cell_if_inside(line + 1, column + 1);
        let h = self.cell_if_inside(line, column + 1);
        let ab = a + b;
        let ac = ab + c;
        let ad = ac + d;
        let ae = ad + e;
        let af = ae + f;
        let ag = af + g;
        assert(n == ag + h);
        assert forall|other: LineColumn|
            n.contains(other) <==> (self.in_grid(other) && lc.touches(other)) by {
            self.lemma_cell_if_inside(line - 1, column, other);
            self.lemma_cell_if_inside(line - 1, column - 1, other);
            self.lemma_cell_if_inside(line - 1, column + 1, other);
            self.lemma_cell_if_inside(line, column - 1, other);
            self.lemma_cell_if_inside(line + 1, column - 1, other);
            self.lemma_cell_if_inside(line + 1, column, other);
            self.lemma_cell_if_inside(line + 1, column + 1, other);
            self.lemma_cell_if_inside(line, column + 1, other);
            lemma_concat_contains(a, b, other);
            lemma_concat_contains(ab, c, other);
            lemma_concat_contains(ac, d, other);
            lemma_concat_contains(ad, e, other);
            lemma_concat_contains(ae, f, other);
            lemma_concat_contains(af, g, other);
            lemma_concat_contains(ag, h, other);
        }
        self.lemma_pieces_apart(a, line - 1, column, b, line - 1, column - 1);
        lemma_concat_no_duplicates(a, b);
        assert forall|x: LineColumn| ab.contains(x) implies x.line == line - 1 && x.column <= column by {
            lemma_concat_contains(a, b, x);
            self.lemma_cell_if_inside(line - 1, column, x);
            self.lemma_cell_if_inside(line - 1, column - 1, x);
        }
        assert forall|x: LineColumn| c.contains(x) implies !ab.contains(x) by {
            self.lemma_cell_if_inside(line - 1, column + 1, x);
        }
        lemma_concat_no_duplicates(ab, c);
        assert forall|x: LineColumn| ac.contains(x) implies x.line == line - 1 by {
            lemma_concat_contains(ab, c, x);
            self.lemma_cell_if_inside(line - 1, column + 1, x);
        }
        assert forall|x: LineColumn| d.contains(x) implies !ac.contains(x) by {
            self.lemma_cell_if_inside(line, column - 1, x);
        }
        lemma_concat_no_duplicates(ac, d);
        assert forall|x: LineColumn| ad.contains(x) implies x.line <= line by {
            lemma_concat_contains(ac, d, x);
            self.lemma_cell_if_inside(line, column - 1, x);
        }
        assert forall|x: LineColumn| e.contains(x) implies !ad.contains(x) by {
            self.lemma_cell_if_inside(line + 1, column - 1, x);
        }
        lemma_concat_no_duplicates(ad, e);
        assert forall|x: LineColumn| ae.contains(x) implies x.line <= line || x.column
            == column - 1 by {
            lemma_concat_contains(ad, e, x);
            self.lemma_cell_if_inside(line + 1, column - 1, x);
        }
        assert forall|x: LineColumn| f.contains(x) implies !ae.contains(x) by {
            self.lemma_cell_if_inside(line + 1, column, x);
        }
        lemma_concat_no_duplicates(ae, f);
        assert forall|x: LineColumn| af.contains(x) implies x.line <= line || x.column
            <= column by {
            lemma_concat_contains(ae, f, x);
            self.lemma_cell_if_inside(line + 1, column, x);
        }
        assert forall|x: LineColumn| g.contains(x) implies !af.contains(x) by {
            self.lemma_cell_if_inside(line + 1, column + 1, x);
        }
        lemma_concat_no_duplicates(af, g);
        assert forall|x: LineColumn| ag.contains(x) implies x.line != line || x.column
            == column - 1 by {
            lemma_concat_contains(af, g, x);
            lemma_concat_contains(ac, d, x);
            lemma_concat_contains(ad, e, x);
            lemma_concat_contains(ae, f, x);
            self.lemma_cell_if_inside(line, column - 1, x);
            self.lemma_cell_if_inside(line + 1, column - 1, x);
            self.lemma_cell_if_inside(line + 1, column, x);
            self.lemma_cell_if_inside(line + 1, column + 1, x);
        }
        assert forall|x: LineColumn| h.contains(x) implies !ag.contains(x) by {
            self.lemma_cell_if_inside(line, column + 1, x);
        }
        lemma_concat_no_duplicates(ag, h);
    }

    /// Two different places hold different cells.
    proof fn lemma_pieces_apart(
        &self,
        a: Seq<LineColumn>,
        a_line: int,
        a_column: int,
        b: Seq<LineColumn>,
        b_line: int,
        b_column: int,
    )
        requires
            a == self.cell_if_inside(a_line, a_column),
            b == self.cell_if_inside(b_line, b_column),
            a_line != b_line || a_column != b_column,
        ensures
            a.no_duplicates(),
            b.no_duplicates(),
            forall|x: LineColumn| b.contains(x) ==> !a.contains(x),
    {
        assert forall|x: LineColumn| b.contains(x) implies !a.contains(x) by {
            self.lemma_cell_if_inside(a_line, a_column, x);
            self.lemma_cell_if_inside(b_line, b_column, x);
        }
    }

    /// Builds the description of the puzzle that `parser` read, with
    /// `nb_stars` stars to place in each line, column and region.
    ///
    /// The regions are listed the smallest first; regions of the same size
    /// stay in the order in which the text names them.
    #[must_use]
    pub fn new(parser: &GridParser, nb_stars: usize) -> (result: Self)
        requires
            Self::can_hold(parser, nb_stars),
        ensures
            result.describes(parser, nb_stars),
    {
        proof {
            use_type_invariant(parser);
            parser.lemma_wf();
        }
        let nb_lines = parser.nb_lines();
        let nb_columns = parser.nb_columns();
        let cells_region = copy_regions(parser);
        let names = parser.regions();
        let positions = list_positions(nb_lines, nb_columns);
        let ghost key = |region: Region| parser.region_size(region);
        let mut sizes: Vec<usize> = Vec::new();
        let mut k: usize = 0;
        while k < names.len()
            invariant
                k <= names.len(),
                parser.wf(),
                positions@ == positions_before(nb_lines as int, nb_columns as int),
                nb_lines == parser.spec_nb_lines(),
                nb_columns == parser.spec_nb_columns(),
                cells_region@.len() == nb_lines,
                forall|l: int|
                    0 <= l < nb_lines ==> (#[trigger] cells_region@[l])@ == regions_of(parser@[l]),
                sizes@.len() == k,
                forall|i: int| 0 <= i < k ==> #[trigger] sizes@[i] == parser.region_size(names@[i]),
            decreases names.len() - k,
        {
            let size = count_region(parser, &cells_region, &positions, names[k]);
            sizes.push(size);
            k += 1;
        }
        let order = sort_by_size(&sizes);
        let mut regions: Vec<Region> = Vec::new();
        let mut a: usize = 0;
        while a < order.len()
            invariant
                a <= order.len(),
                order@.len() == names@.len(),
                forall|i: int| 0 <= i < order@.len() ==> (#[trigger] order@[i]) < names@.len(),
                regions@.len() == a,
                forall|i: int| 0 <= i < a ==> #[trigger] regions@[i] == names@[order@[i] as int],
            decreases order.len() - a,
        {
            regions.push(region_at(&names, order[a]));
            a += 1;
        }
        let ghost handler = Self {
            size: LineColumn { line: nb_lines, column: nb_columns },
            nb_stars,
            regions,
            cells_region,
        };
        proof {
            lemma_first_appearances(regions_of(crate::grid_parser::all_cells(parser@)));
            assert forall|lc: LineColumn| handler.in_grid(lc) implies #[trigger] handler.spec_cell_region(
                lc,
            ) == parser@[lc.line as int][lc.column as int].region by {
                assert(cells_region@[lc.line as int]@ == regions_of(parser@[lc.line as int]));
            }
            assert forall|region: Region| handler.region_size(region) == parser.region_size(
                region,
            ) by {
                lemma_region_size(parser, &handler, region);
            }
            assert forall|i: int, j: int| 0 <= i < regions@.len() && 0 <= j < regions@.len() && i
                != j implies regions@[i] != regions@[j] by {
                assert(order@[i] != order@[j]);
            }
            assert forall|region: Region| regions@.contains(region) <==> names@.contains(region) by {
                if regions@.contains(region) {
                    let i = choose|i: int| 0 <= i < regions@.len() && regions@[i] == region;
                    assert(names@[order@[i] as int] == region);
                }
                if names@.contains(region) {
                    let n = choose|n: int| 0 <= n < names@.len() && names@[n] == region;
                    assert(order@.contains(n as usize));
                    let i = choose|i: int| 0 <= i < order@.len() && order@[i] == n as usize;
                    assert(regions@[i] == region);
                }
            }
            assert forall|lc: LineColumn| handler.in_grid(lc) implies regions@.contains(
                #[trigger] handler.spec_cell_region(lc),
            ) by {
                lemma_cell_region_listed(parser, lc);
            }
            assert forall|i: int| 0 <= i < regions@.len() implies Self::min_zone_size(nb_stars)
                <= handler.region_size(#[trigger] regions@[i]) by {
                assert(names@.contains(names@[order@[i] as int]));
            }
            assert forall|i: int, j: int| 0 <= i < j < regions@.len() implies handler.region_size(
                #[trigger] regions@[i],
            ) <= handler.region_size(#[trigger] regions@[j]) by {
                assert(sizes@[order@[i] as int] <= sizes@[order@[j] as int]);
            }
            assert forall|i: int, j: int|
                0 <= i < j < regions@.len() && handler.region_size(#[trigger] regions@[i])
                    == handler.region_size(#[trigger] regions@[j]) implies exists|a: int, b: int|
                0 <= a < b < names@.len() && names@[a] == regions@[i] && names@[b]
                    == regions@[j] by {
                assert(sizes@[order@[i] as int] == sizes@[order@[j] as int]);
                assert(order@[i] < order@[j]);
                assert(names@[order@[i] as int] == regions@[i] && names@[order@[j] as int]
                    == regions@[j]);
            }
            assert(handler.wf());
        }
        Self { size: LineColumn::new(nb_lines, nb_columns), nb_stars, regions, cells_region }
    }

    /// `self` describes the puzzle that `parser` read, with `nb_stars` stars
    /// to place: it is well formed, has the size and the regions of the grid
    /// read, each cell in its region, and lists regions of the same size in
    /// the order in which the text names them.
    pub open spec fn describes(&self, parser: &GridParser, nb_stars: usize) -> bool {
        &&& self.wf()
        &&& self.spec_nb_lines() == parser.spec_nb_lines()
        &&& self.spec_nb_columns() == parser.spec_nb_columns()
        &&& self.spec_nb_stars() == nb_stars
        &&& forall|lc: LineColumn|
            self.in_grid(lc) ==> #[trigger] self.spec_cell_region(lc)
                == parser@[lc.line as int][lc.column as int].region
        &&& forall|region: Region|
            self.spec_regions().contains(region) <==> parser.spec_regions().contains(region)
        &&& forall|region: Region| self.region_size(region) == parser.region_size(region)
        &&& forall|i: int, j: int|
            0 <= i < j < self.spec_regions().len() && self.region_size(
                #[trigger] self.spec_regions()[i],
            ) == self.region_size(#[trigger] self.spec_regions()[j]) ==> exists|a: int, b: int|
                0 <= a < b < parser.spec_regions().len() && parser.spec_regions()[a]
                    == self.spec_regions()[i] && parser.spec_regions()[b] == self.spec_regions()[j]
    }

    /// The puzzle that `parser` read can take `nb_stars` stars in each line,
    /// column and region: there is at least one star to place, and each line,
    /// column and region has at least `2 * nb_stars - 1` cells.
    pub open spec fn can_hold(parser: &GridParser, nb_stars: usize) -> bool {
        &&& parser.wf()
        &&& nb_stars > 0
        &&& Self::min_zone_size(nb_stars) <= parser.spec_nb_lines()
        &&& Self::min_zone_size(nb_stars) <= parser.spec_nb_columns()
        &&& forall|region: Region|
            parser.spec_regions().contains(region) ==> Self::min_zone_size(nb_stars)
                <= #[trigger] parser.region_size(region)
    }

    /// Builds the description of the puzzle that `parser` read, with
    /// `nb_stars` stars to place in each line, column and region, if the
    /// puzzle can take them.
    #[must_use]
    pub fn try_new(parser: &GridParser, nb_stars: usize) -> (result: Option<Self>)
        ensures
            result is Some <==> Self::can_hold(parser, nb_stars),
            result matches Some(handler) ==> handler.describes(parser, nb_stars),
    {
        proof {
            use_type_invariant(parser);
            parser.lemma_wf();
        }
        let nb_lines = parser.nb_lines();
        let nb_columns = parser.nb_columns();
        if nb_stars == 0 || nb_stars - 1 > (nb_lines - 1) / 2 || nb_stars - 1 > (nb_columns - 1)
            / 2 {
            return None;
        }
        let names = parser.regions();
        let mut k: usize = 0;
        while k < names.len()
            invariant
                k <= names.len(),
                names@ == parser.spec_regions(),
                nb_stars > 0,
                Self::min_zone_size(nb_stars) <= nb_lines,
                forall|i: int|
                    0 <= i < k ==> Self::min_zone_size(nb_stars) <= parser.region_size(
                        #[trigger] names@[i],
                    ),
            decreases names.len() - k,
        {
            let size = parser.region_cells(region_at(&names, k)).len();
            if size == 0 || nb_stars - 1 > (size - 1) / 2 {
                assert(names@.contains(names@[k as int]));
                return None;
            }
            k += 1;
        }
        proof {
            assert forall|region: Region|
                parser.spec_regions().contains(region) implies Self::min_zone_size(nb_stars)
                <= #[trigger] parser.region_size(region) by {
                let i = choose|i: int| 0 <= i < names@.len() && names@[i] == region;
                assert(Self::min_zone_size(nb_stars) <= parser.region_size(names@[i]));
            }
        }
        Some(Self::new(parser, nb_stars))
    }

    /// Number of lines of the grid.
    #[must_use]
    #[verifier::when_used_as_spec(spec_nb_lines)]
    pub fn nb_lines(&self) -> (result: usize)
        ensures
            result == self.spec_nb_lines(),
            result > 0,
    {
        proof {
            use_type_invariant(self);
        }
        self.size.line
    }

    /// Number of columns of the grid.
    #[must_use]
    #[verifier::when_used_as_spec(spec_nb_columns)]
    pub fn nb_columns(&self) -> (result: usize)
        ensures
            result == self.spec_nb_columns(),
            result > 0,
    {
        proof {
            use_type_invariant(self);
        }
        self.size.column
    }

    /// Number of stars to place in each line, column and region.
    #[must_use]
    #[verifier::when_used_as_spec(spec_nb_stars)]
    pub fn nb_stars(&self) -> (result: usize)
        ensures
            result == self.spec_nb_stars(),
            result > 0,
    {
        proof {
            use_type_invariant(self);
        }
        self.nb_stars
    }

    /// Regions of the grid, the smallest first.
    #[must_use]
    pub fn regions(&self) -> (result: Vec<Region>)
        ensures
            result@ == self.spec_regions(),
    {
        let mut regions: Vec<Region> = Vec::new();
        let mut i: usize = 0;
        while i < self.regions.len()
            invariant
                i <= self.regions.len(),
                regions@ == self.regions@.take(i as int),
            decreases self.regions.len() - i,
        {
            regions.push(self.regions[i]);
            proof {
                assert(self.regions@.take(i as int + 1) =~= self.regions@.take(i as int).push(
                    self.regions@[i as int],
                ));
            }
            i += 1;
        }
        proof {
            assert(self.regions@.take(self.regions@.len() as int) =~= self.regions@);
        }
        regions
    }

    /// Region of the cell at `line_column`.
    #[must_use]
    pub fn cell_region(&self, line_column: LineColumn) -> (result: Region)
        requires
            self.in_grid(line_column),
        ensures
            result == self.spec_cell_region(line_column),
    {
        proof {
            use_type_invariant(self);
        }
        self.cells_region[line_column.line][line_column.column]
    }

    /// `true` when no cell of `grid` is unknown and `grid` breaks no rule: the
    /// puzzle is solved.
    #[must_use]
    pub fn is_done(&self, grid: &Grid) -> (result: bool)
        requires
            self.accepts(grid),
        ensures
            result == (self.fully_known(grid@) && self.check(grid@) is Ok),
            result == (self.fully_known(grid@) && self.consistent(grid@)),
            result == self.is_solution(grid@),
    {
        proof {
            self.lemma_check_ok(grid@);
            self.lemma_all_cells();
        }
        let nb_lines = self.nb_lines();
        let nb_columns = self.nb_columns();
        let mut line: usize = 0;
        while line < nb_lines
            invariant
                line <= nb_lines,
                nb_lines == self.spec_nb_lines(),
                nb_columns == self.spec_nb_columns(),
                self.accepts(grid),
                forall|lc: LineColumn|
                    lc.line < line && lc.column < nb_columns ==> #[trigger] value_at(grid@, lc)
                        != CellValue::Unknown,
            decreases nb_lines - line,
        {
            let mut column: usize = 0;
            while column < nb_columns
                invariant
                    line < nb_lines,
                    column <= nb_columns,
                    nb_lines == self.spec_nb_lines(),
                    nb_columns == self.spec_nb_columns(),
                    self.accepts(grid),
                    forall|lc: LineColumn|
                        lc.line < line && lc.column < nb_columns ==> #[trigger] value_at(grid@, lc)
                            != CellValue::Unknown,
                    forall|lc: LineColumn|
                        lc.line == line && lc.column < column ==> #[trigger] value_at(grid@, lc)
                            != CellValue::Unknown,
                decreases nb_columns - column,
            {
                let line_column = LineColumn::new(line, column);
                if grid.cell(line_column).is_unknown() {
                    assert(value_at(grid@, line_column) == CellValue::Unknown);
                    return false;
                }
                column += 1;
            }
            line += 1;
        }
        crate::check_bad_rules(self, grid).is_ok()
    }

    /// Number of cells of the region `region`.
    #[must_use]
    pub fn region_nb_cells(&self, region: Region) -> (result: usize)
        ensures
            result == self.region_size(region),
    {
        let cells = self.zone_list(&GridSurfer::Region(region));
        cells.len()
    }

    /// The cells of the grid that touch `line_column`, diagonals included.
    #[must_use]
    pub fn adjacent_cells(&self, line_column: LineColumn) -> (result: Vec<LineColumn>)
        ensures
            result@ == self.neighbours(line_column),
    {
        let line = line_column.line;
        let column = line_column.column;
        let nb_lines = self.nb_lines();
        let nb_columns = self.nb_columns();
        let above = line > 0 && line - 1 < nb_lines;
        let below = line < nb_lines - 1;
        let left = column > 0 && column - 1 < nb_columns;
        let right = column < nb_columns - 1;
        let same_line = line < nb_lines;
        let same_column = column < nb_columns;
        let mut cells: Vec<LineColumn> = Vec::new();
        if above && same_column {
            cells.push(LineColumn::new(line - 1, column));
        }
        if above && left {
            cells.push(LineColumn::new(line - 1, column - 1));
        }
        if above && right {
            cells.push(LineColumn::new(line - 1, column + 1));
        }
        if same_line && left {
            cells.push(LineColumn::new(line, column - 1));
        }
        if below && left {
            cells.push(LineColumn::new(line + 1, column - 1));
        }
        if below && same_column {
            cells.push(LineColumn::new(line + 1, column));
        }
        if below && right {
            cells.push(LineColumn::new(line + 1, column + 1));
        }
        if same_line && right {
            cells.push(LineColumn::new(line, column + 1));
        }
        proof {
            assert(cells@ =~= self.neighbours(line_column));
        }
        cells
    }
}

/// The region at `index` in `regions`.
pub fn region_at(regions: &Vec<Region>, index: usize) -> (result: Region)
    requires
        index < regions@.len(),
    ensures
        result == regions@[index as int],
{
    regions[index]
}

/// The region of each cell that `parser` read, line by line.
fn copy_regions(parser: &GridParser) -> (result: Vec<Vec<Region>>)
    ensures
        result@.len() == parser.spec_nb_lines(),
        forall|l: int|
            0 <= l < result@.len() ==> (#[trigger] result@[l])@ == regions_of(parser@[l]),
{
    proof {
        use_type_invariant(parser);
        parser.lemma_wf();
    }
    let nb_lines = parser.nb_lines();
    let nb_columns = parser.nb_columns();
    let mut cells_region: Vec<Vec<Region>> = Vec::new();
    let mut line: usize = 0;
    while line < nb_lines
        invariant
            line <= nb_lines,
            parser.wf(),
            nb_lines == parser.spec_nb_lines(),
            nb_columns == parser.spec_nb_columns(),
            cells_region@.len() == line,
            forall|l: int|
                0 <= l < line ==> (#[trigger] cells_region@[l])@ == regions_of(parser@[l]),
        decreases nb_lines - line,
    {
        proof {
            parser.lemma_wf();
        }
        let mut line_regions: Vec<Region> = Vec::new();
        let mut column: usize = 0;
        while column < nb_columns
            invariant
                line < nb_lines,
                column <= nb_columns,
                nb_lines == parser.spec_nb_lines(),
                nb_columns == parser.spec_nb_columns(),
                parser@[line as int].len() == nb_columns,
                line_regions@ == regions_of(parser@[line as int].take(column as int)),
            decreases nb_columns - column,
        {
            let region = parser.cell_region(LineColumn::new(line, column));
            line_regions.push(region);
            proof {
                assert(parser@[line as int].take(column as int + 1) =~= parser@[line as int].take(
                    column as int,
                ).push(parser@[line as int][column as int]));
                assert(line_regions@ =~= regions_of(parser@[line as int].take(column as int + 1)));
            }
            column += 1;
        }
        proof {
            assert(parser@[line as int].take(nb_columns as int) =~= parser@[line as int]);
        }
        cells_region.push(line_regions);
        line += 1;
    }
    cells_region
}

/// The positions of a grid of `nb_lines` lines and `nb_columns` columns, in
/// row-major order.
fn list_positions(nb_lines: usize, nb_columns: usize) -> (result: Vec<LineColumn>)
    ensures
        result@ == positions_before(nb_lines as int, nb_columns as int),
{
    let mut positions: Vec<LineColumn> = Vec::new();
    let mut line: usize = 0;
    while line < nb_lines
        invariant
            line <= nb_lines,
            positions@ == positions_before(line as int, nb_columns as int),
        decreases nb_lines - line,
    {
        let ghost before = positions@;
        let ghost row = line_positions(line as int, nb_columns as int);
        let mut column: usize = 0;
        while column < nb_columns
            invariant
                column <= nb_columns,
                row == line_positions(line as int, nb_columns as int),
                positions@ == before + row.take(column as int),
            decreases nb_columns - column,
        {
            positions.push(LineColumn::new(line, column));
            proof {
                assert(before + row.take(column as int + 1) =~= (before + row.take(
                    column as int,
                )).push(row[column as int]));
            }
            column += 1;
        }
        proof {
            assert(row.take(nb_columns as int) =~= row);
        }
        line += 1;
    }
    positions
}

/// The test of the positions whose cell is of the region `region` in `cells`.
pub open spec fn region_position_test(cells: GridView, region: Region) -> spec_fn(
    LineColumn,
) -> bool {
    |lc: LineColumn| cells[lc.line as int][lc.column as int].region == region
}

/// Counting the cells of a region comes to counting its positions.
proof fn lemma_cells_as_positions(cells: GridView, region: Region, nb_lines: int, nb_columns: int)
    requires
        0 <= nb_lines <= cells.len() <= usize::MAX,
        0 <= nb_columns <= usize::MAX,
        forall|l: int| 0 <= l < cells.len() ==> (#[trigger] cells[l]).len() == nb_columns,
    ensures
        crate::grid_parser::cells_before(cells, nb_lines).filter(region_test(region)).len()
            == positions_before(nb_lines, nb_columns).filter(
            region_position_test(cells, region),
        ).len(),
    decreases nb_lines,
{
    if nb_lines > 0 {
        lemma_cells_as_positions(cells, region, nb_lines - 1, nb_columns);
        let line = nb_lines - 1;
        let row = cells[line];
        let places = line_positions(line, nb_columns);
        Seq::filter_distributes_over_add(
            crate::grid_parser::cells_before(cells, line),
            row,
            region_test(region),
        );
        Seq::filter_distributes_over_add(
            positions_before(line, nb_columns),
            places,
            region_position_test(cells, region),
        );
        lemma_row_as_positions(cells, region, line, nb_columns, nb_columns);
        assert(row.take(nb_columns) =~= row);
        assert(places.take(nb_columns) =~= places);
    }
}

/// Counting the cells of a region in the start of a line comes to counting
/// its positions there.
proof fn lemma_row_as_positions(
    cells: GridView,
    region: Region,
    line: int,
    nb_columns: int,
    upto: int,
)
    requires
        0 <= line < cells.len() <= usize::MAX,
        cells[line].len() == nb_columns <= usize::MAX,
        0 <= upto <= nb_columns,
    ensures
        cells[line].take(upto).filter(region_test(region)).len() == line_positions(
            line,
            nb_columns,
        ).take(upto).filter(region_position_test(cells, region)).len(),
    decreases upto,
{
    let row = cells[line];
    let places = line_positions(line, nb_columns);
    if upto > 0 {
        lemma_row_as_positions(cells, region, line, nb_columns, upto - 1);
        assert(row.take(upto) =~= row.take(upto - 1).push(row[upto - 1]));
        assert(places.take(upto) =~= places.take(upto - 1).push(places[upto - 1]));
        lemma_filter_push_one(row.take(upto - 1), region_test(region), row[upto - 1]);
        lemma_filter_push_one(
            places.take(upto - 1),
            region_position_test(cells, region),
            places[upto - 1],
        );
    } else {
        assert(row.take(0).filter(region_test(region)).len() == 0) by {
            lemma_filter_nothing(row.take(0), region_test(region));
        }
        assert(places.take(0).filter(region_position_test(cells, region)).len() == 0) by {
            lemma_filter_nothing(places.take(0), region_position_test(cells, region));
        }
    }
}

/// The puzzle description counts in a region the cells that the grid read
/// has in it.
proof fn lemma_region_size(parser: &GridParser, handler: &GridHandler, region: Region)
    requires
        parser.wf(),
        handler.spec_nb_lines() == parser.spec_nb_lines(),
        handler.spec_nb_columns() == parser.spec_nb_columns(),
        forall|lc: LineColumn|
            handler.in_grid(lc) ==> #[trigger] handler.spec_cell_region(lc)
                == parser@[lc.line as int][lc.column as int].region,
    ensures
        handler.region_size(region) == parser.region_size(region),
{
    parser.lemma_wf();
    handler.lemma_all_cells();
    let all = handler.all_cells();
    lemma_cells_as_positions(
        parser@,
        region,
        parser.spec_nb_lines() as int,
        parser.spec_nb_columns() as int,
    );
    assert forall|i: int| 0 <= i < all.len() implies handler.zone_test(GridSurfer::Region(region))(
        #[trigger] all[i],
    ) == region_position_test(parser@, region)(all[i]) by {
        assert(all.contains(all[i]));
    }
    lemma_filter_agree(
        all,
        handler.zone_test(GridSurfer::Region(region)),
        region_position_test(parser@, region),
    );
}

/// The region of each cell that was read is among the regions that were read.
proof fn lemma_cell_region_listed(parser: &GridParser, lc: LineColumn)
    requires
        parser.wf(),
        parser.in_grid(lc),
    ensures
        parser.spec_regions().contains(parser@[lc.line as int][lc.column as int].region),
{
    parser.lemma_wf();
    let cells = parser@;
    let all = crate::grid_parser::all_cells(cells);
    lemma_cell_listed(cells, cells.len() as int, lc);
    let cell = cells[lc.line as int][lc.column as int];
    let i = choose|i: int| 0 <= i < all.len() && all[i] == cell;
    assert(regions_of(all)[i] == cell.region);
    assert(regions_of(all).contains(cell.region));
    lemma_first_appearances(regions_of(all));
    assert(first_appearances(regions_of(all)).contains(cell.region));
}

/// A cell of the first lines of a grid is among the cells of these lines.
proof fn lemma_cell_listed(cells: GridView, nb_lines: int, lc: LineColumn)
    requires
        0 <= nb_lines <= cells.len(),
        lc.line < nb_lines,
        lc.column < cells[lc.line as int].len(),
    ensures
        crate::grid_parser::cells_before(cells, nb_lines).contains(
            cells[lc.line as int][lc.column as int],
        ),
    decreases nb_lines,
{
    let before = crate::grid_parser::cells_before(cells, nb_lines - 1);
    let row = cells[nb_lines - 1];
    if lc.line == nb_lines - 1 {
        assert(row.contains(row[lc.column as int]));
    } else {
        lemma_cell_listed(cells, nb_lines - 1, lc);
    }
    lemma_concat_contains(before, row, cells[lc.line as int][lc.column as int]);
}

/// Number of cells of the region `region`.
fn count_region(
    parser: &GridParser,
    cells_region: &Vec<Vec<Region>>,
    positions: &Vec<LineColumn>,
    region: Region,
) -> (result: usize)
    requires
        parser.wf(),
        positions@ == positions_before(
            parser.spec_nb_lines() as int,
            parser.spec_nb_columns() as int,
        ),
        cells_region@.len() == parser.spec_nb_lines(),
        forall|l: int|
            0 <= l < cells_region@.len() ==> (#[trigger] cells_region@[l])@ == regions_of(
                parser@[l],
            ),
    ensures
        result == parser.region_size(region),
{
    let ghost test = region_position_test(parser@, region);
    proof {
        parser.lemma_wf();
        lemma_cells_as_positions(
            parser@,
            region,
            parser.spec_nb_lines() as int,
            parser.spec_nb_columns() as int,
        );
        lemma_positions_before(parser.spec_nb_lines() as int, parser.spec_nb_columns() as int);
    }
    let mut count: usize = 0;
    let mut i: usize = 0;
    while i < positions.len()
        invariant
            i <= positions.len(),
            parser.wf(),
            test == region_position_test(parser@, region),
            forall|k: int|
                0 <= k < positions@.len() ==> (#[trigger] positions@[k]).line
                    < parser.spec_nb_lines() && positions@[k].column < parser.spec_nb_columns(),
            cells_region@.len() == parser.spec_nb_lines(),
            forall|l: int|
                0 <= l < cells_region@.len() ==> (#[trigger] cells_region@[l])@ == regions_of(
                    parser@[l],
                ),
            count == positions@.take(i as int).filter(test).len(),
            count <= i,
        decreases positions.len() - i,
    {
        let lc = positions[i];
        proof {
            parser.lemma_wf();
            assert(positions@.take(i as int + 1) =~= positions@.take(i as int).push(lc));
            lemma_filter_push_one(positions@.take(i as int), test, lc);
            assert(cells_region@[lc.line as int]@ == regions_of(parser@[lc.line as int]));
        }
        if region_at(&cells_region[lc.line], lc.column) == region {
            count += 1;
        }
        i += 1;
    }
    proof {
        assert(positions@.take(positions@.len() as int) =~= positions@);
    }
    count
}

/// The positions above a line are those of the grid above that line.
pub proof fn lemma_positions_before(line: int, nb_columns: int)
    requires
        0 <= line,
        0 <= nb_columns,
    ensures
        forall|k: int|
            0 <= k < positions_before(line, nb_columns).len() ==> (#[trigger] positions_before(
                line,
                nb_columns,
            )[k]).line < line && positions_before(line, nb_columns)[k].column < nb_columns,
    decreases line,
{
    if line > 0 {
        lemma_positions_before(line - 1, nb_columns);
        let before = positions_before(line - 1, nb_columns);
        let row = line_positions(line - 1, nb_columns);
        let all = positions_before(line, nb_columns);
        assert forall|k: int| 0 <= k < all.len() implies (#[trigger] all[k]).line < line
            && all[k].column < nb_columns by {
            if k < before.len() {
                assert(all[k] == before[k]);
            } else {
                assert(all[k] == row[k - before.len()]);
            }
        }
    }
}

/// The indices of `sizes`, those of the smallest sizes first; indices of
/// equal sizes stay in order.
pub fn sort_by_size(sizes: &Vec<usize>) -> (result: Vec<usize>)
    ensures
        result@.len() == sizes@.len(),
        forall|i: int| 0 <= i < result@.len() ==> (#[trigger] result@[i]) < sizes@.len(),
        forall|k: usize| k < sizes@.len() ==> #[trigger] result@.contains(k),
        forall|i: int, j: int|
            0 <= i < j < result@.len() ==> sizes@[#[trigger] result@[i] as int]
                < sizes@[#[trigger] result@[j] as int] || (sizes@[result@[i] as int]
                == sizes@[result@[j] as int] && result@[i] < result@[j]),
{
    let mut order: Vec<usize> = Vec::new();
    let mut next: usize = 0;
    while next < sizes.len()
        invariant
            next <= sizes.len(),
            order@.len() == next,
            forall|i: int| 0 <= i < order@.len() ==> (#[trigger] order@[i]) < next,
            forall|k: usize| k < next ==> #[trigger] order@.contains(k),
            forall|i: int, j: int|
                0 <= i < j < order@.len() ==> sizes@[#[trigger] order@[i] as int]
                    < sizes@[#[trigger] order@[j] as int] || (sizes@[order@[i] as int]
                    == sizes@[order@[j] as int] && order@[i] < order@[j]),
        decreases sizes.len() - next,
    {
        let size = sizes[next];
        let mut place: usize = 0;
        while place < order.len() && sizes[order[place]] <= size
            invariant
                place <= order@.len(),
                order@.len() == next,
                next < sizes@.len(),
                size == sizes@[next as int],
                forall|i: int| 0 <= i < order@.len() ==> (#[trigger] order@[i]) < next,
                forall|i: int| 0 <= i < place ==> sizes@[#[trigger] order@[i] as int] <= size,
            decreases order@.len() - place,
        {
            place += 1;
        }
        let ghost before = order@;
        order.insert(place, next);
        proof {
            assert forall|k: usize| k < next + 1 implies #[trigger] order@.contains(k) by {
                if k < next {
                    assert(before.contains(k));
                    let i = choose|i: int| 0 <= i < before.len() && before[i] == k;
                    if i < place {
                        assert(order@[i] == k);
                    } else {
                        assert(order@[i + 1] == k);
                    }
                } else {
                    assert(order@[place as int] == next);
                }
            }
            assert forall|i: int, j: int| 0 <= i < j < order@.len() implies sizes@[#[trigger] order@[i] as int]
                < sizes@[#[trigger] order@[j] as int] || (sizes@[order@[i] as int]
                == sizes@[order@[j] as int] && order@[i] < order@[j]) by {
                let bi = if i < place { i } else { i - 1 };
                let bj = if j < place { j } else { j - 1 };
                if i != place && j != place {
                    assert(order@[i] == before[bi] && order@[j] == before[bj]);
                } else if i == place {
                    assert(order@[j] == before[bj]);
                    if place < before.len() {
                        assert(sizes@[before[place as int] as int] > size);
                        if bj > place {
                            assert(sizes@[before[place as int] as int] <= sizes@[before[bj] as int]);
                        }
                    }
                } else {
                    assert(order@[i] == before[bi]);
                }
            }
        }
        next += 1;
    }
    order
}

/// An item is in the concatenation of two lists exactly when it is in one of them.
pub proof fn lemma_concat_contains<A>(a: Seq<A>, b: Seq<A>, x: A)
    ensures
        (a + b).contains(x) <==> (a.contains(x) || b.contains(x)),
{
    let s = a + b;
    if s.contains(x) {
        let i = choose|i: int| 0 <= i < s.len() && s[i] == x;
        if i < a.len() {
            assert(a[i] == x);
        } else {
            assert(b[i - a.len()] == x);
        }
    }
    if a.contains(x) {
        let i = choose|i: int| 0 <= i < a.len() && a[i] == x;
        assert(s[i] == x);
    }
    if b.contains(x) {
        let i = choose|i: int| 0 <= i < b.len() && b[i] == x;
        assert(s[a.len() + i] == x);
    }
}

/// The concatenation of two lists without duplicates that share no item has
/// no duplicates.
pub proof fn lemma_concat_no_duplicates<A>(a: Seq<A>, b: Seq<A>)
    requires
        a.no_duplicates(),
        b.no_duplicates(),
        forall|x: A| b.contains(x) ==> !a.contains(x),
    ensures
        (a + b).no_duplicates(),
{
    let s = a + b;
    assert forall|i: int, j: int| 0 <= i < s.len() && 0 <= j < s.len() && i != j implies s[i]
        != s[j] by {
        if i < a.len() && j >= a.len() {
            assert(b.contains(b[j - a.len()]));
            assert(a.contains(a[i]));
        } else if j < a.len() && i >= a.len() {
            assert(b.contains(b[i - a.len()]));
            assert(a.contains(a[j]));
        }
    }
}

/// Cells in row-major order are all different.
pub proof fn lemma_row_major_no_duplicates(cells: Seq<LineColumn>)
    requires
        row_major(cells),
    ensures
        cells.no_duplicates(),
{
    assert forall|i: int, j: int| 0 <= i < cells.len() && 0 <= j < cells.len() && i != j implies cells[i]
        != cells[j] by {
        if i < j {
            assert(cells[i].precedes(cells[j]));
        } else {
            assert(cells[j].precedes(cells[i]));
        }
    }
}

/// Keeping some of the cells of a row-major list leaves a row-major list.
pub proof fn lemma_filter_row_major(cells: Seq<LineColumn>, keep: spec_fn(LineColumn) -> bool)
    requires
        row_major(cells),
    ensures
        row_major(cells.filter(keep)),
    decreases cells.len(),
{
    reveal(Seq::filter);
    if cells.len() > 0 {
        let front = cells.drop_last();
        assert forall|i: int, j: int| 0 <= i < j < front.len() implies (#[trigger] front[i]).precedes(
            #[trigger] front[j],
        ) by {
            assert(front[i] == cells[i] && front[j] == cells[j]);
        }
        lemma_filter_row_major(front, keep);
        let kept = cells.filter(keep);
        let kept_front = front.filter(keep);
        assert forall|i: int, j: int| 0 <= i < j < kept.len() implies (#[trigger] kept[i]).precedes(
            #[trigger] kept[j],
        ) by {
            if j < kept_front.len() {
                assert(kept[i] == kept_front[i] && kept[j] == kept_front[j]);
            } else {
                assert(kept[j] == cells.last());
                assert(kept[i] == kept_front[i]);
                front.lemma_filter_contains_rev(keep, kept_front[i]);
                assert(front.contains(kept_front[i]));
                let k = choose|k: int| 0 <= k < front.len() && front[k] == kept_front[i];
                assert(cells[k] == kept_front[i]);
                assert(cells[k].precedes(cells[cells.len() - 1]));
            }
        }
    }
}

/// The labels of the first `nb_columns` columns, each after a space and in
/// two characters.
pub open spec fn columns_header(nb_columns: nat) -> Seq<char>
    decreases nb_columns,
{
    if nb_columns == 0 {
        Seq::empty()
    } else {
        columns_header((nb_columns - 1) as nat) + " "@ + padded_right(
            column_label((nb_columns - 1) as usize),
            2,
        )
    }
}

/// Three dashes for each of `nb_columns` columns.
pub open spec fn columns_rule(nb_columns: nat) -> Seq<char>
    decreases nb_columns,
{
    if nb_columns == 0 {
        Seq::empty()
    } else {
        columns_rule((nb_columns - 1) as nat) + "---"@
    }
}

/// The character that shows the value `value`: `*` for a star, `?` for an
/// unknown cell, `-` for no star.
pub open spec fn value_mark(value: CellValue) -> char {
    match value {
        CellValue::Star => '*',
        CellValue::Unknown => '?',
        CellValue::NoStar => '-',
    }
}

/// The text that shows a cell of the region `region` that holds `value`: a
/// space, the region and the mark of the value.
pub open spec fn cell_text(region: Region, value: CellValue) -> Seq<char> {
    " "@.push(region).push(value_mark(value))
}

impl GridHandler {
    /// The text that shows the first `upto` cells of the line `line` of `cells`.
    pub open spec fn line_text(&self, cells: GridView, line: usize, upto: nat) -> Seq<char>
        decreases upto,
    {
        if upto == 0 {
            Seq::empty()
        } else {
            let lc = LineColumn { line, column: (upto - 1) as usize };
            self.line_text(cells, line, (upto - 1) as nat) + cell_text(
                self.spec_cell_region(lc),
                value_at(cells, lc),
            )
        }
    }

    /// What stands before the cells of the line `line`: with coordinates, the
    /// label of the line in two characters and a bar.
    pub open spec fn line_start(line: usize, with_coordinates: bool) -> Seq<char> {
        if with_coordinates {
            padded_left(line_label(line), 2) + "|"@
        } else {
            Seq::empty()
        }
    }

    /// The text that shows the first `upto` lines of `cells`, each ended by a
    /// line feed.
    pub open spec fn lines_text(&self, cells: GridView, with_coordinates: bool, upto: nat) -> Seq<
        char,
    >
        decreases upto,
    {
        if upto == 0 {
            Seq::empty()
        } else {
            self.lines_text(cells, with_coordinates, (upto - 1) as nat) + Self::line_start(
                (upto - 1) as usize,
                with_coordinates,
            ) + self.line_text(cells, (upto - 1) as usize, self.spec_nb_columns() as nat) + "\n"@
        }
    }

    /// The two lines that head the grid when coordinates are shown: the
    /// labels of the columns, then a rule.
    pub open spec fn header_text(&self) -> Seq<char> {
        "   "@ + columns_header(self.spec_nb_columns() as nat) + "\n"@ + "   "@ + columns_rule(
            self.spec_nb_columns() as nat,
        ) + "\n"@
    }

    /// The text that shows `cells`: the header, if coordinates are shown,
    /// then the lines.
    pub open spec fn display_text(&self, cells: GridView, with_coordinates: bool) -> Seq<char> {
        (if with_coordinates {
            self.header_text()
        } else {
            Seq::empty()
        }) + self.lines_text(cells, with_coordinates, self.spec_nb_lines() as nat)
    }

    /// The columns of the grid all have a label.
    pub open spec fn has_column_labels(&self) -> bool {
        self.spec_nb_columns() + 64 <= 0xD7FF
    }

    /// The text that shows `grid`, one line of text for each line of the
    /// grid. Each cell is shown by its region and by `*` for a star, `?` for
    /// an unknown cell, `-` for no star. With `with_coordinates`, the columns
    /// are headed by `A`, `B`, ... and the lines start with `1`, `2`, ...
    #[must_use]
    pub fn display(&self, grid: &Grid, with_coordinates: bool) -> (result: String)
        requires
            self.accepts(grid),
            with_coordinates ==> self.has_column_labels(),
        ensures
            result@ == self.display_text(grid@, with_coordinates),
    {
        let nb_lines = self.nb_lines();
        let nb_columns = self.nb_columns();
        let mut output = String::new();
        if with_coordinates {
            output.append("   ");
            let mut column: usize = 0;
            while column < nb_columns
                invariant
                    column <= nb_columns,
                    nb_columns == self.spec_nb_columns(),
                    self.has_column_labels(),
                    output@ == "   "@ + columns_header(column as nat),
                decreases nb_columns - column,
            {
                output.append(" ");
                push_padded_right(&mut output, &display_column(column), 2);
                proof {
                    assert(output@ =~= "   "@ + columns_header((column + 1) as nat));
                }
                column += 1;
            }
            output.push('\n');
            output.append("   ");
            let ghost start = output@;
            let mut column: usize = 0;
            while column < nb_columns
                invariant
                    column <= nb_columns,
                    output@ == start + columns_rule(column as nat),
                decreases nb_columns - column,
            {
                output.append("---");
                proof {
                    assert(output@ =~= start + columns_rule((column + 1) as nat));
                }
                column += 1;
            }
            output.push('\n');
            proof {
                crate::text::lemma_line_feed();
                assert(output@ =~= self.header_text());
            }
        }
        let ghost start = output@;
        let mut line: usize = 0;
        while line < nb_lines
            invariant
                line <= nb_lines,
                nb_lines == self.spec_nb_lines(),
                nb_columns == self.spec_nb_columns(),
                self.accepts(grid),
                output@ == start + self.lines_text(grid@, with_coordinates, line as nat),
            decreases nb_lines - line,
        {
            if with_coordinates {
                push_padded_left(&mut output, &display_line(line), 2);
                output.append("|");
            }
            let ghost line_start = output@;
            let mut column: usize = 0;
            while column < nb_columns
                invariant
                    line < nb_lines,
                    column <= nb_columns,
                    nb_lines == self.spec_nb_lines(),
                    nb_columns == self.spec_nb_columns(),
                    self.accepts(grid),
                    output@ == line_start + self.line_text(grid@, line, column as nat),
                decreases nb_columns - column,
            {
                let line_column = LineColumn::new(line, column);
                let region = self.cell_region(line_column);
                output.append(" ");
                output.push(region);
                match grid.cell(line_column).value {
                    CellValue::Star => output.push('*'),
                    CellValue::Unknown => output.push('?'),
                    CellValue::NoStar => output.push('-'),
                }
                proof {
                    assert(output@ =~= line_start + self.line_text(
                        grid@,
                        line,
                        (column + 1) as nat,
                    ));
                }
                column += 1;
            }
            output.push('\n');
            proof {
                crate::text::lemma_line_feed();
                assert(output@ =~= start + self.lines_text(
                    grid@,
                    with_coordinates,
                    (line + 1) as nat,
                ));
            }
            line += 1;
        }
        output
    }
}

} // verus!
