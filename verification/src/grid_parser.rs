//! Reading of the text that describes a puzzle.
//!
//! Each line of the text is a line of the grid, and each character of it names
//! the region of a cell. Blank lines, and lines whose first character is `#`,
//! `;` or `@`, are skipped. Spaces around a line are dropped. All the lines
//! that remain have the same length, and each region is in one piece.

use vstd::prelude::*;
use vstd::std_specs::convert::TryFromSpecImpl;
use vstd::string::StrSliceExecFns;
use vstd::string::StringExecFns;

use crate::grid::GridView;
use crate::grid_parser_checker::connectivity_error;
use crate::grid_parser_checker::Checker;
use crate::sequences::{
    first_some, lemma_filter_first, lemma_filter_nothing, lemma_first_some_at,
    lemma_first_some_none,
};
use crate::CellValue;
use crate::GridCell;
use crate::LineColumn;
use crate::Region;

verus! {

/// What is wrong with the text of a puzzle.
#[derive(Clone, Copy, Debug, PartialEq, Eq, Structural)]
pub enum GridParseError {
    /// The line of the text at this index, counted from 0, holds this
    /// character, which cannot name a region.
    IllegalRegionChar(usize, char),
    /// The line of the text at this index, counted from 0, has not the length
    /// of the first line of the grid.
    InconsistentLineLength(usize),
    /// The text holds no line of the grid.
    NoRegion,
    /// The cells of this region are not in one piece.
    RegionNotConnected(Region),
}

/// `c` is one of the characters that are dropped around a line: those with
/// the Unicode property White_Space.
pub open spec fn is_white_space(c: char) -> bool {
    let code = c as u32;
    ||| 0x09 <= code <= 0x0D
    ||| code == 0x20
    ||| code == 0x85
    ||| code == 0xA0
    ||| code == 0x1680
    ||| 0x2000 <= code <= 0x200A
    ||| code == 0x2028
    ||| code == 0x2029
    ||| code == 0x202F
    ||| code == 0x205F
    ||| code == 0x3000
}

/// `c` at the start of a line marks the line as a comment.
pub open spec fn is_comment_mark(c: char) -> bool {
    c == '#' || c == ';' || c == '@'
}

/// `c` cannot name a region.
pub open spec fn is_illegal_region(c: char) -> bool {
    c == ' ' || c == '\t' || c == '\n' || c == '\r'
}

/// [`is_illegal_region`] as a function.
pub open spec fn illegal_region_test() -> spec_fn(char) -> bool {
    |c: char| is_illegal_region(c)
}

/// `line` without the white space at its start.
pub open spec fn trimmed_start(line: Seq<char>) -> Seq<char>
    decreases line.len(),
{
    if line.len() > 0 && is_white_space(line.first()) {
        trimmed_start(line.drop_first())
    } else {
        line
    }
}

/// `line` without the white space at its end.
pub open spec fn trimmed_end(line: Seq<char>) -> Seq<char>
    decreases line.len(),
{
    if line.len() > 0 && is_white_space(line.last()) {
        trimmed_end(line.drop_last())
    } else {
        line
    }
}

/// `line` without the white space around it.
pub open spec fn trimmed(line: Seq<char>) -> Seq<char> {
    trimmed_end(trimmed_start(line))
}

/// The trimmed line `row` is blank or a comment.
pub open spec fn is_skipped(row: Seq<char>) -> bool {
    row.len() == 0 || is_comment_mark(row[0])
}

/// The lines of the grid that the lines `lines` of a text hold: each line
/// trimmed, without those that are skipped.
pub open spec fn rows_of(lines: Seq<Seq<char>>) -> Seq<Seq<char>>
    decreases lines.len(),
{
    if lines.len() == 0 {
        Seq::empty()
    } else {
        let rows = rows_of(lines.drop_last());
        let row = trimmed(lines.last());
        if is_skipped(row) {
            rows
        } else {
            rows.push(row)
        }
    }
}

/// The error of the line at `index` among `lines`: the first of its
/// characters that cannot name a region or, if it has none, that its length
/// is not that of the first line of the grid.
pub open spec fn line_error(lines: Seq<Seq<char>>, index: int) -> Option<GridParseError> {
    let row = trimmed(lines[index]);
    let before = rows_of(lines.take(index));
    let illegal = row.filter(illegal_region_test());
    if is_skipped(row) {
        None
    } else if illegal.len() > 0 {
        Some(GridParseError::IllegalRegionChar(index as usize, illegal[0]))
    } else if before.len() > 0 && row.len() != before[0].len() {
        Some(GridParseError::InconsistentLineLength(index as usize))
    } else {
        None
    }
}

/// [`line_error`] as a function of the index.
pub open spec fn line_error_test(lines: Seq<Seq<char>>) -> spec_fn(int) -> Option<GridParseError> {
    |index: int| line_error(lines, index)
}

/// The error of the first line among `lines` that has one.
pub open spec fn lines_error(lines: Seq<Seq<char>>) -> Option<GridParseError> {
    first_some(Seq::new(lines.len(), |index: int| index), line_error_test(lines))
}

/// The cell at `line` and `column` of a grid that was just read: of region
/// `region`, and unknown.
pub open spec fn parsed_cell(line: int, column: int, region: Region) -> GridCell {
    GridCell {
        line_column: LineColumn { line: line as usize, column: column as usize },
        region,
        value: CellValue::Unknown,
    }
}

/// The cells of line `line` of the grid, whose text is `row`.
pub open spec fn cells_of_row(line: int, row: Seq<char>) -> Seq<GridCell> {
    Seq::new(row.len(), |column: int| parsed_cell(line, column, row[column]))
}

/// The cells of the grid whose lines are `rows`.
pub open spec fn cells_of_rows(rows: Seq<Seq<char>>) -> GridView {
    Seq::new(rows.len(), |line: int| cells_of_row(line, rows[line]))
}

/// What is wrong with the text whose lines are `lines`: the error of the
/// first line that has one; else that there is no line of the grid; else the
/// first region, in order of appearance, that is not in one piece.
pub open spec fn text_error(lines: Seq<Seq<char>>) -> Option<GridParseError> {
    match lines_error(lines) {
        Some(error) => Some(error),
        None => if rows_of(lines).len() == 0 {
            Some(GridParseError::NoRegion)
        } else {
            connectivity_error(cells_of_rows(rows_of(lines)))
        },
    }
}

/// The lines of the text `text`: what stands between its line feeds.
pub open spec fn split_lines(text: Seq<char>) -> Seq<Seq<char>>
    decreases text.len(),
{
    if text.len() == 0 {
        seq![Seq::empty()]
    } else {
        let lines = split_lines(text.drop_last());
        if text.last() == '\n' {
            lines.push(Seq::empty())
        } else {
            lines.update(lines.len() - 1, lines.last().push(text.last()))
        }
    }
}

/// The characters of each of `lines`.
pub open spec fn lines_view(lines: Seq<Vec<char>>) -> Seq<Seq<char>> {
    lines.map_values(|line: Vec<char>| line@)
}

/// The characters of each of `lines`.
pub open spec fn strs_view(lines: Seq<&str>) -> Seq<Seq<char>> {
    lines.map_values(|line: &str| line@)
}

/// The characters of each of `lines`.
pub open spec fn strings_view(lines: Seq<String>) -> Seq<Seq<char>> {
    lines.map_values(|line: String| line@)
}

/// The region of each of `cells`.
pub open spec fn regions_of(cells: Seq<GridCell>) -> Seq<Region> {
    cells.map_values(|cell: GridCell| cell.region)
}

/// The items of `labels`, each once, in the order in which they first appear.
pub open spec fn first_appearances(labels: Seq<Region>) -> Seq<Region>
    decreases labels.len(),
{
    if labels.len() == 0 {
        Seq::empty()
    } else {
        let seen = first_appearances(labels.drop_last());
        if seen.contains(labels.last()) {
            seen
        } else {
            seen.push(labels.last())
        }
    }
}

/// The cells of the first `nb_lines` lines of `cells`, in row-major order.
pub open spec fn cells_before(cells: GridView, nb_lines: int) -> Seq<GridCell>
    decreases nb_lines,
{
    if nb_lines <= 0 {
        Seq::empty()
    } else {
        cells_before(cells, nb_lines - 1) + cells[nb_lines - 1]
    }
}

/// The cells of `cells`, in row-major order.
pub open spec fn all_cells(cells: GridView) -> Seq<GridCell> {
    cells_before(cells, cells.len() as int)
}

/// The regions of `cells`, each once, in the order in which a reading of the
/// grid in row-major order meets them.
pub open spec fn regions_in_order(cells: GridView) -> Seq<Region> {
    first_appearances(regions_of(all_cells(cells)))
}

/// The test of the cells of the region `region`.
pub open spec fn region_test(region: Region) -> spec_fn(GridCell) -> bool {
    |cell: GridCell| cell.region == region
}

/// `first_appearances` lists each item of `labels` once.
pub proof fn lemma_first_appearances(labels: Seq<Region>)
    ensures
        first_appearances(labels).no_duplicates(),
        forall|label: Region| first_appearances(labels).contains(label) <==> labels.contains(label),
    decreases labels.len(),
{
    if labels.len() > 0 {
        let front = labels.drop_last();
        lemma_first_appearances(front);
        let seen = first_appearances(front);
        let all = first_appearances(labels);
        assert forall|label: Region| all.contains(label) <==> labels.contains(label) by {
            assert(seen.contains(label) <==> front.contains(label));
            if all.contains(label) {
                let i = choose|i: int| 0 <= i < all.len() && all[i] == label;
                if i < seen.len() {
                    assert(seen[i] == label);
                    assert(seen.contains(label));
                    let k = choose|k: int| 0 <= k < front.len() && front[k] == label;
                    assert(front[k] == labels[k]);
                } else {
                    assert(labels[labels.len() - 1] == label);
                }
            }
            if labels.contains(label) {
                let k = choose|k: int| 0 <= k < labels.len() && labels[k] == label;
                if k < front.len() {
                    assert(front[k] == labels[k]);
                    assert(front.contains(label));
                    assert(seen.contains(label));
                    let i = choose|i: int| 0 <= i < seen.len() && seen[i] == label;
                    assert(all[i] == label);
                } else if seen.contains(label) {
                } else {
                    assert(all[seen.len() as int] == label);
                }
            }
        }
    }
}

/// A puzzle as it was read from its text: the cells with their regions, all
/// unknown.
#[derive(Debug)]
pub struct GridParser {
    /// Regions of the grid, in the order in which the text names them.
    regions: Vec<Region>,
    /// Cells of the grid, line by line.
    parsed_grid: Vec<Vec<GridCell>>,
}

impl View for GridParser {
    type V = GridView;

    closed spec fn view(&self) -> GridView {
        Seq::new(self.parsed_grid@.len(), |line: int| self.parsed_grid@[line]@)
    }
}

impl Clone for GridParser {
    /// A copy of the grid read.
    fn clone(&self) -> (result: Self)
        ensures
            result@ == self@,
            result.spec_regions() == self.spec_regions(),
    {
        proof {
            use_type_invariant(self);
        }
        let regions = crate::grid_good_ruler::good_rule::copy_regions(&self.regions);
        let mut parsed_grid: Vec<Vec<GridCell>> = Vec::new();
        let mut line: usize = 0;
        while line < self.parsed_grid.len()
            invariant
                line <= self.parsed_grid.len(),
                parsed_grid@.len() == line,
                forall|l: int|
                    0 <= l < line ==> (#[trigger] parsed_grid@[l])@ == self.parsed_grid@[l]@,
            decreases self.parsed_grid.len() - line,
        {
            let source = &self.parsed_grid[line];
            let mut cells: Vec<GridCell> = Vec::new();
            let mut column: usize = 0;
            while column < source.len()
                invariant
                    column <= source.len(),
                    cells@ == source@.take(column as int),
                decreases source.len() - column,
            {
                cells.push(source[column]);
                proof {
                    assert(cells@ =~= source@.take(column as int + 1));
                }
                column += 1;
            }
            proof {
                assert(source@.take(source@.len() as int) =~= source@);
            }
            parsed_grid.push(cells);
            line += 1;
        }
        proof {
            assert(Seq::new(parsed_grid@.len(), |line: int| parsed_grid@[line]@) =~= self@);
        }
        Self { regions, parsed_grid }
    }
}

impl<'a> TryFrom<&'a [String]> for GridParser {
    type Error = GridParseError;

    /// Reads a puzzle from the lines of its text.
    fn try_from(value: &'a [String]) -> (result: Result<Self, Self::Error>)
        ensures
            match result {
                Ok(parser) => text_error(strings_view(value@)) is None && parser@ == cells_of_rows(
                    rows_of(strings_view(value@)),
                ),
                Err(error) => text_error(strings_view(value@)) == Some(error),
            },
    {
        let mut lines: Vec<Vec<char>> = Vec::new();
        let mut i: usize = 0;
        while i < value.len()
            invariant
                i <= value.len(),
                lines_view(lines@) == strings_view(value@.take(i as int)),
            decreases value.len() - i,
        {
            let line = chars_of(value[i].as_str());
            proof {
                assert(value@.take(i as int + 1) =~= value@.take(i as int).push(value@[i as int]));
                assert(lines_view(lines@.push(line)) =~= lines_view(lines@).push(line@));
                assert(strings_view(value@.take(i as int).push(value@[i as int]))
                    =~= strings_view(value@.take(i as int)).push(value@[i as int]@));
            }
            lines.push(line);
            i += 1;
        }
        proof {
            assert(value@.take(value@.len() as int) =~= value@);
        }
        Self::try_from_text_lines(&lines)
    }
}

impl<'a> TryFromSpecImpl<&'a [String]> for GridParser {
    open spec fn obeys_try_from_spec() -> bool {
        false
    }

    open spec fn try_from_spec(value: &'a [String]) -> Result<Self, Self::Error> {
        arbitrary()
    }
}

impl GridParser {
    /// Regions of the grid, in the order in which the text names them.
    pub closed spec fn spec_regions(&self) -> Seq<Region> {
        self.regions@
    }

    /// Number of lines of the grid.
    pub open spec fn spec_nb_lines(&self) -> nat {
        self@.len()
    }

    /// Number of columns of the grid.
    pub open spec fn spec_nb_columns(&self) -> nat {
        self@[0].len()
    }

    /// `lc` is a cell of the grid.
    pub open spec fn in_grid(&self, lc: LineColumn) -> bool {
        lc.line < self.spec_nb_lines() && lc.column < self.spec_nb_columns()
    }

    /// Number of cells of the region `region`.
    pub open spec fn region_size(&self, region: Region) -> nat {
        all_cells(self@).filter(region_test(region)).len()
    }

    /// What holds of every grid that was read: it has at least one line and
    /// one column, its lines have the same length, each cell knows its place
    /// and is unknown, and the regions are those of the cells, each listed
    /// once, in the order in which the text names them.
    #[verifier::type_invariant]
    pub closed spec fn wf(&self) -> bool {
        &&& self.parsed_grid@.len() > 0
        &&& self.parsed_grid@[0]@.len() > 0
        &&& forall|line: int|
            0 <= line < self.parsed_grid@.len() ==> (#[trigger] self.parsed_grid@[line])@.len()
                == self.parsed_grid@[0]@.len()
        &&& forall|line: int, column: int|
            0 <= line < self.parsed_grid@.len() && 0 <= column < self.parsed_grid@[0]@.len() ==> {
                &&& (#[trigger] self.parsed_grid@[line]@[column]).line_column == (LineColumn {
                    line: line as usize,
                    column: column as usize,
                })
                &&& self.parsed_grid@[line]@[column].value == CellValue::Unknown
            }
        &&& self.regions@ == regions_in_order(self@)
    }

    /// What a well-formed grid promises, in terms that other modules can use.
    pub proof fn lemma_wf(&self)
        requires
            self.wf(),
        ensures
            0 < self.spec_nb_lines() <= usize::MAX,
            0 < self.spec_nb_columns() <= usize::MAX,
            forall|line: int|
                0 <= line < self@.len() ==> (#[trigger] self@[line]).len() == self.spec_nb_columns(),
            forall|line: int, column: int|
                0 <= line < self.spec_nb_lines() && 0 <= column < self.spec_nb_columns() ==> {
                    &&& (#[trigger] self@[line][column]).line_column == (LineColumn {
                        line: line as usize,
                        column: column as usize,
                    })
                    &&& self@[line][column].value == CellValue::Unknown
                },
            self.spec_regions() == regions_in_order(self@),
    {
        vstd::std_specs::vec::axiom_spec_len(&self.parsed_grid);
        vstd::std_specs::vec::axiom_spec_len(&self.parsed_grid@[0]);
    }

    /// Reads a puzzle from the lines of its text.
    ///
    /// The answer is the grid that the lines describe, or what is wrong with
    /// them.
    pub fn try_from_text_lines(lines: &Vec<Vec<char>>) -> (result: Result<Self, GridParseError>)
        ensures
            match result {
                Ok(parser) => text_error(lines_view(lines@)) is None && parser@ == cells_of_rows(
                    rows_of(lines_view(lines@)),
                ),
                Err(error) => text_error(lines_view(lines@)) == Some(error),
            },
    {
        let ghost text = lines_view(lines@);
        let ghost indices = Seq::new(text.len(), |index: int| index);
        let ghost test = line_error_test(text);
        let mut parsed_grid: Vec<Vec<GridCell>> = Vec::new();
        let mut i: usize = 0;
        while i < lines.len()
            invariant
                i <= lines.len(),
                text == lines_view(lines@),
                text.len() == lines@.len(),
                indices == Seq::new(text.len(), |index: int| index),
                test == line_error_test(text),
                forall|k: int| 0 <= k < i ==> test(#[trigger] indices[k]) is None,
                parsed_grid@.len() == rows_of(text.take(i as int)).len(),
                forall|line: int|
                    0 <= line < parsed_grid@.len() ==> (#[trigger] parsed_grid@[line])@
                        == cells_of_row(line, rows_of(text.take(i as int))[line]),
                forall|line: int|
                    0 <= line < parsed_grid@.len() ==> (#[trigger] rows_of(
                        text.take(i as int),
                    )[line]).len() == rows_of(text.take(i as int))[0].len(),
                forall|line: int|
                    0 <= line < parsed_grid@.len() ==> (#[trigger] rows_of(
                        text.take(i as int),
                    )[line]).len() > 0,
            decreases lines.len() - i,
        {
            let line = &lines[i];
            let ghost before = rows_of(text.take(i as int));
            proof {
                assert(text[i as int] == line@);
                assert(text.take(i as int + 1).drop_last() =~= text.take(i as int));
                assert(text.take(i as int + 1).last() == line@);
                assert(indices[i as int] == i as int);
            }
            let (start, end) = trim_bounds(line);
            if start < end && !is_comment_char(line[start]) {
                let ghost row = trimmed(line@);
                let number = parsed_grid.len();
                match parse_text_line(line, start, end, number) {
                    Err(character) => {
                        proof {
                            lemma_first_some_at(indices, test, i as int);
                        }
                        return Err(GridParseError::IllegalRegionChar(i, character));
                    },
                    Ok(cells) => {
                        if parsed_grid.len() > 0 && parsed_grid[0].len() != cells.len() {
                            proof {
                                assert(parsed_grid@[0]@.len() == before[0].len());
                                lemma_first_some_at(indices, test, i as int);
                            }
                            return Err(GridParseError::InconsistentLineLength(i));
                        }
                        proof {
                            if parsed_grid@.len() > 0 {
                                assert(parsed_grid@[0]@.len() == before[0].len());
                            }
                        }
                        parsed_grid.push(cells);
                    },
                }
            }
            i += 1;
        }
        proof {
            assert(text.take(text.len() as int) =~= text);
        }
        let ghost rows = rows_of(text);
        if parsed_grid.len() == 0 {
            proof {
                lemma_first_some_none(indices, test);
            }
            return Err(GridParseError::NoRegion);
        }
        proof {
            lemma_first_some_none(indices, test);
            assert(Seq::new(parsed_grid@.len(), |line: int| parsed_grid@[line]@) =~= cells_of_rows(
                rows,
            ));
        }
        let regions = collect_regions(&parsed_grid);
        let parser = Self { regions, parsed_grid };
        proof {
            assert(parser@ == cells_of_rows(rows));
        }
        let checker = Checker::new(parser.clone());
        match checker.check() {
            Err(error) => Err(error),
            Ok(()) => Ok(parser),
        }
    }

    /// Number of lines of the grid.
    #[must_use]
    pub fn nb_lines(&self) -> (result: usize)
        ensures
            result == self.spec_nb_lines(),
            result > 0,
    {
        proof {
            use_type_invariant(self);
        }
        self.parsed_grid.len()
    }

    /// Number of columns of the grid.
    #[must_use]
    pub fn nb_columns(&self) -> (result: usize)
        ensures
            result == self.spec_nb_columns(),
            result > 0,
    {
        proof {
            use_type_invariant(self);
        }
        self.parsed_grid[0].len()
    }

    /// Regions of the grid, in the order in which the text names them.
    #[must_use]
    pub fn regions(&self) -> (result: Vec<Region>)
        ensures
            result@ == self.spec_regions(),
            result@ == regions_in_order(self@),
    {
        proof {
            use_type_invariant(self);
        }
        let mut regions: Vec<Region> = Vec::new();
        let mut i: usize = 0;
        while i < self.regions.len()
            invariant
                i <= self.regions.len(),
                regions@ == self.regions@.take(i as int),
            decreases self.regions.len() - i,
        {
            regions.push(self.regions[i]);
            proof {
                assert(self.regions@.take(i as int + 1) =~= self.regions@.take(i as int).push(
                    self.regions@[i as int],
                ));
            }
            i += 1;
        }
        proof {
            assert(self.regions@.take(self.regions@.len() as int) =~= self.regions@);
        }
        regions
    }

    /// The cell at `line_column`, if the grid has one there.
    #[must_use]
    pub fn cell(&self, line_column: LineColumn) -> (result: Option<GridCell>)
        ensures
            result == if self.in_grid(line_column) {
                Some(self@[line_column.line as int][line_column.column as int])
            } else {
                None
            },
    {
        proof {
            use_type_invariant(self);
        }
        if line_column.line < self.nb_lines() && line_column.column < self.nb_columns() {
            Some(self.parsed_grid[line_column.line][line_column.column])
        } else {
            None
        }
    }

    /// Region of the cell at `line_column`.
    #[must_use]
    pub fn cell_region(&self, line_column: LineColumn) -> (result: Region)
        requires
            self.in_grid(line_column),
        ensures
            result == self@[line_column.line as int][line_column.column as int].region,
    {
        proof {
            use_type_invariant(self);
        }
        self.parsed_grid[line_column.line][line_column.column].region
    }

    /// The cells of the grid, in row-major order.
    #[must_use]
    pub fn list_cells(&self) -> (result: Vec<GridCell>)
        ensures
            result@ == all_cells(self@),
    {
        list_cells_of(&self.parsed_grid)
    }

    /// The cells of the region `region`, in row-major order.
    #[must_use]
    pub fn region_cells(&self, region: Region) -> (result: Vec<GridCell>)
        ensures
            result@ == all_cells(self@).filter(region_test(region)),
            result@.len() == self.region_size(region),
    {
        let cells = self.list_cells();
        let ghost test = region_test(region);
        let mut region_cells: Vec<GridCell> = Vec::new();
        let mut i: usize = 0;
        while i < cells.len()
            invariant
                i <= cells.len(),
                test == region_test(region),
                region_cells@ == cells@.take(i as int).filter(test),
            decreases cells.len() - i,
        {
            let cell = cells[i];
            proof {
                assert(cells@.take(i as int + 1) =~= cells@.take(i as int).push(cell));
                crate::sequences::lemma_filter_push_one(cells@.take(i as int), test, cell);
            }
            if cell.region == region {
                region_cells.push(cell);
            }
            i += 1;
        }
        proof {
            assert(cells@.take(cells@.len() as int) =~= cells@);
        }
        region_cells
    }
}

impl<'a> TryFrom<&'a Vec<String>> for GridParser {
    type Error = GridParseError;

    /// Reads a puzzle from the lines of its text.
    fn try_from(value: &'a Vec<String>) -> (result: Result<Self, Self::Error>)
        ensures
            match result {
                Ok(parser) => text_error(strings_view(value@)) is None && parser@ == cells_of_rows(
                    rows_of(strings_view(value@)),
                ),
                Err(error) => text_error(strings_view(value@)) == Some(error),
            },
    {
        let mut lines: Vec<Vec<char>> = Vec::new();
        let mut i: usize = 0;
        while i < value.len()
            invariant
                i <= value.len(),
                lines_view(lines@) == strings_view(value@.take(i as int)),
            decreases value.len() - i,
        {
            let line = chars_of(value[i].as_str());
            proof {
                assert(value@.take(i as int + 1) =~= value@.take(i as int).push(value@[i as int]));
                assert(lines_view(lines@.push(line)) =~= lines_view(lines@).push(line@));
                assert(strings_view(value@.take(i as int).push(value@[i as int]))
                    =~= strings_view(value@.take(i as int)).push(value@[i as int]@));
            }
            lines.push(line);
            i += 1;
        }
        proof {
            assert(value@.take(value@.len() as int) =~= value@);
        }
        Self::try_from_text_lines(&lines)
    }
}

impl<'a> TryFromSpecImpl<&'a Vec<String>> for GridParser {
    open spec fn obeys_try_from_spec() -> bool {
        false
    }

    open spec fn try_from_spec(value: &'a Vec<String>) -> Result<Self, Self::Error> {
        arbitrary()
    }
}

impl TryFrom<Vec<String>> for GridParser {
    type Error = GridParseError;

    /// Reads a puzzle from the lines of its text.
    fn try_from(value: Vec<String>) -> (result: Result<Self, Self::Error>)
        ensures
            match result {
                Ok(parser) => text_error(strings_view(value@)) is None && parser@ == cells_of_rows(
                    rows_of(strings_view(value@)),
                ),
                Err(error) => text_error(strings_view(value@)) == Some(error),
            },
    {
        Self::try_from(&value)
    }
}

impl TryFromSpecImpl<Vec<String>> for GridParser {
    open spec fn obeys_try_from_spec() -> bool {
        false
    }

    open spec fn try_from_spec(value: Vec<String>) -> Result<Self, Self::Error> {
        arbitrary()
    }
}

impl<'a> TryFrom<Vec<&'a str>> for GridParser {
    type Error = GridParseError;

    /// Reads a puzzle from the lines of its text.
    fn try_from(value: Vec<&'a str>) -> (result: Result<Self, Self::Error>)
        ensures
            match result {
                Ok(parser) => text_error(strs_view(value@)) is None && parser@ == cells_of_rows(
                    rows_of(strs_view(value@)),
                ),
                Err(error) => text_error(strs_view(value@)) == Some(error),
            },
    {
        let mut lines: Vec<Vec<char>> = Vec::new();
        let mut i: usize = 0;
        while i < value.len()
            invariant
                i <= value.len(),
                lines_view(lines@) == strs_view(value@.take(i as int)),
            decreases value.len() - i,
        {
            let line = chars_of(value[i]);
            proof {
                assert(value@.take(i as int + 1) =~= value@.take(i as int).push(value@[i as int]));
                assert(lines_view(lines@.push(line)) =~= lines_view(lines@).push(line@));
                assert(strs_view(value@.take(i as int).push(value@[i as int])) =~= strs_view(
                    value@.take(i as int),
                ).push(value@[i as int]@));
            }
            lines.push(line);
            i += 1;
        }
        proof {
            assert(value@.take(value@.len() as int) =~= value@);
        }
        Self::try_from_text_lines(&lines)
    }
}

impl<'a> TryFromSpecImpl<Vec<&'a str>> for GridParser {
    open spec fn obeys_try_from_spec() -> bool {
        false
    }

    open spec fn try_from_spec(value: Vec<&'a str>) -> Result<Self, Self::Error> {
        arbitrary()
    }
}

impl<'a> TryFrom<&'a str> for GridParser {
    type Error = GridParseError;

    /// Reads a puzzle from its text, one line of the grid on each line.
    fn try_from(value: &'a str) -> (result: Result<Self, Self::Error>)
        ensures
            match result {
                Ok(parser) => text_error(split_lines(value@)) is None && parser@ == cells_of_rows(
                    rows_of(split_lines(value@)),
                ),
                Err(error) => text_error(split_lines(value@)) == Some(error),
            },
    {
        let text = chars_of(value);
        let lines = split_text(&text);
        Self::try_from_text_lines(&lines)
    }
}

impl<'a> TryFromSpecImpl<&'a str> for GridParser {
    open spec fn obeys_try_from_spec() -> bool {
        false
    }

    open spec fn try_from_spec(value: &'a str) -> Result<Self, Self::Error> {
        arbitrary()
    }
}

/// The characters of `text`.
pub fn chars_of(text: &str) -> (result: Vec<char>)
    ensures
        result@ == text@,
{
    let len = text.unicode_len();
    let mut chars: Vec<char> = Vec::new();
    let mut i: usize = 0;
    while i < len
        invariant
            i <= len,
            len == text@.len(),
            chars@ == text@.take(i as int),
        decreases len - i,
    {
        chars.push(text.get_char(i));
        proof {
            assert(text@.take(i as int + 1) =~= text@.take(i as int).push(text@[i as int]));
        }
        i += 1;
    }
    proof {
        assert(text@.take(len as int) =~= text@);
    }
    chars
}

/// The lines of `text`: what stands between its line feeds.
pub fn split_text(text: &Vec<char>) -> (result: Vec<Vec<char>>)
    ensures
        lines_view(result@) == split_lines(text@),
{
    let mut lines: Vec<Vec<char>> = Vec::new();
    let mut current: Vec<char> = Vec::new();
    let mut i: usize = 0;
    while i < text.len()
        invariant
            i <= text.len(),
            lines_view(lines@).push(current@) == split_lines(text@.take(i as int)),
        decreases text.len() - i,
    {
        let c = char_at(text, i);
        proof {
            assert(text@.take(i as int + 1).drop_last() =~= text@.take(i as int));
            assert(text@.take(i as int + 1).last() == c);
        }
        if c == '\n' {
            proof {
                assert(lines_view(lines@.push(current)) =~= lines_view(lines@).push(current@));
            }
            lines.push(current);
            current = Vec::new();
        } else {
            proof {
                let before = lines_view(lines@).push(current@);
                assert(before.update(before.len() - 1, before.last().push(c)) =~= lines_view(
                    lines@,
                ).push(current@.push(c)));
            }
            current.push(c);
        }
        i += 1;
    }
    proof {
        assert(text@.take(text@.len() as int) =~= text@);
        assert(lines_view(lines@.push(current)) =~= lines_view(lines@).push(current@));
    }
    lines.push(current);
    lines
}

/// The cells of `lines`, in row-major order.
fn list_cells_of(lines: &Vec<Vec<GridCell>>) -> (result: Vec<GridCell>)
    ensures
        result@ == all_cells(Seq::new(lines@.len(), |line: int| lines@[line]@)),
{
    let ghost cells = Seq::new(lines@.len(), |line: int| lines@[line]@);
    let mut list: Vec<GridCell> = Vec::new();
    let mut line: usize = 0;
    while line < lines.len()
        invariant
            line <= lines.len(),
            cells == Seq::new(lines@.len(), |line: int| lines@[line]@),
            list@ == cells_before(cells, line as int),
        decreases lines.len() - line,
    {
        let row = &lines[line];
        let ghost before = list@;
        let mut column: usize = 0;
        while column < row.len()
            invariant
                column <= row.len(),
                list@ == before + row@.take(column as int),
            decreases row.len() - column,
        {
            list.push(row[column]);
            proof {
                assert(before + row@.take(column as int + 1) =~= (before + row@.take(
                    column as int,
                )).push(row@[column as int]));
            }
            column += 1;
        }
        proof {
            assert(row@.take(row@.len() as int) =~= row@);
            assert(cells[line as int] == row@);
        }
        line += 1;
    }
    list
}

/// The regions of the cells of `lines`, each once, in the order in which a
/// reading in row-major order meets them.
fn collect_regions(lines: &Vec<Vec<GridCell>>) -> (result: Vec<Region>)
    ensures
        result@ == regions_in_order(Seq::new(lines@.len(), |line: int| lines@[line]@)),
{
    let cells = list_cells_of(lines);
    let ghost labels = regions_of(cells@);
    let mut regions: Vec<Region> = Vec::new();
    let mut i: usize = 0;
    while i < cells.len()
        invariant
            i <= cells.len(),
            labels == regions_of(cells@),
            regions@ == first_appearances(labels.take(i as int)),
        decreases cells.len() - i,
    {
        let region = cells[i].region;
        proof {
            assert(labels.take(i as int + 1).drop_last() =~= labels.take(i as int));
            assert(labels.take(i as int + 1).last() == region);
        }
        if !contains_region(&regions, region) {
            regions.push(region);
        }
        i += 1;
    }
    proof {
        assert(labels.take(labels.len() as int) =~= labels);
    }
    regions
}

/// `true` when `region` is one of `regions`.
pub fn contains_region(regions: &Vec<Region>, region: Region) -> (result: bool)
    ensures
        result == regions@.contains(region),
{
    let mut i: usize = 0;
    while i < regions.len()
        invariant
            i <= regions.len(),
            forall|k: int| 0 <= k < i ==> regions@[k] != region,
        decreases regions.len() - i,
    {
        if regions[i] == region {
            return true;
        }
        i += 1;
    }
    false
}

/// The character of `line` at `index`.
fn char_at(line: &Vec<char>, index: usize) -> (result: char)
    requires
        index < line@.len(),
    ensures
        result == line@[index as int],
{
    line[index]
}

/// `true` for a character that is dropped around a line.
fn is_white_space_char(c: char) -> (result: bool)
    ensures
        result == is_white_space(c),
{
    let code = c as u32;
    (0x09 <= code && code <= 0x0D) || code == 0x20 || code == 0x85 || code == 0xA0 || code
        == 0x1680 || (0x2000 <= code && code <= 0x200A) || code == 0x2028 || code == 0x2029
        || code == 0x202F || code == 0x205F || code == 0x3000
}

/// `true` for a character that marks a line as a comment.
fn is_comment_char(c: char) -> (result: bool)
    ensures
        result == is_comment_mark(c),
{
    c == '#' || c == ';' || c == '@'
}

/// Where `line` starts and ends once the white space around it is dropped.
fn trim_bounds(line: &Vec<char>) -> (result: (usize, usize))
    ensures
        result.0 <= result.1 <= line@.len(),
        trimmed(line@) == line@.subrange(result.0 as int, result.1 as int),
{
    let len = line.len();
    let mut start: usize = 0;
    proof {
        assert(line@.skip(0) =~= line@);
    }
    while start < len && is_white_space_char(line[start])
        invariant
            start <= len,
            len == line@.len(),
            trimmed_start(line@) == trimmed_start(line@.skip(start as int)),
        decreases len - start,
    {
        proof {
            assert(line@.skip(start as int).drop_first() =~= line@.skip(start as int + 1));
        }
        start += 1;
    }
    let ghost rest = line@.skip(start as int);
    proof {
        assert(trimmed_start(line@) == rest);
        assert(rest =~= line@.subrange(start as int, len as int));
    }
    let mut end: usize = len;
    while end > start && is_white_space_char(line[end - 1])
        invariant
            start <= end <= len,
            len == line@.len(),
            trimmed_end(rest) == trimmed_end(line@.subrange(start as int, end as int)),
        decreases end - start,
    {
        proof {
            assert(line@.subrange(start as int, end as int).drop_last() =~= line@.subrange(
                start as int,
                end as int - 1,
            ));
        }
        end -= 1;
    }
    (start, end)
}

/// Reads the line `number` of the grid from the characters of `line` between
/// `start` and `end`: its cells, or the first of its characters that cannot
/// name a region.
fn parse_text_line(line: &Vec<char>, start: usize, end: usize, number: usize) -> (result: Result<
    Vec<GridCell>,
    char,
>)
    requires
        start <= end <= line@.len(),
    ensures
        match result {
            Ok(cells) => {
                &&& line@.subrange(start as int, end as int).filter(illegal_region_test()).len()
                    == 0
                &&& cells@ == cells_of_row(number as int, line@.subrange(start as int, end as int))
            },
            Err(character) => {
                let illegal = line@.subrange(start as int, end as int).filter(
                    illegal_region_test(),
                );
                illegal.len() > 0 && illegal[0] == character
            },
        },
{
    let ghost row = line@.subrange(start as int, end as int);
    let ghost test = illegal_region_test();
    let mut cells: Vec<GridCell> = Vec::new();
    let mut i: usize = start;
    while i < end
        invariant
            start <= i <= end <= line@.len(),
            row == line@.subrange(start as int, end as int),
            test == illegal_region_test(),
            forall|k: int| 0 <= k < i - start ==> !test(#[trigger] row[k]),
            cells@ == cells_of_row(number as int, row.take(i - start)),
        decreases end - i,
    {
        let region = char_at(line, i);
        proof {
            assert(row[i - start] == region);
        }
        if region == ' ' || region == '\t' || region == '\n' || region == '\r' {
            proof {
                lemma_filter_first(row, test, i - start);
            }
            return Err(region);
        }
        cells.push(
            GridCell {
                line_column: LineColumn::new(number, i - start),
                region,
                value: CellValue::Unknown,
            },
        );
        proof {
            assert(cells@ =~= cells_of_row(number as int, row.take(i - start + 1)));
        }
        i += 1;
    }
    proof {
        assert(row.take(row.len() as int) =~= row);
        lemma_filter_nothing(row, test);
    }
    Ok(cells)
}

impl GridParseError {
    /// The text that tells what is wrong with the text of a puzzle. Lines
    /// are numbered from 1.
    pub open spec fn text(self) -> Seq<char> {
        match self {
            Self::IllegalRegionChar(line, character) => "Erreur à la ligne #"@
                + crate::line_column::line_label(line) + ": Le caractère '"@.push(character)
                + "' n'est pas valide pour identifier une région"@,
            Self::InconsistentLineLength(line) => "Erreur à la ligne #"@
                + crate::line_column::line_label(line)
                + ": La ligne de la grille n'est pas la même longueur"@,
            Self::NoRegion => "La grille n'a aucune région définie"@,
            Self::RegionNotConnected(region) => "La region '"@.push(region)
                + "' n'est pas un bloc consistant dans cette grille"@,
        }
    }

    /// The text that tells what is wrong with the text of a puzzle.
    pub fn to_text(&self) -> (result: String)
        ensures
            result@ == self.text(),
    {
        let mut text = String::new();
        match self {
            Self::IllegalRegionChar(line, character) => {
                text.append("Erreur à la ligne #");
                text.append(crate::line_column::display_line(*line).as_str());
                text.append(": Le caractère '");
                text.push(*character);
                text.append("' n'est pas valide pour identifier une région");
            },
            Self::InconsistentLineLength(line) => {
                text.append("Erreur à la ligne #");
                text.append(crate::line_column::display_line(*line).as_str());
                text.append(": La ligne de la grille n'est pas la même longueur");
            },
            Self::NoRegion => {
                text.append("La grille n'a aucune région définie");
            },
            Self::RegionNotConnected(region) => {
                text.append("La region '");
                text.push(*region);
                text.append("' n'est pas un bloc consistant dans cette grille");
            },
        }
        proof {
            assert(text@ =~= self.text());
        }
        text
    }
}

} // verus!
