//! Consistency of a grid with the rules of the puzzle.
//!
//! A grid is inconsistent when two stars touch, when a region, a line or a
//! column holds too many stars, or when it cannot hold enough of them any more.

use vstd::prelude::*;
use vstd::string::StringExecFns;

use crate::grid::{value_at, GridView};
use crate::line_column::has_column_label;
use crate::grid_surfer::region_zone;
use crate::sequences::{
    first_some, lemma_filter_first, lemma_filter_nothing, lemma_filter_push_one,
    lemma_first_some_at, lemma_first_some_none, lemma_first_some_none_all,
};
use crate::CellValue;
use crate::Grid;
use crate::GridHandler;
use crate::GridSurfer;
use crate::LineColumn;
use crate::Region;

verus! {

/// What makes a grid inconsistent.
#[derive(Clone, Copy, Debug, PartialEq, Eq, Structural)]
pub enum BadRuleError {
    /// The star in the first cell touches the star in the second.
    StarAdjacent(LineColumn, LineColumn),
    /// The zone holds more stars than it may.
    TooManyStarsInZone(GridSurfer),
    /// The zone has too few cells left for the stars that it still needs.
    NotEnoughStarsInZone(GridSurfer),
}

impl GridHandler {
    /// The neighbours of `lc` that hold a star in `cells`, in the order of
    /// [`GridHandler::neighbours`].
    pub open spec fn star_neighbours(&self, cells: GridView, lc: LineColumn) -> Seq<LineColumn> {
        self.neighbours(lc).filter(Self::value_test(cells, CellValue::Star))
    }

    /// The error that the star at `lc`, if there is one, gives with the first of
    /// its neighbours that holds a star too.
    pub open spec fn adjacency_error_at(&self, cells: GridView, lc: LineColumn) -> Option<
        BadRuleError,
    > {
        if value_at(cells, lc) == CellValue::Star && self.star_neighbours(cells, lc).len() > 0 {
            Some(BadRuleError::StarAdjacent(lc, self.star_neighbours(cells, lc)[0]))
        } else {
            None
        }
    }

    /// [`GridHandler::adjacency_error_at`] as a function of the cell.
    pub open spec fn adjacency_test(&self, cells: GridView) -> spec_fn(LineColumn) -> Option<
        BadRuleError,
    > {
        |lc: LineColumn| self.adjacency_error_at(cells, lc)
    }

    /// The error of the first cell, in row-major order, whose star touches
    /// another star.
    pub open spec fn adjacency_error(&self, cells: GridView) -> Option<BadRuleError> {
        first_some(self.all_cells(), self.adjacency_test(cells))
    }

    /// The error of the zone `zone` in `cells`, for `self.nb_stars()` stars to
    /// place in it: more stars than that, or too few stars and unknown cells
    /// to reach it.
    pub open spec fn zone_error(&self, cells: GridView, zone: GridSurfer) -> Option<BadRuleError> {
        let stars = Self::count_in(cells, self.zone_cells(zone), CellValue::Star);
        let unknown = Self::count_in(cells, self.zone_cells(zone), CellValue::Unknown);
        if stars > self.spec_nb_stars() {
            Some(BadRuleError::TooManyStarsInZone(zone))
        } else if stars + unknown < self.spec_nb_stars() {
            Some(BadRuleError::NotEnoughStarsInZone(zone))
        } else {
            None
        }
    }

    /// [`GridHandler::zone_error`] as a function of the zone.
    pub open spec fn zone_error_test(&self, cells: GridView) -> spec_fn(GridSurfer) -> Option<
        BadRuleError,
    > {
        |zone: GridSurfer| self.zone_error(cells, zone)
    }

    /// The zones of the regions, in the order of [`GridHandler::regions`].
    pub open spec fn region_zones(&self) -> Seq<GridSurfer> {
        self.spec_regions().map_values(|region: Region| region_zone(region))
    }

    /// The zones of the lines, top to bottom.
    pub open spec fn line_zones(&self) -> Seq<GridSurfer> {
        Seq::new(self.spec_nb_lines() as nat, |line: int| GridSurfer::Line(line as usize))
    }

    /// The zones of the columns, left to right.
    pub open spec fn column_zones(&self) -> Seq<GridSurfer> {
        Seq::new(self.spec_nb_columns() as nat, |column: int| GridSurfer::Column(column as usize))
    }

    /// The zones that each take `self.nb_stars()` stars: the regions, then the
    /// lines, then the columns.
    pub open spec fn star_zones(&self) -> Seq<GridSurfer> {
        self.region_zones() + self.line_zones() + self.column_zones()
    }

    /// The first thing that is wrong with `cells`: two stars that touch or,
    /// if there are none, the error of the first zone that has one.
    pub open spec fn first_error(&self, cells: GridView) -> Option<BadRuleError> {
        match self.adjacency_error(cells) {
            Some(error) => Some(error),
            None => first_some(self.star_zones(), self.zone_error_test(cells)),
        }
    }

    /// What [`check_bad_rules`] answers on `cells`.
    pub open spec fn check(&self, cells: GridView) -> Result<(), BadRuleError> {
        match self.first_error(cells) {
            Some(error) => Err(error),
            None => Ok(()),
        }
    }

    /// Where each zone stands in [`GridHandler::star_zones`].
    pub proof fn lemma_star_zones(&self)
        ensures
            self.star_zones().len() == self.spec_regions().len() + self.spec_nb_lines()
                + self.spec_nb_columns(),
            forall|i: int|
                0 <= i < self.spec_regions().len() ==> #[trigger] self.star_zones()[i]
                    == GridSurfer::Region(self.spec_regions()[i]),
            forall|line: int|
                0 <= line < self.spec_nb_lines() ==> #[trigger] self.star_zones()[self.spec_regions().len()
                    + line] == GridSurfer::Line(line as usize),
            forall|column: int|
                0 <= column < self.spec_nb_columns()
                    ==> #[trigger] self.star_zones()[self.spec_regions().len()
                    + self.spec_nb_lines() + column] == GridSurfer::Column(column as usize),
    {
        let regions = self.region_zones();
        let lines = self.line_zones();
        let columns = self.column_zones();
        let zones = self.star_zones();
        assert(regions.len() == self.spec_regions().len());
        assert(lines.len() == self.spec_nb_lines());
        assert(columns.len() == self.spec_nb_columns());
        assert(zones == (regions + lines) + columns);
        assert(zones.len() == regions.len() + lines.len() + columns.len());
        assert forall|i: int| 0 <= i < regions.len() implies #[trigger] zones[i]
            == GridSurfer::Region(self.spec_regions()[i]) by {
            assert(zones[i] == regions[i]);
        }
        assert forall|line: int| 0 <= line < lines.len() implies #[trigger] zones[regions.len()
            + line] == GridSurfer::Line(line as usize) by {
            assert(zones[regions.len() + line] == lines[line]);
        }
        assert forall|column: int| 0 <= column < columns.len() implies #[trigger] zones[regions.len()
            + lines.len() + column] == GridSurfer::Column(column as usize) by {
            assert(zones[regions.len() + lines.len() + column] == columns[column]);
        }
    }

    /// No two stars of `cells` touch.
    pub open spec fn no_stars_touch(&self, cells: GridView) -> bool {
        forall|a: LineColumn, b: LineColumn|
            self.in_grid(a) && self.in_grid(b) && #[trigger] a.touches(b) && value_at(cells, a)
                == CellValue::Star ==> value_at(cells, b) != CellValue::Star
    }

    /// Every region, line and column of `cells` holds at most
    /// `self.nb_stars()` stars, and at least as many stars and unknown cells.
    pub open spec fn zones_can_be_completed(&self, cells: GridView) -> bool {
        forall|i: int|
            0 <= i < self.star_zones().len() ==> self.zone_error(
                cells,
                #[trigger] self.star_zones()[i],
            ) is None
    }

    /// `cells` breaks no rule of the puzzle.
    pub open spec fn consistent(&self, cells: GridView) -> bool {
        self.no_stars_touch(cells) && self.zones_can_be_completed(cells)
    }

    /// No cell of `cells` is unknown.
    pub open spec fn fully_known(&self, cells: GridView) -> bool {
        forall|lc: LineColumn| self.in_grid(lc) ==> #[trigger] value_at(cells, lc) != CellValue::Unknown
    }

    /// There is no error of adjacency exactly when no two stars touch.
    pub proof fn lemma_adjacency_error(&self, cells: GridView)
        ensures
            self.adjacency_error(cells) is None <==> self.no_stars_touch(cells),
    {
        let all = self.all_cells();
        let test = self.adjacency_test(cells);
        let star = Self::value_test(cells, CellValue::Star);
        self.lemma_all_cells();
        if self.adjacency_error(cells) is None {
            lemma_first_some_none_all(all, test);
            assert forall|a: LineColumn, b: LineColumn|
                self.in_grid(a) && self.in_grid(b) && #[trigger] a.touches(b) && value_at(
                    cells,
                    a,
                ) == CellValue::Star implies value_at(cells, b) != CellValue::Star by {
                assert(all.contains(a));
                let i = choose|i: int| 0 <= i < all.len() && all[i] == a;
                assert(test(all[i]) is None);
                self.lemma_neighbours(a);
                let n = self.neighbours(a);
                assert(n.contains(b));
                if value_at(cells, b) == CellValue::Star {
                    let j = choose|j: int| 0 <= j < n.len() && n[j] == b;
                    n.lemma_filter_contains(star, j);
                }
            }
        }
        if self.no_stars_touch(cells) {
            assert forall|i: int| 0 <= i < all.len() implies test(#[trigger] all[i]) is None by {
                let a = all[i];
                assert(all.contains(a));
                self.lemma_neighbours(a);
                let n = self.neighbours(a);
                if value_at(cells, a) == CellValue::Star {
                    assert forall|j: int| 0 <= j < n.len() implies !star(#[trigger] n[j]) by {
                        assert(n.contains(n[j]));
                        assert(self.in_grid(a));
                        assert(self.in_grid(n[j]) && a.touches(n[j]));
                    }
                    lemma_filter_nothing(n, star);
                }
            }
            lemma_first_some_none(all, test);
        }
    }

    /// The check finds nothing wrong exactly when the grid is consistent.
    pub proof fn lemma_check_ok(&self, cells: GridView)
        ensures
            self.check(cells) is Ok <==> self.consistent(cells),
    {
        self.lemma_adjacency_error(cells);
        let zones = self.star_zones();
        let test = self.zone_error_test(cells);
        if self.check(cells) is Ok {
            lemma_first_some_none_all(zones, test);
        }
        if self.consistent(cells) {
            lemma_first_some_none(zones, test);
        }
    }

    /// `true` when a neighbour of `line_column` holds a star in `grid`.
    #[must_use]
    pub fn is_star_adjacent(&self, grid: &Grid, line_column: LineColumn) -> (result: bool)
        requires
            self.accepts(grid),
        ensures
            result == (self.star_neighbours(grid@, line_column).len() > 0),
    {
        self.first_star_neighbour(grid, line_column).is_some()
    }

    /// The first neighbour of `line_column`, in the order of
    /// [`GridHandler::adjacent_cells`], that holds a star in `grid`.
    pub fn first_star_neighbour(&self, grid: &Grid, line_column: LineColumn) -> (result: Option<
        LineColumn,
    >)
        requires
            self.accepts(grid),
        ensures
            result is Some <==> self.star_neighbours(grid@, line_column).len() > 0,
            result matches Some(neighbour) ==> neighbour == self.star_neighbours(
                grid@,
                line_column,
            )[0],
    {
        let neighbours = self.adjacent_cells(line_column);
        let ghost star = Self::value_test(grid@, CellValue::Star);
        proof {
            self.lemma_neighbours(line_column);
            assert forall|k: int| 0 <= k < neighbours@.len() implies self.in_grid(
                #[trigger] neighbours@[k],
            ) by {
                assert(neighbours@.contains(neighbours@[k]));
            }
        }
        let mut i: usize = 0;
        while i < neighbours.len()
            invariant
                i <= neighbours.len(),
                self.accepts(grid),
                neighbours@ == self.neighbours(line_column),
                forall|k: int| 0 <= k < neighbours@.len() ==> self.in_grid(#[trigger] neighbours@[k]),
                star == Self::value_test(grid@, CellValue::Star),
                forall|k: int| 0 <= k < i ==> !star(#[trigger] neighbours@[k]),
            decreases neighbours.len() - i,
        {
            let neighbour = neighbours[i];
            if grid.cell(neighbour).is_star() {
                proof {
                    lemma_filter_first(neighbours@, star, i as int);
                }
                return Some(neighbour);
            }
            i += 1;
        }
        proof {
            lemma_filter_nothing(neighbours@, star);
        }
        None
    }

    /// Number of stars and number of unknown cells among the items of `cells`.
    pub fn count_stars_and_unknown(&self, grid: &Grid, cells: &Vec<LineColumn>) -> (result: (
        usize,
        usize,
    ))
        requires
            self.accepts(grid),
            forall|i: int| 0 <= i < cells@.len() ==> self.in_grid(#[trigger] cells@[i]),
        ensures
            result.0 == Self::count_in(grid@, cells@, CellValue::Star),
            result.1 == Self::count_in(grid@, cells@, CellValue::Unknown),
            result.0 + result.1 <= cells.len(),
    {
        let ghost star = Self::value_test(grid@, CellValue::Star);
        let ghost unknown = Self::value_test(grid@, CellValue::Unknown);
        let mut nb_stars: usize = 0;
        let mut nb_unknown: usize = 0;
        let mut i: usize = 0;
        while i < cells.len()
            invariant
                i <= cells.len(),
                self.accepts(grid),
                forall|k: int| 0 <= k < cells@.len() ==> self.in_grid(#[trigger] cells@[k]),
                star == Self::value_test(grid@, CellValue::Star),
                unknown == Self::value_test(grid@, CellValue::Unknown),
                nb_stars == cells@.take(i as int).filter(star).len(),
                nb_unknown == cells@.take(i as int).filter(unknown).len(),
                nb_stars + nb_unknown <= i,
            decreases cells.len() - i,
        {
            let line_column = cells[i];
            proof {
                assert(cells@.take(i as int + 1) =~= cells@.take(i as int).push(line_column));
                lemma_filter_push_one(cells@.take(i as int), star, line_column);
                lemma_filter_push_one(cells@.take(i as int), unknown, line_column);
            }
            match grid.cell(line_column).value {
                CellValue::Star => nb_stars += 1,
                CellValue::Unknown => nb_unknown += 1,
                CellValue::NoStar => (),
            }
            i += 1;
        }
        proof {
            assert(cells@.take(cells@.len() as int) =~= cells@);
        }
        (nb_stars, nb_unknown)
    }
}

/// Checks `grid` against the rules of the puzzle.
///
/// The answer is the first thing found wrong, looking first for two stars that
/// touch, then at each region, each line and each column in turn.
pub fn check_bad_rules(handler: &GridHandler, grid: &Grid) -> (result: Result<(), BadRuleError>)
    requires
        handler.accepts(grid),
    ensures
        result == handler.check(grid@),
        result is Ok <==> handler.consistent(grid@),
{
    proof {
        handler.lemma_check_ok(grid@);
    }
    if let Err(error) = check_no_star_adjacent(handler, grid) {
        return Err(error);
    }
    let ghost zones = handler.star_zones();
    let ghost test = handler.zone_error_test(grid@);
    proof {
        handler.lemma_star_zones();
    }
    let regions = handler.regions();
    let mut i: usize = 0;
    while i < regions.len()
        invariant
            i <= regions.len(),
            handler.accepts(grid),
            regions@ == handler.spec_regions(),
            zones == handler.star_zones(),
            zones.len() == handler.spec_regions().len() + handler.spec_nb_lines()
                + handler.spec_nb_columns(),
            test == handler.zone_error_test(grid@),
            handler.adjacency_error(grid@) is None,
            forall|k: int| 0 <= k < i ==> test(#[trigger] zones[k]) is None,
        decreases regions.len() - i,
    {
        let zone = GridSurfer::Region(regions[i]);
        proof {
            handler.lemma_star_zones();
            assert(zones[i as int] == zone);
        }
        if let Err(error) = check_zone(handler, grid, &zone) {
            proof {
                lemma_first_some_at(zones, test, i as int);
            }
            return Err(error);
        }
        i += 1;
    }
    let nb_regions = regions.len();
    let nb_lines = handler.nb_lines();
    let mut line: usize = 0;
    while line < nb_lines
        invariant
            line <= nb_lines,
            nb_lines == handler.spec_nb_lines(),
            nb_regions == handler.spec_regions().len(),
            handler.accepts(grid),
            zones == handler.star_zones(),
            zones.len() == handler.spec_regions().len() + handler.spec_nb_lines()
                + handler.spec_nb_columns(),
            test == handler.zone_error_test(grid@),
            handler.adjacency_error(grid@) is None,
            forall|k: int| 0 <= k < nb_regions + line ==> test(#[trigger] zones[k]) is None,
        decreases nb_lines - line,
    {
        let zone = GridSurfer::Line(line);
        proof {
            handler.lemma_star_zones();
            assert(zones[handler.spec_regions().len() + line as int] == zone);
        }
        if let Err(error) = check_zone(handler, grid, &zone) {
            proof {
                lemma_first_some_at(zones, test, nb_regions + line);
            }
            return Err(error);
        }
        line += 1;
    }
    let nb_columns = handler.nb_columns();
    let mut column: usize = 0;
    while column < nb_columns
        invariant
            column <= nb_columns,
            nb_lines == handler.spec_nb_lines(),
            nb_columns == handler.spec_nb_columns(),
            nb_regions == handler.spec_regions().len(),
            handler.accepts(grid),
            zones == handler.star_zones(),
            zones.len() == handler.spec_regions().len() + handler.spec_nb_lines()
                + handler.spec_nb_columns(),
            test == handler.zone_error_test(grid@),
            handler.adjacency_error(grid@) is None,
            forall|k: int|
                0 <= k < nb_regions + nb_lines + column ==> test(#[trigger] zones[k]) is None,
        decreases nb_columns - column,
    {
        let zone = GridSurfer::Column(column);
        proof {
            handler.lemma_star_zones();
            assert(zones[handler.spec_regions().len() + handler.spec_nb_lines() + column as int]
                == zone);
        }
        if let Err(error) = check_zone(handler, grid, &zone) {
            proof {
                lemma_first_some_at(zones, test, nb_regions + nb_lines + column);
            }
            return Err(error);
        }
        column += 1;
    }
    proof {
        lemma_first_some_none(zones, test);
    }
    Ok(())
}

/// Looks for a star that touches another star, cell by cell in row-major order.
pub fn check_no_star_adjacent(handler: &GridHandler, grid: &Grid) -> (result: Result<
    (),
    BadRuleError,
>)
    requires
        handler.accepts(grid),
    ensures
        result == match handler.adjacency_error(grid@) {
            Some(error) => Err::<(), BadRuleError>(error),
            None => Ok(()),
        },
{
    let cells = handler.surfer(grid, &GridSurfer::AllCells);
    let ghost test = handler.adjacency_test(grid@);
    proof {
        handler.lemma_all_cells();
        handler.lemma_zone_all_cells();
        assert forall|k: int| 0 <= k < cells@.len() implies handler.in_grid(#[trigger] cells@[k]) by {
            assert(cells@.contains(cells@[k]));
        }
    }
    let mut i: usize = 0;
    while i < cells.len()
        invariant
            i <= cells.len(),
            handler.accepts(grid),
            cells@ == handler.all_cells(),
            forall|k: int| 0 <= k < cells@.len() ==> handler.in_grid(#[trigger] cells@[k]),
            test == handler.adjacency_test(grid@),
            forall|k: int| 0 <= k < i ==> test(#[trigger] cells@[k]) is None,
        decreases cells.len() - i,
    {
        let line_column = cells[i];
        if grid.cell(line_column).is_star() {
            if let Some(neighbour) = handler.first_star_neighbour(grid, line_column) {
                proof {
                    lemma_first_some_at(cells@, test, i as int);
                }
                return Err(BadRuleError::StarAdjacent(line_column, neighbour));
            }
        }
        i += 1;
    }
    proof {
        lemma_first_some_none(cells@, test);
    }
    Ok(())
}

/// Checks the number of stars of the zone `surfer` against
/// `handler.nb_stars()`.
pub fn check_zone(handler: &GridHandler, grid: &Grid, surfer: &GridSurfer) -> (result: Result<
    (),
    BadRuleError,
>)
    requires
        handler.accepts(grid),
    ensures
        result == match handler.zone_error(grid@, *surfer) {
            Some(error) => Err::<(), BadRuleError>(error),
            None => Ok(()),
        },
{
    let cells = handler.surfer(grid, surfer);
    proof {
        handler.lemma_zone_cells(*surfer);
        assert forall|i: int| 0 <= i < cells@.len() implies handler.in_grid(#[trigger] cells@[i]) by {
            assert(cells@.contains(cells@[i]));
        }
    }
    let (nb_stars, nb_possible_stars) = handler.count_stars_and_unknown(grid, &cells);
    if nb_stars > handler.nb_stars() {
        return Err(BadRuleError::TooManyStarsInZone(*surfer));
    } else if nb_stars + nb_possible_stars < handler.nb_stars() {
        return Err(BadRuleError::NotEnoughStarsInZone(*surfer));
    }
    Ok(())
}

impl BadRuleError {
    /// The cells and the zone that the error names have labels.
    pub open spec fn has_labels(self) -> bool {
        match self {
            Self::StarAdjacent(first, second) => has_column_label(first.column)
                && has_column_label(second.column),
            Self::TooManyStarsInZone(zone) => zone.has_labels(),
            Self::NotEnoughStarsInZone(zone) => zone.has_labels(),
        }
    }

    /// The text that tells what is wrong.
    pub open spec fn text(self) -> Seq<char> {
        match self {
            Self::StarAdjacent(first, second) => "Etoile "@ + first.text()
                + " adjacente à l'étoile "@ + second.text(),
            Self::TooManyStarsInZone(zone) => "Trop d'étoiles dans '"@ + zone.text() + "'"@,
            Self::NotEnoughStarsInZone(zone) => "Impossible de placer toutes les étoiles dans '"@
                + zone.text() + "'"@,
        }
    }

    /// The text that tells what is wrong.
    pub fn to_text(&self) -> (result: String)
        requires
            self.has_labels(),
        ensures
            result@ == self.text(),
    {
        let mut text = String::new();
        match self {
            Self::StarAdjacent(first, second) => {
                text.append("Etoile ");
                text.append(first.to_text().as_str());
                text.append(" adjacente à l'étoile ");
                text.append(second.to_text().as_str());
            },
            Self::TooManyStarsInZone(zone) => {
                text.append("Trop d'étoiles dans '");
                text.append(zone.to_text().as_str());
                text.append("'");
            },
            Self::NotEnoughStarsInZone(zone) => {
                text.append("Impossible de placer toutes les étoiles dans '");
                text.append(zone.to_text().as_str());
                text.append("'");
            },
        }
        proof {
            assert(text@ =~= self.text());
        }
        text
    }
}

} // verus!
