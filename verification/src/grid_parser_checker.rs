//! Check that each region of a grid that was read is in one piece.

use vstd::prelude::*;

use crate::grid::GridView;
use crate::grid_parser::{regions_in_order, GridParseError};
use crate::sequences::{first_some, lemma_first_some_at, lemma_first_some_none};
use crate::GridParser;
use crate::LineColumn;
use crate::Region;

verus! {

/// `a` and `b` share a side.
pub open spec fn side_by_side(a: LineColumn, b: LineColumn) -> bool {
    ||| a.column == b.column && (a.line + 1 == b.line || b.line + 1 == a.line)
    ||| a.line == b.line && (a.column + 1 == b.column || b.column + 1 == a.column)
}

/// `lc` is a cell of `cells`, of the region `region`.
pub open spec fn in_region(cells: GridView, region: Region, lc: LineColumn) -> bool {
    &&& lc.line < cells.len()
    &&& lc.column < cells[lc.line as int].len()
    &&& cells[lc.line as int][lc.column as int].region == region
}

/// `walk` is a walk inside the region `region`: each of its cells is of that
/// region and shares a side with the next.
pub open spec fn is_walk(cells: GridView, region: Region, walk: Seq<LineColumn>) -> bool {
    &&& walk.len() > 0
    &&& forall|i: int| 0 <= i < walk.len() ==> in_region(cells, region, #[trigger] walk[i])
    &&& forall|i: int| 0 <= i < walk.len() - 1 ==> side_by_side(#[trigger] walk[i], walk[i + 1])
}

/// `walk` is a walk inside the region `region` from `a` to `b`.
pub open spec fn walks_from_to(
    cells: GridView,
    region: Region,
    walk: Seq<LineColumn>,
    a: LineColumn,
    b: LineColumn,
) -> bool {
    is_walk(cells, region, walk) && walk.first() == a && walk.last() == b
}

/// `b` can be reached from `a` without leaving the region `region`.
pub open spec fn reachable(cells: GridView, region: Region, a: LineColumn, b: LineColumn) -> bool {
    exists|walk: Seq<LineColumn>| walks_from_to(cells, region, walk, a, b)
}

/// `first` is the first cell of the region `region`, in row-major order.
pub open spec fn is_first_of_region(cells: GridView, region: Region, first: LineColumn) -> bool {
    &&& in_region(cells, region, first)
    &&& forall|lc: LineColumn| in_region(cells, region, lc) ==> first == lc || first.precedes(lc)
}

/// The region `region` has a cell, and each of its cells can be reached from
/// its first cell without leaving the region: it is in one piece.
pub open spec fn region_connected(cells: GridView, region: Region) -> bool {
    exists|first: LineColumn|
        {
            &&& #[trigger] is_first_of_region(cells, region, first)
            &&& forall|lc: LineColumn|
                in_region(cells, region, lc) ==> reachable(cells, region, first, lc)
        }
}

/// The error of the region `region`, if it is not in one piece.
pub open spec fn region_error(cells: GridView, region: Region) -> Option<GridParseError> {
    if region_connected(cells, region) {
        None
    } else {
        Some(GridParseError::RegionNotConnected(region))
    }
}

/// [`region_error`] as a function of the region.
pub open spec fn region_error_test(cells: GridView) -> spec_fn(Region) -> Option<GridParseError> {
    |region: Region| region_error(cells, region)
}

/// The error of the first region of `cells`, in order of appearance, that is
/// not in one piece.
pub open spec fn connectivity_error(cells: GridView) -> Option<GridParseError> {
    first_some(regions_in_order(cells), region_error_test(cells))
}

/// One more step extends a walk inside a region.
pub proof fn lemma_reachable_step(
    cells: GridView,
    region: Region,
    a: LineColumn,
    via: LineColumn,
    b: LineColumn,
)
    requires
        reachable(cells, region, a, via),
        side_by_side(via, b),
        in_region(cells, region, b),
    ensures
        reachable(cells, region, a, b),
{
    let walk = choose|walk: Seq<LineColumn>| walks_from_to(cells, region, walk, a, via);
    let longer = walk.push(b);
    assert forall|i: int| 0 <= i < longer.len() - 1 implies side_by_side(
        #[trigger] longer[i],
        longer[i + 1],
    ) by {
        if i < walk.len() - 1 {
            assert(side_by_side(walk[i], walk[i + 1]));
        }
    }
    assert(walks_from_to(cells, region, longer, a, b));
}

/// A cell of a region can be reached from itself.
pub proof fn lemma_reachable_self(cells: GridView, region: Region, a: LineColumn)
    requires
        in_region(cells, region, a),
    ensures
        reachable(cells, region, a, a),
{
    assert(walks_from_to(cells, region, seq![a], a, a));
}

/// A walk taken backwards is a walk.
pub proof fn lemma_walk_back(
    cells: GridView,
    region: Region,
    walk: Seq<LineColumn>,
    a: LineColumn,
    b: LineColumn,
)
    requires
        walks_from_to(cells, region, walk, a, b),
    ensures
        walks_from_to(cells, region, walk.reverse(), b, a),
{
    let back = walk.reverse();
    assert forall|i: int| 0 <= i < back.len() implies in_region(cells, region, #[trigger] back[i]) by {
        assert(back[i] == walk[walk.len() - 1 - i]);
    }
    assert forall|i: int| 0 <= i < back.len() - 1 implies side_by_side(
        #[trigger] back[i],
        back[i + 1],
    ) by {
        assert(back[i] == walk[walk.len() - 1 - i]);
        assert(back[i + 1] == walk[walk.len() - 2 - i]);
        assert(side_by_side(walk[walk.len() - 2 - i], walk[walk.len() - 2 - i + 1]));
    }
    assert(back[0] == walk[walk.len() - 1]);
    assert(back[back.len() - 1] == walk[0]);
}

/// A walk that starts where another ends goes on from it.
pub proof fn lemma_walk_on(
    cells: GridView,
    region: Region,
    a: LineColumn,
    via: LineColumn,
    b: LineColumn,
)
    requires
        reachable(cells, region, a, via),
        reachable(cells, region, via, b),
    ensures
        reachable(cells, region, a, b),
{
    let first = choose|walk: Seq<LineColumn>| walks_from_to(cells, region, walk, a, via);
    let second = choose|walk: Seq<LineColumn>| walks_from_to(cells, region, walk, via, b);
    let whole = first + second.drop_first();
    assert forall|i: int| 0 <= i < whole.len() implies in_region(
        cells,
        region,
        #[trigger] whole[i],
    ) by {
        if i < first.len() {
            assert(whole[i] == first[i]);
        } else {
            assert(whole[i] == second[i - first.len() + 1]);
        }
    }
    assert forall|i: int| 0 <= i < whole.len() - 1 implies side_by_side(
        #[trigger] whole[i],
        whole[i + 1],
    ) by {
        if i < first.len() - 1 {
            assert(whole[i] == first[i] && whole[i + 1] == first[i + 1]);
            assert(side_by_side(first[i], first[i + 1]));
        } else if i == first.len() - 1 {
            assert(whole[i] == first[i] && whole[i + 1] == second[1]);
            assert(first[i] == second[0]);
            assert(side_by_side(second[0int], second[0int + 1]));
        } else {
            let k = i - first.len() + 1;
            assert(whole[i] == second[k] && whole[i + 1] == second[k + 1]);
            assert(side_by_side(second[k], second[k + 1]));
        }
    }
    assert(whole[0] == first[0]);
    if second.len() > 1 {
        assert(whole[whole.len() - 1] == second[second.len() - 1]);
    } else {
        assert(whole[whole.len() - 1] == first[first.len() - 1]);
    }
    assert(walks_from_to(cells, region, whole, a, b));
}

/// In a region that is in one piece, each cell can be reached from each
/// other without leaving the region.
pub proof fn lemma_region_connected(
    cells: GridView,
    region: Region,
    a: LineColumn,
    b: LineColumn,
)
    requires
        region_connected(cells, region),
        in_region(cells, region, a),
        in_region(cells, region, b),
    ensures
        reachable(cells, region, a, b),
{
    let first = choose|first: LineColumn|
        {
            &&& #[trigger] is_first_of_region(cells, region, first)
            &&& forall|lc: LineColumn|
                in_region(cells, region, lc) ==> reachable(cells, region, first, lc)
        };
    let there = choose|walk: Seq<LineColumn>| walks_from_to(cells, region, walk, first, a);
    lemma_walk_back(cells, region, there, first, a);
    assert(reachable(cells, region, a, first));
    lemma_walk_on(cells, region, a, first, b);
}

/// A list of cells that holds the first cell of a walk, and with each of its
/// cells those of the region that share a side with it, holds the last cell
/// of the walk.
pub proof fn lemma_closed_holds_walk(
    cells: GridView,
    region: Region,
    walk: Seq<LineColumn>,
    closed: Seq<LineColumn>,
)
    requires
        is_walk(cells, region, walk),
        closed.contains(walk.first()),
        forall|x: LineColumn, y: LineColumn|
            closed.contains(x) && #[trigger] side_by_side(x, y) && in_region(cells, region, y)
                ==> closed.contains(y),
    ensures
        closed.contains(walk.last()),
    decreases walk.len(),
{
    if walk.len() > 1 {
        let front = walk.drop_last();
        assert forall|i: int| 0 <= i < front.len() implies in_region(
            cells,
            region,
            #[trigger] front[i],
        ) by {
            assert(front[i] == walk[i]);
        }
        assert forall|i: int| 0 <= i < front.len() - 1 implies side_by_side(
            #[trigger] front[i],
            front[i + 1],
        ) by {
            assert(side_by_side(walk[i], walk[i + 1]));
        }
        assert(front.first() == walk.first());
        lemma_closed_holds_walk(cells, region, front, closed);
        assert(side_by_side(walk[walk.len() - 2], walk[walk.len() - 2 + 1]));
        assert(front.last() == walk[walk.len() - 2]);
        assert(in_region(cells, region, walk[walk.len() - 1]));
    }
}

/// A list without duplicates whose items are all in another list is not
/// longer than that list; if it is as long, and the other has no duplicates
/// either, it holds every item of the other.
pub proof fn lemma_sublist_len(part: Seq<LineColumn>, whole: Seq<LineColumn>)
    requires
        part.no_duplicates(),
        forall|x: LineColumn| part.contains(x) ==> whole.contains(x),
    ensures
        part.len() <= whole.len(),
        whole.no_duplicates() && part.len() == whole.len() ==> forall|x: LineColumn|
            whole.contains(x) ==> part.contains(x),
{
    part.unique_seq_to_set();
    whole.lemma_cardinality_of_set();
    vstd::seq_lib::seq_to_set_is_finite(part);
    vstd::seq_lib::seq_to_set_is_finite(whole);
    assert(part.to_set().subset_of(whole.to_set())) by {
        assert forall|x: LineColumn| part.to_set().contains(x) implies whole.to_set().contains(x) by {
            assert(part.contains(x));
        }
    }
    vstd::set_lib::lemma_len_subset(part.to_set(), whole.to_set());
    if whole.no_duplicates() && part.len() == whole.len() {
        whole.unique_seq_to_set();
        vstd::set_lib::lemma_subset_equality(part.to_set(), whole.to_set());
        assert forall|x: LineColumn| whole.contains(x) implies part.contains(x) by {
            assert(whole.to_set().contains(x));
            assert(part.to_set().contains(x));
        }
    }
}

/// Checks a grid that was read.
pub struct Checker {
    /// The grid to check.
    parser: GridParser,
}

impl Checker {
    /// The grid to check.
    pub closed spec fn spec_parser(&self) -> GridParser {
        self.parser
    }

    /// A checker of the grid `parser`.
    pub fn new(parser: GridParser) -> (result: Self)
        ensures
            result.spec_parser() == parser,
    {
        Self { parser }
    }

    /// Checks that each region of the grid is in one piece. The error is the
    /// first region, in order of appearance, that is not.
    pub fn check(&self) -> (result: Result<(), GridParseError>)
        ensures
            result == match connectivity_error(self.spec_parser()@) {
                Some(error) => Err::<(), GridParseError>(error),
                None => Ok(()),
            },
    {
        let regions = self.parser.regions();
        let ghost cells = self.parser@;
        let ghost test = region_error_test(cells);
        let mut i: usize = 0;
        while i < regions.len()
            invariant
                i <= regions.len(),
                cells == self.spec_parser()@,
                regions@ == regions_in_order(cells),
                test == region_error_test(cells),
                forall|k: int| 0 <= k < i ==> test(#[trigger] regions@[k]) is None,
            decreases regions.len() - i,
        {
            if !self.region_ok(regions[i]) {
                proof {
                    lemma_first_some_at(regions@, test, i as int);
                }
                return Err(GridParseError::RegionNotConnected(regions[i]));
            }
            i += 1;
        }
        proof {
            lemma_first_some_none(regions@, test);
        }
        Ok(())
    }

    /// `true` when the region `region` is in one piece.
    pub fn region_ok(&self, region: Region) -> (result: bool)
        ensures
            result == region_connected(self.spec_parser()@, region),
    {
        let ghost cells = self.parser@;
        proof {
            use_type_invariant(&self.parser);
            self.parser.lemma_wf();
        }
        let all_region_cells = self.region_positions(region);
        if all_region_cells.len() == 0 {
            proof {
                assert forall|first: LineColumn| !is_first_of_region(cells, region, first) by {
                    if in_region(cells, region, first) {
                        assert(all_region_cells@.contains(first));
                    }
                }
            }
            return false;
        }
        let first_cell = all_region_cells[0];
        proof {
            assert(all_region_cells@.contains(first_cell));
            assert forall|lc: LineColumn| in_region(cells, region, lc) implies first_cell == lc
                || first_cell.precedes(lc) by {
                assert(all_region_cells@.contains(lc));
                let k = choose|k: int| 0 <= k < all_region_cells@.len() && all_region_cells@[k] == lc;
                if k > 0 {
                    assert(all_region_cells@[0].precedes(all_region_cells@[k]));
                }
            }
            assert(is_first_of_region(cells, region, first_cell));
            lemma_reachable_self(cells, region, first_cell);
        }
        let mut cells_to_check: Vec<LineColumn> = Vec::new();
        cells_to_check.push(first_cell);
        let mut cells_checked: Vec<LineColumn> = Vec::new();
        proof {
            assert(cells_to_check@[0] == first_cell);
        }
        while cells_to_check.len() > 0
            invariant
                cells == self.spec_parser()@,
                self.spec_parser().wf(),
                is_first_of_region(cells, region, first_cell),
                crate::grid_handler::row_major(all_region_cells@),
                forall|lc: LineColumn| all_region_cells@.contains(lc) <==> in_region(cells, region, lc),
                cells_checked@.no_duplicates(),
                forall|k: int|
                    0 <= k < cells_checked@.len() ==> reachable(
                        cells,
                        region,
                        first_cell,
                        #[trigger] cells_checked@[k],
                    ) && in_region(cells, region, cells_checked@[k]),
                forall|k: int|
                    0 <= k < cells_to_check@.len() ==> reachable(
                        cells,
                        region,
                        first_cell,
                        #[trigger] cells_to_check@[k],
                    ) && in_region(cells, region, cells_to_check@[k]),
                cells_checked@.contains(first_cell) || cells_to_check@.contains(first_cell),
                forall|x: LineColumn, y: LineColumn|
                    cells_checked@.contains(x) && #[trigger] side_by_side(x, y) && in_region(
                        cells,
                        region,
                        y,
                    ) ==> cells_checked@.contains(y) || cells_to_check@.contains(y),
                cells_checked@.len() <= all_region_cells@.len(),
            decreases all_region_cells@.len() - cells_checked@.len(), cells_to_check@.len(),
        {
            let ghost to_check_before = cells_to_check@;
            let ghost checked_before = cells_checked@;
            let current_cell = cells_to_check.pop().unwrap();
            proof {
                assert(to_check_before[to_check_before.len() - 1] == current_cell);
                assert(cells_to_check@ == to_check_before.drop_last());
                assert forall|y: LineColumn| to_check_before.contains(y) implies y == current_cell
                    || cells_to_check@.contains(y) by {
                    let k = choose|k: int| 0 <= k < to_check_before.len() && to_check_before[k] == y;
                    if k < to_check_before.len() - 1 {
                        assert(cells_to_check@[k] == y);
                    }
                }
            }
            if !contains_cell(&cells_checked, current_cell) {
                cells_checked.push(current_cell);
                proof {
                    assert(cells_checked@[checked_before.len() as int] == current_cell);
                    assert forall|y: LineColumn| checked_before.contains(y) implies cells_checked@.contains(
                        y,
                    ) by {
                        let k = choose|k: int| 0 <= k < checked_before.len() && checked_before[k] == y;
                        assert(cells_checked@[k] == y);
                    }
                    assert forall|y: LineColumn| cells_checked@.contains(y) implies y == current_cell
                        || checked_before.contains(y) by {
                        let k = choose|k: int| 0 <= k < cells_checked@.len() && cells_checked@[k] == y;
                        if k < checked_before.len() {
                            assert(checked_before[k] == y);
                        }
                    }
                    assert forall|x: LineColumn| cells_checked@.contains(x) implies all_region_cells@.contains(
                        x,
                    ) by {
                        let k = choose|k: int| 0 <= k < cells_checked@.len() && cells_checked@[k] == x;
                        assert(in_region(cells, region, cells_checked@[k]));
                    }
                    lemma_sublist_len(cells_checked@, all_region_cells@);
                }
                let adjacent_region_cells = self.adjacent_region_cells(current_cell, region);
                let ghost to_check_mid = cells_to_check@;
                let mut j: usize = 0;
                while j < adjacent_region_cells.len()
                    invariant
                        j <= adjacent_region_cells.len(),
                        cells == self.spec_parser()@,
                        forall|k: int|
                            0 <= k < adjacent_region_cells@.len() ==> side_by_side(
                                current_cell,
                                #[trigger] adjacent_region_cells@[k],
                            ) && in_region(cells, region, adjacent_region_cells@[k]),
                        reachable(cells, region, first_cell, current_cell),
                        forall|k: int|
                            0 <= k < cells_to_check@.len() ==> reachable(
                                cells,
                                region,
                                first_cell,
                                #[trigger] cells_to_check@[k],
                            ) && in_region(cells, region, cells_to_check@[k]),
                        forall|y: LineColumn| to_check_mid.contains(y) ==> cells_to_check@.contains(y),
                        forall|k: int|
                            0 <= k < j ==> cells_checked@.contains(
                                #[trigger] adjacent_region_cells@[k],
                            ) || cells_to_check@.contains(adjacent_region_cells@[k]),
                    decreases adjacent_region_cells.len() - j,
                {
                    let adjacent_region_cell = adjacent_region_cells[j];
                    let ghost to_check_now = cells_to_check@;
                    if !contains_cell(&cells_checked, adjacent_region_cell) {
                        proof {
                            lemma_reachable_step(
                                cells,
                                region,
                                first_cell,
                                current_cell,
                                adjacent_region_cell,
                            );
                        }
                        cells_to_check.push(adjacent_region_cell);
                        proof {
                            assert(cells_to_check@[to_check_now.len() as int] == adjacent_region_cell);
                            assert forall|y: LineColumn| to_check_now.contains(y) implies cells_to_check@.contains(
                                y,
                            ) by {
                                let k = choose|k: int| 0 <= k < to_check_now.len() && to_check_now[k] == y;
                                assert(cells_to_check@[k] == y);
                            }
                        }
                    }
                    j += 1;
                }
                proof {
                    assert forall|x: LineColumn, y: LineColumn|
                        cells_checked@.contains(x) && #[trigger] side_by_side(x, y) && in_region(
                            cells,
                            region,
                            y,
                        ) implies cells_checked@.contains(y) || cells_to_check@.contains(y) by {
                        if x == current_cell {
                            assert(adjacent_region_cells@.contains(y));
                            let k = choose|k: int|
                                0 <= k < adjacent_region_cells@.len() && adjacent_region_cells@[k] == y;
                            assert(cells_checked@.contains(adjacent_region_cells@[k])
                                || cells_to_check@.contains(adjacent_region_cells@[k]));
                        } else {
                            assert(checked_before.contains(x));
                            assert(checked_before.contains(y) || to_check_before.contains(y));
                        }
                    }
                }
            }
        }
        proof {
            assert(cells_checked@.contains(first_cell));
            assert forall|x: LineColumn| cells_checked@.contains(x) implies all_region_cells@.contains(
                x,
            ) by {
                let k = choose|k: int| 0 <= k < cells_checked@.len() && cells_checked@[k] == x;
                assert(in_region(cells, region, cells_checked@[k]));
            }
            lemma_sublist_len(cells_checked@, all_region_cells@);
            crate::grid_handler::lemma_row_major_no_duplicates(all_region_cells@);
            if cells_checked@.len() == all_region_cells@.len() {
                assert forall|lc: LineColumn| in_region(cells, region, lc) implies reachable(
                    cells,
                    region,
                    first_cell,
                    lc,
                ) by {
                    assert(cells_checked@.contains(lc));
                    let k = choose|k: int| 0 <= k < cells_checked@.len() && cells_checked@[k] == lc;
                    assert(reachable(cells, region, first_cell, cells_checked@[k]));
                }
                assert(region_connected(cells, region));
            }
            if region_connected(cells, region) {
                let first = choose|first: LineColumn|
                    {
                        &&& #[trigger] is_first_of_region(cells, region, first)
                        &&& forall|lc: LineColumn|
                            in_region(cells, region, lc) ==> reachable(cells, region, first, lc)
                    };
                assert(first == first_cell) by {
                    if first != first_cell {
                        assert(first.precedes(first_cell));
                        assert(first_cell.precedes(first));
                    }
                }
                assert forall|x: LineColumn| all_region_cells@.contains(x) implies cells_checked@.contains(
                    x,
                ) by {
                    let walk = choose|walk: Seq<LineColumn>|
                        walks_from_to(cells, region, walk, first_cell, x);
                    lemma_closed_holds_walk(cells, region, walk, cells_checked@);
                }
                lemma_sublist_len(all_region_cells@, cells_checked@);
            }
        }
        cells_checked.len() == all_region_cells.len()
    }

    /// The cells of the region `region`, in row-major order.
    fn region_positions(&self, region: Region) -> (result: Vec<LineColumn>)
        ensures
            crate::grid_handler::row_major(result@),
            forall|lc: LineColumn|
                result@.contains(lc) <==> in_region(self.spec_parser()@, region, lc),
    {
        proof {
            use_type_invariant(&self.parser);
            self.parser.lemma_wf();
        }
        let ghost cells = self.parser@;
        let nb_lines = self.parser.nb_lines();
        let nb_columns = self.parser.nb_columns();
        let mut positions: Vec<LineColumn> = Vec::new();
        let mut line: usize = 0;
        while line < nb_lines
            invariant
                line <= nb_lines,
                cells == self.spec_parser()@,
                nb_lines == cells.len(),
                nb_columns == cells[0].len(),
                forall|l: int| 0 <= l < cells.len() ==> (#[trigger] cells[l]).len() == nb_columns,
                crate::grid_handler::row_major(positions@),
                forall|lc: LineColumn|
                    positions@.contains(lc) <==> (in_region(cells, region, lc) && lc.line < line),
            decreases nb_lines - line,
        {
            let mut column: usize = 0;
            while column < nb_columns
                invariant
                    line < nb_lines,
                    column <= nb_columns,
                    cells == self.spec_parser()@,
                    nb_lines == cells.len(),
                    nb_columns == cells[0].len(),
                    forall|l: int| 0 <= l < cells.len() ==> (#[trigger] cells[l]).len() == nb_columns,
                    crate::grid_handler::row_major(positions@),
                    forall|lc: LineColumn|
                        positions@.contains(lc) <==> (in_region(cells, region, lc) && (lc.line < line
                            || (lc.line == line && lc.column < column))),
                decreases nb_columns - column,
            {
                let line_column = LineColumn::new(line, column);
                let ghost before = positions@;
                if self.parser.cell_region(line_column) == region {
                    positions.push(line_column);
                    proof {
                        assert(positions@[before.len() as int] == line_column);
                        assert forall|i: int, j: int| 0 <= i < j < positions@.len() implies (#[trigger] positions@[i]).precedes(
                            #[trigger] positions@[j],
                        ) by {
                            if j == before.len() {
                                assert(before.contains(before[i]));
                            } else {
                                assert(before[i].precedes(before[j]));
                            }
                        }
                        assert forall|lc: LineColumn| positions@.contains(lc) <==> (in_region(
                            cells,
                            region,
                            lc,
                        ) && (lc.line < line || (lc.line == line && lc.column < column + 1))) by {
                            if positions@.contains(lc) {
                                let k = choose|k: int| 0 <= k < positions@.len() && positions@[k] == lc;
                                if k < before.len() {
                                    assert(before.contains(before[k]));
                                }
                            }
                            if in_region(cells, region, lc) && (lc.line < line || (lc.line == line
                                && lc.column < column + 1)) {
                                if lc == line_column {
                                } else {
                                    assert(before.contains(lc));
                                    let k = choose|k: int| 0 <= k < before.len() && before[k] == lc;
                                    assert(positions@[k] == lc);
                                }
                            }
                        }
                    }
                }
                column += 1;
            }
            line += 1;
        }
        positions
    }

    /// The cells that share a side with `cell`: above, below, left, right.
    fn adjacent_cells(&self, cell: LineColumn) -> (result: Vec<LineColumn>)
        requires
            self.spec_parser().in_grid(cell),
        ensures
            forall|k: int|
                0 <= k < result@.len() ==> side_by_side(cell, #[trigger] result@[k])
                    && self.spec_parser().in_grid(result@[k]),
            forall|other: LineColumn|
                side_by_side(cell, other) && self.spec_parser().in_grid(other)
                    ==> result@.contains(other),
    {
        let line = cell.line;
        let column = cell.column;
        let nb_lines = self.parser.nb_lines();
        let nb_columns = self.parser.nb_columns();
        let mut cells: Vec<LineColumn> = Vec::new();
        if line > 0 {
            cells.push(LineColumn::new(line - 1, column));
        }
        if line < nb_lines - 1 {
            cells.push(LineColumn::new(line + 1, column));
        }
        if column > 0 {
            cells.push(LineColumn::new(line, column - 1));
        }
        if column < nb_columns - 1 {
            cells.push(LineColumn::new(line, column + 1));
        }
        proof {
            assert forall|other: LineColumn|
                side_by_side(cell, other) && self.spec_parser().in_grid(other) implies cells@.contains(
                other,
            ) by {
                let up = if line > 0 { 1int } else { 0int };
                let down = if line < nb_lines - 1 { 1int } else { 0int };
                let left = if column > 0 { 1int } else { 0int };
                if other.line + 1 == line {
                    assert(cells@[0] == other);
                } else if other.line == line + 1 {
                    assert(cells@[up] == other);
                } else if other.column + 1 == column {
                    assert(cells@[up + down] == other);
                } else {
                    assert(cells@[up + down + left] == other);
                }
            }
        }
        cells
    }

    /// The cells of the region `region` that share a side with `cell`.
    fn adjacent_region_cells(&self, cell: LineColumn, region: Region) -> (result: Vec<LineColumn>)
        requires
            in_region(self.spec_parser()@, region, cell),
            self.spec_parser().wf(),
        ensures
            forall|k: int|
                0 <= k < result@.len() ==> side_by_side(cell, #[trigger] result@[k]) && in_region(
                    self.spec_parser()@,
                    region,
                    result@[k],
                ),
            forall|other: LineColumn|
                side_by_side(cell, other) && in_region(self.spec_parser()@, region, other)
                    ==> result@.contains(other),
    {
        proof {
            self.parser.lemma_wf();
        }
        let adjacent = self.adjacent_cells(cell);
        let mut cells: Vec<LineColumn> = Vec::new();
        let mut i: usize = 0;
        while i < adjacent.len()
            invariant
                i <= adjacent.len(),
                self.spec_parser().wf(),
                forall|k: int|
                    0 <= k < adjacent@.len() ==> side_by_side(cell, #[trigger] adjacent@[k])
                        && self.spec_parser().in_grid(adjacent@[k]),
                forall|k: int|
                    0 <= k < cells@.len() ==> side_by_side(cell, #[trigger] cells@[k]) && in_region(
                        self.spec_parser()@,
                        region,
                        cells@[k],
                    ),
                forall|k: int|
                    0 <= k < i && in_region(self.spec_parser()@, region, #[trigger] adjacent@[k])
                        ==> cells@.contains(adjacent@[k]),
            decreases adjacent.len() - i,
        {
            let other = adjacent[i];
            let ghost before = cells@;
            proof {
                self.parser.lemma_wf();
            }
            if self.parser.cell_region(other) == region {
                cells.push(other);
                proof {
                    assert(cells@[before.len() as int] == other);
                    assert forall|k: int|
                        0 <= k < i + 1 && in_region(
                            self.spec_parser()@,
                            region,
                            #[trigger] adjacent@[k],
                        ) implies cells@.contains(adjacent@[k]) by {
                        if k < i {
                            assert(before.contains(adjacent@[k]));
                            let m = choose|m: int| 0 <= m < before.len() && before[m] == adjacent@[k];
                            assert(cells@[m] == adjacent@[k]);
                        }
                    }
                }
            }
            i += 1;
        }
        proof {
            self.parser.lemma_wf();
            assert forall|other: LineColumn|
                side_by_side(cell, other) && in_region(
                    self.spec_parser()@,
                    region,
                    other,
                ) implies cells@.contains(other) by {
                assert(self.spec_parser().in_grid(other));
                assert(adjacent@.contains(other));
                let k = choose|k: int| 0 <= k < adjacent@.len() && adjacent@[k] == other;
                assert(in_region(self.spec_parser()@, region, adjacent@[k]));
            }
        }
        cells
    }
}

/// `true` when `cell` is one of `cells`.
pub fn contains_cell(cells: &Vec<LineColumn>, cell: LineColumn) -> (result: bool)
    ensures
        result == cells@.contains(cell),
{
    let mut i: usize = 0;
    while i < cells.len()
        invariant
            i <= cells.len(),
            forall|k: int| 0 <= k < i ==> cells@[k] != cell,
        decreases cells.len() - i,
    {
        if cells[i] == cell {
            return true;
        }
        i += 1;
    }
    false
}

} // verus!
