//! Search for the cells that touch a star in every grid of a list.

use vstd::prelude::*;

use crate::grid::{value_at, GridView};
use crate::grid_good_ruler::variant::grids_view;
use crate::CellValue;
use crate::Grid;
use crate::GridAction;
use crate::GridHandler;
use crate::GridSurfer;
use crate::LineColumn;

verus! {

/// What the grids seen so far say of the neighbourhood of a cell.
#[derive(Clone, Copy, Debug, PartialEq, Eq, Structural)]
pub enum StarAdjacent {
    /// No grid was seen yet.
    Init,
    /// In every grid seen the cell holds no star and touches one.
    Always,
    /// In some grid seen the cell holds a star, or touches none.
    Variable,
}

/// No action of `actions` is `action`.
pub open spec fn absent_from(actions: Seq<GridAction>) -> spec_fn(GridAction) -> bool {
    |action: GridAction| !actions.contains(action)
}

impl GridHandler {
    /// What the grids `grids` say of the neighbourhood of the cell at `lc`,
    /// one after the other.
    pub open spec fn star_adjacent_signal(&self, grids: Seq<GridView>, lc: LineColumn) -> StarAdjacent
        decreases grids.len(),
    {
        if grids.len() == 0 {
            StarAdjacent::Init
        } else if value_at(grids.last(), lc) == CellValue::Star {
            StarAdjacent::Variable
        } else if self.star_adjacent_signal(grids.drop_last(), lc) == StarAdjacent::Variable {
            StarAdjacent::Variable
        } else if self.star_neighbours(grids.last(), lc).len() > 0 {
            StarAdjacent::Always
        } else {
            StarAdjacent::Variable
        }
    }

    /// There is at least one grid in `grids`, and in each of them the cell at
    /// `lc` holds no star and touches one.
    pub open spec fn hemmed_in(&self, grids: Seq<GridView>, lc: LineColumn) -> bool {
        &&& grids.len() > 0
        &&& forall|i: int|
            0 <= i < grids.len() ==> value_at(#[trigger] grids[i], lc) != CellValue::Star
                && self.star_neighbours(grids[i], lc).len() > 0
    }

    /// The test of the cells that touch a star in every one of `grids`.
    pub open spec fn hemmed_in_test(&self, grids: Seq<GridView>) -> spec_fn(LineColumn) -> bool {
        |lc: LineColumn| self.star_adjacent_signal(grids, lc) == StarAdjacent::Always
    }

    /// The actions that rule out a star in each cell that is unknown in
    /// `cells`, never holds a star in `grids` and touches one in each of
    /// them, in row-major order.
    pub open spec fn star_adjacent_actions(&self, cells: GridView, grids: Seq<GridView>) -> Seq<
        GridAction,
    > {
        self.unknown_in(cells, GridSurfer::AllCells).filter(self.hemmed_in_test(grids)).map_values(
            |lc: LineColumn| GridAction::SetNoStar(lc),
        )
    }

    /// What [`try_star_complete`](crate::grid_good_ruler::try_star_complete)
    /// draws from the grids `grids` that complete a zone of `cells`: the
    /// values that never change, then the cells that always touch a star,
    /// without those already listed.
    pub open spec fn forced_actions(&self, cells: GridView, grids: Seq<GridView>) -> Seq<
        GridAction,
    > {
        let invariants = self.invariant_actions(cells, grids);
        invariants + self.star_adjacent_actions(cells, grids).filter(absent_from(invariants))
    }

    /// The neighbourhood of a cell is reported as `Always` exactly when the
    /// cell holds no star and touches one in each of the grids, and as `Init`
    /// exactly when there is no grid.
    pub proof fn lemma_star_adjacent_signal(&self, grids: Seq<GridView>, lc: LineColumn)
        ensures
            self.star_adjacent_signal(grids, lc) == StarAdjacent::Init <==> grids.len() == 0,
            self.star_adjacent_signal(grids, lc) == StarAdjacent::Always <==> self.hemmed_in(
                grids,
                lc,
            ),
        decreases grids.len(),
    {
        if grids.len() > 0 {
            let front = grids.drop_last();
            self.lemma_star_adjacent_signal(front, lc);
            if self.hemmed_in(grids, lc) {
                assert(value_at(grids[grids.len() - 1], lc) != CellValue::Star);
                if front.len() > 0 {
                    assert forall|i: int| 0 <= i < front.len() implies value_at(
                        #[trigger] front[i],
                        lc,
                    ) != CellValue::Star && self.star_neighbours(front[i], lc).len() > 0 by {
                        assert(front[i] == grids[i]);
                    }
                }
            }
            if self.star_adjacent_signal(grids, lc) == StarAdjacent::Always {
                assert forall|i: int| 0 <= i < grids.len() implies value_at(
                    #[trigger] grids[i],
                    lc,
                ) != CellValue::Star && self.star_neighbours(grids[i], lc).len() > 0 by {
                    if i < front.len() {
                        assert(front[i] == grids[i]);
                    }
                }
            }
        }
    }
}

impl StarAdjacent {
    /// The cells that are unknown in `grid`, never hold a star in
    /// `possible_grids` and touch one in each of them, each with the action
    /// that rules out a star in it, in row-major order.
    pub fn check_for_star_adjacents(
        handler: &GridHandler,
        grid: &Grid,
        possible_grids: &Vec<Grid>,
    ) -> (result: Vec<GridAction>)
        requires
            handler.accepts(grid),
            forall|i: int|
                0 <= i < possible_grids@.len() ==> handler.accepts(#[trigger] &possible_grids@[i]),
        ensures
            result@ == handler.star_adjacent_actions(grid@, grids_view(possible_grids@)),
    {
        let ghost grids = grids_view(possible_grids@);
        let cells = handler.unknown_cells(grid, &GridSurfer::AllCells);
        let mut star_adjacents: Vec<StarAdjacent> = Vec::new();
        let mut k: usize = 0;
        while k < cells.len()
            invariant
                k <= cells.len(),
                star_adjacents@.len() == k,
                forall|j: int| 0 <= j < k ==> #[trigger] star_adjacents@[j] == StarAdjacent::Init,
            decreases cells.len() - k,
        {
            star_adjacents.push(StarAdjacent::Init);
            k += 1;
        }
        let mut i: usize = 0;
        while i < possible_grids.len()
            invariant
                i <= possible_grids.len(),
                grids == grids_view(possible_grids@),
                grids.len() == possible_grids@.len(),
                star_adjacents@.len() == cells@.len(),
                forall|j: int| 0 <= j < cells@.len() ==> handler.in_grid(#[trigger] cells@[j]),
                forall|j: int|
                    0 <= j < possible_grids@.len() ==> handler.accepts(
                        #[trigger] &possible_grids@[j],
                    ),
                forall|j: int|
                    0 <= j < cells@.len() ==> #[trigger] star_adjacents@[j]
                        == handler.star_adjacent_signal(grids.take(i as int), cells@[j]),
            decreases possible_grids.len() - i,
        {
            let possible_grid = &possible_grids[i];
            proof {
                assert(grids.take(i as int + 1).drop_last() =~= grids.take(i as int));
                assert(grids.take(i as int + 1).last() == possible_grid@);
            }
            let mut k: usize = 0;
            while k < cells.len()
                invariant
                    k <= cells.len(),
                    i < possible_grids.len(),
                    grids.len() == possible_grids@.len(),
                    handler.accepts(possible_grid),
                    grids.take(i as int + 1).drop_last() == grids.take(i as int),
                    grids.take(i as int + 1).last() == possible_grid@,
                    star_adjacents@.len() == cells@.len(),
                    forall|j: int| 0 <= j < cells@.len() ==> handler.in_grid(#[trigger] cells@[j]),
                    forall|j: int|
                        0 <= j < k ==> #[trigger] star_adjacents@[j]
                            == handler.star_adjacent_signal(grids.take(i as int + 1), cells@[j]),
                    forall|j: int|
                        k <= j < cells@.len() ==> #[trigger] star_adjacents@[j]
                            == handler.star_adjacent_signal(grids.take(i as int), cells@[j]),
                decreases cells.len() - k,
            {
                let line_column = cells[k];
                if possible_grid.cell(line_column).is_star() {
                    star_adjacents.set(k, StarAdjacent::Variable);
                } else if star_adjacents[k] != StarAdjacent::Variable {
                    if handler.is_star_adjacent(possible_grid, line_column) {
                        star_adjacents.set(k, StarAdjacent::Always);
                    } else {
                        star_adjacents.set(k, StarAdjacent::Variable);
                    }
                }
                k += 1;
            }
            i += 1;
        }
        proof {
            assert(grids.take(grids.len() as int) =~= grids);
        }
        let ghost test = handler.hemmed_in_test(grids);
        let mut adjacent_star_actions: Vec<GridAction> = Vec::new();
        let mut k: usize = 0;
        while k < cells.len()
            invariant
                k <= cells.len(),
                star_adjacents@.len() == cells@.len(),
                test == handler.hemmed_in_test(grids),
                forall|j: int|
                    0 <= j < cells@.len() ==> #[trigger] star_adjacents@[j]
                        == handler.star_adjacent_signal(grids, cells@[j]),
                adjacent_star_actions@ == cells@.take(k as int).filter(test).map_values(
                    |lc: LineColumn| GridAction::SetNoStar(lc),
                ),
            decreases cells.len() - k,
        {
            proof {
                assert(cells@.take(k as int + 1) =~= cells@.take(k as int).push(cells@[k as int]));
                crate::sequences::lemma_filter_push_one(cells@.take(k as int), test, cells@[k as int]);
            }
            if star_adjacents[k] == StarAdjacent::Always {
                adjacent_star_actions.push(GridAction::SetNoStar(cells[k]));
                proof {
                    assert(adjacent_star_actions@ =~= cells@.take(k as int + 1).filter(
                        test,
                    ).map_values(|lc: LineColumn| GridAction::SetNoStar(lc)));
                }
            }
            k += 1;
        }
        proof {
            assert(cells@.take(cells@.len() as int) =~= cells@);
        }
        adjacent_star_actions
    }
}

} // verus!
