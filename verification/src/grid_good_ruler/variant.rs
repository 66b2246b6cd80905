//! Search for the cells that hold the same value in every grid of a list.

use vstd::prelude::*;

use crate::grid::{value_at, GridView};
use crate::CellValue;
use crate::Grid;
use crate::GridAction;
use crate::GridHandler;
use crate::GridSurfer;
use crate::LineColumn;

verus! {

/// What the grids seen so far say of a cell.
#[derive(Clone, Copy, Debug, PartialEq, Eq, Structural)]
pub enum Variant {
    /// No grid was seen yet.
    Init,
    /// The cell holds a star in every grid seen.
    Star,
    /// The cell holds no star in every grid seen.
    NoStar,
    /// The cell is unknown in every grid seen.
    Unknown,
    /// The cell does not hold the same value in every grid seen.
    Variable,
}

/// The content of each of `grids`.
pub open spec fn grids_view(grids: Seq<Grid>) -> Seq<GridView> {
    grids.map_values(|grid: Grid| grid@)
}

/// What one grid in which a cell holds `value` says of the cell.
pub open spec fn observed(value: CellValue) -> Variant {
    match value {
        CellValue::Star => Variant::Star,
        CellValue::NoStar => Variant::NoStar,
        CellValue::Unknown => Variant::Unknown,
    }
}

/// What the grids `grids` say of the cell at `lc`, one after the other.
pub open spec fn signal(grids: Seq<GridView>, lc: LineColumn) -> Variant
    decreases grids.len(),
{
    if grids.len() == 0 {
        Variant::Init
    } else {
        signal(grids.drop_last(), lc).spec_combine(observed(value_at(grids.last(), lc)))
    }
}

/// There is at least one grid in `grids`, and the cell at `lc` holds `value`
/// in each of them.
pub open spec fn always(grids: Seq<GridView>, lc: LineColumn, value: CellValue) -> bool {
    &&& grids.len() > 0
    &&& forall|i: int| 0 <= i < grids.len() ==> value_at(#[trigger] grids[i], lc) == value
}

/// The action that gives the cell at `lc` the value that it holds in every
/// one of `grids`, if that is a star or no star.
pub open spec fn invariant_action(grids: Seq<GridView>, lc: LineColumn) -> Option<GridAction> {
    match signal(grids, lc) {
        Variant::Star => Some(GridAction::SetStar(lc)),
        Variant::NoStar => Some(GridAction::SetNoStar(lc)),
        _ => None,
    }
}

/// [`invariant_action`] as a function of the cell.
pub open spec fn invariant_test(grids: Seq<GridView>) -> spec_fn(LineColumn) -> Option<GridAction> {
    |lc: LineColumn| invariant_action(grids, lc)
}

/// What the grids say of a cell is a star exactly when the cell holds a star
/// in each of them, and likewise for no star and for unknown; it is `Init`
/// exactly when there is no grid.
pub proof fn lemma_signal(grids: Seq<GridView>, lc: LineColumn)
    ensures
        signal(grids, lc) == Variant::Init <==> grids.len() == 0,
        signal(grids, lc) == Variant::Star <==> always(grids, lc, CellValue::Star),
        signal(grids, lc) == Variant::NoStar <==> always(grids, lc, CellValue::NoStar),
        signal(grids, lc) == Variant::Unknown <==> always(grids, lc, CellValue::Unknown),
    decreases grids.len(),
{
    if grids.len() > 0 {
        let front = grids.drop_last();
        lemma_signal(front, lc);
        let last = value_at(grids.last(), lc);
        assert forall|value: CellValue|
            always(grids, lc, value) <==> (last == value && (front.len() == 0 || always(
                front,
                lc,
                value,
            ))) by {
            if always(grids, lc, value) {
                assert(value_at(grids[grids.len() - 1], lc) == value);
                assert forall|i: int| 0 <= i < front.len() implies value_at(
                    #[trigger] front[i],
                    lc,
                ) == value by {
                    assert(front[i] == grids[i]);
                }
            }
            if last == value && (front.len() == 0 || always(front, lc, value)) {
                assert forall|i: int| 0 <= i < grids.len() implies value_at(
                    #[trigger] grids[i],
                    lc,
                ) == value by {
                    if i < front.len() {
                        assert(front[i] == grids[i]);
                    }
                }
            }
        }
        assert(always(grids, lc, CellValue::Star) <==> (last == CellValue::Star && (front.len()
            == 0 || always(front, lc, CellValue::Star))));
        assert(always(grids, lc, CellValue::NoStar) <==> (last == CellValue::NoStar && (
        front.len() == 0 || always(front, lc, CellValue::NoStar))));
        assert(always(grids, lc, CellValue::Unknown) <==> (last == CellValue::Unknown && (
        front.len() == 0 || always(front, lc, CellValue::Unknown))));
    }
}

impl Variant {
    /// What two reports on a cell say together: `Init` changes nothing, two
    /// equal reports give that report, anything else gives `Variable`.
    pub open spec fn spec_combine(self, other: Self) -> Self {
        match (self, other) {
            (Self::Init, other) => other,
            (this, Self::Init) => this,
            (Self::Star, Self::Star) => Self::Star,
            (Self::NoStar, Self::NoStar) => Self::NoStar,
            (Self::Unknown, Self::Unknown) => Self::Unknown,
            _ => Self::Variable,
        }
    }

    /// What two reports on a cell say together.
    #[verifier::when_used_as_spec(spec_combine)]
    pub fn combine(self, other: Self) -> (result: Self)
        ensures
            result == self.spec_combine(other),
    {
        match (self, other) {
            (Self::Init, other) => other,
            (this, Self::Init) => this,
            (Self::Star, Self::Star) => Self::Star,
            (Self::NoStar, Self::NoStar) => Self::NoStar,
            (Self::Unknown, Self::Unknown) => Self::Unknown,
            _ => Self::Variable,
        }
    }

    /// The order of two reports does not matter.
    pub proof fn lemma_combine_commutative(a: Self, b: Self)
        ensures
            a.spec_combine(b) == b.spec_combine(a),
    {
    }

    /// The grouping of three reports does not matter.
    pub proof fn lemma_combine_associative(a: Self, b: Self, c: Self)
        ensures
            a.spec_combine(b).spec_combine(c) == a.spec_combine(b.spec_combine(c)),
    {
    }

    /// `Init` changes no report.
    pub proof fn lemma_combine_identity(a: Self)
        ensures
            Self::Init.spec_combine(a) == a,
            a.spec_combine(Self::Init) == a,
    {
    }

    /// The cells that are unknown in `grid` and hold a star in every one of
    /// `possible_grids`, or no star in every one of them, each with the action
    /// that gives it that value, in row-major order.
    pub fn check_for_invariants(
        handler: &GridHandler,
        grid: &Grid,
        possible_grids: &Vec<Grid>,
    ) -> (result: Vec<GridAction>)
        requires
            handler.accepts(grid),
            forall|i: int|
                0 <= i < possible_grids@.len() ==> handler.accepts(#[trigger] &possible_grids@[i]),
        ensures
            result@ == handler.invariant_actions(grid@, grids_view(possible_grids@)),
    {
        let ghost grids = grids_view(possible_grids@);
        let cells = handler.unknown_cells(grid, &GridSurfer::AllCells);
        let mut variants: Vec<Variant> = Vec::new();
        let mut k: usize = 0;
        while k < cells.len()
            invariant
                k <= cells.len(),
                variants@.len() == k,
                forall|j: int| 0 <= j < k ==> #[trigger] variants@[j] == Variant::Init,
            decreases cells.len() - k,
        {
            variants.push(Variant::Init);
            k += 1;
        }
        let mut i: usize = 0;
        while i < possible_grids.len()
            invariant
                i <= possible_grids.len(),
                grids == grids_view(possible_grids@),
                grids.len() == possible_grids@.len(),
                variants@.len() == cells@.len(),
                forall|j: int| 0 <= j < cells@.len() ==> handler.in_grid(#[trigger] cells@[j]),
                forall|j: int|
                    0 <= j < possible_grids@.len() ==> handler.accepts(
                        #[trigger] &possible_grids@[j],
                    ),
                forall|j: int|
                    0 <= j < cells@.len() ==> #[trigger] variants@[j] == signal(
                        grids.take(i as int),
                        cells@[j],
                    ),
            decreases possible_grids.len() - i,
        {
            let possible_grid = &possible_grids[i];
            proof {
                assert(grids.take(i as int + 1).drop_last() =~= grids.take(i as int));
                assert(grids.take(i as int + 1).last() == possible_grid@);
            }
            let mut k: usize = 0;
            while k < cells.len()
                invariant
                    k <= cells.len(),
                    i < possible_grids.len(),
                    grids.len() == possible_grids@.len(),
                    handler.accepts(possible_grid),
                    grids.take(i as int + 1).drop_last() == grids.take(i as int),
                    grids.take(i as int + 1).last() == possible_grid@,
                    variants@.len() == cells@.len(),
                    forall|j: int| 0 <= j < cells@.len() ==> handler.in_grid(#[trigger] cells@[j]),
                    forall|j: int|
                        0 <= j < k ==> #[trigger] variants@[j] == signal(
                            grids.take(i as int + 1),
                            cells@[j],
                        ),
                    forall|j: int|
                        k <= j < cells@.len() ==> #[trigger] variants@[j] == signal(
                            grids.take(i as int),
                            cells@[j],
                        ),
                decreases cells.len() - k,
            {
                let prev_variant = variants[k];
                let new_variant = prev_variant.combine(
                    match possible_grid.cell(cells[k]).value {
                        CellValue::Star => Variant::Star,
                        CellValue::NoStar => Variant::NoStar,
                        CellValue::Unknown => Variant::Unknown,
                    },
                );
                variants.set(k, new_variant);
                k += 1;
            }
            i += 1;
        }
        proof {
            assert(grids.take(grids.len() as int) =~= grids);
        }
        let ghost test = invariant_test(grids);
        let mut invariants_actions: Vec<GridAction> = Vec::new();
        let mut k: usize = 0;
        while k < cells.len()
            invariant
                k <= cells.len(),
                variants@.len() == cells@.len(),
                test == invariant_test(grids),
                forall|j: int|
                    0 <= j < cells@.len() ==> #[trigger] variants@[j] == signal(grids, cells@[j]),
                invariants_actions@ == cells@.take(k as int).filter_map(test),
            decreases cells.len() - k,
        {
            proof {
                assert(cells@.take(k as int + 1).drop_last() =~= cells@.take(k as int));
                assert(cells@.take(k as int + 1).last() == cells@[k as int]);
            }
            let ghost before = invariants_actions@;
            match variants[k] {
                Variant::Star => {
                    invariants_actions.push(GridAction::SetStar(cells[k]));
                    proof {
                        assert(invariants_actions@ =~= before + seq![GridAction::SetStar(cells@[k as int])]);
                    }
                },
                Variant::NoStar => {
                    invariants_actions.push(GridAction::SetNoStar(cells[k]));
                    proof {
                        assert(invariants_actions@ =~= before + seq![
                            GridAction::SetNoStar(cells@[k as int]),
                        ]);
                    }
                },
                _ => (),
            }
            k += 1;
        }
        proof {
            assert(cells@.take(cells@.len() as int) =~= cells@);
        }
        invariants_actions
    }
}

impl GridHandler {
    /// The cells of the zone `zone` that are unknown in `cells`, in row-major order.
    pub open spec fn unknown_in(&self, cells: GridView, zone: GridSurfer) -> Seq<LineColumn> {
        self.zone_cells(zone).filter(Self::value_test(cells, CellValue::Unknown))
    }

    /// The actions that give each cell that is unknown in `cells` the value
    /// that it holds in every one of `grids`, where that is a star or no
    /// star, in row-major order.
    pub open spec fn invariant_actions(&self, cells: GridView, grids: Seq<GridView>) -> Seq<
        GridAction,
    > {
        self.unknown_in(cells, GridSurfer::AllCells).filter_map(invariant_test(grids))
    }

    /// The cells of the zone `surfer` that are unknown in `grid`, in
    /// row-major order.
    pub fn unknown_cells(&self, grid: &Grid, surfer: &GridSurfer) -> (result: Vec<LineColumn>)
        requires
            self.accepts(grid),
        ensures
            result@ == self.unknown_in(grid@, *surfer),
            forall|i: int| 0 <= i < result@.len() ==> self.in_grid(#[trigger] result@[i]),
            forall|i: int|
                0 <= i < result@.len() ==> value_at(grid@, #[trigger] result@[i])
                    == CellValue::Unknown,
    {
        let zone = self.surfer(grid, surfer);
        let cells = self.keep_unknown(grid, &zone);
        cells
    }

    /// The items of `zone` whose cell is unknown in `grid`, in order.
    pub fn keep_unknown(&self, grid: &Grid, zone: &Vec<LineColumn>) -> (result: Vec<LineColumn>)
        requires
            self.accepts(grid),
            forall|i: int| 0 <= i < zone@.len() ==> self.in_grid(#[trigger] zone@[i]),
        ensures
            result@ == zone@.filter(Self::value_test(grid@, CellValue::Unknown)),
            forall|i: int| 0 <= i < result@.len() ==> self.in_grid(#[trigger] result@[i]),
            forall|i: int|
                0 <= i < result@.len() ==> value_at(grid@, #[trigger] result@[i])
                    == CellValue::Unknown,
            forall|i: int| 0 <= i < result@.len() ==> zone@.contains(#[trigger] result@[i]),
    {
        let ghost test = Self::value_test(grid@, CellValue::Unknown);
        let mut cells: Vec<LineColumn> = Vec::new();
        let mut i: usize = 0;
        while i < zone.len()
            invariant
                i <= zone.len(),
                self.accepts(grid),
                test == Self::value_test(grid@, CellValue::Unknown),
                forall|k: int| 0 <= k < zone@.len() ==> self.in_grid(#[trigger] zone@[k]),
                cells@ == zone@.take(i as int).filter(test),
                forall|k: int| 0 <= k < cells@.len() ==> self.in_grid(#[trigger] cells@[k]),
                forall|k: int|
                    0 <= k < cells@.len() ==> value_at(grid@, #[trigger] cells@[k])
                        == CellValue::Unknown,
                forall|k: int| 0 <= k < cells@.len() ==> zone@.contains(#[trigger] cells@[k]),
            decreases zone.len() - i,
        {
            let line_column = zone[i];
            proof {
                assert(zone@.take(i as int + 1) =~= zone@.take(i as int).push(line_column));
                crate::sequences::lemma_filter_push_one(zone@.take(i as int), test, line_column);
            }
            if grid.cell(line_column).is_unknown() {
                cells.push(line_column);
            }
            i += 1;
        }
        proof {
            assert(zone@.take(zone@.len() as int) =~= zone@);
        }
        cells
    }
}

} // verus!
