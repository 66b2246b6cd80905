//! Enumeration of the ways to place the missing stars of a zone.
//!
//! A zone is here a list of cells: those of a region, of a line, of a
//! column, or of several lines or columns.

use vstd::arithmetic::power2::{lemma2_to64, lemma_pow2_strictly_increases, lemma_pow2_unfold, pow2};
use vstd::prelude::*;

use crate::check_bad_rules;
use crate::grid::{has_shape, same_layout, value_at, with_value, GridView};
use crate::grid_good_ruler::variant::grids_view;
use crate::sequences::{
    lemma_filter_agree,
    lemma_filter_first,
    lemma_filter_len_lt,
    lemma_filter_nothing,
};
use crate::CellValue;
use crate::Grid;
use crate::GridHandler;
use crate::LineColumn;

verus! {

/// The value that the lowest bit of `mask` stands for.
pub open spec fn bit_value(mask: nat) -> CellValue {
    if mask % 2 == 1 {
        CellValue::Star
    } else {
        CellValue::NoStar
    }
}

/// The grid content `cells` after each cell of `unknowns` has been given a
/// star where its bit of `mask` is set, and no star where it is not. The
/// first cell goes by the lowest bit.
pub open spec fn masked(cells: GridView, unknowns: Seq<LineColumn>, mask: nat) -> GridView
    decreases unknowns.len(),
{
    if unknowns.len() == 0 {
        cells
    } else {
        masked(with_value(cells, unknowns[0], bit_value(mask)), unknowns.drop_first(), mask / 2)
    }
}

/// Number of bits of `mask` that are set.
pub open spec fn bit_count(mask: nat) -> nat
    decreases mask,
{
    if mask == 0 {
        0
    } else {
        mask % 2 + bit_count(mask / 2)
    }
}

/// The grid content `cells` after each cell of `zone` that was unknown has
/// been given no star.
pub open spec fn no_star_filled(cells: GridView, zone: Seq<LineColumn>) -> GridView
    decreases zone.len(),
{
    if zone.len() == 0 {
        cells
    } else {
        let filled = no_star_filled(cells, zone.drop_last());
        if value_at(filled, zone.last()) == CellValue::Unknown {
            with_value(filled, zone.last(), CellValue::NoStar)
        } else {
            filled
        }
    }
}

/// Each item of `zone` is a cell of a grid of `nb_lines` lines and
/// `nb_columns` columns.
pub open spec fn zone_inside(zone: Seq<LineColumn>, nb_lines: int, nb_columns: int) -> bool {
    forall|i: int|
        0 <= i < zone.len() ==> (#[trigger] zone[i]).line < nb_lines && zone[i].column < nb_columns
}

/// `after` holds what `before` holds in every cell that was known in `before`.
pub open spec fn extends(before: GridView, after: GridView) -> bool {
    forall|lc: LineColumn|
        lc.line < before.len() && lc.column < before[lc.line as int].len() && value_at(before, lc)
            != CellValue::Unknown ==> #[trigger] value_at(after, lc) == value_at(before, lc)
}

/// Giving a value to one cell of a grid changes that value and nothing else.
pub proof fn lemma_with_value(
    cells: GridView,
    lc: LineColumn,
    value: CellValue,
    nb_lines: int,
    nb_columns: int,
)
    requires
        has_shape(cells, nb_lines, nb_columns),
        lc.line < nb_lines,
        lc.column < nb_columns,
    ensures
        has_shape(with_value(cells, lc, value), nb_lines, nb_columns),
        same_layout(cells, with_value(cells, lc, value)),
        value_at(with_value(cells, lc, value), lc) == value,
        forall|other: LineColumn|
            other != lc && other.line < nb_lines && other.column < nb_columns ==> value_at(
                with_value(cells, lc, value),
                other,
            ) == value_at(cells, other),
{
    let after = with_value(cells, lc, value);
    assert forall|other: LineColumn|
        other != lc && other.line < nb_lines && other.column < nb_columns implies value_at(
        after,
        other,
    ) == value_at(cells, other) by {
        if other.line == lc.line {
            assert(other.column != lc.column);
        }
    }
}

/// Filling a zone with no star gives no star to its unknown cells and
/// changes nothing else.
pub proof fn lemma_no_star_filled(
    cells: GridView,
    zone: Seq<LineColumn>,
    nb_lines: int,
    nb_columns: int,
)
    requires
        has_shape(cells, nb_lines, nb_columns),
        zone_inside(zone, nb_lines, nb_columns),
    ensures
        has_shape(no_star_filled(cells, zone), nb_lines, nb_columns),
        same_layout(cells, no_star_filled(cells, zone)),
        forall|lc: LineColumn|
            lc.line < nb_lines && lc.column < nb_columns ==> #[trigger] value_at(
                no_star_filled(cells, zone),
                lc,
            ) == if zone.contains(lc) && value_at(cells, lc) == CellValue::Unknown {
                CellValue::NoStar
            } else {
                value_at(cells, lc)
            },
    decreases zone.len(),
{
    if zone.len() > 0 {
        let front = zone.drop_last();
        let last = zone.last();
        assert(zone_inside(front, nb_lines, nb_columns)) by {
            assert forall|i: int| 0 <= i < front.len() implies (#[trigger] front[i]).line < nb_lines
                && front[i].column < nb_columns by {
                assert(front[i] == zone[i]);
            }
        }
        lemma_no_star_filled(cells, front, nb_lines, nb_columns);
        let filled = no_star_filled(cells, front);
        lemma_with_value(filled, last, CellValue::NoStar, nb_lines, nb_columns);
        let all = no_star_filled(cells, zone);
        assert forall|lc: LineColumn| lc.line < nb_lines && lc.column < nb_columns implies #[trigger] value_at(
            all,
            lc,
        ) == if zone.contains(lc) && value_at(cells, lc) == CellValue::Unknown {
            CellValue::NoStar
        } else {
            value_at(cells, lc)
        } by {
            assert(zone[zone.len() - 1] == last);
            if front.contains(lc) {
                let i = choose|i: int| 0 <= i < front.len() && front[i] == lc;
                assert(zone[i] == lc);
            }
            if zone.contains(lc) && lc != last {
                let i = choose|i: int| 0 <= i < zone.len() && zone[i] == lc;
                assert(front[i] == lc);
            }
            let before = value_at(filled, lc);
            assert(before == if front.contains(lc) && value_at(cells, lc) == CellValue::Unknown {
                CellValue::NoStar
            } else {
                value_at(cells, lc)
            });
            if lc == last {
                assert(zone.contains(lc));
            } else {
                assert(value_at(all, lc) == before);
                assert(zone.contains(lc) == front.contains(lc));
            }
        }
    }
}

/// Placing stars by a mask gives a star or no star to each of the cells
/// listed and changes nothing else.
pub proof fn lemma_masked(
    cells: GridView,
    unknowns: Seq<LineColumn>,
    mask: nat,
    nb_lines: int,
    nb_columns: int,
)
    requires
        has_shape(cells, nb_lines, nb_columns),
        zone_inside(unknowns, nb_lines, nb_columns),
    ensures
        has_shape(masked(cells, unknowns, mask), nb_lines, nb_columns),
        same_layout(cells, masked(cells, unknowns, mask)),
        forall|lc: LineColumn|
            lc.line < nb_lines && lc.column < nb_columns ==> if unknowns.contains(lc) {
                #[trigger] value_at(masked(cells, unknowns, mask), lc) != CellValue::Unknown
            } else {
                value_at(masked(cells, unknowns, mask), lc) == value_at(cells, lc)
            },
    decreases unknowns.len(),
{
    if unknowns.len() > 0 {
        let first = unknowns[0];
        let rest = unknowns.drop_first();
        let one = with_value(cells, first, bit_value(mask));
        lemma_with_value(cells, first, bit_value(mask), nb_lines, nb_columns);
        assert(zone_inside(rest, nb_lines, nb_columns)) by {
            assert forall|i: int| 0 <= i < rest.len() implies (#[trigger] rest[i]).line < nb_lines
                && rest[i].column < nb_columns by {
                assert(rest[i] == unknowns[i + 1]);
            }
        }
        lemma_masked(one, rest, mask / 2, nb_lines, nb_columns);
        let all = masked(cells, unknowns, mask);
        assert forall|lc: LineColumn| lc.line < nb_lines && lc.column < nb_columns implies if unknowns.contains(
            lc,
        ) {
            #[trigger] value_at(all, lc) != CellValue::Unknown
        } else {
            value_at(all, lc) == value_at(cells, lc)
        } by {
            if rest.contains(lc) {
                let i = choose|i: int| 0 <= i < rest.len() && rest[i] == lc;
                assert(unknowns[i + 1] == lc);
            }
            if lc == first {
                assert(unknowns[0] == lc);
            }
            if unknowns.contains(lc) && lc != first {
                let i = choose|i: int| 0 <= i < unknowns.len() && unknowns[i] == lc;
                assert(rest[i - 1] == lc);
            }
            assert(if rest.contains(lc) {
                value_at(all, lc) != CellValue::Unknown
            } else {
                value_at(all, lc) == value_at(one, lc)
            });
        }
    }
}

impl GridHandler {
    /// The test of the cells in which the next star can be tried: unknown
    /// cells that touch no star.
    pub open spec fn pivot_test(&self, cells: GridView) -> spec_fn(LineColumn) -> bool {
        |lc: LineColumn|
            value_at(cells, lc) == CellValue::Unknown && self.star_neighbours(cells, lc).len() == 0
    }

    /// The first item of `zone` that is unknown in `cells` and touches no star.
    pub open spec fn first_pivot(&self, cells: GridView, zone: Seq<LineColumn>) -> Option<
        LineColumn,
    > {
        let pivots = zone.filter(self.pivot_test(cells));
        if pivots.len() > 0 {
            Some(pivots[0])
        } else {
            None
        }
    }

    /// The grid content `cells` after a star has been placed at `pivot` and
    /// the unknown neighbours of `pivot` have been given no star.
    pub open spec fn star_placed(&self, cells: GridView, pivot: LineColumn) -> GridView {
        no_star_filled(with_value(cells, pivot, CellValue::Star), self.neighbours(pivot))
    }

    /// The grid that the mask `mask` gives, if the mask has `missing` bits
    /// set and the grid breaks no rule.
    pub open spec fn mask_candidate(
        &self,
        cells: GridView,
        unknowns: Seq<LineColumn>,
        missing: nat,
        mask: nat,
    ) -> Option<GridView> {
        if bit_count(mask) == missing && self.check(masked(cells, unknowns, mask)) is Ok {
            Some(masked(cells, unknowns, mask))
        } else {
            None
        }
    }

    /// [`GridHandler::mask_candidate`] as a function of the mask.
    pub open spec fn mask_test(
        &self,
        cells: GridView,
        unknowns: Seq<LineColumn>,
        missing: nat,
    ) -> spec_fn(nat) -> Option<GridView> {
        |mask: nat| self.mask_candidate(cells, unknowns, missing, mask)
    }

    /// The grids that [`Collector::collect_possible_grids`] finds: none if the
    /// zone holds `nb_stars` stars or more already; else, for each mask from 1
    /// up with as many bits set as stars are missing, the grid in which the
    /// unknown cells of the zone hold a star where their bit is set and no
    /// star elsewhere, if that grid breaks no rule.
    pub open spec fn bitmask_completions(
        &self,
        cells: GridView,
        zone: Seq<LineColumn>,
        nb_stars: nat,
    ) -> Seq<GridView> {
        let stars = Self::count_in(cells, zone, CellValue::Star);
        let unknowns = zone.filter(Self::value_test(cells, CellValue::Unknown));
        if stars >= nb_stars {
            Seq::empty()
        } else {
            Seq::new((pow2(unknowns.len()) - 1) as nat, |i: int| (i + 1) as nat).filter_map(
                self.mask_test(cells, unknowns, (nb_stars - stars) as nat),
            )
        }
    }

    /// The grids that [`Collector::collect_recursive_possible_grids`] finds.
    ///
    /// If the zone holds `nb_stars` stars, the one grid in which its unknown
    /// cells hold no star, if that grid breaks no rule. Else, with the first
    /// unknown cell of the zone that touches no star: the grids found once a
    /// star is placed there, if that breaks no rule, then the grids found
    /// once a star is ruled out there. Without such a cell, none.
    pub open spec fn recursive_completions(
        &self,
        cells: GridView,
        zone: Seq<LineColumn>,
        nb_stars: nat,
    ) -> Seq<GridView>
        decreases Self::count_in(cells, zone, CellValue::Unknown),
        when self.fits(cells) && zone_inside(
            zone,
            self.spec_nb_lines() as int,
            self.spec_nb_columns() as int,
        )
        via Self::recursive_completions_decreases
    {
        if Self::count_in(cells, zone, CellValue::Star) == nb_stars {
            if self.check(no_star_filled(cells, zone)) is Ok {
                seq![no_star_filled(cells, zone)]
            } else {
                Seq::empty()
            }
        } else {
            match self.first_pivot(cells, zone) {
                None => Seq::empty(),
                Some(pivot) => {
                    let placed = self.star_placed(cells, pivot);
                    let with_star = if self.check(placed) is Ok {
                        self.recursive_completions(placed, zone, nb_stars)
                    } else {
                        Seq::empty()
                    };
                    with_star + self.recursive_completions(
                        with_value(cells, pivot, CellValue::NoStar),
                        zone,
                        nb_stars,
                    )
                },
            }
        }
    }

    #[via_fn]
    proof fn recursive_completions_decreases(
        &self,
        cells: GridView,
        zone: Seq<LineColumn>,
        nb_stars: nat,
    ) {
        if Self::count_in(cells, zone, CellValue::Star) != nb_stars {
            if let Some(pivot) = self.first_pivot(cells, zone) {
                self.lemma_pivot(cells, zone);
            }
        }
    }

    /// The first pivot of a zone is an unknown cell of the zone that touches
    /// no star. Placing a star there, or ruling one out, leaves a grid of the
    /// same size with fewer unknown cells in the zone, in which the cells
    /// that were known hold what they held.
    pub proof fn lemma_pivot(&self, cells: GridView, zone: Seq<LineColumn>)
        requires
            self.fits(cells),
            zone_inside(zone, self.spec_nb_lines() as int, self.spec_nb_columns() as int),
            self.first_pivot(cells, zone) is Some,
        ensures
            ({
                let pivot = self.first_pivot(cells, zone)->0;
                let placed = self.star_placed(cells, pivot);
                let skipped = with_value(cells, pivot, CellValue::NoStar);
                &&& zone.contains(pivot)
                &&& self.in_grid(pivot)
                &&& value_at(cells, pivot) == CellValue::Unknown
                &&& self.star_neighbours(cells, pivot).len() == 0
                &&& self.fits(placed)
                &&& self.fits(skipped)
                &&& same_layout(cells, placed)
                &&& same_layout(cells, skipped)
                &&& extends(cells, placed)
                &&& extends(cells, skipped)
                &&& value_at(placed, pivot) == CellValue::Star
                &&& value_at(skipped, pivot) == CellValue::NoStar
                &&& forall|lc: LineColumn|
                    self.in_grid(lc) && lc != pivot ==> #[trigger] value_at(skipped, lc)
                        == value_at(cells, lc)
                &&& forall|lc: LineColumn|
                    self.in_grid(lc) && lc != pivot ==> #[trigger] value_at(placed, lc) == if pivot.touches(
                        lc,
                    ) && value_at(cells, lc) == CellValue::Unknown {
                        CellValue::NoStar
                    } else {
                        value_at(cells, lc)
                    }
                &&& Self::count_in(placed, zone, CellValue::Unknown) < Self::count_in(
                    cells,
                    zone,
                    CellValue::Unknown,
                )
                &&& Self::count_in(skipped, zone, CellValue::Unknown) < Self::count_in(
                    cells,
                    zone,
                    CellValue::Unknown,
                )
            }),
    {
        let nb_lines = self.spec_nb_lines() as int;
        let nb_columns = self.spec_nb_columns() as int;
        let test = self.pivot_test(cells);
        let pivots = zone.filter(test);
        let pivot = pivots[0];
        assert(pivots.contains(pivot));
        zone.lemma_filter_contains_rev(test, pivot);
        let k = choose|k: int| 0 <= k < zone.len() && zone[k] == pivot;
        let starred = with_value(cells, pivot, CellValue::Star);
        let placed = self.star_placed(cells, pivot);
        let skipped = with_value(cells, pivot, CellValue::NoStar);
        lemma_with_value(cells, pivot, CellValue::Star, nb_lines, nb_columns);
        lemma_with_value(cells, pivot, CellValue::NoStar, nb_lines, nb_columns);
        self.lemma_neighbours(pivot);
        let around = self.neighbours(pivot);
        assert(zone_inside(around, nb_lines, nb_columns)) by {
            assert forall|i: int| 0 <= i < around.len() implies (#[trigger] around[i]).line < nb_lines
                && around[i].column < nb_columns by {
                assert(around.contains(around[i]));
            }
        }
        lemma_no_star_filled(starred, around, nb_lines, nb_columns);
        assert(!around.contains(pivot));
        assert forall|lc: LineColumn| self.in_grid(lc) && lc != pivot implies #[trigger] value_at(
            placed,
            lc,
        ) == if pivot.touches(lc) && value_at(cells, lc) == CellValue::Unknown {
            CellValue::NoStar
        } else {
            value_at(cells, lc)
        } by {
            assert(value_at(starred, lc) == value_at(cells, lc));
        }
        let unknown = Self::value_test(cells, CellValue::Unknown);
        let unknown_placed = Self::value_test(placed, CellValue::Unknown);
        let unknown_skipped = Self::value_test(skipped, CellValue::Unknown);
        assert forall|i: int| 0 <= i < zone.len() && unknown_placed(#[trigger] zone[i]) implies unknown(
            zone[i],
        ) by {
            if zone[i] != pivot {
                assert(value_at(placed, zone[i]) == if pivot.touches(zone[i]) && value_at(
                    cells,
                    zone[i],
                ) == CellValue::Unknown {
                    CellValue::NoStar
                } else {
                    value_at(cells, zone[i])
                });
            }
        }
        assert forall|i: int| 0 <= i < zone.len() && unknown_skipped(
            #[trigger] zone[i],
        ) implies unknown(zone[i]) by {
            if zone[i] != pivot {
                assert(value_at(skipped, zone[i]) == value_at(cells, zone[i]));
            }
        }
        lemma_filter_len_lt(zone, unknown_placed, unknown, k);
        lemma_filter_len_lt(zone, unknown_skipped, unknown, k);
        assert forall|lc: LineColumn|
            lc.line < cells.len() && lc.column < cells[lc.line as int].len() && value_at(cells, lc)
                != CellValue::Unknown implies #[trigger] value_at(placed, lc) == value_at(
            cells,
            lc,
        ) by {
            assert(value_at(placed, lc) == if pivot.touches(lc) && value_at(cells, lc)
                == CellValue::Unknown {
                CellValue::NoStar
            } else {
                value_at(cells, lc)
            });
        }
        assert forall|lc: LineColumn|
            lc.line < cells.len() && lc.column < cells[lc.line as int].len() && value_at(cells, lc)
                != CellValue::Unknown implies #[trigger] value_at(skipped, lc) == value_at(
            cells,
            lc,
        ) by {
            assert(value_at(skipped, lc) == value_at(cells, lc));
        }
    }
}

/// Search for the ways to place the stars that a zone still needs.
///
/// [`Collector::collect_possible_grids`] tries every way to give a star or no
/// star to the unknown cells of the zone;
/// [`Collector::collect_recursive_possible_grids`] places the stars one by
/// one and gives up a branch as soon as a rule is broken.
pub struct Collector<'a> {
    /// The puzzle.
    pub handler: &'a GridHandler,
    /// The grid to complete.
    pub grid: &'a Grid,
    /// The cells of the zone.
    pub zone: &'a Vec<LineColumn>,
    /// Number of stars that the zone takes.
    pub nb_stars: usize,
    /// The grids found.
    pub possible_grids: Vec<Grid>,
}

impl<'a> Collector<'a> {
    /// The puzzle.
    pub open spec fn spec_handler(&self) -> &GridHandler {
        self.handler
    }

    /// The grid to complete.
    pub open spec fn spec_grid(&self) -> &Grid {
        self.grid
    }

    /// The cells of the zone.
    pub open spec fn spec_zone(&self) -> Seq<LineColumn> {
        self.zone@
    }

    /// Number of stars that the zone takes.
    pub open spec fn spec_nb_stars(&self) -> usize {
        self.nb_stars
    }

    /// The grid to complete is a grid of the puzzle, the cells of the zone
    /// are cells of the grid, and so are the grids found so far.
    pub open spec fn wf(&self) -> bool {
        &&& self.spec_handler().accepts(self.spec_grid())
        &&& zone_inside(
            self.spec_zone(),
            self.spec_handler().spec_nb_lines() as int,
            self.spec_handler().spec_nb_columns() as int,
        )
        &&& forall|i: int|
            0 <= i < self.possible_grids@.len() ==> self.spec_handler().accepts(
                #[trigger] &self.possible_grids@[i],
            )
    }

    /// `self` searches what `other` searches.
    pub open spec fn same_search(&self, other: &Self) -> bool {
        &&& self.spec_handler() == other.spec_handler()
        &&& self.spec_grid() == other.spec_grid()
        &&& self.spec_zone() == other.spec_zone()
        &&& self.spec_nb_stars() == other.spec_nb_stars()
    }

    /// A search for the ways to bring the zone `zone` of `grid` to `nb_stars`
    /// stars. No grid is found yet.
    pub fn new(
        handler: &'a GridHandler,
        grid: &'a Grid,
        zone: &'a Vec<LineColumn>,
        nb_stars: usize,
    ) -> (result: Self)
        ensures
            result.spec_handler() == handler,
            result.spec_grid() == grid,
            result.spec_zone() == zone@,
            result.spec_nb_stars() == nb_stars,
            result.possible_grids@.len() == 0,
    {
        Self { handler, grid, zone, nb_stars, possible_grids: Vec::new() }
    }

    /// Adds to the grids found those that give a star or no star to each
    /// unknown cell of the zone, bring the zone to its number of stars and
    /// break no rule. The zone has at most 32 unknown cells.
    pub fn collect_possible_grids(&mut self)
        requires
            old(self).wf(),
            Self::within_cap(old(self).spec_grid()@, old(self).spec_zone()),
        ensures
            final(self).wf(),
            final(self).same_search(old(self)),
            grids_view(final(self).possible_grids@) == grids_view(old(self).possible_grids@)
                + old(self).spec_handler().bitmask_completions(
                old(self).spec_grid()@,
                old(self).spec_zone(),
                old(self).spec_nb_stars() as nat,
            ),
            forall|i: int|
                old(self).possible_grids@.len() <= i < final(self).possible_grids@.len() ==> {
                    &&& old(self).spec_handler().check((#[trigger] final(self).possible_grids@[i])@) is Ok
                    &&& old(self).spec_zone().no_duplicates() ==> old(self).spec_handler().completes(
                        old(self).spec_grid()@,
                        old(self).spec_zone(),
                        old(self).spec_nb_stars() as nat,
                        final(self).possible_grids@[i]@,
                    )
                },
    {
        let ghost cells = self.grid@;
        let ghost zone = self.zone@;
        let ghost found = grids_view(self.possible_grids@);
        proof {
            assert(found + Seq::<GridView>::empty() =~= found);
            self.spec_handler().lemma_bitmask_completions(cells, zone, self.nb_stars as nat);
        }
        let (cur_nb_stars, _) = self.handler.count_stars_and_unknown(self.grid, self.zone);
        let cur_line_column_unknown = self.handler.keep_unknown(self.grid, self.zone);
        if cur_nb_stars >= self.nb_stars {
            proof {
                lemma_added(
                    old(self).possible_grids@,
                    self.possible_grids@,
                    self.spec_handler().bitmask_completions(cells, zone, self.nb_stars as nat),
                );
            }
            return ;
        }
        let nb_to_do_star = self.nb_stars - cur_nb_stars;
        let ghost unknowns = cur_line_column_unknown@;
        let limit = two_to_the(cur_line_column_unknown.len());
        let ghost masks = Seq::new((pow2(unknowns.len()) - 1) as nat, |i: int| (i + 1) as nat);
        let ghost test = self.handler.mask_test(cells, unknowns, nb_to_do_star as nat);
        proof {
            vstd::arithmetic::power2::lemma_pow2_pos(unknowns.len());
        }
        let mut combinaison: u64 = 1;
        while combinaison < limit
            invariant
                1 <= combinaison <= limit,
                limit == pow2(unknowns.len()),
                self.wf(),
                self.same_search(old(self)),
                cells == self.spec_grid()@,
                unknowns == cur_line_column_unknown@,
                zone_inside(
                    unknowns,
                    self.spec_handler().spec_nb_lines() as int,
                    self.spec_handler().spec_nb_columns() as int,
                ),
                masks == Seq::new((pow2(unknowns.len()) - 1) as nat, |i: int| (i + 1) as nat),
                test == self.spec_handler().mask_test(cells, unknowns, nb_to_do_star as nat),
                grids_view(self.possible_grids@) == found + masks.take(
                    combinaison - 1,
                ).filter_map(test),
            decreases limit - combinaison,
        {
            proof {
                assert(masks.take(combinaison as int).drop_last() =~= masks.take(combinaison - 1));
                assert(masks.take(combinaison as int).last() == combinaison as nat);
            }
            if count_ones(combinaison) == nb_to_do_star as u64 {
                let new_grid = self.masked_grid(&cur_line_column_unknown, combinaison);
                if check_bad_rules(self.handler, &new_grid).is_ok() {
                    proof {
                        assert(grids_view(self.possible_grids@.push(new_grid)) =~= grids_view(
                            self.possible_grids@,
                        ).push(new_grid@));
                        assert(found + masks.take(combinaison as int).filter_map(test) =~= (found
                            + masks.take(combinaison - 1).filter_map(test)).push(new_grid@));
                    }
                    self.possible_grids.push(new_grid);
                }
            }
            combinaison += 1;
        }
        proof {
            assert(masks.take(masks.len() as int) =~= masks);
            lemma_added(
                old(self).possible_grids@,
                self.possible_grids@,
                self.spec_handler().bitmask_completions(cells, zone, self.nb_stars as nat),
            );
        }
    }

    /// The zone of `cells` has at most 32 unknown cells: the most that
    /// [`Collector::collect_possible_grids`] takes.
    pub open spec fn within_cap(cells: GridView, zone: Seq<LineColumn>) -> bool {
        zone.filter(GridHandler::value_test(cells, CellValue::Unknown)).len() <= 32
    }

    /// The grid in which each cell of `unknowns` holds a star where its bit
    /// of `mask` is set and no star where it is not.
    fn masked_grid(&self, unknowns: &Vec<LineColumn>, mask: u64) -> (result: Grid)
        requires
            self.wf(),
            zone_inside(
                unknowns@,
                self.spec_handler().spec_nb_lines() as int,
                self.spec_handler().spec_nb_columns() as int,
            ),
        ensures
            self.spec_handler().accepts(&result),
            result@ == masked(self.spec_grid()@, unknowns@, mask as nat),
    {
        let mut new_grid = self.grid.clone();
        let mut rest = mask;
        let mut i: usize = 0;
        proof {
            assert(unknowns@.skip(0) =~= unknowns@);
        }
        while i < unknowns.len()
            invariant
                i <= unknowns.len(),
                self.wf(),
                self.spec_handler().accepts(&new_grid),
                zone_inside(
                    unknowns@,
                    self.spec_handler().spec_nb_lines() as int,
                    self.spec_handler().spec_nb_columns() as int,
                ),
                masked(self.spec_grid()@, unknowns@, mask as nat) == masked(
                    new_grid@,
                    unknowns@.skip(i as int),
                    rest as nat,
                ),
            decreases unknowns.len() - i,
        {
            let line_column = unknowns[i];
            proof {
                assert(unknowns@.skip(i as int)[0] == line_column);
                assert(unknowns@.skip(i as int).drop_first() =~= unknowns@.skip(i as int + 1));
            }
            let value = if rest % 2 == 0 {
                CellValue::NoStar
            } else {
                CellValue::Star
            };
            new_grid.set_value(line_column, value);
            rest = rest / 2;
            i += 1;
        }
        new_grid
    }

    /// Adds to the grids found those that a search by successive choices
    /// reaches: see [`GridHandler::recursive_completions`]. Each of them
    /// brings the zone to its number of stars, leaves no cell of the zone
    /// unknown and breaks no rule.
    pub fn collect_recursive_possible_grids(&mut self)
        requires
            old(self).wf(),
        ensures
            final(self).wf(),
            final(self).same_search(old(self)),
            grids_view(final(self).possible_grids@) == grids_view(old(self).possible_grids@)
                + old(self).spec_handler().recursive_completions(
                old(self).spec_grid()@,
                old(self).spec_zone(),
                old(self).spec_nb_stars() as nat,
            ),
            forall|i: int|
                old(self).possible_grids@.len() <= i < final(self).possible_grids@.len() ==> {
                    &&& old(self).spec_handler().check(
                        (#[trigger] final(self).possible_grids@[i])@,
                    ) is Ok
                    &&& old(self).spec_handler().completes(
                        old(self).spec_grid()@,
                        old(self).spec_zone(),
                        old(self).spec_nb_stars() as nat,
                        final(self).possible_grids@[i]@,
                    )
                },
        decreases
                GridHandler::count_in(old(self).spec_grid()@, old(self).spec_zone(), CellValue::Unknown),
    {
        let ghost cells = self.grid@;
        let ghost zone = self.zone@;
        let ghost found = grids_view(self.possible_grids@);
        proof {
            self.spec_handler().lemma_recursive_completions(cells, zone, self.nb_stars as nat);
        }
        let (nb_current_stars, _) = self.handler.count_stars_and_unknown(self.grid, self.zone);
        if nb_current_stars == self.nb_stars {
            let new_grid = self.filled_grid();
            if check_bad_rules(self.handler, &new_grid).is_ok() {
                proof {
                    assert(grids_view(self.possible_grids@.push(new_grid)) =~= found + seq![
                        new_grid@,
                    ]);
                }
                self.possible_grids.push(new_grid);
            } else {
                proof {
                    assert(found + Seq::<GridView>::empty() =~= found);
                }
            }
            proof {
                lemma_added(
                    old(self).possible_grids@,
                    self.possible_grids@,
                    self.spec_handler().recursive_completions(cells, zone, self.nb_stars as nat),
                );
            }
            return ;
        }
        if let Some(line_column) = self.first_possible_line_column_for_a_star() {
            proof {
                self.spec_handler().lemma_pivot(cells, zone);
            }
            let mut new_grid = self.grid.clone();
            self.set_star(&mut new_grid, line_column);
            let ghost mut with_star = Seq::<GridView>::empty();
            if check_bad_rules(self.handler, &new_grid).is_ok() {
                let mut new_collector = Collector::new(
                    self.handler,
                    &new_grid,
                    self.zone,
                    self.nb_stars,
                );
                new_collector.collect_recursive_possible_grids();
                proof {
                    with_star = grids_view(new_collector.possible_grids@);
                    assert(grids_view(Seq::<Grid>::empty()) =~= Seq::<GridView>::empty());
                    assert(Seq::<GridView>::empty() + with_star =~= with_star);
                    assert(grids_view(self.possible_grids@ + new_collector.possible_grids@)
                        =~= found + with_star);
                }
                self.possible_grids.append(&mut new_collector.possible_grids);
            }
            proof {
                assert(found + Seq::<GridView>::empty() =~= found);
            }
            let mut new_grid = self.grid.clone();
            new_grid.set_value(line_column, CellValue::NoStar);
            let mut new_collector = Collector::new(self.handler, &new_grid, self.zone, self.nb_stars);
            new_collector.collect_recursive_possible_grids();
            proof {
                let without_star = grids_view(new_collector.possible_grids@);
                assert(grids_view(Seq::<Grid>::empty()) =~= Seq::<GridView>::empty());
                assert(Seq::<GridView>::empty() + without_star =~= without_star);
                assert(grids_view(self.possible_grids@ + new_collector.possible_grids@) =~= (found
                    + with_star) + without_star);
                assert((found + with_star) + without_star =~= found + (with_star + without_star));
            }
            self.possible_grids.append(&mut new_collector.possible_grids);
        } else {
            proof {
                assert(found + Seq::<GridView>::empty() =~= found);
            }
        }
        proof {
            lemma_added(
                old(self).possible_grids@,
                self.possible_grids@,
                self.spec_handler().recursive_completions(cells, zone, self.nb_stars as nat),
            );
        }
    }

    /// The grid to complete, with no star in each unknown cell of the zone.
    fn filled_grid(&self) -> (result: Grid)
        requires
            self.wf(),
        ensures
            self.spec_handler().accepts(&result),
            result@ == no_star_filled(self.spec_grid()@, self.spec_zone()),
    {
        let mut new_grid = self.grid.clone();
        let mut i: usize = 0;
        while i < self.zone.len()
            invariant
                i <= self.zone.len(),
                self.wf(),
                self.spec_handler().accepts(&new_grid),
                new_grid@ == no_star_filled(self.spec_grid()@, self.spec_zone().take(i as int)),
            decreases self.zone.len() - i,
        {
            let line_column = self.zone[i];
            proof {
                assert(self.spec_zone().take(i as int + 1).drop_last() =~= self.spec_zone().take(
                    i as int,
                ));
                assert(self.spec_zone().take(i as int + 1).last() == line_column);
            }
            if new_grid.cell(line_column).is_unknown() {
                new_grid.set_value(line_column, CellValue::NoStar);
            }
            i += 1;
        }
        proof {
            assert(self.spec_zone().take(self.spec_zone().len() as int) =~= self.spec_zone());
        }
        new_grid
    }

    /// The first cell of the zone in which a star can be tried: unknown, and
    /// touching no star.
    pub fn first_possible_line_column_for_a_star(&self) -> (result: Option<LineColumn>)
        requires
            self.wf(),
        ensures
            result == self.spec_handler().first_pivot(self.spec_grid()@, self.spec_zone()),
    {
        let ghost test = self.handler.pivot_test(self.grid@);
        let mut i: usize = 0;
        while i < self.zone.len()
            invariant
                i <= self.zone.len(),
                self.wf(),
                test == self.spec_handler().pivot_test(self.spec_grid()@),
                forall|k: int| 0 <= k < i ==> !test(#[trigger] self.spec_zone()[k]),
            decreases self.zone.len() - i,
        {
            let line_column = self.zone[i];
            if self.grid.cell(line_column).is_unknown() {
                if !self.handler.is_star_adjacent(self.grid, line_column) {
                    proof {
                        lemma_filter_first(self.spec_zone(), test, i as int);
                    }
                    return Some(line_column);
                }
            }
            i += 1;
        }
        proof {
            lemma_filter_nothing(self.spec_zone(), test);
        }
        None
    }

    /// Places a star at `line_column` in `new_grid`, a copy of the grid to
    /// complete, and rules out a star in the unknown cells around it. No
    /// neighbour of `line_column` holds a star.
    pub fn set_star(&self, new_grid: &mut Grid, line_column: LineColumn)
        requires
            self.wf(),
            old(new_grid)@ == self.spec_grid()@,
            self.spec_handler().accepts(old(new_grid)),
            self.spec_handler().in_grid(line_column),
            self.spec_handler().star_neighbours(self.spec_grid()@, line_column).len() == 0,
        ensures
            self.spec_handler().accepts(final(new_grid)),
            final(new_grid)@ == self.spec_handler().star_placed(self.spec_grid()@, line_column),
    {
        new_grid.set_value(line_column, CellValue::Star);
        let around = self.handler.adjacent_cells(line_column);
        let ghost starred = new_grid@;
        proof {
            self.spec_handler().lemma_neighbours(line_column);
            assert forall|i: int| 0 <= i < around@.len() implies self.spec_handler().in_grid(
                #[trigger] around@[i],
            ) by {
                assert(around@.contains(around@[i]));
            }
        }
        let mut i: usize = 0;
        while i < around.len()
            invariant
                i <= around.len(),
                self.wf(),
                self.spec_handler().accepts(new_grid),
                around@ == self.spec_handler().neighbours(line_column),
                forall|k: int|
                    0 <= k < around@.len() ==> self.spec_handler().in_grid(#[trigger] around@[k]),
                new_grid@ == no_star_filled(starred, around@.take(i as int)),
            decreases around.len() - i,
        {
            let adjacent_line_column = around[i];
            proof {
                assert(around@.take(i as int + 1).drop_last() =~= around@.take(i as int));
                assert(around@.take(i as int + 1).last() == adjacent_line_column);
            }
            if new_grid.cell(adjacent_line_column).is_unknown() {
                new_grid.set_value(adjacent_line_column, CellValue::NoStar);
            }
            i += 1;
        }
        proof {
            assert(around@.take(around@.len() as int) =~= around@);
        }
    }
}

/// The grids added to a list are found after those that the list held.
pub proof fn lemma_added(before: Seq<Grid>, after: Seq<Grid>, added: Seq<GridView>)
    requires
        grids_view(after) == grids_view(before) + added,
    ensures
        after.len() == before.len() + added.len(),
        forall|i: int|
            before.len() <= i < after.len() ==> (#[trigger] after[i])@ == added[i - before.len()],
{
    assert(grids_view(after).len() == after.len());
    assert(grids_view(before).len() == before.len());
    assert forall|i: int| before.len() <= i < after.len() implies (#[trigger] after[i])@
        == added[i - before.len()] by {
        assert(grids_view(after)[i] == after[i]@);
    }
}

/// Number of bits of `n` that are set.
pub fn count_ones(n: u64) -> (result: u64)
    ensures
        result == bit_count(n as nat),
        result <= 64,
{
    let mut count: u64 = 0;
    let mut num = n;
    let mut rounds: u64 = 0;
    proof {
        lemma2_to64();
    }
    while num > 0
        invariant
            count + bit_count(num as nat) == bit_count(n as nat),
            count <= rounds,
            rounds <= 64,
            num == 0 || rounds < 64,
            num as nat * pow2(rounds as nat) <= u64::MAX,
        decreases num,
    {
        proof {
            lemma_pow2_unfold(rounds as nat + 1);
            assert((num / 2) as nat * (2 * pow2(rounds as nat)) <= num as nat * pow2(
                rounds as nat,
            )) by (nonlinear_arith)
                requires
                    num >= 0,
                    pow2(rounds as nat) >= 0,
            ;
            if rounds == 63 {
                lemma2_to64();
                vstd::arithmetic::power2::lemma2_to64_rest();
                assert(num as nat * pow2(63) <= u64::MAX);
                assert(num <= 1) by (nonlinear_arith)
                    requires
                        num as nat * 0x8000000000000000 <= 0xFFFFFFFFFFFFFFFF,
                ;
            }
        }
        count += num % 2;
        num = num / 2;
        rounds += 1;
    }
    proof {
        vstd::arithmetic::power2::lemma_pow2_pos(0);
    }
    count
}

/// Two to the power `exponent`, for an exponent of at most 32.
fn two_to_the(exponent: usize) -> (result: u64)
    requires
        exponent <= 32,
    ensures
        result == pow2(exponent as nat),
{
    let mut power: u64 = 1;
    let mut i: usize = 0;
    proof {
        lemma2_to64();
    }
    while i < exponent
        invariant
            i <= exponent <= 32,
            power == pow2(i as nat),
            power <= 0x100000000,
        decreases exponent - i,
    {
        proof {
            lemma_pow2_unfold(i as nat + 1);
            lemma2_to64();
            if i + 1 < 32 {
                lemma_pow2_strictly_increases(i as nat + 1, 32);
            }
        }
        power = power * 2;
        i += 1;
    }
    power
}

/// Number of the `width` lowest bits of `mask` that are set.
pub open spec fn low_bit_count(mask: nat, width: nat) -> nat
    decreases width,
{
    if width == 0 {
        0
    } else {
        mask % 2 + low_bit_count(mask / 2, (width - 1) as nat)
    }
}

/// A mask below two to the power `width` has no bit set but among its
/// `width` lowest.
pub proof fn lemma_low_bit_count(mask: nat, width: nat)
    requires
        mask < pow2(width),
    ensures
        low_bit_count(mask, width) == bit_count(mask),
    decreases width,
{
    if width == 0 {
        lemma2_to64();
    } else {
        lemma_pow2_unfold(width);
        lemma_low_bit_count(mask / 2, (width - 1) as nat);
    }
}

/// A star placed in a cell of a list that held none makes one more star in
/// the list, if the cell is listed once; a cell that is given no star, or a
/// cell outside the list, changes nothing.
pub proof fn lemma_star_count_after(
    cells: GridView,
    zone: Seq<LineColumn>,
    lc: LineColumn,
    value: CellValue,
    nb_lines: int,
    nb_columns: int,
)
    requires
        has_shape(cells, nb_lines, nb_columns),
        zone_inside(zone, nb_lines, nb_columns),
        zone.no_duplicates(),
        lc.line < nb_lines,
        lc.column < nb_columns,
        value_at(cells, lc) != CellValue::Star,
    ensures
        GridHandler::count_in(with_value(cells, lc, value), zone, CellValue::Star)
            == GridHandler::count_in(cells, zone, CellValue::Star) + if zone.contains(lc) && value
            == CellValue::Star {
            1int
        } else {
            0int
        },
    decreases zone.len(),
{
    reveal(Seq::filter);
    let after = with_value(cells, lc, value);
    lemma_with_value(cells, lc, value, nb_lines, nb_columns);
    if zone.len() > 0 {
        let front = zone.drop_last();
        let last = zone.last();
        assert(zone_inside(front, nb_lines, nb_columns)) by {
            assert forall|i: int| 0 <= i < front.len() implies (#[trigger] front[i]).line < nb_lines
                && front[i].column < nb_columns by {
                assert(front[i] == zone[i]);
            }
        }
        assert(front.no_duplicates()) by {
            assert forall|i: int, j: int| 0 <= i < front.len() && 0 <= j < front.len() && i
                != j implies front[i] != front[j] by {
                assert(front[i] == zone[i] && front[j] == zone[j]);
            }
        }
        lemma_star_count_after(cells, front, lc, value, nb_lines, nb_columns);
        assert(zone[zone.len() - 1] == last);
        if front.contains(lc) {
            let i = choose|i: int| 0 <= i < front.len() && front[i] == lc;
            assert(zone[i] == lc);
            assert(last != lc);
        }
        if zone.contains(lc) && last != lc {
            let i = choose|i: int| 0 <= i < zone.len() && zone[i] == lc;
            assert(front[i] == lc);
        }
        if last != lc {
            assert(value_at(after, last) == value_at(cells, last));
        }
    }
}

/// Stars placed by a mask in cells of a list that held none, each listed
/// once, make as many more stars in the list as the mask has bits set among
/// those that count.
pub proof fn lemma_star_count_masked(
    cells: GridView,
    zone: Seq<LineColumn>,
    unknowns: Seq<LineColumn>,
    mask: nat,
    nb_lines: int,
    nb_columns: int,
)
    requires
        has_shape(cells, nb_lines, nb_columns),
        zone_inside(zone, nb_lines, nb_columns),
        zone.no_duplicates(),
        unknowns.no_duplicates(),
        forall|i: int|
            0 <= i < unknowns.len() ==> zone.contains(#[trigger] unknowns[i]) && value_at(
                cells,
                unknowns[i],
            ) != CellValue::Star,
    ensures
        GridHandler::count_in(masked(cells, unknowns, mask), zone, CellValue::Star)
            == GridHandler::count_in(cells, zone, CellValue::Star) + low_bit_count(
            mask,
            unknowns.len(),
        ),
    decreases unknowns.len(),
{
    if unknowns.len() > 0 {
        let first = unknowns[0];
        let rest = unknowns.drop_first();
        let one = with_value(cells, first, bit_value(mask));
        assert(zone.contains(first));
        let k = choose|k: int| 0 <= k < zone.len() && zone[k] == first;
        assert(zone[k].line < nb_lines && zone[k].column < nb_columns);
        lemma_with_value(cells, first, bit_value(mask), nb_lines, nb_columns);
        lemma_star_count_after(cells, zone, first, bit_value(mask), nb_lines, nb_columns);
        assert(rest.no_duplicates()) by {
            assert forall|i: int, j: int| 0 <= i < rest.len() && 0 <= j < rest.len() && i
                != j implies rest[i] != rest[j] by {
                assert(rest[i] == unknowns[i + 1] && rest[j] == unknowns[j + 1]);
            }
        }
        assert forall|i: int| 0 <= i < rest.len() implies zone.contains(#[trigger] rest[i])
            && value_at(one, rest[i]) != CellValue::Star by {
            assert(rest[i] == unknowns[i + 1]);
            assert(unknowns[i + 1] != unknowns[0]);
            let j = choose|j: int| 0 <= j < zone.len() && zone[j] == rest[i];
            assert(zone[j].line < nb_lines && zone[j].column < nb_columns);
        }
        lemma_star_count_masked(one, zone, rest, mask / 2, nb_lines, nb_columns);
    }
}

impl GridHandler {
    /// `grid` completes the zone `zone` of `cells` with `nb_stars` stars: it
    /// is `cells` with more cells known, among them all those of the zone,
    /// and the zone holds `nb_stars` stars.
    pub open spec fn completes(
        &self,
        cells: GridView,
        zone: Seq<LineColumn>,
        nb_stars: nat,
        grid: GridView,
    ) -> bool {
        &&& self.fits(grid)
        &&& same_layout(cells, grid)
        &&& extends(cells, grid)
        &&& Self::count_in(grid, zone, CellValue::Star) == nb_stars
        &&& forall|i: int|
            0 <= i < zone.len() ==> value_at(grid, #[trigger] zone[i]) != CellValue::Unknown
    }

    /// Each grid that the search by successive choices finds breaks no rule
    /// and completes the zone with its number of stars.
    pub proof fn lemma_recursive_completions(
        &self,
        cells: GridView,
        zone: Seq<LineColumn>,
        nb_stars: nat,
    )
        requires
            self.fits(cells),
            zone_inside(zone, self.spec_nb_lines() as int, self.spec_nb_columns() as int),
        ensures
            forall|i: int|
                0 <= i < self.recursive_completions(cells, zone, nb_stars).len() ==> {
                    &&& self.check(
                        #[trigger] self.recursive_completions(cells, zone, nb_stars)[i],
                    ) is Ok
                    &&& self.completes(
                        cells,
                        zone,
                        nb_stars,
                        self.recursive_completions(cells, zone, nb_stars)[i],
                    )
                },
        decreases Self::count_in(cells, zone, CellValue::Unknown),
    {
        let nb_lines = self.spec_nb_lines() as int;
        let nb_columns = self.spec_nb_columns() as int;
        let found = self.recursive_completions(cells, zone, nb_stars);
        if Self::count_in(cells, zone, CellValue::Star) == nb_stars {
            let filled = no_star_filled(cells, zone);
            lemma_no_star_filled(cells, zone, nb_lines, nb_columns);
            if self.check(filled) is Ok {
                assert(found[0] == filled);
                let star = Self::value_test(cells, CellValue::Star);
                let star_filled = Self::value_test(filled, CellValue::Star);
                assert forall|k: int| 0 <= k < zone.len() implies star_filled(#[trigger] zone[k])
                    == star(zone[k]) && value_at(filled, zone[k]) != CellValue::Unknown by {
                    assert(zone.contains(zone[k]));
                }
                lemma_filter_agree(zone, star_filled, star);
            }
        } else if let Some(pivot) = self.first_pivot(cells, zone) {
            self.lemma_pivot(cells, zone);
            let placed = self.star_placed(cells, pivot);
            let skipped = with_value(cells, pivot, CellValue::NoStar);
            let with_star = if self.check(placed) is Ok {
                self.recursive_completions(placed, zone, nb_stars)
            } else {
                Seq::empty()
            };
            let without = self.recursive_completions(skipped, zone, nb_stars);
            assert(found == with_star + without);
            if self.check(placed) is Ok {
                self.lemma_recursive_completions(placed, zone, nb_stars);
            }
            self.lemma_recursive_completions(skipped, zone, nb_stars);
            assert forall|i: int| 0 <= i < found.len() implies {
                &&& self.check(#[trigger] found[i]) is Ok
                &&& self.completes(cells, zone, nb_stars, found[i])
            } by {
                let grid = found[i];
                let via = if i < with_star.len() {
                    placed
                } else {
                    skipped
                };
                if i < with_star.len() {
                    assert(grid == with_star[i]);
                    assert(self.completes(placed, zone, nb_stars, with_star[i]));
                } else {
                    assert(grid == without[i - with_star.len()]);
                    assert(self.completes(skipped, zone, nb_stars, without[i - with_star.len()]));
                }
                assert(self.completes(via, zone, nb_stars, grid));
                assert(same_layout(cells, via) && extends(cells, via));
                assert(same_layout(cells, grid)) by {
                    assert forall|l: int, c: int|
                        0 <= l < cells.len() && 0 <= c < cells[l].len() implies {
                        &&& (#[trigger] grid[l][c]).line_column == cells[l][c].line_column
                        &&& grid[l][c].region == cells[l][c].region
                    } by {
                        assert(via[l][c].line_column == cells[l][c].line_column);
                        assert(grid[l][c].line_column == via[l][c].line_column);
                    }
                }
                assert(extends(cells, grid)) by {
                    assert forall|lc: LineColumn|
                        lc.line < cells.len() && lc.column < cells[lc.line as int].len()
                            && value_at(cells, lc) != CellValue::Unknown implies #[trigger] value_at(
                        grid,
                        lc,
                    ) == value_at(cells, lc) by {
                        assert(value_at(via, lc) == value_at(cells, lc));
                        assert(value_at(grid, lc) == value_at(via, lc));
                    }
                }
            }
        }
    }

    /// Each grid that the search by masks finds breaks no rule and is the
    /// grid to complete with the unknown cells of the zone known; if no cell
    /// is listed twice in the zone, the zone holds `nb_stars` stars in it.
    pub proof fn lemma_bitmask_completions(
        &self,
        cells: GridView,
        zone: Seq<LineColumn>,
        nb_stars: nat,
    )
        requires
            self.fits(cells),
            zone_inside(zone, self.spec_nb_lines() as int, self.spec_nb_columns() as int),
        ensures
            forall|i: int|
                0 <= i < self.bitmask_completions(cells, zone, nb_stars).len() ==> {
                    let grid = #[trigger] self.bitmask_completions(cells, zone, nb_stars)[i];
                    &&& self.check(grid) is Ok
                    &&& self.fits(grid)
                    &&& same_layout(cells, grid)
                    &&& extends(cells, grid)
                    &&& forall|k: int|
                        0 <= k < zone.len() ==> value_at(grid, #[trigger] zone[k])
                            != CellValue::Unknown
                    &&& forall|lc: LineColumn|
                        self.in_grid(lc) && !zone.contains(lc) ==> #[trigger] value_at(grid, lc)
                            == value_at(cells, lc)
                    &&& zone.no_duplicates() ==> Self::count_in(grid, zone, CellValue::Star)
                        == nb_stars
                },
    {
        let nb_lines = self.spec_nb_lines() as int;
        let nb_columns = self.spec_nb_columns() as int;
        let found = self.bitmask_completions(cells, zone, nb_stars);
        let stars = Self::count_in(cells, zone, CellValue::Star);
        let unknown = Self::value_test(cells, CellValue::Unknown);
        let unknowns = zone.filter(unknown);
        let missing = (nb_stars - stars) as nat;
        let masks = Seq::new((pow2(unknowns.len()) - 1) as nat, |i: int| (i + 1) as nat);
        let test = self.mask_test(cells, unknowns, missing);
        assert forall|i: int| 0 <= i < found.len() implies {
            let grid = #[trigger] found[i];
            &&& self.check(grid) is Ok
            &&& self.fits(grid)
            &&& same_layout(cells, grid)
            &&& extends(cells, grid)
            &&& forall|k: int|
                0 <= k < zone.len() ==> value_at(grid, #[trigger] zone[k]) != CellValue::Unknown
            &&& forall|lc: LineColumn|
                self.in_grid(lc) && !zone.contains(lc) ==> #[trigger] value_at(grid, lc)
                    == value_at(cells, lc)
            &&& zone.no_duplicates() ==> Self::count_in(grid, zone, CellValue::Star) == nb_stars
        } by {
            let grid = found[i];
            assert(stars < nb_stars);
            assert(found == masks.filter_map(test));
            assert(found.contains(grid));
            masks.lemma_filter_map_contains(test, grid);
            let mask = choose|mask: nat| #[trigger] masks.contains(mask) && test(mask) == Some(grid);
            let at = choose|at: int| 0 <= at < masks.len() && masks[at] == mask;
            vstd::arithmetic::power2::lemma_pow2_pos(unknowns.len());
            assert(mask == at + 1);
            assert(mask < pow2(unknowns.len()));
            assert(grid == masked(cells, unknowns, mask));
            assert(zone_inside(unknowns, nb_lines, nb_columns) && forall|k: int|
                0 <= k < unknowns.len() ==> zone.contains(#[trigger] unknowns[k]) && value_at(
                    cells,
                    unknowns[k],
                ) == CellValue::Unknown) by {
                assert forall|k: int| 0 <= k < unknowns.len() implies (#[trigger] unknowns[k]).line
                    < nb_lines && unknowns[k].column < nb_columns && zone.contains(unknowns[k])
                    && value_at(cells, unknowns[k]) == CellValue::Unknown by {
                    assert(unknowns.contains(unknowns[k]));
                    zone.lemma_filter_contains_rev(unknown, unknowns[k]);
                    let j = choose|j: int| 0 <= j < zone.len() && zone[j] == unknowns[k];
                    assert(zone[j].line < nb_lines);
                    zone.lemma_filter_pred(unknown, k);
                }
            }
            lemma_masked(cells, unknowns, mask, nb_lines, nb_columns);
            assert forall|lc: LineColumn|
                unknowns.contains(lc) implies zone.contains(lc) && value_at(cells, lc)
                == CellValue::Unknown by {
                let k = choose|k: int| 0 <= k < unknowns.len() && unknowns[k] == lc;
                assert(zone.contains(unknowns[k]));
            }
            assert forall|k: int| 0 <= k < zone.len() implies value_at(grid, #[trigger] zone[k])
                != CellValue::Unknown by {
                if value_at(cells, zone[k]) == CellValue::Unknown {
                    zone.lemma_filter_contains(unknown, k);
                    assert(unknowns.contains(zone[k]));
                }
                assert(if unknowns.contains(zone[k]) {
                    value_at(grid, zone[k]) != CellValue::Unknown
                } else {
                    value_at(grid, zone[k]) == value_at(cells, zone[k])
                });
            }
            assert forall|lc: LineColumn|
                self.in_grid(lc) && !zone.contains(lc) implies #[trigger] value_at(grid, lc)
                == value_at(cells, lc) by {
                assert(if unknowns.contains(lc) {
                    value_at(grid, lc) != CellValue::Unknown
                } else {
                    value_at(grid, lc) == value_at(cells, lc)
                });
            }
            assert(extends(cells, grid)) by {
                assert forall|lc: LineColumn|
                    lc.line < cells.len() && lc.column < cells[lc.line as int].len() && value_at(
                        cells,
                        lc,
                    ) != CellValue::Unknown implies #[trigger] value_at(grid, lc) == value_at(
                    cells,
                    lc,
                ) by {
                    assert(if unknowns.contains(lc) {
                        value_at(grid, lc) != CellValue::Unknown
                    } else {
                        value_at(grid, lc) == value_at(cells, lc)
                    });
                }
            }
            if zone.no_duplicates() {
                assert(unknowns.no_duplicates()) by {
                    crate::sequences::lemma_filter_no_duplicates(zone, unknown);
                }
                lemma_star_count_masked(cells, zone, unknowns, mask, nb_lines, nb_columns);
                lemma_low_bit_count(mask, unknowns.len());
            }
        }
    }
}

} // verus!
