//! Deduction: the cells that hold the same value however the missing stars
//! of a zone are placed.

use vstd::prelude::*;

use crate::grid::{positions_before, GridView};
use crate::grid_good_ruler::collector::Collector;
use crate::grid_good_ruler::good_rule::{deduction_of, Deduction};
use crate::grid_good_ruler::star_adjacent::{absent_from, StarAdjacent};
use crate::grid_good_ruler::variant::{grids_view, Variant};
use crate::grid_handler::sort_by_size;
use crate::sequences::lemma_filter_push_one;
use crate::CellValue;
use crate::GoodRule;
use crate::Grid;
use crate::GridAction;
use crate::GridHandler;
use crate::GridSurfer;

verus! {

/// The zones that a search for invariant cells examines.
#[derive(Clone, Copy, Debug, PartialEq, Eq, Structural)]
pub enum ZoneToExamine {
    /// Each region.
    Region,
    /// Each line, then each column.
    LineAndColumn,
    /// Each span of that many consecutive lines, then each span of that many
    /// consecutive columns.
    MultipleLinesAndColumns(usize),
}

/// The product of `missing` factors, from `unknown` down: the number of ways
/// to choose `missing` cells among `unknown`, one after the other.
pub open spec fn falling_product(unknown: nat, missing: nat) -> nat
    decreases missing,
{
    if missing == 0 {
        1
    } else {
        falling_product(unknown, (missing - 1) as nat) * ((unknown - (missing - 1)) as nat)
    }
}

/// With all its factors at least 1, the product does not shrink as factors
/// are added.
pub proof fn lemma_falling_product_grows(unknown: nat, fewer: nat, more: nat)
    requires
        fewer <= more <= unknown,
    ensures
        1 <= falling_product(unknown, fewer) <= falling_product(unknown, more),
    decreases more,
{
    if fewer == 0 && more == 0 {
    } else if fewer == more {
        lemma_falling_product_grows(unknown, (fewer - 1) as nat, (more - 1) as nat);
        let product = falling_product(unknown, (more - 1) as nat);
        let factor = (unknown - (more - 1)) as nat;
        assert(product * factor >= product) by (nonlinear_arith)
            requires
                product >= 1,
                factor >= 1,
        ;
    } else {
        lemma_falling_product_grows(unknown, fewer, (more - 1) as nat);
        let product = falling_product(unknown, (more - 1) as nat);
        let factor = (unknown - (more - 1)) as nat;
        assert(product * factor >= product) by (nonlinear_arith)
            requires
                product >= 1,
                factor >= 1,
        ;
    }
}

/// A grid of `nb_lines` lines and `nb_columns` columns has that many cells.
pub proof fn lemma_positions_len(nb_lines: int, nb_columns: int)
    requires
        0 <= nb_lines,
        0 <= nb_columns,
    ensures
        positions_before(nb_lines, nb_columns).len() == nb_lines * nb_columns,
    decreases nb_lines,
{
    if nb_lines > 0 {
        lemma_positions_len(nb_lines - 1, nb_columns);
        assert((nb_lines - 1) * nb_columns + nb_columns == nb_lines * nb_columns)
            by (nonlinear_arith);
    } else {
        assert(nb_lines * nb_columns == 0) by (nonlinear_arith)
            requires
                nb_lines == 0,
        ;
    }
}

impl GridHandler {
    /// The zones of the kind `kind`, in the order in which they are listed.
    pub open spec fn examined_zones(&self, kind: ZoneToExamine) -> Seq<GridSurfer> {
        match kind {
            ZoneToExamine::Region => self.region_zones(),
            ZoneToExamine::LineAndColumn => self.line_zones() + self.column_zones(),
            ZoneToExamine::MultipleLinesAndColumns(n) => self.spans(n as int),
        }
    }

    /// Number of stars that each zone of the kind `kind` takes.
    pub open spec fn examined_stars(&self, kind: ZoneToExamine) -> nat {
        match kind {
            ZoneToExamine::Region => self.spec_nb_stars() as nat,
            ZoneToExamine::LineAndColumn => self.spec_nb_stars() as nat,
            ZoneToExamine::MultipleLinesAndColumns(n) => (n * self.spec_nb_stars()) as nat,
        }
    }

    /// What [`combinaisons_count`] answers: `usize::MAX` if the zone holds
    /// `nb_stars` stars or more; 0 if it has no more unknown cells than stars
    /// missing; else the number of ways to choose cells for the missing stars
    /// one after the other, or `usize::MAX` if that is greater.
    pub open spec fn combination_cost(&self, cells: GridView, zone: GridSurfer, nb_stars: nat) -> nat {
        let stars = Self::count_in(cells, self.zone_cells(zone), CellValue::Star);
        let unknown = Self::count_in(cells, self.zone_cells(zone), CellValue::Unknown);
        let missing = (nb_stars - stars) as nat;
        if stars >= nb_stars {
            usize::MAX as nat
        } else if unknown <= missing {
            0
        } else if falling_product(unknown, missing) > usize::MAX {
            usize::MAX as nat
        } else {
            falling_product(unknown, missing)
        }
    }

    /// The grids that complete the zone `zone` of `cells` with `nb_stars`
    /// stars: those that the search by successive choices finds if
    /// `recursive` is set or the zone has more than 32 unknown cells, else
    /// those that the search by masks finds.
    pub open spec fn completions(
        &self,
        cells: GridView,
        zone: GridSurfer,
        nb_stars: nat,
        recursive: bool,
    ) -> Seq<GridView> {
        if recursive || !Collector::within_cap(cells, self.zone_cells(zone)) {
            self.recursive_completions(cells, self.zone_cells(zone), nb_stars)
        } else {
            self.bitmask_completions(cells, self.zone_cells(zone), nb_stars)
        }
    }

    /// The actions that the completions of the zone `zone` force.
    pub open spec fn forced_in(
        &self,
        cells: GridView,
        zone: GridSurfer,
        nb_stars: nat,
        recursive: bool,
    ) -> Seq<GridAction> {
        self.forced_actions(cells, self.completions(cells, zone, nb_stars, recursive))
    }

    /// The zone at `i` among the zones of the kind `kind` forces some action,
    /// and no zone that forces one has fewer completions, or as many and a
    /// smaller cost, or as many, the same cost and an earlier place.
    pub open spec fn is_best_zone(
        &self,
        cells: GridView,
        kind: ZoneToExamine,
        recursive: bool,
        i: int,
    ) -> bool {
        let zones = self.examined_zones(kind);
        let stars = self.examined_stars(kind);
        &&& 0 <= i < zones.len()
        &&& self.forced_in(cells, zones[i], stars, recursive).len() > 0
        &&& forall|j: int|
            0 <= j < zones.len() && (#[trigger] self.forced_in(
                cells,
                zones[j],
                stars,
                recursive,
            )).len() > 0 ==> self.zone_comes_first(cells, kind, recursive, i, j)
    }

    /// The zone at `i` comes before the zone at `j`, or is the same: it has
    /// fewer completions, or as many and a smaller cost, or as many, the same
    /// cost and no later place.
    pub open spec fn zone_comes_first(
        &self,
        cells: GridView,
        kind: ZoneToExamine,
        recursive: bool,
        i: int,
        j: int,
    ) -> bool {
        let zones = self.examined_zones(kind);
        let stars = self.examined_stars(kind);
        let found_i = self.completions(cells, zones[i], stars, recursive).len();
        let found_j = self.completions(cells, zones[j], stars, recursive).len();
        let cost_i = self.combination_cost(cells, zones[i], stars);
        let cost_j = self.combination_cost(cells, zones[j], stars);
        found_i < found_j || (found_i == found_j && (cost_i < cost_j || (cost_i == cost_j && i
            <= j)))
    }

    /// What [`rule_generic_possible_stars`] finds in `cells`: the actions
    /// that the completions of the best zone force, if any zone forces some.
    pub open spec fn generic_possible_stars(
        &self,
        cells: GridView,
        kind: ZoneToExamine,
        recursive: bool,
    ) -> Option<Deduction> {
        if exists|i: int| self.is_best_zone(cells, kind, recursive, i) {
            let i = choose|i: int| self.is_best_zone(cells, kind, recursive, i);
            let zone = self.examined_zones(kind)[i];
            Some(
                Deduction::InvariantWithZone(
                    zone,
                    self.forced_in(cells, zone, self.examined_stars(kind), recursive),
                ),
            )
        } else {
            None
        }
    }

    /// There is one best zone at most.
    pub proof fn lemma_best_zone_unique(
        &self,
        cells: GridView,
        kind: ZoneToExamine,
        recursive: bool,
        i: int,
        j: int,
    )
        requires
            self.is_best_zone(cells, kind, recursive, i),
            self.is_best_zone(cells, kind, recursive, j),
        ensures
            i == j,
    {
        assert(self.zone_comes_first(cells, kind, recursive, i, j));
        assert(self.zone_comes_first(cells, kind, recursive, j, i));
    }

    /// The zones of the kind `zone_to_examine`, in the order in which they
    /// are listed.
    pub fn list_examined_zones(&self, zone_to_examine: ZoneToExamine) -> (result: Vec<GridSurfer>)
        ensures
            result@ == self.examined_zones(zone_to_examine),
    {
        match zone_to_examine {
            ZoneToExamine::Region => {
                let zones = self.list_star_zones();
                let nb_regions = self.regions().len();
                let mut regions: Vec<GridSurfer> = Vec::new();
                let mut i: usize = 0;
                proof {
                    self.lemma_star_zones();
                }
                while i < nb_regions
                    invariant
                        i <= nb_regions,
                        nb_regions == self.spec_regions().len(),
                        zones@ == self.star_zones(),
                        nb_regions <= zones@.len(),
                        regions@ == self.region_zones().take(i as int),
                    decreases nb_regions - i,
                {
                    regions.push(zones[i]);
                    proof {
                        assert(zones@[i as int] == self.region_zones()[i as int]);
                        assert(regions@ =~= self.region_zones().take(i as int + 1));
                    }
                    i += 1;
                }
                proof {
                    assert(self.region_zones().take(nb_regions as int) =~= self.region_zones());
                }
                regions
            },
            ZoneToExamine::LineAndColumn => {
                let zones = self.list_star_zones();
                let nb_regions = self.regions().len();
                let mut lines_columns: Vec<GridSurfer> = Vec::new();
                let mut i: usize = nb_regions;
                proof {
                    self.lemma_star_zones();
                }
                while i < zones.len()
                    invariant
                        nb_regions <= i <= zones.len(),
                        nb_regions == self.spec_regions().len(),
                        nb_regions == self.region_zones().len(),
                        zones@ == self.star_zones(),
                        lines_columns@ == zones@.subrange(nb_regions as int, i as int),
                    decreases zones.len() - i,
                {
                    lines_columns.push(zones[i]);
                    proof {
                        assert(lines_columns@ =~= zones@.subrange(nb_regions as int, i as int + 1));
                    }
                    i += 1;
                }
                proof {
                    assert(zones@.subrange(nb_regions as int, zones@.len() as int)
                        =~= self.line_zones() + self.column_zones());
                }
                lines_columns
            },
            ZoneToExamine::MultipleLinesAndColumns(n) => self.list_spans(n),
        }
    }
}

/// Looks, among the zones of the kind `zone_to_examine`, for the one whose
/// completions force some cells and are the fewest; among zones with as many
/// completions, the one of least cost, then the first listed, is taken.
pub fn rule_generic_possible_stars(
    handler: &GridHandler,
    grid: &Grid,
    zone_to_examine: ZoneToExamine,
    recursive: bool,
) -> (result: Option<GoodRule>)
    requires
        handler.accepts(grid),
    ensures
        deduction_of(result) == handler.generic_possible_stars(grid@, zone_to_examine, recursive),
{
    let zones = handler.list_examined_zones(zone_to_examine);
    let ghost kind = zone_to_examine;
    let ghost stars = handler.examined_stars(kind);
    if zones.len() == 0 {
        proof {
            assert forall|i: int| !handler.is_best_zone(grid@, kind, recursive, i) by {}
        }
        return None;
    }
    let nb_stars = examined_nb_stars(handler, grid, zone_to_examine);
    let mut costs: Vec<usize> = Vec::new();
    let mut i: usize = 0;
    while i < zones.len()
        invariant
            i <= zones.len(),
            handler.accepts(grid),
            zones@ == handler.examined_zones(kind),
            stars == handler.examined_stars(kind),
            nb_stars == stars,
            costs@.len() == i,
            forall|k: int|
                0 <= k < i ==> #[trigger] costs@[k] == handler.combination_cost(
                    grid@,
                    zones@[k],
                    stars,
                ),
        decreases zones.len() - i,
    {
        let cost = combinaisons_count(handler, grid, &zones[i], nb_stars);
        costs.push(cost);
        i += 1;
    }
    let order = sort_by_size(&costs);
    let mut best: Option<(usize, usize, Vec<GridAction>)> = None;
    let mut k: usize = 0;
    while k < order.len()
        invariant
            k <= order.len(),
            handler.accepts(grid),
            zones@ == handler.examined_zones(kind),
            stars == handler.examined_stars(kind),
            nb_stars == stars,
            costs@.len() == zones@.len(),
            order@.len() == zones@.len(),
            forall|j: int|
                0 <= j < zones@.len() ==> #[trigger] costs@[j] == handler.combination_cost(
                    grid@,
                    zones@[j],
                    stars,
                ),
            forall|j: int| 0 <= j < order@.len() ==> (#[trigger] order@[j]) < zones@.len(),
            forall|a: int, b: int|
                0 <= a < b < order@.len() ==> costs@[#[trigger] order@[a] as int]
                    < costs@[#[trigger] order@[b] as int] || (costs@[order@[a] as int]
                    == costs@[order@[b] as int] && order@[a] < order@[b]),
            match best {
                None => forall|j: int|
                    0 <= j < k ==> handler.forced_in(
                        grid@,
                        zones@[#[trigger] order@[j] as int],
                        stars,
                        recursive,
                    ).len() == 0,
                Some((index, found, actions)) => {
                    &&& exists|j: int| 0 <= j < k && #[trigger] order@[j] == index
                    &&& index < zones@.len()
                    &&& actions@ == handler.forced_in(grid@, zones@[index as int], stars, recursive)
                    &&& actions@.len() > 0
                    &&& found == handler.completions(
                        grid@,
                        zones@[index as int],
                        stars,
                        recursive,
                    ).len()
                    &&& forall|j: int|
                        0 <= j < k && handler.forced_in(
                            grid@,
                            zones@[#[trigger] order@[j] as int],
                            stars,
                            recursive,
                        ).len() > 0 ==> handler.zone_comes_first(
                            grid@,
                            kind,
                            recursive,
                            index as int,
                            order@[j] as int,
                        )
                },
            },
        decreases order.len() - k,
    {
        let index = order[k];
        let (invariant_actions, nb_possible_grids) = try_star_complete(
            handler,
            grid,
            &zones[index],
            nb_stars,
            recursive,
        );
        if invariant_actions.len() > 0 {
            let better = match &best {
                None => true,
                Some((_, found, _)) => nb_possible_grids < *found,
            };
            proof {
                if let Some((previous, found, _)) = best {
                    let at = choose|j: int| 0 <= j < k && #[trigger] order@[j] == previous;
                    assert(costs@[order@[at] as int] < costs@[order@[k as int] as int] || (
                    costs@[order@[at] as int] == costs@[order@[k as int] as int] && order@[at]
                        < order@[k as int]));
                }
            }
            if better {
                best = Some((index, nb_possible_grids, invariant_actions));
            }
        }
        k += 1;
    }
    match best {
        None => {
            proof {
                assert forall|i: int| !handler.is_best_zone(grid@, kind, recursive, i) by {
                    if 0 <= i < zones@.len() {
                        assert(order@.contains(i as usize));
                        let j = choose|j: int| 0 <= j < order@.len() && order@[j] == i as usize;
                        assert(handler.forced_in(
                            grid@,
                            zones@[order@[j] as int],
                            stars,
                            recursive,
                        ).len() == 0);
                    }
                }
            }
            None
        },
        Some((index, _, actions)) => {
            proof {
                assert forall|i: int|
                    0 <= i < zones@.len() && (#[trigger] handler.forced_in(
                        grid@,
                        zones@[i],
                        stars,
                        recursive,
                    )).len() > 0 implies handler.zone_comes_first(
                    grid@,
                    kind,
                    recursive,
                    index as int,
                    i,
                ) by {
                    assert(order@.contains(i as usize));
                    let j = choose|j: int| 0 <= j < order@.len() && order@[j] == i as usize;
                    assert(handler.forced_in(
                        grid@,
                        zones@[order@[j] as int],
                        stars,
                        recursive,
                    ).len() > 0);
                }
                assert(handler.is_best_zone(grid@, kind, recursive, index as int));
                let chosen = choose|i: int| handler.is_best_zone(grid@, kind, recursive, i);
                handler.lemma_best_zone_unique(grid@, kind, recursive, index as int, chosen);
            }
            Some(GoodRule::InvariantWithZone(zones[index], actions))
        },
    }
}

/// Number of stars that each zone of the kind `zone_to_examine` takes. The
/// kind has zones.
fn examined_nb_stars(handler: &GridHandler, grid: &Grid, zone_to_examine: ZoneToExamine) -> (result:
    usize)
    requires
        handler.accepts(grid),
        handler.examined_zones(zone_to_examine).len() > 0,
    ensures
        result == handler.examined_stars(zone_to_examine),
{
    match zone_to_examine {
        ZoneToExamine::Region => handler.nb_stars(),
        ZoneToExamine::LineAndColumn => handler.nb_stars(),
        ZoneToExamine::MultipleLinesAndColumns(n) => {
            let all = handler.surfer(grid, &GridSurfer::AllCells);
            let nb_lines = handler.nb_lines();
            let nb_columns = handler.nb_columns();
            let nb_stars = handler.nb_stars();
            let total = all.len();
            proof {
                use_type_invariant(handler);
                handler.lemma_wf();
                handler.lemma_zone_all_cells();
                lemma_positions_len(nb_lines as int, nb_columns as int);
                assert(total == nb_lines * nb_columns);
                assert(nb_stars <= nb_lines && nb_stars <= nb_columns);
                assert(n <= nb_lines || n <= nb_columns);
                assert(n * nb_stars <= nb_lines * nb_columns) by (nonlinear_arith)
                    requires
                        (n <= nb_lines && nb_stars <= nb_columns) || (n <= nb_columns && nb_stars
                            <= nb_lines),
                ;
            }
            n * nb_stars
        },
    }
}

/// A measure of the work that the zone `grid_surfer` takes to complete with
/// `nb_stars` stars: see [`GridHandler::combination_cost`].
pub fn combinaisons_count(
    grid_handler: &GridHandler,
    grid: &Grid,
    grid_surfer: &GridSurfer,
    nb_stars: usize,
) -> (result: usize)
    requires
        grid_handler.accepts(grid),
    ensures
        result == grid_handler.combination_cost(grid@, *grid_surfer, nb_stars as nat),
{
    let surfer = grid_handler.surfer(grid, grid_surfer);
    let (cur_nb_stars, nb_unknown) = grid_handler.count_stars_and_unknown(grid, &surfer);
    if cur_nb_stars >= nb_stars {
        return usize::MAX;
    }
    let nb_stars_left = nb_stars - cur_nb_stars;
    if nb_unknown <= nb_stars_left {
        return 0;
    }
    let mut nb_cells = nb_unknown;
    let mut nb_combinaisons: usize = 1;
    let mut placed: usize = 0;
    while placed < nb_stars_left
        invariant
            placed <= nb_stars_left < nb_unknown,
            cur_nb_stars < nb_stars,
            nb_stars_left == nb_stars - cur_nb_stars,
            cur_nb_stars == GridHandler::count_in(
                grid@,
                grid_handler.zone_cells(*grid_surfer),
                CellValue::Star,
            ),
            nb_unknown == GridHandler::count_in(
                grid@,
                grid_handler.zone_cells(*grid_surfer),
                CellValue::Unknown,
            ),
            nb_cells == nb_unknown - placed,
            nb_combinaisons == falling_product(nb_unknown as nat, placed as nat),
        decreases nb_stars_left - placed,
    {
        proof {
            assert(falling_product(nb_unknown as nat, placed as nat + 1) == falling_product(
                nb_unknown as nat,
                placed as nat,
            ) * ((nb_unknown - placed) as nat));
        }
        match nb_combinaisons.checked_mul(nb_cells) {
            Some(product) => {
                nb_combinaisons = product;
            },
            None => {
                proof {
                    lemma_falling_product_grows(
                        nb_unknown as nat,
                        placed as nat + 1,
                        nb_stars_left as nat,
                    );
                    assert(nb_combinaisons * nb_cells > usize::MAX);
                    assert(falling_product(nb_unknown as nat, placed as nat + 1) > usize::MAX);
                    assert(falling_product(nb_unknown as nat, nb_stars_left as nat) > usize::MAX);
                }
                return usize::MAX;
            },
        }
        nb_cells -= 1;
        placed += 1;
    }
    nb_combinaisons
}

/// The actions that the completions of the zone `grid_surfer` with `nb_stars`
/// stars force, and the number of these completions.
///
/// The completions are searched by successive choices if `recursive` is set
/// or the zone has more than 32 unknown cells, else by masks.
pub fn try_star_complete(
    handler: &GridHandler,
    grid: &Grid,
    grid_surfer: &GridSurfer,
    nb_stars: usize,
    recursive: bool,
) -> (result: (Vec<GridAction>, usize))
    requires
        handler.accepts(grid),
    ensures
        result.0@ == handler.forced_in(grid@, *grid_surfer, nb_stars as nat, recursive),
        result.1 == handler.completions(grid@, *grid_surfer, nb_stars as nat, recursive).len(),
{
    let surfer = handler.surfer(grid, grid_surfer);
    let unknown = handler.keep_unknown(grid, &surfer);
    let mut collector = Collector::new(handler, grid, &surfer, nb_stars);
    if recursive || unknown.len() > 32 {
        collector.collect_recursive_possible_grids();
    } else {
        collector.collect_possible_grids();
    }
    proof {
        assert(grids_view(Seq::<Grid>::empty()) =~= Seq::<GridView>::empty());
        assert(Seq::<GridView>::empty() + handler.completions(
            grid@,
            *grid_surfer,
            nb_stars as nat,
            recursive,
        ) =~= handler.completions(grid@, *grid_surfer, nb_stars as nat, recursive));
    }
    let invariants = Variant::check_for_invariants(handler, grid, &collector.possible_grids);
    let star_adjacents = StarAdjacent::check_for_star_adjacents(
        handler,
        grid,
        &collector.possible_grids,
    );
    let merged = merge_actions(invariants, &star_adjacents);
    (merged, collector.possible_grids.len())
}

/// The actions `invariants`, then those of `star_adjacents` that are not
/// among them.
pub fn merge_actions(invariants: Vec<GridAction>, star_adjacents: &Vec<GridAction>) -> (result: Vec<
    GridAction,
>)
    ensures
        result@ == invariants@ + star_adjacents@.filter(absent_from(invariants@)),
{
    let ghost base = invariants@;
    let ghost test = absent_from(base);
    let nb_invariants = invariants.len();
    let mut merged = invariants;
    let mut i: usize = 0;
    proof {
        assert(base + star_adjacents@.take(0).filter(test) =~= base) by {
            crate::sequences::lemma_filter_nothing(star_adjacents@.take(0), test);
        }
    }
    while i < star_adjacents.len()
        invariant
            i <= star_adjacents.len(),
            test == absent_from(base),
            nb_invariants == base.len(),
            merged@ == base + star_adjacents@.take(i as int).filter(test),
        decreases star_adjacents.len() - i,
    {
        let action = star_adjacents[i];
        proof {
            assert(star_adjacents@.take(i as int + 1) =~= star_adjacents@.take(i as int).push(
                action,
            ));
            lemma_filter_push_one(star_adjacents@.take(i as int), test, action);
            assert(merged@.take(nb_invariants as int) =~= base);
        }
        if !contains_action(&merged, nb_invariants, action) {
            proof {
                assert(merged@.push(action) =~= base + star_adjacents@.take(i as int).filter(
                    test,
                ).push(action));
            }
            merged.push(action);
        }
        i += 1;
    }
    proof {
        assert(star_adjacents@.take(star_adjacents@.len() as int) =~= star_adjacents@);
    }
    merged
}

/// `true` when `action` is one of the first `upto` of `actions`.
fn contains_action(actions: &Vec<GridAction>, upto: usize, action: GridAction) -> (result: bool)
    requires
        upto <= actions@.len(),
    ensures
        result == actions@.take(upto as int).contains(action),
{
    let mut i: usize = 0;
    while i < upto
        invariant
            i <= upto <= actions@.len(),
            forall|k: int| 0 <= k < i ==> actions@[k] != action,
        decreases upto - i,
    {
        if actions[i] == action {
            assert(actions@.take(upto as int)[i as int] == action);
            return true;
        }
        i += 1;
    }
    false
}

} // verus!
