//! The deductions that make progress on a grid.

use vstd::prelude::*;
use vstd::string::StringExecFns;

use crate::check_bad_rules;
use crate::grid_action::{actions_have_labels, actions_text, display_vec_actions};
use crate::line_column::has_column_label;
use crate::grid::GridView;
use crate::grid_action::{actions_inside, after_actions};
use crate::grid_good_ruler::rule_generic_possible_stars::ZoneToExamine;
use crate::grid_good_ruler::rule_no_star_adjacent_to_star::rule_no_star_adjacent_to_star;
use crate::grid_good_ruler::rule_region_combinations::{
    rule_region_1_combinations, rule_region_2_combinations, rule_region_3_combinations,
    rule_region_4_combinations,
};
use crate::grid_good_ruler::rule_region_exclusions::{
    rule_region_1_exclusions, rule_region_2_exclusions, rule_region_3_exclusions,
    rule_region_4_exclusions,
};
use crate::grid_good_ruler::rule_region_possible_stars::rule_region_possible_stars;
use crate::grid_good_ruler::rule_value_completed::rule_value_completed;
use crate::grid_good_ruler::rule_zone_possible_stars::{
    rule_line_column_recursive_possible_stars, rule_multi_2_lines_columns_recursive_possible_stars,
    rule_multi_3_lines_columns_recursive_possible_stars,
    rule_multi_4_lines_columns_recursive_possible_stars, rule_region_recursive_possible_stars,
};
use crate::sequences::{first_some, lemma_first_some_at, lemma_first_some_none};
use crate::BadRuleError;
use crate::Grid;
use crate::GridAction;
use crate::GridHandler;
use crate::GridSurfer;
use crate::LineColumn;
use crate::Region;

verus! {

/// A deduction: why some cells are forced, and the actions that give them
/// their value.
#[derive(Debug)]
pub enum GoodRule {
    /// The unknown cells around the star in this cell cannot hold a star.
    NoStarAdjacentToStar(LineColumn, Vec<GridAction>),
    /// The zone has all its stars: its other cells cannot hold one.
    ZoneNoStarCompleted(GridSurfer, Vec<GridAction>),
    /// These regions have no room for their stars but in these lines, or
    /// columns: their cells elsewhere cannot hold a star.
    ZoneExclusions(Vec<Region>, GridSurfer, Vec<GridAction>),
    /// These regions fill these lines, or columns, with their stars: the
    /// cells of other regions there cannot hold a star.
    ZoneCombinations(Vec<Region>, GridSurfer, Vec<GridAction>),
    /// The zone has as many unknown cells as stars missing: each holds a star.
    ZoneStarCompleted(GridSurfer, Vec<GridAction>),
    /// However the stars of the zone are placed, these cells hold the same value.
    InvariantWithZone(GridSurfer, Vec<GridAction>),
}

/// The mathematical content of a [`GoodRule`].
pub enum Deduction {
    /// See [`GoodRule::NoStarAdjacentToStar`].
    NoStarAdjacentToStar(LineColumn, Seq<GridAction>),
    /// See [`GoodRule::ZoneNoStarCompleted`].
    ZoneNoStarCompleted(GridSurfer, Seq<GridAction>),
    /// See [`GoodRule::ZoneExclusions`].
    ZoneExclusions(Seq<Region>, GridSurfer, Seq<GridAction>),
    /// See [`GoodRule::ZoneCombinations`].
    ZoneCombinations(Seq<Region>, GridSurfer, Seq<GridAction>),
    /// See [`GoodRule::ZoneStarCompleted`].
    ZoneStarCompleted(GridSurfer, Seq<GridAction>),
    /// See [`GoodRule::InvariantWithZone`].
    InvariantWithZone(GridSurfer, Seq<GridAction>),
}

impl Deduction {
    /// The actions of the deduction.
    pub open spec fn actions(self) -> Seq<GridAction> {
        match self {
            Self::NoStarAdjacentToStar(_, actions) => actions,
            Self::ZoneNoStarCompleted(_, actions) => actions,
            Self::ZoneExclusions(_, _, actions) => actions,
            Self::ZoneCombinations(_, _, actions) => actions,
            Self::ZoneStarCompleted(_, actions) => actions,
            Self::InvariantWithZone(_, actions) => actions,
        }
    }
}

impl Clone for GoodRule {
    /// A copy of the deduction: same reason, same actions.
    fn clone(&self) -> (result: Self)
        ensures
            result@ == self@,
    {
        match self {
            Self::NoStarAdjacentToStar(line_column, actions) => Self::NoStarAdjacentToStar(
                *line_column,
                copy_actions(actions),
            ),
            Self::ZoneNoStarCompleted(zone, actions) => Self::ZoneNoStarCompleted(
                *zone,
                copy_actions(actions),
            ),
            Self::ZoneExclusions(regions, zone, actions) => Self::ZoneExclusions(
                copy_regions(regions),
                *zone,
                copy_actions(actions),
            ),
            Self::ZoneCombinations(regions, zone, actions) => Self::ZoneCombinations(
                copy_regions(regions),
                *zone,
                copy_actions(actions),
            ),
            Self::ZoneStarCompleted(zone, actions) => Self::ZoneStarCompleted(
                *zone,
                copy_actions(actions),
            ),
            Self::InvariantWithZone(zone, actions) => Self::InvariantWithZone(
                *zone,
                copy_actions(actions),
            ),
        }
    }
}

/// A copy of `actions`.
pub fn copy_actions(actions: &Vec<GridAction>) -> (result: Vec<GridAction>)
    ensures
        result@ == actions@,
{
    let mut copy: Vec<GridAction> = Vec::new();
    let mut i: usize = 0;
    while i < actions.len()
        invariant
            i <= actions.len(),
            copy@ == actions@.take(i as int),
        decreases actions.len() - i,
    {
        copy.push(actions[i]);
        proof {
            assert(copy@ =~= actions@.take(i as int + 1));
        }
        i += 1;
    }
    proof {
        assert(actions@.take(actions@.len() as int) =~= actions@);
    }
    copy
}

/// A copy of `regions`.
pub fn copy_regions(regions: &Vec<Region>) -> (result: Vec<Region>)
    ensures
        result@ == regions@,
{
    let mut copy: Vec<Region> = Vec::new();
    let mut i: usize = 0;
    while i < regions.len()
        invariant
            i <= regions.len(),
            copy@ == regions@.take(i as int),
        decreases regions.len() - i,
    {
        copy.push(crate::grid_handler::region_at(regions, i));
        proof {
            assert(copy@ =~= regions@.take(i as int + 1));
        }
        i += 1;
    }
    proof {
        assert(regions@.take(regions@.len() as int) =~= regions@);
    }
    copy
}

impl View for GoodRule {
    type V = Deduction;

    open spec fn view(&self) -> Deduction {
        match self {
            Self::NoStarAdjacentToStar(line_column, actions) => Deduction::NoStarAdjacentToStar(
                *line_column,
                actions@,
            ),
            Self::ZoneNoStarCompleted(zone, actions) => Deduction::ZoneNoStarCompleted(
                *zone,
                actions@,
            ),
            Self::ZoneExclusions(regions, zone, actions) => Deduction::ZoneExclusions(
                regions@,
                *zone,
                actions@,
            ),
            Self::ZoneCombinations(regions, zone, actions) => Deduction::ZoneCombinations(
                regions@,
                *zone,
                actions@,
            ),
            Self::ZoneStarCompleted(zone, actions) => Deduction::ZoneStarCompleted(*zone, actions@),
            Self::InvariantWithZone(zone, actions) => Deduction::InvariantWithZone(*zone, actions@),
        }
    }
}

/// The content of the deduction that a rule found, if it found one.
pub open spec fn deduction_of(rule: Option<GoodRule>) -> Option<Deduction> {
    match rule {
        Some(rule) => Some(rule@),
        None => None,
    }
}

/// What a rule found.
pub open spec fn found_by() -> spec_fn(Option<Deduction>) -> Option<Deduction> {
    |rule: Option<Deduction>| rule
}

/// The actions that rule out a star in each of `cells`.
pub open spec fn no_star_actions(cells: Seq<LineColumn>) -> Seq<GridAction> {
    cells.map_values(|lc: LineColumn| GridAction::SetNoStar(lc))
}

/// The actions that place a star in each of `cells`.
pub open spec fn star_actions(cells: Seq<LineColumn>) -> Seq<GridAction> {
    cells.map_values(|lc: LineColumn| GridAction::SetStar(lc))
}

/// The actions that rule out a star in each of `cells`.
pub fn set_no_star_actions(cells: &Vec<LineColumn>) -> (result: Vec<GridAction>)
    ensures
        result@ == no_star_actions(cells@),
{
    let mut actions: Vec<GridAction> = Vec::new();
    let mut i: usize = 0;
    while i < cells.len()
        invariant
            i <= cells.len(),
            actions@ == no_star_actions(cells@.take(i as int)),
        decreases cells.len() - i,
    {
        actions.push(GridAction::SetNoStar(cells[i]));
        proof {
            assert(actions@ =~= no_star_actions(cells@.take(i as int + 1)));
        }
        i += 1;
    }
    proof {
        assert(cells@.take(cells@.len() as int) =~= cells@);
    }
    actions
}

/// The actions that place a star in each of `cells`.
pub fn set_star_actions(cells: &Vec<LineColumn>) -> (result: Vec<GridAction>)
    ensures
        result@ == star_actions(cells@),
{
    let mut actions: Vec<GridAction> = Vec::new();
    let mut i: usize = 0;
    while i < cells.len()
        invariant
            i <= cells.len(),
            actions@ == star_actions(cells@.take(i as int)),
        decreases cells.len() - i,
    {
        actions.push(GridAction::SetStar(cells[i]));
        proof {
            assert(actions@ =~= star_actions(cells@.take(i as int + 1)));
        }
        i += 1;
    }
    proof {
        assert(cells@.take(cells@.len() as int) =~= cells@);
    }
    actions
}

impl GoodRule {
    /// The actions of the deduction.
    pub fn actions(&self) -> (result: &Vec<GridAction>)
        ensures
            result@ == self@.actions(),
    {
        match self {
            GoodRule::NoStarAdjacentToStar(_, actions)
            | GoodRule::ZoneNoStarCompleted(_, actions)
            | GoodRule::ZoneExclusions(_, _, actions)
            | GoodRule::ZoneCombinations(_, _, actions)
            | GoodRule::ZoneStarCompleted(_, actions)
            | GoodRule::InvariantWithZone(_, actions) => actions,
        }
    }
}

impl Grid {
    /// Does the actions of the deduction `rule` on the grid, in order.
    pub fn apply_good_rule(&mut self, rule: &GoodRule)
        requires
            old(self).wf(),
            actions_inside(
                rule@.actions(),
                old(self).spec_nb_lines() as int,
                old(self).spec_nb_columns() as int,
            ),
        ensures
            final(self)@ == after_actions(old(self)@, rule@.actions()),
            final(self).spec_nb_lines() == old(self).spec_nb_lines(),
            final(self).spec_nb_columns() == old(self).spec_nb_columns(),
            final(self).wf(),
    {
        self.apply_actions(rule.actions());
    }
}

impl GridHandler {
    /// What each deduction finds in `cells`, in the order in which
    /// [`get_good_rule`] tries them.
    pub open spec fn rules(&self, cells: GridView) -> Seq<Option<Deduction>> {
        seq![
            self.no_star_adjacent_to_star(cells),
            self.value_completed(cells),
            self.region_exclusions(cells, 1),
            self.region_combinations(cells, 1),
            self.generic_possible_stars(cells, ZoneToExamine::Region, false),
            self.region_exclusions(cells, 2),
            self.region_combinations(cells, 2),
            self.generic_possible_stars(cells, ZoneToExamine::Region, true),
            self.region_exclusions(cells, 3),
            self.region_combinations(cells, 3),
            self.generic_possible_stars(cells, ZoneToExamine::LineAndColumn, true),
            self.region_exclusions(cells, 4),
            self.region_combinations(cells, 4),
            self.generic_possible_stars(cells, ZoneToExamine::MultipleLinesAndColumns(2), true),
            self.generic_possible_stars(cells, ZoneToExamine::MultipleLinesAndColumns(3), true),
            self.generic_possible_stars(cells, ZoneToExamine::MultipleLinesAndColumns(4), true),
        ]
    }

    /// The first deduction that is found in `cells`.
    pub open spec fn first_rule(&self, cells: GridView) -> Option<Deduction> {
        first_some(self.rules(cells), found_by())
    }

    /// What [`get_good_rule`] answers on `cells`: what is wrong with them, if
    /// anything is; else nothing if no cell is unknown; else the first
    /// deduction that is found, if any.
    pub open spec fn good_rule(&self, cells: GridView) -> Result<Option<Deduction>, BadRuleError> {
        match self.check(cells) {
            Err(error) => Err(error),
            Ok(_) => if self.fully_known(cells) {
                Ok(None)
            } else {
                Ok(self.first_rule(cells))
            },
        }
    }
}

/// Looks for a deduction that makes progress on `grid`.
///
/// The answer is an error if `grid` breaks a rule of the puzzle. Else it is
/// the first deduction found, the simplest being tried first; it is `None`
/// when the puzzle is solved and when no deduction is found.
pub fn get_good_rule(handler: &GridHandler, grid: &Grid) -> (result: Result<
    Option<GoodRule>,
    BadRuleError,
>)
    requires
        handler.accepts(grid),
    ensures
        match result {
            Ok(rule) => handler.good_rule(grid@) == Ok::<Option<Deduction>, BadRuleError>(
                deduction_of(rule),
            ),
            Err(error) => handler.good_rule(grid@) == Err::<Option<Deduction>, BadRuleError>(error),
        },
        result matches Ok(Some(rule)) ==> rule@.actions().len() > 0 && handler.fills_unknown(
            grid@,
            rule@.actions(),
        ),
        forall|solution: GridView| #[trigger]
            handler.leads_to(grid@, solution) ==> match result {
                Ok(Some(rule)) => {
                    &&& handler.leads_to(after_actions(grid@, rule@.actions()), solution)
                    &&& handler.check(after_actions(grid@, rule@.actions())) is Ok
                },
                Ok(None) => true,
                Err(_) => false,
            },
{
    proof {
        assert forall|solution: GridView| #[trigger]
            handler.leads_to(grid@, solution) implies handler.check(grid@) is Ok by {
            handler.lemma_leads_to_consistent(grid@, solution);
        }
    }
    if let Err(error) = check_bad_rules(handler, grid) {
        return Err(error);
    }
    if handler.is_done(grid) {
        return Ok(None);
    }
    let ghost rules = handler.rules(grid@);
    let ghost same = found_by();
    let mut index: usize = 0;
    while index < 16
        invariant
            index <= 16,
            handler.accepts(grid),
            handler.check(grid@) is Ok,
            !handler.fully_known(grid@),
            rules == handler.rules(grid@),
            same == found_by(),
            forall|k: int| 0 <= k < index ==> same(#[trigger] rules[k]) is None,
        decreases 16 - index,
    {
        let rule = try_rule(handler, grid, index);
        if rule.is_some() {
            proof {
                lemma_first_some_at(rules, same, index as int);
                handler.lemma_first_rule_progress(grid@);
                assert forall|solution: GridView| #[trigger]
                    handler.leads_to(grid@, solution) implies handler.leads_to(
                    after_actions(grid@, rule->0@.actions()),
                    solution,
                ) && handler.check(after_actions(grid@, rule->0@.actions())) is Ok by {
                    handler.lemma_sound_actions(grid@, solution, rule->0@.actions());
                }
            }
            return Ok(rule);
        }
        index += 1;
    }
    proof {
        lemma_first_some_none(rules, same);
    }
    Ok(None)
}

/// What the deduction at `index`, in the order in which [`get_good_rule`]
/// tries them, finds in `grid`.
pub fn try_rule(handler: &GridHandler, grid: &Grid, index: usize) -> (result: Option<GoodRule>)
    requires
        handler.accepts(grid),
        index < 16,
    ensures
        deduction_of(result) == handler.rules(grid@)[index as int],
        forall|solution: GridView|
            #[trigger] handler.leads_to(grid@, solution) && result is Some
                ==> GridHandler::agree_with(solution, result->0@.actions()),
{
    let result = match index {
        0 => rule_no_star_adjacent_to_star(handler, grid),
        1 => rule_value_completed(handler, grid),
        2 => rule_region_1_exclusions(handler, grid),
        3 => rule_region_1_combinations(handler, grid),
        4 => rule_region_possible_stars(handler, grid),
        5 => rule_region_2_exclusions(handler, grid),
        6 => rule_region_2_combinations(handler, grid),
        7 => rule_region_recursive_possible_stars(handler, grid),
        8 => rule_region_3_exclusions(handler, grid),
        9 => rule_region_3_combinations(handler, grid),
        10 => rule_line_column_recursive_possible_stars(handler, grid),
        11 => rule_region_4_exclusions(handler, grid),
        12 => rule_region_4_combinations(handler, grid),
        13 => rule_multi_2_lines_columns_recursive_possible_stars(handler, grid),
        14 => rule_multi_3_lines_columns_recursive_possible_stars(handler, grid),
        _ => rule_multi_4_lines_columns_recursive_possible_stars(handler, grid),
    };
    proof {
        use_type_invariant(handler);
        assert forall|solution: GridView|
            #[trigger] handler.leads_to(grid@, solution)
                && result is Some implies GridHandler::agree_with(
            solution,
            result->0@.actions(),
        ) by {
            let cells = grid@;
            if index == 0 {
                handler.lemma_no_star_adjacent_to_star_sound(cells, solution);
            } else if index == 1 {
                handler.lemma_value_completed_sound(cells, solution);
            } else if index == 2 {
                handler.lemma_region_exclusions_sound(cells, solution, 1);
            } else if index == 4 {
                handler.lemma_generic_possible_stars_sound(
                    cells,
                    solution,
                    ZoneToExamine::Region,
                    false,
                );
            } else if index == 5 {
                handler.lemma_region_exclusions_sound(cells, solution, 2);
            } else if index == 7 {
                handler.lemma_generic_possible_stars_sound(
                    cells,
                    solution,
                    ZoneToExamine::Region,
                    true,
                );
            } else if index == 8 {
                handler.lemma_region_exclusions_sound(cells, solution, 3);
            } else if index == 10 {
                handler.lemma_generic_possible_stars_sound(
                    cells,
                    solution,
                    ZoneToExamine::LineAndColumn,
                    true,
                );
            } else if index == 11 {
                handler.lemma_region_exclusions_sound(cells, solution, 4);
            } else if index == 13 {
                handler.lemma_generic_possible_stars_sound(
                    cells,
                    solution,
                    ZoneToExamine::MultipleLinesAndColumns(2),
                    true,
                );
            } else if index == 14 {
                handler.lemma_generic_possible_stars_sound(
                    cells,
                    solution,
                    ZoneToExamine::MultipleLinesAndColumns(3),
                    true,
                );
            } else if index == 15 {
                handler.lemma_generic_possible_stars_sound(
                    cells,
                    solution,
                    ZoneToExamine::MultipleLinesAndColumns(4),
                    true,
                );
            }
        }
    }
    result
}

/// The names of `regions`, with a plus sign between them.
pub open spec fn regions_text(regions: Seq<Region>) -> Seq<char>
    decreases regions.len(),
{
    if regions.len() == 0 {
        Seq::empty()
    } else if regions.len() == 1 {
        seq![regions[0]]
    } else {
        regions_text(regions.drop_last()) + "+"@.push(regions.last())
    }
}

/// The text that shows a list of regions.
pub fn display_vec_regions(regions: &Vec<Region>) -> (result: String)
    ensures
        result@ == regions_text(regions@),
{
    let mut str_regions = String::new();
    let mut i: usize = 0;
    while i < regions.len()
        invariant
            i <= regions.len(),
            str_regions@ == regions_text(regions@.take(i as int)),
        decreases regions.len() - i,
    {
        let region = crate::grid_handler::region_at(regions, i);
        proof {
            assert(regions@.take(i as int + 1).drop_last() =~= regions@.take(i as int));
            assert(regions@.take(i as int + 1).last() == region);
            assert(regions@.take(i as int + 1)[0] == regions@[0]);
        }
        if i > 0 {
            str_regions.append("+");
        }
        str_regions.push(region);
        proof {
            if i == 0 {
                assert(str_regions@ =~= seq![region]);
            } else {
                assert(str_regions@ =~= regions_text(regions@.take(i as int)) + "+"@.push(region));
            }
        }
        i += 1;
    }
    proof {
        assert(regions@.take(regions@.len() as int) =~= regions@);
    }
    str_regions
}

impl Deduction {
    /// The cells and the zone that the deduction names have labels.
    pub open spec fn has_labels(self) -> bool {
        &&& actions_have_labels(self.actions())
        &&& match self {
            Self::NoStarAdjacentToStar(line_column, _) => has_column_label(line_column.column),
            Self::ZoneNoStarCompleted(zone, _) => zone.has_labels(),
            Self::ZoneExclusions(_, zone, _) => zone.has_labels(),
            Self::ZoneCombinations(_, zone, _) => zone.has_labels(),
            Self::ZoneStarCompleted(zone, _) => zone.has_labels(),
            Self::InvariantWithZone(zone, _) => zone.has_labels(),
        }
    }

    /// The text that explains the deduction: why the cells are forced, then
    /// the actions.
    pub open spec fn text(self) -> Seq<char> {
        match self {
            Self::NoStarAdjacentToStar(line_column, actions) => "Les cases adjacentes à l'étoile en "@
                + line_column.text() + " ne peuvent pas contenir une étoile : "@ + actions_text(
                actions,
            ),
            Self::ZoneNoStarCompleted(zone, actions) => "Les cases restantes pour "@ + zone.text()
                + " ne peuvent pas contenir une étoile : "@ + actions_text(actions),
            Self::ZoneExclusions(regions, zone, actions) => "Les cases restantes des regions "@
                + regions_text(regions) + " qui ne sont pas dans "@ + zone.text()
                + " ne peuvent être une étoile : "@ + actions_text(actions),
            Self::ZoneCombinations(regions, zone, actions) => "Les cases restantes sur "@
                + zone.text() + " qui ne sont pas dans les régions "@ + regions_text(regions)
                + " ne peuvent être une étoile : "@ + actions_text(actions),
            Self::ZoneStarCompleted(zone, actions) => "Les cases restantes pour "@ + zone.text()
                + " peuvent être qu'une étoile : "@ + actions_text(actions),
            Self::InvariantWithZone(zone, actions) => "Toutes les possibilités pour "@
                + zone.text() + " impliquent la seule possibilité : "@ + actions_text(actions),
        }
    }
}

impl GoodRule {
    /// The text that explains the deduction.
    pub fn to_text(&self) -> (result: String)
        requires
            self@.has_labels(),
        ensures
            result@ == self@.text(),
    {
        let mut text = String::new();
        match self {
            Self::NoStarAdjacentToStar(line_column, actions) => {
                text.append("Les cases adjacentes à l'étoile en ");
                text.append(line_column.to_text().as_str());
                text.append(" ne peuvent pas contenir une étoile : ");
                text.append(display_vec_actions(actions).as_str());
            },
            Self::ZoneNoStarCompleted(grid_surfer, actions) => {
                text.append("Les cases restantes pour ");
                text.append(grid_surfer.to_text().as_str());
                text.append(" ne peuvent pas contenir une étoile : ");
                text.append(display_vec_actions(actions).as_str());
            },
            Self::ZoneExclusions(regions, grid_surfer, actions) => {
                text.append("Les cases restantes des regions ");
                text.append(display_vec_regions(regions).as_str());
                text.append(" qui ne sont pas dans ");
                text.append(grid_surfer.to_text().as_str());
                text.append(" ne peuvent être une étoile : ");
                text.append(display_vec_actions(actions).as_str());
            },
            Self::ZoneCombinations(regions, grid_surfer, actions) => {
                text.append("Les cases restantes sur ");
                text.append(grid_surfer.to_text().as_str());
                text.append(" qui ne sont pas dans les régions ");
                text.append(display_vec_regions(regions).as_str());
                text.append(" ne peuvent être une étoile : ");
                text.append(display_vec_actions(actions).as_str());
            },
            Self::ZoneStarCompleted(grid_surfer, actions) => {
                text.append("Les cases restantes pour ");
                text.append(grid_surfer.to_text().as_str());
                text.append(" peuvent être qu'une étoile : ");
                text.append(display_vec_actions(actions).as_str());
            },
            Self::InvariantWithZone(surfer, actions) => {
                text.append("Toutes les possibilités pour ");
                text.append(surfer.to_text().as_str());
                text.append(" impliquent la seule possibilité : ");
                text.append(display_vec_actions(actions).as_str());
            },
        }
        proof {
            assert(text@ =~= self@.text());
        }
        text
    }
}

} // verus!
