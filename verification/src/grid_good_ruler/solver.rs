//! The solver: deductions applied one after the other, for as long as one is
//! found.

use vstd::prelude::*;

use crate::grid::GridView;
use crate::grid_action::after_actions;
use crate::grid_good_ruler::collector::extends;
use crate::grid_good_ruler::good_rule::{get_good_rule, Deduction};
use crate::BadRuleError;
use crate::GoodRule;
use crate::Grid;
use crate::GridHandler;

verus! {

/// The content of each of `rules`.
pub open spec fn rules_view(rules: Seq<GoodRule>) -> Seq<Deduction> {
    rules.map_values(|rule: GoodRule| rule@)
}

impl GridHandler {
    /// The grid content that the solver leaves, starting from `cells`: each
    /// deduction found is applied, until none is found or a rule is broken.
    pub open spec fn solved(&self, cells: GridView) -> GridView
        decreases self.unknown_count(cells),
        when self.fits(cells)
        via Self::solved_decreases
    {
        match self.good_rule(cells) {
            Ok(Some(deduction)) => self.solved(after_actions(cells, deduction.actions())),
            _ => cells,
        }
    }

    #[via_fn]
    proof fn solved_decreases(&self, cells: GridView) {
        if let Ok(Some(deduction)) = self.good_rule(cells) {
            self.lemma_first_rule_progress(cells);
            self.lemma_fill_progress(cells, deduction.actions());
        }
    }

    /// The deductions that the solver applies, starting from `cells`, in order.
    pub open spec fn solving_steps(&self, cells: GridView) -> Seq<Deduction>
        decreases self.unknown_count(cells),
        when self.fits(cells)
        via Self::solving_steps_decreases
    {
        match self.good_rule(cells) {
            Ok(Some(deduction)) => seq![deduction] + self.solving_steps(
                after_actions(cells, deduction.actions()),
            ),
            _ => Seq::empty(),
        }
    }

    #[via_fn]
    proof fn solving_steps_decreases(&self, cells: GridView) {
        if let Ok(Some(deduction)) = self.good_rule(cells) {
            self.lemma_first_rule_progress(cells);
            self.lemma_fill_progress(cells, deduction.actions());
        }
    }

    /// The solver stops on a grid of the same size, in which the cells that
    /// were known hold what they held, and on which no deduction is found.
    pub proof fn lemma_solved(&self, cells: GridView)
        requires
            self.fits(cells),
        ensures
            self.fits(self.solved(cells)),
            extends(cells, self.solved(cells)),
            !(self.good_rule(self.solved(cells)) matches Ok(Some(_))),
        decreases self.unknown_count(cells),
    {
        if let Ok(Some(deduction)) = self.good_rule(cells) {
            self.lemma_first_rule_progress(cells);
            self.lemma_fill_progress(cells, deduction.actions());
            self.lemma_fill(cells, deduction.actions());
            let next = after_actions(cells, deduction.actions());
            self.lemma_solved(next);
            let last = self.solved(next);
            assert forall|lc: crate::LineColumn|
                lc.line < cells.len() && lc.column < cells[lc.line as int].len()
                    && crate::grid::value_at(cells, lc)
                    != crate::CellValue::Unknown implies #[trigger] crate::grid::value_at(
                last,
                lc,
            ) == crate::grid::value_at(cells, lc) by {
                assert(crate::grid::value_at(next, lc) == crate::grid::value_at(cells, lc));
            }
        }
    }
}

/// Solves as much of `grid` as the deductions allow: applies each deduction
/// found, until none is found or `grid` breaks a rule.
///
/// The answer lists the deductions applied, or tells which rule the grid
/// breaks. The puzzle is solved if `handler.is_done(grid)` afterwards.
pub fn solve(handler: &GridHandler, grid: &mut Grid) -> (result: Result<Vec<GoodRule>, BadRuleError>)
    requires
        handler.accepts(old(grid)),
    ensures
        handler.accepts(final(grid)),
        final(grid)@ == handler.solved(old(grid)@),
        match result {
            Ok(rules) => {
                &&& rules_view(rules@) == handler.solving_steps(old(grid)@)
                &&& handler.good_rule(final(grid)@) == Ok::<Option<Deduction>, BadRuleError>(None)
            },
            Err(error) => handler.good_rule(final(grid)@) == Err::<
                Option<Deduction>,
                BadRuleError,
            >(error),
        },
        forall|solution: GridView| #[trigger]
            handler.leads_to(old(grid)@, solution) ==> result is Ok && handler.leads_to(
                final(grid)@,
                solution,
            ),
{
    let mut rules: Vec<GoodRule> = Vec::new();
    proof {
        assert(rules_view(rules@) + handler.solving_steps(grid@) =~= handler.solving_steps(
            old(grid)@,
        ));
    }
    loop
        invariant
            handler.accepts(grid),
            handler.solved(grid@) == handler.solved(old(grid)@),
            forall|solution: GridView| #[trigger]
                handler.leads_to(old(grid)@, solution) ==> handler.leads_to(grid@, solution),
            rules_view(rules@) + handler.solving_steps(grid@) == handler.solving_steps(old(grid)@),
        decreases handler.unknown_count(grid@),
    {
        match get_good_rule(handler, grid) {
            Err(error) => {
                proof {
                    assert(rules_view(rules@) + Seq::<Deduction>::empty() =~= rules_view(rules@));
                }
                return Err(error);
            },
            Ok(None) => {
                proof {
                    assert(rules_view(rules@) + Seq::<Deduction>::empty() =~= rules_view(rules@));
                }
                return Ok(rules);
            },
            Ok(Some(rule)) => {
                proof {
                    handler.lemma_fill_progress(grid@, rule@.actions());
                    handler.lemma_fill(grid@, rule@.actions());
                    handler.lemma_fills_inside(grid@, rule@.actions());
                    let next = after_actions(grid@, rule@.actions());
                    assert(rules_view(rules@.push(rule)) =~= rules_view(rules@).push(rule@));
                    assert(rules_view(rules@).push(rule@) + handler.solving_steps(next)
                        =~= rules_view(rules@) + (seq![rule@] + handler.solving_steps(next)));
                }
                grid.apply_good_rule(&rule);
                rules.push(rule);
            },
        }
    }
}

} // verus!
