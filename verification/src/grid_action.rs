//! Actions on the cells of a grid.

use vstd::prelude::*;
use vstd::string::StringExecFns;

use crate::grid::{has_shape, same_layout, value_at, with_value, GridView};
use crate::line_column::has_column_label;
use crate::CellValue;
use crate::Grid;
use crate::LineColumn;

verus! {

/// An action on a grid: it gives a value to one cell.
#[derive(Clone, Copy, Debug, PartialEq, Eq, Hash, Structural)]
pub enum GridAction {
    /// Forgets what was known of the cell.
    SetUnknown(LineColumn),
    /// Puts a star in the cell.
    SetStar(LineColumn),
    /// Rules out a star in the cell.
    SetNoStar(LineColumn),
}

/// The grid content `cells` after `action`.
pub open spec fn after_action(cells: GridView, action: GridAction) -> GridView {
    with_value(cells, action.spec_line_column(), action.spec_value())
}

/// The grid content `cells` after each of `actions`, in order.
pub open spec fn after_actions(cells: GridView, actions: Seq<GridAction>) -> GridView
    decreases actions.len(),
{
    if actions.len() == 0 {
        cells
    } else {
        after_action(after_actions(cells, actions.drop_last()), actions.last())
    }
}

/// Each of `actions` is on a cell of a grid of `nb_lines` lines and `nb_columns` columns.
pub open spec fn actions_inside(actions: Seq<GridAction>, nb_lines: int, nb_columns: int) -> bool {
    forall|i: int|
        0 <= i < actions.len() ==> {
            &&& (#[trigger] actions[i]).spec_line_column().line < nb_lines
            &&& actions[i].spec_line_column().column < nb_columns
        }
}

/// An action changes the value of its cell and nothing else.
pub proof fn lemma_after_action(cells: GridView, action: GridAction, nb_lines: int, nb_columns: int)
    requires
        has_shape(cells, nb_lines, nb_columns),
        action.spec_line_column().line < nb_lines,
        action.spec_line_column().column < nb_columns,
    ensures
        has_shape(after_action(cells, action), nb_lines, nb_columns),
        same_layout(cells, after_action(cells, action)),
        value_at(after_action(cells, action), action.spec_line_column()) == action.spec_value(),
        forall|lc: LineColumn|
            lc != action.spec_line_column() && lc.line < nb_lines && lc.column < nb_columns
                ==> value_at(after_action(cells, action), lc) == value_at(cells, lc),
{
    let target = action.spec_line_column();
    let after = after_action(cells, action);
    assert forall|lc: LineColumn|
        lc != target && lc.line < nb_lines && lc.column < nb_columns implies value_at(after, lc)
        == value_at(cells, lc) by {
        if lc.line == target.line {
            assert(lc.column != target.column);
        }
    }
}

/// Doing the same action twice changes nothing more than doing it once.
pub proof fn lemma_action_twice(cells: GridView, action: GridAction)
    requires
        action.spec_line_column().line < cells.len(),
        action.spec_line_column().column < cells[action.spec_line_column().line as int].len(),
    ensures
        after_action(after_action(cells, action), action) == after_action(cells, action),
{
    assert(after_action(after_action(cells, action), action) =~~= after_action(cells, action));
}

/// Once an action has given a value to an unknown cell, the cell keeps that
/// value however often the action is done again.
pub proof fn lemma_action_settles(cells: GridView, action: GridAction, times: nat)
    requires
        action.spec_line_column().line < cells.len(),
        action.spec_line_column().column < cells[action.spec_line_column().line as int].len(),
        value_at(cells, action.spec_line_column()) == CellValue::Unknown,
    ensures
        after_actions(after_action(cells, action), Seq::new(times, |i: int| action))
            == after_action(cells, action),
    decreases times,
{
    let repeated = Seq::new(times, |i: int| action);
    if times > 0 {
        lemma_action_settles(cells, action, (times - 1) as nat);
        assert(repeated.drop_last() =~= Seq::new((times - 1) as nat, |i: int| action));
        lemma_action_twice(cells, action);
    }
}

/// A list of actions changes values and nothing else.
pub proof fn lemma_after_actions(
    cells: GridView,
    actions: Seq<GridAction>,
    nb_lines: int,
    nb_columns: int,
)
    requires
        has_shape(cells, nb_lines, nb_columns),
        actions_inside(actions, nb_lines, nb_columns),
    ensures
        has_shape(after_actions(cells, actions), nb_lines, nb_columns),
        same_layout(cells, after_actions(cells, actions)),
    decreases actions.len(),
{
    if actions.len() > 0 {
        let front = actions.drop_last();
        assert forall|i: int| 0 <= i < front.len() implies {
            &&& (#[trigger] front[i]).spec_line_column().line < nb_lines
            &&& front[i].spec_line_column().column < nb_columns
        } by {
            assert(front[i] == actions[i]);
        }
        lemma_after_actions(cells, front, nb_lines, nb_columns);
        lemma_after_action(after_actions(cells, front), actions.last(), nb_lines, nb_columns);
    }
}

impl GridAction {
    /// The cell that the action is on.
    pub open spec fn spec_line_column(&self) -> LineColumn {
        match self {
            Self::SetUnknown(line_column) => *line_column,
            Self::SetStar(line_column) => *line_column,
            Self::SetNoStar(line_column) => *line_column,
        }
    }

    /// The value that the action gives to its cell.
    pub open spec fn spec_value(&self) -> CellValue {
        match self {
            Self::SetUnknown(_) => CellValue::Unknown,
            Self::SetStar(_) => CellValue::Star,
            Self::SetNoStar(_) => CellValue::NoStar,
        }
    }

    /// The cell that the action is on.
    #[must_use]
    #[verifier::when_used_as_spec(spec_line_column)]
    pub fn line_column(&self) -> (result: LineColumn)
        ensures
            result == self.spec_line_column(),
    {
        match self {
            Self::SetUnknown(line_column)
            | Self::SetStar(line_column)
            | Self::SetNoStar(line_column) => *line_column,
        }
    }

    /// The value that the action gives to its cell.
    #[must_use]
    #[verifier::when_used_as_spec(spec_value)]
    pub fn value(&self) -> (result: CellValue)
        ensures
            result == self.spec_value(),
    {
        match self {
            Self::SetUnknown(_) => CellValue::Unknown,
            Self::SetStar(_) => CellValue::Star,
            Self::SetNoStar(_) => CellValue::NoStar,
        }
    }

    /// Does the action on `grid`.
    pub fn apply_action(&self, grid: &mut Grid)
        requires
            old(grid).wf(),
            old(grid).has(self.spec_line_column()),
        ensures
            final(grid)@ == after_action(old(grid)@, *self),
            final(grid).spec_nb_lines() == old(grid).spec_nb_lines(),
            final(grid).spec_nb_columns() == old(grid).spec_nb_columns(),
            final(grid).wf(),
    {
        grid.set_value(self.line_column(), self.value());
    }
}

impl Grid {
    /// Does `action` on the grid.
    pub fn apply_action(&mut self, action: &GridAction)
        requires
            old(self).wf(),
            old(self).has(action.spec_line_column()),
        ensures
            final(self)@ == after_action(old(self)@, *action),
            final(self).spec_nb_lines() == old(self).spec_nb_lines(),
            final(self).spec_nb_columns() == old(self).spec_nb_columns(),
            final(self).wf(),
    {
        self.set_value(action.line_column(), action.value());
    }

    /// Does each of `actions` on the grid, in order.
    pub fn apply_actions(&mut self, actions: &Vec<GridAction>)
        requires
            old(self).wf(),
            actions_inside(
                actions@,
                old(self).spec_nb_lines() as int,
                old(self).spec_nb_columns() as int,
            ),
        ensures
            final(self)@ == after_actions(old(self)@, actions@),
            final(self).spec_nb_lines() == old(self).spec_nb_lines(),
            final(self).spec_nb_columns() == old(self).spec_nb_columns(),
            final(self).wf(),
    {
        let mut i: usize = 0;
        while i < actions.len()
            invariant
                i <= actions.len(),
                self.wf(),
                self.spec_nb_lines() == old(self).spec_nb_lines(),
                self.spec_nb_columns() == old(self).spec_nb_columns(),
                actions_inside(
                    actions@,
                    old(self).spec_nb_lines() as int,
                    old(self).spec_nb_columns() as int,
                ),
                self@ == after_actions(old(self)@, actions@.take(i as int)),
            decreases actions.len() - i,
        {
            proof {
                assert(actions@.take(i as int + 1).drop_last() =~= actions@.take(i as int));
                assert(actions@.take(i as int + 1).last() == actions@[i as int]);
            }
            self.apply_action(&actions[i]);
            i += 1;
        }
        proof {
            assert(actions@.take(actions@.len() as int) =~= actions@);
        }
    }
}

/// Each of `actions` is on a cell whose column has a label.
pub open spec fn actions_have_labels(actions: Seq<GridAction>) -> bool {
    forall|i: int|
        0 <= i < actions.len() ==> has_column_label(
            (#[trigger] actions[i]).spec_line_column().column,
        )
}

/// The texts of `actions`, with a comma and a space between them.
pub open spec fn actions_text(actions: Seq<GridAction>) -> Seq<char>
    decreases actions.len(),
{
    if actions.len() == 0 {
        Seq::empty()
    } else if actions.len() == 1 {
        actions[0].text()
    } else {
        actions_text(actions.drop_last()) + ", "@ + actions.last().text()
    }
}

/// The text that shows a list of actions.
pub fn display_vec_actions(actions: &Vec<GridAction>) -> (result: String)
    requires
        actions_have_labels(actions@),
    ensures
        result@ == actions_text(actions@),
{
    let mut str_actions = String::new();
    let mut i: usize = 0;
    while i < actions.len()
        invariant
            i <= actions.len(),
            actions_have_labels(actions@),
            str_actions@ == actions_text(actions@.take(i as int)),
        decreases actions.len() - i,
    {
        proof {
            assert(actions@.take(i as int + 1).drop_last() =~= actions@.take(i as int));
            assert(actions@.take(i as int + 1).last() == actions@[i as int]);
            assert(actions@.take(i as int + 1)[0] == actions@[0]);
        }
        if i > 0 {
            str_actions.append(", ");
        }
        str_actions.append(actions[i].to_text().as_str());
        proof {
            if i == 0 {
                assert(str_actions@ =~= actions@[0].text());
            }
        }
        i += 1;
    }
    proof {
        assert(actions@.take(actions@.len() as int) =~= actions@);
    }
    str_actions
}

impl GridAction {
    /// The text that shows the action: its cell, then what it does to it.
    pub open spec fn text(self) -> Seq<char> {
        match self {
            Self::SetUnknown(line_column) => line_column.text() + "-> Inconnu"@,
            Self::SetStar(line_column) => line_column.text() + "->Etoile"@,
            Self::SetNoStar(line_column) => line_column.text() + "->Pas d'étoile"@,
        }
    }

    /// The text that shows the action.
    pub fn to_text(&self) -> (result: String)
        requires
            has_column_label(self.spec_line_column().column),
        ensures
            result@ == self.text(),
    {
        let mut text = self.line_column().to_text();
        match self {
            Self::SetUnknown(_) => text.append("-> Inconnu"),
            Self::SetStar(_) => text.append("->Etoile"),
            Self::SetNoStar(_) => text.append("->Pas d'étoile"),
        }
        text
    }
}

} // verus!
