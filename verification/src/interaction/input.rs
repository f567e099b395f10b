use vstd::prelude::*;

use super::state::{same_cell, InteractionState};

verus! {

/// What an input event asks the game to do.
#[derive(Debug, Clone, Copy)]
pub enum InteractionAction {
    NoOp,
    HoverChanged(Option<(i32, i32)>),
    SelectCell((i32, i32)),
    SelectPawn { pawn_id: usize, cell: (i32, i32) },
    IssueMove { pawn_id: usize, dest: (i32, i32) },
    ClearSelection,
}

impl PartialEq for InteractionAction {
    fn eq(&self, other: &Self) -> (r: bool) {
        match (self, other) {
            (InteractionAction::NoOp, InteractionAction::NoOp) => true,
            (InteractionAction::HoverChanged(a), InteractionAction::HoverChanged(b)) => same_cell(
                *a,
                *b,
            ),
            (InteractionAction::SelectCell(a), InteractionAction::SelectCell(b)) => a.0 == b.0
                && a.1 == b.1,
            (
                InteractionAction::SelectPawn { pawn_id: p, cell: a },
                InteractionAction::SelectPawn { pawn_id: q, cell: b },
            ) => *p == *q && a.0 == b.0 && a.1 == b.1,
            (
                InteractionAction::IssueMove { pawn_id: p, dest: a },
                InteractionAction::IssueMove { pawn_id: q, dest: b },
            ) => *p == *q && a.0 == b.0 && a.1 == b.1,
            (InteractionAction::ClearSelection, InteractionAction::ClearSelection) => true,
            _ => false,
        }
    }
}

impl vstd::std_specs::cmp::PartialEqSpecImpl for InteractionAction {
    open spec fn obeys_eq_spec() -> bool {
        true
    }

    open spec fn eq_spec(&self, other: &Self) -> bool {
        *self == *other
    }
}

impl Eq for InteractionAction {

}

/// State and action after the pointer moves onto `hovered`.
pub open spec fn cursor_moved_step(s: InteractionState, hovered: Option<(i32, i32)>) -> (
    InteractionState,
    InteractionAction,
) {
    if s.hovered_cell == hovered {
        (s, InteractionAction::NoOp)
    } else {
        (InteractionState { hovered_cell: hovered, ..s }, InteractionAction::HoverChanged(hovered))
    }
}

/// State and action after a left click: nothing without a hovered cell;
/// selecting the pawn under the pointer; ordering the selected pawn to the
/// hovered cell; otherwise selecting the hovered cell.
pub open spec fn left_click_step(s: InteractionState, pawn_at_hover: Option<usize>) -> (
    InteractionState,
    InteractionAction,
) {
    match s.hovered_cell {
        None => (s, InteractionAction::NoOp),
        Some(cell) => match pawn_at_hover {
            Some(pawn_id) => (
                InteractionState { selected_pawn_id: Some(pawn_id), selected_cell: Some(cell), ..s },
                InteractionAction::SelectPawn { pawn_id, cell },
            ),
            None => match s.selected_pawn_id {
                Some(selected) => (
                    InteractionState { last_issued_destination: Some(cell), ..s },
                    InteractionAction::IssueMove { pawn_id: selected, dest: cell },
                ),
                None => (
                    InteractionState { selected_cell: Some(cell), ..s },
                    InteractionAction::SelectCell(cell),
                ),
            },
        },
    }
}

/// State and action after clearing the selection: nothing when nothing is
/// selected, otherwise both selections are dropped.
pub open spec fn clear_step(s: InteractionState) -> (InteractionState, InteractionAction) {
    if s.selected_pawn_id is None && s.selected_cell is None {
        (s, InteractionAction::NoOp)
    } else {
        (
            InteractionState { selected_pawn_id: None, selected_cell: None, ..s },
            InteractionAction::ClearSelection,
        )
    }
}

pub fn on_cursor_moved(state: &mut InteractionState, hovered_cell: Option<(i32, i32)>) -> (r:
    InteractionAction)
    ensures
        (*final(state), r) == cursor_moved_step(*old(state), hovered_cell),
{
    if same_cell(state.hovered_cell, hovered_cell) {
        return InteractionAction::NoOp;
    }
    state.hovered_cell = hovered_cell;
    InteractionAction::HoverChanged(hovered_cell)
}

pub fn on_left_click(state: &mut InteractionState, pawn_at_hover: Option<usize>) -> (r:
    InteractionAction)
    ensures
        (*final(state), r) == left_click_step(*old(state), pawn_at_hover),
{
    let cell = match state.hovered_cell {
        Some(cell) => cell,
        None => {
            return InteractionAction::NoOp;
        },
    };
    if let Some(pawn_id) = pawn_at_hover {
        state.selected_pawn_id = Some(pawn_id);
        state.selected_cell = Some(cell);
        return InteractionAction::SelectPawn { pawn_id, cell };
    }
    if let Some(selected_pawn_id) = state.selected_pawn_id {
        state.last_issued_destination = Some(cell);
        return InteractionAction::IssueMove { pawn_id: selected_pawn_id, dest: cell };
    }
    state.selected_cell = Some(cell);
    InteractionAction::SelectCell(cell)
}

pub fn on_right_click(state: &mut InteractionState) -> (r: InteractionAction)
    ensures
        (*final(state), r) == clear_step(*old(state)),
{
    clear_selection(state)
}

pub fn on_escape(state: &mut InteractionState) -> (r: InteractionAction)
    ensures
        (*final(state), r) == clear_step(*old(state)),
{
    clear_selection(state)
}

fn clear_selection(state: &mut InteractionState) -> (r: InteractionAction)
    ensures
        (*final(state), r) == clear_step(*old(state)),
{
    if state.selected_pawn_id.is_none() && state.selected_cell.is_none() {
        return InteractionAction::NoOp;
    }
    state.selected_pawn_id = None;
    state.selected_cell = None;
    InteractionAction::ClearSelection
}

/// Clearing twice is the same as clearing once: the second clear does
/// nothing, and afterwards nothing is selected.
pub proof fn lemma_clear_idempotent(s: InteractionState)
    ensures
        clear_step(clear_step(s).0) == (clear_step(s).0, InteractionAction::NoOp),
        clear_step(s).0.selected_pawn_id is None,
        clear_step(s).0.selected_cell is None,
        clear_step(s).0.hovered_cell == s.hovered_cell,
        clear_step(s).0.last_issued_destination == s.last_issued_destination,
{
}

/// Moving the pointer to the same cell twice reports the change once.
pub proof fn lemma_hover_repeat_is_noop(s: InteractionState, h: Option<(i32, i32)>)
    ensures
        cursor_moved_step(cursor_moved_step(s, h).0, h) == (
            cursor_moved_step(s, h).0,
            InteractionAction::NoOp,
        ),
        cursor_moved_step(s, h).0.hovered_cell == h,
{
}

/// A left click never changes what is hovered, and a move order keeps the
/// selection it was issued for.
pub proof fn lemma_left_click_keeps_hover(s: InteractionState, pawn_at_hover: Option<usize>)
    ensures
        left_click_step(s, pawn_at_hover).0.hovered_cell == s.hovered_cell,
        left_click_step(s, pawn_at_hover).1 matches InteractionAction::IssueMove { pawn_id, dest }
            ==> s.selected_pawn_id == Some(pawn_id) && s.hovered_cell == Some(dest)
            && left_click_step(s, pawn_at_hover).0.selected_pawn_id == Some(pawn_id),
{
}

/// What a left click does, case by case: with no hovered cell nothing
/// changes; with a pawn under the pointer that pawn is selected, with the
/// hovered cell, whatever was selected before; with no pawn there, an
/// already selected pawn is sent to the hovered cell; with neither, the
/// hovered cell is selected. Hover never changes.
pub proof fn lemma_left_click_cases(s: InteractionState, pawn_at_hover: Option<usize>)
    ensures
        s.hovered_cell is None ==> left_click_step(s, pawn_at_hover) == (s, InteractionAction::NoOp),
        s.hovered_cell is Some && pawn_at_hover is Some ==> {
            let (t, a) = left_click_step(s, pawn_at_hover);
            &&& a == (InteractionAction::SelectPawn { pawn_id: pawn_at_hover->0, cell: s.hovered_cell->0 })
            &&& t.selected_pawn_id == pawn_at_hover
            &&& t.selected_cell == s.hovered_cell
            &&& t.hovered_cell == s.hovered_cell
            &&& t.last_issued_destination == s.last_issued_destination
        },
        s.hovered_cell is Some && pawn_at_hover is None && s.selected_pawn_id is Some ==> {
            let (t, a) = left_click_step(s, pawn_at_hover);
            &&& a == (InteractionAction::IssueMove { pawn_id: s.selected_pawn_id->0, dest: s.hovered_cell->0 })
            &&& t.last_issued_destination == s.hovered_cell
            &&& t.selected_pawn_id == s.selected_pawn_id
            &&& t.selected_cell == s.selected_cell
            &&& t.hovered_cell == s.hovered_cell
        },
        s.hovered_cell is Some && pawn_at_hover is None && s.selected_pawn_id is None ==> {
            let (t, a) = left_click_step(s, pawn_at_hover);
            &&& a == InteractionAction::SelectCell(s.hovered_cell->0)
            &&& t.selected_cell == s.hovered_cell
            &&& t.selected_pawn_id is None
            &&& t.hovered_cell == s.hovered_cell
            &&& t.last_issued_destination == s.last_issued_destination
        },
{
}

} // verus!
