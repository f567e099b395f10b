use vstd::prelude::*;

verus! {

/// What the pointer hovers and what the player has selected.
#[derive(Debug, Clone)]
pub struct InteractionState {
    pub hovered_cell: Option<(i32, i32)>,
    pub selected_cell: Option<(i32, i32)>,
    pub selected_pawn_id: Option<usize>,
    pub last_issued_destination: Option<(i32, i32)>,
}

/// Equality of two optional cells.
pub fn same_cell(a: Option<(i32, i32)>, b: Option<(i32, i32)>) -> (r: bool)
    ensures
        r == (a == b),
{
    match (a, b) {
        (None, None) => true,
        (Some(p), Some(q)) => p.0 == q.0 && p.1 == q.1,
        _ => false,
    }
}

impl Default for InteractionState {
    fn default() -> (s: Self)
        ensures
            s.hovered_cell is None,
            s.selected_cell is None,
            s.selected_pawn_id is None,
            s.last_issued_destination is None,
    {
        InteractionState {
            hovered_cell: None,
            selected_cell: None,
            selected_pawn_id: None,
            last_issued_destination: None,
        }
    }
}

} // verus!
