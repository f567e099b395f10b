use stitchlands::interaction::{on_cursor_moved, on_escape, on_left_click, on_right_click, InteractionAction, InteractionState};

#[test]
fn left_click_selects_hovered_pawn() {
    let mut state = InteractionState { hovered_cell: Some((3, 4)), ..Default::default() };
    let action = on_left_click(&mut state, Some(7));
    assert_eq!(action, InteractionAction::SelectPawn { pawn_id: 7, cell: (3, 4) });
    assert_eq!(state.selected_pawn_id, Some(7));
    assert_eq!(state.selected_cell, Some((3, 4)));
}

#[test]
fn left_click_issues_move_for_selected_pawn() {
    let mut state = InteractionState { hovered_cell: Some((5, 2)), selected_pawn_id: Some(11), ..Default::default() };
    let action = on_left_click(&mut state, None);
    assert_eq!(action, InteractionAction::IssueMove { pawn_id: 11, dest: (5, 2) });
    assert_eq!(state.last_issued_destination, Some((5, 2)));
}

#[test]
fn right_click_clears_selection() {
    let mut state = InteractionState { selected_pawn_id: Some(2), selected_cell: Some((1, 1)), ..Default::default() };
    let action = on_right_click(&mut state);
    assert_eq!(action, InteractionAction::ClearSelection);
    assert_eq!(state.selected_pawn_id, None);
    assert_eq!(state.selected_cell, None);
}

#[test]
fn escape_clears_selection() {
    let mut state = InteractionState { selected_pawn_id: Some(2), ..Default::default() };
    let action = on_escape(&mut state);
    assert_eq!(action, InteractionAction::ClearSelection);
    assert_eq!(state.selected_pawn_id, None);
}

#[test]
fn cursor_moved_updates_hover_state() {
    let mut state = InteractionState::default();
    let changed = on_cursor_moved(&mut state, Some((0, 0)));
    assert_eq!(changed, InteractionAction::HoverChanged(Some((0, 0))));
    let unchanged = on_cursor_moved(&mut state, Some((0, 0)));
    assert_eq!(unchanged, InteractionAction::NoOp);
}

#[test]
fn left_click_on_empty_hover_does_nothing() {
    let mut state = InteractionState::default();
    assert_eq!(on_left_click(&mut state, None), InteractionAction::NoOp);
    assert_eq!(state.selected_cell, None);
}

#[test]
fn left_click_without_pawn_selects_cell() {
    let mut state = InteractionState { hovered_cell: Some((2, 2)), ..Default::default() };
    assert_eq!(on_left_click(&mut state, None), InteractionAction::SelectCell((2, 2)));
    assert_eq!(state.selected_cell, Some((2, 2)));
}

#[test]
fn clearing_twice_gives_the_same_state() {
    let mut state = InteractionState { selected_pawn_id: Some(4), selected_cell: Some((1, 2)), hovered_cell: Some((0, 0)), ..Default::default() };
    on_escape(&mut state);
    let once = (state.hovered_cell, state.selected_cell, state.selected_pawn_id);
    on_escape(&mut state);
    assert_eq!(once, (state.hovered_cell, state.selected_cell, state.selected_pawn_id));
}
