use khigy::shell::PositionerState;
use khigy::state::KhigyState;

#[test]
fn toplevel_lifecycle_enters_and_leaves_the_enumeration() {
    let mut state = KhigyState::new(0);
    let s = state.surfaces.add_surface(None);

    // created: Unconfigured, not yet eligible for rendering
    state.new_toplevel(s);
    assert_eq!(state.xdg_shell_state.mapped_toplevels(), Vec::<usize>::new());

    // first commit: Configured, appears in the next frame's enumeration
    state.commit(s);
    assert_eq!(state.xdg_shell_state.mapped_toplevels(), vec![s]);

    // destroyed: Closed, absent from the following frame's enumeration
    state.toplevel_destroyed(s);
    assert_eq!(state.xdg_shell_state.mapped_toplevels(), Vec::<usize>::new());
}

#[test]
fn a_popup_is_not_enumerated_as_a_toplevel() {
    let mut state = KhigyState::new(0);
    let s = state.surfaces.add_surface(None);
    let positioner = PositionerState { anchor_x: 10, anchor_y: 20, width: 30, height: 40 };
    state.new_popup(s, positioner);
    state.commit(s);
    assert_eq!(state.xdg_shell_state.mapped_toplevels(), Vec::<usize>::new());
}

#[test]
fn stacking_order_is_creation_order_and_stable() {
    let mut state = KhigyState::new(0);
    let a = state.surfaces.add_surface(None);
    let b = state.surfaces.add_surface(None);
    state.new_toplevel(a);
    state.new_toplevel(b);
    state.commit(b);
    state.commit(a);
    // creation order, not commit order; and repeating the enumeration
    // changes nothing
    assert_eq!(state.xdg_shell_state.mapped_toplevels(), vec![a, b]);
    assert_eq!(state.xdg_shell_state.mapped_toplevels(), vec![a, b]);
}

#[test]
fn closed_is_terminal_even_for_a_later_commit() {
    let mut state = KhigyState::new(0);
    let s = state.surfaces.add_surface(None);
    state.new_toplevel(s);
    state.commit(s);
    state.toplevel_destroyed(s);
    state.commit(s);
    assert_eq!(state.xdg_shell_state.mapped_toplevels(), Vec::<usize>::new());
}

#[test]
fn interactive_operation_stubs_accept_and_change_nothing() {
    let mut state = KhigyState::new(0);
    let s = state.surfaces.add_surface(None);
    state.new_toplevel(s);
    state.commit(s);

    state.move_request(s, 0, 101);
    state.resize_request(s, 0, 102, 0b1010);
    state.grab(s, 0, 103);
    let positioner = PositionerState { anchor_x: 0, anchor_y: 0, width: 1, height: 1 };
    state.reposition_request(s, positioner, 7);
    state.cursor_image(khigy::state::CursorImageStatus::Hidden);

    assert_eq!(state.xdg_shell_state.mapped_toplevels(), vec![s]);
    assert!(!state.stop_requested);
}
