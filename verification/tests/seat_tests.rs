use khigy::seat::{FocusTarget, InputEvent, Selection};
use khigy::state::KhigyState;

fn state_with_two_clients() -> (KhigyState, FocusTarget, FocusTarget) {
    let mut state = KhigyState::new(0);
    let a = state.surfaces.add_surface(None);
    let b = state.surfaces.add_surface(None);
    state.new_toplevel(a);
    state.new_toplevel(b);
    state.commit(a);
    state.commit(b);
    let target_a = FocusTarget { surface: a, client: 10 };
    let target_b = FocusTarget { surface: b, client: 20 };
    (state, target_a, target_b)
}

#[test]
fn selection_follows_the_focused_client() {
    let (mut state, target_a, _) = state_with_two_clients();
    state.process_input_event(InputEvent::PointerButton { hit: Some(target_a) });
    state.data_device_state.set_selection(Selection { source: 1, owner: 10 });

    let offer = state.data_device_state().selection_offer_for(10);
    assert_eq!(offer, Some(Selection { source: 1, owner: 10 }));
}

#[test]
fn stale_focus_receives_no_offer() {
    let (mut state, target_a, target_b) = state_with_two_clients();
    // focus on surface A (client 10), then moves to surface B (client 20)
    state.process_input_event(InputEvent::PointerButton { hit: Some(target_a) });
    state.process_input_event(InputEvent::PointerButton { hit: Some(target_b) });
    state.data_device_state.set_selection(Selection { source: 2, owner: 20 });

    // a request from client 10, acting on the focus it no longer holds,
    // is offered nothing tied to client 20's data
    assert_eq!(state.data_device_state().selection_offer_for(10), None);
    assert_eq!(
        state.data_device_state().selection_offer_for(20),
        Some(Selection { source: 2, owner: 20 })
    );
}

#[test]
fn pointer_motion_retains_keyboard_focus_and_visibility() {
    let (mut state, target_a, target_b) = state_with_two_clients();
    state.process_input_event(InputEvent::PointerButton { hit: Some(target_a) });
    state.process_input_event(InputEvent::PointerMotion { hit: Some(target_b) });

    assert_eq!(state.seat_state.keyboard_focus, Some(target_a));
    assert_eq!(state.seat_state.pointer_focus, Some(target_b));
    assert_eq!(state.data_device_state.focus_client, Some(10));
}

#[test]
fn key_events_retain_the_prior_focus() {
    let (mut state, target_a, _) = state_with_two_clients();
    state.process_input_event(InputEvent::PointerButton { hit: Some(target_a) });
    state.process_input_event(InputEvent::Keyboard { key: 30 });
    assert_eq!(state.seat_state.keyboard_focus, Some(target_a));
}

#[test]
fn nothing_is_offered_while_nothing_is_focused() {
    let mut state = KhigyState::new(0);
    state.data_device_state.set_selection(Selection { source: 3, owner: 10 });
    assert_eq!(state.data_device_state().selection_offer_for(10), None);
}

#[test]
fn destroying_the_focused_surface_clears_the_slots() {
    let (mut state, target_a, _) = state_with_two_clients();
    state.process_input_event(InputEvent::PointerButton { hit: Some(target_a) });
    state.toplevel_destroyed(target_a.surface);

    assert_eq!(state.seat_state.keyboard_focus, None);
    assert_eq!(state.seat_state.pointer_focus, None);
    assert_eq!(state.data_device_state.focus_client, None);
    assert_eq!(state.data_device_state().selection_offer_for(10), None);
}
