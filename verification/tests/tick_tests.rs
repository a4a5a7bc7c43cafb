use khigy::backend::{create_backend, Backend};
use khigy::output::Mode;
use khigy::seat::{FocusTarget, InputEvent};
use khigy::state::KhigyState;
use khigy::tick::{
    finish_tick, frame_time_millis, process_winit, BackendEvent, PollStatus, TickPlan,
    TimeoutAction,
};
use khigy::{LoopData, TICK_PERIOD_MS};

fn loop_data(start_ms: u64) -> LoopData {
    let mut data = LoopData { state: KhigyState::new(start_ms), backend: Backend::Invalid };
    create_backend(&mut data, 800, 600);
    data
}

fn output_mode(data: &LoopData) -> Mode {
    match &data.backend {
        Backend::Winit(b) => b.output.mode,
        Backend::Invalid => panic!("no backend"),
    }
}

#[test]
fn the_last_resize_of_a_tick_is_the_mode_the_render_sees() {
    let mut data = loop_data(0);
    let events = vec![
        BackendEvent::Resized { width: 100, height: 100 },
        BackendEvent::Unknown,
        BackendEvent::Input { event: InputEvent::Keyboard { key: 1 } },
        BackendEvent::Resized { width: 200, height: 150 },
    ];
    let plan = process_winit(&mut data, &events, PollStatus::Dispatched);
    assert_eq!(output_mode(&data), Mode { width: 200, height: 150, refresh: 60_000 });
    match plan {
        TickPlan::Render { damage, .. } => {
            assert_eq!(damage.width, 200);
            assert_eq!(damage.height, 150);
        }
        TickPlan::Skip { .. } => panic!("a normal poll renders"),
    }
}

#[test]
fn window_closed_stops_the_loop_in_the_same_tick() {
    let mut data = loop_data(0);
    let plan = process_winit(&mut data, &Vec::new(), PollStatus::WindowClosed);
    assert!(data.state.stop_requested);
    match plan {
        TickPlan::Skip { action } => {
            assert_eq!(action, TimeoutAction::ToDuration { millis: TICK_PERIOD_MS })
        }
        TickPlan::Render { .. } => panic!("no render after window loss"),
    }
}

#[test]
fn a_poll_failure_cancels_the_timer() {
    let mut data = loop_data(0);
    let plan = process_winit(&mut data, &Vec::new(), PollStatus::Failed);
    assert!(data.state.stop_requested);
    match plan {
        TickPlan::Skip { action } => assert_eq!(action, TimeoutAction::Drop),
        TickPlan::Render { .. } => panic!("no render after a poll failure"),
    }
}

#[test]
fn a_submit_failure_self_cancels_and_delivers_nothing() {
    let mut data = loop_data(0);
    let s = data.state.surfaces.add_surface(None);
    data.state.new_toplevel(s);
    data.state.commit(s);
    data.state.surfaces.queue_frame_callback(s, 1);

    let plan = process_winit(&mut data, &Vec::new(), PollStatus::Dispatched);
    let roots = match plan {
        TickPlan::Render { roots, .. } => roots,
        TickPlan::Skip { .. } => panic!("a normal poll renders"),
    };
    let end = finish_tick(&mut data, &roots, false, 16);
    assert_eq!(end.action, TimeoutAction::Drop);
    assert!(data.state.stop_requested);
    assert_eq!(end.fired.len(), 0);
    // the undelivered listener stays queued: it was never tied to a
    // submitted frame
    assert_eq!(data.state.surfaces.surfaces[s].frame_callbacks, vec![1]);
}

#[test]
fn a_full_tick_renders_and_drains_with_one_timestamp() {
    let mut data = loop_data(1000);
    let s = data.state.surfaces.add_surface(None);
    data.state.new_toplevel(s);
    data.state.commit(s);
    data.state.surfaces.queue_frame_callback(s, 5);
    data.state.surfaces.queue_frame_callback(s, 6);
    let events =
        vec![BackendEvent::Input { event: InputEvent::PointerButton {
            hit: Some(FocusTarget { surface: s, client: 3 }),
        } }];

    let plan = process_winit(&mut data, &events, PollStatus::Dispatched);
    let (roots, elements) = match plan {
        TickPlan::Render { roots, elements, .. } => (roots, elements),
        TickPlan::Skip { .. } => panic!("a normal poll renders"),
    };
    // input was dispatched before element collection
    assert_eq!(data.state.data_device_state.focus_client, Some(3));
    assert_eq!(roots, vec![s]);
    assert_eq!(elements, vec![s]);

    let end = finish_tick(&mut data, &roots, true, 1016);
    assert_eq!(end.action, TimeoutAction::ToDuration { millis: 16 });
    assert!(!data.state.stop_requested);
    let callbacks: Vec<u32> = end.fired.iter().map(|f| f.callback).collect();
    assert_eq!(callbacks, vec![5, 6]);
    for f in &end.fired {
        assert_eq!(f.time, 16);
    }
    assert!(data.state.surfaces.surfaces[s].frame_callbacks.is_empty());
}

#[test]
fn a_committed_subsurface_is_drawn_and_drained_with_the_frame() {
    let mut data = loop_data(0);
    let top = data.state.surfaces.add_surface(None);
    let sub = data.state.surfaces.add_surface(Some(top));
    data.state.new_toplevel(top);
    data.state.commit(top);
    data.state.surfaces.set_committed(sub);
    data.state.surfaces.queue_frame_callback(sub, 21);

    let plan = process_winit(&mut data, &Vec::new(), PollStatus::Dispatched);
    let (roots, elements) = match plan {
        TickPlan::Render { roots, elements, .. } => (roots, elements),
        TickPlan::Skip { .. } => panic!("a normal poll renders"),
    };
    assert_eq!(roots, vec![top]);
    assert_eq!(elements, vec![top, sub]);

    let end = finish_tick(&mut data, &roots, true, 48);
    let callbacks: Vec<u32> = end.fired.iter().map(|f| f.callback).collect();
    assert_eq!(callbacks, vec![21]);
    assert_eq!(end.fired[0].time, 48);
    assert!(data.state.surfaces.surfaces[sub].frame_callbacks.is_empty());
}

#[test]
fn the_frame_timestamp_wraps_at_thirty_two_bits() {
    assert_eq!(frame_time_millis(0, 0x1_0000_0000 + 5), 5);
    assert_eq!(frame_time_millis(1000, 1016), 16);
    assert_eq!(frame_time_millis(0, u32::MAX as u64), u32::MAX);
}
