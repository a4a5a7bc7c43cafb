//! The event-loop integrator: one fixed-cadence tick. The platform side
//! polls its events and submits the finished frame; this module makes every
//! decision in between. A tick has two halves: before submission,
//! `process_winit` dispatches the polled events and plans the frame; after
//! the (outside) submission, `finish_tick` delivers the frame-done
//! callbacks and decides whether the timer reschedules.

use crate::backend::{Backend, WinitBackend};
use crate::output::{Mode, Output, Rect};
use crate::seat::InputEvent;
use crate::shell::mapped_of;
use crate::state::{input_applied, input_ok, KhigyState};
use crate::surface::{drained_ms, fired_callbacks, same_structure, FrameDone};
use crate::LoopData;
use crate::TICK_PERIOD_MS;
use vstd::prelude::*;

verus! {

/// Outcome of one platform event poll.
#[derive(Clone, Copy, PartialEq, Eq, Structural, Debug)]
pub enum PollStatus {
    /// Events were dispatched normally; the tick renders.
    Dispatched,
    /// The preview window was closed: terminal for the session.
    WindowClosed,
    /// Any other poll error: non-recoverable for this backend.
    Failed,
}

/// One platform event, translated to plain values.
#[derive(Clone, Copy, PartialEq, Eq, Structural, Debug)]
pub enum BackendEvent {
    /// The platform window was resized: the output mode changes at once,
    /// before any render reads the size.
    Resized { width: u32, height: u32 },
    /// An input event for the seat.
    Input { event: InputEvent },
    /// Anything else the platform reports is ignored.
    Unknown,
}

/// What the tick timer does after the current tick.
#[derive(Clone, Copy, PartialEq, Eq, Structural, Debug)]
pub enum TimeoutAction {
    /// Do not reschedule: the timer cancels itself.
    Drop,
    /// Fire again after this many milliseconds.
    ToDuration { millis: u64 },
}

/// The plan for the rest of the tick, decided once the events are in.
pub enum TickPlan {
    /// Nothing is rendered this tick; the timer takes `action`.
    Skip { action: TimeoutAction },
    /// Render: draw `elements` clipped to `damage` and submit, then hand
    /// `roots` (the mapped toplevels, in stacking order) to `finish_tick`.
    Render { roots: Vec<usize>, elements: Vec<usize>, damage: Rect },
}

/// What the tick ends with: the frame-done notifications to send, and the
/// timer's next action.
pub struct TickEnd {
    pub fired: Vec<FrameDone>,
    pub action: TimeoutAction,
}

/// Whether another tick can run: the timer must have rescheduled and the
/// stop signal must not have been raised. `process_winit` requires both, so
/// once either fails, no further tick executes.
pub open spec fn tick_may_run(data: &LoopData, action: TimeoutAction) -> bool {
    action != TimeoutAction::Drop && !data.state.stop_requested
}

/// The output mode after a sequence of events: that of the last resize, or
/// the starting mode if none occurred.
pub open spec fn mode_after(events: Seq<BackendEvent>, m0: Mode) -> Mode
    decreases events.len(),
{
    if events.len() == 0 {
        m0
    } else {
        match events.last() {
            BackendEvent::Resized { width, height } => Output::initial_mode(width, height),
            _ => mode_after(events.drop_last(), m0),
        }
    }
}

/// The compositor state after the events are dispatched in order: each
/// input event is routed to the seat; resizes touch only the output, and
/// unknown events nothing.
pub open spec fn state_after(events: Seq<BackendEvent>, s: KhigyState) -> KhigyState
    decreases events.len(),
{
    if events.len() == 0 {
        s
    } else {
        match events.last() {
            BackendEvent::Input { event } => input_applied(
                state_after(events.drop_last(), s),
                event,
            ),
            _ => state_after(events.drop_last(), s),
        }
    }
}

/// Event dispatch never touches the arena, the shell, the clock, the stop
/// signal or the selection: only focus state moves.
pub proof fn lemma_state_after_preserves(events: Seq<BackendEvent>, s: KhigyState)
    ensures
        state_after(events, s).surfaces == s.surfaces,
        state_after(events, s).xdg_shell_state == s.xdg_shell_state,
        state_after(events, s).stop_requested == s.stop_requested,
        state_after(events, s).start_time_ms == s.start_time_ms,
        state_after(events, s).data_device_state.selection == s.data_device_state.selection,
    decreases events.len(),
{
    if events.len() > 0 {
        lemma_state_after_preserves(events.drop_last(), s);
    }
}

/// The resolution of the resize ordering: whatever sequence of resizes a
/// tick polls, the mode the subsequent render observes is exactly that of
/// the last resize in the sequence — no intermediate mode is ever rendered.
pub proof fn lemma_last_resize_wins(events: Seq<BackendEvent>, m0: Mode, k: int, w: u32, h: u32)
    requires
        0 <= k < events.len(),
        events[k] == (BackendEvent::Resized { width: w, height: h }),
        forall|j: int| k < j < events.len() ==> !((#[trigger] events[j]) is Resized),
    ensures
        mode_after(events, m0) == Output::initial_mode(w, h),
    decreases events.len(),
{
    if k == events.len() - 1 {
    } else {
        assert(events.drop_last()[k] == events[k]);
        lemma_last_resize_wins(events.drop_last(), m0, k, w, h);
    }
}

/// Every event of the tick is acceptable to dispatch: input hits name live
/// surfaces.
pub open spec fn events_ok(s: &KhigyState, events: Seq<BackendEvent>) -> bool {
    forall|k: int|
        0 <= k < events.len() ==> match #[trigger] events[k] {
            BackendEvent::Input { event } => input_ok(s, event),
            _ => true,
        }
}

/// Dispatch the polled events in order, before anything renders: a resize
/// updates the output mode immediately; an input event is routed to the
/// seat synchronously, so focus state reflects the latest input when the
/// render elements are collected.
fn apply_events(state: &mut KhigyState, backend: &mut WinitBackend, events: &Vec<BackendEvent>)
    requires
        old(state).wf(),
        events_ok(old(state), events@),
    ensures
        final(state).wf(),
        *final(state) == state_after(events@, *old(state)),
        final(backend).output.mode == mode_after(events@, old(backend).output.mode),
        final(backend).output.preferred == old(backend).output.preferred,
        final(backend).output.transform == old(backend).output.transform,
        final(backend).output.scale == old(backend).output.scale,
{
    let len = events.len();
    let mut i: usize = 0;
    while i < len
        invariant
            i <= len,
            len == events@.len(),
            events_ok(old(state), events@),
            state.wf(),
            *state == state_after(events@.subrange(0, i as int), *old(state)),
            backend.output.mode == mode_after(
                events@.subrange(0, i as int),
                old(backend).output.mode,
            ),
            backend.output.preferred == old(backend).output.preferred,
            backend.output.transform == old(backend).output.transform,
            backend.output.scale == old(backend).output.scale,
        decreases len - i,
    {
        proof {
            assert(events@.subrange(0, i + 1).drop_last() =~= events@.subrange(0, i as int));
            assert(events@.subrange(0, i + 1).last() == events@[i as int]);
            lemma_state_after_preserves(events@.subrange(0, i as int), *old(state));
        }
        let ev = events[i];
        match ev {
            BackendEvent::Resized { width, height } => {
                backend.output.apply_resize(width, height);
            },
            BackendEvent::Input { event } => {
                state.process_input_event(event);
            },
            BackendEvent::Unknown => {},
        }
        i = i + 1;
    }
    proof {
        assert(events@.subrange(0, len as int) =~= events@);
    }
}

/// The first half of a tick, at the tick-poll boundary: the backend tag is
/// matched exactly once here, the polled events are dispatched, and the
/// frame is planned. A window-closed poll is terminal: the stop signal is
/// raised and nothing is rendered this tick. Any other poll failure is
/// non-recoverable: the stop signal is raised and the timer will not
/// reschedule. Only a normal poll renders: the mapped toplevels, in stable
/// stacking order, are flattened into the element list, and the damage is
/// the full output rectangle of the freshly resized mode.
pub fn process_winit(data: &mut LoopData, events: &Vec<BackendEvent>, poll: PollStatus) -> (plan:
    TickPlan)
    requires
        old(data).state.wf(),
        !old(data).state.stop_requested,
        old(data).backend is Winit,
        events_ok(&old(data).state, events@),
    ensures
        final(data).state.wf(),
        final(data).state.seat_state == state_after(events@, old(data).state).seat_state,
        final(data).state.data_device_state == state_after(events@, old(data).state).data_device_state,
        final(data).state.surfaces == old(data).state.surfaces,
        final(data).state.xdg_shell_state == old(data).state.xdg_shell_state,
        final(data).state.start_time_ms == old(data).state.start_time_ms,
        final(data).state.stop_requested == (poll != PollStatus::Dispatched),
        (final(data).backend matches Backend::Winit(b) && old(data).backend matches Backend::Winit(
            b0,
        ) && b.output.mode == mode_after(events@, b0.output.mode) && b.output.preferred
            == b0.output.preferred && b.output.transform == b0.output.transform && b.output.scale
            == b0.output.scale),
        poll == PollStatus::WindowClosed ==> plan == (TickPlan::Skip {
            action: TimeoutAction::ToDuration { millis: TICK_PERIOD_MS },
        }),
        poll == PollStatus::Failed ==> plan == (TickPlan::Skip { action: TimeoutAction::Drop }),
        poll == PollStatus::Dispatched <==> (plan is Render),
        (plan matches TickPlan::Render { roots, elements, damage } ==> {
            &&& roots@ == mapped_of(final(data).state.xdg_shell_state.surfaces@)
            &&& (damage == Rect::full_of(
                mode_after(
                    events@,
                    match old(data).backend {
                        Backend::Winit(b0) => b0.output.mode,
                        Backend::Invalid => arbitrary(),
                    },
                ),
            ))
            &&& forall|j: int| 0 <= j < roots@.len() ==> elements@.contains(#[trigger] roots@[j])
            &&& elements@.no_duplicates()
            &&& forall|k: int|
                0 <= k < elements@.len() ==> (#[trigger] elements@[k])
                    < final(data).state.surfaces.surfaces@.len()
            &&& forall|k: int, c: int|
                0 <= k < elements@.len()
                    && final(data).state.surfaces.surfaces@[elements@[k] as int].committed && 0
                    <= c < final(data).state.surfaces.surfaces@[elements@[k] as int].children@.len()
                    ==> elements@.contains(
                    #[trigger] final(data).state.surfaces.surfaces@[elements@[k] as int].children@[c],
                )
        }),
    {
        let plan = match &mut data.backend {
            Backend::Winit(b) => {
                apply_events(&mut data.state, b, events);
                let mode = b.output.mode;
                match poll {
                    PollStatus::Dispatched => {
                        let roots = data.state.xdg_shell_state.mapped_toplevels();
                        proof {
                            assert forall|j: int| 0 <= j < roots@.len() implies (
                            #[trigger] roots@[j]) < data.state.surfaces.surfaces@.len() by {
                                crate::shell::lemma_mapped_from_entries(
                                    data.state.xdg_shell_state.surfaces@,
                                    j,
                                );
                            }
                        }
                        let elements = data.state.surfaces.flatten_tree(&roots);
                        let damage = Rect::full(&mode);
                        TickPlan::Render { roots, elements, damage }
                    },
                    PollStatus::WindowClosed => {
                        data.state.stop_requested = true;
                        TickPlan::Skip {
                            action: TimeoutAction::ToDuration { millis: TICK_PERIOD_MS },
                        }
                    },
                    PollStatus::Failed => {
                        data.state.stop_requested = true;
                        TickPlan::Skip { action: TimeoutAction::Drop }
                    },
                }
            },
            Backend::Invalid => vstd::pervasive::unreached(),
        };
        proof {
            lemma_state_after_preserves(events@, old(data).state);
        }
        plan
    }

/// The frame timestamp: milliseconds elapsed since compositor start,
/// truncated to 32 bits with standard wraparound.
pub open spec fn frame_time_spec(start_ms: u64, now_ms: u64) -> u32
    recommends
        start_ms <= now_ms,
{
    ((now_ms - start_ms) % 0x1_0000_0000) as u32
}

/// Compute the shared frame timestamp for one tick.
pub fn frame_time_millis(start_ms: u64, now_ms: u64) -> (t: u32)
    requires
        start_ms <= now_ms,
    ensures
        t == frame_time_spec(start_ms, now_ms),
{
    ((now_ms - start_ms) % 0x1_0000_0000) as u32
}

/// The second half of a tick, after the platform submission returned. On
/// success, the frame-done listeners of the frame's roots are drained —
/// exactly once, all with one shared timestamp — and the timer reschedules
/// at the tick period. On a bind, draw or submit failure the backend is
/// lost: no notification leaves (the content was never shown), the stop
/// signal is raised, and the timer cancels itself, so no next tick runs.
pub fn finish_tick(data: &mut LoopData, roots: &Vec<usize>, submit_ok: bool, now_ms: u64) -> (end:
    TickEnd)
    requires
        old(data).state.wf(),
        forall|j: int|
            0 <= j < roots@.len() ==> (#[trigger] roots@[j])
                < old(data).state.surfaces.surfaces@.len(),
        old(data).state.start_time_ms <= now_ms,
    ensures
        final(data).state.wf(),
        final(data).backend == old(data).backend,
        final(data).state.xdg_shell_state == old(data).state.xdg_shell_state,
        final(data).state.seat_state == old(data).state.seat_state,
        final(data).state.data_device_state == old(data).state.data_device_state,
        final(data).state.start_time_ms == old(data).state.start_time_ms,
        !submit_ok ==> {
            &&& final(data).state.surfaces == old(data).state.surfaces
            &&& final(data).state.stop_requested
            &&& end.action == TimeoutAction::Drop
            &&& end.fired@.len() == 0
            &&& !tick_may_run(final(data), end.action)
        },
        submit_ok ==> {
            &&& final(data).state.stop_requested == old(data).state.stop_requested
            &&& end.action == (TimeoutAction::ToDuration { millis: TICK_PERIOD_MS })
            &&& same_structure(
                old(data).state.surfaces.surfaces@,
                final(data).state.surfaces.surfaces@,
            )
            &&& forall|i: int|
                0 <= i < final(data).state.surfaces.surfaces@.len() ==> {
                    ||| (#[trigger] final(data).state.surfaces.surfaces@[i]).frame_callbacks@.len()
                        == 0
                    ||| final(data).state.surfaces.surfaces@[i].frame_callbacks@ == old(data).state.surfaces.surfaces@[i].frame_callbacks@
                }
            &&& forall|j: int|
                0 <= j < roots@.len() ==> final(data).state.surfaces.surfaces@[#[trigger] roots@[j] as int].frame_callbacks@.len() == 0
            &&& forall|x: usize|
                crate::surface::reachable_from(
                    final(data).state.surfaces.surfaces@,
                    roots@,
                    x,
                ) ==> final(data).state.surfaces.surfaces@[x as int].frame_callbacks@.len() == 0
            &&& forall|k: int|
                0 <= k < end.fired@.len() ==> (#[trigger] end.fired@[k]).time == frame_time_spec(
                    old(data).state.start_time_ms,
                    now_ms,
                )
            &&& fired_callbacks(end.fired@).to_multiset() == drained_ms(
                old(data).state.surfaces.surfaces@,
                final(data).state.surfaces.surfaces@,
                old(data).state.surfaces.surfaces@.len() as int,
            )
        },
{
    if submit_ok {
        let time = frame_time_millis(data.state.start_time_ms, now_ms);
        let fired = data.state.surfaces.drain_frame_callbacks(roots, time);
        TickEnd { fired, action: TimeoutAction::ToDuration { millis: TICK_PERIOD_MS } }
    } else {
        data.state.stop_requested = true;
        TickEnd { fired: Vec::new(), action: TimeoutAction::Drop }
    }
}

} // verus!
