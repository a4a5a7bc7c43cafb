//! The root compositor state: one value owning the surface arena, the
//! shell, the seat and the data device, passed by exclusive reference into
//! every event-loop callback. The protocol entry points live here.

use crate::seat::{client_of, DataDeviceState, FocusTarget, InputEvent, SeatState};
use crate::shell::{PositionerState, ShellSurfaceState, XdgShellState};
use crate::surface::SurfaceMap;
use vstd::prelude::*;

verus! {

/// A client's request to show (or hide) a cursor image. Accepted without
/// error; this minimal core has no cursor plane, so it has no renderer-side
/// effect yet.
#[derive(Clone, Copy, PartialEq, Eq, Structural, Debug)]
pub enum CursorImageStatus {
    Hidden,
    Default,
    Surface { surface: usize },
}

/// The single root value owning all mutable compositor state.
pub struct KhigyState {
    /// Milliseconds at compositor start, on the clock that timestamps
    /// frames; frame-done timestamps are measured from it.
    pub start_time_ms: u64,
    /// The process-wide stop signal: once raised, the loop exits after the
    /// current callback and no further tick runs.
    pub stop_requested: bool,
    pub surfaces: SurfaceMap,
    pub xdg_shell_state: XdgShellState,
    pub seat_state: SeatState,
    pub data_device_state: DataDeviceState,
}

/// Whether `x` carries a shell role that has been destroyed.
pub open spec fn shell_destroyed(shell: Seq<crate::shell::ShellSurface>, x: usize) -> bool {
    exists|idx: int|
        0 <= idx < shell.len() && (#[trigger] shell[idx]).surface == x && shell[idx].state
            == ShellSurfaceState::Closed
}

/// Whether `x` already carries a shell role.
pub open spec fn has_shell_role(shell: Seq<crate::shell::ShellSurface>, x: usize) -> bool {
    exists|idx: int| 0 <= idx < shell.len() && (#[trigger] shell[idx]).surface == x
}

/// A focus slot may only hold a live surface of the arena: destroyed
/// surfaces are cleared out of the slots synchronously, so a stale slot is
/// prevented by construction.
pub open spec fn focus_slot_ok(s: &KhigyState, slot: Option<FocusTarget>) -> bool {
    match slot {
        Some(t) => t.surface < s.surfaces.surfaces@.len() && !shell_destroyed(
            s.xdg_shell_state.surfaces@,
            t.surface,
        ),
        None => true,
    }
}

/// The state after one translated input event is dispatched to the seat:
/// a button press moves keyboard and pointer focus to the hit surface and
/// the data device follows the newly focused client; pointer motion moves
/// only the pointer focus; a key event retains the prior focus.
pub open spec fn input_applied(s: KhigyState, ev: InputEvent) -> KhigyState {
    match ev {
        InputEvent::PointerButton { hit } => KhigyState {
            seat_state: SeatState { keyboard_focus: hit, pointer_focus: hit, ..s.seat_state },
            data_device_state: DataDeviceState {
                focus_client: client_of(hit),
                ..s.data_device_state
            },
            ..s
        },
        InputEvent::PointerMotion { hit } => KhigyState {
            seat_state: SeatState { pointer_focus: hit, ..s.seat_state },
            ..s
        },
        InputEvent::Keyboard { .. } => s,
    }
}

/// Whether an input event's hit target is acceptable for this state: the
/// translation hit-tests against live mapped surfaces, so a hit never names
/// a destroyed or foreign surface.
pub open spec fn input_ok(s: &KhigyState, ev: InputEvent) -> bool {
    match ev {
        InputEvent::PointerButton { hit } => focus_slot_ok(s, hit),
        InputEvent::PointerMotion { hit } => focus_slot_ok(s, hit),
        InputEvent::Keyboard { .. } => true,
    }
}

/// The data device is never left following a client other than the one
/// holding keyboard focus: a client that lost (or never had) the focus is
/// offered nothing — see `DataDeviceState::selection_offer_for`.
pub open spec fn data_device_follows_focus(s: &KhigyState) -> bool {
    s.data_device_state.focus_client == client_of(s.seat_state.keyboard_focus)
}

impl KhigyState {
    /// Shell entries point into the arena, focus slots hold live surfaces,
    /// and the data device follows the keyboard focus.
    pub open spec fn wf(&self) -> bool {
        &&& self.xdg_shell_state.wf()
        &&& forall|i: int|
            0 <= i < self.xdg_shell_state.surfaces@.len() ==> (
            #[trigger] self.xdg_shell_state.surfaces@[i]).surface < self.surfaces.surfaces@.len()
        &&& self.surfaces.wf()
        &&& focus_slot_ok(self, self.seat_state.keyboard_focus)
        &&& focus_slot_ok(self, self.seat_state.pointer_focus)
        &&& data_device_follows_focus(self)
    }

    /// A fresh compositor: nothing mapped, nothing focused, stop signal not
    /// raised, the clock anchored at `start_time_ms`.
    pub fn new(start_time_ms: u64) -> (s: KhigyState)
        ensures
            s.wf(),
            s.start_time_ms == start_time_ms,
            s.stop_requested == false,
            s.surfaces.surfaces@.len() == 0,
            s.xdg_shell_state.surfaces@.len() == 0,
            s.seat_state == (SeatState {
                keyboard_present: true,
                pointer_present: true,
                keyboard_focus: None,
                pointer_focus: None,
            }),
            s.data_device_state == (DataDeviceState { selection: None, focus_client: None }),
    {
        KhigyState {
            start_time_ms,
            stop_requested: false,
            surfaces: SurfaceMap::new(),
            xdg_shell_state: XdgShellState::new(),
            seat_state: SeatState::new(),
            data_device_state: DataDeviceState::new(),
        }
    }

    /// The seat capability of this root value.
    pub fn seat_state(&mut self) -> (r: &mut SeatState)
        ensures
            *r == old(self).seat_state,
            *final(self) == (KhigyState { seat_state: *final(r), ..*old(self) }),
    {
        &mut self.seat_state
    }

    /// The shell capability of this root value.
    pub fn xdg_shell_state(&mut self) -> (r: &mut XdgShellState)
        ensures
            *r == old(self).xdg_shell_state,
            *final(self) == (KhigyState { xdg_shell_state: *final(r), ..*old(self) }),
    {
        &mut self.xdg_shell_state
    }

    /// The data-device capability of this root value.
    pub fn data_device_state(&self) -> (r: &DataDeviceState)
        ensures
            *r == self.data_device_state,
    {
        &self.data_device_state
    }

    /// A cursor-image request is accepted and changes nothing: the stub for
    /// a future cursor plane.
    pub fn cursor_image(&mut self, status: CursorImageStatus)
        ensures
            *final(self) == *old(self),
    {
        let _ = status;
    }

    /// The seat reports a focus change: resolve the destination client from
    /// the newly focused surface and move the data device to it, so
    /// selection visibility follows the focus.
    pub fn focus_changed(&mut self, focused: Option<FocusTarget>)
        requires
            old(self).wf(),
            focus_slot_ok(old(self), focused),
        ensures
            final(self).wf(),
            *final(self) == (KhigyState {
                seat_state: SeatState { keyboard_focus: focused, ..old(self).seat_state },
                data_device_state: DataDeviceState {
                    focus_client: client_of(focused),
                    ..old(self).data_device_state
                },
                ..*old(self)
            }),
    {
        self.seat_state.keyboard_focus = focused;
        let client = match focused {
            Some(t) => Some(t.client),
            None => None,
        };
        self.data_device_state.focus_client = client;
    }

    /// Dispatch one translated input event to the seat, before anything of
    /// this tick is rendered, so element collection sees the newest focus.
    pub fn process_input_event(&mut self, event: InputEvent)
        requires
            old(self).wf(),
            input_ok(old(self), event),
        ensures
            final(self).wf(),
            *final(self) == input_applied(*old(self), event),
    {
        match event {
            InputEvent::PointerButton { hit } => {
                self.seat_state.pointer_focus = hit;
                self.focus_changed(hit);
            },
            InputEvent::PointerMotion { hit } => {
                self.seat_state.pointer_focus = hit;
            },
            InputEvent::Keyboard { key } => {
                let _ = key;
            },
        }
    }

    /// A new-toplevel request: attach the toplevel role, Unconfigured.
    pub fn new_toplevel(&mut self, surface: usize)
        requires
            old(self).wf(),
            surface < old(self).surfaces.surfaces@.len(),
            !has_shell_role(old(self).xdg_shell_state.surfaces@, surface),
        ensures
            final(self).wf(),
            final(self).xdg_shell_state.surfaces@ == old(self).xdg_shell_state.surfaces@.push(
                crate::shell::ShellSurface {
                    surface,
                    role: crate::shell::ShellRole::Toplevel,
                    state: ShellSurfaceState::Unconfigured,
                },
            ),
            final(self).surfaces == old(self).surfaces,
            final(self).seat_state == old(self).seat_state,
            final(self).data_device_state == old(self).data_device_state,
            final(self).stop_requested == old(self).stop_requested,
            final(self).start_time_ms == old(self).start_time_ms,
    {
        self.xdg_shell_state.new_toplevel(surface);
        proof {
            lemma_push_keeps_destroyed(
                old(self).xdg_shell_state.surfaces@,
                self.xdg_shell_state.surfaces@,
            );
        }
    }

    /// A new-popup request: attach the popup role with its positioner
    /// snapshot, Unconfigured.
    pub fn new_popup(&mut self, surface: usize, positioner: PositionerState)
        requires
            old(self).wf(),
            surface < old(self).surfaces.surfaces@.len(),
            !has_shell_role(old(self).xdg_shell_state.surfaces@, surface),
        ensures
            final(self).wf(),
            final(self).xdg_shell_state.surfaces@ == old(self).xdg_shell_state.surfaces@.push(
                crate::shell::ShellSurface {
                    surface,
                    role: crate::shell::ShellRole::Popup { positioner },
                    state: ShellSurfaceState::Unconfigured,
                },
            ),
            final(self).surfaces == old(self).surfaces,
            final(self).seat_state == old(self).seat_state,
            final(self).data_device_state == old(self).data_device_state,
            final(self).stop_requested == old(self).stop_requested,
            final(self).start_time_ms == old(self).start_time_ms,
    {
        self.xdg_shell_state.new_popup(surface, positioner);
        proof {
            lemma_push_keeps_destroyed(
                old(self).xdg_shell_state.surfaces@,
                self.xdg_shell_state.surfaces@,
            );
        }
    }

    /// A client commit: record the committed content in the arena, and let
    /// the first commit map an unconfigured shell surface.
    pub fn commit(&mut self, surface: usize)
        requires
            old(self).wf(),
            surface < old(self).surfaces.surfaces@.len(),
        ensures
            final(self).wf(),
            final(self).surfaces.surfaces@.len() == old(self).surfaces.surfaces@.len(),
            final(self).surfaces.surfaces@[surface as int].committed == true,
            forall|i: int|
                0 <= i < old(self).surfaces.surfaces@.len() && i != surface ==> final(self).surfaces.surfaces@[i] == old(self).surfaces.surfaces@[i],
            final(self).surfaces.surfaces@[surface as int].frame_callbacks@ == old(self).surfaces.surfaces@[surface as int].frame_callbacks@,
            final(self).surfaces.surfaces@[surface as int].children@ == old(self).surfaces.surfaces@[surface as int].children@,
            final(self).xdg_shell_state.surfaces@.len() == old(self).xdg_shell_state.surfaces@.len(),
            forall|i: int|
                0 <= i < old(self).xdg_shell_state.surfaces@.len() && (#[trigger] old(self).xdg_shell_state.surfaces@[i]).surface != surface ==> final(self).xdg_shell_state.surfaces@[i] == old(self).xdg_shell_state.surfaces@[i],
            forall|i: int|
                0 <= i < old(self).xdg_shell_state.surfaces@.len() && (#[trigger] old(self).xdg_shell_state.surfaces@[i]).surface == surface ==> final(self).xdg_shell_state.surfaces@[i] == (crate::shell::ShellSurface {
                    state: crate::shell::after_commit(old(self).xdg_shell_state.surfaces@[i].state),
                    ..old(self).xdg_shell_state.surfaces@[i]
                }),
            final(self).seat_state == old(self).seat_state,
            final(self).data_device_state == old(self).data_device_state,
            final(self).stop_requested == old(self).stop_requested,
            final(self).start_time_ms == old(self).start_time_ms,
    {
        self.surfaces.set_committed(surface);
        self.xdg_shell_state.commit(surface);
        proof {
            lemma_commit_keeps_destroyed(
                old(self).xdg_shell_state.surfaces@,
                self.xdg_shell_state.surfaces@,
                surface,
            );
            assert forall|i: int|
                0 <= i < self.xdg_shell_state.surfaces@.len() implies (
            #[trigger] self.xdg_shell_state.surfaces@[i]).surface
                < self.surfaces.surfaces@.len() by {
                assert(old(self).xdg_shell_state.surfaces@[i].surface < old(
                    self,
                ).surfaces.surfaces@.len());
            }
        }
    }

    /// A client destroy or unmap: the shell surface becomes Closed, later
    /// frames omit it, and any focus slot holding it is cleared
    /// synchronously — the data device follows the cleared focus.
    pub fn toplevel_destroyed(&mut self, surface: usize)
        requires
            old(self).wf(),
        ensures
            final(self).wf(),
            final(self).surfaces == old(self).surfaces,
            final(self).xdg_shell_state.surfaces@.len() == old(self).xdg_shell_state.surfaces@.len(),
            forall|i: int|
                0 <= i < old(self).xdg_shell_state.surfaces@.len() && (#[trigger] old(self).xdg_shell_state.surfaces@[i]).surface != surface ==> final(self).xdg_shell_state.surfaces@[i] == old(self).xdg_shell_state.surfaces@[i],
            forall|i: int|
                0 <= i < old(self).xdg_shell_state.surfaces@.len() && (#[trigger] old(self).xdg_shell_state.surfaces@[i]).surface == surface ==> final(self).xdg_shell_state.surfaces@[i] == (crate::shell::ShellSurface {
                    state: ShellSurfaceState::Closed,
                    ..old(self).xdg_shell_state.surfaces@[i]
                }),
            final(self).seat_state.keyboard_focus == (match old(self).seat_state.keyboard_focus {
                Some(t) => if t.surface == surface {
                    None
                } else {
                    Some(t)
                },
                None => None,
            }),
            final(self).seat_state.pointer_focus == (match old(self).seat_state.pointer_focus {
                Some(t) => if t.surface == surface {
                    None
                } else {
                    Some(t)
                },
                None => None,
            }),
            final(self).data_device_state.focus_client == client_of(
                final(self).seat_state.keyboard_focus,
            ),
            final(self).data_device_state.selection == old(self).data_device_state.selection,
            final(self).stop_requested == old(self).stop_requested,
            final(self).start_time_ms == old(self).start_time_ms,
    {
        self.xdg_shell_state.destroy(surface);
        proof {
            lemma_destroy_keeps_other_destroyed(
                old(self).xdg_shell_state.surfaces@,
                self.xdg_shell_state.surfaces@,
                surface,
            );
            assert forall|i: int|
                0 <= i < self.xdg_shell_state.surfaces@.len() implies (
            #[trigger] self.xdg_shell_state.surfaces@[i]).surface
                < self.surfaces.surfaces@.len() by {
                assert(old(self).xdg_shell_state.surfaces@[i].surface < old(
                    self,
                ).surfaces.surfaces@.len());
            }
        }
        let clear_keyboard = match self.seat_state.keyboard_focus {
            Some(t) => t.surface == surface,
            None => false,
        };
        if clear_keyboard {
            self.seat_state.keyboard_focus = None;
            self.data_device_state.focus_client = None;
        }
        let clear_pointer = match self.seat_state.pointer_focus {
            Some(t) => t.surface == surface,
            None => false,
        };
        if clear_pointer {
            self.seat_state.pointer_focus = None;
        }
    }

    /// An interactive-move request: accepted (surface, requesting seat,
    /// serial), handed to no grab coordinator in this minimal core.
    pub fn move_request(&mut self, surface: usize, seat: usize, serial: u32)
        ensures
            *final(self) == *old(self),
    {
        let _ = surface;
        let _ = seat;
        let _ = serial;
    }

    /// An interactive-resize request: accepted (surface, requesting seat,
    /// serial, edge mask), handed to no grab coordinator in this minimal
    /// core.
    pub fn resize_request(&mut self, surface: usize, seat: usize, serial: u32, edges: u32)
        ensures
            *final(self) == *old(self),
    {
        let _ = surface;
        let _ = seat;
        let _ = serial;
        let _ = edges;
    }

    /// A popup-grab request: accepted, handed to no grab coordinator in
    /// this minimal core.
    pub fn grab(&mut self, surface: usize, seat: usize, serial: u32)
        ensures
            *final(self) == *old(self),
    {
        let _ = surface;
        let _ = seat;
        let _ = serial;
    }

    /// A popup-reposition request: accepted, handed to no positioner
    /// coordinator in this minimal core.
    pub fn reposition_request(&mut self, surface: usize, positioner: PositionerState, token: u32)
        ensures
            *final(self) == *old(self),
    {
        let _ = surface;
        let _ = positioner;
        let _ = token;
    }
}

/// Focus-consistent data visibility: once focus has moved to a surface of
/// one client, a selection or drag request from any other client — for
/// instance one still acting on a focus it no longer holds — receives no
/// offer.
pub proof fn lemma_stale_focus_gets_no_offer(s: KhigyState, target: FocusTarget, other: usize)
    requires
        other != target.client,
    ensures
        input_applied(
            s,
            InputEvent::PointerButton { hit: Some(target) },
        ).data_device_state.spec_offer_for(other) is None,
{
}

/// The visibility rule never leaks: in any well-formed state, a client that is
/// offered the selection is exactly the client holding keyboard focus.
pub proof fn lemma_offer_only_to_focused(s: KhigyState, client: usize)
    requires
        s.wf(),
        s.data_device_state.spec_offer_for(client) is Some,
    ensures
        client_of(s.seat_state.keyboard_focus) == Some(client),
{
}

/// Pushing a non-Closed entry changes no surface's destroyed status.
proof fn lemma_push_keeps_destroyed(
    olds: Seq<crate::shell::ShellSurface>,
    news: Seq<crate::shell::ShellSurface>,
)
    requires
        news.len() == olds.len() + 1,
        forall|i: int| 0 <= i < olds.len() ==> news[i] == olds[i],
        news[olds.len() as int].state != ShellSurfaceState::Closed,
    ensures
        forall|x: usize| shell_destroyed(news, x) == shell_destroyed(olds, x),
{
    assert forall|x: usize| shell_destroyed(news, x) == shell_destroyed(olds, x) by {
        if shell_destroyed(news, x) {
            let idx = choose|idx: int|
                0 <= idx < news.len() && (#[trigger] news[idx]).surface == x && news[idx].state
                    == ShellSurfaceState::Closed;
            assert(idx < olds.len());
            assert(olds[idx].surface == x && olds[idx].state == ShellSurfaceState::Closed);
        }
        if shell_destroyed(olds, x) {
            let idx = choose|idx: int|
                0 <= idx < olds.len() && (#[trigger] olds[idx]).surface == x && olds[idx].state
                    == ShellSurfaceState::Closed;
            assert(news[idx].surface == x && news[idx].state == ShellSurfaceState::Closed);
        }
    }
}

/// A commit never closes an entry, so it changes no surface's destroyed
/// status.
proof fn lemma_commit_keeps_destroyed(
    olds: Seq<crate::shell::ShellSurface>,
    news: Seq<crate::shell::ShellSurface>,
    surface: usize,
)
    requires
        news.len() == olds.len(),
        forall|i: int|
            0 <= i < olds.len() && (#[trigger] olds[i]).surface != surface ==> news[i] == olds[i],
        forall|i: int|
            0 <= i < olds.len() && (#[trigger] olds[i]).surface == surface ==> news[i] == (
            crate::shell::ShellSurface {
                state: crate::shell::after_commit(olds[i].state),
                ..olds[i]
            }),
    ensures
        forall|x: usize| shell_destroyed(news, x) == shell_destroyed(olds, x),
{
    assert forall|x: usize| shell_destroyed(news, x) == shell_destroyed(olds, x) by {
        if shell_destroyed(news, x) {
            let idx = choose|idx: int|
                0 <= idx < news.len() && (#[trigger] news[idx]).surface == x && news[idx].state
                    == ShellSurfaceState::Closed;
            assert(olds[idx].surface == x && olds[idx].state == ShellSurfaceState::Closed);
        }
        if shell_destroyed(olds, x) {
            let idx = choose|idx: int|
                0 <= idx < olds.len() && (#[trigger] olds[idx]).surface == x && olds[idx].state
                    == ShellSurfaceState::Closed;
            assert(news[idx].surface == x && news[idx].state == ShellSurfaceState::Closed);
        }
    }
}

/// Destroying one surface leaves every other surface's destroyed status as
/// it was.
proof fn lemma_destroy_keeps_other_destroyed(
    olds: Seq<crate::shell::ShellSurface>,
    news: Seq<crate::shell::ShellSurface>,
    surface: usize,
)
    requires
        news.len() == olds.len(),
        forall|i: int|
            0 <= i < olds.len() && (#[trigger] olds[i]).surface != surface ==> news[i] == olds[i],
        forall|i: int|
            0 <= i < olds.len() && (#[trigger] olds[i]).surface == surface ==> news[i] == (
            crate::shell::ShellSurface { state: ShellSurfaceState::Closed, ..olds[i] }),
    ensures
        forall|x: usize| x != surface ==> shell_destroyed(news, x) == shell_destroyed(olds, x),
{
    assert forall|x: usize| x != surface implies shell_destroyed(news, x) == shell_destroyed(
        olds,
        x,
    ) by {
        if shell_destroyed(news, x) {
            let idx = choose|idx: int|
                0 <= idx < news.len() && (#[trigger] news[idx]).surface == x && news[idx].state
                    == ShellSurfaceState::Closed;
            assert(olds[idx].surface == x && olds[idx].state == ShellSurfaceState::Closed);
        }
        if shell_destroyed(olds, x) {
            let idx = choose|idx: int|
                0 <= idx < olds.len() && (#[trigger] olds[idx]).surface == x && olds[idx].state
                    == ShellSurfaceState::Closed;
            assert(news[idx].surface == x && news[idx].state == ShellSurfaceState::Closed);
        }
    }
}

} // verus!
