//! The seat: input capabilities, one focus slot per capability, and the
//! data-device (clipboard / drag-and-drop) rule whose selection visibility
//! is computed from the current focus — never stored per client.

use vstd::prelude::*;

verus! {

/// A focused surface together with the client that owns it, resolved from
/// the surface's resource identity.
#[derive(Clone, Copy, PartialEq, Eq, Structural, Debug)]
pub struct FocusTarget {
    pub surface: usize,
    pub client: usize,
}

/// The seat: which capabilities are advertised, and the focus each holds.
#[derive(Clone, Copy, PartialEq, Eq, Structural, Debug)]
pub struct SeatState {
    pub keyboard_present: bool,
    pub pointer_present: bool,
    pub keyboard_focus: Option<FocusTarget>,
    pub pointer_focus: Option<FocusTarget>,
}

/// A platform input event translated for the seat. A button press focuses
/// the surface under the pointer (hit-testing happens where the event is
/// translated); pointer motion moves only the pointer focus; a key event
/// retains the prior focus target.
#[derive(Clone, Copy, PartialEq, Eq, Structural, Debug)]
pub enum InputEvent {
    PointerButton { hit: Option<FocusTarget> },
    PointerMotion { hit: Option<FocusTarget> },
    Keyboard { key: u32 },
}

/// The current selection: an opaque source handle and the client that
/// offered it.
#[derive(Clone, Copy, PartialEq, Eq, Structural, Debug)]
pub struct Selection {
    pub source: u32,
    pub owner: usize,
}

/// Clipboard / drag-and-drop state: the selection, and the client the data
/// device currently follows — always the keyboard-focused client.
#[derive(Clone, Copy, PartialEq, Eq, Structural, Debug)]
pub struct DataDeviceState {
    pub selection: Option<Selection>,
    pub focus_client: Option<usize>,
}

/// The client of a focus target, if any.
pub open spec fn client_of(focused: Option<FocusTarget>) -> Option<usize> {
    match focused {
        Some(t) => Some(t.client),
        None => None,
    }
}

impl SeatState {
    /// A seat with keyboard and pointer advertised and nothing focused.
    pub fn new() -> (s: SeatState)
        ensures
            s == (SeatState {
                keyboard_present: true,
                pointer_present: true,
                keyboard_focus: None,
                pointer_focus: None,
            }),
    {
        SeatState {
            keyboard_present: true,
            pointer_present: true,
            keyboard_focus: None,
            pointer_focus: None,
        }
    }
}

impl DataDeviceState {
    /// No selection, following no client.
    pub fn new() -> (d: DataDeviceState)
        ensures
            d == (DataDeviceState { selection: None, focus_client: None }),
    {
        DataDeviceState { selection: None, focus_client: None }
    }

    /// A client sets the selection; it is offered only through the visibility rule
    /// below.
    pub fn set_selection(&mut self, selection: Selection)
        ensures
            *final(self) == (DataDeviceState {
                selection: Some(selection),
                ..*old(self)
            }),
    {
        self.selection = Some(selection);
    }

    /// The selection the visibility rule would offer to `client`.
    pub open spec fn spec_offer_for(&self, client: usize) -> Option<Selection> {
        if self.focus_client == Some(client) {
            self.selection
        } else {
            None
        }
    }

    /// The visibility rule: a client is offered the current selection if
    /// and only if it is the client the data device follows — the one
    /// holding keyboard focus. Any other client, including one acting on a
    /// stale focus, receives no offer.
    pub fn selection_offer_for(&self, client: usize) -> (offer: Option<Selection>)
        ensures
            offer == self.spec_offer_for(client),
            offer is Some <==> (self.focus_client == Some(client) && self.selection is Some),
    {
        match self.focus_client {
            Some(c) if c == client => self.selection,
            _ => None,
        }
    }
}

} // verus!
