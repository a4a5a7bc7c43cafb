//! Core of a minimal single-output windowing compositor.
//!
//! The crate models the decision logic of the compositor: the output mode,
//! the shell surface lifecycle, seat focus routing with the focus-keyed data
//! device, the per-frame surface-tree traversal that delivers frame-done
//! callbacks, and the fixed-cadence tick that drives them. Platform work
//! (window events, rendering, protocol sockets) happens outside this crate;
//! the event loop hands the observed events and call results in as plain
//! values and carries the decisions back out.

pub mod backend;
pub mod output;
pub mod seat;
pub mod shell;
pub mod state;
pub mod surface;
pub mod tick;

use vstd::prelude::*;

verus! {

/// Tick period of the render timer, in milliseconds.
pub const TICK_PERIOD_MS: u64 = 16;

/// The root loop context: the one value owning all compositor state and
/// the backend, passed by exclusive reference into every event-loop
/// callback. Nothing outside it holds independent mutable state.
pub struct LoopData {
    pub state: crate::state::KhigyState,
    pub backend: crate::backend::Backend,
}

} // verus!
