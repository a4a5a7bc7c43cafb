//! The backend abstraction: exactly one variant is active for the process
//! lifetime, and the variant tag and its payload are inseparable — the tag
//! is matched once at the tick-poll boundary and the payload handle is
//! passed downward, never re-inspected.

use crate::output::Output;
use vstd::prelude::*;

verus! {

/// The windowed-preview backend: it owns the output binding. The platform
/// window, render context and event pump live outside this crate.
pub struct WinitBackend {
    pub output: Output,
}

/// The backend chosen before the event loop starts. `Invalid` is the state
/// before a backend was constructed; no tick may run on it.
pub enum Backend {
    Winit(WinitBackend),
    Invalid,
}

/// Construct the windowed backend for a freshly created platform window of
/// the given pixel size and install it as the loop's backend; the output
/// starts in the window's mode. The platform-global advertisement of the
/// output happens outside this crate.
pub fn create_backend(data: &mut crate::LoopData, width: u32, height: u32)
    ensures
        final(data).state == old(data).state,
        final(data).backend matches Backend::Winit(b) && b.output == Output::spec_create_output(
            width,
            height,
        ),
{
    let output = Output::create_output(width, height);
    data.backend = Backend::Winit(WinitBackend { output });
}

} // verus!
