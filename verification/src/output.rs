//! The display output: mode (pixel size plus refresh rate), transform,
//! scale and physical metadata. One output exists for the process lifetime;
//! only resize events change its current mode.

use vstd::prelude::*;

verus! {

/// Refresh rate advertised for the output, in millihertz.
pub const DEFAULT_REFRESH_MHZ: u32 = 60_000;

/// A display mode: pixel size and refresh rate in millihertz.
#[derive(Clone, Copy, PartialEq, Eq, Structural, Debug)]
pub struct Mode {
    pub width: u32,
    pub height: u32,
    pub refresh: u32,
}

/// Orientation applied to the output contents.
#[derive(Clone, Copy, PartialEq, Eq, Structural, Debug)]
pub enum Transform {
    Normal,
    Flipped180,
}

/// The single display sink: current mode, preferred mode, transform and
/// integer scale. Physical metadata (make, model) lives with the platform
/// advertisement outside this crate.
#[derive(Clone, Copy, PartialEq, Eq, Structural, Debug)]
pub struct Output {
    pub mode: Mode,
    pub preferred: Mode,
    pub transform: Transform,
    pub scale: u32,
}

impl Output {
    /// The mode an output starts in for a window of the given pixel size.
    pub open spec fn initial_mode(width: u32, height: u32) -> Mode {
        Mode { width, height, refresh: DEFAULT_REFRESH_MHZ }
    }

    /// The output as created for a window of the given pixel size.
    pub open spec fn spec_create_output(width: u32, height: u32) -> Output {
        Output {
            mode: Output::initial_mode(width, height),
            preferred: Output::initial_mode(width, height),
            transform: Transform::Flipped180,
            scale: 1,
        }
    }

    /// Build the output for a freshly created platform window: its current
    /// and preferred mode are the window size at the default refresh rate,
    /// and the contents are flipped as the windowed preview requires.
    pub fn create_output(width: u32, height: u32) -> (out: Output)
        ensures
            out == Output::spec_create_output(width, height),
    {
        let mode = Mode { width, height, refresh: DEFAULT_REFRESH_MHZ };
        Output { mode, preferred: mode, transform: Transform::Flipped180, scale: 1 }
    }

    /// A resize event replaces the current mode immediately; nothing else
    /// about the output changes.
    pub fn apply_resize(&mut self, width: u32, height: u32)
        ensures
            final(self).mode == Output::initial_mode(width, height),
            final(self).preferred == old(self).preferred,
            final(self).transform == old(self).transform,
            final(self).scale == old(self).scale,
    {
        self.mode = Mode { width, height, refresh: DEFAULT_REFRESH_MHZ };
    }
}

/// The whole-output rectangle: with no per-surface damage tracking, every
/// frame redraws (and submits) the full output.
#[derive(Clone, Copy, PartialEq, Eq, Structural, Debug)]
pub struct Rect {
    pub x: u32,
    pub y: u32,
    pub width: u32,
    pub height: u32,
}

impl Rect {
    /// The damage rectangle covering an output in the given mode.
    pub open spec fn full_of(mode: Mode) -> Rect {
        Rect { x: 0, y: 0, width: mode.width, height: mode.height }
    }

    /// Compute the full-output damage rectangle for the given mode.
    pub fn full(mode: &Mode) -> (r: Rect)
        ensures
            r == Rect::full_of(*mode),
    {
        Rect { x: 0, y: 0, width: mode.width, height: mode.height }
    }
}

} // verus!
