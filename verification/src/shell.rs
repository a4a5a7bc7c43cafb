//! The shell surface lifecycle: toplevel and popup roles move from
//! Unconfigured through Configured (mapped, eligible for rendering) to the
//! terminal Closed state, and the mapped toplevels are enumerated in
//! creation order for each frame.

use vstd::prelude::*;

verus! {

/// Lifecycle of a shell surface.
#[derive(Clone, Copy, PartialEq, Eq, Structural, Debug)]
pub enum ShellSurfaceState {
    Unconfigured,
    Configured,
    Closed,
}

/// Snapshot of a popup's positioner at creation or reposition time.
#[derive(Clone, Copy, PartialEq, Eq, Structural, Debug)]
pub struct PositionerState {
    pub anchor_x: i32,
    pub anchor_y: i32,
    pub width: u32,
    pub height: u32,
}

/// The role a shell surface plays; a popup carries its positioner snapshot.
#[derive(Clone, Copy, PartialEq, Eq, Structural, Debug)]
pub enum ShellRole {
    Toplevel,
    Popup { positioner: PositionerState },
}

/// One surface with a shell role attached.
#[derive(Clone, Copy, PartialEq, Eq, Structural, Debug)]
pub struct ShellSurface {
    pub surface: usize,
    pub role: ShellRole,
    pub state: ShellSurfaceState,
}

/// All shell surfaces, in creation order; creation order is the stacking
/// order used for rendering, stable across ticks.
pub struct XdgShellState {
    pub surfaces: Vec<ShellSurface>,
}

/// Whether this entry is drawn: a toplevel that is currently mapped.
pub open spec fn is_mapped_toplevel(e: ShellSurface) -> bool {
    e.role == ShellRole::Toplevel && e.state == ShellSurfaceState::Configured
}

/// The surfaces of the mapped toplevels, in stacking (creation) order.
pub open spec fn mapped_of(s: Seq<ShellSurface>) -> Seq<usize>
    decreases s.len(),
{
    if s.len() == 0 {
        Seq::empty()
    } else {
        mapped_of(s.drop_last()) + if is_mapped_toplevel(s.last()) {
            seq![s.last().surface]
        } else {
            Seq::empty()
        }
    }
}

/// The state a commit leaves a shell surface in: the first commit maps an
/// unconfigured surface; otherwise the state is unchanged (Closed stays
/// terminal).
pub open spec fn after_commit(st: ShellSurfaceState) -> ShellSurfaceState {
    match st {
        ShellSurfaceState::Unconfigured => ShellSurfaceState::Configured,
        _ => st,
    }
}

/// A mapped toplevel's surface appears in the enumeration.
pub proof fn lemma_mapped_contains(s: Seq<ShellSurface>, idx: int)
    requires
        0 <= idx < s.len(),
        is_mapped_toplevel(s[idx]),
    ensures
        mapped_of(s).contains(s[idx].surface),
    decreases s.len(),
{
    if idx == s.len() - 1 {
        let m = mapped_of(s);
        assert(m[m.len() - 1] == s[idx].surface);
    } else {
        lemma_mapped_contains(s.drop_last(), idx);
        let pre = mapped_of(s.drop_last());
        let k = choose|k: int| 0 <= k < pre.len() && pre[k] == s[idx].surface;
        assert(mapped_of(s)[k] == s[idx].surface);
    }
}

/// A surface that no entry maps is absent from the enumeration.
pub proof fn lemma_mapped_absent(s: Seq<ShellSurface>, x: usize)
    requires
        forall|idx: int|
            0 <= idx < s.len() && (#[trigger] s[idx]).surface == x ==> !is_mapped_toplevel(s[idx]),
    ensures
        !mapped_of(s).contains(x),
    decreases s.len(),
{
    if s.len() > 0 {
        lemma_mapped_absent(s.drop_last(), x);
    }
}

/// Every enumerated surface belongs to some entry.
pub proof fn lemma_mapped_from_entries(s: Seq<ShellSurface>, k: int)
    requires
        0 <= k < mapped_of(s).len(),
    ensures
        exists|idx: int|
            0 <= idx < s.len() && (#[trigger] s[idx]).surface == mapped_of(s)[k]
                && is_mapped_toplevel(s[idx]),
    decreases s.len(),
{
    if s.len() > 0 {
        let pre = mapped_of(s.drop_last());
        if k < pre.len() {
            lemma_mapped_from_entries(s.drop_last(), k);
            let idx = choose|idx: int|
                0 <= idx < s.drop_last().len() && (#[trigger] s.drop_last()[idx]).surface
                    == pre[k] && is_mapped_toplevel(s.drop_last()[idx]);
            assert(s[idx].surface == mapped_of(s)[k] && is_mapped_toplevel(s[idx]));
        } else {
            assert(s[s.len() - 1].surface == mapped_of(s)[k] && is_mapped_toplevel(
                s[s.len() - 1],
            ));
        }
    }
}

impl XdgShellState {
    /// Each surface carries at most one shell role, so each appears in at
    /// most one entry.
    pub open spec fn wf(&self) -> bool {
        forall|i: int, j: int|
            0 <= i < self.surfaces@.len() && 0 <= j < self.surfaces@.len() && i != j ==> (
            #[trigger] self.surfaces@[i]).surface != (#[trigger] self.surfaces@[j]).surface
    }

    /// No shell surfaces yet.
    pub fn new() -> (s: XdgShellState)
        ensures
            s.wf(),
            s.surfaces@.len() == 0,
    {
        XdgShellState { surfaces: Vec::new() }
    }

    /// A new-toplevel request: the surface enters the lifecycle
    /// Unconfigured, at the top of the stacking order.
    pub fn new_toplevel(&mut self, surface: usize)
        requires
            old(self).wf(),
            forall|i: int|
                0 <= i < old(self).surfaces@.len() ==> (#[trigger] old(self).surfaces@[i]).surface
                    != surface,
        ensures
            final(self).wf(),
            final(self).surfaces@ == old(self).surfaces@.push(
                ShellSurface {
                    surface,
                    role: ShellRole::Toplevel,
                    state: ShellSurfaceState::Unconfigured,
                },
            ),
    {
        self.surfaces.push(
            ShellSurface {
                surface,
                role: ShellRole::Toplevel,
                state: ShellSurfaceState::Unconfigured,
            },
        );
    }

    /// A new-popup request: like a toplevel, but the role keeps the
    /// positioner snapshot the client supplied.
    pub fn new_popup(&mut self, surface: usize, positioner: PositionerState)
        requires
            old(self).wf(),
            forall|i: int|
                0 <= i < old(self).surfaces@.len() ==> (#[trigger] old(self).surfaces@[i]).surface
                    != surface,
        ensures
            final(self).wf(),
            final(self).surfaces@ == old(self).surfaces@.push(
                ShellSurface {
                    surface,
                    role: ShellRole::Popup { positioner },
                    state: ShellSurfaceState::Unconfigured,
                },
            ),
    {
        self.surfaces.push(
            ShellSurface {
                surface,
                role: ShellRole::Popup { positioner },
                state: ShellSurfaceState::Unconfigured,
            },
        );
    }

    /// A client commit: the first commit on an unconfigured shell surface
    /// maps it; any other commit leaves the lifecycle where it was. A
    /// surface with no shell role commits without shell effect.
    pub fn commit(&mut self, surface: usize)
        requires
            old(self).wf(),
        ensures
            final(self).wf(),
            final(self).surfaces@.len() == old(self).surfaces@.len(),
            forall|i: int|
                0 <= i < old(self).surfaces@.len() && (#[trigger] old(self).surfaces@[i]).surface
                    != surface ==> final(self).surfaces@[i] == old(self).surfaces@[i],
            forall|i: int|
                0 <= i < old(self).surfaces@.len() && (#[trigger] old(self).surfaces@[i]).surface
                    == surface ==> final(self).surfaces@[i] == (ShellSurface {
                    state: after_commit(old(self).surfaces@[i].state),
                    ..old(self).surfaces@[i]
                }),
    {
        let len = self.surfaces.len();
        let mut i: usize = 0;
        while i < len
            invariant
                i <= len,
                len == self.surfaces@.len(),
                old(self).surfaces@.len() == len,
                self.wf(),
                forall|j: int| i <= j < len ==> self.surfaces@[j] == old(self).surfaces@[j],
                forall|j: int|
                    0 <= j < i && (#[trigger] old(self).surfaces@[j]).surface != surface ==> self.surfaces@[j]
                        == old(self).surfaces@[j],
                forall|j: int|
                    0 <= j < i && (#[trigger] old(self).surfaces@[j]).surface == surface ==> self.surfaces@[j]
                        == (ShellSurface {
                        state: after_commit(old(self).surfaces@[j].state),
                        ..old(self).surfaces@[j]
                    }),
            decreases len - i,
        {
            if self.surfaces[i].surface == surface {
                let entry = &mut self.surfaces[i];
                if entry.state == ShellSurfaceState::Unconfigured {
                    entry.state = ShellSurfaceState::Configured;
                }
            }
            i = i + 1;
        }
    }

    /// A client destroy or unmap: the shell surface becomes Closed, and
    /// later frames omit it.
    pub fn destroy(&mut self, surface: usize)
        requires
            old(self).wf(),
        ensures
            final(self).wf(),
            final(self).surfaces@.len() == old(self).surfaces@.len(),
            forall|i: int|
                0 <= i < old(self).surfaces@.len() && (#[trigger] old(self).surfaces@[i]).surface
                    != surface ==> final(self).surfaces@[i] == old(self).surfaces@[i],
            forall|i: int|
                0 <= i < old(self).surfaces@.len() && (#[trigger] old(self).surfaces@[i]).surface
                    == surface ==> final(self).surfaces@[i] == (ShellSurface {
                    state: ShellSurfaceState::Closed,
                    ..old(self).surfaces@[i]
                }),
    {
        let len = self.surfaces.len();
        let mut i: usize = 0;
        while i < len
            invariant
                i <= len,
                len == self.surfaces@.len(),
                old(self).surfaces@.len() == len,
                self.wf(),
                forall|j: int| i <= j < len ==> self.surfaces@[j] == old(self).surfaces@[j],
                forall|j: int|
                    0 <= j < i && (#[trigger] old(self).surfaces@[j]).surface != surface ==> self.surfaces@[j]
                        == old(self).surfaces@[j],
                forall|j: int|
                    0 <= j < i && (#[trigger] old(self).surfaces@[j]).surface == surface ==> self.surfaces@[j]
                        == (ShellSurface {
                        state: ShellSurfaceState::Closed,
                        ..old(self).surfaces@[j]
                    }),
            decreases len - i,
        {
            if self.surfaces[i].surface == surface {
                let entry = &mut self.surfaces[i];
                entry.state = ShellSurfaceState::Closed;
            }
            i = i + 1;
        }
    }

    /// Enumerate the mapped toplevels for the next frame, in stacking
    /// order. The enumeration reads the state without changing it, so it is
    /// stable across ticks that change nothing.
    pub fn mapped_toplevels(&self) -> (roots: Vec<usize>)
        ensures
            roots@ == mapped_of(self.surfaces@),
    {
        let len = self.surfaces.len();
        let mut roots: Vec<usize> = Vec::new();
        let mut i: usize = 0;
        while i < len
            invariant
                i <= len,
                len == self.surfaces@.len(),
                roots@ == mapped_of(self.surfaces@.subrange(0, i as int)),
            decreases len - i,
        {
            let e = self.surfaces[i];
            proof {
                assert(self.surfaces@.subrange(0, i + 1).drop_last() =~= self.surfaces@.subrange(
                    0,
                    i as int,
                ));
                assert(self.surfaces@.subrange(0, i + 1).last() == self.surfaces@[i as int]);
            }
            if e.state == ShellSurfaceState::Configured {
                let is_toplevel = match e.role {
                    ShellRole::Toplevel => true,
                    ShellRole::Popup { .. } => false,
                };
                if is_toplevel {
                    roots.push(e.surface);
                    proof {
                        assert(roots@ =~= mapped_of(self.surfaces@.subrange(0, i + 1)));
                    }
                }
            }
            i = i + 1;
        }
        proof {
            assert(self.surfaces@.subrange(0, len as int) =~= self.surfaces@);
        }
        roots
    }
}

} // verus!
