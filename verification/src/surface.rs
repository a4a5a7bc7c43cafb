//! Client surfaces: committed state, the subsurface tree, and the queued
//! frame-done listeners together with the traversal that drains them.
//!
//! Surfaces live in one arena, identified by index. A subsurface keeps a
//! non-owning back-reference to its parent; children are listed in order on
//! the parent. Depth and shape of the tree are client-controlled and
//! untrusted, so both traversals below run an explicit work-list with a
//! visited guard instead of recursing.

use vstd::multiset::Multiset;
use vstd::prelude::*;

verus! {

/// One frame-done notification carried out of a traversal: which callback
/// fired, and the shared presentation timestamp it was given.
#[derive(Clone, Copy, PartialEq, Eq, Structural, Debug)]
pub struct FrameDone {
    pub callback: u32,
    pub time: u32,
}

/// A client surface.
pub struct Surface {
    /// Whether the surface has committed content; an uncommitted subsurface
    /// carries no state yet and its subtree is skipped by traversals.
    pub committed: bool,
    /// Non-owning back-reference to the parent surface, for tree walks only.
    pub parent: Option<usize>,
    /// Child subsurfaces, in stacking order.
    pub children: Vec<usize>,
    /// Queued frame-done listeners, in the order the client requested them.
    pub frame_callbacks: Vec<u32>,
}

/// The surface arena: a surface's identity is its index.
pub struct SurfaceMap {
    pub surfaces: Vec<Surface>,
}

/// The callbacks of `fired`, without their timestamps.
pub open spec fn fired_callbacks(fired: Seq<FrameDone>) -> Seq<u32> {
    fired.map_values(|f: FrameDone| f.callback)
}

/// The multiset of callbacks that a traversal from `olds` to `curs` has
/// drained: for every surface whose queue is now empty, all the callbacks
/// it held before. (A queue that was already empty contributes nothing.)
pub open spec fn drained_ms(olds: Seq<Surface>, curs: Seq<Surface>, n: int) -> Multiset<u32>
    decreases n,
{
    if n <= 0 {
        Multiset::empty()
    } else {
        let rest = drained_ms(olds, curs, n - 1);
        if curs[n - 1].frame_callbacks@.len() == 0 {
            rest.add(olds[n - 1].frame_callbacks@.to_multiset())
        } else {
            rest
        }
    }
}

/// Two arena states share their structure: same surfaces, and each with the
/// same committed flag, parent and children (queues may differ).
pub open spec fn same_structure(a: Seq<Surface>, b: Seq<Surface>) -> bool {
    &&& a.len() == b.len()
    &&& forall|i: int|
        0 <= i < a.len() ==> {
            &&& (#[trigger] b[i]).committed == a[i].committed
            &&& b[i].parent == a[i].parent
            &&& b[i].children@ == a[i].children@
        }
}

/// How many entries of `s` are set.
pub open spec fn count_true(s: Seq<bool>, n: int) -> int
    decreases n,
{
    if n <= 0 {
        0
    } else {
        count_true(s, n - 1) + if s[n - 1] { 1int } else { 0int }
    }
}

proof fn lemma_count_true_le(s: Seq<bool>, n: int)
    requires
        0 <= n <= s.len(),
    ensures
        0 <= count_true(s, n) <= n,
    decreases n,
{
    if n > 0 {
        lemma_count_true_le(s, n - 1);
    }
}

proof fn lemma_count_true_update(s: Seq<bool>, i: int, n: int)
    requires
        0 <= i < n <= s.len(),
        !s[i],
    ensures
        count_true(s.update(i, true), n) == count_true(s, n) + 1,
    decreases n,
{
    if i == n - 1 {
        lemma_count_true_agree(s, s.update(i, true), n - 1);
    } else {
        lemma_count_true_update(s, i, n - 1);
    }
}

proof fn lemma_count_true_agree(s1: Seq<bool>, s2: Seq<bool>, n: int)
    requires
        0 <= n <= s1.len(),
        n <= s2.len(),
        forall|j: int| 0 <= j < n ==> s1[j] == s2[j],
    ensures
        count_true(s1, n) == count_true(s2, n),
    decreases n,
{
    if n > 0 {
        lemma_count_true_agree(s1, s2, n - 1);
    }
}

proof fn lemma_drained_ms_agree(olds: Seq<Surface>, c1: Seq<Surface>, c2: Seq<Surface>, n: int)
    requires
        0 <= n <= olds.len(),
        n <= c1.len(),
        n <= c2.len(),
        forall|j: int|
            0 <= j < n ==> ((#[trigger] c1[j]).frame_callbacks@.len() == 0 <==> (
            #[trigger] c2[j]).frame_callbacks@.len() == 0),
    ensures
        drained_ms(olds, c1, n) == drained_ms(olds, c2, n),
    decreases n,
{
    if n > 0 {
        lemma_drained_ms_agree(olds, c1, c2, n - 1);
    }
}

/// Before any surface is drained, nothing has been drained: every queue that
/// is empty now was empty before, so the drained multiset is empty.
proof fn lemma_drained_ms_initial(olds: Seq<Surface>, n: int)
    requires
        0 <= n <= olds.len(),
    ensures
        drained_ms(olds, olds, n) == Multiset::<u32>::empty(),
    decreases n,
{
    broadcast use vstd::seq_lib::group_to_multiset_ensures;

    if n > 0 {
        lemma_drained_ms_initial(olds, n - 1);
        if olds[n - 1].frame_callbacks@.len() == 0 {
            let m = olds[n - 1].frame_callbacks@.to_multiset();
            assert(m.len() == 0);
            assert(Multiset::<u32>::empty().add(m) =~= Multiset::<u32>::empty());
        }
    }
}

/// Emptying the queue of one surface whose queue was not yet empty adds
/// exactly that surface's original callbacks to the drained multiset.
proof fn lemma_drained_ms_update(
    olds: Seq<Surface>,
    curs: Seq<Surface>,
    s: Surface,
    i: int,
    n: int,
)
    requires
        0 <= i < n <= olds.len(),
        n <= curs.len(),
        curs[i].frame_callbacks@.len() != 0,
        s.frame_callbacks@.len() == 0,
    ensures
        drained_ms(olds, curs.update(i, s), n) == drained_ms(olds, curs, n).add(
            olds[i].frame_callbacks@.to_multiset(),
        ),
    decreases n,
{
    let upd = curs.update(i, s);
    if i == n - 1 {
        assert(forall|j: int|
            0 <= j < n - 1 ==> ((#[trigger] upd[j]).frame_callbacks@.len() == 0 <==> (
            #[trigger] curs[j]).frame_callbacks@.len() == 0));
        lemma_drained_ms_agree(olds, upd, curs, n - 1);
    } else {
        lemma_drained_ms_update(olds, curs, s, i, n - 1);
        let a = drained_ms(olds, curs, n - 1);
        let x = olds[i].frame_callbacks@.to_multiset();
        if curs[n - 1].frame_callbacks@.len() == 0 {
            let t = olds[n - 1].frame_callbacks@.to_multiset();
            assert(a.add(x).add(t) =~= a.add(t).add(x));
        }
    }
}

/// Part of the exactly-once guarantee, stated for one surface: when a
/// traversal has emptied surface `i`'s queue, every callback that queue held
/// is accounted for in the drained multiset — it was delivered, and the
/// global multiset equation in the traversal's contract makes the delivery
/// happen exactly once.
pub proof fn lemma_drained_surface_delivered(
    olds: Seq<Surface>,
    curs: Seq<Surface>,
    i: int,
    n: int,
)
    requires
        0 <= i < n <= olds.len(),
        n <= curs.len(),
        curs[i].frame_callbacks@.len() == 0,
    ensures
        olds[i].frame_callbacks@.to_multiset().subset_of(drained_ms(olds, curs, n)),
    decreases n,
{
    let x = olds[i].frame_callbacks@.to_multiset();
    if i == n - 1 {
        assert(forall|e: u32|
            drained_ms(olds, curs, n - 1).add(x).count(e) >= x.count(e));
    } else {
        lemma_drained_surface_delivered(olds, curs, i, n - 1);
        let rest = drained_ms(olds, curs, n - 1);
        if curs[n - 1].frame_callbacks@.len() == 0 {
            let t = olds[n - 1].frame_callbacks@.to_multiset();
            assert(forall|e: u32| rest.add(t).count(e) >= rest.count(e));
        }
    }
}

/// A valid walk segment: every link on the path is a child link out of a
/// committed surface, and every step stays inside the arena.
pub open spec fn tree_path_ok(s: Seq<Surface>, path: Seq<usize>) -> bool {
    &&& path.len() > 0
    &&& forall|m: int| 0 <= m < path.len() ==> (#[trigger] path[m]) < s.len()
    &&& forall|m: int|
        0 <= m < path.len() - 1 ==> ((#[trigger] s[path[m] as int]).committed && s[path[m] as int].children@.contains(
            path[m + 1],
        ))
}

/// Whether `x` belongs to the subsurface tree of one of `roots`: a root
/// itself, or reached from one through the children of committed surfaces.
pub open spec fn reachable_from(s: Seq<Surface>, roots: Seq<usize>, x: usize) -> bool {
    exists|path: Seq<usize>|
        tree_path_ok(s, path) && roots.contains(path[0]) && path.last() == x
}

/// A mark that holds of every root and is closed under the child links of
/// committed surfaces holds of everything reachable.
proof fn lemma_path_all_marked(s: Seq<Surface>, roots: Seq<usize>, marked: Seq<bool>, path: Seq<
    usize,
>)
    requires
        marked.len() == s.len(),
        tree_path_ok(s, path),
        roots.contains(path[0]),
        forall|j: int|
            0 <= j < roots.len() ==> (#[trigger] roots[j]) < s.len() && marked[roots[j] as int],
        forall|i: int, c: int|
            0 <= i < s.len() && marked[i] && s[i].committed && 0 <= c < s[i].children@.len()
                ==> marked[(#[trigger] s[i].children@[c]) as int],
    ensures
        marked[path.last() as int],
    decreases path.len(),
{
    if path.len() == 1 {
        let j = choose|j: int| 0 <= j < roots.len() && roots[j] == path[0];
        assert(marked[roots[j] as int]);
    } else {
        let prefix = path.drop_last();
        assert(forall|m: int| 0 <= m < prefix.len() ==> prefix[m] == path[m]);
        assert(tree_path_ok(s, prefix));
        lemma_path_all_marked(s, roots, marked, prefix);
        let m = path.len() - 2;
        assert(s[path[m] as int].committed && s[path[m] as int].children@.contains(path[m + 1]));
        let c = choose|c: int|
            0 <= c < s[path[m] as int].children@.len() && s[path[m] as int].children@[c] == path[m
                + 1];
        assert(marked[(s[path[m] as int].children@[c]) as int]);
    }
}

/// A tree with no queued callbacks yields no notification at all: its
/// drained multiset is empty, so by the traversal's contract nothing is
/// delivered — the visit itself has no observable effect.
pub proof fn lemma_no_queued_no_fired(olds: Seq<Surface>, curs: Seq<Surface>, n: int)
    requires
        0 <= n <= olds.len(),
        n <= curs.len(),
        forall|i: int| 0 <= i < n ==> (#[trigger] olds[i]).frame_callbacks@.len() == 0,
    ensures
        drained_ms(olds, curs, n) == Multiset::<u32>::empty(),
    decreases n,
{
    broadcast use vstd::seq_lib::group_to_multiset_ensures;

    if n > 0 {
        lemma_no_queued_no_fired(olds, curs, n - 1);
        if curs[n - 1].frame_callbacks@.len() == 0 {
            let m = olds[n - 1].frame_callbacks@.to_multiset();
            assert(m.len() == 0);
            assert(Multiset::<u32>::empty().add(m) =~= Multiset::<u32>::empty());
        }
    }
}

impl SurfaceMap {
    /// Every child reference stays inside the arena.
    pub open spec fn wf(&self) -> bool {
        forall|i: int|
            0 <= i < self.surfaces@.len() ==> (forall|c: int|
                0 <= c < (#[trigger] self.surfaces@[i]).children@.len() ==> (
                #[trigger] self.surfaces@[i].children@[c]) < self.surfaces@.len())
    }

    /// An empty arena.
    pub fn new() -> (m: SurfaceMap)
        ensures
            m.wf(),
            m.surfaces@.len() == 0,
    {
        SurfaceMap { surfaces: Vec::new() }
    }

    /// Number of surfaces ever created.
    pub fn count(&self) -> (n: usize)
        ensures
            n == self.surfaces@.len(),
    {
        self.surfaces.len()
    }

    /// Create a surface, optionally as a subsurface of `parent`; the new
    /// surface is appended to its parent's children and its identity is
    /// returned.
    pub fn add_surface(&mut self, parent: Option<usize>) -> (id: usize)
        requires
            old(self).wf(),
            parent is Some ==> parent->0 < old(self).surfaces@.len(),
        ensures
            final(self).wf(),
            id == old(self).surfaces@.len(),
            final(self).surfaces@.len() == old(self).surfaces@.len() + 1,
            final(self).surfaces@[id as int].committed == false,
            final(self).surfaces@[id as int].parent == parent,
            final(self).surfaces@[id as int].children@.len() == 0,
            final(self).surfaces@[id as int].frame_callbacks@.len() == 0,
            forall|i: int|
                0 <= i < old(self).surfaces@.len() && (parent is Some ==> i != parent->0) ==> final(self).surfaces@[i] == old(self).surfaces@[i],
            parent matches Some(p) ==> {
                &&& final(self).surfaces@[p as int].committed == old(self).surfaces@[p as int].committed
                &&& final(self).surfaces@[p as int].parent == old(self).surfaces@[p as int].parent
                &&& final(self).surfaces@[p as int].frame_callbacks@ == old(self).surfaces@[p as int].frame_callbacks@
                &&& final(self).surfaces@[p as int].children@ == old(self).surfaces@[p as int].children@.push(id)
            },
    {
        let id = self.surfaces.len();
        self.surfaces.push(
            Surface {
                committed: false,
                parent,
                children: Vec::new(),
                frame_callbacks: Vec::new(),
            },
        );
        match parent {
            Some(p) => {
                let node = &mut self.surfaces[p];
                node.children.push(id);
            },
            None => {},
        }
        id
    }

    /// Record that surface `id` has committed content.
    pub fn set_committed(&mut self, id: usize)
        requires
            old(self).wf(),
            id < old(self).surfaces@.len(),
        ensures
            final(self).wf(),
            final(self).surfaces@.len() == old(self).surfaces@.len(),
            final(self).surfaces@[id as int].committed == true,
            final(self).surfaces@[id as int].parent == old(self).surfaces@[id as int].parent,
            final(self).surfaces@[id as int].children@ == old(self).surfaces@[id as int].children@,
            final(self).surfaces@[id as int].frame_callbacks@ == old(self).surfaces@[id as int].frame_callbacks@,
            forall|i: int|
                0 <= i < old(self).surfaces@.len() && i != id ==> final(self).surfaces@[i] == old(self).surfaces@[i],
    {
        let node = &mut self.surfaces[id];
        node.committed = true;
    }

    /// Queue one frame-done listener on surface `id`.
    pub fn queue_frame_callback(&mut self, id: usize, callback: u32)
        requires
            old(self).wf(),
            id < old(self).surfaces@.len(),
        ensures
            final(self).wf(),
            final(self).surfaces@.len() == old(self).surfaces@.len(),
            final(self).surfaces@[id as int].committed == old(self).surfaces@[id as int].committed,
            final(self).surfaces@[id as int].parent == old(self).surfaces@[id as int].parent,
            final(self).surfaces@[id as int].children@ == old(self).surfaces@[id as int].children@,
            final(self).surfaces@[id as int].frame_callbacks@ == old(self).surfaces@[id as int].frame_callbacks@.push(callback),
            forall|i: int|
                0 <= i < old(self).surfaces@.len() && i != id ==> final(self).surfaces@[i] == old(self).surfaces@[i],
    {
        let node = &mut self.surfaces[id];
        node.frame_callbacks.push(callback);
    }

    /// After a successful submission, visit every root in `roots` and its
    /// subsurface tree in pre-order, draining each visited surface's whole
    /// listener queue; a committed surface is descended into, an uncommitted
    /// one ends its subtree. Every drained listener is delivered exactly
    /// once — the returned notifications are, as a multiset, exactly the
    /// drained queues — and all of them carry the one shared timestamp
    /// `time`. A surface with an empty queue is visited without effect, and
    /// a surface the walk does not reach keeps its queue untouched for a
    /// later frame.
    pub fn drain_frame_callbacks(&mut self, roots: &Vec<usize>, time: u32) -> (fired: Vec<
        FrameDone,
    >)
        requires
            old(self).wf(),
            forall|j: int|
                0 <= j < roots@.len() ==> (#[trigger] roots@[j]) < old(self).surfaces@.len(),
        ensures
            final(self).wf(),
            same_structure(old(self).surfaces@, final(self).surfaces@),
            forall|i: int|
                0 <= i < final(self).surfaces@.len() ==> {
                    ||| (#[trigger] final(self).surfaces@[i]).frame_callbacks@.len() == 0
                    ||| final(self).surfaces@[i].frame_callbacks@ == old(
                        self,
                    ).surfaces@[i].frame_callbacks@
                },
            forall|j: int|
                0 <= j < roots@.len() ==> final(self).surfaces@[#[trigger] roots@[j] as int].frame_callbacks@.len()
                    == 0,
            forall|x: usize|
                reachable_from(final(self).surfaces@, roots@, x) ==> final(self).surfaces@[x as int].frame_callbacks@.len()
                    == 0,
            forall|k: int| 0 <= k < fired@.len() ==> (#[trigger] fired@[k]).time == time,
            fired_callbacks(fired@).to_multiset() == drained_ms(
                old(self).surfaces@,
                final(self).surfaces@,
                old(self).surfaces@.len() as int,
            ),
    {
        let ghost olds = self.surfaces@;
        let n = self.surfaces.len();
        let mut fired: Vec<FrameDone> = Vec::new();
        let mut visited: Vec<bool> = Vec::new();
        let mut stack: Vec<usize> = Vec::new();
        while visited.len() < n
            invariant
                visited@.len() <= n,
                forall|i: int| 0 <= i < visited@.len() ==> !(#[trigger] visited@[i]),
            decreases n - visited@.len(),
        {
            visited.push(false);
        }
        proof {
            broadcast use vstd::seq_lib::group_to_multiset_ensures;

            lemma_drained_ms_initial(olds, n as int);
            lemma_count_true_all_false(visited@, n as int);
            assert(fired_callbacks(fired@).to_multiset() =~= Multiset::<u32>::empty());
        }
        let mut j: usize = roots.len();
        while j > 0
            invariant
                j <= roots@.len(),
                forall|j2: int|
                    j <= j2 < roots@.len() ==> stack@.contains(#[trigger] roots@[j2]),
                forall|s: int| 0 <= s < stack@.len() ==> (#[trigger] stack@[s]) < n,
                forall|j2: int| 0 <= j2 < roots@.len() ==> (#[trigger] roots@[j2]) < n,
            decreases j,
        {
            j = j - 1;
            let ghost stack_prev = stack@;
            stack.push(roots[j]);
            proof {
                assert(forall|j2: int|
                    j + 1 <= j2 < roots@.len() ==> stack@.contains(#[trigger] roots@[j2])) by {
                    assert(forall|m: int| 0 <= m < stack_prev.len() ==> stack@[m] == stack_prev[m]);
                    assert(forall|j2: int|
                        j + 1 <= j2 < roots@.len() && stack_prev.contains(#[trigger] roots@[j2])
                            ==> stack@.contains(roots@[j2]));
                }
                assert(stack@.last() == roots@[j as int]);
                assert(stack@.contains(roots@[j as int]));
            }
        }
        while stack.len() > 0
            invariant
                olds == old(self).surfaces@,
                olds.len() == n,
                self.surfaces@.len() == n,
                visited@.len() == n,
                self.wf(),
                same_structure(olds, self.surfaces@),
                0 <= count_true(visited@, n as int) <= n,
                forall|s: int| 0 <= s < stack@.len() ==> (#[trigger] stack@[s]) < n,
                forall|i: int|
                    0 <= i < n ==> (visited@[i] ==> (
                    #[trigger] self.surfaces@[i]).frame_callbacks@.len() == 0),
                forall|i: int|
                    0 <= i < n ==> (!visited@[i] ==> (#[trigger] self.surfaces@[i]).frame_callbacks@
                        == olds[i].frame_callbacks@),
                forall|j2: int|
                    0 <= j2 < roots@.len() ==> (stack@.contains(#[trigger] roots@[j2])
                        || visited@[roots@[j2] as int]),
                forall|j2: int| 0 <= j2 < roots@.len() ==> (#[trigger] roots@[j2]) < n,
                forall|i2: int, c: int|
                    0 <= i2 < n && visited@[i2] && self.surfaces@[i2].committed && 0 <= c
                        < self.surfaces@[i2].children@.len() ==> (visited@[(
                    #[trigger] self.surfaces@[i2].children@[c]) as int] || stack@.contains(
                        self.surfaces@[i2].children@[c],
                    )),
                forall|k: int| 0 <= k < fired@.len() ==> (#[trigger] fired@[k]).time == time,
                fired_callbacks(fired@).to_multiset() == drained_ms(olds, self.surfaces@, n as int),
            decreases n - count_true(visited@, n as int), stack@.len(),
        {
            let ghost stack_prev = stack@;
            let i = stack.pop().unwrap();
            proof {
                assert(forall|y: usize|
                    y != i && #[trigger] stack_prev.contains(y) ==> stack@.contains(y)) by {
                    assert(forall|y: usize|
                        y != i && #[trigger] stack_prev.contains(y) ==> {
                            let m = choose|m: int|
                                0 <= m < stack_prev.len() && stack_prev[m] == y;
                            0 <= m < stack@.len() && stack@[m] == y
                        });
                }
            }
            if !visited[i] {
                let cbs_len = self.surfaces[i].frame_callbacks.len();
                if cbs_len > 0 {
                    let ghost base = fired@;
                    let ghost cbs = self.surfaces@[i as int].frame_callbacks@;
                    proof {
                        broadcast use vstd::seq_lib::group_to_multiset_ensures;

                        assert(cbs.subrange(0, 0).to_multiset() =~= Multiset::<u32>::empty());
                        assert(fired_callbacks(base).to_multiset().add(
                            cbs.subrange(0, 0).to_multiset(),
                        ) =~= fired_callbacks(base).to_multiset());
                    }
                    let mut k: usize = 0;
                    while k < cbs_len
                        invariant
                            k <= cbs_len,
                            i < n,
                            self.surfaces@.len() == n,
                            cbs == self.surfaces@[i as int].frame_callbacks@,
                            cbs_len == cbs.len(),
                            forall|k2: int|
                                0 <= k2 < fired@.len() ==> (#[trigger] fired@[k2]).time == time,
                            fired_callbacks(fired@).to_multiset() == fired_callbacks(
                                base,
                            ).to_multiset().add(cbs.subrange(0, k as int).to_multiset()),
                        decreases cbs_len - k,
                    {
                        let cb = self.surfaces[i].frame_callbacks[k];
                        let ghost fired_prev = fired@;
                        fired.push(FrameDone { callback: cb, time });
                        proof {
                            broadcast use vstd::seq_lib::group_to_multiset_ensures;

                            assert(fired_callbacks(fired@) =~= fired_callbacks(fired_prev).push(
                                cb,
                            ));
                            assert(cbs.subrange(0, k + 1) =~= cbs.subrange(0, k as int).push(
                                cbs[k as int],
                            ));
                            assert(fired_callbacks(base).to_multiset().add(
                                cbs.subrange(0, k as int).to_multiset().insert(cb),
                            ) =~= fired_callbacks(base).to_multiset().add(
                                cbs.subrange(0, k as int).to_multiset(),
                            ).insert(cb));
                        }
                        k = k + 1;
                    }
                    proof {
                        assert(cbs.subrange(0, cbs_len as int) =~= cbs);
                    }
                    let ghost before = self.surfaces@;
                    let node = &mut self.surfaces[i];
                    node.frame_callbacks.clear();
                    proof {
                        lemma_drained_ms_update(
                            olds,
                            before,
                            self.surfaces@[i as int],
                            i as int,
                            n as int,
                        );
                        assert(fired_callbacks(fired@).to_multiset() == drained_ms(
                            olds,
                            self.surfaces@,
                            n as int,
                        ));
                    }
                }
                let ghost visited_prev = visited@;
                let flag = &mut visited[i];
                *flag = true;
                proof {
                    lemma_count_true_update(visited_prev, i as int, n as int);
                    lemma_count_true_le(visited@, n as int);
                }
                if self.surfaces[i].committed {
                    let clen = self.surfaces[i].children.len();
                    let mut k: usize = 0;
                    while k < clen
                        invariant
                            k <= clen,
                            i < n,
                            self.surfaces@.len() == n,
                            visited@.len() == n,
                            self.wf(),
                            clen == self.surfaces@[i as int].children@.len(),
                            visited@[i as int],
                            forall|s: int| 0 <= s < stack@.len() ==> (#[trigger] stack@[s]) < n,
                            forall|j2: int|
                                0 <= j2 < roots@.len() ==> (stack@.contains(#[trigger] roots@[j2])
                                    || visited@[roots@[j2] as int]),
                            forall|j2: int| 0 <= j2 < roots@.len() ==> (#[trigger] roots@[j2]) < n,
                            forall|i2: int, c2: int|
                                0 <= i2 < n && i2 != i && visited@[i2]
                                    && self.surfaces@[i2].committed && 0 <= c2
                                    < self.surfaces@[i2].children@.len() ==> (visited@[(
                                #[trigger] self.surfaces@[i2].children@[c2]) as int]
                                    || stack@.contains(self.surfaces@[i2].children@[c2])),
                            forall|c2: int|
                                clen - k <= c2 < clen ==> stack@.contains(
                                    #[trigger] self.surfaces@[i as int].children@[c2],
                                ),
                        decreases clen - k,
                    {
                        let c = self.surfaces[i].children[clen - 1 - k];
                        let ghost stack_mid = stack@;
                        stack.push(c);
                        proof {
                            assert(forall|m: int|
                                0 <= m < stack_mid.len() ==> stack@[m] == stack_mid[m]);
                            assert(forall|y: usize|
                                #[trigger] stack_mid.contains(y) ==> stack@.contains(y)) by {
                                assert(forall|y: usize|
                                    #[trigger] stack_mid.contains(y) ==> {
                                        let m = choose|m: int|
                                            0 <= m < stack_mid.len() && stack_mid[m] == y;
                                        0 <= m < stack@.len() && stack@[m] == y
                                    });
                            }
                            assert(stack@.last() == self.surfaces@[i as int].children@[clen - 1
                                - k]);
                            assert(stack@.contains(self.surfaces@[i as int].children@[clen - 1
                                - k]));
                        }
                        k = k + 1;
                    }
                }
            }
        }
        proof {
            assert(forall|j2: int|
                0 <= j2 < roots@.len() ==> visited@[#[trigger] roots@[j2] as int]);
            assert forall|x: usize|
                reachable_from(self.surfaces@, roots@, x) implies self.surfaces@[x as int].frame_callbacks@.len()
                == 0 by {
                let path = choose|path: Seq<usize>|
                    tree_path_ok(self.surfaces@, path) && roots@.contains(path[0]) && path.last()
                        == x;
                lemma_path_all_marked(self.surfaces@, roots@, visited@, path);
                assert(visited@[x as int]);
            }
        }
        fired
    }

    /// Flatten the subtrees of `roots` into the render-element list for one
    /// frame: a pre-order walk that descends through committed surfaces and
    /// stops a subtree at an uncommitted one. Every root appears, nothing
    /// appears twice, everything that appears is a root or was reached
    /// through the children of an earlier, committed element, and the list
    /// is closed downward: every child of a committed element is itself an
    /// element, so the whole committed subtree of each root is drawn.
    pub fn flatten_tree(&self, roots: &Vec<usize>) -> (elements: Vec<usize>)
        requires
            self.wf(),
            forall|j: int|
                0 <= j < roots@.len() ==> (#[trigger] roots@[j]) < self.surfaces@.len(),
        ensures
            forall|k: int|
                0 <= k < elements@.len() ==> (#[trigger] elements@[k]) < self.surfaces@.len(),
            forall|j: int| 0 <= j < roots@.len() ==> elements@.contains(#[trigger] roots@[j]),
            elements@.no_duplicates(),
            forall|k: int|
                0 <= k < elements@.len() ==> (roots@.contains(#[trigger] elements@[k]) || exists|
                    j: int,
                |
                    0 <= j < k && (#[trigger] self.surfaces@[elements@[j] as int].committed)
                        && self.surfaces@[elements@[j] as int].children@.contains(elements@[k])),
            forall|k: int, c: int|
                0 <= k < elements@.len() && self.surfaces@[elements@[k] as int].committed && 0 <= c
                    < self.surfaces@[elements@[k] as int].children@.len() ==> elements@.contains(
                    #[trigger] self.surfaces@[elements@[k] as int].children@[c],
                ),
    {
        let n = self.surfaces.len();
        let mut elements: Vec<usize> = Vec::new();
        let mut visited: Vec<bool> = Vec::new();
        let mut stack: Vec<usize> = Vec::new();
        while visited.len() < n
            invariant
                visited@.len() <= n,
                forall|i: int| 0 <= i < visited@.len() ==> !(#[trigger] visited@[i]),
            decreases n - visited@.len(),
        {
            visited.push(false);
        }
        proof {
            lemma_count_true_all_false(visited@, n as int);
        }
        let mut j: usize = roots.len();
        while j > 0
            invariant
                j <= roots@.len(),
                forall|j2: int| j <= j2 < roots@.len() ==> stack@.contains(#[trigger] roots@[j2]),
                forall|s: int| 0 <= s < stack@.len() ==> roots@.contains(#[trigger] stack@[s]),
                forall|j2: int| 0 <= j2 < roots@.len() ==> (#[trigger] roots@[j2]) < n,
            decreases j,
        {
            j = j - 1;
            let ghost stack_prev = stack@;
            stack.push(roots[j]);
            proof {
                assert(forall|m: int| 0 <= m < stack_prev.len() ==> stack@[m] == stack_prev[m]);
                assert(forall|j2: int|
                    j + 1 <= j2 < roots@.len() && stack_prev.contains(#[trigger] roots@[j2])
                        ==> stack@.contains(roots@[j2]));
                assert(stack@.last() == roots@[j as int]);
                assert(stack@.contains(roots@[j as int]));
            }
        }
        while stack.len() > 0
            invariant
                self.surfaces@.len() == n,
                self.wf(),
                visited@.len() == n,
                0 <= count_true(visited@, n as int) <= n,
                forall|s: int| 0 <= s < stack@.len() ==> (#[trigger] stack@[s]) < n,
                forall|j2: int| 0 <= j2 < roots@.len() ==> (#[trigger] roots@[j2]) < n,
                forall|j2: int|
                    0 <= j2 < roots@.len() ==> (stack@.contains(#[trigger] roots@[j2])
                        || visited@[roots@[j2] as int]),
                forall|i: int|
                    0 <= i < n ==> ((#[trigger] visited@[i]) ==> elements@.contains(i as usize)),
                forall|k: int|
                    0 <= k < elements@.len() ==> visited@[(#[trigger] elements@[k]) as int],
                forall|k: int| 0 <= k < elements@.len() ==> (#[trigger] elements@[k]) < n,
                forall|k1: int, k2: int|
                    0 <= k1 < elements@.len() && 0 <= k2 < elements@.len() && k1 != k2 ==> (
                    #[trigger] elements@[k1]) != (#[trigger] elements@[k2]),
                forall|k: int|
                    0 <= k < elements@.len() ==> (roots@.contains(#[trigger] elements@[k])
                        || exists|j2: int|
                        0 <= j2 < k && (#[trigger] self.surfaces@[elements@[j2] as int].committed)
                            && self.surfaces@[elements@[j2] as int].children@.contains(
                            elements@[k],
                        )),
                forall|s: int|
                    0 <= s < stack@.len() ==> (roots@.contains(#[trigger] stack@[s]) || exists|
                        j2: int,
                    |
                        0 <= j2 < elements@.len() && (
                        #[trigger] self.surfaces@[elements@[j2] as int].committed)
                            && self.surfaces@[elements@[j2] as int].children@.contains(stack@[s])),
                forall|k: int, c: int|
                    0 <= k < elements@.len() && self.surfaces@[elements@[k] as int].committed && 0
                        <= c < self.surfaces@[elements@[k] as int].children@.len() ==> (
                    elements@.contains(
                        #[trigger] self.surfaces@[elements@[k] as int].children@[c],
                    ) || stack@.contains(self.surfaces@[elements@[k] as int].children@[c])),
            decreases n - count_true(visited@, n as int), stack@.len(),
        {
            let ghost stack_prev = stack@;
            let i = stack.pop().unwrap();
            proof {
                assert(forall|y: usize|
                    y != i && #[trigger] stack_prev.contains(y) ==> stack@.contains(y)) by {
                    assert(forall|y: usize|
                        y != i && #[trigger] stack_prev.contains(y) ==> {
                            let m = choose|m: int|
                                0 <= m < stack_prev.len() && stack_prev[m] == y;
                            0 <= m < stack@.len() && stack@[m] == y
                        });
                }
            }
            if !visited[i] {
                let ghost visited_prev = visited@;
                let flag = &mut visited[i];
                *flag = true;
                proof {
                    lemma_count_true_update(visited_prev, i as int, n as int);
                    lemma_count_true_le(visited@, n as int);
                }
                let ghost elements_prev = elements@;
                elements.push(i);
                proof {
                    assert(forall|m: int|
                        0 <= m < elements_prev.len() ==> elements@[m] == elements_prev[m]);
                    assert(forall|x: usize|
                        #[trigger] elements_prev.contains(x) ==> elements@.contains(x));
                    assert(elements@.last() == i);
                    assert(elements@.contains(i));
                }
                if self.surfaces[i].committed {
                    let clen = self.surfaces[i].children.len();
                    let mut k: usize = 0;
                    while k < clen
                        invariant
                            k <= clen,
                            i < n,
                            self.surfaces@.len() == n,
                            visited@.len() == n,
                            self.wf(),
                            clen == self.surfaces@[i as int].children@.len(),
                            elements@.len() > 0,
                            elements@.last() == i,
                            self.surfaces@[i as int].committed,
                            forall|s: int| 0 <= s < stack@.len() ==> (#[trigger] stack@[s]) < n,
                            forall|j2: int| 0 <= j2 < roots@.len() ==> (#[trigger] roots@[j2]) < n,
                            forall|j2: int|
                                0 <= j2 < roots@.len() ==> (stack@.contains(#[trigger] roots@[j2])
                                    || visited@[roots@[j2] as int]),
                            forall|s: int|
                                0 <= s < stack@.len() ==> (roots@.contains(#[trigger] stack@[s])
                                    || exists|j2: int|
                                    0 <= j2 < elements@.len() && (
                                    #[trigger] self.surfaces@[elements@[j2] as int].committed)
                                        && self.surfaces@[elements@[j2] as int].children@.contains(
                                        stack@[s],
                                    )),
                            forall|k2: int, c2: int|
                                0 <= k2 < elements@.len() - 1
                                    && self.surfaces@[elements@[k2] as int].committed && 0 <= c2
                                    < self.surfaces@[elements@[k2] as int].children@.len() ==> (
                            elements@.contains(
                                    #[trigger] self.surfaces@[elements@[k2] as int].children@[c2],
                                ) || stack@.contains(
                                    self.surfaces@[elements@[k2] as int].children@[c2],
                                )),
                            forall|c2: int|
                                clen - k <= c2 < clen ==> stack@.contains(
                                    #[trigger] self.surfaces@[i as int].children@[c2],
                                ),
                        decreases clen - k,
                    {
                        let c = self.surfaces[i].children[clen - 1 - k];
                        let ghost stack_mid = stack@;
                        stack.push(c);
                        proof {
                            assert(forall|m: int|
                                0 <= m < stack_mid.len() ==> stack@[m] == stack_mid[m]);
                            assert(forall|y: usize|
                                #[trigger] stack_mid.contains(y) ==> stack@.contains(y)) by {
                                assert(forall|y: usize|
                                    #[trigger] stack_mid.contains(y) ==> {
                                        let m = choose|m: int|
                                            0 <= m < stack_mid.len() && stack_mid[m] == y;
                                        0 <= m < stack@.len() && stack@[m] == y
                                    });
                            }
                            assert(self.surfaces@[elements@[elements@.len() - 1] as int].children@.contains(
                                c,
                            ));
                            assert(stack@.last() == self.surfaces@[i as int].children@[clen - 1
                                - k]);
                            assert(stack@.contains(self.surfaces@[i as int].children@[clen - 1
                                - k]));
                        }
                        k = k + 1;
                    }
                }
            }
            proof {
                assert(visited@[i as int] ==> elements@.contains(i));
            }
        }
        proof {
            assert(forall|j2: int|
                0 <= j2 < roots@.len() ==> visited@[#[trigger] roots@[j2] as int]);
        }
        elements
    }
}

/// A sequence with no entry set has no entry counted.
proof fn lemma_count_true_all_false(s: Seq<bool>, n: int)
    requires
        0 <= n <= s.len(),
        forall|i: int| 0 <= i < n ==> !(#[trigger] s[i]),
    ensures
        count_true(s, n) == 0,
    decreases n,
{
    if n > 0 {
        lemma_count_true_all_false(s, n - 1);
    }
}

} // verus!
