//! Killing a process together with its descendants: each child is killed
//! after its own descendants, the parent last. A failure to kill a child
//! ends the walk through that child's parent, whose own result is then not
//! looked at by its parent in turn; a failure at the top ends the walk.
//!
//! The walk asks for one kill at a time and is told whether it worked;
//! sending the signals is the caller's work.

use vstd::prelude::*;
use crate::procinfo::{ProcessInfo, ProcessView, views};

verus! {

/// The PIDs of the processes of `tree` (pairs of a PID and its parent's)
/// whose parent is `pid`, in list order.
pub open spec fn children_in(tree: Seq<(u32, Option<u32>)>, pid: u32) -> Seq<u32>
    decreases tree.len(),
{
    if tree.len() == 0 {
        seq![]
    } else {
        let rest = children_in(tree.drop_last(), pid);
        if tree.last().1 == Some(pid) {
            rest.push(tree.last().0)
        } else {
            rest
        }
    }
}

/// `path` runs from `root` down the tree: each PID after the first is a
/// child of the one before.
pub open spec fn tree_path(tree: Seq<(u32, Option<u32>)>, root: u32, path: Seq<u32>) -> bool {
    &&& path.len() > 0
    &&& path[0] == root
    &&& forall|k: int| 0 <= k < path.len() - 1 ==> children_in(tree, path[k]).contains(#[trigger] path[k + 1])
}

/// `x` is `root` or one of its descendants.
pub open spec fn in_subtree(tree: Seq<(u32, Option<u32>)>, root: u32, x: u32) -> bool {
    exists|path: Seq<u32>| tree_path(tree, root, path) && path.last() == x
}

/// One process being walked: its children, how many of them are done, and
/// whether the next of them is about to be killed (its own descendants
/// having been walked).
pub struct WalkFrame {
    pub pid: u32,
    pub children: Vec<u32>,
    pub next: usize,
    pub killing: bool,
    pub killed: Vec<u32>,
}

pub struct FrameView {
    pub pid: u32,
    pub children: Seq<u32>,
    pub next: nat,
    pub killing: bool,
    pub killed: Seq<u32>,
}

pub open spec fn frame_view(f: WalkFrame) -> FrameView {
    FrameView { pid: f.pid, children: f.children@, next: f.next as nat, killing: f.killing, killed: f.killed@ }
}

pub open spec fn frame_views(v: Seq<WalkFrame>) -> Seq<FrameView> {
    v.map_values(|f: WalkFrame| frame_view(f))
}

/// What the caller does next.
#[derive(Debug)]
pub enum WalkAction {
    /// Kill this process, then `answer` whether that worked.
    Kill(u32),
    /// Nothing to do: `advance` again.
    Continue,
    /// The walk is over: the processes killed, in order, or `None` when it
    /// failed (the last kill's failure is the walk's).
    Finished(Option<Vec<u32>>),
}

pub enum ActionView {
    Kill(u32),
    Continue,
    Finished(Option<Seq<u32>>),
}

pub open spec fn action_view(a: WalkAction) -> ActionView {
    match a {
        WalkAction::Kill(p) => ActionView::Kill(p),
        WalkAction::Continue => ActionView::Continue,
        WalkAction::Finished(r) => ActionView::Finished(
            match r {
                Some(v) => Some(v@),
                None => None,
            },
        ),
    }
}

/// A walk through the descendants of `root` in a snapshot of the process
/// list (each process as its PID and its parent's).
pub struct KillTreeWalk {
    tree: Vec<(u32, Option<u32>)>,
    root: u32,
    frames: Vec<WalkFrame>,
    awaiting: bool,
}

/// A frame for `pid`, nothing done yet.
pub open spec fn fresh(tree: Seq<(u32, Option<u32>)>, pid: u32) -> FrameView {
    FrameView { pid, children: children_in(tree, pid), next: 0, killing: false, killed: seq![] }
}

/// The frames left once the top one ended with `result` (its parent does
/// not look at it; the walk ends with it when it was the last).
pub open spec fn ended(rest: Seq<FrameView>, result: Option<Seq<u32>>) -> (Seq<FrameView>, ActionView) {
    if rest.len() == 0 {
        (rest, ActionView::Finished(result))
    } else {
        (rest, ActionView::Continue)
    }
}

/// The frames and action after advancing (no kill being awaited).
pub open spec fn advanced(tree: Seq<(u32, Option<u32>)>, frames: Seq<FrameView>) -> (Seq<FrameView>, ActionView) {
    if frames.len() == 0 {
        (frames, ActionView::Finished(None))
    } else {
        let f = frames.last();
        if f.next < f.children.len() {
            let c = f.children[f.next as int];
            if !f.killing && children_in(tree, c).len() > 0 {
                (
                    frames.drop_last().push(FrameView { killing: true, ..f }).push(fresh(tree, c)),
                    ActionView::Continue,
                )
            } else {
                (frames.drop_last().push(FrameView { killing: true, ..f }), ActionView::Kill(c))
            }
        } else {
            (frames, ActionView::Kill(f.pid))
        }
    }
}

/// The frames and action after the awaited kill worked (`ok`) or failed.
pub open spec fn answered(frames: Seq<FrameView>, ok: bool) -> (Seq<FrameView>, ActionView) {
    if frames.len() == 0 {
        (frames, ActionView::Finished(None))
    } else {
        let f = frames.last();
        if f.next < f.children.len() {
            if ok {
                (
                    frames.drop_last().push(
                        FrameView {
                            killed: f.killed.push(f.children[f.next as int]),
                            next: f.next + 1,
                            killing: false,
                            ..f
                        },
                    ),
                    ActionView::Continue,
                )
            } else {
                ended(frames.drop_last(), None)
            }
        } else if ok {
            ended(frames.drop_last(), Some(f.killed.push(f.pid)))
        } else {
            ended(frames.drop_last(), None)
        }
    }
}

/// The frames follow a path down from the root: each is the child that its
/// parent frame is at, and each knows its own children.
pub open spec fn well_formed_frames(tree: Seq<(u32, Option<u32>)>, root: u32, frames: Seq<FrameView>) -> bool {
    &&& frames.len() > 0 ==> frames[0].pid == root
    &&& forall|i: int| 0 <= i < frames.len() ==> (#[trigger] frames[i]).children == children_in(tree, frames[i].pid)
    &&& forall|i: int| 0 <= i < frames.len() ==> (#[trigger] frames[i]).next <= frames[i].children.len()
    &&& forall|i: int|
        0 <= i < frames.len() - 1 ==> (#[trigger] frames[i]).next < frames[i].children.len() && frames[i
            + 1].pid == frames[i].children[frames[i].next as int]
}

impl KillTreeWalk {
    #[verifier::type_invariant]
    spec fn wf(self) -> bool {
        well_formed_frames(self.tree@, self.root, frame_views(self.frames@))
    }

    pub closed spec fn spec_tree(&self) -> Seq<(u32, Option<u32>)> {
        self.tree@
    }

    pub closed spec fn spec_root(&self) -> u32 {
        self.root
    }

    pub closed spec fn spec_frames(&self) -> Seq<FrameView> {
        frame_views(self.frames@)
    }

    pub closed spec fn spec_awaiting(&self) -> bool {
        self.awaiting
    }

    /// A walk through `pid` and its descendants among `processes`.
    pub fn start(processes: &[ProcessInfo], pid: u32) -> (w: Self)
        ensures
            w.spec_tree() == tree_of(views(processes@)),
            w.spec_root() == pid,
            w.spec_frames() == seq![fresh(w.spec_tree(), pid)],
            !w.spec_awaiting(),
            well_formed_frames(w.spec_tree(), w.spec_root(), w.spec_frames()),
    {
        let tree = tree_snapshot(processes);
        let children = children_exec(&tree, pid);
        let frame = WalkFrame { pid, children, next: 0, killing: false, killed: Vec::new() };
        let mut frames: Vec<WalkFrame> = Vec::new();
        frames.push(frame);
        proof {
            assert(frame_views(frames@) =~= seq![fresh(tree@, pid)]);
            assert(frame_views(frames@)[0] == fresh(tree@, pid));
        }
        KillTreeWalk { tree, root: pid, frames, awaiting: false }
    }

    /// The next step of the walk when no kill is awaited (see `advanced`);
    /// while one is awaited, it is asked for again.
    pub fn advance(&mut self) -> (res: WalkAction)
        ensures
            final(self).spec_tree() == old(self).spec_tree(),
            final(self).spec_root() == old(self).spec_root(),
            !old(self).spec_awaiting() ==> (final(self).spec_frames(), action_view(res)) == advanced(
                old(self).spec_tree(),
                old(self).spec_frames(),
            ),
            final(self).spec_awaiting() == (res is Kill),
            well_formed_frames(final(self).spec_tree(), final(self).spec_root(), final(self).spec_frames()),
    {
        proof {
            use_type_invariant(&*self);
        }
        let ghost tv = self.tree@;
        let ghost fv = frame_views(self.frames@);
        let n = self.frames.len();
        if n == 0 {
            self.awaiting = false;
            return WalkAction::Finished(None);
        }
        let mut frames: Vec<WalkFrame> = Vec::new();
        std::mem::swap(&mut frames, &mut self.frames);
        let top = frames.pop().unwrap();
        proof {
            assert(frame_views(frames@) =~= fv.drop_last());
            assert(frame_view(top) == fv.last());
        }
        if self.awaiting {
            let target = if top.next < top.children.len() { top.children[top.next] } else { top.pid };
            frames.push(top);
            proof {
                assert(frame_views(frames@) =~= fv);
            }
            self.frames = frames;
            return WalkAction::Kill(target);
        }
        if top.next < top.children.len() {
            let c = top.children[top.next];
            let grandchildren = children_exec(&self.tree, c);
            let mut top = top;
            let was_killing = top.killing;
            top.killing = true;
            if !was_killing && grandchildren.len() > 0 {
                frames.push(top);
                frames.push(WalkFrame { pid: c, children: grandchildren, next: 0, killing: false, killed: Vec::new() });
                proof {
                    assert(frame_views(frames@) =~= fv.drop_last().push(FrameView { killing: true, ..fv.last() }).push(
                        fresh(tv, c),
                    ));
                    lemma_advance_keeps_well_formed(tv, self.root, fv);
                }
                self.frames = frames;
                self.awaiting = false;
                WalkAction::Continue
            } else {
                frames.push(top);
                proof {
                    assert(frame_views(frames@) =~= fv.drop_last().push(FrameView { killing: true, ..fv.last() }));
                    lemma_advance_keeps_well_formed(tv, self.root, fv);
                }
                self.frames = frames;
                self.awaiting = true;
                WalkAction::Kill(c)
            }
        } else {
            let pid = top.pid;
            frames.push(top);
            proof {
                assert(frame_views(frames@) =~= fv);
            }
            self.frames = frames;
            self.awaiting = true;
            WalkAction::Kill(pid)
        }
    }

    /// Whether the awaited kill worked (see `answered`); without one awaited,
    /// nothing changes.
    pub fn answer(&mut self, ok: bool) -> (res: WalkAction)
        ensures
            final(self).spec_tree() == old(self).spec_tree(),
            final(self).spec_root() == old(self).spec_root(),
            old(self).spec_awaiting() ==> (final(self).spec_frames(), action_view(res)) == answered(
                old(self).spec_frames(),
                ok,
            ),
            !old(self).spec_awaiting() ==> final(self).spec_frames() == old(self).spec_frames() && res is Continue,
            !final(self).spec_awaiting(),
            well_formed_frames(final(self).spec_tree(), final(self).spec_root(), final(self).spec_frames()),
    {
        proof {
            use_type_invariant(&*self);
        }
        if !self.awaiting {
            return WalkAction::Continue;
        }
        self.awaiting = false;
        let ghost tv = self.tree@;
        let ghost fv = frame_views(self.frames@);
        let n = self.frames.len();
        if n == 0 {
            return WalkAction::Finished(None);
        }
        let mut frames: Vec<WalkFrame> = Vec::new();
        std::mem::swap(&mut frames, &mut self.frames);
        let top = frames.pop().unwrap();
        proof {
            assert(frame_views(frames@) =~= fv.drop_last());
            assert(frame_view(top) == fv.last());
            lemma_answer_keeps_well_formed(tv, self.root, fv, ok);
        }
        if top.next < top.children.len() {
            if ok {
                let mut top = top;
                let c = top.children[top.next];
                top.killed.push(c);
                top.next = top.next + 1;
                top.killing = false;
                frames.push(top);
                proof {
                    assert(frame_views(frames@) =~= answered(fv, ok).0);
                }
                self.frames = frames;
                WalkAction::Continue
            } else {
                let last = frames.len() == 0;
                self.frames = frames;
                if last {
                    WalkAction::Finished(None)
                } else {
                    WalkAction::Continue
                }
            }
        } else {
            let last = frames.len() == 0;
            self.frames = frames;
            if !ok {
                if last {
                    WalkAction::Finished(None)
                } else {
                    WalkAction::Continue
                }
            } else if last {
                let mut killed = top.killed;
                killed.push(top.pid);
                WalkAction::Finished(Some(killed))
            } else {
                WalkAction::Continue
            }
        }
    }
}

/// The snapshot of a process list: each process's PID and its parent's.
pub open spec fn tree_of(ps: Seq<ProcessView>) -> Seq<(u32, Option<u32>)> {
    ps.map_values(|p: ProcessView| (p.pid, p.parent_pid))
}

fn tree_snapshot(processes: &[ProcessInfo]) -> (res: Vec<(u32, Option<u32>)>)
    ensures
        res@ == tree_of(views(processes@)),
{
    let mut res: Vec<(u32, Option<u32>)> = Vec::new();
    let mut i: usize = 0;
    while i < processes.len()
        invariant
            i <= processes.len(),
            res@ == tree_of(views(processes@)).take(i as int),
        decreases processes.len() - i,
    {
        res.push((processes[i].pid, processes[i].parent_pid));
        assert(res@ =~= tree_of(views(processes@)).take(i + 1));
        i += 1;
    }
    assert(tree_of(views(processes@)).take(processes.len() as int) =~= tree_of(views(processes@)));
    res
}

fn children_exec(tree: &Vec<(u32, Option<u32>)>, pid: u32) -> (res: Vec<u32>)
    ensures
        res@ == children_in(tree@, pid),
{
    let mut res: Vec<u32> = Vec::new();
    let mut i: usize = 0;
    while i < tree.len()
        invariant
            i <= tree.len(),
            res@ == children_in(tree@.take(i as int), pid),
        decreases tree.len() - i,
    {
        assert(tree@.take(i + 1).drop_last() =~= tree@.take(i as int));
        if tree[i].1 == Some(pid) {
            res.push(tree[i].0);
        }
        i += 1;
    }
    assert(tree@.take(tree.len() as int) =~= tree@);
    res
}

proof fn lemma_advance_keeps_well_formed(tree: Seq<(u32, Option<u32>)>, root: u32, frames: Seq<FrameView>)
    requires
        well_formed_frames(tree, root, frames),
    ensures
        well_formed_frames(tree, root, advanced(tree, frames).0),
{
    if frames.len() > 0 {
        let f = frames.last();
        let out = advanced(tree, frames).0;
        assert forall|i: int| 0 <= i < out.len() implies (#[trigger] out[i]).children == children_in(
            tree,
            out[i].pid,
        ) && out[i].next <= out[i].children.len() by {
            if i < frames.len() - 1 {
                assert(out[i] == frames[i]);
            } else if i == frames.len() - 1 {
                assert(out[i].pid == f.pid && out[i].children == f.children && out[i].next == f.next);
            }
        }
        assert forall|i: int| 0 <= i < out.len() - 1 implies (#[trigger] out[i]).next < out[i].children.len()
            && out[i + 1].pid == out[i].children[out[i].next as int] by {
            if i < frames.len() - 2 {
                assert(out[i] == frames[i] && out[i + 1] == frames[i + 1]);
            } else if i == frames.len() - 2 {
                assert(out[i] == frames[i]);
                assert(out[i + 1].pid == frames[i + 1].pid);
            }
        }
        if frames.len() == 1 {
            assert(out[0].pid == root);
        } else {
            assert(out[0] == frames[0]);
        }
    }
}

proof fn lemma_answer_keeps_well_formed(tree: Seq<(u32, Option<u32>)>, root: u32, frames: Seq<FrameView>, ok: bool)
    requires
        well_formed_frames(tree, root, frames),
    ensures
        well_formed_frames(tree, root, answered(frames, ok).0),
{
    if frames.len() > 0 {
        let f = frames.last();
        let out = answered(frames, ok).0;
        assert forall|i: int| 0 <= i < out.len() implies (#[trigger] out[i]).children == children_in(
            tree,
            out[i].pid,
        ) && out[i].next <= out[i].children.len() by {
            if i < frames.len() - 1 {
                assert(out[i] == frames[i]);
            }
        }
        assert forall|i: int| 0 <= i < out.len() - 1 implies (#[trigger] out[i]).next < out[i].children.len()
            && out[i + 1].pid == out[i].children[out[i].next as int] by {
            assert(out[i] == frames[i]);
            if i + 1 < frames.len() - 1 {
                assert(out[i + 1] == frames[i + 1]);
            } else {
                assert(out[i + 1].pid == frames[i + 1].pid);
            }
        }
        if out.len() > 0 {
            if frames.len() == 1 {
                assert(out[0].pid == root);
            } else {
                assert(out[0] == frames[0]);
            }
        }
    }
}

/// The PIDs of the frames, from the root down.
pub open spec fn frame_pids(frames: Seq<FrameView>) -> Seq<u32> {
    frames.map_values(|f: FrameView| f.pid)
}

proof fn lemma_frames_path(tree: Seq<(u32, Option<u32>)>, root: u32, frames: Seq<FrameView>)
    requires
        well_formed_frames(tree, root, frames),
        frames.len() > 0,
    ensures
        tree_path(tree, root, frame_pids(frames)),
{
    let path = frame_pids(frames);
    assert forall|k: int| 0 <= k < path.len() - 1 implies children_in(tree, path[k]).contains(
        #[trigger] path[k + 1],
    ) by {
        assert(frames[k].next < frames[k].children.len());
        assert(frames[k].children == children_in(tree, frames[k].pid));
        assert(children_in(tree, path[k])[frames[k].next as int] == path[k + 1]);
    }
}

/// Law: the walk only ever asks to kill the root or one of its descendants
/// in the snapshot it was started on.
pub proof fn lemma_walk_kills_only_the_subtree(
    tree: Seq<(u32, Option<u32>)>,
    root: u32,
    frames: Seq<FrameView>,
)
    requires
        well_formed_frames(tree, root, frames),
    ensures
        advanced(tree, frames).1 matches ActionView::Kill(x) ==> in_subtree(tree, root, x),
        well_formed_frames(tree, root, advanced(tree, frames).0),
{
    lemma_advance_keeps_well_formed(tree, root, frames);
    if frames.len() > 0 {
        lemma_frames_path(tree, root, frames);
        let path = frame_pids(frames);
        let f = frames.last();
        if f.next < f.children.len() {
            let c = f.children[f.next as int];
            let longer = path.push(c);
            assert(tree_path(tree, root, longer)) by {
                assert forall|k: int| 0 <= k < longer.len() - 1 implies children_in(tree, longer[k]).contains(
                    #[trigger] longer[k + 1],
                ) by {
                    if k < path.len() - 1 {
                        assert(longer[k] == path[k] && longer[k + 1] == path[k + 1]);
                    } else {
                        assert(longer[k] == f.pid);
                        assert(children_in(tree, f.pid)[f.next as int] == c);
                    }
                }
            }
            assert(longer.last() == c);
        } else {
            assert(path.last() == f.pid);
        }
    }
}


/// Each frame has killed exactly the children before its position, in the
/// order of the snapshot.
pub open spec fn kills_in_order(frames: Seq<FrameView>) -> bool {
    forall|i: int|
        0 <= i < frames.len() ==> (#[trigger] frames[i]).killed == frames[i].children.take(frames[i].next as int)
}

/// Law: the walk kills children before their parent. Every step keeps each
/// frame's kills equal to its children so far, in order (a fresh walk has
/// killed nothing); it asks to kill a process itself only once all of its
/// children in the snapshot were killed; and a walk that ends well lists the
/// root's children in order, then the root.
pub proof fn lemma_walk_kills_children_first(
    tree: Seq<(u32, Option<u32>)>,
    root: u32,
    frames: Seq<FrameView>,
    ok: bool,
)
    requires
        well_formed_frames(tree, root, frames),
        kills_in_order(frames),
    ensures
        kills_in_order(seq![fresh(tree, root)]),
        kills_in_order(advanced(tree, frames).0),
        kills_in_order(answered(frames, ok).0),
        frames.len() > 0 && frames.last().next >= frames.last().children.len() ==> advanced(tree, frames).1
            == ActionView::Kill(frames.last().pid) && frames.last().killed == children_in(
            tree,
            frames.last().pid,
        ),
        answered(frames, ok).1 matches ActionView::Finished(Some(list)) ==> list == children_in(tree, root).push(
            root,
        ),
{
    let one = seq![fresh(tree, root)];
    assert(one[0].children.take(0) =~= one[0].killed);
    if frames.len() > 0 {
        let n = frames.len() - 1;
        let f = frames.last();
        assert(frames[n] == f);
        let adv = advanced(tree, frames).0;
        assert forall|i: int| 0 <= i < adv.len() implies (#[trigger] adv[i]).killed == adv[i].children.take(
            adv[i].next as int,
        ) by {
            if i < n {
                assert(adv[i] == frames[i]);
            } else if i == n {
                assert(adv[i].killed == f.killed && adv[i].children == f.children && adv[i].next == f.next);
            } else {
                assert(adv[i].killed =~= adv[i].children.take(0));
            }
        }
        let ans = answered(frames, ok).0;
        assert forall|i: int| 0 <= i < ans.len() implies (#[trigger] ans[i]).killed == ans[i].children.take(
            ans[i].next as int,
        ) by {
            if i < n {
                assert(ans[i] == frames[i]);
            } else {
                assert(f.children.take(f.next + 1int) =~= f.children.take(f.next as int).push(f.children[f.next as int]));
            }
        }
        if f.next >= f.children.len() {
            assert(f.children.take(f.next as int) =~= f.children);
        }
        if answered(frames, ok).1 is Finished && answered(frames, ok).1->Finished_0 is Some {
            assert(frames[0].pid == root);
            assert(f.children.take(f.next as int) =~= f.children);
        }
    }
}

} // verus!
