//! The walk over the differences between two manifest trees, step by step.
//!
//! A stepwise walk reads no manifest itself. It asks for the manifests of
//! one directory at a time, is handed their entries, and reports the
//! differences one by one. What it reports, and in which order, is what the
//! walk that reads a store of manifests reports.

use vstd::prelude::*;
use crate::hash::NodeHash;
use crate::manifest::{
    copy_bytes, diff_entries, diff_sorted_vecs, EntryStatus, EntryView, ManifestEntry, StatusView,
};
use crate::pruner::Pruner;
use crate::treewalk::{
    after, entries_of, from_hash_of, join_path, joined_path, keep_unpruned, let_through,
    to_hash_of, walk_below, walk_dir, walk_entries, ChangedEntry, ChangedView, WalkOutcome,
};

verus! {

/// A directory whose manifests a stepwise walk has asked for.
#[derive(Debug)]
pub struct PendingDir {
    pub dir: Vec<u8>,
    pub to: NodeHash,
    pub from: NodeHash,
    pub depth_left: usize,
}

/// A directory that is asked for, as a mathematical value.
pub struct PendingView {
    pub dir: Seq<u8>,
    pub to: NodeHash,
    pub from: NodeHash,
    pub depth_left: nat,
}

impl DeepView for PendingDir {
    type V = PendingView;

    open spec fn deep_view(&self) -> PendingView {
        PendingView {
            dir: self.dir@,
            to: self.to,
            from: self.from,
            depth_left: self.depth_left as nat,
        }
    }
}

/// The differences of one directory that a stepwise walk has yet to report.
pub struct FrameView {
    pub dir: Seq<u8>,
    pub kept: Seq<StatusView>,
    pub depth_left: nat,
}

/// What a stepwise walk does next.
#[derive(Debug)]
pub enum WalkStep {
    /// It reports this difference.
    Report(ChangedEntry),
    /// It needs the entries of these two manifests, the new and the old
    /// one, before it can go on. The null hash names the empty manifest.
    Fetch(NodeHash, NodeHash),
    /// It is over.
    Done,
}

/// A walk step as a mathematical value.
pub enum StepView {
    Report(ChangedView),
    Fetch(NodeHash, NodeHash),
    Done,
}

impl DeepView for WalkStep {
    type V = StepView;

    open spec fn deep_view(&self) -> StepView {
        match self {
            WalkStep::Report(e) => StepView::Report(e.deep_view()),
            WalkStep::Fetch(to, from) => StepView::Fetch(*to, *from),
            WalkStep::Done => StepView::Done,
        }
    }
}

/// The state of a stepwise walk as a mathematical value: the pruner and
/// its memory, the directories that are being reported, innermost last,
/// and the directory whose manifests are asked for.
pub struct TreeWalkView {
    pub pruner: Pruner,
    pub frames: Seq<FrameView>,
    pub awaiting: Option<PendingView>,
    pub visited: Seq<NodeHash>,
}

/// The frames without the innermost ones that have nothing left to report.
pub open spec fn unfinished(frames: Seq<FrameView>) -> Seq<FrameView>
    decreases frames.len(),
{
    if frames.len() == 0 {
        frames
    } else if frames.last().kept.len() == 0 {
        unfinished(frames.drop_last())
    } else {
        frames
    }
}

impl TreeWalkView {
    /// The state of a fresh walk over the differences between the manifests
    /// `to` and `from` of the directory `dir`.
    pub open spec fn start(
        pruner: Pruner,
        dir: Seq<u8>,
        to: NodeHash,
        from: NodeHash,
        depth_left: nat,
        visited: Seq<NodeHash>,
    ) -> TreeWalkView {
        TreeWalkView {
            pruner,
            frames: Seq::empty(),
            awaiting: Some(PendingView { dir, to, from, depth_left }),
            visited,
        }
    }

    /// What the walk does next. While it waits for manifests it asks for
    /// them. Else it reports the next difference of the innermost directory
    /// that has one left; if that is a tree and the depth allows, it then
    /// waits for the manifests of that tree. With nothing left it is over.
    pub open spec fn next(self) -> StepView {
        match self.awaiting {
            Some(p) => StepView::Fetch(p.to, p.from),
            None => {
                let frames = unfinished(self.frames);
                if frames.len() == 0 {
                    StepView::Done
                } else {
                    StepView::Report(
                        ChangedView { dirname: frames.last().dir, status: frames.last().kept[0] },
                    )
                }
            },
        }
    }

    /// The state after the step `next`.
    pub open spec fn after_next(self) -> TreeWalkView {
        match self.awaiting {
            Some(p) => self,
            None => {
                let frames = unfinished(self.frames);
                if frames.len() == 0 {
                    TreeWalkView { frames, ..self }
                } else {
                    let top = frames.last();
                    let status = top.kept[0];
                    TreeWalkView {
                        frames: frames.drop_last().push(
                            FrameView { kept: top.kept.drop_first(), ..top },
                        ),
                        awaiting: if status.is_tree() && top.depth_left > 1 {
                            Some(
                                PendingView {
                                    dir: joined_path(top.dir, status.entry().name),
                                    to: status.to_hash(),
                                    from: status.from_hash(),
                                    depth_left: (top.depth_left - 1) as nat,
                                },
                            )
                        } else {
                            None
                        },
                        ..self
                    }
                }
            },
        }
    }

    /// The state after the manifests that the walk waits for were handed
    /// in: their differences were put to the pruner, and those that it let
    /// through are the innermost directory to report. A walk that waits for
    /// nothing stays as it is.
    pub open spec fn supplied(self, to: Seq<EntryView>, from: Seq<EntryView>) -> TreeWalkView {
        match self.awaiting {
            None => self,
            Some(p) => {
                let kept = let_through(self.pruner, diff_entries(to, from), self.visited);
                TreeWalkView {
                    pruner: self.pruner,
                    frames: self.frames.push(
                        FrameView { dir: p.dir, kept: kept.0, depth_left: p.depth_left },
                    ),
                    awaiting: None,
                    visited: kept.1,
                }
            },
        }
    }
}

/// The differences of one directory that were let through, and how far the
/// walk has reported them.
#[derive(Debug)]
struct Frame {
    dir: Vec<u8>,
    kept: Vec<EntryStatus>,
    next: usize,
    depth_left: usize,
}

impl Frame {
    spec fn rest(&self) -> FrameView {
        FrameView {
            dir: self.dir@,
            kept: self.kept.deep_view().skip(self.next as int),
            depth_left: self.depth_left as nat,
        }
    }
}

/// A walk over the differences between two manifest trees that reads no
/// manifest itself: it asks for the manifests of one directory at a time
/// and reports the differences one by one, in the order of `walk_dir`.
pub struct TreeWalk {
    pruner: Pruner,
    frames: Vec<Frame>,
    awaiting: Option<PendingDir>,
    visited: Vec<NodeHash>,
}

impl TreeWalk {
    /// Whether each frame's position lies within its differences.
    pub closed spec fn wf(&self) -> bool {
        forall|i: int| 0 <= i < self.frames@.len() ==> (#[trigger] self.frames@[i]).next
            <= self.frames@[i].kept@.len()
    }

    /// Starts a walk over the differences between the manifests `to` and
    /// `from` of the directory `dir`, with the given memory of the pruner.
    pub fn new(
        pruner: Pruner,
        dir: Vec<u8>,
        to: NodeHash,
        from: NodeHash,
        depth_left: usize,
        visited: Vec<NodeHash>,
    ) -> (w: Self)
        ensures
            w.wf(),
            w@ == TreeWalkView::start(pruner, dir@, to, from, depth_left as nat, visited@),
    {
        let w = TreeWalk {
            pruner,
            frames: Vec::new(),
            awaiting: Some(PendingDir { dir, to, from, depth_left }),
            visited,
        };
        assert(w@.frames =~= Seq::<FrameView>::empty());
        w
    }

    /// Takes the next step of the walk.
    pub fn step(&mut self) -> (step: WalkStep)
        requires
            old(self).wf(),
        ensures
            final(self).wf(),
            step.deep_view() == old(self)@.next(),
            final(self)@ == old(self)@.after_next(),
    {
        match &self.awaiting {
            Some(p) => {
                return WalkStep::Fetch(p.to, p.from);
            },
            None => {},
        }
        while self.frames.len() > 0 && self.frames[self.frames.len() - 1].next
            >= self.frames[self.frames.len() - 1].kept.len()
            invariant
                self.wf(),
                self.awaiting.is_none(),
                self.pruner == old(self).pruner,
                self.visited == old(self).visited,
                unfinished(self@.frames) == unfinished(old(self)@.frames),
            decreases self.frames@.len(),
        {
            let ghost before = self@.frames;
            self.frames.pop();
            assert(self@.frames =~= before.drop_last());
        }
        let n = self.frames.len();
        if n == 0 {
            assert(self@.frames =~= Seq::<FrameView>::empty());
            return WalkStep::Done;
        }
        let ghost frames = self@.frames;
        assert(unfinished(frames) == frames);
        let ghost top = frames.last();
        assert(top == self.frames@[n - 1].rest());
        let at = self.frames[n - 1].next;
        let status = self.frames[n - 1].kept[at].duplicate();
        let dirname = copy_bytes(&self.frames[n - 1].dir);
        let depth_left = self.frames[n - 1].depth_left;
        assert(status.deep_view() == top.kept[0]);
        if status.is_tree() && depth_left > 1 {
            self.awaiting = Some(
                PendingDir {
                    dir: join_path(&dirname, &status.entry().name),
                    to: to_hash_of(&status),
                    from: from_hash_of(&status),
                    depth_left: depth_left - 1,
                },
            );
        }
        self.frames[n - 1].next = at + 1;
        proof {
            assert(self.frames@[n - 1].rest().kept =~= top.kept.drop_first());
            assert(self@.frames =~= frames.drop_last().push(
                FrameView { kept: top.kept.drop_first(), ..top },
            ));
        }
        WalkStep::Report(ChangedEntry { dirname, status })
    }

    /// Hands in the entries of the two manifests that the walk has asked
    /// for, the new and the old one.
    pub fn supply(&mut self, to: &Vec<ManifestEntry>, from: &Vec<ManifestEntry>)
        requires
            old(self).wf(),
        ensures
            final(self).wf(),
            final(self)@ == old(self)@.supplied(to.deep_view(), from.deep_view()),
    {
        let awaiting = self.awaiting.take();
        match awaiting {
            None => {},
            Some(p) => {
                let statuses = diff_sorted_vecs(to, from);
                let kept = keep_unpruned(&self.pruner, &statuses, &mut self.visited);
                let ghost before = self@.frames;
                let frame = Frame { dir: p.dir, kept, next: 0, depth_left: p.depth_left };
                assert(frame.kept.deep_view().skip(0) =~= frame.kept.deep_view());
                self.frames.push(frame);
                assert(self@.frames =~= before.push(frame.rest()));
            },
        }
    }

    /// Ends the walk and hands out the memory of the pruner.
    pub fn into_visited(self) -> (visited: Vec<NodeHash>)
        ensures
            visited@ == self@.visited,
    {
        self.visited
    }
}

impl View for TreeWalk {
    type V = TreeWalkView;

    closed spec fn view(&self) -> TreeWalkView {
        TreeWalkView {
            pruner: self.pruner,
            frames: Seq::new(self.frames@.len(), |i: int| self.frames@[i].rest()),
            awaiting: match self.awaiting {
                Some(p) => Some(p.deep_view()),
                None => None,
            },
            visited: self.visited@,
        }
    }
}

/// What the directories that are being reported have yet to give, from the
/// innermost outwards, read from the manifests of the store.
pub open spec fn frames_report(
    store: Seq<(NodeHash, Seq<EntryView>)>,
    pruner: Pruner,
    frames: Seq<FrameView>,
    visited: Seq<NodeHash>,
) -> Result<WalkOutcome, NodeHash>
    decreases frames.len(),
{
    if frames.len() == 0 {
        Ok(WalkOutcome { entries: Seq::empty(), visited })
    } else {
        let top = frames.last();
        match walk_entries(store, pruner, top.dir, top.kept, top.depth_left, visited) {
            Err(missing) => Err(missing),
            Ok(inner) => after(
                inner.entries,
                frames_report(store, pruner, frames.drop_last(), inner.visited),
            ),
        }
    }
}

/// What a stepwise walk has yet to report if it is handed the manifests of
/// the store: first what lies in the directory that it waits for, then
/// what the directories that are being reported have left.
pub open spec fn rest_of_walk(store: Seq<(NodeHash, Seq<EntryView>)>, w: TreeWalkView) -> Result<
    WalkOutcome,
    NodeHash,
> {
    match w.awaiting {
        Some(p) => match walk_dir(store, w.pruner, p.dir, p.to, p.from, p.depth_left, w.visited) {
            Err(missing) => Err(missing),
            Ok(inner) => after(
                inner.entries,
                frames_report(store, w.pruner, w.frames, inner.visited),
            ),
        },
        None => frames_report(store, w.pruner, w.frames, w.visited),
    }
}

proof fn lemma_after_after(
    a: Seq<ChangedView>,
    b: Seq<ChangedView>,
    outcome: Result<WalkOutcome, NodeHash>,
)
    ensures
        after(a, after(b, outcome)) == after(a + b, outcome),
        after(Seq::empty(), outcome) == outcome,
{
    match outcome {
        Ok(o) => {
            assert(a + (b + o.entries) =~= (a + b) + o.entries);
            assert(Seq::<ChangedView>::empty() + o.entries =~= o.entries);
        },
        Err(_) => {},
    }
}

proof fn lemma_finished_frames_report_nothing(
    store: Seq<(NodeHash, Seq<EntryView>)>,
    pruner: Pruner,
    frames: Seq<FrameView>,
    visited: Seq<NodeHash>,
)
    ensures
        frames_report(store, pruner, frames, visited) == frames_report(
            store,
            pruner,
            unfinished(frames),
            visited,
        ),
    decreases frames.len(),
{
    if frames.len() > 0 && frames.last().kept.len() == 0 {
        lemma_finished_frames_report_nothing(store, pruner, frames.drop_last(), visited);
        lemma_after_after(
            Seq::empty(),
            Seq::empty(),
            frames_report(store, pruner, frames.drop_last(), visited),
        );
    }
}

/// A fresh stepwise walk has the whole walk to report.
pub proof fn lemma_stepwise_walk_starts_whole(
    store: Seq<(NodeHash, Seq<EntryView>)>,
    pruner: Pruner,
    dir: Seq<u8>,
    to: NodeHash,
    from: NodeHash,
    depth_left: nat,
    visited: Seq<NodeHash>,
)
    ensures
        rest_of_walk(store, TreeWalkView::start(pruner, dir, to, from, depth_left, visited))
            == walk_dir(store, pruner, dir, to, from, depth_left, visited),
{
    match walk_dir(store, pruner, dir, to, from, depth_left, visited) {
        Ok(o) => {
            assert(o.entries + Seq::<ChangedView>::empty() =~= o.entries);
        },
        Err(_) => {},
    }
}

/// Handing a stepwise walk the manifests that it waits for, as the store
/// has them, leaves what it has yet to report as it was. Where the store
/// lacks one of them, the walk that reads the store fails.
pub proof fn lemma_stepwise_walk_supplied(store: Seq<(NodeHash, Seq<EntryView>)>, w: TreeWalkView)
    requires
        w.awaiting.is_some(),
    ensures
        match (
            entries_of(store, w.awaiting.unwrap().to),
            entries_of(store, w.awaiting.unwrap().from),
        ) {
            (Some(t), Some(f)) => rest_of_walk(store, w.supplied(t, f)) == rest_of_walk(store, w),
            (None, _) => rest_of_walk(store, w) == Err::<WalkOutcome, NodeHash>(
                w.awaiting.unwrap().to,
            ),
            (_, None) => rest_of_walk(store, w) == Err::<WalkOutcome, NodeHash>(
                w.awaiting.unwrap().from,
            ),
        },
{
    let p = w.awaiting.unwrap();
    match (entries_of(store, p.to), entries_of(store, p.from)) {
        (Some(t), Some(f)) => {
            let kept = let_through(w.pruner, diff_entries(t, f), w.visited);
            let frame = FrameView { dir: p.dir, kept: kept.0, depth_left: p.depth_left };
            let pushed = w.frames.push(frame);
            assert(pushed.last() == frame);
            assert(pushed.drop_last() =~= w.frames);
        },
        _ => {},
    }
}

/// What a stepwise walk reports in a step is the next difference of the
/// walk: a step that reports a difference leaves the rest of the walk to
/// report, and a walk that says it is over has nothing left.
pub proof fn lemma_stepwise_walk_step(store: Seq<(NodeHash, Seq<EntryView>)>, w: TreeWalkView)
    requires
        w.awaiting.is_none(),
    ensures
        match w.next() {
            StepView::Report(e) => rest_of_walk(store, w) == after(
                seq![e],
                rest_of_walk(store, w.after_next()),
            ),
            StepView::Done => rest_of_walk(store, w) == Ok::<WalkOutcome, NodeHash>(
                WalkOutcome { entries: Seq::empty(), visited: w.visited },
            ),
            StepView::Fetch(_, _) => false,
        },
{
    let frames = unfinished(w.frames);
    lemma_finished_frames_report_nothing(store, w.pruner, w.frames, w.visited);
    lemma_unfinished_has_work(w.frames);
    if frames.len() > 0 {
        let top = frames.last();
        let status = top.kept[0];
        let this = ChangedView { dirname: top.dir, status };
        let lower = frames.drop_last();
        let shorter = FrameView { kept: top.kept.drop_first(), ..top };
        let next_frames = lower.push(shorter);
        assert(next_frames.last() == shorter);
        assert(next_frames.drop_last() =~= lower);
        let below = walk_below(store, w.pruner, top.dir, status, top.depth_left, w.visited);
        match below {
            Err(_) => {},
            Ok(b) => {
                let rest = walk_entries(
                    store,
                    w.pruner,
                    top.dir,
                    top.kept.drop_first(),
                    top.depth_left,
                    b.visited,
                );
                match rest {
                    Err(_) => {},
                    Ok(r) => {
                        let outer = frames_report(store, w.pruner, lower, r.visited);
                        lemma_after_after(seq![this] + b.entries, r.entries, outer);
                        lemma_after_after(seq![this], b.entries, after(r.entries, outer));
                        if !(status.is_tree() && top.depth_left > 1) {
                            lemma_after_after(
                                Seq::empty(),
                                Seq::empty(),
                                after(r.entries, outer),
                            );
                        }
                    },
                }
            },
        }
    }
}

proof fn lemma_unfinished_has_work(frames: Seq<FrameView>)
    ensures
        unfinished(frames).len() > 0 ==> unfinished(frames).last().kept.len() > 0,
    decreases frames.len(),
{
    if frames.len() > 0 && frames.last().kept.len() == 0 {
        lemma_unfinished_has_work(frames.drop_last());
    }
}

} // verus!
