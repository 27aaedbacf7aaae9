//! A tree-fetch, step by step.
//!
//! The request is served one wanted manifest after the other. For each, the
//! walk over the differences to the base asks for the manifests it needs,
//! and the trees that it reports are sent; then the root of the wanted
//! manifest is sent. A hash that was sent is not sent again. With depth 1
//! no walk is made and only the roots are sent.

use vstd::prelude::*;
use crate::errors::CommandError;
use crate::hash::NodeHash;
use crate::manifest::{copy_bytes, EntryView, ManifestEntry};
use crate::pruner::Pruner;
use crate::stepwalk::{
    lemma_stepwise_walk_starts_whole, lemma_stepwise_walk_step, lemma_stepwise_walk_supplied,
    rest_of_walk, StepView, TreeWalk, TreeWalkView, WalkStep,
};
use crate::treepack::{
    all_target_trees, base_of, changed_trees_of, checked, depth_of, first_of_each, plan,
    pruner_for, root_tree, tree_of, trees_of, trees_then, ChangedTree, GettreepackArgs,
    SeenHashes, TreeView, TreepackPlan,
};
use crate::treewalk::{entries_of, ChangedView};

verus! {

/// What a tree-fetch does next.
#[derive(Debug)]
pub enum FetchStep {
    /// It needs the entries of these two manifests, the new and the old
    /// one. The null hash names the empty manifest.
    Fetch(NodeHash, NodeHash),
    /// It sends this tree.
    Send(ChangedTree),
    /// It has moved on and has nothing to ask or to send in this step.
    Idle,
    /// It is over.
    Done,
}

/// A step of a tree-fetch as a mathematical value.
pub enum FetchStepView {
    Fetch(NodeHash, NodeHash),
    Send(TreeView),
    Idle,
    Done,
}

impl DeepView for FetchStep {
    type V = FetchStepView;

    open spec fn deep_view(&self) -> FetchStepView {
        match self {
            FetchStep::Fetch(to, from) => FetchStepView::Fetch(*to, *from),
            FetchStep::Send(tree) => FetchStepView::Send(tree.deep_view()),
            FetchStep::Idle => FetchStepView::Idle,
            FetchStep::Done => FetchStepView::Done,
        }
    }
}

/// The state of a tree-fetch as a mathematical value.
pub struct TreeFetchView {
    /// The directory below which trees are wanted.
    pub rootdir: Seq<u8>,
    /// The base manifest.
    pub base: NodeHash,
    /// The depth.
    pub depth: nat,
    /// Whether the walks share the memory of their pruner.
    pub shared_memory: bool,
    /// The wanted manifests.
    pub targets: Seq<NodeHash>,
    /// How many wanted manifests were served or are being served.
    pub next_target: nat,
    /// The walk for the manifest that is being served.
    pub walk: Option<TreeWalkView>,
    /// The memory of the pruner between two walks.
    pub visited: Seq<NodeHash>,
    /// The hashes that were sent.
    pub seen: Seq<NodeHash>,
}

impl TreeFetchView {
    /// The state of a fresh tree-fetch for the given arguments.
    pub open spec fn start(args: GettreepackArgs) -> TreeFetchView {
        TreeFetchView {
            rootdir: args.rootdir@,
            base: base_of(args.basemfnodes@),
            depth: depth_of(args.depth),
            shared_memory: args.mfnodes@.len() > 1,
            targets: args.mfnodes@,
            next_target: 0,
            walk: None,
            visited: Seq::empty(),
            seen: Seq::empty(),
        }
    }

    /// Sending a tree: it is sent unless its hash was sent before.
    pub open spec fn sending(self, tree: TreeView) -> (TreeFetchView, FetchStepView) {
        if self.seen.contains(tree.entry.hash) {
            (self, FetchStepView::Idle)
        } else {
            (
                TreeFetchView { seen: self.seen.push(tree.entry.hash), ..self },
                FetchStepView::Send(tree),
            )
        }
    }

    /// The root of the manifest that is being served.
    pub open spec fn current_root(self) -> TreeView {
        root_tree(self.targets[self.next_target - 1], self.rootdir)
    }

    /// The state after the next step, and the step. While a walk runs, the
    /// walk takes its step: what it asks for is asked for, a tree that it
    /// reports is sent, and when it is over the root of the served manifest
    /// is sent. Without a walk the next wanted manifest is taken up: with
    /// depth 1 its root is sent at once, else its walk starts. With no
    /// manifest left the tree-fetch is over.
    pub open spec fn stepped(self) -> (TreeFetchView, FetchStepView) {
        match self.walk {
            Some(w) => match w.next() {
                StepView::Fetch(to, from) => (self, FetchStepView::Fetch(to, from)),
                StepView::Report(e) => {
                    let moved = TreeFetchView { walk: Some(w.after_next()), ..self };
                    if e.status.is_tree() && !(e.status is Deleted) {
                        moved.sending(TreeView { entry: e.status.entry(), basepath: e.dirname })
                    } else {
                        (moved, FetchStepView::Idle)
                    }
                },
                StepView::Done => (TreeFetchView {
                    walk: None,
                    visited: w.after_next().visited,
                    ..self
                }).sending(self.current_root()),
            },
            None => if self.next_target >= self.targets.len() {
                (self, FetchStepView::Done)
            } else if self.depth == 1 {
                (TreeFetchView { next_target: self.next_target + 1, ..self }).sending(
                    root_tree(self.targets[self.next_target as int], self.rootdir),
                )
            } else {
                (
                    TreeFetchView {
                        next_target: self.next_target + 1,
                        walk: Some(
                            TreeWalkView::start(
                                pruner_for(if self.shared_memory { 2nat } else { 1nat }),
                                self.rootdir,
                                self.targets[self.next_target as int],
                                self.base,
                                self.depth,
                                self.visited,
                            ),
                        ),
                        visited: Seq::empty(),
                        ..self
                    },
                    FetchStepView::Idle,
                )
            },
        }
    }

    /// The pruner of the walks of this tree-fetch.
    pub open spec fn pruner(self) -> Pruner {
        pruner_for(if self.shared_memory { 2nat } else { 1nat })
    }

    /// Whether the parts of the state fit together: no more manifests were
    /// taken up than are wanted, and a walk that runs is the walk of this
    /// tree-fetch for a manifest that was taken up.
    pub open spec fn consistent(self) -> bool {
        &&& self.next_target <= self.targets.len()
        &&& self.walk.is_some() ==> self.next_target > 0 && self.walk.unwrap().pruner
            == self.pruner()
    }

    /// The state after the manifests that the walk waits for were handed
    /// in.
    pub open spec fn supplied(self, to: Seq<EntryView>, from: Seq<EntryView>) -> TreeFetchView {
        match self.walk {
            Some(w) => TreeFetchView { walk: Some(w.supplied(to, from)), ..self },
            None => self,
        }
    }
}

/// A tree-fetch that reads no manifest itself: it asks for the manifests of
/// one directory at a time and says which trees are sent, in their order.
pub struct TreeFetch {
    plan: TreepackPlan,
    targets: Vec<NodeHash>,
    next_target: usize,
    walk: Option<TreeWalk>,
    visited: Vec<NodeHash>,
    seen: SeenHashes,
}

impl View for TreeFetch {
    type V = TreeFetchView;

    closed spec fn view(&self) -> TreeFetchView {
        TreeFetchView {
            rootdir: self.plan.rootdir@,
            base: self.plan.base,
            depth: self.plan.depth as nat,
            shared_memory: self.plan.shared_memory,
            targets: self.targets@,
            next_target: self.next_target as nat,
            walk: match self.walk {
                Some(w) => Some(w@),
                None => None,
            },
            visited: self.visited@,
            seen: self.seen@,
        }
    }
}

impl TreeFetch {
    /// Whether the state is one that a tree-fetch can be in.
    pub closed spec fn wf(&self) -> bool {
        &&& self.next_target <= self.targets@.len()
        &&& self.walk.is_some() ==> self.next_target > 0 && self.walk.unwrap().wf()
    }

    /// Checks the arguments of a request and starts the tree-fetch. A
    /// request that names directories is refused, and so is one whose root
    /// directory is neither empty nor a well-formed path.
    pub fn new(args: &GettreepackArgs) -> (r: Result<TreeFetch, CommandError>)
        ensures
            match checked(*args) {
                Err(e) => r is Err && r->Err_0 == e,
                Ok(()) => r is Ok && r->Ok_0.wf() && r->Ok_0@ == TreeFetchView::start(*args),
            },
    {
        let plan = match plan(args) {
            Ok(plan) => plan,
            Err(e) => {
                return Err(e);
            },
        };
        let mut targets: Vec<NodeHash> = Vec::new();
        let mut i: usize = 0;
        while i < args.mfnodes.len()
            invariant
                i <= args.mfnodes@.len(),
                targets@ == args.mfnodes@.take(i as int),
            decreases args.mfnodes@.len() - i,
        {
            targets.push(args.mfnodes[i]);
            assert(args.mfnodes@.take(i + 1) =~= args.mfnodes@.take(i as int).push(
                args.mfnodes@[i as int],
            ));
            i += 1;
        }
        assert(args.mfnodes@.take(args.mfnodes@.len() as int) =~= args.mfnodes@);
        Ok(
            TreeFetch {
                plan,
                targets,
                next_target: 0,
                walk: None,
                visited: Vec::new(),
                seen: SeenHashes::new(),
            },
        )
    }

    fn send(&mut self, tree: ChangedTree) -> (step: FetchStep)
        requires
            old(self).wf(),
        ensures
            final(self).wf(),
            (final(self)@, step.deep_view()) == old(self)@.sending(tree.deep_view()),
    {
        if self.seen.first_time(tree.entry.hash) {
            FetchStep::Send(tree)
        } else {
            FetchStep::Idle
        }
    }

    /// Takes the next step of the tree-fetch.
    pub fn step(&mut self) -> (step: FetchStep)
        requires
            old(self).wf(),
        ensures
            final(self).wf(),
            (final(self)@, step.deep_view()) == old(self)@.stepped(),
    {
        let walk = self.walk.take();
        match walk {
            Some(mut w) => {
                let ghost before = w@;
                match w.step() {
                    WalkStep::Fetch(to, from) => {
                        assert(w@ == before);
                        self.walk = Some(w);
                        assert(self@ == old(self)@);
                        FetchStep::Fetch(to, from)
                    },
                    WalkStep::Report(changed) => {
                        self.walk = Some(w);
                        match tree_of(&changed) {
                            Some(tree) => {
                                proof {
                                    let e = changed.deep_view();
                                    lemma_tree_of_one(e);
                                    let sent = trees_of(seq![e]);
                                    assert(sent.len() == 1);
                                    assert(sent[0] == tree.deep_view());
                                }
                                self.send(tree)
                            },
                            None => {
                                proof {
                                    let e = changed.deep_view();
                                    lemma_tree_of_one(e);
                                    assert(trees_of(seq![e]).len() == 0);
                                }
                                FetchStep::Idle
                            },
                        }
                    },
                    WalkStep::Done => {
                        self.visited = w.into_visited();
                        let root = ChangedTree {
                            entry: ManifestEntry::root(self.targets[self.next_target - 1]),
                            basepath: copy_bytes(&self.plan.rootdir),
                        };
                        self.send(root)
                    },
                }
            },
            None => {
                if self.next_target >= self.targets.len() {
                    assert(self@ == old(self)@);
                    return FetchStep::Done;
                }
                let target = self.targets[self.next_target];
                self.next_target = self.next_target + 1;
                if self.plan.depth == 1 {
                    let root = ChangedTree {
                        entry: ManifestEntry::root(target),
                        basepath: copy_bytes(&self.plan.rootdir),
                    };
                    self.send(root)
                } else {
                    let mut visited: Vec<NodeHash> = Vec::new();
                    core::mem::swap(&mut visited, &mut self.visited);
                    self.walk = Some(
                        TreeWalk::new(
                            self.plan.pruner(),
                            copy_bytes(&self.plan.rootdir),
                            target,
                            self.plan.base,
                            self.plan.depth,
                            visited,
                        ),
                    );
                    FetchStep::Idle
                }
            },
        }
    }

    /// Hands in the entries of the two manifests that the tree-fetch has
    /// asked for, the new and the old one.
    pub fn supply(&mut self, to: &Vec<ManifestEntry>, from: &Vec<ManifestEntry>)
        requires
            old(self).wf(),
        ensures
            final(self).wf(),
            final(self)@ == old(self)@.supplied(to.deep_view(), from.deep_view()),
    {
        let walk = self.walk.take();
        match walk {
            Some(mut w) => {
                w.supply(to, from);
                self.walk = Some(w);
            },
            None => {
                assert(self@ == old(self)@);
            },
        }
    }
}

/// The trees that a tree-fetch has yet to come by if it is handed the
/// manifests of the store, before those are left out that were sent: what
/// the walk that runs has yet to report and the root of its manifest, and
/// then what the manifests contribute that were not taken up yet.
pub open spec fn pending_trees(store: Seq<(NodeHash, Seq<EntryView>)>, f: TreeFetchView) -> Result<
    Seq<TreeView>,
    NodeHash,
> {
    match f.walk {
        Some(w) => match rest_of_walk(store, w) {
            Err(missing) => Err(missing),
            Ok(found) => trees_then(
                trees_of(found.entries).push(f.current_root()),
                all_target_trees(
                    store,
                    f.pruner(),
                    f.rootdir,
                    f.targets.skip(f.next_target as int),
                    f.base,
                    f.depth,
                    found.visited,
                ),
            ),
        },
        None => all_target_trees(
            store,
            f.pruner(),
            f.rootdir,
            f.targets.skip(f.next_target as int),
            f.base,
            f.depth,
            f.visited,
        ),
    }
}

/// The trees that a tree-fetch has yet to send if it is handed the
/// manifests of the store, or the manifest that the store lacks.
pub open spec fn rest_of_fetch(store: Seq<(NodeHash, Seq<EntryView>)>, f: TreeFetchView) -> Result<
    Seq<TreeView>,
    NodeHash,
> {
    match pending_trees(store, f) {
        Ok(trees) => Ok(first_of_each(trees, f.seen)),
        Err(missing) => Err(missing),
    }
}

proof fn lemma_trees_of_concat(a: Seq<ChangedView>, b: Seq<ChangedView>)
    ensures
        trees_of(a + b) == trees_of(a) + trees_of(b),
    decreases b.len(),
{
    if b.len() == 0 {
        assert(a + b =~= a);
        assert(trees_of(a) + Seq::<TreeView>::empty() =~= trees_of(a));
    } else {
        assert((a + b).drop_last() =~= a + b.drop_last());
        assert((a + b).last() == b.last());
        lemma_trees_of_concat(a, b.drop_last());
        let last = b.last();
        if last.status.is_tree() && !(last.status is Deleted) {
            let t = TreeView { entry: last.status.entry(), basepath: last.dirname };
            assert((trees_of(a) + trees_of(b.drop_last())).push(t) =~= trees_of(a) + trees_of(
                b.drop_last(),
            ).push(t));
        }
    }
}

/// Putting a tree in front of the pending ones puts it in front of what is
/// sent, unless it was sent before.
proof fn lemma_first_of_each_cons(t: TreeView, rest: Seq<TreeView>, seen: Seq<NodeHash>)
    ensures
        first_of_each(seq![t] + rest, seen) == (if seen.contains(t.entry.hash) {
            first_of_each(rest, seen)
        } else {
            seq![t] + first_of_each(rest, seen.push(t.entry.hash))
        }),
{
    let all = seq![t] + rest;
    assert(all[0] == t);
    assert(all.drop_first() =~= rest);
}

/// What a tree-fetch sends, step by step, is what the request is answered
/// with: a fresh tree-fetch has the whole answer to send.
pub proof fn lemma_fetch_starts_whole(args: GettreepackArgs, store: Seq<(NodeHash, Seq<EntryView>)>)
    requires
        checked(args) is Ok,
    ensures
        TreeFetchView::start(args).consistent(),
        match rest_of_fetch(store, TreeFetchView::start(args)) {
            Ok(trees) => changed_trees_of(args, store) == Ok::<Seq<TreeView>, CommandError>(trees),
            Err(missing) => changed_trees_of(args, store) == Err::<Seq<TreeView>, CommandError>(
                CommandError::ManifestNotFound(missing),
            ),
        },
{
    assert(args.mfnodes@.skip(0) =~= args.mfnodes@);
}

/// Handing a tree-fetch the manifests that it asks for, as the store has
/// them, leaves what it has yet to send as it was. Where the store lacks
/// one of them, the request fails with that manifest.
pub proof fn lemma_fetch_supplied(store: Seq<(NodeHash, Seq<EntryView>)>, f: TreeFetchView)
    requires
        f.consistent(),
        f.walk.is_some(),
        f.walk.unwrap().awaiting.is_some(),
    ensures
        match (
            entries_of(store, f.walk.unwrap().awaiting.unwrap().to),
            entries_of(store, f.walk.unwrap().awaiting.unwrap().from),
        ) {
            (Some(t), Some(o)) => f.supplied(t, o).consistent() && rest_of_fetch(
                store,
                f.supplied(t, o),
            ) == rest_of_fetch(store, f),
            (None, _) => rest_of_fetch(store, f) == Err::<Seq<TreeView>, NodeHash>(
                f.walk.unwrap().awaiting.unwrap().to,
            ),
            (_, None) => rest_of_fetch(store, f) == Err::<Seq<TreeView>, NodeHash>(
                f.walk.unwrap().awaiting.unwrap().from,
            ),
        },
{
    lemma_stepwise_walk_supplied(store, f.walk.unwrap());
}

/// A step of a tree-fetch sends the next tree of the answer: a step that
/// sends a tree leaves the rest of the answer to send, a step that sends
/// nothing leaves all of it, and a tree-fetch that says it is over has
/// nothing left.
pub proof fn lemma_fetch_step(store: Seq<(NodeHash, Seq<EntryView>)>, f: TreeFetchView)
    requires
        f.consistent(),
    ensures
        f.stepped().0.consistent(),
        match f.stepped().1 {
            FetchStepView::Send(tree) => rest_of_fetch(store, f) == trees_then(
                seq![tree],
                rest_of_fetch(store, f.stepped().0),
            ),
            FetchStepView::Idle => rest_of_fetch(store, f) == rest_of_fetch(store, f.stepped().0),
            FetchStepView::Done => rest_of_fetch(store, f) == Ok::<Seq<TreeView>, NodeHash>(
                Seq::empty(),
            ),
            FetchStepView::Fetch(_, _) => true,
        },
{
    let tail = f.targets.skip(f.next_target as int);
    match f.walk {
        Some(w) => {
            match w.next() {
                StepView::Fetch(_, _) => {},
                StepView::Report(e) => {
                    lemma_stepwise_walk_step(store, w);
                    lemma_tree_of_one(e);
                    let moved = TreeFetchView { walk: Some(w.after_next()), ..f };
                    match rest_of_walk(store, w.after_next()) {
                        Err(_) => {},
                        Ok(later) => {
                            lemma_trees_of_concat(seq![e], later.entries);
                            let root = f.current_root();
                            let others = all_target_trees(
                                store,
                                f.pruner(),
                                f.rootdir,
                                tail,
                                f.base,
                                f.depth,
                                later.visited,
                            );
                            match others {
                                Err(_) => {},
                                Ok(o) => {
                                    let pending = trees_of(later.entries).push(root) + o;
                                    assert(pending_trees(store, moved) == Ok::<
                                        Seq<TreeView>,
                                        NodeHash,
                                    >(pending));
                                    if e.status.is_tree() && !(e.status is Deleted) {
                                        let t = TreeView {
                                            entry: e.status.entry(),
                                            basepath: e.dirname,
                                        };
                                        assert((seq![t] + trees_of(later.entries)).push(root) + o
                                            =~= seq![t] + pending);
                                        lemma_first_of_each_cons(t, pending, f.seen);
                                    } else {
                                        assert(Seq::<TreeView>::empty() + trees_of(later.entries)
                                            =~= trees_of(later.entries));
                                    }
                                },
                            }
                        },
                    }
                },
                StepView::Done => {
                    lemma_stepwise_walk_step(store, w);
                    let root = f.current_root();
                    let others = all_target_trees(
                        store,
                        f.pruner(),
                        f.rootdir,
                        tail,
                        f.base,
                        f.depth,
                        w.visited,
                    );
                    match others {
                        Err(_) => {},
                        Ok(o) => {
                            assert(trees_of(Seq::<ChangedView>::empty()).push(root) + o =~= seq![
                                root,
                            ] + o);
                            lemma_first_of_each_cons(root, o, f.seen);
                        },
                    }
                },
            }
        },
        None => {
            if f.next_target < f.targets.len() {
                let target = f.targets[f.next_target as int];
                let root = root_tree(target, f.rootdir);
                assert(tail[0] == target);
                assert(tail.drop_first() =~= f.targets.skip(f.next_target as int + 1));
                if f.depth == 1 {
                    let others = all_target_trees(
                        store,
                        f.pruner(),
                        f.rootdir,
                        tail.drop_first(),
                        f.base,
                        f.depth,
                        f.visited,
                    );
                    match others {
                        Err(_) => {},
                        Ok(o) => {
                            lemma_first_of_each_cons(root, o, f.seen);
                        },
                    }
                } else {
                    lemma_stepwise_walk_starts_whole(
                        store,
                        f.pruner(),
                        f.rootdir,
                        target,
                        f.base,
                        f.depth,
                        f.visited,
                    );
                }
            } else {
                assert(tail.len() == 0);
            }
        },
    }
}

/// The tree of a single reported difference, if it has one.
proof fn lemma_tree_of_one(e: ChangedView)
    ensures
        trees_of(seq![e]) == (if e.status.is_tree() && !(e.status is Deleted) {
            seq![TreeView { entry: e.status.entry(), basepath: e.dirname }]
        } else {
            Seq::<TreeView>::empty()
        }),
{
    let one = seq![e];
    assert(one.drop_last() =~= Seq::<ChangedView>::empty());
    assert(trees_of(one.drop_last()) =~= Seq::<TreeView>::empty());
    assert(one.last() == e);
    assert(Seq::<TreeView>::empty().push(
        TreeView { entry: e.status.entry(), basepath: e.dirname },
    ) =~= seq![TreeView { entry: e.status.entry(), basepath: e.dirname }]);
}

} // verus!
