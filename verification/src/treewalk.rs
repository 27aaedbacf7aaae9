//! The walk over the differences between two manifest trees.
//!
//! The walk compares the manifests of two directories, asks the pruner about
//! each difference, and descends into the trees that were let through, down
//! to a given depth. It reports each difference under the directory in which
//! it was found, a tree before what lies below it.

use vstd::prelude::*;
use crate::hash::{null_hash, NodeHash};
use crate::manifest::{
    copy_bytes, diff_entries, diff_sorted_vecs, EntryStatus, EntryView, ManifestEntry, StatusView,
};
use crate::pruner::{lemma_always_absorbs, lemma_never_twice_is_never, Pruner};

verus! {

/// The manifest of one directory: its hash and its entries, ordered by name.
#[derive(Debug)]
pub struct Manifest {
    pub id: NodeHash,
    pub entries: Vec<ManifestEntry>,
}

impl DeepView for Manifest {
    type V = (NodeHash, Seq<EntryView>);

    open spec fn deep_view(&self) -> (NodeHash, Seq<EntryView>) {
        (self.id, self.entries.deep_view())
    }
}

/// The manifests that a walk can read, found by their hash.
#[derive(Debug)]
pub struct ManifestStore {
    pub manifests: Vec<Manifest>,
}

impl DeepView for ManifestStore {
    type V = Seq<(NodeHash, Seq<EntryView>)>;

    open spec fn deep_view(&self) -> Seq<(NodeHash, Seq<EntryView>)> {
        self.manifests.deep_view()
    }
}

/// The index of the first manifest from `from` on that has the hash `id`.
pub open spec fn position_of(
    store: Seq<(NodeHash, Seq<EntryView>)>,
    id: NodeHash,
    from: int,
) -> Option<int>
    decreases store.len() - from,
{
    if from < 0 || from >= store.len() {
        None
    } else if store[from].0 == id {
        Some(from)
    } else {
        position_of(store, id, from + 1)
    }
}

/// The entries of the manifest with the hash `id`. The null hash names the
/// empty manifest; another hash names the first manifest of the store that
/// has it, and nothing if there is none.
pub open spec fn entries_of(store: Seq<(NodeHash, Seq<EntryView>)>, id: NodeHash) -> Option<
    Seq<EntryView>,
> {
    if id == null_hash() {
        Some(Seq::empty())
    } else {
        match position_of(store, id, 0) {
            Some(k) => Some(store[k].1),
            None => None,
        }
    }
}

impl ManifestStore {
    /// A store without manifests.
    pub fn new() -> (store: ManifestStore)
        ensures
            store.deep_view() == Seq::<(NodeHash, Seq<EntryView>)>::empty(),
    {
        let store = ManifestStore { manifests: Vec::new() };
        assert(store.deep_view() =~= Seq::<(NodeHash, Seq<EntryView>)>::empty());
        store
    }

    /// Adds a manifest at the end of the store.
    pub fn insert(&mut self, id: NodeHash, entries: Vec<ManifestEntry>)
        ensures
            final(self).deep_view() == old(self).deep_view().push((id, entries.deep_view())),
    {
        self.manifests.push(Manifest { id, entries });
        assert(self.deep_view() =~= old(self).deep_view().push((id, entries.deep_view())));
    }

    /// The index of the first manifest with the hash `id`.
    pub fn find(&self, id: NodeHash) -> (r: Option<usize>)
        ensures
            match r {
                Some(k) => position_of(self.deep_view(), id, 0) == Some(k as int) && k
                    < self.manifests@.len(),
                None => position_of(self.deep_view(), id, 0).is_none(),
            },
    {
        let mut i: usize = 0;
        while i < self.manifests.len()
            invariant
                i <= self.manifests@.len(),
                position_of(self.deep_view(), id, 0) == position_of(self.deep_view(), id, i as int),
            decreases self.manifests@.len() - i,
        {
            if self.manifests[i].id == id {
                return Some(i);
            }
            i += 1;
        }
        None
    }

    /// The entries of the manifest with the hash `id`; `nothing` stands for
    /// the empty manifest that the null hash names.
    pub fn entries<'a>(&'a self, id: NodeHash, nothing: &'a Vec<ManifestEntry>) -> (r: Option<
        &'a Vec<ManifestEntry>,
    >)
        requires
            nothing@.len() == 0,
        ensures
            match r {
                Some(e) => entries_of(self.deep_view(), id) == Some(e.deep_view()),
                None => entries_of(self.deep_view(), id).is_none(),
            },
    {
        if id.is_null() {
            assert(nothing.deep_view() =~= Seq::<EntryView>::empty());
            Some(nothing)
        } else {
            match self.find(id) {
                Some(k) => Some(&self.manifests[k].entries),
                None => None,
            }
        }
    }
}

/// The path of `name` in the directory `dir`. The root directory has the
/// empty path and the root entry the empty name.
pub open spec fn joined_path(dir: Seq<u8>, name: Seq<u8>) -> Seq<u8> {
    if dir.len() == 0 {
        name
    } else if name.len() == 0 {
        dir
    } else {
        dir + seq![47u8] + name
    }
}

/// The path of `name` in the directory `dir`.
pub fn join_path(dir: &Vec<u8>, name: &Vec<u8>) -> (path: Vec<u8>)
    ensures
        path@ == joined_path(dir@, name@),
{
    if dir.len() == 0 {
        copy_bytes(name)
    } else if name.len() == 0 {
        copy_bytes(dir)
    } else {
        let mut path = copy_bytes(dir);
        path.push(47u8);
        let mut i: usize = 0;
        while i < name.len()
            invariant
                i <= name@.len(),
                path@ == dir@ + seq![47u8] + name@.take(i as int),
            decreases name@.len() - i,
        {
            path.push(name[i]);
            assert(name@.take(i + 1) =~= name@.take(i as int).push(name@[i as int]));
            i += 1;
        }
        assert(name@.take(name@.len() as int) =~= name@);
        path
    }
}

/// A difference and the directory in which it was found.
#[derive(Debug)]
pub struct ChangedEntry {
    pub dirname: Vec<u8>,
    pub status: EntryStatus,
}

/// A reported difference as a mathematical value.
pub struct ChangedView {
    pub dirname: Seq<u8>,
    pub status: StatusView,
}

impl DeepView for ChangedEntry {
    type V = ChangedView;

    open spec fn deep_view(&self) -> ChangedView {
        ChangedView { dirname: self.dirname@, status: self.status.deep_view() }
    }
}

/// The differences that the pruner lets through, in order, and the hashes
/// remembered after it was asked about all of them.
pub open spec fn let_through(
    pruner: Pruner,
    statuses: Seq<StatusView>,
    visited: Seq<NodeHash>,
) -> (Seq<StatusView>, Seq<NodeHash>)
    decreases statuses.len(),
{
    if statuses.len() == 0 {
        (Seq::empty(), visited)
    } else {
        let rest = let_through(
            pruner,
            statuses.drop_first(),
            pruner.visited_after(statuses[0], visited),
        );
        if pruner.prunes(statuses[0], visited) {
            rest
        } else {
            (seq![statuses[0]] + rest.0, rest.1)
        }
    }
}

/// Asks the pruner about each difference in turn and keeps those that it
/// lets through.
pub fn keep_unpruned(pruner: &Pruner, statuses: &Vec<EntryStatus>, visited: &mut Vec<NodeHash>) -> (kept:
    Vec<EntryStatus>)
    ensures
        kept.deep_view() == let_through(*pruner, statuses.deep_view(), old(visited)@).0,
        final(visited)@ == let_through(*pruner, statuses.deep_view(), old(visited)@).1,
{
    let mut kept: Vec<EntryStatus> = Vec::new();
    let mut i: usize = 0;
    assert(statuses.deep_view().skip(0) =~= statuses.deep_view());
    assert(kept.deep_view() =~= Seq::<StatusView>::empty());
    assert(Seq::<StatusView>::empty() + let_through(
        *pruner,
        statuses.deep_view(),
        visited@,
    ).0 =~= let_through(*pruner, statuses.deep_view(), visited@).0);
    while i < statuses.len()
        invariant
            i <= statuses@.len(),
            kept.deep_view() + let_through(*pruner, statuses.deep_view().skip(i as int), visited@).0
                == let_through(*pruner, statuses.deep_view(), old(visited)@).0,
            let_through(*pruner, statuses.deep_view().skip(i as int), visited@).1 == let_through(
                *pruner,
                statuses.deep_view(),
                old(visited)@,
            ).1,
        decreases statuses@.len() - i,
    {
        let ghost rest = statuses.deep_view().skip(i as int);
        let ghost before = kept.deep_view();
        let ghost seen = visited@;
        proof {
            assert(rest[0] == statuses@[i as int].deep_view());
            assert(rest.drop_first() =~= statuses.deep_view().skip(i + 1));
        }
        if !pruner.should_prune(&statuses[i], visited) {
            kept.push(statuses[i].duplicate());
            proof {
                let tail = let_through(*pruner, rest.drop_first(), visited@);
                assert(kept.deep_view() =~= before + seq![rest[0]]);
                assert((before + seq![rest[0]]) + tail.0 =~= before + (seq![rest[0]] + tail.0));
            }
        }
        i += 1;
    }
    proof {
        assert(statuses.deep_view().skip(i as int).len() == 0);
        assert(kept.deep_view() + Seq::<StatusView>::empty() =~= kept.deep_view());
    }
    kept
}

/// What a walk found: the differences in the order of the report, and the
/// hashes remembered at its end.
pub struct WalkOutcome {
    pub entries: Seq<ChangedView>,
    pub visited: Seq<NodeHash>,
}

/// The walk over the differences between the manifest `to` and the manifest
/// `from` of the directory `dir`. The differences of the directory are put
/// to the pruner first, all of them; then each one that was let through is
/// reported, followed by what lies below it. `depth_left` counts the levels
/// that may still be reported: the walk descends only where it is above 1.
/// A manifest that the store lacks ends the walk with that hash as error.
pub open spec fn walk_dir(
    store: Seq<(NodeHash, Seq<EntryView>)>,
    pruner: Pruner,
    dir: Seq<u8>,
    to: NodeHash,
    from: NodeHash,
    depth_left: nat,
    visited: Seq<NodeHash>,
) -> Result<WalkOutcome, NodeHash>
    decreases depth_left, 1nat, 0nat,
{
    match (entries_of(store, to), entries_of(store, from)) {
        (Some(t), Some(f)) => {
            let kept = let_through(pruner, diff_entries(t, f), visited);
            walk_entries(store, pruner, dir, kept.0, depth_left, kept.1)
        },
        (None, _) => Err(to),
        (_, None) => Err(from),
    }
}

/// The report for the differences of one directory that were let through:
/// each in turn, followed by what lies below it.
pub open spec fn walk_entries(
    store: Seq<(NodeHash, Seq<EntryView>)>,
    pruner: Pruner,
    dir: Seq<u8>,
    kept: Seq<StatusView>,
    depth_left: nat,
    visited: Seq<NodeHash>,
) -> Result<WalkOutcome, NodeHash>
    decreases depth_left, 0nat, kept.len(),
{
    if kept.len() == 0 {
        Ok(WalkOutcome { entries: Seq::empty(), visited })
    } else {
        match walk_below(store, pruner, dir, kept[0], depth_left, visited) {
            Err(missing) => Err(missing),
            Ok(below) => match walk_entries(
                store,
                pruner,
                dir,
                kept.drop_first(),
                depth_left,
                below.visited,
            ) {
                Err(missing) => Err(missing),
                Ok(rest) => Ok(
                    WalkOutcome {
                        entries: seq![ChangedView { dirname: dir, status: kept[0] }] + below.entries
                            + rest.entries,
                        visited: rest.visited,
                    },
                ),
            },
        }
    }
}

/// What lies below one difference: the walk over its trees if it is a tree
/// and the depth allows, else nothing.
pub open spec fn walk_below(
    store: Seq<(NodeHash, Seq<EntryView>)>,
    pruner: Pruner,
    dir: Seq<u8>,
    status: StatusView,
    depth_left: nat,
    visited: Seq<NodeHash>,
) -> Result<WalkOutcome, NodeHash>
    decreases depth_left, 0nat, 0nat,
{
    if status.is_tree() && depth_left > 1 {
        walk_dir(
            store,
            pruner,
            joined_path(dir, status.entry().name),
            status.to_hash(),
            status.from_hash(),
            (depth_left - 1) as nat,
            visited,
        )
    } else {
        Ok(WalkOutcome { entries: Seq::empty(), visited })
    }
}

/// An outcome with `entries` put in front of what it reports.
pub open spec fn after(entries: Seq<ChangedView>, outcome: Result<WalkOutcome, NodeHash>) -> Result<
    WalkOutcome,
    NodeHash,
> {
    match outcome {
        Ok(o) => Ok(WalkOutcome { entries: entries + o.entries, visited: o.visited }),
        Err(missing) => Err(missing),
    }
}

pub(crate) fn to_hash_of(status: &EntryStatus) -> (h: NodeHash)
    ensures
        h == status.deep_view().to_hash(),
{
    match status {
        EntryStatus::Added(e) => e.hash,
        EntryStatus::Modified { to_entry, from_entry } => to_entry.hash,
        EntryStatus::Deleted(_) => NodeHash::null(),
    }
}

pub(crate) fn from_hash_of(status: &EntryStatus) -> (h: NodeHash)
    ensures
        h == status.deep_view().from_hash(),
{
    match status {
        EntryStatus::Added(_) => NodeHash::null(),
        EntryStatus::Modified { to_entry, from_entry } => from_entry.hash,
        EntryStatus::Deleted(e) => e.hash,
    }
}

/// Walks over the differences between the manifests `to` and `from` of the
/// directory `dir` and appends what it finds to `out`. `visited` is the
/// memory of the pruner. On an error nothing is said of `out` and `visited`.
pub fn walk(
    store: &ManifestStore,
    pruner: &Pruner,
    dir: &Vec<u8>,
    to: NodeHash,
    from: NodeHash,
    depth_left: usize,
    out: &mut Vec<ChangedEntry>,
    visited: &mut Vec<NodeHash>,
) -> (r: Result<(), NodeHash>)
    ensures
        match walk_dir(
            store.deep_view(),
            *pruner,
            dir@,
            to,
            from,
            depth_left as nat,
            old(visited)@,
        ) {
            Ok(found) => r.is_ok() && final(out).deep_view() == old(out).deep_view()
                + found.entries && final(visited)@ == found.visited,
            Err(missing) => r == Err::<(), NodeHash>(missing),
        },
    decreases depth_left,
{
    let ghost goal = walk_dir(store.deep_view(), *pruner, dir@, to, from, depth_left as nat, visited@);
    let nothing: Vec<ManifestEntry> = Vec::new();
    let to_entries = match store.entries(to, &nothing) {
        Some(e) => e,
        None => {
            return Err(to);
        },
    };
    let from_entries = match store.entries(from, &nothing) {
        Some(e) => e,
        None => {
            return Err(from);
        },
    };
    let statuses = diff_sorted_vecs(to_entries, from_entries);
    let kept = keep_unpruned(pruner, &statuses, visited);
    let ghost whole = walk_entries(
        store.deep_view(),
        *pruner,
        dir@,
        kept.deep_view(),
        depth_left as nat,
        visited@,
    );
    let ghost out0 = out.deep_view();
    let mut i: usize = 0;
    proof {
        assert(goal == whole);
        assert(kept.deep_view().skip(0) =~= kept.deep_view());
        assert(out.deep_view() =~= out0 + Seq::<ChangedView>::empty());
        match whole {
            Ok(o) => {
                assert(Seq::<ChangedView>::empty() + o.entries =~= o.entries);
            },
            Err(_) => {},
        }
    }
    let ghost mut reported: Seq<ChangedView> = Seq::empty();
    while i < kept.len()
        invariant
            i <= kept@.len(),
            out.deep_view() == out0 + reported,
            after(
                reported,
                walk_entries(
                    store.deep_view(),
                    *pruner,
                    dir@,
                    kept.deep_view().skip(i as int),
                    depth_left as nat,
                    visited@,
                ),
            ) == goal,
            goal == walk_dir(
                store.deep_view(),
                *pruner,
                dir@,
                to,
                from,
                depth_left as nat,
                old(visited)@,
            ),
        decreases kept@.len() - i,
    {
        let ghost rest = kept.deep_view().skip(i as int);
        let ghost seen = visited@;
        proof {
            assert(rest[0] == kept@[i as int].deep_view());
            assert(rest.drop_first() =~= kept.deep_view().skip(i + 1));
        }
        let status = &kept[i];
        let ghost before = out.deep_view();
        let ghost this = ChangedView { dirname: dir@, status: rest[0] };
        out.push(ChangedEntry { dirname: copy_bytes(dir), status: status.duplicate() });
        assert(out.deep_view() =~= before.push(this));
        let ghost below = walk_below(
            store.deep_view(),
            *pruner,
            dir@,
            rest[0],
            depth_left as nat,
            seen,
        );
        if status.is_tree() && depth_left > 1 {
            let child = join_path(dir, &status.entry().name);
            let ghost mid = out.deep_view();
            match walk(
                store,
                pruner,
                &child,
                to_hash_of(status),
                from_hash_of(status),
                depth_left - 1,
                out,
                visited,
            ) {
                Ok(()) => {},
                Err(missing) => {
                    proof {
                        assert(below == Err::<WalkOutcome, NodeHash>(missing));
                        assert(walk_entries(
                            store.deep_view(),
                            *pruner,
                            dir@,
                            rest,
                            depth_left as nat,
                            seen,
                        ) == Err::<WalkOutcome, NodeHash>(missing));
                    }
                    return Err(missing);
                },
            }
        } else {
            assert(out.deep_view() =~= before.push(this) + Seq::<ChangedView>::empty());
        }
        proof {
            let b = below->Ok_0;
            let next = walk_entries(
                store.deep_view(),
                *pruner,
                dir@,
                rest.drop_first(),
                depth_left as nat,
                b.visited,
            );
            let grown = reported + seq![this] + b.entries;
            assert(out.deep_view() =~= out0 + grown);
            match next {
                Ok(n) => {
                    assert(reported + (seq![this] + b.entries + n.entries) =~= grown + n.entries);
                },
                Err(_) => {},
            }
            reported = grown;
        }
        i += 1;
    }
    proof {
        assert(kept.deep_view().skip(i as int).len() == 0);
        assert(reported + Seq::<ChangedView>::empty() =~= reported);
    }
    Ok(())
}

/// Whether two pruners answer every question alike and remember alike.
pub open spec fn same_pruning(p: Pruner, q: Pruner) -> bool {
    forall|status: StatusView, visited: Seq<NodeHash>|
        #![trigger p.prunes(status, visited)]
        #![trigger p.visited_after(status, visited)]
        p.prunes(status, visited) == q.prunes(status, visited) && p.visited_after(status, visited)
            == q.visited_after(status, visited)
}

/// Pruners that answer alike let the same differences through.
pub proof fn lemma_same_pruning_lets_through(
    p: Pruner,
    q: Pruner,
    statuses: Seq<StatusView>,
    visited: Seq<NodeHash>,
)
    requires
        same_pruning(p, q),
    ensures
        let_through(p, statuses, visited) == let_through(q, statuses, visited),
    decreases statuses.len(),
{
    if statuses.len() > 0 {
        assert(p.prunes(statuses[0], visited) == q.prunes(statuses[0], visited));
        assert(p.visited_after(statuses[0], visited) == q.visited_after(statuses[0], visited));
        lemma_same_pruning_lets_through(
            p,
            q,
            statuses.drop_first(),
            p.visited_after(statuses[0], visited),
        );
    }
}

/// Pruners that answer alike give the same walk.
pub proof fn lemma_same_pruning_same_walk(
    store: Seq<(NodeHash, Seq<EntryView>)>,
    p: Pruner,
    q: Pruner,
    dir: Seq<u8>,
    to: NodeHash,
    from: NodeHash,
    depth_left: nat,
    visited: Seq<NodeHash>,
)
    requires
        same_pruning(p, q),
    ensures
        walk_dir(store, p, dir, to, from, depth_left, visited) == walk_dir(
            store,
            q,
            dir,
            to,
            from,
            depth_left,
            visited,
        ),
    decreases depth_left, 1nat, 0nat,
{
    match (entries_of(store, to), entries_of(store, from)) {
        (Some(t), Some(f)) => {
            lemma_same_pruning_lets_through(p, q, diff_entries(t, f), visited);
            let kept = let_through(p, diff_entries(t, f), visited);
            lemma_same_pruning_same_entries(store, p, q, dir, kept.0, depth_left, kept.1);
        },
        _ => {},
    }
}

/// Pruners that answer alike give the same report for the differences of a
/// directory.
pub proof fn lemma_same_pruning_same_entries(
    store: Seq<(NodeHash, Seq<EntryView>)>,
    p: Pruner,
    q: Pruner,
    dir: Seq<u8>,
    kept: Seq<StatusView>,
    depth_left: nat,
    visited: Seq<NodeHash>,
)
    requires
        same_pruning(p, q),
    ensures
        walk_entries(store, p, dir, kept, depth_left, visited) == walk_entries(
            store,
            q,
            dir,
            kept,
            depth_left,
            visited,
        ),
    decreases depth_left, 0nat, kept.len(),
{
    if kept.len() > 0 {
        let status = kept[0];
        if status.is_tree() && depth_left > 1 {
            lemma_same_pruning_same_walk(
                store,
                p,
                q,
                joined_path(dir, status.entry().name),
                status.to_hash(),
                status.from_hash(),
                (depth_left - 1) as nat,
                visited,
            );
        }
        assert(walk_below(store, p, dir, status, depth_left, visited) == walk_below(
            store,
            q,
            dir,
            status,
            depth_left,
            visited,
        ));
        match walk_below(store, p, dir, status, depth_left, visited) {
            Ok(below) => {
                lemma_same_pruning_same_entries(
                    store,
                    p,
                    q,
                    dir,
                    kept.drop_first(),
                    depth_left,
                    below.visited,
                );
            },
            Err(_) => {},
        }
    }
}

/// A walk under a pruner that prunes everything lets nothing through.
pub proof fn lemma_always_lets_nothing_through(statuses: Seq<StatusView>, visited: Seq<NodeHash>)
    ensures
        let_through(Pruner::Always, statuses, visited) == (Seq::<StatusView>::empty(), visited),
    decreases statuses.len(),
{
    if statuses.len() > 0 {
        lemma_always_lets_nothing_through(statuses.drop_first(), visited);
    }
}

/// A walk under a combination whose first part prunes everything is the
/// walk under the pruner that prunes everything, whatever the second part
/// is: where both manifests are at hand, it reports nothing.
pub proof fn lemma_walk_with_always_first(
    store: Seq<(NodeHash, Seq<EntryView>)>,
    second: Pruner,
    dir: Seq<u8>,
    to: NodeHash,
    from: NodeHash,
    depth_left: nat,
    visited: Seq<NodeHash>,
)
    ensures
        walk_dir(
            store,
            Pruner::Either(Box::new(Pruner::Always), Box::new(second)),
            dir,
            to,
            from,
            depth_left,
            visited,
        ) == walk_dir(store, Pruner::Always, dir, to, from, depth_left, visited),
        entries_of(store, to).is_some() && entries_of(store, from).is_some() ==> walk_dir(
            store,
            Pruner::Always,
            dir,
            to,
            from,
            depth_left,
            visited,
        ) == Ok::<WalkOutcome, NodeHash>(WalkOutcome { entries: Seq::empty(), visited }),
{
    let both = Pruner::Either(Box::new(Pruner::Always), Box::new(second));
    assert(same_pruning(both, Pruner::Always)) by {
        assert forall|status: StatusView, seen: Seq<NodeHash>|
            both.prunes(status, seen) == Pruner::Always.prunes(status, seen) && both.visited_after(
                status,
                seen,
            ) == Pruner::Always.visited_after(status, seen) by {
            lemma_always_absorbs(second, status, seen);
        }
    }
    lemma_same_pruning_same_walk(store, both, Pruner::Always, dir, to, from, depth_left, visited);
    match (entries_of(store, to), entries_of(store, from)) {
        (Some(t), Some(f)) => {
            lemma_always_lets_nothing_through(diff_entries(t, f), visited);
        },
        _ => {},
    }
}

/// A walk under the combination of two pruners that prune nothing is the
/// walk under the pruner that prunes nothing: it reports every difference
/// that an unpruned walk reports.
pub proof fn lemma_walk_with_never_twice(
    store: Seq<(NodeHash, Seq<EntryView>)>,
    dir: Seq<u8>,
    to: NodeHash,
    from: NodeHash,
    depth_left: nat,
    visited: Seq<NodeHash>,
)
    ensures
        walk_dir(
            store,
            Pruner::Either(Box::new(Pruner::Never), Box::new(Pruner::Never)),
            dir,
            to,
            from,
            depth_left,
            visited,
        ) == walk_dir(store, Pruner::Never, dir, to, from, depth_left, visited),
{
    let both = Pruner::Either(Box::new(Pruner::Never), Box::new(Pruner::Never));
    assert(same_pruning(both, Pruner::Never)) by {
        assert forall|status: StatusView, seen: Seq<NodeHash>|
            both.prunes(status, seen) == Pruner::Never.prunes(status, seen) && both.visited_after(
                status,
                seen,
            ) == Pruner::Never.visited_after(status, seen) by {
            lemma_never_twice_is_never(status, seen);
        }
    }
    lemma_same_pruning_same_walk(store, both, Pruner::Never, dir, to, from, depth_left, visited);
}

} // verus!
