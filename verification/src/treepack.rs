//! The `gettreepack` command: which trees a client is sent.
//!
//! For each manifest that the client wants, the engine walks over the
//! differences to the base manifest that the client has, keeps the trees
//! that were added or modified, and ends with the root of the wanted
//! manifest. Files and deletions are pruned: a tree pack ships directories
//! only. Where several manifests are wanted, a tree that one walk has let
//! through is pruned in the others. At the end every hash is kept once, at
//! its first place. With depth 1 there is no walk: only the roots are sent.

use vstd::prelude::*;
use crate::errors::CommandError;
use crate::hash::{null_hash, NodeHash};
use crate::manifest::{
    copy_bytes, diff_entries, root_entry, EntryKind, EntryStatus, EntryView, ManifestEntry,
    StatusView,
};
use crate::pruner::{contains_hash, lemma_always_prunes, Pruner};
use crate::treewalk::{
    entries_of, joined_path, let_through, walk, walk_below, walk_dir, walk_entries, ChangedEntry,
    ChangedView, ManifestStore,
};

verus! {

/// The depth of a tree-fetch that names none.
pub const DEFAULT_DEPTH: usize = 131072;

/// The arguments of `gettreepack`.
#[derive(Debug)]
pub struct GettreepackArgs {
    /// The directory below which trees are wanted; empty for the root.
    pub rootdir: Vec<u8>,
    /// The manifests that the client wants.
    pub mfnodes: Vec<NodeHash>,
    /// The manifests that the client has. Only the first is used.
    pub basemfnodes: Vec<NodeHash>,
    /// Directories to restrict the answer to; not supported.
    pub directories: Vec<Vec<u8>>,
    /// How many levels to send; a request without one gets the default.
    pub depth: Option<usize>,
}

/// A tree that is sent: its entry and the directory that holds it.
#[derive(Debug)]
pub struct ChangedTree {
    pub entry: ManifestEntry,
    pub basepath: Vec<u8>,
}

/// A sent tree as a mathematical value.
pub struct TreeView {
    pub entry: EntryView,
    pub basepath: Seq<u8>,
}

impl DeepView for ChangedTree {
    type V = TreeView;

    open spec fn deep_view(&self) -> TreeView {
        TreeView { entry: self.entry.deep_view(), basepath: self.basepath@ }
    }
}

/// Whether a byte string is a well-formed path: not empty, without a zero
/// byte, and without an empty element, that is, no slash at either end and
/// no two slashes in a row.
pub open spec fn is_valid_path(path: Seq<u8>) -> bool {
    &&& path.len() > 0
    &&& forall|i: int| 0 <= i < path.len() ==> #[trigger] path[i] != 0
    &&& path[0] != 47
    &&& path[path.len() - 1] != 47
    &&& forall|i: int| 0 <= i < path.len() - 1 ==> !(#[trigger] path[i] == 47 && path[i + 1] == 47)
}

/// Whether a byte string is a well-formed path.
pub fn check_path(path: &Vec<u8>) -> (r: bool)
    ensures
        r == is_valid_path(path@),
{
    let n = path.len();
    if n == 0 {
        return false;
    }
    if path[0] == 47 || path[n - 1] == 47 {
        return false;
    }
    let mut i: usize = 0;
    while i < n
        invariant
            i <= n,
            n == path@.len(),
            forall|j: int| 0 <= j < i ==> #[trigger] path@[j] != 0,
            forall|j: int| 0 <= j < i && j < n - 1 ==> !(#[trigger] path@[j] == 47 && path@[j + 1] == 47),
        decreases n - i,
    {
        if path[i] == 0 {
            return false;
        }
        if i + 1 < n && path[i] == 47 && path[i + 1] == 47 {
            return false;
        }
        i += 1;
    }
    true
}

/// What a walk for a tree pack prunes by itself: files and deletions.
pub open spec fn default_pruner() -> Pruner {
    Pruner::Either(Box::new(Pruner::Files), Box::new(Pruner::Deleted))
}

/// The pruner of a request for `targets` manifests. With more than one, the
/// trees that were let through before are pruned too.
pub open spec fn pruner_for(targets: nat) -> Pruner {
    if targets > 1 {
        Pruner::Either(Box::new(default_pruner()), Box::new(Pruner::Visited))
    } else {
        default_pruner()
    }
}

/// The trees among reported differences: the new entry of each addition or
/// modification of a tree, in order.
pub open spec fn trees_of(entries: Seq<ChangedView>) -> Seq<TreeView>
    decreases entries.len(),
{
    if entries.len() == 0 {
        Seq::empty()
    } else {
        let last = entries.last();
        if last.status.is_tree() && !(last.status is Deleted) {
            trees_of(entries.drop_last()).push(
                TreeView { entry: last.status.entry(), basepath: last.dirname },
            )
        } else {
            trees_of(entries.drop_last())
        }
    }
}

/// The root of the manifest `target` as a sent tree.
pub open spec fn root_tree(target: NodeHash, rootdir: Seq<u8>) -> TreeView {
    TreeView { entry: root_entry(target), basepath: rootdir }
}

/// What one wanted manifest contributes, and the hashes remembered after
/// it: with depth 1 its root alone; else the trees that the walk against
/// the base finds, and then its root.
pub open spec fn target_trees(
    store: Seq<(NodeHash, Seq<EntryView>)>,
    pruner: Pruner,
    rootdir: Seq<u8>,
    target: NodeHash,
    base: NodeHash,
    depth: nat,
    visited: Seq<NodeHash>,
) -> Result<(Seq<TreeView>, Seq<NodeHash>), NodeHash> {
    if depth == 1 {
        Ok((seq![root_tree(target, rootdir)], visited))
    } else {
        match walk_dir(store, pruner, rootdir, target, base, depth, visited) {
            Ok(found) => Ok((trees_of(found.entries).push(root_tree(target, rootdir)), found.visited)),
            Err(missing) => Err(missing),
        }
    }
}

/// What all wanted manifests contribute, one after the other.
pub open spec fn all_target_trees(
    store: Seq<(NodeHash, Seq<EntryView>)>,
    pruner: Pruner,
    rootdir: Seq<u8>,
    targets: Seq<NodeHash>,
    base: NodeHash,
    depth: nat,
    visited: Seq<NodeHash>,
) -> Result<Seq<TreeView>, NodeHash>
    decreases targets.len(),
{
    if targets.len() == 0 {
        Ok(Seq::empty())
    } else {
        match target_trees(store, pruner, rootdir, targets[0], base, depth, visited) {
            Err(missing) => Err(missing),
            Ok(first) => match all_target_trees(
                store,
                pruner,
                rootdir,
                targets.drop_first(),
                base,
                depth,
                first.1,
            ) {
                Err(missing) => Err(missing),
                Ok(rest) => Ok(first.0 + rest),
            },
        }
    }
}

/// The trees whose hash is not in `used` and did not occur before, in
/// order: of each hash the first tree.
pub open spec fn first_of_each(trees: Seq<TreeView>, used: Seq<NodeHash>) -> Seq<TreeView>
    decreases trees.len(),
{
    if trees.len() == 0 {
        Seq::empty()
    } else if used.contains(trees[0].entry.hash) {
        first_of_each(trees.drop_first(), used)
    } else {
        seq![trees[0]] + first_of_each(trees.drop_first(), used.push(trees[0].entry.hash))
    }
}

/// The base manifest of a request: the first that the client names, and
/// the null hash, which stands for the empty manifest, if it names none.
pub open spec fn base_of(basemfnodes: Seq<NodeHash>) -> NodeHash {
    if basemfnodes.len() > 0 {
        basemfnodes[0]
    } else {
        null_hash()
    }
}

/// The depth of a request.
pub open spec fn depth_of(depth: Option<usize>) -> nat {
    match depth {
        Some(d) => d as nat,
        None => DEFAULT_DEPTH as nat,
    }
}

/// The trees that answer a request, or why it fails. A request that names
/// directories fails; so does one whose root directory is neither empty
/// nor a well-formed path, and one that needs a manifest that the store
/// lacks.
pub open spec fn changed_trees_of(
    args: GettreepackArgs,
    store: Seq<(NodeHash, Seq<EntryView>)>,
) -> Result<Seq<TreeView>, CommandError> {
    if args.directories@.len() > 0 {
        Err(CommandError::DirectoriesNotSupported)
    } else if args.rootdir@.len() > 0 && !is_valid_path(args.rootdir@) {
        Err(CommandError::InvalidPath)
    } else {
        match all_target_trees(
            store,
            pruner_for(args.mfnodes@.len()),
            args.rootdir@,
            args.mfnodes@,
            base_of(args.basemfnodes@),
            depth_of(args.depth),
            Seq::empty(),
        ) {
            Err(missing) => Err(CommandError::ManifestNotFound(missing)),
            Ok(trees) => Ok(first_of_each(trees, Seq::empty())),
        }
    }
}

/// What a request asks for once its arguments were checked: the directory
/// below which trees are wanted, the base manifest, the depth, and whether
/// the walks share a memory of the trees that were let through.
#[derive(Debug)]
pub struct TreepackPlan {
    pub rootdir: Vec<u8>,
    pub base: NodeHash,
    pub depth: usize,
    pub shared_memory: bool,
}

/// Whether the arguments of a request pass the checks, and why not.
pub open spec fn checked(args: GettreepackArgs) -> Result<(), CommandError> {
    if args.directories@.len() > 0 {
        Err(CommandError::DirectoriesNotSupported)
    } else if args.rootdir@.len() > 0 && !is_valid_path(args.rootdir@) {
        Err(CommandError::InvalidPath)
    } else {
        Ok(())
    }
}

impl TreepackPlan {
    /// The pruner of the walks of this request.
    pub fn pruner(&self) -> (p: Pruner)
        ensures
            p == pruner_for(if self.shared_memory { 2nat } else { 1nat }),
    {
        if self.shared_memory {
            Pruner::either(Pruner::either(Pruner::Files, Pruner::Deleted), Pruner::Visited)
        } else {
            Pruner::either(Pruner::Files, Pruner::Deleted)
        }
    }
}

/// Checks the arguments of a request and says what it asks for. A request
/// that names directories is refused, and so is one whose root directory is
/// neither empty nor a well-formed path.
pub fn plan(args: &GettreepackArgs) -> (r: Result<TreepackPlan, CommandError>)
    ensures
        match checked(*args) {
            Err(e) => r.is_err() && r.unwrap_err() == e,
            Ok(()) => r.is_ok() && r.unwrap().rootdir@ == args.rootdir@ && r.unwrap().base
                == base_of(args.basemfnodes@) && r.unwrap().depth == depth_of(args.depth)
                && r.unwrap().shared_memory == (args.mfnodes@.len() > 1),
        },
{
    let depth: usize = match args.depth {
        Some(d) => d,
        None => DEFAULT_DEPTH,
    };
    if args.directories.len() > 0 {
        return Err(CommandError::DirectoriesNotSupported);
    }
    let base = if args.basemfnodes.len() > 0 {
        args.basemfnodes[0]
    } else {
        NodeHash::null()
    };
    if args.rootdir.len() > 0 && !check_path(&args.rootdir) {
        return Err(CommandError::InvalidPath);
    }
    Ok(
        TreepackPlan {
            rootdir: copy_bytes(&args.rootdir),
            base,
            depth,
            shared_memory: args.mfnodes.len() > 1,
        },
    )
}

/// The tree that a reported difference sends, if it sends one: the new
/// entry of an addition or modification of a tree.
pub fn tree_of(changed: &ChangedEntry) -> (tree: Option<ChangedTree>)
    ensures
        trees_of(seq![changed.deep_view()]) == (match tree {
            Some(t) => seq![t.deep_view()],
            None => Seq::<TreeView>::empty(),
        }),
{
    proof {
        let one = seq![changed.deep_view()];
        assert(one.drop_last() =~= Seq::<ChangedView>::empty());
        assert(trees_of(one.drop_last()) =~= Seq::<TreeView>::empty());
    }
    if changed.status.is_tree() && !changed.status.is_deleted() {
        let tree = ChangedTree {
            entry: changed.status.entry().duplicate(),
            basepath: copy_bytes(&changed.dirname),
        };
        assert(trees_of(seq![changed.deep_view()]) =~= seq![tree.deep_view()]);
        Some(tree)
    } else {
        None
    }
}

/// The hashes that a response has sent already.
#[derive(Debug)]
pub struct SeenHashes {
    used: Vec<NodeHash>,
}

impl View for SeenHashes {
    type V = Seq<NodeHash>;

    closed spec fn view(&self) -> Seq<NodeHash> {
        self.used@
    }
}

impl SeenHashes {
    /// No hash was sent yet.
    pub fn new() -> (seen: SeenHashes)
        ensures
            seen@ == Seq::<NodeHash>::empty(),
    {
        SeenHashes { used: Vec::new() }
    }

    /// Says whether the hash is sent for the first time, and takes note of
    /// it.
    pub fn first_time(&mut self, hash: NodeHash) -> (first: bool)
        ensures
            first == !old(self)@.contains(hash),
            first ==> final(self)@ == old(self)@.push(hash),
            !first ==> final(self)@ == old(self)@,
    {
        if contains_hash(&self.used, hash) {
            false
        } else {
            self.used.push(hash);
            true
        }
    }
}

/// Appends the trees among `entries` to `out`.
fn push_trees(entries: &Vec<ChangedEntry>, out: &mut Vec<ChangedTree>)
    ensures
        final(out).deep_view() == old(out).deep_view() + trees_of(entries.deep_view()),
{
    let ghost out0 = out.deep_view();
    let mut i: usize = 0;
    assert(entries.deep_view().take(0) =~= Seq::<ChangedView>::empty());
    assert(out.deep_view() =~= out0 + Seq::<TreeView>::empty());
    while i < entries.len()
        invariant
            i <= entries@.len(),
            out.deep_view() == out0 + trees_of(entries.deep_view().take(i as int)),
        decreases entries@.len() - i,
    {
        let ghost upto = entries.deep_view().take(i + 1);
        let ghost before = out.deep_view();
        proof {
            assert(upto.drop_last() =~= entries.deep_view().take(i as int));
            assert(upto.last() == entries@[i as int].deep_view());
        }
        let changed = &entries[i];
        if changed.status.is_tree() && !changed.status.is_deleted() {
            out.push(
                ChangedTree {
                    entry: changed.status.entry().duplicate(),
                    basepath: copy_bytes(&changed.dirname),
                },
            );
            proof {
                let tree = TreeView { entry: upto.last().status.entry(), basepath: upto.last().dirname };
                assert(out.deep_view() =~= before.push(tree));
                assert(before.push(tree) =~= out0 + trees_of(upto));
            }
        }
        i += 1;
    }
    assert(entries.deep_view().take(entries@.len() as int) =~= entries.deep_view());
}

/// Keeps of each hash the first tree.
pub fn dedup_by_hash(trees: Vec<ChangedTree>) -> (out: Vec<ChangedTree>)
    ensures
        out.deep_view() == first_of_each(trees.deep_view(), Seq::empty()),
{
    let mut out: Vec<ChangedTree> = Vec::new();
    let mut used: Vec<NodeHash> = Vec::new();
    let mut i: usize = 0;
    let ghost goal = first_of_each(trees.deep_view(), Seq::empty());
    proof {
        assert(trees.deep_view().skip(0) =~= trees.deep_view());
        assert(out.deep_view() =~= Seq::<TreeView>::empty());
        assert(Seq::<TreeView>::empty() + goal =~= goal);
    }
    while i < trees.len()
        invariant
            i <= trees@.len(),
            out.deep_view() + first_of_each(trees.deep_view().skip(i as int), used@) == goal,
        decreases trees@.len() - i,
    {
        let ghost rest = trees.deep_view().skip(i as int);
        let ghost before = out.deep_view();
        proof {
            assert(rest[0] == trees@[i as int].deep_view());
            assert(rest.drop_first() =~= trees.deep_view().skip(i + 1));
        }
        let tree = &trees[i];
        if !contains_hash(&used, tree.entry.hash) {
            let ghost seen = used@;
            used.push(tree.entry.hash);
            out.push(ChangedTree { entry: tree.entry.duplicate(), basepath: copy_bytes(&tree.basepath) });
            proof {
                let tail = first_of_each(rest.drop_first(), used@);
                assert(out.deep_view() =~= before + seq![rest[0]]);
                assert((before + seq![rest[0]]) + tail =~= before + (seq![rest[0]] + tail));
            }
        }
        i += 1;
    }
    proof {
        assert(trees.deep_view().skip(i as int).len() == 0);
        assert(out.deep_view() + Seq::<TreeView>::empty() =~= out.deep_view());
    }
    out
}

/// Whether no two of the trees have the same hash.
pub open spec fn distinct_hashes(trees: Seq<TreeView>) -> bool {
    forall|i: int, j: int|
        0 <= i < j < trees.len() ==> (#[trigger] trees[i]).entry.hash != (#[trigger] trees[j]).entry.hash
}

/// Keeping of each hash the first tree leaves no hash twice, and none that
/// was used before.
pub proof fn lemma_first_of_each_is_distinct(trees: Seq<TreeView>, used: Seq<NodeHash>)
    ensures
        distinct_hashes(first_of_each(trees, used)),
        forall|i: int|
            0 <= i < first_of_each(trees, used).len() ==> !used.contains(
                (#[trigger] first_of_each(trees, used)[i]).entry.hash,
            ),
    decreases trees.len(),
{
    if trees.len() > 0 {
        let h = trees[0].entry.hash;
        if used.contains(h) {
            lemma_first_of_each_is_distinct(trees.drop_first(), used);
        } else {
            let grown = used.push(h);
            let rest = first_of_each(trees.drop_first(), grown);
            lemma_first_of_each_is_distinct(trees.drop_first(), grown);
            let all = first_of_each(trees, used);
            assert(all =~= seq![trees[0]] + rest);
            assert(grown[used.len() as int] == h);
            assert forall|i: int| 0 <= i < all.len() implies !used.contains(
                (#[trigger] all[i]).entry.hash,
            ) by {
                if i > 0 {
                    assert(all[i] == rest[i - 1]);
                    let g = rest[i - 1].entry.hash;
                    if used.contains(g) {
                        let k = choose|k: int| 0 <= k < used.len() && used[k] == g;
                        assert(grown[k] == g);
                    }
                }
            }
            assert forall|i: int, j: int| 0 <= i < j < all.len() implies (#[trigger] all[i]).entry.hash
                != (#[trigger] all[j]).entry.hash by {
                assert(all[j] == rest[j - 1]);
                if i == 0 {
                    assert(!grown.contains(rest[j - 1].entry.hash));
                } else {
                    assert(all[i] == rest[i - 1]);
                }
            }
        }
    }
}

/// No hash is sent twice: the trees that answer a request have distinct
/// hashes, however many manifests are wanted and however often a tree
/// occurs in them.
pub proof fn lemma_changed_trees_are_distinct(
    args: GettreepackArgs,
    store: Seq<(NodeHash, Seq<EntryView>)>,
)
    ensures
        changed_trees_of(args, store) is Ok ==> distinct_hashes(changed_trees_of(args, store)->Ok_0),
{
    if changed_trees_of(args, store) is Ok {
        let trees = all_target_trees(
            store,
            pruner_for(args.mfnodes@.len()),
            args.rootdir@,
            args.mfnodes@,
            base_of(args.basemfnodes@),
            depth_of(args.depth),
            Seq::empty(),
        )->Ok_0;
        lemma_first_of_each_is_distinct(trees, Seq::empty());
    }
}

/// With depth 1 a request for one manifest is answered with exactly one
/// tree, the root of that manifest, whatever the manifests hold.
pub proof fn lemma_depth_one_sends_the_root(
    args: GettreepackArgs,
    store: Seq<(NodeHash, Seq<EntryView>)>,
)
    requires
        args.depth == Some(1usize),
        args.mfnodes@.len() == 1,
        args.directories@.len() == 0,
        args.rootdir@.len() == 0 || is_valid_path(args.rootdir@),
    ensures
        changed_trees_of(args, store) == Ok::<Seq<TreeView>, CommandError>(
            seq![root_tree(args.mfnodes@[0], args.rootdir@)],
        ),
{
    let pruner = pruner_for(args.mfnodes@.len());
    let base = base_of(args.basemfnodes@);
    let root = root_tree(args.mfnodes@[0], args.rootdir@);
    let targets = args.mfnodes@;
    assert(targets.drop_first().len() == 0);
    assert(all_target_trees(
        store,
        pruner,
        args.rootdir@,
        targets.drop_first(),
        base,
        1,
        Seq::empty(),
    ) == Ok::<Seq<TreeView>, NodeHash>(Seq::empty()));
    assert(seq![root] + Seq::<TreeView>::empty() =~= seq![root]);
    assert(all_target_trees(store, pruner, args.rootdir@, targets, base, 1, Seq::empty()) == Ok::<
        Seq<TreeView>,
        NodeHash,
    >(seq![root]));
    let one = seq![root];
    assert(one.drop_first().len() == 0);
    assert(first_of_each(one.drop_first(), Seq::<NodeHash>::empty().push(root.entry.hash))
        =~= Seq::<TreeView>::empty());
    assert(first_of_each(one, Seq::empty()) =~= one);
}

/// Whether every reported difference is the addition or the modification of
/// a tree.
pub open spec fn trees_only(entries: Seq<ChangedView>) -> bool {
    forall|i: int|
        0 <= i < entries.len() ==> (#[trigger] entries[i]).status.is_tree() && !(entries[i].status
            is Deleted)
}

proof fn lemma_let_through_keeps_unpruned(
    pruner: Pruner,
    statuses: Seq<StatusView>,
    visited: Seq<NodeHash>,
)
    ensures
        forall|i: int|
            0 <= i < let_through(pruner, statuses, visited).0.len()
                ==> !pruner.always_prunes(
                #[trigger] let_through(pruner, statuses, visited).0[i],
            ),
    decreases statuses.len(),
{
    if statuses.len() > 0 {
        let after = pruner.visited_after(statuses[0], visited);
        lemma_let_through_keeps_unpruned(pruner, statuses.drop_first(), after);
        if pruner.always_prunes(statuses[0]) {
            lemma_always_prunes(pruner, statuses[0], visited);
        }
        let rest = let_through(pruner, statuses.drop_first(), after);
        let all = let_through(pruner, statuses, visited);
        assert forall|i: int| 0 <= i < all.0.len() implies !pruner.always_prunes(
            #[trigger] all.0[i],
        ) by {
            if pruner.prunes(statuses[0], visited) {
                assert(all.0[i] == rest.0[i]);
            } else if i == 0 {
                assert(all.0[0] == statuses[0]);
            } else {
                assert(all.0[i] == rest.0[i - 1]);
            }
        }
    }
}

proof fn lemma_walk_reports_unpruned(
    store: Seq<(NodeHash, Seq<EntryView>)>,
    pruner: Pruner,
    dir: Seq<u8>,
    to: NodeHash,
    from: NodeHash,
    depth_left: nat,
    visited: Seq<NodeHash>,
)
    ensures
        match walk_dir(store, pruner, dir, to, from, depth_left, visited) {
            Ok(found) => forall|i: int|
                0 <= i < found.entries.len() ==> !pruner.always_prunes(
                    (#[trigger] found.entries[i]).status,
                ),
            Err(_) => true,
        },
    decreases depth_left, 1nat, 0nat,
{
    match (entries_of(store, to), entries_of(store, from)) {
        (Some(t), Some(f)) => {
            let statuses = diff_entries(t, f);
            lemma_let_through_keeps_unpruned(pruner, statuses, visited);
            let kept = let_through(pruner, statuses, visited);
            lemma_entries_report_unpruned(store, pruner, dir, kept.0, depth_left, kept.1);
        },
        _ => {},
    }
}

proof fn lemma_entries_report_unpruned(
    store: Seq<(NodeHash, Seq<EntryView>)>,
    pruner: Pruner,
    dir: Seq<u8>,
    kept: Seq<StatusView>,
    depth_left: nat,
    visited: Seq<NodeHash>,
)
    requires
        forall|i: int| 0 <= i < kept.len() ==> !pruner.always_prunes(#[trigger] kept[i]),
    ensures
        match walk_entries(store, pruner, dir, kept, depth_left, visited) {
            Ok(found) => forall|i: int|
                0 <= i < found.entries.len() ==> !pruner.always_prunes(
                    (#[trigger] found.entries[i]).status,
                ),
            Err(_) => true,
        },
    decreases depth_left, 0nat, kept.len(),
{
    if kept.len() > 0 {
        let status = kept[0];
        if status.is_tree() && depth_left > 1 {
            lemma_walk_reports_unpruned(
                store,
                pruner,
                joined_path(dir, status.entry().name),
                status.to_hash(),
                status.from_hash(),
                (depth_left - 1) as nat,
                visited,
            );
        }
        match walk_below(store, pruner, dir, status, depth_left, visited) {
            Ok(below) => {
                assert forall|i: int| 0 <= i < kept.drop_first().len() implies !pruner.always_prunes(
                    #[trigger] kept.drop_first()[i],
                ) by {
                    assert(kept.drop_first()[i] == kept[i + 1]);
                }
                lemma_entries_report_unpruned(
                    store,
                    pruner,
                    dir,
                    kept.drop_first(),
                    depth_left,
                    below.visited,
                );
                match walk_entries(
                    store,
                    pruner,
                    dir,
                    kept.drop_first(),
                    depth_left,
                    below.visited,
                ) {
                    Ok(rest) => {
                        let this = ChangedView { dirname: dir, status };
                        let all = seq![this] + below.entries + rest.entries;
                        assert forall|i: int| 0 <= i < all.len() implies !pruner.always_prunes(
                            (#[trigger] all[i]).status,
                        ) by {
                            if i == 0 {
                                assert(all[0] == this);
                                assert(!pruner.always_prunes(kept[0]));
                            } else if i < 1 + below.entries.len() {
                                assert(all[i] == below.entries[i - 1]);
                            } else {
                                assert(all[i] == rest.entries[i - 1 - below.entries.len()]);
                            }
                        }
                    },
                    Err(_) => {},
                }
            },
            Err(_) => {},
        }
    }
}

/// A walk for a tree pack reports trees only, and none that was deleted:
/// nothing of what it reports is left out when the trees are taken from
/// it.
pub proof fn lemma_tree_pack_walk_reports_trees_only(
    store: Seq<(NodeHash, Seq<EntryView>)>,
    targets: nat,
    dir: Seq<u8>,
    to: NodeHash,
    from: NodeHash,
    depth_left: nat,
    visited: Seq<NodeHash>,
)
    ensures
        match walk_dir(store, pruner_for(targets), dir, to, from, depth_left, visited) {
            Ok(found) => trees_only(found.entries),
            Err(_) => true,
        },
{
    reveal_with_fuel(Pruner::always_prunes, 3);
    lemma_walk_reports_unpruned(store, pruner_for(targets), dir, to, from, depth_left, visited);
}

/// An outcome with `trees` put in front.
pub open spec fn trees_then(trees: Seq<TreeView>, rest: Result<Seq<TreeView>, NodeHash>) -> Result<
    Seq<TreeView>,
    NodeHash,
> {
    match rest {
        Ok(r) => Ok(trees + r),
        Err(missing) => Err(missing),
    }
}

/// The trees that answer a `gettreepack` request, in the order in which
/// they are sent, read from the manifests of the store.
pub fn changed_trees(args: &GettreepackArgs, store: &ManifestStore) -> (r: Result<
    Vec<ChangedTree>,
    CommandError,
>)
    ensures
        match changed_trees_of(*args, store.deep_view()) {
            Ok(trees) => r.is_ok() && r.unwrap().deep_view() == trees,
            Err(e) => r.is_err() && r.unwrap_err() == e,
        },
        r.is_ok() ==> distinct_hashes(r.unwrap().deep_view()),
{
    proof {
        lemma_changed_trees_are_distinct(*args, store.deep_view());
    }
    let fetchdepth: usize = match args.depth {
        Some(d) => d,
        None => DEFAULT_DEPTH,
    };
    if args.directories.len() > 0 {
        return Err(CommandError::DirectoriesNotSupported);
    }
    let basemfnode = if args.basemfnodes.len() > 0 {
        args.basemfnodes[0]
    } else {
        NodeHash::null()
    };
    if args.rootdir.len() > 0 && !check_path(&args.rootdir) {
        return Err(CommandError::InvalidPath);
    }
    let pruner = if args.mfnodes.len() > 1 {
        Pruner::either(Pruner::either(Pruner::Files, Pruner::Deleted), Pruner::Visited)
    } else {
        Pruner::either(Pruner::Files, Pruner::Deleted)
    };
    assert(pruner == pruner_for(args.mfnodes@.len()));
    let mut visited: Vec<NodeHash> = Vec::new();
    let mut trees: Vec<ChangedTree> = Vec::new();
    let ghost goal = all_target_trees(
        store.deep_view(),
        pruner,
        args.rootdir@,
        args.mfnodes@,
        basemfnode,
        fetchdepth as nat,
        Seq::empty(),
    );
    let mut i: usize = 0;
    proof {
        assert(args.mfnodes@.skip(0) =~= args.mfnodes@);
        assert(trees.deep_view() =~= Seq::<TreeView>::empty());
        match goal {
            Ok(g) => {
                assert(Seq::<TreeView>::empty() + g =~= g);
            },
            Err(_) => {},
        }
    }
    while i < args.mfnodes.len()
        invariant
            i <= args.mfnodes@.len(),
            trees_then(
                trees.deep_view(),
                all_target_trees(
                    store.deep_view(),
                    pruner,
                    args.rootdir@,
                    args.mfnodes@.skip(i as int),
                    basemfnode,
                    fetchdepth as nat,
                    visited@,
                ),
            ) == goal,
            goal is Err ==> changed_trees_of(*args, store.deep_view()) == Err::<
                Seq<TreeView>,
                CommandError,
            >(CommandError::ManifestNotFound(goal->Err_0)),
        decreases args.mfnodes@.len() - i,
    {
        let ghost rest = args.mfnodes@.skip(i as int);
        let ghost before = trees.deep_view();
        let ghost seen = visited@;
        proof {
            assert(rest[0] == args.mfnodes@[i as int]);
            assert(rest.drop_first() =~= args.mfnodes@.skip(i + 1));
        }
        let target = args.mfnodes[i];
        if fetchdepth != 1 {
            let mut found: Vec<ChangedEntry> = Vec::new();
            match walk(
                store,
                &pruner,
                &args.rootdir,
                target,
                basemfnode,
                fetchdepth,
                &mut found,
                &mut visited,
            ) {
                Ok(()) => {},
                Err(missing) => {
                    return Err(CommandError::ManifestNotFound(missing));
                },
            }
            assert(found.deep_view() =~= Seq::<ChangedView>::empty() + found.deep_view());
            push_trees(&found, &mut trees);
        }
        let ghost mid = trees.deep_view();
        trees.push(ChangedTree { entry: ManifestEntry::root(target), basepath: copy_bytes(&args.rootdir) });
        proof {
            let first = target_trees(
                store.deep_view(),
                pruner,
                args.rootdir@,
                target,
                basemfnode,
                fetchdepth as nat,
                seen,
            )->Ok_0;
            assert(trees.deep_view() =~= mid.push(root_tree(target, args.rootdir@)));
            assert(trees.deep_view() =~= before + first.0);
            let next = all_target_trees(
                store.deep_view(),
                pruner,
                args.rootdir@,
                rest.drop_first(),
                basemfnode,
                fetchdepth as nat,
                first.1,
            );
            match next {
                Ok(n) => {
                    assert((before + first.0) + n =~= before + (first.0 + n));
                },
                Err(_) => {},
            }
        }
        i += 1;
    }
    proof {
        assert(args.mfnodes@.skip(i as int).len() == 0);
        assert(trees.deep_view() + Seq::<TreeView>::empty() =~= trees.deep_view());
    }
    Ok(dedup_by_hash(trees))
}

} // verus!
