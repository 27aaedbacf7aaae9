//! The parts of a response bundle and how a response is put together.
//!
//! A bundle is an ordered list of parts; the wire framing turns it into
//! bytes. The engine decides which parts a response has and in which order,
//! and what each part holds. No response is compressed: clients cannot read
//! a compressed bundle off the wire.

use vstd::prelude::*;
use crate::hash::{hex_of, NodeHash};
use crate::manifest::{copy_bytes, same_name, EntryKind};
use crate::treepack::{ChangedTree, TreeView};
use crate::treewalk::{join_path, joined_path};

verus! {

/// A path as the repository knows it.
#[derive(Debug, Clone, PartialEq, Eq)]
pub enum RepoPath {
    /// The root of the repository.
    Root,
    /// A directory.
    Directory(Vec<u8>),
    /// A file.
    File(Vec<u8>),
}

/// A repository path as a mathematical value.
pub enum RepoPathView {
    Root,
    Directory(Seq<u8>),
    File(Seq<u8>),
}

impl DeepView for RepoPath {
    type V = RepoPathView;

    open spec fn deep_view(&self) -> RepoPathView {
        match self {
            RepoPath::Root => RepoPathView::Root,
            RepoPath::Directory(p) => RepoPathView::Directory(p@),
            RepoPath::File(p) => RepoPathView::File(p@),
        }
    }
}

/// The repository path of a tree that is sent: the root where the entry has
/// no name and lies in no directory; else the entry's path, as a directory
/// if the entry is a tree and as a file if not.
pub open spec fn repo_path_of(tree: TreeView) -> RepoPathView {
    let path = joined_path(tree.basepath, tree.entry.name);
    if path.len() == 0 {
        RepoPathView::Root
    } else if tree.entry.kind == EntryKind::Tree {
        RepoPathView::Directory(path)
    } else {
        RepoPathView::File(path)
    }
}

/// The repository path under which the changeset that introduced a tree is
/// looked up.
pub fn repo_path(tree: &ChangedTree) -> (path: RepoPath)
    ensures
        path.deep_view() == repo_path_of(tree.deep_view()),
{
    let path = join_path(&tree.basepath, &tree.entry.name);
    if path.len() == 0 {
        RepoPath::Root
    } else if tree.entry.kind == EntryKind::Tree {
        RepoPath::Directory(path)
    } else {
        RepoPath::File(path)
    }
}

/// One record of a tree part: a tree with all that the client needs of it.
/// The name and the base path are empty for the root.
#[derive(Debug, Clone, PartialEq, Eq)]
pub struct TreepackPartInput {
    pub node: NodeHash,
    pub p1: Option<NodeHash>,
    pub p2: Option<NodeHash>,
    pub content: Vec<u8>,
    pub name: Vec<u8>,
    pub linknode: NodeHash,
    pub basepath: Vec<u8>,
}

/// A tree record as a mathematical value.
pub struct TreepackPartView {
    pub node: NodeHash,
    pub p1: Option<NodeHash>,
    pub p2: Option<NodeHash>,
    pub content: Seq<u8>,
    pub name: Seq<u8>,
    pub linknode: NodeHash,
    pub basepath: Seq<u8>,
}

impl DeepView for TreepackPartInput {
    type V = TreepackPartView;

    open spec fn deep_view(&self) -> TreepackPartView {
        TreepackPartView {
            node: self.node,
            p1: self.p1,
            p2: self.p2,
            content: self.content@,
            name: self.name@,
            linknode: self.linknode,
            basepath: self.basepath@,
        }
    }
}

/// Puts the record of a tree together from the tree, its parents, the
/// changeset that introduced it and its raw content.
pub fn treepack_part_input(
    tree: &ChangedTree,
    p1: Option<NodeHash>,
    p2: Option<NodeHash>,
    linknode: NodeHash,
    content: Vec<u8>,
) -> (input: TreepackPartInput)
    ensures
        input.deep_view() == (TreepackPartView {
            node: tree.entry.hash,
            p1,
            p2,
            content: content@,
            name: tree.entry.name@,
            linknode,
            basepath: tree.basepath@,
        }),
{
    TreepackPartInput {
        node: tree.entry.hash,
        p1,
        p2,
        content,
        name: copy_bytes(&tree.entry.name),
        linknode,
        basepath: copy_bytes(&tree.basepath),
    }
}

/// A bookmark: a name and the changeset it points to.
#[derive(Debug, Clone, PartialEq, Eq)]
pub struct Bookmark {
    pub name: Vec<u8>,
    pub target: NodeHash,
}

/// A part of a response bundle.
#[derive(Debug, PartialEq, Eq)]
pub enum WirePart {
    /// The changesets that the client lacks, as the changegroup builder
    /// encoded them.
    Changegroup(Vec<u8>),
    /// The keys of a namespace with their values.
    Listkeys { namespace: Vec<u8>, items: Vec<(Vec<u8>, Vec<u8>)> },
    /// Trees.
    Treepack(Vec<TreepackPartInput>),
}

/// A part as a mathematical value.
pub enum WirePartView {
    Changegroup(Seq<u8>),
    Listkeys { namespace: Seq<u8>, items: Seq<(Seq<u8>, Seq<u8>)> },
    Treepack(Seq<TreepackPartView>),
}

impl DeepView for WirePart {
    type V = WirePartView;

    open spec fn deep_view(&self) -> WirePartView {
        match self {
            WirePart::Changegroup(payload) => WirePartView::Changegroup(payload@),
            WirePart::Listkeys { namespace, items } => WirePartView::Listkeys {
                namespace: namespace@,
                items: items.deep_view(),
            },
            WirePart::Treepack(inputs) => WirePartView::Treepack(inputs.deep_view()),
        }
    }
}

/// How a bundle is compressed.
#[derive(Debug, Clone, Copy, PartialEq, Eq, Structural)]
pub enum Compression {
    Bzip2,
    Gzip,
}

/// A response bundle: its parts in the order in which they are sent, and
/// its compression.
#[derive(Debug, PartialEq, Eq)]
pub struct Bundle {
    pub parts: Vec<WirePart>,
    pub compression: Option<Compression>,
}

/// The name `bookmarks` as bytes.
pub open spec fn bookmarks_namespace() -> Seq<u8> {
    seq![98u8, 111u8, 111u8, 107u8, 109u8, 97u8, 114u8, 107u8, 115u8]
}

fn bookmarks_name() -> (name: Vec<u8>)
    ensures
        name@ == bookmarks_namespace(),
{
    let mut name: Vec<u8> = Vec::new();
    name.push(98u8);
    name.push(111u8);
    name.push(111u8);
    name.push(107u8);
    name.push(109u8);
    name.push(97u8);
    name.push(114u8);
    name.push(107u8);
    name.push(115u8);
    assert(name@ =~= bookmarks_namespace());
    name
}

/// The keys of the bookmark namespace: each bookmark's name with the hex
/// text of its target, in the order of the bookmarks.
pub open spec fn bookmark_items(bookmarks: Seq<(Seq<u8>, NodeHash)>) -> Seq<(Seq<u8>, Seq<u8>)> {
    Seq::new(bookmarks.len(), |i: int| (bookmarks[i].0, hex_of(bookmarks[i].1@)))
}

impl DeepView for Bookmark {
    type V = (Seq<u8>, NodeHash);

    open spec fn deep_view(&self) -> (Seq<u8>, NodeHash) {
        (self.name@, self.target)
    }
}

fn bookmark_pairs(bookmarks: &Vec<Bookmark>) -> (items: Vec<(Vec<u8>, Vec<u8>)>)
    ensures
        items.deep_view() == bookmark_items(bookmarks.deep_view()),
{
    let mut items: Vec<(Vec<u8>, Vec<u8>)> = Vec::new();
    let mut i: usize = 0;
    while i < bookmarks.len()
        invariant
            i <= bookmarks@.len(),
            items@.len() == i,
            forall|j: int|
                0 <= j < i ==> (#[trigger] items@[j]).deep_view() == bookmark_items(
                    bookmarks.deep_view(),
                )[j],
        decreases bookmarks@.len() - i,
    {
        items.push((copy_bytes(&bookmarks[i].name), bookmarks[i].target.to_hex()));
        i += 1;
    }
    assert(items.deep_view() =~= bookmark_items(bookmarks.deep_view()));
    items
}

/// What `listkeys` answers for a namespace: the bookmarks for the namespace
/// `bookmarks`, nothing for any other.
pub open spec fn listkeys_answer(namespace: Seq<u8>, bookmarks: Seq<(Seq<u8>, NodeHash)>) -> Seq<
    (Seq<u8>, Seq<u8>),
> {
    if namespace == bookmarks_namespace() {
        bookmark_items(bookmarks)
    } else {
        Seq::empty()
    }
}

/// Whether `listkeys` knows the namespace, so that the bookmarks have to be
/// read for the answer.
pub fn listkeys_supported(namespace: &Vec<u8>) -> (r: bool)
    ensures
        r == (namespace@ == bookmarks_namespace()),
{
    let name = bookmarks_name();
    same_name(namespace, &name)
}

/// The answer of the `listkeys` command: the keys of the namespace with
/// their values, as the list of the map's entries.
pub fn listkeys(namespace: &Vec<u8>, bookmarks: &Vec<Bookmark>) -> (items: Vec<(Vec<u8>, Vec<u8>)>)
    ensures
        items.deep_view() == listkeys_answer(namespace@, bookmarks.deep_view()),
{
    if listkeys_supported(namespace) {
        bookmark_pairs(bookmarks)
    } else {
        let items: Vec<(Vec<u8>, Vec<u8>)> = Vec::new();
        assert(items.deep_view() =~= Seq::<(Seq<u8>, Seq<u8>)>::empty());
        items
    }
}

/// The arguments of `getbundle`.
#[derive(Debug)]
pub struct GetbundleArgs {
    /// The heads that the client has.
    pub common: Vec<NodeHash>,
    /// The heads that the client wants.
    pub heads: Vec<NodeHash>,
    /// The namespaces whose keys the client wants with the bundle.
    pub listkeys: Vec<Vec<u8>>,
}

/// Whether the request asks for the bookmarks.
pub open spec fn asks_for_bookmarks(listkeys: Seq<Seq<u8>>) -> bool {
    exists|i: int| 0 <= i < listkeys.len() && #[trigger] listkeys[i] == bookmarks_namespace()
}

/// Whether the request asks for the bookmarks, so that they have to be
/// read for the response.
pub fn wants_bookmarks(args: &GetbundleArgs) -> (r: bool)
    ensures
        r == asks_for_bookmarks(args.listkeys.deep_view()),
{
    let name = bookmarks_name();
    let mut i: usize = 0;
    while i < args.listkeys.len()
        invariant
            i <= args.listkeys@.len(),
            name@ == bookmarks_namespace(),
            forall|j: int| 0 <= j < i ==> #[trigger] args.listkeys.deep_view()[j] != bookmarks_namespace(),
        decreases args.listkeys@.len() - i,
    {
        if same_name(&args.listkeys[i], &name) {
            assert(args.listkeys.deep_view()[i as int] == bookmarks_namespace());
            return true;
        }
        assert(args.listkeys.deep_view()[i as int] == args.listkeys@[i as int]@);
        i += 1;
    }
    false
}

/// The parts of a `getbundle` response: the changegroup, and after it the
/// bookmarks if the request asks for them.
pub open spec fn getbundle_parts(
    listkeys: Seq<Seq<u8>>,
    changegroup: Seq<u8>,
    bookmarks: Seq<(Seq<u8>, NodeHash)>,
) -> Seq<WirePartView> {
    if asks_for_bookmarks(listkeys) {
        seq![
            WirePartView::Changegroup(changegroup),
            WirePartView::Listkeys {
                namespace: bookmarks_namespace(),
                items: bookmark_items(bookmarks),
            },
        ]
    } else {
        seq![WirePartView::Changegroup(changegroup)]
    }
}

/// Puts the `getbundle` response together from the changegroup that the
/// changegroup builder made for the request's heads, and the bookmarks of
/// the repository. The bookmarks are looked at only if the request asks
/// for them.
pub fn create_bundle(args: &GetbundleArgs, changegroup: Vec<u8>, bookmarks: &Vec<Bookmark>) -> (bundle:
    Bundle)
    ensures
        bundle.parts.deep_view() == getbundle_parts(
            args.listkeys.deep_view(),
            changegroup@,
            bookmarks.deep_view(),
        ),
        bundle.compression.is_none(),
{
    let mut parts: Vec<WirePart> = Vec::new();
    parts.push(WirePart::Changegroup(changegroup));
    if wants_bookmarks(args) {
        parts.push(WirePart::Listkeys { namespace: bookmarks_name(), items: bookmark_pairs(bookmarks) });
    }
    assert(parts.deep_view() =~= getbundle_parts(
        args.listkeys.deep_view(),
        changegroup@,
        bookmarks.deep_view(),
    ));
    Bundle { parts, compression: None }
}

/// Wraps the tree records of a `gettreepack` response into a bundle of
/// exactly one part.
pub fn treepack_bundle(inputs: Vec<TreepackPartInput>) -> (bundle: Bundle)
    ensures
        bundle.parts.deep_view() == seq![WirePartView::Treepack(inputs.deep_view())],
        bundle.compression.is_none(),
{
    let mut parts: Vec<WirePart> = Vec::new();
    parts.push(WirePart::Treepack(inputs));
    assert(parts.deep_view() =~= seq![WirePartView::Treepack(inputs.deep_view())]);
    Bundle { parts, compression: None }
}

} // verus!
