//! Manifests and the comparison of two of them.
//!
//! A manifest lists the entries of one directory, ordered by name. Comparing
//! the manifest of a directory with the manifest it had before gives, in the
//! order of the names, what was added, what was modified and what was
//! deleted.

use vstd::prelude::*;
use crate::hash::{null_hash, NodeHash};

verus! {

/// What an entry is.
#[derive(Debug, Clone, Copy, PartialEq, Eq, Structural, Hash)]
pub enum EntryKind {
    Tree,
    File,
    Executable,
    Symlink,
}

/// An entry of a manifest: a tree or a file under its name in a directory.
/// The root entry of a manifest has the empty name.
#[derive(Debug, Clone, PartialEq, Eq, Hash)]
pub struct ManifestEntry {
    pub name: Vec<u8>,
    pub hash: NodeHash,
    pub kind: EntryKind,
}

/// A manifest entry as a mathematical value.
pub struct EntryView {
    pub name: Seq<u8>,
    pub hash: NodeHash,
    pub kind: EntryKind,
}

impl DeepView for ManifestEntry {
    type V = EntryView;

    open spec fn deep_view(&self) -> EntryView {
        EntryView { name: self.name@, hash: self.hash, kind: self.kind }
    }
}

impl ManifestEntry {
    /// An entry with the same name, hash and kind.
    pub fn duplicate(&self) -> (e: ManifestEntry)
        ensures
            e.deep_view() == self.deep_view(),
    {
        ManifestEntry { name: copy_bytes(&self.name), hash: self.hash, kind: self.kind }
    }

    /// The root entry of the manifest with the given hash: a tree with the
    /// empty name.
    pub fn root(hash: NodeHash) -> (e: ManifestEntry)
        ensures
            e.deep_view() == root_entry(hash),
    {
        ManifestEntry { name: Vec::new(), hash, kind: EntryKind::Tree }
    }
}

/// The root entry of the manifest with the given hash.
pub open spec fn root_entry(hash: NodeHash) -> EntryView {
    EntryView { name: Seq::empty(), hash, kind: EntryKind::Tree }
}

/// A copy of a byte string.
pub fn copy_bytes(bytes: &Vec<u8>) -> (out: Vec<u8>)
    ensures
        out@ == bytes@,
{
    let mut out: Vec<u8> = Vec::with_capacity(bytes.len());
    let mut i: usize = 0;
    while i < bytes.len()
        invariant
            i <= bytes@.len(),
            out@ == bytes@.take(i as int),
        decreases bytes@.len() - i,
    {
        out.push(bytes[i]);
        assert(bytes@.take(i + 1) =~= bytes@.take(i as int).push(bytes@[i as int]));
        i += 1;
    }
    assert(bytes@.take(bytes@.len() as int) =~= bytes@);
    out
}

/// Whether `a` comes before `b` in the order of names: byte by byte, a
/// proper prefix first.
pub open spec fn name_lt(a: Seq<u8>, b: Seq<u8>) -> bool
    decreases a.len(),
{
    if b.len() == 0 {
        false
    } else if a.len() == 0 {
        true
    } else if a[0] != b[0] {
        a[0] < b[0]
    } else {
        name_lt(a.drop_first(), b.drop_first())
    }
}

/// Whether name `a` comes before name `b`.
pub fn name_before(a: &Vec<u8>, b: &Vec<u8>) -> (r: bool)
    ensures
        r == name_lt(a@, b@),
{
    let mut i: usize = 0;
    assert(a@.skip(0) =~= a@ && b@.skip(0) =~= b@);
    while i < a.len() && i < b.len()
        invariant
            i <= a@.len(),
            i <= b@.len(),
            name_lt(a@, b@) == name_lt(a@.skip(i as int), b@.skip(i as int)),
        decreases a@.len() - i,
    {
        if a[i] != b[i] {
            assert(a@.skip(i as int)[0] == a@[i as int]);
            assert(b@.skip(i as int)[0] == b@[i as int]);
            return a[i] < b[i];
        }
        proof {
            assert(a@.skip(i as int)[0] == a@[i as int]);
            assert(b@.skip(i as int)[0] == b@[i as int]);
            assert(a@.skip(i as int).drop_first() =~= a@.skip(i + 1));
            assert(b@.skip(i as int).drop_first() =~= b@.skip(i + 1));
        }
        i += 1;
    }
    i < b.len()
}

/// Whether two names are the same.
pub fn same_name(a: &Vec<u8>, b: &Vec<u8>) -> (r: bool)
    ensures
        r == (a@ == b@),
{
    if a.len() != b.len() {
        return false;
    }
    let mut i: usize = 0;
    while i < a.len()
        invariant
            i <= a@.len(),
            a@.len() == b@.len(),
            forall|j: int| 0 <= j < i ==> a@[j] == b@[j],
        decreases a@.len() - i,
    {
        if a[i] != b[i] {
            return false;
        }
        i += 1;
    }
    assert(a@ =~= b@);
    true
}

/// How an entry differs between two manifests.
#[derive(Debug, Clone, PartialEq, Eq)]
pub enum EntryStatus {
    /// The entry is in the new manifest only.
    Added(ManifestEntry),
    /// The entry is in both, under one name and kind, with different hashes.
    Modified { to_entry: ManifestEntry, from_entry: ManifestEntry },
    /// The entry is in the old manifest only.
    Deleted(ManifestEntry),
}

/// An entry status as a mathematical value.
pub enum StatusView {
    Added(EntryView),
    Modified { to_entry: EntryView, from_entry: EntryView },
    Deleted(EntryView),
}

impl DeepView for EntryStatus {
    type V = StatusView;

    open spec fn deep_view(&self) -> StatusView {
        match self {
            EntryStatus::Added(e) => StatusView::Added(e.deep_view()),
            EntryStatus::Modified { to_entry, from_entry } => StatusView::Modified {
                to_entry: to_entry.deep_view(),
                from_entry: from_entry.deep_view(),
            },
            EntryStatus::Deleted(e) => StatusView::Deleted(e.deep_view()),
        }
    }
}

impl StatusView {
    /// The entry that the status is about: the new one where there is one.
    pub open spec fn entry(self) -> EntryView {
        match self {
            StatusView::Added(e) => e,
            StatusView::Modified { to_entry, from_entry } => to_entry,
            StatusView::Deleted(e) => e,
        }
    }

    /// Whether the status is about a tree.
    pub open spec fn is_tree(self) -> bool {
        self.entry().kind == EntryKind::Tree
    }

    /// The hash of the tree on the new side; the null hash for a deletion.
    pub open spec fn to_hash(self) -> NodeHash {
        match self {
            StatusView::Added(e) => e.hash,
            StatusView::Modified { to_entry, from_entry } => to_entry.hash,
            StatusView::Deleted(e) => null_hash(),
        }
    }

    /// The hash of the tree on the old side; the null hash for an addition.
    pub open spec fn from_hash(self) -> NodeHash {
        match self {
            StatusView::Added(e) => null_hash(),
            StatusView::Modified { to_entry, from_entry } => from_entry.hash,
            StatusView::Deleted(e) => e.hash,
        }
    }
}

impl EntryStatus {
    /// The entry that the status is about: the new one where there is one.
    pub fn entry(&self) -> (e: &ManifestEntry)
        ensures
            e.deep_view() == self.deep_view().entry(),
    {
        match self {
            EntryStatus::Added(e) => e,
            EntryStatus::Modified { to_entry, from_entry } => to_entry,
            EntryStatus::Deleted(e) => e,
        }
    }

    /// Whether the status is about a tree.
    pub fn is_tree(&self) -> (r: bool)
        ensures
            r == self.deep_view().is_tree(),
    {
        self.entry().kind == EntryKind::Tree
    }

    /// Whether the status is a deletion.
    pub fn is_deleted(&self) -> (r: bool)
        ensures
            r == (self.deep_view() is Deleted),
    {
        match self {
            EntryStatus::Deleted(_) => true,
            _ => false,
        }
    }

    /// A copy of the status.
    pub fn duplicate(&self) -> (s: EntryStatus)
        ensures
            s.deep_view() == self.deep_view(),
    {
        match self {
            EntryStatus::Added(e) => EntryStatus::Added(e.duplicate()),
            EntryStatus::Modified { to_entry, from_entry } => EntryStatus::Modified {
                to_entry: to_entry.duplicate(),
                from_entry: from_entry.duplicate(),
            },
            EntryStatus::Deleted(e) => EntryStatus::Deleted(e.duplicate()),
        }
    }
}

/// What comparing one pair of entries of the same name gives: nothing if
/// kind and hash agree, a modification if only the hashes differ, and an
/// addition followed by a deletion if the kinds differ.
pub open spec fn same_name_diff(to: EntryView, from: EntryView) -> Seq<StatusView> {
    if to.kind == from.kind {
        if to.hash != from.hash {
            seq![StatusView::Modified { to_entry: to, from_entry: from }]
        } else {
            Seq::empty()
        }
    } else {
        seq![StatusView::Added(to), StatusView::Deleted(from)]
    }
}

/// The differences between a new list of entries and an old one, both read
/// from the front in the order of names: a name that only the new list has
/// next is an addition, one that only the old list has next is a deletion,
/// and a name that both have next is compared.
pub open spec fn diff_entries(to: Seq<EntryView>, from: Seq<EntryView>) -> Seq<StatusView>
    decreases to.len() + from.len(),
{
    if to.len() == 0 && from.len() == 0 {
        Seq::empty()
    } else if to.len() == 0 {
        seq![StatusView::Deleted(from[0])] + diff_entries(to, from.drop_first())
    } else if from.len() == 0 {
        seq![StatusView::Added(to[0])] + diff_entries(to.drop_first(), from)
    } else if name_lt(to[0].name, from[0].name) {
        seq![StatusView::Added(to[0])] + diff_entries(to.drop_first(), from)
    } else if name_lt(from[0].name, to[0].name) {
        seq![StatusView::Deleted(from[0])] + diff_entries(to, from.drop_first())
    } else {
        same_name_diff(to[0], from[0]) + diff_entries(to.drop_first(), from.drop_first())
    }
}

/// Compares a new list of entries with an old one, both ordered by name.
pub fn diff_sorted_vecs(to: &Vec<ManifestEntry>, from: &Vec<ManifestEntry>) -> (out: Vec<
    EntryStatus,
>)
    ensures
        out.deep_view() == diff_entries(to.deep_view(), from.deep_view()),
{
    let mut out: Vec<EntryStatus> = Vec::new();
    let mut i: usize = 0;
    let mut j: usize = 0;
    assert(out.deep_view() =~= Seq::<StatusView>::empty());
    assert(to.deep_view().skip(0) =~= to.deep_view());
    assert(from.deep_view().skip(0) =~= from.deep_view());
    while i < to.len() || j < from.len()
        invariant
            i <= to@.len(),
            j <= from@.len(),
            out.deep_view() + diff_entries(to.deep_view().skip(i as int), from.deep_view().skip(j as int))
                == diff_entries(to.deep_view(), from.deep_view()),
        decreases (to@.len() - i) + (from@.len() - j),
    {
        let ghost tos = to.deep_view().skip(i as int);
        let ghost froms = from.deep_view().skip(j as int);
        let ghost before = out.deep_view();
        proof {
            assert(tos.len() == to@.len() - i);
            assert(froms.len() == from@.len() - j);
            if i < to@.len() {
                assert(tos[0] == to@[i as int].deep_view());
                assert(tos.drop_first() =~= to.deep_view().skip(i + 1));
            }
            if j < from@.len() {
                assert(froms[0] == from@[j as int].deep_view());
                assert(froms.drop_first() =~= from.deep_view().skip(j + 1));
            }
        }
        if i >= to.len() {
            out.push(EntryStatus::Deleted(from[j].duplicate()));
            j += 1;
            proof {
                let added = seq![StatusView::Deleted(froms[0])];
                assert(out.deep_view() =~= before + added);
                assert((before + added) + diff_entries(tos, froms.drop_first()) =~= before + (added
                    + diff_entries(tos, froms.drop_first())));
            }
        } else if j >= from.len() {
            out.push(EntryStatus::Added(to[i].duplicate()));
            i += 1;
            proof {
                let added = seq![StatusView::Added(tos[0])];
                assert(out.deep_view() =~= before + added);
                assert((before + added) + diff_entries(tos.drop_first(), froms) =~= before + (added
                    + diff_entries(tos.drop_first(), froms)));
            }
        } else if name_before(&to[i].name, &from[j].name) {
            out.push(EntryStatus::Added(to[i].duplicate()));
            i += 1;
            proof {
                let added = seq![StatusView::Added(tos[0])];
                assert(out.deep_view() =~= before + added);
                assert((before + added) + diff_entries(tos.drop_first(), froms) =~= before + (added
                    + diff_entries(tos.drop_first(), froms)));
            }
        } else if name_before(&from[j].name, &to[i].name) {
            out.push(EntryStatus::Deleted(from[j].duplicate()));
            j += 1;
            proof {
                let added = seq![StatusView::Deleted(froms[0])];
                assert(out.deep_view() =~= before + added);
                assert((before + added) + diff_entries(tos, froms.drop_first()) =~= before + (added
                    + diff_entries(tos, froms.drop_first())));
            }
        } else {
            if to[i].kind == from[j].kind {
                if to[i].hash != from[j].hash {
                    out.push(
                        EntryStatus::Modified {
                            to_entry: to[i].duplicate(),
                            from_entry: from[j].duplicate(),
                        },
                    );
                }
            } else {
                out.push(EntryStatus::Added(to[i].duplicate()));
                out.push(EntryStatus::Deleted(from[j].duplicate()));
            }
            i += 1;
            j += 1;
            proof {
                let added = same_name_diff(tos[0], froms[0]);
                assert(out.deep_view() =~= before + added);
                assert((before + added) + diff_entries(tos.drop_first(), froms.drop_first())
                    =~= before + (added + diff_entries(tos.drop_first(), froms.drop_first())));
            }
        }
    }
    proof {
        assert(to.deep_view().skip(i as int).len() == 0);
        assert(from.deep_view().skip(j as int).len() == 0);
        assert(out.deep_view() + Seq::<StatusView>::empty() =~= out.deep_view());
    }
    out
}

/// Comparing a list of entries with itself finds no difference.
pub proof fn lemma_diff_with_itself_is_empty(entries: Seq<EntryView>)
    ensures
        diff_entries(entries, entries) == Seq::<StatusView>::empty(),
    decreases entries.len(),
{
    if entries.len() > 0 {
        lemma_name_lt_irreflexive(entries[0].name);
        lemma_diff_with_itself_is_empty(entries.drop_first());
        assert(same_name_diff(entries[0], entries[0]) + Seq::<StatusView>::empty()
            =~= Seq::<StatusView>::empty());
    }
}

/// No name comes before itself.
pub proof fn lemma_name_lt_irreflexive(a: Seq<u8>)
    ensures
        !name_lt(a, a),
    decreases a.len(),
{
    if a.len() > 0 {
        lemma_name_lt_irreflexive(a.drop_first());
    }
}

} // verus!
