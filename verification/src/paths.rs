//! Paths and what stands at a path in a manifest tree.
//!
//! A path is a byte string whose elements are separated by slashes. To find
//! what stands at a path, the manifests are followed from the root: each
//! element but the last has to name a tree.

use vstd::prelude::*;
use crate::hash::NodeHash;
use crate::manifest::{same_name, EntryKind, EntryView, ManifestEntry};
use crate::treewalk::{entries_of, ManifestStore};

verus! {

/// The elements of a path: the stretches between its slashes. A path
/// without a slash is its own single element.
pub open spec fn elements_of(path: Seq<u8>) -> Seq<Seq<u8>>
    decreases path.len(),
{
    if path.len() == 0 {
        seq![Seq::empty()]
    } else {
        let before = elements_of(path.drop_last());
        if path.last() == 47 {
            before.push(Seq::empty())
        } else {
            before.drop_last().push(before.last().push(path.last()))
        }
    }
}

/// A path has at least one element.
pub proof fn lemma_elements_not_empty(path: Seq<u8>)
    ensures
        elements_of(path).len() > 0,
    decreases path.len(),
{
    if path.len() > 0 {
        lemma_elements_not_empty(path.drop_last());
    }
}

/// Splits a path into its elements.
pub fn split_path(path: &Vec<u8>) -> (elements: Vec<Vec<u8>>)
    ensures
        elements.deep_view() == elements_of(path@),
        elements@.len() > 0,
{
    let mut elements: Vec<Vec<u8>> = Vec::new();
    let mut current: Vec<u8> = Vec::new();
    let mut i: usize = 0;
    proof {
        assert(path@.take(0) =~= Seq::<u8>::empty());
        assert(elements.deep_view().push(current@) =~= seq![Seq::<u8>::empty()]);
    }
    while i < path.len()
        invariant
            i <= path@.len(),
            elements.deep_view().push(current@) == elements_of(path@.take(i as int)),
        decreases path@.len() - i,
    {
        let ghost upto = path@.take(i + 1);
        let ghost done = elements.deep_view();
        let ghost open = current@;
        proof {
            assert(upto.drop_last() =~= path@.take(i as int));
            assert(upto.last() == path@[i as int]);
            assert(done.push(open).drop_last() =~= done);
        }
        if path[i] == 47 {
            elements.push(current);
            current = Vec::new();
            proof {
                assert(elements.deep_view() =~~= done.push(open));
            }
        } else {
            current.push(path[i]);
        }
        i += 1;
    }
    proof {
        assert(path@.take(path@.len() as int) =~= path@);
    }
    let ghost done = elements.deep_view();
    let ghost open = current@;
    elements.push(current);
    assert(elements.deep_view() =~~= done.push(open));
    elements
}

/// The index of the first entry from `from` on that has the given name.
pub open spec fn index_of_name(entries: Seq<EntryView>, name: Seq<u8>, from: int) -> Option<int>
    decreases entries.len() - from,
{
    if from < 0 || from >= entries.len() {
        None
    } else if entries[from].name == name {
        Some(from)
    } else {
        index_of_name(entries, name, from + 1)
    }
}

/// The first entry of a manifest that has the given name.
pub fn find_name<'a>(entries: &'a Vec<ManifestEntry>, name: &Vec<u8>) -> (found: Option<
    &'a ManifestEntry,
>)
    ensures
        match index_of_name(entries.deep_view(), name@, 0) {
            Some(k) => found.is_some() && found.unwrap().deep_view() == entries.deep_view()[k],
            None => found.is_none(),
        },
{
    let mut i: usize = 0;
    while i < entries.len()
        invariant
            i <= entries@.len(),
            index_of_name(entries.deep_view(), name@, 0) == index_of_name(
                entries.deep_view(),
                name@,
                i as int,
            ),
        decreases entries@.len() - i,
    {
        assert(entries.deep_view()[i as int] == entries@[i as int].deep_view());
        if same_name(&entries[i].name, name) {
            return Some(&entries[i]);
        }
        i += 1;
    }
    None
}

/// Why nothing was found at a path.
#[derive(Debug, Clone, Copy, PartialEq, Eq)]
pub enum PathError {
    /// The repository has no manifest with this hash.
    ManifestNotFound(NodeHash),
    /// The element at this position of the path names nothing in its
    /// directory.
    NoSuchElement(usize),
    /// The element at this position of the path is not the last and names
    /// something that is no tree.
    NotATree(usize),
}

/// What stands at the path `elements` below the manifest `dir`, where
/// `depth` elements of the whole path lie above `dir`.
pub open spec fn entry_at(
    store: Seq<(NodeHash, Seq<EntryView>)>,
    dir: NodeHash,
    elements: Seq<Seq<u8>>,
    depth: nat,
) -> Result<EntryView, PathError>
    decreases elements.len(),
{
    if elements.len() == 0 {
        Err(PathError::NoSuchElement(depth as usize))
    } else {
        match entries_of(store, dir) {
            None => Err(PathError::ManifestNotFound(dir)),
            Some(entries) => match index_of_name(entries, elements[0], 0) {
                None => Err(PathError::NoSuchElement(depth as usize)),
                Some(k) => if elements.len() == 1 {
                    Ok(entries[k])
                } else if entries[k].kind != EntryKind::Tree {
                    Err(PathError::NotATree(depth as usize))
                } else {
                    entry_at(store, entries[k].hash, elements.drop_first(), depth + 1)
                },
            },
        }
    }
}

/// Finds what stands at a path below the manifest `root`: follows the
/// elements of the path from manifest to manifest, each but the last
/// through a tree.
pub fn fetch_entry(store: &ManifestStore, root: NodeHash, path: &Vec<u8>) -> (r: Result<
    ManifestEntry,
    PathError,
>)
    ensures
        match entry_at(store.deep_view(), root, elements_of(path@), 0) {
            Ok(e) => r.is_ok() && r.unwrap().deep_view() == e,
            Err(e) => r == Err::<ManifestEntry, PathError>(e),
        },
{
    let elements = split_path(path);
    let nothing: Vec<ManifestEntry> = Vec::new();
    let mut dir = root;
    let mut i: usize = 0;
    let count: usize = elements.len();
    let ghost goal = entry_at(store.deep_view(), root, elements.deep_view(), 0);
    assert(elements.deep_view().skip(0) =~= elements.deep_view());
    loop
        invariant
            i < elements@.len(),
            count == elements@.len(),
            nothing@.len() == 0,
            entry_at(store.deep_view(), dir, elements.deep_view().skip(i as int), i as nat)
                == goal,
            goal == entry_at(store.deep_view(), root, elements_of(path@), 0),
        decreases elements@.len() - i,
    {
        let ghost rest = elements.deep_view().skip(i as int);
        proof {
            assert(rest.len() == elements@.len() - i);
            assert(rest[0] =~= elements@[i as int]@);
            assert(rest.drop_first() =~= elements.deep_view().skip(i + 1));
        }
        let entries = match store.entries(dir, &nothing) {
            Some(entries) => entries,
            None => {
                return Err(PathError::ManifestNotFound(dir));
            },
        };
        let found = match find_name(entries, &elements[i]) {
            Some(found) => found,
            None => {
                return Err(PathError::NoSuchElement(i));
            },
        };
        if i + 1 == count {
            return Ok(found.duplicate());
        }
        if found.kind != EntryKind::Tree {
            return Err(PathError::NotATree(i));
        }
        dir = found.hash;
        i += 1;
    }
}

} // verus!
