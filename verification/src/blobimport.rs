//! What an import of a repository decides: which changesets it takes, and
//! where a bookmark is set.

use vstd::prelude::*;
use crate::hash::NodeHash;

verus! {

/// How many bookmarks are set in one transaction.
pub const BOOKMARK_CHUNK_SIZE: usize = 100;

/// The changesets that an import takes: the one that was named, or all of
/// the source; of these not the first `skip`; and of the rest no more than
/// `limit`.
pub open spec fn selected(
    all: Seq<NodeHash>,
    changeset: Option<NodeHash>,
    skip: Option<usize>,
    limit: Option<usize>,
) -> Seq<NodeHash> {
    let named = match changeset {
        Some(h) => seq![h],
        None => all,
    };
    let skipped = match skip {
        Some(n) => if n <= named.len() {
            named.skip(n as int)
        } else {
            Seq::empty()
        },
        None => named,
    };
    match limit {
        Some(n) => if n <= skipped.len() {
            skipped.take(n as int)
        } else {
            skipped
        },
        None => skipped,
    }
}

/// The changesets that an import takes, in the order of the source.
pub fn select_changesets(
    all: &Vec<NodeHash>,
    changeset: Option<NodeHash>,
    skip: Option<usize>,
    commits_limit: Option<usize>,
) -> (out: Vec<NodeHash>)
    ensures
        out@ == selected(all@, changeset, skip, commits_limit),
{
    let mut named: Vec<NodeHash> = Vec::new();
    match changeset {
        Some(h) => {
            named.push(h);
        },
        None => {
            let mut i: usize = 0;
            while i < all.len()
                invariant
                    i <= all@.len(),
                    named@ == all@.take(i as int),
                decreases all@.len() - i,
            {
                named.push(all[i]);
                assert(all@.take(i + 1) =~= all@.take(i as int).push(all@[i as int]));
                i += 1;
            }
            assert(all@.take(all@.len() as int) =~= all@);
        },
    }
    let start: usize = match skip {
        Some(n) => if n <= named.len() {
            n
        } else {
            named.len()
        },
        None => 0,
    };
    let rest: usize = named.len() - start;
    let count: usize = match commits_limit {
        Some(n) => if n <= rest {
            n
        } else {
            rest
        },
        None => rest,
    };
    let mut out: Vec<NodeHash> = Vec::new();
    let mut i: usize = 0;
    let total: usize = named.len();
    while i < count
        invariant
            i <= count,
            total == named@.len(),
            start + count <= named@.len(),
            out@ == named@.skip(start as int).take(i as int),
        decreases count - i,
    {
        out.push(named[start + i]);
        assert(named@.skip(start as int).take(i + 1) =~= named@.skip(start as int).take(
            i as int,
        ).push(named@[start + i]));
        i += 1;
    }
    proof {
        let skipped = named@.skip(start as int);
        assert(named@.skip(0) =~= named@);
        assert(named@.skip(named@.len() as int) =~= Seq::<NodeHash>::empty());
        assert(skipped.take(skipped.len() as int) =~= skipped);
    }
    out
}

/// Whether an import starts at the beginning of the source: it names no
/// changeset and skips none. Such an import has met every parent before the
/// child.
pub fn is_import_from_beginning(changeset: Option<NodeHash>, skip: Option<usize>) -> (r: bool)
    ensures
        r == (changeset.is_none() && skip.is_none()),
{
    changeset.is_none() && skip.is_none()
}

/// What is done about a bookmark once it is known whether the changeset it
/// points to was imported.
#[derive(Debug, Clone, Copy, PartialEq, Eq)]
pub enum BookmarkStep {
    /// The bookmark is set to this changeset.
    Point(NodeHash),
    /// The bookmark is left alone.
    Skip,
    /// Whether this earlier target of the bookmark was imported has to be
    /// looked up.
    CheckStale(NodeHash),
}

/// The step for a bookmark that points to `target`: set it there if the
/// target was imported; else fall back to the stale target if there is
/// one; else leave the bookmark alone.
pub fn bookmark_step(target: NodeHash, imported: bool, stale: Option<NodeHash>) -> (step:
    BookmarkStep)
    ensures
        imported ==> step == BookmarkStep::Point(target),
        !imported && stale.is_some() ==> step == BookmarkStep::CheckStale(stale.unwrap()),
        !imported && stale.is_none() ==> step == BookmarkStep::Skip,
{
    if imported {
        BookmarkStep::Point(target)
    } else {
        match stale {
            Some(s) => BookmarkStep::CheckStale(s),
            None => BookmarkStep::Skip,
        }
    }
}

/// The step for a bookmark whose stale target was looked up: set it there
/// if that changeset was imported, else leave the bookmark alone.
pub fn stale_step(stale: NodeHash, imported: bool) -> (step: BookmarkStep)
    ensures
        imported ==> step == BookmarkStep::Point(stale),
        !imported ==> step == BookmarkStep::Skip,
{
    if imported {
        BookmarkStep::Point(stale)
    } else {
        BookmarkStep::Skip
    }
}

} // verus!
