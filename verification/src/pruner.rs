//! Pruners: what a manifest walk leaves out.
//!
//! A pruner is asked about each difference that a walk finds. A difference
//! that it prunes is not reported, and the walk does not descend below it.
//! Pruners combine: the combination prunes what either of its parts prunes,
//! and asks the second part only where the first did not prune.
//!
//! One pruner has a memory: it prunes the hashes that it has let through
//! before. That memory is a list of hashes which the walk owns and hands to
//! the pruner with each question.

use vstd::prelude::*;
use crate::hash::NodeHash;
use crate::manifest::{EntryStatus, StatusView};

verus! {

/// A rule that says which differences a walk leaves out.
#[derive(Debug)]
pub enum Pruner {
    /// Prunes nothing.
    Never,
    /// Prunes everything.
    Always,
    /// Prunes what is not a tree.
    Files,
    /// Prunes deletions.
    Deleted,
    /// Prunes additions and modifications whose new hash was let through
    /// before, and remembers the hashes that it lets through.
    Visited,
    /// Prunes what the first or the second prunes; the second is asked only
    /// where the first does not prune.
    Either(Box<Pruner>, Box<Pruner>),
}

impl Pruner {
    /// Whether the pruner leaves the difference out, given the hashes
    /// remembered so far.
    pub open spec fn prunes(self, status: StatusView, visited: Seq<NodeHash>) -> bool
        decreases self,
    {
        match self {
            Pruner::Never => false,
            Pruner::Always => true,
            Pruner::Files => !status.is_tree(),
            Pruner::Deleted => status is Deleted,
            Pruner::Visited => !(status is Deleted) && visited.contains(status.to_hash()),
            Pruner::Either(a, b) => a.prunes(status, visited) || b.prunes(
                status,
                a.visited_after(status, visited),
            ),
        }
    }

    /// The hashes remembered after the pruner was asked about the
    /// difference.
    pub open spec fn visited_after(self, status: StatusView, visited: Seq<NodeHash>) -> Seq<
        NodeHash,
    >
        decreases self,
    {
        match self {
            Pruner::Visited => if !(status is Deleted) && !visited.contains(status.to_hash()) {
                visited.push(status.to_hash())
            } else {
                visited
            },
            Pruner::Either(a, b) => if a.prunes(status, visited) {
                a.visited_after(status, visited)
            } else {
                b.visited_after(status, a.visited_after(status, visited))
            },
            _ => visited,
        }
    }

    /// Whether the pruner leaves the difference out whatever it remembers.
    pub open spec fn always_prunes(self, status: StatusView) -> bool
        decreases self,
    {
        match self {
            Pruner::Always => true,
            Pruner::Files => !status.is_tree(),
            Pruner::Deleted => status is Deleted,
            Pruner::Either(a, b) => a.always_prunes(status) || b.always_prunes(status),
            _ => false,
        }
    }

    /// The combination of two pruners.
    pub fn either(first: Pruner, second: Pruner) -> (p: Pruner)
        ensures
            p == Pruner::Either(Box::new(first), Box::new(second)),
    {
        Pruner::Either(Box::new(first), Box::new(second))
    }

    /// Asks the pruner about a difference. `visited` holds the hashes
    /// remembered so far and is brought up to date.
    pub fn should_prune(&self, status: &EntryStatus, visited: &mut Vec<NodeHash>) -> (r: bool)
        ensures
            r == self.prunes(status.deep_view(), old(visited)@),
            final(visited)@ == self.visited_after(status.deep_view(), old(visited)@),
        decreases self,
    {
        match self {
            Pruner::Never => false,
            Pruner::Always => true,
            Pruner::Files => !status.is_tree(),
            Pruner::Deleted => status.is_deleted(),
            Pruner::Visited => {
                match status {
                    EntryStatus::Deleted(_) => false,
                    EntryStatus::Added(e) => remember(visited, e.hash),
                    EntryStatus::Modified { to_entry, from_entry } => remember(
                        visited,
                        to_entry.hash,
                    ),
                }
            },
            Pruner::Either(a, b) => {
                if a.should_prune(status, visited) {
                    true
                } else {
                    b.should_prune(status, visited)
                }
            },
        }
    }
}

/// Whether `hash` is among `hashes`.
pub fn contains_hash(hashes: &Vec<NodeHash>, hash: NodeHash) -> (r: bool)
    ensures
        r == hashes@.contains(hash),
{
    let mut i: usize = 0;
    while i < hashes.len()
        invariant
            i <= hashes@.len(),
            forall|j: int| 0 <= j < i ==> hashes@[j] != hash,
        decreases hashes@.len() - i,
    {
        if hashes[i] == hash {
            return true;
        }
        i += 1;
    }
    false
}

/// Says whether `hash` was remembered before, and remembers it if not.
fn remember(visited: &mut Vec<NodeHash>, hash: NodeHash) -> (seen: bool)
    ensures
        seen == old(visited)@.contains(hash),
        seen ==> final(visited)@ == old(visited)@,
        !seen ==> final(visited)@ == old(visited)@.push(hash),
{
    if contains_hash(visited, hash) {
        true
    } else {
        visited.push(hash);
        false
    }
}

/// What a pruner prunes whatever it remembers, it prunes.
pub proof fn lemma_always_prunes(p: Pruner, status: StatusView, visited: Seq<NodeHash>)
    requires
        p.always_prunes(status),
    ensures
        p.prunes(status, visited),
    decreases p,
{
    match p {
        Pruner::Either(a, b) => {
            if a.always_prunes(status) {
                lemma_always_prunes(*a, status, visited);
            } else {
                lemma_always_prunes(*b, status, a.visited_after(status, visited));
            }
        },
        _ => {},
    }
}

/// A combination whose first part prunes everything behaves as the pruner
/// that prunes everything, whatever its second part is: it prunes every
/// difference and leaves the remembered hashes as they are.
pub proof fn lemma_always_absorbs(second: Pruner, status: StatusView, visited: Seq<NodeHash>)
    ensures
        Pruner::Either(Box::new(Pruner::Always), Box::new(second)).prunes(status, visited)
            == Pruner::Always.prunes(status, visited),
        Pruner::Either(Box::new(Pruner::Always), Box::new(second)).visited_after(status, visited)
            == Pruner::Always.visited_after(status, visited),
{
    reveal_with_fuel(Pruner::prunes, 2);
    reveal_with_fuel(Pruner::visited_after, 2);
}

/// A combination of two pruners that prune nothing prunes nothing and
/// remembers nothing.
pub proof fn lemma_never_twice_is_never(status: StatusView, visited: Seq<NodeHash>)
    ensures
        Pruner::Either(Box::new(Pruner::Never), Box::new(Pruner::Never)).prunes(status, visited)
            == Pruner::Never.prunes(status, visited),
        Pruner::Either(Box::new(Pruner::Never), Box::new(Pruner::Never)).visited_after(
            status,
            visited,
        ) == Pruner::Never.visited_after(status, visited),
{
    reveal_with_fuel(Pruner::prunes, 2);
    reveal_with_fuel(Pruner::visited_after, 2);
}

} // verus!
