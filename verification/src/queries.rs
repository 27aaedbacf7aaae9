//! The commands that answer from what the repository holds: `heads` and
//! `known`.

use vstd::prelude::*;
use crate::hash::NodeHash;
use crate::pruner::contains_hash;

verus! {

/// The hashes of a list without repetition: of each the first occurrence,
/// in order.
pub open spec fn without_repeats(hashes: Seq<NodeHash>) -> Seq<NodeHash>
    decreases hashes.len(),
{
    if hashes.len() == 0 {
        Seq::empty()
    } else {
        let before = without_repeats(hashes.drop_last());
        if before.contains(hashes.last()) {
            before
        } else {
            before.push(hashes.last())
        }
    }
}

/// The answer of the `heads` command: the heads that the repository
/// reports, as a set. Each head stands in the answer once; the order of
/// the answer means nothing.
pub fn heads(reported: &Vec<NodeHash>) -> (set: Vec<NodeHash>)
    ensures
        set@ == without_repeats(reported@),
        set@.no_duplicates(),
        forall|h: NodeHash| set@.contains(h) == reported@.contains(h),
{
    let mut set: Vec<NodeHash> = Vec::new();
    let mut i: usize = 0;
    assert(reported@.take(0) =~= Seq::<NodeHash>::empty());
    while i < reported.len()
        invariant
            i <= reported@.len(),
            set@ == without_repeats(reported@.take(i as int)),
        decreases reported@.len() - i,
    {
        proof {
            assert(reported@.take(i + 1).drop_last() =~= reported@.take(i as int));
            assert(reported@.take(i + 1).last() == reported@[i as int]);
        }
        if !contains_hash(&set, reported[i]) {
            set.push(reported[i]);
        }
        i += 1;
    }
    proof {
        assert(reported@.take(reported@.len() as int) =~= reported@);
        lemma_without_repeats(reported@);
    }
    set
}

/// A list without repetition holds each hash of the list once.
pub proof fn lemma_without_repeats(hashes: Seq<NodeHash>)
    ensures
        without_repeats(hashes).no_duplicates(),
        forall|h: NodeHash| without_repeats(hashes).contains(h) == hashes.contains(h),
    decreases hashes.len(),
{
    if hashes.len() > 0 {
        let front = hashes.drop_last();
        let last = hashes.last();
        let before = without_repeats(front);
        lemma_without_repeats(front);
        assert forall|h: NodeHash| without_repeats(hashes).contains(h) == hashes.contains(
            h,
        ) by {
            if hashes.contains(h) {
                let k = choose|k: int| 0 <= k < hashes.len() && hashes[k] == h;
                if k < front.len() {
                    assert(front[k] == h);
                    assert(front.contains(h));
                    assert(before.contains(h) == front.contains(h));
                    if !before.contains(last) {
                        let m = choose|m: int| 0 <= m < before.len() && before[m] == h;
                        assert(before.push(last)[m] == h);
                    }
                } else {
                    assert(h == last);
                    if !before.contains(last) {
                        assert(before.push(last)[before.len() as int] == last);
                    }
                }
            }
            if without_repeats(hashes).contains(h) {
                let m = choose|m: int|
                    0 <= m < without_repeats(hashes).len() && without_repeats(hashes)[m] == h;
                if m < before.len() {
                    assert(before[m] == h);
                    assert(before.contains(h));
                    assert(before.contains(h) == front.contains(h));
                    let k = choose|k: int| 0 <= k < front.len() && front[k] == h;
                    assert(hashes[k] == h);
                } else {
                    assert(h == last);
                    assert(hashes[hashes.len() - 1] == h);
                }
            }
        }
    }
}

/// The answer of the `known` command: for each hash, in the order of the
/// request, whether the repository has a changeset with that hash.
/// `changesets` holds the hashes of the changesets that the repository has.
pub fn known(nodes: &Vec<NodeHash>, changesets: &Vec<NodeHash>) -> (answer: Vec<bool>)
    ensures
        answer@.len() == nodes@.len(),
        forall|i: int| 0 <= i < nodes@.len() ==> answer@[i] == changesets@.contains(nodes@[i]),
{
    let mut answer: Vec<bool> = Vec::with_capacity(nodes.len());
    let mut i: usize = 0;
    while i < nodes.len()
        invariant
            i <= nodes@.len(),
            answer@.len() == i,
            forall|j: int| 0 <= j < i ==> answer@[j] == changesets@.contains(nodes@[j]),
        decreases nodes@.len() - i,
    {
        answer.push(contains_hash(changesets, nodes[i]));
        i += 1;
    }
    answer
}

} // verus!
