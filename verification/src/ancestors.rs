//! The ancestor walk behind the `between` command.
//!
//! A walk follows first parents from a top node towards a bottom node and
//! keeps a sparse sample of what it passes: the nodes at distance 1, 2, 4,
//! 8, ... from the top. The walk itself never reads the repository: it says
//! which changeset it needs next, and is told that changeset's first parent.

use vstd::prelude::*;
use crate::errors::CommandError;
use crate::hash::{null_hash, NodeHash};

verus! {

/// Whether `n` is a power of two.
pub open spec fn is_pow2(n: nat) -> bool
    decreases n,
{
    if n <= 1 {
        n == 1
    } else {
        n % 2 == 0 && is_pow2(n / 2)
    }
}

/// The elements of `chain` at the power-of-two positions from `from` on, in
/// order.
pub open spec fn sample_from(chain: Seq<NodeHash>, from: nat) -> Seq<NodeHash>
    decreases chain.len() - from,
{
    if from >= chain.len() {
        Seq::empty()
    } else if is_pow2(from) {
        seq![chain[from as int]] + sample_from(chain, from + 1)
    } else {
        sample_from(chain, from + 1)
    }
}

/// The sparse sample of a chain: its elements at positions 1, 2, 4, 8, ...
pub open spec fn sparse_sample(chain: Seq<NodeHash>) -> Seq<NodeHash> {
    sample_from(chain, 0)
}

/// The state of a walk as a mathematical value.
pub struct WalkView {
    /// The node the walk stands on.
    pub cursor: NodeHash,
    /// The node at which the walk ends.
    pub bottom: NodeHash,
    /// How many nodes the walk has passed.
    pub index: nat,
    /// The next position whose node is kept.
    pub threshold: nat,
    /// The nodes kept so far.
    pub kept: Seq<NodeHash>,
}

impl WalkView {
    /// The state of a fresh walk from `top` to `bottom`.
    pub open spec fn start(top: NodeHash, bottom: NodeHash) -> WalkView {
        WalkView { cursor: top, bottom, index: 0, threshold: 1, kept: Seq::empty() }
    }

    /// A walk is over when it stands on the bottom node or on the null hash,
    /// or when its position counter is used up.
    pub open spec fn is_done(self) -> bool {
        self.cursor == self.bottom || self.cursor == null_hash() || self.index
            == u64::MAX as nat
    }

    /// The state after the first parent of the cursor became known. A missing
    /// parent counts as the null hash. A finished walk stays as it is.
    pub open spec fn step(self, first_parent: Option<NodeHash>) -> WalkView {
        if self.is_done() {
            self
        } else {
            WalkView {
                cursor: match first_parent {
                    Some(p) => p,
                    None => null_hash(),
                },
                bottom: self.bottom,
                index: self.index + 1,
                threshold: if self.index == self.threshold {
                    2 * self.threshold
                } else {
                    self.threshold
                },
                kept: if self.index == self.threshold {
                    self.kept.push(self.cursor)
                } else {
                    self.kept
                },
            }
        }
    }

    /// The state after a sequence of first parents became known, one by one.
    pub open spec fn feed(self, parents: Seq<Option<NodeHash>>) -> WalkView
        decreases parents.len(),
    {
        if parents.len() == 0 {
            self
        } else {
            self.step(parents[0]).feed(parents.drop_first())
        }
    }

    /// The threshold is the least power of two that the position has not
    /// passed.
    pub open spec fn wf(self) -> bool {
        &&& is_pow2(self.threshold)
        &&& self.index <= self.threshold
        &&& self.index == 0 ==> self.threshold == 1
        &&& self.threshold < 2 * self.index || self.index == 0 || self.threshold == 1
    }
}

/// A walk along first parents that keeps a sparse sample.
pub struct AncestorWalk {
    cursor: NodeHash,
    bottom: NodeHash,
    index: u64,
    threshold: u128,
    kept: Vec<NodeHash>,
}

impl View for AncestorWalk {
    type V = WalkView;

    closed spec fn view(&self) -> WalkView {
        WalkView {
            cursor: self.cursor,
            bottom: self.bottom,
            index: self.index as nat,
            threshold: self.threshold as nat,
            kept: self.kept@,
        }
    }
}

impl AncestorWalk {
    /// Starts a walk from `top` towards `bottom`.
    pub fn new(top: NodeHash, bottom: NodeHash) -> (w: Self)
        ensures
            w@ == WalkView::start(top, bottom),
            w@.wf(),
    {
        reveal_with_fuel(is_pow2, 2);
        AncestorWalk { cursor: top, bottom, index: 0, threshold: 1, kept: Vec::new() }
    }

    /// Whether the walk is over.
    pub fn is_done(&self) -> (r: bool)
        ensures
            r == self@.is_done(),
    {
        self.cursor == self.bottom || self.cursor.is_null() || self.index == u64::MAX
    }

    /// The changeset whose first parent the walk needs next; `None` once the
    /// walk is over.
    pub fn next_fetch(&self) -> (r: Option<NodeHash>)
        ensures
            self@.is_done() ==> r.is_none(),
            !self@.is_done() ==> r == Some(self@.cursor),
    {
        if self.is_done() {
            None
        } else {
            Some(self.cursor)
        }
    }

    /// Takes the first parent of the changeset that `next_fetch` named and
    /// moves on to it. The node left behind is kept if its position is the
    /// current threshold, which then doubles.
    pub fn advance(&mut self, first_parent: Option<NodeHash>)
        ensures
            final(self)@ == old(self)@.step(first_parent),
            old(self)@.wf() ==> final(self)@.wf(),
    {
        if self.is_done() {
            return ;
        }
        proof {
            if self@.wf() {
                lemma_step_keeps_wf(self@, first_parent);
            }
        }
        let here = self.cursor;
        self.cursor = match first_parent {
            Some(p) => p,
            None => NodeHash::null(),
        };
        if self.index as u128 == self.threshold {
            self.kept.push(here);
            self.threshold = 2 * self.threshold;
        }
        self.index = self.index + 1;
    }

    /// The nodes kept so far, in the order in which the walk passed them.
    pub fn kept(&self) -> (r: &Vec<NodeHash>)
        ensures
            r@ == self@.kept,
    {
        &self.kept
    }

    /// Ends the walk and hands out what it kept.
    pub fn into_kept(self) -> (r: Vec<NodeHash>)
        ensures
            r@ == self@.kept,
    {
        self.kept
    }
}

/// A step keeps the threshold the least power of two not yet passed.
pub proof fn lemma_step_keeps_wf(w: WalkView, first_parent: Option<NodeHash>)
    requires
        w.wf(),
    ensures
        w.step(first_parent).wf(),
{
    if !w.is_done() && w.index == w.threshold {
        let t = w.threshold;
        assert(is_pow2(2 * t)) by {
            assert((2 * t) / 2 == t && (2 * t) % 2 == 0);
        }
    }
}

/// Between a power of two and its double there is no other power of two.
pub proof fn lemma_pow2_gap(a: nat, b: nat)
    requires
        is_pow2(a),
        is_pow2(b),
        a < b,
    ensures
        2 * a <= b,
    decreases b,
{
    if a > 1 {
        lemma_pow2_gap(a / 2, b / 2);
    }
}

/// In a well-formed walk the position meets the threshold exactly at the
/// powers of two.
pub proof fn lemma_threshold_marks_pow2(w: WalkView)
    requires
        w.wf(),
    ensures
        (w.index == w.threshold) == is_pow2(w.index),
{
    if is_pow2(w.index) && w.index < w.threshold {
        lemma_pow2_gap(w.index, w.threshold);
    }
}

/// What a walk is told while it follows `chain`: the first parent of each
/// node it passes. The node after the last of the chain is `last`.
pub open spec fn parents_along(chain: Seq<NodeHash>, last: Option<NodeHash>) -> Seq<
    Option<NodeHash>,
> {
    Seq::new(
        chain.len(),
        |i: int|
            if i + 1 < chain.len() {
                Some(chain[i + 1])
            } else {
                last
            },
    )
}

/// Whether `chain` is a stretch of history that a walk towards `bottom`
/// passes in full: none of its nodes is the bottom or the null hash.
pub open spec fn is_open_chain(chain: Seq<NodeHash>, bottom: NodeHash) -> bool {
    forall|i: int|
        0 <= i < chain.len() ==> #[trigger] chain[i] != bottom && chain[i] != null_hash()
}

proof fn lemma_walk_from(
    w: WalkView,
    chain: Seq<NodeHash>,
    last: Option<NodeHash>,
    k: nat,
)
    requires
        w.wf(),
        k < chain.len() <= u64::MAX,
        is_open_chain(chain, w.bottom),
        w.index == k,
        w.cursor == chain[k as int],
    ensures
        w.feed(parents_along(chain, last).skip(k as int)).kept == w.kept + sample_from(chain, k),
        w.feed(parents_along(chain, last).skip(k as int)).index == chain.len(),
        w.feed(parents_along(chain, last).skip(k as int)).cursor == match last {
            Some(p) => p,
            None => null_hash(),
        },
        w.feed(parents_along(chain, last).skip(k as int)).bottom == w.bottom,
    decreases chain.len() - k,
{
    let parents = parents_along(chain, last);
    let rest = parents.skip(k as int);
    assert(rest.len() == chain.len() - k);
    assert(rest[0] == parents[k as int]);
    assert(rest.drop_first() =~= parents.skip(k as int + 1));
    assert(chain[k as int] != w.bottom && chain[k as int] != null_hash());
    assert(!w.is_done());
    let next = w.step(rest[0]);
    lemma_step_keeps_wf(w, rest[0]);
    lemma_threshold_marks_pow2(w);
    if k + 1 < chain.len() {
        lemma_walk_from(next, chain, last, k + 1);
        assert(next.kept + sample_from(chain, k + 1) =~= w.kept + sample_from(chain, k));
    } else {
        assert(parents.skip(k as int + 1).len() == 0);
        assert(next.feed(parents.skip(k as int + 1)) == next);
        assert(sample_from(chain, k + 1) =~= Seq::<NodeHash>::empty());
        assert(next.kept =~= w.kept + sample_from(chain, k));
    }
}

/// A walk that starts on its bottom node asks for nothing and keeps
/// nothing, whatever it is told.
pub proof fn lemma_walk_from_bottom_is_empty(x: NodeHash, parents: Seq<Option<NodeHash>>)
    ensures
        WalkView::start(x, x).is_done(),
        WalkView::start(x, x).feed(parents).kept == Seq::<NodeHash>::empty(),
    decreases parents.len(),
{
    if parents.len() > 0 {
        lemma_walk_from_bottom_is_empty(x, parents.drop_first());
    }
}

/// A walk that follows a chain of first parents from its top keeps exactly
/// the nodes at positions 1, 2, 4, 8, ... of the chain. The chain holds the
/// nodes before the bottom (or before the null hash, where the bottom is
/// not an ancestor); `last` is the first parent of its last node.
pub proof fn lemma_walk_keeps_sparse_sample(
    chain: Seq<NodeHash>,
    bottom: NodeHash,
    last: Option<NodeHash>,
)
    requires
        0 < chain.len() <= u64::MAX,
        is_open_chain(chain, bottom),
    ensures
        WalkView::start(chain[0], bottom).feed(parents_along(chain, last)).kept == sparse_sample(
            chain,
        ),
        (last == Some(bottom) || last.is_none()) ==> WalkView::start(chain[0], bottom).feed(
            parents_along(chain, last),
        ).is_done(),
{
    let w = WalkView::start(chain[0], bottom);
    reveal_with_fuel(is_pow2, 2);
    assert(w.wf());
    lemma_walk_from(w, chain, last, 0);
    assert(parents_along(chain, last).skip(0) =~= parents_along(chain, last));
    assert(w.kept + sample_from(chain, 0) =~= sparse_sample(chain));
}

/// The state of a `between` request as a mathematical value: one walk per
/// pair, in the order of the pairs, and the changeset that was found
/// missing, if any.
pub struct BetweenView {
    pub walks: Seq<WalkView>,
    pub missing: Option<NodeHash>,
}

/// The index of the first walk from `from` on that is not over; the number
/// of walks if there is none.
pub open spec fn first_unfinished(walks: Seq<WalkView>, from: int) -> int
    decreases walks.len() - from,
{
    if from < 0 || from >= walks.len() {
        walks.len() as int
    } else if !walks[from].is_done() {
        from
    } else {
        first_unfinished(walks, from + 1)
    }
}

impl BetweenView {
    /// The walks of a fresh request: one from each pair's top to its bottom.
    pub open spec fn start(pairs: Seq<(NodeHash, NodeHash)>) -> BetweenView {
        BetweenView {
            walks: Seq::new(pairs.len(), |i: int| WalkView::start(pairs[i].0, pairs[i].1)),
            missing: None,
        }
    }

    /// The walk that is being served: the first one that is not over.
    pub open spec fn active(self) -> int {
        first_unfinished(self.walks, 0)
    }

    /// The changeset that the request needs next. There is none once a
    /// changeset was found missing or all walks are over.
    pub open spec fn next_fetch(self) -> Option<NodeHash> {
        if self.missing.is_none() && self.active() < self.walks.len() {
            Some(self.walks[self.active()].cursor)
        } else {
            None
        }
    }

    /// The state after the first parent of the needed changeset became
    /// known.
    pub open spec fn supply(self, first_parent: Option<NodeHash>) -> BetweenView {
        if self.next_fetch().is_some() {
            BetweenView {
                walks: self.walks.update(
                    self.active(),
                    self.walks[self.active()].step(first_parent),
                ),
                missing: None,
            }
        } else {
            self
        }
    }

    /// The state after the needed changeset turned out not to exist.
    pub open spec fn fail(self) -> BetweenView {
        if self.next_fetch().is_some() {
            BetweenView { walks: self.walks, missing: self.next_fetch() }
        } else {
            self
        }
    }

    /// What the request answers: the kept nodes of each walk, in the order
    /// of the pairs, or the changeset that was found missing.
    pub open spec fn results(self) -> Result<Seq<Seq<NodeHash>>, NodeHash> {
        match self.missing {
            Some(h) => Err(h),
            None => Ok(Seq::new(self.walks.len(), |i: int| self.walks[i].kept)),
        }
    }
}

/// Whether `answers` are exactly what a walk asks for: the walk is not
/// over before it was told all of them, and over then.
pub open spec fn asks_exactly(w: WalkView, answers: Seq<Option<NodeHash>>) -> bool
    decreases answers.len(),
{
    if answers.len() == 0 {
        w.is_done()
    } else {
        !w.is_done() && asks_exactly(w.step(answers[0]), answers.drop_first())
    }
}

impl BetweenView {
    /// The state after a sequence of first parents became known, one by
    /// one.
    pub open spec fn feed(self, parents: Seq<Option<NodeHash>>) -> BetweenView
        decreases parents.len(),
    {
        if parents.len() == 0 {
            self
        } else {
            self.supply(parents[0]).feed(parents.drop_first())
        }
    }
}

proof fn lemma_first_unfinished(walks: Seq<WalkView>, from: int, k: int)
    requires
        0 <= from <= k <= walks.len(),
        forall|i: int| from <= i < k ==> (#[trigger] walks[i]).is_done(),
        k < walks.len() ==> !walks[k].is_done(),
    ensures
        first_unfinished(walks, from) == k,
    decreases k - from,
{
    if from < k {
        lemma_first_unfinished(walks, from + 1, k);
    }
}

proof fn lemma_feed_one_walk(
    b: BetweenView,
    k: int,
    answers: Seq<Option<NodeHash>>,
    rest: Seq<Option<NodeHash>>,
)
    requires
        b.missing.is_none(),
        0 <= k < b.walks.len(),
        forall|i: int| 0 <= i < k ==> (#[trigger] b.walks[i]).is_done(),
        asks_exactly(b.walks[k], answers),
    ensures
        b.walks[k].feed(answers).is_done(),
        b.feed(answers + rest) == (BetweenView {
            walks: b.walks.update(k, b.walks[k].feed(answers)),
            missing: None,
        }).feed(rest),
    decreases answers.len(),
{
    if answers.len() == 0 {
        assert(answers + rest =~= rest);
        assert(b.walks.update(k, b.walks[k]) =~= b.walks);
    } else {
        lemma_first_unfinished(b.walks, 0, k);
        let next = b.supply(answers[0]);
        assert((answers + rest)[0] == answers[0]);
        assert((answers + rest).drop_first() =~= answers.drop_first() + rest);
        assert(next.walks[k] == b.walks[k].step(answers[0]));
        assert forall|i: int| 0 <= i < k implies (#[trigger] next.walks[i]).is_done() by {
            assert(next.walks[i] == b.walks[i]);
        }
        lemma_feed_one_walk(next, k, answers.drop_first(), rest);
        assert(next.walks.update(k, next.walks[k].feed(answers.drop_first())) =~= b.walks.update(
            k,
            b.walks[k].feed(answers),
        ));
    }
}

proof fn lemma_feed_walks_from(b: BetweenView, k: int, answers: Seq<Seq<Option<NodeHash>>>)
    requires
        b.missing.is_none(),
        0 <= k,
        k + answers.len() == b.walks.len(),
        forall|i: int| 0 <= i < k ==> (#[trigger] b.walks[i]).is_done(),
        forall|j: int|
            0 <= j < answers.len() ==> asks_exactly(b.walks[k + j], #[trigger] answers[j]),
    ensures
        b.feed(answers.flatten()).missing.is_none(),
        b.feed(answers.flatten()).walks.len() == b.walks.len(),
        forall|i: int| 0 <= i < k ==> b.feed(answers.flatten()).walks[i] == #[trigger] b.walks[i],
        forall|j: int|
            0 <= j < answers.len() ==> b.feed(answers.flatten()).walks[k + j] == b.walks[k
                + j].feed(#[trigger] answers[j]),
        forall|i: int|
            0 <= i < b.walks.len() ==> (#[trigger] b.feed(answers.flatten()).walks[i]).is_done(),
    decreases answers.len(),
{
    if answers.len() == 0 {
        assert(answers.flatten() =~= Seq::<Option<NodeHash>>::empty());
    } else {
        let tail = answers.drop_first();
        assert(answers.flatten() =~= answers[0] + tail.flatten());
        assert(asks_exactly(b.walks[k + 0], answers[0]));
        lemma_feed_one_walk(b, k, answers[0], tail.flatten());
        let next = BetweenView {
            walks: b.walks.update(k, b.walks[k].feed(answers[0])),
            missing: None,
        };
        assert forall|j: int| 0 <= j < tail.len() implies asks_exactly(
            next.walks[k + 1 + j],
            #[trigger] tail[j],
        ) by {
            assert(tail[j] == answers[j + 1]);
            assert(next.walks[k + 1 + j] == b.walks[k + (j + 1)]);
        }
        lemma_feed_walks_from(next, k + 1, tail);
        let end = next.feed(tail.flatten());
        assert forall|j: int| 0 <= j < answers.len() implies end.walks[k + j] == b.walks[k
            + j].feed(#[trigger] answers[j]) by {
            if j > 0 {
                assert(tail[j - 1] == answers[j]);
                assert(end.walks[k + 1 + (j - 1)] == next.walks[k + 1 + (j - 1)].feed(tail[j - 1]));
            } else {
                assert(end.walks[k] == next.walks[k]);
            }
        }
        assert forall|i: int| 0 <= i < k implies end.walks[i] == #[trigger] b.walks[i] by {
            assert(end.walks[i] == next.walks[i]);
        }
    }
}

/// A `between` request serves its pairs one after the other and answers in
/// their order: told, pair by pair, exactly what each pair's walk asks for,
/// it ends with nothing left to ask and with each pair's kept nodes at the
/// pair's place.
pub proof fn lemma_between_answers_in_order(
    pairs: Seq<(NodeHash, NodeHash)>,
    answers: Seq<Seq<Option<NodeHash>>>,
)
    requires
        answers.len() == pairs.len(),
        forall|i: int|
            0 <= i < pairs.len() ==> asks_exactly(
                WalkView::start(pairs[i].0, pairs[i].1),
                #[trigger] answers[i],
            ),
    ensures
        BetweenView::start(pairs).feed(answers.flatten()).next_fetch().is_none(),
        BetweenView::start(pairs).feed(answers.flatten()).results() == Ok::<
            Seq<Seq<NodeHash>>,
            NodeHash,
        >(
            Seq::new(
                pairs.len(),
                |i: int| WalkView::start(pairs[i].0, pairs[i].1).feed(answers[i]).kept,
            ),
        ),
{
    let b = BetweenView::start(pairs);
    lemma_feed_walks_from(b, 0, answers);
    let end = b.feed(answers.flatten());
    lemma_first_unfinished(end.walks, 0, end.walks.len() as int);
    assert(end.results()->Ok_0 =~= Seq::new(
        pairs.len(),
        |i: int| WalkView::start(pairs[i].0, pairs[i].1).feed(answers[i]).kept,
    )) by {
        assert forall|i: int| 0 <= i < pairs.len() implies end.walks[i].kept == WalkView::start(
            pairs[i].0,
            pairs[i].1,
        ).feed(answers[i]).kept by {
            assert(end.walks[0 + i] == b.walks[0 + i].feed(answers[i]));
        }
    }
}

proof fn lemma_asks_along_from(
    w: WalkView,
    chain: Seq<NodeHash>,
    last: Option<NodeHash>,
    k: nat,
)
    requires
        k < chain.len() <= u64::MAX,
        is_open_chain(chain, w.bottom),
        last == Some(w.bottom) || last.is_none() || last == Some(null_hash()),
        w.index == k,
        w.cursor == chain[k as int],
    ensures
        asks_exactly(w, parents_along(chain, last).skip(k as int)),
    decreases chain.len() - k,
{
    let parents = parents_along(chain, last);
    let rest = parents.skip(k as int);
    assert(rest.len() == chain.len() - k);
    assert(rest[0] == parents[k as int]);
    assert(rest.drop_first() =~= parents.skip(k as int + 1));
    assert(chain[k as int] != w.bottom && chain[k as int] != null_hash());
    assert(!w.is_done());
    let next = w.step(rest[0]);
    if k + 1 < chain.len() {
        assert(next.cursor == chain[k as int + 1]);
        lemma_asks_along_from(next, chain, last, k + 1);
        assert(asks_exactly(next, rest.drop_first()));
    } else {
        assert(rest.drop_first().len() == 0);
        assert(next.is_done());
        assert(asks_exactly(next, rest.drop_first()));
    }
}

/// A walk that follows a chain of first parents asks for the first parent
/// of each node of the chain, and for nothing more once it was told that
/// the last node's first parent is the bottom, or that it has none.
pub proof fn lemma_walk_asks_along_chain(
    chain: Seq<NodeHash>,
    bottom: NodeHash,
    last: Option<NodeHash>,
)
    requires
        0 < chain.len() <= u64::MAX,
        is_open_chain(chain, bottom),
        last == Some(bottom) || last.is_none() || last == Some(null_hash()),
    ensures
        asks_exactly(WalkView::start(chain[0], bottom), parents_along(chain, last)),
{
    lemma_asks_along_from(WalkView::start(chain[0], bottom), chain, last, 0);
    assert(parents_along(chain, last).skip(0) =~= parents_along(chain, last));
}

/// A `between` request: the walks of all its pairs, served one after the
/// other in the order of the pairs.
pub struct Between {
    walks: Vec<AncestorWalk>,
    missing: Option<NodeHash>,
}

impl View for Between {
    type V = BetweenView;

    closed spec fn view(&self) -> BetweenView {
        BetweenView {
            walks: Seq::new(self.walks@.len(), |i: int| self.walks@[i]@),
            missing: self.missing,
        }
    }
}

impl Between {
    /// Starts a request for the given (top, bottom) pairs.
    pub fn new(pairs: &Vec<(NodeHash, NodeHash)>) -> (b: Self)
        ensures
            b@ == BetweenView::start(pairs@),
    {
        let mut walks: Vec<AncestorWalk> = Vec::new();
        let mut i: usize = 0;
        while i < pairs.len()
            invariant
                i <= pairs.len(),
                walks@.len() == i,
                forall|j: int|
                    0 <= j < i ==> (#[trigger] walks@[j])@ == WalkView::start(
                        pairs@[j].0,
                        pairs@[j].1,
                    ),
            decreases pairs.len() - i,
        {
            walks.push(AncestorWalk::new(pairs[i].0, pairs[i].1));
            i += 1;
        }
        let b = Between { walks, missing: None };
        assert(b@.walks =~= BetweenView::start(pairs@).walks);
        b
    }

    fn active(&self) -> (i: usize)
        ensures
            i == self@.active(),
            i <= self.walks@.len(),
            i < self.walks@.len() ==> !self.walks@[i as int]@.is_done(),
    {
        let mut i: usize = 0;
        while i < self.walks.len() && self.walks[i].is_done()
            invariant
                i <= self.walks@.len(),
                first_unfinished(self@.walks, 0) == first_unfinished(self@.walks, i as int),
            decreases self.walks@.len() - i,
        {
            i += 1;
        }
        i
    }

    /// The changeset whose first parent the request needs next; `None` once
    /// a changeset was found missing or all walks are over.
    pub fn next_fetch(&self) -> (r: Option<NodeHash>)
        ensures
            r == self@.next_fetch(),
    {
        if self.missing.is_some() {
            return None;
        }
        let i = self.active();
        if i < self.walks.len() {
            self.walks[i].next_fetch()
        } else {
            None
        }
    }

    /// Takes the first parent of the changeset that `next_fetch` named.
    pub fn supply(&mut self, first_parent: Option<NodeHash>)
        ensures
            final(self)@ == old(self)@.supply(first_parent),
    {
        if self.missing.is_some() {
            return ;
        }
        let i = self.active();
        if i < self.walks.len() {
            self.walks[i].advance(first_parent);
            assert(self@.walks =~= old(self)@.supply(first_parent).walks);
        }
    }

    /// Records that the changeset that `next_fetch` named does not exist.
    /// The request then asks for nothing more and answers with that error.
    pub fn fail(&mut self)
        ensures
            final(self)@ == old(self)@.fail(),
    {
        let needed = self.next_fetch();
        if needed.is_some() {
            self.missing = needed;
            assert(self@.walks =~= old(self)@.walks);
        }
    }

    /// Ends the request: the kept nodes of each pair, in the order of the
    /// pairs, or the failure that names the changeset that was found
    /// missing.
    pub fn finish(self) -> (r: Result<Vec<Vec<NodeHash>>, CommandError>)
        ensures
            match self@.results() {
                Ok(lists) => r.is_ok() && r.unwrap()@.len() == lists.len() && forall|i: int|
                    0 <= i < lists.len() ==> (#[trigger] r.unwrap()@[i])@ == lists[i],
                Err(h) => r == Err::<Vec<Vec<NodeHash>>, CommandError>(
                    CommandError::ChangesetNotFound(h),
                ),
            },
    {
        if let Some(h) = self.missing {
            return Err(CommandError::ChangesetNotFound(h));
        }
        let mut out: Vec<Vec<NodeHash>> = Vec::new();
        let mut walks = self.walks;
        let ghost all = walks@;
        let mut i: usize = 0;
        while i < walks.len()
            invariant
                i <= walks@.len(),
                walks@ == all,
                out@.len() == i,
                forall|j: int| 0 <= j < i ==> (#[trigger] out@[j])@ == all[j]@.kept,
            decreases walks@.len() - i,
        {
            out.push(walks[i].kept().clone());
            i += 1;
        }
        Ok(out)
    }
}

} // verus!
