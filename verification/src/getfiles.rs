//! The `getfiles` command: file contents in the order in which they were
//! asked for, with a bounded number of fetches under way.
//!
//! The engine takes in a request only while fewer fetches than the limit are
//! pending or waiting to be sent, and gives each submitted request a ticket.
//! Fetches may complete in any order. A completed fetch is sent only when
//! every request submitted before it has been sent: the output has the order
//! of the input.

use vstd::prelude::*;
use crate::hash::NodeHash;

verus! {

/// How many fetches of `getfiles` may be under way at once.
pub const GETFILES_BUFFER_SIZE: usize = 100;

/// A request for the content of one file.
#[derive(Debug, Clone, PartialEq, Eq)]
pub struct FileRequest {
    pub node: NodeHash,
    pub path: Vec<u8>,
}

/// The state of an ordered buffer as a mathematical value: the limit, the
/// ticket of the oldest request that has not been sent, and for each such
/// request, oldest first, its result if it has completed.
pub struct BufferView<T> {
    pub limit: nat,
    pub first: nat,
    pub slots: Seq<Option<T>>,
}

impl<T> BufferView<T> {
    /// Whether another request can be submitted.
    pub open spec fn has_room(self) -> bool {
        self.slots.len() < self.limit && self.first + self.slots.len() < u64::MAX
    }

    /// The ticket that the next submitted request gets.
    pub open spec fn next_ticket(self) -> nat {
        self.first + self.slots.len()
    }

    /// Whether `ticket` names a request that is still pending.
    pub open spec fn is_pending(self, ticket: nat) -> bool {
        self.first <= ticket < self.first + self.slots.len() && self.slots[ticket - self.first]
            is None
    }

    /// The results that can be sent now: those of the oldest requests, up to
    /// the first that is still pending.
    pub open spec fn ready(self) -> Seq<T>
        decreases self.slots.len(),
    {
        if self.slots.len() == 0 {
            Seq::empty()
        } else {
            match self.slots[0] {
                None => Seq::empty(),
                Some(v) => seq![v] + (BufferView {
                    limit: self.limit,
                    first: self.first + 1,
                    slots: self.slots.drop_first(),
                }).ready(),
            }
        }
    }

    /// The state after a request was submitted: with room it has a place
    /// at the end; without room nothing changes.
    pub open spec fn submitted(self) -> BufferView<T> {
        if self.has_room() {
            BufferView { slots: self.slots.push(None), ..self }
        } else {
            self
        }
    }

    /// The state after the fetch with the given ticket completed with the
    /// given result. A ticket that names no pending request changes nothing.
    pub open spec fn completed(self, ticket: nat, value: T) -> BufferView<T> {
        if self.is_pending(ticket) {
            BufferView { slots: self.slots.update(ticket - self.first, Some(value)), ..self }
        } else {
            self
        }
    }

    /// The state after the fetches with the tickets `order` completed one
    /// after the other, the fetch with ticket `t` with the result
    /// `values[t - first]`.
    pub open spec fn completed_all(self, order: Seq<nat>, values: Seq<T>) -> BufferView<T>
        decreases order.len(),
    {
        if order.len() == 0 {
            self
        } else {
            self.completed(order[0], values[order[0] - self.first]).completed_all(
                order.drop_first(),
                values,
            )
        }
    }

    /// The buffer holds no more requests than its limit, and its tickets fit.
    pub open spec fn wf(self) -> bool {
        self.slots.len() <= self.limit && self.first + self.slots.len() <= u64::MAX
    }
}

/// A buffer that hands results out in the order in which their requests
/// were submitted, and takes in no more requests than its limit at a time.
pub struct OrderedBuffer<T> {
    limit: usize,
    first: u64,
    slots: Vec<Option<T>>,
}

impl<T> View for OrderedBuffer<T> {
    type V = BufferView<T>;

    closed spec fn view(&self) -> BufferView<T> {
        BufferView { limit: self.limit as nat, first: self.first as nat, slots: self.slots@ }
    }
}

impl<T> OrderedBuffer<T> {
    /// An empty buffer with the given limit.
    pub fn new(limit: usize) -> (b: Self)
        ensures
            b@ == (BufferView::<T> { limit: limit as nat, first: 0, slots: Seq::empty() }),
            b@.wf(),
    {
        OrderedBuffer { limit, first: 0, slots: Vec::new() }
    }

    /// How many submitted requests have not been sent yet.
    pub fn in_flight(&self) -> (n: usize)
        ensures
            n == self@.slots.len(),
    {
        self.slots.len()
    }

    /// Takes in a request if there is room and returns its ticket. Without
    /// room the buffer stays as it is and the caller has to wait.
    pub fn submit(&mut self) -> (ticket: Option<u64>)
        requires
            old(self)@.wf(),
        ensures
            final(self)@.wf(),
            final(self)@ == old(self)@.submitted(),
            old(self)@.has_room() ==> ticket == Some(old(self)@.next_ticket() as u64),
            !old(self)@.has_room() ==> ticket.is_none(),
    {
        if self.slots.len() >= self.limit {
            return None;
        }
        let pending: u64 = self.slots.len() as u64;
        if pending >= u64::MAX - self.first {
            return None;
        }
        let ticket: u64 = self.first + pending;
        self.slots.push(None);
        Some(ticket)
    }

    /// Records the result of the request with the given ticket. A ticket
    /// that names no pending request changes nothing and is answered with
    /// `false`.
    pub fn complete(&mut self, ticket: u64, value: T) -> (accepted: bool)
        requires
            old(self)@.wf(),
        ensures
            final(self)@.wf(),
            accepted == old(self)@.is_pending(ticket as nat),
            final(self)@ == old(self)@.completed(ticket as nat, value),
    {
        if ticket < self.first {
            return false;
        }
        let offset: u64 = ticket - self.first;
        if offset >= self.slots.len() as u64 {
            return false;
        }
        let at: usize = offset as usize;
        if self.slots[at].is_some() {
            return false;
        }
        self.slots[at] = Some(value);
        true
    }

    /// Hands out the result of the oldest request if it has completed.
    /// While the oldest request is pending nothing is handed out, whatever
    /// else has completed.
    pub fn pop_ready(&mut self) -> (r: Option<T>)
        requires
            old(self)@.wf(),
        ensures
            final(self)@.wf(),
            old(self)@.slots.len() > 0 && old(self)@.slots[0] is Some ==> r == old(self)@.slots[0]
                && final(self)@ == (BufferView {
                limit: old(self)@.limit,
                first: old(self)@.first + 1,
                slots: old(self)@.slots.drop_first(),
            }),
            !(old(self)@.slots.len() > 0 && old(self)@.slots[0] is Some) ==> r.is_none()
                && final(self)@ == old(self)@,
    {
        if self.slots.len() == 0 {
            return None;
        }
        if self.slots[0].is_none() {
            return None;
        }
        let value = self.slots.remove(0);
        self.first = self.first + 1;
        assert(self.slots@ =~= old(self)@.slots.drop_first());
        value
    }

    /// Hands out all results that can be sent now, oldest first.
    pub fn drain_ready(&mut self) -> (out: Vec<T>)
        requires
            old(self)@.wf(),
        ensures
            final(self)@.wf(),
            out@ == old(self)@.ready(),
            final(self)@.limit == old(self)@.limit,
            final(self)@.first == old(self)@.first + out@.len(),
            final(self)@.slots == old(self)@.slots.skip(out@.len() as int),
    {
        let mut out: Vec<T> = Vec::new();
        proof {
            assert(self@.slots.skip(0) =~= self@.slots);
            assert(Seq::<T>::empty() + self@.ready() =~= self@.ready());
        }
        loop
            invariant
                self@.wf(),
                self@.limit == old(self)@.limit,
                self@.first == old(self)@.first + out@.len(),
                out@.len() <= old(self)@.slots.len(),
                self@.slots == old(self)@.slots.skip(out@.len() as int),
                out@ + self@.ready() == old(self)@.ready(),
            ensures
                self@.wf(),
                self@.limit == old(self)@.limit,
                self@.first == old(self)@.first + out@.len(),
                self@.slots == old(self)@.slots.skip(out@.len() as int),
                out@ == old(self)@.ready(),
            decreases self@.slots.len(),
        {
            let ghost before = self@;
            let ghost sent = out@;
            match self.pop_ready() {
                Some(v) => {
                    out.push(v);
                    proof {
                        assert(before.ready() =~= seq![v] + self@.ready());
                        assert(sent.push(v) + self@.ready() =~= sent + before.ready());
                        assert(self@.slots =~= old(self)@.slots.skip(out@.len() as int));
                    }
                },
                None => {
                    proof {
                        assert(before.ready() =~= Seq::<T>::empty());
                        assert(out@ + Seq::<T>::empty() =~= out@);
                    }
                    break ;
                },
            }
        }
        out
    }
}

/// A buffer for `getfiles`: at most 100 fetches under way.
pub fn getfiles_buffer() -> (b: OrderedBuffer<Vec<u8>>)
    ensures
        b@ == (BufferView::<Vec<u8>> {
            limit: GETFILES_BUFFER_SIZE as nat,
            first: 0,
            slots: Seq::empty(),
        }),
        b@.wf(),
{
    OrderedBuffer::new(GETFILES_BUFFER_SIZE)
}

/// While the oldest request is pending, nothing can be sent, whatever else
/// has completed.
pub proof fn lemma_pending_head_blocks<T>(b: BufferView<T>)
    requires
        b.slots.len() > 0,
        b.slots[0] is None,
    ensures
        b.ready() == Seq::<T>::empty(),
{
}

/// Once every request has completed, the results are sent in the order of
/// the tickets, whatever the order was in which the fetches completed.
pub proof fn lemma_all_complete_sends_in_order<T>(b: BufferView<T>, values: Seq<T>)
    requires
        b.slots.len() == values.len(),
        forall|i: int| 0 <= i < values.len() ==> #[trigger] b.slots[i] == Some(values[i]),
    ensures
        b.ready() == values,
    decreases b.slots.len(),
{
    if b.slots.len() > 0 {
        let rest = BufferView { limit: b.limit, first: b.first + 1, slots: b.slots.drop_first() };
        assert forall|i: int| 0 <= i < values.drop_first().len() implies #[trigger] rest.slots[i]
            == Some(values.drop_first()[i]) by {
            assert(rest.slots[i] == b.slots[i + 1]);
        }
        lemma_all_complete_sends_in_order(rest, values.drop_first());
        assert(b.slots[0] == Some(values[0]));
        assert(seq![values[0]] + values.drop_first() =~= values);
    } else {
        assert(values =~= Seq::<T>::empty());
    }
}

proof fn lemma_completed_all_fills<T>(b: BufferView<T>, order: Seq<nat>, values: Seq<T>)
    requires
        values.len() == b.slots.len(),
        order.no_duplicates(),
        forall|k: int|
            0 <= k < order.len() ==> b.is_pending(#[trigger] order[k]),
    ensures
        b.completed_all(order, values).first == b.first,
        b.completed_all(order, values).limit == b.limit,
        b.completed_all(order, values).slots.len() == b.slots.len(),
        forall|i: int|
            0 <= i < b.slots.len() ==> #[trigger] b.completed_all(order, values).slots[i] == (if
                order.contains((b.first + i) as nat) {
                Some(values[i])
            } else {
                b.slots[i]
            }),
    decreases order.len(),
{
    if order.len() > 0 {
        let t = order[0];
        let next = b.completed(t, values[t - b.first]);
        let rest = order.drop_first();
        assert(b.is_pending(order[0]));
        assert forall|k: int| 0 <= k < rest.len() implies next.is_pending(#[trigger] rest[k]) by {
            assert(rest[k] == order[k + 1]);
            assert(b.is_pending(order[k + 1]));
            assert(order[k + 1] != order[0]);
        }
        assert(rest.no_duplicates()) by {
            assert forall|i: int, j: int| 0 <= i < rest.len() && 0 <= j < rest.len() && i != j implies rest[i] != rest[j] by {
                assert(rest[i] == order[i + 1] && rest[j] == order[j + 1]);
            }
        }
        lemma_completed_all_fills(next, rest, values);
        let end = b.completed_all(order, values);
        assert forall|i: int| 0 <= i < b.slots.len() implies #[trigger] end.slots[i] == (if order.contains(
            (b.first + i) as nat,
        ) {
            Some(values[i])
        } else {
            b.slots[i]
        }) by {
            let ticket = (b.first + i) as nat;
            if rest.contains(ticket) {
                let k = choose|k: int| 0 <= k < rest.len() && rest[k] == ticket;
                assert(order[k + 1] == ticket);
            } else if ticket == t {
                assert(order[0] == ticket);
            } else {
                if order.contains(ticket) {
                    let k = choose|k: int| 0 <= k < order.len() && order[k] == ticket;
                    assert(k > 0);
                    assert(rest[k - 1] == ticket);
                }
            }
        }
    }
}

/// The output has the order of the input, whatever the order is in which
/// the fetches complete: once the fetches of all pending requests have
/// completed, each once and in any order, the results are sent in the
/// order of the tickets.
pub proof fn lemma_any_completion_order_sends_in_order<T>(
    b: BufferView<T>,
    order: Seq<nat>,
    values: Seq<T>,
)
    requires
        values.len() == b.slots.len(),
        forall|i: int| 0 <= i < b.slots.len() ==> (#[trigger] b.slots[i]) is None,
        order.no_duplicates(),
        forall|k: int|
            0 <= k < order.len() ==> b.first <= #[trigger] order[k] < b.first + b.slots.len(),
        forall|i: int| 0 <= i < b.slots.len() ==> order.contains(#[trigger] ((b.first + i) as nat)),
    ensures
        b.completed_all(order, values).ready() == values,
{
    assert forall|k: int| 0 <= k < order.len() implies b.is_pending(#[trigger] order[k]) by {
        assert(b.slots[order[k] - b.first] is None);
    }
    lemma_completed_all_fills(b, order, values);
    let end = b.completed_all(order, values);
    assert forall|i: int| 0 <= i < values.len() implies #[trigger] end.slots[i] == Some(
        values[i],
    ) by {
        assert(order.contains((b.first + i) as nat));
    }
    lemma_all_complete_sends_in_order(end, values);
}

} // verus!
