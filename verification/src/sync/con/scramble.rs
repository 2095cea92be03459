//! A consumer adapter that buffers the items it consumes and hands them to
//! the consumer it wraps according to a cyclic schedule of operations.
use vstd::prelude::*;

use core::marker::PhantomData;

use crate::pile::{BulkConsumer, Consumer, SequenceState};
use crate::queues::fixed::{lemma_free_run_after_append, lemma_runs_in_bounds, Fixed, FixedView};
use crate::queues::min_nat;
use crate::queues::Queue;
use crate::sync::schedule::{
    has_work, lemma_idle_step_progresses, lemma_steps_below_len, next_index, schedule_bound,
    steps_to_work,
};

verus! {

/// One way of handing items to the wrapped consumer.
#[derive(Debug, Clone, Copy, PartialEq, Eq, Structural)]
pub enum ConsumeOperation {
    /// Hand over a single item.
    Consume,
    /// Hand over up to this many (at least one) items in bulk.
    ConsumerSlots(usize),
    /// Ask the wrapped consumer to flush.
    Flush,
}

/// A schedule is usable when it holds between one and 256 operations, at least
/// one of which is not a flush, and every bulk operation hands over at least
/// one item.
pub open spec fn valid_consume_operations(ops: Seq<ConsumeOperation>) -> bool {
    &&& ops.len() <= 256
    &&& exists|i: int| 0 <= i < ops.len() && !(#[trigger] ops[i] is Flush)
    &&& forall|i: int| 0 <= i < ops.len() ==> (#[trigger] ops[i] matches ConsumeOperation::ConsumerSlots(n) ==> n > 0)
}

/// The idle flags of a schedule: flushes hand over no items.
pub open spec fn consume_idle_flags(ops: Seq<ConsumeOperation>) -> Seq<bool> {
    ops.map_values(|op: ConsumeOperation| op is Flush)
}

/// A valid schedule has a working operation, and its idle flags are those of
/// its flushes.
pub proof fn lemma_consume_schedule_has_work(ops: Seq<ConsumeOperation>)
    requires
        valid_consume_operations(ops),
    ensures
        consume_idle_flags(ops).len() == ops.len(),
        forall|i: int| 0 <= i < ops.len() ==> #[trigger] consume_idle_flags(ops)[i] == ops[i] is Flush,
        has_work(consume_idle_flags(ops)),
{
    let idle = consume_idle_flags(ops);
    let j = choose|j: int| 0 <= j < ops.len() && !(#[trigger] ops[j] is Flush);
    assert(!idle[j]);
}

/// How many buffered items a `ConsumerSlots(n)` operation hands over when the
/// wrapped consumer offers `k` slots: no more than offered, than `n`, or than
/// the buffer's readable run.
pub open spec fn consume_chunk<R>(k: usize, n: usize, b: FixedView<R>) -> nat {
    min_nat(min_nat(k as nat, n as nat), b.readable_run())
}

/// One scheduled operation on a scrambler state `s` (wrapped consumer,
/// buffer, schedule position) with items buffered, after which the wrapped
/// consumer has not stopped and the state is `t`: the operation at `s.2`
/// hands the first buffered item (`Consume`) or a chunk of them
/// (`ConsumerSlots`) to the wrapped consumer, or flushes it (`Flush`), and the
/// schedule moves on.
pub open spec fn consume_step<I, R, L, S>(
    ops: Seq<ConsumeOperation>,
    s: (I, FixedView<R>, int),
    t: (I, FixedView<R>, int),
) -> bool where I: BulkConsumer<Repeated = R, Last = L, Stopped = S>, R: Copy {
    &&& 0 <= s.2 < ops.len()
    &&& s.1.items.len() > 0
    &&& t.2 == next_index(s.2, ops.len() as int)
    &&& match ops[s.2] {
        ConsumeOperation::Consume => {
            &&& s.0.consume_post(t.0, s.1.items[0], None)
            &&& t.1 == s.1.remove_front(1)
        },
        ConsumeOperation::ConsumerSlots(n) => exists|mid: I, k: usize|
            {
                &&& #[trigger] s.0.consumer_slots_post(mid, SequenceState::More(k))
                &&& 1 <= consume_chunk(k, n, s.1)
                &&& mid.did_consume_post(t.0, s.1.items.take(consume_chunk(k, n, s.1) as int))
                &&& t.1 == s.1.remove_front(consume_chunk(k, n, s.1))
            },
        ConsumeOperation::Flush => {
            &&& s.0.flush_post(t.0, None)
            &&& t.1 == s.1
        },
    }
}

/// The scheduled operation on a scrambler state `s` with items buffered makes
/// the wrapped consumer report the stop `st`, leaving it as `a`.
pub open spec fn consume_stop<I, R, L, S>(
    ops: Seq<ConsumeOperation>,
    s: (I, FixedView<R>, int),
    a: I,
    st: S,
) -> bool where I: BulkConsumer<Repeated = R, Last = L, Stopped = S>, R: Copy {
    &&& 0 <= s.2 < ops.len()
    &&& s.1.items.len() > 0
    &&& match ops[s.2] {
        ConsumeOperation::Consume => s.0.consume_post(a, s.1.items[0], Some(st)),
        ConsumeOperation::ConsumerSlots(_) => s.0.consumer_slots_post(a, SequenceState::Final(st)),
        ConsumeOperation::Flush => s.0.flush_post(a, Some(st)),
    }
}

/// `path` is a run of scheduled operations: each state is what the operation
/// due in the state before it takes that state to.
pub open spec fn consume_run<I, R, L, S>(
    ops: Seq<ConsumeOperation>,
    path: Seq<(I, FixedView<R>, int)>,
) -> bool where I: BulkConsumer<Repeated = R, Last = L, Stopped = S>, R: Copy {
    &&& path.len() >= 1
    &&& forall|k: int| 0 <= k < path.len() - 1 ==> #[trigger] consume_step(ops, path[k], path[k + 1])
}

/// Working through the schedule takes the state `s` to the state `t`, in at
/// most `bound` operations.
pub open spec fn drains_to<I, R, L, S>(
    ops: Seq<ConsumeOperation>,
    s: (I, FixedView<R>, int),
    t: (I, FixedView<R>, int),
    bound: nat,
) -> bool where I: BulkConsumer<Repeated = R, Last = L, Stopped = S>, R: Copy {
    exists|path: Seq<(I, FixedView<R>, int)>|
        {
            &&& #[trigger] consume_run(ops, path)
            &&& path[0] == s
            &&& path.last() == t
            &&& path.len() <= bound + 1
        }
}

/// Working through the schedule from the state `s`, the wrapped consumer
/// reports the stop `st` and is left as `a`, after at most `bound`
/// operations, the last one included.
pub open spec fn drain_stops<I, R, L, S>(
    ops: Seq<ConsumeOperation>,
    s: (I, FixedView<R>, int),
    a: I,
    st: S,
    bound: nat,
) -> bool where I: BulkConsumer<Repeated = R, Last = L, Stopped = S>, R: Copy {
    exists|path: Seq<(I, FixedView<R>, int)>|
        {
            &&& #[trigger] consume_run(ops, path)
            &&& path[0] == s
            &&& consume_stop(ops, path.last(), a, st)
            &&& path.len() <= bound
        }
}

/// A run extended by one more scheduled operation is a run.
proof fn lemma_consume_run_push<I, R, L, S>(
    ops: Seq<ConsumeOperation>,
    path: Seq<(I, FixedView<R>, int)>,
    t: (I, FixedView<R>, int),
) where I: BulkConsumer<Repeated = R, Last = L, Stopped = S>, R: Copy
    requires
        consume_run(ops, path),
        consume_step(ops, path.last(), t),
    ensures
        consume_run(ops, path.push(t)),
        path.push(t)[0] == path[0],
        path.push(t).last() == t,
{
    let p = path.push(t);
    assert forall|k: int| 0 <= k < p.len() - 1 implies #[trigger] consume_step(ops, p[k], p[k + 1]) by {
        if k < path.len() - 1 {
            assert(consume_step(ops, path[k], path[k + 1]));
        }
    }
}

/// A checked schedule of operations for [`Scramble`].
#[derive(Debug, PartialEq, Eq)]
pub struct ConsumeOperations(Vec<ConsumeOperation>);

impl ConsumeOperations {
    /// The operations, in order.
    pub closed spec fn operations(&self) -> Seq<ConsumeOperation> {
        self.0@
    }

    /// Checks that the operations contain at least one non-flush operation,
    /// and that at most 256 operations are given.
    pub fn new(operations: Vec<ConsumeOperation>) -> (r: Option<Self>)
        requires
            forall|i: int|
                0 <= i < operations@.len() ==> (#[trigger] operations@[i] matches ConsumeOperation::ConsumerSlots(n) ==> n > 0),
        ensures
            r is Some <==> valid_consume_operations(operations@),
            r matches Some(ops) ==> ops.operations() == operations@,
    {
        let mut found_non_flush = false;
        let mut i: usize = 0;
        while i < operations.len() && !found_non_flush
            invariant
                0 <= i <= operations@.len(),
                found_non_flush <==> exists|j: int| 0 <= j < i && !(#[trigger] operations@[j] is Flush),
            decreases operations@.len() - i,
        {
            match operations[i] {
                ConsumeOperation::Flush => {},
                _ => {
                    found_non_flush = true;
                },
            }
            i = i + 1;
        }
        proof {
            if !found_non_flush {
                assert(forall|j: int| 0 <= j < operations@.len() ==> #[trigger] operations@[j] is Flush);
            }
        }
        if found_non_flush && operations.len() <= 256 {
            Some(ConsumeOperations(operations))
        } else {
            None
        }
    }
}

/// A consumer that buffers consumed items in a bounded buffer and, whenever
/// the buffer is full or a flush or close is requested, hands the buffered
/// items to an inner consumer by working through a cyclic schedule of
/// operations. The items and their order stay the same; only the chunks in
/// which the inner consumer receives them change.
#[derive(Debug)]
pub struct Scramble<I, R, L, S> {
    inner: I,
    buf: Fixed<R>,
    operations: Vec<ConsumeOperation>,
    operations_index: usize,
    sl: PhantomData<(S, L)>,
}

/// Creates a consumer that re-chunks the items it consumes through a buffer
/// of `capacity` items before handing them to `inner`, following the
/// schedule `operations`.
pub fn scramble<I, R, L, S>(inner: I, operations: ConsumeOperations, capacity: usize) -> (r:
    Scramble<I, R, L, S>) where I: BulkConsumer<Repeated = R, Last = L, Stopped = S>, R: Copy
    requires
        inner.inv(),
        valid_consume_operations(operations.operations()),
        capacity > 0,
    ensures
        r.inv(),
        r.inner() == inner,
        r.buffered() == Seq::<R>::empty(),
        r.buffer_capacity() == capacity,
        r.buffer_view() == (FixedView::<R> { items: Seq::empty(), capacity: capacity as nat, head: 0 }),
        r.schedule() == operations.operations(),
        r.schedule_index() == 0,
        r.consumed() == inner.consumed(),
        r.active() == inner.active(),
{
    let r = Scramble {
        inner,
        buf: Fixed::new(capacity),
        operations: operations.0,
        operations_index: 0,
        sl: PhantomData,
    };
    assert(r.inner.consumed() + Seq::<R>::empty() =~= r.inner.consumed());
    r
}

impl<I, R, L, S> Scramble<I, R, L, S> {
    /// The wrapped consumer.
    pub closed spec fn inner(&self) -> I {
        self.inner
    }

    /// The state of the buffer: the items consumed but not handed to the
    /// wrapped consumer yet, its capacity, and its ring position.
    pub closed spec fn buffer_view(&self) -> FixedView<R> {
        self.buf@
    }

    /// Whether the buffer's storage is consistent.
    pub closed spec fn buffer_ok(&self) -> bool {
        self.buf.wf()
    }

    /// The schedule of operations.
    pub closed spec fn schedule(&self) -> Seq<ConsumeOperation> {
        self.operations@
    }

    /// The position in the schedule of the operation whose turn it is.
    pub closed spec fn schedule_index(&self) -> nat {
        self.operations_index as nat
    }

    /// The state that the schedule acts on: the wrapped consumer, the
    /// buffer, and the position in the schedule.
    pub open spec fn schedule_state(&self) -> (I, FixedView<R>, int) {
        (self.inner(), self.buffer_view(), self.schedule_index() as int)
    }

    /// The items consumed but not handed to the wrapped consumer yet.
    pub open spec fn buffered(&self) -> Seq<R> {
        self.buffer_view().items
    }

    /// The capacity of the buffer.
    pub open spec fn buffer_capacity(&self) -> nat {
        self.buffer_view().capacity
    }

    /// Gives back the wrapped consumer.
    pub fn into_inner(self) -> (r: I)
        ensures
            r == self.inner(),
    {
        self.inner
    }

    /// The wrapped consumer.
    pub fn as_ref(&self) -> (r: &I)
        ensures
            *r == self.inner(),
    {
        &self.inner
    }

    /// The wrapped consumer, for modification.
    pub fn as_mut(&mut self) -> (r: &mut I)
        ensures
            *r == old(self).inner(),
            final(self).inner() == *final(r),
            final(self).buffered() == old(self).buffered(),
            final(self).buffer_capacity() == old(self).buffer_capacity(),
    {
        &mut self.inner
    }
}

impl<I: BulkConsumer<Repeated = R, Last = L, Stopped = S>, R: Copy, L, S> Scramble<I, R, L, S> {
    /// The schedule's idle flags.
    spec fn idle(&self) -> Seq<bool> {
        consume_idle_flags(self.operations@)
    }

    /// How far the schedule is from its next working operation.
    spec fn steps(&self) -> nat {
        steps_to_work(self.idle(), self.operations_index as int)
    }

    /// Scrambling keeps the items and their order: everything consumed has
    /// either been handed to the inner consumer, in order, or waits in the
    /// buffer, in order.
    pub proof fn lemma_items_preserved(&self)
        requires
            self.inv(),
        ensures
            self.consumed() == self.inner().consumed() + self.buffered(),
            self.buffered().len() <= self.buffer_capacity(),
    {
    }

    /// Hands buffered items to the inner consumer with the current operation
    /// of the schedule. Returns the inner consumer's stop if it stops.
    /// Otherwise the schedule moves on, and either the buffer has shrunk or the
    /// schedule got closer to a working operation.
    fn perform_operation(&mut self) -> (r: Option<S>)
        requires
            old(self).inv(),
            old(self).inner.active(),
            old(self).buf@.items.len() > 0,
        ensures
            final(self).inv(),
            final(self).buf@.capacity == old(self).buf@.capacity,
            final(self).buf@.items.len() <= old(self).buf@.items.len(),
            final(self).operations@ == old(self).operations@,
            r matches Some(st) ==> {
                &&& !final(self).inner.active()
                &&& consume_stop(
                    old(self).schedule(),
                    old(self).schedule_state(),
                    final(self).inner(),
                    st,
                )
            },
            r is None ==> {
                &&& final(self).inner.active()
                &&& final(self).consumed() == old(self).consumed()
                &&& consume_step(
                    old(self).schedule(),
                    old(self).schedule_state(),
                    final(self).schedule_state(),
                )
                &&& (final(self).buf@.items.len() < old(self).buf@.items.len()
                    || final(self).steps() < old(self).steps())
            },
    {
        let ghost idle = self.idle();
        let op = self.operations[self.operations_index];
        let next: usize = if self.operations_index + 1 == self.operations.len() {
            0
        } else {
            self.operations_index + 1
        };
        match op {
            ConsumeOperation::Consume => {
                let item = self.buf.dequeue().unwrap();
                self.operations_index = next;
                let r = self.inner.consume(item);
                assert(r is None ==> self.inner.consumed() + self.buf@.items
                    =~= old(self).inner.consumed() + old(self).buf@.items);
                assert(r is None ==> consume_step(old(self).schedule(), old(self).schedule_state(), self.schedule_state()));
                r
            },
            ConsumeOperation::ConsumerSlots(n) => {
                match self.inner.consumer_slots() {
                    SequenceState::Final(s) => Some(s),
                    SequenceState::More(k) => {
                        let ghost mid = self.inner;
                        assert(n > 0) by {
                            assert(self.operations@[self.operations_index as int]
                                matches ConsumeOperation::ConsumerSlots(_));
                        }
                        let ghost b = self.buf@.items;
                        let slots = self.buf.dequeue_slots().unwrap();
                        let limit: usize = if k < n { k } else { n };
                        let amount: usize = if slots.len() < limit { slots.len() } else { limit };
                        let handed = &slots[0..amount];
                        assert(handed@ =~= b.take(amount as int));
                        self.inner.did_consume(handed);
                        self.buf.did_dequeue(amount);
                        self.operations_index = next;
                        assert(self.inner.consumed() + self.buf@.items
                            =~= old(self).inner.consumed() + b);
                        assert(old(self).inner.consumer_slots_post(mid, SequenceState::More(k)));
                        assert(amount == consume_chunk(k, n, old(self).buf@));
                        let ghost st0 = old(self).schedule_state();
                        assert(st0.0.consumer_slots_post(mid, SequenceState::More(k)));
                        assert(1 <= consume_chunk(k, n, st0.1));
                        assert(mid.did_consume_post(self.schedule_state().0, st0.1.items.take(consume_chunk(k, n, st0.1) as int)));
                        assert(self.schedule_state().1 == st0.1.remove_front(consume_chunk(k, n, st0.1)));
                        assert(consume_step(old(self).schedule(), old(self).schedule_state(), self.schedule_state()));
                        None
                    },
                }
            },
            ConsumeOperation::Flush => {
                match self.inner.flush() {
                    Some(s) => Some(s),
                    None => {
                        proof {
                            lemma_consume_schedule_has_work(self.operations@);
                            assert(idle[self.operations_index as int]);
                            lemma_idle_step_progresses(idle, self.operations_index as int);
                        }
                        self.operations_index = next;
                        assert(consume_step(old(self).schedule(), old(self).schedule_state(), self.schedule_state()));
                        None
                    },
                }
            },
        }
    }

    /// Hands all buffered items to the inner consumer. Returns the inner
    /// consumer's stop if it stops on the way.
    fn drain(&mut self) -> (r: Option<S>)
        requires
            old(self).inv(),
            old(self).inner.active(),
        ensures
            final(self).inv(),
            final(self).buf@.capacity == old(self).buf@.capacity,
            final(self).operations@ == old(self).operations@,
            r is None ==> {
                &&& final(self).inner.active()
                &&& final(self).buf@.items.len() == 0
                &&& final(self).consumed() == old(self).consumed()
                &&& drains_to(
                    old(self).schedule(),
                    old(self).schedule_state(),
                    final(self).schedule_state(),
                    schedule_bound(old(self).buffered().len(), old(self).schedule().len()),
                )
            },
            r matches Some(st) ==> {
                &&& !final(self).inner.active()
                &&& drain_stops(
                    old(self).schedule(),
                    old(self).schedule_state(),
                    final(self).inner(),
                    st,
                    schedule_bound(old(self).buffered().len(), old(self).schedule().len()),
                )
            },
    {
        let ghost mut path = seq![self.schedule_state()];
        let ghost s0 = self.steps();
        let ghost len0 = self.buf@.items.len();
        let ghost ol = self.operations@.len();
        proof {
            lemma_consume_schedule_has_work(self.operations@);
            lemma_steps_below_len(self.idle(), self.operations_index as int);
        }
        while self.buf.get_amount() > 0
            invariant
                s0 < ol,
                ol == old(self).operations@.len(),
                len0 == old(self).buf@.items.len(),
                self.buf@.items.len() <= len0,
                path.len() - 1 + self.steps() <= s0 + (len0 - self.buf@.items.len()) * ol,
                self.inv(),
                self.inner.active(),
                self.buf@.capacity == old(self).buf@.capacity,
                self.operations@ == old(self).operations@,
                self.consumed() == old(self).consumed(),
                consume_run(old(self).schedule(), path),
                path[0] == old(self).schedule_state(),
                path.last() == self.schedule_state(),
            decreases self.buf@.items.len(), self.steps(),
        {
            let ghost before = self.schedule_state();
            let ghost sb = self.steps();
            let ghost n0: int = self.buf@.items.len() as int;
            match self.perform_operation() {
                Some(s) => {
                    assert(path.len() <= schedule_bound(old(self).buffered().len(), old(self).schedule().len())) by {
                        assert(s0 + 1 + (len0 - n0) * ol <= (len0 + 1) * ol) by (nonlinear_arith)
                            requires
                                s0 < ol,
                                1 <= n0 <= len0,
                        ;
                    }
                    assert(consume_run(old(self).schedule(), path) && path[0] == old(self).schedule_state()
                        && consume_stop(old(self).schedule(), path.last(), self.inner(), s));
                    return Some(s);
                },
                None => {
                    proof {
                        lemma_consume_schedule_has_work(self.operations@);
                        lemma_steps_below_len(self.idle(), self.operations_index as int);
                        let n1: int = self.buf@.items.len() as int;
                        if n1 < n0 {
                            assert((len0 - n1) * ol >= (len0 - n0) * ol + ol) by (nonlinear_arith)
                                requires
                                    n1 + 1 <= n0,
                                    ol >= 0,
                            ;
                        }
                        lemma_consume_run_push(old(self).schedule(), path, self.schedule_state());
                        path = path.push(self.schedule_state());
                    }
                },
            }
        }
        assert(path.len() <= schedule_bound(old(self).buffered().len(), old(self).schedule().len()) + 1) by {
            assert(s0 + len0 * ol <= (len0 + 1) * ol) by (nonlinear_arith)
                requires
                    s0 < ol,
            ;
        }
        assert(consume_run(old(self).schedule(), path) && path[0] == old(self).schedule_state()
            && path.last() == self.schedule_state());
        None
    }
}

impl<I: BulkConsumer<Repeated = R, Last = L, Stopped = S>, R: Copy, L, S> Consumer for Scramble<
    I,
    R,
    L,
    S,
> {
    type Repeated = R;
    type Last = L;
    type Stopped = S;

    /// The inner consumer and the buffer are consistent, and the schedule is
    /// valid with its index in range.
    open spec fn inv(&self) -> bool {
        &&& self.inner().inv()
        &&& self.buffer_ok()
        &&& self.buffer_view().wf()
        &&& valid_consume_operations(self.schedule())
        &&& self.schedule_index() < self.schedule().len()
    }

    /// What the inner consumer has accepted, followed by the buffer.
    open spec fn consumed(&self) -> Seq<R> {
        self.inner().consumed() + self.buffered()
    }

    open spec fn active(&self) -> bool {
        self.inner().active()
    }

    /// Buffers the item while there is room. Otherwise works through the
    /// schedule until every buffered item has been handed over, and then
    /// buffers the item; a stop on the way is the one the wrapped consumer
    /// reported.
    open spec fn consume_post(&self, next: Self, item: R, r: Option<S>) -> bool {
        &&& next.schedule() == self.schedule()
        &&& next.buffer_capacity() == self.buffer_capacity()
        &&& self.buffered().len() < self.buffer_capacity() ==> {
            &&& r is None
            &&& next.buffer_view() == self.buffer_view().append(seq![item])
            &&& next.inner() == self.inner()
            &&& next.schedule_index() == self.schedule_index()
        }
        &&& self.buffered().len() >= self.buffer_capacity() ==> match r {
            None => exists|m: (I, FixedView<R>, int)|
                {
                    &&& #[trigger] drains_to(
                        self.schedule(),
                        self.schedule_state(),
                        m,
                        schedule_bound(self.buffered().len(), self.schedule().len()),
                    )
                    &&& m.1.items.len() == 0
                    &&& next.inner() == m.0
                    &&& next.buffer_view() == m.1.append(seq![item])
                    &&& next.schedule_index() == m.2
                },
            Some(st) => {
                &&& !next.inner().active()
                &&& drain_stops(
                    self.schedule(),
                    self.schedule_state(),
                    next.inner(),
                    st,
                    schedule_bound(self.buffered().len(), self.schedule().len()),
                )
            },
        }
    }

    /// Works through the schedule until every buffered item has been handed
    /// over, in order, and then flushes the wrapped consumer and returns what
    /// its `flush` returned; a stop before that is the one the wrapped
    /// consumer reported.
    open spec fn flush_post(&self, next: Self, r: Option<S>) -> bool {
        &&& next.schedule() == self.schedule()
        &&& next.buffer_capacity() == self.buffer_capacity()
        &&& r is None ==> {
            &&& next.buffered().len() == 0
            &&& next.inner().consumed() == self.consumed()
        }
        &&& {
            ||| exists|m: (I, FixedView<R>, int)|
                {
                    &&& #[trigger] drains_to(
                        self.schedule(),
                        self.schedule_state(),
                        m,
                        schedule_bound(self.buffered().len(), self.schedule().len()),
                    )
                    &&& m.1.items.len() == 0
                    &&& m.0.flush_post(next.inner(), r)
                    &&& next.buffer_view() == m.1
                    &&& next.schedule_index() == m.2
                }
            ||| r matches Some(st) && drain_stops(
                self.schedule(),
                self.schedule_state(),
                next.inner(),
                st,
                schedule_bound(self.buffered().len(), self.schedule().len()),
            )
        }
    }

    /// Works through the schedule until every buffered item has been handed
    /// over, in order, and then closes the wrapped consumer and returns what
    /// its `close` returned; a stop before that is the one the wrapped
    /// consumer reported.
    open spec fn close_post(&self, next: Self, last: L, r: Option<S>) -> bool {
        &&& next.schedule() == self.schedule()
        &&& next.buffer_capacity() == self.buffer_capacity()
        &&& !next.inner().active()
        &&& {
            ||| exists|m: (I, FixedView<R>, int)|
                {
                    &&& #[trigger] drains_to(
                        self.schedule(),
                        self.schedule_state(),
                        m,
                        schedule_bound(self.buffered().len(), self.schedule().len()),
                    )
                    &&& m.1.items.len() == 0
                    &&& m.0.consumed() == self.consumed()
                    &&& m.0.close_post(next.inner(), last, r)
                    &&& next.buffer_view() == m.1
                    &&& next.schedule_index() == m.2
                }
            ||| r matches Some(st) && drain_stops(
                self.schedule(),
                self.schedule_state(),
                next.inner(),
                st,
                schedule_bound(self.buffered().len(), self.schedule().len()),
            )
        }
    }

    fn consume(&mut self, item: R) -> (r: Option<S>) {
        match self.buf.enqueue(item) {
            None => {
                assert(self.consumed() =~= old(self).consumed().push(item));
                None
            },
            Some(item) => {
                if let Some(s) = self.drain() {
                    return Some(s);
                }
                let ghost m = self.schedule_state();
                assert(drains_to(
                    old(self).schedule(),
                    old(self).schedule_state(),
                    m,
                    schedule_bound(old(self).buffered().len(), old(self).schedule().len()),
                ));
                // The buffer is empty now, so the item fits.
                let rejected = self.buf.enqueue(item);
                assert(rejected is None);
                assert(self.consumed() =~= old(self).consumed().push(item));
                None
            },
        }
    }

    fn flush(&mut self) -> (r: Option<S>) {
        if let Some(s) = self.drain() {
            return Some(s);
        }
        let ghost m = self.schedule_state();
        assert(drains_to(
            old(self).schedule(),
            old(self).schedule_state(),
            m,
            schedule_bound(old(self).buffered().len(), old(self).schedule().len()),
        ));
        assert(self.inner.consumed() + self.buf@.items =~= self.inner.consumed());
        let r = self.inner.flush();
        assert(m.0.flush_post(self.inner(), r));
        r
    }

    fn close(&mut self, last: L) -> (r: Option<S>) {
        if let Some(s) = self.drain() {
            return Some(s);
        }
        let ghost m = self.schedule_state();
        assert(drains_to(
            old(self).schedule(),
            old(self).schedule_state(),
            m,
            schedule_bound(old(self).buffered().len(), old(self).schedule().len()),
        ));
        assert(self.inner.consumed() + self.buf@.items =~= self.inner.consumed());
        let r = self.inner.close(last);
        assert(m.0.close_post(self.inner(), last, r));
        r
    }
}

impl<I: BulkConsumer<Repeated = R, Last = L, Stopped = S>, R: Copy, L, S> BulkConsumer for Scramble<
    I,
    R,
    L,
    S,
> {
    /// The buffer's free run.
    open spec fn slots(&self) -> nat {
        self.buffer_view().free_run()
    }

    /// Offers the buffer's free run. A full buffer is first handed over by
    /// working through the schedule; a stop on the way is the one the wrapped
    /// consumer reported.
    open spec fn consumer_slots_post(&self, next: Self, r: SequenceState<usize, S>) -> bool {
        &&& next.schedule() == self.schedule()
        &&& next.buffer_capacity() == self.buffer_capacity()
        &&& self.buffered().len() < self.buffer_capacity() ==> {
            &&& r is More
            &&& next.schedule_state() == self.schedule_state()
        }
        &&& self.buffered().len() >= self.buffer_capacity() ==> match r {
            SequenceState::More(_) => {
                &&& next.buffered().len() == 0
                &&& drains_to(
                    self.schedule(),
                    self.schedule_state(),
                    next.schedule_state(),
                    schedule_bound(self.buffered().len(), self.schedule().len()),
                )
            },
            SequenceState::Final(st) => {
                &&& !next.inner().active()
                &&& drain_stops(
                    self.schedule(),
                    self.schedule_state(),
                    next.inner(),
                    st,
                    schedule_bound(self.buffered().len(), self.schedule().len()),
                )
            },
        }
        &&& r matches SequenceState::More(n) ==> {
            &&& n == next.buffer_view().free_run()
            &&& 1 <= n <= next.buffer_capacity() - next.buffered().len()
        }
    }

    /// Appends the items to the buffer.
    open spec fn did_consume_post(&self, next: Self, items: Seq<R>) -> bool {
        &&& next.schedule() == self.schedule()
        &&& next.buffer_capacity() == self.buffer_capacity()
        &&& next.buffer_view() == self.buffer_view().append(items)
        &&& next.inner() == self.inner()
        &&& next.schedule_index() == self.schedule_index()
    }

    fn consumer_slots(&mut self) -> (r: SequenceState<usize, S>) {
        let current: usize = self.buf.get_amount();
        let capacity: usize = self.buf.get_capacity();
        if current < capacity {
            SequenceState::More(self.buf.enqueue_slots().unwrap())
        } else {
            match self.drain() {
                Some(s) => {
                    let r: SequenceState<usize, S> = SequenceState::Final(s);
                    assert(drain_stops(
                        old(self).schedule(),
                        old(self).schedule_state(),
                        self.inner(),
                        r->Final_0,
                        schedule_bound(old(self).buffered().len(), old(self).schedule().len()),
                    ));
                    r
                },
                None => SequenceState::More(self.buf.enqueue_slots().unwrap()),
            }
        }
    }

    fn did_consume(&mut self, items: &[R]) {
        proof {
            lemma_free_run_after_append(self.buf@, items@);
        }
        self.buf.did_enqueue(items);
        assert(self.consumed() =~= old(self).consumed() + items@);
    }
}

/// A `ConsumerSlots(n)` operation hands the wrapped consumer between one and
/// `n` of the oldest buffered items, in order: after the wrapped consumer
/// offered `k` slots, as many items as `k`, `n` or the buffer's readable run
/// allows, whichever is least; they leave the buffer.
pub proof fn lemma_consumer_slots_step_chunk<I, R, L, S>(
    ops: Seq<ConsumeOperation>,
    s: (I, FixedView<R>, int),
    t: (I, FixedView<R>, int),
    n: usize,
) where I: BulkConsumer<Repeated = R, Last = L, Stopped = S>, R: Copy
    requires
        s.1.wf(),
        consume_step(ops, s, t),
        ops[s.2] == ConsumeOperation::ConsumerSlots(n),
    ensures
        1 <= s.1.items.len() - t.1.items.len() <= n,
        s.1.items.len() - t.1.items.len() <= s.1.readable_run(),
        t.1.items == s.1.items.skip(s.1.items.len() - t.1.items.len()),
        exists|mid: I, k: usize|
            {
                &&& #[trigger] s.0.consumer_slots_post(mid, SequenceState::More(k))
                &&& s.1.items.len() - t.1.items.len() <= k
                &&& {
                    ||| s.1.items.len() - t.1.items.len() == k
                    ||| s.1.items.len() - t.1.items.len() == n
                    ||| s.1.items.len() - t.1.items.len() == s.1.readable_run()
                }
                &&& mid.did_consume_post(
                    t.0,
                    s.1.items.take(s.1.items.len() - t.1.items.len()),
                )
            },
{
    lemma_runs_in_bounds(s.1);
    let (mid, k) = choose|mid: I, k: usize|
        {
            &&& #[trigger] s.0.consumer_slots_post(mid, SequenceState::More(k))
            &&& 1 <= consume_chunk(k, n, s.1)
            &&& mid.did_consume_post(t.0, s.1.items.take(consume_chunk(k, n, s.1) as int))
            &&& t.1 == s.1.remove_front(consume_chunk(k, n, s.1))
        };
    let j = consume_chunk(k, n, s.1);
    assert(t.1.items.len() == s.1.items.len() - j);
    assert(s.0.consumer_slots_post(mid, SequenceState::More(k)));
}

/// While the buffer has room, `consumer_slots` hands nothing to the wrapped
/// consumer: it offers between one slot and the free places of the buffer,
/// and the wrapped consumer, the buffer and the schedule position stay as
/// they were.
pub proof fn lemma_consumer_slots_with_room<I, R, L, S>(
    c: Scramble<I, R, L, S>,
    next: Scramble<I, R, L, S>,
    r: SequenceState<usize, S>,
) where I: BulkConsumer<Repeated = R, Last = L, Stopped = S>, R: Copy
    requires
        c.inv(),
        c.consumer_slots_post(next, r),
        c.buffered().len() < c.buffer_capacity(),
    ensures
        r matches SequenceState::More(k) && 1 <= k <= c.buffer_capacity() - c.buffered().len(),
        next.inner() == c.inner(),
        next.buffered() == c.buffered(),
        next.schedule_index() == c.schedule_index(),
{
}

/// While the buffer has room, `consume` only buffers the item: it accepts it,
/// appends it to the buffer, and the wrapped consumer and the schedule
/// position stay as they were.
pub proof fn lemma_consume_with_room<I, R, L, S>(
    c: Scramble<I, R, L, S>,
    next: Scramble<I, R, L, S>,
    item: R,
    r: Option<S>,
) where I: BulkConsumer<Repeated = R, Last = L, Stopped = S>, R: Copy
    requires
        c.inv(),
        c.consume_post(next, item, r),
        c.buffered().len() < c.buffer_capacity(),
    ensures
        r is None,
        next.buffered() == c.buffered().push(item),
        next.inner() == c.inner(),
        next.schedule_index() == c.schedule_index(),
{
}

/// A `Consume` operation hands exactly the oldest buffered item to the
/// wrapped consumer's `consume`, and only that item leaves the buffer; a
/// `Flush` operation flushes the wrapped consumer and hands nothing over.
/// Either way the schedule moves on to the next operation, cyclically.
pub proof fn lemma_consume_and_flush_steps<I, R, L, S>(
    ops: Seq<ConsumeOperation>,
    s: (I, FixedView<R>, int),
    t: (I, FixedView<R>, int),
)
    where I: BulkConsumer<Repeated = R, Last = L, Stopped = S>, R: Copy
    requires
        consume_step(ops, s, t),
    ensures
        t.2 == (if s.2 + 1 == ops.len() { 0 } else { s.2 + 1 }),
        ops[s.2] is Consume ==> {
            &&& s.0.consume_post(t.0, s.1.items[0], None)
            &&& t.1.items == s.1.items.drop_first()
        },
        ops[s.2] is Flush ==> {
            &&& s.0.flush_post(t.0, None)
            &&& t.1.items == s.1.items
        },
{
    if ops[s.2] is Consume {
        assert(t.1.items =~= s.1.items.drop_first());
    }
}

/// A flush without a stop first hands every buffered item to the wrapped
/// consumer, so that it has accepted everything consumed so far, and then
/// flushes it; a close without a stop does the same and then closes it.
pub proof fn lemma_flush_and_close_hand_everything_over<I, R, L, S>(
    c: Scramble<I, R, L, S>,
    next: Scramble<I, R, L, S>,
    last: L,
    r: Option<S>,
)
    where I: BulkConsumer<Repeated = R, Last = L, Stopped = S>, R: Copy
    requires
        c.inv(),
    ensures
        c.flush_post(next, None) ==> {
            &&& next.buffered().len() == 0
            &&& next.inner().consumed() == c.consumed()
            &&& exists|mid: I| #[trigger] mid.flush_post(next.inner(), None)
        },
        c.close_post(next, last, None) ==> exists|mid: I|
            {
                &&& mid.consumed() == c.consumed()
                &&& #[trigger] mid.close_post(next.inner(), last, None)
            },
{
}

} // verus!
