//! A producer adapter that re-chunks the items of the producer it wraps
//! according to a cyclic schedule of operations.
use vstd::prelude::*;

use core::marker::PhantomData;

use crate::pile::{
    lemma_producer_reaches_refl, lemma_producer_reaches_trans, lemma_producer_step_reaches,
    producer_reaches, slots_view, BulkProducer, Producer, SequenceState,
};
use crate::queues::fixed::{lemma_readable_run_advances, lemma_runs_in_bounds, Fixed, FixedView};
use crate::queues::min_nat;
use crate::queues::Queue;
use crate::sync::schedule::{
    has_work, lemma_idle_step_progresses, lemma_steps_below_len, next_index, schedule_bound,
    steps_to_work,
};

verus! {

/// One way of pulling items from the wrapped producer.
#[derive(Debug, Clone, Copy, PartialEq, Eq, Structural)]
pub enum ProduceOperation {
    /// Take a single item.
    Produce,
    /// Take up to this many (at least one) items in bulk.
    ProducerSlots(usize),
    /// Ask the wrapped producer to slurp.
    Slurp,
}

/// Whether an operation makes no progress by itself.
pub open spec fn is_idle_produce_operation(op: ProduceOperation) -> bool {
    op is Slurp
}

/// A schedule is usable when it holds between one and 256 operations, at least
/// one of which is not a slurp, and every bulk operation asks for at least one
/// item.
pub open spec fn valid_produce_operations(ops: Seq<ProduceOperation>) -> bool {
    &&& ops.len() <= 256
    &&& exists|i: int| 0 <= i < ops.len() && !(#[trigger] ops[i] is Slurp)
    &&& forall|i: int| 0 <= i < ops.len() ==> (#[trigger] ops[i] matches ProduceOperation::ProducerSlots(n) ==> n > 0)
}

/// The idle flags of a schedule.
pub open spec fn produce_idle_flags(ops: Seq<ProduceOperation>) -> Seq<bool> {
    ops.map_values(|op: ProduceOperation| is_idle_produce_operation(op))
}

/// A valid schedule has a working operation, and its idle flags are those of
/// its slurps.
pub proof fn lemma_produce_schedule_has_work(ops: Seq<ProduceOperation>)
    requires
        valid_produce_operations(ops),
    ensures
        produce_idle_flags(ops).len() == ops.len(),
        forall|i: int| 0 <= i < ops.len() ==> #[trigger] produce_idle_flags(ops)[i] == ops[i] is Slurp,
        has_work(produce_idle_flags(ops)),
{
    let idle = produce_idle_flags(ops);
    let j = choose|j: int| 0 <= j < ops.len() && !(#[trigger] ops[j] is Slurp);
    assert(!idle[j]);
}

/// Splitting the inner producer's items into those handed out and those still
/// buffered.
proof fn lemma_split_off_buffer<R>(q: Seq<R>, p: Seq<R>, b: Seq<R>)
    requires
        q == p + b,
    ensures
        q.take(q.len() - b.len()) == p,
{
    assert(q.take(q.len() - b.len()) =~= p);
}

/// How many items a `ProducerSlots(n)` operation moves into the buffer when
/// the wrapped producer exposes `sl`: no more than exposed, than `n`, or than
/// the buffer's free run.
pub open spec fn pull_chunk<R>(sl: Seq<R>, n: usize, b: FixedView<R>) -> nat {
    min_nat(b.free_run(), min_nat(sl.len(), n as nat))
}

/// One scheduled operation on a scrambler state `s` (wrapped producer,
/// buffer, schedule position) whose buffer is not full, after which the
/// wrapped producer has not ended and the state is `t`: the operation at
/// `s.2` pulls one item (`Produce`) or a chunk of the exposed items
/// (`ProducerSlots`) into the buffer, or lets the wrapped producer slurp
/// (`Slurp`), and the schedule moves on.
pub open spec fn pull_step<I, R, L, S>(
    ops: Seq<ProduceOperation>,
    s: (I, FixedView<R>, int),
    t: (I, FixedView<R>, int),
) -> bool where I: BulkProducer<Repeated = R, Last = L, Stopped = S>, R: Copy {
    &&& 0 <= s.2 < ops.len()
    &&& s.1.items.len() < s.1.capacity
    &&& t.2 == next_index(s.2, ops.len() as int)
    &&& match ops[s.2] {
        ProduceOperation::Produce => exists|x: R|
            {
                &&& #[trigger] s.0.produce_post(t.0, SequenceState::More(x))
                &&& t.1 == s.1.append(seq![x])
            },
        ProduceOperation::ProducerSlots(n) => exists|mid: I, sl: Seq<R>|
            {
                &&& #[trigger] s.0.producer_slots_post(mid, SequenceState::More(sl))
                &&& 1 <= pull_chunk(sl, n, s.1)
                &&& mid.did_produce_post(t.0, pull_chunk(sl, n, s.1))
                &&& t.1 == s.1.append(sl.take(pull_chunk(sl, n, s.1) as int))
            },
        ProduceOperation::Slurp => {
            &&& s.0.slurp_post(t.0, None)
            &&& t.1 == s.1
        },
    }
}

/// The scheduled operation on a scrambler state `s` whose buffer is not full
/// makes the wrapped producer report its last item `l`, leaving it as `a`.
pub open spec fn pull_end<I, R, L, S>(
    ops: Seq<ProduceOperation>,
    s: (I, FixedView<R>, int),
    a: I,
    l: L,
) -> bool where I: BulkProducer<Repeated = R, Last = L, Stopped = S>, R: Copy {
    &&& 0 <= s.2 < ops.len()
    &&& s.1.items.len() < s.1.capacity
    &&& match ops[s.2] {
        ProduceOperation::Produce => s.0.produce_post(a, SequenceState::Final(l)),
        ProduceOperation::ProducerSlots(_) => s.0.producer_slots_post(a, SequenceState::Final(l)),
        ProduceOperation::Slurp => s.0.slurp_post(a, Some(l)),
    }
}

/// The operation from the `k`-th state of `path` to the next one is the
/// scheduled one, made while the buffer held fewer than `limit` items.
pub open spec fn pull_link<I, R, L, S>(
    ops: Seq<ProduceOperation>,
    limit: nat,
    path: Seq<(I, FixedView<R>, int)>,
    k: int,
) -> bool where I: BulkProducer<Repeated = R, Last = L, Stopped = S>, R: Copy {
    &&& path[k].1.items.len() < limit
    &&& pull_step(ops, path[k], path[k + 1])
}

/// `path` is a run of scheduled operations, each made while the buffer held
/// fewer than `limit` items: each state is what the operation due in the
/// state before it takes that state to.
pub open spec fn pull_run<I, R, L, S>(
    ops: Seq<ProduceOperation>,
    limit: nat,
    path: Seq<(I, FixedView<R>, int)>,
) -> bool where I: BulkProducer<Repeated = R, Last = L, Stopped = S>, R: Copy {
    &&& path.len() >= 1
    &&& forall|k: int| 0 <= k < path.len() - 1 ==> #[trigger] pull_link(ops, limit, path, k)
}

/// Working through the schedule while the buffer holds fewer than `limit`
/// items takes the state `s` to the state `t`, in at most `bound` operations.
pub open spec fn pulls_to<I, R, L, S>(
    ops: Seq<ProduceOperation>,
    limit: nat,
    s: (I, FixedView<R>, int),
    t: (I, FixedView<R>, int),
    bound: nat,
) -> bool where I: BulkProducer<Repeated = R, Last = L, Stopped = S>, R: Copy {
    exists|path: Seq<(I, FixedView<R>, int)>|
        {
            &&& #[trigger] pull_run(ops, limit, path)
            &&& path[0] == s
            &&& path.last() == t
            &&& path.len() <= bound + 1
        }
}

/// Working through the schedule while the buffer holds fewer than `limit`
/// items, from the state `s`, the wrapped producer reports its last item `l`;
/// afterwards the wrapped producer is `t.0`, and the buffer and schedule
/// position are `t.1` and `t.2`, as before that last operation. At most
/// `bound` operations are made, the last one included.
pub open spec fn pull_ends<I, R, L, S>(
    ops: Seq<ProduceOperation>,
    limit: nat,
    s: (I, FixedView<R>, int),
    t: (I, FixedView<R>, int),
    l: L,
    bound: nat,
) -> bool where I: BulkProducer<Repeated = R, Last = L, Stopped = S>, R: Copy {
    exists|path: Seq<(I, FixedView<R>, int)>|
        {
            &&& #[trigger] pull_run(ops, limit, path)
            &&& path.len() <= bound
            &&& path[0] == s
            &&& path.last().1 == t.1
            &&& path.last().2 == t.2
            &&& path.last().1.items.len() < limit
            &&& pull_end(ops, path.last(), t.0, l)
        }
}

/// A run extended by one more scheduled operation, made while the buffer
/// held fewer than `limit` items, is a run.
proof fn lemma_pull_run_push<I, R, L, S>(
    ops: Seq<ProduceOperation>,
    limit: nat,
    path: Seq<(I, FixedView<R>, int)>,
    t: (I, FixedView<R>, int),
) where I: BulkProducer<Repeated = R, Last = L, Stopped = S>, R: Copy
    requires
        pull_run(ops, limit, path),
        path.last().1.items.len() < limit,
        pull_step(ops, path.last(), t),
    ensures
        pull_run(ops, limit, path.push(t)),
        path.push(t)[0] == path[0],
        path.push(t).last() == t,
{
    let p = path.push(t);
    assert forall|k: int| 0 <= k < p.len() - 1 implies #[trigger] pull_link(ops, limit, p, k) by {
        if k < path.len() - 1 {
            assert(pull_link(ops, limit, path, k));
            assert(p[k] == path[k]);
            assert(p[k + 1] == path[k + 1]);
        } else {
            assert(p[k] == path.last());
            assert(p[k + 1] == t);
        }
    }
    assert(pull_run(ops, limit, p));
}

/// A checked schedule of operations for [`Scramble`].
#[derive(Debug, PartialEq, Eq)]
pub struct ProduceOperations(Vec<ProduceOperation>);

impl ProduceOperations {
    /// The operations, in order.
    pub closed spec fn operations(&self) -> Seq<ProduceOperation> {
        self.0@
    }

    /// Checks that the operations contain at least one non-slurp operation,
    /// and that at most 256 operations are given.
    pub fn new(operations: Vec<ProduceOperation>) -> (r: Option<Self>)
        requires
            forall|i: int|
                0 <= i < operations@.len() ==> (#[trigger] operations@[i] matches ProduceOperation::ProducerSlots(n) ==> n > 0),
        ensures
            r is Some <==> valid_produce_operations(operations@),
            r matches Some(ops) ==> ops.operations() == operations@,
    {
        let mut found_non_slurp = false;
        let mut i: usize = 0;
        while i < operations.len() && !found_non_slurp
            invariant
                0 <= i <= operations@.len(),
                found_non_slurp <==> exists|j: int| 0 <= j < i && !(#[trigger] operations@[j] is Slurp),
            decreases operations@.len() - i,
        {
            match operations[i] {
                ProduceOperation::Slurp => {},
                _ => {
                    found_non_slurp = true;
                },
            }
            i = i + 1;
        }
        proof {
            if !found_non_slurp {
                assert(forall|j: int| 0 <= j < operations@.len() ==> #[trigger] operations@[j] is Slurp);
            }
        }
        if found_non_slurp && operations.len() <= 256 {
            Some(ProduceOperations(operations))
        } else {
            None
        }
    }
}


/// A producer that pulls the items of an inner producer into a bounded buffer
/// by working through a cyclic schedule of operations, and hands them out
/// from that buffer. The items and their order stay the same; only the
/// chunks in which the inner producer is asked for them change.
#[derive(Debug)]
pub struct Scramble<I, R, L, S> {
    inner: I,
    buf: Fixed<R>,
    last: Option<L>,
    operations: Vec<ProduceOperation>,
    operations_index: usize,
    s: PhantomData<S>,
}

/// Creates a producer that re-chunks the items of `inner` through a buffer
/// of `capacity` items, following the schedule `operations`.
pub fn scramble<I, R, L, S>(inner: I, operations: ProduceOperations, capacity: usize) -> (r:
    Scramble<I, R, L, S>) where I: BulkProducer<Repeated = R, Last = L, Stopped = S>, R: Copy
    requires
        inner.inv(),
        valid_produce_operations(operations.operations()),
        capacity > 0,
    ensures
        r.inv(),
        r.inner() == inner,
        r.buffered() == Seq::<R>::empty(),
        r.buffer_capacity() == capacity,
        r.buffer_view() == (FixedView::<R> { items: Seq::empty(), capacity: capacity as nat, head: 0 }),
        r.schedule() == operations.operations(),
        r.schedule_index() == 0,
        r.stored_last() is None,
        r.produced() == inner.produced(),
        r.active() == inner.active(),
{
    let r = Scramble {
        inner,
        buf: Fixed::new(capacity),
        last: None,
        operations: operations.0,
        operations_index: 0,
        s: PhantomData,
    };
    assert(r.inner.produced() =~= r.inner.produced() + Seq::<R>::empty());
    assert(r.inner.produced().take(r.inner.produced().len() as int) =~= r.inner.produced());
    r
}

impl<I, R, L, S> Scramble<I, R, L, S> {
    /// The wrapped producer.
    pub closed spec fn inner(&self) -> I {
        self.inner
    }

    /// The state of the buffer: the items pulled from the wrapped producer and
    /// not handed out yet, its capacity, and its ring position.
    pub closed spec fn buffer_view(&self) -> FixedView<R> {
        self.buf@
    }

    /// Whether the buffer's storage is consistent.
    pub closed spec fn buffer_ok(&self) -> bool {
        self.buf.wf()
    }

    /// The schedule of operations.
    pub closed spec fn schedule(&self) -> Seq<ProduceOperation> {
        self.operations@
    }

    /// The position in the schedule of the operation whose turn it is.
    pub closed spec fn schedule_index(&self) -> nat {
        self.operations_index as nat
    }

    /// The state that the schedule acts on: the wrapped producer, the
    /// buffer, and the position in the schedule.
    pub open spec fn schedule_state(&self) -> (I, FixedView<R>, int) {
        (self.inner(), self.buffer_view(), self.schedule_index() as int)
    }

    /// The items pulled from the wrapped producer and not handed out yet.
    pub open spec fn buffered(&self) -> Seq<R> {
        self.buffer_view().items
    }

    /// The capacity of the buffer.
    pub open spec fn buffer_capacity(&self) -> nat {
        self.buffer_view().capacity
    }

    /// The last item of the wrapped producer, once it has been pulled.
    pub closed spec fn stored_last(&self) -> Option<L> {
        self.last
    }

    /// Gives back the wrapped producer.
    pub fn into_inner(self) -> (r: I)
        ensures
            r == self.inner(),
    {
        self.inner
    }

    /// The wrapped producer.
    pub fn as_ref(&self) -> (r: &I)
        ensures
            *r == self.inner(),
    {
        &self.inner
    }

    /// The wrapped producer, for modification.
    pub fn as_mut(&mut self) -> (r: &mut I)
        ensures
            *r == old(self).inner(),
            final(self).inner() == *final(r),
            final(self).buffered() == old(self).buffered(),
            final(self).buffer_capacity() == old(self).buffer_capacity(),
            final(self).stored_last() == old(self).stored_last(),
    {
        &mut self.inner
    }
}

impl<I: BulkProducer<Repeated = R, Last = L, Stopped = S>, R: Copy, L, S> Scramble<I, R, L, S> {
    /// The schedule's idle flags.
    spec fn idle(&self) -> Seq<bool> {
        produce_idle_flags(self.operations@)
    }

    /// How far the schedule is from its next working operation.
    spec fn steps(&self) -> nat {
        steps_to_work(self.idle(), self.operations_index as int)
    }

    /// Scrambling keeps the items and their order: everything the inner
    /// producer has produced has either been handed out, in order, or waits in
    /// the buffer, in order.
    pub proof fn lemma_items_preserved(&self)
        requires
            self.inv(),
        ensures
            self.inner().produced() == self.produced() + self.buffered(),
            self.buffered().len() <= self.buffer_capacity(),
    {
    }

    /// Pulls items from the inner producer with the current operation of the
    /// schedule. Returns the inner producer's last item if it has ended.
    /// Otherwise the schedule moves on, and either the buffer has grown or the
    /// schedule got closer to a working operation.
    fn perform_operation(&mut self) -> (r: Option<L>)
        requires
            old(self).inv(),
            old(self).last is None,
            old(self).inner.active(),
            old(self).buf@.items.len() < old(self).buf@.capacity,
        ensures
            final(self).inv(),
            final(self).last is None,
            final(self).produced() == old(self).produced(),
            final(self).buf@.capacity == old(self).buf@.capacity,
            final(self).buf@.items.len() >= old(self).buf@.items.len(),
            final(self).operations@ == old(self).operations@,
            producer_reaches(old(self).inner, final(self).inner),
            r matches Some(l) ==> {
                &&& final(self).buf@ == old(self).buf@
                &&& final(self).operations_index == old(self).operations_index
                &&& !final(self).inner.active()
                &&& pull_end(old(self).schedule(), old(self).schedule_state(), final(self).inner(), l)
            },
            r is None ==> {
                &&& final(self).inner.active()
                &&& pull_step(old(self).schedule(), old(self).schedule_state(), final(self).schedule_state())
                &&& (final(self).buf@.items.len() > old(self).buf@.items.len() || final(self).steps()
                    < old(self).steps())
            },
    {
        let ghost p = self.produced();
        let ghost idle = self.idle();
        let op = self.operations[self.operations_index];
        let next: usize = if self.operations_index + 1 == self.operations.len() {
            0
        } else {
            self.operations_index + 1
        };
        match op {
            ProduceOperation::Produce => {
                let res = self.inner.produce();
                proof {
                    lemma_producer_step_reaches(old(self).inner, self.inner);
                }
                match res {
                    SequenceState::Final(l) => {
                        return Some(l);
                    },
                    SequenceState::More(item) => {
                        let rejected = self.buf.enqueue(item);
                        assert(rejected is None);
                        assert(old(self).schedule_state().0.produce_post(self.inner, SequenceState::More(item)));
                        self.operations_index = next;
                        let ghost st0 = old(self).schedule_state();
                        let ghost st1 = self.schedule_state();
                        assert(st0.0.produce_post(st1.0, SequenceState::More(item)));
                        assert(st1.1 == st0.1.append(seq![item]));
                        assert(pull_step(old(self).schedule(), old(self).schedule_state(), self.schedule_state()));
                    },
                }
            },
            ProduceOperation::ProducerSlots(n) => {
                let res = self.inner.producer_slots();
                let ghost rv = slots_view(res);
                match res {
                    SequenceState::Final(l) => {
                        proof {
                            lemma_producer_step_reaches(old(self).inner, self.inner);
                        }
                        assert(old(self).schedule_state().0.producer_slots_post(
                            self.inner,
                            SequenceState::Final(l),
                        ));
                        return Some(l);
                    },
                    SequenceState::More(slots) => {
                        let ghost sl = slots@;
                        assert(rv == SequenceState::<Seq<R>, L>::More(sl));
                        assert(n > 0) by {
                            assert(self.operations@[self.operations_index as int]
                                matches ProduceOperation::ProducerSlots(_));
                        }
                        let l: usize = slots.len();
                        let take: usize = if l < n { l } else { n };
                        proof {
                            lemma_runs_in_bounds(self.buf@);
                        }
                        let free: usize = self.buf.enqueue_slots().unwrap();
                        let consume_amount: usize = if free < take { free } else { take };
                        let chunk = &slots[0..consume_amount];
                        assert(chunk@ =~= sl.take(consume_amount as int));
                        self.buf.did_enqueue(chunk);
                        let ghost mid = self.inner;
                        proof {
                            lemma_producer_step_reaches(old(self).inner, mid);
                        }
                        self.inner.did_produce(consume_amount);
                        proof {
                            lemma_producer_step_reaches(mid, self.inner);
                            lemma_producer_reaches_trans(old(self).inner, mid, self.inner);
                        }
                        let ghost st0 = old(self).schedule_state();
                        assert(consume_amount == pull_chunk(sl, n, st0.1));
                        assert(st0.0.producer_slots_post(mid, SequenceState::More(sl)));
                        self.operations_index = next;
                        let ghost st1 = self.schedule_state();
                        assert(1 <= pull_chunk(sl, n, st0.1));
                        assert(mid.did_produce_post(st1.0, pull_chunk(sl, n, st0.1)));
                        assert(st1.1 == st0.1.append(sl.take(pull_chunk(sl, n, st0.1) as int)));
                        assert(pull_step(old(self).schedule(), old(self).schedule_state(), self.schedule_state()));
                    },
                }
            },
            ProduceOperation::Slurp => {
                let res = self.inner.slurp();
                proof {
                    lemma_producer_step_reaches(old(self).inner, self.inner);
                }
                match res {
                    Some(l) => {
                        assert(old(self).schedule_state().0.slurp_post(self.inner, Some(l)));
                        return Some(l);
                    },
                    None => {
                        proof {
                            lemma_produce_schedule_has_work(self.operations@);
                            assert(idle[self.operations_index as int]);
                            lemma_idle_step_progresses(idle, self.operations_index as int);
                        }
                        self.operations_index = next;
                    },
                }
            },
        }
        assert(self.inner.produced() =~= p + self.buf@.items);
        proof {
            lemma_split_off_buffer(self.inner.produced(), p, self.buf@.items);
        }
        None
    }
}

impl<I: BulkProducer<Repeated = R, Last = L, Stopped = S>, R: Copy, L, S> Producer for Scramble<
    I,
    R,
    L,
    S,
> {
    type Repeated = R;
    type Last = L;
    type Stopped = S;

    /// The inner producer and the buffer are consistent, the schedule is
    /// valid with its index in range, the inner producer's items are those
    /// handed out followed by those buffered, and the inner producer has
    /// ended once a last item is stored.
    open spec fn inv(&self) -> bool {
        &&& self.inner().inv()
        &&& self.buffer_ok()
        &&& self.buffer_view().wf()
        &&& valid_produce_operations(self.schedule())
        &&& self.schedule_index() < self.schedule().len()
        &&& self.buffered().len() <= self.inner().produced().len()
        &&& self.inner().produced() == self.produced() + self.buffered()
        &&& self.stored_last() is Some ==> !self.inner().active()
    }

    /// What the inner producer has produced, without what is still buffered.
    open spec fn produced(&self) -> Seq<R> {
        self.inner().produced().take(self.inner().produced().len() - self.buffered().len())
    }

    /// The contiguous run at the front of the buffer.
    open spec fn exposed(&self) -> Seq<R> {
        self.buffered().take(self.buffer_view().readable_run() as int)
    }

    open spec fn active(&self) -> bool {
        self.stored_last() is Some || self.inner().active()
    }

    /// A buffered item is handed out first, and with an empty buffer a
    /// stored last item ends the sequence. Otherwise the schedule is worked
    /// through until the buffer holds an item, which is handed out, or until
    /// the inner producer reports its last item, which ends the sequence.
    open spec fn produce_post(&self, next: Self, r: SequenceState<R, L>) -> bool {
        &&& next.schedule() == self.schedule()
        &&& producer_reaches(self.inner(), next.inner())
        &&& next.buffer_capacity() == self.buffer_capacity()
        &&& r is Final ==> next.buffered().len() == 0
        &&& self.buffered().len() > 0 ==> {
            &&& r == SequenceState::<R, L>::More(self.buffered()[0])
            &&& next.buffer_view() == self.buffer_view().remove_front(1)
            &&& next.inner() == self.inner()
            &&& next.schedule_index() == self.schedule_index()
            &&& next.stored_last() == self.stored_last()
        }
        &&& self.buffered().len() == 0 && self.stored_last() is Some ==> {
            &&& r == SequenceState::<R, L>::Final(self.stored_last()->0)
            &&& next.stored_last() is None
            &&& next.schedule_state() == self.schedule_state()
        }
        &&& self.buffered().len() == 0 && self.stored_last() is None ==> {
            &&& next.stored_last() is None
            &&& match r {
                SequenceState::More(x) => exists|m: (I, FixedView<R>, int)|
                    {
                        &&& #[trigger] pulls_to(
                            self.schedule(),
                            1,
                            self.schedule_state(),
                            m,
                            self.schedule().len(),
                        )
                        &&& m.1.items.len() >= 1
                        &&& x == m.1.items[0]
                        &&& next.inner() == m.0
                        &&& next.buffer_view() == m.1.remove_front(1)
                        &&& next.schedule_index() == m.2
                    },
                SequenceState::Final(l) => pull_ends(
                    self.schedule(),
                    1,
                    self.schedule_state(),
                    next.schedule_state(),
                    l,
                    self.schedule().len(),
                ),
            }
        }
    }

    /// With an empty buffer, a stored last item ends the sequence; with items
    /// still buffered after the inner producer ended, nothing happens.
    /// Otherwise the schedule is worked through until the buffer is full, and
    /// then the inner producer slurps and a last item it reports is stored;
    /// or the inner producer reports its last item on the way, which is
    /// stored.
    open spec fn slurp_post(&self, next: Self, r: Option<L>) -> bool {
        &&& next.schedule() == self.schedule()
        &&& producer_reaches(self.inner(), next.inner())
        &&& next.buffer_capacity() == self.buffer_capacity()
        &&& self.buffered().len() == 0 && self.stored_last() is Some ==> {
            &&& r == self.stored_last()
            &&& next.stored_last() is None
            &&& next.schedule_state() == self.schedule_state()
        }
        &&& self.buffered().len() > 0 && self.stored_last() is Some ==> {
            &&& r is None
            &&& next.schedule_state() == self.schedule_state()
            &&& next.stored_last() == self.stored_last()
        }
        &&& self.stored_last() is None ==> {
            &&& r is None
            &&& self.buffered().is_prefix_of(next.buffered())
            &&& {
                ||| exists|m: (I, FixedView<R>, int)|
                    {
                        &&& #[trigger] pulls_to(
                            self.schedule(),
                            self.buffer_capacity(),
                            self.schedule_state(),
                            m,
                            schedule_bound(
                                (self.buffer_capacity() - self.buffered().len()) as nat,
                                self.schedule().len(),
                            ),
                        )
                        &&& m.1.items.len() == self.buffer_capacity()
                        &&& m.0.slurp_post(next.inner(), next.stored_last())
                        &&& next.buffer_view() == m.1
                        &&& next.schedule_index() == m.2
                    }
                ||| next.stored_last() matches Some(l) && pull_ends(
                    self.schedule(),
                    self.buffer_capacity(),
                    self.schedule_state(),
                    next.schedule_state(),
                    l,
                    schedule_bound(
                        (self.buffer_capacity() - self.buffered().len()) as nat,
                        self.schedule().len(),
                    ),
                )
            }
        }
        &&& r is Some ==> next.buffered().len() == 0
    }

    /// Stops the inner producer unless it has already ended, in which case
    /// the stored last item is discarded; the buffer is kept.
    open spec fn stop_post(&self, next: Self, reason: S) -> bool {
        &&& next.schedule() == self.schedule()
        &&& producer_reaches(self.inner(), next.inner())
        &&& next.buffer_capacity() == self.buffer_capacity()
        &&& next.buffer_view() == self.buffer_view()
        &&& next.schedule_index() == self.schedule_index()
        &&& next.stored_last() is None
        &&& self.stored_last() is None ==> self.inner().stop_post(next.inner(), reason)
        &&& self.stored_last() is Some ==> next.inner() == self.inner()
    }

    #[verifier::spinoff_prover]
    fn produce(&mut self) -> (r: SequenceState<R, L>) {
        proof {
            lemma_producer_reaches_refl(self.inner);
        }
        if self.buf.get_amount() == 0 && self.last.is_some() {
            return SequenceState::Final(self.last.take().unwrap());
        }
        let ghost mut path = seq![self.schedule_state()];
        let ghost s0 = self.steps();
        proof {
            lemma_produce_schedule_has_work(self.operations@);
            lemma_steps_below_len(self.idle(), self.operations_index as int);
        }
        while self.buf.get_amount() == 0
            invariant
                s0 < old(self).operations@.len(),
                self.buf@.items.len() == 0 ==> path.len() - 1 + self.steps() <= s0,
                path.len() <= s0 + 2,
                self.inv(),
                self.buf@.items.len() == 0 ==> self.last is None && self.inner.active(),
                self.last is Some || self.inner.active(),
                old(self).buf@.items.len() > 0 ==> {
                    &&& self.buf@ == old(self).buf@
                    &&& self.inner == old(self).inner
                    &&& self.last == old(self).last
                    &&& self.operations_index == old(self).operations_index
                },
                !(old(self).buf@.items.len() == 0 && old(self).last is Some),
                old(self).buf@.items.len() == 0 ==> self.last is None,
                self.produced() == old(self).produced(),
                self.buf@.capacity == old(self).buf@.capacity,
                self.operations@ == old(self).operations@,
                producer_reaches(old(self).inner, self.inner),
                pull_run(old(self).schedule(), 1, path),
                path[0] == old(self).schedule_state(),
                path.last() == self.schedule_state(),
            decreases self.buf@.capacity - self.buf@.items.len(), self.steps(),
        {
            let ghost before = self.inner;
            let ghost sb = self.steps();
            let res = self.perform_operation();
            proof {
                lemma_producer_reaches_trans(old(self).inner, before, self.inner);
            }
            match res {
                Some(l) => {
                    let r = SequenceState::Final(l);
                    assert(pull_ends(
                        old(self).schedule(),
                        1,
                        old(self).schedule_state(),
                        self.schedule_state(),
                        r->Final_0,
                        old(self).schedule().len(),
                    )) by {
                        assert(pull_run(old(self).schedule(), 1, path) && path[0] == old(self).schedule_state());
                    }
                    return r;
                },
                None => {
                    proof {
                        lemma_pull_run_push(old(self).schedule(), 1, path, self.schedule_state());
                        path = path.push(self.schedule_state());
                    }
                },
            }
        }
        let ghost m = self.schedule_state();
        assert(pull_run(old(self).schedule(), 1, path) && path[0] == old(self).schedule_state()
            && path.last() == m);
        assert(pulls_to(
            old(self).schedule(),
            1,
            old(self).schedule_state(),
            m,
            old(self).schedule().len(),
        ));
        let ghost p = self.produced();
        let ghost b = self.buf@.items;
        proof {
            lemma_runs_in_bounds(old(self).buf@);
        }
        let item = self.buf.dequeue().unwrap();
        proof {
            assert(self.inner.produced() =~= p.push(item) + self.buf@.items);
            lemma_split_off_buffer(self.inner.produced(), p.push(item), self.buf@.items);
        }
        SequenceState::More(item)
    }

    #[verifier::spinoff_prover]
    fn slurp(&mut self) -> (r: Option<L>) {
        proof {
            lemma_producer_reaches_refl(self.inner);
        }
        if self.buf.get_amount() == 0 && self.last.is_some() {
            return Some(self.last.take().unwrap());
        }
        if self.last.is_some() {
            // The inner producer has ended; there is nothing left to slurp.
            return None;
        }
        let ghost cap = self.buf@.capacity;
        let ghost mut path = seq![self.schedule_state()];
        let ghost s0 = self.steps();
        let ghost len0 = self.buf@.items.len();
        let ghost ol = self.operations@.len();
        proof {
            lemma_produce_schedule_has_work(self.operations@);
            lemma_steps_below_len(self.idle(), self.operations_index as int);
        }
        while self.buf.get_amount() < self.buf.get_capacity()
            invariant
                s0 < ol,
                ol == old(self).operations@.len(),
                len0 == old(self).buf@.items.len(),
                path.len() - 1 + self.steps() <= s0 + (self.buf@.items.len() - len0) * ol,
                producer_reaches(old(self).inner, self.inner),
                self.inv(),
                self.last is None,
                old(self).last is None,
                self.inner.active(),
                self.produced() == old(self).produced(),
                self.buf@.capacity == old(self).buf@.capacity,
                cap == old(self).buf@.capacity,
                self.operations@ == old(self).operations@,
                old(self).buf@.items.is_prefix_of(self.buf@.items),
                pull_run(old(self).schedule(), cap, path),
                path[0] == old(self).schedule_state(),
                path.last() == self.schedule_state(),
            decreases self.buf@.capacity - self.buf@.items.len(), self.steps(),
        {
            let ghost before = self.inner;
            let ghost b = self.buf@.items;
            let ghost sb = self.steps();
            let res = self.perform_operation();
            proof {
                lemma_producer_reaches_trans(old(self).inner, before, self.inner);
            }
            match res {
                Some(l) => {
                    let ghost n0: int = b.len() as int;
                    assert(path.len() <= schedule_bound((cap - len0) as nat, ol)) by {
                        assert(path.len() - 1 + sb <= s0 + (n0 - len0) * ol);
                        assert(s0 + 1 + (n0 - len0) * ol <= (cap - len0 + 1) * ol) by (nonlinear_arith)
                            requires
                                s0 < ol,
                                len0 <= n0 < cap,
                        ;
                    }
                    assert(pull_ends(
                        old(self).schedule(),
                        cap,
                        old(self).schedule_state(),
                        self.schedule_state(),
                        l,
                        schedule_bound((cap - len0) as nat, ol),
                    )) by {
                        assert(pull_run(old(self).schedule(), cap, path) && path[0] == old(self).schedule_state());
                    }
                    self.last = Some(l);
                    return None;
                },
                None => {
                    proof {
                        lemma_produce_schedule_has_work(self.operations@);
                        lemma_steps_below_len(self.idle(), self.operations_index as int);
                        let n0: int = b.len() as int;
                        let n1: int = self.buf@.items.len() as int;
                        if n1 > n0 {
                            assert((n1 - len0) * ol >= (n0 - len0) * ol + ol) by (nonlinear_arith)
                                requires
                                    n1 >= n0 + 1,
                                    ol >= 0,
                            ;
                        }
                        lemma_pull_run_push(old(self).schedule(), cap, path, self.schedule_state());
                        path = path.push(self.schedule_state());
                    }
                },
            }
            assert(b.is_prefix_of(self.buf@.items));
        }
        let ghost m = self.schedule_state();
        assert(path.len() <= schedule_bound((cap - len0) as nat, ol) + 1) by {
            assert(s0 + (cap - len0) * ol <= (cap - len0 + 1) * ol) by (nonlinear_arith)
                requires
                    s0 < ol,
                    len0 <= cap,
            ;
        }
        assert(pulls_to(
            old(self).schedule(),
            cap,
            old(self).schedule_state(),
            m,
            schedule_bound((cap - len0) as nat, ol),
        )) by {
            assert(pull_run(old(self).schedule(), cap, path) && path[0] == old(self).schedule_state());
        }
        let res = self.inner.slurp();
        proof {
            lemma_producer_step_reaches(m.0, self.inner);
            lemma_producer_reaches_trans(old(self).inner, m.0, self.inner);
        }
        match res {
            Some(l) => {
                // The items still buffered are handed out before the last
                // item.
                self.last = Some(l);
                assert(m.0.slurp_post(self.inner(), self.stored_last()));
                assert(pulls_to(
                    old(self).schedule(),
                    old(self).buffer_capacity(),
                    old(self).schedule_state(),
                    m,
                    schedule_bound(
                        (old(self).buffer_capacity() - old(self).buffered().len()) as nat,
                        old(self).schedule().len(),
                    ),
                ));
                assert(old(self).buffered().is_prefix_of(self.buffered()));
                assert(self.inv());
                assert(exists|m2: (I, FixedView<R>, int)|
                    {
                        &&& #[trigger] pulls_to(
                            old(self).schedule(),
                            old(self).buffer_capacity(),
                            old(self).schedule_state(),
                            m2,
                            schedule_bound(
                                (old(self).buffer_capacity() - old(self).buffered().len()) as nat,
                                old(self).schedule().len(),
                            ),
                        )
                        &&& m2.1.items.len() == old(self).buffer_capacity()
                        &&& m2.0.slurp_post(self.inner(), self.stored_last())
                        &&& self.buffer_view() == m2.1
                        &&& self.schedule_index() == m2.2
                    });
                assert(old(self).slurp_post(*self, None));
                None
            },
            None => {
                assert(m.0.slurp_post(self.inner(), self.stored_last()));
                None
            },
        }
    }

    fn stop(&mut self, reason: S) {
        if self.last.is_none() {
            self.inner.stop(reason);
            proof {
                lemma_producer_step_reaches(old(self).inner, self.inner);
            }
        } else {
            proof {
                lemma_producer_reaches_refl(self.inner);
            }
            // The inner producer has ended already; nothing will be asked of
            // this producer any more.
            self.last = None;
        }
    }
}

impl<I: BulkProducer<Repeated = R, Last = L, Stopped = S>, R: Copy, L, S> BulkProducer for Scramble<
    I,
    R,
    L,
    S,
> {
    /// The buffered run is handed out first, and with an empty buffer a
    /// stored last item ends the sequence. Otherwise the schedule is worked
    /// through until the buffer holds an item, and the buffered run is handed
    /// out, or until the inner producer reports its last item, which ends the
    /// sequence.
    open spec fn producer_slots_post(&self, next: Self, r: SequenceState<Seq<R>, L>) -> bool {
        &&& next.schedule() == self.schedule()
        &&& producer_reaches(self.inner(), next.inner())
        &&& next.buffer_capacity() == self.buffer_capacity()
        &&& r is Final ==> next.buffered().len() == 0
        &&& r matches SequenceState::More(s) ==> {
            &&& s == next.buffered().take(s.len() as int)
            &&& s.len() == next.buffer_view().readable_run()
        }
        &&& self.buffered().len() > 0 ==> {
            &&& r is More
            &&& next.schedule_state() == self.schedule_state()
            &&& next.stored_last() == self.stored_last()
        }
        &&& self.buffered().len() == 0 && self.stored_last() is Some ==> {
            &&& r == SequenceState::<Seq<R>, L>::Final(self.stored_last()->0)
            &&& next.stored_last() is None
            &&& next.schedule_state() == self.schedule_state()
        }
        &&& self.buffered().len() == 0 && self.stored_last() is None ==> {
            &&& next.stored_last() is None
            &&& match r {
                SequenceState::More(_) => {
                    &&& next.buffered().len() >= 1
                    &&& pulls_to(
                        self.schedule(),
                        1,
                        self.schedule_state(),
                        next.schedule_state(),
                        self.schedule().len(),
                    )
                },
                SequenceState::Final(l) => pull_ends(
                    self.schedule(),
                    1,
                    self.schedule_state(),
                    next.schedule_state(),
                    l,
                    self.schedule().len(),
                ),
            }
        }
    }

    /// Removes `amount` items from the buffer.
    open spec fn did_produce_post(&self, next: Self, amount: nat) -> bool {
        &&& next.schedule() == self.schedule()
        &&& producer_reaches(self.inner(), next.inner())
        &&& next.buffer_capacity() == self.buffer_capacity()
        &&& next.buffer_view() == self.buffer_view().remove_front(amount)
        &&& next.inner() == self.inner()
        &&& next.schedule_index() == self.schedule_index()
        &&& next.stored_last() == self.stored_last()
    }

    #[verifier::spinoff_prover]
    fn producer_slots(&mut self) -> (r: SequenceState<&[R], L>) {
        proof {
            lemma_producer_reaches_refl(self.inner);
        }
        if self.buf.get_amount() == 0 && self.last.is_some() {
            return SequenceState::Final(self.last.take().unwrap());
        }
        let ghost mut path = seq![self.schedule_state()];
        let ghost s0 = self.steps();
        proof {
            lemma_produce_schedule_has_work(self.operations@);
            lemma_steps_below_len(self.idle(), self.operations_index as int);
        }
        while self.buf.get_amount() == 0
            invariant
                s0 < old(self).operations@.len(),
                self.buf@.items.len() == 0 ==> path.len() - 1 + self.steps() <= s0,
                path.len() <= s0 + 2,
                self.inv(),
                self.buf@.items.len() == 0 ==> self.last is None && self.inner.active(),
                self.last is Some || self.inner.active(),
                old(self).buf@.items.len() > 0 ==> {
                    &&& self.buf@ == old(self).buf@
                    &&& self.inner == old(self).inner
                    &&& self.last == old(self).last
                    &&& self.operations_index == old(self).operations_index
                },
                !(old(self).buf@.items.len() == 0 && old(self).last is Some),
                old(self).buf@.items.len() == 0 ==> self.last is None,
                self.produced() == old(self).produced(),
                self.buf@.capacity == old(self).buf@.capacity,
                self.operations@ == old(self).operations@,
                producer_reaches(old(self).inner, self.inner),
                pull_run(old(self).schedule(), 1, path),
                path[0] == old(self).schedule_state(),
                path.last() == self.schedule_state(),
            decreases self.buf@.capacity - self.buf@.items.len(), self.steps(),
        {
            let ghost before = self.inner;
            let ghost sb = self.steps();
            let res = self.perform_operation();
            proof {
                lemma_producer_reaches_trans(old(self).inner, before, self.inner);
            }
            match res {
                Some(l) => {
                    let r = SequenceState::Final(l);
                    assert(pull_ends(
                        old(self).schedule(),
                        1,
                        old(self).schedule_state(),
                        self.schedule_state(),
                        slots_view(r)->Final_0,
                        old(self).schedule().len(),
                    )) by {
                        assert(pull_run(old(self).schedule(), 1, path) && path[0] == old(self).schedule_state());
                    }
                    return r;
                },
                None => {
                    proof {
                        lemma_pull_run_push(old(self).schedule(), 1, path, self.schedule_state());
                        path = path.push(self.schedule_state());
                    }
                },
            }
        }
        assert(pull_run(old(self).schedule(), 1, path) && path[0] == old(self).schedule_state()
            && path.last() == self.schedule_state());
        assert(pulls_to(
            old(self).schedule(),
            1,
            old(self).schedule_state(),
            self.schedule_state(),
            old(self).schedule().len(),
        ));
        SequenceState::More(self.buf.dequeue_slots().unwrap())
    }

    fn did_produce(&mut self, amount: usize) {
        proof {
            lemma_producer_reaches_refl(self.inner);
        }
        let ghost p = self.produced();
        let ghost b = self.buf@.items;
        let ghost run = self.buf@.readable_run();
        proof {
            lemma_runs_in_bounds(self.buf@);
            lemma_readable_run_advances(self.buf@, amount as nat);
        }
        self.buf.did_dequeue(amount);
        proof {
            let taken = b.take(run as int).take(amount as int);
            assert(taken =~= b.take(amount as int));
            assert(self.inner.produced() =~= (p + b.take(amount as int)) + self.buf@.items);
            lemma_split_off_buffer(self.inner.produced(), p + b.take(amount as int), self.buf@.items);
        }
    }
}

/// A `ProducerSlots(n)` operation moves between one and `n` items from the
/// wrapped producer into the buffer, after the items already buffered: of the
/// items `sl` the wrapped producer exposed, as many as `sl`, `n` or the
/// buffer's free run allows, whichever is least, in order; and the wrapped
/// producer is told that exactly that many were taken.
pub proof fn lemma_producer_slots_step_chunk<I, R, L, S>(
    ops: Seq<ProduceOperation>,
    s: (I, FixedView<R>, int),
    t: (I, FixedView<R>, int),
    n: usize,
) where I: BulkProducer<Repeated = R, Last = L, Stopped = S>, R: Copy
    requires
        s.1.wf(),
        pull_step(ops, s, t),
        ops[s.2] == ProduceOperation::ProducerSlots(n),
    ensures
        1 <= t.1.items.len() - s.1.items.len() <= n,
        t.1.items.len() - s.1.items.len() <= s.1.free_run(),
        t.1.items.take(s.1.items.len() as int) == s.1.items,
        exists|mid: I, sl: Seq<R>|
            {
                &&& #[trigger] s.0.producer_slots_post(mid, SequenceState::More(sl))
                &&& t.1.items.len() - s.1.items.len() <= sl.len()
                &&& {
                    ||| t.1.items.len() - s.1.items.len() == sl.len()
                    ||| t.1.items.len() - s.1.items.len() == n
                    ||| t.1.items.len() - s.1.items.len() == s.1.free_run()
                }
                &&& t.1.items == s.1.items + sl.take(t.1.items.len() - s.1.items.len())
                &&& mid.did_produce_post(t.0, (t.1.items.len() - s.1.items.len()) as nat)
            },
{
    let (mid, sl) = choose|mid: I, sl: Seq<R>|
        {
            &&& #[trigger] s.0.producer_slots_post(mid, SequenceState::More(sl))
            &&& 1 <= pull_chunk(sl, n, s.1)
            &&& mid.did_produce_post(t.0, pull_chunk(sl, n, s.1))
            &&& t.1 == s.1.append(sl.take(pull_chunk(sl, n, s.1) as int))
        };
    let j = pull_chunk(sl, n, s.1);
    assert(t.1.items.len() == s.1.items.len() + j);
    assert(t.1.items.take(s.1.items.len() as int) =~= s.1.items);
    assert(s.0.producer_slots_post(mid, SequenceState::More(sl)));
}

/// With items buffered, `produce` hands out the oldest one without asking
/// the wrapped producer for anything: the buffer loses its front item, and
/// the wrapped producer, the schedule position and a stored last item stay
/// as they were.
pub proof fn lemma_produce_from_buffer<I, R, L, S>(
    p: Scramble<I, R, L, S>,
    next: Scramble<I, R, L, S>,
    r: SequenceState<R, L>,
) where I: BulkProducer<Repeated = R, Last = L, Stopped = S>, R: Copy
    requires
        p.inv(),
        p.produce_post(next, r),
        p.buffered().len() > 0,
    ensures
        r == SequenceState::<R, L>::More(p.buffered()[0]),
        next.buffered() == p.buffered().drop_first(),
        next.inner() == p.inner(),
        next.schedule_index() == p.schedule_index(),
        next.stored_last() == p.stored_last(),
{
}

/// `producer_slots` hands out the front of the buffer: the items it returns
/// are the oldest buffered ones, as many as lie contiguously at the front of
/// the buffer, and with items buffered nothing else changes.
pub proof fn lemma_producer_slots_from_buffer<I, R, L, S>(
    p: Scramble<I, R, L, S>,
    next: Scramble<I, R, L, S>,
    r: SequenceState<Seq<R>, L>,
) where I: BulkProducer<Repeated = R, Last = L, Stopped = S>, R: Copy
    requires
        p.inv(),
        p.producer_slots_post(next, r),
    ensures
        r matches SequenceState::More(sl) ==> {
            &&& sl == next.buffered().take(sl.len() as int)
            &&& sl.len() == next.buffer_view().readable_run()
        },
        p.buffered().len() > 0 ==> {
            &&& r is More
            &&& next.buffered() == p.buffered()
            &&& next.inner() == p.inner()
        },
{
}

/// A `Produce` operation adds exactly the item the wrapped producer's
/// `produce` gave after the buffered items; a `Slurp` operation lets the
/// wrapped producer slurp and adds nothing. Either way the schedule moves on
/// to the next operation, cyclically.
pub proof fn lemma_produce_and_slurp_steps<I, R, L, S>(
    ops: Seq<ProduceOperation>,
    s: (I, FixedView<R>, int),
    t: (I, FixedView<R>, int),
)
    where I: BulkProducer<Repeated = R, Last = L, Stopped = S>, R: Copy
    requires
        pull_step(ops, s, t),
    ensures
        t.2 == (if s.2 + 1 == ops.len() { 0 } else { s.2 + 1 }),
        ops[s.2] is Produce ==> exists|x: R|
            {
                &&& #[trigger] s.0.produce_post(t.0, SequenceState::More(x))
                &&& t.1.items == s.1.items.push(x)
            },
        ops[s.2] is Slurp ==> {
            &&& s.0.slurp_post(t.0, None)
            &&& t.1.items == s.1.items
        },
{
    if ops[s.2] is Produce {
        let x = choose|x: R|
            {
                &&& #[trigger] s.0.produce_post(t.0, SequenceState::More(x))
                &&& t.1 == s.1.append(seq![x])
            };
        assert(s.0.produce_post(t.0, SequenceState::More(x)));
    }
}

/// `slurp` on a scrambler with no stored last item never ends the sequence:
/// it keeps the buffered items as the front of the buffer, and afterwards the
/// buffer is full or the wrapped producer has ended and its last item is
/// stored. A stored last item is handed out only once the buffer is empty.
pub proof fn lemma_slurp_fills_or_stores_last<I, R, L, S>(
    p: Scramble<I, R, L, S>,
    next: Scramble<I, R, L, S>,
    r: Option<L>,
)
    where I: BulkProducer<Repeated = R, Last = L, Stopped = S>, R: Copy
    requires
        p.inv(),
        p.slurp_post(next, r),
    ensures
        p.stored_last() is None ==> {
            &&& r is None
            &&& p.buffered().is_prefix_of(next.buffered())
            &&& next.buffered().len() == next.buffer_capacity() || next.stored_last() is Some
        },
        r is Some ==> p.buffered().len() == 0 && r == p.stored_last() && next.buffered().len() == 0,
{
}

} // verus!
