//! A ring-buffer queue whose capacity is set on creation.
use vstd::prelude::*;

use crate::queues::Queue;

verus! {

/// Where the item `offset` places after the one at `start` lives in a ring of
/// `capacity` slots (for `start < capacity` and `offset <= capacity`).
pub open spec fn ring_index(start: nat, offset: nat, capacity: nat) -> nat {
    if start + offset < capacity {
        start + offset
    } else {
        (start + offset - capacity) as nat
    }
}

/// The abstract state of a [`Fixed`] queue: its items (oldest first), its
/// capacity, and the ring position of the oldest item.
///
/// The position matters to callers because the contiguous runs that the
/// bulk operations hand out depend on it.
#[verifier::ext_equal]
pub struct FixedView<T> {
    pub items: Seq<T>,
    pub capacity: nat,
    pub head: nat,
}

impl<T> FixedView<T> {
    /// A consistent state: a positive capacity, a head inside the ring, and
    /// no more items than the capacity.
    pub open spec fn wf(self) -> bool {
        &&& self.capacity > 0
        &&& self.head < self.capacity
        &&& self.items.len() <= self.capacity
    }

    /// The items are stored without wrapping around the end of the ring,
    /// with free space after them.
    pub open spec fn is_contiguous(self) -> bool {
        self.head + self.items.len() < self.capacity
    }

    /// Ring position one past the newest item.
    pub open spec fn write_to(self) -> nat {
        ring_index(self.head, self.items.len(), self.capacity)
    }

    /// Length of the first contiguous run of free slots, starting at
    /// `write_to`: up to the end of the ring, or up to the head once the
    /// items wrap around.
    pub open spec fn free_run(self) -> nat {
        if self.is_contiguous() {
            (self.capacity - self.head - self.items.len()) as nat
        } else {
            (self.capacity - self.items.len()) as nat
        }
    }

    /// Length of the contiguous run of items starting at the head.
    pub open spec fn readable_run(self) -> nat {
        if self.is_contiguous() {
            self.items.len()
        } else {
            (self.capacity - self.head) as nat
        }
    }

    /// The state after appending `s`.
    pub open spec fn append(self, s: Seq<T>) -> Self {
        FixedView { items: self.items + s, ..self }
    }

    /// The state after removing the `n` oldest items.
    pub open spec fn remove_front(self, n: nat) -> Self {
        FixedView {
            items: self.items.skip(n as int),
            head: ring_index(self.head, n, self.capacity),
            ..self
        }
    }
}

/// A queue holding up to a certain number of items. The capacity is set upon
/// creation and remains fixed; the storage is allocated once, on creation.
#[derive(Debug)]
pub struct Fixed<T> {
    // storage; slots at or beyond `data.len()` have never been written
    data: Vec<T>,
    // number of slots of the ring
    cap: usize,
    // reading resumes from this position
    read: usize,
    // amount of valid data
    amount: usize,
}

impl<T> View for Fixed<T> {
    type V = FixedView<T>;

    closed spec fn view(&self) -> FixedView<T> {
        FixedView {
            items: Seq::new(
                self.amount as nat,
                |i: int| self.data@[ring_index(self.read as nat, i as nat, self.cap as nat) as int],
            ),
            capacity: self.cap as nat,
            head: self.read as nat,
        }
    }
}

impl<T> Fixed<T> {
    /// The internal consistency of a queue.
    ///
    /// Storage only grows up to the capacity; while it has not reached the
    /// capacity, the ring has never wrapped and the items end exactly where
    /// the written storage ends.
    pub closed spec fn wf(&self) -> bool {
        &&& self.cap > 0
        &&& self.read < self.cap
        &&& self.amount <= self.cap
        &&& self.data@.len() <= self.cap
        &&& self.data@.len() < self.cap ==> self.read + self.amount == self.data@.len()
    }

    proof fn lemma_view_wf(&self)
        requires
            self.wf(),
        ensures
            self@.wf(),
            forall|i: int|
                0 <= i < self.amount ==> #[trigger] ring_index(
                    self.read as nat,
                    i as nat,
                    self.cap as nat,
                ) < self.data@.len(),
    {
    }

    /// Creates an empty queue that can hold `capacity` items.
    pub fn new(capacity: usize) -> (q: Self)
        requires
            capacity > 0,
        ensures
            q.wf(),
            q@.wf(),
            q@ == (FixedView::<T> { items: Seq::empty(), capacity: capacity as nat, head: 0 }),
    {
        let q = Fixed { data: Vec::with_capacity(capacity), cap: capacity, read: 0, amount: 0 };
        assert(q@.items =~= Seq::<T>::empty());
        q
    }

    /// The capacity the queue was created with.
    pub fn get_capacity(&self) -> (c: usize)
        requires
            self.wf(),
        ensures
            c == self@.capacity,
            c > 0,
    {
        self.cap
    }
}

impl<T: Copy> Fixed<T> {
    fn is_data_contiguous(&self) -> (b: bool)
        requires
            self.wf(),
        ensures
            b == self@.is_contiguous(),
    {
        self.amount < self.cap - self.read
    }

    fn capacity(&self) -> (c: usize)
        requires
            self.wf(),
        ensures
            c == self@.capacity,
    {
        self.cap
    }

    fn write_to(&self) -> (w: usize)
        requires
            self.wf(),
        ensures
            w == self@.write_to(),
            self.amount < self.cap ==> w < self.cap,
    {
        if self.amount < self.cap - self.read {
            self.read + self.amount
        } else {
            self.amount - (self.cap - self.read)
        }
    }

    /// Length of the contiguous run of free slots that a bulk write fills.
    fn available_fst(&self) -> (n: usize)
        requires
            self.wf(),
        ensures
            n == self@.free_run(),
    {
        let cap: usize = self.capacity();
        if self.is_data_contiguous() {
            cap - self.read - self.amount
        } else {
            cap - self.amount
        }
    }

    /// The contiguous run of items at the front of the queue.
    fn readable_fst(&self) -> (s: &[T])
        requires
            self.wf(),
        ensures
            s@.len() == self@.readable_run(),
            s@ == self@.items.take(s@.len() as int),
    {
        proof {
            self.lemma_view_wf();
        }
        let end: usize = if self.is_data_contiguous() {
            self.read + self.amount
        } else {
            self.cap
        };
        let s = vstd::slice::slice_subrange(self.data.as_slice(), self.read, end);
        assert(s@ =~= self@.items.take(s@.len() as int));
        s
    }
}

impl<T: Copy> Queue<T> for Fixed<T> {
    open spec fn queue_inv(&self) -> bool {
        self.wf() && self@.wf()
    }

    open spec fn queue_items(&self) -> Seq<T> {
        self@.items
    }

    open spec fn queue_capacity(&self) -> nat {
        self@.capacity
    }

    open spec fn free_run(&self) -> nat {
        self@.free_run()
    }

    open spec fn readable_run(&self) -> nat {
        self@.readable_run()
    }

    fn get_amount(&self) -> (n: usize) {
        self.amount
    }

    fn enqueue(&mut self, item: T) -> (r: Option<T>)
        ensures
            (final(self)@, r) == fixed_step(old(self)@, QueueOp::Enqueue(item)),
            old(self)@.items.len() < old(self)@.capacity ==> final(self)@ == old(self)@.append(
                seq![item],
            ),
            old(self)@.items.len() >= old(self)@.capacity ==> final(self)@ == old(self)@,
    {
        if self.amount == self.cap {
            Some(item)
        } else {
            proof {
                self.lemma_view_wf();
            }
            let w: usize = self.write_to();
            if w == self.data.len() {
                self.data.push(item);
            } else {
                self.data.set(w, item);
            }
            self.amount = self.amount + 1;
            assert(self@.items =~= old(self)@.items.push(item));
            assert(self@ =~= old(self)@.append(seq![item]));
            None
        }
    }

    fn enqueue_slots(&self) -> (r: Option<usize>) {
        if self.amount >= self.cap {
            None
        } else {
            Some(self.available_fst())
        }
    }

    fn did_enqueue(&mut self, items: &[T])
        ensures
            final(self)@ == old(self)@.append(items@),
    {
        proof {
            self.lemma_view_wf();
        }
        let w: usize = self.write_to();
        let k: usize = items.len();
        let ghost old_data = self.data@;
        let mut i: usize = 0;
        while i < k
            invariant
                self.cap == old(self).cap,
                self.read == old(self).read,
                self.amount == old(self).amount,
                old(self).wf(),
                old_data == old(self).data@,
                k == items@.len(),
                w == old(self)@.write_to(),
                w + k <= self.cap,
                1 <= k <= old(self)@.free_run(),
                0 <= i <= k,
                old_data.len() < self.cap ==> w == old_data.len() && self.data@.len() == w + i,
                old_data.len() == self.cap ==> self.data@.len() == self.cap,
                forall|j: int| 0 <= j < i ==> self.data@[w + j] == items@[j],
                forall|j: int|
                    0 <= j < old_data.len() && !(w <= j < w + i) ==> self.data@[j] == old_data[j],
            decreases k - i,
        {
            if w + i == self.data.len() {
                self.data.push(items[i]);
            } else {
                self.data.set(w + i, items[i]);
            }
            i = i + 1;
        }
        self.amount = self.amount + k;
        assert(self@.items =~= old(self)@.items + items@);
        assert(self@ =~= old(self)@.append(items@));
    }

    fn dequeue(&mut self) -> (r: Option<T>)
        ensures
            (final(self)@, r) == fixed_step(old(self)@, QueueOp::Dequeue),
            old(self)@.items.len() > 0 ==> final(self)@ == old(self)@.remove_front(1),
            old(self)@.items.len() == 0 ==> final(self)@ == old(self)@,
    {
        if self.amount == 0 {
            None
        } else {
            proof {
                self.lemma_view_wf();
            }
            let old_r: usize = self.read;
            let item = self.data[old_r];
            assert(item == self@.items[0]);
            self.read = if self.read + 1 == self.cap { 0 } else { self.read + 1 };
            self.amount = self.amount - 1;
            assert(self@.items =~= old(self)@.items.drop_first());
            assert(self@ =~= old(self)@.remove_front(1));
            Some(item)
        }
    }

    fn dequeue_slots(&self) -> (r: Option<&[T]>)
        ensures
            r matches Some(s) ==> s@ == self@.items.take(self@.readable_run() as int),
    {
        if self.amount == 0 {
            None
        } else {
            Some(self.readable_fst())
        }
    }

    fn did_dequeue(&mut self, amount: usize)
        ensures
            final(self)@ == old(self)@.remove_front(amount as nat),
    {
        proof {
            self.lemma_view_wf();
        }
        self.read = if amount >= self.cap - self.read {
            amount - (self.cap - self.read)
        } else {
            self.read + amount
        };
        self.amount = self.amount - amount;
        assert(self@.items =~= old(self)@.items.skip(amount as int));
        assert(self@ =~= old(self)@.remove_front(amount as nat));
    }
}


/// Every state of a queue keeps its runs in bounds: the free run that a bulk
/// write fills is nonempty exactly when the queue is not full and never
/// exceeds the free space; the readable run is nonempty exactly when the queue
/// is not empty and never exceeds the items held.
pub proof fn lemma_runs_in_bounds<T>(v: FixedView<T>)
    requires
        v.wf(),
    ensures
        v.free_run() <= v.capacity - v.items.len(),
        v.free_run() >= 1 <==> v.items.len() < v.capacity,
        v.readable_run() <= v.items.len(),
        v.readable_run() >= 1 <==> v.items.len() > 0,
{
}

/// Appending within the capacity and removing at most the items held keep a
/// state consistent, and neither changes the capacity.
pub proof fn lemma_ops_keep_wf<T>(v: FixedView<T>, s: Seq<T>, n: nat)
    requires
        v.wf(),
    ensures
        v.items.len() + s.len() <= v.capacity ==> v.append(s).wf() && v.append(s).capacity
            == v.capacity,
        n <= v.items.len() ==> v.remove_front(n).wf() && v.remove_front(n).capacity
            == v.capacity,
{
}

/// First in, first out: whatever is appended comes out after every item that
/// was already in the queue, in the order it went in.
pub proof fn lemma_fifo<T>(v: FixedView<T>, s: Seq<T>)
    requires
        v.wf(),
        v.items.len() + s.len() <= v.capacity,
    ensures
        v.append(s).remove_front(v.items.len()).items == s,
        v.append(s).items.take(v.items.len() as int) == v.items,
{
    assert(v.append(s).remove_front(v.items.len()).items =~= s);
    assert(v.append(s).items.take(v.items.len() as int) =~= v.items);
}

/// Removing `a` items and then `b` items is the same as removing `a + b`
/// items at once, so a bulk dequeue of `n` items acts as `n` single dequeues.
pub proof fn lemma_remove_front_compose<T>(v: FixedView<T>, a: nat, b: nat)
    requires
        v.wf(),
        a + b <= v.items.len(),
    ensures
        v.remove_front(a).remove_front(b) == v.remove_front(a + b),
{
    assert(v.remove_front(a).remove_front(b) =~= v.remove_front(a + b));
}

/// Appending `s` and then `t` is the same as appending `s + t` at once, so a
/// bulk enqueue of `n` items acts as `n` single enqueues.
pub proof fn lemma_append_compose<T>(v: FixedView<T>, s: Seq<T>, t: Seq<T>)
    ensures
        v.append(s).append(t) == v.append(s + t),
{
    assert(v.append(s).append(t) =~= v.append(s + t));
}


/// Taking items from the front of the readable run leaves the rest of that run
/// at the front of the next readable run: bulk reads see the items in order.
pub proof fn lemma_readable_run_advances<T>(v: FixedView<T>, k: nat)
    requires
        v.wf(),
        k <= v.readable_run(),
        v.readable_run() <= v.items.len(),
    ensures
        v.items.take(v.readable_run() as int).skip(k as int).is_prefix_of(
            v.remove_front(k).items.take(v.remove_front(k).readable_run() as int),
        ),
{
    let w = v.remove_front(k);
    let a = v.items.take(v.readable_run() as int).skip(k as int);
    let b = w.items.take(w.readable_run() as int);
    assert(a.len() <= b.len());
    assert(forall|i: int| 0 <= i < a.len() ==> a[i] == b[i]);
}


/// Writing `s` into the free run uses up at most `s.len()` of the free slots
/// that the next bulk write is offered.
pub proof fn lemma_free_run_after_append<T>(v: FixedView<T>, s: Seq<T>)
    requires
        v.wf(),
        s.len() <= v.free_run(),
    ensures
        v.append(s).free_run() + s.len() >= v.free_run(),
{
}

/// A single-item call on a queue: `enqueue` of an item, or `dequeue`.
pub enum QueueOp<T> {
    /// `enqueue` of this item.
    Enqueue(T),
    /// `dequeue`.
    Dequeue,
}

/// A bounded first-in-first-out queue that holds `items` and has room for
/// `capacity` items, on `op`: its items afterwards and what the call returns.
/// An item enqueued into a full queue is handed back; dequeueing from an
/// empty queue returns nothing.
pub open spec fn bounded_fifo_step<T>(items: Seq<T>, capacity: nat, op: QueueOp<T>) -> (Seq<T>, Option<T>) {
    match op {
        QueueOp::Enqueue(t) => if items.len() < capacity {
            (items.push(t), None)
        } else {
            (items, Some(t))
        },
        QueueOp::Dequeue => if items.len() > 0 {
            (items.drop_first(), Some(items[0]))
        } else {
            (items, None)
        },
    }
}

/// A bounded first-in-first-out queue on the calls `ops`, one after the
/// other: its items afterwards and what each call returns.
pub open spec fn bounded_fifo_run<T>(items: Seq<T>, capacity: nat, ops: Seq<QueueOp<T>>) -> (
    Seq<T>,
    Seq<Option<T>>,
)
    decreases ops.len(),
{
    if ops.len() == 0 {
        (items, Seq::empty())
    } else {
        let (next, r) = bounded_fifo_step(items, capacity, ops[0]);
        let (last, rs) = bounded_fifo_run(next, capacity, ops.drop_first());
        (last, seq![r] + rs)
    }
}

/// What a [`Fixed`] queue in the state `v` does on `op`, as its `enqueue` and
/// `dequeue` state it: its state afterwards and what the call returns.
pub open spec fn fixed_step<T>(v: FixedView<T>, op: QueueOp<T>) -> (FixedView<T>, Option<T>) {
    match op {
        QueueOp::Enqueue(t) => if v.items.len() < v.capacity {
            (v.append(seq![t]), None)
        } else {
            (v, Some(t))
        },
        QueueOp::Dequeue => if v.items.len() > 0 {
            (v.remove_front(1), Some(v.items[0]))
        } else {
            (v, None)
        },
    }
}

/// What a [`Fixed`] queue in the state `v` does on the calls `ops`, one after
/// the other: its state afterwards and what each call returns.
pub open spec fn fixed_run<T>(v: FixedView<T>, ops: Seq<QueueOp<T>>) -> (
    FixedView<T>,
    Seq<Option<T>>,
)
    decreases ops.len(),
{
    if ops.len() == 0 {
        (v, Seq::empty())
    } else {
        let (next, r) = fixed_step(v, ops[0]);
        let (last, rs) = fixed_run(next, ops.drop_first());
        (last, seq![r] + rs)
    }
}

/// A [`Fixed`] queue is a bounded first-in-first-out queue: on any sequence of
/// `enqueue` and `dequeue` calls it holds the items of a bounded FIFO queue
/// with the same capacity, in the same order, and every call returns what the
/// bounded FIFO queue's call returns; its capacity never changes, and it never
/// holds more items than its capacity.
pub proof fn lemma_fixed_refines_bounded_fifo<T>(v: FixedView<T>, ops: Seq<QueueOp<T>>)
    requires
        v.wf(),
    ensures
        fixed_run(v, ops).0.items == bounded_fifo_run(v.items, v.capacity, ops).0,
        fixed_run(v, ops).1 == bounded_fifo_run(v.items, v.capacity, ops).1,
        fixed_run(v, ops).0.capacity == v.capacity,
        fixed_run(v, ops).0.wf(),
    decreases ops.len(),
{
    if ops.len() > 0 {
        let (next, r) = fixed_step(v, ops[0]);
        match ops[0] {
            QueueOp::Enqueue(t) => {
                lemma_ops_keep_wf(v, seq![t], 0);
            },
            QueueOp::Dequeue => {},
        }
        assert(next.items == bounded_fifo_step(v.items, v.capacity, ops[0]).0);
        lemma_fixed_refines_bounded_fifo(next, ops.drop_first());
    }
}

/// The free run that a bulk write fills is the whole contiguous run of free
/// slots after the newest item: it is nonempty unless the queue is full, it
/// never reaches into the items, it never crosses the end of the ring, and it
/// stops only where the free space ends or where the ring ends.
pub proof fn lemma_free_run_is_maximal<T>(v: FixedView<T>)
    requires
        v.wf(),
    ensures
        v.items.len() < v.capacity ==> v.free_run() >= 1,
        v.free_run() <= v.capacity - v.items.len(),
        v.head + v.items.len() < v.capacity ==> v.head + v.items.len() + v.free_run() <= v.capacity,
        v.free_run() == v.capacity - v.items.len() || v.head + v.items.len() + v.free_run()
            == v.capacity,
{
}

/// The readable run that a bulk read takes is the whole contiguous run of
/// items at the head: it is nonempty unless the queue is empty, it holds no
/// more than the items, it never crosses the end of the ring, and it stops
/// only where the items end or where the ring ends.
pub proof fn lemma_readable_run_is_maximal<T>(v: FixedView<T>)
    requires
        v.wf(),
    ensures
        v.items.len() > 0 ==> v.readable_run() >= 1,
        v.readable_run() <= v.items.len(),
        v.head + v.readable_run() <= v.capacity,
        v.readable_run() == v.items.len() || v.head + v.readable_run() == v.capacity,
{
}

} // verus!
