//! A FIFO queue abstraction with single-item and bulk access.
use vstd::prelude::*;

pub mod fixed;

verus! {

/// The smaller of two counts.
pub open spec fn min_nat(a: nat, b: nat) -> nat {
    if a <= b { a } else { b }
}

/// A first-in-first-out queue of `Copy` items with a bounded capacity.
///
/// Besides the item-by-item operations, a queue exposes its storage in
/// contiguous runs: `enqueue_slots` reports how many items can be written in
/// one go, `dequeue_slots` hands out the longest readable run at the front.
pub trait Queue<T: Copy>: Sized {
    /// Whether the internal state is consistent.
    spec fn queue_inv(&self) -> bool;

    /// The items held, oldest first.
    spec fn queue_items(&self) -> Seq<T>;

    /// How many items the queue can hold at most.
    spec fn queue_capacity(&self) -> nat;

    /// Length of the contiguous free run that the next bulk write goes to.
    spec fn free_run(&self) -> nat;

    /// Length of the contiguous run of items at the front of the queue.
    spec fn readable_run(&self) -> nat;

    /// Number of items in the queue.
    fn get_amount(&self) -> (n: usize)
        requires
            self.queue_inv(),
        ensures
            n == self.queue_items().len(),
    ;

    /// Appends `t`, or hands it back if the queue is full.
    fn enqueue(&mut self, t: T) -> (r: Option<T>)
        requires
            old(self).queue_inv(),
        ensures
            final(self).queue_inv(),
            final(self).queue_capacity() == old(self).queue_capacity(),
            old(self).queue_items().len() < old(self).queue_capacity() ==> {
                &&& r is None
                &&& final(self).queue_items() == old(self).queue_items().push(t)
            },
            old(self).queue_items().len() >= old(self).queue_capacity() ==> {
                &&& r == Some(t)
                &&& final(self).queue_items() == old(self).queue_items()
            },
    ;

    /// Reports the length of the free run that `did_enqueue` writes to, or
    /// `None` if the queue is full.
    fn enqueue_slots(&self) -> (r: Option<usize>)
        requires
            self.queue_inv(),
        ensures
            r is None <==> self.queue_items().len() >= self.queue_capacity(),
            r matches Some(n) ==> {
                &&& n == self.free_run()
                &&& 1 <= n <= self.queue_capacity() - self.queue_items().len()
            },
    ;

    /// Writes `items` into the free run reported by `enqueue_slots` and
    /// appends them to the queue.
    fn did_enqueue(&mut self, items: &[T])
        requires
            old(self).queue_inv(),
            1 <= items@.len() <= old(self).free_run(),
        ensures
            final(self).queue_inv(),
            final(self).queue_capacity() == old(self).queue_capacity(),
            final(self).queue_items() == old(self).queue_items() + items@,
    ;

    /// Removes and returns the oldest item, or `None` if the queue is empty.
    fn dequeue(&mut self) -> (r: Option<T>)
        requires
            old(self).queue_inv(),
        ensures
            final(self).queue_inv(),
            final(self).queue_capacity() == old(self).queue_capacity(),
            old(self).queue_items().len() > 0 ==> {
                &&& r == Some(old(self).queue_items()[0])
                &&& final(self).queue_items() == old(self).queue_items().drop_first()
            },
            old(self).queue_items().len() == 0 ==> {
                &&& r is None
                &&& final(self).queue_items() == old(self).queue_items()
            },
    ;

    /// The contiguous run of items at the front of the queue, or `None` if
    /// the queue is empty.
    fn dequeue_slots(&self) -> (r: Option<&[T]>)
        requires
            self.queue_inv(),
        ensures
            r is None <==> self.queue_items().len() == 0,
            r matches Some(s) ==> {
                &&& s@.len() == self.readable_run()
                &&& 1 <= s@.len() <= self.queue_items().len()
                &&& s@ == self.queue_items().take(s@.len() as int)
            },
    ;

    /// Removes the `amount` oldest items.
    fn did_dequeue(&mut self, amount: usize)
        requires
            old(self).queue_inv(),
            1 <= amount <= old(self).queue_items().len(),
        ensures
            final(self).queue_inv(),
            final(self).queue_capacity() == old(self).queue_capacity(),
            final(self).queue_items() == old(self).queue_items().skip(amount as int),
    ;

    /// Appends as many items from the front of `buffer` as fit into the
    /// current free run, and returns how many were appended.
    fn bulk_enqueue(&mut self, buffer: &[T]) -> (k: usize)
        requires
            old(self).queue_inv(),
        ensures
            final(self).queue_inv(),
            final(self).queue_capacity() == old(self).queue_capacity(),
            k == (if old(self).queue_items().len() < old(self).queue_capacity() {
                min_nat(old(self).free_run(), buffer@.len())
            } else {
                0
            }),
            final(self).queue_items() == old(self).queue_items() + buffer@.take(k as int),
    {
        match self.enqueue_slots() {
            None => 0,
            Some(slots) => {
                let amount: usize = if slots < buffer.len() { slots } else { buffer.len() };
                if amount == 0 {
                    assert(buffer@.take(0) =~= Seq::<T>::empty());
                    assert(self.queue_items() + buffer@.take(0) =~= self.queue_items());
                    0
                } else {
                    let prefix = &buffer[0..amount];
                    assert(prefix@ =~= buffer@.take(amount as int));
                    self.did_enqueue(prefix);
                    amount
                }
            },
        }
    }

    /// Moves as many items from the front of the queue as fit into `buffer`
    /// (but no more than the readable run) to the front of `buffer`, and
    /// returns how many were moved.
    fn bulk_dequeue(&mut self, buffer: &mut [T]) -> (k: usize)
        requires
            old(self).queue_inv(),
        ensures
            final(self).queue_inv(),
            final(self).queue_capacity() == old(self).queue_capacity(),
            k == (if old(self).queue_items().len() > 0 {
                min_nat(old(self).readable_run(), old(buffer)@.len())
            } else {
                0
            }),
            final(self).queue_items() == old(self).queue_items().skip(k as int),
            final(buffer)@ == old(self).queue_items().take(k as int) + old(buffer)@.skip(
                k as int,
            ),
    {
        let amount: usize = match self.dequeue_slots() {
            None => 0,
            Some(slots) => {
                let amount: usize = if slots.len() < buffer.len() { slots.len() } else { buffer.len() };
                let mut i: usize = 0;
                while i < amount
                    invariant
                        amount <= slots@.len(),
                        amount <= buffer@.len(),
                        0 <= i <= amount,
                        buffer@.len() == old(buffer)@.len(),
                        forall|j: int| 0 <= j < i ==> buffer@[j] == slots@[j],
                        forall|j: int| i <= j < buffer@.len() ==> buffer@[j] == old(buffer)@[j],
                    decreases amount - i,
                {
                    buffer[i] = slots[i];
                    i = i + 1;
                }
                amount
            },
        };
        proof {
            if amount == 0 {
                assert(old(buffer)@.skip(0) =~= old(buffer)@);
            }
        }
        assert(buffer@ =~= self.queue_items().take(amount as int) + old(buffer)@.skip(
            amount as int,
        ));
        if amount > 0 {
            self.did_dequeue(amount);
        } else {
            assert(self.queue_items().skip(0) =~= self.queue_items());
        }
        amount
    }
}

} // verus!
