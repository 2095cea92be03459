//! A consumer that collects the items it consumes into a `Vec`.
use vstd::prelude::*;

use crate::pile::{BulkConsumer, Consumer, SequenceState};

verus! {

/// `Vec::capacity`: how many items the vector can hold without reallocating.
/// The standard library documents that this is never less than the length;
/// how much more it is depends on the allocator, so nothing else is claimed.
#[verifier::external_body]
fn vec_capacity<T>(v: &Vec<T>) -> (c: usize)
    ensures
        c >= v@.len(),
{
    v.capacity()
}

/// Creates a consumer that collects the consumed items into a new `Vec`.
pub fn into_vec<T>() -> (c: IntoVec<T>)
    ensures
        c.items() == Seq::<T>::empty(),
        c.offered() == 0,
        c.is_open(),
{
    IntoVec { v: Vec::new(), offered: Ghost(0), open: Ghost(true) }
}

/// Collects data and can at any point be converted into a `Vec<T>`.
pub struct IntoVec<T> {
    v: Vec<T>,
    // how many slots the last `consumer_slots` offered that are still unfilled
    offered: Ghost<nat>,
    // whether the sequence has not been closed
    open: Ghost<bool>,
}

impl<T> IntoVec<T> {
    /// The items collected so far.
    pub closed spec fn items(&self) -> Seq<T> {
        self.v@
    }

    /// How many slots offered by the last `consumer_slots` are unfilled.
    pub closed spec fn offered(&self) -> nat {
        self.offered@
    }

    /// Whether the sequence has not been closed.
    pub closed spec fn is_open(&self) -> bool {
        self.open@
    }

    /// The collected items.
    pub fn into_vec(self) -> (v: Vec<T>)
        ensures
            v@ == self.items(),
    {
        self.v
    }

    /// The collected items.
    pub fn into_inner(self) -> (v: Vec<T>)
        ensures
            v@ == self.items(),
    {
        self.v
    }

    /// The collected items.
    pub fn as_ref(&self) -> (v: &Vec<T>)
        ensures
            v@ == self.items(),
    {
        &self.v
    }

    /// The collected items, for modification.
    pub fn as_mut(&mut self) -> (v: &mut Vec<T>)
        ensures
            v@ == old(self).items(),
            final(self).items() == final(v)@,
            final(self).offered() == old(self).offered(),
            final(self).is_open() == old(self).is_open(),
    {
        &mut self.v
    }
}

impl<T> Consumer for IntoVec<T> {
    type Repeated = T;
    type Last = ();
    /// Never emitted: a vector accepts any number of items.
    type Stopped = ();

    /// A vector is always consistent.
    open spec fn inv(&self) -> bool {
        true
    }

    /// The items collected.
    open spec fn consumed(&self) -> Seq<T> {
        self.items()
    }

    open spec fn active(&self) -> bool {
        self.is_open()
    }

    /// Appends the item; a vector never stops.
    open spec fn consume_post(&self, next: Self, item: T, r: Option<()>) -> bool {
        &&& r is None
        &&& next.items() == self.items().push(item)
        &&& next.offered() == 0
        &&& next.is_open() == self.is_open()
    }

    /// Nothing is buffered, so flushing changes nothing.
    open spec fn flush_post(&self, next: Self, r: Option<()>) -> bool {
        &&& r is None
        &&& next.items() == self.items()
        &&& next.offered() == self.offered()
        &&& next.is_open() == self.is_open()
    }

    /// Closing ends the sequence and keeps the items.
    open spec fn close_post(&self, next: Self, last: (), r: Option<()>) -> bool {
        &&& r is None
        &&& next.items() == self.items()
        &&& next.offered() == self.offered()
        &&& !next.is_open()
    }

    fn consume(&mut self, item: T) -> (r: Option<()>)
        ensures
            r is None,
            final(self).items() == old(self).items().push(item),
    {
        self.v.push(item);
        self.offered = Ghost(0);
        None
    }

    fn flush(&mut self) -> (r: Option<()>)
        ensures
            r is None,
            final(self).items() == old(self).items(),
    {
        None
    }

    fn close(&mut self, _last: ()) -> (r: Option<()>)
        ensures
            r is None,
            final(self).items() == old(self).items(),
    {
        self.open = Ghost(false);
        None
    }
}

impl<T: Copy> BulkConsumer for IntoVec<T> {
    /// The slots offered and not yet filled.
    open spec fn slots(&self) -> nat {
        self.offered()
    }

    /// Offers at least one slot (the spare capacity); a vector never stops.
    open spec fn consumer_slots_post(&self, next: Self, r: SequenceState<usize, ()>) -> bool {
        &&& r matches SequenceState::More(n) && n >= 1 && next.offered() == n
        &&& next.items() == self.items()
        &&& next.is_open() == self.is_open()
    }

    /// Appends the items.
    open spec fn did_consume_post(&self, next: Self, items: Seq<T>) -> bool {
        &&& next.items() == self.items() + items
        &&& next.offered() == self.offered() - items.len()
        &&& next.is_open() == self.is_open()
    }

    /// Offers the vector's spare capacity, first growing it to more than
    /// twice its size if it is full.
    fn consumer_slots(&mut self) -> (r: SequenceState<usize, ()>)
        ensures
            r is More,
            final(self).items() == old(self).items(),
    {
        let cap: usize = vec_capacity(&self.v);
        if cap == self.v.len() {
            let additional: usize = if cap > (usize::MAX - 1) / 2 {
                usize::MAX
            } else {
                cap * 2 + 1
            };
            self.v.reserve(additional);
        }
        let cap: usize = vec_capacity(&self.v);
        let spare: usize = cap - self.v.len();
        // `reserve` guarantees spare capacity; a full vector still accepts one item.
        let n: usize = if spare >= 1 { spare } else { 1 };
        self.offered = Ghost(n as nat);
        SequenceState::More(n)
    }

    fn did_consume(&mut self, items: &[T])
        ensures
            final(self).items() == old(self).items() + items@,
    {
        let mut i: usize = 0;
        while i < items.len()
            invariant
                0 <= i <= items@.len(),
                self.v@ == old(self).v@ + items@.take(i as int),
                self.offered == old(self).offered,
                self.open == old(self).open,
            decreases items@.len() - i,
        {
            self.v.push(items[i]);
            i = i + 1;
            assert(self.v@ =~= old(self).v@ + items@.take(i as int));
        }
        assert(items@.take(items@.len() as int) =~= items@);
        self.offered = Ghost((self.offered@ - items@.len()) as nat);
    }
}

/// A vector collector accepts everything: `consume` never stops and appends
/// the item, `did_consume` appends the items, `consumer_slots` always offers
/// at least one slot, and `flush` and `close` never stop and keep the items.
pub proof fn lemma_into_vec_accepts_everything<T: Copy>(
    c: IntoVec<T>,
    next: IntoVec<T>,
    item: T,
    written: Seq<T>,
    r: Option<()>,
    s: SequenceState<usize, ()>,
)
    ensures
        c.consume_post(next, item, r) ==> r is None && next.items() == c.items().push(item),
        c.did_consume_post(next, written) ==> next.items() == c.items() + written,
        c.consumer_slots_post(next, s) ==> (s matches SequenceState::More(k) && k >= 1
            && next.items() == c.items()),
        c.flush_post(next, r) ==> r is None && next.items() == c.items(),
        c.close_post(next, (), r) ==> r is None && next.items() == c.items(),
{
}

} // verus!
