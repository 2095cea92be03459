//! A consumer that writes the items it consumes into a slice.
use vstd::prelude::*;

use crate::pile::{BulkConsumer, Consumer, SequenceState};

verus! {

broadcast use vstd::slice::group_slice_axioms;

/// Creates a consumer which places consumed data in the given slice.
pub fn cursor<'a, T>(s: &'a mut [T]) -> (c: Cursor<'a, T>)
    ensures
        c.buffer() == old(s)@,
        c.position() == 0,
        c.is_open(),
{
    Cursor(s, 0, Ghost(true))
}

/// Consumes data into a mutable slice.
pub struct Cursor<'a, T>(&'a mut [T], usize, Ghost<bool>);

impl<'a, T> Cursor<'a, T> {
    /// The current contents of the slice.
    pub closed spec fn buffer(&self) -> Seq<T> {
        self.0@
    }

    /// How many items have been written into the slice.
    pub closed spec fn position(&self) -> nat {
        self.1 as nat
    }

    /// Whether the consumer has neither stopped nor been closed.
    pub closed spec fn is_open(&self) -> bool {
        self.2@
    }

    /// Gives back the slice.
    pub fn into_inner(self) -> (s: &'a mut [T])
        ensures
            s@ == self.buffer(),
    {
        self.0
    }

    /// The slice.
    pub fn as_ref(&self) -> (s: &[T])
        ensures
            s@ == self.buffer(),
    {
        self.0
    }

    /// The slice, for modification.
    pub fn as_mut(&mut self) -> (s: &mut [T])
        ensures
            s@ == old(self).buffer(),
            final(self).buffer() == final(s)@,
            final(self).position() == old(self).position(),
            final(self).is_open() == old(self).is_open(),
    {
        self.0
    }
}

impl<'a, T: Copy> Consumer for Cursor<'a, T> {
    type Repeated = T;
    type Last = ();
    /// Emitted when the end of the slice has been reached.
    type Stopped = ();

    /// The position lies within the slice.
    open spec fn inv(&self) -> bool {
        self.position() <= self.buffer().len()
    }

    /// The items written so far.
    open spec fn consumed(&self) -> Seq<T> {
        self.buffer().take(self.position() as int)
    }

    open spec fn active(&self) -> bool {
        self.is_open()
    }

    /// Writes the item at the position, or stops once the slice is full.
    open spec fn consume_post(&self, next: Self, item: T, r: Option<()>) -> bool {
        if self.position() < self.buffer().len() {
            &&& r is None
            &&& next.buffer() == self.buffer().update(self.position() as int, item)
            &&& next.position() == self.position() + 1
            &&& next.is_open() == self.is_open()
        } else {
            &&& r == Some(())
            &&& next.buffer() == self.buffer()
            &&& next.position() == self.position()
            &&& !next.is_open()
        }
    }

    /// Nothing is buffered: flushing changes nothing, and stops only once the
    /// slice is full.
    open spec fn flush_post(&self, next: Self, r: Option<()>) -> bool {
        &&& next.buffer() == self.buffer()
        &&& next.position() == self.position()
        &&& if self.position() < self.buffer().len() {
            &&& r is None
            &&& next.is_open() == self.is_open()
        } else {
            &&& r == Some(())
            &&& !next.is_open()
        }
    }

    /// Closing ends the sequence; it reports a stop only once the slice is
    /// full.
    open spec fn close_post(&self, next: Self, last: (), r: Option<()>) -> bool {
        &&& next.buffer() == self.buffer()
        &&& next.position() == self.position()
        &&& !next.is_open()
        &&& (r == Some(()) <==> self.position() >= self.buffer().len())
    }

    fn consume(&mut self, item: T) -> (r: Option<()>) {
        if self.1 >= self.0.len() {
            self.2 = Ghost(false);
            Some(())
        } else {
            self.0[self.1] = item;
            self.1 = self.1 + 1;
            assert(self.0@.take(self.1 as int) =~= old(self).0@.take(old(self).1 as int).push(
                item,
            ));
            None
        }
    }

    fn flush(&mut self) -> (r: Option<()>) {
        if self.1 >= self.0.len() {
            self.2 = Ghost(false);
            Some(())
        } else {
            None
        }
    }

    fn close(&mut self, _last: ()) -> (r: Option<()>) {
        self.2 = Ghost(false);
        if self.1 >= self.0.len() {
            Some(())
        } else {
            None
        }
    }
}

impl<'a, T: Copy> BulkConsumer for Cursor<'a, T> {
    /// The rest of the slice.
    open spec fn slots(&self) -> nat {
        (self.buffer().len() - self.position()) as nat
    }

    /// Offers the rest of the slice, or stops once the slice is full.
    open spec fn consumer_slots_post(&self, next: Self, r: SequenceState<usize, ()>) -> bool {
        &&& next.buffer() == self.buffer()
        &&& next.position() == self.position()
        &&& if self.position() < self.buffer().len() {
            &&& r == SequenceState::<usize, ()>::More(
                (self.buffer().len() - self.position()) as usize,
            )
            &&& next.is_open() == self.is_open()
        } else {
            &&& r == SequenceState::<usize, ()>::Final(())
            &&& !next.is_open()
        }
    }

    /// Writes the items at the position and moves past them.
    open spec fn did_consume_post(&self, next: Self, items: Seq<T>) -> bool {
        &&& next.buffer() == self.buffer().take(self.position() as int) + items + self.buffer().skip(
            (self.position() + items.len()) as int,
        )
        &&& next.position() == self.position() + items.len()
        &&& next.is_open() == self.is_open()
    }

    fn consumer_slots(&mut self) -> (r: SequenceState<usize, ()>) {
        if self.1 >= self.0.len() {
            self.2 = Ghost(false);
            SequenceState::Final(())
        } else {
            SequenceState::More(self.0.len() - self.1)
        }
    }

    fn did_consume(&mut self, items: &[T]) {
        let k: usize = items.len();
        assert(self.0@.len() == self.0.len());
        let mut i: usize = 0;
        while i < k
            invariant
                k == items@.len(),
                self.1 == old(self).1,
                self.2 == old(self).2,
                self.1 + k <= self.0@.len(),
                self.0@.len() <= usize::MAX,
                self.0@.len() == old(self).0@.len(),
                0 <= i <= k,
                forall|j: int| 0 <= j < i ==> self.0@[self.1 + j] == items@[j],
                forall|j: int|
                    0 <= j < self.0@.len() && !(self.1 <= j < self.1 + i) ==> self.0@[j] == old(
                        self,
                    ).0@[j],
            decreases k - i,
        {
            self.0[self.1 + i] = items[i];
            i = i + 1;
        }
        self.1 = self.1 + k;
        assert(self.0@ =~= old(self).0@.take(old(self).1 as int) + items@ + old(self).0@.skip(
            old(self).1 + k,
        ));
        assert(self.0@.take(self.1 as int) =~= old(self).0@.take(old(self).1 as int) + items@);
    }
}

/// A slice cursor accepts every item while the slice has room: `consume`
/// reports a stop exactly when the slice was already full; otherwise it writes
/// the item after those written before, moves past it, and stays open.
pub proof fn lemma_cursor_consume_accepts_while_room<'a, T: Copy>(
    c: Cursor<'a, T>,
    next: Cursor<'a, T>,
    item: T,
    r: Option<()>,
)
    requires
        c.inv(),
        c.consume_post(next, item, r),
    ensures
        r is None <==> c.position() < c.buffer().len(),
        r is None ==> {
            &&& next.consumed() == c.consumed().push(item)
            &&& next.is_open() == c.is_open()
            &&& next.buffer().len() == c.buffer().len()
        },
        r is Some ==> next.consumed() == c.consumed() && !next.is_open(),
{
    if r is None {
        assert(next.buffer().take(next.position() as int) =~= c.buffer().take(
            c.position() as int,
        ).push(item));
    }
}

/// Flushing or closing a slice cursor reports a stop exactly when the slice
/// is full, and keeps what was written; offering slots offers the rest of the
/// slice, or reports a stop exactly when the slice is full.
pub proof fn lemma_cursor_stops_only_when_full<'a, T: Copy>(
    c: Cursor<'a, T>,
    next: Cursor<'a, T>,
    f: Option<()>,
    s: SequenceState<usize, ()>,
)
    requires
        c.inv(),
    ensures
        c.flush_post(next, f) ==> {
            &&& (f == Some(()) <==> c.position() >= c.buffer().len())
            &&& next.consumed() == c.consumed()
        },
        c.close_post(next, (), f) ==> {
            &&& (f == Some(()) <==> c.position() >= c.buffer().len())
            &&& next.consumed() == c.consumed()
            &&& !next.is_open()
        },
        c.consumer_slots_post(next, s) ==> {
            &&& (s is Final <==> c.position() >= c.buffer().len())
            &&& s matches SequenceState::More(k) ==> k + c.position() == c.buffer().len()
        },
{
    assert(c.0@.len() == c.0.len());
}

} // verus!
