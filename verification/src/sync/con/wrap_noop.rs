//! A consumer adapter that forwards every call unchanged.
use vstd::prelude::*;

use crate::pile::{BulkConsumer, Consumer, SequenceState};

verus! {

/// Wraps `inner` in an adapter that forwards every call unchanged.
pub fn inv<I>(inner: I) -> (r: Inv<I>)
    ensures
        r.inner() == inner,
{
    Inv { inner }
}

/// A consumer that forwards every call to an inner consumer.
pub struct Inv<I> {
    inner: I,
}

impl<I> Inv<I> {
    /// The wrapped consumer.
    pub closed spec fn inner(&self) -> I {
        self.inner
    }

    /// Gives back the wrapped consumer.
    pub fn into_inner(self) -> (r: I)
        ensures
            r == self.inner(),
    {
        self.inner
    }

    /// The wrapped consumer.
    pub fn as_ref(&self) -> (r: &I)
        ensures
            *r == self.inner(),
    {
        &self.inner
    }

    /// The wrapped consumer, for modification.
    pub fn as_mut(&mut self) -> (r: &mut I)
        ensures
            *r == old(self).inner(),
            final(self).inner() == *final(r),
    {
        &mut self.inner
    }
}

impl<I, R, L, S> Consumer for Inv<I> where
    I: BulkConsumer<Repeated = R, Last = L, Stopped = S>,
    R: Copy,
 {
    type Repeated = R;
    type Last = L;
    type Stopped = S;

    open spec fn inv(&self) -> bool {
        self.inner().inv()
    }

    open spec fn consumed(&self) -> Seq<R> {
        self.inner().consumed()
    }

    open spec fn active(&self) -> bool {
        self.inner().active()
    }

    open spec fn consume_post(&self, next: Self, item: R, r: Option<S>) -> bool {
        self.inner().consume_post(next.inner(), item, r)
    }

    open spec fn flush_post(&self, next: Self, r: Option<S>) -> bool {
        self.inner().flush_post(next.inner(), r)
    }

    open spec fn close_post(&self, next: Self, last: L, r: Option<S>) -> bool {
        self.inner().close_post(next.inner(), last, r)
    }

    fn consume(&mut self, item: R) -> (r: Option<S>)
        ensures
            old(self).inner().consume_post(final(self).inner(), item, r),
    {
        self.inner.consume(item)
    }

    fn flush(&mut self) -> (r: Option<S>)
        ensures
            old(self).inner().flush_post(final(self).inner(), r),
    {
        self.inner.flush()
    }

    fn close(&mut self, last: L) -> (r: Option<S>)
        ensures
            old(self).inner().close_post(final(self).inner(), last, r),
    {
        self.inner.close(last)
    }
}

impl<I, R, L, S> BulkConsumer for Inv<I> where
    I: BulkConsumer<Repeated = R, Last = L, Stopped = S>,
    R: Copy,
 {
    open spec fn slots(&self) -> nat {
        self.inner().slots()
    }

    open spec fn consumer_slots_post(&self, next: Self, r: SequenceState<usize, S>) -> bool {
        self.inner().consumer_slots_post(next.inner(), r)
    }

    open spec fn did_consume_post(&self, next: Self, items: Seq<R>) -> bool {
        self.inner().did_consume_post(next.inner(), items)
    }

    fn consumer_slots(&mut self) -> (r: SequenceState<usize, S>)
        ensures
            old(self).inner().consumer_slots_post(final(self).inner(), r),
    {
        self.inner.consumer_slots()
    }

    fn did_consume(&mut self, items: &[R])
        ensures
            old(self).inner().did_consume_post(final(self).inner(), items@),
    {
        self.inner.did_consume(items)
    }
}

} // verus!
