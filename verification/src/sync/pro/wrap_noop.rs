//! A producer adapter that forwards every call unchanged.
use vstd::prelude::*;

use crate::pile::{slots_view, BulkProducer, Producer, SequenceState};

verus! {

/// Wraps `inner` in an adapter that forwards every call unchanged.
pub fn inv<I>(inner: I) -> (r: Inv<I>)
    ensures
        r.inner() == inner,
{
    Inv { inner }
}

/// A producer that forwards every call to an inner producer.
pub struct Inv<I> {
    inner: I,
}

impl<I> Inv<I> {
    /// The wrapped producer.
    pub closed spec fn inner(&self) -> I {
        self.inner
    }

    /// Gives back the wrapped producer.
    pub fn into_inner(self) -> (r: I)
        ensures
            r == self.inner(),
    {
        self.inner
    }

    /// The wrapped producer.
    pub fn as_ref(&self) -> (r: &I)
        ensures
            *r == self.inner(),
    {
        &self.inner
    }

    /// The wrapped producer, for modification.
    pub fn as_mut(&mut self) -> (r: &mut I)
        ensures
            *r == old(self).inner(),
            final(self).inner() == *final(r),
    {
        &mut self.inner
    }
}

impl<I, R, L, S> Producer for Inv<I> where I: Producer<Repeated = R, Last = L, Stopped = S> {
    type Repeated = R;
    type Last = L;
    type Stopped = S;

    open spec fn inv(&self) -> bool {
        self.inner().inv()
    }

    open spec fn produced(&self) -> Seq<R> {
        self.inner().produced()
    }

    open spec fn exposed(&self) -> Seq<R> {
        self.inner().exposed()
    }

    open spec fn active(&self) -> bool {
        self.inner().active()
    }

    open spec fn produce_post(&self, next: Self, r: SequenceState<R, L>) -> bool {
        self.inner().produce_post(next.inner(), r)
    }

    open spec fn slurp_post(&self, next: Self, r: Option<L>) -> bool {
        self.inner().slurp_post(next.inner(), r)
    }

    open spec fn stop_post(&self, next: Self, reason: S) -> bool {
        self.inner().stop_post(next.inner(), reason)
    }

    fn produce(&mut self) -> (r: SequenceState<R, L>)
        ensures
            old(self).inner().produce_post(final(self).inner(), r),
    {
        self.inner.produce()
    }

    fn slurp(&mut self) -> (r: Option<L>)
        ensures
            old(self).inner().slurp_post(final(self).inner(), r),
    {
        self.inner.slurp()
    }

    fn stop(&mut self, reason: S)
        ensures
            old(self).inner().stop_post(final(self).inner(), reason),
    {
        self.inner.stop(reason)
    }
}

impl<I, R, L, S> BulkProducer for Inv<I> where
    I: BulkProducer<Repeated = R, Last = L, Stopped = S>,
    R: Copy,
 {
    open spec fn producer_slots_post(&self, next: Self, r: SequenceState<Seq<R>, L>) -> bool {
        self.inner().producer_slots_post(next.inner(), r)
    }

    open spec fn did_produce_post(&self, next: Self, amount: nat) -> bool {
        self.inner().did_produce_post(next.inner(), amount)
    }

    fn producer_slots(&mut self) -> (r: SequenceState<&[R], L>)
        ensures
            old(self).inner().producer_slots_post(final(self).inner(), slots_view(r)),
    {
        self.inner.producer_slots()
    }

    fn did_produce(&mut self, amount: usize)
        ensures
            old(self).inner().did_produce_post(final(self).inner(), amount as nat),
    {
        self.inner.did_produce(amount)
    }
}

} // verus!
