//! A producer adapter that tracks the protocol state of the producer it wraps.
use vstd::prelude::*;

use crate::pile::{slots_view, BulkProducer, Producer, SequenceState};

verus! {

/// Wraps `inner` in an adapter that records whether the sequence has ended
/// and how many exposed items may still be taken.
pub fn inv<I>(inner: I) -> (r: Inv<I>)
    ensures
        r.inner() == inner,
        r.is_active(),
        r.exposed_count() == 0,
{
    Inv { inner, active: true, exposed_slots: 0 }
}

/// A producer that forwards to an inner producer while recording the protocol
/// state: whether the sequence has ended, and how many of the items exposed by
/// the last `producer_slots` may still be taken.
pub struct Inv<I> {
    inner: I,
    active: bool,
    exposed_slots: usize,
}

impl<I> Inv<I> {
    /// The wrapped producer.
    pub closed spec fn inner(&self) -> I {
        self.inner
    }

    /// Whether the sequence has not ended yet.
    pub closed spec fn is_active(&self) -> bool {
        self.active
    }

    /// How many exposed items may still be taken.
    pub closed spec fn exposed_count(&self) -> nat {
        self.exposed_slots as nat
    }

    /// Gives back the wrapped producer.
    pub fn into_inner(self) -> (r: I)
        ensures
            r == self.inner(),
    {
        self.inner
    }

    /// The wrapped producer.
    pub fn as_ref(&self) -> (r: &I)
        ensures
            *r == self.inner(),
    {
        &self.inner
    }

    /// The wrapped producer, for modification.
    pub fn as_mut(&mut self) -> (r: &mut I)
        ensures
            *r == old(self).inner(),
            final(self).inner() == *final(r),
            final(self).is_active() == old(self).is_active(),
            final(self).exposed_count() == old(self).exposed_count(),
    {
        &mut self.inner
    }
}

impl<I, R, L, S> Producer for Inv<I> where I: Producer<Repeated = R, Last = L, Stopped = S> {
    type Repeated = R;
    type Last = L;
    type Stopped = S;

    open spec fn inv(&self) -> bool {
        &&& self.inner().inv()
        &&& self.is_active() ==> self.exposed_count() <= self.inner().exposed().len()
    }

    open spec fn produced(&self) -> Seq<R> {
        self.inner().produced()
    }

    open spec fn exposed(&self) -> Seq<R> {
        if self.is_active() {
            self.inner().exposed().take(self.exposed_count() as int)
        } else {
            Seq::empty()
        }
    }

    open spec fn active(&self) -> bool {
        self.is_active() && self.inner().active()
    }

    /// The inner producer's `produce`; the sequence ends on its last item,
    /// and any other item uses up the exposed slots.
    open spec fn produce_post(&self, next: Self, r: SequenceState<R, L>) -> bool {
        &&& self.inner().produce_post(next.inner(), r)
        &&& next.is_active() == (self.is_active() && r is More)
        &&& next.exposed_count() == (if r is More { 0 } else { self.exposed_count() })
    }

    /// The inner producer's `slurp`; the sequence ends on a last item, and
    /// otherwise the exposed slots are used up.
    open spec fn slurp_post(&self, next: Self, r: Option<L>) -> bool {
        &&& self.inner().slurp_post(next.inner(), r)
        &&& next.is_active() == (self.is_active() && r is None)
        &&& next.exposed_count() == (if r is None { 0 } else { self.exposed_count() })
    }

    /// The inner producer's `stop`; the sequence ends.
    open spec fn stop_post(&self, next: Self, reason: S) -> bool {
        &&& self.inner().stop_post(next.inner(), reason)
        &&& !next.is_active()
        &&& next.exposed_count() == self.exposed_count()
    }

    fn produce(&mut self) -> (r: SequenceState<R, L>)
        ensures
            old(self).inner().produce_post(final(self).inner(), r),
            final(self).is_active() == r is More,
            r is More ==> final(self).exposed_count() == 0,
    {
        match self.inner.produce() {
            SequenceState::More(r) => {
                self.exposed_slots = 0;
                SequenceState::More(r)
            },
            SequenceState::Final(l) => {
                self.active = false;
                SequenceState::Final(l)
            },
        }
    }

    fn slurp(&mut self) -> (r: Option<L>)
        ensures
            old(self).inner().slurp_post(final(self).inner(), r),
            final(self).is_active() == r is None,
            r is None ==> final(self).exposed_count() == 0,
    {
        match self.inner.slurp() {
            Some(l) => {
                self.active = false;
                Some(l)
            },
            None => {
                self.exposed_slots = 0;
                None
            },
        }
    }

    fn stop(&mut self, reason: S)
        ensures
            old(self).inner().stop_post(final(self).inner(), reason),
            !final(self).is_active(),
    {
        self.active = false;
        self.inner.stop(reason)
    }
}

impl<I, R, L, S> BulkProducer for Inv<I> where
    I: BulkProducer<Repeated = R, Last = L, Stopped = S>,
    R: Copy,
 {
    /// The inner producer's `producer_slots`; the returned items become the
    /// exposed slots, and the sequence ends on the last item.
    open spec fn producer_slots_post(&self, next: Self, r: SequenceState<Seq<R>, L>) -> bool {
        &&& self.inner().producer_slots_post(next.inner(), r)
        &&& match r {
            SequenceState::More(s) => next.is_active() == self.is_active() && next.exposed_count() == s.len(),
            SequenceState::Final(_) => !next.is_active() && next.exposed_count() == self.exposed_count(),
        }
    }

    /// The inner producer's `did_produce`; `amount` exposed slots are used.
    open spec fn did_produce_post(&self, next: Self, amount: nat) -> bool {
        &&& self.inner().did_produce_post(next.inner(), amount)
        &&& next.is_active() == self.is_active()
        &&& next.exposed_count() == self.exposed_count() - amount
    }

    fn producer_slots(&mut self) -> (r: SequenceState<&[R], L>)
        ensures
            old(self).inner().producer_slots_post(final(self).inner(), slots_view(r)),
            final(self).is_active() == r is More,
            r matches SequenceState::More(s) ==> final(self).exposed_count() == s@.len(),
    {
        match self.inner.producer_slots() {
            SequenceState::More(s) => {
                self.exposed_slots = s.len();
                assert(s@.take(s@.len() as int) =~= s@);
                SequenceState::More(s)
            },
            SequenceState::Final(l) => {
                self.active = false;
                SequenceState::Final(l)
            },
        }
    }

    fn did_produce(&mut self, amount: usize)
        ensures
            old(self).inner().did_produce_post(final(self).inner(), amount as nat),
            final(self).is_active(),
            final(self).exposed_count() == old(self).exposed_count() - amount,
    {
        self.exposed_slots = self.exposed_slots - amount;
        self.inner.did_produce(amount);
        proof {
            let e: int = old(self).exposed_slots as int;
            let old_ex = old(self).inner.exposed();
            let new_ex = self.inner.exposed();
            assert(old_ex.skip(amount as int).is_prefix_of(new_ex));
            assert(old_ex.take(amount as int) =~= old_ex.take(e).take(amount as int));
            assert(new_ex.take(e - amount) =~= old_ex.take(e).skip(amount as int));
        }
    }
}

/// The checker is transparent: each call does exactly what the same call does
/// on the wrapped producer and returns the same result, and once the sequence
/// has ended (a last item, or a stop) the checker is no longer active.
pub proof fn lemma_inv_producer_is_transparent<I, R, L, S>(
    p: Inv<I>,
    next: Inv<I>,
    r: SequenceState<R, L>,
    s: Option<L>,
    reason: S,
)
    where I: Producer<Repeated = R, Last = L, Stopped = S>
    ensures
        p.produce_post(next, r) ==> {
            &&& p.inner().produce_post(next.inner(), r)
            &&& (r is Final ==> !next.active())
        },
        p.slurp_post(next, s) ==> {
            &&& p.inner().slurp_post(next.inner(), s)
            &&& (s is Some ==> !next.active())
        },
        p.stop_post(next, reason) ==> p.inner().stop_post(next.inner(), reason) && !next.active(),
{
}

} // verus!
