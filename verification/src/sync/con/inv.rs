//! A consumer adapter that tracks the protocol state of the consumer it wraps.
use vstd::prelude::*;

use crate::pile::{BulkConsumer, Consumer, SequenceState};

verus! {

/// Wraps `inner` in an adapter that records whether the sequence has ended
/// and how many offered slots may still be filled.
pub fn inv<I>(inner: I) -> (r: Inv<I>)
    ensures
        r.inner() == inner,
        r.is_active(),
        r.exposed_count() == 0,
{
    Inv { inner, active: true, exposed_slots: 0 }
}

/// A consumer that forwards to an inner consumer while recording the protocol
/// state: whether the sequence has ended, and how many of the slots offered by
/// the last `consumer_slots` may still be filled.
pub struct Inv<I> {
    inner: I,
    active: bool,
    exposed_slots: usize,
}

impl<I> Inv<I> {
    /// The wrapped consumer.
    pub closed spec fn inner(&self) -> I {
        self.inner
    }

    /// Whether the sequence has not ended yet.
    pub closed spec fn is_active(&self) -> bool {
        self.active
    }

    /// How many offered slots may still be filled.
    pub closed spec fn exposed_count(&self) -> nat {
        self.exposed_slots as nat
    }

    /// Gives back the wrapped consumer.
    pub fn into_inner(self) -> (r: I)
        ensures
            r == self.inner(),
    {
        self.inner
    }

    /// The wrapped consumer.
    pub fn as_ref(&self) -> (r: &I)
        ensures
            *r == self.inner(),
    {
        &self.inner
    }

    /// The wrapped consumer, for modification.
    pub fn as_mut(&mut self) -> (r: &mut I)
        ensures
            *r == old(self).inner(),
            final(self).inner() == *final(r),
            final(self).is_active() == old(self).is_active(),
            final(self).exposed_count() == old(self).exposed_count(),
    {
        &mut self.inner
    }
}

impl<I, R, L, S> Consumer for Inv<I> where
    I: BulkConsumer<Repeated = R, Last = L, Stopped = S>,
    R: Copy,
 {
    type Repeated = R;
    type Last = L;
    type Stopped = S;

    open spec fn inv(&self) -> bool {
        &&& self.inner().inv()
        &&& self.is_active() ==> self.exposed_count() <= self.inner().slots()
    }

    open spec fn consumed(&self) -> Seq<R> {
        self.inner().consumed()
    }

    open spec fn active(&self) -> bool {
        self.is_active() && self.inner().active()
    }

    /// The inner consumer's `consume`; the sequence ends on a stop, and
    /// otherwise the offered slots are used up.
    open spec fn consume_post(&self, next: Self, item: R, r: Option<S>) -> bool {
        &&& self.inner().consume_post(next.inner(), item, r)
        &&& next.is_active() == (self.is_active() && r is None)
        &&& next.exposed_count() == (if r is None { 0 } else { self.exposed_count() })
    }

    /// The inner consumer's `flush`; the sequence ends on a stop, and
    /// otherwise the offered slots are used up.
    open spec fn flush_post(&self, next: Self, r: Option<S>) -> bool {
        &&& self.inner().flush_post(next.inner(), r)
        &&& next.is_active() == (self.is_active() && r is None)
        &&& next.exposed_count() == (if r is None { 0 } else { self.exposed_count() })
    }

    /// The inner consumer's `close`; the sequence ends.
    open spec fn close_post(&self, next: Self, last: L, r: Option<S>) -> bool {
        &&& self.inner().close_post(next.inner(), last, r)
        &&& !next.is_active()
        &&& next.exposed_count() == self.exposed_count()
    }

    fn consume(&mut self, item: R) -> (r: Option<S>)
        ensures
            old(self).inner().consume_post(final(self).inner(), item, r),
            final(self).is_active() == r is None,
            r is None ==> final(self).exposed_count() == 0,
    {
        match self.inner.consume(item) {
            Some(s) => {
                self.active = false;
                Some(s)
            },
            None => {
                self.exposed_slots = 0;
                None
            },
        }
    }

    fn flush(&mut self) -> (r: Option<S>)
        ensures
            old(self).inner().flush_post(final(self).inner(), r),
            final(self).is_active() == r is None,
            r is None ==> final(self).exposed_count() == 0,
    {
        match self.inner.flush() {
            Some(s) => {
                self.active = false;
                Some(s)
            },
            None => {
                self.exposed_slots = 0;
                None
            },
        }
    }

    fn close(&mut self, last: L) -> (r: Option<S>)
        ensures
            old(self).inner().close_post(final(self).inner(), last, r),
            !final(self).is_active(),
    {
        self.active = false;
        self.inner.close(last)
    }
}

impl<I, R, L, S> BulkConsumer for Inv<I> where
    I: BulkConsumer<Repeated = R, Last = L, Stopped = S>,
    R: Copy,
 {
    open spec fn slots(&self) -> nat {
        if self.is_active() {
            self.exposed_count() as nat
        } else {
            0
        }
    }

    /// The inner consumer's `consumer_slots`; the offered count becomes the
    /// exposed slots, and the sequence ends on a stop.
    open spec fn consumer_slots_post(&self, next: Self, r: SequenceState<usize, S>) -> bool {
        &&& self.inner().consumer_slots_post(next.inner(), r)
        &&& match r {
            SequenceState::More(n) => next.is_active() == self.is_active() && next.exposed_count() == n,
            SequenceState::Final(_) => !next.is_active() && next.exposed_count() == self.exposed_count(),
        }
    }

    /// The inner consumer's `did_consume`; as many exposed slots are used as
    /// items are written.
    open spec fn did_consume_post(&self, next: Self, items: Seq<R>) -> bool {
        &&& self.inner().did_consume_post(next.inner(), items)
        &&& next.is_active() == self.is_active()
        &&& next.exposed_count() == self.exposed_count() - items.len()
    }

    fn consumer_slots(&mut self) -> (r: SequenceState<usize, S>)
        ensures
            old(self).inner().consumer_slots_post(final(self).inner(), r),
            final(self).is_active() == r is More,
            r matches SequenceState::More(n) ==> final(self).exposed_count() == n,
    {
        match self.inner.consumer_slots() {
            SequenceState::More(n) => {
                self.exposed_slots = n;
                SequenceState::More(n)
            },
            SequenceState::Final(s) => {
                self.active = false;
                SequenceState::Final(s)
            },
        }
    }

    fn did_consume(&mut self, items: &[R])
        ensures
            old(self).inner().did_consume_post(final(self).inner(), items@),
            final(self).is_active(),
            final(self).exposed_count() == old(self).exposed_count() - items@.len(),
    {
        self.exposed_slots = self.exposed_slots - items.len();
        self.inner.did_consume(items)
    }
}

/// The checker is transparent: each call does exactly what the same call does
/// on the wrapped consumer and returns the same result, and once the sequence
/// has ended (a stop, or a close) the checker is no longer active.
pub proof fn lemma_inv_consumer_is_transparent<I, R, L, S>(
    c: Inv<I>,
    next: Inv<I>,
    item: R,
    last: L,
    r: Option<S>,
)
    where I: BulkConsumer<Repeated = R, Last = L, Stopped = S>, R: Copy
    ensures
        c.consume_post(next, item, r) ==> {
            &&& c.inner().consume_post(next.inner(), item, r)
            &&& (r is Some ==> !next.active())
        },
        c.flush_post(next, r) ==> {
            &&& c.inner().flush_post(next.inner(), r)
            &&& (r is Some ==> !next.active())
        },
        c.close_post(next, last, r) ==> c.inner().close_post(next.inner(), last, r) && !next.active(),
{
}

} // verus!
