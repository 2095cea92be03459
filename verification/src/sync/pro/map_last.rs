//! A producer adapter that transforms the last item of the sequence.
use vstd::prelude::*;

use crate::pile::{slots_view, BulkProducer, Producer, SequenceState};

verus! {

/// Wraps `inner` in an adapter that applies `f` to the last item.
pub fn map_last<I, F>(inner: I, f: F) -> (r: MapLast<I, F>)
    ensures
        r.inner() == inner,
        r.function() == f,
{
    MapLast(inner, f)
}

/// Whether `l2` is a possible result of `f` on some last item.
pub open spec fn is_image_of_last<L, L2, F: Fn(L) -> L2>(f: F, l2: L2) -> bool {
    exists|l: L| call_ensures(f, (l,), l2)
}

/// Whether `f` can be applied to every last item.
pub open spec fn accepts_every_last<L, L2, F: Fn(L) -> L2>(f: F) -> bool {
    forall|l: L| call_requires(f, (l,))
}

/// A producer that forwards to an inner producer and maps its last item
/// through a function.
pub struct MapLast<I, F>(I, F);

impl<I, F> MapLast<I, F> {
    /// The wrapped producer.
    pub closed spec fn inner(&self) -> I {
        self.0
    }

    /// The function applied to the last item.
    pub closed spec fn function(&self) -> F {
        self.1
    }

    /// Gives back the wrapped producer.
    pub fn into_inner(self) -> (r: I)
        ensures
            r == self.inner(),
    {
        self.0
    }

    /// The wrapped producer.
    pub fn as_ref(&self) -> (r: &I)
        ensures
            *r == self.inner(),
    {
        &self.0
    }

    /// The wrapped producer, for modification.
    pub fn as_mut(&mut self) -> (r: &mut I)
        ensures
            *r == old(self).inner(),
            final(self).inner() == *final(r),
            final(self).function() == old(self).function(),
    {
        &mut self.0
    }
}

impl<I, R, L, S, L2, F> Producer for MapLast<I, F> where
    I: Producer<Repeated = R, Last = L, Stopped = S>,
    F: Fn(L) -> L2,
 {
    type Repeated = R;
    type Last = L2;
    type Stopped = S;

    /// The inner producer is consistent and the function accepts every last
    /// item.
    open spec fn inv(&self) -> bool {
        &&& self.inner().inv()
        &&& accepts_every_last(self.function())
    }

    open spec fn produced(&self) -> Seq<R> {
        self.inner().produced()
    }

    open spec fn exposed(&self) -> Seq<R> {
        self.inner().exposed()
    }

    open spec fn active(&self) -> bool {
        self.inner().active()
    }

    /// The inner producer's `produce`, with a last item mapped through the
    /// function.
    open spec fn produce_post(&self, next: Self, r: SequenceState<R, L2>) -> bool {
        &&& next.function() == self.function()
        &&& match r {
            SequenceState::More(x) => self.inner().produce_post(next.inner(), SequenceState::More(x)),
            SequenceState::Final(l2) => exists|l: L|
                #[trigger] self.inner().produce_post(next.inner(), SequenceState::Final(l)) && call_ensures(
                    self.function(),
                    (l,),
                    l2,
                ),
        }
    }

    /// The inner producer's `slurp`, with a last item mapped through the
    /// function.
    open spec fn slurp_post(&self, next: Self, r: Option<L2>) -> bool {
        &&& next.function() == self.function()
        &&& match r {
            None => self.inner().slurp_post(next.inner(), None),
            Some(l2) => exists|l: L|
                #[trigger] self.inner().slurp_post(next.inner(), Some(l)) && call_ensures(self.function(), (l,), l2),
        }
    }

    /// The inner producer's `stop`.
    open spec fn stop_post(&self, next: Self, reason: S) -> bool {
        &&& next.function() == self.function()
        &&& self.inner().stop_post(next.inner(), reason)
    }

    fn produce(&mut self) -> (r: SequenceState<R, L2>)
        ensures
            r matches SequenceState::Final(l2) ==> exists|l: L| #[trigger] old(self).inner().produce_post(final(self).inner(), SequenceState::Final(l)) && call_ensures(old(self).function(), (l,), l2),
            r matches SequenceState::More(x) ==> old(self).inner().produce_post(final(self).inner(), SequenceState::More(x)),
            final(self).function() == old(self).function(),
            r matches SequenceState::Final(l2) ==> is_image_of_last(
                old(self).function(),
                l2,
            ),
    {
        match self.0.produce() {
            SequenceState::More(item) => SequenceState::More(item),
            SequenceState::Final(l) => {
                assert(call_requires(self.function(), (l,)));
                let l2 = (self.1)(l);
                assert(call_ensures(self.1, (l,), l2));
                assert(is_image_of_last(self.1, l2));
                assert(old(self).0.produce_post(self.0, SequenceState::Final(l)));
                SequenceState::Final(l2)
            },
        }
    }

    fn slurp(&mut self) -> (r: Option<L2>)
        ensures
            r matches Some(l2) ==> exists|l: L| #[trigger] old(self).inner().slurp_post(final(self).inner(), Some(l)) && call_ensures(old(self).function(), (l,), l2),
            final(self).function() == old(self).function(),
            r matches Some(l2) ==> is_image_of_last(old(self).function(), l2),
            r is None ==> old(self).inner().slurp_post(final(self).inner(), None),
    {
        match self.0.slurp() {
            Some(l) => {
                assert(call_requires(self.function(), (l,)));
                let l2 = (self.1)(l);
                assert(call_ensures(self.1, (l,), l2));
                assert(is_image_of_last(self.1, l2));
                assert(old(self).0.slurp_post(self.0, Some(l)));
                Some(l2)
            },
            None => None,
        }
    }

    fn stop(&mut self, reason: S)
        ensures
            final(self).function() == old(self).function(),
            old(self).inner().stop_post(final(self).inner(), reason),
    {
        self.0.stop(reason)
    }
}

impl<I, R, L, S, L2, F> BulkProducer for MapLast<I, F> where
    I: BulkProducer<Repeated = R, Last = L, Stopped = S>,
    R: Copy,
    F: Fn(L) -> L2,
 {
    /// The inner producer's `producer_slots`, with a last item mapped through
    /// the function.
    open spec fn producer_slots_post(&self, next: Self, r: SequenceState<Seq<R>, L2>) -> bool {
        &&& next.function() == self.function()
        &&& match r {
            SequenceState::More(s) => self.inner().producer_slots_post(next.inner(), SequenceState::More(s)),
            SequenceState::Final(l2) => exists|l: L|
                #[trigger] self.inner().producer_slots_post(next.inner(), SequenceState::Final(l))
                    && call_ensures(self.function(), (l,), l2),
        }
    }

    /// The inner producer's `did_produce`.
    open spec fn did_produce_post(&self, next: Self, amount: nat) -> bool {
        &&& next.function() == self.function()
        &&& self.inner().did_produce_post(next.inner(), amount)
    }

    fn producer_slots(&mut self) -> (r: SequenceState<&[R], L2>)
        ensures
            r matches SequenceState::Final(l2) ==> exists|l: L| #[trigger] old(self).inner().producer_slots_post(final(self).inner(), SequenceState::Final(l)) && call_ensures(old(self).function(), (l,), l2),
            r matches SequenceState::More(s) ==> old(self).inner().producer_slots_post(final(self).inner(), SequenceState::More(s@)),
            final(self).function() == old(self).function(),
            r matches SequenceState::Final(l2) ==> is_image_of_last(
                old(self).function(),
                l2,
            ),
    {
        let ghost f = self.1;
        assert(f == self.function());
        match self.0.producer_slots() {
            SequenceState::More(s) => SequenceState::More(s),
            SequenceState::Final(l) => {
                assert(call_requires(f, (l,)));
                let l2 = (self.1)(l);
                assert(call_ensures(self.1, (l,), l2));
                assert(is_image_of_last(self.1, l2));
                SequenceState::Final(l2)
            },
        }
    }

    fn did_produce(&mut self, amount: usize)
        ensures
            old(self).inner().did_produce_post(final(self).inner(), amount as nat),
            final(self).function() == old(self).function(),
    {
        self.0.did_produce(amount)
    }
}

} // verus!

verus! {

/// Mapping the last item twice maps it through both functions in turn: when
/// an adapter over an adapter ends with `l3`, the innermost producer ended with
/// some `l`, the inner function took `l` to some `l2`, and the outer function
/// took `l2` to `l3`.
pub proof fn lemma_map_last_composes<I, R, L, S, L2, L3, F, G>(
    m: MapLast<MapLast<I, F>, G>,
    next: MapLast<MapLast<I, F>, G>,
    l3: L3,
)
    where
        I: Producer<Repeated = R, Last = L, Stopped = S>,
        F: Fn(L) -> L2,
        G: Fn(L2) -> L3,
    requires
        m.produce_post(next, SequenceState::Final(l3)),
    ensures
        exists|l: L, l2: L2|
            {
                &&& #[trigger] m.inner().inner().produce_post(
                    next.inner().inner(),
                    SequenceState::Final(l),
                )
                &&& call_ensures(m.inner().function(), (l,), l2)
                &&& #[trigger] call_ensures(m.function(), (l2,), l3)
            },
{
    let l2 = choose|l2: L2|
        #[trigger] m.inner().produce_post(next.inner(), SequenceState::Final(l2)) && call_ensures(
            m.function(),
            (l2,),
            l3,
        );
    let l = choose|l: L|
        #[trigger] m.inner().inner().produce_post(next.inner().inner(), SequenceState::Final(l))
            && call_ensures(m.inner().function(), (l,), l2);
    assert(m.inner().inner().produce_post(next.inner().inner(), SequenceState::Final(l)));
    assert(call_ensures(m.function(), (l2,), l3));
}

/// Mapping the last item twice maps it through both functions in turn, for
/// the last item that `slurp` reports: when an adapter over an adapter slurps
/// `l3`, the innermost producer slurped some `l`, the inner function took `l`
/// to some `l2`, and the outer function took `l2` to `l3`.
pub proof fn lemma_map_last_composes_slurp<I, R, L, S, L2, L3, F, G>(
    m: MapLast<MapLast<I, F>, G>,
    next: MapLast<MapLast<I, F>, G>,
    l3: L3,
)
    where
        I: Producer<Repeated = R, Last = L, Stopped = S>,
        F: Fn(L) -> L2,
        G: Fn(L2) -> L3,
    requires
        m.slurp_post(next, Some(l3)),
    ensures
        exists|l: L, l2: L2|
            {
                &&& #[trigger] m.inner().inner().slurp_post(next.inner().inner(), Some(l))
                &&& call_ensures(m.inner().function(), (l,), l2)
                &&& #[trigger] call_ensures(m.function(), (l2,), l3)
            },
{
    let l2 = choose|l2: L2|
        #[trigger] m.inner().slurp_post(next.inner(), Some(l2)) && call_ensures(m.function(), (l2,), l3);
    let l = choose|l: L|
        #[trigger] m.inner().inner().slurp_post(next.inner().inner(), Some(l)) && call_ensures(
            m.inner().function(),
            (l,),
            l2,
        );
    assert(m.inner().inner().slurp_post(next.inner().inner(), Some(l)));
    assert(call_ensures(m.function(), (l2,), l3));
}

/// Mapping the last item twice maps it through both functions in turn, for
/// the last item that `producer_slots` reports.
pub proof fn lemma_map_last_composes_slots<I, R, L, S, L2, L3, F, G>(
    m: MapLast<MapLast<I, F>, G>,
    next: MapLast<MapLast<I, F>, G>,
    l3: L3,
)
    where
        I: BulkProducer<Repeated = R, Last = L, Stopped = S>,
        R: Copy,
        F: Fn(L) -> L2,
        G: Fn(L2) -> L3,
    requires
        m.producer_slots_post(next, SequenceState::Final(l3)),
    ensures
        exists|l: L, l2: L2|
            {
                &&& #[trigger] m.inner().inner().producer_slots_post(
                    next.inner().inner(),
                    SequenceState::Final(l),
                )
                &&& call_ensures(m.inner().function(), (l,), l2)
                &&& #[trigger] call_ensures(m.function(), (l2,), l3)
            },
{
    let l2 = choose|l2: L2|
        #[trigger] m.inner().producer_slots_post(next.inner(), SequenceState::Final(l2))
            && call_ensures(m.function(), (l2,), l3);
    let l = choose|l: L|
        #[trigger] m.inner().inner().producer_slots_post(
            next.inner().inner(),
            SequenceState::Final(l),
        ) && call_ensures(m.inner().function(), (l,), l2);
    assert(m.inner().inner().producer_slots_post(next.inner().inner(), SequenceState::Final(l)));
    assert(call_ensures(m.function(), (l2,), l3));
}

/// Whether `f` gives back every last item unchanged.
pub open spec fn keeps_every_last<L, F: Fn(L) -> L>(f: F) -> bool {
    forall|l: L, l2: L| #[trigger] call_ensures(f, (l,), l2) ==> l2 == l
}

/// Mapping the last item through a function that keeps it changes nothing:
/// each call on the adapter does what the same call does on the wrapped
/// producer, with the same result.
pub proof fn lemma_map_last_identity<I, R, L, S, F>(
    m: MapLast<I, F>,
    next: MapLast<I, F>,
    r: SequenceState<R, L>,
    s: Option<L>,
)
    where
        I: Producer<Repeated = R, Last = L, Stopped = S>,
        F: Fn(L) -> L,
    requires
        keeps_every_last(m.function()),
    ensures
        m.produce_post(next, r) ==> m.inner().produce_post(next.inner(), r),
        m.slurp_post(next, s) ==> m.inner().slurp_post(next.inner(), s),
{
    if m.produce_post(next, r) {
        if let SequenceState::Final(l2) = r {
            let l = choose|l: L|
                #[trigger] m.inner().produce_post(next.inner(), SequenceState::Final(l)) && call_ensures(
                    m.function(),
                    (l,),
                    l2,
                );
            assert(call_ensures(m.function(), (l,), l2));
        }
    }
    if m.slurp_post(next, s) {
        if let Some(l2) = s {
            let l = choose|l: L|
                #[trigger] m.inner().slurp_post(next.inner(), Some(l)) && call_ensures(
                    m.function(),
                    (l,),
                    l2,
                );
            assert(call_ensures(m.function(), (l,), l2));
        }
    }
}

/// Mapping the last item through a function that keeps it changes nothing
/// for the bulk calls either.
pub proof fn lemma_map_last_identity_bulk<I, R, L, S, F>(
    m: MapLast<I, F>,
    next: MapLast<I, F>,
    r: SequenceState<Seq<R>, L>,
    amount: nat,
)
    where
        I: BulkProducer<Repeated = R, Last = L, Stopped = S>,
        R: Copy,
        F: Fn(L) -> L,
    requires
        keeps_every_last(m.function()),
    ensures
        m.producer_slots_post(next, r) ==> m.inner().producer_slots_post(next.inner(), r),
        m.did_produce_post(next, amount) ==> m.inner().did_produce_post(next.inner(), amount),
{
    if m.producer_slots_post(next, r) {
        if let SequenceState::Final(l2) = r {
            let l = choose|l: L|
                #[trigger] m.inner().producer_slots_post(next.inner(), SequenceState::Final(l))
                    && call_ensures(m.function(), (l,), l2);
            assert(call_ensures(m.function(), (l,), l2));
        }
    }
}

} // verus!
