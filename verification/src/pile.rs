//! Synchronous protocols for producing and consuming sequences.
//!
//! A sequence consists of any number of repeated items followed by at most
//! one last item. A [`Producer`] emits such a sequence, a [`Consumer`]
//! processes one. Their bulk variants move several items at once through
//! contiguous slots.
//!
//! Each protocol carries its contract: a producer is described by the items it
//! has produced so far and by the items it currently exposes for bulk reading;
//! a consumer by the items it has accepted so far and by how many slots it
//! currently offers for bulk writing. Once a method reports the end of the
//! sequence (a last item, or a stop), the caller may not call the value again;
//! `active` says whether calls are still allowed, and it is false after every
//! such report. Each implementation also states, as a relation between the
//! states before and after a call and the call's result, exactly what each
//! method does (`produce_post` and its siblings); adapters state theirs in
//! terms of the relations of the value they wrap.
use vstd::prelude::*;

verus! {

/// A sequence item: either one that may be followed by more (`More`), or the
/// information that the sequence has ended (`Final`).
pub enum SequenceState<R, L> {
    /// More sequence items may follow.
    More(R),
    /// No more sequence items will follow.
    Final(L),
}

/// Emits a sequence one item at a time.
pub trait Producer: Sized {
    /// The type of the items that can be produced any number of times.
    type Repeated;
    /// The type of the last produced value.
    type Last;
    /// What the caller passes when it wants no further items.
    type Stopped;

    /// Whether the internal state is consistent.
    spec fn inv(&self) -> bool;

    /// The repeated items produced so far, oldest first.
    spec fn produced(&self) -> Seq<Self::Repeated>;

    /// The items most recently exposed for bulk reading that have not been
    /// taken yet; they are the next items the producer emits.
    spec fn exposed(&self) -> Seq<Self::Repeated>;

    /// Whether the sequence is still open, so that methods may be called.
    spec fn active(&self) -> bool;

    /// What `produce` does: it takes `self` to `next` and returns `r`.
    spec fn produce_post(&self, next: Self, r: SequenceState<Self::Repeated, Self::Last>) -> bool;

    /// What `slurp` does: it takes `self` to `next` and returns `r`.
    spec fn slurp_post(&self, next: Self, r: Option<Self::Last>) -> bool;

    /// What `stop` does: given `reason`, it takes `self` to `next`.
    spec fn stop_post(&self, next: Self, reason: Self::Stopped) -> bool;

    /// Produces a single item, or the last item of the sequence.
    fn produce(&mut self) -> (r: SequenceState<Self::Repeated, Self::Last>)
        requires
            old(self).inv(),
            old(self).active(),
        ensures
            final(self).inv(),
            match r {
                SequenceState::More(x) => {
                    &&& final(self).active()
                    &&& final(self).produced() == old(self).produced().push(x)
                    &&& old(self).exposed().len() > 0 ==> x == old(self).exposed()[0]
                },
                SequenceState::Final(_) => {
                    &&& final(self).produced() == old(self).produced()
                    &&& !final(self).active()
                },
            },
            old(self).produce_post(*final(self), r),
    ;

    /// Moves as much data as possible from the data source into internal
    /// buffers; returns the last item if the sequence has ended.
    fn slurp(&mut self) -> (r: Option<Self::Last>)
        requires
            old(self).inv(),
            old(self).active(),
        ensures
            final(self).inv(),
            final(self).produced() == old(self).produced(),
            r is None ==> final(self).active(),
            r is Some ==> !final(self).active(),
            old(self).slurp_post(*final(self), r),
    ;

    /// Notifies the producer that no further items will be requested.
    fn stop(&mut self, reason: Self::Stopped)
        requires
            old(self).inv(),
            old(self).active(),
        ensures
            final(self).inv(),
            final(self).produced() == old(self).produced(),
            !final(self).active(),
            old(self).stop_post(*final(self), reason),
    ;
}

/// The items of a `producer_slots` result, as a sequence.
pub open spec fn slots_view<R, L>(r: SequenceState<&[R], L>) -> SequenceState<Seq<R>, L> {
    match r {
        SequenceState::More(s) => SequenceState::More(s@),
        SequenceState::Final(l) => SequenceState::Final(l),
    }
}

/// A producer that can hand out several items at a time.
pub trait BulkProducer: Producer where Self::Repeated: Copy {
    /// What `producer_slots` does: it takes `self` to `next` and returns `r`
    /// (its items as a sequence).
    spec fn producer_slots_post(
        &self,
        next: Self,
        r: SequenceState<Seq<Self::Repeated>, Self::Last>,
    ) -> bool;

    /// What `did_produce` does: given `amount`, it takes `self` to `next`.
    spec fn did_produce_post(&self, next: Self, amount: nat) -> bool;

    /// Returns a nonempty run of the next items, or the last item of the
    /// sequence.
    fn producer_slots(&mut self) -> (r: SequenceState<&[Self::Repeated], Self::Last>)
        requires
            old(self).inv(),
            old(self).active(),
        ensures
            final(self).inv(),
            final(self).produced() == old(self).produced(),
            r matches SequenceState::More(s) ==> {
                &&& s@.len() >= 1
                &&& final(self).exposed() == s@
                &&& final(self).active()
            },
            r is Final ==> !final(self).active(),
            old(self).producer_slots_post(*final(self), slots_view(r)),
    ;

    /// Tells the producer that the first `amount` exposed items have been
    /// taken; this acts as `amount` calls of `produce`.
    fn did_produce(&mut self, amount: usize)
        requires
            old(self).inv(),
            old(self).active(),
            1 <= amount <= old(self).exposed().len(),
        ensures
            final(self).inv(),
            final(self).active(),
            final(self).produced() == old(self).produced() + old(self).exposed().take(
                amount as int,
            ),
            old(self).exposed().skip(amount as int).is_prefix_of(final(self).exposed()),
            old(self).did_produce_post(*final(self), amount as nat),
    ;
}

/// Whether some call on a bulk producer can take it from `prev` to `next`.
pub open spec fn producer_step<P, R, L, S>(prev: P, next: P) -> bool where
    P: BulkProducer<Repeated = R, Last = L, Stopped = S>,
    R: Copy,
 {
    ||| exists|r: SequenceState<R, L>| #[trigger] prev.produce_post(next, r)
    ||| exists|r: Option<L>| #[trigger] prev.slurp_post(next, r)
    ||| exists|reason: S| #[trigger] prev.stop_post(next, reason)
    ||| exists|r: SequenceState<Seq<R>, L>| #[trigger] prev.producer_slots_post(next, r)
    ||| exists|amount: nat| #[trigger] prev.did_produce_post(next, amount)
}

/// Whether `path` is a run of calls on a bulk producer: each state is one
/// that a call can take the one before it to.
pub open spec fn producer_run<P, R, L, S>(path: Seq<P>) -> bool where
    P: BulkProducer<Repeated = R, Last = L, Stopped = S>,
    R: Copy,
 {
    &&& path.len() >= 1
    &&& forall|i: int| 0 <= i < path.len() - 1 ==> #[trigger] producer_step(path[i], path[i + 1])
}

/// Whether a run of calls on a bulk producer can take it from `a` to `b`.
pub open spec fn producer_reaches<P, R, L, S>(a: P, b: P) -> bool where
    P: BulkProducer<Repeated = R, Last = L, Stopped = S>,
    R: Copy,
 {
    exists|path: Seq<P>| #[trigger] producer_run(path) && path[0] == a && path.last() == b
}

/// A state reaches itself, by no call.
pub proof fn lemma_producer_reaches_refl<P, R, L, S>(a: P) where
    P: BulkProducer<Repeated = R, Last = L, Stopped = S>,
    R: Copy,

    ensures
        producer_reaches(a, a),
{
    let path = seq![a];
    assert(producer_run(path));
}

/// A single call is a run.
pub proof fn lemma_producer_step_reaches<P, R, L, S>(a: P, b: P) where
    P: BulkProducer<Repeated = R, Last = L, Stopped = S>,
    R: Copy,

    requires
        producer_step(a, b),
    ensures
        producer_reaches(a, b),
{
    let path = seq![a, b];
    assert(producer_step(path[0], path[1]));
    assert(producer_run(path));
}

/// Runs compose: a run from `a` to `b` followed by one from `b` to `c` is a
/// run from `a` to `c`.
pub proof fn lemma_producer_reaches_trans<P, R, L, S>(a: P, b: P, c: P) where
    P: BulkProducer<Repeated = R, Last = L, Stopped = S>,
    R: Copy,

    requires
        producer_reaches(a, b),
        producer_reaches(b, c),
    ensures
        producer_reaches(a, c),
{
    let p1 = choose|path: Seq<P>| #[trigger] producer_run(path) && path[0] == a && path.last() == b;
    let p2 = choose|path: Seq<P>| #[trigger] producer_run(path) && path[0] == b && path.last() == c;
    let p = p1 + p2.drop_first();
    assert forall|i: int| 0 <= i < p.len() - 1 implies #[trigger] producer_step(p[i], p[i + 1]) by {
        if i < p1.len() - 1 {
            assert(producer_step(p1[i], p1[i + 1]));
        } else {
            let j = i - (p1.len() - 1);
            assert(p[i] == p2[j]);
            assert(p[i + 1] == p2[j + 1]);
            assert(producer_step(p2[j], p2[j + 1]));
        }
    }
    assert(producer_run(p));
    if p2.len() == 1 {
        assert(p.last() == p1.last());
    } else {
        assert(p.last() == p2.last());
    }
}

/// Processes a sequence one item at a time.
pub trait Consumer: Sized {
    /// The type of the items that can be consumed any number of times.
    type Repeated;
    /// The type of the last consumed value.
    type Last;
    /// How the consumer tells the caller that it accepts no further items.
    type Stopped;

    /// Whether the internal state is consistent.
    spec fn inv(&self) -> bool;

    /// The repeated items accepted so far, oldest first.
    spec fn consumed(&self) -> Seq<Self::Repeated>;

    /// Whether the sequence is still open, so that methods may be called.
    spec fn active(&self) -> bool;

    /// What `consume` does: given `item`, it takes `self` to `next` and
    /// returns `r`.
    spec fn consume_post(&self, next: Self, item: Self::Repeated, r: Option<Self::Stopped>) -> bool;

    /// What `flush` does: it takes `self` to `next` and returns `r`.
    spec fn flush_post(&self, next: Self, r: Option<Self::Stopped>) -> bool;

    /// What `close` does: given `last`, it takes `self` to `next` and returns
    /// `r`.
    spec fn close_post(&self, next: Self, last: Self::Last, r: Option<Self::Stopped>) -> bool;

    /// Consumes a single item.
    fn consume(&mut self, item: Self::Repeated) -> (r: Option<Self::Stopped>)
        requires
            old(self).inv(),
            old(self).active(),
        ensures
            final(self).inv(),
            r is None ==> {
                &&& final(self).active()
                &&& final(self).consumed() == old(self).consumed().push(item)
            },
            r is Some ==> !final(self).active(),
            old(self).consume_post(*final(self), item, r),
    ;

    /// Processes all buffered data immediately.
    fn flush(&mut self) -> (r: Option<Self::Stopped>)
        requires
            old(self).inv(),
            old(self).active(),
        ensures
            final(self).inv(),
            r is None ==> {
                &&& final(self).active()
                &&& final(self).consumed() == old(self).consumed()
            },
            r is Some ==> !final(self).active(),
            old(self).flush_post(*final(self), r),
    ;

    /// Consumes the last item of the sequence, then flushes.
    fn close(&mut self, last: Self::Last) -> (r: Option<Self::Stopped>)
        requires
            old(self).inv(),
            old(self).active(),
        ensures
            final(self).inv(),
            r is None ==> final(self).consumed() == old(self).consumed(),
            !final(self).active(),
            old(self).close_post(*final(self), last, r),
    ;
}

/// A consumer that can accept several items at a time.
pub trait BulkConsumer: Consumer where Self::Repeated: Copy {
    /// The number of slots offered by the last `consumer_slots` that have not
    /// been filled yet.
    spec fn slots(&self) -> nat;

    /// What `consumer_slots` does: it takes `self` to `next` and returns `r`.
    spec fn consumer_slots_post(&self, next: Self, r: SequenceState<usize, Self::Stopped>) -> bool;

    /// What `did_consume` does: given `items`, it takes `self` to `next`.
    spec fn did_consume_post(&self, next: Self, items: Seq<Self::Repeated>) -> bool;

    /// Offers a nonempty number of slots to be filled, or reports that no
    /// further items are accepted.
    fn consumer_slots(&mut self) -> (r: SequenceState<usize, Self::Stopped>)
        requires
            old(self).inv(),
            old(self).active(),
        ensures
            final(self).inv(),
            r matches SequenceState::More(n) ==> {
                &&& n >= 1
                &&& final(self).slots() == n
                &&& final(self).active()
                &&& final(self).consumed() == old(self).consumed()
            },
            r is Final ==> !final(self).active(),
            old(self).consumer_slots_post(*final(self), r),
    ;

    /// Fills the first `items.len()` offered slots with `items`; this acts as
    /// consuming the items one by one.
    fn did_consume(&mut self, items: &[Self::Repeated])
        requires
            old(self).inv(),
            old(self).active(),
            1 <= items@.len() <= old(self).slots(),
        ensures
            final(self).inv(),
            final(self).active(),
            final(self).consumed() == old(self).consumed() + items@,
            final(self).slots() + items@.len() >= old(self).slots(),
            old(self).did_consume_post(*final(self), items@),
    ;
}

} // verus!
