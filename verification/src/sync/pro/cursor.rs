//! A producer that emits the items of a slice.
use vstd::prelude::*;

use crate::pile::{producer_reaches, producer_run, producer_step, slots_view, BulkProducer, Producer, SequenceState};

verus! {

broadcast use vstd::slice::group_slice_axioms;

/// Creates a producer which produces the data in the given slice.
pub fn cursor<'a, T>(s: &'a [T]) -> (c: Cursor<'a, T>)
    ensures
        c.slice() == s@,
        c.position() == 0,
        c.is_open(),
{
    Cursor(Cursor_(s, 0, Ghost(true)))
}

/// Produces data from a slice.
pub struct Cursor<'a, T>(Cursor_<'a, T>);

/// Produces data from a slice, starting at a position.
pub struct Cursor_<'a, T>(&'a [T], usize, Ghost<bool>);

impl<'a, T> Cursor_<'a, T> {
    /// The slice the data comes from.
    pub closed spec fn slice(&self) -> Seq<T> {
        self.0@
    }

    /// How many items of the slice have been produced.
    pub closed spec fn position(&self) -> nat {
        self.1 as nat
    }

    /// Whether the sequence has neither ended nor been stopped.
    pub closed spec fn is_open(&self) -> bool {
        self.2@
    }

    /// Gives back the slice.
    pub fn into_inner(self) -> (s: &'a [T])
        ensures
            s@ == self.slice(),
    {
        self.0
    }

    /// The slice the data comes from.
    pub fn as_ref(&self) -> (s: &[T])
        ensures
            s@ == self.slice(),
    {
        self.0
    }
}

impl<'a, T> Cursor<'a, T> {
    /// The slice the data comes from.
    pub closed spec fn slice(&self) -> Seq<T> {
        self.0.slice()
    }

    /// How many items of the slice have been produced.
    pub closed spec fn position(&self) -> nat {
        self.0.position()
    }

    /// Whether the sequence has neither ended nor been stopped.
    pub closed spec fn is_open(&self) -> bool {
        self.0.is_open()
    }

    /// Gives back the slice.
    pub fn into_inner(self) -> (s: &'a [T])
        ensures
            s@ == self.slice(),
    {
        self.0.into_inner()
    }

    /// The slice the data comes from.
    pub fn as_ref(&self) -> (s: &[T])
        ensures
            s@ == self.slice(),
    {
        self.0.as_ref()
    }
}

impl<'a, T: Copy> Producer for Cursor_<'a, T> {
    type Repeated = T;
    /// Emitted when the end of the slice has been reached.
    type Last = ();
    type Stopped = ();

    /// The position lies within the slice.
    open spec fn inv(&self) -> bool {
        self.position() <= self.slice().len()
    }

    /// The items before the position.
    open spec fn produced(&self) -> Seq<T> {
        self.slice().take(self.position() as int)
    }

    /// The items from the position on.
    open spec fn exposed(&self) -> Seq<T> {
        self.slice().skip(self.position() as int)
    }

    open spec fn active(&self) -> bool {
        self.is_open()
    }

    /// The next item of the slice, or the end once all are produced.
    open spec fn produce_post(&self, next: Self, r: SequenceState<T, ()>) -> bool {
        &&& next.slice() == self.slice()
        &&& if self.position() < self.slice().len() {
            &&& r == SequenceState::<T, ()>::More(self.slice()[self.position() as int])
            &&& next.position() == self.position() + 1
            &&& next.is_open() == self.is_open()
        } else {
            &&& r == SequenceState::<T, ()>::Final(())
            &&& next.position() == self.position()
            &&& !next.is_open()
        }
    }

    /// Nothing to slurp: a slice is all there already.
    open spec fn slurp_post(&self, next: Self, r: Option<()>) -> bool {
        &&& r is None
        &&& next.slice() == self.slice()
        &&& next.position() == self.position()
        &&& next.is_open() == self.is_open()
    }

    /// Stopping only ends the sequence.
    open spec fn stop_post(&self, next: Self, reason: ()) -> bool {
        &&& next.slice() == self.slice()
        &&& next.position() == self.position()
        &&& !next.is_open()
    }

    fn produce(&mut self) -> (r: SequenceState<T, ()>)
        ensures
            final(self).slice() == old(self).slice(),
            old(self).position() < old(self).slice().len() ==> {
                &&& r == SequenceState::<T, ()>::More(old(self).slice()[old(self).position() as int])
                &&& final(self).position() == old(self).position() + 1
            },
            old(self).position() >= old(self).slice().len() ==> {
                &&& r == SequenceState::<T, ()>::Final(())
                &&& final(self).position() == old(self).position()
            },
    {
        if self.1 >= self.0.len() {
            self.2 = Ghost(false);
            SequenceState::Final(())
        } else {
            let item = self.0[self.1];
            self.1 = self.1 + 1;
            assert(self.0@.take(self.1 as int) =~= old(self).0@.take(old(self).1 as int).push(
                item,
            ));
            SequenceState::More(item)
        }
    }

    fn slurp(&mut self) -> (r: Option<()>)
        ensures
            r is None,
            final(self).slice() == old(self).slice(),
            final(self).position() == old(self).position(),
    {
        None
    }

    fn stop(&mut self, _reason: ())
        ensures
            final(self).slice() == old(self).slice(),
            final(self).position() == old(self).position(),
            !final(self).is_open(),
    {
        self.2 = Ghost(false);
    }
}

impl<'a, T: Copy> BulkProducer for Cursor_<'a, T> {
    /// The rest of the slice, or the end once all are produced.
    open spec fn producer_slots_post(&self, next: Self, r: SequenceState<Seq<T>, ()>) -> bool {
        &&& next.slice() == self.slice()
        &&& next.position() == self.position()
        &&& if self.position() < self.slice().len() {
            &&& r == SequenceState::<Seq<T>, ()>::More(self.slice().skip(self.position() as int))
            &&& next.is_open() == self.is_open()
        } else {
            &&& r == SequenceState::<Seq<T>, ()>::Final(())
            &&& !next.is_open()
        }
    }

    /// Moves the position on by `amount`.
    open spec fn did_produce_post(&self, next: Self, amount: nat) -> bool {
        &&& next.slice() == self.slice()
        &&& next.position() == self.position() + amount
        &&& next.is_open() == self.is_open()
    }

    fn producer_slots(&mut self) -> (r: SequenceState<&[T], ()>)
        ensures
            final(self).slice() == old(self).slice(),
            final(self).position() == old(self).position(),
            old(self).position() < old(self).slice().len() <==> r is More,
            r matches SequenceState::More(s) ==> s@ == old(self).slice().skip(
                old(self).position() as int,
            ),
    {
        if self.1 >= self.0.len() {
            self.2 = Ghost(false);
            SequenceState::Final(())
        } else {
            let s = vstd::slice::slice_subrange(self.0, self.1, self.0.len());
            assert(s@ =~= self.0@.skip(self.1 as int));
            SequenceState::More(s)
        }
    }

    fn did_produce(&mut self, amount: usize)
        ensures
            final(self).slice() == old(self).slice(),
            final(self).position() == old(self).position() + amount,
    {
        assert(self.1 + amount <= self.0@.len());
        assert(self.0@.len() == self.0.len());
        self.1 = self.1 + amount;
        assert(self.0@.take(self.1 as int) =~= old(self).0@.take(old(self).1 as int) + old(
            self,
        ).0@.skip(old(self).1 as int).take(amount as int));
        assert(old(self).0@.skip(old(self).1 as int).skip(amount as int) =~= self.0@.skip(
            self.1 as int,
        ));
    }
}

impl<'a, T: Copy> Producer for Cursor<'a, T> {
    type Repeated = T;
    /// Emitted when the end of the slice has been reached.
    type Last = ();
    type Stopped = ();

    /// The position lies within the slice.
    open spec fn inv(&self) -> bool {
        self.position() <= self.slice().len()
    }

    /// The items before the position.
    open spec fn produced(&self) -> Seq<T> {
        self.slice().take(self.position() as int)
    }

    /// The items from the position on.
    open spec fn exposed(&self) -> Seq<T> {
        self.slice().skip(self.position() as int)
    }

    open spec fn active(&self) -> bool {
        self.is_open()
    }

    /// The next item of the slice, or the end once all are produced.
    open spec fn produce_post(&self, next: Self, r: SequenceState<T, ()>) -> bool {
        &&& next.slice() == self.slice()
        &&& if self.position() < self.slice().len() {
            &&& r == SequenceState::<T, ()>::More(self.slice()[self.position() as int])
            &&& next.position() == self.position() + 1
            &&& next.is_open() == self.is_open()
        } else {
            &&& r == SequenceState::<T, ()>::Final(())
            &&& next.position() == self.position()
            &&& !next.is_open()
        }
    }

    /// Nothing to slurp: a slice is all there already.
    open spec fn slurp_post(&self, next: Self, r: Option<()>) -> bool {
        &&& r is None
        &&& next.slice() == self.slice()
        &&& next.position() == self.position()
        &&& next.is_open() == self.is_open()
    }

    /// Stopping only ends the sequence.
    open spec fn stop_post(&self, next: Self, reason: ()) -> bool {
        &&& next.slice() == self.slice()
        &&& next.position() == self.position()
        &&& !next.is_open()
    }

    fn produce(&mut self) -> (r: SequenceState<T, ()>)
        ensures
            final(self).slice() == old(self).slice(),
            old(self).position() < old(self).slice().len() ==> {
                &&& r == SequenceState::<T, ()>::More(old(self).slice()[old(self).position() as int])
                &&& final(self).position() == old(self).position() + 1
            },
            old(self).position() >= old(self).slice().len() ==> {
                &&& r == SequenceState::<T, ()>::Final(())
                &&& final(self).position() == old(self).position()
            },
    {
        self.0.produce()
    }

    fn slurp(&mut self) -> (r: Option<()>)
        ensures
            r is None,
            final(self).slice() == old(self).slice(),
            final(self).position() == old(self).position(),
    {
        self.0.slurp()
    }

    fn stop(&mut self, reason: ())
        ensures
            final(self).slice() == old(self).slice(),
            final(self).position() == old(self).position(),
            !final(self).is_open(),
    {
        self.0.stop(reason)
    }
}

impl<'a, T: Copy> BulkProducer for Cursor<'a, T> {
    /// The rest of the slice, or the end once all are produced.
    open spec fn producer_slots_post(&self, next: Self, r: SequenceState<Seq<T>, ()>) -> bool {
        &&& next.slice() == self.slice()
        &&& next.position() == self.position()
        &&& if self.position() < self.slice().len() {
            &&& r == SequenceState::<Seq<T>, ()>::More(self.slice().skip(self.position() as int))
            &&& next.is_open() == self.is_open()
        } else {
            &&& r == SequenceState::<Seq<T>, ()>::Final(())
            &&& !next.is_open()
        }
    }

    /// Moves the position on by `amount`.
    open spec fn did_produce_post(&self, next: Self, amount: nat) -> bool {
        &&& next.slice() == self.slice()
        &&& next.position() == self.position() + amount
        &&& next.is_open() == self.is_open()
    }

    fn producer_slots(&mut self) -> (r: SequenceState<&[T], ()>)
        ensures
            final(self).slice() == old(self).slice(),
            final(self).position() == old(self).position(),
            old(self).position() < old(self).slice().len() <==> r is More,
            r matches SequenceState::More(s) ==> s@ == old(self).slice().skip(
                old(self).position() as int,
            ),
    {
        self.0.producer_slots()
    }

    fn did_produce(&mut self, amount: usize)
        ensures
            final(self).slice() == old(self).slice(),
            final(self).position() == old(self).position() + amount,
    {
        self.0.did_produce(amount)
    }
}

/// Along a run of calls on a slice cursor, every state reads the same slice.
proof fn lemma_run_keeps_slice<'a, T: Copy>(path: Seq<Cursor<'a, T>>, k: int)
    requires
        producer_run(path),
        0 <= k < path.len(),
    ensures
        path[k].slice() == path[0].slice(),
    decreases k,
{
    if k > 0 {
        let j = k - 1;
        lemma_run_keeps_slice(path, j);
        assert(producer_step(path[j], path[j + 1]));
    }
}

/// Whatever calls are made on a slice cursor, it keeps reading the same
/// slice.
pub proof fn lemma_cursor_keeps_slice<'a, T: Copy>(a: Cursor<'a, T>, b: Cursor<'a, T>)
    requires
        producer_reaches(a, b),
    ensures
        b.slice() == a.slice(),
{
    let path = choose|path: Seq<Cursor<'a, T>>|
        #[trigger] producer_run(path) && path[0] == a && path.last() == b;
    lemma_run_keeps_slice(path, path.len() - 1);
}

/// A slice cursor produces the items of its slice in order and then ends:
/// while items remain, `produce` gives the first item not produced yet and the
/// items produced so far grow by it; it reports the end exactly when every
/// item has been produced; the slice never changes.
pub proof fn lemma_cursor_produces_in_order<'a, T: Copy>(
    c: Cursor<'a, T>,
    next: Cursor<'a, T>,
    r: SequenceState<T, ()>,
)
    requires
        c.inv(),
        c.produce_post(next, r),
    ensures
        next.slice() == c.slice(),
        r is Final <==> c.produced() == c.slice(),
        r matches SequenceState::More(x) ==> {
            &&& x == c.exposed()[0]
            &&& next.produced() == c.produced().push(x)
            &&& next.produced().is_prefix_of(c.slice())
            &&& next.exposed() == c.exposed().drop_first()
        },
{
    if c.produced() == c.slice() {
        assert(c.produced().len() == c.slice().len());
    }
    if r is More {
        assert(next.produced() =~= c.produced().push(c.slice()[c.position() as int]));
        assert(next.exposed() =~= c.exposed().drop_first());
    } else {
        assert(c.produced() =~= c.slice());
    }
}

/// A slice cursor exposes for bulk reading exactly the items not produced
/// yet, or reports the end exactly when there are none; taking `amount` of
/// them moves past exactly those.
pub proof fn lemma_cursor_exposes_the_rest<'a, T: Copy>(
    c: Cursor<'a, T>,
    next: Cursor<'a, T>,
    r: SequenceState<Seq<T>, ()>,
    amount: nat,
)
    requires
        c.inv(),
    ensures
        c.producer_slots_post(next, r) ==> {
            &&& (r is Final <==> c.produced() == c.slice())
            &&& r matches SequenceState::More(s) ==> c.produced() + s == c.slice()
        },
        c.did_produce_post(next, amount) && amount <= c.exposed().len() ==> next.produced()
            == c.produced() + c.exposed().take(amount as int),
{
    if c.produced() == c.slice() {
        assert(c.produced().len() == c.slice().len());
    } else {
        assert(c.produced() + c.exposed() =~= c.slice());
    }
    if c.did_produce_post(next, amount) && amount <= c.exposed().len() {
        assert(next.produced() =~= c.produced() + c.exposed().take(amount as int));
    }
}

} // verus!
