//! Iterators that take items out of a vector: `Drain` takes a range out at
//! once, `ExtractIf` takes out, one at a time, the items a predicate picks.
use vstd::prelude::*;
use crate::range::{IndexRange, range_fits, range_start, range_stop, resolve};
use crate::vec::FileVec;
use crate::seqs::between;

verus! {

/// The items taken out of a range of a vector, yielded from either end. The
/// vector has already closed the gap; `keep_rest` puts the items not yet
/// yielded back where they stood.
pub struct Drain<'a, E> {
    /// The vector the items were taken from.
    pub vec: &'a mut FileVec<E>,
    /// The taken items not yet yielded, in their order.
    pub items: Vec<E>,
    /// Where the taken items stood in the vector.
    pub start: usize,
}

impl<'a, E> Drain<'a, E> {
    /// The vector is well formed, the taken items' place lies within it, and
    /// its buffer still has room for them.
    pub open spec fn wf(&self) -> bool {
        &&& (*self.vec).wf()
        &&& self.start <= (*self.vec)@.len()
        &&& (*self.vec)@.len() + self.items@.len() <= (*self.vec).cap()
    }

    /// The vector as it stands now.
    pub open spec fn vec_now(self) -> FileVec<E> {
        *self.vec
    }

    /// `self` is what `drain(range)` makes of `before`: the items in the
    /// range are taken out, and the vector has closed the gap.
    pub open spec fn took<R: IndexRange>(self, before: FileVec<E>, range: R) -> bool {
        &&& self.start == range_start(range)
        &&& self.items@ == before@.subrange(
            range_start(range) as int,
            range_stop(range, before@.len()) as int,
        )
        &&& (*self.vec)@ == before@.subrange(0, range_start(range) as int) + before@.subrange(
            range_stop(range, before@.len()) as int,
            before@.len() as int,
        )
        &&& (*self.vec).same_buffer(before)
    }

    /// `after` is what `keep_rest()` leaves of `self`: the items not yet
    /// yielded are back in the vector where they stood.
    pub open spec fn rest_kept(self, after: Self) -> bool {
        &&& after.start == self.start
        &&& after.items@ == Seq::<E>::empty()
        &&& (*after.vec)@ == (*self.vec)@.subrange(0, self.start as int) + self.items@ + (*self.vec)@.subrange(
            self.start as int,
            (*self.vec)@.len() as int,
        )
        &&& (*after.vec).same_buffer(*self.vec)
    }

    /// Takes the items in `range` out of `file`.
    pub fn new<R: IndexRange>(file: &'a mut FileVec<E>, range: R) -> (d: Self)
        requires
            old(file).wf(),
            range_fits(range, old(file)@.len()),
        ensures
            d.wf(),
            d.took(*old(file), range),
            *final(file) == *final(d.vec),
    {
        proof { file.lemma_wf(); }
        let (start, stop) = resolve(&range, file.len());
        let items = file.take_range(start, stop);
        Drain { vec: file, items, start }
    }

    /// The number of items not yet yielded.
    pub fn len(&self) -> (n: usize)
        ensures
            n == self.items@.len(),
    {
        self.items.len()
    }

    /// How many items are still to come, at least and at most.
    pub fn size_hint(&self) -> (r: (usize, Option<usize>))
        ensures
            r.0 == self.items@.len(),
            r.1 == Some(self.items@.len() as usize),
    {
        let n: usize = self.items.len();
        (n, Some(n))
    }

    /// The items not yet yielded.
    pub fn as_slice(&self) -> (s: &[E])
        ensures
            s@ == self.items@,
    {
        self.items.as_slice()
    }

    /// The items not yet yielded, mutably.
    pub fn as_mut_slice(&mut self) -> (s: &mut [E])
        requires
            old(self).wf(),
        ensures
            s@ == old(self).items@,
            final(self).items@ == final(s)@,
            final(self).vec == old(self).vec,
            final(self).start == old(self).start,
            final(s)@.len() == old(self).items@.len() ==> final(self).wf(),
    {
        self.items.as_mut_slice()
    }

    /// Yields the first item not yet yielded.
    pub fn next(&mut self) -> (r: Option<E>)
        requires
            old(self).wf(),
        ensures
            final(self).wf(),
            final(self).vec == old(self).vec,
            final(self).start == old(self).start,
            old(self).items@.len() == 0 ==> r is None && final(self).items@ == old(self).items@,
            old(self).items@.len() > 0 ==> r == Some(old(self).items@[0]) && final(self).items@
                == old(self).items@.drop_first(),
    {
        if self.items.len() == 0 {
            None
        } else {
            Some(self.items.remove(0))
        }
    }

    /// Yields the last item not yet yielded.
    pub fn next_back(&mut self) -> (r: Option<E>)
        requires
            old(self).wf(),
        ensures
            final(self).wf(),
            final(self).vec == old(self).vec,
            final(self).start == old(self).start,
            old(self).items@.len() == 0 ==> r is None && final(self).items@ == old(self).items@,
            old(self).items@.len() > 0 ==> r == Some(old(self).items@.last()) && final(self).items@
                == old(self).items@.drop_last(),
    {
        self.items.pop()
    }

    /// Drops the first `n` items not yet yielded and yields the one after
    /// them; none, with everything dropped, if there are not that many.
    pub fn nth(&mut self, n: usize) -> (r: Option<E>)
        requires
            old(self).wf(),
        ensures
            final(self).wf(),
            final(self).vec == old(self).vec,
            final(self).start == old(self).start,
            n < old(self).items@.len() ==> r == Some(old(self).items@[n as int]) && final(self).items@
                == old(self).items@.subrange(n + 1, old(self).items@.len() as int),
            n >= old(self).items@.len() ==> r is None && final(self).items@ == Seq::<E>::empty(),
    {
        if n >= self.items.len() {
            self.items.clear();
            return None;
        }
        let mut rest = self.items.split_off(n);
        std::mem::swap(&mut self.items, &mut rest);
        self.next()
    }

    /// Drops the last `n` items not yet yielded and yields the one before
    /// them; none, with everything dropped, if there are not that many.
    pub fn nth_back(&mut self, n: usize) -> (r: Option<E>)
        requires
            old(self).wf(),
        ensures
            final(self).wf(),
            final(self).vec == old(self).vec,
            final(self).start == old(self).start,
            n < old(self).items@.len() ==> r == Some(
                old(self).items@[old(self).items@.len() - 1 - n],
            ) && final(self).items@ == old(self).items@.subrange(
                0,
                old(self).items@.len() - 1 - n,
            ),
            n >= old(self).items@.len() ==> r is None && final(self).items@ == Seq::<E>::empty(),
    {
        if n >= self.items.len() {
            self.items.clear();
            return None;
        }
        let keep: usize = self.items.len() - n;
        self.items.truncate(keep);
        self.next_back()
    }

    /// Puts the items not yet yielded back into the vector where they stood;
    /// nothing is left to yield.
    pub fn keep_rest(&mut self)
        requires
            old(self).wf(),
        ensures
            final(self).wf(),
            old(self).rest_kept(*final(self)),
            *final(final(self).vec) == *final(old(self).vec),
    {
        let mut rest: Vec<E> = Vec::new();
        std::mem::swap(&mut self.items, &mut rest);
        self.vec.put_back(self.start, rest);
    }
}

/// Takes out, one at a time from either end of a range of a vector, the
/// items that a predicate picks. Each item of the range is handed to the
/// predicate once, which may change it; the items it does not pick stay in
/// the vector, in their order.
pub struct ExtractIf<'a, E, F> {
    /// The vector the items are taken from.
    pub vec: &'a mut FileVec<E>,
    /// The predicate.
    pub f: F,
    /// The first position not yet handed to the predicate.
    pub front: usize,
    /// The position after the last one not yet handed to the predicate.
    pub back: usize,
}

impl<'a, E, F: FnMut(&mut E) -> bool> ExtractIf<'a, E, F> {
    /// The vector is well formed and the positions not yet handed to the
    /// predicate lie within it.
    pub open spec fn wf(&self) -> bool {
        &&& (*self.vec).wf()
        &&& self.front <= self.back <= (*self.vec)@.len()
    }

    /// Prepares to take out of `vec`, within `range`, the items that `f`
    /// picks.
    pub fn new<R: IndexRange>(vec: &'a mut FileVec<E>, range: R, f: F) -> (x: Self)
        requires
            old(vec).wf(),
            range_fits(range, old(vec)@.len()),
        ensures
            x.wf(),
            x.f == f,
            x.front == range_start(range),
            x.back == range_stop(range, old(vec)@.len()),
            *x.vec == *old(vec),
            *final(vec) == *final(x.vec),
    {
        let (start, stop) = resolve(&range, vec.len());
        ExtractIf { vec, f, front: start, back: stop }
    }

    /// The number of items not yet handed to the predicate: at most this many
    /// are still to come.
    pub fn remaining(&self) -> (n: usize)
        requires
            self.wf(),
        ensures
            n == self.back - self.front,
    {
        self.back - self.front
    }

    /// How many items are still to come, at least and at most: none may be
    /// picked, and every item not yet handed to the predicate may be.
    pub fn size_hint(&self) -> (r: (usize, Option<usize>))
        requires
            self.wf(),
        ensures
            r.0 == 0,
            r.1 == Some((self.back - self.front) as usize),
    {
        (0, Some(self.back - self.front))
    }

    /// Hands the items not yet seen to the predicate from the front, and takes
    /// out and yields the first it picks; none once it has picked none.
    pub fn next(&mut self) -> (r: Option<E>)
        requires
            old(self).wf(),
            forall|x: &mut E| old(self).f.requires((x,)),
        ensures
            final(self).wf(),
            final(self).f == old(self).f,
            *final(final(self).vec) == *final(old(self).vec),
            (*final(self).vec).same_buffer(*old(self).vec),
            forall|i: int|
                0 <= i < old(self).front ==> (*final(self).vec)@[i] == (*old(self).vec)@[i],
            match r {
                None => {
                    &&& final(self).front == old(self).back
                    &&& final(self).back == old(self).back
                    &&& (*final(self).vec)@.len() == (*old(self).vec)@.len()
                    &&& forall|i: int|
                        old(self).back <= i < (*old(self).vec)@.len() ==> (*final(self).vec)@[i]
                            == (*old(self).vec)@[i]
                    &&& forall|i: int|
                        #[trigger] between(old(self).front as int, i, old(self).back as int)
                            ==> exists|x: &mut E|
                            {
                                &&& *x == (*old(self).vec)@[i]
                                &&& *final(x) == (*final(self).vec)@[i]
                                &&& #[trigger] old(self).f.ensures((x,), false)
                            }
                },
                Some(y) => {
                    &&& old(self).front <= final(self).front < old(self).back
                    &&& final(self).back == old(self).back - 1
                    &&& (*final(self).vec)@.len() == (*old(self).vec)@.len() - 1
                    &&& forall|i: int|
                        final(self).front < i < (*old(self).vec)@.len() ==> (*final(self).vec)@[i
                            - 1] == (*old(self).vec)@[i]
                    &&& forall|i: int|
                        #[trigger] between(old(self).front as int, i, final(self).front as int)
                            ==> exists|x: &mut E|
                            {
                                &&& *x == (*old(self).vec)@[i]
                                &&& *final(x) == (*final(self).vec)@[i]
                                &&& #[trigger] old(self).f.ensures((x,), false)
                            }
                    &&& exists|x: &mut E|
                        {
                            &&& *x == (*old(self).vec)@[final(self).front as int]
                            &&& *final(x) == y
                            &&& #[trigger] old(self).f.ensures((x,), true)
                        }
                },
            },
    {
        let ghost before = *self.vec;
        let ghost f0 = self.f;
        let ghost front0 = self.front as int;
        let mut i: usize = self.front;
        while i < self.back
            invariant
                self.wf(),
                self.f == f0,
                f0 == old(self).f,
                before == *old(self).vec,
                front0 == old(self).front,
                self.back == old(self).back,
                forall|x: &mut E| f0.requires((x,)),
                *final(self.vec) == *final(old(self).vec),
                (*self.vec).same_buffer(before),
                self.front == front0,
                front0 <= i <= self.back,
                (*self.vec)@.len() == before@.len(),
                forall|j: int|
                    0 <= j < front0 || i <= j < before@.len() ==> (*self.vec)@[j] == before@[j],
                forall|j: int|
                    #[trigger] between(front0, j, i as int) ==> exists|x: &mut E|
                        {
                            &&& *x == before@[j]
                            &&& *final(x) == (*self.vec)@[j]
                            &&& #[trigger] f0.ensures((x,), false)
                        },
            decreases self.back - i,
        {
            let ghost vs = (*self.vec)@;
            let item = self.vec.item_mut(i);
            let picked: bool = (self.f)(item);
            if picked {
                let ghost mid = (*self.vec)@;
                let y = self.vec.remove(i);
                self.front = i;
                self.back = self.back - 1;
                assert forall|j: int| #[trigger] between(front0, j, i as int) implies exists|x: &mut E|
                    {
                        &&& *x == before@[j]
                        &&& *final(x) == (*self.vec)@[j]
                        &&& #[trigger] f0.ensures((x,), false)
                    } by {
                    assert((*self.vec)@[j] == mid[j]);
                    assert(mid[j] == vs[j]);
                }
                return Some(y);
            }
            proof {
                assert forall|j: int| #[trigger] between(front0, j, i + 1) implies exists|x: &mut E|
                    {
                        &&& *x == before@[j]
                        &&& *final(x) == (*self.vec)@[j]
                        &&& #[trigger] f0.ensures((x,), false)
                    } by {
                    if j < i {
                        assert(between(front0, j, i as int));
                        assert((*self.vec)@[j] == vs[j]);
                    }
                }
            }
            i = i + 1;
        }
        self.front = self.back;
        None
    }

    /// Hands the items not yet seen to the predicate from the back, and takes
    /// out and yields the first it picks; none once it has picked none.
    pub fn next_back(&mut self) -> (r: Option<E>)
        requires
            old(self).wf(),
            forall|x: &mut E| old(self).f.requires((x,)),
        ensures
            final(self).wf(),
            final(self).f == old(self).f,
            *final(final(self).vec) == *final(old(self).vec),
            (*final(self).vec).same_buffer(*old(self).vec),
            final(self).front == old(self).front,
            match r {
                None => {
                    &&& final(self).back == old(self).front
                    &&& (*final(self).vec)@.len() == (*old(self).vec)@.len()
                    &&& forall|i: int|
                        0 <= i < old(self).front || old(self).back <= i < (*old(self).vec)@.len()
                            ==> (*final(self).vec)@[i] == (*old(self).vec)@[i]
                    &&& forall|i: int|
                        #[trigger] between(old(self).front as int, i, old(self).back as int)
                            ==> exists|x: &mut E|
                            {
                                &&& *x == (*old(self).vec)@[i]
                                &&& *final(x) == (*final(self).vec)@[i]
                                &&& #[trigger] old(self).f.ensures((x,), false)
                            }
                },
                Some(y) => {
                    &&& old(self).front <= final(self).back < old(self).back
                    &&& (*final(self).vec)@.len() == (*old(self).vec)@.len() - 1
                    &&& forall|i: int|
                        0 <= i < final(self).back ==> (*final(self).vec)@[i] == (*old(self).vec)@[i]
                    &&& forall|i: int|
                        old(self).back <= i < (*old(self).vec)@.len() ==> (*final(self).vec)@[i
                            - 1] == (*old(self).vec)@[i]
                    &&& forall|i: int|
                        #[trigger] between(final(self).back + 1, i, old(self).back as int)
                            ==> exists|x: &mut E|
                            {
                                &&& *x == (*old(self).vec)@[i]
                                &&& *final(x) == (*final(self).vec)@[i - 1]
                                &&& #[trigger] old(self).f.ensures((x,), false)
                            }
                    &&& exists|x: &mut E|
                        {
                            &&& *x == (*old(self).vec)@[final(self).back as int]
                            &&& *final(x) == y
                            &&& #[trigger] old(self).f.ensures((x,), true)
                        }
                },
            },
    {
        let ghost before = *self.vec;
        let ghost f0 = self.f;
        let ghost back0 = self.back as int;
        let mut i: usize = self.back;
        while self.front < i
            invariant
                self.wf(),
                self.f == f0,
                f0 == old(self).f,
                before == *old(self).vec,
                back0 == old(self).back,
                self.front == old(self).front,
                self.back == old(self).back,
                forall|x: &mut E| f0.requires((x,)),
                *final(self.vec) == *final(old(self).vec),
                (*self.vec).same_buffer(before),
                self.front <= i <= back0,
                (*self.vec)@.len() == before@.len(),
                forall|j: int|
                    0 <= j < i || back0 <= j < before@.len() ==> (*self.vec)@[j] == before@[j],
                forall|j: int|
                    #[trigger] between(i as int, j, back0) ==> exists|x: &mut E|
                        {
                            &&& *x == before@[j]
                            &&& *final(x) == (*self.vec)@[j]
                            &&& #[trigger] f0.ensures((x,), false)
                        },
            decreases i,
        {
            i = i - 1;
            let ghost vs = (*self.vec)@;
            let item = self.vec.item_mut(i);
            let picked: bool = (self.f)(item);
            if picked {
                let ghost mid = (*self.vec)@;
                let y = self.vec.remove(i);
                self.back = i;
                assert forall|j: int| #[trigger] between(i + 1, j, back0) implies exists|x: &mut E|
                    {
                        &&& *x == before@[j]
                        &&& *final(x) == (*self.vec)@[j - 1]
                        &&& #[trigger] f0.ensures((x,), false)
                    } by {
                    assert(between(i + 1, j, back0));
                    assert(between((i + 1) as int, j, back0));
                    assert((*self.vec)@[j - 1] == mid[j]);
                    assert(mid[j] == vs[j]);
                }
                return Some(y);
            }
            proof {
                assert forall|j: int| #[trigger] between(i as int, j, back0) implies exists|x: &mut E|
                    {
                        &&& *x == before@[j]
                        &&& *final(x) == (*self.vec)@[j]
                        &&& #[trigger] f0.ensures((x,), false)
                    } by {
                    if j > i {
                        assert(between((i + 1) as int, j, back0));
                        assert((*self.vec)@[j] == vs[j]);
                    }
                }
            }
        }
        self.back = self.front;
        None
    }
}

} // verus!
