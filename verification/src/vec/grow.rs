//! Adding items in bulk, and the constructors and resizes that do so, each
//! making room as `reserve` or `reserve_exact` does.
use vstd::prelude::*;
use super::{backing_after, FileVec, OnClose};
use crate::capacity::{
    can_extend, can_reserve, can_reserve_exact, extended_cap, hint_reservation,
    lemma_reserve_exact_room, lemma_reserve_room, max_capacity, reserve_exact_target,
    reserve_target,
};
use crate::seqs::reversed;
use crate::range::{IndexRange, range_fits, range_start, range_stop};

verus! {

impl<E> FileVec<E> {
    /// Appends clones of the items of `slice`, after making room for them as
    /// `reserve` does.
    pub fn extend_from_slice(&mut self, slice: &[E]) where E: Clone
        requires
            old(self).wf(),
            can_reserve::<E>(old(self).cap(), old(self)@.len(), slice@.len()),
        ensures
            final(self).wf(),
            final(self).reserved_from(*old(self), slice@.len()),
            final(self)@.len() == old(self)@.len() + slice@.len(),
            forall|i: int| 0 <= i < old(self)@.len() ==> final(self)@[i] == old(self)@[i],
            forall|i: int|
                0 <= i < slice@.len() ==> cloned(slice@[i], #[trigger] final(self)@[old(self)@.len() + i]),
    {
        proof {
            self.lemma_wf();
            lemma_reserve_room::<E>(self.cap(), self@.len(), slice@.len());
        }
        let l: usize = slice.len();
        self.reserve(l);
        let ghost s0 = self@;
        let mut i: usize = 0;
        while i < l
            invariant
                self.wf(),
                self.reserved_from(*old(self), slice@.len()),
                l == slice@.len(),
                s0 == old(self)@,
                i <= l,
                self@.len() == s0.len() + i,
                s0.len() + l <= self.cap(),
                forall|k: int| 0 <= k < s0.len() ==> self@[k] == s0[k],
                forall|k: int| 0 <= k < i ==> cloned(slice@[k], #[trigger] self@[s0.len() + k]),
            decreases l - i,
        {
            let c = slice[i].clone();
            self.items.push(c);
            i = i + 1;
        }
    }

    /// Appends clones of the items in `range`, after making room for them as
    /// `reserve` does.
    pub fn extend_from_within<R: IndexRange>(&mut self, range: R) where E: Clone
        requires
            old(self).wf(),
            range_fits(range, old(self)@.len()),
            can_reserve::<E>(
                old(self).cap(),
                old(self)@.len(),
                (range_stop(range, old(self)@.len()) - range_start(range)) as nat,
            ),
        ensures
            final(self).wf(),
            final(self).reserved_from(
                *old(self),
                (range_stop(range, old(self)@.len()) - range_start(range)) as nat,
            ),
            final(self)@.len() == old(self)@.len() + range_stop(range, old(self)@.len())
                - range_start(range),
            forall|i: int| 0 <= i < old(self)@.len() ==> final(self)@[i] == old(self)@[i],
            forall|i: int|
                0 <= i < range_stop(range, old(self)@.len()) - range_start(range) ==> cloned(
                    old(self)@[range_start(range) + i],
                    #[trigger] final(self)@[old(self)@.len() + i],
                ),
    {
        let (start, stop) = crate::range::resolve(&range, self.items.len());
        proof {
            self.lemma_wf();
            lemma_reserve_room::<E>(self.cap(), self@.len(), (stop - start) as nat);
        }
        self.reserve(stop - start);
        let ghost s0 = self@;
        let mut k: usize = start;
        while k < stop
            invariant
                self.wf(),
                self.reserved_from(*old(self), (stop - start) as nat),
                s0 == old(self)@,
                start <= k <= stop <= s0.len(),
                self@.len() == s0.len() + (k - start),
                s0.len() + (stop - start) <= self.cap(),
                forall|j: int| 0 <= j < s0.len() ==> self@[j] == s0[j],
                forall|j: int|
                    0 <= j < k - start ==> cloned(s0[start + j], #[trigger] self@[s0.len() + j]),
            decreases stop - k,
        {
            let c = self.items[k].clone();
            self.items.push(c);
            k = k + 1;
        }
    }

    /// Appends the items of `items`. Where there are some, room is made for
    /// them first as `reserve_exact` does.
    pub fn extend(&mut self, items: Vec<E>)
        requires
            old(self).wf(),
            can_reserve_exact::<E>(old(self).cap(), old(self)@.len(), items@.len()),
        ensures
            final(self).wf(),
            final(self).reserved_exact_from(*old(self), items@.len()),
            final(self)@ == old(self)@ + items@,
    {
        proof {
            self.lemma_wf();
            lemma_reserve_exact_room::<E>(self.cap(), self@.len(), items@.len());
        }
        let mut items = items;
        if items.len() > 0 {
            self.reserve_exact(items.len());
        }
        self.items.append(&mut items);
    }

    /// Appends the items of `items`, which an iterator over them reports the
    /// size hint `(low, high)` for. Room is made before the first item and
    /// again whenever the buffer is full: where the hint is exact (`high` is
    /// `low`, and `low` is not zero) as `reserve_exact(low)` does; otherwise as
    /// `reserve` does for the upper bound, or, where there is none, for as
    /// many items as fit in ten billion bytes, kept between one and that many.
    pub fn extend_with_hint(&mut self, items: Vec<E>, low: usize, high: Option<usize>)
        requires
            old(self).wf(),
            can_extend::<E>(old(self).cap(), old(self)@.len(), items@.len(), true, low, high),
        ensures
            final(self).wf(),
            final(self)@ == old(self)@ + items@,
            final(self).cap() == extended_cap::<E>(
                old(self).cap(),
                old(self)@.len(),
                items@.len(),
                true,
                low,
                high,
            ),
            backing_after(old(self).backing(), final(self).cap() > old(self).cap(), final(self).backing()),
            final(self).on_close() == old(self).on_close(),
            final(self).serializes() == old(self).serializes(),
    {
        let ghost v0 = *self;
        let ghost s = items@;
        let n: usize = items.len();
        let mut pending = reversed(items);
        let mut fresh: bool = true;
        proof {
            assert(s.take(0) =~= Seq::<E>::empty());
            assert(v0@ + s.take(0) =~= v0@);
        }
        while pending.len() > 0
            invariant
                self.wf(),
                v0.wf(),
                n == s.len(),
                pending@.len() <= n,
                forall|k: int| 0 <= k < pending@.len() ==> pending@[k] == s[n - 1 - k],
                self@ == v0@ + s.take(n - pending@.len()),
                fresh ==> pending@.len() == n && self.cap() == v0.cap(),
                extended_cap::<E>(v0.cap(), v0@.len(), n as nat, true, low, high) == extended_cap::<E>(
                    self.cap(),
                    self@.len(),
                    pending@.len() as nat,
                    fresh,
                    low,
                    high,
                ),
                can_extend::<E>(self.cap(), self@.len(), pending@.len() as nat, fresh, low, high),
                self.cap() >= v0.cap(),
                backing_after(v0.backing(), self.cap() > v0.cap(), self.backing()),
                self.on_close() == v0.on_close(),
                self.serializes() == v0.serializes(),
            decreases pending@.len(),
        {
            proof {
                self.lemma_wf();
                v0.lemma_wf();
            }
            let ghost before = *self;
            if fresh || self.cap <= self.items.len() {
                let (exact, amount) = hint_reservation::<E>(low, high).unwrap();
                if exact {
                    proof {
                        lemma_reserve_exact_room::<E>(self.cap(), self@.len(), amount as nat);
                    }
                    self.reserve_exact(amount);
                } else {
                    proof {
                        lemma_reserve_room::<E>(self.cap(), self@.len(), amount as nat);
                        crate::capacity::lemma_pow2_at_least(
                            crate::capacity::required(self@.len(), amount as nat),
                        );
                    }
                    self.reserve(amount);
                }
            }
            proof {
                self.lemma_wf();
            }
            fresh = false;
            let x = pending.pop().unwrap();
            let ghost i = n - pending@.len() - 1;
            proof {
                assert(x == s[i]);
                assert(s.take(i + 1) =~= s.take(i).push(x));
            }
            self.items.push(x);
            proof {
                assert(self@ =~= v0@ + s.take(i + 1));
            }
        }
        proof {
            assert(s.take(n as int) =~= s);
        }
    }

    /// Moves all the items of `other` to the end, after making room for them
    /// as `reserve` does; `other` is left empty, with its buffer.
    pub fn append(&mut self, other: &mut Self)
        requires
            old(self).wf(),
            old(other).wf(),
            can_reserve::<E>(old(self).cap(), old(self)@.len(), old(other)@.len()),
        ensures
            final(self).wf(),
            final(other).wf(),
            old(self).appended(*old(other), *final(self), *final(other)),
    {
        proof {
            self.lemma_wf();
            lemma_reserve_room::<E>(self.cap(), self@.len(), other@.len());
        }
        self.reserve(other.items.len());
        self.items.append(&mut other.items);
    }

    /// Splits off the items from position `at` on into a new vector, which
    /// gets a buffer of exactly their number and a fresh backing file (none if
    /// there are no such items); this vector keeps its buffer.
    pub fn split_off(&mut self, at: usize) -> (v: Self)
        requires
            old(self).wf(),
            at <= old(self)@.len(),
        ensures
            final(self).wf(),
            v.wf(),
            old(self).split_at(at as int, *final(self), v),
    {
        proof { self.lemma_wf(); }
        let rest = self.items.split_off(at);
        let mut v = Self::new();
        v.extend(rest);
        v
    }

    /// A vector holding clones of the items of `slice`, with a buffer of
    /// exactly their number and a fresh backing file (none if there are no
    /// items).
    pub fn from_slice(slice: &[E]) -> (v: Self) where E: Clone
        requires
            vstd::layout::size_of::<E>() > 0,
            slice@.len() <= max_capacity::<E>(),
        ensures
            v.wf(),
            v@.len() == slice@.len(),
            forall|i: int| 0 <= i < slice@.len() ==> cloned(slice@[i], #[trigger] v@[i]),
            v.cap() == slice@.len(),
            backing_after(None, slice@.len() > 0, v.backing()),
            v.on_close() == OnClose::Delete,
            !v.serializes(),
    {
        let mut clones: Vec<E> = Vec::new();
        let mut i: usize = 0;
        while i < slice.len()
            invariant
                i <= slice@.len(),
                clones@.len() == i,
                forall|k: int| 0 <= k < i ==> cloned(slice@[k], #[trigger] clones@[k]),
            decreases slice@.len() - i,
        {
            clones.push(slice[i].clone());
            i = i + 1;
        }
        let mut v = Self::new();
        proof { v.lemma_wf(); }
        v.extend(clones);
        v
    }

    /// A vector of `length` items, the item at each position `i` made by
    /// `f(i)`, first to last, with a buffer of exactly `length` items and a
    /// fresh backing file (none if `length` is zero).
    pub fn from_fn<F: FnMut(usize) -> E>(length: usize, f: F) -> (v: Self)
        requires
            vstd::layout::size_of::<E>() > 0,
            length <= max_capacity::<E>(),
            forall|i: usize| i < length ==> f.requires((i,)),
        ensures
            v.wf(),
            v@.len() == length,
            forall|i: int| 0 <= i < length ==> f.ensures((i as usize,), #[trigger] v@[i]),
            v.cap() == length,
            backing_after(None, length > 0, v.backing()),
            v.on_close() == OnClose::Delete,
            !v.serializes(),
    {
        let mut f = f;
        let ghost f0 = f;
        let mut made: Vec<E> = Vec::new();
        let mut i: usize = 0;
        while i < length
            invariant
                f == f0,
                forall|k: usize| k < length ==> f0.requires((k,)),
                i <= length,
                made@.len() == i,
                forall|k: int| 0 <= k < i ==> f0.ensures((k as usize,), #[trigger] made@[k]),
            decreases length - i,
        {
            let x = f(i);
            made.push(x);
            i = i + 1;
        }
        let mut v = Self::new();
        proof { v.lemma_wf(); }
        v.extend(made);
        v
    }

    /// Shrinks the buffer to hold `mincap` items, or the items there are if
    /// that is more; a buffer already that small stays.
    pub fn shrink_to(&mut self, mincap: usize)
        requires
            old(self).wf(),
        ensures
            final(self).wf(),
            final(self)@ == old(self)@,
            final(self).backing() == old(self).backing(),
            final(self).on_close() == old(self).on_close(),
            final(self).serializes() == old(self).serializes(),
            final(self).cap() == (if mincap >= old(self).cap() {
                old(self).cap()
            } else if mincap < old(self)@.len() {
                old(self)@.len()
            } else {
                mincap as nat
            }),
    {
        let mut mincap = mincap;
        if mincap >= self.cap {
            return;
        }
        if mincap < self.items.len() {
            mincap = self.items.len();
        }
        self.cap = mincap;
    }

    /// Shrinks the buffer to hold exactly the items there are.
    pub fn shrink_to_fit(&mut self)
        requires
            old(self).wf(),
        ensures
            final(self).wf(),
            final(self)@ == old(self)@,
            final(self).backing() == old(self).backing(),
            final(self).on_close() == old(self).on_close(),
            final(self).serializes() == old(self).serializes(),
            final(self).cap() == old(self)@.len(),
    {
        proof { self.lemma_wf(); }
        let n: usize = self.items.len();
        self.shrink_to(n);
    }

    /// Grows or shrinks the vector to `len` items: shrinking drops the last
    /// items; growing appends clones of `val` and then `val` itself, making
    /// room first as `extend` does for the clones and as `push` does for
    /// `val`.
    pub fn resize(&mut self, len: usize, val: E) where E: Clone
        requires
            old(self).wf(),
            len > old(self)@.len() ==> can_resize::<E>(old(self).cap(), old(self)@.len(), len as nat),
        ensures
            final(self).wf(),
            final(self).on_close() == old(self).on_close(),
            final(self).serializes() == old(self).serializes(),
            len <= old(self)@.len() ==> final(self).same_buffer(*old(self)) && final(self)@
                == old(self)@.subrange(0, len as int),
            len > old(self)@.len() ==> {
                &&& final(self)@.len() == len
                &&& forall|i: int| 0 <= i < old(self)@.len() ==> final(self)@[i] == old(self)@[i]
                &&& forall|i: int|
                    old(self)@.len() <= i < len - 1 ==> cloned(val, #[trigger] final(self)@[i])
                &&& final(self)@[len - 1] == val
                &&& final(self).cap() == resize_target(old(self).cap(), old(self)@.len(), len as nat)
                &&& backing_after(old(self).backing(), true, final(self).backing())
            },
    {
        let n: usize = self.items.len();
        if len < n {
            self.truncate(len);
            return;
        } else if len == n {
            return;
        }
        proof {
            self.lemma_wf();
            lemma_reserve_exact_room::<E>(self.cap(), n as nat, (len - 1 - n) as nat);
        }
        let mut clones: Vec<E> = Vec::new();
        let mut i: usize = n;
        while i < len - 1
            invariant
                n <= i <= len - 1,
                clones@.len() == i - n,
                forall|k: int| 0 <= k < i - n ==> cloned(val, #[trigger] clones@[k]),
            decreases len - 1 - i,
        {
            clones.push(val.clone());
            i = i + 1;
        }
        self.extend(clones);
        proof {
            self.lemma_wf();
            lemma_reserve_room::<E>(self.cap(), self@.len(), 1);
        }
        self.push(val);
    }

    /// Grows or shrinks the vector to `len` items: shrinking drops the last
    /// items; growing appends items made by `f`, after making room for them as
    /// `extend` does.
    pub fn resize_with<F: FnMut() -> E>(&mut self, len: usize, f: F)
        requires
            old(self).wf(),
            len > old(self)@.len() ==> can_reserve_exact::<E>(
                old(self).cap(),
                old(self)@.len(),
                (len - old(self)@.len()) as nat,
            ),
            f.requires(()),
        ensures
            final(self).wf(),
            final(self).on_close() == old(self).on_close(),
            final(self).serializes() == old(self).serializes(),
            len <= old(self)@.len() ==> final(self).same_buffer(*old(self)) && final(self)@
                == old(self)@.subrange(0, len as int),
            len > old(self)@.len() ==> {
                &&& final(self)@.len() == len
                &&& forall|i: int| 0 <= i < old(self)@.len() ==> final(self)@[i] == old(self)@[i]
                &&& forall|i: int|
                    old(self)@.len() <= i < len ==> f.ensures((), #[trigger] final(self)@[i])
                &&& final(self).reserved_exact_from(*old(self), (len - old(self)@.len()) as nat)
            },
    {
        let n: usize = self.items.len();
        if len < n {
            self.truncate(len);
            return;
        } else if len == n {
            return;
        }
        let mut f = f;
        let ghost f0 = f;
        let mut made: Vec<E> = Vec::new();
        let mut i: usize = n;
        while i < len
            invariant
                f == f0,
                f0.requires(()),
                n <= i <= len,
                made@.len() == i - n,
                forall|k: int| 0 <= k < i - n ==> f0.ensures((), #[trigger] made@[k]),
            decreases len - i,
        {
            made.push(f());
            i = i + 1;
        }
        self.extend(made);
    }

    /// A vector holding clones of the items, with the same close behavior and
    /// serialization, a
    /// buffer of exactly their number and a fresh backing file (none if there
    /// are no items).
    pub fn clone(&self) -> (v: Self) where E: Clone
        requires
            self.wf(),
            can_reserve::<E>(0, 0, self@.len()),
        ensures
            v.wf(),
            v@.len() == self@.len(),
            forall|i: int| 0 <= i < self@.len() ==> cloned(self@[i], #[trigger] v@[i]),
            v.cap() == reserve_target(0, 0, self@.len()),
            backing_after(None, self@.len() > 0, v.backing()),
            v.on_close() == self.on_close(),
            v.serializes() == self.serializes(),
    {
        proof { self.lemma_wf(); }
        let mut v = Self::new();
        v.clone_from(self);
        v
    }

    /// Drops the items and takes clones of the items of `other`, after making
    /// room for them as `reserve` does, and its close behavior and
    /// serialization.
    pub fn clone_from(&mut self, other: &Self) where E: Clone
        requires
            old(self).wf(),
            other.wf(),
            can_reserve::<E>(old(self).cap(), 0, other@.len()),
        ensures
            final(self).wf(),
            final(self)@.len() == other@.len(),
            forall|i: int| 0 <= i < other@.len() ==> cloned(other@[i], #[trigger] final(self)@[i]),
            final(self).cap() == reserve_target(old(self).cap(), 0, other@.len()),
            backing_after(old(self).backing(), other@.len() > old(self).cap(), final(self).backing()),
            final(self).on_close() == other.on_close(),
            final(self).serializes() == other.serializes(),
    {
        self.clear();
        self.closebehavior = other.closebehavior.clone();
        self.extend_from_slice(other.items.as_slice());
        self.serial = other.serial;
        assert forall|i: int| 0 <= i < other@.len() implies cloned(
            other@[i],
            #[trigger] self@[i],
        ) by {
            assert(self@[0 + i] == self@[i]);
        }
    }
}

/// Whether `resize` to `len` items can be met: the clones fit as
/// `reserve_exact` makes room, and then the last item as `reserve` does.
pub open spec fn can_resize<E>(cap: nat, len: nat, new_len: nat) -> bool {
    let clones = (new_len - 1 - len) as nat;
    let c1 = if clones > 0 { reserve_exact_target(cap, len, clones) } else { cap };
    &&& (clones > 0 ==> can_reserve_exact::<E>(cap, len, clones))
    &&& can_reserve::<E>(c1, (new_len - 1) as nat, 1)
}

/// The capacity `resize` to `new_len` items leaves.
pub open spec fn resize_target(cap: nat, len: nat, new_len: nat) -> nat {
    let clones = (new_len - 1 - len) as nat;
    let c1 = if clones > 0 { reserve_exact_target(cap, len, clones) } else { cap };
    reserve_target(c1, (new_len - 1) as nat, 1)
}

} // verus!
