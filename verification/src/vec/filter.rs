//! Keeping some of the items: `retain`, `retain_mut` and the `dedup`
//! family, each of which hands the items to a predicate first to last.
use vstd::prelude::*;
use vstd::std_specs::cmp::PartialEqSpec;
use super::FileVec;
use crate::seqs::{
    between, kept, lemma_kept_extend, lemma_kept_flags, lemma_kept_len, lemma_kept_more_flags,
    lemma_kept_push, lemma_kept_step, negated, reversed,
};

verus! {

/// `after` is what removing from `before` each item equal (by `==`) to the
/// item before it leaves. Which items `==` deems equal is known only where
/// `E`'s `==` follows its specification.
pub open spec fn deduplicated<E: PartialEq>(before: Seq<E>, after: Seq<E>) -> bool {
    &&& before.len() <= 1 ==> after == before
    &&& before.len() > 1 ==> exists|dup: Seq<bool>|
        #![trigger kept(before, negated(dup))]
        {
            &&& dup.len() == before.len()
            &&& !dup[0]
            &&& forall|i: int|
                #[trigger] between(1, i, before.len() as int) ==> (E::obeys_eq_spec() ==> dup[i]
                    == before[i].eq_spec(&before[i - 1]))
            &&& after == kept(before, negated(dup))
        }
}

impl<E> FileVec<E> {
    /// Keeps the items that `f` says to keep, in their order, and drops the
    /// others. Each item is handed to `f` once, first to last.
    pub fn retain<F: FnMut(&E) -> bool>(&mut self, f: F)
        requires
            old(self).wf(),
            forall|x: &E| f.requires((x,)),
        ensures
            final(self).wf(),
            final(self).same_buffer(*old(self)),
            exists|keep: Seq<bool>|
                {
                    &&& #[trigger] keep.len() == old(self)@.len()
                    &&& forall|i: int|
                        #[trigger] between(0, i, old(self)@.len() as int) ==> f.ensures(
                            (&old(self)@[i],),
                            keep[i],
                        )
                    &&& final(self)@ == kept(old(self)@, keep)
                },
    {
        let mut f = f;
        let ghost f0 = f;
        let ghost s0 = self@;
        let n: usize = self.items.len();
        let mut src: Vec<E> = Vec::new();
        std::mem::swap(&mut self.items, &mut src);
        let mut pending = reversed(src);
        let ghost mut keep: Seq<bool> = Seq::empty();
        let mut i: usize = 0;
        while pending.len() > 0
            invariant
                f == f0,
                forall|x: &E| f0.requires((x,)),
                s0 == old(self)@,
                n == s0.len(),
                i + pending@.len() == n,
                forall|k: int| 0 <= k < pending@.len() ==> pending@[k] == s0[n - 1 - k],
                keep.len() == i,
                forall|j: int| #[trigger] between(0, j, i as int) ==> f0.ensures((&s0[j],), keep[j]),
                self.items@ == kept(s0.take(i as int), keep),
                self.cap == old(self).cap,
                self.path == old(self).path,
                self.closebehavior == old(self).closebehavior,
                self.serial == old(self).serial,
            decreases pending@.len(),
        {
            let x = pending.pop().unwrap();
            assert(x == s0[i as int]);
            let b: bool = f(&x);
            proof {
                lemma_kept_flags_step(s0, keep, b, i as int);
                let ghost prev = keep;
                keep = keep.push(b);
                assert forall|j: int| #[trigger] between(0, j, i + 1) implies f0.ensures(
                    (&s0[j],),
                    keep[j],
                ) by {
                    if j < i {
                        assert(between(0, j, i as int));
                        assert(keep[j] == prev[j]);
                    }
                }
            }
            if b {
                self.items.push(x);
            }
            i = i + 1;
        }
        proof {
            assert(s0.take(n as int) =~= s0);
            lemma_kept_len(s0, keep);
            old(self).lemma_wf();
        }
    }

    /// Hands each item, first to last, to `f`, which may change it, and keeps
    /// the items (as `f` left them) that it says to keep, in their order.
    pub fn retain_mut<F: FnMut(&mut E) -> bool>(&mut self, f: F)
        requires
            old(self).wf(),
            forall|x: &mut E| f.requires((x,)),
        ensures
            final(self).wf(),
            final(self).same_buffer(*old(self)),
            exists|keep: Seq<bool>, after: Seq<E>|
                #![trigger kept(after, keep)]
                {
                    &&& keep.len() == old(self)@.len()
                    &&& after.len() == old(self)@.len()
                    &&& forall|i: int|
                        #[trigger] between(0, i, old(self)@.len() as int) ==> exists|x: &mut E|
                            {
                                &&& *x == old(self)@[i]
                                &&& *final(x) == after[i]
                                &&& #[trigger] f.ensures((x,), keep[i])
                            }
                    &&& final(self)@ == kept(after, keep)
                },
    {
        let mut f = f;
        let ghost f0 = f;
        let ghost s0 = self@;
        let n: usize = self.items.len();
        let mut src: Vec<E> = Vec::new();
        std::mem::swap(&mut self.items, &mut src);
        let mut pending = reversed(src);
        let ghost mut keep: Seq<bool> = Seq::empty();
        let ghost mut after: Seq<E> = Seq::empty();
        let mut i: usize = 0;
        while pending.len() > 0
            invariant
                f == f0,
                forall|x: &mut E| f0.requires((x,)),
                s0 == old(self)@,
                n == s0.len(),
                i + pending@.len() == n,
                forall|k: int| 0 <= k < pending@.len() ==> pending@[k] == s0[n - 1 - k],
                keep.len() == i,
                after.len() == i,
                forall|j: int|
                    #[trigger] between(0, j, i as int) ==> exists|x: &mut E|
                        {
                            &&& *x == s0[j]
                            &&& *final(x) == after[j]
                            &&& #[trigger] f0.ensures((x,), keep[j])
                        },
                self.items@ == kept(after, keep),
                self.cap == old(self).cap,
                self.path == old(self).path,
                self.closebehavior == old(self).closebehavior,
                self.serial == old(self).serial,
            decreases pending@.len(),
        {
            let mut x = pending.pop().unwrap();
            assert(x == s0[i as int]);
            let b: bool = f(&mut x);
            proof {
                lemma_kept_push(after, keep, x, b);
                let ghost keep_before = keep;
                let ghost after_before = after;
                keep = keep.push(b);
                after = after.push(x);
                assert forall|j: int| #[trigger] between(0, j, i + 1) implies exists|y: &mut E|
                    {
                        &&& *y == s0[j]
                        &&& *final(y) == after[j]
                        &&& #[trigger] f0.ensures((y,), keep[j])
                    } by {
                    if j < i {
                        assert(between(0, j, i as int));
                        assert(keep[j] == keep_before[j]);
                        assert(after[j] == after_before[j]);
                    }
                }
            }
            if b {
                self.items.push(x);
            }
            i = i + 1;
        }
        proof {
            lemma_kept_len(after, keep);
            old(self).lemma_wf();
            assert(self@ == kept(after, keep));
        }
    }

    /// Removes each item that `f` says duplicates the item before it. Each
    /// item after the first is handed to `f` once, first to last, together
    /// with the item before it; `f` may change both.
    pub fn dedup_by<F: FnMut(&mut E, &mut E) -> bool>(&mut self, f: F)
        requires
            old(self).wf(),
            forall|x: &mut E, y: &mut E| f.requires((x, y)),
        ensures
            final(self).wf(),
            final(self).same_buffer(*old(self)),
            old(self)@.len() <= 1 ==> final(self)@ == old(self)@,
            old(self)@.len() > 1 ==> exists|dup: Seq<bool>, mid: Seq<E>, after: Seq<E>|
                #![trigger kept(after, negated(dup)), mid.len()]
                {
                    &&& dup.len() == old(self)@.len()
                    &&& mid.len() == old(self)@.len()
                    &&& after.len() == old(self)@.len()
                    &&& !dup[0]
                    &&& mid[0] == old(self)@[0]
                    &&& after.last() == mid.last()
                    &&& forall|i: int|
                        #[trigger] between(1, i, old(self)@.len() as int) ==> exists|
                            x: &mut E,
                            y: &mut E,
                        |
                            {
                                &&& *x == old(self)@[i]
                                &&& *final(x) == mid[i]
                                &&& *y == mid[i - 1]
                                &&& *final(y) == after[i - 1]
                                &&& #[trigger] f.ensures((x, y), dup[i])
                            }
                    &&& final(self)@ == kept(after, negated(dup))
                },
    {
        let n: usize = self.items.len();
        if n <= 1 {
            return;
        }
        let mut f = f;
        let ghost f0 = f;
        let ghost s0 = self@;
        let mut src: Vec<E> = Vec::new();
        std::mem::swap(&mut self.items, &mut src);
        let mut pending = reversed(src);
        let mut prev = pending.pop().unwrap();
        let mut keep_prev: bool = true;
        let ghost mut dup: Seq<bool> = seq![false];
        let ghost mut mid: Seq<E> = seq![prev];
        let ghost mut after: Seq<E> = Seq::empty();
        let mut i: usize = 1;
        while pending.len() > 0
            invariant
                f == f0,
                forall|x: &mut E, y: &mut E| f0.requires((x, y)),
                s0 == old(self)@,
                n == s0.len(),
                n > 1,
                1 <= i <= n,
                i + pending@.len() == n,
                forall|k: int| 0 <= k < pending@.len() ==> pending@[k] == s0[n - 1 - k],
                dup.len() == i,
                mid.len() == i,
                after.len() == i - 1,
                !dup[0],
                mid[0] == s0[0],
                dup[i - 1] == !keep_prev,
                mid[i - 1] == prev,
                forall|j: int|
                    #[trigger] between(1, j, i as int) ==> exists|x: &mut E, y: &mut E|
                        {
                            &&& *x == s0[j]
                            &&& *final(x) == mid[j]
                            &&& *y == mid[j - 1]
                            &&& *final(y) == after[j - 1]
                            &&& #[trigger] f0.ensures((x, y), dup[j])
                        },
                self.items@ == kept(after, negated(dup)),
                self.cap == old(self).cap,
                self.path == old(self).path,
                self.closebehavior == old(self).closebehavior,
                self.serial == old(self).serial,
            decreases pending@.len(),
        {
            let mut cur = pending.pop().unwrap();
            assert(cur == s0[i as int]);
            let ghost prev_before = prev;
            let b: bool = f(&mut cur, &mut prev);
            assert(exists|x: &mut E, y: &mut E|
                {
                    &&& *x == s0[i as int]
                    &&& *final(x) == cur
                    &&& *y == prev_before
                    &&& *final(y) == prev
                    &&& #[trigger] f0.ensures((x, y), b)
                });
            proof {
                lemma_kept_extend(after, negated(dup), prev);
                lemma_kept_more_flags(after.push(prev), negated(dup), !b);
                assert(negated(dup.push(b)) =~= negated(dup).push(!b));
                let ghost dup_before = dup;
                let ghost mid_before = mid;
                let ghost after_before = after;
                dup = dup.push(b);
                mid = mid.push(cur);
                after = after.push(prev);
                assert forall|j: int| #[trigger] between(1, j, i + 1) implies exists|
                    x: &mut E,
                    y: &mut E,
                |
                    {
                        &&& *x == s0[j]
                        &&& *final(x) == mid[j]
                        &&& *y == mid[j - 1]
                        &&& *final(y) == after[j - 1]
                        &&& #[trigger] f0.ensures((x, y), dup[j])
                    } by {
                    if j < i {
                        assert(between(1, j, i as int));
                        assert(dup[j] == dup_before[j]);
                        assert(mid[j] == mid_before[j]);
                        assert(mid[j - 1] == mid_before[j - 1]);
                        assert(after[j - 1] == after_before[j - 1]);
                    } else {
                        assert(j == i);
                        assert(mid[j - 1] == mid_before[j - 1]);
                        assert(dup[j] == b);
                        assert(mid[j] == cur);
                        assert(after[j - 1] == prev);
                    }
                }
            }
            if keep_prev {
                self.items.push(prev);
            }
            prev = cur;
            keep_prev = !b;
            i = i + 1;
        }
        proof {
            lemma_kept_extend(after, negated(dup), prev);
            after = after.push(prev);
        }
        if keep_prev {
            self.items.push(prev);
        }
        proof {
            lemma_kept_len(after, negated(dup));
            old(self).lemma_wf();
            assert(self@ == kept(after, negated(dup)));
            assert(mid.len() == n);
        }
    }

    /// Removes each item equal (by `==`) to the item before it.
    pub fn dedup(&mut self) where E: PartialEq
        requires
            old(self).wf(),
        ensures
            final(self).wf(),
            final(self).same_buffer(*old(self)),
            deduplicated(old(self)@, final(self)@),
    {
        let n: usize = self.items.len();
        if n <= 1 {
            return;
        }
        let ghost s0 = self@;
        let mut src: Vec<E> = Vec::new();
        std::mem::swap(&mut self.items, &mut src);
        let mut pending = reversed(src);
        let mut prev = pending.pop().unwrap();
        let mut keep_prev: bool = true;
        let ghost mut dup: Seq<bool> = seq![false];
        let mut i: usize = 1;
        while pending.len() > 0
            invariant
                s0 == old(self)@,
                n == s0.len(),
                n > 1,
                1 <= i <= n,
                i + pending@.len() == n,
                forall|k: int| 0 <= k < pending@.len() ==> pending@[k] == s0[n - 1 - k],
                dup.len() == i,
                !dup[0],
                dup[i - 1] == !keep_prev,
                prev == s0[i - 1],
                forall|j: int|
                    #[trigger] between(1, j, i as int) ==> (E::obeys_eq_spec() ==> dup[j]
                        == s0[j].eq_spec(&s0[j - 1])),
                self.items@ == kept(s0.take(i - 1), negated(dup)),
                self.cap == old(self).cap,
                self.path == old(self).path,
                self.closebehavior == old(self).closebehavior,
                self.serial == old(self).serial,
            decreases pending@.len(),
        {
            let cur = pending.pop().unwrap();
            assert(cur == s0[i as int]);
            let b: bool = cur == prev;
            proof {
                assert(s0.take(i as int) =~= s0.take(i - 1).push(prev));
                lemma_kept_extend(s0.take(i - 1), negated(dup), prev);
                lemma_kept_more_flags(s0.take(i as int), negated(dup), !b);
                assert(negated(dup.push(b)) =~= negated(dup).push(!b));
                let ghost dup_before = dup;
                dup = dup.push(b);
                assert forall|j: int| #[trigger] between(1, j, i + 1) && E::obeys_eq_spec() implies dup[j]
                    == s0[j].eq_spec(&s0[j - 1]) by {
                    if j < i {
                        assert(between(1, j, i as int));
                        assert(dup[j] == dup_before[j]);
                    }
                }
            }
            if keep_prev {
                self.items.push(prev);
            }
            prev = cur;
            keep_prev = !b;
            i = i + 1;
        }
        proof {
            assert(s0 =~= s0.take(n - 1).push(prev));
            lemma_kept_extend(s0.take(n - 1), negated(dup), prev);
        }
        if keep_prev {
            self.items.push(prev);
        }
        proof {
            lemma_kept_len(s0, negated(dup));
            old(self).lemma_wf();
            assert(self@ == kept(s0, negated(dup)));
        }
    }

    /// Removes each item whose key, by `f`, equals (by `==`) the key of the
    /// item before it. For each item after the first, `f` is handed the item
    /// and then the item before it, and may change both.
    pub fn dedup_by_key<K: PartialEq, F: FnMut(&mut E) -> K>(&mut self, f: F)
        requires
            old(self).wf(),
            forall|x: &mut E| f.requires((x,)),
        ensures
            final(self).wf(),
            final(self).same_buffer(*old(self)),
            old(self)@.len() <= 1 ==> final(self)@ == old(self)@,
            old(self)@.len() > 1 ==> exists|dup: Seq<bool>, mid: Seq<E>, after: Seq<E>|
                #![trigger kept(after, negated(dup)), mid.len()]
                {
                    &&& dup.len() == old(self)@.len()
                    &&& mid.len() == old(self)@.len()
                    &&& after.len() == old(self)@.len()
                    &&& !dup[0]
                    &&& mid[0] == old(self)@[0]
                    &&& after.last() == mid.last()
                    &&& forall|i: int|
                        #[trigger] between(1, i, old(self)@.len() as int) ==> exists|
                            x: &mut E,
                            y: &mut E,
                            kx: K,
                            ky: K,
                        |
                            {
                                &&& *x == old(self)@[i]
                                &&& *final(x) == mid[i]
                                &&& #[trigger] f.ensures((x,), kx)
                                &&& *y == mid[i - 1]
                                &&& *final(y) == after[i - 1]
                                &&& #[trigger] f.ensures((y,), ky)
                                &&& K::obeys_eq_spec() ==> dup[i] == kx.eq_spec(&ky)
                            }
                    &&& final(self)@ == kept(after, negated(dup))
                },
    {
        let n: usize = self.items.len();
        if n <= 1 {
            return;
        }
        let mut f = f;
        let ghost f0 = f;
        let ghost s0 = self@;
        let mut src: Vec<E> = Vec::new();
        std::mem::swap(&mut self.items, &mut src);
        let mut pending = reversed(src);
        let mut prev = pending.pop().unwrap();
        let mut keep_prev: bool = true;
        let ghost mut dup: Seq<bool> = seq![false];
        let ghost mut mid: Seq<E> = seq![prev];
        let ghost mut after: Seq<E> = Seq::empty();
        let mut i: usize = 1;
        while pending.len() > 0
            invariant
                f == f0,
                forall|x: &mut E| f0.requires((x,)),
                s0 == old(self)@,
                n == s0.len(),
                n > 1,
                1 <= i <= n,
                i + pending@.len() == n,
                forall|k: int| 0 <= k < pending@.len() ==> pending@[k] == s0[n - 1 - k],
                dup.len() == i,
                mid.len() == i,
                after.len() == i - 1,
                !dup[0],
                mid[0] == s0[0],
                dup[i - 1] == !keep_prev,
                mid[i - 1] == prev,
                forall|j: int|
                    #[trigger] between(1, j, i as int) ==> exists|
                        x: &mut E,
                        y: &mut E,
                        kx: K,
                        ky: K,
                    |
                        {
                            &&& *x == s0[j]
                            &&& *final(x) == mid[j]
                            &&& #[trigger] f0.ensures((x,), kx)
                            &&& *y == mid[j - 1]
                            &&& *final(y) == after[j - 1]
                            &&& #[trigger] f0.ensures((y,), ky)
                            &&& K::obeys_eq_spec() ==> dup[j] == kx.eq_spec(&ky)
                        },
                self.items@ == kept(after, negated(dup)),
                self.cap == old(self).cap,
                self.path == old(self).path,
                self.closebehavior == old(self).closebehavior,
                self.serial == old(self).serial,
            decreases pending@.len(),
        {
            let mut cur = pending.pop().unwrap();
            assert(cur == s0[i as int]);
            let ghost prev_before = prev;
            let kc = f(&mut cur);
            let kp = f(&mut prev);
            let b: bool = kc == kp;
            assert(exists|x: &mut E, y: &mut E, kx: K, ky: K|
                {
                    &&& *x == s0[i as int]
                    &&& *final(x) == cur
                    &&& #[trigger] f0.ensures((x,), kx)
                    &&& *y == prev_before
                    &&& *final(y) == prev
                    &&& #[trigger] f0.ensures((y,), ky)
                    &&& K::obeys_eq_spec() ==> b == kx.eq_spec(&ky)
                });
            proof {
                lemma_kept_extend(after, negated(dup), prev);
                lemma_kept_more_flags(after.push(prev), negated(dup), !b);
                assert(negated(dup.push(b)) =~= negated(dup).push(!b));
                let ghost dup_before = dup;
                let ghost mid_before = mid;
                let ghost after_before = after;
                dup = dup.push(b);
                mid = mid.push(cur);
                after = after.push(prev);
                assert forall|j: int| #[trigger] between(1, j, i + 1) implies exists|
                    x: &mut E,
                    y: &mut E,
                    kx: K,
                    ky: K,
                |
                    {
                        &&& *x == s0[j]
                        &&& *final(x) == mid[j]
                        &&& #[trigger] f0.ensures((x,), kx)
                        &&& *y == mid[j - 1]
                        &&& *final(y) == after[j - 1]
                        &&& #[trigger] f0.ensures((y,), ky)
                        &&& K::obeys_eq_spec() ==> dup[j] == kx.eq_spec(&ky)
                    } by {
                    if j < i {
                        assert(between(1, j, i as int));
                        assert(dup[j] == dup_before[j]);
                        assert(mid[j] == mid_before[j]);
                        assert(mid[j - 1] == mid_before[j - 1]);
                        assert(after[j - 1] == after_before[j - 1]);
                    } else {
                        assert(j == i);
                        assert(mid[j - 1] == mid_before[j - 1]);
                        assert(dup[j] == b);
                        assert(mid[j] == cur);
                        assert(after[j - 1] == prev);
                    }
                }
            }
            if keep_prev {
                self.items.push(prev);
            }
            prev = cur;
            keep_prev = !b;
            i = i + 1;
        }
        proof {
            lemma_kept_extend(after, negated(dup), prev);
            after = after.push(prev);
        }
        if keep_prev {
            self.items.push(prev);
        }
        proof {
            lemma_kept_len(after, negated(dup));
            old(self).lemma_wf();
            assert(self@ == kept(after, negated(dup)));
            assert(mid.len() == n);
        }
    }
}

/// Keeping one more flag extends what was kept before.
proof fn lemma_kept_flags_step<E>(s: Seq<E>, keep: Seq<bool>, b: bool, i: int)
    requires
        0 <= i < s.len(),
        keep.len() == i,
    ensures
        kept(s.take(i + 1), keep.push(b)) == if b {
            kept(s.take(i), keep).push(s[i])
        } else {
            kept(s.take(i), keep)
        },
{
    lemma_kept_flags(s.take(i), keep, keep.push(b));
    lemma_kept_step(s, keep.push(b), i);
}


} // verus!
