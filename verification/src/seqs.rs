//! Facts about sequences that the vector's contracts are written in.
use vstd::prelude::*;

verus! {

/// Whether `lo <= i < hi`: the position `i` lies in the half-open range.
pub open spec fn between(lo: int, i: int, hi: int) -> bool {
    lo <= i < hi
}

/// The items of `s` whose flag in `keep` is set, in their order.
pub open spec fn kept<E>(s: Seq<E>, keep: Seq<bool>) -> Seq<E>
    decreases s.len(),
{
    if s.len() == 0 {
        Seq::empty()
    } else if keep[s.len() - 1] {
        kept(s.drop_last(), keep).push(s.last())
    } else {
        kept(s.drop_last(), keep)
    }
}

/// The flags of `s`, each turned over.
pub open spec fn negated(s: Seq<bool>) -> Seq<bool> {
    Seq::new(s.len(), |i: int| !s[i])
}

/// Keeping flags one item further: the next item joins the kept ones if its
/// flag is set.
pub proof fn lemma_kept_step<E>(s: Seq<E>, keep: Seq<bool>, n: int)
    requires
        0 <= n < s.len(),
    ensures
        kept(s.take(n + 1), keep) == if keep[n] {
            kept(s.take(n), keep).push(s[n])
        } else {
            kept(s.take(n), keep)
        },
{
    assert(s.take(n + 1).drop_last() =~= s.take(n));
}

/// Keeping flags only depends on the flags of the items there are.
pub proof fn lemma_kept_flags<E>(s: Seq<E>, keep1: Seq<bool>, keep2: Seq<bool>)
    requires
        forall|i: int| 0 <= i < s.len() ==> keep1[i] == keep2[i],
    ensures
        kept(s, keep1) == kept(s, keep2),
    decreases s.len(),
{
    if s.len() > 0 {
        lemma_kept_flags(s.drop_last(), keep1, keep2);
    }
}

/// No more items are kept than there are.
pub proof fn lemma_kept_len<E>(s: Seq<E>, keep: Seq<bool>)
    ensures
        kept(s, keep).len() <= s.len(),
    decreases s.len(),
{
    if s.len() > 0 {
        lemma_kept_len(s.drop_last(), keep);
    }
}

/// Keeping flags for one more item.
pub proof fn lemma_kept_push<E>(s: Seq<E>, keep: Seq<bool>, x: E, b: bool)
    requires
        s.len() == keep.len(),
    ensures
        kept(s.push(x), keep.push(b)) == if b {
            kept(s, keep).push(x)
        } else {
            kept(s, keep)
        },
{
    assert(s.push(x).drop_last() =~= s);
    lemma_kept_flags(s, keep.push(b), keep);
}

/// One more item, with its flag already among the flags.
pub proof fn lemma_kept_extend<E>(s: Seq<E>, keep: Seq<bool>, x: E)
    requires
        s.len() < keep.len(),
    ensures
        kept(s.push(x), keep) == if keep[s.len() as int] {
            kept(s, keep).push(x)
        } else {
            kept(s, keep)
        },
{
    assert(s.push(x).drop_last() =~= s);
}

/// More flags than items change nothing.
pub proof fn lemma_kept_more_flags<E>(s: Seq<E>, keep: Seq<bool>, b: bool)
    requires
        s.len() <= keep.len(),
    ensures
        kept(s, keep.push(b)) == kept(s, keep),
{
    lemma_kept_flags(s, keep.push(b), keep);
}

/// The items of `v` in the opposite order.
pub fn reversed<E>(v: Vec<E>) -> (r: Vec<E>)
    ensures
        r@.len() == v@.len(),
        forall|k: int| 0 <= k < v@.len() ==> r@[k] == v@[v@.len() - 1 - k],
{
    let ghost s = v@;
    let mut v = v;
    let mut r: Vec<E> = Vec::new();
    while v.len() > 0
        invariant
            v@ == s.take(v@.len() as int),
            r@.len() + v@.len() == s.len(),
            forall|k: int| 0 <= k < r@.len() ==> r@[k] == s[s.len() - 1 - k],
        decreases v@.len(),
    {
        let x = v.pop().unwrap();
        r.push(x);
    }
    r
}

} // verus!
