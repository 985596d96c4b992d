//! What a run of `next` and `next_back` calls on an `ExtractIf` leaves,
//! whatever their order: the state it stands in after each call, in terms of
//! the items the vector held when the run began.
use vstd::prelude::*;
use crate::seqs::between;

verus! {

/// Whether some position of `o` holds `j`: the item that stood at position
/// `j` when the run began is still in the vector.
pub open spec fn kept_at(o: Seq<int>, j: int) -> bool {
    exists|i: int| 0 <= i < o.len() && #[trigger] o[i] == j
}

/// `o` without its entry at position `p`.
pub open spec fn without(o: Seq<int>, p: int) -> Seq<int> {
    Seq::new((o.len() - 1) as nat, |i: int| if i < p { o[i] } else { o[i + 1] })
}

/// Whether position `i` holds an item that was handed to the predicate and
/// kept: it lies between `start` and the front, or at or after the back while
/// it came from before `stop`.
pub open spec fn visited_kept(start: int, front: int, back: int, stop: int, o: Seq<int>, i: int) -> bool {
    ||| start <= i < front
    ||| back <= i < o.len() && o[i] < stop
}

/// The state of a run over a range from `start` to `stop` of the items `s0`,
/// short of what the predicate did: the vector now holds `t`, the items from
/// `front` up to `back` have not been handed to the predicate, each position
/// `i` holds the item that stood at `o[i]` (in their order), and `picked` are
/// the positions whose items were taken out, all of them within the range.
/// The items before `start`, those not yet handed over, and those from
/// `stop` on stand as they stood.
pub open spec fn extraction_frame<E>(
    s0: Seq<E>,
    start: int,
    stop: int,
    t: Seq<E>,
    front: int,
    back: int,
    o: Seq<int>,
    picked: Set<int>,
) -> bool {
    &&& 0 <= start <= front <= back <= t.len()
    &&& start <= stop <= s0.len()
    &&& o.len() == t.len()
    &&& forall|i: int, j: int| 0 <= i < j < o.len() ==> #[trigger] o[i] < #[trigger] o[j]
    &&& forall|i: int| 0 <= i < start ==> #[trigger] o[i] == i && t[i] == s0[i]
    &&& forall|i: int| start <= i < o.len() ==> start <= #[trigger] o[i] < s0.len()
    &&& forall|i: int| start <= i < back ==> #[trigger] o[i] < stop
    &&& forall|i: int| front <= i < back ==> #[trigger] t[i] == s0[o[i]]
    &&& forall|i: int| back <= i < o.len() && stop <= o[i] ==> #[trigger] t[i] == s0[o[i]]
    &&& forall|j: int| 0 <= j < s0.len() ==> (#[trigger] picked.contains(j) <==> !kept_at(o, j))
    &&& forall|j: int| #[trigger] picked.contains(j) ==> start <= j < stop
}

/// Taking out the entry at position `p` of an increasing `o` leaves it
/// increasing, and keeps every value but `o[p]`.
proof fn lemma_without(o: Seq<int>, p: int)
    requires
        0 <= p < o.len(),
        forall|i: int, j: int| 0 <= i < j < o.len() ==> #[trigger] o[i] < #[trigger] o[j],
    ensures
        forall|i: int, j: int|
            0 <= i < j < without(o, p).len() ==> #[trigger] without(o, p)[i] < #[trigger] without(
                o,
                p,
            )[j],
        forall|j: int| j != o[p] ==> (kept_at(without(o, p), j) <==> kept_at(o, j)),
        !kept_at(without(o, p), o[p]),
{
    let w = without(o, p);
    assert forall|i: int, j: int| 0 <= i < j < w.len() implies #[trigger] w[i] < #[trigger] w[j] by {
        let a = if i < p { i } else { i + 1 };
        let b = if j < p { j } else { j + 1 };
        assert(w[i] == o[a]);
        assert(w[j] == o[b]);
        assert(o[a] < o[b]);
    }
    assert forall|j: int| j != o[p] implies (kept_at(w, j) <==> kept_at(o, j)) by {
        if kept_at(o, j) {
            let i = choose|i: int| 0 <= i < o.len() && #[trigger] o[i] == j;
            if i < p {
                assert(w[i] == j);
            } else {
                assert(i != p);
                assert(w[i - 1] == j);
            }
        }
        if kept_at(w, j) {
            let i = choose|i: int| 0 <= i < w.len() && #[trigger] w[i] == j;
            if i < p {
                assert(o[i] == j);
            } else {
                assert(o[i + 1] == j);
            }
        }
    }
    if kept_at(w, o[p]) {
        let i = choose|i: int| 0 <= i < w.len() && #[trigger] w[i] == o[p];
        if i < p {
            assert(o[i] < o[p]);
        } else {
            assert(o[p] < o[i + 1]);
        }
    }
}

/// A run begins where `extract_if` over the range from `start` to `stop`
/// leaves it: every item stands where it stood, none has been handed to the
/// predicate, and none has been taken out.
pub proof fn law_extract_if_begins<E, F: FnMut(&mut E) -> bool>(
    s0: Seq<E>,
    start: int,
    stop: int,
    f: F,
) -> (res: (Seq<int>, Map<int, E>))
    requires
        0 <= start <= stop <= s0.len(),
    ensures
        extraction_frame(s0, start, stop, s0, start, stop, res.0, res.1.dom()),
        forall|i: int|
            #[trigger] visited_kept(start, start, stop, stop, res.0, i) ==> exists|x: &mut E|
                {
                    &&& *x == s0[res.0[i]]
                    &&& *final(x) == s0[i]
                    &&& #[trigger] f.ensures((x,), false)
                },
        forall|j: int|
            #[trigger] res.1.dom().contains(j) ==> exists|x: &mut E|
                {
                    &&& *x == s0[j]
                    &&& *final(x) == res.1[j]
                    &&& #[trigger] f.ensures((x,), true)
                },
        res.1 == Map::<int, E>::empty(),
{
    let o = Seq::new(s0.len(), |i: int| i);
    assert forall|j: int| 0 <= j < s0.len() implies kept_at(o, j) by {
        assert(o[j] == j);
    }
    (o, Map::<int, E>::empty())
}

/// A call of `next` keeps the run's state: where it yields nothing, the
/// items it handed over stay, as the predicate left them; where it yields
/// `y`, the item it took out is added to those taken out, with `y` as the
/// predicate left it, and the items after it move down by one.
pub proof fn law_extract_if_next<E, F: FnMut(&mut E) -> bool>(
    s0: Seq<E>,
    start: int,
    stop: int,
    f: F,
    s: Seq<E>,
    front: int,
    back: int,
    o: Seq<int>,
    picked: Map<int, E>,
    r: Option<E>,
    t: Seq<E>,
    front2: int,
    back2: int,
) -> (res: (Seq<int>, Map<int, E>))
    requires
        extraction_frame(s0, start, stop, s, front, back, o, picked.dom()),
        forall|i: int|
            #[trigger] visited_kept(start, front, back, stop, o, i) ==> exists|x: &mut E|
                {
                    &&& *x == s0[o[i]]
                    &&& *final(x) == s[i]
                    &&& #[trigger] f.ensures((x,), false)
                },
        forall|j: int|
            #[trigger] picked.dom().contains(j) ==> exists|x: &mut E|
                {
                    &&& *x == s0[j]
                    &&& *final(x) == picked[j]
                    &&& #[trigger] f.ensures((x,), true)
                },
        forall|i: int| 0 <= i < front ==> t[i] == s[i],
        match r {
            None => {
                &&& front2 == back
                &&& back2 == back
                &&& t.len() == s.len()
                &&& forall|i: int| back <= i < s.len() ==> t[i] == s[i]
                &&& forall|i: int|
                    #[trigger] between(front, i, back) ==> exists|x: &mut E|
                        {
                            &&& *x == s[i]
                            &&& *final(x) == t[i]
                            &&& #[trigger] f.ensures((x,), false)
                        }
            },
            Some(y) => {
                &&& front <= front2 < back
                &&& back2 == back - 1
                &&& t.len() == s.len() - 1
                &&& forall|i: int| front2 < i < s.len() ==> t[i - 1] == s[i]
                &&& forall|i: int|
                    #[trigger] between(front, i, front2) ==> exists|x: &mut E|
                        {
                            &&& *x == s[i]
                            &&& *final(x) == t[i]
                            &&& #[trigger] f.ensures((x,), false)
                        }
                &&& exists|x: &mut E|
                    {
                        &&& *x == s[front2]
                        &&& *final(x) == y
                        &&& #[trigger] f.ensures((x,), true)
                    }
            },
        },
    ensures
        extraction_frame(s0, start, stop, t, front2, back2, res.0, res.1.dom()),
        forall|i: int|
            #[trigger] visited_kept(start, front2, back2, stop, res.0, i) ==> exists|x: &mut E|
                {
                    &&& *x == s0[res.0[i]]
                    &&& *final(x) == t[i]
                    &&& #[trigger] f.ensures((x,), false)
                },
        forall|j: int|
            #[trigger] res.1.dom().contains(j) ==> exists|x: &mut E|
                {
                    &&& *x == s0[j]
                    &&& *final(x) == res.1[j]
                    &&& #[trigger] f.ensures((x,), true)
                },
        r is None ==> res.1 == picked,
        r matches Some(y) ==> !picked.dom().contains(o[front2]) && res.1 == picked.insert(
            o[front2],
            y,
        ),
{
    match r {
        None => {
            assert forall|i: int| #[trigger]
                visited_kept(start, front2, back2, stop, o, i) implies exists|x: &mut E|
                {
                    &&& *x == s0[o[i]]
                    &&& *final(x) == t[i]
                    &&& #[trigger] f.ensures((x,), false)
                } by {
                if front <= i < back {
                    assert(between(front, i, back));
                    assert(s[i] == s0[o[i]]);
                } else {
                    assert(visited_kept(start, front, back, stop, o, i));
                    assert(t[i] == s[i]);
                }
            }
            assert forall|i: int| back2 <= i < o.len() && stop <= o[i] implies #[trigger] t[i] == s0[o[i]] by {
                assert(t[i] == s[i]);
            }
            assert forall|i: int| 0 <= i < start implies #[trigger] o[i] == i && t[i] == s0[i] by {
                assert(t[i] == s[i]);
            }
            (o, picked)
        },
        Some(y) => {
            let p = front2;
            let o2 = without(o, p);
            let picked2 = picked.insert(o[p], y);
            lemma_without(o, p);
            assert(s[p] == s0[o[p]]);
            assert forall|i: int| #[trigger]
                visited_kept(start, front2, back2, stop, o2, i) implies exists|x: &mut E|
                {
                    &&& *x == s0[o2[i]]
                    &&& *final(x) == t[i]
                    &&& #[trigger] f.ensures((x,), false)
                } by {
                if i < front {
                    assert(o2[i] == o[i]);
                    assert(visited_kept(start, front, back, stop, o, i));
                    assert(t[i] == s[i]);
                } else if i < p {
                    assert(o2[i] == o[i]);
                    assert(between(front, i, front2));
                    assert(s[i] == s0[o[i]]);
                } else {
                    assert(o2[i] == o[i + 1]);
                    assert(t[i] == s[i + 1]);
                    assert(visited_kept(start, front, back, stop, o, i + 1));
                }
            }
            assert forall|j: int| #[trigger] picked2.dom().contains(j) implies exists|x: &mut E|
                {
                    &&& *x == s0[j]
                    &&& *final(x) == picked2[j]
                    &&& #[trigger] f.ensures((x,), true)
                } by {
                if j != o[p] {
                    assert(picked.dom().contains(j));
                }
            }
            assert forall|i: int| 0 <= i < start implies #[trigger] o2[i] == i && t[i] == s0[i] by {
                assert(o2[i] == o[i]);
                assert(t[i] == s[i]);
            }
            assert forall|i: int| start <= i < o2.len() implies start <= #[trigger] o2[i] < s0.len() by {
                if i < p {
                    assert(o2[i] == o[i]);
                } else {
                    assert(o2[i] == o[i + 1]);
                }
            }
            assert forall|i: int| start <= i < back2 implies #[trigger] o2[i] < stop by {
                if i < p {
                    assert(o2[i] == o[i]);
                } else {
                    assert(o2[i] == o[i + 1]);
                }
            }
            assert forall|i: int| front2 <= i < back2 implies #[trigger] t[i] == s0[o2[i]] by {
                assert(o2[i] == o[i + 1]);
                assert(t[i] == s[i + 1]);
                assert(s[i + 1] == s0[o[i + 1]]);
            }
            assert forall|i: int| back2 <= i < o2.len() && stop <= o2[i] implies #[trigger] t[i] == s0[o2[i]] by {
                assert(o2[i] == o[i + 1]);
                assert(t[i] == s[i + 1]);
                assert(s[i + 1] == s0[o[i + 1]]);
            }
            assert forall|j: int| 0 <= j < s0.len() implies (#[trigger] picked2.dom().contains(j) <==> !kept_at(o2, j)) by {
                if j != o[p] {
                    assert(picked.dom().contains(j) <==> !kept_at(o, j));
                }
            }
            assert(!picked.dom().contains(o[p])) by {
                assert(o[p] == o[p]);
                assert(kept_at(o, o[p]));
            }
            (o2, picked2)
        },
    }
}

/// A call of `next_back` keeps the run's state, as `next` does from the
/// other end.
pub proof fn law_extract_if_next_back<E, F: FnMut(&mut E) -> bool>(
    s0: Seq<E>,
    start: int,
    stop: int,
    f: F,
    s: Seq<E>,
    front: int,
    back: int,
    o: Seq<int>,
    picked: Map<int, E>,
    r: Option<E>,
    t: Seq<E>,
    front2: int,
    back2: int,
) -> (res: (Seq<int>, Map<int, E>))
    requires
        extraction_frame(s0, start, stop, s, front, back, o, picked.dom()),
        forall|i: int|
            #[trigger] visited_kept(start, front, back, stop, o, i) ==> exists|x: &mut E|
                {
                    &&& *x == s0[o[i]]
                    &&& *final(x) == s[i]
                    &&& #[trigger] f.ensures((x,), false)
                },
        forall|j: int|
            #[trigger] picked.dom().contains(j) ==> exists|x: &mut E|
                {
                    &&& *x == s0[j]
                    &&& *final(x) == picked[j]
                    &&& #[trigger] f.ensures((x,), true)
                },
        front2 == front,
        match r {
            None => {
                &&& back2 == front
                &&& t.len() == s.len()
                &&& forall|i: int| 0 <= i < front || back <= i < s.len() ==> t[i] == s[i]
                &&& forall|i: int|
                    #[trigger] between(front, i, back) ==> exists|x: &mut E|
                        {
                            &&& *x == s[i]
                            &&& *final(x) == t[i]
                            &&& #[trigger] f.ensures((x,), false)
                        }
            },
            Some(y) => {
                &&& front <= back2 < back
                &&& t.len() == s.len() - 1
                &&& forall|i: int| 0 <= i < back2 ==> t[i] == s[i]
                &&& forall|i: int| back <= i < s.len() ==> t[i - 1] == s[i]
                &&& forall|i: int|
                    #[trigger] between(back2 + 1, i, back) ==> exists|x: &mut E|
                        {
                            &&& *x == s[i]
                            &&& *final(x) == t[i - 1]
                            &&& #[trigger] f.ensures((x,), false)
                        }
                &&& exists|x: &mut E|
                    {
                        &&& *x == s[back2]
                        &&& *final(x) == y
                        &&& #[trigger] f.ensures((x,), true)
                    }
            },
        },
    ensures
        extraction_frame(s0, start, stop, t, front2, back2, res.0, res.1.dom()),
        forall|i: int|
            #[trigger] visited_kept(start, front2, back2, stop, res.0, i) ==> exists|x: &mut E|
                {
                    &&& *x == s0[res.0[i]]
                    &&& *final(x) == t[i]
                    &&& #[trigger] f.ensures((x,), false)
                },
        forall|j: int|
            #[trigger] res.1.dom().contains(j) ==> exists|x: &mut E|
                {
                    &&& *x == s0[j]
                    &&& *final(x) == res.1[j]
                    &&& #[trigger] f.ensures((x,), true)
                },
        r is None ==> res.1 == picked,
        r matches Some(y) ==> !picked.dom().contains(o[back2]) && res.1 == picked.insert(
            o[back2],
            y,
        ),
{
    match r {
        None => {
            assert forall|i: int| #[trigger]
                visited_kept(start, front2, back2, stop, o, i) implies exists|x: &mut E|
                {
                    &&& *x == s0[o[i]]
                    &&& *final(x) == t[i]
                    &&& #[trigger] f.ensures((x,), false)
                } by {
                if front <= i < back {
                    assert(between(front, i, back));
                    assert(s[i] == s0[o[i]]);
                } else {
                    assert(visited_kept(start, front, back, stop, o, i));
                    assert(t[i] == s[i]);
                }
            }
            assert forall|i: int| back2 <= i < o.len() && stop <= o[i] implies #[trigger] t[i] == s0[o[i]] by {
                assert(t[i] == s[i]);
            }
            assert forall|i: int| 0 <= i < start implies #[trigger] o[i] == i && t[i] == s0[i] by {
                assert(t[i] == s[i]);
            }
            (o, picked)
        },
        Some(y) => {
            let p = back2;
            let o2 = without(o, p);
            let picked2 = picked.insert(o[p], y);
            lemma_without(o, p);
            assert(s[p] == s0[o[p]]);
            assert forall|i: int| #[trigger]
                visited_kept(start, front2, back2, stop, o2, i) implies exists|x: &mut E|
                {
                    &&& *x == s0[o2[i]]
                    &&& *final(x) == t[i]
                    &&& #[trigger] f.ensures((x,), false)
                } by {
                if i < front {
                    assert(o2[i] == o[i]);
                    assert(visited_kept(start, front, back, stop, o, i));
                    assert(t[i] == s[i]);
                } else if i + 1 < back {
                    assert(o2[i] == o[i + 1]);
                    assert(between(back2 + 1, i + 1, back));
                    assert(s[i + 1] == s0[o[i + 1]]);
                } else {
                    assert(o2[i] == o[i + 1]);
                    assert(t[i] == s[i + 1]);
                    assert(visited_kept(start, front, back, stop, o, i + 1));
                }
            }
            assert forall|j: int| #[trigger] picked2.dom().contains(j) implies exists|x: &mut E|
                {
                    &&& *x == s0[j]
                    &&& *final(x) == picked2[j]
                    &&& #[trigger] f.ensures((x,), true)
                } by {
                if j != o[p] {
                    assert(picked.dom().contains(j));
                }
            }
            assert forall|i: int| 0 <= i < start implies #[trigger] o2[i] == i && t[i] == s0[i] by {
                assert(o2[i] == o[i]);
                assert(t[i] == s[i]);
            }
            assert forall|i: int| start <= i < o2.len() implies start <= #[trigger] o2[i] < s0.len() by {
                if i < p {
                    assert(o2[i] == o[i]);
                } else {
                    assert(o2[i] == o[i + 1]);
                }
            }
            assert forall|i: int| start <= i < back2 implies #[trigger] o2[i] < stop by {
                assert(o2[i] == o[i]);
            }
            assert forall|i: int| front2 <= i < back2 implies #[trigger] t[i] == s0[o2[i]] by {
                assert(o2[i] == o[i]);
                assert(t[i] == s[i]);
            }
            assert forall|i: int| back2 <= i < o2.len() && stop <= o2[i] implies #[trigger] t[i] == s0[o2[i]] by {
                assert(o2[i] == o[i + 1]);
                if i + 1 < back {
                    assert(o[i + 1] < stop);
                }
                assert(t[i] == s[i + 1]);
                assert(s[i + 1] == s0[o[i + 1]]);
            }
            assert forall|j: int| 0 <= j < s0.len() implies (#[trigger] picked2.dom().contains(j) <==> !kept_at(o2, j)) by {
                if j != o[p] {
                    assert(picked.dom().contains(j) <==> !kept_at(o, j));
                }
            }
            assert(!picked.dom().contains(o[p])) by {
                assert(kept_at(o, o[p]));
            }
            (o2, picked2)
        },
    }
}

/// The last `k` positions of an increasing `o` of values below `n`, which
/// keeps every value from `stop` on, hold the last `k` values below `n`.
proof fn lemma_kept_tail(o: Seq<int>, n: int, stop: int, picked: Set<int>, k: int)
    requires
        0 <= stop <= n,
        0 <= k <= n - stop,
        forall|i: int, j: int| 0 <= i < j < o.len() ==> #[trigger] o[i] < #[trigger] o[j],
        forall|i: int| 0 <= i < o.len() ==> #[trigger] o[i] < n,
        forall|j: int| 0 <= j < n ==> (#[trigger] picked.contains(j) <==> !kept_at(o, j)),
        forall|j: int| #[trigger] picked.contains(j) ==> j < stop,
    ensures
        k <= o.len(),
        forall|m: int| 0 <= m < k ==> #[trigger] o[o.len() - 1 - m] == n - 1 - m,
    decreases k,
{
    if k > 0 {
        lemma_kept_tail(o, n, stop, picked, k - 1);
        let v = n - k;
        assert(!picked.contains(v));
        assert(kept_at(o, v));
        let i = choose|i: int| 0 <= i < o.len() && #[trigger] o[i] == v;
        let p = o.len() - k;
        if i > p {
            let m = o.len() - 1 - i;
            assert(o[o.len() - 1 - m] == n - 1 - m);
        } else if i < p {
            if k > 1 {
                assert(o[o.len() - 1 - (k - 2)] == n - 1 - (k - 2));
                assert(o[i] < o[p]);
                assert(o[p] < o[p + 1]);
            } else {
                assert(o[i] < o[p]);
            }
        }
        assert(i == p);
        assert forall|m: int| 0 <= m < k implies #[trigger] o[o.len() - 1 - m] == n - 1 - m by {
            if m == k - 1 {
                assert(o.len() - 1 - m == p);
            }
        }
    }
}

/// What the vector holds wherever a run stops (the `ExtractIf` is dropped):
/// the items before `start` and those from `stop` on as they stood, and
/// between them the items of the range that were not taken out, in their
/// order, each as the predicate left it where it was handed over and as it
/// stood where it was not.
pub proof fn law_extract_if_outcome<E, F: FnMut(&mut E) -> bool>(
    s0: Seq<E>,
    start: int,
    stop: int,
    f: F,
    t: Seq<E>,
    front: int,
    back: int,
    o: Seq<int>,
    picked: Map<int, E>,
)
    requires
        extraction_frame(s0, start, stop, t, front, back, o, picked.dom()),
        forall|i: int|
            #[trigger] visited_kept(start, front, back, stop, o, i) ==> exists|x: &mut E|
                {
                    &&& *x == s0[o[i]]
                    &&& *final(x) == t[i]
                    &&& #[trigger] f.ensures((x,), false)
                },
        forall|j: int|
            #[trigger] picked.dom().contains(j) ==> exists|x: &mut E|
                {
                    &&& *x == s0[j]
                    &&& *final(x) == picked[j]
                    &&& #[trigger] f.ensures((x,), true)
                },
    ensures
        t.len() >= start + (s0.len() - stop),
        t.subrange(0, start) == s0.subrange(0, start),
        t.subrange(t.len() - (s0.len() - stop), t.len() as int) == s0.subrange(stop, s0.len() as int),
        forall|i: int|
            start <= i < t.len() - (s0.len() - stop) ==> start <= #[trigger] o[i] < stop,
        forall|i: int|
            #[trigger] between(start, i, t.len() - (s0.len() - stop)) && !(front <= i < back)
                ==> exists|x: &mut E|
                {
                    &&& *x == s0[o[i]]
                    &&& *final(x) == t[i]
                    &&& #[trigger] f.ensures((x,), false)
                },
{
    let n = s0.len() as int;
    assert forall|i: int| 0 <= i < o.len() implies #[trigger] o[i] < n by {
        if i < start {
            assert(o[i] == i);
        }
    }
    lemma_kept_tail(o, n, stop, picked.dom(), n - stop);
    let base = t.len() - (n - stop);
    if start > base {
        if start > 0 {
            let m = t.len() - start;
            assert(o[o.len() - 1 - m] == n - 1 - m);
            assert(o[start - 1] == start - 1);
        }
    }
    assert forall|k: int| 0 <= k < start implies #[trigger] t.subrange(0, start)[k] == s0.subrange(
        0,
        start,
    )[k] by {
        assert(o[k] == k);
    }
    assert(t.subrange(0, start) =~= s0.subrange(0, start));
    assert forall|k: int| 0 <= k < n - stop implies #[trigger] t.subrange(base, t.len() as int)[k]
        == s0.subrange(stop, n)[k] by {
        let m = n - stop - 1 - k;
        assert(o[o.len() - 1 - m] == n - 1 - m);
        let i = base + k;
        assert(o.len() - 1 - m == i);
        if i < back {
            assert(o[i] < stop);
        }
        assert(t[i] == s0[o[i]]);
    }
    assert(t.subrange(base, t.len() as int) =~= s0.subrange(stop, n));
    assert forall|i: int| start <= i < base implies start <= #[trigger] o[i] < stop by {
        if o[i] >= stop {
            assert(o[o.len() - 1 - (n - stop - 1)] == stop);
            assert(o.len() - 1 - (n - stop - 1) == base);
            assert(o[i] < o[base]);
        }
    }
    assert forall|i: int|
        #[trigger] between(start, i, base) && !(front <= i < back) implies exists|x: &mut E|
        {
            &&& *x == s0[o[i]]
            &&& *final(x) == t[i]
            &&& #[trigger] f.ensures((x,), false)
        } by {
        assert(o[i] < stop);
        assert(visited_kept(start, front, back, stop, o, i));
    }
}

} // verus!
