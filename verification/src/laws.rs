//! What holds across the vector's operations.
use vstd::prelude::*;
use crate::capacity::{can_reserve, lemma_pow2_at_least, required};
use crate::iter::Drain;
use crate::path::{hex_char, hex_digits, temp_path, temp_prefix};
use crate::range::{IndexRange, range_fits, range_start, range_stop};
use core::ops::Bound;
use crate::seqs::{between, kept, lemma_kept_step, negated};
use crate::vec::{Closing, FileVec, OnClose, deduplicated};
use vstd::laws_eq::{obeys_eq, obeys_eq_spec_properties};
use vstd::std_specs::cmp::PartialEqSpec;

verus! {

/// Popping right after pushing an item gives that item back and leaves the
/// items as they were.
pub proof fn law_pop_undoes_push<E>(v0: FileVec<E>, item: E, v1: FileVec<E>, r: Option<E>, v2: FileVec<E>)
    requires
        v0.pushed(item, v1),
        v1.popped(r, v2),
    ensures
        r == Some(item),
        v2@ == v0@,
{
    assert(v0@.push(item).drop_last() =~= v0@);
}

/// Removing at the position an item was just inserted at gives that item
/// back and leaves the items as they were.
pub proof fn law_remove_undoes_insert<E>(
    v0: FileVec<E>,
    index: int,
    item: E,
    v1: FileVec<E>,
    r: E,
    v2: FileVec<E>,
)
    requires
        0 <= index <= v0@.len(),
        v0.inserted(index, item, v1),
        v1.removed(index, r, v2),
    ensures
        r == item,
        v2@ == v0@,
{
    assert(v0@.insert(index, item).remove(index) =~= v0@);
}

/// Keeping the rest right after draining a range puts the vector back as it
/// was, with the same buffer.
pub proof fn law_keep_rest_undoes_drain<'a, E, R: IndexRange>(
    v0: FileVec<E>,
    range: R,
    d1: Drain<'a, E>,
    d2: Drain<'a, E>,
)
    requires
        range_fits(range, v0@.len()),
        d1.took(v0, range),
        d1.rest_kept(d2),
    ensures
        d2.vec_now()@ == v0@,
        d2.vec_now().same_buffer(v0),
{
    let start = crate::range::range_start(range) as int;
    let stop = crate::range::range_stop(range, v0@.len()) as int;
    let rest = (*d1.vec)@;
    assert(rest.subrange(0, start) =~= v0@.subrange(0, start));
    assert(rest.subrange(start, rest.len() as int) =~= v0@.subrange(stop, v0@.len() as int));
    assert(v0@.subrange(0, start) + v0@.subrange(start, stop) + v0@.subrange(stop, v0@.len() as int)
        =~= v0@);
}

/// Opening the file that closing a vector handed back gives back the
/// vector's items, under the same backing file, with a buffer of exactly
/// their number, set to persist.
pub proof fn law_reopen_restores<E>(v0: FileVec<E>, c: Closing<E>, v1: FileVec<E>, v2: FileVec<E>)
    requires
        v0.closed(Some(c), v1),
        FileVec::reopened(c.path@, c.items@, v2),
    ensures
        v2@ == v0@,
        v2.backing() == v0.backing(),
        v2.cap() == v0@.len(),
        v2.on_close() == OnClose::Persist,
{
}

/// Closing a vector that was just closed hands nothing back.
pub proof fn law_close_twice<E>(
    v0: FileVec<E>,
    c1: Option<Closing<E>>,
    v1: FileVec<E>,
    c2: Option<Closing<E>>,
    v2: FileVec<E>,
)
    requires
        v0.closed(c1, v1),
        v1.closed(c2, v2),
    ensures
        c2 is None,
        v2@ == v1@,
        v2.same_buffer(v1),
{
}

/// Appending to a vector what `split_off` cut off from it puts its items
/// back together.
pub proof fn law_append_undoes_split_off<E>(
    v0: FileVec<E>,
    at: int,
    v1: FileVec<E>,
    rest: FileVec<E>,
    v2: FileVec<E>,
    rest2: FileVec<E>,
)
    requires
        0 <= at <= v0@.len(),
        v0.split_at(at, v1, rest),
        v1.appended(rest, v2, rest2),
    ensures
        v2@ == v0@,
        rest2@ == Seq::<E>::empty(),
{
    assert(v0@.subrange(0, at) + v0@.subrange(at, v0@.len() as int) =~= v0@);
}

/// Making a vector delete its backing file and then persist leaves it set to
/// persist, whatever it was set to before.
pub proof fn law_delete_then_persist<E>(v0: FileVec<E>, v1: FileVec<E>, v2: FileVec<E>)
    requires
        v0.persistence_set(false, v1),
        v1.persistence_set(true, v2),
    ensures
        v2.on_close() == OnClose::Persist,
        v2@ == v0@,
{
}

/// After `reserve(additional)` the buffer holds the items and `additional`
/// more; where it grew, it grew to a power of two less than twice that.
pub proof fn law_reserve_room<E>(v0: FileVec<E>, additional: nat, v1: FileVec<E>)
    requires
        v0.wf(),
        can_reserve::<E>(v0.cap(), v0@.len(), additional),
        v1.reserved_from(v0, additional),
    ensures
        v1.cap() >= v0@.len() + additional,
        v1.cap() >= v0.cap(),
        v1.cap() != v0.cap() ==> {
            &&& exists|k: nat| v1.cap() == vstd::arithmetic::power2::pow2(k)
            &&& v1.cap() < 2 * (v0@.len() + additional) || v1.cap() == 1
        },
{
    v0.lemma_wf();
    crate::capacity::lemma_reserve_room::<E>(v0.cap(), v0@.len(), additional);
    lemma_pow2_at_least(required(v0@.len(), additional));
}

proof fn lemma_hex_digits_injective(n: nat, m: nat)
    requires
        hex_digits(n) == hex_digits(m),
    ensures
        n == m,
    decreases n,
{
    if n < 16 && m < 16 {
        assert(hex_digits(n) == seq![hex_char(n)]);
        assert(hex_digits(m) == seq![hex_char(m)]);
        assert(hex_digits(n)[0] == hex_char(n));
        assert(hex_digits(m)[0] == hex_char(m));
        lemma_hex_char(n);
        lemma_hex_char(m);
        assert(hex_char(n) as int == hex_char(m) as int);
    } else if n < 16 {
        lemma_hex_len(m / 16);
        assert(hex_digits(m).len() >= 2);
    } else if m < 16 {
        lemma_hex_len(n / 16);
        assert(hex_digits(n).len() >= 2);
    } else {
        let a = hex_digits(n);
        assert(a.drop_last() =~= hex_digits(n / 16));
        assert(hex_digits(m).drop_last() =~= hex_digits(m / 16));
        assert(a.last() == hex_digits(m).last());
        lemma_hex_char(n % 16);
        lemma_hex_char(m % 16);
        assert(a.last() == hex_char(n % 16));
        assert(hex_digits(m).last() == hex_char(m % 16));
        assert(n % 16 == m % 16);
        lemma_hex_digits_injective(n / 16, m / 16);
        assert(n / 16 == m / 16);
    }
}

proof fn lemma_hex_char(d: nat)
    requires
        d < 16,
    ensures
        hex_char(d) as int == if d < 10 { 48 + d } else { 87 + d },
{
}

proof fn lemma_hex_len(n: nat)
    ensures
        hex_digits(n).len() >= 1,
    decreases n,
{
    if n >= 16 {
        lemma_hex_len(n / 16);
    }
}

/// Different numbers give different backing file names.
pub proof fn law_temp_path_distinct(n: u64, m: u64)
    requires
        n != m,
    ensures
        temp_path(n) != temp_path(m),
{
    if temp_path(n) == temp_path(m) {
        let p = temp_prefix();
        assert(temp_path(n).skip(p.len() as int) =~= hex_digits(n as nat));
        assert(temp_path(m).skip(p.len() as int) =~= hex_digits(m as nat));
        lemma_hex_digits_injective(n as nat, m as nat);
    }
}

/// Where `E`'s `==` follows its specification and is symmetric and
/// transitive, no item that `dedup` leaves equals the item before it.
pub proof fn law_dedup_leaves_no_equal_neighbours<E: PartialEq>(before: Seq<E>, after: Seq<E>)
    requires
        obeys_eq::<E>(),
        deduplicated(before, after),
    ensures
        forall|i: int| 1 <= i < after.len() ==> !(#[trigger] after[i]).eq_spec(&after[i - 1]),
{
    if before.len() > 1 {
        let dup = choose|dup: Seq<bool>|
            {
                &&& dup.len() == before.len()
                &&& !dup[0]
                &&& forall|i: int|
                    #[trigger] between(1, i, before.len() as int) ==> (E::obeys_eq_spec() ==> dup[i]
                        == before[i].eq_spec(&before[i - 1]))
                &&& after == kept(before, negated(dup))
            };
        lemma_dedup_prefix(before, dup, before.len() as int);
        assert(before.take(before.len() as int) =~= before);
    }
}

/// The items kept of the first `n` items: the last of them is, or equals,
/// the last of the `n`, and none equals the one before it.
proof fn lemma_dedup_prefix<E: PartialEq>(s: Seq<E>, dup: Seq<bool>, n: int)
    requires
        obeys_eq::<E>(),
        dup.len() == s.len(),
        1 <= n <= s.len(),
        !dup[0],
        forall|i: int|
            #[trigger] between(1, i, s.len() as int) ==> (E::obeys_eq_spec() ==> dup[i]
                == s[i].eq_spec(&s[i - 1])),
    ensures
        kept(s.take(n), negated(dup)).len() >= 1,
        kept(s.take(n), negated(dup)).last() == s[n - 1] || kept(s.take(n), negated(dup)).last().eq_spec(
            &s[n - 1],
        ),
        forall|i: int|
            1 <= i < kept(s.take(n), negated(dup)).len() ==> !(#[trigger] kept(
                s.take(n),
                negated(dup),
            )[i]).eq_spec(&kept(s.take(n), negated(dup))[i - 1]),
    decreases n,
{
    reveal(obeys_eq_spec_properties);
    let keep = negated(dup);
    lemma_kept_step(s, keep, n - 1);
    if n == 1 {
        assert(s.take(0) =~= Seq::<E>::empty());
        assert(kept(s.take(1), keep) == Seq::<E>::empty().push(s[0]));
    } else {
        lemma_dedup_prefix(s, dup, n - 1);
        let k = kept(s.take(n - 1), keep);
        assert(between(1, n - 1, s.len() as int));
        let cur = s[n - 1];
        let prev = s[n - 2];
        if !dup[n - 1] {
            assert(!cur.eq_spec(&prev));
            if cur.eq_spec(&k.last()) {
                if k.last() != prev {
                    assert(k.last().eq_spec(&prev));
                    assert(cur.eq_spec(&prev));
                }
            }
            let k2 = k.push(cur);
            assert(kept(s.take(n), keep) == k2);
            assert forall|i: int| 1 <= i < k2.len() implies !(#[trigger] k2[i]).eq_spec(&k2[i - 1]) by {
                if i < k2.len() - 1 {
                    assert(k2[i] == k[i] && k2[i - 1] == k[i - 1]);
                }
            }
        } else {
            assert(cur.eq_spec(&prev));
            assert(prev.eq_spec(&cur));
            if k.last() != prev {
                assert(k.last().eq_spec(&prev));
                assert(k.last().eq_spec(&cur));
            }
        }
    }
}

/// Where a run of calls on a `Drain` over the range from `start` to `stop`
/// of the items `s0` stands: the vector holds the items outside the range,
/// and the items not yet yielded are those of the range from `start + a` up
/// to `start + b`.
pub open spec fn drain_run<E>(
    s0: Seq<E>,
    start: int,
    stop: int,
    vec: Seq<E>,
    items: Seq<E>,
    a: int,
    b: int,
) -> bool {
    &&& 0 <= start <= stop <= s0.len()
    &&& 0 <= a <= b <= stop - start
    &&& vec == s0.subrange(0, start) + s0.subrange(stop, s0.len() as int)
    &&& items == s0.subrange(start + a, start + b)
}

/// A run begins where `drain` leaves it: nothing of the range yielded yet.
pub proof fn law_drain_begins<E>(s0: Seq<E>, start: int, stop: int, vec: Seq<E>, items: Seq<E>)
    requires
        0 <= start <= stop <= s0.len(),
        vec == s0.subrange(0, start) + s0.subrange(stop, s0.len() as int),
        items == s0.subrange(start, stop),
    ensures
        drain_run(s0, start, stop, vec, items, 0, stop - start),
{
}

/// A call of `next`, `next_back`, `nth` or `nth_back` keeps the run's state:
/// it leaves the vector alone and the items not yet yielded a stretch of
/// those there were (`items.subrange(i, j)`).
pub proof fn law_drain_step<E>(
    s0: Seq<E>,
    start: int,
    stop: int,
    vec: Seq<E>,
    items: Seq<E>,
    a: int,
    b: int,
    vec2: Seq<E>,
    items2: Seq<E>,
    i: int,
    j: int,
) -> (res: (int, int))
    requires
        drain_run(s0, start, stop, vec, items, a, b),
        vec2 == vec,
        0 <= i <= j <= items.len(),
        items2 == items.subrange(i, j),
    ensures
        drain_run(s0, start, stop, vec2, items2, res.0, res.1),
        res.0 == a + i,
        res.1 == a + j,
{
    assert(items2 =~= s0.subrange(start + a + i, start + a + j));
    (a + i, a + j)
}

/// Wherever a run stops: dropping the `Drain` leaves the vector with the
/// items outside the range, and `keep_rest` puts back exactly the items not
/// yet yielded, in their place between them.
pub proof fn law_drain_outcome<E>(
    s0: Seq<E>,
    start: int,
    stop: int,
    vec: Seq<E>,
    items: Seq<E>,
    a: int,
    b: int,
)
    requires
        drain_run(s0, start, stop, vec, items, a, b),
    ensures
        vec == s0.subrange(0, start) + s0.subrange(stop, s0.len() as int),
        vec.subrange(0, start) + items + vec.subrange(start, vec.len() as int) == s0.subrange(
            0,
            start,
        ) + s0.subrange(start + a, start + b) + s0.subrange(stop, s0.len() as int),
{
    assert(vec.subrange(0, start) =~= s0.subrange(0, start));
    assert(vec.subrange(start, vec.len() as int) =~= s0.subrange(stop, s0.len() as int));
}

/// Closing hands back the close behavior exactly as it was set, a separate
/// store's path included, and the vector keeps it for the next time.
pub proof fn law_close_hands_back_behavior<E>(v0: FileVec<E>, c: Option<Closing<E>>, v1: FileVec<E>)
    requires
        v0.closed(c, v1),
    ensures
        c matches Some(cl) ==> cl.behavior == v0.on_close(),
        v0.on_close() matches OnClose::Serialize(Some(p)) ==> (c matches Some(cl)
            ==> cl.behavior matches OnClose::Serialize(Some(q)) && q == p),
        v1.on_close() == v0.on_close(),
{
}

/// A range given by its two bounds covers the same positions as the plain
/// range with those ends: an included lower end `s` starts at `s`, an
/// excluded one after it; an excluded upper end `e` stops before `e`, an
/// included one after it, and a missing one at the vector's end.
pub proof fn law_bound_pair_range(a: Bound<usize>, b: Bound<usize>, len: nat)
    ensures
        a matches Bound::Included(s) ==> range_start((a, b)) == s,
        a matches Bound::Excluded(s) ==> range_start((a, b)) == (if s == usize::MAX {
            s as nat
        } else {
            (s + 1) as nat
        }),
        a is Unbounded ==> range_start((a, b)) == 0,
        b matches Bound::Excluded(e) ==> range_stop((a, b), len) == e,
        b matches Bound::Included(e) ==> range_stop((a, b), len) == (if e == usize::MAX {
            e as nat
        } else {
            (e + 1) as nat
        }),
        b is Unbounded ==> range_stop((a, b), len) == len,
{
}

/// `(Included(s), Excluded(e))` is the range `s..e`, and
/// `(Included(s), Unbounded)` is `s..`: they start and stop at the same
/// positions.
pub proof fn law_bound_pair_as_range(s: usize, e: usize, len: nat)
    ensures
        range_start((Bound::Included(s), Bound::Excluded(e))) == range_start(s..e),
        range_stop((Bound::Included(s), Bound::Excluded(e)), len) == range_stop(s..e, len),
        range_start((Bound::Included(s), Bound::<usize>::Unbounded)) == range_start(s..),
        range_stop((Bound::Included(s), Bound::<usize>::Unbounded), len) == range_stop(s.., len),
        range_start((Bound::Included(s), Bound::Included(e))) == range_start(s..e),
{
}

} // verus!
