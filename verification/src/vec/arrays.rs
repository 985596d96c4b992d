//! Vectors of arrays: a vector from an array, grouping items into arrays,
//! and laying arrays' items out again.
use vstd::prelude::*;
use super::{backing_after, FileVec, OnClose};
use crate::capacity::max_capacity;
use crate::seqs::reversed;

verus! {

/// Calls `Vec::from` on an array: a vector of the array's items, in order.
#[verifier::external_body]
fn array_items<E, const N: usize>(a: [E; N]) -> (v: Vec<E>)
    ensures
        v@ == a@,
{
    Vec::from(a)
}

/// Calls `<[E; N]>::try_from` on a vector of exactly `N` items: the array of
/// those items, in order (it fails only on another number of items, which
/// `requires` rules out).
#[verifier::external_body]
fn array_of<E, const N: usize>(v: Vec<E>) -> (a: [E; N])
    requires
        v@.len() == N,
    ensures
        a@ == v@,
{
    <[E; N]>::try_from(v).ok().unwrap()
}

/// The items of `s` from position `k * n` on, `n` of them: the `k`-th chunk
/// of `n` items.
pub open spec fn chunk<E>(s: Seq<E>, k: int, n: int) -> Seq<E> {
    s.subrange(k * n, k * n + n)
}

/// The items of each array, in order.
pub open spec fn arrays_view<E, const N: usize>(s: Seq<[E; N]>) -> Seq<Seq<E>> {
    s.map_values(|a: [E; N]| a@)
}

impl<E> FileVec<E> {
    /// A vector holding the items of `items`, with a buffer of exactly their
    /// number and a fresh backing file (none if there are no items).
    pub fn from_array<const N: usize>(items: [E; N]) -> (v: Self)
        requires
            vstd::layout::size_of::<E>() > 0,
            N <= max_capacity::<E>(),
        ensures
            v.wf(),
            v@ == items@,
            v.cap() == N,
            backing_after(None, N > 0, v.backing()),
            v.on_close() == OnClose::Delete,
            !v.serializes(),
    {
        let items = array_items(items);
        let mut v = Self::new();
        proof { v.lemma_wf(); }
        v.extend(items);
        v
    }

    /// Groups the items into arrays of `N`, dropping the items after the last
    /// whole group; the backing file and the close behavior carry over (the
    /// serialization, which is set up for single items, does not), and
    /// the buffer holds as many groups as fit in it. A vector without a backing
    /// file gives an empty vector that deletes its file on close.
    pub fn into_chunks<const N: usize>(self) -> (v: FileVec<[E; N]>)
        requires
            self.wf(),
            N > 0,
            vstd::layout::size_of::<[E; N]>() == N * vstd::layout::size_of::<E>(),
        ensures
            v.wf(),
            v@.len() == (self@.len() as int) / (N as int),
            forall|k: int| 0 <= k < v@.len() ==> (#[trigger] v@[k])@ == chunk(self@, k, N as int),
            v.cap() == self.cap() / (N as nat),
            v.backing() == self.backing(),
            v.on_close() == (if self.backing() is None {
                OnClose::Delete
            } else {
                self.on_close()
            }),
            !v.serializes(),
    {
        proof {
            self.lemma_wf();
            lemma_chunk_sizes::<E, N>(self.cap() as int);
        }
        let mut this = self;
        let n: usize = this.items.len();
        proof {
            vstd::arithmetic::div_mod::lemma_fundamental_div_mod(n as int, N as int);
            vstd::arithmetic::div_mod::lemma_mod_bound(n as int, N as int);
            vstd::arithmetic::div_mod::lemma_mod_multiples_basic((n as int) / (N as int), N as int);
            assert((N as int) * ((n as int) / (N as int)) == ((n as int) / (N as int)) * (N as int))
                by (nonlinear_arith);
        }
        let whole: usize = n - n % N;
        this.truncate(whole);
        if this.path.is_none() {
            return FileVec::new();
        }
        let ghost s0 = this@;
        let FileVec { items, cap, path, closebehavior, serial: _ } = this;
        let mut rest = items;
        let mut chunks: Vec<[E; N]> = Vec::new();
        let mut k: usize = 0;
        while rest.len() > 0
            invariant
                N > 0,
                s0.len() == whole,
                whole % N == 0,
                k * N + rest@.len() == whole,
                k <= whole,
                rest@ == s0.subrange(k * N, whole as int),
                chunks@.len() == k,
                forall|j: int| 0 <= j < k ==> (#[trigger] chunks@[j])@ == chunk(s0, j, N as int),
            decreases rest@.len(),
        {
            proof {
                lemma_chunk_step(k as int, N as int, rest@.len() as int);
                assert(k + 1 <= whole) by (nonlinear_arith)
                    requires
                        k * N + rest@.len() == whole,
                        rest@.len() >= N,
                        N > 0,
                ;
            }
            let tail = rest.split_off(N);
            let group: [E; N] = array_of(rest);
            chunks.push(group);
            rest = tail;
            proof {
                assert((k + 1) * N == k * N + N) by (nonlinear_arith);
            }
            k = k + 1;
        }
        proof {
            assert(k * N == whole);
            assert(k as int == (whole as int) / (N as int)) by (nonlinear_arith)
                requires
                    k * N == whole,
                    N > 0,
            ;
            assert((whole as int) / (N as int) == (n as int) / (N as int)) by (nonlinear_arith)
                requires
                    whole as int == n as int - (n as int) % (N as int),
                    N > 0,
            ;
            assert forall|j: int| 0 <= j < chunks@.len() implies (#[trigger] chunks@[j])@ == chunk(
                self@,
                j,
                N as int,
            ) by {
                assert((j + 1) * N <= whole) by (nonlinear_arith)
                    requires
                        j < k,
                        k * N == whole,
                        N > 0,
                ;
                assert(j * N + N == (j + 1) * N) by (nonlinear_arith);
                assert(chunk(s0, j, N as int) =~= chunk(self@, j, N as int));
            }
        }
        vstd::layout::layout_for_type_is_valid::<[E; N]>();
        proof {
            vstd::arithmetic::div_mod::lemma_div_is_ordered(whole as int, cap as int, N as int);
        }
        FileVec { items: chunks, cap: cap / N, path, closebehavior, serial: false }
    }

    /// Groups the items into arrays of `N` as `into_chunks` does, where `N` is
    /// not zero and an array of `N` items takes `N` times an item's bytes;
    /// otherwise hands the vector back unchanged.
    pub fn try_into_chunks<const N: usize>(self) -> (r: Result<FileVec<[E; N]>, Self>)
        requires
            self.wf(),
        ensures
            r is Ok <==> (N > 0 && vstd::layout::size_of::<[E; N]>() == N
                * vstd::layout::size_of::<E>()),
            r matches Err(w) ==> w == self,
            r matches Ok(v) ==> {
                &&& v.wf()
                &&& v@.len() == (self@.len() as int) / (N as int)
                &&& forall|k: int|
                    0 <= k < v@.len() ==> (#[trigger] v@[k])@ == chunk(self@, k, N as int)
                &&& v.cap() == self.cap() / (N as nat)
                &&& v.backing() == self.backing()
                &&& v.on_close() == (if self.backing() is None {
                    OnClose::Delete
                } else {
                    self.on_close()
                })
                &&& !v.serializes()
            },
    {
        if N == 0 {
            return Err(self);
        }
        let whole: Option<usize> = N.checked_mul(core::mem::size_of::<E>());
        match whole {
            Some(b) => {
                if core::mem::size_of::<[E; N]>() == b {
                    Ok(self.into_chunks::<N>())
                } else {
                    Err(self)
                }
            },
            None => {
                vstd::layout::layout_for_type_is_valid::<[E; N]>();
                Err(self)
            },
        }
    }
}

impl<E, const N: usize> FileVec<[E; N]> {
    /// Lays the arrays' items out one after another; the backing file and the
    /// close behavior carry over (the serialization, which is set up for
    /// arrays, does not), and the buffer holds `N` items for each
    /// array it held room for. A vector without a backing file gives an empty
    /// vector that deletes its file on close.
    pub fn into_flattened(self) -> (v: FileVec<E>)
        requires
            self.wf(),
            vstd::layout::size_of::<[E; N]>() == N * vstd::layout::size_of::<E>(),
        ensures
            v.wf(),
            v@ == arrays_view(self@).flatten(),
            v.cap() == self.cap() * N,
            v.backing() == self.backing(),
            v.on_close() == (if self.backing() is None {
                OnClose::Delete
            } else {
                self.on_close()
            }),
            !v.serializes(),
    {
        proof {
            self.lemma_wf();
            lemma_flat_sizes::<E, N>(self.cap() as int, self@.len() as int);
        }
        if self.path.is_none() {
            proof {
                assert(self@.len() == 0);
                assert(arrays_view(self@) =~= Seq::<Seq<E>>::empty());
            }
            return FileVec::new();
        }
        let ghost s0 = self@;
        let FileVec { items, cap, path, closebehavior, serial: _ } = self;
        let n: usize = items.len();
        let mut pending = reversed(items);
        let mut out: Vec<E> = Vec::new();
        let mut i: usize = 0;
        while pending.len() > 0
            invariant
                n == s0.len(),
                i + pending@.len() == n,
                forall|k: int| 0 <= k < pending@.len() ==> pending@[k] == s0[n - 1 - k],
                out@ == arrays_view(s0.take(i as int)).flatten(),
            decreases pending@.len(),
        {
            let a = pending.pop().unwrap();
            let mut part = array_items(a);
            proof {
                assert(arrays_view(s0.take(i + 1)) =~= arrays_view(s0.take(i as int)).push(a@));
                arrays_view(s0.take(i as int)).lemma_flatten_push(a@);
            }
            out.append(&mut part);
            i = i + 1;
        }
        proof {
            assert(s0.take(n as int) =~= s0);
            lemma_flat_len::<E, N>(s0);
        }
        vstd::layout::layout_for_type_is_valid::<E>();
        FileVec { items: out, cap: cap * N, path, closebehavior, serial: false }
    }

    /// Lays the arrays' items out as `into_flattened` does, where an array of
    /// `N` items takes `N` times an item's bytes; otherwise hands the vector
    /// back unchanged.
    pub fn try_into_flattened(self) -> (r: Result<FileVec<E>, Self>)
        requires
            self.wf(),
        ensures
            r is Ok <==> vstd::layout::size_of::<[E; N]>() == N * vstd::layout::size_of::<E>(),
            r matches Err(w) ==> w == self,
            r matches Ok(v) ==> {
                &&& v.wf()
                &&& v@ == arrays_view(self@).flatten()
                &&& v.cap() == self.cap() * N
                &&& v.backing() == self.backing()
                &&& v.on_close() == (if self.backing() is None {
                    OnClose::Delete
                } else {
                    self.on_close()
                })
                &&& !v.serializes()
            },
    {
        let whole: Option<usize> = N.checked_mul(core::mem::size_of::<E>());
        match whole {
            Some(b) => {
                if core::mem::size_of::<[E; N]>() == b {
                    Ok(self.into_flattened())
                } else {
                    Err(self)
                }
            },
            None => {
                vstd::layout::layout_for_type_is_valid::<[E; N]>();
                Err(self)
            },
        }
    }
}

/// Laying out arrays of `N` gives `N` items for each.
proof fn lemma_flat_len<E, const N: usize>(s: Seq<[E; N]>)
    ensures
        arrays_view(s).flatten().len() == s.len() * N,
    decreases s.len(),
{
    if s.len() == 0 {
        assert(arrays_view(s) =~= Seq::<Seq<E>>::empty());
    } else {
        lemma_flat_len::<E, N>(s.drop_last());
        vstd::array::array_len_matches_n(&s.last());
        assert(arrays_view(s) =~= arrays_view(s.drop_last()).push(s.last()@));
        arrays_view(s.drop_last()).lemma_flatten_push(s.last()@);
        assert(s.drop_last().len() * N + N == s.len() * N) by (nonlinear_arith)
            requires
                s.drop_last().len() + 1 == s.len(),
        ;
    }
}

/// A buffer of `cap` arrays of `N` items of `E` holds `cap * N` items within
/// what `E` allows, when `[E; N]` is laid out as `N` items of `E`.
proof fn lemma_flat_sizes<E, const N: usize>(cap: int, len: int)
    requires
        vstd::layout::size_of::<[E; N]>() == N * vstd::layout::size_of::<E>(),
        vstd::layout::size_of::<[E; N]>() > 0,
        vstd::layout::size_of::<[E; N]>() <= isize::MAX,
        0 <= len <= cap <= max_capacity::<[E; N]>(),
    ensures
        N > 0,
        vstd::layout::size_of::<E>() > 0,
        vstd::layout::size_of::<E>() <= isize::MAX,
        cap * N <= max_capacity::<E>(),
        len * N <= cap * N,
{
    let s = vstd::layout::size_of::<E>() as int;
    let n = N as int;
    assert(n > 0 && s > 0) by (nonlinear_arith)
        requires
            n * s > 0,
            n >= 0,
            s >= 0,
    ;
    assert(s <= n * s) by (nonlinear_arith)
        requires
            n > 0,
            s > 0,
    ;
    let x = isize::MAX as int;
    vstd::arithmetic::div_mod::lemma_div_denominator(x, s, n);
    assert(s * n == n * s) by (nonlinear_arith);
    vstd::arithmetic::div_mod::lemma_fundamental_div_mod(x / s, n);
    assert(cap * n <= (x / s / n) * n) by (nonlinear_arith)
        requires
            cap <= x / s / n,
            n > 0,
    ;
    vstd::arithmetic::div_mod::lemma_mod_bound(x / s, n);
    assert((x / s / n) * n <= x / s) by (nonlinear_arith)
        requires
            x / s == n * (x / s / n) + (x / s) % n,
            (x / s) % n >= 0,
    ;
    assert(len * n <= cap * n) by (nonlinear_arith)
        requires
            len <= cap,
            n > 0,
    ;
}

/// A buffer of `cap` items of `E` holds `cap / N` groups of `N`, within what
/// `[E; N]` allows, when `[E; N]` is laid out as `N` items of `E`.
proof fn lemma_chunk_sizes<E, const N: usize>(cap: int)
    requires
        N > 0,
        vstd::layout::size_of::<[E; N]>() == N * vstd::layout::size_of::<E>(),
        vstd::layout::size_of::<E>() > 0,
        vstd::layout::size_of::<E>() <= isize::MAX,
        0 <= cap <= max_capacity::<E>(),
    ensures
        vstd::layout::size_of::<[E; N]>() > 0,
        cap / (N as int) <= max_capacity::<[E; N]>(),
        cap / (N as int) <= cap,
{
    let s = vstd::layout::size_of::<E>() as int;
    let n = N as int;
    assert(n * s > 0) by (nonlinear_arith)
        requires
            n > 0,
            s > 0,
    ;
    vstd::arithmetic::div_mod::lemma_div_denominator(isize::MAX as int, s, n);
    assert(cap / n <= (isize::MAX as int / s) / n) by (nonlinear_arith)
        requires
            cap <= isize::MAX as int / s,
            n > 0,
            cap >= 0,
    {
        vstd::arithmetic::div_mod::lemma_div_is_ordered(cap, isize::MAX as int / s, n);
    }
    assert(s * n == n * s) by (nonlinear_arith);
    assert(cap / n <= cap) by (nonlinear_arith)
        requires
            n > 0,
            cap >= 0,
    ;
}

proof fn lemma_chunk_step(k: int, n: int, rest: int)
    requires
        n > 0,
        rest > 0,
        (k * n + rest) % n == 0,
        k >= 0,
    ensures
        rest >= n,
{
    assert(rest % n == 0) by (nonlinear_arith)
        requires
            (k * n + rest) % n == 0,
            n > 0,
            k >= 0,
            rest >= 0,
    {
        vstd::arithmetic::div_mod::lemma_mod_multiples_vanish(k, rest, n);
    }
    assert(rest >= n) by (nonlinear_arith)
        requires
            rest % n == 0,
            rest > 0,
            n > 0,
    ;
}

} // verus!
