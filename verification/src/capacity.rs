//! How the backing buffer grows: powers of two for `reserve`, the exact
//! request for `reserve_exact`, and the largest buffer an item type allows.
use vstd::prelude::*;
use vstd::arithmetic::power2::pow2;

verus! {

/// The smallest power of two that is at least `n`, found by doubling `p`.
pub open spec fn pow2_at_least_from(n: nat, p: nat) -> nat
    decreases (if p < n { n - p } else { 0 }),
    when p > 0
{
    if p >= n {
        p
    } else {
        pow2_at_least_from(n, 2 * p)
    }
}

/// The smallest power of two that is at least `n` (one for `n == 0`), as
/// `usize::next_power_of_two` computes it.
pub open spec fn pow2_at_least(n: nat) -> nat {
    pow2_at_least_from(n, 1)
}

proof fn lemma_from_at_least_p(n: nat, p: nat)
    requires
        p > 0,
    ensures
        pow2_at_least_from(n, p) >= p,
        pow2_at_least_from(n, p) >= n,
    decreases (if p < n { n - p } else { 0 }),
{
    if p < n {
        lemma_from_at_least_p(n, 2 * p);
    }
}

proof fn lemma_from_is_pow2(n: nat, p: nat, k: nat)
    requires
        p == pow2(k),
        p == 1 || p < 2 * n,
    ensures
        exists|j: nat| pow2_at_least_from(n, p) == pow2(j),
        pow2_at_least_from(n, p) == 1 || pow2_at_least_from(n, p) < 2 * n,
    decreases (if p < n { n - p } else { 0 }),
{
    vstd::arithmetic::power2::lemma_pow2_pos(k);
    if p < n {
        vstd::arithmetic::power2::lemma_pow2_unfold(k + 1);
        lemma_from_is_pow2(n, 2 * p, k + 1);
    } else {
        assert(pow2_at_least_from(n, p) == pow2(k));
    }
}

/// `pow2_at_least(n)` is a power of two, at least `n`, and below `2 * n`
/// unless it is one: the smallest power of two that holds `n` items.
pub proof fn lemma_pow2_at_least(n: nat)
    ensures
        pow2_at_least(n) >= n,
        pow2_at_least(n) >= 1,
        exists|j: nat| pow2_at_least(n) == pow2(j),
        pow2_at_least(n) == 1 || pow2_at_least(n) < 2 * n,
{
    lemma_from_at_least_p(n, 1);
    vstd::arithmetic::power2::lemma2_to64();
    lemma_from_is_pow2(n, 1, 0);
}

/// Where `reserve(additional)` can be met, the buffer it leaves holds the
/// items and the request, and stays within what `E` allows.
pub proof fn lemma_reserve_room<E>(cap: nat, len: nat, additional: nat)
    requires
        can_reserve::<E>(cap, len, additional),
        len <= cap <= max_capacity::<E>(),
        max_capacity::<E>() <= isize::MAX,
    ensures
        len + additional <= usize::MAX,
        required(len, additional) == len + additional,
        reserve_target(cap, len, additional) >= len + additional,
        reserve_target(cap, len, additional) >= cap,
        reserve_target(cap, len, additional) <= max_capacity::<E>(),
{
    lemma_pow2_at_least(required(len, additional));
}

/// Where `reserve_exact(additional)` can be met, the buffer it leaves holds
/// the items and the request, and stays within what `E` allows.
pub proof fn lemma_reserve_exact_room<E>(cap: nat, len: nat, additional: nat)
    requires
        can_reserve_exact::<E>(cap, len, additional),
        len <= cap <= max_capacity::<E>(),
        max_capacity::<E>() <= isize::MAX,
    ensures
        len + additional <= usize::MAX,
        required(len, additional) == len + additional,
        reserve_exact_target(cap, len, additional) >= len + additional,
        reserve_exact_target(cap, len, additional) >= cap,
        reserve_exact_target(cap, len, additional) <= max_capacity::<E>(),
{
}

/// Computes the smallest power of two that is at least `n`.
pub fn next_power_of_two(n: usize) -> (p: usize)
    requires
        pow2_at_least(n as nat) <= usize::MAX,
    ensures
        p == pow2_at_least(n as nat),
{
    let mut p: usize = 1;
    while p < n
        invariant
            1 <= p,
            pow2_at_least_from(n as nat, p as nat) == pow2_at_least(n as nat),
            pow2_at_least(n as nat) <= usize::MAX,
        decreases usize::MAX - p,
    {
        proof {
            lemma_from_at_least_p(n as nat, 2 * p as nat);
        }
        p = p * 2;
    }
    p
}

/// `len + additional`, saturating at `usize::MAX`, as `usize::saturating_add` does.
pub open spec fn required(len: nat, additional: nat) -> nat {
    if len + additional > usize::MAX {
        usize::MAX as nat
    } else {
        len + additional
    }
}

/// The capacity after `reserve(additional)`: unchanged when the request fits,
/// else the smallest power of two that holds the request.
pub open spec fn reserve_target(cap: nat, len: nat, additional: nat) -> nat {
    if required(len, additional) <= cap {
        cap
    } else {
        pow2_at_least(required(len, additional))
    }
}

/// The capacity after `reserve_exact(additional)`: unchanged when the request
/// fits, else exactly the request.
pub open spec fn reserve_exact_target(cap: nat, len: nat, additional: nat) -> nat {
    if required(len, additional) <= cap {
        cap
    } else {
        required(len, additional)
    }
}

/// The largest number of items of type `E` that a backing buffer may hold:
/// its size in bytes must not pass `isize::MAX`.
pub open spec fn max_capacity<E>() -> nat {
    (isize::MAX as nat / vstd::layout::size_of::<E>()) as nat
}

/// Whether `reserve(additional)` can be met without passing the largest
/// buffer `E` allows.
pub open spec fn can_reserve<E>(cap: nat, len: nat, additional: nat) -> bool {
    required(len, additional) <= cap || pow2_at_least(required(len, additional)) <= max_capacity::<E>()
}

/// Whether `reserve_exact(additional)` can be met without passing the largest
/// buffer `E` allows.
pub open spec fn can_reserve_exact<E>(cap: nat, len: nat, additional: nat) -> bool {
    required(len, additional) <= cap || required(len, additional) <= max_capacity::<E>()
}

/// The largest number of items of type `E` that a backing buffer may hold.
pub fn max_items<E>() -> (m: usize)
    requires
        vstd::layout::size_of::<E>() > 0,
    ensures
        m == max_capacity::<E>(),
        m <= isize::MAX,
{
    let size: usize = core::mem::size_of::<E>();
    let top: usize = isize::MAX as usize;
    top / size
}

/// Computes the capacity `reserve(additional)` asks for.
pub fn reserve_capacity(cap: usize, len: usize, additional: usize) -> (c: usize)
    requires
        pow2_at_least(required(len as nat, additional as nat)) <= usize::MAX
            || required(len as nat, additional as nat) <= cap,
    ensures
        c == reserve_target(cap as nat, len as nat, additional as nat),
{
    let need: usize = additional.saturating_add(len);
    if need <= cap {
        cap
    } else {
        next_power_of_two(need)
    }
}

/// Computes the capacity `reserve_exact(additional)` asks for.
pub fn reserve_exact_capacity(cap: usize, len: usize, additional: usize) -> (c: usize)
    ensures
        c == reserve_exact_target(cap as nat, len as nat, additional as nat),
{
    let need: usize = additional.saturating_add(len);
    if need <= cap {
        cap
    } else {
        need
    }
}

/// The most items `extend` reserves at once on a loose size hint: as many as
/// fit in ten billion bytes.
pub open spec fn loose_hint_limit<E>() -> nat {
    (10_000_000_000nat / vstd::layout::size_of::<E>()) as nat
}

/// Whether `extend` takes the size hint `(low, high)` as exact: both bounds
/// agree and are not zero.
pub open spec fn hint_is_exact(low: usize, high: Option<usize>) -> bool {
    high == Some(low) && low > 0
}

/// How many items one reservation of `extend` asks for on the size hint
/// `(low, high)`: `low` where the hint is exact, else the upper bound (the
/// limit where there is none) kept between one and the limit.
pub open spec fn hint_request<E>(low: usize, high: Option<usize>) -> nat {
    if hint_is_exact(low, high) {
        low as nat
    } else {
        let limit = loose_hint_limit::<E>();
        let h: nat = match high {
            Some(h) => h as nat,
            None => limit,
        };
        if h < 1 {
            1
        } else if h > limit {
            limit
        } else {
            h
        }
    }
}

/// The capacity one reservation of `extend` leaves: as `reserve_exact` where
/// the hint is exact, else as `reserve`.
pub open spec fn hint_target<E>(cap: nat, len: nat, low: usize, high: Option<usize>) -> nat {
    if hint_is_exact(low, high) {
        reserve_exact_target(cap, len, low as nat)
    } else {
        reserve_target(cap, len, hint_request::<E>(low, high))
    }
}

/// Whether one reservation of `extend` can be met: the limit is at least one
/// where the hint is loose, the request fits in a `usize`, and the buffer
/// it asks for stays within what `E` allows.
pub open spec fn can_hint_reserve<E>(cap: nat, len: nat, low: usize, high: Option<usize>) -> bool {
    if hint_is_exact(low, high) {
        can_reserve_exact::<E>(cap, len, low as nat)
    } else {
        &&& loose_hint_limit::<E>() >= 1
        &&& hint_request::<E>(low, high) <= usize::MAX
        &&& can_reserve::<E>(cap, len, hint_request::<E>(low, high))
    }
}

/// The capacity `extend` leaves after appending `n` more items to `len`
/// items in a buffer of `cap`: it reserves before the first item (`fresh`)
/// and whenever the buffer is full.
pub open spec fn extended_cap<E>(
    cap: nat,
    len: nat,
    n: nat,
    fresh: bool,
    low: usize,
    high: Option<usize>,
) -> nat
    decreases n,
{
    if n == 0 {
        cap
    } else {
        let c = if fresh || cap <= len {
            hint_target::<E>(cap, len, low, high)
        } else {
            cap
        };
        extended_cap::<E>(c, len + 1, (n - 1) as nat, false, low, high)
    }
}

/// Whether every reservation `extend` makes while appending `n` more items
/// can be met.
pub open spec fn can_extend<E>(
    cap: nat,
    len: nat,
    n: nat,
    fresh: bool,
    low: usize,
    high: Option<usize>,
) -> bool
    decreases n,
{
    if n == 0 {
        true
    } else {
        let reserves = fresh || cap <= len;
        let c = if reserves {
            hint_target::<E>(cap, len, low, high)
        } else {
            cap
        };
        &&& reserves ==> can_hint_reserve::<E>(cap, len, low, high)
        &&& can_extend::<E>(c, len + 1, (n - 1) as nat, false, low, high)
    }
}

/// The reservation `extend` makes on the size hint `(low, high)`: whether it
/// is exact, and how many items it asks for; none where the hint is loose
/// and either the limit is zero (`clamp` would panic) or the request does
/// not fit in a `usize`.
pub fn hint_reservation<E>(low: usize, high: Option<usize>) -> (r: Option<(bool, usize)>)
    requires
        vstd::layout::size_of::<E>() > 0,
    ensures
        r is Some <==> (hint_is_exact(low, high) || (loose_hint_limit::<E>() >= 1
            && hint_request::<E>(low, high) <= usize::MAX)),
        r matches Some(p) ==> p.0 == hint_is_exact(low, high) && p.1 == hint_request::<E>(
            low,
            high,
        ),
{
    let exact: bool = match high {
        Some(h) => h == low && low > 0,
        None => false,
    };
    if exact {
        return Some((true, low));
    }
    vstd::layout::layout_for_type_is_valid::<E>();
    let size: u64 = core::mem::size_of::<E>() as u64;
    let limit: u64 = 10_000_000_000u64 / size;
    if limit < 1 {
        return None;
    }
    let h: u64 = match high {
        Some(h) => h as u64,
        None => limit,
    };
    let c: u64 = if h < 1 {
        1
    } else if h > limit {
        limit
    } else {
        h
    };
    if c > usize::MAX as u64 {
        return None;
    }
    Some((false, c as usize))
}

/// Whether `reserve(additional)` can be met on `len` items in a buffer of
/// `cap`.
fn reserve_fits<E>(cap: usize, len: usize, additional: usize) -> (b: bool)
    requires
        vstd::layout::size_of::<E>() > 0,
    ensures
        b == can_reserve::<E>(cap as nat, len as nat, additional as nat),
{
    let need: usize = additional.saturating_add(len);
    if need <= cap {
        return true;
    }
    let max: usize = max_items::<E>();
    if need > max {
        proof {
            lemma_pow2_at_least(need as nat);
        }
        return false;
    }
    proof {
        lemma_pow2_at_least(need as nat);
    }
    next_power_of_two(need) <= max
}

/// Whether `reserve_exact(additional)` can be met on `len` items in a buffer
/// of `cap`.
fn reserve_exact_fits<E>(cap: usize, len: usize, additional: usize) -> (b: bool)
    requires
        vstd::layout::size_of::<E>() > 0,
    ensures
        b == can_reserve_exact::<E>(cap as nat, len as nat, additional as nat),
{
    let need: usize = additional.saturating_add(len);
    need <= cap || need <= max_items::<E>()
}

/// Whether `extend_with_hint` can append `n` items to `len` items in a buffer
/// of `cap` on the size hint `(low, high)`: every reservation it makes can
/// be met.
pub fn extend_fits<E>(cap: usize, len: usize, n: usize, low: usize, high: Option<usize>) -> (b:
    bool)
    requires
        vstd::layout::size_of::<E>() > 0,
        len <= cap <= max_capacity::<E>(),
        len + n <= usize::MAX,
    ensures
        b == can_extend::<E>(cap as nat, len as nat, n as nat, true, low, high),
{
    let ghost answer = can_extend::<E>(cap as nat, len as nat, n as nat, true, low, high);
    let max: usize = max_items::<E>();
    let mut c: usize = cap;
    let mut l: usize = len;
    let mut m: usize = n;
    let mut fresh: bool = true;
    while m > 0
        invariant
            vstd::layout::size_of::<E>() > 0,
            answer == can_extend::<E>(cap as nat, len as nat, n as nat, true, low, high),
            max == max_capacity::<E>(),
            max <= isize::MAX,
            l <= c <= max,
            l + m <= usize::MAX,
            answer == can_extend::<E>(c as nat, l as nat, m as nat, fresh, low, high),
        decreases m,
    {
        if fresh || c <= l {
            match hint_reservation::<E>(low, high) {
                None => {
                    return false;
                },
                Some((exact, amount)) => {
                    if exact {
                        if !reserve_exact_fits::<E>(c, l, amount) {
                            return false;
                        }
                        c = reserve_exact_capacity(c, l, amount);
                    } else {
                        if !reserve_fits::<E>(c, l, amount) {
                            return false;
                        }
                        proof {
                            lemma_reserve_room::<E>(c as nat, l as nat, amount as nat);
                            lemma_pow2_at_least(required(l as nat, amount as nat));
                        }
                        c = reserve_capacity(c, l, amount);
                    }
                },
            }
        }
        fresh = false;
        l = l + 1;
        m = m - 1;
    }
    true
}

} // verus!
