//! Finite sums of integer-valued functions over half-open integer ranges,
//! and the reindexing facts the convolution proofs rest on.
use vstd::prelude::*;

verus! {

/// The sum of `f(i)` for `lo <= i < hi` (zero for an empty range).
pub open spec fn sum(f: spec_fn(int) -> int, lo: int, hi: int) -> int
    decreases hi - lo,
{
    if hi <= lo {
        0
    } else {
        sum(f, lo, hi - 1) + f(hi - 1)
    }
}

/// Taking one more term from the top of the range.
pub proof fn lemma_sum_step(f: spec_fn(int) -> int, lo: int, hi: int)
    requires
        lo <= hi,
    ensures
        sum(f, lo, hi + 1) == sum(f, lo, hi) + f(hi),
{
}

/// A sum splits at any point inside its range.
pub proof fn lemma_sum_split(f: spec_fn(int) -> int, lo: int, mid: int, hi: int)
    requires
        lo <= mid <= hi,
    ensures
        sum(f, lo, hi) == sum(f, lo, mid) + sum(f, mid, hi),
    decreases hi - mid,
{
    if mid < hi {
        lemma_sum_split(f, lo, mid, hi - 1);
    }
}

/// Taking one term from the bottom of the range.
pub proof fn lemma_sum_peel_low(f: spec_fn(int) -> int, lo: int, hi: int)
    requires
        lo < hi,
    ensures
        sum(f, lo, hi) == f(lo) + sum(f, lo + 1, hi),
{
    lemma_sum_split(f, lo, lo + 1, hi);
    assert(sum(f, lo, lo + 1) == f(lo)) by {
        assert(sum(f, lo, lo) == 0);
    }
}

/// Functions that agree on the range have the same sum over it.
pub proof fn lemma_sum_ext(f: spec_fn(int) -> int, g: spec_fn(int) -> int, lo: int, hi: int)
    requires
        forall|i: int| lo <= i < hi ==> #[trigger] f(i) == g(i),
    ensures
        sum(f, lo, hi) == sum(g, lo, hi),
    decreases hi - lo,
{
    if lo < hi {
        lemma_sum_ext(f, g, lo, hi - 1);
    }
}

/// A function that vanishes on the range sums to zero over it.
pub proof fn lemma_sum_zero(f: spec_fn(int) -> int, lo: int, hi: int)
    requires
        forall|i: int| lo <= i < hi ==> #[trigger] f(i) == 0,
    ensures
        sum(f, lo, hi) == 0,
    decreases hi - lo,
{
    if lo < hi {
        lemma_sum_zero(f, lo, hi - 1);
    }
}

/// Where `f` vanishes outside `[l, h)`, any range that covers `[l, h)` gives
/// the same sum.
pub proof fn lemma_sum_restrict(f: spec_fn(int) -> int, lo: int, l: int, h: int, hi: int)
    requires
        lo <= l <= h <= hi,
        forall|i: int| lo <= i < l ==> #[trigger] f(i) == 0,
        forall|i: int| h <= i < hi ==> #[trigger] f(i) == 0,
    ensures
        sum(f, lo, hi) == sum(f, l, h),
{
    lemma_sum_split(f, lo, l, hi);
    lemma_sum_split(f, l, h, hi);
    lemma_sum_zero(f, lo, l);
    lemma_sum_zero(f, h, hi);
}

/// Summing in reverse order: `i` runs over `[lo, hi)` exactly when `c - i`
/// runs over `[c - hi + 1, c - lo + 1)`.
pub proof fn lemma_sum_reflect(f: spec_fn(int) -> int, c: int, lo: int, hi: int)
    requires
        lo <= hi,
    ensures
        sum(f, lo, hi) == sum(|j: int| f(c - j), c - hi + 1, c - lo + 1),
    decreases hi - lo,
{
    let g = |j: int| f(c - j);
    if lo < hi {
        lemma_sum_reflect(f, c, lo, hi - 1);
        lemma_sum_peel_low(g, c - hi + 1, c - lo + 1);
        assert(g(c - hi + 1) == f(hi - 1));
    }
}

/// Sums of two functions add termwise.
pub proof fn lemma_sum_add(f: spec_fn(int) -> int, g: spec_fn(int) -> int, lo: int, hi: int)
    ensures
        sum(|i: int| f(i) + g(i), lo, hi) == sum(f, lo, hi) + sum(g, lo, hi),
    decreases hi - lo,
{
    if lo < hi {
        lemma_sum_add(f, g, lo, hi - 1);
    }
}

/// A function with period `n` has the same sum over any `n` consecutive
/// integers.
pub proof fn lemma_sum_periodic(f: spec_fn(int) -> int, n: int, d: int)
    requires
        0 < n,
        forall|i: int| #[trigger] f(i + n) == f(i),
    ensures
        sum(f, d, d + n) == sum(f, 0, n),
    decreases
            (if d >= 0 {
                d
            } else {
                -d
            }),
{
    if d > 0 {
        lemma_sum_periodic(f, n, d - 1);
        lemma_sum_peel_low(f, d - 1, d - 1 + n);
        lemma_sum_step(f, d, d - 1 + n);
        assert(f(d - 1 + n) == f(d - 1));
    } else if d < 0 {
        lemma_sum_periodic(f, n, d + 1);
        lemma_sum_peel_low(f, d, d + n);
        lemma_sum_step(f, d + 1, d + n);
        assert(f(d + n) == f(d));
    }
}

} // verus!
