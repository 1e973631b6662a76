//! Positive wrapped (circular) convolution: multiplication in the ring of
//! polynomials modulo `x^n - 1`, where indices wrap around modulo `n`.
use vstd::prelude::*;
use vstd::arithmetic::div_mod::{lemma_mod_add_multiples_vanish, lemma_small_mod};
use crate::summation::{
    sum, lemma_sum_step, lemma_sum_ext, lemma_sum_reflect, lemma_sum_restrict, lemma_sum_split,
    lemma_sum_zero, lemma_sum_add, lemma_sum_periodic,
};
use crate::linear::{ints, in_i64, linear_conv, linear_coef, linear_terms};

verus! {

/// The contribution of `a[i]` to coefficient `x` of the wrapped product:
/// `a[i] * b[(x - i) mod n]`, read with period `n = a.len()` in `i`.
pub open spec fn circular_term(a: Seq<i64>, b: Seq<i64>, x: int, i: int) -> int {
    let n = a.len() as int;
    a[i % n] * b[(x - i) % n]
}

/// The terms of coefficient `x`, indexed by the position in `a`.
pub open spec fn circular_terms(a: Seq<i64>, b: Seq<i64>, x: int) -> spec_fn(int) -> int {
    |i: int| circular_term(a, b, x, i)
}

/// Coefficient `x` of the wrapped product: the sum over `0 <= i < n` of
/// `a[i] * b[(x - i) mod n]`, with the nonnegative modulo.
pub open spec fn circular_coef(a: Seq<i64>, b: Seq<i64>, x: int) -> int {
    sum(circular_terms(a, b, x), 0, a.len() as int)
}

/// The positive wrapped convolution of two sequences of equal length `n`:
/// `n` coefficients.
pub open spec fn circular_conv(a: Seq<i64>, b: Seq<i64>) -> Seq<int> {
    Seq::new(a.len(), |x: int| circular_coef(a, b, x))
}

/// Whether accumulating every coefficient term by term, in increasing order
/// of the position in `a`, stays within `i64`.
pub open spec fn circular_fits(a: Seq<i64>, b: Seq<i64>) -> bool {
    forall|x: int, t: int|
        0 <= x < a.len() && 0 <= t <= a.len() ==> in_i64(
            #[trigger] sum(circular_terms(a, b, x), 0, t),
        )
}

/// The sequence `[1, 0, ..., 0]` of length `n`.
pub open spec fn unit_impulse(n: nat) -> Seq<i64> {
    Seq::new(n, |i: int| if i == 0 { 1i64 } else { 0i64 })
}

/// The sum of the coefficients of `c` whose index is congruent to `x` modulo `n`.
pub open spec fn wrapped_sum(c: Seq<int>, n: int, x: int) -> int {
    sum(|k: int| if k % n == x { c[k] } else { 0 }, 0, c.len() as int)
}

/// The wrapped index `x + n - i` is positive before the modulo is taken, for
/// every `x` and `i` in `[0, n)`, and reducing it gives the nonnegative
/// `(x - i) mod n`.
pub proof fn lemma_wrapped_index_nonnegative(x: int, i: int, n: int)
    requires
        0 <= x < n,
        0 <= i < n,
    ensures
        0 < x + n - i < 2 * n,
        (x + n - i) % n == (x - i) % n,
        (x - i) % n == (if x >= i { x - i } else { x - i + n }),
        0 <= (x - i) % n < n,
{
    lemma_mod_add_multiples_vanish(x - i, n);
    if x >= i {
        lemma_small_mod((x - i) as nat, n as nat);
        lemma_mod_add_multiples_vanish(x - i - n, n);
        assert((x - i + n) % n == (x - i) % n);
    } else {
        lemma_small_mod((x - i + n) as nat, n as nat);
    }
}

/// `(x - i) mod n` for `x` and `i` in `[0, n)`, computed without a negative
/// intermediate value and without overflow.
fn wrapped_index(x: usize, i: usize, n: usize) -> (r: usize)
    requires
        x < n,
        i < n,
    ensures
        r == (x - i) % (n as int),
{
    proof {
        lemma_wrapped_index_nonnegative(x as int, i as int, n as int);
    }
    if x >= i {
        x - i
    } else {
        n - (i - x)
    }
}

/// Positive wrapped convolution that reports overflow: `None` exactly when
/// some running sum of a coefficient leaves `i64`.
pub fn checked_positive_wrapped_convolution(a: &[i64], b: &[i64]) -> (r: Option<Vec<i64>>)
    requires
        a.len() == b.len(),
    ensures
        r is Some <==> circular_fits(a@, b@),
        r matches Some(v) ==> ints(v@) == circular_conv(a@, b@),
{
    let n = a.len();
    let mut result: Vec<i64> = Vec::new();
    let mut x: usize = 0;
    while x < n
        invariant
            n == a@.len(),
            n == b@.len(),
            x <= n,
            result@.len() == x,
            forall|q: int| 0 <= q < x ==> result@[q] as int == #[trigger] circular_coef(a@, b@, q),
            forall|q: int, t: int|
                0 <= q < x && 0 <= t <= n ==> in_i64(
                    #[trigger] sum(circular_terms(a@, b@, q), 0, t),
                ),
        decreases n - x,
    {
        let mut acc: i64 = 0;
        let mut i: usize = 0;
        while i < n
            invariant
                n == a@.len(),
                n == b@.len(),
                x < n,
                i <= n,
                acc as int == sum(circular_terms(a@, b@, x as int), 0, i as int),
                forall|t: int|
                    0 <= t <= i ==> in_i64(#[trigger] sum(circular_terms(a@, b@, x as int), 0, t)),
            decreases n - i,
        {
            let j = wrapped_index(x, i, n);
            let ai = a[i];
            let bj = b[j];
            proof {
                lemma_sum_step(circular_terms(a@, b@, x as int), 0, i as int);
                lemma_small_mod(i as nat, n as nat);
                assert(circular_term(a@, b@, x as int, i as int) == ai * bj);
                assert(-0x4000_0000_0000_0000_0000_0000_0000_0000 <= (ai as int) * (bj as int)
                    <= 0x4000_0000_0000_0000_0000_0000_0000_0000) by (nonlinear_arith)
                    requires
                        i64::MIN <= ai <= i64::MAX,
                        i64::MIN <= bj <= i64::MAX,
                ;
            }
            let s: i128 = acc as i128 + (ai as i128) * (bj as i128);
            if s < i64::MIN as i128 || s > i64::MAX as i128 {
                assert(!in_i64(sum(circular_terms(a@, b@, x as int), 0, i + 1)));
                return None;
            }
            acc = s as i64;
            i += 1;
        }
        result.push(acc);
        x += 1;
    }
    assert(ints(result@) =~= circular_conv(a@, b@));
    Some(result)
}

/// The positive wrapped convolution of two sequences of equal length `n`:
/// coefficient `x` of the result is the sum over `0 <= i < n` of
/// `a[i] * b[(x - i) mod n]`. Inputs of unequal length are a precondition
/// violation.
pub fn positive_wrapped_convolution(a: &[i64], b: &[i64]) -> (r: Vec<i64>)
    requires
        a.len() == b.len(),
        circular_fits(a@, b@),
    ensures
        ints(r@) == circular_conv(a@, b@),
        r@.len() == a.len(),
{
    let r = checked_positive_wrapped_convolution(a, b).unwrap();
    assert(ints(r@).len() == r@.len());
    r
}

/// Coefficient `x` is the same whichever input is read as the first factor.
proof fn lemma_circular_coef_commutative(a: Seq<i64>, b: Seq<i64>, x: int)
    requires
        0 < a.len(),
        a.len() == b.len(),
    ensures
        circular_coef(a, b, x) == circular_coef(b, a, x),
{
    let n = a.len() as int;
    let fa = circular_terms(a, b, x);
    let fb = circular_terms(b, a, x);
    let g = |j: int| fa(x - j);
    lemma_sum_reflect(fa, x, 0, n);
    assert forall|j: int| x - n + 1 <= j < x + 1 implies #[trigger] g(j) == fb(j) by {
        assert(x - (x - j) == j);
        let p = a[(x - j) % n];
        let q = b[j % n];
        assert(p * q == q * p) by (nonlinear_arith);
    }
    lemma_sum_ext(g, fb, x - n + 1, x + 1);
    assert forall|j: int| #[trigger] fb(j + n) == fb(j) by {
        lemma_mod_add_multiples_vanish(j, n);
        lemma_mod_add_multiples_vanish(x - j - n, n);
        assert(x - (j + n) == x - j - n);
        assert(n + (x - j - n) == x - j);
    }
    lemma_sum_periodic(fb, n, x - n + 1);
}

/// Positive wrapped convolution is commutative on inputs of equal length.
pub proof fn lemma_circular_commutative(a: Seq<i64>, b: Seq<i64>)
    requires
        a.len() == b.len(),
    ensures
        circular_conv(a, b) == circular_conv(b, a),
{
    assert forall|x: int| 0 <= x < a.len() implies #[trigger] circular_conv(a, b)[x]
        == circular_conv(b, a)[x] by {
        lemma_circular_coef_commutative(a, b, x);
    }
    assert(circular_conv(a, b) =~= circular_conv(b, a));
}

/// `[1, 0, ..., 0]` of matching length is the identity of positive wrapped
/// convolution.
pub proof fn lemma_circular_identity(a: Seq<i64>)
    requires
        0 < a.len(),
    ensures
        circular_conv(a, unit_impulse(a.len())) == ints(a),
{
    let n = a.len() as int;
    let e = unit_impulse(a.len());
    assert forall|x: int| 0 <= x < n implies #[trigger] circular_conv(a, e)[x] == ints(a)[x] by {
        let f = circular_terms(a, e, x);
        assert forall|i: int| 0 <= i < x || x + 1 <= i < n implies #[trigger] f(i) == 0 by {
            lemma_wrapped_index_nonnegative(x, i, n);
        }
        lemma_sum_restrict(f, 0, x, x + 1, n);
        assert(sum(f, x, x) == 0);
        lemma_wrapped_index_nonnegative(x, x, n);
        lemma_small_mod(x as nat, n as nat);
        assert(f(x) == a[x] * 1);
    }
    assert(circular_conv(a, e) =~= ints(a));
}

/// For `0 <= k < 2n`, `k mod n` is `k` or `k - n`.
proof fn lemma_mod_two_periods(k: int, n: int)
    requires
        0 < n,
        0 <= k < 2 * n,
    ensures
        k % n == (if k < n { k } else { k - n }),
{
    if k < n {
        lemma_small_mod(k as nat, n as nat);
    } else {
        lemma_small_mod((k - n) as nat, n as nat);
        lemma_mod_add_multiples_vanish(k - n, n);
    }
}

/// Each wrapped coefficient collects the linear coefficients at `x` and
/// `x + n`.
proof fn lemma_circular_coef_folds_linear(a: Seq<i64>, b: Seq<i64>, x: int)
    requires
        0 < a.len(),
        a.len() == b.len(),
        0 <= x < a.len(),
    ensures
        circular_coef(a, b, x) == linear_coef(a, b, x) + linear_coef(a, b, x + a.len()),
{
    let n = a.len() as int;
    let f = circular_terms(a, b, x);
    let lx = linear_terms(a, b, x);
    let ln = linear_terms(a, b, x + n);
    let both = |i: int| lx(i) + ln(i);
    assert forall|i: int| 0 <= i < n implies #[trigger] f(i) == both(i) by {
        lemma_wrapped_index_nonnegative(x, i, n);
        lemma_small_mod(i as nat, n as nat);
    }
    lemma_sum_ext(f, both, 0, n);
    lemma_sum_add(lx, ln, 0, n);
}

/// Wrapping the linear convolution around modulo `n` gives the positive
/// wrapped convolution: coefficient `x` of the latter is the sum of the
/// linear coefficients whose index is congruent to `x` modulo `n`.
pub proof fn lemma_circular_is_wrapped_linear(a: Seq<i64>, b: Seq<i64>)
    requires
        a.len() == b.len(),
    ensures
        forall|x: int|
            0 <= x < a.len() ==> #[trigger] circular_conv(a, b)[x] == wrapped_sum(
                linear_conv(a, b),
                a.len() as int,
                x,
            ),
{
    let n = a.len() as int;
    let c = linear_conv(a, b);
    assert forall|x: int| 0 <= x < n implies #[trigger] circular_conv(a, b)[x] == wrapped_sum(
        c,
        n,
        x,
    ) by {
        let h = |k: int| if k % n == x { c[k] } else { 0 };
        lemma_circular_coef_folds_linear(a, b, x);
        assert forall|k: int| 0 <= k < 2 * n - 1 && k != x && k != x + n implies #[trigger] h(k)
            == 0 by {
            lemma_mod_two_periods(k, n);
        }
        lemma_mod_two_periods(x, n);
        lemma_sum_split(h, 0, x + 1, 2 * n - 1);
        lemma_sum_restrict(h, 0, x, x + 1, x + 1);
        assert(sum(h, x, x) == 0);
        if x + n < 2 * n - 1 {
            lemma_mod_two_periods(x + n, n);
            lemma_sum_restrict(h, x + 1, x + n, x + n + 1, 2 * n - 1);
            assert(sum(h, x + n, x + n) == 0);
        } else {
            lemma_sum_zero(h, x + 1, 2 * n - 1);
            let ln = linear_terms(a, b, x + n);
            assert forall|i: int| 0 <= i < n implies #[trigger] ln(i) == 0 by {}
            lemma_sum_zero(ln, 0, n);
        }
    }
}

} // verus!
