//! Linear convolution: the coefficients of the product of two polynomials.
use vstd::prelude::*;
use crate::summation::{sum, lemma_sum_step, lemma_sum_ext, lemma_sum_reflect, lemma_sum_restrict};

verus! {

/// A sequence of machine integers read as mathematical integers.
pub open spec fn ints(s: Seq<i64>) -> Seq<int> {
    s.map_values(|v: i64| v as int)
}

/// Whether `v` is representable as an `i64`.
pub open spec fn in_i64(v: int) -> bool {
    i64::MIN <= v <= i64::MAX
}

/// The contribution of `a[i]` to coefficient `k` of the product: `a[i] * b[k - i]`
/// when both indices are in range, zero otherwise.
pub open spec fn linear_term(a: Seq<i64>, b: Seq<i64>, k: int, i: int) -> int {
    if 0 <= i < a.len() && 0 <= k - i < b.len() {
        a[i] * b[k - i]
    } else {
        0
    }
}

/// The terms of coefficient `k`, indexed by the position in `a`.
pub open spec fn linear_terms(a: Seq<i64>, b: Seq<i64>, k: int) -> spec_fn(int) -> int {
    |i: int| linear_term(a, b, k, i)
}

/// Coefficient `k` of the product: the sum of `a[i] * b[j]` over `i + j == k`.
pub open spec fn linear_coef(a: Seq<i64>, b: Seq<i64>, k: int) -> int {
    sum(linear_terms(a, b, k), 0, a.len() as int)
}

/// The linear convolution of `a` and `b`: `a.len() + b.len() - 1`
/// coefficients, or none when either input is empty.
pub open spec fn linear_conv(a: Seq<i64>, b: Seq<i64>) -> Seq<int> {
    if a.len() == 0 || b.len() == 0 {
        Seq::empty()
    } else {
        Seq::new((a.len() + b.len() - 1) as nat, |k: int| linear_coef(a, b, k))
    }
}

/// Whether accumulating every coefficient term by term, in increasing order
/// of the position in `a`, stays within `i64`.
pub open spec fn linear_fits(a: Seq<i64>, b: Seq<i64>) -> bool {
    a.len() == 0 || b.len() == 0 || forall|k: int, t: int|
        0 <= k < a.len() + b.len() - 1 && 0 <= t <= a.len() ==> in_i64(
            #[trigger] sum(linear_terms(a, b, k), 0, t),
        )
}

/// Linear convolution that reports overflow: `None` exactly when some running
/// sum of a coefficient leaves `i64`. An empty input gives an empty result.
pub fn checked_polynomial_multiply(a: &[i64], b: &[i64]) -> (r: Option<Vec<i64>>)
    requires
        a.len() + b.len() - 1 <= usize::MAX,
    ensures
        r is Some <==> linear_fits(a@, b@),
        r matches Some(v) ==> ints(v@) == linear_conv(a@, b@),
{
    let n = a.len();
    let m = b.len();
    if n == 0 || m == 0 {
        return Some(Vec::new());
    }
    let len = n - 1 + m;
    let mut result: Vec<i64> = Vec::new();
    let mut z: usize = 0;
    while z < len
        invariant
            z <= len,
            result@.len() == z,
            forall|q: int| 0 <= q < z ==> result@[q] == 0,
        decreases len - z,
    {
        result.push(0);
        z += 1;
    }
    let mut i: usize = 0;
    while i < n
        invariant
            n == a@.len(),
            m == b@.len(),
            0 < n,
            0 < m,
            len == n + m - 1,
            i <= n,
            result@.len() == len,
            forall|k: int|
                0 <= k < len ==> result@[k] as int == #[trigger] sum(
                    linear_terms(a@, b@, k),
                    0,
                    i as int,
                ),
            forall|k: int, t: int|
                0 <= k < len && 0 <= t <= i ==> in_i64(
                    #[trigger] sum(linear_terms(a@, b@, k), 0, t),
                ),
        decreases n - i,
    {
        let ai = a[i];
        let mut j: usize = 0;
        while j < m
            invariant
                n == a@.len(),
                m == b@.len(),
                len == n + m - 1,
                i < n,
                j <= m,
                ai == a@[i as int],
                result@.len() == len,
                forall|k: int|
                    0 <= k < len ==> result@[k] as int == sum(linear_terms(a@, b@, k), 0, i as int)
                        + (if i <= k < i + j {
                        linear_term(a@, b@, k, i as int)
                    } else {
                        0
                    }),
                forall|k: int, t: int|
                    0 <= k < len && 0 <= t <= i ==> in_i64(
                        #[trigger] sum(linear_terms(a@, b@, k), 0, t),
                    ),
                forall|k: int|
                    i <= k < i + j ==> in_i64(
                        #[trigger] sum(linear_terms(a@, b@, k), 0, i + 1),
                    ),
            decreases m - j,
        {
            let k = i + j;
            let bj = b[j];
            proof {
                lemma_sum_step(linear_terms(a@, b@, k as int), 0, i as int);
                assert(linear_term(a@, b@, k as int, i as int) == ai * bj);
                assert(-0x4000_0000_0000_0000_0000_0000_0000_0000 <= (ai as int) * (bj as int)
                    <= 0x4000_0000_0000_0000_0000_0000_0000_0000) by (nonlinear_arith)
                    requires
                        i64::MIN <= ai <= i64::MAX,
                        i64::MIN <= bj <= i64::MAX,
                ;
            }
            let s: i128 = result[k] as i128 + (ai as i128) * (bj as i128);
            if s < i64::MIN as i128 || s > i64::MAX as i128 {
                assert(!in_i64(sum(linear_terms(a@, b@, k as int), 0, i + 1)));
                return None;
            }
            result.set(k, s as i64);
            j += 1;
        }
        proof {
            assert forall|k: int| 0 <= k < len implies result@[k] as int == #[trigger] sum(
                linear_terms(a@, b@, k),
                0,
                i + 1,
            ) by {
                lemma_sum_step(linear_terms(a@, b@, k), 0, i as int);
            }
            assert forall|k: int, t: int| 0 <= k < len && 0 <= t <= i + 1 implies in_i64(
                #[trigger] sum(linear_terms(a@, b@, k), 0, t),
            ) by {
                if t == i + 1 && !(i <= k < i + m) {
                    lemma_sum_step(linear_terms(a@, b@, k), 0, i as int);
                }
            }
        }
        i += 1;
    }
    assert(ints(result@) =~= linear_conv(a@, b@));
    Some(result)
}

/// The linear convolution of `a` and `b`: coefficient `k` of the result is
/// the sum of `a[i] * b[j]` over `i + j == k`. An empty input gives an empty
/// result; otherwise the result has `a.len() + b.len() - 1` coefficients.
pub fn polynomial_multiply(a: &[i64], b: &[i64]) -> (r: Vec<i64>)
    requires
        a.len() + b.len() - 1 <= usize::MAX,
        linear_fits(a@, b@),
    ensures
        ints(r@) == linear_conv(a@, b@),
        a.len() > 0 && b.len() > 0 ==> r@.len() == a.len() + b.len() - 1,
        a.len() == 0 || b.len() == 0 ==> r@.len() == 0,
{
    let r = checked_polynomial_multiply(a, b).unwrap();
    assert(ints(r@).len() == r@.len());
    r
}

/// Coefficient `k` is the same whichever input is read as the first factor.
proof fn lemma_linear_coef_commutative(a: Seq<i64>, b: Seq<i64>, k: int)
    requires
        0 < a.len(),
        0 < b.len(),
        0 <= k < a.len() + b.len() - 1,
    ensures
        linear_coef(a, b, k) == linear_coef(b, a, k),
{
    let n = a.len() as int;
    let m = b.len() as int;
    let fa = linear_terms(a, b, k);
    let fb = linear_terms(b, a, k);
    let g = |j: int| fa(k - j);
    lemma_sum_reflect(fa, k, 0, n);
    assert forall|j: int| k - n + 1 <= j < k + 1 implies #[trigger] g(j) == fb(j) by {
        if 0 <= k - j < n && 0 <= j < m {
            assert(a[k - j] * b[j] == b[j] * a[k - j]) by (nonlinear_arith);
        }
    }
    lemma_sum_ext(g, fb, k - n + 1, k + 1);
    let lo = if k - n + 1 > 0 {
        k - n + 1
    } else {
        0
    };
    let hi = if m < k + 1 {
        m
    } else {
        k + 1
    };
    lemma_sum_restrict(fb, k - n + 1, lo, hi, k + 1);
    lemma_sum_restrict(fb, 0, lo, hi, m);
}

/// Linear convolution is commutative: `a * b == b * a` for all inputs, of
/// equal or unequal length.
pub proof fn lemma_linear_commutative(a: Seq<i64>, b: Seq<i64>)
    ensures
        linear_conv(a, b) == linear_conv(b, a),
{
    if a.len() > 0 && b.len() > 0 {
        assert forall|k: int| 0 <= k < a.len() + b.len() - 1 implies #[trigger] linear_conv(
            a,
            b,
        )[k] == linear_conv(b, a)[k] by {
            lemma_linear_coef_commutative(a, b, k);
        }
    }
    assert(linear_conv(a, b) =~= linear_conv(b, a));
}

/// The one-coefficient sequence `[1]` is the identity of linear convolution.
pub proof fn lemma_linear_identity(a: Seq<i64>)
    ensures
        linear_conv(a, seq![1i64]) == ints(a),
{
    let one = seq![1i64];
    if a.len() > 0 {
        assert forall|k: int| 0 <= k < a.len() implies #[trigger] linear_conv(a, one)[k]
            == ints(a)[k] by {
            let f = linear_terms(a, one, k);
            assert forall|i: int| 0 <= i < k || k + 1 <= i < a.len() implies #[trigger] f(i)
                == 0 by {}
            lemma_sum_restrict(f, 0, k, k + 1, a.len() as int);
            assert(sum(f, k, k) == 0);
            assert(f(k) == a[k] * 1);
        }
    }
    assert(linear_conv(a, one) =~= ints(a));
}

} // verus!
