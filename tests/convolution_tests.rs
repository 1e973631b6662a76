use convolution::circular::{checked_positive_wrapped_convolution, positive_wrapped_convolution};
use convolution::linear::{checked_polynomial_multiply, polynomial_multiply};
use convolution::timing::profile;

#[test]
fn test_basic() {
    assert_eq!(2 + 2, 4);
}

#[test]
fn test_polynomial_multiply() {
    let a: Vec<i64> = vec![1, 2, 3, 4];
    let b: Vec<i64> = vec![5, 6, 7, 8];
    let result = polynomial_multiply(&a, &b);
    assert_eq!(result, vec![5, 16, 34, 60, 61, 52, 32]);
}

#[test]
fn test_positive_wrapped_convolution() {
    let a: Vec<i64> = vec![1, 2, 3, 4];
    let b: Vec<i64> = vec![5, 6, 7, 8];
    let expected = vec![66, 68, 66, 60];

    let result = positive_wrapped_convolution(&a, &b);
    assert_eq!(result, expected);
}

#[test]
fn linear_is_commutative_on_samples() {
    let a: Vec<i64> = vec![1, 2, 3, 4];
    let b: Vec<i64> = vec![5, 6, 7, 8];
    assert_eq!(polynomial_multiply(&b, &a), vec![5, 16, 34, 60, 61, 52, 32]);
    let c: Vec<i64> = vec![1, 2, 3];
    let d: Vec<i64> = vec![4, 5];
    assert_eq!(polynomial_multiply(&c, &d), polynomial_multiply(&d, &c));
}

#[test]
fn circular_is_commutative_on_samples() {
    let a: Vec<i64> = vec![1, 2, 3, 4];
    let b: Vec<i64> = vec![5, 6, 7, 8];
    assert_eq!(positive_wrapped_convolution(&b, &a), vec![66, 68, 66, 60]);
}

#[test]
fn linear_length_is_sum_of_lengths_minus_one() {
    let a: Vec<i64> = vec![1, 2, 3];
    let b: Vec<i64> = vec![4, 5];
    let r = polynomial_multiply(&a, &b);
    assert_eq!(r.len(), 4);
    assert_eq!(r, vec![4, 13, 22, 15]);
}

#[test]
fn circular_length_is_input_length() {
    let a: Vec<i64> = vec![3, -1, 2];
    let b: Vec<i64> = vec![1, 1, 1];
    assert_eq!(positive_wrapped_convolution(&a, &b).len(), 3);
}

#[test]
fn circular_equals_linear_wrapped_around() {
    let a: Vec<i64> = vec![1, 2, 3, 4];
    let b: Vec<i64> = vec![5, 6, 7, 8];
    let n = a.len();
    let lin = polynomial_multiply(&a, &b);
    let circ = positive_wrapped_convolution(&a, &b);
    for x in 0..n {
        let mut folded: i64 = 0;
        for (k, c) in lin.iter().enumerate() {
            if k % n == x {
                folded += c;
            }
        }
        assert_eq!(circ[x], folded);
    }
}

#[test]
fn linear_identity_is_one() {
    let a: Vec<i64> = vec![7, -3, 0, 12];
    assert_eq!(polynomial_multiply(&a, &[1]), a);
    assert_eq!(polynomial_multiply(&[1], &a), a);
}

#[test]
fn circular_identity_is_unit_impulse() {
    let a: Vec<i64> = vec![7, -3, 0, 12];
    assert_eq!(positive_wrapped_convolution(&a, &[1, 0, 0, 0]), a);
    assert_eq!(positive_wrapped_convolution(&[5], &[1]), vec![5]);
}

#[test]
fn circular_shift_wraps_negative_offsets() {
    // b = x, so every coefficient moves up one place and the last wraps to the front.
    let a: Vec<i64> = vec![1, 2, 3, 4];
    assert_eq!(positive_wrapped_convolution(&a, &[0, 1, 0, 0]), vec![4, 1, 2, 3]);
    assert_eq!(positive_wrapped_convolution(&a, &[0, 0, 0, 1]), vec![2, 3, 4, 1]);
}

#[test]
fn linear_with_negative_coefficients() {
    assert_eq!(polynomial_multiply(&[-1, 2], &[3, -4]), vec![-3, 10, -8]);
}

#[test]
fn linear_empty_input_gives_empty_result() {
    let empty: Vec<i64> = Vec::new();
    assert_eq!(polynomial_multiply(&empty, &[1, 2]), Vec::<i64>::new());
    assert_eq!(polynomial_multiply(&[1, 2], &empty), Vec::<i64>::new());
    assert_eq!(polynomial_multiply(&empty, &empty), Vec::<i64>::new());
}

#[test]
fn circular_empty_input_gives_empty_result() {
    let empty: Vec<i64> = Vec::new();
    assert_eq!(positive_wrapped_convolution(&empty, &empty), Vec::<i64>::new());
}

#[test]
fn checked_linear_reports_overflow() {
    assert_eq!(checked_polynomial_multiply(&[i64::MAX], &[2]), None);
    assert_eq!(checked_polynomial_multiply(&[i64::MAX], &[1]), Some(vec![i64::MAX]));
    assert_eq!(checked_polynomial_multiply(&[i64::MIN, 1], &[1, -1]), None);
    assert_eq!(
        checked_polynomial_multiply(&[1, 2, 3, 4], &[5, 6, 7, 8]),
        Some(vec![5, 16, 34, 60, 61, 52, 32])
    );
}

#[test]
fn checked_circular_reports_overflow() {
    assert_eq!(checked_positive_wrapped_convolution(&[i64::MAX, 1], &[1, 1]), None);
    assert_eq!(
        checked_positive_wrapped_convolution(&[i64::MAX, 0], &[1, 0]),
        Some(vec![i64::MAX, 0])
    );
    assert_eq!(
        checked_positive_wrapped_convolution(&[1, 2, 3, 4], &[5, 6, 7, 8]),
        Some(vec![66, 68, 66, 60])
    );
}

#[test]
fn profile_returns_the_computed_value() {
    let a: Vec<i64> = vec![1, 2];
    let b: Vec<i64> = vec![3, 4];
    let (result, _elapsed) = profile(|| polynomial_multiply(&a, &b));
    assert_eq!(result, vec![3, 10, 8]);
}
