//! Discrete convolution of integer sequences: linear convolution (polynomial
//! multiplication) and positive wrapped convolution (multiplication in the
//! ring of polynomials modulo `x^n - 1`), with their algebraic laws proved.
pub mod summation;
pub mod linear;
pub mod circular;
pub mod timing;
