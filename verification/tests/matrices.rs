use array_helpers::{new, Array, ArrayTranspose};
use std::ops::ControlFlow;

/// The sum of the products of the elements of `u` and `v` at the same index.
fn dot<const B: usize>(u: [f64; B], v: [f64; B]) -> f64 {
    let mut pairs = Array::into_iter(Array::zip(u, v));
    match pairs.try_fold(0.0, |sum, (a, b)| ControlFlow::<(), f64>::Continue(sum + a * b)) {
        ControlFlow::Continue(sum) => sum,
        ControlFlow::Break(()) => unreachable!(),
    }
}

/// The matrix product of `other`, `A` rows of `B`, with `this`, `B` rows of `C`.
fn product<const A: usize, const B: usize, const C: usize>(
    this: [[f64; C]; B],
    other: [[f64; B]; A],
) -> [[f64; C]; A] {
    Array::map(other, |u| Array::map(ArrayTranspose::transpose(this), |v| dot(u, v)))
}

fn identity<const N: usize>() -> [[f64; N]; N] {
    new(|j| new(|i| if i == j { 1. } else { 0. }))
}

#[test]
fn identity_has_ones_on_the_diagonal() {
    assert_eq!(identity::<3>(), [[1.0, 0.0, 0.0], [0.0, 1.0, 0.0], [0.0, 0.0, 1.0]]);
}

#[test]
fn row_times_column_is_the_dot_product() {
    let m1: [[f64; 3]; 1] = [[1., 2., 3.]];
    let m2: [[f64; 1]; 3] = [[1.], [2.], [3.]];
    assert_eq!(product(m2, m1), [[14.]]);
}

#[test]
fn column_times_row_is_the_outer_product() {
    let m1: [[f64; 3]; 1] = [[1., 2., 3.]];
    let m2: [[f64; 1]; 3] = [[1.], [2.], [3.]];
    assert_eq!(product(m1, m2), [[1., 2., 3.], [2., 4., 6.], [3., 6., 9.]]);
}

#[test]
fn product_with_the_identity_changes_nothing() {
    let m: [[f64; 2]; 3] = [[1., 2.], [3., 4.], [5., 6.]];
    assert_eq!(product(identity::<2>(), m), m);
    assert_eq!(product(m, identity::<3>()), m);
}
