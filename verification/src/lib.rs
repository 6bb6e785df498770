//! Basic length-generic methods on arrays.
//!
//! This crate provides utilities for initializing, consuming, and
//! transforming arrays whose elements need be neither `Copy` nor `Default`.
//! All methods are length-generic.
//!
//! | Function      | Arguments         | Result                    |
//! |---------------|-------------------|---------------------------|
//! | [`new`]       | `usize -> T`      | `[T; N]`                  |
//! | [`new_boxed`] | `usize -> T`      | `Box<[T; N]>`             |
//! | `into_iter`   | `[T; N]`          | `IntoIter<T, N>`          |
//! | `map`         | `[T; N]`, `T -> U`| `[U; N]`                  |
//! | `zip`         | `[T; N]`, `[U; N]`| `[(T, U); N]`             |
//! | `unzip`       | `[(T, U); N]`     | `[T; N]`, `[U; N]`        |
//! | `transpose`   | `[[T; M]; N]`     | `[[T; N]; M]`             |

pub mod compare;
pub mod core_array;
pub mod into_iter;
mod private;
pub mod utils;

pub use into_iter::IntoIter;

use crate::core_array::boxed_block;
use crate::into_iter::{advanced, front, lemma_yields_in_order};
use crate::utils::{extract, pull_maybe_uninit, push_maybe_uninit, widened};
use vstd::prelude::*;

verus! {

/// The pairs made of the elements of `a` and `b` at the same index.
pub open spec fn zipped<T, U>(a: Seq<T>, b: Seq<U>) -> Seq<(T, U)> {
    Seq::new(a.len(), |i: int| (a[i], b[i]))
}

/// The first components of `pairs` and their second components, each in
/// order.
pub open spec fn unzipped<T, U>(pairs: Seq<(T, U)>) -> (Seq<T>, Seq<U>) {
    (Seq::new(pairs.len(), |i: int| pairs[i].0), Seq::new(pairs.len(), |i: int| pairs[i].1))
}

/// A sequence of rows, each row as the sequence of its elements.
pub open spec fn grid<T, const M: usize>(rows: Seq<[T; M]>) -> Seq<Seq<T>> {
    Seq::new(rows.len(), |j: int| rows[j]@)
}

/// The transpose of `rows` outer rows of `cols` elements each: `cols` outer
/// rows of `rows` elements, where element `j` of row `i` is element `i` of
/// row `j` of the input.
pub open spec fn transposed<T>(g: Seq<Seq<T>>, rows: nat, cols: nat) -> Seq<Seq<T>> {
    Seq::new(cols, |i: int| Seq::new(rows, |j: int| g[j][i]))
}

/// Takes a closure and creates an array by calling that closure on each
/// index, from `0` up.
pub fn new<T, const N: usize>(mut f: impl FnMut(usize) -> T) -> (arr: [T; N])
    requires
        forall|i: usize| i < N ==> call_requires(f, (i,)),
    ensures
        forall|i: usize| i < N ==> call_ensures(f, (i,), #[trigger] arr@[i as int]),
{
    let ghost make = f;
    let mut slots: [Option<T>; N] = push_maybe_uninit(None);
    let mut i: usize = 0;
    while i < N
        invariant
            i <= N,
            f == make,
            forall|j: usize| j < N ==> call_requires(make, (j,)),
            forall|j: usize|
                j < i ==> (#[trigger] slots@[j as int]) is Some && call_ensures(
                    make,
                    (j,),
                    slots@[j as int]->0,
                ),
        decreases N - i,
    {
        let item = f(i);
        slots[i] = Some(item);
        i += 1;
    }
    pull_maybe_uninit(slots).unwrap()
}

/// Takes a closure and creates an array by calling that closure on each
/// index, from `0` up.
///
/// The array is allocated directly on the heap.
pub fn new_boxed<T, const N: usize>(mut f: impl FnMut(usize) -> T) -> (arr: Box<[T; N]>)
    requires
        forall|i: usize| i < N ==> call_requires(f, (i,)),
    ensures
        forall|i: usize| i < N ==> call_ensures(f, (i,), #[trigger] arr@[i as int]),
{
    let ghost make = f;
    let mut items: Vec<T> = Vec::with_capacity(N);
    let mut i: usize = 0;
    while i < N
        invariant
            i <= N,
            f == make,
            items@.len() == i,
            forall|j: usize| j < N ==> call_requires(make, (j,)),
            forall|j: usize| j < i ==> call_ensures(make, (j,), #[trigger] items@[j as int]),
        decreases N - i,
    {
        let item = f(i);
        items.push(item);
        i += 1;
    }
    boxed_block(items)
}

/// Methods on arrays. Implemented for `[T; N]`, and for nothing else.
pub trait Array<T, const N: usize>: private::ArraySealed + Sized + View<V = Seq<T>> {
    /// Creates an iterator that owns the array and yields its elements by
    /// value, first to last.
    fn into_iter(self) -> (iter: IntoIter<T, N>)
        ensures
            iter@ == self@,
            iter.position() == 0,
    ;

    /// Takes a closure and creates a new array by calling that closure on
    /// each element, first to last.
    fn map<U, F: FnMut(T) -> U>(self, f: F) -> (out: [U; N])
        requires
            forall|i: int| 0 <= i < N ==> call_requires(f, (#[trigger] self@[i],)),
        ensures
            forall|i: int| 0 <= i < N ==> call_ensures(f, (self@[i],), #[trigger] out@[i]),
    ;

    /// Converts a pair of arrays into an array of pairs.
    fn zip<U>(self, other: [U; N]) -> (out: [(T, U); N])
        ensures
            out@ == zipped(self@, other@),
    ;
}

impl<T, const N: usize> Array<T, N> for [T; N] {
    fn into_iter(self) -> (iter: IntoIter<T, N>) {
        into_iter::new(self)
    }

    fn map<U, F: FnMut(T) -> U>(self, mut f: F) -> (out: [U; N]) {
        let ghost visit = f;
        let ghost items = self@;
        let mut arr = push_maybe_uninit(Some(self));
        let mut out: [Option<U>; N] = push_maybe_uninit(None);
        let mut i: usize = 0;
        while i < N
            invariant
                i <= N,
                f == visit,
                items.len() == N,
                forall|j: int| 0 <= j < N ==> call_requires(visit, (#[trigger] items[j],)),
                forall|j: int| i <= j < N ==> (#[trigger] arr@[j]) == Some(items[j]),
                forall|j: int|
                    0 <= j < i ==> (#[trigger] out@[j]) is Some && call_ensures(
                        visit,
                        (items[j],),
                        out@[j]->0,
                    ),
            decreases N - i,
        {
            let item = extract(&mut arr, i);
            let image = f(item);
            out[i] = Some(image);
            i += 1;
        }
        pull_maybe_uninit(out).unwrap()
    }

    fn zip<U>(self, other: [U; N]) -> (out: [(T, U); N]) {
        let ghost lefts = self@;
        let ghost rights = other@;
        let mut arr1 = push_maybe_uninit(Some(self));
        let mut arr2 = push_maybe_uninit(Some(other));
        let mut out: [Option<(T, U)>; N] = push_maybe_uninit(None);
        let mut i: usize = 0;
        while i < N
            invariant
                i <= N,
                lefts.len() == N,
                rights.len() == N,
                forall|j: int| i <= j < N ==> (#[trigger] arr1@[j]) == Some(lefts[j]),
                forall|j: int| i <= j < N ==> (#[trigger] arr2@[j]) == Some(rights[j]),
                forall|j: int| 0 <= j < i ==> (#[trigger] out@[j]) == Some((lefts[j], rights[j])),
            decreases N - i,
        {
            let left = extract(&mut arr1, i);
            let right = extract(&mut arr2, i);
            out[i] = Some((left, right));
            i += 1;
        }
        let out = pull_maybe_uninit(out).unwrap();
        assert(out@ =~= zipped(lefts, rights));
        out
    }
}

/// The `unzip` method on arrays of pairs. Implemented for `[(T, U); N]`,
/// and for nothing else.
pub trait ArrayUnzip<T, U, const N: usize>: private::ArrayUnzipSealed + Sized + View<
    V = Seq<(T, U)>,
> {
    /// Converts an array of pairs into a pair of arrays.
    fn unzip(self) -> (out: ([T; N], [U; N]))
        ensures
            (out.0@, out.1@) == unzipped(self@),
    ;
}

impl<T, U, const N: usize> ArrayUnzip<T, U, N> for [(T, U); N] {
    fn unzip(self) -> (out: ([T; N], [U; N])) {
        let ghost pairs = self@;
        let mut arr = push_maybe_uninit(Some(self));
        let mut out1: [Option<T>; N] = push_maybe_uninit(None);
        let mut out2: [Option<U>; N] = push_maybe_uninit(None);
        let mut i: usize = 0;
        while i < N
            invariant
                i <= N,
                pairs.len() == N,
                forall|j: int| i <= j < N ==> (#[trigger] arr@[j]) == Some(pairs[j]),
                forall|j: int| 0 <= j < i ==> (#[trigger] out1@[j]) == Some(pairs[j].0),
                forall|j: int| 0 <= j < i ==> (#[trigger] out2@[j]) == Some(pairs[j].1),
            decreases N - i,
        {
            let (t, u) = extract(&mut arr, i);
            out1[i] = Some(t);
            out2[i] = Some(u);
            i += 1;
        }
        let firsts = pull_maybe_uninit(out1).unwrap();
        let seconds = pull_maybe_uninit(out2).unwrap();
        assert(firsts@ =~= unzipped(pairs).0);
        assert(seconds@ =~= unzipped(pairs).1);
        (firsts, seconds)
    }
}

/// The `transpose` method on arrays of arrays. Implemented for
/// `[[T; M]; N]`, and for nothing else.
pub trait ArrayTranspose<
    T,
    const M: usize,
    const N: usize,
>: private::ArrayTransposeSealed + Sized + View<V = Seq<[T; M]>> {
    /// Transposes a 2D array: `N` rows of `M` elements become `M` rows of
    /// `N` elements.
    fn transpose(self) -> (out: [[T; N]; M])
        ensures
            grid(out@) == transposed(grid(self@), N as nat, M as nat),
            forall|i: int, j: int|
                0 <= i < M && 0 <= j < N ==> (#[trigger] out@[i]@[j]) == self@[j]@[i],
    ;
}

impl<T, const M: usize, const N: usize> ArrayTranspose<T, M, N> for [[T; M]; N] {
    fn transpose(self) -> (out: [[T; N]; M]) {
        let ghost rows = grid(self@);
        let mut arr: [[Option<T>; M]; N] = Array::map(self, |row: [T; M]| -> (slots: [Option<T>; M])
            ensures slots@ == widened(Some(row@), M as nat),
        { push_maybe_uninit(Some(row)) });
        let mut out: [Option<[T; N]>; M] = push_maybe_uninit(None);
        let mut i: usize = 0;
        while i < M
            invariant
                i <= M,
                rows.len() == N,
                forall|j: int| 0 <= j < N ==> (#[trigger] rows[j]).len() == M,
                forall|j: int, c: int|
                    0 <= j < N && i <= c < M ==> (#[trigger] arr@[j]@[c]) == Some(rows[j][c]),
                forall|c: int|
                    0 <= c < i ==> (#[trigger] out@[c]) is Some && out@[c]->0@ == Seq::new(
                        N as nat,
                        |j: int| rows[j][c],
                    ),
            decreases M - i,
        {
            let mut column: [Option<T>; N] = push_maybe_uninit(None);
            let mut j: usize = 0;
            while j < N
                invariant
                    j <= N,
                    i < M,
                    rows.len() == N,
                    forall|r: int| 0 <= r < N ==> (#[trigger] rows[r]).len() == M,
                    forall|r: int, c: int|
                        0 <= r < N && i < c < M ==> (#[trigger] arr@[r]@[c]) == Some(rows[r][c]),
                    forall|r: int| j <= r < N ==> (#[trigger] arr@[r]@[i as int]) == Some(rows[r][i as int]),
                    forall|r: int| 0 <= r < j ==> (#[trigger] column@[r]) == Some(rows[r][i as int]),
                decreases N - j,
            {
                let item = extract(&mut arr[j], i);
                column[j] = Some(item);
                j += 1;
            }
            let column = pull_maybe_uninit(column).unwrap();
            assert(column@ =~= Seq::new(N as nat, |r: int| rows[r][i as int]));
            out[i] = Some(column);
            i += 1;
        }
        let out = pull_maybe_uninit(out).unwrap();
        assert(grid(out@) =~= transposed(rows, N as nat, M as nat));
        assert forall|i: int, j: int| 0 <= i < M && 0 <= j < N implies (#[trigger] out@[i]@[j])
            == rows[j][i] by {
            assert(out@[i]@ == grid(out@)[i]);
        }
        out
    }
}

/// Splitting what `zip` made gives the two inputs back.
pub proof fn lemma_unzip_zip<T, U>(a: Seq<T>, b: Seq<U>)
    requires
        a.len() == b.len(),
    ensures
        unzipped(zipped(a, b)) == (a, b),
{
    assert(unzipped(zipped(a, b)).0 =~= a);
    assert(unzipped(zipped(a, b)).1 =~= b);
}

/// Pairing what `unzip` made gives its input back.
pub proof fn lemma_zip_unzip<T, U>(pairs: Seq<(T, U)>)
    ensures
        zipped(unzipped(pairs).0, unzipped(pairs).1) == pairs,
{
    assert(zipped(unzipped(pairs).0, unzipped(pairs).1) =~= pairs);
}

/// Transposing twice gives the input back: for `rows` rows of `cols`
/// elements each, the transpose of the transpose is the grid itself.
pub proof fn lemma_transpose_twice<T>(g: Seq<Seq<T>>, rows: nat, cols: nat)
    requires
        g.len() == rows,
        forall|j: int| 0 <= j < rows ==> (#[trigger] g[j]).len() == cols,
    ensures
        transposed(transposed(g, rows, cols), cols, rows) == g,
{
    let back = transposed(transposed(g, rows, cols), cols, rows);
    assert forall|j: int| 0 <= j < rows implies #[trigger] back[j] == g[j] by {
        assert(back[j] =~= g[j]);
    }
    assert(back =~= g);
}

/// For every index function `g`: an array built by `new` from a closure
/// that computes `g`, walked from the start, yields `g(0)`, `g(1)`, and so
/// on up to the last index, in this order, and then nothing.
pub proof fn lemma_new_then_walk<T, F: FnMut(usize) -> T>(
    f: F,
    g: spec_fn(usize) -> T,
    built: Seq<T>,
    k: nat,
)
    requires
        built.len() <= usize::MAX,
        forall|i: usize| i < built.len() ==> call_ensures(f, (i,), #[trigger] built[i as int]),
        forall|i: usize, item: T| call_ensures(f, (i,), item) ==> item == g(i),
    ensures
        k < built.len() ==> front(advanced(built, k)) == Some(g(k as usize)),
        k >= built.len() ==> front(advanced(built, k)) is None,
{
    lemma_yields_in_order(built, k);
    if k < built.len() {
        assert(call_ensures(f, (k as usize,), built[k as usize as int]));
    }
}

} // verus!
