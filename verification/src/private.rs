//! Traits that only this crate can implement. The array traits of the crate
//! root require them, so that their methods apply to arrays and to nothing
//! else.

use vstd::prelude::*;

verus! {

pub trait ArraySealed {

}

impl<T, const N: usize> ArraySealed for [T; N] {

}

pub trait ArrayUnzipSealed {

}

impl<T, U, const N: usize> ArrayUnzipSealed for [(T, U); N] {

}

pub trait ArrayTransposeSealed {

}

impl<T, const M: usize, const N: usize> ArrayTransposeSealed for [[T; M]; N] {

}

} // verus!
