//! Randomness, taken from the `rand` crate.

use vstd::prelude::*;

verus! {

/// Relies on `rand::random`: draws a value of `T` from the standard
/// uniform distribution.  The result depends on the generator's state, so
/// nothing is promised of it.
pub assume_specification<T>[ rand::random::<T> ]() -> (r: T)
    where
        rand::distr::StandardUniform: rand::distr::Distribution<T>,
;

} // verus!
