//! Random draws.
//!
//! The draws come from `rand`'s thread-local generator. Nothing is promised of
//! a drawn value: callers are verified for every outcome.

use vstd::prelude::*;

verus! {

/// `rand::random::<usize>()`: some machine-sized number.
#[verifier::external_body]
pub(crate) fn random_usize() -> usize {
    rand::random::<usize>()
}

/// `rand::random::<bool>()`: one side of a fair coin.
#[verifier::external_body]
pub(crate) fn random_bool() -> bool {
    rand::random::<bool>()
}

} // verus!
