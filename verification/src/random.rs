//! Random choices.

use vstd::prelude::*;

verus! {

/// Calls `rand::random::<usize>()`, a number drawn from the thread-local
/// generator. Nothing is claimed of the number: any `usize` may come back.
#[verifier::external_body]
pub(crate) fn random_usize() -> usize {
    rand::random::<usize>()
}

} // verus!
