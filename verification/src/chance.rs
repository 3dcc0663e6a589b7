//! The one source of chance.

use vstd::prelude::*;

verus! {

/// A number that chance picks, by `rand::random`, which draws it from
/// the generator of the calling thread. Nothing is claimed of it: two
/// calls may give any two numbers.
#[verifier::external_body]
pub(crate) fn random_u64() -> (roll: u64) {
    rand::random::<u64>()
}

} // verus!
