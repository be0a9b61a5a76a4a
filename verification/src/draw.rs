//! Random draws for the shuffled play list, and the record of each draw.
//!
//! Only this module makes a record, so code elsewhere cannot claim a draw it
//! did not make, nor a bound it did not hand over.

use vstd::prelude::*;
use rand::Rng;

verus! {

/// The record of one draw: the bound handed to it and the number drawn.
pub struct Drawn {
    bound: Ghost<int>,
    value: Ghost<int>,
}

impl Drawn {
    /// The draw was made from `0..bound`.
    pub closed spec fn bound(&self) -> int {
        self.bound@
    }

    /// The number drawn.
    pub closed spec fn value(&self) -> int {
        self.value@
    }
}

/// `rand::rng().random_range(0..len)`: a number drawn from `0..len`, with the
/// record of the draw. Which number comes out depends on chance; only the
/// range is claimed. It panics on an empty range, which `requires` leaves
/// out.
#[verifier::external_body]
pub(crate) fn random_below(len: i32) -> (r: (i32, Drawn))
    requires
        len > 0,
    ensures
        0 <= r.0 < len,
        r.1.bound() == len,
        r.1.value() == r.0,
{
    let d = rand::rng().random_range(0..len);
    (d, Drawn { bound: Ghost(len as int), value: Ghost(d as int) })
}

} // verus!
