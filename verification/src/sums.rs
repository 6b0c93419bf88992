//! Sums of counts that stay at the largest number they can hold.

use vstd::prelude::*;

verus! {

/// A sum that stays at the largest number it could hold.
pub open spec fn capped(n: nat) -> nat {
    if n > u64::MAX {
        u64::MAX as nat
    } else {
        n
    }
}

/// The sum of two counts.
pub fn plus(total: u64, more: u64) -> (r: u64)
    ensures
        r == capped((total + more) as nat),
{
    if more > u64::MAX - total {
        u64::MAX
    } else {
        total + more
    }
}

} // verus!
