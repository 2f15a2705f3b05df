//! Small verified arithmetic functions.

use vstd::prelude::*;

verus! {

/// Returns the constant used by the function demonstrations.
pub fn five() -> (r: i32)
    ensures
        r == 555,
{
    555
}

/// Adds one to its argument.
pub fn plus_one(x: i32) -> (r: i32)
    requires
        x < i32::MAX,
    ensures
        r == x + 1,
{
    x + 1
}

} // verus!
