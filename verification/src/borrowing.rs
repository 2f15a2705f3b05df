//! Verified demonstrations of borrowing: reading through a shared
//! reference and writing through a mutable one.

use vstd::prelude::*;
use vstd::string::StringExecFns;
use vstd::string::StrSliceExecFns;

verus! {

/// Reads the length in characters through a shared reference, without
/// taking ownership of the string.
pub fn calculate_length2(s: &String) -> (l: usize)
    ensures
        l as nat == s@.len(),
{
    s.as_str().unicode_len()
}

/// Appends `", world"` through a mutable reference.
pub fn change2(some_string: &mut String)
    ensures
        final(some_string)@ == old(some_string)@ + ", world"@,
{
    some_string.append(", world");
}

/// A mutable borrow lets a callee modify the borrowed string in place.
pub fn borrow2() {
    let mut s = String::from_str("hello");
    change2(&mut s);
}

/// Two mutable references may exist as long as their lifetimes do not
/// overlap: the first ends with its block before the second is taken.
pub fn works() {
    let mut s = String::from_str("hello");
    {
        let r1 = &mut s;
        let _ = r1;
    }
    let r2 = &mut s;
    let _ = r2;
}

/// Returning the string itself, rather than a reference to a local,
/// moves ownership out and leaves nothing dangling.
pub fn no_dangle() -> (r: String)
    ensures
        r@ == "hello"@,
{
    let s = String::from_str("hello");
    s
}

} // verus!
