//! Verified demonstrations of moving and copying values: integers are
//! duplicated freely, while heap-owning strings change owners.

use vstd::prelude::*;
use vstd::string::StringExecFns;

verus! {

/// Moving demonstration: an integer assignment copies, while assigning
/// a `String` transfers ownership and leaves the source unusable.
pub fn mover() {
    let x: i32 = 5;
    let y = x;
    let _ = y;
    let s1 = String::from_str("hello");
    let s2 = s1;
    let _ = s2;
}

/// Ownership and functions: handing a `String` to a new binding moves
/// it, while handing an integer over copies it, so the integer stays
/// usable afterwards.
pub fn foo() {
    let s = String::from_str("hello");
    let consumed = s;
    let _ = consumed;
    let x: i32 = 5;
    let copied = x;
    let _ = copied;
    let still_usable = x;
    let _ = still_usable;
}

/// Produces a fresh owned string and moves it out to the caller.
pub fn gives_ownership() -> (r: String)
    ensures
        r@ == "hello"@,
{
    let some_string = String::from_str("hello");
    some_string
}

/// Takes ownership of a string and hands the very same string back.
pub fn takes_and_gives_back(a_string: String) -> (r: String)
    ensures
        r == a_string,
{
    a_string
}

/// Return values transfer ownership just as assignments do.
pub fn bar() {
    let s1 = gives_ownership();
    let _ = s1;
    let s2 = String::from_str("hello");
    let s3 = takes_and_gives_back(s2);
    let _ = s3;
}

/// Returns the string together with its length in characters, so the
/// caller regains ownership of the string it passed in.
pub fn calculate_length(s: String) -> (r: (String, usize))
    ensures
        r.0 == s,
        r.1 as nat == s@.len(),
{
    let length = s.as_str().unicode_len();
    (s, length)
}

} // verus!
