//! Verified vector demonstrations: safe element lookup and mutating
//! every element through a loop.

use vstd::prelude::*;

verus! {

/// Looks an element up by index, like `Vec::get`: `Some` within bounds,
/// `None` past the end, never a panic.
pub fn get_element(v: &Vec<i32>, i: usize) -> (r: Option<i32>)
    ensures
        r == (if (i as nat) < v@.len() {
            Some(v@[i as int])
        } else {
            None::<i32>
        }),
{
    if i < v.len() {
        Some(v[i])
    } else {
        None
    }
}

/// Referencing vector elements: the third element of `[1, 2, 3, 4, 5]`,
/// a lookup just within bounds, and one far past the end.
pub fn aux() -> (r: (i32, Option<i32>, Option<i32>))
    ensures
        r.0 == 3,
        r.1 == Some(5i32),
        r.2 == None::<i32>,
{
    let v: Vec<i32> = vec![1, 2, 3, 4, 5];
    let third: i32 = v[2];
    let within = get_element(&v, 4);
    let past_end = get_element(&v, 100);
    (third, within, past_end)
}

/// Adds 50 to every element in place.
pub fn add_fifty(v: &mut Vec<i32>)
    requires
        forall|j: int| 0 <= j < old(v)@.len() ==> old(v)@[j] + 50 <= i32::MAX,
    ensures
        final(v)@.len() == old(v)@.len(),
        forall|j: int| 0 <= j < old(v)@.len() ==> final(v)@[j] == old(v)@[j] + 50,
{
    let n = v.len();
    let mut i: usize = 0;
    while i < n
        invariant
            i <= n,
            n == v@.len(),
            v@.len() == old(v)@.len(),
            forall|j: int| 0 <= j < old(v)@.len() ==> old(v)@[j] + 50 <= i32::MAX,
            forall|j: int| 0 <= j < i ==> v@[j] == old(v)@[j] + 50,
            forall|j: int| i <= j < v@.len() ==> v@[j] == old(v)@[j],
        decreases n - i,
    {
        let x = v[i];
        proof {
            assert(v@[i as int] == old(v)@[i as int]);
            assert(old(v)@[i as int] + 50 <= i32::MAX);
        }
        v[i] = x + 50;
        i = i + 1;
    }
}

/// Iterating over a mutable vector: every element of `[100, 32, 57]`
/// grows by 50.
pub fn tertiary() -> (r: Vec<i32>)
    ensures
        r@ =~= seq![150i32, 82i32, 107i32],
{
    let mut v: Vec<i32> = vec![100, 32, 57];
    add_fifty(&mut v);
    v
}

} // verus!
