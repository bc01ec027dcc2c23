//! Small helpers on vectors.

use vstd::prelude::*;

verus! {

/// The items of `v` in reverse order. A vector is taken apart from its
/// front, item by item and without copies, by reversing it and popping.
pub fn reversed<T>(v: Vec<T>) -> (r: Vec<T>)
    ensures
        r.len() == v.len(),
        forall|k: int| 0 <= k < v.len() ==> r[k] == v[v.len() - 1 - k],
{
    let ghost n = v.len();
    let mut source = v;
    let mut r: Vec<T> = Vec::new();
    while source.len() > 0
        invariant
            n == v.len(),
            r.len() + source.len() == n,
            forall|k: int| 0 <= k < r.len() ==> r[k] == v[n - 1 - k],
            forall|k: int| 0 <= k < source.len() ==> source[k] == v[k],
        decreases source.len(),
    {
        let item = source.pop().unwrap();
        r.push(item);
    }
    r
}

} // verus!
