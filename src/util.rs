//! Generic helpers over slices.

use vstd::prelude::*;

verus! {

/// Whether `cond` holds of some element of `vec`.
pub fn vec_exists<T, F>(vec: &[T], cond: F) -> (r: bool) where F: Fn(&T) -> bool
    requires
        forall|i: int| 0 <= i < vec@.len() ==> cond.requires((&vec@[i],)),
    ensures
        r ==> exists|i: int| 0 <= i < vec@.len() && cond.ensures((&vec@[i],), true),
        !r ==> forall|i: int| 0 <= i < vec@.len() ==> cond.ensures((&vec@[i],), false),
{
    let mut i: usize = 0;
    while i < vec.len()
        invariant
            i <= vec@.len(),
            forall|k: int| 0 <= k < vec@.len() ==> cond.requires((&vec@[k],)),
            forall|k: int| 0 <= k < i ==> cond.ensures((&vec@[k],), false),
        decreases vec@.len() - i,
    {
        let b = cond(&vec[i]);
        if b {
            return true;
        }
        i = i + 1;
    }
    false
}

/// Maps `map` over `vec`, stopping at the first error.
pub fn vec_sequence_map<E, A, B, F>(vec: &[A], map: F) -> (r: Result<Vec<B>, E>) where
    F: Fn(&A) -> Result<B, E>,

    requires
        forall|i: int| 0 <= i < vec@.len() ==> map.requires((&vec@[i],)),
    ensures
        match r {
            Ok(v) => v@.len() == vec@.len() && forall|i: int|
                0 <= i < vec@.len() ==> map.ensures((&vec@[i],), Ok(v@[i])),
            Err(e) => exists|i: int|
                0 <= i < vec@.len() && map.ensures((&vec@[i],), Err(e)),
        },
{
    let mut v: Vec<B> = Vec::new();
    let mut i: usize = 0;
    while i < vec.len()
        invariant
            i <= vec@.len(),
            v@.len() == i,
            forall|k: int| 0 <= k < vec@.len() ==> map.requires((&vec@[k],)),
            forall|k: int| 0 <= k < i ==> map.ensures((&vec@[k],), Ok(v@[k])),
        decreases vec@.len() - i,
    {
        let b = map(&vec[i]);
        match b {
            Ok(x) => {
                v.push(x);
            },
            Err(e) => {
                return Err(e);
            },
        }
        i = i + 1;
    }
    Ok(v)
}

} // verus!
