//! A table of numbers marked as seen.
use vstd::prelude::*;
use std::collections::HashMap;

verus! {

broadcast use vstd::std_specs::hash::group_hash_axioms;

/// Marks `i` as seen.
pub fn insert(vec: &mut HashMap<i32, bool>, i: i32)
    ensures
        final(vec)@ == old(vec)@.insert(i, true),
{
    vec.insert(i, true);
}

} // verus!
