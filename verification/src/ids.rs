//! The identifier generator: collision-checked random 64-bit handles.

use crate::chance::next_id;
use rand::rngs::SmallRng;
use std::collections::HashMap;
use vstd::prelude::*;
use vstd::set_lib::{lemma_int_range, lemma_map_size, set_int_range};

verus! {

broadcast use vstd::std_specs::hash::group_hash_axioms;

/// How many random draws are tried before the generator falls back on the
/// lowest free id.
pub const MAX_DRAWS: u32 = 64;

/// A finite set of 64-bit ids that holds every id has 2^64 elements.
pub proof fn lemma_all_ids(ids: Set<u64>)
    requires
        ids.finite(),
        forall|k: u64| ids.contains(k),
    ensures
        ids.len() == 0x1_0000_0000_0000_0000,
{
    let range = set_int_range(0, 0x1_0000_0000_0000_0000);
    lemma_int_range(0, 0x1_0000_0000_0000_0000);
    let narrow = |i: int| i as u64;
    assert(vstd::relations::injective_on(narrow, range));
    assert forall|k: u64| range.map(narrow).contains(k) by {
        assert(range.contains(k as int));
        assert(narrow(k as int) == k);
    }
    assert(range.map(narrow) =~= ids);
    lemma_map_size(range, ids, narrow);
}

/// The lowest id that is not a key of `taken`.
pub fn lowest_free<V>(taken: &HashMap<u64, V>) -> (id: u64)
    ensures
        !taken@.contains_key(id),
        forall|k: u64| k < id ==> taken@.contains_key(k),
{
    let mut id: u64 = 0;
    while id < u64::MAX && taken.contains_key(&id)
        invariant
            forall|k: u64| k < id ==> taken@.contains_key(k),
        decreases u64::MAX - id,
    {
        id += 1;
    }
    proof {
        if taken@.contains_key(id) {
            assert forall|k: u64| taken@.dom().contains(k) by {
                assert(k < id || k == id);
            }
            lemma_all_ids(taken@.dom());
            assert(taken@.len() == taken.len());
        }
    }
    id
}

/// An id that is not a key of `taken`: the first of up to [`MAX_DRAWS`]
/// random draws that is free, else the lowest free id.
pub fn fresh_id<V>(taken: &HashMap<u64, V>, rng: &mut SmallRng) -> (id: u64)
    ensures
        !taken@.contains_key(id),
{
    let mut tries: u32 = 0;
    while tries < MAX_DRAWS
        invariant
            tries <= MAX_DRAWS,
        decreases MAX_DRAWS - tries,
    {
        let id = next_id(rng);
        if !taken.contains_key(&id) {
            return id;
        }
        tries += 1;
    }
    lowest_free(taken)
}

} // verus!
