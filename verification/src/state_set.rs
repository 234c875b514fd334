use vstd::prelude::*;

verus! {

broadcast use vstd::seq_lib::group_seq_properties;

// Sets of automaton state ids are carried as plain vectors; the contracts of
// the automaton operations speak of `v@.to_set()`, so duplicate entries
// would be harmless, but the builders below keep the vectors duplicate-free
// to bound their size.

/// Whether `s` occurs in `v`.
pub fn contains_state(v: &Vec<u64>, s: u64) -> (r: bool)
    ensures
        r == v@.contains(s),
{
    let mut i: usize = 0;
    while i < v.len()
        invariant
            i <= v@.len(),
            forall|j: int| 0 <= j < i ==> v@[j] != s,
        decreases v@.len() - i,
    {
        if v[i] == s {
            return true;
        }
        i = i + 1;
    }
    false
}

/// Appends `s` unless it is already present; afterwards the vector holds
/// exactly the old states plus `s`.
pub fn add_state(v: &mut Vec<u64>, s: u64)
    ensures
        final(v)@.to_set() == old(v)@.to_set().insert(s),
        old(v)@.contains(s) ==> final(v)@ == old(v)@,
        !old(v)@.contains(s) ==> final(v)@ == old(v)@.push(s),
{
    if !contains_state(v, s) {
        v.push(s);
        proof {
            old(v)@.lemma_push_to_set_commute(s);
        }
    } else {
        proof {
            assert(v@.to_set().contains(s));
            assert(v@.to_set() =~= v@.to_set().insert(s));
        }
    }
}

/// A copy of a state-id vector.
pub fn copy_states(v: &Vec<u64>) -> (r: Vec<u64>)
    ensures
        r@ == v@,
{
    let mut r: Vec<u64> = Vec::new();
    let mut i: usize = 0;
    while i < v.len()
        invariant
            i <= v@.len(),
            r@ == v@.take(i as int),
        decreases v@.len() - i,
    {
        r.push(v[i]);
        proof {
            assert(v@.take(i as int).push(v@[i as int]) =~= v@.take(i as int + 1));
        }
        i = i + 1;
    }
    proof {
        assert(v@.take(v@.len() as int) =~= v@);
    }
    r
}

/// Whether the two vectors share a state.
pub fn intersects(a: &Vec<u64>, b: &Vec<u64>) -> (r: bool)
    ensures
        r == exists|s: u64| a@.contains(s) && b@.contains(s),
{
    let mut i: usize = 0;
    while i < a.len()
        invariant
            i <= a@.len(),
            forall|j: int| 0 <= j < i ==> !b@.contains(#[trigger] a@[j]),
        decreases a@.len() - i,
    {
        if contains_state(b, a[i]) {
            proof {
                assert(a@.contains(a@[i as int]));
            }
            return true;
        }
        i = i + 1;
    }
    false
}

} // verus!
