//! Randomness: thin trusted wrappers around the `rand` crate, and a verified
//! uniform shuffle built on them. Nothing is assumed about random values
//! beyond their range.
use rand::RngExt;
use vstd::prelude::*;
use vstd::multiset::Multiset;
use vstd::seq_lib::group_to_multiset_ensures;

verus! {

/// Relies on rand::random: returns a fresh 64-bit value from the thread-local
/// generator. Nothing can be promised about it.
#[verifier::external_body]
pub fn random_u64() -> u64 {
    rand::random()
}

/// Relies on rand::RngExt::random_range over 0..n: returns a uniformly random
/// index strictly below the (positive) bound.
#[verifier::external_body]
pub fn random_below(n: usize) -> (r: usize)
    requires
        n > 0,
    ensures
        r < n,
{
    rand::rng().random_range(0..n)
}

/// Uniformly permute a vector in place: repeatedly draw one of the remaining
/// elements. The multiset of elements is exactly preserved.
pub fn shuffle<T>(v: &mut Vec<T>)
    ensures
        final(v)@.len() == old(v)@.len(),
        final(v)@.to_multiset() == old(v)@.to_multiset(),
{
    broadcast use group_to_multiset_ensures;

    let ghost orig = v@;
    let mut out: Vec<T> = Vec::new();
    while v.len() > 0
        invariant
            out@.to_multiset().add(v@.to_multiset()) =~= orig.to_multiset(),
            out@.len() + v@.len() == orig.len(),
        decreases v@.len(),
    {
        let j = random_below(v.len());
        let x = v.remove(j);
        out.push(x);
    }
    proof {
        assert(v@.to_multiset() =~= Multiset::<T>::empty());
        assert(out@.to_multiset() =~= orig.to_multiset());
    }
    *v = out;
}

} // verus!
