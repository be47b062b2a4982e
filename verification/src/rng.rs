//! The injected source of uniform random choices: a seedable generator of the
//! `rand` family, behind trusted wrappers that state only what holds of every
//! outcome.

use vstd::prelude::*;

use rand::seq::SliceRandom;
use rand::Rng;
use rand::SeedableRng;
use rand_chacha::ChaCha8Rng;

verus! {

#[verifier::external_type_specification]
#[verifier::external_body]
pub struct ExChaCha8Rng(ChaCha8Rng);

/// Relies on `rand::SeedableRng::seed_from_u64` for `rand_chacha::ChaCha8Rng`:
/// builds a generator from a word-sized seed. Nothing is assumed of the
/// stream it produces.
#[verifier::external_body]
pub fn rng_from_seed(seed: u64) -> ChaCha8Rng {
    ChaCha8Rng::seed_from_u64(seed)
}

/// Relies on `rand::Rng::gen_range` over `0..n`: it panics on an empty range
/// and otherwise returns a value of the range. Which value comes back is not
/// assumed.
#[verifier::external_body]
pub fn rand_below(rng: &mut ChaCha8Rng, n: usize) -> (r: usize)
    requires
        n > 0,
    ensures
        r < n,
{
    rng.gen_range(0..n)
}

/// Relies on `rand::seq::SliceRandom::shuffle`: it reorders the slice by a
/// sequence of in-place swaps, so the result holds exactly the same elements.
/// Which order comes back is not assumed.
#[verifier::external_body]
pub fn shuffle_indices(rng: &mut ChaCha8Rng, v: &mut Vec<usize>)
    ensures
        final(v)@.to_multiset() == old(v)@.to_multiset(),
{
    v.as_mut_slice().shuffle(rng);
}

/// A uniformly random ordering of the index range `lo..hi`: every value of
/// the range occurs exactly once.
pub fn shuffled_range(rng: &mut ChaCha8Rng, lo: usize, hi: usize) -> (r: Vec<usize>)
    requires
        lo <= hi,
    ensures
        r@.len() == hi - lo,
        forall|i: int| 0 <= i < r@.len() ==> lo <= #[trigger] r@[i] < hi,
        r@.no_duplicates(),
{
    let mut v: Vec<usize> = Vec::new();
    let mut i: usize = lo;
    while i < hi
        invariant
            lo <= i <= hi,
            v@.len() == i - lo,
            forall|j: int| 0 <= j < v@.len() ==> #[trigger] v@[j] == lo + j,
        decreases hi - i,
    {
        v.push(i);
        i = i + 1;
    }
    let ghost orig = v@;
    shuffle_indices(rng, &mut v);
    proof {
        broadcast use vstd::seq_lib::group_to_multiset_ensures;

        assert(v@.to_multiset() == orig.to_multiset());
        assert(v@.to_multiset().len() == v@.len());
        assert(orig.to_multiset().len() == orig.len());
        assert forall|j: int| 0 <= j < v@.len() implies lo <= #[trigger] v@[j] < hi by {
            assert(v@.contains(v@[j]));
            assert(v@.to_multiset().count(v@[j]) > 0);
            assert(orig.contains(v@[j]));
        }
        assert(orig.no_duplicates());
        assert forall|x: usize| v@.to_multiset().contains(x) implies v@.to_multiset().count(x)
            == 1 by {
            orig.lemma_multiset_has_no_duplicates();
        }
        v@.lemma_multiset_has_no_duplicates_conv();
    }
    v
}

/// A uniformly random permutation of `0..n`: every entry is below `n`, no
/// entry repeats, and every value below `n` occurs.
pub fn random_permutation(rng: &mut ChaCha8Rng, n: usize) -> (r: Vec<usize>)
    ensures
        r@.len() == n,
        forall|i: int| 0 <= i < n ==> #[trigger] r@[i] < n,
        r@.no_duplicates(),
{
    shuffled_range(rng, 0, n)
}

} // verus!
