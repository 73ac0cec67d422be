//! Choice of the surface that a ray meets first.
//!
//! A distance enters as a key: an unsigned integer that grows with the
//! squared distance it stands for. Among candidates with the least key the
//! one with the lowest index wins, so that the choice does not depend on
//! the order in which candidates were computed.

use vstd::prelude::*;

verus! {

/// A point where a ray meets one surface, with the key of its squared
/// distance from the origin of the ray. `None`: the ray misses the surface.
pub type Interaction<P> = Option<(P, u64)>;

/// The nearest point over all surfaces, its key and the index of its
/// surface.
pub type IndexedInteraction<P> = Option<(P, u64, usize)>;

/// The key of a candidate; zero for a miss.
pub open spec fn key_of<P>(candidate: Interaction<P>) -> u64 {
    match candidate {
        Some((_, key)) => key,
        None => 0,
    }
}

/// Whether `i` is the candidate to pick: it exists, no candidate is nearer,
/// and every candidate before it is farther.
pub open spec fn is_nearest<P>(candidates: Seq<Interaction<P>>, i: int) -> bool {
    &&& 0 <= i < candidates.len()
    &&& candidates[i] is Some
    &&& forall|j: int|
        0 <= j < candidates.len() && (#[trigger] candidates[j]) is Some ==> key_of(candidates[i])
            <= key_of(candidates[j])
    &&& forall|j: int|
        0 <= j < i && (#[trigger] candidates[j]) is Some ==> key_of(candidates[i])
            < key_of(candidates[j])
}

/// Whether the ray misses every surface.
pub open spec fn all_miss<P>(candidates: Seq<Interaction<P>>) -> bool {
    forall|j: int| 0 <= j < candidates.len() ==> (#[trigger] candidates[j]) is None
}

/// The nearest candidate is unique: two indices that both qualify are the
/// same index.
pub proof fn lemma_nearest_unique<P>(candidates: Seq<Interaction<P>>, i: int, j: int)
    requires
        is_nearest(candidates, i),
        is_nearest(candidates, j),
    ensures
        i == j,
{
    if i < j {
        assert(candidates[i] is Some);
    } else if j < i {
        assert(candidates[j] is Some);
    }
}

/// Picks the nearest candidate of one ray: the index of the surface whose
/// point has the least key, the lowest such index where keys are equal,
/// or `None` where the ray misses every surface.
pub fn closest<P>(candidates: &Vec<Interaction<P>>) -> (r: Option<usize>)
    ensures
        r is None <==> all_miss(candidates@),
        r matches Some(i) ==> is_nearest(candidates@, i as int),
{
    let mut best: Option<usize> = None;
    let mut best_key: u64 = 0;
    let mut k: usize = 0;
    while k < candidates.len()
        invariant
            k <= candidates.len(),
            best is None ==> all_miss(candidates@.take(k as int)),
            best matches Some(i) ==> {
                &&& i < k
                &&& is_nearest(candidates@.take(k as int), i as int)
                &&& key_of(candidates[i as int]) == best_key
            },
        decreases candidates.len() - k,
    {
        let ghost before = candidates@.take(k as int);
        let ghost after = candidates@.take(k + 1);
        assert(forall|j: int| 0 <= j < k ==> after[j] == before[j]);
        assert(after[k as int] == candidates[k as int]);
        match &candidates[k] {
            Some((_, key)) => {
                let replace = match best {
                    None => true,
                    Some(_) => *key < best_key,
                };
                if replace {
                    best = Some(k);
                    best_key = *key;
                }
            },
            None => {},
        }
        k += 1;
    }
    assert(candidates@.take(k as int) =~= candidates@);
    best
}

} // verus!
