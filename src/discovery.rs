//! Choosing among the providers that a lookup in the overlay returned.

use crate::network::PeerHandle;
use vstd::prelude::*;

verus! {

/// Whether `v` holds `p`.
pub fn contains_peer(v: &Vec<PeerHandle>, p: PeerHandle) -> (r: bool)
    ensures
        r == v@.contains(p),
{
    let mut i: usize = 0;
    while i < v.len()
        invariant
            i <= v@.len(),
            forall|k: int| 0 <= k < i ==> v@[k] != p,
        decreases v.len() - i,
    {
        if v[i] == p {
            assert(v@[i as int] == p);
            return true;
        }
        i = i + 1;
    }
    false
}

/// The entries of `s` without repeats, each where it first occurs.
pub open spec fn dedup(s: Seq<PeerHandle>) -> Seq<PeerHandle>
    decreases s.len(),
{
    if s.len() == 0 {
        s
    } else {
        let d = dedup(s.drop_last());
        if d.contains(s.last()) {
            d
        } else {
            d.push(s.last())
        }
    }
}

/// Removing repeats from a prefix gives a prefix of the result for the whole.
pub proof fn lemma_dedup_prefix(s: Seq<PeerHandle>, i: int)
    requires
        0 <= i <= s.len(),
    ensures
        dedup(s.subrange(0, i)).len() <= dedup(s).len(),
        dedup(s).subrange(0, dedup(s.subrange(0, i)).len() as int) == dedup(s.subrange(0, i)),
    decreases s.len(),
{
    if i == s.len() {
        assert(s.subrange(0, i) =~= s);
        assert(dedup(s).subrange(0, dedup(s).len() as int) =~= dedup(s));
    } else {
        let dl = s.drop_last();
        assert(dl.subrange(0, i) =~= s.subrange(0, i));
        lemma_dedup_prefix(dl, i);
        let n = dedup(s.subrange(0, i)).len() as int;
        assert(dedup(s).subrange(0, n) =~= dedup(dl).subrange(0, n));
    }
}

/// The distinct providers among those found, in the order first found, at most
/// `max_results` of them. Fewer than `max_results` means every provider found
/// is listed.
pub fn distinct_providers(found: &Vec<PeerHandle>, max_results: usize) -> (r: Vec<PeerHandle>)
    ensures
        r@.len() <= max_results,
        r@.no_duplicates(),
        forall|i: int| 0 <= i < r@.len() ==> found@.contains(#[trigger] r@[i]),
        r@.len() < max_results ==> forall|i: int| 0 <= i < found@.len() ==> r@.contains(#[trigger] found@[i]),
        r@ == if dedup(found@).len() <= max_results {
            dedup(found@)
        } else {
            dedup(found@).subrange(0, max_results as int)
        },
{
    let mut r: Vec<PeerHandle> = Vec::new();
    let mut i: usize = 0;
    while i < found.len() && r.len() < max_results
        invariant
            i <= found@.len(),
            r@.len() <= max_results,
            r@.no_duplicates(),
            forall|k: int| 0 <= k < r@.len() ==> found@.contains(#[trigger] r@[k]),
            forall|k: int| 0 <= k < i ==> r@.contains(#[trigger] found@[k]),
            r@ == dedup(found@.subrange(0, i as int)),
        decreases found.len() - i,
    {
        let p = found[i];
        proof {
            assert(found@.subrange(0, i as int + 1).drop_last() =~= found@.subrange(0, i as int));
        }
        if !contains_peer(&r, p) {
            let ghost before = r@;
            r.push(p);
            assert forall|k: int| 0 <= k < i implies r@.contains(#[trigger] found@[k]) by {
                let j = choose|j: int| 0 <= j < before.len() && before[j] == found@[k];
                assert(r@[j] == before[j]);
            }
            assert(found@[i as int] == p);
            assert(r@[r@.len() - 1] == p);
        }
        assert(r@.contains(found@[i as int]));
        i = i + 1;
    }
    proof {
        lemma_dedup_prefix(found@, i as int);
        if i == found@.len() {
            assert(found@.subrange(0, i as int) =~= found@);
        }
    }
    r
}

} // verus!
