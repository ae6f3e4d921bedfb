//! Sequences of records with unique keys, seen as maps from key to record.

use vstd::prelude::*;

verus! {

/// A record with a key.
pub trait Keyed: View {
    spec fn key(&self) -> Seq<char>;
}

/// The map from each key to the view of the last record that carries it.
pub open spec fn keyed<T: Keyed>(v: Seq<T>) -> Map<Seq<char>, T::V>
    decreases v.len(),
{
    if v.len() == 0 {
        Map::empty()
    } else {
        keyed(v.drop_last()).insert(v.last().key(), v.last()@)
    }
}

/// No two records share a key.
pub open spec fn keys_unique<T: Keyed>(v: Seq<T>) -> bool {
    forall|i: int, j: int| 0 <= i < j < v.len() ==> (#[trigger] v[i]).key() != (#[trigger] v[j]).key()
}

/// A key that no record carries is not in the map.
pub proof fn lemma_keyed_absent<T: Keyed>(v: Seq<T>, k: Seq<char>)
    requires
        forall|i: int| 0 <= i < v.len() ==> (#[trigger] v[i]).key() != k,
    ensures
        !keyed(v).contains_key(k),
    decreases v.len(),
{
    if v.len() > 0 {
        let d = v.drop_last();
        assert forall|i: int| 0 <= i < d.len() implies (#[trigger] d[i]).key() != k by {
            assert(d[i] == v[i]);
        }
        lemma_keyed_absent(d, k);
    }
}

/// A key in the map is carried by some record.
pub proof fn lemma_keyed_found<T: Keyed>(v: Seq<T>, k: Seq<char>)
    requires
        keyed(v).contains_key(k),
    ensures
        exists|i: int| 0 <= i < v.len() && (#[trigger] v[i]).key() == k,
    decreases v.len(),
{
    if v.last().key() != k {
        let d = v.drop_last();
        lemma_keyed_found(d, k);
        let i = choose|i: int| 0 <= i < d.len() && (#[trigger] d[i]).key() == k;
        assert(v[i] == d[i]);
    }
}

/// With unique keys, each record is what the map holds under its key.
pub proof fn lemma_keyed_at<T: Keyed>(v: Seq<T>, i: int)
    requires
        keys_unique(v),
        0 <= i < v.len(),
    ensures
        keyed(v).contains_key(v[i].key()),
        keyed(v)[v[i].key()] == v[i]@,
    decreases v.len(),
{
    if i < v.len() - 1 {
        let d = v.drop_last();
        assert(d[i] == v[i]);
        assert(v[i].key() != v[v.len() - 1].key());
        assert(keys_unique(d)) by {
            assert forall|a: int, b: int| 0 <= a < b < d.len() implies (#[trigger] d[a]).key()
                != (#[trigger] d[b]).key() by {
                assert(d[a] == v[a] && d[b] == v[b]);
            }
        }
        lemma_keyed_at(d, i);
    }
}

/// Appending a record maps its key to it.
pub proof fn lemma_keyed_push<T: Keyed>(v: Seq<T>, x: T)
    ensures
        keyed(v.push(x)) == keyed(v).insert(x.key(), x@),
{
    assert(v.push(x).drop_last() =~= v);
}

/// Appending a record with a new key keeps the keys unique.
pub proof fn lemma_unique_push<T: Keyed>(v: Seq<T>, x: T)
    requires
        keys_unique(v),
        forall|i: int| 0 <= i < v.len() ==> (#[trigger] v[i]).key() != x.key(),
    ensures
        keys_unique(v.push(x)),
{
    let w = v.push(x);
    assert forall|a: int, b: int| 0 <= a < b < w.len() implies (#[trigger] w[a]).key()
        != (#[trigger] w[b]).key() by {
        assert(w[a] == v[a]);
        if b < v.len() {
            assert(w[b] == v[b]);
        }
    }
}

/// Replacing a record by one with the same key replaces what the map holds there.
pub proof fn lemma_keyed_update<T: Keyed>(v: Seq<T>, i: int, x: T)
    requires
        keys_unique(v),
        0 <= i < v.len(),
        x.key() == v[i].key(),
    ensures
        keyed(v.update(i, x)) == keyed(v).insert(x.key(), x@),
        keys_unique(v.update(i, x)),
    decreases v.len(),
{
    let w = v.update(i, x);
    let d = v.drop_last();
    assert forall|a: int, b: int| 0 <= a < b < w.len() implies (#[trigger] w[a]).key()
        != (#[trigger] w[b]).key() by {
        assert(v[a].key() != v[b].key());
    }
    assert(keys_unique(d)) by {
        assert forall|a: int, b: int| 0 <= a < b < d.len() implies (#[trigger] d[a]).key()
            != (#[trigger] d[b]).key() by {
            assert(d[a] == v[a] && d[b] == v[b]);
        }
    }
    if i == v.len() - 1 {
        assert(w.drop_last() =~= d);
        assert(keyed(w) =~= keyed(v).insert(x.key(), x@));
    } else {
        assert(w.drop_last() =~= d.update(i, x));
        assert(d[i] == v[i]);
        lemma_keyed_update(d, i, x);
        assert(v.last().key() != x.key());
        assert(w.last() == v.last());
        assert(keyed(w) =~= keyed(v).insert(x.key(), x@));
    }
}

} // verus!
