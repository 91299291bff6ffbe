//! Sequences of records with a key per record, read as finite maps.

use vstd::prelude::*;

verus! {

/// No two records of `s` share a key.
pub open spec fn keys_unique<V, K>(s: Seq<V>, key: spec_fn(V) -> K) -> bool {
    forall|i: int, j: int| 0 <= i < j < s.len() ==> key(s[i]) != key(s[j])
}

/// The map from each key to the last record of `s` that carries it.
pub open spec fn keyed<V, K>(s: Seq<V>, key: spec_fn(V) -> K) -> Map<K, V>
    decreases s.len(),
{
    if s.len() == 0 {
        Map::empty()
    } else {
        keyed(s.drop_last(), key).insert(key(s.last()), s.last())
    }
}

pub proof fn lemma_keyed_push<V, K>(s: Seq<V>, key: spec_fn(V) -> K, v: V)
    ensures
        keyed(s.push(v), key) == keyed(s, key).insert(key(v), v),
{
    assert(s.push(v).drop_last() =~= s);
}

/// With unique keys, every record is found under its key and every key comes
/// from a record.
pub proof fn lemma_keyed_lookup<V, K>(s: Seq<V>, key: spec_fn(V) -> K)
    requires
        keys_unique(s, key),
    ensures
        forall|i: int|
            0 <= i < s.len() ==> #[trigger] keyed(s, key).contains_key(key(s[i]))
                && keyed(s, key)[key(s[i])] == s[i],
        forall|k: K|
            #[trigger] keyed(s, key).contains_key(k) ==> exists|i: int|
                0 <= i < s.len() && key(s[i]) == k,
    decreases s.len(),
{
    if s.len() > 0 {
        let t = s.drop_last();
        assert(keys_unique(t, key));
        lemma_keyed_lookup(t, key);
        assert forall|i: int| 0 <= i < s.len() implies #[trigger] keyed(s, key).contains_key(
            key(s[i]),
        ) && keyed(s, key)[key(s[i])] == s[i] by {
            if i < s.len() - 1 {
                assert(t[i] == s[i]);
                assert(keyed(t, key).contains_key(key(t[i])));
                assert(key(s[i]) != key(s[s.len() - 1]));
            }
        }
        assert forall|k: K| #[trigger] keyed(s, key).contains_key(k) implies exists|i: int|
            0 <= i < s.len() && key(s[i]) == k by {
            if k != key(s.last()) {
                assert(keyed(t, key).contains_key(k));
                let i = choose|i: int| 0 <= i < t.len() && key(t[i]) == k;
                assert(s[i] == t[i]);
            } else {
                assert(key(s[s.len() - 1]) == k);
            }
        }
    }
}

/// A key that no record carries is absent from the map.
pub proof fn lemma_keyed_absent<V, K>(s: Seq<V>, key: spec_fn(V) -> K, k: K)
    requires
        forall|i: int| 0 <= i < s.len() ==> key(s[i]) != k,
    ensures
        !keyed(s, key).contains_key(k),
    decreases s.len(),
{
    if s.len() > 0 {
        lemma_keyed_absent(s.drop_last(), key, k);
    }
}

/// Replacing a record by one with the same key replaces the map's entry.
pub proof fn lemma_keyed_update<V, K>(s: Seq<V>, key: spec_fn(V) -> K, i: int, v: V)
    requires
        keys_unique(s, key),
        0 <= i < s.len(),
        key(v) == key(s[i]),
    ensures
        keys_unique(s.update(i, v), key),
        keyed(s.update(i, v), key) == keyed(s, key).insert(key(v), v),
    decreases s.len(),
{
    let u = s.update(i, v);
    assert forall|a: int, b: int| 0 <= a < b < u.len() implies key(u[a]) != key(u[b]) by {
        assert(key(u[a]) == key(s[a]));
        assert(key(u[b]) == key(s[b]));
    }
    let t = s.drop_last();
    if i == s.len() - 1 {
        assert(u.drop_last() =~= t);
        assert(keyed(u, key) =~= keyed(s, key).insert(key(v), v));
    } else {
        assert(keys_unique(t, key));
        lemma_keyed_update(t, key, i, v);
        assert(u.drop_last() =~= t.update(i, v));
        assert(u.last() == s.last());
        assert(key(s.last()) != key(v)) by {
            assert(key(s[i]) != key(s[s.len() - 1]));
        }
        assert(keyed(u, key) =~= keyed(s, key).insert(key(v), v));
    }
}

/// Appending a record with a new key keeps the keys unique.
pub proof fn lemma_keys_unique_push<V, K>(s: Seq<V>, key: spec_fn(V) -> K, v: V)
    requires
        keys_unique(s, key),
        forall|i: int| 0 <= i < s.len() ==> key(s[i]) != key(v),
    ensures
        keys_unique(s.push(v), key),
{
    let u = s.push(v);
    assert forall|a: int, b: int| 0 <= a < b < u.len() implies key(u[a]) != key(u[b]) by {
        if b < s.len() {
            assert(u[a] == s[a] && u[b] == s[b]);
        } else {
            assert(u[a] == s[a] && u[b] == v);
        }
    }
}

} // verus!
