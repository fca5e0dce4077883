//! Association lists: sequences whose entries are keyed and whose keys are
//! unique, read as finite maps. The in-memory store keeps its tables this
//! way.
use vstd::prelude::*;

verus! {

/// No two entries share a key.
pub open spec fn keys_unique<V, K>(s: Seq<V>, key: spec_fn(V) -> K) -> bool {
    forall|i: int, j: int| 0 <= i < s.len() && 0 <= j < s.len() && i != j ==> key(s[i]) != key(s[j])
}

/// The map from each entry's key to the entry (later entries win).
pub open spec fn to_map<V, K>(s: Seq<V>, key: spec_fn(V) -> K) -> Map<K, V>
    decreases s.len(),
{
    if s.len() == 0 {
        Map::empty()
    } else {
        to_map(s.drop_last(), key).insert(key(s.last()), s.last())
    }
}

pub proof fn lemma_to_map_dom<V, K>(s: Seq<V>, key: spec_fn(V) -> K)
    ensures
        forall|k: K| #[trigger]
            to_map(s, key).contains_key(k) <==> exists|i: int| 0 <= i < s.len() && key(s[i]) == k,
    decreases s.len(),
{
    if s.len() > 0 {
        let p = s.drop_last();
        lemma_to_map_dom(p, key);
        assert forall|k: K| #[trigger] to_map(s, key).contains_key(k) implies exists|i: int|
            0 <= i < s.len() && key(s[i]) == k by {
            if k != key(s.last()) {
                assert(to_map(p, key).contains_key(k));
                let i = choose|i: int| 0 <= i < p.len() && key(p[i]) == k;
                assert(s[i] == p[i]);
            } else {
                assert(key(s[s.len() - 1]) == k);
            }
        }
        assert forall|k: K| (exists|i: int| 0 <= i < s.len() && key(s[i]) == k) implies #[trigger] to_map(
            s,
            key,
        ).contains_key(k) by {
            let i = choose|i: int| 0 <= i < s.len() && key(s[i]) == k;
            if i < p.len() {
                assert(p[i] == s[i]);
                assert(to_map(p, key).contains_key(k));
            }
        }
    }
}

pub proof fn lemma_to_map_index<V, K>(s: Seq<V>, key: spec_fn(V) -> K, i: int)
    requires
        keys_unique(s, key),
        0 <= i < s.len(),
    ensures
        to_map(s, key).contains_key(key(s[i])),
        to_map(s, key)[key(s[i])] == s[i],
    decreases s.len(),
{
    let p = s.drop_last();
    if i < s.len() - 1 {
        assert(keys_unique(p, key)) by {
            assert forall|a: int, b: int| 0 <= a < p.len() && 0 <= b < p.len() && a != b implies key(p[a])
                != key(p[b]) by {
                assert(p[a] == s[a] && p[b] == s[b]);
            }
        }
        assert(p[i] == s[i]);
        lemma_to_map_index(p, key, i);
        assert(key(s[i]) != key(s[s.len() - 1]));
    }
}

proof fn lemma_unique_prefix<V, K>(s: Seq<V>, key: spec_fn(V) -> K)
    requires
        keys_unique(s, key),
        s.len() > 0,
    ensures
        keys_unique(s.drop_last(), key),
{
    let p = s.drop_last();
    assert forall|a: int, b: int| 0 <= a < p.len() && 0 <= b < p.len() && a != b implies key(p[a]) != key(
        p[b],
    ) by {
        assert(p[a] == s[a] && p[b] == s[b]);
    }
}

pub proof fn lemma_to_map_push<V, K>(s: Seq<V>, key: spec_fn(V) -> K, v: V)
    requires
        keys_unique(s, key),
        !to_map(s, key).contains_key(key(v)),
    ensures
        keys_unique(s.push(v), key),
        to_map(s.push(v), key) == to_map(s, key).insert(key(v), v),
{
    lemma_to_map_dom(s, key);
    let t = s.push(v);
    assert(t.drop_last() =~= s);
    assert forall|a: int, b: int| 0 <= a < t.len() && 0 <= b < t.len() && a != b implies key(t[a]) != key(
        t[b],
    ) by {
        if a < s.len() && b < s.len() {
            assert(t[a] == s[a] && t[b] == s[b]);
        } else if a < s.len() {
            assert(t[a] == s[a]);
        } else {
            assert(t[b] == s[b]);
        }
    }
}

pub proof fn lemma_to_map_update<V, K>(s: Seq<V>, key: spec_fn(V) -> K, i: int, v: V)
    requires
        keys_unique(s, key),
        0 <= i < s.len(),
        key(v) == key(s[i]),
    ensures
        keys_unique(s.update(i, v), key),
        to_map(s.update(i, v), key) == to_map(s, key).insert(key(v), v),
    decreases s.len(),
{
    let t = s.update(i, v);
    assert forall|a: int, b: int| 0 <= a < t.len() && 0 <= b < t.len() && a != b implies key(t[a]) != key(
        t[b],
    ) by {}
    let p = s.drop_last();
    if i == s.len() - 1 {
        assert(t.drop_last() =~= p);
        assert(to_map(t, key) =~= to_map(s, key).insert(key(v), v));
    } else {
        lemma_unique_prefix(s, key);
        lemma_to_map_update(p, key, i, v);
        assert(t.drop_last() =~= p.update(i, v));
        assert(key(s.last()) != key(v));
        assert(to_map(t, key) =~= to_map(s, key).insert(key(v), v));
    }
}

pub proof fn lemma_to_map_remove<V, K>(s: Seq<V>, key: spec_fn(V) -> K, i: int)
    requires
        keys_unique(s, key),
        0 <= i < s.len(),
    ensures
        keys_unique(s.remove(i), key),
        to_map(s.remove(i), key) == to_map(s, key).remove(key(s[i])),
    decreases s.len(),
{
    let t = s.remove(i);
    assert forall|a: int, b: int| 0 <= a < t.len() && 0 <= b < t.len() && a != b implies key(t[a]) != key(
        t[b],
    ) by {
        let a2 = if a < i { a } else { a + 1 };
        let b2 = if b < i { b } else { b + 1 };
        assert(t[a] == s[a2] && t[b] == s[b2]);
    }
    let p = s.drop_last();
    lemma_unique_prefix(s, key);
    if i == s.len() - 1 {
        assert(t =~= p);
        lemma_to_map_dom(p, key);
        assert(!to_map(p, key).contains_key(key(s[i]))) by {
            if to_map(p, key).contains_key(key(s[i])) {
                let j = choose|j: int| 0 <= j < p.len() && key(p[j]) == key(s[i]);
                assert(p[j] == s[j]);
            }
        }
        assert(to_map(t, key) =~= to_map(s, key).remove(key(s[i])));
    } else {
        lemma_to_map_remove(p, key, i);
        assert(t.drop_last() =~= p.remove(i));
        assert(t.last() == s.last());
        assert(key(s.last()) != key(s[i]));
        assert(to_map(t, key) =~= to_map(s, key).remove(key(s[i])));
    }
}

} // verus!
verus! {

/// With unique keys, the map holds exactly the entries' keys, each mapped to
/// its entry.
pub proof fn lemma_to_map_char<V, K>(s: Seq<V>, key: spec_fn(V) -> K)
    requires
        keys_unique(s, key),
    ensures
        forall|k: K| #[trigger]
            to_map(s, key).contains_key(k) <==> exists|i: int| 0 <= i < s.len() && key(s[i]) == k,
        forall|i: int| 0 <= i < s.len() ==> #[trigger] to_map(s, key)[key(s[i])] == s[i],
{
    lemma_to_map_dom(s, key);
    assert forall|i: int| 0 <= i < s.len() implies #[trigger] to_map(s, key)[key(s[i])] == s[i] by {
        lemma_to_map_index(s, key, i);
    }
}

pub proof fn lemma_to_map_insert<V, K>(s: Seq<V>, key: spec_fn(V) -> K, pos: int, v: V)
    requires
        keys_unique(s, key),
        0 <= pos <= s.len(),
        !to_map(s, key).contains_key(key(v)),
    ensures
        keys_unique(s.insert(pos, v), key),
        to_map(s.insert(pos, v), key) == to_map(s, key).insert(key(v), v),
{
    let t = s.insert(pos, v);
    lemma_to_map_char(s, key);
    assert forall|a: int, b: int| 0 <= a < t.len() && 0 <= b < t.len() && a != b implies key(t[a]) != key(
        t[b],
    ) by {
        if a != pos && b != pos {
            let a2 = if a < pos { a } else { a - 1 };
            let b2 = if b < pos { b } else { b - 1 };
            assert(t[a] == s[a2] && t[b] == s[b2]);
        } else if a == pos {
            let b2 = if b < pos { b } else { b - 1 };
            assert(t[b] == s[b2]);
        } else {
            let a2 = if a < pos { a } else { a - 1 };
            assert(t[a] == s[a2]);
        }
    }
    lemma_to_map_char(t, key);
    let m1 = to_map(t, key);
    let m2 = to_map(s, key).insert(key(v), v);
    assert forall|k: K| m1.contains_key(k) <==> m2.contains_key(k) by {
        if m1.contains_key(k) {
            let i = choose|i: int| 0 <= i < t.len() && key(t[i]) == k;
            if i != pos {
                let i2 = if i < pos { i } else { i - 1 };
                assert(t[i] == s[i2]);
            }
        }
        if m2.contains_key(k) && k != key(v) {
            let i = choose|i: int| 0 <= i < s.len() && key(s[i]) == k;
            let i2 = if i < pos { i } else { i + 1 };
            assert(t[i2] == s[i]);
        }
        if k == key(v) {
            assert(t[pos] == v);
        }
    }
    assert forall|k: K| m1.contains_key(k) implies m1[k] == m2[k] by {
        let i = choose|i: int| 0 <= i < t.len() && key(t[i]) == k;
        assert(m1[key(t[i])] == t[i]);
        if i != pos {
            let i2 = if i < pos { i } else { i - 1 };
            assert(t[i] == s[i2]);
        } else {
            assert(t[i] == v);
        }
    }
    assert(m1 =~= m2);
}

} // verus!
