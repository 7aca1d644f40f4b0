use vstd::prelude::*;

verus! {

/// The map that a sequence of key/value entries stands for, keys and values seen
/// through `kf` and `vf`. A later entry overrides an earlier one.
pub open spec fn entries_map<K, V, KK, W>(
    s: Seq<(K, V)>,
    kf: spec_fn(K) -> KK,
    vf: spec_fn(V) -> W,
) -> Map<KK, W>
    decreases s.len(),
{
    if s.len() == 0 {
        Map::empty()
    } else {
        entries_map(s.drop_last(), kf, vf).insert(kf(s.last().0), vf(s.last().1))
    }
}

/// No two entries have the same key.
pub open spec fn unique_keys<K, V, KK>(s: Seq<(K, V)>, kf: spec_fn(K) -> KK) -> bool {
    forall|i: int, j: int| 0 <= i < s.len() && 0 <= j < s.len() && i != j ==> kf(s[i].0) != kf(s[j].0)
}

/// A key is in the map exactly when some entry has it.
pub proof fn lemma_entries_map_contains<K, V, KK, W>(
    s: Seq<(K, V)>,
    kf: spec_fn(K) -> KK,
    vf: spec_fn(V) -> W,
    k: KK,
)
    ensures
        entries_map(s, kf, vf).contains_key(k) <==> exists|i: int| 0 <= i < s.len() && kf(s[i].0) == k,
    decreases s.len(),
{
    if s.len() > 0 {
        lemma_entries_map_contains(s.drop_last(), kf, vf, k);
        if entries_map(s, kf, vf).contains_key(k) && kf(s.last().0) != k {
            let i = choose|i: int| 0 <= i < s.len() - 1 && kf(s.drop_last()[i].0) == k;
            assert(kf(s[i].0) == k);
        }
        if exists|i: int| 0 <= i < s.len() && kf(s[i].0) == k {
            let i = choose|i: int| 0 <= i < s.len() && kf(s[i].0) == k;
            if i < s.len() - 1 {
                assert(kf(s.drop_last()[i].0) == k);
            }
        }
    }
}

/// With unique keys, the map holds each entry's value under its key.
pub proof fn lemma_entries_map_get<K, V, KK, W>(
    s: Seq<(K, V)>,
    kf: spec_fn(K) -> KK,
    vf: spec_fn(V) -> W,
    i: int,
)
    requires
        unique_keys(s, kf),
        0 <= i < s.len(),
    ensures
        entries_map(s, kf, vf).contains_key(kf(s[i].0)),
        entries_map(s, kf, vf)[kf(s[i].0)] == vf(s[i].1),
    decreases s.len(),
{
    if i < s.len() - 1 {
        lemma_entries_map_get(s.drop_last(), kf, vf, i);
        assert(kf(s[i].0) != kf(s.last().0));
    }
}

/// With unique keys, replacing an entry's value replaces it in the map.
pub proof fn lemma_entries_map_update<K, V, KK, W>(
    s: Seq<(K, V)>,
    kf: spec_fn(K) -> KK,
    vf: spec_fn(V) -> W,
    i: int,
    e: (K, V),
)
    requires
        unique_keys(s, kf),
        0 <= i < s.len(),
        kf(e.0) == kf(s[i].0),
    ensures
        entries_map(s.update(i, e), kf, vf) == entries_map(s, kf, vf).insert(kf(e.0), vf(e.1)),
        unique_keys(s.update(i, e), kf),
    decreases s.len(),
{
    let t = s.update(i, e);
    if i == s.len() - 1 {
        assert(t.drop_last() =~= s.drop_last());
    } else {
        assert(t.drop_last() =~= s.drop_last().update(i, e));
        lemma_entries_map_update(s.drop_last(), kf, vf, i, e);
        assert(kf(s.last().0) != kf(e.0));
    }
    assert(entries_map(t, kf, vf) =~= entries_map(s, kf, vf).insert(kf(e.0), vf(e.1)));
}

/// Appending an entry with a new key keeps the keys unique.
pub proof fn lemma_unique_keys_push<K, V, KK>(s: Seq<(K, V)>, kf: spec_fn(K) -> KK, e: (K, V))
    requires
        unique_keys(s, kf),
        forall|i: int| 0 <= i < s.len() ==> kf(s[i].0) != kf(e.0),
    ensures
        unique_keys(s.push(e), kf),
{
    let t = s.push(e);
    assert forall|i: int, j: int| 0 <= i < t.len() && 0 <= j < t.len() && i != j implies kf(t[i].0) != kf(t[j].0) by {
        if i < s.len() && j < s.len() {
            assert(t[i] == s[i] && t[j] == s[j]);
        }
    }
}

/// The map of the first `i + 1` entries is that of the first `i` with entry `i` added.
pub proof fn lemma_entries_map_prefix<K, V, KK, W>(
    s: Seq<(K, V)>,
    kf: spec_fn(K) -> KK,
    vf: spec_fn(V) -> W,
    i: int,
)
    requires
        0 <= i < s.len(),
    ensures
        entries_map(s.subrange(0, i + 1), kf, vf) == entries_map(s.subrange(0, i), kf, vf).insert(
            kf(s[i].0),
            vf(s[i].1),
        ),
{
    assert(s.subrange(0, i + 1).drop_last() =~= s.subrange(0, i));
}

} // verus!
