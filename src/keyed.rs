use vstd::prelude::*;

verus! {

/// The map that a list of (key, value) pairs stands for: a later pair wins over an
/// earlier one with the same key.
pub open spec fn map_of<K, V>(s: Seq<(K, V)>) -> Map<K, V>
    decreases s.len(),
{
    if s.len() == 0 {
        Map::empty()
    } else {
        map_of(s.drop_last()).insert(s.last().0, s.last().1)
    }
}

/// The last pair with key `k` gives the value of `k`.
pub proof fn lemma_last_match<K, V>(s: Seq<(K, V)>, k: K, i: int)
    requires
        0 <= i < s.len(),
        s[i].0 == k,
        forall|j: int| i < j < s.len() ==> (#[trigger] s[j]).0 != k,
    ensures
        map_of(s).contains_key(k),
        map_of(s)[k] == s[i].1,
    decreases s.len(),
{
    if i < s.len() - 1 {
        let t = s.drop_last();
        assert forall|j: int| i < j < t.len() implies (#[trigger] t[j]).0 != k by {
            assert(t[j] == s[j]);
        }
        lemma_last_match(t, k, i);
    }
}

/// A key that no pair has is absent.
pub proof fn lemma_no_match<K, V>(s: Seq<(K, V)>, k: K)
    requires
        forall|j: int| 0 <= j < s.len() ==> (#[trigger] s[j]).0 != k,
    ensures
        !map_of(s).contains_key(k),
    decreases s.len(),
{
    if s.len() > 0 {
        let t = s.drop_last();
        assert forall|j: int| 0 <= j < t.len() implies (#[trigger] t[j]).0 != k by {
            assert(t[j] == s[j]);
        }
        lemma_no_match(t, k);
    }
}

/// Removing a pair leaves every other key as it was.
pub proof fn lemma_remove_other<K, V>(s: Seq<(K, V)>, i: int, k: K)
    requires
        0 <= i < s.len(),
        k != s[i].0,
    ensures
        map_of(s.remove(i)).contains_key(k) == map_of(s).contains_key(k),
        map_of(s).contains_key(k) ==> map_of(s.remove(i))[k] == map_of(s)[k],
    decreases s.len(),
{
    if i == s.len() - 1 {
        assert(s.remove(i) =~= s.drop_last());
    } else {
        let t = s.drop_last();
        lemma_remove_other(t, i, k);
        assert(s.remove(i).drop_last() =~= t.remove(i));
        assert(s.remove(i).last() == s.last());
    }
}

/// Removing the pair at `i` and appending `(k, v)`, where `s[i]` has key `k`,
/// sets `k` to `v`.
pub proof fn lemma_replace<K, V>(s: Seq<(K, V)>, i: int, k: K, v: V)
    requires
        0 <= i < s.len(),
        s[i].0 == k,
    ensures
        map_of(s.remove(i).push((k, v))) == map_of(s).insert(k, v),
{
    let r = s.remove(i).push((k, v));
    let a = map_of(s.remove(i)).insert(k, v);
    let b = map_of(s).insert(k, v);
    assert(r.drop_last() =~= s.remove(i));
    assert(r.last() == (k, v));
    assert(map_of(r) == a);
    assert forall|x: K| #[trigger] a.contains_key(x) == b.contains_key(x) by {
        if x != k {
            lemma_remove_other(s, i, x);
        }
    }
    assert forall|x: K| b.contains_key(x) implies #[trigger] a[x] == b[x] by {
        if x != k {
            lemma_remove_other(s, i, x);
        }
    }
    assert(a =~= b);
}

/// Appending `(k, v)` sets `k` to `v`.
pub proof fn lemma_append<K, V>(s: Seq<(K, V)>, k: K, v: V)
    ensures
        map_of(s.push((k, v))) == map_of(s).insert(k, v),
{
    assert(s.push((k, v)).drop_last() =~= s);
}

} // verus!
