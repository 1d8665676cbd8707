//! Keyed lists: a sequence of (key, value) pairs with distinct keys, read as a map.
use vstd::prelude::*;

verus! {

pub open spec fn keys_unique<K, V>(s: Seq<(K, V)>) -> bool {
    forall|i: int, j: int| 0 <= i < s.len() && 0 <= j < s.len() && i != j ==> s[i].0 != s[j].0
}

/// Where `k` stands in `s`: the last position that holds it.
pub open spec fn key_position<K, V>(s: Seq<(K, V)>, k: K) -> Option<int>
    decreases s.len(),
{
    if s.len() == 0 {
        None
    } else if s.last().0 == k {
        Some(s.len() - 1)
    } else {
        key_position(s.drop_last(), k)
    }
}

/// The map that a keyed list stands for.
pub open spec fn entries_map<K, V>(s: Seq<(K, V)>) -> Map<K, V>
    decreases s.len(),
{
    if s.len() == 0 {
        Map::empty()
    } else {
        entries_map(s.drop_last()).insert(s.last().0, s.last().1)
    }
}

pub proof fn lemma_key_position<K, V>(s: Seq<(K, V)>, k: K)
    ensures
        match key_position(s, k) {
            Some(i) => 0 <= i < s.len() && s[i].0 == k,
            None => forall|i: int| 0 <= i < s.len() ==> s[i].0 != k,
        },
    decreases s.len(),
{
    if s.len() > 0 && s.last().0 != k {
        let p = s.drop_last();
        lemma_key_position(p, k);
        assert forall|i: int| 0 <= i < p.len() implies #[trigger] s[i] == p[i] by {}
    }
}

pub proof fn lemma_key_position_at<K, V>(s: Seq<(K, V)>, i: int)
    requires
        keys_unique(s),
        0 <= i < s.len(),
    ensures
        key_position(s, s[i].0) == Some(i),
    decreases s.len(),
{
    if i < s.len() - 1 {
        lemma_key_position_at(s.drop_last(), i);
    }
}

pub proof fn lemma_entries_map<K, V>(s: Seq<(K, V)>)
    requires
        keys_unique(s),
    ensures
        entries_map(s).dom().finite(),
        entries_map(s).dom().len() == s.len(),
        forall|k: K| #[trigger] entries_map(s).contains_key(k) <==> key_position(s, k) is Some,
        forall|i: int| 0 <= i < s.len() ==> #[trigger] entries_map(s)[s[i].0] == s[i].1,
        forall|i: int| 0 <= i < s.len() ==> entries_map(s).contains_key(#[trigger] s[i].0),
    decreases s.len(),
{
    if s.len() > 0 {
        let p = s.drop_last();
        lemma_entries_map(p);
        lemma_key_position(p, s.last().0);
        assert(!entries_map(p).contains_key(s.last().0));
        assert forall|i: int| 0 <= i < s.len() implies #[trigger] entries_map(s)[s[i].0] == s[i].1 by {
            if i < s.len() - 1 {
                assert(s[i].0 != s.last().0);
                assert(p[i] == s[i]);
            }
        }
        assert forall|i: int| 0 <= i < s.len() implies entries_map(s).contains_key(#[trigger] s[i].0) by {
            if i < s.len() - 1 {
                assert(p[i] == s[i]);
            }
        }
    }
}

pub proof fn lemma_entries_map_update<K, V>(s: Seq<(K, V)>, i: int, v: V)
    requires
        keys_unique(s),
        0 <= i < s.len(),
    ensures
        entries_map(s.update(i, (s[i].0, v))) == entries_map(s).insert(s[i].0, v),
        keys_unique(s.update(i, (s[i].0, v))),
    decreases s.len(),
{
    let t = s.update(i, (s[i].0, v));
    if i == s.len() - 1 {
        assert(t.drop_last() == s.drop_last());
        assert(entries_map(t) =~= entries_map(s).insert(s[i].0, v));
    } else {
        let p = s.drop_last();
        assert(t.drop_last() == p.update(i, (p[i].0, v)));
        lemma_entries_map_update(p, i, v);
        assert(s[i].0 != s.last().0);
        assert(entries_map(t) =~= entries_map(s).insert(s[i].0, v));
    }
}

pub proof fn lemma_entries_map_push<K, V>(s: Seq<(K, V)>, k: K, v: V)
    requires
        keys_unique(s),
        key_position(s, k) is None,
    ensures
        entries_map(s.push((k, v))) == entries_map(s).insert(k, v),
        keys_unique(s.push((k, v))),
{
    lemma_key_position(s, k);
    assert(s.push((k, v)).drop_last() == s);
}

pub proof fn lemma_entries_remove<K, V>(s: Seq<(K, V)>, i: int)
    requires
        keys_unique(s),
        0 <= i < s.len(),
    ensures
        keys_unique(s.remove(i)),
        key_position(s.remove(i), s[i].0) is None,
{
    s.remove_ensures(i);
    let t = s.remove(i);
    assert forall|a: int, b: int| 0 <= a < t.len() && 0 <= b < t.len() && a != b implies t[a].0 != t[b].0 by {
        let a1 = if a < i { a } else { a + 1 };
        let b1 = if b < i { b } else { b + 1 };
        assert(t[a] == s[a1] && t[b] == s[b1]);
    }
    lemma_key_position(t, s[i].0);
    if key_position(t, s[i].0) is Some {
        let a = key_position(t, s[i].0)->0;
        let a1 = if a < i { a } else { a + 1 };
        assert(t[a] == s[a1]);
    }
}

} // verus!
