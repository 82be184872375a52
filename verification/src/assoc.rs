//! Association lists: sequences of key-value pairs read as maps, the first
//! pair with a key giving its value.
use vstd::prelude::*;

verus! {

/// The value of the first pair of `s` with key `k`.
pub open spec fn assoc_get<K, V>(s: Seq<(K, V)>, k: K) -> Option<V>
    decreases s.len(),
{
    if s.len() == 0 {
        None
    } else if s[0].0 == k {
        Some(s[0].1)
    } else {
        assoc_get(s.skip(1), k)
    }
}

/// `s` without the pairs with key `k`.
pub open spec fn assoc_remove<K, V>(s: Seq<(K, V)>, k: K) -> Seq<(K, V)> {
    s.filter(|p: (K, V)| p.0 != k)
}

/// The first pair with key `k` sits at index `i`.
pub proof fn lemma_assoc_get_index<K, V>(s: Seq<(K, V)>, k: K, i: int)
    requires
        0 <= i < s.len(),
        s[i].0 == k,
        forall|j: int| 0 <= j < i ==> s[j].0 != k,
    ensures
        assoc_get(s, k) == Some(s[i].1),
    decreases i,
{
    if i > 0 {
        lemma_assoc_get_index(s.skip(1), k, i - 1);
    }
}

/// No pair has key `k`.
pub proof fn lemma_assoc_get_none<K, V>(s: Seq<(K, V)>, k: K)
    requires
        forall|j: int| 0 <= j < s.len() ==> s[j].0 != k,
    ensures
        assoc_get(s, k) is None,
    decreases s.len(),
{
    if s.len() > 0 {
        lemma_assoc_get_none(s.skip(1), k);
    }
}

/// A key has a value exactly when some pair holds it.
pub proof fn lemma_assoc_get_some<K, V>(s: Seq<(K, V)>, k: K)
    ensures
        assoc_get(s, k) is Some <==> exists|j: int| 0 <= j < s.len() && s[j].0 == k,
    decreases s.len(),
{
    if s.len() > 0 {
        lemma_assoc_get_some(s.skip(1), k);
        if s[0].0 != k {
            if exists|j: int| 0 <= j < s.len() && s[j].0 == k {
                let j = choose|j: int| 0 <= j < s.len() && s[j].0 == k;
                assert(s.skip(1)[j - 1].0 == k);
            }
            if exists|j: int| 0 <= j < s.len() - 1 && s.skip(1)[j].0 == k {
                let j = choose|j: int| 0 <= j < s.len() - 1 && s.skip(1)[j].0 == k;
                assert(s[j + 1].0 == k);
            }
        }
    }
}

/// Appending a pair gives its key a value if it had none.
pub proof fn lemma_assoc_get_push<K, V>(s: Seq<(K, V)>, p: (K, V), k: K)
    ensures
        assoc_get(s.push(p), k) == match assoc_get(s, k) {
            Some(v) => Some(v),
            None => if p.0 == k { Some(p.1) } else { None },
        },
    decreases s.len(),
{
    if s.len() == 0 {
        assert(s.push(p).skip(1) =~= Seq::<(K, V)>::empty());
        assert(s.push(p)[0] == p);
        assert(assoc_get(s.push(p).skip(1), k) is None);
    } else {
        assert(s.push(p)[0] == s[0]);
        assert(s.push(p).skip(1) =~= s.skip(1).push(p));
        lemma_assoc_get_push(s.skip(1), p, k);
    }
}

/// Changing the value of the first pair with key `k0` changes only its value.
pub proof fn lemma_assoc_get_update<K, V>(s: Seq<(K, V)>, i: int, v: V, k: K)
    requires
        0 <= i < s.len(),
        forall|j: int| 0 <= j < i ==> s[j].0 != s[i].0,
    ensures
        assoc_get(s.update(i, (s[i].0, v)), k) == if k == s[i].0 { Some(v) } else { assoc_get(s, k) },
    decreases i,
{
    if i > 0 {
        assert(s.update(i, (s[i].0, v)).skip(1) =~= s.skip(1).update(i - 1, (s[i].0, v)));
        lemma_assoc_get_update(s.skip(1), i - 1, v, k);
    } else {
        assert(s.update(i, (s[i].0, v)).skip(1) =~= s.skip(1));
    }
}

/// Removing the pairs with key `k0` removes only its value.
pub proof fn lemma_assoc_get_remove<K, V>(s: Seq<(K, V)>, k0: K, k: K)
    ensures
        assoc_get(assoc_remove(s, k0), k) == if k == k0 { None } else { assoc_get(s, k) },
    decreases s.len(),
{
    let f = |p: (K, V)| p.0 != k0;
    if s.len() == 0 {
        assert(s.filter(f) =~= Seq::<(K, V)>::empty());
    } else {
        lemma_assoc_get_remove(s.skip(1), k0, k);
        assert(s =~= seq![s[0]] + s.skip(1));
        s.skip(1).lemma_filter_prepend(s[0], f);
        if s[0].0 != k0 {
            assert((seq![s[0]] + s.skip(1).filter(f)).skip(1) =~= s.skip(1).filter(f));
        } else {
            assert(Seq::<(K, V)>::empty() + s.skip(1).filter(f) =~= s.skip(1).filter(f));
        }
    }
}

/// Keys of `s` are distinct.
pub open spec fn distinct_keys<K, V>(s: Seq<(K, V)>) -> bool {
    forall|i: int, j: int| 0 <= i < j < s.len() ==> s[i].0 != s[j].0
}

/// Changing a value keeps keys distinct.
pub proof fn lemma_distinct_update<K, V>(s: Seq<(K, V)>, i: int, v: V)
    requires
        distinct_keys(s),
        0 <= i < s.len(),
    ensures
        distinct_keys(s.update(i, (s[i].0, v))),
{
    let t = s.update(i, (s[i].0, v));
    assert forall|a: int, b: int| 0 <= a < b < t.len() implies t[a].0 != t[b].0 by {
        assert(t[a].0 == s[a].0 && t[b].0 == s[b].0);
    }
}

/// Appending a new key keeps keys distinct.
pub proof fn lemma_distinct_push<K, V>(s: Seq<(K, V)>, p: (K, V))
    requires
        distinct_keys(s),
        forall|j: int| 0 <= j < s.len() ==> s[j].0 != p.0,
    ensures
        distinct_keys(s.push(p)),
{
    let t = s.push(p);
    assert forall|a: int, b: int| 0 <= a < b < t.len() implies t[a].0 != t[b].0 by {
        if b == s.len() {
            assert(t[a] == s[a]);
        } else {
            assert(t[a] == s[a] && t[b] == s[b]);
        }
    }
}

/// Removing a pair keeps keys distinct.
pub proof fn lemma_distinct_remove<K, V>(s: Seq<(K, V)>, i: int)
    requires
        distinct_keys(s),
        0 <= i < s.len(),
    ensures
        distinct_keys(s.remove(i)),
{
    let t = s.remove(i);
    assert forall|a: int, b: int| 0 <= a < b < t.len() implies t[a].0 != t[b].0 by {
        let a2 = if a < i { a } else { a + 1 };
        let b2 = if b < i { b } else { b + 1 };
        assert(t[a] == s[a2] && t[b] == s[b2]);
    }
}

} // verus!
