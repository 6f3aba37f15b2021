//! Maps keyed by byte strings, written out in the order of their keys.
use vstd::prelude::*;
use crate::keys::{key_lt, lemma_key_lt_asymmetric, lemma_key_lt_irreflexive};

verus! {

/// The keys of the pairs strictly ascend.
pub open spec fn ascending<V>(s: Seq<(Seq<u8>, V)>) -> bool {
    forall|i: int, j: int| 0 <= i < j < s.len() ==> key_lt(#[trigger] s[i].0, #[trigger] s[j].0)
}

/// `s` is the pairs of `m`, each once, in ascending order of the keys.
pub open spec fn lists<V>(s: Seq<(Seq<u8>, V)>, m: Map<Seq<u8>, V>) -> bool {
    &&& ascending(s)
    &&& forall|i: int| 0 <= i < s.len() ==> m.contains_key(#[trigger] s[i].0) && m[s[i].0] == s[i].1
    &&& forall|k: Seq<u8>| #[trigger] m.contains_key(k) ==> exists|i: int| 0 <= i < s.len() && #[trigger] s[i].0 == k
}

/// The pairs of `m` in ascending order of the keys.
pub open spec fn sorted_pairs<V>(m: Map<Seq<u8>, V>) -> Seq<(Seq<u8>, V)> {
    choose|s: Seq<(Seq<u8>, V)>| lists(s, m)
}

/// A listing holds each key of the map at one place, with its value, and no other key;
/// a smaller key stands before a greater one.
pub proof fn law_listing_holds_each_key_once<V>(s: Seq<(Seq<u8>, V)>, m: Map<Seq<u8>, V>, i: int, j: int, key: Seq<u8>)
    requires
        lists(s, m),
        0 <= i < s.len(),
        0 <= j < s.len(),
    ensures
        m.contains_key(key) ==> exists|p: int| 0 <= p < s.len() && #[trigger] s[p] == (key, m[key]),
        !m.contains_key(key) ==> s[i].0 != key,
        s[i].0 == s[j].0 ==> i == j,
        key_lt(s[i].0, s[j].0) <==> i < j,
{
    if m.contains_key(key) {
        let p = choose|p: int| 0 <= p < s.len() && #[trigger] s[p].0 == key;
        assert(m[s[p].0] == s[p].1);
        assert(s[p] == (key, m[key]));
    }
    lemma_key_lt_irreflexive(s[i].0);
    if i < j {
        assert(key_lt(s[i].0, s[j].0));
    } else if j < i {
        assert(key_lt(s[j].0, s[i].0));
        if key_lt(s[i].0, s[j].0) {
            lemma_key_lt_asymmetric(s[i].0, s[j].0);
        }
    }
}

/// The map that the pairs make up.
pub open spec fn pairs_map<V>(s: Seq<(Seq<u8>, V)>) -> Map<Seq<u8>, V> {
    Map::new(
        |k: Seq<u8>| exists|i: int| 0 <= i < s.len() && #[trigger] s[i].0 == k,
        |k: Seq<u8>| s[choose|i: int| 0 <= i < s.len() && #[trigger] s[i].0 == k].1,
    )
}

pub proof fn lemma_pairs_map<V>(s: Seq<(Seq<u8>, V)>)
    requires
        ascending(s),
    ensures
        lists(s, pairs_map(s)),
{
    assert forall|i: int| 0 <= i < s.len() implies pairs_map(s).contains_key(#[trigger] s[i].0)
        && pairs_map(s)[s[i].0] == s[i].1 by {
        let j = choose|j: int| 0 <= j < s.len() && #[trigger] s[j].0 == s[i].0;
        if i < j {
            lemma_key_lt_irreflexive(s[i].0);
            assert(key_lt(s[i].0, s[j].0));
        } else if j < i {
            lemma_key_lt_irreflexive(s[i].0);
            assert(key_lt(s[j].0, s[i].0));
        }
    }
}

proof fn lemma_lists_same_at<V>(s: Seq<(Seq<u8>, V)>, t: Seq<(Seq<u8>, V)>, m: Map<Seq<u8>, V>, i: int)
    requires
        lists(s, m),
        lists(t, m),
        0 <= i < s.len(),
    ensures
        i < t.len(),
        s[i] == t[i],
    decreases i,
{
    assert forall|j: int| 0 <= j < i implies j < t.len() && s[j] == t[j] by {
        lemma_lists_same_at(s, t, m, j);
    }
    assert(m.contains_key(s[i].0));
    let p = choose|p: int| 0 <= p < t.len() && #[trigger] t[p].0 == s[i].0;
    if p < i {
        assert(key_lt(s[p].0, s[i].0));
        lemma_key_lt_irreflexive(s[i].0);
    }
    if p > i {
        assert(key_lt(t[i].0, t[p].0));
        assert(m.contains_key(t[i].0));
        let q = choose|q: int| 0 <= q < s.len() && #[trigger] s[q].0 == t[i].0;
        if q < i {
            assert(key_lt(t[q].0, t[i].0));
            lemma_key_lt_irreflexive(t[i].0);
        } else if q > i {
            assert(key_lt(s[i].0, s[q].0));
            lemma_key_lt_asymmetric(t[i].0, t[p].0);
        } else {
            lemma_key_lt_irreflexive(t[i].0);
        }
    }
}

/// A map is written out in only one way.
pub proof fn lemma_lists_unique<V>(s: Seq<(Seq<u8>, V)>, t: Seq<(Seq<u8>, V)>, m: Map<Seq<u8>, V>)
    requires
        lists(s, m),
        lists(t, m),
    ensures
        s == t,
{
    if s.len() > t.len() {
        lemma_lists_same_at(s, t, m, t.len() as int);
    }
    if t.len() > s.len() {
        lemma_lists_same_at(t, s, m, s.len() as int);
    }
    assert forall|i: int| 0 <= i < s.len() implies s[i] == t[i] by {
        lemma_lists_same_at(s, t, m, i);
    }
    assert(s =~= t);
}

pub proof fn lemma_sorted_pairs<V>(s: Seq<(Seq<u8>, V)>, m: Map<Seq<u8>, V>)
    requires
        lists(s, m),
    ensures
        sorted_pairs(m) == s,
{
    lemma_lists_unique(sorted_pairs(m), s, m);
}

} // verus!
