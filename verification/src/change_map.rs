//! The changes of an epoch: for each written key its new value, or that it was
//! deleted.
use vstd::prelude::*;
use crate::keys::{has_prefix, in_range, key_in_range, key_lt, order_keys, starts_with, KeyOrder};
use crate::keys::{law_keys_are_comparable, lemma_key_lt_asymmetric, lemma_key_lt_irreflexive, lemma_key_lt_transitive};
use crate::listing::{ascending, lemma_pairs_map, lemma_sorted_pairs, lists, pairs_map, sorted_pairs};

verus! {

/// The bytes of a value, where there is one.
pub open spec fn bytes_of(value: Option<Vec<u8>>) -> Option<Seq<u8>> {
    match value {
        Some(bytes) => Some(bytes@),
        None => None,
    }
}

/// A written value and a deletion, each in the form that a state root covers.
pub open spec fn change_bytes(key: Seq<u8>, value: Option<Seq<u8>>) -> Seq<u8> {
    match value {
        Some(bytes) => key + seq![1u8] + bytes,
        None => key + seq![0u8],
    }
}

/// The changes one after another.
pub open spec fn changes_bytes(changes: Seq<(Seq<u8>, Option<Seq<u8>>)>) -> Seq<u8>
    decreases changes.len(),
{
    if changes.len() == 0 {
        Seq::empty()
    } else {
        changes_bytes(changes.drop_last()) + change_bytes(changes.last().0, changes.last().1)
    }
}

/// A write is covered in full, whatever the value: the key, the byte 1, and all of
/// the value.
pub proof fn law_write_is_covered_in_full(key: Seq<u8>, value: Seq<u8>)
    ensures
        changes_bytes(seq![(key, Some(value))]) == key + seq![1u8] + value,
        changes_bytes(seq![(key, Some(value))]).len() == key.len() + 1 + value.len(),
{
    lemma_single_change(key, Some(value));
}

/// A deletion is covered by the key and the byte 0.
pub proof fn law_deletion_is_covered(key: Seq<u8>)
    ensures
        changes_bytes(seq![(key, None)]) == key + seq![0u8],
{
    lemma_single_change(key, None);
}

proof fn lemma_single_change(key: Seq<u8>, value: Option<Seq<u8>>)
    ensures
        changes_bytes(seq![(key, value)]) == change_bytes(key, value),
{
    let one = seq![(key, value)];
    assert(one.drop_last() =~= Seq::<(Seq<u8>, Option<Seq<u8>>)>::empty());
    assert(changes_bytes(one.drop_last()) =~= Seq::<u8>::empty());
    assert(changes_bytes(one) =~= change_bytes(key, value));
}

/// Changes are covered one after another: the bytes of a listing are those of its
/// beginning, then those of the rest.
pub proof fn law_changes_are_covered_one_after_another(
    first: Seq<(Seq<u8>, Option<Seq<u8>>)>,
    rest: Seq<(Seq<u8>, Option<Seq<u8>>)>,
)
    ensures
        changes_bytes(first + rest) == changes_bytes(first) + changes_bytes(rest),
    decreases rest.len(),
{
    if rest.len() == 0 {
        assert(first + rest =~= first);
        assert(changes_bytes(rest) =~= Seq::<u8>::empty());
        assert(changes_bytes(first) + changes_bytes(rest) =~= changes_bytes(first));
    } else {
        law_changes_are_covered_one_after_another(first, rest.drop_last());
        assert((first + rest).drop_last() =~= first + rest.drop_last());
        assert((first + rest).last() == rest.last());
        assert(changes_bytes(first + rest) =~= changes_bytes(first) + changes_bytes(rest));
    }
}

/// The covered bytes tell values apart: two listings that differ in what one key
/// was changed to, be it a value or a deletion, have different bytes.
pub proof fn law_covered_bytes_tell_values_apart(
    changes: Seq<(Seq<u8>, Option<Seq<u8>>)>,
    i: int,
    v1: Option<Seq<u8>>,
    v2: Option<Seq<u8>>,
)
    requires
        0 <= i < changes.len(),
        changes_bytes(changes.update(i, (changes[i].0, v1))) == changes_bytes(changes.update(i, (changes[i].0, v2))),
    ensures
        v1 == v2,
{
    let key = changes[i].0;
    let head = changes_bytes(changes.take(i));
    let tail = changes_bytes(changes.skip(i + 1));
    lemma_bytes_around(changes, i, v1);
    lemma_bytes_around(changes, i, v2);
    let a = change_bytes(key, v1);
    let b = change_bytes(key, v2);
    let whole_a = head + a + tail;
    let whole_b = head + b + tail;
    assert(whole_a.len() == head.len() + a.len() + tail.len());
    assert(whole_b.len() == head.len() + b.len() + tail.len());
    assert(whole_a.subrange(head.len() as int, (head.len() + a.len()) as int) =~= a);
    assert(whole_b.subrange(head.len() as int, (head.len() + b.len()) as int) =~= b);
    assert(a == b);
    assert(a[key.len() as int] == b[key.len() as int]);
    if v1 is Some {
        assert(a.skip(key.len() as int + 1) =~= v1->0);
        assert(b.skip(key.len() as int + 1) =~= v2->0);
    }
}

proof fn lemma_bytes_around(changes: Seq<(Seq<u8>, Option<Seq<u8>>)>, i: int, value: Option<Seq<u8>>)
    requires
        0 <= i < changes.len(),
    ensures
        changes_bytes(changes.update(i, (changes[i].0, value))) == changes_bytes(changes.take(i)) + change_bytes(
            changes[i].0,
            value,
        ) + changes_bytes(changes.skip(i + 1)),
{
    let one = seq![(changes[i].0, value)];
    lemma_single_change(changes[i].0, value);
    law_changes_are_covered_one_after_another(changes.take(i), one);
    law_changes_are_covered_one_after_another(changes.take(i) + one, changes.skip(i + 1));
    assert(changes.update(i, (changes[i].0, value)) =~= changes.take(i) + one + changes.skip(i + 1));
}

/// The keys that have a value, without those that are marked as deleted.
pub open spec fn present(m: Map<Seq<u8>, Option<Seq<u8>>>) -> Map<Seq<u8>, Seq<u8>> {
    Map::new(|k: Seq<u8>| m.contains_key(k) && m[k] is Some, |k: Seq<u8>| m[k]->0)
}

/// The changes to keys of a range.
pub open spec fn within(
    m: Map<Seq<u8>, Option<Seq<u8>>>,
    lower: Seq<u8>,
    upper: Option<Seq<u8>>,
) -> Map<Seq<u8>, Option<Seq<u8>>> {
    Map::new(|k: Seq<u8>| m.contains_key(k) && in_range(k, lower, upper), |k: Seq<u8>| m[k])
}

/// The changes to keys that begin with `prefix`.
pub open spec fn prefixed(
    m: Map<Seq<u8>, Option<Seq<u8>>>,
    prefix: Seq<u8>,
) -> Map<Seq<u8>, Option<Seq<u8>>> {
    Map::new(|k: Seq<u8>| m.contains_key(k) && has_prefix(k, prefix), |k: Seq<u8>| m[k])
}

/// The bytes of the pairs of a listing.
pub open spec fn pairs_of(pairs: Seq<(Vec<u8>, Vec<u8>)>) -> Seq<(Seq<u8>, Seq<u8>)> {
    pairs.map_values(|p: (Vec<u8>, Vec<u8>)| (p.0@, p.1@))
}

/// The bytes of changes.
pub open spec fn changes_of(changes: Seq<(Vec<u8>, Option<Vec<u8>>)>) -> Seq<(Seq<u8>, Option<Seq<u8>>)> {
    changes.map_values(|e: (Vec<u8>, Option<Vec<u8>>)| (e.0@, bytes_of(e.1)))
}

/// Keys and values count byte for byte, pair by pair; a deletion counts as such.
pub proof fn law_pairs_count_byte_for_byte(
    pairs: Seq<(Vec<u8>, Vec<u8>)>,
    changes: Seq<(Vec<u8>, Option<Vec<u8>>)>,
    value: Vec<u8>,
    i: int,
)
    ensures
        bytes_of(Some(value)) == Some(value@),
        bytes_of(None) is None,
        pairs_of(pairs).len() == pairs.len(),
        changes_of(changes).len() == changes.len(),
        0 <= i < pairs.len() ==> pairs_of(pairs)[i] == (pairs[i].0@, pairs[i].1@),
        0 <= i < changes.len() ==> changes_of(changes)[i].0 == changes[i].0@ && (match changes[i].1 {
            Some(bytes) => changes_of(changes)[i].1 == Some(bytes@),
            None => changes_of(changes)[i].1 is None,
        }),
{
}

/// Only changes to keys of a range, of a prefix or with a value are taken out of a
/// map, and each of them is taken as it is.
pub proof fn law_parts_of_a_map_are_taken_as_they_are(
    m: Map<Seq<u8>, Option<Seq<u8>>>,
    lower: Seq<u8>,
    upper: Seq<u8>,
    prefix: Seq<u8>,
    rest: Seq<u8>,
    key: Seq<u8>,
)
    ensures
        within(m, lower, Some(upper)).contains_key(key) <==> m.contains_key(key) && !key_lt(key, lower) && key_lt(
            key,
            upper,
        ),
        within(m, lower, None).contains_key(key) <==> m.contains_key(key) && !key_lt(key, lower),
        within(m, lower, Some(upper)).contains_key(key) ==> within(m, lower, Some(upper))[key] == m[key],
        prefixed(m, prefix).contains_key(prefix + rest) <==> m.contains_key(prefix + rest),
        prefixed(m, prefix).contains_key(key) ==> prefix.is_prefix_of(key) && prefixed(m, prefix)[key] == m[key],
        present(m).contains_key(key) <==> m.contains_key(key) && m[key] is Some,
        present(m).contains_key(key) ==> m[key] == Some(present(m)[key]),
{
    law_keys_are_comparable(key, lower);
    lemma_key_lt_irreflexive(key);
    if key_lt(lower, key) {
        lemma_key_lt_asymmetric(lower, key);
    }
    assert((prefix + rest).take(prefix.len() as int) =~= prefix);
    if has_prefix(key, prefix) {
        assert(key.subrange(0, prefix.len() as int) =~= key.take(prefix.len() as int));
    }
}

/// A copy of the bytes.
pub fn copy_bytes(bytes: &Vec<u8>) -> (r: Vec<u8>)
    ensures
        r@ == bytes@,
{
    let r = bytes.clone();
    assert(r@ =~= bytes@);
    r
}

/// A copy of the value.
pub fn copy_value(value: &Option<Vec<u8>>) -> (r: Option<Vec<u8>>)
    ensures
        bytes_of(r) == bytes_of(*value),
{
    match value {
        Some(bytes) => Some(copy_bytes(bytes)),
        None => None,
    }
}

/// Changes by key, kept in the order of the keys.
#[derive(Debug)]
pub struct ChangeMap {
    entries: Vec<(Vec<u8>, Option<Vec<u8>>)>,
}

impl View for ChangeMap {
    type V = Map<Seq<u8>, Option<Seq<u8>>>;

    closed spec fn view(&self) -> Map<Seq<u8>, Option<Seq<u8>>> {
        pairs_map(self.pairs())
    }
}

impl ChangeMap {
    spec fn pairs(&self) -> Seq<(Seq<u8>, Option<Seq<u8>>)> {
        changes_of(self.entries@)
    }

    /// The entries ascend by key, so no key stands twice.
    pub closed spec fn wf(&self) -> bool {
        ascending(self.pairs())
    }

    /// No change at all.
    pub fn new() -> (r: ChangeMap)
        ensures
            r.wf(),
            r@ == Map::<Seq<u8>, Option<Seq<u8>>>::empty(),
    {
        let r = ChangeMap { entries: Vec::new() };
        assert(r@ =~= Map::<Seq<u8>, Option<Seq<u8>>>::empty());
        r
    }

    /// The position of the first entry that does not come before `key`, and
    /// whether that entry is for `key` itself.
    fn find(&self, key: &[u8]) -> (r: (usize, bool))
        requires
            self.wf(),
        ensures
            r.0 <= self.pairs().len(),
            forall|i: int| 0 <= i < r.0 ==> key_lt(#[trigger] self.pairs()[i].0, key@),
            r.1 ==> r.0 < self.pairs().len() && self.pairs()[r.0 as int].0 == key@,
            !r.1 ==> forall|i: int| r.0 <= i < self.pairs().len() ==> key_lt(key@, #[trigger] self.pairs()[i].0),
            r.1 == self@.contains_key(key@),
    {
        proof { lemma_pairs_map(self.pairs()); }
        let mut low: usize = 0;
        let mut high: usize = self.entries.len();
        while low < high
            invariant
                self.wf(),
                0 <= low <= high <= self.pairs().len(),
                self.pairs().len() == self.entries@.len(),
                forall|i: int| 0 <= i < low ==> key_lt(#[trigger] self.pairs()[i].0, key@),
                forall|i: int| high <= i < self.pairs().len() ==> key_lt(key@, #[trigger] self.pairs()[i].0),
                lists(self.pairs(), self@),
            decreases high - low,
        {
            let mid: usize = low + (high - low) / 2;
            assert(self.pairs()[mid as int].0 == self.entries@[mid as int].0@);
            match order_keys(self.entries[mid].0.as_slice(), key) {
                KeyOrder::Before => {
                    assert forall|i: int| 0 <= i < mid + 1 implies key_lt(#[trigger] self.pairs()[i].0, key@) by {
                        if i < mid {
                            lemma_key_lt_transitive(self.pairs()[i].0, self.pairs()[mid as int].0, key@);
                        }
                    }
                    low = mid + 1;
                },
                KeyOrder::Same => {
                    assert(self@.contains_key(key@));
                    return (mid, true);
                },
                KeyOrder::After => {
                    assert forall|i: int| mid <= i < self.pairs().len() implies key_lt(key@, #[trigger] self.pairs()[i].0) by {
                        if i > mid {
                            lemma_key_lt_transitive(key@, self.pairs()[mid as int].0, self.pairs()[i].0);
                        }
                    }
                    high = mid;
                },
            }
        }
        proof {
            if self@.contains_key(key@) {
                let i = choose|i: int| 0 <= i < self.pairs().len() && #[trigger] self.pairs()[i].0 == key@;
                lemma_key_lt_irreflexive(key@);
            }
        }
        (low, false)
    }

    /// The change to `key`, if there is one.
    pub fn get(&self, key: &[u8]) -> (r: Option<&Option<Vec<u8>>>)
        requires
            self.wf(),
        ensures
            r is Some <==> self@.contains_key(key@),
            r matches Some(value) ==> bytes_of(*value) == self@[key@],
    {
        let (at, found) = self.find(key);
        proof { lemma_pairs_map(self.pairs()); }
        if found {
            assert(self.pairs()[at as int] == (self.entries@[at as int].0@, bytes_of(self.entries@[at as int].1)));
            Some(&self.entries[at].1)
        } else {
            None
        }
    }

    /// Records a change, in place of an earlier one to the same key.
    pub fn insert(&mut self, key: Vec<u8>, value: Option<Vec<u8>>)
        requires
            old(self).wf(),
        ensures
            final(self).wf(),
            final(self)@ == old(self)@.insert(key@, bytes_of(value)),
    {
        let (at, found) = self.find(key.as_slice());
        let ghost before = self.pairs();
        let ghost pair = (key@, bytes_of(value));
        if found {
            self.entries.set(at, (key, value));
            assert(self.pairs() =~= before.update(at as int, pair));
        } else {
            self.entries.insert(at, (key, value));
            assert(self.pairs() =~= before.insert(at as int, pair));
        }
        proof {
            let after = self.pairs();
            lemma_pairs_map(before);
            assert(ascending(after));
            lemma_pairs_map(after);
            assert forall|k: Seq<u8>| #[trigger] pairs_map(after).contains_key(k) <==> pairs_map(before).insert(
                pair.0,
                pair.1,
            ).contains_key(k) by {
                if pairs_map(after).contains_key(k) {
                    let i = choose|i: int| 0 <= i < after.len() && #[trigger] after[i].0 == k;
                    if found {
                        assert(i == at || before[i].0 == k);
                    } else if i < at {
                        assert(before[i].0 == k);
                    } else if i > at {
                        assert(before[i - 1].0 == k);
                    }
                }
                if pairs_map(before).contains_key(k) {
                    let i = choose|i: int| 0 <= i < before.len() && #[trigger] before[i].0 == k;
                    if found || i < at {
                        assert(after[i].0 == k);
                    } else {
                        assert(after[i + 1].0 == k);
                    }
                }
                if k == pair.0 {
                    assert(after[at as int].0 == k);
                }
            }
            assert forall|k: Seq<u8>| pairs_map(after).contains_key(k) implies #[trigger] pairs_map(after)[k]
                == pairs_map(before).insert(pair.0, pair.1)[k] by {
                let i = choose|i: int| 0 <= i < after.len() && #[trigger] after[i].0 == k;
                assert(pairs_map(after)[after[i].0] == after[i].1);
                if i == at {
                } else if found || i < at {
                    assert(pairs_map(before)[before[i].0] == before[i].1);
                    lemma_key_lt_irreflexive(pair.0);
                } else {
                    assert(after[i] == before[i - 1]);
                    assert(pairs_map(before)[before[i - 1].0] == before[i - 1].1);
                    lemma_key_lt_irreflexive(pair.0);
                }
            }
            assert(pairs_map(after) =~= pairs_map(before).insert(pair.0, pair.1));
        }
    }

    /// Applies later changes over these.
    pub fn apply(&mut self, later: &ChangeMap)
        requires
            old(self).wf(),
            later.wf(),
        ensures
            final(self).wf(),
            final(self)@ == old(self)@.union_prefer_right(later@),
    {
        let ghost before = self@;
        let ghost all = later.pairs();
        proof {
            lemma_pairs_map(all);
            lemma_pairs_map(all.take(0));
            assert(self@ =~= before.union_prefer_right(pairs_map(all.take(0))));
        }
        let mut i: usize = 0;
        while i < later.entries.len()
            invariant
                i <= later.entries@.len(),
                all == later.pairs(),
                all.len() == later.entries@.len(),
                ascending(all),
                self.wf(),
                self@ == before.union_prefer_right(pairs_map(all.take(i as int))),
            decreases later.entries@.len() - i,
        {
            assert(all[i as int] == (later.entries@[i as int].0@, bytes_of(later.entries@[i as int].1)));
            self.insert(copy_bytes(&later.entries[i].0), copy_value(&later.entries[i].1));
            proof { lemma_pairs_map_push(all, i as int); }
            assert(self@ =~= before.union_prefer_right(pairs_map(all.take(i + 1))));
            i = i + 1;
        }
        assert(all.take(all.len() as int) =~= all);
    }

    /// Applies those of the later changes over these whose keys lie in the range
    /// from `lower` (included) to `upper` (excluded).
    pub fn apply_range(&mut self, later: &ChangeMap, lower: &Vec<u8>, upper: &Option<Vec<u8>>)
        requires
            old(self).wf(),
            later.wf(),
        ensures
            final(self).wf(),
            final(self)@ == old(self)@.union_prefer_right(within(later@, lower@, bytes_of(*upper))),
    {
        let ghost before = self@;
        let ghost all = later.pairs();
        proof {
            lemma_pairs_map(all);
            lemma_pairs_map(all.take(0));
            assert(self@ =~= before.union_prefer_right(within(pairs_map(all.take(0)), lower@, bytes_of(*upper))));
        }
        let mut i: usize = 0;
        while i < later.entries.len()
            invariant
                i <= later.entries@.len(),
                all == later.pairs(),
                all.len() == later.entries@.len(),
                ascending(all),
                self.wf(),
                self@ == before.union_prefer_right(within(pairs_map(all.take(i as int)), lower@, bytes_of(*upper))),
            decreases later.entries@.len() - i,
        {
            assert(all[i as int] == (later.entries@[i as int].0@, bytes_of(later.entries@[i as int].1)));
            let entry = &later.entries[i];
            proof { lemma_pairs_map_push(all, i as int); }
            if key_in_range(entry.0.as_slice(), lower.as_slice(), upper.as_ref()) {
                self.insert(copy_bytes(&entry.0), copy_value(&entry.1));
            }
            assert(self@ =~= before.union_prefer_right(
                within(pairs_map(all.take(i + 1)), lower@, bytes_of(*upper)),
            ));
            i = i + 1;
        }
        assert(all.take(all.len() as int) =~= all);
    }

    /// Those of the changes whose keys begin with `prefix`.
    pub fn with_prefix(&self, prefix: &[u8]) -> (r: ChangeMap)
        requires
            self.wf(),
        ensures
            r.wf(),
            r@ == prefixed(self@, prefix@),
    {
        let ghost all = self.pairs();
        let mut r = ChangeMap::new();
        proof {
            lemma_pairs_map(all);
            lemma_pairs_map(all.take(0));
            assert(r@ =~= prefixed(pairs_map(all.take(0)), prefix@));
        }
        let mut i: usize = 0;
        while i < self.entries.len()
            invariant
                i <= self.entries@.len(),
                all == self.pairs(),
                all.len() == self.entries@.len(),
                ascending(all),
                r.wf(),
                r@ == prefixed(pairs_map(all.take(i as int)), prefix@),
            decreases self.entries@.len() - i,
        {
            assert(all[i as int] == (self.entries@[i as int].0@, bytes_of(self.entries@[i as int].1)));
            let entry = &self.entries[i];
            proof { lemma_pairs_map_push(all, i as int); }
            if starts_with(entry.0.as_slice(), prefix) {
                r.insert(copy_bytes(&entry.0), copy_value(&entry.1));
            }
            assert(r@ =~= prefixed(pairs_map(all.take(i + 1)), prefix@));
            i = i + 1;
        }
        assert(all.take(all.len() as int) =~= all);
        r
    }

    /// The changes as pairs, in ascending order of the keys.
    pub fn into_pairs(self) -> (r: Vec<(Vec<u8>, Option<Vec<u8>>)>)
        requires
            self.wf(),
        ensures
            changes_of(r@) == sorted_pairs(self@),
            lists(changes_of(r@), self@),
    {
        proof {
            lemma_pairs_map(self.pairs());
            lemma_sorted_pairs(self.pairs(), self@);
        }
        self.entries
    }

    /// Appends the changes, in the order of their keys, to what a state root
    /// covers.
    pub fn write_to(&self, out: &mut Vec<u8>)
        requires
            self.wf(),
        ensures
            final(out)@ == old(out)@ + changes_bytes(sorted_pairs(self@)),
    {
        let ghost before = out@;
        let ghost all = self.pairs();
        proof {
            lemma_pairs_map(all);
            lemma_sorted_pairs(all, self@);
            assert(all.take(0) =~= Seq::<(Seq<u8>, Option<Seq<u8>>)>::empty());
            assert(out@ =~= before + changes_bytes(all.take(0)));
        }
        let mut i: usize = 0;
        while i < self.entries.len()
            invariant
                i <= self.entries@.len(),
                all == self.pairs(),
                all.len() == self.entries@.len(),
                out@ == before + changes_bytes(all.take(i as int)),
            decreases self.entries@.len() - i,
        {
            assert(all[i as int] == (self.entries@[i as int].0@, bytes_of(self.entries@[i as int].1)));
            let ghost start = out@;
            append_bytes(out, &self.entries[i].0);
            match &self.entries[i].1 {
                Some(bytes) => {
                    out.push(1);
                    append_bytes(out, bytes);
                },
                None => {
                    out.push(0);
                },
            }
            proof {
                assert(all.take(i + 1).drop_last() =~= all.take(i as int));
                assert(out@ =~= start + change_bytes(all[i as int].0, all[i as int].1));
                assert(out@ =~= before + changes_bytes(all.take(i + 1)));
            }
            i = i + 1;
        }
        assert(all.take(all.len() as int) =~= all);
    }

    /// The keys that have a value, with their values, in ascending order.
    pub fn present_pairs(&self) -> (r: Vec<(Vec<u8>, Vec<u8>)>)
        requires
            self.wf(),
        ensures
            pairs_of(r@) == sorted_pairs(present(self@)),
            lists(pairs_of(r@), present(self@)),
    {
        let ghost all = self.pairs();
        proof {
            lemma_pairs_map(all);
        }
        let mut r: Vec<(Vec<u8>, Vec<u8>)> = Vec::new();
        let mut i: usize = 0;
        while i < self.entries.len()
            invariant
                i <= self.entries@.len(),
                all == self.pairs(),
                all.len() == self.entries@.len(),
                lists(all, self@),
                ascending(pairs_of(r@)),
                forall|j: int| 0 <= j < r@.len() ==> {
                    let pair = #[trigger] pairs_of(r@)[j];
                    self@.contains_key(pair.0) && self@[pair.0] == Some(pair.1) && keyed(all.take(i as int), pair.0)
                },
                forall|p: int| 0 <= p < i && (#[trigger] all[p]).1 is Some ==> keyed(pairs_of(r@), all[p].0),
            decreases self.entries@.len() - i,
        {
            assert(all[i as int] == (self.entries@[i as int].0@, bytes_of(self.entries@[i as int].1)));
            let ghost start = pairs_of(r@);
            match &self.entries[i].1 {
                Some(bytes) => {
                    r.push((copy_bytes(&self.entries[i].0), copy_bytes(bytes)));
                },
                None => {},
            }
            proof {
                let now = pairs_of(r@);
                let last = all[i as int];
                if last.1 is Some {
                    assert(now =~= start.push((last.0, last.1->0)));
                    assert(now[start.len() as int].0 == last.0);
                    assert(keyed(now, last.0));
                }
                assert(all.take(i + 1)[i as int].0 == last.0);
                assert(keyed(all.take(i + 1), last.0));
                assert forall|k: Seq<u8>| keyed(all.take(i as int), k) implies #[trigger] keyed(all.take(i + 1), k)
                    && key_lt(k, last.0) by {
                    let p = choose|p: int| 0 <= p < i && #[trigger] all.take(i as int)[p].0 == k;
                    assert(all.take(i + 1)[p].0 == k);
                    assert(key_lt(all[p].0, last.0));
                }
                assert forall|k: Seq<u8>| keyed(start, k) implies #[trigger] keyed(now, k) by {
                    let j = choose|j: int| 0 <= j < start.len() && #[trigger] start[j].0 == k;
                    assert(now[j].0 == k);
                }
                assert forall|a: int, b: int| 0 <= a < b < now.len() implies key_lt(
                    #[trigger] now[a].0,
                    #[trigger] now[b].0,
                ) by {
                    assert(now[a] == start[a]);
                    if b < start.len() {
                        assert(now[b] == start[b]);
                    } else {
                        assert(keyed(all.take(i + 1), start[a].0));
                    }
                }
                assert forall|j: int| 0 <= j < now.len() implies {
                    let pair = #[trigger] now[j];
                    self@.contains_key(pair.0) && self@[pair.0] == Some(pair.1) && keyed(all.take(i + 1), pair.0)
                } by {
                    if j < start.len() {
                        assert(now[j] == start[j]);
                    } else {
                        assert(self@.contains_key(last.0));
                    }
                }
            }
            i = i + 1;
        }
        proof {
            let done = pairs_of(r@);
            let m = present(self@);
            assert forall|k: Seq<u8>| #[trigger] m.contains_key(k) implies exists|j: int|
                0 <= j < done.len() && #[trigger] done[j].0 == k by {
                assert(self@.contains_key(k));
                let p = choose|p: int| 0 <= p < all.len() && #[trigger] all[p].0 == k;
                assert(keyed(done, all[p].0));
            }
            assert(lists(done, m));
            lemma_sorted_pairs(done, m);
        }
        r
    }
}

/// `key` is the key of one of the pairs.
spec fn keyed<V>(pairs: Seq<(Seq<u8>, V)>, key: Seq<u8>) -> bool {
    exists|p: int| 0 <= p < pairs.len() && #[trigger] pairs[p].0 == key
}

proof fn lemma_pairs_map_push(all: Seq<(Seq<u8>, Option<Seq<u8>>)>, i: int)
    requires
        ascending(all),
        0 <= i < all.len(),
    ensures
        pairs_map(all.take(i + 1)) == pairs_map(all.take(i)).insert(all[i].0, all[i].1),
{
    let before = all.take(i);
    let after = all.take(i + 1);
    lemma_pairs_map(before);
    lemma_pairs_map(after);
    let expected = pairs_map(before).insert(all[i].0, all[i].1);
    assert forall|k: Seq<u8>| #[trigger] pairs_map(after).contains_key(k) <==> expected.contains_key(k) by {
        if pairs_map(after).contains_key(k) {
            let p = choose|p: int| 0 <= p < after.len() && #[trigger] after[p].0 == k;
            if p < i {
                assert(before[p].0 == k);
            }
        }
        if pairs_map(before).contains_key(k) {
            let p = choose|p: int| 0 <= p < before.len() && #[trigger] before[p].0 == k;
            assert(after[p].0 == k);
        }
        if k == all[i].0 {
            assert(after[i].0 == k);
        }
    }
    assert forall|k: Seq<u8>| pairs_map(after).contains_key(k) implies #[trigger] pairs_map(after)[k] == expected[k] by {
        let p = choose|p: int| 0 <= p < after.len() && #[trigger] after[p].0 == k;
        assert(pairs_map(after)[after[p].0] == after[p].1);
        if p < i {
            assert(pairs_map(before)[before[p].0] == before[p].1);
            assert(key_lt(all[p].0, all[i].0));
            lemma_key_lt_irreflexive(k);
        }
    }
    assert(pairs_map(after) =~= expected);
}

/// Appends the bytes.
pub fn append_bytes(out: &mut Vec<u8>, bytes: &Vec<u8>)
    ensures
        final(out)@ == old(out)@ + bytes@,
{
    let ghost before = out@;
    out.extend_from_slice(bytes.as_slice());
    assert(out@ =~= before + bytes@);
}

} // verus!
