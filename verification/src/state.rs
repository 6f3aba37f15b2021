//! The state of one epoch: layered reads, writes, the state root, the commit.
use vstd::prelude::*;
use crate::accumulator::{AccumulatorModel, BatchAccumulator, CommitRequest, DeltaModel};
use crate::change_map::{append_bytes, bytes_of, changes_bytes, copy_bytes, copy_value, ChangeMap};
use crate::change_map::{changes_of, law_covered_bytes_tell_values_apart, pairs_of, prefixed, present, within};
use crate::hash::{keccak256, keccak256_digest};
use crate::keys::{has_prefix, in_range, key_lt, law_prefixed_keys_in_range, lemma_key_lt_irreflexive};
use crate::keys::{prefix_upper_bound, to_key_prefix_iter_upper_bound};
use crate::listing::{lemma_sorted_pairs, lists, sorted_pairs};
use crate::primitive::{zero_bytes, EpochId, MerkleHash, H256};

verus! {

/// Why a state refused.
#[derive(Debug, PartialEq, Eq)]
pub enum Error {
    Msg(String),
}

/// The text of the refusal to write to a read-only state.
pub open spec fn read_only_text() -> Seq<char> {
    "Attempted to modify a read-only storage state"@
}

/// The text of the answer where no state root was computed.
pub open spec fn no_root_text() -> Seq<char> {
    "No state root"@
}

impl Error {
    pub open spec fn text(self) -> Seq<char> {
        match self {
            Error::Msg(text) => text@,
        }
    }
}

/// The layers of a state.
#[verifier::ext_equal]
pub struct StateModel {
    /// The epoch that this one follows; none for the genesis.
    pub parent: Option<EpochId>,
    /// The epoch in the backend under the other layers.
    pub base: Option<EpochId>,
    /// What was written; none for a read-only state.
    pub changes: Option<Map<Seq<u8>, Option<Seq<u8>>>>,
    /// The state root, where it was computed after the last write.
    pub root: Option<MerkleHash>,
    /// What waiting epochs of the batch changed, along the parents.
    pub overlay: Option<Map<Seq<u8>, Option<Seq<u8>>>>,
    /// Whether commits go through the batch accumulator.
    pub accumulating: bool,
}

/// The changes of a layer, none where the layer is absent.
pub open spec fn layer(changes: Option<Map<Seq<u8>, Option<Seq<u8>>>>) -> Map<Seq<u8>, Option<Seq<u8>>> {
    match changes {
        Some(m) => m,
        None => Map::empty(),
    }
}

/// The value in a reply of the backend: it may know the key and hold no value.
pub open spec fn reply_value(reply: Option<Option<Vec<u8>>>) -> Option<Seq<u8>> {
    match reply {
        Some(value) => bytes_of(value),
        None => None,
    }
}

/// What the backend found in a range: the values by key, without the keys that
/// it reports without a value.
pub open spec fn found_values(found: Seq<(Seq<u8>, Option<Seq<u8>>)>) -> Map<Seq<u8>, Option<Seq<u8>>>
    decreases found.len(),
{
    if found.len() == 0 {
        Map::empty()
    } else if found.last().1 is Some {
        found_values(found.drop_last()).insert(found.last().0, found.last().1)
    } else {
        found_values(found.drop_last())
    }
}

/// The bytes that a state root covers: the state root of the parent, then the
/// changes in the order of their keys.
pub open spec fn root_bytes(parent: Option<Seq<u8>>, changes: Option<Map<Seq<u8>, Option<Seq<u8>>>>) -> Seq<u8> {
    (match parent {
        Some(bytes) => bytes,
        None => Seq::empty(),
    }) + (match changes {
        Some(m) => changes_bytes(sorted_pairs(m)),
        None => Seq::empty(),
    })
}

impl StateModel {
    /// What the layers above the backend say of a key, if anything.
    pub open spec fn local(self, key: Seq<u8>) -> Option<Option<Seq<u8>>> {
        if layer(self.changes).contains_key(key) {
            Some(layer(self.changes)[key])
        } else if layer(self.overlay).contains_key(key) {
            Some(layer(self.overlay)[key])
        } else {
            None
        }
    }

    /// The value of a key, where the backend has `backend` for it.
    pub open spec fn read(self, key: Seq<u8>, backend: Option<Seq<u8>>) -> Option<Seq<u8>> {
        match self.local(key) {
            Some(value) => value,
            None => if self.base is Some {
                backend
            } else {
                None
            },
        }
    }

    /// After a write of `key`; `None` deletes it.
    pub open spec fn changed(self, key: Seq<u8>, value: Option<Seq<u8>>) -> StateModel {
        StateModel {
            changes: Some(self.changes->0.insert(key, value)),
            root: None,
            ..self
        }
    }

    /// After the deletion of some keys, of which there is at least one.
    pub open spec fn deleted(self, keys: Set<Seq<u8>>) -> StateModel {
        StateModel {
            changes: Some(
                self.changes->0.union_prefer_right(Map::new(|k: Seq<u8>| keys.contains(k), |k: Seq<u8>| None)),
            ),
            root: None,
            ..self
        }
    }

    /// The layers over what the backend found, as far as the range goes.
    pub open spec fn merged(
        self,
        lower: Seq<u8>,
        upper: Option<Seq<u8>>,
        found: Seq<(Seq<u8>, Option<Seq<u8>>)>,
    ) -> Map<Seq<u8>, Option<Seq<u8>>> {
        (if self.base is Some {
            found_values(found)
        } else {
            Map::empty()
        }).union_prefer_right(within(layer(self.overlay), lower, upper)).union_prefer_right(
            within(layer(self.changes), lower, upper),
        )
    }

    /// The existing keys with the prefix, with their values.
    pub open spec fn existing(self, prefix: Seq<u8>, found: Seq<(Seq<u8>, Option<Seq<u8>>)>) -> Map<Seq<u8>, Seq<u8>> {
        present(prefixed(self.merged(prefix, prefix_upper_bound(prefix), found), prefix))
    }

    /// The state root of the parent that goes into the state root: the
    /// accumulator's where the parent waits there, else the backend's. Where the
    /// backend has none, it is the one that the accumulator kept of a parent flushed
    /// inside its batch, or zero where none is known.
    pub open spec fn parent_root(self, acc: AccumulatorModel, reply: Option<MerkleHash>) -> Option<Seq<u8>> {
        match self.parent {
            None => None,
            Some(epoch) => Some(
                if self.accumulating && acc.deltas.contains_key(epoch) {
                    acc.deltas[epoch].state_root.0@
                } else {
                    match reply {
                        Some(root) => root.0@,
                        None => if self.accumulating && acc.flushed_roots.contains_key(epoch) {
                            acc.flushed_roots[epoch].0@
                        } else {
                            zero_bytes(32)
                        },
                    }
                },
            ),
        }
    }

    /// The bytes that the state root covers.
    pub open spec fn preimage(self, acc: AccumulatorModel, reply: Option<MerkleHash>) -> Seq<u8> {
        root_bytes(self.parent_root(acc, reply), self.changes)
    }

    /// `root` is the state root of this state.
    pub open spec fn has_root(self, acc: AccumulatorModel, reply: Option<MerkleHash>, root: MerkleHash) -> bool {
        match self.root {
            Some(cached) => root == cached,
            None => root.0@ == keccak256_digest(self.preimage(acc, reply)),
        }
    }

    /// How the commit of this state as `epoch` under the state root begins.
    pub open spec fn commits(self, acc: AccumulatorModel, epoch: EpochId, root: MerkleHash, step: CommitStep) -> bool {
        let known = self.accumulating && acc.deltas.contains_key(epoch);
        match step {
            CommitStep::Genesis(request) => self.parent is None && self.requested(epoch, root, request),
            CommitStep::Done(done) => self.parent is Some && known && done == acc.deltas[epoch].state_root,
            CommitStep::QueryBackend(request) => self.parent is Some && !known && self.requested(epoch, root, request),
        }
    }

    /// The request holds all of this state's changes, on top of its parent.
    pub open spec fn requested(self, epoch: EpochId, root: MerkleHash, request: CommitRequest) -> bool {
        &&& request.changes.wf()
        &&& request.parent == self.parent
        &&& request.epoch == epoch
        &&& request.state_root == root
        &&& request.changes@ == layer(self.changes)
    }

    /// After its changes were handed to a commit under the state root.
    pub open spec fn committed(self, root: MerkleHash) -> StateModel {
        StateModel {
            changes: match self.changes {
                Some(m) => Some(Map::empty()),
                None => None,
            },
            root: Some(root),
            ..self
        }
    }
}

/// What is written is read back, whatever lies below.
pub proof fn law_reads_see_writes(m: StateModel, key: Seq<u8>, value: Option<Seq<u8>>, backend: Option<Seq<u8>>)
    requires
        m.changes is Some,
    ensures
        m.changed(key, value).read(key, backend) == value,
{
}

/// A write leaves the other keys as they were.
pub proof fn law_writes_leave_other_keys(
    m: StateModel,
    key: Seq<u8>,
    value: Option<Seq<u8>>,
    other: Seq<u8>,
    backend: Option<Seq<u8>>,
)
    requires
        m.changes is Some,
        other != key,
    ensures
        m.changed(key, value).read(other, backend) == m.read(other, backend),
{
}

/// Writes to different keys may come in either order: the state, and with it the
/// bytes that its root covers, is the same.
pub proof fn law_write_order_does_not_matter(
    m: StateModel,
    k1: Seq<u8>,
    v1: Option<Seq<u8>>,
    k2: Seq<u8>,
    v2: Option<Seq<u8>>,
)
    requires
        m.changes is Some,
        k1 != k2,
    ensures
        m.changed(k1, v1).changed(k2, v2) == m.changed(k2, v2).changed(k1, v1),
{
    assert(m.changes->0.insert(k1, v1).insert(k2, v2) =~= m.changes->0.insert(k2, v2).insert(k1, v1));
}

/// A key that the state did not write is read as from the layers below, and below
/// the last layer the backend is read.
pub proof fn law_reads_fall_through(m: StateModel, key: Seq<u8>, backend: Option<Seq<u8>>)
    ensures
        !layer(m.changes).contains_key(key) ==> m.read(key, backend) == (StateModel { changes: None, ..m }).read(
            key,
            backend,
        ),
        m.changes is None && !layer(m.overlay).contains_key(key) ==> m.read(key, backend) == (StateModel {
            overlay: None,
            ..m
        }).read(key, backend),
        m.changes is None && layer(m.overlay).contains_key(key) ==> m.read(key, backend) == layer(m.overlay)[key],
        m.changes is None && m.overlay is None && m.base is Some ==> m.read(key, backend) == backend,
        m.changes is None && m.overlay is None && m.base is None ==> m.read(key, backend) is None,
{
}

/// The state root is the hash of the state root of the parent and then of all
/// changes, listed in the order of their keys. The parent's state root is the one
/// that it waits with, or else the backend's, or else the one it was flushed with, or else
/// all zero; a genesis has none.
pub proof fn law_state_root_is_the_hash_of_parent_and_changes(
    m: StateModel,
    acc: AccumulatorModel,
    reply: Option<MerkleHash>,
    root: MerkleHash,
    listing: Seq<(Seq<u8>, Option<Seq<u8>>)>,
)
    requires
        m.root is None,
        m.changes is Some,
        m.accumulating,
        lists(listing, m.changes->0),
        m.has_root(acc, reply, root),
    ensures
        m.parent is None ==> root.0@ == keccak256_digest(changes_bytes(listing)),
        m.parent matches Some(parent) ==> acc.deltas.contains_key(parent) ==> root.0@ == keccak256_digest(
            acc.deltas[parent].state_root.0@ + changes_bytes(listing),
        ),
        m.parent matches Some(parent) ==> !acc.deltas.contains_key(parent) ==> (reply matches Some(stored) ==> root.0@
            == keccak256_digest(stored.0@ + changes_bytes(listing))),
        m.parent matches Some(parent) ==> !acc.deltas.contains_key(parent) && reply is None ==> root.0@
            == keccak256_digest(
            (if acc.flushed_roots.contains_key(parent) {
                acc.flushed_roots[parent].0@
            } else {
                Seq::new(32, |i: int| 0u8)
            }) + changes_bytes(listing),
        ),
{
    lemma_sorted_pairs(listing, m.changes->0);
    assert(Seq::<u8>::empty() + changes_bytes(listing) =~= changes_bytes(listing));
}

/// What a state root covers begins with the 32 bytes of the parent's state root:
/// different roots of a stored parent give different bytes.
pub proof fn law_covered_bytes_tell_parents_apart(m: StateModel, acc: AccumulatorModel, r1: MerkleHash, r2: MerkleHash)
    requires
        m.parent matches Some(parent) && !acc.deltas.contains_key(parent),
        m.preimage(acc, Some(r1)) == m.preimage(acc, Some(r2)),
    ensures
        r1 == r2,
{
    let a = m.preimage(acc, Some(r1));
    let b = m.preimage(acc, Some(r2));
    assert(a.take(32) =~= r1.0@);
    assert(b.take(32) =~= r2.0@);
    assert(r1.0 =~= r2.0);
}

/// What a state root covers tells written values apart: writing different values,
/// or a value and a deletion, to a key gives different bytes. `listing` is what the
/// state then wrote, in the order of the keys.
pub proof fn law_covered_bytes_tell_writes_apart(
    m: StateModel,
    acc: AccumulatorModel,
    reply: Option<MerkleHash>,
    key: Seq<u8>,
    v1: Option<Seq<u8>>,
    v2: Option<Seq<u8>>,
    listing: Seq<(Seq<u8>, Option<Seq<u8>>)>,
)
    requires
        m.changes is Some,
        lists(listing, m.changed(key, v1).changes->0),
        m.changed(key, v1).preimage(acc, reply) == m.changed(key, v2).preimage(acc, reply),
    ensures
        v1 == v2,
{
    let m1 = m.changed(key, v1).changes->0;
    let m2 = m.changed(key, v2).changes->0;
    assert(m1.contains_key(key));
    let i = choose|i: int| 0 <= i < listing.len() && #[trigger] listing[i].0 == key;
    let other = listing.update(i, (key, v2));
    assert(listing.update(i, (key, v1)) =~= listing);
    assert(lists(other, m2)) by {
        assert forall|a: int, b: int| 0 <= a < b < other.len() implies key_lt(
            #[trigger] other[a].0,
            #[trigger] other[b].0,
        ) by {
            assert(other[a].0 == listing[a].0 && other[b].0 == listing[b].0);
        }
        assert forall|j: int| 0 <= j < other.len() implies m2.contains_key(#[trigger] other[j].0) && m2[other[j].0]
            == other[j].1 by {
            assert(m1.contains_key(listing[j].0));
            if j != i {
                if j < i {
                    assert(key_lt(listing[j].0, listing[i].0));
                } else {
                    assert(key_lt(listing[i].0, listing[j].0));
                }
                lemma_key_lt_irreflexive(key);
            }
        }
        assert forall|k: Seq<u8>| #[trigger] m2.contains_key(k) implies exists|j: int|
            0 <= j < other.len() && #[trigger] other[j].0 == k by {
            assert(m1.contains_key(k));
            let j = choose|j: int| 0 <= j < listing.len() && #[trigger] listing[j].0 == k;
            assert(other[j].0 == k);
        }
    }
    lemma_sorted_pairs(listing, m1);
    lemma_sorted_pairs(other, m2);
    let head = match m.parent_root(acc, reply) {
        Some(bytes) => bytes,
        None => Seq::<u8>::empty(),
    };
    let a = changes_bytes(listing);
    let b = changes_bytes(other);
    assert(m.changed(key, v1).parent_root(acc, reply) == m.parent_root(acc, reply));
    assert(m.changed(key, v2).parent_root(acc, reply) == m.parent_root(acc, reply));
    assert((head + a).skip(head.len() as int) =~= a);
    assert((head + b).skip(head.len() as int) =~= b);
    law_covered_bytes_tell_values_apart(listing, i, v1, v2);
}

/// A state has one state root: it depends on nothing but what the state and its
/// parent hold.
pub proof fn law_state_root_is_determined(
    m: StateModel,
    acc: AccumulatorModel,
    reply: Option<MerkleHash>,
    r1: MerkleHash,
    r2: MerkleHash,
)
    requires
        m.has_root(acc, reply, r1),
        m.has_root(acc, reply, r2),
    ensures
        r1 == r2,
{
    if m.root is None {
        assert(r1.0 =~= r2.0);
    }
}

/// The backend's reply decides nothing where it need not be asked for: where the root
/// is known, there is no parent, or the parent waits in the batch.
pub proof fn law_root_needs_no_reply_where_it_is_known(
    m: StateModel,
    acc: AccumulatorModel,
    reply: Option<MerkleHash>,
    other: Option<MerkleHash>,
    root: MerkleHash,
)
    requires
        m.root is Some || m.parent is None || (m.accumulating && acc.deltas.contains_key(m.parent->0)),
    ensures
        m.has_root(acc, reply, root) <==> m.has_root(acc, other, root),
        m.root matches Some(known) ==> (m.has_root(acc, reply, root) <==> root == known),
{
}

/// A flush of its parent does not change what the root of a state covers: the
/// parent's state root stays known, from the accumulator, or from the backend where
/// the parent is the tip of the batch.
pub proof fn law_flush_keeps_the_parents_root(
    m: StateModel,
    acc: AccumulatorModel,
    parent: EpochId,
    reply: Option<MerkleHash>,
)
    requires
        acc.valid(),
        m.accumulating,
        m.parent == Some(parent),
        acc.deltas.contains_key(parent),
    ensures
        parent != acc.order.last() ==> m.preimage(acc.flushed(), None) == m.preimage(acc, reply),
        parent == acc.order.last() ==> m.preimage(acc.flushed(), Some(acc.deltas[parent].state_root)) == m.preimage(
            acc,
            reply,
        ),
{
}

/// What the backend found for a key.
pub open spec fn found_value(found: Seq<(Seq<u8>, Option<Seq<u8>>)>, key: Seq<u8>) -> Option<Seq<u8>> {
    if found_values(found).contains_key(key) {
        found_values(found)[key]
    } else {
        None
    }
}

/// No key stands twice in what the backend found.
pub open spec fn distinct_keys(found: Seq<(Seq<u8>, Option<Seq<u8>>)>) -> bool {
    forall|i: int, j: int| 0 <= i < j < found.len() ==> #[trigger] found[i].0 != #[trigger] found[j].0
}

/// The pair stands in what the backend found.
pub open spec fn replied(found: Seq<(Seq<u8>, Option<Seq<u8>>)>, key: Seq<u8>, value: Seq<u8>) -> bool {
    exists|i: int| 0 <= i < found.len() && #[trigger] found[i] == (key, Some(value))
}

/// Every pair of a reply counts, wherever it stands: a key is found exactly where
/// some pair has it with a value, and then with that value.
pub proof fn law_every_replied_value_is_found(found: Seq<(Seq<u8>, Option<Seq<u8>>)>, key: Seq<u8>, value: Seq<u8>)
    requires
        distinct_keys(found),
    ensures
        found_value(found, key) == Some(value) <==> replied(found, key, value),
    decreases found.len(),
{
    if found.len() > 0 {
        let rest = found.drop_last();
        let last = found.last();
        assert(distinct_keys(rest)) by {
            assert forall|i: int, j: int| 0 <= i < j < rest.len() implies #[trigger] rest[i].0 != #[trigger] rest[j].0 by {
                assert(found[i].0 != found[j].0);
            }
        }
        law_every_replied_value_is_found(rest, key, value);
        lemma_found_values_are_some(rest, key);
        if replied(rest, key, value) {
            let i = choose|i: int| 0 <= i < rest.len() && #[trigger] rest[i] == (key, Some(value));
            assert(found[i] == (key, Some(value)));
            assert(found[i].0 != found[found.len() - 1].0);
        }
        if replied(found, key, value) {
            let i = choose|i: int| 0 <= i < found.len() && #[trigger] found[i] == (key, Some(value));
            if i < rest.len() {
                assert(rest[i] == (key, Some(value)));
            }
        }
        if last == (key, Some(value)) {
            assert(found[found.len() - 1] == (key, Some(value)));
        }
        if last.0 == key && found_value(rest, key) is Some {
            let v = found_value(rest, key)->0;
            law_every_replied_value_is_found(rest, key, v);
            let i = choose|i: int| 0 <= i < rest.len() && #[trigger] rest[i] == (key, Some(v));
            assert(found[i].0 == found[found.len() - 1].0);
        }
    }
}

proof fn lemma_found_values_are_some(found: Seq<(Seq<u8>, Option<Seq<u8>>)>, key: Seq<u8>)
    ensures
        found_values(found).contains_key(key) ==> found_values(found)[key] is Some,
    decreases found.len(),
{
    if found.len() > 0 {
        lemma_found_values_are_some(found.drop_last(), key);
    }
}

/// A listing holds a key with the prefix and its value exactly where the state's
/// own layers give it that value, or leave it to the backend, whose reply has the
/// pair.
pub proof fn law_listing_holds_what_the_layers_and_the_reply_give(
    m: StateModel,
    prefix: Seq<u8>,
    found: Seq<(Seq<u8>, Option<Seq<u8>>)>,
    key: Seq<u8>,
    value: Seq<u8>,
)
    requires
        distinct_keys(found),
        has_prefix(key, prefix),
    ensures
        (m.existing(prefix, found).contains_key(key) && m.existing(prefix, found)[key] == value) <==> (if layer(
            m.changes,
        ).contains_key(key) {
            layer(m.changes)[key] == Some(value)
        } else if layer(m.overlay).contains_key(key) {
            layer(m.overlay)[key] == Some(value)
        } else {
            m.base is Some && replied(found, key, value)
        }),
{
    law_read_all_agrees_with_reads(m, prefix, found, key);
    law_every_replied_value_is_found(found, key, value);
}

/// A state without own layers lists every pair of the reply that has the prefix and
/// a value, and nothing else.
pub proof fn law_bare_state_lists_the_reply(
    m: StateModel,
    prefix: Seq<u8>,
    found: Seq<(Seq<u8>, Option<Seq<u8>>)>,
    key: Seq<u8>,
    value: Seq<u8>,
)
    requires
        distinct_keys(found),
        m.base is Some,
        layer(m.changes) == Map::<Seq<u8>, Option<Seq<u8>>>::empty(),
        layer(m.overlay) == Map::<Seq<u8>, Option<Seq<u8>>>::empty(),
    ensures
        (m.existing(prefix, found).contains_key(key) && m.existing(prefix, found)[key] == value) <==> has_prefix(
            key,
            prefix,
        ) && replied(found, key, value),
{
    if has_prefix(key, prefix) {
        law_listing_holds_what_the_layers_and_the_reply_give(m, prefix, found, key, value);
    }
}

/// Reading a range agrees with reading each of its keys.
pub proof fn law_range_agrees_with_reads(
    m: StateModel,
    lower: Seq<u8>,
    upper: Option<Seq<u8>>,
    found: Seq<(Seq<u8>, Option<Seq<u8>>)>,
    key: Seq<u8>,
    value: Seq<u8>,
)
    requires
        distinct_keys(found),
        in_range(key, lower, upper),
    ensures
        ({
            let listed = present(m.merged(lower, upper, found));
            (listed.contains_key(key) && listed[key] == value) <==> m.read(key, found_value(found, key)) == Some(value)
        }),
{
}

/// Deleting the keys of a prefix deletes each that was listed, and leaves every
/// other key as it was.
pub proof fn law_delete_all_deletes_what_was_listed(
    m: StateModel,
    prefix: Seq<u8>,
    found: Seq<(Seq<u8>, Option<Seq<u8>>)>,
    key: Seq<u8>,
    backend: Option<Seq<u8>>,
)
    requires
        m.changes is Some,
    ensures
        ({
            let listed = m.existing(prefix, found);
            let after = m.deleted(listed.dom());
            if listed.contains_key(key) {
                after.read(key, backend) is None
            } else {
                after.read(key, backend) == m.read(key, backend)
            }
        }),
{
}

/// A write goes into the commit as it is: with one more write the request holds that
/// change over those of before, and is otherwise the same.
pub proof fn law_commit_hands_over_each_write(
    m: StateModel,
    acc: AccumulatorModel,
    epoch: EpochId,
    root: MerkleHash,
    before: CommitRequest,
    after: CommitRequest,
    key: Seq<u8>,
    value: Option<Seq<u8>>,
)
    requires
        m.changes is Some,
        m.commits(acc, epoch, root, CommitStep::QueryBackend(before)) || m.commits(
            acc,
            epoch,
            root,
            CommitStep::Genesis(before),
        ),
        m.changed(key, value).commits(acc, epoch, root, CommitStep::QueryBackend(after)) || m.changed(key, value).commits(
            acc,
            epoch,
            root,
            CommitStep::Genesis(after),
        ),
    ensures
        after.changes@ == before.changes@.insert(key, value),
        after.parent == before.parent,
        after.epoch == before.epoch,
        after.state_root == before.state_root,
{
}

/// A write makes the state root be computed anew, from all changes; so does a deletion.
pub proof fn law_write_changes_the_state_root(
    m: StateModel,
    acc: AccumulatorModel,
    reply: Option<MerkleHash>,
    key: Seq<u8>,
    value: Option<Seq<u8>>,
    keys: Set<Seq<u8>>,
    root: MerkleHash,
)
    requires
        m.changes is Some,
    ensures
        m.changed(key, value).has_root(acc, reply, root) ==> root.0@ == keccak256_digest(
            m.changed(key, value).preimage(acc, reply),
        ),
        m.deleted(keys).has_root(acc, reply, root) ==> root.0@ == keccak256_digest(
            m.deleted(keys).preimage(acc, reply),
        ),
        m.changed(key, value).changes == Some(m.changes->0.insert(key, value)),
        m.changed(key, value).parent == m.parent && m.deleted(keys).parent == m.parent,
        m.changed(key, value).base == m.base && m.deleted(keys).base == m.base,
        m.changed(key, value).overlay == m.overlay && m.deleted(keys).overlay == m.overlay,
        m.changed(key, value).accumulating == m.accumulating && m.deleted(keys).accumulating == m.accumulating,
{
}

/// A commit takes the writes out of the state and leaves the rest: a key that was not
/// written reads as before, a written one as below the writes, and the state stays
/// where it stands.
pub proof fn law_commit_keeps_what_lies_below(m: StateModel, root: MerkleHash, key: Seq<u8>, backend: Option<Seq<u8>>)
    ensures
        !layer(m.changes).contains_key(key) ==> m.committed(root).read(key, backend) == m.read(key, backend),
        m.committed(root).read(key, backend) == (StateModel { changes: None, ..m }).read(key, backend),
        m.committed(root).changes is Some <==> m.changes is Some,
        m.committed(root).root == Some(root),
        m.committed(root).parent == m.parent,
        m.committed(root).base == m.base,
        m.committed(root).overlay == m.overlay,
        m.committed(root).accumulating == m.accumulating,
{
}

/// A reply of the backend counts as the value that it holds, byte for byte; no entry
/// and an entry without a value count alike.
pub proof fn law_reply_is_read_as_it_is(m: StateModel, key: Seq<u8>, value: Vec<u8>)
    requires
        m.base is Some,
        m.local(key) is None,
    ensures
        m.read(key, reply_value(Some(Some(value)))) == Some(value@),
        m.read(key, reply_value(Some(None))) is None,
        m.read(key, reply_value(None)) is None,
{
}

/// A state that wrote nothing hands nothing over.
pub proof fn law_commit_without_writes_hands_over_nothing(
    m: StateModel,
    acc: AccumulatorModel,
    epoch: EpochId,
    root: MerkleHash,
    request: CommitRequest,
)
    requires
        m.changes == Some(Map::<Seq<u8>, Option<Seq<u8>>>::empty()),
        m.commits(acc, epoch, root, CommitStep::QueryBackend(request)) || m.commits(
            acc,
            epoch,
            root,
            CommitStep::Genesis(request),
        ),
    ensures
        request.changes@ == Map::<Seq<u8>, Option<Seq<u8>>>::empty(),
        request.parent == m.parent,
        request.epoch == epoch,
        request.state_root == root,
{
}

/// What was handed to a commit is not handed over again, and the state keeps its
/// root.
pub proof fn law_commit_leaves_nothing_to_commit(
    m: StateModel,
    acc: AccumulatorModel,
    reply: Option<MerkleHash>,
    epoch: EpochId,
    root: MerkleHash,
    again: MerkleHash,
    request: CommitRequest,
)
    requires
        m.changes is Some,
        m.committed(root).has_root(acc, reply, again),
        m.committed(root).commits(acc, epoch, again, CommitStep::QueryBackend(request)),
    ensures
        again == root,
        request.changes@ == Map::<Seq<u8>, Option<Seq<u8>>>::empty(),
{
}

/// A commit goes to the backend at once exactly where there is no parent; an epoch
/// that waits already is answered with its root, and of any other the backend is
/// asked.
pub proof fn law_commit_begins_one_way(
    m: StateModel,
    acc: AccumulatorModel,
    epoch: EpochId,
    root: MerkleHash,
    step: CommitStep,
)
    requires
        m.accumulating,
        m.commits(acc, epoch, root, step),
    ensures
        step is Genesis <==> m.parent is None,
        step is Done <==> m.parent is Some && acc.deltas.contains_key(epoch),
        step is QueryBackend <==> m.parent is Some && !acc.deltas.contains_key(epoch),
        step matches CommitStep::Done(done) ==> done == acc.deltas[epoch].state_root,
{
}

/// Reading all keys of a prefix agrees with reading each of them: a key with the
/// prefix is listed exactly where a read of it gives a value, with that value.
pub proof fn law_read_all_agrees_with_reads(
    m: StateModel,
    prefix: Seq<u8>,
    found: Seq<(Seq<u8>, Option<Seq<u8>>)>,
    key: Seq<u8>,
)
    requires
        has_prefix(key, prefix),
    ensures
        m.existing(prefix, found).contains_key(key) <==> m.read(key, found_value(found, key)) is Some,
        m.existing(prefix, found).contains_key(key) ==> Some(m.existing(prefix, found)[key]) == m.read(
            key,
            found_value(found, key),
        ),
{
    law_prefixed_keys_in_range(key, prefix);
}

/// Only keys with the prefix are listed.
pub proof fn law_read_all_lists_the_prefix_only(
    m: StateModel,
    prefix: Seq<u8>,
    found: Seq<(Seq<u8>, Option<Seq<u8>>)>,
    key: Seq<u8>,
)
    requires
        m.existing(prefix, found).contains_key(key),
    ensures
        has_prefix(key, prefix),
{
}

/// After all keys of a prefix were deleted none of them exists.
pub proof fn law_delete_all_leaves_nothing(m: StateModel, prefix: Seq<u8>, found: Seq<(Seq<u8>, Option<Seq<u8>>)>)
    requires
        m.changes is Some,
    ensures
        m.deleted(m.existing(prefix, found).dom()).existing(prefix, found) == Map::<Seq<u8>, Seq<u8>>::empty(),
{
    let gone = m.existing(prefix, found).dom();
    let after = m.deleted(gone);
    assert forall|key: Seq<u8>| !after.existing(prefix, found).contains_key(key) by {
        if has_prefix(key, prefix) {
            law_read_all_agrees_with_reads(m, prefix, found, key);
            law_read_all_agrees_with_reads(after, prefix, found, key);
            if gone.contains(key) {
                assert(after.read(key, found_value(found, key)) is None);
            } else {
                assert(after.read(key, found_value(found, key)) == m.read(key, found_value(found, key)));
            }
        }
    }
    assert(after.existing(prefix, found) =~= Map::<Seq<u8>, Seq<u8>>::empty());
}

/// Where a read ends.
#[derive(Debug, PartialEq, Eq)]
pub enum ReadStep {
    /// The layers above the backend decide.
    Known(Option<Vec<u8>>),
    /// The backend is to be asked at this epoch.
    Backend(EpochId),
}

/// The range to ask the backend for.
#[derive(Debug, PartialEq, Eq)]
pub struct RangeQuery {
    pub epoch_id: EpochId,
    pub lower_bound_incl: Vec<u8>,
    pub upper_bound_excl: Option<Vec<u8>>,
}

/// How a commit goes on.
#[derive(Debug)]
pub enum CommitStep {
    /// The genesis goes to the backend at once.
    Genesis(CommitRequest),
    /// The epoch was committed before, with this state root.
    Done(MerkleHash),
    /// The backend is to be asked whether it has the epoch.
    QueryBackend(CommitRequest),
}

/// How the commit of the request ends where the backend has `existing` for the
/// epoch. Else the epoch joins the batch, and the batch is to be flushed exactly
/// where it is full.
pub open spec fn commit_ends(
    acc: AccumulatorModel,
    request: CommitRequest,
    existing: Option<MerkleHash>,
    end: CommitEnd,
    after: AccumulatorModel,
) -> bool {
    let joined = acc.accumulated(
        request.epoch,
        DeltaModel { parent: request.parent, changes: request.changes@, state_root: request.state_root },
    );
    match existing {
        Some(root) => end == CommitEnd::Done(root) && after == acc,
        None => {
            &&& after == joined
            &&& match end {
                CommitEnd::Done(root) => root == request.state_root && joined.order.len() < joined.batch_size,
                CommitEnd::Flush(flush, root) => {
                    &&& root == request.state_root
                    &&& joined.order.len() >= joined.batch_size
                    &&& joined.flushes(flush)
                    &&& flush.epoch == request.epoch
                    &&& flush.state_root == request.state_root
                }
            }
        },
    }
}

/// How a commit that the backend was asked about ends.
#[derive(Debug)]
pub enum CommitEnd {
    /// Nothing is left to do; this is the state root.
    Done(MerkleHash),
    /// The batch is full: it is to be committed, and then this is the state root.
    Flush(CommitRequest, MerkleHash),
}

/// The epoch that a state reads from in the backend.
#[derive(Clone, Copy, Debug, PartialEq, Eq)]
pub struct LvmtView {
    pub epoch_id: EpochId,
}

/// The state of an epoch, for reading or for writing.
#[derive(Debug)]
pub struct LvmtState {
    /// The epoch that this one follows. `None` for a writable state to create
    /// genesis.
    parent_epoch_id: Option<EpochId>,
    /// Where the backend is read, below the other layers.
    base_state: Option<LvmtView>,
    /// `changes` only includes writings, it is not a cache. `None` for a
    /// read-only state.
    changes: Option<ChangeMap>,
    /// The state root of this epoch, not of the parent, also for a writable
    /// state; there `None` means that it is not computed yet.
    cached_state_root: Option<MerkleHash>,
    /// Changes of waiting epochs of the batch, along the parents; checked between
    /// `changes` and the backend.
    accumulated_overlay: Option<ChangeMap>,
    /// Whether commits go through the batch accumulator.
    accumulating: bool,
}

impl View for LvmtState {
    type V = StateModel;

    closed spec fn view(&self) -> StateModel {
        StateModel {
            parent: self.parent_epoch_id,
            base: match self.base_state { Some(view) => Some(view.epoch_id), None => None },
            changes: match self.changes { Some(m) => Some(m@), None => None },
            root: self.cached_state_root,
            overlay: match self.accumulated_overlay { Some(m) => Some(m@), None => None },
            accumulating: self.accumulating,
        }
    }
}

impl LvmtState {
    pub closed spec fn wf(&self) -> bool {
        &&& self.changes matches Some(m) ==> m.wf()
        &&& self.accumulated_overlay matches Some(m) ==> m.wf()
        &&& self.changes is None ==> self.cached_state_root is Some
        &&& self.changes is Some ==> self.accumulating
    }

    /// The commits of a writable state always go through the batch accumulator.
    pub proof fn law_writable_state_accumulates(&self)
        requires
            self.wf(),
            self@.changes is Some,
        ensures
            self@.accumulating,
    {
    }

    /// A read-only state always has its state root.
    pub proof fn law_read_only_state_has_a_root(&self)
        requires
            self.wf(),
            self@.changes is None,
        ensures
            self@.root is Some,
    {
    }

    /// A state that can be read alone.
    pub fn read_only(base: Option<EpochId>, state_root: MerkleHash, overlay: Option<ChangeMap>) -> (r: LvmtState)
        requires
            overlay matches Some(m) ==> m.wf(),
        ensures
            r.wf(),
            r@ == (StateModel {
                parent: base,
                base,
                changes: None,
                root: Some(state_root),
                overlay: match overlay { Some(m) => Some(m@), None => None },
                accumulating: false,
            }),
    {
        LvmtState {
            parent_epoch_id: base,
            base_state: match base { Some(epoch_id) => Some(LvmtView { epoch_id }), None => None },
            changes: None,
            cached_state_root: Some(state_root),
            accumulated_overlay: overlay,
            accumulating: false,
        }
    }

    /// A state for writing the epoch after `parent`, without changes yet.
    pub fn writable(parent: Option<EpochId>, base: Option<EpochId>, overlay: Option<ChangeMap>) -> (r: LvmtState)
        requires
            overlay matches Some(m) ==> m.wf(),
        ensures
            r.wf(),
            r@ == (StateModel {
                parent,
                base,
                changes: Some(Map::empty()),
                root: None,
                overlay: match overlay { Some(m) => Some(m@), None => None },
                accumulating: true,
            }),
    {
        LvmtState {
            parent_epoch_id: parent,
            base_state: match base { Some(epoch_id) => Some(LvmtView { epoch_id }), None => None },
            changes: Some(ChangeMap::new()),
            cached_state_root: None,
            accumulated_overlay: overlay,
            accumulating: true,
        }
    }

    /// Whether commits go through the batch accumulator.
    pub fn is_accumulating(&self) -> (r: bool)
        ensures
            r == self@.accumulating,
    {
        self.accumulating
    }

    /// Records a change; a read-only state refuses it.
    pub fn change(&mut self, key: Vec<u8>, value: Option<Vec<u8>>) -> (r: Result<(), Error>)
        requires
            old(self).wf(),
        ensures
            final(self).wf(),
            r is Ok <==> old(self)@.changes is Some,
            r is Ok ==> final(self)@ == old(self)@.changed(key@, bytes_of(value)),
            r matches Err(e) ==> e.text() == read_only_text() && final(self)@ == old(self)@,
    {
        match self.changes.take() {
            Some(mut map) => {
                map.insert(key, value);
                self.changes = Some(map);
                self.cached_state_root = None;
                Ok(())
            },
            None => Err(Error::Msg("Attempted to modify a read-only storage state".to_string())),
        }
    }

    /// Writes a value.
    pub fn set(&mut self, key: Vec<u8>, value: Vec<u8>) -> (r: Result<(), Error>)
        requires
            old(self).wf(),
        ensures
            final(self).wf(),
            r is Ok <==> old(self)@.changes is Some,
            r is Ok ==> final(self)@ == old(self)@.changed(key@, Some(value@)),
            r matches Err(e) ==> e.text() == read_only_text() && final(self)@ == old(self)@,
    {
        self.change(key, Some(value))
    }

    /// Deletes a key.
    pub fn delete(&mut self, key: Vec<u8>) -> (r: Result<(), Error>)
        requires
            old(self).wf(),
        ensures
            final(self).wf(),
            r is Ok <==> old(self)@.changes is Some,
            r is Ok ==> final(self)@ == old(self)@.changed(key@, None),
            r matches Err(e) ==> e.text() == read_only_text() && final(self)@ == old(self)@,
    {
        self.change(key, None)
    }

    /// Reads a key from the changes, else from the overlay; the backend is to be
    /// asked where neither knows it and there is one to ask.
    pub fn get(&self, key: &Vec<u8>) -> (r: ReadStep)
        requires
            self.wf(),
        ensures
            match r {
                ReadStep::Known(value) => match self@.local(key@) {
                    Some(known) => bytes_of(value) == known,
                    None => self@.base is None && value is None,
                },
                ReadStep::Backend(epoch) => self@.local(key@) is None && self@.base == Some(epoch),
            },
    {
        if let Some(changes) = &self.changes {
            if let Some(value) = changes.get(key.as_slice()) {
                return ReadStep::Known(copy_value(value));
            }
        }
        if let Some(overlay) = &self.accumulated_overlay {
            if let Some(value) = overlay.get(key.as_slice()) {
                return ReadStep::Known(copy_value(value));
            }
        }
        match &self.base_state {
            Some(view) => ReadStep::Backend(view.epoch_id),
            None => ReadStep::Known(None),
        }
    }

    /// The value of a key, given what the backend replied; the reply counts only
    /// where `get` asks for it.
    pub fn get_with_reply(&self, key: &Vec<u8>, reply: Option<Option<Vec<u8>>>) -> (r: Option<Vec<u8>>)
        requires
            self.wf(),
        ensures
            bytes_of(r) == self@.read(key@, reply_value(reply)),
    {
        match self.get(key) {
            ReadStep::Known(value) => value,
            ReadStep::Backend(_) => match reply {
                Some(value) => value,
                None => None,
            },
        }
    }

    /// Deletes a key and returns its value from before.
    pub fn delete_test_only(&mut self, key: Vec<u8>, reply: Option<Option<Vec<u8>>>) -> (r: Result<Option<Vec<u8>>, Error>)
        requires
            old(self).wf(),
        ensures
            final(self).wf(),
            r is Ok <==> old(self)@.changes is Some,
            r matches Ok(value) ==> bytes_of(value) == old(self)@.read(key@, reply_value(reply)) && final(self)@ == old(
                self,
            )@.changed(key@, None),
            r matches Err(e) ==> e.text() == read_only_text() && final(self)@ == old(self)@,
    {
        let value = self.get_with_reply(&key, reply);
        match self.change(key, None) {
            Ok(()) => Ok(value),
            Err(e) => Err(e),
        }
    }

    /// The range to ask the backend for before `read_all` or `delete_all`; none
    /// where there is no backend epoch to ask.
    pub fn read_all_query(&self, prefix: &Vec<u8>) -> (r: Option<RangeQuery>)
        ensures
            r is Some <==> self@.base is Some,
            r matches Some(query) ==> {
                &&& self@.base == Some(query.epoch_id)
                &&& query.lower_bound_incl@ == prefix@
                &&& bytes_of(query.upper_bound_excl) == prefix_upper_bound(prefix@)
            },
    {
        match &self.base_state {
            Some(view) => Some(
                RangeQuery {
                    epoch_id: view.epoch_id,
                    lower_bound_incl: copy_bytes(prefix),
                    upper_bound_excl: to_key_prefix_iter_upper_bound(prefix.as_slice()),
                },
            ),
            None => None,
        }
    }

    /// The layers over what the backend found, as far as the range goes.
    fn merge_range(
        &self,
        lower_bound_incl: &Vec<u8>,
        upper_bound_excl: &Option<Vec<u8>>,
        found: &Vec<(Vec<u8>, Option<Vec<u8>>)>,
    ) -> (r: ChangeMap)
        requires
            self.wf(),
        ensures
            r.wf(),
            r@ == self@.merged(lower_bound_incl@, bytes_of(*upper_bound_excl), changes_of(found@)),
    {
        let mut merged = ChangeMap::new();
        if self.base_state.is_some() {
            let mut i: usize = 0;
            assert(changes_of(found@).take(0) =~= Seq::<(Seq<u8>, Option<Seq<u8>>)>::empty());
            while i < found.len()
                invariant
                    i <= found@.len(),
                    merged.wf(),
                    merged@ == found_values(changes_of(found@).take(i as int)),
                decreases found@.len() - i,
            {
                assert(changes_of(found@).take(i + 1).drop_last() =~= changes_of(found@).take(i as int));
                assert(changes_of(found@)[i as int] == (found@[i as int].0@, bytes_of(found@[i as int].1)));
                if let Some(bytes) = &found[i].1 {
                    merged.insert(copy_bytes(&found[i].0), Some(copy_bytes(bytes)));
                }
                i = i + 1;
            }
            assert(changes_of(found@).take(i as int) =~= changes_of(found@));
        }
        let ghost below = merged@;
        match &self.accumulated_overlay {
            Some(overlay) => {
                merged.apply_range(overlay, lower_bound_incl, upper_bound_excl);
            },
            None => {
                assert(merged@ =~= below.union_prefer_right(
                    within(layer(self@.overlay), lower_bound_incl@, bytes_of(*upper_bound_excl)),
                ));
            },
        }
        let ghost middle = merged@;
        match &self.changes {
            Some(changes) => {
                merged.apply_range(changes, lower_bound_incl, upper_bound_excl);
            },
            None => {
                assert(merged@ =~= middle.union_prefer_right(
                    within(layer(self@.changes), lower_bound_incl@, bytes_of(*upper_bound_excl)),
                ));
            },
        }
        merged
    }

    /// The existing keys of a range with their values, in ascending order; none
    /// where there is no such key. `found` is what the backend has in the range.
    pub fn read_all_inner(
        &self,
        lower_bound_incl: &Vec<u8>,
        upper_bound_excl: &Option<Vec<u8>>,
        found: &Vec<(Vec<u8>, Option<Vec<u8>>)>,
    ) -> (r: Option<Vec<(Vec<u8>, Vec<u8>)>>)
        requires
            self.wf(),
        ensures
            ({
                let values = present(self@.merged(lower_bound_incl@, bytes_of(*upper_bound_excl), changes_of(found@)));
                match r {
                    None => values == Map::<Seq<u8>, Seq<u8>>::empty(),
                    Some(pairs) => {
                        &&& values != Map::<Seq<u8>, Seq<u8>>::empty()
                        &&& pairs_of(pairs@) == sorted_pairs(values)
                        &&& lists(pairs_of(pairs@), values)
                    },
                }
            }),
    {
        let merged = self.merge_range(lower_bound_incl, upper_bound_excl, found);
        listed(&merged)
    }

    /// All existing keys prefixed with `prefix`, with their values, in ascending
    /// order; none where there is no such key. `found` is what the backend has in
    /// the range that `read_all_query` names.
    pub fn read_all(&self, prefix: &Vec<u8>, found: &Vec<(Vec<u8>, Option<Vec<u8>>)>) -> (r: Option<
        Vec<(Vec<u8>, Vec<u8>)>,
    >)
        requires
            self.wf(),
        ensures
            ({
                let values = self@.existing(prefix@, changes_of(found@));
                match r {
                    None => values == Map::<Seq<u8>, Seq<u8>>::empty(),
                    Some(pairs) => {
                        &&& values != Map::<Seq<u8>, Seq<u8>>::empty()
                        &&& pairs_of(pairs@) == sorted_pairs(values)
                        &&& lists(pairs_of(pairs@), values)
                    },
                }
            }),
    {
        let upper = to_key_prefix_iter_upper_bound(prefix.as_slice());
        let merged = self.merge_range(prefix, &upper, found).with_prefix(prefix.as_slice());
        listed(&merged)
    }

    /// Marks all existing keys prefixed with `prefix` as deleted, and returns
    /// them with the values they had; none where there is no such key.
    pub fn delete_all(&mut self, prefix: &Vec<u8>, found: &Vec<(Vec<u8>, Option<Vec<u8>>)>) -> (r: Result<
        Option<Vec<(Vec<u8>, Vec<u8>)>>,
        Error,
    >)
        requires
            old(self).wf(),
        ensures
            final(self).wf(),
            ({
                let values = old(self)@.existing(prefix@, changes_of(found@));
                let none = values == Map::<Seq<u8>, Seq<u8>>::empty();
                match r {
                    Ok(None) => none && final(self)@ == old(self)@,
                    Ok(Some(pairs)) => {
                        &&& !none
                        &&& old(self)@.changes is Some
                        &&& pairs_of(pairs@) == sorted_pairs(values)
                        &&& lists(pairs_of(pairs@), values)
                        &&& final(self)@ == old(self)@.deleted(values.dom())
                    },
                    Err(e) => {
                        &&& !none
                        &&& old(self)@.changes is None
                        &&& e.text() == read_only_text()
                        &&& final(self)@ == old(self)@
                    },
                }
            }),
    {
        let ghost before = self@;
        let ghost values = before.existing(prefix@, changes_of(found@));
        let pairs = match self.read_all(prefix, found) {
            Some(pairs) => pairs,
            None => {
                return Ok(None);
            },
        };
        let ghost listing = pairs_of(pairs@);
        assert(listing.len() > 0) by {
            if listing.len() == 0 {
                assert(values =~= Map::<Seq<u8>, Seq<u8>>::empty());
            }
        }
        let mut i: usize = 0;
        while i < pairs.len()
            invariant
                i <= pairs@.len(),
                listing == pairs_of(pairs@),
                listing.len() > 0,
                lists(listing, values),
                values != Map::<Seq<u8>, Seq<u8>>::empty(),
                values == before.existing(prefix@, changes_of(found@)),
                before == old(self)@,
                self.wf(),
                i == 0 ==> self@ == before,
                i > 0 ==> before.changes is Some && self@ == before.deleted(keys_of(listing.take(i as int))),
            decreases pairs@.len() - i,
        {
            let ghost start = self@;
            let key = copy_bytes(&pairs[i].0);
            assert(key@ == listing[i as int].0);
            match self.change(key, None) {
                Ok(()) => {},
                Err(e) => {
                    return Err(e);
                },
            }
            proof {
                lemma_keys_of_push(listing, i as int);
                assert(self@.changes->0 =~= before.deleted(keys_of(listing.take(i + 1))).changes->0) by {
                    if i == 0 {
                        assert(keys_of(listing.take(0)) =~= Set::<Seq<u8>>::empty());
                    }
                }
                assert(self@ =~= before.deleted(keys_of(listing.take(i + 1))));
            }
            i = i + 1;
        }
        proof {
            assert(listing.take(i as int) =~= listing);
            assert forall|k: Seq<u8>| keys_of(listing).contains(k) <==> values.dom().contains(k) by {
                if values.contains_key(k) {
                    let j = choose|j: int| 0 <= j < listing.len() && #[trigger] listing[j].0 == k;
                }
            }
            assert(keys_of(listing) =~= values.dom());
        }
        Ok(Some(pairs))
    }

    /// The epoch whose state root the backend is to be asked for before the state
    /// root is computed; none where it is known, or not needed.
    pub fn parent_root_query(&self, accumulator: &BatchAccumulator) -> (r: Option<EpochId>)
        requires
            accumulator.wf(),
        ensures
            r == (if self@.root is Some || self@.parent is None || (self@.accumulating
                && accumulator@.deltas.contains_key(self@.parent->0)) {
                None
            } else {
                self@.parent
            }),
    {
        if self.cached_state_root.is_some() {
            return None;
        }
        match self.parent_epoch_id {
            Some(parent) => {
                if self.accumulating && accumulator.contains(&parent) {
                    None
                } else {
                    Some(parent)
                }
            },
            None => None,
        }
    }

    /// The bytes that the state root covers: the state root of the parent epoch,
    /// then this epoch's modifications.
    pub fn state_root_preimage(&self, accumulator: &BatchAccumulator, reply: Option<MerkleHash>) -> (r: Vec<u8>)
        requires
            self.wf(),
            accumulator.wf(),
        ensures
            r@ == self@.preimage(accumulator@, reply),
    {
        let mut bytes: Vec<u8> = Vec::new();
        if let Some(parent) = self.parent_epoch_id {
            let waiting = if self.accumulating {
                accumulator.get_state_root(&parent)
            } else {
                None
            };
            let flushed = if self.accumulating {
                accumulator.flushed_intermediate_root(&parent)
            } else {
                None
            };
            let root = match waiting {
                Some(root) => root,
                None => match reply {
                    Some(root) => root,
                    None => match flushed {
                        Some(root) => root,
                        None => H256::zero(),
                    },
                },
            };
            let root_bytes: Vec<u8> = vstd::slice::slice_to_vec(root.0.as_slice());
            append_bytes(&mut bytes, &root_bytes);
        }
        let ghost parent = bytes@;
        assert(parent =~= match self@.parent_root(accumulator@, reply) {
            Some(bytes) => bytes,
            None => Seq::<u8>::empty(),
        });
        if let Some(changes) = &self.changes {
            changes.write_to(&mut bytes);
        }
        assert(bytes@ =~= self@.preimage(accumulator@, reply));
        bytes
    }

    /// The state root: the one that was computed since the last write, else the
    /// hash over the parent's state root and this epoch's modifications, which is
    /// then kept. `reply` is the backend's answer to `parent_root_query`.
    pub fn compute_state_root(&mut self, accumulator: &BatchAccumulator, reply: Option<MerkleHash>) -> (r: MerkleHash)
        requires
            old(self).wf(),
            accumulator.wf(),
        ensures
            final(self).wf(),
            old(self)@.has_root(accumulator@, reply, r),
            final(self)@ == (StateModel { root: Some(r), ..old(self)@ }),
    {
        if let Some(root) = self.cached_state_root {
            return root;
        }
        let preimage = self.state_root_preimage(accumulator, reply);
        let root = keccak256(&preimage);
        self.cached_state_root = Some(root);
        root
    }

    /// The state root, where it is computed.
    pub fn get_state_root(&self) -> (r: Result<MerkleHash, Error>)
        ensures
            match r {
                Ok(root) => self@.root == Some(root),
                Err(e) => self@.root is None && e.text() == no_root_text(),
            },
    {
        match self.cached_state_root {
            Some(root) => Ok(root),
            None => Err(Error::Msg("No state root".to_string())),
        }
    }

    /// Begins the commit of this state as `epoch`: computes the state root and
    /// goes on with it as `commit_with_root` does.
    pub fn commit(&mut self, epoch: EpochId, accumulator: &BatchAccumulator, reply: Option<MerkleHash>) -> (r: CommitStep)
        requires
            old(self).wf(),
            accumulator.wf(),
        ensures
            final(self).wf(),
            final(self)@.root is Some,
            old(self)@.has_root(accumulator@, reply, final(self)@.root->0),
            final(self)@ == old(self)@.committed(final(self)@.root->0),
            old(self)@.commits(accumulator@, epoch, final(self)@.root->0, r),
    {
        let state_root = self.compute_state_root(accumulator, reply);
        self.commit_with_root(epoch, state_root, accumulator)
    }

    /// Begins the commit of this state as `epoch` under the given state root:
    /// takes the changes. The genesis, which has no parent, goes to the backend
    /// at once; an epoch that the accumulator has is not committed again; of any
    /// other epoch the backend is to be asked.
    pub fn commit_with_root(&mut self, epoch: EpochId, state_root: MerkleHash, accumulator: &BatchAccumulator) -> (r:
        CommitStep)
        requires
            old(self).wf(),
            accumulator.wf(),
        ensures
            final(self).wf(),
            final(self)@ == old(self)@.committed(state_root),
            old(self)@.commits(accumulator@, epoch, state_root, r),
    {
        self.cached_state_root = Some(state_root);
        let changes = match self.changes.take() {
            Some(map) => {
                self.changes = Some(ChangeMap::new());
                map
            },
            None => ChangeMap::new(),
        };
        let parent = match self.parent_epoch_id {
            Some(parent) => parent,
            None => {
                return CommitStep::Genesis(CommitRequest { parent: None, epoch, state_root, changes });
            },
        };
        if self.accumulating {
            if let Some(root) = accumulator.get_state_root(&epoch) {
                return CommitStep::Done(root);
            }
        }
        CommitStep::QueryBackend(CommitRequest { parent: Some(parent), epoch, state_root, changes })
    }

    /// Takes note that the genesis was committed.
    pub fn genesis_committed(&self, epoch: EpochId, accumulator: &mut BatchAccumulator)
        requires
            old(accumulator).wf(),
        ensures
            final(accumulator).wf(),
            final(accumulator)@ == (if self@.accumulating {
                AccumulatorModel { last_flushed: Some(epoch), ..old(accumulator)@ }
            } else {
                old(accumulator)@
            }),
    {
        if self.accumulating {
            accumulator.set_last_flushed(epoch);
        }
    }

    /// Goes on with a commit that the backend was asked about. `existing` is the
    /// state root that the backend has for the epoch, if it has the epoch: then
    /// nothing is committed. Else the epoch joins the batch, and a full batch is
    /// to be flushed.
    pub fn commit_queried(
        &self,
        request: CommitRequest,
        existing: Option<MerkleHash>,
        accumulator: &mut BatchAccumulator,
    ) -> (r: CommitEnd)
        requires
            existing is None ==> self@.accumulating,
            old(accumulator).wf(),
            request.changes.wf(),
        ensures
            final(accumulator).wf(),
            commit_ends(old(accumulator)@, request, existing, r, final(accumulator)@),
    {
        if let Some(root) = existing {
            return CommitEnd::Done(root);
        }
        let root = request.state_root;
        let full = accumulator.accumulate(request.parent, request.epoch, request.state_root, request.changes);
        if full {
            match accumulator.flush_batch() {
                Some(flush) => CommitEnd::Flush(flush, root),
                None => CommitEnd::Done(root),
            }
        } else {
            CommitEnd::Done(root)
        }
    }
}

/// The keys of the pairs.
pub open spec fn keys_of(pairs: Seq<(Seq<u8>, Seq<u8>)>) -> Set<Seq<u8>> {
    Set::new(|k: Seq<u8>| exists|i: int| 0 <= i < pairs.len() && #[trigger] pairs[i].0 == k)
}

proof fn lemma_keys_of_push(pairs: Seq<(Seq<u8>, Seq<u8>)>, i: int)
    requires
        0 <= i < pairs.len(),
    ensures
        keys_of(pairs.take(i + 1)) == keys_of(pairs.take(i)).insert(pairs[i].0),
{
    let before = pairs.take(i);
    let after = pairs.take(i + 1);
    assert forall|k: Seq<u8>| keys_of(after).contains(k) <==> keys_of(before).insert(pairs[i].0).contains(k) by {
        if keys_of(after).contains(k) {
            let j = choose|j: int| 0 <= j < after.len() && #[trigger] after[j].0 == k;
            if j < i {
                assert(before[j].0 == k);
            }
        }
        if keys_of(before).contains(k) {
            let j = choose|j: int| 0 <= j < before.len() && #[trigger] before[j].0 == k;
            assert(after[j].0 == k);
        }
        assert(after[i].0 == pairs[i].0);
    }
    assert(keys_of(after) =~= keys_of(before).insert(pairs[i].0));
}

/// The keys that have a value, listed; none where there is no such key.
fn listed(merged: &ChangeMap) -> (r: Option<Vec<(Vec<u8>, Vec<u8>)>>)
    requires
        merged.wf(),
    ensures
        match r {
            None => present(merged@) == Map::<Seq<u8>, Seq<u8>>::empty(),
            Some(pairs) => {
                &&& present(merged@) != Map::<Seq<u8>, Seq<u8>>::empty()
                &&& pairs_of(pairs@) == sorted_pairs(present(merged@))
                &&& lists(pairs_of(pairs@), present(merged@))
            },
        },
{
    let pairs = merged.present_pairs();
    let ghost listing = pairs_of(pairs@);
    if pairs.len() == 0 {
        assert(listing.len() == 0);
        assert(present(merged@) =~= Map::<Seq<u8>, Seq<u8>>::empty());
        None
    } else {
        assert(present(merged@).contains_key(listing[0].0));
        Some(pairs)
    }
}

} // verus!
