//! Batches the commits of several epochs into one.
use vstd::prelude::*;
use crate::change_map::ChangeMap;
use crate::epoch_map::EpochMap;
use crate::primitive::{EpochId, MerkleHash};

verus! {

pub const DEFAULT_BATCH_COMMIT_SIZE: usize = 20;

/// What one epoch changed, on top of which epoch, and the state root after it.
#[verifier::ext_equal]
pub struct DeltaModel {
    pub parent: Option<EpochId>,
    pub changes: Map<Seq<u8>, Option<Seq<u8>>>,
    pub state_root: MerkleHash,
}

/// The epochs that wait for the next flush, and what earlier flushes left.
#[verifier::ext_equal]
pub struct AccumulatorModel {
    pub batch_size: nat,
    pub deltas: Map<EpochId, DeltaModel>,
    pub last_flushed: Option<EpochId>,
    pub order: Seq<EpochId>,
    pub flushed_roots: Map<EpochId, MerkleHash>,
}

impl AccumulatorModel {
    /// The epochs in order are those that have a delta.
    pub open spec fn valid(self) -> bool {
        &&& forall|i: int| 0 <= i < self.order.len() ==> self.deltas.contains_key(#[trigger] self.order[i])
        &&& forall|e: EpochId| #[trigger] self.deltas.contains_key(e) ==> self.order.contains(e)
    }

    /// The walk along the parents stops here: there is no epoch, it is the last
    /// flushed one, or it waits for no flush.
    pub open spec fn stops(self, at: Option<EpochId>) -> bool {
        at is None || at == self.last_flushed || !self.deltas.contains_key(at->0)
    }

    /// The walk along the parents from `at` stops after at most so many steps.
    pub open spec fn ends_within(self, at: Option<EpochId>, steps: nat) -> bool
        decreases steps,
    {
        self.stops(at) || (steps > 0 && self.ends_within(self.deltas[at->0].parent, (steps - 1) as nat))
    }

    /// The epochs on the first so many steps of that walk.
    pub open spec fn walk(self, at: Option<EpochId>, steps: nat) -> Seq<EpochId>
        decreases steps,
    {
        if self.stops(at) || steps == 0 {
            Seq::empty()
        } else {
            seq![at->0] + self.walk(self.deltas[at->0].parent, (steps - 1) as nat)
        }
    }

    /// The walk along the parents from `at` comes to an end.
    pub open spec fn chain_ends(self, at: Option<EpochId>) -> bool {
        exists|steps: nat| self.ends_within(at, steps)
    }

    /// The epochs from `at` back to the last flushed one, newest first.
    pub open spec fn chain(self, at: Option<EpochId>) -> Seq<EpochId> {
        self.walk(at, choose|steps: nat| self.ends_within(at, steps))
    }

    /// The changes of the epochs of a chain (newest first), each over those of
    /// the older ones.
    pub open spec fn layered(self, chain: Seq<EpochId>) -> Map<Seq<u8>, Option<Seq<u8>>>
        decreases chain.len(),
    {
        if chain.len() == 0 {
            Map::empty()
        } else {
            self.layered(chain.drop_first()).union_prefer_right(self.deltas[chain[0]].changes)
        }
    }

    /// All changes from the last flushed epoch up to and including `epoch`.
    pub open spec fn overlay(self, epoch: EpochId) -> Map<Seq<u8>, Option<Seq<u8>>> {
        self.layered(self.chain(Some(epoch)))
    }

    /// The changes of the epochs (oldest first), each over those before it.
    pub open spec fn composed(self, epochs: Seq<EpochId>) -> Map<Seq<u8>, Option<Seq<u8>>>
        decreases epochs.len(),
    {
        if epochs.len() == 0 {
            Map::empty()
        } else {
            self.composed(epochs.drop_last()).union_prefer_right(self.deltas[epochs.last()].changes)
        }
    }

    /// The state roots of those of the epochs that are not the tip of the batch.
    pub open spec fn roots_among(self, epochs: Seq<EpochId>) -> Map<EpochId, MerkleHash> {
        Map::new(
            |e: EpochId| epochs.contains(e) && e != self.order.last(),
            |e: EpochId| self.deltas[e].state_root,
        )
    }

    /// With one more epoch waiting.
    pub open spec fn accumulated(self, epoch: EpochId, delta: DeltaModel) -> AccumulatorModel {
        AccumulatorModel {
            deltas: self.deltas.insert(epoch, delta),
            order: self.order.push(epoch),
            ..self
        }
    }

    /// After the waiting epochs went into one commit under the last of them.
    pub open spec fn flushed(self) -> AccumulatorModel {
        AccumulatorModel {
            deltas: Map::empty(),
            order: Seq::empty(),
            last_flushed: Some(self.order.last()),
            flushed_roots: self.flushed_roots.union_prefer_right(self.roots_among(self.order)),
            ..self
        }
    }

    /// After some epochs moved to the history: the state roots kept for them are
    /// gone.
    pub open spec fn without_moved(self, moved: Seq<EpochId>) -> AccumulatorModel {
        AccumulatorModel {
            flushed_roots: Map::new(
                |e: EpochId| self.flushed_roots.contains_key(e) && !moved.contains(e),
                |e: EpochId| self.flushed_roots[e],
            ),
            ..self
        }
    }

    /// The request commits the whole batch at once: all changes composed, under the
    /// tip and its state root, on top of the last flushed epoch.
    pub open spec fn flushes(self, request: CommitRequest) -> bool {
        &&& request.changes.wf()
        &&& request.parent == self.last_flushed
        &&& request.epoch == self.order.last()
        &&& request.state_root == self.deltas[self.order.last()].state_root
        &&& request.changes@ == self.composed(self.order)
    }

    /// The epoch is new: it neither waits nor is the last flushed one, and no
    /// waiting epoch stands on it.
    pub open spec fn fresh(self, epoch: EpochId) -> bool {
        &&& !self.deltas.contains_key(epoch)
        &&& self.last_flushed != Some(epoch)
        &&& forall|e: EpochId| #[trigger] self.deltas.contains_key(e) ==> self.deltas[e].parent != Some(epoch)
    }

    /// Every walk along the parents comes to an end.
    pub open spec fn acyclic(self) -> bool {
        forall|e: EpochId| #[trigger] self.deltas.contains_key(e) ==> self.chain_ends(Some(e))
    }
}

proof fn lemma_walk_same(m: AccumulatorModel, at: Option<EpochId>, a: nat, b: nat)
    requires
        m.ends_within(at, a),
        m.ends_within(at, b),
    ensures
        m.walk(at, a) == m.walk(at, b),
    decreases a,
{
    if !m.stops(at) {
        lemma_walk_same(m, m.deltas[at->0].parent, (a - 1) as nat, (b - 1) as nat);
    }
}

/// A chain is the walk along the parents, of any number of steps in which it ends.
pub proof fn lemma_chain_is_walk(m: AccumulatorModel, at: Option<EpochId>, steps: nat)
    requires
        m.ends_within(at, steps),
    ensures
        m.chain_ends(at),
        m.chain(at) == m.walk(at, steps),
{
    let chosen = choose|n: nat| m.ends_within(at, n);
    lemma_walk_same(m, at, steps, chosen);
}

/// A chain is its first epoch and the chain of that epoch's parent.
pub proof fn lemma_chain_unfold(m: AccumulatorModel, at: Option<EpochId>)
    requires
        m.chain_ends(at),
    ensures
        m.stops(at) ==> m.chain(at) == Seq::<EpochId>::empty(),
        !m.stops(at) ==> {
            let parent = m.deltas[at->0].parent;
            m.chain_ends(parent) && m.chain(at) == seq![at->0] + m.chain(parent)
        },
{
    let steps = choose|n: nat| m.ends_within(at, n);
    lemma_chain_is_walk(m, at, steps);
    if !m.stops(at) {
        lemma_chain_is_walk(m, m.deltas[at->0].parent, (steps - 1) as nat);
    }
}

proof fn lemma_chain_members(m: AccumulatorModel, at: Option<EpochId>, steps: nat, i: int)
    requires
        m.ends_within(at, steps),
        0 <= i < m.walk(at, steps).len(),
    ensures
        m.deltas.contains_key(m.walk(at, steps)[i]),
        m.chain_ends(Some(m.walk(at, steps)[i])),
        m.chain(Some(m.walk(at, steps)[i])).len() == m.walk(at, steps).len() - i,
    decreases steps,
{
    if i == 0 {
        lemma_chain_is_walk(m, at, steps);
    } else {
        lemma_chain_members(m, m.deltas[at->0].parent, (steps - 1) as nat, i - 1);
    }
}

/// No epoch stands twice in a chain, and so a chain is no longer than the batch.
proof fn lemma_chain_within_order(m: AccumulatorModel, at: Option<EpochId>)
    requires
        m.valid(),
        m.chain_ends(at),
    ensures
        m.chain(at).len() <= m.order.len(),
{
    let steps = choose|n: nat| m.ends_within(at, n);
    let chain = m.walk(at, steps);
    assert forall|i: int, j: int| 0 <= i < chain.len() && 0 <= j < chain.len() && i != j implies chain[i] != chain[j] by {
        lemma_chain_members(m, at, steps, i);
        lemma_chain_members(m, at, steps, j);
    }
    chain.unique_seq_to_set();
    m.order.lemma_cardinality_of_set();
    assert(m.order.to_set().finite()) by {
        broadcast use vstd::seq_lib::seq_to_set_is_finite;
    }
    assert forall|e: EpochId| #[trigger] chain.to_set().contains(e) implies m.order.to_set().contains(e) by {
        let i = choose|i: int| 0 <= i < chain.len() && chain[i] == e;
        lemma_chain_members(m, at, steps, i);
    }
    vstd::set_lib::lemma_len_subset(chain.to_set(), m.order.to_set());
}

/// A chain begins with its epoch and goes on with the parent of each epoch. It holds
/// waiting epochs only, and it ends before the last flushed epoch, or where a parent
/// is missing or does not wait.
pub proof fn law_chain_follows_the_parents(m: AccumulatorModel, at: EpochId, i: int)
    requires
        m.chain_ends(Some(at)),
    ensures
        m.chain(Some(at)).len() > 0 <==> m.deltas.contains_key(at) && m.last_flushed != Some(at),
        0 <= i < m.chain(Some(at)).len() ==> {
            let chain = m.chain(Some(at));
            let parent = m.deltas[chain[i]].parent;
            &&& chain[0] == at
            &&& m.deltas.contains_key(chain[i])
            &&& m.last_flushed != Some(chain[i])
            &&& i + 1 < chain.len() ==> parent == Some(chain[i + 1])
            &&& i + 1 == chain.len() ==> parent is None || parent == m.last_flushed || !m.deltas.contains_key(parent->0)
        },
    decreases i,
{
    lemma_chain_unfold(m, Some(at));
    if 0 <= i < m.chain(Some(at)).len() {
        let parent = m.deltas[at].parent;
        lemma_chain_unfold(m, parent);
        if let Some(next) = parent {
            if i > 0 {
                law_chain_follows_the_parents(m, next, i - 1);
            }
        }
    }
}

/// In an overlay the newest change to a key counts: the one of the first epoch
/// of the chain that changed the key.
pub proof fn law_overlay_newest_wins(m: AccumulatorModel, chain: Seq<EpochId>, key: Seq<u8>, i: int)
    requires
        0 <= i < chain.len(),
        m.deltas[chain[i]].changes.contains_key(key),
        forall|j: int| 0 <= j < i ==> !(#[trigger] m.deltas[chain[j]]).changes.contains_key(key),
    ensures
        m.layered(chain).contains_key(key),
        m.layered(chain)[key] == m.deltas[chain[i]].changes[key],
    decreases chain.len(),
{
    if i > 0 {
        let rest = chain.drop_first();
        assert(!m.deltas[chain[0]].changes.contains_key(key));
        assert forall|j: int| 0 <= j < i - 1 implies !(#[trigger] m.deltas[rest[j]]).changes.contains_key(key) by {
            assert(rest[j] == chain[j + 1]);
        }
        law_overlay_newest_wins(m, rest, key, i - 1);
    }
}

/// A key that no epoch of the chain changed is not in the overlay.
pub proof fn law_overlay_leaves_unchanged_keys_out(m: AccumulatorModel, chain: Seq<EpochId>, key: Seq<u8>)
    requires
        forall|i: int| 0 <= i < chain.len() ==> !(#[trigger] m.deltas[chain[i]]).changes.contains_key(key),
    ensures
        !m.layered(chain).contains_key(key),
    decreases chain.len(),
{
    if chain.len() > 0 {
        let rest = chain.drop_first();
        assert(!m.deltas[chain[0]].changes.contains_key(key));
        assert forall|i: int| 0 <= i < rest.len() implies !(#[trigger] m.deltas[rest[i]]).changes.contains_key(key) by {
            assert(rest[i] == chain[i + 1]);
        }
        law_overlay_leaves_unchanged_keys_out(m, rest, key);
    }
}

/// In a composed batch the newest change to a key counts: the one of the last of
/// the epochs that changed the key.
pub proof fn law_composed_newest_wins(m: AccumulatorModel, epochs: Seq<EpochId>, key: Seq<u8>, i: int)
    requires
        0 <= i < epochs.len(),
        m.deltas[epochs[i]].changes.contains_key(key),
        forall|j: int| i < j < epochs.len() ==> !(#[trigger] m.deltas[epochs[j]]).changes.contains_key(key),
    ensures
        m.composed(epochs).contains_key(key),
        m.composed(epochs)[key] == m.deltas[epochs[i]].changes[key],
    decreases epochs.len(),
{
    if i < epochs.len() - 1 {
        let rest = epochs.drop_last();
        assert(!m.deltas[epochs[epochs.len() - 1]].changes.contains_key(key));
        assert forall|j: int| i < j < rest.len() implies !(#[trigger] m.deltas[rest[j]]).changes.contains_key(key) by {
            assert(rest[j] == epochs[j]);
        }
        law_composed_newest_wins(m, rest, key, i);
    }
}

/// A key that none of the epochs changed is not in the composed batch.
pub proof fn law_composed_leaves_unchanged_keys_out(m: AccumulatorModel, epochs: Seq<EpochId>, key: Seq<u8>)
    requires
        forall|i: int| 0 <= i < epochs.len() ==> !(#[trigger] m.deltas[epochs[i]]).changes.contains_key(key),
    ensures
        !m.composed(epochs).contains_key(key),
    decreases epochs.len(),
{
    if epochs.len() > 0 {
        let rest = epochs.drop_last();
        assert(!m.deltas[epochs[epochs.len() - 1]].changes.contains_key(key));
        assert forall|i: int| 0 <= i < rest.len() implies !(#[trigger] m.deltas[rest[i]]).changes.contains_key(key) by {
            assert(rest[i] == epochs[i]);
        }
        law_composed_leaves_unchanged_keys_out(m, rest, key);
    }
}

/// Each epoch of the batch stands on the one before it, and the first on the
/// last flushed epoch.
pub open spec fn is_line(m: AccumulatorModel, epochs: Seq<EpochId>) -> bool {
    &&& forall|i: int| 0 < i < epochs.len() ==> (#[trigger] m.deltas[epochs[i]]).parent == Some(epochs[i - 1])
    &&& epochs.len() > 0 ==> m.stops(m.deltas[epochs[0]].parent)
    &&& forall|i: int| 0 <= i < epochs.len() ==> !m.stops(Some(#[trigger] epochs[i]))
}

proof fn lemma_line(m: AccumulatorModel, epochs: Seq<EpochId>)
    requires
        is_line(m, epochs),
        epochs.len() > 0,
    ensures
        m.chain_ends(Some(epochs.last())),
        m.overlay(epochs.last()) == m.composed(epochs),
    decreases epochs.len(),
{
    let rest = epochs.drop_last();
    let tip = epochs.last();
    let parent = m.deltas[tip].parent;
    assert(!m.stops(Some(tip)));
    if rest.len() == 0 {
        assert(m.ends_within(parent, 0));
        assert(m.ends_within(Some(tip), 1));
        lemma_chain_unfold(m, Some(tip));
        lemma_chain_is_walk(m, parent, 0);
    } else {
        assert(is_line(m, rest));
        lemma_line(m, rest);
        assert(parent == Some(rest.last()));
        let steps = choose|n: nat| m.ends_within(parent, n);
        assert(m.ends_within(Some(tip), steps + 1));
        lemma_chain_unfold(m, Some(tip));
    }
    assert(m.chain(Some(tip)).drop_first() =~= m.chain(parent));
    assert(m.layered(m.chain(parent)) =~= m.composed(rest));
    assert(m.chain(Some(tip))[0] == tip);
}

/// Where the epochs of the batch stand on one another, a flush commits exactly
/// what the overlay of the tip showed before.
pub proof fn law_flush_commits_the_overlay_of_the_tip(m: AccumulatorModel)
    requires
        m.order.len() > 0,
        is_line(m, m.order),
    ensures
        m.chain_ends(Some(m.order.last())),
        m.composed(m.order) == m.overlay(m.order.last()),
{
    lemma_line(m, m.order);
}

/// After a flush no epoch waits, the tip is the base of further overlays, and
/// the state root of every other epoch of the batch is still known.
pub proof fn law_flush_keeps_the_state_roots(m: AccumulatorModel, epoch: EpochId)
    requires
        m.valid(),
        m.deltas.contains_key(epoch),
    ensures
        !m.flushed().deltas.contains_key(epoch),
        epoch == m.order.last() ==> m.flushed().last_flushed == Some(epoch),
        epoch != m.order.last() ==> m.flushed().flushed_roots.contains_key(epoch)
            && m.flushed().flushed_roots[epoch] == m.deltas[epoch].state_root,
{
}

proof fn lemma_walk_unchanged(m: AccumulatorModel, epoch: EpochId, delta: DeltaModel, at: Option<EpochId>, steps: nat)
    requires
        m.ends_within(at, steps),
        at != Some(epoch),
        m.fresh(epoch),
    ensures
        m.accumulated(epoch, delta).ends_within(at, steps),
        m.accumulated(epoch, delta).walk(at, steps) == m.walk(at, steps),
        m.accumulated(epoch, delta).layered(m.walk(at, steps)) == m.layered(m.walk(at, steps)),
    decreases steps,
{
    if m.stops(at) {
        assert(m.layered(m.walk(at, steps)) =~= m.accumulated(epoch, delta).layered(m.walk(at, steps)));
    } else {
        assert(m.deltas.contains_key(at->0));
        let parent = m.deltas[at->0].parent;
        lemma_walk_unchanged(m, epoch, delta, parent, (steps - 1) as nat);
        assert(m.walk(at, steps).drop_first() =~= m.walk(parent, (steps - 1) as nat));
        assert(m.walk(at, steps)[0] == at->0);
    }
}

/// The chain of an epoch at which the walk stops is empty.
pub proof fn lemma_stopped_chain(m: AccumulatorModel, at: Option<EpochId>)
    requires
        m.stops(at),
    ensures
        m.layered(m.chain(at)) == Map::<Seq<u8>, Option<Seq<u8>>>::empty(),
{
    assert(m.ends_within(at, 0));
    lemma_chain_is_walk(m, at, 0);
}

/// The overlay of a new epoch is its own changes over the overlay of its parent.
pub proof fn lemma_overlay_grows(m: AccumulatorModel, epoch: EpochId, delta: DeltaModel)
    requires
        m.fresh(epoch),
        delta.parent != Some(epoch),
        m.chain_ends(delta.parent),
    ensures
        m.accumulated(epoch, delta).chain_ends(Some(epoch)),
        m.accumulated(epoch, delta).overlay(epoch) == m.layered(m.chain(delta.parent)).union_prefer_right(delta.changes),
{
    let n = m.accumulated(epoch, delta);
    let steps = choose|steps: nat| m.ends_within(delta.parent, steps);
    lemma_walk_unchanged(m, epoch, delta, delta.parent, steps);
    lemma_chain_is_walk(m, delta.parent, steps);
    lemma_chain_is_walk(n, delta.parent, steps);
    assert(n.ends_within(Some(epoch), steps + 1));
    lemma_chain_unfold(n, Some(epoch));
    assert(n.chain(Some(epoch)).drop_first() =~= n.chain(delta.parent));
    assert(n.chain(Some(epoch))[0] == epoch);
}

/// An epoch that joins the batch shows its own changes over what its parent shows,
/// and the epochs that wait already show what they showed.
pub proof fn law_accumulate_adds_one_layer(
    m: AccumulatorModel,
    epoch: EpochId,
    delta: DeltaModel,
    other: EpochId,
    key: Seq<u8>,
)
    requires
        m.fresh(epoch),
        delta.parent matches Some(parent) && parent != epoch && m.deltas.contains_key(parent) && m.chain_ends(Some(parent)),
        m.deltas.contains_key(other),
        m.chain_ends(Some(other)),
    ensures
        ({
            let after = m.accumulated(epoch, delta);
            let below = m.overlay(delta.parent->0);
            let overlay = after.overlay(epoch);
            &&& after.deltas[epoch].state_root == delta.state_root
            &&& delta.changes.contains_key(key) ==> overlay.contains_key(key) && overlay[key] == delta.changes[key]
            &&& !delta.changes.contains_key(key) ==> (overlay.contains_key(key) <==> below.contains_key(key))
            &&& !delta.changes.contains_key(key) && below.contains_key(key) ==> overlay[key] == below[key]
            &&& after.overlay(other) == m.overlay(other)
            &&& after.deltas[other].state_root == m.deltas[other].state_root
            &&& after.order == m.order.push(epoch)
            &&& after.last_flushed == m.last_flushed
            &&& after.flushed_roots == m.flushed_roots
        }),
{
    let after = m.accumulated(epoch, delta);
    lemma_overlay_grows(m, epoch, delta);
    let steps = choose|steps: nat| m.ends_within(Some(other), steps);
    lemma_walk_unchanged(m, epoch, delta, Some(other), steps);
    lemma_chain_is_walk(m, Some(other), steps);
    lemma_chain_is_walk(after, Some(other), steps);
}

/// The request of a flush holds of each key the change of the last epoch in the
/// batch that changed it, and no key that none of them changed; it goes on top of
/// the last flushed epoch, under the newest epoch and with its state root.
pub proof fn law_flush_request_holds_the_newest_changes(m: AccumulatorModel, request: CommitRequest, key: Seq<u8>, i: int)
    requires
        m.order.len() > 0,
        m.flushes(request),
        -1 <= i < m.order.len(),
        i >= 0 ==> m.deltas[m.order[i]].changes.contains_key(key),
        forall|j: int| i < j < m.order.len() ==> !(#[trigger] m.deltas[m.order[j]]).changes.contains_key(key),
    ensures
        request.changes@.contains_key(key) <==> i >= 0,
        i >= 0 ==> request.changes@[key] == m.deltas[m.order[i]].changes[key],
        request.parent == m.last_flushed,
        request.epoch == m.order[m.order.len() - 1],
        request.state_root == m.deltas[request.epoch].state_root,
{
    if i >= 0 {
        law_composed_newest_wins(m, m.order, key, i);
    } else {
        law_composed_leaves_unchanged_keys_out(m, m.order, key);
    }
}

/// What a flush kept before is still kept, unless the epoch was in the batch again.
pub proof fn law_flush_keeps_earlier_roots(m: AccumulatorModel, epoch: EpochId)
    requires
        m.flushed_roots.contains_key(epoch),
        !m.order.contains(epoch),
    ensures
        m.flushed().flushed_roots.contains_key(epoch),
        m.flushed().flushed_roots[epoch] == m.flushed_roots[epoch],
{
}

/// A flush empties the batch and keeps no root for an epoch that was neither in it
/// nor kept before; the tip is the base from then on.
pub proof fn law_flush_empties_the_batch(m: AccumulatorModel, epoch: EpochId)
    requires
        m.order.len() > 0,
    ensures
        m.flushed().order.len() == 0,
        !m.flushed().deltas.contains_key(epoch),
        m.flushed().last_flushed == Some(m.order[m.order.len() - 1]),
        m.flushed().batch_size == m.batch_size,
        m.flushed().flushed_roots.contains_key(epoch) ==> m.order.contains(epoch) || m.flushed_roots.contains_key(epoch),
{
}

/// Moving epochs to the history clears their roots and no others, and leaves what
/// waits alone.
pub proof fn law_moving_clears_the_moved_roots(m: AccumulatorModel, moved: Seq<EpochId>, epoch: EpochId)
    ensures
        moved.contains(epoch) ==> !m.without_moved(moved).flushed_roots.contains_key(epoch),
        !moved.contains(epoch) ==> (m.without_moved(moved).flushed_roots.contains_key(epoch)
            <==> m.flushed_roots.contains_key(epoch)),
        !moved.contains(epoch) && m.flushed_roots.contains_key(epoch) ==> m.without_moved(moved).flushed_roots[epoch]
            == m.flushed_roots[epoch],
        m.without_moved(moved).deltas == m.deltas,
        m.without_moved(moved).order == m.order,
        m.without_moved(moved).last_flushed == m.last_flushed,
{
}

/// Accumulating a new epoch on a parent other than itself keeps every walk along
/// the parents finite.
pub proof fn law_accumulate_keeps_chains_finite(m: AccumulatorModel, epoch: EpochId, delta: DeltaModel)
    requires
        m.acyclic(),
        m.fresh(epoch),
        delta.parent != Some(epoch),
    ensures
        m.accumulated(epoch, delta).acyclic(),
{
    let n = m.accumulated(epoch, delta);
    assert forall|e: EpochId| #[trigger] n.deltas.contains_key(e) implies n.chain_ends(Some(e)) by {
        if e != epoch {
            assert(m.deltas.contains_key(e));
            let steps = choose|steps: nat| m.ends_within(Some(e), steps);
            lemma_walk_unchanged(m, epoch, delta, Some(e), steps);
        } else {
            let parent = delta.parent;
            if m.stops(parent) {
                assert(m.ends_within(parent, 0));
            } else {
                assert(m.deltas.contains_key(parent->0));
            }
            lemma_overlay_grows(m, epoch, delta);
        }
    }
}

/// Epochs that are committed one after another, each on the one before it, form a
/// line: so the flush of their batch commits what the last of them shows.
pub proof fn law_accumulate_extends_a_line(m: AccumulatorModel, epoch: EpochId, delta: DeltaModel)
    requires
        m.valid(),
        is_line(m, m.order),
        m.fresh(epoch),
        m.order.len() > 0 ==> delta.parent == Some(m.order.last()),
        m.order.len() == 0 ==> delta.parent is Some && delta.parent == m.last_flushed,
    ensures
        is_line(m.accumulated(epoch, delta), m.accumulated(epoch, delta).order),
{
    let n = m.accumulated(epoch, delta);
    assert forall|i: int| 0 <= i < n.order.len() implies !n.stops(Some(#[trigger] n.order[i])) by {
        if i < m.order.len() {
            assert(!m.stops(Some(m.order[i])));
        }
    }
    assert forall|i: int| 0 < i < n.order.len() implies (#[trigger] n.deltas[n.order[i]]).parent == Some(
        n.order[i - 1],
    ) by {
        if i < m.order.len() {
            assert(m.deltas.contains_key(m.order[i]));
            assert(m.deltas[m.order[i]].parent == Some(m.order[i - 1]));
        }
    }
    if m.order.len() > 0 {
        assert(m.deltas.contains_key(m.order[0]));
    }
}

/// A flush leaves no chain behind, and so none without an end.
pub proof fn law_flush_keeps_chains_finite(m: AccumulatorModel)
    ensures
        m.flushed().acyclic(),
{
}

/// The first `i + 1` epochs are the first `i` and the one behind them.
proof fn lemma_take_one_more(epochs: Seq<EpochId>, i: int)
    requires
        0 <= i < epochs.len(),
    ensures
        forall|e: EpochId| #[trigger] epochs.take(i + 1).contains(e) <==> epochs.take(i).contains(e) || e == epochs[i],
{
    let done = epochs.take(i);
    let now = epochs.take(i + 1);
    assert forall|e: EpochId| #[trigger] now.contains(e) <==> done.contains(e) || e == epochs[i] by {
        if now.contains(e) {
            let p = choose|p: int| 0 <= p < now.len() && now[p] == e;
            assert(p == i || done[p] == e);
        }
        if done.contains(e) {
            let p = choose|p: int| 0 <= p < done.len() && done[p] == e;
            assert(now[p] == e);
        }
        assert(now[i] == epochs[i]);
    }
}

/// What one epoch changed.
#[derive(Debug)]
struct EpochDelta {
    parent_epoch_id: Option<EpochId>,
    changes: ChangeMap,
    state_root: MerkleHash,
}

impl EpochDelta {
    spec fn model(self) -> DeltaModel {
        DeltaModel {
            parent: self.parent_epoch_id,
            changes: self.changes@,
            state_root: self.state_root,
        }
    }
}

/// One commit for the backend: the changes to store under `epoch`, on top of
/// `parent`.
#[derive(Debug)]
pub struct CommitRequest {
    pub parent: Option<EpochId>,
    pub epoch: EpochId,
    pub state_root: MerkleHash,
    pub changes: ChangeMap,
}

/// Batches multiple epoch commits into one.
#[derive(Debug)]
pub struct BatchAccumulator {
    batch_size: usize,
    /// Per-epoch deltas not yet flushed.
    epoch_deltas: EpochMap<EpochDelta>,
    /// The last epoch that was flushed.
    last_flushed_epoch: Option<EpochId>,
    /// Epochs in execution order since the last flush.
    epochs_in_order: Vec<EpochId>,
    /// State roots of flushed intermediate epochs (not the tip). Cleared when
    /// epochs are moved to the historical part.
    flushed_intermediate_roots: EpochMap<MerkleHash>,
}

impl View for BatchAccumulator {
    type V = AccumulatorModel;

    closed spec fn view(&self) -> AccumulatorModel {
        AccumulatorModel {
            batch_size: self.batch_size as nat,
            deltas: self.epoch_deltas@.map_values(|d: EpochDelta| d.model()),
            last_flushed: self.last_flushed_epoch,
            order: self.epochs_in_order@,
            flushed_roots: self.flushed_intermediate_roots@,
        }
    }
}

impl BatchAccumulator {
    pub closed spec fn wf(&self) -> bool {
        &&& self.epoch_deltas.wf()
        &&& self.flushed_intermediate_roots.wf()
        &&& forall|e: EpochId| #[trigger] self.epoch_deltas@.contains_key(e) ==> self.epoch_deltas@[e].changes.wf()
        &&& self@.valid()
    }

    /// What is waiting is consistent: the epochs in order are those that have a
    /// delta.
    pub proof fn law_waiting_epochs_are_in_order(&self)
        requires
            self.wf(),
        ensures
            self@.valid(),
    {
    }

    /// Nothing waits and nothing was flushed yet.
    pub fn new(batch_size: usize) -> (r: BatchAccumulator)
        ensures
            r.wf(),
            r@ == (AccumulatorModel {
                batch_size: batch_size as nat,
                deltas: Map::empty(),
                last_flushed: None,
                order: Seq::empty(),
                flushed_roots: Map::empty(),
            }),
    {
        let r = BatchAccumulator {
            batch_size,
            epoch_deltas: EpochMap::new(),
            last_flushed_epoch: None,
            epochs_in_order: Vec::new(),
            flushed_intermediate_roots: EpochMap::new(),
        };
        assert(r@.deltas =~= Map::<EpochId, DeltaModel>::empty());
        r
    }

    /// Stores an epoch's delta. Returns true if the batch is full and should be
    /// flushed.
    pub fn accumulate(
        &mut self,
        parent_epoch_id: Option<EpochId>,
        epoch_id: EpochId,
        state_root: MerkleHash,
        changes: ChangeMap,
    ) -> (full: bool)
        requires
            old(self).wf(),
            changes.wf(),
        ensures
            final(self).wf(),
            final(self)@ == old(self)@.accumulated(
                epoch_id,
                (DeltaModel { parent: parent_epoch_id, changes: changes@, state_root }),
            ),
            full == (old(self)@.order.len() + 1 >= old(self)@.batch_size),
    {
        let ghost before = *self;
        let delta = EpochDelta { parent_epoch_id, changes, state_root };
        let ghost model = delta.model();
        self.epoch_deltas.insert(epoch_id, delta);
        self.epochs_in_order.push(epoch_id);
        proof {
            assert(self@.deltas =~= before@.deltas.insert(epoch_id, model));
            assert forall|e: EpochId| #[trigger] self@.deltas.contains_key(e) implies self@.order.contains(e) by {
                if e == epoch_id {
                    assert(self@.order[before@.order.len() as int] == e);
                } else {
                    assert(before@.deltas.contains_key(e));
                    let i = choose|i: int| 0 <= i < before@.order.len() && before@.order[i] == e;
                    assert(self@.order[i] == e);
                }
            }
            assert forall|i: int| 0 <= i < self@.order.len() implies self@.deltas.contains_key(#[trigger] self@.order[i]) by {
                if i < before@.order.len() {
                    assert(before@.deltas.contains_key(before@.order[i]));
                }
            }
        }
        self.epochs_in_order.len() >= self.batch_size
    }

    /// Whether an epoch waits for the next flush.
    pub fn contains(&self, epoch_id: &EpochId) -> (r: bool)
        requires
            self.wf(),
        ensures
            r == self@.deltas.contains_key(*epoch_id),
    {
        self.epoch_deltas.contains_key(epoch_id)
    }

    /// The state root of a waiting epoch.
    pub fn get_state_root(&self, epoch_id: &EpochId) -> (r: Option<MerkleHash>)
        requires
            self.wf(),
        ensures
            r == (if self@.deltas.contains_key(*epoch_id) {
                Some(self@.deltas[*epoch_id].state_root)
            } else {
                None
            }),
    {
        match self.epoch_deltas.get(epoch_id) {
            Some(delta) => Some(delta.state_root),
            None => None,
        }
    }

    /// The state root of an epoch that was flushed inside a batch, under a later
    /// epoch.
    pub fn flushed_intermediate_root(&self, epoch_id: &EpochId) -> (r: Option<MerkleHash>)
        requires
            self.wf(),
        ensures
            r == (if self@.flushed_roots.contains_key(*epoch_id) {
                Some(self@.flushed_roots[*epoch_id])
            } else {
                None
            }),
    {
        match self.flushed_intermediate_roots.get(epoch_id) {
            Some(root) => Some(*root),
            None => None,
        }
    }

    /// The epochs from `epoch_id` back to the last flushed one, newest first.
    fn parent_chain(&self, epoch_id: &EpochId) -> (r: Vec<EpochId>)
        requires
            self.wf(),
            self@.chain_ends(Some(*epoch_id)),
        ensures
            r@ == self@.chain(Some(*epoch_id)),
            forall|i: int| 0 <= i < r@.len() ==> self@.deltas.contains_key(#[trigger] r@[i]),
    {
        let mut chain: Vec<EpochId> = Vec::new();
        let mut current = Some(*epoch_id);
        let ghost start = Some(*epoch_id);
        let ghost mut left = choose|n: nat| self@.ends_within(start, n);
        assert(chain@ + self@.chain(current) =~= self@.chain(start));
        loop
            invariant
                self.wf(),
                self@.ends_within(current, left),
                self@.chain(start) == chain@ + self@.chain(current),
                forall|i: int| 0 <= i < chain@.len() ==> self@.deltas.contains_key(#[trigger] chain@[i]),
            ensures
                self@.stops(current),
                self@.ends_within(current, left),
            decreases left,
        {
            let epoch = match current {
                Some(epoch) => epoch,
                None => { break; },
            };
            if let Some(flushed) = self.last_flushed_epoch {
                if flushed == epoch {
                    break;
                }
            }
            match self.epoch_deltas.get(&epoch) {
                Some(delta) => {
                    let ghost before = current;
                    proof {
                        assert(self@.deltas[epoch] == delta.model());
                        assert(!self@.stops(current));
                        lemma_chain_is_walk(self@, current, left);
                        lemma_chain_unfold(self@, current);
                    }
                    let ghost old_chain = chain@;
                    chain.push(epoch);
                    current = delta.parent_epoch_id;
                    proof {
                        left = (left - 1) as nat;
                        assert(chain@ + self@.chain(current) =~= old_chain + self@.chain(before));
                    }
                },
                None => { break; },
            }
        }
        proof {
            lemma_chain_is_walk(self@, current, left);
            assert(self@.chain(current) =~= Seq::<EpochId>::empty());
            assert(chain@ =~= self@.chain(start));
        }
        chain
    }

    /// Whether the walk along the parents from the epoch comes to an end, as
    /// building its overlay needs it.
    pub fn parent_chain_ends(&self, epoch_id: &EpochId) -> (r: bool)
        requires
            self.wf(),
        ensures
            r == self@.chain_ends(Some(*epoch_id)),
    {
        let mut current = Some(*epoch_id);
        let ghost start = Some(*epoch_id);
        let limit: usize = self.epochs_in_order.len();
        let mut taken: usize = 0;
        loop
            invariant
                self.wf(),
                limit == self@.order.len(),
                taken <= limit,
                start == Some(*epoch_id),
                self@.chain_ends(current) ==> self@.chain_ends(start),
                self@.chain_ends(start) ==> self@.chain_ends(current) && self@.chain(start).len() == taken
                    + self@.chain(current).len(),
            decreases limit - taken,
        {
            let epoch = match current {
                Some(epoch) => epoch,
                None => {
                    assert(self@.ends_within(current, 0));
                    return true;
                },
            };
            if let Some(flushed) = self.last_flushed_epoch {
                if flushed == epoch {
                    assert(self@.ends_within(current, 0));
                    return true;
                }
            }
            match self.epoch_deltas.get(&epoch) {
                Some(delta) => {
                    assert(self@.deltas[epoch] == delta.model());
                    assert(!self@.stops(current));
                    proof {
                        if self@.chain_ends(start) {
                            lemma_chain_unfold(self@, current);
                            lemma_chain_within_order(self@, start);
                        }
                    }
                    if taken == limit {
                        return false;
                    }
                    let ghost before = current;
                    current = delta.parent_epoch_id;
                    proof {
                        if self@.chain_ends(current) {
                            let n = choose|n: nat| self@.ends_within(current, n);
                            assert(self@.ends_within(before, n + 1));
                        }
                    }
                    taken = taken + 1;
                },
                None => {
                    assert(self@.ends_within(current, 0));
                    return true;
                },
            }
        }
    }

    /// A merged overlay of all deltas from the last flushed epoch up to and
    /// including the target epoch; none if the epoch does not wait for a flush.
    pub fn build_overlay_for_epoch(&self, target_epoch_id: &EpochId) -> (r: Option<ChangeMap>)
        requires
            self.wf(),
            self@.chain_ends(Some(*target_epoch_id)),
        ensures
            r is Some <==> self@.deltas.contains_key(*target_epoch_id),
            r matches Some(overlay) ==> overlay.wf() && overlay@ == self@.overlay(*target_epoch_id),
    {
        if !self.epoch_deltas.contains_key(target_epoch_id) {
            return None;
        }
        let chain = self.parent_chain(target_epoch_id);
        let mut overlay = ChangeMap::new();
        let mut i: usize = chain.len();
        assert(chain@.skip(i as int) =~= Seq::<EpochId>::empty());
        while i > 0
            invariant
                self.wf(),
                i <= chain@.len(),
                forall|j: int| 0 <= j < chain@.len() ==> self@.deltas.contains_key(#[trigger] chain@[j]),
                overlay.wf(),
                overlay@ == self@.layered(chain@.skip(i as int)),
            decreases i,
        {
            i = i - 1;
            assert(self@.deltas.contains_key(chain@[i as int]));
            assert(chain@.skip(i as int).drop_first() =~= chain@.skip(i + 1));
            if let Some(delta) = self.epoch_deltas.get(&chain[i]) {
                assert(self@.deltas[chain@[i as int]] == delta.model());
                overlay.apply(&delta.changes);
            }
        }
        assert(chain@.skip(0) =~= chain@);
        Some(overlay)
    }

    /// All waiting deltas composed into one commit under the tip of the batch;
    /// none if no epoch waits. The batch is unchanged until the commit succeeded
    /// (see `flush_committed`).
    pub fn flush_batch(&self) -> (r: Option<CommitRequest>)
        requires
            self.wf(),
        ensures
            r is None <==> self@.order.len() == 0,
            r matches Some(request) ==> self@.flushes(request),
    {
        if self.epochs_in_order.len() == 0 {
            return None;
        }
        let mut composed = ChangeMap::new();
        let mut i: usize = 0;
        assert(self@.order.take(0) =~= Seq::<EpochId>::empty());
        while i < self.epochs_in_order.len()
            invariant
                self.wf(),
                i <= self.epochs_in_order@.len(),
                composed.wf(),
                composed@ == self@.composed(self@.order.take(i as int)),
            decreases self.epochs_in_order@.len() - i,
        {
            let epoch = self.epochs_in_order[i];
            assert(self@.deltas.contains_key(self@.order[i as int]));
            assert(self@.order.take(i + 1).drop_last() =~= self@.order.take(i as int));
            if let Some(delta) = self.epoch_deltas.get(&epoch) {
                assert(self@.deltas[epoch] == delta.model());
                composed.apply(&delta.changes);
            }
            i = i + 1;
        }
        assert(self@.order.take(i as int) =~= self@.order);
        let tip = self.epochs_in_order[self.epochs_in_order.len() - 1];
        assert(self@.deltas.contains_key(self@.order.last()));
        match self.epoch_deltas.get(&tip) {
            Some(delta) => Some(
                CommitRequest {
                    parent: self.last_flushed_epoch,
                    epoch: tip,
                    state_root: delta.state_root,
                    changes: composed,
                },
            ),
            None => None,
        }
    }

    /// Takes note that the commit of the batch succeeded: the tip is the last
    /// flushed epoch, the state roots of the epochs before it are kept, and
    /// nothing waits any more. Returns the tip.
    pub fn flush_committed(&mut self) -> (tip: EpochId)
        requires
            old(self).wf(),
            old(self)@.order.len() > 0,
        ensures
            final(self).wf(),
            final(self)@ == old(self)@.flushed(),
            tip == old(self)@.order.last(),
    {
        let ghost before = self@;
        let tip = self.epochs_in_order[self.epochs_in_order.len() - 1];
        let mut i: usize = 0;
        assert(before.flushed_roots =~= before.flushed_roots.union_prefer_right(before.roots_among(before.order.take(0))));
        while i < self.epochs_in_order.len()
            invariant
                self.wf(),
                i <= self.epochs_in_order@.len(),
                tip == before.order.last(),
                before.order.len() > 0,
                self@ == (AccumulatorModel {
                    flushed_roots: self.flushed_intermediate_roots@,
                    ..before
                }),
                self.flushed_intermediate_roots@ == before.flushed_roots.union_prefer_right(
                    before.roots_among(before.order.take(i as int)),
                ),
            decreases self.epochs_in_order@.len() - i,
        {
            let epoch = self.epochs_in_order[i];
            assert(self@.deltas.contains_key(self@.order[i as int]));
            if epoch != tip {
                if let Some(delta) = self.epoch_deltas.get(&epoch) {
                    let root = delta.state_root;
                    self.flushed_intermediate_roots.insert(epoch, root);
                }
            }
            proof {
                let now = before.order.take(i + 1);
                lemma_take_one_more(before.order, i as int);
                assert(self.flushed_intermediate_roots@ =~= before.flushed_roots.union_prefer_right(
                    before.roots_among(now),
                ));
            }
            i = i + 1;
        }
        assert(before.order.take(i as int) =~= before.order);
        self.last_flushed_epoch = Some(tip);
        self.epoch_deltas.clear();
        self.epochs_in_order.clear();
        assert(self@.deltas =~= before.flushed().deltas);
        assert(self@ =~= before.flushed());
        tip
    }

    /// Takes note that the epochs were moved to the historical part: the state
    /// roots kept for them are cleared.
    pub fn moved_to_history(&mut self, moved: &Vec<EpochId>)
        requires
            old(self).wf(),
        ensures
            final(self).wf(),
            final(self)@ == old(self)@.without_moved(moved@),
    {
        let ghost before = self@;
        let mut i: usize = 0;
        assert(self@.flushed_roots =~= before.without_moved(moved@.take(0)).flushed_roots);
        while i < moved.len()
            invariant
                i <= moved@.len(),
                self.wf(),
                self@ == before.without_moved(moved@.take(i as int)),
            decreases moved@.len() - i,
        {
            let ghost now = moved@.take(i + 1);
            let ghost prior = *self;
            self.flushed_intermediate_roots.remove(&moved[i]);
            proof {
                assert(self@.deltas =~= prior@.deltas);
                assert(self@.order == prior@.order);
                assert forall|e: EpochId| #[trigger] self@.deltas.contains_key(e) implies self@.order.contains(e) by {
                    assert(prior@.deltas.contains_key(e));
                }
                assert forall|p: int| 0 <= p < self@.order.len() implies self@.deltas.contains_key(
                    #[trigger] self@.order[p],
                ) by {
                    assert(prior@.deltas.contains_key(prior@.order[p]));
                }
                lemma_take_one_more(moved@, i as int);
                assert(self@.flushed_roots =~= before.without_moved(now).flushed_roots);
                assert(self@ =~= before.without_moved(now));
            }
            i = i + 1;
        }
        assert(moved@.take(i as int) =~= moved@);
    }

    /// Takes note that an epoch was committed to the backend on its own.
    pub fn set_last_flushed(&mut self, epoch_id: EpochId)
        requires
            old(self).wf(),
        ensures
            final(self).wf(),
            final(self)@ == (AccumulatorModel { last_flushed: Some(epoch_id), ..old(self)@ }),
    {
        self.last_flushed_epoch = Some(epoch_id);
    }

    /// The backend's epoch under the overlay: the last flushed one, if any.
    pub fn base_epoch_for_overlay(&self) -> (r: Option<EpochId>)
        ensures
            r == self@.last_flushed,
    {
        self.last_flushed_epoch
    }
}

} // verus!
