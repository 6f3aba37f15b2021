//! Opens the states of epochs, and keeps the batch between them and the backend.
use vstd::prelude::*;
use crate::accumulator::{is_line, law_composed_leaves_unchanged_keys_out, law_composed_newest_wins};
use crate::accumulator::{law_overlay_leaves_unchanged_keys_out, law_overlay_newest_wins};
use crate::accumulator::{law_flush_commits_the_overlay_of_the_tip, lemma_overlay_grows, lemma_stopped_chain};
use crate::accumulator::{law_accumulate_extends_a_line, AccumulatorModel, BatchAccumulator, CommitRequest, DeltaModel};
use crate::accumulator::DEFAULT_BATCH_COMMIT_SIZE;
use crate::primitive::{EpochId, MerkleHash};
use crate::state::{commit_ends, layer, CommitEnd, CommitStep, LvmtState, StateModel};
use crate::text::{contains_text, text_contains};

verus! {

/// How a request to make an epoch the pivot goes on.
#[derive(Debug, PartialEq, Eq)]
pub enum PivotStep {
    /// This is the answer.
    Done(bool),
    /// The backend is to be asked whether it has the epoch.
    QueryExistence(EpochId),
    /// The backend is to make the epoch its pivot, and its answer counts.
    MakePivot(EpochId),
}

/// How a request to move pending epochs to the history goes on.
#[derive(Debug, PartialEq, Eq)]
pub enum HistoryStep {
    /// There is nothing to do.
    Done,
    /// The backend is to move what lies below the height on the way to the pivot.
    Confirm { new_root_height: u64, pivot_commit_id: EpochId },
}

/// How the opening of a state goes on.
#[derive(Debug)]
pub enum OpenStep {
    /// Here it is; the backend is to check out its base first, if it has one.
    Opened { state: LvmtState, checkout: Option<EpochId> },
    /// The backend is to be asked for the state root of the epoch.
    QueryRoot(EpochId),
}

/// The epoch never was, or is not yet, a commit of its own in the backend: it
/// waits for a flush, or it was flushed under a later epoch of its batch.
pub open spec fn inside_batch(acc: AccumulatorModel, epoch: EpochId) -> bool {
    acc.deltas.contains_key(epoch) || acc.flushed_roots.contains_key(epoch)
}

/// The state that is opened for an epoch inside a batch. One that waits is read
/// through its overlay. One that was flushed is read at the last flushed epoch,
/// whose data hold those of its whole batch, under its own state root.
pub open spec fn batched_state(acc: AccumulatorModel, epoch: EpochId) -> StateModel {
    StateModel {
        parent: acc.last_flushed,
        base: acc.last_flushed,
        changes: None,
        root: Some(
            if acc.deltas.contains_key(epoch) {
                acc.deltas[epoch].state_root
            } else {
                acc.flushed_roots[epoch]
            },
        ),
        overlay: if acc.deltas.contains_key(epoch) {
            Some(acc.overlay(epoch))
        } else {
            None
        },
        accumulating: false,
    }
}

/// The state that is opened for an epoch that the backend has.
pub open spec fn stored_state(epoch: EpochId, root: MerkleHash) -> StateModel {
    StateModel {
        parent: Some(epoch),
        base: Some(epoch),
        changes: None,
        root: Some(root),
        overlay: None,
        accumulating: false,
    }
}

/// The state in which the epoch after `parent` is written.
pub open spec fn next_state(acc: AccumulatorModel, parent: EpochId) -> StateModel {
    let waits = acc.deltas.contains_key(parent);
    StateModel {
        parent: Some(parent),
        base: if waits {
            acc.last_flushed
        } else {
            Some(parent)
        },
        changes: Some(Map::empty()),
        root: None,
        overlay: if waits {
            Some(acc.overlay(parent))
        } else {
            None
        },
        accumulating: true,
    }
}

/// The backend's value of a key after it stored the changes on top of an epoch
/// where the value was `below`.
pub open spec fn stored_over(
    changes: Map<Seq<u8>, Option<Seq<u8>>>,
    key: Seq<u8>,
    below: Option<Seq<u8>>,
) -> Option<Seq<u8>> {
    if changes.contains_key(key) {
        changes[key]
    } else {
        below
    }
}

/// What an epoch's state showed before its commit is what the epoch shows when it
/// is opened afterwards, key by key, with the committed state root: its own writes
/// over those of the waiting epochs before it over the last flushed epoch. The
/// parent waits or is the last flushed epoch, and the epoch is new to the batch.
pub proof fn law_committed_epoch_reads_back(
    acc: AccumulatorModel,
    parent: EpochId,
    changes: Map<Seq<u8>, Option<Seq<u8>>>,
    epoch: EpochId,
    root: MerkleHash,
    key: Seq<u8>,
    backend: Option<Seq<u8>>,
)
    requires
        acc.chain_ends(Some(parent)),
        acc.deltas.contains_key(parent) || acc.last_flushed == Some(parent),
        acc.fresh(epoch),
        epoch != parent,
    ensures
        ({
            let written = StateModel { changes: Some(changes), ..next_state(acc, parent) };
            let delta = DeltaModel { parent: written.parent, changes, state_root: root };
            let after = acc.accumulated(epoch, delta);
            let opened = batched_state(after, epoch);
            &&& after.chain_ends(Some(epoch))
            &&& opened.read(key, backend) == written.read(key, backend)
            &&& opened.root == Some(root)
        }),
{
    let delta = DeltaModel { parent: Some(parent), changes, state_root: root };
    lemma_overlay_grows(acc, epoch, delta);
    if !acc.deltas.contains_key(parent) {
        lemma_stopped_chain(acc, Some(parent));
    }
}

/// The state is one for the epoch after `parent`, with whatever it wrote since it
/// was opened.
pub open spec fn written_on(m: StateModel, acc: AccumulatorModel, parent: EpochId) -> bool {
    &&& m.changes is Some
    &&& m.parent == next_state(acc, parent).parent
    &&& m.base == next_state(acc, parent).base
    &&& m.overlay == next_state(acc, parent).overlay
    &&& m.accumulating
}

/// What a commit hands over reads back: once the request joined the batch, the epoch
/// shows of every key what its state showed before the commit, and it has the
/// committed state root. Nothing else that waits is touched.
pub proof fn law_committed_request_reads_back(
    acc: AccumulatorModel,
    m: StateModel,
    parent: EpochId,
    epoch: EpochId,
    root: MerkleHash,
    request: CommitRequest,
    end: CommitEnd,
    after: AccumulatorModel,
    key: Seq<u8>,
    backend: Option<Seq<u8>>,
)
    requires
        acc.chain_ends(Some(parent)),
        acc.deltas.contains_key(parent) || acc.last_flushed == Some(parent),
        acc.fresh(epoch),
        epoch != parent,
        written_on(m, acc, parent),
        m.commits(acc, epoch, root, CommitStep::QueryBackend(request)),
        commit_ends(acc, request, None, end, after),
    ensures
        after.deltas.contains_key(epoch),
        after.deltas[epoch].parent == Some(parent),
        after.chain_ends(Some(epoch)),
        batched_state(after, epoch).read(key, backend) == m.read(key, backend),
        batched_state(after, epoch).root == Some(root),
        m.changes->0.contains_key(key) ==> request.changes@.contains_key(key) && request.changes@[key]
            == m.changes->0[key],
        match end {
            CommitEnd::Done(answer) => answer == root,
            CommitEnd::Flush(flush, answer) => answer == root,
        },
        end is Flush <==> acc.order.len() + 1 >= acc.batch_size,
{
    law_committed_epoch_reads_back(acc, parent, m.changes->0, epoch, root, key, backend);
    assert(m.read(key, backend) == (StateModel { changes: Some(m.changes->0), ..next_state(acc, parent) }).read(
        key,
        backend,
    ));
}

/// What a full batch is flushed with reads back: where the epochs of the batch stand
/// on one another, the backend, once it stored the flush over the last flushed epoch,
/// shows at the tip what the tip's state showed before its commit.
pub proof fn law_flushed_request_reads_back(
    acc: AccumulatorModel,
    m: StateModel,
    parent: EpochId,
    epoch: EpochId,
    root: MerkleHash,
    request: CommitRequest,
    flush: CommitRequest,
    answer: MerkleHash,
    after: AccumulatorModel,
    key: Seq<u8>,
    below: Option<Seq<u8>>,
)
    requires
        acc.valid(),
        is_line(acc, acc.order),
        acc.order.len() > 0 ==> parent == acc.order.last(),
        acc.order.len() == 0 ==> acc.last_flushed == Some(parent),
        acc.last_flushed is Some,
        acc.fresh(epoch),
        epoch != parent,
        written_on(m, acc, parent),
        m.commits(acc, epoch, root, CommitStep::QueryBackend(request)),
        commit_ends(acc, request, None, CommitEnd::Flush(flush, answer), after),
    ensures
        flush.parent == acc.last_flushed,
        flush.epoch == epoch,
        flush.state_root == root,
        stored_state(flush.epoch, flush.state_root).read(key, stored_over(flush.changes@, key, below)) == m.read(
            key,
            below,
        ),
{
    if acc.order.len() > 0 {
        assert(acc.deltas.contains_key(acc.order[acc.order.len() - 1]));
        law_flush_commits_the_overlay_of_the_tip(acc);
    } else {
        lemma_stopped_chain(acc, Some(parent));
        assert(acc.ends_within(Some(parent), 0));
    }
    let delta = DeltaModel { parent: request.parent, changes: request.changes@, state_root: request.state_root };
    law_committed_request_reads_back(
        acc,
        m,
        parent,
        epoch,
        root,
        request,
        CommitEnd::Flush(flush, answer),
        after,
        key,
        below,
    );
    law_accumulate_extends_a_line(acc, epoch, delta);
    assert(after.valid()) by {
        assert forall|e: EpochId| #[trigger] after.deltas.contains_key(e) implies after.order.contains(e) by {
            if e == epoch {
                assert(after.order[acc.order.len() as int] == e);
            } else {
                assert(acc.deltas.contains_key(e));
                let i = choose|i: int| 0 <= i < acc.order.len() && acc.order[i] == e;
                assert(after.order[i] == e);
            }
        }
        assert forall|i: int| 0 <= i < after.order.len() implies after.deltas.contains_key(#[trigger] after.order[i]) by {
            if i < acc.order.len() {
                assert(acc.deltas.contains_key(acc.order[i]));
            }
        }
    }
    assert(after.order.last() == epoch);
    law_flush_keeps_what_the_tip_shows(after, key, below, root);
}

/// What the genesis hands over reads back: stored over nothing, it shows what the
/// genesis state showed before its commit.
pub proof fn law_genesis_request_reads_back(
    acc: AccumulatorModel,
    m: StateModel,
    genesis: EpochId,
    root: MerkleHash,
    request: CommitRequest,
    key: Seq<u8>,
    backend: Option<Seq<u8>>,
)
    requires
        m.base is None,
        m.overlay is None,
        m.commits(acc, genesis, root, CommitStep::Genesis(request)),
    ensures
        request.parent is None,
        request.epoch == genesis,
        request.state_root == root,
        stored_state(request.epoch, request.state_root).read(key, stored_over(request.changes@, key, None)) == m.read(
            key,
            backend,
        ),
{
}

/// An epoch that the backend has is answered with the backend's state root, and the
/// batch stays as it is.
pub proof fn law_stored_epoch_is_not_committed_again(
    acc: AccumulatorModel,
    request: CommitRequest,
    stored: MerkleHash,
    end: CommitEnd,
    after: AccumulatorModel,
)
    requires
        commit_ends(acc, request, Some(stored), end, after),
    ensures
        end == CommitEnd::Done(stored),
        after == acc,
{
}

/// An epoch is inside a batch from its commit on: while it waits and, unless it is
/// the tip, after the flush, until it is moved to the history.
pub proof fn law_epoch_is_inside_its_batch(acc: AccumulatorModel, epoch: EpochId, delta: DeltaModel, moved: Seq<EpochId>)
    requires
        acc.valid(),
    ensures
        inside_batch(acc.accumulated(epoch, delta), epoch),
        acc.deltas.contains_key(epoch) && epoch != acc.order.last() ==> inside_batch(acc.flushed(), epoch),
        acc.deltas.contains_key(epoch) && epoch == acc.order.last() && !acc.flushed_roots.contains_key(epoch)
            ==> !inside_batch(acc.flushed(), epoch),
        moved.contains(epoch) && !acc.deltas.contains_key(epoch) ==> !inside_batch(acc.without_moved(moved), epoch),
        !acc.deltas.contains_key(epoch) && !acc.flushed_roots.contains_key(epoch) ==> !inside_batch(acc, epoch),
{
}

/// A waiting epoch shows of a key the change of the newest epoch on its chain that
/// changed it, `i` steps back.
pub proof fn law_waiting_epoch_shows_the_newest_change(
    acc: AccumulatorModel,
    epoch: EpochId,
    key: Seq<u8>,
    backend: Option<Seq<u8>>,
    i: int,
)
    requires
        acc.deltas.contains_key(epoch),
        0 <= i < acc.chain(Some(epoch)).len(),
        acc.deltas[acc.chain(Some(epoch))[i]].changes.contains_key(key),
        forall|j: int|
            0 <= j < i ==> !(#[trigger] acc.deltas[acc.chain(Some(epoch))[j]]).changes.contains_key(key),
    ensures
        batched_state(acc, epoch).read(key, backend) == acc.deltas[acc.chain(Some(epoch))[i]].changes[key],
        batched_state(acc, epoch).root == Some(acc.deltas[epoch].state_root),
{
    law_overlay_newest_wins(acc, acc.chain(Some(epoch)), key, i);
}

/// A waiting epoch, and the one written on top of it, show of a key that no epoch on
/// its chain changed what the backend has at the last flushed epoch.
pub proof fn law_waiting_epoch_shows_the_last_flushed_below(
    acc: AccumulatorModel,
    epoch: EpochId,
    key: Seq<u8>,
    backend: Option<Seq<u8>>,
)
    requires
        acc.deltas.contains_key(epoch),
        acc.last_flushed is Some,
        forall|j: int|
            0 <= j < acc.chain(Some(epoch)).len() ==> !(#[trigger] acc.deltas[acc.chain(
                Some(epoch),
            )[j]]).changes.contains_key(key),
    ensures
        batched_state(acc, epoch).base == acc.last_flushed,
        batched_state(acc, epoch).read(key, backend) == backend,
        next_state(acc, epoch).base == acc.last_flushed,
        next_state(acc, epoch).read(key, backend) == backend,
{
    law_overlay_leaves_unchanged_keys_out(acc, acc.chain(Some(epoch)), key);
}

/// A state that is opened for reading takes no writes: one of the backend reads at its
/// own epoch, one inside a batch at the last flushed epoch. A state for the next epoch
/// follows its parent, has written nothing and commits through the batch.
pub proof fn law_opened_states_stand_on_their_epochs(
    acc: AccumulatorModel,
    epoch: EpochId,
    root: MerkleHash,
    key: Seq<u8>,
    backend: Option<Seq<u8>>,
)
    ensures
        stored_state(epoch, root).base == Some(epoch),
        stored_state(epoch, root).root == Some(root),
        stored_state(epoch, root).changes is None,
        stored_state(epoch, root).parent == Some(epoch),
        !stored_state(epoch, root).accumulating,
        stored_state(epoch, root).read(key, backend) == backend,
        batched_state(acc, epoch).changes is None,
        batched_state(acc, epoch).parent == batched_state(acc, epoch).base,
        batched_state(acc, epoch).base == acc.last_flushed,
        !batched_state(acc, epoch).accumulating,
        next_state(acc, epoch).accumulating,
        next_state(acc, epoch).parent == Some(epoch),
        next_state(acc, epoch).changes == Some(Map::<Seq<u8>, Option<Seq<u8>>>::empty()),
        next_state(acc, epoch).root is None,
        !acc.deltas.contains_key(epoch) ==> next_state(acc, epoch).base == Some(epoch),
{
}

/// An epoch flushed below the tip is opened with its own state root on the data of
/// the tip.
pub proof fn law_flushed_epoch_shows_the_tip(
    acc: AccumulatorModel,
    epoch: EpochId,
    key: Seq<u8>,
    backend: Option<Seq<u8>>,
    tip_root: MerkleHash,
)
    requires
        acc.valid(),
        acc.deltas.contains_key(epoch),
        epoch != acc.order.last(),
    ensures
        batched_state(acc.flushed(), epoch).read(key, backend) == stored_state(acc.order.last(), tip_root).read(
            key,
            backend,
        ),
        batched_state(acc.flushed(), epoch).base == Some(acc.order.last()),
        batched_state(acc.flushed(), epoch).root == Some(acc.deltas[epoch].state_root),
{
}

/// An epoch is written on top of what its waiting parent shows.
pub proof fn law_next_epoch_sees_its_waiting_parent(
    acc: AccumulatorModel,
    parent: EpochId,
    key: Seq<u8>,
    backend: Option<Seq<u8>>,
)
    requires
        acc.deltas.contains_key(parent),
    ensures
        next_state(acc, parent).read(key, backend) == batched_state(acc, parent).read(key, backend),
{
}

/// An epoch is written on top of what its parent in the backend shows.
pub proof fn law_next_epoch_sees_its_stored_parent(
    acc: AccumulatorModel,
    parent: EpochId,
    root: MerkleHash,
    key: Seq<u8>,
    backend: Option<Seq<u8>>,
)
    requires
        !inside_batch(acc, parent),
    ensures
        next_state(acc, parent).read(key, backend) == stored_state(parent, root).read(key, backend),
{
}

/// What the genesis state showed before its commit is what the genesis shows once
/// the backend stored it.
pub proof fn law_genesis_reads_back(
    written: StateModel,
    genesis: EpochId,
    root: MerkleHash,
    key: Seq<u8>,
    backend: Option<Seq<u8>>,
)
    requires
        written.base is None,
        written.overlay is None,
    ensures
        stored_state(genesis, root).read(key, stored_over(layer(written.changes), key, None)) == written.read(
            key,
            backend,
        ),
{
}

/// Where the epochs of the batch stand on one another, a flush that the backend
/// stored changes nothing of what the tip shows.
pub proof fn law_flush_keeps_what_the_tip_shows(
    acc: AccumulatorModel,
    key: Seq<u8>,
    below: Option<Seq<u8>>,
    root: MerkleHash,
)
    requires
        acc.valid(),
        acc.order.len() > 0,
        acc.last_flushed is Some,
        is_line(acc, acc.order),
    ensures
        acc.chain_ends(Some(acc.order.last())),
        stored_state(acc.order.last(), root).read(key, stored_over(acc.composed(acc.order), key, below))
            == batched_state(acc, acc.order.last()).read(key, below),
{
    law_flush_commits_the_overlay_of_the_tip(acc);
    assert(acc.deltas.contains_key(acc.order[acc.order.len() - 1]));
}

/// A committed epoch that is committed again is answered with the state root of
/// the first commit, and nothing changes.
pub proof fn law_second_commit_changes_nothing(
    acc: AccumulatorModel,
    epoch: EpochId,
    delta: DeltaModel,
    again: StateModel,
    root: MerkleHash,
    step: CommitStep,
)
    requires
        again.parent is Some,
        again.accumulating,
        again.commits(acc.accumulated(epoch, delta), epoch, root, step),
    ensures
        step == CommitStep::Done(delta.state_root),
{
}

/// After a flush that the backend stored, the tip of the batch shows of a key the
/// change of the last epoch in the batch that changed it.
pub proof fn law_flushed_tip_shows_the_newest_change(
    acc: AccumulatorModel,
    key: Seq<u8>,
    below: Option<Seq<u8>>,
    root: MerkleHash,
    i: int,
)
    requires
        0 <= i < acc.order.len(),
        acc.deltas[acc.order[i]].changes.contains_key(key),
        forall|j: int|
            i < j < acc.order.len() ==> !(#[trigger] acc.deltas[acc.order[j]]).changes.contains_key(key),
    ensures
        stored_state(acc.order.last(), root).read(key, stored_over(acc.composed(acc.order), key, below))
            == acc.deltas[acc.order[i]].changes[key],
{
    law_composed_newest_wins(acc, acc.order, key, i);
}

/// After a flush that the backend stored, the tip of the batch shows of a key that
/// no epoch of the batch changed what the last flushed epoch before had.
pub proof fn law_flushed_tip_keeps_unchanged_keys(
    acc: AccumulatorModel,
    key: Seq<u8>,
    below: Option<Seq<u8>>,
    root: MerkleHash,
)
    requires
        acc.order.len() > 0,
        forall|j: int|
            0 <= j < acc.order.len() ==> !(#[trigger] acc.deltas[acc.order[j]]).changes.contains_key(key),
    ensures
        stored_state(acc.order.last(), root).read(key, stored_over(acc.composed(acc.order), key, below)) == below,
{
    law_composed_leaves_unchanged_keys_out(acc, acc.order, key);
}

/// The state manager: what stands between the states and the backend.
#[derive(Debug)]
pub struct LvmtStateManager {
    pub batch_accumulator: BatchAccumulator,
}

impl View for LvmtStateManager {
    type V = AccumulatorModel;

    open spec fn view(&self) -> AccumulatorModel {
        self.batch_accumulator@
    }
}

impl LvmtStateManager {
    pub open spec fn wf(&self) -> bool {
        self.batch_accumulator.wf()
    }

    /// A manager with batches of the default size.
    pub fn new() -> (r: LvmtStateManager)
        ensures
            r.wf(),
            r@.batch_size == DEFAULT_BATCH_COMMIT_SIZE,
            r@.deltas == Map::<EpochId, DeltaModel>::empty(),
            r@.last_flushed is None,
            r@.order == Seq::<EpochId>::empty(),
            r@.flushed_roots == Map::<EpochId, MerkleHash>::empty(),
    {
        LvmtStateManager::new_with_batch_size(DEFAULT_BATCH_COMMIT_SIZE)
    }

    /// A manager with batches of the given size.
    pub fn new_with_batch_size(batch_size: usize) -> (r: LvmtStateManager)
        ensures
            r.wf(),
            r@.batch_size == batch_size,
            r@.deltas == Map::<EpochId, DeltaModel>::empty(),
            r@.last_flushed is None,
            r@.order == Seq::<EpochId>::empty(),
            r@.flushed_roots == Map::<EpochId, MerkleHash>::empty(),
    {
        LvmtStateManager { batch_accumulator: BatchAccumulator::new(batch_size) }
    }

    /// Whether the epoch is no commit of its own in the backend.
    fn is_inside_batch(&self, epoch_id: &EpochId) -> (r: bool)
        requires
            self.wf(),
        ensures
            r == inside_batch(self@, *epoch_id),
    {
        self.batch_accumulator.contains(epoch_id) || self.batch_accumulator.flushed_intermediate_root(epoch_id).is_some()
    }

    /// Begins to make an epoch the pivot. An epoch inside a batch is no node of the
    /// pending tree: nothing is removed for it.
    pub fn make_pivot(&self, commit_id: EpochId) -> (r: PivotStep)
        requires
            self.wf(),
        ensures
            r == (if inside_batch(self@, commit_id) {
                PivotStep::Done(false)
            } else {
                PivotStep::QueryExistence(commit_id)
            }),
    {
        if self.is_inside_batch(&commit_id) {
            PivotStep::Done(false)
        } else {
            PivotStep::QueryExistence(commit_id)
        }
    }

    /// Goes on once the backend said whether it has the epoch.
    pub fn make_pivot_queried(&self, commit_id: EpochId, exists: bool) -> (r: PivotStep)
        ensures
            r == (if exists {
                PivotStep::MakePivot(commit_id)
            } else {
                PivotStep::Done(false)
            }),
    {
        if exists {
            PivotStep::MakePivot(commit_id)
        } else {
            PivotStep::Done(false)
        }
    }

    /// Begins to move pending epochs to the history, which is skipped for a pivot
    /// inside a batch.
    pub fn confirmed_pending_to_history(&self, new_root_height: u64, pivot_commit_id: EpochId) -> (r: HistoryStep)
        requires
            self.wf(),
        ensures
            r == (if inside_batch(self@, pivot_commit_id) {
                HistoryStep::Done
            } else {
                (HistoryStep::Confirm { new_root_height, pivot_commit_id })
            }),
    {
        if self.is_inside_batch(&pivot_commit_id) {
            HistoryStep::Done
        } else {
            HistoryStep::Confirm { new_root_height, pivot_commit_id }
        }
    }

    /// What comes of the backend's answer to a move to the history. With batch
    /// commits the ancestor chain may have gaps: that there is no ancestor at the
    /// height, which the error's text tells, is no failure.
    pub fn history_confirmed<E>(&self, result: Result<(), E>, error_text: &str) -> (r: Result<(), E>)
        ensures
            r is Ok <==> result is Ok || contains_text(error_text@, "InvalidAncestorHeight"@),
            r matches Err(e) ==> result == Err::<(), E>(e),
    {
        match result {
            Ok(()) => Ok(()),
            Err(e) => {
                if text_contains(error_text, "InvalidAncestorHeight") {
                    Ok(())
                } else {
                    Err(e)
                }
            },
        }
    }

    /// Begins to open the state of an epoch for reading: an epoch inside a batch is
    /// opened at once, of any other the backend is to be asked.
    pub fn get_state_no_commit_inner(&self, epoch_id: EpochId) -> (r: OpenStep)
        requires
            self.wf(),
            self@.deltas.contains_key(epoch_id) ==> self@.chain_ends(Some(epoch_id)),
        ensures
            match r {
                OpenStep::Opened { state, checkout } => {
                    &&& inside_batch(self@, epoch_id)
                    &&& state.wf()
                    &&& state@ == batched_state(self@, epoch_id)
                    &&& checkout == self@.last_flushed
                },
                OpenStep::QueryRoot(asked) => !inside_batch(self@, epoch_id) && asked == epoch_id,
            },
    {
        let acc = &self.batch_accumulator;
        if let Some(state_root) = acc.get_state_root(&epoch_id) {
            let overlay = acc.build_overlay_for_epoch(&epoch_id);
            let base = acc.base_epoch_for_overlay();
            return OpenStep::Opened { state: LvmtState::read_only(base, state_root, overlay), checkout: base };
        }
        if let Some(state_root) = acc.flushed_intermediate_root(&epoch_id) {
            let base = acc.base_epoch_for_overlay();
            return OpenStep::Opened { state: LvmtState::read_only(base, state_root, None), checkout: base };
        }
        OpenStep::QueryRoot(epoch_id)
    }

    /// The state of an epoch for reading, once the backend gave its state root; none
    /// where the backend does not have the epoch.
    pub fn get_state_queried(&self, epoch_id: EpochId, state_root: Option<MerkleHash>) -> (r: Option<LvmtState>)
        ensures
            r is Some <==> state_root is Some,
            r matches Some(state) ==> state.wf() && state@ == stored_state(epoch_id, state_root->0),
    {
        match state_root {
            Some(root) => Some(LvmtState::read_only(Some(epoch_id), root, None)),
            None => None,
        }
    }

    /// The state in which the epoch after `parent_epoch_id` is written. The second
    /// part names the epoch that the backend is to check out first, if any.
    pub fn get_state_for_next_epoch(&self, parent_epoch_id: EpochId) -> (r: (LvmtState, Option<EpochId>))
        requires
            self.wf(),
            self@.deltas.contains_key(parent_epoch_id) ==> self@.chain_ends(Some(parent_epoch_id)),
        ensures
            r.0.wf(),
            r.0@ == next_state(self@, parent_epoch_id),
            r.1 == r.0@.base,
    {
        let acc = &self.batch_accumulator;
        if acc.contains(&parent_epoch_id) {
            let overlay = acc.build_overlay_for_epoch(&parent_epoch_id);
            let base = acc.base_epoch_for_overlay();
            (LvmtState::writable(Some(parent_epoch_id), base, overlay), base)
        } else {
            let base = Some(parent_epoch_id);
            (LvmtState::writable(base, base, None), base)
        }
    }

    /// The state in which the genesis is written.
    pub fn get_state_for_genesis_write(&self) -> (r: LvmtState)
        ensures
            r.wf(),
            r@ == (StateModel {
                parent: None,
                base: None,
                changes: Some(Map::empty()),
                root: None,
                overlay: None,
                accumulating: true,
            }),
    {
        LvmtState::writable(None, None, None)
    }
}

} // verus!
