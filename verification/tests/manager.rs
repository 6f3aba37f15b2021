use lvmt_state::manager::{HistoryStep, LvmtStateManager, OpenStep, PivotStep};
use lvmt_state::primitive::H256;
use lvmt_state::state::{CommitEnd, CommitStep, LvmtState, ReadStep};

fn id(n: u8) -> H256 {
    H256([n; 32])
}

/// A manager with batches of three, the genesis 9 flushed.
fn manager() -> LvmtStateManager {
    let mut manager = LvmtStateManager::new_with_batch_size(3);
    let genesis = manager.get_state_for_genesis_write();
    genesis.genesis_committed(id(9), &mut manager.batch_accumulator);
    manager
}

/// Commits the epoch, and flushes a full batch.
fn commit(manager: &mut LvmtStateManager, mut state: LvmtState, epoch: u8, root: u8) {
    match state.commit_with_root(id(epoch), id(root), &manager.batch_accumulator) {
        CommitStep::QueryBackend(request) => {
            if let CommitEnd::Flush(_, _) = state.commit_queried(request, None, &mut manager.batch_accumulator) {
                manager.batch_accumulator.flush_committed();
            }
        }
        other => panic!("{:?}", other),
    }
}

fn open(manager: &LvmtStateManager, epoch: u8) -> LvmtState {
    match manager.get_state_no_commit_inner(id(epoch)) {
        OpenStep::Opened { state, checkout } => {
            assert_eq!(checkout, manager.batch_accumulator.base_epoch_for_overlay());
            state
        }
        other => panic!("{:?}", other),
    }
}

#[test]
fn a_committed_epoch_reads_back() {
    let mut manager = manager();
    let (mut state, checkout) = manager.get_state_for_next_epoch(id(9));
    assert_eq!(checkout, Some(id(9)));
    state.set(vec![1], vec![11]).unwrap();
    state.delete(vec![2]).unwrap();
    commit(&mut manager, state, 1, 101);
    let opened = open(&manager, 1);
    assert_eq!(opened.get(&vec![1]), ReadStep::Known(Some(vec![11])));
    assert_eq!(opened.get(&vec![2]), ReadStep::Known(None));
    assert_eq!(opened.get(&vec![3]), ReadStep::Backend(id(9)));
    assert_eq!(opened.get_state_root(), Ok(id(101)));
}

#[test]
fn the_next_epoch_sees_its_waiting_parent() {
    let mut manager = manager();
    let (mut state, _) = manager.get_state_for_next_epoch(id(9));
    state.set(vec![1], vec![11]).unwrap();
    commit(&mut manager, state, 1, 101);
    let (next, checkout) = manager.get_state_for_next_epoch(id(1));
    assert_eq!(checkout, Some(id(9)));
    assert_eq!(next.get(&vec![1]), ReadStep::Known(Some(vec![11])));
    assert!(next.is_accumulating());
}

#[test]
fn epochs_in_a_row_see_all_that_wait() {
    let mut manager = LvmtStateManager::new();
    manager.batch_accumulator.set_last_flushed(id(9));
    let mut parent = 9;
    for n in 1..=3u8 {
        let (mut state, _) = manager.get_state_for_next_epoch(id(parent));
        for earlier in 1..n {
            assert_eq!(state.get(&vec![earlier]), ReadStep::Known(Some(vec![10 + earlier])));
        }
        state.set(vec![n], vec![10 + n]).unwrap();
        commit(&mut manager, state, n, 100 + n);
        parent = n;
    }
    let opened = open(&manager, 3);
    for n in 1..=3u8 {
        assert_eq!(opened.get(&vec![n]), ReadStep::Known(Some(vec![10 + n])));
    }
    let overlay = manager.batch_accumulator.build_overlay_for_epoch(&id(3)).unwrap();
    let request = manager.batch_accumulator.flush_batch().unwrap();
    assert_eq!(request.changes.into_pairs(), overlay.into_pairs());
}

#[test]
fn the_root_of_an_epoch_covers_that_of_its_waiting_parent() {
    let mut manager = manager();
    let (state, _) = manager.get_state_for_next_epoch(id(9));
    commit(&mut manager, state, 1, 101);
    let (next, _) = manager.get_state_for_next_epoch(id(1));
    assert_eq!(next.parent_root_query(&manager.batch_accumulator), None);
    assert_eq!(next.state_root_preimage(&manager.batch_accumulator, None), vec![101; 32]);
}

#[test]
fn a_flushed_epoch_is_opened_at_the_tip_under_its_own_root() {
    let mut manager = manager();
    for n in 1..=3u8 {
        let (state, _) = manager.get_state_for_next_epoch(id(9));
        commit(&mut manager, state, n, 100 + n);
    }
    assert_eq!(manager.batch_accumulator.base_epoch_for_overlay(), Some(id(3)));
    let opened = open(&manager, 1);
    assert_eq!(opened.get_state_root(), Ok(id(101)));
    assert_eq!(opened.get(&vec![1]), ReadStep::Backend(id(3)));
    match manager.get_state_no_commit_inner(id(3)) {
        OpenStep::QueryRoot(asked) => assert_eq!(asked, id(3)),
        other => panic!("{:?}", other),
    }
}

#[test]
fn a_flush_holds_the_newest_changes() {
    let mut manager = LvmtStateManager::new();
    manager.batch_accumulator.set_last_flushed(id(9));
    for (epoch, value) in [(1u8, 11u8), (2, 22)] {
        let (mut state, _) = manager.get_state_for_next_epoch(id(9));
        state.set(vec![7], vec![value]).unwrap();
        commit(&mut manager, state, epoch, 100 + epoch);
    }
    let request = manager.batch_accumulator.flush_batch().unwrap();
    assert_eq!(request.changes.into_pairs(), vec![(vec![7], Some(vec![22]))]);
}

#[test]
fn an_epoch_of_the_backend_is_opened_with_its_root() {
    let manager = manager();
    let state = manager.get_state_queried(id(4), Some(id(44))).unwrap();
    assert_eq!(state.get_state_root(), Ok(id(44)));
    assert_eq!(state.get(&vec![1]), ReadStep::Backend(id(4)));
    assert!(manager.get_state_queried(id(4), None).is_none());
}

#[test]
fn a_pivot_inside_a_batch_removes_nothing() {
    let mut manager = manager();
    let (state, _) = manager.get_state_for_next_epoch(id(9));
    commit(&mut manager, state, 1, 101);
    assert_eq!(manager.make_pivot(id(1)), PivotStep::Done(false));
    assert_eq!(manager.make_pivot(id(9)), PivotStep::QueryExistence(id(9)));
    assert_eq!(manager.make_pivot_queried(id(9), false), PivotStep::Done(false));
    assert_eq!(manager.make_pivot_queried(id(9), true), PivotStep::MakePivot(id(9)));
}

#[test]
fn history_is_confirmed_outside_of_batches() {
    let mut manager = manager();
    let (state, _) = manager.get_state_for_next_epoch(id(9));
    commit(&mut manager, state, 1, 101);
    assert_eq!(manager.confirmed_pending_to_history(5, id(1)), HistoryStep::Done);
    assert_eq!(
        manager.confirmed_pending_to_history(5, id(9)),
        HistoryStep::Confirm { new_root_height: 5, pivot_commit_id: id(9) }
    );
}

#[test]
fn a_gap_in_the_ancestors_is_no_failure() {
    let manager = manager();
    assert_eq!(manager.history_confirmed(Err(3), "Pending(InvalidAncestorHeight { .. })"), Ok(()));
    assert_eq!(manager.history_confirmed(Err(3), "Io"), Err(3));
    assert_eq!(manager.history_confirmed::<i32>(Ok(()), ""), Ok(()));
}

#[test]
fn the_genesis_reads_back_what_is_stored() {
    let mut manager = LvmtStateManager::new();
    let mut genesis = manager.get_state_for_genesis_write();
    genesis.set(vec![1], vec![11]).unwrap();
    let before = genesis.get_with_reply(&vec![1], None);
    let stored = match genesis.commit_with_root(id(9), id(109), &manager.batch_accumulator) {
        CommitStep::Genesis(request) => request.changes.into_pairs(),
        other => panic!("{:?}", other),
    };
    genesis.genesis_committed(id(9), &mut manager.batch_accumulator);
    let opened = manager.get_state_queried(id(9), Some(id(109))).unwrap();
    assert_eq!(opened.get_with_reply(&vec![1], Some(stored[0].1.clone())), before);
    assert_eq!(before, Some(vec![11]));
}

#[test]
fn a_key_that_no_epoch_of_a_batch_changed_is_left_out_of_the_flush() {
    let mut manager = manager();
    let (mut state, _) = manager.get_state_for_next_epoch(id(9));
    state.set(vec![1], vec![11]).unwrap();
    commit(&mut manager, state, 1, 101);
    let request = manager.batch_accumulator.flush_batch().unwrap();
    assert_eq!(request.changes.get(&[2]), None);
}
