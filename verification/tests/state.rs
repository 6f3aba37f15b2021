use lvmt_state::accumulator::BatchAccumulator;
use lvmt_state::change_map::ChangeMap;
use lvmt_state::primitive::H256;
use lvmt_state::state::{CommitEnd, CommitStep, Error, LvmtState, ReadStep};
use tiny_keccak::{Hasher, Keccak};

fn id(n: u8) -> H256 {
    H256([n; 32])
}

fn keccak(bytes: &[u8]) -> H256 {
    let mut hasher = Keccak::v256();
    hasher.update(bytes);
    let mut out = [0u8; 32];
    hasher.finalize(&mut out);
    H256(out)
}

fn overlay() -> ChangeMap {
    let mut map = ChangeMap::new();
    map.insert(vec![1], Some(vec![10]));
    map.insert(vec![2], None);
    map.insert(vec![2, 5], Some(vec![25]));
    map
}

fn layered() -> LvmtState {
    let mut state = LvmtState::writable(Some(id(9)), Some(id(9)), Some(overlay()));
    state.set(vec![3], vec![33]).unwrap();
    state.delete(vec![1]).unwrap();
    state
}

#[test]
fn a_read_goes_through_the_layers() {
    let state = layered();
    assert_eq!(state.get(&vec![3]), ReadStep::Known(Some(vec![33])));
    assert_eq!(state.get(&vec![1]), ReadStep::Known(None));
    assert_eq!(state.get(&vec![2, 5]), ReadStep::Known(Some(vec![25])));
    assert_eq!(state.get(&vec![2]), ReadStep::Known(None));
    assert_eq!(state.get(&vec![7]), ReadStep::Backend(id(9)));
    assert_eq!(LvmtState::writable(None, None, None).get(&vec![7]), ReadStep::Known(None));
}

#[test]
fn the_reply_of_the_backend_counts_only_below_the_layers() {
    let state = layered();
    assert_eq!(state.get_with_reply(&vec![7], Some(Some(vec![70]))), Some(vec![70]));
    assert_eq!(state.get_with_reply(&vec![7], Some(None)), None);
    assert_eq!(state.get_with_reply(&vec![7], None), None);
    assert_eq!(state.get_with_reply(&vec![3], Some(Some(vec![70]))), Some(vec![33]));
}

#[test]
fn a_write_is_read_back_and_leaves_the_rest() {
    let mut state = layered();
    state.set(vec![2, 5], vec![]).unwrap();
    assert_eq!(state.get(&vec![2, 5]), ReadStep::Known(Some(vec![])));
    assert_eq!(state.get(&vec![3]), ReadStep::Known(Some(vec![33])));
}

#[test]
fn a_read_only_state_refuses_writes() {
    let mut state = LvmtState::read_only(Some(id(9)), id(5), None);
    let refusal = Error::Msg("Attempted to modify a read-only storage state".to_string());
    assert_eq!(state.set(vec![1], vec![1]), Err(refusal));
    assert!(state.delete(vec![1]).is_err());
    assert!(state.delete_test_only(vec![1], None).is_err());
    assert_eq!(state.get_state_root(), Ok(id(5)));
    assert!(!state.is_accumulating());
}

#[test]
fn delete_test_only_returns_the_old_value() {
    let mut state = layered();
    assert_eq!(state.delete_test_only(vec![2, 5], None), Ok(Some(vec![25])));
    assert_eq!(state.get(&vec![2, 5]), ReadStep::Known(None));
    assert_eq!(state.delete_test_only(vec![8], Some(Some(vec![80]))), Ok(Some(vec![80])));
}

#[test]
fn read_all_lists_the_existing_keys_of_the_prefix() {
    let state = layered();
    let query = state.read_all_query(&vec![2]).unwrap();
    assert_eq!(query.epoch_id, id(9));
    assert_eq!(query.lower_bound_incl, vec![2]);
    assert_eq!(query.upper_bound_excl, Some(vec![3]));
    let found = vec![
        (vec![2], Some(vec![20])),
        (vec![2, 1], Some(vec![21])),
        (vec![2, 2], None),
        (vec![2, 5], Some(vec![0])),
    ];
    assert_eq!(
        state.read_all(&vec![2], &found),
        Some(vec![(vec![2, 1], vec![21]), (vec![2, 5], vec![25])])
    );
    assert_eq!(state.read_all(&vec![1], &vec![]), None);
}

#[test]
fn read_all_agrees_with_single_reads() {
    let state = layered();
    let found = vec![(vec![2, 1], Some(vec![21])), (vec![2], Some(vec![20]))];
    let all = state.read_all(&vec![2], &found).unwrap();
    for (key, reply) in [(vec![2], Some(Some(vec![20]))), (vec![2, 1], Some(Some(vec![21]))), (vec![2, 5], None)] {
        let read = state.get_with_reply(&key, reply);
        assert_eq!(all.iter().find(|(k, _)| *k == key).map(|(_, v)| v.clone()), read);
    }
}

#[test]
fn read_all_keeps_to_the_prefix_where_the_range_is_wider() {
    let mut state = LvmtState::writable(None, None, None);
    state.set(vec![2], vec![1]).unwrap();
    state.set(vec![1, 255], vec![2]).unwrap();
    assert_eq!(state.read_all(&vec![1, 255], &vec![]), Some(vec![(vec![1, 255], vec![2])]));
    assert_eq!(
        state.read_all_inner(&vec![1, 255], &Some(vec![2, 0]), &vec![]),
        Some(vec![(vec![1, 255], vec![2]), (vec![2], vec![1])])
    );
}

#[test]
fn a_state_without_a_base_asks_nothing_and_ignores_replies() {
    let state = LvmtState::writable(None, None, None);
    assert!(state.read_all_query(&vec![2]).is_none());
    assert_eq!(state.read_all(&vec![2], &vec![(vec![2], Some(vec![1]))]), None);
}

#[test]
fn delete_all_leaves_nothing_of_the_prefix() {
    let mut state = layered();
    let found = vec![(vec![2, 1], Some(vec![21]))];
    assert_eq!(
        state.delete_all(&vec![2], &found),
        Ok(Some(vec![(vec![2, 1], vec![21]), (vec![2, 5], vec![25])]))
    );
    assert_eq!(state.read_all(&vec![2], &found), None);
    assert_eq!(state.get(&vec![3]), ReadStep::Known(Some(vec![33])));
    assert_eq!(state.delete_all(&vec![2], &found), Ok(None));
}

#[test]
fn delete_all_on_a_read_only_state() {
    let mut state = LvmtState::read_only(Some(id(9)), id(5), None);
    assert_eq!(state.delete_all(&vec![2], &vec![]), Ok(None));
    assert!(state.delete_all(&vec![2], &vec![(vec![2], Some(vec![1]))]).is_err());
}

#[test]
fn the_root_of_an_empty_genesis_is_the_hash_of_nothing() {
    let mut state = LvmtState::writable(None, None, None);
    let acc = BatchAccumulator::new(2);
    let root = state.compute_state_root(&acc, None);
    assert_eq!(root.0[..4], [0xc5, 0xd2, 0x46, 0x01]);
    assert_eq!(root, keccak(&[]));
}

#[test]
fn the_root_covers_the_parent_and_the_changes() {
    let acc = BatchAccumulator::new(2);
    let mut state = LvmtState::writable(Some(id(9)), Some(id(9)), None);
    state.set(vec![3], vec![33]).unwrap();
    state.delete(vec![1]).unwrap();
    let mut preimage = vec![4u8; 32];
    preimage.extend_from_slice(&[1, 0, 3, 1, 33]);
    assert_eq!(state.parent_root_query(&acc), Some(id(9)));
    assert_eq!(state.state_root_preimage(&acc, Some(id(4))), preimage);
    assert_eq!(state.compute_state_root(&acc, Some(id(4))), keccak(&preimage));
    assert_eq!(state.parent_root_query(&acc), None);
}

#[test]
fn an_unknown_parent_counts_as_zero() {
    let acc = BatchAccumulator::new(2);
    let state = LvmtState::writable(Some(id(9)), Some(id(9)), None);
    assert_eq!(state.state_root_preimage(&acc, None), vec![0u8; 32]);
}

#[test]
fn the_root_of_a_waiting_parent_comes_from_the_batch() {
    let mut acc = BatchAccumulator::new(5);
    acc.accumulate(Some(id(8)), id(9), id(77), ChangeMap::new());
    let state = LvmtState::writable(Some(id(9)), Some(id(8)), None);
    assert_eq!(state.parent_root_query(&acc), None);
    assert_eq!(state.state_root_preimage(&acc, Some(id(4))), vec![77u8; 32]);
}

#[test]
fn the_root_is_kept_until_the_next_write() {
    let acc = BatchAccumulator::new(2);
    let mut state = LvmtState::writable(None, None, None);
    assert_eq!(state.get_state_root(), Err(Error::Msg("No state root".to_string())));
    let first = state.compute_state_root(&acc, None);
    assert_eq!(state.get_state_root(), Ok(first));
    state.set(vec![1], vec![]).unwrap();
    assert!(state.get_state_root().is_err());
    assert_eq!(state.compute_state_root(&acc, None), keccak(&[1, 1]));
}

#[test]
fn the_order_of_writes_does_not_change_the_root() {
    let acc = BatchAccumulator::new(2);
    let mut a = LvmtState::writable(None, None, None);
    a.set(vec![1], vec![11]).unwrap();
    a.set(vec![2], vec![22]).unwrap();
    let mut b = LvmtState::writable(None, None, None);
    b.set(vec![2], vec![22]).unwrap();
    b.set(vec![1], vec![11]).unwrap();
    assert_eq!(a.compute_state_root(&acc, None), b.compute_state_root(&acc, None));
}

#[test]
fn the_genesis_is_committed_at_once() {
    let mut acc = BatchAccumulator::new(2);
    let mut state = LvmtState::writable(None, None, None);
    state.set(vec![1], vec![11]).unwrap();
    match state.commit(id(1), &acc, None) {
        CommitStep::Genesis(request) => {
            assert_eq!(request.parent, None);
            assert_eq!(request.epoch, id(1));
            assert_eq!(request.state_root, keccak(&[1, 1, 11]));
            assert_eq!(request.changes.into_pairs(), vec![(vec![1], Some(vec![11]))]);
        }
        other => panic!("{:?}", other),
    }
    state.genesis_committed(id(1), &mut acc);
    assert_eq!(acc.base_epoch_for_overlay(), Some(id(1)));
    assert_eq!(state.get(&vec![1]), ReadStep::Known(None));
}

#[test]
fn a_full_batch_is_flushed() {
    let mut acc = BatchAccumulator::new(2);
    acc.set_last_flushed(id(9));
    for n in 1..=2u8 {
        let mut state = LvmtState::writable(Some(id(9)), Some(id(9)), None);
        state.set(vec![n], vec![n]).unwrap();
        let request = match state.commit_with_root(id(n), id(100 + n), &acc) {
            CommitStep::QueryBackend(request) => request,
            other => panic!("{:?}", other),
        };
        match state.commit_queried(request, None, &mut acc) {
            CommitEnd::Done(root) => assert_eq!((n, root), (1, id(101))),
            CommitEnd::Flush(flush, root) => {
                assert_eq!((n, root), (2, id(102)));
                assert_eq!(flush.parent, Some(id(9)));
                assert_eq!(flush.epoch, id(2));
                assert_eq!(flush.changes.into_pairs(), vec![(vec![1], Some(vec![1])), (vec![2], Some(vec![2]))]);
            }
        }
    }
}

#[test]
fn a_second_commit_changes_nothing() {
    let mut acc = BatchAccumulator::new(5);
    acc.accumulate(Some(id(9)), id(1), id(101), ChangeMap::new());
    let mut state = LvmtState::writable(Some(id(9)), Some(id(9)), None);
    state.set(vec![1], vec![1]).unwrap();
    match state.commit(id(1), &acc, None) {
        CommitStep::Done(root) => assert_eq!(root, id(101)),
        other => panic!("{:?}", other),
    }
}

#[test]
fn an_epoch_of_the_backend_is_not_committed_again() {
    let mut acc = BatchAccumulator::new(5);
    let mut state = LvmtState::writable(Some(id(9)), Some(id(9)), None);
    let request = match state.commit(id(1), &acc, None) {
        CommitStep::QueryBackend(request) => request,
        other => panic!("{:?}", other),
    };
    match state.commit_queried(request, Some(id(55)), &mut acc) {
        CommitEnd::Done(root) => assert_eq!(root, id(55)),
        other => panic!("{:?}", other),
    }
    assert!(!acc.contains(&id(1)));
}

#[test]
fn the_root_of_a_flushed_parent_stays_known() {
    let mut acc = BatchAccumulator::new(2);
    acc.set_last_flushed(id(8));
    acc.accumulate(Some(id(8)), id(1), id(101), ChangeMap::new());
    let below_the_tip = LvmtState::writable(Some(id(1)), Some(id(8)), None);
    let waiting = below_the_tip.state_root_preimage(&acc, None);
    acc.accumulate(Some(id(1)), id(2), id(102), ChangeMap::new());
    let on_the_tip = LvmtState::writable(Some(id(2)), Some(id(8)), None);
    acc.flush_committed();
    assert_eq!(waiting, vec![101; 32]);
    assert_eq!(below_the_tip.parent_root_query(&acc), Some(id(1)));
    assert_eq!(below_the_tip.state_root_preimage(&acc, None), waiting);
    assert_eq!(on_the_tip.parent_root_query(&acc), Some(id(2)));
    assert_eq!(on_the_tip.state_root_preimage(&acc, Some(id(102))), vec![102; 32]);
}

#[test]
fn a_root_of_the_backend_goes_before_a_kept_one() {
    let mut acc = BatchAccumulator::new(2);
    acc.accumulate(None, id(1), id(101), ChangeMap::new());
    acc.accumulate(Some(id(1)), id(2), id(102), ChangeMap::new());
    acc.flush_committed();
    let state = LvmtState::writable(Some(id(1)), Some(id(1)), None);
    assert_eq!(state.state_root_preimage(&acc, Some(id(55))), vec![55; 32]);
}

#[test]
fn a_read_only_state_of_a_stored_epoch_is_answered_with_the_stored_root() {
    let mut acc = BatchAccumulator::new(5);
    let mut state = LvmtState::read_only(Some(id(9)), id(5), None);
    let request = match state.commit(id(1), &acc, None) {
        CommitStep::QueryBackend(request) => request,
        other => panic!("{:?}", other),
    };
    assert_eq!(request.state_root, id(5));
    match state.commit_queried(request, Some(id(55)), &mut acc) {
        CommitEnd::Done(root) => assert_eq!(root, id(55)),
        other => panic!("{:?}", other),
    }
}

#[test]
fn writable_states_accumulate() {
    assert!(LvmtState::writable(None, None, None).is_accumulating());
}
