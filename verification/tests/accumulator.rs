use lvmt_state::accumulator::{BatchAccumulator, DEFAULT_BATCH_COMMIT_SIZE};
use lvmt_state::change_map::ChangeMap;
use lvmt_state::primitive::H256;

fn id(n: u8) -> H256 {
    H256([n; 32])
}

fn changes(list: &[(u8, Option<u8>)]) -> ChangeMap {
    let mut map = ChangeMap::new();
    for (key, value) in list {
        map.insert(vec![*key], value.map(|v| vec![v]));
    }
    map
}

/// Three epochs in a line on the flushed epoch 9.
fn line() -> BatchAccumulator {
    let mut acc = BatchAccumulator::new(3);
    acc.set_last_flushed(id(9));
    assert!(!acc.accumulate(Some(id(9)), id(1), id(101), changes(&[(1, Some(11)), (2, Some(12))])));
    assert!(!acc.accumulate(Some(id(1)), id(2), id(102), changes(&[(2, None), (3, Some(23))])));
    assert!(acc.accumulate(Some(id(2)), id(3), id(103), changes(&[(1, Some(31))])));
    acc
}

#[test]
fn the_default_batch_holds_twenty_epochs() {
    assert_eq!(DEFAULT_BATCH_COMMIT_SIZE, 20);
}

#[test]
fn an_epoch_waits_until_the_flush() {
    let acc = line();
    assert!(acc.contains(&id(2)));
    assert!(!acc.contains(&id(9)));
    assert_eq!(acc.get_state_root(&id(2)), Some(id(102)));
    assert_eq!(acc.get_state_root(&id(9)), None);
    assert_eq!(acc.base_epoch_for_overlay(), Some(id(9)));
}

#[test]
fn the_overlay_shows_the_newest_changes_along_the_parents() {
    let acc = line();
    assert!(acc.parent_chain_ends(&id(2)));
    let overlay = acc.build_overlay_for_epoch(&id(2)).unwrap();
    assert_eq!(
        overlay.into_pairs(),
        vec![(vec![1], Some(vec![11])), (vec![2], None), (vec![3], Some(vec![23]))]
    );
    assert!(acc.build_overlay_for_epoch(&id(9)).is_none());
}

#[test]
fn the_overlay_leaves_side_branches_out() {
    let mut acc = line();
    acc.accumulate(Some(id(9)), id(4), id(104), changes(&[(7, Some(47))]));
    let overlay = acc.build_overlay_for_epoch(&id(4)).unwrap();
    assert_eq!(overlay.into_pairs(), vec![(vec![7], Some(vec![47]))]);
}

#[test]
fn a_flush_commits_the_overlay_of_the_tip_of_a_line() {
    let acc = line();
    let overlay = acc.build_overlay_for_epoch(&id(3)).unwrap();
    let request = acc.flush_batch().unwrap();
    assert_eq!(request.parent, Some(id(9)));
    assert_eq!(request.epoch, id(3));
    assert_eq!(request.state_root, id(103));
    assert_eq!(request.changes.into_pairs(), overlay.into_pairs());
}

#[test]
fn a_flush_keeps_the_state_roots_below_the_tip() {
    let mut acc = line();
    assert!(acc.flush_batch().is_some());
    assert_eq!(acc.flush_committed(), id(3));
    assert_eq!(acc.base_epoch_for_overlay(), Some(id(3)));
    assert_eq!(acc.flushed_intermediate_root(&id(1)), Some(id(101)));
    assert_eq!(acc.flushed_intermediate_root(&id(2)), Some(id(102)));
    assert_eq!(acc.flushed_intermediate_root(&id(3)), None);
    assert!(!acc.contains(&id(1)));
    assert!(acc.flush_batch().is_none());
}

#[test]
fn an_empty_batch_is_not_flushed() {
    assert!(BatchAccumulator::new(1).flush_batch().is_none());
}

#[test]
fn parents_in_a_circle_are_noticed() {
    let mut acc = BatchAccumulator::new(5);
    acc.accumulate(Some(id(2)), id(1), id(0), changes(&[]));
    acc.accumulate(Some(id(1)), id(2), id(0), changes(&[]));
    assert!(!acc.parent_chain_ends(&id(1)));
    assert!(acc.parent_chain_ends(&id(3)));
}

#[test]
fn a_batch_of_size_zero_is_full_at_once() {
    let mut acc = BatchAccumulator::new(0);
    assert!(acc.accumulate(None, id(1), id(0), changes(&[])));
}

#[test]
fn the_state_roots_of_moved_epochs_are_cleared() {
    let mut acc = line();
    acc.flush_committed();
    acc.moved_to_history(&vec![id(1), id(7)]);
    assert_eq!(acc.flushed_intermediate_root(&id(1)), None);
    assert_eq!(acc.flushed_intermediate_root(&id(2)), Some(id(102)));
}
