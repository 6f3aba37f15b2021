use lvmt_state::maintenance::{BoundaryChange, LvmtStateManagerWithConf, StorageConfiguration};
use lvmt_state::primitive::H256;

fn conf() -> LvmtStateManagerWithConf {
    LvmtStateManagerWithConf {
        storage_conf: StorageConfiguration { snapshot_epoch_count: 10, additional_maintained_snapshot_count: 2 },
    }
}

#[test]
fn the_maintained_height_lies_the_gap_below_the_confirmed_one() {
    assert_eq!(conf().get_snapshot_epoch_count(), 10);
    assert_eq!(conf().maintain_state_confirmed(Some(false), 100, 5), Some(80));
}

#[test]
fn nothing_is_done_at_or_below_the_lower_bound() {
    assert_eq!(conf().maintain_state_confirmed(Some(false), 100, 80), None);
    assert_eq!(conf().maintain_state_confirmed(Some(false), 100, 79), Some(80));
    assert_eq!(conf().maintain_state_confirmed(Some(false), 20, 0), None);
}

#[test]
fn nothing_is_done_after_shutdown() {
    assert_eq!(conf().maintain_state_confirmed(Some(true), 100, 5), None);
    assert_eq!(conf().maintain_state_confirmed(None, 100, 5), None);
}

#[test]
fn the_first_available_state_follows_the_snapshot() {
    let plan = conf().plan(H256([7; 32]), 85, 5);
    assert_eq!(plan.maintained_epoch_id, H256([7; 32]));
    assert_eq!(plan.first_available_state_height, 71);
    assert_eq!(conf().plan(H256([7; 32]), 15, 5).first_available_state_height, 0);
    assert_eq!(conf().plan(H256([7; 32]), 16, 5).first_available_state_height, 2);
}

#[test]
fn the_boundary_rises_and_never_falls() {
    let plan = conf().plan(H256([7; 32]), 85, 5);
    assert_eq!(
        plan.boundary_change(true, false, 10),
        BoundaryChange { lower_bound: 71, confirm_history: false }
    );
    assert_eq!(
        plan.boundary_change(false, true, 10),
        BoundaryChange { lower_bound: 71, confirm_history: true }
    );
    assert_eq!(
        plan.boundary_change(true, true, 75),
        BoundaryChange { lower_bound: 75, confirm_history: true }
    );
    assert_eq!(
        plan.boundary_change(false, false, 10),
        BoundaryChange { lower_bound: 10, confirm_history: false }
    );
}

#[test]
fn the_maintained_state_stays_available() {
    let height = conf().maintain_state_confirmed(Some(false), 57, 3).unwrap();
    let plan = conf().plan(H256([7; 32]), height, 7);
    assert!(plan.first_available_state_height <= height && height <= 57);
    assert!(plan.boundary_change(true, true, 3).lower_bound <= height);
}

#[test]
fn nothing_is_done_after_shutdown_whatever_the_configuration() {
    let conf = LvmtStateManagerWithConf {
        storage_conf: StorageConfiguration {
            snapshot_epoch_count: u32::MAX,
            additional_maintained_snapshot_count: u32::MAX,
        },
    };
    assert_eq!(conf.maintain_state_confirmed(Some(true), u64::MAX, 0), None);
    assert_eq!(conf.maintain_state_confirmed(None, u64::MAX, 0), None);
}
