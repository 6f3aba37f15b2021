//! How far back states are kept available.
use vstd::prelude::*;
use crate::primitive::EpochId;

verus! {

/// `a - b`, or zero where `b` is greater.
pub open spec fn less_or_zero(a: int, b: int) -> int {
    if a > b {
        a - b
    } else {
        0
    }
}

/// The part of the storage configuration that says how much is kept.
#[derive(Clone, Copy, Debug, PartialEq, Eq)]
pub struct StorageConfiguration {
    /// How many epochs lie between two snapshots.
    pub snapshot_epoch_count: u32,
    /// How many snapshots are kept besides the last confirmed one.
    pub additional_maintained_snapshot_count: u32,
}

/// What a round of maintenance is about.
#[derive(Clone, Copy, Debug, PartialEq, Eq)]
pub struct MaintenancePlan {
    /// The epoch that is to have no sibling.
    pub maintained_epoch_id: EpochId,
    /// The lowest height whose state stays available.
    pub first_available_state_height: u64,
}

/// What a round of maintenance does to the boundary of the available states.
#[derive(Clone, Copy, Debug, PartialEq, Eq)]
pub struct BoundaryChange {
    /// The lowest height whose state is available from now on.
    pub lower_bound: u64,
    /// Whether the pending root is to be moved up to the first available height.
    pub confirm_history: bool,
}

/// Keeps as many states as the configuration asks for.
#[derive(Clone, Copy, Debug, PartialEq, Eq)]
pub struct LvmtStateManagerWithConf {
    pub storage_conf: StorageConfiguration,
}

impl LvmtStateManagerWithConf {
    /// By how many heights the maintained states reach below the confirmed one.
    pub open spec fn height_gap(self) -> int {
        self.storage_conf.additional_maintained_snapshot_count * self.storage_conf.snapshot_epoch_count
    }

    /// The height from which on states are maintained.
    pub open spec fn maintained_height(self, confirmed_height: u64) -> int {
        less_or_zero(confirmed_height as int, self.height_gap())
    }

    /// The height of the snapshot before the last one that the maintained height
    /// confirms, which lies `delta_height` below it.
    pub open spec fn snapshot_height(self, maintained_height: u64, delta_height: u32) -> int {
        less_or_zero(maintained_height - delta_height, self.storage_conf.snapshot_epoch_count as int)
    }

    /// The height after that snapshot, or zero where there is none.
    pub open spec fn first_available(self, maintained_height: u64, delta_height: u32) -> int {
        let snapshot = self.snapshot_height(maintained_height, delta_height);
        if snapshot > 0 {
            snapshot + 1
        } else {
            0
        }
    }

    pub fn get_snapshot_epoch_count(&self) -> (r: u32)
        ensures
            r == self.storage_conf.snapshot_epoch_count,
    {
        self.storage_conf.snapshot_epoch_count
    }

    /// Begins a round of maintenance: the height whose pivot is to be found, or
    /// none where there is nothing to do. `shutdown` is the shutdown flag, none
    /// where its lock is taken.
    pub fn maintain_state_confirmed(&self, shutdown: Option<bool>, confirmed_height: u64, lower_bound: u64) -> (r: Option<
        u64,
    >)
        requires
            shutdown == Some(false) ==> self.height_gap() <= u32::MAX,
        ensures
            r is Some <==> shutdown == Some(false) && self.maintained_height(confirmed_height) > lower_bound,
            r matches Some(height) ==> height == self.maintained_height(confirmed_height),
    {
        match shutdown {
            Some(false) => {},
            _ => {
                return None;
            },
        }
        let gap: u64 = (self.storage_conf.additional_maintained_snapshot_count * self.get_snapshot_epoch_count()) as u64;
        let height: u64 = if confirmed_height > gap {
            confirmed_height - gap
        } else {
            0
        };
        if height <= lower_bound {
            None
        } else {
            Some(height)
        }
    }

    /// What the round is about, once the pivot of the maintained height was found.
    /// `delta_height` is how far that height lies above the snapshot below it.
    pub fn plan(&self, maintained_epoch_id: EpochId, maintained_height: u64, delta_height: u32) -> (r: MaintenancePlan)
        requires
            delta_height <= maintained_height,
            self.first_available(maintained_height, delta_height) <= u64::MAX,
        ensures
            r.maintained_epoch_id == maintained_epoch_id,
            r.first_available_state_height == self.first_available(maintained_height, delta_height),
    {
        let confirmed_intermediate_height: u64 = maintained_height - delta_height as u64;
        let count: u64 = self.get_snapshot_epoch_count() as u64;
        let confirmed_snapshot_height: u64 = if confirmed_intermediate_height > count {
            confirmed_intermediate_height - count
        } else {
            0
        };
        let first_available_state_height: u64 = if confirmed_snapshot_height > 0 {
            confirmed_snapshot_height + 1
        } else {
            0
        };
        MaintenancePlan { maintained_epoch_id, first_available_state_height }
    }
}

impl MaintenancePlan {
    /// What becomes of the boundary: `non_pivot_removed` says that siblings of the
    /// maintained epoch went away, `adjust_pending_root` that the first available
    /// height lies above the pending root.
    pub fn boundary_change(&self, non_pivot_removed: bool, adjust_pending_root: bool, lower_bound: u64) -> (r:
        BoundaryChange)
        ensures
            r == self.changed(non_pivot_removed, adjust_pending_root, lower_bound),
    {
        let mut change = BoundaryChange { lower_bound, confirm_history: false };
        if non_pivot_removed || adjust_pending_root {
            if self.first_available_state_height > lower_bound {
                change.lower_bound = self.first_available_state_height;
            }
            if adjust_pending_root {
                change.confirm_history = true;
            }
        }
        change
    }

    /// The boundary rises to the first available height where anything was removed
    /// or is to be moved, and never falls.
    pub open spec fn changed(self, non_pivot_removed: bool, adjust_pending_root: bool, lower_bound: u64) -> BoundaryChange {
        BoundaryChange {
            lower_bound: if (non_pivot_removed || adjust_pending_root) && self.first_available_state_height > lower_bound {
                self.first_available_state_height
            } else {
                lower_bound
            },
            confirm_history: adjust_pending_root,
        }
    }
}

/// The maintained states reach as many snapshots below the confirmed height as are
/// kept: the two heights differ by exactly that many epochs, as far as heights go
/// down.
pub proof fn law_maintained_height_lies_the_kept_snapshots_below(conf: LvmtStateManagerWithConf, confirmed_height: u64)
    ensures
        ({
            let kept = conf.storage_conf.additional_maintained_snapshot_count * conf.storage_conf.snapshot_epoch_count;
            &&& kept <= confirmed_height ==> conf.maintained_height(confirmed_height) + kept == confirmed_height
            &&& kept > confirmed_height ==> conf.maintained_height(confirmed_height) == 0
        }),
{
}

/// A higher confirmed height never lowers the maintained one.
pub proof fn law_maintained_height_grows(conf: LvmtStateManagerWithConf, h1: u64, h2: u64)
    requires
        h1 <= h2,
    ensures
        conf.maintained_height(h1) <= conf.maintained_height(h2),
{
}

/// The first available height follows the snapshot that lies one snapshot distance
/// below the one under the maintained height; without such a snapshot everything is
/// available.
pub proof fn law_first_available_follows_the_snapshot_before(
    conf: LvmtStateManagerWithConf,
    maintained_height: u64,
    delta_height: u32,
)
    requires
        delta_height <= maintained_height,
    ensures
        ({
            let count = conf.storage_conf.snapshot_epoch_count;
            let first = conf.first_available(maintained_height, delta_height);
            &&& maintained_height > delta_height + count ==> first + count + delta_height == maintained_height + 1
            &&& maintained_height <= delta_height + count ==> first == 0
        }),
{
}

/// Where siblings were removed or the pending root is to be moved, everything from
/// the first available height on is available and, unless it was lower already,
/// nothing below; else the boundary stays. The pending root is moved exactly where
/// the first available height lies above it.
pub proof fn law_boundary_rises_to_the_first_available_height(
    plan: MaintenancePlan,
    removed: bool,
    adjust: bool,
    lower_bound: u64,
)
    ensures
        ({
            let change = plan.changed(removed, adjust, lower_bound);
            &&& removed || adjust ==> change.lower_bound >= plan.first_available_state_height
            &&& change.lower_bound == lower_bound || change.lower_bound == plan.first_available_state_height
            &&& !removed && !adjust ==> change.lower_bound == lower_bound
            &&& change.lower_bound != lower_bound ==> plan.first_available_state_height > lower_bound
            &&& change.confirm_history <==> adjust
        }),
{
}

/// Maintenance never makes an unavailable state available again: the lower bound
/// does not fall.
pub proof fn law_lower_bound_never_falls(plan: MaintenancePlan, removed: bool, adjust: bool, lower_bound: u64)
    ensures
        plan.changed(removed, adjust, lower_bound).lower_bound >= lower_bound,
{
}

/// The first available height is not above the maintained one, and so not above
/// the confirmed one, where snapshots lie at least one epoch apart.
pub proof fn law_first_available_is_confirmed(
    conf: LvmtStateManagerWithConf,
    confirmed_height: u64,
    maintained_height: u64,
    delta_height: u32,
)
    requires
        maintained_height == conf.maintained_height(confirmed_height),
        delta_height <= maintained_height,
        conf.storage_conf.snapshot_epoch_count > 0,
    ensures
        conf.first_available(maintained_height, delta_height) <= maintained_height <= confirmed_height,
{
    assert(conf.height_gap() >= 0) by (nonlinear_arith)
        requires
            conf.height_gap() == conf.storage_conf.additional_maintained_snapshot_count
                * conf.storage_conf.snapshot_epoch_count,
    ;
}

/// A round keeps the lower bound at or below the maintained height, where
/// snapshots lie at least one epoch apart: the maintained state stays available.
pub proof fn law_maintained_state_stays_available(
    conf: LvmtStateManagerWithConf,
    plan: MaintenancePlan,
    maintained_height: u64,
    delta_height: u32,
    removed: bool,
    adjust: bool,
    lower_bound: u64,
)
    requires
        delta_height <= maintained_height,
        conf.storage_conf.snapshot_epoch_count > 0,
        plan.first_available_state_height == conf.first_available(maintained_height, delta_height),
        lower_bound < maintained_height,
    ensures
        plan.changed(removed, adjust, lower_bound).lower_bound <= maintained_height,
{
}

} // verus!
