//! Structured trace events for visible state changes, and the reasons a
//! stalled queue head reports.

use vstd::prelude::*;

use crate::world::{Continent, Icon};

verus! {

/// Why the FIFO queue head has not started.
#[derive(Debug, Clone, PartialEq, Eq)]
pub enum BlockReason {
    NoFreeSlot,
    NotUnlocked,
    MissingIcon { icon: Icon, needed: i64, have: i64 },
    MissingProject { project: String },
    RepeatLimitReached,
    InsufficientFinance { needed_milli: i64, have_milli: i64 },
    InsufficientMandate { needed_milli: i64, have_milli: i64 },
}

/// Two block reasons say the same thing (strings compared by content).
pub open spec fn same_reason(a: BlockReason, b: BlockReason) -> bool {
    match (a, b) {
        (BlockReason::MissingProject { project: x }, BlockReason::MissingProject { project: y }) => x@
            == y@,
        (BlockReason::MissingProject { .. }, _) => false,
        (_, BlockReason::MissingProject { .. }) => false,
        _ => a == b,
    }
}

impl BlockReason {
    /// Whether two reasons say the same thing.
    pub fn same_as(&self, other: &BlockReason) -> (r: bool)
        ensures
            r == same_reason(*self, *other),
    {
        match (self, other) {
            (BlockReason::NoFreeSlot, BlockReason::NoFreeSlot) => true,
            (BlockReason::NotUnlocked, BlockReason::NotUnlocked) => true,
            (
                BlockReason::MissingIcon { icon: a, needed: b, have: c },
                BlockReason::MissingIcon { icon: x, needed: y, have: z },
            ) => *a == *x && *b == *y && *c == *z,
            (BlockReason::MissingProject { project: a }, BlockReason::MissingProject { project: x }) =>
                *a == *x,
            (BlockReason::RepeatLimitReached, BlockReason::RepeatLimitReached) => true,
            (
                BlockReason::InsufficientFinance { needed_milli: a, have_milli: b },
                BlockReason::InsufficientFinance { needed_milli: x, have_milli: y },
            ) => *a == *x && *b == *y,
            (
                BlockReason::InsufficientMandate { needed_milli: a, have_milli: b },
                BlockReason::InsufficientMandate { needed_milli: x, have_milli: y },
            ) => *a == *x && *b == *y,
            _ => false,
        }
    }

    /// A copy of this reason, equal to it.
    pub fn duplicate(&self) -> (r: BlockReason)
        ensures
            r == *self,
    {
        match self {
            BlockReason::NoFreeSlot => BlockReason::NoFreeSlot,
            BlockReason::NotUnlocked => BlockReason::NotUnlocked,
            BlockReason::MissingIcon { icon, needed, have } => BlockReason::MissingIcon {
                icon: *icon,
                needed: *needed,
                have: *have,
            },
            BlockReason::MissingProject { project } => BlockReason::MissingProject {
                project: project.clone(),
            },
            BlockReason::RepeatLimitReached => BlockReason::RepeatLimitReached,
            BlockReason::InsufficientFinance { needed_milli, have_milli } =>
                BlockReason::InsufficientFinance { needed_milli: *needed_milli, have_milli: *have_milli },
            BlockReason::InsufficientMandate { needed_milli, have_milli } =>
                BlockReason::InsufficientMandate { needed_milli: *needed_milli, have_milli: *have_milli },
        }
    }
}

#[derive(Debug, Clone, PartialEq, Eq)]
pub struct TraceEvent {
    pub tick: u64,
    pub kind: TraceKind,
}

#[derive(Debug, Clone, PartialEq, Eq)]
pub enum TraceKind {
    ProjectStarted { project: String, lead: Continent },
    ProjectCompleted { project: String, lead: Continent, bonus_permille: i64 },
    ProjectCancelled { project: String, lead: Continent },
    ProjectDecommissioned { project: String, lead: Continent },
    SlotUnlocked { total: u32 },
    OpportunityOpened { id: String, continent: Continent },
    OpportunityClaimed { id: String },
    OpportunityExpired { id: String },
    QueueBlocked { reason: BlockReason },
    VictoryReached,
}

} // verus!
