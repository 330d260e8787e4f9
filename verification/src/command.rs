//! The semantic command boundary. Every command returns a structured
//! accepted/rejected result; rejected commands change nothing.

use vstd::prelude::*;

use crate::world::Continent;

verus! {

#[derive(Debug, Clone, PartialEq, Eq)]
pub enum Command {
    QueueProject { project: String, lead: Continent },
    RemoveQueuedProject { index: u32 },
    ReorderQueue { from: u32, to: u32 },
    CancelActiveProject { index: u32 },
    DecommissionProject { index: u32 },
    SelectProjectLeadContinent { index: u32, lead: Continent },
    Pause,
    Resume,
    ClaimOpportunity { index: u32 },
}

impl Command {
    /// A copy of this command, equal to it.
    pub fn duplicate(&self) -> (r: Command)
        ensures
            r == *self,
    {
        match self {
            Command::QueueProject { project, lead } => Command::QueueProject {
                project: project.clone(),
                lead: *lead,
            },
            Command::RemoveQueuedProject { index } => Command::RemoveQueuedProject { index: *index },
            Command::ReorderQueue { from, to } => Command::ReorderQueue { from: *from, to: *to },
            Command::CancelActiveProject { index } => Command::CancelActiveProject { index: *index },
            Command::DecommissionProject { index } => Command::DecommissionProject { index: *index },
            Command::SelectProjectLeadContinent { index, lead } => Command::SelectProjectLeadContinent {
                index: *index,
                lead: *lead,
            },
            Command::Pause => Command::Pause,
            Command::Resume => Command::Resume,
            Command::ClaimOpportunity { index } => Command::ClaimOpportunity { index: *index },
        }
    }
}

/// Machine-readable rejection reasons.
#[derive(Debug, Clone, PartialEq, Eq)]
pub enum Rejection {
    UnknownProject { id: String },
    InvalidIndex,
    AlreadyPaused,
    NotPaused,
}

impl Rejection {
    /// A copy of this rejection, equal to it.
    pub fn duplicate(&self) -> (r: Rejection)
        ensures
            r == *self,
    {
        match self {
            Rejection::UnknownProject { id } => Rejection::UnknownProject { id: id.clone() },
            Rejection::InvalidIndex => Rejection::InvalidIndex,
            Rejection::AlreadyPaused => Rejection::AlreadyPaused,
            Rejection::NotPaused => Rejection::NotPaused,
        }
    }
}

/// One entry of the authoritative command log: what was asked, at which
/// tick, and whether it was accepted.
#[derive(Debug, Clone, PartialEq, Eq)]
pub struct LoggedCommand {
    pub tick: u64,
    pub command: Command,
    pub rejection: Option<Rejection>,
}

impl LoggedCommand {
    pub fn accepted(&self) -> (r: bool)
        ensures
            r == (self.rejection is None),
    {
        self.rejection.is_none()
    }
}

} // verus!
