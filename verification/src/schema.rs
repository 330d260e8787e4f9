//! The authored-content schema: the controlled effect vocabulary, project
//! definitions, scenario data, and opportunities.

use vstd::prelude::*;

use crate::world::{Continent, Icon, Sector};

verus! {

/// Where an effect applies. Spatial effects use the spatial scopes;
/// economy-wide effects use `Global`.
#[derive(Debug, Clone, Copy, PartialEq, Eq, Structural)]
pub enum Scope {
    Global,
    LeadContinent,
    Continent(Continent),
    AllContinents,
    Spillover(Continent),
}

/// The controlled effect vocabulary. Magnitudes are integers.
#[derive(Debug, Clone, PartialEq, Eq)]
pub enum EffectOp {
    AddIcon { icon: Icon, amount: i64 },
    RemoveIcon { icon: Icon, amount: i64 },
    ReduceSectorEmissions { sector: Sector, milli_gt: i64 },
    AddFinanceIncome { milli_per_tick: i64 },
    AddMandateIncome { milli_per_tick: i64 },
    AddMandateMaximum { milli: i64 },
    AddMaintenance { milli_per_tick: i64 },
    ModifyProjectCost { project: String, permille: i64 },
    ModifyProjectDuration { project: String, permille: i64 },
    UnlockProject { project: String },
}

/// Spatial ops apply per continent; the rest are economy-wide.
pub open spec fn op_is_spatial(op: EffectOp) -> bool {
    match op {
        EffectOp::AddIcon { .. } | EffectOp::RemoveIcon { .. } | EffectOp::ReduceSectorEmissions {
            ..
        } => true,
        _ => false,
    }
}

impl EffectOp {
    /// Spatial ops apply per continent; the rest are economy-wide.
    pub fn is_spatial(&self) -> (r: bool)
        ensures
            r == op_is_spatial(*self),
    {
        match self {
            EffectOp::AddIcon { .. } | EffectOp::RemoveIcon { .. }
            | EffectOp::ReduceSectorEmissions { .. } => true,
            _ => false,
        }
    }

    /// A copy of this op, equal to it.
    pub fn duplicate(&self) -> (r: EffectOp)
        ensures
            r == *self,
    {
        match self {
            EffectOp::AddIcon { icon, amount } => EffectOp::AddIcon { icon: *icon, amount: *amount },
            EffectOp::RemoveIcon { icon, amount } => EffectOp::RemoveIcon {
                icon: *icon,
                amount: *amount,
            },
            EffectOp::ReduceSectorEmissions { sector, milli_gt } => EffectOp::ReduceSectorEmissions {
                sector: *sector,
                milli_gt: *milli_gt,
            },
            EffectOp::AddFinanceIncome { milli_per_tick } => EffectOp::AddFinanceIncome {
                milli_per_tick: *milli_per_tick,
            },
            EffectOp::AddMandateIncome { milli_per_tick } => EffectOp::AddMandateIncome {
                milli_per_tick: *milli_per_tick,
            },
            EffectOp::AddMandateMaximum { milli } => EffectOp::AddMandateMaximum { milli: *milli },
            EffectOp::AddMaintenance { milli_per_tick } => EffectOp::AddMaintenance {
                milli_per_tick: *milli_per_tick,
            },
            EffectOp::ModifyProjectCost { project, permille } => EffectOp::ModifyProjectCost {
                project: project.clone(),
                permille: *permille,
            },
            EffectOp::ModifyProjectDuration { project, permille } => EffectOp::ModifyProjectDuration {
                project: project.clone(),
                permille: *permille,
            },
            EffectOp::UnlockProject { project } => EffectOp::UnlockProject {
                project: project.clone(),
            },
        }
    }
}

/// An effect with its explicit scope.
#[derive(Debug, Clone, PartialEq, Eq)]
pub struct ScopedEffect {
    pub op: EffectOp,
    pub scope: Scope,
}

/// How often a project can be built.
#[derive(Debug, Clone, Copy, PartialEq, Eq, Structural)]
pub enum Repeat {
    Unique,
    Repeatable,
    Tiered { count: u32 },
    CappedRollout { per_continent: u32 },
}

/// Controlled cost curves: permille of the base cost as a function of how
/// many times the project has ever completed.
#[derive(Debug, Clone, Copy, PartialEq, Eq, Structural)]
pub enum CostCurve {
    Flat,
    Linear { increment_permille: i64 },
    Exponential { growth_permille: i64 },
    ScaleThenDeplete { discount_permille: i64, floor_count: u32, growth_permille: i64 },
}

/// How a project's effects arrive.
#[derive(Debug, Clone, Copy, PartialEq, Eq, Structural)]
pub enum Activation {
    Completion,
    LinearRollout,
}

/// What must hold before the queue head can start.
#[derive(Debug, Clone, PartialEq, Eq)]
pub enum Prerequisite {
    IconAtLeast { icon: Icon, amount: i64 },
    CompletedOnLead { project: String },
    CompletedAnywhere { project: String },
}

/// Continuous scaling: a permille bonus per icon on the lead continent, capped.
#[derive(Debug, Clone, PartialEq, Eq)]
pub struct ScalingRule {
    pub icon: Icon,
    pub permille_per_icon: i64,
    pub cap_permille: i64,
}

/// A discrete authored breakpoint.
#[derive(Debug, Clone, PartialEq, Eq)]
pub struct Breakpoint {
    pub id: String,
    pub icon: Icon,
    pub at_least: i64,
    pub bonus_permille: i64,
}

impl Breakpoint {
    /// A copy of this breakpoint, equal to it.
    pub fn duplicate(&self) -> (r: Breakpoint)
        ensures
            r == *self,
    {
        Breakpoint {
            id: self.id.clone(),
            icon: self.icon,
            at_least: self.at_least,
            bonus_permille: self.bonus_permille,
        }
    }
}

/// Real-world context and source metadata.
#[derive(Debug, Clone, PartialEq, Eq)]
pub struct ProjectContext {
    pub what: String,
    pub why: String,
    pub depends_on: String,
    pub limits: String,
    pub in_this_scenario: String,
    pub abstraction: String,
    pub sources: Vec<String>,
}

/// A data-defined project.
#[derive(Debug, Clone, PartialEq, Eq)]
pub struct ProjectDef {
    pub id: String,
    pub title: String,
    pub summary: String,
    /// Whole finance units (milli internally: x1000).
    pub finance_cost: i64,
    /// Whole mandate points, spent upfront.
    pub mandate_cost: i64,
    pub duration_ticks: u64,
    pub repeat: Repeat,
    pub cost_curve: CostCurve,
    pub activation: Activation,
    pub locked: bool,
    pub prerequisites: Vec<Prerequisite>,
    pub scaling: Vec<ScalingRule>,
    pub breakpoints: Vec<Breakpoint>,
    pub effects: Vec<ScopedEffect>,
    pub context: ProjectContext,
}

/// A simple deterministic beneficial opportunity.
#[derive(Debug, Clone, PartialEq, Eq)]
pub struct OpportunityDef {
    pub id: String,
    pub title: String,
    pub effect: OpportunityEffect,
}

#[derive(Debug, Clone, Copy, PartialEq, Eq, Structural)]
pub enum OpportunityEffect {
    FinanceGrant { units: i64 },
    MandateBoost { milli: i64 },
    IconGrant { icon: Icon },
}

/// The authored scenario: starting stocks, baselines, incomes, milestones.
#[derive(Debug, PartialEq, Eq)]
pub struct Scenario {
    pub id: String,
    pub authored_speed_ticks_per_second: u32,
    pub finance_start: i64,
    pub mandate_start: i64,
    pub mandate_max_start: i64,
    pub finance_income_milli: Vec<(Continent, i64)>,
    pub mandate_income_milli: Vec<(Continent, i64)>,
    pub sector_baselines_milli_gt: Vec<(Continent, Sector, i64)>,
    pub starting_variation_permille: i64,
    pub slot_milestones: Vec<SlotMilestone>,
    pub opportunity_gap_ticks: (u64, u64),
    pub opportunity_lifetime_ticks: u64,
    pub hash_every_ticks: u64,
}

impl Clone for Scenario {
    fn clone(&self) -> Scenario {
        Scenario {
            id: self.id.clone(),
            authored_speed_ticks_per_second: self.authored_speed_ticks_per_second,
            finance_start: self.finance_start,
            mandate_start: self.mandate_start,
            mandate_max_start: self.mandate_max_start,
            finance_income_milli: self.finance_income_milli.clone(),
            mandate_income_milli: self.mandate_income_milli.clone(),
            sector_baselines_milli_gt: self.sector_baselines_milli_gt.clone(),
            starting_variation_permille: self.starting_variation_permille,
            slot_milestones: self.slot_milestones.clone(),
            opportunity_gap_ticks: (self.opportunity_gap_ticks.0, self.opportunity_gap_ticks.1),
            opportunity_lifetime_ticks: self.opportunity_lifetime_ticks,
            hash_every_ticks: self.hash_every_ticks,
        }
    }
}

#[derive(Debug, Clone, Copy, PartialEq, Eq, Structural)]
pub struct SlotMilestone {
    pub institutions: i64,
}

/// Top level of the scenario content file.
#[derive(Debug, Clone, PartialEq, Eq)]
pub struct ScenarioFile {
    pub scenario: Scenario,
    pub opportunities: Vec<OpportunityDef>,
}

/// Top level of the projects content file.
#[derive(Debug, Clone, PartialEq, Eq)]
pub struct ProjectsFile {
    pub projects: Vec<ProjectDef>,
}

} // verus!
