//! The authoritative run state, its bounds, and the model of every derived
//! field: emissions, icons, deltas and slots are recomputed from the standing
//! completed and active lists, so removing an entry removes every trace of it.

use vstd::prelude::*;

use crate::calc::{in_i64, bonus_rules_bounded, bonus_spec, permille_of, tdiv, ICON_MAX, MAG};
use crate::catalogue::{first_with_id, Catalogue};
use crate::rng::RngStreams;
use crate::schema::{
    Activation, EffectOp, OpportunityEffect, ProjectDef, Scenario, Scope, ScopedEffect, SlotMilestone,
};
use crate::trace::{BlockReason, TraceEvent};
use crate::world::{Continent, Sector, continent_index, icon_index, sector_index};

verus! {

/// A queued project: no resources reserved, no slot occupied.
#[derive(Debug, Clone, Copy, PartialEq, Eq, Structural)]
pub struct QueuedProject {
    pub project: u32,
    pub lead: Continent,
}

/// An active build: full costs paid upfront, one slot occupied.
#[derive(Debug, Clone, Copy, PartialEq, Eq, Structural)]
pub struct ActiveProject {
    pub project: u32,
    pub lead: Continent,
    pub started: u64,
    pub progress: u64,
    /// Duration after modifiers, locked at start.
    pub duration: u64,
}

/// One effect as realised at completion; reductions carry their scaled
/// magnitude, locked in with the icons held at completion time.
#[derive(Debug, Clone, PartialEq, Eq)]
pub struct RealizedEffect {
    pub op: EffectOp,
    pub scope: Scope,
}

#[derive(Debug, Clone, PartialEq, Eq)]
pub struct CompletedProject {
    pub project: u32,
    pub lead: Continent,
    pub tick: u64,
    pub realized: Vec<RealizedEffect>,
    pub bonus_permille: i64,
}

/// A spawned, unclaimed opportunity.
#[derive(Debug, Clone, Copy, PartialEq, Eq, Structural)]
pub struct OpenOpportunity {
    pub def: u32,
    pub continent: Continent,
    pub opened: u64,
    pub expires: u64,
}

#[derive(Debug, Clone, PartialEq)]
pub struct RunState {
    /// Active, unpaused ticks: also the ranked time.
    pub tick: u64,
    pub paused: bool,
    pub seed: u64,
    pub streams: RngStreams,
    pub baseline_emissions_milli: [[i64; 3]; 3],
    pub baseline_finance_income_milli: [i64; 3],
    pub baseline_mandate_income_milli: [i64; 3],
    pub finance_milli: i64,
    pub mandate_milli: i64,
    /// One-shot icon grants from claimed opportunities.
    pub bonus_icons: [[i64; 4]; 3],
    pub queue: Vec<QueuedProject>,
    pub active: Vec<ActiveProject>,
    pub completed: Vec<CompletedProject>,
    /// Completions ever, per project index; never decremented.
    pub completions_ever: Vec<u32>,
    /// Unlock ratchet, per project index.
    pub unlocked: Vec<bool>,
    pub opportunities: Vec<OpenOpportunity>,
    pub next_opportunity_tick: u64,
    pub victory_tick: Option<u64>,
    /// Why the queue head is stalled, if it is.
    pub last_block: Option<BlockReason>,
    pub sector_emissions_milli: [[i64; 3]; 3],
    pub icons: [[i64; 4]; 3],
    pub finance_delta_milli: i64,
    pub mandate_delta_milli: i64,
    pub mandate_max_milli: i64,
    pub slots_total: u32,
    /// The explanation trace; derivable from the command log.
    pub trace: Vec<TraceEvent>,
}

// ------------------------------------------------------------------ bounds

/// The bound on a realised (scaled) emissions reduction: an authored
/// reduction of at most `MAG` scaled by a bonus of at most 64 `MAG` permille
/// is at most 6.5 * 10^10.
pub const RED_MAX: i64 = 100_000_000_000;

/// The bound on a locked-in build duration. A partial rollout multiplies a
/// realised reduction (at most 6.5 * 10^10) by its progress (at most the
/// duration), so the product stays below `i64::MAX`.
pub const DUR_MAX: u64 = 100_000_000;

/// The bound on the Finance and Mandate stocks: `i64::MAX` less the room one
/// tick's income and one start's cost (at most 10^16) need.
pub const STOCK_MAX: i64 = 9_000_000_000_000_000_000;

/// The bound on the number of standing completed or active entries. Each
/// entry adds at most 64 effects of at most `MAG` to an icon stock or an
/// income, so a total is at most 64 * (`LIST_MAX` + 1) * `MAG` < 3.3 * 10^12,
/// which keeps icon stocks within `ICON_MAX`; realised reductions total at
/// most 64 * `LIST_MAX` * `RED_MAX` = 3.2 * 10^17, within `i64`.
pub const LIST_MAX: usize = 50_000;

/// The bound on a varied starting baseline: an authored baseline of at most
/// `MAG` scaled by a variation draw whose span fits in 32 bits.
pub const BASE_MAX: i64 = 3_000_000_000_000;

/// The bound on opportunity-granted icons.
pub const BONUS_ICON_MAX: i64 = 1_000_000_000;

pub open spec fn mag(x: int) -> bool {
    -MAG <= x <= MAG
}

/// Every magnitude an op carries lies within the authored bound.
pub open spec fn op_bounded(op: EffectOp) -> bool {
    match op {
        EffectOp::AddIcon { amount, .. } => mag(amount as int),
        EffectOp::RemoveIcon { amount, .. } => mag(amount as int),
        EffectOp::ReduceSectorEmissions { milli_gt, .. } => mag(milli_gt as int),
        EffectOp::AddFinanceIncome { milli_per_tick } => mag(milli_per_tick as int),
        EffectOp::AddMandateIncome { milli_per_tick } => mag(milli_per_tick as int),
        EffectOp::AddMandateMaximum { milli } => mag(milli as int),
        EffectOp::AddMaintenance { milli_per_tick } => mag(milli_per_tick as int),
        EffectOp::ModifyProjectCost { permille, .. } => mag(permille as int),
        EffectOp::ModifyProjectDuration { permille, .. } => mag(permille as int),
        EffectOp::UnlockProject { .. } => true,
    }
}

/// A realised op: like an authored one, but a reduction carries its scaled
/// magnitude.
pub open spec fn realized_op_bounded(op: EffectOp) -> bool {
    match op {
        EffectOp::ReduceSectorEmissions { milli_gt, .. } => -RED_MAX <= milli_gt <= RED_MAX,
        _ => op_bounded(op),
    }
}

pub open spec fn def_bounded(def: ProjectDef) -> bool {
    &&& in_i64(def.finance_cost * 1000)
    &&& mag(def.mandate_cost as int)
    &&& def.duration_ticks <= MAG
    &&& def.effects@.len() <= 64
    &&& forall|k: int| 0 <= k < def.effects@.len() ==> op_bounded((#[trigger] def.effects@[k]).op)
    &&& bonus_rules_bounded(def)
}

pub open spec fn income_table_bounded(v: Seq<(Continent, i64)>) -> bool {
    forall|k: int| 0 <= k < v.len() ==> mag((#[trigger] v[k]).1 as int)
}

pub open spec fn scenario_bounded(s: Scenario) -> bool {
    &&& -STOCK_MAX <= s.finance_start * 1000 <= STOCK_MAX
    &&& -STOCK_MAX <= s.mandate_start * 1000 <= STOCK_MAX
    &&& mag(s.mandate_max_start as int)
    &&& income_table_bounded(s.finance_income_milli@)
    &&& income_table_bounded(s.mandate_income_milli@)
    &&& forall|k: int|
        0 <= k < s.sector_baselines_milli_gt@.len() ==> mag(
            (#[trigger] s.sector_baselines_milli_gt@[k]).2 as int,
        )
    &&& 0 <= s.starting_variation_permille
    &&& 2 * s.starting_variation_permille < u32::MAX
    &&& s.opportunity_gap_ticks.0 <= s.opportunity_gap_ticks.1 <= MAG
    &&& s.opportunity_lifetime_ticks <= MAG
    &&& s.slot_milestones@.len() < u32::MAX
}

pub open spec fn opportunity_effect_bounded(e: OpportunityEffect) -> bool {
    match e {
        OpportunityEffect::FinanceGrant { units } => mag(units as int),
        OpportunityEffect::MandateBoost { milli } => mag(milli as int),
        OpportunityEffect::IconGrant { .. } => true,
    }
}

/// A catalogue whose authored magnitudes and list sizes keep every derived
/// quantity representable.
pub open spec fn catalogue_bounded(c: Catalogue) -> bool {
    &&& c.projects@.len() <= u32::MAX
    &&& c.opportunities@.len() <= u32::MAX
    &&& forall|k: int| 0 <= k < c.projects@.len() ==> def_bounded(#[trigger] c.projects@[k])
    &&& forall|k: int|
        0 <= k < c.opportunities@.len() ==> opportunity_effect_bounded(
            (#[trigger] c.opportunities@[k]).effect,
        )
    &&& scenario_bounded(c.scenario)
}

pub open spec fn completed_bounded(c: Catalogue, d: CompletedProject) -> bool {
    &&& d.project < c.projects@.len()
    &&& d.realized@.len() <= 64
    &&& forall|k: int| 0 <= k < d.realized@.len() ==> realized_op_bounded((#[trigger] d.realized@[k]).op)
}

pub open spec fn active_bounded(c: Catalogue, b: ActiveProject) -> bool {
    &&& b.project < c.projects@.len()
    &&& b.progress <= b.duration
    &&& 1 <= b.duration <= DUR_MAX
}

pub open spec fn grid_within<const N: usize>(g: [[i64; N]; 3], lo: int, hi: int) -> bool {
    forall|c: int, i: int| 0 <= c < 3 && 0 <= i < N ==> lo <= #[trigger] g[c][i] <= hi
}

/// The structural invariant of a run state against its catalogue.
pub open spec fn state_wf(c: Catalogue, s: RunState) -> bool {
    &&& inputs_wf(c, s)
    &&& grid_within(s.sector_emissions_milli, 0, 800_000_000_000_000_000)
}

/// The invariant of everything a derivation reads: the standing lists,
/// stocks, baselines and the slot ratchet.
pub open spec fn inputs_wf(c: Catalogue, s: RunState) -> bool {
    &&& catalogue_bounded(c)
    &&& s.completions_ever@.len() == c.projects@.len()
    &&& s.unlocked@.len() == c.projects@.len()
    &&& forall|k: int| 0 <= k < s.queue@.len() ==> (#[trigger] s.queue@[k]).project < c.projects@.len()
    &&& s.active@.len() <= LIST_MAX
    &&& forall|k: int| 0 <= k < s.active@.len() ==> active_bounded(c, #[trigger] s.active@[k])
    &&& s.completed@.len() <= LIST_MAX
    &&& forall|k: int| 0 <= k < s.completed@.len() ==> completed_bounded(c, #[trigger] s.completed@[k])
    &&& forall|k: int|
        0 <= k < s.opportunities@.len() ==> (#[trigger] s.opportunities@[k]).def
            < c.opportunities@.len()
    &&& grid_within(s.bonus_icons, 0, BONUS_ICON_MAX as int)
    &&& grid_within(s.baseline_emissions_milli, -BASE_MAX as int, BASE_MAX as int)
    &&& forall|k: int| 0 <= k < 3 ==> mag(#[trigger] s.baseline_finance_income_milli[k] as int)
    &&& forall|k: int| 0 <= k < 3 ==> mag(#[trigger] s.baseline_mandate_income_milli[k] as int)
    &&& -STOCK_MAX <= s.finance_milli <= STOCK_MAX
    &&& -STOCK_MAX <= s.mandate_milli <= STOCK_MAX
    &&& -10_000_000_000_000 <= s.mandate_max_milli <= 10_000_000_000_000
    &&& -10_000_000_000_000 <= s.finance_delta_milli <= 10_000_000_000_000
    &&& -10_000_000_000_000 <= s.mandate_delta_milli <= 10_000_000_000_000
    &&& grid_within(s.icons, 0, ICON_MAX as int)
    &&& 1 <= s.slots_total
}

// ------------------------------------------------------ the derived model

/// Whether a scoped effect of a project led on `lead` touches continent `c`.
pub open spec fn scope_covers(scope: Scope, lead: Continent, c: int) -> bool {
    match scope {
        Scope::Global | Scope::AllContinents => 0 <= c < 3,
        Scope::LeadContinent => c == continent_index(lead),
        Scope::Continent(x) | Scope::Spillover(x) => c == continent_index(x),
    }
}

/// A quantity that completed projects contribute to additively.
pub enum Measure {
    Icon(int, int),
    Reduction(int, int),
    FinanceDelta,
    MandateDelta,
    MandateMax,
    /// Cost modifiers that target the project with this id.
    CostModifier(Seq<char>),
    /// Duration modifiers that target the project with this id.
    DurationModifier(Seq<char>),
}

/// What one realised effect of a project led on `lead` adds to a measure.
pub open spec fn effect_measure(m: Measure, op: EffectOp, scope: Scope, lead: Continent) -> int {
    match m {
        Measure::Icon(c, i) => if scope_covers(scope, lead, c) {
            match op {
                EffectOp::AddIcon { icon, amount } => if icon_index(icon) == i {
                    amount as int
                } else {
                    0
                },
                EffectOp::RemoveIcon { icon, amount } => if icon_index(icon) == i {
                    -amount
                } else {
                    0
                },
                _ => 0,
            }
        } else {
            0
        },
        Measure::Reduction(c, s) => if scope_covers(scope, lead, c) {
            match op {
                EffectOp::ReduceSectorEmissions { sector, milli_gt } => if sector_index(sector)
                    == s {
                    milli_gt as int
                } else {
                    0
                },
                _ => 0,
            }
        } else {
            0
        },
        Measure::FinanceDelta => match op {
            EffectOp::AddFinanceIncome { milli_per_tick } => milli_per_tick as int,
            EffectOp::AddMaintenance { milli_per_tick } => -milli_per_tick,
            _ => 0,
        },
        Measure::MandateDelta => match op {
            EffectOp::AddMandateIncome { milli_per_tick } => milli_per_tick as int,
            _ => 0,
        },
        Measure::MandateMax => match op {
            EffectOp::AddMandateMaximum { milli } => milli as int,
            _ => 0,
        },
        Measure::CostModifier(id) => match op {
            EffectOp::ModifyProjectCost { project, permille } => if project@ == id {
                permille as int
            } else {
                0
            },
            _ => 0,
        },
        Measure::DurationModifier(id) => match op {
            EffectOp::ModifyProjectDuration { project, permille } => if project@ == id {
                permille as int
            } else {
                0
            },
            _ => 0,
        },
    }
}

pub open spec fn sum_effects(effs: Seq<RealizedEffect>, lead: Continent, m: Measure) -> int
    decreases effs.len(),
{
    if effs.len() == 0 {
        0
    } else {
        sum_effects(effs.drop_last(), lead, m) + effect_measure(
            m,
            effs.last().op,
            effs.last().scope,
            lead,
        )
    }
}

/// The total a list of completed projects contributes to a measure.
pub open spec fn sum_completed(done: Seq<CompletedProject>, m: Measure) -> int
    decreases done.len(),
{
    if done.len() == 0 {
        0
    } else {
        sum_completed(done.drop_last(), m) + sum_effects(done.last().realized@, done.last().lead, m)
    }
}

/// The reduction one authored effect of a linear-rollout build has delivered
/// so far on continent `c`, sector `s`, at the given bonus.
pub open spec fn rollout_effect(e: ScopedEffect, b: ActiveProject, bonus: int, c: int, s: int) -> int {
    match e.op {
        EffectOp::ReduceSectorEmissions { sector, milli_gt } => if sector_index(sector) == s
            && scope_covers(e.scope, b.lead, c) {
            tdiv(permille_of(milli_gt as int, bonus) * b.progress, b.duration as int)
        } else {
            0
        },
        _ => 0,
    }
}

pub open spec fn rollout_effects(
    effs: Seq<ScopedEffect>,
    b: ActiveProject,
    bonus: int,
    c: int,
    s: int,
) -> int
    decreases effs.len(),
{
    if effs.len() == 0 {
        0
    } else {
        rollout_effects(effs.drop_last(), b, bonus, c, s) + rollout_effect(
            effs.last(),
            b,
            bonus,
            c,
            s,
        )
    }
}

/// The partial reduction an active build has delivered so far: only
/// linear-rollout projects deliver before completion, at current scaling.
pub open spec fn active_partial(
    cat: Catalogue,
    b: ActiveProject,
    icons: [[i64; 4]; 3],
    c: int,
    s: int,
) -> int {
    let def = cat.projects@[b.project as int];
    if def.activation != Activation::LinearRollout || b.duration == 0 {
        0
    } else {
        rollout_effects(
            def.effects@,
            b,
            bonus_spec(def, icons[continent_index(b.lead)]),
            c,
            s,
        )
    }
}

pub open spec fn sum_active(
    cat: Catalogue,
    active: Seq<ActiveProject>,
    icons: [[i64; 4]; 3],
    c: int,
    s: int,
) -> int
    decreases active.len(),
{
    if active.len() == 0 {
        0
    } else {
        sum_active(cat, active.drop_last(), icons, c, s) + active_partial(
            cat,
            active.last(),
            icons,
            c,
            s,
        )
    }
}

pub open spec fn clamp0(x: int) -> int {
    if x < 0 {
        0
    } else {
        x
    }
}

/// The icon stock the standing completed list and grants give continent `c`.
pub open spec fn derived_icon(s: RunState, c: int, i: int) -> int {
    clamp0(s.bonus_icons[c][i] + sum_completed(s.completed@, Measure::Icon(c, i)))
}

/// The op unlocks project `k` of the catalogue: it names `k`'s id, and `k` is
/// the first project with that id.
pub open spec fn op_unlocks(cat: Catalogue, op: EffectOp, k: int) -> bool {
    match op {
        EffectOp::UnlockProject { project } => first_with_id(cat.projects@, k, project@),
        _ => false,
    }
}

/// Some realised effect in the list unlocks project `k`.
pub open spec fn effects_unlock(cat: Catalogue, effs: Seq<RealizedEffect>, k: int) -> bool {
    exists|j: int| 0 <= j < effs.len() && op_unlocks(cat, (#[trigger] effs[j]).op, k)
}

/// Some standing completed project unlocks project `k`.
pub open spec fn unlocked_by_completed(cat: Catalogue, done: Seq<CompletedProject>, k: int) -> bool {
    exists|d: int| 0 <= d < done.len() && effects_unlock(cat, (#[trigger] done[d]).realized@, k)
}

/// The emissions rate of continent `c`, sector `s`, given the derived icons.
pub open spec fn derived_emission(
    cat: Catalogue,
    s: RunState,
    icons: [[i64; 4]; 3],
    c: int,
    t: int,
) -> int {
    clamp0(
        s.baseline_emissions_milli[c][t] - sum_completed(s.completed@, Measure::Reduction(c, t))
            - sum_active(cat, s.active@, icons, c, t),
    )
}

pub open spec fn sum3(a: [i64; 3]) -> int {
    a[0] + a[1] + a[2]
}

pub open spec fn milestones_reached(ms: Seq<SlotMilestone>, best: int) -> int
    decreases ms.len(),
{
    if ms.len() == 0 {
        0
    } else {
        milestones_reached(ms.drop_last(), best) + if best >= ms.last().institutions {
            1int
        } else {
            0
        }
    }
}

pub open spec fn max3(a: int, b: int, c: int) -> int {
    if a >= b && a >= c {
        a
    } else if b >= c {
        b
    } else {
        c
    }
}

/// The best continental Institutions stock of an icon grid.
pub open spec fn best_institutions(icons: [[i64; 4]; 3]) -> int {
    max3(icons[0][3] as int, icons[1][3] as int, icons[2][3] as int)
}

/// `post` is `pre` with every derived field recomputed from the standing
/// lists, and the trace unchanged.
pub open spec fn derived_from(cat: Catalogue, pre: RunState, post: RunState) -> bool {
    derived_fields(cat, pre, post) && post.trace == pre.trace
}

/// `post` is `pre` with every derived field recomputed from the standing
/// lists: icons, the unlock ratchet, emissions (with linear-rollout partials
/// at current scaling), deltas, the mandate maximum and its cap on the stock,
/// and the ratcheting slot count. Nothing else changes but the trace, which
/// this does not constrain.
pub open spec fn derived_fields(cat: Catalogue, pre: RunState, post: RunState) -> bool {
    &&& forall|c: int, i: int|
        0 <= c < 3 && 0 <= i < 4 ==> #[trigger] post.icons[c][i] == derived_icon(pre, c, i)
    &&& post.unlocked@.len() == pre.unlocked@.len()
    &&& forall|k: int|
        0 <= k < pre.unlocked@.len() ==> #[trigger] post.unlocked@[k] == (pre.unlocked@[k]
            || unlocked_by_completed(cat, pre.completed@, k))
    &&& forall|c: int, t: int|
        0 <= c < 3 && 0 <= t < 3 ==> #[trigger] post.sector_emissions_milli[c][t]
            == derived_emission(cat, pre, post.icons, c, t)
    &&& post.finance_delta_milli == sum3(pre.baseline_finance_income_milli) + sum_completed(
        pre.completed@,
        Measure::FinanceDelta,
    )
    &&& post.mandate_delta_milli == sum3(pre.baseline_mandate_income_milli) + sum_completed(
        pre.completed@,
        Measure::MandateDelta,
    )
    &&& post.mandate_max_milli == cat.scenario.mandate_max_start * 1000 + sum_completed(
        pre.completed@,
        Measure::MandateMax,
    )
    &&& post.mandate_milli == if pre.mandate_milli <= post.mandate_max_milli {
        pre.mandate_milli as int
    } else {
        post.mandate_max_milli as int
    }
    &&& post.slots_total == if pre.slots_total >= 1 + milestones_reached(
        cat.scenario.slot_milestones@,
        best_institutions(post.icons),
    ) {
        pre.slots_total as int
    } else {
        1 + milestones_reached(cat.scenario.slot_milestones@, best_institutions(post.icons))
    }
    &&& post.tick == pre.tick
    &&& post.paused == pre.paused
    &&& post.seed == pre.seed
    &&& post.streams == pre.streams
    &&& post.baseline_emissions_milli == pre.baseline_emissions_milli
    &&& post.baseline_finance_income_milli == pre.baseline_finance_income_milli
    &&& post.baseline_mandate_income_milli == pre.baseline_mandate_income_milli
    &&& post.finance_milli == pre.finance_milli
    &&& post.bonus_icons == pre.bonus_icons
    &&& post.queue == pre.queue
    &&& post.active == pre.active
    &&& post.completed == pre.completed
    &&& post.completions_ever == pre.completions_ever
    &&& post.opportunities == pre.opportunities
    &&& post.next_opportunity_tick == pre.next_opportunity_tick
    &&& post.victory_tick == pre.victory_tick
    &&& post.last_block == pre.last_block
}

// ------------------------------------------------------------ read-outs

pub open spec fn total_emissions(s: RunState) -> int {
    sum3(s.sector_emissions_milli[0]) + sum3(s.sector_emissions_milli[1]) + sum3(
        s.sector_emissions_milli[2],
    )
}

/// Victory: gross global emissions at zero with non-negative Finance and
/// Mandate deltas.
pub open spec fn victory_spec(s: RunState) -> bool {
    total_emissions(s) == 0 && s.finance_delta_milli >= 0 && s.mandate_delta_milli >= 0
}

impl RunState {
    pub fn total_emissions_milli(&self) -> (r: i64)
        requires
            grid_within(self.sector_emissions_milli, 0, 800_000_000_000_000_000),
        ensures
            r == total_emissions(*self),
    {
        let e = &self.sector_emissions_milli;
        e[0][0] + e[0][1] + e[0][2] + e[1][0] + e[1][1] + e[1][2] + e[2][0] + e[2][1] + e[2][2]
    }

    pub fn continent_emissions_milli(&self, continent: Continent) -> (r: i64)
        requires
            grid_within(self.sector_emissions_milli, 0, 800_000_000_000_000_000),
        ensures
            r == sum3(self.sector_emissions_milli[continent_index(continent)]),
    {
        let row = &self.sector_emissions_milli[continent.index()];
        row[0] + row[1] + row[2]
    }

    /// The victory condition: gross global emissions at zero with
    /// non-negative Finance and Mandate deltas.
    pub fn victory_condition_met(&self) -> (r: bool)
        requires
            grid_within(self.sector_emissions_milli, 0, 800_000_000_000_000_000),
        ensures
            r == victory_spec(*self),
    {
        self.total_emissions_milli() == 0 && self.finance_delta_milli >= 0
            && self.mandate_delta_milli >= 0
    }
}

} // verus!
