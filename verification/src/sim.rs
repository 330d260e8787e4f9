//! The simulation: command application and the single, documented tick order.
//!
//! Each tick, in order: resolve pause (a paused tick is a pure no-op), accrue
//! Finance and Mandate, advance construction, complete eligible projects and
//! lock in their realised effects, rederive all derived state, advance
//! opportunity expiry and spawning, attempt the FIFO queue head (rederiving
//! if it starts), and test victory.

use vstd::prelude::*;
use vstd::string::*;

use crate::calc::{
    apply_permille, cost_multiplier_permille, curve_fits, curve_multiplier, in_i64,
    modifiers_view, permille_fits, permille_of, tdiv, CalcTrace, Modifier, MAG,
};
use crate::catalogue::{first_with_id, Catalogue};
use crate::derive::{derive_state, lemma_partial_small, measure_bound};
use crate::catalogue::id_exists;
use crate::command::{Command, LoggedCommand, Rejection};
use crate::schema::{EffectOp, OpportunityEffect, Prerequisite, ProjectDef, Repeat};
use crate::state::{
    catalogue_bounded, completed_bounded, def_bounded, derived_fields, state_wf, sum_completed,
    grid_within, ActiveProject, CompletedProject, Measure, OpenOpportunity, QueuedProject,
    RunState, BONUS_ICON_MAX, LIST_MAX, STOCK_MAX,
};
use crate::text::owned;
use crate::trace::{BlockReason, TraceEvent, TraceKind};
use crate::world::{Continent, continent_index, icon_index};

verus! {

/// The ruleset version. Replay records are version-specific.
pub const RULESET_VERSION: &'static str = "proto-1";

pub struct Sim {
    pub catalogue: Catalogue,
    pub state: RunState,
    pub log: Vec<LoggedCommand>,
}

// ------------------------------------------------------------- cost model

pub open spec fn cost_base(def: ProjectDef) -> int {
    def.finance_cost * 1000
}

/// The cost after the repeat curve, before external modifiers.
pub open spec fn curved_cost(def: ProjectDef, n: nat) -> int {
    tdiv(cost_base(def) * curve_multiplier(def.cost_curve, n), 1000)
}

/// Every intermediate of the cost computation fits, for `n` completions and
/// an external modifier total of `ext` permille.
pub open spec fn cost_fits_with(def: ProjectDef, n: nat, ext: int) -> bool {
    &&& curve_fits(def.cost_curve, n)
    &&& in_i64(curve_multiplier(def.cost_curve, n))
    &&& in_i64(cost_base(def) * curve_multiplier(def.cost_curve, n))
    &&& permille_fits(curved_cost(def, n), ext)
    &&& in_i64(curve_multiplier(def.cost_curve, n) - 1000)
    &&& in_i64(curve_multiplier(def.cost_curve, n) - 1000 + ext)
}

/// The external cost modifiers standing completions apply to project `p`.
pub open spec fn cost_external(cat: Catalogue, s: RunState, p: int) -> int {
    sum_completed(s.completed@, Measure::CostModifier(cat.projects@[p].id@))
}

/// The measure of the cost modifiers of project `id`, or else of its
/// duration modifiers.
pub open spec fn external_measure(id: Seq<char>, cost: bool) -> Measure {
    if cost {
        Measure::CostModifier(id)
    } else {
        Measure::DurationModifier(id)
    }
}

/// The external duration modifiers standing completions apply to project `p`.
pub open spec fn duration_external(cat: Catalogue, s: RunState, p: int) -> int {
    sum_completed(s.completed@, Measure::DurationModifier(cat.projects@[p].id@))
}

pub open spec fn cost_fits(cat: Catalogue, s: RunState, p: int) -> bool {
    cost_fits_with(
        cat.projects@[p],
        s.completions_ever@[p] as nat,
        cost_external(cat, s, p),
    )
}

/// The current Finance cost (milli) of starting project `p`: base, then the
/// repeat curve, then external cost modifiers.
pub open spec fn cost_spec(cat: Catalogue, s: RunState, p: int) -> int {
    permille_of(curved_cost(cat.projects@[p], s.completions_ever@[p] as nat), cost_external(cat, s, p))
}

/// The calculation trace of project `p`'s current cost: the base, the
/// repeat-curve modifier, then each external cost modifier in the order the
/// standing completions apply it, and the final value.
pub open spec fn cost_trace_of(cat: Catalogue, s: RunState, p: int, t: CalcTrace) -> bool {
    let def = cat.projects@[p];
    let curve = curve_multiplier(def.cost_curve, s.completions_ever@[p] as nat);
    &&& t.final_value == cost_spec(cat, s, p)
    &&& t.base == cost_base(def)
    &&& t.bonus_permille == (curve - 1000) + cost_external(cat, s, p)
    &&& modifiers_view(t.modifiers@) == seq![("repeat-curve"@, curve - 1000)] + cost_modifiers(
        cat,
        s.completed@,
        def.id@,
    )
}

/// The current duration of project `p`, after duration modifiers, at least 1.
pub open spec fn duration_spec(cat: Catalogue, s: RunState, p: int) -> int {
    let d = permille_of(cat.projects@[p].duration_ticks as int, duration_external(cat, s, p));
    if d < 1 {
        1
    } else {
        d
    }
}

/// The named cost modifiers one completed project contributes to project `id`.
pub open spec fn effect_cost_modifiers(
    effs: Seq<crate::state::RealizedEffect>,
    id: Seq<char>,
    source: Seq<char>,
) -> Seq<(Seq<char>, int)>
    decreases effs.len(),
{
    if effs.len() == 0 {
        seq![]
    } else {
        effect_cost_modifiers(effs.drop_last(), id, source) + match effs.last().op {
            EffectOp::ModifyProjectCost { project, permille } => if project@ == id {
                seq![("modifier:"@ + source, permille as int)]
            } else {
                seq![]
            },
            _ => seq![],
        }
    }
}

/// The named cost modifiers, in order, the standing completions apply to `id`.
pub open spec fn cost_modifiers(cat: Catalogue, done: Seq<CompletedProject>, id: Seq<char>) -> Seq<
    (Seq<char>, int),
>
    decreases done.len(),
{
    if done.len() == 0 {
        seq![]
    } else {
        cost_modifiers(cat, done.drop_last(), id) + effect_cost_modifiers(
            done.last().realized@,
            id,
            cat.projects@[done.last().project as int].id@,
        )
    }
}

// ------------------------------------------------------------- head checks

pub open spec fn count_active_of(active: Seq<ActiveProject>, p: u32) -> int
    decreases active.len(),
{
    if active.len() == 0 {
        0
    } else {
        count_active_of(active.drop_last(), p) + if active.last().project == p {
            1int
        } else {
            0
        }
    }
}

pub open spec fn count_active_at(active: Seq<ActiveProject>, p: u32, lead: Continent) -> int
    decreases active.len(),
{
    if active.len() == 0 {
        0
    } else {
        count_active_at(active.drop_last(), p, lead) + if active.last().project == p
            && active.last().lead == lead {
            1int
        } else {
            0
        }
    }
}

pub open spec fn count_completed_at(done: Seq<CompletedProject>, p: u32, lead: Continent) -> int
    decreases done.len(),
{
    if done.len() == 0 {
        0
    } else {
        count_completed_at(done.drop_last(), p, lead) + if done.last().project == p
            && done.last().lead == lead {
            1int
        } else {
            0
        }
    }
}

/// The repeat rule forbids another build of the head right now.
pub open spec fn repeat_blocked(s: RunState, def: ProjectDef, head: QueuedProject) -> bool {
    let n = s.completions_ever@[head.project as int] as int;
    let a = count_active_of(s.active@, head.project);
    match def.repeat {
        Repeat::Unique => n + a >= 1,
        Repeat::Repeatable => false,
        Repeat::Tiered { count } => n + a >= count,
        Repeat::CappedRollout { per_continent } => count_completed_at(
            s.completed@,
            head.project,
            head.lead,
        ) + count_active_at(s.active@, head.project, head.lead) >= per_continent,
    }
}

/// A standing completion of the project with id `id` (on `lead`, when given).
pub open spec fn has_completion(
    cat: Catalogue,
    done: Seq<CompletedProject>,
    id: Seq<char>,
    lead: Option<Continent>,
) -> bool {
    exists|d: int|
        0 <= d < done.len() && cat.projects@[(#[trigger] done[d]).project as int].id@ == id && (
        match lead {
            Some(l) => done[d].lead == l,
            None => true,
        })
}

/// Why one prerequisite is unmet, if it is.
pub open spec fn prerequisite_block(
    cat: Catalogue,
    s: RunState,
    lead: Continent,
    q: Prerequisite,
) -> Option<BlockReason> {
    match q {
        Prerequisite::IconAtLeast { icon, amount } => {
            let have = s.icons[continent_index(lead)][icon_index(icon)];
            if have < amount {
                Some(BlockReason::MissingIcon { icon, needed: amount, have })
            } else {
                None
            }
        },
        Prerequisite::CompletedOnLead { project } => if has_completion(
            cat,
            s.completed@,
            project@,
            Some(lead),
        ) {
            None
        } else {
            Some(BlockReason::MissingProject { project })
        },
        Prerequisite::CompletedAnywhere { project } => if has_completion(
            cat,
            s.completed@,
            project@,
            None,
        ) {
            None
        } else {
            Some(BlockReason::MissingProject { project })
        },
    }
}

/// The first unmet prerequisite, in authored order.
pub open spec fn prerequisites_block(
    cat: Catalogue,
    s: RunState,
    lead: Continent,
    qs: Seq<Prerequisite>,
) -> Option<BlockReason>
    decreases qs.len(),
{
    if qs.len() == 0 {
        None
    } else {
        match prerequisites_block(cat, s, lead, qs.drop_last()) {
            Some(r) => Some(r),
            None => prerequisite_block(cat, s, lead, qs.last()),
        }
    }
}

/// The head clears the unlock, repeat, prerequisite and slot checks, so its
/// cost is computed.
pub open spec fn head_reaches_cost(cat: Catalogue, s: RunState, head: QueuedProject) -> bool {
    let def = cat.projects@[head.project as int];
    &&& s.unlocked@[head.project as int]
    &&& !repeat_blocked(s, def, head)
    &&& prerequisites_block(cat, s, head.lead, def.prerequisites@) is None
    &&& s.active@.len() < s.slots_total
}

/// Why the queue head cannot start right now, in the fixed order: unlock,
/// repeat limit, prerequisites, slot, finance, mandate; `None` if it can.
pub open spec fn head_block_spec(cat: Catalogue, s: RunState, head: QueuedProject) -> Option<
    BlockReason,
> {
    let p = head.project as int;
    let def = cat.projects@[p];
    if !s.unlocked@[p] {
        Some(BlockReason::NotUnlocked)
    } else if repeat_blocked(s, def, head) {
        Some(BlockReason::RepeatLimitReached)
    } else if prerequisites_block(cat, s, head.lead, def.prerequisites@) is Some {
        prerequisites_block(cat, s, head.lead, def.prerequisites@)
    } else if s.active@.len() >= s.slots_total {
        Some(BlockReason::NoFreeSlot)
    } else if s.finance_milli < cost_spec(cat, s, p) {
        Some(
            BlockReason::InsufficientFinance {
                needed_milli: cost_spec(cat, s, p) as i64,
                have_milli: s.finance_milli,
            },
        )
    } else if s.mandate_milli < def.mandate_cost * 1000 {
        Some(
            BlockReason::InsufficientMandate {
                needed_milli: (def.mandate_cost * 1000) as i64,
                have_milli: s.mandate_milli,
            },
        )
    } else {
        None
    }
}

/// The slot event a rederive reports when the slot count grew.
pub open spec fn slot_events(before: u32, after: u32, tick: u64) -> Seq<TraceEvent> {
    if after > before {
        seq![TraceEvent { tick, kind: TraceKind::SlotUnlocked { total: after } }]
    } else {
        seq![]
    }
}

/// `post` is `pre` rederived, with a slot event traced if slots grew.
pub open spec fn rederived(cat: Catalogue, pre: RunState, post: RunState) -> bool {
    &&& derived_fields(cat, pre, post)
    &&& post.trace@ == pre.trace@ + slot_events(pre.slots_total, post.slots_total, pre.tick)
}

/// Once a prefix of the prerequisites is blocked, the whole list reports the
/// same first block.
proof fn lemma_first_block_persists(
    cat: Catalogue,
    s: RunState,
    lead: Continent,
    qs: Seq<Prerequisite>,
    k: int,
)
    requires
        0 <= k <= qs.len(),
        prerequisites_block(cat, s, lead, qs.take(k)) is Some,
    ensures
        prerequisites_block(cat, s, lead, qs) == prerequisites_block(cat, s, lead, qs.take(k)),
    decreases qs.len() - k,
{
    if k < qs.len() {
        assert(qs.take(k + 1).drop_last() =~= qs.take(k));
        lemma_first_block_persists(cat, s, lead, qs, k + 1);
    } else {
        assert(qs.take(k) =~= qs);
    }
}

/// A cost that fits its computation lies within 10^16 milli-units.
pub proof fn lemma_cost_magnitude(cat: Catalogue, s: RunState, p: int)
    requires
        cost_fits(cat, s, p),
    ensures
        -10_000_000_000_000_000 <= cost_spec(cat, s, p) <= 10_000_000_000_000_000,
{
    let v = curved_cost(cat.projects@[p], s.completions_ever@[p] as nat);
    let e = cost_external(cat, s, p);
    let a = v * (1000 + e);
    assert(in_i64(a));
    if a >= 0 {
        assert(a / 1000 <= 10_000_000_000_000_000) by (nonlinear_arith)
            requires
                0 <= a <= 9_223_372_036_854_775_807,
        ;
    } else {
        assert((-a) / 1000 <= 10_000_000_000_000_000) by (nonlinear_arith)
            requires
                0 < -a <= 9_223_372_036_854_775_808,
        ;
    }
}

/// The index of the first project with id `id`.
pub open spec fn id_index(projects: Seq<ProjectDef>, id: Seq<char>) -> int {
    choose|k: int| first_with_id(projects, k, id)
}

/// The trace events a command that rederives appends: its own event, then a
/// slot event if slots grew.
pub open spec fn events_then_slots(
    pre: RunState,
    post: RunState,
    event: TraceEvent,
) -> bool {
    post.trace@ == pre.trace@.push(event) + slot_events(pre.slots_total, post.slots_total, pre.tick)
}

/// A claim of `open` keeps the run within the range it is kept in: the
/// Finance or Mandate a grant moves stays within the stock bound, and a
/// granted icon within the bonus-icon bound.
pub open spec fn claim_fits(cat: Catalogue, s: RunState, open: OpenOpportunity) -> bool {
    match cat.opportunities@[open.def as int].effect {
        OpportunityEffect::FinanceGrant { units } => -STOCK_MAX <= s.finance_milli + units * 1000 <= STOCK_MAX,
        OpportunityEffect::MandateBoost { milli } => -STOCK_MAX <= s.mandate_milli + milli,
        OpportunityEffect::IconGrant { icon } => s.bonus_icons[continent_index(open.continent)][icon_index(icon)]
            < BONUS_ICON_MAX,
    }
}

/// What a command needs to be applied: a claim of an open opportunity needs
/// room for its grant; every other command, and every refused claim, needs
/// nothing.
pub open spec fn command_fits(cat: Catalogue, s: RunState, command: Command) -> bool {
    match command {
        Command::ClaimOpportunity { index } => index < s.opportunities@.len() ==> claim_fits(
            cat,
            s,
            s.opportunities@[index as int],
        ),
        _ => true,
    }
}

/// What an accepted claim of opportunity `open` does before rederiving.
pub open spec fn claim_effect(cat: Catalogue, pre: RunState, post: RunState, open: OpenOpportunity) -> bool {
    let effect = cat.opportunities@[open.def as int].effect;
    let mid_mandate: i64 = match effect {
        OpportunityEffect::MandateBoost { milli } => if pre.mandate_milli + milli <= pre.mandate_max_milli {
            (pre.mandate_milli + milli) as i64
        } else {
            pre.mandate_max_milli
        },
        _ => pre.mandate_milli,
    };
    &&& derived_fields(
        cat,
        RunState {
            opportunities: post.opportunities,
            finance_milli: post.finance_milli,
            bonus_icons: post.bonus_icons,
            mandate_milli: mid_mandate,
            ..pre
        },
        post,
    )
    &&& post.finance_milli == match effect {
        OpportunityEffect::FinanceGrant { units } => pre.finance_milli + units * 1000,
        _ => pre.finance_milli as int,
    }
    &&& forall|c: int, i: int|
        0 <= c < 3 && 0 <= i < 4 ==> #[trigger] post.bonus_icons[c][i] == pre.bonus_icons[c][i] + match effect {
            OpportunityEffect::IconGrant { icon } => if c == continent_index(open.continent) && i
                == icon_index(icon) {
                1int
            } else {
                0
            },
            _ => 0,
        }
}

/// What applying a command does: an exact account of the accepted outcome
/// of each command, and of each rejection, which changes nothing.
pub open spec fn apply_spec(
    cat: Catalogue,
    pre: RunState,
    command: Command,
    post: RunState,
    r: Result<(), Rejection>,
) -> bool {
    match command {
        Command::QueueProject { project, lead } => if !id_exists(cat.projects@, project@) {
            r == Err::<(), Rejection>(Rejection::UnknownProject { id: project }) && post == pre
        } else {
            &&& r is Ok
            &&& post == RunState { queue: post.queue, ..pre }
            &&& post.queue@ == pre.queue@.push(
                QueuedProject { project: id_index(cat.projects@, project@) as u32, lead },
            )
        },
        Command::RemoveQueuedProject { index } => if index >= pre.queue@.len() {
            r == Err::<(), Rejection>(Rejection::InvalidIndex) && post == pre
        } else {
            &&& r is Ok
            &&& post == RunState { queue: post.queue, ..pre }
            &&& post.queue@ == pre.queue@.remove(index as int)
        },
        Command::ReorderQueue { from, to } => if from >= pre.queue@.len() || to >= pre.queue@.len() {
            r == Err::<(), Rejection>(Rejection::InvalidIndex) && post == pre
        } else {
            &&& r is Ok
            &&& post == RunState { queue: post.queue, ..pre }
            &&& post.queue@ == pre.queue@.remove(from as int).insert(to as int, pre.queue@[from as int])
        },
        Command::SelectProjectLeadContinent { index, lead } => if index >= pre.queue@.len() {
            r == Err::<(), Rejection>(Rejection::InvalidIndex) && post == pre
        } else {
            &&& r is Ok
            &&& post == RunState { queue: post.queue, ..pre }
            &&& post.queue@ == pre.queue@.update(
                index as int,
                QueuedProject { project: pre.queue@[index as int].project, lead },
            )
        },
        Command::CancelActiveProject { index } => if index >= pre.active@.len() {
            r == Err::<(), Rejection>(Rejection::InvalidIndex) && post == pre
        } else {
            let build = pre.active@[index as int];
            &&& r is Ok
            &&& post.active@ == pre.active@.remove(index as int)
            &&& derived_fields(cat, RunState { active: post.active, ..pre }, post)
            &&& events_then_slots(
                pre,
                post,
                TraceEvent {
                    tick: pre.tick,
                    kind: TraceKind::ProjectCancelled {
                        project: cat.projects@[build.project as int].id,
                        lead: build.lead,
                    },
                },
            )
        },
        Command::DecommissionProject { index } => if index >= pre.completed@.len() {
            r == Err::<(), Rejection>(Rejection::InvalidIndex) && post == pre
        } else {
            let entry = pre.completed@[index as int];
            &&& r is Ok
            &&& post.completed@ == pre.completed@.remove(index as int)
            &&& derived_fields(cat, RunState { completed: post.completed, ..pre }, post)
            &&& events_then_slots(
                pre,
                post,
                TraceEvent {
                    tick: pre.tick,
                    kind: TraceKind::ProjectDecommissioned {
                        project: cat.projects@[entry.project as int].id,
                        lead: entry.lead,
                    },
                },
            )
        },
        Command::Pause => if pre.paused {
            r == Err::<(), Rejection>(Rejection::AlreadyPaused) && post == pre
        } else {
            r is Ok && post == RunState { paused: true, ..pre }
        },
        Command::Resume => if !pre.paused {
            r == Err::<(), Rejection>(Rejection::NotPaused) && post == pre
        } else {
            r is Ok && post == RunState { paused: false, ..pre }
        },
        Command::ClaimOpportunity { index } => if index >= pre.opportunities@.len() {
            r == Err::<(), Rejection>(Rejection::InvalidIndex) && post == pre
        } else {
            let open = pre.opportunities@[index as int];
            &&& r is Ok
            &&& post.opportunities@ == pre.opportunities@.remove(index as int)
            &&& claim_effect(cat, pre, post, open)
            &&& events_then_slots(
                pre,
                post,
                TraceEvent {
                    tick: pre.tick,
                    kind: TraceKind::OpportunityClaimed { id: cat.opportunities@[open.def as int].id },
                },
            )
        },
    }
}

/// The log entry recording a command and its outcome at tick `tick`.
pub open spec fn logged(tick: u64, command: Command, r: Result<(), Rejection>) -> LoggedCommand {
    LoggedCommand {
        tick,
        command,
        rejection: match r {
            Ok(_) => None,
            Err(e) => Some(e),
        },
    }
}

impl Sim {
    /// The catalogue this run plays.
    pub open spec fn cat(&self) -> Catalogue {
        self.catalogue
    }

    /// The run is well formed against its catalogue.
    pub open spec fn wf(&self) -> bool {
        state_wf(self.cat(), self.state)
    }

    pub fn catalogue(&self) -> (r: &Catalogue)
        ensures
            *r == self.cat(),
    {
        &self.catalogue
    }

    /// The current cost of starting a project, with the full calculation
    /// trace: base, repeat-curve multiplier, then external cost modifiers.
    pub fn current_cost_milli(&self, project: usize, lead: Continent) -> (r: (i64, CalcTrace))
        requires
            self.wf(),
            project < self.cat().projects@.len(),
            cost_fits(self.cat(), self.state, project as int),
        ensures
            r.0 == cost_spec(self.cat(), self.state, project as int),
            cost_trace_of(self.cat(), self.state, project as int, r.1),
    {
        let def = &self.catalogue.projects[project];
        assert(def_bounded(*def));
        let base = def.finance_cost * 1000;
        let mut modifiers: Vec<Modifier> = Vec::new();
        let curve = cost_multiplier_permille(def.cost_curve, self.state.completions_ever[project]);
        modifiers.push(Modifier { name: owned("repeat-curve"), permille: curve - 1000 });
        let value = base * curve / 1000;
        let ghost id = def.id@;
        let ghost m = Measure::CostModifier(id);
        let ghost done = self.state.completed@;
        assert(measure_bound(m) == MAG);
        let mut external: i64 = 0;
        let mut d: usize = 0;
        assert(modifiers_view(modifiers@) =~= seq![("repeat-curve"@, curve - 1000)]);
        while d < self.state.completed.len()
            invariant
                self.wf(),
                project < self.cat().projects@.len(),
                *def == self.cat().projects@[project as int],
                id == def.id@,
                m == Measure::CostModifier(id),
                measure_bound(m) == MAG,
                done == self.state.completed@,
                d <= done.len(),
                external == sum_completed(done.take(d as int), m),
                modifiers_view(modifiers@) == seq![("repeat-curve"@, curve - 1000)] + cost_modifiers(
                    self.cat(),
                    done.take(d as int),
                    id,
                ),
            decreases done.len() - d,
        {
            let entry = &self.state.completed[d];
            assert(completed_bounded(self.cat(), *entry));
            let source = &self.catalogue.projects[entry.project as usize].id;
            let ghost pre = done.take(d as int);
            let ghost head_mods = modifiers_view(modifiers@);
            let mut j: usize = 0;
            while j < entry.realized.len()
                invariant
                    self.wf(),
                    d < done.len(),
                    *entry == done[d as int],
                    completed_bounded(self.cat(), *entry),
                    *source == self.cat().projects@[entry.project as int].id,
                    pre == done.take(d as int),
                    id == def.id@,
                    m == Measure::CostModifier(id),
                    measure_bound(m) == MAG,
                    done == self.state.completed@,
                    j <= entry.realized@.len(),
                    external == sum_completed(pre, m) + crate::state::sum_effects(
                        entry.realized@.take(j as int),
                        entry.lead,
                        m,
                    ),
                    modifiers_view(modifiers@) == head_mods + effect_cost_modifiers(
                        entry.realized@.take(j as int),
                        id,
                        source@,
                    ),
                decreases entry.realized@.len() - j,
            {
                let ghost effs2 = entry.realized@.take(j as int + 1);
                assert(effs2.drop_last() =~= entry.realized@.take(j as int));
                assert(effs2.last() == entry.realized@[j as int]);
                assert forall|k: int| 0 <= k < effs2.len() implies crate::state::realized_op_bounded(
                    (#[trigger] effs2[k]).op,
                ) by {
                    assert(effs2[k] == entry.realized@[k]);
                }
                proof {
                    lemma_partial_small(self.cat(), done, d as int, effs2, entry.lead, m);
                }
                let ghost before = modifiers_view(modifiers@);
                let ghost ext_before = external;
                assert(crate::state::sum_effects(effs2, entry.lead, m) == crate::state::sum_effects(
                    entry.realized@.take(j as int),
                    entry.lead,
                    m,
                ) + crate::state::effect_measure(m, effs2.last().op, effs2.last().scope, entry.lead));
                assert(effect_cost_modifiers(effs2, id, source@) == effect_cost_modifiers(
                    entry.realized@.take(j as int),
                    id,
                    source@,
                ) + match effs2.last().op {
                    EffectOp::ModifyProjectCost { project, permille } => if project@ == id {
                        seq![("modifier:"@ + source@, permille as int)]
                    } else {
                        seq![]
                    },
                    _ => seq![],
                });
                if let EffectOp::ModifyProjectCost { project: target, permille } = &entry.realized[j].op {
                    if *target == def.id {
                        let name = owned("modifier:").concat(source.as_str());
                        modifiers.push(Modifier { name, permille: *permille });
                        external = external + *permille;
                        assert(modifiers_view(modifiers@) =~= before + seq![
                            ("modifier:"@ + source@, *permille as int),
                        ]);
                    } else {
                        assert(before =~= before + Seq::<(Seq<char>, int)>::empty());
                    }
                } else {
                    assert(before =~= before + Seq::<(Seq<char>, int)>::empty());
                }
                j = j + 1;
            }
            assert(entry.realized@.take(entry.realized@.len() as int) =~= entry.realized@);
            assert(done.take(d as int + 1).drop_last() =~= pre);
            assert(done.take(d as int + 1).last() == *entry);
            d = d + 1;
        }
        assert(done.take(done.len() as int) =~= done);
        let final_value = apply_permille(value, external);
        let trace = CalcTrace {
            base,
            bonus_permille: (curve - 1000) + external,
            modifiers,
            final_value,
        };
        (final_value, trace)
    }

    fn count_active_of_exec(&self, project: u32) -> (r: u32)
        requires
            self.wf(),
        ensures
            r == count_active_of(self.state.active@, project),
            r <= LIST_MAX,
    {
        let mut n: u32 = 0;
        let mut k: usize = 0;
        while k < self.state.active.len()
            invariant
                self.wf(),
                k <= self.state.active@.len(),
                n == count_active_of(self.state.active@.take(k as int), project),
                n <= k,
            decreases self.state.active@.len() - k,
        {
            assert(self.state.active@.take(k as int + 1).drop_last() =~= self.state.active@.take(k as int));
            if self.state.active[k].project == project {
                n = n + 1;
            }
            k = k + 1;
        }
        assert(self.state.active@.take(self.state.active@.len() as int) =~= self.state.active@);
        n
    }

    fn count_active_at_exec(&self, project: u32, lead: Continent) -> (r: u32)
        requires
            self.wf(),
        ensures
            r == count_active_at(self.state.active@, project, lead),
            r <= LIST_MAX,
    {
        let mut n: u32 = 0;
        let mut k: usize = 0;
        while k < self.state.active.len()
            invariant
                self.wf(),
                k <= self.state.active@.len(),
                n == count_active_at(self.state.active@.take(k as int), project, lead),
                n <= k,
            decreases self.state.active@.len() - k,
        {
            assert(self.state.active@.take(k as int + 1).drop_last() =~= self.state.active@.take(k as int));
            if self.state.active[k].project == project && self.state.active[k].lead == lead {
                n = n + 1;
            }
            k = k + 1;
        }
        assert(self.state.active@.take(self.state.active@.len() as int) =~= self.state.active@);
        n
    }

    fn count_completed_at_exec(&self, project: u32, lead: Continent) -> (r: u32)
        requires
            self.wf(),
        ensures
            r == count_completed_at(self.state.completed@, project, lead),
            r <= LIST_MAX,
    {
        let mut n: u32 = 0;
        let mut k: usize = 0;
        while k < self.state.completed.len()
            invariant
                self.wf(),
                k <= self.state.completed@.len(),
                n == count_completed_at(self.state.completed@.take(k as int), project, lead),
                n <= k,
            decreases self.state.completed@.len() - k,
        {
            assert(self.state.completed@.take(k as int + 1).drop_last() =~= self.state.completed@.take(k as int));
            if self.state.completed[k].project == project && self.state.completed[k].lead == lead {
                n = n + 1;
            }
            k = k + 1;
        }
        assert(self.state.completed@.take(self.state.completed@.len() as int) =~= self.state.completed@);
        n
    }

    fn has_completion_exec(&self, id: &String, lead: Option<Continent>) -> (r: bool)
        requires
            self.wf(),
        ensures
            r == has_completion(self.cat(), self.state.completed@, id@, lead),
    {
        let mut k: usize = 0;
        while k < self.state.completed.len()
            invariant
                self.wf(),
                k <= self.state.completed@.len(),
                forall|d: int|
                    0 <= d < k ==> !(self.cat().projects@[(#[trigger] self.state.completed@[d]).project as int].id@
                        == id@ && (match lead {
                        Some(l) => self.state.completed@[d].lead == l,
                        None => true,
                    })),
            decreases self.state.completed@.len() - k,
        {
            let done = &self.state.completed[k];
            assert(completed_bounded(self.cat(), *done));
            let lead_ok = match lead {
                Some(l) => done.lead == l,
                None => true,
            };
            if self.catalogue.projects[done.project as usize].id == *id && lead_ok {
                return true;
            }
            k = k + 1;
        }
        false
    }

    /// Why the queue head cannot start right now, or `None` if it can.
    /// Checked in a fixed order: unlock, repeat limit, prerequisites, slot,
    /// finance, mandate.
    pub fn head_block(&self, head: QueuedProject) -> (r: Option<BlockReason>)
        requires
            self.wf(),
            head.project < self.cat().projects@.len(),
            head_reaches_cost(self.cat(), self.state, head) ==> cost_fits(
                self.cat(),
                self.state,
                head.project as int,
            ),
        ensures
            r == head_block_spec(self.cat(), self.state, head),
    {
        let project = head.project as usize;
        let def = &self.catalogue.projects[project];
        assert(def_bounded(*def));
        let state = &self.state;

        if !state.unlocked[project] {
            return Some(BlockReason::NotUnlocked);
        }

        let active_count = self.count_active_of_exec(head.project);
        let limit_reached = match def.repeat {
            Repeat::Unique => state.completions_ever[project] as u64 + active_count as u64 >= 1,
            Repeat::Repeatable => false,
            Repeat::Tiered { count } => state.completions_ever[project] as u64 + active_count as u64
                >= count as u64,
            Repeat::CappedRollout { per_continent } => {
                let standing = self.count_completed_at_exec(head.project, head.lead);
                let building = self.count_active_at_exec(head.project, head.lead);
                standing + building >= per_continent
            },
        };
        if limit_reached {
            return Some(BlockReason::RepeatLimitReached);
        }

        let mut k: usize = 0;
        while k < def.prerequisites.len()
            invariant
                self.wf(),
                *def == self.cat().projects@[project as int],
                project == head.project,
                head.project < self.cat().projects@.len(),
                self.state.unlocked@[project as int],
                !repeat_blocked(self.state, *def, head),
                k <= def.prerequisites@.len(),
                prerequisites_block(self.cat(), self.state, head.lead, def.prerequisites@.take(k as int)) is None,
            decreases def.prerequisites@.len() - k,
        {
            let ghost qs = def.prerequisites@.take(k as int + 1);
            assert(qs.drop_last() =~= def.prerequisites@.take(k as int));
            assert(qs.last() == def.prerequisites@[k as int]);
            match &def.prerequisites[k] {
                Prerequisite::IconAtLeast { icon, amount } => {
                    let have = self.state.icons[head.lead.index()][icon.index()];
                    if have < *amount {
                        assert(prerequisites_block(self.cat(), self.state, head.lead, def.prerequisites@) == prerequisites_block(self.cat(), self.state, head.lead, qs)) by {
                            lemma_first_block_persists(self.cat(), self.state, head.lead, def.prerequisites@, k as int + 1);
                        }
                        return Some(BlockReason::MissingIcon { icon: *icon, needed: *amount, have });
                    }
                },
                Prerequisite::CompletedOnLead { project: required } => {
                    if !self.has_completion_exec(required, Some(head.lead)) {
                        assert(prerequisites_block(self.cat(), self.state, head.lead, def.prerequisites@) == prerequisites_block(self.cat(), self.state, head.lead, qs)) by {
                            lemma_first_block_persists(self.cat(), self.state, head.lead, def.prerequisites@, k as int + 1);
                        }
                        return Some(BlockReason::MissingProject { project: required.clone() });
                    }
                },
                Prerequisite::CompletedAnywhere { project: required } => {
                    if !self.has_completion_exec(required, None) {
                        assert(prerequisites_block(self.cat(), self.state, head.lead, def.prerequisites@) == prerequisites_block(self.cat(), self.state, head.lead, qs)) by {
                            lemma_first_block_persists(self.cat(), self.state, head.lead, def.prerequisites@, k as int + 1);
                        }
                        return Some(BlockReason::MissingProject { project: required.clone() });
                    }
                },
            }
            k = k + 1;
        }
        assert(def.prerequisites@.take(def.prerequisites@.len() as int) =~= def.prerequisites@);

        if state.active.len() as u32 >= state.slots_total {
            return Some(BlockReason::NoFreeSlot);
        }

        let (cost_milli, _) = self.current_cost_milli(project, head.lead);
        if state.finance_milli < cost_milli {
            return Some(
                BlockReason::InsufficientFinance {
                    needed_milli: cost_milli,
                    have_milli: state.finance_milli,
                },
            );
        }
        let mandate_milli = def.mandate_cost * 1000;
        if state.mandate_milli < mandate_milli {
            return Some(
                BlockReason::InsufficientMandate {
                    needed_milli: mandate_milli,
                    have_milli: state.mandate_milli,
                },
            );
        }
        None
    }

    /// Rederive every derived field from the standing lists, tracing a slot
    /// event when the slot count grows.
    pub fn rederive(&mut self)
        requires
            crate::state::inputs_wf(old(self).cat(), old(self).state),
        ensures
            final(self).wf(),
            final(self).catalogue == old(self).catalogue,
            final(self).log == old(self).log,
            rederived(old(self).cat(), old(self).state, final(self).state),
    {
        let previous_slots = self.state.slots_total;
        let ghost pre = self.state;
        derive_state(&self.catalogue, &mut self.state);
        if self.state.slots_total > previous_slots {
            let tick = self.state.tick;
            let total = self.state.slots_total;
            self.state.trace.push(TraceEvent { tick, kind: TraceKind::SlotUnlocked { total } });
            assert(self.state.trace@ =~= pre.trace@ + slot_events(pre.slots_total, self.state.slots_total, pre.tick));
        } else {
            assert(self.state.trace@ =~= pre.trace@ + slot_events(pre.slots_total, self.state.slots_total, pre.tick));
        }
    }

    /// Apply one semantic command and log the outcome. Rejected commands
    /// change nothing but the log.
    pub fn execute(&mut self, command: Command) -> (r: Result<(), Rejection>)
        requires
            old(self).wf(),
            command_fits(old(self).cat(), old(self).state, command),
        ensures
            final(self).wf(),
            final(self).catalogue == old(self).catalogue,
            apply_spec(old(self).cat(), old(self).state, command, final(self).state, r),
            final(self).log@ == old(self).log@.push(logged(old(self).state.tick, command, r)),
    {
        let result = self.apply(&command);
        let rejection = match &result {
            Ok(()) => None,
            Err(e) => Some(e.duplicate()),
        };
        self.log.push(LoggedCommand { tick: self.state.tick, command, rejection });
        result
    }

    fn apply(&mut self, command: &Command) -> (r: Result<(), Rejection>)
        requires
            old(self).wf(),
            command_fits(old(self).cat(), old(self).state, *command),
        ensures
            final(self).wf(),
            final(self).catalogue == old(self).catalogue,
            final(self).log == old(self).log,
            final(self).state.tick == old(self).state.tick,
            apply_spec(old(self).cat(), old(self).state, *command, final(self).state, r),
    {
        match command {
            Command::QueueProject { project, lead } => {
                match self.catalogue.project_index(project.as_str()) {
                    None => Err(Rejection::UnknownProject { id: project.clone() }),
                    Some(index) => {
                        self.state.queue.push(QueuedProject { project: index as u32, lead: *lead });
                        assert(self.state.queue@.last().project == id_index(self.cat().projects@, project@) as u32);
                        Ok(())
                    },
                }
            },
            Command::RemoveQueuedProject { index } => {
                let index = *index as usize;
                if index >= self.state.queue.len() {
                    return Err(Rejection::InvalidIndex);
                }
                self.state.queue.remove(index);
                Ok(())
            },
            Command::ReorderQueue { from, to } => {
                let (from, to) = (*from as usize, *to as usize);
                if from >= self.state.queue.len() || to >= self.state.queue.len() {
                    return Err(Rejection::InvalidIndex);
                }
                let entry = self.state.queue.remove(from);
                self.state.queue.insert(to, entry);
                Ok(())
            },
            Command::SelectProjectLeadContinent { index, lead } => {
                let index = *index as usize;
                if index >= self.state.queue.len() {
                    return Err(Rejection::InvalidIndex);
                }
                let project = self.state.queue[index].project;
                self.state.queue.set(index, QueuedProject { project, lead: *lead });
                Ok(())
            },
            Command::CancelActiveProject { index } => self.cancel_active(*index),
            Command::DecommissionProject { index } => self.decommission(*index),
            Command::Pause => {
                if self.state.paused {
                    return Err(Rejection::AlreadyPaused);
                }
                self.state.paused = true;
                Ok(())
            },
            Command::Resume => {
                if !self.state.paused {
                    return Err(Rejection::NotPaused);
                }
                self.state.paused = false;
                Ok(())
            },
            Command::ClaimOpportunity { index } => self.claim(*index),
        }
    }

    fn cancel_active(&mut self, index: u32) -> (r: Result<(), Rejection>)
        requires
            old(self).wf(),
        ensures
            final(self).wf(),
            final(self).catalogue == old(self).catalogue,
            final(self).log == old(self).log,
            final(self).state.tick == old(self).state.tick,
            apply_spec(old(self).cat(), old(self).state, Command::CancelActiveProject { index }, final(self).state, r),
    {
        let index = index as usize;
        if index >= self.state.active.len() {
            return Err(Rejection::InvalidIndex);
        }
        let ghost pre = self.state;
        // Progress and partial rollout destroyed; no refund; slot freed.
        let build = self.state.active.remove(index);
        let id = self.catalogue.projects[build.project as usize].id.clone();
        let tick = self.state.tick;
        self.state.trace.push(
            TraceEvent { tick, kind: TraceKind::ProjectCancelled { project: id, lead: build.lead } },
        );
        let ghost mid = self.state;
        assert forall|k: int| 0 <= k < self.state.active@.len() implies crate::state::active_bounded(self.cat(), #[trigger] self.state.active@[k]) by {
            if k < index { assert(self.state.active@[k] == pre.active@[k]); } else { assert(self.state.active@[k] == pre.active@[k + 1]); }
        }
        self.rederive();
        assert(mid == RunState { active: mid.active, trace: mid.trace, ..pre });
        assert(RunState { active: self.state.active, ..pre } == RunState { trace: pre.trace, ..mid });
        Ok(())
    }

    fn decommission(&mut self, index: u32) -> (r: Result<(), Rejection>)
        requires
            old(self).wf(),
        ensures
            final(self).wf(),
            final(self).catalogue == old(self).catalogue,
            final(self).log == old(self).log,
            final(self).state.tick == old(self).state.tick,
            apply_spec(old(self).cat(), old(self).state, Command::DecommissionProject { index }, final(self).state, r),
    {
        let index = index as usize;
        if index >= self.state.completed.len() {
            return Err(Rejection::InvalidIndex);
        }
        let ghost pre = self.state;
        // Benefits, icons, spillovers and upkeep all disappear with the
        // entry; no refund. The cost curve still counts it.
        let entry = self.state.completed.remove(index);
        let id = self.catalogue.projects[entry.project as usize].id.clone();
        let tick = self.state.tick;
        self.state.trace.push(
            TraceEvent { tick, kind: TraceKind::ProjectDecommissioned { project: id, lead: entry.lead } },
        );
        let ghost mid = self.state;
        assert forall|k: int| 0 <= k < self.state.completed@.len() implies completed_bounded(self.cat(), #[trigger] self.state.completed@[k]) by {
            if k < index { assert(self.state.completed@[k] == pre.completed@[k]); } else { assert(self.state.completed@[k] == pre.completed@[k + 1]); }
        }
        self.rederive();
        assert(RunState { completed: self.state.completed, ..pre } == RunState { trace: pre.trace, ..mid });
        Ok(())
    }

    fn claim(&mut self, index: u32) -> (r: Result<(), Rejection>)
        requires
            old(self).wf(),
            command_fits(old(self).cat(), old(self).state, Command::ClaimOpportunity { index }),
        ensures
            final(self).wf(),
            final(self).catalogue == old(self).catalogue,
            final(self).log == old(self).log,
            final(self).state.tick == old(self).state.tick,
            apply_spec(old(self).cat(), old(self).state, Command::ClaimOpportunity { index }, final(self).state, r),
    {
        let index = index as usize;
        if index >= self.state.opportunities.len() {
            return Err(Rejection::InvalidIndex);
        }
        let ghost pre = self.state;
        let open = self.state.opportunities.remove(index);
        assert(open == pre.opportunities@[index as int]);
        let def = &self.catalogue.opportunities[open.def as usize];
        assert(crate::state::opportunity_effect_bounded(def.effect));
        match def.effect {
            OpportunityEffect::FinanceGrant { units } => {
                self.state.finance_milli = self.state.finance_milli + units * 1000;
            },
            OpportunityEffect::MandateBoost { milli } => {
                let boosted = self.state.mandate_milli + milli;
                self.state.mandate_milli = if boosted <= self.state.mandate_max_milli {
                    boosted
                } else {
                    self.state.mandate_max_milli
                };
            },
            OpportunityEffect::IconGrant { icon } => {
                let c = open.continent.index();
                let i = icon.index();
                self.state.bonus_icons[c][i] = self.state.bonus_icons[c][i] + 1;
            },
        }
        let tick = self.state.tick;
        self.state.trace.push(
            TraceEvent { tick, kind: TraceKind::OpportunityClaimed { id: def.id.clone() } },
        );
        let ghost mid = self.state;
        assert forall|k: int| 0 <= k < self.state.opportunities@.len() implies (#[trigger] self.state.opportunities@[k]).def < self.cat().opportunities@.len() by {
            if k < index { assert(self.state.opportunities@[k] == pre.opportunities@[k]); } else { assert(self.state.opportunities@[k] == pre.opportunities@[k + 1]); }
        }
        self.rederive();
        assert(RunState {
            opportunities: self.state.opportunities,
            finance_milli: self.state.finance_milli,
            bonus_icons: self.state.bonus_icons,
            mandate_milli: mid.mandate_milli,
            ..pre
        } == RunState { trace: pre.trace, ..mid });
        Ok(())
    }

    /// The external modifiers standing completions apply to a project, in
    /// permille: to its cost, or else to its duration.
    pub fn modifier_total(&self, project: usize, cost: bool) -> (r: i64)
        requires
            self.wf(),
            project < self.cat().projects@.len(),
        ensures
            cost ==> r == cost_external(self.cat(), self.state, project as int),
            !cost ==> r == duration_external(self.cat(), self.state, project as int),
            -3_300_000_000_000 <= r <= 3_300_000_000_000,
    {
        let def = &self.catalogue.projects[project];
        assert(def_bounded(*def));
        let ghost m = external_measure(def.id@, cost);
        let ghost done = self.state.completed@;
        assert(measure_bound(m) == MAG);
        let mut external: i64 = 0;
        let mut d: usize = 0;
        while d < self.state.completed.len()
            invariant
                self.wf(),
                project < self.cat().projects@.len(),
                *def == self.cat().projects@[project as int],
                m == external_measure(def.id@, cost),
                measure_bound(m) == MAG,
                done == self.state.completed@,
                d <= done.len(),
                external == sum_completed(done.take(d as int), m),
            decreases done.len() - d,
        {
            let entry = &self.state.completed[d];
            assert(completed_bounded(self.cat(), *entry));
            let ghost pre = done.take(d as int);
            let mut j: usize = 0;
            while j < entry.realized.len()
                invariant
                    self.wf(),
                    d < done.len(),
                    *entry == done[d as int],
                    completed_bounded(self.cat(), *entry),
                    pre == done.take(d as int),
                    m == external_measure(def.id@, cost),
                    measure_bound(m) == MAG,
                    done == self.state.completed@,
                    j <= entry.realized@.len(),
                    external == sum_completed(pre, m) + crate::state::sum_effects(
                        entry.realized@.take(j as int),
                        entry.lead,
                        m,
                    ),
                decreases entry.realized@.len() - j,
            {
                let ghost effs2 = entry.realized@.take(j as int + 1);
                assert(effs2.drop_last() =~= entry.realized@.take(j as int));
                assert(effs2.last() == entry.realized@[j as int]);
                assert forall|k: int| 0 <= k < effs2.len() implies crate::state::realized_op_bounded(
                    (#[trigger] effs2[k]).op,
                ) by {
                    assert(effs2[k] == entry.realized@[k]);
                }
                proof {
                    lemma_partial_small(self.cat(), done, d as int, effs2, entry.lead, m);
                }
                match &entry.realized[j].op {
                    EffectOp::ModifyProjectCost { project: target, permille } => {
                        if cost && *target == def.id {
                            external = external + *permille;
                        }
                    },
                    EffectOp::ModifyProjectDuration { project: target, permille } => {
                        if !cost && *target == def.id {
                            external = external + *permille;
                        }
                    },
                    _ => {},
                }
                j = j + 1;
            }
            assert(entry.realized@.take(entry.realized@.len() as int) =~= entry.realized@);
            assert(done.take(d as int + 1).drop_last() =~= pre);
            assert(done.take(d as int + 1).last() == *entry);
            d = d + 1;
        }
        assert(done.take(done.len() as int) =~= done);
        proof {
            lemma_partial_small(self.cat(), done, done.len() as int, Seq::empty(), Continent::Europe, m);
        }
        external
    }

    pub fn current_duration(&self, project: usize) -> (r: u64)
        requires
            self.wf(),
            project < self.cat().projects@.len(),
        ensures
            r == duration_spec(self.cat(), self.state, project as int),
    {
        let def = &self.catalogue.projects[project];
        assert(def_bounded(*def));
        let external = self.modifier_total(project, false);
        proof {
            let dt = def.duration_ticks as int;
            assert(0 <= dt <= MAG);
            assert(-MAG * 3_400_000_000_000 <= dt * (1000 + external) <= MAG * 3_400_000_000_000)
                by (nonlinear_arith)
                requires
                    0 <= dt <= MAG,
                    -3_300_000_000_000 <= external <= 3_300_000_000_000,
            ;
        }
        let d = apply_permille(def.duration_ticks as i64, external);
        if d < 1 {
            1
        } else {
            d as u64
        }
    }
}

} // verus!
