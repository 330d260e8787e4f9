//! What single operations guarantee, stated directly over their inputs and
//! results rather than through the specifications their contracts use: when
//! a preview says a project is affordable; how a derivation turns a standing
//! effect into icons, emissions, deltas and unlocks, and programme slots
//! follow the best continental Institutions stock; when the queue head
//! waits and why; what queue edits and claims do; how a tick starts the head,
//! completes builds, accrues and records victory; and what the bots target.

use vstd::prelude::*;

use crate::catalogue::{first_with_id, Catalogue};
use crate::command::Command;
use crate::preview::{both_affordable, lemma_affordable_is_least, affordable_spec, preview_of, Preview};
use crate::schema::{EffectOp, OpportunityEffect, Prerequisite, Repeat, Scope, SlotMilestone};
use crate::sim::{apply_spec, cost_spec, head_block_spec, prerequisite_block, prerequisites_block, count_active_of, count_active_at, count_completed_at};
use crate::bot::{cell_emission, cheapest_of, ever_spec, in_flight_spec, missing_on, pick_key, pick_spec, worst_cell_upto, worst_continent_spec, Strategy};
use crate::state::{clamp0, effect_measure, effects_unlock, op_unlocks, sum_active, sum_completed, sum_effects, unlocked_by_completed, Measure, RealizedEffect, opportunity_effect_bounded, state_wf, best_institutions, derived_fields, milestones_reached, ActiveProject, CompletedProject, QueuedProject, RunState};
use crate::trace::BlockReason;
use crate::tick::{advanced, already_reported, finished, started_build, tick_chain, tick_spec, unfinished};
use crate::world::{continent_at, continent_index, icon_index, sector_index, Continent, Icon};

verus! {

// ------------------------------------------------------------ previews

/// A preview's ticks until affordable is the wait after which both stocks
/// cover the project's costs at their current deltas: at that many ticks
/// Finance covers the Finance cost and Mandate the Mandate cost (a stock that
/// shrinks must cover its cost already), one tick fewer would leave one of
/// them short, and there is no such wait exactly when a stock that falls
/// short is not growing.
pub proof fn lemma_preview_waits_for_both_stocks(
    cat: Catalogue,
    s: RunState,
    k: int,
    lead: Continent,
    p: Preview,
)
    requires
        preview_of(cat, s, k, lead, p),
    ensures
        ({
            let fin = s.finance_milli as int;
            let fd = s.finance_delta_milli as int;
            let fc = p.finance_cost_milli as int;
            let man = s.mandate_milli as int;
            let md = s.mandate_delta_milli as int;
            let mc = p.mandate_cost_milli as int;
            &&& p.ticks_until_affordable is None <==> ((fc > fin && fd <= 0) || (mc > man && md <= 0))
            &&& p.ticks_until_affordable matches Some(n) ==> {
                &&& (fd >= 0 ==> fin + n * fd >= fc)
                &&& (fd < 0 ==> fin >= fc)
                &&& (md >= 0 ==> man + n * md >= mc)
                &&& (md < 0 ==> man >= mc)
                &&& (n > 0 ==> fin + (n - 1) * fd < fc || man + (n - 1) * md < mc)
            }
        }),
{
    let fin = s.finance_milli as int;
    let fd = s.finance_delta_milli as int;
    let fc = cost_spec(cat, s, k);
    let man = s.mandate_milli as int;
    let md = s.mandate_delta_milli as int;
    let mc = cat.projects@[k].mandate_cost * 1000;
    let f = affordable_spec(fin, fc, fd);
    let m = affordable_spec(man, mc, md);
    assert(both_affordable(s, fc, mc) == match (f, m) {
        (Some(a), Some(b)) => Some(if a >= b { a } else { b }),
        _ => None::<int>,
    });
    if f is Some && m is Some {
        lemma_affordable_is_least(fin, fc, fd);
        lemma_affordable_is_least(man, mc, md);
        let a = f->0;
        let b = m->0;
        let n = if a >= b { a } else { b };
        assert(p.ticks_until_affordable == Some(n as u64));
        assert(fd >= 0 ==> fin + n * fd >= fin + a * fd) by (nonlinear_arith)
            requires
                n >= a,
        ;
        assert(md >= 0 ==> man + n * md >= man + b * md) by (nonlinear_arith)
            requires
                n >= b,
        ;
    }
}

// ------------------------------------------------------------ slots

/// The milestones a continental Institutions stock reaches: those whose
/// threshold some single continent's stock meets.
pub open spec fn reached_by_a_continent(ms: Seq<SlotMilestone>, icons: [[i64; 4]; 3]) -> Seq<SlotMilestone> {
    ms.filter(
        |m: SlotMilestone|
            exists|c: int| 0 <= c < 3 && #[trigger] icons[c][icon_index(Icon::Institutions)] >= m.institutions,
    )
}

proof fn lemma_reached_count(ms: Seq<SlotMilestone>, icons: [[i64; 4]; 3])
    ensures
        milestones_reached(ms, best_institutions(icons)) == reached_by_a_continent(ms, icons).len(),
    decreases ms.len(),
{
    reveal(Seq::filter);
    if ms.len() > 0 {
        lemma_reached_count(ms.drop_last(), icons);
        let x = ms.last().institutions as int;
        let best = best_institutions(icons);
        let met = exists|c: int| 0 <= c < 3 && #[trigger] icons[c][icon_index(Icon::Institutions)] >= x;
        assert(icon_index(Icon::Institutions) == 3);
        if best >= x {
            if icons[0][3] >= x {
                assert(icons[0][icon_index(Icon::Institutions)] >= x);
            } else if icons[1][3] >= x {
                assert(icons[1][icon_index(Icon::Institutions)] >= x);
            } else {
                assert(icons[2][icon_index(Icon::Institutions)] >= x);
            }
            assert(met);
        } else {
            assert(!met);
        }
    }
}

/// Programme slots follow the best single continent: after a derivation the
/// slot count is one plus the number of milestones whose Institutions
/// threshold some one continent meets, unless it was already higher; the
/// count never falls.
pub proof fn lemma_slots_follow_best_continent(cat: Catalogue, pre: RunState, post: RunState)
    requires
        derived_fields(cat, pre, post),
    ensures
        ({
            let reached = reached_by_a_continent(cat.scenario.slot_milestones@, post.icons).len() as int;
            post.slots_total == if pre.slots_total >= 1 + reached {
                pre.slots_total as int
            } else {
                1 + reached
            }
        }),
        post.slots_total >= pre.slots_total,
{
    lemma_reached_count(cat.scenario.slot_milestones@, post.icons);
}

// ------------------------------------------------------------ derivation

/// Whether an effect scoped `scope`, of a project led on `lead`, reaches
/// continent `c`: economy-wide and all-continent scopes reach every
/// continent, a lead scope the lead, a named or spillover scope that one.
pub open spec fn reaches(scope: Scope, lead: Continent, c: int) -> bool {
    match scope {
        Scope::Global => true,
        Scope::AllContinents => true,
        Scope::LeadContinent => c == continent_index(lead),
        Scope::Continent(x) => c == continent_index(x),
        Scope::Spillover(x) => c == continent_index(x),
    }
}

/// The icons of kind `i` an effect adds on a continent it reaches: an icon
/// grant adds its amount, an icon removal takes it away.
pub open spec fn icons_added(op: EffectOp, i: int) -> int {
    match op {
        EffectOp::AddIcon { icon, amount } => if icon_index(icon) == i { amount as int } else { 0 },
        EffectOp::RemoveIcon { icon, amount } => if icon_index(icon) == i { 0 - amount } else { 0 },
        _ => 0,
    }
}

/// The reduction an effect makes in sector `t` on a continent it reaches.
pub open spec fn reduction_made(op: EffectOp, t: int) -> int {
    match op {
        EffectOp::ReduceSectorEmissions { sector, milli_gt } => if sector_index(sector) == t { milli_gt as int } else { 0 },
        _ => 0,
    }
}

/// What an effect adds to the Finance delta: income adds, maintenance takes.
pub open spec fn finance_added(op: EffectOp) -> int {
    match op {
        EffectOp::AddFinanceIncome { milli_per_tick } => milli_per_tick as int,
        EffectOp::AddMaintenance { milli_per_tick } => 0 - milli_per_tick,
        _ => 0,
    }
}

/// The op is an unlock naming project `k`, the first with its id.
pub open spec fn names_project(cat: Catalogue, op: EffectOp, k: int) -> bool {
    match op {
        EffectOp::UnlockProject { project } => first_with_id(cat.projects@, k, project@),
        _ => false,
    }
}

/// A derivation of a run with one standing completion carrying one realised
/// effect and nothing under construction: the effect adds its icons, clamped
/// at zero, and reduces its sector's emissions, clamped at zero, on exactly
/// the continents its scope reaches; it adds its Finance income or
/// maintenance, its Mandate income and its Mandate maximum once,
/// economy-wide, to the baselines; Mandate is capped at the new maximum; and
/// the project it unlocks, if any, becomes unlocked.
pub proof fn lemma_one_effect_is_derived(cat: Catalogue, pre: RunState, post: RunState)
    requires
        derived_fields(cat, pre, post),
        pre.completed@.len() == 1,
        pre.completed@[0].realized@.len() == 1,
        pre.active@.len() == 0,
    ensures
        ({
            let d = pre.completed@[0];
            let e = d.realized@[0];
            &&& forall|c: int, i: int|
                0 <= c < 3 && 0 <= i < 4 ==> #[trigger] post.icons[c][i] == clamp0(
                    pre.bonus_icons[c][i] + if reaches(e.scope, d.lead, c) { icons_added(e.op, i) } else { 0 },
                )
            &&& forall|c: int, t: int|
                0 <= c < 3 && 0 <= t < 3 ==> #[trigger] post.sector_emissions_milli[c][t] == clamp0(
                    pre.baseline_emissions_milli[c][t] - if reaches(e.scope, d.lead, c) {
                        reduction_made(e.op, t)
                    } else {
                        0
                    },
                )
            &&& post.finance_delta_milli == pre.baseline_finance_income_milli[0]
                + pre.baseline_finance_income_milli[1] + pre.baseline_finance_income_milli[2]
                + finance_added(e.op)
            &&& post.mandate_delta_milli == pre.baseline_mandate_income_milli[0]
                + pre.baseline_mandate_income_milli[1] + pre.baseline_mandate_income_milli[2]
                + match e.op {
                EffectOp::AddMandateIncome { milli_per_tick } => milli_per_tick as int,
                _ => 0,
            }
            &&& post.mandate_max_milli == cat.scenario.mandate_max_start * 1000 + match e.op {
                EffectOp::AddMandateMaximum { milli } => milli as int,
                _ => 0,
            }
            &&& post.mandate_milli == if pre.mandate_milli <= post.mandate_max_milli {
                pre.mandate_milli
            } else {
                post.mandate_max_milli
            }
            &&& forall|k: int|
                0 <= k < pre.unlocked@.len() ==> #[trigger] post.unlocked@[k] == (pre.unlocked@[k]
                    || names_project(cat, e.op, k))
        }),
{
    let d = pre.completed@[0];
    let e = d.realized@[0];
    assert(pre.completed@.drop_last() =~= Seq::<CompletedProject>::empty());
    assert(d.realized@.drop_last() =~= Seq::<RealizedEffect>::empty());
    assert(pre.completed@.last() == d);
    assert(d.realized@.last() == e);
    assert forall|m: Measure| #[trigger] sum_completed(pre.completed@, m) == effect_measure(m, e.op, e.scope, d.lead) by {
        assert(sum_completed(pre.completed@.drop_last(), m) == 0);
        assert(sum_effects(d.realized@.drop_last(), d.lead, m) == 0);
    }
    assert forall|c: int, t: int| 0 <= c < 3 && 0 <= t < 3 implies #[trigger] sum_active(cat, pre.active@, post.icons, c, t) == 0 by {}
    assert forall|c: int, i: int| 0 <= c < 3 && 0 <= i < 4 implies #[trigger] post.icons[c][i] == clamp0(
        pre.bonus_icons[c][i] + if reaches(e.scope, d.lead, c) { icons_added(e.op, i) } else { 0 },
    ) by {
        assert(sum_completed(pre.completed@, Measure::Icon(c, i)) == effect_measure(Measure::Icon(c, i), e.op, e.scope, d.lead));
    }
    assert forall|c: int, t: int| 0 <= c < 3 && 0 <= t < 3 implies #[trigger] post.sector_emissions_milli[c][t] == clamp0(
        pre.baseline_emissions_milli[c][t] - if reaches(e.scope, d.lead, c) { reduction_made(e.op, t) } else { 0 },
    ) by {
        assert(sum_completed(pre.completed@, Measure::Reduction(c, t)) == effect_measure(Measure::Reduction(c, t), e.op, e.scope, d.lead));
        assert(sum_active(cat, pre.active@, post.icons, c, t) == 0);
    }
    assert(sum_completed(pre.completed@, Measure::FinanceDelta) == effect_measure(Measure::FinanceDelta, e.op, e.scope, d.lead));
    assert(sum_completed(pre.completed@, Measure::MandateDelta) == effect_measure(Measure::MandateDelta, e.op, e.scope, d.lead));
    assert(sum_completed(pre.completed@, Measure::MandateMax) == effect_measure(Measure::MandateMax, e.op, e.scope, d.lead));
    assert forall|k: int| 0 <= k < pre.unlocked@.len() implies #[trigger] post.unlocked@[k] == (pre.unlocked@[k]
        || names_project(cat, e.op, k)) by {
        if unlocked_by_completed(cat, pre.completed@, k) {
            let dd = choose|dd: int| 0 <= dd < pre.completed@.len() && effects_unlock(cat, (#[trigger] pre.completed@[dd]).realized@, k);
            assert(dd == 0);
            let j = choose|j: int| 0 <= j < d.realized@.len() && op_unlocks(cat, (#[trigger] d.realized@[j]).op, k);
            assert(j == 0);
        }
        if names_project(cat, e.op, k) {
            assert(op_unlocks(cat, d.realized@[0].op, k));
            assert(effects_unlock(cat, pre.completed@[0].realized@, k));
        }
    }
}

// ------------------------------------------------------------ repeat limits

/// The active builds of project `p`.
pub open spec fn builds_of(active: Seq<ActiveProject>, p: u32) -> Seq<ActiveProject> {
    active.filter(|b: ActiveProject| b.project == p)
}

/// The active builds of project `p` led on `lead`.
pub open spec fn builds_at(active: Seq<ActiveProject>, p: u32, lead: Continent) -> Seq<ActiveProject> {
    active.filter(|b: ActiveProject| b.project == p && b.lead == lead)
}

/// The standing completions of project `p` led on `lead`.
pub open spec fn standing_at(done: Seq<CompletedProject>, p: u32, lead: Continent) -> Seq<CompletedProject> {
    done.filter(|d: CompletedProject| d.project == p && d.lead == lead)
}

proof fn lemma_count_builds_of(active: Seq<ActiveProject>, p: u32)
    ensures
        count_active_of(active, p) == builds_of(active, p).len(),
    decreases active.len(),
{
    reveal(Seq::filter);
    if active.len() > 0 {
        lemma_count_builds_of(active.drop_last(), p);
    }
}

proof fn lemma_count_builds_at(active: Seq<ActiveProject>, p: u32, lead: Continent)
    ensures
        count_active_at(active, p, lead) == builds_at(active, p, lead).len(),
    decreases active.len(),
{
    reveal(Seq::filter);
    if active.len() > 0 {
        lemma_count_builds_at(active.drop_last(), p, lead);
    }
}

proof fn lemma_count_standing_at(done: Seq<CompletedProject>, p: u32, lead: Continent)
    ensures
        count_completed_at(done, p, lead) == standing_at(done, p, lead).len(),
    decreases done.len(),
{
    reveal(Seq::filter);
    if done.len() > 0 {
        lemma_count_standing_at(done.drop_last(), p, lead);
    }
}

proof fn lemma_builds_counted(active: Seq<ActiveProject>, p: u32)
    ensures
        count_active_of(active, p) >= 1 <==> exists|i: int| 0 <= i < active.len() && #[trigger] active[i].project == p,
    decreases active.len(),
{
    if active.len() > 0 {
        let rest = active.drop_last();
        lemma_builds_counted(rest, p);
        assert(count_active_of(rest, p) >= 0) by {
            lemma_count_nonneg(rest, p);
        }
        if exists|i: int| 0 <= i < rest.len() && #[trigger] rest[i].project == p {
            let i = choose|i: int| 0 <= i < rest.len() && #[trigger] rest[i].project == p;
            assert(active[i] == rest[i]);
        }
        if exists|i: int| 0 <= i < active.len() && #[trigger] active[i].project == p {
            let i = choose|i: int| 0 <= i < active.len() && #[trigger] active[i].project == p;
            if i < rest.len() {
                assert(rest[i] == active[i]);
            }
        }
    }
}

proof fn lemma_count_nonneg(active: Seq<ActiveProject>, p: u32)
    ensures
        count_active_of(active, p) >= 0,
    decreases active.len(),
{
    if active.len() > 0 {
        lemma_count_nonneg(active.drop_last(), p);
    }
}

proof fn lemma_prerequisites_never_repeat(cat: Catalogue, s: RunState, lead: Continent, qs: Seq<Prerequisite>)
    ensures
        prerequisites_block(cat, s, lead, qs) != Some(BlockReason::RepeatLimitReached),
    decreases qs.len(),
{
    if qs.len() > 0 {
        lemma_prerequisites_never_repeat(cat, s, lead, qs.drop_last());
    }
}

/// Repeat limits stop the queue head exactly when the project has been built
/// (or is being built) as often as its repeat rule allows: a unique project
/// once, ever or in flight; a tiered project its tier count, counting builds
/// in flight; a capped rollout its per-continent cap on the lead continent,
/// counting standing and in-flight builds there; a repeatable project never.
pub proof fn lemma_repeat_limits_stop_the_head(cat: Catalogue, s: RunState, head: QueuedProject)
    requires
        0 <= head.project < cat.projects@.len(),
        head.project < s.completions_ever@.len(),
        head.project < s.unlocked@.len(),
        s.unlocked@[head.project as int],
    ensures
        ({
            let p = head.project;
            let ever = s.completions_ever@[p as int] as int;
            let building = builds_of(s.active@, p).len() as int;
            let limited = match cat.projects@[p as int].repeat {
                Repeat::Unique => ever >= 1 || exists|i: int| 0 <= i < s.active@.len() && #[trigger] s.active@[i].project == p,
                Repeat::Repeatable => false,
                Repeat::Tiered { count } => ever + building >= count,
                Repeat::CappedRollout { per_continent } => standing_at(s.completed@, p, head.lead).len()
                    + builds_at(s.active@, p, head.lead).len() >= per_continent,
            };
            limited <==> head_block_spec(cat, s, head) == Some(BlockReason::RepeatLimitReached)
        }),
{
    let p = head.project;
    lemma_count_builds_of(s.active@, p);
    lemma_count_builds_at(s.active@, p, head.lead);
    lemma_count_standing_at(s.completed@, p, head.lead);
    lemma_prerequisites_never_repeat(cat, s, head.lead, cat.projects@[p as int].prerequisites@);
    lemma_builds_counted(s.active@, p);
    lemma_count_nonneg(s.active@, p);
}

proof fn lemma_prerequisites_each(cat: Catalogue, s: RunState, lead: Continent, qs: Seq<Prerequisite>)
    ensures
        prerequisites_block(cat, s, lead, qs) is None ==> forall|j: int|
            0 <= j < qs.len() ==> #[trigger] prerequisite_block(cat, s, lead, qs[j]) is None,
        prerequisites_block(cat, s, lead, qs) matches Some(r) ==> exists|j: int|
            0 <= j < qs.len() && #[trigger] prerequisite_block(cat, s, lead, qs[j]) == Some(r),
    decreases qs.len(),
{
    if qs.len() > 0 {
        let rest = qs.drop_last();
        lemma_prerequisites_each(cat, s, lead, rest);
        if prerequisites_block(cat, s, lead, qs) is None {
            assert forall|j: int| 0 <= j < qs.len() implies #[trigger] prerequisite_block(cat, s, lead, qs[j]) is None by {
                if j < rest.len() {
                    assert(rest[j] == qs[j]);
                }
            }
        }
        if prerequisites_block(cat, s, lead, rest) is Some {
            let r = prerequisites_block(cat, s, lead, rest)->0;
            let j = choose|j: int| 0 <= j < rest.len() && #[trigger] prerequisite_block(cat, s, lead, rest[j]) == Some(r);
            assert(rest[j] == qs[j]);
        } else if prerequisites_block(cat, s, lead, qs) is Some {
            assert(qs[qs.len() - 1] == qs.last());
        }
    }
}

/// Why the queue head waits, checked in order: it waits as not unlocked
/// exactly when it is locked; it starts only when it is unlocked, within its
/// repeat limit, every icon prerequisite is met on its lead continent, a
/// programme slot is free and both stocks cover its costs; a missing icon
/// names a prerequisite and the stock that falls short of it; and a slot,
/// Finance or Mandate wait names what falls short and by what figures.
pub proof fn lemma_head_block_explains(cat: Catalogue, s: RunState, head: QueuedProject)
    requires
        0 <= head.project < cat.projects@.len(),
        head.project < s.completions_ever@.len(),
        head.project < s.unlocked@.len(),
    ensures
        ({
            let p = head.project as int;
            let def = cat.projects@[p];
            let qs = def.prerequisites@;
            let row = s.icons[continent_index(head.lead)];
            let cost = cost_spec(cat, s, p);
            let mandate_cost = def.mandate_cost * 1000;
            let r = head_block_spec(cat, s, head);
            &&& (r == Some(BlockReason::NotUnlocked)) <==> !s.unlocked@[p]
            &&& r is None ==> {
                &&& s.unlocked@[p]
                &&& s.active@.len() < s.slots_total
                &&& s.finance_milli >= cost
                &&& s.mandate_milli >= mandate_cost
                &&& forall|j: int|
                    0 <= j < qs.len() ==> (#[trigger] qs[j] matches Prerequisite::IconAtLeast { icon, amount }
                        ==> row[icon_index(icon)] >= amount)
                &&& def.repeat is Unique ==> s.completions_ever@[p] == 0 && forall|i: int|
                    0 <= i < s.active@.len() ==> #[trigger] s.active@[i].project != head.project
            }
            &&& r == Some(BlockReason::NoFreeSlot) ==> s.active@.len() >= s.slots_total
            &&& r matches Some(BlockReason::MissingIcon { icon, needed, have }) ==> {
                &&& have == row[icon_index(icon)]
                &&& have < needed
                &&& exists|j: int| 0 <= j < qs.len() && #[trigger] qs[j] == Prerequisite::IconAtLeast { icon, amount: needed }
            }
            &&& r matches Some(BlockReason::InsufficientFinance { needed_milli, have_milli }) ==> {
                &&& needed_milli == cost as i64
                &&& have_milli == s.finance_milli
                &&& have_milli < cost
                &&& s.active@.len() < s.slots_total
            }
            &&& r matches Some(BlockReason::InsufficientMandate { needed_milli, have_milli }) ==> {
                &&& needed_milli == mandate_cost as i64
                &&& have_milli == s.mandate_milli
                &&& have_milli < mandate_cost
                &&& s.finance_milli >= cost
                &&& s.active@.len() < s.slots_total
            }
        }),
{
    let p = head.project;
    let def = cat.projects@[p as int];
    lemma_prerequisites_each(cat, s, head.lead, def.prerequisites@);
    lemma_prerequisites_never_repeat(cat, s, head.lead, def.prerequisites@);
    lemma_builds_counted(s.active@, p);
    lemma_count_nonneg(s.active@, p);
    if head_block_spec(cat, s, head) is None && def.repeat is Unique {
        assert(count_active_of(s.active@, p) == 0);
    }
    let qs = def.prerequisites@;
    if prerequisites_block(cat, s, head.lead, qs) is None {
        assert forall|j: int| 0 <= j < qs.len() implies (#[trigger] qs[j] matches Prerequisite::IconAtLeast { icon, amount }
            ==> s.icons[continent_index(head.lead)][icon_index(icon)] >= amount) by {
            assert(prerequisite_block(cat, s, head.lead, qs[j]) is None);
        }
    }
    if prerequisites_block(cat, s, head.lead, qs) is Some {
        let r = prerequisites_block(cat, s, head.lead, qs)->0;
        let j = choose|j: int| 0 <= j < qs.len() && #[trigger] prerequisite_block(cat, s, head.lead, qs[j]) == Some(r);
        match qs[j] {
            Prerequisite::IconAtLeast { icon, amount } => {},
            _ => {},
        }
    }
}

/// Of the candidates a bot compares, it takes the one its key rates
/// cheapest: no candidate has a lower key, and it is the first candidate
/// with that key.
pub proof fn lemma_cheapest_has_the_least_key(cat: Catalogue, s: RunState, lead: Continent, ids: Seq<Seq<char>>)
    requires
        ids.len() >= 1,
    ensures
        ({
            let best = cheapest_of(cat, s, lead, ids);
            &&& forall|j: int| 0 <= j < ids.len() ==> pick_key(cat, s, lead, best) <= #[trigger] pick_key(cat, s, lead, ids[j])
            &&& exists|i: int|
                0 <= i < ids.len() && ids[i] == best && forall|j: int| 0 <= j < i ==> pick_key(cat, s, lead, best)
                    < #[trigger] pick_key(cat, s, lead, ids[j])
        }),
    decreases ids.len(),
{
    if ids.len() > 1 {
        let rest = ids.drop_last();
        lemma_cheapest_has_the_least_key(cat, s, lead, rest);
        let prev = cheapest_of(cat, s, lead, rest);
        let i0 = choose|i: int|
            0 <= i < rest.len() && rest[i] == prev && forall|j: int| 0 <= j < i ==> pick_key(cat, s, lead, prev)
                < #[trigger] pick_key(cat, s, lead, rest[j]);
        assert forall|j: int| 0 <= j < rest.len() implies rest[j] == ids[j] by {}
        if pick_key(cat, s, lead, ids.last()) < pick_key(cat, s, lead, prev) {
            let i = ids.len() - 1;
            assert(ids[i] == ids.last());
            assert forall|j: int| 0 <= j < i implies pick_key(cat, s, lead, ids.last()) < #[trigger] pick_key(cat, s, lead, ids[j]) by {
                assert(ids[j] == rest[j]);
            }
        } else {
            assert(ids[i0] == prev);
            assert forall|j: int| 0 <= j < i0 implies pick_key(cat, s, lead, prev) < #[trigger] pick_key(cat, s, lead, ids[j]) by {
                assert(ids[j] == rest[j]);
            }
            assert forall|j: int| 0 <= j < ids.len() implies pick_key(cat, s, lead, prev) <= #[trigger] pick_key(cat, s, lead, ids[j]) by {
                if j < rest.len() {
                    assert(ids[j] == rest[j]);
                }
            }
        }
    }
}

// ------------------------------------------------------------ claims

/// An accepted claim of the opportunity at `index` removes it from the open
/// list and grants exactly its effect: a Finance grant of `units` adds
/// `units` thousand milli-Finance; a Mandate boost adds its amount up to the
/// Mandate maximum; an icon grant adds one icon of its kind on the
/// opportunity's continent. Nothing else it grants.
pub proof fn lemma_claims_grant_their_effect(
    cat: Catalogue,
    pre: RunState,
    index: u32,
    post: RunState,
    r: Result<(), crate::command::Rejection>,
)
    requires
        state_wf(cat, pre),
        apply_spec(cat, pre, Command::ClaimOpportunity { index }, post, r),
        index < pre.opportunities@.len(),
    ensures
        r is Ok,
        post.opportunities@ == pre.opportunities@.remove(index as int),
        ({
            let open = pre.opportunities@[index as int];
            match cat.opportunities@[open.def as int].effect {
                OpportunityEffect::FinanceGrant { units } => {
                    &&& post.finance_milli == pre.finance_milli + units * 1000
                    &&& forall|c: int, i: int| 0 <= c < 3 && 0 <= i < 4 ==> #[trigger] post.bonus_icons[c][i] == pre.bonus_icons[c][i]
                },
                OpportunityEffect::MandateBoost { milli } => {
                    &&& post.finance_milli == pre.finance_milli
                    &&& forall|c: int, i: int| 0 <= c < 3 && 0 <= i < 4 ==> #[trigger] post.bonus_icons[c][i] == pre.bonus_icons[c][i]
                    &&& post.mandate_milli <= pre.mandate_milli + milli
                    &&& post.mandate_milli <= pre.mandate_max_milli
                    &&& post.mandate_milli <= post.mandate_max_milli
                    &&& (post.mandate_milli == pre.mandate_milli + milli || post.mandate_milli
                        == pre.mandate_max_milli || post.mandate_milli == post.mandate_max_milli)
                },
                OpportunityEffect::IconGrant { icon } => {
                    &&& post.finance_milli == pre.finance_milli
                    &&& forall|c: int, i: int|
                        0 <= c < 3 && 0 <= i < 4 ==> #[trigger] post.bonus_icons[c][i] == pre.bonus_icons[c][i]
                            + if c == continent_index(open.continent) && i == icon_index(icon) {
                            1int
                        } else {
                            0
                        }
                },
            }
        }),
{
    let open = pre.opportunities@[index as int];
    assert(open.def < cat.opportunities@.len());
    assert(opportunity_effect_bounded(cat.opportunities@[open.def as int].effect));
}

// ------------------------------------------------------------ queue edits

proof fn lemma_a_first_exists(projects: Seq<crate::schema::ProjectDef>, id: Seq<char>, j: int)
    requires
        0 <= j < projects.len(),
        projects[j].id@ == id,
    ensures
        exists|k: int| #[trigger] first_with_id(projects, k, id),
    decreases j,
{
    if exists|i: int| 0 <= i < j && #[trigger] projects[i].id@ == id {
        let i = choose|i: int| 0 <= i < j && #[trigger] projects[i].id@ == id;
        lemma_a_first_exists(projects, id, i);
    } else {
        assert(first_with_id(projects, j, id));
    }
}

/// Accepted queue edits change the queue as asked and nothing else: queueing
/// appends the first project with the id on the chosen lead; removing drops
/// the entry and closes the gap; changing the lead keeps the project and
/// every other entry; reordering moves the entry to its new place and keeps
/// the others in order; pausing and resuming only flip the pause.
pub proof fn lemma_queue_edits_do_what_they_say(
    cat: Catalogue,
    pre: RunState,
    command: Command,
    post: RunState,
    r: Result<(), crate::command::Rejection>,
)
    requires
        state_wf(cat, pre),
        apply_spec(cat, pre, command, post, r),
        r is Ok,
    ensures
        match command {
            Command::QueueProject { project, lead } => {
                &&& post.queue@.len() == pre.queue@.len() + 1
                &&& forall|j: int| 0 <= j < pre.queue@.len() ==> #[trigger] post.queue@[j] == pre.queue@[j]
                &&& post.queue@.last().lead == lead
                &&& first_with_id(cat.projects@, post.queue@.last().project as int, project@)
                &&& post == RunState { queue: post.queue, ..pre }
            },
            Command::RemoveQueuedProject { index } => {
                &&& post.queue@.len() == pre.queue@.len() - 1
                &&& forall|j: int| 0 <= j < index ==> #[trigger] post.queue@[j] == pre.queue@[j]
                &&& forall|j: int| index <= j < post.queue@.len() ==> #[trigger] post.queue@[j] == pre.queue@[j + 1]
                &&& post == RunState { queue: post.queue, ..pre }
            },
            Command::SelectProjectLeadContinent { index, lead } => {
                &&& post.queue@.len() == pre.queue@.len()
                &&& post.queue@[index as int].project == pre.queue@[index as int].project
                &&& post.queue@[index as int].lead == lead
                &&& forall|j: int| 0 <= j < pre.queue@.len() && j != index ==> #[trigger] post.queue@[j] == pre.queue@[j]
                &&& post == RunState { queue: post.queue, ..pre }
            },
            Command::ReorderQueue { from, to } => {
                &&& post.queue@.len() == pre.queue@.len()
                &&& post.queue@[to as int] == pre.queue@[from as int]
                &&& from <= to ==> forall|j: int|
                    0 <= j < pre.queue@.len() && !(from <= j <= to) ==> #[trigger] post.queue@[j] == pre.queue@[j]
                &&& from <= to ==> forall|j: int| from <= j < to ==> #[trigger] post.queue@[j] == pre.queue@[j + 1]
                &&& to <= from ==> forall|j: int|
                    0 <= j < pre.queue@.len() && !(to <= j <= from) ==> #[trigger] post.queue@[j] == pre.queue@[j]
                &&& to <= from ==> forall|j: int| to < j <= from ==> #[trigger] post.queue@[j] == pre.queue@[j - 1]
                &&& post == RunState { queue: post.queue, ..pre }
            },
            Command::Pause => post == RunState { paused: true, ..pre } && !pre.paused,
            Command::Resume => post == RunState { paused: false, ..pre } && pre.paused,
            _ => true,
        },
{
    match command {
        Command::QueueProject { project, lead } => {
            let j = choose|j: int| 0 <= j < cat.projects@.len() && #[trigger] cat.projects@[j].id@ == project@;
            lemma_a_first_exists(cat.projects@, project@, j);
            let k = crate::sim::id_index(cat.projects@, project@);
            assert(first_with_id(cat.projects@, k, project@));
            assert(k < u32::MAX);
            assert(post.queue@.last() == crate::state::QueuedProject { project: k as u32, lead });
        },
        _ => {},
    }
}

// ------------------------------------------------------------ ticks

/// Every cell's remaining emissions, summed.
pub open spec fn all_emissions(s: RunState) -> int {
    emissions_of(s, 0) + emissions_of(s, 1) + emissions_of(s, 2)
}

/// A tick either starts the FIFO queue head, which leaves the queue and
/// becomes the newest active build, starting this tick with no progress, or
/// leaves the queue as it was; and the queue is reported blocked after the
/// tick exactly when there is a head and it did not start.
pub proof fn lemma_tick_starts_the_head_or_stalls(cat: Catalogue, pre: RunState, post: RunState)
    requires
        tick_spec(cat, pre, post),
        pre.tick < u64::MAX,
    ensures
        post.queue@ == pre.queue@ || {
            &&& pre.queue@.len() > 0
            &&& post.queue@ == pre.queue@.subrange(1, pre.queue@.len() as int)
            &&& post.active@.len() > 0
            &&& post.active@.last().project == pre.queue@[0].project
            &&& post.active@.last().lead == pre.queue@[0].lead
            &&& post.active@.last().started == post.tick
            &&& post.active@.last().progress == 0
        },
        (post.last_block is Some) <==> (pre.queue@.len() > 0 && post.queue@ == pre.queue@),
{
    let (s1, s2, s3, s4, s5) = choose|s1: RunState, s2: RunState, s3: RunState, s4: RunState, s5: RunState|
        #[trigger] tick_chain(cat, pre, s1, s2, s3, s4, s5, post);
    assert(s4.queue == pre.queue);
    assert(post.queue == s5.queue && post.active == s5.active && post.last_block == s5.last_block);
    assert(post.tick == s1.tick);
    if s4.queue@.len() > 0 {
        let head = s4.queue@[0];
        match head_block_spec(cat, s4, head) {
            None => {
                assert(s5.active@.last() == started_build(cat, s4, head, s1.tick));
                assert(s5.queue@.len() == s4.queue@.len() - 1);
            },
            Some(reason) => {
                if already_reported(s4.last_block, reason) {
                    assert(s4.last_block is Some);
                }
            },
        }
    }
}

proof fn lemma_finishing_counted(active: Seq<ActiveProject>)
    requires
        forall|j: int| 0 <= j < active.len() ==> #[trigger] active[j].progress < u64::MAX,
    ensures
        finished(advanced(active)).len() == active.filter(|b: ActiveProject| b.progress + 1 >= b.duration).len(),
        forall|j: int| 0 <= j < unfinished(advanced(active)).len() ==> #[trigger] unfinished(advanced(active))[j].progress
            < unfinished(advanced(active))[j].duration,
    decreases active.len(),
{
    reveal(Seq::filter);
    if active.len() > 0 {
        let rest = active.drop_last();
        assert forall|j: int| 0 <= j < rest.len() implies #[trigger] rest[j].progress < u64::MAX by {
            assert(rest[j] == active[j]);
        }
        lemma_finishing_counted(rest);
        assert(active[active.len() - 1] == active.last());
        assert(advanced(active).drop_last() =~= advanced(rest));
        assert(advanced(active).last() == ActiveProject { progress: (active.last().progress + 1) as u64, ..active.last() });
        let u = unfinished(advanced(active));
        let ur = unfinished(advanced(rest));
        assert forall|j: int| 0 <= j < u.len() implies #[trigger] u[j].progress < u[j].duration by {
            if j < ur.len() {
                assert(u[j] == ur[j]);
            }
        }
    }
}

/// A tick completes exactly the builds whose progress reaches their
/// duration with this tick's step: the completed list grows by their number,
/// and every build still under construction afterwards is short of its
/// duration (or is the one just started).
pub proof fn lemma_tick_completes_what_is_done(cat: Catalogue, pre: RunState, post: RunState)
    requires
        state_wf(cat, pre),
        tick_spec(cat, pre, post),
        pre.tick < u64::MAX,
    ensures
        post.completed@.len() == pre.completed@.len() + pre.active@.filter(
            |b: ActiveProject| b.progress + 1 >= b.duration,
        ).len(),
        forall|j: int| 0 <= j < post.active@.len() ==> #[trigger] post.active@[j].progress < post.active@[j].duration
            || post.active@[j].progress == 0,
{
    let (s1, s2, s3, s4, s5) = choose|s1: RunState, s2: RunState, s3: RunState, s4: RunState, s5: RunState|
        #[trigger] tick_chain(cat, pre, s1, s2, s3, s4, s5, post);
    assert forall|j: int| 0 <= j < pre.active@.len() implies #[trigger] pre.active@[j].progress < u64::MAX by {
        assert(crate::state::active_bounded(cat, pre.active@[j]));
    }
    lemma_finishing_counted(pre.active@);
    assert(s1.active@ == advanced(pre.active@));
    assert(s2.active@ == unfinished(advanced(pre.active@)));
    assert(s4.active == s2.active && s4.completed == s2.completed && s4.queue == pre.queue);
    assert(post.active == s5.active && post.completed == s5.completed);
    if s4.queue@.len() > 0 {
        let head = s4.queue@[0];
        match head_block_spec(cat, s4, head) {
            None => {
                assert forall|j: int| 0 <= j < s5.active@.len() implies #[trigger] s5.active@[j].progress < s5.active@[j].duration
                    || s5.active@[j].progress == 0 by {
                    if j < s4.active@.len() {
                        assert(s5.active@[j] == s4.active@[j]);
                    }
                }
            },
            Some(reason) => {},
        }
    }
}

/// A tick that starts nothing leaves Finance at its old stock plus its
/// delta.
pub proof fn lemma_idle_tick_accrues_finance(cat: Catalogue, pre: RunState, post: RunState)
    requires
        state_wf(cat, pre),
        tick_spec(cat, pre, post),
        pre.tick < u64::MAX,
        post.queue@ == pre.queue@,
    ensures
        post.finance_milli == pre.finance_milli + pre.finance_delta_milli,
{
    let (s1, s2, s3, s4, s5) = choose|s1: RunState, s2: RunState, s3: RunState, s4: RunState, s5: RunState|
        #[trigger] tick_chain(cat, pre, s1, s2, s3, s4, s5, post);
    assert(s1.finance_milli == pre.finance_milli + pre.finance_delta_milli);
    assert(s3.finance_milli == s1.finance_milli);
    assert(s4.finance_milli == s3.finance_milli && s4.queue == pre.queue);
    if s4.queue@.len() > 0 {
        let head = s4.queue@[0];
        if head_block_spec(cat, s4, head) is None {
            assert(s5.queue@.len() == s4.queue@.len() - 1);
            assert(post.queue@.len() == s5.queue@.len());
        }
    }
    assert(post.finance_milli == s5.finance_milli);
}

/// Victory is recorded on the first tick that ends with no emissions left in
/// any cell and non-negative Finance and Mandate deltas, stamped with that
/// tick.
pub proof fn lemma_victory_is_recorded(cat: Catalogue, pre: RunState, post: RunState)
    requires
        tick_spec(cat, pre, post),
        pre.tick < u64::MAX,
    ensures
        pre.victory_tick is None && all_emissions(post) == 0 && post.finance_delta_milli >= 0
            && post.mandate_delta_milli >= 0 ==> post.victory_tick == Some(post.tick),
        pre.victory_tick is None && post.victory_tick is Some ==> all_emissions(post) == 0
            && post.finance_delta_milli >= 0 && post.mandate_delta_milli >= 0
            && post.victory_tick == Some(post.tick),
        pre.victory_tick is Some ==> post.victory_tick == pre.victory_tick,
{
    let (s1, s2, s3, s4, s5) = choose|s1: RunState, s2: RunState, s3: RunState, s4: RunState, s5: RunState|
        #[trigger] tick_chain(cat, pre, s1, s2, s3, s4, s5, post);
    assert(post.tick == s1.tick);
    assert(post.sector_emissions_milli == s5.sector_emissions_milli);
    assert(s5.victory_tick == pre.victory_tick) by {
        assert(s1.victory_tick == pre.victory_tick);
    }
}

// ------------------------------------------------------------ the bots' targets

/// The remaining emissions of continent `c`: the sum over its sectors.
pub open spec fn emissions_of(s: RunState, c: int) -> int {
    s.sector_emissions_milli[c][0] + s.sector_emissions_milli[c][1] + s.sector_emissions_milli[c][2]
}

/// The continent the bots treat as worst has the most remaining emissions;
/// among continents tied at the most, it is the last in world order.
pub proof fn lemma_worst_continent_has_the_most(s: RunState)
    ensures
        ({
            let w = continent_index(worst_continent_spec(s));
            &&& forall|c: int| 0 <= c < 3 ==> emissions_of(s, c) <= emissions_of(s, w)
            &&& forall|c: int| w < c < 3 ==> emissions_of(s, c) < emissions_of(s, w)
        }),
{
}

proof fn lemma_worst_cell_upto(s: RunState, k: int)
    requires
        0 <= k <= 9,
    ensures
        worst_cell_upto(s, k) is None <==> forall|j: int| 0 <= j < k ==> #[trigger] cell_emission(s, j) <= 0,
        worst_cell_upto(s, k) matches Some(w) ==> {
            &&& 0 <= w < k
            &&& cell_emission(s, w) > 0
            &&& forall|j: int| 0 <= j < k ==> #[trigger] cell_emission(s, j) <= cell_emission(s, w)
            &&& forall|j: int| w < j < k ==> #[trigger] cell_emission(s, j) < cell_emission(s, w)
        },
    decreases k,
{
    if k > 0 {
        lemma_worst_cell_upto(s, k - 1);
    }
}

/// The cell the bots target is the one (continent by sector) with the most
/// remaining emissions, the last such in continent-major order; there is
/// none exactly when no cell has emissions left.
pub proof fn lemma_worst_cell_has_the_most(s: RunState)
    ensures
        worst_cell_upto(s, 9) is None <==> forall|c: int, t: int|
            0 <= c < 3 && 0 <= t < 3 ==> #[trigger] s.sector_emissions_milli[c][t] <= 0,
        worst_cell_upto(s, 9) matches Some(w) ==> {
            &&& 0 <= w < 9
            &&& s.sector_emissions_milli[w / 3][w % 3] > 0
            &&& forall|c: int, t: int|
                0 <= c < 3 && 0 <= t < 3 ==> #[trigger] s.sector_emissions_milli[c][t]
                    <= s.sector_emissions_milli[w / 3][w % 3]
        },
{
    lemma_worst_cell_upto(s, 9);
    if worst_cell_upto(s, 9) is None {
        assert forall|c: int, t: int| 0 <= c < 3 && 0 <= t < 3 implies #[trigger] s.sector_emissions_milli[c][t] <= 0 by {
            let j = c * 3 + t;
            assert(j / 3 == c && j % 3 == t);
            assert(cell_emission(s, j) <= 0);
        }
    } else {
        let w = worst_cell_upto(s, 9)->0;
        assert forall|c: int, t: int| 0 <= c < 3 && 0 <= t < 3 implies #[trigger] s.sector_emissions_milli[c][t]
            <= s.sector_emissions_milli[w / 3][w % 3] by {
            let j = c * 3 + t;
            assert(j / 3 == c && j % 3 == t);
            assert(cell_emission(s, j) <= cell_emission(s, w));
        }
    }
}

/// What the bots queue next. Capacity-first first builds grid
/// modernisation on the first continent, in world order, that neither has it
/// nor is building it. Deploy-first with more than 6,000 Finance (6,000,000
/// milli), fewer than three secretariats ever built and none in flight
/// builds a secretariat on the continent with the most emissions. Otherwise
/// both deploy: nothing when no cell has emissions left, wind and solar on
/// the continent whose Power cell is the worst cell.
pub proof fn lemma_bot_picks(cat: Catalogue, s: RunState)
    ensures
        ({
            let grid = "grid-modernisation"@;
            forall|c: int| 0 <= c < 3 && missing_on(cat, s, grid, continent_at(c)) && (forall|e: int|
                0 <= e < c ==> !#[trigger] missing_on(cat, s, grid, continent_at(e)))
                ==> pick_spec(cat, s, Strategy::CapacityFirst) == Some((grid, continent_at(c)))
        }),
        s.finance_milli > 6_000_000 && ever_spec(cat, s, "cfa-regional-secretariats"@) < 3
            && !in_flight_spec(cat, s, "cfa-regional-secretariats"@, None) ==> ({
            let pick = pick_spec(cat, s, Strategy::DeployFirst);
            &&& pick matches Some((id, lead)) && id == "cfa-regional-secretariats"@ && forall|c: int|
                0 <= c < 3 ==> #[trigger] emissions_of(s, c) <= emissions_of(s, continent_index(lead))
        }),
        !(s.finance_milli > 6_000_000 && ever_spec(cat, s, "cfa-regional-secretariats"@) < 3
            && !in_flight_spec(cat, s, "cfa-regional-secretariats"@, None)) ==> {
            &&& (forall|c: int, t: int| 0 <= c < 3 && 0 <= t < 3 ==> #[trigger] s.sector_emissions_milli[c][t] <= 0)
                ==> pick_spec(cat, s, Strategy::DeployFirst) is None
            &&& forall|c: int|
                0 <= c < 3 && s.sector_emissions_milli[c][0] > 0 && (forall|d: int, t: int|
                    0 <= d < 3 && 0 <= t < 3 && !(d == c && t == 0) ==> #[trigger] s.sector_emissions_milli[d][t]
                        < s.sector_emissions_milli[c][0])
                    ==> pick_spec(cat, s, Strategy::DeployFirst) == Some(("wind-solar-deployment"@, continent_at(c)))
        },
{
    lemma_worst_continent_has_the_most(s);
    lemma_worst_cell_has_the_most(s);
    let grid = "grid-modernisation"@;
    assert forall|c: int| 0 <= c < 3 && missing_on(cat, s, grid, continent_at(c)) && (forall|e: int|
        0 <= e < c ==> !#[trigger] missing_on(cat, s, grid, continent_at(e)))
        implies pick_spec(cat, s, Strategy::CapacityFirst) == Some((grid, continent_at(c))) by {
        if c == 1 {
            assert(!missing_on(cat, s, grid, continent_at(0)));
        } else if c == 2 {
            assert(!missing_on(cat, s, grid, continent_at(0)));
            assert(!missing_on(cat, s, grid, continent_at(1)));
        }
    }
    assert forall|c: int|
        0 <= c < 3 && s.sector_emissions_milli[c][0] > 0 && (forall|d: int, t: int|
            0 <= d < 3 && 0 <= t < 3 && !(d == c && t == 0) ==> #[trigger] s.sector_emissions_milli[d][t]
                < s.sector_emissions_milli[c][0])
        implies worst_cell_upto(s, 9) == Some(c * 3) by {
        if worst_cell_upto(s, 9) is None {
            assert(s.sector_emissions_milli[c][0] <= 0);
        } else {
            let w = worst_cell_upto(s, 9)->0;
            let wc = w / 3;
            let wt = w % 3;
            assert(s.sector_emissions_milli[c][0] <= s.sector_emissions_milli[wc][wt]);
            if !(wc == c && wt == 0) {
                assert(s.sector_emissions_milli[wc][wt] < s.sector_emissions_milli[c][0]);
            }
            assert(w == wc * 3 + wt);
        }
    }
}

} // verus!
