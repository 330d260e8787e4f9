//! Projected outcome previews. A preview realises the project hypothetically
//! against a copy of the current state and derives it, by the same
//! realisation and derivation a completion goes through, so a preview equals
//! the realised effect under unchanged conditions. It separates guaranteed
//! direct effects (costs, reductions at current scaling, icon totals) from
//! conditional consequences (unlocks, unmet breakpoints).

use vstd::prelude::*;

use crate::calc::{
    bonus_spec, breakpoint_modifiers, breakpoints_met_ids, first_unmet, lemma_bonus_bounds,
    modifiers_view, reduction_bonus, scaling_modifiers, CalcTrace, Modifier, MAG,
};
use crate::catalogue::{first_with_id, id_exists, Catalogue};
use crate::derive::derive_state;
use crate::schema::{Breakpoint, EffectOp, ScopedEffect};
use crate::sim::{cost_fits, cost_spec, cost_trace_of, duration_spec, id_index, Sim};
use crate::state::{
    def_bounded, derived_fields, effects_unlock, inputs_wf, sum3, sum_completed, sum_effects,
    unlocked_by_completed, ActiveProject, CompletedProject, Measure, RealizedEffect, RunState,
    LIST_MAX,
};
use crate::tick::{completion_of, realize_effects, realized_matches};
use crate::world::{continent_index, Continent};

verus! {

/// What queueing a project now would cost and bring about.
#[derive(Debug, Clone)]
pub struct Preview {
    pub project: String,
    pub lead: Continent,
    pub finance_cost_milli: i64,
    pub mandate_cost_milli: i64,
    pub duration_ticks: u64,
    pub cost_trace: CalcTrace,
    /// Ticks until both Finance and Mandate cover the costs at current
    /// deltas: 0 if affordable now, `None` if a needed delta is not positive.
    pub ticks_until_affordable: Option<u64>,
    pub emissions_change_milli: [i64; 3],
    pub global_emissions_change_milli: i64,
    pub finance_delta_change_milli: i64,
    pub mandate_delta_change_milli: i64,
    pub mandate_max_change_milli: i64,
    pub icons_after: [[i64; 4]; 3],
    /// The active scaling calculation for the project's reductions.
    pub reduction_modifiers: Vec<Modifier>,
    pub reduction_bonus_permille: i64,
    pub breakpoints_met: Vec<String>,
    pub next_breakpoint: Option<Breakpoint>,
    pub unlocks: Vec<String>,
}

// ------------------------------------------------------------ affordability

/// Ticks until a stock of `have` covers `need` while growing by `delta` per
/// tick: zero if it already does, none if it never will.
pub open spec fn affordable_spec(have: int, need: int, delta: int) -> Option<int> {
    let shortfall = need - have;
    if shortfall <= 0 {
        Some(0)
    } else if delta <= 0 {
        None
    } else {
        Some((shortfall + delta - 1) / delta)
    }
}

/// The number of ticks `affordable_spec` gives is the least that covers the
/// need.
pub proof fn lemma_affordable_is_least(have: int, need: int, delta: int)
    requires
        affordable_spec(have, need, delta) is Some,
    ensures
        ({
            let n = affordable_spec(have, need, delta)->0;
            &&& n >= 0
            &&& have + n * delta >= need
            &&& n > 0 ==> have + (n - 1) * delta < need
        }),
{
    let shortfall = need - have;
    if shortfall > 0 {
        let n = (shortfall + delta - 1) / delta;
        assert(n * delta >= shortfall && (n - 1) * delta < shortfall && n >= 1) by (nonlinear_arith)
            requires
                shortfall > 0,
                delta > 0,
                n == (shortfall + delta - 1) / delta,
        ;
    }
}

/// Ticks until `have` covers `need` at `delta` per tick.
pub fn affordable_in(have_milli: i64, need_milli: i64, delta_milli: i64) -> (r: Option<u64>)
    requires
        i64::MIN <= need_milli - have_milli <= i64::MAX,
        need_milli - have_milli > 0 && delta_milli > 0 ==> need_milli - have_milli + delta_milli
            <= i64::MAX,
    ensures
        match r {
            Some(n) => affordable_spec(have_milli as int, need_milli as int, delta_milli as int)
                == Some(n as int),
            None => affordable_spec(have_milli as int, need_milli as int, delta_milli as int) is None,
        },
{
    let shortfall = need_milli - have_milli;
    if shortfall <= 0 {
        Some(0)
    } else if delta_milli <= 0 {
        None
    } else {
        Some(((shortfall + delta_milli - 1) / delta_milli) as u64)
    }
}

/// Ticks until both stocks cover a project's costs: the later of the two.
pub open spec fn both_affordable(s: RunState, cost: int, mandate_cost: int) -> Option<int> {
    match (
        affordable_spec(s.finance_milli as int, cost, s.finance_delta_milli as int),
        affordable_spec(s.mandate_milli as int, mandate_cost, s.mandate_delta_milli as int),
    ) {
        (Some(f), Some(m)) => Some(if f >= m { f } else { m }),
        _ => None,
    }
}

// ------------------------------------------------------- the hypothetical

/// Two completion records a derivation cannot tell apart.
pub open spec fn same_record(a: CompletedProject, b: CompletedProject) -> bool {
    &&& a.project == b.project
    &&& a.lead == b.lead
    &&& a.realized@ == b.realized@
}

pub open spec fn same_records(x: Seq<CompletedProject>, y: Seq<CompletedProject>) -> bool {
    &&& x.len() == y.len()
    &&& forall|i: int| 0 <= i < x.len() ==> same_record(#[trigger] x[i], y[i])
}

/// Two states agree on everything a derivation reads but the completed list.
pub open spec fn same_other_inputs(a: RunState, b: RunState) -> bool {
    &&& a.bonus_icons == b.bonus_icons
    &&& a.active@ == b.active@
    &&& a.unlocked@ == b.unlocked@
    &&& a.baseline_emissions_milli == b.baseline_emissions_milli
    &&& a.baseline_finance_income_milli == b.baseline_finance_income_milli
    &&& a.baseline_mandate_income_milli == b.baseline_mandate_income_milli
    &&& a.mandate_milli == b.mandate_milli
    &&& a.slots_total == b.slots_total
}

/// Two states a derivation cannot tell apart.
pub open spec fn same_inputs(a: RunState, b: RunState) -> bool {
    same_other_inputs(a, b) && same_records(a.completed@, b.completed@)
}

/// The build a preview realises: project `k` led on `lead`.
pub open spec fn previewed_build(k: int, lead: Continent) -> ActiveProject {
    ActiveProject { project: k as u32, lead, started: 0, progress: 0, duration: 0 }
}

/// `raw` is `s` with project `k` led on `lead` completed now, its effects
/// realised at the current icons.
pub open spec fn previewed(cat: Catalogue, s: RunState, k: int, lead: Continent, raw: RunState) -> bool {
    &&& same_other_inputs(raw, s)
    &&& raw.completed@.len() == s.completed@.len() + 1
    &&& same_records(raw.completed@.drop_last(), s.completed@)
    &&& completion_of(cat, s.icons, previewed_build(k, lead), s.tick, raw.completed@.last())
}

/// `hyp` is the derivation of a previewed state.
pub open spec fn hypothesis(
    cat: Catalogue,
    s: RunState,
    k: int,
    lead: Continent,
    raw: RunState,
    hyp: RunState,
) -> bool {
    previewed(cat, s, k, lead, raw) && derived_fields(cat, raw, hyp)
}

/// The direct effects a preview reports: derived quantities of `hyp` against
/// those of `s`.
pub open spec fn preview_effects(s: RunState, hyp: RunState, p: Preview) -> bool {
    &&& forall|c: int|
        0 <= c < 3 ==> #[trigger] p.emissions_change_milli[c] == sum3(hyp.sector_emissions_milli[c])
            - sum3(s.sector_emissions_milli[c])
    &&& p.global_emissions_change_milli == p.emissions_change_milli[0]
        + p.emissions_change_milli[1] + p.emissions_change_milli[2]
    &&& p.finance_delta_change_milli == hyp.finance_delta_milli - s.finance_delta_milli
    &&& p.mandate_delta_change_milli == hyp.mandate_delta_milli - s.mandate_delta_milli
    &&& p.mandate_max_change_milli == hyp.mandate_max_milli - s.mandate_max_milli
    &&& forall|c: int, i: int| 0 <= c < 3 && 0 <= i < 4 ==> #[trigger] p.icons_after[c][i] == hyp.icons[c][i]
}

/// The projects a list of authored effects would newly unlock: each named
/// project that exists and is still locked, in authored order.
pub open spec fn new_unlocks(cat: Catalogue, unlocked: Seq<bool>, effs: Seq<ScopedEffect>) -> Seq<
    Seq<char>,
>
    decreases effs.len(),
{
    if effs.len() == 0 {
        seq![]
    } else {
        new_unlocks(cat, unlocked, effs.drop_last()) + match effs.last().op {
            EffectOp::UnlockProject { project } => if id_exists(cat.projects@, project@)
                && !unlocked[id_index(cat.projects@, project@)] {
                seq![project@]
            } else {
                seq![]
            },
            _ => seq![],
        }
    }
}

/// `p` previews queueing project `k` led on `lead` in state `s`.
pub open spec fn preview_of(cat: Catalogue, s: RunState, k: int, lead: Continent, p: Preview) -> bool {
    let def = cat.projects@[k];
    let row = s.icons[continent_index(lead)];
    &&& p.project@ == def.id@
    &&& p.lead == lead
    &&& p.finance_cost_milli == cost_spec(cat, s, k)
    &&& cost_trace_of(cat, s, k, p.cost_trace)
    &&& p.mandate_cost_milli == def.mandate_cost * 1000
    &&& p.duration_ticks == duration_spec(cat, s, k)
    &&& match p.ticks_until_affordable {
        Some(n) => both_affordable(s, cost_spec(cat, s, k), def.mandate_cost * 1000) == Some(n as int),
        None => both_affordable(s, cost_spec(cat, s, k), def.mandate_cost * 1000) is None,
    }
    &&& p.reduction_bonus_permille == bonus_spec(def, row)
    &&& modifiers_view(p.reduction_modifiers@) == scaling_modifiers(def.scaling@, row)
        + breakpoint_modifiers(def.breakpoints@, row)
    &&& p.breakpoints_met@.map_values(|x: String| x@) == breakpoints_met_ids(def.breakpoints@, row)
    &&& p.next_breakpoint == first_unmet(def.breakpoints@, row)
    &&& p.unlocks@.map_values(|x: String| x@) == new_unlocks(cat, s.unlocked@, def.effects@)
    &&& exists|raw: RunState, hyp: RunState|
        #[trigger] hypothesis(cat, s, k, lead, raw, hyp) && preview_effects(s, hyp, p)
}

// ---------------------------------------------------- derivation inputs

pub proof fn lemma_sum_completed_same(x: Seq<CompletedProject>, y: Seq<CompletedProject>, m: Measure)
    requires
        same_records(x, y),
    ensures
        sum_completed(x, m) == sum_completed(y, m),
    decreases x.len(),
{
    if x.len() > 0 {
        assert(same_record(x[x.len() - 1], y[y.len() - 1]));
        assert(same_records(x.drop_last(), y.drop_last())) by {
            assert forall|i: int| 0 <= i < x.drop_last().len() implies same_record(
                #[trigger] x.drop_last()[i],
                y.drop_last()[i],
            ) by {
                assert(same_record(x[i], y[i]));
            }
        }
        lemma_sum_completed_same(x.drop_last(), y.drop_last(), m);
    }
}

pub proof fn lemma_unlocked_same(cat: Catalogue, x: Seq<CompletedProject>, y: Seq<CompletedProject>, k: int)
    requires
        same_records(x, y),
    ensures
        unlocked_by_completed(cat, x, k) == unlocked_by_completed(cat, y, k),
{
    if unlocked_by_completed(cat, x, k) {
        let d = choose|d: int| 0 <= d < x.len() && effects_unlock(cat, (#[trigger] x[d]).realized@, k);
        assert(same_record(x[d], y[d]));
        assert(effects_unlock(cat, y[d].realized@, k));
    }
    if unlocked_by_completed(cat, y, k) {
        let d = choose|d: int| 0 <= d < y.len() && effects_unlock(cat, (#[trigger] y[d]).realized@, k);
        assert(same_record(x[d], y[d]));
        assert(effects_unlock(cat, x[d].realized@, k));
    }
}

/// A derivation reads nothing but its inputs: two states it cannot tell
/// apart derive the same icons, unlocks, emissions, deltas, mandate maximum,
/// capped mandate and slot count.
pub proof fn lemma_derivation_deterministic(
    cat: Catalogue,
    a: RunState,
    b: RunState,
    ha: RunState,
    hb: RunState,
)
    requires
        same_inputs(a, b),
        derived_fields(cat, a, ha),
        derived_fields(cat, b, hb),
    ensures
        ha.icons == hb.icons,
        ha.unlocked@ == hb.unlocked@,
        ha.sector_emissions_milli == hb.sector_emissions_milli,
        ha.finance_delta_milli == hb.finance_delta_milli,
        ha.mandate_delta_milli == hb.mandate_delta_milli,
        ha.mandate_max_milli == hb.mandate_max_milli,
        ha.mandate_milli == hb.mandate_milli,
        ha.slots_total == hb.slots_total,
{
    assert forall|m: Measure| #[trigger] sum_completed(a.completed@, m) == sum_completed(b.completed@, m) by {
        lemma_sum_completed_same(a.completed@, b.completed@, m);
    }
    assert forall|c: int| 0 <= c < 3 implies #[trigger] ha.icons[c] =~= hb.icons[c] by {
        assert forall|i: int| 0 <= i < 4 implies ha.icons[c][i] == hb.icons[c][i] by {
            assert(sum_completed(a.completed@, Measure::Icon(c, i)) == sum_completed(b.completed@, Measure::Icon(c, i)));
        }
    }
    assert(ha.icons =~= hb.icons);
    assert forall|k: int| 0 <= k < a.unlocked@.len() implies #[trigger] ha.unlocked@[k] == hb.unlocked@[k] by {
        lemma_unlocked_same(cat, a.completed@, b.completed@, k);
    }
    assert(ha.unlocked@ =~= hb.unlocked@);
    assert forall|c: int| 0 <= c < 3 implies #[trigger] ha.sector_emissions_milli[c] =~= hb.sector_emissions_milli[c] by {
        assert forall|t: int| 0 <= t < 3 implies ha.sector_emissions_milli[c][t] == hb.sector_emissions_milli[c][t] by {
            assert(sum_completed(a.completed@, Measure::Reduction(c, t)) == sum_completed(b.completed@, Measure::Reduction(c, t)));
        }
    }
    assert(ha.sector_emissions_milli =~= hb.sector_emissions_milli);
    assert(sum_completed(a.completed@, Measure::FinanceDelta) == sum_completed(b.completed@, Measure::FinanceDelta));
    assert(sum_completed(a.completed@, Measure::MandateDelta) == sum_completed(b.completed@, Measure::MandateDelta));
    assert(sum_completed(a.completed@, Measure::MandateMax) == sum_completed(b.completed@, Measure::MandateMax));
}

// ------------------------------------------------------------- preview

/// A copy of a completion record that a derivation cannot tell apart from it.
fn copy_record(d: &CompletedProject) -> (r: CompletedProject)
    ensures
        same_record(*d, r),
        r.tick == d.tick,
        r.bonus_permille == d.bonus_permille,
{
    let mut realized: Vec<RealizedEffect> = Vec::new();
    let mut k: usize = 0;
    while k < d.realized.len()
        invariant
            k <= d.realized@.len(),
            realized@ == d.realized@.take(k as int),
        decreases d.realized@.len() - k,
    {
        let effect = &d.realized[k];
        realized.push(RealizedEffect { op: effect.op.duplicate(), scope: effect.scope });
        assert(realized@ =~= d.realized@.take(k as int + 1));
        k = k + 1;
    }
    assert(d.realized@.take(d.realized@.len() as int) =~= d.realized@);
    CompletedProject {
        project: d.project,
        lead: d.lead,
        tick: d.tick,
        realized,
        bonus_permille: d.bonus_permille,
    }
}

/// The projects `def`'s effects would newly unlock.
fn unlocks_of(catalogue: &Catalogue, unlocked: &Vec<bool>, effects: &Vec<ScopedEffect>) -> (r: Vec<String>)
    requires
        unlocked@.len() == catalogue.projects@.len(),
    ensures
        r@.map_values(|x: String| x@) == new_unlocks(*catalogue, unlocked@, effects@),
{
    let mut unlocks: Vec<String> = Vec::new();
    let mut e: usize = 0;
    while e < effects.len()
        invariant
            e <= effects@.len(),
            unlocked@.len() == catalogue.projects@.len(),
            unlocks@.map_values(|x: String| x@) == new_unlocks(*catalogue, unlocked@, effects@.take(e as int)),
        decreases effects@.len() - e,
    {
        assert(effects@.take(e as int + 1).drop_last() =~= effects@.take(e as int));
        assert(effects@.take(e as int + 1).last() == effects@[e as int]);
        let ghost before = unlocks@.map_values(|x: String| x@);
        match &effects[e].op {
            EffectOp::UnlockProject { project } => {
                match catalogue.project_index(project.as_str()) {
                    Some(target) => {
                        assert(id_index(catalogue.projects@, project@) == target);
                        if !unlocked[target] {
                            unlocks.push(project.clone());
                            assert(unlocks@.map_values(|x: String| x@) =~= before.push(project@));
                        }
                    },
                    None => {},
                }
            },
            _ => {},
        }
        e = e + 1;
    }
    assert(effects@.take(effects@.len() as int) =~= effects@);
    unlocks
}

/// Preview queueing `project` led on `lead`; `None` for an unknown id.
pub fn preview(sim: &Sim, project: &str, lead: Continent) -> (r: Option<Preview>)
    requires
        sim.wf(),
        sim.state.completed@.len() < LIST_MAX,
        forall|k: int| first_with_id(sim.cat().projects@, k, project@) ==> cost_fits(sim.cat(), sim.state, k),
    ensures
        match r {
            None => !id_exists(sim.cat().projects@, project@),
            Some(p) => exists|k: int|
                first_with_id(sim.cat().projects@, k, project@) && #[trigger] preview_of(sim.cat(), sim.state, k, lead, p),
        },
{
    let catalogue = sim.catalogue();
    let index = match catalogue.project_index(project) {
        Some(index) => index,
        None => return None,
    };
    let ghost cat = sim.cat();
    let ghost s = sim.state;
    let def = &catalogue.projects[index];
    assert(def_bounded(*def));

    let (finance_cost_milli, cost_trace) = sim.current_cost_milli(index, lead);
    proof {
        crate::sim::lemma_cost_magnitude(cat, s, index as int);
    }
    let mandate_cost_milli = def.mandate_cost * 1000;
    let duration_ticks = sim.current_duration(index);

    // Realise hypothetically: the same realisation a completion performs.
    assert(crate::calc::row_bounded(sim.state.icons[continent_index(lead)]));
    proof {
        crate::calc::lemma_bounded_bonus_fits(*def, sim.state.icons[continent_index(lead)]);
    }
    let bonus = reduction_bonus(def, lead, &sim.state.icons);
    proof {
        lemma_bonus_bounds(*def, sim.state.icons[continent_index(lead)]);
    }
    let realized = realize_effects(def, bonus.bonus_permille);

    let mut done: Vec<CompletedProject> = Vec::new();
    let mut d: usize = 0;
    while d < sim.state.completed.len()
        invariant
            d <= s.completed@.len(),
            s == sim.state,
            done@.len() == d,
            forall|i: int| 0 <= i < d ==> same_record(#[trigger] done@[i], s.completed@[i]),
        decreases s.completed@.len() - d,
    {
        let copy = copy_record(&sim.state.completed[d]);
        done.push(copy);
        d = d + 1;
    }
    let ghost prior = done@;
    done.push(
        CompletedProject {
            project: index as u32,
            lead,
            tick: sim.state.tick,
            realized,
            bonus_permille: bonus.bonus_permille,
        },
    );
    let mut hypothetical = RunState {
        tick: sim.state.tick,
        paused: sim.state.paused,
        seed: sim.state.seed,
        streams: sim.state.streams,
        baseline_emissions_milli: sim.state.baseline_emissions_milli,
        baseline_finance_income_milli: sim.state.baseline_finance_income_milli,
        baseline_mandate_income_milli: sim.state.baseline_mandate_income_milli,
        finance_milli: sim.state.finance_milli,
        mandate_milli: sim.state.mandate_milli,
        bonus_icons: sim.state.bonus_icons,
        queue: sim.state.queue.clone(),
        active: sim.state.active.clone(),
        completed: done,
        completions_ever: sim.state.completions_ever.clone(),
        unlocked: sim.state.unlocked.clone(),
        opportunities: sim.state.opportunities.clone(),
        next_opportunity_tick: sim.state.next_opportunity_tick,
        victory_tick: sim.state.victory_tick,
        last_block: sim.state.last_block.clone(),
        sector_emissions_milli: sim.state.sector_emissions_milli,
        icons: sim.state.icons,
        finance_delta_milli: sim.state.finance_delta_milli,
        mandate_delta_milli: sim.state.mandate_delta_milli,
        mandate_max_milli: sim.state.mandate_max_milli,
        slots_total: sim.state.slots_total,
        trace: sim.state.trace.clone(),
    };
    let ghost raw = hypothetical;
    proof {
        assert(raw.queue@ =~= s.queue@);
        assert(raw.active@ =~= s.active@);
        assert(raw.completions_ever@ =~= s.completions_ever@);
        assert(raw.unlocked@ =~= s.unlocked@);
        assert(raw.opportunities@ =~= s.opportunities@);
        assert(raw.completed@.drop_last() =~= prior);
        let c = raw.completed@.last();
        assert(completion_of(cat, s.icons, previewed_build(index as int, lead), s.tick, c));
        assert(previewed(cat, s, index as int, lead, raw));
        assert forall|i: int| 0 <= i < raw.completed@.len() implies crate::state::completed_bounded(
            cat,
            #[trigger] raw.completed@[i],
        ) by {
            if i < s.completed@.len() {
                assert(same_record(raw.completed@[i], s.completed@[i]));
                assert(crate::state::completed_bounded(cat, s.completed@[i]));
            } else {
                assert forall|j: int| 0 <= j < c.realized@.len() implies crate::state::realized_op_bounded(
                    (#[trigger] c.realized@[j]).op,
                ) by {
                    assert(realized_matches(c.realized@[j], def.effects@[j], bonus.bonus_permille as int));
                }
            }
        }
        assert(inputs_wf(cat, raw));
    }
    derive_state(catalogue, &mut hypothetical);
    let ghost hyp = hypothetical;

    let mut emissions_change = [0i64; 3];
    let mut c: usize = 0;
    while c < 3
        invariant
            c <= 3,
            crate::state::state_wf(cat, hyp),
            crate::state::state_wf(cat, s),
            hyp == hypothetical,
            s == sim.state,
            forall|x: int|
                0 <= x < c ==> #[trigger] emissions_change[x] == sum3(hyp.sector_emissions_milli[x])
                    - sum3(s.sector_emissions_milli[x]),
        decreases 3 - c,
    {
        let continent = Continent::ALL[c];
        assert(continent_index(continent) == c);
        emissions_change[c] = hypothetical.continent_emissions_milli(continent)
            - sim.state.continent_emissions_milli(continent);
        c = c + 1;
    }

    let unlocks = unlocks_of(catalogue, &sim.state.unlocked, &def.effects);

    let ticks_until_affordable = match affordable_in(
        sim.state.finance_milli,
        finance_cost_milli,
        sim.state.finance_delta_milli,
    ) {
        Some(finance_wait) => match affordable_in(
            sim.state.mandate_milli,
            mandate_cost_milli,
            sim.state.mandate_delta_milli,
        ) {
            Some(mandate_wait) => Some(
                if finance_wait >= mandate_wait {
                    finance_wait
                } else {
                    mandate_wait
                },
            ),
            None => None,
        },
        None => None,
    };

    let p = Preview {
        project: def.id.clone(),
        lead,
        finance_cost_milli,
        mandate_cost_milli,
        duration_ticks,
        cost_trace,
        ticks_until_affordable,
        emissions_change_milli: emissions_change,
        global_emissions_change_milli: emissions_change[0] + emissions_change[1] + emissions_change[2],
        finance_delta_change_milli: hypothetical.finance_delta_milli - sim.state.finance_delta_milli,
        mandate_delta_change_milli: hypothetical.mandate_delta_milli - sim.state.mandate_delta_milli,
        mandate_max_change_milli: hypothetical.mandate_max_milli - sim.state.mandate_max_milli,
        icons_after: hypothetical.icons,
        reduction_modifiers: bonus.modifiers,
        reduction_bonus_permille: bonus.bonus_permille,
        breakpoints_met: bonus.breakpoints_met,
        next_breakpoint: bonus.next_breakpoint,
        unlocks,
    };
    assert(hypothesis(cat, s, index as int, lead, raw, hyp));
    assert(preview_effects(s, hyp, p));
    assert(preview_of(cat, s, index as int, lead, p));
    Some(p)
}

/// A preview equals what completing the project realises under unchanged
/// conditions: if project `k` led on `lead` completes in a state that differs
/// from the previewed one only by that completion, with its effects locked in
/// at the same icons, the derivation gives exactly the emissions, deltas,
/// mandate maximum and icons the preview reported.
pub proof fn lemma_preview_is_realised(
    cat: Catalogue,
    s: RunState,
    k: int,
    lead: Continent,
    p: Preview,
    b: ActiveProject,
    tick: u64,
    after: RunState,
    derived: RunState,
)
    requires
        0 <= k < cat.projects@.len() <= u32::MAX,
        preview_of(cat, s, k, lead, p),
        b.project == k,
        b.lead == lead,
        same_other_inputs(after, s),
        after.completed@.len() == s.completed@.len() + 1,
        after.completed@.drop_last() == s.completed@,
        completion_of(cat, s.icons, b, tick, after.completed@.last()),
        derived_fields(cat, after, derived),
    ensures
        preview_effects(s, derived, p),
{
    let (raw, hyp) = choose|raw: RunState, hyp: RunState|
        #[trigger] hypothesis(cat, s, k, lead, raw, hyp) && preview_effects(s, hyp, p);
    let x = raw.completed@;
    let y = after.completed@;
    assert(same_records(x, y)) by {
        assert forall|i: int| 0 <= i < x.len() implies same_record(#[trigger] x[i], y[i]) by {
            if i < s.completed@.len() {
                assert(same_record(x.drop_last()[i], s.completed@[i]));
                assert(y[i] == y.drop_last()[i]);
            } else {
                assert(x[i].realized@ =~= y[i].realized@);
            }
        }
    }
    lemma_derivation_deterministic(cat, raw, after, hyp, derived);
}

} // verus!
