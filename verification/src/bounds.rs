//! Run-time checks that authored content lies within the magnitudes the
//! simulation's integer arithmetic is proved for. A caller loading content
//! tests these before starting a run or validating.

use vstd::prelude::*;

use crate::calc::{bonus_rules_bounded, ICON_MAX, MAG};
use crate::catalogue::Catalogue;
use crate::schema::{EffectOp, OpportunityEffect, ProjectDef, Scenario};
use crate::state::{
    active_bounded, catalogue_bounded, completed_bounded, def_bounded, grid_within,
    income_table_bounded, inputs_wf, mag, op_bounded, opportunity_effect_bounded,
    realized_op_bounded, scenario_bounded, CompletedProject, RunState, BONUS_ICON_MAX, DUR_MAX,
    LIST_MAX, RED_MAX, STOCK_MAX, BASE_MAX,
};
use crate::world::Continent;

verus! {

fn within(x: i64) -> (r: bool)
    ensures
        r == mag(x as int),
{
    -MAG <= x && x <= MAG
}

fn op_fits(op: &EffectOp) -> (r: bool)
    ensures
        r == op_bounded(*op),
{
    match op {
        EffectOp::AddIcon { amount, .. } => within(*amount),
        EffectOp::RemoveIcon { amount, .. } => within(*amount),
        EffectOp::ReduceSectorEmissions { milli_gt, .. } => within(*milli_gt),
        EffectOp::AddFinanceIncome { milli_per_tick } => within(*milli_per_tick),
        EffectOp::AddMandateIncome { milli_per_tick } => within(*milli_per_tick),
        EffectOp::AddMandateMaximum { milli } => within(*milli),
        EffectOp::AddMaintenance { milli_per_tick } => within(*milli_per_tick),
        EffectOp::ModifyProjectCost { permille, .. } => within(*permille),
        EffectOp::ModifyProjectDuration { permille, .. } => within(*permille),
        EffectOp::UnlockProject { .. } => true,
    }
}

fn rules_fit(def: &ProjectDef) -> (r: bool)
    ensures
        r == bonus_rules_bounded(*def),
{
    if def.scaling.len() > 32 || def.breakpoints.len() > 32 {
        return false;
    }
    let mut k: usize = 0;
    while k < def.scaling.len()
        invariant
            k <= def.scaling@.len(),
            forall|j: int|
                0 <= j < k ==> {
                    &&& 0 <= (#[trigger] def.scaling@[j]).permille_per_icon <= MAG
                    &&& -MAG <= def.scaling@[j].cap_permille <= MAG
                },
        decreases def.scaling@.len() - k,
    {
        let rule = &def.scaling[k];
        if rule.permille_per_icon < 0 || rule.permille_per_icon > MAG || !within(rule.cap_permille) {
            return false;
        }
        k = k + 1;
    }
    let mut k: usize = 0;
    while k < def.breakpoints.len()
        invariant
            k <= def.breakpoints@.len(),
            forall|j: int|
                0 <= j < def.scaling@.len() ==> {
                    &&& 0 <= (#[trigger] def.scaling@[j]).permille_per_icon <= MAG
                    &&& -MAG <= def.scaling@[j].cap_permille <= MAG
                },
            forall|j: int| 0 <= j < k ==> -MAG <= (#[trigger] def.breakpoints@[j]).bonus_permille <= MAG,
        decreases def.breakpoints@.len() - k,
    {
        if !within(def.breakpoints[k].bonus_permille) {
            return false;
        }
        k = k + 1;
    }
    true
}

fn def_fits(def: &ProjectDef) -> (r: bool)
    ensures
        r == def_bounded(*def),
{
    let cost_in_range = def.finance_cost >= i64::MIN / 1000 && def.finance_cost <= i64::MAX / 1000;
    if !cost_in_range || !within(def.mandate_cost) || def.duration_ticks > MAG as u64
        || def.effects.len() > 64 {
        return false;
    }
    let mut k: usize = 0;
    while k < def.effects.len()
        invariant
            k <= def.effects@.len(),
            forall|j: int| 0 <= j < k ==> op_bounded((#[trigger] def.effects@[j]).op),
        decreases def.effects@.len() - k,
    {
        if !op_fits(&def.effects[k].op) {
            return false;
        }
        k = k + 1;
    }
    rules_fit(def)
}

fn incomes_bounded(v: &Vec<(Continent, i64)>) -> (r: bool)
    ensures
        r == income_table_bounded(v@),
{
    let mut k: usize = 0;
    while k < v.len()
        invariant
            k <= v@.len(),
            forall|j: int| 0 <= j < k ==> mag((#[trigger] v@[j]).1 as int),
        decreases v@.len() - k,
    {
        if !within(v[k].1) {
            return false;
        }
        k = k + 1;
    }
    true
}

fn scenario_fits(s: &Scenario) -> (r: bool)
    ensures
        r == scenario_bounded(*s),
{
    let stock_units = STOCK_MAX / 1000;
    if s.finance_start < -stock_units || s.finance_start > stock_units || s.mandate_start < -stock_units
        || s.mandate_start > stock_units || !within(s.mandate_max_start) {
        return false;
    }
    if !incomes_bounded(&s.finance_income_milli) || !incomes_bounded(&s.mandate_income_milli) {
        return false;
    }
    let mut k: usize = 0;
    while k < s.sector_baselines_milli_gt.len()
        invariant
            k <= s.sector_baselines_milli_gt@.len(),
            forall|j: int| 0 <= j < k ==> mag((#[trigger] s.sector_baselines_milli_gt@[j]).2 as int),
        decreases s.sector_baselines_milli_gt@.len() - k,
    {
        if !within(s.sector_baselines_milli_gt[k].2) {
            return false;
        }
        k = k + 1;
    }
    0 <= s.starting_variation_permille && s.starting_variation_permille < u32::MAX as i64 / 2 + 1
        && s.opportunity_gap_ticks.0 <= s.opportunity_gap_ticks.1 && s.opportunity_gap_ticks.1
        <= MAG as u64 && s.opportunity_lifetime_ticks <= MAG as u64 && s.slot_milestones.len() < u32::MAX as usize
}

impl Catalogue {
    /// Whether every authored magnitude and list size lies within the range
    /// a run is proved for.
    pub fn is_bounded(&self) -> (r: bool)
        ensures
            r == catalogue_bounded(*self),
    {
        if self.projects.len() > u32::MAX as usize || self.opportunities.len() > u32::MAX as usize {
            return false;
        }
        let mut k: usize = 0;
        while k < self.projects.len()
            invariant
                k <= self.projects@.len(),
                forall|j: int| 0 <= j < k ==> def_bounded(#[trigger] self.projects@[j]),
            decreases self.projects@.len() - k,
        {
            if !def_fits(&self.projects[k]) {
                return false;
            }
            k = k + 1;
        }
        let mut k: usize = 0;
        while k < self.opportunities.len()
            invariant
                k <= self.opportunities@.len(),
                forall|j: int| 0 <= j < self.projects@.len() ==> def_bounded(#[trigger] self.projects@[j]),
                forall|j: int| 0 <= j < k ==> opportunity_effect_bounded((#[trigger] self.opportunities@[j]).effect),
            decreases self.opportunities@.len() - k,
        {
            let fits = match self.opportunities[k].effect {
                OpportunityEffect::FinanceGrant { units } => within(units),
                OpportunityEffect::MandateBoost { milli } => within(milli),
                OpportunityEffect::IconGrant { .. } => true,
            };
            if !fits {
                return false;
            }
            k = k + 1;
        }
        scenario_fits(&self.scenario)
    }
}

fn realized_fits(op: &EffectOp) -> (r: bool)
    ensures
        r == realized_op_bounded(*op),
{
    match op {
        EffectOp::ReduceSectorEmissions { milli_gt, .. } => -RED_MAX <= *milli_gt && *milli_gt <= RED_MAX,
        _ => op_fits(op),
    }
}

fn completed_fits(c: &Catalogue, d: &CompletedProject) -> (r: bool)
    ensures
        r == completed_bounded(*c, *d),
{
    if d.project as usize >= c.projects.len() || d.realized.len() > 64 {
        return false;
    }
    let mut k: usize = 0;
    while k < d.realized.len()
        invariant
            k <= d.realized@.len(),
            forall|j: int| 0 <= j < k ==> realized_op_bounded((#[trigger] d.realized@[j]).op),
        decreases d.realized@.len() - k,
    {
        if !realized_fits(&d.realized[k].op) {
            return false;
        }
        k = k + 1;
    }
    true
}

fn grid3_within(g: &[[i64; 3]; 3], lo: i64, hi: i64) -> (r: bool)
    ensures
        r == grid_within(*g, lo as int, hi as int),
{
    let mut c: usize = 0;
    while c < 3
        invariant
            c <= 3,
            forall|a: int, i: int| 0 <= a < c && 0 <= i < 3 ==> lo <= #[trigger] g[a][i] <= hi,
        decreases 3 - c,
    {
        let mut i: usize = 0;
        while i < 3
            invariant
                c < 3,
                i <= 3,
                forall|a: int, j: int| 0 <= a < c && 0 <= j < 3 ==> lo <= #[trigger] g[a][j] <= hi,
                forall|j: int| 0 <= j < i ==> lo <= #[trigger] g[c as int][j] <= hi,
            decreases 3 - i,
        {
            if g[c][i] < lo || g[c][i] > hi {
                return false;
            }
            i = i + 1;
        }
        c = c + 1;
    }
    true
}

fn grid4_within(g: &[[i64; 4]; 3], lo: i64, hi: i64) -> (r: bool)
    ensures
        r == grid_within(*g, lo as int, hi as int),
{
    let mut c: usize = 0;
    while c < 3
        invariant
            c <= 3,
            forall|a: int, i: int| 0 <= a < c && 0 <= i < 4 ==> lo <= #[trigger] g[a][i] <= hi,
        decreases 3 - c,
    {
        let mut i: usize = 0;
        while i < 4
            invariant
                c < 3,
                i <= 4,
                forall|a: int, j: int| 0 <= a < c && 0 <= j < 4 ==> lo <= #[trigger] g[a][j] <= hi,
                forall|j: int| 0 <= j < i ==> lo <= #[trigger] g[c as int][j] <= hi,
            decreases 4 - i,
        {
            if g[c][i] < lo || g[c][i] > hi {
                return false;
            }
            i = i + 1;
        }
        c = c + 1;
    }
    true
}

fn row3_within(g: &[i64; 3]) -> (r: bool)
    ensures
        r == forall|k: int| 0 <= k < 3 ==> mag(#[trigger] g[k] as int),
{
    let ok = within(g[0]) && within(g[1]) && within(g[2]);
    assert(ok ==> forall|k: int| 0 <= k < 3 ==> mag(#[trigger] g[k] as int)) by {
        if ok {
            assert forall|k: int| 0 <= k < 3 implies mag(#[trigger] g[k] as int) by {
                if k == 0 {} else if k == 1 {} else {}
            }
        }
    }
    ok
}

/// Whether a run state's standing lists, stocks, baselines and ratchets lie
/// within the range a derivation of it is proved for, against `c`.
pub fn inputs_fit(c: &Catalogue, s: &RunState) -> (r: bool)
    ensures
        r == inputs_wf(*c, *s),
{
    if !c.is_bounded() {
        return false;
    }
    if s.completions_ever.len() != c.projects.len() || s.unlocked.len() != c.projects.len() {
        return false;
    }
    let mut k: usize = 0;
    while k < s.queue.len()
        invariant
            k <= s.queue@.len(),
            forall|j: int| 0 <= j < k ==> (#[trigger] s.queue@[j]).project < c.projects@.len(),
        decreases s.queue@.len() - k,
    {
        if s.queue[k].project as usize >= c.projects.len() {
            return false;
        }
        k = k + 1;
    }
    if s.active.len() > LIST_MAX || s.completed.len() > LIST_MAX {
        return false;
    }
    let mut k: usize = 0;
    while k < s.active.len()
        invariant
            k <= s.active@.len(),
            forall|j: int| 0 <= j < k ==> active_bounded(*c, #[trigger] s.active@[j]),
        decreases s.active@.len() - k,
    {
        let b = s.active[k];
        if b.project as usize >= c.projects.len() || b.progress > b.duration || b.duration < 1
            || b.duration > DUR_MAX {
            return false;
        }
        k = k + 1;
    }
    let mut k: usize = 0;
    while k < s.completed.len()
        invariant
            k <= s.completed@.len(),
            forall|j: int| 0 <= j < k ==> completed_bounded(*c, #[trigger] s.completed@[j]),
        decreases s.completed@.len() - k,
    {
        if !completed_fits(c, &s.completed[k]) {
            return false;
        }
        k = k + 1;
    }
    let mut k: usize = 0;
    while k < s.opportunities.len()
        invariant
            k <= s.opportunities@.len(),
            forall|j: int| 0 <= j < k ==> (#[trigger] s.opportunities@[j]).def < c.opportunities@.len(),
        decreases s.opportunities@.len() - k,
    {
        if s.opportunities[k].def as usize >= c.opportunities.len() {
            return false;
        }
        k = k + 1;
    }
    let scalars = -STOCK_MAX <= s.finance_milli && s.finance_milli <= STOCK_MAX && -STOCK_MAX
        <= s.mandate_milli && s.mandate_milli <= STOCK_MAX && -10_000_000_000_000 <= s.mandate_max_milli
        && s.mandate_max_milli <= 10_000_000_000_000 && -10_000_000_000_000 <= s.finance_delta_milli
        && s.finance_delta_milli <= 10_000_000_000_000 && -10_000_000_000_000 <= s.mandate_delta_milli
        && s.mandate_delta_milli <= 10_000_000_000_000 && 1 <= s.slots_total;
    scalars && grid4_within(&s.bonus_icons, 0, BONUS_ICON_MAX) && grid3_within(
        &s.baseline_emissions_milli,
        -BASE_MAX,
        BASE_MAX,
    ) && row3_within(&s.baseline_finance_income_milli) && row3_within(
        &s.baseline_mandate_income_milli,
    ) && grid4_within(&s.icons, 0, ICON_MAX)
}

} // verus!
