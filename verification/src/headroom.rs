//! Run-time checks of the room the simulation's integer arithmetic needs:
//! callers that drive a run test these before each tick and command, so the
//! verified steps never meet an input whose arithmetic would not fit.

use vstd::prelude::*;

use crate::calc::{curve_fits, curve_multiplier, exp_multiplier, in_i64, permille_of, tdiv, MAG};
use crate::schema::{CostCurve, EffectOp, ProjectDef, Scope};
use crate::command::Command;
use crate::schema::OpportunityEffect;
use crate::state::{opportunity_effect_bounded, STOCK_MAX};
use crate::sim::{apply_spec, command_fits, logged, cost_base, cost_fits_with, curved_cost, Sim};
use crate::state::{def_bounded, effect_measure, op_bounded, Measure, BONUS_ICON_MAX, DUR_MAX, LIST_MAX};
use crate::text::str_eq;
use crate::tick::{abs_effects, abs_int, head_headroom, swing, tick_headroom, tick_spec};
use crate::world::Continent;

verus! {

/// The repeat-curve multiplier after `n` completions, if every intermediate
/// of its computation fits.
fn curve_multiplier_checked(curve: CostCurve, n: u64) -> (r: Option<i128>)
    requires
        n <= 0x2_0000_0000,
    ensures
        match r {
            Some(m) => curve_fits(curve, n as nat) && m == curve_multiplier(curve, n as nat),
            None => !curve_fits(curve, n as nat),
        },
{
    let lo: i128 = -9_223_372_036_854_775_808;
    let hi: i128 = 9_223_372_036_854_775_807;
    let count = n as i128;
    match curve {
        CostCurve::Flat => Some(1000),
        CostCurve::Linear { increment_permille } => {
            let inc = increment_permille as i128;
            assert(-0x8000_0000_0000_0000 * 0x2_0000_0000 <= inc * count <= 0x8000_0000_0000_0000 * 0x2_0000_0000) by (nonlinear_arith)
                requires
                    -0x8000_0000_0000_0000 <= inc < 0x8000_0000_0000_0000,
                    0 <= count <= 0x2_0000_0000,
            ;
            let step = inc * count;
            if step < lo || step > hi || 1000 + step < lo || 1000 + step > hi {
                None
            } else {
                Some(1000 + step)
            }
        },
        CostCurve::Exponential { growth_permille } => {
            let factor = 1000 + (growth_permille as i128);
            assert(factor == 1000 + growth_permille);
            if factor < lo || factor > hi {
                assert(!in_i64(1000 + growth_permille));
                return None;
            }
            let mut multiplier: i128 = 1000;
            let mut k: u64 = 0;
            while k < n
                invariant
                    k <= n,
                    factor == 1000 + growth_permille,
                    lo <= factor <= hi,
                    lo == i64::MIN,
                    hi == i64::MAX,
                    lo <= multiplier <= hi,
                    curve == (CostCurve::Exponential { growth_permille }),
                    n <= 0x2_0000_0000,
                    multiplier == exp_multiplier(growth_permille as int, k as nat),
                    forall|j: nat| j < k ==> #[trigger] in_i64(exp_multiplier(growth_permille as int, j) * (1000 + growth_permille)),
                decreases n - k,
            {
                assert(-0x4000_0000_0000_0000_0000_0000_0000_0000 <= multiplier * factor <= 0x4000_0000_0000_0000_0000_0000_0000_0000) by (nonlinear_arith)
                    requires
                        -0x8000_0000_0000_0000 <= multiplier <= 0x8000_0000_0000_0000,
                        -0x8000_0000_0000_0000 <= factor <= 0x8000_0000_0000_0000,
                ;
                let product = multiplier * factor;
                if product < lo || product > hi {
                    assert(!in_i64(exp_multiplier(growth_permille as int, k as nat) * (1000 + growth_permille)));
                    return None;
                }
                multiplier = product / 1000;
                assert(multiplier == tdiv(product as int, 1000));
                k = k + 1;
            }
            Some(multiplier)
        },
        CostCurve::ScaleThenDeplete { discount_permille, floor_count, growth_permille } => {
            let disc = discount_permille as i128;
            let floor = floor_count as i128;
            let growth = growth_permille as i128;
            if count <= floor {
                assert(-0x8000_0000_0000_0000 * 0x2_0000_0000 <= disc * count <= 0x8000_0000_0000_0000 * 0x2_0000_0000) by (nonlinear_arith)
                    requires
                        -0x8000_0000_0000_0000 <= disc < 0x8000_0000_0000_0000,
                        0 <= count <= 0x2_0000_0000,
                ;
                let cut = disc * count;
                if cut < lo || cut > hi || 1000 - cut < lo || 1000 - cut > hi {
                    None
                } else {
                    Some(1000 - cut)
                }
            } else {
                assert(-0x8000_0000_0000_0000 * 0x2_0000_0000 <= disc * floor <= 0x8000_0000_0000_0000 * 0x2_0000_0000) by (nonlinear_arith)
                    requires
                        -0x8000_0000_0000_0000 <= disc < 0x8000_0000_0000_0000,
                        0 <= floor <= 0x2_0000_0000,
                ;
                assert(-0x8000_0000_0000_0000 * 0x2_0000_0000 <= growth * (count - floor) <= 0x8000_0000_0000_0000 * 0x2_0000_0000) by (nonlinear_arith)
                    requires
                        -0x8000_0000_0000_0000 <= growth < 0x8000_0000_0000_0000,
                        0 <= count - floor <= 0x2_0000_0000,
                ;
                let cut = disc * floor;
                let rise = growth * (count - floor);
                if cut < lo || cut > hi || 1000 - cut < lo || 1000 - cut > hi || rise < lo || rise > hi
                    || 1000 - cut + rise < lo || 1000 - cut + rise > hi {
                    None
                } else {
                    Some(1000 - cut + rise)
                }
            }
        },
    }
}

/// Whether every intermediate of project `def`'s cost computation fits, for
/// `n` completions and an external modifier total of `ext` permille.
pub fn cost_fits_check(def: &ProjectDef, n: u64, ext: i64) -> (r: bool)
    requires
        def_bounded(*def),
        n <= 0x2_0000_0000,
    ensures
        r == cost_fits_with(*def, n as nat, ext as int),
{
    let lo: i128 = -9_223_372_036_854_775_808;
    let hi: i128 = 9_223_372_036_854_775_807;
    let multiplier = match curve_multiplier_checked(def.cost_curve, n) {
        Some(m) => m,
        None => return false,
    };
    if multiplier < lo || multiplier > hi {
        return false;
    }
    let base = def.finance_cost as i128 * 1000;
    assert(-0x4000_0000_0000_0000_0000_0000_0000_0000 <= base * multiplier <= 0x4000_0000_0000_0000_0000_0000_0000_0000) by (nonlinear_arith)
        requires
            -0x8000_0000_0000_0000 <= base <= 0x8000_0000_0000_0000,
            -0x8000_0000_0000_0000 <= multiplier <= 0x8000_0000_0000_0000,
    ;
    let scaled = base * multiplier;
    if scaled < lo || scaled > hi {
        return false;
    }
    let curved = scaled / 1000;
    assert(curved == curved_cost(*def, n as nat));
    let factor = 1000 + (ext as i128);
    if factor < lo || factor > hi {
        return false;
    }
    assert(-0x4000_0000_0000_0000_0000_0000_0000_0000 <= curved * factor <= 0x4000_0000_0000_0000_0000_0000_0000_0000) by (nonlinear_arith)
        requires
            -0x8000_0000_0000_0000 <= curved <= 0x8000_0000_0000_0000,
            -0x8000_0000_0000_0000 <= factor <= 0x8000_0000_0000_0000,
    ;
    let product = curved * factor;
    if product < lo || product > hi {
        return false;
    }
    let shift = multiplier - 1000;
    let moved = shift + (ext as i128);
    if shift < lo || shift > hi || moved < lo || moved > hi {
        return false;
    }
    true
}

/// What one authored effect adds to the cost (or, if `cost` is false, the
/// duration) modifiers of project `id`, in magnitude.
fn effect_swing(op: &EffectOp, id: &String, cost: bool) -> (r: i64)
    requires
        op_bounded(*op),
    ensures
        r == abs_int(effect_measure(modifier_of(id@, cost), *op, Scope::Global, Continent::Europe)),
        0 <= r <= MAG,
{
    match op {
        EffectOp::ModifyProjectCost { project, permille } => {
            if cost && str_eq(project.as_str(), id.as_str()) {
                if *permille < 0 {
                    -*permille
                } else {
                    *permille
                }
            } else {
                0
            }
        },
        EffectOp::ModifyProjectDuration { project, permille } => {
            if !cost && str_eq(project.as_str(), id.as_str()) {
                if *permille < 0 {
                    -*permille
                } else {
                    *permille
                }
            } else {
                0
            }
        },
        _ => 0,
    }
}

/// The cost modifier measure of project `id`, or its duration one.
pub open spec fn modifier_of(id: Seq<char>, cost: bool) -> Measure {
    if cost {
        Measure::CostModifier(id)
    } else {
        Measure::DurationModifier(id)
    }
}

proof fn lemma_modifier_ignores_scope(m: Measure, op: EffectOp, scope: Scope, lead: Continent)
    requires
        m is CostModifier || m is DurationModifier,
    ensures
        effect_measure(m, op, scope, lead) == effect_measure(m, op, Scope::Global, Continent::Europe),
{
}

impl Sim {
    /// How far completing any active build can move project `id`'s cost (or
    /// duration) modifiers.
    fn modifier_swing(&self, id: &String, cost: bool) -> (r: i64)
        requires
            self.wf(),
        ensures
            r == swing(self.cat(), self.state.active@, modifier_of(id@, cost)),
            0 <= r <= 3_200_000_000_000,
    {
        let ghost m = modifier_of(id@, cost);
        let ghost active = self.state.active@;
        let mut total: i64 = 0;
        let mut k: usize = 0;
        while k < self.state.active.len()
            invariant
                self.wf(),
                active == self.state.active@,
                m == modifier_of(id@, cost),
                k <= active.len(),
                active.len() <= LIST_MAX,
                total == swing(self.cat(), active.take(k as int), m),
                0 <= total <= k * 64_000_000,
            decreases active.len() - k,
        {
            let build = self.state.active[k];
            assert(crate::state::active_bounded(self.cat(), build));
            let def = &self.catalogue.projects[build.project as usize];
            assert(def_bounded(*def));
            let ghost before = total;
            let mut j: usize = 0;
            while j < def.effects.len()
                invariant
                    def_bounded(*def),
                    m == modifier_of(id@, cost),
                    j <= def.effects@.len(),
                    total == before + abs_effects(def.effects@.take(j as int), build.lead, m),
                    0 <= before <= k * 64_000_000,
                    k < LIST_MAX,
                    before <= total <= before + j * 1_000_000,
                decreases def.effects@.len() - j,
            {
                let effect = &def.effects[j];
                assert(op_bounded(effect.op));
                let step = effect_swing(&effect.op, id, cost);
                proof {
                    lemma_modifier_ignores_scope(m, effect.op, effect.scope, build.lead);
                    assert(def.effects@.take(j as int + 1).drop_last() =~= def.effects@.take(j as int));
                    assert(def.effects@.take(j as int + 1).last() == *effect);
                }
                total = total + step;
                j = j + 1;
            }
            proof {
                assert(def.effects@.take(def.effects@.len() as int) =~= def.effects@);
                assert(active.take(k as int + 1).drop_last() =~= active.take(k as int));
                assert(active.take(k as int + 1).last() == build);
            }
            k = k + 1;
        }
        assert(active.take(active.len() as int) =~= active);
        total
    }

    /// Whether the queue head, project `p`, keeps its cost and duration in
    /// range however this tick's completions move them.
    fn head_room(&self, p: usize) -> (r: bool)
        requires
            self.wf(),
            p < self.cat().projects@.len(),
        ensures
            r == head_headroom(self.cat(), self.state, p as int),
    {
        let def = &self.catalogue.projects[p];
        assert(def_bounded(*def));
        let n = self.state.completions_ever[p] as u64;
        let count = self.state.active.len();
        let cost_swing = self.modifier_swing(&def.id, true);
        let duration_swing = self.modifier_swing(&def.id, false);
        let cost_ext = self.modifier_total(p, true);
        let duration_ext = self.modifier_total(p, false);
        let ghost ac = swing(self.cat(), self.state.active@, Measure::CostModifier(def.id@));
        let ghost ad = swing(self.cat(), self.state.active@, Measure::DurationModifier(def.id@));
        assert(cost_swing == ac);
        assert(duration_swing == ad);
        let mut j: usize = 0;
        while j <= count
            invariant
                j <= count + 1,
                self.wf(),
                p < self.cat().projects@.len(),
                count == self.state.active@.len(),
                count <= LIST_MAX,
                def_bounded(*def),
                *def == self.cat().projects@[p as int],
                n == self.state.completions_ever@[p as int],
                cost_swing == ac,
                0 <= ac <= 3_200_000_000_000,
                ac == swing(self.cat(), self.state.active@, Measure::CostModifier(def.id@)),
                -3_300_000_000_000 <= cost_ext <= 3_300_000_000_000,
                cost_ext == crate::sim::cost_external(self.cat(), self.state, p as int),
                forall|i: int|
                    0 <= i < j ==> #[trigger] cost_fits_with(*def, (n + i) as nat, cost_ext - ac)
                        && cost_fits_with(*def, (n + i) as nat, cost_ext + ac),
            decreases count + 1 - j,
        {
            let m = n + (j as u64);
            if !cost_fits_check(def, m, cost_ext - cost_swing) || !cost_fits_check(def, m, cost_ext + cost_swing) {
                assert(!(cost_fits_with(*def, (n + j) as nat, cost_ext - ac) && cost_fits_with(
                    *def,
                    (n + j) as nat,
                    cost_ext + ac,
                )));
                return false;
            }
            assert(cost_fits_with(*def, (n + j) as nat, cost_ext - ac));
            assert(cost_fits_with(*def, (n + j) as nat, cost_ext + ac));
            assert forall|i: int|
                0 <= i < j + 1 implies #[trigger] cost_fits_with(*def, (n + i) as nat, cost_ext - ac)
                    && cost_fits_with(*def, (n + i) as nat, cost_ext + ac) by {
                if i == j {
                    assert((n + i) as nat == (n + j) as nat);
                }
            }
            j = j + 1;
        }
        let span = 1000 + (duration_ext as i128) + (duration_swing as i128);
        assert(-10_000_000_000_000 <= span <= 10_000_000_000_000);
        let ticks = def.duration_ticks as i128;
        assert(-0x1_0000_0000_0000_0000 <= ticks * span <= 0x1_0000_0000_0000_0000) by (nonlinear_arith)
            requires
                0 <= ticks <= MAG,
                -10_000_000_000_000 <= span <= 10_000_000_000_000,
        ;
        let scaled = ticks * span;
        assert(scaled == (def.duration_ticks as int) * (1000 + (duration_ext + ad)));
        if scaled < 0 {
            assert(permille_of(def.duration_ticks as int, duration_ext + ad) < 0);
            return true;
        }
        let duration = scaled / 1000;
        assert(duration == permille_of(def.duration_ticks as int, duration_ext + ad));
        duration <= DUR_MAX as i128
    }

    /// Whether an unpaused tick has the room it needs now.
    pub fn tick_room(&self) -> (r: bool)
        requires
            self.wf(),
        ensures
            r == tick_headroom(self.cat(), self.state),
    {
        if self.state.tick > u64::MAX - 2 * 1_000_000 - 2 {
            return false;
        }
        let bound: i64 = 8_800_000_000_000_000_000;
        if self.state.finance_milli < -bound || self.state.finance_milli > bound
            || self.state.mandate_milli < -bound || self.state.mandate_milli > bound {
            return false;
        }
        if self.state.completed.len() + self.state.active.len() >= LIST_MAX {
            return false;
        }
        let mut p: usize = 0;
        while p < self.state.completions_ever.len()
            invariant
                p <= self.state.completions_ever@.len(),
                forall|q: int| 0 <= q < p ==> #[trigger] self.state.completions_ever@[q] + 2 * LIST_MAX <= u32::MAX,
            decreases self.state.completions_ever@.len() - p,
        {
            if self.state.completions_ever[p] > u32::MAX - 2 * 50_000 {
                return false;
            }
            p = p + 1;
        }
        if self.state.queue.len() > 0 {
            let head = self.state.queue[0].project as usize;
            return self.head_room(head);
        }
        true
    }

    /// Whether `command` has the room it needs now: a claim of an open
    /// opportunity needs room for its grant; nothing else needs any.
    pub fn command_room(&self, command: &Command) -> (r: bool)
        requires
            self.wf(),
        ensures
            r == command_fits(self.cat(), self.state, *command),
    {
        match command {
            Command::ClaimOpportunity { index } => {
                let index = *index as usize;
                if index >= self.state.opportunities.len() {
                    return true;
                }
                let open = self.state.opportunities[index];
                let def = &self.catalogue.opportunities[open.def as usize];
                assert(opportunity_effect_bounded(def.effect));
                match def.effect {
                    OpportunityEffect::FinanceGrant { units } => {
                        let v = self.state.finance_milli + units * 1000;
                        -STOCK_MAX <= v && v <= STOCK_MAX
                    },
                    OpportunityEffect::MandateBoost { milli } => -STOCK_MAX <= self.state.mandate_milli + milli,
                    OpportunityEffect::IconGrant { icon } => self.state.bonus_icons[open.continent.index()][icon.index()]
                        < BONUS_ICON_MAX,
                }
            },
            _ => true,
        }
    }

    /// Advance one tick if the run has the room an unpaused tick needs, and
    /// say whether it did; otherwise leave the run as it is.
    pub fn try_tick(&mut self) -> (r: bool)
        requires
            old(self).wf(),
        ensures
            r == (old(self).state.paused || tick_headroom(old(self).cat(), old(self).state)),
            final(self).wf(),
            final(self).catalogue == old(self).catalogue,
            final(self).log == old(self).log,
            !r ==> *final(self) == *old(self),
            r && old(self).state.paused ==> final(self).state == old(self).state,
            r && !old(self).state.paused ==> tick_spec(old(self).cat(), old(self).state, final(self).state)
                && final(self).state.tick == old(self).state.tick + 1,
    {
        if !self.state.paused && !self.tick_room() {
            return false;
        }
        self.tick();
        true
    }

    /// Apply `command` if it has the room it needs, logging it; `None`, with
    /// the run left as it is, if it does not.
    pub fn try_execute(&mut self, command: Command) -> (r: Option<Result<(), crate::command::Rejection>>)
        requires
            old(self).wf(),
        ensures
            r is None <==> !command_fits(old(self).cat(), old(self).state, command),
            final(self).wf(),
            final(self).catalogue == old(self).catalogue,
            r is None ==> *final(self) == *old(self),
            r matches Some(outcome) ==> apply_spec(old(self).cat(), old(self).state, command, final(self).state, outcome)
                && final(self).log@ == old(self).log@.push(logged(old(self).state.tick, command, outcome)),
    {
        if !self.command_room(&command) {
            return None;
        }
        Some(self.execute(command))
    }
}

} // verus!
