//! Recomputation of every derived field of the run state from baselines plus
//! the standing completed and active lists.

use vstd::prelude::*;

use crate::calc::{
    apply_permille, bonus_rules_bounded, bonus_spec, in_i64, lemma_bonus_bounds,
    permille_fits, permille_of, reduction_bonus, row_bounded, tdiv,
    ICON_MAX, MAG,
};
use crate::catalogue::{first_with_id, Catalogue};
use crate::schema::{Activation, EffectOp, Scope, ScopedEffect, SlotMilestone};
use crate::state::{
    active_bounded, active_partial, best_institutions, catalogue_bounded, clamp0,
    completed_bounded, def_bounded, derived_emission, derived_from, derived_icon,
    effect_measure, effects_unlock, grid_within, milestones_reached, op_bounded, op_unlocks,
    mag, realized_op_bounded, rollout_effect, rollout_effects, scope_covers, state_wf, sum3,
    sum_active, sum_completed, sum_effects, unlocked_by_completed, ActiveProject,
    CompletedProject, Measure, RealizedEffect, RunState, DUR_MAX, LIST_MAX, RED_MAX, STOCK_MAX, BONUS_ICON_MAX,
};
use crate::world::{Continent, continent_index, icon_index, sector_index};

verus! {

/// Which continents a scoped effect touches, as a mask in the stable order.
pub fn scope_continents(scope: Scope, lead: Continent) -> (r: [bool; 3])
    ensures
        forall|c: int| 0 <= c < 3 ==> #[trigger] r[c] == scope_covers(scope, lead, c),
{
    match scope {
        Scope::Global | Scope::AllContinents => [true, true, true],
        Scope::LeadContinent => {
            let l = lead.index();
            [l == 0, l == 1, l == 2]
        },
        Scope::Continent(x) | Scope::Spillover(x) => {
            let l = x.index();
            [l == 0, l == 1, l == 2]
        },
    }
}

/// Running totals of every additive measure.
pub struct Totals {
    pub icons: [[i64; 4]; 3],
    pub reductions: [[i64; 3]; 3],
    pub finance: i64,
    pub mandate: i64,
    pub mandate_max: i64,
}

pub open spec fn totals_get(t: Totals, m: Measure) -> int {
    match m {
        Measure::Icon(c, i) => if 0 <= c < 3 && 0 <= i < 4 {
            t.icons[c][i] as int
        } else {
            0
        },
        Measure::Reduction(c, s) => if 0 <= c < 3 && 0 <= s < 3 {
            t.reductions[c][s] as int
        } else {
            0
        },
        Measure::FinanceDelta => t.finance as int,
        Measure::MandateDelta => t.mandate as int,
        Measure::MandateMax => t.mandate_max as int,
        _ => 0,
    }
}

/// The measures the running totals keep.
pub open spec fn kept_in_totals(m: Measure) -> bool {
    !(m is CostModifier) && !(m is DurationModifier)
}

/// The bound on what one realised effect adds to a measure.
pub open spec fn measure_bound(m: Measure) -> int {
    match m {
        Measure::Reduction(..) => RED_MAX as int,
        _ => MAG as int,
    }
}

pub open spec fn small(x: int) -> bool {
    -800_000_000_000_000_000 <= x <= 800_000_000_000_000_000
}

pub open spec fn totals_small(t: Totals) -> bool {
    &&& grid_within(t.icons, -800_000_000_000_000_000, 800_000_000_000_000_000)
    &&& grid_within(t.reductions, -800_000_000_000_000_000, 800_000_000_000_000_000)
    &&& small(t.finance as int)
    &&& small(t.mandate as int)
    &&& small(t.mandate_max as int)
}

proof fn lemma_effect_measure_bound(m: Measure, op: EffectOp, scope: Scope, lead: Continent)
    requires
        realized_op_bounded(op),
    ensures
        -measure_bound(m) <= effect_measure(m, op, scope, lead) <= measure_bound(m),
{
}

proof fn lemma_sum_effects_bound(effs: Seq<RealizedEffect>, lead: Continent, m: Measure)
    requires
        forall|k: int| 0 <= k < effs.len() ==> realized_op_bounded((#[trigger] effs[k]).op),
    ensures
        -(effs.len() * measure_bound(m)) <= sum_effects(effs, lead, m) <= effs.len() * measure_bound(
            m,
        ),
    decreases effs.len(),
{
    if effs.len() > 0 {
        let rest = effs.drop_last();
        assert forall|k: int| 0 <= k < rest.len() implies realized_op_bounded(
            (#[trigger] rest[k]).op,
        ) by {
            assert(rest[k] == effs[k]);
        }
        lemma_sum_effects_bound(rest, lead, m);
        assert(effs[effs.len() - 1] == effs.last());
        lemma_effect_measure_bound(m, effs.last().op, effs.last().scope, lead);
        let n = effs.len() as int;
        let b = measure_bound(m);
        assert(n * b == (n - 1) * b + b) by (nonlinear_arith);
    }
}

pub proof fn lemma_sum_completed_bound(cat: Catalogue, done: Seq<CompletedProject>, m: Measure)
    requires
        forall|k: int| 0 <= k < done.len() ==> completed_bounded(cat, #[trigger] done[k]),
    ensures
        -(done.len() * 64 * measure_bound(m)) <= sum_completed(done, m) <= done.len() * 64
            * measure_bound(m),
    decreases done.len(),
{
    if done.len() > 0 {
        let rest = done.drop_last();
        assert forall|k: int| 0 <= k < rest.len() implies completed_bounded(
            cat,
            #[trigger] rest[k],
        ) by {
            assert(rest[k] == done[k]);
        }
        lemma_sum_completed_bound(cat, rest, m);
        let last = done.last();
        assert(done[done.len() - 1] == last);
        assert(completed_bounded(cat, last));
        lemma_sum_effects_bound(last.realized@, last.lead, m);
        let n = done.len() as int;
        let b = measure_bound(m);
        let l = last.realized@.len() as int;
        assert(l * b <= 64 * b) by (nonlinear_arith)
            requires
                0 <= l <= 64,
                b >= 0,
        ;
        assert(n * 64 * b == (n - 1) * 64 * b + 64 * b) by (nonlinear_arith);
    }
}

/// A prefix-sum bound: partial sums over a prefix of the completed list plus
/// a prefix of the next entry's effects stay small.
pub proof fn lemma_partial_small(
    cat: Catalogue,
    done: Seq<CompletedProject>,
    d: int,
    effs: Seq<RealizedEffect>,
    lead: Continent,
    m: Measure,
)
    requires
        0 <= d <= done.len() <= LIST_MAX,
        forall|k: int| 0 <= k < done.len() ==> completed_bounded(cat, #[trigger] done[k]),
        effs.len() <= 64,
        forall|k: int| 0 <= k < effs.len() ==> realized_op_bounded((#[trigger] effs[k]).op),
    ensures
        -400_000_000_000_000_000 <= sum_completed(done.take(d), m) + sum_effects(effs, lead, m)
            <= 400_000_000_000_000_000,
        measure_bound(m) == MAG ==> -3_300_000_000_000 <= sum_completed(done.take(d), m)
            + sum_effects(effs, lead, m) <= 3_300_000_000_000,
{
    let pre = done.take(d);
    assert forall|k: int| 0 <= k < pre.len() implies completed_bounded(cat, #[trigger] pre[k]) by {
        assert(pre[k] == done[k]);
    }
    lemma_sum_completed_bound(cat, pre, m);
    lemma_sum_effects_bound(effs, lead, m);
    assert(pre.len() == d);
    assert(0 <= measure_bound(m) <= RED_MAX);
    assert(pre.len() * 64 * measure_bound(m) <= 3_200_000 * measure_bound(m)) by (nonlinear_arith)
        requires
            pre.len() <= 50_000,
            measure_bound(m) >= 0,
    ;
    assert(effs.len() * measure_bound(m) <= 64 * measure_bound(m)) by (nonlinear_arith)
        requires
            effs.len() <= 64,
            measure_bound(m) >= 0,
    ;
}

/// Add one realised effect of a project led on `lead` to the totals.
fn add_effect(t: &mut Totals, op: &EffectOp, scope: Scope, lead: Continent)
    requires
        realized_op_bounded(*op),
        totals_small(*old(t)),
        forall|m: Measure| kept_in_totals(m) ==> small(#[trigger] totals_get(*old(t), m) + effect_measure(m, *op, scope, lead)),
    ensures
        forall|m: Measure| kept_in_totals(m) ==> #[trigger] totals_get(*final(t), m) == totals_get(*old(t), m) + effect_measure(m, *op, scope, lead),
{
    let mask = scope_continents(scope, lead);
    match op {
        EffectOp::AddIcon { icon, amount } => {
            let i = icon.index();
            let mut c: usize = 0;
            while c < 3
                invariant
                    c <= 3,
                    i == icon_index(*icon),
                    mag(*amount as int),
                    forall|cc: int| 0 <= cc < 3 ==> #[trigger] mask[cc] == scope_covers(scope, lead, cc),
                    forall|cc: int, ii: int| 0 <= cc < 3 && 0 <= ii < 4 ==> #[trigger] t.icons[cc][ii]
                        == old(t).icons[cc][ii] + if cc < c && ii == i && mask[cc] {
                        *amount as int
                    } else {
                        0
                    },
                    t.reductions == old(t).reductions,
                    t.finance == old(t).finance,
                    t.mandate == old(t).mandate,
                    t.mandate_max == old(t).mandate_max,
                    totals_small(*old(t)),
                decreases 3 - c,
            {
                if mask[c] {
                    t.icons[c][i] = t.icons[c][i] + *amount;
                }
                c = c + 1;
            }
        },
        EffectOp::RemoveIcon { icon, amount } => {
            let i = icon.index();
            let mut c: usize = 0;
            while c < 3
                invariant
                    c <= 3,
                    i == icon_index(*icon),
                    mag(*amount as int),
                    forall|cc: int| 0 <= cc < 3 ==> #[trigger] mask[cc] == scope_covers(scope, lead, cc),
                    forall|cc: int, ii: int| 0 <= cc < 3 && 0 <= ii < 4 ==> #[trigger] t.icons[cc][ii]
                        == old(t).icons[cc][ii] - if cc < c && ii == i && mask[cc] {
                        *amount as int
                    } else {
                        0
                    },
                    t.reductions == old(t).reductions,
                    t.finance == old(t).finance,
                    t.mandate == old(t).mandate,
                    t.mandate_max == old(t).mandate_max,
                    totals_small(*old(t)),
                decreases 3 - c,
            {
                if mask[c] {
                    t.icons[c][i] = t.icons[c][i] - *amount;
                }
                c = c + 1;
            }
        },
        EffectOp::ReduceSectorEmissions { sector, milli_gt } => {
            let s = sector.index();
            let mut c: usize = 0;
            while c < 3
                invariant
                    c <= 3,
                    s == sector_index(*sector),
                    -RED_MAX <= *milli_gt <= RED_MAX,
                    forall|cc: int| 0 <= cc < 3 ==> #[trigger] mask[cc] == scope_covers(scope, lead, cc),
                    forall|cc: int, ss: int|
                        0 <= cc < 3 && 0 <= ss < 3 ==> #[trigger] t.reductions[cc][ss]
                            == old(t).reductions[cc][ss] + if cc < c && ss == s && mask[cc] {
                            *milli_gt as int
                        } else {
                            0
                        },
                    t.icons == old(t).icons,
                    t.finance == old(t).finance,
                    t.mandate == old(t).mandate,
                    t.mandate_max == old(t).mandate_max,
                    totals_small(*old(t)),
                decreases 3 - c,
            {
                if mask[c] {
                    t.reductions[c][s] = t.reductions[c][s] + *milli_gt;
                }
                c = c + 1;
            }
        },
        EffectOp::AddFinanceIncome { milli_per_tick } => {
            t.finance = t.finance + *milli_per_tick;
        },
        EffectOp::AddMaintenance { milli_per_tick } => {
            t.finance = t.finance - *milli_per_tick;
        },
        EffectOp::AddMandateIncome { milli_per_tick } => {
            t.mandate = t.mandate + *milli_per_tick;
        },
        EffectOp::AddMandateMaximum { milli } => {
            t.mandate_max = t.mandate_max + *milli;
        },
        _ => {},
    }
}


/// Totals are small whenever each measure equals a bounded partial sum.
proof fn lemma_small_from_measures(t: Totals)
    requires
        forall|m: Measure| kept_in_totals(m) ==> small(#[trigger] totals_get(t, m)),
    ensures
        totals_small(t),
{
    assert forall|c: int, i: int| 0 <= c < 3 && 0 <= i < 4 implies -800_000_000_000_000_000
        <= #[trigger] t.icons[c][i] <= 800_000_000_000_000_000 by {
        assert(small(totals_get(t, Measure::Icon(c, i))));
    }
    assert forall|c: int, i: int| 0 <= c < 3 && 0 <= i < 3 implies -800_000_000_000_000_000
        <= #[trigger] t.reductions[c][i] <= 800_000_000_000_000_000 by {
        assert(small(totals_get(t, Measure::Reduction(c, i))));
    }
    assert(small(totals_get(t, Measure::FinanceDelta)));
    assert(small(totals_get(t, Measure::MandateDelta)));
    assert(small(totals_get(t, Measure::MandateMax)));
}

/// The totals every measure receives from a list of completed projects.
fn completed_totals(cat: &Catalogue, done: &Vec<CompletedProject>) -> (t: Totals)
    requires
        done@.len() <= LIST_MAX,
        forall|k: int| 0 <= k < done@.len() ==> completed_bounded(*cat, #[trigger] done@[k]),
    ensures
        forall|m: Measure| kept_in_totals(m) ==> #[trigger] totals_get(t, m) == sum_completed(done@, m),
        totals_small(t),
{
    let mut t = Totals {
        icons: [[0i64; 4]; 3],
        reductions: [[0i64; 3]; 3],
        finance: 0,
        mandate: 0,
        mandate_max: 0,
    };
    assert forall|m: Measure| kept_in_totals(m) implies #[trigger] totals_get(t, m) == sum_completed(done@.take(0), m) by {}
    let mut d: usize = 0;
    while d < done.len()
        invariant
            d <= done@.len(),
            done@.len() <= LIST_MAX,
            forall|k: int| 0 <= k < done@.len() ==> completed_bounded(*cat, #[trigger] done@[k]),
            forall|m: Measure| kept_in_totals(m) ==> #[trigger] totals_get(t, m) == sum_completed(done@.take(d as int), m),
            totals_small(t),
        decreases done@.len() - d,
    {
        let entry = &done[d];
        assert(completed_bounded(*cat, done@[d as int]));
        let mut j: usize = 0;
        assert forall|m: Measure| kept_in_totals(m) implies #[trigger] totals_get(t, m) == sum_completed(done@.take(d as int), m)
            + sum_effects(entry.realized@.take(0), entry.lead, m) by {}
        while j < entry.realized.len()
            invariant
                d < done@.len(),
                *entry == done@[d as int],
                j <= entry.realized@.len(),
                done@.len() <= LIST_MAX,
                completed_bounded(*cat, *entry),
                forall|k: int| 0 <= k < done@.len() ==> completed_bounded(*cat, #[trigger] done@[k]),
                forall|m: Measure| kept_in_totals(m) ==> #[trigger] totals_get(t, m) == sum_completed(done@.take(d as int), m)
                    + sum_effects(entry.realized@.take(j as int), entry.lead, m),
                totals_small(t),
            decreases entry.realized@.len() - j,
        {
            let effect = &entry.realized[j];
            let ghost next = entry.realized@.take(j as int + 1);
            assert(next.drop_last() =~= entry.realized@.take(j as int));
            assert(next.last() == *effect);
            assert forall|k: int| 0 <= k < next.len() implies realized_op_bounded(
                (#[trigger] next[k]).op,
            ) by {
                assert(next[k] == entry.realized@[k]);
            }
            assert forall|m: Measure| kept_in_totals(m) implies small(
                #[trigger] totals_get(t, m) + effect_measure(m, effect.op, effect.scope, entry.lead),
            ) by {
                lemma_partial_small(*cat, done@, d as int, next, entry.lead, m);
            }
            assert(realized_op_bounded(effect.op));
            add_effect(&mut t, &effect.op, effect.scope, entry.lead);
            assert forall|m: Measure| kept_in_totals(m) implies small(#[trigger] totals_get(t, m)) by {
                lemma_partial_small(*cat, done@, d as int, next, entry.lead, m);
            }
            proof {
                lemma_small_from_measures(t);
            }
            j = j + 1;
        }
        assert(entry.realized@.take(entry.realized@.len() as int) =~= entry.realized@);
        assert(done@.take(d as int + 1).drop_last() =~= done@.take(d as int));
        assert(done@.take(d as int + 1).last() == *entry);
        d = d + 1;
    }
    assert(done@.take(done@.len() as int) =~= done@);
    t
}


/// Apply the unlock ratchet: every project a standing completion unlocks
/// becomes unlocked; nothing becomes locked.
fn apply_unlocks(cat: &Catalogue, done: &Vec<CompletedProject>, unlocked: &mut Vec<bool>)
    requires
        old(unlocked)@.len() == cat.projects@.len(),
    ensures
        final(unlocked)@.len() == old(unlocked)@.len(),
        forall|k: int|
            0 <= k < old(unlocked)@.len() ==> #[trigger] final(unlocked)@[k] == (old(unlocked)@[k]
                || unlocked_by_completed(*cat, done@, k)),
{
    let ghost start = unlocked@;
    let mut d: usize = 0;
    while d < done.len()
        invariant
            d <= done@.len(),
            unlocked@.len() == start.len(),
            start.len() == cat.projects@.len(),
            forall|k: int|
                0 <= k < start.len() ==> #[trigger] unlocked@[k] == (start[k] || unlocked_by_completed(
                    *cat,
                    done@.take(d as int),
                    k,
                )),
        decreases done@.len() - d,
    {
        let entry = &done[d];
        let ghost pre = done@.take(d as int);
        let ghost next = done@.take(d as int + 1);
        assert(next.drop_last() =~= pre);
        let mut j: usize = 0;
        while j < entry.realized.len()
            invariant
                d < done@.len(),
                *entry == done@[d as int],
                pre == done@.take(d as int),
                j <= entry.realized@.len(),
                unlocked@.len() == start.len(),
                start.len() == cat.projects@.len(),
                forall|k: int|
                    0 <= k < start.len() ==> #[trigger] unlocked@[k] == (start[k]
                        || unlocked_by_completed(*cat, pre, k) || effects_unlock(
                        *cat,
                        entry.realized@.take(j as int),
                        k,
                    )),
            decreases entry.realized@.len() - j,
        {
            let ghost effs = entry.realized@.take(j as int);
            let ghost effs2 = entry.realized@.take(j as int + 1);
            assert(effs2.drop_last() =~= effs);
            assert(effs2.last() == entry.realized@[j as int]);
            assert forall|k: int| #[trigger] effects_unlock(*cat, effs2, k) == (effects_unlock(
                *cat,
                effs,
                k,
            ) || op_unlocks(*cat, effs2.last().op, k)) by {
                if effects_unlock(*cat, effs, k) {
                    let w = choose|w: int| 0 <= w < effs.len() && op_unlocks(*cat, (#[trigger] effs[w]).op, k);
                    assert(effs2[w] == effs[w]);
                }
                if effects_unlock(*cat, effs2, k) && !op_unlocks(*cat, effs2.last().op, k) {
                    let w = choose|w: int| 0 <= w < effs2.len() && op_unlocks(*cat, (#[trigger] effs2[w]).op, k);
                    assert(w < effs.len());
                    assert(effs[w] == effs2[w]);
                }
                if op_unlocks(*cat, effs2.last().op, k) {
                    assert(op_unlocks(*cat, effs2[effs2.len() - 1].op, k));
                }
            }
            if let EffectOp::UnlockProject { project } = &entry.realized[j].op {
                if let Some(index) = cat.project_index(project.as_str()) {
                    unlocked.set(index, true);
                }
            }
            j = j + 1;
        }
        assert(entry.realized@.take(entry.realized@.len() as int) =~= entry.realized@);
        assert(next.last() == *entry);
        assert forall|k: int| #[trigger] unlocked_by_completed(*cat, next, k) == (
        unlocked_by_completed(*cat, pre, k) || effects_unlock(*cat, entry.realized@, k)) by {
            if unlocked_by_completed(*cat, pre, k) {
                let w = choose|w: int| 0 <= w < pre.len() && effects_unlock(*cat, (#[trigger] pre[w]).realized@, k);
                assert(next[w] == pre[w]);
            }
            if unlocked_by_completed(*cat, next, k) && !effects_unlock(*cat, entry.realized@, k) {
                let w = choose|w: int| 0 <= w < next.len() && effects_unlock(*cat, (#[trigger] next[w]).realized@, k);
                assert(w < pre.len());
                assert(pre[w] == next[w]);
            }
            if effects_unlock(*cat, entry.realized@, k) {
                assert(effects_unlock(*cat, next[next.len() - 1].realized@, k));
            }
        }
        d = d + 1;
    }
    assert(done@.take(done@.len() as int) =~= done@);
}


/// The bound on a scaled authored reduction.
pub open spec fn scaled_max() -> int {
    65_000_000_000
}

pub proof fn lemma_scaled_bound_pub(milli: int, bonus: int)
    requires
        mag(milli),
        -64 * MAG <= bonus <= 64 * MAG,
    ensures
        permille_fits(milli, bonus),
        -scaled_max() <= permille_of(milli, bonus) <= scaled_max(),
{
    lemma_scaled_bound(milli, bonus);
}

proof fn lemma_scaled_bound(milli: int, bonus: int)
    requires
        mag(milli),
        -64 * MAG <= bonus <= 64 * MAG,
    ensures
        permille_fits(milli, bonus),
        -scaled_max() <= permille_of(milli, bonus) <= scaled_max(),
{
    let f = 1000 + bonus;
    assert(-MAG * 64_001_000 <= milli * f <= MAG * 64_001_000) by (nonlinear_arith)
        requires
            -MAG <= milli <= MAG,
            -64_001_000 <= f <= 64_001_000,
    ;
    let a = milli * f;
    if a >= 0 {
        assert(a / 1000 <= 64_001_000_000) by (nonlinear_arith)
            requires
                0 <= a <= 64_001_000_000_000,
        ;
    } else {
        assert((-a) / 1000 <= 64_001_000_000) by (nonlinear_arith)
            requires
                0 < -a <= 64_001_000_000_000,
        ;
    }
}

proof fn lemma_partial_bound(scaled: int, progress: int, duration: int)
    requires
        -scaled_max() <= scaled <= scaled_max(),
        0 <= progress <= duration,
        1 <= duration <= DUR_MAX,
    ensures
        in_i64(scaled * progress),
        -scaled_max() <= tdiv(scaled * progress, duration) <= scaled_max(),
{
    assert(-scaled_max() * DUR_MAX <= scaled * progress <= scaled_max() * DUR_MAX) by (nonlinear_arith)
        requires
            -scaled_max() <= scaled <= scaled_max(),
            0 <= progress <= DUR_MAX,
    ;
    let a = scaled * progress;
    if scaled >= 0 {
        assert(0 <= a <= scaled * duration) by (nonlinear_arith)
            requires
                scaled >= 0,
                0 <= progress <= duration,
                a == scaled * progress,
        ;
        assert(a / duration <= scaled) by (nonlinear_arith)
            requires
                0 <= a <= scaled * duration,
                duration >= 1,
        ;
    } else {
        assert(0 <= -a <= (-scaled) * duration) by (nonlinear_arith)
            requires
                scaled < 0,
                0 <= progress <= duration,
                a == scaled * progress,
        ;
        assert((-a) / duration <= -scaled) by (nonlinear_arith)
            requires
                0 <= -a <= (-scaled) * duration,
                duration >= 1,
        ;
    }
}

proof fn lemma_rollout_effects_bound(
    effs: Seq<ScopedEffect>,
    b: ActiveProject,
    bonus: int,
    c: int,
    t: int,
)
    requires
        forall|k: int| 0 <= k < effs.len() ==> op_bounded((#[trigger] effs[k]).op),
        -64 * MAG <= bonus <= 64 * MAG,
        b.progress <= b.duration,
        1 <= b.duration <= DUR_MAX,
    ensures
        -(effs.len() * scaled_max()) <= rollout_effects(effs, b, bonus, c, t) <= effs.len()
            * scaled_max(),
    decreases effs.len(),
{
    if effs.len() > 0 {
        let rest = effs.drop_last();
        assert forall|k: int| 0 <= k < rest.len() implies op_bounded((#[trigger] rest[k]).op) by {
            assert(rest[k] == effs[k]);
        }
        lemma_rollout_effects_bound(rest, b, bonus, c, t);
        assert(effs[effs.len() - 1] == effs.last());
        match effs.last().op {
            EffectOp::ReduceSectorEmissions { sector, milli_gt } => {
                lemma_scaled_bound(milli_gt as int, bonus);
                lemma_partial_bound(
                    permille_of(milli_gt as int, bonus),
                    b.progress as int,
                    b.duration as int,
                );
            },
            _ => {},
        }
        let n = effs.len() as int;
        assert(n * scaled_max() == (n - 1) * scaled_max() + scaled_max()) by (nonlinear_arith);
    }
}

proof fn lemma_sum_active_bound(
    cat: Catalogue,
    active: Seq<ActiveProject>,
    icons: [[i64; 4]; 3],
    c: int,
    t: int,
)
    requires
        catalogue_bounded(cat),
        grid_within(icons, 0, ICON_MAX as int),
        forall|k: int| 0 <= k < active.len() ==> active_bounded(cat, #[trigger] active[k]),
    ensures
        -(active.len() * 64 * scaled_max()) <= sum_active(cat, active, icons, c, t) <= active.len()
            * 64 * scaled_max(),
    decreases active.len(),
{
    if active.len() > 0 {
        let rest = active.drop_last();
        assert forall|k: int| 0 <= k < rest.len() implies active_bounded(cat, #[trigger] rest[k]) by {
            assert(rest[k] == active[k]);
        }
        lemma_sum_active_bound(cat, rest, icons, c, t);
        let b = active.last();
        assert(active[active.len() - 1] == b);
        let def = cat.projects@[b.project as int];
        assert(def_bounded(def));
        if !(def.activation != Activation::LinearRollout || b.duration == 0) {
            let row = icons[continent_index(b.lead)];
            assert(row_bounded(row));
            lemma_bonus_bounds(def, row);
            lemma_rollout_effects_bound(def.effects@, b, bonus_spec(def, row), c, t);
            assert(def.effects@.len() * scaled_max() <= 64 * scaled_max()) by (nonlinear_arith)
                requires
                    def.effects@.len() <= 64,
            ;
        }
        let n = active.len() as int;
        assert(n * 64 * scaled_max() == (n - 1) * 64 * scaled_max() + 64 * scaled_max())
            by (nonlinear_arith);
    }
}

/// The partial reductions every linear-rollout build has delivered so far.
fn active_reductions(cat: &Catalogue, active: &Vec<ActiveProject>, icons: &[[i64; 4]; 3]) -> (r: [[i64; 3]; 3])
    requires
        catalogue_bounded(*cat),
        grid_within(*icons, 0, ICON_MAX as int),
        active@.len() <= LIST_MAX,
        forall|k: int| 0 <= k < active@.len() ==> active_bounded(*cat, #[trigger] active@[k]),
    ensures
        forall|c: int, t: int|
            0 <= c < 3 && 0 <= t < 3 ==> #[trigger] r[c][t] == sum_active(*cat, active@, *icons, c, t),
        grid_within(r, -300_000_000_000_000_000, 300_000_000_000_000_000),
{
    let mut r = [[0i64; 3]; 3];
    let mut k: usize = 0;
    while k < active.len()
        invariant
            k <= active@.len(),
            catalogue_bounded(*cat),
            grid_within(*icons, 0, ICON_MAX as int),
            active@.len() <= LIST_MAX,
            forall|j: int| 0 <= j < active@.len() ==> active_bounded(*cat, #[trigger] active@[j]),
            forall|c: int, t: int|
                0 <= c < 3 && 0 <= t < 3 ==> #[trigger] r[c][t] == sum_active(
                    *cat,
                    active@.take(k as int),
                    *icons,
                    c,
                    t,
                ),
        decreases active@.len() - k,
    {
        let build = active[k];
        assert(active_bounded(*cat, build));
        let ghost pre = active@.take(k as int);
        let ghost next = active@.take(k as int + 1);
        assert(next.drop_last() =~= pre);
        assert(next.last() == build);
        assert forall|j: int| 0 <= j < next.len() implies active_bounded(*cat, #[trigger] next[j]) by {
            assert(next[j] == active@[j]);
        }
        assert forall|j: int| 0 <= j < pre.len() implies active_bounded(*cat, #[trigger] pre[j]) by {
            assert(pre[j] == active@[j]);
        }
        let def = &cat.projects[build.project as usize];
        assert(def_bounded(*def));
        if def.activation != Activation::LinearRollout || build.duration == 0 {
            assert forall|c: int, t: int|
                0 <= c < 3 && 0 <= t < 3 implies #[trigger] r[c][t] == sum_active(
                *cat,
                next,
                *icons,
                c,
                t,
            ) by {}
        } else {
            assert(row_bounded(icons[continent_index(build.lead)]));
            proof {
                crate::calc::lemma_bounded_bonus_fits(*def, icons[continent_index(build.lead)]);
            }
            let bonus = reduction_bonus(def, build.lead, icons);
            proof {
                lemma_bonus_bounds(*def, icons[continent_index(build.lead)]);
            }
            proof {
                assert forall|c: int, t: int|
                    0 <= c < 3 && 0 <= t < 3 implies -300_000_000_000_000_000 <= #[trigger] r[c][t]
                    <= 300_000_000_000_000_000 by {
                    lemma_sum_active_bound(*cat, pre, *icons, c, t);
                    assert(pre.len() * 64 * scaled_max() <= 50_000 * 64 * scaled_max())
                        by (nonlinear_arith)
                        requires
                            pre.len() <= 50_000,
                    ;
                }
            }
            assert(def.effects@.take(0) =~= Seq::<ScopedEffect>::empty());
            let mut e: usize = 0;
            while e < def.effects.len()
                invariant
                    e <= def.effects@.len(),
                    grid_within(r, -300_000_000_000_000_000, 300_000_000_000_000_000),
                    *def == cat.projects@[build.project as int],
                    def_bounded(*def),
                    active_bounded(*cat, build),
                    def.activation == Activation::LinearRollout,
                    build.duration != 0,
                    bonus.bonus_permille == bonus_spec(*def, icons[continent_index(build.lead)]),
                    -64 * MAG <= bonus.bonus_permille <= 64 * MAG,
                    catalogue_bounded(*cat),
                    grid_within(*icons, 0, ICON_MAX as int),
                    k < active@.len(),
                    active@.len() <= LIST_MAX,
                    forall|j: int| 0 <= j < pre.len() ==> active_bounded(*cat, #[trigger] pre[j]),
                    pre.len() == k,
                    forall|c: int, t: int|
                        0 <= c < 3 && 0 <= t < 3 ==> #[trigger] r[c][t] == sum_active(
                            *cat,
                            pre,
                            *icons,
                            c,
                            t,
                        ) + rollout_effects(
                            def.effects@.take(e as int),
                            build,
                            bonus.bonus_permille as int,
                            c,
                            t,
                        ),
                decreases def.effects@.len() - e,
            {
                let effect = &def.effects[e];
                let ghost effs = def.effects@.take(e as int);
                let ghost effs2 = def.effects@.take(e as int + 1);
                assert(effs2.drop_last() =~= effs);
                assert(effs2.last() == *effect);
                assert forall|j: int| 0 <= j < effs2.len() implies op_bounded(
                    (#[trigger] effs2[j]).op,
                ) by {
                    assert(effs2[j] == def.effects@[j]);
                }
                assert(op_bounded(effect.op));
                if let EffectOp::ReduceSectorEmissions { sector, milli_gt } = &effect.op {
                    proof {
                        lemma_scaled_bound(*milli_gt as int, bonus.bonus_permille as int);
                        lemma_partial_bound(
                            permille_of(*milli_gt as int, bonus.bonus_permille as int),
                            build.progress as int,
                            build.duration as int,
                        );
                    }
                    let scaled = apply_permille(*milli_gt, bonus.bonus_permille);
                    let partial = scaled * build.progress as i64 / build.duration as i64;
                    let s = sector.index();
                    let cover = scope_continents(effect.scope, build.lead);
                    let ghost r0 = r;
                    let mut c: usize = 0;
                    while c < 3
                        invariant
                            c <= 3,
                            s == sector_index(*sector),
                            forall|cc: int| 0 <= cc < 3 ==> #[trigger] cover[cc] == scope_covers(
                                effect.scope,
                                build.lead,
                                cc,
                            ),
                            forall|cc: int, tt: int|
                                0 <= cc < 3 && 0 <= tt < 3 ==> #[trigger] r[cc][tt] == r0[cc][tt]
                                    + if cc < c && tt == s && cover[cc] {
                                    partial as int
                                } else {
                                    0
                                },
                            forall|cc: int, tt: int|
                                0 <= cc < 3 && 0 <= tt < 3 ==> -300_000_000_000_000_000 <= #[trigger] r0[cc][tt]
                                    <= 300_000_000_000_000_000,
                            -scaled_max() <= partial <= scaled_max(),
                        decreases 3 - c,
                    {
                        if cover[c] {
                            r[c][s] = r[c][s] + partial;
                        }
                        c = c + 1;
                    }
                }
                proof {
                    assert forall|c: int, t: int|
                        0 <= c < 3 && 0 <= t < 3 implies #[trigger] r[c][t] == sum_active(
                        *cat,
                        pre,
                        *icons,
                        c,
                        t,
                    ) + rollout_effects(effs2, build, bonus.bonus_permille as int, c, t) by {}
                    assert forall|c: int, t: int|
                        0 <= c < 3 && 0 <= t < 3 implies -300_000_000_000_000_000 <= #[trigger] r[c][t]
                        <= 300_000_000_000_000_000 by {
                        lemma_sum_active_bound(*cat, pre, *icons, c, t);
                        lemma_rollout_effects_bound(effs2, build, bonus.bonus_permille as int, c, t);
                        assert(pre.len() * 64 * scaled_max() <= 50_000 * 64 * scaled_max())
                            by (nonlinear_arith)
                            requires
                                pre.len() <= 50_000,
                        ;
                        assert(effs2.len() * scaled_max() <= 64 * scaled_max()) by (nonlinear_arith)
                            requires
                                effs2.len() <= 64,
                        ;
                    }
                }
                e = e + 1;
            }
            assert(def.effects@.take(def.effects@.len() as int) =~= def.effects@);
        }
        k = k + 1;
    }
    assert(active@.take(active@.len() as int) =~= active@);
    proof {
        assert forall|c: int, t: int|
            0 <= c < 3 && 0 <= t < 3 implies -300_000_000_000_000_000 <= #[trigger] r[c][t]
            <= 300_000_000_000_000_000 by {
            lemma_sum_active_bound(*cat, active@, *icons, c, t);
            assert(active@.len() * 64 * scaled_max() <= 50_000 * 64 * scaled_max()) by (nonlinear_arith)
                requires
                    active@.len() <= 50_000,
            ;
        }
    }
    r
}


/// How many slot milestones a best Institutions stock has reached.
fn milestones_count(ms: &Vec<SlotMilestone>, best: i64) -> (r: u32)
    requires
        ms@.len() < u32::MAX,
    ensures
        r == milestones_reached(ms@, best as int),
        r <= ms@.len(),
{
    let mut count: u32 = 0;
    let mut k: usize = 0;
    while k < ms.len()
        invariant
            k <= ms@.len(),
            ms@.len() < u32::MAX,
            count == milestones_reached(ms@.take(k as int), best as int),
            count <= k,
        decreases ms@.len() - k,
    {
        assert(ms@.take(k as int + 1).drop_last() =~= ms@.take(k as int));
        assert(ms@.take(k as int + 1).last() == ms@[k as int]);
        if best >= ms[k].institutions {
            count = count + 1;
        }
        k = k + 1;
    }
    assert(ms@.take(ms@.len() as int) =~= ms@);
    count
}

/// Derive `state` against `catalogue` if its inputs lie within the range a
/// derivation is proved for, and say whether it did; otherwise leave it as it
/// is.
pub fn try_derive_state(catalogue: &Catalogue, state: &mut RunState) -> (r: bool)
    ensures
        r == crate::state::inputs_wf(*catalogue, *old(state)),
        r ==> derived_from(*catalogue, *old(state), *final(state)) && state_wf(*catalogue, *final(state)),
        !r ==> *final(state) == *old(state),
{
    if crate::bounds::inputs_fit(catalogue, state) {
        derive_state(catalogue, state);
        true
    } else {
        false
    }
}

/// Recompute all derived state from baselines plus the standing completed and
/// active lists. Everything a project contributes lives here, so removing its
/// entry removes every trace of it.
pub fn derive_state(catalogue: &Catalogue, state: &mut RunState)
    requires
        crate::state::inputs_wf(*catalogue, *old(state)),
    ensures
        derived_from(*catalogue, *old(state), *final(state)),
        state_wf(*catalogue, *final(state)),
{
    let totals = completed_totals(catalogue, &state.completed);
    proof {
        assert forall|m: Measure| measure_bound(m) == MAG implies -3_300_000_000_000 <= #[trigger] sum_completed(
            state.completed@,
            m,
        ) <= 3_300_000_000_000 by {
            lemma_partial_small(
                *catalogue,
                state.completed@,
                state.completed@.len() as int,
                Seq::empty(),
                Continent::Europe,
                m,
            );
            assert(state.completed@.take(state.completed@.len() as int) =~= state.completed@);
        }
        assert forall|m: Measure| -400_000_000_000_000_000 <= #[trigger] sum_completed(
            state.completed@,
            m,
        ) <= 400_000_000_000_000_000 by {
            lemma_partial_small(
                *catalogue,
                state.completed@,
                state.completed@.len() as int,
                Seq::empty(),
                Continent::Europe,
                m,
            );
            assert(state.completed@.take(state.completed@.len() as int) =~= state.completed@);
        }
    }

    // Icons: opportunity grants plus standing completed projects, clamped.
    let mut icons = state.bonus_icons;
    let mut c: usize = 0;
    while c < 3
        invariant
            c <= 3,
            crate::state::inputs_wf(*catalogue, *old(state)),
            *state == *old(state),
            forall|m: Measure| kept_in_totals(m) ==> #[trigger] totals_get(totals, m) == sum_completed(state.completed@, m),
            forall|m: Measure| measure_bound(m) == MAG ==> -3_300_000_000_000 <= #[trigger] sum_completed(
                state.completed@,
                m,
            ) <= 3_300_000_000_000,
            forall|cc: int, ii: int|
                0 <= cc < 3 && 0 <= ii < 4 ==> #[trigger] icons[cc][ii] == if cc < c {
                    derived_icon(*state, cc, ii)
                } else {
                    state.bonus_icons[cc][ii] as int
                },
        decreases 3 - c,
    {
        let mut i: usize = 0;
        while i < 4
            invariant
                c < 3,
                i <= 4,
                crate::state::inputs_wf(*catalogue, *old(state)),
                *state == *old(state),
                forall|m: Measure| kept_in_totals(m) ==> #[trigger] totals_get(totals, m) == sum_completed(state.completed@, m),
                forall|m: Measure| measure_bound(m) == MAG ==> -3_300_000_000_000 <= #[trigger] sum_completed(
                    state.completed@,
                    m,
                ) <= 3_300_000_000_000,
                forall|cc: int, ii: int|
                    0 <= cc < 3 && 0 <= ii < 4 ==> #[trigger] icons[cc][ii] == if cc < c || (cc == c
                        && ii < i) {
                        derived_icon(*state, cc, ii)
                    } else {
                        state.bonus_icons[cc][ii] as int
                    },
            decreases 4 - i,
        {
            assert(totals_get(totals, Measure::Icon(c as int, i as int)) == sum_completed(
                state.completed@,
                Measure::Icon(c as int, i as int),
            ));
            assert(measure_bound(Measure::Icon(c as int, i as int)) == MAG);
            let stock = state.bonus_icons[c][i] + totals.icons[c][i];
            icons[c][i] = if stock < 0 { 0 } else { stock };
            i = i + 1;
        }
        c = c + 1;
    }
    state.icons = icons;

    // Unlock ratchet: once granted, an unlock persists.
    apply_unlocks(catalogue, &state.completed, &mut state.unlocked);

    // Emissions: baselines minus realised reductions minus rollout partials.
    proof {
        assert forall|cc: int, ii: int| 0 <= cc < 3 && 0 <= ii < 4 implies 0 <= #[trigger] state.icons[cc][ii] <= ICON_MAX by {
            assert(measure_bound(Measure::Icon(cc, ii)) == MAG);
            assert(-3_300_000_000_000 <= sum_completed(state.completed@, Measure::Icon(cc, ii)));
        }
        assert forall|k: int| 0 <= k < state.active@.len() implies active_bounded(*catalogue, #[trigger] state.active@[k]) by {
            assert(old(state).active@[k] == state.active@[k]);
        }
    }
    let partials = active_reductions(catalogue, &state.active, &state.icons);
    let mut emissions = state.baseline_emissions_milli;
    let mut c: usize = 0;
    while c < 3
        invariant
            c <= 3,
            crate::state::inputs_wf(*catalogue, *old(state)),
            state.completed == old(state).completed,
            state.active == old(state).active,
            state.baseline_emissions_milli == old(state).baseline_emissions_milli,
            forall|m: Measure| kept_in_totals(m) ==> #[trigger] totals_get(totals, m) == sum_completed(state.completed@, m),
            forall|m: Measure| -400_000_000_000_000_000 <= #[trigger] sum_completed(
                state.completed@,
                m,
            ) <= 400_000_000_000_000_000,
            forall|cc: int, t: int|
                0 <= cc < 3 && 0 <= t < 3 ==> #[trigger] partials[cc][t] == sum_active(
                    *catalogue,
                    state.active@,
                    state.icons,
                    cc,
                    t,
                ),
            grid_within(partials, -300_000_000_000_000_000, 300_000_000_000_000_000),
            forall|cc: int, t: int|
                0 <= cc < 3 && 0 <= t < 3 ==> #[trigger] emissions[cc][t] == if cc < c {
                    derived_emission(*catalogue, *old(state), state.icons, cc, t)
                } else {
                    state.baseline_emissions_milli[cc][t] as int
                },
        decreases 3 - c,
    {
        let mut t: usize = 0;
        while t < 3
            invariant
                c < 3,
                t <= 3,
                crate::state::inputs_wf(*catalogue, *old(state)),
                state.completed == old(state).completed,
                state.active == old(state).active,
                state.baseline_emissions_milli == old(state).baseline_emissions_milli,
                forall|m: Measure| kept_in_totals(m) ==> #[trigger] totals_get(totals, m) == sum_completed(state.completed@, m),
                forall|m: Measure| -400_000_000_000_000_000 <= #[trigger] sum_completed(
                    state.completed@,
                    m,
                ) <= 400_000_000_000_000_000,
                forall|cc: int, tt: int|
                    0 <= cc < 3 && 0 <= tt < 3 ==> #[trigger] partials[cc][tt] == sum_active(
                        *catalogue,
                        state.active@,
                        state.icons,
                        cc,
                        tt,
                    ),
                grid_within(partials, -300_000_000_000_000_000, 300_000_000_000_000_000),
                forall|cc: int, tt: int|
                    0 <= cc < 3 && 0 <= tt < 3 ==> #[trigger] emissions[cc][tt] == if cc < c || (cc
                        == c && tt < t) {
                        derived_emission(*catalogue, *old(state), state.icons, cc, tt)
                    } else {
                        state.baseline_emissions_milli[cc][tt] as int
                    },
            decreases 3 - t,
        {
            assert(totals_get(totals, Measure::Reduction(c as int, t as int)) == sum_completed(
                state.completed@,
                Measure::Reduction(c as int, t as int),
            ));
            let rate = state.baseline_emissions_milli[c][t] - totals.reductions[c][t]
                - partials[c][t];
            emissions[c][t] = if rate < 0 { 0 } else { rate };
            t = t + 1;
        }
        c = c + 1;
    }
    proof {
        assert forall|cc: int, t: int| 0 <= cc < 3 && 0 <= t < 3 implies 0 <= #[trigger] emissions[cc][t] <= 800_000_000_000_000_000 by {
            assert(-400_000_000_000_000_000 <= sum_completed(state.completed@, Measure::Reduction(cc, t)) <= 400_000_000_000_000_000);
            assert(-300_000_000_000_000_000 <= partials[cc][t] <= 300_000_000_000_000_000);
        }
    }
    state.sector_emissions_milli = emissions;

    // Deltas and the mandate maximum.
    assert(totals_get(totals, Measure::FinanceDelta) == sum_completed(state.completed@, Measure::FinanceDelta));
    assert(totals_get(totals, Measure::MandateDelta) == sum_completed(state.completed@, Measure::MandateDelta));
    assert(totals_get(totals, Measure::MandateMax) == sum_completed(state.completed@, Measure::MandateMax));
    assert(measure_bound(Measure::FinanceDelta) == MAG);
    assert(measure_bound(Measure::MandateDelta) == MAG);
    assert(measure_bound(Measure::MandateMax) == MAG);
    assert(-3_300_000_000_000 <= sum_completed(state.completed@, Measure::FinanceDelta));
    assert(-3_300_000_000_000 <= sum_completed(state.completed@, Measure::MandateDelta));
    assert(-3_300_000_000_000 <= sum_completed(state.completed@, Measure::MandateMax));
    assert(mag(state.baseline_finance_income_milli[0] as int));
    assert(mag(state.baseline_finance_income_milli[1] as int));
    assert(mag(state.baseline_finance_income_milli[2] as int));
    assert(mag(state.baseline_mandate_income_milli[0] as int));
    assert(mag(state.baseline_mandate_income_milli[1] as int));
    assert(mag(state.baseline_mandate_income_milli[2] as int));
    let fin = &state.baseline_finance_income_milli;
    let man = &state.baseline_mandate_income_milli;
    state.finance_delta_milli = fin[0] + fin[1] + fin[2] + totals.finance;
    state.mandate_delta_milli = man[0] + man[1] + man[2] + totals.mandate;
    let mandate_max = catalogue.scenario.mandate_max_start * 1000 + totals.mandate_max;
    state.mandate_max_milli = mandate_max;
    if state.mandate_milli > mandate_max {
        state.mandate_milli = mandate_max;
    }

    // Programme-slot milestones, driven by the best continental Institutions
    // stock. Slots ratchet.
    let a = state.icons[0][3];
    let b = state.icons[1][3];
    let d = state.icons[2][3];
    let best = if a >= b && a >= d {
        a
    } else if b >= d {
        b
    } else {
        d
    };
    let reached = milestones_count(&catalogue.scenario.slot_milestones, best);
    if state.slots_total < 1 + reached {
        state.slots_total = 1 + reached;
    }
    proof {
        assert forall|k: int| 0 <= k < state.active@.len() implies active_bounded(*catalogue, #[trigger] state.active@[k]) by {
            assert(old(state).active@[k] == state.active@[k]);
        }
        assert forall|k: int| 0 <= k < state.completed@.len() implies completed_bounded(*catalogue, #[trigger] state.completed@[k]) by {
            assert(old(state).completed@[k] == state.completed@[k]);
        }
        assert forall|k: int| 0 <= k < state.queue@.len() implies (#[trigger] state.queue@[k]).project < catalogue.projects@.len() by {
            assert(old(state).queue@[k] == state.queue@[k]);
        }
        assert forall|k: int| 0 <= k < state.opportunities@.len() implies (#[trigger] state.opportunities@[k]).def < catalogue.opportunities@.len() by {
            assert(old(state).opportunities@[k] == state.opportunities@[k]);
        }
        assert(grid_within(state.icons, 0, ICON_MAX as int));
        assert(grid_within(state.sector_emissions_milli, 0, 800_000_000_000_000_000));
        assert(1 <= state.slots_total);
        assert(-STOCK_MAX <= state.mandate_milli <= STOCK_MAX);
        assert(grid_within(state.bonus_icons, 0, BONUS_ICON_MAX as int));
    }
}

} // verus!
