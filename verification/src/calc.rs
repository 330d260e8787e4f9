//! Scaling, breakpoints, and cost curves, with every calculation exposing its
//! base value, named modifiers in application order, and final value.

use vstd::prelude::*;
use vstd::string::*;

use crate::schema::{Breakpoint, CostCurve, ProjectDef, ScalingRule};
use crate::text::owned;
use crate::world::{Continent, Icon, continent_index, icon_index};

verus! {

/// The bound on authored magnitudes (effects, rates, bonuses, durations and
/// Mandate costs). With at most 64 effects per project and `LIST_MAX` standing
/// entries every derived sum stays within `i64`; see `LIST_MAX`.
pub const MAG: i64 = 1_000_000;

/// The bound on an icon stock that keeps scaling products in range:
/// `ICON_MAX * MAG` = 9 * 10^18 is below `i64::MAX`.
pub const ICON_MAX: i64 = 9_000_000_000_000;

/// `x` is representable as an `i64`.
pub open spec fn in_i64(x: int) -> bool {
    i64::MIN <= x <= i64::MAX
}

/// Integer division truncating toward zero, as machine division does.
pub open spec fn tdiv(a: int, b: int) -> int {
    if a >= 0 {
        a / b
    } else {
        -((-a) / b)
    }
}

/// `base` scaled by `1000 + bonus` permille, rounded down.
pub open spec fn permille_of(base: int, bonus: int) -> int {
    (base * (1000 + bonus)) / 1000
}

/// The product `apply_permille` forms is representable.
pub open spec fn permille_fits(base: int, bonus: int) -> bool {
    in_i64(1000 + bonus) && in_i64(base * (1000 + bonus))
}

/// Apply a permille bonus to an integer base, rounding down.
pub fn apply_permille(base: i64, bonus_permille: i64) -> (r: i64)
    requires
        permille_fits(base as int, bonus_permille as int),
    ensures
        r == permille_of(base as int, bonus_permille as int),
        r * 1000 <= base * (1000 + bonus_permille) < (r + 1) * 1000,
{
    let product = base * (1000 + bonus_permille);
    let q = product / 1000;
    let r = if product < 0 && q * 1000 != product { q - 1 } else { q };
    proof {
        let p = product as int;
        if p >= 0 {
            assert(q == p / 1000);
        } else {
            assert(q == -((-p) / 1000));
            assert((-p) / 1000 * 1000 <= -p < ((-p) / 1000 + 1) * 1000) by (nonlinear_arith);
            assert(p / 1000 * 1000 <= p < (p / 1000 + 1) * 1000) by (nonlinear_arith);
        }
        assert(r * 1000 <= p < (r + 1) * 1000);
        assert(r == p / 1000) by (nonlinear_arith)
            requires
                r * 1000 <= p < (r + 1) * 1000,
        ;
    }
    r
}

// ------------------------------------------------------------ cost curves

/// The compounding multiplier after `n` completions at `growth` permille,
/// truncating each intermediate product.
pub open spec fn exp_multiplier(growth: int, n: nat) -> int
    decreases n,
{
    if n == 0 {
        1000
    } else {
        tdiv(exp_multiplier(growth, (n - 1) as nat) * (1000 + growth), 1000)
    }
}

/// The repeat-curve multiplier (permille) for a project that has completed
/// `n` times, ever.
pub open spec fn curve_multiplier(curve: CostCurve, n: nat) -> int {
    match curve {
        CostCurve::Flat => 1000,
        CostCurve::Linear { increment_permille } => 1000 + increment_permille * n,
        CostCurve::Exponential { growth_permille } => exp_multiplier(growth_permille as int, n),
        CostCurve::ScaleThenDeplete { discount_permille, floor_count, growth_permille } => {
            if n <= floor_count {
                1000 - discount_permille * n
            } else {
                1000 - discount_permille * floor_count + growth_permille * (n - floor_count)
            }
        },
    }
}

/// Every intermediate of the curve computation is representable.
pub open spec fn curve_fits(curve: CostCurve, n: nat) -> bool {
    match curve {
        CostCurve::Flat => true,
        CostCurve::Linear { increment_permille } => in_i64(increment_permille * n) && in_i64(
            1000 + increment_permille * n,
        ),
        CostCurve::Exponential { growth_permille } => {
            &&& in_i64(1000 + growth_permille)
            &&& forall|k: nat|
                k < n ==> #[trigger] in_i64(exp_multiplier(growth_permille as int, k) * (1000
                    + growth_permille))
        },
        CostCurve::ScaleThenDeplete { discount_permille, floor_count, growth_permille } => {
            if n <= floor_count {
                in_i64(discount_permille * n) && in_i64(1000 - discount_permille * n)
            } else {
                &&& in_i64(discount_permille * floor_count)
                &&& in_i64(1000 - discount_permille * floor_count)
                &&& in_i64(growth_permille * (n - floor_count))
                &&& in_i64(
                    1000 - discount_permille * floor_count + growth_permille * (n - floor_count),
                )
            }
        },
    }
}

/// The repeat-curve multiplier (permille) for the next completion, given how
/// many completions have already happened, ever.
pub fn cost_multiplier_permille(curve: CostCurve, completions_ever: u32) -> (r: i64)
    requires
        curve_fits(curve, completions_ever as nat),
    ensures
        r == curve_multiplier(curve, completions_ever as nat),
{
    let n = completions_ever as i64;
    match curve {
        CostCurve::Flat => 1000,
        CostCurve::Linear { increment_permille } => 1000 + increment_permille * n,
        CostCurve::Exponential { growth_permille } => {
            let mut multiplier: i64 = 1000;
            let mut k: u32 = 0;
            while k < completions_ever
                invariant
                    k <= completions_ever,
                    multiplier == exp_multiplier(growth_permille as int, k as nat),
                    curve_fits(curve, completions_ever as nat),
                    curve == (CostCurve::Exponential { growth_permille }),
                decreases completions_ever - k,
            {
                assert(in_i64(exp_multiplier(growth_permille as int, k as nat) * (1000
                    + growth_permille)));
                multiplier = multiplier * (1000 + growth_permille) / 1000;
                k = k + 1;
            }
            multiplier
        },
        CostCurve::ScaleThenDeplete { discount_permille, floor_count, growth_permille } => {
            let floor = floor_count as i64;
            if n <= floor {
                1000 - discount_permille * n
            } else {
                1000 - discount_permille * floor + growth_permille * (n - floor)
            }
        },
    }
}

// ---------------------------------------------------- scaling, breakpoints

/// One named modifier, in permille, in application order.
#[derive(Debug, Clone, PartialEq, Eq)]
pub struct Modifier {
    pub name: String,
    pub permille: i64,
}

impl View for Modifier {
    type V = (Seq<char>, int);

    open spec fn view(&self) -> (Seq<char>, int) {
        (self.name@, self.permille as int)
    }
}

/// The views of a list of modifiers, in order.
pub open spec fn modifiers_view(v: Seq<Modifier>) -> Seq<(Seq<char>, int)> {
    v.map_values(|m: Modifier| m@)
}

/// A fully exposed calculation: base, ordered modifiers, and the result.
#[derive(Debug, Clone, PartialEq, Eq)]
pub struct CalcTrace {
    pub base: i64,
    pub modifiers: Vec<Modifier>,
    pub bonus_permille: i64,
    pub final_value: i64,
}

/// The scaling and breakpoint bonus for a project's emissions reductions.
pub struct ReductionBonus {
    pub modifiers: Vec<Modifier>,
    pub bonus_permille: i64,
    pub breakpoints_met: Vec<String>,
    /// The first authored breakpoint not yet met, if any.
    pub next_breakpoint: Option<Breakpoint>,
}

pub open spec fn icon_slug_spec(icon: Icon) -> Seq<char> {
    match icon {
        Icon::Knowledge => "knowledge"@,
        Icon::Infrastructure => "infrastructure"@,
        Icon::Workforce => "workforce"@,
        Icon::Institutions => "institutions"@,
    }
}

fn icon_slug(icon: Icon) -> (r: &'static str)
    ensures
        r@ == icon_slug_spec(icon),
{
    match icon {
        Icon::Knowledge => "knowledge",
        Icon::Infrastructure => "infrastructure",
        Icon::Workforce => "workforce",
        Icon::Institutions => "institutions",
    }
}

/// What one scaling rule contributes given the lead continent's icon row.
pub open spec fn scaling_contribution(rule: ScalingRule, row: [i64; 4]) -> int {
    let raw = row[icon_index(rule.icon)] * rule.permille_per_icon;
    if raw <= rule.cap_permille {
        raw
    } else {
        rule.cap_permille as int
    }
}

pub open spec fn scaling_total(rules: Seq<ScalingRule>, row: [i64; 4]) -> int
    decreases rules.len(),
{
    if rules.len() == 0 {
        0
    } else {
        scaling_total(rules.drop_last(), row) + scaling_contribution(rules.last(), row)
    }
}

pub open spec fn scaling_modifiers(rules: Seq<ScalingRule>, row: [i64; 4]) -> Seq<(Seq<char>, int)>
    decreases rules.len(),
{
    if rules.len() == 0 {
        seq![]
    } else {
        scaling_modifiers(rules.drop_last(), row).push(
            ("scaling:"@ + icon_slug_spec(rules.last().icon), scaling_contribution(rules.last(), row)),
        )
    }
}

/// The lead continent holds enough of the breakpoint's icon.
pub open spec fn breakpoint_met(bp: Breakpoint, row: [i64; 4]) -> bool {
    row[icon_index(bp.icon)] >= bp.at_least
}

pub open spec fn breakpoint_total(bps: Seq<Breakpoint>, row: [i64; 4]) -> int
    decreases bps.len(),
{
    if bps.len() == 0 {
        0
    } else {
        breakpoint_total(bps.drop_last(), row) + if breakpoint_met(bps.last(), row) {
            bps.last().bonus_permille as int
        } else {
            0
        }
    }
}

pub open spec fn breakpoint_modifiers(bps: Seq<Breakpoint>, row: [i64; 4]) -> Seq<
    (Seq<char>, int),
>
    decreases bps.len(),
{
    if bps.len() == 0 {
        seq![]
    } else if breakpoint_met(bps.last(), row) {
        breakpoint_modifiers(bps.drop_last(), row).push(
            ("breakpoint:"@ + bps.last().id@, bps.last().bonus_permille as int),
        )
    } else {
        breakpoint_modifiers(bps.drop_last(), row)
    }
}

pub open spec fn breakpoints_met_ids(bps: Seq<Breakpoint>, row: [i64; 4]) -> Seq<Seq<char>>
    decreases bps.len(),
{
    if bps.len() == 0 {
        seq![]
    } else if breakpoint_met(bps.last(), row) {
        breakpoints_met_ids(bps.drop_last(), row).push(bps.last().id@)
    } else {
        breakpoints_met_ids(bps.drop_last(), row)
    }
}

/// The first authored breakpoint not yet met.
pub open spec fn first_unmet(bps: Seq<Breakpoint>, row: [i64; 4]) -> Option<Breakpoint>
    decreases bps.len(),
{
    if bps.len() == 0 {
        None
    } else {
        match first_unmet(bps.drop_last(), row) {
            Some(b) => Some(b),
            None => if breakpoint_met(bps.last(), row) {
                None
            } else {
                Some(bps.last())
            },
        }
    }
}

/// The total scaling and breakpoint bonus of `def` on the given icon row.
pub open spec fn bonus_spec(def: ProjectDef, row: [i64; 4]) -> int {
    scaling_total(def.scaling@, row) + breakpoint_total(def.breakpoints@, row)
}

/// Scaling rules and breakpoints within the authored bounds.
pub open spec fn bonus_rules_bounded(def: ProjectDef) -> bool {
    &&& def.scaling@.len() <= 32
    &&& def.breakpoints@.len() <= 32
    &&& forall|k: int|
        0 <= k < def.scaling@.len() ==> {
            &&& 0 <= (#[trigger] def.scaling@[k]).permille_per_icon <= MAG
            &&& -MAG <= def.scaling@[k].cap_permille <= MAG
        }
    &&& forall|k: int|
        0 <= k < def.breakpoints@.len() ==> -MAG <= (#[trigger] def.breakpoints@[k]).bonus_permille
            <= MAG
}

/// An icon row whose stocks lie in the range scaling is computed over.
pub open spec fn row_bounded(row: [i64; 4]) -> bool {
    forall|i: int| 0 <= i < 4 ==> 0 <= #[trigger] row[i] <= ICON_MAX
}

proof fn lemma_scaling_total_bounds(rules: Seq<ScalingRule>, row: [i64; 4])
    requires
        row_bounded(row),
        forall|k: int|
            0 <= k < rules.len() ==> {
                &&& 0 <= (#[trigger] rules[k]).permille_per_icon <= MAG
                &&& -MAG <= rules[k].cap_permille <= MAG
            },
    ensures
        -MAG * rules.len() <= scaling_total(rules, row) <= MAG * rules.len(),
    decreases rules.len(),
{
    if rules.len() > 0 {
        lemma_scaling_total_bounds(rules.drop_last(), row);
        let r = rules.last();
        assert(rules[rules.len() - 1] == r);
        let held = row[icon_index(r.icon)];
        assert(0 <= held * r.permille_per_icon) by (nonlinear_arith)
            requires
                0 <= held,
                0 <= r.permille_per_icon,
        ;
    }
}

proof fn lemma_breakpoint_total_bounds(bps: Seq<Breakpoint>, row: [i64; 4])
    requires
        forall|k: int| 0 <= k < bps.len() ==> -MAG <= (#[trigger] bps[k]).bonus_permille <= MAG,
    ensures
        -MAG * bps.len() <= breakpoint_total(bps, row) <= MAG * bps.len(),
    decreases bps.len(),
{
    if bps.len() > 0 {
        lemma_breakpoint_total_bounds(bps.drop_last(), row);
        assert(bps[bps.len() - 1] == bps.last());
    }
}

/// With bounded rules and icons, the total bonus stays within 64 authored
/// magnitudes of zero.
pub proof fn lemma_bonus_bounds(def: ProjectDef, row: [i64; 4])
    requires
        bonus_rules_bounded(def),
        row_bounded(row),
    ensures
        -64 * MAG <= bonus_spec(def, row) <= 64 * MAG,
{
    lemma_scaling_total_bounds(def.scaling@, row);
    lemma_breakpoint_total_bounds(def.breakpoints@, row);
}

proof fn lemma_scaling_total_monotone(rules: Seq<ScalingRule>, row1: [i64; 4], row2: [i64; 4])
    requires
        forall|k: int| 0 <= k < rules.len() ==> (#[trigger] rules[k]).permille_per_icon >= 0,
        forall|i: int| 0 <= i < 4 ==> row1[i] <= row2[i],
    ensures
        scaling_total(rules, row1) <= scaling_total(rules, row2),
    decreases rules.len(),
{
    if rules.len() > 0 {
        lemma_scaling_total_monotone(rules.drop_last(), row1, row2);
        let r = rules.last();
        assert(rules[rules.len() - 1] == r);
        let i = icon_index(r.icon);
        let h1 = row1[i];
        let h2 = row2[i];
        assert(h1 * r.permille_per_icon <= h2 * r.permille_per_icon) by (nonlinear_arith)
            requires
                h1 <= h2,
                r.permille_per_icon >= 0,
        ;
    }
}

proof fn lemma_breakpoint_total_monotone(bps: Seq<Breakpoint>, row1: [i64; 4], row2: [i64; 4])
    requires
        forall|k: int| 0 <= k < bps.len() ==> (#[trigger] bps[k]).bonus_permille >= 0,
        forall|i: int| 0 <= i < 4 ==> row1[i] <= row2[i],
    ensures
        breakpoint_total(bps, row1) <= breakpoint_total(bps, row2),
    decreases bps.len(),
{
    if bps.len() > 0 {
        lemma_breakpoint_total_monotone(bps.drop_last(), row1, row2);
        assert(bps[bps.len() - 1] == bps.last());
        let i = icon_index(bps.last().icon);
        assert(row1[i] <= row2[i]);
    }
}

/// More icons never lower a bonus whose scaling rates and breakpoint bonuses
/// are all non-negative.
pub proof fn lemma_bonus_monotone(def: ProjectDef, row1: [i64; 4], row2: [i64; 4])
    requires
        forall|k: int| 0 <= k < def.scaling@.len() ==> (#[trigger] def.scaling@[k]).permille_per_icon >= 0,
        forall|k: int| 0 <= k < def.breakpoints@.len() ==> (#[trigger] def.breakpoints@[k]).bonus_permille >= 0,
        forall|i: int| 0 <= i < 4 ==> row1[i] <= row2[i],
    ensures
        bonus_spec(def, row1) <= bonus_spec(def, row2),
{
    lemma_scaling_total_monotone(def.scaling@, row1, row2);
    lemma_breakpoint_total_monotone(def.breakpoints@, row1, row2);
}

/// Computing the bonus of `def` on `row` stays within `i64`: every scaling
/// product, every running total of the scaling rules, and every running total
/// of the breakpoints after them.
pub open spec fn bonus_fits(def: ProjectDef, row: [i64; 4]) -> bool {
    &&& forall|k: int|
        0 <= k < def.scaling@.len() ==> in_i64(
            row[icon_index((#[trigger] def.scaling@[k]).icon)] * def.scaling@[k].permille_per_icon,
        )
    &&& forall|k: int| 0 <= k <= def.scaling@.len() ==> in_i64(#[trigger] scaling_total(def.scaling@.take(k), row))
    &&& forall|k: int|
        0 <= k <= def.breakpoints@.len() ==> in_i64(
            scaling_total(def.scaling@, row) + #[trigger] breakpoint_total(def.breakpoints@.take(k), row),
        )
}

/// Bounded rules on a bounded row compute within range.
pub proof fn lemma_bounded_bonus_fits(def: ProjectDef, row: [i64; 4])
    requires
        bonus_rules_bounded(def),
        row_bounded(row),
    ensures
        bonus_fits(def, row),
{
    assert forall|k: int| 0 <= k < def.scaling@.len() implies in_i64(
        row[icon_index((#[trigger] def.scaling@[k]).icon)] * def.scaling@[k].permille_per_icon,
    ) by {
        let held = row[icon_index(def.scaling@[k].icon)];
        let rate = def.scaling@[k].permille_per_icon;
        assert(0 <= held * rate <= ICON_MAX * MAG) by (nonlinear_arith)
            requires
                0 <= held <= ICON_MAX,
                0 <= rate <= MAG,
        ;
    }
    assert forall|k: int| 0 <= k <= def.scaling@.len() implies in_i64(
        #[trigger] scaling_total(def.scaling@.take(k), row),
    ) by {
        lemma_scaling_total_bounds(def.scaling@.take(k), row);
    }
    lemma_scaling_total_bounds(def.scaling@, row);
    assert forall|k: int| 0 <= k <= def.breakpoints@.len() implies in_i64(
        scaling_total(def.scaling@, row) + #[trigger] breakpoint_total(def.breakpoints@.take(k), row),
    ) by {
        lemma_breakpoint_total_bounds(def.breakpoints@.take(k), row);
    }
}

/// The scaling and breakpoint bonus of a project's emissions reductions,
/// given the icons. Modifier order is fixed: scaling rules in authored order,
/// then met breakpoints in authored order.
pub fn reduction_bonus(def: &ProjectDef, lead: Continent, icons: &[[i64; 4]; 3]) -> (r:
    ReductionBonus)
    requires
        bonus_fits(*def, icons[continent_index(lead)]),
    ensures
        r.bonus_permille == bonus_spec(*def, icons[continent_index(lead)]),
        modifiers_view(r.modifiers@) == scaling_modifiers(
            def.scaling@,
            icons[continent_index(lead)],
        ) + breakpoint_modifiers(def.breakpoints@, icons[continent_index(lead)]),
        r.breakpoints_met@.map_values(|s: String| s@) == breakpoints_met_ids(
            def.breakpoints@,
            icons[continent_index(lead)],
        ),
        r.next_breakpoint == first_unmet(def.breakpoints@, icons[continent_index(lead)]),
{
    let lead_icons: [i64; 4] = icons[lead.index()];
    let ghost row = lead_icons;
    let mut modifiers: Vec<Modifier> = Vec::new();
    let mut bonus: i64 = 0;

    let mut k: usize = 0;
    while k < def.scaling.len()
        invariant
            bonus_fits(*def, row),
            row == lead_icons,
            k <= def.scaling@.len(),
            bonus == scaling_total(def.scaling@.take(k as int), row),
            modifiers_view(modifiers@) == scaling_modifiers(def.scaling@.take(k as int), row),
        decreases def.scaling@.len() - k,
    {
        let rule = &def.scaling[k];
        assert(def.scaling@.take(k as int + 1).drop_last() =~= def.scaling@.take(k as int));
        assert(in_i64(row[icon_index(def.scaling@[k as int].icon)] * def.scaling@[k as int].permille_per_icon));
        assert(in_i64(scaling_total(def.scaling@.take(k as int + 1), row)));
        let held = lead_icons[rule.icon.index()];
        let raw = held * rule.permille_per_icon;
        let contribution = if raw <= rule.cap_permille {
            raw
        } else {
            rule.cap_permille
        };
        let name = owned("scaling:").concat(icon_slug(rule.icon));
        let ghost before = modifiers_view(modifiers@);
        modifiers.push(Modifier { name, permille: contribution });
        assert(modifiers_view(modifiers@) =~= before.push(
            ("scaling:"@ + icon_slug_spec(rule.icon), contribution as int),
        ));
        bonus = bonus + contribution;
        k = k + 1;
    }
    assert(def.scaling@.take(def.scaling@.len() as int) =~= def.scaling@);
    let ghost scaled = bonus as int;
    let ghost scaling_mods = modifiers_view(modifiers@);

    let mut breakpoints_met: Vec<String> = Vec::new();
    let mut next_breakpoint: Option<Breakpoint> = None;
    let mut k: usize = 0;
    while k < def.breakpoints.len()
        invariant
            bonus_fits(*def, row),
            row == lead_icons,
            k <= def.breakpoints@.len(),
            scaled == scaling_total(def.scaling@, row),
            bonus == scaled + breakpoint_total(def.breakpoints@.take(k as int), row),
            modifiers_view(modifiers@) == scaling_mods + breakpoint_modifiers(
                def.breakpoints@.take(k as int),
                row,
            ),
            breakpoints_met@.map_values(|s: String| s@) == breakpoints_met_ids(
                def.breakpoints@.take(k as int),
                row,
            ),
            next_breakpoint == first_unmet(def.breakpoints@.take(k as int), row),
        decreases def.breakpoints@.len() - k,
    {
        let breakpoint = &def.breakpoints[k];
        assert(def.breakpoints@.take(k as int + 1).drop_last() =~= def.breakpoints@.take(
            k as int,
        ));
        assert(def.breakpoints@.take(k as int + 1).last() == *breakpoint);
        assert(in_i64(scaled + breakpoint_total(def.breakpoints@.take(k as int + 1), row)));
        let ghost mods_before = modifiers_view(modifiers@);
        let ghost met_before = breakpoints_met@.map_values(|s: String| s@);
        if lead_icons[breakpoint.icon.index()] >= breakpoint.at_least {
            let name = owned("breakpoint:").concat(breakpoint.id.as_str());
            modifiers.push(Modifier { name, permille: breakpoint.bonus_permille });
            assert(modifiers_view(modifiers@) =~= mods_before.push(
                ("breakpoint:"@ + breakpoint.id@, breakpoint.bonus_permille as int),
            ));
            bonus = bonus + breakpoint.bonus_permille;
            breakpoints_met.push(breakpoint.id.clone());
            assert(breakpoints_met@.map_values(|s: String| s@) =~= met_before.push(
                breakpoint.id@,
            ));
        } else if next_breakpoint.is_none() {
            next_breakpoint = Some(breakpoint.duplicate());
        }
        k = k + 1;
    }
    assert(def.breakpoints@.take(def.breakpoints@.len() as int) =~= def.breakpoints@);
    ReductionBonus { modifiers, bonus_permille: bonus, breakpoints_met, next_breakpoint }
}

} // verus!
