use necessary_work::calc::{apply_permille, cost_multiplier_permille, reduction_bonus};
use necessary_work::schema::{
    Activation, Breakpoint, CostCurve, ProjectContext, ProjectDef, Repeat, ScalingRule,
};
use necessary_work::world::{Continent, Icon};

#[test]
fn curves_price_the_documented_shapes() {
    assert_eq!(cost_multiplier_permille(CostCurve::Flat, 10), 1000);
    assert_eq!(
        cost_multiplier_permille(CostCurve::Linear { increment_permille: 100 }, 3),
        1300
    );
    // Exponential compounds on the integer-truncated intermediate value.
    assert_eq!(
        cost_multiplier_permille(CostCurve::Exponential { growth_permille: 100 }, 2),
        1210
    );
    let curve = CostCurve::ScaleThenDeplete {
        discount_permille: 40,
        floor_count: 5,
        growth_permille: 70,
    };
    assert_eq!(cost_multiplier_permille(curve, 0), 1000);
    assert_eq!(cost_multiplier_permille(curve, 5), 800);
    assert_eq!(cost_multiplier_permille(curve, 7), 940);
}

#[test]
fn permille_application_rounds_down() {
    assert_eq!(apply_permille(600, 150), 690);
    assert_eq!(apply_permille(601, 150), 691);
    assert_eq!(apply_permille(1, 500), 1);
}

#[test]
fn negative_bases_round_down() {
    assert_eq!(apply_permille(-601, 150), -692);
    assert_eq!(apply_permille(-1, 500), -2);
    assert_eq!(apply_permille(-1000, 150), -1150);
    assert_eq!(apply_permille(1000, -1000), 0);
}

#[test]
fn exponential_truncates_each_step() {
    // 1000 -> 1333 -> 1776 (1776.889 truncated) -> 2367 (2367.408 truncated).
    let curve = CostCurve::Exponential { growth_permille: 333 };
    assert_eq!(cost_multiplier_permille(curve, 1), 1333);
    assert_eq!(cost_multiplier_permille(curve, 2), 1776);
    assert_eq!(cost_multiplier_permille(curve, 3), 2367);
}

fn project_with_scaling() -> ProjectDef {
    ProjectDef {
        id: "wind-solar-deployment".to_string(),
        title: "Wind and solar".to_string(),
        summary: String::new(),
        finance_cost: 100,
        mandate_cost: 2,
        duration_ticks: 10,
        repeat: Repeat::Repeatable,
        cost_curve: CostCurve::Flat,
        activation: Activation::Completion,
        locked: false,
        prerequisites: vec![],
        scaling: vec![ScalingRule {
            icon: Icon::Workforce,
            permille_per_icon: 50,
            cap_permille: 150,
        }],
        breakpoints: vec![
            Breakpoint {
                id: "skilled-installation-crews".to_string(),
                icon: Icon::Workforce,
                at_least: 2,
                bonus_permille: 100,
            },
            Breakpoint {
                id: "mass-manufacturing".to_string(),
                icon: Icon::Knowledge,
                at_least: 5,
                bonus_permille: 200,
            },
        ],
        effects: vec![],
        context: ProjectContext {
            what: String::new(),
            why: String::new(),
            depends_on: String::new(),
            limits: String::new(),
            in_this_scenario: String::new(),
            abstraction: String::new(),
            sources: vec![],
        },
    }
}

#[test]
fn reduction_bonus_orders_scaling_before_breakpoints() {
    let def = project_with_scaling();
    let mut icons = [[0i64; 4]; 3];
    icons[Continent::Europe.index()][Icon::Workforce.index()] = 10;
    let bonus = reduction_bonus(&def, Continent::Europe, &icons);
    // Scaling capped at 150, then the met breakpoint adds 100.
    assert_eq!(bonus.bonus_permille, 250);
    let names: Vec<&str> = bonus.modifiers.iter().map(|m| m.name.as_str()).collect();
    assert_eq!(names, vec!["scaling:workforce", "breakpoint:skilled-installation-crews"]);
    assert_eq!(bonus.breakpoints_met, vec!["skilled-installation-crews".to_string()]);
    assert_eq!(bonus.next_breakpoint.map(|b| b.id), Some("mass-manufacturing".to_string()));
    // Another continent holds nothing, so no bonus there.
    let elsewhere = reduction_bonus(&def, Continent::MajorityWorld, &icons);
    assert_eq!(elsewhere.bonus_permille, 0);
}

#[test]
fn more_icons_never_lower_a_non_negative_bonus() {
    let def = project_with_scaling();
    let mut previous = i64::MIN;
    for workforce in 0..6 {
        for knowledge in [0, 4, 5, 9] {
            let mut icons = [[0i64; 4]; 3];
            icons[Continent::Europe.index()][Icon::Workforce.index()] = workforce;
            icons[Continent::Europe.index()][Icon::Knowledge.index()] = knowledge;
            let bonus = reduction_bonus(&def, Continent::Europe, &icons).bonus_permille;
            if knowledge == 0 {
                assert!(bonus >= previous);
                previous = bonus;
            }
            let mut more = icons;
            more[Continent::Europe.index()][Icon::Workforce.index()] += 1;
            assert!(reduction_bonus(&def, Continent::Europe, &more).bonus_permille >= bonus);
        }
    }
}

#[test]
fn other_continents_icons_never_count() {
    let def = project_with_scaling();
    let mut icons = [[0i64; 4]; 3];
    icons[Continent::Europe.index()][Icon::Workforce.index()] = 3;
    let base = reduction_bonus(&def, Continent::Europe, &icons);
    icons[Continent::NorthAmerica.index()][Icon::Knowledge.index()] = 50;
    icons[Continent::MajorityWorld.index()][Icon::Workforce.index()] = 50;
    let other = reduction_bonus(&def, Continent::Europe, &icons);
    assert_eq!(base.bonus_permille, other.bonus_permille);
    assert_eq!(base.breakpoints_met, other.breakpoints_met);
    assert_eq!(base.modifiers, other.modifiers);
}

#[test]
fn negative_scaling_rates_are_computed_too() {
    let mut def = project_with_scaling();
    def.scaling[0].permille_per_icon = -40;
    def.breakpoints.clear();
    let mut icons = [[0i64; 4]; 3];
    icons[Continent::Europe.index()][Icon::Workforce.index()] = 3;
    let bonus = reduction_bonus(&def, Continent::Europe, &icons);
    assert_eq!(bonus.bonus_permille, -120);
    assert_eq!(apply_permille(1000, bonus.bonus_permille), 880);
}
