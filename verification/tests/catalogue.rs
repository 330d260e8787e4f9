use necessary_work::render::describe_scope_mismatch;
use necessary_work::catalogue::{is_kebab, Catalogue, ContentIssue};
use necessary_work::hash::fnv1a64;
use necessary_work::schema::{
    Activation, CostCurve, EffectOp, OpportunityDef, OpportunityEffect, Prerequisite, ProjectContext,
    ProjectDef, ProjectsFile, Repeat, Scenario, ScenarioFile, Scope, ScopedEffect, SlotMilestone,
};
use necessary_work::world::{Continent, Icon, Sector};

fn project(id: &str, effects: Vec<ScopedEffect>) -> ProjectDef {
    ProjectDef {
        id: id.to_string(),
        title: id.to_string(),
        summary: String::new(),
        finance_cost: 100,
        mandate_cost: 2,
        duration_ticks: 10,
        repeat: Repeat::Repeatable,
        cost_curve: CostCurve::Flat,
        activation: Activation::Completion,
        locked: false,
        prerequisites: vec![],
        scaling: vec![],
        breakpoints: vec![],
        effects,
        context: ProjectContext {
            what: String::new(),
            why: String::new(),
            depends_on: String::new(),
            limits: String::new(),
            in_this_scenario: String::new(),
            abstraction: String::new(),
            sources: vec![],
        },
    }
}

fn scenario() -> Scenario {
    let mut baselines = Vec::new();
    for continent in Continent::ALL {
        for sector in Sector::ALL {
            baselines.push((continent, sector, 5_000));
        }
    }
    Scenario {
        id: "counterfactual-1990".to_string(),
        authored_speed_ticks_per_second: 10,
        finance_start: 800,
        mandate_start: 20,
        mandate_max_start: 50,
        finance_income_milli: vec![(Continent::Europe, 3000)],
        mandate_income_milli: vec![(Continent::Europe, 100)],
        sector_baselines_milli_gt: baselines,
        starting_variation_permille: 50,
        slot_milestones: vec![SlotMilestone { institutions: 2 }],
        opportunity_gap_ticks: (20, 40),
        opportunity_lifetime_ticks: 30,
        hash_every_ticks: 60,
    }
}

fn catalogue(projects: Vec<ProjectDef>) -> Catalogue {
    Catalogue {
        scenario: scenario(),
        projects,
        opportunities: vec![OpportunityDef {
            id: "climate-finance-pledge".to_string(),
            title: String::new(),
            effect: OpportunityEffect::FinanceGrant { units: 100 },
        }],
        content_version: 0,
    }
}

fn reduce(milli_gt: i64) -> ScopedEffect {
    ScopedEffect {
        op: EffectOp::ReduceSectorEmissions { sector: Sector::Power, milli_gt },
        scope: Scope::LeadContinent,
    }
}

#[test]
fn well_formed_content_has_no_issues() {
    let c = catalogue(vec![project("wind-solar-deployment", vec![reduce(1000)])]);
    assert_eq!(c.validate(), vec![]);
}

#[test]
fn kebab_ids_are_lowercase_digits_and_inner_hyphens() {
    assert!(is_kebab("wind-solar-2"));
    assert!(!is_kebab(""));
    assert!(!is_kebab("-wind"));
    assert!(!is_kebab("wind-"));
    assert!(!is_kebab("Wind"));
    assert!(!is_kebab("wind_solar"));
}

#[test]
fn duplicate_and_malformed_ids_are_reported() {
    let c = catalogue(vec![
        project("wind", vec![reduce(1000)]),
        project("wind", vec![reduce(1000)]),
        project("Bad_Id", vec![reduce(1000)]),
    ]);
    assert_eq!(
        c.validate(),
        vec![ContentIssue::DuplicateId("wind".to_string()), ContentIssue::BadId("Bad_Id".to_string())]
    );
}

#[test]
fn unresolved_references_are_reported_from_their_source() {
    let mut p = project(
        "standards",
        vec![ScopedEffect {
            op: EffectOp::ModifyProjectCost { project: "missing".to_string(), permille: -100 },
            scope: Scope::Global,
        }],
    );
    p.prerequisites = vec![
        Prerequisite::CompletedAnywhere { project: "absent".to_string() },
        Prerequisite::IconAtLeast { icon: Icon::Knowledge, amount: 2 },
    ];
    let c = catalogue(vec![p]);
    assert_eq!(
        c.validate(),
        vec![
            ContentIssue::UnresolvedReference { from: "standards".to_string(), to: "absent".to_string() },
            ContentIssue::UnresolvedReference { from: "standards".to_string(), to: "missing".to_string() },
        ]
    );
}

#[test]
fn scopes_must_match_the_effect_family() {
    let c = catalogue(vec![project(
        "income",
        vec![ScopedEffect { op: EffectOp::AddFinanceIncome { milli_per_tick: 10 }, scope: Scope::LeadContinent }],
    )]);
    let issues = c.validate();
    assert_eq!(issues.len(), 1);
    match &issues[0] {
        ContentIssue::BadScope { id, detail } => {
            assert_eq!(id, "income");
            assert_eq!(detail, "AddFinanceIncome { milli_per_tick: 10 } with scope LeadContinent");
        }
        other => panic!("unexpected issue {other:?}"),
    }
}

#[test]
fn bad_values_and_orphaned_locks_are_reported() {
    let mut tiered = project("tiered", vec![reduce(1000)]);
    tiered.repeat = Repeat::Tiered { count: 0 };
    let mut locked = project("locked", vec![reduce(1000)]);
    locked.locked = true;
    locked.duration_ticks = 0;
    let c = catalogue(vec![tiered, locked]);
    assert_eq!(
        c.validate(),
        vec![
            ContentIssue::BadValue { id: "tiered".to_string(), detail: "Tiered count must be at least 1".to_string() },
            ContentIssue::BadValue {
                id: "locked".to_string(),
                detail: "duration must be positive; costs must be non-negative".to_string(),
            },
            ContentIssue::LockedWithoutUnlocker("locked".to_string()),
        ]
    );
}

#[test]
fn the_scenario_must_be_recoverable_and_complete() {
    let mut c = catalogue(vec![project("wind", vec![reduce(1000)])]);
    c.scenario.mandate_income_milli = vec![(Continent::Europe, 0)];
    c.scenario.sector_baselines_milli_gt.pop();
    assert_eq!(
        c.validate(),
        vec![
            ContentIssue::BadValue {
                id: "counterfactual-1990".to_string(),
                detail: "baseline Finance and Mandate income must be positive".to_string(),
            },
            ContentIssue::BadValue {
                id: "counterfactual-1990".to_string(),
                detail: "exactly nine sector baselines are required".to_string(),
            },
        ]
    );
}

#[test]
fn project_index_finds_the_first_match() {
    let c = catalogue(vec![project("a", vec![]), project("b", vec![]), project("b", vec![])]);
    assert_eq!(c.project_index("b"), Some(1));
    assert_eq!(c.project_index("c"), None);
}

#[test]
fn content_version_hashes_both_files_in_order() {
    let scenario_file = ScenarioFile { scenario: scenario(), opportunities: vec![] };
    let projects_file = ProjectsFile { projects: vec![project("a", vec![])] };
    let c = Catalogue::from_files(scenario_file, projects_file, b"scen", b"proj");
    assert_eq!(c.content_version, fnv1a64(b"scenproj"));
    assert_eq!(c.projects.len(), 1);
    assert!(c.opportunities.is_empty());
}

#[test]
fn spatial_ops_are_the_per_continent_ones() {
    assert!(EffectOp::AddIcon { icon: Icon::Knowledge, amount: 1 }.is_spatial());
    assert!(!EffectOp::AddMandateMaximum { milli: 1 }.is_spatial());
    assert!(!EffectOp::UnlockProject { project: "x".to_string() }.is_spatial());
}

#[test]
fn scope_details_render_each_effect_and_scope() {
    let cases = vec![
        (EffectOp::AddIcon { icon: Icon::Knowledge, amount: 3 }, Scope::Global),
        (EffectOp::RemoveIcon { icon: Icon::Institutions, amount: -7 }, Scope::Global),
        (EffectOp::ReduceSectorEmissions { sector: Sector::IndustryAndLand, milli_gt: i64::MIN }, Scope::Global),
        (EffectOp::AddMandateIncome { milli_per_tick: i64::MAX }, Scope::Spillover(Continent::NorthAmerica)),
        (EffectOp::AddMandateMaximum { milli: 0 }, Scope::Continent(Continent::MajorityWorld)),
        (EffectOp::AddMaintenance { milli_per_tick: 1234567 }, Scope::AllContinents),
        (
            EffectOp::ModifyProjectCost { project: "grid-modernisation".to_string(), permille: -100 },
            Scope::LeadContinent,
        ),
        (
            EffectOp::ModifyProjectDuration { project: "a \"quoted\" \\ id\n\t\r\0\u{1b}\u{7f}é".to_string(), permille: 5 },
            Scope::LeadContinent,
        ),
        (EffectOp::UnlockProject { project: String::new() }, Scope::Spillover(Continent::Europe)),
        (
            EffectOp::UnlockProject {
                project: "soft\u{ad}hy\u{85}ph\u{9f}en\u{200b}\u{200f}\u{2028}\u{202e}\u{2060}\u{2066}\u{feff}\u{61c}\u{fffb}".to_string(),
            },
            Scope::Global,
        ),
    ];
    for (op, scope) in cases {
        assert_eq!(describe_scope_mismatch(&op, scope), format!("{:?} with scope {:?}", op, scope));
    }
}

#[test]
fn income_tables_are_totalled_exactly() {
    let mut c = catalogue(vec![project("wind", vec![reduce(1000)])]);
    // Two huge incomes whose sum passes the 64-bit range still total positive.
    c.scenario.finance_income_milli = vec![(Continent::Europe, i64::MAX), (Continent::NorthAmerica, i64::MAX)];
    assert_eq!(c.validate(), vec![]);
    // And two huge debts total negative.
    c.scenario.finance_income_milli = vec![(Continent::Europe, i64::MIN), (Continent::NorthAmerica, i64::MIN)];
    assert_eq!(
        c.validate(),
        vec![ContentIssue::BadValue {
            id: "counterfactual-1990".to_string(),
            detail: "baseline Finance and Mandate income must be positive".to_string(),
        }]
    );
}
