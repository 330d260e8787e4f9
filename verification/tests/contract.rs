use necessary_work::derive::try_derive_state;
use necessary_work::catalogue::Catalogue;
use necessary_work::command::{Command, Rejection};
use necessary_work::init::project_def;
use necessary_work::preview::{affordable_in, preview};
use necessary_work::schema::{
    Activation, Breakpoint, CostCurve, EffectOp, OpportunityDef, OpportunityEffect, Prerequisite,
    ProjectContext, ProjectDef, Repeat, ScalingRule, Scenario, Scope, ScopedEffect, SlotMilestone,
};
use necessary_work::sim::Sim;
use necessary_work::trace::{BlockReason, TraceKind};
use necessary_work::world::{Continent, Icon, Sector};

fn context() -> ProjectContext {
    ProjectContext {
        what: String::new(),
        why: String::new(),
        depends_on: String::new(),
        limits: String::new(),
        in_this_scenario: String::new(),
        abstraction: String::new(),
        sources: vec![],
    }
}

fn effect(op: EffectOp, scope: Scope) -> ScopedEffect {
    ScopedEffect { op, scope }
}

#[allow(clippy::too_many_arguments)]
fn project(
    id: &str,
    finance_cost: i64,
    mandate_cost: i64,
    duration_ticks: u64,
    repeat: Repeat,
    activation: Activation,
    locked: bool,
    prerequisites: Vec<Prerequisite>,
    effects: Vec<ScopedEffect>,
) -> ProjectDef {
    ProjectDef {
        id: id.to_string(),
        title: id.to_string(),
        summary: String::new(),
        finance_cost,
        mandate_cost,
        duration_ticks,
        repeat,
        cost_curve: CostCurve::Flat,
        activation,
        locked,
        prerequisites,
        scaling: vec![],
        breakpoints: vec![],
        effects,
        context: context(),
    }
}

fn reduce(sector: Sector, milli_gt: i64) -> ScopedEffect {
    effect(EffectOp::ReduceSectorEmissions { sector, milli_gt }, Scope::LeadContinent)
}

fn catalogue() -> Catalogue {
    let mut baselines = Vec::new();
    for continent in Continent::ALL {
        for sector in Sector::ALL {
            baselines.push((continent, sector, 3_000));
        }
    }
    let scenario = Scenario {
        id: "counterfactual-1990".to_string(),
        authored_speed_ticks_per_second: 10,
        finance_start: 800,
        mandate_start: 20,
        mandate_max_start: 50,
        finance_income_milli: vec![
            (Continent::Europe, 3000),
            (Continent::NorthAmerica, 3000),
            (Continent::MajorityWorld, 2000),
        ],
        mandate_income_milli: vec![
            (Continent::Europe, 100),
            (Continent::NorthAmerica, 100),
            (Continent::MajorityWorld, 100),
        ],
        sector_baselines_milli_gt: baselines,
        starting_variation_permille: 50,
        slot_milestones: vec![SlotMilestone { institutions: 2 }, SlotMilestone { institutions: 6 }],
        opportunity_gap_ticks: (20, 40),
        opportunity_lifetime_ticks: 30,
        hash_every_ticks: 60,
    };
    let mut wind = project(
        "wind-solar-deployment",
        100,
        2,
        60,
        Repeat::Repeatable,
        Activation::Completion,
        false,
        vec![],
        vec![
            reduce(Sector::Power, 600),
            effect(EffectOp::AddIcon { icon: Icon::Workforce, amount: 1 }, Scope::LeadContinent),
            effect(EffectOp::AddMaintenance { milli_per_tick: 100 }, Scope::Global),
        ],
    );
    wind.scaling = vec![ScalingRule { icon: Icon::Infrastructure, permille_per_icon: 80, cap_permille: 600 }];
    wind.breakpoints = vec![Breakpoint {
        id: "skilled-installation-crews".to_string(),
        icon: Icon::Workforce,
        at_least: 4,
        bonus_permille: 150,
    }];
    let projects = vec![
        wind,
        project(
            "transit-and-rail",
            200,
            3,
            20,
            Repeat::Repeatable,
            Activation::LinearRollout,
            false,
            vec![],
            vec![
                reduce(Sector::TransportAndBuildings, 3000),
                effect(EffectOp::AddIcon { icon: Icon::Infrastructure, amount: 1 }, Scope::LeadContinent),
            ],
        ),
        project(
            "building-retrofit-programme",
            150,
            2,
            150,
            Repeat::Repeatable,
            Activation::LinearRollout,
            false,
            vec![],
            vec![reduce(Sector::TransportAndBuildings, 2500)],
        ),
        project(
            "grid-modernisation",
            300,
            4,
            20,
            Repeat::CappedRollout { per_continent: 1 },
            Activation::Completion,
            false,
            vec![],
            vec![
                effect(EffectOp::AddIcon { icon: Icon::Infrastructure, amount: 3 }, Scope::LeadContinent),
                effect(EffectOp::UnlockProject { project: "electrification-programme".to_string() }, Scope::Global),
            ],
        ),
        project(
            "electrification-programme",
            250,
            6,
            20,
            Repeat::Repeatable,
            Activation::Completion,
            true,
            vec![
                Prerequisite::CompletedOnLead { project: "grid-modernisation".to_string() },
                Prerequisite::IconAtLeast { icon: Icon::Infrastructure, amount: 3 },
            ],
            vec![reduce(Sector::TransportAndBuildings, 4000)],
        ),
        project(
            "methane-and-land-programme",
            120,
            2,
            12,
            Repeat::CappedRollout { per_continent: 2 },
            Activation::Completion,
            false,
            vec![],
            vec![reduce(Sector::IndustryAndLand, 2000)],
        ),
        project(
            "industrial-efficiency-standards",
            400,
            5,
            25,
            Repeat::Unique,
            Activation::Completion,
            false,
            vec![],
            vec![
                effect(
                    EffectOp::ReduceSectorEmissions { sector: Sector::IndustryAndLand, milli_gt: 300 },
                    Scope::AllContinents,
                ),
                effect(
                    EffectOp::UnlockProject { project: "industrial-deep-decarbonisation".to_string() },
                    Scope::Global,
                ),
            ],
        ),
        project(
            "clean-manufacturing-scaleup",
            200,
            3,
            20,
            Repeat::CappedRollout { per_continent: 1 },
            Activation::Completion,
            false,
            vec![],
            vec![effect(EffectOp::AddIcon { icon: Icon::Knowledge, amount: 3 }, Scope::LeadContinent)],
        ),
        project(
            "cfa-regional-secretariats",
            150,
            2,
            15,
            Repeat::Tiered { count: 3 },
            Activation::Completion,
            false,
            vec![],
            vec![
                effect(EffectOp::AddIcon { icon: Icon::Institutions, amount: 2 }, Scope::LeadContinent),
                effect(EffectOp::AddMandateIncome { milli_per_tick: 50 }, Scope::Global),
            ],
        ),
        project(
            "industrial-deep-decarbonisation",
            350,
            5,
            25,
            Repeat::Repeatable,
            Activation::Completion,
            true,
            vec![Prerequisite::IconAtLeast { icon: Icon::Knowledge, amount: 3 }],
            vec![reduce(Sector::IndustryAndLand, 5000)],
        ),
        project(
            "nuclear-fleet",
            1500,
            8,
            150,
            Repeat::Repeatable,
            Activation::Completion,
            false,
            vec![],
            vec![reduce(Sector::Power, 8000)],
        ),
    ];
    let opportunities = vec![
        OpportunityDef {
            id: "climate-finance-pledge".to_string(),
            title: String::new(),
            effect: OpportunityEffect::FinanceGrant { units: 200 },
        },
        OpportunityDef {
            id: "research-breakthrough".to_string(),
            title: String::new(),
            effect: OpportunityEffect::IconGrant { icon: Icon::Knowledge },
        },
    ];
    Catalogue { scenario, projects, opportunities, content_version: 1 }
}

fn sim(seed: u64) -> Sim {
    Sim::new(catalogue(), seed)
}

fn run(sim: &mut Sim, ticks: u64) {
    for _ in 0..ticks {
        assert!(sim.state.paused || sim.tick_room());
        sim.tick();
    }
}

fn queue(sim: &mut Sim, project: &str, lead: Continent) {
    sim.execute(Command::QueueProject { project: project.into(), lead }).expect("queueing a known project");
}

#[test]
fn the_fixture_validates() {
    assert_eq!(catalogue().validate(), vec![]);
}

#[test]
fn a_fresh_run_opens_on_the_authored_scenario() {
    let s = sim(42);
    assert_eq!(s.state.tick, 0);
    assert_eq!(s.state.finance_milli, 800_000);
    assert_eq!(s.state.mandate_milli, 20_000);
    assert_eq!(s.state.mandate_max_milli, 50_000);
    assert_eq!(s.state.finance_delta_milli, 8000);
    assert_eq!(s.state.mandate_delta_milli, 300);
    assert_eq!(s.state.slots_total, 1);
    assert_eq!(s.state.completions_ever, vec![0; 11]);
    assert_eq!(s.state.unlocked.iter().filter(|u| !**u).count(), 2);
    assert!((20..=40).contains(&s.state.next_opportunity_tick));
    assert_eq!(s.state.sector_emissions_milli, s.state.baseline_emissions_milli);
    assert!(s.log.is_empty());
}

// ------------------------------------------------------------- determinism

#[test]
fn same_seed_and_commands_reach_identical_state() {
    let script = |sim: &mut Sim| {
        queue(sim, "wind-solar-deployment", Continent::Europe);
        run(sim, 400);
        queue(sim, "transit-and-rail", Continent::MajorityWorld);
        run(sim, 400);
    };
    let mut a = sim(42);
    let mut b = sim(42);
    script(&mut a);
    script(&mut b);
    assert_eq!(a.state, b.state);
    assert_eq!(a.log, b.log);
}

#[test]
fn different_seeds_vary_starting_conditions_within_bounds() {
    let a = sim(1);
    let b = sim(2);
    assert_ne!(a.state.baseline_emissions_milli, b.state.baseline_emissions_milli);
    // Variation stays within the authored permille band.
    let catalogue = catalogue();
    for (continent, sector, base) in &catalogue.scenario.sector_baselines_milli_gt {
        let varied = a.state.baseline_emissions_milli[continent.index()][sector.index()];
        let bound = base * catalogue.scenario.starting_variation_permille / 1000 + 1;
        assert!((varied - base).abs() <= bound);
    }
}

// ---------------------------------------------------------- recoverability

#[test]
fn baseline_deltas_are_strictly_positive() {
    let s = sim(7);
    assert!(s.state.finance_delta_milli > 0);
    assert!(s.state.mandate_delta_milli > 0);
}

#[test]
fn rejected_commands_change_nothing() {
    let mut s = sim(7);
    let before = s.state.clone();
    assert!(s.execute(Command::ClaimOpportunity { index: 0 }).is_err());
    assert!(s
        .execute(Command::QueueProject { project: "no-such-project".into(), lead: Continent::Europe })
        .is_err());
    assert_eq!(s.state, before);
    // Both rejections are in the log with reasons.
    assert_eq!(s.log.len(), 2);
    assert!(s.log.iter().all(|entry| !entry.accepted()));
    assert_eq!(s.log[0].rejection, Some(Rejection::InvalidIndex));
    assert_eq!(s.log[1].rejection, Some(Rejection::UnknownProject { id: "no-such-project".to_string() }));
}

// ------------------------------------------------------------ pause timing

#[test]
fn paused_ticks_advance_nothing_but_planning_stays_available() {
    let mut s = sim(7);
    run(&mut s, 50);
    s.execute(Command::Pause).unwrap();
    let frozen = s.state.clone();
    run(&mut s, 200);
    // Ranked time, stocks, and construction are all frozen.
    assert_eq!(s.state.tick, frozen.tick);
    assert_eq!(s.state.finance_milli, frozen.finance_milli);
    assert_eq!(s.state, frozen);
    // Planning while paused is allowed.
    queue(&mut s, "wind-solar-deployment", Continent::Europe);
    assert_eq!(s.state.queue.len(), 1);
    s.execute(Command::Resume).unwrap();
    run(&mut s, 1);
    assert_eq!(s.state.tick, frozen.tick + 1);
}

#[test]
fn pause_commands_reject_when_redundant() {
    let mut s = sim(7);
    assert!(s.execute(Command::Resume).is_err());
    s.execute(Command::Pause).unwrap();
    assert!(s.execute(Command::Pause).is_err());
}

// ------------------------------------------------- queue FIFO and blocking

#[test]
fn blocked_head_stalls_fifo_and_explains_why() {
    let mut s = sim(7);
    // Nuclear costs 1500 units; the run starts with 800.
    queue(&mut s, "nuclear-fleet", Continent::Europe);
    queue(&mut s, "methane-and-land-programme", Continent::Europe);
    run(&mut s, 1);
    assert!(matches!(s.state.last_block, Some(BlockReason::InsufficientFinance { .. })));
    // Strict FIFO: the affordable second entry does not jump the queue.
    assert!(s.state.active.is_empty());
    assert_eq!(s.state.queue.len(), 2);
    // Positive income means the head eventually starts.
    run(&mut s, 200);
    assert_eq!(s.state.active.len(), 1);
    assert_eq!(s.state.queue.len(), 1);
    // The new head now stalls on the occupied slot, and says so.
    assert_eq!(s.state.last_block, Some(BlockReason::NoFreeSlot));
    // A block is traced only when it changes: the slot block once.
    let slot_blocks = s
        .state
        .trace
        .iter()
        .filter(|e| e.kind == TraceKind::QueueBlocked { reason: BlockReason::NoFreeSlot })
        .count();
    assert_eq!(slot_blocks, 1);
}

#[test]
fn locked_projects_block_until_unlocked() {
    let mut s = sim(7);
    queue(&mut s, "industrial-deep-decarbonisation", Continent::Europe);
    run(&mut s, 1);
    assert_eq!(s.state.last_block, Some(BlockReason::NotUnlocked));
}

#[test]
fn unique_projects_cannot_repeat() {
    let mut s = sim(7);
    queue(&mut s, "industrial-efficiency-standards", Continent::Europe);
    run(&mut s, 200);
    assert_eq!(s.state.completed.len(), 1);
    queue(&mut s, "industrial-efficiency-standards", Continent::Europe);
    run(&mut s, 1);
    assert_eq!(s.state.last_block, Some(BlockReason::RepeatLimitReached));
}

// ------------------------------------------------------ lifecycle cleanup

#[test]
fn cancellation_destroys_progress_gives_no_refund_frees_the_slot() {
    let mut s = sim(7);
    queue(&mut s, "wind-solar-deployment", Continent::Europe);
    run(&mut s, 50);
    assert_eq!(s.state.active.len(), 1);
    let finance_before_cancel = s.state.finance_milli;
    s.execute(Command::CancelActiveProject { index: 0 }).unwrap();
    assert!(s.state.active.is_empty());
    // No refund.
    assert_eq!(s.state.finance_milli, finance_before_cancel);
    // No lingering effects.
    assert_eq!(s.state.sector_emissions_milli, s.state.baseline_emissions_milli);
    assert_eq!(s.execute(Command::CancelActiveProject { index: 0 }), Err(Rejection::InvalidIndex));
}

#[test]
fn cancellation_removes_partial_rollout_effects() {
    let mut s = sim(7);
    // Building retrofits roll out linearly during construction.
    queue(&mut s, "building-retrofit-programme", Continent::Europe);
    run(&mut s, 100);
    assert!(s.state.total_emissions_milli() < s.state.baseline_emissions_milli.iter().flatten().sum());
    s.execute(Command::CancelActiveProject { index: 0 }).unwrap();
    assert_eq!(s.state.sector_emissions_milli, s.state.baseline_emissions_milli);
}

#[test]
fn decommission_removes_benefits_icons_and_upkeep_without_refund() {
    let mut s = sim(7);
    let delta_before = s.state.finance_delta_milli;
    queue(&mut s, "wind-solar-deployment", Continent::Europe);
    run(&mut s, 200);
    assert_eq!(s.state.completed.len(), 1);
    assert!(s.state.total_emissions_milli() < s.state.baseline_emissions_milli.iter().flatten().sum());
    assert_eq!(s.state.finance_delta_milli, delta_before - 100);
    let finance_before = s.state.finance_milli;
    s.execute(Command::DecommissionProject { index: 0 }).unwrap();
    // Benefits, icons, spillovers and upkeep gone; no refund.
    assert_eq!(s.state.sector_emissions_milli, s.state.baseline_emissions_milli);
    assert_eq!(s.state.icons, [[0; 4]; 3]);
    assert_eq!(s.state.finance_delta_milli, delta_before);
    assert_eq!(s.state.finance_milli, finance_before);
    // The cost curve still counts the completion: rebuilding is repriced.
    assert_eq!(s.state.completions_ever[catalogue().project_index("wind-solar-deployment").unwrap()], 1);
}

#[test]
fn unlocks_persist_after_their_source_is_decommissioned() {
    let mut s = sim(7);
    queue(&mut s, "grid-modernisation", Continent::Europe);
    run(&mut s, 30);
    let electrification = s.catalogue().project_index("electrification-programme").unwrap();
    assert!(s.state.unlocked[electrification]);
    s.execute(Command::DecommissionProject { index: 0 }).unwrap();
    assert!(s.state.unlocked[electrification]);
}

// -------------------------------------------------------- slot milestones

#[test]
fn institutions_milestones_unlock_programme_slots_and_ratchet() {
    let mut s = sim(7);
    assert_eq!(s.state.slots_total, 1);
    s.state.bonus_icons[Continent::MajorityWorld.index()][Icon::Institutions.index()] = 2;
    s.rederive();
    assert_eq!(s.state.slots_total, 2);
    s.state.bonus_icons[Continent::MajorityWorld.index()][Icon::Institutions.index()] = 6;
    s.rederive();
    assert_eq!(s.state.slots_total, 3);
    // Slots ratchet: losing the icons does not remove the slot.
    s.state.bonus_icons[Continent::MajorityWorld.index()][Icon::Institutions.index()] = 0;
    s.rederive();
    assert_eq!(s.state.slots_total, 3);
    assert!(s.state.trace.iter().any(|e| e.kind == TraceKind::SlotUnlocked { total: 3 }));
}

#[test]
fn completed_secretariats_open_a_slot() {
    let mut s = sim(7);
    queue(&mut s, "cfa-regional-secretariats", Continent::Europe);
    run(&mut s, 20);
    assert_eq!(s.state.slots_total, 2);
    s.execute(Command::DecommissionProject { index: 0 }).unwrap();
    assert_eq!(s.state.icons[Continent::Europe.index()][Icon::Institutions.index()], 0);
    assert_eq!(s.state.slots_total, 2);
}

// ------------------------------------------- scaling, breakpoints, preview

#[test]
fn scaling_applies_before_breakpoints_and_respects_caps() {
    let mut s = sim(7);
    // 10 Infrastructure would scale 800 permille but caps at 600; 4 Workforce
    // meets the breakpoint for +150.
    s.state.bonus_icons[Continent::Europe.index()][Icon::Infrastructure.index()] = 10;
    s.state.bonus_icons[Continent::Europe.index()][Icon::Workforce.index()] = 4;
    s.rederive();
    let p = preview(&s, "wind-solar-deployment", Continent::Europe).unwrap();
    assert_eq!(p.reduction_bonus_permille, 750);
    // Documented order: scaling rules first, then breakpoints.
    assert_eq!(p.reduction_modifiers.len(), 2);
    assert!(p.reduction_modifiers[0].name.starts_with("scaling:"));
    assert!(p.reduction_modifiers[1].name.starts_with("breakpoint:"));
    assert_eq!(p.breakpoints_met, vec!["skilled-installation-crews".to_string()]);
    // Direct effect: 600 base * 1.75, on the lead continent only.
    assert_eq!(p.emissions_change_milli[Continent::Europe.index()], -1050);
    assert_eq!(p.emissions_change_milli[Continent::NorthAmerica.index()], 0);
}

#[test]
fn preview_equals_realised_effect_under_unchanged_conditions() {
    let mut s = sim(11);
    let p = preview(&s, "wind-solar-deployment", Continent::MajorityWorld).unwrap();
    let emissions_before = s.state.sector_emissions_milli;
    let finance_before = s.state.finance_milli;

    queue(&mut s, "wind-solar-deployment", Continent::MajorityWorld);
    run(&mut s, 1); // head starts, cost paid
    let paid = finance_before + s.state.finance_delta_milli - s.state.finance_milli;
    assert_eq!(paid, p.finance_cost_milli);

    run(&mut s, p.duration_ticks);
    assert_eq!(s.state.completed.len(), 1, "project should have completed");
    for continent in Continent::ALL {
        let realised: i64 = s.state.sector_emissions_milli[continent.index()].iter().sum::<i64>()
            - emissions_before[continent.index()].iter().sum::<i64>();
        assert_eq!(realised, p.emissions_change_milli[continent.index()]);
    }
    assert_eq!(s.state.icons, p.icons_after);
}

#[test]
fn preview_reports_time_until_affordable() {
    let s = sim(7);
    // Nuclear costs more than starting finance; the wait must match income.
    let p = preview(&s, "nuclear-fleet", Continent::Europe).unwrap();
    let wait = p.ticks_until_affordable.unwrap();
    assert!(wait > 0);
    let shortfall = p.finance_cost_milli - s.state.finance_milli;
    let delta = s.state.finance_delta_milli;
    assert_eq!(wait, ((shortfall + delta - 1) / delta) as u64);
    // Methane is affordable immediately.
    let p = preview(&s, "methane-and-land-programme", Continent::Europe).unwrap();
    assert_eq!(p.ticks_until_affordable, Some(0));
    assert!(preview(&s, "no-such-project", Continent::Europe).is_none());
}

#[test]
fn preview_lists_the_unlocks_it_would_grant() {
    let s = sim(7);
    let grid = preview(&s, "grid-modernisation", Continent::Europe).unwrap();
    assert_eq!(grid.unlocks, vec!["electrification-programme".to_string()]);
    assert_eq!(grid.icons_after[Continent::Europe.index()][Icon::Infrastructure.index()], 3);
    assert_eq!(grid.finance_cost_milli, 300_000);
    assert_eq!(grid.duration_ticks, 20);
}

#[test]
fn shared_scope_effects_reach_every_continent() {
    let mut s = sim(7);
    let p = preview(&s, "industrial-efficiency-standards", Continent::Europe).unwrap();
    for continent in Continent::ALL {
        assert_eq!(p.emissions_change_milli[continent.index()], -300);
    }
    assert_eq!(p.unlocks, vec!["industrial-deep-decarbonisation".to_string()]);
    // And realised: completing it unlocks the locked project everywhere.
    queue(&mut s, "industrial-efficiency-standards", Continent::Europe);
    run(&mut s, 200);
    let deep = catalogue().project_index("industrial-deep-decarbonisation").unwrap();
    assert!(s.state.unlocked[deep]);
}

#[test]
fn realised_reductions_lock_in_the_bonus_held_at_completion() {
    let mut s = sim(7);
    s.state.bonus_icons[Continent::Europe.index()][Icon::Infrastructure.index()] = 5;
    s.rederive();
    queue(&mut s, "wind-solar-deployment", Continent::Europe);
    run(&mut s, 62);
    assert_eq!(s.state.completed.len(), 1);
    assert_eq!(s.state.completed[0].bonus_permille, 400);
    let locked_in = s.state.sector_emissions_milli;
    // More icons later do not grow what is already built.
    s.state.bonus_icons[Continent::Europe.index()][Icon::Infrastructure.index()] = 7;
    s.rederive();
    assert_eq!(s.state.sector_emissions_milli, locked_in);
}

// ------------------------------------------------------------ opportunities

#[test]
fn opportunities_spawn_deterministically_and_claims_apply() {
    let mut a = sim(21);
    let mut b = sim(21);
    run(&mut a, 1000);
    run(&mut b, 1000);
    assert_eq!(a.state.opportunities, b.state.opportunities);
    if !a.state.opportunities.is_empty() {
        let finance = a.state.finance_milli;
        let mandate = a.state.mandate_milli;
        let icons = a.state.icons;
        a.execute(Command::ClaimOpportunity { index: 0 }).unwrap();
        let changed = a.state.finance_milli != finance || a.state.mandate_milli != mandate || a.state.icons != icons;
        assert!(changed, "a claim must apply its one-shot effect");
    }
}

#[test]
fn opportunities_open_on_schedule_and_lapse_unclaimed() {
    let mut s = sim(21);
    let due = s.state.next_opportunity_tick;
    run(&mut s, due);
    assert_eq!(s.state.opportunities.len(), 1);
    let open = s.state.opportunities[0];
    assert_eq!(open.opened, due);
    assert_eq!(open.expires, due + 30);
    run(&mut s, 30);
    assert!(s.state.trace.iter().any(|e| matches!(e.kind, TraceKind::OpportunityExpired { .. })));
}

// ------------------------------------------------------------------ victory

#[test]
fn victory_needs_zero_emissions_and_non_negative_deltas() {
    let mut s = sim(3);
    assert!(!s.state.victory_condition_met());
    assert!(s.state.total_emissions_milli() > 0);
    s.state.sector_emissions_milli = [[0; 3]; 3];
    assert!(s.state.victory_condition_met());
    s.state.finance_delta_milli = -1;
    assert!(!s.state.victory_condition_met());
}

#[test]
fn project_definitions_are_found_by_id() {
    let c = catalogue();
    assert_eq!(project_def(&c, "nuclear-fleet").map(|d| d.finance_cost), Some(1500));
    assert!(project_def(&c, "unknown").is_none());
}

#[test]
fn costs_carry_their_calculation_trace() {
    let s = sim(7);
    let (cost, trace) = s.current_cost_milli(0, Continent::Europe);
    assert_eq!(cost, 100_000);
    assert_eq!(trace.base, 100_000);
    assert_eq!(trace.final_value, 100_000);
    assert_eq!(trace.modifiers.len(), 1);
    assert_eq!(trace.modifiers[0].name, "repeat-curve");
    assert_eq!(s.current_duration(0), 60);
    assert_eq!(
        s.head_block(necessary_work::state::QueuedProject { project: 4, lead: Continent::Europe }),
        Some(BlockReason::NotUnlocked)
    );
}

// ------------------------------------------------------------ bots and records

use necessary_work::bot::{next_pick, play_turn, Outcome, Strategy, Turn};
use necessary_work::record::{
    check_versions, compare_ledgers, digest_bytes, versions, Divergence, Moved, RunRecord, Runner, Verdict,
};

/// A stand-in for the serialized-state digest: the tick, stocks, deltas and
/// emissions, hashed.
fn digest(runner: &Runner) -> u64 {
    let s = &runner.sim.state;
    let mut bytes = Vec::new();
    bytes.extend_from_slice(&s.tick.to_le_bytes());
    bytes.extend_from_slice(&s.finance_milli.to_le_bytes());
    bytes.extend_from_slice(&s.mandate_milli.to_le_bytes());
    bytes.extend_from_slice(&s.finance_delta_milli.to_le_bytes());
    for row in s.sector_emissions_milli.iter() {
        for cell in row.iter() {
            bytes.extend_from_slice(&cell.to_le_bytes());
        }
    }
    bytes.extend_from_slice(&(s.completed.len() as u64).to_le_bytes());
    digest_bytes(&bytes)
}

fn tick(runner: &mut Runner) {
    assert!(runner.sim.state.paused || runner.sim.tick_room());
    runner.sim.tick();
    let d = digest(runner);
    runner.record_tick(d);
}

fn play(runner: &mut Runner, strategy: Strategy, max_ticks: u64) -> Outcome {
    loop {
        match play_turn(runner, strategy, max_ticks) {
            Turn::Tick => tick(runner),
            Turn::Over(outcome) => return outcome,
            Turn::OutOfRange(outcome) => panic!("the run left the proved range at tick {}", outcome.final_tick),
        }
    }
}

fn replay(record: &RunRecord, catalogue: Catalogue) -> (Verdict, Option<u64>) {
    if let Some(moved) = check_versions(&record.versions, &versions(&catalogue)) {
        return (Verdict::Refused(moved), None);
    }
    let mut runner = Runner::new(catalogue, record.seed);
    for entry in &record.commands {
        while runner.behind(entry.tick) {
            tick(&mut runner);
        }
        assert!(runner.sim.command_room(&entry.command));
        if let Err(cause) = runner.replay_command(entry) {
            let victory = runner.sim.state.victory_tick;
            return (Verdict::Diverged { at_tick: Some(entry.tick), cause: Some(cause) }, victory);
        }
    }
    while runner.behind(record.ledger.final_tick) {
        tick(&mut runner);
    }
    (compare_ledgers(&record.ledger, &runner.ledger), runner.sim.state.victory_tick)
}

fn validate(record: &RunRecord, catalogue: Catalogue) -> Verdict {
    replay(record, catalogue).0
}

fn recorded_run(seed: u64, ticks: u64) -> RunRecord {
    let mut runner = Runner::new(catalogue(), seed);
    for _ in 0..ticks {
        tick(&mut runner);
    }
    runner.into_record()
}

#[test]
fn strategy_names_round_trip() {
    for strategy in [Strategy::DeployFirst, Strategy::CapacityFirst] {
        assert_eq!(Strategy::parse(strategy.name()), Some(strategy));
    }
    assert_eq!(Strategy::parse("deploy-first"), Some(Strategy::DeployFirst));
    assert_eq!(Strategy::parse("turtle"), None);
}

#[test]
fn the_strategies_open_differently() {
    let s = sim(7);
    let capacity = next_pick(&s, Strategy::CapacityFirst).unwrap();
    assert_eq!(capacity, ("grid-modernisation".to_string(), Continent::Europe));
    let deploy = next_pick(&s, Strategy::DeployFirst).unwrap();
    assert_ne!(deploy.0, capacity.0);
}

#[test]
fn both_build_orders_win_and_their_records_validate() {
    let mut logs = Vec::new();
    for strategy in [Strategy::DeployFirst, Strategy::CapacityFirst] {
        let mut runner = Runner::new(catalogue(), 7);
        let outcome = play(&mut runner, strategy, 20_000);
        assert!(
            outcome.victory_tick.is_some(),
            "{} must reach victory (left: {} milli-Gt)",
            strategy.name(),
            runner.sim.state.total_emissions_milli()
        );
        assert!(runner.sim.state.finance_delta_milli >= 0);
        assert!(runner.sim.state.mandate_delta_milli >= 0);
        let record = runner.into_record();
        assert_eq!(validate(&record, catalogue()), Verdict::Reproduced);
        logs.push(record.commands);
    }
    assert_ne!(logs[0], logs[1]);
}

#[test]
fn tampered_records_are_rejected() {
    let mut runner = Runner::new(catalogue(), 3);
    play(&mut runner, Strategy::DeployFirst, 2_000);
    let record = runner.into_record();

    let mut wrong_ruleset = record.clone();
    wrong_ruleset.versions.rules = "proto-0".into();
    assert!(matches!(validate(&wrong_ruleset, catalogue()), Verdict::Refused(Moved::Rules { .. })));

    let mut wrong_content = record.clone();
    wrong_content.versions.content ^= 1;
    assert!(matches!(validate(&wrong_content, catalogue()), Verdict::Refused(Moved::Content { .. })));

    let mut wrong_format = record.clone();
    wrong_format.versions.format += 1;
    assert!(matches!(validate(&wrong_format, catalogue()), Verdict::Refused(Moved::Format { .. })));

    let mut wrong_final = record.clone();
    wrong_final.ledger.final_digest ^= 1;
    wrong_final.ledger.samples.clear();
    assert!(matches!(validate(&wrong_final, catalogue()), Verdict::Diverged { at_tick: None, .. }));

    let mut wrong_seed = record;
    wrong_seed.seed ^= 1;
    assert_ne!(validate(&wrong_seed, catalogue()), Verdict::Reproduced);
}

#[test]
fn an_untouched_run_validates() {
    let record = recorded_run(5, 1200);
    assert_eq!(record.ledger.samples.len(), 20);
    assert_eq!(record.ledger.final_tick, 1200);
    assert_eq!(validate(&record, catalogue()), Verdict::Reproduced);
}

#[test]
fn version_mismatch_is_rejected_not_converted() {
    let mut record = recorded_run(5, 64);
    record.versions.rules = "proto-0".into();
    assert!(matches!(validate(&record, catalogue()), Verdict::Refused(Moved::Rules { .. })));

    let mut record = recorded_run(5, 64);
    record.versions.content ^= 0xff;
    assert!(matches!(validate(&record, catalogue()), Verdict::Refused(Moved::Content { .. })));
}

#[test]
fn a_moved_periodic_hash_is_located() {
    let mut record = recorded_run(5, 2000);
    assert!(record.ledger.samples.len() > 2, "this run should have sampled several times");
    let at = record.ledger.samples[1].tick;
    record.ledger.samples[1].digest ^= 0xff;
    assert!(matches!(
        validate(&record, catalogue()),
        Verdict::Diverged { at_tick: Some(tick), .. } if tick == at
    ));
}

#[test]
fn a_moved_final_hash_is_caught() {
    let mut record = recorded_run(5, 600);
    record.ledger.final_digest ^= 0xff;
    record.ledger.samples.clear();
    assert!(matches!(validate(&record, catalogue()), Verdict::Diverged { at_tick: None, .. }));
}

#[test]
fn a_reproduced_run_brings_its_victory_tick_with_it() {
    let mut runner = Runner::new(catalogue(), 5);
    let outcome = play(&mut runner, Strategy::CapacityFirst, 20_000);
    let record = runner.into_record();
    let (verdict, victory_tick) = replay(&record, catalogue());
    assert_eq!(verdict, Verdict::Reproduced);
    assert_eq!(victory_tick, outcome.victory_tick);

    let mut fresh = Runner::new(catalogue(), 5);
    play(&mut fresh, Strategy::CapacityFirst, 20_000);
    assert_eq!(victory_tick, fresh.sim.state.victory_tick);
}

#[test]
fn a_recorded_outcome_that_moved_is_a_divergence() {
    let mut runner = Runner::new(catalogue(), 5);
    runner.execute(Command::QueueProject { project: "nuclear-fleet".into(), lead: Continent::Europe }).unwrap();
    let mut record = runner.into_record();
    record.commands[0].rejection = Some(Rejection::InvalidIndex);
    assert_eq!(
        validate(&record, catalogue()),
        Verdict::Diverged { at_tick: Some(0), cause: Some(Divergence::UnexpectedAcceptance) }
    );
}

#[test]
fn a_record_expecting_time_to_pass_while_paused_stalls() {
    let mut runner = Runner::new(catalogue(), 5);
    runner.execute(Command::Pause).unwrap();
    let mut record = runner.into_record();
    let mut later = record.commands[0].clone();
    later.tick = 10;
    later.command = Command::Resume;
    record.commands.push(later);
    assert_eq!(
        validate(&record, catalogue()),
        Verdict::Diverged { at_tick: Some(10), cause: Some(Divergence::Stalled { stuck_at: 0, wanted: 10 }) }
    );
}

#[test]
fn paused_ticks_never_sample_twice() {
    let mut runner = Runner::new(catalogue(), 5);
    for _ in 0..60 {
        tick(&mut runner);
    }
    runner.execute(Command::Pause).unwrap();
    for _ in 0..5 {
        tick(&mut runner);
    }
    assert_eq!(runner.ledger.samples.len(), 1);
    assert_eq!(runner.ledger.samples[0].tick, 60);
    assert_eq!(runner.ledger.final_tick, 60);
}

#[test]
fn a_refusal_the_record_did_not_see_is_a_divergence() {
    let mut runner = Runner::new(catalogue(), 5);
    let _ = runner.execute(Command::QueueProject { project: "no-such-project".into(), lead: Continent::Europe });
    let mut record = runner.into_record();
    record.commands[0].rejection = None;
    assert_eq!(
        validate(&record, catalogue()),
        Verdict::Diverged {
            at_tick: Some(0),
            cause: Some(Divergence::UnexpectedRejection(Rejection::UnknownProject {
                id: "no-such-project".to_string()
            })),
        }
    );
}

#[test]
fn missing_prerequisites_are_named() {
    let mut s = sim(7);
    queue(&mut s, "grid-modernisation", Continent::Europe);
    run(&mut s, 25);
    // Unlocked by the grid, but the grid stands only in Europe.
    queue(&mut s, "electrification-programme", Continent::NorthAmerica);
    run(&mut s, 1);
    assert_eq!(
        s.state.last_block,
        Some(BlockReason::MissingProject { project: "grid-modernisation".to_string() })
    );
}

#[test]
fn missing_icons_are_named_with_what_is_held() {
    let mut s = sim(7);
    queue(&mut s, "industrial-efficiency-standards", Continent::Europe);
    run(&mut s, 30);
    queue(&mut s, "industrial-deep-decarbonisation", Continent::Europe);
    run(&mut s, 1);
    assert_eq!(
        s.state.last_block,
        Some(BlockReason::MissingIcon { icon: Icon::Knowledge, needed: 3, have: 0 })
    );
}

#[test]
fn mandate_is_checked_after_finance() {
    let mut s = sim(7);
    s.state.mandate_milli = 1000;
    let head = necessary_work::state::QueuedProject { project: 0, lead: Continent::Europe };
    assert_eq!(
        s.head_block(head),
        Some(BlockReason::InsufficientMandate { needed_milli: 2000, have_milli: 1000 })
    );
    s.state.finance_milli = 0;
    assert_eq!(
        s.head_block(head),
        Some(BlockReason::InsufficientFinance { needed_milli: 100_000, have_milli: 0 })
    );
}

#[test]
fn waits_are_the_least_whole_number_of_ticks() {
    assert_eq!(affordable_in(800_000, 1_500_000, 8000), Some(88));
    assert_eq!(affordable_in(800_000, 1_504_000, 8000), Some(88));
    assert_eq!(affordable_in(800_000, 1_504_001, 8000), Some(89));
    assert_eq!(affordable_in(2_000, 1_000, -5), Some(0));
    assert_eq!(affordable_in(0, 1_000, 0), None);
}

#[test]
fn started_builds_pay_upfront_and_leave_the_queue_head_first() {
    let mut s = sim(7);
    queue(&mut s, "methane-and-land-programme", Continent::Europe);
    queue(&mut s, "wind-solar-deployment", Continent::Europe);
    let finance = s.state.finance_milli;
    let mandate = s.state.mandate_milli;
    run(&mut s, 1);
    assert_eq!(s.state.active.len(), 1);
    assert_eq!(s.state.active[0].project as usize, s.catalogue().project_index("methane-and-land-programme").unwrap());
    assert_eq!(s.state.finance_milli, finance + 8000 - 120_000);
    assert_eq!(s.state.mandate_milli, mandate + 300 - 2000);
    assert_eq!(s.state.queue.len(), 1);
    assert!(s.state.trace.iter().any(|e| matches!(e.kind, TraceKind::ProjectStarted { .. })));
}

#[test]
fn a_finished_run_is_over_and_untouched() {
    let mut runner = Runner::new(catalogue(), 7);
    let before = runner.sim.state.clone();
    // A budget already used up ends the run before anything is claimed.
    assert_eq!(
        play_turn(&mut runner, Strategy::DeployFirst, 0),
        Turn::Over(Outcome { victory_tick: None, final_tick: 0 })
    );
    assert_eq!(runner.sim.state, before);
    // With budget left, the turn is played and the caller ticks.
    assert_eq!(play_turn(&mut runner, Strategy::DeployFirst, 10), Turn::Tick);
    assert_eq!(runner.sim.state.queue.len(), 1);
}

#[test]
fn out_of_range_content_is_refused_up_front() {
    let mut c = catalogue();
    assert!(Sim::try_new(c.clone(), 1).is_some());
    c.scenario.finance_start = i64::MAX;
    assert!(Sim::try_new(c, 1).is_none());
}

#[test]
fn derivation_is_checked_against_its_range() {
    let s = sim(4);
    let mut state = s.state.clone();
    assert!(try_derive_state(s.catalogue(), &mut state));
    assert_eq!(state, s.state);
    let mut wild = s.state.clone();
    wild.finance_milli = i64::MAX;
    let untouched = wild.clone();
    assert!(!try_derive_state(s.catalogue(), &mut wild));
    assert_eq!(wild, untouched);
}

#[test]
fn large_costs_and_long_tables_are_accepted() {
    let mut c = catalogue();
    c.projects[0].finance_cost = 2_000_000;
    for _ in 0..40 {
        c.scenario.finance_income_milli.push((Continent::Europe, 3000));
        c.scenario.slot_milestones.push(SlotMilestone { institutions: 50 });
    }
    c.scenario.finance_start = 5_000_000;
    let mut s = Sim::try_new(c, 2).expect("content within the proved range");
    queue(&mut s, "wind-solar-deployment", Continent::Europe);
    run(&mut s, 2);
    // The two-million-unit build is affordable from the larger start, and starts.
    assert_eq!(s.state.active.len(), 1);
    assert_eq!(s.state.finance_milli % 1000, (5_000_000i64 * 1000 - 2_000_000 * 1000) % 1000);
    assert!(s.state.finance_milli < 3_100_000_000);
}

#[test]
fn only_a_claim_needs_room() {
    let mut s = sim(6);
    s.state.finance_milli = 8_999_999_999_999_999_000;
    assert!(s.command_room(&Command::Pause));
    assert!(s.command_room(&Command::QueueProject { project: "transit-and-rail".into(), lead: Continent::Europe }));
    assert!(s.command_room(&Command::ClaimOpportunity { index: 0 }));
}

#[test]
fn twelve_hundred_standing_completions_are_derived() {
    let mut s = sim(7);
    queue(&mut s, "wind-solar-deployment", Continent::Europe);
    run(&mut s, 200);
    assert_eq!(s.state.completed.len(), 1);
    let entry = s.state.completed[0].clone();
    let mut state = s.state.clone();
    for _ in 1..1200 {
        state.completed.push(entry.clone());
    }
    assert!(necessary_work::bounds::inputs_fit(s.catalogue(), &state));
    assert!(try_derive_state(s.catalogue(), &mut state));
    assert_eq!(state.completed.len(), 1200);
    // Every copy adds its upkeep and its Workforce icon.
    assert_eq!(state.finance_delta_milli, s.state.finance_delta_milli - 1199 * 100);
    assert_eq!(
        state.icons[Continent::Europe.index()][Icon::Workforce.index()],
        s.state.icons[Continent::Europe.index()][Icon::Workforce.index()] + 1199
    );
}

#[test]
fn a_project_with_many_small_effects_is_accepted() {
    let mut c = catalogue();
    for _ in 0..33 {
        c.projects[0].effects.push(effect(EffectOp::AddMaintenance { milli_per_tick: 1 }, Scope::Global));
    }
    let mut s = Sim::try_new(c, 3).expect("content within the proved range");
    queue(&mut s, "wind-solar-deployment", Continent::Europe);
    let before = s.state.finance_delta_milli;
    run(&mut s, 200);
    assert_eq!(s.state.completed.len(), 1);
    assert_eq!(s.state.finance_delta_milli, before - 100 - 33);
}

#[test]
fn checked_steps_refuse_only_what_leaves_the_range() {
    let mut s = sim(8);
    assert!(s.try_tick());
    assert_eq!(s.state.tick, 1);
    assert_eq!(s.try_execute(Command::Pause), Some(Ok(())));
    assert_eq!(s.try_execute(Command::Pause), Some(Err(Rejection::AlreadyPaused)));
    let paused = s.state.clone();
    assert!(s.try_tick());
    assert_eq!(s.state, paused);
    s.execute(Command::Resume).unwrap();
    s.state.finance_milli = 8_999_999_999_999_999_000;
    let before = s.state.clone();
    assert!(!s.try_tick());
    assert_eq!(s.state, before);
}
