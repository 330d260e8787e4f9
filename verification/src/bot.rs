//! Two deterministic bot strategies. `DeployFirst` chases direct reductions
//! and builds capacity only out of surplus; `CapacityFirst` builds enabling
//! projects, institutions and programme slots before mass deployment. They
//! compare candidates through the same projected-outcome previews a player
//! sees.

use vstd::prelude::*;

use crate::catalogue::{first_with_id, id_exists, Catalogue};
use crate::command::Command;
use crate::headroom::cost_fits_check;
use crate::preview::{hypothesis, preview, preview_of, same_inputs, same_record, same_records, lemma_derivation_deterministic};
use crate::record::Runner;
use crate::sim::{apply_spec, cost_fits, cost_spec, id_index, logged, Sim};
use crate::state::{state_wf, sum3, CompletedProject, RunState, LIST_MAX};
use crate::text::{owned, str_eq};
use crate::tick::tick_headroom;
use crate::world::{continent_at, continent_index, icon_index, sector_index, Continent, Icon, Sector};

verus! {

#[derive(Debug, Clone, Copy, PartialEq, Eq, Structural)]
pub enum Strategy {
    DeployFirst,
    CapacityFirst,
}

pub open spec fn strategy_name(s: Strategy) -> Seq<char> {
    match s {
        Strategy::DeployFirst => "deploy-first"@,
        Strategy::CapacityFirst => "capacity-first"@,
    }
}

impl Strategy {
    /// The strategy a command-line name selects.
    pub fn parse(text: &str) -> (r: Option<Strategy>)
        ensures
            match r {
                Some(s) => strategy_name(s) == text@,
                None => text@ != "deploy-first"@ && text@ != "capacity-first"@,
            },
    {
        if str_eq(text, "deploy-first") {
            Some(Strategy::DeployFirst)
        } else if str_eq(text, "capacity-first") {
            Some(Strategy::CapacityFirst)
        } else {
            None
        }
    }

    pub fn name(self) -> (r: &'static str)
        ensures
            r@ == strategy_name(self),
    {
        match self {
            Strategy::DeployFirst => "deploy-first",
            Strategy::CapacityFirst => "capacity-first",
        }
    }
}

/// How a run ended.
#[derive(Debug, Clone, Copy, PartialEq, Eq, Structural)]
pub struct Outcome {
    pub victory_tick: Option<u64>,
    pub final_tick: u64,
}

/// What one turn of a bot run leaves the caller to do.
#[derive(Debug, Clone, Copy, PartialEq, Eq, Structural)]
pub enum Turn {
    /// The turn is played: tick now, then play the next turn.
    Tick,
    /// The run is over: it has won or used its tick budget.
    Over(Outcome),
    /// The run cannot go on: its next step would leave the integer range the
    /// simulation is proved for. It stops unfinished, at this outcome.
    OutOfRange(Outcome),
}

// ------------------------------------------------------------- the model

/// A build of project `project` led on `at` is one of `id` (on `lead`, if
/// given).
pub open spec fn entry_matches(
    cat: Catalogue,
    project: u32,
    at: Continent,
    id: Seq<char>,
    lead: Option<Continent>,
) -> bool {
    &&& cat.projects@[project as int].id@ == id
    &&& match lead {
        Some(l) => l == at,
        None => true,
    }
}

/// How many standing completions are of `id` (on `lead`, if given).
pub open spec fn completions_of(
    cat: Catalogue,
    done: Seq<CompletedProject>,
    id: Seq<char>,
    lead: Option<Continent>,
) -> int
    decreases done.len(),
{
    if done.len() == 0 {
        0
    } else {
        completions_of(cat, done.drop_last(), id, lead) + if entry_matches(
            cat,
            done.last().project,
            done.last().lead,
            id,
            lead,
        ) {
            1int
        } else {
            0
        }
    }
}

/// A build of `id` (on `lead`, if given) is active or queued.
pub open spec fn in_flight_spec(cat: Catalogue, s: RunState, id: Seq<char>, lead: Option<Continent>) -> bool {
    ||| exists|k: int|
        0 <= k < s.active@.len() && entry_matches(
            cat,
            (#[trigger] s.active@[k]).project,
            s.active@[k].lead,
            id,
            lead,
        )
    ||| exists|k: int|
        0 <= k < s.queue@.len() && entry_matches(
            cat,
            (#[trigger] s.queue@[k]).project,
            s.queue@[k].lead,
            id,
            lead,
        )
}

/// Completions ever of `id`; zero for an unknown id.
pub open spec fn ever_spec(cat: Catalogue, s: RunState, id: Seq<char>) -> int {
    if id_exists(cat.projects@, id) {
        s.completions_ever@[id_index(cat.projects@, id)] as int
    } else {
        0
    }
}

/// The continent with the most remaining emissions; the last of equals.
pub open spec fn worst_continent_spec(s: RunState) -> Continent {
    let e0 = sum3(s.sector_emissions_milli[0]);
    let e1 = sum3(s.sector_emissions_milli[1]);
    let e2 = sum3(s.sector_emissions_milli[2]);
    if e2 >= e1 && e2 >= e0 {
        Continent::MajorityWorld
    } else if e1 >= e0 {
        Continent::NorthAmerica
    } else {
        Continent::Europe
    }
}

/// The remaining emissions of cell `k` (continent-major, then sector).
pub open spec fn cell_emission(s: RunState, k: int) -> int {
    s.sector_emissions_milli[k / 3][k % 3] as int
}

/// Among the first `k` cells, the one with the most remaining emissions
/// that still emits; the last of equals.
pub open spec fn worst_cell_upto(s: RunState, k: int) -> Option<int>
    decreases k,
{
    if k <= 0 {
        None
    } else {
        let prev = worst_cell_upto(s, k - 1);
        let v = cell_emission(s, k - 1);
        if v > 0 && (prev is None || v >= cell_emission(s, prev->0)) {
            Some(k - 1)
        } else {
            prev
        }
    }
}

/// Project `id` on continent `c` is neither standing nor in flight.
pub open spec fn missing_on(cat: Catalogue, s: RunState, id: Seq<char>, c: Continent) -> bool {
    completions_of(cat, s.completed@, id, Some(c)) == 0 && !in_flight_spec(cat, s, id, Some(c))
}

/// The first continent, in world order, missing project `id`.
pub open spec fn first_missing(cat: Catalogue, s: RunState, id: Seq<char>) -> Option<Continent> {
    if missing_on(cat, s, id, Continent::Europe) {
        Some(Continent::Europe)
    } else if missing_on(cat, s, id, Continent::NorthAmerica) {
        Some(Continent::NorthAmerica)
    } else if missing_on(cat, s, id, Continent::MajorityWorld) {
        Some(Continent::MajorityWorld)
    } else {
        None
    }
}

/// Capacity-first front-loads enablers, institutions and slots.
pub open spec fn capacity_pick(cat: Catalogue, s: RunState) -> Option<(Seq<char>, Continent)> {
    match first_missing(cat, s, "grid-modernisation"@) {
        Some(c) => Some(("grid-modernisation"@, c)),
        None => match first_missing(cat, s, "clean-manufacturing-scaleup"@) {
            Some(c) => Some(("clean-manufacturing-scaleup"@, c)),
            None => if ever_spec(cat, s, "cfa-regional-secretariats"@) < 3 && !in_flight_spec(
                cat,
                s,
                "cfa-regional-secretariats"@,
                None,
            ) {
                Some(("cfa-regional-secretariats"@, worst_continent_spec(s)))
            } else if completions_of(cat, s.completed@, "industrial-efficiency-standards"@, None) == 0
                && !in_flight_spec(cat, s, "industrial-efficiency-standards"@, None) {
                Some(("industrial-efficiency-standards"@, worst_continent_spec(s)))
            } else {
                None
            },
        },
    }
}

/// The change in global emissions a preview of project `k` led on `lead`
/// reports.
pub open spec fn preview_global_change(cat: Catalogue, s: RunState, k: int, lead: Continent) -> int {
    let (raw, hyp) = choose|raw: RunState, hyp: RunState| hypothesis(cat, s, k, lead, raw, hyp);
    (sum3(hyp.sector_emissions_milli[0]) - sum3(s.sector_emissions_milli[0])) + (sum3(
        hyp.sector_emissions_milli[1],
    ) - sum3(s.sector_emissions_milli[1])) + (sum3(hyp.sector_emissions_milli[2]) - sum3(
        s.sector_emissions_milli[2],
    ))
}

/// What a candidate costs per unit of reduction it previews (Finance milli
/// per milli-Gt, times 1000); unknown projects rank last.
pub open spec fn pick_key(cat: Catalogue, s: RunState, lead: Continent, id: Seq<char>) -> int {
    if id_exists(cat.projects@, id) {
        let k = id_index(cat.projects@, id);
        let reduction = -preview_global_change(cat, s, k, lead);
        crate::calc::tdiv(
            cost_spec(cat, s, k) * 1000,
            if reduction >= 1 {
                reduction
            } else {
                1
            },
        )
    } else {
        i64::MAX as int
    }
}

/// The candidate with the lowest key; the first of equals.
pub open spec fn cheapest_of(cat: Catalogue, s: RunState, lead: Continent, ids: Seq<Seq<char>>) -> Seq<char>
    decreases ids.len(),
{
    if ids.len() <= 1 {
        ids[0]
    } else {
        let prev = cheapest_of(cat, s, lead, ids.drop_last());
        if pick_key(cat, s, lead, ids.last()) < pick_key(cat, s, lead, prev) {
            ids.last()
        } else {
            prev
        }
    }
}

/// The transport-and-buildings options on continent `c`: electrification
/// only once the grid is modernised there, with the infrastructure and
/// mandate to carry it.
pub open spec fn transport_candidates(cat: Catalogue, s: RunState, c: Continent) -> Seq<Seq<char>> {
    let base = seq!["transit-and-rail"@, "building-retrofit-programme"@];
    if completions_of(cat, s.completed@, "grid-modernisation"@, Some(c)) > 0
        && s.icons[continent_index(c)][icon_index(Icon::Infrastructure)] >= 3
        && s.mandate_milli >= 6000 {
        base.push("electrification-programme"@)
    } else {
        base
    }
}

/// The industry-and-land pick on continent `c`.
pub open spec fn industry_pick(cat: Catalogue, s: RunState, c: Continent) -> (Seq<char>, Continent) {
    if completions_of(cat, s.completed@, "methane-and-land-programme"@, Some(c)) < 2
        && !in_flight_spec(cat, s, "methane-and-land-programme"@, Some(c)) {
        ("methane-and-land-programme"@, c)
    } else if completions_of(cat, s.completed@, "industrial-efficiency-standards"@, None) == 0 {
        if in_flight_spec(cat, s, "industrial-efficiency-standards"@, None) {
            ("wind-solar-deployment"@, worst_continent_spec(s))
        } else {
            ("industrial-efficiency-standards"@, c)
        }
    } else if s.icons[continent_index(c)][icon_index(Icon::Knowledge)] < 3 {
        if completions_of(cat, s.completed@, "clean-manufacturing-scaleup"@, Some(c)) == 0
            && !in_flight_spec(cat, s, "clean-manufacturing-scaleup"@, Some(c)) {
            ("clean-manufacturing-scaleup"@, c)
        } else {
            ("wind-solar-deployment"@, worst_continent_spec(s))
        }
    } else {
        ("industrial-deep-decarbonisation"@, c)
    }
}

/// The deploy phase: target the worst remaining continent and sector.
pub open spec fn deploy_pick(cat: Catalogue, s: RunState) -> Option<(Seq<char>, Continent)> {
    match worst_cell_upto(s, 9) {
        None => None,
        Some(k) => {
            let c = continent_at(k / 3);
            if k % 3 == 0 {
                Some(("wind-solar-deployment"@, c))
            } else if k % 3 == 1 {
                Some((cheapest_of(cat, s, c, transport_candidates(cat, s, c)), c))
            } else {
                Some(industry_pick(cat, s, c))
            }
        },
    }
}

/// What a strategy queues next, or nothing when nothing remains worth
/// queueing.
pub open spec fn pick_spec(cat: Catalogue, s: RunState, strategy: Strategy) -> Option<(Seq<char>, Continent)> {
    if strategy == Strategy::CapacityFirst && capacity_pick(cat, s) is Some {
        capacity_pick(cat, s)
    } else if strategy == Strategy::DeployFirst && s.finance_milli > 6_000_000 && ever_spec(
        cat,
        s,
        "cfa-regional-secretariats"@,
    ) < 3 && !in_flight_spec(cat, s, "cfa-regional-secretariats"@, None) {
        Some(("cfa-regional-secretariats"@, worst_continent_spec(s)))
    } else {
        deploy_pick(cat, s)
    }
}

/// The previews a pick compares can be computed.
pub open spec fn pick_ready(cat: Catalogue, s: RunState) -> bool {
    &&& s.completed@.len() < LIST_MAX
    &&& forall|k: int|
        (first_with_id(cat.projects@, k, "transit-and-rail"@) || first_with_id(
            cat.projects@,
            k,
            "building-retrofit-programme"@,
        ) || first_with_id(cat.projects@, k, "electrification-programme"@)) ==> cost_fits(cat, s, k)
}

/// Every project the strategies can name is in the catalogue.
pub open spec fn bot_ids_known(cat: Catalogue) -> bool {
    &&& id_exists(cat.projects@, "grid-modernisation"@)
    &&& id_exists(cat.projects@, "clean-manufacturing-scaleup"@)
    &&& id_exists(cat.projects@, "cfa-regional-secretariats"@)
    &&& id_exists(cat.projects@, "industrial-efficiency-standards"@)
    &&& id_exists(cat.projects@, "wind-solar-deployment"@)
    &&& id_exists(cat.projects@, "transit-and-rail"@)
    &&& id_exists(cat.projects@, "building-retrofit-programme"@)
    &&& id_exists(cat.projects@, "electrification-programme"@)
    &&& id_exists(cat.projects@, "methane-and-land-programme"@)
    &&& id_exists(cat.projects@, "industrial-deep-decarbonisation"@)
}

// ------------------------------------------------------------- lemmas

/// Two previews of the same project, lead and state derive the same
/// hypothetical state.
proof fn lemma_hypotheses_agree(
    cat: Catalogue,
    s: RunState,
    k: int,
    lead: Continent,
    raw1: RunState,
    hyp1: RunState,
    raw2: RunState,
    hyp2: RunState,
)
    requires
        hypothesis(cat, s, k, lead, raw1, hyp1),
        hypothesis(cat, s, k, lead, raw2, hyp2),
    ensures
        hyp1.sector_emissions_milli == hyp2.sector_emissions_milli,
{
    let x = raw1.completed@;
    let y = raw2.completed@;
    assert(same_records(x, y)) by {
        assert forall|i: int| 0 <= i < x.len() implies same_record(#[trigger] x[i], y[i]) by {
            if i < s.completed@.len() {
                assert(same_record(x.drop_last()[i], s.completed@[i]));
                assert(same_record(y.drop_last()[i], s.completed@[i]));
            } else {
                assert(x[i].realized@ =~= y[i].realized@);
            }
        }
    }
    assert(same_inputs(raw1, raw2));
    lemma_derivation_deterministic(cat, raw1, raw2, hyp1, hyp2);
}

/// The global change a preview reports is the one its key ranks by.
proof fn lemma_preview_global(cat: Catalogue, s: RunState, k: int, lead: Continent, p: crate::preview::Preview)
    requires
        preview_of(cat, s, k, lead, p),
    ensures
        p.global_emissions_change_milli == preview_global_change(cat, s, k, lead),
{
    let (raw1, hyp1) = choose|raw: RunState, hyp: RunState|
        #[trigger] hypothesis(cat, s, k, lead, raw, hyp) && crate::preview::preview_effects(s, hyp, p);
    let (raw2, hyp2) = choose|raw: RunState, hyp: RunState| hypothesis(cat, s, k, lead, raw, hyp);
    lemma_hypotheses_agree(cat, s, k, lead, raw1, hyp1, raw2, hyp2);
    assert(p.emissions_change_milli[0] == sum3(hyp1.sector_emissions_milli[0]) - sum3(s.sector_emissions_milli[0]));
    assert(p.emissions_change_milli[1] == sum3(hyp1.sector_emissions_milli[1]) - sum3(s.sector_emissions_milli[1]));
    assert(p.emissions_change_milli[2] == sum3(hyp1.sector_emissions_milli[2]) - sum3(s.sector_emissions_milli[2]));
}

// ------------------------------------------------------------- queries

/// Standing completions of `id`, on `lead` if given.
fn count_completed(sim: &Sim, id: &str, lead: Option<Continent>) -> (r: u32)
    requires
        sim.wf(),
    ensures
        r == completions_of(sim.cat(), sim.state.completed@, id@, lead),
{
    let ghost done = sim.state.completed@;
    let mut count: u32 = 0;
    let mut k: usize = 0;
    while k < sim.state.completed.len()
        invariant
            sim.wf(),
            done == sim.state.completed@,
            k <= done.len(),
            done.len() <= LIST_MAX,
            count == completions_of(sim.cat(), done.take(k as int), id@, lead),
            count <= k,
        decreases done.len() - k,
    {
        let entry = &sim.state.completed[k];
        assert(crate::state::completed_bounded(sim.cat(), *entry));
        assert(done.take(k as int + 1).drop_last() =~= done.take(k as int));
        assert(done.take(k as int + 1).last() == *entry);
        let same_project = str_eq(sim.catalogue.projects[entry.project as usize].id.as_str(), id);
        let same_lead = match lead {
            Some(l) => l == entry.lead,
            None => true,
        };
        if same_project && same_lead {
            count = count + 1;
        }
        k = k + 1;
    }
    assert(done.take(done.len() as int) =~= done);
    count
}

/// Standing completions of `id` led on `lead`.
fn completed_on(sim: &Sim, id: &str, lead: Continent) -> (r: u32)
    requires
        sim.wf(),
    ensures
        r == completions_of(sim.cat(), sim.state.completed@, id@, Some(lead)),
{
    count_completed(sim, id, Some(lead))
}

/// Standing completions of `id` on any continent.
fn completed_anywhere(sim: &Sim, id: &str) -> (r: u32)
    requires
        sim.wf(),
    ensures
        r == completions_of(sim.cat(), sim.state.completed@, id@, None),
{
    count_completed(sim, id, None)
}

/// Whether a build of `id` (on `lead`, if given) is active or queued.
fn in_flight(sim: &Sim, id: &str, lead: Option<Continent>) -> (r: bool)
    requires
        sim.wf(),
    ensures
        r == in_flight_spec(sim.cat(), sim.state, id@, lead),
{
    let mut k: usize = 0;
    while k < sim.state.active.len()
        invariant
            sim.wf(),
            k <= sim.state.active@.len(),
            forall|j: int|
                0 <= j < k ==> !entry_matches(
                    sim.cat(),
                    (#[trigger] sim.state.active@[j]).project,
                    sim.state.active@[j].lead,
                    id@,
                    lead,
                ),
        decreases sim.state.active@.len() - k,
    {
        let b = sim.state.active[k];
        assert(crate::state::active_bounded(sim.cat(), b));
        let same_lead = match lead {
            Some(l) => l == b.lead,
            None => true,
        };
        if str_eq(sim.catalogue.projects[b.project as usize].id.as_str(), id) && same_lead {
            assert(entry_matches(sim.cat(), sim.state.active@[k as int].project, sim.state.active@[k as int].lead, id@, lead));
            return true;
        }
        k = k + 1;
    }
    let mut q: usize = 0;
    while q < sim.state.queue.len()
        invariant
            sim.wf(),
            q <= sim.state.queue@.len(),
            forall|j: int|
                0 <= j < sim.state.active@.len() ==> !entry_matches(
                    sim.cat(),
                    (#[trigger] sim.state.active@[j]).project,
                    sim.state.active@[j].lead,
                    id@,
                    lead,
                ),
            forall|j: int|
                0 <= j < q ==> !entry_matches(
                    sim.cat(),
                    (#[trigger] sim.state.queue@[j]).project,
                    sim.state.queue@[j].lead,
                    id@,
                    lead,
                ),
        decreases sim.state.queue@.len() - q,
    {
        let entry = sim.state.queue[q];
        let same_lead = match lead {
            Some(l) => l == entry.lead,
            None => true,
        };
        if str_eq(sim.catalogue.projects[entry.project as usize].id.as_str(), id) && same_lead {
            assert(entry_matches(sim.cat(), sim.state.queue@[q as int].project, sim.state.queue@[q as int].lead, id@, lead));
            return true;
        }
        q = q + 1;
    }
    false
}

/// Completions ever of `id`; zero for an unknown id.
fn ever(sim: &Sim, id: &str) -> (r: u32)
    requires
        sim.wf(),
    ensures
        r == ever_spec(sim.cat(), sim.state, id@),
{
    match sim.catalogue.project_index(id) {
        Some(index) => sim.state.completions_ever[index],
        None => 0,
    }
}

/// The icon stock continent `lead` holds.
fn icons(sim: &Sim, lead: Continent, icon: Icon) -> (r: i64)
    ensures
        r == sim.state.icons[continent_index(lead)][icon_index(icon)],
{
    sim.state.icons[lead.index()][icon.index()]
}

/// The continent with the most remaining emissions; the last of equals.
fn worst_continent(sim: &Sim) -> (r: Continent)
    requires
        sim.wf(),
    ensures
        r == worst_continent_spec(sim.state),
{
    let e0 = sim.state.continent_emissions_milli(Continent::Europe);
    let e1 = sim.state.continent_emissions_milli(Continent::NorthAmerica);
    let e2 = sim.state.continent_emissions_milli(Continent::MajorityWorld);
    if e2 >= e1 && e2 >= e0 {
        Continent::MajorityWorld
    } else if e1 >= e0 {
        Continent::NorthAmerica
    } else {
        Continent::Europe
    }
}

/// The cell (continent-major, then sector) with the most remaining
/// emissions that still emits; the last of equals.
fn worst_cell(sim: &Sim) -> (r: Option<usize>)
    ensures
        match r {
            Some(k) => worst_cell_upto(sim.state, 9) == Some(k as int) && k < 9,
            None => worst_cell_upto(sim.state, 9) is None,
        },
{
    let mut best: Option<usize> = None;
    let mut best_left: i64 = 0;
    let mut k: usize = 0;
    while k < 9
        invariant
            k <= 9,
            match best {
                Some(b) => worst_cell_upto(sim.state, k as int) == Some(b as int) && b < 9 && best_left
                    == cell_emission(sim.state, b as int),
                None => worst_cell_upto(sim.state, k as int) is None,
            },
        decreases 9 - k,
    {
        let remaining = sim.state.sector_emissions_milli[k / 3][k % 3];
        assert(remaining == cell_emission(sim.state, k as int));
        if remaining > 0 && (best.is_none() || remaining >= best_left) {
            best = Some(k);
            best_left = remaining;
        }
        k = k + 1;
    }
    best
}

/// Whether project `id`'s cost can be computed now.
pub fn cost_room(sim: &Sim, id: &str) -> (r: bool)
    requires
        sim.wf(),
    ensures
        r == forall|k: int| first_with_id(sim.cat().projects@, k, id@) ==> cost_fits(sim.cat(), sim.state, k),
{
    match sim.catalogue.project_index(id) {
        Some(index) => {
            let def = &sim.catalogue.projects[index];
            assert(crate::state::def_bounded(*def));
            let external = sim.modifier_total(index, true);
            proof {
                let projects = sim.cat().projects@;
                assert forall|k: int| first_with_id(projects, k, id@) implies k == index by {
                    if k < index {
                        assert(projects[k].id@ != id@);
                    }
                    if k > index {
                        assert(projects[index as int].id@ != id@);
                    }
                }
            }
            let fits = cost_fits_check(def, sim.state.completions_ever[index] as u64, external);
            assert(fits == cost_fits(sim.cat(), sim.state, index as int));
            fits
        },
        None => {
            assert forall|k: int| first_with_id(sim.cat().projects@, k, id@) implies cost_fits(sim.cat(), sim.state, k) by {
                assert(sim.cat().projects@[k].id@ == id@);
            }
            true
        },
    }
}

/// A candidate's key: what it costs per unit of reduction its preview shows.
fn candidate_key(sim: &Sim, id: &str, lead: Continent) -> (r: i128)
    requires
        sim.wf(),
        sim.state.completed@.len() < LIST_MAX,
        forall|k: int| first_with_id(sim.cat().projects@, k, id@) ==> cost_fits(sim.cat(), sim.state, k),
    ensures
        r == pick_key(sim.cat(), sim.state, lead, id@),
{
    match preview(sim, id, lead) {
        Some(p) => {
            proof {
                let k = choose|k: int|
                    first_with_id(sim.cat().projects@, k, id@) && #[trigger] preview_of(sim.cat(), sim.state, k, lead, p);
                assert(id_index(sim.cat().projects@, id@) == k);
                lemma_preview_global(sim.cat(), sim.state, k, lead, p);
            }
            let change = p.global_emissions_change_milli as i128;
            let reduction: i128 = if -change >= 1 {
                -change
            } else {
                1
            };
            (p.finance_cost_milli as i128) * 1000 / reduction
        },
        None => i64::MAX as i128,
    }
}

/// The cheapest transport-and-buildings option on continent `c`, by the
/// reduction its preview shows for its cost.
fn cheapest_transport(sim: &Sim, c: Continent) -> (r: String)
    requires
        sim.wf(),
        pick_ready(sim.cat(), sim.state),
    ensures
        r@ == cheapest_of(sim.cat(), sim.state, c, transport_candidates(sim.cat(), sim.state, c)),
{
    let ghost cat = sim.cat();
    let ghost s = sim.state;
    let transit = candidate_key(sim, "transit-and-rail", c);
    let retrofit = candidate_key(sim, "building-retrofit-programme", c);
    let mut best = "transit-and-rail";
    let mut best_key = transit;
    if retrofit < transit {
        best = "building-retrofit-programme";
        best_key = retrofit;
    }
    let ghost one = seq!["transit-and-rail"@];
    let ghost two = seq!["transit-and-rail"@, "building-retrofit-programme"@];
    assert(cheapest_of(cat, s, c, one) == "transit-and-rail"@);
    assert(two.drop_last() =~= one);
    assert(two.last() == "building-retrofit-programme"@);
    assert(best@ == cheapest_of(cat, s, c, two));
    assert(best_key == pick_key(cat, s, c, best@));
    if completed_on(sim, "grid-modernisation", c) > 0 && icons(sim, c, Icon::Infrastructure) >= 3
        && sim.state.mandate_milli >= 6000 {
        let electrification = candidate_key(sim, "electrification-programme", c);
        let ghost three = two.push("electrification-programme"@);
        assert(three.drop_last() =~= two);
        assert(three.last() == "electrification-programme"@);
        if electrification < best_key {
            best = "electrification-programme";
        }
        assert(best@ == cheapest_of(cat, s, c, three));
        assert(transport_candidates(cat, s, c) == three);
    } else {
        assert(transport_candidates(cat, s, c) == two);
    }
    owned(best)
}

/// The first continent, in world order, missing project `id`.
fn first_missing_continent(sim: &Sim, id: &str) -> (r: Option<Continent>)
    requires
        sim.wf(),
    ensures
        r == first_missing(sim.cat(), sim.state, id@),
{
    if completed_on(sim, id, Continent::Europe) == 0 && !in_flight(sim, id, Some(Continent::Europe)) {
        Some(Continent::Europe)
    } else if completed_on(sim, id, Continent::NorthAmerica) == 0 && !in_flight(
        sim,
        id,
        Some(Continent::NorthAmerica),
    ) {
        Some(Continent::NorthAmerica)
    } else if completed_on(sim, id, Continent::MajorityWorld) == 0 && !in_flight(
        sim,
        id,
        Some(Continent::MajorityWorld),
    ) {
        Some(Continent::MajorityWorld)
    } else {
        None
    }
}

/// The industry-and-land pick on continent `c`.
fn industry_choice(sim: &Sim, c: Continent) -> (r: (String, Continent))
    requires
        sim.wf(),
    ensures
        (r.0@, r.1) == industry_pick(sim.cat(), sim.state, c),
{
    if completed_on(sim, "methane-and-land-programme", c) < 2 && !in_flight(
        sim,
        "methane-and-land-programme",
        Some(c),
    ) {
        return (owned("methane-and-land-programme"), c);
    }
    if completed_anywhere(sim, "industrial-efficiency-standards") == 0 {
        if in_flight(sim, "industrial-efficiency-standards", None) {
            // Standards are on their way; deploy elsewhere meanwhile.
            return (owned("wind-solar-deployment"), worst_continent(sim));
        }
        return (owned("industrial-efficiency-standards"), c);
    }
    if icons(sim, c, Icon::Knowledge) < 3 {
        if completed_on(sim, "clean-manufacturing-scaleup", c) == 0 && !in_flight(
            sim,
            "clean-manufacturing-scaleup",
            Some(c),
        ) {
            return (owned("clean-manufacturing-scaleup"), c);
        }
        // Knowledge is building; deploy elsewhere meanwhile.
        return (owned("wind-solar-deployment"), worst_continent(sim));
    }
    (owned("industrial-deep-decarbonisation"), c)
}

/// Choose what to queue next, or `None` when nothing remains worth queueing.
pub fn next_pick(sim: &Sim, strategy: Strategy) -> (r: Option<(String, Continent)>)
    requires
        sim.wf(),
        pick_ready(sim.cat(), sim.state),
    ensures
        match r {
            Some(pick) => pick_spec(sim.cat(), sim.state, strategy) == Some((pick.0@, pick.1)),
            None => pick_spec(sim.cat(), sim.state, strategy) is None,
        },
{
    // Capacity-first front-loads enablers, institutions, and slots.
    if strategy == Strategy::CapacityFirst {
        if let Some(c) = first_missing_continent(sim, "grid-modernisation") {
            return Some((owned("grid-modernisation"), c));
        }
        if let Some(c) = first_missing_continent(sim, "clean-manufacturing-scaleup") {
            return Some((owned("clean-manufacturing-scaleup"), c));
        }
        if ever(sim, "cfa-regional-secretariats") < 3 && !in_flight(sim, "cfa-regional-secretariats", None) {
            return Some((owned("cfa-regional-secretariats"), worst_continent(sim)));
        }
        if completed_anywhere(sim, "industrial-efficiency-standards") == 0 && !in_flight(
            sim,
            "industrial-efficiency-standards",
            None,
        ) {
            return Some((owned("industrial-efficiency-standards"), worst_continent(sim)));
        }
    }
    // Deploy-first builds coordination capacity only out of surplus cash.
    if strategy == Strategy::DeployFirst && sim.state.finance_milli > 6_000_000 && ever(
        sim,
        "cfa-regional-secretariats",
    ) < 3 && !in_flight(sim, "cfa-regional-secretariats", None) {
        return Some((owned("cfa-regional-secretariats"), worst_continent(sim)));
    }
    // Deploy phase: target the worst remaining (continent, sector).
    let cell = match worst_cell(sim) {
        Some(k) => k,
        None => return None,
    };
    let continent = Continent::ALL[cell / 3];
    assert(continent == continent_at(cell as int / 3));
    let sector = cell % 3;
    if sector == 0 {
        Some((owned("wind-solar-deployment"), continent))
    } else if sector == 1 {
        // Compare the always-available options through their previews and
        // take the cheapest reduction.
        let best = cheapest_transport(sim, continent);
        Some((best, continent))
    } else {
        Some(industry_choice(sim, continent))
    }
}

/// Whether the catalogue holds every project the strategies can name.
pub fn ids_known(catalogue: &Catalogue) -> (r: bool)
    ensures
        r == bot_ids_known(*catalogue),
{
    catalogue.project_index("grid-modernisation").is_some()
        && catalogue.project_index("clean-manufacturing-scaleup").is_some()
        && catalogue.project_index("cfa-regional-secretariats").is_some()
        && catalogue.project_index("industrial-efficiency-standards").is_some()
        && catalogue.project_index("wind-solar-deployment").is_some()
        && catalogue.project_index("transit-and-rail").is_some()
        && catalogue.project_index("building-retrofit-programme").is_some()
        && catalogue.project_index("electrification-programme").is_some()
        && catalogue.project_index("methane-and-land-programme").is_some()
        && catalogue.project_index("industrial-deep-decarbonisation").is_some()
}

// ------------------------------------------------------------- playing

/// A run is over once it has won or used its tick budget.
pub open spec fn run_over(s: RunState, max_ticks: u64) -> bool {
    s.victory_tick is Some || s.tick >= max_ticks
}

pub open spec fn outcome_of(s: RunState) -> Outcome {
    Outcome { victory_tick: s.victory_tick, final_tick: s.tick }
}

/// `post` is `mid` after the claim of its first open opportunity, logged.
pub open spec fn claimed_first(mid: Sim, post: Sim) -> bool {
    let command = Command::ClaimOpportunity { index: 0 };
    &&& mid.state.opportunities@.len() > 0
    &&& post.catalogue == mid.catalogue
    &&& apply_spec(mid.cat(), mid.state, command, post.state, Ok(()))
    &&& post.log@ == mid.log@.push(logged(mid.state.tick, command, Ok(())))
}

/// `sims` claims the first open opportunity at every step.
pub open spec fn claim_steps(sims: Seq<Sim>) -> bool {
    &&& sims.len() >= 1
    &&& forall|i: int| 0 <= i < sims.len() - 1 ==> #[trigger] claimed_first(sims[i], sims[i + 1])
}

/// `post` is `mid` with the strategy's pick queued and logged, if the queue
/// was empty and there was one; otherwise `mid` itself.
pub open spec fn queued(mid: Sim, post: Sim, strategy: Strategy) -> bool {
    let cat = mid.cat();
    match pick_spec(cat, mid.state, strategy) {
        Some(pick) => if mid.state.queue@.len() == 0 {
            &&& post.catalogue == mid.catalogue
            &&& post.state == RunState { queue: post.state.queue, ..mid.state }
            &&& post.state.queue@ == seq![
                crate::state::QueuedProject {
                    project: id_index(cat.projects@, pick.0) as u32,
                    lead: pick.1,
                },
            ]
            &&& post.log@.len() == mid.log@.len() + 1
            &&& post.log@.drop_last() == mid.log@
            &&& post.log@.last().tick == mid.state.tick
            &&& post.log@.last().rejection is None
            &&& post.log@.last().command matches Command::QueueProject { project, lead }
                && project@ == pick.0 && lead == pick.1
        } else {
            post == mid
        },
        None => post == mid,
    }
}

proof fn lemma_cheapest_is_candidate(cat: Catalogue, s: RunState, lead: Continent, ids: Seq<Seq<char>>)
    requires
        ids.len() >= 1,
    ensures
        exists|i: int| 0 <= i < ids.len() && ids[i] == #[trigger] cheapest_of(cat, s, lead, ids),
    decreases ids.len(),
{
    if ids.len() > 1 {
        lemma_cheapest_is_candidate(cat, s, lead, ids.drop_last());
        let i = choose|i: int| 0 <= i < ids.drop_last().len() && ids.drop_last()[i] == #[trigger] cheapest_of(cat, s, lead, ids.drop_last());
        assert(ids[i] == ids.drop_last()[i]);
        assert(ids[ids.len() - 1] == ids.last());
    } else {
        assert(ids[0] == cheapest_of(cat, s, lead, ids));
    }
}

/// Whatever a strategy picks is a project the catalogue holds.
proof fn lemma_pick_known(cat: Catalogue, s: RunState, strategy: Strategy)
    requires
        bot_ids_known(cat),
    ensures
        pick_spec(cat, s, strategy) matches Some(pick) ==> id_exists(cat.projects@, pick.0),
{
    if let Some(k) = worst_cell_upto(s, 9) {
        let c = continent_at(k / 3);
        let ids = transport_candidates(cat, s, c);
        lemma_cheapest_is_candidate(cat, s, c, ids);
        let i = choose|i: int| 0 <= i < ids.len() && ids[i] == #[trigger] cheapest_of(cat, s, c, ids);
        assert(id_exists(cat.projects@, ids[i]));
    }
}

/// One turn of a bot run, up to its tick: claim every open opportunity, and
/// keep one project queued. A run that has won or used its tick budget is
/// over; a run whose next step would leave the integer range the simulation
/// is proved for stops unfinished.
pub fn play_turn(runner: &mut Runner, strategy: Strategy, max_ticks: u64) -> (r: Turn)
    requires
        old(runner).wf(),
        bot_ids_known(old(runner).sim.cat()),
    ensures
        final(runner).wf(),
        final(runner).sim.catalogue == old(runner).sim.catalogue,
        final(runner).ledger == old(runner).ledger,
        final(runner).last_sampled == old(runner).last_sampled,
        final(runner).sim.state.tick == old(runner).sim.state.tick,
        final(runner).sim.state.victory_tick == old(runner).sim.state.victory_tick,
        (r is Over) <==> run_over(old(runner).sim.state, max_ticks),
        r is Over ==> r == Turn::Over(outcome_of(old(runner).sim.state)) && *final(runner) == *old(runner),
        r matches Turn::OutOfRange(o) ==> o == outcome_of(final(runner).sim.state),
        r is Tick ==> {
            &&& final(runner).sim.state.opportunities@.len() == 0
            &&& !final(runner).sim.state.paused ==> tick_headroom(final(runner).sim.cat(), final(runner).sim.state)
            &&& exists|sims: Seq<Sim>|
                #[trigger] claim_steps(sims) && sims[0] == old(runner).sim
                    && sims.last().state.opportunities@.len() == 0
                    && queued(sims.last(), final(runner).sim, strategy)
        },
{
    if runner.sim.state.victory_tick.is_some() || runner.sim.state.tick >= max_ticks {
        return Turn::Over(Outcome { victory_tick: runner.sim.state.victory_tick, final_tick: runner.sim.state.tick });
    }
    let ghost cat = runner.sim.cat();
    let ghost start = runner.sim.state;
    let ghost ledger = runner.ledger;
    let ghost last = runner.last_sampled;
    let ghost mut sims = seq![runner.sim];
    while runner.sim.state.opportunities.len() > 0
        invariant
            claim_steps(sims),
            sims[0] == old(runner).sim,
            sims.last() == runner.sim,
            runner.wf(),
            runner.sim.cat() == cat,
            cat == old(runner).sim.cat(),
            start == old(runner).sim.state,
            ledger == old(runner).ledger,
            last == old(runner).last_sampled,
            runner.sim.catalogue == old(runner).sim.catalogue,
            bot_ids_known(cat),
            runner.ledger == ledger,
            runner.last_sampled == last,
            runner.sim.state.queue@ == start.queue@,
            runner.sim.state.tick == start.tick,
            runner.sim.state.victory_tick == start.victory_tick,
            !run_over(start, max_ticks),
        decreases runner.sim.state.opportunities@.len(),
    {
        if !runner.sim.command_room(&Command::ClaimOpportunity { index: 0 }) {
            return Turn::OutOfRange(Outcome { victory_tick: runner.sim.state.victory_tick, final_tick: runner.sim.state.tick });
        }
        let ghost before = runner.sim;
        let claimed = runner.execute(Command::ClaimOpportunity { index: 0 });
        proof {
            assert(claimed_first(before, runner.sim));
            let grown = sims.push(runner.sim);
            assert forall|i: int| 0 <= i < grown.len() - 1 implies #[trigger] claimed_first(grown[i], grown[i + 1]) by {
                if i < sims.len() - 1 {
                    assert(claimed_first(sims[i], sims[i + 1]));
                }
            }
            sims = grown;
        }
    }
    let ghost mid = runner.sim.state;
    let ghost mid_sim = runner.sim;
    if runner.sim.state.queue.len() == 0 {
        if !(runner.sim.state.completed.len() < LIST_MAX && cost_room(&runner.sim, "transit-and-rail")
            && cost_room(&runner.sim, "building-retrofit-programme") && cost_room(
            &runner.sim,
            "electrification-programme",
        )) {
            return Turn::OutOfRange(Outcome { victory_tick: runner.sim.state.victory_tick, final_tick: runner.sim.state.tick });
        }
        match next_pick(&runner.sim, strategy) {
            Some((project, lead)) => {
                proof {
                    lemma_pick_known(cat, mid, strategy);
                }
                let ghost id = project@;
                let queued_now = runner.execute(Command::QueueProject { project, lead });
                assert(runner.sim.state.queue@ =~= seq![
                    crate::state::QueuedProject { project: id_index(cat.projects@, id) as u32, lead },
                ]);
                assert(runner.sim.log@.drop_last() =~= mid_sim.log@);
            },
            None => {},
        }
    }
    assert(queued(mid_sim, runner.sim, strategy));
    assert(claim_steps(sims) && sims[0] == old(runner).sim && sims.last().state.opportunities@.len() == 0);
    if !runner.sim.state.paused && !runner.sim.tick_room() {
        return Turn::OutOfRange(Outcome { victory_tick: runner.sim.state.victory_tick, final_tick: runner.sim.state.tick });
    }
    Turn::Tick
}

} // verus!
