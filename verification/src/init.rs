//! Starting a run: the authored scenario, varied by the seeded starting
//! stream, then derived once.

use vstd::prelude::*;

use crate::calc::{apply_permille, permille_of, MAG};
use crate::catalogue::Catalogue;
use crate::rng::{bounded_draw, streams_for, Pcg32, RngStreams};
use crate::schema::ProjectDef;
use crate::sim::{rederived, Sim};
use crate::state::{catalogue_bounded, inputs_wf, RunState, BASE_MAX};
use crate::text::str_eq;
use crate::world::{continent_index, sector_index, Continent, Sector};

verus! {

/// The starting-variation stream after the draws of the first `k` authored
/// baselines.
pub open spec fn variation_gen(g0: Pcg32, v: int, k: nat) -> Pcg32
    decreases k,
{
    if k == 0 {
        g0
    } else {
        bounded_draw(variation_gen(g0, v, (k - 1) as nat), (2 * v + 1) as u32).1
    }
}

/// The starting-variation draw for the `k`-th authored baseline, in
/// `-v..=v` permille.
pub open spec fn variation_draw(g0: Pcg32, v: int, k: nat) -> int {
    -v + bounded_draw(variation_gen(g0, v, k), (2 * v + 1) as u32).0
}

/// The starting baseline of continent `c`, sector `t` after the first `n`
/// authored entries: the last entry for the cell wins, varied by its own
/// draw; zero where none is authored.
pub open spec fn varied_baseline(
    entries: Seq<(Continent, Sector, i64)>,
    g0: Pcg32,
    v: int,
    n: int,
    c: int,
    t: int,
) -> int
    decreases n,
{
    if n <= 0 {
        0
    } else {
        let e = entries[n - 1];
        if continent_index(e.0) == c && sector_index(e.1) == t {
            permille_of(e.2 as int, variation_draw(g0, v, (n - 1) as nat))
        } else {
            varied_baseline(entries, g0, v, n - 1, c, t)
        }
    }
}

/// The authored income of continent `c` after the first `n` entries: the
/// last entry for the continent wins; zero where none is authored.
pub open spec fn authored_income(entries: Seq<(Continent, i64)>, n: int, c: int) -> int
    decreases n,
{
    if n <= 0 {
        0
    } else if continent_index(entries[n - 1].0) == c {
        entries[n - 1].1 as int
    } else {
        authored_income(entries, n - 1, c)
    }
}

/// `s` is the opening state of a run of `cat` on `seed`, before its first
/// derivation: authored stocks and incomes, baselines varied in authored
/// order on the starting stream, the first opportunity gap drawn on the
/// timing stream, nothing built, one slot.
pub open spec fn opening(cat: Catalogue, seed: u64, s: RunState) -> bool {
    let sc = cat.scenario;
    let fresh = streams_for(seed);
    let entries = sc.sector_baselines_milli_gt@;
    let v = sc.starting_variation_permille as int;
    let lo = sc.opportunity_gap_ticks.0;
    let hi = sc.opportunity_gap_ticks.1;
    &&& s.tick == 0
    &&& !s.paused
    &&& s.seed == seed
    &&& s.streams == (RngStreams {
        starting_variation: variation_gen(fresh.starting_variation, v, entries.len()),
        opportunity_timing: bounded_draw(fresh.opportunity_timing, (hi - lo + 1) as u32).1,
        ..fresh
    })
    &&& forall|c: int, t: int|
        0 <= c < 3 && 0 <= t < 3 ==> #[trigger] s.baseline_emissions_milli[c][t] == varied_baseline(
            entries,
            fresh.starting_variation,
            v,
            entries.len() as int,
            c,
            t,
        )
    &&& forall|c: int|
        0 <= c < 3 ==> #[trigger] s.baseline_finance_income_milli[c] == authored_income(
            sc.finance_income_milli@,
            sc.finance_income_milli@.len() as int,
            c,
        )
    &&& forall|c: int|
        0 <= c < 3 ==> #[trigger] s.baseline_mandate_income_milli[c] == authored_income(
            sc.mandate_income_milli@,
            sc.mandate_income_milli@.len() as int,
            c,
        )
    &&& s.finance_milli == sc.finance_start * 1000
    &&& s.mandate_milli == sc.mandate_start * 1000
    &&& forall|c: int, i: int| 0 <= c < 3 && 0 <= i < 4 ==> #[trigger] s.bonus_icons[c][i] == 0
    &&& s.queue@.len() == 0
    &&& s.active@.len() == 0
    &&& s.completed@.len() == 0
    &&& s.completions_ever@ == Seq::new(cat.projects@.len(), |k: int| 0u32)
    &&& s.unlocked@ == Seq::new(cat.projects@.len(), |k: int| !cat.projects@[k].locked)
    &&& s.opportunities@.len() == 0
    &&& s.next_opportunity_tick == lo + bounded_draw(fresh.opportunity_timing, (hi - lo + 1) as u32).0
    &&& s.victory_tick is None
    &&& s.last_block is None
    &&& s.sector_emissions_milli == s.baseline_emissions_milli
    &&& forall|c: int, i: int| 0 <= c < 3 && 0 <= i < 4 ==> #[trigger] s.icons[c][i] == 0
    &&& s.finance_delta_milli == 0
    &&& s.mandate_delta_milli == 0
    &&& s.mandate_max_milli == sc.mandate_max_start * 1000
    &&& s.slots_total == 1
    &&& s.trace@.len() == 0
}

proof fn lemma_varied_baseline_step(
    entries: Seq<(Continent, Sector, i64)>,
    g0: Pcg32,
    v: int,
    n: int,
    c: int,
    t: int,
)
    requires
        0 <= n < entries.len(),
    ensures
        varied_baseline(entries, g0, v, n + 1, c, t) == if continent_index(entries[n].0) == c
            && sector_index(entries[n].1) == t {
            permille_of(entries[n].2 as int, variation_draw(g0, v, n as nat))
        } else {
            varied_baseline(entries, g0, v, n, c, t)
        },
{
}

/// Fill a per-continent table from authored `(continent, value)` entries,
/// the last entry for a continent winning.
fn income_table(entries: &Vec<(Continent, i64)>) -> (r: [i64; 3])
    requires
        crate::state::income_table_bounded(entries@),
    ensures
        forall|c: int| 0 <= c < 3 ==> #[trigger] r[c] == authored_income(entries@, entries@.len() as int, c),
        forall|c: int| 0 <= c < 3 ==> crate::state::mag(#[trigger] r[c] as int),
{
    let mut table = [0i64; 3];
    let mut k: usize = 0;
    while k < entries.len()
        invariant
            k <= entries@.len(),
            crate::state::income_table_bounded(entries@),
            forall|c: int| 0 <= c < 3 ==> #[trigger] table[c] == authored_income(entries@, k as int, c),
            forall|c: int| 0 <= c < 3 ==> crate::state::mag(#[trigger] table[c] as int),
        decreases entries@.len() - k,
    {
        let (continent, income) = entries[k];
        assert(crate::state::mag(entries@[k as int].1 as int));
        table[continent.index()] = income;
        k = k + 1;
    }
    table
}

impl Sim {
    /// Start a run of `catalogue` on `seed`, if its authored magnitudes and
    /// list sizes lie within the range a run is proved for; `None` otherwise.
    pub fn try_new(catalogue: Catalogue, seed: u64) -> (r: Option<Sim>)
        ensures
            r is None <==> !catalogue_bounded(catalogue),
            r matches Some(sim) ==> {
                &&& sim.wf()
                &&& sim.catalogue == catalogue
                &&& sim.log@.len() == 0
                &&& exists|raw: RunState|
                    opening(catalogue, seed, raw) && #[trigger] rederived(catalogue, raw, sim.state)
            },
    {
        if catalogue.is_bounded() {
            Some(Sim::new(catalogue, seed))
        } else {
            None
        }
    }

    /// Start a run of `catalogue` on `seed`.
    pub fn new(catalogue: Catalogue, seed: u64) -> (r: Sim)
        requires
            catalogue_bounded(catalogue),
        ensures
            r.wf(),
            r.catalogue == catalogue,
            r.log@.len() == 0,
            exists|raw: RunState| opening(catalogue, seed, raw) && #[trigger] rederived(catalogue, raw, r.state),
    {
        let mut streams = RngStreams::new(seed);
        let ghost fresh = streams;
        let ghost entries = catalogue.scenario.sector_baselines_milli_gt@;
        let variation = catalogue.scenario.starting_variation_permille;
        let ghost v = variation as int;

        // Starting variation, drawn in authored order from its own stream.
        let mut baselines = [[0i64; 3]; 3];
        let mut k: usize = 0;
        while k < catalogue.scenario.sector_baselines_milli_gt.len()
            invariant
                k <= entries.len(),
                entries == catalogue.scenario.sector_baselines_milli_gt@,
                v == catalogue.scenario.starting_variation_permille,
                variation == catalogue.scenario.starting_variation_permille,
                catalogue_bounded(catalogue),
                streams == (RngStreams { starting_variation: variation_gen(fresh.starting_variation, v, k as nat), ..fresh }),
                forall|c: int, t: int|
                    0 <= c < 3 && 0 <= t < 3 ==> #[trigger] baselines[c][t] == varied_baseline(
                        entries,
                        fresh.starting_variation,
                        v,
                        k as int,
                        c,
                        t,
                    ),
                forall|c: int, t: int|
                    0 <= c < 3 && 0 <= t < 3 ==> -BASE_MAX <= #[trigger] baselines[c][t] <= BASE_MAX,
            decreases entries.len() - k,
        {
            let (continent, sector, base) = catalogue.scenario.sector_baselines_milli_gt[k];
            assert(crate::state::mag(entries[k as int].2 as int));
            let draw = streams.starting_variation.range_i64(-variation, variation);
            proof {
                assert(-3_000_000_000_000_000 <= base * (1000 + draw) <= 3_000_000_000_000_000) by (nonlinear_arith)
                    requires
                        -MAG <= base <= MAG,
                        -3_000_000_000 <= 1000 + draw <= 3_000_000_000,
                ;
                assert(-BASE_MAX <= (base * (1000 + draw)) / 1000 <= BASE_MAX) by (nonlinear_arith)
                    requires
                        -3_000_000_000_000_000 <= base * (1000 + draw) <= 3_000_000_000_000_000,
                ;
                assert forall|c: int, t: int| 0 <= c < 3 && 0 <= t < 3 implies varied_baseline(
                    entries,
                    fresh.starting_variation,
                    v,
                    k + 1,
                    c,
                    t,
                ) == if c == continent_index(continent) && t == sector_index(sector) {
                    permille_of(base as int, draw as int)
                } else {
                    varied_baseline(entries, fresh.starting_variation, v, k as int, c, t)
                } by {
                    lemma_varied_baseline_step(entries, fresh.starting_variation, v, k as int, c, t);
                }
            }
            baselines[continent.index()][sector.index()] = apply_permille(base, draw);
            k = k + 1;
        }

        let finance_income = income_table(&catalogue.scenario.finance_income_milli);
        let mandate_income = income_table(&catalogue.scenario.mandate_income_milli);

        let first_gap = streams.opportunity_timing.range_u64(
            catalogue.scenario.opportunity_gap_ticks.0,
            catalogue.scenario.opportunity_gap_ticks.1,
        );

        let n = catalogue.projects.len();
        let mut completions_ever: Vec<u32> = Vec::new();
        let mut unlocked: Vec<bool> = Vec::new();
        let mut p: usize = 0;
        while p < n
            invariant
                p <= n,
                n == catalogue.projects@.len(),
                completions_ever@ == Seq::new(p as nat, |j: int| 0u32),
                unlocked@ == Seq::new(p as nat, |j: int| !catalogue.projects@[j].locked),
            decreases n - p,
        {
            completions_ever.push(0);
            unlocked.push(!catalogue.projects[p].locked);
            p = p + 1;
        }

        let state = RunState {
            tick: 0,
            paused: false,
            seed,
            streams,
            baseline_emissions_milli: baselines,
            baseline_finance_income_milli: finance_income,
            baseline_mandate_income_milli: mandate_income,
            finance_milli: catalogue.scenario.finance_start * 1000,
            mandate_milli: catalogue.scenario.mandate_start * 1000,
            bonus_icons: [[0; 4]; 3],
            queue: Vec::new(),
            active: Vec::new(),
            completed: Vec::new(),
            completions_ever,
            unlocked,
            opportunities: Vec::new(),
            next_opportunity_tick: first_gap,
            victory_tick: None,
            last_block: None,
            sector_emissions_milli: baselines,
            icons: [[0; 4]; 3],
            finance_delta_milli: 0,
            mandate_delta_milli: 0,
            mandate_max_milli: catalogue.scenario.mandate_max_start * 1000,
            slots_total: 1,
            trace: Vec::new(),
        };
        let ghost raw = state;
        assert(opening(catalogue, seed, raw));
        assert(inputs_wf(catalogue, raw));
        let mut sim = Sim { catalogue, state, log: Vec::new() };
        sim.rederive();
        assert(rederived(catalogue, raw, sim.state));
        sim
    }
}

/// The definition of the project with id `id`, if the catalogue holds one.
pub fn project_def<'a>(catalogue: &'a Catalogue, id: &str) -> (r: Option<&'a ProjectDef>)
    ensures
        match r {
            Some(def) => exists|k: int| crate::catalogue::first_with_id(catalogue.projects@, k, id@) && *def == catalogue.projects@[k],
            None => !crate::catalogue::id_exists(catalogue.projects@, id@),
        },
{
    match catalogue.project_index(id) {
        Some(index) => Some(&catalogue.projects[index]),
        None => None,
    }
}

} // verus!
