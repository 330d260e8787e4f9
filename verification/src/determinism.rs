//! Determinism: a run is a function of its catalogue, seed and ordered
//! commands. Two states that agree on everything the run records stay in
//! agreement through every tick and every command, and two runs started on
//! the same catalogue and seed start in agreement.

use vstd::prelude::*;

use crate::catalogue::Catalogue;
use crate::command::{Command, Rejection};
use crate::init::opening;
use crate::preview::{
    lemma_derivation_deterministic, lemma_sum_completed_same, same_inputs, same_record,
    same_records,
};
use crate::sim::{
    apply_spec, cost_spec, count_completed_at, duration_spec, has_completion, head_block_spec,
    prerequisite_block, prerequisites_block, rederived, repeat_blocked,
};
use crate::schema::Prerequisite;
use crate::state::{derived_fields, CompletedProject, Measure, RunState};
use crate::tick::{
    accrue_spec, complete_spec, opportunity_spec, start_spec, tick_chain, tick_spec, victory_step,
};
use crate::world::Continent;

verus! {

/// Two completion records agree on everything they record.
pub open spec fn same_entry(a: CompletedProject, b: CompletedProject) -> bool {
    same_record(a, b) && a.tick == b.tick && a.bonus_permille == b.bonus_permille
}

pub open spec fn same_entries(x: Seq<CompletedProject>, y: Seq<CompletedProject>) -> bool {
    &&& x.len() == y.len()
    &&& forall|i: int| 0 <= i < x.len() ==> same_entry(#[trigger] x[i], y[i])
}

/// Two states agree on everything a run records: every field, lists by
/// their contents, completed projects by what they record.
pub open spec fn same_state(a: RunState, b: RunState) -> bool {
    &&& a.tick == b.tick
    &&& a.paused == b.paused
    &&& a.seed == b.seed
    &&& a.streams == b.streams
    &&& a.baseline_emissions_milli == b.baseline_emissions_milli
    &&& a.baseline_finance_income_milli == b.baseline_finance_income_milli
    &&& a.baseline_mandate_income_milli == b.baseline_mandate_income_milli
    &&& a.finance_milli == b.finance_milli
    &&& a.mandate_milli == b.mandate_milli
    &&& a.bonus_icons == b.bonus_icons
    &&& a.queue@ == b.queue@
    &&& a.active@ == b.active@
    &&& same_entries(a.completed@, b.completed@)
    &&& a.completions_ever@ == b.completions_ever@
    &&& a.unlocked@ == b.unlocked@
    &&& a.opportunities@ == b.opportunities@
    &&& a.next_opportunity_tick == b.next_opportunity_tick
    &&& a.victory_tick == b.victory_tick
    &&& a.last_block == b.last_block
    &&& a.sector_emissions_milli == b.sector_emissions_milli
    &&& a.icons == b.icons
    &&& a.finance_delta_milli == b.finance_delta_milli
    &&& a.mandate_delta_milli == b.mandate_delta_milli
    &&& a.mandate_max_milli == b.mandate_max_milli
    &&& a.slots_total == b.slots_total
    &&& a.trace@ == b.trace@
}

proof fn lemma_entries_records(x: Seq<CompletedProject>, y: Seq<CompletedProject>)
    requires
        same_entries(x, y),
    ensures
        same_records(x, y),
{
    assert forall|i: int| 0 <= i < x.len() implies same_record(#[trigger] x[i], y[i]) by {
        assert(same_entry(x[i], y[i]));
    }
}

proof fn lemma_same_state_inputs(a: RunState, b: RunState)
    requires
        same_state(a, b),
    ensures
        same_inputs(a, b),
{
    lemma_entries_records(a.completed@, b.completed@);
}

proof fn lemma_count_completed_same(x: Seq<CompletedProject>, y: Seq<CompletedProject>, p: u32, lead: Continent)
    requires
        same_records(x, y),
    ensures
        count_completed_at(x, p, lead) == count_completed_at(y, p, lead),
    decreases x.len(),
{
    if x.len() > 0 {
        assert(same_record(x[x.len() - 1], y[y.len() - 1]));
        assert(same_records(x.drop_last(), y.drop_last())) by {
            assert forall|i: int| 0 <= i < x.drop_last().len() implies same_record(
                #[trigger] x.drop_last()[i],
                y.drop_last()[i],
            ) by {
                assert(same_record(x[i], y[i]));
            }
        }
        lemma_count_completed_same(x.drop_last(), y.drop_last(), p, lead);
    }
}

proof fn lemma_has_completion_same(
    cat: Catalogue,
    x: Seq<CompletedProject>,
    y: Seq<CompletedProject>,
    id: Seq<char>,
    lead: Option<Continent>,
)
    requires
        same_records(x, y),
    ensures
        has_completion(cat, x, id, lead) == has_completion(cat, y, id, lead),
{
    if has_completion(cat, x, id, lead) {
        let d = choose|d: int|
            0 <= d < x.len() && cat.projects@[(#[trigger] x[d]).project as int].id@ == id && (match lead {
                Some(l) => x[d].lead == l,
                None => true,
            });
        assert(same_record(x[d], y[d]));
    }
    if has_completion(cat, y, id, lead) {
        let d = choose|d: int|
            0 <= d < y.len() && cat.projects@[(#[trigger] y[d]).project as int].id@ == id && (match lead {
                Some(l) => y[d].lead == l,
                None => true,
            });
        assert(same_record(x[d], y[d]));
    }
}

proof fn lemma_prerequisites_same(
    cat: Catalogue,
    a: RunState,
    b: RunState,
    lead: Continent,
    qs: Seq<Prerequisite>,
)
    requires
        same_state(a, b),
    ensures
        prerequisites_block(cat, a, lead, qs) == prerequisites_block(cat, b, lead, qs),
    decreases qs.len(),
{
    if qs.len() > 0 {
        lemma_prerequisites_same(cat, a, b, lead, qs.drop_last());
        lemma_entries_records(a.completed@, b.completed@);
        match qs.last() {
            Prerequisite::CompletedOnLead { project } => {
                lemma_has_completion_same(cat, a.completed@, b.completed@, project@, Some(lead));
            },
            Prerequisite::CompletedAnywhere { project } => {
                lemma_has_completion_same(cat, a.completed@, b.completed@, project@, None);
            },
            _ => {},
        }
        assert(prerequisite_block(cat, a, lead, qs.last()) == prerequisite_block(cat, b, lead, qs.last()));
    }
}

/// Agreeing states block the queue head alike and price it alike.
proof fn lemma_head_same(cat: Catalogue, a: RunState, b: RunState, head: crate::state::QueuedProject)
    requires
        same_state(a, b),
    ensures
        head_block_spec(cat, a, head) == head_block_spec(cat, b, head),
        cost_spec(cat, a, head.project as int) == cost_spec(cat, b, head.project as int),
        duration_spec(cat, a, head.project as int) == duration_spec(cat, b, head.project as int),
{
    let p = head.project as int;
    let def = cat.projects@[p];
    lemma_entries_records(a.completed@, b.completed@);
    lemma_sum_completed_same(a.completed@, b.completed@, Measure::CostModifier(def.id@));
    lemma_sum_completed_same(a.completed@, b.completed@, Measure::DurationModifier(def.id@));
    lemma_count_completed_same(a.completed@, b.completed@, head.project, head.lead);
    assert(repeat_blocked(a, def, head) == repeat_blocked(b, def, head));
    lemma_prerequisites_same(cat, a, b, head.lead, def.prerequisites@);
}

// ------------------------------------------------------------- the steps

proof fn lemma_accrue_agree(a: RunState, b: RunState, a2: RunState, b2: RunState)
    requires
        same_state(a, b),
        accrue_spec(a, a2),
        accrue_spec(b, b2),
    ensures
        same_state(a2, b2),
{
}

proof fn lemma_complete_agree(cat: Catalogue, a: RunState, b: RunState, a2: RunState, b2: RunState, tick: u64)
    requires
        same_state(a, b),
        complete_spec(cat, a, a2, tick),
        complete_spec(cat, b, b2, tick),
    ensures
        same_state(a2, b2),
{
    let done = crate::tick::finished(a.active@);
    let n = a.completed@.len();
    assert forall|i: int| 0 <= i < a2.completed@.len() implies same_entry(#[trigger] a2.completed@[i], b2.completed@[i]) by {
        if i < n {
            assert(a2.completed@[i] == a2.completed@.take(n as int)[i]);
            assert(b2.completed@[i] == b2.completed@.take(n as int)[i]);
            assert(same_entry(a.completed@[i], b.completed@[i]));
        } else {
            let k = i - n;
            assert(crate::tick::completion_of(cat, a.icons, done[k], tick, a2.completed@[n + k]));
            assert(crate::tick::completion_of(cat, b.icons, done[k], tick, b2.completed@[n + k]));
            assert(a2.completed@[i].realized@ =~= b2.completed@[i].realized@);
        }
    }
    assert(a2.completions_ever@ =~= b2.completions_ever@);
}

proof fn lemma_rederived_agree(cat: Catalogue, a: RunState, b: RunState, a2: RunState, b2: RunState)
    requires
        same_state(a, b),
        rederived(cat, a, a2),
        rederived(cat, b, b2),
    ensures
        same_state(a2, b2),
{
    lemma_same_state_inputs(a, b);
    lemma_derivation_deterministic(cat, a, b, a2, b2);
}

proof fn lemma_opportunity_agree(cat: Catalogue, a: RunState, b: RunState, a2: RunState, b2: RunState, tick: u64)
    requires
        same_state(a, b),
        opportunity_spec(cat, a, a2, tick),
        opportunity_spec(cat, b, b2, tick),
    ensures
        same_state(a2, b2),
{
}

proof fn lemma_start_agree(cat: Catalogue, a: RunState, b: RunState, a2: RunState, b2: RunState, tick: u64)
    requires
        same_state(a, b),
        start_spec(cat, a, a2, tick),
        start_spec(cat, b, b2, tick),
    ensures
        same_state(a2, b2),
{
    if a.queue@.len() > 0 {
        let head = a.queue@[0];
        lemma_head_same(cat, a, b, head);
        if head_block_spec(cat, a, head) is None {
            let def = cat.projects@[head.project as int];
            let ma = RunState {
                finance_milli: (a.finance_milli - cost_spec(cat, a, head.project as int)) as i64,
                mandate_milli: (a.mandate_milli - def.mandate_cost * 1000) as i64,
                queue: a2.queue,
                active: a2.active,
                last_block: None,
                ..a
            };
            let mb = RunState {
                finance_milli: (b.finance_milli - cost_spec(cat, b, head.project as int)) as i64,
                mandate_milli: (b.mandate_milli - def.mandate_cost * 1000) as i64,
                queue: b2.queue,
                active: b2.active,
                last_block: None,
                ..b
            };
            assert(same_state(ma, mb));
            lemma_same_state_inputs(ma, mb);
            lemma_derivation_deterministic(cat, ma, mb, a2, b2);
        }
    }
}

proof fn lemma_victory_agree(a: RunState, b: RunState, a2: RunState, b2: RunState, tick: u64)
    requires
        same_state(a, b),
        victory_step(a, a2, tick),
        victory_step(b, b2, tick),
    ensures
        same_state(a2, b2),
{
}

/// Ticks of agreeing states agree.
pub proof fn lemma_tick_deterministic(cat: Catalogue, a: RunState, b: RunState, a2: RunState, b2: RunState)
    requires
        same_state(a, b),
        tick_spec(cat, a, a2),
        tick_spec(cat, b, b2),
    ensures
        same_state(a2, b2),
{
    let (s1, s2, s3, s4, s5) = choose|s1: RunState, s2: RunState, s3: RunState, s4: RunState, s5: RunState|
        #[trigger] tick_chain(cat, a, s1, s2, s3, s4, s5, a2);
    let (t1, t2, t3, t4, t5) = choose|s1: RunState, s2: RunState, s3: RunState, s4: RunState, s5: RunState|
        #[trigger] tick_chain(cat, b, s1, s2, s3, s4, s5, b2);
    lemma_accrue_agree(a, b, s1, t1);
    lemma_complete_agree(cat, s1, t1, s2, t2, s1.tick);
    lemma_rederived_agree(cat, s2, t2, s3, t3);
    lemma_opportunity_agree(cat, s3, t3, s4, t4, s1.tick);
    lemma_start_agree(cat, s4, t4, s5, t5, s1.tick);
    lemma_victory_agree(s5, t5, a2, b2, s1.tick);
}

proof fn lemma_entries_remove(x: Seq<CompletedProject>, y: Seq<CompletedProject>, i: int)
    requires
        same_entries(x, y),
        0 <= i < x.len(),
    ensures
        same_entries(x.remove(i), y.remove(i)),
{
    assert forall|j: int| 0 <= j < x.remove(i).len() implies same_entry(#[trigger] x.remove(i)[j], y.remove(i)[j]) by {
        if j < i {
            assert(same_entry(x[j], y[j]));
        } else {
            assert(same_entry(x[j + 1], y[j + 1]));
        }
    }
}

/// Commands applied to agreeing states are answered alike and leave
/// agreeing states.
pub proof fn lemma_command_deterministic(
    cat: Catalogue,
    a: RunState,
    b: RunState,
    command: Command,
    a2: RunState,
    b2: RunState,
    ra: Result<(), Rejection>,
    rb: Result<(), Rejection>,
)
    requires
        same_state(a, b),
        apply_spec(cat, a, command, a2, ra),
        apply_spec(cat, b, command, b2, rb),
    ensures
        ra == rb,
        same_state(a2, b2),
{
    if ra is Ok && rb is Ok {
        let ua: () = ra->Ok_0;
        let ub: () = rb->Ok_0;
        assert(ua == ub);
        assert(ra == Ok::<(), Rejection>(ua));
        assert(rb == Ok::<(), Rejection>(ub));
    }
    match command {
        Command::CancelActiveProject { index } => {
            if index < a.active@.len() {
                let ma = RunState { active: a2.active, ..a };
                let mb = RunState { active: b2.active, ..b };
                assert(same_state(ma, mb));
                lemma_same_state_inputs(ma, mb);
                lemma_derivation_deterministic(cat, ma, mb, a2, b2);
            }
        },
        Command::DecommissionProject { index } => {
            if index < a.completed@.len() {
                lemma_entries_remove(a.completed@, b.completed@, index as int);
                let ma = RunState { completed: a2.completed, ..a };
                let mb = RunState { completed: b2.completed, ..b };
                assert(same_state(ma, mb));
                lemma_same_state_inputs(ma, mb);
                lemma_derivation_deterministic(cat, ma, mb, a2, b2);
            }
        },
        Command::ClaimOpportunity { index } => {
            if index < a.opportunities@.len() {
                let open = a.opportunities@[index as int];
                let effect = cat.opportunities@[open.def as int].effect;
                let mid_mandate: i64 = match effect {
                    crate::schema::OpportunityEffect::MandateBoost { milli } => if a.mandate_milli
                        + milli <= a.mandate_max_milli {
                        (a.mandate_milli + milli) as i64
                    } else {
                        a.mandate_max_milli
                    },
                    _ => a.mandate_milli,
                };
                let ma = RunState {
                    opportunities: a2.opportunities,
                    finance_milli: a2.finance_milli,
                    bonus_icons: a2.bonus_icons,
                    mandate_milli: mid_mandate,
                    ..a
                };
                let mb = RunState {
                    opportunities: b2.opportunities,
                    finance_milli: b2.finance_milli,
                    bonus_icons: b2.bonus_icons,
                    mandate_milli: mid_mandate,
                    ..b
                };
                assert forall|c: int| 0 <= c < 3 implies #[trigger] a2.bonus_icons[c] =~= b2.bonus_icons[c] by {}
                assert(a2.bonus_icons =~= b2.bonus_icons);
                assert(same_state(ma, mb));
                lemma_same_state_inputs(ma, mb);
                lemma_derivation_deterministic(cat, ma, mb, a2, b2);
            }
        },
        _ => {},
    }
}

/// Two runs of the same catalogue on the same seed open in agreement.
pub proof fn lemma_opening_deterministic(
    cat: Catalogue,
    seed: u64,
    raw1: RunState,
    raw2: RunState,
    s1: RunState,
    s2: RunState,
)
    requires
        opening(cat, seed, raw1),
        opening(cat, seed, raw2),
        rederived(cat, raw1, s1),
        rederived(cat, raw2, s2),
    ensures
        same_state(s1, s2),
{
    assert forall|c: int| 0 <= c < 3 implies #[trigger] raw1.baseline_emissions_milli[c]
        =~= raw2.baseline_emissions_milli[c] by {}
    assert(raw1.baseline_emissions_milli =~= raw2.baseline_emissions_milli);
    assert(raw1.baseline_finance_income_milli =~= raw2.baseline_finance_income_milli);
    assert(raw1.baseline_mandate_income_milli =~= raw2.baseline_mandate_income_milli);
    assert forall|c: int| 0 <= c < 3 implies #[trigger] raw1.bonus_icons[c] =~= raw2.bonus_icons[c] by {}
    assert(raw1.bonus_icons =~= raw2.bonus_icons);
    assert forall|c: int| 0 <= c < 3 implies #[trigger] raw1.icons[c] =~= raw2.icons[c] by {}
    assert(raw1.icons =~= raw2.icons);
    assert(raw1.queue@ =~= raw2.queue@);
    assert(raw1.active@ =~= raw2.active@);
    assert(raw1.opportunities@ =~= raw2.opportunities@);
    assert(raw1.trace@ =~= raw2.trace@);
    assert(same_state(raw1, raw2));
    lemma_rederived_agree(cat, raw1, raw2, s1, s2);
}

/// One step of a run: a tick (a no-op while paused) or a command.
pub enum Step {
    Tick,
    Apply(Command),
}

/// `post` follows `pre` by `step`.
pub open spec fn step_spec(cat: Catalogue, pre: RunState, step: Step, post: RunState) -> bool {
    match step {
        Step::Tick => if pre.paused {
            post == pre
        } else {
            tick_spec(cat, pre, post)
        },
        Step::Apply(command) => exists|r: Result<(), Rejection>| #[trigger] apply_spec(cat, pre, command, post, r),
    }
}

/// `states` is a run through `steps`: each state follows the one before.
pub open spec fn replays(cat: Catalogue, states: Seq<RunState>, steps: Seq<Step>) -> bool {
    &&& states.len() == steps.len() + 1
    &&& forall|i: int| 0 <= i < steps.len() ==> #[trigger] step_spec(cat, states[i], steps[i], states[i + 1])
}

proof fn lemma_step_deterministic(cat: Catalogue, a: RunState, b: RunState, step: Step, a2: RunState, b2: RunState)
    requires
        same_state(a, b),
        step_spec(cat, a, step, a2),
        step_spec(cat, b, step, b2),
    ensures
        same_state(a2, b2),
{
    match step {
        Step::Tick => {
            if !a.paused {
                lemma_tick_deterministic(cat, a, b, a2, b2);
            }
        },
        Step::Apply(command) => {
            let ra = choose|r: Result<(), Rejection>| #[trigger] apply_spec(cat, a, command, a2, r);
            let rb = choose|r: Result<(), Rejection>| #[trigger] apply_spec(cat, b, command, b2, r);
            lemma_command_deterministic(cat, a, b, command, a2, b2, ra, rb);
        },
    }
}

/// Deterministic replay: two runs through the same ordered ticks and
/// commands from agreeing states agree at every step.
pub proof fn lemma_replay_deterministic(cat: Catalogue, xs: Seq<RunState>, ys: Seq<RunState>, steps: Seq<Step>)
    requires
        replays(cat, xs, steps),
        replays(cat, ys, steps),
        same_state(xs[0], ys[0]),
    ensures
        forall|i: int| 0 <= i < xs.len() ==> #[trigger] same_state(xs[i], ys[i]),
    decreases steps.len(),
{
    if steps.len() > 0 {
        let n = steps.len() - 1;
        let xs0 = xs.drop_last();
        let ys0 = ys.drop_last();
        let steps0 = steps.drop_last();
        assert forall|i: int| 0 <= i < steps0.len() implies #[trigger] step_spec(cat, xs0[i], steps0[i], xs0[i + 1]) by {
            assert(step_spec(cat, xs[i], steps[i], xs[i + 1]));
        }
        assert forall|i: int| 0 <= i < steps0.len() implies #[trigger] step_spec(cat, ys0[i], steps0[i], ys0[i + 1]) by {
            assert(step_spec(cat, ys[i], steps[i], ys[i + 1]));
        }
        lemma_replay_deterministic(cat, xs0, ys0, steps0);
        assert(same_state(xs0[n], ys0[n]));
        assert(step_spec(cat, xs[n], steps[n], xs[n + 1]));
        assert(step_spec(cat, ys[n], steps[n], ys[n + 1]));
        lemma_step_deterministic(cat, xs[n], ys[n], steps[n], xs[n + 1], ys[n + 1]);
        assert forall|i: int| 0 <= i < xs.len() implies #[trigger] same_state(xs[i], ys[i]) by {
            if i < xs0.len() {
                assert(same_state(xs0[i], ys0[i]));
            }
        }
    }
}

/// A run is a function of its catalogue, seed and ordered steps: two runs
/// opened on the same catalogue and seed and driven through the same ticks
/// and commands agree at every step.
pub proof fn lemma_runs_deterministic(
    cat: Catalogue,
    seed: u64,
    raw1: RunState,
    raw2: RunState,
    xs: Seq<RunState>,
    ys: Seq<RunState>,
    steps: Seq<Step>,
)
    requires
        opening(cat, seed, raw1),
        opening(cat, seed, raw2),
        rederived(cat, raw1, xs[0]),
        rederived(cat, raw2, ys[0]),
        replays(cat, xs, steps),
        replays(cat, ys, steps),
    ensures
        forall|i: int| 0 <= i < xs.len() ==> #[trigger] same_state(xs[i], ys[i]),
{
    lemma_opening_deterministic(cat, seed, raw1, raw2, xs[0], ys[0]);
    lemma_replay_deterministic(cat, xs, ys, steps);
}

} // verus!
