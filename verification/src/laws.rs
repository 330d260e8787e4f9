//! Laws of the simulation that span its operations: what every tick and
//! every command keeps, what a rejection leaves alone, what cancelling and
//! decommissioning leave behind, and how runs are recorded.

use vstd::prelude::*;

use crate::catalogue::Catalogue;
use crate::command::Command;
use crate::preview::{lemma_derivation_deterministic, same_inputs, same_records};
use crate::record::{moved_spec, recorded_tick, Ledger, Sample, Versions};
use crate::sim::{apply_spec, rederived};
use crate::state::{derived_fields, total_emissions, victory_spec, RunState};
use crate::tick::{
    accrue_spec, complete_spec, opportunity_spec, start_spec, tick_chain, tick_spec, victory_step,
};

verus! {

/// What a step of the run never takes back: the clock does not run
/// backwards, unlocks and programme slots only accumulate, completions-ever
/// only grow, completed entries keep their locked-in effects, a victory
/// stays, and the starting-variation stream is left alone.
pub open spec fn kept(pre: RunState, post: RunState) -> bool {
    &&& post.tick >= pre.tick
    &&& post.unlocked@.len() == pre.unlocked@.len()
    &&& forall|k: int| 0 <= k < pre.unlocked@.len() && pre.unlocked@[k] ==> #[trigger] post.unlocked@[k]
    &&& post.slots_total >= pre.slots_total
    &&& post.completions_ever@.len() == pre.completions_ever@.len()
    &&& forall|p: int|
        0 <= p < pre.completions_ever@.len() ==> #[trigger] post.completions_ever@[p]
            >= pre.completions_ever@[p]
    &&& pre.victory_tick is Some ==> post.victory_tick == pre.victory_tick
    &&& post.streams.starting_variation == pre.streams.starting_variation
}

proof fn lemma_kept_trans(a: RunState, b: RunState, c: RunState)
    requires
        kept(a, b),
        kept(b, c),
    ensures
        kept(a, c),
{
    assert forall|k: int| 0 <= k < a.unlocked@.len() && a.unlocked@[k] implies #[trigger] c.unlocked@[k] by {
        assert(b.unlocked@[k]);
    }
    assert forall|p: int| 0 <= p < a.completions_ever@.len() implies #[trigger] c.completions_ever@[p]
        >= a.completions_ever@[p] by {
        assert(b.completions_ever@[p] >= a.completions_ever@[p]);
    }
}

proof fn lemma_derivation_kept(cat: Catalogue, pre: RunState, post: RunState)
    requires
        derived_fields(cat, pre, post),
    ensures
        kept(pre, post),
        post.completed == pre.completed,
        post.queue == pre.queue,
        post.finance_milli == pre.finance_milli,
{
}

proof fn lemma_complete_kept(cat: Catalogue, pre: RunState, post: RunState, tick: u64)
    requires
        complete_spec(cat, pre, post, tick),
    ensures
        kept(pre, post),
        post.completed@.take(pre.completed@.len() as int) == pre.completed@,
        post.queue == pre.queue,
{
    assert forall|p: int| 0 <= p < pre.completions_ever@.len() implies #[trigger] post.completions_ever@[p]
        >= pre.completions_ever@[p] by {
        crate::tick::lemma_count_nonneg(crate::tick::finished(pre.active@), p as u32);
    }
}

proof fn lemma_start_kept(cat: Catalogue, pre: RunState, post: RunState, tick: u64)
    requires
        start_spec(cat, pre, post, tick),
    ensures
        kept(pre, post),
        post.completed == pre.completed,
        post.queue@ == pre.queue@ || (pre.queue@.len() > 0 && post.queue@ == pre.queue@.subrange(
            1,
            pre.queue@.len() as int,
        )),
{
    if pre.queue@.len() > 0 {
        let head = pre.queue@[0];
        if crate::sim::head_block_spec(cat, pre, head) is None {
            let def = cat.projects@[head.project as int];
            let mid = RunState {
                finance_milli: (pre.finance_milli - crate::sim::cost_spec(cat, pre, head.project as int)) as i64,
                mandate_milli: (pre.mandate_milli - def.mandate_cost * 1000) as i64,
                queue: post.queue,
                active: post.active,
                last_block: None,
                ..pre
            };
            lemma_derivation_kept(cat, mid, post);
        }
    }
}

proof fn lemma_accrue_kept(pre: RunState, post: RunState)
    requires
        accrue_spec(pre, post),
        pre.tick < u64::MAX,
    ensures
        kept(pre, post),
        post.tick == pre.tick + 1,
        post.completed == pre.completed,
        post.queue == pre.queue,
        post.victory_tick == pre.victory_tick,
{
}

proof fn lemma_opportunity_kept(cat: Catalogue, pre: RunState, post: RunState, tick: u64)
    requires
        opportunity_spec(cat, pre, post, tick),
    ensures
        kept(pre, post),
        post.tick == pre.tick,
        post.completed == pre.completed,
        post.queue == pre.queue,
        post.victory_tick == pre.victory_tick,
{
}

proof fn lemma_victory_kept(pre: RunState, post: RunState, tick: u64)
    requires
        victory_step(pre, post, tick),
        pre.tick == tick,
    ensures
        kept(pre, post),
        post.tick == pre.tick,
        post.completed == pre.completed,
        post.queue == pre.queue,
        post == pre || (post == RunState { victory_tick: post.victory_tick, trace: post.trace, ..pre }
            && pre.victory_tick is None && post.victory_tick == Some(post.tick) && victory_spec(pre)),
{
}

/// The chain of one tick keeps everything `kept` names, and the queue only
/// ever loses its head.
proof fn lemma_chain_kept(
    cat: Catalogue,
    pre: RunState,
    s1: RunState,
    s2: RunState,
    s3: RunState,
    s4: RunState,
    s5: RunState,
    post: RunState,
)
    requires
        pre.tick < u64::MAX,
        accrue_spec(pre, s1),
        complete_spec(cat, s1, s2, s1.tick),
        rederived(cat, s2, s3),
        opportunity_spec(cat, s3, s4, s1.tick),
        start_spec(cat, s4, s5, s1.tick),
        victory_step(s5, post, s1.tick),
    ensures
        kept(pre, post),
        post.tick == pre.tick + 1,
        post.completed@.take(pre.completed@.len() as int) == pre.completed@,
        post.queue@ == pre.queue@ || (pre.queue@.len() > 0 && post.queue@ == pre.queue@.subrange(
            1,
            pre.queue@.len() as int,
        )),
        s5.victory_tick == pre.victory_tick,
        post == s5 || (post == RunState { victory_tick: post.victory_tick, trace: post.trace, ..s5 }
            && pre.victory_tick is None && post.victory_tick == Some(post.tick) && victory_spec(s5)),
{
    lemma_accrue_kept(pre, s1);
    lemma_complete_kept(cat, s1, s2, s1.tick);
    lemma_derivation_kept(cat, s2, s3);
    lemma_opportunity_kept(cat, s3, s4, s1.tick);
    lemma_start_kept(cat, s4, s5, s1.tick);
    lemma_victory_kept(s5, post, s1.tick);
    lemma_kept_trans(pre, s1, s2);
    lemma_kept_trans(pre, s2, s3);
    lemma_kept_trans(pre, s3, s4);
    lemma_kept_trans(pre, s4, s5);
    lemma_kept_trans(pre, s5, post);
}

/// What a tick keeps: the clock advances by exactly one; unlocks, programme
/// slots and completions-ever never go back; completed projects keep their
/// locked-in effects and new completions only join the end; only the FIFO
/// head ever leaves the queue; ticks never draw on the starting-variation
/// stream.
pub proof fn lemma_tick_keeps(cat: Catalogue, pre: RunState, post: RunState)
    requires
        tick_spec(cat, pre, post),
        pre.tick < u64::MAX,
    ensures
        kept(pre, post),
        post.tick == pre.tick + 1,
        post.completed@.take(pre.completed@.len() as int) == pre.completed@,
        post.queue@ == pre.queue@ || (pre.queue@.len() > 0 && post.queue@ == pre.queue@.subrange(
            1,
            pre.queue@.len() as int,
        )),
{
    let (s1, s2, s3, s4, s5) = choose|s1: RunState, s2: RunState, s3: RunState, s4: RunState, s5: RunState|
        #[trigger] tick_chain(cat, pre, s1, s2, s3, s4, s5, post);
    lemma_chain_kept(cat, pre, s1, s2, s3, s4, s5, post);
}

/// Victory is recorded only on the tick gross global emissions reach zero
/// with non-negative Finance and Mandate deltas, stamped with that tick, and
/// never revoked.
pub proof fn lemma_victory_is_earned(cat: Catalogue, pre: RunState, post: RunState)
    requires
        tick_spec(cat, pre, post),
        pre.tick < u64::MAX,
    ensures
        pre.victory_tick is Some ==> post.victory_tick == pre.victory_tick,
        pre.victory_tick is None && post.victory_tick is Some ==> {
            &&& post.victory_tick == Some(post.tick)
            &&& total_emissions(post) == 0
            &&& post.finance_delta_milli >= 0
            &&& post.mandate_delta_milli >= 0
        },
{
    let (s1, s2, s3, s4, s5) = choose|s1: RunState, s2: RunState, s3: RunState, s4: RunState, s5: RunState|
        #[trigger] tick_chain(cat, pre, s1, s2, s3, s4, s5, post);
    lemma_chain_kept(cat, pre, s1, s2, s3, s4, s5, post);
}

/// A rejected command changes nothing: no resources, no state, no time.
pub proof fn lemma_rejection_changes_nothing(
    cat: Catalogue,
    pre: RunState,
    command: Command,
    post: RunState,
    r: Result<(), crate::command::Rejection>,
)
    requires
        apply_spec(cat, pre, command, post, r),
        r is Err,
    ensures
        post == pre,
{
}

/// The inputs a command is refused on: an unknown project, an index past the
/// end of the list it names, pausing a paused run or resuming a running one.
pub open spec fn refuses(cat: Catalogue, pre: RunState, command: Command) -> bool {
    match command {
        Command::QueueProject { project, .. } => !crate::catalogue::id_exists(cat.projects@, project@),
        Command::RemoveQueuedProject { index } => index >= pre.queue@.len(),
        Command::SelectProjectLeadContinent { index, .. } => index >= pre.queue@.len(),
        Command::ReorderQueue { from, to } => from >= pre.queue@.len() || to >= pre.queue@.len(),
        Command::CancelActiveProject { index } => index >= pre.active@.len(),
        Command::DecommissionProject { index } => index >= pre.completed@.len(),
        Command::ClaimOpportunity { index } => index >= pre.opportunities@.len(),
        Command::Pause => pre.paused,
        Command::Resume => !pre.paused,
    }
}

/// A command is rejected exactly on the inputs it refuses, paused or not;
/// planning commands are accepted while paused.
pub proof fn lemma_rejected_exactly_when_refused(
    cat: Catalogue,
    pre: RunState,
    command: Command,
    post: RunState,
    r: Result<(), crate::command::Rejection>,
)
    requires
        apply_spec(cat, pre, command, post, r),
    ensures
        r is Err <==> refuses(cat, pre, command),
{
}

/// What a command keeps: it never advances time, never takes back an unlock
/// or a programme slot, never touches completions-ever (so decommissioning
/// and rebuilding pays the full repeat cost), never revokes a victory, and
/// never draws on the starting-variation stream.
pub proof fn lemma_command_keeps(
    cat: Catalogue,
    pre: RunState,
    command: Command,
    post: RunState,
    r: Result<(), crate::command::Rejection>,
)
    requires
        apply_spec(cat, pre, command, post, r),
    ensures
        kept(pre, post),
        post.tick == pre.tick,
        post.completions_ever == pre.completions_ever,
{
    match command {
        Command::CancelActiveProject { index } => {
            if index < pre.active@.len() {
                lemma_derivation_kept(cat, RunState { active: post.active, ..pre }, post);
            }
        },
        Command::DecommissionProject { index } => {
            if index < pre.completed@.len() {
                lemma_derivation_kept(cat, RunState { completed: post.completed, ..pre }, post);
            }
        },
        Command::ClaimOpportunity { index } => {
            if index < pre.opportunities@.len() {
                let open = pre.opportunities@[index as int];
                let effect = cat.opportunities@[open.def as int].effect;
                let mid_mandate: i64 = match effect {
                    crate::schema::OpportunityEffect::MandateBoost { milli } => if pre.mandate_milli
                        + milli <= pre.mandate_max_milli {
                        (pre.mandate_milli + milli) as i64
                    } else {
                        pre.mandate_max_milli
                    },
                    _ => pre.mandate_milli,
                };
                lemma_derivation_kept(
                    cat,
                    RunState {
                        opportunities: post.opportunities,
                        finance_milli: post.finance_milli,
                        bonus_icons: post.bonus_icons,
                        mandate_milli: mid_mandate,
                        ..pre
                    },
                    post,
                );
            }
        },
        _ => {},
    }
}

/// `a` and `b` agree on every derivation input but the active list.
pub open spec fn same_but_active(a: RunState, b: RunState) -> bool {
    &&& a.bonus_icons == b.bonus_icons
    &&& same_records(a.completed@, b.completed@)
    &&& a.unlocked@ == b.unlocked@
    &&& a.baseline_emissions_milli == b.baseline_emissions_milli
    &&& a.baseline_finance_income_milli == b.baseline_finance_income_milli
    &&& a.baseline_mandate_income_milli == b.baseline_mandate_income_milli
    &&& a.mandate_milli == b.mandate_milli
    &&& a.slots_total == b.slots_total
}

/// `a` and `b` agree on every derivation input but the completed list.
pub open spec fn same_but_completed(a: RunState, b: RunState) -> bool {
    &&& a.bonus_icons == b.bonus_icons
    &&& a.active@ == b.active@
    &&& a.unlocked@ == b.unlocked@
    &&& a.baseline_emissions_milli == b.baseline_emissions_milli
    &&& a.baseline_finance_income_milli == b.baseline_finance_income_milli
    &&& a.baseline_mandate_income_milli == b.baseline_mandate_income_milli
    &&& a.mandate_milli == b.mandate_milli
    &&& a.slots_total == b.slots_total
}

/// The derived quantities two states agree on.
pub open spec fn same_derived(a: RunState, b: RunState) -> bool {
    &&& a.icons == b.icons
    &&& a.unlocked@ == b.unlocked@
    &&& a.sector_emissions_milli == b.sector_emissions_milli
    &&& a.finance_delta_milli == b.finance_delta_milli
    &&& a.mandate_delta_milli == b.mandate_delta_milli
    &&& a.mandate_max_milli == b.mandate_max_milli
    &&& a.mandate_milli == b.mandate_milli
    &&& a.slots_total == b.slots_total
}

/// Cancelling an active build leaves no trace of it: progress and partial
/// effects are gone, as if it had never been started (the derivation equals
/// that of a run without it), and nothing is refunded.
pub proof fn lemma_cancel_leaves_no_trace(
    cat: Catalogue,
    pre: RunState,
    index: u32,
    post: RunState,
    r: Result<(), crate::command::Rejection>,
    without: RunState,
    without_derived: RunState,
)
    requires
        apply_spec(cat, pre, Command::CancelActiveProject { index }, post, r),
        index < pre.active@.len(),
        same_but_active(without, pre),
        without.active@ == pre.active@.remove(index as int),
        derived_fields(cat, without, without_derived),
    ensures
        r is Ok,
        post.active@ == without.active@,
        same_derived(post, without_derived),
        post.finance_milli == pre.finance_milli,
        post.completions_ever == pre.completions_ever,
{
    let mid = RunState { active: post.active, ..pre };
    assert(same_inputs(mid, without));
    lemma_derivation_deterministic(cat, mid, without, post, without_derived);
}

/// Decommissioning a completed project removes its benefits, icons,
/// spillovers and upkeep, as if it had never been built (the derivation
/// equals that of a run without it); nothing is refunded, and its
/// completions-ever count stays, so a rebuild pays the full repeat cost.
pub proof fn lemma_decommission_leaves_no_trace(
    cat: Catalogue,
    pre: RunState,
    index: u32,
    post: RunState,
    r: Result<(), crate::command::Rejection>,
    without: RunState,
    without_derived: RunState,
)
    requires
        apply_spec(cat, pre, Command::DecommissionProject { index }, post, r),
        index < pre.completed@.len(),
        same_but_completed(without, pre),
        same_records(without.completed@, pre.completed@.remove(index as int)),
        derived_fields(cat, without, without_derived),
    ensures
        r is Ok,
        same_derived(post, without_derived),
        post.finance_milli == pre.finance_milli,
        post.completions_ever == pre.completions_ever,
{
    let mid = RunState { completed: post.completed, ..pre };
    assert(same_records(mid.completed@, without.completed@)) by {
        assert forall|i: int| 0 <= i < mid.completed@.len() implies crate::preview::same_record(
            #[trigger] mid.completed@[i],
            without.completed@[i],
        ) by {
            assert(crate::preview::same_record(without.completed@[i], pre.completed@.remove(index as int)[i]));
        }
    }
    assert(same_inputs(mid, without));
    lemma_derivation_deterministic(cat, mid, without, post, without_derived);
}

/// Content that validates without issues meets the recoverability
/// invariants the scenario must keep: baseline Finance and Mandate income are
/// strictly positive, and all nine sector baselines are authored.
pub proof fn lemma_valid_content_is_recoverable(c: Catalogue)
    requires
        crate::catalogue::catalogue_issues(c).len() == 0,
    ensures
        crate::catalogue::income_sum(c.scenario.finance_income_milli@) > 0,
        crate::catalogue::income_sum(c.scenario.mandate_income_milli@) > 0,
        c.scenario.sector_baselines_milli_gt@.len() == 9,
{
    let ps = c.projects@;
    let head = crate::catalogue::ids_issues(ps, ps.len() as int) + crate::catalogue::projects_issues(ps, ps)
        + crate::catalogue::locked_issues(ps, ps);
    assert(crate::catalogue::catalogue_issues(c) == head + crate::catalogue::scenario_issues(c.scenario));
    assert(crate::catalogue::scenario_issues(c.scenario).len() == 0);
}

// ------------------------------------------------------------- records

/// Sampled ticks strictly increase, are never tick zero, and the last one
/// is the last tick sampled.
pub open spec fn samples_ordered(samples: Seq<Sample>, last: u64) -> bool {
    &&& forall|i: int, j: int| 0 <= i < j < samples.len() ==> samples[i].tick < samples[j].tick
    &&& forall|i: int| 0 <= i < samples.len() ==> 0 < #[trigger] samples[i].tick <= last
    &&& samples.len() > 0 ==> samples.last().tick == last
}

/// Recording a tick keeps the samples ordered: a paused tick, which does
/// not advance the counter, never samples the same tick twice, and tick
/// zero is never sampled.
pub proof fn lemma_sampling_ordered(
    pre: Ledger,
    last: u64,
    tick: u64,
    digest: u64,
    post: Ledger,
    post_last: u64,
)
    requires
        recorded_tick(pre, last, tick, digest, post, post_last),
        samples_ordered(pre.samples@, last),
        tick >= last,
    ensures
        samples_ordered(post.samples@, post_last),
        post_last >= last,
{
}

proof fn lemma_no_miss_within(recorded: Seq<Sample>, replayed: Seq<Sample>)
    requires
        forall|i: int| 0 <= i < recorded.len() ==> crate::record::sample_held(#[trigger] recorded[i], replayed),
    ensures
        crate::record::first_missed(recorded, replayed) is None,
    decreases recorded.len(),
{
    if recorded.len() > 0 {
        assert forall|i: int| 0 <= i < recorded.drop_last().len() implies crate::record::sample_held(
            #[trigger] recorded.drop_last()[i],
            replayed,
        ) by {
            assert(recorded.drop_last()[i] == recorded[i]);
        }
        lemma_no_miss_within(recorded.drop_last(), replayed);
        assert(crate::record::sample_held(recorded[recorded.len() - 1], replayed));
    }
}

/// A replay whose ledger matches the recorded one reproduces: comparing a
/// ledger with an identical one finds no divergence.
pub proof fn lemma_matching_ledgers_reproduce(recorded: Ledger, replayed: Ledger)
    requires
        recorded.samples@ == replayed.samples@,
        recorded.final_tick == replayed.final_tick,
        recorded.final_digest == replayed.final_digest,
    ensures
        crate::record::ledger_verdict(recorded, replayed) == crate::record::Verdict::Reproduced,
{
    let xs = recorded.samples@;
    assert forall|i: int| 0 <= i < xs.len() implies crate::record::sample_held(#[trigger] xs[i], replayed.samples@) by {
        assert(replayed.samples@[i] == xs[i]);
    }
    lemma_no_miss_within(xs, replayed.samples@);
}

/// A record is refused exactly when a version dimension moved.
pub proof fn lemma_refused_exactly_when_moved(recorded: Versions, current: Versions)
    ensures
        moved_spec(recorded, current) is None <==> (recorded.format == current.format
            && recorded.rules@ == current.rules@ && recorded.content == current.content),
{
}

} // verus!
