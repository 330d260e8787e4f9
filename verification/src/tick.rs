//! The tick: accrual, construction, completion, rederivation, opportunities,
//! the FIFO queue head, and victory, in that fixed order.

use vstd::prelude::*;

use crate::calc::{
    apply_permille, bonus_spec, lemma_bonus_bounds, permille_of, reduction_bonus, row_bounded,
    MAG,
};
use crate::catalogue::Catalogue;
use crate::derive::{lemma_scaled_bound_pub, scaled_max};
use crate::schema::{EffectOp, ProjectDef, ScopedEffect};
use crate::state::{effect_measure, sum_effects, Measure};
use crate::sim::{
    cost_external, cost_fits, cost_fits_with, cost_spec, count_active_of, duration_external,
    duration_spec, head_block_spec, head_reaches_cost, rederived, slot_events, Sim,
};
use crate::state::victory_spec;
use crate::rng::{bounded_draw, RngStreams};
use crate::state::{
    def_bounded, grid_within, state_wf, ActiveProject, CompletedProject, OpenOpportunity,
    RealizedEffect, RunState, LIST_MAX, RED_MAX,
};
use crate::state::{derived_fields, QueuedProject, DUR_MAX};
use crate::trace::{same_reason, BlockReason, TraceEvent, TraceKind};
use crate::world::{continent_at, continent_index, Continent};

verus! {

/// The realised form of an authored effect at a bonus: reductions carry their
/// scaled magnitude, everything else is as authored.
pub open spec fn realize_op(op: EffectOp, bonus: int) -> EffectOp {
    match op {
        EffectOp::ReduceSectorEmissions { sector, milli_gt } => EffectOp::ReduceSectorEmissions {
            sector,
            milli_gt: permille_of(milli_gt as int, bonus) as i64,
        },
        _ => op,
    }
}

/// `c` is the completion record of build `b` at `tick`, with effects locked in
/// at the bonus the icons give the lead continent.
pub open spec fn completion_of(
    cat: Catalogue,
    icons: [[i64; 4]; 3],
    b: ActiveProject,
    tick: u64,
    c: CompletedProject,
) -> bool {
    let def = cat.projects@[b.project as int];
    let bonus = bonus_spec(def, icons[continent_index(b.lead)]);
    &&& c.project == b.project
    &&& c.lead == b.lead
    &&& c.tick == tick
    &&& c.bonus_permille == bonus
    &&& c.realized@.len() == def.effects@.len()
    &&& forall|j: int|
        0 <= j < def.effects@.len() ==> (#[trigger] c.realized@[j]).op == realize_op(
            def.effects@[j].op,
            bonus,
        ) && c.realized@[j].scope == def.effects@[j].scope
}

pub open spec fn is_finished(b: ActiveProject) -> bool {
    b.progress >= b.duration
}

/// The builds of a list that have finished, in order.
pub open spec fn finished(active: Seq<ActiveProject>) -> Seq<ActiveProject>
    decreases active.len(),
{
    if active.len() == 0 {
        seq![]
    } else if is_finished(active.last()) {
        finished(active.drop_last()).push(active.last())
    } else {
        finished(active.drop_last())
    }
}

/// The builds of a list still under construction, in order.
pub open spec fn unfinished(active: Seq<ActiveProject>) -> Seq<ActiveProject>
    decreases active.len(),
{
    if active.len() == 0 {
        seq![]
    } else if is_finished(active.last()) {
        unfinished(active.drop_last())
    } else {
        unfinished(active.drop_last()).push(active.last())
    }
}

/// The completion events of finished builds, in order.
pub open spec fn completion_events(
    cat: Catalogue,
    icons: [[i64; 4]; 3],
    done: Seq<ActiveProject>,
    tick: u64,
) -> Seq<TraceEvent>
    decreases done.len(),
{
    if done.len() == 0 {
        seq![]
    } else {
        let b = done.last();
        let def = cat.projects@[b.project as int];
        completion_events(cat, icons, done.drop_last(), tick).push(
            TraceEvent {
                tick,
                kind: TraceKind::ProjectCompleted {
                    project: def.id,
                    lead: b.lead,
                    bonus_permille: bonus_spec(def, icons[continent_index(b.lead)]) as i64,
                },
            },
        )
    }
}

/// The completion step: every finished build leaves the active list, in
/// order, and is recorded as completed with its effects locked in at the
/// current icons; completions-ever counts rise; one event per completion.
pub open spec fn complete_spec(cat: Catalogue, pre: RunState, post: RunState, tick: u64) -> bool {
    let done = finished(pre.active@);
    &&& post == RunState {
        active: post.active,
        completed: post.completed,
        completions_ever: post.completions_ever,
        trace: post.trace,
        ..pre
    }
    &&& post.active@ == unfinished(pre.active@)
    &&& post.completed@.len() == pre.completed@.len() + done.len()
    &&& post.completed@.take(pre.completed@.len() as int) == pre.completed@
    &&& forall|k: int|
        0 <= k < done.len() ==> completion_of(
            cat,
            pre.icons,
            done[k],
            tick,
            #[trigger] post.completed@[pre.completed@.len() + k],
        )
    &&& post.completions_ever@.len() == pre.completions_ever@.len()
    &&& forall|p: int|
        0 <= p < pre.completions_ever@.len() ==> #[trigger] post.completions_ever@[p]
            == pre.completions_ever@[p] + count_active_of(done, p as u32)
    &&& post.trace@ == pre.trace@ + completion_events(cat, pre.icons, done, tick)
}


/// The completion event of build `b` at `tick`.
pub open spec fn completion_event(cat: Catalogue, icons: [[i64; 4]; 3], b: ActiveProject, tick: u64) -> TraceEvent {
    let def = cat.projects@[b.project as int];
    TraceEvent {
        tick,
        kind: TraceKind::ProjectCompleted {
            project: def.id,
            lead: b.lead,
            bonus_permille: bonus_spec(def, icons[continent_index(b.lead)]) as i64,
        },
    }
}

/// A realised effect is the realised form of an authored one, and bounded.
pub open spec fn realized_matches(r: RealizedEffect, e: ScopedEffect, bonus: int) -> bool {
    &&& r.op == realize_op(e.op, bonus)
    &&& r.scope == e.scope
    &&& crate::state::realized_op_bounded(r.op)
}

/// What the completion step needs of a state in the middle of a tick.
pub open spec fn completion_room(cat: Catalogue, s: RunState) -> bool {
    &&& crate::state::catalogue_bounded(cat)
    &&& grid_within(s.icons, 0, crate::calc::ICON_MAX as int)
    &&& s.completions_ever@.len() == cat.projects@.len()
    &&& forall|p: int| 0 <= p < s.completions_ever@.len() ==> #[trigger] s.completions_ever@[p] + 2 * LIST_MAX <= u32::MAX
    &&& s.completed@.len() + s.active@.len() <= LIST_MAX
    &&& forall|k: int| 0 <= k < s.completed@.len() ==> crate::state::completed_bounded(cat, #[trigger] s.completed@[k])
    &&& forall|k: int| 0 <= k < s.active@.len() ==> (#[trigger] s.active@[k]).project < cat.projects@.len()
}

/// The open opportunities that outlive `tick`, in order.
pub open spec fn unexpired(opps: Seq<OpenOpportunity>, tick: u64) -> Seq<OpenOpportunity>
    decreases opps.len(),
{
    if opps.len() == 0 {
        seq![]
    } else if opps.last().expires <= tick {
        unexpired(opps.drop_last(), tick)
    } else {
        unexpired(opps.drop_last(), tick).push(opps.last())
    }
}

/// One expiry event per opportunity that expires at `tick`, in order.
pub open spec fn expired_events(cat: Catalogue, opps: Seq<OpenOpportunity>, tick: u64) -> Seq<TraceEvent>
    decreases opps.len(),
{
    if opps.len() == 0 {
        seq![]
    } else if opps.last().expires <= tick {
        expired_events(cat, opps.drop_last(), tick).push(
            TraceEvent {
                tick,
                kind: TraceKind::OpportunityExpired { id: cat.opportunities@[opps.last().def as int].id },
            },
        )
    } else {
        expired_events(cat, opps.drop_last(), tick)
    }
}

/// An opportunity spawns this tick: it is due and there is one to offer.
pub open spec fn spawns(cat: Catalogue, s: RunState, tick: u64) -> bool {
    tick >= s.next_opportunity_tick && cat.opportunities@.len() > 0
}

/// The opportunity step: expiry, then seeded spawning on schedule. Selection
/// draws the definition and then the continent from its own stream; timing
/// draws the next gap from another.
pub open spec fn opportunity_spec(cat: Catalogue, pre: RunState, post: RunState, tick: u64) -> bool {
    let kept = unexpired(pre.opportunities@, tick);
    let gone = expired_events(cat, pre.opportunities@, tick);
    if spawns(cat, pre, tick) {
        let sel = pre.streams.opportunity_selection;
        let d = bounded_draw(sel, cat.opportunities@.len() as u32).0;
        let sel1 = bounded_draw(sel, cat.opportunities@.len() as u32).1;
        let ci = bounded_draw(sel1, 3).0;
        let tim = pre.streams.opportunity_timing;
        let lo = cat.scenario.opportunity_gap_ticks.0;
        let hi = cat.scenario.opportunity_gap_ticks.1;
        let gap = lo + bounded_draw(tim, (hi - lo + 1) as u32).0;
        let open = OpenOpportunity {
            def: d as u32,
            continent: continent_at(ci as int),
            opened: tick,
            expires: (tick + cat.scenario.opportunity_lifetime_ticks) as u64,
        };
        &&& post == (RunState {
            opportunities: post.opportunities,
            streams: RngStreams {
                opportunity_selection: bounded_draw(sel1, 3).1,
                opportunity_timing: bounded_draw(tim, (hi - lo + 1) as u32).1,
                ..pre.streams
            },
            next_opportunity_tick: (tick + gap) as u64,
            trace: post.trace,
            ..pre
        })
        &&& post.opportunities@ == kept.push(open)
        &&& post.trace@ == pre.trace@ + gone + seq![
            TraceEvent {
                tick,
                kind: TraceKind::OpportunityOpened {
                    id: cat.opportunities@[d as int].id,
                    continent: continent_at(ci as int),
                },
            },
        ]
    } else {
        &&& post == (RunState { opportunities: post.opportunities, trace: post.trace, ..pre })
        &&& post.opportunities@ == kept
        &&& post.trace@ == pre.trace@ + gone
    }
}

proof fn lemma_unexpired_len(opps: Seq<OpenOpportunity>, tick: u64)
    ensures
        unexpired(opps, tick).len() <= opps.len(),
        forall|k: int| 0 <= k < unexpired(opps, tick).len() ==> exists|j: int| 0 <= j < opps.len() && #[trigger] unexpired(opps, tick)[k] == opps[j],
    decreases opps.len(),
{
    if opps.len() > 0 {
        lemma_unexpired_len(opps.drop_last(), tick);
        let u = unexpired(opps.drop_last(), tick);
        assert forall|k: int| 0 <= k < unexpired(opps, tick).len() implies exists|j: int| 0 <= j < opps.len() && #[trigger] unexpired(opps, tick)[k] == opps[j] by {
            if k < u.len() {
                let j = choose|j: int| 0 <= j < opps.drop_last().len() && #[trigger] u[k] == opps.drop_last()[j];
                assert(unexpired(opps, tick)[k] == u[k]);
                assert(opps[j] == opps.drop_last()[j]);
            } else {
                assert(unexpired(opps, tick)[k] == opps[opps.len() - 1]);
            }
        }
    }
}

/// The queue head's block was already reported.
pub open spec fn already_reported(last: Option<BlockReason>, reason: BlockReason) -> bool {
    match last {
        Some(r) => same_reason(r, reason),
        None => false,
    }
}

/// The build the queue head becomes when it starts at `tick`.
pub open spec fn started_build(cat: Catalogue, s: RunState, head: QueuedProject, tick: u64) -> ActiveProject {
    ActiveProject {
        project: head.project,
        lead: head.lead,
        started: tick,
        progress: 0,
        duration: duration_spec(cat, s, head.project as int) as u64,
    }
}

/// The queue step: the FIFO head starts if nothing blocks it, paying its full
/// costs upfront and rederiving; otherwise the queue stalls, tracing the
/// reason only when it changes. An empty queue clears the block.
pub open spec fn start_spec(cat: Catalogue, pre: RunState, post: RunState, tick: u64) -> bool {
    if pre.queue@.len() == 0 {
        post == (RunState { last_block: None, ..pre })
    } else {
        let head = pre.queue@[0];
        let p = head.project as int;
        let def = cat.projects@[p];
        match head_block_spec(cat, pre, head) {
            None => {
                &&& post.queue@ == pre.queue@.subrange(1, pre.queue@.len() as int)
                &&& post.active@ == pre.active@.push(started_build(cat, pre, head, tick))
                &&& derived_fields(
                    cat,
                    RunState {
                        finance_milli: (pre.finance_milli - cost_spec(cat, pre, p)) as i64,
                        mandate_milli: (pre.mandate_milli - def.mandate_cost * 1000) as i64,
                        queue: post.queue,
                        active: post.active,
                        last_block: None,
                        ..pre
                    },
                    post,
                )
                &&& post.trace@ == pre.trace@.push(
                    TraceEvent {
                        tick,
                        kind: TraceKind::ProjectStarted { project: def.id, lead: head.lead },
                    },
                ) + slot_events(pre.slots_total, post.slots_total, pre.tick)
            },
            Some(reason) => if already_reported(pre.last_block, reason) {
                post == pre
            } else {
                &&& post == (RunState { last_block: Some(reason), trace: post.trace, ..pre })
                &&& post.trace@ == pre.trace@.push(
                    TraceEvent { tick, kind: TraceKind::QueueBlocked { reason } },
                )
            },
        }
    }
}

/// What starting the queue head needs of the state it starts in.
pub open spec fn start_room(cat: Catalogue, s: RunState) -> bool {
    &&& s.completed@.len() + s.active@.len() < LIST_MAX
    &&& -8_900_000_000_000_000_000 <= s.finance_milli <= 8_900_000_000_000_000_000
    &&& -8_900_000_000_000_000_000 <= s.mandate_milli <= 8_900_000_000_000_000_000
    &&& s.queue@.len() > 0 ==> {
        let head = s.queue@[0];
        let p = head.project as int;
        &&& s.completions_ever@[p] + LIST_MAX <= u32::MAX
        &&& duration_spec(cat, s, p) <= DUR_MAX
        &&& head_reaches_cost(cat, s, head) ==> cost_fits(cat, s, p)
    }
}

/// Every build one tick further along.
pub open spec fn advanced(active: Seq<ActiveProject>) -> Seq<ActiveProject> {
    active.map_values(|b: ActiveProject| ActiveProject { progress: (b.progress + 1) as u64, ..b })
}

/// The accrual step: the clock advances, Finance and Mandate accrue at the
/// deltas derived last tick (Mandate capped at its maximum), and every build
/// progresses by one tick.
pub open spec fn accrue_spec(pre: RunState, post: RunState) -> bool {
    &&& post == (RunState {
        tick: (pre.tick + 1) as u64,
        finance_milli: (pre.finance_milli + pre.finance_delta_milli) as i64,
        mandate_milli: if pre.mandate_milli + pre.mandate_delta_milli <= pre.mandate_max_milli {
            (pre.mandate_milli + pre.mandate_delta_milli) as i64
        } else {
            pre.mandate_max_milli
        },
        active: post.active,
        ..pre
    })
    &&& post.active@ == advanced(pre.active@)
}

/// The victory step: the first tick the condition holds is recorded.
pub open spec fn victory_step(pre: RunState, post: RunState, tick: u64) -> bool {
    if pre.victory_tick is None && victory_spec(pre) {
        &&& post == (RunState { victory_tick: Some(tick), trace: post.trace, ..pre })
        &&& post.trace@ == pre.trace@.push(TraceEvent { tick, kind: TraceKind::VictoryReached })
    } else {
        post == pre
    }
}

/// One unpaused tick, step by step through the intermediate states.
pub open spec fn tick_chain(
    cat: Catalogue,
    pre: RunState,
    s1: RunState,
    s2: RunState,
    s3: RunState,
    s4: RunState,
    s5: RunState,
    post: RunState,
) -> bool {
    &&& accrue_spec(pre, s1)
    &&& complete_spec(cat, s1, s2, s1.tick)
    &&& rederived(cat, s2, s3)
    &&& opportunity_spec(cat, s3, s4, s1.tick)
    &&& start_spec(cat, s4, s5, s1.tick)
    &&& victory_step(s5, post, s1.tick)
}

/// One unpaused tick: the composition of its steps in the documented order.
pub open spec fn tick_spec(cat: Catalogue, pre: RunState, post: RunState) -> bool {
    exists|s1: RunState, s2: RunState, s3: RunState, s4: RunState, s5: RunState|
        #[trigger] tick_chain(cat, pre, s1, s2, s3, s4, s5, post)
}

/// The headroom an unpaused tick needs: the clock, stocks, lists and counts
/// have room for one more step, and the queue head's cost and duration fit
/// however this tick's completions move them.
pub open spec fn tick_headroom(cat: Catalogue, s: RunState) -> bool {
    &&& s.tick <= u64::MAX - 2 * MAG - 2
    &&& -8_800_000_000_000_000_000 <= s.finance_milli <= 8_800_000_000_000_000_000
    &&& -8_800_000_000_000_000_000 <= s.mandate_milli <= 8_800_000_000_000_000_000
    &&& s.completed@.len() + s.active@.len() < LIST_MAX
    &&& forall|p: int| 0 <= p < s.completions_ever@.len() ==> #[trigger] s.completions_ever@[p] + 2 * LIST_MAX <= u32::MAX
    &&& s.queue@.len() > 0 ==> head_headroom(cat, s, s.queue@[0].project as int)
}

/// However many of the active builds complete this tick, the cost and
/// duration of project `p` still fit: its external modifiers can move by at
/// most the swing the active builds' authored modifiers carry.
pub open spec fn head_headroom(cat: Catalogue, s: RunState, p: int) -> bool {
    let def = cat.projects@[p];
    let n = s.completions_ever@[p] as int;
    let ac = swing(cat, s.active@, Measure::CostModifier(def.id@));
    let ad = swing(cat, s.active@, Measure::DurationModifier(def.id@));
    let e = cost_external(cat, s, p);
    let d = duration_external(cat, s, p);
    &&& forall|j: int|
        0 <= j <= s.active@.len() ==> #[trigger] cost_fits_with(def, (n + j) as nat, e - ac)
            && cost_fits_with(def, (n + j) as nat, e + ac)
    &&& permille_of(def.duration_ticks as int, d + ad) <= DUR_MAX
}

pub open spec fn abs_int(x: int) -> int {
    if x < 0 {
        -x
    } else {
        x
    }
}

/// The total magnitude a list of authored effects, led on `lead`, adds to
/// measure `m`.
pub open spec fn abs_effects(effs: Seq<ScopedEffect>, lead: Continent, m: Measure) -> int
    decreases effs.len(),
{
    if effs.len() == 0 {
        0
    } else {
        abs_effects(effs.drop_last(), lead, m) + abs_int(
            effect_measure(m, effs.last().op, effs.last().scope, lead),
        )
    }
}

/// How far completing any of the builds in `active` can move measure `m`.
pub open spec fn swing(cat: Catalogue, active: Seq<ActiveProject>, m: Measure) -> int
    decreases active.len(),
{
    if active.len() == 0 {
        0
    } else {
        swing(cat, active.drop_last(), m) + abs_effects(
            cat.projects@[active.last().project as int].effects@,
            active.last().lead,
            m,
        )
    }
}

/// A modifier measure: what completions add to a project's cost or
/// duration modifiers.
pub open spec fn modifier_measure(m: Measure) -> bool {
    m is CostModifier || m is DurationModifier
}

proof fn lemma_abs_effects_nonneg(effs: Seq<ScopedEffect>, lead: Continent, m: Measure)
    ensures
        abs_effects(effs, lead, m) >= 0,
    decreases effs.len(),
{
    if effs.len() > 0 {
        lemma_abs_effects_nonneg(effs.drop_last(), lead, m);
    }
}

pub proof fn lemma_swing_nonneg(cat: Catalogue, active: Seq<ActiveProject>, m: Measure)
    ensures
        swing(cat, active, m) >= 0,
    decreases active.len(),
{
    if active.len() > 0 {
        lemma_swing_nonneg(cat, active.drop_last(), m);
        lemma_abs_effects_nonneg(cat.projects@[active.last().project as int].effects@, active.last().lead, m);
    }
}

/// A realised record adds to a modifier measure exactly what its authored
/// effects do, so at most their total magnitude.
proof fn lemma_record_within_swing(
    cat: Catalogue,
    icons: [[i64; 4]; 3],
    b: ActiveProject,
    tick: u64,
    rec: CompletedProject,
    m: Measure,
    j: int,
)
    requires
        completion_of(cat, icons, b, tick, rec),
        modifier_measure(m),
        0 <= j <= rec.realized@.len(),
    ensures
        -abs_effects(cat.projects@[b.project as int].effects@.take(j), b.lead, m) <= sum_effects(
            rec.realized@.take(j),
            rec.lead,
            m,
        ) <= abs_effects(cat.projects@[b.project as int].effects@.take(j), b.lead, m),
    decreases j,
{
    let effs = cat.projects@[b.project as int].effects@;
    if j > 0 {
        lemma_record_within_swing(cat, icons, b, tick, rec, m, j - 1);
        assert(rec.realized@.take(j).drop_last() =~= rec.realized@.take(j - 1));
        assert(effs.take(j).drop_last() =~= effs.take(j - 1));
        assert(rec.realized@.take(j).last() == rec.realized@[j - 1]);
        assert(effs.take(j).last() == effs[j - 1]);
    } else {
        assert(rec.realized@.take(0) =~= Seq::<RealizedEffect>::empty());
        assert(effs.take(0) =~= Seq::<ScopedEffect>::empty());
    }
}

/// New completion records move a modifier measure by at most the swing of
/// the builds they complete.
proof fn lemma_records_within_swing(
    cat: Catalogue,
    icons: [[i64; 4]; 3],
    done: Seq<ActiveProject>,
    tick: u64,
    recs: Seq<CompletedProject>,
    m: Measure,
)
    requires
        recs.len() == done.len(),
        forall|k: int| 0 <= k < done.len() ==> completion_of(cat, icons, done[k], tick, #[trigger] recs[k]),
        modifier_measure(m),
    ensures
        -swing(cat, done, m) <= crate::state::sum_completed(recs, m) <= swing(cat, done, m),
    decreases done.len(),
{
    if done.len() > 0 {
        let n = done.len() - 1;
        assert forall|k: int| 0 <= k < done.drop_last().len() implies completion_of(
            cat,
            icons,
            done.drop_last()[k],
            tick,
            #[trigger] recs.drop_last()[k],
        ) by {
            assert(completion_of(cat, icons, done[k], tick, recs[k]));
        }
        lemma_records_within_swing(cat, icons, done.drop_last(), tick, recs.drop_last(), m);
        assert(completion_of(cat, icons, done[n], tick, recs[n]));
        let rec = recs[n];
        lemma_record_within_swing(cat, icons, done[n], tick, rec, m, rec.realized@.len() as int);
        assert(rec.realized@.take(rec.realized@.len() as int) =~= rec.realized@);
        let effs = cat.projects@[done[n].project as int].effects@;
        assert(effs.take(effs.len() as int) =~= effs);
    }
}

/// The builds that finish are among those active, so they swing no more.
proof fn lemma_finished_swing(cat: Catalogue, active: Seq<ActiveProject>, m: Measure)
    ensures
        swing(cat, finished(active), m) <= swing(cat, active, m),
    decreases active.len(),
{
    if active.len() > 0 {
        lemma_finished_swing(cat, active.drop_last(), m);
        lemma_abs_effects_nonneg(cat.projects@[active.last().project as int].effects@, active.last().lead, m);
        if is_finished(active.last()) {
            assert(finished(active).drop_last() =~= finished(active.drop_last()));
        }
    }
}

/// Progress does not change which builds are active, so not their swing.
proof fn lemma_advanced_swing(cat: Catalogue, active: Seq<ActiveProject>, m: Measure)
    ensures
        swing(cat, advanced(active), m) == swing(cat, active, m),
    decreases active.len(),
{
    if active.len() > 0 {
        assert(advanced(active).drop_last() =~= advanced(active.drop_last()));
        lemma_advanced_swing(cat, active.drop_last(), m);
    }
}

proof fn lemma_sum_completed_append(
    a: Seq<CompletedProject>,
    b: Seq<CompletedProject>,
    m: crate::state::Measure,
)
    ensures
        crate::state::sum_completed(a + b, m) == crate::state::sum_completed(a, m)
            + crate::state::sum_completed(b, m),
    decreases b.len(),
{
    if b.len() > 0 {
        lemma_sum_completed_append(a, b.drop_last(), m);
        assert((a + b).drop_last() =~= a + b.drop_last());
        assert((a + b).last() == b.last());
    } else {
        assert(a + b =~= a);
    }
}

proof fn lemma_permille_fits_between(v: int, lo: int, hi: int, e: int)
    requires
        lo <= e <= hi,
        crate::calc::permille_fits(v, lo),
        crate::calc::permille_fits(v, hi),
    ensures
        crate::calc::permille_fits(v, e),
{
    if v >= 0 {
        assert(v * (1000 + lo) <= v * (1000 + e) <= v * (1000 + hi)) by (nonlinear_arith)
            requires
                v >= 0,
                lo <= e <= hi,
        ;
    } else {
        assert(v * (1000 + hi) <= v * (1000 + e) <= v * (1000 + lo)) by (nonlinear_arith)
            requires
                v < 0,
                lo <= e <= hi,
        ;
    }
}

proof fn lemma_cost_fits_between(def: crate::schema::ProjectDef, n: nat, lo: int, hi: int, e: int)
    requires
        lo <= e <= hi,
        cost_fits_with(def, n, lo),
        cost_fits_with(def, n, hi),
    ensures
        cost_fits_with(def, n, e),
{
    lemma_permille_fits_between(crate::sim::curved_cost(def, n), lo, hi, e);
}

proof fn lemma_permille_monotone(x: int, e1: int, e2: int)
    requires
        x >= 0,
        e1 <= e2,
        1000 + e1 >= 0,
    ensures
        permille_of(x, e1) <= permille_of(x, e2),
{
    assert(0 <= x * (1000 + e1) <= x * (1000 + e2)) by (nonlinear_arith)
        requires
            x >= 0,
            e1 <= e2,
            1000 + e1 >= 0,
    ;
    let a1 = x * (1000 + e1);
    let a2 = x * (1000 + e2);
    assert(a1 / 1000 <= a2 / 1000) by (nonlinear_arith)
        requires
            0 <= a1 <= a2,
    ;
}

proof fn lemma_permille_monotone_any(x: int, e1: int, e2: int)
    requires
        x >= 0,
        e1 <= e2,
    ensures
        permille_of(x, e1) <= permille_of(x, e2) || permille_of(x, e1) <= 0,
{
    if 1000 + e1 >= 0 {
        lemma_permille_monotone(x, e1, e2);
    } else {
        assert(x * (1000 + e1) <= 0) by (nonlinear_arith)
            requires
                x >= 0,
                1000 + e1 < 0,
        ;
    }
}

/// The builds still under construction after one more tick of progress are
/// bounded builds.
proof fn lemma_unfinished_bounded(cat: Catalogue, active: Seq<ActiveProject>)
    requires
        forall|k: int| 0 <= k < active.len() ==> crate::state::active_bounded(cat, #[trigger] active[k]),
    ensures
        forall|k: int| 0 <= k < unfinished(advanced(active)).len() ==> crate::state::active_bounded(cat, #[trigger] unfinished(advanced(active))[k]),
    decreases active.len(),
{
    if active.len() > 0 {
        let rest = active.drop_last();
        assert forall|k: int| 0 <= k < rest.len() implies crate::state::active_bounded(cat, #[trigger] rest[k]) by {
            assert(rest[k] == active[k]);
        }
        lemma_unfinished_bounded(cat, rest);
        let adv = advanced(active);
        assert(adv.drop_last() =~= advanced(rest));
        let l = ActiveProject { progress: (active.last().progress + 1) as u64, ..active.last() };
        assert(adv.last() == l);
        assert(crate::state::active_bounded(cat, active[active.len() - 1]));
        let u = unfinished(advanced(rest));
        if is_finished(l) {
            assert(unfinished(adv) == u);
        } else {
            assert(unfinished(adv) == u.push(l));
            assert forall|k: int| 0 <= k < unfinished(adv).len() implies crate::state::active_bounded(cat, #[trigger] unfinished(adv)[k]) by {
                if k < u.len() {
                    assert(unfinished(adv)[k] == u[k]);
                } else {
                    assert(unfinished(adv)[k] == l);
                }
            }
        }
    }
}

proof fn lemma_split_lengths(s: Seq<ActiveProject>)
    ensures
        finished(s).len() + unfinished(s).len() == s.len(),
    decreases s.len(),
{
    if s.len() > 0 {
        lemma_split_lengths(s.drop_last());
    }
}

pub proof fn lemma_count_nonneg(s: Seq<ActiveProject>, p: u32)
    ensures
        0 <= count_active_of(s, p),
{
    lemma_count_le(s, p);
}

proof fn lemma_count_le(s: Seq<ActiveProject>, p: u32)
    ensures
        0 <= count_active_of(s, p) <= s.len(),
    decreases s.len(),
{
    if s.len() > 0 {
        lemma_count_le(s.drop_last(), p);
    }
}

/// What the steps before the queue step leave untouched or bound.
proof fn lemma_chain_frame(
    cat: Catalogue,
    pre: RunState,
    s1: RunState,
    s2: RunState,
    s3: RunState,
    s4: RunState,
)
    requires
        state_wf(cat, pre),
        tick_headroom(cat, pre),
        state_wf(cat, s3),
        accrue_spec(pre, s1),
        complete_spec(cat, s1, s2, s1.tick),
        rederived(cat, s2, s3),
        opportunity_spec(cat, s3, s4, s1.tick),
    ensures
        s4.completed == s2.completed,
        s4.completions_ever == s2.completions_ever,
        s4.queue == pre.queue,
        s4.active == s2.active,
        s1.active@ == advanced(pre.active@),
        s2.active@ == unfinished(s1.active@),
        s2.completed@.len() == pre.completed@.len() + finished(s1.active@).len(),
        s2.completed@.take(pre.completed@.len() as int) == pre.completed@,
        forall|k: int|
            0 <= k < finished(s1.active@).len() ==> completion_of(
                cat,
                s1.icons,
                finished(s1.active@)[k],
                s1.tick,
                #[trigger] s2.completed@[pre.completed@.len() + k],
            ),
        s2.completions_ever@.len() == pre.completions_ever@.len(),
        forall|p: int|
            0 <= p < pre.completions_ever@.len() ==> #[trigger] s2.completions_ever@[p]
                == pre.completions_ever@[p] + count_active_of(finished(s1.active@), p as u32),
        -8_900_000_000_000_000_000 <= s4.finance_milli <= 8_900_000_000_000_000_000,
        -8_900_000_000_000_000_000 <= s4.mandate_milli <= 8_900_000_000_000_000_000,
{
    assert(s1.completed == pre.completed);
    assert(s1.completions_ever == pre.completions_ever);
    assert(s3.finance_milli == s2.finance_milli);
}

/// The state the queue step sees has room to start its head, given the
/// headroom the tick began with and what this tick's completions added.
#[verifier::rlimit(40)]
proof fn lemma_start_room(
    cat: Catalogue,
    pre: RunState,
    s4: RunState,
    fin: Seq<ActiveProject>,
    icons: [[i64; 4]; 3],
    tick: u64,
)
    requires
        state_wf(cat, pre),
        tick_headroom(cat, pre),
        fin == finished(advanced(pre.active@)),
        fin.len() <= pre.active@.len(),
        s4.completed@.len() + s4.active@.len() == pre.completed@.len() + pre.active@.len(),
        s4.completed@.len() == pre.completed@.len() + fin.len(),
        s4.completed@.take(pre.completed@.len() as int) == pre.completed@,
        forall|k: int|
            0 <= k < fin.len() ==> completion_of(
                cat,
                icons,
                fin[k],
                tick,
                #[trigger] s4.completed@[pre.completed@.len() + k],
            ),
        forall|k: int| 0 <= k < s4.completed@.len() ==> crate::state::completed_bounded(cat, #[trigger] s4.completed@[k]),
        s4.queue == pre.queue,
        s4.completions_ever@.len() == pre.completions_ever@.len(),
        forall|p: int|
            0 <= p < pre.completions_ever@.len() ==> #[trigger] s4.completions_ever@[p]
                == pre.completions_ever@[p] + count_active_of(fin, p as u32),
        -8_900_000_000_000_000_000 <= s4.finance_milli <= 8_900_000_000_000_000_000,
        -8_900_000_000_000_000_000 <= s4.mandate_milli <= 8_900_000_000_000_000_000,
    ensures
        start_room(cat, s4),
{
    if s4.queue@.len() > 0 {
        let head = s4.queue@[0];
        let p = head.project as int;
        let def = cat.projects@[p];
        assert(p < cat.projects@.len());
        lemma_count_le(fin, head.project);
        let j = count_active_of(fin, head.project);
        assert(s4.completions_ever@[p] == pre.completions_ever@[p] + j);
        let mc = Measure::CostModifier(def.id@);
        let md = Measure::DurationModifier(def.id@);
        let n0 = pre.completed@.len() as int;
        let new = s4.completed@.skip(n0);
        assert(s4.completed@ =~= pre.completed@ + new);
        assert forall|k: int| 0 <= k < fin.len() implies completion_of(cat, icons, fin[k], tick, #[trigger] new[k]) by {
            assert(new[k] == s4.completed@[n0 + k]);
        }
        lemma_sum_completed_append(pre.completed@, new, mc);
        lemma_sum_completed_append(pre.completed@, new, md);
        lemma_records_within_swing(cat, icons, fin, tick, new, mc);
        lemma_records_within_swing(cat, icons, fin, tick, new, md);
        lemma_finished_swing(cat, advanced(pre.active@), mc);
        lemma_finished_swing(cat, advanced(pre.active@), md);
        lemma_advanced_swing(cat, pre.active@, mc);
        lemma_advanced_swing(cat, pre.active@, md);
        let ac = swing(cat, pre.active@, mc);
        let ad = swing(cat, pre.active@, md);
        let e = cost_external(cat, pre, p);
        let e4 = cost_external(cat, s4, p);
        assert(e - ac <= e4 <= e + ac);
        assert(head_headroom(cat, pre, p));
        assert(cost_fits_with(def, (pre.completions_ever@[p] + j) as nat, e - ac)
            && cost_fits_with(def, (pre.completions_ever@[p] + j) as nat, e + ac));
        lemma_cost_fits_between(def, (pre.completions_ever@[p] + j) as nat, e - ac, e + ac, e4);
        let d = duration_external(cat, pre, p);
        let d4 = duration_external(cat, s4, p);
        assert(d4 <= d + ad);
        assert(def_bounded(def));
        lemma_permille_monotone_any(def.duration_ticks as int, d4, d + ad);
    }
}

/// Realise a project's authored effects at a bonus: reductions scale by the
/// bonus, everything else is kept as authored. Completions and previews share
/// this one path.
pub fn realize_effects(def: &ProjectDef, bonus_permille: i64) -> (r: Vec<RealizedEffect>)
    requires
        def_bounded(*def),
        -64 * MAG <= bonus_permille <= 64 * MAG,
    ensures
        r@.len() == def.effects@.len(),
        forall|j: int|
            0 <= j < def.effects@.len() ==> realized_matches(#[trigger] r@[j], def.effects@[j], bonus_permille as int),
{
    let ghost b = bonus_permille as int;
    let mut realized: Vec<RealizedEffect> = Vec::new();
    let mut k: usize = 0;
    while k < def.effects.len()
        invariant
            k <= def.effects@.len(),
            def_bounded(*def),
            b == bonus_permille,
            -64 * MAG <= b <= 64 * MAG,
            realized@.len() == k,
            forall|j: int|
                0 <= j < k ==> realized_matches(#[trigger] realized@[j], def.effects@[j], b),
        decreases def.effects@.len() - k,
    {
        let effect = &def.effects[k];
        assert(crate::state::op_bounded(effect.op));
        let op = match &effect.op {
            EffectOp::ReduceSectorEmissions { sector, milli_gt } => {
                proof {
                    lemma_scaled_bound_pub(*milli_gt as int, b);
                }
                EffectOp::ReduceSectorEmissions {
                    sector: *sector,
                    milli_gt: apply_permille(*milli_gt, bonus_permille),
                }
            },
            other => other.duplicate(),
        };
        realized.push(RealizedEffect { op, scope: effect.scope });
        k = k + 1;
    }
    realized
}

impl Sim {
    /// Accrue Finance and Mandate and advance construction by one tick.
    fn accrue_and_advance(&mut self)
        requires
            old(self).wf(),
            tick_headroom(old(self).cat(), old(self).state),
        ensures
            final(self).catalogue == old(self).catalogue,
            final(self).log == old(self).log,
            accrue_spec(old(self).state, final(self).state),
            completion_room(old(self).cat(), final(self).state),
    {
        let ghost pre = self.state;
        let finance = self.state.finance_milli + self.state.finance_delta_milli;
        let mandate = self.state.mandate_milli + self.state.mandate_delta_milli;
        let mandate = if mandate <= self.state.mandate_max_milli {
            mandate
        } else {
            self.state.mandate_max_milli
        };
        let mut k: usize = 0;
        while k < self.state.active.len()
            invariant
                k <= self.state.active@.len(),
                self.state.active@.len() == pre.active@.len(),
                state_wf(self.cat(), pre),
                self.catalogue == old(self).catalogue,
                self.log == old(self).log,
                self.state == (RunState { active: self.state.active, ..pre }),
                forall|j: int|
                    0 <= j < pre.active@.len() ==> #[trigger] self.state.active@[j] == if j < k {
                        ActiveProject { progress: (pre.active@[j].progress + 1) as u64, ..pre.active@[j] }
                    } else {
                        pre.active@[j]
                    },
            decreases pre.active@.len() - k,
        {
            let mut build = self.state.active[k];
            assert(crate::state::active_bounded(self.cat(), pre.active@[k as int]));
            build.progress = build.progress + 1;
            self.state.active.set(k, build);
            k = k + 1;
        }
        self.state.tick = self.state.tick + 1;
        self.state.finance_milli = finance;
        self.state.mandate_milli = mandate;
        assert(self.state.active@ =~= advanced(pre.active@));
        assert forall|j: int| 0 <= j < self.state.active@.len() implies (#[trigger] self.state.active@[j]).project < self.cat().projects@.len() by {
            assert(crate::state::active_bounded(self.cat(), pre.active@[j]));
        }
    }

    /// Advance one tick. While paused this is a pure no-op: the tick counter
    /// (also the ranked time) does not advance and nothing accrues.
    pub fn tick(&mut self)
        requires
            old(self).wf(),
            !old(self).state.paused ==> tick_headroom(old(self).cat(), old(self).state),
        ensures
            final(self).wf(),
            final(self).catalogue == old(self).catalogue,
            final(self).log == old(self).log,
            old(self).state.paused ==> final(self).state == old(self).state,
            !old(self).state.paused ==> tick_spec(old(self).cat(), old(self).state, final(self).state),
            !old(self).state.paused ==> final(self).state.tick == old(self).state.tick + 1,
    {
        if self.state.paused {
            return;
        }
        let ghost cat = self.cat();
        let ghost pre = self.state;
        self.accrue_and_advance();
        let ghost s1 = self.state;
        let tick = self.state.tick;

        // Complete eligible projects, locking in realised effects with the
        // icons as derived at the end of the previous tick.
        self.complete_eligible(tick);
        let ghost s2 = self.state;
        proof {
            lemma_split_lengths(s1.active@);
            lemma_unfinished_bounded(cat, pre.active@);
            assert forall|k: int| 0 <= k < s2.active@.len() implies crate::state::active_bounded(cat, #[trigger] s2.active@[k]) by {}
            assert(state_wf(cat, s2));
        }

        // Rederive: icons, partial rollouts, unlocks, milestones, deltas.
        self.rederive();
        let ghost s3 = self.state;

        // Opportunities: expiry, then seeded spawning.
        self.opportunity_step(tick);
        let ghost s4 = self.state;
        proof {
            lemma_chain_frame(cat, pre, s1, s2, s3, s4);
            lemma_split_lengths(s1.active@);
            lemma_start_room(cat, pre, s4, finished(s1.active@), s1.icons, s1.tick);
            assert(state_wf(cat, s4));
        }

        // Attempt the FIFO queue head, rederiving if it starts.
        self.try_start_head(tick);
        let ghost s5 = self.state;

        // Victory.
        if self.state.victory_tick.is_none() && self.state.victory_condition_met() {
            self.state.victory_tick = Some(tick);
            self.state.trace.push(TraceEvent { tick, kind: TraceKind::VictoryReached });
        }
        assert(tick_chain(cat, pre, s1, s2, s3, s4, s5, self.state));
    }

    /// Attempt the FIFO queue head.
    fn try_start_head(&mut self, tick: u64)
        requires
            old(self).wf(),
            start_room(old(self).cat(), old(self).state),
        ensures
            final(self).wf(),
            final(self).catalogue == old(self).catalogue,
            final(self).log == old(self).log,
            start_spec(old(self).cat(), old(self).state, final(self).state, tick),
    {
        if self.state.queue.len() == 0 {
            self.state.last_block = None;
            return;
        }
        let head = self.state.queue[0];
        assert(head.project < self.cat().projects@.len());
        match self.head_block(head) {
            None => {
                let ghost pre = self.state;
                let (cost_milli, _) = self.current_cost_milli(head.project as usize, head.lead);
                proof {
                    crate::sim::lemma_cost_magnitude(self.cat(), self.state, head.project as int);
                }
                let def = &self.catalogue.projects[head.project as usize];
                assert(def_bounded(*def));
                let duration = self.current_duration(head.project as usize);
                self.state.finance_milli = self.state.finance_milli - cost_milli;
                self.state.mandate_milli = self.state.mandate_milli - def.mandate_cost * 1000;
                self.state.queue.remove(0);
                self.state.active.push(
                    ActiveProject {
                        project: head.project,
                        lead: head.lead,
                        started: tick,
                        progress: 0,
                        duration,
                    },
                );
                self.state.last_block = None;
                self.state.trace.push(
                    TraceEvent {
                        tick,
                        kind: TraceKind::ProjectStarted { project: def.id.clone(), lead: head.lead },
                    },
                );
                let ghost mid = self.state;
                assert(self.state.queue@ =~= pre.queue@.subrange(1, pre.queue@.len() as int));
                assert forall|k: int| 0 <= k < self.state.queue@.len() implies (#[trigger] self.state.queue@[k]).project < self.cat().projects@.len() by {
                    assert(self.state.queue@[k] == pre.queue@[k + 1]);
                }
                assert forall|k: int| 0 <= k < self.state.active@.len() implies crate::state::active_bounded(self.cat(), #[trigger] self.state.active@[k]) by {
                    if k < pre.active@.len() { assert(self.state.active@[k] == pre.active@[k]); }
                }
                self.rederive();
                assert((RunState {
                    finance_milli: (pre.finance_milli - cost_spec(self.cat(), pre, head.project as int)) as i64,
                    mandate_milli: (pre.mandate_milli - def.mandate_cost * 1000) as i64,
                    queue: self.state.queue,
                    active: self.state.active,
                    last_block: None,
                    ..pre
                }) == (RunState { trace: pre.trace, ..mid }));
            },
            Some(reason) => {
                let reported = match &self.state.last_block {
                    Some(r) => r.same_as(&reason),
                    None => false,
                };
                if !reported {
                    self.state.trace.push(
                        TraceEvent { tick, kind: TraceKind::QueueBlocked { reason: reason.duplicate() } },
                    );
                    self.state.last_block = Some(reason);
                }
            },
        }
    }

    /// Expire opportunities, then spawn one on schedule.
    fn opportunity_step(&mut self, tick: u64)
        requires
            crate::state::catalogue_bounded(old(self).cat()),
            forall|k: int| 0 <= k < old(self).state.opportunities@.len() ==> (#[trigger] old(self).state.opportunities@[k]).def < old(self).cat().opportunities@.len(),
            tick <= u64::MAX - 2 * MAG,
        ensures
            final(self).catalogue == old(self).catalogue,
            final(self).log == old(self).log,
            opportunity_spec(old(self).cat(), old(self).state, final(self).state, tick),
            forall|k: int| 0 <= k < final(self).state.opportunities@.len() ==> (#[trigger] final(self).state.opportunities@[k]).def < old(self).cat().opportunities@.len(),
    {
        let ghost pre = self.state;
        let ghost cat = self.cat();
        let mut kept: Vec<OpenOpportunity> = Vec::new();
        let mut k: usize = 0;
        assert(pre.opportunities@.take(0) =~= Seq::<OpenOpportunity>::empty());
        assert(self.state.trace@ =~= pre.trace@ + expired_events(cat, pre.opportunities@.take(0), tick));
        while k < self.state.opportunities.len()
            invariant
                cat == self.cat(),
                self.catalogue == old(self).catalogue,
                self.log == old(self).log,
                self.state == (RunState { trace: self.state.trace, ..pre }),
                k <= pre.opportunities@.len(),
                forall|j: int| 0 <= j < pre.opportunities@.len() ==> (#[trigger] pre.opportunities@[j]).def < cat.opportunities@.len(),
                kept@ == unexpired(pre.opportunities@.take(k as int), tick),
                self.state.trace@ == pre.trace@ + expired_events(cat, pre.opportunities@.take(k as int), tick),
            decreases pre.opportunities@.len() - k,
        {
            let open = self.state.opportunities[k];
            assert(pre.opportunities@.take(k as int + 1).drop_last() =~= pre.opportunities@.take(k as int));
            assert(pre.opportunities@.take(k as int + 1).last() == open);
            if open.expires <= tick {
                let id = self.catalogue.opportunities[open.def as usize].id.clone();
                self.state.trace.push(TraceEvent { tick, kind: TraceKind::OpportunityExpired { id } });
            } else {
                kept.push(open);
            }
            k = k + 1;
        }
        assert(pre.opportunities@.take(pre.opportunities@.len() as int) =~= pre.opportunities@);
        proof {
            lemma_unexpired_len(pre.opportunities@, tick);
        }
        self.state.opportunities = kept;
        let ghost after_expiry = self.state;
        assert forall|j: int| 0 <= j < self.state.opportunities@.len() implies (#[trigger] self.state.opportunities@[j]).def < cat.opportunities@.len() by {
            let w = choose|w: int| 0 <= w < pre.opportunities@.len() && #[trigger] unexpired(pre.opportunities@, tick)[j] == pre.opportunities@[w];
        }

        // Spawn on schedule: selection and timing use their own streams.
        if tick >= self.state.next_opportunity_tick && self.catalogue.opportunities.len() > 0 {
            let count = self.catalogue.opportunities.len();
            let def_index = self.state.streams.opportunity_selection.pick(count);
            let continent_pick = self.state.streams.opportunity_selection.pick(3);
            let continent = Continent::ALL[continent_pick];
            let lifetime = self.catalogue.scenario.opportunity_lifetime_ticks;
            self.state.opportunities.push(
                OpenOpportunity {
                    def: def_index as u32,
                    continent,
                    opened: tick,
                    expires: tick + lifetime,
                },
            );
            let lo = self.catalogue.scenario.opportunity_gap_ticks.0;
            let hi = self.catalogue.scenario.opportunity_gap_ticks.1;
            let gap = self.state.streams.opportunity_timing.range_u64(lo, hi);
            self.state.next_opportunity_tick = tick + gap;
            let id = self.catalogue.opportunities[def_index].id.clone();
            self.state.trace.push(TraceEvent { tick, kind: TraceKind::OpportunityOpened { id, continent } });
            assert(continent == continent_at(continent_pick as int));
            assert(self.state.trace@ =~= pre.trace@ + expired_events(cat, pre.opportunities@, tick) + seq![
                TraceEvent { tick, kind: TraceKind::OpportunityOpened { id: cat.opportunities@[def_index as int].id, continent } },
            ]);
        }
    }

    /// Complete every finished build, in order, keeping the rest in place.
    #[verifier::rlimit(40)]
    fn complete_eligible(&mut self, tick: u64)
        requires
            completion_room(old(self).cat(), old(self).state),
        ensures
            final(self).catalogue == old(self).catalogue,
            final(self).log == old(self).log,
            complete_spec(old(self).cat(), old(self).state, final(self).state, tick),
            forall|p: int| 0 <= p < final(self).state.completions_ever@.len() ==> #[trigger] final(self).state.completions_ever@[p] + LIST_MAX <= u32::MAX,
            final(self).state.completed@.len() + final(self).state.active@.len() <= LIST_MAX,
            forall|k: int| 0 <= k < final(self).state.completed@.len() ==> crate::state::completed_bounded(old(self).cat(), #[trigger] final(self).state.completed@[k]),
    {
        let ghost orig = self.state.active@;
        let ghost pre = self.state;
        let ghost cat = self.cat();
        let mut index: usize = 0;
        let ghost mut i: int = 0;
        assert(orig.take(0) =~= Seq::<ActiveProject>::empty());
        assert(orig.skip(0) =~= orig);
        assert(self.state.active@ =~= unfinished(orig.take(0)) + orig.skip(0));
        assert(self.state.completed@.take(pre.completed@.len() as int) =~= pre.completed@);
        assert(self.state.trace@ =~= pre.trace@ + completion_events(cat, pre.icons, finished(orig.take(0)), tick));
        while index < self.state.active.len()
            invariant
                cat == self.cat(),
                self.catalogue == old(self).catalogue,
                self.log == old(self).log,
                0 <= i <= orig.len(),
                orig == pre.active@,
                completion_room(cat, pre),
                self.state.active@ == unfinished(orig.take(i)) + orig.skip(i),
                index == unfinished(orig.take(i)).len(),
                self.state == (RunState {
                    active: self.state.active,
                    completed: self.state.completed,
                    completions_ever: self.state.completions_ever,
                    trace: self.state.trace,
                    ..pre
                }),
                self.state.completed@.len() == pre.completed@.len() + finished(orig.take(i)).len(),
                self.state.completed@.take(pre.completed@.len() as int) == pre.completed@,
                forall|k: int|
                    0 <= k < finished(orig.take(i)).len() ==> completion_of(
                        cat,
                        pre.icons,
                        finished(orig.take(i))[k],
                        tick,
                        #[trigger] self.state.completed@[pre.completed@.len() + k],
                    ),
                self.state.completions_ever@.len() == pre.completions_ever@.len(),
                forall|p: int|
                    0 <= p < pre.completions_ever@.len() ==> #[trigger] self.state.completions_ever@[p]
                        == pre.completions_ever@[p] + count_active_of(finished(orig.take(i)), p as u32),
                self.state.trace@ == pre.trace@ + completion_events(cat, pre.icons, finished(orig.take(i)), tick),
                forall|k: int| 0 <= k < self.state.completed@.len() ==> crate::state::completed_bounded(cat, #[trigger] self.state.completed@[k]),
            decreases self.state.active@.len() - index,
        {
            proof {
                lemma_split_lengths(orig.take(i));
                assert(i < orig.len());
                assert(self.state.active@[index as int] == orig[i]);
                assert(orig.take(i + 1).drop_last() =~= orig.take(i));
                assert(orig.take(i + 1).last() == orig[i]);
            }
            if self.state.active[index].progress >= self.state.active[index].duration {
                let build = self.state.active.remove(index);
                proof {
                    lemma_count_le(finished(orig.take(i)), build.project);
                    lemma_split_lengths(orig);
                    assert(finished(orig.take(i + 1)) == finished(orig.take(i)).push(build));
                    assert(self.state.active@ =~= unfinished(orig.take(i + 1)) + orig.skip(i + 1));
                }
                let ghost before = self.state;
                self.complete(build, tick);
                proof {
                    let f = finished(orig.take(i + 1));
                    assert forall|k: int| 0 <= k < f.len() implies completion_of(
                        cat,
                        pre.icons,
                        f[k],
                        tick,
                        #[trigger] self.state.completed@[pre.completed@.len() + k],
                    ) by {
                        if k < f.len() - 1 {
                            assert(self.state.completed@[pre.completed@.len() + k] == before.completed@[pre.completed@.len() + k]);
                            assert(f[k] == finished(orig.take(i))[k]);
                        }
                    }
                    assert(self.state.completed@.take(pre.completed@.len() as int) =~= pre.completed@);
                    assert forall|k: int| 0 <= k < self.state.completed@.len() implies crate::state::completed_bounded(cat, #[trigger] self.state.completed@[k]) by {
                        if k < self.state.completed@.len() - 1 {
                            assert(self.state.completed@[k] == before.completed@[k]);
                        }
                    }
                    assert(f.drop_last() =~= finished(orig.take(i)));
                    assert(f.last() == build);
                    assert(completion_events(cat, pre.icons, f, tick) == completion_events(cat, pre.icons, finished(orig.take(i)), tick).push(completion_event(cat, pre.icons, build, tick)));
                    assert(self.state.trace@ =~= pre.trace@ + completion_events(cat, pre.icons, f, tick));
                }
            } else {
                proof {
                    assert(finished(orig.take(i + 1)) == finished(orig.take(i)));
                    assert(unfinished(orig.take(i + 1)) == unfinished(orig.take(i)).push(orig[i]));
                    assert(self.state.active@ =~= unfinished(orig.take(i + 1)) + orig.skip(i + 1));
                }
                index = index + 1;
            }
            proof {
                i = i + 1;
            }
        }
        proof {
            lemma_split_lengths(orig.take(i));
            assert(i == orig.len());
            assert(orig.take(i) =~= orig);
            assert(self.state.active@ =~= unfinished(orig));
            lemma_split_lengths(orig);
            assert forall|p: int| 0 <= p < self.state.completions_ever@.len() implies #[trigger] self.state.completions_ever@[p] + LIST_MAX <= u32::MAX by {
                lemma_count_le(finished(orig), p as u32);
            }
        }
    }

    /// Record one finished build as completed, locking in its realised
    /// effects with the icons as they stand.
    fn complete(&mut self, build: ActiveProject, tick: u64)
        requires
            crate::state::catalogue_bounded(old(self).cat()),
            grid_within(old(self).state.icons, 0, crate::calc::ICON_MAX as int),
            old(self).state.completions_ever@.len() == old(self).cat().projects@.len(),
            build.project < old(self).cat().projects@.len(),
            old(self).state.completed@.len() < LIST_MAX,
            old(self).state.completions_ever@[build.project as int] < u32::MAX,
        ensures
            final(self).catalogue == old(self).catalogue,
            final(self).log == old(self).log,
            final(self).state == (RunState {
                completed: final(self).state.completed,
                completions_ever: final(self).state.completions_ever,
                trace: final(self).state.trace,
                ..old(self).state
            }),
            final(self).state.completed@.len() == old(self).state.completed@.len() + 1,
            final(self).state.completed@.take(old(self).state.completed@.len() as int)
                == old(self).state.completed@,
            completion_of(
                old(self).cat(),
                old(self).state.icons,
                build,
                tick,
                final(self).state.completed@.last(),
            ),
            final(self).state.completions_ever@ == old(self).state.completions_ever@.update(
                build.project as int,
                (old(self).state.completions_ever@[build.project as int] + 1) as u32,
            ),
            final(self).state.trace@ == old(self).state.trace@.push(
                completion_event(old(self).cat(), old(self).state.icons, build, tick),
            ),
            crate::state::completed_bounded(old(self).cat(), final(self).state.completed@.last()),
    {
        let def = &self.catalogue.projects[build.project as usize];
        assert(def_bounded(*def));
        assert(row_bounded(self.state.icons[continent_index(build.lead)]));
        proof {
            crate::calc::lemma_bounded_bonus_fits(*def, self.state.icons[continent_index(build.lead)]);
        }
        let bonus = reduction_bonus(def, build.lead, &self.state.icons);
        proof {
            lemma_bonus_bounds(*def, self.state.icons[continent_index(build.lead)]);
        }
        let realized = realize_effects(def, bonus.bonus_permille);

        let p = build.project as usize;
        let count = self.state.completions_ever[p];
        self.state.completions_ever.set(p, count + 1);
        self.state.completed.push(
            CompletedProject {
                project: build.project,
                lead: build.lead,
                tick,
                realized,
                bonus_permille: bonus.bonus_permille,
            },
        );
        self.state.trace.push(
            TraceEvent {
                tick,
                kind: TraceKind::ProjectCompleted {
                    project: def.id.clone(),
                    lead: build.lead,
                    bonus_permille: bonus.bonus_permille,
                },
            },
        );
        assert(self.state.completed@.take(old(self).state.completed@.len() as int) =~= old(self).state.completed@);
    }
}

} // verus!
