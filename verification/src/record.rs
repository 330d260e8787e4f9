//! Run records and replay validation. A run's record is its versions,
//! scenario and seed, the ordered command log (accepted and rejected), and a
//! ledger of periodic state digests. Validation refuses a record written
//! against other versions outright, replays the log on a fresh run, and
//! checks every periodic digest and the final one.
//!
//! A digest is FNV-1a 64 over the serialized bytes of the run state without
//! its trace; the caller serializes, and hands the bytes or the digest in.

use vstd::prelude::*;

use crate::catalogue::Catalogue;
use crate::command::{Command, LoggedCommand, Rejection};
use crate::hash::{fnv1a64, fnv1a_spec};
use crate::init::opening;
use crate::sim::{apply_spec, command_fits, logged, rederived, Sim, RULESET_VERSION};
use crate::state::{catalogue_bounded, RunState};
use crate::text::{owned, str_eq};

verus! {

/// The record format. Bumped by hand when the shape of a record changes.
pub const RECORD_FORMAT: u32 = 1;

/// What a record was written against.
#[derive(Debug, Clone, PartialEq, Eq)]
pub struct Versions {
    pub format: u32,
    pub rules: String,
    pub content: u64,
}

impl Versions {
    pub fn new(format: u32, rules: &str, content: u64) -> (r: Versions)
        ensures
            r.format == format,
            r.rules@ == rules@,
            r.content == content,
    {
        Versions { format, rules: owned(rules), content }
    }
}

/// What this build is: the record format, the ruleset, and the content.
pub fn versions(catalogue: &Catalogue) -> (r: Versions)
    ensures
        r.format == RECORD_FORMAT,
        r.rules@ == RULESET_VERSION@,
        r.content == catalogue.content_version,
{
    Versions::new(RECORD_FORMAT, RULESET_VERSION, catalogue.content_version)
}

/// The state digest at one sampled tick.
#[derive(Debug, Clone, Copy, PartialEq, Eq, Structural)]
pub struct Sample {
    pub tick: u64,
    pub digest: u64,
}

/// The periodic digests of a run and its final digest.
#[derive(Debug, Clone, PartialEq, Eq)]
pub struct Ledger {
    pub every: u64,
    pub samples: Vec<Sample>,
    pub final_tick: u64,
    pub final_digest: u64,
}

/// Which version dimension moved between a record and this build.
#[derive(Debug, Clone, PartialEq, Eq)]
pub enum Moved {
    Format { recorded: u32, current: u32 },
    Rules { recorded: String, current: String },
    Content { recorded: u64, current: u64 },
}

/// Why a replay did not go the way the record says it went. Every variant
/// is a disagreement between two builds about the same log.
#[derive(Debug, Clone, PartialEq, Eq)]
pub enum Divergence {
    /// The record says this command was accepted; this build refused it.
    UnexpectedRejection(Rejection),
    /// The record says this command was refused; this build accepted it.
    UnexpectedAcceptance,
    /// The run could not reach the tick the command was recorded at: it is
    /// paused, and the record expects time to have passed.
    Stalled { stuck_at: u64, wanted: u64 },
}

/// The outcome of validating a record.
#[derive(Debug, Clone, PartialEq, Eq)]
pub enum Verdict {
    /// The replay reproduced every digest.
    Reproduced,
    /// The record was written against other versions; nothing was replayed.
    Refused(Moved),
    /// The replay went elsewhere: at a sampled tick, at a command, or (with
    /// no tick) only at the end.
    Diverged { at_tick: Option<u64>, cause: Option<Divergence> },
}

/// A run's authoritative record.
#[derive(Debug, Clone)]
pub struct RunRecord {
    pub versions: Versions,
    pub scenario: String,
    pub seed: u64,
    pub commands: Vec<LoggedCommand>,
    pub ledger: Ledger,
}

/// FNV-1a 64 over a state's serialized bytes.
pub fn digest_bytes(bytes: &[u8]) -> (r: u64)
    ensures
        r == fnv1a_spec(bytes@),
{
    fnv1a64(bytes)
}

// ------------------------------------------------------------ version gate

/// The first version dimension that moved: format, then rules, then content.
pub open spec fn moved_spec(recorded: Versions, current: Versions) -> Option<Moved> {
    if recorded.format != current.format {
        Some(Moved::Format { recorded: recorded.format, current: current.format })
    } else if recorded.rules@ != current.rules@ {
        Some(Moved::Rules { recorded: recorded.rules, current: current.rules })
    } else if recorded.content != current.content {
        Some(Moved::Content { recorded: recorded.content, current: current.content })
    } else {
        None
    }
}

/// Compare a record's versions with this build's; a record is either
/// version-compatible or refused, never converted.
pub fn check_versions(recorded: &Versions, current: &Versions) -> (r: Option<Moved>)
    ensures
        r == moved_spec(*recorded, *current),
{
    if recorded.format != current.format {
        Some(Moved::Format { recorded: recorded.format, current: current.format })
    } else if !str_eq(recorded.rules.as_str(), current.rules.as_str()) {
        Some(Moved::Rules { recorded: recorded.rules.clone(), current: current.rules.clone() })
    } else if recorded.content != current.content {
        Some(Moved::Content { recorded: recorded.content, current: current.content })
    } else {
        None
    }
}

// ------------------------------------------------------------ the ledger

/// The replay holds `sample`: a sample at the same tick with the same digest.
pub open spec fn sample_held(sample: Sample, replayed: Seq<Sample>) -> bool {
    exists|j: int| 0 <= j < replayed.len() && #[trigger] replayed[j] == sample
}

/// The tick of the first recorded sample the replay does not hold.
pub open spec fn first_missed(recorded: Seq<Sample>, replayed: Seq<Sample>) -> Option<u64>
    decreases recorded.len(),
{
    if recorded.len() == 0 {
        None
    } else {
        match first_missed(recorded.drop_last(), replayed) {
            Some(t) => Some(t),
            None => if sample_held(recorded.last(), replayed) {
                None
            } else {
                Some(recorded.last().tick)
            },
        }
    }
}

/// The verdict of comparing a recorded ledger with a replayed one: the first
/// missed periodic digest locates a divergence; otherwise a moved final tick
/// or digest is one; otherwise the run reproduced.
pub open spec fn ledger_verdict(recorded: Ledger, replayed: Ledger) -> Verdict {
    match first_missed(recorded.samples@, replayed.samples@) {
        Some(t) => Verdict::Diverged { at_tick: Some(t), cause: None },
        None => if recorded.final_tick != replayed.final_tick || recorded.final_digest
            != replayed.final_digest {
            Verdict::Diverged { at_tick: None, cause: None }
        } else {
            Verdict::Reproduced
        },
    }
}

fn holds_sample(sample: Sample, replayed: &Vec<Sample>) -> (r: bool)
    ensures
        r == sample_held(sample, replayed@),
{
    let mut j: usize = 0;
    while j < replayed.len()
        invariant
            j <= replayed@.len(),
            forall|i: int| 0 <= i < j ==> #[trigger] replayed@[i] != sample,
        decreases replayed@.len() - j,
    {
        if replayed[j].tick == sample.tick && replayed[j].digest == sample.digest {
            assert(replayed@[j as int] == sample);
            return true;
        }
        j = j + 1;
    }
    false
}

/// Compare a recorded ledger with the one a replay produced.
pub fn compare_ledgers(recorded: &Ledger, replayed: &Ledger) -> (r: Verdict)
    ensures
        r == ledger_verdict(*recorded, *replayed),
{
    let mut k: usize = 0;
    while k < recorded.samples.len()
        invariant
            k <= recorded.samples@.len(),
            first_missed(recorded.samples@.take(k as int), replayed.samples@) is None,
        decreases recorded.samples@.len() - k,
    {
        let sample = recorded.samples[k];
        assert(recorded.samples@.take(k as int + 1).drop_last() =~= recorded.samples@.take(k as int));
        assert(recorded.samples@.take(k as int + 1).last() == sample);
        if !holds_sample(sample, &replayed.samples) {
            proof {
                lemma_first_missed_prefix(recorded.samples@, replayed.samples@, k as int + 1);
            }
            return Verdict::Diverged { at_tick: Some(sample.tick), cause: None };
        }
        k = k + 1;
    }
    assert(recorded.samples@.take(recorded.samples@.len() as int) =~= recorded.samples@);
    if recorded.final_tick != replayed.final_tick || recorded.final_digest != replayed.final_digest {
        Verdict::Diverged { at_tick: None, cause: None }
    } else {
        Verdict::Reproduced
    }
}

/// A miss found in a prefix is the first miss of the whole list.
proof fn lemma_first_missed_prefix(recorded: Seq<Sample>, replayed: Seq<Sample>, k: int)
    requires
        0 <= k <= recorded.len(),
        first_missed(recorded.take(k), replayed) is Some,
    ensures
        first_missed(recorded, replayed) == first_missed(recorded.take(k), replayed),
    decreases recorded.len() - k,
{
    if k < recorded.len() {
        assert(recorded.take(k + 1).drop_last() =~= recorded.take(k));
        lemma_first_missed_prefix(recorded, replayed, k + 1);
    } else {
        assert(recorded.take(k) =~= recorded);
    }
}

// ------------------------------------------------------------ the runner

/// A live session: a run that keeps its own divergence ledger. Recording and
/// replaying sample at exactly the same moments.
pub struct Runner {
    pub sim: Sim,
    pub ledger: Ledger,
    /// The last tick sampled: a paused tick, which does not advance the
    /// counter, cannot sample the same tick twice, and tick zero is never
    /// sampled.
    pub last_sampled: u64,
}

/// The ledger after recording `digest` at the current tick `tick`: sampled
/// when `tick` is on the cadence and not the last tick sampled; the final
/// tick and digest always follow.
pub open spec fn recorded_tick(pre: Ledger, last: u64, tick: u64, digest: u64, post: Ledger, post_last: u64) -> bool {
    let due = tick % pre.every == 0 && tick != last;
    &&& post.every == pre.every
    &&& post.samples@ == if due {
        pre.samples@.push(Sample { tick, digest })
    } else {
        pre.samples@
    }
    &&& post_last == if due {
        tick
    } else {
        last
    }
    &&& post.final_tick == tick
    &&& post.final_digest == digest
}

impl Runner {
    pub open spec fn wf(&self) -> bool {
        self.sim.wf() && self.ledger.every >= 1
    }

    /// A fresh session on `seed`, sampling every `hash_every_ticks` ticks
    /// (at least every tick).
    pub fn new(catalogue: Catalogue, seed: u64) -> (r: Runner)
        requires
            catalogue_bounded(catalogue),
        ensures
            r.wf(),
            r.sim.catalogue == catalogue,
            r.sim.log@.len() == 0,
            exists|raw: RunState| opening(catalogue, seed, raw) && #[trigger] rederived(catalogue, raw, r.sim.state),
            r.ledger.every == if catalogue.scenario.hash_every_ticks >= 1 {
                catalogue.scenario.hash_every_ticks
            } else {
                1
            },
            r.ledger.samples@.len() == 0,
            r.ledger.final_tick == 0,
            r.ledger.final_digest == 0,
            r.last_sampled == 0,
    {
        let hash_every = catalogue.scenario.hash_every_ticks;
        let every = if hash_every >= 1 {
            hash_every
        } else {
            1
        };
        Runner {
            sim: Sim::new(catalogue, seed),
            ledger: Ledger { every, samples: Vec::new(), final_tick: 0, final_digest: 0 },
            last_sampled: 0,
        }
    }

    /// The recording half of a tick: `digest` is the digest of the state the
    /// tick reached.
    pub fn record_tick(&mut self, digest: u64)
        requires
            old(self).ledger.every >= 1,
        ensures
            final(self).sim == old(self).sim,
            recorded_tick(
                old(self).ledger,
                old(self).last_sampled,
                old(self).sim.state.tick,
                digest,
                final(self).ledger,
                final(self).last_sampled,
            ),
    {
        let tick = self.sim.state.tick;
        if tick % self.ledger.every == 0 && tick != self.last_sampled {
            self.ledger.samples.push(Sample { tick, digest });
            self.last_sampled = tick;
        }
        self.ledger.final_tick = tick;
        self.ledger.final_digest = digest;
    }

    /// Whether replay must tick again before a command recorded at `tick`:
    /// it is behind, and not paused (a paused run cannot get there).
    pub fn behind(&self, tick: u64) -> (r: bool)
        ensures
            r == (self.sim.state.tick < tick && !self.sim.state.paused),
    {
        self.sim.state.tick < tick && !self.sim.state.paused
    }

    /// Replay one logged command once the run has advanced as far as it
    /// can: a command the run did not reach is a stall; otherwise it is
    /// executed, and an outcome other than the recorded one is a divergence.
    pub fn replay_command(&mut self, entry: &LoggedCommand) -> (r: Result<(), Divergence>)
        requires
            old(self).wf(),
            command_fits(old(self).sim.cat(), old(self).sim.state, entry.command),
        ensures
            final(self).wf(),
            final(self).ledger == old(self).ledger,
            final(self).last_sampled == old(self).last_sampled,
            old(self).sim.state.tick != entry.tick ==> r == Err::<(), Divergence>(
                Divergence::Stalled { stuck_at: old(self).sim.state.tick, wanted: entry.tick },
            ) && final(self).sim == old(self).sim,
            old(self).sim.state.tick == entry.tick ==> exists|outcome: Result<(), Rejection>|
                #[trigger] apply_spec(
                    old(self).sim.cat(),
                    old(self).sim.state,
                    entry.command,
                    final(self).sim.state,
                    outcome,
                ) && final(self).sim.log@ == old(self).sim.log@.push(
                    logged(old(self).sim.state.tick, entry.command, outcome),
                ) && r == match (outcome, entry.rejection) {
                    (Ok(()), None) => Ok(()),
                    (Err(_), Some(_)) => Ok(()),
                    (Err(rejection), None) => Err(Divergence::UnexpectedRejection(rejection)),
                    (Ok(()), Some(_)) => Err(Divergence::UnexpectedAcceptance),
                },
            final(self).sim.catalogue == old(self).sim.catalogue,
    {
        if self.sim.state.tick != entry.tick {
            return Err(Divergence::Stalled { stuck_at: self.sim.state.tick, wanted: entry.tick });
        }
        let outcome = self.sim.execute(entry.command.duplicate());
        match (outcome, &entry.rejection) {
            (Ok(()), None) => Ok(()),
            (Err(_), Some(_)) => Ok(()),
            (Err(rejection), None) => Err(Divergence::UnexpectedRejection(rejection)),
            (Ok(()), Some(_)) => Err(Divergence::UnexpectedAcceptance),
        }
    }

    /// Run a command through the session, logging it.
    pub fn execute(&mut self, command: Command) -> (r: Result<(), Rejection>)
        requires
            old(self).wf(),
            command_fits(old(self).sim.cat(), old(self).sim.state, command),
        ensures
            final(self).wf(),
            final(self).ledger == old(self).ledger,
            final(self).last_sampled == old(self).last_sampled,
            final(self).sim.catalogue == old(self).sim.catalogue,
            apply_spec(old(self).sim.cat(), old(self).sim.state, command, final(self).sim.state, r),
            final(self).sim.log@ == old(self).sim.log@.push(logged(old(self).sim.state.tick, command, r)),
    {
        self.sim.execute(command)
    }

    /// The session's record.
    pub fn into_record(self) -> (r: RunRecord)
        ensures
            r.versions.format == RECORD_FORMAT,
            r.versions.rules@ == RULESET_VERSION@,
            r.versions.content == self.sim.catalogue.content_version,
            r.scenario@ == self.sim.catalogue.scenario.id@,
            r.seed == self.sim.state.seed,
            r.commands@ == self.sim.log@,
            r.ledger == self.ledger,
    {
        let Runner { sim, ledger, .. } = self;
        let versions = versions(&sim.catalogue);
        let scenario = sim.catalogue.scenario.id.clone();
        let seed = sim.state.seed;
        RunRecord { versions, scenario, seed, commands: sim.log, ledger }
    }
}

} // verus!
