//! The loaded authored catalogue, its content version, and cross-reference
//! validation.

use vstd::prelude::*;
use vstd::string::*;

use crate::hash::{fnv1a64, fnv1a_spec};
use crate::schema::{
    EffectOp, OpportunityDef, Prerequisite, ProjectDef, ProjectsFile, Repeat, Scenario, ScenarioFile,
    Scope, ScopedEffect, op_is_spatial,
};
use crate::render::{describe_scope_mismatch, scope_mismatch_text};
use crate::text::{owned, str_eq};

verus! {

/// A cross-reference or schema issue found in authored content.
#[derive(Debug, Clone, PartialEq, Eq)]
pub enum ContentIssue {
    DuplicateId(String),
    BadId(String),
    UnresolvedReference { from: String, to: String },
    LockedWithoutUnlocker(String),
    BadScope { id: String, detail: String },
    BadValue { id: String, detail: String },
}

/// What an issue says, with its strings taken as character sequences.
pub enum IssueView {
    DuplicateId(Seq<char>),
    BadId(Seq<char>),
    UnresolvedReference { from: Seq<char>, to: Seq<char> },
    LockedWithoutUnlocker(Seq<char>),
    BadScope { id: Seq<char>, detail: Seq<char> },
    BadValue { id: Seq<char>, detail: Seq<char> },
}

impl View for ContentIssue {
    type V = IssueView;

    open spec fn view(&self) -> IssueView {
        match self {
            ContentIssue::DuplicateId(id) => IssueView::DuplicateId(id@),
            ContentIssue::BadId(id) => IssueView::BadId(id@),
            ContentIssue::UnresolvedReference { from, to } => IssueView::UnresolvedReference {
                from: from@,
                to: to@,
            },
            ContentIssue::LockedWithoutUnlocker(id) => IssueView::LockedWithoutUnlocker(id@),
            ContentIssue::BadScope { id, detail } => IssueView::BadScope { id: id@, detail: detail@ },
            ContentIssue::BadValue { id, detail } => IssueView::BadValue { id: id@, detail: detail@ },
        }
    }
}

/// The views of a list of issues, in order.
pub open spec fn issues_view(v: Seq<ContentIssue>) -> Seq<IssueView> {
    v.map_values(|i: ContentIssue| i@)
}

/// The loaded authored catalogue. `content_version` hashes the authored bytes.
#[derive(Debug, Clone)]
pub struct Catalogue {
    pub scenario: Scenario,
    pub projects: Vec<ProjectDef>,
    pub opportunities: Vec<OpportunityDef>,
    pub content_version: u64,
}

// ------------------------------------------------------------ identifiers

/// A well-formed id: non-empty lowercase ASCII letters, digits and hyphens,
/// neither starting nor ending with a hyphen.
pub open spec fn kebab_char(c: char) -> bool {
    ('a' <= c && c <= 'z') || ('0' <= c && c <= '9') || c == '-'
}

pub open spec fn kebab_spec(id: Seq<char>) -> bool {
    &&& id.len() > 0
    &&& id[0] != '-'
    &&& id.last() != '-'
    &&& forall|i: int| 0 <= i < id.len() ==> kebab_char(#[trigger] id[i])
}

/// Whether `id` is a well-formed kebab-case identifier.
pub fn is_kebab(id: &str) -> (r: bool)
    ensures
        r == kebab_spec(id@),
{
    let n = id.unicode_len();
    if n == 0 {
        return false;
    }
    if id.get_char(0) == '-' || id.get_char(n - 1) == '-' {
        return false;
    }
    let mut i: usize = 0;
    while i < n
        invariant
            n == id@.len(),
            i <= n,
            forall|j: int| 0 <= j < i ==> kebab_char(#[trigger] id@[j]),
        decreases n - i,
    {
        let c = id.get_char(i);
        if !(('a' <= c && c <= 'z') || ('0' <= c && c <= '9') || c == '-') {
            return false;
        }
        i = i + 1;
    }
    true
}

/// `k` is the first project whose id is `id`.
pub open spec fn first_with_id(projects: Seq<ProjectDef>, k: int, id: Seq<char>) -> bool {
    &&& 0 <= k < projects.len()
    &&& projects[k].id@ == id
    &&& forall|j: int| 0 <= j < k ==> #[trigger] projects[j].id@ != id
}

/// Some project has the id `id`.
pub open spec fn id_exists(projects: Seq<ProjectDef>, id: Seq<char>) -> bool {
    exists|j: int| 0 <= j < projects.len() && #[trigger] projects[j].id@ == id
}

// ------------------------------------------------------------ validation

/// The project an effect refers to, if it refers to one.
pub open spec fn effect_target(op: EffectOp) -> Option<Seq<char>> {
    match op {
        EffectOp::ModifyProjectCost { project, .. } => Some(project@),
        EffectOp::ModifyProjectDuration { project, .. } => Some(project@),
        EffectOp::UnlockProject { project } => Some(project@),
        _ => None,
    }
}

/// The project a prerequisite refers to, if it refers to one.
pub open spec fn prerequisite_target(q: Prerequisite) -> Option<Seq<char>> {
    match q {
        Prerequisite::CompletedOnLead { project } => Some(project@),
        Prerequisite::CompletedAnywhere { project } => Some(project@),
        Prerequisite::IconAtLeast { .. } => None,
    }
}

/// The issue a reference from `from` to `target` raises: none when the
/// target is a known id.
pub open spec fn reference_issue(
    projects: Seq<ProjectDef>,
    from: Seq<char>,
    target: Option<Seq<char>>,
) -> Seq<IssueView> {
    match target {
        Some(t) => if id_exists(projects, t) {
            seq![]
        } else {
            seq![IssueView::UnresolvedReference { from: from, to: t }]
        },
        None => seq![],
    }
}

pub open spec fn prerequisite_issues(
    projects: Seq<ProjectDef>,
    from: Seq<char>,
    qs: Seq<Prerequisite>,
) -> Seq<IssueView>
    decreases qs.len(),
{
    if qs.len() == 0 {
        seq![]
    } else {
        prerequisite_issues(projects, from, qs.drop_last()) + reference_issue(
            projects,
            from,
            prerequisite_target(qs.last()),
        )
    }
}

/// Spatial ops need a spatial scope; economy-wide ops need `Global`.
pub open spec fn scope_issue(from: Seq<char>, e: ScopedEffect) -> Seq<IssueView> {
    if op_is_spatial(e.op) != !(e.scope is Global) {
        seq![IssueView::BadScope { id: from, detail: scope_mismatch_text(e.op, e.scope) }]
    } else {
        seq![]
    }
}

pub open spec fn effect_issues(
    projects: Seq<ProjectDef>,
    from: Seq<char>,
    es: Seq<ScopedEffect>,
) -> Seq<IssueView>
    decreases es.len(),
{
    if es.len() == 0 {
        seq![]
    } else {
        effect_issues(projects, from, es.drop_last()) + reference_issue(
            projects,
            from,
            effect_target(es.last().op),
        ) + scope_issue(from, es.last())
    }
}

pub open spec fn repeat_issue(p: ProjectDef) -> Seq<IssueView> {
    match p.repeat {
        Repeat::Tiered { count } => if count == 0 {
            seq![
                IssueView::BadValue {
                    id: p.id@,
                    detail: "Tiered count must be at least 1"@,
                },
            ]
        } else {
            seq![]
        },
        Repeat::CappedRollout { per_continent } => if per_continent == 0 {
            seq![
                IssueView::BadValue {
                    id: p.id@,
                    detail: "CappedRollout per_continent must be at least 1"@,
                },
            ]
        } else {
            seq![]
        },
        _ => seq![],
    }
}

pub open spec fn value_issue(p: ProjectDef) -> Seq<IssueView> {
    if p.duration_ticks == 0 || p.finance_cost < 0 || p.mandate_cost < 0 {
        seq![
            IssueView::BadValue {
                id: p.id@,
                detail: "duration must be positive; costs must be non-negative"@,
            },
        ]
    } else {
        seq![]
    }
}

/// Every issue one project raises, in the order they are reported.
pub open spec fn project_issues(projects: Seq<ProjectDef>, p: ProjectDef) -> Seq<IssueView> {
    prerequisite_issues(projects, p.id@, p.prerequisites@) + effect_issues(
        projects,
        p.id@,
        p.effects@,
    ) + repeat_issue(p) + value_issue(p)
}

pub open spec fn projects_issues(projects: Seq<ProjectDef>, ps: Seq<ProjectDef>) -> Seq<IssueView>
    decreases ps.len(),
{
    if ps.len() == 0 {
        seq![]
    } else {
        projects_issues(projects, ps.drop_last()) + project_issues(projects, ps.last())
    }
}

/// The issues of the `k`-th id: a duplicate of an earlier one, a malformed one.
pub open spec fn id_issue(projects: Seq<ProjectDef>, k: int) -> Seq<IssueView> {
    (if exists|j: int| 0 <= j < k && #[trigger] projects[j].id@ == projects[k].id@ {
        seq![IssueView::DuplicateId(projects[k].id@)]
    } else {
        seq![]
    }) + (if kebab_spec(projects[k].id@) {
        seq![]
    } else {
        seq![IssueView::BadId(projects[k].id@)]
    })
}

pub open spec fn ids_issues(projects: Seq<ProjectDef>, n: int) -> Seq<IssueView>
    decreases n,
{
    if n <= 0 {
        seq![]
    } else {
        ids_issues(projects, n - 1) + id_issue(projects, n - 1)
    }
}

/// The op unlocks the project with id `id`.
pub open spec fn unlocks_id(op: EffectOp, id: Seq<char>) -> bool {
    match op {
        EffectOp::UnlockProject { project } => project@ == id,
        _ => false,
    }
}

/// Some project's effects unlock the project with id `id`.
pub open spec fn unlock_target(projects: Seq<ProjectDef>, id: Seq<char>) -> bool {
    exists|j: int, k: int|
        0 <= j < projects.len() && 0 <= k < projects[j].effects@.len() && unlocks_id(
            (#[trigger] projects[j].effects@[k]).op,
            id,
        )
}

pub open spec fn locked_issues(projects: Seq<ProjectDef>, ps: Seq<ProjectDef>) -> Seq<IssueView>
    decreases ps.len(),
{
    if ps.len() == 0 {
        seq![]
    } else {
        locked_issues(projects, ps.drop_last()) + (if ps.last().locked && !unlock_target(
            projects,
            ps.last().id@,
        ) {
            seq![IssueView::LockedWithoutUnlocker(ps.last().id@)]
        } else {
            seq![]
        })
    }
}

/// The sum of the second components of an income table.
pub open spec fn income_sum<C>(v: Seq<(C, i64)>) -> int
    decreases v.len(),
{
    if v.len() == 0 {
        0
    } else {
        income_sum(v.drop_last()) + v.last().1
    }
}

pub open spec fn scenario_issues(s: Scenario) -> Seq<IssueView> {
    (if income_sum(s.finance_income_milli@) <= 0 || income_sum(s.mandate_income_milli@) <= 0 {
        seq![
            IssueView::BadValue {
                id: s.id@,
                detail: "baseline Finance and Mandate income must be positive"@,
            },
        ]
    } else {
        seq![]
    }) + (if s.sector_baselines_milli_gt@.len() != 9 {
        seq![
            IssueView::BadValue {
                id: s.id@,
                detail: "exactly nine sector baselines are required"@,
            },
        ]
    } else {
        seq![]
    })
}

/// Every issue the catalogue raises, in the order `validate` reports them:
/// ids, then per-project references, scopes and values, then locked projects
/// nothing unlocks, then the scenario's recoverability invariants.
pub open spec fn catalogue_issues(c: Catalogue) -> Seq<IssueView> {
    let ps = c.projects@;
    ids_issues(ps, ps.len() as int) + projects_issues(ps, ps) + locked_issues(ps, ps)
        + scenario_issues(c.scenario)
}

/// The exact sum of an income table: each entry is an `i64`, and there are at
/// most `usize::MAX` of them, so the running total always fits in an `i128`.
fn sum_incomes<C>(v: &Vec<(C, i64)>) -> (r: i128)
    ensures
        r == income_sum(v@),
{
    let mut total: i128 = 0;
    let mut i: usize = 0;
    while i < v.len()
        invariant
            i <= v@.len(),
            total == income_sum(v@.take(i as int)),
            -0x8000_0000_0000_0000 * i <= total <= 0x7fff_ffff_ffff_ffff * i,
        decreases v@.len() - i,
    {
        assert(v@.take(i as int + 1).drop_last() =~= v@.take(i as int));
        let x = v[i].1;
        assert(-0x8000_0000_0000_0000 * (i + 1) <= total + x <= 0x7fff_ffff_ffff_ffff * (i + 1)) by (nonlinear_arith)
            requires
                -0x8000_0000_0000_0000 * i <= total <= 0x7fff_ffff_ffff_ffff * i,
                -0x8000_0000_0000_0000 <= x <= 0x7fff_ffff_ffff_ffff,
        ;
        assert(-0x8000_0000_0000_0000 * (i + 1) >= -0x8000_0000_0000_0000 * 0x1_0000_0000_0000_0000) by (nonlinear_arith)
            requires
                i < 0x1_0000_0000_0000_0000,
        ;
        assert(0x7fff_ffff_ffff_ffff * (i + 1) <= 0x7fff_ffff_ffff_ffff * 0x1_0000_0000_0000_0000) by (nonlinear_arith)
            requires
                i < 0x1_0000_0000_0000_0000,
        ;
        total = total + x as i128;
        i = i + 1;
    }
    assert(v@.take(v@.len() as int) =~= v@);
    total
}

impl Catalogue {
    /// Assemble a catalogue from its parsed files; the content version hashes
    /// the authored bytes of both files, scenario first.
    pub fn from_files(
        scenario_file: ScenarioFile,
        projects_file: ProjectsFile,
        scenario_bytes: &[u8],
        projects_bytes: &[u8],
    ) -> (r: Catalogue)
        ensures
            r.scenario == scenario_file.scenario,
            r.projects == projects_file.projects,
            r.opportunities == scenario_file.opportunities,
            r.content_version == fnv1a_spec(scenario_bytes@ + projects_bytes@),
    {
        let mut version_bytes: Vec<u8> = Vec::new();
        version_bytes.extend_from_slice(scenario_bytes);
        version_bytes.extend_from_slice(projects_bytes);
        assert(version_bytes@ =~= scenario_bytes@ + projects_bytes@);
        let content_version = fnv1a64(version_bytes.as_slice());
        Catalogue {
            scenario: scenario_file.scenario,
            projects: projects_file.projects,
            opportunities: scenario_file.opportunities,
            content_version,
        }
    }

    /// The index of the first project with id `id`.
    pub fn project_index(&self, id: &str) -> (r: Option<usize>)
        ensures
            match r {
                Some(k) => first_with_id(self.projects@, k as int, id@),
                None => !id_exists(self.projects@, id@),
            },
    {
        let mut k: usize = 0;
        while k < self.projects.len()
            invariant
                k <= self.projects@.len(),
                forall|j: int| 0 <= j < k ==> #[trigger] self.projects@[j].id@ != id@,
            decreases self.projects@.len() - k,
        {
            if str_eq(self.projects[k].id.as_str(), id) {
                return Some(k);
            }
            k = k + 1;
        }
        None
    }

    fn has_id(&self, id: &String) -> (r: bool)
        ensures
            r == id_exists(self.projects@, id@),
    {
        self.project_index(id.as_str()).is_some()
    }

    fn is_unlocked_by_some_project(&self, id: &String) -> (r: bool)
        ensures
            r == unlock_target(self.projects@, id@),
    {
        let mut j: usize = 0;
        while j < self.projects.len()
            invariant
                j <= self.projects@.len(),
                forall|a: int, b: int|
                    0 <= a < j && 0 <= b < self.projects@[a].effects@.len() ==> !unlocks_id((#[trigger] self.projects@[a].effects@[b]).op, id@),
            decreases self.projects@.len() - j,
        {
            let effects = &self.projects[j].effects;
            let mut k: usize = 0;
            while k < effects.len()
                invariant
                    j < self.projects@.len(),
                    effects == self.projects@[j as int].effects,
                    k <= effects@.len(),
                    forall|a: int, b: int|
                        0 <= a < j && 0 <= b < self.projects@[a].effects@.len() ==> !unlocks_id((#[trigger] self.projects@[a].effects@[b]).op, id@),
                    forall|b: int|
                        0 <= b < k ==> !unlocks_id((#[trigger] effects@[b]).op, id@),
                decreases effects@.len() - k,
            {
                if let EffectOp::UnlockProject { project } = &effects[k].op {
                    if *project == *id {
                        return true;
                    }
                }
                k = k + 1;
            }
            j = j + 1;
        }
        false
    }

    fn id_seen_before(&self, k: usize) -> (r: bool)
        requires
            k < self.projects@.len(),
        ensures
            r == exists|j: int|
                0 <= j < k && #[trigger] self.projects@[j].id@ == self.projects@[k as int].id@,
    {
        let mut j: usize = 0;
        while j < k
            invariant
                k < self.projects@.len(),
                j <= k,
                forall|a: int| 0 <= a < j ==> #[trigger] self.projects@[a].id@ != self.projects@[k as int].id@,
            decreases k - j,
        {
            if self.projects[j].id == self.projects[k].id {
                return true;
            }
            j = j + 1;
        }
        false
    }

    /// Cross-reference validation: returns every issue found, in a fixed
    /// order, so the content linter can report them all at once.
    pub fn validate(&self) -> (issues: Vec<ContentIssue>)
        ensures
            issues_view(issues@) == catalogue_issues(*self),
    {
        let mut issues: Vec<ContentIssue> = Vec::new();
        let ghost ps = self.projects@;
        let n = self.projects.len();

        // Ids: duplicates and malformed ids.
        let mut k: usize = 0;
        while k < n
            invariant
                ps == self.projects@,
                n == ps.len(),
                k <= n,
                issues_view(issues@) == ids_issues(ps, k as int),
            decreases n - k,
        {
            let ghost before = issues_view(issues@);
            if self.id_seen_before(k) {
                issues.push(ContentIssue::DuplicateId(self.projects[k].id.clone()));
            }
            if !is_kebab(self.projects[k].id.as_str()) {
                issues.push(ContentIssue::BadId(self.projects[k].id.clone()));
            }
            assert(issues_view(issues@) =~= before + id_issue(ps, k as int));
            k = k + 1;
        }
        let ghost after_ids = issues_view(issues@);

        // Per project: references, scopes, repeat counts, values.
        let mut k: usize = 0;
        while k < n
            invariant
                ps == self.projects@,
                n == ps.len(),
                k <= n,
                after_ids == ids_issues(ps, n as int),
                issues_view(issues@) == after_ids + projects_issues(ps, ps.take(k as int)),
            decreases n - k,
        {
            let project = &self.projects[k];
            let ghost start = issues_view(issues@);
            let mut q: usize = 0;
            while q < project.prerequisites.len()
                invariant
                    project == ps[k as int],
                    q <= project.prerequisites@.len(),
                    ps == self.projects@,
                    issues_view(issues@) == start + prerequisite_issues(
                        ps,
                        project.id@,
                        project.prerequisites@.take(q as int),
                    ),
                decreases project.prerequisites@.len() - q,
            {
                let ghost before = issues_view(issues@);
                assert(project.prerequisites@.take(q as int + 1).drop_last()
                    =~= project.prerequisites@.take(q as int));
                match &project.prerequisites[q] {
                    Prerequisite::CompletedOnLead { project: target }
                    | Prerequisite::CompletedAnywhere { project: target } => {
                        if !self.has_id(target) {
                            issues.push(
                                ContentIssue::UnresolvedReference {
                                    from: project.id.clone(),
                                    to: target.clone(),
                                },
                            );
                        }
                    },
                    Prerequisite::IconAtLeast { .. } => {},
                }
                assert(issues_view(issues@) =~= before + reference_issue(
                    ps,
                    project.id@,
                    prerequisite_target(project.prerequisites@[q as int]),
                ));
                q = q + 1;
            }
            assert(project.prerequisites@.take(project.prerequisites@.len() as int)
                =~= project.prerequisites@);
            let ghost mid = issues_view(issues@);
            let mut e: usize = 0;
            while e < project.effects.len()
                invariant
                    project == ps[k as int],
                    e <= project.effects@.len(),
                    ps == self.projects@,
                    issues_view(issues@) == mid + effect_issues(
                        ps,
                        project.id@,
                        project.effects@.take(e as int),
                    ),
                decreases project.effects@.len() - e,
            {
                let ghost before = issues_view(issues@);
                assert(project.effects@.take(e as int + 1).drop_last() =~= project.effects@.take(
                    e as int,
                ));
                let effect = &project.effects[e];
                let target: Option<&String> = match &effect.op {
                    EffectOp::ModifyProjectCost { project, .. } => Some(project),
                    EffectOp::ModifyProjectDuration { project, .. } => Some(project),
                    EffectOp::UnlockProject { project } => Some(project),
                    _ => None,
                };
                if let Some(target) = target {
                    if !self.has_id(target) {
                        issues.push(
                            ContentIssue::UnresolvedReference {
                                from: project.id.clone(),
                                to: target.clone(),
                            },
                        );
                    }
                }
                let ghost mid2 = issues_view(issues@);
                assert(mid2 =~= before + reference_issue(
                    ps,
                    project.id@,
                    effect_target(effect.op),
                ));
                let spatial_scope = match effect.scope {
                    Scope::Global => false,
                    _ => true,
                };
                if effect.op.is_spatial() != spatial_scope {
                    issues.push(
                        ContentIssue::BadScope {
                            id: project.id.clone(),
                            detail: describe_scope_mismatch(&effect.op, effect.scope),
                        },
                    );
                }
                assert(issues_view(issues@) =~= mid2 + scope_issue(project.id@, *effect));
                e = e + 1;
            }
            assert(project.effects@.take(project.effects@.len() as int) =~= project.effects@);
            let ghost before_repeat = issues_view(issues@);
            match project.repeat {
                Repeat::Tiered { count } => {
                    if count == 0 {
                        issues.push(
                            ContentIssue::BadValue {
                                id: project.id.clone(),
                                detail: owned("Tiered count must be at least 1"),
                            },
                        );
                    }
                },
                Repeat::CappedRollout { per_continent } => {
                    if per_continent == 0 {
                        issues.push(
                            ContentIssue::BadValue {
                                id: project.id.clone(),
                                detail: owned("CappedRollout per_continent must be at least 1"),
                            },
                        );
                    }
                },
                _ => {},
            }
            assert(issues_view(issues@) =~= before_repeat + repeat_issue(*project));
            let ghost before_value = issues_view(issues@);
            if project.duration_ticks == 0 || project.finance_cost < 0 || project.mandate_cost < 0 {
                issues.push(
                    ContentIssue::BadValue {
                        id: project.id.clone(),
                        detail: owned("duration must be positive; costs must be non-negative"),
                    },
                );
            }
            assert(issues_view(issues@) =~= before_value + value_issue(*project));
            assert(ps.take(k as int + 1).drop_last() =~= ps.take(k as int));
            assert(issues_view(issues@) =~= after_ids + projects_issues(ps, ps.take(k as int + 1)));
            k = k + 1;
        }
        assert(ps.take(n as int) =~= ps);
        let ghost after_projects = issues_view(issues@);

        // Locked projects that nothing unlocks.
        let mut k: usize = 0;
        while k < n
            invariant
                ps == self.projects@,
                n == ps.len(),
                k <= n,
                issues_view(issues@) == after_projects + locked_issues(ps, ps.take(k as int)),
            decreases n - k,
        {
            let ghost before = issues_view(issues@);
            assert(ps.take(k as int + 1).drop_last() =~= ps.take(k as int));
            let project = &self.projects[k];
            assert(ps.take(k as int + 1).last() == ps[k as int]);
            if project.locked && !self.is_unlocked_by_some_project(&project.id) {
                issues.push(ContentIssue::LockedWithoutUnlocker(project.id.clone()));
            }
            assert(issues_view(issues@) =~= before + (if project.locked && !unlock_target(
                ps,
                project.id@,
            ) {
                seq![IssueView::LockedWithoutUnlocker(project.id@)]
            } else {
                seq![]
            }));
            k = k + 1;
        }
        assert(ps.take(n as int) =~= ps);
        let ghost after_locked = issues_view(issues@);

        // Recoverability invariants.
        let scenario = &self.scenario;
        if sum_incomes(&scenario.finance_income_milli) <= 0 || sum_incomes(
            &scenario.mandate_income_milli,
        ) <= 0 {
            issues.push(
                ContentIssue::BadValue {
                    id: scenario.id.clone(),
                    detail: owned("baseline Finance and Mandate income must be positive"),
                },
            );
        }
        if scenario.sector_baselines_milli_gt.len() != 9 {
            issues.push(
                ContentIssue::BadValue {
                    id: scenario.id.clone(),
                    detail: owned("exactly nine sector baselines are required"),
                },
            );
        }
        assert(issues_view(issues@) =~= after_locked + scenario_issues(self.scenario));
        issues
    }
}

} // verus!
