//! Dispatching rendered migrations: written out in a dry run, queued for
//! the migration engine otherwise.
use vstd::prelude::*;
use crate::discovery::{MigrationSource, strictly_sorted};
use crate::order::{lex_lt, lemma_lex_irreflexive};

verus! {

/// How a run treats its rendered migrations.
pub enum RunMode {
    /// Write each rendered migration under `output_dir`.
    DryRun { output_dir: String },
    /// Queue each rendered migration for the migration engine.
    Apply,
}

/// What rendering one migration file gave.
pub enum RenderOutcome {
    Rendered(String),
    RenderFailed { name: String, detail: String },
}

/// A rendered migration waiting for the migration engine.
pub struct PendingMigration {
    pub name: String,
    pub sql: String,
}

/// A rendered migration to be written to `path` in a dry run.
pub struct DryRunArtifact {
    pub path: String,
    pub contents: String,
}

/// A migration whose template did not render, and why.
pub struct RenderFailure {
    pub name: String,
    pub detail: String,
}

/// A pair of texts: a name or path, and its contents.
pub type TextPair = (Seq<char>, Seq<char>);

/// What a run has collected so far, as plain sequences.
pub struct PlanView {
    pub artifacts: Seq<TextPair>,
    pub pending: Seq<TextPair>,
    pub failures: Seq<TextPair>,
}

/// Where the dry-run output of migration `name` goes: `{dir}/{name}.sql`.
pub open spec fn artifact_path_of(dir: Seq<char>, name: Seq<char>) -> Seq<char> {
    dir + seq!['/'] + name + seq!['.', 's', 'q', 'l']
}

pub open spec fn empty_plan() -> PlanView {
    PlanView { artifacts: Seq::empty(), pending: Seq::empty(), failures: Seq::empty() }
}

/// The plan after the outcome `o` of the migration named `name`.
pub open spec fn step_plan(p: PlanView, name: Seq<char>, o: RenderOutcome, mode: RunMode) -> PlanView {
    match o {
        RenderOutcome::Rendered(t) => match mode {
            RunMode::DryRun { output_dir } => PlanView {
                artifacts: p.artifacts.push((artifact_path_of(output_dir@, name), t@)),
                ..p
            },
            RunMode::Apply => PlanView { pending: p.pending.push((name, t@)), ..p },
        },
        RenderOutcome::RenderFailed { name: n, detail } => PlanView {
            failures: p.failures.push((n@, detail@)),
            ..p
        },
    }
}

/// The plan after the first `n` sources and their outcomes, in order.
pub open spec fn plan_prefix(
    srcs: Seq<MigrationSource>,
    outs: Seq<RenderOutcome>,
    mode: RunMode,
    n: nat,
) -> PlanView
    decreases n,
{
    if n == 0 {
        empty_plan()
    } else {
        step_plan(
            plan_prefix(srcs, outs, mode, (n - 1) as nat),
            srcs[n - 1].name@,
            outs[n - 1],
            mode,
        )
    }
}

/// The plan of a whole run.
pub open spec fn plan_of(srcs: Seq<MigrationSource>, outs: Seq<RenderOutcome>, mode: RunMode) -> PlanView {
    plan_prefix(srcs, outs, mode, outs.len())
}

/// How many of the first `n` outcomes rendered.
pub open spec fn rendered_before(outs: Seq<RenderOutcome>, n: nat) -> nat
    decreases n,
{
    if n == 0 {
        0
    } else {
        rendered_before(outs, (n - 1) as nat) + if outs[n - 1] is Rendered { 1nat } else { 0nat }
    }
}

pub open spec fn pairs_of_pending(v: Seq<PendingMigration>) -> Seq<TextPair> {
    v.map_values(|m: PendingMigration| (m.name@, m.sql@))
}

pub open spec fn pairs_of_artifacts(v: Seq<DryRunArtifact>) -> Seq<TextPair> {
    v.map_values(|a: DryRunArtifact| (a.path@, a.contents@))
}

pub open spec fn pairs_of_failures(v: Seq<RenderFailure>) -> Seq<TextPair> {
    v.map_values(|f: RenderFailure| (f.name@, f.detail@))
}

/// The path of the dry-run output of migration `name` under `output_dir`.
pub fn artifact_path(output_dir: &str, name: &str) -> (r: String)
    ensures
        r@ == artifact_path_of(output_dir@, name@),
{
    proof {
        reveal_strlit("/");
        reveal_strlit(".sql");
    }
    let mut r = String::from_str(output_dir);
    r.append("/");
    r.append(name);
    r.append(".sql");
    assert(r@ =~= artifact_path_of(output_dir@, name@));
    r
}

/// Everything a run collects: dry-run files, queued migrations and render
/// failures, each in discovery order.
pub struct RunPlan {
    pub artifacts: Vec<DryRunArtifact>,
    pub pending: Vec<PendingMigration>,
    pub failures: Vec<RenderFailure>,
}

impl RunPlan {
    pub open spec fn view_plan(&self) -> PlanView {
        PlanView {
            artifacts: pairs_of_artifacts(self.artifacts@),
            pending: pairs_of_pending(self.pending@),
            failures: pairs_of_failures(self.failures@),
        }
    }

    /// A plan that has collected nothing.
    pub fn new() -> (r: RunPlan)
        ensures
            r.view_plan() == empty_plan(),
    {
        let r = RunPlan { artifacts: Vec::new(), pending: Vec::new(), failures: Vec::new() };
        assert(r.view_plan().artifacts =~= Seq::empty());
        assert(r.view_plan().pending =~= Seq::empty());
        assert(r.view_plan().failures =~= Seq::empty());
        r
    }

    /// Takes in the outcome of rendering the migration `name`. A failure is
    /// recorded and nothing else changes; a rendered migration becomes a
    /// dry-run file or a queued migration, by `mode`. Returns whether a new
    /// dry-run file is to be written (the last of `artifacts`).
    pub fn record(&mut self, name: &str, outcome: RenderOutcome, mode: &RunMode) -> (r: bool)
        ensures
            final(self).view_plan() == step_plan(old(self).view_plan(), name@, outcome, *mode),
            r == (outcome is Rendered && mode is DryRun),
    {
        let ghost o = outcome;
        let ghost before = self.view_plan();
        match outcome {
            RenderOutcome::Rendered(sql) => match mode {
                RunMode::DryRun { output_dir } => {
                    let path = artifact_path(output_dir.as_str(), name);
                    self.artifacts.push(DryRunArtifact { path, contents: sql });
                    assert(self.view_plan().artifacts =~= step_plan(before, name@, o, *mode).artifacts);
                    assert(self.view_plan().pending =~= before.pending);
                    assert(self.view_plan().failures =~= before.failures);
                    true
                },
                RunMode::Apply => {
                    self.pending.push(PendingMigration { name: name.to_string(), sql });
                    assert(self.view_plan().pending =~= step_plan(before, name@, o, *mode).pending);
                    assert(self.view_plan().artifacts =~= before.artifacts);
                    assert(self.view_plan().failures =~= before.failures);
                    false
                },
            },
            RenderOutcome::RenderFailed { name: n, detail } => {
                self.failures.push(RenderFailure { name: n, detail });
                assert(self.view_plan().failures =~= step_plan(before, name@, o, *mode).failures);
                assert(self.view_plan().artifacts =~= before.artifacts);
                assert(self.view_plan().pending =~= before.pending);
                false
            },
        }
    }
}

/// The text of a rendered outcome.
pub open spec fn rendered_text(o: RenderOutcome) -> Seq<char> {
    match o {
        RenderOutcome::Rendered(t) => t@,
        RenderOutcome::RenderFailed { .. } => Seq::empty(),
    }
}

/// What `mode` hands on from its rendered migrations: the queue, or the files.
pub open spec fn dispatched(p: PlanView, mode: RunMode) -> Seq<TextPair> {
    match mode {
        RunMode::DryRun { .. } => p.artifacts,
        RunMode::Apply => p.pending,
    }
}

/// What `mode` hands on for the migration `name` rendered to `t`.
pub open spec fn dispatched_entry(name: Seq<char>, t: Seq<char>, mode: RunMode) -> TextPair {
    match mode {
        RunMode::DryRun { output_dir } => (artifact_path_of(output_dir@, name), t),
        RunMode::Apply => (name, t),
    }
}

/// The other mode's sequence.
pub open spec fn undispatched(p: PlanView, mode: RunMode) -> Seq<TextPair> {
    match mode {
        RunMode::DryRun { .. } => p.pending,
        RunMode::Apply => p.artifacts,
    }
}

/// Some rendered outcome among the first `n` has `k` rendered ones before it.
pub open spec fn has_rank(outs: Seq<RenderOutcome>, n: nat, k: int) -> bool {
    exists|i: int| 0 <= i < n && outs[i] is Rendered && #[trigger] rendered_before(outs, i as nat) == k
}

proof fn lemma_rendered_before_monotone(outs: Seq<RenderOutcome>, i: nat, j: nat)
    requires
        i <= j,
    ensures
        rendered_before(outs, i) <= rendered_before(outs, j),
        i < j && outs[i as int] is Rendered ==> rendered_before(outs, i) < rendered_before(outs, j),
    decreases j - i,
{
    if i < j {
        lemma_rendered_before_monotone(outs, i, (j - 1) as nat);
    }
}

proof fn lemma_plan_prefix(srcs: Seq<MigrationSource>, outs: Seq<RenderOutcome>, mode: RunMode, n: nat)
    requires
        n <= outs.len(),
        srcs.len() == outs.len(),
    ensures
        dispatched(plan_prefix(srcs, outs, mode, n), mode).len() == rendered_before(outs, n),
        undispatched(plan_prefix(srcs, outs, mode, n), mode).len() == 0,
        forall|i: int| 0 <= i < n && (#[trigger] outs[i]) is Rendered ==> dispatched(plan_prefix(srcs, outs, mode, n), mode)[
            rendered_before(outs, i as nat) as int] == dispatched_entry(srcs[i].name@, rendered_text(outs[i]), mode),
        forall|k: int| 0 <= k < rendered_before(outs, n) ==> #[trigger] has_rank(outs, n, k),
    decreases n,
{
    if n > 0 {
        let m = (n - 1) as nat;
        lemma_plan_prefix(srcs, outs, mode, m);
        let prev = plan_prefix(srcs, outs, mode, m);
        let cur = plan_prefix(srcs, outs, mode, n);
        assert forall|i: int| 0 <= i < n && (#[trigger] outs[i]) is Rendered implies dispatched(cur, mode)[
            rendered_before(outs, i as nat) as int] == dispatched_entry(srcs[i].name@, rendered_text(outs[i]), mode) by {
            if i < m {
                lemma_rendered_before_monotone(outs, i as nat, m);
            }
        }
        assert forall|k: int| 0 <= k < rendered_before(outs, n) implies #[trigger] has_rank(outs, n, k) by {
            if k == rendered_before(outs, m) {
                assert(outs[m as int] is Rendered && rendered_before(outs, m) == k);
            } else {
                assert(has_rank(outs, m, k));
                let i = choose|i: int| 0 <= i < m && outs[i] is Rendered && #[trigger] rendered_before(outs, i as nat) == k;
                assert(0 <= i < n && outs[i] is Rendered && rendered_before(outs, i as nat) == k);
            }
        }
    }
}

/// The migrations handed on (queued, or written in a dry run) are exactly
/// the rendered ones, in discovery order: the one at position `i` of the
/// discovery order, if it rendered, is handed on after every rendered one
/// before it and before every rendered one after it, whatever the outcomes
/// of the others; the other mode's sequence stays empty.
pub proof fn lemma_dispatch_keeps_discovery_order(
    srcs: Seq<MigrationSource>,
    outs: Seq<RenderOutcome>,
    mode: RunMode,
    i: int,
    j: int,
)
    requires
        srcs.len() == outs.len(),
        0 <= i < j < outs.len(),
        outs[i] is Rendered,
        outs[j] is Rendered,
    ensures
        dispatched(plan_of(srcs, outs, mode), mode).len() == rendered_before(outs, outs.len()),
        undispatched(plan_of(srcs, outs, mode), mode).len() == 0,
        rendered_before(outs, i as nat) < rendered_before(outs, j as nat),
        dispatched(plan_of(srcs, outs, mode), mode)[rendered_before(outs, i as nat) as int]
            == dispatched_entry(srcs[i].name@, rendered_text(outs[i]), mode),
        dispatched(plan_of(srcs, outs, mode), mode)[rendered_before(outs, j as nat) as int]
            == dispatched_entry(srcs[j].name@, rendered_text(outs[j]), mode),
{
    lemma_plan_prefix(srcs, outs, mode, outs.len());
    lemma_rendered_before_monotone(outs, i as nat, j as nat);
    assert(outs[i] is Rendered);
    assert(outs[j] is Rendered);
}

/// A migration that renders is handed on whatever the other files' outcomes:
/// a template that fails elsewhere keeps no other migration out.
pub proof fn lemma_failure_is_isolated(
    srcs: Seq<MigrationSource>,
    outs: Seq<RenderOutcome>,
    mode: RunMode,
    i: int,
)
    requires
        srcs.len() == outs.len(),
        0 <= i < outs.len(),
        outs[i] is Rendered,
    ensures
        dispatched(plan_of(srcs, outs, mode), mode).contains(
            dispatched_entry(srcs[i].name@, rendered_text(outs[i]), mode),
        ),
{
    lemma_plan_prefix(srcs, outs, mode, outs.len());
    lemma_rendered_before_monotone(outs, i as nat, outs.len());
    assert(outs[i] is Rendered);
    let p = dispatched(plan_of(srcs, outs, mode), mode);
    assert(p[rendered_before(outs, i as nat) as int] == dispatched_entry(srcs[i].name@, rendered_text(outs[i]), mode));
}

/// When the sources are in discovery order (strictly increasing names), the
/// queue handed to the migration engine is too.
pub proof fn lemma_queue_sorted(srcs: Seq<MigrationSource>, outs: Seq<RenderOutcome>)
    requires
        srcs.len() == outs.len(),
        strictly_sorted(srcs),
    ensures
        forall|a: int, b: int| 0 <= a < b < plan_of(srcs, outs, RunMode::Apply).pending.len() ==> lex_lt(
            (#[trigger] plan_of(srcs, outs, RunMode::Apply).pending[a]).0,
            (#[trigger] plan_of(srcs, outs, RunMode::Apply).pending[b]).0,
        ),
{
    let mode = RunMode::Apply;
    lemma_plan_prefix(srcs, outs, mode, outs.len());
    let q = plan_of(srcs, outs, mode).pending;
    assert forall|a: int, b: int| 0 <= a < b < q.len() implies lex_lt((#[trigger] q[a]).0, (#[trigger] q[b]).0) by {
        assert(has_rank(outs, outs.len(), a) && has_rank(outs, outs.len(), b));
        let ia = choose|i: int| 0 <= i < outs.len() && outs[i] is Rendered && #[trigger] rendered_before(outs, i as nat) == a;
        let ib = choose|i: int| 0 <= i < outs.len() && outs[i] is Rendered && #[trigger] rendered_before(outs, i as nat) == b;
        if ib <= ia {
            lemma_rendered_before_monotone(outs, ib as nat, ia as nat);
        }
        assert(ia < ib);
        assert(outs[ia] is Rendered && outs[ib] is Rendered);
        assert(lex_lt(srcs[ia].name@, srcs[ib].name@));
    }
}

/// A dry run is repeatable: two runs (two results of `plan_run`) over the same
/// sources and the same render outcomes plan the same files, path for path and
/// byte for byte, in the same order.
pub proof fn lemma_dry_run_repeatable(
    first: RunPlan,
    second: RunPlan,
    srcs: Seq<MigrationSource>,
    outs: Seq<RenderOutcome>,
    output_dir: String,
)
    requires
        srcs.len() == outs.len(),
        first.view_plan() == plan_of(srcs, outs, RunMode::DryRun { output_dir }),
        second.view_plan() == plan_of(srcs, outs, RunMode::DryRun { output_dir }),
    ensures
        first.artifacts@.len() == second.artifacts@.len(),
        forall|i: int| 0 <= i < first.artifacts@.len() ==> (#[trigger] first.artifacts@[i]).path@
            == second.artifacts@[i].path@ && first.artifacts@[i].contents@ == second.artifacts@[i].contents@,
{
    let p1 = pairs_of_artifacts(first.artifacts@);
    let p2 = pairs_of_artifacts(second.artifacts@);
    assert(p1 == p2);
    assert(p1.len() == first.artifacts@.len() && p2.len() == second.artifacts@.len());
    assert forall|i: int| 0 <= i < first.artifacts@.len() implies (#[trigger] first.artifacts@[i]).path@
        == second.artifacts@[i].path@ && first.artifacts@[i].contents@ == second.artifacts@[i].contents@ by {
        assert(p1[i] == p2[i]);
    }
}

proof fn lemma_artifact_path_injective(dir: Seq<char>, a: Seq<char>, b: Seq<char>)
    requires
        artifact_path_of(dir, a) == artifact_path_of(dir, b),
    ensures
        a == b,
{
    let pa = artifact_path_of(dir, a);
    let pb = artifact_path_of(dir, b);
    let lo = dir.len() + 1int;
    let slash = seq!['/'];
    let ext = seq!['.', 's', 'q', 'l'];
    assert(slash.len() == 1 && ext.len() == 4);
    assert(pa.len() == dir.len() + 1 + a.len() + 4);
    assert(pb.len() == dir.len() + 1 + b.len() + 4);
    assert(a.len() == b.len());
    assert(pa.subrange(lo, lo + a.len() as int) =~= a);
    assert(pb.subrange(lo, lo + b.len() as int) =~= b);
}

/// A dry run writes each file once: when the sources have distinct names (as
/// discovery orders them), no two files of the run share a path, so writing
/// them in turn leaves each with the contents planned for it.
pub proof fn lemma_dry_run_paths_distinct(
    srcs: Seq<MigrationSource>,
    outs: Seq<RenderOutcome>,
    output_dir: String,
)
    requires
        srcs.len() == outs.len(),
        strictly_sorted(srcs),
    ensures
        forall|a: int, b: int|
            0 <= a < b < plan_of(srcs, outs, RunMode::DryRun { output_dir }).artifacts.len() ==> (
            #[trigger] plan_of(srcs, outs, RunMode::DryRun { output_dir }).artifacts[a]).0 != (
            #[trigger] plan_of(srcs, outs, RunMode::DryRun { output_dir }).artifacts[b]).0,
{
    let mode = RunMode::DryRun { output_dir };
    lemma_plan_prefix(srcs, outs, mode, outs.len());
    let q = plan_of(srcs, outs, mode).artifacts;
    assert forall|a: int, b: int| 0 <= a < b < q.len() implies (#[trigger] q[a]).0 != (#[trigger] q[b]).0 by {
        assert(has_rank(outs, outs.len(), a) && has_rank(outs, outs.len(), b));
        let ia = choose|i: int| 0 <= i < outs.len() && outs[i] is Rendered && #[trigger] rendered_before(outs, i as nat) == a;
        let ib = choose|i: int| 0 <= i < outs.len() && outs[i] is Rendered && #[trigger] rendered_before(outs, i as nat) == b;
        if ib <= ia {
            lemma_rendered_before_monotone(outs, ib as nat, ia as nat);
        }
        assert(outs[ia] is Rendered && outs[ib] is Rendered);
        assert(lex_lt(srcs[ia].name@, srcs[ib].name@));
        lemma_lex_irreflexive(srcs[ia].name@);
        if q[a].0 == q[b].0 {
            lemma_artifact_path_injective(output_dir@, srcs[ia].name@, srcs[ib].name@);
        }
    }
}

/// Runs the whole dispatch over the sources, in order, with their outcomes.
pub fn plan_run(sources: &Vec<MigrationSource>, outcomes: Vec<RenderOutcome>, mode: &RunMode) -> (r: RunPlan)
    requires
        sources@.len() == outcomes@.len(),
    ensures
        r.view_plan() == plan_of(sources@, outcomes@, *mode),
{
    let ghost outs = outcomes@;
    let mut plan = RunPlan::new();
    let mut rest = outcomes;
    let n = sources.len();
    let mut i: usize = 0;
    assert(rest@ =~= outs.subrange(0, n as int));
    while i < n
        invariant
            n == sources@.len(),
            n == outs.len(),
            i <= n,
            rest@.len() == n - i,
            rest@ == outs.subrange(i as int, n as int),
            plan.view_plan() == plan_prefix(sources@, outs, *mode, i as nat),
        decreases n - i,
    {
        let o = rest.remove(0);
        assert(o == outs[i as int]);
        assert(rest@ =~= outs.subrange(i + 1, n as int));
        plan.record(sources[i].name.as_str(), o, mode);
        i = i + 1;
    }
    plan
}

} // verus!
