//! The converge route's decisions around its outside work: the request
//! check, the plan-and-preflight phase that either answers at once or
//! hands the plan to execution, the execution run row by row, and the
//! closing response.
use vstd::prelude::*;
use vstd::string::StringExecFns;
use crate::auth::ApiError;
use crate::keyed::keys_unique;
use crate::team::converge::{
    LiveBody, PlannedAction, RowReport, execution_order, execution_order_spec, lemma_indices_where, outcome_spec,
    record_outcome, report_fits, result_view, row_runs, runs, upsert_spec, TeamPlanRow, converge_plan_table, mapping_view, plan_converge, preflight_converge,
    preflight_spec, project_mapping, project_spec, rej_view, seed_mapping, seed_spec,
};
use crate::team::status::LockPair;
use crate::team::{TeamActionResult, TeamConvergeOutcome, TeamDeclaration, TeamLockEntry, TeamRejection, TeamRowOutcome, opt_view};

verus! {

/// What a converge answers: the plan as rows, the rows it executed, the
/// preflight refusals, and the resulting role→id mapping.
#[derive(Clone, Debug)]
pub struct TeamConvergeResponse {
    pub declaration_path: String,
    pub dry_run: bool,
    pub outcome: TeamConvergeOutcome,
    pub plan: Vec<TeamPlanRow>,
    pub results: Vec<TeamActionResult>,
    pub rejections: Vec<TeamRejection>,
    pub lock: Vec<TeamLockEntry>,
}

/// `w` is the wire row of plan row `a`.
pub open spec fn row_wired(w: TeamPlanRow, a: PlannedAction) -> bool {
    &&& w.role@ == a.role@
    &&& w.action == a.action
    &&& opt_view(w.agent_id) == opt_view(a.target)
    &&& w.notes.deep_view() == a.notes.deep_view()
    &&& w.disposition == a.disposition
}

/// `w` is the plan `p` row for row.
pub open spec fn rows_wired(w: Seq<TeamPlanRow>, p: Seq<PlannedAction>) -> bool {
    w.len() == p.len() && forall|i: int| 0 <= i < w.len() ==> row_wired(#[trigger] w[i], p[i])
}

/// The plan as wire rows, in plan order.
pub fn plan_rows(plan: &Vec<PlannedAction>) -> (r: Vec<TeamPlanRow>)
    ensures rows_wired(r@, plan@),
{
    let mut out: Vec<TeamPlanRow> = Vec::new();
    let mut i: usize = 0;
    while i < plan.len()
        invariant
            i <= plan.len(),
            out@.len() == i,
            forall|k: int| 0 <= k < i ==> row_wired(#[trigger] out@[k], plan@[k]),
        decreases plan.len() - i,
    {
        out.push(plan[i].to_wire());
        i = i + 1;
    }
    out
}

/// A converge must name its declaration file (`400` otherwise).
pub fn check_converge_file(file: &String) -> (r: Result<(), ApiError>)
    ensures
        (r is Ok) <==> file@.len() > 0,
        r matches Err(e) ==> e.status == 400 && e.message@ == "'file' must name the declaration file"@,
{
    if file.as_str().unicode_len() == 0 {
        return Err(ApiError::bad_request(String::from_str("'file' must name the declaration file")));
    }
    Ok(())
}

/// After planning: answer now, or execute the plan starting from this
/// mapping.
pub enum ConvergeStep {
    Respond(TeamConvergeResponse),
    Execute(Vec<TeamLockEntry>),
}

/// The converge up to execution. The plan comes from the status
/// comparison; the mapping is seeded with every lock record that
/// survived planning; a preflight refusal answers `Rejected` with the
/// seeded mapping (dry run or not); a clean dry run answers `Planned`
/// with the mapping the plan projects (spawns, whose ids execution
/// mints, bind nothing); anything else goes on to execution. The caller
/// supplies what the disk and the profile bundle say (see
/// [`preflight_converge`]).
pub fn converge_phase(
    file: &String,
    dry_run: bool,
    declaration: &TeamDeclaration,
    lock: &Vec<LockPair>,
    root: Option<&LiveBody>,
    live: &Vec<LiveBody>,
    force: bool,
    known_sets: &Vec<String>,
    stale_inactive: &Vec<String>,
    skill_errors: &Vec<(String, String)>,
    max_agents: usize,
    max_subagents: usize,
    stamped: &String,
) -> (r: (Vec<PlannedAction>, ConvergeStep))
    requires keys_unique(skill_errors@),
    ensures
        ({
            let root_v = match root { Some(x) => Some(*x), None => None };
            let plan = r.0@;
            let rej = preflight_spec(
                plan,
                root_v,
                lock@,
                live@,
                force,
                known_sets.deep_view(),
                stale_inactive.deep_view(),
                skill_errors@,
                max_agents as nat,
                max_subagents as nat,
            );
            let seed = seed_spec(lock@, plan, stamped@);
            &&& converge_plan_table(declaration.roles@, lock@, root_v, live@, plan)
            &&& match r.1 {
                ConvergeStep::Respond(resp) => {
                    &&& resp.declaration_path@ == file@
                    &&& resp.dry_run == dry_run
                    &&& rows_wired(resp.plan@, plan)
                    &&& resp.results@.len() == 0
                    &&& if rej.len() > 0 {
                        &&& resp.outcome == TeamConvergeOutcome::Rejected
                        &&& rej_view(resp.rejections@) == rej
                        &&& mapping_view(resp.lock@) == seed
                    } else {
                        &&& dry_run
                        &&& resp.outcome == TeamConvergeOutcome::Planned
                        &&& resp.rejections@.len() == 0
                        &&& mapping_view(resp.lock@) == project_spec(seed, plan, None, stamped@)
                    }
                },
                ConvergeStep::Execute(mapping) => rej.len() == 0 && !dry_run && mapping_view(mapping@) == seed,
            }
        }),
{
    let plan = plan_converge(declaration, lock, root, live);
    let mut mapping = seed_mapping(lock, &plan, stamped);
    let rejections = preflight_converge(
        &plan,
        root,
        lock,
        live,
        force,
        known_sets,
        stale_inactive,
        skill_errors,
        max_agents,
        max_subagents,
    );
    if rejections.len() > 0 {
        let rows = plan_rows(&plan);
        let resp = TeamConvergeResponse {
            declaration_path: file.clone(),
            dry_run,
            outcome: TeamConvergeOutcome::Rejected,
            plan: rows,
            results: Vec::new(),
            rejections,
            lock: mapping,
        };
        return (plan, ConvergeStep::Respond(resp));
    }
    if dry_run {
        project_mapping(&mut mapping, &plan, None, stamped);
        let rows = plan_rows(&plan);
        let resp = TeamConvergeResponse {
            declaration_path: file.clone(),
            dry_run: true,
            outcome: TeamConvergeOutcome::Planned,
            plan: rows,
            results: Vec::new(),
            rejections: Vec::new(),
            lock: mapping,
        };
        return (plan, ConvergeStep::Respond(resp));
    }
    (plan, ConvergeStep::Execute(mapping))
}

/// The response after execution: `Aborted` when a row stopped the
/// batch, `Applied` otherwise, with the executed rows and the final
/// mapping the run holds.
pub fn finish_converge(file: &String, plan: &Vec<PlannedAction>, run: BatchRun) -> (resp: TeamConvergeResponse)
    ensures
        resp.declaration_path@ == file@,
        !resp.dry_run,
        resp.outcome == if run.stopped() { TeamConvergeOutcome::Aborted } else { TeamConvergeOutcome::Applied },
        rows_wired(resp.plan@, plan@),
        resp.results@ == run.results(),
        resp.rejections@.len() == 0,
        resp.lock@ == run.mapping(),
{
    let (results, mapping, aborted) = run.finish();
    TeamConvergeResponse {
        declaration_path: file.clone(),
        dry_run: false,
        outcome: if aborted { TeamConvergeOutcome::Aborted } else { TeamConvergeOutcome::Applied },
        plan: plan_rows(plan),
        results,
        rejections: Vec::new(),
        lock: mapping,
    }
}

/// A converge plan's execution in progress: the rows in execution order
/// (deactivations first), the position of the next row, whether a
/// failure stopped the batch, the result rows so far and the role→id
/// mapping as the landed rows left it. The caller does each row's
/// outside work between [`BatchRun::next_row`] and [`BatchRun::land`].
pub struct BatchRun {
    order: Vec<usize>,
    pos: usize,
    stopped: bool,
    results: Vec<TeamActionResult>,
    mapping: Vec<TeamLockEntry>,
}

/// Every result row but the last applied; the run stopped exactly when
/// there is a last row and it failed.
pub open spec fn fail_fast(results: Seq<TeamActionResult>, stopped: bool) -> bool {
    &&& forall|i: int| 0 <= i < results.len() - 1 ==> (#[trigger] results[i]).outcome == TeamRowOutcome::Applied
    &&& stopped <==> (results.len() > 0 && results.last().outcome == TeamRowOutcome::Failed)
}

impl BatchRun {
    /// The plan indices in the order execution visits them.
    pub closed spec fn order(&self) -> Seq<usize> {
        self.order@
    }

    /// How many rows of [`order`](Self::order) have been passed.
    pub closed spec fn pos(&self) -> nat {
        self.pos as nat
    }

    /// A failure stopped the batch.
    pub closed spec fn stopped(&self) -> bool {
        self.stopped
    }

    /// The result rows of the rows landed so far, in landing order.
    pub closed spec fn results(&self) -> Seq<TeamActionResult> {
        self.results@
    }

    /// The role→id mapping as the landed rows left it.
    pub closed spec fn mapping(&self) -> Seq<TeamLockEntry> {
        self.mapping@
    }

    pub closed spec fn wf(&self, plan: Seq<PlannedAction>) -> bool {
        &&& self.pos <= self.order@.len()
        &&& forall|k: int| 0 <= k < self.order@.len() ==> #[trigger] self.order@[k] < plan.len()
        &&& fail_fast(self.results@, self.stopped)
    }

    /// Begin executing `plan` over the seeded `mapping`.
    pub fn start(plan: &Vec<PlannedAction>, mapping: Vec<TeamLockEntry>) -> (b: BatchRun)
        ensures
            b.wf(plan@),
            b.order() == execution_order_spec(plan@),
            b.pos() == 0,
            !b.stopped(),
            b.results().len() == 0,
            b.mapping() == mapping@,
    {
        let order = execution_order(plan);
        let n = plan.len();
        proof {
            assert(plan@.len() == n);
            lemma_indices_where(plan@, true);
            lemma_indices_where(plan@, false);
            let a = crate::team::converge::indices_where(plan@, true);
            let c = crate::team::converge::indices_where(plan@, false);
            assert forall|k: int| 0 <= k < order@.len() implies #[trigger] order@[k] < plan@.len() by {
                if k < a.len() {
                    assert(order@[k] == a[k]);
                } else {
                    assert(order@[k] == c[k - a.len()]);
                }
            }
        }
        BatchRun { order, pos: 0, stopped: false, results: Vec::new(), mapping }
    }

    /// The next row to execute: rows that do not run (retains, and rows
    /// without the live target they act on) are passed over; a stopped
    /// batch or an exhausted plan has none.
    pub fn next_row(&mut self, plan: &Vec<PlannedAction>) -> (r: Option<usize>)
        requires old(self).wf(plan@),
        ensures
            final(self).wf(plan@),
            final(self).order() == old(self).order(),
            final(self).stopped() == old(self).stopped(),
            old(self).stopped() ==> r is None && final(self).pos() == old(self).pos(),
            !old(self).stopped() ==> {
                &&& old(self).pos() <= final(self).pos()
                &&& forall|k: int| old(self).pos() <= k < final(self).pos()
                    ==> !runs(plan@[#[trigger] old(self).order()[k] as int])
                &&& match r {
                    Some(i) => final(self).pos() < final(self).order().len() && i == final(self).order()[final(self).pos() as int]
                        && runs(plan@[i as int]),
                    None => final(self).pos() == final(self).order().len(),
                }
            },
    {
        if self.stopped {
            return None;
        }
        let ghost p0 = self.pos;
        while self.pos < self.order.len() && !row_runs(&plan[self.order[self.pos]])
            invariant
                self.wf(plan@),
                !self.stopped,
                self.order@ == old(self).order@,
                p0 == old(self).pos,
                p0 <= self.pos,
                forall|k: int| p0 <= k < self.pos ==> !runs(plan@[#[trigger] self.order@[k] as int]),
            decreases self.order@.len() - self.pos,
        {
            self.pos = self.pos + 1;
        }
        if self.pos < self.order.len() {
            Some(self.order[self.pos])
        } else {
            None
        }
    }

    /// Land the row [`next_row`](Self::next_row) gave, with its outside
    /// work's report: its result row and mapping rebind as
    /// [`record_outcome`] says, the position past it, and a failure stops
    /// the batch (fail-fast: every later `next_row` has none).
    pub fn land(&mut self, plan: &Vec<PlannedAction>, report: RowReport, stamped: &String) -> (stop: bool)
        requires
            old(self).wf(plan@),
            !old(self).stopped(),
            old(self).pos() < old(self).order().len(),
            runs(plan@[old(self).order()[old(self).pos() as int] as int]),
            report_fits(plan@[old(self).order()[old(self).pos() as int] as int], report),
        ensures
            final(self).wf(plan@),
            final(self).order() == old(self).order(),
            final(self).pos() == old(self).pos() + 1,
            final(self).stopped() == stop,
            ({
                let a = plan@[old(self).order()[old(self).pos() as int] as int];
                let o = outcome_spec(a, report);
                &&& final(self).results().len() == old(self).results().len() + 1
                &&& forall|i: int| 0 <= i < old(self).results().len() ==> final(self).results()[i] == old(self).results()[i]
                &&& result_view(final(self).results().last()) == o.0
                &&& mapping_view(final(self).mapping()) == match o.1 {
                    Some(id) => upsert_spec(mapping_view(old(self).mapping()), a.role@, id, stamped@),
                    None => mapping_view(old(self).mapping()),
                }
                &&& stop == o.2
            }),
    {
        let _n = self.order.len();
        let i = self.order[self.pos];
        let ghost before = self.results@;
        let stop = record_outcome(&mut self.mapping, &mut self.results, &plan[i], report, stamped);
        proof {
            let o = outcome_spec(plan@[i as int], report);
            assert(o.2 <==> o.0.outcome == TeamRowOutcome::Failed);
            assert forall|j: int| 0 <= j < self.results@.len() - 1 implies
                (#[trigger] self.results@[j]).outcome == TeamRowOutcome::Applied by {
                assert(self.results@[j] == before[j]);
            }
        }
        self.pos = self.pos + 1;
        self.stopped = stop;
        stop
    }

    /// End the run: the result rows, the mapping, and whether a failure
    /// aborted the batch. Fail-fast: the batch aborted exactly when the
    /// last result row failed, and every earlier row applied.
    pub fn finish(self) -> (r: (Vec<TeamActionResult>, Vec<TeamLockEntry>, bool))
        ensures
            r.0@ == self.results(),
            r.1@ == self.mapping(),
            r.2 == self.stopped(),
    {
        (self.results, self.mapping, self.stopped)
    }
}

/// Law: a batch is fail-fast. In any run, every result row but the last
/// applied, and the run stopped (the converge aborts) exactly when there
/// is a last row and it failed; once stopped, no row is handed out.
pub proof fn law_batch_is_fail_fast(run: BatchRun, plan: Seq<PlannedAction>)
    requires run.wf(plan),
    ensures
        forall|i: int| 0 <= i < run.results().len() - 1 ==> (#[trigger] run.results()[i]).outcome == TeamRowOutcome::Applied,
        run.stopped() <==> (run.results().len() > 0 && run.results().last().outcome == TeamRowOutcome::Failed),
{
}

/// Converges run one at a time: a second one is refused, never queued
/// (`409`); `acquired` says whether this request took the converge
/// permit.
pub fn converge_permit(acquired: bool) -> (r: Result<(), ApiError>)
    ensures
        (r is Ok) <==> acquired,
        r matches Err(e) ==> e.status == 409 && e.message@ == "converge already in progress"@,
{
    if acquired {
        Ok(())
    } else {
        Err(ApiError::conflict(String::from_str("converge already in progress")))
    }
}

} // verus!
