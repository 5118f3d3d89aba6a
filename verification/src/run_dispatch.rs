//! The way of a command on a run: what it has to pass before anything happens, the
//! stops of a cancellation, and the answer.

use crate::authority::{expectations_met, ControllerLease, ControllerView, InProcessAuthorizer};
use crate::command::{
    CommandEnvelope, CommandPayload, CommandProblem, EnvelopeView, PayloadView, ProblemView,
};
use crate::dispatch::{
    replay_view, AppliedView, CommandCoordinator, CommandOutcome, TargetDatabase, TargetTables,
};
use crate::handles::{
    command_id_of, expectations, outcome, v7_as_given, AgentRunHandle, AgentSessionHandle, ClientId,
    CommandId, CommandTarget, ExpectedRevision, ExpectedView, Principal, ProjectStoreHandle,
    StepHandle, TargetStoreKind, TargetView, WorkflowRunHandle,
};
use crate::json::{
    as_text_view, as_u64_view, field_in, field_of, items_view, lemma_array_view, Json, JsonView,
};
use crate::kernel::{
    built, find_project, kernel_answer, open_project, project_at, project_registration,
    registrations, ProjectRegistration, RegistrationRow,
};
use crate::lease::{CommandAuthorizer, CommandPermit};
use crate::problem::{kernel_of_command, KernelProblem, KernelProblemView};
use crate::project_registry::{
    ended_project, register_view, token_code, RunCapabilityKey, ServiceStore, StoreView,
};
use crate::project_rows::{
    agent_run_by_handle, find_agent_run_by_handle, find_task_by_handle, task_by_handle, ProjectRows,
    RowsView,
};
use crate::run_command::{
    kept_version, kept_versions, versions, KernelCommand, KernelCommandRequest, KernelCommandView,
    KernelOutcome, KernelOutcomeView, RequestView, RunCommandView, RunExpectedView, VersionView,
    VersionedHandle, WorkflowRunCommand, WorkflowRunExpected,
};
use crate::run_effects::{stops_view, PreparedRunStop, RunStopOutcome, StopView};
use crate::run_scope::{run_scope, validate_workflow_run_scope};
use crate::text::{blank, cat, is_blank, same, lemma_starts_with_letter};
use vstd::prelude::*;
use vstd::string::*;

verus! {

/// The right to close a project: it is good for one opening of its store.
#[derive(Debug)]
pub struct ProjectCloseToken {
    project: ProjectStoreHandle,
    opening: u64,
}

/// The right to close a project, as a value.
pub ghost struct CloseView {
    pub project: Seq<char>,
    pub opening: u64,
}

impl View for ProjectCloseToken {
    type V = CloseView;

    closed spec fn view(&self) -> CloseView {
        CloseView { project: self.project@, opening: self.opening }
    }
}

impl ProjectCloseToken {
    /// The project that is being closed.
    pub fn project(&self) -> (r: &ProjectStoreHandle)
        ensures
            r@ == self@.project,
    {
        &self.project
    }
}

/// Where a project stands that a token closes.
pub open spec fn closing_project(v: Seq<RegistrationRow>, token: CloseView) -> Result<
    int,
    KernelProblemView,
> {
    match project_at(v, token.project, 0) {
        Some(i) => if v[i].closing && v[i].opening == token.opening {
            Ok(i)
        } else {
            Err(KernelProblemView::ServiceUnavailable("project_close_token_invalid"@))
        },
        None => Err(KernelProblemView::ServiceUnavailable("project_close_token_invalid"@)),
    }
}

/// Where a project stands that a token closes.
pub fn project_registration_for_close(
    v: &Vec<ProjectRegistration>,
    token: &ProjectCloseToken,
) -> (r: Result<usize, KernelProblem>)
    ensures
        match r {
            Ok(i) => i < v@.len() && closing_project(registrations(v@), token@) == Ok::<
                int,
                KernelProblemView,
            >(i as int),
            Err(p) => closing_project(registrations(v@), token@) == Err::<int, KernelProblemView>(
                p@,
            ),
        },
{
    match find_project(v, token.project.as_str()) {
        Some(i) => {
            assert(registrations(v@)[i as int] == v@[i as int]@);
            if v[i].closing && v[i].opening == token.opening {
                Ok(i)
            } else {
                Err(KernelProblem::unavailable("project_close_token_invalid"))
            }
        },
        None => Err(KernelProblem::unavailable("project_close_token_invalid")),
    }
}

/// The projects with one that is being closed, and the right to close it.
pub open spec fn close_begun(v: Seq<RegistrationRow>, project: Seq<char>) -> Result<
    (Seq<RegistrationRow>, CloseView),
    KernelProblemView,
> {
    match project_at(v, project, 0) {
        None => Err(KernelProblemView::ResourceNotFound),
        Some(i) => Ok(
            (
                v.update(i, RegistrationRow { closing: true, ..v[i] }),
                CloseView { project, opening: v[i].opening },
            ),
        ),
    }
}

/// Begins to close a project: it takes no more commands from here on. Beginning again
/// gives the same right.
pub fn begin_project_close(v: &mut Vec<ProjectRegistration>, project: &ProjectStoreHandle) -> (r:
    Result<ProjectCloseToken, KernelProblem>)
    ensures
        match r {
            Ok(token) => close_begun(registrations(old(v)@), project@) == Ok::<
                (Seq<RegistrationRow>, CloseView),
                KernelProblemView,
            >((registrations(final(v)@), token@)),
            Err(p) => close_begun(registrations(old(v)@), project@) == Err::<
                (Seq<RegistrationRow>, CloseView),
                KernelProblemView,
            >(p@) && final(v)@ == old(v)@,
        },
{
    let ghost had = v@;
    match find_project(v, project.as_str()) {
        None => Err(KernelProblem::ResourceNotFound),
        Some(i) => {
            proof {
                lemma_project_at(registrations(had), project@, 0);
            }
            assert(registrations(had)[i as int] == had[i as int]@);
            v[i].closing = true;
            assert(registrations(v@) =~= registrations(had).update(
                i as int,
                RegistrationRow { closing: true, ..registrations(had)[i as int] },
            ));
            Ok(ProjectCloseToken { project: project.clone(), opening: v[i].opening })
        },
    }
}

/// A project that is found stands behind where the search began, and has the handle.
pub proof fn lemma_project_at(v: Seq<RegistrationRow>, project: Seq<char>, from: int)
    requires
        0 <= from,
    ensures
        project_at(v, project, from) matches Some(i) ==> from <= i < v.len() && v[i].project
            == project,
    decreases v.len() - from,
{
    if from < v.len() && v[from].project != project {
        lemma_project_at(v, project, from + 1);
    }
}

/// A project that is being closed takes no more commands, and its right is good as long
/// as no other opening takes its place.
pub proof fn law_closing_comes_first(v: Seq<RegistrationRow>, project: Seq<char>)
    requires
        close_begun(v, project) is Ok,
    ensures
        ({
            let (after, token) = close_begun(v, project)->Ok_0;
            &&& open_project(after, project) is Err
            &&& closing_project(after, token) is Ok
            &&& close_begun(after, project) == close_begun(v, project)
        }),
{
    lemma_project_at(v, project, 0);
    let at = project_at(v, project, 0)->0;
    let after = v.update(at, RegistrationRow { closing: true, ..v[at] });
    lemma_same_place(v, after, project, 0);
    assert(after.update(at, RegistrationRow { closing: true, ..after[at] }) =~= after);
}

proof fn lemma_same_place(
    a: Seq<RegistrationRow>,
    b: Seq<RegistrationRow>,
    project: Seq<char>,
    from: int,
)
    requires
        0 <= from,
        a.len() == b.len(),
        forall|i: int| 0 <= i < a.len() ==> (#[trigger] a[i]).project == b[i].project,
    ensures
        project_at(a, project, from) == project_at(b, project, from),
    decreases a.len() - from,
{
    if from < a.len() {
        assert(a[from].project == b[from].project);
        lemma_same_place(a, b, project, from + 1);
    }
}

/// What stands ready outside the store for a project's runs.
#[derive(Debug, Clone, Copy, PartialEq, Eq, Structural)]
pub struct RunPorts {
    pub lifecycle: bool,
    pub bound_answers: bool,
    pub start: bool,
}

/// The command that a command on a run becomes.
pub open spec fn run_envelope(
    request: RequestView,
    c: RunCommandView,
    expected: Seq<ExpectedView>,
) -> EnvelopeView {
    EnvelopeView {
        command_id: request.command_id,
        client_id: request.client_id,
        principal: request.principal,
        controller_epoch: request.controller_epoch,
        root_epoch: None,
        target: TargetView {
            store: TargetStoreKind::Project,
            store_handle: c.project(),
            aggregate: c.target(),
        },
        expected,
        command_type: c.command_type(),
        payload: PayloadView::Plain(c.payload()),
    }
}

/// An agent run that a cancellation stops: its id, its handle and its revision.
#[derive(Debug)]
pub struct CancelTarget {
    pub run_id: i64,
    pub handle: AgentRunHandle,
    pub revision: i64,
}

/// An agent run that a cancellation stops, as a value.
pub ghost struct CancelTargetView {
    pub run_id: i64,
    pub handle: Seq<char>,
    pub revision: i64,
}

impl View for CancelTarget {
    type V = CancelTargetView;

    open spec fn view(&self) -> CancelTargetView {
        CancelTargetView { run_id: self.run_id, handle: self.handle@, revision: self.revision }
    }
}

/// Agent runs that a cancellation stops, as values.
pub open spec fn cancel_targets_view(v: Seq<CancelTarget>) -> Seq<CancelTargetView> {
    v.map_values(|t: CancelTarget| t@)
}

/// What a command on a run comes to next: an operation that starts a run, an answer that
/// is already there, agent runs that have to be stopped, or its preparation.
pub enum RunStage {
    Start,
    Answered(CommandOutcome),
    Stop { task_id: i64, targets: Vec<CancelTarget> },
    Prepare,
}

/// What a command on a run comes to next, as a value.
pub ghost enum StageView {
    Start,
    Answered(AppliedView),
    Stop { task_id: i64, targets: Seq<CancelTargetView> },
    Prepare,
}

impl View for RunStage {
    type V = StageView;

    open spec fn view(&self) -> StageView {
        match *self {
            RunStage::Start => StageView::Start,
            RunStage::Answered(o) => StageView::Answered(o@),
            RunStage::Stop { task_id, targets } => StageView::Stop {
                task_id,
                targets: cancel_targets_view(targets@),
            },
            RunStage::Prepare => StageView::Prepare,
        }
    }
}

/// The first `n` agent runs that a cancellation stops.
pub open spec fn cancel_targets(rows: RowsView, runs: Seq<VersionView>, n: nat) -> Result<
    Seq<CancelTargetView>,
    ProblemView,
>
    decreases n,
{
    if n == 0 {
        Ok(seq![])
    } else {
        match cancel_targets(rows, runs, (n - 1) as nat) {
            Err(p) => Err(p),
            Ok(before) => match agent_run_by_handle(rows.agent_runs, runs[n - 1].handle, 0) {
                None => Err(ProblemView::ResourceNotFound),
                Some(run) => if runs[n - 1].revision > i64::MAX {
                    Err(ProblemView::InvalidEnvelope("Agent Run revision 溢出"@))
                } else {
                    Ok(
                        before.push(
                            CancelTargetView {
                                run_id: run.id,
                                handle: runs[n - 1].handle,
                                revision: runs[n - 1].revision as i64,
                            },
                        ),
                    )
                },
            },
        }
    }
}

proof fn lemma_cancel_targets_stop(rows: RowsView, runs: Seq<VersionView>, n: nat, all: nat)
    requires
        n <= all,
        cancel_targets(rows, runs, n) is Err,
    ensures
        cancel_targets(rows, runs, all) == cancel_targets(rows, runs, n),
    decreases all - n,
{
    if n < all {
        lemma_cancel_targets_stop(rows, runs, n + 1, all);
    }
}

fn list_cancel_targets(rows: &ProjectRows, runs: &Vec<VersionedHandle<AgentRunHandle>>) -> (r:
    Result<Vec<CancelTarget>, CommandProblem>)
    ensures
        (match r {
            Ok(v) => Ok(cancel_targets_view(v@)),
            Err(p) => Err(p@),
        }) == cancel_targets(rows@, versions(runs@), runs@.len()),
{
    let ghost all = versions(runs@);
    let mut out: Vec<CancelTarget> = Vec::new();
    let mut i: usize = 0;
    assert(cancel_targets_view(out@) =~= seq![]);
    while i < runs.len()
        invariant
            i <= runs@.len(),
            all == versions(runs@),
            cancel_targets(rows@, all, i as nat) == Ok::<Seq<CancelTargetView>, ProblemView>(
                cancel_targets_view(out@),
            ),
        decreases runs@.len() - i,
    {
        let ghost had = out@;
        assert(all[i as int] == runs@[i as int]@);
        let run_id: i64 = match find_agent_run_by_handle(
            &rows.agent_runs,
            runs[i].handle.as_str(),
        ) {
            Some(k) => rows.agent_runs[k].id,
            None => {
                proof {
                    lemma_cancel_targets_stop(rows@, all, (i + 1) as nat, all.len());
                }
                return Err(CommandProblem::ResourceNotFound);
            },
        };
        if runs[i].revision > 0x7fff_ffff_ffff_ffff {
            proof {
                lemma_cancel_targets_stop(rows@, all, (i + 1) as nat, all.len());
            }
            return Err(CommandProblem::invalid("Agent Run revision 溢出"));
        }
        let t: CancelTarget = CancelTarget {
            run_id,
            handle: runs[i].handle.clone(),
            revision: runs[i].revision as i64,
        };
        out.push(t);
        assert(cancel_targets_view(out@) =~= cancel_targets_view(had).push(t@));
        i = i + 1;
    }
    Ok(out)
}

/// What a command has to pass before anything happens: its sender, its revisions, and
/// that it lists everything it touches.
pub open spec fn fully_checked(
    lease: ControllerView,
    rows: RowsView,
    c: RunCommandView,
    e: EnvelopeView,
) -> Result<(), ProblemView> {
    match lease.admits(e.lease()) {
        Err(p) => Err(p),
        Ok(_) => match expectations_met(rows, e.target.store_handle, e.expected, 0) {
            Err(p) => Err(p),
            Ok(_) => run_scope(rows, c),
        },
    }
}

/// What a command on a run comes to, once it is a command on an open project.
pub open spec fn run_stage(
    lease: ControllerView,
    rows: RowsView,
    t: TargetTables,
    c: RunCommandView,
    e: EnvelopeView,
    digest: Result<Seq<char>, ProblemView>,
    ports: RunPorts,
) -> Result<StageView, KernelProblemView> {
    let admission = lease.admits(e.lease());
    let expectation = expectations_met(rows, e.target.store_handle, e.expected, 0);
    if c is Start {
        match (admission, expectation) {
            (Err(p), _) => Err(kernel_of_command(p)),
            (Ok(_), Err(p)) => Err(kernel_of_command(p)),
            _ => if ports.start {
                Ok(StageView::Start)
            } else {
                Err(
                    KernelProblemView::ServiceUnavailable("workflow_start_port_not_registered"@),
                )
            },
        }
    } else if admission is Err {
        Err(kernel_of_command(admission->Err_0))
    } else if !ports.lifecycle {
        match fully_checked(lease, rows, c, e) {
            Err(p) => Err(kernel_of_command(p)),
            Ok(_) => Err(
                KernelProblemView::ServiceUnavailable("run_lifecycle_port_not_registered"@),
            ),
        }
    } else if c is Respond && !ports.bound_answers {
        Err(
            KernelProblemView::ServiceUnavailable("question_bound_answer_port_not_registered"@),
        )
    } else {
        match replay_view(t, e, digest, admission) {
            Err(p) => Err(kernel_of_command(p)),
            Ok(Some(a)) => Ok(StageView::Answered(a)),
            Ok(None) => match fully_checked(lease, rows, c, e) {
                Err(p) => Err(kernel_of_command(p)),
                Ok(_) => match c {
                    RunCommandView::Cancel { workflow_run, expected, .. } => match task_by_handle(
                        rows.tasks,
                        workflow_run,
                        0,
                    ) {
                        None => Err(KernelProblemView::ResourceNotFound),
                        Some(task) => match cancel_targets(
                            rows,
                            expected.agent_runs,
                            expected.agent_runs.len(),
                        ) {
                            Err(p) => Err(kernel_of_command(p)),
                            Ok(targets) => Ok(StageView::Stop { task_id: task.id, targets }),
                        },
                    },
                    _ => Ok(StageView::Prepare),
                },
            },
        }
    }
}

/// The project of a command on a run: open, or the one that a right closes, which lets
/// nothing through but its cancellations.
pub open spec fn run_project(
    projects: Seq<RegistrationRow>,
    close: Option<CloseView>,
    c: RunCommandView,
) -> Result<int, KernelProblemView> {
    match close {
        Some(token) => if token.project != c.project() || !(c is Cancel) {
            Err(
                KernelProblemView::InvalidEnvelope(
                    "ProjectCloseToken 只允许取消其绑定 Project 的 Workflow Run"@,
                ),
            )
        } else {
            closing_project(projects, token)
        },
        None => open_project(projects, c.project()),
    }
}

/// The way of a command on a run up to the first thing that happens.
pub open spec fn run_begun(
    lease: ControllerView,
    key: Seq<u8>,
    projects: Seq<RegistrationRow>,
    targets: Seq<TargetTables>,
    rows: RowsView,
    request: RequestView,
    close: Option<CloseView>,
    ports: RunPorts,
) -> Result<(int, StageView, EnvelopeView), KernelProblemView> {
    match request.command {
        KernelCommandView::WorkflowRun(c) => if c matches RunCommandView::Start { goal, .. }
            && is_blank(goal) {
            Err(KernelProblemView::InvalidEnvelope("Workflow Run goal 不能为空"@))
        } else {
            match c.expected() {
                Err(p) => Err(p),
                Ok(expected) => {
                    let e = run_envelope(request, c, expected);
                    match e.problem() {
                        Some(p) => Err(kernel_of_command(p)),
                        None => match run_project(projects, close, c) {
                            Err(p) => Err(p),
                            Ok(at) => match run_stage(
                                lease,
                                rows,
                                targets[at],
                                c,
                                e,
                                e.digest(key),
                                ports,
                            ) {
                                Err(p) => Err(p),
                                Ok(stage) => Ok((at, stage, e)),
                            },
                        },
                    }
                },
            }
        },
        _ => Err(KernelProblemView::InvalidEnvelope("run dispatcher 收到其它命令"@)),
    }
}

fn build_run_envelope(
    request: &KernelCommandRequest,
    c: &WorkflowRunCommand,
    expected: Vec<ExpectedRevision>,
) -> (r: Result<CommandEnvelope, KernelProblem>)
    ensures
        built(r, run_envelope(request@, c@, expectations(expected@))),
{
    match CommandEnvelope::new(
        request.command_id().clone(),
        request.client_id().clone(),
        request.principal().clone(),
        request.controller_epoch(),
        None,
        CommandTarget {
            store: TargetStoreKind::Project,
            store_handle: c.project().as_str().to_owned(),
            aggregate: c.target(),
        },
        expected,
        c.command_type(),
        CommandPayload::Plain(c.payload()),
    ) {
        Ok(e) => Ok(e),
        Err(p) => Err(KernelProblem::from_command(p)),
    }
}

fn check_fully(
    lease: &ControllerLease,
    rows: &ProjectRows,
    c: &WorkflowRunCommand,
    e: &CommandEnvelope,
) -> (r: Result<(), KernelProblem>)
    ensures
        match r {
            Ok(_) => fully_checked(lease@, rows@, c@, e@) is Ok,
            Err(p) => fully_checked(lease@, rows@, c@, e@) is Err && p@ == kernel_of_command(
                fully_checked(lease@, rows@, c@, e@)->Err_0,
            ),
        },
{
    let authorizer: InProcessAuthorizer = InProcessAuthorizer { lease, rows };
    let check = e.lease_check();
    match authorizer.acquire(&check) {
        Ok(_) => {},
        Err(p) => {
            return Err(KernelProblem::from_command(p));
        },
    }
    match authorizer.validate_expected(&check) {
        Ok(_) => {},
        Err(p) => {
            return Err(KernelProblem::from_command(p));
        },
    }
    match validate_workflow_run_scope(rows, c) {
        Ok(_) => Ok(()),
        Err(p) => Err(KernelProblem::from_command(p)),
    }
}

/// The view of what a command comes to next.
pub open spec fn stage_result(r: Result<RunStage, KernelProblem>) -> Result<
    StageView,
    KernelProblemView,
> {
    match r {
        Ok(s) => Ok(s@),
        Err(p) => Err(p@),
    }
}

fn find_stage(
    coordinator: &CommandCoordinator,
    lease: &ControllerLease,
    rows: &ProjectRows,
    target: &TargetDatabase,
    c: &WorkflowRunCommand,
    e: &CommandEnvelope,
    ports: RunPorts,
) -> (r: Result<RunStage, KernelProblem>)
    requires
        target.wf(),
    ensures
        stage_result(r) == run_stage(
            lease@,
            rows@,
            target@,
            c@,
            e@,
            e@.digest(coordinator.key()),
            ports,
        ),
{
    let authorizer: InProcessAuthorizer = InProcessAuthorizer { lease, rows };
    let check = e.lease_check();
    match authorizer.acquire(&check) {
        Ok(_) => {},
        Err(p) => {
            return Err(KernelProblem::from_command(p));
        },
    }
    let starts: bool = match c {
        WorkflowRunCommand::Start { .. } => true,
        _ => false,
    };
    if starts {
        match authorizer.validate_expected(&check) {
            Ok(_) => {},
            Err(p) => {
                return Err(KernelProblem::from_command(p));
            },
        }
        if !ports.start {
            return Err(KernelProblem::unavailable("workflow_start_port_not_registered"));
        }
        return Ok(RunStage::Start);
    }
    if !ports.lifecycle {
        match check_fully(lease, rows, c, e) {
            Ok(_) => {},
            Err(p) => {
                return Err(p);
            },
        }
        return Err(KernelProblem::unavailable("run_lifecycle_port_not_registered"));
    }
    let answers: bool = match c {
        WorkflowRunCommand::Respond { .. } => true,
        _ => false,
    };
    if answers && !ports.bound_answers {
        return Err(KernelProblem::unavailable("question_bound_answer_port_not_registered"));
    }
    match coordinator.replay_if_applied(e, target, &authorizer) {
        Err(p) => {
            return Err(KernelProblem::from_command(p));
        },
        Ok(Some(outcome)) => {
            return Ok(RunStage::Answered(outcome));
        },
        Ok(None) => {},
    }
    match check_fully(lease, rows, c, e) {
        Ok(_) => {},
        Err(p) => {
            return Err(p);
        },
    }
    match c {
        WorkflowRunCommand::Cancel { workflow_run, expected, .. } => {
            let task_id: i64 = match find_task_by_handle(&rows.tasks, workflow_run.as_str()) {
                Some(t) => rows.tasks[t].id,
                None => {
                    return Err(KernelProblem::ResourceNotFound);
                },
            };
            match list_cancel_targets(rows, &expected.agent_runs) {
                Err(p) => Err(KernelProblem::from_command(p)),
                Ok(targets) => Ok(RunStage::Stop { task_id, targets }),
            }
        },
        _ => Ok(RunStage::Prepare),
    }
}

/// The way of a command on a run up to the first thing that happens. `rows` are those of
/// its project.
pub fn begin_run_command(
    coordinator: &CommandCoordinator,
    lease: &ControllerLease,
    projects: &Vec<ProjectRegistration>,
    targets: &Vec<TargetDatabase>,
    rows: &ProjectRows,
    request: &KernelCommandRequest,
    close: Option<&ProjectCloseToken>,
    ports: RunPorts,
) -> (r: Result<(usize, RunStage, CommandEnvelope), KernelProblem>)
    requires
        crate::operation::targets_wf(targets@),
        targets@.len() == projects@.len(),
    ensures
        ({
            let way = run_begun(
                lease@,
                coordinator.key(),
                registrations(projects@),
                crate::operation::tables(targets@),
                rows@,
                request@,
                match close {
                    Some(t) => Some(t@),
                    None => None,
                },
                ports,
            );
            match r {
                Ok((at, stage, e)) => way == Ok::<
                    (int, StageView, EnvelopeView),
                    KernelProblemView,
                >((at as int, stage@, e@)) && at < targets@.len(),
                Err(p) => way == Err::<(int, StageView, EnvelopeView), KernelProblemView>(p@),
            }
        }),
{
    let c: &WorkflowRunCommand = match request.command() {
        KernelCommand::WorkflowRun(c) => c,
        _ => {
            return Err(KernelProblem::invalid("run dispatcher 收到其它命令"));
        },
    };
    match c {
        WorkflowRunCommand::Start { goal, .. } => {
            if blank(goal.as_str()) {
                return Err(KernelProblem::invalid("Workflow Run goal 不能为空"));
            }
        },
        _ => {},
    }
    let expected: Vec<ExpectedRevision> = match c.expected_revisions() {
        Ok(v) => v,
        Err(p) => {
            return Err(p);
        },
    };
    let envelope: CommandEnvelope = match build_run_envelope(request, c, expected) {
        Ok(e) => e,
        Err(p) => {
            return Err(p);
        },
    };
    let at: usize = match close {
        Some(token) => {
            let cancels: bool = match c {
                WorkflowRunCommand::Cancel { .. } => true,
                _ => false,
            };
            if !token.project.same(c.project()) || !cancels {
                return Err(
                    KernelProblem::invalid(
                        "ProjectCloseToken 只允许取消其绑定 Project 的 Workflow Run",
                    ),
                );
            }
            match project_registration_for_close(projects, token) {
                Ok(at) => at,
                Err(p) => {
                    return Err(p);
                },
            }
        },
        None => match project_registration(projects, c.project()) {
            Ok(at) => at,
            Err(p) => {
                return Err(p);
            },
        },
    };
    assert(crate::operation::tables(targets@)[at as int] == targets@[at as int]@);
    match find_stage(coordinator, lease, rows, &targets[at], c, &envelope, ports) {
        Ok(stage) => Ok((at, stage, envelope)),
        Err(p) => Err(p),
    }
}

/// How far the stop of an agent run has come.
#[derive(Debug, Clone, Copy, PartialEq, Eq, Structural)]
pub enum CancelFenceTargetState {
    Pending,
    Stopping,
    Confirmed,
    Unconfirmed,
}

/// An agent run behind a fence, and how far its stop has come.
#[derive(Debug)]
pub struct FencedTarget {
    pub run_id: i64,
    pub run_handle: AgentRunHandle,
    pub state: CancelFenceTargetState,
}

/// Whether a stop came out as the fence says or, where it has yet to happen, as it was
/// answered and recorded.
pub open spec fn stopped_as<
    C: Fn(i64) -> Result<bool, CommandProblem>,
    S: Fn(&AgentRunHandle) -> Option<RunStopOutcome>,
    W: Fn(i64, RunStopOutcome) -> Result<(), CommandProblem>,
>(target: FencedTarget, claim: C, stop: S, record: W, stopped: StopView) -> bool {
    &&& stopped.agent_run == target.run_handle@
    &&& match target.state {
        CancelFenceTargetState::Confirmed => stopped.outcome is Confirmed,
        CancelFenceTargetState::Unconfirmed => stopped.outcome is Unconfirmed,
        _ => {
            &&& target.state is Pending ==> claim.ensures((target.run_id,), Ok(true))
            &&& exists|answer: Option<RunStopOutcome>|
                #[trigger] stop.ensures((&target.run_handle,), answer) && stopped.outcome
                    == outcome_of_stop(answer)
            &&& exists|kept: Result<(), CommandProblem>|
                kept is Ok && #[trigger] record.ensures((target.run_id, stopped.outcome), kept)
        },
    }
}

/// What a stop counts as, by what was answered to it.
pub open spec fn outcome_of_stop(answer: Option<RunStopOutcome>) -> RunStopOutcome {
    match answer {
        Some(o) => o,
        None => RunStopOutcome::Unconfirmed,
    }
}

/// Whether the stop of an agent run was refused: by whoever stops it already, or by the
/// store, which did not take the claim or what was answered to the stop.
pub open spec fn stop_refused<
    C: Fn(i64) -> Result<bool, CommandProblem>,
    S: Fn(&AgentRunHandle) -> Option<RunStopOutcome>,
    W: Fn(i64, RunStopOutcome) -> Result<(), CommandProblem>,
>(target: FencedTarget, claim: C, stop: S, record: W, p: KernelProblemView) -> bool {
    ||| target.state is Pending && p is CommandInProgress && claim.ensures(
        (target.run_id,),
        Ok(false),
    )
    ||| target.state is Pending && exists|q: CommandProblem|
        #[trigger] claim.ensures((target.run_id,), Err(q)) && p == kernel_of_command(q@)
    ||| {
        &&& target.state is Pending || target.state is Stopping
        &&& target.state is Pending ==> claim.ensures((target.run_id,), Ok(true))
        &&& exists|answer: Option<RunStopOutcome>, q: CommandProblem|
            {
                &&& #[trigger] stop.ensures((&target.run_handle,), answer)
                &&& #[trigger] record.ensures((target.run_id, outcome_of_stop(answer)), Err(q))
                &&& p == kernel_of_command(q@)
            }
    }
}

/// Whether agent runs were stopped in order up to one whose stop was refused.
pub open spec fn refused_after<
    C: Fn(i64) -> Result<bool, CommandProblem>,
    S: Fn(&AgentRunHandle) -> Option<RunStopOutcome>,
    W: Fn(i64, RunStopOutcome) -> Result<(), CommandProblem>,
>(
    targets: Seq<FencedTarget>,
    claim: C,
    stop: S,
    record: W,
    done: Seq<StopView>,
    p: KernelProblemView,
) -> bool {
    &&& done.len() < targets.len()
    &&& forall|k: int|
        0 <= k < done.len() ==> stopped_as(#[trigger] targets[k], claim, stop, record, done[k])
    &&& stop_refused(targets[done.len() as int], claim, stop, record, p)
}

/// Stops every agent run behind a fence that has not stopped yet, in order: one that no
/// one has begun to stop is claimed first, and what came of each is recorded. A stop
/// that is not answered counts as not confirmed.
pub fn drive_cancel_targets<
    C: Fn(i64) -> Result<bool, CommandProblem>,
    S: Fn(&AgentRunHandle) -> Option<RunStopOutcome>,
    W: Fn(i64, RunStopOutcome) -> Result<(), CommandProblem>,
>(targets: &Vec<FencedTarget>, claim: &C, stop: &S, record: &W) -> (r: Result<
    Vec<PreparedRunStop>,
    KernelProblem,
>)
    requires
        forall|id: i64| #[trigger] claim.requires((id,)),
        forall|h: AgentRunHandle| #[trigger] stop.requires((&h,)),
        forall|id: i64, o: RunStopOutcome| #[trigger] record.requires((id, o)),
    ensures
        match r {
            Ok(v) => v@.len() == targets@.len() && forall|i: int|
                0 <= i < targets@.len() ==> stopped_as(
                    #[trigger] targets@[i],
                    *claim,
                    *stop,
                    *record,
                    v@[i]@,
                ),
            Err(p) => exists|done: Seq<StopView>| #[trigger]
                refused_after(targets@, *claim, *stop, *record, done, p@),
        },
{
    let mut out: Vec<PreparedRunStop> = Vec::new();
    let mut i: usize = 0;
    while i < targets.len()
        invariant
            i <= targets@.len(),
            out@.len() == i,
            forall|id: i64| #[trigger] claim.requires((id,)),
            forall|h: AgentRunHandle| #[trigger] stop.requires((&h,)),
            forall|id: i64, o: RunStopOutcome| #[trigger] record.requires((id, o)),
            forall|k: int|
                0 <= k < i ==> stopped_as(
                    #[trigger] targets@[k],
                    *claim,
                    *stop,
                    *record,
                    out@[k]@,
                ),
        decreases targets@.len() - i,
    {
        let target: &FencedTarget = &targets[i];
        let known: Option<RunStopOutcome> = match target.state {
            CancelFenceTargetState::Confirmed => Some(RunStopOutcome::Confirmed),
            CancelFenceTargetState::Unconfirmed => Some(RunStopOutcome::Unconfirmed),
            _ => None,
        };
        let result: RunStopOutcome = match known {
            Some(o) => o,
            None => {
                if target.state == CancelFenceTargetState::Pending {
                    let claimed: Result<bool, CommandProblem> = claim(target.run_id);
                    match claimed {
                        Ok(true) => {},
                        Ok(false) => {
                            let busy: KernelProblem = KernelProblem::CommandInProgress;
                            assert(refused_after(
                                targets@,
                                *claim,
                                *stop,
                                *record,
                                stops_view(out@),
                                busy@,
                            ));
                            return Err(busy);
                        },
                        Err(q) => {
                            assert(claim.ensures((target.run_id,), Err(q)));
                            assert(refused_after(
                                targets@,
                                *claim,
                                *stop,
                                *record,
                                stops_view(out@),
                                kernel_of_command(q@),
                            ));
                            return Err(KernelProblem::from_command(q));
                        },
                    }
                }
                let answer: Option<RunStopOutcome> = stop(&target.run_handle);
                let o: RunStopOutcome = match answer {
                    Some(o) => o,
                    None => RunStopOutcome::Unconfirmed,
                };
                let kept: Result<(), CommandProblem> = record(target.run_id, o);
                let ghost said = kept;
                match kept {
                    Ok(_) => {
                        assert(record.ensures((target.run_id, o), said));
                    },
                    Err(q) => {
                        assert(stop.ensures((&target.run_handle,), answer));
                        assert(record.ensures(
                            (target.run_id, outcome_of_stop(answer)),
                            Err(q),
                        ));
                        assert(refused_after(
                            targets@,
                            *claim,
                            *stop,
                            *record,
                            stops_view(out@),
                            kernel_of_command(q@),
                        ));
                        return Err(KernelProblem::from_command(q));
                    },
                }
                o
            },
        };
        let stopped: PreparedRunStop = PreparedRunStop {
            agent_run: target.run_handle.clone(),
            outcome: result,
        };
        assert(stopped_as(targets@[i as int], *claim, *stop, *record, stopped@));
        out.push(stopped);
        i = i + 1;
    }
    Ok(out)
}

/// What the kernel answers to a command on a run, by what came of it.
pub open spec fn run_answer(a: AppliedView) -> Result<KernelOutcomeView, KernelProblemView> {
    match as_u64_view(field_of(a.result, "revision"@)) {
        None => Err(KernelProblemView::Internal("run result 缺少 target revision"@)),
        Some(revision) => Ok(
            KernelOutcomeView::RunApplied { revision: revision as u64, replayed: a.replayed },
        ),
    }
}

/// What the kernel answers to a command on a run, by what came of it.
pub fn answer_run(done: &CommandOutcome) -> (r: Result<KernelOutcome, KernelProblem>)
    ensures
        kernel_answer(r) == run_answer(done@),
{
    match done {
        CommandOutcome::Applied { result_revisions, replayed } => match result_revisions.get_u64(
            "revision",
        ) {
            None => Err(KernelProblem::internal("run result 缺少 target revision")),
            Some(revision) => Ok(KernelOutcome::RunApplied { revision, replayed: *replayed }),
        },
    }
}

/// No command but its own cancellations reaches a project that is being closed.
pub proof fn law_a_closing_project_is_fenced(
    lease: ControllerView,
    key: Seq<u8>,
    projects: Seq<RegistrationRow>,
    targets: Seq<TargetTables>,
    rows: RowsView,
    request: RequestView,
    close: Option<CloseView>,
    ports: RunPorts,
    c: RunCommandView,
)
    requires
        request.command == KernelCommandView::WorkflowRun(c),
        project_at(projects, c.project(), 0) matches Some(at) && projects[at].closing,
        run_begun(lease, key, projects, targets, rows, request, close, ports) is Ok,
    ensures
        c is Cancel,
        close matches Some(token) && token.project == c.project(),
{
}

/// Whoever does not hold the lease learns nothing of what stands ready, and starts
/// nothing.
pub proof fn law_no_lease_no_stage(
    lease: ControllerView,
    rows: RowsView,
    t: TargetTables,
    c: RunCommandView,
    e: EnvelopeView,
    digest: Result<Seq<char>, ProblemView>,
    ports: RunPorts,
)
    requires
        lease.admits(e.lease()) is Err,
    ensures
        run_stage(lease, rows, t, c, e, digest, ports) == Err::<StageView, KernelProblemView>(
            kernel_of_command(lease.admits(e.lease())->Err_0),
        ),
{
}

/// The registry with the tokens of a project's first `n` agent runs registered; it ends
/// at the first that cannot be.
pub open spec fn tokens_registered(
    s: StoreView,
    key: Seq<u8>,
    project: Seq<char>,
    runs: Seq<(Seq<char>, Seq<char>)>,
    now: Seq<char>,
    n: nat,
) -> (StoreView, Option<Seq<char>>)
    decreases n,
{
    if n == 0 {
        (s, None)
    } else {
        let (before, problem) = tokens_registered(s, key, project, runs, now, (n - 1) as nat);
        match problem {
            Some(m) => (before, Some(m)),
            None => {
                let (run, token) = runs[n - 1];
                match token_code(key, vstd::utf8::encode_utf8(token)) {
                    Err(m) => (before, Some(m)),
                    Ok(code) => match register_view(before, code, project, run, now) {
                        (after, Err(m)) => (after, Some(m)),
                        (after, Ok(_)) => (after, None),
                    },
                }
            },
        }
    }
}

/// The registry of a project that is closed: every token that its store knows is known
/// to the registry too, and none is good any more.
pub open spec fn tokens_fenced(
    s: StoreView,
    key: Seq<u8>,
    project: Seq<char>,
    runs: Seq<(Seq<char>, Seq<char>)>,
    now: Seq<char>,
) -> (StoreView, Result<(), KernelProblemView>) {
    match tokens_registered(s, key, project, runs, now, runs.len()) {
        (after, Some(m)) => (
            after,
            Err(KernelProblemView::Internal("close capability backfill 失败:"@ + m)),
        ),
        (after, None) => (
            StoreView { capabilities: ended_project(after.capabilities, project, now), ..after },
            Ok(()),
        ),
    }
}

/// Agent runs and their tokens, as values.
pub open spec fn run_tokens(v: Seq<(AgentRunHandle, String)>) -> Seq<(Seq<char>, Seq<char>)> {
    v.map_values(|p: (AgentRunHandle, String)| (p.0@, p.1@))
}

proof fn lemma_registration_stops(
    s: StoreView,
    key: Seq<u8>,
    project: Seq<char>,
    runs: Seq<(Seq<char>, Seq<char>)>,
    now: Seq<char>,
    n: nat,
    all: nat,
)
    requires
        n <= all,
        tokens_registered(s, key, project, runs, now, n).1 is Some,
    ensures
        tokens_registered(s, key, project, runs, now, all) == tokens_registered(
            s,
            key,
            project,
            runs,
            now,
            n,
        ),
    decreases all - n,
{
    if n < all {
        lemma_registration_stops(s, key, project, runs, now, n + 1, all);
    }
}

/// Fences the tokens of a project that is closed: every token that its store knows is
/// registered first, so that none comes back when the project is opened again.
pub fn fence_project_tokens(
    store: &mut ServiceStore,
    key: &RunCapabilityKey,
    project: &ProjectStoreHandle,
    runs: &Vec<(AgentRunHandle, String)>,
    now: &str,
) -> (r: Result<(), KernelProblem>)
    requires
        old(store)@.sound(),
    ensures
        final(store)@.sound(),
        (final(store)@, outcome(r)) == tokens_fenced(
            old(store)@,
            key@,
            project@,
            run_tokens(runs@),
            now@,
        ),
{
    let ghost start = store@;
    let ghost all = run_tokens(runs@);
    let mut i: usize = 0;
    while i < runs.len()
        invariant
            store@.sound(),
            start == old(store)@,
            i <= runs@.len(),
            all == run_tokens(runs@),
            tokens_registered(start, key@, project@, all, now@, i as nat) == (
                store@,
                None::<Seq<char>>,
            ),
        decreases runs@.len() - i,
    {
        assert(all[i as int] == (runs@[i as int].0@, runs@[i as int].1@));
        match store.register_run_capability(
            key,
            runs[i].1.as_str().as_bytes(),
            project,
            &runs[i].0,
            now,
        ) {
            Ok(_) => {},
            Err(m) => {
                proof {
                    lemma_registration_stops(
                        start,
                        key@,
                        project@,
                        all,
                        now@,
                        (i + 1) as nat,
                        all.len(),
                    );
                }
                return Err(
                    KernelProblem::Internal(cat("close capability backfill 失败:", m.as_str())),
                );
            },
        }
        i = i + 1;
    }
    let _: usize = store.revoke_project_run_capabilities(project, now);
    Ok(())
}

/// A token of a project that was closed is good for nothing.
pub proof fn law_a_fenced_token_is_not_good(
    s: StoreView,
    key: Seq<u8>,
    project: Seq<char>,
    runs: Seq<(Seq<char>, Seq<char>)>,
    now: Seq<char>,
    at: int,
)
    requires
        tokens_fenced(s, key, project, runs, now).1 is Ok,
        0 <= at < tokens_fenced(s, key, project, runs, now).0.capabilities.len(),
        tokens_fenced(s, key, project, runs, now).0.capabilities[at].capability.project == project,
    ensures
        !(tokens_fenced(s, key, project, runs, now).0.capabilities[at].capability.state
            is Active),
{
}

/// What a cancellation that was under way had started from, as it was frozen: texts that
/// have yet to be read as handles.
pub ghost struct FrozenView {
    pub workflow_run: Seq<char>,
    pub workflow_run_revision: u64,
    pub steps: Seq<VersionView>,
    pub agent_runs: Seq<VersionView>,
    pub agent_sessions: Seq<VersionView>,
}

/// One text with its revision, as it was frozen.
pub open spec fn frozen_version(v: JsonView) -> Option<VersionView> {
    match (as_text_view(field_of(v, "handle"@)), as_u64_view(field_of(v, "revision"@))) {
        (Some(handle), Some(revision)) => Some(VersionView { handle, revision: revision as u64 }),
        _ => None,
    }
}

/// The first `n` texts with their revisions, as they were frozen.
pub open spec fn frozen_versions(items: Seq<JsonView>, n: nat) -> Option<Seq<VersionView>>
    decreases n,
{
    if n == 0 {
        Some(seq![])
    } else {
        match (frozen_versions(items, (n - 1) as nat), frozen_version(items[n - 1])) {
            (Some(before), Some(v)) => Some(before.push(v)),
            _ => None,
        }
    }
}

/// A list of texts with their revisions under a name, as it was frozen.
pub open spec fn frozen_list(v: JsonView, name: Seq<char>) -> Option<Seq<VersionView>> {
    match field_of(v, name) {
        Some(JsonView::Array(items)) => frozen_versions(items, items.len()),
        _ => None,
    }
}

/// What a cancellation that was under way had started from.
pub open spec fn frozen(v: JsonView) -> Option<FrozenView> {
    match (
        as_text_view(field_of(v, "workflow_run"@)),
        as_u64_view(field_of(v, "workflow_run_revision"@)),
        frozen_list(v, "steps"@),
        frozen_list(v, "agent_runs"@),
        frozen_list(v, "agent_sessions"@),
    ) {
        (Some(workflow_run), Some(revision), Some(steps), Some(agent_runs), Some(sessions)) => Some(
            FrozenView {
                workflow_run,
                workflow_run_revision: revision as u64,
                steps,
                agent_runs,
                agent_sessions: sessions,
            },
        ),
        _ => None,
    }
}

proof fn lemma_frozen_stops(items: Seq<JsonView>, n: nat, all: nat)
    requires
        n <= all,
        frozen_versions(items, n) is None,
    ensures
        frozen_versions(items, all) is None,
    decreases all - n,
{
    if n < all {
        lemma_frozen_stops(items, n + 1, all);
    }
}

/// Texts with revisions, as values.
pub open spec fn raw_versions(v: Seq<(String, u64)>) -> Seq<VersionView> {
    v.map_values(|p: (String, u64)| VersionView { handle: p.0@, revision: p.1 })
}

fn thaw_list(v: &Json, name: &str) -> (r: Option<Vec<(String, u64)>>)
    ensures
        (match r {
            Some(list) => Some(raw_versions(list@)),
            None => None,
        }) == frozen_list(v@, name@),
{
    let items: &Vec<Json> = match v.get(name) {
        Some(Json::Array(items)) => items,
        _ => {
            return None;
        },
    };
    proof {
        lemma_array_view(*items);
    }
    let ghost all = items_view(items@);
    let mut out: Vec<(String, u64)> = Vec::new();
    let mut i: usize = 0;
    assert(raw_versions(out@) =~= seq![]);
    while i < items.len()
        invariant
            i <= items@.len(),
            all == items_view(items@),
            field_of(v@, name@) == Some(JsonView::Array(all)),
            frozen_versions(all, i as nat) == Some(raw_versions(out@)),
        decreases items@.len() - i,
    {
        let ghost had = out@;
        assert(all[i as int] == items@[i as int]@);
        match (items[i].get_str("handle"), items[i].get_u64("revision")) {
            (Some(raw), Some(revision)) => {
                let one: (String, u64) = (raw.to_owned(), revision);
                out.push(one);
                assert(raw_versions(out@) =~= raw_versions(had).push(
                    VersionView { handle: one.0@, revision: one.1 },
                ));
            },
            _ => {
                proof {
                    lemma_frozen_stops(all, (i + 1) as nat, all.len());
                }
                return None;
            },
        }
        i = i + 1;
    }
    Some(out)
}

/// The first `n` texts read as handles of version 7.
pub open spec fn thawed(v: Seq<VersionView>, n: nat) -> Result<Seq<VersionView>, Seq<char>>
    decreases n,
{
    if n == 0 {
        Ok(seq![])
    } else {
        match thawed(v, (n - 1) as nat) {
            Err(m) => Err(m),
            Ok(before) => match v7_as_given(v[n - 1].handle) {
                Err(m) => Err(m),
                Ok(_) => Ok(before.push(v[n - 1])),
            },
        }
    }
}

proof fn lemma_thawing_stops(v: Seq<VersionView>, n: nat, all: nat)
    requires
        n <= all,
        thawed(v, n) is Err,
    ensures
        thawed(v, all) == thawed(v, n),
    decreases all - n,
{
    if n < all {
        lemma_thawing_stops(v, n + 1, all);
    }
}

/// The cancellation that was under way, read back: its id and its command.
pub open spec fn thawed_cancel(project: Seq<char>, command_id: Seq<char>, v: JsonView) -> Result<
    (Seq<char>, RunCommandView),
    KernelProblemView,
> {
    match frozen(v) {
        None => Err(KernelProblemView::Internal("cancel fence 损坏"@)),
        Some(f) => match command_id_of(command_id) {
            Err(m) => Err(KernelProblemView::Internal(m)),
            Ok(id) => match v7_as_given(f.workflow_run) {
                Err(m) => Err(KernelProblemView::Internal(m)),
                Ok(_) => match (
                    thawed(f.steps, f.steps.len()),
                    thawed(f.agent_runs, f.agent_runs.len()),
                    thawed(f.agent_sessions, f.agent_sessions.len()),
                ) {
                    (Err(m), _, _) => Err(KernelProblemView::Internal(m)),
                    (Ok(_), Err(m), _) => Err(KernelProblemView::Internal(m)),
                    (Ok(_), Ok(_), Err(m)) => Err(KernelProblemView::Internal(m)),
                    (Ok(steps), Ok(agent_runs), Ok(agent_sessions)) => Ok(
                        (
                            id,
                            RunCommandView::Cancel {
                                project,
                                workflow_run: f.workflow_run,
                                expected: RunExpectedView {
                                    workflow_run_revision: f.workflow_run_revision,
                                    steps,
                                    agent_runs,
                                    agent_sessions,
                                },
                            },
                        ),
                    ),
                },
            },
        },
    }
}

fn thaw_steps(
    v: &Vec<(String, u64)>,
) -> (r: Result<Vec<VersionedHandle<StepHandle>>, KernelProblem>)
    ensures
        match r {
            Ok(list) => thawed(raw_versions(v@), v@.len() as nat) == Ok::<
                Seq<VersionView>,
                Seq<char>,
            >(versions(list@)),
            Err(p) => thawed(raw_versions(v@), v@.len() as nat) is Err && p@
                == KernelProblemView::Internal(thawed(raw_versions(v@), v@.len() as nat)->Err_0),
        },
{
    let ghost all = raw_versions(v@);
    let mut out: Vec<VersionedHandle<StepHandle>> = Vec::new();
    let mut i: usize = 0;
    assert(versions(out@) =~= seq![]);
    while i < v.len()
        invariant
            i <= v@.len(),
            all == raw_versions(v@),
            thawed(all, i as nat) == Ok::<Seq<VersionView>, Seq<char>>(versions(out@)),
        decreases v@.len() - i,
    {
        let ghost had = out@;
        assert(all[i as int].handle == v@[i as int].0@);
        match StepHandle::parse(v[i].0.as_str()) {
            Ok(handle) => {
                let one: VersionedHandle<StepHandle> = VersionedHandle { handle, revision: v[i].1 };
                out.push(one);
                assert(one@ == all[i as int]);
                assert(versions(out@) =~= versions(had).push(one@));
            },
            Err(p) => {
                proof {
                    lemma_thawing_stops(all, (i + 1) as nat, all.len());
                }
                return Err(KernelProblem::internal(p.message()));
            },
        }
        i = i + 1;
    }
    Ok(out)
}

fn thaw_agent_runs(
    v: &Vec<(String, u64)>,
) -> (r: Result<Vec<VersionedHandle<AgentRunHandle>>, KernelProblem>)
    ensures
        match r {
            Ok(list) => thawed(raw_versions(v@), v@.len() as nat) == Ok::<
                Seq<VersionView>,
                Seq<char>,
            >(versions(list@)),
            Err(p) => thawed(raw_versions(v@), v@.len() as nat) is Err && p@
                == KernelProblemView::Internal(thawed(raw_versions(v@), v@.len() as nat)->Err_0),
        },
{
    let ghost all = raw_versions(v@);
    let mut out: Vec<VersionedHandle<AgentRunHandle>> = Vec::new();
    let mut i: usize = 0;
    assert(versions(out@) =~= seq![]);
    while i < v.len()
        invariant
            i <= v@.len(),
            all == raw_versions(v@),
            thawed(all, i as nat) == Ok::<Seq<VersionView>, Seq<char>>(versions(out@)),
        decreases v@.len() - i,
    {
        let ghost had = out@;
        assert(all[i as int].handle == v@[i as int].0@);
        match AgentRunHandle::parse(v[i].0.as_str()) {
            Ok(handle) => {
                let one: VersionedHandle<AgentRunHandle> = VersionedHandle { handle, revision: v[i].1 };
                out.push(one);
                assert(one@ == all[i as int]);
                assert(versions(out@) =~= versions(had).push(one@));
            },
            Err(p) => {
                proof {
                    lemma_thawing_stops(all, (i + 1) as nat, all.len());
                }
                return Err(KernelProblem::internal(p.message()));
            },
        }
        i = i + 1;
    }
    Ok(out)
}

fn thaw_agent_sessions(
    v: &Vec<(String, u64)>,
) -> (r: Result<Vec<VersionedHandle<AgentSessionHandle>>, KernelProblem>)
    ensures
        match r {
            Ok(list) => thawed(raw_versions(v@), v@.len() as nat) == Ok::<
                Seq<VersionView>,
                Seq<char>,
            >(versions(list@)),
            Err(p) => thawed(raw_versions(v@), v@.len() as nat) is Err && p@
                == KernelProblemView::Internal(thawed(raw_versions(v@), v@.len() as nat)->Err_0),
        },
{
    let ghost all = raw_versions(v@);
    let mut out: Vec<VersionedHandle<AgentSessionHandle>> = Vec::new();
    let mut i: usize = 0;
    assert(versions(out@) =~= seq![]);
    while i < v.len()
        invariant
            i <= v@.len(),
            all == raw_versions(v@),
            thawed(all, i as nat) == Ok::<Seq<VersionView>, Seq<char>>(versions(out@)),
        decreases v@.len() - i,
    {
        let ghost had = out@;
        assert(all[i as int].handle == v@[i as int].0@);
        match AgentSessionHandle::parse(v[i].0.as_str()) {
            Ok(handle) => {
                let one: VersionedHandle<AgentSessionHandle> = VersionedHandle { handle, revision: v[i].1 };
                out.push(one);
                assert(one@ == all[i as int]);
                assert(versions(out@) =~= versions(had).push(one@));
            },
            Err(p) => {
                proof {
                    lemma_thawing_stops(all, (i + 1) as nat, all.len());
                }
                return Err(KernelProblem::internal(p.message()));
            },
        }
        i = i + 1;
    }
    Ok(out)
}

/// The cancellation that was under way, read back from where it was frozen when it began.
pub fn thaw_cancel(project: &ProjectStoreHandle, command_id: &str, v: &Json) -> (r: Result<
    (CommandId, WorkflowRunCommand),
    KernelProblem,
>)
    ensures
        (match r {
            Ok((id, c)) => Ok((id@, c@)),
            Err(p) => Err(p@),
        }) == thawed_cancel(project@, command_id@, v@),
{
    let (raw, workflow_run_revision, steps, agent_runs, agent_sessions) = match (
        v.get_str("workflow_run"),
        v.get_u64("workflow_run_revision"),
        thaw_list(v, "steps"),
        thaw_list(v, "agent_runs"),
        thaw_list(v, "agent_sessions"),
    ) {
        (Some(raw), Some(n), Some(a), Some(b), Some(c)) => (raw, n, a, b, c),
        _ => {
            return Err(KernelProblem::internal("cancel fence 损坏"));
        },
    };
    let id: CommandId = match CommandId::parse(command_id) {
        Ok(id) => id,
        Err(p) => {
            return Err(KernelProblem::internal(p.message()));
        },
    };
    let workflow_run: WorkflowRunHandle = match WorkflowRunHandle::parse(raw) {
        Ok(h) => h,
        Err(p) => {
            return Err(KernelProblem::internal(p.message()));
        },
    };
    let steps: Vec<VersionedHandle<StepHandle>> = match thaw_steps(&steps) {
        Ok(list) => list,
        Err(p) => {
            return Err(p);
        },
    };
    let agent_runs: Vec<VersionedHandle<AgentRunHandle>> = match thaw_agent_runs(&agent_runs) {
        Ok(list) => list,
        Err(p) => {
            return Err(p);
        },
    };
    let agent_sessions: Vec<VersionedHandle<AgentSessionHandle>> = match thaw_agent_sessions(
        &agent_sessions,
    ) {
        Ok(list) => list,
        Err(p) => {
            return Err(p);
        },
    };
    Ok(
        (
            id,
            WorkflowRunCommand::Cancel {
                project: project.clone(),
                workflow_run,
                expected: WorkflowRunExpected {
                    workflow_run_revision,
                    steps,
                    agent_runs,
                    agent_sessions,
                },
            },
        ),
    )
}

/// Who finishes a cancellation that was under way, and with what.
pub open spec fn recovery_request(command_id: Seq<char>, c: RunCommandView) -> RequestView {
    RequestView {
        command_id,
        client_id: "cancel-recovery"@,
        principal: "core-recovery"@,
        controller_epoch: 0,
        command: KernelCommandView::WorkflowRun(c),
    }
}

/// The command that finishes a cancellation that was under way.
pub open spec fn recovered(command_id: Seq<char>, c: RunCommandView) -> Result<
    EnvelopeView,
    KernelProblemView,
> {
    match c.expected() {
        Err(p) => Err(p),
        Ok(expected) => {
            let e = run_envelope(recovery_request(command_id, c), c, expected);
            match e.problem() {
                Some(p) => Err(kernel_of_command(p)),
                None => Ok(e),
            }
        },
    }
}

/// The command that finishes a cancellation that was under way.
pub fn recover_cancel(id: CommandId, command: &WorkflowRunCommand) -> (r: Result<
    CommandEnvelope,
    KernelProblem,
>)
    ensures
        outcome(r) == recovered(id@, command@),
{
    proof {
        reveal_strlit("cancel-recovery");
        reveal_strlit("core-recovery");
        lemma_starts_with_letter("cancel-recovery"@);
        lemma_starts_with_letter("core-recovery"@);
    }
    let (client, principal) = match (
        ClientId::parse("cancel-recovery"),
        Principal::parse("core-recovery"),
    ) {
        (Ok(c), Ok(p)) => (c, p),
        _ => {
            return Err(KernelProblem::ControllerLeaseExpired);
        },
    };
    let revisions: Vec<ExpectedRevision> = match command.expected_revisions() {
        Ok(v) => v,
        Err(p) => {
            return Err(p);
        },
    };
    match CommandEnvelope::new(
        id,
        client,
        principal,
        0,
        None,
        CommandTarget {
            store: TargetStoreKind::Project,
            store_handle: command.project().as_str().to_owned(),
            aggregate: command.target(),
        },
        revisions,
        command.command_type(),
        CommandPayload::Plain(command.payload()),
    ) {
        Ok(e) => Ok(e),
        Err(p) => Err(KernelProblem::from_command(p)),
    }
}

/// Whether every handle of a list is one of version 7, as those of a command are.
pub open spec fn all_v7(v: Seq<VersionView>) -> bool {
    forall|i: int| 0 <= i < v.len() ==> v7_as_given((#[trigger] v[i]).handle) is Ok
}

proof fn lemma_kept_version(h: VersionView)
    ensures
        frozen_version(kept_version(h)) == Some(h),
{
    reveal_strlit("handle");
    reveal_strlit("revision");
    let f = kept_version(h)->Object_0;
    assert("handle"@.len() != "revision"@.len());
    reveal_with_fuel(field_in, 3);
    assert(f.skip(1)[0] == f[1]);
}

proof fn lemma_kept_versions(v: Seq<VersionView>, n: nat)
    requires
        n <= v.len(),
    ensures
        frozen_versions(kept_versions(v)->Array_0, n) == Some(v.take(n as int)),
    decreases n,
{
    if n == 0 {
        assert(v.take(0) =~= seq![]);
    } else {
        lemma_kept_versions(v, (n - 1) as nat);
        lemma_kept_version(v[n - 1]);
        assert(kept_versions(v)->Array_0[n - 1] == kept_version(v[n - 1]));
        assert(v.take(n as int) =~= v.take(n - 1).push(v[n - 1]));
    }
}

proof fn lemma_all_thaw(v: Seq<VersionView>, n: nat)
    requires
        n <= v.len(),
        all_v7(v),
    ensures
        thawed(v, n) == Ok::<Seq<VersionView>, Seq<char>>(v.take(n as int)),
    decreases n,
{
    if n == 0 {
        assert(v.take(0) =~= seq![]);
    } else {
        lemma_all_thaw(v, (n - 1) as nat);
        assert(v7_as_given(v[n - 1].handle) is Ok);
        assert(v.take(n as int) =~= v.take(n - 1).push(v[n - 1]));
    }
}

/// A cancellation is taken up again as it was: what it relied on comes back from where it
/// was kept, whole.
pub proof fn law_a_cancellation_comes_back_as_it_was(
    project: Seq<char>,
    command_id: Seq<char>,
    workflow_run: Seq<char>,
    expected: RunExpectedView,
)
    requires
        command_id_of(command_id) is Ok,
        v7_as_given(workflow_run) is Ok,
        all_v7(expected.steps),
        all_v7(expected.agent_runs),
        all_v7(expected.agent_sessions),
    ensures
        thawed_cancel(project, command_id, expected.kept(workflow_run)) == Ok::<
            (Seq<char>, RunCommandView),
            KernelProblemView,
        >(
            (
                command_id_of(command_id)->Ok_0,
                RunCommandView::Cancel { project, workflow_run, expected },
            ),
        ),
{
    reveal_strlit("workflow_run");
    reveal_strlit("workflow_run_revision");
    reveal_strlit("steps");
    reveal_strlit("agent_runs");
    reveal_strlit("agent_sessions");
    assert("workflow_run"@.len() == 12);
    assert("workflow_run_revision"@.len() == 21);
    assert("steps"@.len() == 5);
    assert("agent_runs"@.len() == 10);
    assert("agent_sessions"@.len() == 14);
    let v = expected.kept(workflow_run);
    let f = v->Object_0;
    reveal_with_fuel(field_in, 6);
    assert(f.skip(1).skip(1) =~= f.skip(2));
    assert(f.skip(2).skip(1) =~= f.skip(3));
    assert(f.skip(3).skip(1) =~= f.skip(4));
    assert(f.skip(1)[0] == f[1]);
    assert(f.skip(2)[0] == f[2]);
    assert(f.skip(3)[0] == f[3]);
    assert(f.skip(4)[0] == f[4]);
    lemma_kept_versions(expected.steps, expected.steps.len());
    lemma_kept_versions(expected.agent_runs, expected.agent_runs.len());
    lemma_kept_versions(expected.agent_sessions, expected.agent_sessions.len());
    lemma_all_thaw(expected.steps, expected.steps.len());
    lemma_all_thaw(expected.agent_runs, expected.agent_runs.len());
    lemma_all_thaw(expected.agent_sessions, expected.agent_sessions.len());
    assert(expected.steps.take(expected.steps.len() as int) =~= expected.steps);
    assert(expected.agent_runs.take(expected.agent_runs.len() as int) =~= expected.agent_runs);
    assert(expected.agent_sessions.take(expected.agent_sessions.len() as int)
        =~= expected.agent_sessions);
    assert(field_of(v, "steps"@) == Some(kept_versions(expected.steps)));
    assert(field_of(v, "agent_runs"@) == Some(kept_versions(expected.agent_runs)));
    assert(field_of(v, "agent_sessions"@) == Some(kept_versions(expected.agent_sessions)));
}

} // verus!
