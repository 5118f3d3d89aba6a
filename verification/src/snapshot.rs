//! What clients are shown: the projects, a workflow, a run, or an operation, each with
//! the place in the event stream that it was read at.

use crate::handles::{
    outcome, AgentRunHandle, AgentSessionHandle, ProjectStoreHandle, ServerInstanceId, StepHandle,
    WorkflowHandle, WorkflowRunHandle,
};
use crate::json::{Json, JsonView};
use crate::kernel::{registrations, ProjectRegistration, RegistrationRow};
use crate::operation::{
    steps_view, OperationHandle, OperationProblemDetail, OperationProgress, OperationRow,
    OperationView, ProgressView, StepRecord, StepView,
};
use crate::problem::{KernelProblem, KernelProblemView};
use crate::projection::{CursorView, EventCursor, SNAPSHOT_SCHEMA};
use crate::reconcile::operations_view;
use crate::text::{
    before, copy_opt, lemma_before_total, lemma_before_transitive, less, opt_view, same,
};
use crate::workflow_effects::{SnapshotView, WorkflowSnapshotData};
use vstd::prelude::*;
use vstd::string::*;

verus! {

/// What a client asks to be shown.
#[derive(Debug)]
pub enum SnapshotQuery {
    Workspace,
    Workflow { project: ProjectStoreHandle, workflow: WorkflowHandle },
    WorkflowRun { project: ProjectStoreHandle, workflow_run: WorkflowRunHandle },
    Operation { operation: OperationHandle },
}

/// What a client asks to be shown, as a value.
pub ghost enum QueryView {
    Workspace,
    Workflow { project: Seq<char>, workflow: Seq<char> },
    WorkflowRun { project: Seq<char>, workflow_run: Seq<char> },
    Operation { operation: Seq<char> },
}

impl View for SnapshotQuery {
    type V = QueryView;

    open spec fn view(&self) -> QueryView {
        match *self {
            SnapshotQuery::Workspace => QueryView::Workspace,
            SnapshotQuery::Workflow { project, workflow } => QueryView::Workflow {
                project: project@,
                workflow: workflow@,
            },
            SnapshotQuery::WorkflowRun { project, workflow_run } => QueryView::WorkflowRun {
                project: project@,
                workflow_run: workflow_run@,
            },
            SnapshotQuery::Operation { operation } => QueryView::Operation {
                operation: operation@,
            },
        }
    }
}

/// The text of a handle that may be there.
pub open spec fn opt_handle<H: View<V = Seq<char>>>(h: Option<H>) -> Option<Seq<char>> {
    match h {
        Some(h) => Some(h@),
        None => None,
    }
}

/// A project as the workspace shows it.
#[derive(Debug)]
pub struct WorkspaceProject {
    pub project: ProjectStoreHandle,
    pub name: String,
}

/// A project as the workspace shows it, as a value.
pub ghost struct WorkspaceProjectView {
    pub project: Seq<char>,
    pub name: Seq<char>,
}

impl View for WorkspaceProject {
    type V = WorkspaceProjectView;

    open spec fn view(&self) -> WorkspaceProjectView {
        WorkspaceProjectView {
            project: self.project@,
            name: self.name@,
        }
    }
}

/// Projects as the workspace shows them, as values.
pub open spec fn projects_view(v: Seq<WorkspaceProject>) -> Seq<WorkspaceProjectView> {
    v.map_values(|x: WorkspaceProject| x@)
}

/// A step of a run, as clients see it.
#[derive(Debug)]
pub struct WorkflowRunStepSnapshot {
    pub step: StepHandle,
    pub status: String,
    pub revision: u64,
}

/// A step of a run, as clients see it, as a value.
pub ghost struct StepShown {
    pub step: Seq<char>,
    pub status: Seq<char>,
    pub revision: u64,
}

impl View for WorkflowRunStepSnapshot {
    type V = StepShown;

    open spec fn view(&self) -> StepShown {
        StepShown {
            step: self.step@,
            status: self.status@,
            revision: self.revision,
        }
    }
}

/// Steps of a run, as clients see them, as values.
pub open spec fn steps_shown(v: Seq<WorkflowRunStepSnapshot>) -> Seq<StepShown> {
    v.map_values(|x: WorkflowRunStepSnapshot| x@)
}

/// An agent run, as clients see it.
#[derive(Debug)]
pub struct AgentRunSnapshot {
    pub agent_run: AgentRunHandle,
    pub step: StepHandle,
    pub agent_session: Option<AgentSessionHandle>,
    pub status: String,
    pub revision: u64,
}

/// An agent run, as clients see it, as a value.
pub ghost struct AgentRunShown {
    pub agent_run: Seq<char>,
    pub step: Seq<char>,
    pub agent_session: Option<Seq<char>>,
    pub status: Seq<char>,
    pub revision: u64,
}

impl View for AgentRunSnapshot {
    type V = AgentRunShown;

    open spec fn view(&self) -> AgentRunShown {
        AgentRunShown {
            agent_run: self.agent_run@,
            step: self.step@,
            agent_session: opt_handle(self.agent_session),
            status: self.status@,
            revision: self.revision,
        }
    }
}

/// Agent runs, as clients see them, as values.
pub open spec fn agent_runs_shown(v: Seq<AgentRunSnapshot>) -> Seq<AgentRunShown> {
    v.map_values(|x: AgentRunSnapshot| x@)
}

/// An agent session, as clients see it.
#[derive(Debug)]
pub struct AgentSessionSnapshot {
    pub agent_session: AgentSessionHandle,
    pub status: String,
    pub revision: u64,
}

/// An agent session, as clients see it, as a value.
pub ghost struct SessionShown {
    pub agent_session: Seq<char>,
    pub status: Seq<char>,
    pub revision: u64,
}

impl View for AgentSessionSnapshot {
    type V = SessionShown;

    open spec fn view(&self) -> SessionShown {
        SessionShown {
            agent_session: self.agent_session@,
            status: self.status@,
            revision: self.revision,
        }
    }
}

/// Agent sessions, as clients see them, as values.
pub open spec fn sessions_shown(v: Seq<AgentSessionSnapshot>) -> Seq<SessionShown> {
    v.map_values(|x: AgentSessionSnapshot| x@)
}

/// A question that waits for an answer.
#[derive(Debug)]
pub struct OpenQuestionSnapshot {
    pub question_id: i64,
    pub step: Option<StepHandle>,
    pub agent_run: Option<AgentRunHandle>,
}

/// A question that waits for an answer, as a value.
pub ghost struct QuestionShown {
    pub question_id: i64,
    pub step: Option<Seq<char>>,
    pub agent_run: Option<Seq<char>>,
}

impl View for OpenQuestionSnapshot {
    type V = QuestionShown;

    open spec fn view(&self) -> QuestionShown {
        QuestionShown {
            question_id: self.question_id,
            step: opt_handle(self.step),
            agent_run: opt_handle(self.agent_run),
        }
    }
}

/// Questions that wait for an answer, as values.
pub open spec fn questions_shown(v: Seq<OpenQuestionSnapshot>) -> Seq<QuestionShown> {
    v.map_values(|x: OpenQuestionSnapshot| x@)
}

/// A run of a workflow, as clients see it.
#[derive(Debug)]
pub struct WorkflowRunSnapshotData {
    pub workflow_run: WorkflowRunHandle,
    pub revision: u64,
    pub steps: Vec<WorkflowRunStepSnapshot>,
    pub agent_runs: Vec<AgentRunSnapshot>,
    pub agent_sessions: Vec<AgentSessionSnapshot>,
    pub open_questions: Vec<OpenQuestionSnapshot>,
}

/// A run of a workflow, as clients see it, as a value.
pub ghost struct RunShown {
    pub workflow_run: Seq<char>,
    pub revision: u64,
    pub steps: Seq<StepShown>,
    pub agent_runs: Seq<AgentRunShown>,
    pub agent_sessions: Seq<SessionShown>,
    pub open_questions: Seq<QuestionShown>,
}

impl View for WorkflowRunSnapshotData {
    type V = RunShown;

    open spec fn view(&self) -> RunShown {
        RunShown {
            workflow_run: self.workflow_run@,
            revision: self.revision,
            steps: steps_shown(self.steps@),
            agent_runs: agent_runs_shown(self.agent_runs@),
            agent_sessions: sessions_shown(self.agent_sessions@),
            open_questions: questions_shown(self.open_questions@),
        }
    }
}

/// A step of an operation, as clients see it.
#[derive(Debug)]
pub struct OperationStepSnapshot {
    pub index: usize,
    pub role: String,
    pub state: String,
    pub target_store: String,
    pub aggregate: String,
    pub compensates: Option<usize>,
    pub result: Json,
    pub problem_code: Option<String>,
}

/// A step of an operation, as clients see it, as a value.
pub ghost struct OperationStepShown {
    pub index: usize,
    pub role: Seq<char>,
    pub state: Seq<char>,
    pub target_store: Seq<char>,
    pub aggregate: Seq<char>,
    pub compensates: Option<usize>,
    pub result: JsonView,
    pub problem_code: Option<Seq<char>>,
}

impl View for OperationStepSnapshot {
    type V = OperationStepShown;

    open spec fn view(&self) -> OperationStepShown {
        OperationStepShown {
            index: self.index,
            role: self.role@,
            state: self.state@,
            target_store: self.target_store@,
            aggregate: self.aggregate@,
            compensates: self.compensates,
            result: self.result@,
            problem_code: opt_view(self.problem_code),
        }
    }
}

/// Steps of an operation, as clients see them, as values.
pub open spec fn operation_steps_shown(v: Seq<OperationStepSnapshot>) -> Seq<OperationStepShown> {
    v.map_values(|x: OperationStepSnapshot| x@)
}

/// An operation, as clients see it.
#[derive(Debug)]
pub struct OperationSnapshotData {
    pub operation: OperationHandle,
    pub kind: String,
    pub state: String,
    pub progress: OperationProgress,
    pub workflow_run: Option<WorkflowRunHandle>,
    pub steps: Vec<OperationStepSnapshot>,
}

/// An operation, as clients see it, as a value.
pub ghost struct OperationShown {
    pub operation: Seq<char>,
    pub kind: Seq<char>,
    pub state: Seq<char>,
    pub progress: ProgressView,
    pub workflow_run: Option<Seq<char>>,
    pub steps: Seq<OperationStepShown>,
}

impl View for OperationSnapshotData {
    type V = OperationShown;

    open spec fn view(&self) -> OperationShown {
        OperationShown {
            operation: self.operation@,
            kind: self.kind@,
            state: self.state@,
            progress: self.progress@,
            workflow_run: opt_handle(self.workflow_run),
            steps: operation_steps_shown(self.steps@),
        }
    }
}

/// What a client is shown.
#[derive(Debug)]
pub enum SnapshotData {
    Workspace(Vec<WorkspaceProject>),
    Workflow(WorkflowSnapshotData),
    WorkflowRun(WorkflowRunSnapshotData),
    Operation(OperationSnapshotData),
}

/// What a client is shown, as a value.
pub ghost enum DataView {
    Workspace(Seq<WorkspaceProjectView>),
    Workflow(SnapshotView),
    WorkflowRun(RunShown),
    Operation(OperationShown),
}

impl View for SnapshotData {
    type V = DataView;

    open spec fn view(&self) -> DataView {
        match *self {
            SnapshotData::Workspace(v) => DataView::Workspace(projects_view(v@)),
            SnapshotData::Workflow(d) => DataView::Workflow(d@),
            SnapshotData::WorkflowRun(d) => DataView::WorkflowRun(d@),
            SnapshotData::Operation(d) => DataView::Operation(d@),
        }
    }
}

/// What a client is shown, with the place in the event stream that it was read at.
#[derive(Debug)]
pub struct SnapshotEnvelope {
    pub schema: &'static str,
    pub server_instance_id: ServerInstanceId,
    pub cursor: EventCursor,
    pub data: SnapshotData,
}

/// What a client is shown and where it was read, as a value.
pub ghost struct SnapshotEnvelopeView {
    pub schema: Seq<char>,
    pub server_instance_id: Seq<char>,
    pub cursor: CursorView,
    pub data: DataView,
}

impl View for SnapshotEnvelope {
    type V = SnapshotEnvelopeView;

    open spec fn view(&self) -> SnapshotEnvelopeView {
        SnapshotEnvelopeView {
            schema: self.schema@,
            server_instance_id: self.server_instance_id@,
            cursor: self.cursor@,
            data: self.data@,
        }
    }
}

impl SnapshotEnvelope {
    /// What was read at a place in the stream of an instance.
    pub fn new(server_instance_id: ServerInstanceId, cursor: EventCursor, data: SnapshotData) -> (r:
        Self)
        ensures
            r@ == (SnapshotEnvelopeView {
                schema: SNAPSHOT_SCHEMA@,
                server_instance_id: server_instance_id@,
                cursor: cursor@,
                data: data@,
            }),
    {
        SnapshotEnvelope { schema: SNAPSHOT_SCHEMA, server_instance_id, cursor, data }
    }

    /// The run that is shown; anything else is an error of the core.
    pub fn into_workflow_run(self) -> (r: Result<WorkflowRunSnapshotData, KernelProblem>)
        ensures
            match (self@.data, r) {
                (DataView::WorkflowRun(d), Ok(data)) => data@ == d,
                (DataView::WorkflowRun(_), Err(_)) => false,
                (_, Ok(_)) => false,
                (_, Err(p)) => p@ == KernelProblemView::Internal(
                    "Core 返回了错误的 Workflow Run Snapshot 类型"@,
                ),
            },
    {
        match self.data {
            SnapshotData::WorkflowRun(data) => Ok(data),
            _ => Err(KernelProblem::internal("Core 返回了错误的 Workflow Run Snapshot 类型")),
        }
    }
}

/// What clients see of a step of an operation.
pub open spec fn step_shown(s: StepView) -> OperationStepShown {
    OperationStepShown {
        index: s.step_index,
        role: s.role.name(),
        state: s.state.name(),
        target_store: s.target_store,
        aggregate: s.aggregate,
        compensates: s.compensates,
        result: s.result,
        problem_code: s.problem_code,
    }
}

/// What clients see of an operation.
pub open spec fn operation_shown(
    o: OperationView,
    workflow_run: Option<Seq<char>>,
) -> OperationShown {
    OperationShown {
        operation: o.record.operation_handle,
        kind: o.record.kind,
        state: o.record.state.name(),
        progress: o.record.progress,
        workflow_run,
        steps: o.steps.map_values(|s: StepView| step_shown(s)),
    }
}

/// Where an operation stands.
pub open spec fn operation_at(v: Seq<OperationView>, handle: Seq<char>, from: int) -> Option<int>
    decreases v.len() - from,
{
    if from >= v.len() {
        None
    } else if v[from].record.operation_handle == handle {
        Some(from)
    } else {
        operation_at(v, handle, from + 1)
    }
}

/// Where an operation stands.
pub fn find_operation(v: &Vec<OperationRow>, handle: &OperationHandle) -> (r: Option<usize>)
    ensures
        match r {
            Some(i) => i < v@.len() && operation_at(operations_view(v@), handle@, 0) == Some(
                i as int,
            ),
            None => operation_at(operations_view(v@), handle@, 0) is None,
        },
{
    let ghost all = operations_view(v@);
    let mut i: usize = 0;
    while i < v.len()
        invariant
            i <= v@.len(),
            all == operations_view(v@),
            operation_at(all, handle@, 0) == operation_at(all, handle@, i as int),
        decreases v@.len() - i,
    {
        assert(all[i as int] == v@[i as int]@);
        if v[i].record.operation_handle.same(handle) {
            return Some(i);
        }
        i = i + 1;
    }
    None
}

fn show_progress(p: &OperationProgress) -> (r: OperationProgress)
    ensures
        r@ == p@,
{
    OperationProgress {
        forward_total: p.forward_total,
        forward_succeeded: p.forward_succeeded,
        outcome: copy_opt(&p.outcome),
        problem: match &p.problem {
            Some(d) => Some(
                OperationProblemDetail { code: d.code.clone(), step_index: d.step_index },
            ),
            None => None,
        },
    }
}

/// What clients see of an operation, given the run that it started.
pub fn operation_snapshot(
    operations: &Vec<OperationRow>,
    operation: &OperationHandle,
    workflow_run: Option<WorkflowRunHandle>,
) -> (r: Result<OperationSnapshotData, KernelProblem>)
    ensures
        outcome(r) == (match operation_at(operations_view(operations@), operation@, 0) {
            None => Err::<OperationShown, KernelProblemView>(KernelProblemView::ResourceNotFound),
            Some(i) => Ok(operation_shown(operations@[i]@, opt_handle(workflow_run))),
        }),
{
    let at: usize = match find_operation(operations, operation) {
        Some(i) => i,
        None => {
            return Err(KernelProblem::ResourceNotFound);
        },
    };
    let row: &OperationRow = &operations[at];
    let ghost all = steps_view(row.steps@).map_values(|s: StepView| step_shown(s));
    let mut steps: Vec<OperationStepSnapshot> = Vec::new();
    let mut i: usize = 0;
    assert(operation_steps_shown(steps@) =~= all.take(0));
    while i < row.steps.len()
        invariant
            i <= row.steps@.len(),
            all == steps_view(row.steps@).map_values(|s: StepView| step_shown(s)),
            operation_steps_shown(steps@) == all.take(i as int),
        decreases row.steps@.len() - i,
    {
        let ghost had = steps@;
        let s: &StepRecord = &row.steps[i];
        let one: OperationStepSnapshot = OperationStepSnapshot {
            index: s.step_index,
            role: s.role.as_str().to_owned(),
            state: s.state.as_str().to_owned(),
            target_store: s.target_store.clone(),
            aggregate: s.aggregate.clone(),
            compensates: s.compensates,
            result: s.result.copy(),
            problem_code: copy_opt(&s.problem_code),
        };
        assert(one@ == all[i as int]);
        steps.push(one);
        assert(operation_steps_shown(steps@) =~= operation_steps_shown(had).push(one@));
        assert(all.take(i + 1) =~= all.take(i as int).push(all[i as int]));
        i = i + 1;
    }
    assert(all.take(i as int) =~= all);
    Ok(
        OperationSnapshotData {
            operation: row.record.operation_handle.clone(),
            kind: row.record.kind.as_str().to_owned(),
            state: row.record.state.as_str().to_owned(),
            progress: show_progress(&row.record.progress),
            workflow_run,
            steps,
        },
    )
}

/// What the workspace calls a project, given the last part of its path.
pub open spec fn shown_name(file_name: Option<Seq<char>>) -> Seq<char> {
    match file_name {
        Some(n) => if n.len() == 0 {
            "Project"@
        } else {
            n
        },
        None => "Project"@,
    }
}

/// The last part of the path of a project, if it is known.
pub open spec fn name_among(
    names: Seq<(Seq<char>, Option<Seq<char>>)>,
    project: Seq<char>,
    from: int,
) -> Option<Seq<char>>
    decreases names.len() - from,
{
    if from >= names.len() {
        None
    } else if names[from].0 == project {
        names[from].1
    } else {
        name_among(names, project, from + 1)
    }
}

/// Projects with the last parts of their paths, as values.
pub open spec fn names_view(v: Seq<(String, Option<String>)>) -> Seq<
    (Seq<char>, Option<Seq<char>>),
> {
    v.map_values(|p: (String, Option<String>)| (p.0@, opt_view(p.1)))
}

fn find_name(names: &Vec<(String, Option<String>)>, project: &str) -> (r: String)
    ensures
        r@ == shown_name(name_among(names_view(names@), project@, 0)),
{
    let ghost all = names_view(names@);
    let mut i: usize = 0;
    while i < names.len()
        invariant
            i <= names@.len(),
            all == names_view(names@),
            name_among(all, project@, 0) == name_among(all, project@, i as int),
        decreases names@.len() - i,
    {
        assert(all[i as int] == (names@[i as int].0@, opt_view(names@[i as int].1)));
        if same(names[i].0.as_str(), project) {
            return match &names[i].1 {
                Some(n) => if same(n.as_str(), "") {
                    proof {
                        reveal_strlit("");
                    }
                    "Project".to_owned()
                } else {
                    proof {
                        reveal_strlit("");
                        if n@.len() == 0 {
                            assert(n@ =~= ""@);
                        }
                    }
                    n.clone()
                },
                None => "Project".to_owned(),
            };
        }
        i = i + 1;
    }
    "Project".to_owned()
}

/// A list in the order of the handles, with one more project at its place.
pub open spec fn placed(v: Seq<WorkspaceProjectView>, x: WorkspaceProjectView) -> Seq<
    WorkspaceProjectView,
>
    decreases v.len(),
{
    if v.len() > 0 && before(x.project, v.last().project) {
        placed(v.drop_last(), x).push(v.last())
    } else {
        v.push(x)
    }
}

/// What the workspace shows of the first `n` projects: those that are not being closed,
/// in the order of their handles.
pub open spec fn workspace(
    v: Seq<RegistrationRow>,
    names: Seq<(Seq<char>, Option<Seq<char>>)>,
    n: nat,
) -> Seq<WorkspaceProjectView>
    decreases n,
{
    if n == 0 {
        seq![]
    } else {
        let shown = workspace(v, names, (n - 1) as nat);
        if v[n - 1].closing {
            shown
        } else {
            placed(
                shown,
                WorkspaceProjectView {
                    project: v[n - 1].project,
                    name: shown_name(name_among(names, v[n - 1].project, 0)),
                },
            )
        }
    }
}

proof fn lemma_placed(v: Seq<WorkspaceProjectView>, x: WorkspaceProjectView, at: int)
    requires
        0 <= at <= v.len(),
        forall|i: int| at <= i < v.len() ==> before(x.project, (#[trigger] v[i]).project),
        at == 0 || !before(x.project, v[at - 1].project),
    ensures
        placed(v, x) == v.insert(at, x),
    decreases v.len(),
{
    if at < v.len() {
        let w = v.drop_last();
        assert forall|i: int| at <= i < w.len() implies before(
            x.project,
            (#[trigger] w[i]).project,
        ) by {
            assert(w[i] == v[i]);
        }
        lemma_placed(w, x, at);
        assert(w.insert(at, x).push(v.last()) =~= v.insert(at, x));
    } else {
        assert(v.insert(at, x) =~= v.push(x));
    }
}

fn place(v: &mut Vec<WorkspaceProject>, x: WorkspaceProject)
    ensures
        projects_view(final(v)@) == placed(projects_view(old(v)@), x@),
{
    let ghost had = v@;
    let mut at: usize = v.len();
    while at > 0 && less(x.project.as_str(), v[at - 1].project.as_str())
        invariant
            v@ == had,
            at <= v@.len(),
            forall|i: int|
                at <= i < v@.len() ==> before(
                    x@.project,
                    (#[trigger] projects_view(v@)[i]).project,
                ),
        decreases at,
    {
        at = at - 1;
    }
    proof {
        lemma_placed(projects_view(had), x@, at as int);
    }
    v.insert(at, x);
    assert(projects_view(v@) =~= projects_view(had).insert(at as int, x@));
}

/// What the workspace shows: the projects that are not being closed, in the order of
/// their handles, each under the last part of its path.
pub fn workspace_projects(
    projects: &Vec<ProjectRegistration>,
    names: &Vec<(String, Option<String>)>,
) -> (r: Vec<WorkspaceProject>)
    ensures
        projects_view(r@) == workspace(
            registrations(projects@),
            names_view(names@),
            projects@.len() as nat,
        ),
{
    let ghost all = registrations(projects@);
    let mut out: Vec<WorkspaceProject> = Vec::new();
    let mut i: usize = 0;
    assert(projects_view(out@) =~= seq![]);
    while i < projects.len()
        invariant
            i <= projects@.len(),
            all == registrations(projects@),
            projects_view(out@) == workspace(all, names_view(names@), i as nat),
        decreases projects@.len() - i,
    {
        assert(all[i as int] == projects@[i as int]@);
        if !projects[i].closing {
            let one: WorkspaceProject = WorkspaceProject {
                project: projects[i].project.clone(),
                name: find_name(names, projects[i].project.as_str()),
            };
            place(&mut out, one);
        }
        i = i + 1;
    }
    out
}

/// Whether a list is in the order of the handles.
pub open spec fn in_order(v: Seq<WorkspaceProjectView>) -> bool {
    forall|i: int, j: int|
        0 <= i < j < v.len() ==> !before((#[trigger] v[j]).project, (#[trigger] v[i]).project)
}

proof fn lemma_placed_in_order(v: Seq<WorkspaceProjectView>, x: WorkspaceProjectView)
    requires
        in_order(v),
    ensures
        in_order(placed(v, x)),
        placed(v, x).len() == v.len() + 1,
        forall|k: int|
            0 <= k < placed(v, x).len() ==> (#[trigger] placed(v, x)[k]) == x || v.contains(
                placed(v, x)[k],
            ),
    decreases v.len(),
{
    if v.len() > 0 && before(x.project, v.last().project) {
        let w = v.drop_last();
        assert forall|i: int, j: int| 0 <= i < j < w.len() implies !before(
            (#[trigger] w[j]).project,
            (#[trigger] w[i]).project,
        ) by {
            assert(w[i] == v[i] && w[j] == v[j]);
        }
        lemma_placed_in_order(w, x);
        let p = placed(w, x);
        assert forall|k: int| 0 <= k < p.len() implies !before(
            v.last().project,
            (#[trigger] p[k]).project,
        ) && (p[k] == x || v.contains(p[k])) by {
            if p[k] != x {
                assert(w.contains(p[k]));
                let m = choose|m: int| 0 <= m < w.len() && w[m] == p[k];
                assert(v[m] == p[k]);
                assert(!before(v[v.len() - 1].project, v[m].project));
            } else {
                lemma_before_total(x.project, v.last().project);
            }
        }
        assert(v.contains(v.last()));
    } else {
        assert forall|i: int, j: int|
            0 <= i < j < v.push(x).len() implies !before(
            (#[trigger] v.push(x)[j]).project,
            (#[trigger] v.push(x)[i]).project,
        ) by {
            if j == v.len() && i + 1 < v.len() {
                let last = v[v.len() - 1];
                assert(!before(last.project, v[i].project));
                lemma_before_total(x.project, v[i].project);
                lemma_before_total(last.project, v[i].project);
                if before(x.project, v[i].project) {
                    if before(v[i].project, last.project) {
                        lemma_before_transitive(x.project, v[i].project, last.project);
                    }
                }
            }
        }
        assert forall|k: int| 0 <= k < v.push(x).len() implies (#[trigger] v.push(x)[k]) == x
            || v.contains(v.push(x)[k]) by {
            if k < v.len() {
                assert(v[k] == v.push(x)[k]);
            }
        }
    }
}

/// The workspace is in the order of the handles, and shows no project that is being
/// closed.
pub proof fn law_the_workspace_is_in_order(
    v: Seq<RegistrationRow>,
    names: Seq<(Seq<char>, Option<Seq<char>>)>,
    n: nat,
)
    requires
        n <= v.len(),
    ensures
        in_order(workspace(v, names, n)),
        forall|k: int|
            0 <= k < workspace(v, names, n).len() ==> exists|i: int|
                0 <= i < n && !(#[trigger] v[i]).closing && v[i].project == (
                #[trigger] workspace(v, names, n)[k]).project,
    decreases n,
{
    if n > 0 {
        let m = (n - 1) as nat;
        law_the_workspace_is_in_order(v, names, m);
        let shown = workspace(v, names, m);
        if !v[m as int].closing {
            let x = WorkspaceProjectView {
                project: v[m as int].project,
                name: shown_name(name_among(names, v[m as int].project, 0)),
            };
            lemma_placed_in_order(shown, x);
            assert forall|k: int| 0 <= k < placed(shown, x).len() implies exists|i: int|
                0 <= i < n && !(#[trigger] v[i]).closing && v[i].project == (
                #[trigger] placed(shown, x)[k]).project by {
                let p = placed(shown, x)[k];
                if p == x {
                    assert(!v[m as int].closing);
                } else {
                    assert(shown.contains(p));
                    let q = choose|q: int| 0 <= q < shown.len() && shown[q] == p;
                    assert(shown[q].project == p.project);
                    let i = choose|i: int|
                        0 <= i < m && !(#[trigger] v[i]).closing && v[i].project
                            == shown[q].project;
                    assert(!v[i].closing);
                }
            }
        } else {
            assert forall|k: int| 0 <= k < shown.len() implies exists|i: int|
                0 <= i < n && !(#[trigger] v[i]).closing && v[i].project == (
                #[trigger] shown[k]).project by {
                let i = choose|i: int|
                    0 <= i < m && !(#[trigger] v[i]).closing && v[i].project
                        == shown[k].project;
                assert(!v[i].closing);
            }
        }
    }
}

} // verus!
