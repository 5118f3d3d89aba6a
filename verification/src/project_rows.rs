//! The rows of a project's store that commands read and change: its workflows, their
//! runs, and what belongs to a run.

use crate::json::{Json, JsonView};
use crate::run_command::{copy_nodes, nodes_view, NodeView, WorkflowNodeDraft};
use crate::text::{copy_list, copy_opt, opt_view, same, texts};
use vstd::prelude::*;
use vstd::string::*;

verus! {

/// A run of a workflow, as it is stored.
#[derive(Debug)]
pub struct TaskRow {
    pub id: i64,
    pub public_handle: String,
    pub revision: i64,
    pub active_revision: Option<i64>,
    pub title: String,
    pub goal: String,
    pub status: String,
    pub paused: Json,
    pub unread: Json,
}

/// A run of a workflow, as a value.
pub ghost struct TaskView {
    pub id: i64,
    pub public_handle: Seq<char>,
    pub revision: i64,
    pub active_revision: Option<i64>,
    pub title: Seq<char>,
    pub goal: Seq<char>,
    pub status: Seq<char>,
    pub paused: JsonView,
    pub unread: JsonView,
}

impl View for TaskRow {
    type V = TaskView;

    open spec fn view(&self) -> TaskView {
        TaskView {
            id: self.id,
            public_handle: self.public_handle@,
            revision: self.revision,
            active_revision: self.active_revision,
            title: self.title@,
            goal: self.goal@,
            status: self.status@,
            paused: self.paused@,
            unread: self.unread@,
        }
    }
}

impl TaskRow {
    pub fn copy(&self) -> (r: Self)
        ensures
            r@ == self@,
    {
        TaskRow {
            id: self.id,
            public_handle: self.public_handle.clone(),
            revision: self.revision,
            active_revision: self.active_revision,
            title: self.title.clone(),
            goal: self.goal.clone(),
            status: self.status.clone(),
            paused: self.paused.copy(),
            unread: self.unread.copy(),
        }
    }
}

/// Rows as values.
pub open spec fn tasks_view(v: Seq<TaskRow>) -> Seq<TaskView> {
    v.map_values(|r: TaskRow| r@)
}

/// The first row with that handle, from a place on.
pub open spec fn task_by_handle(v: Seq<TaskView>, key: Seq<char>, from: int) -> Option<TaskView>
    decreases v.len() - from,
{
    if from >= v.len() {
        None
    } else if v[from].public_handle == key {
        Some(v[from])
    } else {
        task_by_handle(v, key, from + 1)
    }
}

/// The first row with that handle.
pub fn find_task_by_handle(v: &Vec<TaskRow>, key: &str) -> (r: Option<usize>)
    ensures
        match r {
            Some(i) => i < v@.len() && task_by_handle(tasks_view(v@), key@, 0) == Some(v@[i as int]@),
            None => task_by_handle(tasks_view(v@), key@, 0) is None,
        },
{
    let ghost all = tasks_view(v@);
    let mut i: usize = 0;
    while i < v.len()
        invariant
            i <= v@.len(),
            all == tasks_view(v@),
            task_by_handle(all, key@, 0) == task_by_handle(all, key@, i as int),
        decreases v@.len() - i,
    {
        assert(all[i as int] == v@[i as int]@);
        if same(v[i].public_handle.as_str(), key) {
            return Some(i);
        }
        i = i + 1;
    }
    None
}

/// The first row with that id, from a place on.
pub open spec fn task_by_id(v: Seq<TaskView>, key: i64, from: int) -> Option<TaskView>
    decreases v.len() - from,
{
    if from >= v.len() {
        None
    } else if v[from].id == key {
        Some(v[from])
    } else {
        task_by_id(v, key, from + 1)
    }
}

/// The first row with that id.
pub fn find_task_by_id(v: &Vec<TaskRow>, key: i64) -> (r: Option<usize>)
    ensures
        match r {
            Some(i) => i < v@.len() && task_by_id(tasks_view(v@), key, 0) == Some(v@[i as int]@),
            None => task_by_id(tasks_view(v@), key, 0) is None,
        },
{
    let ghost all = tasks_view(v@);
    let mut i: usize = 0;
    while i < v.len()
        invariant
            i <= v@.len(),
            all == tasks_view(v@),
            task_by_id(all, key, 0) == task_by_id(all, key, i as int),
        decreases v@.len() - i,
    {
        assert(all[i as int] == v@[i as int]@);
        if v[i].id == key {
            return Some(i);
        }
        i = i + 1;
    }
    None
}

/// A step of a run, as it is stored. Its dependencies are listed by their handles.
#[derive(Debug)]
pub struct StepRow {
    pub id: i64,
    pub public_handle: String,
    pub revision: i64,
    pub task_id: i64,
    pub revision_id: i64,
    pub step_key: String,
    pub title: String,
    pub status: String,
    pub attempts: Json,
    pub auto_retry: Json,
    pub result: Json,
    pub dependencies: Vec<String>,
}

/// A step of a run, as a value.
pub ghost struct RunStepView {
    pub id: i64,
    pub public_handle: Seq<char>,
    pub revision: i64,
    pub task_id: i64,
    pub revision_id: i64,
    pub step_key: Seq<char>,
    pub title: Seq<char>,
    pub status: Seq<char>,
    pub attempts: JsonView,
    pub auto_retry: JsonView,
    pub result: JsonView,
    pub dependencies: Seq<Seq<char>>,
}

impl View for StepRow {
    type V = RunStepView;

    open spec fn view(&self) -> RunStepView {
        RunStepView {
            id: self.id,
            public_handle: self.public_handle@,
            revision: self.revision,
            task_id: self.task_id,
            revision_id: self.revision_id,
            step_key: self.step_key@,
            title: self.title@,
            status: self.status@,
            attempts: self.attempts@,
            auto_retry: self.auto_retry@,
            result: self.result@,
            dependencies: texts(self.dependencies@),
        }
    }
}

impl StepRow {
    pub fn copy(&self) -> (r: Self)
        ensures
            r@ == self@,
    {
        StepRow {
            id: self.id,
            public_handle: self.public_handle.clone(),
            revision: self.revision,
            task_id: self.task_id,
            revision_id: self.revision_id,
            step_key: self.step_key.clone(),
            title: self.title.clone(),
            status: self.status.clone(),
            attempts: self.attempts.copy(),
            auto_retry: self.auto_retry.copy(),
            result: self.result.copy(),
            dependencies: copy_list(&self.dependencies),
        }
    }
}

/// Rows as values.
pub open spec fn steps_view(v: Seq<StepRow>) -> Seq<RunStepView> {
    v.map_values(|r: StepRow| r@)
}

/// The first row with that handle, from a place on.
pub open spec fn step_by_handle(
    v: Seq<RunStepView>,
    key: Seq<char>,
    from: int,
) -> Option<RunStepView>
    decreases v.len() - from,
{
    if from >= v.len() {
        None
    } else if v[from].public_handle == key {
        Some(v[from])
    } else {
        step_by_handle(v, key, from + 1)
    }
}

/// The first row with that handle.
pub fn find_step_by_handle(v: &Vec<StepRow>, key: &str) -> (r: Option<usize>)
    ensures
        match r {
            Some(i) => i < v@.len() && step_by_handle(steps_view(v@), key@, 0) == Some(v@[i as int]@),
            None => step_by_handle(steps_view(v@), key@, 0) is None,
        },
{
    let ghost all = steps_view(v@);
    let mut i: usize = 0;
    while i < v.len()
        invariant
            i <= v@.len(),
            all == steps_view(v@),
            step_by_handle(all, key@, 0) == step_by_handle(all, key@, i as int),
        decreases v@.len() - i,
    {
        assert(all[i as int] == v@[i as int]@);
        if same(v[i].public_handle.as_str(), key) {
            return Some(i);
        }
        i = i + 1;
    }
    None
}

/// The first row with that id, from a place on.
pub open spec fn step_by_id(v: Seq<RunStepView>, key: i64, from: int) -> Option<RunStepView>
    decreases v.len() - from,
{
    if from >= v.len() {
        None
    } else if v[from].id == key {
        Some(v[from])
    } else {
        step_by_id(v, key, from + 1)
    }
}

/// The first row with that id.
pub fn find_step_by_id(v: &Vec<StepRow>, key: i64) -> (r: Option<usize>)
    ensures
        match r {
            Some(i) => i < v@.len() && step_by_id(steps_view(v@), key, 0) == Some(v@[i as int]@),
            None => step_by_id(steps_view(v@), key, 0) is None,
        },
{
    let ghost all = steps_view(v@);
    let mut i: usize = 0;
    while i < v.len()
        invariant
            i <= v@.len(),
            all == steps_view(v@),
            step_by_id(all, key, 0) == step_by_id(all, key, i as int),
        decreases v@.len() - i,
    {
        assert(all[i as int] == v@[i as int]@);
        if v[i].id == key {
            return Some(i);
        }
        i = i + 1;
    }
    None
}

/// A run of an agent, as it is stored. Its token does not leave the store.
pub struct AgentRunRow {
    pub id: i64,
    pub public_handle: String,
    pub revision: i64,
    pub task_id: i64,
    pub step_id: i64,
    pub session_id: Option<i64>,
    pub status: String,
    pub agent_state: Json,
    pub outcome: Option<String>,
    pub outcome_payload: Json,
    pub started_at: Json,
    pub ended_at: Json,
    pub capability_token: String,
}

/// A run of an agent, as a value.
pub ghost struct AgentRunView {
    pub id: i64,
    pub public_handle: Seq<char>,
    pub revision: i64,
    pub task_id: i64,
    pub step_id: i64,
    pub session_id: Option<i64>,
    pub status: Seq<char>,
    pub agent_state: JsonView,
    pub outcome: Option<Seq<char>>,
    pub outcome_payload: JsonView,
    pub started_at: JsonView,
    pub ended_at: JsonView,
    pub capability_token: Seq<char>,
}

impl View for AgentRunRow {
    type V = AgentRunView;

    open spec fn view(&self) -> AgentRunView {
        AgentRunView {
            id: self.id,
            public_handle: self.public_handle@,
            revision: self.revision,
            task_id: self.task_id,
            step_id: self.step_id,
            session_id: self.session_id,
            status: self.status@,
            agent_state: self.agent_state@,
            outcome: opt_view(self.outcome),
            outcome_payload: self.outcome_payload@,
            started_at: self.started_at@,
            ended_at: self.ended_at@,
            capability_token: self.capability_token@,
        }
    }
}

impl AgentRunRow {
    pub fn copy(&self) -> (r: Self)
        ensures
            r@ == self@,
    {
        AgentRunRow {
            id: self.id,
            public_handle: self.public_handle.clone(),
            revision: self.revision,
            task_id: self.task_id,
            step_id: self.step_id,
            session_id: self.session_id,
            status: self.status.clone(),
            agent_state: self.agent_state.copy(),
            outcome: copy_opt(&self.outcome),
            outcome_payload: self.outcome_payload.copy(),
            started_at: self.started_at.copy(),
            ended_at: self.ended_at.copy(),
            capability_token: self.capability_token.clone(),
        }
    }
}

/// Rows as values.
pub open spec fn agent_runs_view(v: Seq<AgentRunRow>) -> Seq<AgentRunView> {
    v.map_values(|r: AgentRunRow| r@)
}

/// The first row with that handle, from a place on.
pub open spec fn agent_run_by_handle(
    v: Seq<AgentRunView>,
    key: Seq<char>,
    from: int,
) -> Option<AgentRunView>
    decreases v.len() - from,
{
    if from >= v.len() {
        None
    } else if v[from].public_handle == key {
        Some(v[from])
    } else {
        agent_run_by_handle(v, key, from + 1)
    }
}

/// The first row with that handle.
pub fn find_agent_run_by_handle(v: &Vec<AgentRunRow>, key: &str) -> (r: Option<usize>)
    ensures
        match r {
            Some(i) => i < v@.len() && agent_run_by_handle(agent_runs_view(v@), key@, 0) == Some(v@[i as int]@),
            None => agent_run_by_handle(agent_runs_view(v@), key@, 0) is None,
        },
{
    let ghost all = agent_runs_view(v@);
    let mut i: usize = 0;
    while i < v.len()
        invariant
            i <= v@.len(),
            all == agent_runs_view(v@),
            agent_run_by_handle(all, key@, 0) == agent_run_by_handle(all, key@, i as int),
        decreases v@.len() - i,
    {
        assert(all[i as int] == v@[i as int]@);
        if same(v[i].public_handle.as_str(), key) {
            return Some(i);
        }
        i = i + 1;
    }
    None
}

/// The first row with that id, from a place on.
pub open spec fn agent_run_by_id(v: Seq<AgentRunView>, key: i64, from: int) -> Option<AgentRunView>
    decreases v.len() - from,
{
    if from >= v.len() {
        None
    } else if v[from].id == key {
        Some(v[from])
    } else {
        agent_run_by_id(v, key, from + 1)
    }
}

/// The first row with that id.
pub fn find_agent_run_by_id(v: &Vec<AgentRunRow>, key: i64) -> (r: Option<usize>)
    ensures
        match r {
            Some(i) => i < v@.len() && agent_run_by_id(agent_runs_view(v@), key, 0) == Some(v@[i as int]@),
            None => agent_run_by_id(agent_runs_view(v@), key, 0) is None,
        },
{
    let ghost all = agent_runs_view(v@);
    let mut i: usize = 0;
    while i < v.len()
        invariant
            i <= v@.len(),
            all == agent_runs_view(v@),
            agent_run_by_id(all, key, 0) == agent_run_by_id(all, key, i as int),
        decreases v@.len() - i,
    {
        assert(all[i as int] == v@[i as int]@);
        if v[i].id == key {
            return Some(i);
        }
        i = i + 1;
    }
    None
}

/// A session of an agent, as it is stored.
#[derive(Debug)]
pub struct SessionRow {
    pub id: i64,
    pub public_handle: String,
    pub revision: i64,
    pub runtime: Json,
    pub title: String,
    pub status: String,
    pub unread: Json,
}

/// A session of an agent, as a value.
pub ghost struct AgentSessionView {
    pub id: i64,
    pub public_handle: Seq<char>,
    pub revision: i64,
    pub runtime: JsonView,
    pub title: Seq<char>,
    pub status: Seq<char>,
    pub unread: JsonView,
}

impl View for SessionRow {
    type V = AgentSessionView;

    open spec fn view(&self) -> AgentSessionView {
        AgentSessionView {
            id: self.id,
            public_handle: self.public_handle@,
            revision: self.revision,
            runtime: self.runtime@,
            title: self.title@,
            status: self.status@,
            unread: self.unread@,
        }
    }
}

impl SessionRow {
    pub fn copy(&self) -> (r: Self)
        ensures
            r@ == self@,
    {
        SessionRow {
            id: self.id,
            public_handle: self.public_handle.clone(),
            revision: self.revision,
            runtime: self.runtime.copy(),
            title: self.title.clone(),
            status: self.status.clone(),
            unread: self.unread.copy(),
        }
    }
}

/// Rows as values.
pub open spec fn sessions_view(v: Seq<SessionRow>) -> Seq<AgentSessionView> {
    v.map_values(|r: SessionRow| r@)
}

/// The first row with that handle, from a place on.
pub open spec fn session_by_handle(
    v: Seq<AgentSessionView>,
    key: Seq<char>,
    from: int,
) -> Option<AgentSessionView>
    decreases v.len() - from,
{
    if from >= v.len() {
        None
    } else if v[from].public_handle == key {
        Some(v[from])
    } else {
        session_by_handle(v, key, from + 1)
    }
}

/// The first row with that handle.
pub fn find_session_by_handle(v: &Vec<SessionRow>, key: &str) -> (r: Option<usize>)
    ensures
        match r {
            Some(i) => i < v@.len() && session_by_handle(sessions_view(v@), key@, 0) == Some(v@[i as int]@),
            None => session_by_handle(sessions_view(v@), key@, 0) is None,
        },
{
    let ghost all = sessions_view(v@);
    let mut i: usize = 0;
    while i < v.len()
        invariant
            i <= v@.len(),
            all == sessions_view(v@),
            session_by_handle(all, key@, 0) == session_by_handle(all, key@, i as int),
        decreases v@.len() - i,
    {
        assert(all[i as int] == v@[i as int]@);
        if same(v[i].public_handle.as_str(), key) {
            return Some(i);
        }
        i = i + 1;
    }
    None
}

/// The first row with that id, from a place on.
pub open spec fn session_by_id(
    v: Seq<AgentSessionView>,
    key: i64,
    from: int,
) -> Option<AgentSessionView>
    decreases v.len() - from,
{
    if from >= v.len() {
        None
    } else if v[from].id == key {
        Some(v[from])
    } else {
        session_by_id(v, key, from + 1)
    }
}

/// The first row with that id.
pub fn find_session_by_id(v: &Vec<SessionRow>, key: i64) -> (r: Option<usize>)
    ensures
        match r {
            Some(i) => i < v@.len() && session_by_id(sessions_view(v@), key, 0) == Some(v@[i as int]@),
            None => session_by_id(sessions_view(v@), key, 0) is None,
        },
{
    let ghost all = sessions_view(v@);
    let mut i: usize = 0;
    while i < v.len()
        invariant
            i <= v@.len(),
            all == sessions_view(v@),
            session_by_id(all, key, 0) == session_by_id(all, key, i as int),
        decreases v@.len() - i,
    {
        assert(all[i as int] == v@[i as int]@);
        if v[i].id == key {
            return Some(i);
        }
        i = i + 1;
    }
    None
}

/// A question that an agent asks its user, as it is stored.
#[derive(Debug)]
pub struct QuestionRow {
    pub id: i64,
    pub task_id: i64,
    pub step_id: i64,
    pub run_id: Option<i64>,
    pub status: String,
}

/// A question that an agent asks its user, as a value.
pub ghost struct QuestionView {
    pub id: i64,
    pub task_id: i64,
    pub step_id: i64,
    pub run_id: Option<i64>,
    pub status: Seq<char>,
}

impl View for QuestionRow {
    type V = QuestionView;

    open spec fn view(&self) -> QuestionView {
        QuestionView {
            id: self.id,
            task_id: self.task_id,
            step_id: self.step_id,
            run_id: self.run_id,
            status: self.status@,
        }
    }
}

impl QuestionRow {
    pub fn copy(&self) -> (r: Self)
        ensures
            r@ == self@,
    {
        QuestionRow {
            id: self.id,
            task_id: self.task_id,
            step_id: self.step_id,
            run_id: self.run_id,
            status: self.status.clone(),
        }
    }
}

/// Rows as values.
pub open spec fn questions_view(v: Seq<QuestionRow>) -> Seq<QuestionView> {
    v.map_values(|r: QuestionRow| r@)
}

/// A workflow of a project, as it is stored.
#[derive(Debug)]
pub struct WorkflowRecord {
    pub public_handle: String,
    pub key: String,
    pub name: String,
    pub nodes: Vec<WorkflowNodeDraft>,
    pub allow_unsafe_parallel: bool,
    pub semantic_revision: i64,
    pub presentation_revision: i64,
}

/// A workflow of a project, as a value.
pub ghost struct WorkflowView {
    pub public_handle: Seq<char>,
    pub key: Seq<char>,
    pub name: Seq<char>,
    pub nodes: Seq<NodeView>,
    pub allow_unsafe_parallel: bool,
    pub semantic_revision: i64,
    pub presentation_revision: i64,
}

impl View for WorkflowRecord {
    type V = WorkflowView;

    open spec fn view(&self) -> WorkflowView {
        WorkflowView {
            public_handle: self.public_handle@,
            key: self.key@,
            name: self.name@,
            nodes: nodes_view(self.nodes@),
            allow_unsafe_parallel: self.allow_unsafe_parallel,
            semantic_revision: self.semantic_revision,
            presentation_revision: self.presentation_revision,
        }
    }
}

impl WorkflowRecord {
    pub fn copy(&self) -> (r: Self)
        ensures
            r@ == self@,
    {
        WorkflowRecord {
            public_handle: self.public_handle.clone(),
            key: self.key.clone(),
            name: self.name.clone(),
            nodes: copy_nodes(&self.nodes),
            allow_unsafe_parallel: self.allow_unsafe_parallel,
            semantic_revision: self.semantic_revision,
            presentation_revision: self.presentation_revision,
        }
    }
}

/// Rows as values.
pub open spec fn workflows_view(v: Seq<WorkflowRecord>) -> Seq<WorkflowView> {
    v.map_values(|r: WorkflowRecord| r@)
}

/// The first row with that handle, from a place on.
pub open spec fn workflow_by_handle(
    v: Seq<WorkflowView>,
    key: Seq<char>,
    from: int,
) -> Option<WorkflowView>
    decreases v.len() - from,
{
    if from >= v.len() {
        None
    } else if v[from].public_handle == key {
        Some(v[from])
    } else {
        workflow_by_handle(v, key, from + 1)
    }
}

/// The first row with that handle.
pub fn find_workflow_by_handle(v: &Vec<WorkflowRecord>, key: &str) -> (r: Option<usize>)
    ensures
        match r {
            Some(i) => i < v@.len() && workflow_by_handle(workflows_view(v@), key@, 0) == Some(v@[i as int]@),
            None => workflow_by_handle(workflows_view(v@), key@, 0) is None,
        },
{
    let ghost all = workflows_view(v@);
    let mut i: usize = 0;
    while i < v.len()
        invariant
            i <= v@.len(),
            all == workflows_view(v@),
            workflow_by_handle(all, key@, 0) == workflow_by_handle(all, key@, i as int),
        decreases v@.len() - i,
    {
        assert(all[i as int] == v@[i as int]@);
        if same(v[i].public_handle.as_str(), key) {
            return Some(i);
        }
        i = i + 1;
    }
    None
}

/// That a run is being cancelled, as it is stored.
#[derive(Debug)]
pub struct CancelFenceRow {
    pub command_id: String,
    pub task_id: i64,
    pub state: String,
}

/// That a run is being cancelled, as a value.
pub ghost struct FenceView {
    pub command_id: Seq<char>,
    pub task_id: i64,
    pub state: Seq<char>,
}

impl View for CancelFenceRow {
    type V = FenceView;

    open spec fn view(&self) -> FenceView {
        FenceView {
            command_id: self.command_id@,
            task_id: self.task_id,
            state: self.state@,
        }
    }
}

impl CancelFenceRow {
    pub fn copy(&self) -> (r: Self)
        ensures
            r@ == self@,
    {
        CancelFenceRow {
            command_id: self.command_id.clone(),
            task_id: self.task_id,
            state: self.state.clone(),
        }
    }
}

/// Rows as values.
pub open spec fn fences_view(v: Seq<CancelFenceRow>) -> Seq<FenceView> {
    v.map_values(|r: CancelFenceRow| r@)
}

/// The rows of a project.
pub struct ProjectRows {
    pub collection_revision: i64,
    pub workflows: Vec<WorkflowRecord>,
    pub tasks: Vec<TaskRow>,
    pub steps: Vec<StepRow>,
    pub agent_runs: Vec<AgentRunRow>,
    pub sessions: Vec<SessionRow>,
    pub questions: Vec<QuestionRow>,
    pub fences: Vec<CancelFenceRow>,
}

/// The rows of a project, as values.
pub ghost struct RowsView {
    pub collection_revision: i64,
    pub workflows: Seq<WorkflowView>,
    pub tasks: Seq<TaskView>,
    pub steps: Seq<RunStepView>,
    pub agent_runs: Seq<AgentRunView>,
    pub sessions: Seq<AgentSessionView>,
    pub questions: Seq<QuestionView>,
    pub fences: Seq<FenceView>,
}

impl View for ProjectRows {
    type V = RowsView;

    open spec fn view(&self) -> RowsView {
        RowsView {
            collection_revision: self.collection_revision,
            workflows: workflows_view(self.workflows@),
            tasks: tasks_view(self.tasks@),
            steps: steps_view(self.steps@),
            agent_runs: agent_runs_view(self.agent_runs@),
            sessions: sessions_view(self.sessions@),
            questions: questions_view(self.questions@),
            fences: fences_view(self.fences@),
        }
    }
}

/// Whether a run is being cancelled by a command and not done yet.
pub open spec fn fenced(fences: Seq<FenceView>, command_id: Seq<char>, task_id: i64) -> bool {
    exists|i: int|
        0 <= i < fences.len() && (#[trigger] fences[i]).command_id == command_id
            && fences[i].task_id == task_id && fences[i].state != "finalized"@
}

/// Whether a run is being cancelled by a command and not done yet.
pub fn is_fenced(fences: &Vec<CancelFenceRow>, command_id: &str, task_id: i64) -> (r: bool)
    ensures
        r == fenced(fences_view(fences@), command_id@, task_id),
{
    let ghost all = fences_view(fences@);
    let mut i: usize = 0;
    while i < fences.len()
        invariant
            i <= fences@.len(),
            all == fences_view(fences@),
            forall|k: int|
                0 <= k < i ==> !((#[trigger] all[k]).command_id == command_id@ && all[k].task_id
                    == task_id && all[k].state != "finalized"@),
        decreases fences@.len() - i,
    {
        assert(all[i as int] == fences@[i as int]@);
        if same(fences[i].command_id.as_str(), command_id) && fences[i].task_id == task_id && !same(
            fences[i].state.as_str(),
            "finalized",
        ) {
            assert(all[i as int].command_id == command_id@);
            return true;
        }
        i = i + 1;
    }
    false
}

} // verus!
