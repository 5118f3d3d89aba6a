//! The commands of the kernel: a closed family. Each one says which project it is for,
//! what it acts on, and which revisions it starts from.

use crate::command::CommandType;
use crate::handles::{
    expectations, AgentRunHandle, AgentSessionHandle, AggregateKind, AggregateRef, AggregateView,
    ClientId, CommandId, ExpectedRevision, ExpectedView, Principal, ProjectStoreHandle, StepHandle,
    WorkflowHandle, WorkflowRunHandle,
};
use crate::json::{array, fields, items, items_view, object, push_item, put, txt, Json, JsonView};
use crate::operation::OperationHandle;
use crate::problem::{KernelProblem, KernelProblemView};
use crate::projection::RevisionVector;
use crate::text::{copy_list, same, signed, signed_text, texts, trim, trim_text};
use vstd::prelude::*;
use vstd::string::*;

verus! {

/// How a step is tried again.
#[derive(Debug, Clone, Copy, PartialEq, Eq, Structural)]
pub enum RetryMode {
    ContinueSession,
    FreshSession,
}

impl RetryMode {
    /// The name on the wire.
    pub open spec fn name(self) -> Seq<char> {
        match self {
            RetryMode::ContinueSession => "continue_session"@,
            RetryMode::FreshSession => "fresh_session"@,
        }
    }

    /// The name on the wire.
    pub fn as_str(self) -> (r: &'static str)
        ensures
            r@ == self.name(),
    {
        match self {
            RetryMode::ContinueSession => "continue_session",
            RetryMode::FreshSession => "fresh_session",
        }
    }
}

/// How an agent run ended: the kind, and the whole report. It may hold what its user
/// keeps private, so it does not print.
pub struct Settlement {
    pub kind: String,
    pub body: Json,
}

/// How an agent run ended, as a value.
pub ghost struct SettlementView {
    pub kind: Seq<char>,
    pub body: JsonView,
}

impl View for Settlement {
    type V = SettlementView;

    open spec fn view(&self) -> SettlementView {
        SettlementView { kind: self.kind@, body: self.body@ }
    }
}

impl Settlement {
    /// The kind of the end.
    pub fn kind_str(&self) -> (r: &str)
        ensures
            r@ == self@.kind,
    {
        self.kind.as_str()
    }

    pub fn copy(&self) -> (r: Self)
        ensures
            r@ == self@,
    {
        Settlement { kind: self.kind.clone(), body: self.body.copy() }
    }
}

/// A handle together with the revision that its client saw last.
#[derive(Debug)]
pub struct VersionedHandle<H> {
    pub handle: H,
    pub revision: u64,
}

/// A handle together with a revision, as a value.
pub ghost struct VersionView {
    pub handle: Seq<char>,
    pub revision: u64,
}

impl<H: View<V = Seq<char>>> View for VersionedHandle<H> {
    type V = VersionView;

    open spec fn view(&self) -> VersionView {
        VersionView { handle: self.handle@, revision: self.revision }
    }
}

/// Handles with revisions, as values.
pub open spec fn versions<H: View<V = Seq<char>>>(v: Seq<VersionedHandle<H>>) -> Seq<VersionView> {
    v.map_values(|h: VersionedHandle<H>| h@)
}

/// Whether a handle is among those of a list.
pub open spec fn listed(v: Seq<VersionView>, handle: Seq<char>) -> bool {
    exists|i: int| 0 <= i < v.len() && (#[trigger] v[i]).handle == handle
}

/// Everything of a run that a command relies on. What it does not list it may not touch.
#[derive(Debug)]
pub struct WorkflowRunExpected {
    pub workflow_run_revision: u64,
    pub steps: Vec<VersionedHandle<StepHandle>>,
    pub agent_runs: Vec<VersionedHandle<AgentRunHandle>>,
    pub agent_sessions: Vec<VersionedHandle<AgentSessionHandle>>,
}

/// Everything of a run that a command relies on, as a value.
pub ghost struct RunExpectedView {
    pub workflow_run_revision: u64,
    pub steps: Seq<VersionView>,
    pub agent_runs: Seq<VersionView>,
    pub agent_sessions: Seq<VersionView>,
}

impl View for WorkflowRunExpected {
    type V = RunExpectedView;

    open spec fn view(&self) -> RunExpectedView {
        RunExpectedView {
            workflow_run_revision: self.workflow_run_revision,
            steps: versions(self.steps@),
            agent_runs: versions(self.agent_runs@),
            agent_sessions: versions(self.agent_sessions@),
        }
    }
}

impl WorkflowRunExpected {
    /// Only the run itself.
    pub fn only_run(workflow_run_revision: u64) -> (r: Self)
        ensures
            r@ == (RunExpectedView {
                workflow_run_revision,
                steps: seq![],
                agent_runs: seq![],
                agent_sessions: seq![],
            }),
    {
        let r: WorkflowRunExpected = WorkflowRunExpected {
            workflow_run_revision,
            steps: Vec::new(),
            agent_runs: Vec::new(),
            agent_sessions: Vec::new(),
        };
        assert(r@.steps =~= seq![]);
        assert(r@.agent_runs =~= seq![]);
        assert(r@.agent_sessions =~= seq![]);
        r
    }
}

/// A node of a workflow.
#[derive(Debug)]
pub struct WorkflowNodeDraft {
    pub key: String,
    pub title: String,
    pub instructions: String,
    pub agent_instance_id: String,
    pub deps: Vec<String>,
}

/// A node of a workflow, as a value.
pub ghost struct NodeView {
    pub key: Seq<char>,
    pub title: Seq<char>,
    pub instructions: Seq<char>,
    pub agent_instance_id: Seq<char>,
    pub deps: Seq<Seq<char>>,
}

impl View for WorkflowNodeDraft {
    type V = NodeView;

    open spec fn view(&self) -> NodeView {
        NodeView {
            key: self.key@,
            title: self.title@,
            instructions: self.instructions@,
            agent_instance_id: self.agent_instance_id@,
            deps: texts(self.deps@),
        }
    }
}

/// Nodes as values.
pub open spec fn nodes_view(v: Seq<WorkflowNodeDraft>) -> Seq<NodeView> {
    v.map_values(|n: WorkflowNodeDraft| n@)
}

impl WorkflowNodeDraft {
    pub fn copy(&self) -> (r: Self)
        ensures
            r@ == self@,
    {
        WorkflowNodeDraft {
            key: self.key.clone(),
            title: self.title.clone(),
            instructions: self.instructions.clone(),
            agent_instance_id: self.agent_instance_id.clone(),
            deps: copy_list(&self.deps),
        }
    }
}

/// Copies a list of nodes.
pub fn copy_nodes(v: &Vec<WorkflowNodeDraft>) -> (r: Vec<WorkflowNodeDraft>)
    ensures
        nodes_view(r@) == nodes_view(v@),
{
    let mut out: Vec<WorkflowNodeDraft> = Vec::new();
    let mut i: usize = 0;
    while i < v.len()
        invariant
            i <= v@.len(),
            nodes_view(out@) =~= nodes_view(v@).take(i as int),
        decreases v@.len() - i,
    {
        let ghost before = out@;
        out.push(v[i].copy());
        assert(nodes_view(out@) =~= nodes_view(before).push(v@[i as int]@));
        i = i + 1;
    }
    assert(nodes_view(v@).take(i as int) =~= nodes_view(v@));
    out
}

/// A workflow as its author writes it.
#[derive(Debug)]
pub struct ProjectWorkflowDraft {
    pub key: String,
    pub name: String,
    pub nodes: Vec<WorkflowNodeDraft>,
    pub allow_unsafe_parallel: bool,
}

/// A workflow as its author writes it, as a value.
pub ghost struct DraftView {
    pub key: Seq<char>,
    pub name: Seq<char>,
    pub nodes: Seq<NodeView>,
    pub allow_unsafe_parallel: bool,
}

impl View for ProjectWorkflowDraft {
    type V = DraftView;

    open spec fn view(&self) -> DraftView {
        DraftView {
            key: self.key@,
            name: self.name@,
            nodes: nodes_view(self.nodes@),
            allow_unsafe_parallel: self.allow_unsafe_parallel,
        }
    }
}

impl ProjectWorkflowDraft {
    pub fn copy(&self) -> (r: Self)
        ensures
            r@ == self@,
    {
        ProjectWorkflowDraft {
            key: self.key.clone(),
            name: self.name.clone(),
            nodes: copy_nodes(&self.nodes),
            allow_unsafe_parallel: self.allow_unsafe_parallel,
        }
    }
}

/// Texts as a JSON list.
pub open spec fn texts_json(v: Seq<Seq<char>>) -> JsonView {
    JsonView::Array(v.map_values(|t: Seq<char>| JsonView::Text(t)))
}

/// Texts as a JSON list.
pub fn texts_value(v: &Vec<String>) -> (r: Json)
    ensures
        r@ == texts_json(texts(v@)),
{
    let mut out: Vec<Json> = items();
    let ghost all = texts(v@).map_values(|t: Seq<char>| JsonView::Text(t));
    let mut i: usize = 0;
    assert(items_view(out@) =~= all.take(0));
    while i < v.len()
        invariant
            i <= v@.len(),
            all == texts(v@).map_values(|t: Seq<char>| JsonView::Text(t)),
            items_view(out@) == all.take(i as int),
        decreases v@.len() - i,
    {
        push_item(&mut out, txt(v[i].as_str()));
        assert(all.take(i + 1) =~= all.take(i as int).push(all[i as int]));
        i = i + 1;
    }
    assert(all.take(i as int) =~= all);
    array(out)
}

impl NodeView {
    /// The JSON form of a node.
    pub open spec fn json(self) -> JsonView {
        JsonView::Object(
            seq![
                ("key"@, JsonView::Text(self.key)),
                ("title"@, JsonView::Text(self.title)),
                ("instructions"@, JsonView::Text(self.instructions)),
                ("agent_instance_id"@, JsonView::Text(self.agent_instance_id)),
                ("deps"@, texts_json(self.deps)),
            ],
        )
    }
}

impl WorkflowNodeDraft {
    /// The JSON form of a node.
    pub fn to_json(&self) -> (r: Json)
        ensures
            r@ == self@.json(),
    {
        let mut f: Vec<(String, Json)> = fields();
        put(&mut f, "key", txt(self.key.as_str()));
        put(&mut f, "title", txt(self.title.as_str()));
        put(&mut f, "instructions", txt(self.instructions.as_str()));
        put(&mut f, "agent_instance_id", txt(self.agent_instance_id.as_str()));
        put(&mut f, "deps", texts_value(&self.deps));
        let out: Json = object(f);
        assert(out@->Object_0 =~= self@.json()->Object_0);
        out
    }
}

/// The JSON form of nodes.
pub open spec fn nodes_json(v: Seq<NodeView>) -> JsonView {
    JsonView::Array(v.map_values(|n: NodeView| n.json()))
}

/// The JSON form of nodes.
pub fn nodes_value(v: &Vec<WorkflowNodeDraft>) -> (r: Json)
    ensures
        r@ == nodes_json(nodes_view(v@)),
{
    let mut out: Vec<Json> = items();
    let ghost all = nodes_view(v@).map_values(|n: NodeView| n.json());
    let mut i: usize = 0;
    assert(items_view(out@) =~= all.take(0));
    while i < v.len()
        invariant
            i <= v@.len(),
            all == nodes_view(v@).map_values(|n: NodeView| n.json()),
            items_view(out@) == all.take(i as int),
        decreases v@.len() - i,
    {
        push_item(&mut out, v[i].to_json());
        assert(all.take(i + 1) =~= all.take(i as int).push(all[i as int]));
        i = i + 1;
    }
    assert(all.take(i as int) =~= all);
    array(out)
}

impl DraftView {
    /// The JSON form of a workflow.
    pub open spec fn json(self) -> JsonView {
        JsonView::Object(
            seq![
                ("key"@, JsonView::Text(self.key)),
                ("name"@, JsonView::Text(self.name)),
                ("nodes"@, nodes_json(self.nodes)),
                ("allow_unsafe_parallel"@, JsonView::Bool(self.allow_unsafe_parallel)),
            ],
        )
    }
}

impl ProjectWorkflowDraft {
    /// The JSON form of a workflow.
    pub fn to_json(&self) -> (r: Json)
        ensures
            r@ == self@.json(),
    {
        let mut f: Vec<(String, Json)> = fields();
        put(&mut f, "key", txt(self.key.as_str()));
        put(&mut f, "name", txt(self.name.as_str()));
        put(&mut f, "nodes", nodes_value(&self.nodes));
        put(&mut f, "allow_unsafe_parallel", Json::Bool(self.allow_unsafe_parallel));
        let out: Json = object(f);
        assert(out@->Object_0 =~= self@.json()->Object_0);
        out
    }
}

/// A change of a project's workflows.
#[derive(Debug)]
pub enum ProjectWorkflowCommand {
    Create {
        project: ProjectStoreHandle,
        draft: ProjectWorkflowDraft,
        expected_collection_revision: u64,
    },
    Delete {
        project: ProjectStoreHandle,
        workflow: WorkflowHandle,
        expected_collection_revision: u64,
        expected_semantic_revision: u64,
        expected_presentation_revision: u64,
    },
    AddNode {
        project: ProjectStoreHandle,
        workflow: WorkflowHandle,
        node: WorkflowNodeDraft,
        expected_semantic_revision: u64,
    },
    UpdateNode {
        project: ProjectStoreHandle,
        workflow: WorkflowHandle,
        node_handle: String,
        title: String,
        instructions: String,
        agent_instance_id: String,
        expected_semantic_revision: u64,
    },
    RemoveNode {
        project: ProjectStoreHandle,
        workflow: WorkflowHandle,
        node_handle: String,
        expected_semantic_revision: u64,
    },
    MoveNode {
        project: ProjectStoreHandle,
        workflow: WorkflowHandle,
        node_handle: String,
        x: Json,
        y: Json,
        expected_presentation_revision: u64,
    },
    Connect {
        project: ProjectStoreHandle,
        workflow: WorkflowHandle,
        upstream_node_handle: String,
        downstream_node_handle: String,
        expected_semantic_revision: u64,
    },
    Disconnect {
        project: ProjectStoreHandle,
        workflow: WorkflowHandle,
        edge_handle: String,
        expected_semantic_revision: u64,
    },
    SetViewport {
        project: ProjectStoreHandle,
        workflow: WorkflowHandle,
        viewport: Json,
        expected_presentation_revision: u64,
    },
    SetUnsafeParallel {
        project: ProjectStoreHandle,
        workflow: WorkflowHandle,
        allow: bool,
        expected_semantic_revision: u64,
    },
}

/// A change of a project's workflows, as a value.
pub ghost enum ProjectCommandView {
    Create {
        project: Seq<char>,
        draft: DraftView,
        expected_collection_revision: u64,
    },
    Delete {
        project: Seq<char>,
        workflow: Seq<char>,
        expected_collection_revision: u64,
        expected_semantic_revision: u64,
        expected_presentation_revision: u64,
    },
    AddNode {
        project: Seq<char>,
        workflow: Seq<char>,
        node: NodeView,
        expected_semantic_revision: u64,
    },
    UpdateNode {
        project: Seq<char>,
        workflow: Seq<char>,
        node_handle: Seq<char>,
        title: Seq<char>,
        instructions: Seq<char>,
        agent_instance_id: Seq<char>,
        expected_semantic_revision: u64,
    },
    RemoveNode {
        project: Seq<char>,
        workflow: Seq<char>,
        node_handle: Seq<char>,
        expected_semantic_revision: u64,
    },
    MoveNode {
        project: Seq<char>,
        workflow: Seq<char>,
        node_handle: Seq<char>,
        x: JsonView,
        y: JsonView,
        expected_presentation_revision: u64,
    },
    Connect {
        project: Seq<char>,
        workflow: Seq<char>,
        upstream_node_handle: Seq<char>,
        downstream_node_handle: Seq<char>,
        expected_semantic_revision: u64,
    },
    Disconnect {
        project: Seq<char>,
        workflow: Seq<char>,
        edge_handle: Seq<char>,
        expected_semantic_revision: u64,
    },
    SetViewport {
        project: Seq<char>,
        workflow: Seq<char>,
        viewport: JsonView,
        expected_presentation_revision: u64,
    },
    SetUnsafeParallel {
        project: Seq<char>,
        workflow: Seq<char>,
        allow: bool,
        expected_semantic_revision: u64,
    },
}

impl View for ProjectWorkflowCommand {
    type V = ProjectCommandView;

    open spec fn view(&self) -> ProjectCommandView {
        match *self {
            ProjectWorkflowCommand::Create {
                project,
                draft,
                expected_collection_revision,
            } => ProjectCommandView::Create {
                project: project@,
                draft: draft@,
                expected_collection_revision,
            },
            ProjectWorkflowCommand::Delete {
                project,
                workflow,
                expected_collection_revision,
                expected_semantic_revision,
                expected_presentation_revision,
            } => ProjectCommandView::Delete {
                project: project@,
                workflow: workflow@,
                expected_collection_revision,
                expected_semantic_revision,
                expected_presentation_revision,
            },
            ProjectWorkflowCommand::AddNode {
                project,
                workflow,
                node,
                expected_semantic_revision,
            } => ProjectCommandView::AddNode {
                project: project@,
                workflow: workflow@,
                node: node@,
                expected_semantic_revision,
            },
            ProjectWorkflowCommand::UpdateNode {
                project,
                workflow,
                node_handle,
                title,
                instructions,
                agent_instance_id,
                expected_semantic_revision,
            } => ProjectCommandView::UpdateNode {
                project: project@,
                workflow: workflow@,
                node_handle: node_handle@,
                title: title@,
                instructions: instructions@,
                agent_instance_id: agent_instance_id@,
                expected_semantic_revision,
            },
            ProjectWorkflowCommand::RemoveNode {
                project,
                workflow,
                node_handle,
                expected_semantic_revision,
            } => ProjectCommandView::RemoveNode {
                project: project@,
                workflow: workflow@,
                node_handle: node_handle@,
                expected_semantic_revision,
            },
            ProjectWorkflowCommand::MoveNode {
                project,
                workflow,
                node_handle,
                x,
                y,
                expected_presentation_revision,
            } => ProjectCommandView::MoveNode {
                project: project@,
                workflow: workflow@,
                node_handle: node_handle@,
                x: x@,
                y: y@,
                expected_presentation_revision,
            },
            ProjectWorkflowCommand::Connect {
                project,
                workflow,
                upstream_node_handle,
                downstream_node_handle,
                expected_semantic_revision,
            } => ProjectCommandView::Connect {
                project: project@,
                workflow: workflow@,
                upstream_node_handle: upstream_node_handle@,
                downstream_node_handle: downstream_node_handle@,
                expected_semantic_revision,
            },
            ProjectWorkflowCommand::Disconnect {
                project,
                workflow,
                edge_handle,
                expected_semantic_revision,
            } => ProjectCommandView::Disconnect {
                project: project@,
                workflow: workflow@,
                edge_handle: edge_handle@,
                expected_semantic_revision,
            },
            ProjectWorkflowCommand::SetViewport {
                project,
                workflow,
                viewport,
                expected_presentation_revision,
            } => ProjectCommandView::SetViewport {
                project: project@,
                workflow: workflow@,
                viewport: viewport@,
                expected_presentation_revision,
            },
            ProjectWorkflowCommand::SetUnsafeParallel {
                project,
                workflow,
                allow,
                expected_semantic_revision,
            } => ProjectCommandView::SetUnsafeParallel {
                project: project@,
                workflow: workflow@,
                allow,
                expected_semantic_revision,
            },
        }
    }
}

/// A command on a run of a workflow. It may hold what its user keeps private, so it does not print.
pub enum WorkflowRunCommand {
    Start {
        project: ProjectStoreHandle,
        workflow: WorkflowHandle,
        goal: String,
        expected_semantic_revision: u64,
    },
    Cancel {
        project: ProjectStoreHandle,
        workflow_run: WorkflowRunHandle,
        expected: WorkflowRunExpected,
    },
    RetryStep {
        project: ProjectStoreHandle,
        workflow_run: WorkflowRunHandle,
        step: StepHandle,
        mode: RetryMode,
        expected: WorkflowRunExpected,
    },
    SkipStep {
        project: ProjectStoreHandle,
        workflow_run: WorkflowRunHandle,
        step: StepHandle,
        expected: WorkflowRunExpected,
    },
    Respond {
        project: ProjectStoreHandle,
        workflow_run: WorkflowRunHandle,
        step: StepHandle,
        question_id: i64,
        answer: String,
        expected: WorkflowRunExpected,
    },
    Settle {
        project: ProjectStoreHandle,
        workflow_run: WorkflowRunHandle,
        step: StepHandle,
        agent_run: AgentRunHandle,
        settlement: Settlement,
        expected: WorkflowRunExpected,
    },
}

/// A command on a run of a workflow, as a value.
pub ghost enum RunCommandView {
    Start {
        project: Seq<char>,
        workflow: Seq<char>,
        goal: Seq<char>,
        expected_semantic_revision: u64,
    },
    Cancel {
        project: Seq<char>,
        workflow_run: Seq<char>,
        expected: RunExpectedView,
    },
    RetryStep {
        project: Seq<char>,
        workflow_run: Seq<char>,
        step: Seq<char>,
        mode: RetryMode,
        expected: RunExpectedView,
    },
    SkipStep {
        project: Seq<char>,
        workflow_run: Seq<char>,
        step: Seq<char>,
        expected: RunExpectedView,
    },
    Respond {
        project: Seq<char>,
        workflow_run: Seq<char>,
        step: Seq<char>,
        question_id: i64,
        answer: Seq<char>,
        expected: RunExpectedView,
    },
    Settle {
        project: Seq<char>,
        workflow_run: Seq<char>,
        step: Seq<char>,
        agent_run: Seq<char>,
        settlement: SettlementView,
        expected: RunExpectedView,
    },
}

impl View for WorkflowRunCommand {
    type V = RunCommandView;

    open spec fn view(&self) -> RunCommandView {
        match *self {
            WorkflowRunCommand::Start {
                project,
                workflow,
                goal,
                expected_semantic_revision,
            } => RunCommandView::Start {
                project: project@,
                workflow: workflow@,
                goal: goal@,
                expected_semantic_revision,
            },
            WorkflowRunCommand::Cancel {
                project,
                workflow_run,
                expected,
            } => RunCommandView::Cancel {
                project: project@,
                workflow_run: workflow_run@,
                expected: expected@,
            },
            WorkflowRunCommand::RetryStep {
                project,
                workflow_run,
                step,
                mode,
                expected,
            } => RunCommandView::RetryStep {
                project: project@,
                workflow_run: workflow_run@,
                step: step@,
                mode,
                expected: expected@,
            },
            WorkflowRunCommand::SkipStep {
                project,
                workflow_run,
                step,
                expected,
            } => RunCommandView::SkipStep {
                project: project@,
                workflow_run: workflow_run@,
                step: step@,
                expected: expected@,
            },
            WorkflowRunCommand::Respond {
                project,
                workflow_run,
                step,
                question_id,
                answer,
                expected,
            } => RunCommandView::Respond {
                project: project@,
                workflow_run: workflow_run@,
                step: step@,
                question_id,
                answer: answer@,
                expected: expected@,
            },
            WorkflowRunCommand::Settle {
                project,
                workflow_run,
                step,
                agent_run,
                settlement,
                expected,
            } => RunCommandView::Settle {
                project: project@,
                workflow_run: workflow_run@,
                step: step@,
                agent_run: agent_run@,
                settlement: settlement@,
                expected: expected@,
            },
        }
    }
}

/// One expected revision.
pub open spec fn expects(
    kind: AggregateKind,
    handle: Seq<char>,
    axis: Seq<char>,
    revision: u64,
) -> ExpectedView {
    ExpectedView {
        aggregate: AggregateView { kind, handle },
        revisions: seq![(axis, revision as nat)],
    }
}

fn expect_one(kind: AggregateKind, handle: &str, axis: &str, revision: u64) -> (r:
    ExpectedRevision)
    ensures
        r@ == expects(kind, handle@, axis@, revision),
{
    ExpectedRevision::one(AggregateRef { kind, handle: handle.to_owned() }, axis, revision)
}

impl ProjectCommandView {
    /// The type of the command.
    pub open spec fn command_type(self) -> CommandType {
        match self {
            ProjectCommandView::Create { .. } => CommandType::WorkflowCreate,
            ProjectCommandView::Delete { .. } => CommandType::WorkflowDelete,
            ProjectCommandView::AddNode { .. } => CommandType::WorkflowAddNode,
            ProjectCommandView::UpdateNode { .. } => CommandType::WorkflowUpdateNode,
            ProjectCommandView::RemoveNode { .. } => CommandType::WorkflowRemoveNode,
            ProjectCommandView::MoveNode { .. } => CommandType::WorkflowMoveNode,
            ProjectCommandView::Connect { .. } => CommandType::WorkflowConnect,
            ProjectCommandView::Disconnect { .. } => CommandType::WorkflowDisconnect,
            ProjectCommandView::SetViewport { .. } => CommandType::WorkflowSetViewport,
            ProjectCommandView::SetUnsafeParallel { .. } => CommandType::WorkflowSetUnsafeParallel,
        }
    }

    /// The project that it is for.
    pub open spec fn project(self) -> Seq<char> {
        match self {
            ProjectCommandView::Create { project, .. } => project,
            ProjectCommandView::Delete { project, .. } => project,
            ProjectCommandView::AddNode { project, .. } => project,
            ProjectCommandView::UpdateNode { project, .. } => project,
            ProjectCommandView::RemoveNode { project, .. } => project,
            ProjectCommandView::MoveNode { project, .. } => project,
            ProjectCommandView::Connect { project, .. } => project,
            ProjectCommandView::Disconnect { project, .. } => project,
            ProjectCommandView::SetViewport { project, .. } => project,
            ProjectCommandView::SetUnsafeParallel { project, .. } => project,
        }
    }

    /// The workflow that it acts on; creating one acts on none.
    pub open spec fn workflow(self) -> Option<Seq<char>> {
        match self {
            ProjectCommandView::Create { .. } => None,
            ProjectCommandView::Delete { workflow, .. } => Some(workflow),
            ProjectCommandView::AddNode { workflow, .. } => Some(workflow),
            ProjectCommandView::UpdateNode { workflow, .. } => Some(workflow),
            ProjectCommandView::RemoveNode { workflow, .. } => Some(workflow),
            ProjectCommandView::MoveNode { workflow, .. } => Some(workflow),
            ProjectCommandView::Connect { workflow, .. } => Some(workflow),
            ProjectCommandView::Disconnect { workflow, .. } => Some(workflow),
            ProjectCommandView::SetViewport { workflow, .. } => Some(workflow),
            ProjectCommandView::SetUnsafeParallel { workflow, .. } => Some(workflow),
        }
    }

    /// What it acts on: its workflow, or the project where there is none.
    pub open spec fn target(self) -> AggregateView {
        match self.workflow() {
            Some(handle) => AggregateView { kind: AggregateKind::ProjectWorkflow, handle },
            None => AggregateView { kind: AggregateKind::Project, handle: self.project() },
        }
    }

    /// The revisions that it starts from.
    pub open spec fn expected(self) -> Seq<ExpectedView> {
        match self {
            ProjectCommandView::Create { project, expected_collection_revision, .. } => seq![
                expects(
                    AggregateKind::Project,
                    project,
                    "workflow_collection_revision"@,
                    expected_collection_revision,
                ),
            ],
            ProjectCommandView::Delete {
                project,
                workflow,
                expected_collection_revision,
                expected_semantic_revision,
                expected_presentation_revision,
            } => seq![
                expects(
                    AggregateKind::Project,
                    project,
                    "workflow_collection_revision"@,
                    expected_collection_revision,
                ),
                ExpectedView {
                    aggregate: AggregateView {
                        kind: AggregateKind::ProjectWorkflow,
                        handle: workflow,
                    },
                    revisions: seq![
                        ("presentation_revision"@, expected_presentation_revision as nat),
                        ("semantic_revision"@, expected_semantic_revision as nat),
                    ],
                },
            ],
            ProjectCommandView::AddNode { workflow, expected_semantic_revision, .. } => seq![
                expects(
                    AggregateKind::ProjectWorkflow,
                    workflow,
                    "semantic_revision"@,
                    expected_semantic_revision,
                ),
            ],
            ProjectCommandView::UpdateNode { workflow, expected_semantic_revision, .. } => seq![
                expects(
                    AggregateKind::ProjectWorkflow,
                    workflow,
                    "semantic_revision"@,
                    expected_semantic_revision,
                ),
            ],
            ProjectCommandView::RemoveNode { workflow, expected_semantic_revision, .. } => seq![
                expects(
                    AggregateKind::ProjectWorkflow,
                    workflow,
                    "semantic_revision"@,
                    expected_semantic_revision,
                ),
            ],
            ProjectCommandView::MoveNode { workflow, expected_presentation_revision, .. } => seq![
                expects(
                    AggregateKind::ProjectWorkflow,
                    workflow,
                    "presentation_revision"@,
                    expected_presentation_revision,
                ),
            ],
            ProjectCommandView::Connect { workflow, expected_semantic_revision, .. } => seq![
                expects(
                    AggregateKind::ProjectWorkflow,
                    workflow,
                    "semantic_revision"@,
                    expected_semantic_revision,
                ),
            ],
            ProjectCommandView::Disconnect { workflow, expected_semantic_revision, .. } => seq![
                expects(
                    AggregateKind::ProjectWorkflow,
                    workflow,
                    "semantic_revision"@,
                    expected_semantic_revision,
                ),
            ],
            ProjectCommandView::SetViewport {
                workflow,
                expected_presentation_revision,
                ..
            } => seq![
                expects(
                    AggregateKind::ProjectWorkflow,
                    workflow,
                    "presentation_revision"@,
                    expected_presentation_revision,
                ),
            ],
            ProjectCommandView::SetUnsafeParallel {
                workflow,
                expected_semantic_revision,
                ..
            } => seq![
                expects(
                    AggregateKind::ProjectWorkflow,
                    workflow,
                    "semantic_revision"@,
                    expected_semantic_revision,
                ),
            ],
        }
    }

    /// What the command says, as JSON.
    pub open spec fn payload(self) -> JsonView {
        match self {
            ProjectCommandView::Create { draft, .. } => JsonView::Object(
                seq![
                    ("draft"@, draft.json()),
                ],
            ),
            ProjectCommandView::Delete { workflow, .. } => JsonView::Object(
                seq![
                    ("workflow"@, JsonView::Text(workflow)),
                ],
            ),
            ProjectCommandView::AddNode { workflow, node, .. } => JsonView::Object(
                seq![
                    ("workflow"@, JsonView::Text(workflow)),
                    ("node"@, node.json()),
                ],
            ),
            ProjectCommandView::UpdateNode {
                workflow,
                node_handle,
                title,
                instructions,
                agent_instance_id,
                ..
            } => JsonView::Object(
                seq![
                    ("workflow"@, JsonView::Text(workflow)),
                    ("node_handle"@, JsonView::Text(node_handle)),
                    ("title"@, JsonView::Text(title)),
                    ("instructions"@, JsonView::Text(instructions)),
                    ("agent_instance_id"@, JsonView::Text(agent_instance_id)),
                ],
            ),
            ProjectCommandView::RemoveNode { workflow, node_handle, .. } => JsonView::Object(
                seq![
                    ("workflow"@, JsonView::Text(workflow)),
                    ("node_handle"@, JsonView::Text(node_handle)),
                ],
            ),
            ProjectCommandView::MoveNode { workflow, node_handle, x, y, .. } => JsonView::Object(
                seq![
                    ("workflow"@, JsonView::Text(workflow)),
                    ("node_handle"@, JsonView::Text(node_handle)),
                    ("x"@, x),
                    ("y"@, y),
                ],
            ),
            ProjectCommandView::Connect {
                workflow,
                upstream_node_handle,
                downstream_node_handle,
                ..
            } => JsonView::Object(
                seq![
                    ("workflow"@, JsonView::Text(workflow)),
                    ("upstream_node_handle"@, JsonView::Text(upstream_node_handle)),
                    ("downstream_node_handle"@, JsonView::Text(downstream_node_handle)),
                ],
            ),
            ProjectCommandView::Disconnect { workflow, edge_handle, .. } => JsonView::Object(
                seq![
                    ("workflow"@, JsonView::Text(workflow)),
                    ("edge_handle"@, JsonView::Text(edge_handle)),
                ],
            ),
            ProjectCommandView::SetViewport { workflow, viewport, .. } => JsonView::Object(
                seq![
                    ("workflow"@, JsonView::Text(workflow)),
                    ("viewport"@, viewport),
                ],
            ),
            ProjectCommandView::SetUnsafeParallel { workflow, allow, .. } => JsonView::Object(
                seq![
                    ("workflow"@, JsonView::Text(workflow)),
                    ("allow"@, JsonView::Bool(allow)),
                ],
            ),
        }
    }
}

impl ProjectWorkflowCommand {
    /// The type of the command.
    pub fn command_type(&self) -> (r: CommandType)
        ensures
            r == self@.command_type(),
    {
        match self {
            ProjectWorkflowCommand::Create { .. } => CommandType::WorkflowCreate,
            ProjectWorkflowCommand::Delete { .. } => CommandType::WorkflowDelete,
            ProjectWorkflowCommand::AddNode { .. } => CommandType::WorkflowAddNode,
            ProjectWorkflowCommand::UpdateNode { .. } => CommandType::WorkflowUpdateNode,
            ProjectWorkflowCommand::RemoveNode { .. } => CommandType::WorkflowRemoveNode,
            ProjectWorkflowCommand::MoveNode { .. } => CommandType::WorkflowMoveNode,
            ProjectWorkflowCommand::Connect { .. } => CommandType::WorkflowConnect,
            ProjectWorkflowCommand::Disconnect { .. } => CommandType::WorkflowDisconnect,
            ProjectWorkflowCommand::SetViewport { .. } => CommandType::WorkflowSetViewport,
            ProjectWorkflowCommand::SetUnsafeParallel {
                ..
            } => CommandType::WorkflowSetUnsafeParallel,
        }
    }

    /// The project that it is for.
    pub fn project(&self) -> (r: &ProjectStoreHandle)
        ensures
            r@ == self@.project(),
    {
        match self {
            ProjectWorkflowCommand::Create { project, .. } => project,
            ProjectWorkflowCommand::Delete { project, .. } => project,
            ProjectWorkflowCommand::AddNode { project, .. } => project,
            ProjectWorkflowCommand::UpdateNode { project, .. } => project,
            ProjectWorkflowCommand::RemoveNode { project, .. } => project,
            ProjectWorkflowCommand::MoveNode { project, .. } => project,
            ProjectWorkflowCommand::Connect { project, .. } => project,
            ProjectWorkflowCommand::Disconnect { project, .. } => project,
            ProjectWorkflowCommand::SetViewport { project, .. } => project,
            ProjectWorkflowCommand::SetUnsafeParallel { project, .. } => project,
        }
    }

    /// The workflow that it acts on; creating one acts on none.
    pub fn workflow(&self) -> (r: Option<&WorkflowHandle>)
        ensures
            match r {
                Some(w) => self@.workflow() == Some(w@),
                None => self@.workflow() is None,
            },
    {
        match self {
            ProjectWorkflowCommand::Create { .. } => None,
            ProjectWorkflowCommand::Delete { workflow, .. } => Some(workflow),
            ProjectWorkflowCommand::AddNode { workflow, .. } => Some(workflow),
            ProjectWorkflowCommand::UpdateNode { workflow, .. } => Some(workflow),
            ProjectWorkflowCommand::RemoveNode { workflow, .. } => Some(workflow),
            ProjectWorkflowCommand::MoveNode { workflow, .. } => Some(workflow),
            ProjectWorkflowCommand::Connect { workflow, .. } => Some(workflow),
            ProjectWorkflowCommand::Disconnect { workflow, .. } => Some(workflow),
            ProjectWorkflowCommand::SetViewport { workflow, .. } => Some(workflow),
            ProjectWorkflowCommand::SetUnsafeParallel { workflow, .. } => Some(workflow),
        }
    }

    /// What it acts on: its workflow, or the project where there is none.
    pub fn target(&self) -> (r: AggregateRef)
        ensures
            r@ == self@.target(),
    {
        match self.workflow() {
            Some(w) => AggregateRef {
                kind: AggregateKind::ProjectWorkflow,
                handle: w.as_str().to_owned(),
            },
            None => AggregateRef {
                kind: AggregateKind::Project,
                handle: self.project().as_str().to_owned(),
            },
        }
    }

    /// The revisions that it starts from.
    pub fn expected_revisions(&self) -> (r: Vec<ExpectedRevision>)
        ensures
            expectations(r@) == self@.expected(),
    {
        let mut out: Vec<ExpectedRevision> = Vec::new();
        match self {
            ProjectWorkflowCommand::Create { project, expected_collection_revision, .. } => {
                out.push(
                    expect_one(
                        AggregateKind::Project,
                        project.as_str(),
                        "workflow_collection_revision",
                        *expected_collection_revision,
                    ),
                );
            },
            ProjectWorkflowCommand::Delete {
                project,
                workflow,
                expected_collection_revision,
                expected_semantic_revision,
                expected_presentation_revision,
            } => {
                out.push(
                    expect_one(
                        AggregateKind::Project,
                        project.as_str(),
                        "workflow_collection_revision",
                        *expected_collection_revision,
                    ),
                );
                proof {
                    reveal_strlit("presentation_revision");
                    reveal_strlit("semantic_revision");
                    assert("presentation_revision"@[0] == 'p');
                    assert("semantic_revision"@[0] == 's');
                }
                out.push(
                    ExpectedRevision::two(
                        AggregateRef {
                            kind: AggregateKind::ProjectWorkflow,
                            handle: workflow.as_str().to_owned(),
                        },
                        "presentation_revision",
                        *expected_presentation_revision,
                        "semantic_revision",
                        *expected_semantic_revision,
                    ),
                );
            },
            ProjectWorkflowCommand::AddNode { workflow, expected_semantic_revision, .. } => {
                out.push(
                    expect_one(
                        AggregateKind::ProjectWorkflow,
                        workflow.as_str(),
                        "semantic_revision",
                        *expected_semantic_revision,
                    ),
                );
            },
            ProjectWorkflowCommand::UpdateNode { workflow, expected_semantic_revision, .. } => {
                out.push(
                    expect_one(
                        AggregateKind::ProjectWorkflow,
                        workflow.as_str(),
                        "semantic_revision",
                        *expected_semantic_revision,
                    ),
                );
            },
            ProjectWorkflowCommand::RemoveNode { workflow, expected_semantic_revision, .. } => {
                out.push(
                    expect_one(
                        AggregateKind::ProjectWorkflow,
                        workflow.as_str(),
                        "semantic_revision",
                        *expected_semantic_revision,
                    ),
                );
            },
            ProjectWorkflowCommand::MoveNode { workflow, expected_presentation_revision, .. } => {
                out.push(
                    expect_one(
                        AggregateKind::ProjectWorkflow,
                        workflow.as_str(),
                        "presentation_revision",
                        *expected_presentation_revision,
                    ),
                );
            },
            ProjectWorkflowCommand::Connect { workflow, expected_semantic_revision, .. } => {
                out.push(
                    expect_one(
                        AggregateKind::ProjectWorkflow,
                        workflow.as_str(),
                        "semantic_revision",
                        *expected_semantic_revision,
                    ),
                );
            },
            ProjectWorkflowCommand::Disconnect { workflow, expected_semantic_revision, .. } => {
                out.push(
                    expect_one(
                        AggregateKind::ProjectWorkflow,
                        workflow.as_str(),
                        "semantic_revision",
                        *expected_semantic_revision,
                    ),
                );
            },
            ProjectWorkflowCommand::SetViewport {
                workflow,
                expected_presentation_revision,
                ..
            } => {
                out.push(
                    expect_one(
                        AggregateKind::ProjectWorkflow,
                        workflow.as_str(),
                        "presentation_revision",
                        *expected_presentation_revision,
                    ),
                );
            },
            ProjectWorkflowCommand::SetUnsafeParallel {
                workflow,
                expected_semantic_revision,
                ..
            } => {
                out.push(
                    expect_one(
                        AggregateKind::ProjectWorkflow,
                        workflow.as_str(),
                        "semantic_revision",
                        *expected_semantic_revision,
                    ),
                );
            },
        }
        assert(expectations(out@) =~= self@.expected());
        out
    }

    /// What the command says, as JSON.
    pub fn payload(&self) -> (r: Json)
        ensures
            r@ == self@.payload(),
    {
        let mut f: Vec<(String, Json)> = fields();
        match self {
            ProjectWorkflowCommand::Create { draft, .. } => {
                put(&mut f, "draft", draft.to_json());
            },
            ProjectWorkflowCommand::Delete { workflow, .. } => {
                put(&mut f, "workflow", txt(workflow.as_str()));
            },
            ProjectWorkflowCommand::AddNode { workflow, node, .. } => {
                put(&mut f, "workflow", txt(workflow.as_str()));
                put(&mut f, "node", node.to_json());
            },
            ProjectWorkflowCommand::UpdateNode {
                workflow,
                node_handle,
                title,
                instructions,
                agent_instance_id,
                ..
            } => {
                put(&mut f, "workflow", txt(workflow.as_str()));
                put(&mut f, "node_handle", txt(node_handle.as_str()));
                put(&mut f, "title", txt(title.as_str()));
                put(&mut f, "instructions", txt(instructions.as_str()));
                put(&mut f, "agent_instance_id", txt(agent_instance_id.as_str()));
            },
            ProjectWorkflowCommand::RemoveNode { workflow, node_handle, .. } => {
                put(&mut f, "workflow", txt(workflow.as_str()));
                put(&mut f, "node_handle", txt(node_handle.as_str()));
            },
            ProjectWorkflowCommand::MoveNode { workflow, node_handle, x, y, .. } => {
                put(&mut f, "workflow", txt(workflow.as_str()));
                put(&mut f, "node_handle", txt(node_handle.as_str()));
                put(&mut f, "x", x.copy());
                put(&mut f, "y", y.copy());
            },
            ProjectWorkflowCommand::Connect {
                workflow,
                upstream_node_handle,
                downstream_node_handle,
                ..
            } => {
                put(&mut f, "workflow", txt(workflow.as_str()));
                put(&mut f, "upstream_node_handle", txt(upstream_node_handle.as_str()));
                put(&mut f, "downstream_node_handle", txt(downstream_node_handle.as_str()));
            },
            ProjectWorkflowCommand::Disconnect { workflow, edge_handle, .. } => {
                put(&mut f, "workflow", txt(workflow.as_str()));
                put(&mut f, "edge_handle", txt(edge_handle.as_str()));
            },
            ProjectWorkflowCommand::SetViewport { workflow, viewport, .. } => {
                put(&mut f, "workflow", txt(workflow.as_str()));
                put(&mut f, "viewport", viewport.copy());
            },
            ProjectWorkflowCommand::SetUnsafeParallel { workflow, allow, .. } => {
                put(&mut f, "workflow", txt(workflow.as_str()));
                put(&mut f, "allow", Json::Bool(*allow));
            },
        }
        let out: Json = object(f);
        assert(out@->Object_0 =~= self@.payload()->Object_0);
        out
    }
}

/// One expected revision for each handle of a list.
pub open spec fn expects_each(kind: AggregateKind, v: Seq<VersionView>) -> Seq<ExpectedView> {
    v.map_values(|h: VersionView| expects(kind, h.handle, "revision"@, h.revision))
}

impl RunExpectedView {
    /// Everything that is expected of a run.
    pub open spec fn revisions(self, workflow_run: Seq<char>) -> Seq<ExpectedView> {
        seq![
            expects(
                AggregateKind::WorkflowRun,
                workflow_run,
                "revision"@,
                self.workflow_run_revision,
            ),
        ] + expects_each(AggregateKind::Step, self.steps) + expects_each(
            AggregateKind::AgentRun,
            self.agent_runs,
        ) + expects_each(AggregateKind::AgentSession, self.agent_sessions)
    }
}

impl RunCommandView {
    /// The type of the command.
    pub open spec fn command_type(self) -> CommandType {
        match self {
            RunCommandView::Start { .. } => CommandType::WorkflowRun,
            RunCommandView::Cancel { .. } => CommandType::WorkflowRunCancel,
            RunCommandView::RetryStep { .. } => CommandType::WorkflowRetryStep,
            RunCommandView::SkipStep { .. } => CommandType::WorkflowSkipStep,
            RunCommandView::Respond { .. } => CommandType::WorkflowRespond,
            RunCommandView::Settle { .. } => CommandType::WorkflowSettle,
        }
    }

    /// The project that it is for.
    pub open spec fn project(self) -> Seq<char> {
        match self {
            RunCommandView::Start { project, .. } => project,
            RunCommandView::Cancel { project, .. } => project,
            RunCommandView::RetryStep { project, .. } => project,
            RunCommandView::SkipStep { project, .. } => project,
            RunCommandView::Respond { project, .. } => project,
            RunCommandView::Settle { project, .. } => project,
        }
    }

    /// What it acts on.
    pub open spec fn target(self) -> AggregateView {
        match self {
            RunCommandView::Start { workflow, .. } => AggregateView {
                kind: AggregateKind::ProjectWorkflow,
                handle: workflow,
            },
            RunCommandView::Cancel { workflow_run, .. } => AggregateView {
                kind: AggregateKind::WorkflowRun,
                handle: workflow_run,
            },
            RunCommandView::RetryStep { step, .. } => AggregateView {
                kind: AggregateKind::Step,
                handle: step,
            },
            RunCommandView::SkipStep { step, .. } => AggregateView {
                kind: AggregateKind::Step,
                handle: step,
            },
            RunCommandView::Respond { step, .. } => AggregateView {
                kind: AggregateKind::Step,
                handle: step,
            },
            RunCommandView::Settle { agent_run, .. } => AggregateView {
                kind: AggregateKind::AgentRun,
                handle: agent_run,
            },
        }
    }

    /// The run that it is about; a start is about none yet.
    pub open spec fn run(self) -> Option<(Seq<char>, RunExpectedView)> {
        match self {
            RunCommandView::Start { .. } => None,
            RunCommandView::Cancel { workflow_run, expected, .. } => Some((workflow_run, expected)),
            RunCommandView::RetryStep {
                workflow_run,
                expected,
                ..
            } => Some((workflow_run, expected)),
            RunCommandView::SkipStep {
                workflow_run,
                expected,
                ..
            } => Some((workflow_run, expected)),
            RunCommandView::Respond {
                workflow_run,
                expected,
                ..
            } => Some((workflow_run, expected)),
            RunCommandView::Settle { workflow_run, expected, .. } => Some((workflow_run, expected)),
        }
    }

    /// The step that it is about, if it is about one.
    pub open spec fn step(self) -> Option<Seq<char>> {
        match self {
            RunCommandView::Start { .. } => None,
            RunCommandView::Cancel { .. } => None,
            RunCommandView::RetryStep { step, .. } => Some(step),
            RunCommandView::SkipStep { step, .. } => Some(step),
            RunCommandView::Respond { step, .. } => Some(step),
            RunCommandView::Settle { step, .. } => Some(step),
        }
    }

    /// The agent run that it is about, if it is about one.
    pub open spec fn agent_run(self) -> Option<Seq<char>> {
        match self {
            RunCommandView::Settle { agent_run, .. } => Some(agent_run),
            _ => None,
        }
    }

    /// The revisions that it starts from. What it acts on has to be among them.
    pub open spec fn expected(self) -> Result<Seq<ExpectedView>, KernelProblemView> {
        match self {
            RunCommandView::Start { workflow, expected_semantic_revision, .. } => Ok(
                seq![
                    expects(
                        AggregateKind::ProjectWorkflow,
                        workflow,
                        "semantic_revision"@,
                        expected_semantic_revision,
                    ),
                ],
            ),
            _ => {
                let (workflow_run, expected) = self.run()->0;
                if self.step() matches Some(step) && !listed(expected.steps, step) {
                    Err(KernelProblemView::InvalidEnvelope("expected 缺少目标 Step"@))
                } else if self.agent_run() matches Some(run) && !listed(expected.agent_runs, run) {
                    Err(KernelProblemView::InvalidEnvelope("expected 缺少目标 Agent Run"@))
                } else {
                    Ok(expected.revisions(workflow_run))
                }
            },
        }
    }

    /// What the command says, as JSON.
    pub open spec fn payload(self) -> JsonView {
        match self {
            RunCommandView::Start { workflow, goal, .. } => JsonView::Object(
                seq![
                    ("workflow"@, JsonView::Text(workflow)),
                    ("goal"@, JsonView::Text(trim_text(goal))),
                ],
            ),
            RunCommandView::Cancel { workflow_run, .. } => JsonView::Object(
                seq![
                    ("workflow_run"@, JsonView::Text(workflow_run)),
                ],
            ),
            RunCommandView::RetryStep { workflow_run, step, mode, .. } => JsonView::Object(
                seq![
                    ("workflow_run"@, JsonView::Text(workflow_run)),
                    ("step"@, JsonView::Text(step)),
                    ("mode"@, JsonView::Text(mode.name())),
                ],
            ),
            RunCommandView::SkipStep { workflow_run, step, .. } => JsonView::Object(
                seq![
                    ("workflow_run"@, JsonView::Text(workflow_run)),
                    ("step"@, JsonView::Text(step)),
                ],
            ),
            RunCommandView::Respond {
                workflow_run,
                step,
                question_id,
                answer,
                ..
            } => JsonView::Object(
                seq![
                    ("workflow_run"@, JsonView::Text(workflow_run)),
                    ("step"@, JsonView::Text(step)),
                    ("question_id"@, JsonView::Text(signed_text(question_id as int))),
                    ("answer"@, JsonView::Text(answer)),
                ],
            ),
            RunCommandView::Settle {
                workflow_run,
                step,
                agent_run,
                settlement,
                ..
            } => JsonView::Object(
                seq![
                    ("workflow_run"@, JsonView::Text(workflow_run)),
                    ("step"@, JsonView::Text(step)),
                    ("agent_run"@, JsonView::Text(agent_run)),
                    ("settlement"@, settlement.body),
                ],
            ),
        }
    }
}

fn lists_step(v: &Vec<VersionedHandle<StepHandle>>, handle: &StepHandle) -> (r: bool)
    ensures
        r == listed(versions(v@), handle@),
{
    let ghost all = versions(v@);
    let mut i: usize = 0;
    while i < v.len()
        invariant
            i <= v@.len(),
            all == versions(v@),
            forall|k: int| 0 <= k < i ==> (#[trigger] all[k]).handle != handle@,
        decreases v@.len() - i,
    {
        assert(all[i as int] == v@[i as int]@);
        if v[i].handle.same(handle) {
            assert(all[i as int].handle == handle@);
            return true;
        }
        i = i + 1;
    }
    false
}

fn lists_agent_run(v: &Vec<VersionedHandle<AgentRunHandle>>, handle: &AgentRunHandle) -> (r: bool)
    ensures
        r == listed(versions(v@), handle@),
{
    let ghost all = versions(v@);
    let mut i: usize = 0;
    while i < v.len()
        invariant
            i <= v@.len(),
            all == versions(v@),
            forall|k: int| 0 <= k < i ==> (#[trigger] all[k]).handle != handle@,
        decreases v@.len() - i,
    {
        assert(all[i as int] == v@[i as int]@);
        if v[i].handle.same(handle) {
            assert(all[i as int].handle == handle@);
            return true;
        }
        i = i + 1;
    }
    false
}

fn expect_steps(out: &mut Vec<ExpectedRevision>, v: &Vec<VersionedHandle<StepHandle>>)
    ensures
        expectations(final(out)@) == expectations(old(out)@) + expects_each(
            AggregateKind::Step,
            versions(v@),
        ),
{
    let ghost had = expectations(out@);
    let ghost all = expects_each(AggregateKind::Step, versions(v@));
    let mut i: usize = 0;
    assert(had =~= had + all.take(0));
    while i < v.len()
        invariant
            i <= v@.len(),
            all == expects_each(AggregateKind::Step, versions(v@)),
            expectations(out@) == had + all.take(i as int),
        decreases v@.len() - i,
    {
        let ghost before = out@;
        let e: ExpectedRevision = expect_one(
            AggregateKind::Step,
            v[i].handle.as_str(),
            "revision",
            v[i].revision,
        );
        assert(versions(v@)[i as int] == v@[i as int]@);
        out.push(e);
        assert(expectations(out@) =~= expectations(before).push(e@));
        assert(had + all.take(i + 1) =~= (had + all.take(i as int)).push(all[i as int]));
        i = i + 1;
    }
    assert(all.take(i as int) =~= all);
}

fn expect_agent_runs(out: &mut Vec<ExpectedRevision>, v: &Vec<VersionedHandle<AgentRunHandle>>)
    ensures
        expectations(final(out)@) == expectations(old(out)@) + expects_each(
            AggregateKind::AgentRun,
            versions(v@),
        ),
{
    let ghost had = expectations(out@);
    let ghost all = expects_each(AggregateKind::AgentRun, versions(v@));
    let mut i: usize = 0;
    assert(had =~= had + all.take(0));
    while i < v.len()
        invariant
            i <= v@.len(),
            all == expects_each(AggregateKind::AgentRun, versions(v@)),
            expectations(out@) == had + all.take(i as int),
        decreases v@.len() - i,
    {
        let ghost before = out@;
        let e: ExpectedRevision = expect_one(
            AggregateKind::AgentRun,
            v[i].handle.as_str(),
            "revision",
            v[i].revision,
        );
        assert(versions(v@)[i as int] == v@[i as int]@);
        out.push(e);
        assert(expectations(out@) =~= expectations(before).push(e@));
        assert(had + all.take(i + 1) =~= (had + all.take(i as int)).push(all[i as int]));
        i = i + 1;
    }
    assert(all.take(i as int) =~= all);
}

fn expect_agent_sessions(
    out: &mut Vec<ExpectedRevision>,
    v: &Vec<VersionedHandle<AgentSessionHandle>>,
)
    ensures
        expectations(final(out)@) == expectations(old(out)@) + expects_each(
            AggregateKind::AgentSession,
            versions(v@),
        ),
{
    let ghost had = expectations(out@);
    let ghost all = expects_each(AggregateKind::AgentSession, versions(v@));
    let mut i: usize = 0;
    assert(had =~= had + all.take(0));
    while i < v.len()
        invariant
            i <= v@.len(),
            all == expects_each(AggregateKind::AgentSession, versions(v@)),
            expectations(out@) == had + all.take(i as int),
        decreases v@.len() - i,
    {
        let ghost before = out@;
        let e: ExpectedRevision = expect_one(
            AggregateKind::AgentSession,
            v[i].handle.as_str(),
            "revision",
            v[i].revision,
        );
        assert(versions(v@)[i as int] == v@[i as int]@);
        out.push(e);
        assert(expectations(out@) =~= expectations(before).push(e@));
        assert(had + all.take(i + 1) =~= (had + all.take(i as int)).push(all[i as int]));
        i = i + 1;
    }
    assert(all.take(i as int) =~= all);
}

impl WorkflowRunExpected {
    /// Everything that is expected of a run.
    pub fn revisions(&self, workflow_run: &WorkflowRunHandle) -> (r: Vec<ExpectedRevision>)
        ensures
            expectations(r@) == self@.revisions(workflow_run@),
    {
        let mut out: Vec<ExpectedRevision> = Vec::new();
        let first: ExpectedRevision = expect_one(
            AggregateKind::WorkflowRun,
            workflow_run.as_str(),
            "revision",
            self.workflow_run_revision,
        );
        out.push(first);
        assert(expectations(out@) =~= seq![first@]);
        expect_steps(&mut out, &self.steps);
        expect_agent_runs(&mut out, &self.agent_runs);
        expect_agent_sessions(&mut out, &self.agent_sessions);
        out
    }
}

impl WorkflowRunCommand {
    /// The type of the command.
    pub fn command_type(&self) -> (r: CommandType)
        ensures
            r == self@.command_type(),
    {
        match self {
            WorkflowRunCommand::Start { .. } => CommandType::WorkflowRun,
            WorkflowRunCommand::Cancel { .. } => CommandType::WorkflowRunCancel,
            WorkflowRunCommand::RetryStep { .. } => CommandType::WorkflowRetryStep,
            WorkflowRunCommand::SkipStep { .. } => CommandType::WorkflowSkipStep,
            WorkflowRunCommand::Respond { .. } => CommandType::WorkflowRespond,
            WorkflowRunCommand::Settle { .. } => CommandType::WorkflowSettle,
        }
    }

    /// The project that it is for.
    pub fn project(&self) -> (r: &ProjectStoreHandle)
        ensures
            r@ == self@.project(),
    {
        match self {
            WorkflowRunCommand::Start { project, .. } => project,
            WorkflowRunCommand::Cancel { project, .. } => project,
            WorkflowRunCommand::RetryStep { project, .. } => project,
            WorkflowRunCommand::SkipStep { project, .. } => project,
            WorkflowRunCommand::Respond { project, .. } => project,
            WorkflowRunCommand::Settle { project, .. } => project,
        }
    }

    /// What it acts on.
    pub fn target(&self) -> (r: AggregateRef)
        ensures
            r@ == self@.target(),
    {
        match self {
            WorkflowRunCommand::Start { workflow, .. } => AggregateRef {
                kind: AggregateKind::ProjectWorkflow,
                handle: workflow.as_str().to_owned(),
            },
            WorkflowRunCommand::Cancel { workflow_run, .. } => AggregateRef {
                kind: AggregateKind::WorkflowRun,
                handle: workflow_run.as_str().to_owned(),
            },
            WorkflowRunCommand::RetryStep { step, .. } => AggregateRef {
                kind: AggregateKind::Step,
                handle: step.as_str().to_owned(),
            },
            WorkflowRunCommand::SkipStep { step, .. } => AggregateRef {
                kind: AggregateKind::Step,
                handle: step.as_str().to_owned(),
            },
            WorkflowRunCommand::Respond { step, .. } => AggregateRef {
                kind: AggregateKind::Step,
                handle: step.as_str().to_owned(),
            },
            WorkflowRunCommand::Settle { agent_run, .. } => AggregateRef {
                kind: AggregateKind::AgentRun,
                handle: agent_run.as_str().to_owned(),
            },
        }
    }

    /// The run that it is about; a start is about none yet.
    pub fn run(&self) -> (r: Option<(&WorkflowRunHandle, &WorkflowRunExpected)>)
        ensures
            match r {
                Some((run, expected)) => self@.run() == Some((run@, expected@)),
                None => self@.run() is None,
            },
    {
        match self {
            WorkflowRunCommand::Start { .. } => None,
            WorkflowRunCommand::Cancel {
                workflow_run,
                expected,
                ..
            } => Some((workflow_run, expected)),
            WorkflowRunCommand::RetryStep {
                workflow_run,
                expected,
                ..
            } => Some((workflow_run, expected)),
            WorkflowRunCommand::SkipStep {
                workflow_run,
                expected,
                ..
            } => Some((workflow_run, expected)),
            WorkflowRunCommand::Respond {
                workflow_run,
                expected,
                ..
            } => Some((workflow_run, expected)),
            WorkflowRunCommand::Settle {
                workflow_run,
                expected,
                ..
            } => Some((workflow_run, expected)),
        }
    }

    /// The step that it is about, if it is about one.
    pub fn step(&self) -> (r: Option<&StepHandle>)
        ensures
            match r {
                Some(step) => self@.step() == Some(step@),
                None => self@.step() is None,
            },
    {
        match self {
            WorkflowRunCommand::Start { .. } => None,
            WorkflowRunCommand::Cancel { .. } => None,
            WorkflowRunCommand::RetryStep { step, .. } => Some(step),
            WorkflowRunCommand::SkipStep { step, .. } => Some(step),
            WorkflowRunCommand::Respond { step, .. } => Some(step),
            WorkflowRunCommand::Settle { step, .. } => Some(step),
        }
    }

    /// The revisions that it starts from. What it acts on has to be among them.
    pub fn expected_revisions(&self) -> (r: Result<Vec<ExpectedRevision>, KernelProblem>)
        ensures
            match r {
                Ok(v) => self@.expected() == Ok::<Seq<ExpectedView>, KernelProblemView>(
                    expectations(v@),
                ),
                Err(p) => self@.expected() == Err::<Seq<ExpectedView>, KernelProblemView>(p@),
            },
    {
        match self {
            WorkflowRunCommand::Start { workflow, expected_semantic_revision, .. } => {
                let mut out: Vec<ExpectedRevision> = Vec::new();
                let first: ExpectedRevision = expect_one(
                    AggregateKind::ProjectWorkflow,
                    workflow.as_str(),
                    "semantic_revision",
                    *expected_semantic_revision,
                );
                out.push(first);
                assert(expectations(out@) =~= seq![first@]);
                Ok(out)
            },
            WorkflowRunCommand::Cancel { workflow_run, expected, .. } => Ok(
                expected.revisions(workflow_run),
            ),
            WorkflowRunCommand::RetryStep { workflow_run, step, expected, .. } => {
                if !lists_step(&expected.steps, step) {
                    return Err(KernelProblem::invalid("expected 缺少目标 Step"));
                }
                Ok(expected.revisions(workflow_run))
            },
            WorkflowRunCommand::SkipStep { workflow_run, step, expected, .. } => {
                if !lists_step(&expected.steps, step) {
                    return Err(KernelProblem::invalid("expected 缺少目标 Step"));
                }
                Ok(expected.revisions(workflow_run))
            },
            WorkflowRunCommand::Respond { workflow_run, step, expected, .. } => {
                if !lists_step(&expected.steps, step) {
                    return Err(KernelProblem::invalid("expected 缺少目标 Step"));
                }
                Ok(expected.revisions(workflow_run))
            },
            WorkflowRunCommand::Settle { workflow_run, step, agent_run, expected, .. } => {
                if !lists_step(&expected.steps, step) {
                    return Err(KernelProblem::invalid("expected 缺少目标 Step"));
                }
                if !lists_agent_run(&expected.agent_runs, agent_run) {
                    return Err(KernelProblem::invalid("expected 缺少目标 Agent Run"));
                }
                Ok(expected.revisions(workflow_run))
            },
        }
    }

    /// What the command says, as JSON.
    pub fn payload(&self) -> (r: Json)
        ensures
            r@ == self@.payload(),
    {
        let mut f: Vec<(String, Json)> = fields();
        match self {
            WorkflowRunCommand::Start { workflow, goal, .. } => {
                put(&mut f, "workflow", txt(workflow.as_str()));
                put(&mut f, "goal", txt(trim(goal.as_str()).as_str()));
            },
            WorkflowRunCommand::Cancel { workflow_run, .. } => {
                put(&mut f, "workflow_run", txt(workflow_run.as_str()));
            },
            WorkflowRunCommand::RetryStep { workflow_run, step, mode, .. } => {
                put(&mut f, "workflow_run", txt(workflow_run.as_str()));
                put(&mut f, "step", txt(step.as_str()));
                put(&mut f, "mode", txt(mode.as_str()));
            },
            WorkflowRunCommand::SkipStep { workflow_run, step, .. } => {
                put(&mut f, "workflow_run", txt(workflow_run.as_str()));
                put(&mut f, "step", txt(step.as_str()));
            },
            WorkflowRunCommand::Respond { workflow_run, step, question_id, answer, .. } => {
                put(&mut f, "workflow_run", txt(workflow_run.as_str()));
                put(&mut f, "step", txt(step.as_str()));
                put(&mut f, "question_id", txt(signed(*question_id).as_str()));
                put(&mut f, "answer", txt(answer.as_str()));
            },
            WorkflowRunCommand::Settle { workflow_run, step, agent_run, settlement, .. } => {
                put(&mut f, "workflow_run", txt(workflow_run.as_str()));
                put(&mut f, "step", txt(step.as_str()));
                put(&mut f, "agent_run", txt(agent_run.as_str()));
                put(&mut f, "settlement", settlement.body.copy());
            },
        }
        let out: Json = object(f);
        assert(out@->Object_0 =~= self@.payload()->Object_0);
        out
    }
}

/// A new name for a workflow.
#[derive(Debug)]
pub struct WorkflowRenameCommand {
    pub project: ProjectStoreHandle,
    pub workflow: WorkflowHandle,
    pub name: String,
    pub expected_presentation_revision: u64,
}

/// A new name for a workflow, as a value.
pub ghost struct RenameView {
    pub project: Seq<char>,
    pub workflow: Seq<char>,
    pub name: Seq<char>,
    pub expected_presentation_revision: u64,
}

impl View for WorkflowRenameCommand {
    type V = RenameView;

    open spec fn view(&self) -> RenameView {
        RenameView {
            project: self.project@,
            workflow: self.workflow@,
            name: self.name@,
            expected_presentation_revision: self.expected_presentation_revision,
        }
    }
}

/// A command of the kernel.
pub enum KernelCommand {
    WorkflowRename(WorkflowRenameCommand),
    ProjectWorkflow(ProjectWorkflowCommand),
    WorkflowRun(WorkflowRunCommand),
}

/// A command of the kernel, as a value.
pub ghost enum KernelCommandView {
    WorkflowRename(RenameView),
    ProjectWorkflow(ProjectCommandView),
    WorkflowRun(RunCommandView),
}

impl View for KernelCommand {
    type V = KernelCommandView;

    open spec fn view(&self) -> KernelCommandView {
        match *self {
            KernelCommand::WorkflowRename(c) => KernelCommandView::WorkflowRename(c@),
            KernelCommand::ProjectWorkflow(c) => KernelCommandView::ProjectWorkflow(c@),
            KernelCommand::WorkflowRun(c) => KernelCommandView::WorkflowRun(c@),
        }
    }
}

impl KernelCommandView {
    /// The type of a command.
    pub open spec fn command_type(self) -> CommandType {
        match self {
            KernelCommandView::WorkflowRename(_) => CommandType::WorkflowRename,
            KernelCommandView::ProjectWorkflow(c) => c.command_type(),
            KernelCommandView::WorkflowRun(c) => c.command_type(),
        }
    }
}

impl KernelCommand {
    /// A new name for a workflow.
    pub fn workflow_rename(
        project: ProjectStoreHandle,
        workflow: WorkflowHandle,
        name: &str,
        expected_presentation_revision: u64,
    ) -> (r: Self)
        ensures
            r@ == KernelCommandView::WorkflowRename(
                RenameView {
                    project: project@,
                    workflow: workflow@,
                    name: name@,
                    expected_presentation_revision,
                },
            ),
    {
        KernelCommand::WorkflowRename(
            WorkflowRenameCommand {
                project,
                workflow,
                name: name.to_owned(),
                expected_presentation_revision,
            },
        )
    }

    /// The type of a command.
    pub fn command_type(&self) -> (r: CommandType)
        ensures
            r == self@.command_type(),
    {
        match self {
            KernelCommand::WorkflowRename(_) => CommandType::WorkflowRename,
            KernelCommand::ProjectWorkflow(c) => c.command_type(),
            KernelCommand::WorkflowRun(c) => c.command_type(),
        }
    }
}

/// Who sends a command, under which lease.
pub struct KernelCommandRequest {
    command_id: CommandId,
    client_id: ClientId,
    principal: Principal,
    controller_epoch: u64,
    command: KernelCommand,
}

/// Who sends a command, as a value.
pub ghost struct RequestView {
    pub command_id: Seq<char>,
    pub client_id: Seq<char>,
    pub principal: Seq<char>,
    pub controller_epoch: u64,
    pub command: KernelCommandView,
}

impl View for KernelCommandRequest {
    type V = RequestView;

    closed spec fn view(&self) -> RequestView {
        RequestView {
            command_id: self.command_id@,
            client_id: self.client_id@,
            principal: self.principal@,
            controller_epoch: self.controller_epoch,
            command: self.command@,
        }
    }
}

impl KernelCommandRequest {
    /// A request from its parts.
    pub fn new(
        command_id: CommandId,
        client_id: ClientId,
        principal: Principal,
        controller_epoch: u64,
        command: KernelCommand,
    ) -> (r: Self)
        ensures
            r@ == (RequestView {
                command_id: command_id@,
                client_id: client_id@,
                principal: principal@,
                controller_epoch,
                command: command@,
            }),
    {
        KernelCommandRequest { command_id, client_id, principal, controller_epoch, command }
    }

    /// The id of the command.
    pub fn command_id(&self) -> (r: &CommandId)
        ensures
            r@ == self@.command_id,
    {
        &self.command_id
    }

    /// The client that sends it.
    pub fn client_id(&self) -> (r: &ClientId)
        ensures
            r@ == self@.client_id,
    {
        &self.client_id
    }

    /// The user it is sent for.
    pub fn principal(&self) -> (r: &Principal)
        ensures
            r@ == self@.principal,
    {
        &self.principal
    }

    /// The epoch of the lease.
    pub fn controller_epoch(&self) -> (r: u64)
        ensures
            r == self@.controller_epoch,
    {
        self.controller_epoch
    }

    /// The command.
    pub fn command(&self) -> (r: &KernelCommand)
        ensures
            r@ == self@.command,
    {
        &self.command
    }
}

/// What comes of a command.
#[derive(Debug)]
pub enum KernelOutcome {
    Accepted { operation_handle: OperationHandle },
    Applied { revisions: RevisionVector, replayed: bool },
    RunApplied { revision: u64, replayed: bool },
}

/// What comes of a command, as a value.
pub ghost enum KernelOutcomeView {
    Accepted { operation_handle: Seq<char> },
    Applied { revisions: RevisionVector, replayed: bool },
    RunApplied { revision: u64, replayed: bool },
}

impl View for KernelOutcome {
    type V = KernelOutcomeView;

    open spec fn view(&self) -> KernelOutcomeView {
        match *self {
            KernelOutcome::Accepted { operation_handle } => KernelOutcomeView::Accepted {
                operation_handle: operation_handle@,
            },
            KernelOutcome::Applied { revisions, replayed } => KernelOutcomeView::Applied {
                revisions,
                replayed,
            },
            KernelOutcome::RunApplied { revision, replayed } => KernelOutcomeView::RunApplied {
                revision,
                replayed,
            },
        }
    }
}

/// A command on a step that is taken relies on a revision of that step.
pub proof fn law_a_step_command_expects_its_step(c: RunCommandView)
    requires
        c.expected() is Ok,
    ensures
        c.step() matches Some(step) ==> exists|i: int|
            0 <= i < c.expected()->Ok_0.len() && (#[trigger] c.expected()->Ok_0[i]).aggregate == (
            AggregateView { kind: AggregateKind::Step, handle: step }),
{
    if c.step() is Some {
        let (run, expected) = c.run()->0;
        let step = c.step()->0;
        let k = choose|k: int| 0 <= k < expected.steps.len() && (#[trigger] expected.steps[k]).handle == step;
        let all = c.expected()->Ok_0;
        assert(all == expected.revisions(run));
        assert(c.expected()->Ok_0[1 + k] == expects(
            AggregateKind::Step,
            expected.steps[k].handle,
            "revision"@,
            expected.steps[k].revision,
        ));
    }
}

/// Handles with revisions, as they are kept.
pub open spec fn kept_versions(v: Seq<VersionView>) -> JsonView {
    JsonView::Array(v.map_values(|h: VersionView| kept_version(h)))
}

/// A handle with its revision, as it is kept.
pub open spec fn kept_version(h: VersionView) -> JsonView {
    JsonView::Object(
        seq![
            ("handle"@, JsonView::Text(h.handle)),
            ("revision"@, JsonView::Unsigned(h.revision as nat)),
        ],
    )
}

impl RunExpectedView {
    /// What a command on a run relies on, as it is kept while the command is under way.
    pub open spec fn kept(self, workflow_run: Seq<char>) -> JsonView {
        JsonView::Object(
            seq![
                ("workflow_run"@, JsonView::Text(workflow_run)),
                (
                    "workflow_run_revision"@,
                    JsonView::Unsigned(self.workflow_run_revision as nat),
                ),
                ("steps"@, kept_versions(self.steps)),
                ("agent_runs"@, kept_versions(self.agent_runs)),
                ("agent_sessions"@, kept_versions(self.agent_sessions)),
            ],
        )
    }
}

fn keep_version(handle: &str, revision: u64) -> (r: Json)
    ensures
        r@ == kept_version(VersionView { handle: handle@, revision }),
{
    let mut f: Vec<(String, Json)> = fields();
    put(&mut f, "handle", txt(handle));
    put(&mut f, "revision", Json::Unsigned(revision));
    let out: Json = object(f);
    assert(out@->Object_0 =~= kept_version(
        VersionView { handle: handle@, revision },
    )->Object_0);
    out
}

fn keep_steps(v: &Vec<VersionedHandle<StepHandle>>) -> (r: Json)
    ensures
        r@ == kept_versions(versions(v@)),
{
    let ghost all = versions(v@).map_values(|h: VersionView| kept_version(h));
    let mut out: Vec<Json> = items();
    let mut i: usize = 0;
    assert(items_view(out@) =~= all.take(0));
    while i < v.len()
        invariant
            i <= v@.len(),
            all == versions(v@).map_values(|h: VersionView| kept_version(h)),
            items_view(out@) == all.take(i as int),
        decreases v@.len() - i,
    {
        push_item(&mut out, keep_version(v[i].handle.as_str(), v[i].revision));
        assert(all[i as int] == kept_version(v@[i as int]@));
        assert(all.take(i + 1) =~= all.take(i as int).push(all[i as int]));
        i = i + 1;
    }
    assert(all.take(i as int) =~= all);
    array(out)
}

fn keep_agent_runs(v: &Vec<VersionedHandle<AgentRunHandle>>) -> (r: Json)
    ensures
        r@ == kept_versions(versions(v@)),
{
    let ghost all = versions(v@).map_values(|h: VersionView| kept_version(h));
    let mut out: Vec<Json> = items();
    let mut i: usize = 0;
    assert(items_view(out@) =~= all.take(0));
    while i < v.len()
        invariant
            i <= v@.len(),
            all == versions(v@).map_values(|h: VersionView| kept_version(h)),
            items_view(out@) == all.take(i as int),
        decreases v@.len() - i,
    {
        push_item(&mut out, keep_version(v[i].handle.as_str(), v[i].revision));
        assert(all[i as int] == kept_version(v@[i as int]@));
        assert(all.take(i + 1) =~= all.take(i as int).push(all[i as int]));
        i = i + 1;
    }
    assert(all.take(i as int) =~= all);
    array(out)
}

fn keep_sessions(v: &Vec<VersionedHandle<AgentSessionHandle>>) -> (r: Json)
    ensures
        r@ == kept_versions(versions(v@)),
{
    let ghost all = versions(v@).map_values(|h: VersionView| kept_version(h));
    let mut out: Vec<Json> = items();
    let mut i: usize = 0;
    assert(items_view(out@) =~= all.take(0));
    while i < v.len()
        invariant
            i <= v@.len(),
            all == versions(v@).map_values(|h: VersionView| kept_version(h)),
            items_view(out@) == all.take(i as int),
        decreases v@.len() - i,
    {
        push_item(&mut out, keep_version(v[i].handle.as_str(), v[i].revision));
        assert(all[i as int] == kept_version(v@[i as int]@));
        assert(all.take(i + 1) =~= all.take(i as int).push(all[i as int]));
        i = i + 1;
    }
    assert(all.take(i as int) =~= all);
    array(out)
}

impl WorkflowRunExpected {
    /// What a command on a run relies on, as it is kept while the command is under way.
    pub fn keep(&self, workflow_run: &WorkflowRunHandle) -> (r: Json)
        ensures
            r@ == self@.kept(workflow_run@),
    {
        let mut f: Vec<(String, Json)> = fields();
        put(&mut f, "workflow_run", txt(workflow_run.as_str()));
        put(&mut f, "workflow_run_revision", Json::Unsigned(self.workflow_run_revision));
        put(&mut f, "steps", keep_steps(&self.steps));
        put(&mut f, "agent_runs", keep_agent_runs(&self.agent_runs));
        put(&mut f, "agent_sessions", keep_sessions(&self.agent_sessions));
        let out: Json = object(f);
        assert(out@->Object_0 =~= self@.kept(workflow_run@)->Object_0);
        out
    }
}

impl RunCommandView {
    /// What may be printed of a command: everything but what its user wrote.
    pub open spec fn redacted(self) -> JsonView {
        match self {
            RunCommandView::Start { project, workflow, expected_semantic_revision, .. } => {
                JsonView::Object(
                    seq![
                        ("command"@, JsonView::Text("Start"@)),
                        ("project"@, JsonView::Text(project)),
                        ("workflow"@, JsonView::Text(workflow)),
                        ("goal"@, JsonView::Text("<redacted>"@)),
                        (
                            "expected_semantic_revision"@,
                            JsonView::Unsigned(expected_semantic_revision as nat),
                        ),
                    ],
                )
            },
            RunCommandView::Cancel { project, workflow_run, expected } => JsonView::Object(
                seq![
                    ("command"@, JsonView::Text("Cancel"@)),
                    ("project"@, JsonView::Text(project)),
                    ("expected"@, expected.kept(workflow_run)),
                ],
            ),
            RunCommandView::RetryStep { project, workflow_run, step, mode, expected } => {
                JsonView::Object(
                    seq![
                        ("command"@, JsonView::Text("RetryStep"@)),
                        ("project"@, JsonView::Text(project)),
                        ("step"@, JsonView::Text(step)),
                        ("mode"@, JsonView::Text(mode.name())),
                        ("expected"@, expected.kept(workflow_run)),
                    ],
                )
            },
            RunCommandView::SkipStep { project, workflow_run, step, expected } => JsonView::Object(
                seq![
                    ("command"@, JsonView::Text("SkipStep"@)),
                    ("project"@, JsonView::Text(project)),
                    ("step"@, JsonView::Text(step)),
                    ("expected"@, expected.kept(workflow_run)),
                ],
            ),
            RunCommandView::Respond { project, workflow_run, step, question_id, expected, .. } => {
                JsonView::Object(
                    seq![
                        ("command"@, JsonView::Text("Respond"@)),
                        ("project"@, JsonView::Text(project)),
                        ("step"@, JsonView::Text(step)),
                        ("question_id"@, JsonView::Text(signed_text(question_id as int))),
                        ("answer"@, JsonView::Text("<redacted>"@)),
                        ("expected"@, expected.kept(workflow_run)),
                    ],
                )
            },
            RunCommandView::Settle {
                project,
                workflow_run,
                step,
                agent_run,
                settlement,
                expected,
            } => JsonView::Object(
                seq![
                    ("command"@, JsonView::Text("Settle"@)),
                    ("project"@, JsonView::Text(project)),
                    ("step"@, JsonView::Text(step)),
                    ("agent_run"@, JsonView::Text(agent_run)),
                    ("settlement_kind"@, JsonView::Text(settlement.kind)),
                    ("settlement_payload"@, JsonView::Text("<redacted>"@)),
                    ("expected"@, expected.kept(workflow_run)),
                ],
            ),
        }
    }

    /// The command with other words of its user in it.
    pub open spec fn reworded(self, words: Seq<char>, report: JsonView) -> RunCommandView {
        match self {
            RunCommandView::Start { project, workflow, expected_semantic_revision, .. } => {
                RunCommandView::Start {
                    project,
                    workflow,
                    goal: words,
                    expected_semantic_revision,
                }
            },
            RunCommandView::Respond { project, workflow_run, step, question_id, expected, .. } => {
                RunCommandView::Respond {
                    project,
                    workflow_run,
                    step,
                    question_id,
                    answer: words,
                    expected,
                }
            },
            RunCommandView::Settle {
                project,
                workflow_run,
                step,
                agent_run,
                settlement,
                expected,
            } => RunCommandView::Settle {
                project,
                workflow_run,
                step,
                agent_run,
                settlement: SettlementView { body: report, ..settlement },
                expected,
            },
            other => other,
        }
    }
}

impl WorkflowRunCommand {
    /// What may be printed of a command. Goals, answers and reports may hold what their
    /// user keeps private, so none of them is in it.
    pub fn redacted(&self) -> (r: Json)
        ensures
            r@ == self@.redacted(),
    {
        let mut f: Vec<(String, Json)> = fields();
        match self {
            WorkflowRunCommand::Start { project, workflow, expected_semantic_revision, .. } => {
                put(&mut f, "command", txt("Start"));
                put(&mut f, "project", txt(project.as_str()));
                put(&mut f, "workflow", txt(workflow.as_str()));
                put(&mut f, "goal", txt("<redacted>"));
                put(
                    &mut f,
                    "expected_semantic_revision",
                    Json::Unsigned(*expected_semantic_revision),
                );
            },
            WorkflowRunCommand::Cancel { project, workflow_run, expected } => {
                put(&mut f, "command", txt("Cancel"));
                put(&mut f, "project", txt(project.as_str()));
                put(&mut f, "expected", expected.keep(workflow_run));
            },
            WorkflowRunCommand::RetryStep { project, workflow_run, step, mode, expected } => {
                put(&mut f, "command", txt("RetryStep"));
                put(&mut f, "project", txt(project.as_str()));
                put(&mut f, "step", txt(step.as_str()));
                put(&mut f, "mode", txt(mode.as_str()));
                put(&mut f, "expected", expected.keep(workflow_run));
            },
            WorkflowRunCommand::SkipStep { project, workflow_run, step, expected } => {
                put(&mut f, "command", txt("SkipStep"));
                put(&mut f, "project", txt(project.as_str()));
                put(&mut f, "step", txt(step.as_str()));
                put(&mut f, "expected", expected.keep(workflow_run));
            },
            WorkflowRunCommand::Respond {
                project,
                workflow_run,
                step,
                question_id,
                expected,
                ..
            } => {
                put(&mut f, "command", txt("Respond"));
                put(&mut f, "project", txt(project.as_str()));
                put(&mut f, "step", txt(step.as_str()));
                put(&mut f, "question_id", txt(signed(*question_id).as_str()));
                put(&mut f, "answer", txt("<redacted>"));
                put(&mut f, "expected", expected.keep(workflow_run));
            },
            WorkflowRunCommand::Settle {
                project,
                workflow_run,
                step,
                agent_run,
                settlement,
                expected,
            } => {
                put(&mut f, "command", txt("Settle"));
                put(&mut f, "project", txt(project.as_str()));
                put(&mut f, "step", txt(step.as_str()));
                put(&mut f, "agent_run", txt(agent_run.as_str()));
                put(&mut f, "settlement_kind", txt(settlement.kind_str()));
                put(&mut f, "settlement_payload", txt("<redacted>"));
                put(&mut f, "expected", expected.keep(workflow_run));
            },
        }
        let out: Json = object(f);
        assert(out@->Object_0 =~= self@.redacted()->Object_0);
        out
    }
}

/// What is printed of a command does not depend on what its user wrote.
pub proof fn law_private_words_are_not_printed(
    c: RunCommandView,
    words: Seq<char>,
    report: JsonView,
)
    ensures
        c.reworded(words, report).redacted() == c.redacted(),
{
}

} // verus!
