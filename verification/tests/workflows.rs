//! Changes of workflows: what a store is asked for, and what clients are told.

use mf_kernel::command::CommandProblem;
use mf_kernel::handles::{ProjectStoreHandle, WorkflowHandle};
use mf_kernel::json::Json;
use mf_kernel::project_rows::{ProjectRows, WorkflowRecord};
use mf_kernel::run_command::{ProjectWorkflowCommand, WorkflowNodeDraft};
use mf_kernel::workflow_effects::{
    finish_project_workflow, plan_project_workflow, revision_vector_of, run_domain_problem,
    workflow_domain_problem, workflow_rename_effect, workflow_snapshot, EdgeIdentity,
    NodeIdentity, NodePosition, StoreRefusal, WorkflowFault, WorkflowMutationResult,
    WorkflowPresentation,
};

fn node(key: &str, deps: &[&str]) -> WorkflowNodeDraft {
    WorkflowNodeDraft {
        key: key.to_string(),
        title: format!("{key} title"),
        instructions: "do".to_string(),
        agent_instance_id: "agent".to_string(),
        deps: deps.iter().map(|d| d.to_string()).collect(),
    }
}

struct World {
    project: ProjectStoreHandle,
    workflow: WorkflowHandle,
    rows: ProjectRows,
    nodes: Vec<NodeIdentity>,
    edges: Vec<EdgeIdentity>,
}

fn record(handle: &str, nodes: Vec<WorkflowNodeDraft>, semantic: i64) -> WorkflowRecord {
    WorkflowRecord {
        public_handle: handle.to_string(),
        key: "build".to_string(),
        name: "Build".to_string(),
        nodes,
        allow_unsafe_parallel: false,
        semantic_revision: semantic,
        presentation_revision: 1,
    }
}

fn world() -> World {
    let workflow = WorkflowHandle::parse(&uuid::Uuid::now_v7().to_string()).unwrap();
    World {
        rows: ProjectRows {
            collection_revision: 2,
            workflows: vec![record(
                workflow.as_str(),
                vec![node("a", &[]), node("b", &["a"])],
                1,
            )],
            tasks: Vec::new(),
            steps: Vec::new(),
            agent_runs: Vec::new(),
            sessions: Vec::new(),
            questions: Vec::new(),
            fences: Vec::new(),
        },
        project: ProjectStoreHandle::generate(),
        workflow,
        nodes: vec![
            NodeIdentity {
                node_key: "a".to_string(),
                node_handle: "na".to_string(),
            },
            NodeIdentity {
                node_key: "b".to_string(),
                node_handle: "nb".to_string(),
            },
        ],
        edges: vec![EdgeIdentity {
            edge_handle: "e1".to_string(),
            upstream_node_key: "a".to_string(),
            downstream_node_key: "b".to_string(),
        }],
    }
}

#[test]
fn removing_a_node_leaves_no_trace_of_it() {
    let w = world();
    let command = ProjectWorkflowCommand::RemoveNode {
        project: w.project.clone(),
        workflow: w.workflow.clone(),
        node_handle: "na".to_string(),
        expected_semantic_revision: 1,
    };
    let plan = plan_project_workflow(&w.rows, &w.nodes, &w.edges, &command).unwrap();
    assert_eq!(plan.delta_type, "workflow.remove_node");
    let after = record(w.workflow.as_str(), vec![node("b", &[])], 2);
    let before = record(w.workflow.as_str(), vec![node("a", &[]), node("b", &["a"])], 1);
    let output = finish_project_workflow(
        w.project.as_str(),
        &command,
        plan,
        &WorkflowMutationResult {
            before: Some(before),
            after: Some(after),
            collection_revision: 2,
            no_op: false,
        },
        &w.nodes,
        &w.edges,
    )
    .unwrap();
    assert_eq!(output.projections.len(), 1);
    let revisions = revision_vector_of(&output.result_revisions).unwrap();
    assert_eq!(revisions.semantic_revision, 2);
    assert_eq!(revisions.presentation_revision, 1);
}

#[test]
fn what_is_not_there_cannot_be_changed() {
    let w = world();
    let command = ProjectWorkflowCommand::RemoveNode {
        project: w.project.clone(),
        workflow: w.workflow.clone(),
        node_handle: "nowhere".to_string(),
        expected_semantic_revision: 1,
    };
    assert!(plan_project_workflow(&w.rows, &w.nodes, &w.edges, &command).is_err());
    let command = ProjectWorkflowCommand::Disconnect {
        project: w.project.clone(),
        workflow: w.workflow.clone(),
        edge_handle: "nowhere".to_string(),
        expected_semantic_revision: 1,
    };
    assert!(plan_project_workflow(&w.rows, &w.nodes, &w.edges, &command).is_err());
}

#[test]
fn a_rename_says_what_it_moved() {
    let w = world();
    let (output, changed) = workflow_rename_effect(&w.rows, w.workflow.as_str(), "New").unwrap();
    assert_eq!(changed.unwrap().presentation_revision, 2);
    assert_eq!(output.projections.len(), 1);
    let (same, nothing) = workflow_rename_effect(&w.rows, w.workflow.as_str(), "Build").unwrap();
    assert!(nothing.is_none());
    assert!(same.projections.is_empty());
    assert!(matches!(
        workflow_rename_effect(&w.rows, "other", "x"),
        Err(CommandProblem::ResourceNotFound)
    ));
}

#[test]
fn a_workflow_is_shown_with_its_handles() {
    let w = world();
    let shown = workflow_snapshot(
        Some(&w.rows.workflows[0]),
        &w.nodes,
        &w.edges,
        &vec![NodePosition {
            node_handle: "na".to_string(),
            x: Json::Float("1.5".to_string()),
            y: Json::Unsigned(2),
        }],
        2,
        WorkflowPresentation {
            viewport: None,
            collapse: None,
            layout: None,
        },
    )
    .unwrap();
    assert_eq!(shown.name, "Build");
    assert_eq!(shown.nodes.len(), 2);
    assert_eq!(shown.nodes[0].handle, "na");
    assert!(shown.nodes[0].position.is_some());
    assert!(shown.nodes[1].position.is_none());
    assert_eq!(shown.edges.len(), 1);
    assert_eq!(shown.edges[0].upstream_node_handle, "na");
    assert_eq!(shown.edges[0].downstream_node_handle, "nb");
    assert_eq!(shown.workflow_collection_revision, 2);
    assert!(workflow_snapshot(
        None,
        &w.nodes,
        &w.edges,
        &vec![],
        2,
        WorkflowPresentation {
            viewport: None,
            collapse: None,
            layout: None,
        },
    )
    .is_err());
}

#[test]
fn refusals_of_a_store_are_told_apart() {
    assert!(matches!(
        workflow_domain_problem(StoreRefusal::RevisionConflict),
        CommandProblem::RevisionConflict
    ));
    assert!(matches!(
        workflow_domain_problem(StoreRefusal::InvalidWorkflow {
            faults: vec![WorkflowFault::Cycle],
            message: "m".to_string()
        }),
        CommandProblem::WorkflowCycle(_)
    ));
    assert!(matches!(
        workflow_domain_problem(StoreRefusal::InvalidWorkflow {
            faults: vec![WorkflowFault::UnknownDependency],
            message: "m".to_string()
        }),
        CommandProblem::UnknownDependency(_)
    ));
    assert!(matches!(
        run_domain_problem(true, "m".to_string()),
        CommandProblem::RevisionConflict
    ));
    assert!(!matches!(
        run_domain_problem(false, "m".to_string()),
        CommandProblem::RevisionConflict
    ));
    assert!(revision_vector_of(&Json::Null).is_err());
}

#[test]
fn a_blank_handle_is_not_told() {
    let w = world();
    let command = ProjectWorkflowCommand::RemoveNode {
        project: w.project.clone(),
        workflow: w.workflow.clone(),
        node_handle: "na".to_string(),
        expected_semantic_revision: 1,
    };
    for no_op in [false, true] {
        let plan = plan_project_workflow(&w.rows, &w.nodes, &w.edges, &command).unwrap();
        let output = finish_project_workflow(
            w.project.as_str(),
            &command,
            plan,
            &WorkflowMutationResult {
                before: Some(record(" ", vec![node("a", &[])], 1)),
                after: Some(record(" ", vec![], 2)),
                collection_revision: 2,
                no_op,
            },
            &w.nodes,
            &w.edges,
        );
        assert_eq!(
            matches!(output, Err(CommandProblem::Internal(m)) if m == "aggregate handle 不能为空"),
            !no_op
        );
    }
}
