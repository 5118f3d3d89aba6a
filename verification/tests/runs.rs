//! Runs of workflows: what a command on one relies on, and how it is answered.

use mf_kernel::handles::{
    AgentRunHandle, AgentSessionHandle, AggregateKind, AggregateRef, ClientId, CommandId,
    ExpectedRevision, Principal, ProjectStoreHandle, StepHandle, WorkflowRunHandle,
};
use mf_kernel::json::{canonical_json, to_text, Json};
use mf_kernel::legacy_client::{
    expect_for_answer, expect_for_cancel, expect_for_retry, LegacyKernelClient,
};
use mf_kernel::problem::KernelProblem;
use mf_kernel::project_rows::{AgentRunRow, ProjectRows, SessionRow, StepRow, TaskRow};
use mf_kernel::run_command::{
    KernelCommand, RetryMode, Settlement, WorkflowRunCommand, WorkflowRunExpected,
};
use mf_kernel::run_dispatch::{
    drive_cancel_targets, recover_cancel, thaw_cancel, CancelFenceTargetState, FencedTarget,
};
use mf_kernel::run_effects::RunStopOutcome;
use mf_kernel::run_scope::validate_workflow_run_scope;
use mf_kernel::snapshot::{
    AgentRunSnapshot, AgentSessionSnapshot, OpenQuestionSnapshot, WorkflowRunSnapshotData,
    WorkflowRunStepSnapshot,
};

fn v7() -> String {
    uuid::Uuid::now_v7().to_string()
}

struct Run {
    project: ProjectStoreHandle,
    run: WorkflowRunHandle,
    done: StepHandle,
    open: StepHandle,
    agent: AgentRunHandle,
    session: AgentSessionHandle,
}

fn run() -> Run {
    Run {
        project: ProjectStoreHandle::generate(),
        run: WorkflowRunHandle::parse(&v7()).unwrap(),
        done: StepHandle::parse(&v7()).unwrap(),
        open: StepHandle::parse(&v7()).unwrap(),
        agent: AgentRunHandle::parse(&v7()).unwrap(),
        session: AgentSessionHandle::parse(&v7()).unwrap(),
    }
}

fn shown(r: &Run) -> WorkflowRunSnapshotData {
    WorkflowRunSnapshotData {
        workflow_run: r.run.clone(),
        revision: 4,
        steps: vec![
            WorkflowRunStepSnapshot {
                step: r.done.clone(),
                status: "succeeded".to_string(),
                revision: 2,
            },
            WorkflowRunStepSnapshot {
                step: r.open.clone(),
                status: "running".to_string(),
                revision: 3,
            },
        ],
        agent_runs: vec![AgentRunSnapshot {
            agent_run: r.agent.clone(),
            step: r.open.clone(),
            agent_session: Some(r.session.clone()),
            status: "running".to_string(),
            revision: 5,
        }],
        agent_sessions: vec![AgentSessionSnapshot {
            agent_session: r.session.clone(),
            status: "running".to_string(),
            revision: 6,
        }],
        open_questions: vec![OpenQuestionSnapshot {
            question_id: 11,
            step: Some(r.open.clone()),
            agent_run: Some(r.agent.clone()),
        }],
    }
}

fn rows(r: &Run) -> ProjectRows {
    let step = |id: i64, handle: &StepHandle, status: &str, revision: i64| StepRow {
        id,
        public_handle: handle.as_str().to_string(),
        revision,
        task_id: 1,
        revision_id: 1,
        step_key: format!("s{id}"),
        title: "t".to_string(),
        status: status.to_string(),
        attempts: Json::Unsigned(0),
        auto_retry: Json::Null,
        result: Json::Null,
        dependencies: Vec::new(),
    };
    ProjectRows {
        collection_revision: 1,
        workflows: Vec::new(),
        tasks: vec![TaskRow {
            id: 1,
            public_handle: r.run.as_str().to_string(),
            revision: 4,
            active_revision: Some(1),
            title: "t".to_string(),
            goal: "g".to_string(),
            status: "running".to_string(),
            paused: Json::Bool(false),
            unread: Json::Bool(false),
        }],
        steps: vec![step(1, &r.done, "succeeded", 2), step(2, &r.open, "running", 3)],
        agent_runs: vec![AgentRunRow {
            id: 1,
            public_handle: r.agent.as_str().to_string(),
            revision: 5,
            task_id: 1,
            step_id: 2,
            session_id: Some(1),
            status: "running".to_string(),
            agent_state: Json::Null,
            outcome: None,
            outcome_payload: Json::Null,
            started_at: Json::Null,
            ended_at: Json::Null,
            capability_token: "token".to_string(),
        }],
        sessions: vec![SessionRow {
            id: 1,
            public_handle: r.session.as_str().to_string(),
            revision: 6,
            runtime: Json::Null,
            title: "s".to_string(),
            status: "running".to_string(),
            unread: Json::Bool(false),
        }],
        questions: Vec::new(),
        fences: Vec::new(),
    }
}

fn client() -> LegacyKernelClient {
    LegacyKernelClient::new(
        Principal::parse("user").unwrap(),
        ClientId::parse("cl_a").unwrap(),
        3,
    )
}

#[test]
fn a_cancellation_lists_everything_that_is_active() {
    let r = run();
    let e = expect_for_cancel(&shown(&r));
    assert_eq!(e.workflow_run_revision, 4);
    assert_eq!(e.steps.len(), 1);
    assert_eq!(e.steps[0].handle.as_str(), r.open.as_str());
    assert_eq!(e.steps[0].revision, 3);
    assert_eq!(e.agent_runs.len(), 1);
    assert_eq!(e.agent_runs[0].revision, 5);
    assert_eq!(e.agent_sessions.len(), 1);
    assert_eq!(e.agent_sessions[0].revision, 6);
    let command = WorkflowRunCommand::Cancel {
        project: r.project.clone(),
        workflow_run: r.run.clone(),
        expected: e,
    };
    validate_workflow_run_scope(&rows(&r), &command).unwrap();
}

#[test]
fn a_cancellation_that_misses_a_run_is_out_of_scope() {
    let r = run();
    let mut e = expect_for_cancel(&shown(&r));
    e.agent_runs.clear();
    let command = WorkflowRunCommand::Cancel {
        project: r.project.clone(),
        workflow_run: r.run.clone(),
        expected: e,
    };
    assert!(validate_workflow_run_scope(&rows(&r), &command).is_err());
}

#[test]
fn a_retry_continues_a_session_that_is_there() {
    let r = run();
    let mut data = shown(&r);
    data.agent_runs[0].status = "succeeded".to_string();
    let fresh = expect_for_retry(&data, &r.open, RetryMode::FreshSession).unwrap();
    assert!(fresh.agent_sessions.is_empty());
    let on = expect_for_retry(&data, &r.open, RetryMode::ContinueSession).unwrap();
    assert_eq!(on.agent_sessions.len(), 1);
    data.agent_sessions[0].status = "dead".to_string();
    assert!(matches!(
        expect_for_retry(&data, &r.open, RetryMode::ContinueSession),
        Err(KernelProblem::ValidationFailed(m)) if m == "目标 Step 的 Agent Session 已不可继续"
    ));
    assert!(matches!(
        expect_for_retry(&data, &r.done, RetryMode::ContinueSession),
        Err(KernelProblem::ValidationFailed(m)) if m == "目标 Step 没有可继续的 Agent Session"
    ));
    let elsewhere = StepHandle::parse(&v7()).unwrap();
    assert!(matches!(
        expect_for_retry(&data, &elsewhere, RetryMode::FreshSession),
        Err(KernelProblem::ResourceNotFound)
    ));
}

#[test]
fn an_answer_needs_exactly_one_question() {
    let r = run();
    let mut data = shown(&r);
    let (id, e) = expect_for_answer(&data, &r.open).unwrap();
    assert_eq!(id, 11);
    assert_eq!(e.agent_runs.len(), 1);
    data.open_questions.push(OpenQuestionSnapshot {
        question_id: 12,
        step: Some(r.open.clone()),
        agent_run: None,
    });
    assert!(matches!(
        expect_for_answer(&data, &r.open),
        Err(KernelProblem::InvalidEnvelope(_))
    ));
}

#[test]
fn the_client_asks_under_its_own_name() {
    let r = run();
    let data = shown(&r);
    let mut c = client();
    c.set_controller_epoch(8);
    let request = c
        .settle_agent_run(
            &r.project,
            &r.run,
            &r.agent,
            Settlement {
                kind: "succeeded".to_string(),
                body: Json::Text("private words".to_string()),
            },
            &data,
        )
        .unwrap();
    assert_eq!(request.controller_epoch(), 8);
    assert_eq!(request.client_id().as_str(), "cl_a");
    match request.command() {
        KernelCommand::WorkflowRun(command) => {
            let printed = to_text(&command.redacted());
            assert!(printed.contains("<redacted>"));
            assert!(!printed.contains("private words"));
            assert!(canonical_json(&command.payload()).contains("private words"));
        }
        _ => panic!("a command on a run was asked for"),
    }
    assert!(c.skip_workflow_step(&r.project, &r.run, &r.open, &data).is_ok());
    assert!(c
        .respond_to_workflow_step(&r.project, &r.run, &r.open, "yes", &data)
        .is_ok());
    let gone = AgentRunHandle::parse(&v7()).unwrap();
    assert!(matches!(
        c.settle_agent_run(
            &r.project,
            &r.run,
            &gone,
            Settlement {
                kind: "succeeded".to_string(),
                body: Json::Null
            },
            &data
        ),
        Err(KernelProblem::ResourceNotFound)
    ));
}

#[test]
fn a_kept_cancellation_comes_back_as_it_was() {
    let r = run();
    let e = expect_for_cancel(&shown(&r));
    let kept = e.keep(&r.run);
    let id = CommandId::new();
    let (back, command) = thaw_cancel(&r.project, id.as_str(), &kept).unwrap();
    assert!(back.same(&id));
    match &command {
        WorkflowRunCommand::Cancel {
            workflow_run,
            expected,
            ..
        } => {
            assert!(workflow_run.same(&r.run));
            assert_eq!(canonical_json(&expected.keep(&r.run)), canonical_json(&kept));
        }
        _ => panic!("a cancellation was kept"),
    }
    let envelope = recover_cancel(back, &command).unwrap();
    assert_eq!(envelope.client_id().as_str(), "cancel-recovery");
    assert_eq!(envelope.principal().as_str(), "core-recovery");
    assert!(matches!(
        thaw_cancel(&r.project, id.as_str(), &Json::Null),
        Err(KernelProblem::Internal(m)) if m == "cancel fence 损坏"
    ));
    assert!(matches!(
        thaw_cancel(&r.project, "no id", &kept),
        Err(KernelProblem::Internal(_))
    ));
}

#[test]
fn stops_are_claimed_answered_and_recorded() {
    let target = |state: CancelFenceTargetState| FencedTarget {
        run_id: 1,
        run_handle: AgentRunHandle::parse(&v7()).unwrap(),
        state,
    };
    let targets = vec![
        target(CancelFenceTargetState::Confirmed),
        target(CancelFenceTargetState::Stopping),
        target(CancelFenceTargetState::Pending),
        target(CancelFenceTargetState::Unconfirmed),
    ];
    let stops = drive_cancel_targets(
        &targets,
        &|_id| Ok(true),
        &|_handle| Some(RunStopOutcome::Confirmed),
        &|_id, _outcome| Ok(()),
    )
    .unwrap();
    let outcomes: Vec<bool> = stops
        .iter()
        .map(|s| matches!(s.outcome, RunStopOutcome::Confirmed))
        .collect();
    assert_eq!(outcomes, vec![true, true, true, false]);
    let silent = drive_cancel_targets(
        &targets,
        &|_id| Ok(true),
        &|_handle| None,
        &|_id, _outcome| Ok(()),
    )
    .unwrap();
    assert!(matches!(silent[1].outcome, RunStopOutcome::Unconfirmed));
    assert!(matches!(
        drive_cancel_targets(
            &targets,
            &|_id| Ok(false),
            &|_handle| None,
            &|_id, _outcome| Ok(()),
        ),
        Err(KernelProblem::CommandInProgress)
    ));
}

#[test]
fn only_the_run_is_expected_where_nothing_else_is_named() {
    let e = WorkflowRunExpected::only_run(9);
    assert_eq!(e.workflow_run_revision, 9);
    assert!(e.steps.is_empty() && e.agent_runs.is_empty() && e.agent_sessions.is_empty());
    let r = run();
    let revisions = e.revisions(&r.run);
    assert_eq!(revisions.len(), 1);
    assert_eq!(revisions[0].aggregate().handle, r.run.as_str());
}

#[test]
fn what_is_expected_is_kept_by_axis() {
    let aggregate = AggregateRef::new(AggregateKind::ProjectWorkflow, "w").unwrap();
    let mut e = ExpectedRevision::new(aggregate);
    assert!(e.revisions().is_empty());
    e.expect("semantic", 3);
    e.expect("presentation", 4);
    e.expect("semantic", 5);
    assert_eq!(
        *e.revisions(),
        vec![("presentation".to_string(), 4), ("semantic".to_string(), 5)]
    );
    assert_eq!(e.aggregate().handle, "w");
}
