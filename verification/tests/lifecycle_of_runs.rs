//! Bringing a project's runs up, cancelling one, starting one, and an agent's own command,
//! all through the kernel.

use mf_kernel::cancel_recovery::CancelFence;
use mf_kernel::command::{CommandProblem, ServiceIdempotencyKey};
use mf_kernel::dispatch::{CommandCoordinator, EffectOutput, TargetDatabase};
use mf_kernel::handles::{
    AgentRunHandle, AgentSessionHandle, ClientId, CommandId, Principal, ProjectStoreHandle,
    StepHandle, WorkflowHandle, WorkflowRunHandle,
};
use mf_kernel::journal::EventJournal;
use mf_kernel::json::Json;
use mf_kernel::kernel::InProcessCoreKernel;
use mf_kernel::legacy_client::LegacyKernelClient;
use mf_kernel::limits::JournalLimits;
use mf_kernel::operation::{
    OperationCoordinator, OperationKind, OperationOutcome, OperationPlan, PreparedEffects,
    SagaStepPlan, StepId, StepOutput, StepRole,
};
use mf_kernel::problem::KernelProblem;
use mf_kernel::project_registry::{RunCapabilityKey, ServiceStore};
use mf_kernel::project_rows::{
    AgentRunRow, CancelFenceRow, ProjectRows, SessionRow, StepRow, TaskRow, WorkflowRecord,
};
use mf_kernel::run_command::{
    KernelCommand, KernelOutcome, Settlement, WorkflowRunCommand,
};
use mf_kernel::run_control::{
    add_control_result, settled_of, RunControlOutcome, TokenSettleOutcome, TokenSettleProblem,
};
use mf_kernel::run_actions::{target_has_pending_run_actions, DeliveryStage};
use mf_kernel::run_dispatch::{
    drive_cancel_targets, CancelFenceTargetState, FencedTarget, RunPorts, RunStage,
};
use mf_kernel::run_effects::{
    finish_run_lifecycle, plan_run_mutation, run_control_mutation_effect, DurableStop,
    MutationReport, RunControlCommand, RunMutation, RunPreparation, RunStopOutcome,
};
use mf_kernel::snapshot::{
    AgentRunSnapshot, AgentSessionSnapshot, WorkflowRunSnapshotData, WorkflowRunStepSnapshot,
};
use mf_kernel::table::Table;

const NOW: &str = "2026-09-01T00:00:00Z";

fn v7() -> String {
    uuid::Uuid::now_v7().to_string()
}

fn key() -> ServiceIdempotencyKey {
    ServiceIdempotencyKey::for_test(vec![8; 32]).unwrap()
}

struct World {
    kernel: InProcessCoreKernel,
    store: ServiceStore,
    project: ProjectStoreHandle,
    workflow: WorkflowHandle,
    run: WorkflowRunHandle,
    step: StepHandle,
    agent: AgentRunHandle,
    session: AgentSessionHandle,
    client: LegacyKernelClient,
}

fn ports() -> RunPorts {
    RunPorts {
        lifecycle: true,
        bound_answers: true,
        start: true,
    }
}

fn world() -> World {
    let mut store = ServiceStore::new();
    let project = store
        .register_project_path(Ok("/p".to_string()), "/p", "/p", NOW)
        .unwrap()
        .project_handle;
    let mut kernel = InProcessCoreKernel::new(
        CommandCoordinator::new(key()),
        EventJournal::with_limits(JournalLimits::default()),
        Table::new(),
    );
    let epoch = kernel.grant_controller("cl_a", "user").unwrap();
    let mut operations = Vec::new();
    kernel
        .admit_project(
            &mut operations,
            project.clone(),
            1,
            TargetDatabase::project(project.as_str(), Table::new(), Vec::new()).unwrap(),
            &vec![true],
            NOW,
            1,
            &|_| true,
            &|_| true,
        )
        .unwrap();
    World {
        kernel,
        store,
        project,
        workflow: WorkflowHandle::parse(&v7()).unwrap(),
        run: WorkflowRunHandle::parse(&v7()).unwrap(),
        step: StepHandle::parse(&v7()).unwrap(),
        agent: AgentRunHandle::parse(&v7()).unwrap(),
        session: AgentSessionHandle::parse(&v7()).unwrap(),
        client: LegacyKernelClient::new(
            Principal::parse("user").unwrap(),
            ClientId::parse("cl_a").unwrap(),
            epoch,
        ),
    }
}

impl World {
    fn rows(&self, revision: i64, status: &str) -> ProjectRows {
        ProjectRows {
            collection_revision: 1,
            workflows: vec![WorkflowRecord {
                public_handle: self.workflow.as_str().to_string(),
                key: "build".to_string(),
                name: "Build".to_string(),
                nodes: Vec::new(),
                allow_unsafe_parallel: false,
                semantic_revision: 1,
                presentation_revision: 1,
            }],
            tasks: vec![TaskRow {
                id: 1,
                public_handle: self.run.as_str().to_string(),
                revision,
                active_revision: Some(1),
                title: "t".to_string(),
                goal: "g".to_string(),
                status: "running".to_string(),
                paused: Json::Bool(false),
                unread: Json::Bool(false),
            }],
            steps: vec![StepRow {
                id: 2,
                public_handle: self.step.as_str().to_string(),
                revision,
                task_id: 1,
                revision_id: 1,
                step_key: "s".to_string(),
                title: "t".to_string(),
                status: status.to_string(),
                attempts: Json::Unsigned(0),
                auto_retry: Json::Null,
                result: Json::Null,
                dependencies: Vec::new(),
            }],
            agent_runs: vec![AgentRunRow {
                id: 7,
                public_handle: self.agent.as_str().to_string(),
                revision,
                task_id: 1,
                step_id: 2,
                session_id: Some(1),
                status: status.to_string(),
                agent_state: Json::Null,
                outcome: None,
                outcome_payload: Json::Null,
                started_at: Json::Null,
                ended_at: Json::Null,
                capability_token: "run-token".to_string(),
            }],
            sessions: vec![SessionRow {
                id: 1,
                public_handle: self.session.as_str().to_string(),
                revision,
                runtime: Json::Null,
                title: "s".to_string(),
                status: "running".to_string(),
                unread: Json::Bool(false),
            }],
            questions: Vec::new(),
            fences: Vec::new(),
        }
    }

    fn shown(&self) -> WorkflowRunSnapshotData {
        WorkflowRunSnapshotData {
            workflow_run: self.run.clone(),
            revision: 4,
            steps: vec![WorkflowRunStepSnapshot {
                step: self.step.clone(),
                status: "running".to_string(),
                revision: 4,
            }],
            agent_runs: vec![AgentRunSnapshot {
                agent_run: self.agent.clone(),
                step: self.step.clone(),
                agent_session: Some(self.session.clone()),
                status: "running".to_string(),
                revision: 4,
            }],
            agent_sessions: vec![AgentSessionSnapshot {
                agent_session: self.session.clone(),
                status: "running".to_string(),
                revision: 4,
            }],
            open_questions: Vec::new(),
        }
    }
}

fn report() -> MutationReport {
    MutationReport {
        actions: Vec::new(),
        already_settled: false,
        draft_revision: None,
    }
}

#[test]
fn a_run_is_cancelled_once_everything_is_stopped() {
    let mut w = world();
    let request = w.client.cancel_workflow_run(&w.project, &w.run, &w.shown());
    let rows = w.rows(4, "running");
    let (at, stage, envelope) = w
        .kernel
        .begin_workflow_run(&rows, &request, None, ports())
        .unwrap();
    let (task_id, targets) = match stage {
        RunStage::Stop { task_id, targets } => (task_id, targets),
        _ => panic!("a cancellation stops agent runs first"),
    };
    assert_eq!(task_id, 1);
    assert_eq!(targets.len(), 1);
    assert_eq!(targets[0].run_id, 7);
    let fenced = vec![FencedTarget {
        run_id: 7,
        run_handle: w.agent.clone(),
        state: CancelFenceTargetState::Pending,
    }];
    let run_stops = drive_cancel_targets(
        &fenced,
        &|_| Ok(true),
        &|_| Some(RunStopOutcome::Confirmed),
        &|_, _| Ok(()),
    )
    .unwrap();
    let preparation = RunPreparation::Cancel { run_stops };
    let after = w.rows(5, "cancelled");
    let command = match request.command() {
        KernelCommand::WorkflowRun(c) => c,
        _ => panic!("a command on a run"),
    };
    let effect = || -> Result<EffectOutput, CommandProblem> {
        let mutation = plan_run_mutation(
            &rows,
            command,
            &preparation,
            vec![DurableStop {
                run_id: 7,
                outcome: RunStopOutcome::Confirmed,
            }],
        )?;
        assert!(matches!(mutation, RunMutation::Cancel { task_id: 1, .. }));
        finish_run_lifecycle(&after, command, report())
    };
    let outcome = w
        .kernel
        .conclude_workflow_run(
            at,
            None,
            &envelope,
            &rows,
            &vec![true],
            effect,
            &|_| Ok(()),
            NOW,
            2,
            || true,
            || true,
        )
        .unwrap();
    assert!(matches!(
        outcome,
        KernelOutcome::RunApplied {
            revision: 5,
            replayed: false
        }
    ));
    assert_eq!(w.kernel.journal().stats().events, 4);
}

#[test]
fn a_run_needs_its_port_and_its_lease() {
    let mut w = world();
    let request = w.client.cancel_workflow_run(&w.project, &w.run, &w.shown());
    let rows = w.rows(4, "running");
    let none = RunPorts {
        lifecycle: false,
        bound_answers: false,
        start: false,
    };
    assert!(matches!(
        w.kernel.begin_workflow_run(&rows, &request, None, none),
        Err(KernelProblem::ServiceUnavailable(m)) if m == "run_lifecycle_port_not_registered"
    ));
    w.kernel.grant_controller("cl_b", "other").unwrap();
    assert!(matches!(
        w.kernel.begin_workflow_run(&rows, &request, None, ports()),
        Err(KernelProblem::ControllerLeaseExpired)
    ));
}

#[test]
fn a_cancellation_under_way_is_finished_on_the_next_start() {
    let mut w = world();
    let mut rows = w.rows(4, "running");
    let id = CommandId::new();
    rows.fences.push(CancelFenceRow {
        command_id: id.as_str().to_string(),
        task_id: 1,
        state: "stopping".to_string(),
    });
    let expected = mf_kernel::legacy_client::expect_for_cancel(&w.shown());
    let fences = vec![CancelFence {
        command_id: id.as_str().to_string(),
        task_id: 1,
        expected: expected.keep(&w.run),
        targets: vec![FencedTarget {
            run_id: 7,
            run_handle: w.agent.clone(),
            state: CancelFenceTargetState::Stopping,
        }],
    }];
    let after = w.rows(5, "cancelled");
    let project = w.project.clone();
    w.kernel
        .register_run_lifecycle_port(
            &project,
            None,
            &vec![true],
            &fences,
            &rows,
            &|_, _| Ok(true),
            &|_, _| Some(RunStopOutcome::Confirmed),
            &|_, _, _| Ok(()),
            &|_, command, _stops| finish_run_lifecycle(&after, command, report()),
            &|_| Ok(()),
            NOW,
            2,
            || true,
            || true,
        )
        .unwrap();
    assert!(w.kernel.targets()[0].receipt_row(id.as_str()).is_some());
    assert_eq!(w.kernel.journal().stats().events, 4);
    rows.fences.clear();
    let other = CancelFence {
        command_id: CommandId::new().as_str().to_string(),
        task_id: 1,
        expected: expected.keep(&w.run),
        targets: Vec::new(),
    };
    assert!(matches!(
        w.kernel.register_run_lifecycle_port(
            &project,
            None,
            &vec![true],
            &vec![other],
            &rows,
            &|_, _| Ok(true),
            &|_, _| None,
            &|_, _, _| Ok(()),
            &|_, command, _stops| finish_run_lifecycle(&after, command, report()),
            &|_| Ok(()),
            NOW,
            3,
            || true,
            || true,
        ),
        Err(KernelProblem::ControllerLeaseExpired)
    ));
}

#[test]
fn a_start_is_accepted_and_run_in_the_background() {
    let mut w = world();
    let rows = w.rows(4, "running");
    let request = w
        .client
        .start_workflow_run(&rows, &w.project, "build", "ship it")
        .unwrap();
    let (at, stage, envelope) = w
        .kernel
        .begin_workflow_run(&rows, &request, None, ports())
        .unwrap();
    assert!(matches!(stage, RunStage::Start));
    match request.command() {
        KernelCommand::WorkflowRun(WorkflowRunCommand::Start {
            expected_semantic_revision,
            ..
        }) => assert_eq!(*expected_semantic_revision, 1),
        _ => panic!("a start"),
    }
    let kind = OperationKind::parse("workflow_start").unwrap();
    let step = SagaStepPlan::new(
        StepRole::Forward,
        StepId::new(),
        mf_kernel::command::CommandType::WorkflowRun,
        envelope.target().clone(),
        Vec::new(),
        &Json::Null,
        None,
        &kind,
    )
    .unwrap();
    let plan = OperationPlan {
        kind: OperationKind::parse("workflow_start").unwrap(),
        steps: vec![step],
    };
    let coordinator = OperationCoordinator::new(key());
    let mut operation = None;
    let elsewhere = WorkflowHandle::parse(&v7()).unwrap();
    assert!(matches!(
        w.kernel.accept_workflow_start(
            at,
            &coordinator,
            &w.workflow,
            &elsewhere,
            &mut operation,
            &envelope,
            &plan,
            &rows,
            &vec![true],
            NOW,
            2,
            || true,
            || true,
        ),
        Err(KernelProblem::ValidationFailed(_))
    ));
    let outcome = w
        .kernel
        .accept_workflow_start(
            at,
            &coordinator,
            &w.workflow,
            &w.workflow,
            &mut operation,
            &envelope,
            &plan,
            &rows,
            &vec![true],
            NOW,
            2,
            || true,
            || true,
        )
        .unwrap();
    assert!(matches!(outcome, KernelOutcome::Accepted { .. }));
    assert!(w.kernel.targets()[0].outbox().is_empty());
    let mut row = operation.unwrap();
    let effects = PreparedEffects {
        outputs: vec![Ok(StepOutput {
            result_revisions: Json::Null,
            projection: Json::Null,
        })],
    };
    let project = w.project.clone();
    assert!(matches!(
        w.kernel.run_workflow_start_operation(
            &project,
            ports(),
            &coordinator,
            &mut row,
            None,
            &rows,
            &effects,
            1,
            None,
            &vec![true],
            &|_| Ok(()),
            NOW,
            3,
            || true,
            || true,
        ),
        Err(KernelProblem::Internal(_))
    ));
    let resumed = w
        .kernel
        .register_workflow_start_port(&project, true, &vec![row], "workflow_start")
        .unwrap();
    assert_eq!(resumed.len(), 1);
    assert!(w
        .kernel
        .register_workflow_start_port(&project, false, &vec![], "workflow_start")
        .is_err());
}

#[test]
fn an_ended_start_answers_with_its_end() {
    let mut w = world();
    let rows = w.rows(4, "running");
    let request = w
        .client
        .start_workflow_run(&rows, &w.project, "build", "ship it")
        .unwrap();
    let (at, _stage, envelope) = w
        .kernel
        .begin_workflow_run(&rows, &request, None, ports())
        .unwrap();
    let kind = OperationKind::parse("workflow_start").unwrap();
    let plan = OperationPlan {
        kind: OperationKind::parse("workflow_start").unwrap(),
        steps: vec![SagaStepPlan::new(
            StepRole::Forward,
            StepId::new(),
            mf_kernel::command::CommandType::WorkflowRun,
            envelope.target().clone(),
            Vec::new(),
            &Json::Null,
            None,
            &kind,
        )
        .unwrap()],
    };
    let coordinator = OperationCoordinator::new(key());
    let mut operation = None;
    w.kernel
        .accept_workflow_start(
            at,
            &coordinator,
            &w.workflow,
            &w.workflow,
            &mut operation,
            &envelope,
            &plan,
            &rows,
            &vec![true],
            NOW,
            2,
            || true,
            || true,
        )
        .unwrap();
    let mut row = operation.unwrap();
    row.record.state = mf_kernel::operation::OperationState::Completed;
    row.record.progress.outcome = Some("compensated".to_string());
    let effects = PreparedEffects { outputs: vec![] };
    let project = w.project.clone();
    let outcome = w
        .kernel
        .run_workflow_start_operation(
            &project,
            ports(),
            &coordinator,
            &mut row,
            Some(&plan),
            &rows,
            &effects,
            0,
            None,
            &vec![true],
            &|_| Ok(()),
            NOW,
            3,
            || true,
            || true,
        )
        .unwrap();
    assert!(matches!(outcome, OperationOutcome::Completed { compensated: true }));
}

#[test]
fn an_agent_settles_its_run_through_the_kernel() {
    let mut w = world();
    let capability_key = RunCapabilityKey::for_test(vec![6; 32]).unwrap();
    let rows = vec![w.rows(4, "running")];
    let command = RunControlCommand::Settle(Settlement {
        kind: "succeeded".to_string(),
        body: Json::Text("done".to_string()),
    });
    let id = CommandId::new();
    let (at, plan) = w
        .kernel
        .begin_run_control(
            &mut w.store,
            &capability_key,
            "run-token",
            &command,
            &id,
            &rows,
            &vec![true],
            &vec![true],
            NOW,
        )
        .unwrap();
    assert!(plan.capability.agent_run.same(&w.agent));
    let mut after = w.rows(5, "settled");
    after.agent_runs[0].outcome = Some("succeeded".to_string());
    let expected = plan.at.expected.revisions(&plan.at.workflow_run);
    let effect = || -> Result<EffectOutput, CommandProblem> {
        let output =
            run_control_mutation_effect(&after, &command, &expected, &plan.target, report())?;
        add_control_result(output, &command, &plan.capability.agent_run, &plan.at)
    };
    let outcome = w
        .kernel
        .conclude_run_control(
            at,
            &plan,
            &mut w.store,
            &capability_key,
            &rows[0],
            "run-token",
            &command,
            "digest",
            effect,
            &|_| Ok(()),
            NOW,
            2,
            || true,
            || true,
        )
        .unwrap();
    assert!(matches!(
        settled_of(outcome),
        Ok(TokenSettleOutcome::Applied { .. })
    ));
    assert!(settled_of(RunControlOutcome::StateReported {
        agent_run: w.agent.clone(),
        state: "idle".to_string()
    })
    .is_err());
    assert!(matches!(
        w.kernel.begin_run_control(
            &mut w.store,
            &capability_key,
            "another-token",
            &command,
            &CommandId::new(),
            &rows,
            &vec![true],
            &vec![true],
            NOW,
        ),
        Err(TokenSettleProblem::UnknownToken)
    ));
}

#[test]
fn a_failed_delivery_is_not_passed_over() {
    let mut w = world();
    let request = w.client.cancel_workflow_run(&w.project, &w.run, &w.shown());
    let rows = w.rows(4, "running");
    let (at, _stage, envelope) = w
        .kernel
        .begin_workflow_run(&rows, &request, None, ports())
        .unwrap();
    let after = w.rows(5, "cancelled");
    let command = match request.command() {
        KernelCommand::WorkflowRun(c) => c,
        _ => panic!("a command on a run"),
    };
    let effect = || -> Result<EffectOutput, CommandProblem> {
        finish_run_lifecycle(
            &after,
            command,
            MutationReport {
                actions: vec![Json::Text("dispatch".to_string())],
                already_settled: false,
                draft_revision: None,
            },
        )
    };
    let failed = w.kernel.conclude_workflow_run(
        at,
        None,
        &envelope,
        &rows,
        &vec![true],
        effect,
        &|d| match d.stage {
            DeliveryStage::Read => Ok(()),
            DeliveryStage::Do => Err(KernelProblem::ServiceUnavailable("later".to_string())),
        },
        NOW,
        2,
        || true,
        || true,
    );
    assert!(matches!(failed, Err(KernelProblem::ServiceUnavailable(m)) if m == "later"));
    assert!(target_has_pending_run_actions(&w.kernel.targets()[0]));
    assert_eq!(w.kernel.journal().stats().events, 0);
    for _ in 0..2 {
        assert!(matches!(
            w.kernel.workspace_snapshot(&vec![true], NOW, &vec![]),
            Err(KernelProblem::ServiceUnavailable(m)) if m == "run_actions_pending"
        ));
    }
    assert!(target_has_pending_run_actions(&w.kernel.targets()[0]));
    let project = w.project.clone();
    let done = std::cell::Cell::new(0);
    w.kernel
        .register_run_lifecycle_port(
            &project,
            None,
            &vec![true],
            &Vec::new(),
            &rows,
            &|_, _| Ok(true),
            &|_, _| None,
            &|_, _, _| Ok(()),
            &|_, command, _stops| finish_run_lifecycle(&after, command, report()),
            &|d| {
                if d.stage == DeliveryStage::Do {
                    done.set(done.get() + 1);
                }
                Ok(())
            },
            NOW,
            3,
            || true,
            || true,
        )
        .unwrap();
    assert_eq!(done.get(), 1);
    assert!(!target_has_pending_run_actions(&w.kernel.targets()[0]));
    assert!(w.kernel.workspace_snapshot(&vec![true], NOW, &vec![]).is_ok());
    assert_eq!(w.kernel.journal().stats().events, 4);
}
