//! The commands that an agent sends by the token of its run.

use mf_kernel::command::ServiceIdempotencyKey;
use mf_kernel::dispatch::{CommandCoordinator, CommandOutcome, EffectOutput, TargetDatabase};
use mf_kernel::handles::{
    AgentRunHandle, AgentSessionHandle, CommandId, ProjectStoreHandle, StepHandle,
    WorkflowRunHandle,
};
use mf_kernel::json::Json;
use mf_kernel::project_registry::{RunCapabilityKey, RunCapabilityResolution, ServiceStore};
use mf_kernel::project_rows::{AgentRunRow, ProjectRows, SessionRow, StepRow, TaskRow};
use mf_kernel::run_command::Settlement;
use mf_kernel::run_control::{
    add_control_result, apply_run_control, begin_run_control, check_run_control, finish_run_control, locate_run,
    resolve_authority, RunControlOutcome, StoreHit, TokenSettleOutcome, TokenSettleProblem,
};
use mf_kernel::run_effects::{run_control_mutation_effect, MutationReport, RunControlCommand};
use mf_kernel::table::Table;

const NOW: &str = "2026-09-01T00:00:00Z";

fn v7() -> String {
    uuid::Uuid::now_v7().to_string()
}

struct World {
    store: ServiceStore,
    key: RunCapabilityKey,
    project: ProjectStoreHandle,
    agent: AgentRunHandle,
    rows: ProjectRows,
}

fn world() -> World {
    let mut store = ServiceStore::new();
    let project = store
        .register_project_path(Ok("/p".to_string()), "/p", "/p", NOW)
        .unwrap()
        .project_handle;
    let agent = AgentRunHandle::parse(&v7()).unwrap();
    let run = WorkflowRunHandle::parse(&v7()).unwrap();
    let step = StepHandle::parse(&v7()).unwrap();
    let session = AgentSessionHandle::parse(&v7()).unwrap();
    let rows = ProjectRows {
        collection_revision: 1,
        workflows: Vec::new(),
        tasks: vec![TaskRow {
            id: 1,
            public_handle: run.as_str().to_string(),
            revision: 4,
            active_revision: Some(1),
            title: "t".to_string(),
            goal: "g".to_string(),
            status: "running".to_string(),
            paused: Json::Bool(false),
            unread: Json::Bool(false),
        }],
        steps: vec![StepRow {
            id: 2,
            public_handle: step.as_str().to_string(),
            revision: 3,
            task_id: 1,
            revision_id: 1,
            step_key: "s".to_string(),
            title: "t".to_string(),
            status: "running".to_string(),
            attempts: Json::Unsigned(0),
            auto_retry: Json::Null,
            result: Json::Null,
            dependencies: Vec::new(),
        }],
        agent_runs: vec![AgentRunRow {
            id: 7,
            public_handle: agent.as_str().to_string(),
            revision: 5,
            task_id: 1,
            step_id: 2,
            session_id: Some(1),
            status: "running".to_string(),
            agent_state: Json::Null,
            outcome: None,
            outcome_payload: Json::Null,
            started_at: Json::Null,
            ended_at: Json::Null,
            capability_token: "run-token".to_string(),
        }],
        sessions: vec![SessionRow {
            id: 1,
            public_handle: session.as_str().to_string(),
            revision: 6,
            runtime: Json::Null,
            title: "s".to_string(),
            status: "running".to_string(),
            unread: Json::Bool(false),
        }],
        questions: Vec::new(),
        fences: Vec::new(),
    };
    World {
        store,
        key: RunCapabilityKey::for_test(vec![2; 32]).unwrap(),
        project,
        agent,
        rows,
    }
}

fn settle() -> RunControlCommand {
    RunControlCommand::Settle(Settlement {
        kind: "succeeded".to_string(),
        body: Json::Object(vec![(
            "summary".to_string(),
            Json::Text("done".to_string()),
        )]),
    })
}

fn after(w: &World) -> ProjectRows {
    let mut rows = ProjectRows {
        collection_revision: 1,
        workflows: Vec::new(),
        tasks: vec![w.rows.tasks[0].copy()],
        steps: vec![w.rows.steps[0].copy()],
        agent_runs: vec![w.rows.agent_runs[0].copy()],
        sessions: vec![w.rows.sessions[0].copy()],
        questions: Vec::new(),
        fences: Vec::new(),
    };
    rows.agent_runs[0].revision = 6;
    rows.agent_runs[0].status = "settled".to_string();
    rows.agent_runs[0].outcome = Some("succeeded".to_string());
    rows
}

#[test]
fn an_agent_ends_its_run_by_its_token() {
    let mut w = world();
    let hits = vec![StoreHit {
        project: w.project.clone(),
        agent_run: w.agent.as_str().to_string(),
    }];
    let capability = resolve_authority(&mut w.store, &w.key, "run-token", &hits, NOW).unwrap();
    assert!(capability.agent_run.same(&w.agent));
    let command = settle();
    check_run_control("run-token", &command).unwrap();
    let id = CommandId::new();
    let plan = begin_run_control(
        capability,
        Some(false),
        &w.rows,
        "run-token",
        &command,
        &id,
        true,
    )
    .unwrap();
    let key = ServiceIdempotencyKey::for_test(vec![4; 32]).unwrap();
    let digest = plan.envelope.semantic_digest(&key).unwrap();
    let coordinator =
        CommandCoordinator::new(ServiceIdempotencyKey::for_test(vec![4; 32]).unwrap());
    let mut intents = Table::new();
    let mut target =
        TargetDatabase::project(w.project.as_str(), Table::new(), Vec::new()).unwrap();
    let rows_after = after(&w);
    let expected = plan.at.expected.revisions(&plan.at.workflow_run);
    let effect = || -> Result<EffectOutput, mf_kernel::command::CommandProblem> {
        let output = run_control_mutation_effect(
            &rows_after,
            &settle(),
            &expected,
            &plan.target,
            MutationReport {
                actions: Vec::new(),
                already_settled: false,
                draft_revision: None,
            },
        )?;
        add_control_result(output, &settle(), &plan.capability.agent_run, &plan.at)
    };
    let done = apply_run_control(
        &coordinator,
        &mut intents,
        &mut target,
        &w.rows,
        "run-token",
        &plan,
        &command,
        &digest,
        effect,
        NOW,
    )
    .unwrap();
    let CommandOutcome::Applied {
        result_revisions,
        replayed,
    } = done;
    assert!(!replayed);
    let outcome = finish_run_control(
        &mut w.store,
        &w.key,
        "run-token",
        &command,
        &result_revisions,
        NOW,
    )
    .unwrap();
    assert!(matches!(
        outcome,
        RunControlOutcome::Settled(TokenSettleOutcome::Applied { .. })
    ));
    match w.store.resolve_run_capability(&w.key, b"run-token").unwrap() {
        RunCapabilityResolution::One(c) => assert_eq!(c.state.as_str(), "settled"),
        _ => panic!("the token is known"),
    }
    assert_eq!(target.outbox().len(), 1);
}

#[test]
fn tokens_are_needed_and_reports_hold_none() {
    assert!(matches!(
        check_run_control("", &settle()),
        Err(TokenSettleProblem::MissingToken)
    ));
    let leaking = RunControlCommand::Settle(Settlement {
        kind: "succeeded".to_string(),
        body: Json::Object(vec![("summary".to_string(), Json::Text("run-token".to_string()))]),
    });
    assert!(matches!(
        check_run_control("run-token", &leaking),
        Err(TokenSettleProblem::SensitiveSettlement)
    ));
}

#[test]
fn a_token_of_two_runs_is_good_for_none() {
    let mut w = world();
    let hits = vec![
        StoreHit {
            project: w.project.clone(),
            agent_run: w.agent.as_str().to_string(),
        },
        StoreHit {
            project: w.project.clone(),
            agent_run: v7(),
        },
    ];
    assert!(matches!(
        resolve_authority(&mut w.store, &w.key, "run-token", &hits, NOW),
        Err(TokenSettleProblem::AmbiguousToken { .. })
    ));
    assert!(matches!(
        resolve_authority(&mut w.store, &w.key, "run-token", &vec![], NOW),
        Err(TokenSettleProblem::AmbiguousToken { .. })
    ));
    assert!(matches!(
        resolve_authority(&mut w.store, &w.key, "never-seen", &vec![], NOW),
        Err(TokenSettleProblem::UnknownToken)
    ));
}

#[test]
fn a_closing_project_takes_no_reports() {
    let mut w = world();
    let hits = vec![StoreHit {
        project: w.project.clone(),
        agent_run: w.agent.as_str().to_string(),
    }];
    let capability = resolve_authority(&mut w.store, &w.key, "run-token", &hits, NOW).unwrap();
    assert!(matches!(
        begin_run_control(
            capability,
            Some(true),
            &w.rows,
            "run-token",
            &settle(),
            &CommandId::new(),
            true
        ),
        Err(TokenSettleProblem::ProjectClosing)
    ));
    assert!(locate_run(&w.rows, &w.agent, "run-token").is_ok());
    assert!(locate_run(&w.rows, &w.agent, "other-token").is_err());
}
