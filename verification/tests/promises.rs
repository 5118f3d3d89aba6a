//! What the library promises as a whole, on concrete values.

use mf_kernel::authority::{ControllerLease, InProcessAuthorizer};
use mf_kernel::cancel_recovery::CancelFence;
use mf_kernel::command::{
    CommandEnvelope, CommandPayload, CommandProblem, CommandType, ServiceIdempotencyKey,
};
use mf_kernel::core_lifecycle::{derive_mutex_name, CoreLifecycle};
use mf_kernel::dispatch::{
    CommandCoordinator, EffectOutput, IntentRow, IntentState, OutboxRow, ReceiptRow,
    TargetDatabase,
};
use mf_kernel::handles::{
    AgentRunHandle, AggregateKind, AggregateRef, ClientId, CommandId, CommandTarget, Principal,
    ProjectStoreHandle, StepHandle, TargetStoreKind, WorkflowRunHandle,
};
use mf_kernel::journal::EventJournal;
use mf_kernel::json::{sorted_json, to_text, Json};
use mf_kernel::kernel::ProjectRegistration;
use mf_kernel::limits::{JournalLimits, RetentionLimits};
use mf_kernel::moment::Moment;
use mf_kernel::operation::{
    acceptance_receipt, decide_end, decide_saga, finish_step, load_identity, OperationHandle,
    OperationKind, OperationProgress, OperationRecord, OperationRow, OperationState, SagaDecision,
    StepId, StepRecord, StepRole, StepState, TerminalKind,
};
use mf_kernel::problem::KernelProblem;
use mf_kernel::project_registry::{
    RunCapabilityState, ServiceStore, SessionDoc, SessionImportStatus, SessionPath,
};
use mf_kernel::project_rows::ProjectRows;
use mf_kernel::reconcile::{reconcile_startup, run_retention_gc, AuditRow, GcProtection};
use mf_kernel::run_command::{Settlement, WorkflowRunExpected};
use mf_kernel::run_control::{
    check_project, check_run, check_settled, decode_run_control, RunLocation, TokenSettleProblem,
};
use mf_kernel::run_effects::{RunControlCommand, RunMutation};
use mf_kernel::secret::SecretText;
use mf_kernel::snapshot::workspace_projects;
use mf_kernel::table::Table;

const NOW: &str = "2026-09-01T00:00:00+00:00";

fn obj(fields: Vec<(&str, Json)>) -> Json {
    Json::Object(
        fields
            .into_iter()
            .map(|(name, value)| (name.to_string(), value))
            .collect(),
    )
}

fn txt(s: &str) -> Json {
    Json::Text(s.to_string())
}

fn empty_rows() -> ProjectRows {
    ProjectRows {
        collection_revision: 1,
        workflows: Vec::new(),
        tasks: Vec::new(),
        steps: Vec::new(),
        agent_runs: Vec::new(),
        sessions: Vec::new(),
        questions: Vec::new(),
        fences: Vec::new(),
    }
}

#[test]
fn the_name_of_a_mutex_is_a_digest_of_its_directory() {
    assert_eq!(
        derive_mutex_name(""),
        "Local\\MonkeyFence.Core.Probe.cbf29ce484222325"
    );
    assert_eq!(
        derive_mutex_name("a"),
        "Local\\MonkeyFence.Core.Probe.af63dc4c8601ec8c"
    );
}

#[test]
fn owner_epochs_rise() {
    let mut core = CoreLifecycle::new();
    core.acquire_owner_lock(true).unwrap();
    let first = core.owner_epoch();
    core.acquire_owner_lock(true).unwrap();
    assert_eq!(core.owner_epoch(), first + 1);
}

#[test]
fn nothing_secret_becomes_durable() {
    let project = ProjectStoreHandle::generate();
    let mut lease = ControllerLease::new();
    let epoch = lease.grant_controller("cl_a", "user").unwrap();
    let mut intents: Table<IntentRow> = Table::new();
    let mut target =
        TargetDatabase::project(project.as_str(), Table::new(), Vec::new()).unwrap();
    let envelope = CommandEnvelope::new(
        CommandId::new(),
        ClientId::parse("cl_a").unwrap(),
        Principal::parse("user").unwrap(),
        epoch,
        None,
        CommandTarget {
            store: TargetStoreKind::Project,
            store_handle: project.as_str().to_string(),
            aggregate: AggregateRef::new(AggregateKind::Project, project.as_str()).unwrap(),
        },
        Vec::new(),
        CommandType::ProviderProfileUpsert,
        CommandPayload::WriteOnlySecret {
            public_fields: obj(vec![("label", txt("main"))]),
            secret: SecretText::new("hunter2".to_string()),
        },
    )
    .unwrap();
    let rows = empty_rows();
    let authorizer = InProcessAuthorizer {
        lease: &lease,
        rows: &rows,
    };
    let coordinator =
        CommandCoordinator::new(ServiceIdempotencyKey::for_test(vec![1; 32]).unwrap());
    let leaking = || {
        Ok(EffectOutput::for_contract(
            obj(vec![("note", txt("it is hunter2"))]),
            Json::Null,
        ))
    };
    assert!(matches!(
        coordinator.dispatch_internal(
            &mut intents,
            &envelope,
            &mut target,
            &authorizer,
            leaking,
            None,
            NOW
        ),
        Err(CommandProblem::InvalidEnvelope(m)) if m == "Secret 明文或可复用引用进入 result/event"
    ));
    assert!(target.outbox().is_empty());
    assert!(target.receipt_ids().is_empty());
    assert_eq!(
        coordinator.intent_state(&intents, envelope.command_id()),
        Some(IntentState::Failed)
    );
}

fn step_event(n: u64) -> Json {
    obj(vec![
        ("type", txt("x.applied")),
        (
            "aggregate",
            obj(vec![("kind", txt("step")), ("handle", txt("s"))]),
        ),
        (
            "projection",
            obj(vec![
                ("base_revision", obj(vec![("revision", Json::Unsigned(n))])),
                (
                    "aggregate_revision",
                    obj(vec![("revision", Json::Unsigned(n + 1))]),
                ),
                (
                    "delta",
                    obj(vec![("mode", txt("replace")), ("data", Json::Null)]),
                ),
            ]),
        ),
    ])
}

#[test]
fn a_slow_client_slows_no_one() {
    let limits = JournalLimits {
        client_event_queue_max_events: 100,
        ..Default::default()
    };
    let mut journal = EventJournal::with_limits(limits);
    let mut target =
        TargetDatabase::project(ProjectStoreHandle::generate().as_str(), Table::new(), Vec::new())
            .unwrap();
    let cursor = journal.cursor();
    let mut slow = journal.subscribe(&cursor).unwrap();
    let mut quick = journal.subscribe(&cursor).unwrap();
    let mut seen = 0;
    for n in 0..101 {
        target.write_event(step_event(n));
        journal
            .publish_pending(&mut target, NOW, n + 1, || true, || true)
            .unwrap();
        seen += quick.poll(&mut journal).unwrap().len();
    }
    assert_eq!(seen, 101);
    assert!(matches!(
        slow.poll(&mut journal),
        Err(KernelProblem::ResyncRequired)
    ));
}

#[test]
fn the_journal_stays_within_its_bounds() {
    let limits = JournalLimits {
        journal_max_events: 1_000,
        journal_min_age_secs: 0,
        ..Default::default()
    };
    let mut journal = EventJournal::with_limits(limits);
    let mut target =
        TargetDatabase::project(ProjectStoreHandle::generate().as_str(), Table::new(), Vec::new())
            .unwrap();
    let mut outbox: Vec<OutboxRow> = Vec::new();
    for n in 0..600 {
        outbox.push(OutboxRow {
            event: step_event(n),
            published_at: None,
        });
    }
    for row in &outbox {
        target.write_event(row.event.copy());
    }
    journal
        .publish_pending(&mut target, NOW, 1, || true, || true)
        .unwrap();
    for n in 600..1_200 {
        target.write_event(step_event(n));
    }
    journal
        .publish_pending(&mut target, NOW, 2_000_000_000, || true, || true)
        .unwrap();
    let stats = journal.stats();
    assert!(stats.events <= 1_000);
    assert_eq!(journal.cursor().through_seq, 1_200);
    assert!(stats.first_available_seq > 1);
}

#[test]
fn a_session_is_imported_once() {
    let mut store = ServiceStore::new();
    let path = |p: &str, available: bool| SessionPath {
        display_path: p.to_string(),
        canonical_root: p.to_string(),
        available,
    };
    let doc = || SessionDoc {
        projects: vec![path("/a", true), path("/a", true), path("/gone", false)],
        foreground: Some(path("/a", true)),
    };
    let first = store.import_session_projects(Some(doc()), "session.json", NOW);
    assert_eq!(first.status, SessionImportStatus::Imported);
    assert_eq!(first.duplicates_skipped, 1);
    assert_eq!(first.missing, 1);
    let again = store.import_session_projects(Some(doc()), "session.json", NOW);
    assert_eq!(again.status, SessionImportStatus::AlreadyImported);
    assert_eq!(store.projects().len(), 2);
    let mut other = ServiceStore::new();
    let none = other.import_session_projects(None, "session.json", NOW);
    assert_eq!(none.status, SessionImportStatus::NoSessionFile);
}

fn intent(id: &str, state: IntentState, resolved: Option<&str>) -> IntentRow {
    IntentRow {
        command_id: id.to_string(),
        semantic_digest: "d".to_string(),
        target_store: "project:p".to_string(),
        aggregate: "a".to_string(),
        principal: "user".to_string(),
        client_id: "cl_a".to_string(),
        controller_epoch: 1,
        root_epoch: None,
        state,
        created_at: "2020-01-01T00:00:00+00:00".to_string(),
        resolved_at: resolved.map(str::to_string),
        problem_code: None,
    }
}

#[test]
fn what_is_open_named_or_protected_stays() {
    let mut intents = Table::new();
    let old = "2020-01-01T00:00:00+00:00";
    let named = CommandId::new();
    let held = CommandId::new();
    intents.put(intent("open", IntentState::Reserved, None));
    intents.put(intent("done", IntentState::Applied, Some(old)));
    intents.put(intent(named.as_str(), IntentState::Applied, Some(old)));
    intents.put(intent(held.as_str(), IntentState::Applied, Some(old)));
    let mut operations: Vec<OperationRow> = Vec::new();
    let mut audit = vec![
        AuditRow {
            created_at: "2026-08-31T00:00:00+00:00".to_string(),
            summary: format!("{{\"command\":\"{}\"}}", named.as_str()),
        },
        AuditRow {
            created_at: "2015-01-01T00:00:00+00:00".to_string(),
            summary: "{}".to_string(),
        },
    ];
    let mut targets: Vec<TargetDatabase> = Vec::new();
    let report = run_retention_gc(
        &mut intents,
        &mut operations,
        &mut audit,
        &mut targets,
        &RetentionLimits::default(),
        &GcProtection::confirmed_empty().protect_command(&held),
        &Moment {
            seconds: 1_788_220_800,
            nanos: 0,
        },
    )
    .unwrap();
    assert_eq!(report.intents_deleted, 1);
    assert_eq!(report.audit_deleted, 1);
    assert!(intents.get("open").is_some());
    assert!(intents.get("done").is_none());
    assert!(intents.get(named.as_str()).is_some());
    assert!(intents.get(held.as_str()).is_some());
}

#[test]
fn cleaning_again_takes_only_what_has_lost_its_last_mention() {
    let old = "2020-01-01T00:00:00+00:00";
    let mut intents = Table::new();
    intents.put(intent("plain", IntentState::Applied, Some(old)));
    intents.put(intent("named", IntentState::Applied, Some(old)));
    let mut operations: Vec<OperationRow> = Vec::new();
    let mut targets: Vec<TargetDatabase> = Vec::new();
    let mut audit = vec![AuditRow {
        created_at: "2015-01-01T00:00:00+00:00".to_string(),
        summary: "{\"command\":\"named\"}".to_string(),
    }];
    let mut deleted = Vec::new();
    for _ in 0..3 {
        let report = run_retention_gc(
            &mut intents,
            &mut operations,
            &mut audit,
            &mut targets,
            &RetentionLimits::default(),
            &GcProtection::confirmed_empty(),
            &Moment {
                seconds: 1_788_220_800,
                nanos: 0,
            },
        )
        .unwrap();
        deleted.push((report.intents_deleted, report.audit_deleted));
    }
    assert_eq!(deleted, vec![(1, 1), (1, 0), (0, 0)]);
}

#[test]
fn receipts_decide_what_a_restart_makes_of_commands() {
    let project = ProjectStoreHandle::generate();
    let store_key = format!("project:{}", project.as_str());
    let mut intents = Table::new();
    for id in ["with", "without"] {
        let mut row = intent(id, IntentState::Reserved, None);
        row.target_store = store_key.clone();
        intents.put(row);
    }
    let mut receipts = Table::new();
    receipts.put(ReceiptRow {
        command_id: "with".to_string(),
        semantic_digest: "d".to_string(),
        aggregate_handle: "a".to_string(),
        result: Json::Null,
        state: "applied".to_string(),
        created_at: NOW.to_string(),
        finalized_at: Some(NOW.to_string()),
    });
    let mut targets =
        vec![TargetDatabase::project(project.as_str(), receipts, Vec::new()).unwrap()];
    let mut operations = Vec::new();
    let report = reconcile_startup(&mut intents, &mut operations, &mut targets, NOW).unwrap();
    assert_eq!(report.intents_applied, 1);
    assert_eq!(report.intents_revoked, 1);
    assert_eq!(intents.get("with").unwrap().state, IntentState::Applied);
    assert_eq!(intents.get("without").unwrap().state, IntentState::Revoked);
    let again = reconcile_startup(&mut intents, &mut operations, &mut targets, NOW).unwrap();
    assert_eq!(again.intents_applied + again.intents_revoked, 0);
}

fn location(status: &str, outcome: Option<&str>) -> RunLocation {
    let v7 = || uuid::Uuid::now_v7().to_string();
    RunLocation {
        workflow_run: WorkflowRunHandle::parse(&v7()).unwrap(),
        step: StepHandle::parse(&v7()).unwrap(),
        run_id: 1,
        task_id: 2,
        status: status.to_string(),
        outcome: outcome.map(str::to_string),
        expected: WorkflowRunExpected::only_run(1),
    }
}

fn settle(kind: &str) -> RunControlCommand {
    RunControlCommand::Settle(Settlement {
        kind: kind.to_string(),
        body: Json::Null,
    })
}

#[test]
fn an_agent_learns_why_it_is_refused() {
    assert!(check_run(&location("running", None), &settle("succeeded")).is_ok());
    assert!(check_run(&location("done", Some("succeeded")), &settle("succeeded")).is_ok());
    assert!(matches!(
        check_run(&location("done", Some("failed")), &settle("succeeded")),
        Err(TokenSettleProblem::Conflict { existing, attempted })
            if existing == "failed" && attempted == "succeeded"
    ));
    assert!(matches!(
        check_run(&location("done", None), &settle("succeeded")),
        Err(TokenSettleProblem::RunNotActive(s)) if s == "done"
    ));
    let report = RunControlCommand::ReportState("idle".to_string());
    assert!(matches!(
        check_run(&location("done", Some("failed")), &report),
        Err(TokenSettleProblem::RunNotActive(_))
    ));
    assert!(matches!(
        check_settled(&report, RunCapabilityState::Settled),
        Err(TokenSettleProblem::RunNotActive(_))
    ));
    assert!(check_settled(&settle("x"), RunCapabilityState::Settled).is_ok());
    assert!(matches!(
        check_project(None, RunCapabilityState::Active),
        Err(TokenSettleProblem::UnknownToken)
    ));
    assert!(matches!(
        check_project(Some(true), RunCapabilityState::Active),
        Err(TokenSettleProblem::ProjectClosing)
    ));
    assert!(matches!(
        check_project(Some(false), RunCapabilityState::Quarantined),
        Err(TokenSettleProblem::AmbiguousToken { matches: 2 })
    ));
    assert!(decode_run_control(&Json::Null).is_err());
    assert!(matches!(
        settle("x").mutation(4, 5),
        RunMutation::Settle { run_id: 4, .. }
    ));
    assert_eq!(settle("x").method(), "settle");
}

fn step(index: usize, role: StepRole, compensates: Option<usize>, state: StepState) -> StepRecord {
    StepRecord {
        step_index: index,
        role,
        step_id: StepId::new(),
        target_store: "project:p".to_string(),
        aggregate: "a".to_string(),
        semantic_digest: "d".to_string(),
        expected: Json::Null,
        compensates,
        state,
        result: Json::Null,
        problem_code: None,
    }
}

#[test]
fn a_goal_that_was_missed_is_never_called_reached() {
    let done = vec![step(0, StepRole::Forward, None, StepState::Succeeded)];
    assert!(matches!(decide_saga(&done), SagaDecision::Complete));
    assert!(matches!(
        decide_end(&done),
        TerminalKind::Completed
    ));
    let failed = vec![
        step(0, StepRole::Forward, None, StepState::Succeeded),
        step(1, StepRole::Forward, None, StepState::Failed),
        step(2, StepRole::Compensate, Some(0), StepState::Succeeded),
    ];
    match decide_saga(&failed) {
        SagaDecision::CompensationOpen { needed, failed, .. } => {
            assert_eq!(needed, vec![2]);
            assert_eq!(failed, None);
        }
        SagaDecision::Complete => panic!("the goal was missed"),
    }
    assert!(matches!(
        decide_end(&failed),
        TerminalKind::CompletedCompensated
    ));
}

#[test]
fn a_step_ends_once() {
    let mut op = OperationRow {
        record: OperationRecord {
            operation_handle: OperationHandle::new(),
            command_id: CommandId::new(),
            kind: OperationKind::parse("k").unwrap(),
            state: OperationState::Running,
            saga_state: "{}".to_string(),
            progress: OperationProgress::initial(1),
            created_at: NOW.to_string(),
            updated_at: NOW.to_string(),
        },
        steps: vec![step(0, StepRole::Forward, None, StepState::Pending)],
    };
    assert!(op.is_in_place());
    finish_step(&mut op, 0, StepState::Succeeded, None, Some(&Json::Bool(true))).unwrap();
    assert_eq!(op.steps[0].state, StepState::Succeeded);
    assert!(finish_step(&mut op, 9, StepState::Failed, None, None).is_err());
    op.steps[0].step_index = 4;
    assert!(!op.is_in_place());
    let identity = load_identity(&intent("x", IntentState::Reserved, None)).unwrap();
    assert_eq!(identity.principal.as_str(), "user");
    let target =
        TargetDatabase::project(ProjectStoreHandle::generate().as_str(), Table::new(), Vec::new())
            .unwrap();
    assert!(acceptance_receipt(&target, "c", "d", "a").unwrap().is_none());
}

#[test]
fn the_workspace_is_in_the_order_of_its_handles() {
    let handles: Vec<ProjectStoreHandle> = (0..3).map(|_| ProjectStoreHandle::generate()).collect();
    let mut registered = Vec::new();
    for (i, h) in handles.iter().rev().enumerate() {
        registered.push(ProjectRegistration {
            project: h.clone(),
            opening: i as u64,
            closing: i == 1,
        });
    }
    let shown = workspace_projects(&registered, &vec![]);
    assert_eq!(shown.len(), 2);
    assert!(shown[0].project.as_str() < shown[1].project.as_str());
    assert_eq!(shown[0].name, "Project");
}

#[test]
fn sorting_keeps_every_field() {
    let v = obj(vec![("z", Json::Unsigned(1)), ("a", obj(vec![("y", Json::Null), ("b", Json::Null)]))]);
    let sorted = sorted_json(&v);
    assert_eq!(sorted.get_u64("z"), Some(1));
    assert_eq!(to_text(&sorted), "{\"a\":{\"b\":null,\"y\":null},\"z\":1}");
}

#[test]
fn fences_and_hands_are_told_apart() {
    let fence = CancelFence {
        command_id: "c".to_string(),
        task_id: 1,
        expected: Json::Null,
        targets: Vec::new(),
    };
    assert!(mf_kernel::run_dispatch::thaw_cancel(
        &ProjectStoreHandle::generate(),
        &fence.command_id,
        &fence.expected
    )
    .is_err());
    assert!(AgentRunHandle::parse("x").is_err());
}

#[test]
fn of_receipts_of_one_moment_the_first_written_goes_first() {
    let at = "2026-08-31T00:00:00+00:00";
    let project = ProjectStoreHandle::generate();
    let mut receipts = Table::new();
    let limits = RetentionLimits {
        receipt_max_rows_per_store: 10_000,
        ..RetentionLimits::default()
    };
    for n in 0..10_002 {
        receipts.put(ReceiptRow {
            command_id: format!("{}", 20_000 - n),
            semantic_digest: "d".to_string(),
            aggregate_handle: "a".to_string(),
            result: Json::Null,
            state: "applied".to_string(),
            created_at: at.to_string(),
            finalized_at: Some(at.to_string()),
        });
    }
    let mut targets =
        vec![TargetDatabase::project(project.as_str(), receipts, Vec::new()).unwrap()];
    let report = run_retention_gc(
        &mut Table::new(),
        &mut Vec::new(),
        &mut Vec::new(),
        &mut targets,
        &limits,
        &GcProtection::confirmed_empty(),
        &Moment {
            seconds: 1_788_220_800,
            nanos: 0,
        },
    )
    .unwrap();
    assert_eq!(report.receipts_deleted.len(), 1);
    assert_eq!(report.receipts_deleted[0].1, 2);
    let left = targets[0].receipt_ids();
    assert_eq!(left.len(), 10_000);
    assert_eq!(left[0], "19998");
    assert!(targets[0].receipt_row("20000").is_none());
    assert!(targets[0].receipt_row("19999").is_none());
}
