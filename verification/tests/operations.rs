//! Operations: steps in several stores that take effect together or not at all.

use mf_kernel::authority::{ControllerLease, InProcessAuthorizer};
use mf_kernel::command::{
    CommandEnvelope, CommandPayload, CommandProblem, CommandType, ServiceIdempotencyKey,
};
use mf_kernel::dispatch::{IntentRow, IntentState, TargetDatabase};
use mf_kernel::handles::{
    AggregateKind, AggregateRef, ClientId, CommandId, CommandTarget, Principal,
    ProjectStoreHandle, TargetStoreKind,
};
use mf_kernel::json::Json;
use mf_kernel::operation::{
    reconcile_operation, terminal_outcome_of, OperationCoordinator, OperationFaultPoint,
    OperationHandle, OperationKind, OperationOutcome, OperationPlan, OperationProblem,
    OperationRow, OperationState, PreparedEffects, SagaStepPlan, StepEffects, StepId, StepOutput,
    StepRole, StepState,
};
use mf_kernel::project_rows::ProjectRows;
use mf_kernel::reconcile::{
    is_reconciled_mark, mark_outbox_reconciled, reconcile_startup, run_retention_gc, GcProtection,
};
use mf_kernel::limits::RetentionLimits;
use mf_kernel::moment::Moment;
use mf_kernel::snapshot::operation_snapshot;
use mf_kernel::table::Table;
use mf_kernel::workflow_start::{
    drop_acceptance, lets_go, resume_workflow_start_operations, retry_after,
};

const NOW: &str = "2026-09-01T00:00:00+00:00";

fn empty_rows() -> ProjectRows {
    ProjectRows {
        collection_revision: 1,
        workflows: Vec::new(),
        tasks: Vec::new(),
        steps: Vec::new(),
        agent_runs: Vec::new(),
        sessions: Vec::new(),
        questions: Vec::new(),
        fences: Vec::new(),
    }
}

struct World {
    coordinator: OperationCoordinator,
    intents: Table<IntentRow>,
    operation: Option<OperationRow>,
    targets: Vec<TargetDatabase>,
    lease: ControllerLease,
    epoch: u64,
    project: ProjectStoreHandle,
    kind: OperationKind,
    plan: OperationPlan,
    id: CommandId,
}

fn target_of(project: &ProjectStoreHandle) -> CommandTarget {
    CommandTarget {
        store: TargetStoreKind::Project,
        store_handle: project.as_str().to_string(),
        aggregate: AggregateRef::new(AggregateKind::Project, project.as_str()).unwrap(),
    }
}

fn step(
    kind: &OperationKind,
    project: &ProjectStoreHandle,
    role: StepRole,
    compensates: Option<usize>,
) -> SagaStepPlan {
    SagaStepPlan::new(
        role,
        StepId::new(),
        CommandType::WorkflowRun,
        target_of(project),
        Vec::new(),
        &Json::Null,
        compensates,
        kind,
    )
    .unwrap()
}

fn world() -> World {
    let mut lease = ControllerLease::new();
    let epoch = lease.grant_controller("cl_a", "user").unwrap();
    let project = ProjectStoreHandle::generate();
    let kind = OperationKind::parse("workflow_start").unwrap();
    let plan = OperationPlan {
        kind: OperationKind::parse("workflow_start").unwrap(),
        steps: vec![
            step(&kind, &project, StepRole::Forward, None),
            step(&kind, &project, StepRole::Forward, None),
            step(&kind, &project, StepRole::Compensate, Some(0)),
        ],
    };
    World {
        coordinator: OperationCoordinator::new(
            ServiceIdempotencyKey::for_test(vec![3; 32]).unwrap(),
        ),
        intents: Table::new(),
        operation: None,
        targets: vec![
            TargetDatabase::project(project.as_str(), Table::new(), Vec::new()).unwrap(),
        ],
        lease,
        epoch,
        project,
        kind,
        plan,
        id: CommandId::new(),
    }
}

fn done() -> Result<StepOutput, CommandProblem> {
    Ok(StepOutput {
        result_revisions: Json::Object(vec![("revision".to_string(), Json::Unsigned(1))]),
        projection: Json::Null,
    })
}

impl World {
    fn envelope(&self) -> CommandEnvelope {
        CommandEnvelope::new(
            self.id.clone(),
            ClientId::parse("cl_a").unwrap(),
            Principal::parse("user").unwrap(),
            self.epoch,
            None,
            target_of(&self.project),
            Vec::new(),
            CommandType::WorkflowRun,
            CommandPayload::Plain(Json::Null),
        )
        .unwrap()
    }

    fn accept(&mut self) -> Result<OperationHandle, OperationProblem> {
        let e = self.envelope();
        let rows = empty_rows();
        let authorizer = InProcessAuthorizer {
            lease: &self.lease,
            rows: &rows,
        };
        self.coordinator.accept(
            &mut self.intents,
            &mut self.operation,
            &e,
            &self.plan,
            &mut self.targets[0],
            &authorizer,
            NOW,
        )
    }

    fn run(
        &mut self,
        outputs: Vec<Result<StepOutput, CommandProblem>>,
        fault: Option<OperationFaultPoint>,
    ) -> Result<OperationOutcome, OperationProblem> {
        let rows = empty_rows();
        let authorizer = InProcessAuthorizer {
            lease: &self.lease,
            rows: &rows,
        };
        let count = outputs.len();
        self.coordinator.run(
            self.operation.as_mut().unwrap(),
            &mut self.intents,
            &self.plan,
            &mut self.targets,
            &authorizer,
            &PreparedEffects { outputs },
            count,
            fault,
            NOW,
        )
    }
}

#[test]
fn an_operation_is_accepted_once_and_completes() {
    let mut w = world();
    let handle = w.accept().unwrap();
    assert!(w.accept().unwrap().same(&handle));
    assert_eq!(w.targets[0].outbox().len(), 1);
    let outcome = w.run(vec![done(), done(), done()], None).unwrap();
    assert!(matches!(outcome, OperationOutcome::Completed { compensated: false }));
    let row = w.operation.as_ref().unwrap();
    assert_eq!(row.record.state, OperationState::Completed);
    assert_eq!(row.steps[0].state, StepState::Succeeded);
    assert_eq!(row.record.progress.forward_succeeded, 2);
    assert!(matches!(
        terminal_outcome_of(&row.record),
        OperationOutcome::Completed { compensated: false }
    ));
    let shown = operation_snapshot(
        &vec![w.operation.take().unwrap()],
        &handle,
        None,
    )
    .unwrap();
    assert_eq!(shown.state, "completed");
    assert_eq!(shown.kind, "workflow_start");
    assert_eq!(shown.steps.len(), 3);
    assert_eq!(shown.steps[2].compensates, Some(0));
    assert!(operation_snapshot(&vec![], &handle, None).is_err());
}

#[test]
fn a_step_that_fails_undoes_what_took_effect() {
    let mut w = world();
    w.accept().unwrap();
    let outcome = w
        .run(
            vec![
                done(),
                Err(CommandProblem::RevisionConflict),
                done(),
            ],
            None,
        )
        .unwrap();
    assert!(matches!(outcome, OperationOutcome::Completed { compensated: true }));
    assert!(lets_go(&outcome));
    let row = w.operation.as_ref().unwrap();
    assert_eq!(row.record.progress.outcome, Some("compensated".to_string()));
    assert!(matches!(
        terminal_outcome_of(&row.record),
        OperationOutcome::Completed { compensated: true }
    ));
}

#[test]
fn what_took_effect_last_is_undone_first() {
    let mut w = world();
    w.plan.steps = vec![
        step(&w.kind, &w.project, StepRole::Forward, None),
        step(&w.kind, &w.project, StepRole::Forward, None),
        step(&w.kind, &w.project, StepRole::Forward, None),
        step(&w.kind, &w.project, StepRole::Compensate, Some(0)),
        step(&w.kind, &w.project, StepRole::Compensate, Some(1)),
    ];
    w.accept().unwrap();
    let failed = || Err(CommandProblem::RevisionConflict);
    let outcome = w
        .run(vec![done(), done(), failed(), done(), failed()], None)
        .unwrap();
    assert!(matches!(outcome, OperationOutcome::NeedsYou { .. }));
    let steps = &w.operation.as_ref().unwrap().steps;
    assert_eq!(steps[4].state, StepState::Failed);
    assert_eq!(steps[3].state, StepState::Pending);
}

#[test]
fn what_cannot_be_undone_needs_its_user() {
    let mut w = world();
    w.accept().unwrap();
    let refused = || Err(CommandProblem::RevisionConflict);
    let outcome = w.run(vec![done(), refused(), refused()], None).unwrap();
    assert!(matches!(outcome, OperationOutcome::NeedsYou { .. }));
    assert_eq!(
        w.operation.as_ref().unwrap().record.state,
        OperationState::NeedsYou
    );
}

#[test]
fn a_crash_behind_a_step_does_not_repeat_it() {
    let mut w = world();
    w.accept().unwrap();
    assert!(w
        .run(
            vec![done(), done(), done()],
            Some(OperationFaultPoint::AfterStepTargetCommit(0))
        )
        .is_err());
    let events = w.targets[0].outbox().len();
    let outcome = w.run(vec![done(), done(), done()], None).unwrap();
    assert!(matches!(outcome, OperationOutcome::Completed { compensated: false }));
    assert_eq!(w.targets[0].outbox().len(), events + 1);
}

#[test]
fn plans_are_checked() {
    let mut w = world();
    w.plan.steps.clear();
    assert!(matches!(
        w.accept(),
        Err(OperationProblem::InvalidPlan(m)) if m == "至少一个 forward step"
    ));
    let kind = w.kind.clone();
    let project = w.project.clone();
    w.plan.steps = vec![step(&kind, &project, StepRole::Forward, Some(0))];
    assert!(matches!(
        w.accept(),
        Err(OperationProblem::InvalidPlan(m)) if m == "forward step 不得声明 compensates"
    ));
    w.plan.steps = vec![
        step(&kind, &project, StepRole::Forward, None),
        step(&kind, &project, StepRole::Compensate, Some(7)),
    ];
    assert!(matches!(
        w.accept(),
        Err(OperationProblem::InvalidPlan(m))
            if m == "compensates 只能指向 forward step 下标(得到 7)"
    ));
    assert!(OperationKind::parse(" ").is_err());
}

#[test]
fn a_restart_settles_what_was_open() {
    let mut w = world();
    w.accept().unwrap();
    assert!(w
        .run(
            vec![done(), done(), done()],
            Some(OperationFaultPoint::AfterStepTargetCommit(0))
        )
        .is_err());
    let mut operations = vec![w.operation.take().unwrap()];
    let report = reconcile_startup(&mut w.intents, &mut operations, &mut w.targets, NOW).unwrap();
    let counted: usize = report.outbox_reconciled.iter().map(|row| row.1).sum();
    assert_eq!(counted, 2);
    assert!(w.targets[0].pending().is_empty());
    assert!(is_reconciled_mark(
        w.targets[0].outbox()[0].published_at.as_ref().unwrap()
    ));
    assert!(!is_reconciled_mark("2026"));
    let again = reconcile_startup(&mut w.intents, &mut operations, &mut w.targets, NOW).unwrap();
    assert!(again.outbox_reconciled.iter().all(|row| row.1 == 0));
    assert_eq!(mark_outbox_reconciled(&mut w.targets[0], NOW), 0);
}

#[test]
fn an_operation_without_its_receipt_never_began() {
    let mut w = world();
    w.accept().unwrap();
    let id = w.id.as_str().to_string();
    w.targets[0].drop_receipt(&id);
    let mut row = w.operation.take().unwrap();
    let outcome = reconcile_operation(&mut row, &mut w.intents, &w.targets, NOW)
        .unwrap()
        .unwrap();
    assert!(matches!(outcome, OperationOutcome::NotAccepted { .. }));
    assert_eq!(w.intents.get(&id).unwrap().state, IntentState::Revoked);
}

#[test]
fn open_starts_are_taken_up_again() {
    let mut w = world();
    let handle = w.accept().unwrap();
    let project = w.project.as_str().to_string();
    let mut rows = vec![w.operation.take().unwrap()];
    let found = resume_workflow_start_operations(&rows, "workflow_start", &project);
    assert_eq!(found.len(), 1);
    assert!(found[0].same(&handle));
    assert!(resume_workflow_start_operations(&rows, "other", &project).is_empty());
    assert!(resume_workflow_start_operations(&rows, "workflow_start", "proj_x").is_empty());
    rows[0].record.state = OperationState::Completed;
    assert!(resume_workflow_start_operations(&rows, "workflow_start", &project).is_empty());
    let name = CommandType::WorkflowRun.as_str();
    let id = w.id.as_str().to_string();
    drop_acceptance(&mut w.targets[0], name, "other");
    assert_eq!(w.targets[0].outbox().len(), 1);
    drop_acceptance(&mut w.targets[0], name, &id);
    assert!(w.targets[0].outbox().is_empty());
}

#[test]
fn a_start_is_tried_three_times() {
    assert_eq!(retry_after(0), Some((1, 50)));
    assert_eq!(retry_after(1), Some((2, 100)));
    assert_eq!(retry_after(2), None);
}

#[test]
fn what_is_held_is_not_thrown_away() {
    let mut w = world();
    w.accept().unwrap();
    w.run(vec![done(), done(), done()], None).unwrap();
    let mut operations = vec![w.operation.take().unwrap()];
    for row in operations.iter_mut() {
        row.record.updated_at = "2020-01-01T00:00:00+00:00".to_string();
    }
    let now = Moment {
        seconds: 1_788_000_000,
        nanos: 0,
    };
    let mut audit = Vec::new();
    let held = GcProtection::confirmed_empty()
        .protect_operation(&operations[0].record.operation_handle);
    run_retention_gc(
        &mut w.intents,
        &mut operations,
        &mut audit,
        &mut w.targets,
        &RetentionLimits::default(),
        &held,
        &now,
    )
    .unwrap();
    assert_eq!(operations.len(), 1);
}

#[test]
fn moments_are_printed_in_utc() {
    let m = Moment {
        seconds: 86_400,
        nanos: 0,
    };
    assert_eq!(m.text(), Some("1970-01-02T00:00:00+00:00".to_string()));
    let earlier = m.days_earlier(1).unwrap();
    assert_eq!(earlier.seconds, 0);
    assert!(Moment {
        seconds: i64::MIN,
        nanos: 0
    }
    .days_earlier(1)
    .is_none());
}

#[test]
fn states_and_roles_read_back() {
    for s in [
        OperationState::Accepted,
        OperationState::Running,
        OperationState::Completed,
        OperationState::Compensating,
        OperationState::NeedsYou,
        OperationState::Reconciling,
    ] {
        assert_eq!(OperationState::parse(s.as_str()).unwrap(), s);
    }
    assert!(OperationState::parse("x").is_err());
    assert!(StepRole::parse("x").is_err());
    assert!(StepState::parse("x").is_err());
    assert_eq!(StepRole::parse(StepRole::Compensate.as_str()).unwrap(), StepRole::Compensate);
    assert!(OperationHandle::parse("x").is_err());
    let h = OperationHandle::new();
    assert!(OperationHandle::parse(h.as_str()).unwrap().same(&h));
}

#[test]
fn a_planned_step_tells_what_it_is() {
    let project = ProjectStoreHandle::generate();
    let id = StepId::new();
    let text = id.as_str().to_string();
    let plan = SagaStepPlan::new(
        StepRole::Compensate,
        id,
        CommandType::WorkflowRun,
        target_of(&project),
        Vec::new(),
        &Json::Null,
        Some(0),
        &OperationKind::parse("test").unwrap(),
    )
    .unwrap();
    let (role, id, compensates) = plan.identity();
    assert_eq!(role, StepRole::Compensate);
    assert_eq!(id.as_str(), text);
    assert_eq!(compensates, Some(0));
    let (command, target, expected) = plan.task();
    assert_eq!(command, CommandType::WorkflowRun);
    assert_eq!(target.store_handle, project.as_str());
    assert!(expected.is_empty());
}

/// Effects that note when they are asked; the second one fails.
struct Noted {
    turns: std::cell::RefCell<Vec<usize>>,
}

impl StepEffects for Noted {
    fn run_step(&self, index: usize) -> Result<StepOutput, CommandProblem> {
        self.turns.borrow_mut().push(index);
        if index == 1 {
            Err(CommandProblem::RevisionConflict)
        } else {
            done()
        }
    }
}

#[test]
fn steps_run_when_their_turn_comes() {
    let mut w = world();
    w.accept().unwrap();
    let rows = empty_rows();
    let authorizer = InProcessAuthorizer {
        lease: &w.lease,
        rows: &rows,
    };
    let effects = Noted {
        turns: std::cell::RefCell::new(Vec::new()),
    };
    let outcome = w
        .coordinator
        .run(
            w.operation.as_mut().unwrap(),
            &mut w.intents,
            &w.plan,
            &mut w.targets,
            &authorizer,
            &effects,
            3,
            None,
            NOW,
        )
        .unwrap();
    assert!(matches!(outcome, OperationOutcome::Completed { compensated: true }));
    assert_eq!(*effects.turns.borrow(), vec![0, 1, 2]);
}
