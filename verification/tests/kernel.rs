//! The kernel as its clients see it: commands, events, snapshots, and the life of a
//! project.

use mf_kernel::command::{CommandProblem, ServiceIdempotencyKey};
use mf_kernel::dispatch::{CommandCoordinator, EffectOutput, FaultPoint, TargetDatabase};
use mf_kernel::handles::{
    AgentRunHandle, ClientId, CommandId, Principal, ProjectStoreHandle, WorkflowHandle,
};
use mf_kernel::journal::{EventJournal, EventSubscription};
use mf_kernel::kernel::InProcessCoreKernel;
use mf_kernel::lease::InputLeaseVerdict;
use mf_kernel::legacy_client::{legacy_workflow_locator, LegacyKernelClient};
use mf_kernel::limits::JournalLimits;
use mf_kernel::problem::KernelProblem;
use mf_kernel::project_registry::{RunCapabilityKey, RunCapabilityResolution, ServiceStore};
use mf_kernel::project_rows::{ProjectRows, WorkflowRecord};
use mf_kernel::projection::{AggregateRevision, RevisionVector};
use mf_kernel::run_command::{KernelCommand, KernelCommandRequest, KernelOutcome};
use mf_kernel::snapshot::SnapshotData;
use mf_kernel::table::Table;
use mf_kernel::workflow_effects::workflow_rename_effect;

const NOW: &str = "2026-09-01T00:00:00Z";

struct World {
    kernel: InProcessCoreKernel,
    rows: ProjectRows,
    project: ProjectStoreHandle,
    workflow: WorkflowHandle,
    epoch: u64,
}

fn workflow_rows(handle: &str, name: &str, presentation: i64) -> ProjectRows {
    ProjectRows {
        collection_revision: 1,
        workflows: vec![WorkflowRecord {
            public_handle: handle.to_string(),
            key: "build".to_string(),
            name: name.to_string(),
            nodes: Vec::new(),
            allow_unsafe_parallel: false,
            semantic_revision: 3,
            presentation_revision: presentation,
        }],
        tasks: Vec::new(),
        steps: Vec::new(),
        agent_runs: Vec::new(),
        sessions: Vec::new(),
        questions: Vec::new(),
        fences: Vec::new(),
    }
}

fn key() -> ServiceIdempotencyKey {
    ServiceIdempotencyKey::for_test(vec![5; 32]).unwrap()
}

fn world() -> World {
    let mut kernel = InProcessCoreKernel::new(
        CommandCoordinator::new(key()),
        EventJournal::with_limits(JournalLimits::default()),
        Table::new(),
    );
    let epoch = kernel.grant_controller("cl_a", "user").unwrap();
    let project = ProjectStoreHandle::generate();
    let target = TargetDatabase::project(project.as_str(), Table::new(), Vec::new()).unwrap();
    let mut operations = Vec::new();
    kernel
        .admit_project(
            &mut operations,
            project.clone(),
            1,
            target,
            &vec![true],
            NOW,
            1,
            &|_| true,
            &|_| true,
        )
        .unwrap();
    let workflow = WorkflowHandle::parse(&uuid::Uuid::now_v7().to_string()).unwrap();
    World {
        rows: workflow_rows(workflow.as_str(), "Build", 1),
        kernel,
        project,
        workflow,
        epoch,
    }
}

impl World {
    fn request(&self, id: CommandId, name: &str, expected: u64) -> KernelCommandRequest {
        KernelCommandRequest::new(
            id,
            ClientId::parse("cl_a").unwrap(),
            Principal::parse("user").unwrap(),
            self.epoch,
            KernelCommand::workflow_rename(
                self.project.clone(),
                self.workflow.clone(),
                name,
                expected,
            ),
        )
    }

    fn rename(
        &mut self,
        request: &KernelCommandRequest,
        name: &str,
        fault: Option<FaultPoint>,
        kept: bool,
    ) -> Result<KernelOutcome, KernelProblem> {
        let rows = workflow_rows(
            self.workflow.as_str(),
            &self.rows.workflows[0].name,
            self.rows.workflows[0].presentation_revision,
        );
        let mut changed: Option<WorkflowRecord> = None;
        let handle = self.workflow.as_str().to_string();
        let closed = vec![true; self.kernel.project_count()];
        let outcome = {
            let effect = || -> Result<EffectOutput, CommandProblem> {
                let (output, record) = workflow_rename_effect(&rows, &handle, name)?;
                changed = record;
                Ok(output)
            };
            self.kernel.dispatch_workflow_rename(
                request,
                &rows,
                &closed,
                effect,
                fault,
                NOW,
                1,
                || kept,
                || true,
            )
        };
        if let Some(record) = changed {
            self.rows.workflows[0] = record;
        }
        outcome
    }

    fn follow(&mut self) -> EventSubscription {
        let cursor = self.kernel.journal().cursor();
        let closed = vec![true; self.kernel.project_count()];
        self.kernel.subscribe_events(&closed, NOW, &cursor).unwrap()
    }
}

#[test]
fn a_rename_moves_the_presentation_and_is_told() {
    let mut w = world();
    let mut client = w.follow();
    let id = CommandId::new();
    let request = w.request(id.clone(), "Build 2", 1);
    let outcome = w.rename(&request, "Build 2", None, true).unwrap();
    assert!(matches!(
        outcome,
        KernelOutcome::Applied {
            revisions: RevisionVector {
                semantic_revision: 3,
                presentation_revision: 2
            },
            replayed: false
        }
    ));
    let events = w.kernel.poll_events(&mut client).unwrap();
    assert_eq!(events.len(), 1);
    assert_eq!(events[0].event_type, "workflow.rename");
    assert_eq!(events[0].seq, 1);
    assert_eq!(events[0].caused_by_command_id, Some(id.as_str().to_string()));
    assert!(matches!(
        events[0].aggregate_revision,
        AggregateRevision::Workflow(RevisionVector {
            semantic_revision: 3,
            presentation_revision: 2
        })
    ));
    assert!(w.kernel.poll_events(&mut client).unwrap().is_empty());
}

#[test]
fn a_retry_is_answered_from_the_receipt() {
    let mut w = world();
    let mut client = w.follow();
    let request = w.request(CommandId::new(), "Build 2", 1);
    w.rename(&request, "Build 2", None, true).unwrap();
    let again = w.rename(&request, "Build 2", None, true).unwrap();
    assert!(matches!(again, KernelOutcome::Applied { replayed: true, .. }));
    assert_eq!(w.kernel.poll_events(&mut client).unwrap().len(), 1);
    assert_eq!(w.rows.workflows[0].presentation_revision, 2);
}

#[test]
fn the_same_name_changes_nothing() {
    let mut w = world();
    let mut client = w.follow();
    let request = w.request(CommandId::new(), "Build", 1);
    let outcome = w.rename(&request, "Build", None, true).unwrap();
    assert!(matches!(
        outcome,
        KernelOutcome::Applied {
            revisions: RevisionVector {
                presentation_revision: 1,
                ..
            },
            ..
        }
    ));
    assert!(w.kernel.poll_events(&mut client).unwrap().is_empty());
}

#[test]
fn stale_revisions_blank_names_and_strangers_are_refused() {
    let mut w = world();
    let stale = w.request(CommandId::new(), "x", 7);
    assert!(matches!(
        w.rename(&stale, "x", None, true),
        Err(KernelProblem::RevisionConflict)
    ));
    let blank = w.request(CommandId::new(), "  ", 1);
    assert!(matches!(
        w.rename(&blank, "  ", None, true),
        Err(KernelProblem::InvalidEnvelope(m)) if m == "工作流名称不能为空"
    ));
    w.kernel.grant_controller("cl_b", "other").unwrap();
    let old = w.request(CommandId::new(), "x", 1);
    assert!(matches!(
        w.rename(&old, "x", None, true),
        Err(KernelProblem::ControllerLeaseExpired)
    ));
    assert_eq!(
        w.kernel.verify_controller_epoch(w.epoch),
        InputLeaseVerdict::ControllerTakeover
    );
    assert_eq!(
        w.kernel.verify_controller_epoch(w.kernel.controller_epoch()),
        InputLeaseVerdict::Current
    );
    assert!(matches!(
        w.kernel.grant_controller(" ", "u"),
        Err(KernelProblem::Internal(_))
    ));
}

#[test]
fn what_was_carried_out_without_an_answer_sends_clients_back() {
    let mut w = world();
    let mut client = w.follow();
    let request = w.request(CommandId::new(), "Build 2", 1);
    assert!(w
        .rename(&request, "Build 2", Some(FaultPoint::AfterTargetCommit), true)
        .is_err());
    assert!(matches!(
        w.kernel.poll_events(&mut client),
        Err(KernelProblem::ResyncRequired)
    ));
    let again = w.rename(&request, "Build 2", None, true).unwrap();
    assert!(matches!(again, KernelOutcome::Applied { replayed: true, .. }));
}

#[test]
fn what_cannot_be_marked_is_not_told() {
    let mut w = world();
    let mut client = w.follow();
    let before = w.kernel.journal().cursor();
    let request = w.request(CommandId::new(), "Build 2", 1);
    assert!(w.rename(&request, "Build 2", None, false).is_err());
    assert!(w.kernel.poll_events(&mut client).is_err());
    let after = w.kernel.journal().cursor();
    assert!(!before.stream_epoch.same(&after.stream_epoch));
    assert_eq!(w.kernel.journal().stats().publication_rotations, 1);
}

#[test]
fn a_closed_project_takes_no_commands() {
    let mut w = world();
    let mut store = ServiceStore::new();
    let root = "/p".to_string();
    let registered = store
        .register_project_path(Ok(root.clone()), &root, &root, NOW)
        .unwrap();
    let capability_key = RunCapabilityKey::for_test(vec![1; 32]).unwrap();
    let mut kernel = InProcessCoreKernel::new(
        CommandCoordinator::new(key()),
        EventJournal::with_limits(JournalLimits::default()),
        Table::new(),
    );
    let project = registered.project_handle.clone();
    let mut operations = Vec::new();
    kernel
        .admit_project(
            &mut operations,
            project.clone(),
            1,
            TargetDatabase::project(project.as_str(), Table::new(), Vec::new()).unwrap(),
            &vec![true],
            NOW,
            1,
            &|_| true,
            &|_| true,
        )
        .unwrap();
    let run = AgentRunHandle::parse(&uuid::Uuid::now_v7().to_string()).unwrap();
    let runs = vec![(run, "run-token".to_string())];
    kernel
        .detach_project(
            &vec![true],
            NOW,
            &mut store,
            &capability_key,
            &runs,
            project.as_str(),
        )
        .unwrap();
    assert_eq!(kernel.project_count(), 0);
    match store
        .resolve_run_capability(&capability_key, b"run-token")
        .unwrap()
    {
        RunCapabilityResolution::One(c) => assert_eq!(c.state.as_str(), "revoked"),
        _ => panic!("the token is known and revoked"),
    }
    assert!(matches!(
        kernel.detach_project(&vec![], NOW, &mut store, &capability_key, &runs, "other"),
        Err(KernelProblem::ResourceNotFound)
    ));
    let token = w.kernel.begin_project_close(&w.project.clone()).unwrap();
    let request = w.request(CommandId::new(), "x", 1);
    assert!(matches!(
        w.rename(&request, "x", None, true),
        Err(KernelProblem::ResourceNotFound)
    ));
    w.kernel.finalize_project_close(&token);
    assert_eq!(w.kernel.project_count(), 0);
}

#[test]
fn a_project_that_is_being_closed_is_not_opened_again() {
    let mut w = world();
    let project = w.project.clone();
    let _token = w.kernel.begin_project_close(&project).unwrap();
    let mut operations = Vec::new();
    let target = TargetDatabase::project(project.as_str(), Table::new(), Vec::new()).unwrap();
    assert!(matches!(
        w.kernel.admit_project(
            &mut operations,
            project,
            2,
            target,
            &vec![true],
            NOW,
            1,
            &|_| true,
            &|_| true
        ),
        Err(KernelProblem::ServiceUnavailable(m)) if m == "project_close_in_progress"
    ));
}

#[test]
fn shutdown_names_what_is_in_the_way() {
    let mut w = world();
    let quiet = w.kernel.assess_shutdown(&vec![Ok(0)]);
    assert!(quiet.safe_to_proceed);
    assert!(quiet.blockers.is_empty());
    let busy = w
        .kernel
        .assess_shutdown(&vec![Ok(2)]);
    assert!(!busy.safe_to_proceed);
    assert_eq!(busy.active_workflow_runs, 2);
    assert_eq!(
        busy.blockers,
        vec![format!("项目 {}:2 个活动 Workflow Run", w.project.as_str())]
    );
    let unread = w.kernel.assess_shutdown(&vec![Err("io".to_string())]);
    assert_eq!(
        unread.blockers,
        vec![format!("项目 {}:活动运行读取失败:io", w.project.as_str())]
    );
    let request = w.request(CommandId::new(), "x", 1);
    assert!(w
        .rename(&request, "x", Some(FaultPoint::AfterIntentReserve), true)
        .is_err());
    let open = w.kernel.assess_shutdown(&vec![Ok(0)]);
    assert_eq!(open.unfinished_intents, 1);
    assert_eq!(open.blockers, vec!["1 个未终结 command intent".to_string()]);
}

#[test]
fn the_workspace_shows_open_projects() {
    let mut w = world();
    let project = w.project.as_str().to_string();
    let names = vec![(project.clone(), Some("demo".to_string()))];
    let shown = w.kernel.workspace_snapshot(&vec![true], NOW, &names).unwrap();
    assert_eq!(shown.schema, "mf.snapshot.v1");
    match shown.data {
        SnapshotData::Workspace(v) => {
            assert_eq!(v.len(), 1);
            assert_eq!(v[0].project.as_str(), project);
            assert_eq!(v[0].name, "demo");
        }
        _ => panic!("the workspace was asked for"),
    }
    let unnamed = w
        .kernel
        .workspace_snapshot(&vec![true], NOW, &vec![(project, Some(String::new()))])
        .unwrap();
    match unnamed.data {
        SnapshotData::Workspace(v) => assert_eq!(v[0].name, "Project"),
        _ => panic!("the workspace was asked for"),
    }
}

#[test]
fn the_client_locates_and_renames() {
    let w = world();
    let client = LegacyKernelClient::new(
        Principal::parse("user").unwrap(),
        ClientId::parse("cl_a").unwrap(),
        w.epoch,
    );
    let request = client
        .rename_workflow(&w.rows, &w.project, "build", "  New  ")
        .unwrap();
    match request.command() {
        KernelCommand::WorkflowRename(c) => {
            assert_eq!(c.name, "New");
            assert_eq!(c.expected_presentation_revision, 1);
        }
        _ => panic!("a rename was asked for"),
    }
    assert!(matches!(
        client.rename_workflow(&w.rows, &w.project, "build", " "),
        Err(KernelProblem::InvalidEnvelope(_))
    ));
    assert!(matches!(
        client.rename_workflow(&w.rows, &w.project, "other", "x"),
        Err(KernelProblem::ResourceNotFound)
    ));
    let (handle, revision) = legacy_workflow_locator(&w.rows, "build").unwrap();
    assert_eq!(handle.as_str(), w.workflow.as_str());
    assert_eq!(revision, 1);
    let mut negative = workflow_rows(w.workflow.as_str(), "n", -1);
    assert!(matches!(
        legacy_workflow_locator(&negative, "build"),
        Err(KernelProblem::Internal(m)) if m == "presentation_revision 溢出"
    ));
    negative.workflows[0].public_handle = "x".to_string();
    assert!(legacy_workflow_locator(&negative, "build").is_err());
}

#[test]
fn what_waits_is_told_before_another_project_comes_in() {
    let mut w = world();
    let mut client = w.follow();
    let request = w.request(CommandId::new(), "Build 2", 1);
    assert!(w
        .rename(&request, "Build 2", Some(FaultPoint::AfterIntentReserve), true)
        .is_err());
    let second = ProjectStoreHandle::generate();
    let target = TargetDatabase::project(second.as_str(), Table::new(), Vec::new()).unwrap();
    let mut operations = Vec::new();
    w.kernel
        .admit_project(
            &mut operations,
            second,
            2,
            target,
            &vec![true, true],
            NOW,
            2,
            &|_| true,
            &|_| true,
        )
        .unwrap();
    assert_eq!(w.kernel.project_count(), 2);
    let assessed = w.kernel.assess_shutdown(&vec![Ok(0), Ok(0)]);
    assert!(assessed.safe_to_proceed, "what was open came to its end");
    assert!(w.kernel.poll_events(&mut client).unwrap().is_empty());
    assert!(w
        .rename(&request, "Build 2", None, true)
        .is_err(), "a revoked command stays revoked");
}

#[test]
fn only_what_is_asked_for_has_to_be_in_range() {
    let w = world();
    let client = LegacyKernelClient::new(
        Principal::parse("user").unwrap(),
        ClientId::parse("cl_a").unwrap(),
        w.epoch,
    );
    let mut rows = workflow_rows(w.workflow.as_str(), "n", 1);
    rows.workflows[0].semantic_revision = -1;
    assert!(client.rename_workflow(&rows, &w.project, "build", "x").is_ok());
    assert!(client
        .start_workflow_run(&rows, &w.project, "build", "goal")
        .is_err());
}
