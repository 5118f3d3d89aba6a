//! The kernel: the one way in for every command. A command is checked, carried out in
//! its store, and published; what clients see and what the stores hold never part.

use crate::authority::{
    expectations_met, CancelRecoveryAuthorizer, ControllerLease, ControllerView,
    InProcessAuthorizer,
};
use crate::command::{
    CommandEnvelope, CommandPayload, CommandProblem, CommandType, EnvelopeView, PayloadView,
    ProblemView,
};
use crate::dispatch::{
    dispatched, law_nothing_waits_once_closed_off, pending, AppliedView, CommandCoordinator,
    CommandOutcome, EffectOutput, FaultPoint, IntentRow, Intents, OutboxView, TargetDatabase,
    TargetTables,
};
use crate::handles::{
    expectations, outcome, project_handle_of, AgentRunHandle, AggregateKind, AggregateRef,
    AggregateView, CommandId, CommandTarget, ExpectedRevision, ProjectStoreHandle, TargetStoreKind,
    TargetView, WorkflowHandle, WorkflowRunHandle,
};
use crate::journal::{
    aborted, any_blocked, asks_mark, asks_reconcile, entry_view, event_views, gate_view, poll_view,
    publish_view, published, subscribe_view, EventJournal, EventSubscription, JournalView,
    RotationReason, SubscriptionView, RUN_ACTIONS_PENDING,
};
use crate::json::{fields, items_view, object, put, txt, Json, JsonView};
use crate::lease::{CommandAuthorizer, CommandPermit, InputLeaseVerdict};
use crate::operation::{
    accept_view, can_be_answers, operation_handle_of, opt_operation, run_view, stored_end, tables,
    targets_wf, Answers, terminal_outcome_of, EndView, OperationCoordinator, OperationFaultPoint,
    OperationHandle, OperationOutcome, OperationPlan, OperationProblem, OperationProblemView,
    OperationRow, OperationView, PlanView, RunView, StepEffects,
};
use crate::project_registry::{
    token_code, CapabilityView, RunCapability, RunCapabilityKey, ServiceStore, StoreView,
};
use crate::problem::{kernel_of_command, kernel_of_operation, KernelProblem, KernelProblemView};
use crate::project_rows::{fenced, ProjectRows, RowsView};
use crate::projection::{CursorView, EventCursor, EventEnvelope, EventView, SNAPSHOT_SCHEMA};
use crate::reconcile::{operations_view, reconcile_startup, restart_view, ReconcileReport};
use crate::run_actions::{
    drain_run_action_outbox, drained, target_has_pending_run_actions, waits_with_actions,
    has_actions, RunActionDelivery,
};
use crate::run_command::{
    expects, KernelCommand, KernelCommandRequest, KernelCommandView, KernelOutcome,
    KernelOutcomeView, ProjectCommandView, ProjectWorkflowCommand, RenameView, RequestView,
    WorkflowRenameCommand, WorkflowRunCommand,
};
use crate::run_control::{
    all_rows, applied_result, apply_run_control, authority_view, begin_run_control, begun_control,
    check_run_control, control_answer, control_carried, control_refusal, finish_run_control,
    finished_control, inside, resolve_authority, scan_tokens, token_hits, ControlOutcomeView,
    ControlPlan, LocationView, RunControlOutcome, StoreHit, TokenProblemView, TokenSettleProblem,
};
use crate::run_dispatch::{
    answer_run, begin_project_close, begin_run_command, close_begun, closing_project,
    fence_project_tokens, law_a_fenced_token_is_not_good, law_closing_comes_first, lemma_project_at,
    project_registration_for_close, recover_cancel, recovered, run_answer, run_begun, run_tokens,
    tokens_fenced, CloseView, ProjectCloseToken, RunPorts, RunStage, StageView,
};
use crate::run_effects::{ControlView, RunControlCommand};
use crate::shutdown::{
    activities, assess, assessment, count_under_way, reading, under_way, ActivityView,
    ProjectActivity, ShutdownAssessment,
};
use crate::snapshot::{
    names_view, operation_at, operation_shown, operation_snapshot, opt_handle, workspace,
    workspace_projects, DataView, SnapshotData, SnapshotEnvelope, SnapshotEnvelopeView,
    WorkspaceProject,
};
use crate::table::Table;
use crate::text::{blank, is_blank, same, trim, trim_text};
use crate::undelivered::{
    closes_no_actions, keeps_actions, leaves_nothing_to_do, lemma_aborted, lemma_accepted,
    lemma_closes_on, lemma_dispatched, lemma_drained, lemma_entry, lemma_given_up,
    lemma_never_closed_on, lemma_one_changes, lemma_only_told, lemma_publish, lemma_recovery_but,
    lemma_run_tells, lemma_same_rows, lemma_same_stores, lemma_without_acceptance, never_closed,
    never_lost, only_told, recoverable,
};
use crate::workflow_effects::{result_vector, revision_vector_of};
use crate::workflow_start::{
    drop_acceptance, handles_view, resume_workflow_start_operations, resumed, without_acceptance,
};
use vstd::prelude::*;
use vstd::string::*;

verus! {

/// A project that is open: which opening of its store it is, and whether it is being
/// closed.
#[derive(Debug)]
pub struct ProjectRegistration {
    pub project: ProjectStoreHandle,
    pub opening: u64,
    pub closing: bool,
}

/// A project that is open, as a value.
pub ghost struct RegistrationRow {
    pub project: Seq<char>,
    pub opening: u64,
    pub closing: bool,
}

impl View for ProjectRegistration {
    type V = RegistrationRow;

    open spec fn view(&self) -> RegistrationRow {
        RegistrationRow {
            project: self.project@,
            opening: self.opening,
            closing: self.closing,
        }
    }
}

/// Open projects, as values.
pub open spec fn registrations(v: Seq<ProjectRegistration>) -> Seq<RegistrationRow> {
    v.map_values(|r: ProjectRegistration| r@)
}

/// Where a project stands among the open ones.
pub open spec fn project_at(v: Seq<RegistrationRow>, project: Seq<char>, from: int) -> Option<int>
    decreases v.len() - from,
{
    if from >= v.len() {
        None
    } else if v[from].project == project {
        Some(from)
    } else {
        project_at(v, project, from + 1)
    }
}

/// Where a project stands that takes commands: it is open and not being closed.
pub open spec fn open_project(v: Seq<RegistrationRow>, project: Seq<char>) -> Result<
    int,
    KernelProblemView,
> {
    match project_at(v, project, 0) {
        None => Err(KernelProblemView::ResourceNotFound),
        Some(i) => if v[i].closing {
            Err(KernelProblemView::ResourceNotFound)
        } else {
            Ok(i)
        },
    }
}

/// Where a project stands among the open ones.
pub fn find_project(v: &Vec<ProjectRegistration>, project: &str) -> (r: Option<usize>)
    ensures
        match r {
            Some(i) => i < v@.len() && project_at(registrations(v@), project@, 0) == Some(i as int),
            None => project_at(registrations(v@), project@, 0) is None,
        },
{
    let ghost all = registrations(v@);
    let mut i: usize = 0;
    while i < v.len()
        invariant
            i <= v@.len(),
            all == registrations(v@),
            project_at(all, project@, 0) == project_at(all, project@, i as int),
        decreases v@.len() - i,
    {
        assert(all[i as int] == v@[i as int]@);
        if same(v[i].project.as_str(), project) {
            return Some(i);
        }
        i = i + 1;
    }
    None
}

/// Where a project stands that takes commands.
pub fn project_registration(v: &Vec<ProjectRegistration>, project: &ProjectStoreHandle) -> (r:
    Result<usize, KernelProblem>)
    ensures
        match r {
            Ok(i) => i < v@.len() && open_project(registrations(v@), project@) == Ok::<
                int,
                KernelProblemView,
            >(i as int),
            Err(p) => open_project(registrations(v@), project@) == Err::<int, KernelProblemView>(
                p@,
            ),
        },
{
    match find_project(v, project.as_str()) {
        None => Err(KernelProblem::ResourceNotFound),
        Some(i) => {
            assert(registrations(v@)[i as int] == v@[i as int]@);
            if v[i].closing {
                return Err(KernelProblem::ResourceNotFound);
            }
            Ok(i)
        },
    }
}

/// Whether a command has reached its store for good.
pub open spec fn committed(t: TargetTables, command_id: Seq<char>) -> bool {
    &&& t.receipts.contains_key(command_id)
    &&& t.receipts[command_id].state == "applied"@
    &&& t.receipts[command_id].finalized_at is Some
}

fn is_committed(target: &TargetDatabase, command_id: &str) -> (r: bool)
    requires
        target.wf(),
    ensures
        r == committed(target@, command_id@),
{
    match target.receipt_row(command_id) {
        Some(row) => same(row.state.as_str(), "applied") && row.finalized_at.is_some(),
        None => false,
    }
}

/// Everything that a command is carried out with.
pub ghost struct Carrying {
    pub intents: Intents,
    pub target: TargetTables,
    pub journal: JournalView,
}

/// What holds between a command's start and its end, given what came of it in its store:
/// what reached the store is published; what reached it without an answer is never
/// published, and sends every client back to a snapshot.
pub open spec fn told_of<M: FnOnce() -> bool, R: FnOnce() -> bool>(
    start: Carrying,
    e: EnvelopeView,
    now: Seq<char>,
    nanos: u64,
    mark: M,
    reconcile: R,
    done: (Intents, TargetTables, Result<AppliedView, ProblemView>),
    end: Carrying,
    answer: Result<AppliedView, KernelProblemView>,
) -> bool {
    &&& end.intents == done.0
    &&& match done.2 {
        Err(p) => if committed(done.1, e.command_id) {
            exists|reconciled: bool|
                reconcile.ensures((), reconciled) && {
                    let stop = #[trigger] aborted(
                        start.journal,
                        done.1,
                        RotationReason::Publication,
                        now,
                        reconciled,
                        end.journal.epoch,
                    );
                    &&& end.journal == stop.0
                    &&& end.target == stop.1
                    &&& answer == (match stop.2 {
                        Err(q) => Err::<AppliedView, KernelProblemView>(q),
                        Ok(_) => Err(kernel_of_command(p)),
                    })
                }
        } else {
            &&& end.journal == start.journal
            &&& end.target == done.1
            &&& answer == Err::<AppliedView, KernelProblemView>(kernel_of_command(p))
        },
        Ok(applied) => exists|told: Result<(), KernelProblemView>|
            #[trigger] published(
                (start.journal, done.1),
                now,
                nanos,
                mark,
                reconcile,
                (end.journal, end.target),
                told,
            ) && answer == (match told {
                Err(q) => Err::<AppliedView, KernelProblemView>(q),
                Ok(_) => Ok(applied),
            }),
    }
}

/// What holds between a command's start and its end, whatever its effect and its store
/// say.
pub open spec fn carried_out<
    F: FnOnce() -> Result<EffectOutput, CommandProblem>,
    M: FnOnce() -> bool,
    R: FnOnce() -> bool,
>(
    start: Carrying,
    e: EnvelopeView,
    digest: Result<Seq<char>, ProblemView>,
    admission: Result<(), ProblemView>,
    expectation: Result<(), ProblemView>,
    effect: F,
    fault: Option<FaultPoint>,
    now: Seq<char>,
    nanos: u64,
    mark: M,
    reconcile: R,
    end: Carrying,
    answer: Result<AppliedView, KernelProblemView>,
) -> bool {
    exists|done: (Intents, TargetTables, Result<AppliedView, ProblemView>)|
        #[trigger] dispatched(
            start.intents,
            start.target,
            e,
            digest,
            admission,
            expectation,
            effect,
            fault,
            now,
            done,
        ) && told_of(start, e, now, nanos, mark, reconcile, done, end, answer)
}

/// The view of what a command led to, as the kernel's callers see it.
pub open spec fn kernel_result(r: Result<CommandOutcome, KernelProblem>) -> Result<
    AppliedView,
    KernelProblemView,
> {
    match r {
        Ok(o) => Ok(o@),
        Err(p) => Err(p@),
    }
}

/// Carries a command that leaves nothing to do out in its store, and publishes what came of
/// it.
fn carry_out<
    A: CommandAuthorizer,
    F: FnOnce() -> Result<EffectOutput, CommandProblem>,
    M: FnOnce() -> bool,
    R: FnOnce() -> bool,
>(
    coordinator: &CommandCoordinator,
    intents: &mut Table<IntentRow>,
    target: &mut TargetDatabase,
    journal: &mut EventJournal,
    envelope: &CommandEnvelope,
    authorizer: &A,
    effect: F,
    fault: Option<FaultPoint>,
    now: &str,
    nanos: u64,
    mark: M,
    reconcile: R,
) -> (r: Result<CommandOutcome, KernelProblem>)
    requires
        old(intents).wf(),
        old(target).wf(),
        old(journal).wf(),
        old(journal)@.sound(),
        effect.requires(()),
        mark.requires(()),
        reconcile.requires(()),
        !waits_with_actions(old(target)@.outbox),
        leaves_nothing_to_do(effect),
    ensures
        final(intents).wf(),
        final(target).wf(),
        final(journal).wf(),
        final(journal)@.sound(),
        !waits_with_actions(final(target)@.outbox),
        final(target)@.store_key == old(target)@.store_key,
        closes_no_actions(old(target)@.outbox, final(target)@.outbox),
        carried_out(
            (Carrying {
                intents: old(intents)@,
                target: old(target)@,
                journal: old(journal)@,
            }),
            envelope@,
            envelope@.digest(coordinator.key()),
            authorizer.admission(envelope@.lease()),
            authorizer.expectation(envelope@.lease()),
            effect,
            fault,
            now@,
            nanos,
            mark,
            reconcile,
            (Carrying {
                intents: final(intents)@,
                target: final(target)@,
                journal: final(journal)@,
            }),
            kernel_result(r),
        ),
{
    let ghost start = Carrying { intents: intents@, target: target@, journal: journal@ };
    let done: Result<CommandOutcome, CommandProblem> = coordinator.dispatch_internal(
        intents,
        envelope,
        target,
        authorizer,
        effect,
        fault,
        now,
    );
    let ghost way = (intents@, target@, outcome(done));
    assert(dispatched(
        start.intents,
        start.target,
        envelope@,
        envelope@.digest(coordinator.key()),
        authorizer.admission(envelope@.lease()),
        authorizer.expectation(envelope@.lease()),
        effect,
        fault,
        now@,
        way,
    ));
    let ghost mid = target@;
    proof {
        lemma_dispatched(
            start.intents,
            start.target,
            envelope@,
            envelope@.digest(coordinator.key()),
            authorizer.admission(envelope@.lease()),
            authorizer.expectation(envelope@.lease()),
            effect,
            fault,
            now@,
            way,
        );
    }
    match done {
        Err(p) => {
            if is_committed(target, envelope.command_id().as_str()) {
                let stopped: Result<(), KernelProblem> = journal.abort_publication(
                    target,
                    now,
                    reconcile,
                );
                proof {
                    lemma_stopped(start.journal, mid, now@, journal@.epoch);
                    lemma_closes_on(start.target.outbox, mid.outbox, target@.outbox);
                }
                match stopped {
                    Ok(_) => {},
                    Err(q) => {
                        assert(told_of(
                            start,
                            envelope@,
                            now@,
                            nanos,
                            mark,
                            reconcile,
                            way,
                            (Carrying { intents: intents@, target: target@, journal: journal@ }),
                            Err(q@),
                        ));
                        return Err(q);
                    },
                }
            }
            assert(told_of(
                start,
                envelope@,
                now@,
                nanos,
                mark,
                reconcile,
                way,
                (Carrying { intents: intents@, target: target@, journal: journal@ }),
                Err(kernel_of_command(p@)),
            ));
            Err(KernelProblem::from_command(p))
        },
        Ok(applied) => {
            let told: Result<(), KernelProblem> = journal.publish_pending(
                target,
                now,
                nanos,
                mark,
                reconcile,
            );
            let ghost said = outcome(told);
            proof {
                lemma_told(start.journal, mid, now@, nanos, mark, reconcile, (journal@, target@), said);
                lemma_closes_on(start.target.outbox, mid.outbox, target@.outbox);
            }
            match told {
                Ok(_) => {
                    assert(said == Ok::<(), KernelProblemView>(()));
                    assert(told_of(
                        start,
                        envelope@,
                        now@,
                        nanos,
                        mark,
                        reconcile,
                        way,
                        (Carrying { intents: intents@, target: target@, journal: journal@ }),
                        Ok(applied@),
                    ));
                    Ok(applied)
                },
                Err(q) => {
                    assert(told_of(
                        start,
                        envelope@,
                        now@,
                        nanos,
                        mark,
                        reconcile,
                        way,
                        (Carrying { intents: intents@, target: target@, journal: journal@ }),
                        Err(q@),
                    ));
                    Err(q)
                },
            }
        },
    }
}

proof fn lemma_stopped(j: JournalView, t: TargetTables, now: Seq<char>, fresh: Seq<char>)
    requires
        !waits_with_actions(t.outbox),
    ensures
        forall|reconciled: bool|
            {
                let end = #[trigger] aborted(
                    j,
                    t,
                    RotationReason::Publication,
                    now,
                    reconciled,
                    fresh,
                );
                &&& end.1.store_key == t.store_key
                &&& closes_no_actions(t.outbox, end.1.outbox)
                &&& !waits_with_actions(end.1.outbox)
            },
{
    lemma_aborted(j, t, RotationReason::Publication, now, true, fresh);
    lemma_aborted(j, t, RotationReason::Publication, now, false, fresh);
}

proof fn lemma_told<M: FnOnce() -> bool, R: FnOnce() -> bool>(
    j: JournalView,
    t: TargetTables,
    now: Seq<char>,
    nanos: u64,
    mark: M,
    reconcile: R,
    end: (JournalView, TargetTables),
    told: Result<(), KernelProblemView>,
)
    requires
        !waits_with_actions(t.outbox),
        published((j, t), now, nanos, mark, reconcile, end, told),
    ensures
        end.1.store_key == t.store_key,
        closes_no_actions(t.outbox, end.1.outbox),
        keeps_actions(t.outbox, end.1.outbox),
        !waits_with_actions(end.1.outbox),
        end.0.blocked == j.blocked,
        forall|k: Seq<char>| #[trigger]
            end.0.poisoned.contains(k) ==> k == t.store_key || j.poisoned.contains(k),
{
    let (marked, reconciled) = choose|marked: bool, reconciled: bool|
        #[trigger] publish_view(j, t, now, nanos, marked, reconciled, end.0.epoch) == (
            end.0,
            end.1,
            told,
        );
    lemma_publish(j, t, now, nanos, marked, reconciled, end.0.epoch);
}

/// The kernel of one process: who may command, what is under way, what was published,
/// and the projects that are open, each with its store.
pub struct InProcessCoreKernel {
    coordinator: CommandCoordinator,
    lease: ControllerLease,
    intents: Table<IntentRow>,
    journal: EventJournal,
    projects: Vec<ProjectRegistration>,
    targets: Vec<TargetDatabase>,
}

/// The kernel of one process, as a value.
pub ghost struct KernelView {
    pub key: Seq<u8>,
    pub lease: ControllerView,
    pub intents: Intents,
    pub journal: JournalView,
    pub projects: Seq<RegistrationRow>,
    pub targets: Seq<TargetTables>,
}

impl View for InProcessCoreKernel {
    type V = KernelView;

    closed spec fn view(&self) -> KernelView {
        KernelView {
            key: self.coordinator.key(),
            lease: self.lease@,
            intents: self.intents@,
            journal: self.journal@,
            projects: registrations(self.projects@),
            targets: tables(self.targets@),
        }
    }
}

impl KernelView {
    /// What a command on the project at a place is carried out with.
    pub open spec fn carrying(self, at: int) -> Carrying {
        Carrying { intents: self.intents, target: self.targets[at], journal: self.journal }
    }

    /// The kernel after a command on the project at a place.
    pub open spec fn carried(self, at: int, c: Carrying) -> KernelView {
        KernelView {
            intents: c.intents,
            journal: c.journal,
            targets: self.targets.update(at, c.target),
            ..self
        }
    }

    /// The invariant: no project is open twice, each has its own store, and a store that
    /// leaves something to do is closed to everything else until it is done, and does not
    /// have to be recovered.
    pub open spec fn guarded(self) -> bool {
        &&& self.projects.len() == self.targets.len()
        &&& forall|i: int|
            0 <= i < self.targets.len() ==> (#[trigger] self.targets[i]).store_key == "project:"@
                + self.projects[i].project
        &&& forall|i: int, j: int|
            0 <= i < j < self.projects.len() ==> (#[trigger] self.projects[i]).project != (
            #[trigger] self.projects[j]).project
        &&& forall|i: int|
            0 <= i < self.targets.len() && waits_with_actions((#[trigger] self.targets[i]).outbox)
                ==> self.journal.blocked.contains(self.targets[i].store_key)
                && !self.journal.poisoned.contains(self.targets[i].store_key)
    }
}

/// The journal after a store was written to: closed to the store where it now leaves
/// something to do.
pub open spec fn held_back(j: JournalView, t: TargetTables) -> JournalView {
    if waits_with_actions(t.outbox) {
        j.blocked_by(t.store_key)
    } else {
        j
    }
}

proof fn lemma_own_store(k: KernelView, i: int, j: int)
    requires
        k.guarded(),
        0 <= i < k.targets.len(),
        0 <= j < k.targets.len(),
        i != j,
    ensures
        k.targets[i].store_key != k.targets[j].store_key,
{
    let a = k.projects[i].project;
    let b = k.projects[j].project;
    let head = "project:"@;
    assert(k.targets[i].store_key == head + a);
    assert(k.targets[j].store_key == head + b);
    if head + a == head + b {
        assert((head + a).skip(head.len() as int) =~= a);
        assert((head + b).skip(head.len() as int) =~= b);
    }
}

proof fn lemma_guard_kept(k: KernelView, end: KernelView)
    requires
        k.guarded(),
        end.projects.len() == k.projects.len(),
        forall|i: int|
            0 <= i < k.projects.len() ==> (#[trigger] end.projects[i]).project
                == k.projects[i].project,
        never_closed(k.targets, end.targets),
        forall|i: int|
            0 <= i < end.targets.len() && waits_with_actions((#[trigger] end.targets[i]).outbox)
                ==> end.journal.blocked.contains(end.targets[i].store_key)
                && !end.journal.poisoned.contains(end.targets[i].store_key),
    ensures
        end.guarded(),
{
    assert forall|i: int| 0 <= i < end.targets.len() implies (#[trigger] end.targets[i]).store_key
        == "project:"@ + end.projects[i].project by {
        assert(k.targets[i].store_key == "project:"@ + k.projects[i].project);
        assert(end.projects[i].project == k.projects[i].project);
    }
    assert forall|i: int, j: int| 0 <= i < j < end.projects.len() implies (
    #[trigger] end.projects[i]).project != (#[trigger] end.projects[j]).project by {
        assert(k.projects[i].project != k.projects[j].project);
    }
}

/// One store changes, and the journal closes or opens no other and has no other to recover.
proof fn lemma_guard_at(k: KernelView, at: int, c: Carrying)
    requires
        k.guarded(),
        0 <= at < k.targets.len(),
        c.target.store_key == k.targets[at].store_key,
        closes_no_actions(k.targets[at].outbox, c.target.outbox),
        waits_with_actions(c.target.outbox) ==> c.journal.blocked.contains(c.target.store_key)
            && !c.journal.poisoned.contains(c.target.store_key),
        forall|key: Seq<char>|
            key != c.target.store_key && #[trigger] k.journal.blocked.contains(key)
                ==> c.journal.blocked.contains(key),
        forall|key: Seq<char>|
            key != c.target.store_key && #[trigger] c.journal.poisoned.contains(key)
                ==> k.journal.poisoned.contains(key),
    ensures
        k.carried(at, c).guarded(),
        never_closed(k.targets, k.carried(at, c).targets),
{
    let end = k.carried(at, c);
    lemma_one_changes(k.targets, at, c.target);
    assert forall|i: int|
        0 <= i < end.targets.len() && waits_with_actions(
            (#[trigger] end.targets[i]).outbox,
        ) implies end.journal.blocked.contains(end.targets[i].store_key)
        && !end.journal.poisoned.contains(end.targets[i].store_key) by {
        if i != at {
            lemma_own_store(k, i, at);
            assert(end.targets[i] == k.targets[i]);
            assert(k.journal.blocked.contains(k.targets[i].store_key));
        }
    }
    lemma_guard_kept(k, end);
}

/// The way in for what is left to do keeps the invariant, and takes none of it away.
proof fn lemma_let_in(k: KernelView, closed: Seq<bool>, now: Seq<char>)
    requires
        k.guarded(),
    ensures
        let_in(k, closed, now).0.guarded(),
        let_in(k, closed, now).0.targets.len() == k.targets.len(),
        never_lost(k.targets, let_in(k, closed, now).0.targets),
        let_in(k, closed, now).1 is Ok ==> let_in(k, closed, now).0.journal.poisoned.len() == 0,
{
    let end = let_in(k, closed, now).0;
    assert(recoverable(k.journal, k.targets));
    lemma_entry(k.journal, k.targets, closed, now);
    assert forall|i: int|
        0 <= i < end.targets.len() && waits_with_actions(
            (#[trigger] end.targets[i]).outbox,
        ) implies end.journal.blocked.contains(end.targets[i].store_key)
        && !end.journal.poisoned.contains(end.targets[i].store_key) by {
        assert(waits_with_actions(k.targets[i].outbox));
        assert(end.targets[i].store_key == k.targets[i].store_key);
    }
    lemma_guard_kept(k, end);
}

/// Behind the way in for everything else no store leaves something to do.
proof fn lemma_gate(k: KernelView, closed: Seq<bool>, now: Seq<char>)
    requires
        k.guarded(),
    ensures
        in_order(k, closed, now).0.guarded(),
        in_order(k, closed, now).0.targets.len() == k.targets.len(),
        never_lost(k.targets, in_order(k, closed, now).0.targets),
        in_order(k, closed, now).1 is Ok ==> {
            let ready = in_order(k, closed, now).0;
            &&& ready.journal.poisoned.len() == 0
            &&& forall|i: int|
                0 <= i < ready.targets.len() ==> !waits_with_actions(
                    (#[trigger] ready.targets[i]).outbox,
                )
        },
{
    lemma_let_in(k, closed, now);
    let ready = in_order(k, closed, now).0;
    if in_order(k, closed, now).1 is Ok {
        assert(!any_blocked(ready.journal, ready.targets));
        assert forall|i: int| 0 <= i < ready.targets.len() implies !waits_with_actions(
            (#[trigger] ready.targets[i]).outbox,
        ) by {
            assert(!ready.journal.blocked.contains(ready.targets[i].store_key));
        }
    }
}

/// Once nothing is left to do, a change that leaves nothing to do loses nothing.
proof fn lemma_nothing_to_lose(
    a: Seq<TargetTables>,
    b: Seq<TargetTables>,
    c: Seq<TargetTables>,
)
    requires
        never_lost(a, b),
        never_closed(b, c),
        forall|i: int| 0 <= i < b.len() ==> !waits_with_actions((#[trigger] b[i]).outbox),
    ensures
        never_lost(a, c),
{
    lemma_never_closed_on(a, b, c);
    assert forall|i: int| 0 <= i < a.len() implies keeps_actions(
        (#[trigger] a[i]).outbox,
        c[i].outbox,
    ) by {
        let x = a[i].outbox;
        let y = b[i].outbox;
        assert(keeps_actions(x, y));
        assert(!waits_with_actions(y));
        assert forall|r: int|
            0 <= r < x.len() && (#[trigger] x[r]).published_at is None && has_actions(
                x[r].event,
            ) implies c[i].outbox.contains(x[r]) by {
            let m = choose|m: int| 0 <= m < y.len() && y[m] == x[r];
            assert(has_actions(y[m].event));
        }
    }
}

/// The command that a rename becomes.
pub open spec fn rename_envelope(request: RequestView, c: RenameView) -> EnvelopeView {
    EnvelopeView {
        command_id: request.command_id,
        client_id: request.client_id,
        principal: request.principal,
        controller_epoch: request.controller_epoch,
        root_epoch: None,
        target: TargetView {
            store: TargetStoreKind::Project,
            store_handle: c.project,
            aggregate: AggregateView { kind: AggregateKind::ProjectWorkflow, handle: c.workflow },
        },
        expected: seq![
            expects(
                AggregateKind::ProjectWorkflow,
                c.workflow,
                "presentation_revision"@,
                c.expected_presentation_revision,
            ),
        ],
        command_type: CommandType::WorkflowRename,
        payload: PayloadView::Plain(
            JsonView::Object(seq![("name"@, JsonView::Text(trim_text(c.name)))]),
        ),
    }
}

/// The command that a change of workflows becomes.
pub open spec fn workflow_envelope(request: RequestView, c: ProjectCommandView) -> EnvelopeView {
    EnvelopeView {
        command_id: request.command_id,
        client_id: request.client_id,
        principal: request.principal,
        controller_epoch: request.controller_epoch,
        root_epoch: None,
        target: TargetView {
            store: TargetStoreKind::Project,
            store_handle: c.project(),
            aggregate: c.target(),
        },
        expected: c.expected(),
        command_type: c.command_type(),
        payload: PayloadView::Plain(c.payload()),
    }
}

/// A command on a project's workflows from its parts.
pub open spec fn built(r: Result<CommandEnvelope, KernelProblem>, e: EnvelopeView) -> bool {
    match r {
        Ok(v) => e.problem() is None && v@ == e,
        Err(p) => e.problem() is Some && p@ == kernel_of_command(e.problem()->0),
    }
}

fn build_rename_envelope(request: &KernelCommandRequest, c: &WorkflowRenameCommand) -> (r: Result<
    CommandEnvelope,
    KernelProblem,
>)
    ensures
        built(r, rename_envelope(request@, c@)),
{
    let name: String = trim(c.name.as_str());
    let mut f: Vec<(String, Json)> = fields();
    put(&mut f, "name", txt(name.as_str()));
    let payload: Json = object(f);
    let aggregate: AggregateRef = AggregateRef {
        kind: AggregateKind::ProjectWorkflow,
        handle: c.workflow.as_str().to_owned(),
    };
    let mut expected: Vec<ExpectedRevision> = Vec::new();
    let one: ExpectedRevision = ExpectedRevision::one(
        aggregate.clone(),
        "presentation_revision",
        c.expected_presentation_revision,
    );
    expected.push(one);
    proof {
        let e = rename_envelope(request@, c@);
        assert(payload@->Object_0 =~= e.payload->Plain_0->Object_0);
        assert(expectations(expected@) =~= e.expected);
    }
    match CommandEnvelope::new(
        request.command_id().clone(),
        request.client_id().clone(),
        request.principal().clone(),
        request.controller_epoch(),
        None,
        CommandTarget {
            store: TargetStoreKind::Project,
            store_handle: c.project.as_str().to_owned(),
            aggregate,
        },
        expected,
        CommandType::WorkflowRename,
        CommandPayload::Plain(payload),
    ) {
        Ok(e) => Ok(e),
        Err(p) => Err(KernelProblem::from_command(p)),
    }
}

fn build_workflow_envelope(request: &KernelCommandRequest, c: &ProjectWorkflowCommand) -> (r:
    Result<CommandEnvelope, KernelProblem>)
    ensures
        built(r, workflow_envelope(request@, c@)),
{
    match CommandEnvelope::new(
        request.command_id().clone(),
        request.client_id().clone(),
        request.principal().clone(),
        request.controller_epoch(),
        None,
        CommandTarget {
            store: TargetStoreKind::Project,
            store_handle: c.project().as_str().to_owned(),
            aggregate: c.target(),
        },
        c.expected_revisions(),
        c.command_type(),
        CommandPayload::Plain(c.payload()),
    ) {
        Ok(e) => Ok(e),
        Err(p) => Err(KernelProblem::from_command(p)),
    }
}

/// The view of what the kernel answers.
pub open spec fn kernel_answer(r: Result<KernelOutcome, KernelProblem>) -> Result<
    KernelOutcomeView,
    KernelProblemView,
> {
    match r {
        Ok(o) => Ok(o@),
        Err(p) => Err(p@),
    }
}

/// What the kernel answers to a change of workflows, by what came of it.
pub open spec fn workflow_answer(r: Result<AppliedView, KernelProblemView>) -> Result<
    KernelOutcomeView,
    KernelProblemView,
> {
    match r {
        Err(p) => Err(p),
        Ok(a) => match result_vector(a.result) {
            Err(p) => Err(p),
            Ok(revisions) => Ok(
                KernelOutcomeView::Applied { revisions, replayed: a.replayed },
            ),
        },
    }
}

fn answer_workflow(done: Result<CommandOutcome, KernelProblem>) -> (r: Result<
    KernelOutcome,
    KernelProblem,
>)
    ensures
        kernel_answer(r) == workflow_answer(kernel_result(done)),
{
    match done {
        Err(p) => Err(p),
        Ok(CommandOutcome::Applied { result_revisions, replayed }) => match revision_vector_of(
            &result_revisions,
        ) {
            Err(p) => Err(p),
            Ok(revisions) => Ok(KernelOutcome::Applied { revisions, replayed }),
        },
    }
}

/// What holds between a change of workflows and its answer. It is refused before
/// anything happens where the kernel is not in order, its project takes no commands, or
/// it is no command; otherwise it is carried out and published.
pub open spec fn workflow_dispatched<
    F: FnOnce() -> Result<EffectOutput, CommandProblem>,
    M: FnOnce() -> bool,
    R: FnOnce() -> bool,
>(
    start: KernelView,
    project: Seq<char>,
    e: EnvelopeView,
    rows: RowsView,
    closed: Seq<bool>,
    effect: F,
    fault: Option<FaultPoint>,
    now: Seq<char>,
    nanos: u64,
    mark: M,
    reconcile: R,
    end: KernelView,
    answer: Result<KernelOutcomeView, KernelProblemView>,
) -> bool {
    let gate = gate_view(start.journal, start.targets, closed, now);
    let ready = KernelView { journal: gate.0, targets: gate.1, ..start };
    match (gate.2, open_project(start.projects, project), e.problem()) {
        (Err(p), _, _) => end == ready && answer == Err::<KernelOutcomeView, KernelProblemView>(p),
        (Ok(_), Err(p), _) => end == ready && answer == Err::<
            KernelOutcomeView,
            KernelProblemView,
        >(p),
        (Ok(_), Ok(_), Some(p)) => end == ready && answer == Err::<
            KernelOutcomeView,
            KernelProblemView,
        >(kernel_of_command(p)),
        (Ok(_), Ok(at), None) => exists|c: Carrying, done: Result<AppliedView, KernelProblemView>|
            end == ready.carried(at, c) && answer == workflow_answer(done)
                && #[trigger] carried_out(
                ready.carrying(at),
                e,
                e.digest(start.key),
                start.lease.admits(e.lease()),
                expectations_met(rows, e.target.store_handle, e.expected, 0),
                effect,
                fault,
                now,
                nanos,
                mark,
                reconcile,
                c,
                done,
            ),
    }
}

impl InProcessCoreKernel {
    /// The part of the invariant that the value does not show.
    pub closed spec fn wf(self) -> bool {
        &&& self.intents.wf()
        &&& self.journal.wf()
        &&& self.journal@.sound()
        &&& targets_wf(self.targets@)
        &&& self.projects@.len() == self.targets@.len()
        &&& self@.guarded()
    }

    /// A kernel without projects.
    pub fn new(
        coordinator: CommandCoordinator,
        journal: EventJournal,
        intents: Table<IntentRow>,
    ) -> (r:
        Self)
        requires
            journal.wf(),
            journal@.sound(),
            intents.wf(),
        ensures
            r.wf(),
            r@.projects.len() == 0,
            r@.targets.len() == 0,
            r@.journal == journal@,
            r@.intents == intents@,
            r@.key == coordinator.key(),
            r@.lease == (ControllerView { epoch: 0, controller: None, principal: None }),
    {
        InProcessCoreKernel {
            coordinator,
            lease: ControllerLease::new(),
            intents,
            journal,
            projects: Vec::new(),
            targets: Vec::new(),
        }
    }

    /// How many projects are open.
    pub fn project_count(&self) -> (r: usize)
        ensures
            r == self@.projects.len(),
    {
        self.projects.len()
    }

    fn dispatch_workflow<
        F: FnOnce() -> Result<EffectOutput, CommandProblem>,
        M: FnOnce() -> bool,
        R: FnOnce() -> bool,
    >(
        &mut self,
        project: &ProjectStoreHandle,
        envelope: Result<CommandEnvelope, KernelProblem>,
        rows: &ProjectRows,
        closed: &Vec<bool>,
        effect: F,
        fault: Option<FaultPoint>,
        now: &str,
        nanos: u64,
        mark: M,
        reconcile: R,
        Ghost(e): Ghost<EnvelopeView>,
    ) -> (r: Result<KernelOutcome, KernelProblem>)
        requires
            old(self).wf(),
            closed@.len() == old(self)@.projects.len(),
            effect.requires(()),
            leaves_nothing_to_do(effect),
            mark.requires(()),
            reconcile.requires(()),
            built(envelope, e),
        ensures
            final(self).wf(),
            never_lost(old(self)@.targets, final(self)@.targets),
            workflow_dispatched(
                old(self)@,
                project@,
                e,
                rows@,
                closed@,
                effect,
                fault,
                now@,
                nanos,
                mark,
                reconcile,
                final(self)@,
                kernel_answer(r),
            ),
    {
        let ghost start = self@;
        proof {
            lemma_gate(start, closed@, now@);
        }
        match self.journal.linearize(&mut self.targets, closed, now) {
            Ok(_) => {},
            Err(p) => {
                return Err(p);
            },
        }
        let ghost ready = self@;
        let at: usize = match project_registration(&self.projects, project) {
            Ok(at) => at,
            Err(p) => {
                return Err(p);
            },
        };
        let envelope: CommandEnvelope = match envelope {
            Ok(v) => v,
            Err(p) => {
                return Err(p);
            },
        };
        let authorizer: InProcessAuthorizer = InProcessAuthorizer { lease: &self.lease, rows };
        let ghost had = self.targets@;
        assert(had[at as int].wf());
        assert(ready.targets[at as int] == had[at as int]@);
        let done: Result<CommandOutcome, KernelProblem> = carry_out(
            &self.coordinator,
            &mut self.intents,
            &mut self.targets[at],
            &mut self.journal,
            &envelope,
            &authorizer,
            effect,
            fault,
            now,
            nanos,
            mark,
            reconcile,
        );
        proof {
            assert(tables(self.targets@) =~= tables(had).update(
                at as int,
                self.targets@[at as int]@,
            ));
            let c = Carrying {
                intents: self.intents@,
                target: self.targets@[at as int]@,
                journal: self.journal@,
            };
            assert(ready.carrying(at as int).target == had[at as int]@);
            assert(self@ == ready.carried(at as int, c));
            lemma_one_changes(ready.targets, at as int, c.target);
            lemma_guard_kept(ready, self@);
            lemma_nothing_to_lose(start.targets, ready.targets, self@.targets);
            assert(carried_out(
                ready.carrying(at as int),
                e,
                e.digest(start.key),
                start.lease.admits(e.lease()),
                expectations_met(rows@, e.target.store_handle, e.expected, 0),
                effect,
                fault,
                now@,
                nanos,
                mark,
                reconcile,
                c,
                kernel_result(done),
            ));
        }
        answer_workflow(done)
    }

    /// Renames a workflow. An empty name is refused.
    pub fn dispatch_workflow_rename<
        F: FnOnce() -> Result<EffectOutput, CommandProblem>,
        M: FnOnce() -> bool,
        R: FnOnce() -> bool,
    >(
        &mut self,
        request: &KernelCommandRequest,
        rows: &ProjectRows,
        closed: &Vec<bool>,
        effect: F,
        fault: Option<FaultPoint>,
        now: &str,
        nanos: u64,
        mark: M,
        reconcile: R,
    ) -> (r: Result<KernelOutcome, KernelProblem>)
        requires
            old(self).wf(),
            closed@.len() == old(self)@.projects.len(),
            effect.requires(()),
            leaves_nothing_to_do(effect),
            mark.requires(()),
            reconcile.requires(()),
        ensures
            final(self).wf(),
            never_lost(old(self)@.targets, final(self)@.targets),
            match request@.command {
                KernelCommandView::WorkflowRename(c) => if is_blank(c.name) {
                    final(self)@ == old(self)@ && kernel_answer(r) == Err::<
                        KernelOutcomeView,
                        KernelProblemView,
                    >(KernelProblemView::InvalidEnvelope("工作流名称不能为空"@))
                } else {
                    workflow_dispatched(
                        old(self)@,
                        c.project,
                        rename_envelope(request@, c),
                        rows@,
                        closed@,
                        effect,
                        fault,
                        now@,
                        nanos,
                        mark,
                        reconcile,
                        final(self)@,
                        kernel_answer(r),
                    )
                },
                _ => final(self)@ == old(self)@ && kernel_answer(r) == Err::<
                    KernelOutcomeView,
                    KernelProblemView,
                >(KernelProblemView::InvalidEnvelope("rename dispatcher 收到其它命令"@)),
            },
    {
        let c: &WorkflowRenameCommand = match request.command() {
            KernelCommand::WorkflowRename(c) => c,
            _ => {
                proof {
                    lemma_same_stores(self@.targets);
                }
                return Err(KernelProblem::invalid("rename dispatcher 收到其它命令"));
            },
        };
        if blank(c.name.as_str()) {
            proof {
                lemma_same_stores(self@.targets);
            }
            return Err(KernelProblem::invalid("工作流名称不能为空"));
        }
        let envelope: Result<CommandEnvelope, KernelProblem> = build_rename_envelope(request, c);
        self.dispatch_workflow(
            &c.project,
            envelope,
            rows,
            closed,
            effect,
            fault,
            now,
            nanos,
            mark,
            reconcile,
            Ghost(rename_envelope(request@, c@)),
        )
    }

    /// Changes a project's workflows.
    pub fn dispatch_project_workflow<
        F: FnOnce() -> Result<EffectOutput, CommandProblem>,
        M: FnOnce() -> bool,
        R: FnOnce() -> bool,
    >(
        &mut self,
        request: &KernelCommandRequest,
        rows: &ProjectRows,
        closed: &Vec<bool>,
        effect: F,
        now: &str,
        nanos: u64,
        mark: M,
        reconcile: R,
    ) -> (r: Result<KernelOutcome, KernelProblem>)
        requires
            old(self).wf(),
            closed@.len() == old(self)@.projects.len(),
            effect.requires(()),
            leaves_nothing_to_do(effect),
            mark.requires(()),
            reconcile.requires(()),
        ensures
            final(self).wf(),
            never_lost(old(self)@.targets, final(self)@.targets),
            match request@.command {
                KernelCommandView::ProjectWorkflow(c) => match workflow_envelope(
                    request@,
                    c,
                ).problem() {
                    Some(p) => final(self)@ == old(self)@ && kernel_answer(r) == Err::<
                        KernelOutcomeView,
                        KernelProblemView,
                    >(kernel_of_command(p)),
                    None => workflow_dispatched(
                        old(self)@,
                        c.project(),
                        workflow_envelope(request@, c),
                        rows@,
                        closed@,
                        effect,
                        None,
                        now@,
                        nanos,
                        mark,
                        reconcile,
                        final(self)@,
                        kernel_answer(r),
                    ),
                },
                _ => final(self)@ == old(self)@ && kernel_answer(r) == Err::<
                    KernelOutcomeView,
                    KernelProblemView,
                >(KernelProblemView::InvalidEnvelope("workflow dispatcher 收到其它命令"@)),
            },
    {
        let c: &ProjectWorkflowCommand = match request.command() {
            KernelCommand::ProjectWorkflow(c) => c,
            _ => {
                proof {
                    lemma_same_stores(self@.targets);
                }
                return Err(KernelProblem::invalid("workflow dispatcher 收到其它命令"));
            },
        };
        proof {
            lemma_same_stores(self@.targets);
        }
        let envelope: CommandEnvelope = match build_workflow_envelope(request, c) {
            Ok(e) => e,
            Err(p) => {
                return Err(p);
            },
        };
        self.dispatch_workflow(
            c.project(),
            Ok(envelope),
            rows,
            closed,
            effect,
            None,
            now,
            nanos,
            mark,
            reconcile,
            Ghost(workflow_envelope(request@, c@)),
        )
    }
}

/// An answer that may be there, as a value.
pub open spec fn opt_applied(o: Option<CommandOutcome>) -> Option<AppliedView> {
    match o {
        Some(o) => Some(o@),
        None => None,
    }
}

/// What holds between a command on a run that was prepared and its answer: it is carried
/// out, or answered from its receipt; what it leaves to do is done; and what came of it
/// is published.
pub open spec fn run_concluded<
    F: FnOnce() -> Result<EffectOutput, CommandProblem>,
    D: Fn(&RunActionDelivery) -> Result<(), KernelProblem>,
    M: FnOnce() -> bool,
    R: FnOnce() -> bool,
>(
    start: KernelView,
    at: int,
    answered: Option<AppliedView>,
    e: EnvelopeView,
    rows: RowsView,
    closed: Seq<bool>,
    effect: F,
    deliver: D,
    now: Seq<char>,
    nanos: u64,
    mark: M,
    reconcile: R,
    end: KernelView,
    answer: Result<KernelOutcomeView, KernelProblemView>,
) -> bool {
    let (ready, gate) = let_in(start, closed, now);
    match gate {
        Err(p) => end == ready && answer == Err::<KernelOutcomeView, KernelProblemView>(p),
        Ok(_) => exists|done: (Intents, TargetTables, Result<AppliedView, ProblemView>)|
            #[trigger] run_effected(ready, at, answered, e, rows, effect, now, done) && run_told(
                ready,
                at,
                done,
                deliver,
                now,
                nanos,
                mark,
                reconcile,
                end,
                answer,
            ),
    }
}

/// What comes of a command on a run in its store: nothing where it is answered already.
pub open spec fn run_effected<F: FnOnce() -> Result<EffectOutput, CommandProblem>>(
    ready: KernelView,
    at: int,
    answered: Option<AppliedView>,
    e: EnvelopeView,
    rows: RowsView,
    effect: F,
    now: Seq<char>,
    done: (Intents, TargetTables, Result<AppliedView, ProblemView>),
) -> bool {
    match answered {
        Some(a) => done == (
            ready.intents,
            ready.targets[at],
            Ok::<AppliedView, ProblemView>(a),
        ),
        None => dispatched(
            ready.intents,
            ready.targets[at],
            e,
            e.digest(ready.key),
            ready.lease.admits(e.lease()),
            expectations_met(rows, e.target.store_handle, e.expected, 0),
            effect,
            None,
            now,
            done,
        ),
    }
}

/// What is told of a command on a run: first what it leaves to do is done, and only where
/// all of it was is anything published. Where it was not, its store is closed until it is.
pub open spec fn run_told<
    D: Fn(&RunActionDelivery) -> Result<(), KernelProblem>,
    M: FnOnce() -> bool,
    R: FnOnce() -> bool,
>(
    ready: KernelView,
    at: int,
    done: (Intents, TargetTables, Result<AppliedView, ProblemView>),
    deliver: D,
    now: Seq<char>,
    nanos: u64,
    mark: M,
    reconcile: R,
    end: KernelView,
    answer: Result<KernelOutcomeView, KernelProblemView>,
) -> bool {
    match done.2 {
        Err(p) => end == ready.carried(
            at,
            (Carrying { intents: done.0, target: done.1, journal: ready.journal }),
        ) && answer == Err::<KernelOutcomeView, KernelProblemView>(kernel_of_command(p)),
        Ok(applied) => exists|cleared: TargetTables, did: Result<(), KernelProblemView>|
            #[trigger] drained(done.1, deliver, cleared, did) && match did {
                Err(p) => end == ready.carried(
                    at,
                    (Carrying {
                        intents: done.0,
                        target: cleared,
                        journal: ready.journal.blocked_by(cleared.store_key),
                    }),
                ) && answer == Err::<KernelOutcomeView, KernelProblemView>(p),
                Ok(_) => exists|c: Carrying, told: Result<(), KernelProblemView>|
                    end == ready.carried(at, c) && c.intents == done.0 && #[trigger] published(
                        (ready.journal.freed_of(cleared.store_key), cleared),
                        now,
                        nanos,
                        mark,
                        reconcile,
                        (c.journal, c.target),
                        told,
                    ) && answer == (match told {
                        Err(q) => Err::<KernelOutcomeView, KernelProblemView>(q),
                        Ok(_) => run_answer(applied),
                    }),
            },
    }
}

impl InProcessCoreKernel {
    /// The way of a command on a run up to the first thing that happens.
    pub fn begin_workflow_run(
        &self,
        rows: &ProjectRows,
        request: &KernelCommandRequest,
        close: Option<&ProjectCloseToken>,
        ports: RunPorts,
    ) -> (r: Result<(usize, RunStage, CommandEnvelope), KernelProblem>)
        requires
            self.wf(),
        ensures
            ({
                let way = run_begun(
                    self@.lease,
                    self@.key,
                    self@.projects,
                    self@.targets,
                    rows@,
                    request@,
                    match close {
                        Some(t) => Some(t@),
                        None => None,
                    },
                    ports,
                );
                match r {
                    Ok((at, stage, e)) => way == Ok::<
                        (int, StageView, EnvelopeView),
                        KernelProblemView,
                    >((at as int, stage@, e@)) && at < self@.targets.len(),
                    Err(p) => way == Err::<(int, StageView, EnvelopeView), KernelProblemView>(p@),
                }
            }),
    {
        begin_run_command(
            &self.coordinator,
            &self.lease,
            &self.projects,
            &self.targets,
            rows,
            request,
            close,
            ports,
        )
    }

    /// Carries a command on a run out that was prepared, or answers it from its receipt;
    /// does what it leaves to do; and publishes what came of it.
    pub fn conclude_workflow_run<
        F: FnOnce() -> Result<EffectOutput, CommandProblem>,
        D: Fn(&RunActionDelivery) -> Result<(), KernelProblem>,
        M: FnOnce() -> bool,
        R: FnOnce() -> bool,
    >(
        &mut self,
        at: usize,
        answered: Option<CommandOutcome>,
        envelope: &CommandEnvelope,
        rows: &ProjectRows,
        closed: &Vec<bool>,
        effect: F,
        deliver: &D,
        now: &str,
        nanos: u64,
        mark: M,
        reconcile: R,
    ) -> (r: Result<KernelOutcome, KernelProblem>)
        requires
            old(self).wf(),
            at < old(self)@.targets.len(),
            closed@.len() == old(self)@.projects.len(),
            effect.requires(()),
            mark.requires(()),
            reconcile.requires(()),
            forall|d: RunActionDelivery| #[trigger] deliver.requires((&d,)),
        ensures
            final(self).wf(),
            never_closed(old(self)@.targets, final(self)@.targets),
            run_concluded(
                old(self)@,
                at as int,
                opt_applied(answered),
                envelope@,
                rows@,
                closed@,
                effect,
                *deliver,
                now@,
                nanos,
                mark,
                reconcile,
                final(self)@,
                kernel_answer(r),
            ),
    {
        let ghost start = self@;
        let ghost given = opt_applied(answered);
        proof {
            lemma_let_in(start, closed@, now@);
        }
        match self.journal.linearize_run_actions(&mut self.targets, closed, now) {
            Ok(_) => {},
            Err(p) => {
                return Err(p);
            },
        }
        let ghost ready = self@;
        let ghost had = self.targets@;
        assert(had[at as int].wf());
        assert(ready.targets[at as int] == had[at as int]@);
        let done: Result<CommandOutcome, CommandProblem> = match answered {
            Some(o) => Ok(o),
            None => {
                let authorizer: InProcessAuthorizer = InProcessAuthorizer {
                    lease: &self.lease,
                    rows,
                };
                self.coordinator.dispatch_internal(
                    &mut self.intents,
                    envelope,
                    &mut self.targets[at],
                    &authorizer,
                    effect,
                    None,
                    now,
                )
            },
        };
        let ghost way = (self.intents@, self.targets@[at as int]@, outcome(done));
        let ghost dealt = self.targets@;
        proof {
            assert(tables(dealt) =~= tables(had).update(at as int, dealt[at as int]@));
            assert(run_effected(ready, at as int, given, envelope@, rows@, effect, now@, way));
            assert(targets_wf(dealt));
            lemma_same_rows(ready.targets[at as int].outbox);
            if given is None {
                lemma_dispatched(
                    ready.intents,
                    ready.targets[at as int],
                    envelope@,
                    envelope@.digest(ready.key),
                    ready.lease.admits(envelope@.lease()),
                    expectations_met(rows@, envelope@.target.store_handle, envelope@.expected, 0),
                    effect,
                    None,
                    now@,
                    way,
                );
            }
            if way.2 is Err {
                assert(ready.targets.update(at as int, way.1) =~= ready.targets);
                lemma_same_stores(ready.targets);
                lemma_never_closed_on(start.targets, ready.targets, self@.targets);
                lemma_guard_kept(ready, self@);
            }
        }
        let applied: CommandOutcome = match done {
            Ok(o) => o,
            Err(p) => {
                assert(run_told(
                    ready,
                    at as int,
                    way,
                    *deliver,
                    now@,
                    nanos,
                    mark,
                    reconcile,
                    self@,
                    Err(kernel_of_command(p@)),
                ));
                return Err(KernelProblem::from_command(p));
            },
        };
        let did: Result<(), KernelProblem> = drain_run_action_outbox(
            &mut self.targets[at],
            deliver,
        );
        let ghost cleared = self.targets@[at as int]@;
        let ghost emptied = self.targets@;
        let ghost said = outcome(did);
        proof {
            assert(tables(emptied) =~= tables(had).update(at as int, cleared));
            assert(targets_wf(emptied));
            assert(drained(way.1, *deliver, cleared, said));
            lemma_drained(way.1, *deliver, cleared, said);
            lemma_closes_on(ready.targets[at as int].outbox, way.1.outbox, cleared.outbox);
        }
        match did {
            Ok(_) => {
                self.journal.clear_run_action_block(self.targets[at].store_key());
            },
            Err(p) => {
                self.journal.block_for_run_actions(self.targets[at].store_key());
                proof {
                    let c = Carrying {
                        intents: self.intents@,
                        target: cleared,
                        journal: self.journal@,
                    };
                    assert(self@ == ready.carried(at as int, c));
                    lemma_guard_at(ready, at as int, c);
                    lemma_never_closed_on(start.targets, ready.targets, self@.targets);
                }
                assert(said == Err::<(), KernelProblemView>(p@));
                assert(run_told(
                    ready,
                    at as int,
                    way,
                    *deliver,
                    now@,
                    nanos,
                    mark,
                    reconcile,
                    self@,
                    Err(p@),
                ));
                return Err(p);
            },
        }
        let told: Result<(), KernelProblem> = self.journal.publish_pending(
            &mut self.targets[at],
            now,
            nanos,
            mark,
            reconcile,
        );
        let ghost news = outcome(told);
        let ghost c = Carrying {
            intents: self.intents@,
            target: self.targets@[at as int]@,
            journal: self.journal@,
        };
        proof {
            assert(tables(self.targets@) =~= tables(had).update(at as int, c.target));
            assert(targets_wf(self.targets@));
            assert(self@ == ready.carried(at as int, c));
            assert(published(
                (ready.journal.freed_of(cleared.store_key), cleared),
                now@,
                nanos,
                mark,
                reconcile,
                (c.journal, c.target),
                news,
            ));
            lemma_told(
                ready.journal.freed_of(cleared.store_key),
                cleared,
                now@,
                nanos,
                mark,
                reconcile,
                (c.journal, c.target),
                news,
            );
            lemma_closes_on(ready.targets[at as int].outbox, cleared.outbox, c.target.outbox);
            lemma_guard_at(ready, at as int, c);
            lemma_never_closed_on(start.targets, ready.targets, self@.targets);
        }
        match told {
            Ok(_) => {
                let answer: Result<KernelOutcome, KernelProblem> = answer_run(&applied);
                assert(news is Ok);
                assert(run_told(
                    ready,
                    at as int,
                    way,
                    *deliver,
                    now@,
                    nanos,
                    mark,
                    reconcile,
                    self@,
                    kernel_answer(answer),
                ));
                answer
            },
            Err(p) => {
                assert(run_told(
                    ready,
                    at as int,
                    way,
                    *deliver,
                    now@,
                    nanos,
                    mark,
                    reconcile,
                    self@,
                    Err(p@),
                ));
                Err(p)
            },
        }
    }
}

/// What holds between a store that may have something to tell and the end of telling it.
pub open spec fn told_at<M: Fn(usize) -> bool, R: Fn(usize) -> bool>(
    start: (JournalView, Seq<TargetTables>),
    i: int,
    now: Seq<char>,
    nanos: u64,
    mark: M,
    reconcile: R,
    end: (JournalView, Seq<TargetTables>),
    answer: Result<(), KernelProblemView>,
) -> bool {
    &&& end.1 == start.1.update(i, end.1[i])
    &&& exists|marked: bool, reconciled: bool|
        {
            &&& #[trigger] publish_view(
                start.0,
                start.1[i],
                now,
                nanos,
                marked,
                reconciled,
                end.0.epoch,
            ) == (end.0, end.1[i], answer)
            &&& asks_mark(start.0, start.1[i], now, nanos) ==> mark.ensures((i as usize,), marked)
            &&& asks_reconcile(start.0, start.1[i], now, nanos, marked) ==> reconcile.ensures(
                (i as usize,),
                reconciled,
            )
        }
}

/// Whether the first `n` stores tell what they have to tell along a path, in order, up to
/// the first that cannot.
pub open spec fn told_along<M: Fn(usize) -> bool, R: Fn(usize) -> bool>(
    path: Seq<(JournalView, Seq<TargetTables>)>,
    answers: Seq<Result<(), KernelProblemView>>,
    now: Seq<char>,
    nanos: u64,
    mark: M,
    reconcile: R,
    n: nat,
    answer: Result<(), KernelProblemView>,
) -> bool {
    &&& path.len() == answers.len() + 1
    &&& answers.len() <= n
    &&& forall|i: int|
        0 <= i < answers.len() ==> told_at(
            path[i],
            i,
            now,
            nanos,
            mark,
            reconcile,
            path[i + 1],
            #[trigger] answers[i],
        )
    &&& forall|i: int| 0 <= i < answers.len() - 1 ==> (#[trigger] answers[i]) is Ok
    &&& match answer {
        Ok(_) => answers.len() == n && (n > 0 ==> answers.last() is Ok),
        Err(p) => answers.len() > 0 && answers.last() == Err::<(), KernelProblemView>(p),
    }
}

/// What holds between the first `n` stores and the end of telling what they have to tell,
/// in order, up to the first that cannot.
pub open spec fn all_told<M: Fn(usize) -> bool, R: Fn(usize) -> bool>(
    start: (JournalView, Seq<TargetTables>),
    now: Seq<char>,
    nanos: u64,
    mark: M,
    reconcile: R,
    n: nat,
    end: (JournalView, Seq<TargetTables>),
    answer: Result<(), KernelProblemView>,
) -> bool {
    exists|
        path: Seq<(JournalView, Seq<TargetTables>)>,
        answers: Seq<Result<(), KernelProblemView>>,
    | #[trigger]
        told_along(path, answers, now, nanos, mark, reconcile, n, answer) && path[0] == start
            && path.last() == end
}

proof fn lemma_told_so_far<M: Fn(usize) -> bool, R: Fn(usize) -> bool>(
    path: Seq<(JournalView, Seq<TargetTables>)>,
    answers: Seq<Result<(), KernelProblemView>>,
    now: Seq<char>,
    nanos: u64,
    mark: M,
    reconcile: R,
    n: nat,
    answer: Result<(), KernelProblemView>,
    m: nat,
)
    requires
        told_along(path, answers, now, nanos, mark, reconcile, n, answer),
        answer is Ok,
        m <= n <= path[0].1.len(),
    ensures
        path[m as int].1.len() == path[0].1.len(),
        forall|i: int|
            0 <= i < m ==> pending((#[trigger] path[m as int].1[i]).outbox) == Seq::<
                JsonView,
            >::empty(),
    decreases m,
{
    if m > 0 {
        let b = (m - 1) as nat;
        lemma_told_so_far(path, answers, now, nanos, mark, reconcile, n, answer, b);
        let from = path[b as int];
        let to = path[m as int];
        assert(told_at(from, b as int, now, nanos, mark, reconcile, to, answers[b as int]));
        assert(answers[b as int] is Ok);
        let (marked, reconciled) = choose|marked: bool, reconciled: bool|
            #[trigger] publish_view(
                from.0,
                from.1[b as int],
                now,
                nanos,
                marked,
                reconciled,
                to.0.epoch,
            ) == (to.0, to.1[b as int], answers[b as int]) && (asks_mark(
                from.0,
                from.1[b as int],
                now,
                nanos,
            ) ==> mark.ensures((b as usize,), marked)) && (asks_reconcile(
                from.0,
                from.1[b as int],
                now,
                nanos,
                marked,
            ) ==> reconcile.ensures((b as usize,), reconciled));
        assert(publish_view(
            from.0,
            from.1[b as int],
            now,
            nanos,
            marked,
            reconciled,
            to.0.epoch,
        ).1 == to.1[b as int]);
        law_nothing_waits_once_closed_off(from.1[b as int].outbox, now);
        assert(pending(to.1[b as int].outbox) =~= Seq::<JsonView>::empty());
        assert forall|i: int| 0 <= i < m implies pending((#[trigger] to.1[i]).outbox) == Seq::<
            JsonView,
        >::empty() by {
            if i < b {
                assert(to.1[i] == from.1[i]);
                assert(pending(from.1[i].outbox) == Seq::<JsonView>::empty());
            }
        }
    }
}

/// Nothing that an open store had to tell is given up when another project comes in: once
/// everything is told, nothing waits in any of them.
pub proof fn law_what_waits_is_told_first<M: Fn(usize) -> bool, R: Fn(usize) -> bool>(
    start: (JournalView, Seq<TargetTables>),
    now: Seq<char>,
    nanos: u64,
    mark: M,
    reconcile: R,
    n: nat,
    end: (JournalView, Seq<TargetTables>),
    answer: Result<(), KernelProblemView>,
    i: int,
)
    requires
        all_told(start, now, nanos, mark, reconcile, n, end, answer),
        answer is Ok,
        n <= start.1.len(),
        0 <= i < n,
    ensures
        pending(end.1[i].outbox) == Seq::<JsonView>::empty(),
{
    let (path, answers) = choose|
        path: Seq<(JournalView, Seq<TargetTables>)>,
        answers: Seq<Result<(), KernelProblemView>>,
    | #[trigger]
        told_along(path, answers, now, nanos, mark, reconcile, n, answer) && path[0] == start
            && path.last() == end;
    lemma_told_so_far(path, answers, now, nanos, mark, reconcile, n, answer, n);
    assert(path[n as int] == end);
    assert(pending(path[n as int].1[i].outbox) == Seq::<JsonView>::empty());
}

/// Whether the first `n` stores left nothing to do, leave nothing, and closed no event that
/// carries something to do, and the others are as they were.
spec fn told_safely(a: Seq<TargetTables>, b: Seq<TargetTables>, n: int) -> bool {
    &&& a.len() == b.len()
    &&& forall|i: int|
        0 <= i < n ==> (#[trigger] b[i]).store_key == a[i].store_key && closes_no_actions(
            a[i].outbox,
            b[i].outbox,
        ) && !waits_with_actions(b[i].outbox)
    &&& forall|i: int| n <= i < a.len() ==> #[trigger] b[i] == a[i]
}

fn tell_all<M: Fn(usize) -> bool, R: Fn(usize) -> bool>(
    journal: &mut EventJournal,
    targets: &mut Vec<TargetDatabase>,
    count: usize,
    now: &str,
    nanos: u64,
    mark: &M,
    reconcile: &R,
) -> (r: Result<(), KernelProblem>)
    requires
        old(journal).wf(),
        old(journal)@.sound(),
        targets_wf(old(targets)@),
        count <= old(targets)@.len(),
        forall|i: usize| #[trigger] mark.requires((i,)),
        forall|i: usize| #[trigger] reconcile.requires((i,)),
        forall|i: int|
            0 <= i < count ==> !waits_with_actions((#[trigger] tables(old(targets)@)[i]).outbox),
    ensures
        final(journal).wf(),
        final(journal)@.sound(),
        targets_wf(final(targets)@),
        final(targets)@.len() == old(targets)@.len(),
        told_safely(tables(old(targets)@), tables(final(targets)@), count as int),
        all_told(
            (old(journal)@, tables(old(targets)@)),
            now@,
            nanos,
            *mark,
            *reconcile,
            count as nat,
            (final(journal)@, tables(final(targets)@)),
            outcome(r),
        ),
{
    let ghost start = (journal@, tables(targets@));
    proof {
        lemma_same_stores(start.1);
    }
    let ghost mut path: Seq<(JournalView, Seq<TargetTables>)> = seq![start];
    let ghost mut answers: Seq<Result<(), KernelProblemView>> = seq![];
    let mut i: usize = 0;
    while i < count
        invariant
            i <= count,
            count <= targets@.len(),
            targets@.len() == old(targets)@.len(),
            start == (old(journal)@, tables(old(targets)@)),
            journal.wf(),
            journal@.sound(),
            targets_wf(targets@),
            forall|i: usize| #[trigger] mark.requires((i,)),
            forall|i: usize| #[trigger] reconcile.requires((i,)),
            path.len() == i + 1,
            answers.len() == i,
            told_safely(start.1, tables(targets@), count as int),
            path[0] == start,
            path.last() == (journal@, tables(targets@)),
            forall|k: int|
                0 <= k < i ==> told_at(
                    path[k],
                    k,
                    now@,
                    nanos,
                    *mark,
                    *reconcile,
                    path[k + 1],
                    #[trigger] answers[k],
                ),
            forall|k: int| 0 <= k < i ==> (#[trigger] answers[k]) is Ok,
        decreases count - i,
    {
        let at: usize = i;
        let ghost mid = (journal@, tables(targets@));
        let ghost had = targets@;
        assert(had[at as int].wf());
        assert(mid.1[at as int] == had[at as int]@);
        let m = || -> (b: bool)
            requires
                mark.requires((at,)),
            ensures
                mark.ensures((at,), b),
            { mark(at) };
        let c = || -> (b: bool)
            requires
                reconcile.requires((at,)),
            ensures
                reconcile.ensures((at,), b),
            { reconcile(at) };
        let told: Result<(), KernelProblem> = journal.publish_pending(
            &mut targets[at],
            now,
            nanos,
            m,
            c,
        );
        let ghost answer = outcome(told);
        let ghost end = (journal@, tables(targets@));
        proof {
            assert(end.1 =~= mid.1.update(at as int, targets@[at as int]@));
            assert(end.1[at as int] == targets@[at as int]@);
            assert(targets_wf(targets@));
            assert(published(
                (mid.0, mid.1[at as int]),
                now@,
                nanos,
                m,
                c,
                (end.0, end.1[at as int]),
                answer,
            ));
            assert(told_at(mid, at as int, now@, nanos, *mark, *reconcile, end, answer));
            assert(mid.1[at as int].store_key == start.1[at as int].store_key);
            lemma_told(
                mid.0,
                mid.1[at as int],
                now@,
                nanos,
                m,
                c,
                (end.0, end.1[at as int]),
                answer,
            );
            lemma_closes_on(
                start.1[at as int].outbox,
                mid.1[at as int].outbox,
                end.1[at as int].outbox,
            );
            let before = path;
            let said = answers;
            path = path.push(end);
            answers = answers.push(answer);
            assert forall|k: int| 0 <= k < answers.len() implies told_at(
                path[k],
                k,
                now@,
                nanos,
                *mark,
                *reconcile,
                path[k + 1],
                #[trigger] answers[k],
            ) by {
                if k < said.len() {
                    assert(answers[k] == said[k]);
                    assert(path[k] == before[k] && path[k + 1] == before[k + 1]);
                } else {
                    assert(path[k] == before.last());
                }
            }
        }
        match told {
            Ok(_) => {},
            Err(p) => {
                assert(told_along(
                    path,
                    answers,
                    now@,
                    nanos,
                    *mark,
                    *reconcile,
                    count as nat,
                    Err::<(), KernelProblemView>(p@),
                ));
                return Err(p);
            },
        }
        i = i + 1;
    }
    let r: Result<(), KernelProblem> = Ok(());
    assert(told_along(path, answers, now@, nanos, *mark, *reconcile, count as nat, outcome(r)));
    r
}

/// The stores of the open projects, with that of one that comes in.
pub open spec fn entered(targets: Seq<TargetTables>, at: Option<int>, target: TargetTables) -> Seq<
    TargetTables,
> {
    match at {
        Some(i) => targets.update(i, target),
        None => targets.push(target),
    }
}

/// The stores of the open projects, without that of one that did not come in.
pub open spec fn left(targets: Seq<TargetTables>, at: Option<int>) -> Seq<TargetTables> {
    match at {
        Some(_) => targets,
        None => targets.drop_last(),
    }
}

/// What holds between a project that comes in and the kernel with it. Whatever the open
/// stores have to tell is told first; what the others and its own store held open is
/// brought to an end; and only then does it take commands. Another opening of the same
/// project gives way, unless its store leaves something to do: that is done first.
pub open spec fn admitted<M: Fn(usize) -> bool, R: Fn(usize) -> bool>(
    k: KernelView,
    ops: Seq<OperationView>,
    project: Seq<char>,
    opening: u64,
    target: TargetTables,
    closed: Seq<bool>,
    now: Seq<char>,
    nanos: u64,
    mark: M,
    reconcile: R,
    end: KernelView,
    end_ops: Seq<OperationView>,
    answer: Result<(), KernelProblemView>,
) -> bool {
    let at = project_at(k.projects, project, 0);
    let gate = gate_view(k.journal, entered(k.targets, at, target), closed, now);
    let refused = KernelView { journal: gate.0, targets: left(gate.1, at), ..k };
    if at is Some && waits_with_actions(target.outbox) {
        &&& end == (KernelView { journal: k.journal.blocked_by(target.store_key), ..k })
        &&& end_ops == ops
        &&& answer == Err::<(), KernelProblemView>(
            KernelProblemView::ServiceUnavailable(RUN_ACTIONS_PENDING@),
        )
    } else {
        match gate.2 {
            Err(p) => end == refused && end_ops == ops && answer == Err::<(), KernelProblemView>(p),
            Ok(_) => if at matches Some(i) && k.projects[i].closing {
                end == refused && end_ops == ops && answer == Err::<(), KernelProblemView>(
                    KernelProblemView::ServiceUnavailable("project_close_in_progress"@),
                )
            } else {
                exists|told: (JournalView, Seq<TargetTables>), so_far: Result<(), KernelProblemView>|
                    #[trigger] all_told(
                        (gate.0, gate.1),
                        now,
                        nanos,
                        mark,
                        reconcile,
                        k.targets.len(),
                        told,
                        so_far,
                    ) && match so_far {
                        Err(p) => {
                            &&& end == (KernelView { journal: told.0, targets: left(told.1, at), ..k })
                            &&& end_ops == ops
                            &&& answer == Err::<(), KernelProblemView>(p)
                        },
                        Ok(_) => brought_in(
                            KernelView { journal: told.0, targets: told.1, ..k },
                            ops,
                            project,
                            opening,
                            at,
                            now,
                        ) == (end, end_ops, answer),
                    }
            },
        }
    }
}

/// A kernel with a project, once everything that was open is brought to an end.
pub open spec fn brought_in(
    k: KernelView,
    ops: Seq<OperationView>,
    project: Seq<char>,
    opening: u64,
    at: Option<int>,
    now: Seq<char>,
) -> (KernelView, Seq<OperationView>, Result<(), KernelProblemView>) {
    let restarted = restart_view(k.intents, ops, k.targets, now);
    let entry = RegistrationRow { project, opening, closing: false };
    match restarted.answer {
        Err(p) => (
            KernelView {
                intents: restarted.intents,
                targets: left(restarted.targets, at),
                ..k
            },
            restarted.ops,
            Err(kernel_of_command(p)),
        ),
        Ok(_) => (
            KernelView {
                intents: restarted.intents,
                targets: restarted.targets,
                projects: match at {
                    Some(i) => k.projects.update(i, entry),
                    None => k.projects.push(entry),
                },
                ..k
            },
            restarted.ops,
            Ok(()),
        ),
    }
}

proof fn lemma_guard_without(k: KernelView, at: int)
    requires
        k.guarded(),
        0 <= at < k.targets.len(),
    ensures
        (KernelView {
            projects: k.projects.remove(at),
            targets: k.targets.remove(at),
            journal: k.journal.freed_of(k.targets[at].store_key),
            ..k
        }).guarded(),
{
    let end = KernelView {
        projects: k.projects.remove(at),
        targets: k.targets.remove(at),
        journal: k.journal.freed_of(k.targets[at].store_key),
        ..k
    };
    assert forall|i: int| 0 <= i < end.targets.len() implies {
        &&& (#[trigger] end.targets[i]).store_key == "project:"@ + end.projects[i].project
        &&& waits_with_actions(end.targets[i].outbox) ==> end.journal.blocked.contains(
            end.targets[i].store_key,
        ) && !end.journal.poisoned.contains(end.targets[i].store_key)
    } by {
        let m = if i < at {
            i
        } else {
            i + 1
        };
        assert(end.targets[i] == k.targets[m]);
        assert(end.projects[i] == k.projects[m]);
        lemma_own_store(k, m, at);
    }
    assert forall|i: int, j: int| 0 <= i < j < end.projects.len() implies (
    #[trigger] end.projects[i]).project != (#[trigger] end.projects[j]).project by {
        let m = if i < at {
            i
        } else {
            i + 1
        };
        let n = if j < at {
            j
        } else {
            j + 1
        };
        assert(end.projects[i] == k.projects[m]);
        assert(end.projects[j] == k.projects[n]);
    }
}

/// A kernel without a project that was closed, where the right to close it is still good;
/// whatever its store leaves to do closes nothing any more.
pub open spec fn close_finished(k: KernelView, token: CloseView) -> KernelView {
    match closing_project(k.projects, token) {
        Ok(i) => KernelView {
            projects: k.projects.remove(i),
            targets: k.targets.remove(i),
            journal: k.journal.freed_of(k.targets[i].store_key),
            ..k
        },
        Err(_) => k,
    }
}

impl InProcessCoreKernel {
    /// Grants the lease to a client and a user by their names.
    pub fn grant_controller(&mut self, client_id: &str, principal: &str) -> (r: Result<
        u64,
        KernelProblem,
    >)
        requires
            old(self).wf(),
        ensures
            final(self).wf(),
            final(self)@ == (KernelView { lease: final(self)@.lease, ..old(self)@ }),
            if is_blank(client_id@) || is_blank(principal@) {
                &&& final(self)@.lease == old(self)@.lease
                &&& r matches Err(p) && p@ == KernelProblemView::Internal(
                    if is_blank(client_id@) {
                        "client_id 非法:"@ + "client_id 不能为空"@
                    } else {
                        "principal 非法:"@ + "principal 不能为空"@
                    },
                )
            } else {
                let (after, answer) = old(self)@.lease.granted(client_id@, principal@);
                &&& final(self)@.lease == after
                &&& match r {
                    Ok(epoch) => answer == Ok::<u64, KernelProblemView>(epoch),
                    Err(p) => answer == Err::<u64, KernelProblemView>(p@),
                }
            },
    {
        self.lease.grant_controller(client_id, principal)
    }

    /// The epoch of the lease.
    pub fn controller_epoch(&self) -> (r: u64)
        ensures
            r == self@.lease.epoch,
    {
        self.lease.controller_epoch()
    }

    /// Whether a byte that was let in under an epoch may still be written.
    pub fn verify_controller_epoch(&self, epoch: u64) -> (r: InputLeaseVerdict)
        ensures
            r == (if epoch == self@.lease.epoch {
                InputLeaseVerdict::Current
            } else {
                InputLeaseVerdict::ControllerTakeover
            }),
    {
        self.lease.verify_controller_epoch(epoch)
    }

    /// The stores of the open projects.
    pub fn targets(&self) -> (r: &Vec<TargetDatabase>)
        ensures
            tables(r@) == self@.targets,
    {
        &self.targets
    }

    /// What is under way, for keeping it.
    pub fn intents(&self) -> (r: &Table<IntentRow>)
        requires
            self.wf(),
        ensures
            r.wf(),
            r@ == self@.intents,
    {
        &self.intents
    }

    /// The journal of the kernel.
    pub fn journal(&self) -> (r: &EventJournal)
        ensures
            r@ == self@.journal,
    {
        &self.journal
    }

    /// Starts to follow the events from a place on.
    pub fn subscribe_events(&mut self, closed: &Vec<bool>, now: &str, cursor: &EventCursor) -> (r:
        Result<EventSubscription, KernelProblem>)
        requires
            old(self).wf(),
            closed@.len() == old(self)@.projects.len(),
        ensures
            final(self).wf(),
            never_lost(old(self)@.targets, final(self)@.targets),
            ({
                let gate = gate_view(old(self)@.journal, old(self)@.targets, closed@, now@);
                let ready = KernelView { journal: gate.0, targets: gate.1, ..old(self)@ };
                match gate.2 {
                    Err(p) => final(self)@ == ready && outcome(r) == Err::<
                        SubscriptionView,
                        KernelProblemView,
                    >(p),
                    Ok(_) => final(self)@ == (KernelView {
                        journal: subscribe_view(gate.0, cursor@).0,
                        ..ready
                    }) && outcome(r) == subscribe_view(gate.0, cursor@).1,
                }
            }),
    {
        proof {
            lemma_gate(self@, closed@, now@);
        }
        self.journal.subscribe_live(&mut self.targets, closed, now, cursor)
    }

    /// The events that came since a client's last poll.
    pub fn poll_events(&mut self, subscription: &mut EventSubscription) -> (r: Result<
        Vec<EventEnvelope>,
        KernelProblem,
    >)
        requires
            old(self).wf(),
        ensures
            final(self).wf(),
            ({
                let (j, answer) = poll_view(
                    old(self)@.journal,
                    old(subscription)@.client_id,
                    old(subscription)@.stream_epoch,
                );
                &&& final(self)@ == (KernelView { journal: j, ..old(self)@ })
                &&& match r {
                    Ok(events) => answer == Ok::<Seq<EventView>, KernelProblemView>(
                        event_views(events@),
                    ),
                    Err(p) => answer == Err::<Seq<EventView>, KernelProblemView>(p@),
                }
            }),
    {
        subscription.poll(&mut self.journal)
    }

    fn take_back(&mut self, known: bool)
        requires
            old(self).intents.wf(),
            old(self).journal.wf(),
            old(self).journal@.sound(),
            targets_wf(old(self).targets@),
            known ==> old(self).targets@.len() == old(self).projects@.len(),
            !known ==> old(self).targets@.len() == old(self).projects@.len() + 1,
            (KernelView {
                targets: if known {
                    old(self)@.targets
                } else {
                    old(self)@.targets.drop_last()
                },
                ..old(self)@
            }).guarded(),
        ensures
            final(self).wf(),
            final(self)@ == (KernelView {
                targets: if known {
                    old(self)@.targets
                } else {
                    old(self)@.targets.drop_last()
                },
                ..old(self)@
            }),
    {
        let ghost had = self.targets@;
        if !known {
            self.targets.pop();
            assert(tables(self.targets@) =~= tables(had).drop_last());
            assert forall|k: int| 0 <= k < self.targets@.len() implies (
            #[trigger] self.targets@[k]).wf() by {
                assert(had[k].wf());
            }
        }
    }

    /// Opens a project: what the open stores have to tell is told, and what was left open
    /// is brought to an end, before it takes its first command.
    pub fn admit_project<M: Fn(usize) -> bool, R: Fn(usize) -> bool>(
        &mut self,
        operations: &mut Vec<OperationRow>,
        project: ProjectStoreHandle,
        opening: u64,
        target: TargetDatabase,
        closed: &Vec<bool>,
        now: &str,
        nanos: u64,
        mark: &M,
        reconcile: &R,
    ) -> (r: Result<(), KernelProblem>)
        requires
            old(self).wf(),
            target.wf(),
            target@.store_key == "project:"@ + project@,
            closed@.len() == entered(
                old(self)@.targets,
                project_at(old(self)@.projects, project@, 0),
                target@,
            ).len(),
            forall|i: int|
                0 <= i < old(operations)@.len() ==> (#[trigger] old(operations)@[i])@.wf(),
            forall|i: usize| #[trigger] mark.requires((i,)),
            forall|i: usize| #[trigger] reconcile.requires((i,)),
        ensures
            final(self).wf(),
            forall|i: int|
                0 <= i < old(self)@.targets.len() && project_at(
                    old(self)@.projects,
                    project@,
                    0,
                ) != Some(i) ==> closes_no_actions(
                    old(self)@.targets[i].outbox,
                    (#[trigger] final(self)@.targets[i]).outbox,
                ) && keeps_actions(
                    old(self)@.targets[i].outbox,
                    final(self)@.targets[i].outbox,
                ),
            admitted(
                old(self)@,
                operations_view(old(operations)@),
                project@,
                opening,
                target@,
                closed@,
                now@,
                nanos,
                *mark,
                *reconcile,
                final(self)@,
                operations_view(final(operations)@),
                outcome(r),
            ),
    {
        let ghost start = self@;
        let ghost had = self.targets@;
        let ghost ops = operations_view(operations@);
        let ghost at = project_at(start.projects, project@, 0);
        let count: usize = self.targets.len();
        let place: Option<usize> = find_project(&self.projects, project.as_str());
        let closing: bool = match place {
            Some(i) => {
                assert(registrations(self.projects@)[i as int] == self.projects@[i as int]@);
                self.projects[i].closing
            },
            None => false,
        };
        proof {
            lemma_same_stores(start.targets);
            lemma_project_at(start.projects, project@, 0);
            lemma_entering(start, project@, target@, at, closed@, now@);
        }
        if place.is_some() && target_has_pending_run_actions(&target) {
            self.journal.block_for_run_actions(target.store_key());
            proof {
                lemma_guard_kept(start, self@);
            }
            return Err(KernelProblem::unavailable(RUN_ACTIONS_PENDING));
        }
        match place {
            Some(i) => {
                self.targets.set(i, target);
                assert(tables(self.targets@) =~= tables(had).update(i as int, target@));
            },
            None => {
                self.targets.push(target);
                assert(tables(self.targets@) =~= tables(had).push(target@));
            },
        }
        proof {
            assert(tables(self.targets@) == entered(start.targets, at, target@));
            assert(targets_wf(self.targets@)) by {
                assert forall|k: int| 0 <= k < self.targets@.len() implies (
                #[trigger] self.targets@[k]).wf() by {
                    if k < had.len() {
                        assert(had[k].wf());
                    }
                }
            }
        }
        let ghost all = entered(start.targets, at, target@);
        match self.journal.linearize(&mut self.targets, closed, now) {
            Ok(_) => {},
            Err(p) => {
                self.take_back(place.is_some());
                return Err(p);
            },
        }
        if closing {
            self.take_back(place.is_some());
            return Err(KernelProblem::unavailable("project_close_in_progress"));
        }
        let ghost open = (self.journal@, tables(self.targets@));
        assert forall|i: int| 0 <= i < count implies !waits_with_actions(
            (#[trigger] open.1[i]).outbox,
        ) by {
            assert(open.1[i].store_key == all[i].store_key);
        }
        let told: Result<(), KernelProblem> = tell_all(
            &mut self.journal,
            &mut self.targets,
            count,
            now,
            nanos,
            mark,
            reconcile,
        );
        let ghost after = (self.journal@, tables(self.targets@));
        let ghost so_far = outcome(told);
        proof {
            lemma_entered_safely(start, project@, at, open.1, after);
        }
        assert(all_told(
            open,
            now@,
            nanos,
            *mark,
            *reconcile,
            start.targets.len(),
            after,
            so_far,
        ));
        match told {
            Ok(_) => {},
            Err(p) => {
                assert(so_far == Err::<(), KernelProblemView>(p@));
                self.take_back(place.is_some());
                return Err(p);
            },
        }
        assert(so_far is Ok);
        let ghost ready = KernelView { journal: after.0, targets: after.1, ..start };
        proof {
            lemma_restart_keeps_count(start.intents, ops, after.1, now@);
            lemma_restarted(start, project@, opening, at, ops, after, now@);
        }
        let restarted: Result<ReconcileReport, CommandProblem> = reconcile_startup(
            &mut self.intents,
            operations,
            &mut self.targets,
            now,
        );
        match restarted {
            Ok(_) => {
                let ghost entries = self.projects@;
                let entry: ProjectRegistration = ProjectRegistration {
                    project,
                    opening,
                    closing: false,
                };
                match place {
                    Some(i) => {
                        self.projects.set(i, entry);
                        assert(registrations(self.projects@) =~= registrations(entries).update(
                            i as int,
                            entry@,
                        ));
                    },
                    None => {
                        self.projects.push(entry);
                        assert(registrations(self.projects@) =~= registrations(entries).push(
                            entry@,
                        ));
                    },
                }
                assert(brought_in(ready, ops, project@, opening, at, now@) == (
                    self@,
                    operations_view(operations@),
                    Ok::<(), KernelProblemView>(()),
                ));
                Ok(())
            },
            Err(p) => {
                self.take_back(place.is_some());
                assert(brought_in(ready, ops, project@, opening, at, now@) == (
                    self@,
                    operations_view(operations@),
                    Err::<(), KernelProblemView>(kernel_of_command(p@)),
                ));
                Err(KernelProblem::from_command(p))
            },
        }
    }

    /// Begins to close a project: it takes no more commands from here on.
    pub fn begin_project_close(&mut self, project: &ProjectStoreHandle) -> (r: Result<
        ProjectCloseToken,
        KernelProblem,
    >)
        requires
            old(self).wf(),
        ensures
            final(self).wf(),
            match r {
                Ok(token) => close_begun(old(self)@.projects, project@) == Ok::<
                    (Seq<RegistrationRow>, CloseView),
                    KernelProblemView,
                >((final(self)@.projects, token@)) && final(self)@ == (KernelView {
                    projects: final(self)@.projects,
                    ..old(self)@
                }),
                Err(p) => close_begun(old(self)@.projects, project@) == Err::<
                    (Seq<RegistrationRow>, CloseView),
                    KernelProblemView,
                >(p@) && final(self)@ == old(self)@,
            },
    {
        let r: Result<ProjectCloseToken, KernelProblem> = begin_project_close(
            &mut self.projects,
            project,
        );
        proof {
            lemma_close_keeps_count(old(self)@.projects, project@);
            assert(registrations(self.projects@).len() == self.projects@.len());
            assert(registrations(old(self).projects@).len() == old(self).projects@.len());
            lemma_same_stores(self@.targets);
            lemma_project_at(old(self)@.projects, project@, 0);
            lemma_guard_kept(old(self)@, self@);
        }
        r
    }

    /// Ends the closing of a project, where the right to close it is still good.
    pub fn finalize_project_close(&mut self, token: &ProjectCloseToken)
        requires
            old(self).wf(),
        ensures
            final(self).wf(),
            final(self)@ == close_finished(old(self)@, token@),
    {
        let ghost had = self.targets@;
        let ghost entries = self.projects@;
        match project_registration_for_close(&self.projects, token) {
            Ok(i) => {
                self.journal.clear_run_action_block(self.targets[i].store_key());
                self.projects.remove(i);
                self.targets.remove(i);
                assert(registrations(self.projects@) =~= registrations(entries).remove(i as int));
                assert(tables(self.targets@) =~= tables(had).remove(i as int));
                assert forall|k: int| 0 <= k < self.targets@.len() implies (
                #[trigger] self.targets@[k]).wf() by {
                    if k < i {
                        assert(had[k].wf());
                    } else {
                        assert(had[k + 1].wf());
                    }
                }
                proof {
                    lemma_guard_without(old(self)@, i as int);
                }
            },
            Err(_) => {},
        }
    }
}

/// A kernel that is in order for what its stores leave to do: what could not be published
/// is given up first.
pub open spec fn let_in(k: KernelView, closed: Seq<bool>, now: Seq<char>) -> (
    KernelView,
    Result<(), KernelProblemView>,
) {
    let entry = entry_view(k.journal, k.targets, closed, now);
    (KernelView { journal: entry.0, targets: entry.1, ..k }, entry.2)
}

/// A kernel that is in order: what could not be published is given up first, and no store
/// leaves something to do.
pub open spec fn in_order(k: KernelView, closed: Seq<bool>, now: Seq<char>) -> (
    KernelView,
    Result<(), KernelProblemView>,
) {
    let gate = gate_view(k.journal, k.targets, closed, now);
    (KernelView { journal: gate.0, targets: gate.1, ..k }, gate.2)
}

/// What a client is shown of data that was read now.
pub open spec fn shown_now(k: KernelView, data: DataView) -> SnapshotEnvelopeView {
    SnapshotEnvelopeView {
        schema: SNAPSHOT_SCHEMA@,
        server_instance_id: k.journal.server_instance_id,
        cursor: CursorView {
            stream_epoch: k.journal.epoch,
            through_seq: k.journal.last_seq() as u64,
        },
        data,
    }
}

/// What a client is shown: data that was read once the kernel was in order, with the
/// place in the stream at which it was.
pub open spec fn shown(
    k: KernelView,
    closed: Seq<bool>,
    now: Seq<char>,
    data: Result<DataView, KernelProblemView>,
) -> (KernelView, Result<SnapshotEnvelopeView, KernelProblemView>) {
    let (ready, gate) = in_order(k, closed, now);
    (
        ready,
        match gate {
            Err(p) => Err(p),
            Ok(_) => match data {
                Err(p) => Err(p),
                Ok(d) => Ok(shown_now(ready, d)),
            },
        },
    )
}

/// Who may read in a project: anyone while it is open, and whoever closes it while it is
/// being closed.
pub open spec fn readable(
    v: Seq<RegistrationRow>,
    project: Seq<char>,
    close: Option<CloseView>,
) -> Result<
    int,
    KernelProblemView,
> {
    match close {
        Some(token) => closing_project(v, token),
        None => open_project(v, project),
    }
}

/// What holds between asking for something of a project and being shown it: it is read
/// once the kernel is in order, and only where the project may be read.
pub open spec fn project_shown<F: FnOnce() -> Result<SnapshotData, KernelProblem>>(
    k: KernelView,
    closed: Seq<bool>,
    now: Seq<char>,
    project: Seq<char>,
    close: Option<CloseView>,
    read: F,
    end: KernelView,
    answer: Result<SnapshotEnvelopeView, KernelProblemView>,
) -> bool {
    let (ready, gate) = in_order(k, closed, now);
    &&& end == ready
    &&& match gate {
        Err(p) => answer == Err::<SnapshotEnvelopeView, KernelProblemView>(p),
        Ok(_) => match readable(k.projects, project, close) {
            Err(p) => answer == Err::<SnapshotEnvelopeView, KernelProblemView>(p),
            Ok(_) => exists|got: Result<SnapshotData, KernelProblem>| #[trigger]
                read.ensures((), got) && answer == (match got {
                    Err(p) => Err::<SnapshotEnvelopeView, KernelProblemView>(p@),
                    Ok(d) => Ok(shown_now(ready, d@)),
                }),
        },
    }
}

/// A right to close that may be there, as a value.
pub open spec fn opt_close(close: Option<&ProjectCloseToken>) -> Option<CloseView> {
    match close {
        Some(t) => Some(t@),
        None => None,
    }
}

/// What is known of the open projects: how many of their runs are active, and how many of
/// their events wait.
pub open spec fn known_activity(k: KernelView, running: Seq<Result<usize, String>>) -> Seq<
    ActivityView,
> {
    Seq::new(
        k.projects.len(),
        |i: int|
            ActivityView {
                project: k.projects[i].project,
                running: reading(running[i]),
                pending: Ok(pending(k.targets[i].outbox).len()),
            },
    )
}

impl InProcessCoreKernel {
    fn show(&self, data: SnapshotData) -> (r: SnapshotEnvelope)
        requires
            self.wf(),
        ensures
            r@ == shown_now(self@, data@),
    {
        SnapshotEnvelope::new(
            self.journal.server_instance_id().clone(),
            self.journal.cursor(),
            data,
        )
    }

    /// Shows something of a project. Whatever is read is read once the kernel is in order.
    pub fn project_snapshot<F: FnOnce() -> Result<SnapshotData, KernelProblem>>(
        &mut self,
        closed: &Vec<bool>,
        now: &str,
        project: &ProjectStoreHandle,
        close: Option<&ProjectCloseToken>,
        read: F,
    ) -> (r: Result<SnapshotEnvelope, KernelProblem>)
        requires
            old(self).wf(),
            closed@.len() == old(self)@.projects.len(),
            read.requires(()),
        ensures
            final(self).wf(),
            never_lost(old(self)@.targets, final(self)@.targets),
            project_shown(
                old(self)@,
                closed@,
                now@,
                project@,
                opt_close(close),
                read,
                final(self)@,
                outcome(r),
            ),
    {
        proof {
            lemma_gate(self@, closed@, now@);
        }
        match self.journal.linearize(&mut self.targets, closed, now) {
            Ok(_) => {},
            Err(p) => {
                return Err(p);
            },
        }
        let found: Result<usize, KernelProblem> = match close {
            Some(token) => project_registration_for_close(&self.projects, token),
            None => project_registration(&self.projects, project),
        };
        match found {
            Ok(_) => {},
            Err(p) => {
                return Err(p);
            },
        }
        let got: Result<SnapshotData, KernelProblem> = read();
        assert(read.ensures((), got));
        match got {
            Ok(data) => Ok(self.show(data)),
            Err(p) => Err(p),
        }
    }

    /// Shows the workspace.
    pub fn workspace_snapshot(
        &mut self,
        closed: &Vec<bool>,
        now: &str,
        names: &Vec<(String, Option<String>)>,
    ) -> (r: Result<SnapshotEnvelope, KernelProblem>)
        requires
            old(self).wf(),
            closed@.len() == old(self)@.projects.len(),
        ensures
            final(self).wf(),
            never_lost(old(self)@.targets, final(self)@.targets),
            (final(self)@, outcome(r)) == shown(
                old(self)@,
                closed@,
                now@,
                Ok(
                    DataView::Workspace(
                        workspace(
                            old(self)@.projects,
                            names_view(names@),
                            old(self)@.projects.len(),
                        ),
                    ),
                ),
            ),
    {
        proof {
            lemma_gate(self@, closed@, now@);
        }
        match self.journal.linearize(&mut self.targets, closed, now) {
            Ok(_) => {},
            Err(p) => {
                return Err(p);
            },
        }
        let projects: Vec<WorkspaceProject> = workspace_projects(&self.projects, names);
        Ok(self.show(SnapshotData::Workspace(projects)))
    }

    /// Shows an operation, given the run that it started.
    pub fn operation_snapshot(
        &mut self,
        closed: &Vec<bool>,
        now: &str,
        operations: &Vec<OperationRow>,
        operation: &OperationHandle,
        workflow_run: Option<WorkflowRunHandle>,
    ) -> (r: Result<SnapshotEnvelope, KernelProblem>)
        requires
            old(self).wf(),
            closed@.len() == old(self)@.projects.len(),
        ensures
            final(self).wf(),
            never_lost(old(self)@.targets, final(self)@.targets),
            (final(self)@, outcome(r)) == shown(
                old(self)@,
                closed@,
                now@,
                match operation_at(operations_view(operations@), operation@, 0) {
                    None => Err(KernelProblemView::ResourceNotFound),
                    Some(i) => Ok(
                        DataView::Operation(
                            operation_shown(operations@[i]@, opt_handle(workflow_run)),
                        ),
                    ),
                },
            ),
    {
        proof {
            lemma_gate(self@, closed@, now@);
        }
        match self.journal.linearize(&mut self.targets, closed, now) {
            Ok(_) => {},
            Err(p) => {
                return Err(p);
            },
        }
        match operation_snapshot(operations, operation, workflow_run) {
            Ok(data) => Ok(self.show(SnapshotData::Operation(data))),
            Err(p) => Err(p),
        }
    }

    /// What a shutdown would break off, given how many runs of each project are active.
    pub fn assess_shutdown(&self, running: &Vec<Result<usize, String>>) -> (r: ShutdownAssessment)
        requires
            self.wf(),
            running@.len() == self@.projects.len(),
        ensures
            r@ == assessment(
                known_activity(self@, running@),
                Ok(under_way(self@.intents).len()),
            ),
    {
        let ghost all = known_activity(self@, running@);
        let mut projects: Vec<ProjectActivity> = Vec::new();
        let mut i: usize = 0;
        assert(activities(projects@) =~= all.take(0));
        while i < self.projects.len()
            invariant
                self.wf(),
                i <= self.projects@.len(),
                running@.len() == self.projects@.len(),
                all == known_activity(self@, running@),
                activities(projects@) == all.take(i as int),
            decreases self.projects@.len() - i,
        {
            let ghost had = projects@;
            let waiting: Vec<Json> = self.targets[i].pending();
            let one: ProjectActivity = ProjectActivity {
                project: self.projects[i].project.as_str().to_owned(),
                running: match &running[i] {
                    Ok(n) => Ok(*n),
                    Err(m) => Err(m.clone()),
                },
                pending: Ok(waiting.len()),
            };
            assert(items_view(waiting@).len() == waiting@.len());
            assert(self@.targets[i as int] == self.targets@[i as int]@);
            assert(self@.projects[i as int] == self.projects@[i as int]@);
            assert(one@ == all[i as int]);
            projects.push(one);
            assert(activities(projects@) =~= activities(had).push(one@));
            assert(all.take(i + 1) =~= all.take(i as int).push(all[i as int]));
            i = i + 1;
        }
        assert(all.take(i as int) =~= all);
        let unfinished: Result<usize, String> = Ok(count_under_way(&self.intents));
        assess(&projects, &unfinished)
    }
}

/// What preparing to close a project leads to: it takes no more commands, and none of its
/// tokens is good any more. Where its tokens cannot be fenced it stays as it is, closing.
pub open spec fn close_prepared(
    k: KernelView,
    s: StoreView,
    closed: Seq<bool>,
    now: Seq<char>,
    key: Seq<u8>,
    runs: Seq<(Seq<char>, Seq<char>)>,
    project: Seq<char>,
) -> (KernelView, StoreView, Result<CloseView, KernelProblemView>) {
    let (ready, gate) = in_order(k, closed, now);
    match gate {
        Err(p) => (ready, s, Err(p)),
        Ok(_) => match close_begun(ready.projects, project) {
            Err(p) => (ready, s, Err(p)),
            Ok((projects, token)) => {
                let (fenced, did) = tokens_fenced(s, key, project, runs, now);
                (
                    KernelView { projects, ..ready },
                    fenced,
                    match did {
                        Err(p) => Err(p),
                        Ok(_) => Ok(token),
                    },
                )
            },
        },
    }
}

/// What closing a project at once leads to.
pub open spec fn detached(
    k: KernelView,
    s: StoreView,
    closed: Seq<bool>,
    now: Seq<char>,
    key: Seq<u8>,
    runs: Seq<(Seq<char>, Seq<char>)>,
    project: Seq<char>,
) -> (KernelView, StoreView, Result<(), KernelProblemView>) {
    let (ready, fenced, token) = close_prepared(k, s, closed, now, key, runs, project);
    match token {
        Err(p) => (ready, fenced, Err(p)),
        Ok(token) => (close_finished(ready, token), fenced, Ok(())),
    }
}

impl InProcessCoreKernel {
    /// Prepares to close a project: it takes no more commands, and none of its tokens is
    /// good any more.
    pub fn prepare_project_close(
        &mut self,
        closed: &Vec<bool>,
        now: &str,
        store: &mut ServiceStore,
        key: &RunCapabilityKey,
        runs: &Vec<(AgentRunHandle, String)>,
        project: &ProjectStoreHandle,
    ) -> (r: Result<ProjectCloseToken, KernelProblem>)
        requires
            old(self).wf(),
            old(store)@.sound(),
            closed@.len() == old(self)@.projects.len(),
        ensures
            final(self).wf(),
            final(store)@.sound(),
            never_lost(old(self)@.targets, final(self)@.targets),
            (final(self)@, final(store)@, outcome(r)) == close_prepared(
                old(self)@,
                old(store)@,
                closed@,
                now@,
                key@,
                run_tokens(runs@),
                project@,
            ),
    {
        proof {
            lemma_gate(self@, closed@, now@);
        }
        match self.journal.linearize(&mut self.targets, closed, now) {
            Ok(_) => {},
            Err(p) => {
                return Err(p);
            },
        }
        let token: ProjectCloseToken = match self.begin_project_close(project) {
            Ok(t) => t,
            Err(p) => {
                return Err(p);
            },
        };
        match fence_project_tokens(store, key, project, runs, now) {
            Ok(_) => Ok(token),
            Err(p) => Err(p),
        }
    }

    /// Closes a project at once, by its handle.
    pub fn detach_project(
        &mut self,
        closed: &Vec<bool>,
        now: &str,
        store: &mut ServiceStore,
        key: &RunCapabilityKey,
        runs: &Vec<(AgentRunHandle, String)>,
        project_handle: &str,
    ) -> (r: Result<(), KernelProblem>)
        requires
            old(self).wf(),
            old(store)@.sound(),
            closed@.len() == old(self)@.projects.len(),
        ensures
            final(self).wf(),
            final(store)@.sound(),
            (final(self)@, final(store)@, outcome(r)) == (match project_handle_of(project_handle@) {
                Err(_) => (
                    old(self)@,
                    old(store)@,
                    Err::<(), KernelProblemView>(KernelProblemView::ResourceNotFound),
                ),
                Ok(project) => detached(
                    old(self)@,
                    old(store)@,
                    closed@,
                    now@,
                    key@,
                    run_tokens(runs@),
                    project,
                ),
            }),
    {
        match ProjectStoreHandle::parse(project_handle) {
            Err(_) => Err(KernelProblem::ResourceNotFound),
            Ok(project) => match self.prepare_project_close(
                closed,
                now,
                store,
                key,
                runs,
                &project,
            ) {
                Err(p) => Err(p),
                Ok(token) => {
                    self.finalize_project_close(&token);
                    Ok(())
                },
            },
        }
    }
}

/// A project that was closed is not there any more, and none of the tokens that the
/// registry knows for it is good.
pub proof fn law_a_closed_project_is_gone(
    k: KernelView,
    s: StoreView,
    closed: Seq<bool>,
    now: Seq<char>,
    key: Seq<u8>,
    runs: Seq<(Seq<char>, Seq<char>)>,
    project: Seq<char>,
    at: int,
)
    requires
        detached(k, s, closed, now, key, runs, project).2 is Ok,
        0 <= at < detached(k, s, closed, now, key, runs, project).1.capabilities.len(),
        detached(k, s, closed, now, key, runs, project).1.capabilities[at].capability.project
            == project,
    ensures
        detached(k, s, closed, now, key, runs, project).0.projects.len() == k.projects.len() - 1,
        !(detached(k, s, closed, now, key, runs, project).1.capabilities[at].capability.state
            is Active),
{
    let (ready, _) = in_order(k, closed, now);
    lemma_project_at(ready.projects, project, 0);
    law_closing_comes_first(ready.projects, project);
    let (after, token) = close_begun(ready.projects, project)->Ok_0;
    lemma_close_keeps_count(ready.projects, project);
    lemma_project_at(after, project, 0);
    law_a_fenced_token_is_not_good(s, key, project, runs, now, at);
}

/// What holds between what a store leaves to do and what is told of it: all of it is
/// done first, and only where it was is anything published. Where it was not, the store is
/// closed until it is.
pub open spec fn delivered<
    D: Fn(&RunActionDelivery) -> Result<(), KernelProblem>,
    M: FnOnce() -> bool,
    R: FnOnce() -> bool,
>(
    ready: KernelView,
    at: int,
    deliver: D,
    now: Seq<char>,
    nanos: u64,
    mark: M,
    reconcile: R,
    end: KernelView,
    answer: Result<(), KernelProblemView>,
) -> bool {
    exists|cleared: TargetTables, did: Result<(), KernelProblemView>|
        #[trigger] drained(ready.targets[at], deliver, cleared, did) && match did {
            Err(p) => end == ready.carried(
                at,
                (Carrying {
                    intents: ready.intents,
                    target: cleared,
                    journal: ready.journal.blocked_by(cleared.store_key),
                }),
            ) && answer == Err::<(), KernelProblemView>(p),
            Ok(_) => exists|c: Carrying|
                end == ready.carried(at, c) && c.intents == ready.intents && #[trigger] published(
                    (ready.journal.freed_of(cleared.store_key), cleared),
                    now,
                    nanos,
                    mark,
                    reconcile,
                    (c.journal, c.target),
                    answer,
                ),
        }
}

/// What a store leaves to do closes it to everything else: the kernel's invariant, of every
/// kernel that there is.
pub proof fn law_what_is_left_to_do_closes_its_store(k: &InProcessCoreKernel)
    requires
        k.wf(),
    ensures
        k@.guarded(),
{
}

/// Nothing is read, published or followed while a store leaves something to do: where the
/// way in is open, no event that waits in any store carries something to do; where it is
/// not, every event that does still waits.
pub proof fn law_nothing_is_told_before_it_is_done(k: KernelView, closed: Seq<bool>, now: Seq<char>)
    requires
        k.guarded(),
    ensures
        never_lost(k.targets, in_order(k, closed, now).0.targets),
        in_order(k, closed, now).1 is Ok ==> forall|i: int|
            0 <= i < k.targets.len() ==> !waits_with_actions(
                (#[trigger] in_order(k, closed, now).0.targets[i]).outbox,
            ),
{
    lemma_gate(k, closed, now);
}

/// A delivery that failed is not passed over: its event still waits with what it left to do,
/// and the way in is shut to everything but another delivery.
pub proof fn law_a_failed_delivery_is_not_passed_over<
    D: Fn(&RunActionDelivery) -> Result<(), KernelProblem>,
>(
    ready: KernelView,
    at: int,
    deliver: D,
    cleared: TargetTables,
    p: KernelProblemView,
    closed: Seq<bool>,
    later: Seq<char>,
)
    requires
        ready.guarded(),
        ready.journal.poisoned.len() == 0,
        0 <= at < ready.targets.len(),
        drained(ready.targets[at], deliver, cleared, Err(p)),
    ensures
        ({
            let end = ready.carried(
                at,
                Carrying {
                    intents: ready.intents,
                    target: cleared,
                    journal: ready.journal.blocked_by(cleared.store_key),
                },
            );
            &&& waits_with_actions(end.targets[at].outbox)
            &&& never_closed(ready.targets, end.targets)
            &&& in_order(end, closed, later).1 is Err
        }),
{
    let c = Carrying {
        intents: ready.intents,
        target: cleared,
        journal: ready.journal.blocked_by(cleared.store_key),
    };
    let end = ready.carried(at, c);
    lemma_drained(ready.targets[at], deliver, cleared, Err(p));
    lemma_guard_at(ready, at, c);
    lemma_gate(end, closed, later);
    let after = in_order(end, closed, later);
    if after.1 is Ok {
        assert(recoverable(end.journal, end.targets));
        lemma_entry(end.journal, end.targets, closed, later);
        assert(after.0.targets[at].store_key == end.targets[at].store_key);
        assert(any_blocked(after.0.journal, after.0.targets));
    }
}

/// What holds between the start of a background run and its acceptance: its operation is
/// stored and proved by a receipt before it is answered, and clients are told nothing of
/// it yet.
pub open spec fn start_accepted<M: FnOnce() -> bool, R: FnOnce() -> bool>(
    k: KernelView,
    at: int,
    key: Seq<u8>,
    workflow: Seq<char>,
    prepared: Seq<char>,
    op: Option<OperationView>,
    e: EnvelopeView,
    plan: PlanView,
    rows: RowsView,
    closed: Seq<bool>,
    now: Seq<char>,
    nanos: u64,
    mark: M,
    reconcile: R,
    end: KernelView,
    end_op: Option<OperationView>,
    answer: Result<KernelOutcomeView, KernelProblemView>,
) -> bool {
    let (ready, gate) = in_order(k, closed, now);
    if prepared != workflow {
        &&& end == k
        &&& end_op == op
        &&& answer == Err::<KernelOutcomeView, KernelProblemView>(
            KernelProblemView::ValidationFailed("prepared Workflow Start plan 与目标工作流不一致"@),
        )
    } else {
        match gate {
            Err(p) => end == ready && end_op == op && answer == Err::<
                KernelOutcomeView,
                KernelProblemView,
            >(p),
            Ok(_) => exists|fresh: Seq<char>|
                operation_handle_of(fresh) == Ok::<Seq<char>, Seq<char>>(fresh) && {
                    let done = #[trigger] accept_view(
                        ready.intents,
                        op,
                        ready.targets[at],
                        e,
                        e.digest(key),
                        plan,
                        fresh,
                        ready.lease.admits(e.lease()),
                        expectations_met(rows, e.target.store_handle, e.expected, 0),
                        None,
                        now,
                    );
                    &&& end_op == done.1
                    &&& start_told(ready, at, e, done, now, nanos, mark, reconcile, end, answer)
                },
        }
    }
}

/// What is told of a start: its acceptance is not, and whatever else waits is.
pub open spec fn start_told<M: FnOnce() -> bool, R: FnOnce() -> bool>(
    ready: KernelView,
    at: int,
    e: EnvelopeView,
    done: (Intents, Option<OperationView>, TargetTables, Result<Seq<char>, OperationProblemView>),
    now: Seq<char>,
    nanos: u64,
    mark: M,
    reconcile: R,
    end: KernelView,
    answer: Result<KernelOutcomeView, KernelProblemView>,
) -> bool {
    match done.3 {
        Err(p) => end == ready.carried(
            at,
            (Carrying { intents: done.0, target: done.2, journal: ready.journal }),
        ) && answer == Err::<KernelOutcomeView, KernelProblemView>(kernel_of_operation(p)),
        Ok(handle) => exists|c: Carrying, told: Result<(), KernelProblemView>|
            end == ready.carried(at, c) && c.intents == done.0 && #[trigger] published(
                (
                    ready.journal,
                    TargetTables {
                        outbox: without_acceptance(
                            done.2.outbox,
                            e.command_type.name(),
                            e.command_id,
                        ),
                        ..done.2
                    },
                ),
                now,
                nanos,
                mark,
                reconcile,
                (c.journal, c.target),
                told,
            ) && answer == (match told {
                Err(q) => Err::<KernelOutcomeView, KernelProblemView>(q),
                Ok(_) => Ok(KernelOutcomeView::Accepted { operation_handle: handle }),
            }),
    }
}

/// Whether an authorizer speaks for a lease and for rows.
pub open spec fn speaks_for(a: InProcessAuthorizer, lease: ControllerView, rows: RowsView) -> bool {
    a.lease@ == lease && a.rows@ == rows
}

/// What comes of an operation: nothing more where it has ended, else what running it
/// leads to.
pub open spec fn operation_ran<E: StepEffects>(
    ready: KernelView,
    op: OperationView,
    plan: PlanView,
    rows: RowsView,
    effects: E,
    effect_count: usize,
    fault: Option<OperationFaultPoint>,
    now: Seq<char>,
    done: RunView,
) -> bool {
    if op.record.state.terminal() {
        done == (RunView {
            op,
            intents: ready.intents,
            targets: ready.targets,
            answer: Ok(stored_end(op.record)),
        })
    } else {
        exists|a: InProcessAuthorizer, answers: Answers|
            #[trigger] speaks_for(a, ready.lease, rows) && #[trigger] can_be_answers(
                effects,
                answers,
            ) && done == run_view(
                op,
                ready.intents,
                ready.targets,
                plan,
                a,
                answers,
                effect_count,
                fault,
                now,
            )
    }
}

/// Why a background run does not begin, if it does not.
pub open spec fn start_run_problem(
    v: Seq<RegistrationRow>,
    project: Seq<char>,
    ports: RunPorts,
    rebuilt: bool,
) -> Option<KernelProblemView> {
    match open_project(v, project) {
        Err(p) => Some(p),
        Ok(_) => if !ports.start {
            Some(KernelProblemView::ServiceUnavailable("workflow_start_port_not_registered"@))
        } else if !ports.lifecycle {
            Some(KernelProblemView::ServiceUnavailable("run_lifecycle_port_not_registered"@))
        } else if !rebuilt {
            Some(KernelProblemView::Internal("Workflow Start operation 缺少 durable payload"@))
        } else {
            None
        },
    }
}

/// What holds between a background run and its end: the operation is run, unless it has
/// ended already; what it leaves to do is done; and what came of it is published.
pub open spec fn start_ran<
    E: StepEffects,
    D: Fn(&RunActionDelivery) -> Result<(), KernelProblem>,
    M: FnOnce() -> bool,
    R: FnOnce() -> bool,
>(
    k: KernelView,
    project: Seq<char>,
    ports: RunPorts,
    op: OperationView,
    plan: Option<PlanView>,
    rows: RowsView,
    effects: E,
    effect_count: usize,
    fault: Option<OperationFaultPoint>,
    closed: Seq<bool>,
    deliver: D,
    now: Seq<char>,
    nanos: u64,
    mark: M,
    reconcile: R,
    end: KernelView,
    end_op: OperationView,
    answer: Result<EndView, KernelProblemView>,
) -> bool {
    let (ready, gate) = let_in(k, closed, now);
    match start_run_problem(k.projects, project, ports, plan is Some) {
        Some(p) => end == k && end_op == op && answer == Err::<EndView, KernelProblemView>(p),
        None => match gate {
            Err(p) => end == ready && end_op == op && answer == Err::<EndView, KernelProblemView>(
                p,
            ),
            Ok(_) => exists|done: RunView| #[trigger]
                operation_ran(
                    ready,
                    op,
                    plan->0,
                    rows,
                    effects,
                    effect_count,
                    fault,
                    now,
                    done,
                ) && end_op == done.op && start_ended(
                    KernelView { intents: done.intents, targets: done.targets, ..ready },
                    open_project(k.projects, project)->Ok_0,
                    done.answer,
                    deliver,
                    now,
                    nanos,
                    mark,
                    reconcile,
                    end,
                    answer,
                ),
        },
    }
}

/// What is done after an operation was run: where it failed its store is closed if it leaves
/// something to do; else that is done, and it is told.
pub open spec fn start_ended<
    D: Fn(&RunActionDelivery) -> Result<(), KernelProblem>,
    M: FnOnce() -> bool,
    R: FnOnce() -> bool,
>(
    ran: KernelView,
    at: int,
    went: Result<EndView, OperationProblemView>,
    deliver: D,
    now: Seq<char>,
    nanos: u64,
    mark: M,
    reconcile: R,
    end: KernelView,
    answer: Result<EndView, KernelProblemView>,
) -> bool {
    match went {
        Err(p) => end == (KernelView { journal: held_back(ran.journal, ran.targets[at]), ..ran })
            && answer == Err::<EndView, KernelProblemView>(kernel_of_operation(p)),
        Ok(how) => exists|did: Result<(), KernelProblemView>| #[trigger]
            delivered(ran, at, deliver, now, nanos, mark, reconcile, end, did) && answer == (
            match did {
                Err(p) => Err::<EndView, KernelProblemView>(p),
                Ok(_) => Ok(how),
            }),
    }
}

impl InProcessCoreKernel {
    /// Does what a store leaves to do, and tells what it has to tell.
    pub fn deliver<
        D: Fn(&RunActionDelivery) -> Result<(), KernelProblem>,
        M: FnOnce() -> bool,
        R: FnOnce() -> bool,
    >(
        &mut self,
        at: usize,
        deliver: &D,
        now: &str,
        nanos: u64,
        mark: M,
        reconcile: R,
    ) -> (r: Result<(), KernelProblem>)
        requires
            old(self).wf(),
            at < old(self)@.targets.len(),
            old(self)@.journal.poisoned.len() == 0,
            mark.requires(()),
            reconcile.requires(()),
            forall|d: RunActionDelivery| #[trigger] deliver.requires((&d,)),
        ensures
            final(self).wf(),
            never_closed(old(self)@.targets, final(self)@.targets),
            delivered(
                old(self)@,
                at as int,
                *deliver,
                now@,
                nanos,
                mark,
                reconcile,
                final(self)@,
                outcome(r),
            ),
    {
        let ghost ready = self@;
        let ghost had = self.targets@;
        assert(had[at as int].wf());
        assert(ready.targets[at as int] == had[at as int]@);
        let did: Result<(), KernelProblem> = drain_run_action_outbox(
            &mut self.targets[at],
            deliver,
        );
        let ghost cleared = self.targets@[at as int]@;
        let ghost said = outcome(did);
        proof {
            assert(tables(self.targets@) =~= tables(had).update(at as int, cleared));
            assert(targets_wf(self.targets@));
            assert(drained(ready.targets[at as int], *deliver, cleared, said));
            lemma_drained(ready.targets[at as int], *deliver, cleared, said);
        }
        match did {
            Ok(_) => {
                self.journal.clear_run_action_block(self.targets[at].store_key());
            },
            Err(p) => {
                self.journal.block_for_run_actions(self.targets[at].store_key());
                proof {
                    let c = Carrying {
                        intents: self.intents@,
                        target: cleared,
                        journal: self.journal@,
                    };
                    assert(self@ == ready.carried(at as int, c));
                    lemma_guard_at(ready, at as int, c);
                }
                return Err(p);
            },
        }
        let told: Result<(), KernelProblem> = self.journal.publish_pending(
            &mut self.targets[at],
            now,
            nanos,
            mark,
            reconcile,
        );
        let ghost c = Carrying {
            intents: self.intents@,
            target: self.targets@[at as int]@,
            journal: self.journal@,
        };
        proof {
            assert(tables(self.targets@) =~= tables(had).update(at as int, c.target));
            assert(targets_wf(self.targets@));
            assert(self@ == ready.carried(at as int, c));
            assert(published(
                (ready.journal.freed_of(cleared.store_key), cleared),
                now@,
                nanos,
                mark,
                reconcile,
                (c.journal, c.target),
                outcome(told),
            ));
            lemma_told(
                ready.journal.freed_of(cleared.store_key),
                cleared,
                now@,
                nanos,
                mark,
                reconcile,
                (c.journal, c.target),
                outcome(told),
            );
            lemma_closes_on(ready.targets[at as int].outbox, cleared.outbox, c.target.outbox);
            lemma_guard_at(ready, at as int, c);
        }
        told
    }

    /// Where a project stands once the kernel is in order.
    pub fn ready_project(
        &mut self,
        project: &ProjectStoreHandle,
        close: Option<&ProjectCloseToken>,
        closed: &Vec<bool>,
        now: &str,
    ) -> (r: Result<usize, KernelProblem>)
        requires
            old(self).wf(),
            closed@.len() == old(self)@.projects.len(),
        ensures
            final(self).wf(),
            ({
                let (ready, gate) = let_in(old(self)@, closed@, now@);
                match readable(old(self)@.projects, project@, opt_close(close)) {
                    Err(p) => final(self)@ == old(self)@ && (r matches Err(q) && q@ == p),
                    Ok(at) => final(self)@ == ready && match gate {
                        Err(p) => r matches Err(q) && q@ == p,
                        Ok(_) => r matches Ok(i) && i as int == at && i < ready.targets.len(),
                    },
                }
            }),
            never_lost(old(self)@.targets, final(self)@.targets),
            r is Ok ==> final(self)@.journal.poisoned.len() == 0,
    {
        let found: Result<usize, KernelProblem> = match close {
            Some(token) => project_registration_for_close(&self.projects, token),
            None => project_registration(&self.projects, project),
        };
        proof {
            lemma_same_stores(self@.targets);
            lemma_let_in(self@, closed@, now@);
        }
        let at: usize = match found {
            Ok(at) => at,
            Err(p) => {
                return Err(p);
            },
        };
        match self.journal.linearize_run_actions(&mut self.targets, closed, now) {
            Ok(_) => Ok(at),
            Err(p) => Err(p),
        }
    }

    /// Lets runs of a project be started in the background, where its agents can be
    /// reached: the starts that are taken up again.
    pub fn register_workflow_start_port(
        &self,
        project: &ProjectStoreHandle,
        lifecycle: bool,
        operations: &Vec<OperationRow>,
        kind: &str,
    ) -> (r: Result<Vec<OperationHandle>, KernelProblem>)
        ensures
            match r {
                Ok(v) => lifecycle && open_project(self@.projects, project@) is Ok
                    && handles_view(v@) == resumed(
                    operations_view(operations@),
                    kind@,
                    project@,
                ),
                Err(p) => if !lifecycle {
                    p@ == KernelProblemView::ServiceUnavailable(
                        "run_lifecycle_port_not_registered"@,
                    )
                } else {
                    open_project(self@.projects, project@) == Err::<int, KernelProblemView>(p@)
                },
            },
    {
        if !lifecycle {
            return Err(KernelProblem::unavailable("run_lifecycle_port_not_registered"));
        }
        match project_registration(&self.projects, project) {
            Err(p) => Err(p),
            Ok(_) => Ok(resume_workflow_start_operations(operations, kind, project.as_str())),
        }
    }

    /// Accepts the start of a run in the background.
    pub fn accept_workflow_start<M: FnOnce() -> bool, R: FnOnce() -> bool>(
        &mut self,
        at: usize,
        coordinator: &OperationCoordinator,
        workflow: &WorkflowHandle,
        prepared: &WorkflowHandle,
        operation: &mut Option<OperationRow>,
        envelope: &CommandEnvelope,
        plan: &OperationPlan,
        rows: &ProjectRows,
        closed: &Vec<bool>,
        now: &str,
        nanos: u64,
        mark: M,
        reconcile: R,
    ) -> (r: Result<KernelOutcome, KernelProblem>)
        requires
            old(self).wf(),
            at < old(self)@.targets.len(),
            closed@.len() == old(self)@.projects.len(),
            *old(operation) matches Some(row) ==> row@.record.command_id == envelope@.command_id,
            mark.requires(()),
            reconcile.requires(()),
        ensures
            final(self).wf(),
            never_lost(old(self)@.targets, final(self)@.targets),
            start_accepted(
                old(self)@,
                at as int,
                coordinator.key(),
                workflow@,
                prepared@,
                opt_operation(*old(operation)),
                envelope@,
                plan@,
                rows@,
                closed@,
                now@,
                nanos,
                mark,
                reconcile,
                final(self)@,
                opt_operation(*final(operation)),
                kernel_answer(r),
            ),
    {
        proof {
            lemma_same_stores(self@.targets);
        }
        if !prepared.same(workflow) {
            return Err(
                KernelProblem::ValidationFailed(
                    "prepared Workflow Start plan 与目标工作流不一致".to_owned(),
                ),
            );
        }
        proof {
            lemma_gate(self@, closed@, now@);
        }
        match self.journal.linearize(&mut self.targets, closed, now) {
            Ok(_) => {},
            Err(p) => {
                return Err(p);
            },
        }
        let ghost begun = old(self)@;
        let ghost ready = self@;
        let ghost had = self.targets@;
        let ghost before = opt_operation(*operation);
        assert(had[at as int].wf());
        assert(ready.targets[at as int] == had[at as int]@);
        let authorizer: InProcessAuthorizer = InProcessAuthorizer { lease: &self.lease, rows };
        let accepted: Result<OperationHandle, OperationProblem> = coordinator.accept(
            &mut self.intents,
            operation,
            envelope,
            plan,
            &mut self.targets[at],
            &authorizer,
            now,
        );
        let ghost done = (
            self.intents@,
            opt_operation(*operation),
            self.targets@[at as int]@,
            outcome(accepted),
        );
        proof {
            assert(tables(self.targets@) =~= tables(had).update(at as int, done.2));
            assert(targets_wf(self.targets@));
            let fresh = choose|fresh: Seq<char>|
                operation_handle_of(fresh) == Ok::<Seq<char>, Seq<char>>(fresh) && done
                    == #[trigger] accept_view(
                    ready.intents,
                    before,
                    ready.targets[at as int],
                    envelope@,
                    envelope@.digest(coordinator.key()),
                    plan@,
                    fresh,
                    authorizer.admission(envelope@.lease()),
                    authorizer.expectation(envelope@.lease()),
                    None,
                    now@,
                );
            assert(done == accept_view(
                ready.intents,
                before,
                ready.targets[at as int],
                envelope@,
                envelope@.digest(coordinator.key()),
                plan@,
                fresh,
                ready.lease.admits(envelope@.lease()),
                expectations_met(
                    rows@,
                    envelope@.target.store_handle,
                    envelope@.expected,
                    0,
                ),
                None,
                now@,
            ));
            lemma_accepted(
                ready.intents,
                before,
                ready.targets[at as int],
                envelope@,
                envelope@.digest(coordinator.key()),
                plan@,
                fresh,
                ready.lease.admits(envelope@.lease()),
                expectations_met(
                    rows@,
                    envelope@.target.store_handle,
                    envelope@.expected,
                    0,
                ),
                None,
                now@,
            );
            lemma_one_changes(ready.targets, at as int, done.2);
            lemma_guard_kept(ready, self@);
            lemma_nothing_to_lose(begun.targets, ready.targets, self@.targets);
        }
        match accepted {
            Err(p) => {
                assert(start_told(
                    ready,
                    at as int,
                    envelope@,
                    done,
                    now@,
                    nanos,
                    mark,
                    reconcile,
                    self@,
                    Err(kernel_of_operation(p@)),
                ));
                Err(KernelProblem::from_operation(p))
            },
            Ok(handle) => {
                drop_acceptance(
                    &mut self.targets[at],
                    envelope.command_type().as_str(),
                    envelope.command_id().as_str(),
                );
                let ghost cleared = self.targets@[at as int]@;
                assert(targets_wf(self.targets@));
                let told: Result<(), KernelProblem> = self.journal.publish_pending(
                    &mut self.targets[at],
                    now,
                    nanos,
                    mark,
                    reconcile,
                );
                let ghost c = Carrying {
                    intents: self.intents@,
                    target: self.targets@[at as int]@,
                    journal: self.journal@,
                };
                let ghost news = outcome(told);
                proof {
                    assert(tables(self.targets@) =~= tables(had).update(at as int, c.target));
                    assert(targets_wf(self.targets@));
                    assert(self@ == ready.carried(at as int, c));
                    lemma_without_acceptance(
                        done.2.outbox,
                        envelope@.command_type.name(),
                        envelope@.command_id,
                    );
                    lemma_told(
                        ready.journal,
                        cleared,
                        now@,
                        nanos,
                        mark,
                        reconcile,
                        (c.journal, c.target),
                        news,
                    );
                    lemma_closes_on(
                        ready.targets[at as int].outbox,
                        done.2.outbox,
                        cleared.outbox,
                    );
                    lemma_closes_on(
                        ready.targets[at as int].outbox,
                        cleared.outbox,
                        c.target.outbox,
                    );
                    lemma_one_changes(ready.targets, at as int, c.target);
                    lemma_guard_kept(ready, self@);
                    lemma_nothing_to_lose(begun.targets, ready.targets, self@.targets);
                    assert(published(
                        (ready.journal, cleared),
                        now@,
                        nanos,
                        mark,
                        reconcile,
                        (c.journal, c.target),
                        news,
                    ));
                }
                match told {
                    Err(p) => {
                        assert(start_told(
                            ready,
                            at as int,
                            envelope@,
                            done,
                            now@,
                            nanos,
                            mark,
                            reconcile,
                            self@,
                            Err(p@),
                        ));
                        Err(p)
                    },
                    Ok(_) => {
                        assert(news is Ok);
                        assert(start_told(
                            ready,
                            at as int,
                            envelope@,
                            done,
                            now@,
                            nanos,
                            mark,
                            reconcile,
                            self@,
                            Ok(KernelOutcomeView::Accepted { operation_handle: handle@ }),
                        ));
                        Ok(KernelOutcome::Accepted { operation_handle: handle })
                    },
                }
            },
        }
    }

    fn hold_back(&mut self, at: usize)
        requires
            old(self).wf(),
            at < old(self)@.targets.len(),
        ensures
            final(self).wf(),
            final(self)@ == (KernelView {
                journal: held_back(old(self)@.journal, old(self)@.targets[at as int]),
                ..old(self)@
            }),
    {
        let ghost start = self@;
        assert(start.targets[at as int] == self.targets@[at as int]@);
        if target_has_pending_run_actions(&self.targets[at]) {
            self.journal.block_for_run_actions(self.targets[at].store_key());
        }
        proof {
            lemma_same_stores(start.targets);
            lemma_guard_kept(start, self@);
        }
    }

    fn run_operation<E: StepEffects>(
        &mut self,
        coordinator: &OperationCoordinator,
        operation: &mut OperationRow,
        plan: &OperationPlan,
        rows: &ProjectRows,
        effects: &E,
        effect_count: usize,
        fault: Option<OperationFaultPoint>,
        now: &str,
    ) -> (r: Result<OperationOutcome, OperationProblem>)
        requires
            old(self).wf(),
            old(operation)@.wf(),
        ensures
            final(self).wf(),
            final(self)@ == (KernelView {
                intents: final(self)@.intents,
                targets: final(self)@.targets,
                ..old(self)@
            }),
            final(self)@.targets.len() == old(self)@.targets.len(),
            never_lost(old(self)@.targets, final(self)@.targets),
            operation_ran(
                old(self)@,
                old(operation)@,
                plan@,
                rows@,
                *effects,
                effect_count,
                fault,
                now@,
                (RunView {
                    op: final(operation)@,
                    intents: final(self)@.intents,
                    targets: final(self)@.targets,
                    answer: outcome(r),
                }),
            ),
    {
        let ghost start = self@;
        proof {
            lemma_same_stores(start.targets);
        }
        if operation.record.state.is_terminal() {
            return Ok(terminal_outcome_of(&operation.record));
        }
        let authorizer: InProcessAuthorizer = InProcessAuthorizer { lease: &self.lease, rows };
        assert(speaks_for(authorizer, self@.lease, rows@));
        let ghost begun = operation@;
        let r: Result<OperationOutcome, OperationProblem> = coordinator.run(
            operation,
            &mut self.intents,
            plan,
            &mut self.targets,
            &authorizer,
            effects,
            effect_count,
            fault,
            now,
        );
        proof {
            let answers = choose|answers: Answers| #[trigger]
                can_be_answers(*effects, answers) && (RunView {
                    op: operation@,
                    intents: self@.intents,
                    targets: self@.targets,
                    answer: outcome(r),
                }) == run_view(
                    begun,
                    start.intents,
                    start.targets,
                    plan@,
                    authorizer,
                    answers,
                    effect_count,
                    fault,
                    now@,
                );
            lemma_run_tells(
                begun,
                start.intents,
                start.targets,
                plan@,
                authorizer,
                answers,
                effect_count,
                fault,
                now@,
            );
            assert(only_told(start.targets, self@.targets));
            lemma_only_told(start.targets, self@.targets);
            lemma_guard_kept(start, self@);
        }
        r
    }

    /// Runs the operation that starts a run. One that has ended answers with its end, and
    /// none of its steps is done again.
    pub fn run_workflow_start_operation<
        E: StepEffects,
        D: Fn(&RunActionDelivery) -> Result<(), KernelProblem>,
        M: FnOnce() -> bool,
        R: FnOnce() -> bool,
    >(
        &mut self,
        project: &ProjectStoreHandle,
        ports: RunPorts,
        coordinator: &OperationCoordinator,
        operation: &mut OperationRow,
        plan: Option<&OperationPlan>,
        rows: &ProjectRows,
        effects: &E,
        effect_count: usize,
        fault: Option<OperationFaultPoint>,
        closed: &Vec<bool>,
        deliver: &D,
        now: &str,
        nanos: u64,
        mark: M,
        reconcile: R,
    ) -> (r: Result<OperationOutcome, KernelProblem>)
        requires
            old(self).wf(),
            old(operation)@.wf(),
            closed@.len() == old(self)@.projects.len(),
            mark.requires(()),
            reconcile.requires(()),
            forall|d: RunActionDelivery| #[trigger] deliver.requires((&d,)),
        ensures
            final(self).wf(),
            never_closed(old(self)@.targets, final(self)@.targets),
            start_ran(
                old(self)@,
                project@,
                ports,
                old(operation)@,
                match plan {
                    Some(p) => Some(p@),
                    None => None,
                },
                rows@,
                *effects,
                effect_count,
                fault,
                closed@,
                *deliver,
                now@,
                nanos,
                mark,
                reconcile,
                final(self)@,
                final(operation)@,
                outcome(r),
            ),
    {
        proof {
            lemma_same_stores(self@.targets);
        }
        let at: usize = match project_registration(&self.projects, project) {
            Ok(at) => at,
            Err(p) => {
                return Err(p);
            },
        };
        if !ports.start {
            return Err(KernelProblem::unavailable("workflow_start_port_not_registered"));
        }
        if !ports.lifecycle {
            return Err(KernelProblem::unavailable("run_lifecycle_port_not_registered"));
        }
        let plan: &OperationPlan = match plan {
            Some(p) => p,
            None => {
                return Err(
                    KernelProblem::internal("Workflow Start operation 缺少 durable payload"),
                );
            },
        };
        proof {
            lemma_let_in(self@, closed@, now@);
        }
        match self.journal.linearize_run_actions(&mut self.targets, closed, now) {
            Ok(_) => {},
            Err(p) => {
                return Err(p);
            },
        }
        let ghost ready = self@;
        let ghost before = operation@;
        let went: Result<OperationOutcome, OperationProblem> = self.run_operation(
            coordinator,
            operation,
            plan,
            rows,
            effects,
            effect_count,
            fault,
            now,
        );
        let ghost ran = self@;
        let ghost done = RunView {
            op: operation@,
            intents: ran.intents,
            targets: ran.targets,
            answer: outcome(went),
        };
        proof {
            assert(ready == let_in(old(self)@, closed@, now@).0);
            lemma_never_closed_on(old(self)@.targets, ready.targets, ran.targets);
            assert(ran == (KernelView { intents: done.intents, targets: done.targets, ..ready }));
            assert(operation_ran(
                ready,
                before,
                plan@,
                rows@,
                *effects,
                effect_count,
                fault,
                now@,
                done,
            ));
        }
        let r: Result<OperationOutcome, KernelProblem> = match went {
            Err(p) => {
                self.hold_back(at);
                assert(start_ended(
                    ran,
                    at as int,
                    done.answer,
                    *deliver,
                    now@,
                    nanos,
                    mark,
                    reconcile,
                    self@,
                    Err(kernel_of_operation(p@)),
                ));
                Err(KernelProblem::from_operation(p))
            },
            Ok(how) => {
                let did: Result<(), KernelProblem> = self.deliver(
                    at,
                    deliver,
                    now,
                    nanos,
                    mark,
                    reconcile,
                );
                let ghost said = outcome(did);
                proof {
                    lemma_never_closed_on(old(self)@.targets, ran.targets, self@.targets);
                }
                match did {
                    Err(p) => {
                        assert(start_ended(
                            ran,
                            at as int,
                            done.answer,
                            *deliver,
                            now@,
                            nanos,
                            mark,
                            reconcile,
                            self@,
                            Err(p@),
                        ));
                        Err(p)
                    },
                    Ok(_) => {
                        assert(said is Ok);
                        assert(start_ended(
                            ran,
                            at as int,
                            done.answer,
                            *deliver,
                            now@,
                            nanos,
                            mark,
                            reconcile,
                            self@,
                            Ok(how@),
                        ));
                        Ok(how)
                    },
                }
            },
        };
        proof {
            lemma_start_ran(
                old(self)@,
                project@,
                ports,
                before,
                plan@,
                rows@,
                *effects,
                effect_count,
                fault,
                closed@,
                *deliver,
                now@,
                nanos,
                mark,
                reconcile,
                done,
                self@,
                outcome(r),
            );
        }
        r
    }
}

/// Whether a fence lets the cancellation through that set it up.
pub open spec fn let_through(rows: RowsView, fence: Seq<char>, task_id: i64) -> Result<
    (),
    ProblemView,
> {
    if fenced(rows.fences, fence, task_id) {
        Ok(())
    } else {
        Err(ProblemView::ControllerLeaseExpired)
    }
}

/// What comes of a cancellation that was under way when it is finished: only the fence
/// that it set up lets it through, and what it expects was settled when it began. What it
/// leaves to do closes its store until it is done.
pub open spec fn cancel_finished<F: FnOnce() -> Result<EffectOutput, CommandProblem>>(
    k: KernelView,
    at: int,
    e: EnvelopeView,
    fence: Seq<char>,
    task_id: i64,
    rows: RowsView,
    effect: F,
    now: Seq<char>,
    end: KernelView,
    answer: Result<AppliedView, KernelProblemView>,
) -> bool {
    exists|done: (Intents, TargetTables, Result<AppliedView, ProblemView>)|
        #[trigger] dispatched(
            k.intents,
            k.targets[at],
            e,
            e.digest(k.key),
            let_through(rows, fence, task_id),
            Ok(()),
            effect,
            None,
            now,
            done,
        ) && end == k.carried(
            at,
            (Carrying { intents: done.0, target: done.1, journal: held_back(k.journal, done.1) }),
        ) && answer == (match done.2 {
            Ok(a) => Ok::<AppliedView, KernelProblemView>(a),
            Err(p) => Err(kernel_of_command(p)),
        })
}

impl InProcessCoreKernel {
    /// Finishes a cancellation that was under way, whoever holds the lease now.
    pub fn finish_cancel<F: FnOnce() -> Result<EffectOutput, CommandProblem>>(
        &mut self,
        at: usize,
        id: CommandId,
        command: &WorkflowRunCommand,
        fence: &str,
        task_id: i64,
        rows: &ProjectRows,
        effect: F,
        now: &str,
    ) -> (r: Result<CommandOutcome, KernelProblem>)
        requires
            old(self).wf(),
            at < old(self)@.targets.len(),
            old(self)@.journal.poisoned.len() == 0,
            effect.requires(()),
        ensures
            final(self).wf(),
            never_closed(old(self)@.targets, final(self)@.targets),
            final(self)@.journal.poisoned.len() == 0,
            match recovered(id@, command@) {
                Err(p) => final(self)@ == old(self)@ && kernel_result(r) == Err::<
                    AppliedView,
                    KernelProblemView,
                >(p),
                Ok(e) => cancel_finished(
                    old(self)@,
                    at as int,
                    e,
                    fence@,
                    task_id,
                    rows@,
                    effect,
                    now@,
                    final(self)@,
                    kernel_result(r),
                ),
            },
    {
        proof {
            lemma_same_stores(self@.targets);
        }
        let envelope: CommandEnvelope = match recover_cancel(id, command) {
            Ok(e) => e,
            Err(p) => {
                return Err(p);
            },
        };
        let ghost start = self@;
        let ghost had = self.targets@;
        assert(had[at as int].wf());
        let authorizer: CancelRecoveryAuthorizer = CancelRecoveryAuthorizer {
            command_id: fence,
            task_id,
            rows,
        };
        let done: Result<CommandOutcome, CommandProblem> = self.coordinator.dispatch_internal(
            &mut self.intents,
            &envelope,
            &mut self.targets[at],
            &authorizer,
            effect,
            None,
            now,
        );
        let ghost way = (self.intents@, self.targets@[at as int]@, outcome(done));
        proof {
            assert(tables(self.targets@) =~= tables(had).update(at as int, way.1));
            assert(targets_wf(self.targets@));
            assert(dispatched(
                start.intents,
                start.targets[at as int],
                envelope@,
                envelope@.digest(start.key),
                let_through(rows@, fence@, task_id),
                Ok(()),
                effect,
                None,
                now@,
                way,
            ));
            lemma_dispatched(
                start.intents,
                start.targets[at as int],
                envelope@,
                envelope@.digest(start.key),
                let_through(rows@, fence@, task_id),
                Ok(()),
                effect,
                None,
                now@,
                way,
            );
        }
        if target_has_pending_run_actions(&self.targets[at]) {
            self.journal.block_for_run_actions(self.targets[at].store_key());
        }
        proof {
            let c = Carrying {
                intents: way.0,
                target: way.1,
                journal: held_back(start.journal, way.1),
            };
            assert(self@ == start.carried(at as int, c));
            lemma_guard_at(start, at as int, c);
        }
        match done {
            Ok(o) => Ok(o),
            Err(p) => Err(KernelProblem::from_command(p)),
        }
    }
}

/// The way of an agent's command up to its effect, from its token on: what the token is
/// good for, by the registry and by every open store, which project it is for, and where
/// in it the command acts.
pub open spec fn control_begun(
    k: KernelView,
    s: StoreView,
    key: Seq<u8>,
    token: Seq<char>,
    c: ControlView,
    command_id: Seq<char>,
    rows: Seq<RowsView>,
    ports: Seq<bool>,
    closed: Seq<bool>,
    now: Seq<char>,
) -> (
    KernelView,
    StoreView,
    Result<(int, CapabilityView, LocationView, EnvelopeView), TokenProblemView>,
) {
    if control_refusal(token, c) is Some {
        (k, s, Err(control_refusal(token, c)->0))
    } else {
        let (ready, gate) = let_in(k, closed, now);
        match gate {
            Err(p) => (ready, s, Err(TokenProblemView::Kernel(p))),
            Ok(_) => match token_code(key, vstd::utf8::encode_utf8(token)) {
                Err(m) => (ready, s, Err(inside("run capability resolve 失败:"@ + m))),
                Ok(code) => {
                    let hits = token_hits(k.projects, rows, token, k.projects.len());
                    let (after, authority) = authority_view(s, code, hits, now);
                    (
                        ready,
                        after,
                        match authority {
                            Err(p) => Err(p),
                            Ok(cap) => match project_at(k.projects, cap.project, 0) {
                                None => Err(TokenProblemView::UnknownToken),
                                Some(i) => match begun_control(
                                    cap,
                                    Some(k.projects[i].closing),
                                    rows[i],
                                    token,
                                    c,
                                    command_id,
                                    ports[i],
                                ) {
                                    Err(p) => Err(p),
                                    Ok((at, e)) => Ok((i, cap, at, e)),
                                },
                            },
                        },
                    )
                },
            },
        }
    }
}

/// What holds between an agent's command and what the agent is told: the command is
/// carried out or answered from its receipt, what it leaves to do is done, what came of it
/// is published, and the token of a run that ended is sealed.
pub open spec fn control_concluded<
    F: FnOnce() -> Result<EffectOutput, CommandProblem>,
    D: Fn(&RunActionDelivery) -> Result<(), KernelProblem>,
    M: FnOnce() -> bool,
    R: FnOnce() -> bool,
>(
    k: KernelView,
    i: int,
    s: StoreView,
    key: Seq<u8>,
    rows: RowsView,
    token: Seq<char>,
    agent_run: Seq<char>,
    at: LocationView,
    e: EnvelopeView,
    c: ControlView,
    digest: Seq<char>,
    effect: F,
    deliver: D,
    now: Seq<char>,
    nanos: u64,
    mark: M,
    reconcile: R,
    end: KernelView,
    end_s: StoreView,
    answer: Result<ControlOutcomeView, TokenProblemView>,
) -> bool {
    exists|done: (Intents, TargetTables, Result<AppliedView, TokenProblemView>)|
        #[trigger] control_carried(
            k.intents,
            k.targets[i],
            rows,
            token,
            agent_run,
            at,
            e,
            c,
            digest,
            effect,
            now,
            done,
        ) && control_told(
            k,
            i,
            s,
            token_code(key, vstd::utf8::encode_utf8(token)),
            c,
            done,
            deliver,
            now,
            nanos,
            mark,
            reconcile,
            end,
            end_s,
            answer,
        )
}

/// What is told of an agent's command that was carried out. Its store is closed until what
/// it leaves to do is done.
pub open spec fn control_told<
    D: Fn(&RunActionDelivery) -> Result<(), KernelProblem>,
    M: FnOnce() -> bool,
    R: FnOnce() -> bool,
>(
    k: KernelView,
    i: int,
    s: StoreView,
    code: Result<Seq<char>, Seq<char>>,
    c: ControlView,
    done: (Intents, TargetTables, Result<AppliedView, TokenProblemView>),
    deliver: D,
    now: Seq<char>,
    nanos: u64,
    mark: M,
    reconcile: R,
    end: KernelView,
    end_s: StoreView,
    answer: Result<ControlOutcomeView, TokenProblemView>,
) -> bool {
    let ready = k.carried(
        i,
        (Carrying { intents: done.0, target: done.1, journal: held_back(k.journal, done.1) }),
    );
    match done.2 {
        Err(p) => end == ready && end_s == s && answer == Err::<
            ControlOutcomeView,
            TokenProblemView,
        >(p),
        Ok(a) => exists|did: Result<(), KernelProblemView>| #[trigger]
            delivered(ready, i, deliver, now, nanos, mark, reconcile, end, did) && match did {
                Err(p) => end_s == s && answer == Err::<ControlOutcomeView, TokenProblemView>(
                    TokenProblemView::Kernel(p),
                ),
                Ok(_) => (end_s, answer) == finished_control(s, code, c, a.result, now),
            },
    }
}

impl InProcessCoreKernel {
    /// The way of an agent's command up to its effect. `rows` and `ports` are those of the
    /// open projects, one for each: what a store holds, and whether its agents can be
    /// reached. A pipeline that is proposed is taken as it stands: who calls this has brought
    /// it into its normal form, once it was seen to hold no token.
    pub fn begin_run_control(
        &mut self,
        store: &mut ServiceStore,
        key: &RunCapabilityKey,
        token: &str,
        command: &RunControlCommand,
        command_id: &CommandId,
        rows: &Vec<ProjectRows>,
        ports: &Vec<bool>,
        closed: &Vec<bool>,
        now: &str,
    ) -> (r: Result<(usize, ControlPlan), TokenSettleProblem>)
        requires
            old(self).wf(),
            old(store)@.sound(),
            rows@.len() == old(self)@.projects.len(),
            ports@.len() == old(self)@.projects.len(),
            closed@.len() == old(self)@.projects.len(),
        ensures
            final(self).wf(),
            final(store)@.sound(),
            never_lost(old(self)@.targets, final(self)@.targets),
            r is Ok ==> final(self)@.journal.poisoned.len() == 0,
            ({
                let (k, s, way) = control_begun(
                    old(self)@,
                    old(store)@,
                    key@,
                    token@,
                    command@,
                    command_id@,
                    all_rows(rows@),
                    ports@,
                    closed@,
                    now@,
                );
                &&& final(self)@ == k
                &&& final(store)@ == s
                &&& match r {
                    Ok((i, plan)) => {
                        &&& way == Ok::<
                            (int, CapabilityView, LocationView, EnvelopeView),
                            TokenProblemView,
                        >((i as int, plan.capability@, plan.at@, plan.envelope@))
                        &&& i < final(self)@.targets.len()
                        &&& plan.target@ == plan.envelope@.target.aggregate
                        &&& plan.command_type == plan.envelope@.command_type
                    },
                    Err(p) => way == Err::<
                        (int, CapabilityView, LocationView, EnvelopeView),
                        TokenProblemView,
                    >(p@),
                }
            }),
    {
        proof {
            lemma_same_stores(self@.targets);
            lemma_let_in(self@, closed@, now@);
        }
        match check_run_control(token, command) {
            Ok(_) => {},
            Err(p) => {
                return Err(p);
            },
        }
        match self.journal.linearize_run_actions(&mut self.targets, closed, now) {
            Ok(_) => {},
            Err(p) => {
                return Err(TokenSettleProblem::Kernel(p));
            },
        }
        let hits: Vec<StoreHit> = scan_tokens(&self.projects, rows, token);
        let capability: RunCapability = match resolve_authority(store, key, token, &hits, now) {
            Ok(c) => c,
            Err(p) => {
                return Err(p);
            },
        };
        let i: usize = match find_project(&self.projects, capability.project.as_str()) {
            Some(i) => i,
            None => {
                return Err(TokenSettleProblem::UnknownToken);
            },
        };
        assert(registrations(self.projects@)[i as int] == self.projects@[i as int]@);
        assert(all_rows(rows@)[i as int] == rows@[i as int]@);
        match begin_run_control(
            capability,
            Some(self.projects[i].closing),
            &rows[i],
            token,
            command,
            command_id,
            ports[i],
        ) {
            Ok(plan) => Ok((i, plan)),
            Err(p) => Err(p),
        }
    }

    /// Carries an agent's command out, does what it leaves to do, publishes what came of
    /// it, and seals the token of a run that ended.
    /// `digest` is that of what the command means on its run: who calls this has made it,
    /// and makes the same one for the same meaning.
    pub fn conclude_run_control<
        F: FnOnce() -> Result<EffectOutput, CommandProblem>,
        D: Fn(&RunActionDelivery) -> Result<(), KernelProblem>,
        M: FnOnce() -> bool,
        R: FnOnce() -> bool,
    >(
        &mut self,
        i: usize,
        plan: &ControlPlan,
        store: &mut ServiceStore,
        key: &RunCapabilityKey,
        rows: &ProjectRows,
        token: &str,
        command: &RunControlCommand,
        digest: &str,
        effect: F,
        deliver: &D,
        now: &str,
        nanos: u64,
        mark: M,
        reconcile: R,
    ) -> (r: Result<RunControlOutcome, TokenSettleProblem>)
        requires
            old(self).wf(),
            old(store)@.sound(),
            i < old(self)@.targets.len(),
            old(self)@.journal.poisoned.len() == 0,
            plan.target@ == plan.envelope@.target.aggregate,
            plan.command_type == plan.envelope@.command_type,
            effect.requires(()),
            mark.requires(()),
            reconcile.requires(()),
            forall|d: RunActionDelivery| #[trigger] deliver.requires((&d,)),
        ensures
            final(self).wf(),
            final(store)@.sound(),
            never_closed(old(self)@.targets, final(self)@.targets),
            control_concluded(
                old(self)@,
                i as int,
                old(store)@,
                key@,
                rows@,
                token@,
                plan.capability@.agent_run,
                plan.at@,
                plan.envelope@,
                command@,
                digest@,
                effect,
                *deliver,
                now@,
                nanos,
                mark,
                reconcile,
                final(self)@,
                final(store)@,
                control_answer(r),
            ),
    {
        let ghost start = self@;
        let ghost had = self.targets@;
        let ghost before = store@;
        let ghost code = token_code(key@, vstd::utf8::encode_utf8(token@));
        assert(had[i as int].wf());
        assert(start.targets[i as int] == had[i as int]@);
        let applied: Result<CommandOutcome, TokenSettleProblem> = apply_run_control(
            &self.coordinator,
            &mut self.intents,
            &mut self.targets[i],
            rows,
            token,
            plan,
            command,
            digest,
            effect,
            now,
        );
        let ghost done = (self.intents@, self.targets@[i as int]@, applied_result(applied));
        let ghost c = Carrying {
            intents: done.0,
            target: done.1,
            journal: held_back(start.journal, done.1),
        };
        let ghost ready = start.carried(i as int, c);
        if target_has_pending_run_actions(&self.targets[i]) {
            self.journal.block_for_run_actions(self.targets[i].store_key());
        }
        proof {
            assert(tables(self.targets@) =~= tables(had).update(i as int, done.1));
            assert(targets_wf(self.targets@));
            assert(self@ == ready);
            lemma_control(
                start,
                i as int,
                rows@,
                token@,
                plan.capability@.agent_run,
                plan.at@,
                plan.envelope@,
                command@,
                digest@,
                effect,
                now@,
                done,
            );
            lemma_guard_at(start, i as int, c);
            assert(control_carried(
                start.intents,
                start.targets[i as int],
                rows@,
                token@,
                plan.capability@.agent_run,
                plan.at@,
                plan.envelope@,
                command@,
                digest@,
                effect,
                now@,
                done,
            ));
        }
        let outcome_of_it: CommandOutcome = match applied {
            Ok(o) => o,
            Err(p) => {
                assert(control_told(
                    start,
                    i as int,
                    before,
                    code,
                    command@,
                    done,
                    *deliver,
                    now@,
                    nanos,
                    mark,
                    reconcile,
                    self@,
                    store@,
                    Err(p@),
                ));
                return Err(p);
            },
        };
        let did: Result<(), KernelProblem> = self.deliver(
            i,
            deliver,
            now,
            nanos,
            mark,
            reconcile,
        );
        let ghost said = outcome(did);
        proof {
            lemma_never_closed_on(start.targets, ready.targets, self@.targets);
        }
        assert(delivered(
            ready,
            i as int,
            *deliver,
            now@,
            nanos,
            mark,
            reconcile,
            self@,
            said,
        ));
        match did {
            Err(p) => {
                assert(said == Err::<(), KernelProblemView>(p@));
                assert(control_told(
                    start,
                    i as int,
                    before,
                    code,
                    command@,
                    done,
                    *deliver,
                    now@,
                    nanos,
                    mark,
                    reconcile,
                    self@,
                    store@,
                    Err(TokenProblemView::Kernel(p@)),
                ));
                Err(TokenSettleProblem::Kernel(p))
            },
            Ok(_) => {
                assert(said is Ok);
                let CommandOutcome::Applied { result_revisions, .. } = outcome_of_it;
                let r: Result<RunControlOutcome, TokenSettleProblem> = finish_run_control(
                    store,
                    key,
                    token,
                    command,
                    &result_revisions,
                    now,
                );
                assert(control_told(
                    start,
                    i as int,
                    before,
                    code,
                    command@,
                    done,
                    *deliver,
                    now@,
                    nanos,
                    mark,
                    reconcile,
                    self@,
                    store@,
                    control_answer(r),
                ));
                r
            },
        }
    }
}

proof fn lemma_control<F: FnOnce() -> Result<EffectOutput, CommandProblem>>(
    k: KernelView,
    i: int,
    rows: RowsView,
    token: Seq<char>,
    agent_run: Seq<char>,
    at: LocationView,
    e: EnvelopeView,
    c: ControlView,
    digest: Seq<char>,
    effect: F,
    now: Seq<char>,
    done: (Intents, TargetTables, Result<AppliedView, TokenProblemView>),
)
    requires
        control_carried(
            k.intents,
            k.targets[i],
            rows,
            token,
            agent_run,
            at,
            e,
            c,
            digest,
            effect,
            now,
            done,
        ),
    ensures
        done.1.store_key == k.targets[i].store_key,
        closes_no_actions(k.targets[i].outbox, done.1.outbox),
{
    let t = k.targets[i];
    lemma_same_rows(t.outbox);
    if done.1 != t {
        let admission = crate::run_control::control_admission(rows, agent_run, token, at, e);
        let expectation = crate::authority::token_expectations(rows, e.expected, 0);
        let answer = choose|answer: Result<AppliedView, ProblemView>| #[trigger]
            dispatched(
                k.intents,
                t,
                e,
                Ok(digest),
                admission,
                expectation,
                effect,
                None,
                now,
                (done.0, done.1, answer),
            );
        lemma_dispatched(
            k.intents,
            t,
            e,
            Ok(digest),
            admission,
            expectation,
            effect,
            None,
            now,
            (done.0, done.1, answer),
        );
    }
}

proof fn lemma_start_ran<
    E: StepEffects,
    D: Fn(&RunActionDelivery) -> Result<(), KernelProblem>,
    M: FnOnce() -> bool,
    R: FnOnce() -> bool,
>(
    k: KernelView,
    project: Seq<char>,
    ports: RunPorts,
    op: OperationView,
    plan: PlanView,
    rows: RowsView,
    effects: E,
    effect_count: usize,
    fault: Option<OperationFaultPoint>,
    closed: Seq<bool>,
    deliver: D,
    now: Seq<char>,
    nanos: u64,
    mark: M,
    reconcile: R,
    done: RunView,
    end: KernelView,
    answer: Result<EndView, KernelProblemView>,
)
    requires
        start_run_problem(k.projects, project, ports, true) is None,
        let_in(k, closed, now).1 is Ok,
        operation_ran(
            let_in(k, closed, now).0,
            op,
            plan,
            rows,
            effects,
            effect_count,
            fault,
            now,
            done,
        ),
        start_ended(
            KernelView {
                intents: done.intents,
                targets: done.targets,
                ..let_in(k, closed, now).0
            },
            open_project(k.projects, project)->Ok_0,
            done.answer,
            deliver,
            now,
            nanos,
            mark,
            reconcile,
            end,
            answer,
        ),
    ensures
        start_ran(
            k,
            project,
            ports,
            op,
            Some(plan),
            rows,
            effects,
            effect_count,
            fault,
            closed,
            deliver,
            now,
            nanos,
            mark,
            reconcile,
            end,
            done.op,
            answer,
        ),
{
    let p: Option<PlanView> = Some(plan);
    assert(operation_ran(
        let_in(k, closed, now).0,
        op,
        p->0,
        rows,
        effects,
        effect_count,
        fault,
        now,
        done,
    ));
}

proof fn lemma_close_keeps_count(v: Seq<RegistrationRow>, project: Seq<char>)
    ensures
        close_begun(v, project) matches Ok(pair) ==> pair.0.len() == v.len(),
{
    lemma_project_at(v, project, 0);
}

proof fn lemma_restart_keeps_count(
    intents: Intents,
    ops: Seq<OperationView>,
    targets: Seq<TargetTables>,
    now: Seq<char>,
)
    ensures
        restart_view(intents, ops, targets, now).targets.len() == targets.len(),
{
}

/// What a project that comes in leaves of the others behind the way in.
proof fn lemma_entering(
    k: KernelView,
    project: Seq<char>,
    target: TargetTables,
    at: Option<int>,
    closed: Seq<bool>,
    now: Seq<char>,
)
    requires
        k.guarded(),
        at == project_at(k.projects, project, 0),
        target.store_key == "project:"@ + project,
        at is Some ==> 0 <= at->0 < k.targets.len() && k.projects[at->0].project == project,
    ensures
        ({
            let all = entered(k.targets, at, target);
            let gate = gate_view(k.journal, all, closed, now);
            &&& gate.1.len() == all.len()
            &&& forall|i: int|
                0 <= i < all.len() ==> (#[trigger] gate.1[i]).store_key == all[i].store_key
            &&& at is None || !waits_with_actions(target.outbox) ==> {
                &&& (KernelView { journal: gate.0, targets: left(gate.1, at), ..k }).guarded()
                &&& forall|i: int|
                    0 <= i < k.targets.len() && at != Some(i) ==> {
                        &&& closes_no_actions(k.targets[i].outbox, (#[trigger] gate.1[i]).outbox)
                        &&& keeps_actions(k.targets[i].outbox, gate.1[i].outbox)
                    }
                &&& gate.2 is Ok ==> forall|i: int|
                    0 <= i < k.targets.len() ==> !waits_with_actions(
                        (#[trigger] gate.1[i]).outbox,
                    )
            }
        }),
{
    let all = entered(k.targets, at, target);
    let gate = gate_view(k.journal, all, closed, now);
    let x = match at {
        Some(i) => i,
        None => k.targets.len() as int,
    };
    assert forall|i: int|
        0 <= i < all.len() && i != x && waits_with_actions(
            (#[trigger] all[i]).outbox,
        ) implies !k.journal.poisoned.contains(all[i].store_key) by {
        assert(all[i] == k.targets[i]);
    }
    lemma_recovery_but(k.journal, all, closed, now, x);
    lemma_same_stores(all);
    if at is None || !waits_with_actions(target.outbox) {
        let end = KernelView { journal: gate.0, targets: left(gate.1, at), ..k };
        assert forall|i: int|
            0 <= i < all.len() && waits_with_actions(
                (#[trigger] all[i]).outbox,
            ) && i < k.targets.len() implies !k.journal.poisoned.contains(all[i].store_key)
            && k.journal.blocked.contains(all[i].store_key) by {
            assert(i != x);
            assert(all[i] == k.targets[i]);
        }
        if at is Some {
            lemma_recovery_but(k.journal, all, closed, now, -1);
        }
        assert forall|i: int| 0 <= i < end.targets.len() implies {
            &&& (#[trigger] end.targets[i]).store_key == "project:"@ + end.projects[i].project
            &&& waits_with_actions(end.targets[i].outbox) ==> end.journal.blocked.contains(
                end.targets[i].store_key,
            ) && !end.journal.poisoned.contains(end.targets[i].store_key)
        } by {
            assert(end.targets[i] == gate.1[i]);
            assert(gate.1[i].store_key == all[i].store_key);
            if i != x {
                assert(all[i] == k.targets[i]);
            }
            if waits_with_actions(end.targets[i].outbox) {
                assert(waits_with_actions(all[i].outbox));
            }
        }
        if gate.2 is Ok {
            assert(!any_blocked(gate.0, gate.1));
            assert forall|i: int| 0 <= i < k.targets.len() implies !waits_with_actions(
                (#[trigger] gate.1[i]).outbox,
            ) by {
                assert(!gate.0.blocked.contains(gate.1[i].store_key));
                assert(end.targets[i] == gate.1[i]);
            }
        }
    }
}

/// What telling everything leaves of the stores when a project comes in.
proof fn lemma_entered_safely(
    k: KernelView,
    project: Seq<char>,
    at: Option<int>,
    open: Seq<TargetTables>,
    after: (JournalView, Seq<TargetTables>),
)
    requires
        k.guarded(),
        told_safely(open, after.1, k.targets.len() as int),
        open.len() == (if at is Some {
            k.targets.len()
        } else {
            k.targets.len() + 1
        }),
        forall|i: int|
            0 <= i < k.targets.len() ==> (#[trigger] open[i]).store_key == "project:"@
                + k.projects[i].project,
        forall|i: int|
            0 <= i < k.targets.len() && at != Some(i) ==> {
                &&& closes_no_actions(k.targets[i].outbox, (#[trigger] open[i]).outbox)
                &&& keeps_actions(k.targets[i].outbox, open[i].outbox)
            },
        forall|i: int|
            0 <= i < k.targets.len() ==> !waits_with_actions((#[trigger] open[i]).outbox),
    ensures
        (KernelView { journal: after.0, targets: left(after.1, at), ..k }).guarded(),
        forall|i: int|
            0 <= i < k.targets.len() && at != Some(i) ==> {
                &&& closes_no_actions(k.targets[i].outbox, (#[trigger] after.1[i]).outbox)
                &&& keeps_actions(k.targets[i].outbox, after.1[i].outbox)
            },
{
    let end = KernelView { journal: after.0, targets: left(after.1, at), ..k };
    assert forall|i: int| 0 <= i < end.targets.len() implies {
        &&& (#[trigger] end.targets[i]).store_key == "project:"@ + end.projects[i].project
        &&& !waits_with_actions(end.targets[i].outbox)
    } by {
        assert(end.targets[i] == after.1[i]);
        assert(after.1[i].store_key == open[i].store_key);
    }
    assert forall|i: int| 0 <= i < k.targets.len() && at != Some(i) implies {
        &&& closes_no_actions(k.targets[i].outbox, (#[trigger] after.1[i]).outbox)
        &&& keeps_actions(k.targets[i].outbox, after.1[i].outbox)
    } by {
        assert(after.1[i].store_key == open[i].store_key);
        lemma_closes_on(k.targets[i].outbox, open[i].outbox, after.1[i].outbox);
        lemma_none_kept(k.targets[i].outbox, open[i].outbox, after.1[i].outbox);
    }
}

proof fn lemma_none_kept(x: Seq<OutboxView>, y: Seq<OutboxView>, z: Seq<OutboxView>)
    requires
        keeps_actions(x, y),
        !waits_with_actions(y),
    ensures
        keeps_actions(x, z),
        !waits_with_actions(x),
{
    assert forall|r: int|
        0 <= r < x.len() && (#[trigger] x[r]).published_at is None && has_actions(
            x[r].event,
        ) implies false by {
        let m = choose|m: int| 0 <= m < y.len() && y[m] == x[r];
        assert(has_actions(y[m].event));
    }
}

/// What bringing everything to an end leaves of the stores when a project comes in.
proof fn lemma_restarted(
    k: KernelView,
    project: Seq<char>,
    opening: u64,
    at: Option<int>,
    ops: Seq<OperationView>,
    after: (JournalView, Seq<TargetTables>),
    now: Seq<char>,
)
    requires
        k.guarded(),
        at == project_at(k.projects, project, 0),
        at is Some ==> 0 <= at->0 < k.targets.len() && k.projects[at->0].project == project,
        after.1.len() == (if at is Some {
            k.targets.len()
        } else {
            k.targets.len() + 1
        }),
        (KernelView { journal: after.0, targets: left(after.1, at), ..k }).guarded(),
        at is None ==> after.1.last().store_key == "project:"@ + project,
        forall|i: int|
            0 <= i < k.targets.len() ==> !waits_with_actions((#[trigger] after.1[i]).outbox),
        forall|i: int|
            0 <= i < k.targets.len() && at != Some(i) ==> {
                &&& closes_no_actions(k.targets[i].outbox, (#[trigger] after.1[i]).outbox)
                &&& keeps_actions(k.targets[i].outbox, after.1[i].outbox)
            },
    ensures
        ({
            let end = brought_in(
                KernelView { journal: after.0, targets: after.1, ..k },
                ops,
                project,
                opening,
                at,
                now,
            ).0;
            &&& end.guarded()
            &&& forall|i: int|
                0 <= i < k.targets.len() && at != Some(i) ==> {
                    &&& closes_no_actions(k.targets[i].outbox, (#[trigger] end.targets[i]).outbox)
                    &&& keeps_actions(k.targets[i].outbox, end.targets[i].outbox)
                }
        }),
{
    let mid = KernelView { journal: after.0, targets: left(after.1, at), ..k };
    let came = brought_in(
        KernelView { journal: after.0, targets: after.1, ..k },
        ops,
        project,
        opening,
        at,
        now,
    );
    let end = came.0;
    let targets = restart_view(k.intents, ops, after.1, now).targets;
    assert forall|i: int| 0 <= i < after.1.len() implies {
        &&& (#[trigger] targets[i]).store_key == after.1[i].store_key
        &&& i < k.targets.len() ==> closes_no_actions(after.1[i].outbox, targets[i].outbox)
            && !waits_with_actions(targets[i].outbox)
        &&& came.2 is Ok ==> !waits_with_actions(targets[i].outbox)
    } by {
        lemma_same_rows(after.1[i].outbox);
        lemma_given_up(after.1[i], now);
    }
    lemma_project_absent(k.projects, project, 0);
    assert forall|i: int| 0 <= i < end.targets.len() implies {
        &&& (#[trigger] end.targets[i]).store_key == "project:"@ + end.projects[i].project
        &&& !waits_with_actions(end.targets[i].outbox)
    } by {
        assert(end.targets[i] == targets[i]);
        if i < mid.targets.len() {
            assert(mid.targets[i] == after.1[i]);
        }
    }
    assert forall|i: int, j: int| 0 <= i < j < end.projects.len() implies (
    #[trigger] end.projects[i]).project != (#[trigger] end.projects[j]).project by {
        if j < k.projects.len() {
            assert(k.projects[i].project != k.projects[j].project);
        }
    }
    assert forall|i: int| 0 <= i < k.targets.len() && at != Some(i) implies {
        &&& closes_no_actions(k.targets[i].outbox, (#[trigger] end.targets[i]).outbox)
        &&& keeps_actions(k.targets[i].outbox, end.targets[i].outbox)
    } by {
        assert(end.targets[i] == targets[i]);
        assert(closes_no_actions(k.targets[i].outbox, after.1[i].outbox));
        lemma_closes_on(k.targets[i].outbox, after.1[i].outbox, targets[i].outbox);
        lemma_none_kept(k.targets[i].outbox, after.1[i].outbox, targets[i].outbox);
    }
}

proof fn lemma_project_absent(v: Seq<RegistrationRow>, project: Seq<char>, from: int)
    requires
        0 <= from,
    ensures
        project_at(v, project, from) is None ==> forall|i: int|
            from <= i < v.len() ==> (#[trigger] v[i]).project != project,
    decreases v.len() - from,
{
    if from < v.len() {
        lemma_project_absent(v, project, from + 1);
    }
}

} // verus!
