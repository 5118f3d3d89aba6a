//! Who may send commands: the controller under its lease, an agent run by its token,
//! and the recovery of a cancellation that was under way.

use crate::command::{CommandProblem, CommandType, ProblemView};
use crate::handles::{
    expectations, outcome, AgentRunHandle, AggregateKind, AggregateRef, AggregateView, ClientId,
    ExpectedRevision, ExpectedView, Principal, StepHandle, WorkflowRunHandle, axes,
};
use crate::lease::{CommandAuthorizer, CommandPermit, InputLeaseVerdict, LeaseCheck, LeaseView};
use crate::problem::{KernelProblem, KernelProblemView};
use crate::project_rows::{
    agent_run_by_handle, fenced, find_agent_run_by_handle, find_session_by_handle,
    find_step_by_handle, find_step_by_id, find_task_by_handle, find_task_by_id,
    find_workflow_by_handle, is_fenced, session_by_handle, step_by_handle, step_by_id,
    task_by_handle, task_by_id, workflow_by_handle, AgentRunRow, AgentRunView, ProjectRows,
    RowsView,
};
use crate::text::{cat, cat3, is_blank, same};
use vstd::prelude::*;
use vstd::string::*;

verus! {

/// The lease of the one controller. Each grant turns the epoch, which ends the one
/// before.
pub struct ControllerLease {
    epoch: u64,
    controller: Option<ClientId>,
    principal: Option<Principal>,
}

/// The lease of the one controller, as a value.
pub ghost struct ControllerView {
    pub epoch: u64,
    pub controller: Option<Seq<char>>,
    pub principal: Option<Seq<char>>,
}

impl View for ControllerLease {
    type V = ControllerView;

    closed spec fn view(&self) -> ControllerView {
        ControllerView {
            epoch: self.epoch,
            controller: match self.controller {
                Some(c) => Some(c@),
                None => None,
            },
            principal: match self.principal {
                Some(p) => Some(p@),
                None => None,
            },
        }
    }
}

impl ControllerView {
    /// The lease after a grant, and the epoch of it.
    pub open spec fn granted(self, client: Seq<char>, principal: Seq<char>) -> (
        ControllerView,
        Result<u64, KernelProblemView>,
    ) {
        if self.epoch == u64::MAX {
            (self, Err(KernelProblemView::ServiceUnavailable("controller_epoch_exhausted"@)))
        } else {
            (
                ControllerView {
                    epoch: (self.epoch + 1) as u64,
                    controller: Some(client),
                    principal: Some(principal),
                },
                Ok((self.epoch + 1) as u64),
            )
        }
    }

    /// Whether the asker holds the lease. No command of a controller names a root epoch.
    pub open spec fn admits(self, check: LeaseView) -> Result<(), ProblemView> {
        if check.controller_epoch != self.epoch || self.controller != Some(check.client_id)
            || self.principal != Some(check.principal) {
            Err(ProblemView::ControllerLeaseExpired)
        } else if check.root_epoch is Some {
            Err(ProblemView::RootEpochExpired)
        } else {
            Ok(())
        }
    }
}

impl ControllerLease {
    /// No one is the controller yet.
    pub fn new() -> (r: Self)
        ensures
            r@ == (ControllerView { epoch: 0, controller: None, principal: None }),
    {
        ControllerLease { epoch: 0, controller: None, principal: None }
    }

    /// Grants the lease. The one before ends at once.
    pub fn grant_controller_checked(&mut self, client: &ClientId, principal: &Principal) -> (r:
        Result<u64, KernelProblem>)
        ensures
            ({
                let (after, answer) = old(self)@.granted(client@, principal@);
                &&& final(self)@ == after
                &&& match r {
                    Ok(epoch) => answer == Ok::<u64, KernelProblemView>(epoch),
                    Err(p) => answer == Err::<u64, KernelProblemView>(p@),
                }
            }),
    {
        if self.epoch == u64::MAX {
            return Err(KernelProblem::unavailable("controller_epoch_exhausted"));
        }
        self.epoch = self.epoch + 1;
        self.controller = Some(client.clone());
        self.principal = Some(principal.clone());
        Ok(self.epoch)
    }

    /// Grants the lease to a client and a user by their names.
    pub fn grant_controller(&mut self, client_id: &str, principal: &str) -> (r: Result<
        u64,
        KernelProblem,
    >)
        ensures
            if is_blank(client_id@) {
                &&& final(self)@ == old(self)@
                &&& r matches Err(p) && p@ == KernelProblemView::Internal(
                    "client_id 非法:"@ + "client_id 不能为空"@,
                )
            } else if is_blank(principal@) {
                &&& final(self)@ == old(self)@
                &&& r matches Err(p) && p@ == KernelProblemView::Internal(
                    "principal 非法:"@ + "principal 不能为空"@,
                )
            } else {
                let (after, answer) = old(self)@.granted(client_id@, principal@);
                &&& final(self)@ == after
                &&& match r {
                    Ok(epoch) => answer == Ok::<u64, KernelProblemView>(epoch),
                    Err(p) => answer == Err::<u64, KernelProblemView>(p@),
                }
            },
    {
        let client: ClientId = match ClientId::parse(client_id) {
            Ok(c) => c,
            Err(p) => {
                return Err(KernelProblem::Internal(cat("client_id 非法:", p.message())));
            },
        };
        let user: Principal = match Principal::parse(principal) {
            Ok(u) => u,
            Err(p) => {
                return Err(KernelProblem::Internal(cat("principal 非法:", p.message())));
            },
        };
        self.grant_controller_checked(&client, &user)
    }

    /// The epoch of the lease.
    pub fn controller_epoch(&self) -> (r: u64)
        ensures
            r == self@.epoch,
    {
        self.epoch
    }

    /// Whether a byte that was let in under an epoch may still be written.
    pub fn verify_controller_epoch(&self, epoch: u64) -> (r: InputLeaseVerdict)
        ensures
            r == (if epoch == self@.epoch {
                InputLeaseVerdict::Current
            } else {
                InputLeaseVerdict::ControllerTakeover
            }),
    {
        if self.epoch == epoch {
            InputLeaseVerdict::Current
        } else {
            InputLeaseVerdict::ControllerTakeover
        }
    }

    fn check_lease(&self, check: &LeaseCheck) -> (r: Result<(), CommandProblem>)
        ensures
            outcome(r) == self@.admits(check@),
    {
        let holds: bool = match (&self.controller, &self.principal) {
            (Some(c), Some(p)) => c.same(check.client_id) && p.same(check.principal),
            _ => false,
        };
        if check.controller_epoch != self.epoch || !holds {
            return Err(CommandProblem::ControllerLeaseExpired);
        }
        if check.root_epoch.is_some() {
            return Err(CommandProblem::RootEpochExpired);
        }
        Ok(())
    }
}

/// A number of 64 bits read as a signed one.
pub open spec fn as_signed(n: nat) -> int {
    if n <= i64::MAX {
        n as int
    } else {
        n - 0x1_0000_0000_0000_0000
    }
}

pub(crate) fn signed_of(n: u64) -> (r: i64)
    ensures
        r == as_signed(n as nat),
{
    if n <= 0x7fff_ffff_ffff_ffff {
        n as i64
    } else {
        (n - 0x8000_0000_0000_0000) as i64 + i64::MIN
    }
}

/// The stored revision of something of a run, if it is there.
pub open spec fn run_revision(rows: RowsView, a: AggregateView) -> Option<i64> {
    match a.kind {
        AggregateKind::WorkflowRun => match task_by_handle(rows.tasks, a.handle, 0) {
            Some(row) => Some(row.revision),
            None => None,
        },
        AggregateKind::Step => match step_by_handle(rows.steps, a.handle, 0) {
            Some(row) => Some(row.revision),
            None => None,
        },
        AggregateKind::AgentRun => match agent_run_by_handle(rows.agent_runs, a.handle, 0) {
            Some(row) => Some(row.revision),
            None => None,
        },
        AggregateKind::AgentSession => match session_by_handle(rows.sessions, a.handle, 0) {
            Some(row) => Some(row.revision),
            None => None,
        },
        _ => None,
    }
}

/// Whether a kind is of something that belongs to a run.
pub open spec fn of_a_run(kind: AggregateKind) -> bool {
    kind is WorkflowRun || kind is Step || kind is AgentRun || kind is AgentSession
}

fn is_of_a_run(kind: AggregateKind) -> (r: bool)
    ensures
        r == of_a_run(kind),
{
    match kind {
        AggregateKind::WorkflowRun
        | AggregateKind::Step
        | AggregateKind::AgentRun
        | AggregateKind::AgentSession => true,
        _ => false,
    }
}

fn revision_of(rows: &ProjectRows, a: &AggregateRef) -> (r: Option<i64>)
    ensures
        r == run_revision(rows@, a@),
{
    match a.kind {
        AggregateKind::WorkflowRun => match find_task_by_handle(&rows.tasks, a.handle.as_str()) {
            Some(i) => Some(rows.tasks[i].revision),
            None => None,
        },
        AggregateKind::Step => match find_step_by_handle(&rows.steps, a.handle.as_str()) {
            Some(i) => Some(rows.steps[i].revision),
            None => None,
        },
        AggregateKind::AgentRun => match find_agent_run_by_handle(
            &rows.agent_runs,
            a.handle.as_str(),
        ) {
            Some(i) => Some(rows.agent_runs[i].revision),
            None => None,
        },
        AggregateKind::AgentSession => match find_session_by_handle(
            &rows.sessions,
            a.handle.as_str(),
        ) {
            Some(i) => Some(rows.sessions[i].revision),
            None => None,
        },
        _ => None,
    }
}

/// Whether the two revisions of a workflow are as expected, axis by axis.
pub open spec fn workflow_axes(
    semantic: i64,
    presentation: i64,
    revisions: Seq<(Seq<char>, nat)>,
    from: int,
) -> Result<(), ProblemView>
    decreases revisions.len() - from,
{
    if from >= revisions.len() {
        Ok(())
    } else {
        let (axis, expected) = revisions[from];
        if axis != "semantic_revision"@ && axis != "presentation_revision"@ {
            Err(ProblemView::InvalidEnvelope("未知 Workflow revision 轴:"@ + axis))
        } else if (if axis == "semantic_revision"@ {
            semantic
        } else {
            presentation
        }) != as_signed(expected) {
            Err(ProblemView::RevisionConflict)
        } else {
            workflow_axes(semantic, presentation, revisions, from + 1)
        }
    }
}

/// Whether the revision of a project's collection is as expected.
pub open spec fn collection_axes(
    collection: i64,
    revisions: Seq<(Seq<char>, nat)>,
    from: int,
) -> Result<(), ProblemView>
    decreases revisions.len() - from,
{
    if from >= revisions.len() {
        Ok(())
    } else {
        let (axis, expected) = revisions[from];
        if axis != "workflow_collection_revision"@ {
            Err(ProblemView::InvalidEnvelope("未知 Project revision 轴:"@ + axis))
        } else if collection != as_signed(expected) {
            Err(ProblemView::RevisionConflict)
        } else {
            collection_axes(collection, revisions, from + 1)
        }
    }
}

/// Whether the one revision of something of a run is as expected.
pub open spec fn run_axes(
    kind: AggregateKind,
    actual: i64,
    revisions: Seq<(Seq<char>, nat)>,
    from: int,
) -> Result<(), ProblemView>
    decreases revisions.len() - from,
{
    if from >= revisions.len() {
        Ok(())
    } else {
        let (axis, expected) = revisions[from];
        if axis != "revision"@ {
            Err(
                ProblemView::InvalidEnvelope(
                    "未知 "@ + kind.name() + " revision 轴:"@ + axis,
                ),
            )
        } else if actual < 0 {
            Err(ProblemView::Internal(kind.name() + " revision 溢出"@))
        } else if actual != expected {
            Err(ProblemView::RevisionConflict)
        } else {
            run_axes(kind, actual, revisions, from + 1)
        }
    }
}

/// Whether one aggregate is as a controller's command expects it.
pub open spec fn expectation_met(
    rows: RowsView,
    store_handle: Seq<char>,
    e: ExpectedView,
) -> Result<(), ProblemView> {
    let kind = e.aggregate.kind;
    if kind is ProjectWorkflow {
        match workflow_by_handle(rows.workflows, e.aggregate.handle, 0) {
            None => Err(ProblemView::ResourceNotFound),
            Some(w) => workflow_axes(
                w.semantic_revision,
                w.presentation_revision,
                e.revisions,
                0,
            ),
        }
    } else if kind is Project {
        if e.aggregate.handle != store_handle {
            Err(ProblemView::TargetStoreMismatch)
        } else {
            collection_axes(rows.collection_revision, e.revisions, 0)
        }
    } else if of_a_run(kind) {
        match run_revision(rows, e.aggregate) {
            None => Err(ProblemView::ResourceNotFound),
            Some(actual) => run_axes(kind, actual, e.revisions, 0),
        }
    } else {
        Err(ProblemView::InvalidEnvelope("当前 Project 命令不接受该 expected aggregate"@))
    }
}

/// Whether every aggregate is as a controller's command expects it; the first that is
/// not says why.
pub open spec fn expectations_met(
    rows: RowsView,
    store_handle: Seq<char>,
    expected: Seq<ExpectedView>,
    from: int,
) -> Result<(), ProblemView>
    decreases expected.len() - from,
{
    if from >= expected.len() {
        Ok(())
    } else {
        match expectation_met(rows, store_handle, expected[from]) {
            Err(p) => Err(p),
            Ok(_) => expectations_met(rows, store_handle, expected, from + 1),
        }
    }
}

fn check_workflow_axes(semantic: i64, presentation: i64, revisions: &Vec<(String, u64)>) -> (r:
    Result<(), CommandProblem>)
    ensures
        outcome(r) == workflow_axes(semantic, presentation, axes(revisions@), 0),
{
    let ghost all = axes(revisions@);
    let mut i: usize = 0;
    while i < revisions.len()
        invariant
            i <= revisions@.len(),
            all == axes(revisions@),
            workflow_axes(semantic, presentation, all, 0) == workflow_axes(
                semantic,
                presentation,
                all,
                i as int,
            ),
        decreases revisions@.len() - i,
    {
        assert(all[i as int] == (revisions@[i as int].0@, revisions@[i as int].1 as nat));
        let axis: &str = revisions[i].0.as_str();
        let actual: i64 = if same(axis, "semantic_revision") {
            semantic
        } else if same(axis, "presentation_revision") {
            presentation
        } else {
            return Err(
                CommandProblem::InvalidEnvelope(cat("未知 Workflow revision 轴:", axis)),
            );
        };
        if actual != signed_of(revisions[i].1) {
            return Err(CommandProblem::RevisionConflict);
        }
        i = i + 1;
    }
    Ok(())
}

fn check_collection_axes(collection: i64, revisions: &Vec<(String, u64)>) -> (r: Result<
    (),
    CommandProblem,
>)
    ensures
        outcome(r) == collection_axes(collection, axes(revisions@), 0),
{
    let ghost all = axes(revisions@);
    let mut i: usize = 0;
    while i < revisions.len()
        invariant
            i <= revisions@.len(),
            all == axes(revisions@),
            collection_axes(collection, all, 0) == collection_axes(collection, all, i as int),
        decreases revisions@.len() - i,
    {
        assert(all[i as int] == (revisions@[i as int].0@, revisions@[i as int].1 as nat));
        let axis: &str = revisions[i].0.as_str();
        if !same(axis, "workflow_collection_revision") {
            return Err(
                CommandProblem::InvalidEnvelope(cat("未知 Project revision 轴:", axis)),
            );
        }
        if collection != signed_of(revisions[i].1) {
            return Err(CommandProblem::RevisionConflict);
        }
        i = i + 1;
    }
    Ok(())
}

fn check_run_axes(kind: AggregateKind, actual: i64, revisions: &Vec<(String, u64)>) -> (r: Result<
    (),
    CommandProblem,
>)
    ensures
        outcome(r) == run_axes(kind, actual, axes(revisions@), 0),
{
    let ghost all = axes(revisions@);
    let mut i: usize = 0;
    while i < revisions.len()
        invariant
            i <= revisions@.len(),
            all == axes(revisions@),
            run_axes(kind, actual, all, 0) == run_axes(kind, actual, all, i as int),
        decreases revisions@.len() - i,
    {
        assert(all[i as int] == (revisions@[i as int].0@, revisions@[i as int].1 as nat));
        let axis: &str = revisions[i].0.as_str();
        if !same(axis, "revision") {
            let mut m: String = cat3("未知 ", kind.as_str(), " revision 轴:");
            m.append(axis);
            return Err(CommandProblem::InvalidEnvelope(m));
        }
        if actual < 0 {
            return Err(CommandProblem::Internal(cat(kind.as_str(), " revision 溢出")));
        }
        if actual as u64 != revisions[i].1 {
            return Err(CommandProblem::RevisionConflict);
        }
        i = i + 1;
    }
    Ok(())
}

fn check_expectation(rows: &ProjectRows, store_handle: &str, e: &ExpectedRevision) -> (r: Result<
    (),
    CommandProblem,
>)
    ensures
        outcome(r) == expectation_met(rows@, store_handle@, e@),
{
    match e.aggregate().kind {
        AggregateKind::ProjectWorkflow => match find_workflow_by_handle(
            &rows.workflows,
            e.aggregate().handle.as_str(),
        ) {
            None => Err(CommandProblem::ResourceNotFound),
            Some(i) => check_workflow_axes(
                rows.workflows[i].semantic_revision,
                rows.workflows[i].presentation_revision,
                e.revisions(),
            ),
        },
        AggregateKind::Project => {
            if !same(e.aggregate().handle.as_str(), store_handle) {
                return Err(CommandProblem::TargetStoreMismatch);
            }
            check_collection_axes(rows.collection_revision, e.revisions())
        },
        kind => {
            if is_of_a_run(kind) {
                match revision_of(rows, e.aggregate()) {
                    None => Err(CommandProblem::ResourceNotFound),
                    Some(actual) => check_run_axes(kind, actual, e.revisions()),
                }
            } else {
                Err(
                    CommandProblem::invalid("当前 Project 命令不接受该 expected aggregate"),
                )
            }
        },
    }
}

/// The controller under its lease, with the rows that its commands are checked against.
pub struct InProcessAuthorizer<'a> {
    pub lease: &'a ControllerLease,
    pub rows: &'a ProjectRows,
}

impl<'a> CommandPermit for InProcessAuthorizer<'a> {
    open spec fn expectation(&self, check: LeaseView) -> Result<(), ProblemView> {
        expectations_met(self.rows@, check.target.store_handle, check.expected, 0)
    }

    fn validate_expected(&self, check: &LeaseCheck) -> (r: Result<(), CommandProblem>) {
        let ghost all = expectations(check.expected@);
        let mut i: usize = 0;
        while i < check.expected.len()
            invariant
                i <= check.expected@.len(),
                all == expectations(check.expected@),
                expectations_met(self.rows@, check@.target.store_handle, all, 0)
                    == expectations_met(self.rows@, check@.target.store_handle, all, i as int),
            decreases check.expected@.len() - i,
        {
            assert(all[i as int] == check.expected@[i as int]@);
            match check_expectation(
                self.rows,
                check.target.store_handle.as_str(),
                &check.expected[i],
            ) {
                Ok(_) => {},
                Err(p) => {
                    return Err(p);
                },
            }
            i = i + 1;
        }
        Ok(())
    }
}

impl<'a> CommandAuthorizer for InProcessAuthorizer<'a> {
    open spec fn admission(&self, check: LeaseView) -> Result<(), ProblemView> {
        self.lease@.admits(check)
    }

    fn acquire(&self, check: &LeaseCheck) -> (r: Result<(), CommandProblem>) {
        self.lease.check_lease(check)
    }
}

/// Whether the one revision of something of a run is as its agent's command expects it.
pub open spec fn token_axes(actual: i64, revisions: Seq<(Seq<char>, nat)>, from: int) -> Result<
    (),
    ProblemView,
>
    decreases revisions.len() - from,
{
    if from >= revisions.len() {
        Ok(())
    } else if revisions[from].0 != "revision"@ || actual != as_signed(revisions[from].1) {
        Err(ProblemView::RevisionConflict)
    } else {
        token_axes(actual, revisions, from + 1)
    }
}

/// Whether everything of a run is as its agent's command expects it.
pub open spec fn token_expectations(
    rows: RowsView,
    expected: Seq<ExpectedView>,
    from: int,
) -> Result<(), ProblemView>
    decreases expected.len() - from,
{
    if from >= expected.len() {
        Ok(())
    } else if !of_a_run(expected[from].aggregate.kind) {
        Err(ProblemView::InvalidEnvelope("run capability expected 含非 Run 聚合"@))
    } else {
        match run_revision(rows, expected[from].aggregate) {
            None => Err(ProblemView::ResourceNotFound),
            Some(actual) => match token_axes(actual, expected[from].revisions, 0) {
                Err(p) => Err(p),
                Ok(_) => token_expectations(rows, expected, from + 1),
            },
        }
    }
}

/// The agent run with a handle and a token, from a place on.
pub open spec fn run_with_token(
    runs: Seq<AgentRunView>,
    handle: Seq<char>,
    token: Seq<char>,
    from: int,
) -> Option<AgentRunView>
    decreases runs.len() - from,
{
    if from >= runs.len() {
        None
    } else if runs[from].public_handle == handle && runs[from].capability_token == token {
        Some(runs[from])
    } else {
        run_with_token(runs, handle, token, from + 1)
    }
}

/// The run and the step that an agent run belongs to, by its handle and its token.
pub open spec fn binding_of(rows: RowsView, handle: Seq<char>, token: Seq<char>) -> Option<
    (Seq<char>, Seq<char>),
> {
    match run_with_token(rows.agent_runs, handle, token, 0) {
        None => None,
        Some(run) => match (
            task_by_id(rows.tasks, run.task_id, 0),
            step_by_id(rows.steps, run.step_id, 0),
        ) {
            (Some(task), Some(step)) => Some((task.public_handle, step.public_handle)),
            _ => None,
        },
    }
}

fn find_run_with_token(runs: &Vec<AgentRunRow>, handle: &str, token: &str) -> (r: Option<usize>)
    ensures
        match r {
            Some(i) => i < runs@.len() && run_with_token(
                crate::project_rows::agent_runs_view(runs@),
                handle@,
                token@,
                0,
            ) == Some(runs@[i as int]@),
            None => run_with_token(
                crate::project_rows::agent_runs_view(runs@),
                handle@,
                token@,
                0,
            ) is None,
        },
{
    let ghost all = crate::project_rows::agent_runs_view(runs@);
    let mut i: usize = 0;
    while i < runs.len()
        invariant
            i <= runs@.len(),
            all == crate::project_rows::agent_runs_view(runs@),
            run_with_token(all, handle@, token@, 0) == run_with_token(
                all,
                handle@,
                token@,
                i as int,
            ),
        decreases runs@.len() - i,
    {
        assert(all[i as int] == runs@[i as int]@);
        if same(runs[i].public_handle.as_str(), handle) && same(
            runs[i].capability_token.as_str(),
            token,
        ) {
            return Some(i);
        }
        i = i + 1;
    }
    None
}

/// An agent run by its token: it may act on what the token was given for, and on
/// nothing else. The controller and its lease have no part in it.
pub struct RunControlAuthorizer<'a> {
    pub token: &'a str,
    pub workflow_run: &'a WorkflowRunHandle,
    pub step: &'a StepHandle,
    pub agent_run: &'a AgentRunHandle,
    pub target: &'a AggregateRef,
    pub command_type: CommandType,
    pub rows: &'a ProjectRows,
}

impl<'a> CommandPermit for RunControlAuthorizer<'a> {
    open spec fn expectation(&self, check: LeaseView) -> Result<(), ProblemView> {
        token_expectations(self.rows@, check.expected, 0)
    }

    fn validate_expected(&self, check: &LeaseCheck) -> (r: Result<(), CommandProblem>) {
        let ghost all = expectations(check.expected@);
        let mut i: usize = 0;
        while i < check.expected.len()
            invariant
                i <= check.expected@.len(),
                all == expectations(check.expected@),
                token_expectations(self.rows@, all, 0) == token_expectations(
                    self.rows@,
                    all,
                    i as int,
                ),
            decreases check.expected@.len() - i,
        {
            let e: &ExpectedRevision = &check.expected[i];
            assert(all[i as int] == e@);
            if !is_of_a_run(e.aggregate().kind) {
                return Err(CommandProblem::invalid("run capability expected 含非 Run 聚合"));
            }
            let actual: i64 = match revision_of(self.rows, e.aggregate()) {
                Some(actual) => actual,
                None => {
                    return Err(CommandProblem::ResourceNotFound);
                },
            };
            match check_token_axes(actual, e.revisions()) {
                Ok(_) => {},
                Err(p) => {
                    return Err(p);
                },
            }
            i = i + 1;
        }
        Ok(())
    }
}

fn check_token_axes(actual: i64, revisions: &Vec<(String, u64)>) -> (r: Result<(), CommandProblem>)
    ensures
        outcome(r) == token_axes(actual, axes(revisions@), 0),
{
    let ghost all = axes(revisions@);
    let mut i: usize = 0;
    while i < revisions.len()
        invariant
            i <= revisions@.len(),
            all == axes(revisions@),
            token_axes(actual, all, 0) == token_axes(actual, all, i as int),
        decreases revisions@.len() - i,
    {
        assert(all[i as int] == (revisions@[i as int].0@, revisions@[i as int].1 as nat));
        if !same(revisions[i].0.as_str(), "revision") || actual != signed_of(revisions[i].1) {
            return Err(CommandProblem::RevisionConflict);
        }
        i = i + 1;
    }
    Ok(())
}

impl<'a> CommandAuthorizer for RunControlAuthorizer<'a> {
    open spec fn admission(&self, check: LeaseView) -> Result<(), ProblemView> {
        if check.command_type != self.command_type || check.target.aggregate != self.target@
            || check.root_epoch is Some {
            Err(
                ProblemView::InvalidEnvelope(
                    "run capability 只能授权其绑定 RunControl target"@,
                ),
            )
        } else if binding_of(self.rows@, self.agent_run@, self.token@) == Some(
            (self.workflow_run@, self.step@),
        ) {
            Ok(())
        } else {
            Err(ProblemView::ResourceNotFound)
        }
    }

    fn acquire(&self, check: &LeaseCheck) -> (r: Result<(), CommandProblem>) {
        if check.command_type != self.command_type || !check.target.aggregate.same(self.target)
            || check.root_epoch.is_some() {
            return Err(
                CommandProblem::invalid("run capability 只能授权其绑定 RunControl target"),
            );
        }
        let run: &AgentRunRow = match find_run_with_token(
            &self.rows.agent_runs,
            self.agent_run.as_str(),
            self.token,
        ) {
            Some(i) => &self.rows.agent_runs[i],
            None => {
                return Err(CommandProblem::ResourceNotFound);
            },
        };
        match (
            find_task_by_id(&self.rows.tasks, run.task_id),
            find_step_by_id(&self.rows.steps, run.step_id),
        ) {
            (Some(t), Some(s)) => {
                if same(
                    self.rows.tasks[t].public_handle.as_str(),
                    self.workflow_run.as_str(),
                ) && same(self.rows.steps[s].public_handle.as_str(), self.step.as_str()) {
                    Ok(())
                } else {
                    Err(CommandProblem::ResourceNotFound)
                }
            },
            _ => Err(CommandProblem::ResourceNotFound),
        }
    }
}

/// The recovery of a cancellation that was under way: it may finish that one, and
/// nothing else. What it expects was settled when the cancellation began.
pub struct CancelRecoveryAuthorizer<'a> {
    pub command_id: &'a str,
    pub task_id: i64,
    pub rows: &'a ProjectRows,
}

impl<'a> CommandPermit for CancelRecoveryAuthorizer<'a> {
    open spec fn expectation(&self, check: LeaseView) -> Result<(), ProblemView> {
        Ok(())
    }

    fn validate_expected(&self, check: &LeaseCheck) -> (r: Result<(), CommandProblem>) {
        Ok(())
    }
}

impl<'a> CommandAuthorizer for CancelRecoveryAuthorizer<'a> {
    open spec fn admission(&self, check: LeaseView) -> Result<(), ProblemView> {
        if fenced(self.rows@.fences, self.command_id@, self.task_id) {
            Ok(())
        } else {
            Err(ProblemView::ControllerLeaseExpired)
        }
    }

    fn acquire(&self, check: &LeaseCheck) -> (r: Result<(), CommandProblem>) {
        if is_fenced(&self.rows.fences, self.command_id, self.task_id) {
            Ok(())
        } else {
            Err(CommandProblem::ControllerLeaseExpired)
        }
    }
}

/// A takeover ends the lease before it: what the old controller sends under its epoch
/// is refused from then on.
pub proof fn law_a_takeover_ends_the_lease(
    lease: ControllerView,
    client: Seq<char>,
    principal: Seq<char>,
    check: LeaseView,
)
    requires
        lease.admits(check) is Ok,
        lease.granted(client, principal).1 is Ok,
    ensures
        lease.granted(client, principal).0.admits(check) == Err::<(), ProblemView>(
            ProblemView::ControllerLeaseExpired,
        ),
        lease.granted(client, principal).0.epoch > lease.epoch,
{
}

/// A token is good for the run and the step that it was given for, whatever else a
/// command names.
pub proof fn law_a_token_is_bound<'a>(a: RunControlAuthorizer<'a>, check: LeaseView)
    requires
        a.admission(check) is Ok,
    ensures
        check.target.aggregate == a.target@,
        check.command_type == a.command_type,
        run_with_token(a.rows@.agent_runs, a.agent_run@, a.token@, 0) is Some,
        binding_of(a.rows@, a.agent_run@, a.token@) == Some((a.workflow_run@, a.step@)),
{
}

} // verus!
