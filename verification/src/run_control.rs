//! Commands that an agent sends by its token. The token alone says which run it may act
//! on; whoever holds it needs no lease.

use crate::authority::RunControlAuthorizer;
use crate::command::{
    CommandEnvelope, CommandPayload, CommandProblem, CommandType, EnvelopeView, PayloadView,
    ProblemView,
};
use crate::dispatch::{
    dispatched, replay_view, AppliedView, CommandCoordinator, CommandOutcome, EffectOutput,
    EffectView, IntentRow, Intents, TargetDatabase, TargetTables,
};
use crate::handles::{
    outcome, AgentRunHandle, AgentSessionHandle, AggregateKind, AggregateRef, AggregateView,
    ClientId, CommandId, CommandTarget, Principal, ProjectStoreHandle, StepHandle, TargetStoreKind,
    TargetView, WorkflowRunHandle, v7_as_given,
};
use crate::json::{
    as_text_view, field_in, field_of, fields, fields_view, holds_text, lemma_field_in_push,
    lemma_object_view, object, put, txt, value_contains, Json, JsonView,
};
use crate::lease::{CommandAuthorizer, CommandPermit};
use crate::kernel::{registrations, ProjectRegistration, RegistrationRow};
use crate::problem::{kernel_of_command, KernelProblem, KernelProblemView};
use crate::project_registry::{
    backfill_view, ended_token, register_view, resolved, token_code, CapabilityView,
    RegistrationView, ResolutionView, RunCapability, RunCapabilityKey, RunCapabilityRegistration,
    RunCapabilityResolution, RunCapabilityState, ServiceStore, StoreView,
};
use crate::project_rows::{
    agent_run_by_handle, agent_runs_view, find_agent_run_by_handle, find_session_by_id,
    find_step_by_id, find_task_by_id, session_by_id, step_by_id, task_by_id, AgentRunRow,
    AgentRunView, ProjectRows, RowsView, RunStepView, TaskView,
};
use crate::run_command::{
    versions, RunExpectedView, VersionView, VersionedHandle, WorkflowRunExpected,
};
use crate::run_actions::{lemma_absent_stays, without_field};
use crate::run_effects::{ControlView, RunControlCommand};
use crate::table::Table;
use crate::text::{cat, opt_view, same, lemma_starts_with_letter};
use vstd::prelude::*;
use vstd::string::*;

verus! {

/// Why an agent's command was refused.
#[derive(Debug)]
pub enum TokenSettleProblem {
    MissingToken,
    SensitiveSettlement,
    UnknownToken,
    AmbiguousToken { matches: usize },
    ProjectClosing,
    RunNotActive(String),
    Conflict { existing: String, attempted: String },
    Kernel(KernelProblem),
}

/// Why an agent's command was refused, as a value.
pub ghost enum TokenProblemView {
    MissingToken,
    SensitiveSettlement,
    UnknownToken,
    AmbiguousToken { matches: nat },
    ProjectClosing,
    RunNotActive(Seq<char>),
    Conflict { existing: Seq<char>, attempted: Seq<char> },
    Kernel(KernelProblemView),
}

impl View for TokenSettleProblem {
    type V = TokenProblemView;

    open spec fn view(&self) -> TokenProblemView {
        match *self {
            TokenSettleProblem::MissingToken => TokenProblemView::MissingToken,
            TokenSettleProblem::SensitiveSettlement => TokenProblemView::SensitiveSettlement,
            TokenSettleProblem::UnknownToken => TokenProblemView::UnknownToken,
            TokenSettleProblem::AmbiguousToken { matches } => TokenProblemView::AmbiguousToken {
                matches: matches as nat,
            },
            TokenSettleProblem::ProjectClosing => TokenProblemView::ProjectClosing,
            TokenSettleProblem::RunNotActive(s) => TokenProblemView::RunNotActive(s@),
            TokenSettleProblem::Conflict { existing, attempted } => TokenProblemView::Conflict {
                existing: existing@,
                attempted: attempted@,
            },
            TokenSettleProblem::Kernel(p) => TokenProblemView::Kernel(p@),
        }
    }
}

/// A problem inside the kernel, as an agent sees it.
pub open spec fn inside(m: Seq<char>) -> TokenProblemView {
    TokenProblemView::Kernel(KernelProblemView::Internal(m))
}

fn internal(m: &str) -> (r: TokenSettleProblem)
    ensures
        r@ == inside(m@),
{
    TokenSettleProblem::Kernel(KernelProblem::internal(m))
}

/// What an agent's command says, where it may say something.
pub open spec fn control_body(c: ControlView) -> JsonView {
    match c {
        ControlView::Settle(s) => s.body,
        ControlView::ReportState(s) => JsonView::Text(s),
        ControlView::ProposePipeline(d) => d,
    }
}

/// Why an agent's command is not looked at, if it is not: there is no token, or the
/// command would give the token away.
pub open spec fn control_refusal(token: Seq<char>, c: ControlView) -> Option<TokenProblemView> {
    if token.len() == 0 {
        Some(TokenProblemView::MissingToken)
    } else if holds_text(control_body(c), token) {
        Some(TokenProblemView::SensitiveSettlement)
    } else {
        None
    }
}

/// Checks that there is a token, and that the command does not give it away.
pub fn check_run_control(token: &str, command: &RunControlCommand) -> (r: Result<
    (),
    TokenSettleProblem,
>)
    ensures
        match r {
            Ok(_) => control_refusal(token@, command@) is None,
            Err(p) => control_refusal(token@, command@) == Some(p@),
        },
{
    if token.unicode_len() == 0 {
        return Err(TokenSettleProblem::MissingToken);
    }
    let given_away: bool = match command {
        RunControlCommand::Settle(s) => value_contains(&s.body, token),
        RunControlCommand::ReportState(s) => {
            let said: Json = txt(s.as_str());
            value_contains(&said, token)
        },
        RunControlCommand::ProposePipeline(d) => value_contains(d, token),
    };
    if given_away {
        return Err(TokenSettleProblem::SensitiveSettlement);
    }
    Ok(())
}

/// An agent run that a project's store holds under the token itself.
#[derive(Debug)]
pub struct StoreHit {
    pub project: ProjectStoreHandle,
    pub agent_run: String,
}

/// An agent run that a project's store holds under the token, as a value.
pub ghost struct HitView {
    pub project: Seq<char>,
    pub agent_run: Seq<char>,
}

impl View for StoreHit {
    type V = HitView;

    open spec fn view(&self) -> HitView {
        HitView { project: self.project@, agent_run: self.agent_run@ }
    }
}

/// Hits as values.
pub open spec fn hits_view(v: Seq<StoreHit>) -> Seq<HitView> {
    v.map_values(|h: StoreHit| h@)
}

/// Whether the stores know a token as nothing else than the registry does.
pub open spec fn agrees(hits: Seq<HitView>, c: CapabilityView) -> bool {
    &&& hits.len() <= 1
    &&& hits.len() == 1 ==> hits[0].project == c.project && hits[0].agent_run == c.agent_run
}

/// What a token is good for, by the registry and by what the stores hold under it. One
/// that means two things is put in quarantine; one that only a store knows is
/// registered.
pub open spec fn authority_view(
    s: StoreView,
    code: Seq<char>,
    hits: Seq<HitView>,
    now: Seq<char>,
) -> (StoreView, Result<CapabilityView, TokenProblemView>) {
    match resolved(s.capabilities, code) {
        ResolutionView::Many => (s, Err(TokenProblemView::AmbiguousToken { matches: 2 })),
        ResolutionView::One(c) => if agrees(hits, c) {
            (s, Ok(c))
        } else {
            let (after, done) = backfill_view(s, code, c.project, c.agent_run, now);
            match done {
                Err(m) => (after, Err(inside("indexed run capability quarantine 失败:"@ + m))),
                Ok(_) => (
                    after,
                    Err(
                        TokenProblemView::AmbiguousToken {
                            matches: if hits.len() > 2 {
                                hits.len()
                            } else {
                                2
                            },
                        },
                    ),
                ),
            }
        },
        ResolutionView::Zero => if hits.len() == 0 {
            (s, Err(TokenProblemView::UnknownToken))
        } else if v7_as_given(hits[0].agent_run) is Err {
            (s, Err(inside(v7_as_given(hits[0].agent_run)->Err_0)))
        } else if hits.len() > 1 {
            let (after, done) = backfill_view(s, code, hits[0].project, hits[0].agent_run, now);
            match done {
                Err(m) => (after, Err(inside("legacy run capability quarantine 失败:"@ + m))),
                Ok(_) => (after, Err(TokenProblemView::AmbiguousToken { matches: hits.len() })),
            }
        } else {
            let (after, done) = register_view(s, code, hits[0].project, hits[0].agent_run, now);
            match done {
                Err(m) => (after, Err(inside("legacy run capability 注册失败:"@ + m))),
                Ok(RegistrationView::Registered(c)) => (after, Ok(c)),
                Ok(RegistrationView::Quarantined) => (
                    after,
                    Err(TokenProblemView::AmbiguousToken { matches: 2 }),
                ),
            }
        },
    }
}

/// The view of what a token is good for.
pub open spec fn capability_result(r: Result<RunCapability, TokenSettleProblem>) -> Result<
    CapabilityView,
    TokenProblemView,
> {
    match r {
        Ok(c) => Ok(c@),
        Err(p) => Err(p@),
    }
}

fn hits_agree(hits: &Vec<StoreHit>, c: &RunCapability) -> (r: bool)
    ensures
        r == agrees(hits_view(hits@), c@),
{
    if hits.len() == 0 {
        true
    } else if hits.len() == 1 {
        assert(hits_view(hits@)[0] == hits@[0]@);
        hits[0].project.same(&c.project) && same(hits[0].agent_run.as_str(), c.agent_run.as_str())
    } else {
        false
    }
}

/// What a token is good for, by the registry and by what the stores hold under it.
pub fn resolve_authority(
    store: &mut ServiceStore,
    key: &RunCapabilityKey,
    token: &str,
    hits: &Vec<StoreHit>,
    now: &str,
) -> (r: Result<RunCapability, TokenSettleProblem>)
    requires
        old(store)@.sound(),
    ensures
        final(store)@.sound(),
        match token_code(key@, vstd::utf8::encode_utf8(token@)) {
            Err(m) => final(store)@ == old(store)@ && capability_result(r) == Err::<
                CapabilityView,
                TokenProblemView,
            >(inside("run capability resolve 失败:"@ + m)),
            Ok(code) => (final(store)@, capability_result(r)) == authority_view(
                old(store)@,
                code,
                hits_view(hits@),
                now@,
            ),
        },
{
    let resolution: RunCapabilityResolution = match store.resolve_run_capability(
        key,
        token.as_bytes(),
    ) {
        Ok(resolution) => resolution,
        Err(m) => {
            return Err(internal(cat("run capability resolve 失败:", m.as_str()).as_str()));
        },
    };
    match resolution {
        RunCapabilityResolution::Many => Err(TokenSettleProblem::AmbiguousToken { matches: 2 }),
        RunCapabilityResolution::One(c) => {
            if hits_agree(hits, &c) {
                return Ok(c);
            }
            match store.backfill_quarantined_run_capability(
                key,
                token.as_bytes(),
                &c.project,
                &c.agent_run,
                now,
            ) {
                Ok(_) => Err(
                    TokenSettleProblem::AmbiguousToken {
                        matches: if hits.len() > 2 {
                            hits.len()
                        } else {
                            2
                        },
                    },
                ),
                Err(m) => Err(
                    internal(cat("indexed run capability quarantine 失败:", m.as_str()).as_str()),
                ),
            }
        },
        RunCapabilityResolution::Zero => {
            if hits.len() == 0 {
                return Err(TokenSettleProblem::UnknownToken);
            }
            assert(hits_view(hits@)[0] == hits@[0]@);
            let agent_run: AgentRunHandle = match AgentRunHandle::parse(
                hits[0].agent_run.as_str(),
            ) {
                Ok(h) => h,
                Err(p) => {
                    return Err(internal(p.message()));
                },
            };
            if hits.len() > 1 {
                return match store.backfill_quarantined_run_capability(
                    key,
                    token.as_bytes(),
                    &hits[0].project,
                    &agent_run,
                    now,
                ) {
                    Ok(_) => Err(TokenSettleProblem::AmbiguousToken { matches: hits.len() }),
                    Err(m) => Err(
                        internal(
                            cat("legacy run capability quarantine 失败:", m.as_str()).as_str(),
                        ),
                    ),
                };
            }
            match store.register_run_capability(
                key,
                token.as_bytes(),
                &hits[0].project,
                &agent_run,
                now,
            ) {
                Ok(RunCapabilityRegistration::Registered(c)) => Ok(c),
                Ok(RunCapabilityRegistration::Quarantined) => Err(
                    TokenSettleProblem::AmbiguousToken { matches: 2 },
                ),
                Err(m) => Err(
                    internal(cat("legacy run capability 注册失败:", m.as_str()).as_str()),
                ),
            }
        },
    }
}

/// Why a project takes no agent's command, if it does not: it is not open, it is being
/// closed, or the token has ended there.
pub open spec fn project_refusal(closing: Option<bool>, state: RunCapabilityState) -> Option<
    TokenProblemView,
> {
    match closing {
        None => Some(TokenProblemView::UnknownToken),
        Some(true) => Some(TokenProblemView::ProjectClosing),
        Some(false) => match state {
            RunCapabilityState::Revoked => Some(TokenProblemView::UnknownToken),
            RunCapabilityState::Quarantined => Some(
                TokenProblemView::AmbiguousToken { matches: 2 },
            ),
            _ => None,
        },
    }
}

/// Checks that a project takes an agent's command: `closing` says whether it is being
/// closed, where it is open at all.
pub fn check_project(closing: Option<bool>, state: RunCapabilityState) -> (r: Result<
    (),
    TokenSettleProblem,
>)
    ensures
        match r {
            Ok(_) => project_refusal(closing, state) is None,
            Err(p) => project_refusal(closing, state) == Some(p@),
        },
{
    match closing {
        None => Err(TokenSettleProblem::UnknownToken),
        Some(true) => Err(TokenSettleProblem::ProjectClosing),
        Some(false) => match state {
            RunCapabilityState::Revoked => Err(TokenSettleProblem::UnknownToken),
            RunCapabilityState::Quarantined => Err(
                TokenSettleProblem::AmbiguousToken { matches: 2 },
            ),
            _ => Ok(()),
        },
    }
}

/// Where an agent's command acts, and what it starts from.
pub struct RunLocation {
    pub workflow_run: WorkflowRunHandle,
    pub step: StepHandle,
    pub run_id: i64,
    pub task_id: i64,
    pub status: String,
    pub outcome: Option<String>,
    pub expected: WorkflowRunExpected,
}

/// Where an agent's command acts, as a value.
pub ghost struct LocationView {
    pub workflow_run: Seq<char>,
    pub step: Seq<char>,
    pub run_id: i64,
    pub task_id: i64,
    pub status: Seq<char>,
    pub outcome: Option<Seq<char>>,
    pub expected: RunExpectedView,
}

impl View for RunLocation {
    type V = LocationView;

    open spec fn view(&self) -> LocationView {
        LocationView {
            workflow_run: self.workflow_run@,
            step: self.step@,
            run_id: self.run_id,
            task_id: self.task_id,
            status: self.status@,
            outcome: opt_view(self.outcome),
            expected: self.expected@,
        }
    }
}

/// A handle that a store holds, or why it is not one.
pub open spec fn stored_handle(text: Seq<char>) -> Option<TokenProblemView> {
    match v7_as_given(text) {
        Ok(_) => None,
        Err(m) => Some(inside(m)),
    }
}

/// The session of an agent run as its command starts from it, if it has one.
pub open spec fn session_expected(rows: RowsView, run: AgentRunView) -> Result<
    Seq<VersionView>,
    TokenProblemView,
> {
    match run.session_id {
        None => Ok(seq![]),
        Some(id) => match session_by_id(rows.sessions, id, 0) {
            None => Err(TokenProblemView::UnknownToken),
            Some(s) => match stored_handle(s.public_handle) {
                Some(p) => Err(p),
                None => if s.revision < 0 {
                    Err(inside("Agent Session revision 溢出"@))
                } else {
                    Ok(
                        seq![
                            VersionView { handle: s.public_handle, revision: s.revision as u64 },
                        ],
                    )
                },
            },
        },
    }
}

/// Where an agent run and its token act, and what a command starts from.
pub open spec fn located_from(
    rows: RowsView,
    agent_run: Seq<char>,
    run: AgentRunView,
    task: TaskView,
    step: RunStepView,
) -> Result<LocationView, TokenProblemView> {
    match (stored_handle(task.public_handle), stored_handle(step.public_handle)) {
        (Some(p), _) => Err(p),
        (None, Some(p)) => Err(p),
        (None, None) => if task.revision < 0 {
            Err(inside("Workflow Run revision 溢出"@))
        } else if step.revision < 0 {
            Err(inside("Step revision 溢出"@))
        } else if run.revision < 0 {
            Err(inside("Agent Run revision 溢出"@))
        } else {
            match session_expected(rows, run) {
                Err(p) => Err(p),
                Ok(agent_sessions) => Ok(
                    LocationView {
                        workflow_run: task.public_handle,
                        step: step.public_handle,
                        run_id: run.id,
                        task_id: run.task_id,
                        status: run.status,
                        outcome: run.outcome,
                        expected: RunExpectedView {
                            workflow_run_revision: task.revision as u64,
                            steps: seq![
                                VersionView {
                                    handle: step.public_handle,
                                    revision: step.revision as u64,
                                },
                            ],
                            agent_runs: seq![
                                VersionView { handle: agent_run, revision: run.revision as u64 },
                            ],
                            agent_sessions,
                        },
                    },
                ),
            }
        },
    }
}

/// Where an agent run and its token act: the store has to hold the run under the very
/// token, with its run and its step.
pub open spec fn located(rows: RowsView, agent_run: Seq<char>, token: Seq<char>) -> Result<
    LocationView,
    TokenProblemView,
> {
    match agent_run_by_handle(rows.agent_runs, agent_run, 0) {
        None => Err(TokenProblemView::UnknownToken),
        Some(run) => if run.capability_token != token {
            Err(TokenProblemView::UnknownToken)
        } else {
            match (
                task_by_id(rows.tasks, run.task_id, 0),
                step_by_id(rows.steps, run.step_id, 0),
            ) {
                (Some(task), Some(step)) => if step.task_id != task.id {
                    Err(TokenProblemView::UnknownToken)
                } else {
                    located_from(rows, agent_run, run, task, step)
                },
                _ => Err(TokenProblemView::UnknownToken),
            }
        },
    }
}

/// The view of where an agent's command acts.
pub open spec fn location_result(r: Result<RunLocation, TokenSettleProblem>) -> Result<
    LocationView,
    TokenProblemView,
> {
    match r {
        Ok(l) => Ok(l@),
        Err(p) => Err(p@),
    }
}

fn expect_session(rows: &ProjectRows, run: &AgentRunRow) -> (r: Result<
    Vec<VersionedHandle<AgentSessionHandle>>,
    TokenSettleProblem,
>)
    ensures
        match r {
            Ok(v) => session_expected(rows@, run@) == Ok::<Seq<VersionView>, TokenProblemView>(
                versions(v@),
            ),
            Err(p) => session_expected(rows@, run@) == Err::<Seq<VersionView>, TokenProblemView>(
                p@,
            ),
        },
{
    let mut out: Vec<VersionedHandle<AgentSessionHandle>> = Vec::new();
    assert(versions(out@) =~= seq![]);
    if let Some(id) = run.session_id {
        let s: usize = match find_session_by_id(&rows.sessions, id) {
            Some(s) => s,
            None => {
                return Err(TokenSettleProblem::UnknownToken);
            },
        };
        let handle: AgentSessionHandle = match AgentSessionHandle::parse(
            rows.sessions[s].public_handle.as_str(),
        ) {
            Ok(h) => h,
            Err(p) => {
                return Err(internal(p.message()));
            },
        };
        if rows.sessions[s].revision < 0 {
            return Err(internal("Agent Session revision 溢出"));
        }
        let one: VersionedHandle<AgentSessionHandle> = VersionedHandle {
            handle,
            revision: rows.sessions[s].revision as u64,
        };
        out.push(one);
        assert(versions(out@) =~= seq![one@]);
    }
    Ok(out)
}

/// Where an agent run and its token act, and what a command starts from.
pub fn locate_run(rows: &ProjectRows, agent_run: &AgentRunHandle, token: &str) -> (r: Result<
    RunLocation,
    TokenSettleProblem,
>)
    ensures
        location_result(r) == located(rows@, agent_run@, token@),
{
    let run: &AgentRunRow = match find_agent_run_by_handle(&rows.agent_runs, agent_run.as_str()) {
        Some(i) => &rows.agent_runs[i],
        None => {
            return Err(TokenSettleProblem::UnknownToken);
        },
    };
    if !same(run.capability_token.as_str(), token) {
        return Err(TokenSettleProblem::UnknownToken);
    }
    let (t, s) = match (
        find_task_by_id(&rows.tasks, run.task_id),
        find_step_by_id(&rows.steps, run.step_id),
    ) {
        (Some(t), Some(s)) => (t, s),
        _ => {
            return Err(TokenSettleProblem::UnknownToken);
        },
    };
    if rows.steps[s].task_id != rows.tasks[t].id {
        return Err(TokenSettleProblem::UnknownToken);
    }
    let workflow_run: WorkflowRunHandle = match WorkflowRunHandle::parse(
        rows.tasks[t].public_handle.as_str(),
    ) {
        Ok(h) => h,
        Err(p) => {
            return Err(internal(p.message()));
        },
    };
    let step: StepHandle = match StepHandle::parse(rows.steps[s].public_handle.as_str()) {
        Ok(h) => h,
        Err(p) => {
            return Err(internal(p.message()));
        },
    };
    if rows.tasks[t].revision < 0 {
        return Err(internal("Workflow Run revision 溢出"));
    }
    if rows.steps[s].revision < 0 {
        return Err(internal("Step revision 溢出"));
    }
    if run.revision < 0 {
        return Err(internal("Agent Run revision 溢出"));
    }
    let agent_sessions: Vec<VersionedHandle<AgentSessionHandle>> = match expect_session(rows, run) {
        Ok(v) => v,
        Err(p) => {
            return Err(p);
        },
    };
    let mut steps: Vec<VersionedHandle<StepHandle>> = Vec::new();
    let one: VersionedHandle<StepHandle> = VersionedHandle {
        handle: step.clone(),
        revision: rows.steps[s].revision as u64,
    };
    steps.push(one);
    assert(versions(steps@) =~= seq![one@]);
    let mut agent_runs: Vec<VersionedHandle<AgentRunHandle>> = Vec::new();
    let own: VersionedHandle<AgentRunHandle> = VersionedHandle {
        handle: agent_run.clone(),
        revision: run.revision as u64,
    };
    agent_runs.push(own);
    assert(versions(agent_runs@) =~= seq![own@]);
    Ok(
        RunLocation {
            workflow_run,
            step,
            run_id: run.id,
            task_id: run.task_id,
            status: run.status.clone(),
            outcome: crate::text::copy_opt(&run.outcome),
            expected: WorkflowRunExpected {
                workflow_run_revision: rows.tasks[t].revision as u64,
                steps,
                agent_runs,
                agent_sessions,
            },
        },
    )
}

/// The type of an agent's command.
pub open spec fn control_type(c: ControlView) -> CommandType {
    match c {
        ControlView::Settle(_) => CommandType::WorkflowSettle,
        _ => CommandType::WorkflowRun,
    }
}

/// What an agent's command acts on: its agent run, or the run that a plan is for.
pub open spec fn control_target(
    c: ControlView,
    agent_run: Seq<char>,
    workflow_run: Seq<char>,
) -> AggregateView {
    match c {
        ControlView::ProposePipeline(_) => AggregateView {
            kind: AggregateKind::WorkflowRun,
            handle: workflow_run,
        },
        _ => AggregateView { kind: AggregateKind::AgentRun, handle: agent_run },
    }
}

/// The command that an agent's command becomes. What it says is not part of it: only
/// its digest is kept.
pub open spec fn control_envelope(
    command_id: Seq<char>,
    project: Seq<char>,
    agent_run: Seq<char>,
    at: LocationView,
    c: ControlView,
) -> EnvelopeView {
    EnvelopeView {
        command_id,
        client_id: "run-capability"@,
        principal: "mf-run-token"@,
        controller_epoch: 0,
        root_epoch: None,
        target: TargetView {
            store: TargetStoreKind::Project,
            store_handle: project,
            aggregate: control_target(c, agent_run, at.workflow_run),
        },
        expected: at.expected.revisions(at.workflow_run),
        command_type: control_type(c),
        payload: PayloadView::Plain(
            JsonView::Object(
                seq![
                    ("method"@, JsonView::Text(c.method())),
                    ("workflow_run"@, JsonView::Text(at.workflow_run)),
                    ("agent_run"@, JsonView::Text(agent_run)),
                ],
            ),
        ),
    }
}

fn type_of_control(c: &RunControlCommand) -> (r: CommandType)
    ensures
        r == control_type(c@),
{
    match c {
        RunControlCommand::Settle(_) => CommandType::WorkflowSettle,
        _ => CommandType::WorkflowRun,
    }
}

fn target_of_control(
    c: &RunControlCommand,
    agent_run: &AgentRunHandle,
    workflow_run: &WorkflowRunHandle,
) -> (r: AggregateRef)
    ensures
        r@ == control_target(c@, agent_run@, workflow_run@),
{
    match c {
        RunControlCommand::ProposePipeline(_) => AggregateRef {
            kind: AggregateKind::WorkflowRun,
            handle: workflow_run.as_str().to_owned(),
        },
        _ => AggregateRef {
            kind: AggregateKind::AgentRun,
            handle: agent_run.as_str().to_owned(),
        },
    }
}

/// The command that an agent's command becomes.
pub fn build_control_envelope(
    command_id: &CommandId,
    project: &ProjectStoreHandle,
    agent_run: &AgentRunHandle,
    at: &RunLocation,
    command: &RunControlCommand,
) -> (r: Result<CommandEnvelope, TokenSettleProblem>)
    ensures
        ({
            let e = control_envelope(command_id@, project@, agent_run@, at@, command@);
            match r {
                Ok(v) => e.problem() is None && v@ == e,
                Err(p) => e.problem() is Some && p@ == TokenProblemView::Kernel(
                    kernel_of_command(e.problem()->0),
                ),
            }
        }),
{
    proof {
        reveal_strlit("run-capability");
        reveal_strlit("mf-run-token");
        lemma_starts_with_letter("run-capability"@);
        lemma_starts_with_letter("mf-run-token"@);
    }
    let client: ClientId = match ClientId::parse("run-capability") {
        Ok(c) => c,
        Err(p) => {
            return Err(internal(p.message()));
        },
    };
    let principal: Principal = match Principal::parse("mf-run-token") {
        Ok(c) => c,
        Err(p) => {
            return Err(internal(p.message()));
        },
    };
    let mut f: Vec<(String, Json)> = fields();
    put(&mut f, "method", txt(command.method()));
    put(&mut f, "workflow_run", txt(at.workflow_run.as_str()));
    put(&mut f, "agent_run", txt(agent_run.as_str()));
    let payload: Json = object(f);
    proof {
        let e = control_envelope(command_id@, project@, agent_run@, at@, command@);
        assert(payload@->Object_0 =~= e.payload->Plain_0->Object_0);
    }
    match CommandEnvelope::new(
        command_id.clone(),
        client,
        principal,
        0,
        None,
        CommandTarget {
            store: TargetStoreKind::Project,
            store_handle: project.as_str().to_owned(),
            aggregate: target_of_control(command, agent_run, &at.workflow_run),
        },
        at.expected.revisions(&at.workflow_run),
        type_of_control(command),
        CommandPayload::Plain(payload),
    ) {
        Ok(e) => Ok(e),
        Err(p) => Err(TokenSettleProblem::Kernel(KernelProblem::from_command(p))),
    }
}

/// Whether an agent run can still be acted on.
pub open spec fn run_open(status: Seq<char>) -> bool {
    status == "running"@ || status == "awaiting-outcome"@ || status == "interrupted"@
}

fn is_run_open(status: &str) -> (r: bool)
    ensures
        r == run_open(status@),
{
    same(status, "running") || same(status, "awaiting-outcome") || same(status, "interrupted")
}

/// Why a token that was settled takes no such command, if it does not.
pub open spec fn settled_refusal(c: ControlView, state: RunCapabilityState) -> Option<
    TokenProblemView,
> {
    if !(c is Settle) && state is Settled {
        Some(TokenProblemView::RunNotActive("已结算"@))
    } else {
        None
    }
}

/// Checks that a token that was settled is used for nothing but its end.
pub fn check_settled(command: &RunControlCommand, state: RunCapabilityState) -> (r: Result<
    (),
    TokenSettleProblem,
>)
    ensures
        match r {
            Ok(_) => settled_refusal(command@, state) is None,
            Err(p) => settled_refusal(command@, state) == Some(p@),
        },
{
    match command {
        RunControlCommand::Settle(_) => Ok(()),
        _ => {
            if state == RunCapabilityState::Settled {
                return Err(TokenSettleProblem::RunNotActive("已结算".to_owned()));
            }
            Ok(())
        },
    }
}

/// Why an agent run takes no such command now, if it does not: it has ended in another
/// way, it has ended, or it is not under way.
pub open spec fn run_refusal(at: LocationView, c: ControlView) -> Option<TokenProblemView> {
    match c {
        ControlView::Settle(s) => match at.outcome {
            Some(existing) => if existing != s.kind {
                Some(TokenProblemView::Conflict { existing, attempted: s.kind })
            } else {
                None
            },
            None => if run_open(at.status) {
                None
            } else {
                Some(TokenProblemView::RunNotActive(at.status))
            },
        },
        _ => if at.outcome is Some || !run_open(at.status) {
            Some(TokenProblemView::RunNotActive(at.status))
        } else {
            None
        },
    }
}

/// Checks that an agent run takes such a command now.
pub fn check_run(at: &RunLocation, command: &RunControlCommand) -> (r: Result<
    (),
    TokenSettleProblem,
>)
    ensures
        match r {
            Ok(_) => run_refusal(at@, command@) is None,
            Err(p) => run_refusal(at@, command@) == Some(p@),
        },
{
    match command {
        RunControlCommand::Settle(s) => match &at.outcome {
            Some(existing) => {
                if !same(existing.as_str(), s.kind_str()) {
                    return Err(
                        TokenSettleProblem::Conflict {
                            existing: existing.clone(),
                            attempted: s.kind_str().to_owned(),
                        },
                    );
                }
                Ok(())
            },
            None => {
                if !is_run_open(at.status.as_str()) {
                    return Err(TokenSettleProblem::RunNotActive(at.status.clone()));
                }
                Ok(())
            },
        },
        _ => {
            if at.outcome.is_some() || !is_run_open(at.status.as_str()) {
                return Err(TokenSettleProblem::RunNotActive(at.status.clone()));
            }
            Ok(())
        },
    }
}

/// What an agent is told of its command, as it is kept with the receipt.
pub open spec fn control_result(
    c: ControlView,
    agent_run: Seq<char>,
    workflow_run: Seq<char>,
    already: bool,
    draft_revision: JsonView,
) -> JsonView {
    match c {
        ControlView::Settle(_) => JsonView::Object(
            seq![
                ("agent_run"@, JsonView::Text(agent_run)),
                (
                    "outcome"@,
                    JsonView::Text(
                        if already {
                            "already_applied"@
                        } else {
                            "applied"@
                        },
                    ),
                ),
            ],
        ),
        ControlView::ReportState(state) => JsonView::Object(
            seq![
                ("agent_run"@, JsonView::Text(agent_run)),
                ("outcome"@, JsonView::Text("state_reported"@)),
                ("state"@, JsonView::Text(state)),
            ],
        ),
        ControlView::ProposePipeline(_) => JsonView::Object(
            seq![
                ("workflow_run"@, JsonView::Text(workflow_run)),
                ("outcome"@, JsonView::Text("pipeline_proposed"@)),
                ("revision"@, draft_revision),
            ],
        ),
    }
}

fn result_of_control(
    c: &RunControlCommand,
    agent_run: &str,
    workflow_run: &str,
    already: bool,
    draft_revision: Json,
) -> (r: Json)
    ensures
        r@ == control_result(c@, agent_run@, workflow_run@, already, draft_revision@),
{
    let mut f: Vec<(String, Json)> = fields();
    match c {
        RunControlCommand::Settle(_) => {
            put(&mut f, "agent_run", txt(agent_run));
            put(
                &mut f,
                "outcome",
                txt(
                    if already {
                        "already_applied"
                    } else {
                        "applied"
                    },
                ),
            );
        },
        RunControlCommand::ReportState(state) => {
            put(&mut f, "agent_run", txt(agent_run));
            put(&mut f, "outcome", txt("state_reported"));
            put(&mut f, "state", txt(state.as_str()));
        },
        RunControlCommand::ProposePipeline(_) => {
            put(&mut f, "workflow_run", txt(workflow_run));
            put(&mut f, "outcome", txt("pipeline_proposed"));
            put(&mut f, "revision", draft_revision);
        },
    }
    let out: Json = object(f);
    assert(out@->Object_0 =~= control_result(
        c@,
        agent_run@,
        workflow_run@,
        already,
        draft_revision@,
    )->Object_0);
    out
}

/// The result of an agent's command with what the agent is told of it.
pub open spec fn with_result(
    output: EffectView,
    c: ControlView,
    agent_run: Seq<char>,
    at: LocationView,
) -> Result<EffectView, ProblemView> {
    match output.result_revisions {
        JsonView::Object(f) => {
            let draft = field_of(output.result_revisions, "draft_revision"@);
            if c is ProposePipeline && draft is None {
                Err(ProblemView::Internal("pipeline propose 缺少 draft revision handle"@))
            } else {
                let kept = if c is ProposePipeline {
                    without_field(f, "draft_revision"@, f.len())
                } else {
                    f
                };
                let told = control_result(
                    c,
                    agent_run,
                    at.workflow_run,
                    at.outcome is Some,
                    match draft {
                        Some(d) => d,
                        None => JsonView::Null,
                    },
                );
                Ok(
                    EffectView {
                        result_revisions: JsonView::Object(
                            kept.push(("run_control_result"@, told)),
                        ),
                        ..output
                    },
                )
            }
        },
        _ => Err(ProblemView::Internal("run result revisions 必须是 object"@)),
    }
}

fn copy_fields_but(f: &Vec<(String, Json)>, name: &str) -> (r: Vec<(String, Json)>)
    ensures
        fields_view(r@) == without_field(fields_view(f@), name@, f@.len()),
{
    let ghost all = fields_view(f@);
    let mut out: Vec<(String, Json)> = Vec::new();
    let mut i: usize = 0;
    assert(fields_view(out@) =~= seq![]);
    while i < f.len()
        invariant
            i <= f@.len(),
            all == fields_view(f@),
            fields_view(out@) == without_field(all, name@, i as nat),
        decreases f@.len() - i,
    {
        let ghost had = out@;
        assert(all[i as int] == (f@[i as int].0@, f@[i as int].1@));
        if !same(f[i].0.as_str(), name) {
            out.push((f[i].0.clone(), f[i].1.copy()));
            assert(fields_view(out@) =~= fields_view(had).push(all[i as int]));
        }
        i = i + 1;
    }
    out
}

/// The result of an agent's command with what the agent is told of it.
pub fn add_control_result(
    output: EffectOutput,
    command: &RunControlCommand,
    agent_run: &AgentRunHandle,
    at: &RunLocation,
) -> (r: Result<EffectOutput, CommandProblem>)
    ensures
        outcome(r) == with_result(output@, command@, agent_run@, at@),
{
    let draft: Option<Json> = match output.result_revisions.get("draft_revision") {
        Some(d) => Some(d.copy()),
        None => None,
    };
    match output.result_revisions {
        Json::Object(f) => {
            proof {
                lemma_object_view(f);
            }
            let proposes: bool = match command {
                RunControlCommand::ProposePipeline(_) => true,
                _ => false,
            };
            if proposes && draft.is_none() {
                return Err(
                    CommandProblem::Internal(
                        "pipeline propose 缺少 draft revision handle".to_owned(),
                    ),
                );
            }
            let mut kept: Vec<(String, Json)> = if proposes {
                copy_fields_but(&f, "draft_revision")
            } else {
                f
            };
            let told: Json = result_of_control(
                command,
                agent_run.as_str(),
                at.workflow_run.as_str(),
                at.outcome.is_some(),
                match draft {
                    Some(d) => d,
                    None => Json::Null,
                },
            );
            put(&mut kept, "run_control_result", told);
            Ok(EffectOutput { result_revisions: object(kept), projections: output.projections })
        },
        _ => Err(
            CommandProblem::Internal("run result revisions 必须是 object".to_owned()),
        ),
    }
}

/// What an agent is told of the end of its run.
#[derive(Debug)]
pub enum TokenSettleOutcome {
    Applied { agent_run: AgentRunHandle },
    AlreadyApplied { agent_run: AgentRunHandle },
}

/// What an agent is told of its command.
#[derive(Debug)]
pub enum RunControlOutcome {
    Settled(TokenSettleOutcome),
    StateReported { agent_run: AgentRunHandle, state: String },
    PipelineProposed { workflow_run: WorkflowRunHandle, revision: String },
}

/// What an agent is told of its command, as a value.
pub ghost enum ControlOutcomeView {
    Settled { agent_run: Seq<char>, already: bool },
    StateReported { agent_run: Seq<char>, state: Seq<char> },
    PipelineProposed { workflow_run: Seq<char>, revision: Seq<char> },
}

impl View for RunControlOutcome {
    type V = ControlOutcomeView;

    open spec fn view(&self) -> ControlOutcomeView {
        match *self {
            RunControlOutcome::Settled(TokenSettleOutcome::Applied { agent_run }) =>
            ControlOutcomeView::Settled { agent_run: agent_run@, already: false },
            RunControlOutcome::Settled(TokenSettleOutcome::AlreadyApplied { agent_run }) =>
            ControlOutcomeView::Settled { agent_run: agent_run@, already: true },
            RunControlOutcome::StateReported { agent_run, state } =>
            ControlOutcomeView::StateReported { agent_run: agent_run@, state: state@ },
            RunControlOutcome::PipelineProposed { workflow_run, revision } =>
            ControlOutcomeView::PipelineProposed {
                workflow_run: workflow_run@,
                revision: revision@,
            },
        }
    }
}

/// What an agent is told, read back from the receipt.
pub open spec fn told_outcome(result_revisions: JsonView) -> Result<
    ControlOutcomeView,
    TokenProblemView,
> {
    match field_of(result_revisions, "run_control_result"@) {
        Some(JsonView::Object(f)) => {
            let result = JsonView::Object(f);
            let kind = as_text_view(field_of(result, "outcome"@));
            if kind == Some("applied"@) || kind == Some("already_applied"@) || kind == Some(
                "state_reported"@,
            ) {
                match as_text_view(field_of(result, "agent_run"@)) {
                    None => Err(inside("run control receipt 的 Agent Run handle 损坏"@)),
                    Some(agent_run) => match stored_handle(agent_run) {
                        Some(p) => Err(p),
                        None => if kind == Some("applied"@) {
                            Ok(ControlOutcomeView::Settled { agent_run, already: false })
                        } else if kind == Some("already_applied"@) {
                            Ok(ControlOutcomeView::Settled { agent_run, already: true })
                        } else {
                            match as_text_view(field_of(result, "state"@)) {
                                None => Err(inside("run control receipt 的 Agent state 损坏"@)),
                                Some(state) => Ok(
                                    ControlOutcomeView::StateReported { agent_run, state },
                                ),
                            }
                        },
                    },
                }
            } else if kind == Some("pipeline_proposed"@) {
                match as_text_view(field_of(result, "workflow_run"@)) {
                    Some(workflow_run) => if v7_as_given(workflow_run) is Err {
                        Err(inside("run control receipt 的 Workflow Run handle 损坏"@))
                    } else {
                        match as_text_view(field_of(result, "revision"@)) {
                            None => Err(inside("run control receipt 的 Revision handle 损坏"@)),
                            Some(revision) => Ok(
                                ControlOutcomeView::PipelineProposed { workflow_run, revision },
                            ),
                        }
                    },
                    None => Err(inside("run control receipt 的 Workflow Run handle 损坏"@)),
                }
            } else {
                Err(inside("run control receipt 的 outcome 损坏"@))
            }
        },
        _ => Err(inside("run control receipt 缺少原始结果"@)),
    }
}

/// The view of what an agent is told.
pub open spec fn control_answer(r: Result<RunControlOutcome, TokenSettleProblem>) -> Result<
    ControlOutcomeView,
    TokenProblemView,
> {
    match r {
        Ok(o) => Ok(o@),
        Err(p) => Err(p@),
    }
}

/// What an agent is told, read back from the receipt.
pub fn decode_run_control(result_revisions: &Json) -> (r: Result<
    RunControlOutcome,
    TokenSettleProblem,
>)
    ensures
        control_answer(r) == told_outcome(result_revisions@),
{
    let result: &Json = match result_revisions.get("run_control_result") {
        Some(v) => match v {
            Json::Object(_) => v,
            _ => {
                return Err(internal("run control receipt 缺少原始结果"));
            },
        },
        None => {
            return Err(internal("run control receipt 缺少原始结果"));
        },
    };
    assert(result@ is Object);
    assert(result@ == JsonView::Object(result@->Object_0));
    let kind: &str = match result.get_str("outcome") {
        Some(kind) => kind,
        None => {
            return Err(internal("run control receipt 的 outcome 损坏"));
        },
    };
    if same(kind, "applied") || same(kind, "already_applied") || same(kind, "state_reported") {
        let agent_run: AgentRunHandle = match result.get_str("agent_run") {
            None => {
                return Err(internal("run control receipt 的 Agent Run handle 损坏"));
            },
            Some(raw) => match AgentRunHandle::parse(raw) {
                Ok(h) => h,
                Err(p) => {
                    return Err(internal(p.message()));
                },
            },
        };
        if same(kind, "applied") {
            return Ok(RunControlOutcome::Settled(TokenSettleOutcome::Applied { agent_run }));
        }
        if same(kind, "already_applied") {
            return Ok(
                RunControlOutcome::Settled(TokenSettleOutcome::AlreadyApplied { agent_run }),
            );
        }
        return match result.get_str("state") {
            None => Err(internal("run control receipt 的 Agent state 损坏")),
            Some(state) => Ok(
                RunControlOutcome::StateReported { agent_run, state: state.to_owned() },
            ),
        };
    }
    if same(kind, "pipeline_proposed") {
        let workflow_run: WorkflowRunHandle = match result.get_str("workflow_run") {
            None => {
                return Err(internal("run control receipt 的 Workflow Run handle 损坏"));
            },
            Some(raw) => match WorkflowRunHandle::parse(raw) {
                Ok(h) => h,
                Err(_) => {
                    return Err(internal("run control receipt 的 Workflow Run handle 损坏"));
                },
            },
        };
        return match result.get_str("revision") {
            None => Err(internal("run control receipt 的 Revision handle 损坏")),
            Some(revision) => Ok(
                RunControlOutcome::PipelineProposed {
                    workflow_run,
                    revision: revision.to_owned(),
                },
            ),
        };
    }
    Err(internal("run control receipt 的 outcome 损坏"))
}

/// Everything that is settled before an agent's command is carried out.
pub struct ControlPlan {
    pub capability: RunCapability,
    pub at: RunLocation,
    pub envelope: CommandEnvelope,
    pub target: AggregateRef,
    pub command_type: CommandType,
}

/// The way of an agent's command up to its effect: what its token is good for, whether
/// its project takes it, where it acts, and the command it becomes.
pub open spec fn begun_control(
    capability: CapabilityView,
    closing: Option<bool>,
    rows: RowsView,
    token: Seq<char>,
    c: ControlView,
    command_id: Seq<char>,
    has_port: bool,
) -> Result<(LocationView, EnvelopeView), TokenProblemView> {
    match project_refusal(closing, capability.state) {
        Some(p) => Err(p),
        None => match located(rows, capability.agent_run, token) {
            Err(p) => Err(p),
            Ok(at) => match settled_refusal(c, capability.state) {
                Some(p) => Err(p),
                None => {
                    let e = control_envelope(
                        command_id,
                        capability.project,
                        capability.agent_run,
                        at,
                        c,
                    );
                    match e.problem() {
                        Some(p) => Err(TokenProblemView::Kernel(kernel_of_command(p))),
                        None => if !has_port {
                            Err(
                                TokenProblemView::Kernel(
                                    KernelProblemView::ServiceUnavailable(
                                        "run_lifecycle_port_not_registered"@,
                                    ),
                                ),
                            )
                        } else {
                            Ok((at, e))
                        },
                    }
                },
            },
        },
    }
}

/// The way of an agent's command up to its effect. `rows` are those of the token's
/// project; `closing` says whether it is being closed, where it is open at all.
pub fn begin_run_control(
    capability: RunCapability,
    closing: Option<bool>,
    rows: &ProjectRows,
    token: &str,
    command: &RunControlCommand,
    command_id: &CommandId,
    has_port: bool,
) -> (r: Result<ControlPlan, TokenSettleProblem>)
    ensures
        ({
            let way = begun_control(
                capability@,
                closing,
                rows@,
                token@,
                command@,
                command_id@,
                has_port,
            );
            match r {
                Ok(plan) => {
                    &&& way == Ok::<(LocationView, EnvelopeView), TokenProblemView>(
                        (plan.at@, plan.envelope@),
                    )
                    &&& plan.capability@ == capability@
                    &&& plan.target@ == plan.envelope@.target.aggregate
                    &&& plan.command_type == plan.envelope@.command_type
                },
                Err(p) => way == Err::<(LocationView, EnvelopeView), TokenProblemView>(p@),
            }
        }),
{
    match check_project(closing, capability.state) {
        Ok(_) => {},
        Err(p) => {
            return Err(p);
        },
    }
    let at: RunLocation = match locate_run(rows, &capability.agent_run, token) {
        Ok(at) => at,
        Err(p) => {
            return Err(p);
        },
    };
    match check_settled(command, capability.state) {
        Ok(_) => {},
        Err(p) => {
            return Err(p);
        },
    }
    let envelope: CommandEnvelope = match build_control_envelope(
        command_id,
        &capability.project,
        &capability.agent_run,
        &at,
        command,
    ) {
        Ok(e) => e,
        Err(p) => {
            return Err(p);
        },
    };
    if !has_port {
        return Err(
            TokenSettleProblem::Kernel(
                KernelProblem::unavailable("run_lifecycle_port_not_registered"),
            ),
        );
    }
    let target: AggregateRef = target_of_control(
        command,
        &capability.agent_run,
        &at.workflow_run,
    );
    let command_type: CommandType = type_of_control(command);
    Ok(ControlPlan { capability, at, envelope, target, command_type })
}

/// Whether the very token is bound to where a command acts.
pub open spec fn control_admission(
    rows: RowsView,
    agent_run: Seq<char>,
    token: Seq<char>,
    at: LocationView,
    e: EnvelopeView,
) -> Result<(), ProblemView> {
    if e.root_epoch is Some {
        Err(ProblemView::InvalidEnvelope("run capability 只能授权其绑定 RunControl target"@))
    } else if crate::authority::binding_of(rows, agent_run, token) == Some(
        (at.workflow_run, at.step),
    ) {
        Ok(())
    } else {
        Err(ProblemView::ResourceNotFound)
    }
}

/// The view of what a command led to, as an agent sees it.
pub open spec fn applied_result(r: Result<CommandOutcome, TokenSettleProblem>) -> Result<
    AppliedView,
    TokenProblemView,
> {
    match r {
        Ok(o) => Ok(o@),
        Err(p) => Err(p@),
    }
}

/// A command's answer, as an agent sees it.
pub open spec fn as_seen(r: Result<AppliedView, ProblemView>) -> Result<
    AppliedView,
    TokenProblemView,
> {
    match r {
        Ok(a) => Ok(a),
        Err(p) => Err(TokenProblemView::Kernel(kernel_of_command(p))),
    }
}

/// What holds between an agent's command and its end in the store: it is answered from its
/// receipt, refused by the state of its run, or carried out.
pub open spec fn control_carried<F: FnOnce() -> Result<EffectOutput, CommandProblem>>(
    intents: Intents,
    target: TargetTables,
    rows: RowsView,
    token: Seq<char>,
    agent_run: Seq<char>,
    at: LocationView,
    e: EnvelopeView,
    c: ControlView,
    digest: Seq<char>,
    effect: F,
    now: Seq<char>,
    done: (Intents, TargetTables, Result<AppliedView, TokenProblemView>),
) -> bool {
    let admission = control_admission(rows, agent_run, token, at, e);
    let unchanged = done.0 == intents && done.1 == target;
    match replay_view(target, e, Ok(digest), admission) {
        Err(p) => unchanged && done.2 == as_seen(Err(p)),
        Ok(Some(a)) => unchanged && done.2 == as_seen(Ok(a)),
        Ok(None) => match run_refusal(at, c) {
            Some(p) => unchanged && done.2 == Err::<AppliedView, TokenProblemView>(p),
            None => exists|answer: Result<AppliedView, ProblemView>|
                done.2 == as_seen(answer) && #[trigger] dispatched(
                    intents,
                    target,
                    e,
                    Ok(digest),
                    admission,
                    crate::authority::token_expectations(rows, e.expected, 0),
                    effect,
                    None,
                    now,
                    (done.0, done.1, answer),
                ),
        },
    }
}

/// Carries an agent's command out, or answers it from its receipt. A receipt is looked
/// for before the run's state: the end of a run must not refuse its own repetition.
pub fn apply_run_control<F: FnOnce() -> Result<EffectOutput, CommandProblem>>(
    coordinator: &CommandCoordinator,
    intents: &mut Table<IntentRow>,
    target: &mut TargetDatabase,
    rows: &ProjectRows,
    token: &str,
    plan: &ControlPlan,
    command: &RunControlCommand,
    digest: &str,
    effect: F,
    now: &str,
) -> (r: Result<CommandOutcome, TokenSettleProblem>)
    requires
        old(intents).wf(),
        old(target).wf(),
        effect.requires(()),
        plan.target@ == plan.envelope@.target.aggregate,
        plan.command_type == plan.envelope@.command_type,
    ensures
        final(intents).wf(),
        final(target).wf(),
        control_carried(
            old(intents)@,
            old(target)@,
            rows@,
            token@,
            plan.capability@.agent_run,
            plan.at@,
            plan.envelope@,
            command@,
            digest@,
            effect,
            now@,
            (final(intents)@, final(target)@, applied_result(r)),
        ),
{
    let authorizer: RunControlAuthorizer = RunControlAuthorizer {
        token,
        workflow_run: &plan.at.workflow_run,
        step: &plan.at.step,
        agent_run: &plan.capability.agent_run,
        target: &plan.target,
        command_type: plan.command_type,
        rows,
    };
    let ghost e = plan.envelope@;
    assert(authorizer.admission(e.lease()) == control_admission(
        rows@,
        plan.capability@.agent_run,
        token@,
        plan.at@,
        e,
    ));
    assert(authorizer.expectation(e.lease()) == crate::authority::token_expectations(
        rows@,
        e.expected,
        0,
    ));
    match coordinator.replay_if_applied_with_digest(&plan.envelope, digest, target, &authorizer) {
        Err(p) => {
            return Err(TokenSettleProblem::Kernel(KernelProblem::from_command(p)));
        },
        Ok(Some(outcome)) => {
            return Ok(outcome);
        },
        Ok(None) => {},
    }
    match check_run(&plan.at, command) {
        Ok(_) => {},
        Err(p) => {
            return Err(p);
        },
    }
    let done: Result<CommandOutcome, CommandProblem> = coordinator.dispatch_internal_with_digest(
        intents,
        &plan.envelope,
        digest,
        target,
        &authorizer,
        effect,
        None,
        now,
    );
    let ghost answer = outcome(done);
    match done {
        Ok(outcome) => Ok(outcome),
        Err(p) => Err(TokenSettleProblem::Kernel(KernelProblem::from_command(p))),
    }
}

/// The end of an agent's command: the token of a settled run is sealed, and the agent is
/// told what the receipt says.
pub open spec fn finished_control(
    s: StoreView,
    code: Result<Seq<char>, Seq<char>>,
    c: ControlView,
    result_revisions: JsonView,
    now: Seq<char>,
) -> (StoreView, Result<ControlOutcomeView, TokenProblemView>) {
    if c is Settle {
        match code {
            Err(m) => (s, Err(inside("run capability settle 失败:"@ + m))),
            Ok(code) => {
                let caps = ended_token(s.capabilities, code, RunCapabilityState::Settled, now);
                let after = StoreView { capabilities: caps, ..s };
                match resolved(caps, code) {
                    ResolutionView::One(cap) => if cap.state is Settled {
                        (after, told_outcome(result_revisions))
                    } else {
                        (after, Err(inside("run capability commit 后未进入 settled"@)))
                    },
                    ResolutionView::Many => (
                        after,
                        Err(TokenProblemView::AmbiguousToken { matches: 2 }),
                    ),
                    ResolutionView::Zero => (
                        after,
                        Err(inside("run capability commit 后未进入 settled"@)),
                    ),
                }
            },
        }
    } else {
        (s, told_outcome(result_revisions))
    }
}

/// Ends an agent's command: the token of a settled run is sealed, and the agent is told
/// what the receipt says.
pub fn finish_run_control(
    store: &mut ServiceStore,
    key: &RunCapabilityKey,
    token: &str,
    command: &RunControlCommand,
    result_revisions: &Json,
    now: &str,
) -> (r: Result<RunControlOutcome, TokenSettleProblem>)
    requires
        old(store)@.sound(),
    ensures
        final(store)@.sound(),
        (final(store)@, control_answer(r)) == finished_control(
            old(store)@,
            token_code(key@, vstd::utf8::encode_utf8(token@)),
            command@,
            result_revisions@,
            now@,
        ),
{
    match command {
        RunControlCommand::Settle(_) => {
            match store.settle_run_capability(key, token.as_bytes(), now) {
                Err(m) => {
                    return Err(
                        internal(cat("run capability settle 失败:", m.as_str()).as_str()),
                    );
                },
                Ok(RunCapabilityResolution::One(c)) => {
                    if c.state != RunCapabilityState::Settled {
                        return Err(internal("run capability commit 后未进入 settled"));
                    }
                },
                Ok(RunCapabilityResolution::Many) => {
                    return Err(TokenSettleProblem::AmbiguousToken { matches: 2 });
                },
                Ok(RunCapabilityResolution::Zero) => {
                    return Err(internal("run capability commit 后未进入 settled"));
                },
            }
        },
        _ => {},
    }
    decode_run_control(result_revisions)
}

/// A token that means two things is good for nothing, now and later: it is refused, and
/// the registry keeps it in quarantine.
pub proof fn law_an_ambiguous_token_is_quarantined(
    s: StoreView,
    code: Seq<char>,
    hits: Seq<HitView>,
    now: Seq<char>,
    c: CapabilityView,
)
    requires
        resolved(s.capabilities, code) == ResolutionView::One(c),
        !agrees(hits, c),
        crate::project_registry::project_problem(s.projects, c.project, false) is None,
    ensures
        authority_view(s, code, hits, now).1 matches Err(TokenProblemView::AmbiguousToken { .. }),
        resolved(authority_view(s, code, hits, now).0.capabilities, code) is Many,
{
    crate::project_registry::lemma_backfilled_is_many(s, code, c.project, c.agent_run, now);
}

/// What an agent is told the first time is what it is told on every repetition: the
/// answer is read back from what was stored.
pub proof fn law_the_answer_is_kept(
    output: EffectView,
    c: ControlView,
    agent_run: Seq<char>,
    at: LocationView,
)
    requires
        v7_as_given(agent_run) is Ok,
        v7_as_given(at.workflow_run) is Ok,
        field_of(output.result_revisions, "run_control_result"@) is None,
        with_result(output, c, agent_run, at) is Ok,
        c is ProposePipeline ==> as_text_view(
            field_of(output.result_revisions, "draft_revision"@),
        ) is Some,
    ensures
        told_outcome(with_result(output, c, agent_run, at)->Ok_0.result_revisions) == Ok::<
            ControlOutcomeView,
            TokenProblemView,
        >(
            match c {
                ControlView::Settle(_) => ControlOutcomeView::Settled {
                    agent_run,
                    already: at.outcome is Some,
                },
                ControlView::ReportState(state) => ControlOutcomeView::StateReported {
                    agent_run,
                    state,
                },
                ControlView::ProposePipeline(_) => ControlOutcomeView::PipelineProposed {
                    workflow_run: at.workflow_run,
                    revision: as_text_view(
                        field_of(output.result_revisions, "draft_revision"@),
                    )->0,
                },
            },
        ),
{
    let f = output.result_revisions->Object_0;
    let kept = if c is ProposePipeline {
        without_field(f, "draft_revision"@, f.len())
    } else {
        f
    };
    lemma_absent_stays(f, "draft_revision"@, "run_control_result"@, f.len());
    let told = (with_result(output, c, agent_run, at)->Ok_0.result_revisions)->Object_0.last();
    lemma_field_in_push(kept, told, "run_control_result"@);
    reveal_strlit("agent_run");
    reveal_strlit("outcome");
    reveal_strlit("state");
    reveal_strlit("workflow_run");
    reveal_strlit("revision");
    reveal_strlit("applied");
    reveal_strlit("already_applied");
    reveal_strlit("state_reported");
    reveal_strlit("pipeline_proposed");
    assert("agent_run"@.len() == 9);
    assert("outcome"@.len() == 7);
    assert("state"@.len() == 5);
    assert("workflow_run"@.len() == 12);
    assert("revision"@.len() == 8);
    assert("applied"@.len() == 7);
    assert("already_applied"@.len() == 15);
    assert("state_reported"@.len() == 14);
    assert("pipeline_proposed"@.len() == 17);
    reveal_with_fuel(field_in, 4);
    let g = told.1->Object_0;
    assert(g.skip(1)[0] == g[1]);
    if g.len() == 3 {
        assert(g.skip(1).skip(1)[0] == g[2]);
    }
}

/// An agent that is told that its run has ended holds a token that is good for nothing
/// more: the registry has it sealed.
pub proof fn law_the_end_of_a_run_seals_its_token(
    s: StoreView,
    code: Seq<char>,
    c: ControlView,
    result_revisions: JsonView,
    now: Seq<char>,
)
    requires
        c is Settle,
        finished_control(s, Ok(code), c, result_revisions, now).1 is Ok,
    ensures
        resolved(
            finished_control(s, Ok(code), c, result_revisions, now).0.capabilities,
            code,
        ) matches ResolutionView::One(cap) && cap.state is Settled,
{
}

/// The first agent run with that token, from a place on.
pub open spec fn run_with_token(v: Seq<AgentRunView>, token: Seq<char>, from: int) -> Option<
    AgentRunView,
>
    decreases v.len() - from,
{
    if from >= v.len() {
        None
    } else if v[from].capability_token == token {
        Some(v[from])
    } else {
        run_with_token(v, token, from + 1)
    }
}

/// What the stores of the first `n` projects hold under a token.
pub open spec fn token_hits(
    projects: Seq<RegistrationRow>,
    rows: Seq<RowsView>,
    token: Seq<char>,
    n: nat,
) -> Seq<HitView>
    decreases n,
{
    if n == 0 {
        seq![]
    } else {
        let before = token_hits(projects, rows, token, (n - 1) as nat);
        match run_with_token(rows[n - 1].agent_runs, token, 0) {
            Some(run) => before.push(
                HitView { project: projects[n - 1].project, agent_run: run.public_handle },
            ),
            None => before,
        }
    }
}

/// The rows of projects, as values.
pub open spec fn all_rows(v: Seq<ProjectRows>) -> Seq<RowsView> {
    v.map_values(|r: ProjectRows| r@)
}

fn find_run_with_token(v: &Vec<AgentRunRow>, token: &str) -> (r: Option<usize>)
    ensures
        match r {
            Some(i) => i < v@.len() && run_with_token(agent_runs_view(v@), token@, 0) == Some(
                v@[i as int]@,
            ),
            None => run_with_token(agent_runs_view(v@), token@, 0) is None,
        },
{
    let ghost all = agent_runs_view(v@);
    let mut i: usize = 0;
    while i < v.len()
        invariant
            i <= v@.len(),
            all == agent_runs_view(v@),
            run_with_token(all, token@, 0) == run_with_token(all, token@, i as int),
        decreases v@.len() - i,
    {
        assert(all[i as int] == v@[i as int]@);
        if same(v[i].capability_token.as_str(), token) {
            return Some(i);
        }
        i = i + 1;
    }
    None
}

/// What the stores of the open projects hold under a token.
pub fn scan_tokens(projects: &Vec<ProjectRegistration>, rows: &Vec<ProjectRows>, token: &str) -> (r:
    Vec<StoreHit>)
    requires
        rows@.len() == projects@.len(),
    ensures
        hits_view(r@) == token_hits(
            registrations(projects@),
            all_rows(rows@),
            token@,
            projects@.len() as nat,
        ),
{
    let ghost all = registrations(projects@);
    let ghost held = all_rows(rows@);
    let mut out: Vec<StoreHit> = Vec::new();
    let mut i: usize = 0;
    assert(hits_view(out@) =~= seq![]);
    while i < projects.len()
        invariant
            i <= projects@.len(),
            rows@.len() == projects@.len(),
            all == registrations(projects@),
            held == all_rows(rows@),
            hits_view(out@) == token_hits(all, held, token@, i as nat),
        decreases projects@.len() - i,
    {
        let ghost had = out@;
        assert(all[i as int] == projects@[i as int]@);
        assert(held[i as int] == rows@[i as int]@);
        if let Some(k) = find_run_with_token(&rows[i].agent_runs, token) {
            let one: StoreHit = StoreHit {
                project: projects[i].project.clone(),
                agent_run: rows[i].agent_runs[k].public_handle.clone(),
            };
            out.push(one);
            assert(hits_view(out@) =~= hits_view(had).push(one@));
        }
        i = i + 1;
    }
    out
}

/// What an agent is told of the end of its run; any other answer is an error of the core.
pub fn settled_of(outcome: RunControlOutcome) -> (r: Result<TokenSettleOutcome, TokenSettleProblem>)
    ensures
        match (outcome, r) {
            (RunControlOutcome::Settled(o), Ok(q)) => o == q,
            (RunControlOutcome::Settled(_), Err(_)) => false,
            (_, Ok(_)) => false,
            (_, Err(p)) => p@ == inside("RunControl settle 返回错误结果类型"@),
        },
{
    match outcome {
        RunControlOutcome::Settled(o) => Ok(o),
        _ => Err(internal("RunControl settle 返回错误结果类型")),
    }
}

} // verus!
