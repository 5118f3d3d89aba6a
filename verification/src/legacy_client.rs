//! The client inside the process: it reads what a run looks like, lists everything that
//! its command relies on, and asks the kernel. It has no other way to write.

use crate::handles::{
    is_canonical_v7, outcome, v7_as_given, AgentRunHandle, AgentSessionHandle, ClientId, CommandId,
    Principal, ProjectStoreHandle, StepHandle, WorkflowHandle, WorkflowRunHandle,
};
use crate::problem::{KernelProblem, KernelProblemView};
use crate::project_rows::{workflows_view, ProjectRows, RowsView, WorkflowRecord, WorkflowView};
use crate::run_command::{
    versions, KernelCommand, KernelCommandRequest, KernelCommandView, ProjectWorkflowCommand,
    RenameView, RequestView, RetryMode, RunCommandView, RunExpectedView, Settlement, VersionView,
    VersionedHandle, WorkflowRunCommand, WorkflowRunExpected,
};
use crate::run_dispatch::ProjectCloseToken;
use crate::run_scope::{
    is_run_active, is_session_live, is_step_ended, run_active, session_live, step_ended,
};
use crate::snapshot::{
    agent_runs_shown, questions_shown, sessions_shown, steps_shown, AgentRunShown, AgentRunSnapshot,
    AgentSessionSnapshot, OpenQuestionSnapshot, QuestionShown, RunShown, SessionShown, StepShown,
    WorkflowRunSnapshotData, WorkflowRunStepSnapshot,
};
use crate::text::{blank, is_blank, same, trim, trim_text};
use vstd::prelude::*;
use vstd::string::*;

verus! {

/// A step with its revision.
pub open spec fn step_version(s: StepShown) -> VersionView {
    VersionView { handle: s.step, revision: s.revision }
}

/// A step with its revision.
pub fn versioned_step(step: &WorkflowRunStepSnapshot) -> (r: VersionedHandle<StepHandle>)
    ensures
        r@ == step_version(step@),
{
    VersionedHandle { handle: step.step.clone(), revision: step.revision }
}

/// The steps that have not come to their end, with their revisions.
pub open spec fn steps_to_list(steps: Seq<StepShown>) -> Seq<VersionView> {
    steps.filter(|s: StepShown| !step_ended(s.status)).map_values(|s: StepShown| step_version(s))
}

fn list_open_steps(steps: &Vec<WorkflowRunStepSnapshot>) -> (r: Vec<VersionedHandle<StepHandle>>)
    ensures
        versions(r@) == steps_to_list(steps_shown(steps@)),
{
    let ghost all = steps_shown(steps@);
    let mut out: Vec<VersionedHandle<StepHandle>> = Vec::new();
    let mut i: usize = 0;
    proof {
        reveal(Seq::filter);
        assert(versions(out@) =~= steps_to_list(all.take(0)));
    }
    while i < steps.len()
        invariant
            i <= steps@.len(),
            all == steps_shown(steps@),
            versions(out@) == steps_to_list(all.take(i as int)),
        decreases steps@.len() - i,
    {
        let ghost had = out@;
        proof {
            reveal(Seq::filter);
            assert(all.take(i + 1).drop_last() =~= all.take(i as int));
            assert(all.take(i + 1).last() == steps@[i as int]@);
        }
        if !is_step_ended(steps[i].status.as_str()) {
            out.push(versioned_step(&steps[i]));
            assert(versions(out@) =~= versions(had).push(step_version(steps@[i as int]@)));
        }
        assert(versions(out@) =~= steps_to_list(all.take(i + 1)));
        i = i + 1;
    }
    assert(all.take(i as int) =~= all);
    out
}

/// Whether an agent run is active, and of the step if one is given.
pub open spec fn wanted_run(r: AgentRunShown, step: Option<Seq<char>>) -> bool {
    &&& run_active(r.status)
    &&& step matches Some(s) ==> r.step == s
}

/// The active agent runs, of one step if one is given.
pub open spec fn active_runs(runs: Seq<AgentRunShown>, step: Option<Seq<char>>) -> Seq<
    AgentRunShown,
> {
    runs.filter(|r: AgentRunShown| wanted_run(r, step))
}

/// Agent runs that are referred to, as values.
pub open spec fn picked(v: Seq<&AgentRunSnapshot>) -> Seq<AgentRunShown> {
    v.map_values(|r: &AgentRunSnapshot| r@)
}

fn list_active_runs<'a>(runs: &'a Vec<AgentRunSnapshot>, step: Option<&StepHandle>) -> (r: Vec<
    &'a AgentRunSnapshot,
>)
    ensures
        picked(r@) == active_runs(
            agent_runs_shown(runs@),
            match step {
                Some(s) => Some(s@),
                None => None,
            },
        ),
{
    let ghost all = agent_runs_shown(runs@);
    let ghost of: Option<Seq<char>> = match step {
        Some(s) => Some(s@),
        None => None,
    };
    let mut out: Vec<&'a AgentRunSnapshot> = Vec::new();
    let mut i: usize = 0;
    proof {
        reveal(Seq::filter);
        assert(picked(out@) =~= active_runs(all.take(0), of));
    }
    while i < runs.len()
        invariant
            i <= runs@.len(),
            all == agent_runs_shown(runs@),
            of == (match step {
                Some(s) => Some(s@),
                None => None,
            }),
            picked(out@) == active_runs(all.take(i as int), of),
        decreases runs@.len() - i,
    {
        let ghost had = out@;
        proof {
            reveal(Seq::filter);
            assert(all.take(i + 1).drop_last() =~= all.take(i as int));
            assert(all.take(i + 1).last() == runs@[i as int]@);
        }
        let here: bool = match step {
            Some(s) => runs[i].step.same(s),
            None => true,
        };
        if here && is_run_active(runs[i].status.as_str()) {
            out.push(&runs[i]);
            assert(picked(out@) =~= picked(had).push(runs@[i as int]@));
        }
        assert(picked(out@) =~= active_runs(all.take(i + 1), of));
        i = i + 1;
    }
    assert(all.take(i as int) =~= all);
    out
}

/// Agent runs with their revisions.
pub open spec fn run_versions(runs: Seq<AgentRunShown>) -> Seq<VersionView> {
    runs.map_values(
        |r: AgentRunShown| VersionView { handle: r.agent_run, revision: r.revision },
    )
}

/// A session with its revision.
pub open spec fn session_version(s: SessionShown) -> VersionView {
    VersionView { handle: s.agent_session, revision: s.revision }
}

/// Whether one of the agent runs is in that session.
pub open spec fn in_session(runs: Seq<AgentRunShown>, session: Seq<char>) -> bool {
    exists|i: int| 0 <= i < runs.len() && (#[trigger] runs[i]).agent_session == Some(session)
}

/// The sessions of agent runs, with their revisions.
pub open spec fn sessions_to_list(sessions: Seq<SessionShown>, runs: Seq<AgentRunShown>) -> Seq<
    VersionView,
> {
    sessions.filter(|s: SessionShown| in_session(runs, s.agent_session)).map_values(
        |s: SessionShown| session_version(s),
    )
}

/// Everything that a command on these steps and agent runs relies on.
pub open spec fn expected_of(
    data: RunShown,
    steps: Seq<VersionView>,
    runs: Seq<AgentRunShown>,
) -> RunExpectedView {
    RunExpectedView {
        workflow_run_revision: data.revision,
        steps,
        agent_runs: run_versions(runs),
        agent_sessions: sessions_to_list(data.agent_sessions, runs),
    }
}

fn is_in_session(runs: &Vec<&AgentRunSnapshot>, session: &AgentSessionHandle) -> (r: bool)
    ensures
        r == in_session(picked(runs@), session@),
{
    let ghost all = picked(runs@);
    let mut i: usize = 0;
    while i < runs.len()
        invariant
            i <= runs@.len(),
            all == picked(runs@),
            forall|k: int| 0 <= k < i ==> (#[trigger] all[k]).agent_session != Some(session@),
        decreases runs@.len() - i,
    {
        assert(all[i as int] == runs@[i as int]@);
        if let Some(s) = &runs[i].agent_session {
            if s.same(session) {
                assert(all[i as int].agent_session == Some(session@));
                return true;
            }
        }
        i = i + 1;
    }
    false
}

/// Everything that a command on these steps and agent runs relies on.
pub fn run_expected(
    data: &WorkflowRunSnapshotData,
    steps: Vec<VersionedHandle<StepHandle>>,
    runs: &Vec<&AgentRunSnapshot>,
) -> (r: WorkflowRunExpected)
    ensures
        r@ == expected_of(data@, versions(steps@), picked(runs@)),
{
    let ghost all = run_versions(picked(runs@));
    let mut agent_runs: Vec<VersionedHandle<AgentRunHandle>> = Vec::new();
    let mut i: usize = 0;
    assert(versions(agent_runs@) =~= all.take(0));
    while i < runs.len()
        invariant
            i <= runs@.len(),
            all == run_versions(picked(runs@)),
            versions(agent_runs@) == all.take(i as int),
        decreases runs@.len() - i,
    {
        let ghost had = agent_runs@;
        let one: VersionedHandle<AgentRunHandle> = VersionedHandle {
            handle: runs[i].agent_run.clone(),
            revision: runs[i].revision,
        };
        assert(picked(runs@)[i as int] == runs@[i as int]@);
        assert(one@ == all[i as int]);
        agent_runs.push(one);
        assert(versions(agent_runs@) =~= versions(had).push(one@));
        assert(all.take(i + 1) =~= all.take(i as int).push(all[i as int]));
        i = i + 1;
    }
    assert(all.take(i as int) =~= all);
    let ghost seen = sessions_shown(data.agent_sessions@);
    let ghost chosen = picked(runs@);
    let mut agent_sessions: Vec<VersionedHandle<AgentSessionHandle>> = Vec::new();
    let mut j: usize = 0;
    proof {
        reveal(Seq::filter);
        assert(versions(agent_sessions@) =~= sessions_to_list(seen.take(0), chosen));
    }
    while j < data.agent_sessions.len()
        invariant
            j <= data.agent_sessions@.len(),
            seen == sessions_shown(data.agent_sessions@),
            chosen == picked(runs@),
            versions(agent_sessions@) == sessions_to_list(seen.take(j as int), chosen),
        decreases data.agent_sessions@.len() - j,
    {
        let ghost had = agent_sessions@;
        let s: &AgentSessionSnapshot = &data.agent_sessions[j];
        proof {
            reveal(Seq::filter);
            assert(seen.take(j + 1).drop_last() =~= seen.take(j as int));
            assert(seen.take(j + 1).last() == s@);
        }
        if is_in_session(runs, &s.agent_session) {
            let one: VersionedHandle<AgentSessionHandle> = VersionedHandle {
                handle: s.agent_session.clone(),
                revision: s.revision,
            };
            agent_sessions.push(one);
            assert(versions(agent_sessions@) =~= versions(had).push(session_version(s@)));
        }
        assert(versions(agent_sessions@) =~= sessions_to_list(seen.take(j + 1), chosen));
        j = j + 1;
    }
    assert(seen.take(j as int) =~= seen);
    WorkflowRunExpected {
        workflow_run_revision: data.revision,
        steps,
        agent_runs,
        agent_sessions,
    }
}

/// Everything that a cancellation relies on: the steps that have not ended, the active
/// agent runs, and their sessions.
pub open spec fn cancel_expected(data: RunShown) -> RunExpectedView {
    expected_of(data, steps_to_list(data.steps), active_runs(data.agent_runs, None))
}

/// Everything that a cancellation relies on.
pub fn expect_for_cancel(data: &WorkflowRunSnapshotData) -> (r: WorkflowRunExpected)
    ensures
        r@ == cancel_expected(data@),
{
    let steps: Vec<VersionedHandle<StepHandle>> = list_open_steps(&data.steps);
    let runs: Vec<&AgentRunSnapshot> = list_active_runs(&data.agent_runs, None);
    run_expected(data, steps, &runs)
}

/// The step with that handle, from a place on.
pub open spec fn shown_step(v: Seq<StepShown>, step: Seq<char>, from: int) -> Option<StepShown>
    decreases v.len() - from,
{
    if from >= v.len() {
        None
    } else if v[from].step == step {
        Some(v[from])
    } else {
        shown_step(v, step, from + 1)
    }
}

fn find_shown_step(v: &Vec<WorkflowRunStepSnapshot>, step: &StepHandle) -> (r: Option<usize>)
    ensures
        match r {
            Some(i) => i < v@.len() && shown_step(steps_shown(v@), step@, 0) == Some(
                v@[i as int]@,
            ),
            None => shown_step(steps_shown(v@), step@, 0) is None,
        },
{
    let ghost all = steps_shown(v@);
    let mut i: usize = 0;
    while i < v.len()
        invariant
            i <= v@.len(),
            all == steps_shown(v@),
            shown_step(all, step@, 0) == shown_step(all, step@, i as int),
        decreases v@.len() - i,
    {
        assert(all[i as int] == v@[i as int]@);
        if v[i].step.same(step) {
            return Some(i);
        }
        i = i + 1;
    }
    None
}

/// The agent run with that handle, from a place on.
pub open spec fn shown_run(v: Seq<AgentRunShown>, run: Seq<char>, from: int) -> Option<
    AgentRunShown,
>
    decreases v.len() - from,
{
    if from >= v.len() {
        None
    } else if v[from].agent_run == run {
        Some(v[from])
    } else {
        shown_run(v, run, from + 1)
    }
}

fn find_shown_run(v: &Vec<AgentRunSnapshot>, run: &AgentRunHandle) -> (r: Option<usize>)
    ensures
        match r {
            Some(i) => i < v@.len() && shown_run(agent_runs_shown(v@), run@, 0) == Some(
                v@[i as int]@,
            ),
            None => shown_run(agent_runs_shown(v@), run@, 0) is None,
        },
{
    let ghost all = agent_runs_shown(v@);
    let mut i: usize = 0;
    while i < v.len()
        invariant
            i <= v@.len(),
            all == agent_runs_shown(v@),
            shown_run(all, run@, 0) == shown_run(all, run@, i as int),
        decreases v@.len() - i,
    {
        assert(all[i as int] == v@[i as int]@);
        if v[i].agent_run.same(run) {
            return Some(i);
        }
        i = i + 1;
    }
    None
}

/// Everything that a command on one step relies on: the step, its active agent runs, and
/// their sessions.
pub open spec fn step_expected(data: RunShown, step: Seq<char>) -> Option<RunExpectedView> {
    match shown_step(data.steps, step, 0) {
        None => None,
        Some(row) => Some(
            expected_of(
                data,
                seq![step_version(row)],
                active_runs(data.agent_runs, Some(step)),
            ),
        ),
    }
}

fn one_step(row: &WorkflowRunStepSnapshot) -> (r: Vec<VersionedHandle<StepHandle>>)
    ensures
        versions(r@) == seq![step_version(row@)],
{
    let mut v: Vec<VersionedHandle<StepHandle>> = Vec::new();
    v.push(versioned_step(row));
    assert(versions(v@) =~= seq![step_version(row@)]);
    v
}

fn expect_for_step(data: &WorkflowRunSnapshotData, step: &StepHandle) -> (r: Option<
    WorkflowRunExpected,
>)
    ensures
        (match r {
            Some(e) => Some(e@),
            None => None,
        }) == step_expected(data@, step@),
{
    match find_shown_step(&data.steps, step) {
        None => None,
        Some(i) => {
            let runs: Vec<&AgentRunSnapshot> = list_active_runs(&data.agent_runs, Some(step));
            Some(run_expected(data, one_step(&data.steps[i]), &runs))
        },
    }
}

/// The session that a step was worked on in: that of its first agent run with one.
pub open spec fn session_of_step(v: Seq<AgentRunShown>, step: Seq<char>, from: int) -> Option<
    Seq<char>,
>
    decreases v.len() - from,
{
    if from >= v.len() {
        None
    } else if v[from].step == step && v[from].agent_session is Some {
        v[from].agent_session
    } else {
        session_of_step(v, step, from + 1)
    }
}

fn find_session_of_step<'a>(v: &'a Vec<AgentRunSnapshot>, step: &StepHandle) -> (r: Option<
    &'a AgentSessionHandle,
>)
    ensures
        (match r {
            Some(h) => Some(h@),
            None => None,
        }) == session_of_step(agent_runs_shown(v@), step@, 0),
{
    let ghost all = agent_runs_shown(v@);
    let mut i: usize = 0;
    while i < v.len()
        invariant
            i <= v@.len(),
            all == agent_runs_shown(v@),
            session_of_step(all, step@, 0) == session_of_step(all, step@, i as int),
        decreases v@.len() - i,
    {
        assert(all[i as int] == v@[i as int]@);
        if v[i].step.same(step) {
            if let Some(h) = &v[i].agent_session {
                return Some(h);
            }
        }
        i = i + 1;
    }
    None
}

/// The session with that handle, from a place on.
pub open spec fn shown_session(v: Seq<SessionShown>, session: Seq<char>, from: int) -> Option<
    SessionShown,
>
    decreases v.len() - from,
{
    if from >= v.len() {
        None
    } else if v[from].agent_session == session {
        Some(v[from])
    } else {
        shown_session(v, session, from + 1)
    }
}

fn find_shown_session(v: &Vec<AgentSessionSnapshot>, session: &AgentSessionHandle) -> (r: Option<
    usize,
>)
    ensures
        match r {
            Some(i) => i < v@.len() && shown_session(sessions_shown(v@), session@, 0) == Some(
                v@[i as int]@,
            ),
            None => shown_session(sessions_shown(v@), session@, 0) is None,
        },
{
    let ghost all = sessions_shown(v@);
    let mut i: usize = 0;
    while i < v.len()
        invariant
            i <= v@.len(),
            all == sessions_shown(v@),
            shown_session(all, session@, 0) == shown_session(all, session@, i as int),
        decreases v@.len() - i,
    {
        assert(all[i as int] == v@[i as int]@);
        if v[i].agent_session.same(session) {
            return Some(i);
        }
        i = i + 1;
    }
    None
}

/// Whether a session is among the listed ones.
pub open spec fn session_listed(v: Seq<VersionView>, session: Seq<char>) -> bool {
    exists|i: int| 0 <= i < v.len() && (#[trigger] v[i]).handle == session
}

fn is_session_listed(v: &Vec<VersionedHandle<AgentSessionHandle>>, session: &AgentSessionHandle)
    -> (r: bool)
    ensures
        r == session_listed(versions(v@), session@),
{
    let ghost all = versions(v@);
    let mut i: usize = 0;
    while i < v.len()
        invariant
            i <= v@.len(),
            all == versions(v@),
            forall|k: int| 0 <= k < i ==> (#[trigger] all[k]).handle != session@,
        decreases v@.len() - i,
    {
        assert(all[i as int] == v@[i as int]@);
        if v[i].handle.same(session) {
            assert(all[i as int].handle == session@);
            return true;
        }
        i = i + 1;
    }
    false
}

/// Everything that a retry relies on: that of its step, and the session that is to be
/// continued.
pub open spec fn retry_expected(data: RunShown, step: Seq<char>, mode: RetryMode) -> Result<
    RunExpectedView,
    KernelProblemView,
> {
    match step_expected(data, step) {
        None => Err(KernelProblemView::ResourceNotFound),
        Some(e) => if mode != RetryMode::ContinueSession {
            Ok(e)
        } else {
            match session_of_step(data.agent_runs, step, 0) {
                None => Err(
                    KernelProblemView::ValidationFailed(
                        "目标 Step 没有可继续的 Agent Session"@,
                    ),
                ),
                Some(session) => if session_listed(e.agent_sessions, session) {
                    Ok(e)
                } else {
                    match shown_session(data.agent_sessions, session, 0) {
                        Some(s) => if !session_live(s.status) {
                            Err(
                                KernelProblemView::ValidationFailed(
                                    "目标 Step 的 Agent Session 已不可继续"@,
                                ),
                            )
                        } else {
                            Ok(
                                RunExpectedView {
                                    agent_sessions: e.agent_sessions.push(session_version(s)),
                                    ..e
                                },
                            )
                        },
                        None => Err(
                            KernelProblemView::ValidationFailed(
                                "目标 Step 的 Agent Session 已不可继续"@,
                            ),
                        ),
                    }
                },
            }
        },
    }
}

/// Everything that a retry relies on.
pub fn expect_for_retry(data: &WorkflowRunSnapshotData, step: &StepHandle, mode: RetryMode) -> (r:
    Result<WorkflowRunExpected, KernelProblem>)
    ensures
        outcome(r) == retry_expected(data@, step@, mode),
{
    let mut expected: WorkflowRunExpected = match expect_for_step(data, step) {
        Some(e) => e,
        None => {
            return Err(KernelProblem::ResourceNotFound);
        },
    };
    if mode != RetryMode::ContinueSession {
        return Ok(expected);
    }
    let session: &AgentSessionHandle = match find_session_of_step(&data.agent_runs, step) {
        Some(h) => h,
        None => {
            return Err(
                KernelProblem::ValidationFailed(
                    "目标 Step 没有可继续的 Agent Session".to_owned(),
                ),
            );
        },
    };
    if is_session_listed(&expected.agent_sessions, session) {
        return Ok(expected);
    }
    let ghost had = expected;
    match find_shown_session(&data.agent_sessions, session) {
        Some(i) => {
            let s: &AgentSessionSnapshot = &data.agent_sessions[i];
            if is_session_live(s.status.as_str()) {
                let one: VersionedHandle<AgentSessionHandle> = VersionedHandle {
                    handle: s.agent_session.clone(),
                    revision: s.revision,
                };
                expected.agent_sessions.push(one);
                assert(versions(expected.agent_sessions@) =~= versions(had.agent_sessions@).push(
                    session_version(s@),
                ));
                return Ok(expected);
            }
        },
        None => {},
    }
    Err(
        KernelProblem::ValidationFailed(
            "目标 Step 的 Agent Session 已不可继续".to_owned(),
        ),
    )
}

/// The questions of a step that wait for an answer.
pub open spec fn questions_of(v: Seq<QuestionShown>, step: Seq<char>) -> Seq<QuestionShown> {
    v.filter(|q: QuestionShown| q.step == Some(step))
}

/// Where the questions of a step stand.
fn find_questions(v: &Vec<OpenQuestionSnapshot>, step: &StepHandle) -> (r: Vec<usize>)
    ensures
        r@.len() == questions_of(questions_shown(v@), step@).len(),
        forall|k: int|
            0 <= k < r@.len() ==> (#[trigger] r@[k]) < v@.len() && v@[r@[k] as int]@
                == questions_of(questions_shown(v@), step@)[k],
{
    let ghost all = questions_shown(v@);
    let mut out: Vec<usize> = Vec::new();
    let mut i: usize = 0;
    proof {
        reveal(Seq::filter);
    }
    while i < v.len()
        invariant
            i <= v@.len(),
            all == questions_shown(v@),
            out@.len() == questions_of(all.take(i as int), step@).len(),
            forall|k: int|
                0 <= k < out@.len() ==> (#[trigger] out@[k]) < v@.len() && v@[out@[k] as int]@
                    == questions_of(all.take(i as int), step@)[k],
        decreases v@.len() - i,
    {
        proof {
            reveal(Seq::filter);
            assert(all.take(i + 1).drop_last() =~= all.take(i as int));
            assert(all.take(i + 1).last() == v@[i as int]@);
        }
        let here: bool = match &v[i].step {
            Some(s) => s.same(step),
            None => false,
        };
        if here {
            out.push(i);
        }
        i = i + 1;
    }
    assert(all.take(i as int) =~= all);
    out
}

/// The question that an answer is for, and everything that the answer relies on: the
/// step, and the agent run that asked.
pub open spec fn answer_expected(data: RunShown, step: Seq<char>) -> Result<
    (i64, RunExpectedView),
    KernelProblemView,
> {
    match shown_step(data.steps, step, 0) {
        None => Err(KernelProblemView::ResourceNotFound),
        Some(row) => {
            let questions = questions_of(data.open_questions, step);
            if questions.len() != 1 {
                Err(
                    KernelProblemView::InvalidEnvelope(
                        "respond 要求目标 Step 恰有一个 open question"@,
                    ),
                )
            } else {
                match questions[0].agent_run {
                    None => Ok(
                        (
                            questions[0].question_id,
                            expected_of(data, seq![step_version(row)], seq![]),
                        ),
                    ),
                    Some(h) => match shown_run(data.agent_runs, h, 0) {
                        None => Err(KernelProblemView::ResourceNotFound),
                        Some(run) => Ok(
                            (
                                questions[0].question_id,
                                expected_of(data, seq![step_version(row)], seq![run]),
                            ),
                        ),
                    },
                }
            }
        },
    }
}

/// The question that an answer is for, and everything that the answer relies on.
pub fn expect_for_answer(data: &WorkflowRunSnapshotData, step: &StepHandle) -> (r: Result<
    (i64, WorkflowRunExpected),
    KernelProblem,
>)
    ensures
        (match r {
            Ok((id, e)) => Ok((id, e@)),
            Err(p) => Err(p@),
        }) == answer_expected(data@, step@),
{
    let row: usize = match find_shown_step(&data.steps, step) {
        Some(i) => i,
        None => {
            return Err(KernelProblem::ResourceNotFound);
        },
    };
    let questions: Vec<usize> = find_questions(&data.open_questions, step);
    if questions.len() != 1 {
        return Err(
            KernelProblem::invalid("respond 要求目标 Step 恰有一个 open question"),
        );
    }
    let q: usize = questions[0];
    let mut runs: Vec<&AgentRunSnapshot> = Vec::new();
    match &data.open_questions[q].agent_run {
        Some(h) => match find_shown_run(&data.agent_runs, h) {
            Some(i) => {
                runs.push(&data.agent_runs[i]);
                assert(picked(runs@) =~= seq![data.agent_runs@[i as int]@]);
            },
            None => {
                return Err(KernelProblem::ResourceNotFound);
            },
        },
        None => {
            assert(picked(runs@) =~= seq![]);
        },
    }
    Ok(
        (
            data.open_questions[q].question_id,
            run_expected(data, one_step(&data.steps[row]), &runs),
        ),
    )
}

/// The step of an agent run, and everything that its end relies on: the agent run, its
/// step and its session.
pub open spec fn settle_expected(data: RunShown, agent_run: Seq<char>) -> Result<
    (Seq<char>, RunExpectedView),
    KernelProblemView,
> {
    match shown_run(data.agent_runs, agent_run, 0) {
        None => Err(KernelProblemView::ResourceNotFound),
        Some(run) => match shown_step(data.steps, run.step, 0) {
            None => Err(KernelProblemView::ResourceNotFound),
            Some(step) => Ok(
                (run.step, expected_of(data, seq![step_version(step)], seq![run])),
            ),
        },
    }
}

/// The step of an agent run, and everything that its end relies on.
pub fn expect_for_settling(data: &WorkflowRunSnapshotData, agent_run: &AgentRunHandle) -> (r:
    Result<(StepHandle, WorkflowRunExpected), KernelProblem>)
    ensures
        (match r {
            Ok((step, e)) => Ok((step@, e@)),
            Err(p) => Err(p@),
        }) == settle_expected(data@, agent_run@),
{
    let at: usize = match find_shown_run(&data.agent_runs, agent_run) {
        Some(i) => i,
        None => {
            return Err(KernelProblem::ResourceNotFound);
        },
    };
    let run: &AgentRunSnapshot = &data.agent_runs[at];
    let step: usize = match find_shown_step(&data.steps, &run.step) {
        Some(i) => i,
        None => {
            return Err(KernelProblem::ResourceNotFound);
        },
    };
    let mut runs: Vec<&AgentRunSnapshot> = Vec::new();
    runs.push(run);
    assert(picked(runs@) =~= seq![run@]);
    Ok((run.step.clone(), run_expected(data, one_step(&data.steps[step]), &runs)))
}

/// The workflow with that key, from a place on.
pub open spec fn workflow_by_key(v: Seq<WorkflowView>, key: Seq<char>, from: int) -> Option<
    WorkflowView,
>
    decreases v.len() - from,
{
    if from >= v.len() {
        None
    } else if v[from].key == key {
        Some(v[from])
    } else {
        workflow_by_key(v, key, from + 1)
    }
}

/// The handle of the workflow with a key, and the revision of how it is shown.
pub open spec fn located(rows: RowsView, key: Seq<char>) -> Result<
    (Seq<char>, u64),
    KernelProblemView,
> {
    match workflow_by_key(rows.workflows, key, 0) {
        None => Err(KernelProblemView::ResourceNotFound),
        Some(w) => match v7_as_given(w.public_handle) {
            Err(m) => Err(KernelProblemView::Internal(m)),
            Ok(_) => if w.presentation_revision < 0 {
                Err(KernelProblemView::Internal("presentation_revision 溢出"@))
            } else {
                Ok((w.public_handle, w.presentation_revision as u64))
            },
        },
    }
}

/// The handle of the workflow with a key, and the revision of what it means.
pub open spec fn located_meaning(rows: RowsView, key: Seq<char>) -> Result<
    (Seq<char>, u64),
    KernelProblemView,
> {
    match workflow_by_key(rows.workflows, key, 0) {
        None => Err(KernelProblemView::ResourceNotFound),
        Some(w) => match v7_as_given(w.public_handle) {
            Err(m) => Err(KernelProblemView::Internal(m)),
            Ok(_) => if w.semantic_revision < 0 {
                Err(KernelProblemView::Internal("semantic_revision 溢出"@))
            } else {
                Ok((w.public_handle, w.semantic_revision as u64))
            },
        },
    }
}

fn find_workflow_by_key<'a>(rows: &'a ProjectRows, key: &str) -> (r: Option<&'a WorkflowRecord>)
    ensures
        match r {
            Some(w) => workflow_by_key(rows@.workflows, key@, 0) == Some(w@),
            None => workflow_by_key(rows@.workflows, key@, 0) is None,
        },
{
    let ghost all = workflows_view(rows.workflows@);
    let mut i: usize = 0;
    while i < rows.workflows.len()
        invariant
            i <= rows.workflows@.len(),
            all == rows@.workflows,
            all == workflows_view(rows.workflows@),
            workflow_by_key(all, key@, 0) == workflow_by_key(all, key@, i as int),
        decreases rows.workflows@.len() - i,
    {
        let w: &WorkflowRecord = &rows.workflows[i];
        assert(all[i as int] == w@);
        if same(w.key.as_str(), key) {
            return Some(w);
        }
        i = i + 1;
    }
    None
}

/// The handle of the workflow with a key, and the revision of how it is shown.
pub fn legacy_workflow_locator(rows: &ProjectRows, workflow_key: &str) -> (r: Result<
    (WorkflowHandle, u64),
    KernelProblem,
>)
    ensures
        (match r {
            Ok((h, v)) => Ok((h@, v)),
            Err(p) => Err(p@),
        }) == located(rows@, workflow_key@),
{
    match find_workflow_by_key(rows, workflow_key) {
        None => Err(KernelProblem::ResourceNotFound),
        Some(w) => match WorkflowHandle::parse(w.public_handle.as_str()) {
            Err(p) => Err(KernelProblem::internal(p.message())),
            Ok(handle) => if w.presentation_revision < 0 {
                Err(KernelProblem::internal("presentation_revision 溢出"))
            } else {
                Ok((handle, w.presentation_revision as u64))
            },
        },
    }
}

fn locate_meaning(rows: &ProjectRows, workflow_key: &str) -> (r: Result<
    (WorkflowHandle, u64),
    KernelProblem,
>)
    ensures
        (match r {
            Ok((h, v)) => Ok((h@, v)),
            Err(p) => Err(p@),
        }) == located_meaning(rows@, workflow_key@),
{
    match find_workflow_by_key(rows, workflow_key) {
        None => Err(KernelProblem::ResourceNotFound),
        Some(w) => match WorkflowHandle::parse(w.public_handle.as_str()) {
            Err(p) => Err(KernelProblem::internal(p.message())),
            Ok(handle) => if w.semantic_revision < 0 {
                Err(KernelProblem::internal("semantic_revision 溢出"))
            } else {
                Ok((handle, w.semantic_revision as u64))
            },
        },
    }
}

/// A client inside the process.
pub struct LegacyKernelClient {
    principal: Principal,
    client_id: ClientId,
    controller_epoch: u64,
}

/// A client inside the process, as a value.
pub ghost struct ClientView {
    pub principal: Seq<char>,
    pub client_id: Seq<char>,
    pub controller_epoch: u64,
}

impl View for LegacyKernelClient {
    type V = ClientView;

    closed spec fn view(&self) -> ClientView {
        ClientView {
            principal: self.principal@,
            client_id: self.client_id@,
            controller_epoch: self.controller_epoch,
        }
    }
}

impl ClientView {
    /// What the client asks of the kernel under an id.
    pub open spec fn asks(self, command_id: Seq<char>, command: KernelCommandView) -> RequestView {
        RequestView {
            command_id,
            client_id: self.client_id,
            principal: self.principal,
            controller_epoch: self.controller_epoch,
            command,
        }
    }

    /// Whether a request is what the client asks of the kernel, under an id of its own.
    pub open spec fn asked(self, request: RequestView, command: KernelCommandView) -> bool {
        &&& request == self.asks(request.command_id, command)
        &&& is_canonical_v7(request.command_id)
    }

    /// Whether an answer is the request for a command on a run, or the problem that stands
    /// in its way.
    pub open spec fn asked_for(
        self,
        r: Result<KernelCommandRequest, KernelProblem>,
        way: Result<RunCommandView, KernelProblemView>,
    ) -> bool {
        match (r, way) {
            (Ok(q), Ok(c)) => self.asked(q@, KernelCommandView::WorkflowRun(c)),
            (Err(p), Err(q)) => p@ == q,
            _ => false,
        }
    }
}

impl LegacyKernelClient {
    /// A client with the lease of an epoch.
    pub fn new(principal: Principal, client_id: ClientId, controller_epoch: u64) -> (r: Self)
        ensures
            r@ == (ClientView {
                principal: principal@,
                client_id: client_id@,
                controller_epoch,
            }),
    {
        LegacyKernelClient { principal, client_id, controller_epoch }
    }

    /// Takes the epoch of a new lease.
    pub fn set_controller_epoch(&mut self, epoch: u64)
        ensures
            final(self)@ == (ClientView { controller_epoch: epoch, ..old(self)@ }),
    {
        self.controller_epoch = epoch;
    }

    /// What the client asks of the kernel under an id.
    pub fn request(&self, command_id: CommandId, command: KernelCommand) -> (r:
        KernelCommandRequest)
        ensures
            r@ == self@.asks(command_id@, command@),
    {
        KernelCommandRequest::new(
            command_id,
            self.client_id.clone(),
            self.principal.clone(),
            self.controller_epoch,
            command,
        )
    }

    /// A new name for the workflow with a key, without the blanks around it.
    pub fn rename_workflow(
        &self,
        rows: &ProjectRows,
        project: &ProjectStoreHandle,
        workflow_key: &str,
        new_name: &str,
    ) -> (r: Result<KernelCommandRequest, KernelProblem>)
        ensures
            ({
                if is_blank(new_name@) {
                    r matches Err(p) && p@ == KernelProblemView::InvalidEnvelope(
                        "工作流名称不能为空"@,
                    )
                } else {
                    match (located(rows@, workflow_key@), r) {
                        (Err(q), Err(p)) => p@ == q,
                        (Ok((workflow, revision)), Ok(request)) => self@.asked(
                            request@,
                            KernelCommandView::WorkflowRename(
                                RenameView {
                                    project: project@,
                                    workflow,
                                    name: trim_text(new_name@),
                                    expected_presentation_revision: revision,
                                },
                            ),
                        ),
                        _ => false,
                    }
                }
            }),
    {
        if blank(new_name) {
            return Err(KernelProblem::invalid("工作流名称不能为空"));
        }
        let name: String = trim(new_name);
        match legacy_workflow_locator(rows, workflow_key) {
            Err(p) => Err(p),
            Ok((workflow, revision)) => Ok(
                self.request(
                    CommandId::new(),
                    KernelCommand::workflow_rename(
                        project.clone(),
                        workflow,
                        name.as_str(),
                        revision,
                    ),
                ),
            ),
        }
    }

    /// A command on a workflow.
    pub fn dispatch_project_workflow(&self, command: ProjectWorkflowCommand) -> (r:
        KernelCommandRequest)
        ensures
            self@.asked(r@, KernelCommandView::ProjectWorkflow(command@)),
    {
        self.request(CommandId::new(), KernelCommand::ProjectWorkflow(command))
    }

    fn ask(&self, command: WorkflowRunCommand) -> (r: KernelCommandRequest)
        ensures
            self@.asked(r@, KernelCommandView::WorkflowRun(command@)),
    {
        self.request(CommandId::new(), KernelCommand::WorkflowRun(command))
    }

    /// Starts a run of the workflow with a key, from the meaning that the workflow has now.
    pub fn start_workflow_run(
        &self,
        rows: &ProjectRows,
        project: &ProjectStoreHandle,
        workflow_key: &str,
        goal: &str,
    ) -> (r: Result<KernelCommandRequest, KernelProblem>)
        ensures
            self@.asked_for(
                r,
                match located_meaning(rows@, workflow_key@) {
                    Err(p) => Err(p),
                    Ok((workflow, revision)) => Ok(
                        RunCommandView::Start {
                            project: project@,
                            workflow,
                            goal: goal@,
                            expected_semantic_revision: revision,
                        },
                    ),
                },
            ),
    {
        match locate_meaning(rows, workflow_key) {
            Err(p) => Err(p),
            Ok((workflow, revision)) => Ok(
                self.ask(
                    WorkflowRunCommand::Start {
                        project: project.clone(),
                        workflow,
                        goal: goal.to_owned(),
                        expected_semantic_revision: revision,
                    },
                ),
            ),
        }
    }

    /// Cancels a run.
    pub fn cancel_workflow_run(
        &self,
        project: &ProjectStoreHandle,
        workflow_run: &WorkflowRunHandle,
        data: &WorkflowRunSnapshotData,
    ) -> (r: KernelCommandRequest)
        ensures
            self@.asked(
                r@,
                KernelCommandView::WorkflowRun(
                    RunCommandView::Cancel {
                        project: project@,
                        workflow_run: workflow_run@,
                        expected: cancel_expected(data@),
                    },
                ),
            ),
    {
        self.ask(
            WorkflowRunCommand::Cancel {
                project: project.clone(),
                workflow_run: workflow_run.clone(),
                expected: expect_for_cancel(data),
            },
        )
    }

    /// Cancels a run of a project that is being closed.
    pub fn cancel_workflow_run_for_close(
        &self,
        close: &ProjectCloseToken,
        workflow_run: &WorkflowRunHandle,
        data: &WorkflowRunSnapshotData,
    ) -> (r: KernelCommandRequest)
        ensures
            self@.asked(
                r@,
                KernelCommandView::WorkflowRun(
                    RunCommandView::Cancel {
                        project: close@.project,
                        workflow_run: workflow_run@,
                        expected: cancel_expected(data@),
                    },
                ),
            ),
    {
        self.cancel_workflow_run(close.project(), workflow_run, data)
    }

    /// Tries a step again.
    pub fn retry_workflow_step(
        &self,
        project: &ProjectStoreHandle,
        workflow_run: &WorkflowRunHandle,
        step: &StepHandle,
        mode: RetryMode,
        data: &WorkflowRunSnapshotData,
    ) -> (r: Result<KernelCommandRequest, KernelProblem>)
        ensures
            self@.asked_for(
                r,
                match retry_expected(data@, step@, mode) {
                    Err(p) => Err(p),
                    Ok(expected) => Ok(
                        RunCommandView::RetryStep {
                            project: project@,
                            workflow_run: workflow_run@,
                            step: step@,
                            mode,
                            expected,
                        },
                    ),
                },
            ),
    {
        match expect_for_retry(data, step, mode) {
            Err(p) => Err(p),
            Ok(expected) => Ok(
                self.ask(
                    WorkflowRunCommand::RetryStep {
                        project: project.clone(),
                        workflow_run: workflow_run.clone(),
                        step: step.clone(),
                        mode,
                        expected,
                    },
                ),
            ),
        }
    }

    /// Skips a step.
    pub fn skip_workflow_step(
        &self,
        project: &ProjectStoreHandle,
        workflow_run: &WorkflowRunHandle,
        step: &StepHandle,
        data: &WorkflowRunSnapshotData,
    ) -> (r: Result<KernelCommandRequest, KernelProblem>)
        ensures
            self@.asked_for(
                r,
                match step_expected(data@, step@) {
                    None => Err(KernelProblemView::ResourceNotFound),
                    Some(expected) => Ok(
                        RunCommandView::SkipStep {
                            project: project@,
                            workflow_run: workflow_run@,
                            step: step@,
                            expected,
                        },
                    ),
                },
            ),
    {
        match expect_for_step(data, step) {
            None => Err(KernelProblem::ResourceNotFound),
            Some(expected) => Ok(
                self.ask(
                    WorkflowRunCommand::SkipStep {
                        project: project.clone(),
                        workflow_run: workflow_run.clone(),
                        step: step.clone(),
                        expected,
                    },
                ),
            ),
        }
    }

    /// Answers the question of a step.
    pub fn respond_to_workflow_step(
        &self,
        project: &ProjectStoreHandle,
        workflow_run: &WorkflowRunHandle,
        step: &StepHandle,
        answer: &str,
        data: &WorkflowRunSnapshotData,
    ) -> (r: Result<KernelCommandRequest, KernelProblem>)
        ensures
            self@.asked_for(
                r,
                match answer_expected(data@, step@) {
                    Err(p) => Err(p),
                    Ok((question_id, expected)) => Ok(
                        RunCommandView::Respond {
                            project: project@,
                            workflow_run: workflow_run@,
                            step: step@,
                            question_id,
                            answer: answer@,
                            expected,
                        },
                    ),
                },
            ),
    {
        match expect_for_answer(data, step) {
            Err(p) => Err(p),
            Ok((question_id, expected)) => Ok(
                self.ask(
                    WorkflowRunCommand::Respond {
                        project: project.clone(),
                        workflow_run: workflow_run.clone(),
                        step: step.clone(),
                        question_id,
                        answer: answer.to_owned(),
                        expected,
                    },
                ),
            ),
        }
    }

    /// Ends an agent run.
    pub fn settle_agent_run(
        &self,
        project: &ProjectStoreHandle,
        workflow_run: &WorkflowRunHandle,
        agent_run: &AgentRunHandle,
        settlement: Settlement,
        data: &WorkflowRunSnapshotData,
    ) -> (r: Result<KernelCommandRequest, KernelProblem>)
        ensures
            self@.asked_for(
                r,
                match settle_expected(data@, agent_run@) {
                    Err(p) => Err(p),
                    Ok((step, expected)) => Ok(
                        RunCommandView::Settle {
                            project: project@,
                            workflow_run: workflow_run@,
                            step,
                            agent_run: agent_run@,
                            settlement: settlement@,
                            expected,
                        },
                    ),
                },
            ),
    {
        match expect_for_settling(data, agent_run) {
            Err(p) => Err(p),
            Ok((step, expected)) => Ok(
                self.ask(
                    WorkflowRunCommand::Settle {
                        project: project.clone(),
                        workflow_run: workflow_run.clone(),
                        step,
                        agent_run: agent_run.clone(),
                        settlement,
                        expected,
                    },
                ),
            ),
        }
    }
}

/// A cancellation relies on every active agent run, and on every session that one of them
/// is in.
pub proof fn law_a_cancellation_relies_on_every_active_run(data: RunShown, i: int, j: int)
    requires
        0 <= i < data.agent_runs.len(),
        run_active(data.agent_runs[i].status),
        0 <= j < data.agent_sessions.len(),
        data.agent_runs[i].agent_session == Some(data.agent_sessions[j].agent_session),
    ensures
        cancel_expected(data).agent_runs.contains(
            VersionView {
                handle: data.agent_runs[i].agent_run,
                revision: data.agent_runs[i].revision,
            },
        ),
        cancel_expected(data).agent_sessions.contains(session_version(data.agent_sessions[j])),
{
    let wanted = |r: AgentRunShown| wanted_run(r, None);
    let runs = active_runs(data.agent_runs, None);
    assert(wanted(data.agent_runs[i]));
    lemma_filter_keeps(data.agent_runs, wanted, i);
    let a = choose|a: int| 0 <= a < runs.len() && runs[a] == data.agent_runs[i];
    assert(run_versions(runs)[a] == (VersionView {
        handle: data.agent_runs[i].agent_run,
        revision: data.agent_runs[i].revision,
    }));
    assert(runs[a].agent_session == Some(data.agent_sessions[j].agent_session));
    assert(in_session(runs, data.agent_sessions[j].agent_session));
    let near = |s: SessionShown| in_session(runs, s.agent_session);
    assert(near(data.agent_sessions[j]));
    lemma_filter_keeps(data.agent_sessions, near, j);
    let kept = data.agent_sessions.filter(near);
    let b = choose|b: int| 0 <= b < kept.len() && kept[b] == data.agent_sessions[j];
    assert(sessions_to_list(data.agent_sessions, runs)[b] == session_version(data.agent_sessions[j]));
}

proof fn lemma_filter_keeps<T>(v: Seq<T>, p: spec_fn(T) -> bool, i: int)
    requires
        0 <= i < v.len(),
        p(v[i]),
    ensures
        v.filter(p).contains(v[i]),
    decreases v.len(),
{
    reveal(Seq::filter);
    let w = v.drop_last();
    if i < w.len() {
        assert(w[i] == v[i]);
        lemma_filter_keeps(w, p, i);
        let k = choose|k: int| 0 <= k < w.filter(p).len() && w.filter(p)[k] == v[i];
        assert(v.filter(p)[k] == v[i]);
    } else {
        assert(v.filter(p)[w.filter(p).len() as int] == v[i]);
    }
}

} // verus!
