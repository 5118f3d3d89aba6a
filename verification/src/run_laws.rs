//! What holds of every command on a run: which change it comes to, what stands against it,
//! and what clients are told of it.

use crate::command::ProblemView;
use crate::dispatch::ProjectionChange;
use crate::handles::{AggregateKind, AggregateView, ExpectedView};
use crate::json::{distinct_names, field_of, signed_view, JsonView};
use crate::project_rows::{
    agent_run_by_handle, session_by_handle, step_by_handle, task_by_handle, AgentRunView,
    AgentSessionView, QuestionView, RowsView, RunStepView, TaskView,
};
use crate::publication::lemma_field_at;
use crate::run_command::{RunCommandView, VersionView};
use crate::run_effects::{
    axis_of, control_output, lifecycle_output, open_questions, outcomes, question_step, replacement,
    respond_mutation, run_mutation, run_snapshot, ControlView, DurableStop, MutationReportView,
    MutationView, PreparationView,
};
use crate::run_scope::{
    agent_run_in, handles_of, open_steps, run_scope, runs_of_step, runs_of_task, step_in,
};
use vstd::prelude::*;
use vstd::string::*;

verus! {

proof fn lemma_step(v: Seq<RunStepView>, handle: Seq<char>, from: int)
    requires
        0 <= from,
    ensures
        match step_by_handle(v, handle, from) {
            Some(row) => row.public_handle == handle && v.contains(row),
            None => forall|i: int| from <= i < v.len() ==> (#[trigger] v[i]).public_handle != handle,
        },
    decreases v.len() - from,
{
    if from < v.len() && v[from].public_handle != handle {
        lemma_step(v, handle, from + 1);
    }
}

proof fn lemma_task(v: Seq<TaskView>, handle: Seq<char>, from: int)
    requires
        0 <= from,
    ensures
        match task_by_handle(v, handle, from) {
            Some(row) => row.public_handle == handle && v.contains(row),
            None => forall|i: int| from <= i < v.len() ==> (#[trigger] v[i]).public_handle != handle,
        },
    decreases v.len() - from,
{
    if from < v.len() && v[from].public_handle != handle {
        lemma_task(v, handle, from + 1);
    }
}

proof fn lemma_agent_run(v: Seq<AgentRunView>, handle: Seq<char>, from: int)
    requires
        0 <= from,
    ensures
        match agent_run_by_handle(v, handle, from) {
            Some(row) => row.public_handle == handle && v.contains(row),
            None => forall|i: int| from <= i < v.len() ==> (#[trigger] v[i]).public_handle != handle,
        },
    decreases v.len() - from,
{
    if from < v.len() && v[from].public_handle != handle {
        lemma_agent_run(v, handle, from + 1);
    }
}

proof fn lemma_session(v: Seq<AgentSessionView>, handle: Seq<char>, from: int)
    requires
        0 <= from,
    ensures
        match session_by_handle(v, handle, from) {
            Some(row) => row.public_handle == handle && v.contains(row),
            None => forall|i: int| from <= i < v.len() ==> (#[trigger] v[i]).public_handle != handle,
        },
    decreases v.len() - from,
{
    if from < v.len() && v[from].public_handle != handle {
        lemma_session(v, handle, from + 1);
    }
}

proof fn lemma_step_in(v: Seq<RunStepView>, handle: Seq<char>, task_id: i64, from: int)
    requires
        0 <= from,
    ensures
        match step_in(v, handle, task_id, from) {
            Some(row) => row.public_handle == handle && row.task_id == task_id && v.contains(row),
            None => forall|i: int|
                from <= i < v.len() ==> (#[trigger] v[i]).public_handle != handle || v[i].task_id
                    != task_id,
        },
    decreases v.len() - from,
{
    if from < v.len() && !(v[from].public_handle == handle && v[from].task_id == task_id) {
        lemma_step_in(v, handle, task_id, from + 1);
    }
}

proof fn lemma_agent_run_in(v: Seq<AgentRunView>, handle: Seq<char>, task_id: i64, from: int)
    requires
        0 <= from,
    ensures
        match agent_run_in(v, handle, task_id, from) {
            Some(row) => row.public_handle == handle && row.task_id == task_id && v.contains(row),
            None => forall|i: int|
                from <= i < v.len() ==> (#[trigger] v[i]).public_handle != handle || v[i].task_id
                    != task_id,
        },
    decreases v.len() - from,
{
    if from < v.len() && !(v[from].public_handle == handle && v[from].task_id == task_id) {
        lemma_agent_run_in(v, handle, task_id, from + 1);
    }
}

proof fn lemma_question(v: Seq<QuestionView>, id: i64, from: int)
    requires
        0 <= from,
    ensures
        match question_step(v, id, from) {
            Some(step_id) => exists|q: int|
                from <= q < v.len() && (#[trigger] v[q]).id == id && v[q].status == "open"@
                    && v[q].step_id == step_id,
            None => forall|q: int|
                from <= q < v.len() ==> (#[trigger] v[q]).id != id || v[q].status != "open"@,
        },
    decreases v.len() - from,
{
    if from < v.len() && !(v[from].id == id && v[from].status == "open"@) {
        lemma_question(v, id, from + 1);
    }
}

/// Whether a question is open and one of a step.
pub open spec fn open_at(q: QuestionView, step_id: i64) -> bool {
    q.step_id == step_id && q.status == "open"@
}

proof fn lemma_open_questions(rows: RowsView, step_id: i64, n: nat)
    requires
        n <= rows.questions.len(),
    ensures
        ({
            let open = open_questions(rows, step_id, n);
            &&& open.len() == 0 ==> forall|q: int|
                0 <= q < n ==> !open_at(#[trigger] rows.questions[q], step_id)
            &&& open.len() == 1 ==> exists|q: int|
                0 <= q < n && open_at(#[trigger] rows.questions[q], step_id) && rows.questions[q].id
                    == open[0] && forall|o: int|
                    0 <= o < n && o != q ==> !open_at(#[trigger] rows.questions[o], step_id)
            &&& open.len() > 1 ==> exists|q: int, o: int|
                0 <= q < o < n && open_at(#[trigger] rows.questions[q], step_id) && open_at(
                    #[trigger] rows.questions[o],
                    step_id,
                )
        }),
    decreases n,
{
    if n > 0 {
        lemma_open_questions(rows, step_id, (n - 1) as nat);
        let rest = open_questions(rows, step_id, (n - 1) as nat);
        let open = open_questions(rows, step_id, n);
        let last = rows.questions[n - 1];
        if open_at(last, step_id) {
            if rest.len() == 0 {
                assert(open_at(rows.questions[n - 1], step_id) && rows.questions[n - 1].id
                    == open[0]);
            } else if rest.len() == 1 {
                let q = choose|q: int|
                    0 <= q < n - 1 && open_at(#[trigger] rows.questions[q], step_id);
                assert(open_at(rows.questions[q], step_id) && open_at(
                    rows.questions[n - 1],
                    step_id,
                ));
            }
        } else if rest.len() == 1 {
            let q = choose|q: int|
                0 <= q < n - 1 && open_at(#[trigger] rows.questions[q], step_id)
                    && rows.questions[q].id == rest[0] && forall|o: int|
                    0 <= o < n - 1 && o != q ==> !open_at(#[trigger] rows.questions[o], step_id);
            assert(open_at(rows.questions[q], step_id) && rows.questions[q].id == open[0]);
        }
    }
}

/// An answer that leads to a change is the one that was sent, word for word, to a question
/// that is open and belongs to the step of the command: the one that was named, or else the
/// only one.
pub proof fn law_an_answer_reaches_the_open_question_of_its_step(
    rows: RowsView,
    c: RunCommandView,
    preparation: PreparationView,
    durable: Seq<DurableStop>,
)
    requires
        c is Respond,
        run_mutation(rows, c, preparation, durable) is Ok,
    ensures
        run_mutation(rows, c, preparation, durable)->Ok_0 is Respond,
        ({
            let m = run_mutation(rows, c, preparation, durable)->Ok_0;
            &&& m->answer == c->answer
            &&& c->Respond_question_id > 0 ==> m->Respond_question_id == c->Respond_question_id
            &&& exists|s: RunStepView, q: int|
                {
                    &&& #[trigger] rows.steps.contains(s)
                    &&& s.public_handle == c->Respond_step
                    &&& 0 <= q < rows.questions.len()
                    &&& (#[trigger] rows.questions[q]).id == m->Respond_question_id
                    &&& rows.questions[q].status == "open"@
                    &&& rows.questions[q].step_id == s.id
                    &&& c->Respond_question_id <= 0 ==> exists|only: int|
                        0 <= only < rows.questions.len() && (#[trigger] rows.questions[only]).id
                            == m->Respond_question_id && forall|o: int|
                            0 <= o < rows.questions.len() && o != only ==> !open_at(
                                #[trigger] rows.questions[o],
                                s.id,
                            )
                }
        }),
{
    lemma_step(rows.steps, c->Respond_step, 0);
    let s = step_by_handle(rows.steps, c->Respond_step, 0)->0;
    lemma_open_questions(rows, s.id, rows.questions.len());
    let id = run_mutation(rows, c, preparation, durable)->Ok_0->Respond_question_id;
    lemma_question(rows.questions, id, 0);
    let q = choose|q: int|
        0 <= q < rows.questions.len() && (#[trigger] rows.questions[q]).id == id
            && rows.questions[q].status == "open"@ && rows.questions[q].step_id == s.id;
    assert(rows.steps.contains(s));
    assert(rows.questions[q].id == id);
}

/// An open question can be answered: by its name, or without one where its step has no
/// other.
pub proof fn law_an_open_question_can_be_answered(
    rows: RowsView,
    s: int,
    q: int,
    question_id: i64,
    answer: Seq<char>,
)
    requires
        0 <= s < rows.steps.len(),
        forall|i: int|
            0 <= i < rows.steps.len() && i != s ==> (#[trigger] rows.steps[i]).public_handle
                != rows.steps[s].public_handle,
        0 <= q < rows.questions.len(),
        open_at(rows.questions[q], rows.steps[s].id),
        forall|i: int|
            0 <= i < rows.questions.len() && i != q ==> (#[trigger] rows.questions[i]).id
                != rows.questions[q].id,
        (question_id > 0 && question_id == rows.questions[q].id) || (question_id <= 0 && forall|
            o: int,
        |
            0 <= o < rows.questions.len() && o != q ==> !open_at(
                #[trigger] rows.questions[o],
                rows.steps[s].id,
            )),
    ensures
        respond_mutation(
            rows,
            rows.steps[s].public_handle,
            question_id,
            answer,
            PreparationView::Ready,
        ) == Ok::<MutationView, ProblemView>(
            MutationView::Respond { question_id: rows.questions[q].id, answer },
        ),
{
    let step = rows.steps[s];
    lemma_step(rows.steps, step.public_handle, 0);
    let row = step_by_handle(rows.steps, step.public_handle, 0)->0;
    assert(row == step) by {
        let i = choose|i: int| 0 <= i < rows.steps.len() && rows.steps[i] == row;
        assert(rows.steps[i].public_handle == step.public_handle);
    }
    lemma_open_questions(rows, step.id, rows.questions.len());
    lemma_question(rows.questions, rows.questions[q].id, 0);
}

/// A step is tried again, left out or settled under the ids that its handles stand for, in
/// the way that was sent; a session is gone on with only where it was found alive and the
/// command relied on it.
pub proof fn law_a_step_is_handled_as_it_was_sent(
    rows: RowsView,
    c: RunCommandView,
    preparation: PreparationView,
    durable: Seq<DurableStop>,
)
    requires
        run_mutation(rows, c, preparation, durable) is Ok,
    ensures
        ({
            let m = run_mutation(rows, c, preparation, durable)->Ok_0;
            &&& c is RetryStep ==> {
                &&& m is Retry
                &&& m->mode == c->mode
                &&& exists|s: RunStepView|
                    #[trigger] rows.steps.contains(s) && s.public_handle == c->RetryStep_step && s.id
                        == m->Retry_step_id
                &&& c->mode is FreshSession ==> m->continue_session_id is None
                &&& c->mode is ContinueSession ==> exists|a: AgentSessionView, v: int|
                    {
                        &&& #[trigger] rows.sessions.contains(a)
                        &&& m->continue_session_id == Some(a.id)
                        &&& preparation == (PreparationView::ContinueSessionAlive {
                            session: a.public_handle,
                        })
                        &&& 0 <= v < c->RetryStep_expected.agent_sessions.len()
                        &&& (#[trigger] c->RetryStep_expected.agent_sessions[v]).handle
                            == a.public_handle
                    }
            }
            &&& c is SkipStep ==> {
                &&& m is Skip
                &&& exists|s: RunStepView|
                    #[trigger] rows.steps.contains(s) && s.public_handle == c->SkipStep_step && s.id
                        == m->Skip_step_id
            }
            &&& c is Settle ==> {
                &&& m is Settle
                &&& m->settlement == c->settlement
                &&& exists|a: AgentRunView|
                    #[trigger] rows.agent_runs.contains(a) && a.public_handle == c->agent_run
                        && a.id == m->Settle_run_id
            }
            &&& c is Cancel ==> {
                &&& m is Cancel
                &&& m->run_stops == durable
                &&& exists|t: TaskView|
                    #[trigger] rows.tasks.contains(t) && t.public_handle == c->Cancel_workflow_run
                        && t.id == m->Cancel_task_id
            }
            &&& !(c is Start)
        }),
{
    match c {
        RunCommandView::RetryStep { step, expected, .. } => {
            lemma_step(rows.steps, step, 0);
            if let PreparationView::ContinueSessionAlive { session } = preparation {
                lemma_session(rows.sessions, session, 0);
                if c->mode is ContinueSession {
                    let wanted = handles_of(expected.agent_sessions);
                    let v = choose|v: int| 0 <= v < wanted.len() && wanted[v] == session;
                    assert(expected.agent_sessions[v].handle == session);
                    assert(rows.sessions.contains(session_by_handle(rows.sessions, session, 0)->0));
                }
            }
        },
        RunCommandView::SkipStep { step, .. } => {
            lemma_step(rows.steps, step, 0);
        },
        RunCommandView::Settle { agent_run, .. } => {
            lemma_agent_run(rows.agent_runs, agent_run, 0);
        },
        RunCommandView::Cancel { workflow_run, .. } => {
            lemma_task(rows.tasks, workflow_run, 0);
        },
        _ => {},
    }
}

/// What an agent says of its run is kept as it said it, under the run that says it or the
/// task that it belongs to.
pub proof fn law_what_an_agent_says_is_kept_as_it_is(c: ControlView, run_id: i64, task_id: i64)
    ensures
        match (c, c.mutation(run_id, task_id)) {
            (
                ControlView::Settle(said),
                MutationView::Settle { run_id: id, settlement },
            ) => id == run_id && settlement == said,
            (
                ControlView::ReportState(said),
                MutationView::ReportState { run_id: id, state },
            ) => id == run_id && state == said,
            (
                ControlView::ProposePipeline(said),
                MutationView::ProposePipeline { task_id: id, draft },
            ) => id == task_id && draft == said,
            _ => false,
        },
{
}

/// Whether a list of expectations names something.
pub open spec fn names(v: Seq<VersionView>, handle: Seq<char>) -> bool {
    exists|i: int| 0 <= i < v.len() && (#[trigger] v[i]).handle == handle
}

proof fn lemma_names(v: Seq<VersionView>, handle: Seq<char>)
    ensures
        handles_of(v).to_set().contains(handle) == names(v, handle),
{
    let all = handles_of(v);
    if all.contains(handle) {
        let i = choose|i: int| 0 <= i < all.len() && all[i] == handle;
        assert(v[i].handle == handle);
    }
    if names(v, handle) {
        let i = choose|i: int| 0 <= i < v.len() && (#[trigger] v[i]).handle == handle;
        assert(all[i] == handle);
    }
}

/// Whether an agent run is one of a step and goes on.
pub open spec fn works_at(a: AgentRunView, step_id: i64) -> bool {
    a.step_id == step_id && (a.status == "running"@ || a.status == "awaiting-outcome"@)
}

proof fn lemma_runs_of_step(v: Seq<AgentRunView>, step_id: i64, n: nat, handle: Seq<char>)
    requires
        n <= v.len(),
    ensures
        runs_of_step(v, step_id, n).contains(handle) <==> exists|i: int|
            0 <= i < n && works_at(#[trigger] v[i], step_id) && v[i].public_handle == handle,
    decreases n,
{
    let all = runs_of_step(v, step_id, n);
    if n > 0 {
        lemma_runs_of_step(v, step_id, (n - 1) as nat, handle);
        let rest = runs_of_step(v, step_id, (n - 1) as nat);
        if works_at(v[n - 1], step_id) {
            assert(all.last() == v[n - 1].public_handle);
            assert(all.drop_last() =~= rest);
            if all.contains(handle) && all.last() != handle {
                let k = choose|k: int| 0 <= k < all.len() && all[k] == handle;
                assert(rest[k] == handle);
            }
            if rest.contains(handle) {
                let k = choose|k: int| 0 <= k < rest.len() && rest[k] == handle;
                assert(all[k] == handle);
            }
            if v[n - 1].public_handle == handle {
                assert(all[all.len() - 1] == handle);
            }
        } else {
            assert(all == rest);
        }
        if exists|i: int|
            0 <= i < n && works_at(#[trigger] v[i], step_id) && v[i].public_handle == handle {
            let i = choose|i: int|
                0 <= i < n && works_at(#[trigger] v[i], step_id) && v[i].public_handle == handle;
            if i < n - 1 {
                assert(works_at(v[i], step_id));
            }
        }
    }
}

/// A command on a step is let through only in its run: the run is there, the step is one of
/// it, and the command relies on that step and on no other.
pub proof fn law_a_command_stays_in_its_run(rows: RowsView, c: RunCommandView)
    requires
        run_scope(rows, c) is Ok,
        c.step() is Some,
    ensures
        exists|t: TaskView, s: RunStepView|
            {
                &&& #[trigger] rows.tasks.contains(t)
                &&& #[trigger] rows.steps.contains(s)
                &&& t.public_handle == (c.run()->0).0
                &&& s.public_handle == c.step()->0
                &&& s.task_id == t.id
                &&& c is SkipStep ==> s.status == "failed"@ || s.status == "blocked"@
                &&& c is Respond ==> s.status == "needs-input"@
                &&& c is Settle ==> t.active_revision == Some(s.revision_id)
            },
        forall|h: Seq<char>|
            #[trigger] names((c.run()->0).1.steps, h) <==> h == c.step()->0,
{
    let (run, expected) = c.run()->0;
    lemma_task(rows.tasks, run, 0);
    let t = task_by_handle(rows.tasks, run, 0)->0;
    let handle = c.step()->0;
    lemma_step_in(rows.steps, handle, t.id, 0);
    let s = step_in(rows.steps, handle, t.id, 0)->0;
    assert(rows.tasks.contains(t) && rows.steps.contains(s));
    assert forall|h: Seq<char>| #[trigger] names(expected.steps, h) <==> h == handle by {
        lemma_names(expected.steps, h);
        let one = seq![handle];
        assert(one.to_set() == handles_of(expected.steps).to_set());
        assert(one[0] == handle);
        assert(one.contains(h) <==> h == handle);
    }
}

/// A step is tried again or left out only where the command relies on every agent run that
/// goes on at it, and on no other.
pub proof fn law_every_run_at_a_step_is_relied_on(rows: RowsView, c: RunCommandView)
    requires
        run_scope(rows, c) is Ok,
        c is RetryStep || c is SkipStep,
    ensures
        exists|s: RunStepView|
            {
                &&& #[trigger] rows.steps.contains(s)
                &&& s.public_handle == c.step()->0
                &&& forall|h: Seq<char>| #[trigger]
                    names((c.run()->0).1.agent_runs, h) <==> exists|i: int|
                        0 <= i < rows.agent_runs.len() && works_at(
                            #[trigger] rows.agent_runs[i],
                            s.id,
                        ) && rows.agent_runs[i].public_handle == h
            },
{
    let (run, expected) = c.run()->0;
    let t = task_by_handle(rows.tasks, run, 0)->0;
    let handle = c.step()->0;
    lemma_step_in(rows.steps, handle, t.id, 0);
    let s = step_in(rows.steps, handle, t.id, 0)->0;
    assert(rows.steps.contains(s));
    let runs = runs_of_step(rows.agent_runs, s.id, rows.agent_runs.len());
    assert(runs.to_set() == handles_of(expected.agent_runs).to_set());
    assert forall|h: Seq<char>| #[trigger] names(expected.agent_runs, h) <==> exists|i: int|
        0 <= i < rows.agent_runs.len() && works_at(#[trigger] rows.agent_runs[i], s.id)
            && rows.agent_runs[i].public_handle == h by {
        lemma_names(expected.agent_runs, h);
        lemma_runs_of_step(rows.agent_runs, s.id, rows.agent_runs.len(), h);
        assert(runs.to_set().contains(h) <==> runs.contains(h));
    }
}

/// Whether a step is one of the plan that is followed and has not come to an end.
pub open spec fn still_open(s: RunStepView, plan: Option<i64>) -> bool {
    plan == Some(s.revision_id) && s.status != "succeeded"@ && s.status != "failed"@ && s.status
        != "skipped"@ && s.status != "cancelled"@
}

proof fn lemma_open_steps(v: Seq<RunStepView>, plan: Option<i64>, n: nat, handle: Seq<char>)
    requires
        n <= v.len(),
    ensures
        open_steps(v, plan, n).contains(handle) <==> exists|i: int|
            0 <= i < n && still_open(#[trigger] v[i], plan) && v[i].public_handle == handle,
    decreases n,
{
    let all = open_steps(v, plan, n);
    if n > 0 {
        lemma_open_steps(v, plan, (n - 1) as nat, handle);
        let rest = open_steps(v, plan, (n - 1) as nat);
        if still_open(v[n - 1], plan) {
            assert(all.last() == v[n - 1].public_handle);
            assert(all.drop_last() =~= rest);
            if all.contains(handle) && all.last() != handle {
                let k = choose|k: int| 0 <= k < all.len() && all[k] == handle;
                assert(rest[k] == handle);
            }
            if rest.contains(handle) {
                let k = choose|k: int| 0 <= k < rest.len() && rest[k] == handle;
                assert(all[k] == handle);
            }
            if v[n - 1].public_handle == handle {
                assert(all[all.len() - 1] == handle);
            }
        } else {
            assert(all == rest);
        }
        if exists|i: int|
            0 <= i < n && still_open(#[trigger] v[i], plan) && v[i].public_handle == handle {
            let i = choose|i: int|
                0 <= i < n && still_open(#[trigger] v[i], plan) && v[i].public_handle == handle;
            if i < n - 1 {
                assert(still_open(v[i], plan));
            }
        }
    }
}

/// Whether an agent run is one of a task and goes on.
pub open spec fn works_for(a: AgentRunView, task_id: i64) -> bool {
    a.task_id == task_id && (a.status == "running"@ || a.status == "awaiting-outcome"@)
}

proof fn lemma_runs_of_task(v: Seq<AgentRunView>, task_id: i64, n: nat, handle: Seq<char>)
    requires
        n <= v.len(),
    ensures
        runs_of_task(v, task_id, n).contains(handle) <==> exists|i: int|
            0 <= i < n && works_for(#[trigger] v[i], task_id) && v[i].public_handle == handle,
    decreases n,
{
    let all = runs_of_task(v, task_id, n);
    if n > 0 {
        lemma_runs_of_task(v, task_id, (n - 1) as nat, handle);
        let rest = runs_of_task(v, task_id, (n - 1) as nat);
        if works_for(v[n - 1], task_id) {
            assert(all.last() == v[n - 1].public_handle);
            assert(all.drop_last() =~= rest);
            if all.contains(handle) && all.last() != handle {
                let k = choose|k: int| 0 <= k < all.len() && all[k] == handle;
                assert(rest[k] == handle);
            }
            if rest.contains(handle) {
                let k = choose|k: int| 0 <= k < rest.len() && rest[k] == handle;
                assert(all[k] == handle);
            }
            if v[n - 1].public_handle == handle {
                assert(all[all.len() - 1] == handle);
            }
        } else {
            assert(all == rest);
        }
        if exists|i: int|
            0 <= i < n && works_for(#[trigger] v[i], task_id) && v[i].public_handle == handle {
            let i = choose|i: int|
                0 <= i < n && works_for(#[trigger] v[i], task_id) && v[i].public_handle == handle;
            if i < n - 1 {
                assert(works_for(v[i], task_id));
            }
        }
    }
}

/// A run is cancelled only where the command relies on exactly the steps that have not come
/// to an end and on exactly the agent runs that go on.
pub proof fn law_a_cancellation_relies_on_all_that_goes_on(rows: RowsView, c: RunCommandView)
    requires
        run_scope(rows, c) is Ok,
        c is Cancel,
    ensures
        exists|t: TaskView|
            {
                &&& #[trigger] rows.tasks.contains(t)
                &&& t.public_handle == c->Cancel_workflow_run
                &&& forall|h: Seq<char>| #[trigger]
                    names(c->Cancel_expected.steps, h) <==> exists|i: int|
                        0 <= i < rows.steps.len() && still_open(
                            #[trigger] rows.steps[i],
                            t.active_revision,
                        ) && rows.steps[i].public_handle == h
                &&& forall|h: Seq<char>| #[trigger]
                    names(c->Cancel_expected.agent_runs, h) <==> exists|i: int|
                        0 <= i < rows.agent_runs.len() && works_for(
                            #[trigger] rows.agent_runs[i],
                            t.id,
                        ) && rows.agent_runs[i].public_handle == h
            },
{
    let expected = c->Cancel_expected;
    lemma_task(rows.tasks, c->Cancel_workflow_run, 0);
    let t = task_by_handle(rows.tasks, c->Cancel_workflow_run, 0)->0;
    assert(rows.tasks.contains(t));
    let steps = open_steps(rows.steps, t.active_revision, rows.steps.len());
    let runs = runs_of_task(rows.agent_runs, t.id, rows.agent_runs.len());
    assert(steps.to_set() == handles_of(expected.steps).to_set());
    assert(runs.to_set() == handles_of(expected.agent_runs).to_set());
    assert forall|h: Seq<char>| #[trigger] names(expected.steps, h) <==> exists|i: int|
        0 <= i < rows.steps.len() && still_open(#[trigger] rows.steps[i], t.active_revision)
            && rows.steps[i].public_handle == h by {
        lemma_names(expected.steps, h);
        lemma_open_steps(rows.steps, t.active_revision, rows.steps.len(), h);
        assert(steps.to_set().contains(h) <==> steps.contains(h));
    }
    assert forall|h: Seq<char>| #[trigger] names(expected.agent_runs, h) <==> exists|i: int|
        0 <= i < rows.agent_runs.len() && works_for(#[trigger] rows.agent_runs[i], t.id)
            && rows.agent_runs[i].public_handle == h by {
        lemma_names(expected.agent_runs, h);
        lemma_runs_of_task(rows.agent_runs, t.id, rows.agent_runs.len(), h);
        assert(runs.to_set().contains(h) <==> runs.contains(h));
    }
}

/// Whether a stored change says that an aggregate went from one revision to another, and
/// what takes its place.
pub open spec fn says_replacement(payload: JsonView, base: nat, revision: u64, data: JsonView) -> bool {
    &&& field_of(payload, "base_revision"@) matches Some(v) && field_of(v, "revision"@) == Some(
        JsonView::Unsigned(base),
    )
    &&& field_of(payload, "aggregate_revision"@) matches Some(v) && field_of(v, "revision"@)
        == Some(JsonView::Unsigned(revision as nat))
    &&& field_of(payload, "delta"@) matches Some(d) && field_of(d, "mode"@) == Some(
        JsonView::Text("replace"@),
    ) && field_of(d, "data"@) == Some(data)
}

proof fn lemma_replacement(base: nat, revision: u64, data: JsonView)
    ensures
        says_replacement(replacement(base, revision, data), base, revision, data),
{
    let f = replacement(base, revision, data)->Object_0;
    reveal_strlit("base_revision");
    reveal_strlit("aggregate_revision");
    reveal_strlit("delta");
    reveal_strlit("mode");
    reveal_strlit("data");
    assert("base_revision"@.len() == 13 && "aggregate_revision"@.len() == 18 && "delta"@.len()
        == 5 && "mode"@.len() == 4 && "data"@.len() == 4);
    assert("mode"@[0] != "data"@[0]);
    assert(distinct_names(f));
    lemma_field_at(f, 0);
    lemma_field_at(f, 1);
    lemma_field_at(f, 2);
    let b = f[0].1->Object_0;
    let a = f[1].1->Object_0;
    let d = f[2].1->Object_0;
    assert(distinct_names(b) && distinct_names(a) && distinct_names(d));
    lemma_field_at(b, 0);
    lemma_field_at(a, 0);
    lemma_field_at(d, 0);
    lemma_field_at(d, 1);
}

proof fn lemma_axis(v: Seq<(Seq<char>, nat)>, axis: Seq<char>, from: int)
    requires
        0 <= from,
    ensures
        match axis_of(v, axis, from) {
            Some(n) => exists|i: int| from <= i < v.len() && #[trigger] v[i] == (axis, n),
            None => forall|i: int| from <= i < v.len() ==> (#[trigger] v[i]).0 != axis,
        },
    decreases v.len() - from,
{
    if from < v.len() {
        if v[from].0 != axis {
            lemma_axis(v, axis, from + 1);
        } else {
            assert(v[from] == (axis, v[from].1));
        }
    }
}

/// Whether a change tells of an aggregate that a command relied on: from the revision that
/// was relied on to another one, the one that the store has now.
pub open spec fn tells_of(
    change: ProjectionChange,
    rows: RowsView,
    e: ExpectedView,
    event_type: Seq<char>,
) -> bool {
    &&& change.aggregate == Some(e.aggregate)
    &&& change.event_type == Some(event_type)
    &&& change.projection_critical
    &&& run_snapshot(rows, e.aggregate) matches Ok((revision, data)) && exists|base: nat|
        revision != base && e.revisions.contains(("revision"@, base)) && #[trigger] says_replacement(
            change.payload,
            base,
            revision,
            data,
        )
}

/// What clients are told of a command on a run is what moved: each change tells of one of the
/// aggregates that the command relied on, in their order.
pub proof fn law_a_change_tells_of_what_was_relied_on(
    rows: RowsView,
    expected: Seq<ExpectedView>,
    target: AggregateView,
    event_type: Seq<char>,
    n: nat,
    k: int,
)
    requires
        n <= expected.len(),
        outcomes(rows, expected, target, event_type, n) is Ok,
        0 <= k < outcomes(rows, expected, target, event_type, n)->Ok_0.changes.len(),
    ensures
        exists|i: int|
            k <= i < n && tells_of(
                outcomes(rows, expected, target, event_type, n)->Ok_0.changes[k],
                rows,
                #[trigger] expected[i],
                event_type,
            ),
    decreases n,
{
    let before = outcomes(rows, expected, target, event_type, (n - 1) as nat)->Ok_0;
    let all = outcomes(rows, expected, target, event_type, n)->Ok_0;
    if k < before.changes.len() {
        law_a_change_tells_of_what_was_relied_on(
            rows,
            expected,
            target,
            event_type,
            (n - 1) as nat,
            k,
        );
        assert(all.changes[k] == before.changes[k]);
        let i = choose|i: int|
            k <= i < n - 1 && tells_of(before.changes[k], rows, #[trigger] expected[i], event_type);
        assert(tells_of(all.changes[k], rows, expected[i], event_type));
    } else {
        let e = expected[n - 1];
        let base = axis_of(e.revisions, "revision"@, 0)->0;
        let (revision, data) = run_snapshot(rows, e.aggregate)->Ok_0;
        lemma_axis(e.revisions, "revision"@, 0);
        lemma_replacement(base, revision, data);
        assert(e.revisions.contains(("revision"@, base)));
        assert(tells_of(all.changes[k], rows, expected[n - 1], event_type));
        lemma_no_more_than(rows, expected, target, event_type, (n - 1) as nat);
    }
}

proof fn lemma_no_more_than(
    rows: RowsView,
    expected: Seq<ExpectedView>,
    target: AggregateView,
    event_type: Seq<char>,
    n: nat,
)
    requires
        outcomes(rows, expected, target, event_type, n) is Ok,
    ensures
        outcomes(rows, expected, target, event_type, n)->Ok_0.changes.len() <= n,
    decreases n,
{
    if n > 0 {
        lemma_no_more_than(rows, expected, target, event_type, (n - 1) as nat);
    }
}

/// Whatever moved is told: of each aggregate that the command relied on by one revision,
/// there is a change, or the store has that very revision still.
pub proof fn law_whatever_moved_is_told(
    rows: RowsView,
    expected: Seq<ExpectedView>,
    target: AggregateView,
    event_type: Seq<char>,
    n: nat,
    i: int,
    base: nat,
)
    requires
        n <= expected.len(),
        outcomes(rows, expected, target, event_type, n) is Ok,
        0 <= i < n,
        expected[i].revisions == seq![("revision"@, base)],
    ensures
        run_snapshot(rows, expected[i].aggregate) is Ok,
        run_snapshot(rows, expected[i].aggregate)->Ok_0.0 != base ==> exists|k: int|
            0 <= k < outcomes(rows, expected, target, event_type, n)->Ok_0.changes.len()
                && tells_of(
                #[trigger] outcomes(rows, expected, target, event_type, n)->Ok_0.changes[k],
                rows,
                expected[i],
                event_type,
            ),
    decreases n,
{
    let before = outcomes(rows, expected, target, event_type, (n - 1) as nat)->Ok_0;
    let all = outcomes(rows, expected, target, event_type, n)->Ok_0;
    if i < n - 1 {
        law_whatever_moved_is_told(rows, expected, target, event_type, (n - 1) as nat, i, base);
        if run_snapshot(rows, expected[i].aggregate)->Ok_0.0 != base {
            let k = choose|k: int|
                0 <= k < before.changes.len() && tells_of(
                    #[trigger] before.changes[k],
                    rows,
                    expected[i],
                    event_type,
                );
            assert(all.changes[k] == before.changes[k]);
        }
    } else {
        let e = expected[i];
        assert(e.revisions[0] == ("revision"@, base));
        assert(axis_of(e.revisions, "revision"@, 0) == Some(base));
        let (revision, data) = run_snapshot(rows, e.aggregate)->Ok_0;
        lemma_replacement(base, revision, data);
        if revision != base {
            assert(e.revisions.contains(("revision"@, base)));
            assert(tells_of(all.changes[before.changes.len() as int], rows, e, event_type));
        }
    }
}

proof fn lemma_target(
    rows: RowsView,
    expected: Seq<ExpectedView>,
    target: AggregateView,
    event_type: Seq<char>,
    n: nat,
)
    requires
        n <= expected.len(),
        outcomes(rows, expected, target, event_type, n) is Ok,
    ensures
        outcomes(rows, expected, target, event_type, n)->Ok_0.target_revision matches Some(r)
            ==> run_snapshot(rows, target) matches Ok((now, _)) && now == r,
    decreases n,
{
    if n > 0 {
        lemma_target(rows, expected, target, event_type, (n - 1) as nat);
    }
}

/// A command on a run is answered with the revision that its target has now; what is still
/// to be done goes out with the first change and with no other, and with none where the end
/// was there before.
pub proof fn law_a_run_is_answered_with_where_it_is(
    after: RowsView,
    c: RunCommandView,
    report: MutationReportView,
)
    requires
        lifecycle_output(after, c, report) is Ok,
    ensures
        ({
            let out = lifecycle_output(after, c, report)->Ok_0;
            &&& run_snapshot(after, c.target()) matches Ok((now, _)) && field_of(
                out.result_revisions,
                "revision"@,
            ) == Some(JsonView::Unsigned(now as nat))
            &&& report.actions.len() > 0 && !(c is Settle && report.already_settled)
                ==> out.projections.len() > 0 && out.projections[0].run_actions == report.actions
            &&& forall|k: int|
                0 < k < out.projections.len() ==> (#[trigger] out.projections[k]).run_actions.len()
                    == 0
        }),
{
    let expected = c.expected()->Ok_0;
    let name = c.command_type().name();
    lemma_target(after, expected, c.target(), name, expected.len());
    lemma_actions_once(after, expected, c.target(), name, expected.len());
    let f = lifecycle_output(after, c, report)->Ok_0.result_revisions->Object_0;
    assert(distinct_names(f));
    lemma_field_at(f, 0);
}

proof fn lemma_actions_once(
    rows: RowsView,
    expected: Seq<ExpectedView>,
    target: AggregateView,
    event_type: Seq<char>,
    n: nat,
)
    requires
        outcomes(rows, expected, target, event_type, n) is Ok,
    ensures
        forall|k: int|
            0 <= k < outcomes(rows, expected, target, event_type, n)->Ok_0.changes.len() ==> (
            #[trigger] outcomes(
                rows,
                expected,
                target,
                event_type,
                n,
            )->Ok_0.changes[k]).run_actions.len() == 0,
    decreases n,
{
    if n > 0 {
        lemma_actions_once(rows, expected, target, event_type, (n - 1) as nat);
    }
}

/// An agent's command is answered with the revision that its target has now, and with the
/// revision of the draft where it left one.
pub proof fn law_an_agent_is_answered_with_where_it_is(
    after: RowsView,
    c: ControlView,
    expected: Seq<ExpectedView>,
    target: AggregateView,
    report: MutationReportView,
)
    requires
        control_output(after, c, expected, target, report) is Ok,
    ensures
        ({
            let out = control_output(after, c, expected, target, report)->Ok_0;
            &&& run_snapshot(after, target) matches Ok((now, _)) && field_of(
                out.result_revisions,
                "revision"@,
            ) == Some(JsonView::Unsigned(now as nat))
            &&& report.draft_revision matches Some(draft) ==> field_of(
                out.result_revisions,
                "draft_revision"@,
            ) == Some(JsonView::Text(draft))
            &&& report.actions.len() > 0 && !(c is Settle && report.already_settled)
                ==> out.projections.len() > 0 && out.projections[0].run_actions == report.actions
            &&& c is Settle && report.already_settled ==> forall|k: int|
                0 <= k < out.projections.len() ==> (#[trigger] out.projections[k]).run_actions.len()
                    == 0
            &&& forall|k: int|
                0 < k < out.projections.len() ==> (#[trigger] out.projections[k]).run_actions.len()
                    == 0
        }),
{
    lemma_target(after, expected, target, c.method(), expected.len());
    lemma_actions_once(after, expected, target, c.method(), expected.len());
    let f = control_output(after, c, expected, target, report)->Ok_0.result_revisions->Object_0;
    reveal_strlit("revision");
    reveal_strlit("draft_revision");
    assert("revision"@.len() == 8 && "draft_revision"@.len() == 14);
    assert(distinct_names(f));
    lemma_field_at(f, 0);
    if report.draft_revision is Some {
        lemma_field_at(f, 1);
    }
}

/// Whether a value shows a row: its handle, its revision and its state.
pub open spec fn shows_row(data: JsonView, handle: Seq<char>, revision: i64, status: Seq<char>) -> bool {
    &&& field_of(data, "public_handle"@) == Some(JsonView::Text(handle))
    &&& field_of(data, "revision"@) == Some(signed_view(revision as int))
    &&& field_of(data, "status"@) == Some(JsonView::Text(status))
}

/// What is seen of something of a run is a row of its kind with its handle, with the revision
/// and the state that the row has.
pub proof fn law_what_is_seen_of_a_run_is_its_row(rows: RowsView, a: AggregateView)
    requires
        run_snapshot(rows, a) is Ok,
    ensures
        ({
            let (revision, data) = run_snapshot(rows, a)->Ok_0;
            match a.kind {
                AggregateKind::WorkflowRun => exists|row: TaskView| #[trigger]
                    rows.tasks.contains(row) && row.public_handle == a.handle && row.revision
                        == revision && shows_row(data, a.handle, row.revision, row.status),
                AggregateKind::Step => exists|row: RunStepView| #[trigger]
                    rows.steps.contains(row) && row.public_handle == a.handle && row.revision
                        == revision && shows_row(data, a.handle, row.revision, row.status),
                AggregateKind::AgentSession => exists|row: AgentSessionView| #[trigger]
                    rows.sessions.contains(row) && row.public_handle == a.handle && row.revision
                        == revision && shows_row(data, a.handle, row.revision, row.status),
                AggregateKind::AgentRun => exists|row: AgentRunView| #[trigger]
                    rows.agent_runs.contains(row) && row.public_handle == a.handle && row.revision
                        == revision && shows_row(data, a.handle, row.revision, row.status),
                _ => false,
            }
        }),
{
    lemma_task(rows.tasks, a.handle, 0);
    lemma_step(rows.steps, a.handle, 0);
    lemma_session(rows.sessions, a.handle, 0);
    lemma_agent_run(rows.agent_runs, a.handle, 0);
    reveal_with_fuel(crate::json::field_in, 6);
    reveal_strlit("public_handle");
    reveal_strlit("revision");
    reveal_strlit("status");
    reveal_strlit("title");
    reveal_strlit("goal");
    reveal_strlit("key");
    reveal_strlit("runtime");
    reveal_strlit("step_handle");
    reveal_strlit("session_handle");
    assert("public_handle"@.len() == 13 && "revision"@.len() == 8 && "status"@.len() == 6
        && "title"@.len() == 5 && "goal"@.len() == 4 && "key"@.len() == 3 && "runtime"@.len() == 7
        && "step_handle"@.len() == 11 && "session_handle"@.len() == 14);
}

} // verus!
