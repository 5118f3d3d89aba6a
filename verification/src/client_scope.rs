//! What the client lists is what the store asks for: a cancellation that is built from
//! what a run looks like leaves nothing out, and adds nothing.

use crate::legacy_client::{
    active_runs, cancel_expected, in_session, run_versions, sessions_to_list, steps_to_list,
    wanted_run,
};
use crate::project_rows::{
    agent_run_by_handle, task_by_handle, AgentRunView, RowsView, RunStepView, TaskView,
};
use crate::run_command::RunCommandView;
use crate::run_scope::{
    cancel_scope, handles_of, open_steps, run_active, run_scope, runs_of_task, session_of,
    sessions_of, step_ended,
};
use crate::snapshot::{AgentRunShown, RunShown, SessionShown, StepShown};
use vstd::prelude::*;

verus! {

/// Whether a step is shown as it is stored.
pub open spec fn step_as_stored(row: RunStepView, shown: StepShown) -> bool {
    row.public_handle == shown.step && row.status == shown.status
}

/// Whether an agent run is shown as it is stored.
pub open spec fn run_as_stored(rows: RowsView, row: AgentRunView, shown: AgentRunShown) -> bool {
    &&& row.public_handle == shown.agent_run
    &&& row.status == shown.status
    &&& session_of(rows, row) == shown.agent_session
}

/// Whether a run is shown as it is stored: every step of its plan, every agent run, and
/// every session that one of them is in; and nothing else but, at most, other sessions.
pub open spec fn run_shown_whole(rows: RowsView, task: TaskView, data: RunShown) -> bool {
    &&& forall|i: int|
        0 <= i < data.steps.len() ==> exists|j: int|
            0 <= j < rows.steps.len() && task.active_revision == Some(rows.steps[j].revision_id)
                && #[trigger] step_as_stored(rows.steps[j], #[trigger] data.steps[i])
    &&& forall|j: int|
        0 <= j < rows.steps.len() && task.active_revision == Some(
            (#[trigger] rows.steps[j]).revision_id,
        ) ==> exists|i: int|
            0 <= i < data.steps.len() && #[trigger] step_as_stored(rows.steps[j], data.steps[i])
    &&& forall|i: int|
        0 <= i < data.agent_runs.len() ==> exists|j: int|
            0 <= j < rows.agent_runs.len() && rows.agent_runs[j].task_id == task.id
                && #[trigger] run_as_stored(rows, rows.agent_runs[j], #[trigger] data.agent_runs[i])
    &&& forall|j: int|
        0 <= j < rows.agent_runs.len() && (#[trigger] rows.agent_runs[j]).task_id == task.id
            ==> exists|i: int|
            0 <= i < data.agent_runs.len() && #[trigger] run_as_stored(
                rows,
                rows.agent_runs[j],
                data.agent_runs[i],
            )
    &&& forall|i: int|
        0 <= i < data.agent_runs.len() && (#[trigger] data.agent_runs[i]).agent_session is Some
            ==> exists|k: int|
            0 <= k < data.agent_sessions.len() && Some(
                (#[trigger] data.agent_sessions[k]).agent_session,
            ) == data.agent_runs[i].agent_session
}

/// Whether no two agent runs have the same handle.
pub open spec fn runs_distinct(runs: Seq<AgentRunView>) -> bool {
    forall|i: int, j: int|
        0 <= i < j < runs.len() ==> (#[trigger] runs[i]).public_handle != (
        #[trigger] runs[j]).public_handle
}

proof fn lemma_filter<T>(v: Seq<T>, p: spec_fn(T) -> bool, x: T)
    ensures
        v.filter(p).contains(x) <==> v.contains(x) && p(x),
    decreases v.len(),
{
    reveal(Seq::filter);
    if v.len() > 0 {
        let w = v.drop_last();
        lemma_filter(w, p, x);
        let out = v.filter(p);
        let rest = w.filter(p);
        assert(v.contains(x) <==> w.contains(x) || v.last() == x) by {
            if w.contains(x) {
                let k = choose|k: int| 0 <= k < w.len() && w[k] == x;
                assert(v[k] == x);
            }
            assert(v[v.len() - 1] == v.last());
            if v.contains(x) && v.last() != x {
                let k = choose|k: int| 0 <= k < v.len() && v[k] == x;
                assert(w[k] == x);
            }
        }
        if p(v.last()) {
            assert(out == rest.push(v.last()));
            if rest.contains(x) {
                let k = choose|k: int| 0 <= k < rest.len() && rest[k] == x;
                assert(out[k] == x);
            }
            assert(out[rest.len() as int] == v.last());
            if out.contains(x) && x != v.last() {
                let k = choose|k: int| 0 <= k < out.len() && out[k] == x;
                assert(rest[k] == x);
            }
        } else {
            assert(out == rest);
        }
    }
}

proof fn lemma_open_steps(v: Seq<RunStepView>, plan: Option<i64>, n: nat, h: Seq<char>)
    requires
        n <= v.len(),
    ensures
        open_steps(v, plan, n).contains(h) <==> exists|j: int|
            0 <= j < n && plan == Some((#[trigger] v[j]).revision_id) && !step_ended(v[j].status)
                && v[j].public_handle == h,
    decreases n,
{
    if n > 0 {
        lemma_open_steps(v, plan, (n - 1) as nat, h);
        let rest = open_steps(v, plan, (n - 1) as nat);
        let all = open_steps(v, plan, n);
        let row = v[n - 1];
        if plan == Some(row.revision_id) && !step_ended(row.status) {
            assert(all == rest.push(row.public_handle));
            if rest.contains(h) {
                let k = choose|k: int| 0 <= k < rest.len() && rest[k] == h;
                assert(all[k] == h);
            }
            assert(all[rest.len() as int] == row.public_handle);
            if all.contains(h) && h != row.public_handle {
                let k = choose|k: int| 0 <= k < all.len() && all[k] == h;
                assert(rest[k] == h);
            }
        }
    }
}

proof fn lemma_runs_of_task(v: Seq<AgentRunView>, task_id: i64, n: nat, h: Seq<char>)
    requires
        n <= v.len(),
    ensures
        runs_of_task(v, task_id, n).contains(h) <==> exists|j: int|
            0 <= j < n && (#[trigger] v[j]).task_id == task_id && run_active(v[j].status)
                && v[j].public_handle == h,
    decreases n,
{
    if n > 0 {
        lemma_runs_of_task(v, task_id, (n - 1) as nat, h);
        let rest = runs_of_task(v, task_id, (n - 1) as nat);
        let all = runs_of_task(v, task_id, n);
        let row = v[n - 1];
        if row.task_id == task_id && run_active(row.status) {
            assert(all == rest.push(row.public_handle));
            if rest.contains(h) {
                let k = choose|k: int| 0 <= k < rest.len() && rest[k] == h;
                assert(all[k] == h);
            }
            assert(all[rest.len() as int] == row.public_handle);
            if all.contains(h) && h != row.public_handle {
                let k = choose|k: int| 0 <= k < all.len() && all[k] == h;
                assert(rest[k] == h);
            }
        }
    }
}

proof fn lemma_found_run(v: Seq<AgentRunView>, at: int, from: int)
    requires
        runs_distinct(v),
        0 <= from <= at < v.len(),
    ensures
        agent_run_by_handle(v, v[at].public_handle, from) == Some(v[at]),
    decreases at - from,
{
    if from < at {
        assert(v[from].public_handle != v[at].public_handle);
        lemma_found_run(v, at, from + 1);
    }
}

/// Whether the session is that of one of the first `n` agent runs of a list.
spec fn session_among(rows: RowsView, runs: Seq<Seq<char>>, n: nat, s: Seq<char>) -> bool {
    exists|i: int|
        0 <= i < n && (match agent_run_by_handle(rows.agent_runs, #[trigger] runs[i], 0) {
            Some(row) => session_of(rows, row) == Some(s),
            None => false,
        })
}

proof fn lemma_sessions_of(rows: RowsView, runs: Seq<Seq<char>>, n: nat, s: Seq<char>)
    requires
        n <= runs.len(),
    ensures
        sessions_of(rows, runs, n).contains(s) <==> session_among(rows, runs, n, s),
    decreases n,
{
    if n > 0 {
        lemma_sessions_of(rows, runs, (n - 1) as nat, s);
        let rest = sessions_of(rows, runs, (n - 1) as nat);
        let all = sessions_of(rows, runs, n);
        match agent_run_by_handle(rows.agent_runs, runs[n - 1], 0) {
            Some(row) => match session_of(rows, row) {
                Some(own) => {
                    assert(all == rest.push(own));
                    if rest.contains(s) {
                        let k = choose|k: int| 0 <= k < rest.len() && rest[k] == s;
                        assert(all[k] == s);
                    }
                    assert(all[rest.len() as int] == own);
                    if all.contains(s) && s != own {
                        let k = choose|k: int| 0 <= k < all.len() && all[k] == s;
                        assert(rest[k] == s);
                    }
                    if s == own {
                        assert(session_among(rows, runs, n, s)) by {
                            assert(agent_run_by_handle(rows.agent_runs, runs[n - 1], 0) == Some(
                                row,
                            ));
                        }
                    }
                },
                None => {},
            },
            None => {},
        }
        if session_among(rows, runs, (n - 1) as nat, s) {
            let i = choose|i: int|
                0 <= i < n - 1 && (match agent_run_by_handle(
                    rows.agent_runs,
                    #[trigger] runs[i],
                    0,
                ) {
                    Some(row) => session_of(rows, row) == Some(s),
                    None => false,
                });
            assert(0 <= i < n && agent_run_by_handle(rows.agent_runs, runs[i], 0) is Some);
        }
    }
}

proof fn lemma_steps_agree(rows: RowsView, task: TaskView, data: RunShown)
    requires
        run_shown_whole(rows, task, data),
    ensures
        open_steps(rows.steps, task.active_revision, rows.steps.len()).to_set() == handles_of(
            steps_to_list(data.steps),
        ).to_set(),
{
    let stored = open_steps(rows.steps, task.active_revision, rows.steps.len());
    let open = |s: StepShown| !step_ended(s.status);
    let kept = data.steps.filter(open);
    let listed = handles_of(steps_to_list(data.steps));
    assert(listed.len() == kept.len());
    assert forall|h: Seq<char>| stored.contains(h) <==> listed.contains(h) by {
        lemma_open_steps(rows.steps, task.active_revision, rows.steps.len(), h);
        if stored.contains(h) {
            let j = choose|j: int|
                0 <= j < rows.steps.len() && task.active_revision == Some(
                    (#[trigger] rows.steps[j]).revision_id,
                ) && !step_ended(rows.steps[j].status) && rows.steps[j].public_handle == h;
            let i = choose|i: int|
                0 <= i < data.steps.len() && #[trigger] step_as_stored(
                    rows.steps[j],
                    data.steps[i],
                );
            assert(data.steps.contains(data.steps[i]));
            lemma_filter(data.steps, open, data.steps[i]);
            let k = choose|k: int| 0 <= k < kept.len() && kept[k] == data.steps[i];
            assert(listed[k] == h);
        }
        if listed.contains(h) {
            let k = choose|k: int| 0 <= k < listed.len() && listed[k] == h;
            assert(kept.contains(kept[k]));
            lemma_filter(data.steps, open, kept[k]);
            let i = choose|i: int| 0 <= i < data.steps.len() && data.steps[i] == kept[k];
            let j = choose|j: int|
                0 <= j < rows.steps.len() && task.active_revision == Some(
                    rows.steps[j].revision_id,
                ) && #[trigger] step_as_stored(rows.steps[j], data.steps[i]);
            assert(rows.steps[j].public_handle == h);
            assert(task.active_revision == Some(rows.steps[j].revision_id));
        }
    }
    assert(stored.to_set() =~= listed.to_set());
}

proof fn lemma_runs_agree(rows: RowsView, task: TaskView, data: RunShown)
    requires
        run_shown_whole(rows, task, data),
    ensures
        runs_of_task(rows.agent_runs, task.id, rows.agent_runs.len()).to_set() == handles_of(
            run_versions(active_runs(data.agent_runs, None)),
        ).to_set(),
{
    let stored = runs_of_task(rows.agent_runs, task.id, rows.agent_runs.len());
    let wanted = |r: AgentRunShown| wanted_run(r, None);
    let kept = active_runs(data.agent_runs, None);
    let listed = handles_of(run_versions(kept));
    assert(kept == data.agent_runs.filter(wanted));
    assert forall|h: Seq<char>| stored.contains(h) <==> listed.contains(h) by {
        lemma_runs_of_task(rows.agent_runs, task.id, rows.agent_runs.len(), h);
        if stored.contains(h) {
            let j = choose|j: int|
                0 <= j < rows.agent_runs.len() && (#[trigger] rows.agent_runs[j]).task_id
                    == task.id && run_active(rows.agent_runs[j].status)
                    && rows.agent_runs[j].public_handle == h;
            let i = choose|i: int|
                0 <= i < data.agent_runs.len() && #[trigger] run_as_stored(
                    rows,
                    rows.agent_runs[j],
                    data.agent_runs[i],
                );
            assert(data.agent_runs.contains(data.agent_runs[i]));
            lemma_filter(data.agent_runs, wanted, data.agent_runs[i]);
            let k = choose|k: int| 0 <= k < kept.len() && kept[k] == data.agent_runs[i];
            assert(listed[k] == h);
        }
        if listed.contains(h) {
            let k = choose|k: int| 0 <= k < listed.len() && listed[k] == h;
            assert(kept.contains(kept[k]));
            lemma_filter(data.agent_runs, wanted, kept[k]);
            let i = choose|i: int| 0 <= i < data.agent_runs.len() && data.agent_runs[i] == kept[k];
            let j = choose|j: int|
                0 <= j < rows.agent_runs.len() && rows.agent_runs[j].task_id == task.id
                    && #[trigger] run_as_stored(rows, rows.agent_runs[j], data.agent_runs[i]);
            assert(rows.agent_runs[j].public_handle == h);
            assert(rows.agent_runs[j].task_id == task.id);
        }
    }
    assert(stored.to_set() =~= listed.to_set());
}

proof fn lemma_sessions_agree(rows: RowsView, task: TaskView, data: RunShown)
    requires
        run_shown_whole(rows, task, data),
        runs_distinct(rows.agent_runs),
    ensures
        ({
            let runs = runs_of_task(rows.agent_runs, task.id, rows.agent_runs.len());
            sessions_of(rows, runs, runs.len()).to_set() == handles_of(
                sessions_to_list(data.agent_sessions, active_runs(data.agent_runs, None)),
            ).to_set()
        }),
{
    let runs = runs_of_task(rows.agent_runs, task.id, rows.agent_runs.len());
    let stored = sessions_of(rows, runs, runs.len());
    let wanted = |r: AgentRunShown| wanted_run(r, None);
    let active = active_runs(data.agent_runs, None);
    assert(active == data.agent_runs.filter(wanted));
    let near = |s: SessionShown| in_session(active, s.agent_session);
    let kept = data.agent_sessions.filter(near);
    let listed = handles_of(sessions_to_list(data.agent_sessions, active));
    assert(listed.len() == kept.len());
    assert forall|s: Seq<char>| stored.contains(s) <==> listed.contains(s) by {
        lemma_sessions_of(rows, runs, runs.len(), s);
        if stored.contains(s) {
            let i = choose|i: int|
                0 <= i < runs.len() && (match agent_run_by_handle(
                    rows.agent_runs,
                    #[trigger] runs[i],
                    0,
                ) {
                    Some(row) => session_of(rows, row) == Some(s),
                    None => false,
                });
            assert(runs.contains(runs[i]));
            lemma_runs_of_task(rows.agent_runs, task.id, rows.agent_runs.len(), runs[i]);
            let j = choose|j: int|
                0 <= j < rows.agent_runs.len() && (#[trigger] rows.agent_runs[j]).task_id
                    == task.id && run_active(rows.agent_runs[j].status)
                    && rows.agent_runs[j].public_handle == runs[i];
            lemma_found_run(rows.agent_runs, j, 0);
            let a = choose|a: int|
                0 <= a < data.agent_runs.len() && #[trigger] run_as_stored(
                    rows,
                    rows.agent_runs[j],
                    data.agent_runs[a],
                );
            assert(data.agent_runs[a].agent_session == Some(s));
            let k = choose|k: int|
                0 <= k < data.agent_sessions.len() && Some(
                    (#[trigger] data.agent_sessions[k]).agent_session,
                ) == data.agent_runs[a].agent_session;
            assert(data.agent_runs.contains(data.agent_runs[a]));
            lemma_filter(data.agent_runs, wanted, data.agent_runs[a]);
            let b = choose|b: int| 0 <= b < active.len() && active[b] == data.agent_runs[a];
            assert(active[b].agent_session == Some(s));
            assert(in_session(active, s));
            assert(data.agent_sessions.contains(data.agent_sessions[k]));
            lemma_filter(data.agent_sessions, near, data.agent_sessions[k]);
            let c = choose|c: int| 0 <= c < kept.len() && kept[c] == data.agent_sessions[k];
            assert(listed[c] == s);
        }
        if listed.contains(s) {
            let c = choose|c: int| 0 <= c < listed.len() && listed[c] == s;
            assert(kept.contains(kept[c]));
            lemma_filter(data.agent_sessions, near, kept[c]);
            assert(in_session(active, s));
            let b = choose|b: int|
                0 <= b < active.len() && (#[trigger] active[b]).agent_session == Some(s);
            assert(active.contains(active[b]));
            lemma_filter(data.agent_runs, wanted, active[b]);
            let a = choose|a: int|
                0 <= a < data.agent_runs.len() && data.agent_runs[a] == active[b];
            let j = choose|j: int|
                0 <= j < rows.agent_runs.len() && rows.agent_runs[j].task_id == task.id
                    && #[trigger] run_as_stored(rows, rows.agent_runs[j], data.agent_runs[a]);
            let h = rows.agent_runs[j].public_handle;
            assert(rows.agent_runs[j].task_id == task.id);
            lemma_runs_of_task(rows.agent_runs, task.id, rows.agent_runs.len(), h);
            assert(runs.contains(h));
            let i = choose|i: int| 0 <= i < runs.len() && runs[i] == h;
            lemma_found_run(rows.agent_runs, j, 0);
            assert(agent_run_by_handle(rows.agent_runs, runs[i], 0) == Some(rows.agent_runs[j]));
            assert(session_among(rows, runs, runs.len(), s));
        }
    }
    assert(stored.to_set() =~= listed.to_set());
}

/// A cancellation that the client builds from what a run looks like lists exactly what the
/// store asks for, as long as the run still looks that way.
pub proof fn law_a_cancellation_lists_what_is_asked(
    rows: RowsView,
    data: RunShown,
    project: Seq<char>,
    workflow_run: Seq<char>,
)
    requires
        task_by_handle(rows.tasks, workflow_run, 0) is Some,
        run_shown_whole(rows, task_by_handle(rows.tasks, workflow_run, 0)->0, data),
        runs_distinct(rows.agent_runs),
    ensures
        run_scope(
            rows,
            RunCommandView::Cancel { project, workflow_run, expected: cancel_expected(data) },
        ) is Ok,
{
    let task = task_by_handle(rows.tasks, workflow_run, 0)->0;
    lemma_steps_agree(rows, task, data);
    lemma_runs_agree(rows, task, data);
    lemma_sessions_agree(rows, task, data);
    assert(cancel_scope(rows, task, cancel_expected(data)) is Ok);
}

} // verus!
