//! Whether a command on a run lists everything that it touches, and nothing else: what
//! is not listed could have changed unseen.

use crate::command::{CommandProblem, ProblemView};
use crate::handles::{outcome, AgentRunHandle, AgentSessionHandle, StepHandle};
use crate::project_rows::{
    agent_run_by_handle, agent_run_by_id, agent_runs_view, find_agent_run_by_handle,
    find_agent_run_by_id, find_session_by_id, find_step_by_id, find_task_by_handle, session_by_id,
    step_by_id, steps_view, task_by_handle, AgentRunRow, AgentRunView, ProjectRows, QuestionRow,
    QuestionView, RowsView, RunStepView, StepRow, TaskView,
};
use crate::run_command::{
    versions, RetryMode, RunCommandView, RunExpectedView, VersionView, VersionedHandle,
    WorkflowRunCommand, WorkflowRunExpected,
};
use crate::text::{cat3, list_has, opt_view, same, texts};
use vstd::prelude::*;
use vstd::string::*;

verus! {

/// Whether a step has come to an end.
pub open spec fn step_ended(status: Seq<char>) -> bool {
    status == "succeeded"@ || status == "failed"@ || status == "skipped"@ || status
        == "cancelled"@
}

/// Whether a step has come to an end.
pub fn is_step_ended(status: &str) -> (r: bool)
    ensures
        r == step_ended(status@),
{
    same(status, "succeeded") || same(status, "failed") || same(status, "skipped") || same(
        status,
        "cancelled",
    )
}

/// Whether an agent run is under way.
pub open spec fn run_active(status: Seq<char>) -> bool {
    status == "running"@ || status == "awaiting-outcome"@
}

/// Whether an agent run is under way.
pub fn is_run_active(status: &str) -> (r: bool)
    ensures
        r == run_active(status@),
{
    same(status, "running") || same(status, "awaiting-outcome")
}

/// Whether a session can be gone on with.
pub open spec fn session_live(status: Seq<char>) -> bool {
    status != "dead"@ && status != "hidden"@
}

/// Whether a session can be gone on with.
pub fn is_session_live(status: &str) -> (r: bool)
    ensures
        r == session_live(status@),
{
    !same(status, "dead") && !same(status, "hidden")
}

/// The handles of a list.
pub open spec fn handles_of(v: Seq<VersionView>) -> Seq<Seq<char>> {
    v.map_values(|h: VersionView| h.handle)
}

pub(crate) fn handles_of_steps(v: &Vec<VersionedHandle<StepHandle>>) -> (r: Vec<String>)
    ensures
        texts(r@) == handles_of(versions(v@)),
{
    let ghost all = handles_of(versions(v@));
    let mut out: Vec<String> = Vec::new();
    let mut i: usize = 0;
    assert(texts(out@) =~= all.take(0));
    while i < v.len()
        invariant
            i <= v@.len(),
            all == handles_of(versions(v@)),
            texts(out@) == all.take(i as int),
        decreases v@.len() - i,
    {
        let ghost had = out@;
        out.push(v[i].handle.as_str().to_owned());
        assert(texts(out@) =~= texts(had).push(all[i as int]));
        assert(all.take(i + 1) =~= all.take(i as int).push(all[i as int]));
        i = i + 1;
    }
    assert(all.take(i as int) =~= all);
    out
}

pub(crate) fn handles_of_agent_runs(v: &Vec<VersionedHandle<AgentRunHandle>>) -> (r: Vec<String>)
    ensures
        texts(r@) == handles_of(versions(v@)),
{
    let ghost all = handles_of(versions(v@));
    let mut out: Vec<String> = Vec::new();
    let mut i: usize = 0;
    assert(texts(out@) =~= all.take(0));
    while i < v.len()
        invariant
            i <= v@.len(),
            all == handles_of(versions(v@)),
            texts(out@) == all.take(i as int),
        decreases v@.len() - i,
    {
        let ghost had = out@;
        out.push(v[i].handle.as_str().to_owned());
        assert(texts(out@) =~= texts(had).push(all[i as int]));
        assert(all.take(i + 1) =~= all.take(i as int).push(all[i as int]));
        i = i + 1;
    }
    assert(all.take(i as int) =~= all);
    out
}

pub(crate) fn handles_of_agent_sessions(
    v: &Vec<VersionedHandle<AgentSessionHandle>>,
) -> (r: Vec<String>)
    ensures
        texts(r@) == handles_of(versions(v@)),
{
    let ghost all = handles_of(versions(v@));
    let mut out: Vec<String> = Vec::new();
    let mut i: usize = 0;
    assert(texts(out@) =~= all.take(0));
    while i < v.len()
        invariant
            i <= v@.len(),
            all == handles_of(versions(v@)),
            texts(out@) == all.take(i as int),
        decreases v@.len() - i,
    {
        let ghost had = out@;
        out.push(v[i].handle.as_str().to_owned());
        assert(texts(out@) =~= texts(had).push(all[i as int]));
        assert(all.take(i + 1) =~= all.take(i as int).push(all[i as int]));
        i = i + 1;
    }
    assert(all.take(i as int) =~= all);
    out
}

/// The steps of a plan that have not come to an end, among the first `n`.
pub open spec fn open_steps(v: Seq<RunStepView>, plan: Option<i64>, n: nat) -> Seq<Seq<char>>
    decreases n,
{
    if n == 0 {
        seq![]
    } else {
        let rest = open_steps(v, plan, (n - 1) as nat);
        let row = v[n - 1];
        if plan == Some(row.revision_id) && !step_ended(row.status) {
            rest.push(row.public_handle)
        } else {
            rest
        }
    }
}

fn list_open_steps(v: &Vec<StepRow>, plan: Option<i64>) -> (r: Vec<String>)
    ensures
        texts(r@) == open_steps(steps_view(v@), plan, v@.len()),
{
    let ghost all = steps_view(v@);
    let mut out: Vec<String> = Vec::new();
    let mut i: usize = 0;
    assert(texts(out@) =~= seq![]);
    while i < v.len()
        invariant
            i <= v@.len(),
            all == steps_view(v@),
            texts(out@) == open_steps(all, plan, i as nat),
        decreases v@.len() - i,
    {
        let row: &StepRow = &v[i];
        let ghost had = out@;
        assert(all[i as int] == row@);
        if plan == Some(row.revision_id) && !is_step_ended(row.status.as_str()) {
            out.push(row.public_handle.clone());
            assert(texts(out@) =~= texts(had).push(row@.public_handle));
        }
        i = i + 1;
    }
    out
}

/// The agent runs of a run that are under way, among the first `n`.
pub open spec fn runs_of_task(v: Seq<AgentRunView>, task_id: i64, n: nat) -> Seq<Seq<char>>
    decreases n,
{
    if n == 0 {
        seq![]
    } else {
        let rest = runs_of_task(v, task_id, (n - 1) as nat);
        let row = v[n - 1];
        if row.task_id == task_id && run_active(row.status) {
            rest.push(row.public_handle)
        } else {
            rest
        }
    }
}

fn list_runs_of_task(v: &Vec<AgentRunRow>, task_id: i64) -> (r: Vec<String>)
    ensures
        texts(r@) == runs_of_task(agent_runs_view(v@), task_id, v@.len()),
{
    let ghost all = agent_runs_view(v@);
    let mut out: Vec<String> = Vec::new();
    let mut i: usize = 0;
    assert(texts(out@) =~= seq![]);
    while i < v.len()
        invariant
            i <= v@.len(),
            all == agent_runs_view(v@),
            texts(out@) == runs_of_task(all, task_id, i as nat),
        decreases v@.len() - i,
    {
        let row: &AgentRunRow = &v[i];
        let ghost had = out@;
        assert(all[i as int] == row@);
        if row.task_id == task_id && is_run_active(row.status.as_str()) {
            out.push(row.public_handle.clone());
            assert(texts(out@) =~= texts(had).push(row@.public_handle));
        }
        i = i + 1;
    }
    out
}

/// The agent runs of a step that are under way, among the first `n`.
pub open spec fn runs_of_step(v: Seq<AgentRunView>, step_id: i64, n: nat) -> Seq<Seq<char>>
    decreases n,
{
    if n == 0 {
        seq![]
    } else {
        let rest = runs_of_step(v, step_id, (n - 1) as nat);
        let row = v[n - 1];
        if row.step_id == step_id && run_active(row.status) {
            rest.push(row.public_handle)
        } else {
            rest
        }
    }
}

fn list_runs_of_step(v: &Vec<AgentRunRow>, step_id: i64) -> (r: Vec<String>)
    ensures
        texts(r@) == runs_of_step(agent_runs_view(v@), step_id, v@.len()),
{
    let ghost all = agent_runs_view(v@);
    let mut out: Vec<String> = Vec::new();
    let mut i: usize = 0;
    assert(texts(out@) =~= seq![]);
    while i < v.len()
        invariant
            i <= v@.len(),
            all == agent_runs_view(v@),
            texts(out@) == runs_of_step(all, step_id, i as nat),
        decreases v@.len() - i,
    {
        let row: &AgentRunRow = &v[i];
        let ghost had = out@;
        assert(all[i as int] == row@);
        if row.step_id == step_id && is_run_active(row.status.as_str()) {
            out.push(row.public_handle.clone());
            assert(texts(out@) =~= texts(had).push(row@.public_handle));
        }
        i = i + 1;
    }
    out
}

/// The session of an agent run, if it has one.
pub open spec fn session_of(rows: RowsView, run: AgentRunView) -> Option<Seq<char>> {
    match run.session_id {
        None => None,
        Some(id) => match session_by_id(rows.sessions, id, 0) {
            Some(s) => Some(s.public_handle),
            None => None,
        },
    }
}

/// The sessions of the first `n` agent runs of a list.
pub open spec fn sessions_of(rows: RowsView, runs: Seq<Seq<char>>, n: nat) -> Seq<Seq<char>>
    decreases n,
{
    if n == 0 {
        seq![]
    } else {
        let rest = sessions_of(rows, runs, (n - 1) as nat);
        match agent_run_by_handle(rows.agent_runs, runs[n - 1], 0) {
            None => rest,
            Some(run) => match session_of(rows, run) {
                Some(s) => rest.push(s),
                None => rest,
            },
        }
    }
}

fn find_session_of(rows: &ProjectRows, run: &AgentRunRow) -> (r: Option<usize>)
    ensures
        match r {
            Some(i) => i < rows.sessions@.len() && session_of(rows@, run@) == Some(
                rows.sessions@[i as int]@.public_handle,
            ) && session_by_id(rows@.sessions, run@.session_id->0, 0) == Some(
                rows.sessions@[i as int]@,
            ) && run@.session_id is Some,
            None => session_of(rows@, run@) is None,
        },
{
    match run.session_id {
        None => None,
        Some(id) => find_session_by_id(&rows.sessions, id),
    }
}

fn list_sessions_of(rows: &ProjectRows, runs: &Vec<String>) -> (r: Vec<String>)
    ensures
        texts(r@) == sessions_of(rows@, texts(runs@), runs@.len()),
{
    let ghost all = texts(runs@);
    let mut out: Vec<String> = Vec::new();
    let mut i: usize = 0;
    assert(texts(out@) =~= seq![]);
    while i < runs.len()
        invariant
            i <= runs@.len(),
            all == texts(runs@),
            texts(out@) == sessions_of(rows@, all, i as nat),
        decreases runs@.len() - i,
    {
        let ghost had = out@;
        assert(all[i as int] == runs@[i as int]@);
        match find_agent_run_by_handle(&rows.agent_runs, runs[i].as_str()) {
            None => {},
            Some(k) => match find_session_of(rows, &rows.agent_runs[k]) {
                None => {},
                Some(s) => {
                    let handle: String = rows.sessions[s].public_handle.clone();
                    out.push(handle);
                    assert(texts(out@) =~= texts(had).push(handle@));
                },
            },
        }
        i = i + 1;
    }
    out
}

/// The sessions that a step can be gone on with in, over the first `n` agent runs.
pub open spec fn live_sessions(rows: RowsView, step_id: i64, n: nat) -> Seq<Seq<char>>
    decreases n,
{
    if n == 0 {
        seq![]
    } else {
        let rest = live_sessions(rows, step_id, (n - 1) as nat);
        let run = rows.agent_runs[n - 1];
        match session_of(rows, run) {
            Some(s) => if run.step_id == step_id && session_live(
                session_by_id(rows.sessions, run.session_id->0, 0)->0.status,
            ) {
                rest.push(s)
            } else {
                rest
            },
            None => rest,
        }
    }
}

fn list_live_sessions(rows: &ProjectRows, step_id: i64) -> (r: Vec<String>)
    ensures
        texts(r@) == live_sessions(rows@, step_id, rows@.agent_runs.len()),
{
    let mut out: Vec<String> = Vec::new();
    let mut i: usize = 0;
    assert(texts(out@) =~= seq![]);
    while i < rows.agent_runs.len()
        invariant
            i <= rows.agent_runs@.len(),
            texts(out@) == live_sessions(rows@, step_id, i as nat),
        decreases rows.agent_runs@.len() - i,
    {
        let run: &AgentRunRow = &rows.agent_runs[i];
        let ghost had = out@;
        assert(rows@.agent_runs[i as int] == run@);
        match find_session_of(rows, run) {
            None => {},
            Some(s) => {
                if run.step_id == step_id && is_session_live(rows.sessions[s].status.as_str()) {
                    let handle: String = rows.sessions[s].public_handle.clone();
                    out.push(handle);
                    assert(texts(out@) =~= texts(had).push(handle@));
                }
            },
        }
        i = i + 1;
    }
    out
}

/// The agent run that asks a question, if one does.
pub open spec fn asker(rows: RowsView, q: QuestionView) -> Option<Seq<char>> {
    match q.run_id {
        None => None,
        Some(id) => match agent_run_by_id(rows.agent_runs, id, 0) {
            Some(run) => Some(run.public_handle),
            None => None,
        },
    }
}

/// Who asks the open questions of a step, over the first `n` questions.
pub open spec fn open_askers(rows: RowsView, task_id: i64, step_id: i64, n: nat) -> Seq<
    Option<Seq<char>>,
>
    decreases n,
{
    if n == 0 {
        seq![]
    } else {
        let rest = open_askers(rows, task_id, step_id, (n - 1) as nat);
        let q = rows.questions[n - 1];
        if q.task_id == task_id && q.step_id == step_id && q.status == "open"@ {
            rest.push(asker(rows, q))
        } else {
            rest
        }
    }
}

/// Optional texts, as values.
pub open spec fn opt_texts(v: Seq<Option<String>>) -> Seq<Option<Seq<char>>> {
    v.map_values(|s: Option<String>| opt_view(s))
}

fn list_open_askers(rows: &ProjectRows, task_id: i64, step_id: i64) -> (r: Vec<Option<String>>)
    ensures
        opt_texts(r@) == open_askers(rows@, task_id, step_id, rows@.questions.len()),
{
    let mut out: Vec<Option<String>> = Vec::new();
    let mut i: usize = 0;
    assert(opt_texts(out@) =~= seq![]);
    while i < rows.questions.len()
        invariant
            i <= rows.questions@.len(),
            opt_texts(out@) == open_askers(rows@, task_id, step_id, i as nat),
        decreases rows.questions@.len() - i,
    {
        let q: &QuestionRow = &rows.questions[i];
        let ghost had = out@;
        assert(rows@.questions[i as int] == q@);
        if q.task_id == task_id && q.step_id == step_id && same(q.status.as_str(), "open") {
            let who: Option<String> = match q.run_id {
                None => None,
                Some(id) => match find_agent_run_by_id(&rows.agent_runs, id) {
                    Some(k) => Some(rows.agent_runs[k].public_handle.clone()),
                    None => None,
                },
            };
            assert(opt_view(who) == asker(rows@, q@));
            out.push(who);
            assert(opt_texts(out@) =~= opt_texts(had).push(opt_view(who)));
        }
        i = i + 1;
    }
    out
}

/// Whether a list is exactly what is expected, in whatever order.
pub open spec fn set_expected(
    actual: Seq<Seq<char>>,
    expected: Seq<VersionView>,
    label: Seq<char>,
) -> Result<(), ProblemView> {
    if actual.to_set() == handles_of(expected).to_set() {
        Ok(())
    } else {
        Err(ProblemView::InvalidEnvelope("expected "@ + label + " 并发前提不完整"@))
    }
}

pub(crate) fn within(a: &Vec<String>, b: &Vec<String>) -> (r: bool)
    ensures
        r == texts(a@).to_set().subset_of(texts(b@).to_set()),
{
    let ghost x = texts(a@);
    let ghost y = texts(b@);
    let mut i: usize = 0;
    while i < a.len()
        invariant
            i <= a@.len(),
            x == texts(a@),
            y == texts(b@),
            forall|k: int| 0 <= k < i ==> y.contains(#[trigger] x[k]),
        decreases a@.len() - i,
    {
        assert(x[i as int] == a@[i as int]@);
        if !list_has(b, a[i].as_str()) {
            assert(x.to_set().contains(x[i as int]));
            assert(!y.to_set().contains(x[i as int]));
            return false;
        }
        i = i + 1;
    }
    assert(x.to_set().subset_of(y.to_set())) by {
        assert forall|h: Seq<char>| x.to_set().contains(h) implies y.to_set().contains(h) by {
            let k = choose|k: int| 0 <= k < x.len() && x[k] == h;
            assert(y.contains(x[k]));
        }
    }
    true
}

pub(crate) fn same_set(a: &Vec<String>, b: &Vec<String>) -> (r: bool)
    ensures
        r == (texts(a@).to_set() == texts(b@).to_set()),
{
    let r: bool = within(a, b) && within(b, a);
    proof {
        if r {
            assert(texts(a@).to_set() =~= texts(b@).to_set());
        }
    }
    r
}

fn ensure_set(actual: &Vec<String>, expected: &Vec<String>, label: &str) -> (r: Result<
    (),
    CommandProblem,
>)
    ensures
        outcome(r) == (if texts(actual@).to_set() == texts(expected@).to_set() {
            Ok::<(), ProblemView>(())
        } else {
            Err(ProblemView::InvalidEnvelope("expected "@ + label@ + " 并发前提不完整"@))
        }),
{
    if same_set(actual, expected) {
        Ok(())
    } else {
        Err(CommandProblem::InvalidEnvelope(cat3("expected ", label, " 并发前提不完整")))
    }
}

/// The members of a list, each once.
fn distinct(v: &Vec<String>) -> (r: Vec<String>)
    ensures
        texts(r@).no_duplicates(),
        texts(r@).to_set() == texts(v@).to_set(),
        r@.len() == texts(v@).to_set().len(),
        r@.len() <= v@.len(),
{
    let ghost all = texts(v@);
    let mut out: Vec<String> = Vec::new();
    let mut i: usize = 0;
    assert(texts(out@) =~= seq![]);
    assert(all.take(0).to_set() =~= Set::empty());
    assert(texts(out@).to_set() =~= Set::empty());
    while i < v.len()
        invariant
            i <= v@.len(),
            out@.len() <= i,
            all == texts(v@),
            texts(out@).no_duplicates(),
            texts(out@).to_set() == all.take(i as int).to_set(),
        decreases v@.len() - i,
    {
        let ghost had = texts(out@);
        let ghost h = all[i as int];
        assert(h == v@[i as int]@);
        assert(all.take(i + 1) =~= all.take(i as int).push(h));
        proof {
            lemma_push_set(all.take(i as int), h);
            lemma_push_set(had, h);
        }
        if !list_has(&out, v[i].as_str()) {
            out.push(v[i].clone());
            assert(texts(out@) =~= had.push(h));
        } else {
            assert(had.to_set().insert(h) =~= had.to_set());
        }
        i = i + 1;
    }
    assert(all.take(i as int) =~= all);
    proof {
        texts(out@).unique_seq_to_set();
    }
    out
}

proof fn lemma_push_set(v: Seq<Seq<char>>, h: Seq<char>)
    ensures
        v.push(h).to_set() == v.to_set().insert(h),
{
    assert forall|x: Seq<char>| #[trigger]
        v.push(h).to_set().contains(x) <==> v.to_set().insert(h).contains(x) by {
        if v.push(h).contains(x) {
            let k = choose|k: int| 0 <= k < v.push(h).len() && v.push(h)[k] == x;
            if k < v.len() {
                assert(v[k] == x);
            }
        }
        if v.contains(x) {
            let k = choose|k: int| 0 <= k < v.len() && v[k] == x;
            assert(v.push(h)[k] == x);
        }
        if x == h {
            assert(v.push(h)[v.len() as int] == x);
        }
    }
    assert(v.push(h).to_set() =~= v.to_set().insert(h));
}

/// The first step with that handle in a run, from a place on.
pub open spec fn step_in(
    steps: Seq<RunStepView>,
    handle: Seq<char>,
    task_id: i64,
    from: int,
) -> Option<RunStepView>
    decreases steps.len() - from,
{
    if from >= steps.len() {
        None
    } else if steps[from].public_handle == handle && steps[from].task_id == task_id {
        Some(steps[from])
    } else {
        step_in(steps, handle, task_id, from + 1)
    }
}

fn find_step_in(steps: &Vec<StepRow>, handle: &str, task_id: i64) -> (r: Option<usize>)
    ensures
        match r {
            Some(i) => i < steps@.len() && step_in(steps_view(steps@), handle@, task_id, 0) == Some(
                steps@[i as int]@,
            ),
            None => step_in(steps_view(steps@), handle@, task_id, 0) is None,
        },
{
    let ghost all = steps_view(steps@);
    let mut i: usize = 0;
    while i < steps.len()
        invariant
            i <= steps@.len(),
            all == steps_view(steps@),
            step_in(all, handle@, task_id, 0) == step_in(all, handle@, task_id, i as int),
        decreases steps@.len() - i,
    {
        assert(all[i as int] == steps@[i as int]@);
        if same(steps[i].public_handle.as_str(), handle) && steps[i].task_id == task_id {
            return Some(i);
        }
        i = i + 1;
    }
    None
}

/// The first agent run with that handle in a run, from a place on.
pub open spec fn agent_run_in(
    runs: Seq<AgentRunView>,
    handle: Seq<char>,
    task_id: i64,
    from: int,
) -> Option<AgentRunView>
    decreases runs.len() - from,
{
    if from >= runs.len() {
        None
    } else if runs[from].public_handle == handle && runs[from].task_id == task_id {
        Some(runs[from])
    } else {
        agent_run_in(runs, handle, task_id, from + 1)
    }
}

fn find_agent_run_in(runs: &Vec<AgentRunRow>, handle: &str, task_id: i64) -> (r: Option<usize>)
    ensures
        match r {
            Some(i) => i < runs@.len() && agent_run_in(
                agent_runs_view(runs@),
                handle@,
                task_id,
                0,
            ) == Some(runs@[i as int]@),
            None => agent_run_in(agent_runs_view(runs@), handle@, task_id, 0) is None,
        },
{
    let ghost all = agent_runs_view(runs@);
    let mut i: usize = 0;
    while i < runs.len()
        invariant
            i <= runs@.len(),
            all == agent_runs_view(runs@),
            agent_run_in(all, handle@, task_id, 0) == agent_run_in(
                all,
                handle@,
                task_id,
                i as int,
            ),
        decreases runs@.len() - i,
    {
        assert(all[i as int] == runs@[i as int]@);
        if same(runs[i].public_handle.as_str(), handle) && runs[i].task_id == task_id {
            return Some(i);
        }
        i = i + 1;
    }
    None
}

/// Whether agent runs and their sessions are exactly those expected.
pub open spec fn runs_expected(
    rows: RowsView,
    runs: Seq<Seq<char>>,
    expected: RunExpectedView,
) -> Result<(), ProblemView> {
    match set_expected(runs, expected.agent_runs, "Agent Run"@) {
        Err(p) => Err(p),
        Ok(_) => set_expected(
            sessions_of(rows, runs, runs.len()),
            expected.agent_sessions,
            "Agent Session"@,
        ),
    }
}

fn ensure_runs(rows: &ProjectRows, runs: &Vec<String>, expected: &WorkflowRunExpected) -> (r:
    Result<(), CommandProblem>)
    ensures
        outcome(r) == runs_expected(rows@, texts(runs@), expected@),
{
    match ensure_set(runs, &handles_of_agent_runs(&expected.agent_runs), "Agent Run") {
        Ok(_) => {},
        Err(p) => {
            return Err(p);
        },
    }
    ensure_set(
        &list_sessions_of(rows, runs),
        &handles_of_agent_sessions(&expected.agent_sessions),
        "Agent Session",
    )
}

/// Whether a cancellation lists every open step, every agent run under way and their
/// sessions.
pub open spec fn cancel_scope(rows: RowsView, task: TaskView, expected: RunExpectedView) -> Result<
    (),
    ProblemView,
> {
    match set_expected(
        open_steps(rows.steps, task.active_revision, rows.steps.len()),
        expected.steps,
        "Step"@,
    ) {
        Err(p) => Err(p),
        Ok(_) => runs_expected(
            rows,
            runs_of_task(rows.agent_runs, task.id, rows.agent_runs.len()),
            expected,
        ),
    }
}

/// Whether another try of a step lists the agent runs under way and their sessions. One
/// that goes on in a session may list one more, which has to be alive.
pub open spec fn retry_scope(
    rows: RowsView,
    step_id: i64,
    mode: RetryMode,
    expected: RunExpectedView,
) -> Result<(), ProblemView> {
    let runs = runs_of_step(rows.agent_runs, step_id, rows.agent_runs.len());
    let active = sessions_of(rows, runs, runs.len());
    let wanted = handles_of(expected.agent_sessions);
    match set_expected(runs, expected.agent_runs, "Agent Run"@) {
        Err(p) => Err(p),
        Ok(_) => match mode {
            RetryMode::FreshSession => set_expected(
                active,
                expected.agent_sessions,
                "Agent Session"@,
            ),
            RetryMode::ContinueSession => if !active.to_set().subset_of(wanted.to_set())
                || wanted.to_set().len() > active.to_set().len() + 1 {
                Err(
                    ProblemView::InvalidEnvelope(
                        "ContinueSession expected 必须包含 active session，且至多增加一个继续目标"@,
                    ),
                )
            } else if !wanted.to_set().subset_of(
                live_sessions(rows, step_id, rows.agent_runs.len()).to_set(),
            ) {
                Err(
                    ProblemView::InvalidEnvelope(
                        "ContinueSession expected 含不属于该 Step 的存活会话"@,
                    ),
                )
            } else {
                Ok(())
            },
        },
    }
}

/// Whether a step that is to be skipped has failed or is blocked, and its agent runs
/// are listed.
pub open spec fn skip_scope(rows: RowsView, step: RunStepView, expected: RunExpectedView) -> Result<
    (),
    ProblemView,
> {
    if step.status != "failed"@ && step.status != "blocked"@ {
        Err(ProblemView::InvalidEnvelope("skip 目标 Step 必须处于 failed/blocked"@))
    } else {
        runs_expected(
            rows,
            runs_of_step(rows.agent_runs, step.id, rows.agent_runs.len()),
            expected,
        )
    }
}

/// Whether a step that is to be answered has exactly one open question, waits for it,
/// and the agent run that asks is listed.
pub open spec fn respond_scope(
    rows: RowsView,
    task: TaskView,
    step: RunStepView,
    expected: RunExpectedView,
) -> Result<(), ProblemView> {
    let askers = open_askers(rows, task.id, step.id, rows.questions.len());
    if askers.len() != 1 {
        Err(ProblemView::InvalidEnvelope("respond 要求目标 Step 恰有一个 open question"@))
    } else if step.status != "needs-input"@ {
        Err(ProblemView::InvalidEnvelope("respond 目标 Step 必须处于 needs-input"@))
    } else {
        runs_expected(
            rows,
            match askers[0] {
                Some(run) => seq![run],
                None => seq![],
            },
            expected,
        )
    }
}

/// Whether an agent run that is to be settled belongs to the step as the plan has it
/// now, and is listed.
pub open spec fn settle_scope(
    rows: RowsView,
    task: TaskView,
    step: RunStepView,
    agent_run: Seq<char>,
    expected: RunExpectedView,
) -> Result<(), ProblemView> {
    match agent_run_in(rows.agent_runs, agent_run, task.id, 0) {
        None => Err(ProblemView::ResourceNotFound),
        Some(run) => match step_by_id(rows.steps, run.step_id, 0) {
            None => Err(ProblemView::ResourceNotFound),
            Some(own) => if task.active_revision != Some(step.revision_id) || own.step_key
                != step.step_key {
                Err(ProblemView::ResourceNotFound)
            } else {
                runs_expected(rows, seq![agent_run], expected)
            },
        },
    }
}

/// Whether a command on a run lists everything that it touches, and nothing else.
pub open spec fn run_scope(rows: RowsView, c: RunCommandView) -> Result<(), ProblemView> {
    match c.run() {
        None => Ok(()),
        Some((workflow_run, expected)) => match task_by_handle(rows.tasks, workflow_run, 0) {
            None => Err(ProblemView::ResourceNotFound),
            Some(task) => match c.step() {
                None => cancel_scope(rows, task, expected),
                Some(handle) => match step_in(rows.steps, handle, task.id, 0) {
                    None => Err(ProblemView::ResourceNotFound),
                    Some(step) => match set_expected(seq![handle], expected.steps, "Step"@) {
                        Err(p) => Err(p),
                        Ok(_) => match c {
                            RunCommandView::RetryStep { mode, .. } => retry_scope(
                                rows,
                                step.id,
                                mode,
                                expected,
                            ),
                            RunCommandView::SkipStep { .. } => skip_scope(rows, step, expected),
                            RunCommandView::Respond { .. } => respond_scope(
                                rows,
                                task,
                                step,
                                expected,
                            ),
                            RunCommandView::Settle { agent_run, .. } => settle_scope(
                                rows,
                                task,
                                step,
                                agent_run,
                                expected,
                            ),
                            _ => Ok(()),
                        },
                    },
                },
            },
        },
    }
}

fn one_text(s: &str) -> (r: Vec<String>)
    ensures
        texts(r@) == seq![s@],
{
    let mut out: Vec<String> = Vec::new();
    out.push(s.to_owned());
    assert(texts(out@) =~= seq![s@]);
    out
}

fn check_retry(
    rows: &ProjectRows,
    step_id: i64,
    mode: RetryMode,
    expected: &WorkflowRunExpected,
) -> (r:
    Result<(), CommandProblem>)
    ensures
        outcome(r) == retry_scope(rows@, step_id, mode, expected@),
{
    let runs: Vec<String> = list_runs_of_step(&rows.agent_runs, step_id);
    match ensure_set(&runs, &handles_of_agent_runs(&expected.agent_runs), "Agent Run") {
        Ok(_) => {},
        Err(p) => {
            return Err(p);
        },
    }
    let active: Vec<String> = list_sessions_of(rows, &runs);
    let wanted: Vec<String> = handles_of_agent_sessions(&expected.agent_sessions);
    match mode {
        RetryMode::FreshSession => ensure_set(&active, &wanted, "Agent Session"),
        RetryMode::ContinueSession => {
            let wanted_count: usize = distinct(&wanted).len();
            let active_count: usize = distinct(&active).len();
            if !within(&active, &wanted) || wanted_count > active_count.saturating_add(1) {
                return Err(
                    CommandProblem::invalid(
                        "ContinueSession expected 必须包含 active session，且至多增加一个继续目标",
                    ),
                );
            }
            if !within(&wanted, &list_live_sessions(rows, step_id)) {
                return Err(
                    CommandProblem::invalid(
                        "ContinueSession expected 含不属于该 Step 的存活会话",
                    ),
                );
            }
            Ok(())
        },
    }
}

fn check_respond(
    rows: &ProjectRows,
    task_id: i64,
    step: &StepRow,
    expected: &WorkflowRunExpected,
    Ghost(task): Ghost<TaskView>,
) -> (r: Result<(), CommandProblem>)
    requires
        task.id == task_id,
    ensures
        outcome(r) == respond_scope(rows@, task, step@, expected@),
{
    let askers: Vec<Option<String>> = list_open_askers(rows, task_id, step.id);
    assert(opt_texts(askers@).len() == askers@.len());
    if askers.len() != 1 {
        return Err(CommandProblem::invalid("respond 要求目标 Step 恰有一个 open question"));
    }
    if !same(step.status.as_str(), "needs-input") {
        return Err(CommandProblem::invalid("respond 目标 Step 必须处于 needs-input"));
    }
    assert(opt_texts(askers@)[0] == opt_view(askers@[0]));
    let mut runs: Vec<String> = Vec::new();
    assert(texts(runs@) =~= seq![]);
    if let Some(run) = &askers[0] {
        runs.push(run.clone());
        assert(texts(runs@) =~= seq![run@]);
    }
    ensure_runs(rows, &runs, expected)
}

/// Checks that a command on a run lists everything that it touches, and nothing else.
pub fn validate_workflow_run_scope(rows: &ProjectRows, command: &WorkflowRunCommand) -> (r: Result<
    (),
    CommandProblem,
>)
    ensures
        outcome(r) == run_scope(rows@, command@),
{
    let (workflow_run, expected) = match command.run() {
        Some(pair) => pair,
        None => {
            return Ok(());
        },
    };
    let t: usize = match find_task_by_handle(&rows.tasks, workflow_run.as_str()) {
        Some(t) => t,
        None => {
            return Err(CommandProblem::ResourceNotFound);
        },
    };
    let ghost task = rows.tasks@[t as int]@;
    let task_id: i64 = rows.tasks[t].id;
    let active_revision: Option<i64> = rows.tasks[t].active_revision;
    let handle: &StepHandle = match command.step() {
        Some(handle) => handle,
        None => {
            match ensure_set(
                &list_open_steps(&rows.steps, active_revision),
                &handles_of_steps(&expected.steps),
                "Step",
            ) {
                Ok(_) => {},
                Err(p) => {
                    return Err(p);
                },
            }
            return ensure_runs(rows, &list_runs_of_task(&rows.agent_runs, task_id), expected);
        },
    };
    let s: usize = match find_step_in(&rows.steps, handle.as_str(), task_id) {
        Some(s) => s,
        None => {
            return Err(CommandProblem::ResourceNotFound);
        },
    };
    let step: &StepRow = &rows.steps[s];
    match ensure_set(&one_text(handle.as_str()), &handles_of_steps(&expected.steps), "Step") {
        Ok(_) => {},
        Err(p) => {
            return Err(p);
        },
    }
    match command {
        WorkflowRunCommand::RetryStep { mode, .. } => check_retry(rows, step.id, *mode, expected),
        WorkflowRunCommand::SkipStep { .. } => {
            if !same(step.status.as_str(), "failed") && !same(step.status.as_str(), "blocked") {
                return Err(CommandProblem::invalid("skip 目标 Step 必须处于 failed/blocked"));
            }
            ensure_runs(rows, &list_runs_of_step(&rows.agent_runs, step.id), expected)
        },
        WorkflowRunCommand::Respond { .. } => check_respond(
            rows,
            task_id,
            step,
            expected,
            Ghost(task),
        ),
        WorkflowRunCommand::Settle { agent_run, .. } => {
            let own: usize = match find_agent_run_in(
                &rows.agent_runs,
                agent_run.as_str(),
                task_id,
            ) {
                Some(k) => match find_step_by_id(&rows.steps, rows.agent_runs[k].step_id) {
                    Some(own) => own,
                    None => {
                        return Err(CommandProblem::ResourceNotFound);
                    },
                },
                None => {
                    return Err(CommandProblem::ResourceNotFound);
                },
            };
            if active_revision != Some(step.revision_id) || !same(
                rows.steps[own].step_key.as_str(),
                step.step_key.as_str(),
            ) {
                return Err(CommandProblem::ResourceNotFound);
            }
            ensure_runs(rows, &one_text(agent_run.as_str()), expected)
        },
        _ => Ok(()),
    }
}

/// A cancellation that is let through lists every agent run that is under way: none of
/// them goes on unseen.
pub proof fn law_a_cancellation_covers_every_run(
    rows: RowsView,
    c: RunCommandView,
    at: int,
)
    requires
        c is Cancel,
        run_scope(rows, c) is Ok,
        0 <= at < rows.agent_runs.len(),
        run_active(rows.agent_runs[at].status),
        task_by_handle(rows.tasks, (c.run()->0).0, 0) matches Some(task)
            && rows.agent_runs[at].task_id == task.id,
    ensures
        crate::run_command::listed((c.run()->0).1.agent_runs, rows.agent_runs[at].public_handle),
{
    let (run, expected) = c.run()->0;
    let task = task_by_handle(rows.tasks, run, 0)->0;
    let runs = runs_of_task(rows.agent_runs, task.id, rows.agent_runs.len());
    let h = rows.agent_runs[at].public_handle;
    lemma_run_is_listed(rows.agent_runs, task.id, rows.agent_runs.len(), at);
    assert(runs.to_set().contains(h));
    assert(handles_of(expected.agent_runs).to_set().contains(h));
    let k = choose|k: int|
        0 <= k < handles_of(expected.agent_runs).len() && handles_of(expected.agent_runs)[k] == h;
    assert(expected.agent_runs[k].handle == h);
}

proof fn lemma_run_is_listed(runs: Seq<AgentRunView>, task_id: i64, n: nat, at: int)
    requires
        0 <= at < n <= runs.len(),
        runs[at].task_id == task_id,
        run_active(runs[at].status),
    ensures
        runs_of_task(runs, task_id, n).contains(runs[at].public_handle),
    decreases n,
{
    let all = runs_of_task(runs, task_id, n);
    let rest = runs_of_task(runs, task_id, (n - 1) as nat);
    if at < n - 1 {
        lemma_run_is_listed(runs, task_id, (n - 1) as nat, at);
        let k = choose|k: int| 0 <= k < rest.len() && rest[k] == runs[at].public_handle;
        assert(all[k] == runs[at].public_handle);
    } else {
        assert(all[all.len() - 1] == runs[at].public_handle);
    }
}

} // verus!
