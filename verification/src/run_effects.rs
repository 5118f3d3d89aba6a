//! What a command on a run does: the change that its store is asked for, and the events
//! that come of it.

use crate::command::{CommandProblem, ProblemView};
use crate::dispatch::{changes, EffectOutput, EffectView, ProjectionChange, ProjectionEffect};
use crate::handles::{
    axes, expectations, outcome, AgentRunHandle, AgentSessionHandle, AggregateKind, AggregateRef,
    AggregateView, ExpectedRevision, ExpectedView,
};
use crate::json::{
    fields, items_view, number, object, opt_text_view, opt_txt, put, signed_view, txt, Json,
    JsonView,
};
use crate::project_rows::{
    agent_run_by_handle, find_agent_run_by_handle, find_session_by_handle, find_session_by_id,
    find_step_by_handle, find_step_by_id, find_task_by_handle, questions_view, session_by_handle,
    step_by_handle, step_by_id, task_by_handle, AgentRunRow, AgentRunView, AgentSessionView,
    ProjectRows, QuestionRow, QuestionView, RowsView, RunStepView, SessionRow, StepRow, TaskRow,
    TaskView,
};
use crate::run_command::{
    texts_json, texts_value, RetryMode, RunCommandView, Settlement, SettlementView,
    WorkflowRunCommand,
};
use crate::run_scope::{
    handles_of, handles_of_agent_runs, handles_of_agent_sessions, run_scope, same_set, session_of,
    validate_workflow_run_scope,
};
use crate::text::{cat, cat3, copy_opt, decimal, decimal_text, list_has, opt_view, same, texts};
use vstd::prelude::*;
use vstd::string::*;

verus! {

/// What clients see of a run.
pub open spec fn task_json(row: TaskView) -> JsonView {
    JsonView::Object(
        seq![
            ("public_handle"@, JsonView::Text(row.public_handle)),
            ("revision"@, signed_view(row.revision as int)),
            ("title"@, JsonView::Text(row.title)),
            ("goal"@, JsonView::Text(row.goal)),
            ("status"@, JsonView::Text(row.status)),
            ("paused"@, row.paused),
            ("unread"@, row.unread),
        ],
    )
}

fn task_value(row: &TaskRow) -> (r: Json)
    ensures
        r@ == task_json(row@),
{
    let mut f: Vec<(String, Json)> = fields();
    put(&mut f, "public_handle", txt(row.public_handle.as_str()));
    put(&mut f, "revision", number(row.revision));
    put(&mut f, "title", txt(row.title.as_str()));
    put(&mut f, "goal", txt(row.goal.as_str()));
    put(&mut f, "status", txt(row.status.as_str()));
    put(&mut f, "paused", row.paused.copy());
    put(&mut f, "unread", row.unread.copy());
    let out: Json = object(f);
    assert(out@->Object_0 =~= task_json(row@)->Object_0);
    out
}

/// What clients see of a step.
pub open spec fn step_json(row: RunStepView) -> JsonView {
    JsonView::Object(
        seq![
            ("public_handle"@, JsonView::Text(row.public_handle)),
            ("revision"@, signed_view(row.revision as int)),
            ("key"@, JsonView::Text(row.step_key)),
            ("title"@, JsonView::Text(row.title)),
            ("status"@, JsonView::Text(row.status)),
            ("attempts"@, row.attempts),
            ("auto_retry"@, row.auto_retry),
            ("result"@, row.result),
            ("dependencies"@, texts_json(row.dependencies)),
        ],
    )
}

fn step_value(row: &StepRow) -> (r: Json)
    ensures
        r@ == step_json(row@),
{
    let mut f: Vec<(String, Json)> = fields();
    put(&mut f, "public_handle", txt(row.public_handle.as_str()));
    put(&mut f, "revision", number(row.revision));
    put(&mut f, "key", txt(row.step_key.as_str()));
    put(&mut f, "title", txt(row.title.as_str()));
    put(&mut f, "status", txt(row.status.as_str()));
    put(&mut f, "attempts", row.attempts.copy());
    put(&mut f, "auto_retry", row.auto_retry.copy());
    put(&mut f, "result", row.result.copy());
    put(&mut f, "dependencies", texts_value(&row.dependencies));
    let out: Json = object(f);
    assert(out@->Object_0 =~= step_json(row@)->Object_0);
    out
}

/// What clients see of a session.
pub open spec fn session_json(row: AgentSessionView) -> JsonView {
    JsonView::Object(
        seq![
            ("public_handle"@, JsonView::Text(row.public_handle)),
            ("revision"@, signed_view(row.revision as int)),
            ("runtime"@, row.runtime),
            ("title"@, JsonView::Text(row.title)),
            ("status"@, JsonView::Text(row.status)),
            ("unread"@, row.unread),
        ],
    )
}

fn session_value(row: &SessionRow) -> (r: Json)
    ensures
        r@ == session_json(row@),
{
    let mut f: Vec<(String, Json)> = fields();
    put(&mut f, "public_handle", txt(row.public_handle.as_str()));
    put(&mut f, "revision", number(row.revision));
    put(&mut f, "runtime", row.runtime.copy());
    put(&mut f, "title", txt(row.title.as_str()));
    put(&mut f, "status", txt(row.status.as_str()));
    put(&mut f, "unread", row.unread.copy());
    let out: Json = object(f);
    assert(out@->Object_0 =~= session_json(row@)->Object_0);
    out
}

/// What clients see of an agent run. Its token is not part of it.
pub open spec fn agent_run_json(
    row: AgentRunView,
    step: Seq<char>,
    session: Option<Seq<char>>,
) -> JsonView {
    JsonView::Object(
        seq![
            ("public_handle"@, JsonView::Text(row.public_handle)),
            ("revision"@, signed_view(row.revision as int)),
            ("step_handle"@, JsonView::Text(step)),
            ("session_handle"@, opt_text_view(session)),
            ("status"@, JsonView::Text(row.status)),
            ("agent_state"@, row.agent_state),
            ("outcome"@, opt_text_view(row.outcome)),
            ("outcome_payload"@, row.outcome_payload),
            ("started_at"@, row.started_at),
            ("ended_at"@, row.ended_at),
        ],
    )
}

fn agent_run_value(row: &AgentRunRow, step: &str, session: Option<String>) -> (r: Json)
    ensures
        r@ == agent_run_json(row@, step@, opt_view(session)),
{
    let mut f: Vec<(String, Json)> = fields();
    put(&mut f, "public_handle", txt(row.public_handle.as_str()));
    put(&mut f, "revision", number(row.revision));
    put(&mut f, "step_handle", txt(step));
    put(&mut f, "session_handle", opt_txt(&session));
    put(&mut f, "status", txt(row.status.as_str()));
    put(&mut f, "agent_state", row.agent_state.copy());
    put(&mut f, "outcome", opt_txt(&row.outcome));
    put(&mut f, "outcome_payload", row.outcome_payload.copy());
    put(&mut f, "started_at", row.started_at.copy());
    put(&mut f, "ended_at", row.ended_at.copy());
    let out: Json = object(f);
    assert(out@->Object_0 =~= agent_run_json(row@, step@, opt_view(session))->Object_0);
    out
}

/// A stored revision as clients see it.
pub open spec fn seen_revision(revision: i64, json: JsonView, what: Seq<char>) -> Result<
    (u64, JsonView),
    ProblemView,
> {
    if revision < 0 {
        Err(ProblemView::Internal(what + " revision 溢出"@))
    } else {
        Ok((revision as u64, json))
    }
}

fn see_revision(revision: i64, json: Json, what: &str) -> (r: Result<(u64, Json), CommandProblem>)
    ensures
        snapshot_view(r) == seen_revision(revision, json@, what@),
{
    if revision < 0 {
        Err(CommandProblem::Internal(cat(what, " revision 溢出")))
    } else {
        Ok((revision as u64, json))
    }
}

/// The view of a revision and what goes with it.
pub open spec fn snapshot_view(r: Result<(u64, Json), CommandProblem>) -> Result<
    (u64, JsonView),
    ProblemView,
> {
    match r {
        Ok((n, j)) => Ok((n, j@)),
        Err(p) => Err(p@),
    }
}

/// The revision of something of a run, and what clients see of it.
pub open spec fn run_snapshot(rows: RowsView, a: AggregateView) -> Result<
    (u64, JsonView),
    ProblemView,
> {
    match a.kind {
        AggregateKind::WorkflowRun => match task_by_handle(rows.tasks, a.handle, 0) {
            None => Err(ProblemView::ResourceNotFound),
            Some(row) => seen_revision(row.revision, task_json(row), "Workflow Run"@),
        },
        AggregateKind::Step => match step_by_handle(rows.steps, a.handle, 0) {
            None => Err(ProblemView::ResourceNotFound),
            Some(row) => seen_revision(row.revision, step_json(row), "Step"@),
        },
        AggregateKind::AgentSession => match session_by_handle(rows.sessions, a.handle, 0) {
            None => Err(ProblemView::ResourceNotFound),
            Some(row) => seen_revision(row.revision, session_json(row), "Agent Session"@),
        },
        AggregateKind::AgentRun => match agent_run_by_handle(rows.agent_runs, a.handle, 0) {
            None => Err(ProblemView::ResourceNotFound),
            Some(row) => if row.revision < 0 {
                Err(ProblemView::Internal("Agent Run revision 溢出"@))
            } else {
                match step_by_id(rows.steps, row.step_id, 0) {
                    None => Err(ProblemView::Internal("Query returned no rows"@)),
                    Some(step) => Ok(
                        (
                            row.revision as u64,
                            agent_run_json(row, step.public_handle, session_of(rows, row)),
                        ),
                    ),
                }
            },
        },
        _ => Err(ProblemView::InvalidEnvelope("run projection aggregate 非法"@)),
    }
}

/// The revision of something of a run, and what clients see of it.
pub fn run_aggregate_snapshot(rows: &ProjectRows, aggregate: &AggregateRef) -> (r: Result<
    (u64, Json),
    CommandProblem,
>)
    ensures
        snapshot_view(r) == run_snapshot(rows@, aggregate@),
{
    let handle: &str = aggregate.handle.as_str();
    match aggregate.kind {
        AggregateKind::WorkflowRun => match find_task_by_handle(&rows.tasks, handle) {
            None => Err(CommandProblem::ResourceNotFound),
            Some(i) => see_revision(
                rows.tasks[i].revision,
                task_value(&rows.tasks[i]),
                "Workflow Run",
            ),
        },
        AggregateKind::Step => match find_step_by_handle(&rows.steps, handle) {
            None => Err(CommandProblem::ResourceNotFound),
            Some(i) => see_revision(
                rows.steps[i].revision,
                step_value(&rows.steps[i]),
                "Step",
            ),
        },
        AggregateKind::AgentSession => match find_session_by_handle(&rows.sessions, handle) {
            None => Err(CommandProblem::ResourceNotFound),
            Some(i) => see_revision(
                rows.sessions[i].revision,
                session_value(&rows.sessions[i]),
                "Agent Session",
            ),
        },
        AggregateKind::AgentRun => match find_agent_run_by_handle(&rows.agent_runs, handle) {
            None => Err(CommandProblem::ResourceNotFound),
            Some(i) => {
                let row: &AgentRunRow = &rows.agent_runs[i];
                if row.revision < 0 {
                    return Err(CommandProblem::Internal("Agent Run revision 溢出".to_owned()));
                }
                let step: usize = match find_step_by_id(&rows.steps, row.step_id) {
                    Some(s) => s,
                    None => {
                        return Err(
                            CommandProblem::Internal("Query returned no rows".to_owned()),
                        );
                    },
                };
                let session: Option<String> = match row.session_id {
                    None => None,
                    Some(id) => match find_session_by_id(&rows.sessions, id) {
                        Some(s) => Some(rows.sessions[s].public_handle.clone()),
                        None => None,
                    },
                };
                assert(opt_view(session) == session_of(rows@, row@));
                Ok(
                    (
                        row.revision as u64,
                        agent_run_value(row, rows.steps[step].public_handle.as_str(), session),
                    ),
                )
            },
        },
        _ => Err(CommandProblem::invalid("run projection aggregate 非法")),
    }
}

/// The revision under an axis, if there is one.
pub open spec fn axis_of(revisions: Seq<(Seq<char>, nat)>, axis: Seq<char>, from: int) -> Option<
    nat,
>
    decreases revisions.len() - from,
{
    if from >= revisions.len() {
        None
    } else if revisions[from].0 == axis {
        Some(revisions[from].1)
    } else {
        axis_of(revisions, axis, from + 1)
    }
}

fn revision_on(revisions: &Vec<(String, u64)>, axis: &str) -> (r: Option<u64>)
    ensures
        match r {
            Some(n) => axis_of(axes(revisions@), axis@, 0) == Some(n as nat),
            None => axis_of(axes(revisions@), axis@, 0) is None,
        },
{
    let ghost all = axes(revisions@);
    let mut i: usize = 0;
    while i < revisions.len()
        invariant
            i <= revisions@.len(),
            all == axes(revisions@),
            axis_of(all, axis@, 0) == axis_of(all, axis@, i as int),
        decreases revisions@.len() - i,
    {
        assert(all[i as int] == (revisions@[i as int].0@, revisions@[i as int].1 as nat));
        if same(revisions[i].0.as_str(), axis) {
            return Some(revisions[i].1);
        }
        i = i + 1;
    }
    None
}

/// The change that replaces what clients see of something of a run.
pub open spec fn replacement(base: nat, revision: u64, data: JsonView) -> JsonView {
    JsonView::Object(
        seq![
            (
                "base_revision"@,
                JsonView::Object(seq![("revision"@, JsonView::Unsigned(base))]),
            ),
            (
                "aggregate_revision"@,
                JsonView::Object(seq![("revision"@, JsonView::Unsigned(revision as nat))]),
            ),
            (
                "delta"@,
                JsonView::Object(
                    seq![("mode"@, JsonView::Text("replace"@)), ("data"@, data)],
                ),
            ),
        ],
    )
}

fn one_field(name: &str, value: Json) -> (r: Json)
    ensures
        r@ == JsonView::Object(seq![(name@, value@)]),
{
    let mut f: Vec<(String, Json)> = fields();
    put(&mut f, name, value);
    let out: Json = object(f);
    assert(out@->Object_0 =~= seq![(name@, value@)]);
    out
}

fn replacement_value(base: u64, revision: u64, data: Json) -> (r: Json)
    ensures
        r@ == replacement(base as nat, revision, data@),
{
    let mut d: Vec<(String, Json)> = fields();
    put(&mut d, "mode", txt("replace"));
    put(&mut d, "data", data);
    let delta: Json = object(d);
    assert(delta@->Object_0 =~= seq![
        ("mode"@, JsonView::Text("replace"@)),
        ("data"@, data@),
    ]);
    let mut f: Vec<(String, Json)> = fields();
    put(&mut f, "base_revision", one_field("revision", Json::Unsigned(base)));
    put(&mut f, "aggregate_revision", one_field("revision", Json::Unsigned(revision)));
    put(&mut f, "delta", delta);
    let out: Json = object(f);
    assert(out@->Object_0 =~= replacement(base as nat, revision, data@)->Object_0);
    out
}

/// What comes of the first `n` aggregates that a command relied on: an event for each
/// whose revision moved, and the revision of what it acted on.
pub ghost struct Outcomes {
    pub changes: Seq<ProjectionChange>,
    pub target_revision: Option<u64>,
}

/// What comes of the first `n` aggregates that a command relied on.
pub open spec fn outcomes(
    rows: RowsView,
    expected: Seq<ExpectedView>,
    target: AggregateView,
    event_type: Seq<char>,
    n: nat,
) -> Result<Outcomes, ProblemView>
    decreases n,
{
    if n == 0 {
        Ok(Outcomes { changes: seq![], target_revision: None })
    } else {
        match outcomes(rows, expected, target, event_type, (n - 1) as nat) {
            Err(p) => Err(p),
            Ok(before) => {
                let e = expected[n - 1];
                match axis_of(e.revisions, "revision"@, 0) {
                    None => Ok(before),
                    Some(base) => match run_snapshot(rows, e.aggregate) {
                        Err(p) => Err(p),
                        Ok((revision, data)) => Ok(
                            Outcomes {
                                target_revision: if e.aggregate == target {
                                    Some(revision)
                                } else {
                                    before.target_revision
                                },
                                changes: if revision == base {
                                    before.changes
                                } else {
                                    before.changes.push(
                                        ProjectionChange {
                                            aggregate: Some(e.aggregate),
                                            event_type: Some(event_type),
                                            projection_critical: true,
                                            payload: replacement(base, revision, data),
                                            run_actions: seq![],
                                        },
                                    )
                                },
                            },
                        ),
                    },
                }
            },
        }
    }
}

/// The events and the result of a command on a run, from what its store holds after it.
/// What is still to be done goes out with the first event.
pub open spec fn run_output(
    rows: RowsView,
    expected: Seq<ExpectedView>,
    target: AggregateView,
    event_type: Seq<char>,
    actions: Seq<JsonView>,
    what: Seq<char>,
    who: Seq<char>,
) -> Result<(Seq<ProjectionChange>, u64), ProblemView> {
    match outcomes(rows, expected, target, event_type, expected.len()) {
        Err(p) => Err(p),
        Ok(o) => if actions.len() > 0 && o.changes.len() == 0 {
            Err(ProblemView::Internal(what + " 缺少可承载的权威投影"@))
        } else {
            match o.target_revision {
                None => Err(ProblemView::Internal(who + " target revision 读取失败"@)),
                Some(revision) => Ok(
                    (
                        if actions.len() > 0 {
                            o.changes.update(
                                0,
                                ProjectionChange { run_actions: actions, ..o.changes[0] },
                            )
                        } else {
                            o.changes
                        },
                        revision,
                    ),
                ),
            }
        },
    }
}

/// The view of the events and the result of a command on a run.
pub open spec fn output_view(r: Result<(Vec<ProjectionEffect>, u64), CommandProblem>) -> Result<
    (Seq<ProjectionChange>, u64),
    ProblemView,
> {
    match r {
        Ok((v, n)) => Ok((changes(v@), n)),
        Err(p) => Err(p@),
    }
}

proof fn lemma_outcomes_stop(
    rows: RowsView,
    expected: Seq<ExpectedView>,
    target: AggregateView,
    event_type: Seq<char>,
    n: nat,
    all: nat,
)
    requires
        n <= all,
        outcomes(rows, expected, target, event_type, n) is Err,
    ensures
        outcomes(rows, expected, target, event_type, all) == outcomes(
            rows,
            expected,
            target,
            event_type,
            n,
        ),
    decreases all - n,
{
    if n < all {
        lemma_outcomes_stop(rows, expected, target, event_type, n + 1, all);
    }
}

fn compile_run_output(
    rows: &ProjectRows,
    expected: &Vec<ExpectedRevision>,
    target: &AggregateRef,
    event_type: &str,
    actions: Vec<Json>,
    what: &str,
    who: &str,
) -> (r: Result<(Vec<ProjectionEffect>, u64), CommandProblem>)
    ensures
        output_view(r) == run_output(
            rows@,
            expectations(expected@),
            target@,
            event_type@,
            items_view(actions@),
            what@,
            who@,
        ),
{
    let ghost all = expectations(expected@);
    let mut projections: Vec<ProjectionEffect> = Vec::new();
    let mut target_revision: Option<u64> = None;
    let mut i: usize = 0;
    assert(changes(projections@) =~= seq![]);
    while i < expected.len()
        invariant
            i <= expected@.len(),
            all == expectations(expected@),
            outcomes(rows@, all, target@, event_type@, i as nat) == Ok::<Outcomes, ProblemView>(
                Outcomes { changes: changes(projections@), target_revision },
            ),
        decreases expected@.len() - i,
    {
        let e: &ExpectedRevision = &expected[i];
        let ghost had = projections@;
        assert(all[i as int] == e@);
        if let Some(base) = revision_on(e.revisions(), "revision") {
            let (revision, data) = match run_aggregate_snapshot(rows, e.aggregate()) {
                Ok(pair) => pair,
                Err(p) => {
                    proof {
                        lemma_outcomes_stop(
                            rows@,
                            all,
                            target@,
                            event_type@,
                            (i + 1) as nat,
                            all.len(),
                        );
                    }
                    return Err(p);
                },
            };
            if e.aggregate().same(target) {
                target_revision = Some(revision);
            }
            if revision != base {
                let effect: ProjectionEffect = ProjectionEffect {
                    aggregate: Some(e.aggregate().clone()),
                    event_type: Some(event_type.to_owned()),
                    projection_critical: true,
                    payload: replacement_value(base, revision, data),
                    run_actions: Vec::new(),
                };
                assert(effect@.run_actions =~= seq![]);
                projections.push(effect);
                assert(changes(projections@) =~= changes(had).push(effect@));
            }
        }
        i = i + 1;
    }
    if actions.len() > 0 {
        if projections.len() == 0 {
            return Err(CommandProblem::Internal(cat(what, " 缺少可承载的权威投影")));
        }
        let ghost had = projections@;
        projections[0].run_actions = actions;
        assert(changes(projections@) =~= changes(had).update(
            0,
            ProjectionChange { run_actions: items_view(actions@), ..changes(had)[0] },
        ));
    }
    match target_revision {
        None => Err(CommandProblem::Internal(cat(who, " target revision 读取失败"))),
        Some(revision) => Ok((projections, revision)),
    }
}

/// What a command on a run leaves behind: what its store holds after it is what its
/// events say, and only what moved is told.
pub proof fn law_only_what_moved_is_told(
    rows: RowsView,
    expected: Seq<ExpectedView>,
    target: AggregateView,
    event_type: Seq<char>,
    n: nat,
    k: int,
)
    requires
        n <= expected.len(),
        outcomes(rows, expected, target, event_type, n) is Ok,
        0 <= k < outcomes(rows, expected, target, event_type, n)->Ok_0.changes.len(),
    ensures
        ({
            let change = outcomes(rows, expected, target, event_type, n)->Ok_0.changes[k];
            exists|i: int, base: nat, revision: u64, data: JsonView|
                0 <= i < n && change.aggregate == Some(expected[i].aggregate) && change.payload
                    == replacement(base, revision, data) && revision != base
                    && #[trigger] told_by(rows, expected[i], base, revision, data)
        }),
    decreases n,
{
    let before = outcomes(rows, expected, target, event_type, (n - 1) as nat)->Ok_0;
    let all = outcomes(rows, expected, target, event_type, n)->Ok_0;
    if k < before.changes.len() {
        law_only_what_moved_is_told(rows, expected, target, event_type, (n - 1) as nat, k);
        assert(all.changes[k] == before.changes[k]);
        let (i, base, revision, data) = choose|i: int, base: nat, revision: u64, data: JsonView|
            0 <= i < n - 1 && before.changes[k].aggregate == Some(expected[i].aggregate)
                && before.changes[k].payload == replacement(base, revision, data) && revision
                != base && #[trigger] told_by(rows, expected[i], base, revision, data);
        assert(told_by(rows, expected[i], base, revision, data));
    } else {
        let e = expected[n - 1];
        let base = axis_of(e.revisions, "revision"@, 0)->0;
        let (revision, data) = run_snapshot(rows, e.aggregate)->Ok_0;
        assert(told_by(rows, expected[n - 1], base, revision, data));
    }
}

/// Whether what is told of an aggregate is what it was and what it is.
pub open spec fn told_by(
    rows: RowsView,
    e: ExpectedView,
    base: nat,
    revision: u64,
    data: JsonView,
) -> bool {
    &&& axis_of(e.revisions, "revision"@, 0) == Some(base)
    &&& run_snapshot(rows, e.aggregate) == Ok::<(u64, JsonView), ProblemView>((revision, data))
}

/// Whether an agent run was seen to stop.
#[derive(Debug, Clone, Copy, PartialEq, Eq, Structural)]
pub enum RunStopOutcome {
    Confirmed,
    Unconfirmed,
}

/// What came of stopping an agent run.
#[derive(Debug)]
pub struct PreparedRunStop {
    pub agent_run: AgentRunHandle,
    pub outcome: RunStopOutcome,
}

/// What came of stopping an agent run, as a value.
pub ghost struct StopView {
    pub agent_run: Seq<char>,
    pub outcome: RunStopOutcome,
}

impl View for PreparedRunStop {
    type V = StopView;

    open spec fn view(&self) -> StopView {
        StopView { agent_run: self.agent_run@, outcome: self.outcome }
    }
}

/// What came of stopping agent runs, as values.
pub open spec fn stops_view(v: Seq<PreparedRunStop>) -> Seq<StopView> {
    v.map_values(|s: PreparedRunStop| s@)
}

/// What was made ready outside the store before a command.
#[derive(Debug)]
pub enum RunPreparation {
    Ready,
    Cancel { run_stops: Vec<PreparedRunStop> },
    ContinueSessionAlive { session: AgentSessionHandle },
}

/// What was made ready outside the store, as a value.
pub ghost enum PreparationView {
    Ready,
    Cancel { run_stops: Seq<StopView> },
    ContinueSessionAlive { session: Seq<char> },
}

impl View for RunPreparation {
    type V = PreparationView;

    open spec fn view(&self) -> PreparationView {
        match *self {
            RunPreparation::Ready => PreparationView::Ready,
            RunPreparation::Cancel { run_stops } => PreparationView::Cancel {
                run_stops: stops_view(run_stops@),
            },
            RunPreparation::ContinueSessionAlive { session } =>
            PreparationView::ContinueSessionAlive { session: session@ },
        }
    }
}

/// What the store holds of an agent run's stop.
#[derive(Debug, Clone, Copy, PartialEq, Eq, Structural)]
pub struct DurableStop {
    pub run_id: i64,
    pub outcome: RunStopOutcome,
}

/// The change that a store is asked for.
pub enum RunMutation {
    Cancel { task_id: i64, run_stops: Vec<DurableStop> },
    Retry { step_id: i64, mode: RetryMode, continue_session_id: Option<i64> },
    Skip { step_id: i64 },
    Respond { question_id: i64, answer: String },
    Settle { run_id: i64, settlement: Settlement },
    ReportState { run_id: i64, state: String },
    ProposePipeline { task_id: i64, draft: Json },
}

/// The change that a store is asked for, as a value.
pub ghost enum MutationView {
    Cancel { task_id: i64, run_stops: Seq<DurableStop> },
    Retry { step_id: i64, mode: RetryMode, continue_session_id: Option<i64> },
    Skip { step_id: i64 },
    Respond { question_id: i64, answer: Seq<char> },
    Settle { run_id: i64, settlement: SettlementView },
    ReportState { run_id: i64, state: Seq<char> },
    ProposePipeline { task_id: i64, draft: JsonView },
}

impl View for RunMutation {
    type V = MutationView;

    open spec fn view(&self) -> MutationView {
        match *self {
            RunMutation::Cancel { task_id, run_stops } => MutationView::Cancel {
                task_id,
                run_stops: run_stops@,
            },
            RunMutation::Retry { step_id, mode, continue_session_id } => MutationView::Retry {
                step_id,
                mode,
                continue_session_id,
            },
            RunMutation::Skip { step_id } => MutationView::Skip { step_id },
            RunMutation::Respond { question_id, answer } => MutationView::Respond {
                question_id,
                answer: answer@,
            },
            RunMutation::Settle { run_id, settlement } => MutationView::Settle {
                run_id,
                settlement: settlement@,
            },
            RunMutation::ReportState { run_id, state } => MutationView::ReportState {
                run_id,
                state: state@,
            },
            RunMutation::ProposePipeline { task_id, draft } => MutationView::ProposePipeline {
                task_id,
                draft: draft@,
            },
        }
    }
}

/// The agent runs of stops, by their handles.
pub open spec fn stop_handles(v: Seq<StopView>) -> Seq<Seq<char>> {
    v.map_values(|s: StopView| s.agent_run)
}

/// Whether a text occurs twice in a list.
pub open spec fn repeats(v: Seq<Seq<char>>) -> bool {
    exists|i: int, j: int| 0 <= i < j < v.len() && #[trigger] v[i] == #[trigger] v[j]
}

/// The stored ids of the first `n` agent runs of a list, if each is there.
pub open spec fn run_ids(rows: RowsView, handles: Seq<Seq<char>>, n: nat) -> Option<Seq<i64>>
    decreases n,
{
    if n == 0 {
        Some(seq![])
    } else {
        match (
            run_ids(rows, handles, (n - 1) as nat),
            agent_run_by_handle(rows.agent_runs, handles[n - 1], 0),
        ) {
            (Some(ids), Some(run)) => Some(ids.push(run.id)),
            _ => None,
        }
    }
}

/// The ids of stored stops.
pub open spec fn stop_ids(v: Seq<DurableStop>) -> Seq<i64> {
    v.map_values(|s: DurableStop| s.run_id)
}

/// The change of a cancellation: every agent run that it relied on was stopped, once
/// each, and the store holds a stop for each of them.
pub open spec fn cancel_mutation(
    rows: RowsView,
    workflow_run: Seq<char>,
    expected_runs: Seq<Seq<char>>,
    preparation: PreparationView,
    durable: Seq<DurableStop>,
) -> Result<MutationView, ProblemView> {
    match preparation {
        PreparationView::Cancel { run_stops } => {
            let handles = stop_handles(run_stops);
            if repeats(handles) {
                Err(
                    ProblemView::InvalidEnvelope(
                        "cancel runtime stop 结果包含重复 Agent Run"@,
                    ),
                )
            } else if handles.to_set() != expected_runs.to_set() {
                Err(
                    ProblemView::InvalidEnvelope(
                        "expected "@ + "runtime stop Agent Run"@ + " 并发前提不完整"@,
                    ),
                )
            } else {
                match run_ids(rows, handles, handles.len()) {
                    None => Err(ProblemView::ResourceNotFound),
                    Some(ids) => if stop_ids(durable).to_set() != ids.to_set() {
                        Err(
                            ProblemView::InvalidEnvelope(
                                "cancel durable outcome 与 fenced target 不一致"@,
                            ),
                        )
                    } else {
                        match task_by_handle(rows.tasks, workflow_run, 0) {
                            None => Err(ProblemView::ResourceNotFound),
                            Some(task) => Ok(
                                MutationView::Cancel { task_id: task.id, run_stops: durable },
                            ),
                        }
                    },
                }
            }
        },
        _ => Err(
            ProblemView::InvalidEnvelope("cancel 缺少逐 Agent Run 的真实 runtime stop 结果"@),
        ),
    }
}

/// The change of another try of a step.
pub open spec fn retry_mutation(
    rows: RowsView,
    step: Seq<char>,
    mode: RetryMode,
    expected_sessions: Seq<Seq<char>>,
    preparation: PreparationView,
) -> Result<MutationView, ProblemView> {
    match step_by_handle(rows.steps, step, 0) {
        None => Err(ProblemView::ResourceNotFound),
        Some(row) => match mode {
            RetryMode::FreshSession => if preparation is Ready {
                Ok(
                    MutationView::Retry { step_id: row.id, mode, continue_session_id: None },
                )
            } else {
                Err(ProblemView::InvalidEnvelope("fresh retry prepare 结果不匹配"@))
            },
            RetryMode::ContinueSession => match preparation {
                PreparationView::ContinueSessionAlive { session } => if !expected_sessions.contains(
                    session,
                ) {
                    Err(ProblemView::InvalidEnvelope("prepare session 未列入 expected"@))
                } else {
                    match session_by_handle(rows.sessions, session, 0) {
                        None => Err(ProblemView::ResourceNotFound),
                        Some(s) => Ok(
                            MutationView::Retry {
                                step_id: row.id,
                                mode,
                                continue_session_id: Some(s.id),
                            },
                        ),
                    }
                },
                _ => Err(
                    ProblemView::InvalidEnvelope("continue retry 缺少存活 session 确认"@),
                ),
            },
        },
    }
}

/// The ids of a step's open questions, over the first `n` questions.
pub open spec fn open_questions(rows: RowsView, step_id: i64, n: nat) -> Seq<i64>
    decreases n,
{
    if n == 0 {
        seq![]
    } else {
        let rest = open_questions(rows, step_id, (n - 1) as nat);
        let q = rows.questions[n - 1];
        if q.step_id == step_id && q.status == "open"@ {
            rest.push(q.id)
        } else {
            rest
        }
    }
}

/// The step of an open question, from a place on.
pub open spec fn question_step(questions: Seq<QuestionView>, id: i64, from: int) -> Option<i64>
    decreases questions.len() - from,
{
    if from >= questions.len() {
        None
    } else if questions[from].id == id && questions[from].status == "open"@ {
        Some(questions[from].step_id)
    } else {
        question_step(questions, id, from + 1)
    }
}

/// The change of an answer. A question that is not named is the step's one open
/// question.
pub open spec fn respond_mutation(
    rows: RowsView,
    step: Seq<char>,
    question_id: i64,
    answer: Seq<char>,
    preparation: PreparationView,
) -> Result<MutationView, ProblemView> {
    if !(preparation is Ready) {
        Err(ProblemView::InvalidEnvelope("respond prepare 结果不匹配"@))
    } else {
        match step_by_handle(rows.steps, step, 0) {
            None => Err(ProblemView::ResourceNotFound),
            Some(row) => {
                let open = open_questions(rows, row.id, rows.questions.len());
                if question_id <= 0 && open.len() != 1 {
                    Err(
                        ProblemView::InvalidEnvelope(
                            "目标 Step 的 open question 数量为 "@ + decimal_text(open.len())
                                + ",须恰好一个才能匿名应答"@,
                        ),
                    )
                } else {
                    let id = if question_id <= 0 {
                        open[0]
                    } else {
                        question_id
                    };
                    match question_step(rows.questions, id, 0) {
                        None => Err(
                            ProblemView::InvalidEnvelope(
                                "目标 question 不存在、已回答或已被替换"@,
                            ),
                        ),
                        Some(own) => if own != row.id {
                            Err(
                                ProblemView::InvalidEnvelope("目标 question 不属于目标 Step"@),
                            )
                        } else {
                            Ok(MutationView::Respond { question_id: id, answer })
                        },
                    }
                }
            },
        }
    }
}

/// The change that a command on a run asks its store for.
pub open spec fn run_mutation(
    rows: RowsView,
    c: RunCommandView,
    preparation: PreparationView,
    durable: Seq<DurableStop>,
) -> Result<MutationView, ProblemView> {
    match run_scope(rows, c) {
        Err(p) => Err(p),
        Ok(_) => match c {
            RunCommandView::Start { .. } => Err(
                ProblemView::InvalidEnvelope("workflow.run start 必须由 Operation 承载"@),
            ),
            RunCommandView::Cancel { workflow_run, expected, .. } => cancel_mutation(
                rows,
                workflow_run,
                handles_of(expected.agent_runs),
                preparation,
                durable,
            ),
            RunCommandView::RetryStep { step, mode, expected, .. } => retry_mutation(
                rows,
                step,
                mode,
                handles_of(expected.agent_sessions),
                preparation,
            ),
            RunCommandView::SkipStep { step, .. } => if !(preparation is Ready) {
                Err(ProblemView::InvalidEnvelope("skip prepare 结果不匹配"@))
            } else {
                match step_by_handle(rows.steps, step, 0) {
                    None => Err(ProblemView::ResourceNotFound),
                    Some(row) => Ok(MutationView::Skip { step_id: row.id }),
                }
            },
            RunCommandView::Respond { step, question_id, answer, .. } => respond_mutation(
                rows,
                step,
                question_id,
                answer,
                preparation,
            ),
            RunCommandView::Settle { agent_run, settlement, .. } => if !(preparation is Ready) {
                Err(ProblemView::InvalidEnvelope("settle prepare 结果不匹配"@))
            } else {
                match agent_run_by_handle(rows.agent_runs, agent_run, 0) {
                    None => Err(ProblemView::ResourceNotFound),
                    Some(run) => Ok(MutationView::Settle { run_id: run.id, settlement }),
                }
            },
        },
    }
}

fn list_stop_handles(v: &Vec<PreparedRunStop>) -> (r: Vec<String>)
    ensures
        texts(r@) == stop_handles(stops_view(v@)),
{
    let ghost all = stop_handles(stops_view(v@));
    let mut out: Vec<String> = Vec::new();
    let mut i: usize = 0;
    assert(texts(out@) =~= all.take(0));
    while i < v.len()
        invariant
            i <= v@.len(),
            all == stop_handles(stops_view(v@)),
            texts(out@) == all.take(i as int),
        decreases v@.len() - i,
    {
        let ghost had = out@;
        out.push(v[i].agent_run.as_str().to_owned());
        assert(texts(out@) =~= texts(had).push(all[i as int]));
        assert(all.take(i + 1) =~= all.take(i as int).push(all[i as int]));
        i = i + 1;
    }
    assert(all.take(i as int) =~= all);
    out
}

fn has_repeats(v: &Vec<String>) -> (r: bool)
    ensures
        r == repeats(texts(v@)),
{
    let ghost all = texts(v@);
    let mut i: usize = 0;
    while i < v.len()
        invariant
            i <= v@.len(),
            all == texts(v@),
            forall|a: int, b: int|
                0 <= a < b < all.len() && a < i ==> #[trigger] all[a] != #[trigger] all[b],
        decreases v@.len() - i,
    {
        let mut j: usize = i + 1;
        while j < v.len()
            invariant
                i < j <= v@.len(),
                i < v@.len(),
                all == texts(v@),
                forall|b: int| i < b < j ==> all[i as int] != #[trigger] all[b],
            decreases v@.len() - j,
        {
            if same(v[i].as_str(), v[j].as_str()) {
                assert(all[i as int] == all[j as int]);
                return true;
            }
            j = j + 1;
        }
        i = i + 1;
    }
    false
}

fn list_run_ids(rows: &ProjectRows, handles: &Vec<String>) -> (r: Option<Vec<i64>>)
    ensures
        match r {
            Some(v) => run_ids(rows@, texts(handles@), handles@.len()) == Some(v@),
            None => run_ids(rows@, texts(handles@), handles@.len()) is None,
        },
{
    let ghost all = texts(handles@);
    let mut out: Vec<i64> = Vec::new();
    let mut i: usize = 0;
    while i < handles.len()
        invariant
            i <= handles@.len(),
            all == texts(handles@),
            run_ids(rows@, all, i as nat) == Some(out@),
        decreases handles@.len() - i,
    {
        assert(all[i as int] == handles@[i as int]@);
        match find_agent_run_by_handle(&rows.agent_runs, handles[i].as_str()) {
            Some(k) => {
                out.push(rows.agent_runs[k].id);
            },
            None => {
                proof {
                    lemma_run_ids_stop(rows@, all, (i + 1) as nat, all.len());
                }
                return None;
            },
        }
        i = i + 1;
    }
    Some(out)
}

proof fn lemma_run_ids_stop(rows: RowsView, handles: Seq<Seq<char>>, n: nat, all: nat)
    requires
        n <= all,
        run_ids(rows, handles, n) is None,
    ensures
        run_ids(rows, handles, all) is None,
    decreases all - n,
{
    if n < all {
        lemma_run_ids_stop(rows, handles, n + 1, all);
    }
}

fn holds_id(v: &Vec<i64>, id: i64) -> (r: bool)
    ensures
        r == v@.contains(id),
{
    let mut i: usize = 0;
    while i < v.len()
        invariant
            i <= v@.len(),
            forall|k: int| 0 <= k < i ==> #[trigger] v@[k] != id,
        decreases v@.len() - i,
    {
        if v[i] == id {
            return true;
        }
        i = i + 1;
    }
    false
}

fn ids_within(a: &Vec<i64>, b: &Vec<i64>) -> (r: bool)
    ensures
        r == a@.to_set().subset_of(b@.to_set()),
{
    let mut i: usize = 0;
    while i < a.len()
        invariant
            i <= a@.len(),
            forall|k: int| 0 <= k < i ==> b@.contains(#[trigger] a@[k]),
        decreases a@.len() - i,
    {
        if !holds_id(b, a[i]) {
            assert(a@.to_set().contains(a@[i as int]));
            return false;
        }
        i = i + 1;
    }
    assert(a@.to_set().subset_of(b@.to_set())) by {
        assert forall|h: i64| a@.to_set().contains(h) implies b@.to_set().contains(h) by {
            let k = choose|k: int| 0 <= k < a@.len() && a@[k] == h;
            assert(b@.contains(a@[k]));
        }
    }
    true
}

fn same_ids(a: &Vec<i64>, b: &Vec<i64>) -> (r: bool)
    ensures
        r == (a@.to_set() == b@.to_set()),
{
    let r: bool = ids_within(a, b) && ids_within(b, a);
    proof {
        if r {
            assert(a@.to_set() =~= b@.to_set());
        }
    }
    r
}

fn list_stop_ids(v: &Vec<DurableStop>) -> (r: Vec<i64>)
    ensures
        r@ == stop_ids(v@),
{
    let mut out: Vec<i64> = Vec::new();
    let mut i: usize = 0;
    assert(out@ =~= stop_ids(v@).take(0));
    while i < v.len()
        invariant
            i <= v@.len(),
            out@ == stop_ids(v@).take(i as int),
        decreases v@.len() - i,
    {
        out.push(v[i].run_id);
        assert(stop_ids(v@).take(i + 1) =~= stop_ids(v@).take(i as int).push(v@[i as int].run_id));
        i = i + 1;
    }
    assert(stop_ids(v@).take(i as int) =~= stop_ids(v@));
    out
}

/// The view of a change in a result.
pub open spec fn planned(r: Result<RunMutation, CommandProblem>) -> Result<
    MutationView,
    ProblemView,
> {
    match r {
        Ok(m) => Ok(m@),
        Err(p) => Err(p@),
    }
}

fn plan_cancel(
    rows: &ProjectRows,
    workflow_run: &str,
    expected_runs: &Vec<String>,
    preparation: &RunPreparation,
    durable: Vec<DurableStop>,
) -> (r: Result<RunMutation, CommandProblem>)
    ensures
        planned(r) == cancel_mutation(
            rows@,
            workflow_run@,
            texts(expected_runs@),
            preparation@,
            durable@,
        ),
{
    let run_stops: &Vec<PreparedRunStop> = match preparation {
        RunPreparation::Cancel { run_stops } => run_stops,
        _ => {
            return Err(
                CommandProblem::invalid("cancel 缺少逐 Agent Run 的真实 runtime stop 结果"),
            );
        },
    };
    let handles: Vec<String> = list_stop_handles(run_stops);
    if has_repeats(&handles) {
        return Err(CommandProblem::invalid("cancel runtime stop 结果包含重复 Agent Run"));
    }
    if !same_set(&handles, expected_runs) {
        return Err(
            CommandProblem::InvalidEnvelope(
                cat3("expected ", "runtime stop Agent Run", " 并发前提不完整"),
            ),
        );
    }
    let ids: Vec<i64> = match list_run_ids(rows, &handles) {
        Some(ids) => ids,
        None => {
            return Err(CommandProblem::ResourceNotFound);
        },
    };
    if !same_ids(&list_stop_ids(&durable), &ids) {
        return Err(
            CommandProblem::invalid("cancel durable outcome 与 fenced target 不一致"),
        );
    }
    match find_task_by_handle(&rows.tasks, workflow_run) {
        None => Err(CommandProblem::ResourceNotFound),
        Some(t) => Ok(RunMutation::Cancel { task_id: rows.tasks[t].id, run_stops: durable }),
    }
}

fn plan_retry(
    rows: &ProjectRows,
    step: &str,
    mode: RetryMode,
    expected_sessions: &Vec<String>,
    preparation: &RunPreparation,
) -> (r: Result<RunMutation, CommandProblem>)
    ensures
        planned(r) == retry_mutation(
            rows@,
            step@,
            mode,
            texts(expected_sessions@),
            preparation@,
        ),
{
    let step_id: i64 = match find_step_by_handle(&rows.steps, step) {
        Some(s) => rows.steps[s].id,
        None => {
            return Err(CommandProblem::ResourceNotFound);
        },
    };
    match mode {
        RetryMode::FreshSession => match preparation {
            RunPreparation::Ready => Ok(
                RunMutation::Retry { step_id, mode, continue_session_id: None },
            ),
            _ => Err(CommandProblem::invalid("fresh retry prepare 结果不匹配")),
        },
        RetryMode::ContinueSession => match preparation {
            RunPreparation::ContinueSessionAlive { session } => {
                if !list_has(expected_sessions, session.as_str()) {
                    return Err(CommandProblem::invalid("prepare session 未列入 expected"));
                }
                match find_session_by_handle(&rows.sessions, session.as_str()) {
                    None => Err(CommandProblem::ResourceNotFound),
                    Some(s) => Ok(
                        RunMutation::Retry {
                            step_id,
                            mode,
                            continue_session_id: Some(rows.sessions[s].id),
                        },
                    ),
                }
            },
            _ => Err(CommandProblem::invalid("continue retry 缺少存活 session 确认")),
        },
    }
}

fn list_open_questions(rows: &ProjectRows, step_id: i64) -> (r: Vec<i64>)
    ensures
        r@ == open_questions(rows@, step_id, rows@.questions.len()),
{
    let mut out: Vec<i64> = Vec::new();
    let mut i: usize = 0;
    while i < rows.questions.len()
        invariant
            i <= rows.questions@.len(),
            out@ == open_questions(rows@, step_id, i as nat),
        decreases rows.questions@.len() - i,
    {
        let q: &QuestionRow = &rows.questions[i];
        assert(rows@.questions[i as int] == q@);
        if q.step_id == step_id && same(q.status.as_str(), "open") {
            out.push(q.id);
        }
        i = i + 1;
    }
    out
}

fn find_question_step(questions: &Vec<QuestionRow>, id: i64) -> (r: Option<i64>)
    ensures
        r == question_step(questions_view(questions@), id, 0),
{
    let ghost all = questions_view(questions@);
    let mut i: usize = 0;
    while i < questions.len()
        invariant
            i <= questions@.len(),
            all == questions_view(questions@),
            question_step(all, id, 0) == question_step(all, id, i as int),
        decreases questions@.len() - i,
    {
        assert(all[i as int] == questions@[i as int]@);
        if questions[i].id == id && same(questions[i].status.as_str(), "open") {
            return Some(questions[i].step_id);
        }
        i = i + 1;
    }
    None
}

fn plan_respond(
    rows: &ProjectRows,
    step: &str,
    question_id: i64,
    answer: &str,
    preparation: &RunPreparation,
) -> (r: Result<RunMutation, CommandProblem>)
    ensures
        planned(r) == respond_mutation(rows@, step@, question_id, answer@, preparation@),
{
    match preparation {
        RunPreparation::Ready => {},
        _ => {
            return Err(CommandProblem::invalid("respond prepare 结果不匹配"));
        },
    }
    let step_id: i64 = match find_step_by_handle(&rows.steps, step) {
        Some(s) => rows.steps[s].id,
        None => {
            return Err(CommandProblem::ResourceNotFound);
        },
    };
    let id: i64 = if question_id <= 0 {
        let open: Vec<i64> = list_open_questions(rows, step_id);
        if open.len() != 1 {
            return Err(
                CommandProblem::InvalidEnvelope(
                    cat3(
                        "目标 Step 的 open question 数量为 ",
                        decimal(open.len() as u64).as_str(),
                        ",须恰好一个才能匿名应答",
                    ),
                ),
            );
        }
        open[0]
    } else {
        question_id
    };
    match find_question_step(&rows.questions, id) {
        None => Err(CommandProblem::invalid("目标 question 不存在、已回答或已被替换")),
        Some(own) => {
            if own != step_id {
                return Err(CommandProblem::invalid("目标 question 不属于目标 Step"));
            }
            Ok(RunMutation::Respond { question_id: id, answer: answer.to_owned() })
        },
    }
}

/// The change that a command on a run asks its store for. `durable` is what the store
/// holds of the stops of a cancellation.
pub fn plan_run_mutation(
    rows: &ProjectRows,
    command: &WorkflowRunCommand,
    preparation: &RunPreparation,
    durable: Vec<DurableStop>,
) -> (r: Result<RunMutation, CommandProblem>)
    ensures
        planned(r) == run_mutation(rows@, command@, preparation@, durable@),
{
    match validate_workflow_run_scope(rows, command) {
        Ok(_) => {},
        Err(p) => {
            return Err(p);
        },
    }
    match command {
        WorkflowRunCommand::Start { .. } => Err(
            CommandProblem::invalid("workflow.run start 必须由 Operation 承载"),
        ),
        WorkflowRunCommand::Cancel { workflow_run, expected, .. } => plan_cancel(
            rows,
            workflow_run.as_str(),
            &handles_of_agent_runs(&expected.agent_runs),
            preparation,
            durable,
        ),
        WorkflowRunCommand::RetryStep { step, mode, expected, .. } => plan_retry(
            rows,
            step.as_str(),
            *mode,
            &handles_of_agent_sessions(&expected.agent_sessions),
            preparation,
        ),
        WorkflowRunCommand::SkipStep { step, .. } => {
            match preparation {
                RunPreparation::Ready => {},
                _ => {
                    return Err(CommandProblem::invalid("skip prepare 结果不匹配"));
                },
            }
            match find_step_by_handle(&rows.steps, step.as_str()) {
                None => Err(CommandProblem::ResourceNotFound),
                Some(s) => Ok(RunMutation::Skip { step_id: rows.steps[s].id }),
            }
        },
        WorkflowRunCommand::Respond { step, question_id, answer, .. } => plan_respond(
            rows,
            step.as_str(),
            *question_id,
            answer.as_str(),
            preparation,
        ),
        WorkflowRunCommand::Settle { agent_run, settlement, .. } => {
            match preparation {
                RunPreparation::Ready => {},
                _ => {
                    return Err(CommandProblem::invalid("settle prepare 结果不匹配"));
                },
            }
            match find_agent_run_by_handle(&rows.agent_runs, agent_run.as_str()) {
                None => Err(CommandProblem::ResourceNotFound),
                Some(k) => Ok(
                    RunMutation::Settle {
                        run_id: rows.agent_runs[k].id,
                        settlement: settlement.copy(),
                    },
                ),
            }
        },
    }
}

/// What a store says of a change: what is still to be done, whether an end was there
/// before, and the handle of a new draft.
pub struct MutationReport {
    pub actions: Vec<Json>,
    pub already_settled: bool,
    pub draft_revision: Option<String>,
}

/// What a store says of a change, as a value.
pub ghost struct MutationReportView {
    pub actions: Seq<JsonView>,
    pub already_settled: bool,
    pub draft_revision: Option<Seq<char>>,
}

impl View for MutationReport {
    type V = MutationReportView;

    open spec fn view(&self) -> MutationReportView {
        MutationReportView {
            actions: items_view(self.actions@),
            already_settled: self.already_settled,
            draft_revision: opt_view(self.draft_revision),
        }
    }
}

/// What is still to be done after a change: an end that was there before is not acted on
/// twice.
pub open spec fn actions_after(settles: bool, report: MutationReportView) -> Seq<JsonView> {
    if settles && report.already_settled {
        seq![]
    } else {
        report.actions
    }
}

fn take_actions(settles: bool, report: MutationReport) -> (r: Vec<Json>)
    ensures
        items_view(r@) == actions_after(settles, report@),
{
    if settles && report.already_settled {
        let none: Vec<Json> = Vec::new();
        assert(items_view(none@) =~= seq![]);
        none
    } else {
        report.actions
    }
}

/// The result and the events of a command on a run.
pub open spec fn lifecycle_output(
    after: RowsView,
    c: RunCommandView,
    report: MutationReportView,
) -> Result<EffectView, ProblemView> {
    match c.expected() {
        Err(p) => Err(ProblemView::InvalidEnvelope(p.message())),
        Ok(expected) => match run_output(
            after,
            expected,
            c.target(),
            c.command_type().name(),
            actions_after(c is Settle, report),
            "run actions"@,
            "run"@,
        ) {
            Err(p) => Err(p),
            Ok((list, revision)) => Ok(
                EffectView {
                    result_revisions: JsonView::Object(
                        seq![("revision"@, JsonView::Unsigned(revision as nat))],
                    ),
                    projections: list,
                },
            ),
        },
    }
}

/// The result and the events of a command on a run, from what its store says and holds
/// after it.
pub fn finish_run_lifecycle(
    after: &ProjectRows,
    command: &WorkflowRunCommand,
    report: MutationReport,
) -> (r: Result<EffectOutput, CommandProblem>)
    ensures
        outcome(r) == lifecycle_output(after@, command@, report@),
{
    let expected: Vec<ExpectedRevision> = match command.expected_revisions() {
        Ok(v) => v,
        Err(p) => {
            return Err(CommandProblem::InvalidEnvelope(p.message()));
        },
    };
    let settles: bool = match command {
        WorkflowRunCommand::Settle { .. } => true,
        _ => false,
    };
    let actions: Vec<Json> = take_actions(settles, report);
    match compile_run_output(
        after,
        &expected,
        &command.target(),
        command.command_type().as_str(),
        actions,
        "run actions",
        "run",
    ) {
        Err(p) => Err(p),
        Ok((projections, revision)) => Ok(
            EffectOutput {
                result_revisions: one_field("revision", Json::Unsigned(revision)),
                projections,
            },
        ),
    }
}

/// A run's command that an agent sends by its token.
pub enum RunControlCommand {
    Settle(Settlement),
    ReportState(String),
    ProposePipeline(Json),
}

/// A command that an agent sends by its token, as a value.
pub ghost enum ControlView {
    Settle(SettlementView),
    ReportState(Seq<char>),
    ProposePipeline(JsonView),
}

impl View for RunControlCommand {
    type V = ControlView;

    open spec fn view(&self) -> ControlView {
        match *self {
            RunControlCommand::Settle(s) => ControlView::Settle(s@),
            RunControlCommand::ReportState(s) => ControlView::ReportState(s@),
            RunControlCommand::ProposePipeline(d) => ControlView::ProposePipeline(d@),
        }
    }
}

impl ControlView {
    /// The name of the command.
    pub open spec fn method(self) -> Seq<char> {
        match self {
            ControlView::Settle(_) => "settle"@,
            ControlView::ReportState(_) => "report_state"@,
            ControlView::ProposePipeline(_) => "propose_pipeline"@,
        }
    }

    /// The change that it asks its store for.
    pub open spec fn mutation(self, run_id: i64, task_id: i64) -> MutationView {
        match self {
            ControlView::Settle(settlement) => MutationView::Settle { run_id, settlement },
            ControlView::ReportState(state) => MutationView::ReportState { run_id, state },
            ControlView::ProposePipeline(draft) => MutationView::ProposePipeline {
                task_id,
                draft,
            },
        }
    }
}

impl RunControlCommand {
    /// The name of the command.
    pub fn method(&self) -> (r: &'static str)
        ensures
            r@ == self@.method(),
    {
        match self {
            RunControlCommand::Settle(_) => "settle",
            RunControlCommand::ReportState(_) => "report_state",
            RunControlCommand::ProposePipeline(_) => "propose_pipeline",
        }
    }

    /// The change that it asks its store for.
    pub fn mutation(&self, run_id: i64, task_id: i64) -> (r: RunMutation)
        ensures
            r@ == self@.mutation(run_id, task_id),
    {
        match self {
            RunControlCommand::Settle(settlement) => RunMutation::Settle {
                run_id,
                settlement: settlement.copy(),
            },
            RunControlCommand::ReportState(state) => RunMutation::ReportState {
                run_id,
                state: state.clone(),
            },
            RunControlCommand::ProposePipeline(draft) => RunMutation::ProposePipeline {
                task_id,
                draft: draft.copy(),
            },
        }
    }
}

/// The result and the events of an agent's command.
pub open spec fn control_output(
    after: RowsView,
    c: ControlView,
    expected: Seq<ExpectedView>,
    target: AggregateView,
    report: MutationReportView,
) -> Result<EffectView, ProblemView> {
    match run_output(
        after,
        expected,
        target,
        c.method(),
        actions_after(c is Settle, report),
        "RunControl action"@,
        "RunControl"@,
    ) {
        Err(p) => Err(p),
        Ok((list, revision)) => Ok(
            EffectView {
                result_revisions: JsonView::Object(
                    match report.draft_revision {
                        None => seq![("revision"@, JsonView::Unsigned(revision as nat))],
                        Some(draft) => seq![
                            ("revision"@, JsonView::Unsigned(revision as nat)),
                            ("draft_revision"@, JsonView::Text(draft)),
                        ],
                    },
                ),
                projections: list,
            },
        ),
    }
}

/// The result and the events of an agent's command, from what its store says and holds
/// after it.
pub fn run_control_mutation_effect(
    after: &ProjectRows,
    command: &RunControlCommand,
    expected: &Vec<ExpectedRevision>,
    target: &AggregateRef,
    report: MutationReport,
) -> (r: Result<EffectOutput, CommandProblem>)
    ensures
        outcome(r) == control_output(
            after@,
            command@,
            expectations(expected@),
            target@,
            report@,
        ),
{
    let settles: bool = match command {
        RunControlCommand::Settle(_) => true,
        _ => false,
    };
    let draft_revision: Option<String> = copy_opt(&report.draft_revision);
    let actions: Vec<Json> = take_actions(settles, report);
    match compile_run_output(
        after,
        expected,
        target,
        command.method(),
        actions,
        "RunControl action",
        "RunControl",
    ) {
        Err(p) => Err(p),
        Ok((projections, revision)) => {
            let mut f: Vec<(String, Json)> = fields();
            put(&mut f, "revision", Json::Unsigned(revision));
            if let Some(draft) = &draft_revision {
                put(&mut f, "draft_revision", txt(draft.as_str()));
            }
            let result_revisions: Json = object(f);
            proof {
                let expected_fields = match report@.draft_revision {
                    None => seq![("revision"@, JsonView::Unsigned(revision as nat))],
                    Some(draft) => seq![
                        ("revision"@, JsonView::Unsigned(revision as nat)),
                        ("draft_revision"@, JsonView::Text(draft)),
                    ],
                };
                assert(result_revisions@->Object_0 =~= expected_fields);
            }
            Ok(EffectOutput { result_revisions, projections })
        },
    }
}

/// An end that was there before brings no second action.
pub proof fn law_an_end_is_acted_on_once(
    after: RowsView,
    c: RunCommandView,
    report: MutationReportView,
    k: int,
)
    requires
        c is Settle,
        report.already_settled,
        lifecycle_output(after, c, report) matches Ok(out) && 0 <= k < out.projections.len(),
    ensures
        (lifecycle_output(after, c, report)->Ok_0).projections[k].run_actions.len() == 0,
{
    let expected = c.expected()->Ok_0;
    lemma_no_actions(after, expected, c.target(), c.command_type().name(), expected.len(), k);
}

proof fn lemma_no_actions(
    rows: RowsView,
    expected: Seq<ExpectedView>,
    target: AggregateView,
    event_type: Seq<char>,
    n: nat,
    k: int,
)
    requires
        outcomes(rows, expected, target, event_type, n) is Ok,
        0 <= k < outcomes(rows, expected, target, event_type, n)->Ok_0.changes.len(),
    ensures
        outcomes(rows, expected, target, event_type, n)->Ok_0.changes[k].run_actions.len() == 0,
    decreases n,
{
    if n > 0 {
        let before = outcomes(rows, expected, target, event_type, (n - 1) as nat)->Ok_0;
        if k < before.changes.len() {
            lemma_no_actions(rows, expected, target, event_type, (n - 1) as nat, k);
        }
    }
}

/// A cancellation changes a run only where every agent run that it relied on was
/// stopped, and says of each what the store holds.
pub proof fn law_a_cancellation_stops_every_run(
    rows: RowsView,
    c: RunCommandView,
    preparation: PreparationView,
    durable: Seq<DurableStop>,
    at: int,
)
    requires
        c is Cancel,
        run_mutation(rows, c, preparation, durable) is Ok,
        0 <= at < (c.run()->0).1.agent_runs.len(),
    ensures
        run_mutation(rows, c, preparation, durable) matches Ok(MutationView::Cancel { run_stops, .. })
            && run_stops == durable,
        agent_run_by_handle(rows.agent_runs, (c.run()->0).1.agent_runs[at].handle, 0) is Some,
        exists|k: int|
            0 <= k < durable.len() && (#[trigger] durable[k]).run_id == agent_run_by_handle(
                rows.agent_runs,
                (c.run()->0).1.agent_runs[at].handle,
                0,
            )->0.id,
{
    let (workflow_run, expected) = c.run()->0;
    let wanted = handles_of(expected.agent_runs);
    let stops = preparation->run_stops;
    let handles = stop_handles(stops);
    let h = wanted[at];
    assert(wanted.to_set().contains(h));
    assert(handles.to_set().contains(h));
    let i = choose|i: int| 0 <= i < handles.len() && handles[i] == h;
    let ids = run_ids(rows, handles, handles.len())->0;
    lemma_run_id_at(rows, handles, handles.len(), i);
    assert(ids.to_set().contains(ids[i]));
    assert(stop_ids(durable).to_set().contains(ids[i]));
    let k = choose|k: int| 0 <= k < stop_ids(durable).len() && stop_ids(durable)[k] == ids[i];
    assert(durable[k].run_id == ids[i]);
}

proof fn lemma_run_id_at(rows: RowsView, handles: Seq<Seq<char>>, n: nat, i: int)
    requires
        run_ids(rows, handles, n) is Some,
        0 <= i < n,
    ensures
        run_ids(rows, handles, n)->0.len() == n,
        agent_run_by_handle(rows.agent_runs, handles[i], 0) is Some,
        run_ids(rows, handles, n)->0[i] == agent_run_by_handle(rows.agent_runs, handles[i], 0)->0.id,
    decreases n,
{
    if n > 1 {
        lemma_run_id_at(
            rows,
            handles,
            (n - 1) as nat,
            if i < n - 1 {
                i
            } else {
                0
            },
        );
    } else {
        reveal_with_fuel(run_ids, 3);
    }
}

} // verus!
