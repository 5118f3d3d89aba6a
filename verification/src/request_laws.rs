//! What holds of every request that a client makes: that it names what it acts on, relies on
//! what the client was shown, and is told apart from any other.

use crate::command::{digest_json, target_json, EnvelopeView};
use crate::handles::{AggregateKind, ExpectedView};
use crate::json::{distinct_names, field_of, JsonView};
use crate::legacy_client::{
    answer_expected, cancel_expected, retry_expected, settle_expected, shown_run, shown_step,
    step_expected,
};
use crate::publication::lemma_field_at;
use crate::run_command::{
    ProjectCommandView, RetryMode, RunCommandView, RunExpectedView, VersionView,
};
use crate::snapshot::{AgentRunShown, QuestionShown, RunShown, StepShown};
use vstd::prelude::*;
use vstd::string::*;

verus! {

/// Whether a command relies on a revision of an aggregate, under an axis.
pub open spec fn relies_on(
    expected: Seq<ExpectedView>,
    kind: AggregateKind,
    handle: Seq<char>,
    axis: Seq<char>,
    revision: u64,
) -> bool {
    exists|i: int| #[trigger] at_revision(expected, i, kind, handle, axis, revision)
}

/// Whether one of the things that a command relies on is a revision of an aggregate.
pub open spec fn at_revision(
    expected: Seq<ExpectedView>,
    i: int,
    kind: AggregateKind,
    handle: Seq<char>,
    axis: Seq<char>,
    revision: u64,
) -> bool {
    &&& 0 <= i < expected.len()
    &&& expected[i].aggregate.kind == kind
    &&& expected[i].aggregate.handle == handle
    &&& exists|a: int|
        0 <= a < expected[i].revisions.len() && #[trigger] expected[i].revisions[a] == (
            axis,
            revision as nat,
        )
}

/// An edit relies on the revisions that it was sent with, each of its aggregate and under its
/// axis: what a workflow does on the one, how it is shown on the other, and which there are
/// on that of the project.
pub proof fn law_an_edit_relies_on_what_it_was_sent_with(c: ProjectCommandView)
    ensures
        match c {
            ProjectCommandView::Create { project, expected_collection_revision, .. } => {
                &&& c.expected().len() == 1
                &&& relies_on(
                    c.expected(),
                    AggregateKind::Project,
                    project,
                    "workflow_collection_revision"@,
                    expected_collection_revision,
                )
            },
            ProjectCommandView::Delete {
                project,
                workflow,
                expected_collection_revision,
                expected_semantic_revision,
                expected_presentation_revision,
            } => {
                &&& c.expected().len() == 2
                &&& relies_on(
                    c.expected(),
                    AggregateKind::Project,
                    project,
                    "workflow_collection_revision"@,
                    expected_collection_revision,
                )
                &&& relies_on(
                    c.expected(),
                    AggregateKind::ProjectWorkflow,
                    workflow,
                    "semantic_revision"@,
                    expected_semantic_revision,
                )
                &&& relies_on(
                    c.expected(),
                    AggregateKind::ProjectWorkflow,
                    workflow,
                    "presentation_revision"@,
                    expected_presentation_revision,
                )
            },
            ProjectCommandView::MoveNode { workflow, expected_presentation_revision, .. }
            | ProjectCommandView::SetViewport {
                workflow,
                expected_presentation_revision,
                ..
            } => {
                &&& c.expected().len() == 1
                &&& relies_on(
                    c.expected(),
                    AggregateKind::ProjectWorkflow,
                    workflow,
                    "presentation_revision"@,
                    expected_presentation_revision,
                )
            },
            ProjectCommandView::AddNode { workflow, expected_semantic_revision, .. }
            | ProjectCommandView::UpdateNode { workflow, expected_semantic_revision, .. }
            | ProjectCommandView::RemoveNode { workflow, expected_semantic_revision, .. }
            | ProjectCommandView::Connect { workflow, expected_semantic_revision, .. }
            | ProjectCommandView::Disconnect { workflow, expected_semantic_revision, .. }
            | ProjectCommandView::SetUnsafeParallel {
                workflow,
                expected_semantic_revision,
                ..
            } => {
                &&& c.expected().len() == 1
                &&& relies_on(
                    c.expected(),
                    AggregateKind::ProjectWorkflow,
                    workflow,
                    "semantic_revision"@,
                    expected_semantic_revision,
                )
            },
        },
{
    let e = c.expected();
    let first = e[0].revisions[0];
    assert(at_revision(
        e,
        0,
        e[0].aggregate.kind,
        e[0].aggregate.handle,
        first.0,
        first.1 as u64,
    ));
    if let ProjectCommandView::Delete {
        workflow,
        expected_semantic_revision,
        expected_presentation_revision,
        ..
    } = c {
        assert(e[1].revisions[0] == (
            "presentation_revision"@,
            expected_presentation_revision as nat,
        ));
        assert(e[1].revisions[1] == ("semantic_revision"@, expected_semantic_revision as nat));
        assert(at_revision(
            e,
            1,
            AggregateKind::ProjectWorkflow,
            workflow,
            "presentation_revision"@,
            expected_presentation_revision,
        ));
        assert(at_revision(
            e,
            1,
            AggregateKind::ProjectWorkflow,
            workflow,
            "semantic_revision"@,
            expected_semantic_revision,
        ));
    }
}

/// A command on a run relies on the revisions that it was sent with: of the run, and of every
/// step, agent run and session that it lists; and on nothing else.
pub proof fn law_a_run_command_relies_on_what_it_was_sent_with(c: RunCommandView)
    requires
        c.run() is Some,
        c.expected() is Ok,
    ensures
        ({
            let (run, sent) = c.run()->0;
            let expected = c.expected()->Ok_0;
            &&& expected.len() == 1 + sent.steps.len() + sent.agent_runs.len()
                + sent.agent_sessions.len()
            &&& relies_on(
                expected,
                AggregateKind::WorkflowRun,
                run,
                "revision"@,
                sent.workflow_run_revision,
            )
            &&& forall|k: int|
                0 <= k < sent.steps.len() ==> relies_on(
                    expected,
                    AggregateKind::Step,
                    (#[trigger] sent.steps[k]).handle,
                    "revision"@,
                    sent.steps[k].revision,
                )
            &&& forall|k: int|
                0 <= k < sent.agent_runs.len() ==> relies_on(
                    expected,
                    AggregateKind::AgentRun,
                    (#[trigger] sent.agent_runs[k]).handle,
                    "revision"@,
                    sent.agent_runs[k].revision,
                )
            &&& forall|k: int|
                0 <= k < sent.agent_sessions.len() ==> relies_on(
                    expected,
                    AggregateKind::AgentSession,
                    (#[trigger] sent.agent_sessions[k]).handle,
                    "revision"@,
                    sent.agent_sessions[k].revision,
                )
        }),
{
    let (run, sent) = c.run()->0;
    let expected = c.expected()->Ok_0;
    let s = sent.steps.len();
    let a = sent.agent_runs.len();
    assert(expected[0].revisions[0] == ("revision"@, sent.workflow_run_revision as nat));
    assert(at_revision(
        expected,
        0,
        AggregateKind::WorkflowRun,
        run,
        "revision"@,
        sent.workflow_run_revision,
    ));
    assert forall|k: int| 0 <= k < sent.steps.len() implies relies_on(
        expected,
        AggregateKind::Step,
        (#[trigger] sent.steps[k]).handle,
        "revision"@,
        sent.steps[k].revision,
    ) by {
        let v = sent.steps[k];
        assert(expected[1 + k].revisions[0] == ("revision"@, v.revision as nat));
        assert(at_revision(expected, 1 + k, AggregateKind::Step, v.handle, "revision"@, v.revision));
    }
    assert forall|k: int| 0 <= k < sent.agent_runs.len() implies relies_on(
        expected,
        AggregateKind::AgentRun,
        (#[trigger] sent.agent_runs[k]).handle,
        "revision"@,
        sent.agent_runs[k].revision,
    ) by {
        let v = sent.agent_runs[k];
        assert(expected[1 + s + k].revisions[0] == ("revision"@, v.revision as nat));
        assert(at_revision(
            expected,
            1 + s + k,
            AggregateKind::AgentRun,
            v.handle,
            "revision"@,
            v.revision,
        ));
    }
    assert forall|k: int| 0 <= k < sent.agent_sessions.len() implies relies_on(
        expected,
        AggregateKind::AgentSession,
        (#[trigger] sent.agent_sessions[k]).handle,
        "revision"@,
        sent.agent_sessions[k].revision,
    ) by {
        let v = sent.agent_sessions[k];
        assert(expected[1 + s + a + k].revisions[0] == ("revision"@, v.revision as nat));
        assert(at_revision(
            expected,
            1 + s + a + k,
            AggregateKind::AgentSession,
            v.handle,
            "revision"@,
            v.revision,
        ));
    }
}

/// A command acts on what it names: an edit on its workflow, or on the project where there is
/// no workflow yet; a start on the workflow; a cancellation on the run; what is done with a
/// step on the step; an end on the agent run.
pub proof fn law_a_command_acts_on_what_it_names(c: ProjectCommandView, r: RunCommandView)
    ensures
        match c {
            ProjectCommandView::Create { project, .. } => c.target().kind is Project
                && c.target().handle == project,
            ProjectCommandView::Delete { workflow, .. }
            | ProjectCommandView::AddNode { workflow, .. }
            | ProjectCommandView::UpdateNode { workflow, .. }
            | ProjectCommandView::RemoveNode { workflow, .. }
            | ProjectCommandView::MoveNode { workflow, .. }
            | ProjectCommandView::Connect { workflow, .. }
            | ProjectCommandView::Disconnect { workflow, .. }
            | ProjectCommandView::SetViewport { workflow, .. }
            | ProjectCommandView::SetUnsafeParallel { workflow, .. } => c.target().kind
                is ProjectWorkflow && c.target().handle == workflow,
        },
        match r {
            RunCommandView::Start { workflow, .. } => r.target().kind is ProjectWorkflow
                && r.target().handle == workflow,
            RunCommandView::Cancel { workflow_run, .. } => r.target().kind is WorkflowRun
                && r.target().handle == workflow_run,
            RunCommandView::RetryStep { step, .. }
            | RunCommandView::SkipStep { step, .. }
            | RunCommandView::Respond { step, .. } => r.target().kind is Step && r.target().handle
                == step,
            RunCommandView::Settle { agent_run, .. } => r.target().kind is AgentRun
                && r.target().handle == agent_run,
        },
{
}

/// What an edit sends is in its payload, each part under its name.
pub proof fn law_an_edit_says_what_it_sends(c: ProjectCommandView)
    ensures
        c.workflow() matches Some(workflow) ==> field_of(c.payload(), "workflow"@) == Some(
            JsonView::Text(workflow),
        ),
        match c {
            ProjectCommandView::Create { draft, .. } => field_of(c.payload(), "draft"@) == Some(
                draft.json(),
            ),
            ProjectCommandView::AddNode { node, .. } => field_of(c.payload(), "node"@) == Some(
                node.json(),
            ),
            ProjectCommandView::UpdateNode {
                node_handle,
                title,
                instructions,
                agent_instance_id,
                ..
            } => {
                &&& field_of(c.payload(), "node_handle"@) == Some(JsonView::Text(node_handle))
                &&& field_of(c.payload(), "title"@) == Some(JsonView::Text(title))
                &&& field_of(c.payload(), "instructions"@) == Some(JsonView::Text(instructions))
                &&& field_of(c.payload(), "agent_instance_id"@) == Some(
                    JsonView::Text(agent_instance_id),
                )
            },
            ProjectCommandView::RemoveNode { node_handle, .. } => field_of(
                c.payload(),
                "node_handle"@,
            ) == Some(JsonView::Text(node_handle)),
            ProjectCommandView::MoveNode { node_handle, x, y, .. } => {
                &&& field_of(c.payload(), "node_handle"@) == Some(JsonView::Text(node_handle))
                &&& field_of(c.payload(), "x"@) == Some(x)
                &&& field_of(c.payload(), "y"@) == Some(y)
            },
            ProjectCommandView::Connect { upstream_node_handle, downstream_node_handle, .. } => {
                &&& field_of(c.payload(), "upstream_node_handle"@) == Some(
                    JsonView::Text(upstream_node_handle),
                )
                &&& field_of(c.payload(), "downstream_node_handle"@) == Some(
                    JsonView::Text(downstream_node_handle),
                )
            },
            ProjectCommandView::Disconnect { edge_handle, .. } => field_of(
                c.payload(),
                "edge_handle"@,
            ) == Some(JsonView::Text(edge_handle)),
            ProjectCommandView::SetViewport { viewport, .. } => field_of(c.payload(), "viewport"@)
                == Some(viewport),
            ProjectCommandView::SetUnsafeParallel { allow, .. } => field_of(c.payload(), "allow"@)
                == Some(JsonView::Bool(allow)),
            ProjectCommandView::Delete { .. } => true,
        },
{
    let f = c.payload()->Object_0;
    reveal_strlit("workflow");
    reveal_strlit("draft");
    reveal_strlit("node");
    reveal_strlit("node_handle");
    reveal_strlit("title");
    reveal_strlit("instructions");
    reveal_strlit("agent_instance_id");
    reveal_strlit("x");
    reveal_strlit("y");
    reveal_strlit("upstream_node_handle");
    reveal_strlit("downstream_node_handle");
    reveal_strlit("edge_handle");
    reveal_strlit("viewport");
    reveal_strlit("allow");
    assert("workflow"@.len() == 8 && "node"@.len() == 4 && "node_handle"@.len() == 11
        && "title"@.len() == 5 && "instructions"@.len() == 12 && "agent_instance_id"@.len() == 17
        && "x"@.len() == 1 && "y"@.len() == 1 && "upstream_node_handle"@.len() == 20
        && "downstream_node_handle"@.len() == 22 && "edge_handle"@.len() == 11
        && "viewport"@.len() == 8 && "allow"@.len() == 5);
    assert("x"@[0] != "y"@[0]);
    assert("workflow"@[0] != "viewport"@[0]);
    assert(distinct_names(f));
    lemma_field_at(f, 0);
    if f.len() > 1 {
        lemma_field_at(f, 1);
    }
    if f.len() > 2 {
        lemma_field_at(f, 2);
    }
    if f.len() > 3 {
        lemma_field_at(f, 3);
    }
    if f.len() > 4 {
        lemma_field_at(f, 4);
    }
}

/// What a command on a run sends is in its payload, each part under its name: another answer,
/// another mode or another end is another payload.
pub proof fn law_a_run_command_says_what_it_sends(c: RunCommandView)
    ensures
        c.run() matches Some((run, _)) ==> field_of(c.payload(), "workflow_run"@) == Some(
            JsonView::Text(run),
        ),
        c.step() matches Some(step) ==> field_of(c.payload(), "step"@) == Some(
            JsonView::Text(step),
        ),
        match c {
            RunCommandView::Start { workflow, goal, .. } => {
                &&& field_of(c.payload(), "workflow"@) == Some(JsonView::Text(workflow))
                &&& field_of(c.payload(), "goal"@) == Some(
                    JsonView::Text(crate::text::trim_text(goal)),
                )
            },
            RunCommandView::RetryStep { mode, .. } => field_of(c.payload(), "mode"@) == Some(
                JsonView::Text(mode.name()),
            ),
            RunCommandView::Respond { question_id, answer, .. } => {
                &&& field_of(c.payload(), "question_id"@) == Some(
                    JsonView::Text(crate::text::signed_text(question_id as int)),
                )
                &&& field_of(c.payload(), "answer"@) == Some(JsonView::Text(answer))
            },
            RunCommandView::Settle { agent_run, settlement, .. } => {
                &&& field_of(c.payload(), "agent_run"@) == Some(JsonView::Text(agent_run))
                &&& field_of(c.payload(), "settlement"@) == Some(settlement.body)
            },
            _ => true,
        },
{
    let f = c.payload()->Object_0;
    reveal_strlit("workflow");
    reveal_strlit("goal");
    reveal_strlit("workflow_run");
    reveal_strlit("step");
    reveal_strlit("mode");
    reveal_strlit("question_id");
    reveal_strlit("answer");
    reveal_strlit("agent_run");
    reveal_strlit("settlement");
    assert("workflow"@.len() == 8 && "goal"@.len() == 4 && "workflow_run"@.len() == 12
        && "step"@.len() == 4 && "mode"@.len() == 4 && "question_id"@.len() == 11
        && "answer"@.len() == 6 && "agent_run"@.len() == 9 && "settlement"@.len() == 10);
    assert("step"@[0] != "mode"@[0]);
    assert(distinct_names(f));
    lemma_field_at(f, 0);
    if f.len() > 1 {
        lemma_field_at(f, 1);
    }
    if f.len() > 2 {
        lemma_field_at(f, 2);
    }
    if f.len() > 3 {
        lemma_field_at(f, 3);
    }
}

/// What the digest of a command is taken of covers all of its meaning: its type, the store and
/// the aggregate that it is for, what it relies on, and what it sends.
pub proof fn law_a_digest_covers_the_meaning(e: EnvelopeView, payload: JsonView)
    ensures
        field_of(digest_json(e, payload), "type"@) == Some(JsonView::Text(e.command_type.name())),
        field_of(digest_json(e, payload), "payload"@) == Some(payload),
        field_of(digest_json(e, payload), "expected"@) == Some(
            JsonView::Array(crate::command::canonical_expected(e.expected)),
        ),
        ({
            let target = field_of(digest_json(e, payload), "target"@);
            &&& target is Some
            &&& field_of(target->0, "store"@) == Some(JsonView::Text(e.target.store_key()))
            &&& field_of(target->0, "kind"@) == Some(
                JsonView::Text(e.target.aggregate.kind.name()),
            )
            &&& field_of(target->0, "handle"@) == Some(JsonView::Text(e.target.aggregate.handle))
        }),
{
    let f = digest_json(e, payload)->Object_0;
    let t = target_json(e.target)->Object_0;
    reveal_strlit("schema");
    reveal_strlit("type");
    reveal_strlit("target");
    reveal_strlit("expected");
    reveal_strlit("payload");
    reveal_strlit("store");
    reveal_strlit("kind");
    reveal_strlit("handle");
    assert("schema"@.len() == 6 && "type"@.len() == 4 && "target"@.len() == 6 && "expected"@.len()
        == 8 && "payload"@.len() == 7 && "store"@.len() == 5 && "kind"@.len() == 4
        && "handle"@.len() == 6);
    assert("schema"@[0] != "target"@[0]);
    assert(distinct_names(f));
    assert(distinct_names(t));
    lemma_field_at(f, 1);
    lemma_field_at(f, 2);
    lemma_field_at(f, 3);
    lemma_field_at(f, 4);
    lemma_field_at(t, 0);
    lemma_field_at(t, 1);
    lemma_field_at(t, 2);
}

/// Whether a version is that of a row as it was shown.
pub open spec fn of_row(v: VersionView, handle: Seq<char>, revision: u64) -> bool {
    v.handle == handle && v.revision == revision
}

/// Whether an agent run goes on, as it was shown; at one step, where one is named.
pub open spec fn goes_on(r: AgentRunShown, step: Option<Seq<char>>) -> bool {
    &&& r.status == "running"@ || r.status == "awaiting-outcome"@
    &&& step is None || step == Some(r.step)
}

/// Whether versions are those of the agent runs that go on, and of no others.
pub open spec fn lists_runs(v: Seq<VersionView>, runs: Seq<AgentRunShown>, step: Option<Seq<char>>) -> bool {
    &&& forall|i: int| 0 <= i < v.len() ==> is_of_a_run(#[trigger] v[i], runs, step)
    &&& forall|k: int|
        0 <= k < runs.len() && goes_on(#[trigger] runs[k], step) ==> has_version(
            v,
            runs[k].agent_run,
            runs[k].revision,
        )
}

/// Whether a version is that of an agent run that goes on.
pub open spec fn is_of_a_run(v: VersionView, runs: Seq<AgentRunShown>, step: Option<Seq<char>>) -> bool {
    exists|k: int|
        0 <= k < runs.len() && goes_on(#[trigger] runs[k], step) && of_row(
            v,
            runs[k].agent_run,
            runs[k].revision,
        )
}

/// Whether there is the version of a row among others.
pub open spec fn has_version(v: Seq<VersionView>, handle: Seq<char>, revision: u64) -> bool {
    exists|i: int| 0 <= i < v.len() && of_row(#[trigger] v[i], handle, revision)
}

proof fn lemma_lists_runs(runs: Seq<AgentRunShown>, step: Option<Seq<char>>)
    ensures
        lists_runs(
            crate::legacy_client::run_versions(crate::legacy_client::active_runs(runs, step)),
            runs,
            step,
        ),
{
    let keep = |r: AgentRunShown| crate::legacy_client::wanted_run(r, step);
    let kept = crate::legacy_client::active_runs(runs, step);
    let v = crate::legacy_client::run_versions(kept);
    runs.filter_lemma(keep);
    assert forall|i: int| 0 <= i < v.len() implies is_of_a_run(#[trigger] v[i], runs, step) by {
        assert(keep(kept[i]));
        assert(kept.contains(kept[i]));
        runs.lemma_filter_contains_rev(keep, kept[i]);
        let k = choose|k: int| 0 <= k < runs.len() && runs[k] == kept[i];
        assert(goes_on(runs[k], step));
    }
    assert forall|k: int|
        0 <= k < runs.len() && goes_on(#[trigger] runs[k], step) implies has_version(
        v,
        runs[k].agent_run,
        runs[k].revision,
    ) by {
        runs.lemma_filter_contains(keep, k);
        let i = choose|i: int| 0 <= i < kept.len() && kept[i] == runs[k];
        assert(of_row(v[i], runs[k].agent_run, runs[k].revision));
    }
}

/// Whether a step has not come to an end, as it was shown.
pub open spec fn step_goes_on(s: StepShown) -> bool {
    s.status != "succeeded"@ && s.status != "failed"@ && s.status != "skipped"@ && s.status
        != "cancelled"@
}

/// Whether a version is that of a step that has not come to an end.
pub open spec fn is_of_a_step(v: VersionView, steps: Seq<StepShown>) -> bool {
    exists|k: int|
        0 <= k < steps.len() && step_goes_on(#[trigger] steps[k]) && of_row(
            v,
            steps[k].step,
            steps[k].revision,
        )
}

/// A cancellation relies on the run as it was shown, on every step that has not come to an
/// end, and on every agent run that goes on, each with the revision that was shown; and on no
/// other step or agent run.
pub proof fn law_a_cancellation_relies_on_what_was_shown(data: RunShown)
    ensures
        ({
            let e = cancel_expected(data);
            &&& e.workflow_run_revision == data.revision
            &&& lists_runs(e.agent_runs, data.agent_runs, None)
            &&& forall|i: int|
                0 <= i < e.steps.len() ==> is_of_a_step(#[trigger] e.steps[i], data.steps)
            &&& forall|k: int|
                0 <= k < data.steps.len() && step_goes_on(#[trigger] data.steps[k]) ==> has_version(
                    e.steps,
                    data.steps[k].step,
                    data.steps[k].revision,
                )
        }),
{
    let e = cancel_expected(data);
    lemma_lists_runs(data.agent_runs, None);
    let keep = |s: StepShown| !crate::run_scope::step_ended(s.status);
    let kept = data.steps.filter(keep);
    data.steps.filter_lemma(keep);
    assert(e.steps.len() == kept.len());
    assert forall|i: int| 0 <= i < e.steps.len() implies is_of_a_step(
        #[trigger] e.steps[i],
        data.steps,
    ) by {
        assert(keep(kept[i]));
        assert(kept.contains(kept[i]));
        data.steps.lemma_filter_contains_rev(keep, kept[i]);
        let k = choose|k: int| 0 <= k < data.steps.len() && data.steps[k] == kept[i];
        assert(step_goes_on(data.steps[k]));
    }
    assert forall|k: int|
        0 <= k < data.steps.len() && step_goes_on(#[trigger] data.steps[k]) implies has_version(
        e.steps,
        data.steps[k].step,
        data.steps[k].revision,
    ) by {
        data.steps.lemma_filter_contains(keep, k);
        let i = choose|i: int| 0 <= i < kept.len() && kept[i] == data.steps[k];
        assert(of_row(e.steps[i], data.steps[k].step, data.steps[k].revision));
    }
}

proof fn lemma_shown_step(v: Seq<StepShown>, step: Seq<char>, from: int)
    requires
        0 <= from,
    ensures
        match shown_step(v, step, from) {
            Some(row) => row.step == step && v.contains(row),
            None => forall|i: int| from <= i < v.len() ==> (#[trigger] v[i]).step != step,
        },
    decreases v.len() - from,
{
    if from < v.len() && v[from].step != step {
        lemma_shown_step(v, step, from + 1);
    }
}

proof fn lemma_shown_run(v: Seq<AgentRunShown>, run: Seq<char>, from: int)
    requires
        0 <= from,
    ensures
        match shown_run(v, run, from) {
            Some(row) => row.agent_run == run && v.contains(row),
            None => forall|i: int| from <= i < v.len() ==> (#[trigger] v[i]).agent_run != run,
        },
    decreases v.len() - from,
{
    if from < v.len() && v[from].agent_run != run {
        lemma_shown_run(v, run, from + 1);
    }
}

/// Whether a command on a step relies on the run and on that step alone, as they were shown.
pub open spec fn relies_on_step(e: RunExpectedView, data: RunShown, step: Seq<char>) -> bool {
    &&& e.workflow_run_revision == data.revision
    &&& e.steps.len() == 1
    &&& exists|row: StepShown|
        #[trigger] data.steps.contains(row) && row.step == step && of_row(
            e.steps[0],
            step,
            row.revision,
        )
}

/// What is done with a step relies on the run, on that step, and on every agent run that goes
/// on at it, as they were shown; it is refused where no such step was shown.
pub proof fn law_a_retry_relies_on_what_was_shown(data: RunShown, step: Seq<char>, mode: RetryMode)
    ensures
        match step_expected(data, step) {
            Some(e) => relies_on_step(e, data, step) && lists_runs(
                e.agent_runs,
                data.agent_runs,
                Some(step),
            ),
            None => forall|i: int|
                0 <= i < data.steps.len() ==> (#[trigger] data.steps[i]).step != step,
        },
        retry_expected(data, step, mode) matches Ok(e) ==> relies_on_step(e, data, step)
            && lists_runs(e.agent_runs, data.agent_runs, Some(step)),
{
    lemma_shown_step(data.steps, step, 0);
    lemma_lists_runs(data.agent_runs, Some(step));
    if let Some(row) = shown_step(data.steps, step, 0) {
        assert(data.steps.contains(row));
    }
}

/// An answer goes to the only open question that was shown of its step, and relies on the run,
/// on that step, and on the agent run that asks, as they were shown.
pub proof fn law_an_answer_relies_on_what_was_shown(data: RunShown, step: Seq<char>)
    requires
        answer_expected(data, step) is Ok,
    ensures
        ({
            let (id, e) = answer_expected(data, step)->Ok_0;
            &&& relies_on_step(e, data, step)
            &&& exists|q: int|
                {
                    &&& 0 <= q < data.open_questions.len()
                    &&& (#[trigger] data.open_questions[q]).step == Some(step)
                    &&& data.open_questions[q].question_id == id
                    &&& match data.open_questions[q].agent_run {
                        Some(asker) => e.agent_runs.len() == 1 && exists|r: AgentRunShown|
                            #[trigger] data.agent_runs.contains(r) && r.agent_run == asker
                                && of_row(e.agent_runs[0], asker, r.revision),
                        None => e.agent_runs.len() == 0,
                    }
                }
            &&& forall|q: int, o: int|
                0 <= q < o < data.open_questions.len() && (
                #[trigger] data.open_questions[q]).step == Some(step) ==> (
                #[trigger] data.open_questions[o]).step != Some(step)
        }),
{
    let keep = |q: QuestionShown| q.step == Some(step);
    let kept = crate::legacy_client::questions_of(data.open_questions, step);
    data.open_questions.filter_lemma(keep);
    assert(keep(kept[0]));
    assert(kept.contains(kept[0]));
    data.open_questions.lemma_filter_contains_rev(keep, kept[0]);
    let q = choose|q: int| 0 <= q < data.open_questions.len() && data.open_questions[q] == kept[0];
    assert(data.open_questions[q].step == Some(step));
    lemma_shown_step(data.steps, step, 0);
    assert(data.steps.contains(shown_step(data.steps, step, 0)->0));
    if let Some(h) = kept[0].agent_run {
        lemma_shown_run(data.agent_runs, h, 0);
        assert(data.agent_runs.contains(shown_run(data.agent_runs, h, 0)->0));
    }
    lemma_one_question(data.open_questions, step);
}

proof fn lemma_one_question(v: Seq<QuestionShown>, step: Seq<char>)
    requires
        crate::legacy_client::questions_of(v, step).len() <= 1,
    ensures
        forall|q: int, o: int|
            0 <= q < o < v.len() && (#[trigger] v[q]).step == Some(step) ==> (
            #[trigger] v[o]).step != Some(step),
    decreases v.len(),
{
    reveal(Seq::filter);
    let keep = |q: QuestionShown| q.step == Some(step);
    if v.len() > 0 {
        let rest = v.drop_last();
        assert(v.filter(keep) == if keep(v.last()) {
            rest.filter(keep).push(v.last())
        } else {
            rest.filter(keep)
        });
        lemma_one_question(rest, step);
        assert forall|q: int, o: int| 0 <= q < o < v.len() && (#[trigger] v[q]).step == Some(
            step,
        ) implies (#[trigger] v[o]).step != Some(step) by {
            assert(rest[q] == v[q]);
            if o < v.len() - 1 {
                assert(rest[o] == v[o]);
            } else if v[o].step == Some(step) {
                rest.lemma_filter_contains(keep, q);
                assert(rest.filter(keep).len() > 0);
            }
        }
    }
}

/// An end of an agent run is sent for the step that the run is at, and relies on the run, on
/// that step, and on that agent run, as they were shown.
pub proof fn law_an_end_relies_on_what_was_shown(data: RunShown, agent_run: Seq<char>)
    requires
        settle_expected(data, agent_run) is Ok,
    ensures
        ({
            let (step, e) = settle_expected(data, agent_run)->Ok_0;
            &&& relies_on_step(e, data, step)
            &&& e.agent_runs.len() == 1
            &&& exists|r: AgentRunShown|
                {
                    &&& #[trigger] data.agent_runs.contains(r)
                    &&& r.agent_run == agent_run
                    &&& r.step == step
                    &&& of_row(e.agent_runs[0], agent_run, r.revision)
                }
        }),
{
    lemma_shown_run(data.agent_runs, agent_run, 0);
    let r = shown_run(data.agent_runs, agent_run, 0)->0;
    lemma_shown_step(data.steps, r.step, 0);
    assert(data.agent_runs.contains(r));
    assert(data.steps.contains(shown_step(data.steps, r.step, 0)->0));
}

} // verus!
