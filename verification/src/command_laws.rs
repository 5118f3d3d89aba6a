//! What holds of every command, whatever it carries: which revisions it is taken on, and
//! what it leaves in its store.

use crate::authority::{
    collection_axes, expectation_met, expectations_met, run_axes, workflow_axes, ControllerView,
};
use crate::command::{EnvelopeView, ProblemView};
use crate::dispatch::{
    change_event, dispatch_view, AppliedView, EffectView, FaultPoint, Intents, TargetTables,
};
use crate::handles::{AggregateKind, ExpectedView};
use crate::json::{distinct_names, field_of, sorted_view, JsonView};
use crate::lease::LeaseView;
use crate::project_rows::{
    agent_run_by_handle, session_by_handle, step_by_handle, task_by_handle, workflow_by_handle,
    RowsView,
};
use crate::publication::{lemma_sorted_aggregate, lemma_sorted_field};
use vstd::prelude::*;
use vstd::string::*;

verus! {

/// Whether a stored revision is the one that is expected: the same number, where an expected
/// one beyond the signed range stands for the stored one with the same 64 bits.
pub open spec fn same_revision(stored: i64, expected: nat) -> bool {
    stored == expected || (expected > i64::MAX && stored == expected - 0x1_0000_0000_0000_0000)
}

proof fn lemma_workflow_found(v: Seq<crate::project_rows::WorkflowView>, key: Seq<char>, from: int)
    requires
        0 <= from,
    ensures
        match workflow_by_handle(v, key, from) {
            Some(w) => exists|j: int|
                from <= j < v.len() && #[trigger] v[j] == w && w.public_handle == key && forall|i:
                    int| from <= i < j ==> (#[trigger] v[i]).public_handle != key,
            None => forall|i: int| from <= i < v.len() ==> (#[trigger] v[i]).public_handle != key,
        },
    decreases v.len() - from,
{
    if from < v.len() {
        lemma_workflow_found(v, key, from + 1);
        if v[from].public_handle == key {
            assert(v[from].public_handle == key);
        } else if workflow_by_handle(v, key, from + 1) is Some {
            let w = workflow_by_handle(v, key, from + 1)->0;
            let j = choose|j: int|
                from + 1 <= j < v.len() && #[trigger] v[j] == w && w.public_handle == key && forall|
                    i: int,
                |
                    from + 1 <= i < j ==> (#[trigger] v[i]).public_handle != key;
            assert(v[j] == w);
            assert forall|i: int| from <= i < j implies (#[trigger] v[i]).public_handle != key by {}
        }
    }
}

proof fn lemma_workflow_axes(
    semantic: i64,
    presentation: i64,
    revisions: Seq<(Seq<char>, nat)>,
    from: int,
)
    requires
        0 <= from,
    ensures
        workflow_axes(semantic, presentation, revisions, from) is Ok <==> forall|k: int|
            from <= k < revisions.len() ==> {
                let r = #[trigger] revisions[k];
                ||| r.0 == "semantic_revision"@ && same_revision(semantic, r.1)
                ||| r.0 == "presentation_revision"@ && same_revision(presentation, r.1)
            },
    decreases revisions.len() - from,
{
    reveal_strlit("semantic_revision");
    reveal_strlit("presentation_revision");
    assert("semantic_revision"@.len() == 17 && "presentation_revision"@.len() == 21);
    if from < revisions.len() {
        lemma_workflow_axes(semantic, presentation, revisions, from + 1);
    }
}

proof fn lemma_collection_axes(collection: i64, revisions: Seq<(Seq<char>, nat)>, from: int)
    requires
        0 <= from,
    ensures
        collection_axes(collection, revisions, from) is Ok <==> forall|k: int|
            from <= k < revisions.len() ==> (#[trigger] revisions[k]).0
                == "workflow_collection_revision"@ && same_revision(collection, revisions[k].1),
    decreases revisions.len() - from,
{
    if from < revisions.len() {
        lemma_collection_axes(collection, revisions, from + 1);
    }
}

proof fn lemma_run_axes(
    kind: AggregateKind,
    actual: i64,
    revisions: Seq<(Seq<char>, nat)>,
    from: int,
)
    requires
        0 <= from,
    ensures
        run_axes(kind, actual, revisions, from) is Ok <==> forall|k: int|
            from <= k < revisions.len() ==> (#[trigger] revisions[k]).0 == "revision"@ && actual >= 0
                && actual == revisions[k].1,
    decreases revisions.len() - from,
{
    if from < revisions.len() {
        lemma_run_axes(kind, actual, revisions, from + 1);
    }
}

proof fn lemma_all_met(rows: RowsView, store: Seq<char>, expected: Seq<ExpectedView>, from: int)
    requires
        0 <= from,
    ensures
        expectations_met(rows, store, expected, from) is Ok <==> forall|i: int|
            from <= i < expected.len() ==> expectation_met(rows, store, #[trigger] expected[i])
                is Ok,
    decreases expected.len() - from,
{
    if from < expected.len() {
        lemma_all_met(rows, store, expected, from + 1);
    }
}

/// A command is taken only on the revisions that it relies on. Where its expectations are
/// met, every workflow that it names is there, and on each axis that it names the stored
/// revision is the expected one.
pub proof fn law_a_workflow_is_as_expected(
    rows: RowsView,
    store: Seq<char>,
    expected: Seq<ExpectedView>,
    i: int,
    k: int,
    j: int,
)
    requires
        expectations_met(rows, store, expected, 0) is Ok,
        0 <= i < expected.len(),
        expected[i].aggregate.kind is ProjectWorkflow,
        0 <= k < expected[i].revisions.len(),
        0 <= j < rows.workflows.len(),
        rows.workflows[j].public_handle == expected[i].aggregate.handle,
        forall|n: int|
            0 <= n < j ==> (#[trigger] rows.workflows[n]).public_handle
                != expected[i].aggregate.handle,
    ensures
        ({
            let (axis, revision) = expected[i].revisions[k];
            ||| axis == "semantic_revision"@ && same_revision(
                rows.workflows[j].semantic_revision,
                revision,
            )
            ||| axis == "presentation_revision"@ && same_revision(
                rows.workflows[j].presentation_revision,
                revision,
            )
        }),
{
    lemma_all_met(rows, store, expected, 0);
    assert(expectation_met(rows, store, expected[i]) is Ok);
    lemma_workflow_found(rows.workflows, expected[i].aggregate.handle, 0);
    let w = rows.workflows[j];
    lemma_workflow_axes(w.semantic_revision, w.presentation_revision, expected[i].revisions, 0);
    assert(workflow_by_handle(rows.workflows, expected[i].aggregate.handle, 0) == Some(w));
    let r = expected[i].revisions[k];
}

/// A workflow that moved on since a command was written is not changed by it: a first
/// expectation of another revision, above or below the stored one, is a conflict.
pub proof fn law_a_stale_command_is_refused(
    rows: RowsView,
    store: Seq<char>,
    expected: Seq<ExpectedView>,
    j: int,
)
    requires
        expected.len() > 0,
        expected[0].aggregate.kind is ProjectWorkflow,
        expected[0].revisions.len() > 0,
        0 <= j < rows.workflows.len(),
        rows.workflows[j].public_handle == expected[0].aggregate.handle,
        forall|n: int|
            0 <= n < j ==> (#[trigger] rows.workflows[n]).public_handle
                != expected[0].aggregate.handle,
        ({
            let (axis, revision) = expected[0].revisions[0];
            ||| axis == "semantic_revision"@ && !same_revision(
                rows.workflows[j].semantic_revision,
                revision,
            )
            ||| axis == "presentation_revision"@ && !same_revision(
                rows.workflows[j].presentation_revision,
                revision,
            )
        }),
    ensures
        expectations_met(rows, store, expected, 0) == Err::<(), ProblemView>(
            ProblemView::RevisionConflict,
        ),
{
    reveal_strlit("semantic_revision");
    reveal_strlit("presentation_revision");
    assert("semantic_revision"@.len() == 17 && "presentation_revision"@.len() == 21);
    lemma_workflow_found(rows.workflows, expected[0].aggregate.handle, 0);
    assert(workflow_by_handle(rows.workflows, expected[0].aggregate.handle, 0) == Some(
        rows.workflows[j],
    ));
}

/// What a command relies on besides workflows holds as well: the collection of its own
/// project stands at the expected revision, and so does everything of a run that it names.
pub proof fn law_everything_is_as_expected(
    rows: RowsView,
    store: Seq<char>,
    expected: Seq<ExpectedView>,
    i: int,
    k: int,
)
    requires
        expectations_met(rows, store, expected, 0) is Ok,
        0 <= i < expected.len(),
        0 <= k < expected[i].revisions.len(),
    ensures
        ({
            let e = expected[i];
            let (axis, n) = e.revisions[k];
            &&& e.aggregate.kind is Project ==> e.aggregate.handle == store && axis
                == "workflow_collection_revision"@ && same_revision(rows.collection_revision, n)
            &&& e.aggregate.kind is WorkflowRun ==> axis == "revision"@ && exists|j: int|
                0 <= j < rows.tasks.len() && (#[trigger] rows.tasks[j]).public_handle
                    == e.aggregate.handle && rows.tasks[j].revision == n
            &&& e.aggregate.kind is Step ==> axis == "revision"@ && exists|j: int|
                0 <= j < rows.steps.len() && (#[trigger] rows.steps[j]).public_handle
                    == e.aggregate.handle && rows.steps[j].revision == n
            &&& e.aggregate.kind is AgentRun ==> axis == "revision"@ && exists|j: int|
                0 <= j < rows.agent_runs.len() && (#[trigger] rows.agent_runs[j]).public_handle
                    == e.aggregate.handle && rows.agent_runs[j].revision == n
            &&& e.aggregate.kind is AgentSession ==> axis == "revision"@ && exists|j: int|
                0 <= j < rows.sessions.len() && (#[trigger] rows.sessions[j]).public_handle
                    == e.aggregate.handle && rows.sessions[j].revision == n
            &&& e.aggregate.kind is ProjectWorkflow || e.aggregate.kind is Project
                || e.aggregate.kind is WorkflowRun || e.aggregate.kind is Step || e.aggregate.kind
                is AgentRun || e.aggregate.kind is AgentSession
        }),
{
    let e = expected[i];
    let key = e.aggregate.handle;
    lemma_all_met(rows, store, expected, 0);
    assert(expectation_met(rows, store, expected[i]) is Ok);
    lemma_collection_axes(rows.collection_revision, e.revisions, 0);
    let r = e.revisions[k];
    lemma_task_found(rows.tasks, key, 0);
    lemma_step_found(rows.steps, key, 0);
    lemma_agent_run_found(rows.agent_runs, key, 0);
    lemma_session_found(rows.sessions, key, 0);
    match crate::authority::run_revision(rows, e.aggregate) {
        Some(actual) => {
            lemma_run_axes(e.aggregate.kind, actual, e.revisions, 0);
        },
        None => {},
    }
}

/// A command whose every expectation is that of a workflow as it is stored is taken.
pub proof fn law_what_is_up_to_date_is_taken(
    rows: RowsView,
    store: Seq<char>,
    expected: Seq<ExpectedView>,
)
    requires
        forall|i: int|
            0 <= i < expected.len() ==> (#[trigger] expected[i]).aggregate.kind is ProjectWorkflow
                && exists|j: int|
                0 <= j < rows.workflows.len() && (#[trigger] rows.workflows[j]).public_handle
                    == expected[i].aggregate.handle && (forall|n: int|
                    0 <= n < j ==> (#[trigger] rows.workflows[n]).public_handle
                        != expected[i].aggregate.handle) && forall|k: int|
                    0 <= k < expected[i].revisions.len() ==> {
                        let r = #[trigger] expected[i].revisions[k];
                        ||| r.0 == "semantic_revision"@ && same_revision(
                            rows.workflows[j].semantic_revision,
                            r.1,
                        )
                        ||| r.0 == "presentation_revision"@ && same_revision(
                            rows.workflows[j].presentation_revision,
                            r.1,
                        )
                    },
    ensures
        expectations_met(rows, store, expected, 0) is Ok,
{
    assert forall|i: int| 0 <= i < expected.len() implies expectation_met(
        rows,
        store,
        #[trigger] expected[i],
    ) is Ok by {
        let key = expected[i].aggregate.handle;
        let j = choose|j: int|
            0 <= j < rows.workflows.len() && (#[trigger] rows.workflows[j]).public_handle == key && (
            forall|n: int|
                0 <= n < j ==> (#[trigger] rows.workflows[n]).public_handle != key) && forall|k:
                int|
                0 <= k < expected[i].revisions.len() ==> {
                    let r = #[trigger] expected[i].revisions[k];
                    ||| r.0 == "semantic_revision"@ && same_revision(
                        rows.workflows[j].semantic_revision,
                        r.1,
                    )
                    ||| r.0 == "presentation_revision"@ && same_revision(
                        rows.workflows[j].presentation_revision,
                        r.1,
                    )
                };
        let w = rows.workflows[j];
        lemma_workflow_found(rows.workflows, key, 0);
        assert(workflow_by_handle(rows.workflows, key, 0) == Some(w));
        lemma_workflow_axes(w.semantic_revision, w.presentation_revision, expected[i].revisions, 0);
    }
    lemma_all_met(rows, store, expected, 0);
}

proof fn lemma_task_found(v: Seq<crate::project_rows::TaskView>, key: Seq<char>, from: int)
    requires
        0 <= from,
    ensures
        task_by_handle(v, key, from) matches Some(row) ==> row.public_handle == key && exists|j:
            int| from <= j < v.len() && #[trigger] v[j] == row,
    decreases v.len() - from,
{
    if from < v.len() {
        lemma_task_found(v, key, from + 1);
        assert(v[from] == v[from]);
    }
}

proof fn lemma_step_found(v: Seq<crate::project_rows::RunStepView>, key: Seq<char>, from: int)
    requires
        0 <= from,
    ensures
        step_by_handle(v, key, from) matches Some(row) ==> row.public_handle == key && exists|j:
            int| from <= j < v.len() && #[trigger] v[j] == row,
    decreases v.len() - from,
{
    if from < v.len() {
        lemma_step_found(v, key, from + 1);
        assert(v[from] == v[from]);
    }
}

proof fn lemma_agent_run_found(v: Seq<crate::project_rows::AgentRunView>, key: Seq<char>, from: int)
    requires
        0 <= from,
    ensures
        agent_run_by_handle(v, key, from) matches Some(row) ==> row.public_handle == key && exists|
            j: int,
        |
            from <= j < v.len() && #[trigger] v[j] == row,
    decreases v.len() - from,
{
    if from < v.len() {
        lemma_agent_run_found(v, key, from + 1);
        assert(v[from] == v[from]);
    }
}

proof fn lemma_session_found(
    v: Seq<crate::project_rows::AgentSessionView>,
    key: Seq<char>,
    from: int,
)
    requires
        0 <= from,
    ensures
        session_by_handle(v, key, from) matches Some(row) ==> row.public_handle == key && exists|j:
            int| from <= j < v.len() && #[trigger] v[j] == row,
    decreases v.len() - from,
{
    if from < v.len() {
        lemma_session_found(v, key, from + 1);
        assert(v[from] == v[from]);
    }
}

/// Only who holds the lease is let in: the client and the user that it was granted to last,
/// under the epoch of that grant, and without a root epoch.
pub proof fn law_only_the_holder_of_the_lease_is_let_in(lease: ControllerView, asks: LeaseView)
    ensures
        lease.admits(asks) is Ok <==> asks.controller_epoch == lease.epoch && lease.controller
            == Some(asks.client_id) && lease.principal == Some(asks.principal) && asks.root_epoch
            is None,
        lease.epoch < u64::MAX ==> {
            let (after, epoch) = lease.granted(asks.client_id, asks.principal);
            &&& epoch is Ok
            &&& epoch->Ok_0 == lease.epoch + 1
            &&& after.epoch == epoch->Ok_0
            &&& asks.root_epoch is None ==> after.admits(
                LeaseView { controller_epoch: epoch->Ok_0, ..asks },
            ) is Ok
            &&& after.admits(LeaseView { controller_epoch: lease.epoch, ..asks }) is Err
        },
{
}

/// A command that is applied for the first time is applied on its word: its sender was let
/// in, what it expects was so, its effect went through; and it leaves in its store one final
/// receipt under its id, with its meaning and the revisions that its effect said, and one
/// event for each change, in order, behind what was there. Nothing else moves.
pub proof fn law_an_applied_command_leaves_its_receipt_and_its_events(
    intents: Intents,
    t: TargetTables,
    e: EnvelopeView,
    digest: Result<Seq<char>, ProblemView>,
    admission: Result<(), ProblemView>,
    expectation: Result<(), ProblemView>,
    effect: Option<Result<EffectView, ProblemView>>,
    fault: Option<FaultPoint>,
    now: Seq<char>,
)
    requires
        ({
            let (_, _, answer) = dispatch_view(
                intents,
                t,
                e,
                digest,
                admission,
                expectation,
                effect,
                fault,
                now,
            );
            answer is Ok && !answer->Ok_0.replayed
        }),
    ensures
        ({
            let (after, t1, answer) = dispatch_view(
                intents,
                t,
                e,
                digest,
                admission,
                expectation,
                effect,
                fault,
                now,
            );
            let receipt = t1.receipts[e.command_id];
            &&& admission is Ok
            &&& expectation is Ok
            &&& effect is Some && effect->0 is Ok
            &&& digest is Ok
            &&& !t.receipts.contains_key(e.command_id)
            &&& t1.receipts == t.receipts.insert(e.command_id, receipt)
            &&& receipt.command_id == e.command_id
            &&& receipt.semantic_digest == digest->Ok_0
            &&& receipt.aggregate_handle == e.target.aggregate.handle
            &&& receipt.result == sorted_view(effect->0->Ok_0.result_revisions)
            &&& receipt.state == "applied"@
            &&& receipt.finalized_at == Some(now)
            &&& answer->Ok_0.result == effect->0->Ok_0.result_revisions
            &&& t1.store_key == t.store_key
            &&& t1.kind == t.kind
            &&& t1.outbox.len() == t.outbox.len() + effect->0->Ok_0.projections.len()
            &&& t.outbox == t1.outbox.take(t.outbox.len() as int)
            &&& after.contains_key(e.command_id)
            &&& after[e.command_id].state is Applied
            &&& after[e.command_id].semantic_digest == digest->Ok_0
            &&& forall|other: Seq<char>|
                other != e.command_id ==> (#[trigger] after.contains_key(other)
                    == intents.contains_key(other)) && (intents.contains_key(other)
                    ==> after[other] == intents[other])
        }),
{
    let (after, t1, answer) = dispatch_view(
        intents,
        t,
        e,
        digest,
        admission,
        expectation,
        effect,
        fault,
        now,
    );
    assert(t1.outbox.take(t.outbox.len() as int) =~= t.outbox);
}

/// Each change of an applied command is told as it is: under its own aggregate and type where
/// it has them and those of the command where not, with what clients are to see and what is
/// left to do.
pub proof fn law_a_change_is_told_as_it_is(
    intents: Intents,
    t: TargetTables,
    e: EnvelopeView,
    digest: Result<Seq<char>, ProblemView>,
    output: EffectView,
    now: Seq<char>,
    k: int,
)
    requires
        0 <= k < output.projections.len(),
        ({
            let (_, _, answer) = dispatch_view(
                intents,
                t,
                e,
                digest,
                Ok(()),
                Ok(()),
                Some(Ok(output)),
                None,
                now,
            );
            answer is Ok && !answer->Ok_0.replayed
        }),
    ensures
        ({
            let (_, t1, _) = dispatch_view(
                intents,
                t,
                e,
                digest,
                Ok(()),
                Ok(()),
                Some(Ok(output)),
                None,
                now,
            );
            let c = output.projections[k];
            let row = t1.outbox[t.outbox.len() + k];
            let about = field_of(row.event, "aggregate"@)->0;
            &&& row.published_at is None
            &&& field_of(row.event, "projection"@) == Some(sorted_view(c.payload))
            &&& field_of(row.event, "caused_by_command_id"@) == Some(JsonView::Text(e.command_id))
            &&& field_of(row.event, "projection_critical"@) == Some(
                JsonView::Bool(c.projection_critical),
            )
            &&& field_of(row.event, "type"@) == Some(
                JsonView::Text(
                    (match c.event_type {
                        Some(name) => name,
                        None => e.command_type.name(),
                    }) + ".applied"@,
                ),
            )
            &&& field_of(about, "handle"@) == Some(
                JsonView::Text(
                    match c.aggregate {
                        Some(a) => a.handle,
                        None => e.target.aggregate.handle,
                    },
                ),
            )
            &&& field_of(about, "kind"@) == Some(
                JsonView::Text(
                    match c.aggregate {
                        Some(a) => a.kind.name(),
                        None => e.target.aggregate.kind.name(),
                    },
                ),
            )
            &&& field_of(row.event, "run_actions"@) is Some <==> c.run_actions.len() > 0
            &&& c.run_actions.len() > 0 ==> field_of(
                field_of(row.event, "run_actions"@)->0,
                "actions"@,
            ) == Some(sorted_view(JsonView::Array(c.run_actions)))
        }),
{
    let c = output.projections[k];
    let v = change_event(e, c);
    let f = v->Object_0;
    reveal_strlit("type");
    reveal_strlit("aggregate");
    reveal_strlit("caused_by_command_id");
    reveal_strlit("projection_critical");
    reveal_strlit("projection");
    reveal_strlit("run_actions");
    reveal_strlit("schema");
    reveal_strlit("actions");
    assert("type"@.len() == 4 && "aggregate"@.len() == 9 && "caused_by_command_id"@.len() == 20
        && "projection_critical"@.len() == 19 && "projection"@.len() == 10 && "run_actions"@.len()
        == 11 && "schema"@.len() == 6 && "actions"@.len() == 7);
    assert(distinct_names(f));
    lemma_sorted_field(f, 0);
    lemma_sorted_field(f, 1);
    lemma_sorted_field(f, 2);
    lemma_sorted_field(f, 3);
    lemma_sorted_field(f, 4);
    crate::json::law_sorting_keeps_the_fields(f, "run_actions"@);
    lemma_sorted_aggregate(
        match c.aggregate {
            Some(a) => a,
            None => e.target.aggregate,
        },
    );
    if c.run_actions.len() > 0 {
        lemma_sorted_field(f, 5);
        let inner = f[5].1->Object_0;
        assert(distinct_names(inner));
        lemma_sorted_field(inner, 1);
    } else {
        crate::json::lemma_field_in(f, "run_actions"@);
    }
}

/// A command takes effect at most once: where its store has a receipt under its id, nothing
/// in the store changes, whatever the effect would do; and the answer, if there is one, is
/// what the receipt says.
pub proof fn law_a_command_takes_effect_at_most_once(
    intents: Intents,
    t: TargetTables,
    e: EnvelopeView,
    digest: Result<Seq<char>, ProblemView>,
    admission: Result<(), ProblemView>,
    expectation: Result<(), ProblemView>,
    effect: Option<Result<EffectView, ProblemView>>,
    fault: Option<FaultPoint>,
    now: Seq<char>,
)
    requires
        t.receipts.contains_key(e.command_id),
    ensures
        ({
            let (_, t1, answer) = dispatch_view(
                intents,
                t,
                e,
                digest,
                admission,
                expectation,
                effect,
                fault,
                now,
            );
            &&& t1 == t
            &&& answer matches Ok(a) ==> a.replayed && a.result == t.receipts[e.command_id].result
                && digest == Ok::<Seq<char>, ProblemView>(
                t.receipts[e.command_id].semantic_digest,
            ) && t.receipts[e.command_id].aggregate_handle == e.target.aggregate.handle
                && admission is Ok
        }),
{
}

/// A command that is refused changes nothing in its store, and its intent, if it was open,
/// does not count as applied.
pub proof fn law_what_is_refused_changes_nothing(
    intents: Intents,
    t: TargetTables,
    e: EnvelopeView,
    digest: Result<Seq<char>, ProblemView>,
    admission: Result<(), ProblemView>,
    expectation: Result<(), ProblemView>,
    effect: Option<Result<EffectView, ProblemView>>,
    now: Seq<char>,
)
    requires
        admission is Err || digest is Err || e.target.store_key() != t.store_key || e.target.store
            != t.kind || (!t.receipts.contains_key(e.command_id) && (expectation is Err || effect
            matches Some(Err(_)))),
    ensures
        ({
            let (after, t1, answer) = dispatch_view(
                intents,
                t,
                e,
                digest,
                admission,
                expectation,
                effect,
                None,
                now,
            );
            &&& answer is Err
            &&& t1 == t
            &&& after.contains_key(e.command_id) && after[e.command_id].state is Applied
                ==> intents.contains_key(e.command_id) && intents[e.command_id].state is Applied
        }),
{
}

/// A command against which nothing stands is applied.
pub proof fn law_what_nothing_stands_against_is_applied(
    intents: Intents,
    t: TargetTables,
    e: EnvelopeView,
    digest: Seq<char>,
    output: EffectView,
    now: Seq<char>,
)
    requires
        e.target.store == t.kind,
        e.target.store_key() == t.store_key,
        e.controller_epoch <= i64::MAX,
        e.root_epoch matches Some(n) ==> n <= i64::MAX,
        !intents.contains_key(e.command_id),
        !t.receipts.contains_key(e.command_id),
        !output.leaks(e.payload.secret()),
    ensures
        dispatch_view(
            intents,
            t,
            e,
            Ok(digest),
            Ok(()),
            Ok(()),
            Some(Ok(output)),
            None,
            now,
        ).2 == Ok::<AppliedView, ProblemView>(
            AppliedView { result: output.result_revisions, replayed: false },
        ),
{
}

} // verus!
