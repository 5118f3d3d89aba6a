//! What commands write can be told: the events that they leave in the outbox compile into
//! events that clients can follow.

use crate::canonical::law_aggregate_kind_round_trip;
use crate::command::{aggregate_json, CommandType, EnvelopeView};
use crate::dispatch::{change_event, change_events, ProjectionChange};
use crate::handles::{AggregateKind, AggregateView};
use crate::json::{
    distinct_names, field_in, field_of, law_sorting_keeps_the_fields, sort_fields, sorted_values,
    sorted_view, JsonView,
};
use crate::project_rows::{workflow_by_handle, RowsView};
use crate::projection::{
    compiled_event, event_name, AggregateRevision, EventView, RevisionVector, ScalarRevision,
};
use crate::run_effects::replacement;
use crate::text::{ends, is_blank};
use crate::workflow_effects::{
    change_json, name_data_json, pair_json, rename_view, typed_delta_json,
};
use vstd::prelude::*;
use vstd::string::*;

verus! {

pub(crate) proof fn lemma_field_at(f: Seq<(Seq<char>, JsonView)>, i: int)
    requires
        distinct_names(f),
        0 <= i < f.len(),
    ensures
        field_in(f, f[i].0) == Some(f[i].1),
    decreases f.len(),
{
    if i > 0 {
        assert(f[0].0 != f[i].0);
        let rest = f.skip(1);
        assert forall|a: int, b: int| 0 <= a < b < rest.len() implies (#[trigger] rest[a]).0 != (
        #[trigger] rest[b]).0 by {
            assert(f[a + 1].0 != f[b + 1].0);
        }
        assert(rest[i - 1] == f[i]);
        lemma_field_at(rest, i - 1);
    }
}

/// A field of an object is found in its sorted form, sorted itself.
pub(crate) proof fn lemma_sorted_field(f: Seq<(Seq<char>, JsonView)>, i: int)
    requires
        distinct_names(f),
        0 <= i < f.len(),
    ensures
        field_of(sorted_view(JsonView::Object(f)), f[i].0) == Some(sorted_view(f[i].1)),
{
    lemma_field_at(f, i);
    law_sorting_keeps_the_fields(f, f[i].0);
}

proof fn lemma_sorted_event(e: EnvelopeView, c: ProjectionChange)
    requires
        c.run_actions.len() == 0,
    ensures
        ({
            let v = sorted_view(change_event(e, c));
            let name = match c.event_type {
                Some(t) => t,
                None => e.command_type.name(),
            };
            let aggregate = match c.aggregate {
                Some(a) => a,
                None => e.target.aggregate,
            };
            &&& field_of(v, "type"@) == Some(JsonView::Text(name + ".applied"@))
            &&& field_of(v, "aggregate"@) == Some(sorted_view(aggregate_json(aggregate)))
            &&& field_of(v, "caused_by_command_id"@) == Some(JsonView::Text(e.command_id))
            &&& field_of(v, "projection_critical"@) == Some(JsonView::Bool(c.projection_critical))
            &&& field_of(v, "projection"@) == Some(sorted_view(c.payload))
        }),
{
    reveal_strlit("type");
    reveal_strlit("aggregate");
    reveal_strlit("caused_by_command_id");
    reveal_strlit("projection_critical");
    reveal_strlit("projection");
    assert("type"@.len() == 4);
    assert("aggregate"@.len() == 9);
    assert("caused_by_command_id"@.len() == 20);
    assert("projection_critical"@.len() == 19);
    assert("projection"@.len() == 10);
    let f = change_event(e, c)->Object_0;
    assert(distinct_names(f));
    lemma_sorted_field(f, 0);
    lemma_sorted_field(f, 1);
    lemma_sorted_field(f, 2);
    lemma_sorted_field(f, 3);
    lemma_sorted_field(f, 4);
}

pub(crate) proof fn lemma_sorted_aggregate(a: AggregateView)
    ensures
        field_of(sorted_view(aggregate_json(a)), "kind"@) == Some(JsonView::Text(a.kind.name())),
        field_of(sorted_view(aggregate_json(a)), "handle"@) == Some(JsonView::Text(a.handle)),
{
    reveal_strlit("kind");
    reveal_strlit("handle");
    assert("kind"@.len() == 4);
    assert("handle"@.len() == 6);
    let f = aggregate_json(a)->Object_0;
    assert(distinct_names(f));
    lemma_sorted_field(f, 0);
    lemma_sorted_field(f, 1);
}

proof fn lemma_sorted_change(base: JsonView, after: JsonView, delta: JsonView)
    ensures
        ({
            let v = sorted_view(change_json(base, after, delta));
            &&& field_of(v, "base_revision"@) == Some(sorted_view(base))
            &&& field_of(v, "aggregate_revision"@) == Some(sorted_view(after))
            &&& field_of(v, "delta"@) == Some(sorted_view(delta))
        }),
{
    reveal_strlit("base_revision");
    reveal_strlit("aggregate_revision");
    reveal_strlit("delta");
    assert("base_revision"@.len() == 13);
    assert("aggregate_revision"@.len() == 18);
    assert("delta"@.len() == 5);
    let f = change_json(base, after, delta)->Object_0;
    assert(distinct_names(f));
    lemma_sorted_field(f, 0);
    lemma_sorted_field(f, 1);
    lemma_sorted_field(f, 2);
}

proof fn lemma_sorted_pair(semantic: i64, presentation: i64)
    requires
        0 <= semantic,
        0 <= presentation,
    ensures
        ({
            let v = sorted_view(pair_json(semantic, presentation));
            &&& field_of(v, "semantic_revision"@) == Some(JsonView::Unsigned(semantic as nat))
            &&& field_of(v, "presentation_revision"@) == Some(
                JsonView::Unsigned(presentation as nat),
            )
        }),
{
    reveal_strlit("semantic_revision");
    reveal_strlit("presentation_revision");
    assert("semantic_revision"@.len() == 17);
    assert("presentation_revision"@.len() == 21);
    let f = pair_json(semantic, presentation)->Object_0;
    assert(distinct_names(f));
    lemma_sorted_field(f, 0);
    lemma_sorted_field(f, 1);
}

/// Sorting an object of one field sorts its value.
proof fn lemma_sorted_single(name: Seq<char>, value: JsonView)
    ensures
        sorted_view(JsonView::Object(seq![(name, value)])) == JsonView::Object(
            seq![(name, sorted_view(value))],
        ),
{
    let f = seq![(name, value)];
    let s = sorted_values(f);
    assert(s.len() == 1);
    assert(s[0] == (name, sorted_view(value)));
    assert(s.drop_last() =~= Seq::<(Seq<char>, JsonView)>::empty());
    reveal_with_fuel(sort_fields, 2);
    assert(sort_fields(s) =~= seq![(name, sorted_view(value))]);
    assert(sorted_view(JsonView::Object(f)) == JsonView::Object(sort_fields(s)));
}

proof fn lemma_sorted_delta(delta_type: Seq<char>, data: JsonView)
    ensures
        ({
            let v = sorted_view(typed_delta_json(delta_type, data));
            &&& field_of(v, "mode"@) == Some(JsonView::Text("typed_delta"@))
            &&& field_of(v, "delta_type"@) == Some(JsonView::Text(delta_type))
            &&& field_of(v, "data"@) == Some(sorted_view(data))
        }),
{
    reveal_strlit("mode");
    reveal_strlit("delta_type");
    reveal_strlit("data");
    assert("mode"@.len() == 4);
    assert("delta_type"@.len() == 10);
    assert("data"@.len() == 4);
    assert("mode"@[0] != "data"@[0]);
    let f = typed_delta_json(delta_type, data)->Object_0;
    assert(distinct_names(f));
    lemma_sorted_field(f, 0);
    lemma_sorted_field(f, 1);
    lemma_sorted_field(f, 2);
}

proof fn lemma_event_name(name: Seq<char>)
    ensures
        event_name(name + ".applied"@) == name,
{
    let stored = name + ".applied"@;
    assert(stored.skip(stored.len() - ".applied"@.len()) =~= ".applied"@);
    assert(ends(".applied"@, stored)) by {
        assert forall|i: int| 0 <= i < ".applied"@.len() implies stored[stored.len()
            - ".applied"@.len() + i] == ".applied"@[i] by {}
    }
    assert(stored.take(stored.len() - ".applied"@.len()) =~= name);
}

/// A rename that was carried out can be told: what it wrote compiles into the event that
/// clients follow, one step of the presentation further.
pub proof fn law_a_rename_can_be_told(
    rows: RowsView,
    handle: Seq<char>,
    name: Seq<char>,
    e: EnvelopeView,
    epoch: Seq<char>,
    seq: u64,
    occurred_at: Seq<char>,
)
    requires
        rename_view(rows, handle, name) is Ok,
        rename_view(rows, handle, name)->Ok_0.1 is Some,
        workflow_by_handle(rows.workflows, handle, 0)->0.presentation_revision < i64::MAX,
        !is_blank(name),
        !is_blank(handle),
        e.command_type == CommandType::WorkflowRename,
        e.target.aggregate == (AggregateView { kind: AggregateKind::ProjectWorkflow, handle }),
    ensures
        ({
            let w = workflow_by_handle(rows.workflows, handle, 0)->0;
            let told = change_events(e, rename_view(rows, handle, name)->Ok_0.0.projections);
            &&& told.len() == 1
            &&& compiled_event(epoch, seq, occurred_at, told[0].event) == Ok::<
                EventView,
                Seq<char>,
            >(
                EventView {
                    stream_epoch: epoch,
                    seq,
                    occurred_at,
                    aggregate: e.target.aggregate,
                    base_revision: AggregateRevision::Workflow(
                        RevisionVector {
                            semantic_revision: w.semantic_revision as u64,
                            presentation_revision: w.presentation_revision as u64,
                        },
                    ),
                    aggregate_revision: AggregateRevision::Workflow(
                        RevisionVector {
                            semantic_revision: w.semantic_revision as u64,
                            presentation_revision: (w.presentation_revision + 1) as u64,
                        },
                    ),
                    caused_by_command_id: Some(e.command_id),
                    event_type: "workflow.rename"@,
                    projection_critical: true,
                    projection: sorted_view(
                        typed_delta_json("workflow.rename"@, name_data_json(name)),
                    ),
                },
            )
        }),
{
    let w = workflow_by_handle(rows.workflows, handle, 0)->0;
    let next = (w.presentation_revision + 1) as i64;
    let c = rename_view(rows, handle, name)->Ok_0.0.projections[0];
    let delta = typed_delta_json("workflow.rename"@, name_data_json(name));
    let base = pair_json(w.semantic_revision, w.presentation_revision);
    let after = pair_json(w.semantic_revision, next);
    assert(c.payload == change_json(base, after, delta));
    lemma_sorted_event(e, c);
    lemma_sorted_aggregate(e.target.aggregate);
    law_aggregate_kind_round_trip(AggregateKind::ProjectWorkflow);
    lemma_sorted_change(base, after, delta);
    lemma_sorted_pair(w.semantic_revision, w.presentation_revision);
    lemma_sorted_pair(w.semantic_revision, next);
    lemma_sorted_delta("workflow.rename"@, name_data_json(name));
    lemma_sorted_single("name"@, JsonView::Text(name));
    lemma_event_name("workflow.rename"@);
}

proof fn lemma_sorted_replacement(base: nat, revision: u64, data: JsonView)
    ensures
        ({
            let v = sorted_view(replacement(base, revision, data));
            &&& field_of(v, "base_revision"@) == Some(
                JsonView::Object(seq![("revision"@, JsonView::Unsigned(base))]),
            )
            &&& field_of(v, "aggregate_revision"@) == Some(
                JsonView::Object(seq![("revision"@, JsonView::Unsigned(revision as nat))]),
            )
            &&& field_of(v, "delta"@) is Some
            &&& field_of(field_of(v, "delta"@)->0, "mode"@) == Some(JsonView::Text("replace"@))
            &&& field_of(field_of(v, "delta"@)->0, "data"@) == Some(sorted_view(data))
        }),
{
    reveal_strlit("base_revision");
    reveal_strlit("aggregate_revision");
    reveal_strlit("delta");
    reveal_strlit("mode");
    reveal_strlit("data");
    assert("base_revision"@.len() == 13);
    assert("aggregate_revision"@.len() == 18);
    assert("delta"@.len() == 5);
    assert("mode"@[0] != "data"@[0]);
    let f = replacement(base, revision, data)->Object_0;
    assert(distinct_names(f));
    lemma_sorted_field(f, 0);
    lemma_sorted_field(f, 1);
    lemma_sorted_field(f, 2);
    lemma_sorted_single("revision"@, JsonView::Unsigned(base));
    lemma_sorted_single("revision"@, JsonView::Unsigned(revision as nat));
    let d = f[2].1->Object_0;
    assert(distinct_names(d));
    lemma_sorted_field(d, 0);
    lemma_sorted_field(d, 1);
}

/// What a command on a run moved forward can be told: it compiles into an event that
/// replaces what clients saw.
pub proof fn law_a_run_that_moved_can_be_told(
    e: EnvelopeView,
    c: ProjectionChange,
    base: u64,
    revision: u64,
    data: JsonView,
    epoch: Seq<char>,
    seq: u64,
    occurred_at: Seq<char>,
)
    requires
        c.payload == replacement(base as nat, revision, data),
        c.aggregate is Some,
        !(c.aggregate->0.kind is ProjectWorkflow),
        !is_blank(c.aggregate->0.handle),
        c.event_type is Some,
        c.run_actions.len() == 0,
        base < revision,
    ensures
        ({
            let told = compiled_event(
                epoch,
                seq,
                occurred_at,
                sorted_view(change_event(e, c)),
            );
            &&& told is Ok
            &&& told->Ok_0.aggregate == c.aggregate->0
            &&& told->Ok_0.event_type == c.event_type->0
            &&& told->Ok_0.caused_by_command_id == Some(e.command_id)
            &&& told->Ok_0.base_revision == AggregateRevision::Scalar(
                ScalarRevision { revision: base },
            )
            &&& told->Ok_0.aggregate_revision == AggregateRevision::Scalar(
                ScalarRevision { revision },
            )
        }),
{
    lemma_sorted_event(e, c);
    lemma_sorted_aggregate(c.aggregate->0);
    law_aggregate_kind_round_trip(c.aggregate->0.kind);
    lemma_sorted_replacement(base as nat, revision, data);
    lemma_event_name(c.event_type->0);
    reveal_strlit("replace");
    reveal_strlit("typed_delta");
    assert("replace"@.len() != "typed_delta"@.len());
    let one = JsonView::Object(seq![("revision"@, JsonView::Unsigned(base as nat))]);
    let two = JsonView::Object(seq![("revision"@, JsonView::Unsigned(revision as nat))]);
    lemma_field_at(one->Object_0, 0);
    lemma_field_at(two->Object_0, 0);
    assert(field_of(one, "revision"@) == Some(JsonView::Unsigned(base as nat)));
    assert(field_of(two, "revision"@) == Some(JsonView::Unsigned(revision as nat)));
}

} // verus!
