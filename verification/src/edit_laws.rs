//! What holds of every edit of a workflow: which node it changes and how, what stays as it
//! was, what is refused, and what clients are told and shown of it.

use crate::command::ProblemView;
use crate::json::{canonical_text, distinct_names, field_of, signed_view, JsonView};
use crate::project_rows::{workflow_by_handle, RowsView, WorkflowView};
use crate::publication::lemma_field_at;
use crate::run_command::{texts_json, NodeView, ProjectCommandView};
use crate::workflow_effects::{
    edge_between, edge_by_handle, final_data, handle_of_key, id_by_handle, id_by_key, incident,
    node_at, position_of, rename_view, seen_edges, seen_nodes, without_node, without_text,
    workflow_output, workflow_plan, workflow_snapshot_view, EdgeIdView, MutationResultView,
    NodeIdView, PositionView, SnapshotEdgeView, SnapshotNodeView, WorkflowMutationView,
    WorkflowPlanView,
};
use vstd::prelude::*;
use vstd::string::*;

verus! {

proof fn lemma_workflow(v: Seq<WorkflowView>, handle: Seq<char>, from: int)
    requires
        0 <= from,
    ensures
        match workflow_by_handle(v, handle, from) {
            Some(w) => w.public_handle == handle && v.contains(w),
            None => forall|i: int| from <= i < v.len() ==> (#[trigger] v[i]).public_handle != handle,
        },
    decreases v.len() - from,
{
    if from < v.len() && v[from].public_handle != handle {
        lemma_workflow(v, handle, from + 1);
    }
}

proof fn lemma_id_by_handle(v: Seq<NodeIdView>, handle: Seq<char>, from: int)
    requires
        0 <= from,
    ensures
        match id_by_handle(v, handle, from) {
            Some(i) => from <= i < v.len() && v[i].node_handle == handle,
            None => forall|i: int| from <= i < v.len() ==> (#[trigger] v[i]).node_handle != handle,
        },
    decreases v.len() - from,
{
    if from < v.len() && v[from].node_handle != handle {
        lemma_id_by_handle(v, handle, from + 1);
    }
}

proof fn lemma_id_by_key(v: Seq<NodeIdView>, key: Seq<char>, from: int)
    requires
        0 <= from,
    ensures
        match id_by_key(v, key, from) {
            Some(i) => from <= i < v.len() && v[i].node_key == key,
            None => forall|i: int| from <= i < v.len() ==> (#[trigger] v[i]).node_key != key,
        },
    decreases v.len() - from,
{
    if from < v.len() && v[from].node_key != key {
        lemma_id_by_key(v, key, from + 1);
    }
}

proof fn lemma_edge_by_handle(v: Seq<EdgeIdView>, handle: Seq<char>, from: int)
    requires
        0 <= from,
    ensures
        match edge_by_handle(v, handle, from) {
            Some(i) => from <= i < v.len() && v[i].edge_handle == handle,
            None => forall|i: int| from <= i < v.len() ==> (#[trigger] v[i]).edge_handle != handle,
        },
    decreases v.len() - from,
{
    if from < v.len() && v[from].edge_handle != handle {
        lemma_edge_by_handle(v, handle, from + 1);
    }
}

proof fn lemma_edge_between(v: Seq<EdgeIdView>, up: Seq<char>, down: Seq<char>, from: int)
    requires
        0 <= from,
    ensures
        match edge_between(v, up, down, from) {
            Some(i) => from <= i < v.len() && v[i].upstream_node_key == up
                && v[i].downstream_node_key == down,
            None => forall|i: int|
                from <= i < v.len() ==> (#[trigger] v[i]).upstream_node_key != up
                    || v[i].downstream_node_key != down,
        },
    decreases v.len() - from,
{
    if from < v.len() && !(v[from].upstream_node_key == up && v[from].downstream_node_key == down) {
        lemma_edge_between(v, up, down, from + 1);
    }
}

proof fn lemma_node_at(v: Seq<NodeView>, key: Seq<char>, from: int)
    requires
        0 <= from,
    ensures
        match node_at(v, key, from) {
            Some(i) => from <= i < v.len() && v[i].key == key,
            None => forall|i: int| from <= i < v.len() ==> (#[trigger] v[i]).key != key,
        },
    decreases v.len() - from,
{
    if from < v.len() && v[from].key != key {
        lemma_node_at(v, key, from + 1);
    }
}

/// Keys without one of them.
pub open spec fn apart_from(keys: Seq<Seq<char>>, key: Seq<char>) -> Seq<Seq<char>> {
    keys.filter(|k: Seq<char>| k != key)
}

proof fn lemma_without_text(v: Seq<Seq<char>>, key: Seq<char>, n: nat)
    requires
        n <= v.len(),
    ensures
        without_text(v, key, n) == apart_from(v.take(n as int), key),
    decreases n,
{
    reveal(Seq::filter);
    if n > 0 {
        lemma_without_text(v, key, (n - 1) as nat);
        assert(v.take(n as int).drop_last() =~= v.take(n - 1));
    }
    assert(without_text(v, key, n) =~= apart_from(v.take(n as int), key));
}

/// A node without a key among those that it waits for.
pub open spec fn freed(node: NodeView, key: Seq<char>) -> NodeView {
    NodeView { deps: apart_from(node.deps, key), ..node }
}

proof fn lemma_without_node(v: Seq<NodeView>, key: Seq<char>, n: nat)
    requires
        n <= v.len(),
    ensures
        without_node(v, key, n) == v.take(n as int).filter(|m: NodeView| m.key != key).map_values(
            |m: NodeView| freed(m, key),
        ),
    decreases n,
{
    reveal(Seq::filter);
    let keep = |m: NodeView| m.key != key;
    let free = |m: NodeView| freed(m, key);
    if n > 0 {
        lemma_without_node(v, key, (n - 1) as nat);
        assert(v.take(n as int).drop_last() =~= v.take(n - 1));
        let m = v[n - 1];
        lemma_without_text(m.deps, key, m.deps.len());
        assert(m.deps.take(m.deps.len() as int) =~= m.deps);
    }
    assert(without_node(v, key, n) =~= v.take(n as int).filter(keep).map_values(free));
}

proof fn lemma_incident(v: Seq<EdgeIdView>, key: Seq<char>, n: nat)
    requires
        n <= v.len(),
    ensures
        incident(v, key, n) == v.take(n as int).filter(
            |e: EdgeIdView| e.upstream_node_key == key || e.downstream_node_key == key,
        ).map_values(|e: EdgeIdView| e.edge_handle),
    decreases n,
{
    reveal(Seq::filter);
    let touch = |e: EdgeIdView| e.upstream_node_key == key || e.downstream_node_key == key;
    let name = |e: EdgeIdView| e.edge_handle;
    if n > 0 {
        lemma_incident(v, key, (n - 1) as nat);
        assert(v.take(n as int).drop_last() =~= v.take(n - 1));
    }
    assert(incident(v, key, n) =~= v.take(n as int).filter(touch).map_values(name));
}

/// Whether an asked revision is the one that a command expects; one beyond what a signed
/// number holds is asked for as a negative one, which no store has.
pub open spec fn asks_for(asked: int, expected: u64) -> bool {
    &&& expected <= i64::MAX ==> asked == expected
    &&& expected > i64::MAX ==> asked == expected - 0x1_0000_0000_0000_0000
}

/// Whether a plan rewrites a workflow, and of all its nodes only the one at a place: name,
/// key and the permission to run side by side stay, and so does every other node.
pub open spec fn edits_one_node(w: WorkflowView, plan: WorkflowPlanView, k: int, expected: u64) -> bool {
    match plan.mutation {
        WorkflowMutationView::ReplaceSemantic { draft, expected_semantic_revision } => {
            &&& draft.key == w.key
            &&& draft.name == w.name
            &&& draft.allow_unsafe_parallel == w.allow_unsafe_parallel
            &&& 0 <= k < w.nodes.len()
            &&& draft.nodes.len() == w.nodes.len()
            &&& forall|i: int|
                0 <= i < w.nodes.len() && i != k ==> #[trigger] draft.nodes[i] == w.nodes[i]
            &&& asks_for(expected_semantic_revision, expected)
        },
        _ => false,
    }
}

/// The node of a rewritten workflow at a place.
pub open spec fn node_of(plan: WorkflowPlanView, k: int) -> NodeView {
    plan.mutation->ReplaceSemantic_draft.nodes[k]
}

/// Whether a plan makes one node wait for another: the node with the downstream handle has
/// the key of the one with the upstream handle among those that it waits for, behind all
/// that it waited for before, each once more than before or not at all.
pub open spec fn makes_wait(
    w: WorkflowView,
    plan: WorkflowPlanView,
    k: int,
    up: NodeIdView,
    down: NodeIdView,
) -> bool {
    let before = w.nodes[k];
    let after = node_of(plan, k);
    &&& before.key == down.node_key
    &&& after.key == before.key
    &&& after.title == before.title
    &&& after.instructions == before.instructions
    &&& after.agent_instance_id == before.agent_instance_id
    &&& after.deps.contains(up.node_key)
    &&& before.deps.is_prefix_of(after.deps)
    &&& forall|d: Seq<char>| #[trigger]
        after.deps.contains(d) ==> d == up.node_key || before.deps.contains(d)
    &&& before.deps.contains(up.node_key) ==> after.deps == before.deps
    &&& !before.deps.contains(up.node_key) ==> after.deps.len() == before.deps.len() + 1
}

/// To connect two nodes makes the downstream one wait for the upstream one, loses nothing
/// that it waited for, and changes no other node. It is refused only where there is no such
/// workflow or no such node.
pub proof fn law_to_connect_makes_the_downstream_node_wait(
    rows: RowsView,
    nodes: Seq<NodeIdView>,
    edges: Seq<EdgeIdView>,
    c: ProjectCommandView,
)
    requires
        c is Connect,
    ensures
        match workflow_plan(rows, nodes, edges, c) {
            Ok(plan) => exists|w: WorkflowView, k: int, i: int, j: int|
                rows.workflows.contains(w) && w.public_handle == c->Connect_workflow
                    && #[trigger] edits_one_node(
                    w,
                    plan,
                    k,
                    c->Connect_expected_semantic_revision,
                ) && 0 <= i < nodes.len() && nodes[i].node_handle == c->upstream_node_handle && 0
                    <= j < nodes.len() && nodes[j].node_handle == c->downstream_node_handle
                    && #[trigger] makes_wait(w, plan, k, nodes[i], nodes[j]) && plan.delta_type
                    == "workflow.connect"@,
            Err(p) => p == ProblemView::ResourceNotFound && {
                ||| forall|i: int|
                    0 <= i < rows.workflows.len() ==> (#[trigger] rows.workflows[i]).public_handle
                        != c->Connect_workflow
                ||| forall|i: int|
                    0 <= i < nodes.len() ==> (#[trigger] nodes[i]).node_handle
                        != c->upstream_node_handle
                ||| forall|i: int|
                    0 <= i < nodes.len() ==> (#[trigger] nodes[i]).node_handle
                        != c->downstream_node_handle
                ||| exists|w: WorkflowView, j: int|
                    #[trigger] rows.workflows.contains(w) && 0 <= j < nodes.len() && (
                    #[trigger] nodes[j]).node_handle == c->downstream_node_handle && forall|k: int|
                        0 <= k < w.nodes.len() ==> (#[trigger] w.nodes[k]).key != nodes[j].node_key
            },
        },
{
    let (up, down) = (c->upstream_node_handle, c->downstream_node_handle);
    lemma_workflow(rows.workflows, c->Connect_workflow, 0);
    lemma_id_by_handle(nodes, up, 0);
    lemma_id_by_handle(nodes, down, 0);
    if let Some(w) = workflow_by_handle(rows.workflows, c->Connect_workflow, 0) {
        if let Some(j) = id_by_handle(nodes, down, 0) {
            lemma_node_at(w.nodes, nodes[j].node_key, 0);
            if workflow_plan(rows, nodes, edges, c) is Ok {
                let plan = workflow_plan(rows, nodes, edges, c)->Ok_0;
                let i = id_by_handle(nodes, up, 0)->0;
                let k = node_at(w.nodes, nodes[j].node_key, 0)->0;
                let before = w.nodes[k].deps;
                let after = node_of(plan, k).deps;
                if !before.contains(nodes[i].node_key) {
                    assert(after[before.len() as int] == nodes[i].node_key);
                    assert forall|d: Seq<char>| #[trigger] after.contains(d) implies d
                        == nodes[i].node_key || before.contains(d) by {
                        let at = choose|at: int| 0 <= at < after.len() && after[at] == d;
                        if at < before.len() {
                            assert(before[at] == d);
                        }
                    }
                }
                assert(before =~= after.take(before.len() as int));
                assert(edits_one_node(w, plan, k, c->Connect_expected_semantic_revision));
                assert(makes_wait(w, plan, k, nodes[i], nodes[j]));
            }
        }
    }
}

/// To take an edge away makes its downstream node no longer wait for its upstream one; what
/// else it waits for stays, in order, and no other node changes.
pub proof fn law_to_disconnect_frees_the_downstream_node(
    rows: RowsView,
    nodes: Seq<NodeIdView>,
    edges: Seq<EdgeIdView>,
    c: ProjectCommandView,
)
    requires
        c is Disconnect,
    ensures
        match workflow_plan(rows, nodes, edges, c) {
            Ok(plan) => exists|w: WorkflowView, k: int, e: int|
                rows.workflows.contains(w) && w.public_handle == c->Disconnect_workflow
                    && #[trigger] edits_one_node(
                    w,
                    plan,
                    k,
                    c->Disconnect_expected_semantic_revision,
                ) && 0 <= e < edges.len() && (#[trigger] edges[e]).edge_handle
                    == c->Disconnect_edge_handle && w.nodes[k].key == edges[e].downstream_node_key
                    && node_of(plan, k) == freed(w.nodes[k], edges[e].upstream_node_key)
                    && plan.delta_type == "workflow.disconnect"@ && field_of(
                    plan.delta_data,
                    "edge_handle"@,
                ) == Some(JsonView::Text(c->Disconnect_edge_handle)),
            Err(p) => p == ProblemView::ResourceNotFound && {
                ||| forall|i: int|
                    0 <= i < rows.workflows.len() ==> (#[trigger] rows.workflows[i]).public_handle
                        != c->Disconnect_workflow
                ||| forall|i: int|
                    0 <= i < edges.len() ==> (#[trigger] edges[i]).edge_handle
                        != c->Disconnect_edge_handle
                ||| exists|w: WorkflowView, e: int|
                    #[trigger] rows.workflows.contains(w) && 0 <= e < edges.len() && (
                    #[trigger] edges[e]).edge_handle == c->Disconnect_edge_handle && forall|k: int|
                        0 <= k < w.nodes.len() ==> (#[trigger] w.nodes[k]).key
                            != edges[e].downstream_node_key
            },
        },
{
    lemma_workflow(rows.workflows, c->Disconnect_workflow, 0);
    lemma_edge_by_handle(edges, c->Disconnect_edge_handle, 0);
    if let Some(w) = workflow_by_handle(rows.workflows, c->Disconnect_workflow, 0) {
        if let Some(e) = edge_by_handle(edges, c->Disconnect_edge_handle, 0) {
            lemma_node_at(w.nodes, edges[e].downstream_node_key, 0);
            if let Some(k) = node_at(w.nodes, edges[e].downstream_node_key, 0) {
                let plan = workflow_plan(rows, nodes, edges, c)->Ok_0;
                let deps = w.nodes[k].deps;
                lemma_without_text(deps, edges[e].upstream_node_key, deps.len());
                assert(deps.take(deps.len() as int) =~= deps);
                let f = plan.delta_data->Object_0;
                assert(distinct_names(f));
                lemma_field_at(f, 0);
                assert(edits_one_node(w, plan, k, c->Disconnect_expected_semantic_revision));
                assert(edges[e].edge_handle == c->Disconnect_edge_handle);
            }
        }
    }
}

/// To update a node gives it the title, the instructions and the agent that were sent; its
/// key and what it waits for stay, and no other node changes.
pub proof fn law_to_update_a_node_writes_what_was_sent(
    rows: RowsView,
    nodes: Seq<NodeIdView>,
    edges: Seq<EdgeIdView>,
    c: ProjectCommandView,
)
    requires
        c is UpdateNode,
    ensures
        match workflow_plan(rows, nodes, edges, c) {
            Ok(plan) => exists|w: WorkflowView, k: int, i: int|
                rows.workflows.contains(w) && w.public_handle == c->UpdateNode_workflow
                    && #[trigger] edits_one_node(
                    w,
                    plan,
                    k,
                    c->UpdateNode_expected_semantic_revision,
                ) && 0 <= i < nodes.len() && (#[trigger] nodes[i]).node_handle
                    == c->UpdateNode_node_handle && w.nodes[k].key == nodes[i].node_key && node_of(
                    plan,
                    k,
                ).key == w.nodes[k].key && node_of(plan, k).deps == w.nodes[k].deps && node_of(
                    plan,
                    k,
                ).title == c->title && node_of(plan, k).instructions == c->instructions && node_of(
                    plan,
                    k,
                ).agent_instance_id == c->agent_instance_id && plan.delta_type
                    == "workflow.update_node"@,
            Err(p) => p == ProblemView::ResourceNotFound && {
                ||| forall|i: int|
                    0 <= i < rows.workflows.len() ==> (#[trigger] rows.workflows[i]).public_handle
                        != c->UpdateNode_workflow
                ||| forall|i: int|
                    0 <= i < nodes.len() ==> (#[trigger] nodes[i]).node_handle
                        != c->UpdateNode_node_handle
                ||| exists|w: WorkflowView, j: int|
                    #[trigger] rows.workflows.contains(w) && 0 <= j < nodes.len() && (
                    #[trigger] nodes[j]).node_handle == c->UpdateNode_node_handle && forall|k: int|
                        0 <= k < w.nodes.len() ==> (#[trigger] w.nodes[k]).key != nodes[j].node_key
            },
        },
{
    lemma_workflow(rows.workflows, c->UpdateNode_workflow, 0);
    lemma_id_by_handle(nodes, c->UpdateNode_node_handle, 0);
    if let Some(w) = workflow_by_handle(rows.workflows, c->UpdateNode_workflow, 0) {
        if let Some(i) = id_by_handle(nodes, c->UpdateNode_node_handle, 0) {
            lemma_node_at(w.nodes, nodes[i].node_key, 0);
            if let Some(k) = node_at(w.nodes, nodes[i].node_key, 0) {
                let plan = workflow_plan(rows, nodes, edges, c)->Ok_0;
                assert(edits_one_node(w, plan, k, c->UpdateNode_expected_semantic_revision));
                assert(nodes[i].node_handle == c->UpdateNode_node_handle);
            }
        }
    }
}

/// Clients are told of an update what was sent.
pub proof fn law_an_update_is_told_as_it_was_sent(
    rows: RowsView,
    nodes: Seq<NodeIdView>,
    edges: Seq<EdgeIdView>,
    c: ProjectCommandView,
)
    requires
        c is UpdateNode,
        workflow_plan(rows, nodes, edges, c) is Ok,
    ensures
        ({
            let data = workflow_plan(rows, nodes, edges, c)->Ok_0.delta_data;
            &&& field_of(data, "node_handle"@) == Some(JsonView::Text(c->UpdateNode_node_handle))
            &&& field_of(data, "title"@) == Some(JsonView::Text(c->title))
            &&& field_of(data, "instructions"@) == Some(JsonView::Text(c->instructions))
            &&& field_of(data, "agent_instance_id"@) == Some(JsonView::Text(c->agent_instance_id))
        }),
{
    let f = (workflow_plan(rows, nodes, edges, c)->Ok_0.delta_data)->Object_0;
    reveal_strlit("node_handle");
    reveal_strlit("title");
    reveal_strlit("instructions");
    reveal_strlit("agent_instance_id");
    assert("node_handle"@.len() == 11 && "title"@.len() == 5 && "instructions"@.len() == 12
        && "agent_instance_id"@.len() == 17);
    assert(distinct_names(f));
    lemma_field_at(f, 0);
    lemma_field_at(f, 1);
    lemma_field_at(f, 2);
    lemma_field_at(f, 3);
}

/// To remove a node takes it away and frees what waited for it; everything else stays, in
/// order. The last node stays.
pub proof fn law_to_remove_a_node_takes_it_and_its_edges(
    rows: RowsView,
    nodes: Seq<NodeIdView>,
    edges: Seq<EdgeIdView>,
    c: ProjectCommandView,
)
    requires
        c is RemoveNode,
        workflow_plan(rows, nodes, edges, c) is Ok,
    ensures
        exists|w: WorkflowView, i: int|
            {
                &&& #[trigger] rows.workflows.contains(w)
                &&& w.public_handle == c->RemoveNode_workflow
                &&& w.nodes.len() > 1
                &&& 0 <= i < nodes.len()
                &&& (#[trigger] nodes[i]).node_handle == c->RemoveNode_node_handle
                &&& takes_away(
                    w,
                    edges,
                    workflow_plan(rows, nodes, edges, c)->Ok_0,
                    nodes[i],
                    c->RemoveNode_expected_semantic_revision,
                )
            },
{
    lemma_workflow(rows.workflows, c->RemoveNode_workflow, 0);
    lemma_id_by_handle(nodes, c->RemoveNode_node_handle, 0);
    let w = workflow_by_handle(rows.workflows, c->RemoveNode_workflow, 0)->0;
    let i = id_by_handle(nodes, c->RemoveNode_node_handle, 0)->0;
    let plan = workflow_plan(rows, nodes, edges, c)->Ok_0;
    let key = nodes[i].node_key;
    lemma_without_node(w.nodes, key, w.nodes.len());
    lemma_incident(edges, key, edges.len());
    assert(w.nodes.take(w.nodes.len() as int) =~= w.nodes);
    assert(edges.take(edges.len() as int) =~= edges);
    let f = plan.delta_data->Object_0;
    reveal_strlit("node_handle");
    reveal_strlit("incident_edge_handles");
    assert("node_handle"@.len() == 11 && "incident_edge_handles"@.len() == 21);
    assert(distinct_names(f));
    lemma_field_at(f, 0);
    lemma_field_at(f, 1);
    assert(takes_away(w, edges, plan, nodes[i], c->RemoveNode_expected_semantic_revision));
    assert(rows.workflows.contains(w));
    assert(nodes[i].node_handle == c->RemoveNode_node_handle);
}

/// Whether a plan takes one node away, frees the others of it, and tells of its edges.
pub open spec fn takes_away(
    w: WorkflowView,
    edges: Seq<EdgeIdView>,
    plan: WorkflowPlanView,
    gone: NodeIdView,
    expected: u64,
) -> bool {
    let key = gone.node_key;
    &&& plan.delta_type == "workflow.remove_node"@
    &&& field_of(plan.delta_data, "node_handle"@) == Some(JsonView::Text(gone.node_handle))
    &&& field_of(plan.delta_data, "incident_edge_handles"@) == Some(
        texts_json(
            edges.filter(
                |e: EdgeIdView| e.upstream_node_key == key || e.downstream_node_key == key,
            ).map_values(|e: EdgeIdView| e.edge_handle),
        ),
    )
    &&& match plan.mutation {
        WorkflowMutationView::ReplaceSemantic { draft, expected_semantic_revision } => {
            &&& draft.key == w.key
            &&& draft.name == w.name
            &&& draft.allow_unsafe_parallel == w.allow_unsafe_parallel
            &&& draft.nodes == w.nodes.filter(|m: NodeView| m.key != key).map_values(
                |m: NodeView| freed(m, key),
            )
            &&& asks_for(expected_semantic_revision, expected)
        },
        _ => false,
    }
}

/// A removal is refused where there is no such workflow or node, or where the node is the
/// only one.
pub proof fn law_a_removal_is_refused_for_a_reason(
    rows: RowsView,
    nodes: Seq<NodeIdView>,
    edges: Seq<EdgeIdView>,
    c: ProjectCommandView,
)
    requires
        c is RemoveNode,
        workflow_plan(rows, nodes, edges, c) is Err,
    ensures
        ({
            ||| forall|i: int|
                0 <= i < rows.workflows.len() ==> (#[trigger] rows.workflows[i]).public_handle
                    != c->RemoveNode_workflow
            ||| forall|i: int|
                0 <= i < nodes.len() ==> (#[trigger] nodes[i]).node_handle
                    != c->RemoveNode_node_handle
            ||| exists|w: WorkflowView|
                w.public_handle == c->RemoveNode_workflow && #[trigger] rows.workflows.contains(w)
                    && w.nodes.len() <= 1
        }),
{
    lemma_workflow(rows.workflows, c->RemoveNode_workflow, 0);
    lemma_id_by_handle(nodes, c->RemoveNode_node_handle, 0);
}

/// A new node comes behind the others, as it was sent; to allow steps side by side changes
/// that permission alone.
pub proof fn law_what_is_added_or_allowed_is_what_was_sent(
    rows: RowsView,
    nodes: Seq<NodeIdView>,
    edges: Seq<EdgeIdView>,
    c: ProjectCommandView,
)
    requires
        c is AddNode || c is SetUnsafeParallel,
    ensures
        match workflow_plan(rows, nodes, edges, c) {
            Ok(plan) => exists|w: WorkflowView|
                {
                    let draft = plan.mutation->ReplaceSemantic_draft;
                    &&& #[trigger] rows.workflows.contains(w)
                    &&& Some(w.public_handle) == c.workflow()
                    &&& plan.mutation is ReplaceSemantic
                    &&& draft.key == w.key
                    &&& draft.name == w.name
                    &&& match c {
                        ProjectCommandView::AddNode { node, expected_semantic_revision, .. } => {
                            &&& draft.nodes.len() == w.nodes.len() + 1
                            &&& w.nodes.is_prefix_of(draft.nodes)
                            &&& draft.nodes.last() == node
                            &&& draft.allow_unsafe_parallel == w.allow_unsafe_parallel
                            &&& plan.delta_type == "workflow.add_node"@
                            &&& field_of(plan.delta_data, "node"@) == Some(node.json())
                            &&& asks_for(
                                plan.mutation->ReplaceSemantic_expected_semantic_revision,
                                expected_semantic_revision,
                            )
                        },
                        ProjectCommandView::SetUnsafeParallel {
                            allow,
                            expected_semantic_revision,
                            ..
                        } => {
                            &&& draft.nodes == w.nodes
                            &&& draft.allow_unsafe_parallel == allow
                            &&& plan.delta_type == "workflow.set_unsafe_parallel"@
                            &&& field_of(plan.delta_data, "allow"@) == Some(JsonView::Bool(allow))
                            &&& asks_for(
                                plan.mutation->ReplaceSemantic_expected_semantic_revision,
                                expected_semantic_revision,
                            )
                        },
                        _ => false,
                    }
                },
            Err(p) => p == ProblemView::ResourceNotFound && forall|i: int|
                0 <= i < rows.workflows.len() ==> Some(
                    (#[trigger] rows.workflows[i]).public_handle,
                ) != c.workflow(),
        },
{
    lemma_workflow(rows.workflows, c.workflow()->0, 0);
    if let Some(w) = workflow_by_handle(rows.workflows, c.workflow()->0, 0) {
        let plan = workflow_plan(rows, nodes, edges, c)->Ok_0;
        let draft = plan.mutation->ReplaceSemantic_draft;
        let f = plan.delta_data->Object_0;
        assert(distinct_names(f));
        lemma_field_at(f, 0);
        if c is AddNode {
            assert(w.nodes =~= draft.nodes.take(w.nodes.len() as int));
        }
        assert(rows.workflows.contains(w));
    }
}

/// What is made, deleted, moved or shown elsewhere is exactly what was sent, under the
/// revisions that were sent, and is told as such.
pub proof fn law_what_a_store_is_asked_is_what_was_sent(
    rows: RowsView,
    nodes: Seq<NodeIdView>,
    edges: Seq<EdgeIdView>,
    c: ProjectCommandView,
)
    requires
        c is Create || c is Delete || c is MoveNode || c is SetViewport,
    ensures
        workflow_plan(rows, nodes, edges, c) is Ok,
        ({
            let plan = workflow_plan(rows, nodes, edges, c)->Ok_0;
            match (c, plan.mutation) {
                (
                    ProjectCommandView::Create { draft, expected_collection_revision, .. },
                    WorkflowMutationView::Create { draft: asked, expected_collection_revision: n },
                ) => {
                    &&& asked == draft
                    &&& asks_for(n, expected_collection_revision)
                    &&& plan.delta_type == "workflow.replace"@
                },
                (
                    ProjectCommandView::Delete {
                        workflow,
                        expected_collection_revision,
                        expected_semantic_revision,
                        expected_presentation_revision,
                        ..
                    },
                    WorkflowMutationView::Delete {
                        workflow_handle,
                        expected_collection_revision: n,
                        expected_semantic_revision: s,
                        expected_presentation_revision: p,
                    },
                ) => {
                    &&& workflow_handle == workflow
                    &&& asks_for(n, expected_collection_revision)
                    &&& asks_for(s, expected_semantic_revision)
                    &&& asks_for(p, expected_presentation_revision)
                    &&& plan.delta_type == "workflow.delete"@
                },
                (
                    ProjectCommandView::MoveNode {
                        workflow,
                        node_handle,
                        x,
                        y,
                        expected_presentation_revision,
                        ..
                    },
                    WorkflowMutationView::SetNodePosition {
                        workflow_handle,
                        node_handle: moved,
                        expected_presentation_revision: p,
                        x: across,
                        y: down,
                    },
                ) => {
                    &&& workflow_handle == workflow
                    &&& moved == node_handle
                    &&& across == x
                    &&& down == y
                    &&& asks_for(p, expected_presentation_revision)
                    &&& plan.delta_type == "workflow.node_position_set"@
                    &&& field_of(plan.delta_data, "node_handle"@) == Some(
                        JsonView::Text(node_handle),
                    )
                    &&& field_of(plan.delta_data, "x"@) == Some(x)
                    &&& field_of(plan.delta_data, "y"@) == Some(y)
                },
                (
                    ProjectCommandView::SetViewport {
                        workflow,
                        viewport,
                        expected_presentation_revision,
                        ..
                    },
                    WorkflowMutationView::SetViewport {
                        workflow_handle,
                        expected_presentation_revision: p,
                        viewport_json,
                    },
                ) => {
                    &&& workflow_handle == workflow
                    &&& viewport_json == canonical_text(viewport)
                    &&& asks_for(p, expected_presentation_revision)
                    &&& plan.delta_type == "workflow.viewport_set"@
                    &&& field_of(plan.delta_data, "viewport"@) == Some(viewport)
                },
                _ => false,
            }
        }),
{
    let plan = workflow_plan(rows, nodes, edges, c)->Ok_0;
    let f = plan.delta_data->Object_0;
    if c is MoveNode {
        reveal_strlit("node_handle");
        reveal_strlit("x");
        reveal_strlit("y");
        assert("node_handle"@.len() == 11 && "x"@.len() == 1 && "y"@.len() == 1);
        assert("x"@[0] != "y"@[0]);
        assert(distinct_names(f));
        lemma_field_at(f, 0);
        lemma_field_at(f, 1);
        lemma_field_at(f, 2);
    } else if c is SetViewport {
        assert(distinct_names(f));
        lemma_field_at(f, 0);
    }
}

/// Whether a value says the two revisions of a workflow.
pub open spec fn says_pair(v: JsonView, semantic: i64, presentation: i64) -> bool {
    &&& field_of(v, "semantic_revision"@) == Some(signed_view(semantic as int))
    &&& field_of(v, "presentation_revision"@) == Some(signed_view(presentation as int))
}

/// Whether a stored change says where an aggregate came from, where it went, and how.
pub open spec fn says_change(payload: JsonView, base: JsonView, after: JsonView, delta: JsonView) -> bool {
    &&& field_of(payload, "base_revision"@) == Some(base)
    &&& field_of(payload, "aggregate_revision"@) == Some(after)
    &&& field_of(payload, "delta"@) == Some(delta)
}

proof fn lemma_pair(semantic: i64, presentation: i64)
    ensures
        says_pair(
            crate::workflow_effects::pair_json(semantic, presentation),
            semantic,
            presentation,
        ),
{
    let f = crate::workflow_effects::pair_json(semantic, presentation)->Object_0;
    reveal_strlit("semantic_revision");
    reveal_strlit("presentation_revision");
    assert("semantic_revision"@.len() == 17 && "presentation_revision"@.len() == 21);
    assert(distinct_names(f));
    lemma_field_at(f, 0);
    lemma_field_at(f, 1);
}

proof fn lemma_change(base: JsonView, after: JsonView, delta: JsonView)
    ensures
        says_change(
            crate::workflow_effects::change_json(base, after, delta),
            base,
            after,
            delta,
        ),
{
    let f = crate::workflow_effects::change_json(base, after, delta)->Object_0;
    reveal_strlit("base_revision");
    reveal_strlit("aggregate_revision");
    reveal_strlit("delta");
    assert("base_revision"@.len() == 13 && "aggregate_revision"@.len() == 18 && "delta"@.len()
        == 5);
    assert(distinct_names(f));
    lemma_field_at(f, 0);
    lemma_field_at(f, 1);
    lemma_field_at(f, 2);
}

proof fn lemma_typed(delta_type: Seq<char>, data: JsonView)
    ensures
        says_typed(crate::workflow_effects::typed_delta_json(delta_type, data), delta_type, data),
{
    let f = crate::workflow_effects::typed_delta_json(delta_type, data)->Object_0;
    reveal_strlit("mode");
    reveal_strlit("delta_type");
    reveal_strlit("data");
    assert("mode"@.len() == 4 && "delta_type"@.len() == 10 && "data"@.len() == 4);
    assert("mode"@[0] != "data"@[0]);
    assert(distinct_names(f));
    lemma_field_at(f, 0);
    lemma_field_at(f, 1);
    lemma_field_at(f, 2);
}

/// Whether a value is a delta of a type, with its data.
pub open spec fn says_typed(delta: JsonView, delta_type: Seq<char>, data: JsonView) -> bool {
    &&& field_of(delta, "mode"@) == Some(JsonView::Text("typed_delta"@))
    &&& field_of(delta, "delta_type"@) == Some(JsonView::Text(delta_type))
    &&& field_of(delta, "data"@) == Some(data)
}

/// What a store did is answered with the revisions that it left: those of the workflow after
/// the change, or before it where it is gone, and that of the collection. Where nothing
/// changed nothing is told. Otherwise clients are told of this workflow, from the revisions
/// it had to those that it has, with the data of the change; and where it came or went, of
/// the project's collection, one step further.
pub proof fn law_an_edit_is_told_from_what_was_to_what_is(
    project: Seq<char>,
    c: ProjectCommandView,
    result: MutationResultView,
    delta_type: Seq<char>,
    data: JsonView,
)
    requires
        workflow_output(project, c, result, delta_type, data) is Ok,
        result.collection_revision > i64::MIN,
    ensures
        ({
            let out = workflow_output(project, c, result, delta_type, data)->Ok_0;
            let w = if result.after is Some {
                result.after->0
            } else {
                result.before->0
            };
            let was = match result.before {
                Some(b) => (b.semantic_revision, b.presentation_revision),
                None => (0i64, 0i64),
            };
            let is = match result.after {
                Some(a) => (a.semantic_revision, a.presentation_revision),
                None => was,
            };
            &&& result.before is Some || result.after is Some
            &&& says_pair(out.result_revisions, w.semantic_revision, w.presentation_revision)
            &&& field_of(out.result_revisions, "workflow_collection_revision"@) == Some(
                signed_view(result.collection_revision as int),
            )
            &&& result.no_op ==> out.projections.len() == 0
            &&& !result.no_op ==> {
                let first = out.projections[0];
                &&& out.projections.len() == if c is Create || c is Delete {
                    2int
                } else {
                    1
                }
                &&& first.aggregate matches Some(a) && a.kind is ProjectWorkflow && a.handle
                    == w.public_handle
                &&& first.event_type == Some(delta_type)
                &&& first.projection_critical
                &&& first.run_actions.len() == 0
                &&& field_of(first.payload, "base_revision"@) matches Some(v) && says_pair(
                    v,
                    was.0,
                    was.1,
                )
                &&& field_of(first.payload, "aggregate_revision"@) matches Some(v) && says_pair(
                    v,
                    is.0,
                    is.1,
                )
                &&& field_of(first.payload, "delta"@) matches Some(d) && {
                    &&& c is Create ==> field_of(d, "mode"@) == Some(JsonView::Text("replace"@))
                        && field_of(d, "data"@) == Some(data)
                    &&& c is Delete ==> field_of(d, "mode"@) == Some(JsonView::Text("tombstone"@))
                    &&& !(c is Create || c is Delete) ==> says_typed(d, delta_type, data)
                }
            }
        }),
{
    let out = workflow_output(project, c, result, delta_type, data)->Ok_0;
    let f = out.result_revisions->Object_0;
    reveal_strlit("semantic_revision");
    reveal_strlit("presentation_revision");
    reveal_strlit("workflow_collection_revision");
    assert("semantic_revision"@.len() == 17 && "presentation_revision"@.len() == 21
        && "workflow_collection_revision"@.len() == 28);
    assert(distinct_names(f));
    lemma_field_at(f, 0);
    lemma_field_at(f, 1);
    lemma_field_at(f, 2);
    let was = match result.before {
        Some(b) => (b.semantic_revision, b.presentation_revision),
        None => (0i64, 0i64),
    };
    let is = match result.after {
        Some(a) => (a.semantic_revision, a.presentation_revision),
        None => was,
    };
    lemma_pair(was.0, was.1);
    lemma_pair(is.0, is.1);
    let d = crate::workflow_effects::delta_of(c, delta_type, data);
    lemma_change(
        crate::workflow_effects::pair_json(was.0, was.1),
        crate::workflow_effects::pair_json(is.0, is.1),
        d,
    );
    lemma_typed(delta_type, data);
    if c is Create {
        reveal_strlit("mode");
        reveal_strlit("data");
        assert("mode"@.len() == 4 && "data"@.len() == 4);
        assert("mode"@[0] != "data"@[0]);
        assert(distinct_names(d->Object_0));
        lemma_field_at(d->Object_0, 0);
        lemma_field_at(d->Object_0, 1);
    } else if c is Delete {
        assert(distinct_names(d->Object_0));
        lemma_field_at(d->Object_0, 0);
    }
}

/// Where a workflow came or went, the project's collection went one step further, and the
/// event names the workflow.
pub proof fn law_a_collection_goes_one_step_further(
    project: Seq<char>,
    c: ProjectCommandView,
    result: MutationResultView,
    delta_type: Seq<char>,
    data: JsonView,
)
    requires
        workflow_output(project, c, result, delta_type, data) is Ok,
        c is Create || c is Delete,
        !result.no_op,
        result.collection_revision > i64::MIN,
    ensures
        ({
            let second = workflow_output(project, c, result, delta_type, data)->Ok_0.projections[1];
            let w = if result.after is Some {
                result.after->0
            } else {
                result.before->0
            };
            &&& second.aggregate matches Some(a) && a.kind is Project && a.handle == project
            &&& second.event_type == Some("project.workflow_collection_changed"@)
            &&& field_of(second.payload, "base_revision"@) matches Some(v) && field_of(
                v,
                "revision"@,
            ) == Some(signed_view(result.collection_revision - 1))
            &&& field_of(second.payload, "aggregate_revision"@) matches Some(v) && field_of(
                v,
                "revision"@,
            ) == Some(signed_view(result.collection_revision as int))
            &&& field_of(second.payload, "delta"@) matches Some(d) && field_of(d, "data"@) matches
                Some(told) && field_of(told, "workflow_handle"@) == Some(
                JsonView::Text(w.public_handle),
            )
        }),
{
    let w = if result.after is Some {
        result.after->0
    } else {
        result.before->0
    };
    let r = result.collection_revision;
    let base = crate::workflow_effects::scalar_json((r - 1) as i64);
    let after = crate::workflow_effects::scalar_json(r);
    let told = crate::workflow_effects::handle_data_json(w.public_handle);
    let d = crate::workflow_effects::typed_delta_json(
        "project.workflow_collection_changed"@,
        told,
    );
    lemma_typed("project.workflow_collection_changed"@, told);
    lemma_change(base, after, d);
    assert(distinct_names(base->Object_0));
    assert(distinct_names(after->Object_0));
    assert(distinct_names(told->Object_0));
    lemma_field_at(base->Object_0, 0);
    lemma_field_at(after->Object_0, 0);
    lemma_field_at(told->Object_0, 0);
}

/// What clients are told of an edge is the handle of the edge that stands between the two
/// nodes, in its direction; of a new node, the handle that stands under its key.
pub proof fn law_what_is_told_is_what_stands(
    c: ProjectCommandView,
    result: MutationResultView,
    nodes: Seq<NodeIdView>,
    edges: Seq<EdgeIdView>,
    planned: JsonView,
)
    requires
        final_data(c, result, nodes, edges, planned) is Ok,
    ensures
        ({
            let data = final_data(c, result, nodes, edges, planned)->Ok_0;
            match c {
                ProjectCommandView::Connect {
                    upstream_node_handle: up,
                    downstream_node_handle: down,
                    ..
                } => exists|i: int, j: int, e: int|
                    {
                        &&& 0 <= i < nodes.len() && (#[trigger] nodes[i]).node_handle == up
                        &&& 0 <= j < nodes.len() && (#[trigger] nodes[j]).node_handle == down
                        &&& 0 <= e < edges.len() && (#[trigger] edges[e]).upstream_node_key
                            == nodes[i].node_key
                        &&& edges[e].downstream_node_key == nodes[j].node_key
                        &&& field_of(data, "edge_handle"@) == Some(
                            JsonView::Text(edges[e].edge_handle),
                        )
                        &&& field_of(data, "upstream_node_handle"@) == Some(JsonView::Text(up))
                        &&& field_of(data, "downstream_node_handle"@) == Some(JsonView::Text(down))
                    },
                ProjectCommandView::AddNode { node, .. } => exists|i: int|
                    {
                        &&& 0 <= i < nodes.len() && (#[trigger] nodes[i]).node_key == node.key
                        &&& field_of(data, "node_handle"@) == Some(
                            JsonView::Text(nodes[i].node_handle),
                        )
                        &&& field_of(data, "node"@) == Some(node.json())
                    },
                ProjectCommandView::Create { .. } => result.after is Some && field_of(
                    data,
                    "workflow"@,
                ) == Some(result.after->0.json()),
                _ => data == planned,
            }
        }),
{
    let data = final_data(c, result, nodes, edges, planned)->Ok_0;
    match c {
        ProjectCommandView::Connect {
            upstream_node_handle: up,
            downstream_node_handle: down,
            ..
        } => {
            lemma_id_by_handle(nodes, up, 0);
            lemma_id_by_handle(nodes, down, 0);
            let i = id_by_handle(nodes, up, 0)->0;
            let j = id_by_handle(nodes, down, 0)->0;
            lemma_edge_between(edges, nodes[i].node_key, nodes[j].node_key, 0);
            let e = edge_between(edges, nodes[i].node_key, nodes[j].node_key, 0)->0;
            reveal_strlit("edge_handle");
            reveal_strlit("upstream_node_handle");
            reveal_strlit("downstream_node_handle");
            assert("edge_handle"@.len() == 11 && "upstream_node_handle"@.len() == 20
                && "downstream_node_handle"@.len() == 22);
            let f = data->Object_0;
            assert(distinct_names(f));
            lemma_field_at(f, 0);
            lemma_field_at(f, 1);
            lemma_field_at(f, 2);
            assert(nodes[i].node_handle == up && nodes[j].node_handle == down);
            assert(edges[e].upstream_node_key == nodes[i].node_key);
        },
        ProjectCommandView::AddNode { node, .. } => {
            lemma_id_by_key(nodes, node.key, 0);
            let i = id_by_key(nodes, node.key, 0)->0;
            reveal_strlit("node_handle");
            reveal_strlit("node");
            assert("node_handle"@.len() == 11 && "node"@.len() == 4);
            let f = data->Object_0;
            assert(distinct_names(f));
            lemma_field_at(f, 0);
            lemma_field_at(f, 1);
            assert(nodes[i].node_key == node.key);
        },
        ProjectCommandView::Create { .. } => {
            reveal_strlit("workflow");
            reveal_strlit("node_identities");
            reveal_strlit("edge_identities");
            assert("workflow"@.len() == 8 && "node_identities"@.len() == 15
                && "edge_identities"@.len() == 15);
            assert("node_identities"@[0] != "edge_identities"@[0]);
            let f = data->Object_0;
            assert(distinct_names(f));
            lemma_field_at(f, 0);
        },
        _ => {},
    }
}

/// A rename is of the workflow with the handle, and gives it exactly the name that was sent;
/// clients are told that name, from the revisions that the workflow had to those that it has.
/// The name that it has already changes nothing and tells nothing.
pub proof fn law_a_rename_gives_the_name_that_was_sent(
    rows: RowsView,
    handle: Seq<char>,
    name: Seq<char>,
)
    ensures
        match rename_view(rows, handle, name) {
            Ok((out, Some(after))) => exists|w: WorkflowView|
                {
                    &&& #[trigger] rows.workflows.contains(w)
                    &&& w.public_handle == handle
                    &&& w.name != name
                    &&& after.name == name
                    &&& after.public_handle == handle
                    &&& after.key == w.key
                    &&& after.nodes == w.nodes
                    &&& after.allow_unsafe_parallel == w.allow_unsafe_parallel
                    &&& after.semantic_revision == w.semantic_revision
                    &&& w.presentation_revision < i64::MAX ==> after.presentation_revision
                        == w.presentation_revision + 1
                    &&& says_pair(
                        out.result_revisions,
                        after.semantic_revision,
                        after.presentation_revision,
                    )
                    &&& out.projections.len() == 1
                    &&& field_of(out.projections[0].payload, "base_revision"@) matches Some(v)
                        && says_pair(v, w.semantic_revision, w.presentation_revision)
                    &&& field_of(out.projections[0].payload, "aggregate_revision"@) == Some(
                        out.result_revisions,
                    )
                    &&& field_of(out.projections[0].payload, "delta"@) matches Some(d) && field_of(
                        d,
                        "data"@,
                    ) matches Some(told) && field_of(told, "name"@) == Some(JsonView::Text(name))
                },
            Ok((out, None)) => exists|w: WorkflowView|
                {
                    &&& #[trigger] rows.workflows.contains(w)
                    &&& w.public_handle == handle
                    &&& w.name == name
                    &&& says_pair(
                        out.result_revisions,
                        w.semantic_revision,
                        w.presentation_revision,
                    )
                    &&& out.projections.len() == 0
                },
            Err(p) => {
                ||| p == ProblemView::ResourceNotFound && forall|i: int|
                    0 <= i < rows.workflows.len() ==> (#[trigger] rows.workflows[i]).public_handle
                        != handle
                ||| exists|w: WorkflowView|
                    #[trigger] rows.workflows.contains(w) && w.public_handle == handle && (
                    w.semantic_revision < 0 || w.presentation_revision < 0)
            },
        },
{
    lemma_workflow(rows.workflows, handle, 0);
    if let Some(w) = workflow_by_handle(rows.workflows, handle, 0) {
        let next = (w.presentation_revision + 1) as i64;
        let told = crate::workflow_effects::name_data_json(name);
        lemma_pair(w.semantic_revision, w.presentation_revision);
        lemma_pair(w.semantic_revision, next);
        lemma_typed("workflow.rename"@, told);
        lemma_change(
            crate::workflow_effects::pair_json(w.semantic_revision, w.presentation_revision),
            crate::workflow_effects::pair_json(w.semantic_revision, next),
            crate::workflow_effects::typed_delta_json("workflow.rename"@, told),
        );
        assert(distinct_names(told->Object_0));
        lemma_field_at(told->Object_0, 0);
        assert(rows.workflows.contains(w));
    }
}

proof fn lemma_position(v: Seq<PositionView>, handle: Seq<char>, n: nat)
    requires
        n <= v.len(),
    ensures
        match position_of(v, handle, n) {
            Some(at) => exists|i: int|
                0 <= i < n && (#[trigger] v[i]).node_handle == handle && at == (v[i].x, v[i].y),
            None => forall|i: int| 0 <= i < n ==> (#[trigger] v[i]).node_handle != handle,
        },
    decreases n,
{
    if n > 0 && v[n - 1].node_handle != handle {
        lemma_position(v, handle, (n - 1) as nat);
    }
}

proof fn lemma_handle_of_key(v: Seq<NodeIdView>, key: Seq<char>, n: nat)
    requires
        n <= v.len(),
    ensures
        match handle_of_key(v, key, n) {
            Some(h) => exists|i: int|
                0 <= i < n && (#[trigger] v[i]).node_key == key && v[i].node_handle == h,
            None => forall|i: int| 0 <= i < n ==> (#[trigger] v[i]).node_key != key,
        },
    decreases n,
{
    if n > 0 && v[n - 1].node_key != key {
        lemma_handle_of_key(v, key, (n - 1) as nat);
    }
}

/// Whether a node is shown under its handle, as it stands, where it was put.
pub open spec fn shows_node(
    s: SnapshotNodeView,
    w: WorkflowView,
    id: NodeIdView,
    positions: Seq<PositionView>,
) -> bool {
    &&& s.handle == id.node_handle
    &&& s.node.key == id.node_key
    &&& w.nodes.contains(s.node)
    &&& match s.position {
        Some(at) => exists|p: int|
            0 <= p < positions.len() && (#[trigger] positions[p]).node_handle == s.handle && at == (
            positions[p].x,
            positions[p].y,
        ),
        None => forall|p: int|
            0 <= p < positions.len() ==> (#[trigger] positions[p]).node_handle != s.handle,
    }
}

proof fn lemma_seen_nodes(
    w: WorkflowView,
    ids: Seq<NodeIdView>,
    positions: Seq<PositionView>,
    n: nat,
)
    requires
        n <= ids.len(),
    ensures
        ({
            let shown = seen_nodes(w, ids, positions, n);
            &&& forall|s: int|
                0 <= s < shown.len() ==> exists|i: int|
                    0 <= i < n && shows_node(#[trigger] shown[s], w, #[trigger] ids[i], positions)
            &&& forall|i: int, k: int|
                0 <= i < n && 0 <= k < w.nodes.len() && (#[trigger] w.nodes[k]).key == (
                #[trigger] ids[i]).node_key ==> exists|s: int|
                    0 <= s < shown.len() && shows_node(#[trigger] shown[s], w, ids[i], positions)
        }),
    decreases n,
{
    let shown = seen_nodes(w, ids, positions, n);
    if n > 0 {
        let rest = seen_nodes(w, ids, positions, (n - 1) as nat);
        lemma_seen_nodes(w, ids, positions, (n - 1) as nat);
        let id = ids[n - 1];
        lemma_node_at(w.nodes, id.node_key, 0);
        lemma_position(positions, id.node_handle, positions.len());
        let known = node_at(w.nodes, id.node_key, 0);
        if known is Some {
            assert(shows_node(shown[rest.len() as int], w, id, positions));
        }
        assert forall|s: int| 0 <= s < shown.len() implies exists|i: int|
            0 <= i < n && shows_node(#[trigger] shown[s], w, #[trigger] ids[i], positions) by {
            if s < rest.len() {
                assert(shown[s] == rest[s]);
                let i = choose|i: int|
                    0 <= i < n - 1 && shows_node(rest[s], w, #[trigger] ids[i], positions);
                assert(shows_node(shown[s], w, ids[i], positions));
            } else {
                assert(shows_node(shown[s], w, ids[n - 1], positions));
            }
        }
        assert forall|i: int, k: int|
            0 <= i < n && 0 <= k < w.nodes.len() && (#[trigger] w.nodes[k]).key == (
            #[trigger] ids[i]).node_key implies exists|s: int|
            0 <= s < shown.len() && shows_node(#[trigger] shown[s], w, ids[i], positions) by {
            if i < n - 1 {
                let s = choose|s: int|
                    0 <= s < rest.len() && shows_node(#[trigger] rest[s], w, ids[i], positions);
                assert(shown[s] == rest[s]);
            } else {
                assert(shows_node(shown[rest.len() as int], w, ids[i], positions));
            }
        }
    }
}

/// Whether an edge is shown under its handle, from the node it comes from to the one that it
/// goes to, each under the handle of its key.
pub open spec fn shows_edge(s: SnapshotEdgeView, ids: Seq<NodeIdView>, edge: EdgeIdView) -> bool {
    &&& s.handle == edge.edge_handle
    &&& exists|i: int|
        0 <= i < ids.len() && (#[trigger] ids[i]).node_key == edge.upstream_node_key
            && ids[i].node_handle == s.upstream_node_handle
    &&& exists|i: int|
        0 <= i < ids.len() && (#[trigger] ids[i]).node_key == edge.downstream_node_key
            && ids[i].node_handle == s.downstream_node_handle
}

/// Whether a key has a handle.
pub open spec fn has_handle(ids: Seq<NodeIdView>, key: Seq<char>) -> bool {
    exists|i: int| 0 <= i < ids.len() && (#[trigger] ids[i]).node_key == key
}

proof fn lemma_edge_shown(ids: Seq<NodeIdView>, edges: Seq<EdgeIdView>, n: nat)
    requires
        0 < n <= edges.len(),
    ensures
        ({
            let rest = seen_edges(ids, edges, (n - 1) as nat);
            let shown = seen_edges(ids, edges, n);
            let edge = edges[n - 1];
            &&& has_handle(ids, edge.upstream_node_key) && has_handle(
                ids,
                edge.downstream_node_key,
            ) ==> shown.len() == rest.len() + 1 && shown.drop_last() == rest && shows_edge(
                shown.last(),
                ids,
                edge,
            )
            &&& !(has_handle(ids, edge.upstream_node_key) && has_handle(
                ids,
                edge.downstream_node_key,
            )) ==> shown == rest
        }),
{
    let rest = seen_edges(ids, edges, (n - 1) as nat);
    let shown = seen_edges(ids, edges, n);
    let edge = edges[n - 1];
    lemma_handle_of_key(ids, edge.upstream_node_key, ids.len());
    lemma_handle_of_key(ids, edge.downstream_node_key, ids.len());
    if handle_of_key(ids, edge.upstream_node_key, ids.len()) is Some && handle_of_key(
        ids,
        edge.downstream_node_key,
        ids.len(),
    ) is Some {
        assert(shown.drop_last() =~= rest);
    }
}

proof fn lemma_shown_edge_stands(ids: Seq<NodeIdView>, edges: Seq<EdgeIdView>, n: nat, s: int)
    requires
        n <= edges.len(),
        0 <= s < seen_edges(ids, edges, n).len(),
    ensures
        exists|e: int|
            0 <= e < n && shows_edge(seen_edges(ids, edges, n)[s], ids, #[trigger] edges[e]),
    decreases n,
{
    lemma_edge_shown(ids, edges, n);
    let rest = seen_edges(ids, edges, (n - 1) as nat);
    let shown = seen_edges(ids, edges, n);
    if s < rest.len() {
        lemma_shown_edge_stands(ids, edges, (n - 1) as nat, s);
        assert(shown != rest ==> shown.drop_last()[s] == shown[s]);
        let e = choose|e: int| 0 <= e < n - 1 && shows_edge(rest[s], ids, #[trigger] edges[e]);
        assert(shows_edge(shown[s], ids, edges[e]));
    } else {
        assert(shows_edge(shown[s], ids, edges[n - 1]));
    }
}

proof fn lemma_standing_edge_is_shown(ids: Seq<NodeIdView>, edges: Seq<EdgeIdView>, n: nat, e: int)
    requires
        n <= edges.len(),
        0 <= e < n,
        has_handle(ids, edges[e].upstream_node_key),
        has_handle(ids, edges[e].downstream_node_key),
    ensures
        exists|s: int|
            0 <= s < seen_edges(ids, edges, n).len() && shows_edge(
                #[trigger] seen_edges(ids, edges, n)[s],
                ids,
                edges[e],
            ),
    decreases n,
{
    lemma_edge_shown(ids, edges, n);
    let rest = seen_edges(ids, edges, (n - 1) as nat);
    let shown = seen_edges(ids, edges, n);
    if e < n - 1 {
        lemma_standing_edge_is_shown(ids, edges, (n - 1) as nat, e);
        let s = choose|s: int|
            0 <= s < rest.len() && shows_edge(#[trigger] rest[s], ids, edges[e]);
        assert(shown != rest ==> shown.drop_last()[s] == shown[s]);
        assert(shows_edge(shown[s], ids, edges[e]));
    } else {
        assert(shows_edge(shown[shown.len() - 1], ids, edges[e]));
    }
}

/// What clients are shown is the workflow as it stands: its handle, name, permission and
/// revisions; of its nodes every one that has a handle, and nothing else; of its edges every
/// one between two such nodes, in its direction, and nothing else.
pub proof fn law_a_workflow_is_shown_as_it_stands(
    w: WorkflowView,
    ids: Seq<NodeIdView>,
    edges: Seq<EdgeIdView>,
    positions: Seq<PositionView>,
    collection: i64,
    drawn: (Option<JsonView>, Option<JsonView>, Option<JsonView>),
)
    requires
        workflow_snapshot_view(Some(w), ids, edges, positions, collection, drawn) is Ok,
    ensures
        ({
            let shown = workflow_snapshot_view(
                Some(w),
                ids,
                edges,
                positions,
                collection,
                drawn,
            )->Ok_0;
            &&& shown.workflow == w.public_handle
            &&& shown.name == w.name
            &&& shown.allow_unsafe_parallel == w.allow_unsafe_parallel
            &&& shown.revisions.semantic_revision == w.semantic_revision
            &&& shown.revisions.presentation_revision == w.presentation_revision
            &&& shown.workflow_collection_revision == collection
            &&& shown.viewport == drawn.0
            &&& shown.collapse == drawn.1
            &&& shown.layout == drawn.2
            &&& forall|s: int|
                0 <= s < shown.nodes.len() ==> exists|i: int|
                    0 <= i < ids.len() && shows_node(
                        #[trigger] shown.nodes[s],
                        w,
                        #[trigger] ids[i],
                        positions,
                    )
            &&& forall|i: int, k: int|
                0 <= i < ids.len() && 0 <= k < w.nodes.len() && (#[trigger] w.nodes[k]).key == (
                #[trigger] ids[i]).node_key ==> exists|s: int|
                    0 <= s < shown.nodes.len() && shows_node(
                        #[trigger] shown.nodes[s],
                        w,
                        ids[i],
                        positions,
                    )
            &&& forall|s: int|
                0 <= s < shown.edges.len() ==> exists|e: int|
                    0 <= e < edges.len() && shows_edge(
                        #[trigger] shown.edges[s],
                        ids,
                        #[trigger] edges[e],
                    )
            &&& forall|e: int|
                0 <= e < edges.len() && has_handle(
                    ids,
                    (#[trigger] edges[e]).upstream_node_key,
                ) && has_handle(ids, edges[e].downstream_node_key) ==> exists|s: int|
                    0 <= s < shown.edges.len() && shows_edge(
                        #[trigger] shown.edges[s],
                        ids,
                        edges[e],
                    )
        }),
{
    let shown = workflow_snapshot_view(Some(w), ids, edges, positions, collection, drawn)->Ok_0;
    lemma_seen_nodes(w, ids, positions, ids.len());
    assert(shown.nodes == seen_nodes(w, ids, positions, ids.len()));
    assert(shown.edges == seen_edges(ids, edges, edges.len()));
    let all = seen_edges(ids, edges, edges.len());
    assert forall|s: int| 0 <= s < all.len() implies exists|e: int|
        0 <= e < edges.len() && shows_edge(#[trigger] all[s], ids, #[trigger] edges[e]) by {
        lemma_shown_edge_stands(ids, edges, edges.len(), s);
    }
    assert forall|e: int|
        0 <= e < edges.len() && has_handle(ids, (#[trigger] edges[e]).upstream_node_key)
            && has_handle(ids, edges[e].downstream_node_key) implies exists|s: int|
        0 <= s < all.len() && shows_edge(#[trigger] all[s], ids, edges[e]) by {
        lemma_standing_edge_is_shown(ids, edges, edges.len(), e);
    }
}

} // verus!
