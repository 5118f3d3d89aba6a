//! What a change of a project's workflows does: the change that its store is asked for,
//! the events that come of it, and what clients see of a workflow.

use crate::authority::{as_signed, signed_of};
use crate::command::{CommandProblem, ProblemView};
use crate::dispatch::{changes, EffectOutput, EffectView, ProjectionChange, ProjectionEffect};
use crate::handles::{outcome, AggregateKind, AggregateRef, AggregateView, WorkflowHandle};
use crate::json::{
    array, as_u64_view, canonical_json, canonical_text, field_of, fields, items, items_view, number,
    object, push_item, put, signed_view, txt, Json, JsonView,
};
use crate::problem::{KernelProblem, KernelProblemView};
use crate::project_rows::{
    find_workflow_by_handle, workflow_by_handle, ProjectRows, RowsView, WorkflowRecord,
    WorkflowView,
};
use crate::projection::RevisionVector;
use crate::run_command::{
    copy_nodes, nodes_json, nodes_value, nodes_view, texts_json, texts_value, DraftView, NodeView,
    ProjectCommandView, ProjectWorkflowCommand, ProjectWorkflowDraft, WorkflowNodeDraft,
};
use crate::text::{blank, copy_list, is_blank, list_has, same, texts};
use vstd::prelude::*;
use vstd::string::*;

verus! {

/// The handle of a node, by its key.
#[derive(Debug)]
pub struct NodeIdentity {
    pub node_key: String,
    pub node_handle: String,
}

/// The handle of a node, as a value.
pub ghost struct NodeIdView {
    pub node_key: Seq<char>,
    pub node_handle: Seq<char>,
}

impl View for NodeIdentity {
    type V = NodeIdView;

    open spec fn view(&self) -> NodeIdView {
        NodeIdView { node_key: self.node_key@, node_handle: self.node_handle@ }
    }
}

/// The handle of an edge, by the keys of its two nodes.
#[derive(Debug)]
pub struct EdgeIdentity {
    pub edge_handle: String,
    pub upstream_node_key: String,
    pub downstream_node_key: String,
}

/// The handle of an edge, as a value.
pub ghost struct EdgeIdView {
    pub edge_handle: Seq<char>,
    pub upstream_node_key: Seq<char>,
    pub downstream_node_key: Seq<char>,
}

impl View for EdgeIdentity {
    type V = EdgeIdView;

    open spec fn view(&self) -> EdgeIdView {
        EdgeIdView {
            edge_handle: self.edge_handle@,
            upstream_node_key: self.upstream_node_key@,
            downstream_node_key: self.downstream_node_key@,
        }
    }
}

/// Handles of nodes, as values.
pub open spec fn node_ids(v: Seq<NodeIdentity>) -> Seq<NodeIdView> {
    v.map_values(|n: NodeIdentity| n@)
}

/// Handles of edges, as values.
pub open spec fn edge_ids(v: Seq<EdgeIdentity>) -> Seq<EdgeIdView> {
    v.map_values(|e: EdgeIdentity| e@)
}

/// Where the node with a handle stands, from a place on.
pub open spec fn id_by_handle(v: Seq<NodeIdView>, handle: Seq<char>, from: int) -> Option<int>
    decreases v.len() - from,
{
    if from >= v.len() {
        None
    } else if v[from].node_handle == handle {
        Some(from)
    } else {
        id_by_handle(v, handle, from + 1)
    }
}

fn find_id_by_handle(v: &Vec<NodeIdentity>, handle: &str) -> (r: Option<usize>)
    ensures
        match r {
            Some(i) => i < v@.len() && id_by_handle(node_ids(v@), handle@, 0) == Some(i as int),
            None => id_by_handle(node_ids(v@), handle@, 0) is None,
        },
{
    let ghost all = node_ids(v@);
    let mut i: usize = 0;
    while i < v.len()
        invariant
            i <= v@.len(),
            all == node_ids(v@),
            id_by_handle(all, handle@, 0) == id_by_handle(all, handle@, i as int),
        decreases v@.len() - i,
    {
        assert(all[i as int] == v@[i as int]@);
        if same(v[i].node_handle.as_str(), handle) {
            return Some(i);
        }
        i = i + 1;
    }
    None
}

/// Where the node with a key stands, from a place on.
pub open spec fn id_by_key(v: Seq<NodeIdView>, key: Seq<char>, from: int) -> Option<int>
    decreases v.len() - from,
{
    if from >= v.len() {
        None
    } else if v[from].node_key == key {
        Some(from)
    } else {
        id_by_key(v, key, from + 1)
    }
}

fn find_id_by_key(v: &Vec<NodeIdentity>, key: &str) -> (r: Option<usize>)
    ensures
        match r {
            Some(i) => i < v@.len() && id_by_key(node_ids(v@), key@, 0) == Some(i as int),
            None => id_by_key(node_ids(v@), key@, 0) is None,
        },
{
    let ghost all = node_ids(v@);
    let mut i: usize = 0;
    while i < v.len()
        invariant
            i <= v@.len(),
            all == node_ids(v@),
            id_by_key(all, key@, 0) == id_by_key(all, key@, i as int),
        decreases v@.len() - i,
    {
        assert(all[i as int] == v@[i as int]@);
        if same(v[i].node_key.as_str(), key) {
            return Some(i);
        }
        i = i + 1;
    }
    None
}

/// Where the edge with a handle stands, from a place on.
pub open spec fn edge_by_handle(v: Seq<EdgeIdView>, handle: Seq<char>, from: int) -> Option<int>
    decreases v.len() - from,
{
    if from >= v.len() {
        None
    } else if v[from].edge_handle == handle {
        Some(from)
    } else {
        edge_by_handle(v, handle, from + 1)
    }
}

fn find_edge_by_handle(v: &Vec<EdgeIdentity>, handle: &str) -> (r: Option<usize>)
    ensures
        match r {
            Some(i) => i < v@.len() && edge_by_handle(edge_ids(v@), handle@, 0) == Some(i as int),
            None => edge_by_handle(edge_ids(v@), handle@, 0) is None,
        },
{
    let ghost all = edge_ids(v@);
    let mut i: usize = 0;
    while i < v.len()
        invariant
            i <= v@.len(),
            all == edge_ids(v@),
            edge_by_handle(all, handle@, 0) == edge_by_handle(all, handle@, i as int),
        decreases v@.len() - i,
    {
        assert(all[i as int] == v@[i as int]@);
        if same(v[i].edge_handle.as_str(), handle) {
            return Some(i);
        }
        i = i + 1;
    }
    None
}

/// Where the edge between two nodes stands, from a place on.
pub open spec fn edge_between(
    v: Seq<EdgeIdView>,
    up: Seq<char>,
    down: Seq<char>,
    from: int,
) -> Option<int>
    decreases v.len() - from,
{
    if from >= v.len() {
        None
    } else if v[from].upstream_node_key == up && v[from].downstream_node_key == down {
        Some(from)
    } else {
        edge_between(v, up, down, from + 1)
    }
}

fn find_edge_between(v: &Vec<EdgeIdentity>, up: &str, down: &str) -> (r: Option<usize>)
    ensures
        match r {
            Some(i) => i < v@.len() && edge_between(edge_ids(v@), up@, down@, 0) == Some(i as int),
            None => edge_between(edge_ids(v@), up@, down@, 0) is None,
        },
{
    let ghost all = edge_ids(v@);
    let mut i: usize = 0;
    while i < v.len()
        invariant
            i <= v@.len(),
            all == edge_ids(v@),
            edge_between(all, up@, down@, 0) == edge_between(all, up@, down@, i as int),
        decreases v@.len() - i,
    {
        assert(all[i as int] == v@[i as int]@);
        if same(v[i].upstream_node_key.as_str(), up) && same(v[i].downstream_node_key.as_str(), down) {
            return Some(i);
        }
        i = i + 1;
    }
    None
}

/// Where a node stands in a workflow, from a place on.
pub open spec fn node_at(v: Seq<NodeView>, key: Seq<char>, from: int) -> Option<int>
    decreases v.len() - from,
{
    if from >= v.len() {
        None
    } else if v[from].key == key {
        Some(from)
    } else {
        node_at(v, key, from + 1)
    }
}

fn find_node_at(v: &Vec<WorkflowNodeDraft>, key: &str) -> (r: Option<usize>)
    ensures
        match r {
            Some(i) => i < v@.len() && node_at(nodes_view(v@), key@, 0) == Some(i as int),
            None => node_at(nodes_view(v@), key@, 0) is None,
        },
{
    let ghost all = nodes_view(v@);
    let mut i: usize = 0;
    while i < v.len()
        invariant
            i <= v@.len(),
            all == nodes_view(v@),
            node_at(all, key@, 0) == node_at(all, key@, i as int),
        decreases v@.len() - i,
    {
        assert(all[i as int] == v@[i as int]@);
        if same(v[i].key.as_str(), key) {
            return Some(i);
        }
        i = i + 1;
    }
    None
}

impl NodeIdView {
    /// The JSON form of a node's handle.
    pub open spec fn json(self) -> JsonView {
        JsonView::Object(
            seq![
                ("node_key"@, JsonView::Text(self.node_key)),
                ("node_handle"@, JsonView::Text(self.node_handle)),
            ],
        )
    }
}

impl NodeIdentity {
    /// The JSON form of a node's handle.
    pub fn to_json(&self) -> (r: Json)
        ensures
            r@ == self@.json(),
    {
        let mut f: Vec<(String, Json)> = fields();
        put(&mut f, "node_key", txt(self.node_key.as_str()));
        put(&mut f, "node_handle", txt(self.node_handle.as_str()));
        let out: Json = object(f);
        assert(out@->Object_0 =~= self@.json()->Object_0);
        out
    }
}

impl EdgeIdView {
    /// The JSON form of an edge's handle.
    pub open spec fn json(self) -> JsonView {
        JsonView::Object(
            seq![
                ("edge_handle"@, JsonView::Text(self.edge_handle)),
                ("upstream_node_key"@, JsonView::Text(self.upstream_node_key)),
                ("downstream_node_key"@, JsonView::Text(self.downstream_node_key)),
            ],
        )
    }
}

impl EdgeIdentity {
    /// The JSON form of an edge's handle.
    pub fn to_json(&self) -> (r: Json)
        ensures
            r@ == self@.json(),
    {
        let mut f: Vec<(String, Json)> = fields();
        put(&mut f, "edge_handle", txt(self.edge_handle.as_str()));
        put(&mut f, "upstream_node_key", txt(self.upstream_node_key.as_str()));
        put(&mut f, "downstream_node_key", txt(self.downstream_node_key.as_str()));
        let out: Json = object(f);
        assert(out@->Object_0 =~= self@.json()->Object_0);
        out
    }
}

impl WorkflowView {
    /// The JSON form of a workflow.
    pub open spec fn json(self) -> JsonView {
        JsonView::Object(
            seq![
                ("public_handle"@, JsonView::Text(self.public_handle)),
                ("key"@, JsonView::Text(self.key)),
                ("name"@, JsonView::Text(self.name)),
                ("nodes"@, nodes_json(self.nodes)),
                ("allow_unsafe_parallel"@, JsonView::Bool(self.allow_unsafe_parallel)),
                ("semantic_revision"@, signed_view(self.semantic_revision as int)),
                ("presentation_revision"@, signed_view(self.presentation_revision as int)),
            ],
        )
    }
}

impl WorkflowRecord {
    /// The JSON form of a workflow.
    pub fn to_json(&self) -> (r: Json)
        ensures
            r@ == self@.json(),
    {
        let mut f: Vec<(String, Json)> = fields();
        put(&mut f, "public_handle", txt(self.public_handle.as_str()));
        put(&mut f, "key", txt(self.key.as_str()));
        put(&mut f, "name", txt(self.name.as_str()));
        put(&mut f, "nodes", nodes_value(&self.nodes));
        put(&mut f, "allow_unsafe_parallel", Json::Bool(self.allow_unsafe_parallel));
        put(&mut f, "semantic_revision", number(self.semantic_revision));
        put(&mut f, "presentation_revision", number(self.presentation_revision));
        let out: Json = object(f);
        assert(out@->Object_0 =~= self@.json()->Object_0);
        out
    }
}

/// The JSON form of a list of handles.
pub open spec fn node_ids_json(v: Seq<NodeIdView>) -> JsonView {
    JsonView::Array(v.map_values(|x: NodeIdView| x.json()))
}

fn node_ids_value(v: &Vec<NodeIdentity>) -> (r: Json)
    ensures
        r@ == node_ids_json(node_ids(v@)),
{
    let mut out: Vec<Json> = items();
    let ghost all = node_ids(v@).map_values(|x: NodeIdView| x.json());
    let mut i: usize = 0;
    assert(items_view(out@) =~= all.take(0));
    while i < v.len()
        invariant
            i <= v@.len(),
            all == node_ids(v@).map_values(|x: NodeIdView| x.json()),
            items_view(out@) == all.take(i as int),
        decreases v@.len() - i,
    {
        push_item(&mut out, v[i].to_json());
        assert(all.take(i + 1) =~= all.take(i as int).push(all[i as int]));
        i = i + 1;
    }
    assert(all.take(i as int) =~= all);
    array(out)
}

/// The JSON form of a list of handles.
pub open spec fn edge_ids_json(v: Seq<EdgeIdView>) -> JsonView {
    JsonView::Array(v.map_values(|x: EdgeIdView| x.json()))
}

fn edge_ids_value(v: &Vec<EdgeIdentity>) -> (r: Json)
    ensures
        r@ == edge_ids_json(edge_ids(v@)),
{
    let mut out: Vec<Json> = items();
    let ghost all = edge_ids(v@).map_values(|x: EdgeIdView| x.json());
    let mut i: usize = 0;
    assert(items_view(out@) =~= all.take(0));
    while i < v.len()
        invariant
            i <= v@.len(),
            all == edge_ids(v@).map_values(|x: EdgeIdView| x.json()),
            items_view(out@) == all.take(i as int),
        decreases v@.len() - i,
    {
        push_item(&mut out, v[i].to_json());
        assert(all.take(i + 1) =~= all.take(i as int).push(all[i as int]));
        i = i + 1;
    }
    assert(all.take(i as int) =~= all);
    array(out)
}

/// What is told of a new workflow before it has handles.
pub open spec fn draft_data_json(draft: JsonView) -> JsonView {
    JsonView::Object(
        seq![
            ("draft"@, draft),
        ],
    )
}

fn draft_data_value(draft: &Json) -> (r: Json)
    ensures
        r@ == draft_data_json(draft@),
{
    let mut f: Vec<(String, Json)> = fields();
    put(&mut f, "draft", draft.copy());
    let out: Json = object(f);
    assert(out@->Object_0 =~= draft_data_json(draft@)->Object_0);
    out
}

/// What is told of a moved node.
pub open spec fn move_data_json(node_handle: Seq<char>, x: JsonView, y: JsonView) -> JsonView {
    JsonView::Object(
        seq![
            ("node_handle"@, JsonView::Text(node_handle)),
            ("x"@, x),
            ("y"@, y),
        ],
    )
}

fn move_data_value(node_handle: &str, x: &Json, y: &Json) -> (r: Json)
    ensures
        r@ == move_data_json(node_handle@, x@, y@),
{
    let mut f: Vec<(String, Json)> = fields();
    put(&mut f, "node_handle", txt(node_handle));
    put(&mut f, "x", x.copy());
    put(&mut f, "y", y.copy());
    let out: Json = object(f);
    assert(out@->Object_0 =~= move_data_json(node_handle@, x@, y@)->Object_0);
    out
}

/// What is told of a moved view.
pub open spec fn viewport_data_json(viewport: JsonView) -> JsonView {
    JsonView::Object(
        seq![
            ("viewport"@, viewport),
        ],
    )
}

fn viewport_data_value(viewport: &Json) -> (r: Json)
    ensures
        r@ == viewport_data_json(viewport@),
{
    let mut f: Vec<(String, Json)> = fields();
    put(&mut f, "viewport", viewport.copy());
    let out: Json = object(f);
    assert(out@->Object_0 =~= viewport_data_json(viewport@)->Object_0);
    out
}

/// What is told of a new node before it has a handle.
pub open spec fn node_data_json(node: JsonView) -> JsonView {
    JsonView::Object(
        seq![
            ("node"@, node),
        ],
    )
}

fn node_data_value(node: &Json) -> (r: Json)
    ensures
        r@ == node_data_json(node@),
{
    let mut f: Vec<(String, Json)> = fields();
    put(&mut f, "node", node.copy());
    let out: Json = object(f);
    assert(out@->Object_0 =~= node_data_json(node@)->Object_0);
    out
}

/// What is told of a new node.
pub open spec fn new_node_data_json(node_handle: Seq<char>, node: JsonView) -> JsonView {
    JsonView::Object(
        seq![
            ("node_handle"@, JsonView::Text(node_handle)),
            ("node"@, node),
        ],
    )
}

fn new_node_data_value(node_handle: &str, node: &Json) -> (r: Json)
    ensures
        r@ == new_node_data_json(node_handle@, node@),
{
    let mut f: Vec<(String, Json)> = fields();
    put(&mut f, "node_handle", txt(node_handle));
    put(&mut f, "node", node.copy());
    let out: Json = object(f);
    assert(out@->Object_0 =~= new_node_data_json(node_handle@, node@)->Object_0);
    out
}

/// What is told of a changed node.
pub open spec fn update_data_json(
    node_handle: Seq<char>,
    title: Seq<char>,
    instructions: Seq<char>,
    agent_instance_id: Seq<char>,
) -> JsonView {
    JsonView::Object(
        seq![
            ("node_handle"@, JsonView::Text(node_handle)),
            ("title"@, JsonView::Text(title)),
            ("instructions"@, JsonView::Text(instructions)),
            ("agent_instance_id"@, JsonView::Text(agent_instance_id)),
        ],
    )
}

fn update_data_value(
    node_handle: &str,
    title: &str,
    instructions: &str,
    agent_instance_id: &str,
) -> (r: Json)
    ensures
        r@ == update_data_json(node_handle@, title@, instructions@, agent_instance_id@),
{
    let mut f: Vec<(String, Json)> = fields();
    put(&mut f, "node_handle", txt(node_handle));
    put(&mut f, "title", txt(title));
    put(&mut f, "instructions", txt(instructions));
    put(&mut f, "agent_instance_id", txt(agent_instance_id));
    let out: Json = object(f);
    assert(out@->Object_0 =~= update_data_json(node_handle@, title@, instructions@, agent_instance_id@)->Object_0);
    out
}

/// What is told of a removed node.
pub open spec fn remove_data_json(
    node_handle: Seq<char>,
    incident_edge_handles: JsonView,
) -> JsonView {
    JsonView::Object(
        seq![
            ("node_handle"@, JsonView::Text(node_handle)),
            ("incident_edge_handles"@, incident_edge_handles),
        ],
    )
}

fn remove_data_value(node_handle: &str, incident_edge_handles: &Json) -> (r: Json)
    ensures
        r@ == remove_data_json(node_handle@, incident_edge_handles@),
{
    let mut f: Vec<(String, Json)> = fields();
    put(&mut f, "node_handle", txt(node_handle));
    put(&mut f, "incident_edge_handles", incident_edge_handles.copy());
    let out: Json = object(f);
    assert(out@->Object_0 =~= remove_data_json(node_handle@, incident_edge_handles@)->Object_0);
    out
}

/// What is told of a new edge before it has a handle.
pub open spec fn connect_data_json(
    upstream_node_handle: Seq<char>,
    downstream_node_handle: Seq<char>,
) -> JsonView {
    JsonView::Object(
        seq![
            ("upstream_node_handle"@, JsonView::Text(upstream_node_handle)),
            ("downstream_node_handle"@, JsonView::Text(downstream_node_handle)),
        ],
    )
}

fn connect_data_value(upstream_node_handle: &str, downstream_node_handle: &str) -> (r: Json)
    ensures
        r@ == connect_data_json(upstream_node_handle@, downstream_node_handle@),
{
    let mut f: Vec<(String, Json)> = fields();
    put(&mut f, "upstream_node_handle", txt(upstream_node_handle));
    put(&mut f, "downstream_node_handle", txt(downstream_node_handle));
    let out: Json = object(f);
    assert(out@->Object_0 =~= connect_data_json(upstream_node_handle@, downstream_node_handle@)->Object_0);
    out
}

/// What is told of a new edge.
pub open spec fn edge_data_json(
    edge_handle: Seq<char>,
    upstream_node_handle: Seq<char>,
    downstream_node_handle: Seq<char>,
) -> JsonView {
    JsonView::Object(
        seq![
            ("edge_handle"@, JsonView::Text(edge_handle)),
            ("upstream_node_handle"@, JsonView::Text(upstream_node_handle)),
            ("downstream_node_handle"@, JsonView::Text(downstream_node_handle)),
        ],
    )
}

fn edge_data_value(
    edge_handle: &str,
    upstream_node_handle: &str,
    downstream_node_handle: &str,
) -> (r: Json)
    ensures
        r@ == edge_data_json(edge_handle@, upstream_node_handle@, downstream_node_handle@),
{
    let mut f: Vec<(String, Json)> = fields();
    put(&mut f, "edge_handle", txt(edge_handle));
    put(&mut f, "upstream_node_handle", txt(upstream_node_handle));
    put(&mut f, "downstream_node_handle", txt(downstream_node_handle));
    let out: Json = object(f);
    assert(out@->Object_0 =~= edge_data_json(edge_handle@, upstream_node_handle@, downstream_node_handle@)->Object_0);
    out
}

/// What is told of a removed edge.
pub open spec fn disconnect_data_json(edge_handle: Seq<char>) -> JsonView {
    JsonView::Object(
        seq![
            ("edge_handle"@, JsonView::Text(edge_handle)),
        ],
    )
}

fn disconnect_data_value(edge_handle: &str) -> (r: Json)
    ensures
        r@ == disconnect_data_json(edge_handle@),
{
    let mut f: Vec<(String, Json)> = fields();
    put(&mut f, "edge_handle", txt(edge_handle));
    let out: Json = object(f);
    assert(out@->Object_0 =~= disconnect_data_json(edge_handle@)->Object_0);
    out
}

/// What is told of the switch for unsafe parallel work.
pub open spec fn parallel_data_json(allow: bool) -> JsonView {
    JsonView::Object(
        seq![
            ("allow"@, JsonView::Bool(allow)),
        ],
    )
}

fn parallel_data_value(allow: bool) -> (r: Json)
    ensures
        r@ == parallel_data_json(allow),
{
    let mut f: Vec<(String, Json)> = fields();
    put(&mut f, "allow", Json::Bool(allow));
    let out: Json = object(f);
    assert(out@->Object_0 =~= parallel_data_json(allow)->Object_0);
    out
}

/// What is told of a new workflow.
pub open spec fn created_data_json(
    workflow: JsonView,
    node_identities: JsonView,
    edge_identities: JsonView,
) -> JsonView {
    JsonView::Object(
        seq![
            ("workflow"@, workflow),
            ("node_identities"@, node_identities),
            ("edge_identities"@, edge_identities),
        ],
    )
}

fn created_data_value(workflow: &Json, node_identities: &Json, edge_identities: &Json) -> (r: Json)
    ensures
        r@ == created_data_json(workflow@, node_identities@, edge_identities@),
{
    let mut f: Vec<(String, Json)> = fields();
    put(&mut f, "workflow", workflow.copy());
    put(&mut f, "node_identities", node_identities.copy());
    put(&mut f, "edge_identities", edge_identities.copy());
    let out: Json = object(f);
    assert(out@->Object_0 =~= created_data_json(workflow@, node_identities@, edge_identities@)->Object_0);
    out
}

/// Two revisions of a workflow.
pub open spec fn pair_json(semantic_revision: i64, presentation_revision: i64) -> JsonView {
    JsonView::Object(
        seq![
            ("semantic_revision"@, signed_view(semantic_revision as int)),
            ("presentation_revision"@, signed_view(presentation_revision as int)),
        ],
    )
}

fn pair_value(semantic_revision: i64, presentation_revision: i64) -> (r: Json)
    ensures
        r@ == pair_json(semantic_revision, presentation_revision),
{
    let mut f: Vec<(String, Json)> = fields();
    put(&mut f, "semantic_revision", number(semantic_revision));
    put(&mut f, "presentation_revision", number(presentation_revision));
    let out: Json = object(f);
    assert(out@->Object_0 =~= pair_json(semantic_revision, presentation_revision)->Object_0);
    out
}

/// The revisions of a workflow and of its collection.
pub open spec fn triple_json(
    semantic_revision: i64,
    presentation_revision: i64,
    workflow_collection_revision: i64,
) -> JsonView {
    JsonView::Object(
        seq![
            ("semantic_revision"@, signed_view(semantic_revision as int)),
            ("presentation_revision"@, signed_view(presentation_revision as int)),
            ("workflow_collection_revision"@, signed_view(workflow_collection_revision as int)),
        ],
    )
}

fn triple_value(
    semantic_revision: i64,
    presentation_revision: i64,
    workflow_collection_revision: i64,
) -> (r: Json)
    ensures
        r@ == triple_json(semantic_revision, presentation_revision, workflow_collection_revision),
{
    let mut f: Vec<(String, Json)> = fields();
    put(&mut f, "semantic_revision", number(semantic_revision));
    put(&mut f, "presentation_revision", number(presentation_revision));
    put(&mut f, "workflow_collection_revision", number(workflow_collection_revision));
    let out: Json = object(f);
    assert(out@->Object_0 =~= triple_json(semantic_revision, presentation_revision, workflow_collection_revision)->Object_0);
    out
}

/// The one revision of a collection.
pub open spec fn scalar_json(revision: i64) -> JsonView {
    JsonView::Object(
        seq![
            ("revision"@, signed_view(revision as int)),
        ],
    )
}

fn scalar_value(revision: i64) -> (r: Json)
    ensures
        r@ == scalar_json(revision),
{
    let mut f: Vec<(String, Json)> = fields();
    put(&mut f, "revision", number(revision));
    let out: Json = object(f);
    assert(out@->Object_0 =~= scalar_json(revision)->Object_0);
    out
}

/// The handle of a workflow.
pub open spec fn handle_data_json(workflow_handle: Seq<char>) -> JsonView {
    JsonView::Object(
        seq![
            ("workflow_handle"@, JsonView::Text(workflow_handle)),
        ],
    )
}

fn handle_data_value(workflow_handle: &str) -> (r: Json)
    ensures
        r@ == handle_data_json(workflow_handle@),
{
    let mut f: Vec<(String, Json)> = fields();
    put(&mut f, "workflow_handle", txt(workflow_handle));
    let out: Json = object(f);
    assert(out@->Object_0 =~= handle_data_json(workflow_handle@)->Object_0);
    out
}

/// The name of a workflow.
pub open spec fn name_data_json(name: Seq<char>) -> JsonView {
    JsonView::Object(
        seq![
            ("name"@, JsonView::Text(name)),
        ],
    )
}

fn name_data_value(name: &str) -> (r: Json)
    ensures
        r@ == name_data_json(name@),
{
    let mut f: Vec<(String, Json)> = fields();
    put(&mut f, "name", txt(name));
    let out: Json = object(f);
    assert(out@->Object_0 =~= name_data_json(name@)->Object_0);
    out
}

/// A change that clients follow step by step.
pub open spec fn typed_delta_json(delta_type: Seq<char>, data: JsonView) -> JsonView {
    JsonView::Object(
        seq![
            ("mode"@, JsonView::Text("typed_delta"@)),
            ("delta_type"@, JsonView::Text(delta_type)),
            ("data"@, data),
        ],
    )
}

fn typed_delta_value(delta_type: &str, data: &Json) -> (r: Json)
    ensures
        r@ == typed_delta_json(delta_type@, data@),
{
    let mut f: Vec<(String, Json)> = fields();
    put(&mut f, "mode", txt("typed_delta"));
    put(&mut f, "delta_type", txt(delta_type));
    put(&mut f, "data", data.copy());
    let out: Json = object(f);
    assert(out@->Object_0 =~= typed_delta_json(delta_type@, data@)->Object_0);
    out
}

/// A change that replaces what clients have.
pub open spec fn replace_delta_json(data: JsonView) -> JsonView {
    JsonView::Object(
        seq![
            ("mode"@, JsonView::Text("replace"@)),
            ("data"@, data),
        ],
    )
}

fn replace_delta_value(data: &Json) -> (r: Json)
    ensures
        r@ == replace_delta_json(data@),
{
    let mut f: Vec<(String, Json)> = fields();
    put(&mut f, "mode", txt("replace"));
    put(&mut f, "data", data.copy());
    let out: Json = object(f);
    assert(out@->Object_0 =~= replace_delta_json(data@)->Object_0);
    out
}

/// What a change starts from, what it leads to, and what it is.
pub open spec fn change_json(
    base_revision: JsonView,
    aggregate_revision: JsonView,
    delta: JsonView,
) -> JsonView {
    JsonView::Object(
        seq![
            ("base_revision"@, base_revision),
            ("aggregate_revision"@, aggregate_revision),
            ("delta"@, delta),
        ],
    )
}

fn change_value(base_revision: &Json, aggregate_revision: &Json, delta: &Json) -> (r: Json)
    ensures
        r@ == change_json(base_revision@, aggregate_revision@, delta@),
{
    let mut f: Vec<(String, Json)> = fields();
    put(&mut f, "base_revision", base_revision.copy());
    put(&mut f, "aggregate_revision", aggregate_revision.copy());
    put(&mut f, "delta", delta.copy());
    let out: Json = object(f);
    assert(out@->Object_0 =~= change_json(base_revision@, aggregate_revision@, delta@)->Object_0);
    out
}

/// A tombstone: what clients have is gone.
pub open spec fn tombstone_json() -> JsonView {
    JsonView::Object(seq![("mode"@, JsonView::Text("tombstone"@))])
}

fn tombstone_value() -> (r: Json)
    ensures
        r@ == tombstone_json(),
{
    let mut f: Vec<(String, Json)> = fields();
    put(&mut f, "mode", txt("tombstone"));
    let out: Json = object(f);
    assert(out@->Object_0 =~= tombstone_json()->Object_0);
    out
}

/// The change of workflows that a store is asked for.
pub enum WorkflowMutation {
    Create { draft: ProjectWorkflowDraft, expected_collection_revision: i64 },
    Delete {
        workflow_handle: String,
        expected_collection_revision: i64,
        expected_semantic_revision: i64,
        expected_presentation_revision: i64,
    },
    SetNodePosition {
        workflow_handle: String,
        node_handle: String,
        expected_presentation_revision: i64,
        x: Json,
        y: Json,
    },
    SetViewport {
        workflow_handle: String,
        expected_presentation_revision: i64,
        viewport_json: String,
    },
    ReplaceSemantic { draft: ProjectWorkflowDraft, expected_semantic_revision: i64 },
}

/// The change of workflows that a store is asked for, as a value.
pub ghost enum WorkflowMutationView {
    Create { draft: DraftView, expected_collection_revision: int },
    Delete {
        workflow_handle: Seq<char>,
        expected_collection_revision: int,
        expected_semantic_revision: int,
        expected_presentation_revision: int,
    },
    SetNodePosition {
        workflow_handle: Seq<char>,
        node_handle: Seq<char>,
        expected_presentation_revision: int,
        x: JsonView,
        y: JsonView,
    },
    SetViewport {
        workflow_handle: Seq<char>,
        expected_presentation_revision: int,
        viewport_json: Seq<char>,
    },
    ReplaceSemantic { draft: DraftView, expected_semantic_revision: int },
}

impl View for WorkflowMutation {
    type V = WorkflowMutationView;

    open spec fn view(&self) -> WorkflowMutationView {
        match *self {
            WorkflowMutation::Create { draft, expected_collection_revision } =>
            WorkflowMutationView::Create {
                draft: draft@,
                expected_collection_revision: expected_collection_revision as int,
            },
            WorkflowMutation::Delete {
                workflow_handle,
                expected_collection_revision,
                expected_semantic_revision,
                expected_presentation_revision,
            } => WorkflowMutationView::Delete {
                workflow_handle: workflow_handle@,
                expected_collection_revision: expected_collection_revision as int,
                expected_semantic_revision: expected_semantic_revision as int,
                expected_presentation_revision: expected_presentation_revision as int,
            },
            WorkflowMutation::SetNodePosition {
                workflow_handle,
                node_handle,
                expected_presentation_revision,
                x,
                y,
            } => WorkflowMutationView::SetNodePosition {
                workflow_handle: workflow_handle@,
                node_handle: node_handle@,
                expected_presentation_revision: expected_presentation_revision as int,
                x: x@,
                y: y@,
            },
            WorkflowMutation::SetViewport {
                workflow_handle,
                expected_presentation_revision,
                viewport_json,
            } => WorkflowMutationView::SetViewport {
                workflow_handle: workflow_handle@,
                expected_presentation_revision: expected_presentation_revision as int,
                viewport_json: viewport_json@,
            },
            WorkflowMutation::ReplaceSemantic { draft, expected_semantic_revision } =>
            WorkflowMutationView::ReplaceSemantic {
                draft: draft@,
                expected_semantic_revision: expected_semantic_revision as int,
            },
        }
    }
}

/// A change of workflows: what the store is asked for, and what is told of it.
pub struct WorkflowPlan {
    pub mutation: WorkflowMutation,
    pub delta_type: &'static str,
    pub delta_data: Json,
}

/// A change of workflows, as a value.
pub ghost struct WorkflowPlanView {
    pub mutation: WorkflowMutationView,
    pub delta_type: Seq<char>,
    pub delta_data: JsonView,
}

impl View for WorkflowPlan {
    type V = WorkflowPlanView;

    open spec fn view(&self) -> WorkflowPlanView {
        WorkflowPlanView {
            mutation: self.mutation@,
            delta_type: self.delta_type@,
            delta_data: self.delta_data@,
        }
    }
}

/// A list without a text.
pub open spec fn without_text(v: Seq<Seq<char>>, key: Seq<char>, n: nat) -> Seq<Seq<char>>
    decreases n,
{
    if n == 0 {
        seq![]
    } else if v[n - 1] == key {
        without_text(v, key, (n - 1) as nat)
    } else {
        without_text(v, key, (n - 1) as nat).push(v[n - 1])
    }
}

fn drop_text(v: &Vec<String>, key: &str) -> (r: Vec<String>)
    ensures
        texts(r@) == without_text(texts(v@), key@, v@.len()),
{
    let ghost all = texts(v@);
    let mut out: Vec<String> = Vec::new();
    let mut i: usize = 0;
    assert(texts(out@) =~= seq![]);
    while i < v.len()
        invariant
            i <= v@.len(),
            all == texts(v@),
            texts(out@) == without_text(all, key@, i as nat),
        decreases v@.len() - i,
    {
        let ghost had = out@;
        assert(all[i as int] == v@[i as int]@);
        if !same(v[i].as_str(), key) {
            out.push(v[i].clone());
            assert(texts(out@) =~= texts(had).push(all[i as int]));
        }
        i = i + 1;
    }
    out
}

/// A node that no longer depends on another.
pub open spec fn independent(node: NodeView, key: Seq<char>) -> NodeView {
    NodeView { deps: without_text(node.deps, key, node.deps.len()), ..node }
}

/// The first `n` nodes without one, and without a dependency on it.
pub open spec fn without_node(v: Seq<NodeView>, key: Seq<char>, n: nat) -> Seq<NodeView>
    decreases n,
{
    if n == 0 {
        seq![]
    } else if v[n - 1].key == key {
        without_node(v, key, (n - 1) as nat)
    } else {
        without_node(v, key, (n - 1) as nat).push(independent(v[n - 1], key))
    }
}

fn drop_dependency(node: &WorkflowNodeDraft, key: &str) -> (r: WorkflowNodeDraft)
    ensures
        r@ == independent(node@, key@),
{
    WorkflowNodeDraft {
        key: node.key.clone(),
        title: node.title.clone(),
        instructions: node.instructions.clone(),
        agent_instance_id: node.agent_instance_id.clone(),
        deps: drop_text(&node.deps, key),
    }
}

fn drop_node(v: &Vec<WorkflowNodeDraft>, key: &str) -> (r: Vec<WorkflowNodeDraft>)
    ensures
        nodes_view(r@) == without_node(nodes_view(v@), key@, v@.len()),
{
    let ghost all = nodes_view(v@);
    let mut out: Vec<WorkflowNodeDraft> = Vec::new();
    let mut i: usize = 0;
    assert(nodes_view(out@) =~= seq![]);
    while i < v.len()
        invariant
            i <= v@.len(),
            all == nodes_view(v@),
            nodes_view(out@) == without_node(all, key@, i as nat),
        decreases v@.len() - i,
    {
        let ghost had = out@;
        assert(all[i as int] == v@[i as int]@);
        if !same(v[i].key.as_str(), key) {
            let node: WorkflowNodeDraft = drop_dependency(&v[i], key);
            out.push(node);
            assert(nodes_view(out@) =~= nodes_view(had).push(node@));
        }
        i = i + 1;
    }
    out
}

/// The handles of the first `n` edges that a node is an end of.
pub open spec fn incident(v: Seq<EdgeIdView>, key: Seq<char>, n: nat) -> Seq<Seq<char>>
    decreases n,
{
    if n == 0 {
        seq![]
    } else if v[n - 1].upstream_node_key == key || v[n - 1].downstream_node_key == key {
        incident(v, key, (n - 1) as nat).push(v[n - 1].edge_handle)
    } else {
        incident(v, key, (n - 1) as nat)
    }
}

fn list_incident(v: &Vec<EdgeIdentity>, key: &str) -> (r: Vec<String>)
    ensures
        texts(r@) == incident(edge_ids(v@), key@, v@.len()),
{
    let ghost all = edge_ids(v@);
    let mut out: Vec<String> = Vec::new();
    let mut i: usize = 0;
    assert(texts(out@) =~= seq![]);
    while i < v.len()
        invariant
            i <= v@.len(),
            all == edge_ids(v@),
            texts(out@) == incident(all, key@, i as nat),
        decreases v@.len() - i,
    {
        let ghost had = out@;
        assert(all[i as int] == v@[i as int]@);
        if same(v[i].upstream_node_key.as_str(), key) || same(
            v[i].downstream_node_key.as_str(),
            key,
        ) {
            out.push(v[i].edge_handle.clone());
            assert(texts(out@) =~= texts(had).push(all[i as int].edge_handle));
        }
        i = i + 1;
    }
    out
}

/// A workflow as its author would write it now.
pub open spec fn draft_of(w: WorkflowView) -> DraftView {
    DraftView {
        key: w.key,
        name: w.name,
        nodes: w.nodes,
        allow_unsafe_parallel: w.allow_unsafe_parallel,
    }
}

/// The change of what a workflow does: its new form, and what is told of it.
pub open spec fn semantic_change(
    w: WorkflowView,
    nodes: Seq<NodeIdView>,
    edges: Seq<EdgeIdView>,
    c: ProjectCommandView,
) -> Result<(DraftView, Seq<char>, JsonView, u64), ProblemView> {
    let draft = draft_of(w);
    match c {
        ProjectCommandView::AddNode { node, expected_semantic_revision, .. } => Ok(
            (
                DraftView { nodes: draft.nodes.push(node), ..draft },
                "workflow.add_node"@,
                node_data_json(node.json()),
                expected_semantic_revision,
            ),
        ),
        ProjectCommandView::UpdateNode {
            node_handle,
            title,
            instructions,
            agent_instance_id,
            expected_semantic_revision,
            ..
        } => match id_by_handle(nodes, node_handle, 0) {
            None => Err(ProblemView::ResourceNotFound),
            Some(i) => match node_at(draft.nodes, nodes[i].node_key, 0) {
                None => Err(ProblemView::ResourceNotFound),
                Some(k) => Ok(
                    (
                        DraftView {
                            nodes: draft.nodes.update(
                                k,
                                NodeView {
                                    title,
                                    instructions,
                                    agent_instance_id,
                                    ..draft.nodes[k]
                                },
                            ),
                            ..draft
                        },
                        "workflow.update_node"@,
                        update_data_json(node_handle, title, instructions, agent_instance_id),
                        expected_semantic_revision,
                    ),
                ),
            },
        },
        ProjectCommandView::RemoveNode { node_handle, expected_semantic_revision, .. } =>
        match id_by_handle(nodes, node_handle, 0) {
            None => Err(ProblemView::ResourceNotFound),
            Some(i) => if draft.nodes.len() <= 1 {
                Err(ProblemView::InvalidEnvelope("工作流至少保留一个节点"@))
            } else {
                Ok(
                    (
                        DraftView {
                            nodes: without_node(
                                draft.nodes,
                                nodes[i].node_key,
                                draft.nodes.len(),
                            ),
                            ..draft
                        },
                        "workflow.remove_node"@,
                        remove_data_json(
                            node_handle,
                            texts_json(incident(edges, nodes[i].node_key, edges.len())),
                        ),
                        expected_semantic_revision,
                    ),
                )
            },
        },
        ProjectCommandView::Connect {
            upstream_node_handle,
            downstream_node_handle,
            expected_semantic_revision,
            ..
        } => match (
            id_by_handle(nodes, upstream_node_handle, 0),
            id_by_handle(nodes, downstream_node_handle, 0),
        ) {
            (Some(i), Some(j)) => match node_at(draft.nodes, nodes[j].node_key, 0) {
                None => Err(ProblemView::ResourceNotFound),
                Some(k) => {
                    let node = draft.nodes[k];
                    let up = nodes[i].node_key;
                    Ok(
                        (
                            DraftView {
                                nodes: draft.nodes.update(
                                    k,
                                    NodeView {
                                        deps: if node.deps.contains(up) {
                                            node.deps
                                        } else {
                                            node.deps.push(up)
                                        },
                                        ..node
                                    },
                                ),
                                ..draft
                            },
                            "workflow.connect"@,
                            connect_data_json(upstream_node_handle, downstream_node_handle),
                            expected_semantic_revision,
                        ),
                    )
                },
            },
            _ => Err(ProblemView::ResourceNotFound),
        },
        ProjectCommandView::Disconnect { edge_handle, expected_semantic_revision, .. } =>
        match edge_by_handle(edges, edge_handle, 0) {
            None => Err(ProblemView::ResourceNotFound),
            Some(e) => match node_at(draft.nodes, edges[e].downstream_node_key, 0) {
                None => Err(ProblemView::ResourceNotFound),
                Some(k) => Ok(
                    (
                        DraftView {
                            nodes: draft.nodes.update(
                                k,
                                independent(draft.nodes[k], edges[e].upstream_node_key),
                            ),
                            ..draft
                        },
                        "workflow.disconnect"@,
                        disconnect_data_json(edge_handle),
                        expected_semantic_revision,
                    ),
                ),
            },
        },
        ProjectCommandView::SetUnsafeParallel { allow, expected_semantic_revision, .. } => Ok(
            (
                DraftView { allow_unsafe_parallel: allow, ..draft },
                "workflow.set_unsafe_parallel"@,
                parallel_data_json(allow),
                expected_semantic_revision,
            ),
        ),
        _ => Err(ProblemView::InvalidEnvelope("命令轴错误"@)),
    }
}

/// What the store is asked for, and what is told of it.
pub open spec fn workflow_plan(
    rows: RowsView,
    nodes: Seq<NodeIdView>,
    edges: Seq<EdgeIdView>,
    c: ProjectCommandView,
) -> Result<WorkflowPlanView, ProblemView> {
    match c {
        ProjectCommandView::Create { draft, expected_collection_revision, .. } => Ok(
            WorkflowPlanView {
                mutation: WorkflowMutationView::Create {
                    draft,
                    expected_collection_revision: as_signed(expected_collection_revision as nat),
                },
                delta_type: "workflow.replace"@,
                delta_data: draft_data_json(draft.json()),
            },
        ),
        ProjectCommandView::Delete {
            workflow,
            expected_collection_revision,
            expected_semantic_revision,
            expected_presentation_revision,
            ..
        } => Ok(
            WorkflowPlanView {
                mutation: WorkflowMutationView::Delete {
                    workflow_handle: workflow,
                    expected_collection_revision: as_signed(expected_collection_revision as nat),
                    expected_semantic_revision: as_signed(expected_semantic_revision as nat),
                    expected_presentation_revision: as_signed(
                        expected_presentation_revision as nat,
                    ),
                },
                delta_type: "workflow.delete"@,
                delta_data: JsonView::Null,
            },
        ),
        ProjectCommandView::MoveNode {
            workflow,
            node_handle,
            x,
            y,
            expected_presentation_revision,
            ..
        } => Ok(
            WorkflowPlanView {
                mutation: WorkflowMutationView::SetNodePosition {
                    workflow_handle: workflow,
                    node_handle,
                    expected_presentation_revision: as_signed(
                        expected_presentation_revision as nat,
                    ),
                    x,
                    y,
                },
                delta_type: "workflow.node_position_set"@,
                delta_data: move_data_json(node_handle, x, y),
            },
        ),
        ProjectCommandView::SetViewport {
            workflow,
            viewport,
            expected_presentation_revision,
            ..
        } => Ok(
            WorkflowPlanView {
                mutation: WorkflowMutationView::SetViewport {
                    workflow_handle: workflow,
                    expected_presentation_revision: as_signed(
                        expected_presentation_revision as nat,
                    ),
                    viewport_json: canonical_text(viewport),
                },
                delta_type: "workflow.viewport_set"@,
                delta_data: viewport_data_json(viewport),
            },
        ),
        _ => match workflow_by_handle(rows.workflows, c.workflow()->0, 0) {
            None => Err(ProblemView::ResourceNotFound),
            Some(w) => match semantic_change(w, nodes, edges, c) {
                Err(p) => Err(p),
                Ok((draft, delta_type, data, expected)) => Ok(
                    WorkflowPlanView {
                        mutation: WorkflowMutationView::ReplaceSemantic {
                            draft,
                            expected_semantic_revision: as_signed(expected as nat),
                        },
                        delta_type,
                        delta_data: data,
                    },
                ),
            },
        },
    }
}

fn copy_draft(w: &WorkflowRecord) -> (r: ProjectWorkflowDraft)
    ensures
        r@ == draft_of(w@),
{
    ProjectWorkflowDraft {
        key: w.key.clone(),
        name: w.name.clone(),
        nodes: copy_nodes(&w.nodes),
        allow_unsafe_parallel: w.allow_unsafe_parallel,
    }
}

/// The view of a change of what a workflow does.
pub open spec fn semantic_view(
    r: Result<(ProjectWorkflowDraft, &'static str, Json, u64), CommandProblem>,
) -> Result<(DraftView, Seq<char>, JsonView, u64), ProblemView> {
    match r {
        Ok((d, t, j, n)) => Ok((d@, t@, j@, n)),
        Err(p) => Err(p@),
    }
}

fn set_node(draft: &mut ProjectWorkflowDraft, k: usize, node: WorkflowNodeDraft)
    requires
        k < old(draft)@.nodes.len(),
    ensures
        final(draft)@ == (DraftView {
            nodes: old(draft)@.nodes.update(k as int, node@),
            ..old(draft)@
        }),
{
    let ghost had = draft.nodes@;
    draft.nodes.set(k, node);
    assert(nodes_view(draft.nodes@) =~= nodes_view(had).update(k as int, node@));
}

fn plan_semantic(
    w: &WorkflowRecord,
    nodes: &Vec<NodeIdentity>,
    edges: &Vec<EdgeIdentity>,
    command: &ProjectWorkflowCommand,
) -> (r: Result<(ProjectWorkflowDraft, &'static str, Json, u64), CommandProblem>)
    ensures
        semantic_view(r) == semantic_change(w@, node_ids(nodes@), edge_ids(edges@), command@),
{
    let mut draft: ProjectWorkflowDraft = copy_draft(w);
    match command {
        ProjectWorkflowCommand::AddNode { node, expected_semantic_revision, .. } => {
            let ghost had = draft.nodes@;
            draft.nodes.push(node.copy());
            assert(nodes_view(draft.nodes@) =~= nodes_view(had).push(node@));
            Ok(
                (
                    draft,
                    "workflow.add_node",
                    node_data_value(&node.to_json()),
                    *expected_semantic_revision,
                ),
            )
        },
        ProjectWorkflowCommand::UpdateNode {
            node_handle,
            title,
            instructions,
            agent_instance_id,
            expected_semantic_revision,
            ..
        } => {
            let i: usize = match find_id_by_handle(nodes, node_handle.as_str()) {
                Some(i) => i,
                None => {
                    return Err(CommandProblem::ResourceNotFound);
                },
            };
            let k: usize = match find_node_at(&draft.nodes, nodes[i].node_key.as_str()) {
                Some(k) => k,
                None => {
                    return Err(CommandProblem::ResourceNotFound);
                },
            };
            let node: WorkflowNodeDraft = WorkflowNodeDraft {
                title: title.clone(),
                instructions: instructions.clone(),
                agent_instance_id: agent_instance_id.clone(),
                ..draft.nodes[k].copy()
            };
            set_node(&mut draft, k, node);
            Ok(
                (
                    draft,
                    "workflow.update_node",
                    update_data_value(
                        node_handle.as_str(),
                        title.as_str(),
                        instructions.as_str(),
                        agent_instance_id.as_str(),
                    ),
                    *expected_semantic_revision,
                ),
            )
        },
        ProjectWorkflowCommand::RemoveNode { node_handle, expected_semantic_revision, .. } => {
            let key: &str = match find_id_by_handle(nodes, node_handle.as_str()) {
                Some(i) => nodes[i].node_key.as_str(),
                None => {
                    return Err(CommandProblem::ResourceNotFound);
                },
            };
            if draft.nodes.len() <= 1 {
                return Err(CommandProblem::invalid("工作流至少保留一个节点"));
            }
            let gone: Vec<String> = list_incident(edges, key);
            draft.nodes = drop_node(&draft.nodes, key);
            Ok(
                (
                    draft,
                    "workflow.remove_node",
                    remove_data_value(node_handle.as_str(), &texts_value(&gone)),
                    *expected_semantic_revision,
                ),
            )
        },
        ProjectWorkflowCommand::Connect {
            upstream_node_handle,
            downstream_node_handle,
            expected_semantic_revision,
            ..
        } => {
            let up: &str = match find_id_by_handle(nodes, upstream_node_handle.as_str()) {
                Some(i) => nodes[i].node_key.as_str(),
                None => {
                    return Err(CommandProblem::ResourceNotFound);
                },
            };
            let down: &str = match find_id_by_handle(nodes, downstream_node_handle.as_str()) {
                Some(j) => nodes[j].node_key.as_str(),
                None => {
                    return Err(CommandProblem::ResourceNotFound);
                },
            };
            let k: usize = match find_node_at(&draft.nodes, down) {
                Some(k) => k,
                None => {
                    return Err(CommandProblem::ResourceNotFound);
                },
            };
            let mut node: WorkflowNodeDraft = draft.nodes[k].copy();
            if !list_has(&node.deps, up) {
                let ghost had = node.deps@;
                node.deps.push(up.to_owned());
                assert(texts(node.deps@) =~= texts(had).push(up@));
            }
            set_node(&mut draft, k, node);
            Ok(
                (
                    draft,
                    "workflow.connect",
                    connect_data_value(
                        upstream_node_handle.as_str(),
                        downstream_node_handle.as_str(),
                    ),
                    *expected_semantic_revision,
                ),
            )
        },
        ProjectWorkflowCommand::Disconnect { edge_handle, expected_semantic_revision, .. } => {
            let e: usize = match find_edge_by_handle(edges, edge_handle.as_str()) {
                Some(e) => e,
                None => {
                    return Err(CommandProblem::ResourceNotFound);
                },
            };
            let k: usize = match find_node_at(
                &draft.nodes,
                edges[e].downstream_node_key.as_str(),
            ) {
                Some(k) => k,
                None => {
                    return Err(CommandProblem::ResourceNotFound);
                },
            };
            let node: WorkflowNodeDraft = drop_dependency(
                &draft.nodes[k],
                edges[e].upstream_node_key.as_str(),
            );
            set_node(&mut draft, k, node);
            Ok(
                (
                    draft,
                    "workflow.disconnect",
                    disconnect_data_value(edge_handle.as_str()),
                    *expected_semantic_revision,
                ),
            )
        },
        ProjectWorkflowCommand::SetUnsafeParallel { allow, expected_semantic_revision, .. } => {
            draft.allow_unsafe_parallel = *allow;
            Ok(
                (
                    draft,
                    "workflow.set_unsafe_parallel",
                    parallel_data_value(*allow),
                    *expected_semantic_revision,
                ),
            )
        },
        _ => Err(CommandProblem::invalid("命令轴错误")),
    }
}

/// What the store is asked for, and what is told of it.
pub fn plan_project_workflow(
    rows: &ProjectRows,
    nodes: &Vec<NodeIdentity>,
    edges: &Vec<EdgeIdentity>,
    command: &ProjectWorkflowCommand,
) -> (r: Result<WorkflowPlan, CommandProblem>)
    ensures
        outcome(r) == workflow_plan(rows@, node_ids(nodes@), edge_ids(edges@), command@),
{
    match command {
        ProjectWorkflowCommand::Create { draft, expected_collection_revision, .. } => Ok(
            WorkflowPlan {
                mutation: WorkflowMutation::Create {
                    draft: draft.copy(),
                    expected_collection_revision: signed_of(*expected_collection_revision),
                },
                delta_type: "workflow.replace",
                delta_data: draft_data_value(&draft.to_json()),
            },
        ),
        ProjectWorkflowCommand::Delete {
            workflow,
            expected_collection_revision,
            expected_semantic_revision,
            expected_presentation_revision,
            ..
        } => Ok(
            WorkflowPlan {
                mutation: WorkflowMutation::Delete {
                    workflow_handle: workflow.as_str().to_owned(),
                    expected_collection_revision: signed_of(*expected_collection_revision),
                    expected_semantic_revision: signed_of(*expected_semantic_revision),
                    expected_presentation_revision: signed_of(*expected_presentation_revision),
                },
                delta_type: "workflow.delete",
                delta_data: Json::Null,
            },
        ),
        ProjectWorkflowCommand::MoveNode {
            workflow,
            node_handle,
            x,
            y,
            expected_presentation_revision,
            ..
        } => Ok(
            WorkflowPlan {
                mutation: WorkflowMutation::SetNodePosition {
                    workflow_handle: workflow.as_str().to_owned(),
                    node_handle: node_handle.clone(),
                    expected_presentation_revision: signed_of(*expected_presentation_revision),
                    x: x.copy(),
                    y: y.copy(),
                },
                delta_type: "workflow.node_position_set",
                delta_data: move_data_value(node_handle.as_str(), x, y),
            },
        ),
        ProjectWorkflowCommand::SetViewport {
            workflow,
            viewport,
            expected_presentation_revision,
            ..
        } => Ok(
            WorkflowPlan {
                mutation: WorkflowMutation::SetViewport {
                    workflow_handle: workflow.as_str().to_owned(),
                    expected_presentation_revision: signed_of(*expected_presentation_revision),
                    viewport_json: canonical_json(viewport),
                },
                delta_type: "workflow.viewport_set",
                delta_data: viewport_data_value(viewport),
            },
        ),
        semantic => {
            let w: &WorkflowRecord = match semantic.workflow() {
                Some(handle) => match find_workflow_by_handle(&rows.workflows, handle.as_str()) {
                    Some(i) => &rows.workflows[i],
                    None => {
                        return Err(CommandProblem::ResourceNotFound);
                    },
                },
                None => {
                    return Err(CommandProblem::ResourceNotFound);
                },
            };
            match plan_semantic(w, nodes, edges, semantic) {
                Err(p) => Err(p),
                Ok((draft, delta_type, delta_data, expected)) => Ok(
                    WorkflowPlan {
                        mutation: WorkflowMutation::ReplaceSemantic {
                            draft,
                            expected_semantic_revision: signed_of(expected),
                        },
                        delta_type,
                        delta_data,
                    },
                ),
            }
        },
    }
}

/// What a store says of a change of workflows.
pub struct WorkflowMutationResult {
    pub before: Option<WorkflowRecord>,
    pub after: Option<WorkflowRecord>,
    pub collection_revision: i64,
    pub no_op: bool,
}

/// What a store says of a change of workflows, as a value.
pub ghost struct MutationResultView {
    pub before: Option<WorkflowView>,
    pub after: Option<WorkflowView>,
    pub collection_revision: i64,
    pub no_op: bool,
}

/// A record that may be there, as a value.
pub open spec fn opt_record(r: Option<WorkflowRecord>) -> Option<WorkflowView> {
    match r {
        Some(w) => Some(w@),
        None => None,
    }
}

impl View for WorkflowMutationResult {
    type V = MutationResultView;

    open spec fn view(&self) -> MutationResultView {
        MutationResultView {
            before: opt_record(self.before),
            after: opt_record(self.after),
            collection_revision: self.collection_revision,
            no_op: self.no_op,
        }
    }
}

/// What is told of a change once its store has made it: handles that are new are named.
pub open spec fn final_data(
    c: ProjectCommandView,
    result: MutationResultView,
    nodes: Seq<NodeIdView>,
    edges: Seq<EdgeIdView>,
    planned: JsonView,
) -> Result<JsonView, ProblemView> {
    match c {
        ProjectCommandView::Create { .. } => match result.after {
            None => Err(ProblemView::Internal("create result 缺失"@)),
            Some(w) => Ok(
                created_data_json(w.json(), node_ids_json(nodes), edge_ids_json(edges)),
            ),
        },
        ProjectCommandView::AddNode { node, .. } => match id_by_key(nodes, node.key, 0) {
            None => Err(ProblemView::ResourceNotFound),
            Some(i) => Ok(new_node_data_json(nodes[i].node_handle, node.json())),
        },
        ProjectCommandView::Connect { upstream_node_handle, downstream_node_handle, .. } => match (
            id_by_handle(nodes, upstream_node_handle, 0),
            id_by_handle(nodes, downstream_node_handle, 0),
        ) {
            (Some(i), Some(j)) => match edge_between(
                edges,
                nodes[i].node_key,
                nodes[j].node_key,
                0,
            ) {
                None => Err(ProblemView::ResourceNotFound),
                Some(e) => Ok(
                    edge_data_json(
                        edges[e].edge_handle,
                        upstream_node_handle,
                        downstream_node_handle,
                    ),
                ),
            },
            _ => Err(ProblemView::ResourceNotFound),
        },
        _ => Ok(planned),
    }
}

fn complete_data(
    command: &ProjectWorkflowCommand,
    result: &WorkflowMutationResult,
    nodes: &Vec<NodeIdentity>,
    edges: &Vec<EdgeIdentity>,
    planned: Json,
) -> (r: Result<Json, CommandProblem>)
    ensures
        outcome(r) == final_data(
            command@,
            result@,
            node_ids(nodes@),
            edge_ids(edges@),
            planned@,
        ),
{
    match command {
        ProjectWorkflowCommand::Create { .. } => match &result.after {
            None => Err(CommandProblem::Internal("create result 缺失".to_owned())),
            Some(w) => Ok(
                created_data_value(&w.to_json(), &node_ids_value(nodes), &edge_ids_value(edges)),
            ),
        },
        ProjectWorkflowCommand::AddNode { node, .. } => match find_id_by_key(
            nodes,
            node.key.as_str(),
        ) {
            None => Err(CommandProblem::ResourceNotFound),
            Some(i) => Ok(
                new_node_data_value(nodes[i].node_handle.as_str(), &node.to_json()),
            ),
        },
        ProjectWorkflowCommand::Connect { upstream_node_handle, downstream_node_handle, .. } => {
            let up: &str = match find_id_by_handle(nodes, upstream_node_handle.as_str()) {
                Some(i) => nodes[i].node_key.as_str(),
                None => {
                    return Err(CommandProblem::ResourceNotFound);
                },
            };
            let down: &str = match find_id_by_handle(nodes, downstream_node_handle.as_str()) {
                Some(j) => nodes[j].node_key.as_str(),
                None => {
                    return Err(CommandProblem::ResourceNotFound);
                },
            };
            match find_edge_between(edges, up, down) {
                None => Err(CommandProblem::ResourceNotFound),
                Some(e) => Ok(
                    edge_data_value(
                        edges[e].edge_handle.as_str(),
                        upstream_node_handle.as_str(),
                        downstream_node_handle.as_str(),
                    ),
                ),
            }
        },
        _ => Ok(planned),
    }
}

/// The two revisions of a record.
pub open spec fn revisions_of(w: WorkflowView) -> (i64, i64) {
    (w.semantic_revision, w.presentation_revision)
}

/// What is told of a change, by how it is told.
pub open spec fn delta_of(
    c: ProjectCommandView,
    delta_type: Seq<char>,
    data: JsonView,
) -> JsonView {
    match c {
        ProjectCommandView::Create { .. } => replace_delta_json(data),
        ProjectCommandView::Delete { .. } => tombstone_json(),
        _ => typed_delta_json(delta_type, data),
    }
}

/// The event of a change of a workflow.
pub open spec fn workflow_event(
    handle: Seq<char>,
    delta_type: Seq<char>,
    base: (i64, i64),
    after: (i64, i64),
    delta: JsonView,
) -> ProjectionChange {
    ProjectionChange {
        aggregate: Some(AggregateView { kind: AggregateKind::ProjectWorkflow, handle }),
        event_type: Some(delta_type),
        projection_critical: true,
        payload: change_json(pair_json(base.0, base.1), pair_json(after.0, after.1), delta),
        run_actions: seq![],
    }
}

/// The event of a change of a project's collection.
pub open spec fn collection_event(
    project: Seq<char>,
    workflow: Seq<char>,
    revision: i64,
) -> ProjectionChange {
    ProjectionChange {
        aggregate: Some(AggregateView { kind: AggregateKind::Project, handle: project }),
        event_type: Some("project.workflow_collection_changed"@),
        projection_critical: true,
        payload: change_json(
            scalar_json((revision - 1) as i64),
            scalar_json(revision),
            typed_delta_json(
                "project.workflow_collection_changed"@,
                handle_data_json(workflow),
            ),
        ),
        run_actions: seq![],
    }
}

/// The result and the events of a change of workflows.
pub open spec fn workflow_output(
    project: Seq<char>,
    c: ProjectCommandView,
    result: MutationResultView,
    delta_type: Seq<char>,
    data: JsonView,
) -> Result<EffectView, ProblemView> {
    let record = if result.after is Some {
        result.after
    } else {
        result.before
    };
    match record {
        None => Err(ProblemView::Internal("mutation 无 revision 记录"@)),
        Some(w) => {
            let revisions = triple_json(
                w.semantic_revision,
                w.presentation_revision,
                result.collection_revision,
            );
            if result.no_op {
                Ok(EffectView { result_revisions: revisions, projections: seq![] })
            } else if is_blank(w.public_handle) || ((c is Create || c is Delete) && is_blank(
                project,
            )) {
                Err(ProblemView::Internal("aggregate handle 不能为空"@))
            } else {
                let base = match result.before {
                    Some(b) => revisions_of(b),
                    None => (0i64, 0i64),
                };
                let after = match result.after {
                    Some(a) => revisions_of(a),
                    None => base,
                };
                let first = workflow_event(
                    w.public_handle,
                    delta_type,
                    base,
                    after,
                    delta_of(c, delta_type, data),
                );
                Ok(
                    EffectView {
                        result_revisions: revisions,
                        projections: if c is Create || c is Delete {
                            seq![
                                first,
                                collection_event(
                                    project,
                                    w.public_handle,
                                    result.collection_revision,
                                ),
                            ]
                        } else {
                            seq![first]
                        },
                    },
                )
            }
        },
    }
}

fn workflow_effect(
    handle: &str,
    delta_type: &str,
    base: (i64, i64),
    after: (i64, i64),
    delta: &Json,
) -> (r: ProjectionEffect)
    ensures
        r@ == workflow_event(handle@, delta_type@, base, after, delta@),
{
    let r: ProjectionEffect = ProjectionEffect {
        aggregate: Some(
            AggregateRef { kind: AggregateKind::ProjectWorkflow, handle: handle.to_owned() },
        ),
        event_type: Some(delta_type.to_owned()),
        projection_critical: true,
        payload: change_value(&pair_value(base.0, base.1), &pair_value(after.0, after.1), delta),
        run_actions: Vec::new(),
    };
    assert(r@.run_actions =~= seq![]);
    r
}

fn collection_effect(project: &str, workflow: &str, revision: i64) -> (r: ProjectionEffect)
    requires
        revision > i64::MIN,
    ensures
        r@ == collection_event(project@, workflow@, revision),
{
    let data: Json = handle_data_value(workflow);
    let delta: Json = typed_delta_value("project.workflow_collection_changed", &data);
    let r: ProjectionEffect = ProjectionEffect {
        aggregate: Some(
            AggregateRef { kind: AggregateKind::Project, handle: project.to_owned() },
        ),
        event_type: Some("project.workflow_collection_changed".to_owned()),
        projection_critical: true,
        payload: change_value(&scalar_value(revision - 1), &scalar_value(revision), &delta),
        run_actions: Vec::new(),
    };
    assert(r@.run_actions =~= seq![]);
    r
}

/// The result and the events of a change of workflows, from what its store says.
pub fn workflow_mutation_output(
    project: &str,
    command: &ProjectWorkflowCommand,
    result: &WorkflowMutationResult,
    delta_type: &str,
    delta_data: &Json,
) -> (r: Result<EffectOutput, CommandProblem>)
    requires
        result.collection_revision > i64::MIN,
    ensures
        outcome(r) == workflow_output(
            project@,
            command@,
            result@,
            delta_type@,
            delta_data@,
        ),
{
    let record: &WorkflowRecord = match (&result.after, &result.before) {
        (Some(w), _) => w,
        (None, Some(w)) => w,
        (None, None) => {
            return Err(CommandProblem::Internal("mutation 无 revision 记录".to_owned()));
        },
    };
    let result_revisions: Json = triple_value(
        record.semantic_revision,
        record.presentation_revision,
        result.collection_revision,
    );
    let mut projections: Vec<ProjectionEffect> = Vec::new();
    assert(changes(projections@) =~= seq![]);
    if result.no_op {
        return Ok(EffectOutput { result_revisions, projections });
    }
    let counted: bool = match command {
        ProjectWorkflowCommand::Create { .. } | ProjectWorkflowCommand::Delete { .. } => true,
        _ => false,
    };
    if blank(record.public_handle.as_str()) || (counted && blank(project)) {
        return Err(CommandProblem::Internal("aggregate handle 不能为空".to_owned()));
    }
    let base: (i64, i64) = match &result.before {
        Some(b) => (b.semantic_revision, b.presentation_revision),
        None => (0, 0),
    };
    let after: (i64, i64) = match &result.after {
        Some(a) => (a.semantic_revision, a.presentation_revision),
        None => base,
    };
    let delta: Json = match command {
        ProjectWorkflowCommand::Create { .. } => replace_delta_value(delta_data),
        ProjectWorkflowCommand::Delete { .. } => tombstone_value(),
        _ => typed_delta_value(delta_type, delta_data),
    };
    assert(delta@ == delta_of(command@, delta_type@, delta_data@));
    let first: ProjectionEffect = workflow_effect(
        record.public_handle.as_str(),
        delta_type,
        base,
        after,
        &delta,
    );
    projections.push(first);
    assert(changes(projections@) =~= seq![first@]);
    if counted {
        let second: ProjectionEffect = collection_effect(
            project,
            record.public_handle.as_str(),
            result.collection_revision,
        );
        projections.push(second);
        assert(changes(projections@) =~= seq![first@, second@]);
    }
    Ok(EffectOutput { result_revisions, projections })
}

/// The result and the events of a change of workflows, once its store has made it.
pub open spec fn workflow_effect_view(
    project: Seq<char>,
    c: ProjectCommandView,
    plan: WorkflowPlanView,
    result: MutationResultView,
    nodes: Seq<NodeIdView>,
    edges: Seq<EdgeIdView>,
) -> Result<EffectView, ProblemView> {
    match final_data(c, result, nodes, edges, plan.delta_data) {
        Err(p) => Err(p),
        Ok(data) => workflow_output(project, c, result, plan.delta_type, data),
    }
}

/// The result and the events of a change of workflows, once its store has made it:
/// `nodes` and `edges` are the handles after it.
pub fn finish_project_workflow(
    project: &str,
    command: &ProjectWorkflowCommand,
    plan: WorkflowPlan,
    result: &WorkflowMutationResult,
    nodes: &Vec<NodeIdentity>,
    edges: &Vec<EdgeIdentity>,
) -> (r: Result<EffectOutput, CommandProblem>)
    requires
        result.collection_revision > i64::MIN,
    ensures
        outcome(r) == workflow_effect_view(
            project@,
            command@,
            plan@,
            result@,
            node_ids(nodes@),
            edge_ids(edges@),
        ),
{
    let delta_type: &'static str = plan.delta_type;
    match complete_data(command, result, nodes, edges, plan.delta_data) {
        Err(p) => Err(p),
        Ok(data) => workflow_mutation_output(project, command, result, delta_type, &data),
    }
}

/// What is wrong with a workflow.
#[derive(Debug, Clone, Copy, PartialEq, Eq, Structural)]
pub enum WorkflowFault {
    Cycle,
    UnknownDependency,
    Other,
}

/// Why a store refused a change.
#[derive(Debug)]
pub enum StoreRefusal {
    RevisionConflict,
    InvalidWorkflow { faults: Vec<WorkflowFault>, message: String },
    ScopeMismatch,
    InvalidChange(String),
    Other(String),
}

/// Why a store refused a change, as a value.
pub ghost enum RefusalView {
    RevisionConflict,
    InvalidWorkflow { faults: Seq<WorkflowFault>, message: Seq<char> },
    ScopeMismatch,
    InvalidChange(Seq<char>),
    Other(Seq<char>),
}

impl View for StoreRefusal {
    type V = RefusalView;

    open spec fn view(&self) -> RefusalView {
        match *self {
            StoreRefusal::RevisionConflict => RefusalView::RevisionConflict,
            StoreRefusal::InvalidWorkflow { faults, message } => RefusalView::InvalidWorkflow {
                faults: faults@,
                message: message@,
            },
            StoreRefusal::ScopeMismatch => RefusalView::ScopeMismatch,
            StoreRefusal::InvalidChange(m) => RefusalView::InvalidChange(m@),
            StoreRefusal::Other(m) => RefusalView::Other(m@),
        }
    }
}

/// A refusal of a change of workflows, as its caller sees it. A cycle counts before an
/// unknown dependency, and that before anything else.
pub open spec fn workflow_refusal(e: RefusalView) -> ProblemView {
    match e {
        RefusalView::RevisionConflict => ProblemView::RevisionConflict,
        RefusalView::InvalidWorkflow { faults, message } => if faults.contains(
            WorkflowFault::Cycle,
        ) {
            ProblemView::WorkflowCycle(message)
        } else if faults.contains(WorkflowFault::UnknownDependency) {
            ProblemView::UnknownDependency(message)
        } else {
            ProblemView::ValidationFailed(message)
        },
        RefusalView::ScopeMismatch => ProblemView::ResourceNotFound,
        RefusalView::InvalidChange(m) => ProblemView::ValidationFailed(m),
        RefusalView::Other(m) => ProblemView::Internal(m),
    }
}

fn has_fault(faults: &Vec<WorkflowFault>, fault: WorkflowFault) -> (r: bool)
    ensures
        r == faults@.contains(fault),
{
    let mut i: usize = 0;
    while i < faults.len()
        invariant
            i <= faults@.len(),
            forall|k: int| 0 <= k < i ==> #[trigger] faults@[k] != fault,
        decreases faults@.len() - i,
    {
        if faults[i] == fault {
            return true;
        }
        i = i + 1;
    }
    false
}

/// A refusal of a change of workflows, as its caller sees it.
pub fn workflow_domain_problem(error: StoreRefusal) -> (r: CommandProblem)
    ensures
        r@ == workflow_refusal(error@),
{
    match error {
        StoreRefusal::RevisionConflict => CommandProblem::RevisionConflict,
        StoreRefusal::InvalidWorkflow { faults, message } => {
            if has_fault(&faults, WorkflowFault::Cycle) {
                CommandProblem::WorkflowCycle(message)
            } else if has_fault(&faults, WorkflowFault::UnknownDependency) {
                CommandProblem::UnknownDependency(message)
            } else {
                CommandProblem::ValidationFailed(message)
            }
        },
        StoreRefusal::ScopeMismatch => CommandProblem::ResourceNotFound,
        StoreRefusal::InvalidChange(m) => CommandProblem::ValidationFailed(m),
        StoreRefusal::Other(m) => CommandProblem::Internal(m),
    }
}

/// A refusal of a change of a run, as its caller sees it: a revision that moved on, or
/// a change that is not valid, with the message that comes with it.
pub fn run_domain_problem(revision_conflict: bool, message: String) -> (r: CommandProblem)
    ensures
        r@ == (if revision_conflict {
            ProblemView::RevisionConflict
        } else {
            ProblemView::ValidationFailed(message@)
        }),
{
    if revision_conflict {
        CommandProblem::RevisionConflict
    } else {
        CommandProblem::ValidationFailed(message)
    }
}

/// The result and the events of a rename: one step of the presentation revision, and
/// nothing where the name is the same.
pub open spec fn rename_view(rows: RowsView, handle: Seq<char>, name: Seq<char>) -> Result<
    (EffectView, Option<WorkflowView>),
    ProblemView,
> {
    match workflow_by_handle(rows.workflows, handle, 0) {
        None => Err(ProblemView::ResourceNotFound),
        Some(w) => if w.semantic_revision < 0 || w.presentation_revision < 0 {
            Err(ProblemView::Internal("revision 溢出"@))
        } else if w.name == name {
            Ok(
                (
                    EffectView {
                        result_revisions: pair_json(w.semantic_revision, w.presentation_revision),
                        projections: seq![],
                    },
                    None,
                ),
            )
        } else {
            let next = (w.presentation_revision + 1) as i64;
            Ok(
                (
                    EffectView {
                        result_revisions: pair_json(w.semantic_revision, next),
                        projections: seq![
                            ProjectionChange {
                                aggregate: None,
                                event_type: None,
                                projection_critical: true,
                                payload: change_json(
                                    pair_json(w.semantic_revision, w.presentation_revision),
                                    pair_json(w.semantic_revision, next),
                                    typed_delta_json("workflow.rename"@, name_data_json(name)),
                                ),
                                run_actions: seq![],
                            },
                        ],
                    },
                    Some(WorkflowView { name, presentation_revision: next, ..w }),
                ),
            )
        },
    }
}

/// The view of what comes of a rename.
pub open spec fn renamed_view(
    r: Result<(EffectOutput, Option<WorkflowRecord>), CommandProblem>,
) -> Result<(EffectView, Option<WorkflowView>), ProblemView> {
    match r {
        Ok((e, w)) => Ok((e@, opt_record(w))),
        Err(p) => Err(p@),
    }
}

/// What comes of a rename: its result and events, and the record to store where
/// something changed.
pub fn workflow_rename_effect(rows: &ProjectRows, workflow_handle: &str, new_name: &str) -> (r:
    Result<(EffectOutput, Option<WorkflowRecord>), CommandProblem>)
    requires
        workflow_by_handle(rows@.workflows, workflow_handle@, 0) matches Some(w)
            ==> w.presentation_revision < i64::MAX,
    ensures
        renamed_view(r) == rename_view(rows@, workflow_handle@, new_name@),
{
    let w: &WorkflowRecord = match find_workflow_by_handle(&rows.workflows, workflow_handle) {
        Some(i) => &rows.workflows[i],
        None => {
            return Err(CommandProblem::ResourceNotFound);
        },
    };
    if w.semantic_revision < 0 || w.presentation_revision < 0 {
        return Err(CommandProblem::Internal("revision 溢出".to_owned()));
    }
    let mut projections: Vec<ProjectionEffect> = Vec::new();
    assert(changes(projections@) =~= seq![]);
    if same(w.name.as_str(), new_name) {
        return Ok(
            (
                EffectOutput {
                    result_revisions: pair_value(w.semantic_revision, w.presentation_revision),
                    projections,
                },
                None,
            ),
        );
    }
    let next: i64 = w.presentation_revision + 1;
    let data: Json = name_data_value(new_name);
    let delta: Json = typed_delta_value("workflow.rename", &data);
    let effect: ProjectionEffect = ProjectionEffect::primary(
        change_value(
            &pair_value(w.semantic_revision, w.presentation_revision),
            &pair_value(w.semantic_revision, next),
            &delta,
        ),
    );
    projections.push(effect);
    assert(effect@.run_actions =~= seq![]);
    assert(changes(projections@) =~= seq![effect@]);
    let mut stored: WorkflowRecord = w.copy();
    stored.name = new_name.to_owned();
    stored.presentation_revision = next;
    Ok(
        (
            EffectOutput { result_revisions: pair_value(w.semantic_revision, next), projections },
            Some(stored),
        ),
    )
}

/// The two revisions of a command's result.
pub open spec fn result_vector(v: JsonView) -> Result<RevisionVector, KernelProblemView> {
    match (
        as_u64_view(field_of(v, "semantic_revision"@)),
        as_u64_view(field_of(v, "presentation_revision"@)),
    ) {
        (None, _) => Err(
            KernelProblemView::Internal("result_revisions 缺少 semantic_revision"@),
        ),
        (Some(_), None) => Err(
            KernelProblemView::Internal("result_revisions 缺少 presentation_revision"@),
        ),
        (Some(s), Some(p)) => Ok(
            RevisionVector { semantic_revision: s as u64, presentation_revision: p as u64 },
        ),
    }
}

/// The two revisions of a command's result.
pub fn revision_vector_of(value: &Json) -> (r: Result<RevisionVector, KernelProblem>)
    ensures
        match r {
            Ok(v) => result_vector(value@) == Ok::<RevisionVector, KernelProblemView>(v),
            Err(p) => result_vector(value@) == Err::<RevisionVector, KernelProblemView>(p@),
        },
{
    let semantic_revision: u64 = match value.get_u64("semantic_revision") {
        Some(n) => n,
        None => {
            return Err(KernelProblem::internal("result_revisions 缺少 semantic_revision"));
        },
    };
    let presentation_revision: u64 = match value.get_u64("presentation_revision") {
        Some(n) => n,
        None => {
            return Err(
                KernelProblem::internal("result_revisions 缺少 presentation_revision"),
            );
        },
    };
    Ok(RevisionVector { semantic_revision, presentation_revision })
}

/// A node that was removed leaves nothing behind: no node has its key, and none depends
/// on it.
pub proof fn law_a_removed_node_leaves_nothing(v: Seq<NodeView>, key: Seq<char>, n: nat, i: int)
    requires
        n <= v.len(),
        0 <= i < without_node(v, key, n).len(),
    ensures
        without_node(v, key, n)[i].key != key,
        !without_node(v, key, n)[i].deps.contains(key),
    decreases n,
{
    let rest = without_node(v, key, (n - 1) as nat);
    if i < rest.len() {
        law_a_removed_node_leaves_nothing(v, key, (n - 1) as nat, i);
        assert(without_node(v, key, n)[i] == rest[i]);
    } else {
        lemma_without_text(v[n - 1].deps, key, v[n - 1].deps.len());
    }
}

proof fn lemma_without_text(v: Seq<Seq<char>>, key: Seq<char>, n: nat)
    requires
        n <= v.len(),
    ensures
        !without_text(v, key, n).contains(key),
    decreases n,
{
    if n > 0 {
        lemma_without_text(v, key, (n - 1) as nat);
        let rest = without_text(v, key, (n - 1) as nat);
        let all = without_text(v, key, n);
        if all.contains(key) {
            let k = choose|k: int| 0 <= k < all.len() && all[k] == key;
            if k < rest.len() {
                assert(rest[k] == key);
            }
        }
    }
}

/// A rename moves the presentation revision by one and nothing else: what a workflow
/// does, and how often that changed, stay as they are.
pub proof fn law_a_rename_moves_one_axis(rows: RowsView, handle: Seq<char>, name: Seq<char>)
    ensures
        rename_view(rows, handle, name) matches Ok((_, Some(after))) ==> {
            let before = workflow_by_handle(rows.workflows, handle, 0)->0;
            &&& before.presentation_revision < i64::MAX ==> after.presentation_revision
                == before.presentation_revision + 1
            &&& after.semantic_revision == before.semantic_revision
            &&& after.nodes == before.nodes
            &&& after.name == name
        },
        rename_view(rows, handle, name) matches Ok((effect, None)) ==> effect.projections.len()
            == 0,
{
}

/// Where a node is drawn.
#[derive(Debug)]
pub struct NodePosition {
    pub node_handle: String,
    pub x: Json,
    pub y: Json,
}

/// Where a node is drawn, as a value.
pub ghost struct PositionView {
    pub node_handle: Seq<char>,
    pub x: JsonView,
    pub y: JsonView,
}

impl View for NodePosition {
    type V = PositionView;

    open spec fn view(&self) -> PositionView {
        PositionView { node_handle: self.node_handle@, x: self.x@, y: self.y@ }
    }
}

/// Positions as values.
pub open spec fn positions_view(v: Seq<NodePosition>) -> Seq<PositionView> {
    v.map_values(|p: NodePosition| p@)
}

/// What clients see of a node.
#[derive(Debug)]
pub struct WorkflowSnapshotNode {
    pub handle: String,
    pub key: String,
    pub title: String,
    pub instructions: String,
    pub agent_instance_id: String,
    pub deps: Vec<String>,
    pub position: Option<(Json, Json)>,
}

/// What clients see of a node, as a value.
pub ghost struct SnapshotNodeView {
    pub handle: Seq<char>,
    pub node: NodeView,
    pub position: Option<(JsonView, JsonView)>,
}

impl View for WorkflowSnapshotNode {
    type V = SnapshotNodeView;

    open spec fn view(&self) -> SnapshotNodeView {
        SnapshotNodeView {
            handle: self.handle@,
            node: NodeView {
                key: self.key@,
                title: self.title@,
                instructions: self.instructions@,
                agent_instance_id: self.agent_instance_id@,
                deps: texts(self.deps@),
            },
            position: match self.position {
                Some((x, y)) => Some((x@, y@)),
                None => None,
            },
        }
    }
}

/// What clients see of nodes, as values.
pub open spec fn snapshot_nodes(v: Seq<WorkflowSnapshotNode>) -> Seq<SnapshotNodeView> {
    v.map_values(|n: WorkflowSnapshotNode| n@)
}

/// What clients see of an edge.
#[derive(Debug)]
pub struct WorkflowSnapshotEdge {
    pub handle: String,
    pub upstream_node_handle: String,
    pub downstream_node_handle: String,
}

/// What clients see of an edge, as a value.
pub ghost struct SnapshotEdgeView {
    pub handle: Seq<char>,
    pub upstream_node_handle: Seq<char>,
    pub downstream_node_handle: Seq<char>,
}

impl View for WorkflowSnapshotEdge {
    type V = SnapshotEdgeView;

    open spec fn view(&self) -> SnapshotEdgeView {
        SnapshotEdgeView {
            handle: self.handle@,
            upstream_node_handle: self.upstream_node_handle@,
            downstream_node_handle: self.downstream_node_handle@,
        }
    }
}

/// What clients see of edges, as values.
pub open spec fn snapshot_edges(v: Seq<WorkflowSnapshotEdge>) -> Seq<SnapshotEdgeView> {
    v.map_values(|e: WorkflowSnapshotEdge| e@)
}

/// What clients see of a workflow.
#[derive(Debug)]
pub struct WorkflowSnapshotData {
    pub workflow: WorkflowHandle,
    pub name: String,
    pub allow_unsafe_parallel: bool,
    pub revisions: RevisionVector,
    pub nodes: Vec<WorkflowSnapshotNode>,
    pub edges: Vec<WorkflowSnapshotEdge>,
    pub workflow_collection_revision: u64,
    pub viewport: Option<Json>,
    pub collapse: Option<Json>,
    pub layout: Option<Json>,
}

/// What clients see of a workflow, as a value.
pub ghost struct SnapshotView {
    pub workflow: Seq<char>,
    pub name: Seq<char>,
    pub allow_unsafe_parallel: bool,
    pub revisions: RevisionVector,
    pub nodes: Seq<SnapshotNodeView>,
    pub edges: Seq<SnapshotEdgeView>,
    pub workflow_collection_revision: u64,
    pub viewport: Option<JsonView>,
    pub collapse: Option<JsonView>,
    pub layout: Option<JsonView>,
}

/// A value that may be there.
pub open spec fn opt_json(v: Option<Json>) -> Option<JsonView> {
    match v {
        Some(j) => Some(j@),
        None => None,
    }
}

impl View for WorkflowSnapshotData {
    type V = SnapshotView;

    open spec fn view(&self) -> SnapshotView {
        SnapshotView {
            workflow: self.workflow@,
            name: self.name@,
            allow_unsafe_parallel: self.allow_unsafe_parallel,
            revisions: self.revisions,
            nodes: snapshot_nodes(self.nodes@),
            edges: snapshot_edges(self.edges@),
            workflow_collection_revision: self.workflow_collection_revision,
            viewport: opt_json(self.viewport),
            collapse: opt_json(self.collapse),
            layout: opt_json(self.layout),
        }
    }
}

/// The position of a node among the first `n`; the last one counts.
pub open spec fn position_of(v: Seq<PositionView>, handle: Seq<char>, n: nat) -> Option<
    (JsonView, JsonView),
>
    decreases n,
{
    if n == 0 {
        None
    } else if v[n - 1].node_handle == handle {
        Some((v[n - 1].x, v[n - 1].y))
    } else {
        position_of(v, handle, (n - 1) as nat)
    }
}

/// The handle of a node by its key, among the first `n`; the last one counts.
pub open spec fn handle_of_key(v: Seq<NodeIdView>, key: Seq<char>, n: nat) -> Option<Seq<char>>
    decreases n,
{
    if n == 0 {
        None
    } else if v[n - 1].node_key == key {
        Some(v[n - 1].node_handle)
    } else {
        handle_of_key(v, key, (n - 1) as nat)
    }
}

/// What clients see of the first `n` nodes that have a handle.
pub open spec fn seen_nodes(
    w: WorkflowView,
    ids: Seq<NodeIdView>,
    positions: Seq<PositionView>,
    n: nat,
) -> Seq<SnapshotNodeView>
    decreases n,
{
    if n == 0 {
        seq![]
    } else {
        let rest = seen_nodes(w, ids, positions, (n - 1) as nat);
        match node_at(w.nodes, ids[n - 1].node_key, 0) {
            None => rest,
            Some(k) => rest.push(
                SnapshotNodeView {
                    handle: ids[n - 1].node_handle,
                    node: w.nodes[k],
                    position: position_of(positions, ids[n - 1].node_handle, positions.len()),
                },
            ),
        }
    }
}

/// What clients see of the first `n` edges whose nodes have a handle.
pub open spec fn seen_edges(ids: Seq<NodeIdView>, edges: Seq<EdgeIdView>, n: nat) -> Seq<
    SnapshotEdgeView,
>
    decreases n,
{
    if n == 0 {
        seq![]
    } else {
        let rest = seen_edges(ids, edges, (n - 1) as nat);
        match (
            handle_of_key(ids, edges[n - 1].upstream_node_key, ids.len()),
            handle_of_key(ids, edges[n - 1].downstream_node_key, ids.len()),
        ) {
            (Some(up), Some(down)) => rest.push(
                SnapshotEdgeView {
                    handle: edges[n - 1].edge_handle,
                    upstream_node_handle: up,
                    downstream_node_handle: down,
                },
            ),
            _ => rest,
        }
    }
}

fn find_position(v: &Vec<NodePosition>, handle: &str) -> (r: Option<(Json, Json)>)
    ensures
        (match r {
            Some((x, y)) => Some((x@, y@)),
            None => None,
        }) == position_of(positions_view(v@), handle@, v@.len()),
{
    let ghost all = positions_view(v@);
    let mut n: usize = v.len();
    while n > 0
        invariant
            n <= v@.len(),
            all == positions_view(v@),
            position_of(all, handle@, v@.len()) == position_of(all, handle@, n as nat),
        decreases n,
    {
        assert(all[n - 1] == v@[n - 1]@);
        if same(v[n - 1].node_handle.as_str(), handle) {
            return Some((v[n - 1].x.copy(), v[n - 1].y.copy()));
        }
        n = n - 1;
    }
    None
}

fn find_handle_of_key(v: &Vec<NodeIdentity>, key: &str) -> (r: Option<String>)
    ensures
        crate::text::opt_view(r) == handle_of_key(node_ids(v@), key@, v@.len()),
{
    let ghost all = node_ids(v@);
    let mut n: usize = v.len();
    while n > 0
        invariant
            n <= v@.len(),
            all == node_ids(v@),
            handle_of_key(all, key@, v@.len()) == handle_of_key(all, key@, n as nat),
        decreases n,
    {
        assert(all[n - 1] == v@[n - 1]@);
        if same(v[n - 1].node_key.as_str(), key) {
            return Some(v[n - 1].node_handle.clone());
        }
        n = n - 1;
    }
    None
}

fn list_seen_nodes(
    w: &WorkflowRecord,
    ids: &Vec<NodeIdentity>,
    positions: &Vec<NodePosition>,
) -> (r: Vec<WorkflowSnapshotNode>)
    ensures
        snapshot_nodes(r@) == seen_nodes(
            w@,
            node_ids(ids@),
            positions_view(positions@),
            ids@.len(),
        ),
{
    let ghost all = node_ids(ids@);
    let ghost places = positions_view(positions@);
    let mut out: Vec<WorkflowSnapshotNode> = Vec::new();
    let mut i: usize = 0;
    assert(snapshot_nodes(out@) =~= seq![]);
    while i < ids.len()
        invariant
            i <= ids@.len(),
            all == node_ids(ids@),
            places == positions_view(positions@),
            snapshot_nodes(out@) == seen_nodes(w@, all, places, i as nat),
        decreases ids@.len() - i,
    {
        let ghost had = out@;
        assert(all[i as int] == ids@[i as int]@);
        if let Some(k) = find_node_at(&w.nodes, ids[i].node_key.as_str()) {
            let node: WorkflowSnapshotNode = WorkflowSnapshotNode {
                handle: ids[i].node_handle.clone(),
                key: w.nodes[k].key.clone(),
                title: w.nodes[k].title.clone(),
                instructions: w.nodes[k].instructions.clone(),
                agent_instance_id: w.nodes[k].agent_instance_id.clone(),
                deps: copy_list(&w.nodes[k].deps),
                position: find_position(positions, ids[i].node_handle.as_str()),
            };
            out.push(node);
            assert(snapshot_nodes(out@) =~= snapshot_nodes(had).push(node@));
        }
        i = i + 1;
    }
    out
}

fn list_seen_edges(ids: &Vec<NodeIdentity>, edges: &Vec<EdgeIdentity>) -> (r: Vec<
    WorkflowSnapshotEdge,
>)
    ensures
        snapshot_edges(r@) == seen_edges(node_ids(ids@), edge_ids(edges@), edges@.len()),
{
    let ghost all = node_ids(ids@);
    let ghost links = edge_ids(edges@);
    let mut out: Vec<WorkflowSnapshotEdge> = Vec::new();
    let mut i: usize = 0;
    assert(snapshot_edges(out@) =~= seq![]);
    while i < edges.len()
        invariant
            i <= edges@.len(),
            all == node_ids(ids@),
            links == edge_ids(edges@),
            snapshot_edges(out@) == seen_edges(all, links, i as nat),
        decreases edges@.len() - i,
    {
        let ghost had = out@;
        assert(links[i as int] == edges@[i as int]@);
        match (
            find_handle_of_key(ids, edges[i].upstream_node_key.as_str()),
            find_handle_of_key(ids, edges[i].downstream_node_key.as_str()),
        ) {
            (Some(up), Some(down)) => {
                let edge: WorkflowSnapshotEdge = WorkflowSnapshotEdge {
                    handle: edges[i].edge_handle.clone(),
                    upstream_node_handle: up,
                    downstream_node_handle: down,
                };
                out.push(edge);
                assert(snapshot_edges(out@) =~= snapshot_edges(had).push(edge@));
            },
            _ => {},
        }
        i = i + 1;
    }
    out
}

/// How a workflow is drawn: what was stored of it, where it could be read.
#[derive(Debug)]
pub struct WorkflowPresentation {
    pub viewport: Option<Json>,
    pub collapse: Option<Json>,
    pub layout: Option<Json>,
}

/// What clients see of a workflow, or why they cannot.
pub open spec fn workflow_snapshot_view(
    record: Option<WorkflowView>,
    ids: Seq<NodeIdView>,
    edges: Seq<EdgeIdView>,
    positions: Seq<PositionView>,
    collection: i64,
    drawn: (Option<JsonView>, Option<JsonView>, Option<JsonView>),
) -> Result<SnapshotView, KernelProblemView> {
    match record {
        None => Err(KernelProblemView::ResourceNotFound),
        Some(w) => if w.semantic_revision < 0 {
            Err(KernelProblemView::Internal("semantic_revision 溢出"@))
        } else if w.presentation_revision < 0 {
            Err(KernelProblemView::Internal("presentation_revision 溢出"@))
        } else {
            match crate::handles::v7_as_given(w.public_handle) {
                Err(m) => Err(KernelProblemView::Internal(m)),
                Ok(_) => if collection < 0 {
                    Err(KernelProblemView::Internal("collection revision 溢出"@))
                } else {
                    Ok(
                        SnapshotView {
                            workflow: w.public_handle,
                            name: w.name,
                            allow_unsafe_parallel: w.allow_unsafe_parallel,
                            revisions: RevisionVector {
                                semantic_revision: w.semantic_revision as u64,
                                presentation_revision: w.presentation_revision as u64,
                            },
                            nodes: seen_nodes(w, ids, positions, ids.len()),
                            edges: seen_edges(ids, edges, edges.len()),
                            workflow_collection_revision: collection as u64,
                            viewport: drawn.0,
                            collapse: drawn.1,
                            layout: drawn.2,
                        },
                    )
                },
            }
        },
    }
}

/// What clients see of a workflow, from what its store holds.
pub fn workflow_snapshot(
    record: Option<&WorkflowRecord>,
    ids: &Vec<NodeIdentity>,
    edges: &Vec<EdgeIdentity>,
    positions: &Vec<NodePosition>,
    collection: i64,
    drawn: WorkflowPresentation,
) -> (r: Result<WorkflowSnapshotData, KernelProblem>)
    ensures
        outcome(r) == workflow_snapshot_view(
            match record {
                Some(w) => Some(w@),
                None => None,
            },
            node_ids(ids@),
            edge_ids(edges@),
            positions_view(positions@),
            collection,
            (opt_json(drawn.viewport), opt_json(drawn.collapse), opt_json(drawn.layout)),
        ),
{
    let w: &WorkflowRecord = match record {
        Some(w) => w,
        None => {
            return Err(KernelProblem::ResourceNotFound);
        },
    };
    if w.semantic_revision < 0 {
        return Err(KernelProblem::internal("semantic_revision 溢出"));
    }
    if w.presentation_revision < 0 {
        return Err(KernelProblem::internal("presentation_revision 溢出"));
    }
    let workflow: WorkflowHandle = match WorkflowHandle::parse(w.public_handle.as_str()) {
        Ok(h) => h,
        Err(p) => {
            return Err(KernelProblem::internal(p.message()));
        },
    };
    if collection < 0 {
        return Err(KernelProblem::internal("collection revision 溢出"));
    }
    Ok(
        WorkflowSnapshotData {
            workflow,
            name: w.name.clone(),
            allow_unsafe_parallel: w.allow_unsafe_parallel,
            revisions: RevisionVector {
                semantic_revision: w.semantic_revision as u64,
                presentation_revision: w.presentation_revision as u64,
            },
            nodes: list_seen_nodes(w, ids, positions),
            edges: list_seen_edges(ids, edges),
            workflow_collection_revision: collection as u64,
            viewport: drawn.viewport,
            collapse: drawn.collapse,
            layout: drawn.layout,
        },
    )
}

/// What a rename wrote is what clients are shown: the new name, and the revisions that the
/// command was answered with.
pub proof fn law_a_rename_is_seen(
    rows: RowsView,
    handle: Seq<char>,
    name: Seq<char>,
    ids: Seq<NodeIdView>,
    edges: Seq<EdgeIdView>,
    positions: Seq<PositionView>,
    collection: i64,
    drawn: (Option<JsonView>, Option<JsonView>, Option<JsonView>),
)
    requires
        rename_view(rows, handle, name) is Ok,
        rename_view(rows, handle, name)->Ok_0.1 is Some,
        workflow_by_handle(rows.workflows, handle, 0)->0.presentation_revision < i64::MAX,
        workflow_snapshot_view(
            rename_view(rows, handle, name)->Ok_0.1,
            ids,
            edges,
            positions,
            collection,
            drawn,
        ) is Ok,
    ensures
        ({
            let shown = workflow_snapshot_view(
                rename_view(rows, handle, name)->Ok_0.1,
                ids,
                edges,
                positions,
                collection,
                drawn,
            )->Ok_0;
            &&& shown.name == name
            &&& result_vector(rename_view(rows, handle, name)->Ok_0.0.result_revisions) == Ok::<
                RevisionVector,
                KernelProblemView,
            >(shown.revisions)
        }),
{
    reveal_strlit("semantic_revision");
    reveal_strlit("presentation_revision");
    assert("semantic_revision"@.len() == 17);
    assert("presentation_revision"@.len() == 21);
    let f = (rename_view(rows, handle, name)->Ok_0.0.result_revisions)->Object_0;
    reveal_with_fuel(crate::json::field_in, 3);
    assert(f.skip(1)[0] == f[1]);
}

} // verus!
