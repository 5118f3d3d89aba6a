//! Projections: revisions, cursors and events, and the rules by which a stored
//! change becomes an event that every client can follow.

use crate::handles::{AggregateKind, AggregateRef, AggregateView, StreamEpoch};
use crate::json::{
    as_text_view, as_u64_view, field_of, fields, object, put, to_text, txt, Json, JsonView,
    json_text, opt_text_view,
};
use crate::command::{aggregate_json, aggregate_value};
use crate::text::{
    blank, cat, cat3, copy_opt, decimal, decimal_text, ends, has_suffix, is_blank, opt_view, same,
};
use vstd::prelude::*;
use vstd::string::*;

verus! {

pub const EVENT_SCHEMA: &'static str = "mf.event.v1";

pub const SNAPSHOT_SCHEMA: &'static str = "mf.snapshot.v1";

/// The two revisions of a workflow: of what it does, and of how it looks.
#[derive(Debug, Clone, Copy, PartialEq, Eq, Structural)]
pub struct RevisionVector {
    pub semantic_revision: u64,
    pub presentation_revision: u64,
}

/// The one revision of any other aggregate.
#[derive(Debug, Clone, Copy, PartialEq, Eq, Structural)]
pub struct ScalarRevision {
    pub revision: u64,
}

/// The revision of an aggregate.
#[derive(Debug, Clone, Copy, PartialEq, Eq, Structural)]
pub enum AggregateRevision {
    Workflow(RevisionVector),
    Scalar(ScalarRevision),
}

/// A place in the event stream: behind the event `through_seq` of an epoch.
#[derive(Debug, PartialEq, Eq)]
pub struct EventCursor {
    pub stream_epoch: StreamEpoch,
    pub through_seq: u64,
}

/// A place in the event stream, as a value.
pub ghost struct CursorView {
    pub stream_epoch: Seq<char>,
    pub through_seq: u64,
}

impl View for EventCursor {
    type V = CursorView;

    open spec fn view(&self) -> CursorView {
        CursorView { stream_epoch: self.stream_epoch@, through_seq: self.through_seq }
    }
}

/// An event as clients get it.
#[derive(Debug)]
pub struct EventEnvelope {
    pub stream_epoch: StreamEpoch,
    pub seq: u64,
    pub occurred_at: String,
    pub aggregate: AggregateRef,
    pub base_revision: AggregateRevision,
    pub aggregate_revision: AggregateRevision,
    pub caused_by_command_id: Option<String>,
    pub event_type: String,
    pub projection_critical: bool,
    pub projection: Json,
}

/// An event as clients get it, as a value.
pub ghost struct EventView {
    pub stream_epoch: Seq<char>,
    pub seq: u64,
    pub occurred_at: Seq<char>,
    pub aggregate: AggregateView,
    pub base_revision: AggregateRevision,
    pub aggregate_revision: AggregateRevision,
    pub caused_by_command_id: Option<Seq<char>>,
    pub event_type: Seq<char>,
    pub projection_critical: bool,
    pub projection: JsonView,
}

impl View for EventEnvelope {
    type V = EventView;

    open spec fn view(&self) -> EventView {
        EventView {
            stream_epoch: self.stream_epoch@,
            seq: self.seq,
            occurred_at: self.occurred_at@,
            aggregate: self.aggregate@,
            base_revision: self.base_revision,
            aggregate_revision: self.aggregate_revision,
            caused_by_command_id: opt_view(self.caused_by_command_id),
            event_type: self.event_type@,
            projection_critical: self.projection_critical,
            projection: self.projection@,
        }
    }
}

impl Clone for EventEnvelope {
    fn clone(&self) -> (r: Self)
        ensures
            r@ == self@,
    {
        EventEnvelope {
            stream_epoch: self.stream_epoch.clone(),
            seq: self.seq,
            occurred_at: self.occurred_at.clone(),
            aggregate: self.aggregate.clone(),
            base_revision: self.base_revision,
            aggregate_revision: self.aggregate_revision,
            caused_by_command_id: copy_opt(&self.caused_by_command_id),
            event_type: self.event_type.clone(),
            projection_critical: self.projection_critical,
            projection: self.projection.copy(),
        }
    }
}

/// The JSON form of a revision: numbers as text.
pub open spec fn revision_json(r: AggregateRevision) -> JsonView {
    match r {
        AggregateRevision::Workflow(v) => JsonView::Object(
            seq![
                ("semantic_revision"@, JsonView::Text(decimal_text(v.semantic_revision as nat))),
                (
                    "presentation_revision"@,
                    JsonView::Text(decimal_text(v.presentation_revision as nat)),
                ),
            ],
        ),
        AggregateRevision::Scalar(v) => JsonView::Object(
            seq![("revision"@, JsonView::Text(decimal_text(v.revision as nat)))],
        ),
    }
}

/// The JSON form of a revision: numbers as text.
pub fn revision_value(r: AggregateRevision) -> (j: Json)
    ensures
        j@ == revision_json(r),
{
    let mut f: Vec<(String, Json)> = fields();
    match r {
        AggregateRevision::Workflow(v) => {
            put(&mut f, "semantic_revision", Json::Text(decimal(v.semantic_revision)));
            put(&mut f, "presentation_revision", Json::Text(decimal(v.presentation_revision)));
        },
        AggregateRevision::Scalar(v) => {
            put(&mut f, "revision", Json::Text(decimal(v.revision)));
        },
    }
    let out: Json = object(f);
    assert(out@->Object_0 =~= revision_json(r)->Object_0);
    out
}

impl EventView {
    /// The JSON form of an event on the wire.
    pub open spec fn wire(self) -> JsonView {
        JsonView::Object(
            seq![
                ("schema"@, JsonView::Text(EVENT_SCHEMA@)),
                ("stream_epoch"@, JsonView::Text(self.stream_epoch)),
                ("seq"@, JsonView::Text(decimal_text(self.seq as nat))),
                ("occurred_at"@, JsonView::Text(self.occurred_at)),
                ("aggregate"@, aggregate_json(self.aggregate)),
                ("base_revision"@, revision_json(self.base_revision)),
                ("aggregate_revision"@, revision_json(self.aggregate_revision)),
                ("caused_by_command_id"@, opt_text_view(self.caused_by_command_id)),
                ("type"@, JsonView::Text(self.event_type)),
                ("projection_critical"@, JsonView::Bool(self.projection_critical)),
                ("projection"@, self.projection),
            ],
        )
    }

    /// How many bytes an event takes on the wire.
    pub open spec fn size(self) -> usize {
        vstd::utf8::encode_utf8(json_text(self.wire())).len() as usize
    }
}

impl EventEnvelope {
    /// The JSON form of an event on the wire.
    pub fn to_wire(&self) -> (r: Json)
        ensures
            r@ == self@.wire(),
    {
        let mut f: Vec<(String, Json)> = fields();
        put(&mut f, "schema", txt(EVENT_SCHEMA));
        put(&mut f, "stream_epoch", txt(self.stream_epoch.as_str()));
        put(&mut f, "seq", Json::Text(decimal(self.seq)));
        put(&mut f, "occurred_at", txt(self.occurred_at.as_str()));
        put(&mut f, "aggregate", aggregate_value(&self.aggregate));
        put(&mut f, "base_revision", revision_value(self.base_revision));
        put(&mut f, "aggregate_revision", revision_value(self.aggregate_revision));
        put(
            &mut f,
            "caused_by_command_id",
            match &self.caused_by_command_id {
                Some(id) => txt(id.as_str()),
                None => Json::Null,
            },
        );
        put(&mut f, "type", txt(self.event_type.as_str()));
        put(&mut f, "projection_critical", Json::Bool(self.projection_critical));
        put(&mut f, "projection", self.projection.copy());
        let out: Json = object(f);
        assert(out@->Object_0 =~= self@.wire()->Object_0);
        out
    }

    /// How many bytes an event takes on the wire.
    pub fn encoded_bytes(&self) -> (r: usize)
        ensures
            r == self@.size(),
    {
        to_text(&self.to_wire()).as_str().len()
    }
}

/// The name of an event: that of the stored change without `.applied`.
pub open spec fn event_name(stored: Seq<char>) -> Seq<char> {
    if ends(".applied"@, stored) {
        stored.take(stored.len() - ".applied"@.len())
    } else {
        stored
    }
}

fn name_of_event(stored: &str) -> (r: String)
    ensures
        r@ == event_name(stored@),
{
    if has_suffix(stored, ".applied") {
        let to: usize = stored.unicode_len() - ".applied".unicode_len();
        let out: String = stored.substring_char(0, to).to_owned();
        assert(out@ =~= stored@.take(stored@.len() - ".applied"@.len()));
        out
    } else {
        stored.to_owned()
    }
}

/// The revision that a stored change gives under a field.
pub open spec fn revision_in(
    projection: JsonView,
    field: Seq<char>,
    kind: AggregateKind,
) -> Result<AggregateRevision, Seq<char>> {
    match field_of(projection, field) {
        None => Err("outbox projection 缺少 "@ + field),
        Some(value) => if kind is ProjectWorkflow {
            match (
                as_u64_view(field_of(value, "semantic_revision"@)),
                as_u64_view(field_of(value, "presentation_revision"@)),
            ) {
                (None, _) => Err(field + ".semantic_revision 缺失或非 u64"@),
                (Some(_), None) => Err(field + ".presentation_revision 缺失或非 u64"@),
                (Some(s), Some(p)) => Ok(
                    AggregateRevision::Workflow(
                        RevisionVector {
                            semantic_revision: s as u64,
                            presentation_revision: p as u64,
                        },
                    ),
                ),
            }
        } else {
            match as_u64_view(field_of(value, "revision"@)) {
                None => Err(field + ".revision 缺失或非 u64"@),
                Some(n) => Ok(
                    AggregateRevision::Scalar(ScalarRevision { revision: n as u64 }),
                ),
            }
        },
    }
}

/// The view of a result whose complaint is a text.
pub open spec fn told<T>(r: Result<T, String>) -> Result<T, Seq<char>> {
    match r {
        Ok(t) => Ok(t),
        Err(m) => Err(m@),
    }
}

/// The revision that a stored change gives under a field.
pub fn revision_at(projection: &Json, field: &str, aggregate_kind: AggregateKind) -> (r: Result<
    AggregateRevision,
    String,
>)
    ensures
        told(r) == revision_in(projection@, field@, aggregate_kind),
{
    let value: &Json = match projection.get(field) {
        Some(value) => value,
        None => {
            return Err(cat("outbox projection 缺少 ", field));
        },
    };
    if aggregate_kind == AggregateKind::ProjectWorkflow {
        let semantic_revision: u64 = match value.get_u64("semantic_revision") {
            Some(n) => n,
            None => {
                return Err(cat(field, ".semantic_revision 缺失或非 u64"));
            },
        };
        let presentation_revision: u64 = match value.get_u64("presentation_revision") {
            Some(n) => n,
            None => {
                return Err(cat(field, ".presentation_revision 缺失或非 u64"));
            },
        };
        Ok(AggregateRevision::Workflow(RevisionVector { semantic_revision, presentation_revision }))
    } else {
        match value.get_u64("revision") {
            Some(revision) => Ok(AggregateRevision::Scalar(ScalarRevision { revision })),
            None => Err(cat(field, ".revision 缺失或非 u64")),
        }
    }
}

/// Whether a change goes back behind what it starts from.
pub open spec fn regression(base: AggregateRevision, after: AggregateRevision) -> Result<
    (),
    Seq<char>,
> {
    match (base, after) {
        (AggregateRevision::Workflow(b), AggregateRevision::Workflow(a)) => if a.semantic_revision
            >= b.semantic_revision && a.presentation_revision >= b.presentation_revision {
            Ok(())
        } else {
            Err("aggregate revision 倒退"@)
        },
        (AggregateRevision::Scalar(b), AggregateRevision::Scalar(a)) => if a.revision >= b.revision {
            Ok(())
        } else {
            Err("aggregate revision 倒退"@)
        },
        _ => Err("aggregate revision 形状不一致"@),
    }
}

/// Checks that a change does not go back behind what it starts from.
pub fn ensure_not_regressed(base: AggregateRevision, aggregate: AggregateRevision) -> (r: Result<
    (),
    String,
>)
    ensures
        told(r) == regression(base, aggregate),
{
    match (base, aggregate) {
        (AggregateRevision::Workflow(b), AggregateRevision::Workflow(a)) => {
            if a.semantic_revision >= b.semantic_revision && a.presentation_revision
                >= b.presentation_revision {
                Ok(())
            } else {
                Err("aggregate revision 倒退".to_owned())
            }
        },
        (AggregateRevision::Scalar(b), AggregateRevision::Scalar(a)) => {
            if a.revision >= b.revision {
                Ok(())
            } else {
                Err("aggregate revision 倒退".to_owned())
            }
        },
        _ => Err("aggregate revision 形状不一致".to_owned()),
    }
}

/// Whether a change is one step of one revision.
pub open spec fn single_step(base: AggregateRevision, after: AggregateRevision) -> bool {
    match (base, after) {
        (AggregateRevision::Workflow(b), AggregateRevision::Workflow(a)) => {
            ||| a.semantic_revision == b.semantic_revision + 1 && a.presentation_revision
                == b.presentation_revision
            ||| a.semantic_revision == b.semantic_revision && a.presentation_revision
                == b.presentation_revision + 1
        },
        (AggregateRevision::Scalar(b), AggregateRevision::Scalar(a)) => a.revision == b.revision
            + 1 || (b.revision == u64::MAX && a.revision == u64::MAX),
        _ => false,
    }
}

/// Whether a change that does not go back is one step of one revision.
pub fn is_single_step(base: AggregateRevision, aggregate: AggregateRevision) -> (r: bool)
    requires
        regression(base, aggregate) is Ok,
    ensures
        r == single_step(base, aggregate),
{
    match (base, aggregate) {
        (AggregateRevision::Workflow(b), AggregateRevision::Workflow(a)) => {
            let semantic_step: u64 = a.semantic_revision - b.semantic_revision;
            let presentation_step: u64 = a.presentation_revision - b.presentation_revision;
            (semantic_step == 1 && presentation_step == 0) || (semantic_step == 0
                && presentation_step == 1)
        },
        (AggregateRevision::Scalar(b), AggregateRevision::Scalar(a)) => {
            if b.revision == u64::MAX {
                a.revision == u64::MAX
            } else {
                a.revision == b.revision + 1
            }
        },
        _ => false,
    }
}

/// The closed list of changes that clients can follow step by step.
pub open spec fn known_delta(t: Seq<char>) -> bool {
    ||| t == "workflow.rename"@
    ||| t == "workflow.add_node"@
    ||| t == "workflow.update_node"@
    ||| t == "workflow.remove_node"@
    ||| t == "workflow.connect"@
    ||| t == "workflow.disconnect"@
    ||| t == "workflow.node_position_set"@
    ||| t == "workflow.viewport_set"@
    ||| t == "workflow.set_unsafe_parallel"@
    ||| t == "project.workflow_collection_changed"@
}

/// Whether clients can follow a change step by step.
pub fn is_known_delta(t: &str) -> (r: bool)
    ensures
        r == known_delta(t@),
{
    same(t, "workflow.rename") || same(t, "workflow.add_node") || same(t, "workflow.update_node")
        || same(t, "workflow.remove_node") || same(t, "workflow.connect")
        || same(t, "workflow.disconnect") || same(t, "workflow.node_position_set")
        || same(t, "workflow.viewport_set") || same(t, "workflow.set_unsafe_parallel")
        || same(t, "project.workflow_collection_changed")
}

/// The name that the data of a rename holds: an object of the one field `name`, or
/// a list of the one name.
pub open spec fn rename_name(data: JsonView) -> Option<Seq<char>> {
    match data {
        JsonView::Object(f) => if f.len() == 1 && f[0].0 == "name"@ {
            as_text_view(Some(f[0].1))
        } else {
            None
        },
        JsonView::Array(v) => if v.len() == 1 {
            as_text_view(Some(v[0]))
        } else {
            None
        },
        _ => None,
    }
}

fn name_of_rename(data: &Json) -> (r: Option<String>)
    ensures
        opt_view(r) == rename_name(data@),
{
    match data {
        Json::Object(f) => {
            proof {
                crate::json::lemma_object_view(*f);
            }
            if f.len() == 1 {
                assert(crate::json::fields_view(f@)[0] == (f@[0].0@, f@[0].1@));
                if same(f[0].0.as_str(), "name") {
                    return match f[0].1.as_str() {
                        Some(s) => Some(s.to_owned()),
                        None => None,
                    };
                }
            }
            None
        },
        Json::Array(v) => {
            proof {
                crate::json::lemma_array_view(*v);
            }
            if v.len() == 1 {
                assert(crate::json::items_view(v@)[0] == v@[0]@);
                match v[0].as_str() {
                    Some(s) => Some(s.to_owned()),
                    None => None,
                }
            } else {
                None
            }
        },
        _ => None,
    }
}

/// Why a step-by-step change cannot be followed, if it cannot.
pub open spec fn typed_delta_result(
    event_type: Seq<char>,
    delta: JsonView,
    base: AggregateRevision,
    after: AggregateRevision,
    critical: bool,
) -> Result<(), Seq<char>> {
    match as_text_view(field_of(delta, "delta_type"@)) {
        None => Err("typed_delta 缺少 delta_type"@),
        Some(t) => if t != event_type {
            Err("typed_delta 类型 "@ + t + " 与事件 "@ + event_type + " 不一致"@)
        } else if !known_delta(t) {
            Err(
                "未知 "@ + (if critical {
                    "critical"@
                } else {
                    "non-critical"@
                }) + (" typed delta:"@ + t),
            )
        } else {
            match field_of(delta, "data"@) {
                None => Err("typed_delta 缺少 data"@),
                Some(data) => if t == "workflow.rename"@ {
                    match rename_name(data) {
                        None => Err("workflow.rename data 非法"@),
                        Some(name) => if is_blank(name) {
                            Err("workflow.rename name 不能为空"@)
                        } else if single_step(base, after) {
                            Ok(())
                        } else {
                            Err("typed_delta revision 不连续"@)
                        },
                    }
                } else if !(data is Object) {
                    Err(t + " data 必须是 object"@)
                } else if single_step(base, after) {
                    Ok(())
                } else {
                    Err("typed_delta revision 不连续"@)
                },
            }
        },
    }
}

/// Why a change cannot be published, if it cannot: only what a client can follow
/// for sure is. A step-by-step change is of the closed list and moves one revision
/// by one; a replacement brings data and moves a revision; nothing goes back.
pub open spec fn projection_result(
    event_type: Seq<char>,
    delta: JsonView,
    base: AggregateRevision,
    after: AggregateRevision,
    critical: bool,
) -> Result<(), Seq<char>> {
    match as_text_view(field_of(delta, "mode"@)) {
        None => Err("projection.delta 缺少 mode"@),
        Some(mode) => if regression(base, after) is Err {
            regression(base, after)
        } else if mode == "typed_delta"@ {
            typed_delta_result(event_type, delta, base, after, critical)
        } else if mode == "replace"@ {
            if field_of(delta, "data"@) is None {
                Err("replace 缺少 data"@)
            } else if after == base {
                Err("replace 未推进 revision"@)
            } else {
                Ok(())
            }
        } else if mode == "tombstone"@ {
            Ok(())
        } else {
            Err("未知 projection mode:"@ + mode)
        },
    }
}

fn validate_typed_delta(
    event_type: &str,
    delta: &Json,
    base: AggregateRevision,
    aggregate: AggregateRevision,
    projection_critical: bool,
) -> (r: Result<(), String>)
    requires
        regression(base, aggregate) is Ok,
    ensures
        told(r) == typed_delta_result(event_type@, delta@, base, aggregate, projection_critical),
{
    let delta_type: &str = match delta.get_str("delta_type") {
        Some(t) => t,
        None => {
            return Err("typed_delta 缺少 delta_type".to_owned());
        },
    };
    if !same(delta_type, event_type) {
        let mut m: String = cat3("typed_delta 类型 ", delta_type, " 与事件 ");
        m.append(event_type);
        m.append(" 不一致");
        return Err(m);
    }
    if !is_known_delta(delta_type) {
        return Err(
            cat3(
                "未知 ",
                if projection_critical {
                    "critical"
                } else {
                    "non-critical"
                },
                cat(" typed delta:", delta_type).as_str(),
            ),
        );
    }
    let data: &Json = match delta.get("data") {
        Some(data) => data,
        None => {
            return Err("typed_delta 缺少 data".to_owned());
        },
    };
    if same(delta_type, "workflow.rename") {
        match name_of_rename(data) {
            None => {
                return Err("workflow.rename data 非法".to_owned());
            },
            Some(name) => {
                if blank(name.as_str()) {
                    return Err("workflow.rename name 不能为空".to_owned());
                }
            },
        }
    } else {
        match data {
            Json::Object(_) => {},
            _ => {
                return Err(cat(delta_type, " data 必须是 object"));
            },
        }
    }
    if !is_single_step(base, aggregate) {
        return Err("typed_delta revision 不连续".to_owned());
    }
    Ok(())
}

/// Checks that a change can be published.
pub fn validate_projection(
    event_type: &str,
    delta: &Json,
    base: AggregateRevision,
    aggregate: AggregateRevision,
    projection_critical: bool,
) -> (r: Result<(), String>)
    ensures
        told(r) == projection_result(event_type@, delta@, base, aggregate, projection_critical),
{
    let mode: &str = match delta.get_str("mode") {
        Some(mode) => mode,
        None => {
            return Err("projection.delta 缺少 mode".to_owned());
        },
    };
    match ensure_not_regressed(base, aggregate) {
        Ok(_) => {},
        Err(m) => {
            return Err(m);
        },
    }
    if same(mode, "typed_delta") {
        validate_typed_delta(event_type, delta, base, aggregate, projection_critical)
    } else if same(mode, "replace") {
        if delta.get("data").is_none() {
            return Err("replace 缺少 data".to_owned());
        }
        if aggregate == base {
            return Err("replace 未推进 revision".to_owned());
        }
        Ok(())
    } else if same(mode, "tombstone") {
        Ok(())
    } else {
        Err(cat("未知 projection mode:", mode))
    }
}

/// The aggregate that a stored change is of.
pub open spec fn changed_aggregate(value: JsonView) -> Result<AggregateView, Seq<char>> {
    let inner = field_of(value, "aggregate"@);
    let kind = match inner {
        Some(a) => as_text_view(field_of(a, "kind"@)),
        None => None,
    };
    let handle = match inner {
        Some(a) => as_text_view(field_of(a, "handle"@)),
        None => None,
    };
    match (kind, handle) {
        (None, _) => Err("outbox 事件缺少 aggregate.kind"@),
        (Some(_), None) => Err("outbox 事件缺少 aggregate.handle"@),
        (Some(k), Some(h)) => match AggregateKind::named(k) {
            None => Err("未知 aggregate.kind:"@ + k),
            Some(kind) => if is_blank(h) {
                Err("aggregate handle 不能为空"@)
            } else {
                Ok(AggregateView { kind, handle: h })
            },
        },
    }
}

fn aggregate_of_change(value: &Json) -> (r: Result<AggregateRef, String>)
    ensures
        match r {
            Ok(a) => changed_aggregate(value@) == Ok::<AggregateView, Seq<char>>(a@),
            Err(m) => changed_aggregate(value@) == Err::<AggregateView, Seq<char>>(m@),
        },
{
    let kind: &str = match value.get("aggregate") {
        Some(a) => match a.get_str("kind") {
            Some(k) => k,
            None => {
                return Err("outbox 事件缺少 aggregate.kind".to_owned());
            },
        },
        None => {
            return Err("outbox 事件缺少 aggregate.kind".to_owned());
        },
    };
    let handle: &str = match value.get("aggregate") {
        Some(a) => match a.get_str("handle") {
            Some(h) => h,
            None => {
                return Err("outbox 事件缺少 aggregate.handle".to_owned());
            },
        },
        None => {
            return Err("outbox 事件缺少 aggregate.handle".to_owned());
        },
    };
    match AggregateKind::from_name(kind) {
        None => Err(cat("未知 aggregate.kind:", kind)),
        Some(k) => match AggregateRef::new(k, handle) {
            Ok(a) => Ok(a),
            Err(p) => Err(p.message().to_owned()),
        },
    }
}

/// Whether a stored change is critical: it is unless it says that it is not.
pub open spec fn is_critical(value: JsonView) -> bool {
    match field_of(value, "projection_critical"@) {
        Some(JsonView::Bool(b)) => b,
        _ => true,
    }
}

/// The event that a stored change is published as, or why it cannot be.
pub open spec fn compiled_event(
    epoch: Seq<char>,
    seq: u64,
    occurred_at: Seq<char>,
    value: JsonView,
) -> Result<EventView, Seq<char>> {
    match as_text_view(field_of(value, "type"@)) {
        None => Err("outbox 事件缺少 type"@),
        Some(stored) => match changed_aggregate(value) {
            Err(m) => Err(m),
            Ok(aggregate) => match field_of(value, "projection"@) {
                None => Err("outbox 事件缺少 projection"@),
                Some(projection) => match (
                    revision_in(projection, "base_revision"@, aggregate.kind),
                    revision_in(projection, "aggregate_revision"@, aggregate.kind),
                ) {
                    (Err(m), _) => Err(m),
                    (Ok(_), Err(m)) => Err(m),
                    (Ok(base), Ok(after)) => match field_of(projection, "delta"@) {
                        None => Err("outbox 事件缺少 projection.delta"@),
                        Some(delta) => match projection_result(
                            event_name(stored),
                            delta,
                            base,
                            after,
                            is_critical(value),
                        ) {
                            Err(m) => Err(m),
                            Ok(_) => Ok(
                                EventView {
                                    stream_epoch: epoch,
                                    seq,
                                    occurred_at,
                                    aggregate,
                                    base_revision: base,
                                    aggregate_revision: after,
                                    caused_by_command_id: as_text_view(
                                        field_of(value, "caused_by_command_id"@),
                                    ),
                                    event_type: event_name(stored),
                                    projection_critical: is_critical(value),
                                    projection: delta,
                                },
                            ),
                        },
                    },
                },
            },
        },
    }
}

/// The event that a stored change is published as, or why it cannot be.
pub fn compile_event(stream_epoch: &StreamEpoch, seq: u64, occurred_at: &str, value: &Json) -> (r:
    Result<EventEnvelope, String>)
    ensures
        match r {
            Ok(e) => compiled_event(stream_epoch@, seq, occurred_at@, value@) == Ok::<
                EventView,
                Seq<char>,
            >(e@),
            Err(m) => compiled_event(stream_epoch@, seq, occurred_at@, value@) == Err::<
                EventView,
                Seq<char>,
            >(m@),
        },
{
    let event_type: String = match value.get_str("type") {
        Some(stored) => name_of_event(stored),
        None => {
            return Err("outbox 事件缺少 type".to_owned());
        },
    };
    let aggregate: AggregateRef = match aggregate_of_change(value) {
        Ok(a) => a,
        Err(m) => {
            return Err(m);
        },
    };
    let caused_by_command_id: Option<String> = match value.get_str("caused_by_command_id") {
        Some(id) => Some(id.to_owned()),
        None => None,
    };
    let projection: &Json = match value.get("projection") {
        Some(p) => p,
        None => {
            return Err("outbox 事件缺少 projection".to_owned());
        },
    };
    let base_revision: AggregateRevision = match revision_at(
        projection,
        "base_revision",
        aggregate.kind,
    ) {
        Ok(v) => v,
        Err(m) => {
            return Err(m);
        },
    };
    let aggregate_revision: AggregateRevision = match revision_at(
        projection,
        "aggregate_revision",
        aggregate.kind,
    ) {
        Ok(v) => v,
        Err(m) => {
            return Err(m);
        },
    };
    let delta: &Json = match projection.get("delta") {
        Some(d) => d,
        None => {
            return Err("outbox 事件缺少 projection.delta".to_owned());
        },
    };
    let projection_critical: bool = match value.get("projection_critical") {
        Some(Json::Bool(b)) => *b,
        _ => true,
    };
    match validate_projection(
        event_type.as_str(),
        delta,
        base_revision,
        aggregate_revision,
        projection_critical,
    ) {
        Ok(_) => {},
        Err(m) => {
            return Err(m);
        },
    }
    Ok(
        EventEnvelope {
            stream_epoch: stream_epoch.clone(),
            seq,
            occurred_at: occurred_at.to_owned(),
            aggregate,
            base_revision,
            aggregate_revision,
            caused_by_command_id,
            event_type,
            projection_critical,
            projection: delta.copy(),
        },
    )
}

/// No event that is published goes back behind the revision it starts from.
pub proof fn law_events_never_go_back(
    epoch: Seq<char>,
    seq: u64,
    occurred_at: Seq<char>,
    value: JsonView,
    event: EventView,
)
    requires
        compiled_event(epoch, seq, occurred_at, value) == Ok::<EventView, Seq<char>>(event),
    ensures
        regression(event.base_revision, event.aggregate_revision) is Ok,
        event.stream_epoch == epoch,
        event.seq == seq,
{
}

} // verus!
