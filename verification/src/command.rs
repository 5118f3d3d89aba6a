//! The command chain on one target: canonical digest, service intent, target
//! receipt and outbox, and recovery from a crash in between.

use crate::digest::{
    digest_text, hmac_sha256_of, hmac_text, decode_hex, hex_bytes, hex_text, text_digest,
};
use crate::handles::{
    expectations, outcome, AggregateRef, AggregateView, ClientId, CommandId, CommandTarget,
    ExpectedRevision, ExpectedView, Principal, TargetStoreKind, TargetView, axes,
};
use crate::json::{
    array, canonical_json, canonical_text, fields, fields_view, has_sensitive, items, items_view,
    object, push_item, put, txt, value_has_sensitive_field, Json, JsonView,
};
use crate::lease::{CommandAuthorizer, LeaseCheck, LeaseView};
use crate::secret::{SecretBytes, SecretText};
use crate::table::Row;
use crate::text::{before, begins, cat, decimal, decimal_text, has_prefix, less, same};
use vstd::prelude::*;
use vstd::string::*;

verus! {

/// The schema name that every command digest covers.
pub const COMMAND_SCHEMA: &'static str = "mf.command.v1";

/// The closed family of commands.
#[derive(Debug, Clone, Copy, PartialEq, Eq, Structural)]
pub enum CommandType {
    WorkflowCreate,
    WorkflowRename,
    WorkflowDelete,
    WorkflowAddNode,
    WorkflowUpdateNode,
    WorkflowRemoveNode,
    WorkflowMoveNode,
    WorkflowConnect,
    WorkflowDisconnect,
    WorkflowSetViewport,
    WorkflowSetUnsafeParallel,
    WorkflowRun,
    WorkflowRunCancel,
    WorkflowRetryStep,
    WorkflowSkipStep,
    WorkflowRespond,
    WorkflowSettle,
    PreviewSessionStart,
    PreviewSessionStop,
    AdHocSessionStart,
    AdHocSessionStop,
    CatalogRefresh,
    ProviderModelProbe,
    ProviderProfileUpsert,
    AgentInstanceUpsert,
    InstallationPreview,
    InstallationExecute,
    InstallationCancel,
    RootEnable,
    RootDisable,
    ControllerTakeover,
}

impl CommandType {
    /// The name of a command on the wire.
    pub open spec fn name(self) -> Seq<char> {
        match self {
            CommandType::WorkflowCreate => "workflow.create"@,
            CommandType::WorkflowRename => "workflow.rename"@,
            CommandType::WorkflowDelete => "workflow.delete"@,
            CommandType::WorkflowAddNode => "workflow.add_node"@,
            CommandType::WorkflowUpdateNode => "workflow.update_node"@,
            CommandType::WorkflowRemoveNode => "workflow.remove_node"@,
            CommandType::WorkflowMoveNode => "workflow.move_node"@,
            CommandType::WorkflowConnect => "workflow.connect"@,
            CommandType::WorkflowDisconnect => "workflow.disconnect"@,
            CommandType::WorkflowSetViewport => "workflow.set_viewport"@,
            CommandType::WorkflowSetUnsafeParallel => "workflow.set_unsafe_parallel"@,
            CommandType::WorkflowRun => "workflow.run"@,
            CommandType::WorkflowRunCancel => "workflow.run_cancel"@,
            CommandType::WorkflowRetryStep => "workflow.retry_step"@,
            CommandType::WorkflowSkipStep => "workflow.skip_step"@,
            CommandType::WorkflowRespond => "workflow.respond"@,
            CommandType::WorkflowSettle => "workflow.settle"@,
            CommandType::PreviewSessionStart => "preview_session.start"@,
            CommandType::PreviewSessionStop => "preview_session.stop"@,
            CommandType::AdHocSessionStart => "ad_hoc_session.start"@,
            CommandType::AdHocSessionStop => "ad_hoc_session.stop"@,
            CommandType::CatalogRefresh => "catalog.refresh"@,
            CommandType::ProviderModelProbe => "provider.model_probe"@,
            CommandType::ProviderProfileUpsert => "provider_profile.upsert"@,
            CommandType::AgentInstanceUpsert => "agent_instance.upsert"@,
            CommandType::InstallationPreview => "installation.preview"@,
            CommandType::InstallationExecute => "installation.execute"@,
            CommandType::InstallationCancel => "installation.cancel"@,
            CommandType::RootEnable => "root.enable"@,
            CommandType::RootDisable => "root.disable"@,
            CommandType::ControllerTakeover => "controller.takeover"@,
        }
    }

    /// The name of a command on the wire.
    pub fn as_str(self) -> (r: &'static str)
        ensures
            r@ == self.name(),
    {
        match self {
            CommandType::WorkflowCreate => "workflow.create",
            CommandType::WorkflowRename => "workflow.rename",
            CommandType::WorkflowDelete => "workflow.delete",
            CommandType::WorkflowAddNode => "workflow.add_node",
            CommandType::WorkflowUpdateNode => "workflow.update_node",
            CommandType::WorkflowRemoveNode => "workflow.remove_node",
            CommandType::WorkflowMoveNode => "workflow.move_node",
            CommandType::WorkflowConnect => "workflow.connect",
            CommandType::WorkflowDisconnect => "workflow.disconnect",
            CommandType::WorkflowSetViewport => "workflow.set_viewport",
            CommandType::WorkflowSetUnsafeParallel => "workflow.set_unsafe_parallel",
            CommandType::WorkflowRun => "workflow.run",
            CommandType::WorkflowRunCancel => "workflow.run_cancel",
            CommandType::WorkflowRetryStep => "workflow.retry_step",
            CommandType::WorkflowSkipStep => "workflow.skip_step",
            CommandType::WorkflowRespond => "workflow.respond",
            CommandType::WorkflowSettle => "workflow.settle",
            CommandType::PreviewSessionStart => "preview_session.start",
            CommandType::PreviewSessionStop => "preview_session.stop",
            CommandType::AdHocSessionStart => "ad_hoc_session.start",
            CommandType::AdHocSessionStop => "ad_hoc_session.stop",
            CommandType::CatalogRefresh => "catalog.refresh",
            CommandType::ProviderModelProbe => "provider.model_probe",
            CommandType::ProviderProfileUpsert => "provider_profile.upsert",
            CommandType::AgentInstanceUpsert => "agent_instance.upsert",
            CommandType::InstallationPreview => "installation.preview",
            CommandType::InstallationExecute => "installation.execute",
            CommandType::InstallationCancel => "installation.cancel",
            CommandType::RootEnable => "root.enable",
            CommandType::RootDisable => "root.disable",
            CommandType::ControllerTakeover => "controller.takeover",
        }
    }
}

/// Why a command was refused.
#[derive(Debug, PartialEq, Eq)]
pub enum CommandProblem {
    InvalidEnvelope(String),
    CommandIdReused,
    CommandInProgress,
    ControllerLeaseExpired,
    RootEpochExpired,
    RevisionConflict,
    ValidationFailed(String),
    WorkflowCycle(String),
    UnknownDependency(String),
    ResourceNotFound,
    TargetStoreMismatch,
    PreviousCommandFailed,
    PreviousCommandCancelled,
    FaultInjected(&'static str),
    Internal(String),
}

/// Why a command was refused, as a value.
pub ghost enum ProblemView {
    InvalidEnvelope(Seq<char>),
    CommandIdReused,
    CommandInProgress,
    ControllerLeaseExpired,
    RootEpochExpired,
    RevisionConflict,
    ValidationFailed(Seq<char>),
    WorkflowCycle(Seq<char>),
    UnknownDependency(Seq<char>),
    ResourceNotFound,
    TargetStoreMismatch,
    PreviousCommandFailed,
    PreviousCommandCancelled,
    FaultInjected(Seq<char>),
    Internal(Seq<char>),
}

impl View for CommandProblem {
    type V = ProblemView;

    open spec fn view(&self) -> ProblemView {
        match *self {
            CommandProblem::InvalidEnvelope(m) => ProblemView::InvalidEnvelope(m@),
            CommandProblem::CommandIdReused => ProblemView::CommandIdReused,
            CommandProblem::CommandInProgress => ProblemView::CommandInProgress,
            CommandProblem::ControllerLeaseExpired => ProblemView::ControllerLeaseExpired,
            CommandProblem::RootEpochExpired => ProblemView::RootEpochExpired,
            CommandProblem::RevisionConflict => ProblemView::RevisionConflict,
            CommandProblem::ValidationFailed(m) => ProblemView::ValidationFailed(m@),
            CommandProblem::WorkflowCycle(m) => ProblemView::WorkflowCycle(m@),
            CommandProblem::UnknownDependency(m) => ProblemView::UnknownDependency(m@),
            CommandProblem::ResourceNotFound => ProblemView::ResourceNotFound,
            CommandProblem::TargetStoreMismatch => ProblemView::TargetStoreMismatch,
            CommandProblem::PreviousCommandFailed => ProblemView::PreviousCommandFailed,
            CommandProblem::PreviousCommandCancelled => ProblemView::PreviousCommandCancelled,
            CommandProblem::FaultInjected(m) => ProblemView::FaultInjected(m@),
            CommandProblem::Internal(m) => ProblemView::Internal(m@),
        }
    }
}

impl Clone for CommandProblem {
    fn clone(&self) -> (r: Self)
        ensures
            r@ == self@,
    {
        match self {
            CommandProblem::InvalidEnvelope(m) => CommandProblem::InvalidEnvelope(m.clone()),
            CommandProblem::CommandIdReused => CommandProblem::CommandIdReused,
            CommandProblem::CommandInProgress => CommandProblem::CommandInProgress,
            CommandProblem::ControllerLeaseExpired => CommandProblem::ControllerLeaseExpired,
            CommandProblem::RootEpochExpired => CommandProblem::RootEpochExpired,
            CommandProblem::RevisionConflict => CommandProblem::RevisionConflict,
            CommandProblem::ValidationFailed(m) => CommandProblem::ValidationFailed(m.clone()),
            CommandProblem::WorkflowCycle(m) => CommandProblem::WorkflowCycle(m.clone()),
            CommandProblem::UnknownDependency(m) => CommandProblem::UnknownDependency(m.clone()),
            CommandProblem::ResourceNotFound => CommandProblem::ResourceNotFound,
            CommandProblem::TargetStoreMismatch => CommandProblem::TargetStoreMismatch,
            CommandProblem::PreviousCommandFailed => CommandProblem::PreviousCommandFailed,
            CommandProblem::PreviousCommandCancelled => CommandProblem::PreviousCommandCancelled,
            CommandProblem::FaultInjected(m) => CommandProblem::FaultInjected(*m),
            CommandProblem::Internal(m) => CommandProblem::Internal(m.clone()),
        }
    }
}

impl ProblemView {
    /// The stable code of a refusal.
    pub open spec fn code(self) -> Seq<char> {
        match self {
            ProblemView::InvalidEnvelope(_) => "invalid_envelope"@,
            ProblemView::CommandIdReused => "command_id_reused"@,
            ProblemView::CommandInProgress => "command_in_progress"@,
            ProblemView::ControllerLeaseExpired => "controller_lease_expired"@,
            ProblemView::RootEpochExpired => "root_epoch_expired"@,
            ProblemView::RevisionConflict => "revision_conflict"@,
            ProblemView::ValidationFailed(_) => "validation_failed"@,
            ProblemView::WorkflowCycle(_) => "workflow_cycle"@,
            ProblemView::UnknownDependency(_) => "unknown_dependency"@,
            ProblemView::ResourceNotFound => "resource_not_found"@,
            ProblemView::TargetStoreMismatch => "internal_error"@,
            ProblemView::PreviousCommandFailed => "internal_error"@,
            ProblemView::PreviousCommandCancelled => "internal_error"@,
            ProblemView::FaultInjected(_) => "internal_error"@,
            ProblemView::Internal(_) => "internal_error"@,
        }
    }

    /// The printed form of a refusal.
    pub open spec fn message(self) -> Seq<char> {
        match self {
            ProblemView::InvalidEnvelope(m) => "invalid_envelope:"@ + m,
            ProblemView::CommandIdReused => "command_id_reused"@,
            ProblemView::CommandInProgress => "command_in_progress"@,
            ProblemView::ControllerLeaseExpired => "controller_lease_expired"@,
            ProblemView::RootEpochExpired => "root_epoch_expired"@,
            ProblemView::RevisionConflict => "revision_conflict"@,
            ProblemView::ValidationFailed(m) => "validation_failed:"@ + m,
            ProblemView::WorkflowCycle(m) => "workflow_cycle:"@ + m,
            ProblemView::UnknownDependency(m) => "unknown_dependency:"@ + m,
            ProblemView::ResourceNotFound => "resource_not_found"@,
            ProblemView::TargetStoreMismatch => "target_store_mismatch"@,
            ProblemView::PreviousCommandFailed => "previous_command_failed"@,
            ProblemView::PreviousCommandCancelled => "previous_command_cancelled"@,
            ProblemView::FaultInjected(m) => "fault_injected:"@ + m,
            ProblemView::Internal(m) => "internal_error:"@ + m,
        }
    }
}

impl CommandProblem {
    /// The stable code of a refusal.
    pub fn code(&self) -> (r: &'static str)
        ensures
            r@ == self@.code(),
    {
        match self {
            CommandProblem::InvalidEnvelope(_) => "invalid_envelope",
            CommandProblem::CommandIdReused => "command_id_reused",
            CommandProblem::CommandInProgress => "command_in_progress",
            CommandProblem::ControllerLeaseExpired => "controller_lease_expired",
            CommandProblem::RootEpochExpired => "root_epoch_expired",
            CommandProblem::RevisionConflict => "revision_conflict",
            CommandProblem::ValidationFailed(_) => "validation_failed",
            CommandProblem::WorkflowCycle(_) => "workflow_cycle",
            CommandProblem::UnknownDependency(_) => "unknown_dependency",
            CommandProblem::ResourceNotFound => "resource_not_found",
            CommandProblem::TargetStoreMismatch => "internal_error",
            CommandProblem::PreviousCommandFailed => "internal_error",
            CommandProblem::PreviousCommandCancelled => "internal_error",
            CommandProblem::FaultInjected(_) => "internal_error",
            CommandProblem::Internal(_) => "internal_error",
        }
    }

    /// The printed form of a refusal.
    pub fn message(&self) -> (r: String)
        ensures
            r@ == self@.message(),
    {
        match self {
            CommandProblem::InvalidEnvelope(m) => cat("invalid_envelope:", m.as_str()),
            CommandProblem::CommandIdReused => "command_id_reused".to_owned(),
            CommandProblem::CommandInProgress => "command_in_progress".to_owned(),
            CommandProblem::ControllerLeaseExpired => "controller_lease_expired".to_owned(),
            CommandProblem::RootEpochExpired => "root_epoch_expired".to_owned(),
            CommandProblem::RevisionConflict => "revision_conflict".to_owned(),
            CommandProblem::ValidationFailed(m) => cat("validation_failed:", m.as_str()),
            CommandProblem::WorkflowCycle(m) => cat("workflow_cycle:", m.as_str()),
            CommandProblem::UnknownDependency(m) => cat("unknown_dependency:", m.as_str()),
            CommandProblem::ResourceNotFound => "resource_not_found".to_owned(),
            CommandProblem::TargetStoreMismatch => "target_store_mismatch".to_owned(),
            CommandProblem::PreviousCommandFailed => "previous_command_failed".to_owned(),
            CommandProblem::PreviousCommandCancelled => "previous_command_cancelled".to_owned(),
            CommandProblem::FaultInjected(m) => cat("fault_injected:", m),
            CommandProblem::Internal(m) => cat("internal_error:", m.as_str()),
        }
    }

    /// A refusal for an internal reason.
    pub fn internal(message: &str) -> (r: Self)
        ensures
            r@ == ProblemView::Internal(message@),
    {
        CommandProblem::Internal(message.to_owned())
    }

    /// A refusal of the envelope itself.
    pub fn invalid(message: &str) -> (r: Self)
        ensures
            r@ == ProblemView::InvalidEnvelope(message@),
    {
        CommandProblem::InvalidEnvelope(message.to_owned())
    }
}

/// What a command carries. It does not print itself: what may be printed of it is
/// [`CommandPayload::redacted`].
pub enum CommandPayload {
    Plain(Json),
    /// A payload with a secret, whose text lives nowhere but here and is wiped with it.
    /// Digests, receipts and events hold a code of the secret at most, never its text.
    WriteOnlySecret { public_fields: Json, secret: SecretText },
}

/// What a command carries, as a value.
pub ghost enum PayloadView {
    Plain(JsonView),
    WriteOnlySecret { public_fields: JsonView, secret: Seq<char> },
}

impl View for CommandPayload {
    type V = PayloadView;

    open spec fn view(&self) -> PayloadView {
        match *self {
            CommandPayload::Plain(v) => PayloadView::Plain(v@),
            CommandPayload::WriteOnlySecret { public_fields, secret } =>
                PayloadView::WriteOnlySecret { public_fields: public_fields@, secret: secret@ },
        }
    }
}

impl PayloadView {
    /// The secret text, if there is one.
    pub open spec fn secret(self) -> Option<Seq<char>> {
        match self {
            PayloadView::Plain(_) => None,
            PayloadView::WriteOnlySecret { secret, .. } => Some(secret),
        }
    }

    /// What may be printed of a payload: everything but a secret.
    pub open spec fn redacted(self) -> JsonView {
        match self {
            PayloadView::Plain(value) => JsonView::Object(
                seq![("payload"@, JsonView::Text("Plain"@)), ("value"@, value)],
            ),
            PayloadView::WriteOnlySecret { public_fields, .. } => JsonView::Object(
                seq![
                    ("payload"@, JsonView::Text("WriteOnlySecret"@)),
                    ("public_fields"@, public_fields),
                    ("secret"@, JsonView::Text(REDACTED@)),
                ],
            ),
        }
    }
}

/// What is printed in place of a secret.
pub const REDACTED: &'static str = "[REDACTED]";

impl CommandPayload {
    /// What may be printed of a payload: everything but a secret.
    pub fn redacted(&self) -> (r: Json)
        ensures
            r@ == self@.redacted(),
    {
        let mut f: Vec<(String, Json)> = fields();
        match self {
            CommandPayload::Plain(value) => {
                put(&mut f, "payload", txt("Plain"));
                put(&mut f, "value", value.copy());
            },
            CommandPayload::WriteOnlySecret { public_fields, .. } => {
                put(&mut f, "payload", txt("WriteOnlySecret"));
                put(&mut f, "public_fields", public_fields.copy());
                put(&mut f, "secret", txt(REDACTED));
            },
        }
        let r: Json = object(f);
        assert(r@->Object_0 =~= self@.redacted()->Object_0);
        r
    }
}

/// What is printed of a payload is the same whatever its secret is.
pub proof fn law_a_secret_is_not_printed(
    public_fields: JsonView,
    secret: Seq<char>,
    other: Seq<char>,
)
    ensures
        (PayloadView::WriteOnlySecret { public_fields, secret }).redacted() == (
        PayloadView::WriteOnlySecret { public_fields, secret: other }).redacted(),
{
}

/// A command with its sender, its lease and its assumptions, as a value.
pub ghost struct EnvelopeView {
    pub command_id: Seq<char>,
    pub client_id: Seq<char>,
    pub principal: Seq<char>,
    pub controller_epoch: u64,
    pub root_epoch: Option<u64>,
    pub target: TargetView,
    pub expected: Seq<ExpectedView>,
    pub command_type: CommandType,
    pub payload: PayloadView,
}

/// Whether two of the expectations name the same aggregate.
pub open spec fn repeats_aggregate(expected: Seq<ExpectedView>) -> bool {
    exists|i: int, j: int|
        0 <= i < j < expected.len() && (#[trigger] expected[i]).aggregate == (
        #[trigger] expected[j]).aggregate
}

impl EnvelopeView {
    /// Why the parts do not make a command, if they do not.
    pub open spec fn problem(self) -> Option<ProblemView> {
        if self.target.store is Project && !begins("proj_"@, self.target.store_handle) {
            Some(ProblemView::InvalidEnvelope("Project target 缺少 proj_ store handle"@))
        } else if self.target.store is Catalog && self.target.store_handle != "catalog"@ {
            Some(ProblemView::InvalidEnvelope("Catalog target store handle 必须为 catalog"@))
        } else if self.payload matches PayloadView::WriteOnlySecret { public_fields, .. }
            && has_sensitive(public_fields) {
            Some(ProblemView::InvalidEnvelope("Secret public_fields 含凭据或可复用引用"@))
        } else if self.payload matches PayloadView::Plain(value) && has_sensitive(value) {
            Some(ProblemView::InvalidEnvelope("凭据/Token 不得进入 Plain command payload"@))
        } else if repeats_aggregate(self.expected) {
            Some(ProblemView::InvalidEnvelope("expected aggregate 重复"@))
        } else {
            None
        }
    }

    /// What the authorizer is asked about the command.
    pub open spec fn lease(self) -> LeaseView {
        LeaseView {
            principal: self.principal,
            client_id: self.client_id,
            controller_epoch: self.controller_epoch,
            root_epoch: self.root_epoch,
            command_type: self.command_type,
            target: self.target,
            expected: self.expected,
        }
    }

    /// What may be printed of a command: what it is, what it is aimed at, and its payload
    /// without a secret.
    pub open spec fn redacted(self) -> JsonView {
        JsonView::Object(
            seq![
                ("command_id"@, JsonView::Text(self.command_id)),
                ("target"@, target_json(self.target)),
                ("command_type"@, JsonView::Text(self.command_type.name())),
                ("payload"@, self.payload.redacted()),
            ],
        )
    }

    /// The payload that the digest covers: a secret stands in it by its code.
    pub open spec fn digest_payload(self, key: Seq<u8>) -> Result<JsonView, ProblemView> {
        match self.payload {
            PayloadView::Plain(value) => Ok(value),
            PayloadView::WriteOnlySecret { public_fields, secret } => match public_fields {
                JsonView::Object(fields) => Ok(
                    JsonView::Object(
                        fields.push(("secret_hmac"@, JsonView::Text(secret_code(key, secret)))),
                    ),
                ),
                _ => Err(ProblemView::InvalidEnvelope("Secret public_fields 必须是 object"@)),
            },
        }
    }

    /// The digest of what the command means. It leaves out who sends it, under
    /// which lease and under which id.
    pub open spec fn digest(self, key: Seq<u8>) -> Result<Seq<char>, ProblemView> {
        match self.digest_payload(key) {
            Ok(payload) => Ok(text_digest(canonical_text(digest_json(self, payload)))),
            Err(p) => Err(p),
        }
    }
}

/// The code that stands for a secret.
pub open spec fn secret_code(key: Seq<u8>, secret: Seq<char>) -> Seq<char> {
    hex_text(hmac_sha256_of(key, vstd::utf8::encode_utf8(secret)))
}

/// The JSON form of an aggregate reference.
pub open spec fn aggregate_json(a: AggregateView) -> JsonView {
    JsonView::Object(
        seq![("kind"@, JsonView::Text(a.kind.name())), ("handle"@, JsonView::Text(a.handle))],
    )
}

/// The JSON form of an aggregate reference.
pub fn aggregate_value(a: &AggregateRef) -> (r: Json)
    ensures
        r@ == aggregate_json(a@),
{
    let mut f: Vec<(String, Json)> = fields();
    put(&mut f, "kind", txt(a.kind.as_str()));
    put(&mut f, "handle", txt(a.handle.as_str()));
    let out: Json = object(f);
    assert(out@->Object_0 =~= aggregate_json(a@)->Object_0);
    out
}

/// The JSON form of a target, as digests cover it.
pub open spec fn target_json(t: TargetView) -> JsonView {
    JsonView::Object(
        seq![
            ("store"@, JsonView::Text(t.store_key())),
            ("kind"@, JsonView::Text(t.aggregate.kind.name())),
            ("handle"@, JsonView::Text(t.aggregate.handle)),
        ],
    )
}

/// The JSON form of a target, as digests cover it.
pub fn target_value(t: &CommandTarget) -> (r: Json)
    ensures
        r@ == target_json(t@),
{
    let mut f: Vec<(String, Json)> = fields();
    put(&mut f, "store", Json::Text(t.store_key()));
    put(&mut f, "kind", txt(t.aggregate.kind.as_str()));
    put(&mut f, "handle", txt(t.aggregate.handle.as_str()));
    let out: Json = object(f);
    assert(out@->Object_0 =~= target_json(t@)->Object_0);
    out
}

/// What a command's digest is taken of.
pub open spec fn digest_json(e: EnvelopeView, payload: JsonView) -> JsonView {
    JsonView::Object(
        seq![
            ("schema"@, JsonView::Text(COMMAND_SCHEMA@)),
            ("type"@, JsonView::Text(e.command_type.name())),
            ("target"@, target_json(e.target)),
            ("expected"@, JsonView::Array(canonical_expected(e.expected))),
            ("payload"@, payload),
        ],
    )
}

/// Whether `a` stands before `b`: by the name of the kind, then by the handle.
pub open spec fn aggregate_before(a: AggregateView, b: AggregateView) -> bool {
    before(a.kind.name(), b.kind.name()) || (a.kind.name() == b.kind.name() && before(
        a.handle,
        b.handle,
    ))
}

fn aggregate_less(a: &AggregateRef, b: &AggregateRef) -> (r: bool)
    ensures
        r == aggregate_before(a@, b@),
{
    less(a.kind.as_str(), b.kind.as_str()) || (same(a.kind.as_str(), b.kind.as_str()) && less(
        a.handle.as_str(),
        b.handle.as_str(),
    ))
}

/// `e` put into `sorted` behind every expectation that does not stand after it.
pub open spec fn insert_expected(sorted: Seq<ExpectedView>, e: ExpectedView) -> Seq<ExpectedView>
    decreases sorted.len(),
{
    if sorted.len() == 0 || !aggregate_before(e.aggregate, sorted.last().aggregate) {
        sorted.push(e)
    } else {
        insert_expected(sorted.drop_last(), e).push(sorted.last())
    }
}

/// The expectations in the order of their aggregates.
pub open spec fn sort_expected(expected: Seq<ExpectedView>) -> Seq<ExpectedView>
    decreases expected.len(),
{
    if expected.len() == 0 {
        expected
    } else {
        insert_expected(sort_expected(expected.drop_last()), expected.last())
    }
}

/// The revisions of an expectation, as text by axis.
pub open spec fn revisions_json(revisions: Seq<(Seq<char>, nat)>) -> JsonView {
    JsonView::Object(
        revisions.map_values(
            |a: (Seq<char>, nat)| (a.0, JsonView::Text(decimal_text(a.1))),
        ),
    )
}

/// The JSON form of an expectation.
pub open spec fn expected_json(e: ExpectedView) -> JsonView {
    JsonView::Object(
        seq![
            ("aggregate"@, aggregate_json(e.aggregate)),
            ("revisions"@, revisions_json(e.revisions)),
        ],
    )
}

/// The JSON form of the expectations, in the order of their aggregates.
pub open spec fn canonical_expected(expected: Seq<ExpectedView>) -> Seq<JsonView> {
    sort_expected(expected).map_values(|e: ExpectedView| expected_json(e))
}

proof fn lemma_expected_position(sorted: Seq<ExpectedView>, e: ExpectedView, at: int)
    requires
        0 <= at <= sorted.len(),
        forall|k: int|
            at <= k < sorted.len() ==> aggregate_before(
                e.aggregate,
                (#[trigger] sorted[k]).aggregate,
            ),
        at > 0 ==> !aggregate_before(e.aggregate, sorted[at - 1].aggregate),
    ensures
        insert_expected(sorted, e) == sorted.insert(at, e),
    decreases sorted.len(),
{
    if at == sorted.len() {
        assert(sorted.insert(at, e) =~= sorted.push(e));
    } else {
        assert(aggregate_before(e.aggregate, sorted[sorted.len() - 1].aggregate));
        assert forall|k: int| at <= k < sorted.drop_last().len() implies aggregate_before(
            e.aggregate,
            (#[trigger] sorted.drop_last()[k]).aggregate,
        ) by {
            assert(aggregate_before(e.aggregate, sorted[k].aggregate));
        }
        lemma_expected_position(sorted.drop_last(), e, at);
        assert(sorted.insert(at, e) =~= sorted.drop_last().insert(at, e).push(sorted.last()));
    }
}

fn revisions_value(revisions: &Vec<(String, u64)>) -> (r: Json)
    ensures
        r@ == revisions_json(axes(revisions@)),
{
    let mut f: Vec<(String, Json)> = fields();
    let mut i: usize = 0;
    let ghost all = revisions_json(axes(revisions@))->Object_0;
    assert(all.take(0) =~= Seq::<(Seq<char>, JsonView)>::empty());
    while i < revisions.len()
        invariant
            i <= revisions@.len(),
            all == revisions_json(axes(revisions@))->Object_0,
            fields_view(f@) == all.take(i as int),
        decreases revisions@.len() - i,
    {
        put(&mut f, revisions[i].0.as_str(), Json::Text(decimal(revisions[i].1)));
        assert(axes(revisions@)[i as int] == (revisions@[i as int].0@, revisions@[i as int].1 as nat));
        assert(all.take(i + 1) =~= all.take(i as int).push(all[i as int]));
        i = i + 1;
    }
    assert(all.take(revisions@.len() as int) =~= all);
    object(f)
}

fn expected_value(e: &ExpectedRevision) -> (r: Json)
    ensures
        r@ == expected_json(e@),
{
    let mut f: Vec<(String, Json)> = fields();
    put(&mut f, "aggregate", aggregate_value(e.aggregate()));
    put(&mut f, "revisions", revisions_value(e.revisions()));
    let out: Json = object(f);
    assert(out@->Object_0 =~= expected_json(e@)->Object_0);
    out
}

/// The JSON form of the expectations, in the order of their aggregates.
pub fn canonical_expected_revisions(expected: &Vec<ExpectedRevision>) -> (r: Vec<Json>)
    ensures
        items_view(r@) == canonical_expected(expectations(expected@)),
{
    let mut sorted: Vec<ExpectedRevision> = Vec::new();
    let ghost all = expectations(expected@);
    let mut i: usize = 0;
    assert(all.take(0) =~= Seq::<ExpectedView>::empty());
    assert(expectations(sorted@) =~= Seq::<ExpectedView>::empty());
    while i < expected.len()
        invariant
            i <= expected@.len(),
            all == expectations(expected@),
            expectations(sorted@) == sort_expected(all.take(i as int)),
        decreases expected@.len() - i,
    {
        let e: ExpectedRevision = expected[i].clone();
        let ghost view = expectations(sorted@);
        let mut at: usize = sorted.len();
        while at > 0 && aggregate_less(e.aggregate(), sorted[at - 1].aggregate())
            invariant
                at <= sorted@.len(),
                view == expectations(sorted@),
                forall|k: int|
                    at <= k < view.len() ==> aggregate_before(
                        e@.aggregate,
                        (#[trigger] view[k]).aggregate,
                    ),
            decreases at,
        {
            at = at - 1;
        }
        proof {
            if at > 0 {
                assert(view[at - 1] == sorted@[at - 1]@);
            }
            lemma_expected_position(view, e@, at as int);
            assert(all.take(i + 1).drop_last() =~= all.take(i as int));
            assert(all[i as int] == e@);
        }
        sorted.insert(at, e);
        assert(expectations(sorted@) =~= view.insert(at as int, e@));
        i = i + 1;
    }
    assert(all.take(expected@.len() as int) =~= all);
    let mut out: Vec<Json> = items();
    let ghost want = canonical_expected(all);
    let mut k: usize = 0;
    assert(want.take(0) =~= Seq::<JsonView>::empty());
    while k < sorted.len()
        invariant
            k <= sorted@.len(),
            expectations(sorted@) == sort_expected(all),
            want == canonical_expected(all),
            items_view(out@) == want.take(k as int),
        decreases sorted@.len() - k,
    {
        push_item(&mut out, expected_value(&sorted[k]));
        assert(expectations(sorted@)[k as int] == sorted@[k as int]@);
        assert(want.take(k + 1) =~= want.take(k as int).push(want[k as int]));
        k = k + 1;
    }
    assert(want.take(sorted@.len() as int) =~= want);
    out
}

/// A command with its sender, its lease and its assumptions. It does not print itself: what
/// may be printed of it is [`CommandEnvelope::redacted`].
pub struct CommandEnvelope {
    command_id: CommandId,
    client_id: ClientId,
    principal: Principal,
    controller_epoch: u64,
    root_epoch: Option<u64>,
    target: CommandTarget,
    expected: Vec<ExpectedRevision>,
    command_type: CommandType,
    payload: CommandPayload,
}

impl View for CommandEnvelope {
    type V = EnvelopeView;

    closed spec fn view(&self) -> EnvelopeView {
        EnvelopeView {
            command_id: self.command_id@,
            client_id: self.client_id@,
            principal: self.principal@,
            controller_epoch: self.controller_epoch,
            root_epoch: self.root_epoch,
            target: self.target@,
            expected: expectations(self.expected@),
            command_type: self.command_type,
            payload: self.payload@,
        }
    }
}

fn has_repeated_aggregate(expected: &Vec<ExpectedRevision>) -> (r: bool)
    ensures
        r == repeats_aggregate(expectations(expected@)),
{
    let ghost all = expectations(expected@);
    let mut i: usize = 0;
    while i < expected.len()
        invariant
            i <= expected@.len(),
            all == expectations(expected@),
            forall|a: int, b: int|
                0 <= a < b < all.len() && a < i ==> (#[trigger] all[a]).aggregate != (
                #[trigger] all[b]).aggregate,
        decreases expected@.len() - i,
    {
        let mut j: usize = i + 1;
        while j < expected.len()
            invariant
                i < expected@.len(),
                i < j <= expected@.len(),
                all == expectations(expected@),
                forall|b: int|
                    i < b < j ==> all[i as int].aggregate != (#[trigger] all[b]).aggregate,
            decreases expected@.len() - j,
        {
            if expected[i].aggregate().same(expected[j].aggregate()) {
                assert(all[i as int].aggregate == all[j as int].aggregate);
                return true;
            }
            j = j + 1;
        }
        i = i + 1;
    }
    false
}

impl CommandEnvelope {
    #[verifier::type_invariant]
    spec fn wf(self) -> bool {
        self@.problem() is None
    }

    /// Puts a command together. A project target needs a `proj_` store handle and
    /// a catalog target the handle `catalog`; no part of the payload that is not
    /// the secret itself may name a credential; and no aggregate is expected twice.
    pub fn new(
        command_id: CommandId,
        client_id: ClientId,
        principal: Principal,
        controller_epoch: u64,
        root_epoch: Option<u64>,
        target: CommandTarget,
        expected: Vec<ExpectedRevision>,
        command_type: CommandType,
        payload: CommandPayload,
    ) -> (r: Result<Self, CommandProblem>)
        ensures
            ({
                let view = EnvelopeView {
                    command_id: command_id@,
                    client_id: client_id@,
                    principal: principal@,
                    controller_epoch,
                    root_epoch,
                    target: target@,
                    expected: expectations(expected@),
                    command_type,
                    payload: payload@,
                };
                outcome(r) == (match view.problem() {
                    Some(p) => Err::<EnvelopeView, ProblemView>(p),
                    None => Ok(view),
                })
            }),
    {
        match target.store {
            TargetStoreKind::Project => {
                if !has_prefix(target.store_handle.as_str(), "proj_") {
                    return Err(CommandProblem::invalid("Project target 缺少 proj_ store handle"));
                }
            },
            TargetStoreKind::Catalog => {
                if !same(target.store_handle.as_str(), "catalog") {
                    return Err(CommandProblem::invalid("Catalog target store handle 必须为 catalog"));
                }
            },
        }
        match &payload {
            CommandPayload::WriteOnlySecret { public_fields, .. } => {
                if value_has_sensitive_field(public_fields) {
                    return Err(CommandProblem::invalid("Secret public_fields 含凭据或可复用引用"));
                }
            },
            CommandPayload::Plain(value) => {
                if value_has_sensitive_field(value) {
                    return Err(CommandProblem::invalid("凭据/Token 不得进入 Plain command payload"));
                }
            },
        }
        if has_repeated_aggregate(&expected) {
            return Err(CommandProblem::invalid("expected aggregate 重复"));
        }
        Ok(
            CommandEnvelope {
                command_id,
                client_id,
                principal,
                controller_epoch,
                root_epoch,
                target,
                expected,
                command_type,
                payload,
            },
        )
    }

    pub fn command_id(&self) -> (r: &CommandId)
        ensures
            r@ == self@.command_id,
    {
        &self.command_id
    }

    pub fn target(&self) -> (r: &CommandTarget)
        ensures
            r@ == self@.target,
    {
        &self.target
    }

    pub fn command_type(&self) -> (r: CommandType)
        ensures
            r == self@.command_type,
    {
        self.command_type
    }

    pub fn principal(&self) -> (r: &Principal)
        ensures
            r@ == self@.principal,
    {
        &self.principal
    }

    pub fn client_id(&self) -> (r: &ClientId)
        ensures
            r@ == self@.client_id,
    {
        &self.client_id
    }

    pub fn controller_epoch(&self) -> (r: u64)
        ensures
            r == self@.controller_epoch,
    {
        self.controller_epoch
    }

    pub fn root_epoch(&self) -> (r: Option<u64>)
        ensures
            r == self@.root_epoch,
    {
        self.root_epoch
    }

    pub fn expected(&self) -> (r: &Vec<ExpectedRevision>)
        ensures
            expectations(r@) == self@.expected,
    {
        &self.expected
    }

    /// What the authorizer is asked about this command.
    pub fn lease_check(&self) -> (r: LeaseCheck<'_>)
        ensures
            r@ == self@.lease(),
    {
        LeaseCheck {
            principal: &self.principal,
            client_id: &self.client_id,
            controller_epoch: self.controller_epoch,
            root_epoch: self.root_epoch,
            command_type: self.command_type,
            target: &self.target,
            expected: &self.expected,
        }
    }

    /// What may be printed of a command.
    pub fn redacted(&self) -> (r: Json)
        ensures
            r@ == self@.redacted(),
    {
        let mut f: Vec<(String, Json)> = fields();
        put(&mut f, "command_id", txt(self.command_id.as_str()));
        put(&mut f, "target", target_value(&self.target));
        put(&mut f, "command_type", txt(self.command_type.as_str()));
        put(&mut f, "payload", self.payload.redacted());
        let r: Json = object(f);
        assert(r@->Object_0 =~= self@.redacted()->Object_0);
        r
    }

    /// The secret text, if there is one.
    pub(crate) fn secret_plaintext(&self) -> (r: Option<&str>)
        ensures
            match r {
                Some(s) => self@.payload.secret() == Some(s@),
                None => self@.payload.secret() is None,
            },
    {
        match &self.payload {
            CommandPayload::WriteOnlySecret { secret, .. } => Some(secret.as_str()),
            CommandPayload::Plain(_) => None,
        }
    }

    /// The digest of what the command means.
    pub fn semantic_digest(
        &self,
        key: &ServiceIdempotencyKey,
    ) -> (r: Result<String, CommandProblem>)
        ensures
            outcome(r) == self@.digest(key@),
    {
        let payload: Json = match &self.payload {
            CommandPayload::Plain(value) => value.copy(),
            CommandPayload::WriteOnlySecret { public_fields, secret } => {
                match public_fields.copy() {
                    Json::Object(mut public) => {
                        let code: String = key.hmac(secret.as_str().as_bytes());
                        proof {
                            crate::json::lemma_object_view(public);
                        }
                        put(&mut public, "secret_hmac", Json::Text(code));
                        object(public)
                    },
                    _ => {
                        return Err(CommandProblem::invalid("Secret public_fields 必须是 object"));
                    },
                }
            },
        };
        let mut f: Vec<(String, Json)> = fields();
        put(&mut f, "schema", txt(COMMAND_SCHEMA));
        put(&mut f, "type", txt(self.command_type.as_str()));
        put(&mut f, "target", target_value(&self.target));
        put(&mut f, "expected", array(canonical_expected_revisions(&self.expected)));
        put(&mut f, "payload", payload);
        let whole: Json = object(f);
        assert(whole@->Object_0 =~= digest_json(self@, payload@)->Object_0);
        let canonical: String = canonical_json(&whole);
        Ok(digest_text(canonical.as_str()))
    }
}

/// The key that stands behind the codes of secrets: at least 256 bits, wiped when it is let
/// go.
pub struct ServiceIdempotencyKey {
    bytes: SecretBytes,
}

impl View for ServiceIdempotencyKey {
    type V = Seq<u8>;

    closed spec fn view(&self) -> Seq<u8> {
        self.bytes@
    }
}

impl ServiceIdempotencyKey {
    #[verifier::type_invariant]
    spec fn wf(self) -> bool {
        self.bytes@.len() >= 32
    }

    /// Takes a key of at least 256 bits.
    pub fn from_bytes(bytes: SecretBytes) -> (r: Result<Self, CommandProblem>)
        ensures
            outcome(r) == (if bytes@.len() < 32 {
                Err::<Seq<u8>, ProblemView>(
                    ProblemView::InvalidEnvelope("service idempotency key 至少 256 bit"@),
                )
            } else {
                Ok(bytes@)
            }),
    {
        if bytes.as_slice().len() < 32 {
            return Err(CommandProblem::invalid("service idempotency key 至少 256 bit"));
        }
        Ok(ServiceIdempotencyKey { bytes })
    }

    /// Takes a key of at least 256 bits.
    pub fn for_test(bytes: Vec<u8>) -> (r: Result<Self, CommandProblem>)
        ensures
            outcome(r) == (if bytes@.len() < 32 {
                Err::<Seq<u8>, ProblemView>(
                    ProblemView::InvalidEnvelope("service idempotency key 至少 256 bit"@),
                )
            } else {
                Ok(bytes@)
            }),
    {
        Self::from_bytes(SecretBytes::new(bytes))
    }

    fn hmac(&self, secret: &[u8]) -> (r: String)
        ensures
            r@ == hex_text(hmac_sha256_of(self@, secret@)),
    {
        hmac_text(self.bytes.as_slice(), secret)
    }

    /// The stored form of the key.
    pub fn to_hex(&self) -> (r: SecretText)
        ensures
            r@ == hex_text(self@),
    {
        SecretText::new(crate::digest::hex_digest(self.bytes.as_slice()))
    }
}

/// The key that a stored text of 64 hexadecimal digits spells.
pub open spec fn stored_key(hex: Seq<char>) -> Result<Seq<u8>, ProblemView> {
    match hex_bytes(hex) {
        Some(bytes) => if hex.len() == 64 {
            Ok(bytes)
        } else {
            Err(ProblemView::Internal("idempotency keyring 格式非法"@))
        },
        None => Err(ProblemView::Internal("idempotency keyring 格式非法"@)),
    }
}

/// Reads the key that a stored text of 64 hexadecimal digits spells.
pub fn parse_key_hex(hex: &str) -> (r: Result<SecretBytes, CommandProblem>)
    ensures
        outcome(r) == stored_key(hex@),
{
    match decode_hex(hex) {
        Some(bytes) => if hex.unicode_len() == 64 {
            Ok(SecretBytes::new(bytes))
        } else {
            Err(CommandProblem::internal("idempotency keyring 格式非法"))
        },
        None => Err(CommandProblem::internal("idempotency keyring 格式非法")),
    }
}

} // verus!
