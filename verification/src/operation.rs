//! Operations: long tasks over several stores, run as a saga of steps. A step
//! that holds a receipt is never run again; what cannot be undone by itself waits
//! for the user and is never reported as done.

use crate::command::{
    canonical_expected, canonical_expected_revisions, target_json, target_value, CommandEnvelope,
    CommandProblem, CommandType, EnvelopeView, ProblemView, ServiceIdempotencyKey, aggregate_json,
    aggregate_value,
};
use crate::digest::{digest_text, text_digest};
use crate::dispatch::{
    ended_problem, epoch_problem, finish_intent, finish_intent_view, found,
    problem_for_terminal_code, receipt_result, reserved_intent, IntentRow, IntentState, IntentView,
    Intents, OutboxView, ReceiptRow, ReceiptView, Receipts, TargetDatabase, TargetTables,
};
use crate::handles::{
    expectations, fresh_with, is_canonical_v7, outcome, parse_v7, uuid_parsed, v7_or, ClientId,
    CommandId, CommandTarget, ExpectedRevision, ExpectedView, HandleProblem, Principal, TargetView,
};
use crate::json::{
    array, as_text_view, canonical_json, canonical_text, field_of, fields, has_sensitive, items,
    items_view, object, push_item, put, sorted_json, sorted_view, txt, value_has_sensitive_field,
    Json, JsonView,
};
use crate::lease::{CommandAuthorizer, LeaseCheck, LeaseView};
use crate::table::Table;
use crate::text::{
    begins, blank, cat, cat3, copy_opt, decimal, decimal_text, is_blank, opt_view, same, same_opt,
    strip_prefix,
};
use vstd::prelude::*;
use vstd::string::*;

verus! {

/// The schema name that every step digest covers.
pub const OPERATION_STEP_SCHEMA: &'static str = "mf.operation.step.v1";

/// Stable codes of operations that came to an end without success.
pub const CODE_COMPENSATION_MISSING: &'static str = "compensation_missing";

pub const CODE_COMPENSATION_FAILED: &'static str = "compensation_failed";

pub const CODE_COMPENSATION_REQUIRED: &'static str = "compensation_required";

pub const CODE_OPERATION_COMPENSATED: &'static str = "operation_compensated";

/// Why an operation was refused or stopped.
#[derive(Debug, PartialEq, Eq)]
pub enum OperationProblem {
    InvalidPlan(String),
    OperationNotFound,
    CommandIdReused,
    PlanConflict(String),
    StateConflict(String),
    TargetStoreMismatch(String),
    FaultInjected(&'static str),
    Command(CommandProblem),
    Internal(String),
}

/// Why an operation was refused or stopped, as a value.
pub ghost enum OperationProblemView {
    InvalidPlan(Seq<char>),
    OperationNotFound,
    CommandIdReused,
    PlanConflict(Seq<char>),
    StateConflict(Seq<char>),
    TargetStoreMismatch(Seq<char>),
    FaultInjected(Seq<char>),
    Command(ProblemView),
    Internal(Seq<char>),
}

impl View for OperationProblem {
    type V = OperationProblemView;

    open spec fn view(&self) -> OperationProblemView {
        match *self {
            OperationProblem::InvalidPlan(m) => OperationProblemView::InvalidPlan(m@),
            OperationProblem::OperationNotFound => OperationProblemView::OperationNotFound,
            OperationProblem::CommandIdReused => OperationProblemView::CommandIdReused,
            OperationProblem::PlanConflict(m) => OperationProblemView::PlanConflict(m@),
            OperationProblem::StateConflict(m) => OperationProblemView::StateConflict(m@),
            OperationProblem::TargetStoreMismatch(m) => OperationProblemView::TargetStoreMismatch(m@),
            OperationProblem::FaultInjected(m) => OperationProblemView::FaultInjected(m@),
            OperationProblem::Command(m) => OperationProblemView::Command(m@),
            OperationProblem::Internal(m) => OperationProblemView::Internal(m@),
        }
    }
}

impl Clone for OperationProblem {
    fn clone(&self) -> (r: Self)
        ensures
            r@ == self@,
    {
        match self {
            OperationProblem::InvalidPlan(m) => OperationProblem::InvalidPlan(m.clone()),
            OperationProblem::OperationNotFound => OperationProblem::OperationNotFound,
            OperationProblem::CommandIdReused => OperationProblem::CommandIdReused,
            OperationProblem::PlanConflict(m) => OperationProblem::PlanConflict(m.clone()),
            OperationProblem::StateConflict(m) => OperationProblem::StateConflict(m.clone()),
            OperationProblem::TargetStoreMismatch(m) => OperationProblem::TargetStoreMismatch(m.clone()),
            OperationProblem::FaultInjected(m) => OperationProblem::FaultInjected(*m),
            OperationProblem::Command(m) => OperationProblem::Command(m.clone()),
            OperationProblem::Internal(m) => OperationProblem::Internal(m.clone()),
        }
    }
}

impl OperationProblemView {
    /// The stable code.
    pub open spec fn code(self) -> Seq<char> {
        match self {
            OperationProblemView::InvalidPlan(_) => "invalid_plan"@,
            OperationProblemView::OperationNotFound => "resource_not_found"@,
            OperationProblemView::CommandIdReused => "command_id_reused"@,
            OperationProblemView::PlanConflict(_) => "command_id_reused"@,
            OperationProblemView::StateConflict(_) => "internal_error"@,
            OperationProblemView::TargetStoreMismatch(_) => "internal_error"@,
            OperationProblemView::FaultInjected(_) => "internal_error"@,
            OperationProblemView::Command(m) => m.code(),
            OperationProblemView::Internal(_) => "internal_error"@,
        }
    }

    /// The printed form.
    pub open spec fn message(self) -> Seq<char> {
        match self {
            OperationProblemView::InvalidPlan(m) => "invalid_plan:"@ + m,
            OperationProblemView::OperationNotFound => "operation_not_found"@,
            OperationProblemView::CommandIdReused => "command_id_reused"@,
            OperationProblemView::PlanConflict(m) => "plan_conflict:"@ + m,
            OperationProblemView::StateConflict(m) => "operation_state_conflict:"@ + m,
            OperationProblemView::TargetStoreMismatch(m) => "target_store_mismatch:"@ + m,
            OperationProblemView::FaultInjected(m) => "fault_injected:"@ + m,
            OperationProblemView::Command(m) => m.message(),
            OperationProblemView::Internal(m) => "internal_error:"@ + m,
        }
    }
}

impl OperationProblem {
    /// The stable code.
    pub fn code(&self) -> (r: &'static str)
        ensures
            r@ == self@.code(),
    {
        match self {
            OperationProblem::InvalidPlan(_) => "invalid_plan",
            OperationProblem::OperationNotFound => "resource_not_found",
            OperationProblem::CommandIdReused => "command_id_reused",
            OperationProblem::PlanConflict(_) => "command_id_reused",
            OperationProblem::StateConflict(_) => "internal_error",
            OperationProblem::TargetStoreMismatch(_) => "internal_error",
            OperationProblem::FaultInjected(_) => "internal_error",
            OperationProblem::Command(m) => m.code(),
            OperationProblem::Internal(_) => "internal_error",
        }
    }

    /// The printed form.
    pub fn message(&self) -> (r: String)
        ensures
            r@ == self@.message(),
    {
        match self {
            OperationProblem::InvalidPlan(m) => cat("invalid_plan:", m.as_str()),
            OperationProblem::OperationNotFound => "operation_not_found".to_owned(),
            OperationProblem::CommandIdReused => "command_id_reused".to_owned(),
            OperationProblem::PlanConflict(m) => cat("plan_conflict:", m.as_str()),
            OperationProblem::StateConflict(m) => cat("operation_state_conflict:", m.as_str()),
            OperationProblem::TargetStoreMismatch(m) => cat("target_store_mismatch:", m.as_str()),
            OperationProblem::FaultInjected(m) => cat("fault_injected:", m),
            OperationProblem::Command(m) => m.message(),
            OperationProblem::Internal(m) => cat("internal_error:", m.as_str()),
        }
    }
}

/// Where an operation stands: `accepted`, then `running`, then `completed`, or over
/// `compensating` to `completed` or `needs_you`. A restart makes what is open
/// `reconciling`.
#[derive(Debug, Clone, Copy, PartialEq, Eq, Structural)]
pub enum OperationState {
    Accepted,
    Running,
    Completed,
    Compensating,
    NeedsYou,
    Reconciling,
}

impl OperationState {
    /// The stored name.
    pub open spec fn name(self) -> Seq<char> {
        match self {
            OperationState::Accepted => "accepted"@,
            OperationState::Running => "running"@,
            OperationState::Completed => "completed"@,
            OperationState::Compensating => "compensating"@,
            OperationState::NeedsYou => "needs_you"@,
            OperationState::Reconciling => "reconciling"@,
        }
    }

    /// The stored name.
    pub fn as_str(self) -> (r: &'static str)
        ensures
            r@ == self.name(),
    {
        match self {
            OperationState::Accepted => "accepted",
            OperationState::Running => "running",
            OperationState::Completed => "completed",
            OperationState::Compensating => "compensating",
            OperationState::NeedsYou => "needs_you",
            OperationState::Reconciling => "reconciling",
        }
    }

    /// What a stored name stands for.
    pub open spec fn named(value: Seq<char>) -> Result<OperationState, OperationProblemView> {
        if value == "accepted"@ {
            Ok(OperationState::Accepted)
        } else if value == "running"@ {
            Ok(OperationState::Running)
        } else if value == "completed"@ {
            Ok(OperationState::Completed)
        } else if value == "compensating"@ {
            Ok(OperationState::Compensating)
        } else if value == "needs_you"@ {
            Ok(OperationState::NeedsYou)
        } else if value == "reconciling"@ {
            Ok(OperationState::Reconciling)
        } else {
            Err(OperationProblemView::Internal("未知 operation.state:"@ + value))
        }
    }

    /// Reads a stored name; an unknown one is refused.
    pub fn parse(value: &str) -> (r: Result<OperationState, OperationProblem>)
        ensures
            match r {
                Ok(v) => OperationState::named(value@) == Ok::<OperationState, OperationProblemView>(v),
                Err(p) => OperationState::named(value@) == Err::<OperationState, OperationProblemView>(p@),
            },
    {
        if same(value, "accepted") {
            Ok(OperationState::Accepted)
        } else if same(value, "running") {
            Ok(OperationState::Running)
        } else if same(value, "completed") {
            Ok(OperationState::Completed)
        } else if same(value, "compensating") {
            Ok(OperationState::Compensating)
        } else if same(value, "needs_you") {
            Ok(OperationState::NeedsYou)
        } else if same(value, "reconciling") {
            Ok(OperationState::Reconciling)
        } else {
            Err(OperationProblem::Internal(cat("未知 operation.state:", value)))
        }
    }
}

/// Reading the stored name of a value gives the value back.
pub proof fn law_operation_state_round_trip(v: OperationState)
    ensures
        OperationState::named(v.name()) == Ok::<OperationState, OperationProblemView>(v),
{
    reveal_strlit("accepted");
    reveal_strlit("running");
    reveal_strlit("completed");
    reveal_strlit("compensating");
    reveal_strlit("needs_you");
    reveal_strlit("reconciling");
    assert("accepted"@.len() == 8);
    assert("running"@.len() == 7);
    assert("completed"@.len() == 9);
    assert("compensating"@.len() == 12);
    assert("needs_you"@.len() == 9);
    assert("reconciling"@.len() == 11);
    assert("completed"@[0] != "needs_you"@[0]);
}

impl OperationState {
    /// Whether the operation goes no further by itself.
    pub open spec fn terminal(self) -> bool {
        self is Completed || self is NeedsYou
    }

    /// Whether the operation goes no further by itself.
    pub fn is_terminal(self) -> (r: bool)
        ensures
            r == self.terminal(),
    {
        match self {
            OperationState::Completed => true,
            OperationState::NeedsYou => true,
            _ => false,
        }
    }
}

/// What a step is for: the task itself, or to undo a step of the task.
#[derive(Debug, Clone, Copy, PartialEq, Eq, Structural)]
pub enum StepRole {
    Forward,
    Compensate,
}

impl StepRole {
    /// The stored name.
    pub open spec fn name(self) -> Seq<char> {
        match self {
            StepRole::Forward => "forward"@,
            StepRole::Compensate => "compensate"@,
        }
    }

    /// The stored name.
    pub fn as_str(self) -> (r: &'static str)
        ensures
            r@ == self.name(),
    {
        match self {
            StepRole::Forward => "forward",
            StepRole::Compensate => "compensate",
        }
    }

    /// What a stored name stands for.
    pub open spec fn named(value: Seq<char>) -> Result<StepRole, OperationProblemView> {
        if value == "forward"@ {
            Ok(StepRole::Forward)
        } else if value == "compensate"@ {
            Ok(StepRole::Compensate)
        } else {
            Err(OperationProblemView::Internal("未知 operation_step.role:"@ + value))
        }
    }

    /// Reads a stored name; an unknown one is refused.
    pub fn parse(value: &str) -> (r: Result<StepRole, OperationProblem>)
        ensures
            match r {
                Ok(v) => StepRole::named(value@) == Ok::<StepRole, OperationProblemView>(v),
                Err(p) => StepRole::named(value@) == Err::<StepRole, OperationProblemView>(p@),
            },
    {
        if same(value, "forward") {
            Ok(StepRole::Forward)
        } else if same(value, "compensate") {
            Ok(StepRole::Compensate)
        } else {
            Err(OperationProblem::Internal(cat("未知 operation_step.role:", value)))
        }
    }
}

/// Reading the stored name of a value gives the value back.
pub proof fn law_step_role_round_trip(v: StepRole)
    ensures
        StepRole::named(v.name()) == Ok::<StepRole, OperationProblemView>(v),
{
    reveal_strlit("forward");
    reveal_strlit("compensate");
    assert("forward"@.len() == 7);
    assert("compensate"@.len() == 10);
}

/// Where a step stands. Every state but `Pending` is final.
#[derive(Debug, Clone, Copy, PartialEq, Eq, Structural)]
pub enum StepState {
    Pending,
    Succeeded,
    Failed,
    Revoked,
}

impl StepState {
    /// The stored name.
    pub open spec fn name(self) -> Seq<char> {
        match self {
            StepState::Pending => "pending"@,
            StepState::Succeeded => "succeeded"@,
            StepState::Failed => "failed"@,
            StepState::Revoked => "revoked"@,
        }
    }

    /// The stored name.
    pub fn as_str(self) -> (r: &'static str)
        ensures
            r@ == self.name(),
    {
        match self {
            StepState::Pending => "pending",
            StepState::Succeeded => "succeeded",
            StepState::Failed => "failed",
            StepState::Revoked => "revoked",
        }
    }

    /// What a stored name stands for.
    pub open spec fn named(value: Seq<char>) -> Result<StepState, OperationProblemView> {
        if value == "pending"@ {
            Ok(StepState::Pending)
        } else if value == "succeeded"@ {
            Ok(StepState::Succeeded)
        } else if value == "failed"@ {
            Ok(StepState::Failed)
        } else if value == "revoked"@ {
            Ok(StepState::Revoked)
        } else {
            Err(OperationProblemView::Internal("未知 operation_step.state:"@ + value))
        }
    }

    /// Reads a stored name; an unknown one is refused.
    pub fn parse(value: &str) -> (r: Result<StepState, OperationProblem>)
        ensures
            match r {
                Ok(v) => StepState::named(value@) == Ok::<StepState, OperationProblemView>(v),
                Err(p) => StepState::named(value@) == Err::<StepState, OperationProblemView>(p@),
            },
    {
        if same(value, "pending") {
            Ok(StepState::Pending)
        } else if same(value, "succeeded") {
            Ok(StepState::Succeeded)
        } else if same(value, "failed") {
            Ok(StepState::Failed)
        } else if same(value, "revoked") {
            Ok(StepState::Revoked)
        } else {
            Err(OperationProblem::Internal(cat("未知 operation_step.state:", value)))
        }
    }
}

/// Reading the stored name of a value gives the value back.
pub proof fn law_step_state_round_trip(v: StepState)
    ensures
        StepState::named(v.name()) == Ok::<StepState, OperationProblemView>(v),
{
    reveal_strlit("pending");
    reveal_strlit("succeeded");
    reveal_strlit("failed");
    reveal_strlit("revoked");
    assert("pending"@.len() == 7);
    assert("succeeded"@.len() == 9);
    assert("failed"@.len() == 6);
    assert("revoked"@.len() == 7);
    assert("pending"@[0] != "revoked"@[0]);
}

/// The durable handle of an operation: `op_` and a UUID of version 7. It outlives
/// restarts and is never used twice.
#[derive(Debug, PartialEq, Eq, Hash)]
pub struct OperationHandle {
    text: String,
}

impl View for OperationHandle {
    type V = Seq<char>;

    closed spec fn view(&self) -> Seq<char> {
        self.text@
    }
}

impl Clone for OperationHandle {
    fn clone(&self) -> (r: Self)
        ensures
            r == *self,
    {
        proof {
            use_type_invariant(self);
        }
        OperationHandle { text: self.text.clone() }
    }
}

/// What a text reads as an operation handle: `op_` and the canonical UUID.
pub open spec fn operation_handle_of(value: Seq<char>) -> Result<Seq<char>, Seq<char>> {
    if !begins("op_"@, value) {
        Err("operation handle 必须以 op_ 开头"@)
    } else {
        match v7_or(
            uuid_parsed(value.skip("op_"@.len() as int)),
            "operation handle 必须是 op_ + UUIDv7"@,
        ) {
            Ok(canonical) => Ok("op_"@ + canonical),
            Err(message) => Err(message),
        }
    }
}

impl OperationHandle {
    #[verifier::type_invariant]
    spec fn wf(self) -> bool {
        operation_handle_of(self.text@) == Ok::<Seq<char>, Seq<char>>(self.text@)
    }

    /// Reads a handle; its text is kept in canonical form.
    pub fn parse(value: &str) -> (r: Result<Self, HandleProblem>)
        ensures
            outcome(r) == operation_handle_of(value@),
    {
        match strip_prefix(value, "op_") {
            None => Err(HandleProblem::new("operation handle 必须以 op_ 开头")),
            Some(rest) => match parse_v7(rest.as_str(), "operation handle 必须是 op_ + UUIDv7") {
                Ok(canonical) => {
                    let text: String = cat("op_", canonical.as_str());
                    assert(text@.subrange(0, "op_"@.len() as int) =~= "op_"@);
                    assert(text@.skip("op_"@.len() as int) =~= canonical@);
                    Ok(OperationHandle { text })
                },
                Err(p) => Err(p),
            },
        }
    }

    /// A fresh handle.
    pub fn new() -> (r: Self)
        ensures
            operation_handle_of(r@) == Ok::<Seq<char>, Seq<char>>(r@),
    {
        let text: String = fresh_with("op_");
        assert(text@ =~= text@.subrange(0, "op_"@.len() as int) + text@.skip("op_"@.len() as int));
        OperationHandle { text }
    }

    /// The text of this handle; it reads back as itself.
    pub fn as_str(&self) -> (r: &str)
        ensures
            r@ == self@,
            operation_handle_of(self@) == Ok::<Seq<char>, Seq<char>>(self@),
    {
        proof {
            use_type_invariant(self);
        }
        self.text.as_str()
    }

    /// Whether two handles are the same.
    pub fn same(&self, other: &Self) -> (r: bool)
        ensures
            r == (self@ == other@),
    {
        same(self.text.as_str(), other.text.as_str())
    }
}

/// Identifies a step: the id under which its receipt is kept.
#[derive(Debug, PartialEq, Eq, Hash)]
pub struct StepId {
    text: String,
}

impl View for StepId {
    type V = Seq<char>;

    closed spec fn view(&self) -> Seq<char> {
        self.text@
    }
}

impl Clone for StepId {
    fn clone(&self) -> (r: Self)
        ensures
            r == *self,
    {
        proof {
            use_type_invariant(self);
        }
        StepId { text: self.text.clone() }
    }
}

impl StepId {
    #[verifier::type_invariant]
    spec fn wf(self) -> bool {
        is_canonical_v7(self.text@)
    }

    /// Reads a step id; its text is kept in canonical form.
    pub fn parse(value: &str) -> (r: Result<Self, HandleProblem>)
        ensures
            outcome(r) == v7_or(uuid_parsed(value@), "step_id 必须是 UUIDv7"@),
    {
        match parse_v7(value, "step_id 必须是 UUIDv7") {
            Ok(text) => Ok(StepId { text }),
            Err(p) => Err(p),
        }
    }

    /// A fresh step id.
    pub fn new() -> (r: Self)
        ensures
            is_canonical_v7(r@),
    {
        let text: String = fresh_with("");
        proof {
            reveal_strlit("");
        }
        assert(text@.skip(0) =~= text@);
        StepId { text }
    }

    /// The text of this id, in canonical form.
    pub fn as_str(&self) -> (r: &str)
        ensures
            r@ == self@,
            is_canonical_v7(self@),
    {
        proof {
            use_type_invariant(self);
        }
        self.text.as_str()
    }
}

impl Default for StepId {
    /// A fresh step id.
    fn default() -> (r: Self)
        ensures
            is_canonical_v7(r@),
    {
        Self::new()
    }
}

/// The kind of an operation: any text that is not blank.
#[derive(Debug, PartialEq, Eq, Hash)]
pub struct OperationKind {
    text: String,
}

impl View for OperationKind {
    type V = Seq<char>;

    closed spec fn view(&self) -> Seq<char> {
        self.text@
    }
}

impl Clone for OperationKind {
    fn clone(&self) -> (r: Self)
        ensures
            r == *self,
    {
        proof {
            use_type_invariant(self);
        }
        OperationKind { text: self.text.clone() }
    }
}

impl OperationKind {
    #[verifier::type_invariant]
    spec fn wf(self) -> bool {
        !is_blank(self.text@)
    }

    /// Takes any text that is not blank.
    pub fn parse(value: &str) -> (r: Result<Self, HandleProblem>)
        ensures
            outcome(r) == (if is_blank(value@) {
                Err::<Seq<char>, Seq<char>>("operation kind 不能为空"@)
            } else {
                Ok(value@)
            }),
    {
        if blank(value) {
            Err(HandleProblem::new("operation kind 不能为空"))
        } else {
            Ok(OperationKind { text: value.to_owned() })
        }
    }

    pub fn as_str(&self) -> (r: &str)
        ensures
            r@ == self@,
            !is_blank(self@),
    {
        proof {
            use_type_invariant(self);
        }
        self.text.as_str()
    }
}

/// What a step's digest is taken of.
pub open spec fn step_digest_json(
    kind: Seq<char>,
    role: StepRole,
    command_type: CommandType,
    target: TargetView,
    expected: Seq<ExpectedView>,
    payload: JsonView,
) -> JsonView {
    JsonView::Object(
        seq![
            ("schema"@, JsonView::Text(OPERATION_STEP_SCHEMA@)),
            ("operation_kind"@, JsonView::Text(kind)),
            ("role"@, JsonView::Text(role.name())),
            ("type"@, JsonView::Text(command_type.name())),
            ("target"@, target_json(target)),
            ("expected"@, JsonView::Array(canonical_expected(expected))),
            ("payload"@, payload),
        ],
    )
}

/// The digest of what a step means.
pub open spec fn step_digest(
    kind: Seq<char>,
    role: StepRole,
    command_type: CommandType,
    target: TargetView,
    expected: Seq<ExpectedView>,
    payload: JsonView,
) -> Seq<char> {
    text_digest(
        canonical_text(step_digest_json(kind, role, command_type, target, expected, payload)),
    )
}

/// The digest of what a step means.
pub fn step_semantic_digest(
    operation_kind: &OperationKind,
    role: StepRole,
    command_type: CommandType,
    target: &CommandTarget,
    expected: &Vec<ExpectedRevision>,
    payload: &Json,
) -> (r: String)
    ensures
        r@ == step_digest(
            operation_kind@,
            role,
            command_type,
            target@,
            expectations(expected@),
            payload@,
        ),
{
    let mut f: Vec<(String, Json)> = fields();
    put(&mut f, "schema", txt(OPERATION_STEP_SCHEMA));
    put(&mut f, "operation_kind", txt(operation_kind.as_str()));
    put(&mut f, "role", txt(role.as_str()));
    put(&mut f, "type", txt(command_type.as_str()));
    put(&mut f, "target", target_value(target));
    put(&mut f, "expected", array(canonical_expected_revisions(expected)));
    put(&mut f, "payload", payload.copy());
    let whole: Json = object(f);
    assert(whole@->Object_0 =~= step_digest_json(
        operation_kind@,
        role,
        command_type,
        target@,
        expectations(expected@),
        payload@,
    )->Object_0);
    digest_text(canonical_json(&whole).as_str())
}

/// A step as it was planned: what it is, where it writes, and the digest of what
/// it means. The payload itself is not kept.
#[derive(Debug)]
pub struct SagaStepPlan {
    pub role: StepRole,
    pub step_id: StepId,
    pub command_type: CommandType,
    pub target: CommandTarget,
    pub expected: Vec<ExpectedRevision>,
    /// The position of the step that this one undoes; none for a forward step.
    pub compensates: Option<usize>,
    semantic_digest: String,
}

/// A step as it was planned, as a value.
pub ghost struct StepPlanView {
    pub role: StepRole,
    pub step_id: Seq<char>,
    pub command_type: CommandType,
    pub target: TargetView,
    pub expected: Seq<ExpectedView>,
    pub compensates: Option<usize>,
    pub semantic_digest: Seq<char>,
}

impl View for SagaStepPlan {
    type V = StepPlanView;

    closed spec fn view(&self) -> StepPlanView {
        StepPlanView {
            role: self.role,
            step_id: self.step_id@,
            command_type: self.command_type,
            target: self.target@,
            expected: expectations(self.expected@),
            compensates: self.compensates,
            semantic_digest: self.semantic_digest@,
        }
    }
}

impl SagaStepPlan {
    /// Plans a step. A payload with a field that announces a credential is
    /// refused.
    pub fn new(
        role: StepRole,
        step_id: StepId,
        command_type: CommandType,
        target: CommandTarget,
        expected: Vec<ExpectedRevision>,
        payload: &Json,
        compensates: Option<usize>,
        operation_kind: &OperationKind,
    ) -> (r: Result<Self, OperationProblem>)
        ensures
            outcome(r) == (if has_sensitive(payload@) {
                Err::<StepPlanView, OperationProblemView>(
                    OperationProblemView::InvalidPlan(
                        "step payload 含凭据或可复用引用(saga payload 不承载明文凭据)"@,
                    ),
                )
            } else {
                Ok(
                    StepPlanView {
                        role,
                        step_id: step_id@,
                        command_type,
                        target: target@,
                        expected: expectations(expected@),
                        compensates,
                        semantic_digest: step_digest(
                            operation_kind@,
                            role,
                            command_type,
                            target@,
                            expectations(expected@),
                            payload@,
                        ),
                    },
                )
            }),
    {
        if value_has_sensitive_field(payload) {
            return Err(
                OperationProblem::InvalidPlan(
                    "step payload 含凭据或可复用引用(saga payload 不承载明文凭据)".to_owned(),
                ),
            );
        }
        let semantic_digest: String = step_semantic_digest(
            operation_kind,
            role,
            command_type,
            &target,
            &expected,
            payload,
        );
        Ok(
            SagaStepPlan {
                role,
                step_id,
                command_type,
                target,
                expected,
                compensates,
                semantic_digest,
            },
        )
    }

    pub fn semantic_digest(&self) -> (r: &str)
        ensures
            r@ == self@.semantic_digest,
    {
        self.semantic_digest.as_str()
    }

    /// What the step is, what it is known by, and which step it undoes.
    pub fn identity(&self) -> (r: (StepRole, &StepId, Option<usize>))
        ensures
            r.0 == self@.role,
            r.1@ == self@.step_id,
            r.2 == self@.compensates,
    {
        (self.role, &self.step_id, self.compensates)
    }

    /// What the step does, where, and what it expects there.
    pub fn task(&self) -> (r: (CommandType, &CommandTarget, &Vec<ExpectedRevision>))
        ensures
            r.0 == self@.command_type,
            r.1@ == self@.target,
            expectations(r.2@) == self@.expected,
    {
        (self.command_type, &self.target, &self.expected)
    }
}

/// The steps of a plan, as values.
pub open spec fn step_plans(v: Seq<SagaStepPlan>) -> Seq<StepPlanView> {
    v.map_values(|s: SagaStepPlan| s@)
}

/// A plan: forward steps run in order; a compensating step names the forward step
/// that it undoes.
#[derive(Debug)]
pub struct OperationPlan {
    pub kind: OperationKind,
    pub steps: Vec<SagaStepPlan>,
}

/// A plan, as a value.
pub ghost struct PlanView {
    pub kind: Seq<char>,
    pub steps: Seq<StepPlanView>,
}

impl View for OperationPlan {
    type V = PlanView;

    open spec fn view(&self) -> PlanView {
        PlanView { kind: self.kind@, steps: step_plans(self.steps@) }
    }
}

/// How many of the steps are forward steps.
pub open spec fn forward_count(steps: Seq<StepPlanView>) -> nat
    decreases steps.len(),
{
    if steps.len() == 0 {
        0
    } else {
        forward_count(steps.drop_last()) + (if steps.last().role is Forward {
            1nat
        } else {
            0nat
        })
    }
}

/// What is wrong with the step at a position, if anything is.
pub open spec fn step_problem(steps: Seq<StepPlanView>, i: int) -> Option<Seq<char>> {
    if exists|k: int| 0 <= k < i && (#[trigger] steps[k]).step_id == steps[i].step_id {
        Some("step_id 重复"@)
    } else {
        match (steps[i].role, steps[i].compensates) {
            (StepRole::Forward, Some(_)) => Some("forward step 不得声明 compensates"@),
            (StepRole::Forward, None) => None,
            (StepRole::Compensate, None) => Some("compensate step 必须声明 compensates"@),
            (StepRole::Compensate, Some(index)) => if index < steps.len()
                && steps[index as int].role is Forward {
                None
            } else {
                Some(
                    "compensates 只能指向 forward step 下标(得到 "@ + decimal_text(index as nat)
                        + ")"@,
                )
            },
        }
    }
}

/// What is wrong with the first step from position `i` on that something is wrong
/// with.
pub open spec fn first_step_problem(steps: Seq<StepPlanView>, i: int) -> Option<Seq<char>>
    decreases steps.len() - i,
{
    if i >= steps.len() {
        None
    } else {
        match step_problem(steps, i) {
            Some(m) => Some(m),
            None => first_step_problem(steps, i + 1),
        }
    }
}

impl PlanView {
    /// Why a plan is refused, if it is.
    pub open spec fn problem(self) -> Option<OperationProblemView> {
        if forward_count(self.steps) == 0 {
            Some(OperationProblemView::InvalidPlan("至少一个 forward step"@))
        } else {
            match first_step_problem(self.steps, 0) {
                Some(m) => Some(OperationProblemView::InvalidPlan(m)),
                None => None,
            }
        }
    }

    /// What the plan is frozen as.
    pub open spec fn frozen(self) -> Seq<char> {
        canonical_text(
            JsonView::Object(
                seq![
                    ("schema"@, JsonView::Text(OPERATION_STEP_SCHEMA@)),
                    ("kind"@, JsonView::Text(self.kind)),
                    (
                        "steps"@,
                        JsonView::Array(self.steps.map_values(|s: StepPlanView| frozen_step(s))),
                    ),
                ],
            ),
        )
    }
}

/// What a step is frozen as.
pub open spec fn frozen_step(s: StepPlanView) -> JsonView {
    JsonView::Object(
        seq![
            ("step_id"@, JsonView::Text(s.step_id)),
            ("role"@, JsonView::Text(s.role.name())),
            ("target_store"@, JsonView::Text(s.target.store_key())),
            ("aggregate_kind"@, JsonView::Text(s.target.aggregate.kind.name())),
            ("aggregate_handle"@, JsonView::Text(s.target.aggregate.handle)),
            ("semantic_digest"@, JsonView::Text(s.semantic_digest)),
            (
                "compensates"@,
                match s.compensates {
                    Some(n) => JsonView::Unsigned(n as nat),
                    None => JsonView::Null,
                },
            ),
        ],
    )
}

fn frozen_step_value(s: &SagaStepPlan) -> (r: Json)
    ensures
        r@ == frozen_step(s@),
{
    let mut f: Vec<(String, Json)> = fields();
    put(&mut f, "step_id", txt(s.step_id.as_str()));
    put(&mut f, "role", txt(s.role.as_str()));
    put(&mut f, "target_store", Json::Text(s.target.store_key()));
    put(&mut f, "aggregate_kind", txt(s.target.aggregate.kind.as_str()));
    put(&mut f, "aggregate_handle", txt(s.target.aggregate.handle.as_str()));
    put(&mut f, "semantic_digest", txt(s.semantic_digest.as_str()));
    put(
        &mut f,
        "compensates",
        match s.compensates {
            Some(n) => Json::Unsigned(n as u64),
            None => Json::Null,
        },
    );
    let out: Json = object(f);
    assert(out@->Object_0 =~= frozen_step(s@)->Object_0);
    out
}

impl OperationPlan {
    fn forward_total(&self) -> (r: usize)
        ensures
            r == forward_count(self@.steps),
    {
        let ghost all = self@.steps;
        let mut n: usize = 0;
        let mut i: usize = 0;
        assert(all.take(0) =~= Seq::<StepPlanView>::empty());
        while i < self.steps.len()
            invariant
                i <= self.steps@.len(),
                all == step_plans(self.steps@),
                n == forward_count(all.take(i as int)),
                n <= i,
            decreases self.steps@.len() - i,
        {
            assert(all.take(i + 1).drop_last() =~= all.take(i as int));
            assert(all[i as int] == self.steps@[i as int]@);
            if self.steps[i].role == StepRole::Forward {
                n = n + 1;
            }
            i = i + 1;
        }
        assert(all.take(self.steps@.len() as int) =~= all);
        n
    }

    fn repeats_id(&self, i: usize) -> (r: bool)
        requires
            i < self.steps@.len(),
        ensures
            r == exists|k: int|
                0 <= k < i && (#[trigger] self@.steps[k]).step_id == self@.steps[i as int].step_id,
    {
        let mut k: usize = 0;
        while k < i
            invariant
                k <= i < self.steps@.len(),
                forall|j: int|
                    0 <= j < k ==> (#[trigger] self@.steps[j]).step_id
                        != self@.steps[i as int].step_id,
            decreases i - k,
        {
            assert(self@.steps[k as int] == self.steps@[k as int]@);
            assert(self@.steps[i as int] == self.steps@[i as int]@);
            if same(self.steps[k].step_id.as_str(), self.steps[i].step_id.as_str()) {
                return true;
            }
            k = k + 1;
        }
        false
    }

    fn step_complaint(&self, i: usize) -> (r: Option<String>)
        requires
            i < self.steps@.len(),
        ensures
            opt_view(r) == step_problem(self@.steps, i as int),
    {
        assert(self@.steps[i as int] == self.steps@[i as int]@);
        if self.repeats_id(i) {
            return Some("step_id 重复".to_owned());
        }
        match (self.steps[i].role, self.steps[i].compensates) {
            (StepRole::Forward, Some(_)) => Some("forward step 不得声明 compensates".to_owned()),
            (StepRole::Forward, None) => None,
            (StepRole::Compensate, None) => Some("compensate step 必须声明 compensates".to_owned()),
            (StepRole::Compensate, Some(index)) => {
                if index < self.steps.len() {
                    assert(self@.steps[index as int] == self.steps@[index as int]@);
                    if self.steps[index].role == StepRole::Forward {
                        return None;
                    }
                }
                Some(
                    cat3(
                        "compensates 只能指向 forward step 下标(得到 ",
                        decimal(index as u64).as_str(),
                        ")",
                    ),
                )
            },
        }
    }

    /// Checks a plan: at least one forward step; no step id twice; a compensating
    /// step, and no other, names a forward step.
    pub fn validate(&self) -> (r: Result<(), OperationProblem>)
        ensures
            outcome(r) == (match self@.problem() {
                Some(p) => Err::<(), OperationProblemView>(p),
                None => Ok(()),
            }),
    {
        if self.forward_total() == 0 {
            return Err(OperationProblem::InvalidPlan("至少一个 forward step".to_owned()));
        }
        let mut i: usize = 0;
        while i < self.steps.len()
            invariant
                i <= self.steps@.len(),
                forward_count(self@.steps) != 0,
                first_step_problem(self@.steps, 0) == first_step_problem(self@.steps, i as int),
            decreases self.steps@.len() - i,
        {
            match self.step_complaint(i) {
                Some(m) => {
                    return Err(OperationProblem::InvalidPlan(m));
                },
                None => {},
            }
            i = i + 1;
        }
        Ok(())
    }

    /// What this plan is frozen as.
    pub fn frozen_json(&self) -> (r: String)
        ensures
            r@ == self@.frozen(),
    {
        let ghost all = self@.steps.map_values(|s: StepPlanView| frozen_step(s));
        let mut list: Vec<Json> = items();
        let mut i: usize = 0;
        assert(all.take(0) =~= Seq::<JsonView>::empty());
        while i < self.steps.len()
            invariant
                i <= self.steps@.len(),
                all == step_plans(self.steps@).map_values(|s: StepPlanView| frozen_step(s)),
                items_view(list@) == all.take(i as int),
            decreases self.steps@.len() - i,
        {
            push_item(&mut list, frozen_step_value(&self.steps[i]));
            assert(step_plans(self.steps@)[i as int] == self.steps@[i as int]@);
            assert(all.take(i + 1) =~= all.take(i as int).push(all[i as int]));
            i = i + 1;
        }
        assert(all.take(self.steps@.len() as int) =~= all);
        let mut f: Vec<(String, Json)> = fields();
        put(&mut f, "schema", txt(OPERATION_STEP_SCHEMA));
        put(&mut f, "kind", txt(self.kind.as_str()));
        put(&mut f, "steps", array(list));
        let whole: Json = object(f);
        assert(whole@->Object_0 =~= seq![
            ("schema"@, JsonView::Text(OPERATION_STEP_SCHEMA@)),
            ("kind"@, JsonView::Text(self.kind@)),
            ("steps"@, JsonView::Array(all)),
        ]);
        canonical_json(&whole)
    }
}

/// What went wrong with an operation, and at which step.
#[derive(Debug, PartialEq, Eq)]
pub struct OperationProblemDetail {
    pub code: String,
    pub step_index: Option<usize>,
}

/// What went wrong with an operation, as a value.
pub ghost struct DetailView {
    pub code: Seq<char>,
    pub step_index: Option<usize>,
}

impl View for OperationProblemDetail {
    type V = DetailView;

    open spec fn view(&self) -> DetailView {
        DetailView { code: self.code@, step_index: self.step_index }
    }
}

/// The view of an optional detail.
pub open spec fn opt_detail(d: Option<OperationProblemDetail>) -> Option<DetailView> {
    match d {
        Some(d) => Some(d@),
        None => None,
    }
}

/// How far an operation came. An operation that was rolled back in full has the
/// outcome `compensated`, one that never began `not_accepted`.
#[derive(Debug, PartialEq, Eq)]
pub struct OperationProgress {
    pub forward_total: usize,
    pub forward_succeeded: usize,
    pub outcome: Option<String>,
    pub problem: Option<OperationProblemDetail>,
}

/// How far an operation came, as a value.
pub ghost struct ProgressView {
    pub forward_total: usize,
    pub forward_succeeded: usize,
    pub outcome: Option<Seq<char>>,
    pub problem: Option<DetailView>,
}

impl View for OperationProgress {
    type V = ProgressView;

    open spec fn view(&self) -> ProgressView {
        ProgressView {
            forward_total: self.forward_total,
            forward_succeeded: self.forward_succeeded,
            outcome: opt_view(self.outcome),
            problem: opt_detail(self.problem),
        }
    }
}

impl OperationProgress {
    /// The progress of an operation that has not begun.
    pub fn initial(forward_total: usize) -> (r: Self)
        ensures
            r@ == (ProgressView {
                forward_total,
                forward_succeeded: 0,
                outcome: None,
                problem: None,
            }),
    {
        OperationProgress { forward_total, forward_succeeded: 0, outcome: None, problem: None }
    }
}

/// A stored step.
#[derive(Debug)]
pub struct StepRecord {
    pub step_index: usize,
    pub role: StepRole,
    pub step_id: StepId,
    pub target_store: String,
    pub aggregate: String,
    pub semantic_digest: String,
    pub expected: Json,
    pub compensates: Option<usize>,
    pub state: StepState,
    pub result: Json,
    pub problem_code: Option<String>,
}

/// A stored step, as a value.
pub ghost struct StepView {
    pub step_index: usize,
    pub role: StepRole,
    pub step_id: Seq<char>,
    pub target_store: Seq<char>,
    pub aggregate: Seq<char>,
    pub semantic_digest: Seq<char>,
    pub expected: JsonView,
    pub compensates: Option<usize>,
    pub state: StepState,
    pub result: JsonView,
    pub problem_code: Option<Seq<char>>,
}

impl View for StepRecord {
    type V = StepView;

    open spec fn view(&self) -> StepView {
        StepView {
            step_index: self.step_index,
            role: self.role,
            step_id: self.step_id@,
            target_store: self.target_store@,
            aggregate: self.aggregate@,
            semantic_digest: self.semantic_digest@,
            expected: self.expected@,
            compensates: self.compensates,
            state: self.state,
            result: self.result@,
            problem_code: opt_view(self.problem_code),
        }
    }
}

/// The stored steps of a list, as values.
pub open spec fn steps_view(v: Seq<StepRecord>) -> Seq<StepView> {
    v.map_values(|s: StepRecord| s@)
}

/// A stored operation.
#[derive(Debug)]
pub struct OperationRecord {
    pub operation_handle: OperationHandle,
    pub command_id: CommandId,
    pub kind: OperationKind,
    pub state: OperationState,
    pub saga_state: String,
    pub progress: OperationProgress,
    pub created_at: String,
    pub updated_at: String,
}

/// A stored operation, as a value.
pub ghost struct RecordView {
    pub operation_handle: Seq<char>,
    pub command_id: Seq<char>,
    pub kind: Seq<char>,
    pub state: OperationState,
    pub saga_state: Seq<char>,
    pub progress: ProgressView,
    pub created_at: Seq<char>,
    pub updated_at: Seq<char>,
}

impl View for OperationRecord {
    type V = RecordView;

    open spec fn view(&self) -> RecordView {
        RecordView {
            operation_handle: self.operation_handle@,
            command_id: self.command_id@,
            kind: self.kind@,
            state: self.state,
            saga_state: self.saga_state@,
            progress: self.progress@,
            created_at: self.created_at@,
            updated_at: self.updated_at@,
        }
    }
}

/// A stored operation with its steps, each at the position it names.
#[derive(Debug)]
pub struct OperationRow {
    pub record: OperationRecord,
    pub steps: Vec<StepRecord>,
}

/// A stored operation with its steps, as a value.
pub ghost struct OperationView {
    pub record: RecordView,
    pub steps: Seq<StepView>,
}

impl View for OperationRow {
    type V = OperationView;

    open spec fn view(&self) -> OperationView {
        OperationView { record: self.record@, steps: steps_view(self.steps@) }
    }
}

/// Whether every step stands at the position it names.
pub open spec fn in_place(steps: Seq<StepView>) -> bool {
    forall|i: int| 0 <= i < steps.len() ==> (#[trigger] steps[i]).step_index == i
}

impl OperationRow {
    /// Whether every step stands at the position it names.
    pub fn is_in_place(&self) -> (r: bool)
        ensures
            r == self@.wf(),
    {
        let ghost all = steps_view(self.steps@);
        let mut i: usize = 0;
        while i < self.steps.len()
            invariant
                i <= self.steps@.len(),
                all == steps_view(self.steps@),
                forall|k: int| 0 <= k < i ==> (#[trigger] all[k]).step_index == k,
            decreases self.steps@.len() - i,
        {
            assert(all[i as int] == self.steps@[i as int]@);
            if self.steps[i].step_index != i {
                return false;
            }
            i = i + 1;
        }
        true
    }
}

impl OperationView {
    pub open spec fn wf(self) -> bool {
        in_place(self.steps)
    }
}

/// The value of a step's result: the given value with its fields in order, or an
/// empty object.
pub open spec fn step_result(result: Option<JsonView>) -> JsonView {
    match result {
        Some(v) => sorted_view(v),
        None => JsonView::Object(Seq::empty()),
    }
}

/// The step with a final state, a code and a result.
pub open spec fn ended_step(
    s: StepView,
    state: StepState,
    code: Option<Seq<char>>,
    result: Option<JsonView>,
) -> StepView {
    StepView { state, problem_code: code, result: step_result(result), ..s }
}

/// The operation with a step at its end: only a pending step changes; the same
/// end once more is accepted, another one is refused.
pub open spec fn finish_step_view(
    op: OperationView,
    index: int,
    state: StepState,
    code: Option<Seq<char>>,
    result: Option<JsonView>,
) -> Result<OperationView, OperationProblemView> {
    if index >= op.steps.len() {
        Err(OperationProblemView::Internal("operation_step 行消失"@))
    } else if op.steps[index].state is Pending {
        Ok(
            OperationView {
                steps: op.steps.update(index, ended_step(op.steps[index], state, code, result)),
                ..op
            },
        )
    } else if op.steps[index].state == state && op.steps[index].problem_code == code {
        Ok(op)
    } else {
        Err(
            OperationProblemView::Internal(
                "step "@ + decimal_text(index as nat) + " 终态冲突:current="@
                    + op.steps[index].state.name() + " attempted="@ + state.name(),
            ),
        )
    }
}

/// Gives a step its end.
pub fn finish_step(
    op: &mut OperationRow,
    index: usize,
    state: StepState,
    problem_code: Option<String>,
    result: Option<&Json>,
) -> (r: Result<(), OperationProblem>)
    ensures
        match finish_step_view(
            old(op)@,
            index as int,
            state,
            opt_view(problem_code),
            match result {
                Some(v) => Some(v@),
                None => None,
            },
        ) {
            Ok(after) => r is Ok && final(op)@ == after,
            Err(p) => r matches Err(e) && e@ == p && *final(op) == *old(op),
        },
{
    if index >= op.steps.len() {
        return Err(OperationProblem::Internal("operation_step 行消失".to_owned()));
    }
    assert(op@.steps[index as int] == op.steps@[index as int]@);
    if op.steps[index].state == StepState::Pending {
        let kept: Json = match result {
            Some(v) => sorted_json(v),
            None => object(fields()),
        };
        let ghost before = op@;
        let s: &StepRecord = &op.steps[index];
        let ended: StepRecord = StepRecord {
            step_index: s.step_index,
            role: s.role,
            step_id: s.step_id.clone(),
            target_store: s.target_store.clone(),
            aggregate: s.aggregate.clone(),
            semantic_digest: s.semantic_digest.clone(),
            expected: s.expected.copy(),
            compensates: s.compensates,
            state,
            result: kept,
            problem_code,
        };
        op.steps.set(index, ended);
        assert(op@.steps =~= before.steps.update(index as int, ended@));
        return Ok(());
    }
    if op.steps[index].state == state && same_opt(&op.steps[index].problem_code, &problem_code) {
        Ok(())
    } else {
        let mut m: String = cat3("step ", decimal(index as u64).as_str(), " 终态冲突:current=");
        m.append(op.steps[index].state.as_str());
        m.append(" attempted=");
        m.append(state.as_str());
        Err(OperationProblem::Internal(m))
    }
}

/// The position of the first step that undoes the step `forward`.
pub open spec fn undone_by(steps: Seq<StepView>, forward: usize, from: int) -> Option<int>
    decreases steps.len() - from,
{
    if from >= steps.len() {
        None
    } else if steps[from].role is Compensate && steps[from].compensates == Some(forward) {
        Some(from)
    } else {
        undone_by(steps, forward, from + 1)
    }
}

/// Whether every forward step took effect.
pub open spec fn all_forward_done(steps: Seq<StepView>) -> bool {
    forall|i: int|
        0 <= i < steps.len() && (#[trigger] steps[i]).role is Forward ==> steps[i].state is Succeeded
}

/// What has to be undone, as a value: the steps that undo what took effect, the
/// first of them that failed, and the last effect that nothing undoes.
pub ghost struct OpenView {
    pub needed: Seq<usize>,
    pub failed: Option<usize>,
    pub missing: Option<usize>,
}

/// What has to be undone of the first `n` steps.
pub open spec fn open_of(steps: Seq<StepView>, n: int) -> OpenView
    decreases n,
{
    if n <= 0 {
        OpenView { needed: Seq::empty(), failed: None, missing: None }
    } else {
        let before = open_of(steps, n - 1);
        let s = steps[n - 1];
        if !(s.role is Forward && s.state is Succeeded) {
            before
        } else {
            match undone_by(steps, s.step_index, 0) {
                None => OpenView { missing: Some(s.step_index), ..before },
                Some(c) => OpenView {
                    needed: before.needed.push(steps[c].step_index),
                    failed: if steps[c].state is Failed && before.failed is None {
                        Some(steps[c].step_index)
                    } else {
                        before.failed
                    },
                    ..before
                },
            }
        }
    }
}

/// What the stored steps of an operation ask for.
#[derive(Debug)]
pub enum SagaDecision {
    /// Every forward step took effect.
    Complete,
    /// Something took effect that has to be undone.
    CompensationOpen { needed: Vec<usize>, failed: Option<usize>, missing: Option<usize> },
}

/// What the stored steps of an operation ask for, as a value.
pub ghost enum DecisionView {
    Complete,
    Open(OpenView),
}

impl View for SagaDecision {
    type V = DecisionView;

    open spec fn view(&self) -> DecisionView {
        match *self {
            SagaDecision::Complete => DecisionView::Complete,
            SagaDecision::CompensationOpen { needed, failed, missing } => DecisionView::Open(
                OpenView { needed: needed@, failed, missing },
            ),
        }
    }
}

/// What the stored steps of an operation ask for.
pub open spec fn saga_decision(steps: Seq<StepView>) -> DecisionView {
    if all_forward_done(steps) {
        DecisionView::Complete
    } else {
        DecisionView::Open(open_of(steps, steps.len() as int))
    }
}

fn find_undoing(steps: &Vec<StepRecord>, forward: usize) -> (r: Option<usize>)
    ensures
        match r {
            Some(c) => undone_by(steps_view(steps@), forward, 0) == Some(c as int) && c
                < steps@.len(),
            None => undone_by(steps_view(steps@), forward, 0) is None,
        },
{
    let ghost all = steps_view(steps@);
    let mut i: usize = 0;
    while i < steps.len()
        invariant
            i <= steps@.len(),
            all == steps_view(steps@),
            undone_by(all, forward, 0) == undone_by(all, forward, i as int),
        decreases steps@.len() - i,
    {
        assert(all[i as int] == steps@[i as int]@);
        if steps[i].role == StepRole::Compensate && steps[i].compensates == Some(forward) {
            return Some(i);
        }
        i = i + 1;
    }
    None
}

/// Decides by the stored steps alone what an operation asks for.
pub fn decide_saga(steps: &Vec<StepRecord>) -> (r: SagaDecision)
    ensures
        r@ == saga_decision(steps_view(steps@)),
{
    let ghost all = steps_view(steps@);
    let mut done: bool = true;
    let mut k: usize = 0;
    while k < steps.len()
        invariant
            k <= steps@.len(),
            all == steps_view(steps@),
            done == forall|i: int|
                0 <= i < k && (#[trigger] all[i]).role is Forward ==> all[i].state is Succeeded,
        decreases steps@.len() - k,
    {
        assert(all[k as int] == steps@[k as int]@);
        if steps[k].role == StepRole::Forward && steps[k].state != StepState::Succeeded {
            done = false;
        }
        k = k + 1;
    }
    if done {
        return SagaDecision::Complete;
    }
    let mut needed: Vec<usize> = Vec::new();
    let mut failed: Option<usize> = None;
    let mut missing: Option<usize> = None;
    let mut i: usize = 0;
    while i < steps.len()
        invariant
            i <= steps@.len(),
            all == steps_view(steps@),
            open_of(all, i as int) == (OpenView { needed: needed@, failed, missing }),
        decreases steps@.len() - i,
    {
        assert(all[i as int] == steps@[i as int]@);
        if steps[i].role == StepRole::Forward && steps[i].state == StepState::Succeeded {
            match find_undoing(steps, steps[i].step_index) {
                None => {
                    missing = Some(steps[i].step_index);
                },
                Some(c) => {
                    assert(all[c as int] == steps@[c as int]@);
                    needed.push(steps[c].step_index);
                    if steps[c].state == StepState::Failed && failed.is_none() {
                        failed = Some(steps[c].step_index);
                    }
                },
            }
        }
        i = i + 1;
    }
    SagaDecision::CompensationOpen { needed, failed, missing }
}

/// How an operation ended.
#[derive(Debug, PartialEq, Eq)]
pub enum OperationOutcome {
    /// Done; with `compensated`, the goal was missed and everything undone.
    Completed { compensated: bool },
    /// It cannot be undone without the user.
    NeedsYou { problem_code: String },
    /// It never began.
    NotAccepted { problem_code: String },
}

/// How an operation ended, as a value.
pub ghost enum EndView {
    Completed { compensated: bool },
    NeedsYou { problem_code: Seq<char> },
    NotAccepted { problem_code: Seq<char> },
}

impl View for OperationOutcome {
    type V = EndView;

    open spec fn view(&self) -> EndView {
        match *self {
            OperationOutcome::Completed { compensated } => EndView::Completed { compensated },
            OperationOutcome::NeedsYou { problem_code } => EndView::NeedsYou {
                problem_code: problem_code@,
            },
            OperationOutcome::NotAccepted { problem_code } => EndView::NotAccepted {
                problem_code: problem_code@,
            },
        }
    }
}

/// The end that an operation is given.
#[derive(Debug)]
pub enum TerminalKind {
    Completed,
    CompletedCompensated,
    NeedsYou { code: &'static str, step_index: Option<usize> },
    RejectedBeforeAccept {
        intent_state: IntentState,
        intent_code: Option<String>,
        problem_code: String,
    },
}

/// The end that an operation is given, as a value.
pub ghost enum TerminalView {
    Completed,
    CompletedCompensated,
    NeedsYou { code: Seq<char>, step_index: Option<usize> },
    RejectedBeforeAccept {
        intent_state: IntentState,
        intent_code: Option<Seq<char>>,
        problem_code: Seq<char>,
    },
}

impl View for TerminalKind {
    type V = TerminalView;

    open spec fn view(&self) -> TerminalView {
        match *self {
            TerminalKind::Completed => TerminalView::Completed,
            TerminalKind::CompletedCompensated => TerminalView::CompletedCompensated,
            TerminalKind::NeedsYou { code, step_index } => TerminalView::NeedsYou {
                code: code@,
                step_index,
            },
            TerminalKind::RejectedBeforeAccept { intent_state, intent_code, problem_code } =>
                TerminalView::RejectedBeforeAccept {
                    intent_state,
                    intent_code: opt_view(intent_code),
                    problem_code: problem_code@,
                },
        }
    }
}

impl TerminalView {
    /// The state that the operation takes.
    pub open spec fn state(self) -> OperationState {
        match self {
            TerminalView::NeedsYou { .. } => OperationState::NeedsYou,
            _ => OperationState::Completed,
        }
    }

    /// The state that the intent takes. Only a task that is done counts as applied.
    pub open spec fn intent_state(self) -> IntentState {
        match self {
            TerminalView::Completed => IntentState::Applied,
            TerminalView::CompletedCompensated => IntentState::Failed,
            TerminalView::NeedsYou { .. } => IntentState::Failed,
            TerminalView::RejectedBeforeAccept { intent_state, .. } => intent_state,
        }
    }

    /// The code that the intent takes.
    pub open spec fn intent_code(self) -> Option<Seq<char>> {
        match self {
            TerminalView::Completed => None,
            TerminalView::CompletedCompensated => Some(CODE_OPERATION_COMPENSATED@),
            TerminalView::NeedsYou { code, .. } => Some(code),
            TerminalView::RejectedBeforeAccept { intent_code, .. } => intent_code,
        }
    }

    /// How the operation ended.
    pub open spec fn end(self) -> EndView {
        match self {
            TerminalView::Completed => EndView::Completed { compensated: false },
            TerminalView::CompletedCompensated => EndView::Completed { compensated: true },
            TerminalView::NeedsYou { code, .. } => EndView::NeedsYou { problem_code: code },
            TerminalView::RejectedBeforeAccept { problem_code, .. } => EndView::NotAccepted {
                problem_code,
            },
        }
    }

    /// The progress that the operation ends with.
    pub open spec fn progress(self, before: ProgressView, succeeded: usize) -> ProgressView {
        let counted = ProgressView { forward_succeeded: succeeded, ..before };
        match self {
            TerminalView::Completed => counted,
            TerminalView::CompletedCompensated => ProgressView {
                outcome: Some("compensated"@),
                ..counted
            },
            TerminalView::NeedsYou { code, step_index } => ProgressView {
                problem: Some(DetailView { code, step_index }),
                ..counted
            },
            TerminalView::RejectedBeforeAccept { problem_code, .. } => ProgressView {
                outcome: Some("not_accepted"@),
                problem: Some(DetailView { code: problem_code, step_index: None }),
                ..counted
            },
        }
    }
}

/// How many forward steps took effect.
pub open spec fn succeeded_count(steps: Seq<StepView>) -> nat
    decreases steps.len(),
{
    if steps.len() == 0 {
        0
    } else {
        succeeded_count(steps.drop_last()) + (if steps.last().role is Forward
            && steps.last().state is Succeeded {
            1nat
        } else {
            0nat
        })
    }
}

fn count_succeeded(steps: &Vec<StepRecord>) -> (r: usize)
    ensures
        r == succeeded_count(steps_view(steps@)),
{
    let ghost all = steps_view(steps@);
    let mut n: usize = 0;
    let mut i: usize = 0;
    assert(all.take(0) =~= Seq::<StepView>::empty());
    while i < steps.len()
        invariant
            i <= steps@.len(),
            all == steps_view(steps@),
            n == succeeded_count(all.take(i as int)),
            n <= i,
        decreases steps@.len() - i,
    {
        assert(all.take(i + 1).drop_last() =~= all.take(i as int));
        assert(all[i as int] == steps@[i as int]@);
        if steps[i].role == StepRole::Forward && steps[i].state == StepState::Succeeded {
            n = n + 1;
        }
        i = i + 1;
    }
    assert(all.take(steps@.len() as int) =~= all);
    n
}

/// The operation at its end, and the intents: an operation that is at an end keeps
/// it, and the same end once more is accepted. Where this is refused, nothing
/// changes.
pub open spec fn finalize_view(
    op: OperationView,
    intents: Intents,
    kind: TerminalView,
    now: Seq<char>,
) -> Result<(OperationView, Intents), OperationProblemView> {
    if op.record.state.terminal() {
        if op.record.state == kind.state() {
            Ok((op, intents))
        } else {
            Err(
                OperationProblemView::StateConflict(
                    "operation 终态化冲突:current="@ + op.record.state.name() + " attempted="@
                        + kind.state().name(),
                ),
            )
        }
    } else {
        let (after, done) = finish_intent_view(
            intents,
            op.record.command_id,
            kind.intent_state(),
            kind.intent_code(),
            now,
        );
        match done {
            Err(p) => Err(OperationProblemView::Internal(p.message())),
            Ok(_) => Ok(
                (
                    OperationView {
                        record: RecordView {
                            state: kind.state(),
                            progress: kind.progress(
                                op.record.progress,
                                succeeded_count(op.steps) as usize,
                            ),
                            updated_at: now,
                            ..op.record
                        },
                        ..op
                    },
                    after,
                ),
            ),
        }
    }
}

/// Gives an operation its end.
pub fn finalize_operation(
    op: &mut OperationRow,
    intents: &mut Table<IntentRow>,
    kind: &TerminalKind,
    now: &str,
) -> (r: Result<(), OperationProblem>)
    requires
        old(intents).wf(),
    ensures
        final(intents).wf(),
        match finalize_view(old(op)@, old(intents)@, kind@, now@) {
            Ok((row, after)) => r is Ok && final(op)@ == row && final(intents)@ == after,
            Err(p) => r matches Err(e) && e@ == p && final(op)@ == old(op)@ && final(intents)@
                == old(intents)@,
        },
{
    let state: OperationState = match kind {
        TerminalKind::NeedsYou { .. } => OperationState::NeedsYou,
        _ => OperationState::Completed,
    };
    if op.record.state.is_terminal() {
        if op.record.state == state {
            return Ok(());
        }
        let mut m: String = cat("operation 终态化冲突:current=", op.record.state.as_str());
        m.append(" attempted=");
        m.append(state.as_str());
        return Err(OperationProblem::StateConflict(m));
    }
    let intent_state: IntentState = match kind {
        TerminalKind::Completed => IntentState::Applied,
        TerminalKind::CompletedCompensated => IntentState::Failed,
        TerminalKind::NeedsYou { .. } => IntentState::Failed,
        TerminalKind::RejectedBeforeAccept { intent_state, .. } => *intent_state,
    };
    let intent_code: Option<String> = match kind {
        TerminalKind::Completed => None,
        TerminalKind::CompletedCompensated => Some(CODE_OPERATION_COMPENSATED.to_owned()),
        TerminalKind::NeedsYou { code, .. } => Some((*code).to_owned()),
        TerminalKind::RejectedBeforeAccept { intent_code, .. } => copy_opt(intent_code),
    };
    match finish_intent(intents, op.record.command_id.as_str(), intent_state, intent_code, now) {
        Ok(_) => {},
        Err(p) => {
            return Err(OperationProblem::Internal(p.message()));
        },
    }
    let succeeded: usize = count_succeeded(&op.steps);
    op.record.state = state;
    op.record.updated_at = now.to_owned();
    op.record.progress.forward_succeeded = succeeded;
    match kind {
        TerminalKind::Completed => {},
        TerminalKind::CompletedCompensated => {
            op.record.progress.outcome = Some("compensated".to_owned());
        },
        TerminalKind::NeedsYou { code, step_index } => {
            op.record.progress.problem = Some(
                OperationProblemDetail { code: (*code).to_owned(), step_index: *step_index },
            );
        },
        TerminalKind::RejectedBeforeAccept { problem_code, .. } => {
            op.record.progress.outcome = Some("not_accepted".to_owned());
            op.record.progress.problem = Some(
                OperationProblemDetail { code: problem_code.clone(), step_index: None },
            );
        },
    }
    Ok(())
}

/// The position of the first target with that key, from `from` on.
pub open spec fn target_at(targets: Seq<TargetTables>, key: Seq<char>, from: int) -> Option<int>
    decreases targets.len() - from,
{
    if from >= targets.len() {
        None
    } else if targets[from].store_key == key {
        Some(from)
    } else {
        target_at(targets, key, from + 1)
    }
}

/// A target that is found stands behind where the search began, and has the key.
pub proof fn lemma_target_at(targets: Seq<TargetTables>, key: Seq<char>, from: int)
    requires
        0 <= from,
    ensures
        target_at(targets, key, from) matches Some(at) ==> from <= at < targets.len()
            && targets[at].store_key == key,
    decreases targets.len() - from,
{
    if from < targets.len() && targets[from].store_key != key {
        lemma_target_at(targets, key, from + 1);
    }
}

/// The targets of a list, as values.
pub open spec fn tables(v: Seq<TargetDatabase>) -> Seq<TargetTables> {
    v.map_values(|t: TargetDatabase| t@)
}

/// Every target of a list is well formed.
pub open spec fn targets_wf(v: Seq<TargetDatabase>) -> bool {
    forall|i: int| 0 <= i < v.len() ==> (#[trigger] v[i]).wf()
}

/// Finds the target with that key.
pub fn find_target(targets: &Vec<TargetDatabase>, key: &str) -> (r: Option<usize>)
    ensures
        match r {
            Some(i) => target_at(tables(targets@), key@, 0) == Some(i as int) && i < targets@.len(),
            None => target_at(tables(targets@), key@, 0) is None,
        },
{
    let ghost all = tables(targets@);
    let mut i: usize = 0;
    while i < targets.len()
        invariant
            i <= targets@.len(),
            all == tables(targets@),
            target_at(all, key@, 0) == target_at(all, key@, i as int),
        decreases targets@.len() - i,
    {
        assert(all[i as int] == targets@[i as int]@);
        if same(targets[i].store_key(), key) {
            return Some(i);
        }
        i = i + 1;
    }
    None
}

/// Where a crash of an operation's run can be simulated.
#[derive(Debug, Clone, Copy, PartialEq, Eq, Structural)]
pub enum OperationFaultPoint {
    /// Behind the target's commit of a step, before the step is marked.
    AfterStepTargetCommit(usize),
    /// Behind the mark of a step.
    AfterStepFinalized(usize),
    /// Behind the mark that compensation began.
    AfterCompensating,
    /// Behind the end of the operation.
    AfterOperationFinalized,
}

/// Where a crash of an operation's acceptance can be simulated.
#[derive(Debug, Clone, Copy, PartialEq, Eq, Structural)]
pub enum OperationAcceptFaultPoint {
    /// Behind the reservation, before the target knows of it.
    AfterIntentReserve,
    /// Behind the target's commit of the acceptance.
    AfterTargetCommit,
}

/// The result under which a target keeps the acceptance of an operation.
pub open spec fn acceptance_json(handle: Seq<char>) -> JsonView {
    JsonView::Object(seq![("operation_handle"@, JsonView::Text(handle))])
}

/// The handle that a target's receipt proves to be accepted.
pub open spec fn acceptance_view(
    receipts: Receipts,
    id: Seq<char>,
    digest: Seq<char>,
    aggregate: Seq<char>,
) -> Result<Option<Seq<char>>, ProblemView> {
    match receipt_result(receipts, id, digest, aggregate) {
        Err(p) => Err(p),
        Ok(None) => Ok(None),
        Ok(Some(v)) => match as_text_view(field_of(v, "operation_handle"@)) {
            None => Err(ProblemView::Internal("acceptance receipt 缺少 operation_handle"@)),
            Some(raw) => match operation_handle_of(raw) {
                Ok(handle) => Ok(Some(handle)),
                Err(m) => Err(ProblemView::Internal(m)),
            },
        },
    }
}

/// The handle that a target's receipt proves to be accepted.
pub fn acceptance_receipt(
    target: &TargetDatabase,
    command_id: &str,
    semantic_digest: &str,
    aggregate_handle: &str,
) -> (r: Result<Option<OperationHandle>, CommandProblem>)
    requires
        target.wf(),
    ensures
        found(r) == acceptance_view(
            target@.receipts,
            command_id@,
            semantic_digest@,
            aggregate_handle@,
        ),
{
    match target.receipt(command_id, semantic_digest, aggregate_handle) {
        Err(p) => Err(p),
        Ok(None) => Ok(None),
        Ok(Some(v)) => match v.get_str("operation_handle") {
            None => Err(CommandProblem::internal("acceptance receipt 缺少 operation_handle")),
            Some(raw) => match OperationHandle::parse(raw) {
                Ok(handle) => Ok(Some(handle)),
                Err(p) => Err(CommandProblem::internal(p.message())),
            },
        },
    }
}

/// The step as it is stored when its operation is accepted.
pub open spec fn planned_step(s: StepPlanView, i: int) -> StepView {
    StepView {
        step_index: i as usize,
        role: s.role,
        step_id: s.step_id,
        target_store: s.target.store_key(),
        aggregate: s.target.aggregate.handle,
        semantic_digest: s.semantic_digest,
        expected: sorted_view(JsonView::Array(canonical_expected(s.expected))),
        compensates: s.compensates,
        state: StepState::Pending,
        result: JsonView::Object(Seq::empty()),
        problem_code: None,
    }
}

/// The operation as it is stored when it is accepted.
pub open spec fn planned_operation(
    e: EnvelopeView,
    plan: PlanView,
    handle: Seq<char>,
    now: Seq<char>,
) -> OperationView {
    OperationView {
        record: RecordView {
            operation_handle: handle,
            command_id: e.command_id,
            kind: plan.kind,
            state: OperationState::Accepted,
            saga_state: plan.frozen(),
            progress: ProgressView {
                forward_total: forward_count(plan.steps) as usize,
                forward_succeeded: 0,
                outcome: None,
                problem: None,
            },
            created_at: now,
            updated_at: now,
        },
        steps: Seq::new(plan.steps.len(), |i: int| planned_step(plan.steps[i], i)),
    }
}

fn plan_operation(
    envelope: &CommandEnvelope,
    plan: &OperationPlan,
    handle: &OperationHandle,
    now: &str,
) -> (r: OperationRow)
    ensures
        r@ == planned_operation(envelope@, plan@, handle@, now@),
        r@.wf(),
{
    let ghost want = planned_operation(envelope@, plan@, handle@, now@).steps;
    let mut steps: Vec<StepRecord> = Vec::new();
    let mut i: usize = 0;
    assert(want.take(0) =~= steps_view(steps@));
    while i < plan.steps.len()
        invariant
            i <= plan.steps@.len(),
            want == planned_operation(envelope@, plan@, handle@, now@).steps,
            steps_view(steps@) == want.take(i as int),
        decreases plan.steps@.len() - i,
    {
        let s: &SagaStepPlan = &plan.steps[i];
        let record: StepRecord = StepRecord {
            step_index: i,
            role: s.role,
            step_id: s.step_id.clone(),
            target_store: s.target.store_key(),
            aggregate: s.target.aggregate.handle.clone(),
            semantic_digest: s.semantic_digest.clone(),
            expected: sorted_json(&array(canonical_expected_revisions(&s.expected))),
            compensates: s.compensates,
            state: StepState::Pending,
            result: object(fields()),
            problem_code: None,
        };
        assert(plan@.steps[i as int] == s@);
        assert(record@ == want[i as int]);
        let ghost before = steps@;
        steps.push(record);
        assert(steps_view(steps@) =~= steps_view(before).push(record@));
        assert(want.take(i + 1) =~= want.take(i as int).push(want[i as int]));
        i = i + 1;
    }
    assert(want.take(plan.steps@.len() as int) =~= want);
    OperationRow {
        record: OperationRecord {
            operation_handle: handle.clone(),
            command_id: envelope.command_id().clone(),
            kind: plan.kind.clone(),
            state: OperationState::Accepted,
            saga_state: plan.frozen_json(),
            progress: OperationProgress::initial(plan.forward_total()),
            created_at: now.to_owned(),
            updated_at: now.to_owned(),
        },
        steps,
    }
}

/// The final state that a refusal gives an operation that was not accepted yet.
pub open spec fn rejection_state(p: ProblemView) -> Option<IntentState> {
    match p {
        ProblemView::ControllerLeaseExpired | ProblemView::RootEpochExpired => Some(
            IntentState::Revoked,
        ),
        ProblemView::RevisionConflict
        | ProblemView::InvalidEnvelope(_)
        | ProblemView::CommandIdReused => Some(IntentState::Failed),
        _ => None,
    }
}

fn state_of_rejection(p: &CommandProblem) -> (r: Option<IntentState>)
    ensures
        r == rejection_state(p@),
{
    match p {
        CommandProblem::ControllerLeaseExpired => Some(IntentState::Revoked),
        CommandProblem::RootEpochExpired => Some(IntentState::Revoked),
        CommandProblem::RevisionConflict => Some(IntentState::Failed),
        CommandProblem::InvalidEnvelope(_) => Some(IntentState::Failed),
        CommandProblem::CommandIdReused => Some(IntentState::Failed),
        _ => None,
    }
}

/// The steps with every pending one revoked under a code.
pub open spec fn revoked_steps(steps: Seq<StepView>, code: Seq<char>) -> Seq<StepView> {
    steps.map_values(
        |s: StepView|
            if s.state is Pending {
                ended_step(s, StepState::Revoked, Some(code), None)
            } else {
                s
            },
    )
}

/// The operation and the intents once an operation was turned away: what is
/// pending is revoked, and the operation ends as not accepted.
pub open spec fn reject_view(
    op: OperationView,
    intents: Intents,
    intent_state: IntentState,
    intent_code: Option<Seq<char>>,
    code: Seq<char>,
    now: Seq<char>,
) -> Result<(OperationView, Intents), OperationProblemView> {
    finalize_view(
        OperationView { steps: revoked_steps(op.steps, code), ..op },
        intents,
        TerminalView::RejectedBeforeAccept { intent_state, intent_code, problem_code: code },
        now,
    )
}

fn copy_steps(v: &Vec<StepRecord>) -> (r: Vec<StepRecord>)
    ensures
        steps_view(r@) == steps_view(v@),
{
    let mut out: Vec<StepRecord> = Vec::new();
    let mut i: usize = 0;
    assert(steps_view(out@) =~= steps_view(v@).take(0));
    while i < v.len()
        invariant
            i <= v@.len(),
            steps_view(out@) == steps_view(v@).take(i as int),
        decreases v@.len() - i,
    {
        let s: &StepRecord = &v[i];
        let copy: StepRecord = StepRecord {
            step_index: s.step_index,
            role: s.role,
            step_id: s.step_id.clone(),
            target_store: s.target_store.clone(),
            aggregate: s.aggregate.clone(),
            semantic_digest: s.semantic_digest.clone(),
            expected: s.expected.copy(),
            compensates: s.compensates,
            state: s.state,
            result: s.result.copy(),
            problem_code: copy_opt(&s.problem_code),
        };
        let ghost before = out@;
        out.push(copy);
        assert(steps_view(out@) =~= steps_view(before).push(copy@));
        assert(steps_view(v@).take(i + 1) =~= steps_view(v@).take(i as int).push(
            steps_view(v@)[i as int],
        ));
        i = i + 1;
    }
    assert(steps_view(v@).take(v@.len() as int) =~= steps_view(v@));
    out
}

fn revoke_pending(op: &mut OperationRow, code: &str)
    ensures
        final(op)@ == (OperationView { steps: revoked_steps(old(op)@.steps, code@), ..old(op)@ }),
{
    let ghost all = op@.steps;
    let ghost want = revoked_steps(all, code@);
    let n: usize = op.steps.len();
    let mut i: usize = 0;
    assert(op@.steps =~= want.take(0) + all.skip(0));
    while i < n
        invariant
            i <= n,
            n == all.len(),
            all == old(op)@.steps,
            want == revoked_steps(all, code@),
            op.steps@.len() == n,
            op@ == (OperationView { steps: want.take(i as int) + all.skip(i as int), ..old(op)@ }),
        decreases n - i,
    {
        assert(op@.steps[i as int] == all[i as int]);
        assert(op@.steps[i as int] == op.steps@[i as int]@);
        let ghost before = op@;
        if op.steps[i].state == StepState::Pending {
            let done = finish_step(op, i, StepState::Revoked, Some(code.to_owned()), None);
            assert(done is Ok);
        }
        assert(op@.steps =~= want.take(i + 1) + all.skip(i + 1));
        assert(op@.steps.len() == n);
        i = i + 1;
    }
    assert(want.take(n as int) + all.skip(n as int) =~= want);
}

fn reject_operation(
    op: &mut OperationRow,
    intents: &mut Table<IntentRow>,
    intent_state: IntentState,
    intent_code: Option<String>,
    code: &str,
    now: &str,
) -> (r: Result<(), OperationProblem>)
    requires
        old(intents).wf(),
    ensures
        final(intents).wf(),
        match reject_view(
            old(op)@,
            old(intents)@,
            intent_state,
            opt_view(intent_code),
            code@,
            now@,
        ) {
            Ok((row, after)) => r is Ok && final(op)@ == row && final(intents)@ == after,
            Err(p) => r matches Err(e) && e@ == p && final(op)@ == old(op)@ && final(intents)@
                == old(intents)@,
        },
{
    let kept: Vec<StepRecord> = copy_steps(&op.steps);
    revoke_pending(op, code);
    let kind: TerminalKind = TerminalKind::RejectedBeforeAccept {
        intent_state,
        intent_code,
        problem_code: code.to_owned(),
    };
    match finalize_operation(op, intents, &kind, now) {
        Ok(_) => Ok(()),
        Err(p) => {
            op.steps = kept;
            Err(p)
        },
    }
}

/// What an intent that is not reserved stands in the way of an acceptance with.
pub open spec fn prior_problem(row: IntentView) -> Option<ProblemView> {
    match row.state {
        IntentState::Reserved => None,
        IntentState::Applied => Some(
            ProblemView::Internal("terminal applied intent 缺少 acceptance receipt"@),
        ),
        IntentState::Cancelled => Some(ProblemView::PreviousCommandCancelled),
        _ => Some(ended_problem(row)),
    }
}

fn problem_of_prior(row: &IntentRow) -> (r: Option<CommandProblem>)
    ensures
        match r {
            Some(p) => prior_problem(row@) == Some(p@),
            None => prior_problem(row@) is None,
        },
{
    let coded: Option<CommandProblem> = match &row.problem_code {
        Some(code) => problem_for_terminal_code(code.as_str()),
        None => None,
    };
    match row.state {
        IntentState::Reserved => None,
        IntentState::Applied => Some(
            CommandProblem::internal("terminal applied intent 缺少 acceptance receipt"),
        ),
        IntentState::Cancelled => Some(CommandProblem::PreviousCommandCancelled),
        IntentState::Failed => match coded {
            Some(p) => Some(p),
            None => Some(CommandProblem::PreviousCommandFailed),
        },
        IntentState::Revoked => match coded {
            Some(p) => Some(p),
            None => Some(CommandProblem::ControllerLeaseExpired),
        },
    }
}

/// The event that tells of an acceptance, before its fields are put in order.
pub open spec fn acceptance_event(e: EnvelopeView, handle: Seq<char>) -> JsonView {
    JsonView::Object(
        seq![
            ("type"@, JsonView::Text(e.command_type.name() + ".accepted"@)),
            ("aggregate"@, aggregate_json(e.target.aggregate)),
            ("caused_by_command_id"@, JsonView::Text(e.command_id)),
            ("operation"@, JsonView::Object(seq![("handle"@, JsonView::Text(handle))])),
        ],
    )
}

/// The target's part of an acceptance: the lease, then the receipt that may be
/// there, then what stands in the way, then the expected revisions.
pub open spec fn accept_target_view(
    t: TargetTables,
    e: EnvelopeView,
    digest: Seq<char>,
    handle: Seq<char>,
    prior: Option<ProblemView>,
    admission: Result<(), ProblemView>,
    expectation: Result<(), ProblemView>,
    now: Seq<char>,
) -> (TargetTables, Result<(), ProblemView>) {
    match (
        admission,
        acceptance_view(t.receipts, e.command_id, digest, e.target.aggregate.handle),
        prior,
        expectation,
    ) {
        (Err(p), _, _, _) => (t, Err(p)),
        (Ok(_), Err(p), _, _) => (t, Err(p)),
        (Ok(_), Ok(Some(known)), _, _) => if known == handle {
            (t, Ok(()))
        } else {
            (t, Err(ProblemView::CommandIdReused))
        },
        (Ok(_), Ok(None), Some(p), _) => (t, Err(p)),
        (Ok(_), Ok(None), None, Err(p)) => (t, Err(p)),
        (Ok(_), Ok(None), None, Ok(_)) => (
            TargetTables {
                receipts: t.receipts.insert(
                    e.command_id,
                    ReceiptView {
                        command_id: e.command_id,
                        semantic_digest: digest,
                        aggregate_handle: e.target.aggregate.handle,
                        result: sorted_view(acceptance_json(handle)),
                        state: "applied"@,
                        created_at: now,
                        finalized_at: Some(now),
                    },
                ),
                outbox: t.outbox.push(
                    OutboxView {
                        event: sorted_view(acceptance_event(e, handle)),
                        published_at: None,
                    },
                ),
                ..t
            },
            Ok(()),
        ),
    }
}

/// Reserving an operation: the intents and the operation afterwards. `op` is the
/// operation that is stored for the command, if there is one.
pub open spec fn accept_reserve_view(
    intents: Intents,
    op: Option<OperationView>,
    e: EnvelopeView,
    digest: Seq<char>,
    plan: PlanView,
    fresh: Seq<char>,
    now: Seq<char>,
) -> Result<(Intents, OperationView), OperationProblemView> {
    match op {
        Some(known) => if !intents.contains_key(e.command_id) {
            Err(OperationProblemView::Internal("operation intent 消失"@))
        } else if known.record.saga_state != plan.frozen()
            || intents[e.command_id].semantic_digest != digest {
            Err(OperationProblemView::CommandIdReused)
        } else {
            Ok((intents, known))
        },
        None => if intents.contains_key(e.command_id) {
            if intents[e.command_id].semantic_digest != digest {
                Err(OperationProblemView::CommandIdReused)
            } else {
                Err(OperationProblemView::PlanConflict("command_id 已被单命令 intent 使用"@))
            }
        } else {
            Ok(
                (
                    intents.insert(e.command_id, reserved_intent(e, digest, now)),
                    planned_operation(e, plan, fresh, now),
                ),
            )
        },
    }
}

/// Why an operation cannot be accepted before anything is looked up, if it cannot.
pub open spec fn accept_problem(
    t: TargetTables,
    e: EnvelopeView,
    digest: Result<Seq<char>, ProblemView>,
    plan: PlanView,
) -> Option<OperationProblemView> {
    if plan.problem() is Some {
        plan.problem()
    } else if e.target.store_key() != t.store_key {
        Some(
            OperationProblemView::TargetStoreMismatch(
                "acceptance target 不匹配:"@ + e.target.store_key() + " != "@ + t.store_key,
            ),
        )
    } else if digest is Err {
        Some(OperationProblemView::Internal(digest->Err_0.message()))
    } else {
        match epoch_problem(e) {
            Some(ProblemView::InvalidEnvelope(m)) => Some(OperationProblemView::InvalidPlan(m)),
            _ => None,
        }
    }
}

/// What accepting an operation leads to: the intents, the stored operation, the
/// target's tables and the answer. The handle is answered only where the target
/// holds the receipt of the acceptance.
pub open spec fn accept_view(
    intents: Intents,
    op: Option<OperationView>,
    t: TargetTables,
    e: EnvelopeView,
    digest: Result<Seq<char>, ProblemView>,
    plan: PlanView,
    fresh: Seq<char>,
    admission: Result<(), ProblemView>,
    expectation: Result<(), ProblemView>,
    fault: Option<OperationAcceptFaultPoint>,
    now: Seq<char>,
) -> (Intents, Option<OperationView>, TargetTables, Result<Seq<char>, OperationProblemView>) {
    if accept_problem(t, e, digest, plan) is Some {
        (intents, op, t, Err(accept_problem(t, e, digest, plan)->Some_0))
    } else {
        match accept_reserve_view(intents, op, e, digest->Ok_0, plan, fresh, now) {
            Err(p) => (intents, op, t, Err(p)),
            Ok((reserved, row)) => if fault == Some(OperationAcceptFaultPoint::AfterIntentReserve) {
                (
                    reserved,
                    Some(row),
                    t,
                    Err(OperationProblemView::FaultInjected("after_intent_reserve"@)),
                )
            } else {
                let handle = row.record.operation_handle;
                let (after, answer) = accept_target_view(
                    t,
                    e,
                    digest->Ok_0,
                    handle,
                    prior_problem(reserved[e.command_id]),
                    admission,
                    expectation,
                    now,
                );
                match answer {
                    Ok(_) => if fault == Some(OperationAcceptFaultPoint::AfterTargetCommit) {
                        (
                            reserved,
                            Some(row),
                            after,
                            Err(
                                OperationProblemView::Command(
                                    ProblemView::FaultInjected(
                                        "after_operation_accept_target_commit"@,
                                    ),
                                ),
                            ),
                        )
                    } else {
                        (reserved, Some(row), after, Ok(handle))
                    },
                    Err(p) => match rejection_state(p) {
                        None => (reserved, Some(row), after, Err(OperationProblemView::Command(p))),
                        Some(state) => match reject_view(
                            row,
                            reserved,
                            state,
                            Some(p.code()),
                            p.code(),
                            now,
                        ) {
                            Ok((ended, intents)) => (
                                intents,
                                Some(ended),
                                after,
                                Err(OperationProblemView::Command(p)),
                            ),
                            Err(other) => (reserved, Some(row), after, Err(other)),
                        },
                    },
                }
            },
        }
    }
}

/// The view of an operation that may be stored.
pub open spec fn opt_operation(op: Option<OperationRow>) -> Option<OperationView> {
    match op {
        Some(row) => Some(row@),
        None => None,
    }
}

/// The coordinator of operations.
pub struct OperationCoordinator {
    idempotency_key: ServiceIdempotencyKey,
}

impl OperationCoordinator {
    /// The key behind the codes of secrets.
    pub closed spec fn key(&self) -> Seq<u8> {
        self.idempotency_key@
    }

    pub fn new(idempotency_key: ServiceIdempotencyKey) -> (r: Self)
        ensures
            r.key() == idempotency_key@,
    {
        OperationCoordinator { idempotency_key }
    }

    fn accept_target<A: CommandAuthorizer>(
        &self,
        envelope: &CommandEnvelope,
        digest: &str,
        target: &mut TargetDatabase,
        authorizer: &A,
        handle: &OperationHandle,
        prior: Option<CommandProblem>,
        now: &str,
    ) -> (r: Result<(), CommandProblem>)
        requires
            old(target).wf(),
        ensures
            final(target).wf(),
            (final(target)@, outcome(r)) == accept_target_view(
                old(target)@,
                envelope@,
                digest@,
                handle@,
                match prior {
                    Some(p) => Some(p@),
                    None => None,
                },
                authorizer.admission(envelope@.lease()),
                authorizer.expectation(envelope@.lease()),
                now@,
            ),
    {
        let check = envelope.lease_check();
        match authorizer.acquire(&check) {
            Ok(_) => {},
            Err(p) => {
                return Err(p);
            },
        }
        let aggregate: &str = envelope.target().aggregate.handle.as_str();
        match acceptance_receipt(target, envelope.command_id().as_str(), digest, aggregate) {
            Err(p) => {
                return Err(p);
            },
            Ok(Some(known)) => {
                if known.same(handle) {
                    return Ok(());
                }
                return Err(CommandProblem::CommandIdReused);
            },
            Ok(None) => {},
        }
        match prior {
            Some(p) => {
                return Err(p);
            },
            None => {},
        }
        match authorizer.validate_expected(&check) {
            Ok(_) => {},
            Err(p) => {
                return Err(p);
            },
        }
        let mut f: Vec<(String, Json)> = fields();
        put(&mut f, "operation_handle", txt(handle.as_str()));
        let result: Json = object(f);
        assert(result@->Object_0 =~= acceptance_json(handle@)->Object_0);
        let mut inner: Vec<(String, Json)> = fields();
        put(&mut inner, "handle", txt(handle.as_str()));
        let link: Json = object(inner);
        assert(link@->Object_0 =~= seq![("handle"@, JsonView::Text(handle@))]);
        let mut g: Vec<(String, Json)> = fields();
        put(&mut g, "type", Json::Text(cat(envelope.command_type().as_str(), ".accepted")));
        put(&mut g, "aggregate", aggregate_value(&envelope.target().aggregate));
        put(&mut g, "caused_by_command_id", txt(envelope.command_id().as_str()));
        put(&mut g, "operation", link);
        let event: Json = object(g);
        assert(event@->Object_0 =~= acceptance_event(envelope@, handle@)->Object_0);
        let row: ReceiptRow = ReceiptRow {
            command_id: envelope.command_id().as_str().to_owned(),
            semantic_digest: digest.to_owned(),
            aggregate_handle: envelope.target().aggregate.handle.clone(),
            result: sorted_json(&result),
            state: "applied".to_owned(),
            created_at: now.to_owned(),
            finalized_at: Some(now.to_owned()),
        };
        target.write_receipt(row);
        target.write_event(sorted_json(&event));
        Ok(())
    }

    /// Accepts an operation: first the service keeps the intent and the frozen
    /// plan under a handle, then the target takes the acceptance. `operation` is
    /// what is stored for the command, `fresh` the handle of a new operation.
    pub fn accept_internal<A: CommandAuthorizer>(
        &self,
        intents: &mut Table<IntentRow>,
        operation: &mut Option<OperationRow>,
        envelope: &CommandEnvelope,
        plan: &OperationPlan,
        target: &mut TargetDatabase,
        authorizer: &A,
        fresh: &OperationHandle,
        fault: Option<OperationAcceptFaultPoint>,
        now: &str,
    ) -> (r: Result<OperationHandle, OperationProblem>)
        requires
            old(intents).wf(),
            old(target).wf(),
            *old(operation) matches Some(row) ==> row@.record.command_id == envelope@.command_id,
        ensures
            final(intents).wf(),
            final(target).wf(),
            (final(intents)@, opt_operation(*final(operation)), final(target)@, outcome(r))
                == accept_view(
                old(intents)@,
                opt_operation(*old(operation)),
                old(target)@,
                envelope@,
                envelope@.digest(self.key()),
                plan@,
                fresh@,
                authorizer.admission(envelope@.lease()),
                authorizer.expectation(envelope@.lease()),
                fault,
                now@,
            ),
    {
        match plan.validate() {
            Ok(_) => {},
            Err(p) => {
                return Err(p);
            },
        }
        let store: String = envelope.target().store_key();
        if !same(store.as_str(), target.store_key()) {
            let mut m: String = cat("acceptance target 不匹配:", store.as_str());
            m.append(" != ");
            m.append(target.store_key());
            return Err(OperationProblem::TargetStoreMismatch(m));
        }
        let digest: String = match envelope.semantic_digest(&self.idempotency_key) {
            Ok(digest) => digest,
            Err(p) => {
                return Err(OperationProblem::Internal(p.message()));
            },
        };
        let controller: u64 = envelope.controller_epoch();
        if controller > 9223372036854775807u64 {
            return Err(OperationProblem::InvalidPlan("controller epoch 越界".to_owned()));
        }
        let root: Option<i64> = match envelope.root_epoch() {
            Some(n) => {
                if n > 9223372036854775807u64 {
                    return Err(OperationProblem::InvalidPlan("root epoch 越界".to_owned()));
                }
                Some(n as i64)
            },
            None => None,
        };
        let id: &str = envelope.command_id().as_str();
        let frozen: String = plan.frozen_json();
        let intent: Option<IntentRow> = match intents.get(id) {
            Some(row) => Some(row.clone()),
            None => None,
        };
        let intent: IntentRow = match operation {
            Some(known) => match intent {
                None => {
                    return Err(OperationProblem::Internal("operation intent 消失".to_owned()));
                },
                Some(row) => {
                    if !same(known.record.saga_state.as_str(), frozen.as_str()) || !same(
                        row.semantic_digest.as_str(),
                        digest.as_str(),
                    ) {
                        return Err(OperationProblem::CommandIdReused);
                    }
                    row
                },
            },
            None => match intent {
                Some(row) => {
                    if !same(row.semantic_digest.as_str(), digest.as_str()) {
                        return Err(OperationProblem::CommandIdReused);
                    }
                    return Err(
                        OperationProblem::PlanConflict("command_id 已被单命令 intent 使用".to_owned()),
                    );
                },
                None => {
                    let row: IntentRow = IntentRow {
                        command_id: id.to_owned(),
                        semantic_digest: digest.clone(),
                        target_store: store,
                        aggregate: envelope.target().aggregate.handle.clone(),
                        principal: envelope.principal().as_str().to_owned(),
                        client_id: envelope.client_id().as_str().to_owned(),
                        controller_epoch: controller as i64,
                        root_epoch: root,
                        state: IntentState::Reserved,
                        created_at: now.to_owned(),
                        resolved_at: None,
                        problem_code: None,
                    };
                    intents.put(row.clone());
                    *operation = Some(plan_operation(envelope, plan, fresh, now));
                    row
                },
            },
        };
        if fault == Some(OperationAcceptFaultPoint::AfterIntentReserve) {
            return Err(OperationProblem::FaultInjected("after_intent_reserve"));
        }
        let prior: Option<CommandProblem> = problem_of_prior(&intent);
        match operation.take() {
            None => Err(OperationProblem::OperationNotFound),
            Some(mut row) => {
                let handle: OperationHandle = row.record.operation_handle.clone();
                let answer: Result<(), CommandProblem> = self.accept_target(
                    envelope,
                    digest.as_str(),
                    target,
                    authorizer,
                    &handle,
                    prior,
                    now,
                );
                match answer {
                    Ok(_) => {
                        *operation = Some(row);
                        if fault == Some(OperationAcceptFaultPoint::AfterTargetCommit) {
                            return Err(
                                OperationProblem::Command(
                                    CommandProblem::FaultInjected(
                                        "after_operation_accept_target_commit",
                                    ),
                                ),
                            );
                        }
                        Ok(handle)
                    },
                    Err(p) => {
                        match state_of_rejection(&p) {
                            None => {
                                *operation = Some(row);
                                Err(OperationProblem::Command(p))
                            },
                            Some(state) => {
                                let done = reject_operation(
                                    &mut row,
                                    intents,
                                    state,
                                    Some(p.code().to_owned()),
                                    p.code(),
                                    now,
                                );
                                *operation = Some(row);
                                match done {
                                    Ok(_) => Err(OperationProblem::Command(p)),
                                    Err(other) => Err(other),
                                }
                            },
                        }
                    },
                }
            },
        }
    }
}

/// What the effect of a step hands back.
#[derive(Debug)]
pub struct StepOutput {
    pub result_revisions: Json,
    pub projection: Json,
}

/// What the effect of a step hands back, as a value.
pub ghost struct StepOutputView {
    pub result_revisions: JsonView,
    pub projection: JsonView,
}

impl View for StepOutput {
    type V = StepOutputView;

    open spec fn view(&self) -> StepOutputView {
        StepOutputView {
            result_revisions: self.result_revisions@,
            projection: self.projection@,
        }
    }
}

/// What the effects of an operation's steps hand back, by their positions.
pub type Answers = spec_fn(int) -> Result<StepOutputView, ProblemView>;

/// The effects of an operation's steps. A run asks for each at most once. Effects that say
/// nothing of what they hand back may hand back anything.
pub trait StepEffects {
    /// Whether the effect of the step at a position may hand that back.
    open spec fn may_answer(
        &self,
        index: int,
        answer: Result<StepOutputView, ProblemView>,
    ) -> bool {
        true
    }

    /// Runs the effect of the step at a position.
    fn run_step(&self, index: usize) -> (r: Result<StepOutput, CommandProblem>)
        ensures
            self.may_answer(index as int, outcome(r)),
    ;
}

/// Whether that is what the effect of a step hands back, if it hands anything back.
pub open spec fn can_be_answer<E: StepEffects>(
    effects: E,
    index: int,
    answer: Result<StepOutputView, ProblemView>,
) -> bool {
    (exists|other: Result<StepOutputView, ProblemView>| effects.may_answer(index, other))
        ==> effects.may_answer(index, answer)
}

/// Whether those are what the effects of all steps hand back.
pub open spec fn can_be_answers<E: StepEffects>(effects: E, answers: Answers) -> bool {
    forall|i: int| can_be_answer(effects, i, #[trigger] answers(i))
}

/// Answers that effects can give.
spec fn some_answers<E: StepEffects>(effects: E) -> Answers {
    |i: int| choose|r: Result<StepOutputView, ProblemView>| effects.may_answer(i, r)
}

/// Answers with another one for a step.
spec fn answers_with(
    answers: Answers,
    index: int,
    answer: Result<StepOutputView, ProblemView>,
) -> Answers {
    |i: int|
        if i == index {
            answer
        } else {
            answers(i)
        }
}

/// Effects whose outputs are known beforehand.
pub struct PreparedEffects {
    pub outputs: Vec<Result<StepOutput, CommandProblem>>,
}

impl StepEffects for PreparedEffects {
    open spec fn may_answer(
        &self,
        index: int,
        answer: Result<StepOutputView, ProblemView>,
    ) -> bool {
        answer == (if index < self.outputs@.len() {
            outcome(self.outputs@[index])
        } else {
            Err(ProblemView::ResourceNotFound)
        })
    }

    fn run_step(&self, index: usize) -> (r: Result<StepOutput, CommandProblem>) {
        if index < self.outputs.len() {
            match &self.outputs[index] {
                Ok(o) => Ok(
                    StepOutput {
                        result_revisions: o.result_revisions.copy(),
                        projection: o.projection.copy(),
                    },
                ),
                Err(p) => Err(p.clone()),
            }
        } else {
            Err(CommandProblem::ResourceNotFound)
        }
    }
}

/// Who an operation acts for, as its intent keeps it.
pub struct IntentIdentity {
    pub principal: Principal,
    pub client_id: ClientId,
    pub controller_epoch: u64,
    pub root_epoch: Option<u64>,
}

/// Who an operation acts for, as a value.
pub ghost struct IdentityView {
    pub principal: Seq<char>,
    pub client_id: Seq<char>,
    pub controller_epoch: u64,
    pub root_epoch: Option<u64>,
}

impl View for IntentIdentity {
    type V = IdentityView;

    open spec fn view(&self) -> IdentityView {
        IdentityView {
            principal: self.principal@,
            client_id: self.client_id@,
            controller_epoch: self.controller_epoch,
            root_epoch: self.root_epoch,
        }
    }
}

/// What a number that does not fit is refused with.
pub open spec fn out_of_range() -> OperationProblemView {
    OperationProblemView::Internal("out of range integral type conversion attempted"@)
}

/// Who an intent acts for.
pub open spec fn identity_of(row: IntentView) -> Result<IdentityView, OperationProblemView> {
    if is_blank(row.principal) {
        Err(OperationProblemView::Internal("principal 不能为空"@))
    } else if is_blank(row.client_id) {
        Err(OperationProblemView::Internal("client_id 不能为空"@))
    } else if row.controller_epoch < 0 {
        Err(out_of_range())
    } else if row.root_epoch matches Some(n) && n < 0 {
        Err(out_of_range())
    } else {
        Ok(
            IdentityView {
                principal: row.principal,
                client_id: row.client_id,
                controller_epoch: row.controller_epoch as u64,
                root_epoch: match row.root_epoch {
                    Some(n) => Some(n as u64),
                    None => None,
                },
            },
        )
    }
}

/// Who an operation acts for, by its intent.
pub fn load_identity(row: &IntentRow) -> (r: Result<IntentIdentity, OperationProblem>)
    ensures
        outcome(r) == identity_of(row@),
{
    let principal: Principal = match Principal::parse(row.principal.as_str()) {
        Ok(p) => p,
        Err(p) => {
            return Err(OperationProblem::Internal(p.message().to_owned()));
        },
    };
    let client_id: ClientId = match ClientId::parse(row.client_id.as_str()) {
        Ok(c) => c,
        Err(p) => {
            return Err(OperationProblem::Internal(p.message().to_owned()));
        },
    };
    if row.controller_epoch < 0 {
        return Err(
            OperationProblem::Internal(
                "out of range integral type conversion attempted".to_owned(),
            ),
        );
    }
    let root_epoch: Option<u64> = match row.root_epoch {
        Some(n) => {
            if n < 0 {
                return Err(
                    OperationProblem::Internal(
                        "out of range integral type conversion attempted".to_owned(),
                    ),
                );
            }
            Some(n as u64)
        },
        None => None,
    };
    Ok(
        IntentIdentity {
            principal,
            client_id,
            controller_epoch: row.controller_epoch as u64,
            root_epoch,
        },
    )
}

/// What the authorizer is asked about a step.
pub open spec fn step_lease(id: IdentityView, s: StepPlanView) -> LeaseView {
    LeaseView {
        principal: id.principal,
        client_id: id.client_id,
        controller_epoch: id.controller_epoch,
        root_epoch: id.root_epoch,
        command_type: s.command_type,
        target: s.target,
        expected: s.expected,
    }
}

/// The final state that a refusal gives a step; a passing fault gives it none.
pub open spec fn step_refusal(p: ProblemView) -> Option<StepState> {
    match p {
        ProblemView::ControllerLeaseExpired | ProblemView::RootEpochExpired => Some(
            StepState::Revoked,
        ),
        ProblemView::RevisionConflict
        | ProblemView::InvalidEnvelope(_)
        | ProblemView::CommandIdReused => Some(StepState::Failed),
        _ => None,
    }
}

/// The final state that a refusal gives a step; a passing fault gives it none.
pub fn terminal_step_state(problem: &CommandProblem) -> (r: Option<StepState>)
    ensures
        r == step_refusal(problem@),
{
    match problem {
        CommandProblem::ControllerLeaseExpired => Some(StepState::Revoked),
        CommandProblem::RootEpochExpired => Some(StepState::Revoked),
        CommandProblem::RevisionConflict => Some(StepState::Failed),
        CommandProblem::InvalidEnvelope(_) => Some(StepState::Failed),
        CommandProblem::CommandIdReused => Some(StepState::Failed),
        _ => None,
    }
}

/// The event that tells of a step, before its fields are put in order.
pub open spec fn step_event(
    op: RecordView,
    index: int,
    s: StepPlanView,
    projection: JsonView,
) -> JsonView {
    JsonView::Object(
        seq![
            ("type"@, JsonView::Text(s.command_type.name() + ".applied"@)),
            ("aggregate"@, aggregate_json(s.target.aggregate)),
            ("caused_by_command_id"@, JsonView::Text(op.command_id)),
            (
                "operation"@,
                JsonView::Object(
                    seq![
                        ("handle"@, JsonView::Text(op.operation_handle)),
                        ("step_index"@, JsonView::Unsigned(index as nat)),
                        ("step_id"@, JsonView::Text(s.step_id)),
                        ("role"@, JsonView::Text(s.role.name())),
                    ],
                ),
            ),
            ("projection"@, projection),
        ],
    )
}

/// The target's part of a step: the lease, then the receipt that may be there,
/// then the expected revisions, then the effect. A receipt stands for the effect.
pub open spec fn step_target_view(
    t: TargetTables,
    op: RecordView,
    index: int,
    s: StepPlanView,
    admission: Result<(), ProblemView>,
    expectation: Result<(), ProblemView>,
    effect: Result<StepOutputView, ProblemView>,
    now: Seq<char>,
) -> (TargetTables, Result<JsonView, ProblemView>) {
    match (
        admission,
        receipt_result(t.receipts, s.step_id, s.semantic_digest, s.target.aggregate.handle),
        expectation,
        effect,
    ) {
        (Err(p), _, _, _) => (t, Err(p)),
        (Ok(_), Err(p), _, _) => (t, Err(p)),
        (Ok(_), Ok(Some(revisions)), _, _) => (t, Ok(revisions)),
        (Ok(_), Ok(None), Err(p), _) => (t, Err(p)),
        (Ok(_), Ok(None), Ok(_), Err(p)) => (t, Err(p)),
        (Ok(_), Ok(None), Ok(_), Ok(output)) => if has_sensitive(output.result_revisions)
            || has_sensitive(output.projection) {
            (
                t,
                Err(
                    ProblemView::InvalidEnvelope("Secret 明文或可复用引用进入 step result/event"@),
                ),
            )
        } else {
            (
                TargetTables {
                    receipts: t.receipts.insert(
                        s.step_id,
                        ReceiptView {
                            command_id: s.step_id,
                            semantic_digest: s.semantic_digest,
                            aggregate_handle: s.target.aggregate.handle,
                            result: sorted_view(output.result_revisions),
                            state: "applied"@,
                            created_at: now,
                            finalized_at: Some(now),
                        },
                    ),
                    outbox: t.outbox.push(
                        OutboxView {
                            event: sorted_view(step_event(op, index, s, output.projection)),
                            published_at: None,
                        },
                    ),
                    ..t
                },
                Ok(output.result_revisions),
            )
        },
    }
}

fn run_step_target<A: CommandAuthorizer, E: StepEffects>(
    target: &mut TargetDatabase,
    record: &OperationRecord,
    index: usize,
    step: &SagaStepPlan,
    identity: &IntentIdentity,
    authorizer: &A,
    effects: &E,
    now: &str,
) -> (r: Result<Json, CommandProblem>)
    requires
        old(target).wf(),
    ensures
        final(target).wf(),
        exists|answer: Result<StepOutputView, ProblemView>| #[trigger]
            can_be_answer(*effects, index as int, answer) && (final(target)@, outcome(r))
                == step_target_view(
                old(target)@,
                record@,
                index as int,
                step@,
                authorizer.admission(step_lease(identity@, step@)),
                authorizer.expectation(step_lease(identity@, step@)),
                answer,
                now@,
            ),
{
    assert(can_be_answer(*effects, index as int, some_answers(*effects)(index as int)));
    let check: LeaseCheck = LeaseCheck {
        principal: &identity.principal,
        client_id: &identity.client_id,
        controller_epoch: identity.controller_epoch,
        root_epoch: identity.root_epoch,
        command_type: step.command_type,
        target: &step.target,
        expected: &step.expected,
    };
    match authorizer.acquire(&check) {
        Ok(_) => {},
        Err(p) => {
            return Err(p);
        },
    }
    match target.receipt(
        step.step_id.as_str(),
        step.semantic_digest.as_str(),
        step.target.aggregate.handle.as_str(),
    ) {
        Err(p) => {
            return Err(p);
        },
        Ok(Some(revisions)) => {
            return Ok(revisions);
        },
        Ok(None) => {},
    }
    match authorizer.validate_expected(&check) {
        Ok(_) => {},
        Err(p) => {
            return Err(p);
        },
    }
    let given: Result<StepOutput, CommandProblem> = effects.run_step(index);
    assert(can_be_answer(*effects, index as int, outcome(given)));
    let output: StepOutput = match given {
        Ok(output) => output,
        Err(p) => {
            return Err(p);
        },
    };
    if value_has_sensitive_field(&output.result_revisions) || value_has_sensitive_field(
        &output.projection,
    ) {
        return Err(CommandProblem::invalid("Secret 明文或可复用引用进入 step result/event"));
    }
    let mut inner: Vec<(String, Json)> = fields();
    put(&mut inner, "handle", txt(record.operation_handle.as_str()));
    put(&mut inner, "step_index", Json::Unsigned(index as u64));
    put(&mut inner, "step_id", txt(step.step_id.as_str()));
    put(&mut inner, "role", txt(step.role.as_str()));
    let link: Json = object(inner);
    let mut f: Vec<(String, Json)> = fields();
    put(&mut f, "type", Json::Text(cat(step.command_type.as_str(), ".applied")));
    put(&mut f, "aggregate", aggregate_value(&step.target.aggregate));
    put(&mut f, "caused_by_command_id", txt(record.command_id.as_str()));
    put(&mut f, "operation", link);
    put(&mut f, "projection", output.projection);
    let event: Json = object(f);
    proof {
        let want = step_event(record@, index as int, step@, output.projection@);
        assert(link@->Object_0 =~= want->Object_0[3].1->Object_0);
        assert(event@->Object_0 =~= want->Object_0);
    }
    let row: ReceiptRow = ReceiptRow {
        command_id: step.step_id.as_str().to_owned(),
        semantic_digest: step.semantic_digest.clone(),
        aggregate_handle: step.target.aggregate.handle.clone(),
        result: sorted_json(&output.result_revisions),
        state: "applied".to_owned(),
        created_at: now.to_owned(),
        finalized_at: Some(now.to_owned()),
    };
    target.write_receipt(row);
    target.write_event(sorted_json(&event));
    Ok(output.result_revisions)
}

/// How a step went.
#[derive(Debug, Clone, Copy, PartialEq, Eq, Structural)]
pub enum StepExecution {
    Succeeded,
    Failed,
}

/// Why a step cannot run in the state of its operation, if it cannot.
pub open spec fn step_state_problem(role: StepRole, state: OperationState) -> Option<
    OperationProblemView,
> {
    match role {
        StepRole::Forward => if state is Accepted || state is Running {
            None
        } else {
            Some(
                OperationProblemView::StateConflict(
                    "forward step 只能在 accepted/running 执行(当前 "@ + state.name() + ")"@,
                ),
            )
        },
        StepRole::Compensate => if state is Compensating {
            None
        } else {
            Some(
                OperationProblemView::StateConflict(
                    "compensate step 只能在 compensating 执行(当前 "@ + state.name() + ")"@,
                ),
            )
        },
    }
}

/// The operation once it began to run.
pub open spec fn begun(op: OperationView, now: Seq<char>) -> OperationView {
    if op.record.state is Accepted {
        OperationView {
            record: RecordView { state: OperationState::Running, updated_at: now, ..op.record },
            ..op
        }
    } else {
        op
    }
}

/// What running a step leads to: the operation, the targets and how it went. A
/// fault that may pass leaves the step pending; where the step cannot be looked
/// at, nothing changes.
pub open spec fn step_view(
    op: OperationView,
    targets: Seq<TargetTables>,
    index: int,
    s: StepPlanView,
    admission: Result<(), ProblemView>,
    expectation: Result<(), ProblemView>,
    effect: Result<StepOutputView, ProblemView>,
    fault: Option<OperationFaultPoint>,
    now: Seq<char>,
) -> (OperationView, Seq<TargetTables>, Result<StepExecution, OperationProblemView>) {
    let at = target_at(targets, s.target.store_key(), 0);
    if at is None {
        (
            op,
            targets,
            Err(
                OperationProblemView::TargetStoreMismatch(
                    "step "@ + decimal_text(index as nat) + " 的目标 store 未打开:"@
                        + s.target.store_key(),
                ),
            ),
        )
    } else if step_state_problem(s.role, op.record.state) is Some {
        (op, targets, Err(step_state_problem(s.role, op.record.state)->Some_0))
    } else if index >= op.steps.len() {
        (
            op,
            targets,
            Err(
                OperationProblemView::Internal("operation_step 行缺失:"@ + decimal_text(index as nat)),
            ),
        )
    } else if op.steps[index].state is Succeeded {
        (begun(op, now), targets, Ok(StepExecution::Succeeded))
    } else if !(op.steps[index].state is Pending) {
        (
            op,
            targets,
            Err(
                OperationProblemView::StateConflict(
                    "step "@ + decimal_text(index as nat) + " 已终结:"@
                        + op.steps[index].state.name(),
                ),
            ),
        )
    } else {
        let at = at->Some_0;
        let (t, answer) = step_target_view(
            targets[at],
            op.record,
            index,
            s,
            admission,
            expectation,
            effect,
            now,
        );
        let after = targets.update(at, t);
        let running = begun(op, now);
        match answer {
            Err(ProblemView::FaultInjected(_)) => (
                running,
                after,
                Err(OperationProblemView::FaultInjected("after_step_target_commit"@)),
            ),
            Err(p) => match step_refusal(p) {
                Some(state) => (
                    finish_step_view(running, index, state, Some(p.code()), None)->Ok_0,
                    after,
                    Ok(StepExecution::Failed),
                ),
                None => (running, after, Err(OperationProblemView::Internal(p.message()))),
            },
            Ok(revisions) => if fault == Some(
                OperationFaultPoint::AfterStepTargetCommit(index as usize),
            ) {
                (
                    running,
                    after,
                    Err(OperationProblemView::FaultInjected("after_step_target_commit"@)),
                )
            } else {
                (
                    finish_step_view(
                        running,
                        index,
                        StepState::Succeeded,
                        None,
                        Some(revisions),
                    )->Ok_0,
                    after,
                    Ok(StepExecution::Succeeded),
                )
            },
        }
    }
}

/// The view of how a step went.
pub open spec fn execution(r: Result<StepExecution, OperationProblem>) -> Result<
    StepExecution,
    OperationProblemView,
> {
    match r {
        Ok(x) => Ok(x),
        Err(p) => Err(p@),
    }
}

impl OperationCoordinator {
    /// Runs a step. See [`step_view`] for what each case leads to.
    pub fn execute_step<A: CommandAuthorizer, E: StepEffects>(
        &self,
        operation: &mut OperationRow,
        index: usize,
        step: &SagaStepPlan,
        identity: &IntentIdentity,
        targets: &mut Vec<TargetDatabase>,
        authorizer: &A,
        effects: &E,
        fault: Option<OperationFaultPoint>,
        now: &str,
    ) -> (r: Result<StepExecution, OperationProblem>)
        requires
            targets_wf(old(targets)@),
        ensures
            targets_wf(final(targets)@),
            final(targets)@.len() == old(targets)@.len(),
            exists|answer: Result<StepOutputView, ProblemView>| #[trigger]
                can_be_answer(*effects, index as int, answer) && (
                    final(operation)@,
                    tables(final(targets)@),
                    execution(r),
                ) == step_view(
                    old(operation)@,
                    tables(old(targets)@),
                    index as int,
                    step@,
                    authorizer.admission(step_lease(identity@, step@)),
                    authorizer.expectation(step_lease(identity@, step@)),
                    answer,
                    fault,
                    now@,
                ),
    {
        let ghost before = targets@;
        assert(can_be_answer(*effects, index as int, some_answers(*effects)(index as int)));
        let key: String = step.target.store_key();
        let at: usize = match find_target(targets, key.as_str()) {
            Some(at) => at,
            None => {
                let mut m: String = cat3(
                    "step ",
                    decimal(index as u64).as_str(),
                    " 的目标 store 未打开:",
                );
                m.append(key.as_str());
                return Err(OperationProblem::TargetStoreMismatch(m));
            },
        };
        match step.role {
            StepRole::Forward => {
                if operation.record.state != OperationState::Accepted && operation.record.state
                    != OperationState::Running {
                    return Err(
                        OperationProblem::StateConflict(
                            cat3(
                                "forward step 只能在 accepted/running 执行(当前 ",
                                operation.record.state.as_str(),
                                ")",
                            ),
                        ),
                    );
                }
            },
            StepRole::Compensate => {
                if operation.record.state != OperationState::Compensating {
                    return Err(
                        OperationProblem::StateConflict(
                            cat3(
                                "compensate step 只能在 compensating 执行(当前 ",
                                operation.record.state.as_str(),
                                ")",
                            ),
                        ),
                    );
                }
            },
        }
        if index >= operation.steps.len() {
            return Err(
                OperationProblem::Internal(
                    cat("operation_step 行缺失:", decimal(index as u64).as_str()),
                ),
            );
        }
        assert(operation@.steps[index as int] == operation.steps@[index as int]@);
        match operation.steps[index].state {
            StepState::Succeeded => {
                if operation.record.state == OperationState::Accepted {
                    operation.record.state = OperationState::Running;
                    operation.record.updated_at = now.to_owned();
                }
                return Ok(StepExecution::Succeeded);
            },
            StepState::Pending => {},
            other => {
                let mut m: String = cat3("step ", decimal(index as u64).as_str(), " 已终结:");
                m.append(other.as_str());
                return Err(OperationProblem::StateConflict(m));
            },
        }
        assert(before[at as int].wf());
        let answer: Result<Json, CommandProblem> = run_step_target(
            &mut targets[at],
            &operation.record,
            index,
            step,
            identity,
            authorizer,
            effects,
            now,
        );
        assert(tables(targets@) =~= tables(before).update(at as int, targets@[at as int]@));
        assert(tables(before)[at as int] == before[at as int]@);
        if operation.record.state == OperationState::Accepted {
            operation.record.state = OperationState::Running;
            operation.record.updated_at = now.to_owned();
        }
        assert(operation@ == begun(old(operation)@, now@));
        match answer {
            Err(CommandProblem::FaultInjected(_)) => Err(
                OperationProblem::FaultInjected("after_step_target_commit"),
            ),
            Err(p) => match terminal_step_state(&p) {
                Some(state) => {
                    let done = finish_step(operation, index, state, Some(p.code().to_owned()), None);
                    Ok(StepExecution::Failed)
                },
                None => Err(OperationProblem::Internal(p.message())),
            },
            Ok(revisions) => {
                if fault == Some(OperationFaultPoint::AfterStepTargetCommit(index)) {
                    return Err(OperationProblem::FaultInjected("after_step_target_commit"));
                }
                let done = finish_step(
                    operation,
                    index,
                    StepState::Succeeded,
                    None,
                    Some(&revisions),
                );
                Ok(StepExecution::Succeeded)
            },
        }
    }
}

/// Whether a stored step is the planned one.
pub open spec fn step_matches(stored: StepView, s: StepPlanView) -> bool {
    &&& stored.step_id == s.step_id
    &&& stored.role == s.role
    &&& stored.target_store == s.target.store_key()
    &&& stored.aggregate == s.target.aggregate.handle
    &&& stored.semantic_digest == s.semantic_digest
}

/// What is wrong with the first stored step from `i` on that is not the planned
/// one.
pub open spec fn first_mismatch(
    stored: Seq<StepView>,
    steps: Seq<StepPlanView>,
    i: int,
) -> Option<OperationProblemView>
    decreases steps.len() - i,
{
    if i >= steps.len() {
        None
    } else if step_matches(stored[i], steps[i]) {
        first_mismatch(stored, steps, i + 1)
    } else {
        Some(
            OperationProblemView::PlanConflict(
                "step "@ + decimal_text(i as nat) + " 与冻结 plan 不一致"@,
            ),
        )
    }
}

/// Why a plan is not the one that an operation was accepted with, if it is not.
pub open spec fn plan_mismatch(op: OperationView, plan: PlanView) -> Option<OperationProblemView> {
    if op.steps.len() != plan.steps.len() {
        Some(OperationProblemView::PlanConflict("plan 与冻结 step 数量不一致"@))
    } else {
        first_mismatch(op.steps, plan.steps, 0)
    }
}

/// Checks that a plan is the one that an operation was accepted with.
pub fn verify_plan(op: &OperationRow, plan: &OperationPlan) -> (r: Result<(), OperationProblem>)
    ensures
        outcome(r) == (match plan_mismatch(op@, plan@) {
            Some(p) => Err::<(), OperationProblemView>(p),
            None => Ok(()),
        }),
{
    if op.steps.len() != plan.steps.len() {
        return Err(OperationProblem::PlanConflict("plan 与冻结 step 数量不一致".to_owned()));
    }
    let mut i: usize = 0;
    while i < plan.steps.len()
        invariant
            i <= plan.steps@.len(),
            op.steps@.len() == plan.steps@.len(),
            first_mismatch(op@.steps, plan@.steps, 0) == first_mismatch(
                op@.steps,
                plan@.steps,
                i as int,
            ),
        decreases plan.steps@.len() - i,
    {
        let stored: &StepRecord = &op.steps[i];
        let s: &SagaStepPlan = &plan.steps[i];
        assert(op@.steps[i as int] == stored@);
        assert(plan@.steps[i as int] == s@);
        if !same(stored.step_id.as_str(), s.step_id.as_str()) || stored.role != s.role || !same(
            stored.target_store.as_str(),
            s.target.store_key().as_str(),
        ) || !same(stored.aggregate.as_str(), s.target.aggregate.handle.as_str()) || !same(
            stored.semantic_digest.as_str(),
            s.semantic_digest.as_str(),
        ) {
            return Err(
                OperationProblem::PlanConflict(
                    cat3("step ", decimal(i as u64).as_str(), " 与冻结 plan 不一致"),
                ),
            );
        }
        i = i + 1;
    }
    Ok(())
}

/// The steps of a list that are pending.
pub open spec fn pending_of(steps: Seq<StepView>, needed: Seq<usize>) -> Seq<usize>
    decreases needed.len(),
{
    if needed.len() == 0 {
        needed
    } else if steps[needed.last() as int].state is Pending {
        pending_of(steps, needed.drop_last()).push(needed.last())
    } else {
        pending_of(steps, needed.drop_last())
    }
}

/// Whether every step of a list took effect.
pub open spec fn all_undone(steps: Seq<StepView>, needed: Seq<usize>) -> bool {
    forall|k: int|
        0 <= k < needed.len() ==> steps[(#[trigger] needed[k]) as int].state is Succeeded
}

/// The end that the stored steps of an operation give it, where nothing more is
/// run: what took effect and is not undone waits for the user.
pub open spec fn closing_kind(steps: Seq<StepView>) -> TerminalView {
    match saga_decision(steps) {
        DecisionView::Complete => TerminalView::Completed,
        DecisionView::Open(open) => match (open.missing, open.failed) {
            (Some(i), _) => TerminalView::NeedsYou {
                code: CODE_COMPENSATION_MISSING@,
                step_index: Some(i),
            },
            (None, Some(i)) => TerminalView::NeedsYou {
                code: CODE_COMPENSATION_FAILED@,
                step_index: Some(i),
            },
            (None, None) => if all_undone(steps, open.needed) {
                TerminalView::CompletedCompensated
            } else {
                TerminalView::NeedsYou { code: CODE_COMPENSATION_REQUIRED@, step_index: None }
            },
        },
    }
}

/// The steps that have to be undone stand at positions of the list.
pub(crate) proof fn lemma_needed_in_range(steps: Seq<StepView>, n: int)
    requires
        in_place(steps),
        0 <= n <= steps.len(),
    ensures
        forall|k: int|
            0 <= k < open_of(steps, n).needed.len() ==> (#[trigger] open_of(steps, n).needed[k])
                < steps.len(),
    decreases n,
{
    if n > 0 {
        lemma_needed_in_range(steps, n - 1);
        let s = steps[n - 1];
        lemma_undone_in_range(steps, s.step_index, 0);
    }
}

proof fn lemma_undone_in_range(steps: Seq<StepView>, forward: usize, from: int)
    requires
        0 <= from,
    ensures
        undone_by(steps, forward, from) matches Some(c) ==> from <= c < steps.len()
            && steps[c].role is Compensate,
    decreases steps.len() - from,
{
    if from < steps.len() && !(steps[from].role is Compensate && steps[from].compensates == Some(
        forward,
    )) {
        lemma_undone_in_range(steps, forward, from + 1);
    }
}

fn all_needed_undone(steps: &Vec<StepRecord>, needed: &Vec<usize>) -> (r: bool)
    requires
        forall|k: int| 0 <= k < needed@.len() ==> (#[trigger] needed@[k]) < steps@.len(),
    ensures
        r == all_undone(steps_view(steps@), needed@),
{
    let mut k: usize = 0;
    while k < needed.len()
        invariant
            k <= needed@.len(),
            forall|j: int| 0 <= j < needed@.len() ==> (#[trigger] needed@[j]) < steps@.len(),
            forall|j: int|
                0 <= j < k ==> steps_view(steps@)[(#[trigger] needed@[j]) as int].state
                    is Succeeded,
        decreases needed@.len() - k,
    {
        let i: usize = needed[k];
        assert(i < steps@.len());
        assert(steps_view(steps@)[i as int] == steps@[i as int]@);
        if steps[i].state != StepState::Succeeded {
            assert(!(steps_view(steps@)[needed@[k as int] as int].state is Succeeded));
            return false;
        }
        k = k + 1;
    }
    true
}

/// The end that the stored steps of an operation give it.
pub fn decide_end(steps: &Vec<StepRecord>) -> (r: TerminalKind)
    requires
        in_place(steps_view(steps@)),
    ensures
        r@ == closing_kind(steps_view(steps@)),
{
    proof {
        lemma_needed_in_range(steps_view(steps@), steps@.len() as int);
    }
    match decide_saga(steps) {
        SagaDecision::Complete => TerminalKind::Completed,
        SagaDecision::CompensationOpen { needed, failed, missing } => {
            match (missing, failed) {
                (Some(i), _) => TerminalKind::NeedsYou {
                    code: CODE_COMPENSATION_MISSING,
                    step_index: Some(i),
                },
                (None, Some(i)) => TerminalKind::NeedsYou {
                    code: CODE_COMPENSATION_FAILED,
                    step_index: Some(i),
                },
                (None, None) => if all_needed_undone(steps, &needed) {
                    TerminalKind::CompletedCompensated
                } else {
                    TerminalKind::NeedsYou { code: CODE_COMPENSATION_REQUIRED, step_index: None }
                },
            }
        },
    }
}

/// The receipt of a step proves its effect.
pub open spec fn receipt_fits(row: ReceiptView, s: StepView) -> bool {
    row.semantic_digest == s.semantic_digest && row.aggregate_handle == s.aggregate && row.state
        == "applied"@ && row.finalized_at is Some
}

/// What reconciling makes of a step: a pending step took effect exactly where its
/// receipt says so, failed where the receipt is of something else, and is revoked
/// where there is none. Nothing is run.
pub open spec fn settled_step(s: StepView, targets: Seq<TargetTables>) -> Result<
    StepView,
    OperationProblemView,
> {
    if !(s.state is Pending) {
        Ok(s)
    } else {
        match target_at(targets, s.target_store, 0) {
            None => Err(
                OperationProblemView::TargetStoreMismatch("target store 未打开:"@ + s.target_store),
            ),
            Some(at) => {
                let receipts = targets[at].receipts;
                if !receipts.contains_key(s.step_id) {
                    Ok(
                        ended_step(
                            s,
                            StepState::Revoked,
                            Some("controller_lease_expired"@),
                            None,
                        ),
                    )
                } else if receipt_fits(receipts[s.step_id], s) {
                    if has_sensitive(receipts[s.step_id].result) {
                        Err(OperationProblemView::Internal("target receipt result 含敏感字段"@))
                    } else {
                        Ok(
                            ended_step(
                                s,
                                StepState::Succeeded,
                                None,
                                Some(receipts[s.step_id].result),
                            ),
                        )
                    }
                } else {
                    Ok(ended_step(s, StepState::Failed, Some("command_id_reused"@), None))
                }
            },
        }
    }
}

/// Whether the receipt of a pending step is of something else.
pub open spec fn violated(s: StepView, targets: Seq<TargetTables>) -> bool {
    &&& s.state is Pending
    &&& target_at(targets, s.target_store, 0) matches Some(at)
    &&& targets[at].receipts.contains_key(s.step_id)
    &&& !receipt_fits(targets[at].receipts[s.step_id], s)
}

/// What reconciling makes of the first `n` steps, and the first of them whose
/// receipt is of something else.
pub open spec fn settled_steps(
    steps: Seq<StepView>,
    targets: Seq<TargetTables>,
    n: int,
) -> Result<(Seq<StepView>, Option<usize>), OperationProblemView>
    decreases n,
{
    if n <= 0 {
        Ok((steps, None))
    } else {
        match settled_steps(steps, targets, n - 1) {
            Err(p) => Err(p),
            Ok((before, violation)) => match settled_step(steps[n - 1], targets) {
                Err(p) => Err(p),
                Ok(s) => Ok(
                    (
                        before.update(n - 1, s),
                        if violation is None && violated(steps[n - 1], targets) {
                            Some(steps[n - 1].step_index)
                        } else {
                            violation
                        },
                    ),
                ),
            },
        }
    }
}

/// How a stored operation that is at its end ended.
pub open spec fn stored_end(op: RecordView) -> EndView {
    match op.state {
        OperationState::NeedsYou => EndView::NeedsYou {
            problem_code: match op.progress.problem {
                Some(d) => d.code,
                None => "operation_needs_you"@,
            },
        },
        _ => if op.progress.outcome == Some("compensated"@) {
            EndView::Completed { compensated: true }
        } else if op.progress.outcome == Some("not_accepted"@) {
            EndView::NotAccepted {
                problem_code: match op.progress.problem {
                    Some(d) => d.code,
                    None => "operation_not_accepted"@,
                },
            }
        } else {
            EndView::Completed { compensated: false }
        },
    }
}

/// How a stored operation that is at its end ended.
pub fn terminal_outcome_of(record: &OperationRecord) -> (r: OperationOutcome)
    ensures
        r@ == stored_end(record@),
{
    let code: Option<String> = match &record.progress.problem {
        Some(d) => Some(d.code.clone()),
        None => None,
    };
    match record.state {
        OperationState::NeedsYou => OperationOutcome::NeedsYou {
            problem_code: match code {
                Some(c) => c,
                None => "operation_needs_you".to_owned(),
            },
        },
        _ => match &record.progress.outcome {
            Some(o) => {
                if same(o.as_str(), "compensated") {
                    OperationOutcome::Completed { compensated: true }
                } else if same(o.as_str(), "not_accepted") {
                    OperationOutcome::NotAccepted {
                        problem_code: match code {
                            Some(c) => c,
                            None => "operation_not_accepted".to_owned(),
                        },
                    }
                } else {
                    OperationOutcome::Completed { compensated: false }
                }
            },
            None => OperationOutcome::Completed { compensated: false },
        },
    }
}

/// The operation and the intents at their end, with the answer; where that is
/// refused, nothing changes.
pub open spec fn ended_as(
    op: OperationView,
    intents: Intents,
    base: OperationView,
    kind: TerminalView,
    now: Seq<char>,
) -> (OperationView, Intents, Result<Option<EndView>, OperationProblemView>) {
    match finalize_view(op, intents, kind, now) {
        Ok((row, after)) => (row, after, Ok(Some(kind.end()))),
        Err(p) => (base, intents, Err(p)),
    }
}

/// What reconciling an accepted operation after a restart leads to.
pub open spec fn settle_view(
    op: OperationView,
    intents: Intents,
    targets: Seq<TargetTables>,
    now: Seq<char>,
) -> (OperationView, Intents, Result<Option<EndView>, OperationProblemView>) {
    if op.record.state.terminal() {
        (op, intents, Ok(Some(stored_end(op.record))))
    } else if !(op.record.state is Reconciling) {
        (
            op,
            intents,
            Err(
                OperationProblemView::StateConflict(
                    "只有 reconciling operation 可被 reconcile(当前 "@ + op.record.state.name()
                        + ")"@,
                ),
            ),
        )
    } else {
        match settled_steps(op.steps, targets, op.steps.len() as int) {
            Err(p) => (op, intents, Err(p)),
            Ok((steps, violation)) => ended_as(
                OperationView { steps, ..op },
                intents,
                op,
                match violation {
                    Some(i) => TerminalView::NeedsYou {
                        code: "command_id_reused"@,
                        step_index: Some(i),
                    },
                    None => closing_kind(steps),
                },
                now,
            ),
        }
    }
}

/// What reconciling an operation after a restart leads to. An operation that the
/// target never accepted ends as not accepted; one that it accepted is settled by
/// the receipts of its steps; and nothing is run.
pub open spec fn reconcile_operation_view(
    op: OperationView,
    intents: Intents,
    targets: Seq<TargetTables>,
    now: Seq<char>,
) -> (OperationView, Intents, Result<Option<EndView>, OperationProblemView>) {
    let id = op.record.command_id;
    if op.steps.len() == 0 {
        (op, intents, Ok(None))
    } else if !intents.contains_key(id) {
        (
            op,
            intents,
            Err(OperationProblemView::Internal("operation 的 command intent 不存在"@)),
        )
    } else {
        let intent = intents[id];
        match target_at(targets, intent.target_store, 0) {
            None => (
                op,
                intents,
                Err(
                    OperationProblemView::TargetStoreMismatch(
                        "acceptance target store 未打开:"@ + intent.target_store,
                    ),
                ),
            ),
            Some(at) => match acceptance_view(
                targets[at].receipts,
                id,
                intent.semantic_digest,
                intent.aggregate,
            ) {
                Ok(Some(handle)) => if handle == op.record.operation_handle {
                    settle_view(op, intents, targets, now)
                } else {
                    ended_as(
                        op,
                        intents,
                        op,
                        TerminalView::NeedsYou { code: "command_id_reused"@, step_index: None },
                        now,
                    )
                },
                Ok(None) => if intent.state is Applied {
                    (
                        op,
                        intents,
                        Err(
                            OperationProblemView::Internal(
                                "applied operation intent 缺少 acceptance receipt"@,
                            ),
                        ),
                    )
                } else {
                    let (state, code, problem) = unaccepted_end(intent);
                    match reject_view(op, intents, state, code, problem, now) {
                        Ok((row, after)) => (
                            row,
                            after,
                            Ok(Some(EndView::NotAccepted { problem_code: problem })),
                        ),
                        Err(p) => (op, intents, Err(p)),
                    }
                },
                Err(p) => ended_as(
                    op,
                    intents,
                    op,
                    TerminalView::NeedsYou { code: p.code(), step_index: None },
                    now,
                ),
            },
        }
    }
}

/// The end of an operation that was never accepted: the state and the code of its
/// intent, and the code that is answered.
pub open spec fn unaccepted_end(intent: IntentView) -> (IntentState, Option<Seq<char>>, Seq<char>) {
    if intent.state is Reserved {
        (
            IntentState::Revoked,
            Some("controller_lease_expired"@),
            "controller_lease_expired"@,
        )
    } else {
        (
            intent.state,
            intent.problem_code,
            match intent.problem_code {
                Some(c) => c,
                None => intent.state.name(),
            },
        )
    }
}

/// The view of an optional end in a result.
pub open spec fn ending(r: Result<Option<OperationOutcome>, OperationProblem>) -> Result<
    Option<EndView>,
    OperationProblemView,
> {
    match r {
        Ok(Some(o)) => Ok(Some(o@)),
        Ok(None) => Ok(None),
        Err(p) => Err(p@),
    }
}

fn settle_one(op: &mut OperationRow, i: usize, targets: &Vec<TargetDatabase>) -> (r: Result<
    bool,
    OperationProblem,
>)
    requires
        i < old(op).steps@.len(),
        targets_wf(targets@),
    ensures
        match settled_step(old(op)@.steps[i as int], tables(targets@)) {
            Ok(s) => r == Ok::<bool, OperationProblem>(
                violated(old(op)@.steps[i as int], tables(targets@)),
            ) && final(op)@ == (OperationView {
                steps: old(op)@.steps.update(i as int, s),
                ..old(op)@
            }),
            Err(p) => r matches Err(e) && e@ == p && final(op)@ == old(op)@,
        },
{
    assert(op@.steps[i as int] == op.steps@[i as int]@);
    if op.steps[i].state != StepState::Pending {
        assert(op@.steps =~= op@.steps.update(i as int, op@.steps[i as int]));
        return Ok(false);
    }
    let at: usize = match find_target(targets, op.steps[i].target_store.as_str()) {
        Some(at) => at,
        None => {
            return Err(
                OperationProblem::TargetStoreMismatch(
                    cat("target store 未打开:", op.steps[i].target_store.as_str()),
                ),
            );
        },
    };
    assert(targets@[at as int].wf());
    assert(tables(targets@)[at as int] == targets@[at as int]@);
    match targets[at].receipt_row(op.steps[i].step_id.as_str()) {
        None => {
            let done = finish_step(
                op,
                i,
                StepState::Revoked,
                Some("controller_lease_expired".to_owned()),
                None,
            );
            Ok(false)
        },
        Some(row) => {
            if same(row.semantic_digest.as_str(), op.steps[i].semantic_digest.as_str()) && same(
                row.aggregate_handle.as_str(),
                op.steps[i].aggregate.as_str(),
            ) && same(row.state.as_str(), "applied") && row.finalized_at.is_some() {
                if value_has_sensitive_field(&row.result) {
                    return Err(
                        OperationProblem::Internal("target receipt result 含敏感字段".to_owned()),
                    );
                }
                let done = finish_step(op, i, StepState::Succeeded, None, Some(&row.result));
                Ok(false)
            } else {
                let done = finish_step(
                    op,
                    i,
                    StepState::Failed,
                    Some("command_id_reused".to_owned()),
                    None,
                );
                Ok(true)
            }
        },
    }
}

proof fn lemma_settled_len(steps: Seq<StepView>, targets: Seq<TargetTables>, n: int)
    requires
        0 <= n <= steps.len(),
        in_place(steps),
    ensures
        settled_steps(steps, targets, n) matches Ok((after, _)) ==> after.len() == steps.len()
            && in_place(after) && forall|k: int|
            n <= k < steps.len() ==> after[k] == #[trigger] steps[k],
    decreases n,
{
    if n > 0 {
        lemma_settled_len(steps, targets, n - 1);
    }
}

proof fn lemma_settled_error(steps: Seq<StepView>, targets: Seq<TargetTables>, n: int, m: int)
    requires
        0 <= n <= m,
        settled_steps(steps, targets, n) is Err,
    ensures
        settled_steps(steps, targets, m) == settled_steps(steps, targets, n),
    decreases m - n,
{
    if n < m {
        lemma_settled_error(steps, targets, n, m - 1);
    }
}

fn settle_operation(
    op: &mut OperationRow,
    intents: &mut Table<IntentRow>,
    targets: &Vec<TargetDatabase>,
    now: &str,
) -> (r: Result<Option<OperationOutcome>, OperationProblem>)
    requires
        old(intents).wf(),
        old(op)@.wf(),
        targets_wf(targets@),
    ensures
        final(intents).wf(),
        (final(op)@, final(intents)@, ending(r)) == settle_view(
            old(op)@,
            old(intents)@,
            tables(targets@),
            now@,
        ),
{
    if op.record.state.is_terminal() {
        return Ok(Some(terminal_outcome_of(&op.record)));
    }
    if op.record.state != OperationState::Reconciling {
        return Err(
            OperationProblem::StateConflict(
                cat3(
                    "只有 reconciling operation 可被 reconcile(当前 ",
                    op.record.state.as_str(),
                    ")",
                ),
            ),
        );
    }
    let ghost all = op@.steps;
    let ghost ts = tables(targets@);
    let kept: Vec<StepRecord> = copy_steps(&op.steps);
    let mut violation: Option<usize> = None;
    let n: usize = op.steps.len();
    let mut i: usize = 0;
    while i < n
        invariant
            i <= n,
            n == all.len(),
            op.steps@.len() == n,
            old(op)@.steps == all,
            in_place(all),
            ts == tables(targets@),
            targets_wf(targets@),
            steps_view(kept@) == all,
            intents.wf(),
            intents@ == old(intents)@,
            settled_steps(all, ts, i as int) == Ok::<
                (Seq<StepView>, Option<usize>),
                OperationProblemView,
            >((op@.steps, violation)),
            op@ == (OperationView { steps: op@.steps, ..old(op)@ }),
            old(op)@.record.state is Reconciling,
        decreases n - i,
    {
        proof {
            lemma_settled_len(all, ts, i as int);
            assert(op@.steps[i as int] == all[i as int]);
            assert(op@.steps[i as int] == op.steps@[i as int]@);
        }
        let index: usize = op.steps[i].step_index;
        match settle_one(op, i, targets) {
            Ok(bad) => {
                if bad && violation.is_none() {
                    violation = Some(index);
                }
            },
            Err(p) => {
                proof {
                    lemma_settled_error(all, ts, i + 1, n as int);
                }
                op.steps = kept;
                return Err(p);
            },
        }
        assert(op@.steps.len() == n);
        i = i + 1;
    }
    proof {
        lemma_settled_len(all, ts, n as int);
    }
    let kind: TerminalKind = match violation {
        Some(index) => TerminalKind::NeedsYou { code: "command_id_reused", step_index: Some(index) },
        None => decide_end(&op.steps),
    };
    match finalize_operation(op, intents, &kind, now) {
        Ok(_) => Ok(Some(outcome_of_kind(&kind))),
        Err(p) => {
            op.steps = kept;
            Err(p)
        },
    }
}

/// How an operation ended, by the end it was given.
pub fn outcome_of_kind(kind: &TerminalKind) -> (r: OperationOutcome)
    ensures
        r@ == kind@.end(),
{
    match kind {
        TerminalKind::Completed => OperationOutcome::Completed { compensated: false },
        TerminalKind::CompletedCompensated => OperationOutcome::Completed { compensated: true },
        TerminalKind::NeedsYou { code, .. } => OperationOutcome::NeedsYou {
            problem_code: (*code).to_owned(),
        },
        TerminalKind::RejectedBeforeAccept { problem_code, .. } => OperationOutcome::NotAccepted {
            problem_code: problem_code.clone(),
        },
    }
}

fn end_as(
    op: &mut OperationRow,
    intents: &mut Table<IntentRow>,
    kind: &TerminalKind,
    now: &str,
) -> (r: Result<Option<OperationOutcome>, OperationProblem>)
    requires
        old(intents).wf(),
    ensures
        final(intents).wf(),
        (final(op)@, final(intents)@, ending(r)) == ended_as(
            old(op)@,
            old(intents)@,
            old(op)@,
            kind@,
            now@,
        ),
{
    match finalize_operation(op, intents, kind, now) {
        Ok(_) => Ok(Some(outcome_of_kind(kind))),
        Err(p) => Err(p),
    }
}

/// Ends an operation that a restart left open, by receipts alone. See
/// [`reconcile_operation_view`] for what each case leads to.
pub fn reconcile_operation(
    op: &mut OperationRow,
    intents: &mut Table<IntentRow>,
    targets: &Vec<TargetDatabase>,
    now: &str,
) -> (r: Result<Option<OperationOutcome>, OperationProblem>)
    requires
        old(intents).wf(),
        old(op)@.wf(),
        targets_wf(targets@),
    ensures
        final(intents).wf(),
        (final(op)@, final(intents)@, ending(r)) == reconcile_operation_view(
            old(op)@,
            old(intents)@,
            tables(targets@),
            now@,
        ),
{
    if op.steps.len() == 0 {
        return Ok(None);
    }
    let intent: IntentRow = match intents.get(op.record.command_id.as_str()) {
        Some(row) => row.clone(),
        None => {
            return Err(
                OperationProblem::Internal("operation 的 command intent 不存在".to_owned()),
            );
        },
    };
    let at: usize = match find_target(targets, intent.target_store.as_str()) {
        Some(at) => at,
        None => {
            return Err(
                OperationProblem::TargetStoreMismatch(
                    cat("acceptance target store 未打开:", intent.target_store.as_str()),
                ),
            );
        },
    };
    assert(targets@[at as int].wf());
    assert(tables(targets@)[at as int] == targets@[at as int]@);
    match acceptance_receipt(
        &targets[at],
        op.record.command_id.as_str(),
        intent.semantic_digest.as_str(),
        intent.aggregate.as_str(),
    ) {
        Ok(Some(handle)) => {
            if handle.same(&op.record.operation_handle) {
                settle_operation(op, intents, targets, now)
            } else {
                end_as(
                    op,
                    intents,
                    &TerminalKind::NeedsYou { code: "command_id_reused", step_index: None },
                    now,
                )
            }
        },
        Ok(None) => {
            if intent.state == IntentState::Applied {
                return Err(
                    OperationProblem::Internal(
                        "applied operation intent 缺少 acceptance receipt".to_owned(),
                    ),
                );
            }
            let (state, code, problem) = if intent.state == IntentState::Reserved {
                (
                    IntentState::Revoked,
                    Some("controller_lease_expired".to_owned()),
                    "controller_lease_expired".to_owned(),
                )
            } else {
                (
                    intent.state,
                    copy_opt(&intent.problem_code),
                    match &intent.problem_code {
                        Some(c) => c.clone(),
                        None => intent.state.as_str().to_owned(),
                    },
                )
            };
            match reject_operation(op, intents, state, code, problem.as_str(), now) {
                Ok(_) => Ok(Some(OperationOutcome::NotAccepted { problem_code: problem })),
                Err(p) => Err(p),
            }
        },
        Err(p) => end_as(
            op,
            intents,
            &TerminalKind::NeedsYou { code: p.code(), step_index: None },
            now,
        ),
    }
}

/// The operation once a restart found it open.
pub open spec fn reconciling(op: OperationView, now: Seq<char>) -> OperationView {
    if op.record.state is Accepted || op.record.state is Running
        || op.record.state is Compensating {
        OperationView {
            record: RecordView {
                state: OperationState::Reconciling,
                updated_at: now,
                ..op.record
            },
            ..op
        }
    } else {
        op
    }
}

/// Marks an open operation after a restart; whether it was open.
pub fn mark_reconciling(op: &mut OperationRow, now: &str) -> (r: bool)
    ensures
        final(op)@ == reconciling(old(op)@, now@),
        r == (old(op)@.record.state is Accepted || old(op)@.record.state is Running
            || old(op)@.record.state is Compensating),
{
    match op.record.state {
        OperationState::Accepted | OperationState::Running | OperationState::Compensating => {
            op.record.state = OperationState::Reconciling;
            op.record.updated_at = now.to_owned();
            true
        },
        _ => false,
    }
}

/// What running the forward steps from `i` on leads to; it stops at the first one
/// that fails.
pub open spec fn forward_view<A: CommandAuthorizer>(
    op: OperationView,
    targets: Seq<TargetTables>,
    steps: Seq<StepPlanView>,
    id: IdentityView,
    authorizer: A,
    answers: Answers,
    fault: Option<OperationFaultPoint>,
    now: Seq<char>,
    i: int,
) -> (OperationView, Seq<TargetTables>, Result<(), OperationProblemView>)
    decreases steps.len() - i,
{
    if i >= steps.len() {
        (op, targets, Ok(()))
    } else if !(steps[i].role is Forward) {
        forward_view(op, targets, steps, id, authorizer, answers, fault, now, i + 1)
    } else {
        let (op1, targets1, went) = step_view(
            op,
            targets,
            i,
            steps[i],
            authorizer.admission(step_lease(id, steps[i])),
            authorizer.expectation(step_lease(id, steps[i])),
            answers(i),
            fault,
            now,
        );
        match went {
            Err(p) => (op1, targets1, Err(p)),
            Ok(x) => if fault == Some(OperationFaultPoint::AfterStepFinalized(i as usize)) {
                (op1, targets1, Err(OperationProblemView::FaultInjected("after_step_finalized"@)))
            } else if x is Failed {
                (op1, targets1, Ok(()))
            } else {
                forward_view(op1, targets1, steps, id, authorizer, answers, fault, now, i + 1)
            },
        }
    }
}

/// What undoing leads to: the steps of a list are run, the last one first, up to
/// the first that fails, which is answered.
pub open spec fn compensate_view<A: CommandAuthorizer>(
    op: OperationView,
    targets: Seq<TargetTables>,
    steps: Seq<StepPlanView>,
    id: IdentityView,
    authorizer: A,
    answers: Answers,
    fault: Option<OperationFaultPoint>,
    now: Seq<char>,
    pending: Seq<usize>,
) -> (OperationView, Seq<TargetTables>, Result<Option<usize>, OperationProblemView>)
    decreases pending.len(),
{
    if pending.len() == 0 {
        (op, targets, Ok(None))
    } else {
        let i = pending.last();
        let (op1, targets1, went) = step_view(
            op,
            targets,
            i as int,
            steps[i as int],
            authorizer.admission(step_lease(id, steps[i as int])),
            authorizer.expectation(step_lease(id, steps[i as int])),
            answers(i as int),
            fault,
            now,
        );
        match went {
            Err(p) => (op1, targets1, Err(p)),
            Ok(x) => if fault == Some(OperationFaultPoint::AfterStepFinalized(i)) {
                (op1, targets1, Err(OperationProblemView::FaultInjected("after_step_finalized"@)))
            } else if x is Failed {
                (op1, targets1, Ok(Some(i)))
            } else {
                compensate_view(
                    op1,
                    targets1,
                    steps,
                    id,
                    authorizer,
                    answers,
                    fault,
                    now,
                    pending.drop_last(),
                )
            },
        }
    }
}

/// The operation once it began to undo.
pub open spec fn compensating(op: OperationView, now: Seq<char>) -> OperationView {
    if op.record.state is Accepted || op.record.state is Running {
        OperationView {
            record: RecordView {
                state: OperationState::Compensating,
                updated_at: now,
                ..op.record
            },
            ..op
        }
    } else {
        op
    }
}

/// Everything that a run of an operation changes, with its answer.
pub ghost struct RunView {
    pub op: OperationView,
    pub intents: Intents,
    pub targets: Seq<TargetTables>,
    pub answer: Result<EndView, OperationProblemView>,
}

/// The end of a run.
pub open spec fn close_view(
    op: OperationView,
    intents: Intents,
    targets: Seq<TargetTables>,
    kind: TerminalView,
    fault: Option<OperationFaultPoint>,
    now: Seq<char>,
) -> RunView {
    match finalize_view(op, intents, kind, now) {
        Err(p) => RunView { op, intents, targets, answer: Err(p) },
        Ok((row, after)) => RunView {
            op: row,
            intents: after,
            targets,
            answer: if fault == Some(OperationFaultPoint::AfterOperationFinalized) {
                Err(OperationProblemView::FaultInjected("after_operation_finalized"@))
            } else {
                Ok(kind.end())
            },
        },
    }
}

/// The steps that a run has to undo now: those that undo what took effect and are
/// pending, where nothing stands in the way.
pub open spec fn undo_list(steps: Seq<StepView>) -> Seq<usize> {
    match saga_decision(steps) {
        DecisionView::Complete => Seq::empty(),
        DecisionView::Open(open) => if open.missing is Some || open.failed is Some {
            Seq::empty()
        } else {
            pending_of(steps, open.needed)
        },
    }
}

/// What a run does behind its forward steps: undo what has to be undone, then end.
pub open spec fn conclude_view<A: CommandAuthorizer>(
    op: OperationView,
    intents: Intents,
    targets: Seq<TargetTables>,
    steps: Seq<StepPlanView>,
    id: IdentityView,
    authorizer: A,
    answers: Answers,
    fault: Option<OperationFaultPoint>,
    now: Seq<char>,
) -> RunView {
    if undo_list(op.steps).len() == 0 {
        close_view(op, intents, targets, closing_kind(op.steps), fault, now)
    } else if fault == Some(OperationFaultPoint::AfterCompensating) {
        RunView {
            op: compensating(op, now),
            intents,
            targets,
            answer: Err(OperationProblemView::FaultInjected("after_compensating"@)),
        }
    } else {
        let (op1, targets1, went) = compensate_view(
            compensating(op, now),
            targets,
            steps,
            id,
            authorizer,
            answers,
            fault,
            now,
            undo_list(op.steps),
        );
        match went {
            Err(p) => RunView { op: op1, intents, targets: targets1, answer: Err(p) },
            Ok(Some(i)) => close_view(
                op1,
                intents,
                targets1,
                TerminalView::NeedsYou { code: CODE_COMPENSATION_FAILED@, step_index: Some(i) },
                fault,
                now,
            ),
            Ok(None) => close_view(
                op1,
                intents,
                targets1,
                closing_kind(op1.steps),
                fault,
                now,
            ),
        }
    }
}

/// Why a run does not begin, if it does not.
pub open spec fn run_problem(
    op: OperationView,
    intents: Intents,
    plan: PlanView,
    effect_count: usize,
) -> Option<OperationProblemView> {
    if plan.problem() is Some {
        plan.problem()
    } else if effect_count != plan.steps.len() {
        Some(OperationProblemView::PlanConflict("effects 与 plan steps 数量不一致"@))
    } else if !intents.contains_key(op.record.command_id) {
        Some(OperationProblemView::Internal("operation 的 command intent 不存在"@))
    } else if identity_of(intents[op.record.command_id]) is Err {
        Some(identity_of(intents[op.record.command_id])->Err_0)
    } else {
        plan_mismatch(op, plan)
    }
}

/// What running an operation leads to: the forward steps in order; where one
/// fails, what took effect is undone, the latest first; and an end that never
/// reports a missed goal as reached.
pub open spec fn run_view<A: CommandAuthorizer>(
    op: OperationView,
    intents: Intents,
    targets: Seq<TargetTables>,
    plan: PlanView,
    authorizer: A,
    answers: Answers,
    effect_count: usize,
    fault: Option<OperationFaultPoint>,
    now: Seq<char>,
) -> RunView {
    if run_problem(op, intents, plan, effect_count) is Some {
        RunView {
            op,
            intents,
            targets,
            answer: Err(run_problem(op, intents, plan, effect_count)->Some_0),
        }
    } else {
        let id = identity_of(intents[op.record.command_id])->Ok_0;
        let (op1, targets1, went) = forward_view(
            op,
            targets,
            plan.steps,
            id,
            authorizer,
            answers,
            fault,
            now,
            0,
        );
        match went {
            Err(p) => RunView { op: op1, intents, targets: targets1, answer: Err(p) },
            Ok(_) => conclude_view(
                op1,
                intents,
                targets1,
                plan.steps,
                id,
                authorizer,
                answers,
                fault,
                now,
            ),
        }
    }
}

/// Running a step moves no other step and keeps every step in its place.
proof fn lemma_step_keeps_places(
    op: OperationView,
    targets: Seq<TargetTables>,
    index: int,
    s: StepPlanView,
    admission: Result<(), ProblemView>,
    expectation: Result<(), ProblemView>,
    effect: Result<StepOutputView, ProblemView>,
    fault: Option<OperationFaultPoint>,
    now: Seq<char>,
)
    requires
        op.wf(),
        0 <= index,
    ensures
        ({
            let after = step_view(
                op,
                targets,
                index,
                s,
                admission,
                expectation,
                effect,
                fault,
                now,
            ).0;
            &&& after.wf()
            &&& after.steps.len() == op.steps.len()
            &&& forall|k: int|
                0 <= k < op.steps.len() && k != index ==> after.steps[k] == #[trigger] op.steps[k]
        }),
{
}

pub(crate) proof fn lemma_pending_in_range(steps: Seq<StepView>, needed: Seq<usize>)
    requires
        forall|k: int| 0 <= k < needed.len() ==> (#[trigger] needed[k]) < steps.len(),
    ensures
        forall|k: int|
            0 <= k < pending_of(steps, needed).len() ==> (#[trigger] pending_of(steps, needed)[k])
                < steps.len(),
    decreases needed.len(),
{
    if needed.len() > 0 {
        let rest = needed.drop_last();
        assert forall|k: int| 0 <= k < rest.len() implies (#[trigger] rest[k]) < steps.len() by {
            assert(rest[k] == needed[k]);
        }
        lemma_pending_in_range(steps, rest);
        assert(needed[needed.len() - 1] < steps.len());
        let before = pending_of(steps, rest);
        assert forall|k: int| 0 <= k < pending_of(steps, needed).len() implies (
        #[trigger] pending_of(steps, needed)[k]) < steps.len() by {
            if k < before.len() {
                assert(pending_of(steps, needed)[k] == before[k]);
            }
        }
    }
}

fn undo_steps(steps: &Vec<StepRecord>) -> (r: Vec<usize>)
    requires
        in_place(steps_view(steps@)),
    ensures
        r@ == undo_list(steps_view(steps@)),
        forall|k: int| 0 <= k < r@.len() ==> (#[trigger] r@[k]) < steps@.len(),
{
    let ghost all = steps_view(steps@);
    proof {
        lemma_needed_in_range(all, steps@.len() as int);
    }
    let mut out: Vec<usize> = Vec::new();
    match decide_saga(steps) {
        SagaDecision::Complete => {},
        SagaDecision::CompensationOpen { needed, failed, missing } => {
            if missing.is_none() && failed.is_none() {
                proof {
                    lemma_pending_in_range(all, needed@);
                }
                let mut k: usize = 0;
                assert(needed@.take(0) =~= Seq::<usize>::empty());
                while k < needed.len()
                    invariant
                        k <= needed@.len(),
                        all == steps_view(steps@),
                        forall|j: int|
                            0 <= j < needed@.len() ==> (#[trigger] needed@[j]) < steps@.len(),
                        out@ == pending_of(all, needed@.take(k as int)),
                    decreases needed@.len() - k,
                {
                    let i: usize = needed[k];
                    assert(i < steps@.len());
                    assert(all[i as int] == steps@[i as int]@);
                    assert(needed@.take(k + 1).drop_last() =~= needed@.take(k as int));
                    if steps[i].state == StepState::Pending {
                        out.push(i);
                    }
                    k = k + 1;
                }
                assert(needed@.take(needed@.len() as int) =~= needed@);
            }
        },
    }
    out
}

/// The view of how undoing went.
pub open spec fn undone(r: Result<Option<usize>, OperationProblem>) -> Result<
    Option<usize>,
    OperationProblemView,
> {
    match r {
        Ok(o) => Ok(o),
        Err(p) => Err(p@),
    }
}

/// Running the forward steps asks no other step.
proof fn lemma_forward_asks<A: CommandAuthorizer>(
    op: OperationView,
    targets: Seq<TargetTables>,
    steps: Seq<StepPlanView>,
    id: IdentityView,
    authorizer: A,
    a: Answers,
    b: Answers,
    fault: Option<OperationFaultPoint>,
    now: Seq<char>,
    i: int,
)
    requires
        0 <= i,
        forall|k: int|
            0 <= k < steps.len() && (#[trigger] steps[k]).role is Forward ==> a(k) == b(k),
    ensures
        forward_view(op, targets, steps, id, authorizer, a, fault, now, i) == forward_view(
            op,
            targets,
            steps,
            id,
            authorizer,
            b,
            fault,
            now,
            i,
        ),
    decreases steps.len() - i,
{
    if i < steps.len() {
        let (op1, targets1, _) = step_view(
            op,
            targets,
            i,
            steps[i],
            authorizer.admission(step_lease(id, steps[i])),
            authorizer.expectation(step_lease(id, steps[i])),
            a(i),
            fault,
            now,
        );
        lemma_forward_asks(op, targets, steps, id, authorizer, a, b, fault, now, i + 1);
        lemma_forward_asks(op1, targets1, steps, id, authorizer, a, b, fault, now, i + 1);
    }
}

/// Undoing asks no step that is not in its list.
proof fn lemma_undoing_asks<A: CommandAuthorizer>(
    op: OperationView,
    targets: Seq<TargetTables>,
    steps: Seq<StepPlanView>,
    id: IdentityView,
    authorizer: A,
    a: Answers,
    b: Answers,
    fault: Option<OperationFaultPoint>,
    now: Seq<char>,
    pending: Seq<usize>,
)
    requires
        forall|k: int|
            0 <= k < pending.len() ==> a((#[trigger] pending[k]) as int) == b(pending[k] as int),
    ensures
        compensate_view(op, targets, steps, id, authorizer, a, fault, now, pending)
            == compensate_view(op, targets, steps, id, authorizer, b, fault, now, pending),
    decreases pending.len(),
{
    if pending.len() > 0 {
        let i = pending.last();
        assert(pending[pending.len() - 1] == i);
        let (op1, targets1, _) = step_view(
            op,
            targets,
            i as int,
            steps[i as int],
            authorizer.admission(step_lease(id, steps[i as int])),
            authorizer.expectation(step_lease(id, steps[i as int])),
            a(i as int),
            fault,
            now,
        );
        let rest = pending.drop_last();
        assert forall|k: int| 0 <= k < rest.len() implies a((#[trigger] rest[k]) as int) == b(
            rest[k] as int,
        ) by {
            assert(rest[k] == pending[k]);
        }
        lemma_undoing_asks(op1, targets1, steps, id, authorizer, a, b, fault, now, rest);
    }
}

pub(crate) proof fn lemma_roles_match(stored: Seq<StepView>, steps: Seq<StepPlanView>, i: int)
    requires
        0 <= i,
        stored.len() == steps.len(),
        first_mismatch(stored, steps, i) is None,
    ensures
        forall|k: int| i <= k < steps.len() ==> (#[trigger] steps[k]).role == stored[k].role,
    decreases steps.len() - i,
{
    if i < steps.len() {
        lemma_roles_match(stored, steps, i + 1);
    }
}

/// What has to be undone is undone by steps of its own, each of which is listed once.
pub(crate) proof fn lemma_undo_list_is_of_undoing_steps(steps: Seq<StepView>)
    requires
        in_place(steps),
    ensures
        undo_list(steps).no_duplicates(),
        forall|k: int|
            0 <= k < undo_list(steps).len() ==> steps[(
            #[trigger] undo_list(steps)[k]) as int].role is Compensate,
{
    let n = steps.len() as int;
    let needed = open_of(steps, n).needed;
    law_what_to_undo_is_in_order(steps);
    lemma_needed_compensates(steps, n);
    lemma_pending_listed(steps, needed);
    assert forall|k: int| 0 <= k < undo_list(steps).len() implies steps[(
    #[trigger] undo_list(steps)[k]) as int].role is Compensate by {
        let i = undo_list(steps)[k];
        assert(needed.contains(i));
        let m = choose|m: int| 0 <= m < needed.len() && needed[m] == i;
        assert(steps[needed[m] as int].role is Compensate);
    }
    assert forall|i: int, j: int|
        0 <= i < undo_list(steps).len() && 0 <= j < undo_list(steps).len() && i
            != j implies undo_list(steps)[i] != undo_list(steps)[j] by {
        let list = undo_list(steps);
        if i < j {
            assert(steps[list[i] as int].compensates->0 < steps[list[j] as int].compensates->0);
        } else {
            assert(steps[list[j] as int].compensates->0 < steps[list[i] as int].compensates->0);
        }
    }
}

/// The answers of the forward steps from one side, all others from the other.
spec fn both_answers(steps: Seq<StepPlanView>, a: Answers, b: Answers) -> Answers {
    |i: int|
        if 0 <= i < steps.len() && steps[i].role is Forward {
            a(i)
        } else {
            b(i)
        }
}

/// What a run does behind its forward steps asks none of them.
proof fn lemma_conclusion_asks<A: CommandAuthorizer>(
    op: OperationView,
    intents: Intents,
    targets: Seq<TargetTables>,
    steps: Seq<StepPlanView>,
    id: IdentityView,
    authorizer: A,
    first: Answers,
    second: Answers,
    fault: Option<OperationFaultPoint>,
    now: Seq<char>,
)
    requires
        op.wf(),
        forall|k: int| 0 <= k < steps.len() ==> (#[trigger] steps[k]).role == op.steps[k].role,
    ensures
        conclude_view(
            op,
            intents,
            targets,
            steps,
            id,
            authorizer,
            both_answers(steps, first, second),
            fault,
            now,
        ) == conclude_view(op, intents, targets, steps, id, authorizer, second, fault, now),
{
    let both = both_answers(steps, first, second);
    let list = undo_list(op.steps);
    lemma_undo_list_is_of_undoing_steps(op.steps);
    assert forall|k: int| 0 <= k < list.len() implies both((#[trigger] list[k]) as int) == second(
        list[k] as int,
    ) by {
        let i = list[k] as int;
        assert(op.steps[i].role is Compensate);
        if i < steps.len() {
            assert(steps[i].role == op.steps[i].role);
        }
    }
    lemma_undoing_asks(
        compensating(op, now),
        targets,
        steps,
        id,
        authorizer,
        both,
        second,
        fault,
        now,
        list,
    );
}

impl OperationCoordinator {
    fn run_forward<A: CommandAuthorizer, E: StepEffects>(
        &self,
        operation: &mut OperationRow,
        plan: &OperationPlan,
        identity: &IntentIdentity,
        targets: &mut Vec<TargetDatabase>,
        authorizer: &A,
        effects: &E,
        fault: Option<OperationFaultPoint>,
        now: &str,
    ) -> (r: Result<(), OperationProblem>)
        requires
            targets_wf(old(targets)@),
            old(operation)@.wf(),
        ensures
            targets_wf(final(targets)@),
            final(targets)@.len() == old(targets)@.len(),
            final(operation)@.wf(),
            final(operation)@.steps.len() == old(operation)@.steps.len(),
            forall|k: int|
                0 <= k < old(operation)@.steps.len() ==> same_step(
                    #[trigger] final(operation)@.steps[k],
                    old(operation)@.steps[k],
                ),
            exists|answers: Answers| #[trigger]
                can_be_answers(*effects, answers) && (
                    final(operation)@,
                    tables(final(targets)@),
                    outcome(r),
                ) == forward_view(
                    old(operation)@,
                    tables(old(targets)@),
                    plan@.steps,
                    identity@,
                    *authorizer,
                    answers,
                    fault,
                    now@,
                    0,
                ),
    {
        let ghost begun = operation@;
        let ghost had = tables(targets@);
        let ghost steps = plan@.steps;
        let ghost mut answers: Answers = some_answers(*effects);
        let mut i: usize = 0;
        while i < plan.steps.len()
            invariant
                i <= plan.steps@.len(),
                steps == plan@.steps,
                begun == old(operation)@,
                had == tables(old(targets)@),
                targets_wf(targets@),
                targets@.len() == old(targets)@.len(),
                operation@.wf(),
                operation@.steps.len() == begun.steps.len(),
                forall|k: int|
                    0 <= k < begun.steps.len() ==> same_step(
                        #[trigger] operation@.steps[k],
                        begun.steps[k],
                    ),
                can_be_answers(*effects, answers),
                forall|w: Answers|
                    #![trigger forward_view(
                        begun,
                        had,
                        steps,
                        identity@,
                        *authorizer,
                        w,
                        fault,
                        now@,
                        0,
                    )]
                    (forall|k: int| 0 <= k < i ==> #[trigger] w(k) == answers(k)) ==> forward_view(
                        begun,
                        had,
                        steps,
                        identity@,
                        *authorizer,
                        w,
                        fault,
                        now@,
                        0,
                    ) == forward_view(
                        operation@,
                        tables(targets@),
                        steps,
                        identity@,
                        *authorizer,
                        w,
                        fault,
                        now@,
                        i as int,
                    ),
            decreases plan.steps@.len() - i,
        {
            assert(steps[i as int] == plan.steps@[i as int]@);
            if plan.steps[i].role == StepRole::Forward {
                let ghost stood = operation@;
                let ghost held = tables(targets@);
                let ghost s = steps[i as int];
                let went: Result<StepExecution, OperationProblem> = self.execute_step(
                    operation,
                    i,
                    &plan.steps[i],
                    identity,
                    targets,
                    authorizer,
                    effects,
                    fault,
                    now,
                );
                proof {
                    let answer = choose|answer: Result<StepOutputView, ProblemView>| #[trigger]
                        can_be_answer(*effects, i as int, answer) && (
                            operation@,
                            tables(targets@),
                            execution(went),
                        ) == step_view(
                            stood,
                            held,
                            i as int,
                            s,
                            authorizer.admission(step_lease(identity@, s)),
                            authorizer.expectation(step_lease(identity@, s)),
                            answer,
                            fault,
                            now@,
                        );
                    let had_answers = answers;
                    answers = answers_with(had_answers, i as int, answer);
                    lemma_step_keeps_places(
                        stood,
                        held,
                        i as int,
                        s,
                        authorizer.admission(step_lease(identity@, s)),
                        authorizer.expectation(step_lease(identity@, s)),
                        answer,
                        fault,
                        now@,
                    );
                    assert forall|k: int| 0 <= k < begun.steps.len() implies same_step(
                        #[trigger] operation@.steps[k],
                        begun.steps[k],
                    ) by {
                        assert(same_step(stood.steps[k], begun.steps[k]));
                    }
                    assert(answers(i as int) == answer);
                    assert forall|k: int| can_be_answer(*effects, k, #[trigger] answers(k)) by {
                        assert(can_be_answer(*effects, k, had_answers(k)));
                    }
                    assert(can_be_answers(*effects, answers));
                    assert(forward_view(
                        begun,
                        had,
                        steps,
                        identity@,
                        *authorizer,
                        answers,
                        fault,
                        now@,
                        0,
                    ) == forward_view(
                        stood,
                        held,
                        steps,
                        identity@,
                        *authorizer,
                        answers,
                        fault,
                        now@,
                        i as int,
                    ));
                    assert forall|w: Answers|
                        #![trigger forward_view(
                            begun,
                            had,
                            steps,
                            identity@,
                            *authorizer,
                            w,
                            fault,
                            now@,
                            0,
                        )]
                        (forall|k: int| 0 <= k < i + 1 ==> #[trigger] w(k) == answers(
                            k,
                        )) implies forward_view(
                        begun,
                        had,
                        steps,
                        identity@,
                        *authorizer,
                        w,
                        fault,
                        now@,
                        0,
                    ) == forward_view(
                        stood,
                        held,
                        steps,
                        identity@,
                        *authorizer,
                        w,
                        fault,
                        now@,
                        i as int,
                    ) && w(i as int) == answer by {
                        assert(w(i as int) == answers(i as int));
                        assert forall|k: int| 0 <= k < i implies #[trigger] w(k) == had_answers(
                            k,
                        ) by {
                            assert(w(k) == answers(k));
                        }
                    }
                }
                match went {
                    Err(p) => {
                        return Err(p);
                    },
                    Ok(went) => {
                        if fault == Some(OperationFaultPoint::AfterStepFinalized(i)) {
                            return Err(OperationProblem::FaultInjected("after_step_finalized"));
                        }
                        if went == StepExecution::Failed {
                            return Ok(());
                        }
                    },
                }
            }
            i = i + 1;
        }
        assert(forward_view(
            begun,
            had,
            steps,
            identity@,
            *authorizer,
            answers,
            fault,
            now@,
            0,
        ) == (operation@, tables(targets@), Ok::<(), OperationProblemView>(())));
        Ok(())
    }

    fn run_compensation<A: CommandAuthorizer, E: StepEffects>(
        &self,
        operation: &mut OperationRow,
        plan: &OperationPlan,
        pending: &Vec<usize>,
        identity: &IntentIdentity,
        targets: &mut Vec<TargetDatabase>,
        authorizer: &A,
        effects: &E,
        fault: Option<OperationFaultPoint>,
        now: &str,
    ) -> (r: Result<Option<usize>, OperationProblem>)
        requires
            targets_wf(old(targets)@),
            old(operation)@.wf(),
            pending@.no_duplicates(),
            forall|k: int| 0 <= k < pending@.len() ==> (#[trigger] pending@[k]) < plan.steps@.len(),
        ensures
            targets_wf(final(targets)@),
            final(targets)@.len() == old(targets)@.len(),
            final(operation)@.wf(),
            exists|answers: Answers| #[trigger]
                can_be_answers(*effects, answers) && (
                    final(operation)@,
                    tables(final(targets)@),
                    undone(r),
                ) == compensate_view(
                    old(operation)@,
                    tables(old(targets)@),
                    plan@.steps,
                    identity@,
                    *authorizer,
                    answers,
                    fault,
                    now@,
                    pending@,
                ),
    {
        let ghost begun = operation@;
        let ghost had = tables(targets@);
        let ghost steps = plan@.steps;
        let ghost mut answers: Answers = some_answers(*effects);
        let mut k: usize = pending.len();
        assert(pending@.take(pending@.len() as int) =~= pending@);
        while k > 0
            invariant
                k <= pending@.len(),
                pending@.no_duplicates(),
                forall|j: int|
                    0 <= j < pending@.len() ==> (#[trigger] pending@[j]) < plan.steps@.len(),
                steps == plan@.steps,
                begun == old(operation)@,
                had == tables(old(targets)@),
                targets_wf(targets@),
                targets@.len() == old(targets)@.len(),
                operation@.wf(),
                can_be_answers(*effects, answers),
                forall|w: Answers|
                    #![trigger compensate_view(
                        begun,
                        had,
                        steps,
                        identity@,
                        *authorizer,
                        w,
                        fault,
                        now@,
                        pending@,
                    )]
                    (forall|j: int|
                        k <= j < pending@.len() ==> w((#[trigger] pending@[j]) as int) == answers(
                            pending@[j] as int,
                        )) ==> compensate_view(
                        begun,
                        had,
                        steps,
                        identity@,
                        *authorizer,
                        w,
                        fault,
                        now@,
                        pending@,
                    ) == compensate_view(
                        operation@,
                        tables(targets@),
                        steps,
                        identity@,
                        *authorizer,
                        w,
                        fault,
                        now@,
                        pending@.take(k as int),
                    ),
            decreases k,
        {
            let i: usize = pending[k - 1];
            assert(i < plan.steps@.len());
            assert(pending@.take(k as int).last() == i);
            assert(pending@.take(k as int).drop_last() =~= pending@.take(k - 1));
            assert(steps[i as int] == plan.steps@[i as int]@);
            let ghost stood = operation@;
            let ghost held = tables(targets@);
            let ghost s = steps[i as int];
            let went: Result<StepExecution, OperationProblem> = self.execute_step(
                operation,
                i,
                &plan.steps[i],
                identity,
                targets,
                authorizer,
                effects,
                fault,
                now,
            );
            proof {
                let answer = choose|answer: Result<StepOutputView, ProblemView>| #[trigger]
                    can_be_answer(*effects, i as int, answer) && (
                        operation@,
                        tables(targets@),
                        execution(went),
                    ) == step_view(
                        stood,
                        held,
                        i as int,
                        s,
                        authorizer.admission(step_lease(identity@, s)),
                        authorizer.expectation(step_lease(identity@, s)),
                        answer,
                        fault,
                        now@,
                    );
                let had_answers = answers;
                answers = answers_with(had_answers, i as int, answer);
                lemma_step_keeps_places(
                    stood,
                    held,
                    i as int,
                    s,
                    authorizer.admission(step_lease(identity@, s)),
                    authorizer.expectation(step_lease(identity@, s)),
                    answer,
                    fault,
                    now@,
                );
                assert(answers(i as int) == answer);
                assert forall|m: int| can_be_answer(*effects, m, #[trigger] answers(m)) by {
                    assert(can_be_answer(*effects, m, had_answers(m)));
                }
                assert(can_be_answers(*effects, answers));
                assert forall|w: Answers|
                    #![trigger compensate_view(
                        begun,
                        had,
                        steps,
                        identity@,
                        *authorizer,
                        w,
                        fault,
                        now@,
                        pending@,
                    )]
                    (forall|j: int|
                        k - 1 <= j < pending@.len() ==> w((#[trigger] pending@[j]) as int)
                            == answers(pending@[j] as int)) implies compensate_view(
                    begun,
                    had,
                    steps,
                    identity@,
                    *authorizer,
                    w,
                    fault,
                    now@,
                    pending@,
                ) == compensate_view(
                    stood,
                    held,
                    steps,
                    identity@,
                    *authorizer,
                    w,
                    fault,
                    now@,
                    pending@.take(k as int),
                ) && w(i as int) == answer by {
                    assert(w(pending@[k - 1] as int) == answers(pending@[k - 1] as int));
                    assert forall|j: int| k <= j < pending@.len() implies w(
                        (#[trigger] pending@[j]) as int,
                    ) == had_answers(pending@[j] as int) by {
                        assert(pending@[j] != pending@[k - 1]);
                        assert(w(pending@[j] as int) == answers(pending@[j] as int));
                    }
                }
                assert(compensate_view(
                    begun,
                    had,
                    steps,
                    identity@,
                    *authorizer,
                    answers,
                    fault,
                    now@,
                    pending@,
                ) == compensate_view(
                    stood,
                    held,
                    steps,
                    identity@,
                    *authorizer,
                    answers,
                    fault,
                    now@,
                    pending@.take(k as int),
                ));
            }
            match went {
                Err(p) => {
                    return Err(p);
                },
                Ok(went) => {
                    if fault == Some(OperationFaultPoint::AfterStepFinalized(i)) {
                        return Err(OperationProblem::FaultInjected("after_step_finalized"));
                    }
                    if went == StepExecution::Failed {
                        return Ok(Some(i));
                    }
                },
            }
            k = k - 1;
        }
        assert(compensate_view(
            begun,
            had,
            steps,
            identity@,
            *authorizer,
            answers,
            fault,
            now@,
            pending@,
        ) == (operation@, tables(targets@), Ok::<Option<usize>, OperationProblemView>(None)));
        Ok(None)
    }

    fn close(
        &self,
        operation: &mut OperationRow,
        intents: &mut Table<IntentRow>,
        kind: &TerminalKind,
        fault: Option<OperationFaultPoint>,
        now: &str,
    ) -> (r: Result<OperationOutcome, OperationProblem>)
        requires
            old(intents).wf(),
        ensures
            final(intents).wf(),
            forall|ts: Seq<TargetTables>|
                #![trigger close_view(old(operation)@, old(intents)@, ts, kind@, fault, now@)]
                close_view(old(operation)@, old(intents)@, ts, kind@, fault, now@) == (RunView {
                    op: final(operation)@,
                    intents: final(intents)@,
                    targets: ts,
                    answer: outcome(r),
                }),
    {
        match finalize_operation(operation, intents, kind, now) {
            Err(p) => Err(p),
            Ok(_) => {
                if fault == Some(OperationFaultPoint::AfterOperationFinalized) {
                    return Err(OperationProblem::FaultInjected("after_operation_finalized"));
                }
                Ok(outcome_of_kind(kind))
            },
        }
    }

    /// Runs an operation. See [`run_view`] for what each case leads to.
    pub fn run<A: CommandAuthorizer, E: StepEffects>(
        &self,
        operation: &mut OperationRow,
        intents: &mut Table<IntentRow>,
        plan: &OperationPlan,
        targets: &mut Vec<TargetDatabase>,
        authorizer: &A,
        effects: &E,
        effect_count: usize,
        fault: Option<OperationFaultPoint>,
        now: &str,
    ) -> (r: Result<OperationOutcome, OperationProblem>)
        requires
            old(intents).wf(),
            old(operation)@.wf(),
            targets_wf(old(targets)@),
        ensures
            final(intents).wf(),
            targets_wf(final(targets)@),
            final(targets)@.len() == old(targets)@.len(),
            exists|answers: Answers| #[trigger]
                can_be_answers(*effects, answers) && (RunView {
                    op: final(operation)@,
                    intents: final(intents)@,
                    targets: tables(final(targets)@),
                    answer: outcome(r),
                }) == run_view(
                    old(operation)@,
                    old(intents)@,
                    tables(old(targets)@),
                    plan@,
                    *authorizer,
                    answers,
                    effect_count,
                    fault,
                    now@,
                ),
    {
        let ghost begun = operation@;
        let ghost had = tables(targets@);
        let ghost steps = plan@.steps;
        assert(can_be_answers(*effects, some_answers(*effects)));
        match plan.validate() {
            Ok(_) => {},
            Err(p) => {
                return Err(p);
            },
        }
        if effect_count != plan.steps.len() {
            return Err(
                OperationProblem::PlanConflict("effects 与 plan steps 数量不一致".to_owned()),
            );
        }
        let identity: IntentIdentity = match intents.get(operation.record.command_id.as_str()) {
            None => {
                return Err(
                    OperationProblem::Internal("operation 的 command intent 不存在".to_owned()),
                );
            },
            Some(row) => match load_identity(row) {
                Ok(identity) => identity,
                Err(p) => {
                    return Err(p);
                },
            },
        };
        match verify_plan(operation, plan) {
            Ok(_) => {},
            Err(p) => {
                return Err(p);
            },
        }
        let forward: Result<(), OperationProblem> = self.run_forward(
            operation,
            plan,
            &identity,
            targets,
            authorizer,
            effects,
            fault,
            now,
        );
        let ghost first = choose|answers: Answers| #[trigger]
            can_be_answers(*effects, answers) && (
                operation@,
                tables(targets@),
                outcome(forward),
            ) == forward_view(
                begun,
                had,
                steps,
                identity@,
                *authorizer,
                answers,
                fault,
                now@,
                0,
            );
        match forward {
            Ok(_) => {},
            Err(p) => {
                return Err(p);
            },
        }
        let ghost ran = operation@;
        let ghost held = tables(targets@);
        let ghost under_way = intents@;
        proof {
            lemma_roles_match(begun.steps, steps, 0);
            assert forall|k: int| 0 <= k < steps.len() implies (#[trigger] steps[k]).role
                == ran.steps[k].role by {
                assert(same_step(ran.steps[k], begun.steps[k]));
            }
        }
        let r: Result<OperationOutcome, OperationProblem> = self.conclude(
            operation,
            intents,
            plan,
            &identity,
            targets,
            authorizer,
            effects,
            fault,
            now,
        );
        proof {
            let done = RunView {
                op: operation@,
                intents: intents@,
                targets: tables(targets@),
                answer: outcome(r),
            };
            let second = choose|answers: Answers| #[trigger]
                can_be_answers(*effects, answers) && done == conclude_view(
                    ran,
                    under_way,
                    held,
                    steps,
                    identity@,
                    *authorizer,
                    answers,
                    fault,
                    now@,
                );
            let both = both_answers(steps, first, second);
            assert forall|k: int| can_be_answer(*effects, k, #[trigger] both(k)) by {
                assert(can_be_answer(*effects, k, first(k)));
                assert(can_be_answer(*effects, k, second(k)));
            }
            assert(can_be_answers(*effects, both));
            lemma_forward_asks(
                begun,
                had,
                steps,
                identity@,
                *authorizer,
                first,
                both,
                fault,
                now@,
                0,
            );
            lemma_conclusion_asks(
                ran,
                under_way,
                held,
                steps,
                identity@,
                *authorizer,
                first,
                second,
                fault,
                now@,
            );
        }
        r
    }

    fn conclude<A: CommandAuthorizer, E: StepEffects>(
        &self,
        operation: &mut OperationRow,
        intents: &mut Table<IntentRow>,
        plan: &OperationPlan,
        identity: &IntentIdentity,
        targets: &mut Vec<TargetDatabase>,
        authorizer: &A,
        effects: &E,
        fault: Option<OperationFaultPoint>,
        now: &str,
    ) -> (r: Result<OperationOutcome, OperationProblem>)
        requires
            old(intents).wf(),
            old(operation)@.wf(),
            old(operation)@.steps.len() == plan.steps@.len(),
            targets_wf(old(targets)@),
        ensures
            final(intents).wf(),
            targets_wf(final(targets)@),
            final(targets)@.len() == old(targets)@.len(),
            exists|answers: Answers| #[trigger]
                can_be_answers(*effects, answers) && (RunView {
                    op: final(operation)@,
                    intents: final(intents)@,
                    targets: tables(final(targets)@),
                    answer: outcome(r),
                }) == conclude_view(
                    old(operation)@,
                    old(intents)@,
                    tables(old(targets)@),
                    plan@.steps,
                    identity@,
                    *authorizer,
                    answers,
                    fault,
                    now@,
                ),
    {
        let ghost ran = operation@;
        let ghost held = tables(targets@);
        assert(can_be_answers(*effects, some_answers(*effects)));
        let pending: Vec<usize> = undo_steps(&operation.steps);
        proof {
            lemma_undo_list_is_of_undoing_steps(ran.steps);
        }
        if pending.len() == 0 {
            let kind: TerminalKind = decide_end(&operation.steps);
            let ghost closing = close_view(
                operation@,
                intents@,
                tables(targets@),
                kind@,
                fault,
                now@,
            );
            return self.close(operation, intents, &kind, fault, now);
        }
        match operation.record.state {
            OperationState::Accepted | OperationState::Running => {
                operation.record.state = OperationState::Compensating;
                operation.record.updated_at = now.to_owned();
            },
            _ => {},
        }
        if fault == Some(OperationFaultPoint::AfterCompensating) {
            return Err(OperationProblem::FaultInjected("after_compensating"));
        }
        let went: Result<Option<usize>, OperationProblem> = self.run_compensation(
            operation,
            plan,
            &pending,
            identity,
            targets,
            authorizer,
            effects,
            fault,
            now,
        );
        let ghost answers = choose|answers: Answers| #[trigger]
            can_be_answers(*effects, answers) && (operation@, tables(targets@), undone(went))
                == compensate_view(
                compensating(ran, now@),
                held,
                plan@.steps,
                identity@,
                *authorizer,
                answers,
                fault,
                now@,
                pending@,
            );
        assert(can_be_answers(*effects, answers));
        match went {
            Err(p) => Err(p),
            Ok(Some(i)) => {
                let kind: TerminalKind = TerminalKind::NeedsYou {
                    code: CODE_COMPENSATION_FAILED,
                    step_index: Some(i),
                };
                let ghost closing = close_view(
                    operation@,
                    intents@,
                    tables(targets@),
                    kind@,
                    fault,
                    now@,
                );
                self.close(operation, intents, &kind, fault, now)
            },
            Ok(None) => {
                let kind: TerminalKind = decide_end(&operation.steps);
                let ghost closing = close_view(
                    operation@,
                    intents@,
                    tables(targets@),
                    kind@,
                    fault,
                    now@,
                );
                self.close(operation, intents, &kind, fault, now)
            },
        }
    }

    /// Accepts an operation under a fresh handle. See [`accept_view`] for what
    /// each case leads to.
    pub fn accept<A: CommandAuthorizer>(
        &self,
        intents: &mut Table<IntentRow>,
        operation: &mut Option<OperationRow>,
        envelope: &CommandEnvelope,
        plan: &OperationPlan,
        target: &mut TargetDatabase,
        authorizer: &A,
        now: &str,
    ) -> (r: Result<OperationHandle, OperationProblem>)
        requires
            old(intents).wf(),
            old(target).wf(),
            *old(operation) matches Some(row) ==> row@.record.command_id == envelope@.command_id,
        ensures
            final(intents).wf(),
            final(target).wf(),
            exists|fresh: Seq<char>|
                operation_handle_of(fresh) == Ok::<Seq<char>, Seq<char>>(fresh) && (
                    final(intents)@,
                    opt_operation(*final(operation)),
                    final(target)@,
                    outcome(r),
                ) == #[trigger] accept_view(
                    old(intents)@,
                    opt_operation(*old(operation)),
                    old(target)@,
                    envelope@,
                    envelope@.digest(self.key()),
                    plan@,
                    fresh,
                    authorizer.admission(envelope@.lease()),
                    authorizer.expectation(envelope@.lease()),
                    None,
                    now@,
                ),
    {
        let fresh: OperationHandle = OperationHandle::new();
        self.accept_internal(
            intents,
            operation,
            envelope,
            plan,
            target,
            authorizer,
            &fresh,
            None,
            now,
        )
    }
}

/// Putting the one field of an acceptance in order changes nothing, and it reads
/// back as the handle.
proof fn lemma_acceptance_reads_back(handle: Seq<char>)
    ensures
        sorted_view(acceptance_json(handle)) == acceptance_json(handle),
        as_text_view(field_of(acceptance_json(handle), "operation_handle"@)) == Some(handle),
{
    let f = seq![("operation_handle"@, JsonView::Text(handle))];
    let v = JsonView::Object(f);
    reveal_with_fuel(crate::json::sort_fields, 2);
    reveal_with_fuel(crate::json::insert_field, 2);
    let sorted = crate::json::sorted_values(f);
    assert(sorted =~= f) by {
        assert(sorted.len() == 1);
        assert(sorted[0] == ("operation_handle"@, sorted_view(f[0].1)));
        assert(sorted_view(JsonView::Text(handle)) == JsonView::Text(handle));
    }
    assert(f.drop_last() =~= Seq::<(Seq<char>, JsonView)>::empty());
    assert(crate::json::sort_fields(f) =~= f);
    assert(v->Object_0 == f);
    assert(field_of(v, "operation_handle"@) == crate::json::field_in(f, "operation_handle"@));
    assert(f[0].0 == "operation_handle"@);
}

/// An operation is accepted only where the target holds the receipt of it under
/// the handle that is answered.
pub proof fn law_accepted_means_receipt(
    intents: Intents,
    op: Option<OperationView>,
    t: TargetTables,
    e: EnvelopeView,
    digest: Seq<char>,
    plan: PlanView,
    fresh: Seq<char>,
    admission: Result<(), ProblemView>,
    expectation: Result<(), ProblemView>,
    now: Seq<char>,
    handle: Seq<char>,
)
    requires
        operation_handle_of(fresh) == Ok::<Seq<char>, Seq<char>>(fresh),
        op matches Some(row) ==> operation_handle_of(row.record.operation_handle) == Ok::<
            Seq<char>,
            Seq<char>,
        >(row.record.operation_handle),
        accept_view(
            intents,
            op,
            t,
            e,
            Ok(digest),
            plan,
            fresh,
            admission,
            expectation,
            None,
            now,
        ).3 == Ok::<Seq<char>, OperationProblemView>(handle),
    ensures
        acceptance_view(
            accept_view(
                intents,
                op,
                t,
                e,
                Ok(digest),
                plan,
                fresh,
                admission,
                expectation,
                None,
                now,
            ).2.receipts,
            e.command_id,
            digest,
            e.target.aggregate.handle,
        ) == Ok::<Option<Seq<char>>, ProblemView>(Some(handle)),
{
    lemma_acceptance_reads_back(handle);
}

/// Accepting an operation again gives the handle it was accepted under and
/// changes nothing, also where the first answer was lost behind the target's
/// commit.
pub proof fn law_acceptance_is_repeatable(
    intents: Intents,
    t: TargetTables,
    e: EnvelopeView,
    digest: Seq<char>,
    plan: PlanView,
    fresh: Seq<char>,
    fault: Option<OperationAcceptFaultPoint>,
    now: Seq<char>,
    other: Seq<char>,
    expectation: Result<(), ProblemView>,
    later: Seq<char>,
)
    requires
        operation_handle_of(fresh) == Ok::<Seq<char>, Seq<char>>(fresh),
        accept_problem(t, e, Ok(digest), plan) is None,
        !intents.contains_key(e.command_id),
        !t.receipts.contains_key(e.command_id),
        fault is None || fault == Some(OperationAcceptFaultPoint::AfterTargetCommit),
    ensures
        ({
            let first = accept_view(
                intents,
                None,
                t,
                e,
                Ok(digest),
                plan,
                fresh,
                Ok(()),
                Ok(()),
                fault,
                now,
            );
            &&& fault is None ==> first.3 == Ok::<Seq<char>, OperationProblemView>(fresh)
            &&& accept_view(
                first.0,
                first.1,
                first.2,
                e,
                Ok(digest),
                plan,
                other,
                Ok(()),
                expectation,
                None,
                later,
            ) == (first.0, first.1, first.2, Ok::<Seq<char>, OperationProblemView>(fresh))
        }),
{
    lemma_acceptance_reads_back(fresh);
}

/// The intent of an operation counts as applied exactly where its task was done.
pub proof fn law_success_is_never_faked(
    op: OperationView,
    intents: Intents,
    kind: TerminalView,
    now: Seq<char>,
)
    requires
        !op.record.state.terminal(),
        intents.contains_key(op.record.command_id),
        intents[op.record.command_id].state is Reserved,
        kind matches TerminalView::RejectedBeforeAccept { intent_state, .. } ==> !(intent_state
            is Applied),
    ensures
        finalize_view(op, intents, kind, now) matches Ok((row, after)) && row.record.state.terminal()
            && (after[op.record.command_id].state is Applied <==> kind is Completed),
{
}

/// How an operation ended can be read from what is stored of it.
pub proof fn law_end_is_stored(
    op: OperationView,
    intents: Intents,
    kind: TerminalView,
    now: Seq<char>,
)
    requires
        !op.record.state.terminal(),
        op.record.progress.outcome is None,
        op.record.progress.problem is None,
        finalize_view(op, intents, kind, now) is Ok,
    ensures
        stored_end(finalize_view(op, intents, kind, now)->Ok_0.0.record) == kind.end(),
{
    reveal_strlit("compensated");
    reveal_strlit("not_accepted");
    assert("compensated"@.len() == 11);
    assert("not_accepted"@.len() == 12);
}

/// A step that holds its receipt is never run again: whatever its effect would
/// hand back, the target stays as it is and the receipt's result counts.
pub proof fn law_receipt_stands_for_the_effect(
    t: TargetTables,
    op: RecordView,
    index: int,
    s: StepPlanView,
    admission: Result<(), ProblemView>,
    expectation: Result<(), ProblemView>,
    effect: Result<StepOutputView, ProblemView>,
    now: Seq<char>,
    result: JsonView,
)
    requires
        receipt_result(t.receipts, s.step_id, s.semantic_digest, s.target.aggregate.handle) == Ok::<
            Option<JsonView>,
            ProblemView,
        >(Some(result)),
    ensures
        step_target_view(t, op, index, s, admission, expectation, effect, now) == (
            t,
            match admission {
                Ok(_) => Ok::<JsonView, ProblemView>(result),
                Err(p) => Err(p),
            },
        ),
{
}

/// Undoing what has to be undone leaves no step of the list pending: each took
/// effect, and no other step changed.
proof fn lemma_compensation_settles<A: CommandAuthorizer>(
    op: OperationView,
    targets: Seq<TargetTables>,
    steps: Seq<StepPlanView>,
    id: IdentityView,
    authorizer: A,
    answers: Answers,
    fault: Option<OperationFaultPoint>,
    now: Seq<char>,
    pending: Seq<usize>,
)
    requires
        op.wf(),
        compensate_view(
            op,
            targets,
            steps,
            id,
            authorizer,
            answers,
            fault,
            now,
            pending,
        ).2 == Ok::<Option<usize>, OperationProblemView>(None),
    ensures
        ({
            let after = compensate_view(
                op,
                targets,
                steps,
                id,
                authorizer,
                answers,
                fault,
                now,
                pending,
            ).0;
            &&& after.wf()
            &&& after.steps.len() == op.steps.len()
            &&& forall|k: int|
                0 <= k < op.steps.len() ==> same_step(#[trigger] after.steps[k], op.steps[k])
            &&& forall|k: int|
                0 <= k < op.steps.len() ==> ((#[trigger] after.steps[k]).state
                    == op.steps[k].state || (op.steps[k].state is Pending && after.steps[k].state
                    is Succeeded && pending.contains(k as usize)))
            &&& forall|k: int|
                0 <= k < pending.len() ==> after.steps[(#[trigger] pending[k]) as int].state
                    is Succeeded
        }),
    decreases pending.len(),
{
    if pending.len() > 0 {
        let i = pending.last();
        let s = steps[i as int];
        lemma_step_keeps_places(
            op,
            targets,
            i as int,
            s,
            authorizer.admission(step_lease(id, s)),
            authorizer.expectation(step_lease(id, s)),
            answers(i as int),
            fault,
            now,
        );
        let (op1, targets1, _) = step_view(
            op,
            targets,
            i as int,
            s,
            authorizer.admission(step_lease(id, s)),
            authorizer.expectation(step_lease(id, s)),
            answers(i as int),
            fault,
            now,
        );
        lemma_compensation_settles(
            op1,
            targets1,
            steps,
            id,
            authorizer,
            answers,
            fault,
            now,
            pending.drop_last(),
        );
        let after = compensate_view(
            op,
            targets,
            steps,
            id,
            authorizer,
            answers,
            fault,
            now,
            pending,
        ).0;
        assert forall|k: int| 0 <= k < op.steps.len() implies same_step(
            #[trigger] after.steps[k],
            op.steps[k],
        ) by {
            assert(same_step(after.steps[k], op1.steps[k]));
            assert(same_step(op1.steps[k], op.steps[k]));
        }
        assert forall|k: int| 0 <= k < op.steps.len() implies ((#[trigger] after.steps[k]).state
            == op.steps[k].state || (op.steps[k].state is Pending && after.steps[k].state
            is Succeeded && pending.contains(k as usize))) by {
            if pending.drop_last().contains(k as usize) {
                let j = choose|j: int|
                    0 <= j < pending.drop_last().len() && pending.drop_last()[j] == k as usize;
                assert(pending[j] == k as usize);
            }
            if k == i {
                assert(pending[pending.len() - 1] == k as usize);
            } else {
                assert(op1.steps[k] == op.steps[k]);
            }
        }
        assert forall|k: int| 0 <= k < pending.len() implies after.steps[(
        #[trigger] pending[k]) as int].state is Succeeded by {
            if k < pending.len() - 1 {
                assert(pending.drop_last()[k] == pending[k]);
            } else {
                assert(op1.steps[i as int].state is Succeeded);
                assert(after.steps[i as int].state == op1.steps[i as int].state
                    || op1.steps[i as int].state is Pending);
            }
        }
    }
}

/// Whether two stored steps are the same step, in whatever state.
pub open spec fn same_step(a: StepView, b: StepView) -> bool {
    &&& a.step_index == b.step_index
    &&& a.role == b.role
    &&& a.compensates == b.compensates
}

/// The steps after a pass of undoing: forward steps as before, and of the others
/// only pending ones changed, to having taken effect.
spec fn undone_pass(before: Seq<StepView>, after: Seq<StepView>) -> bool {
    &&& after.len() == before.len()
    &&& forall|k: int| 0 <= k < before.len() ==> same_step(#[trigger] after[k], before[k])
    &&& forall|k: int|
        0 <= k < before.len() ==> (#[trigger] after[k]).state == before[k].state || (
        before[k].state is Pending && after[k].state is Succeeded && before[k].role is Compensate)
}

proof fn lemma_undone_by_same(
    before: Seq<StepView>,
    after: Seq<StepView>,
    forward: usize,
    from: int,
)
    requires
        undone_pass(before, after),
        0 <= from,
    ensures
        undone_by(after, forward, from) == undone_by(before, forward, from),
    decreases before.len() - from,
{
    if from < before.len() {
        assert(same_step(after[from], before[from]));
        lemma_undone_by_same(before, after, forward, from + 1);
    }
}

proof fn lemma_open_same(before: Seq<StepView>, after: Seq<StepView>, n: int)
    requires
        undone_pass(before, after),
        0 <= n <= before.len(),
        open_of(before, n).failed is None,
    ensures
        open_of(after, n) == open_of(before, n),
    decreases n,
{
    if n > 0 {
        let s = before[n - 1];
        assert(open_of(before, n - 1).failed is None);
        lemma_open_same(before, after, n - 1);
        assert(same_step(after[n - 1], s));
        if s.role is Forward && s.state is Succeeded {
            lemma_undone_by_same(before, after, s.step_index, 0);
            lemma_undone_in_range(before, s.step_index, 0);
            match undone_by(before, s.step_index, 0) {
                Some(c) => {
                    assert(same_step(after[c], before[c]));
                },
                None => {},
            }
        }
    }
}

proof fn lemma_no_pending_left(after: Seq<StepView>, needed: Seq<usize>)
    requires
        forall|k: int|
            0 <= k < needed.len() ==> !(after[(#[trigger] needed[k]) as int].state is Pending),
    ensures
        pending_of(after, needed).len() == 0,
    decreases needed.len(),
{
    if needed.len() > 0 {
        let rest = needed.drop_last();
        assert forall|k: int| 0 <= k < rest.len() implies !(after[(
        #[trigger] rest[k]) as int].state is Pending) by {
            assert(rest[k] == needed[k]);
        }
        lemma_no_pending_left(after, rest);
        assert(!(after[needed[needed.len() - 1] as int].state is Pending));
    }
}

pub(crate) proof fn lemma_pending_listed(steps: Seq<StepView>, needed: Seq<usize>)
    ensures
        forall|k: int|
            0 <= k < needed.len() && steps[(#[trigger] needed[k]) as int].state is Pending
                ==> pending_of(steps, needed).contains(needed[k]),
        forall|k: int|
            0 <= k < pending_of(steps, needed).len() ==> needed.contains(
                #[trigger] pending_of(steps, needed)[k],
            ),
    decreases needed.len(),
{
    if needed.len() > 0 {
        let rest = needed.drop_last();
        let before = pending_of(steps, rest);
        let all = pending_of(steps, needed);
        lemma_pending_listed(steps, rest);
        assert forall|k: int|
            0 <= k < needed.len() && steps[(#[trigger] needed[k]) as int].state
                is Pending implies all.contains(needed[k]) by {
            if k < rest.len() {
                assert(rest[k] == needed[k]);
                let j = choose|j: int| 0 <= j < before.len() && before[j] == needed[k];
                assert(all[j] == needed[k]);
            } else {
                assert(all[all.len() - 1] == needed[k]);
            }
        }
        assert forall|k: int| 0 <= k < all.len() implies needed.contains(#[trigger] all[k]) by {
            if k < before.len() {
                assert(all[k] == before[k]);
                let j = choose|j: int| 0 <= j < rest.len() && rest[j] == before[k];
                assert(needed[j] == all[k]);
            } else {
                assert(needed[needed.len() - 1] == all[k]);
            }
        }
    }
}

pub(crate) proof fn lemma_needed_compensates(steps: Seq<StepView>, n: int)
    requires
        in_place(steps),
        0 <= n <= steps.len(),
    ensures
        forall|k: int|
            0 <= k < open_of(steps, n).needed.len() ==> steps[(
            #[trigger] open_of(steps, n).needed[k]) as int].role is Compensate,
    decreases n,
{
    if n > 0 {
        lemma_needed_compensates(steps, n - 1);
        lemma_undone_in_range(steps, steps[n - 1].step_index, 0);
    }
}

/// Whether a list of undoing steps stands in the order of the forward steps that they
/// undo, each of which took effect.
pub open spec fn in_forward_order(steps: Seq<StepView>, list: Seq<usize>) -> bool {
    &&& forall|k: int|
        0 <= k < list.len() ==> {
            let step = steps[(#[trigger] list[k]) as int];
            &&& step.compensates is Some
            &&& step.compensates->0 < steps.len()
            &&& steps[step.compensates->0 as int].role is Forward
            &&& steps[step.compensates->0 as int].state is Succeeded
        }
    &&& forall|i: int, j: int|
        0 <= i < j < list.len() ==> steps[(#[trigger] list[i]) as int].compensates->0 < steps[(
        #[trigger] list[j]) as int].compensates->0
}

pub(crate) proof fn lemma_found_undoes(steps: Seq<StepView>, forward: usize, from: int)
    requires
        0 <= from,
    ensures
        undone_by(steps, forward, from) matches Some(c) ==> 0 <= c < steps.len()
            && steps[c].compensates == Some(forward),
    decreases steps.len() - from,
{
    if from < steps.len() {
        lemma_found_undoes(steps, forward, from + 1);
    }
}

pub(crate) proof fn lemma_needed_in_order(steps: Seq<StepView>, n: int)
    requires
        in_place(steps),
        0 <= n <= steps.len(),
    ensures
        in_forward_order(steps, open_of(steps, n).needed),
        forall|k: int|
            0 <= k < open_of(steps, n).needed.len() ==> steps[(
            #[trigger] open_of(steps, n).needed[k]) as int].compensates->0 < n,
    decreases n,
{
    if n > 0 {
        lemma_needed_in_order(steps, n - 1);
        let s = steps[n - 1];
        lemma_found_undoes(steps, s.step_index, 0);
        let before = open_of(steps, n - 1).needed;
        let all = open_of(steps, n).needed;
        assert forall|k: int| 0 <= k < before.len() implies all[k] == #[trigger] before[k] by {}
    }
}

proof fn lemma_pending_in_order(steps: Seq<StepView>, needed: Seq<usize>)
    requires
        in_forward_order(steps, needed),
    ensures
        in_forward_order(steps, pending_of(steps, needed)),
    decreases needed.len(),
{
    if needed.len() > 0 {
        let rest = needed.drop_last();
        let before = pending_of(steps, rest);
        let all = pending_of(steps, needed);
        assert forall|i: int, j: int| 0 <= i < j < rest.len() implies steps[(
        #[trigger] rest[i]) as int].compensates->0 < steps[(
        #[trigger] rest[j]) as int].compensates->0 by {
            assert(rest[i] == needed[i] && rest[j] == needed[j]);
        }
        assert forall|k: int| 0 <= k < rest.len() implies #[trigger] rest[k] == needed[k] by {}
        lemma_pending_in_order(steps, rest);
        lemma_pending_listed(steps, rest);
        assert forall|k: int| 0 <= k < before.len() implies steps[(
        #[trigger] before[k]) as int].compensates->0 < steps[needed.last() as int].compensates->0 by {
            assert(rest.contains(before[k]));
            let m = choose|m: int| 0 <= m < rest.len() && rest[m] == before[k];
            assert(needed[m] == before[k]);
            assert(needed[needed.len() - 1] == needed.last());
        }
        assert(needed[needed.len() - 1] == needed.last());
    }
}

/// The steps to undo are listed in the order of the forward steps that took effect; as
/// [`compensate_view`] takes them from the end of the list, the latest goes first.
pub proof fn law_what_to_undo_is_in_order(steps: Seq<StepView>)
    requires
        in_place(steps),
    ensures
        in_forward_order(steps, undo_list(steps)),
{
    let n = steps.len() as int;
    lemma_needed_in_order(steps, n);
    lemma_pending_in_order(steps, open_of(steps, n).needed);
}

/// One pass of undoing is enough: once every step of the undo list was run and
/// none failed, a second look at what is stored finds nothing left to undo.
pub proof fn law_one_pass_undoes_everything<A: CommandAuthorizer>(
    op: OperationView,
    targets: Seq<TargetTables>,
    steps: Seq<StepPlanView>,
    id: IdentityView,
    authorizer: A,
    answers: Answers,
    fault: Option<OperationFaultPoint>,
    now: Seq<char>,
)
    requires
        op.wf(),
        undo_list(op.steps).len() > 0,
        compensate_view(
            op,
            targets,
            steps,
            id,
            authorizer,
            answers,
            fault,
            now,
            undo_list(op.steps),
        ).2 == Ok::<Option<usize>, OperationProblemView>(None),
    ensures
        ({
            let after = compensate_view(
                op,
                targets,
                steps,
                id,
                authorizer,
                answers,
                fault,
                now,
                undo_list(op.steps),
            ).0.steps;
            undo_list(after).len() == 0 && closing_kind(after) is CompletedCompensated
                == all_undone(after, open_of(after, after.len() as int).needed)
        }),
{
    let pending = undo_list(op.steps);
    let n = op.steps.len() as int;
    let open = open_of(op.steps, n);
    lemma_compensation_settles(
        op,
        targets,
        steps,
        id,
        authorizer,
        answers,
        fault,
        now,
        pending,
    );
    let after = compensate_view(
        op,
        targets,
        steps,
        id,
        authorizer,
        answers,
        fault,
        now,
        pending,
    ).0.steps;
    lemma_needed_compensates(op.steps, n);
    lemma_needed_in_range(op.steps, n);
    lemma_pending_listed(op.steps, open.needed);
    assert(undone_pass(op.steps, after)) by {
        assert forall|k: int| 0 <= k < op.steps.len() implies (#[trigger] after[k]).state
            == op.steps[k].state || (op.steps[k].state is Pending && after[k].state is Succeeded
            && op.steps[k].role is Compensate) by {
            if after[k].state != op.steps[k].state {
                assert(pending.contains(k as usize));
                let j = choose|j: int| 0 <= j < pending.len() && pending[j] == k as usize;
                assert(open.needed.contains(pending[j]));
                let m = choose|m: int| 0 <= m < open.needed.len() && open.needed[m] == pending[j];
                assert(op.steps[open.needed[m] as int].role is Compensate);
                assert(op.steps[k].step_index == k);
            }
        }
    }
    lemma_open_same(op.steps, after, n);
    assert forall|k: int| 0 <= k < open.needed.len() implies !(after[(
    #[trigger] open.needed[k]) as int].state is Pending) by {
        let i = open.needed[k];
        assert(i < op.steps.len());
        if op.steps[i as int].state is Pending {
            assert(pending.contains(i));
            let j = choose|j: int| 0 <= j < pending.len() && pending[j] == i;
            assert(after[pending[j] as int].state is Succeeded);
        }
    }
    lemma_no_pending_left(after, open.needed);
    assert(!all_forward_done(after)) by {
        let k = choose|k: int|
            0 <= k < op.steps.len() && (#[trigger] op.steps[k]).role is Forward && !(
            op.steps[k].state is Succeeded);
        assert(same_step(after[k], op.steps[k]));
        assert(after[k].role is Forward);
    }
}

/// A run that answers that the task is done left every forward step with its
/// effect; one that answers that everything was undone left a forward step without
/// one, and nothing that took effect without the step that undoes it.
pub proof fn law_answer_of_a_run_is_true<A: CommandAuthorizer>(
    op: OperationView,
    intents: Intents,
    targets: Seq<TargetTables>,
    plan: PlanView,
    authorizer: A,
    answers: Answers,
    effect_count: usize,
    now: Seq<char>,
)
    ensures
        ({
            let run = run_view(
                op,
                intents,
                targets,
                plan,
                authorizer,
                answers,
                effect_count,
                None,
                now,
            );
            let open = open_of(run.op.steps, run.op.steps.len() as int);
            &&& run.answer == Ok::<EndView, OperationProblemView>(
                EndView::Completed { compensated: false },
            ) ==> all_forward_done(run.op.steps)
            &&& run.answer == Ok::<EndView, OperationProblemView>(
                EndView::Completed { compensated: true },
            ) ==> !all_forward_done(run.op.steps) && open.missing is None && all_undone(
                run.op.steps,
                open.needed,
            )
            &&& run.answer is Ok ==> run.op.record.state.terminal()
        }),
{
}

/// Reconciling an operation that was accepted brings it to an end, and doing so
/// again gives the same end and changes nothing.
pub proof fn law_reconciling_is_repeatable(
    op: OperationView,
    intents: Intents,
    targets: Seq<TargetTables>,
    now: Seq<char>,
    later: Seq<char>,
    end: EndView,
)
    requires
        op.record.state is Reconciling,
        op.record.progress.outcome is None,
        op.record.progress.problem is None,
        settle_view(op, intents, targets, now).2 == Ok::<Option<EndView>, OperationProblemView>(
            Some(end),
        ),
    ensures
        ({
            let first = settle_view(op, intents, targets, now);
            &&& first.0.record.state.terminal()
            &&& settle_view(first.0, first.1, targets, later) == first
        }),
{
    match settled_steps(op.steps, targets, op.steps.len() as int) {
        Ok((steps, violation)) => {
            let kind = match violation {
                Some(i) => TerminalView::NeedsYou {
                    code: "command_id_reused"@,
                    step_index: Some(i),
                },
                None => closing_kind(steps),
            };
            law_end_is_stored(OperationView { steps, ..op }, intents, kind, now);
        },
        Err(_) => {},
    }
}

} // verus!
