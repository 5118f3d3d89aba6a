//! Problems of the kernel as its callers see them.

use crate::command::{CommandProblem, ProblemView};
use crate::operation::{OperationProblem, OperationProblemView};
use crate::text::cat;
use vstd::prelude::*;
use vstd::string::*;

verus! {

/// Why the kernel refused something.
#[derive(Debug, PartialEq, Eq)]
pub enum KernelProblem {
    ResourceNotFound,
    InvalidEnvelope(String),
    RevisionConflict,
    ValidationFailed(String),
    WorkflowCycle(String),
    UnknownDependency(String),
    CommandIdReused,
    CommandInProgress,
    ControllerLeaseExpired,
    RootEpochExpired,
    ResyncRequired,
    ServiceUnavailable(String),
    Internal(String),
}

/// Why the kernel refused something, as a value.
pub ghost enum KernelProblemView {
    ResourceNotFound,
    InvalidEnvelope(Seq<char>),
    RevisionConflict,
    ValidationFailed(Seq<char>),
    WorkflowCycle(Seq<char>),
    UnknownDependency(Seq<char>),
    CommandIdReused,
    CommandInProgress,
    ControllerLeaseExpired,
    RootEpochExpired,
    ResyncRequired,
    ServiceUnavailable(Seq<char>),
    Internal(Seq<char>),
}

impl View for KernelProblem {
    type V = KernelProblemView;

    open spec fn view(&self) -> KernelProblemView {
        match *self {
            KernelProblem::ResourceNotFound => KernelProblemView::ResourceNotFound,
            KernelProblem::InvalidEnvelope(m) => KernelProblemView::InvalidEnvelope(m@),
            KernelProblem::RevisionConflict => KernelProblemView::RevisionConflict,
            KernelProblem::ValidationFailed(m) => KernelProblemView::ValidationFailed(m@),
            KernelProblem::WorkflowCycle(m) => KernelProblemView::WorkflowCycle(m@),
            KernelProblem::UnknownDependency(m) => KernelProblemView::UnknownDependency(m@),
            KernelProblem::CommandIdReused => KernelProblemView::CommandIdReused,
            KernelProblem::CommandInProgress => KernelProblemView::CommandInProgress,
            KernelProblem::ControllerLeaseExpired => KernelProblemView::ControllerLeaseExpired,
            KernelProblem::RootEpochExpired => KernelProblemView::RootEpochExpired,
            KernelProblem::ResyncRequired => KernelProblemView::ResyncRequired,
            KernelProblem::ServiceUnavailable(m) => KernelProblemView::ServiceUnavailable(m@),
            KernelProblem::Internal(m) => KernelProblemView::Internal(m@),
        }
    }
}

impl Clone for KernelProblem {
    fn clone(&self) -> (r: Self)
        ensures
            r@ == self@,
    {
        match self {
            KernelProblem::ResourceNotFound => KernelProblem::ResourceNotFound,
            KernelProblem::InvalidEnvelope(m) => KernelProblem::InvalidEnvelope(m.clone()),
            KernelProblem::RevisionConflict => KernelProblem::RevisionConflict,
            KernelProblem::ValidationFailed(m) => KernelProblem::ValidationFailed(m.clone()),
            KernelProblem::WorkflowCycle(m) => KernelProblem::WorkflowCycle(m.clone()),
            KernelProblem::UnknownDependency(m) => KernelProblem::UnknownDependency(m.clone()),
            KernelProblem::CommandIdReused => KernelProblem::CommandIdReused,
            KernelProblem::CommandInProgress => KernelProblem::CommandInProgress,
            KernelProblem::ControllerLeaseExpired => KernelProblem::ControllerLeaseExpired,
            KernelProblem::RootEpochExpired => KernelProblem::RootEpochExpired,
            KernelProblem::ResyncRequired => KernelProblem::ResyncRequired,
            KernelProblem::ServiceUnavailable(m) => KernelProblem::ServiceUnavailable(m.clone()),
            KernelProblem::Internal(m) => KernelProblem::Internal(m.clone()),
        }
    }
}

impl KernelProblemView {
    /// The stable code.
    pub open spec fn code(self) -> Seq<char> {
        match self {
            KernelProblemView::ResourceNotFound => "resource_not_found"@,
            KernelProblemView::InvalidEnvelope(_) => "invalid_envelope"@,
            KernelProblemView::RevisionConflict => "revision_conflict"@,
            KernelProblemView::ValidationFailed(_) => "validation_failed"@,
            KernelProblemView::WorkflowCycle(_) => "workflow_cycle"@,
            KernelProblemView::UnknownDependency(_) => "unknown_dependency"@,
            KernelProblemView::CommandIdReused => "command_id_reused"@,
            KernelProblemView::CommandInProgress => "command_in_progress"@,
            KernelProblemView::ControllerLeaseExpired => "controller_lease_expired"@,
            KernelProblemView::RootEpochExpired => "root_epoch_expired"@,
            KernelProblemView::ResyncRequired => "resync_required"@,
            KernelProblemView::ServiceUnavailable(_) => "service_unavailable"@,
            KernelProblemView::Internal(_) => "internal_error"@,
        }
    }

    /// The printed form.
    pub open spec fn message(self) -> Seq<char> {
        match self {
            KernelProblemView::ResourceNotFound => "resource_not_found"@,
            KernelProblemView::InvalidEnvelope(m) => "invalid_envelope:"@ + m,
            KernelProblemView::RevisionConflict => "revision_conflict"@,
            KernelProblemView::ValidationFailed(m) => "validation_failed:"@ + m,
            KernelProblemView::WorkflowCycle(m) => "workflow_cycle:"@ + m,
            KernelProblemView::UnknownDependency(m) => "unknown_dependency:"@ + m,
            KernelProblemView::CommandIdReused => "command_id_reused"@,
            KernelProblemView::CommandInProgress => "command_in_progress"@,
            KernelProblemView::ControllerLeaseExpired => "controller_lease_expired"@,
            KernelProblemView::RootEpochExpired => "root_epoch_expired"@,
            KernelProblemView::ResyncRequired => "resync_required"@,
            KernelProblemView::ServiceUnavailable(m) => "service_unavailable:"@ + m,
            KernelProblemView::Internal(m) => "internal_error:"@ + m,
        }
    }
}

impl KernelProblem {
    /// The stable code.
    pub fn code(&self) -> (r: &'static str)
        ensures
            r@ == self@.code(),
    {
        match self {
            KernelProblem::ResourceNotFound => "resource_not_found",
            KernelProblem::InvalidEnvelope(_) => "invalid_envelope",
            KernelProblem::RevisionConflict => "revision_conflict",
            KernelProblem::ValidationFailed(_) => "validation_failed",
            KernelProblem::WorkflowCycle(_) => "workflow_cycle",
            KernelProblem::UnknownDependency(_) => "unknown_dependency",
            KernelProblem::CommandIdReused => "command_id_reused",
            KernelProblem::CommandInProgress => "command_in_progress",
            KernelProblem::ControllerLeaseExpired => "controller_lease_expired",
            KernelProblem::RootEpochExpired => "root_epoch_expired",
            KernelProblem::ResyncRequired => "resync_required",
            KernelProblem::ServiceUnavailable(_) => "service_unavailable",
            KernelProblem::Internal(_) => "internal_error",
        }
    }

    /// The printed form.
    pub fn message(&self) -> (r: String)
        ensures
            r@ == self@.message(),
    {
        match self {
            KernelProblem::ResourceNotFound => "resource_not_found".to_owned(),
            KernelProblem::InvalidEnvelope(m) => cat("invalid_envelope:", m.as_str()),
            KernelProblem::RevisionConflict => "revision_conflict".to_owned(),
            KernelProblem::ValidationFailed(m) => cat("validation_failed:", m.as_str()),
            KernelProblem::WorkflowCycle(m) => cat("workflow_cycle:", m.as_str()),
            KernelProblem::UnknownDependency(m) => cat("unknown_dependency:", m.as_str()),
            KernelProblem::CommandIdReused => "command_id_reused".to_owned(),
            KernelProblem::CommandInProgress => "command_in_progress".to_owned(),
            KernelProblem::ControllerLeaseExpired => "controller_lease_expired".to_owned(),
            KernelProblem::RootEpochExpired => "root_epoch_expired".to_owned(),
            KernelProblem::ResyncRequired => "resync_required".to_owned(),
            KernelProblem::ServiceUnavailable(m) => cat("service_unavailable:", m.as_str()),
            KernelProblem::Internal(m) => cat("internal_error:", m.as_str()),
        }
    }
}

/// A refused command, as the kernel's callers see it.
pub open spec fn kernel_of_command(p: ProblemView) -> KernelProblemView {
    match p {
        ProblemView::InvalidEnvelope(m) => KernelProblemView::InvalidEnvelope(m),
        ProblemView::CommandIdReused => KernelProblemView::CommandIdReused,
        ProblemView::CommandInProgress => KernelProblemView::CommandInProgress,
        ProblemView::ControllerLeaseExpired => KernelProblemView::ControllerLeaseExpired,
        ProblemView::RootEpochExpired => KernelProblemView::RootEpochExpired,
        ProblemView::RevisionConflict => KernelProblemView::RevisionConflict,
        ProblemView::ValidationFailed(m) => KernelProblemView::ValidationFailed(m),
        ProblemView::WorkflowCycle(m) => KernelProblemView::WorkflowCycle(m),
        ProblemView::UnknownDependency(m) => KernelProblemView::UnknownDependency(m),
        ProblemView::ResourceNotFound => KernelProblemView::ResourceNotFound,
        other => KernelProblemView::Internal(other.message()),
    }
}

/// A refused operation, as the kernel's callers see it.
pub open spec fn kernel_of_operation(p: OperationProblemView) -> KernelProblemView {
    match p {
        OperationProblemView::Command(c) => kernel_of_command(c),
        OperationProblemView::OperationNotFound => KernelProblemView::ResourceNotFound,
        OperationProblemView::CommandIdReused => KernelProblemView::CommandIdReused,
        OperationProblemView::PlanConflict(_) => KernelProblemView::CommandIdReused,
        OperationProblemView::InvalidPlan(m) => KernelProblemView::ValidationFailed(m),
        other => KernelProblemView::Internal(other.message()),
    }
}

impl KernelProblem {
    /// A refused command, as the kernel's callers see it.
    pub fn from_command(problem: CommandProblem) -> (r: Self)
        ensures
            r@ == kernel_of_command(problem@),
    {
        match problem {
            CommandProblem::InvalidEnvelope(m) => KernelProblem::InvalidEnvelope(m),
            CommandProblem::CommandIdReused => KernelProblem::CommandIdReused,
            CommandProblem::CommandInProgress => KernelProblem::CommandInProgress,
            CommandProblem::ControllerLeaseExpired => KernelProblem::ControllerLeaseExpired,
            CommandProblem::RootEpochExpired => KernelProblem::RootEpochExpired,
            CommandProblem::RevisionConflict => KernelProblem::RevisionConflict,
            CommandProblem::ValidationFailed(m) => KernelProblem::ValidationFailed(m),
            CommandProblem::WorkflowCycle(m) => KernelProblem::WorkflowCycle(m),
            CommandProblem::UnknownDependency(m) => KernelProblem::UnknownDependency(m),
            CommandProblem::ResourceNotFound => KernelProblem::ResourceNotFound,
            other => KernelProblem::Internal(other.message()),
        }
    }

    /// A refused operation, as the kernel's callers see it.
    pub fn from_operation(problem: OperationProblem) -> (r: Self)
        ensures
            r@ == kernel_of_operation(problem@),
    {
        match problem {
            OperationProblem::Command(c) => KernelProblem::from_command(c),
            OperationProblem::OperationNotFound => KernelProblem::ResourceNotFound,
            OperationProblem::CommandIdReused => KernelProblem::CommandIdReused,
            OperationProblem::PlanConflict(_) => KernelProblem::CommandIdReused,
            OperationProblem::InvalidPlan(m) => KernelProblem::ValidationFailed(m),
            other => KernelProblem::Internal(other.message()),
        }
    }

    /// A problem inside the kernel.
    pub fn internal(message: &str) -> (r: Self)
        ensures
            r@ == KernelProblemView::Internal(message@),
    {
        KernelProblem::Internal(message.to_owned())
    }

    /// A refusal of the request itself.
    pub fn invalid(message: &str) -> (r: Self)
        ensures
            r@ == KernelProblemView::InvalidEnvelope(message@),
    {
        KernelProblem::InvalidEnvelope(message.to_owned())
    }

    /// Something that the kernel needs is not there.
    pub fn unavailable(message: &str) -> (r: Self)
        ensures
            r@ == KernelProblemView::ServiceUnavailable(message@),
    {
        KernelProblem::ServiceUnavailable(message.to_owned())
    }
}

/// A refused command keeps its stable code on the way through the kernel.
pub proof fn law_code_survives_the_kernel(p: ProblemView)
    ensures
        kernel_of_command(p).code() == p.code(),
{
}

} // verus!
