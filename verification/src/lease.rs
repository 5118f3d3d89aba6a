//! What a command and an input byte are checked against before they take effect.

use crate::command::{CommandProblem, CommandType, ProblemView};
use crate::handles::{
    expectations, outcome, ClientId, CommandTarget, ExpectedRevision, ExpectedView, Principal,
    TargetView,
};
use vstd::prelude::*;

verus! {

/// Who asks for what, with which lease and on which assumptions.
pub struct LeaseCheck<'a> {
    pub principal: &'a Principal,
    pub client_id: &'a ClientId,
    pub controller_epoch: u64,
    pub root_epoch: Option<u64>,
    pub command_type: CommandType,
    pub target: &'a CommandTarget,
    pub expected: &'a Vec<ExpectedRevision>,
}

/// A [`LeaseCheck`] as a value.
pub ghost struct LeaseView {
    pub principal: Seq<char>,
    pub client_id: Seq<char>,
    pub controller_epoch: u64,
    pub root_epoch: Option<u64>,
    pub command_type: CommandType,
    pub target: TargetView,
    pub expected: Seq<ExpectedView>,
}

impl<'a> View for LeaseCheck<'a> {
    type V = LeaseView;

    open spec fn view(&self) -> LeaseView {
        LeaseView {
            principal: self.principal@,
            client_id: self.client_id@,
            controller_epoch: self.controller_epoch,
            root_epoch: self.root_epoch,
            command_type: self.command_type,
            target: self.target@,
            expected: expectations(self.expected@),
        }
    }
}

/// The right to run a new effect. It is asked only where the effect has not been
/// applied yet: a command's own result must not refuse its replay.
pub trait CommandPermit {
    /// Whether the expected revisions still hold.
    spec fn expectation(&self, check: LeaseView) -> Result<(), ProblemView>;

    /// Whether the expected revisions still hold.
    fn validate_expected(&self, check: &LeaseCheck) -> (r: Result<(), CommandProblem>)
        ensures
            outcome(r) == self.expectation(check@),
    ;
}

/// Who may send commands now.
pub trait CommandAuthorizer: CommandPermit {
    /// Whether the asker holds the lease.
    spec fn admission(&self, check: LeaseView) -> Result<(), ProblemView>;

    /// Whether the asker holds the lease.
    fn acquire(&self, check: &LeaseCheck) -> (r: Result<(), CommandProblem>)
        ensures
            outcome(r) == self.admission(check@),
    ;
}

/// What is checked before a byte enters a session's write queue.
#[derive(Debug, Clone, Copy, PartialEq, Eq)]
pub struct InputLeaseCheck {
    /// The controller epoch that the writer lease was granted under.
    pub controller_epoch: u64,
    /// The writer lease.
    pub writer_lease_id: [u8; 16],
}

/// What the check of an input byte answers.
#[derive(Debug, Clone, Copy, PartialEq, Eq, Structural)]
pub enum InputLeaseVerdict {
    /// The epoch is the current one: the byte may enter the queue.
    Current,
    /// Another controller took over: the byte is refused.
    ControllerTakeover,
}

} // verus!
