//! The face of the kernel: what every client of it may ask, however it is connected.

use crate::handles::{outcome, SessionHandle};
use crate::journal::EventSubscription;
use crate::problem::{KernelProblem, KernelProblemView};
use crate::projection::{CursorView, EventCursor};
use crate::run_command::{KernelCommandRequest, KernelOutcome, RequestView};
use crate::shutdown::ShutdownAssessment;
use crate::snapshot::{QueryView, SnapshotEnvelope, SnapshotQuery};
use vstd::prelude::*;
use vstd::string::*;

verus! {

/// From where on a client wants to see a terminal.
#[derive(Debug, Clone, Copy, PartialEq, Eq, Structural)]
pub struct TerminalAttach {
    pub after_seq: u64,
}

/// What every client of the kernel may ask. Whoever puts a kernel behind a connection
/// says how each is answered; a kernel that says nothing may answer anything.
pub trait CoreKernel: Sized {
    /// Whether a kernel that is given a command may become another and answer so.
    open spec fn dispatches(
        &self,
        request: RequestView,
        after: Self,
        answer: Result<KernelOutcome, KernelProblem>,
    ) -> bool {
        true
    }

    /// Whether a kernel that is given a query may become another and answer so.
    open spec fn shows(
        &self,
        query: QueryView,
        after: Self,
        answer: Result<SnapshotEnvelope, KernelProblem>,
    ) -> bool {
        true
    }

    /// Whether a kernel whose events are to be followed may become another and answer so.
    open spec fn subscribes(
        &self,
        cursor: CursorView,
        after: Self,
        answer: Result<EventSubscription, KernelProblem>,
    ) -> bool {
        true
    }

    /// Whether a kernel whose terminal is asked for may become another and answer so.
    open spec fn attaches(
        &self,
        session: Seq<char>,
        after_seq: u64,
        after: Self,
        answer: Result<(), KernelProblem>,
    ) -> bool {
        true
    }

    /// The one way to write.
    fn dispatch(&mut self, request: KernelCommandRequest) -> (r: Result<
        KernelOutcome,
        KernelProblem,
    >)
        ensures
            old(self).dispatches(request@, *final(self), r),
    ;

    /// Shows what the stores hold.
    fn snapshot(&mut self, query: SnapshotQuery) -> (r: Result<SnapshotEnvelope, KernelProblem>)
        ensures
            old(self).shows(query@, *final(self), r),
    ;

    /// Starts to follow the events.
    fn subscribe_events(&mut self, cursor: EventCursor) -> (r: Result<
        EventSubscription,
        KernelProblem,
    >)
        ensures
            old(self).subscribes(cursor@, *final(self), r),
    ;

    /// Connects to a terminal.
    fn attach_terminal(&mut self, session: SessionHandle, attach: TerminalAttach) -> (r: Result<
        (),
        KernelProblem,
    >)
        ensures
            old(self).attaches(session@, attach.after_seq, *final(self), r),
    ;

    /// What a shutdown would break off.
    fn shutdown(&mut self) -> ShutdownAssessment;

    /// Grants the lease.
    fn grant_controller(&mut self, client_id: &str, principal: &str) -> Result<
        u64,
        KernelProblem,
    >;

    /// The epoch of the lease.
    fn controller_epoch(&self) -> u64;

    /// Opens a project by its path.
    fn attach_project(&mut self, root: &str) -> Result<String, KernelProblem>;

    /// Closes a project by its handle.
    fn detach_project(&mut self, project_handle: &str) -> Result<(), KernelProblem>;
}

/// Whether a client may connect to a terminal: there has to be a host, and the session
/// has to be alive.
pub open spec fn terminal_answer(host: bool, alive: bool) -> Result<(), KernelProblemView> {
    if !host {
        Err(
            KernelProblemView::ServiceUnavailable(
                "终端宿主未装配:attach_terminal 需要装配件注入 TerminalHost"@,
            ),
        )
    } else if !alive {
        Err(KernelProblemView::ResourceNotFound)
    } else {
        Ok(())
    }
}

/// Whether a client may connect to a terminal.
pub fn check_terminal(host: bool, alive: bool) -> (r: Result<(), KernelProblem>)
    ensures
        outcome(r) == terminal_answer(host, alive),
{
    if !host {
        return Err(
            KernelProblem::unavailable(
                "终端宿主未装配:attach_terminal 需要装配件注入 TerminalHost",
            ),
        );
    }
    if !alive {
        return Err(KernelProblem::ResourceNotFound);
    }
    Ok(())
}

} // verus!
