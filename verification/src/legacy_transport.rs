//! The local connection: one request per line, one answer per line. A client says who it
//! is first, and is an ordinary client after that.

use crate::facade::{CoreKernel, TerminalAttach};
use crate::handles::{
    command_id_of, session_handle_of, ClientId, CommandId, Principal, SessionHandle,
};
use crate::journal::{EventHello, EventSubscription, HelloView};
use crate::problem::{KernelProblem, KernelProblemView};
use crate::projection::{CursorView, EventCursor};
use crate::run_command::{
    KernelCommand, KernelCommandRequest, KernelCommandView, KernelOutcome, KernelOutcomeView,
    RequestView,
};
use crate::snapshot::{QueryView, SnapshotEnvelope, SnapshotEnvelopeView, SnapshotQuery};
use crate::text::{is_blank, same, trim, trim_text};
use vstd::prelude::*;
use vstd::string::*;

verus! {

/// The version of the protocol.
pub const LEGACY_TRANSPORT_PROTOCOL: &'static str = "mf.legacy-transport.v1";

/// A request: one line.
pub enum LegacyRequest {
    Hello {
        protocol: String,
        client_id: String,
        principal: String,
        controller_lease_epoch: u64,
    },
    Dispatch { command_id: String, command: KernelCommand },
    Snapshot { query: SnapshotQuery },
    SubscribeEvents { cursor: EventCursor },
    AttachTerminal { session: String, after_seq: u64 },
    Shutdown,
}

/// A request, as a value.
pub ghost enum AskView {
    Hello {
        protocol: Seq<char>,
        client_id: Seq<char>,
        principal: Seq<char>,
        controller_lease_epoch: u64,
    },
    Dispatch { command_id: Seq<char>, command: KernelCommandView },
    Snapshot { query: QueryView },
    SubscribeEvents { cursor: CursorView },
    AttachTerminal { session: Seq<char>, after_seq: u64 },
    Shutdown,
}

impl View for LegacyRequest {
    type V = AskView;

    open spec fn view(&self) -> AskView {
        match *self {
            LegacyRequest::Hello { protocol, client_id, principal, controller_lease_epoch } => {
                AskView::Hello {
                    protocol: protocol@,
                    client_id: client_id@,
                    principal: principal@,
                    controller_lease_epoch,
                }
            },
            LegacyRequest::Dispatch { command_id, command } => AskView::Dispatch {
                command_id: command_id@,
                command: command@,
            },
            LegacyRequest::Snapshot { query } => AskView::Snapshot { query: query@ },
            LegacyRequest::SubscribeEvents { cursor } => AskView::SubscribeEvents {
                cursor: cursor@,
            },
            LegacyRequest::AttachTerminal { session, after_seq } => AskView::AttachTerminal {
                session: session@,
                after_seq,
            },
            LegacyRequest::Shutdown => AskView::Shutdown,
        }
    }
}

/// What comes of a command, as it goes over the line.
#[derive(Debug, PartialEq, Eq)]
pub enum KernelOutcomeWire {
    Accepted { operation_handle: String },
    Applied { semantic_revision: u64, presentation_revision: u64, replayed: bool },
    RunApplied { revision: u64, replayed: bool },
}

/// What comes of a command, as it goes over the line, as a value.
pub ghost enum WireView {
    Accepted { operation_handle: Seq<char> },
    Applied { semantic_revision: u64, presentation_revision: u64, replayed: bool },
    RunApplied { revision: u64, replayed: bool },
}

impl View for KernelOutcomeWire {
    type V = WireView;

    open spec fn view(&self) -> WireView {
        match *self {
            KernelOutcomeWire::Accepted { operation_handle } => WireView::Accepted {
                operation_handle: operation_handle@,
            },
            KernelOutcomeWire::Applied { semantic_revision, presentation_revision, replayed } => {
                WireView::Applied { semantic_revision, presentation_revision, replayed }
            },
            KernelOutcomeWire::RunApplied { revision, replayed } => WireView::RunApplied {
                revision,
                replayed,
            },
        }
    }
}

/// An answer: one line.
#[derive(Debug)]
pub enum LegacyResponse {
    HelloAccepted,
    Outcome { result: KernelOutcomeWire },
    SnapshotEnvelope { envelope: SnapshotEnvelope },
    Subscribed { hello: EventHello },
    TerminalChannelAttached,
    Problem { code: String, message: String },
    ProtocolMismatch { expected: String },
    ShuttingDown,
}

/// An answer, as a value.
pub ghost enum ReplyView {
    HelloAccepted,
    Outcome { result: WireView },
    SnapshotEnvelope { envelope: SnapshotEnvelopeView },
    Subscribed { hello: HelloView },
    TerminalChannelAttached,
    Problem { code: Seq<char>, message: Seq<char> },
    ProtocolMismatch { expected: Seq<char> },
    ShuttingDown,
}

impl View for LegacyResponse {
    type V = ReplyView;

    open spec fn view(&self) -> ReplyView {
        match *self {
            LegacyResponse::HelloAccepted => ReplyView::HelloAccepted,
            LegacyResponse::Outcome { result } => ReplyView::Outcome { result: result@ },
            LegacyResponse::SnapshotEnvelope { envelope } => ReplyView::SnapshotEnvelope {
                envelope: envelope@,
            },
            LegacyResponse::Subscribed { hello } => ReplyView::Subscribed { hello: hello@ },
            LegacyResponse::TerminalChannelAttached => ReplyView::TerminalChannelAttached,
            LegacyResponse::Problem { code, message } => ReplyView::Problem {
                code: code@,
                message: message@,
            },
            LegacyResponse::ProtocolMismatch { expected } => ReplyView::ProtocolMismatch {
                expected: expected@,
            },
            LegacyResponse::ShuttingDown => ReplyView::ShuttingDown,
        }
    }
}

/// What comes of a command, as it goes over the line.
pub open spec fn wire_of(o: KernelOutcomeView) -> WireView {
    match o {
        KernelOutcomeView::Accepted { operation_handle } => WireView::Accepted {
            operation_handle,
        },
        KernelOutcomeView::Applied { revisions, replayed } => WireView::Applied {
            semantic_revision: revisions.semantic_revision,
            presentation_revision: revisions.presentation_revision,
            replayed,
        },
        KernelOutcomeView::RunApplied { revision, replayed } => WireView::RunApplied {
            revision,
            replayed,
        },
    }
}

/// What comes of a command, as it goes over the line.
pub fn outcome_to_wire(outcome: KernelOutcome) -> (r: KernelOutcomeWire)
    ensures
        r@ == wire_of(outcome@),
{
    match outcome {
        KernelOutcome::Accepted { operation_handle } => KernelOutcomeWire::Accepted {
            operation_handle: operation_handle.as_str().to_owned(),
        },
        KernelOutcome::Applied { revisions, replayed } => KernelOutcomeWire::Applied {
            semantic_revision: revisions.semantic_revision,
            presentation_revision: revisions.presentation_revision,
            replayed,
        },
        KernelOutcome::RunApplied { revision, replayed } => KernelOutcomeWire::RunApplied {
            revision,
            replayed,
        },
    }
}

/// A problem of the kernel, as it goes over the line.
pub open spec fn problem_reply(p: KernelProblemView) -> ReplyView {
    ReplyView::Problem { code: p.code(), message: p.message() }
}

/// A problem of the kernel, as it goes over the line.
pub fn problem_response(problem: KernelProblem) -> (r: LegacyResponse)
    ensures
        r@ == problem_reply(problem@),
{
    LegacyResponse::Problem { code: problem.code().to_owned(), message: problem.message() }
}

/// The answer to a client that has not said who it is.
pub open spec fn unauthenticated_reply() -> ReplyView {
    ReplyView::Problem { code: "unauthenticated"@, message: "transport 未注册(先 Hello)"@ }
}

fn unauthenticated() -> (r: LegacyResponse)
    ensures
        r@ == unauthenticated_reply(),
{
    LegacyResponse::Problem {
        code: "unauthenticated".to_owned(),
        message: "transport 未注册(先 Hello)".to_owned(),
    }
}

/// The answer to a line that cannot be read.
pub open spec fn unreadable_reply(message: Seq<char>) -> ReplyView {
    ReplyView::Problem { code: "invalid_envelope"@, message }
}

fn unreadable(message: &str) -> (r: LegacyResponse)
    ensures
        r@ == unreadable_reply(message@),
{
    LegacyResponse::Problem { code: "invalid_envelope".to_owned(), message: message.to_owned() }
}

/// Who a client is: its id, whom it acts for, and the epoch of its lease.
pub ghost struct IdentityView {
    pub client_id: Seq<char>,
    pub principal: Seq<char>,
    pub epoch: u64,
}

/// What a request comes to: an answer, or something to ask of the kernel.
pub enum Routed {
    Answer(LegacyResponse),
    Dispatch(KernelCommandRequest),
    Snapshot(SnapshotQuery),
    Subscribe(EventCursor),
    Attach(SessionHandle, TerminalAttach),
}

/// What a request comes to, as a value.
pub ghost enum RoutedView {
    Answer(ReplyView),
    Dispatch(RequestView),
    Snapshot(QueryView),
    Subscribe(CursorView),
    Attach(Seq<char>, u64),
}

impl View for Routed {
    type V = RoutedView;

    open spec fn view(&self) -> RoutedView {
        match *self {
            Routed::Answer(a) => RoutedView::Answer(a@),
            Routed::Dispatch(q) => RoutedView::Dispatch(q@),
            Routed::Snapshot(q) => RoutedView::Snapshot(q@),
            Routed::Subscribe(c) => RoutedView::Subscribe(c@),
            Routed::Attach(s, a) => RoutedView::Attach(s@, a.after_seq),
        }
    }
}

/// What a request comes to, and who the client is after it. Only a client that has said
/// who it is reaches the kernel.
pub open spec fn routed(client: Option<IdentityView>, ask: AskView) -> (
    Option<IdentityView>,
    RoutedView,
) {
    match ask {
        AskView::Hello { protocol, client_id, principal, controller_lease_epoch } => if protocol
            != LEGACY_TRANSPORT_PROTOCOL@ {
            (
                client,
                RoutedView::Answer(
                    ReplyView::ProtocolMismatch { expected: LEGACY_TRANSPORT_PROTOCOL@ },
                ),
            )
        } else if is_blank(client_id) {
            (client, RoutedView::Answer(unreadable_reply("client_id 不能为空"@)))
        } else if is_blank(principal) {
            (client, RoutedView::Answer(unreadable_reply("principal 不能为空"@)))
        } else {
            (
                Some(IdentityView { client_id, principal, epoch: controller_lease_epoch }),
                RoutedView::Answer(ReplyView::HelloAccepted),
            )
        },
        _ => (
            client,
            match client {
                None => RoutedView::Answer(unauthenticated_reply()),
                Some(who) => passed_on(who, ask),
            },
        ),
    }
}

/// What a request of a client that has said who it is comes to.
pub open spec fn passed_on(who: IdentityView, ask: AskView) -> RoutedView {
    match ask {
        AskView::Hello { .. } => RoutedView::Answer(ReplyView::HelloAccepted),
        AskView::Dispatch { command_id, command } => match command_id_of(command_id) {
            Err(m) => RoutedView::Answer(unreadable_reply(m)),
            Ok(id) => RoutedView::Dispatch(
                RequestView {
                    command_id: id,
                    client_id: who.client_id,
                    principal: who.principal,
                    controller_epoch: who.epoch,
                    command,
                },
            ),
        },
        AskView::Snapshot { query } => RoutedView::Snapshot(query),
        AskView::SubscribeEvents { cursor } => RoutedView::Subscribe(cursor),
        AskView::AttachTerminal { session, after_seq } => match session_handle_of(session) {
            Err(m) => RoutedView::Answer(unreadable_reply(m)),
            Ok(handle) => RoutedView::Attach(handle, after_seq),
        },
        AskView::Shutdown => RoutedView::Answer(ReplyView::ShuttingDown),
    }
}

/// The answer to a command.
pub open spec fn dispatch_reply(r: Result<KernelOutcome, KernelProblem>) -> ReplyView {
    match r {
        Ok(o) => ReplyView::Outcome { result: wire_of(o@) },
        Err(p) => problem_reply(p@),
    }
}

/// The answer to a command.
pub fn answer_dispatch(r: Result<KernelOutcome, KernelProblem>) -> (a: LegacyResponse)
    ensures
        a@ == dispatch_reply(r),
{
    match r {
        Ok(o) => LegacyResponse::Outcome { result: outcome_to_wire(o) },
        Err(p) => problem_response(p),
    }
}

/// The answer to a query.
pub open spec fn snapshot_reply(r: Result<SnapshotEnvelope, KernelProblem>) -> ReplyView {
    match r {
        Ok(e) => ReplyView::SnapshotEnvelope { envelope: e@ },
        Err(p) => problem_reply(p@),
    }
}

/// The answer to a query.
pub fn answer_snapshot(r: Result<SnapshotEnvelope, KernelProblem>) -> (a: LegacyResponse)
    ensures
        a@ == snapshot_reply(r),
{
    match r {
        Ok(envelope) => LegacyResponse::SnapshotEnvelope { envelope },
        Err(p) => problem_response(p),
    }
}

/// The answer to a client that starts to follow the events.
pub open spec fn subscribe_reply(r: Result<EventSubscription, KernelProblem>) -> ReplyView {
    match r {
        Ok(s) => ReplyView::Subscribed { hello: s@.hello },
        Err(p) => problem_reply(p@),
    }
}

/// The answer to a client that starts to follow the events.
pub fn answer_subscribe(r: Result<EventSubscription, KernelProblem>) -> (a: LegacyResponse)
    ensures
        a@ == subscribe_reply(r),
{
    match r {
        Ok(s) => LegacyResponse::Subscribed {
            hello: EventHello {
                stream_epoch: s.hello().stream_epoch.clone(),
                first_available_seq: s.hello().first_available_seq,
                last_seq: s.hello().last_seq,
            },
        },
        Err(p) => problem_response(p),
    }
}

/// The answer to a client that connects to a terminal.
pub open spec fn attach_reply(r: Result<(), KernelProblem>) -> ReplyView {
    match r {
        Ok(_) => ReplyView::TerminalChannelAttached,
        Err(p) => problem_reply(p@),
    }
}

/// The answer to a client that connects to a terminal.
pub fn answer_attach(r: Result<(), KernelProblem>) -> (a: LegacyResponse)
    ensures
        a@ == attach_reply(r),
{
    match r {
        Ok(_) => LegacyResponse::TerminalChannelAttached,
        Err(p) => problem_response(p),
    }
}

/// Whether a command was handed to the kernel once, and its answer came back.
pub open spec fn dispatched_once<K: CoreKernel>(
    before: K,
    q: RequestView,
    after: K,
    reply: ReplyView,
) -> bool {
    exists|r: Result<KernelOutcome, KernelProblem>| #[trigger]
        before.dispatches(q, after, r) && reply == dispatch_reply(r)
}

/// Whether a query was handed to the kernel once, and its answer came back.
pub open spec fn shown_once<K: CoreKernel>(
    before: K,
    q: QueryView,
    after: K,
    reply: ReplyView,
) -> bool {
    exists|r: Result<SnapshotEnvelope, KernelProblem>| #[trigger]
        before.shows(q, after, r) && reply == snapshot_reply(r)
}

/// Whether the kernel was asked once for its events, and its answer came back.
pub open spec fn subscribed_once<K: CoreKernel>(
    before: K,
    c: CursorView,
    after: K,
    reply: ReplyView,
) -> bool {
    exists|r: Result<EventSubscription, KernelProblem>| #[trigger]
        before.subscribes(c, after, r) && reply == subscribe_reply(r)
}

/// Whether the kernel was asked once for a terminal, and its answer came back.
pub open spec fn attached_once<K: CoreKernel>(
    before: K,
    session: Seq<char>,
    after_seq: u64,
    after: K,
    reply: ReplyView,
) -> bool {
    exists|r: Result<(), KernelProblem>| #[trigger]
        before.attaches(session, after_seq, after, r) && reply == attach_reply(r)
}

/// Whether a request was answered as it has to be: what needs no kernel leaves it as it was;
/// everything else is handed to the kernel once, as it is, and the kernel's own answer comes
/// back.
pub open spec fn answered<K: CoreKernel>(
    way: RoutedView,
    before: K,
    after: K,
    reply: ReplyView,
) -> bool {
    match way {
        RoutedView::Answer(a) => reply == a && after == before,
        RoutedView::Dispatch(q) => dispatched_once(before, q, after, reply),
        RoutedView::Snapshot(q) => shown_once(before, q, after, reply),
        RoutedView::Subscribe(c) => subscribed_once(before, c, after, reply),
        RoutedView::Attach(session, after_seq) => attached_once(
            before,
            session,
            after_seq,
            after,
            reply,
        ),
    }
}

/// One connection.
pub struct LegacyTransportSession {
    client: Option<(ClientId, Principal, u64)>,
}

impl View for LegacyTransportSession {
    type V = Option<IdentityView>;

    closed spec fn view(&self) -> Option<IdentityView> {
        match self.client {
            Some((client_id, principal, epoch)) => Some(
                IdentityView { client_id: client_id@, principal: principal@, epoch },
            ),
            None => None,
        }
    }
}

impl LegacyTransportSession {
    /// A connection whose client has not said who it is.
    pub fn new() -> (r: Self)
        ensures
            r@ is None,
    {
        LegacyTransportSession { client: None }
    }

    fn pass_on(who: &(ClientId, Principal, u64), request: LegacyRequest) -> (r: Routed)
        ensures
            r@ == passed_on(
                IdentityView { client_id: who.0@, principal: who.1@, epoch: who.2 },
                request@,
            ),
    {
        match request {
            LegacyRequest::Hello { .. } => Routed::Answer(LegacyResponse::HelloAccepted),
            LegacyRequest::Dispatch { command_id, command } => match CommandId::parse(
                command_id.as_str(),
            ) {
                Err(p) => Routed::Answer(unreadable(p.message())),
                Ok(id) => Routed::Dispatch(
                    KernelCommandRequest::new(id, who.0.clone(), who.1.clone(), who.2, command),
                ),
            },
            LegacyRequest::Snapshot { query } => Routed::Snapshot(query),
            LegacyRequest::SubscribeEvents { cursor } => Routed::Subscribe(cursor),
            LegacyRequest::AttachTerminal { session, after_seq } => match SessionHandle::parse(
                session.as_str(),
            ) {
                Err(p) => Routed::Answer(unreadable(p.message())),
                Ok(handle) => Routed::Attach(handle, TerminalAttach { after_seq }),
            },
            LegacyRequest::Shutdown => Routed::Answer(LegacyResponse::ShuttingDown),
        }
    }

    /// What a request comes to.
    pub fn begin(&mut self, request: LegacyRequest) -> (r: Routed)
        ensures
            (final(self)@, r@) == routed(old(self)@, request@),
    {
        if let LegacyRequest::Hello {
            protocol,
            client_id,
            principal,
            controller_lease_epoch,
        } = &request {
            if !same(protocol.as_str(), LEGACY_TRANSPORT_PROTOCOL) {
                return Routed::Answer(
                    LegacyResponse::ProtocolMismatch {
                        expected: LEGACY_TRANSPORT_PROTOCOL.to_owned(),
                    },
                );
            }
            return match (ClientId::parse(client_id.as_str()), Principal::parse(principal.as_str())) {
                (Ok(c), Ok(p)) => {
                    self.client = Some((c, p, *controller_lease_epoch));
                    Routed::Answer(LegacyResponse::HelloAccepted)
                },
                (Err(p), _) => Routed::Answer(unreadable(p.message())),
                (_, Err(p)) => Routed::Answer(unreadable(p.message())),
            };
        }
        match &self.client {
            None => Routed::Answer(unauthenticated()),
            Some(who) => Self::pass_on(who, request),
        }
    }

    /// Answers a request, and asks the kernel where it has to: once, with the request as it
    /// is. A request that is answered without the kernel leaves the kernel untouched.
    pub fn route<K: CoreKernel>(&mut self, kernel: &mut K, request: LegacyRequest) -> (r:
        LegacyResponse)
        ensures
            final(self)@ == routed(old(self)@, request@).0,
            answered(routed(old(self)@, request@).1, *old(kernel), *final(kernel), r@),
    {
        match self.begin(request) {
            Routed::Answer(a) => a,
            Routed::Dispatch(q) => answer_dispatch(kernel.dispatch(q)),
            Routed::Snapshot(q) => answer_snapshot(kernel.snapshot(q)),
            Routed::Subscribe(c) => answer_subscribe(kernel.subscribe_events(c)),
            Routed::Attach(s, a) => answer_attach(kernel.attach_terminal(s, a)),
        }
    }

    /// Answers a line, given how a line is read: nothing for a blank one, and a problem for
    /// one that cannot be read.
    pub fn handle_line<K: CoreKernel, P: FnOnce(&str) -> Result<LegacyRequest, String>>(
        &mut self,
        kernel: &mut K,
        line: &str,
        parse: P,
    ) -> (r: Option<LegacyResponse>)
        requires
            forall|text: &str| #[trigger] parse.requires((text,)),
        ensures
            is_blank(line@) ==> r is None && final(self)@ == old(self)@ && *final(kernel) == *old(
                kernel,
            ),
            !is_blank(line@) ==> r is Some && exists|
                text: &str,
                read: Result<LegacyRequest, String>,
            |
                text@ == trim_text(line@) && #[trigger] parse.ensures((text,), read) && match read {
                    Err(m) => {
                        &&& final(self)@ == old(self)@
                        &&& r->0@ == unreadable_reply(m@)
                        &&& *final(kernel) == *old(kernel)
                    },
                    Ok(q) => {
                        &&& final(self)@ == routed(old(self)@, q@).0
                        &&& answered(
                            routed(old(self)@, q@).1,
                            *old(kernel),
                            *final(kernel),
                            r->0@,
                        )
                    },
                },
    {
        let trimmed: String = trim(line);
        if crate::text::blank(line) {
            return None;
        }
        match parse(trimmed.as_str()) {
            Err(m) => Some(unreadable(m.as_str())),
            Ok(request) => Some(self.route(kernel, request)),
        }
    }
}

/// Before a client has said who it is every request is answered without the kernel, which
/// [`LegacyTransportSession::route`] then leaves untouched, and no answer but to a greeting
/// tells it more than that.
pub proof fn law_no_one_is_served_unknown(ask: AskView)
    ensures
        routed(None, ask).1 is Answer,
        !(ask is Hello) ==> routed(None, ask) == (
            None::<IdentityView>,
            RoutedView::Answer(unauthenticated_reply()),
        ),
        ask matches AskView::Hello { protocol, .. } && protocol != LEGACY_TRANSPORT_PROTOCOL@
            ==> routed(None, ask).0 is None,
{
}

/// Every command goes to the kernel as the client that greeted, with the lease that it
/// named: the line adds nothing, and takes nothing away.
pub proof fn law_the_line_changes_nothing(
    who: IdentityView,
    command_id: Seq<char>,
    command: KernelCommandView,
)
    requires
        command_id_of(command_id) is Ok,
    ensures
        ({
            let (after, way) = routed(Some(who), AskView::Dispatch { command_id, command });
            &&& after == Some(who)
            &&& way == RoutedView::Dispatch(
                RequestView {
                    command_id: command_id_of(command_id)->Ok_0,
                    client_id: who.client_id,
                    principal: who.principal,
                    controller_epoch: who.epoch,
                    command,
                },
            )
        }),
{
}

} // verus!
