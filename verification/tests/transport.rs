//! The local connection, with a kernel behind it that answers in a fixed way.

use mf_kernel::facade::{check_terminal, CoreKernel, TerminalAttach};
use mf_kernel::handles::{ProjectStoreHandle, SessionHandle, StreamEpoch, WorkflowHandle};
use mf_kernel::journal::EventSubscription;
use mf_kernel::legacy_transport::{
    outcome_to_wire, KernelOutcomeWire, LegacyRequest, LegacyResponse, LegacyTransportSession,
    LEGACY_TRANSPORT_PROTOCOL,
};
use mf_kernel::operation::OperationHandle;
use mf_kernel::problem::KernelProblem;
use mf_kernel::projection::{EventCursor, RevisionVector};
use mf_kernel::run_command::{KernelCommand, KernelCommandRequest, KernelOutcome};
use mf_kernel::shutdown::{assess_sessions, ShutdownAssessment};
use mf_kernel::snapshot::{SnapshotEnvelope, SnapshotQuery};

struct FakeKernel {
    seen: Vec<(String, String, u64)>,
}

fn fake_kernel() -> FakeKernel {
    FakeKernel { seen: Vec::new() }
}

fn fake<T>() -> Result<T, KernelProblem> {
    Err(KernelProblem::ServiceUnavailable("fake".to_string()))
}

impl CoreKernel for FakeKernel {
    fn dispatch(&mut self, request: KernelCommandRequest) -> Result<KernelOutcome, KernelProblem> {
        self.seen.push((
            request.client_id().as_str().to_string(),
            request.principal().as_str().to_string(),
            request.controller_epoch(),
        ));
        Ok(KernelOutcome::Applied {
            revisions: RevisionVector {
                semantic_revision: 1,
                presentation_revision: 2,
            },
            replayed: false,
        })
    }

    fn snapshot(&mut self, _query: SnapshotQuery) -> Result<SnapshotEnvelope, KernelProblem> {
        fake()
    }

    fn subscribe_events(
        &mut self,
        _cursor: EventCursor,
    ) -> Result<EventSubscription, KernelProblem> {
        fake()
    }

    fn attach_terminal(
        &mut self,
        _session: SessionHandle,
        _attach: TerminalAttach,
    ) -> Result<(), KernelProblem> {
        fake()
    }

    fn shutdown(&mut self) -> ShutdownAssessment {
        assess_sessions(0)
    }

    fn grant_controller(
        &mut self,
        _client_id: &str,
        _principal: &str,
    ) -> Result<u64, KernelProblem> {
        fake()
    }

    fn controller_epoch(&self) -> u64 {
        0
    }

    fn attach_project(&mut self, _root: &str) -> Result<String, KernelProblem> {
        fake()
    }

    fn detach_project(&mut self, _project_handle: &str) -> Result<(), KernelProblem> {
        fake()
    }
}

fn hello(protocol: &str) -> LegacyRequest {
    LegacyRequest::Hello {
        protocol: protocol.to_string(),
        client_id: "cl_a".to_string(),
        principal: "user".to_string(),
        controller_lease_epoch: 1,
    }
}

fn rename_command() -> KernelCommand {
    KernelCommand::workflow_rename(
        ProjectStoreHandle::generate(),
        WorkflowHandle::parse(&uuid::Uuid::now_v7().simple().to_string()).unwrap(),
        "重命名",
        1,
    )
}

/// Writes the few requests that these tests send as lines.
fn written(request: &LegacyRequest) -> String {
    let mut fields = serde_json::Map::new();
    match request {
        LegacyRequest::Hello {
            protocol,
            client_id,
            principal,
            controller_lease_epoch,
        } => {
            fields.insert("kind".to_string(), "hello".into());
            fields.insert("protocol".to_string(), protocol.as_str().into());
            fields.insert("client_id".to_string(), client_id.as_str().into());
            fields.insert("principal".to_string(), principal.as_str().into());
            fields.insert(
                "controller_lease_epoch".to_string(),
                (*controller_lease_epoch).into(),
            );
        }
        LegacyRequest::Shutdown => {
            fields.insert("kind".to_string(), "shutdown".into());
        }
        _ => panic!("not sent here"),
    }
    serde_json::Value::Object(fields).to_string()
}

/// Reads the few lines that these tests send.
fn parse(line: &str) -> Result<LegacyRequest, String> {
    let value: serde_json::Value = serde_json::from_str(line).map_err(|e| e.to_string())?;
    let text = |name: &str| {
        value
            .get(name)
            .and_then(|v| v.as_str())
            .map(|v| v.to_string())
            .ok_or(format!("missing field `{name}`"))
    };
    match text("kind")?.as_str() {
        "shutdown" => Ok(LegacyRequest::Shutdown),
        "hello" => Ok(LegacyRequest::Hello {
            protocol: text("protocol")?,
            client_id: text("client_id")?,
            principal: text("principal")?,
            controller_lease_epoch: value
                .get("controller_lease_epoch")
                .and_then(|v| v.as_u64())
                .ok_or("missing field `controller_lease_epoch`")?,
        }),
        _ => Err("unknown kind".to_string()),
    }
}

/// Writes the few answers that these tests see as lines.
fn answer_written(response: &LegacyResponse) -> String {
    let kind = match response {
        LegacyResponse::HelloAccepted => "hello_accepted",
        LegacyResponse::ShuttingDown => "shutting_down",
        other => panic!("not answered here:{other:?}"),
    };
    let mut fields = serde_json::Map::new();
    fields.insert("kind".to_string(), kind.into());
    serde_json::Value::Object(fields).to_string()
}

/// Reads the few answers that these tests see.
fn answer_read(line: &str) -> LegacyResponse {
    let value: serde_json::Value = serde_json::from_str(line).unwrap();
    match value["kind"].as_str() {
        Some("hello_accepted") => LegacyResponse::HelloAccepted,
        Some("shutting_down") => LegacyResponse::ShuttingDown,
        other => panic!("not answered here:{other:?}"),
    }
}

/// One direction of a connection in memory.
struct Pipe {
    write: std::sync::mpsc::Sender<Vec<u8>>,
    read: std::sync::mpsc::Receiver<Vec<u8>>,
    buffer: Vec<u8>,
}

impl Pipe {
    fn new() -> Pipe {
        let (write, read) = std::sync::mpsc::channel();
        Pipe {
            write,
            read,
            buffer: Vec::new(),
        }
    }

    fn send_line(&mut self, line: &str) {
        self.write.send(line.as_bytes().to_vec()).unwrap();
        self.write.send(b"\n".to_vec()).unwrap();
    }

    /// The next line that came whole.
    fn next_line(&mut self) -> Option<String> {
        while let Ok(chunk) = self.read.try_recv() {
            self.buffer.extend(chunk);
        }
        let end = self.buffer.iter().position(|b| *b == b'\n')?;
        let line: Vec<u8> = self.buffer.drain(..end + 1).collect();
        Some(String::from_utf8(line).unwrap())
    }
}

/// The end of the connection that answers.
struct Server {
    session: LegacyTransportSession,
    kernel: FakeKernel,
}

impl Server {
    fn serve(&mut self, requests: &mut Pipe, answers: &mut Pipe) {
        while let Some(line) = requests.next_line() {
            if let Some(answer) = self.session.handle_line(&mut self.kernel, &line, parse) {
                answers.send_line(&answer_written(&answer));
            }
        }
    }
}

/// The end of the connection that asks.
struct Client {
    server: Server,
    requests: Pipe,
    answers: Pipe,
}

impl Client {
    fn request(&mut self, request: &LegacyRequest) -> Option<LegacyResponse> {
        self.requests.send_line(&written(request));
        self.server.serve(&mut self.requests, &mut self.answers);
        self.answers.next_line().map(|line| answer_read(line.trim()))
    }

    fn hello(&mut self, client_id: &str, principal: &str, epoch: u64) -> Option<LegacyResponse> {
        self.request(&LegacyRequest::Hello {
            protocol: LEGACY_TRANSPORT_PROTOCOL.to_string(),
            client_id: client_id.to_string(),
            principal: principal.to_string(),
            controller_lease_epoch: epoch,
        })
    }
}

#[test]
fn protocol_mismatch_is_rejected() {
    let mut kernel = fake_kernel();
    let mut session = LegacyTransportSession::new();
    let response = session
        .handle_line(
            &mut kernel,
            &written(&hello("mf.legacy-transport.v9")),
            parse,
        )
        .unwrap();
    assert!(matches!(
        response,
        LegacyResponse::ProtocolMismatch { expected } if expected == LEGACY_TRANSPORT_PROTOCOL
    ));
}

#[test]
fn requests_before_hello_are_unauthenticated() {
    let mut kernel = fake_kernel();
    let mut session = LegacyTransportSession::new();
    let response = session
        .handle_line(&mut kernel, "{\"kind\":\"shutdown\"}", parse)
        .unwrap();
    assert!(matches!(
        response,
        LegacyResponse::Problem { code, .. } if code == "unauthenticated"
    ));
}

#[test]
fn hello_then_dispatch_routes_through_kernel() {
    let mut kernel = fake_kernel();
    let mut session = LegacyTransportSession::new();
    let _ = session.route(&mut kernel, hello(LEGACY_TRANSPORT_PROTOCOL));
    let response = session.route(
        &mut kernel,
        LegacyRequest::Dispatch {
            command_id: uuid::Uuid::now_v7().to_string(),
            command: rename_command(),
        },
    );
    match response {
        LegacyResponse::Outcome { result } => {
            assert!(matches!(
                result,
                KernelOutcomeWire::Applied {
                    replayed: false,
                    ..
                }
            ));
        }
        other => panic!("期望 outcome:{other:?}"),
    }
    assert_eq!(
        kernel.seen,
        vec![("cl_a".to_string(), "user".to_string(), 1)]
    );
}

#[test]
fn garbage_line_yields_problem_not_crash() {
    let mut kernel = fake_kernel();
    let mut session = LegacyTransportSession::new();
    let response = session
        .handle_line(&mut kernel, "not json", parse)
        .unwrap();
    assert!(matches!(
        response,
        LegacyResponse::Problem { code, .. } if code == "invalid_envelope"
    ));
}

#[test]
fn client_and_server_round_trip_over_memory_pipe() {
    let mut client = Client {
        server: Server {
            session: LegacyTransportSession::new(),
            kernel: fake_kernel(),
        },
        requests: Pipe::new(),
        answers: Pipe::new(),
    };
    match client.hello("cl_g", "user", 1).unwrap() {
        LegacyResponse::HelloAccepted => {}
        other => panic!("hello 应接受:{other:?}"),
    }
    match client.request(&LegacyRequest::Shutdown).unwrap() {
        LegacyResponse::ShuttingDown => {}
        other => panic!("shutdown:{other:?}"),
    }
    assert!(client.answers.next_line().is_none());
    assert!(client.server.kernel.seen.is_empty());
    let _ = client.server.session.route(
        &mut client.server.kernel,
        LegacyRequest::Dispatch {
            command_id: uuid::Uuid::now_v7().to_string(),
            command: rename_command(),
        },
    );
    assert_eq!(
        client.server.kernel.seen,
        vec![("cl_g".to_string(), "user".to_string(), 1)]
    );
}

#[test]
fn nothing_reaches_the_kernel_before_the_greeting() {
    let mut kernel = fake_kernel();
    let mut session = LegacyTransportSession::new();
    let response = session.route(
        &mut kernel,
        LegacyRequest::Dispatch {
            command_id: uuid::Uuid::now_v7().to_string(),
            command: rename_command(),
        },
    );
    assert!(matches!(
        response,
        LegacyResponse::Problem { code, .. } if code == "unauthenticated"
    ));
    assert!(session.handle_line(&mut kernel, "\u{a0}\t\u{3000}", parse).is_none());
    let _ = session.handle_line(&mut kernel, "{\"kind\":\"hello\"}", parse);
    assert!(kernel.seen.is_empty());
}

#[test]
fn blank_lines_get_no_answer() {
    let mut kernel = fake_kernel();
    let mut session = LegacyTransportSession::new();
    assert!(session.handle_line(&mut kernel, "  \n", parse).is_none());
}

#[test]
fn what_cannot_be_read_is_said() {
    let mut kernel = fake_kernel();
    let mut session = LegacyTransportSession::new();
    let response = session.route(
        &mut kernel,
        LegacyRequest::Hello {
            protocol: LEGACY_TRANSPORT_PROTOCOL.to_string(),
            client_id: " ".to_string(),
            principal: "user".to_string(),
            controller_lease_epoch: 1,
        },
    );
    assert!(matches!(
        response,
        LegacyResponse::Problem { code, message }
            if code == "invalid_envelope" && message == "client_id 不能为空"
    ));
    let _ = session.route(&mut kernel, hello(LEGACY_TRANSPORT_PROTOCOL));
    let response = session.route(
        &mut kernel,
        LegacyRequest::Dispatch {
            command_id: "no uuid".to_string(),
            command: rename_command(),
        },
    );
    assert!(matches!(
        response,
        LegacyResponse::Problem { code, .. } if code == "invalid_envelope"
    ));
    assert!(kernel.seen.is_empty());
    let response = session.route(
        &mut kernel,
        LegacyRequest::AttachTerminal {
            session: "other".to_string(),
            after_seq: 0,
        },
    );
    assert!(matches!(
        response,
        LegacyResponse::Problem { message, .. } if message == "session handle 必须以 sess_ 开头"
    ));
}

#[test]
fn problems_of_the_kernel_go_over_the_line() {
    let mut kernel = fake_kernel();
    let mut session = LegacyTransportSession::new();
    let _ = session.route(&mut kernel, hello(LEGACY_TRANSPORT_PROTOCOL));
    for request in [
        LegacyRequest::Snapshot {
            query: SnapshotQuery::Workspace,
        },
        LegacyRequest::SubscribeEvents {
            cursor: EventCursor {
                stream_epoch: StreamEpoch::new(),
                through_seq: 0,
            },
        },
        LegacyRequest::AttachTerminal {
            session: format!("sess_{}", uuid::Uuid::now_v7()),
            after_seq: 3,
        },
    ] {
        assert!(matches!(
            session.route(&mut kernel, request),
            LegacyResponse::Problem { code, .. } if code == "service_unavailable"
        ));
    }
}

#[test]
fn outcomes_keep_their_numbers() {
    let handle = OperationHandle::new();
    assert_eq!(
        outcome_to_wire(KernelOutcome::Accepted {
            operation_handle: handle.clone()
        }),
        KernelOutcomeWire::Accepted {
            operation_handle: handle.as_str().to_string()
        }
    );
    assert_eq!(
        outcome_to_wire(KernelOutcome::RunApplied {
            revision: 9,
            replayed: true
        }),
        KernelOutcomeWire::RunApplied {
            revision: 9,
            replayed: true
        }
    );
}

#[test]
fn a_terminal_needs_a_host_and_a_session() {
    assert!(matches!(
        check_terminal(false, true),
        Err(KernelProblem::ServiceUnavailable(_))
    ));
    assert!(matches!(
        check_terminal(true, false),
        Err(KernelProblem::ResourceNotFound)
    ));
    assert!(check_terminal(true, true).is_ok());
}
