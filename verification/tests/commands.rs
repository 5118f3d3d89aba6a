//! Commands: what they mean, who may send them, and what they leave behind.

use mf_kernel::authority::{ControllerLease, InProcessAuthorizer};
use mf_kernel::command::{
    canonical_expected_revisions, parse_key_hex, CommandEnvelope, CommandPayload, CommandProblem,
    CommandType, ServiceIdempotencyKey,
};
use mf_kernel::digest::{decode_hex, digest_text, hmac_text};
use mf_kernel::dispatch::{
    problem_for_terminal_code, CommandCoordinator, CommandOutcome, EffectOutput, FaultPoint,
    IntentRow, IntentState, ReconcileOutcome, TargetDatabase,
};
use mf_kernel::handles::{
    AggregateKind, AggregateRef, ClientId, CommandId, CommandTarget, ExpectedRevision, Principal,
    ProjectStoreHandle, StreamEpoch, TargetStoreKind, WorkflowHandle,
};
use mf_kernel::json::{
    canonical_json, is_sensitive_key, sorted_json, to_text, txt, value_contains,
    value_has_sensitive_field, Json,
};
use mf_kernel::problem::KernelProblem;
use mf_kernel::project_rows::{ProjectRows, WorkflowRecord};
use mf_kernel::table::Table;
use mf_kernel::secret::{SecretBytes, SecretText};
use mf_kernel::text::{blank, decimal, decimal_wide, less, signed, trim};

const NOW: &str = "2026-09-01T00:00:00Z";

fn obj(fields: &[(&str, Json)]) -> Json {
    let mut v = Vec::new();
    for (name, value) in fields {
        v.push((name.to_string(), value.copy()));
    }
    Json::Object(v)
}

fn project() -> String {
    format!("proj_{}", uuid::Uuid::now_v7())
}

fn workflow_ref(handle: &str) -> AggregateRef {
    AggregateRef::new(AggregateKind::ProjectWorkflow, handle).unwrap()
}

fn envelope(
    command_id: &CommandId,
    project: &str,
    handle: &str,
    epoch: u64,
    expected: u64,
    payload: CommandPayload,
) -> Result<CommandEnvelope, CommandProblem> {
    CommandEnvelope::new(
        command_id.clone(),
        ClientId::parse("cl_a").unwrap(),
        Principal::parse("user").unwrap(),
        epoch,
        None,
        CommandTarget {
            store: TargetStoreKind::Project,
            store_handle: project.to_string(),
            aggregate: workflow_ref(handle),
        },
        vec![ExpectedRevision::one(
            workflow_ref(handle),
            "presentation_revision",
            expected,
        )],
        CommandType::WorkflowRename,
        payload,
    )
}

fn key() -> ServiceIdempotencyKey {
    ServiceIdempotencyKey::for_test(vec![9; 32]).unwrap()
}

fn rows(handle: &str, presentation: i64) -> ProjectRows {
    ProjectRows {
        collection_revision: 1,
        workflows: vec![WorkflowRecord {
            public_handle: handle.to_string(),
            key: "build".to_string(),
            name: "Build".to_string(),
            nodes: Vec::new(),
            allow_unsafe_parallel: false,
            semantic_revision: 1,
            presentation_revision: presentation,
        }],
        tasks: Vec::new(),
        steps: Vec::new(),
        agent_runs: Vec::new(),
        sessions: Vec::new(),
        questions: Vec::new(),
        fences: Vec::new(),
    }
}

fn plain() -> CommandPayload {
    CommandPayload::Plain(obj(&[("name", txt("Build 2"))]))
}

fn effect() -> Result<EffectOutput, CommandProblem> {
    Ok(EffectOutput::for_contract(
        obj(&[
            ("semantic_revision", Json::Unsigned(1)),
            ("presentation_revision", Json::Unsigned(2)),
        ]),
        obj(&[("x", Json::Unsigned(1))]),
    ))
}

#[test]
fn texts_and_numbers() {
    assert_eq!(trim("  a b \u{3000}"), "a b");
    assert!(blank(" \t\n"));
    assert!(!blank("x"));
    assert_eq!(decimal(0), "0");
    assert_eq!(decimal(u64::MAX), "18446744073709551615");
    assert_eq!(decimal_wide(u128::MAX), u128::MAX.to_string());
    assert_eq!(signed(i64::MIN), "-9223372036854775808");
    assert!(less("a", "b") && less("a", "aa") && !less("b", "a") && !less("a", "a"));
}

#[test]
fn json_is_printed_in_one_form() {
    let v = obj(&[
        ("b", txt("q\"\n")),
        ("a", Json::Array(vec![Json::Null, Json::Bool(true), Json::Negative(-3)])),
    ]);
    assert_eq!(to_text(&v), "{\"b\":\"q\\\"\\n\",\"a\":[null,true,-3]}");
    assert_eq!(canonical_json(&v), "{\"a\":[null,true,-3],\"b\":\"q\\\"\\n\"}");
    assert_eq!(to_text(&sorted_json(&v)), canonical_json(&v));
    let parsed: serde_json::Value = serde_json::from_str(&canonical_json(&v)).unwrap();
    assert_eq!(serde_json::to_string(&parsed).unwrap(), canonical_json(&v));
    assert!(value_contains(&v, "q\""));
    assert!(!value_contains(&v, "zz"));
}

#[test]
fn credentials_are_known_by_their_names() {
    assert!(is_sensitive_key("API-Key"));
    assert!(is_sensitive_key("Password"));
    assert!(!is_sensitive_key("name"));
    assert!(value_has_sensitive_field(&obj(&[(
        "deep",
        obj(&[("client_secret", txt("x"))])
    )])));
    assert!(!value_has_sensitive_field(&obj(&[("title", txt("token"))])));
}

#[test]
fn digests_have_their_known_values() {
    assert_eq!(
        digest_text("abc"),
        "ba7816bf8f01cfea414140de5dae2223b00361a396177a9cb410ff61f20015ad"
    );
    assert_eq!(
        hmac_text(b"Jefe", b"what do ya want for nothing?"),
        "5bdcc146bf60754e6a042426089575c75a003f089d2739839dec58b964ec3843"
    );
    assert_eq!(decode_hex("00ff"), Some(vec![0, 255]));
    assert_eq!(decode_hex("0"), None);
    assert_eq!(decode_hex("zz"), None);
    assert_eq!(parse_key_hex(&"0f".repeat(32)).unwrap().as_slice(), vec![15; 32]);
    assert!(parse_key_hex("nope").is_err());
}

#[test]
fn handles_are_uuids_of_version_seven() {
    let id = uuid::Uuid::now_v7();
    assert_eq!(CommandId::parse(&id.simple().to_string()).unwrap().as_str(), id.to_string());
    assert_eq!(CommandId::parse(&id.to_string().to_uppercase()).unwrap().as_str(), id.to_string());
    assert!(CommandId::parse("not a uuid").is_err());
    let four = "c9a6463e-7c5c-4b3c-8d0a-0123456789ab";
    assert!(CommandId::parse(four).is_err());
    assert!(WorkflowHandle::parse(four).unwrap_err().message().contains(four));
    assert!(ProjectStoreHandle::parse(&id.to_string()).is_err());
    assert!(ProjectStoreHandle::parse(&format!("proj_{id}")).is_ok());
    assert_ne!(CommandId::new().as_str(), CommandId::new().as_str());
    assert_eq!(StreamEpoch::new().as_str().len(), 36);
    assert!(ClientId::parse(" ").is_err());
}

#[test]
fn the_digest_covers_what_a_command_means() {
    let p = project();
    let h = uuid::Uuid::now_v7().to_string();
    let a = envelope(&CommandId::new(), &p, &h, 1, 1, plain()).unwrap();
    let b = envelope(&CommandId::new(), &p, &h, 7, 1, plain()).unwrap();
    let k = key();
    assert_eq!(a.semantic_digest(&k).unwrap(), b.semantic_digest(&k).unwrap());
    assert_eq!(a.semantic_digest(&k).unwrap().len(), 64);
    let other = envelope(&CommandId::new(), &p, &h, 1, 2, plain()).unwrap();
    assert_ne!(a.semantic_digest(&k).unwrap(), other.semantic_digest(&k).unwrap());
    let expected_text = format!(
        "{{\"expected\":[{{\"aggregate\":{{\"handle\":\"{h}\",\"kind\":\"project_workflow\"}},\"revisions\":{{\"presentation_revision\":\"1\"}}}}],\"payload\":{{\"name\":\"Build 2\"}},\"schema\":\"{}\",\"target\":{{\"handle\":\"{h}\",\"kind\":\"project_workflow\",\"store\":\"project:{p}\"}},\"type\":\"workflow.rename\"}}",
        mf_kernel::command::COMMAND_SCHEMA
    );
    assert_eq!(a.semantic_digest(&k).unwrap(), digest_text(&expected_text));
}

#[test]
fn the_order_of_fields_and_expectations_does_not_matter() {
    let x = AggregateRef::new(AggregateKind::Step, "s").unwrap();
    let y = AggregateRef::new(AggregateKind::AgentRun, "r").unwrap();
    let one = vec![
        ExpectedRevision::one(x.clone(), "revision", 1),
        ExpectedRevision::one(y.clone(), "revision", 2),
    ];
    let two = vec![
        ExpectedRevision::one(y, "revision", 2),
        ExpectedRevision::one(x, "revision", 1),
    ];
    let print = |v: &Vec<ExpectedRevision>| -> Vec<String> {
        canonical_expected_revisions(v).iter().map(|j| canonical_json(j)).collect()
    };
    assert_eq!(print(&one), print(&two));
    assert_eq!(
        canonical_json(&obj(&[("b", Json::Null), ("a", Json::Null)])),
        canonical_json(&obj(&[("a", Json::Null), ("b", Json::Null)]))
    );
}

#[test]
fn a_secret_enters_the_digest_as_a_code() {
    let p = project();
    let h = uuid::Uuid::now_v7().to_string();
    let secret = |s: &str| CommandPayload::WriteOnlySecret {
        public_fields: obj(&[("label", txt("main"))]),
        secret: SecretText::new(s.to_string()),
    };
    let k = key();
    let a = envelope(&CommandId::new(), &p, &h, 1, 1, secret("one")).unwrap();
    let b = envelope(&CommandId::new(), &p, &h, 1, 1, secret("two")).unwrap();
    assert_ne!(a.semantic_digest(&k).unwrap(), b.semantic_digest(&k).unwrap());
    let other = ServiceIdempotencyKey::for_test(vec![1; 32]).unwrap();
    assert_ne!(a.semantic_digest(&k).unwrap(), a.semantic_digest(&other).unwrap());
    assert!(ServiceIdempotencyKey::for_test(vec![1; 31]).is_err());
}

#[test]
fn envelopes_are_checked() {
    let h = uuid::Uuid::now_v7().to_string();
    let refused = |p: &str, payload: CommandPayload| -> String {
        match envelope(&CommandId::new(), p, &h, 1, 1, payload) {
            Err(CommandProblem::InvalidEnvelope(m)) => m,
            _ => panic!("expected a refusal"),
        }
    };
    assert_eq!(refused("other", plain()), "Project target 缺少 proj_ store handle");
    assert_eq!(
        refused(&project(), CommandPayload::Plain(obj(&[("api_key", txt("x"))]))),
        "凭据/Token 不得进入 Plain command payload"
    );
    let p = project();
    let twice = CommandEnvelope::new(
        CommandId::new(),
        ClientId::parse("c").unwrap(),
        Principal::parse("u").unwrap(),
        1,
        None,
        CommandTarget {
            store: TargetStoreKind::Project,
            store_handle: p,
            aggregate: workflow_ref(&h),
        },
        vec![
            ExpectedRevision::one(workflow_ref(&h), "semantic_revision", 1),
            ExpectedRevision::one(workflow_ref(&h), "presentation_revision", 1),
        ],
        CommandType::WorkflowRename,
        plain(),
    );
    assert!(matches!(
        twice,
        Err(CommandProblem::InvalidEnvelope(m)) if m == "expected aggregate 重复"
    ));
}

struct World {
    coordinator: CommandCoordinator,
    intents: Table<IntentRow>,
    target: TargetDatabase,
    lease: ControllerLease,
    epoch: u64,
    project: String,
    handle: String,
}

fn world() -> World {
    let mut lease = ControllerLease::new();
    let epoch = lease.grant_controller("cl_a", "user").unwrap();
    let project = project();
    World {
        coordinator: CommandCoordinator::new(key()),
        intents: Table::new(),
        target: TargetDatabase::project(&project, Table::new(), Vec::new()).unwrap(),
        lease,
        epoch,
        project,
        handle: uuid::Uuid::now_v7().to_string(),
    }
}

impl World {
    fn send(
        &mut self,
        id: &CommandId,
        epoch: u64,
        expected: u64,
        fault: Option<FaultPoint>,
    ) -> Result<CommandOutcome, CommandProblem> {
        let rows = rows(&self.handle, 1);
        let e = envelope(id, &self.project, &self.handle, epoch, expected, plain()).unwrap();
        let authorizer = InProcessAuthorizer {
            lease: &self.lease,
            rows: &rows,
        };
        self.coordinator.dispatch_internal(
            &mut self.intents,
            &e,
            &mut self.target,
            &authorizer,
            effect,
            fault,
            NOW,
        )
    }
}

#[test]
fn a_command_is_carried_out_once() {
    let mut w = world();
    let id = CommandId::new();
    let epoch = w.epoch;
    let first = w.send(&id, epoch, 1, None).unwrap();
    assert!(matches!(first, CommandOutcome::Applied { replayed: false, .. }));
    assert_eq!(w.target.outbox().len(), 1);
    assert!(w.target.receipt_row(id.as_str()).is_some());
    assert_eq!(w.coordinator.intent_state(&w.intents, &id), Some(IntentState::Applied));
    let again = w.send(&id, epoch, 1, None).unwrap();
    assert!(matches!(again, CommandOutcome::Applied { replayed: true, .. }));
    assert_eq!(w.target.outbox().len(), 1);
    assert!(matches!(
        w.send(&id, epoch, 2, None),
        Err(CommandProblem::CommandIdReused)
    ));
}

#[test]
fn a_command_that_is_refused_writes_nothing() {
    let mut w = world();
    let epoch = w.epoch;
    assert!(matches!(
        w.send(&CommandId::new(), epoch, 5, None),
        Err(CommandProblem::RevisionConflict)
    ));
    assert!(matches!(
        w.send(&CommandId::new(), epoch + 1, 1, None),
        Err(CommandProblem::ControllerLeaseExpired)
    ));
    assert_eq!(w.target.outbox().len(), 0);
    assert_eq!(w.target.receipt_ids().len(), 0);
    let taken_over = w.lease.grant_controller("cl_b", "other").unwrap();
    assert!(taken_over > epoch);
    assert!(matches!(
        w.send(&CommandId::new(), epoch, 1, None),
        Err(CommandProblem::ControllerLeaseExpired)
    ));
}

#[test]
fn a_crash_is_settled_by_the_receipt() {
    let mut w = world();
    let epoch = w.epoch;
    let before = CommandId::new();
    assert!(w
        .send(&before, epoch, 1, Some(FaultPoint::AfterIntentReserve))
        .is_err());
    assert!(matches!(
        w.coordinator
            .reconcile(&mut w.intents, &before, &w.target, NOW)
            .unwrap(),
        ReconcileOutcome::Terminal(IntentState::Revoked)
    ));
    let after = CommandId::new();
    assert!(w
        .send(&after, epoch, 1, Some(FaultPoint::AfterTargetCommit))
        .is_err());
    assert_eq!(w.target.outbox().len(), 1);
    assert!(matches!(
        w.coordinator
            .reconcile(&mut w.intents, &after, &w.target, NOW)
            .unwrap(),
        ReconcileOutcome::Applied(_)
    ));
    let again = w.send(&after, epoch, 1, None).unwrap();
    assert!(matches!(again, CommandOutcome::Applied { replayed: true, .. }));
    assert_eq!(w.target.outbox().len(), 1);
}

#[test]
fn problems_have_codes() {
    for p in [
        CommandProblem::InvalidEnvelope("m".into()),
        CommandProblem::CommandIdReused,
        CommandProblem::CommandInProgress,
        CommandProblem::ControllerLeaseExpired,
        CommandProblem::RootEpochExpired,
        CommandProblem::RevisionConflict,
        CommandProblem::ValidationFailed("m".into()),
        CommandProblem::WorkflowCycle("m".into()),
        CommandProblem::UnknownDependency("m".into()),
        CommandProblem::ResourceNotFound,
        CommandProblem::TargetStoreMismatch,
        CommandProblem::PreviousCommandFailed,
        CommandProblem::PreviousCommandCancelled,
    ] {
        let code = p.code();
        assert!(!p.message().is_empty());
        assert_eq!(KernelProblem::from_command(p).code(), code);
    }
    assert!(matches!(
        problem_for_terminal_code("controller_lease_expired"),
        Some(CommandProblem::ControllerLeaseExpired)
    ));
    assert!(problem_for_terminal_code("no such code").is_none());
}

#[test]
fn states_read_back_from_their_names() {
    for s in [
        IntentState::Reserved,
        IntentState::Applied,
        IntentState::Failed,
        IntentState::Cancelled,
        IntentState::Revoked,
    ] {
        assert_eq!(IntentState::parse(s.as_str()).unwrap(), s);
    }
    assert!(IntentState::parse("other").is_err());
    for k in [AggregateKind::Project, AggregateKind::AgentSession, AggregateKind::RootState] {
        assert_eq!(AggregateKind::from_name(k.as_str()), Some(k));
    }
    assert_eq!(AggregateKind::from_name("other"), None);
}

#[test]
fn quoting_escapes_what_has_to_be() {
    let all: String = (0u8..128).map(char::from).chain("é\u{2028}\u{1f600}".chars()).collect();
    assert_eq!(
        to_text(&txt(&all)),
        serde_json::Value::String(all.clone()).to_string()
    );
    assert_eq!(
        to_text(&txt("\u{8}\t\u{c}\r\u{1}\u{1f}\u{7f}\\/")),
        "\"\\b\\t\\f\\r\\u0001\\u001f\u{7f}\\\\/\""
    );
}

#[test]
fn white_space_is_what_unicode_says() {
    for c in "\t\n\u{b}\u{c}\r \u{85}\u{a0}\u{1680}\u{2000}\u{200a}\u{2028}\u{2029}\u{202f}\u{205f}\u{3000}".chars() {
        assert!(blank(&c.to_string()));
    }
    for c in "\u{8}\u{e}\u{1f}\u{200b}\u{feff}\u{180e}a".chars() {
        assert!(!blank(&c.to_string()));
    }
}

#[test]
fn a_secret_is_held_and_never_printed() {
    assert_eq!(SecretText::new("hunter2".to_string()).as_str(), "hunter2");
    assert_eq!(SecretBytes::new(vec![1, 2, 3]).as_slice(), [1, 2, 3]);
    let payload = |s: &str| CommandPayload::WriteOnlySecret {
        public_fields: obj(&[("label", txt("main"))]),
        secret: SecretText::new(s.to_string()),
    };
    assert_eq!(
        to_text(&payload("hunter2").redacted()),
        "{\"payload\":\"WriteOnlySecret\",\"public_fields\":{\"label\":\"main\"},\
         \"secret\":\"[REDACTED]\"}"
    );
    assert_eq!(
        to_text(&CommandPayload::Plain(Json::Bool(true)).redacted()),
        "{\"payload\":\"Plain\",\"value\":true}"
    );
    let id = CommandId::new();
    let h = uuid::Uuid::now_v7().to_string();
    let e = envelope(&id, &project(), &h, 1, 1, payload("hunter2")).unwrap();
    let printed = to_text(&e.redacted());
    assert!(printed.contains(id.as_str()) && printed.contains("[REDACTED]"));
    assert!(!printed.contains("hunter2"));
}
