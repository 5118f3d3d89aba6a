//! The event journal: what clients see, in which order, and when they are sent back.

use mf_kernel::dispatch::TargetDatabase;
use mf_kernel::handles::{AggregateKind, ProjectStoreHandle, StreamEpoch};
use mf_kernel::journal::EventJournal;
use mf_kernel::json::Json;
use mf_kernel::limits::JournalLimits;
use mf_kernel::problem::KernelProblem;
use mf_kernel::projection::{
    compile_event, ensure_not_regressed, is_known_delta, is_single_step, revision_at,
    AggregateRevision, EventCursor, RevisionVector, ScalarRevision,
};
use mf_kernel::run_actions::{
    drain_run_action_outbox, target_has_pending_run_actions, DeliveryStage,
};
use mf_kernel::shutdown::{assess, assess_sessions, ProjectActivity};
use mf_kernel::table::Table;

const NOW: &str = "2026-09-01T00:00:00Z";

fn obj(fields: Vec<(&str, Json)>) -> Json {
    Json::Object(
        fields
            .into_iter()
            .map(|(name, value)| (name.to_string(), value))
            .collect(),
    )
}

fn txt(s: &str) -> Json {
    Json::Text(s.to_string())
}

fn revision(n: u64) -> Json {
    obj(vec![("revision", Json::Unsigned(n))])
}

fn replace_event(kind: &str, handle: &str, base: u64, after: u64) -> Json {
    obj(vec![
        ("type", txt("workflow_run.settle.applied")),
        ("aggregate", obj(vec![("kind", txt(kind)), ("handle", txt(handle))])),
        ("caused_by_command_id", txt("c")),
        ("projection_critical", Json::Bool(true)),
        (
            "projection",
            obj(vec![
                ("base_revision", revision(base)),
                ("aggregate_revision", revision(after)),
                (
                    "delta",
                    obj(vec![("mode", txt("replace")), ("data", Json::Null)]),
                ),
            ]),
        ),
    ])
}

fn target() -> TargetDatabase {
    TargetDatabase::project(
        ProjectStoreHandle::generate().as_str(),
        Table::new(),
        Vec::new(),
    )
    .unwrap()
}

fn publish(journal: &mut EventJournal, target: &mut TargetDatabase) -> Result<(), KernelProblem> {
    journal.publish_pending(target, NOW, 1, || true, || true)
}

#[test]
fn events_arrive_in_order_without_a_gap() {
    let mut journal = EventJournal::with_limits(JournalLimits::default());
    let mut t = target();
    let start = journal.cursor();
    let mut client = journal.subscribe(&start).unwrap();
    for n in 0..3 {
        t.write_event(replace_event("step", "s", n, n + 1));
    }
    publish(&mut journal, &mut t).unwrap();
    assert!(t.pending().is_empty());
    let events = client.poll(&mut journal).unwrap();
    let seqs: Vec<u64> = events.iter().map(|e| e.seq).collect();
    assert_eq!(seqs, vec![1, 2, 3]);
    assert_eq!(client.cursor().through_seq, 3);
    let resumed = EventCursor {
        stream_epoch: start.stream_epoch.clone(),
        through_seq: 1,
    };
    let mut late = journal.subscribe(&resumed).unwrap();
    let seqs: Vec<u64> = late.poll(&mut journal).unwrap().iter().map(|e| e.seq).collect();
    assert_eq!(seqs, vec![2, 3]);
    assert_eq!(journal.stats().events, 3);
    late.release(&mut journal);
    assert_eq!(journal.stats().clients, 1);
}

#[test]
fn cursors_of_another_epoch_or_of_the_future_are_sent_back() {
    let mut journal = EventJournal::with_limits(JournalLimits::default());
    let other = EventCursor {
        stream_epoch: StreamEpoch::new(),
        through_seq: 0,
    };
    assert!(matches!(
        journal.subscribe(&other),
        Err(KernelProblem::ResyncRequired)
    ));
    let future = EventCursor {
        stream_epoch: journal.cursor().stream_epoch,
        through_seq: 9,
    };
    assert!(matches!(
        journal.subscribe(&future),
        Err(KernelProblem::ResyncRequired)
    ));
}

#[test]
fn what_cannot_be_explained_ends_the_epoch() {
    let mut journal = EventJournal::with_limits(JournalLimits::default());
    let mut t = target();
    let start = journal.cursor();
    let mut client = journal.subscribe(&start).unwrap();
    t.write_event(obj(vec![("type", txt("x"))]));
    assert!(publish(&mut journal, &mut t).is_err());
    assert!(matches!(
        client.poll(&mut journal),
        Err(KernelProblem::ResyncRequired)
    ));
    assert!(!journal.cursor().stream_epoch.same(&start.stream_epoch));
    assert_eq!(journal.stats().protocol_rotations, 1);
}

#[test]
fn a_store_that_takes_no_mark_is_recovered_before_anything_else() {
    let mut journal = EventJournal::with_limits(JournalLimits::default());
    let mut t = target();
    t.write_event(replace_event("step", "s", 0, 1));
    assert!(journal
        .publish_pending(&mut t, NOW, 1, || false, || false)
        .is_err());
    assert!(journal.is_poisoned());
    assert_eq!(journal.poisoned_targets().len(), 1);
    let mut targets = vec![t];
    assert!(journal.linearize(&mut targets, &vec![false], NOW).is_err());
    journal.linearize(&mut targets, &vec![true], NOW).unwrap();
    assert!(!journal.is_poisoned());
    assert!(targets[0].pending().is_empty());
    let (cursor, value) = journal
        .snapshot(&mut targets, &vec![true], NOW, || Ok(7))
        .unwrap();
    assert_eq!(value, 7);
    assert_eq!(cursor.through_seq, 0);
}

#[test]
fn limits_that_did_not_load_stop_the_journal() {
    let journal = EventJournal::configured(Err("bad file".to_string()));
    assert!(matches!(
        journal.ensure_configured(),
        Err(KernelProblem::ServiceUnavailable(_))
    ));
    assert!(EventJournal::configured(Ok(JournalLimits::default()))
        .ensure_configured()
        .is_ok());
}

#[test]
fn events_compile_or_say_why_not() {
    let epoch = StreamEpoch::new();
    let compile = |v: &Json| compile_event(&epoch, 4, NOW, v);
    let e = compile(&replace_event("step", "s", 1, 2)).unwrap();
    assert_eq!(e.event_type, "workflow_run.settle");
    assert_eq!(e.seq, 4);
    assert!(e.encoded_bytes() > 0);
    assert_eq!(e.to_wire().get_str("seq"), Some("4"));
    assert_eq!(compile(&Json::Null).unwrap_err(), "outbox 事件缺少 type");
    assert_eq!(
        compile(&replace_event("planet", "s", 1, 2)).unwrap_err(),
        "未知 aggregate.kind:planet"
    );
    assert_eq!(
        compile(&replace_event("step", "s", 2, 2)).unwrap_err(),
        "replace 未推进 revision"
    );
    assert!(compile(&replace_event("step", "s", 3, 2)).is_err());
}

#[test]
fn revisions_step_forward() {
    let scalar = |n| AggregateRevision::Scalar(ScalarRevision { revision: n });
    let pair = |s, p| {
        AggregateRevision::Workflow(RevisionVector {
            semantic_revision: s,
            presentation_revision: p,
        })
    };
    assert!(ensure_not_regressed(scalar(1), scalar(1)).is_ok());
    assert!(ensure_not_regressed(scalar(2), scalar(1)).is_err());
    assert!(ensure_not_regressed(scalar(1), pair(1, 1)).is_err());
    assert!(is_single_step(scalar(1), scalar(2)));
    assert!(!is_single_step(scalar(1), scalar(3)));
    assert!(is_single_step(pair(1, 1), pair(1, 2)));
    assert!(!is_single_step(pair(1, 1), pair(2, 2)));
    assert!(is_known_delta("workflow.rename"));
    assert!(!is_known_delta("workflow.burn"));
    assert_eq!(
        revision_at(&obj(vec![]), "base_revision", AggregateKind::Step).unwrap_err(),
        "outbox projection 缺少 base_revision"
    );
}

fn action_event(command_id: &str, actions: Vec<Json>) -> Json {
    let mut v = match replace_event("step", "s", 1, 2) {
        Json::Object(v) => v,
        _ => Vec::new(),
    };
    v[2].1 = txt(command_id);
    v.push((
        "run_actions".to_string(),
        obj(vec![
            ("schema", txt(mf_kernel::dispatch::DURABLE_RUN_ACTIONS_SCHEMA)),
            ("actions", Json::Array(actions)),
        ]),
    ));
    Json::Object(v)
}

#[test]
fn what_is_left_to_do_is_done_before_it_is_told() {
    let mut t = target();
    let id = uuid::Uuid::now_v7().to_string();
    t.write_event(action_event(&id, vec![txt("one"), txt("two")]));
    assert!(target_has_pending_run_actions(&t));
    assert!(
        drain_run_action_outbox(&mut t, &|_d| Err(KernelProblem::ServiceUnavailable(
            "later".to_string()
        )))
        .is_err()
    );
    assert!(target_has_pending_run_actions(&t));
    let seen = std::cell::RefCell::new(Vec::new());
    drain_run_action_outbox(&mut t, &|d| {
        seen.borrow_mut()
            .push((d.stage, d.action_index, d.command_id.as_str().to_string()));
        Ok(())
    })
    .unwrap();
    assert_eq!(
        *seen.borrow(),
        vec![
            (DeliveryStage::Read, 0, id.clone()),
            (DeliveryStage::Read, 1, id.clone()),
            (DeliveryStage::Do, 0, id.clone()),
            (DeliveryStage::Do, 1, id),
        ]
    );
    assert!(!target_has_pending_run_actions(&t));
    let mut journal = EventJournal::with_limits(JournalLimits::default());
    publish(&mut journal, &mut t).unwrap();
    assert_eq!(journal.stats().events, 1);
}

#[test]
fn a_shutdown_is_weighed() {
    let projects = vec![
        ProjectActivity {
            project: "p".to_string(),
            running: Ok(1),
            pending: Ok(2),
        },
        ProjectActivity {
            project: "q".to_string(),
            running: Ok(0),
            pending: Err("locked".to_string()),
        },
    ];
    let a = assess(&projects, &Err("gone".to_string()));
    assert!(!a.safe_to_proceed);
    assert_eq!(a.active_workflow_runs, 1);
    assert_eq!(a.pending_outbox_events, 2);
    assert_eq!(
        a.blockers,
        vec![
            "项目 p:1 个活动 Workflow Run".to_string(),
            "项目 p:2 个事件待发布".to_string(),
            "项目 q:待发布事件读取失败:locked".to_string(),
            "command intent 读取失败:gone".to_string(),
        ]
    );
    assert!(assess(&vec![], &Ok(0)).safe_to_proceed);
}

#[test]
fn shutdown_assessment_reports_live_sessions() {
    let quiet = assess_sessions(0);
    assert!(quiet.safe_to_proceed);
    let busy = assess_sessions(2);
    assert_eq!(busy.blockers, vec!["2 个存活 Agent Session".to_string()]);
    assert!(!busy.safe_to_proceed);
}

#[test]
fn nothing_is_done_of_what_cannot_be_read_as_a_whole() {
    let mut t = target();
    let id = uuid::Uuid::now_v7().to_string();
    t.write_event(action_event(&id, vec![txt("one"), txt("two")]));
    let done = std::cell::Cell::new(0);
    let drained = drain_run_action_outbox(&mut t, &|d| match d.stage {
        DeliveryStage::Read if d.action_index == 1 => {
            Err(KernelProblem::Internal("unknown action".to_string()))
        }
        DeliveryStage::Read => Ok(()),
        DeliveryStage::Do => {
            done.set(done.get() + 1);
            Ok(())
        }
    });
    assert!(matches!(drained, Err(KernelProblem::Internal(m)) if m == "unknown action"));
    assert_eq!(done.get(), 0);
    assert!(target_has_pending_run_actions(&t));
}
