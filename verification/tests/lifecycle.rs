//! The life of a core process: who serves, and when it may.

use mf_kernel::core_lifecycle::{
    arg_value, derive_mutex_name, CoreLifecycle, CorePhase, DiscoveryRecord, LifecycleProblem,
};
use mf_kernel::feature_gate::{DurableFeatureRegistry, FeatureContract, FeatureGateProblem};
use mf_kernel::handoff::{
    BridgeAState, BridgePhase, BridgeProblem, DrainInputs, HandoffManifest,
};

/// A lock that one process holds at a time.
struct OwnerLock {
    held: bool,
}

impl OwnerLock {
    fn new() -> Self {
        OwnerLock { held: false }
    }

    fn acquire(&mut self) -> bool {
        if self.held {
            return false;
        }
        self.held = true;
        true
    }
}

#[test]
fn loser_exits_without_serving() {
    let mut lock = OwnerLock::new();
    assert!(lock.acquire());
    let mut loser = CoreLifecycle::new();
    let result = loser.acquire_owner_lock(lock.acquire());
    assert!(matches!(result, Err(LifecycleProblem::LostSingleton { .. })));
    assert_eq!(loser.phase(), CorePhase::LostSingleton);
    assert_ne!(loser.phase(), CorePhase::Owning);
}

#[test]
fn owning_requires_owner_lock_then_discovery() {
    let mut lock = OwnerLock::new();
    let mut core = CoreLifecycle::new();
    core.acquire_owner_lock(lock.acquire()).unwrap();
    assert_ne!(core.phase(), CorePhase::Owning);
    let record = core.update_discovery(None, 4242, Some(51234), "0").unwrap();
    assert_eq!(core.phase(), CorePhase::Owning);
    assert_eq!(record.owner_epoch, 1);
    assert_eq!(record.loopback_port, Some(51234));
    assert_eq!(record.pid, 4242);
    assert_eq!(record.started_at, "0");
}

#[test]
fn stale_discovery_epoch_is_fenced() {
    let mut lock = OwnerLock::new();
    let mut core = CoreLifecycle::new();
    core.acquire_owner_lock(lock.acquire()).unwrap();
    let stale = DiscoveryRecord {
        owner_epoch: 1,
        pid: 9999,
        started_at: "0".to_string(),
        loopback_port: None,
    };
    assert!(matches!(
        core.update_discovery(Some(&stale), 4242, None, "0"),
        Err(LifecycleProblem::StaleDiscovery {
            stale: 1,
            current: 1
        })
    ));
    let older = DiscoveryRecord {
        owner_epoch: 0,
        ..stale
    };
    assert!(core.update_discovery(Some(&older), 4242, None, "0").is_ok());
}

#[test]
fn cold_start_budget_enforced() {
    let mut lock = OwnerLock::new();
    let mut core = CoreLifecycle::new();
    core.acquire_owner_lock(lock.acquire()).unwrap();
    core.check_cold_start_budget(10, 4_999, 5_000).unwrap();
    assert!(matches!(
        core.check_cold_start_budget(10, 5_001, 5_000),
        Err(LifecycleProblem::ColdStartBudget { .. })
    ));
}

#[test]
fn discovery_without_the_lock_is_refused() {
    let mut core = CoreLifecycle::new();
    assert!(matches!(
        core.update_discovery(None, 7, None, "0"),
        Err(LifecycleProblem::LostSingleton { .. })
    ));
    assert_ne!(core.phase(), CorePhase::Owning);
    core.fail();
    assert_eq!(core.phase(), CorePhase::Failed);
    assert!(!LifecycleProblem::LostSingleton { pid: 7 }.message().is_empty());
    assert!(LifecycleProblem::StaleDiscovery {
        stale: 3,
        current: 2
    }
    .message()
    .contains('3'));
    assert!(LifecycleProblem::ColdStartBudget {
        projects: 10,
        elapsed_ms: 5_001,
        budget_ms: 5_000
    }
    .message()
    .contains("5001"));
}

#[test]
fn mutex_names_and_arguments() {
    assert_eq!(derive_mutex_name("/a/b"), derive_mutex_name("/a/b"));
    assert_ne!(derive_mutex_name("/a/b"), derive_mutex_name("/a/c"));
    let args: Vec<String> = vec!["core".into(), "--state-dir".into(), "/x".into()];
    assert_eq!(arg_value(&args, "--state-dir"), Some("/x".to_string()));
    assert_eq!(arg_value(&args, "--other"), None);
}

#[test]
fn reader_policy_is_n_writer_n_plus_1() {
    let registry = DurableFeatureRegistry::baseline();
    let table = registry.reader_table();
    assert_eq!(
        table.iter().find(|row| row.0 == "terminal-transcript").map(|row| row.1),
        Some(1)
    );
    assert!(!table.is_empty());
    for (name, _) in &table {
        let contract = registry.contract(name).unwrap();
        assert_eq!(contract.writer_version, contract.reader_version + 1);
    }
}

#[test]
fn unknown_feature_and_old_reader_block_safely() {
    let registry = DurableFeatureRegistry::baseline();
    assert!(matches!(
        registry.check_reader("future-thing", 9),
        Err(FeatureGateProblem::UnknownFeature(_))
    ));
    assert!(matches!(
        registry.check_reader("terminal-transcript", 0),
        Err(FeatureGateProblem::ReaderTooOld {
            have: 0,
            need: 1,
            ..
        })
    ));
    assert!(registry.check_reader("terminal-transcript", 1).is_ok());
}

#[test]
fn writer_requires_runtime_and_bundle_agreement() {
    let mut registry = DurableFeatureRegistry::baseline();
    assert!(matches!(
        registry.check_writer("installation-receipt", Some(2)),
        Err(FeatureGateProblem::WriterNotEnabled(_))
    ));
    registry.set_writer_enabled("installation-receipt", true);
    assert!(matches!(
        registry.check_writer("installation-receipt", None),
        Err(FeatureGateProblem::WriterNotEnabled(_))
    ));
    assert!(matches!(
        registry.check_writer("installation-receipt", Some(3)),
        Err(FeatureGateProblem::WriterVersionDrift {
            bundle: 3,
            registry: 2,
            ..
        })
    ));
    registry
        .check_writer("installation-receipt", Some(2))
        .unwrap();
}

#[test]
fn a_registered_feature_is_known() {
    let mut registry = DurableFeatureRegistry::baseline();
    registry.register(
        "future-thing",
        FeatureContract {
            reader_version: 3,
            writer_version: 4,
        },
    );
    assert!(registry.check_reader("future-thing", 3).is_ok());
    let problem = registry.check_reader("future-thing", 2).unwrap_err();
    assert!(problem.message().contains("future-thing"));
    assert!(matches!(
        registry.check_writer("never-heard-of", Some(1)),
        Err(FeatureGateProblem::UnknownFeature(_))
    ));
}

fn empty_drain() -> DrainInputs {
    DrainInputs::default()
}

fn manifest(bundle: &str) -> HandoffManifest {
    HandoffManifest {
        schema: "mf.handoff.v1".into(),
        controller_epoch: 8,
        root_epoch: None,
        stream_epoch: "ep_golden".into(),
        bundle_id: bundle.into(),
        min_successor_version: "0.2.0".into(),
        handed_off_at: "2026-09-02T00:00:00Z".into(),
    }
}

#[test]
fn happy_path_freeze_drain_close_handoff() {
    let mut bridge = BridgeAState::new(10_000);
    assert!(bridge.accepts_new_work());
    bridge.freeze(7).unwrap();
    assert!(!bridge.accepts_new_work(), "freeze 后无新工作");
    assert_eq!(bridge.frozen_controller_epoch, Some(8), "epoch 旋转");
    bridge.freeze(8).unwrap();
    assert_eq!(bridge.frozen_controller_epoch, Some(8));
    bridge.drain(&empty_drain()).unwrap();
    bridge.close_stores().unwrap();
    bridge.hand_off(manifest("bundle-a")).unwrap();
    assert_eq!(bridge.phase(), BridgePhase::HandedOff);
}

#[test]
fn phase_regression_and_already_handed_off_rejected() {
    let mut bridge = BridgeAState::new(1_000);
    assert!(matches!(
        bridge.drain(&empty_drain()),
        Err(BridgeProblem::PhaseRegression { .. })
    ));
    bridge.freeze(1).unwrap();
    bridge.drain(&empty_drain()).unwrap();
    bridge.close_stores().unwrap();
    bridge.hand_off(manifest("b")).unwrap();
    assert_eq!(bridge.freeze(9), Err(BridgeProblem::AlreadyHandedOff));
    assert_eq!(
        bridge.drain(&empty_drain()),
        Err(BridgeProblem::AlreadyHandedOff)
    );
    assert_eq!(bridge.close_stores(), Err(BridgeProblem::AlreadyHandedOff));
    assert_eq!(
        bridge.hand_off(manifest("b")),
        Err(BridgeProblem::AlreadyHandedOff)
    );
}

#[test]
fn zero_active_gate_defers_until_drained() {
    let mut bridge = BridgeAState::new(1_000);
    bridge.freeze(1).unwrap();
    let busy = DrainInputs {
        pending_outbox_events: 3,
        unfinished_intents: 1,
        live_sessions: 2,
        active_installation_jobs: 1,
        uninterruptible_operations: 1,
    };
    assert!(matches!(
        bridge.drain(&busy),
        Err(BridgeProblem::DrainIncomplete { .. })
    ));
    bridge.drain(&empty_drain()).unwrap();
}

#[test]
fn reacquire_window_and_successor_version() {
    let mut bridge = BridgeAState::new(5_000);
    bridge.freeze(1).unwrap();
    bridge.drain(&empty_drain()).unwrap();
    bridge.close_stores().unwrap();
    bridge.hand_off(manifest("bundle-a")).unwrap();
    bridge.successor_may_reacquire("0.2.0", 4_999).unwrap();
    assert!(matches!(
        bridge.successor_may_reacquire("0.1.0", 0),
        Err(BridgeProblem::SuccessorTooOld { .. })
    ));
    assert_eq!(
        bridge.successor_may_reacquire("0.2.0", 5_001),
        Err(BridgeProblem::ReacquireWindowExpired)
    );
}

#[test]
fn a_phase_never_goes_back() {
    let mut bridge = BridgeAState::new(1_000);
    bridge.freeze(1).unwrap();
    bridge.drain(&empty_drain()).unwrap();
    bridge.close_stores().unwrap();
    let problem = bridge.drain(&empty_drain()).unwrap_err();
    assert!(matches!(problem, BridgeProblem::PhaseRegression { .. }));
    assert_eq!(bridge.phase(), BridgePhase::StoresClosed);
    assert!(!problem.message().is_empty());
}

#[test]
fn the_stores_stay_open_while_anything_is_under_way() {
    let mut bridge = BridgeAState::new(1_000);
    bridge.freeze(1).unwrap();
    let busy = DrainInputs {
        live_sessions: 2,
        ..empty_drain()
    };
    assert!(bridge.drain(&busy).is_err());
    assert_eq!(
        bridge.close_stores(),
        Err(BridgeProblem::DrainIncomplete {
            outbox: 0,
            intents: 0,
            sessions: 2,
            installs: 0,
            uninterruptible: 0,
        })
    );
    assert_eq!(bridge.phase(), BridgePhase::Draining);
    bridge.drain(&empty_drain()).unwrap();
    bridge.close_stores().unwrap();
    assert_eq!(bridge.phase(), BridgePhase::StoresClosed);
}

fn handed_off(min_successor_version: &str) -> BridgeAState {
    let mut bridge = BridgeAState::new(5_000);
    bridge.freeze(1).unwrap();
    bridge.drain(&empty_drain()).unwrap();
    bridge.close_stores().unwrap();
    bridge
        .hand_off(HandoffManifest {
            min_successor_version: min_successor_version.into(),
            ..manifest("bundle-a")
        })
        .unwrap();
    bridge
}

#[test]
fn versions_are_compared_by_their_numbers() {
    for newer in ["0.2.0", "0.2", "0.10.0", "0.2.0.1", "1.0.0", "10.0.0"] {
        handed_off("0.2.0").successor_may_reacquire(newer, 0).unwrap();
    }
    for older in ["0.1.9", "0.1.10", "0", "0.0.99"] {
        assert!(matches!(
            handed_off("0.2.0").successor_may_reacquire(older, 0),
            Err(BridgeProblem::SuccessorTooOld { .. })
        ));
    }
    assert!(handed_off("0.10.0").successor_may_reacquire("0.9.0", 0).is_err());
    assert!(handed_off("b").successor_may_reacquire("a", 0).is_err());
    handed_off("a").successor_may_reacquire("b", 0).unwrap();
}

#[test]
fn the_frozen_epoch_can_be_asked_for() {
    let mut bridge = BridgeAState::new(1_000);
    assert_eq!(bridge.frozen_controller_epoch(), None);
    bridge.freeze(7).unwrap();
    assert_eq!(bridge.frozen_controller_epoch(), Some(8));
}

#[test]
fn a_manifest_is_there_once_handed_off_and_stays() {
    let mut bridge = BridgeAState::new(5_000);
    assert!(bridge.hand_off(manifest("early")).is_err());
    assert!(bridge.manifest().is_none() && bridge.accepts_new_work());
    bridge.freeze(1).unwrap();
    assert!(!bridge.accepts_new_work());
    bridge.drain(&empty_drain()).unwrap();
    bridge.close_stores().unwrap();
    assert!(bridge.manifest().is_none());
    bridge
        .hand_off(HandoffManifest {
            schema: "other".into(),
            ..manifest("bundle-a")
        })
        .unwrap();
    for _ in 0..2 {
        let kept = bridge.manifest().unwrap();
        assert_eq!(kept.schema, "mf.handoff.v1");
        assert_eq!(kept.bundle_id, "bundle-a");
        assert!(bridge.hand_off(manifest("late")).is_err());
        assert!(bridge.freeze(2).is_err());
        assert!(bridge.successor_may_reacquire("0.1.0", 0).is_err());
        assert!(!bridge.accepts_new_work());
    }
}

#[test]
fn the_owner_epoch_counts_the_locks() {
    let mut core = CoreLifecycle::new();
    assert_eq!(core.owner_epoch(), 0);
    for (acquired, epoch) in [(false, 0), (true, 1), (false, 1), (true, 2)] {
        assert_eq!(core.acquire_owner_lock(acquired).is_ok(), acquired);
        let _ = core.update_discovery(None, 1, None, "now");
        let _ = core.check_cold_start_budget(1, 9, 1);
        core.fail();
        assert_eq!(core.owner_epoch(), epoch);
    }
}
