//! The registry of projects and of the tokens of agent runs.

use mf_kernel::handles::{AgentRunHandle, ProjectStoreHandle};
use mf_kernel::project_registry::{
    canonical_root_of, strip_verbatim, ProjectStatus, RegisteredProject, RunCapability,
    RunCapabilityKey, RunCapabilityRegistration, RunCapabilityResolution, RunCapabilityState,
    ServiceStore,
};

const NOW: &str = "2026-09-01T00:00:00Z";

fn agent_run() -> AgentRunHandle {
    AgentRunHandle::parse(&uuid::Uuid::now_v7().to_string()).unwrap()
}

fn project(store: &mut ServiceStore, root: &str) -> ProjectStoreHandle {
    store
        .register_project_path(Ok(root.to_string()), root, root, NOW)
        .unwrap()
        .project_handle
}

#[test]
fn capability_authority_persists_only_hmac_and_transitions_terminally() {
    let mut store = ServiceStore::new();
    let project = project(&mut store, "/project");
    let run = agent_run();
    let key = RunCapabilityKey::for_test(vec![0x41; 32]).unwrap();
    let token = b"plaintext-capability-must-not-persist";

    let registered = store
        .register_run_capability(&key, token, &project, &run, NOW)
        .unwrap();
    assert!(matches!(
        registered,
        RunCapabilityRegistration::Registered(_)
    ));
    assert!(matches!(
        store.resolve_run_capability(&key, token).unwrap(),
        RunCapabilityResolution::One(RunCapability {
            state: RunCapabilityState::Active,
            ..
        })
    ));
    for _ in 0..3 {
        assert!(matches!(
            store
                .register_run_capability(&key, token, &project, &run, NOW)
                .unwrap(),
            RunCapabilityRegistration::Registered(RunCapability {
                state: RunCapabilityState::Active,
                ..
            })
        ));
    }
    assert_eq!(
        store.capabilities().len(),
        1,
        "exact replay 必须收敛为原 authority 行"
    );
    let stored_hmac = store.capabilities()[0].token_hmac.clone();
    assert_eq!(stored_hmac.len(), 64);
    assert_ne!(stored_hmac.as_bytes(), token);

    assert!(matches!(
        store.settle_run_capability(&key, token, NOW).unwrap(),
        RunCapabilityResolution::One(RunCapability {
            state: RunCapabilityState::Settled,
            revoked_at: Some(_),
            ..
        })
    ));
    assert!(matches!(
        store.revoke_run_capability(&key, token, NOW).unwrap(),
        RunCapabilityResolution::One(RunCapability {
            state: RunCapabilityState::Settled,
            ..
        })
    ));
}

#[test]
fn registration_conflicts_and_cross_project_duplicates_quarantine() {
    let mut store = ServiceStore::new();
    let p1 = project(&mut store, "/p1");
    let p2 = project(&mut store, "/p2");
    let key = RunCapabilityKey::for_test(vec![0x42; 32]).unwrap();

    let r2 = agent_run();
    store
        .register_run_capability(&key, b"cross-token", &p1, &r2, NOW)
        .unwrap();
    assert!(matches!(
        store
            .register_run_capability(&key, b"cross-token", &p2, &agent_run(), NOW)
            .unwrap(),
        RunCapabilityRegistration::Quarantined
    ));
    assert!(matches!(
        store.resolve_run_capability(&key, b"cross-token").unwrap(),
        RunCapabilityResolution::Many
    ));

    let same_pair_run = agent_run();
    store
        .register_run_capability(&key, b"pair-a", &p1, &same_pair_run, NOW)
        .unwrap();
    assert!(matches!(
        store
            .register_run_capability(&key, b"pair-b", &p1, &same_pair_run, NOW)
            .unwrap(),
        RunCapabilityRegistration::Quarantined
    ));
    assert!(matches!(
        store.resolve_run_capability(&key, b"pair-a").unwrap(),
        RunCapabilityResolution::Many
    ));

    let shared_run = agent_run();
    store
        .register_run_capability(&key, b"cross-a", &p1, &shared_run, NOW)
        .unwrap();
    assert!(matches!(
        store
            .register_run_capability(&key, b"cross-b", &p2, &shared_run, NOW)
            .unwrap(),
        RunCapabilityRegistration::Quarantined
    ));
    assert!(matches!(
        store.resolve_run_capability(&key, b"cross-a").unwrap(),
        RunCapabilityResolution::Many
    ));
    assert!(matches!(
        store.resolve_run_capability(&key, b"cross-b").unwrap(),
        RunCapabilityResolution::Many
    ));
}

#[test]
fn concurrent_exact_replay_converges_to_one_active_row() {
    let mut store = ServiceStore::new();
    let project = project(&mut store, "/project");
    let run = agent_run();
    let key = RunCapabilityKey::for_test(vec![0x43; 32]).unwrap();
    for _ in 0..2 {
        assert!(matches!(
            store
                .register_run_capability(&key, b"same-race-token", &project, &run, NOW)
                .unwrap(),
            RunCapabilityRegistration::Registered(RunCapability {
                state: RunCapabilityState::Active,
                ..
            })
        ));
    }
    assert_eq!(store.capabilities().len(), 1);
    assert_eq!(
        store.capabilities()[0].capability.state,
        RunCapabilityState::Active
    );
    assert!(matches!(
        store
            .resolve_run_capability(&key, b"same-race-token")
            .unwrap(),
        RunCapabilityResolution::One(RunCapability {
            state: RunCapabilityState::Active,
            ..
        })
    ));
}

#[test]
fn project_mapping_backfill_and_bulk_revoke_fail_closed() {
    let mut store = ServiceStore::new();
    let key = RunCapabilityKey::for_test(vec![0x44; 32]).unwrap();
    let unknown = ProjectStoreHandle::generate();
    assert!(store
        .register_run_capability(&key, b"unknown", &unknown, &agent_run(), NOW)
        .unwrap_err()
        .contains("run_capability_project_unknown"));

    let active = project(&mut store, "/active");
    let run1 = agent_run();
    let run2 = agent_run();
    store
        .register_run_capability(&key, b"active-1", &active, &run1, NOW)
        .unwrap();
    store
        .register_run_capability(&key, b"active-2", &active, &run2, NOW)
        .unwrap();
    assert_eq!(store.revoke_project_run_capabilities(&active, NOW), 2);
    for token in [b"active-1".as_slice(), b"active-2".as_slice()] {
        assert!(matches!(
            store.resolve_run_capability(&key, token).unwrap(),
            RunCapabilityResolution::One(RunCapability {
                state: RunCapabilityState::Revoked,
                ..
            })
        ));
    }

    let missing = ProjectStoreHandle::generate();
    let mut store = ServiceStore::load(
        vec![RegisteredProject {
            project_handle: missing.clone(),
            public_id: uuid::Uuid::now_v7().to_string(),
            canonical_root: "/missing".to_string(),
            display_path: "/missing".to_string(),
            registered_at: "2026-09-01".to_string(),
            status: ProjectStatus::Missing,
        }],
        Vec::new(),
        Vec::new(),
    )
    .unwrap();
    assert!(store
        .register_run_capability(&key, b"missing-active", &missing, &agent_run(), NOW)
        .unwrap_err()
        .contains("run_capability_project_inactive"));
    store
        .backfill_quarantined_run_capability(&key, b"legacy-token", &missing, &agent_run(), NOW)
        .unwrap();
    assert!(matches!(
        store.resolve_run_capability(&key, b"legacy-token").unwrap(),
        RunCapabilityResolution::Many
    ));
}

#[test]
fn a_path_is_registered_once() {
    let mut store = ServiceStore::new();
    let a = project(&mut store, "/same");
    let b = project(&mut store, "/same");
    assert!(a.same(&b));
    assert_eq!(store.projects().len(), 1);
    let c = project(&mut store, "/other");
    assert!(!a.same(&c));
    let listed: Vec<String> = store
        .list_projects()
        .iter()
        .map(|p| p.canonical_root.clone())
        .collect();
    assert_eq!(listed, vec!["/other".to_string(), "/same".to_string()]);
}

#[test]
fn verbatim_prefixes_are_taken_off() {
    assert_eq!(strip_verbatim("\\\\?\\C:\\x"), "C:\\x");
    assert_eq!(strip_verbatim("\\\\?\\UNC\\srv\\share"), "\\\\srv\\share");
    assert_eq!(strip_verbatim("/plain"), "/plain");
    let (root, warning) = canonical_root_of(Err("gone".to_string()), "/abs");
    assert_eq!(root, "/abs");
    assert!(warning.unwrap().contains("gone"));
}

#[test]
fn keys_are_long_enough_and_tokens_are_not_empty() {
    assert!(RunCapabilityKey::for_test(vec![1; 31]).is_err());
    let key = RunCapabilityKey::from_hex(&"ab".repeat(32)).unwrap();
    assert_eq!(key.to_hex().as_str(), "ab".repeat(32));
    assert!(RunCapabilityKey::from_hex("xyz").is_err());
    assert!(key.token_hmac(b"").is_err());
    let other = RunCapabilityKey::for_test(vec![7; 32]).unwrap();
    assert_ne!(
        key.token_hmac(b"t").unwrap(),
        other.token_hmac(b"t").unwrap()
    );
}

#[test]
fn a_good_token_registers_again_and_a_conflict_has_no_winner() {
    let mut store = ServiceStore::new();
    let p1 = project(&mut store, "/p1");
    let p2 = project(&mut store, "/p2");
    let key = RunCapabilityKey::for_test(vec![0x45; 32]).unwrap();
    let run = agent_run();
    for _ in 0..3 {
        assert!(matches!(
            store
                .register_run_capability(&key, b"token", &p1, &run, NOW)
                .unwrap(),
            RunCapabilityRegistration::Registered(_)
        ));
    }
    for (project, run) in [(&p2, &agent_run()), (&p1, &run), (&p2, &run)] {
        assert!(matches!(
            store
                .register_run_capability(&key, b"token", project, run, NOW)
                .unwrap(),
            RunCapabilityRegistration::Quarantined
        ));
    }
}
