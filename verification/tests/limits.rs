//! The limits: their defaults, their ranges, and what they mean.

use mf_kernel::limits::{
    configured_limits, journal_params, lifecycle_params, retention_params, JournalLimitOverrides,
    JournalLimits, LifecycleLimits, RetentionLimits,
};

fn no_overrides() -> JournalLimitOverrides {
    JournalLimitOverrides {
        journal_max_events: None,
        journal_max_bytes: None,
        journal_min_age_secs: None,
        journal_event_max_bytes: None,
        client_event_queue_max_events: None,
        client_event_queue_max_bytes: None,
        events_ws_ping_interval_ms: None,
        events_ws_idle_timeout_ms: None,
        command_rate_per_client: None,
    }
}

#[test]
fn defaults_match_params_table() {
    let defaults = LifecycleLimits::default();
    assert_eq!(defaults.discovery_heartbeat_ms, 5_000);
    assert_eq!(defaults.shutdown_freeze_grace_ms, 5_000);
    assert_eq!(defaults.shutdown_drain_timeout_ms, 120_000);
    assert_eq!(defaults.forced_kill_grace_ms, 10_000);
    assert_eq!(defaults.handoff_reacquire_window_ms, 60_000);
    defaults.validate().unwrap();
}

#[test]
fn stale_after_is_three_heartbeats() {
    let limits = LifecycleLimits::default();
    assert_eq!(limits.discovery_stale_after_ms(), 15_000);
}

#[test]
fn out_of_range_rejected() {
    let limits = LifecycleLimits {
        discovery_heartbeat_ms: lifecycle_params()[0].max + 1,
        ..Default::default()
    };
    let error = limits.validate().unwrap_err();
    assert_eq!(error.name, "discovery_heartbeat_ms");
    assert!(error.message().contains("discovery_heartbeat_ms"));
}

#[test]
fn every_default_is_in_its_range() {
    JournalLimits::default().validate().unwrap();
    RetentionLimits::default().validate().unwrap();
    for p in journal_params() {
        assert!(p.min <= p.default && p.default <= p.max && p.max <= p.hard_cap);
    }
    for p in lifecycle_params() {
        assert!(p.min <= p.default && p.default <= p.max && p.max <= p.hard_cap);
    }
    for p in retention_params() {
        assert!(p.min <= p.default && p.default <= p.max && p.max <= p.hard_cap);
    }
}

#[test]
fn journal_limits_out_of_range_are_named() {
    for p in journal_params() {
        let mut o = no_overrides();
        let bad = p.max + 1;
        match p.name {
            "journal_max_events" => o.journal_max_events = Some(bad as usize),
            "journal_max_bytes" => o.journal_max_bytes = Some(bad as usize),
            "journal_min_age_secs" => o.journal_min_age_secs = Some(bad),
            "journal_event_max_bytes" => o.journal_event_max_bytes = Some(bad as usize),
            "client_event_queue_max_events" => o.client_event_queue_max_events = Some(bad as usize),
            "client_event_queue_max_bytes" => o.client_event_queue_max_bytes = Some(bad as usize),
            "events_ws_ping_interval_ms" => o.events_ws_ping_interval_ms = Some(bad),
            "events_ws_idle_timeout_ms" => o.events_ws_idle_timeout_ms = Some(bad),
            "command_rate_per_client" => o.command_rate_per_client = Some(bad),
            other => panic!("unknown limit {other}"),
        }
        let error = configured_limits(Some(o)).unwrap_err();
        assert_eq!(error.name, p.name);
        assert_eq!(error.value, bad);
    }
}

#[test]
fn overrides_change_only_what_they_name() {
    let mut o = no_overrides();
    o.journal_min_age_secs = Some(journal_params()[2].min);
    let limits = configured_limits(Some(o)).unwrap();
    let defaults = JournalLimits::default();
    assert_eq!(limits.journal_min_age_secs, journal_params()[2].min);
    assert_eq!(limits.journal_max_events, defaults.journal_max_events);
    assert_eq!(limits.command_rate_per_client, defaults.command_rate_per_client);
    assert!(configured_limits(None).is_ok());
    assert!(defaults.command_burst_per_client() >= defaults.command_rate_per_client);
}

#[test]
fn retention_below_its_minimum_is_named() {
    let p = retention_params();
    let limits = RetentionLimits {
        receipt_retention_days: p[0].min - 1,
        ..Default::default()
    };
    assert_eq!(limits.validate().unwrap_err().name, p[0].name);
}
