use linklake_server::cloudflare::{dns_update, CloudflareError, CloudflareResponse};
use linklake_server::fleet::{FleetCatalog, FleetPeer, UpsertFleetPeer};
use linklake_server::fleet_dns::{
    valid_dns_name, valid_provider_id, valid_secret_env, validate_dns_failover,
    validate_dns_target, FleetDnsChangePlan, FleetDnsChangeResult, FleetDnsError, FleetDnsFailover,
    FleetDnsPeerTarget, FleetDnsRecordType, FleetDnsSwitchEvent, UpsertFleetDnsFailover,
};
use linklake_server::fleet_health::{
    next_health_state, summarize_error, validate_health_config, FleetHealthError,
    FleetHealthSnapshot, FleetHealthState, FleetProbeObservation, FleetProbeResult,
    UpdateFleetHealthConfig,
};
use linklake_server::fleet_health_catalog::{FleetHealthCatalog, FleetHealthMetrics};
use linklake_server::stored_rows::{FleetDnsFailoverRow, FleetHealthRow, FleetPeerRow, RowError};
use std::sync::atomic::{AtomicU64, Ordering};

static NEXT_ID: AtomicU64 = AtomicU64::new(1);

fn next_id() -> u128 {
    u128::from(NEXT_ID.fetch_add(1, Ordering::Relaxed))
}

fn create_peer(fleet: &mut FleetCatalog, name: &str, priority: u16, now: u64) -> FleetPeer {
    fleet
        .create(
            UpsertFleetPeer {
                name: name.to_owned(),
                url: format!("https://{}.example.com", name.to_ascii_lowercase()),
                region: "test".to_owned(),
                weight: 100,
                priority,
                token_env: format!("LINKLAKE_FLEET_{}_TOKEN", name.to_ascii_uppercase()),
                enabled: true,
            },
            false,
            now,
        )
        .unwrap()
}

fn observation(peer: u128, at: u64, success: bool) -> FleetProbeObservation {
    FleetProbeObservation {
        event_id: next_id(),
        observed_unix_seconds: at,
        success,
        latency_millis: Some(10),
        error_summary: if success {
            None
        } else {
            Some(format!("peer {peer} failed\nwithout secrets"))
        },
        active_connections: u64::from(success),
        bytes_total: if success { 100 } else { 0 },
        clients: u64::from(success),
        policies: u64::from(success),
    }
}

/// A directory of peers together with their health.
struct Fleet {
    peers: FleetCatalog,
    health: FleetHealthCatalog,
}

impl Fleet {
    fn update_health_config(
        &mut self,
        id: u128,
        request: UpdateFleetHealthConfig,
        now: u64,
    ) -> Result<Option<FleetHealthSnapshot>, FleetHealthError> {
        self.health
            .update_health_config(&self.peers.list(), id, request, now)
    }

    fn record_probe(
        &mut self,
        id: u128,
        observation: FleetProbeObservation,
    ) -> Result<FleetProbeResult, FleetHealthError> {
        self.health.record_probe(&self.peers.list(), id, &observation)
    }

    fn create_dns_failover(
        &mut self,
        request: UpsertFleetDnsFailover,
        now: u64,
    ) -> Result<FleetDnsFailover, FleetDnsError> {
        self.health
            .create_dns_failover(request, &self.peers.list(), false, now)
    }

    fn update_dns_failover(
        &mut self,
        id: u128,
        request: UpsertFleetDnsFailover,
        now: u64,
    ) -> Result<Option<FleetDnsFailover>, FleetDnsError> {
        self.health
            .update_dns_failover(id, request, &self.peers.list(), false, now)
    }

    fn delete_dns_failover(&mut self, id: u128) -> Result<bool, FleetDnsError> {
        self.health.delete_dns_failover(id)
    }

    fn plan_dns_changes(
        &mut self,
        now: u64,
        only: Option<u128>,
    ) -> Result<Vec<FleetDnsChangePlan>, FleetDnsError> {
        Ok(self.health.plan_dns_changes(&self.peers.list(), now, only))
    }

    fn complete_dns_change(
        &mut self,
        plan: &FleetDnsChangePlan,
        result: Result<(), &str>,
        now: u64,
    ) -> Result<FleetDnsChangeResult, FleetDnsError> {
        self.health.complete_dns_change(plan, result, now)
    }

    fn set_dns_frozen(
        &mut self,
        id: u128,
        frozen: bool,
        reason: Option<&str>,
        now: u64,
    ) -> Result<Option<FleetDnsFailover>, FleetDnsError> {
        self.health.set_dns_frozen(id, frozen, reason, now)
    }

    fn list_dns_switch_events(
        &self,
        id: u128,
        limit: usize,
    ) -> Result<Vec<FleetDnsSwitchEvent>, FleetDnsError> {
        Ok(self.health.list_dns_switch_events(id, limit))
    }

    fn snapshot(&self, id: u128) -> Result<Option<FleetHealthSnapshot>, FleetHealthError> {
        Ok(self.health.snapshot(id))
    }

    fn get_dns_failover(&self, id: u128) -> Result<Option<FleetDnsFailover>, FleetDnsError> {
        Ok(self.health.get_dns_failover(id))
    }

    fn metrics(&self) -> Result<FleetHealthMetrics, FleetHealthError> {
        Ok(self.health.metrics(&self.peers.list()))
    }

    fn delete_peer(&mut self, id: u128) -> bool {
        let deleted = self.peers.delete(id);
        self.health.remove_peer(id);
        deleted
    }

    /// The same state after it was written to rows and read back.
    fn reopened(self) -> Self {
        let mut peers = FleetCatalog::new();
        peers.peers = self
            .peers
            .list()
            .iter()
            .map(|peer| FleetPeerRow::write(peer).read(peer.token_configured).unwrap())
            .collect();
        let mut health = FleetHealthCatalog::new();
        health.snapshots = self
            .health
            .snapshots()
            .values()
            .map(|snapshot| FleetHealthRow::write(snapshot).read().unwrap())
            .collect();
        health.failovers = self
            .health
            .list_dns_failovers()
            .iter()
            .map(|failover| {
                let mut read = FleetDnsFailoverRow::write(failover)
                    .read(failover.token_configured)
                    .unwrap();
                read.targets = failover.targets.clone();
                read
            })
            .collect();
        health.probe_events = self.health.probe_events;
        health.switch_events = self.health.switch_events;
        health.counters = self.health.counters;
        Fleet { peers, health }
    }
}

fn setup() -> (Fleet, FleetPeer, FleetPeer) {
    let mut peers = FleetCatalog::new();
    let primary = create_peer(&mut peers, "Primary", 10, 1);
    let secondary = create_peer(&mut peers, "Secondary", 20, 1);
    let fleet = Fleet { peers, health: FleetHealthCatalog::new() };
    (fleet, primary, secondary)
}

#[test]
fn health_state_uses_success_and_failure_hysteresis() {
    let (mut catalog, primary, _) = setup();
    catalog
        .update_health_config(
            primary.id,
            UpdateFleetHealthConfig {
                success_threshold: 2,
                failure_threshold: 3,
                cooldown_seconds: 10,
            },
            1,
        )
        .unwrap();
    assert_eq!(
        catalog
            .record_probe(primary.id, observation(primary.id, 2, true))
            .unwrap()
            .health
            .state,
        FleetHealthState::Unknown
    );
    let healthy = catalog
        .record_probe(primary.id, observation(primary.id, 3, true))
        .unwrap();
    assert_eq!(healthy.health.state, FleetHealthState::Healthy);
    assert_eq!(healthy.health.cooldown_until_unix_seconds, 13);
    assert_eq!(
        catalog
            .record_probe(primary.id, observation(primary.id, 4, false))
            .unwrap()
            .health
            .state,
        FleetHealthState::Degraded
    );
    assert_eq!(
        catalog
            .record_probe(primary.id, observation(primary.id, 5, true))
            .unwrap()
            .health
            .state,
        FleetHealthState::Degraded
    );
    assert_eq!(
        catalog
            .record_probe(primary.id, observation(primary.id, 6, true))
            .unwrap()
            .health
            .state,
        FleetHealthState::Healthy
    );
    for at in [7, 8] {
        assert_eq!(
            catalog
                .record_probe(primary.id, observation(primary.id, at, false))
                .unwrap()
                .health
                .state,
            FleetHealthState::Degraded
        );
    }
    let unhealthy = catalog
        .record_probe(primary.id, observation(primary.id, 9, false))
        .unwrap();
    assert_eq!(unhealthy.health.state, FleetHealthState::Unhealthy);
    assert_eq!(unhealthy.health.last_failure_unix_seconds, Some(9));
    assert!(unhealthy
        .health
        .last_error_summary
        .as_deref()
        .is_some_and(|value| !value.contains('\n')));
    assert_eq!(
        catalog
            .record_probe(primary.id, observation(primary.id, 10, true))
            .unwrap()
            .health
            .state,
        FleetHealthState::Recovering
    );
    assert_eq!(
        catalog
            .record_probe(primary.id, observation(primary.id, 11, false))
            .unwrap()
            .health
            .state,
        FleetHealthState::Unhealthy
    );
    assert_eq!(
        catalog
            .record_probe(primary.id, observation(primary.id, 12, true))
            .unwrap()
            .health
            .state,
        FleetHealthState::Recovering
    );
    assert_eq!(
        catalog
            .record_probe(primary.id, observation(primary.id, 13, true))
            .unwrap()
            .health
            .state,
        FleetHealthState::Healthy
    );
}

#[test]
fn health_config_change_recalculates_the_persisted_cooldown() {
    let (mut catalog, primary, _) = setup();
    catalog
        .update_health_config(
            primary.id,
            UpdateFleetHealthConfig {
                success_threshold: 1,
                failure_threshold: 1,
                cooldown_seconds: 5,
            },
            1,
        )
        .unwrap();
    let healthy = catalog
        .record_probe(primary.id, observation(primary.id, 10, true))
        .unwrap();
    assert_eq!(healthy.health.cooldown_until_unix_seconds, 15);
    let changed = catalog
        .update_health_config(
            primary.id,
            UpdateFleetHealthConfig {
                success_threshold: 1,
                failure_threshold: 1,
                cooldown_seconds: 30,
            },
            12,
        )
        .unwrap()
        .unwrap();
    assert_eq!(changed.health.state_changed_unix_seconds, 10);
    assert_eq!(changed.health.cooldown_until_unix_seconds, 40);
    assert!(!changed.health.dns_eligible(true, 39));
    assert!(changed.health.dns_eligible(true, 40));
}

#[test]
fn duplicate_and_stale_probe_events_are_idempotent() {
    let (mut catalog, primary, _) = setup();
    let mut first = observation(primary.id, 10, true);
    first.event_id = next_id();
    let event_id = first.event_id;
    let accepted = catalog.record_probe(primary.id, first.clone()).unwrap();
    assert!(accepted.accepted);
    let duplicate = catalog.record_probe(primary.id, first).unwrap();
    assert!(duplicate.duplicate);
    assert_eq!(duplicate.health.revision, accepted.health.revision);
    let mut conflicting = observation(primary.id, 10, false);
    conflicting.event_id = event_id;
    let error = catalog
        .record_probe(primary.id, conflicting)
        .expect_err("conflicting idempotency key must fail closed");
    assert!(error.message().contains("event ID conflicts"));
    let stale = catalog
        .record_probe(primary.id, observation(primary.id, 9, false))
        .unwrap();
    assert!(!stale.accepted);
    assert_eq!(stale.health.revision, accepted.health.revision);
    let metrics = catalog.metrics().unwrap();
    assert_eq!(metrics.probe_events_total, 2);
    assert_eq!(metrics.probe_failures_total, 0);
}

fn dns_request(primary: u128, secondary: u128) -> UpsertFleetDnsFailover {
    UpsertFleetDnsFailover {
        name: "Public entry".to_owned(),
        hostname: "link.example.com".to_owned(),
        record_type: FleetDnsRecordType::A,
        zone_id: "0123456789abcdef0123456789abcdef".to_owned(),
        record_id: "fedcba9876543210fedcba9876543210".to_owned(),
        token_env: "LINKLAKE_CLOUDFLARE_TOKEN".to_owned(),
        ttl: 60,
        proxied: false,
        enabled: true,
        cooldown_seconds: 20,
        targets: vec![
            FleetDnsPeerTarget {
                peer_id: primary,
                value: "203.0.113.10".to_owned(),
            },
            FleetDnsPeerTarget {
                peer_id: secondary,
                value: "203.0.113.20".to_owned(),
            },
        ],
    }
}

#[test]
fn dns_failover_respects_health_and_cooldown_and_survives_reopen() {
    let (mut catalog, primary, secondary) = setup();
    for peer in [&primary, &secondary] {
        catalog
            .update_health_config(
                peer.id,
                UpdateFleetHealthConfig {
                    success_threshold: 1,
                    failure_threshold: 1,
                    cooldown_seconds: 5,
                },
                1,
            )
            .unwrap();
        catalog
            .record_probe(peer.id, observation(peer.id, 2, true))
            .unwrap();
    }
    let failover = catalog
        .create_dns_failover(
            dns_request(primary.id, secondary.id),
            2,
        )
        .unwrap();
    assert!(catalog.plan_dns_changes(6, None).unwrap().is_empty());
    let plan = catalog.plan_dns_changes(7, None).unwrap().remove(0);
    assert_eq!(plan.peer_id, primary.id);
    catalog.complete_dns_change(&plan, Ok(()), 7).unwrap();
    let mut reopened = catalog.reopened();
    let health = reopened.snapshot(primary.id).unwrap().unwrap().health;
    assert_eq!(health.state, FleetHealthState::Healthy);
    assert_eq!(health.last_success_unix_seconds, Some(2));
    let persisted = reopened.get_dns_failover(failover.id).unwrap().unwrap();
    assert_eq!(persisted.current_peer_id, Some(primary.id));
    assert_eq!(
        persisted.last_switch_reason.as_deref(),
        Some("initial_activation")
    );
    assert!(reopened.plan_dns_changes(26, None).unwrap().is_empty());
}

#[test]
fn dns_configuration_change_reconciles_the_same_target_once() {
    let (mut catalog, primary, secondary) = setup();
    for peer in [&primary, &secondary] {
        catalog
            .update_health_config(
                peer.id,
                UpdateFleetHealthConfig {
                    success_threshold: 1,
                    failure_threshold: 1,
                    cooldown_seconds: 0,
                },
                1,
            )
            .unwrap();
        catalog
            .record_probe(peer.id, observation(peer.id, 2, true))
            .unwrap();
    }
    let failover = catalog
        .create_dns_failover(
            dns_request(primary.id, secondary.id),
            2,
        )
        .unwrap();
    let initial = catalog.plan_dns_changes(2, None).unwrap().remove(0);
    catalog.complete_dns_change(&initial, Ok(()), 2).unwrap();
    assert!(
        !catalog
            .get_dns_failover(failover.id)
            .unwrap()
            .unwrap()
            .reconcile_required
    );

    let mut updated = dns_request(primary.id, secondary.id);
    updated.ttl = 120;
    updated.proxied = true;
    let updated = catalog
        .update_dns_failover(failover.id, updated, 23)
        .unwrap()
        .unwrap();
    assert!(updated.reconcile_required);
    let reconcile = catalog.plan_dns_changes(23, None).unwrap().remove(0);
    assert_eq!(reconcile.peer_id, primary.id);
    assert_eq!(reconcile.target, "203.0.113.10");
    assert_eq!(reconcile.ttl, 120);
    assert!(reconcile.proxied);
    assert_eq!(reconcile.reason, "configuration_updated");
    catalog.complete_dns_change(&reconcile, Ok(()), 23).unwrap();

    let applied = catalog.get_dns_failover(failover.id).unwrap().unwrap();
    assert!(!applied.reconcile_required);
    assert_eq!(applied.ttl, 120);
    assert!(applied.proxied);
    assert!(catalog.plan_dns_changes(43, None).unwrap().is_empty());
}

#[test]
fn deleted_pending_peer_is_cleared_and_replaced_by_a_healthy_peer() {
    let (mut catalog, primary, secondary) = setup();
    for peer in [&primary, &secondary] {
        catalog
            .update_health_config(
                peer.id,
                UpdateFleetHealthConfig {
                    success_threshold: 1,
                    failure_threshold: 1,
                    cooldown_seconds: 0,
                },
                1,
            )
            .unwrap();
        catalog
            .record_probe(peer.id, observation(peer.id, 2, true))
            .unwrap();
    }
    let failover = catalog
        .create_dns_failover(
            dns_request(primary.id, secondary.id),
            2,
        )
        .unwrap();
    let abandoned = catalog.plan_dns_changes(2, None).unwrap().remove(0);
    assert_eq!(abandoned.peer_id, primary.id);
    assert!(catalog.delete_peer(primary.id));

    let replacement = catalog.plan_dns_changes(3, None).unwrap().remove(0);
    assert_ne!(replacement.operation_id, abandoned.operation_id);
    assert_eq!(replacement.peer_id, secondary.id);
    assert_eq!(replacement.target, "203.0.113.20");
    assert_eq!(replacement.reason, "initial_activation");
    let pending = catalog.get_dns_failover(failover.id).unwrap().unwrap();
    assert_eq!(pending.pending_operation_id, Some(replacement.operation_id));
    assert_eq!(pending.pending_peer_id, Some(secondary.id));
    assert_eq!(catalog.metrics().unwrap().dns_switch_failures_total, 1);
}

#[test]
fn pending_dns_operation_uses_a_lease_and_completion_is_idempotent() {
    let (mut catalog, primary, secondary) = setup();
    catalog
        .update_health_config(
            primary.id,
            UpdateFleetHealthConfig {
                success_threshold: 1,
                failure_threshold: 1,
                cooldown_seconds: 0,
            },
            1,
        )
        .unwrap();
    catalog
        .record_probe(primary.id, observation(primary.id, 2, true))
        .unwrap();
    catalog
        .create_dns_failover(
            dns_request(primary.id, secondary.id),
            2,
        )
        .unwrap();
    let first = catalog.plan_dns_changes(2, None).unwrap().remove(0);
    assert!(catalog
        .delete_dns_failover(first.failover_id)
        .unwrap_err()
        .message()
        .contains("operation is pending"));
    assert!(catalog.plan_dns_changes(31, None).unwrap().is_empty());
    let mut reopened = catalog.reopened();
    let retried = reopened.plan_dns_changes(32, None).unwrap().remove(0);
    assert_eq!(retried.operation_id, first.operation_id);
    assert_eq!(retried.peer_id, first.peer_id);
    let mut tampered = retried.clone();
    tampered.target = "203.0.113.99".to_owned();
    assert!(reopened
        .complete_dns_change(&tampered, Ok(()), 32)
        .unwrap_err()
        .message()
        .contains("operation is stale"));
    let applied = reopened.complete_dns_change(&retried, Ok(()), 32).unwrap();
    assert!(applied.applied);
    assert!(!applied.duplicate);
    let repeated = reopened.complete_dns_change(&retried, Ok(()), 33).unwrap();
    assert!(repeated.applied);
    assert!(repeated.duplicate);
    assert!(reopened
        .complete_dns_change(&tampered, Ok(()), 34)
        .unwrap_err()
        .message()
        .contains("operation is stale"));
    assert_eq!(reopened.metrics().unwrap().dns_switches_total, 1);
}

#[test]
fn expired_pending_dns_operation_revalidates_health_before_retry() {
    let (mut catalog, primary, secondary) = setup();
    for peer in [&primary, &secondary] {
        catalog
            .update_health_config(
                peer.id,
                UpdateFleetHealthConfig {
                    success_threshold: 1,
                    failure_threshold: 1,
                    cooldown_seconds: 0,
                },
                1,
            )
            .unwrap();
        catalog
            .record_probe(peer.id, observation(peer.id, 2, true))
            .unwrap();
    }
    catalog
        .create_dns_failover(
            dns_request(primary.id, secondary.id),
            2,
        )
        .unwrap();
    let stale_plan = catalog.plan_dns_changes(2, None).unwrap().remove(0);
    assert_eq!(stale_plan.peer_id, primary.id);
    catalog
        .record_probe(primary.id, observation(primary.id, 3, false))
        .unwrap();
    let replacement = catalog.plan_dns_changes(32, None).unwrap().remove(0);
    assert_ne!(replacement.operation_id, stale_plan.operation_id);
    assert_eq!(replacement.peer_id, secondary.id);
    let metrics = catalog.metrics().unwrap();
    assert_eq!(metrics.dns_switch_failures_total, 1);
    assert_eq!(metrics.dns_operations_pending, 1);
}

#[test]
fn dns_failure_rolls_back_and_freeze_blocks_new_changes() {
    let (mut catalog, primary, secondary) = setup();
    for peer in [&primary, &secondary] {
        catalog
            .update_health_config(
                peer.id,
                UpdateFleetHealthConfig {
                    success_threshold: 1,
                    failure_threshold: 1,
                    cooldown_seconds: 0,
                },
                1,
            )
            .unwrap();
        catalog
            .record_probe(peer.id, observation(peer.id, 2, true))
            .unwrap();
    }
    let failover = catalog
        .create_dns_failover(
            dns_request(primary.id, secondary.id),
            2,
        )
        .unwrap();
    let first = catalog.plan_dns_changes(2, None).unwrap().remove(0);
    catalog.complete_dns_change(&first, Ok(()), 2).unwrap();
    catalog
        .record_probe(primary.id, observation(primary.id, 23, false))
        .unwrap();
    let second = catalog.plan_dns_changes(23, None).unwrap().remove(0);
    assert_eq!(second.peer_id, secondary.id);
    let failed = catalog
        .complete_dns_change(&second, Err("provider rejected update\nsecret omitted"), 23)
        .unwrap();
    assert!(!failed.applied);
    let after_failure = catalog.get_dns_failover(failover.id).unwrap().unwrap();
    assert_eq!(after_failure.current_peer_id, Some(primary.id));
    assert_eq!(
        after_failure.current_target.as_deref(),
        Some("203.0.113.10")
    );
    assert!(after_failure
        .last_error_summary
        .as_deref()
        .is_some_and(|value| !value.contains('\n')));
    let events = catalog.list_dns_switch_events(failover.id, 100).unwrap();
    assert_eq!(events.len(), 2);
    assert!(!events[0].applied);
    assert_eq!(events[0].reason, "current_peer_unhealthy");
    assert!(events[1].applied);
    assert!(catalog.plan_dns_changes(42, None).unwrap().is_empty());
    catalog
        .set_dns_frozen(failover.id, true, Some("maintenance"), 43)
        .unwrap();
    assert!(catalog.plan_dns_changes(43, None).unwrap().is_empty());
    catalog
        .set_dns_frozen(failover.id, false, None, 44)
        .unwrap();
    let retry = catalog.plan_dns_changes(44, None).unwrap().remove(0);
    assert_eq!(retry.peer_id, secondary.id);
}

#[test]
fn degraded_current_peer_is_held_until_the_failure_threshold() {
    let (mut catalog, primary, secondary) = setup();
    catalog
        .update_health_config(
            primary.id,
            UpdateFleetHealthConfig {
                success_threshold: 1,
                failure_threshold: 3,
                cooldown_seconds: 0,
            },
            1,
        )
        .unwrap();
    catalog
        .update_health_config(
            secondary.id,
            UpdateFleetHealthConfig {
                success_threshold: 1,
                failure_threshold: 1,
                cooldown_seconds: 0,
            },
            1,
        )
        .unwrap();
    for peer in [&primary, &secondary] {
        catalog
            .record_probe(peer.id, observation(peer.id, 2, true))
            .unwrap();
    }
    catalog
        .create_dns_failover(
            dns_request(primary.id, secondary.id),
            2,
        )
        .unwrap();
    let initial = catalog.plan_dns_changes(2, None).unwrap().remove(0);
    catalog.complete_dns_change(&initial, Ok(()), 2).unwrap();

    let first_failure = catalog
        .record_probe(primary.id, observation(primary.id, 23, false))
        .unwrap();
    assert_eq!(first_failure.health.state, FleetHealthState::Degraded);
    assert!(catalog.plan_dns_changes(23, None).unwrap().is_empty());
    let second_failure = catalog
        .record_probe(primary.id, observation(primary.id, 24, false))
        .unwrap();
    assert_eq!(second_failure.health.state, FleetHealthState::Degraded);
    assert!(catalog.plan_dns_changes(24, None).unwrap().is_empty());
    let threshold_failure = catalog
        .record_probe(primary.id, observation(primary.id, 25, false))
        .unwrap();
    assert_eq!(threshold_failure.health.state, FleetHealthState::Unhealthy);
    let failover = catalog.plan_dns_changes(25, None).unwrap().remove(0);
    assert_eq!(failover.peer_id, secondary.id);
    assert_eq!(failover.reason, "current_peer_unhealthy");
}

#[test]
fn unrelated_peer_failure_does_not_disturb_the_current_dns_target() {
    let (mut catalog, primary, secondary) = setup();
    for peer in [&primary, &secondary] {
        catalog
            .update_health_config(
                peer.id,
                UpdateFleetHealthConfig {
                    success_threshold: 1,
                    failure_threshold: 1,
                    cooldown_seconds: 0,
                },
                1,
            )
            .unwrap();
        catalog
            .record_probe(peer.id, observation(peer.id, 2, true))
            .unwrap();
    }
    let failover = catalog
        .create_dns_failover(
            dns_request(primary.id, secondary.id),
            2,
        )
        .unwrap();
    let initial = catalog.plan_dns_changes(2, None).unwrap().remove(0);
    catalog.complete_dns_change(&initial, Ok(()), 2).unwrap();
    let primary_revision = catalog
        .snapshot(primary.id)
        .unwrap()
        .unwrap()
        .health
        .revision;

    let unrelated = catalog
        .record_probe(secondary.id, observation(secondary.id, 23, false))
        .unwrap();
    assert_eq!(unrelated.health.state, FleetHealthState::Unhealthy);
    assert!(catalog.plan_dns_changes(23, None).unwrap().is_empty());
    assert_eq!(
        catalog
            .get_dns_failover(failover.id)
            .unwrap()
            .unwrap()
            .current_peer_id,
        Some(primary.id)
    );
    assert_eq!(
        catalog
            .snapshot(primary.id)
            .unwrap()
            .unwrap()
            .health
            .revision,
        primary_revision
    );
}

#[test]
fn recovered_preferred_peer_waits_for_health_cooldown_before_failback() {
    let (mut catalog, primary, secondary) = setup();
    for peer in [&primary, &secondary] {
        catalog
            .update_health_config(
                peer.id,
                UpdateFleetHealthConfig {
                    success_threshold: 1,
                    failure_threshold: 1,
                    cooldown_seconds: 0,
                },
                1,
            )
            .unwrap();
        catalog
            .record_probe(peer.id, observation(peer.id, 2, true))
            .unwrap();
    }
    catalog
        .create_dns_failover(
            dns_request(primary.id, secondary.id),
            2,
        )
        .unwrap();
    let initial = catalog.plan_dns_changes(2, None).unwrap().remove(0);
    catalog.complete_dns_change(&initial, Ok(()), 2).unwrap();
    catalog
        .update_health_config(
            primary.id,
            UpdateFleetHealthConfig {
                success_threshold: 1,
                failure_threshold: 1,
                cooldown_seconds: 5,
            },
            3,
        )
        .unwrap();
    catalog
        .record_probe(primary.id, observation(primary.id, 23, false))
        .unwrap();
    let failover = catalog.plan_dns_changes(23, None).unwrap().remove(0);
    assert_eq!(failover.peer_id, secondary.id);
    catalog.complete_dns_change(&failover, Ok(()), 23).unwrap();

    let recovered = catalog
        .record_probe(primary.id, observation(primary.id, 44, true))
        .unwrap();
    assert_eq!(recovered.health.state, FleetHealthState::Healthy);
    assert_eq!(recovered.health.cooldown_until_unix_seconds, 49);
    assert!(catalog.plan_dns_changes(48, None).unwrap().is_empty());
    let failback = catalog.plan_dns_changes(49, None).unwrap().remove(0);
    assert_eq!(failback.peer_id, primary.id);
    assert_eq!(failback.reason, "preferred_peer_recovered");
}

#[test]
fn cloudflare_token_environment_is_provider_scoped() {
    assert!(valid_secret_env("LINKLAKE_CLOUDFLARE_TOKEN"));
    assert!(valid_secret_env(
        "LINKLAKE_CLOUDFLARE_FLEET_HEALTH_E2E_TOKEN"
    ));
    assert!(!valid_secret_env("LINKLAKE_MANAGEMENT_TOKEN"));
    assert!(!valid_secret_env("LINKLAKE_ENROLLMENT_TOKEN"));
}

#[test]
fn a_repeated_event_is_applied_once() {
    let (mut catalog, primary, _) = setup();
    let event = observation(primary.id, 10, true);
    let results = vec![
        catalog.record_probe(primary.id, event.clone()).unwrap(),
        catalog.record_probe(primary.id, event).unwrap(),
    ];
    assert_eq!(results.iter().filter(|result| result.accepted).count(), 1);
    assert_eq!(results.iter().filter(|result| result.duplicate).count(), 1);
    assert_eq!(catalog.snapshot(primary.id).unwrap().unwrap().health.revision, 1);
}

#[test]
fn token_value_is_never_persisted() {
    let (mut catalog, primary, secondary) = setup();
    let secret = format!("secret-{}", next_id());
    let peers = catalog.peers.list();
    let failover = catalog
        .health
        .create_dns_failover(dns_request(primary.id, secondary.id), &peers, true, 2)
        .unwrap();
    assert!(failover.token_configured);
    let row = FleetDnsFailoverRow::write(&failover);
    assert!(!format!("{row:?}").contains(&secret));
    assert_eq!(row.token_env, "LINKLAKE_CLOUDFLARE_TOKEN");
}

#[test]
fn health_thresholds_are_exact() {
    assert_eq!(
        next_health_state(FleetHealthState::Healthy, 0, 2, false, 2, 3),
        (FleetHealthState::Unhealthy, 0, 3, "failure_threshold_met")
    );
    assert_eq!(
        next_health_state(FleetHealthState::Healthy, 5, 1, false, 2, 3).0,
        FleetHealthState::Degraded
    );
    let valid = UpdateFleetHealthConfig {
        success_threshold: 1,
        failure_threshold: 1,
        cooldown_seconds: 86_400,
    };
    assert_eq!(validate_health_config(&valid), Ok(()));
    assert_eq!(
        validate_health_config(&UpdateFleetHealthConfig { success_threshold: 0, ..valid }),
        Err(FleetHealthError::InvalidSuccessThreshold)
    );
    assert_eq!(
        validate_health_config(&UpdateFleetHealthConfig { failure_threshold: 21, ..valid }),
        Err(FleetHealthError::InvalidFailureThreshold)
    );
    assert_eq!(
        validate_health_config(&UpdateFleetHealthConfig { cooldown_seconds: 86_401, ..valid }),
        Err(FleetHealthError::InvalidCooldown)
    );
    let (mut catalog, _, _) = setup();
    assert_eq!(
        catalog.record_probe(u128::MAX, observation(0, 1, true)),
        Err(FleetHealthError::PeerMissing)
    );
}

#[test]
fn summaries_are_short_and_without_control_characters() {
    assert_eq!(summarize_error("one\r\n\ttwo"), "one two");
    assert_eq!(summarize_error("  padded  "), "padded");
    assert_eq!(summarize_error(&"x".repeat(1000)).chars().count(), 320);
}

#[test]
fn states_and_record_types_read_back() {
    for state in [
        FleetHealthState::Unknown,
        FleetHealthState::Healthy,
        FleetHealthState::Degraded,
        FleetHealthState::Unhealthy,
        FleetHealthState::Recovering,
    ] {
        assert_eq!(FleetHealthState::parse(state.as_str()), Some(state));
    }
    assert_eq!(FleetHealthState::parse("Healthy"), None);
    for record_type in [FleetDnsRecordType::A, FleetDnsRecordType::Aaaa, FleetDnsRecordType::Cname] {
        assert_eq!(FleetDnsRecordType::parse(record_type.as_str()), Some(record_type));
    }
    assert_eq!(FleetDnsRecordType::parse("TXT"), None);
}

#[test]
fn dns_failovers_are_validated() {
    let (catalog, primary, secondary) = setup();
    let peers = catalog.peers.list();
    let with = |change: &dyn Fn(&mut UpsertFleetDnsFailover)| {
        let mut request = dns_request(primary.id, secondary.id);
        change(&mut request);
        validate_dns_failover(request, &peers)
    };
    assert!(with(&|_| ()).is_ok());
    assert_eq!(with(&|r| r.name = "  ".into()), Err(FleetDnsError::InvalidName));
    assert_eq!(with(&|r| r.hostname = "bad host".into()), Err(FleetDnsError::InvalidHostname));
    assert_eq!(with(&|r| r.zone_id = "a/b".into()), Err(FleetDnsError::InvalidZoneId));
    assert_eq!(with(&|r| r.record_id = "".into()), Err(FleetDnsError::InvalidRecordId));
    assert_eq!(with(&|r| r.token_env = "OTHER".into()), Err(FleetDnsError::InvalidTokenEnv));
    assert_eq!(with(&|r| r.ttl = 0), Err(FleetDnsError::InvalidTtl));
    assert_eq!(with(&|r| r.cooldown_seconds = 86_401), Err(FleetDnsError::InvalidCooldown));
    assert_eq!(with(&|r| r.targets.clear()), Err(FleetDnsError::NoTargets));
    assert_eq!(with(&|r| r.targets[0].peer_id = u128::MAX), Err(FleetDnsError::UnknownPeer));
    assert_eq!(with(&|r| r.targets[1].peer_id = primary.id), Err(FleetDnsError::DuplicatePeer));
    assert_eq!(
        with(&|r| r.targets[0].value = "::1".into()),
        Err(FleetDnsError::InvalidATarget)
    );
    assert_eq!(
        validate_dns_target(FleetDnsRecordType::Aaaa, "203.0.113.10"),
        Err(FleetDnsError::InvalidAaaaTarget)
    );
    assert_eq!(validate_dns_target(FleetDnsRecordType::Aaaa, "2001:db8::1"), Ok(()));
    assert_eq!(
        validate_dns_target(FleetDnsRecordType::Cname, "-bad.example.com"),
        Err(FleetDnsError::InvalidCnameTarget)
    );
    assert!(valid_dns_name("link.example.com"));
    assert!(valid_provider_id("0123456789abcdef0123456789abcdef"));
    assert!(!valid_provider_id("zone id"));
}

#[test]
fn failovers_keep_their_names_and_records_apart() {
    let (mut catalog, primary, secondary) = setup();
    let first = catalog
        .create_dns_failover(dns_request(primary.id, secondary.id), 2)
        .unwrap();
    assert_eq!(
        catalog.create_dns_failover(dns_request(primary.id, secondary.id), 3),
        Err(FleetDnsError::NameTaken)
    );
    assert_eq!(
        catalog.set_dns_frozen(first.id, true, Some(" \n "), 3),
        Err(FleetDnsError::FreezeReasonRequired)
    );
    let frozen = catalog.set_dns_frozen(first.id, true, None, 3).unwrap().unwrap();
    assert_eq!(frozen.freeze_reason.as_deref(), Some("manual freeze"));
    assert_eq!(catalog.metrics().unwrap().dns_failovers_frozen, 1);
    assert_eq!(catalog.delete_dns_failover(first.id), Ok(true));
    assert_eq!(catalog.delete_dns_failover(first.id), Ok(false));
}

#[test]
fn planning_depends_on_the_given_identifiers_alone() {
    let (mut catalog, primary, secondary) = setup();
    let peers = catalog.peers.list();
    for peer in [&primary, &secondary] {
        catalog
            .update_health_config(
                peer.id,
                UpdateFleetHealthConfig {
                    success_threshold: 1,
                    failure_threshold: 1,
                    cooldown_seconds: 0,
                },
                1,
            )
            .unwrap();
        catalog.record_probe(peer.id, observation(peer.id, 2, true)).unwrap();
    }
    let failover = catalog
        .health
        .create_dns_failover_as(77, dns_request(primary.id, secondary.id), &peers, false, 2)
        .unwrap();
    assert_eq!(failover.id, 77);
    let plans = catalog.health.plan_dns_changes_as(&peers, 2, Some(77), &vec![4711]);
    assert_eq!(plans.len(), 1);
    assert_eq!(plans[0].operation_id, 4711);
    assert_eq!(plans[0].peer_name, "Primary");
    assert!(catalog.health.plan_dns_changes_as(&peers, 100, Some(78), &vec![1]).is_empty());
}

#[test]
fn rows_reject_what_was_not_written() {
    let (mut catalog, primary, secondary) = setup();
    let peer_row = FleetPeerRow::write(&primary);
    assert_eq!(peer_row.id.len(), 36);
    assert_eq!(peer_row.read(false).unwrap(), primary);
    let mut broken = FleetPeerRow::write(&primary);
    broken.id = "not an identifier".into();
    assert_eq!(
        broken.read(false),
        Err(RowError::Identifier {
            column: 0,
            text: "invalid character: found `n` at 0".into(),
        })
    );
    let failover = catalog
        .create_dns_failover(dns_request(primary.id, secondary.id), 2)
        .unwrap();
    let mut row = FleetDnsFailoverRow::write(&failover);
    row.record_type = "MX".into();
    assert_eq!(row.read(false), Err(RowError::RecordType));
    row.record_type = "A".into();
    row.pending_peer_id = Some("zz".into());
    let error = row.read(false).unwrap_err();
    assert_eq!(error.message(), "invalid character: found `z` at 0");
    assert_eq!((error.column(), error.numeric()), (21, false));
    assert_eq!(RowError::RecordType.message(), "fleet DNS record type is invalid");
}

#[test]
fn cloudflare_is_asked_for_the_planned_record() {
    let (mut catalog, primary, secondary) = setup();
    catalog
        .update_health_config(
            primary.id,
            UpdateFleetHealthConfig {
                success_threshold: 1,
                failure_threshold: 1,
                cooldown_seconds: 0,
            },
            1,
        )
        .unwrap();
    catalog.record_probe(primary.id, observation(primary.id, 2, true)).unwrap();
    catalog
        .create_dns_failover(dns_request(primary.id, secondary.id), 2)
        .unwrap();
    let plan = catalog.plan_dns_changes(2, None).unwrap().remove(0);
    assert_eq!(
        dns_update(&plan, None).unwrap_err(),
        "LINKLAKE_CLOUDFLARE_TOKEN is not configured"
    );
    assert!(dns_update(&plan, Some("  ".into())).is_err());
    let update = dns_update(&plan, Some("secret".into())).unwrap();
    assert_eq!(
        update.endpoint,
        "https://api.cloudflare.com/client/v4/zones/0123456789abcdef0123456789abcdef/dns_records/fedcba9876543210fedcba9876543210"
    );
    assert_eq!(update.record_type, "A");
    assert_eq!(update.name, "link.example.com");
    assert_eq!(update.content, "203.0.113.10");
    assert_eq!(update.ttl, 60);

    let done = CloudflareResponse { success: true, errors: vec![] };
    assert_eq!(done.check(200), Ok(()));
    assert_eq!(
        done.check(500).unwrap_err(),
        "Cloudflare DNS update failed with HTTP 500"
    );
    let refused = CloudflareResponse {
        success: false,
        errors: vec![CloudflareError { code: 9109, message: "Invalid\ntoken".into() }],
    };
    assert_eq!(
        refused.check(403).unwrap_err(),
        "Cloudflare DNS update failed with HTTP 403 (9109: Invalid token)"
    );
}
