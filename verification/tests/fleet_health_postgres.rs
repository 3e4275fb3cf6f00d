use linklake_server::fleet::{FleetCatalog, FleetPeer, UpsertFleetPeer};
use linklake_server::fleet_dns::{
    FleetDnsError, FleetDnsPeerTarget, FleetDnsRecordType, UpsertFleetDnsFailover,
};
use linklake_server::fleet_health::{
    FleetHealthError, FleetProbeObservation, UpdateFleetHealthConfig,
};
use linklake_server::fleet_health_catalog::FleetHealthCatalog;
use linklake_server::fleet_health_postgres::{
    FleetWriter, PostgresFleetHealthCatalog, SharedFleetError,
};
use linklake_server::ha_coordination::{HaCoordinator, HaError, HaLeases};
use linklake_server::ha_runtime::HaRuntime;

fn coordinator(instance: &str, run: &str) -> HaCoordinator {
    HaCoordinator::open_as(instance, Ok("{}".into()), 300, 120, run.into()).unwrap()
}

fn peers() -> Vec<FleetPeer> {
    let mut fleet = FleetCatalog::new();
    fleet
        .create_as(
            7,
            UpsertFleetPeer {
                name: "Primary".to_owned(),
                url: "https://primary.example.com".to_owned(),
                region: "test".to_owned(),
                weight: 100,
                priority: 10,
                token_env: "LINKLAKE_FLEET_PRIMARY_TOKEN".to_owned(),
                enabled: true,
            },
            false,
            1,
        )
        .unwrap();
    fleet.list()
}

fn catalog() -> PostgresFleetHealthCatalog {
    PostgresFleetHealthCatalog {
        health: FleetHealthCatalog::new(),
    }
}

fn probe(event_id: u128, at: u64) -> FleetProbeObservation {
    FleetProbeObservation {
        event_id,
        observed_unix_seconds: at,
        success: true,
        latency_millis: Some(10),
        error_summary: None,
        active_connections: 1,
        bytes_total: 2,
        clients: 3,
        policies: 4,
    }
}

fn config(success_threshold: u16) -> UpdateFleetHealthConfig {
    UpdateFleetHealthConfig {
        success_threshold,
        failure_threshold: 1,
        cooldown_seconds: 0,
    }
}

fn request() -> UpsertFleetDnsFailover {
    UpsertFleetDnsFailover {
        name: "Public entry".to_owned(),
        hostname: "link.example.com".to_owned(),
        record_type: FleetDnsRecordType::A,
        zone_id: "0123456789abcdef0123456789abcdef".to_owned(),
        record_id: "fedcba9876543210fedcba9876543210".to_owned(),
        token_env: "LINKLAKE_CLOUDFLARE_TOKEN".to_owned(),
        ttl: 60,
        proxied: false,
        enabled: true,
        cooldown_seconds: 20,
        targets: vec![FleetDnsPeerTarget {
            peer_id: 7,
            value: "203.0.113.10".to_owned(),
        }],
    }
}

#[test]
fn the_leader_plans_and_completes_a_change() {
    let node = coordinator("a", "1");
    let mut leases = HaLeases::new();
    let mut runtime = HaRuntime::open();
    runtime.bootstrap(&node, &mut leases, 1000, 1).unwrap();
    let writer = FleetWriter {
        runtime: &runtime,
        coordinator: &node,
        leases: &leases,
        clock: 1001,
    };
    let stored = peers();
    let mut shared = catalog();
    shared.ensure_peer(&writer, &stored, 7, 1).unwrap();
    assert_eq!(
        shared.ensure_peer(&writer, &stored, 8, 1),
        Err(SharedFleetError::Health(FleetHealthError::PeerMissing))
    );
    let snapshot = shared
        .update_health_config(&writer, &stored, 7, config(1), 2)
        .unwrap()
        .unwrap();
    assert_eq!(snapshot.config.success_threshold, 1);
    let result = shared.record_probe(&writer, &stored, 7, &probe(1, 10)).unwrap();
    assert!(result.accepted && !result.duplicate);
    let again = shared.record_probe(&writer, &stored, 7, &probe(1, 10)).unwrap();
    assert!(again.duplicate);
    assert_eq!(again.health.revision, result.health.revision);
    let failover = shared
        .create_dns_failover(&writer, request(), &stored, &stored, true, 11)
        .unwrap();
    assert_eq!((failover.id >> 76) & 0xf, 4);
    assert!(failover.token_configured);
    let frozen = shared
        .set_dns_frozen(&writer, failover.id, true, Some("repair"), 12)
        .unwrap()
        .unwrap();
    assert_eq!(frozen.freeze_reason.as_deref(), Some("repair"));
    assert!(shared.plan_dns_changes(&writer, &stored, 13, None).unwrap().is_empty());
    shared.set_dns_frozen(&writer, failover.id, false, None, 14).unwrap();
    let plans = shared.plan_dns_changes(&writer, &stored, 15, None).unwrap();
    assert_eq!(plans.len(), 1);
    assert_eq!(
        (plans[0].peer_id, plans[0].target.as_str(), plans[0].reason.as_str()),
        (7, "203.0.113.10", "initial_activation")
    );
    assert_eq!(
        shared.delete_dns_failover(&writer, failover.id),
        Err(SharedFleetError::Dns(FleetDnsError::OperationPending))
    );
    assert_eq!(
        shared.update_dns_failover(&writer, failover.id, request(), &stored, &stored, true, 16),
        Err(SharedFleetError::Dns(FleetDnsError::OperationPending))
    );
    let done = shared.complete_dns_change(&writer, &plans[0], Ok(()), 17).unwrap();
    assert!(done.applied && !done.duplicate);
    let mut moved = request();
    moved.ttl = 120;
    let updated = shared
        .update_dns_failover(&writer, failover.id, moved, &stored, &stored, true, 18)
        .unwrap()
        .unwrap();
    assert_eq!((updated.ttl, updated.reconcile_required), (120, true));
    assert_eq!(
        shared.update_dns_failover(&writer, 99, request(), &stored, &stored, true, 18),
        Ok(None)
    );
    shared.remove_peer_references(&writer, 7).unwrap();
    assert!(shared.health.snapshots().is_empty());
    let left = shared.health.get_dns_failover(failover.id).unwrap();
    assert!(left.targets.is_empty());
    assert_eq!(left.current_peer_id, None);
    assert_eq!(shared.delete_dns_failover(&writer, failover.id), Ok(true));
    assert_eq!(shared.delete_dns_failover(&writer, failover.id), Ok(false));
}

#[test]
fn fenced_processes_change_nothing() {
    let first = coordinator("a", "1");
    let second = coordinator("b", "2");
    let mut leases = HaLeases::new();
    let mut deposed = HaRuntime::open();
    deposed.bootstrap(&first, &mut leases, 1000, 1).unwrap();
    let follower = HaRuntime::open();
    let mut leading = HaRuntime::open();
    leading.bootstrap(&second, &mut leases, 1200, 1).unwrap();
    assert!(deposed.is_leader() && leading.is_leader());

    let stored = peers();
    let mut shared = catalog();
    let leader = FleetWriter {
        runtime: &leading,
        coordinator: &second,
        leases: &leases,
        clock: 1201,
    };
    shared.record_probe(&leader, &stored, 7, &probe(1, 10)).unwrap();
    let before = format!("{shared:?}");
    for (runtime, node, clock, error) in [
        (&follower, &first, 1201, SharedFleetError::NotLeader),
        (&deposed, &first, 1201, SharedFleetError::Fence(HaError::StaleFencingToken)),
        (&leading, &second, 1320, SharedFleetError::Fence(HaError::StaleFencingToken)),
        (&leading, &first, 1201, SharedFleetError::Fence(HaError::StaleFencingToken)),
    ] {
        let writer = FleetWriter {
            runtime,
            coordinator: node,
            leases: &leases,
            clock,
        };
        assert_eq!(writer.fence(), Err(error));
        assert_eq!(shared.ensure_peer(&writer, &stored, 7, 1), Err(error));
        assert_eq!(
            shared.update_health_config(&writer, &stored, 7, config(1), 2).unwrap_err(),
            error
        );
        assert_eq!(
            shared.record_probe(&writer, &stored, 7, &probe(2, 20)).unwrap_err(),
            error
        );
        assert_eq!(
            shared
                .create_dns_failover(&writer, request(), &stored, &stored, true, 11)
                .unwrap_err(),
            error
        );
        assert_eq!(
            shared
                .update_dns_failover(&writer, 1, request(), &stored, &stored, true, 11)
                .unwrap_err(),
            error
        );
        assert_eq!(shared.delete_dns_failover(&writer, 1).unwrap_err(), error);
        assert_eq!(shared.set_dns_frozen(&writer, 1, true, None, 12).unwrap_err(), error);
        assert_eq!(
            shared.plan_dns_changes(&writer, &stored, 13, None).unwrap_err(),
            error
        );
        assert_eq!(shared.remove_peer_references(&writer, 7).unwrap_err(), error);
        assert_eq!(format!("{shared:?}"), before);
    }
    assert_eq!(
        SharedFleetError::NotLeader.message(),
        "this LinkLake instance is not the active HA leader"
    );
    assert_eq!(
        SharedFleetError::Fence(HaError::StaleFencingToken).message(),
        "leadership fencing token is stale; refusing write"
    );
}

#[test]
fn requests_are_checked_before_the_fence_and_targets_behind_it() {
    let node = coordinator("a", "1");
    let leases = HaLeases::new();
    let follower = HaRuntime::open();
    let writer = FleetWriter {
        runtime: &follower,
        coordinator: &node,
        leases: &leases,
        clock: 10,
    };
    let stored = peers();
    let mut shared = catalog();
    assert_eq!(
        shared.update_health_config(&writer, &stored, 7, config(0), 2).unwrap_err(),
        SharedFleetError::Health(FleetHealthError::InvalidSuccessThreshold)
    );
    let mut nameless = request();
    nameless.name = " ".to_owned();
    assert_eq!(
        shared
            .create_dns_failover(&writer, nameless, &stored, &stored, false, 3)
            .unwrap_err(),
        SharedFleetError::Dns(FleetDnsError::InvalidName)
    );
    assert_eq!(
        shared.set_dns_frozen(&writer, 1, true, Some("\u{1}"), 4).unwrap_err(),
        SharedFleetError::Dns(FleetDnsError::FreezeReasonRequired)
    );

    let mut leases = HaLeases::new();
    let mut runtime = HaRuntime::open();
    runtime.bootstrap(&node, &mut leases, 1000, 1).unwrap();
    let leader = FleetWriter {
        runtime: &runtime,
        coordinator: &node,
        leases: &leases,
        clock: 1001,
    };
    let error = shared
        .create_dns_failover(&leader, request(), &stored, &vec![], false, 5)
        .unwrap_err();
    assert_eq!(error, SharedFleetError::Dns(FleetDnsError::UnknownPeer));
    assert_eq!(error.message(), "fleet DNS target peer does not exist");
}

#[test]
fn the_last_revision_is_not_passed() {
    let node = coordinator("a", "1");
    let mut leases = HaLeases::new();
    let mut runtime = HaRuntime::open();
    runtime.bootstrap(&node, &mut leases, 1000, 1).unwrap();
    let writer = FleetWriter {
        runtime: &runtime,
        coordinator: &node,
        leases: &leases,
        clock: 1001,
    };
    let stored = peers();
    let mut shared = catalog();
    shared.record_probe(&writer, &stored, 7, &probe(1, 10)).unwrap();
    shared.health.snapshots[0].health.revision = u64::MAX;
    let error = shared.record_probe(&writer, &stored, 7, &probe(2, 20)).unwrap_err();
    assert_eq!(error, SharedFleetError::RevisionExhausted);
    assert_eq!(error.message(), "fleet health revision exhausted");
    assert_eq!(shared.health.probe_events.len(), 1);
    let stale = shared.record_probe(&writer, &stored, 7, &probe(3, 9)).unwrap();
    assert!(!stale.accepted);
    let known = shared.record_probe(&writer, &stored, 7, &probe(1, 10)).unwrap();
    assert!(known.duplicate);
}
