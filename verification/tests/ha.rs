use linklake_server::ha_coordination::{
    check_metadata, lease_seconds, normalize_metadata_json, validate_instance_id,
    validate_metadata_json, HaCoordinator, HaError, HaLeases, HaMember, EXPIRED_LEASE_BATCH_SIZE,
};
use linklake_server::ha_management::{
    collect, recover_stale_state, HaMode, PublicPortLease, StorageBackend, TargetHealth, RECENT_EVENT_LIMIT,
};
use linklake_server::ha_runtime::{
    shutdown_requested, HaEnvironment, HaRuntime, HaRuntimeConfig, LeadershipTransition,
    MaintenanceAction, MaintenanceEvent, RUNTIME_EVENT_CAPACITY,
};
use linklake_server::job_leases::{is_issuer_active, JobLease};
use linklake_server::stored_rows::{ColumnLabel, HaMemberRow, LeaderRow, RowError};

fn coordinator(instance: &str, run: &str) -> HaCoordinator {
    HaCoordinator::open_as(instance, Ok("{}".into()), 300, 120, run.into()).unwrap()
}

fn expired(index: usize) -> HaMember {
    HaMember {
        instance_id: format!("expired-{index:04}"),
        incarnation_id: format!("run-{index}"),
        started_unix_seconds: 0,
        last_seen_unix_seconds: 0,
        lease_until_unix_seconds: 0,
        metadata_json: "{}".into(),
    }
}

#[test]
fn member_maintenance_is_bounded_and_preserves_renewed_members() {
    let active = coordinator("active", "a");
    let renewed = coordinator("renewed", "r");
    let mut leases = HaLeases::new();
    active.register_or_renew_member(&mut leases, 1000).unwrap();
    let original = renewed.register_or_renew_member(&mut leases, 1000).unwrap();
    for member in leases.members.iter_mut() {
        if member.instance_id == "renewed" {
            member.lease_until_unix_seconds = 0;
        }
    }
    for index in 0..EXPIRED_LEASE_BATCH_SIZE as usize + 3 {
        leases.members.insert(index + 1, expired(index));
    }
    let current = renewed.register_or_renew_member(&mut leases, 1001).unwrap();
    assert_eq!(current.incarnation_id, original.incarnation_id);
    assert_eq!(current.started_unix_seconds, 1000);
    assert_eq!(leases.prune_expired_members(1001), EXPIRED_LEASE_BATCH_SIZE);
    assert_eq!(leases.prune_expired_members(1001), 3);
    assert_eq!(leases.prune_expired_members(1001), 0);
    let members = leases.active_members(1001);
    assert_eq!(members.len(), 2);
    assert!(members.iter().any(|member| member == &current));
    assert_eq!(leases.members.len(), 2);
}

#[test]
fn leadership_is_exclusive_and_fenced() {
    let first = coordinator("a", "1");
    let second = coordinator("b", "2");
    let mut leases = HaLeases::new();
    assert_eq!(
        first.try_acquire_leadership(&mut leases, 10),
        Err(HaError::MemberLeaseRequired)
    );
    first.register_or_renew_member(&mut leases, 10).unwrap();
    second.register_or_renew_member(&mut leases, 10).unwrap();
    let lease = first.try_acquire_leadership(&mut leases, 10).unwrap().unwrap();
    assert_eq!(lease.fencing_token, 1);
    assert_eq!(lease.lease_until_unix_seconds, 130);
    assert_eq!(second.try_acquire_leadership(&mut leases, 20), Ok(None));
    assert_eq!(first.assert_transaction_fence(&leases, 1, 20), Ok(()));
    assert_eq!(
        second.assert_transaction_fence(&leases, 1, 20),
        Err(HaError::StaleFencingToken)
    );
    let renewed = first.renew_leadership(&mut leases, 1, 100).unwrap().unwrap();
    assert_eq!(renewed.acquired_unix_seconds, 10);
    assert_eq!(renewed.lease_until_unix_seconds, 220);
    assert_eq!(first.renew_leadership(&mut leases, 2, 100), Ok(None));
    assert_eq!(leases.current_leader(219), Some(renewed));
    assert_eq!(leases.current_leader(220), None);

    let taken = second.try_acquire_leadership(&mut leases, 220).unwrap().unwrap();
    assert_eq!(taken.fencing_token, 2);
    assert_eq!(first.renew_leadership(&mut leases, 1, 221), Ok(None));
    assert_eq!(
        first.assert_transaction_fence(&leases, 1, 221),
        Err(HaError::StaleFencingToken)
    );
}

#[test]
fn another_run_waits_for_the_lease_to_end() {
    let first = coordinator("a", "1");
    let second = coordinator("a", "2");
    let mut leases = HaLeases::new();
    first.register_or_renew_member(&mut leases, 10).unwrap();
    let error = second.register_or_renew_member(&mut leases, 309).unwrap_err();
    assert_eq!(error.message(), "another incarnation is active for this HA instance ID");
    let member = second.register_or_renew_member(&mut leases, 310).unwrap();
    assert_eq!(member.incarnation_id, "2");
    assert_eq!(member.started_unix_seconds, 310);
    assert_eq!(first.renew_leadership(&mut leases, 1, 311), Ok(None));
    assert_eq!(
        first.register_or_renew_member(&mut leases, i64::MAX as u64),
        Err(HaError::ValueTooLarge)
    );
}

#[test]
fn recovery_ends_leases_and_keeps_the_sequence() {
    let first = coordinator("a", "1");
    let mut leases = HaLeases::new();
    first.register_or_renew_member(&mut leases, 10).unwrap();
    first.try_acquire_leadership(&mut leases, 10).unwrap().unwrap();
    assert!(!leases.recover_stale_leases(false));
    assert!(leases.current_leader(11).is_some());
    assert!(leases.recover_stale_leases(true));
    assert!(leases.current_leader(11).is_none());
    let second = coordinator("a", "2");
    second.register_or_renew_member(&mut leases, 11).unwrap();
    assert_eq!(
        second.try_acquire_leadership(&mut leases, 11).unwrap().unwrap().fencing_token,
        2
    );
}

#[test]
fn configuration_is_checked() {
    let open = |id: &str, member: u64, leader: u64| {
        HaCoordinator::open(id, "{}", member, leader).map(|c| c.instance_id)
    };
    assert_eq!(open(" node ", 30, 15), Ok("node".to_owned()));
    assert_eq!(open("", 30, 15), Err("HA instance ID is required".to_owned()));
    assert_eq!(
        open(&"x".repeat(129), 30, 15),
        Err("HA instance ID exceeds 128 bytes".to_owned())
    );
    assert_eq!(
        open("a", 1, 15),
        Err("member lease must be at least two seconds".to_owned())
    );
    assert_eq!(
        open("a", 300, 121),
        Err("leader lease must not exceed 120 seconds".to_owned())
    );
    assert_eq!(
        open("a", 10, 11),
        Err("leader lease must not exceed member lease".to_owned())
    );
    let run = HaCoordinator::open("a", "{}", 30, 15).unwrap().incarnation_id;
    assert_eq!(run.len(), 36);
    assert_eq!(&run[14..15], "4");
    assert_eq!(
        validate_instance_id("a\u{1}"),
        Err("HA instance ID must not contain control characters")
    );
    assert_eq!(lease_seconds(5, "member", 300), Ok(5));
}

#[test]
fn metadata_is_a_compact_object() {
    assert_eq!(
        normalize_metadata_json("{ \"zone\" : \"a\",\n \"n\": 1 }").unwrap(),
        "{\"n\":1,\"zone\":\"a\"}"
    );
    assert_eq!(validate_metadata_json("{}"), Ok(()));
    assert_eq!(
        validate_metadata_json("[]"),
        Err("HA member metadata must be a JSON object".to_owned())
    );
    assert!(validate_metadata_json("{")
        .unwrap_err()
        .starts_with("HA member metadata must be valid JSON: "));
    assert_eq!(
        validate_metadata_json(&" ".repeat(16385)),
        Err("HA member metadata exceeds 16384 bytes".to_owned())
    );
    assert_eq!(
        check_metadata("x", Err("reason".into())),
        Err("HA member metadata must be valid JSON: reason".to_owned())
    );
}

fn environment() -> HaEnvironment {
    HaEnvironment {
        instance_id: None,
        metadata_json: None,
        member_lease: None,
        leader_lease: None,
        heartbeat: None,
        resource_lease: None,
        job_lease: None,
        target_success_threshold: None,
        target_failure_threshold: None,
        target_stale_after: None,
    }
}

#[test]
fn settings_have_defaults_and_bounds() {
    let config = HaRuntimeConfig::from_environment(&environment(), "default").unwrap();
    assert_eq!(
        config,
        HaRuntimeConfig {
            instance_id: "default".into(),
            metadata_json: "{}".into(),
            member_lease: 30,
            leader_lease: 15,
            heartbeat: 5,
            resource_lease: 15,
            job_lease: 30,
            target_success_threshold: 2,
            target_failure_threshold: 3,
            target_stale_after: 30,
        }
    );
    let with = |change: &dyn Fn(&mut HaEnvironment)| {
        let mut env = environment();
        change(&mut env);
        HaRuntimeConfig::from_environment(&env, "default").map(|c| c.instance_id)
    };
    assert_eq!(with(&|e| e.instance_id = Some(" n ".into())), Ok("n".to_owned()));
    assert_eq!(with(&|e| e.instance_id = Some(" ".into())), Ok("default".to_owned()));
    assert_eq!(
        with(&|e| e.member_lease = Some("x".into())),
        Err("LINKLAKE_HA_MEMBER_LEASE_SECONDS must be an integer".to_owned())
    );
    assert_eq!(
        with(&|e| e.heartbeat = Some("61".into())),
        Err("LINKLAKE_HA_HEARTBEAT_SECONDS must be between 1 and 60 seconds".to_owned())
    );
    assert_eq!(
        with(&|e| e.leader_lease = Some("31".into())),
        Err("HA leader lease must not exceed member lease".to_owned())
    );
    assert_eq!(
        with(&|e| e.heartbeat = Some("15".into())),
        Err("HA heartbeat must be shorter than member, leader, resource, and job leases".to_owned())
    );
    assert_eq!(
        with(&|e| e.target_success_threshold = Some("0".into())),
        Err("LINKLAKE_TARGET_HEALTH_SUCCESS_THRESHOLD must be between 1 and 1000".to_owned())
    );
    assert_eq!(
        with(&|e| e.target_failure_threshold = Some("4294967296".into())),
        Err("LINKLAKE_TARGET_HEALTH_FAILURE_THRESHOLD must be an integer".to_owned())
    );
}

fn runtime_fixture() -> (HaRuntime, HaCoordinator, HaLeases) {
    let node = coordinator("maintenance-runtime", "run");
    let mut leases = HaLeases::new();
    let mut runtime = HaRuntime::open();
    let (member, transition) = runtime.bootstrap(&node, &mut leases, 1000, 1).unwrap();
    assert_eq!(member.instance_id, "maintenance-runtime");
    assert_eq!(transition, LeadershipTransition::Gained);
    assert!(runtime.is_leader());
    (runtime, node, leases)
}

#[test]
fn maintenance_does_not_hold_heartbeats_up() {
    let (mut runtime, node, mut leases) = runtime_fixture();
    assert_eq!(
        runtime.advance_maintenance(MaintenanceEvent::Ticked, false, 2),
        MaintenanceAction::PruneMembers
    );
    for beat in 0..2 {
        assert_eq!(
            runtime.refresh(&node, &mut leases, 1001 + beat, 2),
            Ok(LeadershipTransition::Retained)
        );
    }
    assert!(runtime.is_leader());
    assert!(runtime.clear_leadership());
    assert!(runtime.fencing_token().is_err());
    assert_eq!(
        runtime.advance_maintenance(MaintenanceEvent::MembersPruned { failed: false }, true, 3),
        MaintenanceAction::Stop
    );
}

#[test]
fn maintenance_failure_keeps_heartbeats_and_does_not_clear_leadership() {
    let (mut runtime, node, mut leases) = runtime_fixture();
    leases.members.insert(0, expired(0));
    assert_eq!(
        runtime.advance_maintenance(MaintenanceEvent::Ticked, false, 2),
        MaintenanceAction::PruneMembers
    );
    assert_eq!(leases.prune_expired_members(1001), 1);
    assert_eq!(
        runtime.advance_maintenance(MaintenanceEvent::MembersPruned { failed: false }, false, 2),
        MaintenanceAction::PrunePorts
    );
    assert_eq!(
        runtime.advance_maintenance(MaintenanceEvent::PortsPruned { failed: true }, false, 2),
        MaintenanceAction::Wait
    );
    assert!(runtime
        .recent_events(64)
        .iter()
        .any(|event| event.code == "lease_maintenance_failed"));
    runtime.refresh(&node, &mut leases, 1002, 3).unwrap();
    assert!(runtime.is_leader());
    assert!(!runtime
        .recent_events(64)
        .iter()
        .any(|event| event.code == "heartbeat_failed" || event.code == "heartbeat_timeout"));
    assert_eq!(leases.members.len(), 1);
    runtime.clear_leadership();
    assert!(!runtime.is_leader());
}

#[test]
fn already_requested_shutdown_starts_no_maintenance() {
    let (mut runtime, _, _) = runtime_fixture();
    assert!(shutdown_requested(true, false));
    assert!(shutdown_requested(false, true));
    assert_eq!(
        runtime.advance_maintenance(MaintenanceEvent::Stopped, true, 2),
        MaintenanceAction::Stop
    );
    runtime.clear_leadership();
    assert!(!runtime.is_leader());
}

#[test]
fn failed_heartbeats_give_leadership_up() {
    let (mut runtime, node, mut leases) = runtime_fixture();
    assert_eq!(runtime.fencing_token(), Ok(1));
    assert!(runtime.heartbeat_failed(5));
    assert_eq!(
        runtime.fencing_token(),
        Err("this LinkLake instance is not the active HA leader")
    );
    assert!(!runtime.heartbeat_timed_out(6));
    assert_eq!(runtime.recent_events(1)[0].code, "heartbeat_timeout");
    assert_eq!(
        runtime.refresh(&node, &mut leases, 1003, 7),
        Ok(LeadershipTransition::Gained)
    );
    assert_eq!(runtime.fencing_token(), Ok(1));
    assert_eq!(
        runtime.refresh(&node, &mut leases, 2000, 8),
        Ok(LeadershipTransition::Lost)
    );
    let lost = &runtime.recent_events(1)[0];
    assert_eq!(lost.code, "leader_lost");
    assert_eq!(lost.fencing_token, Some(1));
    for at in 0..100 {
        runtime.heartbeat_failed(at);
    }
    assert_eq!(runtime.recent_events(1000).len(), RUNTIME_EVENT_CAPACITY);
    assert_eq!(runtime.recent_events(1)[0].at_unix_seconds, 99);
    assert!(runtime.leadership().is_none());
}

#[test]
fn followers_wait() {
    let (_, _, mut leases) = runtime_fixture();
    let other = coordinator("other", "run");
    let mut follower = HaRuntime::open();
    let (_, transition) = follower.bootstrap(&other, &mut leases, 1001, 1).unwrap();
    assert_eq!(transition, LeadershipTransition::Follower);
    assert_eq!(follower.recent_events(1)[0].code, "follower_started");
    assert_eq!(
        follower.refresh(&other, &mut leases, 1002, 1),
        Ok(LeadershipTransition::Follower)
    );
    assert_eq!(
        follower.advance_maintenance(MaintenanceEvent::Ticked, false, 2),
        MaintenanceAction::Wait
    );
}

#[test]
fn the_overview_shows_leases_and_hides_texts() {
    let (runtime, node, leases) = runtime_fixture();
    let job = JobLease {
        job_key: "job".into(),
        job_kind: "certificate".into(),
        lease_id: 7,
        owner_instance_id: "maintenance-runtime".into(),
        owner_incarnation_id: "run".into(),
        fencing_token: 1,
        acquired_unix_seconds: 1000,
        renewed_unix_seconds: 1000,
        lease_until_unix_seconds: 1030,
        last_completed_unix_seconds: None,
        last_error_code: None,
    };
    let port = PublicPortLease {
        protocol: "tcp".into(),
        public_port: 443,
        lease_id: 8,
        owner_instance_id: "maintenance-runtime".into(),
        owner_incarnation_id: "run".into(),
        fencing_token: 1,
        policy_id: 9,
        acquired_unix_seconds: 1000,
        renewed_unix_seconds: 1000,
        lease_until_unix_seconds: 1005,
    };
    let target = |healthy: bool, error: Option<&str>| TargetHealth {
        target_key: "t".into(),
        member_alive: true,
        control_channel_healthy: true,
        application_healthy: healthy,
        effective_healthy: healthy,
        consecutive_successes: 0,
        consecutive_failures: 0,
        weight: 1,
        revision: 1,
        last_probe_unix_seconds: None,
        last_transition_unix_seconds: 0,
        last_error_summary: error.map(str::to_owned),
    };
    let overview = collect(
        &runtime,
        &node,
        &leases,
        &vec![job],
        &vec![port],
        &vec![target(true, None), target(false, Some("secret text"))],
        StorageBackend::Postgres,
        1010,
    );
    assert_eq!(overview.mode, HaMode::PostgresHa);
    assert!(overview.replicated_state);
    assert!(overview.local_is_leader);
    assert_eq!(overview.local_fencing_token, Some(1));
    assert_eq!(overview.members.len(), 1);
    let own = overview.member_lease.as_ref().unwrap();
    assert!(own.is_leader && own.is_current_instance);
    assert_eq!(own.lease_remaining_seconds, 290);
    assert_eq!(overview.current_leader.as_ref().unwrap().lease_remaining_seconds, 110);
    assert_eq!(overview.job_leases[0].lease_id, "00000000-0000-0000-0000-000000000007");
    assert_eq!(overview.port_ownership[0].lease_remaining_seconds, 0);
    assert_eq!(overview.port_ownership[0].policy_id, "00000000-0000-0000-0000-000000000009");
    assert_eq!(overview.target_health.total, 2);
    assert_eq!(overview.target_health.healthy, 1);
    assert_eq!(overview.target_health.unhealthy, 1);
    assert_eq!(overview.target_health.with_errors, 1);
    assert_eq!(overview.recent_events.len(), 1);
    assert!(overview.recent_events.len() <= RECENT_EVENT_LIMIT);
    assert!(!format!("{overview:?}").contains("secret text"));
}

#[test]
fn lease_rows_read_back() {
    let (_, node, mut leases) = runtime_fixture();
    let member = node.register_or_renew_member(&mut leases, 1001).unwrap();
    assert_eq!(HaMemberRow::write(&member).unwrap().read_checked(), Ok(member.clone()));
    let mut row = HaMemberRow::write(&member).unwrap();
    row.last_seen_unix_seconds = -1;
    let error = row.read_checked().unwrap_err();
    assert_eq!(error, RowError::Negative(ColumnLabel::MemberLastSeen));
    assert_eq!(error.message(), "member last seen time must not be negative");
    assert_eq!((error.column(), error.numeric()), (3, true));
    row.metadata_json = "[]".into();
    let error = row.read_checked().unwrap_err();
    assert_eq!(error.message(), "HA member metadata must be a JSON object");
    assert_eq!((error.column(), error.numeric()), (5, false));
    let leader = leases.leader.clone().unwrap();
    assert_eq!(LeaderRow::write(&leader).unwrap().read(), Ok(leader.clone()));
    let mut row = LeaderRow::write(&leader).unwrap();
    row.fencing_token = 0;
    assert_eq!(row.read().unwrap_err().message(), "fencing token must be positive");
    let mut distant = member;
    distant.lease_until_unix_seconds = u64::MAX;
    assert_eq!(HaMemberRow::write(&distant), Err("value exceeds database integer range"));
    let mut distant = leader;
    distant.fencing_token = 1 << 63;
    assert_eq!(LeaderRow::write(&distant), Err("value exceeds database integer range"));
}

#[test]
fn recovery_ends_every_lease() {
    let (_, node, mut leases) = runtime_fixture();
    node.register_or_renew_member(&mut leases, 1001).unwrap();
    let job = JobLease {
        job_key: "certificate:site".into(),
        job_kind: "certificate".into(),
        lease_id: 7,
        owner_instance_id: "node".into(),
        owner_incarnation_id: "run".into(),
        fencing_token: 1,
        acquired_unix_seconds: 1000,
        renewed_unix_seconds: 1001,
        lease_until_unix_seconds: 1100,
        last_completed_unix_seconds: None,
        last_error_code: None,
    };
    let port = PublicPortLease {
        protocol: "tcp".into(),
        public_port: 8080,
        lease_id: 8,
        owner_instance_id: "node".into(),
        owner_incarnation_id: "run".into(),
        fencing_token: 1,
        policy_id: 9,
        acquired_unix_seconds: 1000,
        renewed_unix_seconds: 1001,
        lease_until_unix_seconds: 1100,
    };
    let mut jobs = vec![job.clone(), job.clone()];
    let mut ports = vec![port.clone()];
    assert!(!recover_stale_state(&mut leases, &mut ports, &mut jobs, false));
    assert_eq!(jobs, vec![job.clone(), job.clone()]);
    assert_eq!(ports, vec![port.clone()]);
    assert!(recover_stale_state(&mut leases, &mut ports, &mut jobs, true));
    let ended = JobLease { lease_until_unix_seconds: 0, ..job };
    assert_eq!(jobs, vec![ended.clone(), ended]);
    assert_eq!(ports, vec![PublicPortLease { lease_until_unix_seconds: 0, ..port }]);
    assert!(leases.active_members(0).is_empty());
    assert!(leases.current_leader(0).is_none());
    let lease_id = "00000000-0000-0000-0000-000000000007";
    assert!(!is_issuer_active(&jobs, &leases, "certificate:site", lease_id, 0));
}

#[test]
fn every_leadership_has_a_larger_token() {
    let nodes = [coordinator("a", "1"), coordinator("b", "2"), coordinator("c", "3")];
    let mut leases = HaLeases::new();
    let mut now = 10;
    let mut tokens = Vec::new();
    for round in 0..6 {
        let node = &nodes[round % 3];
        node.register_or_renew_member(&mut leases, now).unwrap();
        let lease = node.try_acquire_leadership(&mut leases, now).unwrap().unwrap();
        assert_eq!(lease.lease_until_unix_seconds, now + 120);
        tokens.push(lease.fencing_token);
        let again = node.try_acquire_leadership(&mut leases, now + 1).unwrap().unwrap();
        assert_eq!(again.fencing_token, lease.fencing_token);
        assert_eq!(again.acquired_unix_seconds, lease.acquired_unix_seconds);
        assert_eq!(again.lease_until_unix_seconds, now + 121);
        if round % 2 == 0 {
            assert!(leases.recover_stale_leases(true));
            now += 2;
        } else {
            now += 400;
            assert!(leases.prune_expired_members(now) > 0);
        }
    }
    assert_eq!(tokens, [1, 2, 3, 4, 5, 6]);
}

#[test]
fn overviews_do_not_depend_on_private_texts() {
    let (runtime, node, leases) = runtime_fixture();
    let target = |text: &str| TargetHealth {
        target_key: "t".into(),
        member_alive: true,
        control_channel_healthy: true,
        application_healthy: false,
        effective_healthy: false,
        consecutive_successes: 0,
        consecutive_failures: 4,
        weight: 1,
        revision: 1,
        last_probe_unix_seconds: Some(5),
        last_transition_unix_seconds: 0,
        last_error_summary: Some(text.to_owned()),
    };
    let shown = |leases: &HaLeases, text: &str| {
        let overview = collect(
            &runtime,
            &node,
            leases,
            &vec![],
            &vec![],
            &vec![target(text)],
            StorageBackend::Sqlite,
            1010,
        );
        format!("{overview:?}")
    };
    let first = shown(&leases, "first text");
    let mut changed = leases;
    for member in changed.members.iter_mut() {
        member.metadata_json = "{\"zone\":\"private\"}".into();
    }
    assert_eq!(shown(&changed, "second text"), first);
}
