use linklake_server::fleet_coordination::{
    normalize_identifier, normalize_summary, valid_state_transition, validate_sync_state,
    FieldLabel, FleetConflictInput, FleetConflictState, FleetCoordination, FleetCoordinationError,
    FleetGenerationInput, FleetSyncState,
};
use linklake_server::ha_coordination::{HaCoordinator, HaError, HaLeases};
use linklake_server::ha_management::StorageBackend;
use linklake_server::stored_numbers::{as_i64, nonnegative_u64, positive_u64, progress_u8};
use linklake_server::stored_rows::{FleetConflictRow, FleetGenerationRow, RowError};

fn leader() -> (HaCoordinator, HaLeases, u64) {
    let coordinator =
        HaCoordinator::open_as("node-a", Ok("{}".into()), 300, 120, "run-1".into()).unwrap();
    let mut leases = HaLeases::new();
    coordinator.register_or_renew_member(&mut leases, 1).unwrap();
    let lease = coordinator.try_acquire_leadership(&mut leases, 1).unwrap().unwrap();
    (coordinator, leases, lease.fencing_token)
}

fn report(generation: u64, state: FleetSyncState, progress: u8) -> FleetGenerationInput {
    FleetGenerationInput {
        source_instance_id: " source ".into(),
        generation,
        revision: format!("revision-{generation}"),
        resource_count: 3,
        sync_state: state,
        sync_progress: progress,
    }
}

fn conflict(id: u128, generation: u64) -> FleetConflictInput {
    FleetConflictInput {
        conflict_id: id,
        source_instance_id: "source".into(),
        generation,
        resource_kind: "tcp_policy".into(),
        resource_id: "web".into(),
        owner_instance_id: Some("node-b".into()),
        conflict_code: "port_taken".into(),
        detail_summary: " the port\r\n is   taken ".into(),
    }
}

#[test]
fn generations_move_on() {
    let (node, leases, token) = leader();
    let mut ledger = FleetCoordination::open();
    let first = ledger
        .record_generation(&leases, &node, report(1, FleetSyncState::Pending, 0), token, 10)
        .unwrap();
    assert!(first.accepted);
    assert_eq!(first.generation.source_instance_id, "source");
    assert_eq!(first.generation.owner_incarnation_id, "run-1");
    let again = ledger
        .record_generation(&leases, &node, report(1, FleetSyncState::Pending, 0), token, 11)
        .unwrap();
    assert!(again.duplicate);
    assert_eq!(again.generation.updated_unix_seconds, 10);
    ledger
        .record_generation(&leases, &node, report(1, FleetSyncState::Applying, 50), token, 12)
        .unwrap();
    let mut backwards = report(1, FleetSyncState::Applying, 40);
    assert_eq!(
        ledger.record_generation(&leases, &node, backwards.clone(), token, 13),
        Err(FleetCoordinationError::ProgressBackwards)
    );
    backwards.revision = "another".into();
    assert_eq!(
        ledger.record_generation(&leases, &node, backwards, token, 13),
        Err(FleetCoordinationError::RevisionBound)
    );
    assert_eq!(
        ledger.record_generation(
            &leases,
            &node,
            FleetGenerationInput { resource_count: 4, ..report(1, FleetSyncState::Applying, 60) },
            token,
            13
        ),
        Err(FleetCoordinationError::ResourceCountBound)
    );
    ledger
        .record_generation(&leases, &node, report(1, FleetSyncState::Ready, 100), token, 14)
        .unwrap();
    assert_eq!(
        ledger.record_generation(&leases, &node, report(1, FleetSyncState::Failed, 100), token, 15),
        Err(FleetCoordinationError::InvalidTransition)
    );
    let newer = ledger
        .record_generation(&leases, &node, report(2, FleetSyncState::Pending, 0), token, 16)
        .unwrap();
    assert!(newer.accepted);
    let older = ledger
        .record_generation(&leases, &node, report(1, FleetSyncState::Ready, 100), token, 17)
        .unwrap();
    assert!(!older.accepted && !older.duplicate);
    assert_eq!(ledger.generations().len(), 1);
    assert_eq!(ledger.generations()[0].generation, 2);
}

#[test]
fn conflicts_hold_a_generation_back() {
    let (node, leases, token) = leader();
    let mut ledger = FleetCoordination::open();
    assert_eq!(
        ledger.record_conflict(&leases, &node, conflict(5, 1), token, 9),
        Err(FleetCoordinationError::GenerationMissing)
    );
    ledger
        .record_generation(&leases, &node, report(1, FleetSyncState::Applying, 50), token, 10)
        .unwrap();
    assert_eq!(
        ledger.record_conflict(&leases, &node, conflict(5, 2), token, 11),
        Err(FleetCoordinationError::StaleGeneration)
    );
    let write = ledger.record_conflict(&leases, &node, conflict(5, 1), token, 11).unwrap();
    assert!(!write.duplicate);
    assert_eq!(write.conflict.detail_summary, "the port is taken");
    assert_eq!(ledger.generations()[0].sync_state, FleetSyncState::Conflicted);
    assert!(ledger.record_conflict(&leases, &node, conflict(5, 1), token, 12).unwrap().duplicate);
    assert_eq!(
        ledger.record_conflict(
            &leases,
            &node,
            FleetConflictInput { resource_id: "other".into(), ..conflict(5, 1) },
            token,
            12
        ),
        Err(FleetCoordinationError::ConflictBound)
    );
    assert_eq!(
        ledger.record_generation(&leases, &node, report(1, FleetSyncState::Ready, 100), token, 13),
        Err(FleetCoordinationError::OpenConflicts)
    );
    let resolved = ledger
        .resolve_conflict(&leases, &node, 5, "moved", token, 14)
        .unwrap()
        .unwrap();
    assert_eq!(resolved.conflict.state, FleetConflictState::Resolved);
    assert!(ledger
        .resolve_conflict(&leases, &node, 5, " moved ", token, 15)
        .unwrap()
        .unwrap()
        .duplicate);
    assert_eq!(
        ledger.resolve_conflict(&leases, &node, 5, "kept", token, 15),
        Err(FleetCoordinationError::DifferentResolution)
    );
    assert_eq!(ledger.resolve_conflict(&leases, &node, 6, "x", token, 15), Ok(None));
    ledger
        .record_generation(&leases, &node, report(1, FleetSyncState::Ready, 100), token, 16)
        .unwrap();
}

#[test]
fn stale_processes_write_nothing() {
    let (node, mut leases, token) = leader();
    let mut ledger = FleetCoordination::open();
    let input = || report(1, FleetSyncState::Pending, 0);
    assert_eq!(
        ledger.record_generation(&leases, &node, input(), 0, 10),
        Err(FleetCoordinationError::Fence(HaError::ZeroFencingToken))
    );
    assert_eq!(
        ledger.record_generation(&leases, &node, input(), token + 1, 10),
        Err(FleetCoordinationError::Fence(HaError::StaleFencingToken))
    );
    assert_eq!(
        ledger.record_generation(&leases, &node, input(), u64::MAX, 10),
        Err(FleetCoordinationError::Fence(HaError::ValueTooLarge))
    );
    assert_eq!(
        ledger.record_generation(&leases, &node, input(), token, 1000),
        Err(FleetCoordinationError::Fence(HaError::StaleFencingToken))
    );
    leases.recover_stale_leases(true);
    let error = ledger.record_generation(&leases, &node, input(), token, 10).unwrap_err();
    assert_eq!(error.message(), "leadership fencing token is stale; refusing write");
    assert!(ledger.generations().is_empty());
}

#[test]
fn conflicts_are_listed_from_the_latest_on() {
    let (node, leases, token) = leader();
    let mut ledger = FleetCoordination::open();
    ledger
        .record_generation(&leases, &node, report(1, FleetSyncState::Applying, 1), token, 10)
        .unwrap();
    for (id, at) in [(3, 20), (1, 20), (2, 30)] {
        ledger.record_conflict(&leases, &node, conflict(id, 1), token, at).unwrap();
    }
    ledger.resolve_conflict(&leases, &node, 1, "done", token, 40).unwrap();
    let ids = |source: Option<&str>, state: Option<FleetConflictState>| {
        let found: Vec<u128> = ledger
            .conflicts(source, state)
            .unwrap()
            .iter()
            .map(|conflict| conflict.conflict_id)
            .collect();
        found
    };
    assert_eq!(ids(None, None), vec![2, 1, 3]);
    assert_eq!(ids(Some(" source "), Some(FleetConflictState::Open)), vec![2, 3]);
    assert!(ids(Some("elsewhere"), None).is_empty());
    assert_eq!(
        ledger.conflicts(Some(" "), None),
        Err(FleetCoordinationError::Required(FieldLabel::SourceInstanceId))
    );
}

#[test]
fn texts_are_normalized() {
    assert_eq!(
        normalize_identifier(" a ", FieldLabel::Revision, 4),
        Ok("a".to_owned())
    );
    let long = normalize_identifier("abcde", FieldLabel::Revision, 4).unwrap_err();
    assert_eq!(long.message(), "Fleet revision exceeds 4 bytes");
    let control = normalize_identifier("a\u{7}b", FieldLabel::ResourceKind, 9).unwrap_err();
    assert_eq!(control.message(), "Fleet resource kind must not contain control characters");
    let empty = normalize_summary("\n", FieldLabel::ConflictDetail, 9).unwrap_err();
    assert_eq!(empty.message(), "Fleet conflict detail is required");
    assert_eq!(
        normalize_summary("a\u{1}\u{2} b", FieldLabel::ConflictDetail, 512),
        Ok("a b".to_owned())
    );
    assert_eq!(
        normalize_summary(&"x".repeat(600), FieldLabel::ConflictDetail, 512).unwrap().len(),
        512
    );
}

#[test]
fn states_have_their_progress() {
    assert_eq!(validate_sync_state(FleetSyncState::Pending, 0), Ok(()));
    assert_eq!(
        validate_sync_state(FleetSyncState::Pending, 1),
        Err(FleetCoordinationError::PendingProgress)
    );
    assert_eq!(
        validate_sync_state(FleetSyncState::Applying, 100),
        Err(FleetCoordinationError::ApplyingProgress)
    );
    assert_eq!(
        validate_sync_state(FleetSyncState::Ready, 99),
        Err(FleetCoordinationError::ReadyProgress)
    );
    assert_eq!(
        validate_sync_state(FleetSyncState::Failed, 101),
        Err(FleetCoordinationError::ProgressTooLarge)
    );
    assert!(valid_state_transition(FleetSyncState::Conflicted, FleetSyncState::Ready));
    assert!(!valid_state_transition(FleetSyncState::Pending, FleetSyncState::Ready));
    for state in [
        FleetSyncState::Pending,
        FleetSyncState::Applying,
        FleetSyncState::Ready,
        FleetSyncState::Conflicted,
        FleetSyncState::Failed,
    ] {
        assert_eq!(FleetSyncState::parse(state.as_str()), Some(state));
    }
    assert_eq!(FleetConflictState::parse("open"), Some(FleetConflictState::Open));
    assert_eq!(FleetConflictState::parse("closed"), None);
}

#[test]
fn nil_conflicts_are_refused() {
    let (node, leases, token) = leader();
    let mut ledger = FleetCoordination::open();
    assert_eq!(
        ledger.record_conflict(&leases, &node, conflict(0, 1), token, 1),
        Err(FleetCoordinationError::NilConflictId)
    );
    assert_eq!(
        ledger.record_generation(
            &leases,
            &node,
            report(u64::MAX, FleetSyncState::Pending, 0),
            token,
            1
        ),
        Err(FleetCoordinationError::GenerationTooLarge)
    );
}

#[test]
fn ledger_rows_read_back() {
    let (node, leases, token) = leader();
    let mut ledger = FleetCoordination::open();
    let update = ledger
        .record_generation(&leases, &node, report(1, FleetSyncState::Applying, 50), token, 10)
        .unwrap();
    let row = FleetGenerationRow::write(&update.generation).unwrap();
    assert_eq!(row.read(StorageBackend::Sqlite).unwrap(), update.generation);
    let mut broken = FleetGenerationRow::write(&update.generation).unwrap();
    broken.fencing_token = 0;
    assert_eq!(
        broken.read(StorageBackend::Sqlite).unwrap_err().message(),
        "Fleet fencing token must be positive"
    );
    broken.fencing_token = 1;
    broken.sync_progress = 101;
    assert_eq!(broken.read(StorageBackend::Sqlite), Err(RowError::Progress));
    let write = ledger.record_conflict(&leases, &node, conflict(5, 1), token, 11).unwrap();
    let row = FleetConflictRow::write(&write.conflict).unwrap();
    assert_eq!(row.conflict_id, "00000000-0000-0000-0000-000000000005");
    assert_eq!(row.read(StorageBackend::Sqlite).unwrap(), write.conflict);
    let mut broken = FleetConflictRow::write(&write.conflict).unwrap();
    broken.state = "gone".into();
    assert_eq!(broken.read(StorageBackend::Sqlite), Err(RowError::ConflictState));
    broken.state = "open".into();
    broken.generation = -1;
    let error = broken.read(StorageBackend::Sqlite).unwrap_err();
    assert_eq!(error.message(), "Fleet conflict generation is invalid");
    assert_eq!((error.column(), error.numeric()), (2, true));
    assert_eq!(
        broken.read(StorageBackend::Postgres).unwrap_err().message(),
        "Fleet conflict generation must not be negative"
    );
    broken.conflict_id = "0000".into();
    assert_eq!(
        broken.read(StorageBackend::Postgres).unwrap_err().message(),
        "invalid length: found 4"
    );
    let mut large = update.generation;
    large.resource_count = u64::MAX;
    assert_eq!(FleetGenerationRow::write(&large), Err("value exceeds database integer range"));
    let mut large = write.conflict;
    large.resolved_unix_seconds = Some(1 << 63);
    assert_eq!(FleetConflictRow::write(&large), Err("value exceeds database integer range"));
}

#[test]
fn summaries_are_neat() {
    let summary = |text: &str, maximum| {
        normalize_summary(text, FieldLabel::ConflictDetail, maximum).map_err(|e| e.message())
    };
    let neat = summary(" one\t\ttwo\u{0}\u{a0}three ", 512).unwrap();
    assert_eq!(neat, "one two three");
    assert_eq!(summary(&neat, 512).unwrap(), neat);
    assert_eq!(summary("one two", 4).unwrap(), "one");
    assert_eq!(summary("\u{0}a", 2).unwrap(), "a");
    assert!(summary("\u{0} \u{7f}", 512).is_err());
}

#[test]
fn stored_numbers_are_checked() {
    assert_eq!(as_i64(7), Ok(7));
    assert_eq!(as_i64(u64::MAX), Err("value exceeds database integer range"));
    assert_eq!(nonnegative_u64(-1, "clock"), Err("clock must not be negative".to_owned()));
    assert_eq!(positive_u64(0, "token"), Err("token must be positive".to_owned()));
    assert_eq!(positive_u64(4, "token"), Ok(4));
    assert_eq!(progress_u8(100), Ok(100));
    assert_eq!(progress_u8(101), Err("Fleet sync progress is invalid"));
}
