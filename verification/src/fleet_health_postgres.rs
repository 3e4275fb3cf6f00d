//! The health of a fleet and its DNS failovers in a database that several
//! processes share.
//!
//! Only the leader writes. Every write checks the fence within the transaction
//! that it belongs to, on the leases and the clock of the database.

use crate::fleet::{find_peer, peer_models, peer_position, FleetPeer, FleetPeerModel};
use crate::fleet_dns::{
    checked_failover, dns_error_text, target_models, validate_dns_failover, FleetDnsChangePlan,
    FleetDnsChangePlanModel, FleetDnsChangeResult, FleetDnsChangeResultModel, FleetDnsError,
    FleetDnsFailover, FleetDnsFailoverModel, FleetDnsPeerTarget, FleetDnsPeerTargetModel,
    UpsertFleetDnsFailover, UpsertFleetDnsFailoverModel,
};
use crate::fleet_health::{
    config_error, error_summary, event_position, find_snapshot, health_error_text, stale_probe, summarize_error,
    validate_health_config, FleetHealthError, FleetHealthSnapshot, FleetHealthSnapshotModel,
    FleetProbeObservation, FleetProbeObservationModel, FleetProbeResult, FleetProbeResultModel,
    UpdateFleetHealthConfig,
};
use crate::fleet_health_catalog::{
    after_planning, change_completed, config_updated, failover_deleted, failover_ids,
    failover_position, failure_of, freeze_set, fresh_failover, new_failover,
    peer_forgotten, place, placed, plan_models, planned, probe_recorded, reconfigure_failover,
    replaced_failover, taken_out, with_snapshot, CatalogModel, FleetHealthCatalog, PlanFold,
};
use crate::ha_coordination::{
    fence_error, ha_error_text, CoordinatorModel, HaCoordinator, HaError, HaLeases, LeasesModel,
};
use crate::ha_runtime::{HaRuntime, RuntimeModel};
use crate::ids::first_id;
use crate::uuids::{new_uuid, random_layout};
use vstd::prelude::*;
use vstd::string::*;

verus! {

/// Why a write to the shared catalogue was refused.
#[derive(Clone, Copy, Debug, PartialEq, Eq, Structural)]
pub enum SharedFleetError {
    NotLeader,
    Fence(HaError),
    Health(FleetHealthError),
    Dns(FleetDnsError),
    RevisionExhausted,
}

impl SharedFleetError {
    /// The text shown to operators.
    pub fn message(self) -> (r: &'static str)
        ensures
            r@ == match self {
                SharedFleetError::NotLeader => "this LinkLake instance is not the active HA leader"@,
                SharedFleetError::Fence(error) => ha_error_text(error),
                SharedFleetError::Health(error) => health_error_text(error),
                SharedFleetError::Dns(error) => dns_error_text(error),
                SharedFleetError::RevisionExhausted => "fleet health revision exhausted"@,
            },
    {
        match self {
            SharedFleetError::NotLeader => "this LinkLake instance is not the active HA leader",
            SharedFleetError::Fence(error) => error.message(),
            SharedFleetError::Health(error) => error.message(),
            SharedFleetError::Dns(error) => error.message(),
            SharedFleetError::RevisionExhausted => "fleet health revision exhausted",
        }
    }
}

/// A process that is about to write, with the leases and the clock that its
/// transaction reads.
pub struct FleetWriter<'a> {
    pub runtime: &'a HaRuntime,
    pub coordinator: &'a HaCoordinator,
    pub leases: &'a HaLeases,
    pub clock: u64,
}

/// What stands in the way of a write of a process: it does not believe that it
/// leads, or it no longer passes the fence under its token.
pub open spec fn write_refusal(
    m: RuntimeModel,
    t: LeasesModel,
    c: CoordinatorModel,
    clock: u64,
) -> Option<SharedFleetError> {
    if !(m.leader && m.fencing_token > 0) {
        Some(SharedFleetError::NotLeader)
    } else {
        match fence_error(t, c, m.fencing_token, clock) {
            Some(error) => Some(SharedFleetError::Fence(error)),
            None => None,
        }
    }
}

impl<'a> FleetWriter<'a> {
    pub open spec fn refusal(&self) -> Option<SharedFleetError> {
        write_refusal(self.runtime@, self.leases@, self.coordinator@, self.clock)
    }

    /// Whether this process may write in its transaction.
    pub fn fence(&self) -> (r: Result<(), SharedFleetError>)
        ensures
            match self.refusal() {
                Some(error) => r == Err::<(), SharedFleetError>(error),
                None => r is Ok,
            },
    {
        match self.runtime.fencing_token() {
            Ok(token) => match self.coordinator.assert_transaction_fence(
                self.leases,
                token,
                self.clock,
            ) {
                Ok(()) => Ok(()),
                Err(error) => Err(SharedFleetError::Fence(error)),
            },
            Err(_) => Err(SharedFleetError::NotLeader),
        }
    }
}

// ---------------------------------------------------------------------------
// What writes do
// ---------------------------------------------------------------------------

/// The outcome of a write to the health of the fleet.
pub open spec fn health_outcome<T>(r: Result<T, FleetHealthError>) -> Result<T, SharedFleetError> {
    match r {
        Ok(value) => Ok(value),
        Err(error) => Err(SharedFleetError::Health(error)),
    }
}

/// The outcome of a write to the DNS failovers.
pub open spec fn dns_outcome<T>(r: Result<T, FleetDnsError>) -> Result<T, SharedFleetError> {
    match r {
        Ok(value) => Ok(value),
        Err(error) => Err(SharedFleetError::Dns(error)),
    }
}

/// Making sure that a known peer has a snapshot.
pub open spec fn shared_peer_ensured(
    c: CatalogModel,
    refusal: Option<SharedFleetError>,
    peers: Seq<FleetPeerModel>,
    peer_id: u128,
    now: u64,
) -> Result<CatalogModel, SharedFleetError> {
    match refusal {
        Some(error) => Err(error),
        None => if find_peer(peers, peer_id) is None {
            Err(SharedFleetError::Health(FleetHealthError::PeerMissing))
        } else {
            Ok(CatalogModel { snapshots: with_snapshot(c.snapshots, peer_id, now), ..c })
        },
    }
}

/// Changing how the health of a peer is judged. The request is checked before
/// the fence.
pub open spec fn shared_config_updated(
    c: CatalogModel,
    refusal: Option<SharedFleetError>,
    peers: Seq<FleetPeerModel>,
    peer_id: u128,
    request: UpdateFleetHealthConfig,
    now: u64,
) -> Result<(CatalogModel, FleetHealthSnapshotModel), SharedFleetError> {
    match config_error(request) {
        Some(error) => Err(SharedFleetError::Health(error)),
        None => match refusal {
            Some(error) => Err(error),
            None => health_outcome(config_updated(c, peers, peer_id, request, now)),
        },
    }
}

/// The health of a peer has the last revision that there is.
pub open spec fn revision_spent(c: CatalogModel, peer_id: u128) -> bool {
    match find_snapshot(c.snapshots, peer_id) {
        Some(snapshot) => snapshot.health.revision == u64::MAX,
        None => false,
    }
}

/// Recording a probe. One that would move the health on is refused where no
/// revision is left.
pub open spec fn shared_probe_recorded(
    c: CatalogModel,
    refusal: Option<SharedFleetError>,
    peers: Seq<FleetPeerModel>,
    peer_id: u128,
    o: FleetProbeObservationModel,
) -> Result<(CatalogModel, FleetProbeResultModel), SharedFleetError> {
    match refusal {
        Some(error) => Err(error),
        None => match probe_recorded(c, peers, peer_id, o) {
            Err(error) => Err(SharedFleetError::Health(error)),
            Ok((after, result)) => if result.accepted && revision_spent(c, peer_id) {
                Err(SharedFleetError::RevisionExhausted)
            } else {
                Ok((after, result))
            },
        },
    }
}

/// All targets belong to peers that the database holds.
pub open spec fn targets_stored(
    targets: Seq<FleetDnsPeerTargetModel>,
    stored: Seq<FleetPeerModel>,
) -> bool {
    forall|i: int|
        0 <= i < targets.len() ==> find_peer(stored, (#[trigger] targets[i]).peer_id) is Some
}

/// Adding a failover. The request is checked before the fence, against the
/// peers that the caller knew; within the transaction, its targets are held
/// against the stored ones. That names are not shared is left to the database.
pub open spec fn shared_failover_created(
    c: CatalogModel,
    refusal: Option<SharedFleetError>,
    id: u128,
    request: UpsertFleetDnsFailoverModel,
    peers: Seq<FleetPeerModel>,
    stored: Seq<FleetPeerModel>,
    token_configured: bool,
    now: u64,
) -> Result<(CatalogModel, FleetDnsFailoverModel), SharedFleetError> {
    match checked_failover(request, peers) {
        Err(error) => Err(SharedFleetError::Dns(error)),
        Ok(valid) => match refusal {
            Some(error) => Err(error),
            None => if !targets_stored(valid.targets, stored) {
                Err(SharedFleetError::Dns(FleetDnsError::UnknownPeer))
            } else {
                let f = new_failover(id, valid, token_configured, now);
                Ok((CatalogModel { failovers: placed(c.failovers, f), ..c }, f))
            },
        },
    }
}

/// Replacing the configuration of a failover, which no change may be pending
/// for.
pub open spec fn shared_failover_updated(
    c: CatalogModel,
    refusal: Option<SharedFleetError>,
    id: u128,
    request: UpsertFleetDnsFailoverModel,
    peers: Seq<FleetPeerModel>,
    stored: Seq<FleetPeerModel>,
    token_configured: bool,
    now: u64,
) -> Result<(CatalogModel, Option<FleetDnsFailoverModel>), SharedFleetError> {
    match checked_failover(request, peers) {
        Err(error) => Err(SharedFleetError::Dns(error)),
        Ok(valid) => match refusal {
            Some(error) => Err(error),
            None => {
                let i = first_id(failover_ids(c.failovers), id);
                if i >= c.failovers.len() {
                    Ok((c, None))
                } else if c.failovers[i].pending_operation_id is Some {
                    Err(SharedFleetError::Dns(FleetDnsError::OperationPending))
                } else if !targets_stored(valid.targets, stored) {
                    Err(SharedFleetError::Dns(FleetDnsError::UnknownPeer))
                } else {
                    let f = replaced_failover(c.failovers[i], valid, token_configured, now);
                    Ok(
                        (
                            CatalogModel { failovers: placed(c.failovers.remove(i), f), ..c },
                            Some(f),
                        ),
                    )
                }
            },
        },
    }
}

/// Removing a failover, which no change may be pending for.
pub open spec fn shared_failover_deleted(
    c: CatalogModel,
    refusal: Option<SharedFleetError>,
    id: u128,
) -> Result<(CatalogModel, bool), SharedFleetError> {
    match refusal {
        Some(error) => Err(error),
        None => dns_outcome(failover_deleted(c, id)),
    }
}

/// The reason of a freeze has no characters left once it is summarized.
pub open spec fn freeze_unreasoned(frozen: bool, reason: Option<Seq<char>>) -> bool {
    frozen && error_summary(
        match reason {
            Some(text) => text,
            None => "manual freeze"@,
        },
    ).len() == 0
}

/// Freezing a failover or releasing it. The reason is checked before the fence.
pub open spec fn shared_freeze_set(
    c: CatalogModel,
    refusal: Option<SharedFleetError>,
    id: u128,
    frozen: bool,
    reason: Option<Seq<char>>,
    now: u64,
) -> Result<(CatalogModel, Option<FleetDnsFailoverModel>), SharedFleetError> {
    if freeze_unreasoned(frozen, reason) {
        Err(SharedFleetError::Dns(FleetDnsError::FreezeReasonRequired))
    } else {
        match refusal {
            Some(error) => Err(error),
            None => dns_outcome(freeze_set(c, id, frozen, reason, now)),
        }
    }
}

/// Planning the DNS changes that are due, on the stored peers.
pub open spec fn shared_planned(
    c: CatalogModel,
    refusal: Option<SharedFleetError>,
    stored: Seq<FleetPeerModel>,
    now: u64,
    only: Option<u128>,
    fresh: Seq<u128>,
) -> Result<PlanFold, SharedFleetError> {
    match refusal {
        Some(error) => Err(error),
        None => Ok(
            planned(c.failovers, stored, c.snapshots, now, only, fresh, c.failovers.len()),
        ),
    }
}

/// Recording the outcome of a planned change.
pub open spec fn shared_change_completed(
    c: CatalogModel,
    refusal: Option<SharedFleetError>,
    plan: FleetDnsChangePlanModel,
    failure: Option<Seq<char>>,
    now: u64,
) -> Result<(CatalogModel, FleetDnsChangeResultModel), SharedFleetError> {
    match refusal {
        Some(error) => Err(error),
        None => dns_outcome(change_completed(c, plan, failure, now)),
    }
}

/// Forgetting a peer that leaves the fleet.
pub open spec fn shared_peer_forgotten(
    c: CatalogModel,
    refusal: Option<SharedFleetError>,
    peer_id: u128,
) -> Result<CatalogModel, SharedFleetError> {
    match refusal {
        Some(error) => Err(error),
        None => Ok(peer_forgotten(c, peer_id)),
    }
}

fn all_targets_stored(targets: &Vec<FleetDnsPeerTarget>, stored: &Vec<FleetPeer>) -> (r: bool)
    ensures
        r == targets_stored(target_models(targets@), peer_models(stored@)),
{
    let ghost models = target_models(targets@);
    let mut i: usize = 0;
    while i < targets.len()
        invariant
            i <= targets@.len(),
            models == target_models(targets@),
            forall|j: int|
                0 <= j < i ==> find_peer(
                    peer_models(stored@),
                    (#[trigger] models[j]).peer_id,
                ) is Some,
        decreases targets@.len() - i,
    {
        assert(models[i as int].peer_id == targets@[i as int].peer_id);
        if peer_position(stored, targets[i].peer_id).is_none() {
            return false;
        }
        i = i + 1;
    }
    true
}

/// What is remembered in the shared database, as a transaction has read it.
#[derive(Debug)]
pub struct PostgresFleetHealthCatalog {
    pub health: FleetHealthCatalog,
}

impl View for PostgresFleetHealthCatalog {
    type V = CatalogModel;

    open spec fn view(&self) -> CatalogModel {
        self.health@
    }
}

impl PostgresFleetHealthCatalog {
    /// Makes sure that a known peer has a snapshot.
    pub fn ensure_peer(
        &mut self,
        writer: &FleetWriter<'_>,
        stored: &Vec<FleetPeer>,
        peer_id: u128,
        now: u64,
    ) -> (r: Result<(), SharedFleetError>)
        ensures
            match shared_peer_ensured(
                old(self)@,
                writer.refusal(),
                peer_models(stored@),
                peer_id,
                now,
            ) {
                Ok(after) => r is Ok && final(self)@ == after,
                Err(error) => r is Err && r->Err_0 == error && final(self)@ == old(self)@,
            },
    {
        if let Err(error) = writer.fence() {
            return Err(error);
        }
        match self.health.ensure_peer(stored, peer_id, now) {
            Ok(()) => Ok(()),
            Err(error) => Err(SharedFleetError::Health(error)),
        }
    }

    /// Changes how the health of a peer is judged, and returns its snapshot.
    pub fn update_health_config(
        &mut self,
        writer: &FleetWriter<'_>,
        stored: &Vec<FleetPeer>,
        peer_id: u128,
        request: UpdateFleetHealthConfig,
        now: u64,
    ) -> (r: Result<Option<FleetHealthSnapshot>, SharedFleetError>)
        ensures
            match shared_config_updated(
                old(self)@,
                writer.refusal(),
                peer_models(stored@),
                peer_id,
                request,
                now,
            ) {
                Ok((after, snapshot)) => r is Ok && r->Ok_0 is Some && r->Ok_0->0@ == snapshot
                    && final(self)@ == after,
                Err(error) => r is Err && r->Err_0 == error && final(self)@ == old(self)@,
            },
    {
        if let Err(error) = validate_health_config(&request) {
            return Err(SharedFleetError::Health(error));
        }
        if let Err(error) = writer.fence() {
            return Err(error);
        }
        match self.health.update_health_config(stored, peer_id, request, now) {
            Ok(snapshot) => Ok(snapshot),
            Err(error) => Err(SharedFleetError::Health(error)),
        }
    }

    /// Whether a probe would move on the health of a peer that has no revision
    /// left.
    fn revision_exhausted(
        &self,
        stored: &Vec<FleetPeer>,
        peer_id: u128,
        observation: &FleetProbeObservation,
    ) -> (r: bool)
        ensures
            r == match probe_recorded(self@, peer_models(stored@), peer_id, observation@) {
                Ok((_, result)) => result.accepted && revision_spent(self@, peer_id),
                Err(_) => false,
            },
    {
        match self.health.snapshot(peer_id) {
            Some(snapshot) => {
                let stale = match snapshot.health.last_probe_unix_seconds {
                    Some(last) => observation.observed_unix_seconds < last,
                    None => false,
                };
                assert(stale == stale_probe(snapshot@.health, observation@));
                snapshot.health.revision == u64::MAX && !stale && peer_position(
                    stored,
                    peer_id,
                ).is_some() && event_position(
                    &self.health.probe_events,
                    observation.event_id,
                ).is_none()
            },
            None => false,
        }
    }

    /// Records a probe of a peer.
    pub fn record_probe(
        &mut self,
        writer: &FleetWriter<'_>,
        stored: &Vec<FleetPeer>,
        peer_id: u128,
        observation: &FleetProbeObservation,
    ) -> (r: Result<FleetProbeResult, SharedFleetError>)
        ensures
            match shared_probe_recorded(
                old(self)@,
                writer.refusal(),
                peer_models(stored@),
                peer_id,
                observation@,
            ) {
                Ok((after, result)) => r is Ok && r->Ok_0@ == result && final(self)@ == after,
                Err(error) => r is Err && r->Err_0 == error && final(self)@ == old(self)@,
            },
    {
        if let Err(error) = writer.fence() {
            return Err(error);
        }
        if self.revision_exhausted(stored, peer_id, observation) {
            return Err(SharedFleetError::RevisionExhausted);
        }
        match self.health.record_probe(stored, peer_id, observation) {
            Ok(result) => Ok(result),
            Err(error) => Err(SharedFleetError::Health(error)),
        }
    }

    /// Adds a failover under a new random identifier.
    pub fn create_dns_failover(
        &mut self,
        writer: &FleetWriter<'_>,
        request: UpsertFleetDnsFailover,
        peers: &Vec<FleetPeer>,
        stored: &Vec<FleetPeer>,
        token_configured: bool,
        now: u64,
    ) -> (r: Result<FleetDnsFailover, SharedFleetError>)
        ensures
            exists|id: u128| #[trigger]
                random_layout(id) && match shared_failover_created(
                    old(self)@,
                    writer.refusal(),
                    id,
                    request@,
                    peer_models(peers@),
                    peer_models(stored@),
                    token_configured,
                    now,
                ) {
                    Ok((after, failover)) => r is Ok && r->Ok_0@ == failover && final(self)@
                        == after,
                    Err(error) => r is Err && r->Err_0 == error && final(self)@ == old(self)@,
                },
    {
        let id = new_uuid();
        self.create_dns_failover_as(writer, id, request, peers, stored, token_configured, now)
    }

    /// Adds a failover under the given identifier.
    pub fn create_dns_failover_as(
        &mut self,
        writer: &FleetWriter<'_>,
        id: u128,
        request: UpsertFleetDnsFailover,
        peers: &Vec<FleetPeer>,
        stored: &Vec<FleetPeer>,
        token_configured: bool,
        now: u64,
    ) -> (r: Result<FleetDnsFailover, SharedFleetError>)
        ensures
            match shared_failover_created(
                old(self)@,
                writer.refusal(),
                id,
                request@,
                peer_models(peers@),
                peer_models(stored@),
                token_configured,
                now,
            ) {
                Ok((after, failover)) => r is Ok && r->Ok_0@ == failover && final(self)@ == after,
                Err(error) => r is Err && r->Err_0 == error && final(self)@ == old(self)@,
            },
    {
        let valid = match validate_dns_failover(request, peers) {
            Ok(valid) => valid,
            Err(error) => {
                return Err(SharedFleetError::Dns(error));
            },
        };
        if let Err(error) = writer.fence() {
            return Err(error);
        }
        if !all_targets_stored(&valid.targets, stored) {
            return Err(SharedFleetError::Dns(FleetDnsError::UnknownPeer));
        }
        let value = fresh_failover(id, valid, token_configured, now);
        let copy = value.duplicate();
        place(&mut self.health.failovers, value);
        Ok(copy)
    }

    /// Replaces the configuration of a failover.
    pub fn update_dns_failover(
        &mut self,
        writer: &FleetWriter<'_>,
        id: u128,
        request: UpsertFleetDnsFailover,
        peers: &Vec<FleetPeer>,
        stored: &Vec<FleetPeer>,
        token_configured: bool,
        now: u64,
    ) -> (r: Result<Option<FleetDnsFailover>, SharedFleetError>)
        ensures
            match shared_failover_updated(
                old(self)@,
                writer.refusal(),
                id,
                request@,
                peer_models(peers@),
                peer_models(stored@),
                token_configured,
                now,
            ) {
                Ok((after, failover)) => r is Ok && final(self)@ == after && match r->Ok_0 {
                    Some(x) => failover == Some(x@),
                    None => failover is None,
                },
                Err(error) => r is Err && r->Err_0 == error && final(self)@ == old(self)@,
            },
    {
        let valid = match validate_dns_failover(request, peers) {
            Ok(valid) => valid,
            Err(error) => {
                return Err(SharedFleetError::Dns(error));
            },
        };
        if let Err(error) = writer.fence() {
            return Err(error);
        }
        let i: usize = match failover_position(&self.health.failovers, id) {
            Some(i) => i,
            None => {
                return Ok(None);
            },
        };
        assert(self@.failovers[i as int] == self.health.failovers@[i as int]@);
        if self.health.failovers[i].pending_operation_id.is_some() {
            return Err(SharedFleetError::Dns(FleetDnsError::OperationPending));
        }
        if !all_targets_stored(&valid.targets, stored) {
            return Err(SharedFleetError::Dns(FleetDnsError::UnknownPeer));
        }
        let (mut rest, mut value) = taken_out(&self.health.failovers, i);
        reconfigure_failover(&mut value, valid, token_configured, now);
        let copy = value.duplicate();
        place(&mut rest, value);
        self.health.failovers = rest;
        Ok(Some(copy))
    }

    /// Removes a failover; whether there was one.
    pub fn delete_dns_failover(&mut self, writer: &FleetWriter<'_>, id: u128) -> (r: Result<
        bool,
        SharedFleetError,
    >)
        ensures
            match shared_failover_deleted(old(self)@, writer.refusal(), id) {
                Ok((after, deleted)) => r == Ok::<bool, SharedFleetError>(deleted) && final(self)@
                    == after,
                Err(error) => r == Err::<bool, SharedFleetError>(error) && final(self)@
                    == old(self)@,
            },
    {
        if let Err(error) = writer.fence() {
            return Err(error);
        }
        match self.health.delete_dns_failover(id) {
            Ok(deleted) => Ok(deleted),
            Err(error) => Err(SharedFleetError::Dns(error)),
        }
    }

    /// Freezes a failover or releases it.
    pub fn set_dns_frozen(
        &mut self,
        writer: &FleetWriter<'_>,
        id: u128,
        frozen: bool,
        reason: Option<&str>,
        now: u64,
    ) -> (r: Result<Option<FleetDnsFailover>, SharedFleetError>)
        ensures
            match shared_freeze_set(
                old(self)@,
                writer.refusal(),
                id,
                frozen,
                match reason {
                    Some(text) => Some(text@),
                    None => None,
                },
                now,
            ) {
                Ok((after, failover)) => r is Ok && final(self)@ == after && match r->Ok_0 {
                    Some(x) => failover == Some(x@),
                    None => failover is None,
                },
                Err(error) => r is Err && r->Err_0 == error && final(self)@ == old(self)@,
            },
    {
        if frozen {
            let text = summarize_error(
                match reason {
                    Some(text) => text,
                    None => "manual freeze",
                },
            );
            if text.as_str().is_empty() {
                return Err(SharedFleetError::Dns(FleetDnsError::FreezeReasonRequired));
            }
        }
        if let Err(error) = writer.fence() {
            return Err(error);
        }
        match self.health.set_dns_frozen(id, frozen, reason, now) {
            Ok(failover) => Ok(failover),
            Err(error) => Err(SharedFleetError::Dns(error)),
        }
    }

    /// Plans the DNS changes that are due, under the given identifiers.
    pub fn plan_dns_changes_as(
        &mut self,
        writer: &FleetWriter<'_>,
        stored: &Vec<FleetPeer>,
        now: u64,
        only: Option<u128>,
        fresh: &Vec<u128>,
    ) -> (r: Result<Vec<FleetDnsChangePlan>, SharedFleetError>)
        requires
            fresh@.len() >= old(self)@.failovers.len(),
        ensures
            match shared_planned(
                old(self)@,
                writer.refusal(),
                peer_models(stored@),
                now,
                only,
                fresh@,
            ) {
                Ok(fold) => r is Ok && plan_models(r->Ok_0@) == fold.plans && final(self)@
                    == after_planning(old(self)@, fold),
                Err(error) => r is Err && r->Err_0 == error && final(self)@ == old(self)@,
            },
    {
        if let Err(error) = writer.fence() {
            return Err(error);
        }
        Ok(self.health.plan_dns_changes_as(stored, now, only, fresh))
    }

    /// Plans the DNS changes that are due, each under a new random identifier.
    pub fn plan_dns_changes(
        &mut self,
        writer: &FleetWriter<'_>,
        stored: &Vec<FleetPeer>,
        now: u64,
        only: Option<u128>,
    ) -> (r: Result<Vec<FleetDnsChangePlan>, SharedFleetError>)
        ensures
            exists|fresh: Seq<u128>|
                {
                    &&& fresh.len() == old(self)@.failovers.len()
                    &&& forall|i: int| 0 <= i < fresh.len() ==> random_layout(#[trigger] fresh[i])
                    &&& match #[trigger] shared_planned(
                        old(self)@,
                        writer.refusal(),
                        peer_models(stored@),
                        now,
                        only,
                        fresh,
                    ) {
                        Ok(fold) => r is Ok && plan_models(r->Ok_0@) == fold.plans && final(self)@
                            == after_planning(old(self)@, fold),
                        Err(error) => r is Err && r->Err_0 == error && final(self)@ == old(self)@,
                    }
                },
    {
        let mut fresh: Vec<u128> = Vec::new();
        let mut i: usize = 0;
        while i < self.health.failovers.len()
            invariant
                i <= self.health.failovers@.len(),
                fresh@.len() == i,
                forall|j: int| 0 <= j < i ==> random_layout(#[trigger] fresh@[j]),
            decreases self.health.failovers@.len() - i,
        {
            fresh.push(new_uuid());
            i = i + 1;
        }
        self.plan_dns_changes_as(writer, stored, now, only, &fresh)
    }

    /// Records the outcome of a planned change.
    pub fn complete_dns_change(
        &mut self,
        writer: &FleetWriter<'_>,
        plan: &FleetDnsChangePlan,
        result: Result<(), &str>,
        now: u64,
    ) -> (r: Result<FleetDnsChangeResult, SharedFleetError>)
        ensures
            match shared_change_completed(
                old(self)@,
                writer.refusal(),
                plan@,
                failure_of(result),
                now,
            ) {
                Ok((after, outcome)) => r is Ok && r->Ok_0@ == outcome && final(self)@ == after,
                Err(error) => r is Err && r->Err_0 == error && final(self)@ == old(self)@,
            },
    {
        if let Err(error) = writer.fence() {
            return Err(error);
        }
        match self.health.complete_dns_change(plan, result, now) {
            Ok(outcome) => Ok(outcome),
            Err(error) => Err(SharedFleetError::Dns(error)),
        }
    }

    /// Forgets a peer that leaves the fleet.
    pub fn remove_peer_references(&mut self, writer: &FleetWriter<'_>, peer_id: u128) -> (r: Result<
        (),
        SharedFleetError,
    >)
        ensures
            match shared_peer_forgotten(old(self)@, writer.refusal(), peer_id) {
                Ok(after) => r is Ok && final(self)@ == after,
                Err(error) => r is Err && r->Err_0 == error && final(self)@ == old(self)@,
            },
    {
        if let Err(error) = writer.fence() {
            return Err(error);
        }
        self.health.remove_peer(peer_id);
        Ok(())
    }
}

// ---------------------------------------------------------------------------
// Laws
// ---------------------------------------------------------------------------

/// A process that does not believe that it leads, or that does not lead under
/// its token any more, changes nothing in the shared catalogue.
pub proof fn law_fenced_processes_change_nothing(
    c: CatalogModel,
    m: RuntimeModel,
    t: LeasesModel,
    process: CoordinatorModel,
    clock: u64,
    peers: Seq<FleetPeerModel>,
    stored: Seq<FleetPeerModel>,
    peer_id: u128,
    id: u128,
    config: UpdateFleetHealthConfig,
    o: FleetProbeObservationModel,
    request: UpsertFleetDnsFailoverModel,
    token_configured: bool,
    frozen: bool,
    reason: Option<Seq<char>>,
    only: Option<u128>,
    fresh: Seq<u128>,
    plan: FleetDnsChangePlanModel,
    failure: Option<Seq<char>>,
    now: u64,
)
    requires
        !m.leader || fence_error(t, process, m.fencing_token, clock) is Some,
    ensures
        ({
            let refusal = write_refusal(m, t, process, clock);
            &&& shared_peer_ensured(c, refusal, stored, peer_id, now) is Err
            &&& shared_config_updated(c, refusal, stored, peer_id, config, now) is Err
            &&& shared_probe_recorded(c, refusal, stored, peer_id, o) is Err
            &&& shared_failover_created(
                c,
                refusal,
                id,
                request,
                peers,
                stored,
                token_configured,
                now,
            ) is Err
            &&& shared_failover_updated(
                c,
                refusal,
                id,
                request,
                peers,
                stored,
                token_configured,
                now,
            ) is Err
            &&& shared_failover_deleted(c, refusal, id) is Err
            &&& shared_freeze_set(c, refusal, id, frozen, reason, now) is Err
            &&& shared_planned(c, refusal, stored, now, only, fresh) is Err
            &&& shared_change_completed(c, refusal, plan, failure, now) is Err
            &&& shared_peer_forgotten(c, refusal, peer_id) is Err
        }),
{
}

/// Two processes that may both write at one moment are the same process under
/// the same token.
pub proof fn law_one_process_writes(
    m1: RuntimeModel,
    m2: RuntimeModel,
    t: LeasesModel,
    c1: CoordinatorModel,
    c2: CoordinatorModel,
    clock: u64,
)
    requires
        write_refusal(m1, t, c1, clock) is None,
        write_refusal(m2, t, c2, clock) is None,
    ensures
        c1.instance_id == c2.instance_id,
        c1.incarnation_id == c2.incarnation_id,
        m1.fencing_token == m2.fencing_token,
{
}

/// A write is refused exactly if the process does not lead under a token, or its token
/// does not pass the fence.
pub proof fn law_writes_take_leadership_and_the_fence(
    m: RuntimeModel,
    t: LeasesModel,
    c: CoordinatorModel,
    clock: u64,
)
    ensures
        ({
            let r = write_refusal(m, t, c, clock);
            let leads = m.leader && m.fencing_token > 0;
            let fence = fence_error(t, c, m.fencing_token, clock);
            &&& r is None <==> leads && fence is None
            &&& !leads ==> r == Some(SharedFleetError::NotLeader)
            &&& leads && fence is Some ==> r == Some(SharedFleetError::Fence(fence->0))
        }),
{
}

/// Where a write is not refused, health is changed as in a catalog of one process. A
/// probe that would be accepted fails when the revisions are used up.
pub proof fn law_shared_health_changes_like_any_other(
    c: CatalogModel,
    peers: Seq<FleetPeerModel>,
    peer_id: u128,
    request: UpdateFleetHealthConfig,
    o: FleetProbeObservationModel,
    now: u64,
)
    ensures
        ({
            let r = shared_peer_ensured(c, None, peers, peer_id, now);
            &&& r is Ok <==> find_peer(peers, peer_id) is Some
            &&& r is Ok ==> r->Ok_0 == (CatalogModel {
                snapshots: with_snapshot(c.snapshots, peer_id, now),
                ..c
            })
            &&& r is Err ==> r->Err_0 == SharedFleetError::Health(FleetHealthError::PeerMissing)
        }),
        ({
            let r = shared_config_updated(c, None, peers, peer_id, request, now);
            let own = config_updated(c, peers, peer_id, request, now);
            &&& r is Ok <==> own is Ok
            &&& r is Ok ==> r->Ok_0 == own->Ok_0
            &&& r is Err ==> r->Err_0 == SharedFleetError::Health(own->Err_0)
        }),
        ({
            let r = shared_probe_recorded(c, None, peers, peer_id, o);
            let own = probe_recorded(c, peers, peer_id, o);
            let s = find_snapshot(c.snapshots, peer_id);
            let spent = s is Some && s->0.health.revision == 0xffff_ffff_ffff_ffff;
            &&& own is Err ==> r is Err && r->Err_0 == SharedFleetError::Health(own->Err_0)
            &&& own is Ok && own->Ok_0.1.accepted && spent ==> r is Err
                && r->Err_0 is RevisionExhausted
            &&& own is Ok && !(own->Ok_0.1.accepted && spent) ==> r is Ok && r->Ok_0 == own->Ok_0
        }),
{
}

/// Where a write is not refused, a failover is created for a sound request whose peers
/// are all stored, and is placed among the others by name.
pub proof fn law_shared_failovers_are_created_for_stored_peers(
    c: CatalogModel,
    id: u128,
    request: UpsertFleetDnsFailoverModel,
    peers: Seq<FleetPeerModel>,
    stored: Seq<FleetPeerModel>,
    token_configured: bool,
    now: u64,
)
    ensures
        ({
            let r = shared_failover_created(
                c,
                None,
                id,
                request,
                peers,
                stored,
                token_configured,
                now,
            );
            let checked = checked_failover(request, peers);
            let v = checked->Ok_0;
            let known = forall|i: int|
                0 <= i < v.targets.len() ==> find_peer(stored, (#[trigger] v.targets[i]).peer_id)
                    is Some;
            &&& r is Ok <==> checked is Ok && known
            &&& checked is Err ==> r->Err_0 == SharedFleetError::Dns(checked->Err_0)
            &&& checked is Ok && !known ==> r->Err_0 == SharedFleetError::Dns(
                FleetDnsError::UnknownPeer,
            )
            &&& r is Ok ==> r->Ok_0.1 == new_failover(id, v, token_configured, now) && r->Ok_0.0
                == (CatalogModel { failovers: placed(c.failovers, r->Ok_0.1), ..c })
        }),
{
}

/// Where a write is not refused, a failover is updated unless a change is under way or
/// a peer is not stored.
pub proof fn law_shared_failovers_are_updated_for_stored_peers(
    c: CatalogModel,
    id: u128,
    request: UpsertFleetDnsFailoverModel,
    peers: Seq<FleetPeerModel>,
    stored: Seq<FleetPeerModel>,
    token_configured: bool,
    now: u64,
)
    ensures
        ({
            let r = shared_failover_updated(
                c,
                None,
                id,
                request,
                peers,
                stored,
                token_configured,
                now,
            );
            let checked = checked_failover(request, peers);
            let v = checked->Ok_0;
            let at = first_id(failover_ids(c.failovers), id);
            let there = at < c.failovers.len();
            let busy = c.failovers[at].pending_operation_id is Some;
            let known = forall|i: int|
                0 <= i < v.targets.len() ==> find_peer(stored, (#[trigger] v.targets[i]).peer_id)
                    is Some;
            &&& checked is Err ==> r is Err && r->Err_0 == SharedFleetError::Dns(checked->Err_0)
            &&& checked is Ok && !there ==> r is Ok && r->Ok_0.1 is None && r->Ok_0.0 == c
            &&& checked is Ok && there && busy ==> r is Err && r->Err_0 == SharedFleetError::Dns(
                FleetDnsError::OperationPending,
            )
            &&& checked is Ok && there && !busy && !known ==> r is Err && r->Err_0
                == SharedFleetError::Dns(FleetDnsError::UnknownPeer)
            &&& checked is Ok && there && !busy && known ==> r is Ok && r->Ok_0.1 == Some(
                replaced_failover(c.failovers[at], v, token_configured, now),
            ) && r->Ok_0.0 == (CatalogModel {
                failovers: placed(c.failovers.remove(at), r->Ok_0.1->0),
                ..c
            })
        }),
{
}

/// Where a write is not refused, failovers are deleted, frozen, planned for and
/// completed, and peers forgotten, as in a catalog of one process.
pub proof fn law_shared_failovers_change_like_any_other(
    c: CatalogModel,
    id: u128,
    frozen: bool,
    reason: Option<Seq<char>>,
    stored: Seq<FleetPeerModel>,
    only: Option<u128>,
    fresh: Seq<u128>,
    plan: FleetDnsChangePlanModel,
    failure: Option<Seq<char>>,
    peer_id: u128,
    now: u64,
)
    ensures
        ({
            let r = shared_failover_deleted(c, None, id);
            let own = failover_deleted(c, id);
            &&& r is Ok <==> own is Ok
            &&& r is Ok ==> r->Ok_0 == own->Ok_0
            &&& r is Err ==> r->Err_0 == SharedFleetError::Dns(own->Err_0)
        }),
        ({
            let r = shared_freeze_set(c, None, id, frozen, reason, now);
            let own = freeze_set(c, id, frozen, reason, now);
            &&& r is Ok <==> own is Ok
            &&& r is Ok ==> r->Ok_0 == own->Ok_0
            &&& r is Err ==> r->Err_0 == SharedFleetError::Dns(own->Err_0)
        }),
        ({
            let r = shared_change_completed(c, None, plan, failure, now);
            let own = change_completed(c, plan, failure, now);
            &&& r is Ok <==> own is Ok
            &&& r is Ok ==> r->Ok_0 == own->Ok_0
            &&& r is Err ==> r->Err_0 == SharedFleetError::Dns(own->Err_0)
        }),
        shared_planned(c, None, stored, now, only, fresh) == Ok::<PlanFold, SharedFleetError>(
            planned(c.failovers, stored, c.snapshots, now, only, fresh, c.failovers.len()),
        ),
        shared_peer_forgotten(c, None, peer_id) == Ok::<CatalogModel, SharedFleetError>(
            peer_forgotten(c, peer_id),
        ),
{
}

} // verus!
