//! The recorded health of a fleet together with its DNS failovers.
//!
//! The catalog holds what is remembered between calls. Peers are looked up in
//! the fleet directory, which each call receives as it is at that moment.

use crate::fleet::{find_peer, peer_models, peer_position, FleetPeer, FleetPeerModel};
use crate::fleet_dns::{
    checked_failover, plan_failover, plan_step, validate_dns_failover, without_pending,
    clear_pending, FleetDnsChangePlan, FleetDnsChangePlanModel, FleetDnsChangeResult,
    FleetDnsChangeResultModel, FleetDnsError, FleetDnsFailover, FleetDnsFailoverModel,
    FleetDnsPeerTarget, FleetDnsPeerTargetModel, FleetDnsSwitchEvent, FleetDnsSwitchEventModel,
    UpsertFleetDnsFailover, UpsertFleetDnsFailoverModel, target_models,
};
use crate::fleet_health::{
    apply_probe, config_error, count_probe, counted_probe, error_summary, event_of, event_position,
    find_snapshot, initial_snapshot, keep_events, kept_events, new_event, new_snapshot,
    probe_event_ids, probe_event_models, probed, reconfigured, sat_add, snapshot_ids,
    snapshot_models, snapshot_position, stale_probe, summarize_error, validate_health_config,
    FleetHealthConfig, FleetHealthCounters, FleetHealthError, FleetHealthSnapshot,
    FleetHealthSnapshotModel, FleetHealthState, FleetProbeEvent, FleetProbeEventModel,
    FleetProbeObservation, FleetProbeObservationModel, FleetProbeResult, FleetProbeResultModel,
    UpdateFleetHealthConfig,
};
use crate::ids::{first_id, lemma_first_id, lemma_first_id_unique};
use crate::text::{lex_less, optional_is, text_before, copy_optional};
use crate::uuids::{new_uuid, random_layout};
use std::collections::HashMap;
use vstd::prelude::*;
use vstd::string::*;

verus! {

broadcast use vstd::std_specs::hash::group_hash_axioms;

/// What is remembered about the health of a fleet and its DNS failovers.
///
/// Failovers are kept in the order of their names, probes and DNS changes in
/// the order in which they were recorded.
#[derive(Debug)]
pub struct FleetHealthCatalog {
    pub snapshots: Vec<FleetHealthSnapshot>,
    pub probe_events: Vec<FleetProbeEvent>,
    pub failovers: Vec<FleetDnsFailover>,
    pub switch_events: Vec<FleetDnsSwitchEvent>,
    pub counters: FleetHealthCounters,
}

/// What a [`FleetHealthCatalog`] says.
pub struct CatalogModel {
    pub snapshots: Seq<FleetHealthSnapshotModel>,
    pub probe_events: Seq<FleetProbeEventModel>,
    pub failovers: Seq<FleetDnsFailoverModel>,
    pub switch_events: Seq<FleetDnsSwitchEventModel>,
    pub counters: FleetHealthCounters,
}

pub open spec fn failover_models(v: Seq<FleetDnsFailover>) -> Seq<FleetDnsFailoverModel> {
    v.map_values(|x: FleetDnsFailover| x@)
}

pub open spec fn switch_event_models(v: Seq<FleetDnsSwitchEvent>) -> Seq<FleetDnsSwitchEventModel> {
    v.map_values(|x: FleetDnsSwitchEvent| x@)
}

impl View for FleetHealthCatalog {
    type V = CatalogModel;

    open spec fn view(&self) -> CatalogModel {
        CatalogModel {
            snapshots: snapshot_models(self.snapshots@),
            probe_events: probe_event_models(self.probe_events@),
            failovers: failover_models(self.failovers@),
            switch_events: switch_event_models(self.switch_events@),
            counters: self.counters,
        }
    }
}

pub open spec fn failover_ids(s: Seq<FleetDnsFailoverModel>) -> Seq<u128> {
    s.map_values(|x: FleetDnsFailoverModel| x.id)
}

pub open spec fn operation_ids(s: Seq<FleetDnsSwitchEventModel>) -> Seq<u128> {
    s.map_values(|x: FleetDnsSwitchEventModel| x.operation_id)
}

pub open spec fn find_failover(s: Seq<FleetDnsFailoverModel>, id: u128) -> Option<
    FleetDnsFailoverModel,
> {
    let i = first_id(failover_ids(s), id);
    if i < s.len() {
        Some(s[i])
    } else {
        None
    }
}

pub(crate) fn failover_position(v: &Vec<FleetDnsFailover>, id: u128) -> (r: Option<usize>)
    ensures
        match r {
            Some(i) => i < v@.len() && i == first_id(failover_ids(failover_models(v@)), id)
                && v@[i as int].id == id,
            None => first_id(failover_ids(failover_models(v@)), id) == v@.len(),
        },
{
    let ghost ids = failover_ids(failover_models(v@));
    assert(ids.len() == v@.len());
    assert(forall|j: int| 0 <= j < v@.len() ==> ids[j] == v@[j].id);
    let mut i: usize = 0;
    while i < v.len()
        invariant
            i <= v@.len(),
            ids == failover_ids(failover_models(v@)),
            ids.len() == v@.len(),
            forall|j: int| 0 <= j < v@.len() ==> ids[j] == v@[j].id,
            forall|j: int| 0 <= j < i ==> ids[j] != id,
        decreases v@.len() - i,
    {
        if v[i].id == id {
            proof {
                lemma_first_id_unique(ids, id, i as int);
            }
            return Some(i);
        }
        i = i + 1;
    }
    proof {
        lemma_first_id_unique(ids, id, v@.len() as int);
    }
    None
}

fn operation_position(v: &Vec<FleetDnsSwitchEvent>, id: u128) -> (r: Option<usize>)
    ensures
        match r {
            Some(i) => i < v@.len() && i == first_id(operation_ids(switch_event_models(v@)), id)
                && v@[i as int].operation_id == id,
            None => first_id(operation_ids(switch_event_models(v@)), id) == v@.len(),
        },
{
    let ghost ids = operation_ids(switch_event_models(v@));
    assert(ids.len() == v@.len());
    assert(forall|j: int| 0 <= j < v@.len() ==> ids[j] == v@[j].operation_id);
    let mut i: usize = 0;
    while i < v.len()
        invariant
            i <= v@.len(),
            ids == operation_ids(switch_event_models(v@)),
            ids.len() == v@.len(),
            forall|j: int| 0 <= j < v@.len() ==> ids[j] == v@[j].operation_id,
            forall|j: int| 0 <= j < i ==> ids[j] != id,
        decreases v@.len() - i,
    {
        if v[i].operation_id == id {
            proof {
                lemma_first_id_unique(ids, id, i as int);
            }
            return Some(i);
        }
        i = i + 1;
    }
    proof {
        lemma_first_id_unique(ids, id, v@.len() as int);
    }
    None
}

// ---------------------------------------------------------------------------
// Recording health
// ---------------------------------------------------------------------------

/// The snapshots with one for the peer.
pub open spec fn with_snapshot(s: Seq<FleetHealthSnapshotModel>, peer_id: u128, now: u64) -> Seq<
    FleetHealthSnapshotModel,
> {
    if find_snapshot(s, peer_id) is Some {
        s
    } else {
        s.push(initial_snapshot(peer_id, now))
    }
}

/// The catalog with one snapshot replaced.
pub open spec fn set_snapshot(
    c: CatalogModel,
    peer_id: u128,
    snapshot: FleetHealthSnapshotModel,
) -> CatalogModel {
    CatalogModel {
        snapshots: c.snapshots.update(first_id(snapshot_ids(c.snapshots), peer_id), snapshot),
        ..c
    }
}

/// Changing how the health of a peer is judged.
pub open spec fn config_updated(
    c: CatalogModel,
    peers: Seq<FleetPeerModel>,
    peer_id: u128,
    request: UpdateFleetHealthConfig,
    now: u64,
) -> Result<(CatalogModel, FleetHealthSnapshotModel), FleetHealthError> {
    match config_error(request) {
        Some(error) => Err(error),
        None => if find_peer(peers, peer_id) is None {
            Err(FleetHealthError::PeerMissing)
        } else {
            let ensured = CatalogModel {
                snapshots: with_snapshot(c.snapshots, peer_id, now),
                ..c
            };
            let snapshot = reconfigured(
                find_snapshot(ensured.snapshots, peer_id)->0,
                peer_id,
                request,
                now,
            );
            Ok((set_snapshot(ensured, peer_id, snapshot), snapshot))
        },
    }
}

/// Whether a recorded probe is the one observed.
pub open spec fn same_probe(
    e: FleetProbeEventModel,
    peer_id: u128,
    o: FleetProbeObservationModel,
) -> bool {
    e.peer_id == peer_id && e.observed_unix_seconds == o.observed_unix_seconds && e.success
        == o.success
}

/// The catalog with one more probe in its history.
pub open spec fn remember_probe(
    c: CatalogModel,
    peer_id: u128,
    o: FleetProbeObservationModel,
    accepted: bool,
    previous: FleetHealthState,
    resulting: FleetHealthState,
    reason: Seq<char>,
) -> CatalogModel {
    CatalogModel {
        probe_events: kept_events(
            c.probe_events.push(event_of(peer_id, o, accepted, previous, resulting, reason)),
            peer_id,
        ),
        counters: counted_probe(c.counters, o.success, accepted, previous, resulting),
        ..c
    }
}

/// Recording a probe.
///
/// A probe whose identifier is known changes nothing, and is refused where it
/// says something else. A probe older than the last one is remembered only. Any
/// other moves the health of the peer on.
pub open spec fn probe_recorded(
    c: CatalogModel,
    peers: Seq<FleetPeerModel>,
    peer_id: u128,
    o: FleetProbeObservationModel,
) -> Result<(CatalogModel, FleetProbeResultModel), FleetHealthError> {
    if find_peer(peers, peer_id) is None {
        Err(FleetHealthError::PeerMissing)
    } else {
        let ensured = CatalogModel {
            snapshots: with_snapshot(c.snapshots, peer_id, o.observed_unix_seconds),
            ..c
        };
        let current = find_snapshot(ensured.snapshots, peer_id)->0;
        let known = first_id(probe_event_ids(c.probe_events), o.event_id);
        if known < c.probe_events.len() {
            if same_probe(c.probe_events[known], peer_id, o) {
                Ok(
                    (
                        ensured,
                        FleetProbeResultModel {
                            peer_id,
                            accepted: false,
                            duplicate: true,
                            previous_state: current.health.state,
                            health: current.health,
                            transition_reason: "duplicate_event_ignored"@,
                        },
                    ),
                )
            } else {
                Err(FleetHealthError::EventConflict)
            }
        } else if stale_probe(current.health, o) {
            let state = current.health.state;
            Ok(
                (
                    remember_probe(
                        ensured,
                        peer_id,
                        o,
                        false,
                        state,
                        state,
                        "stale_event_ignored"@,
                    ),
                    FleetProbeResultModel {
                        peer_id,
                        accepted: false,
                        duplicate: false,
                        previous_state: state,
                        health: current.health,
                        transition_reason: "stale_event_ignored"@,
                    },
                ),
            )
        } else {
            let health = probed(current, o);
            let moved = set_snapshot(
                ensured,
                peer_id,
                FleetHealthSnapshotModel { health, ..current },
            );
            Ok(
                (
                    remember_probe(
                        moved,
                        peer_id,
                        o,
                        true,
                        current.health.state,
                        health.state,
                        health.last_transition_reason,
                    ),
                    FleetProbeResultModel {
                        peer_id,
                        accepted: true,
                        duplicate: false,
                        previous_state: current.health.state,
                        health,
                        transition_reason: health.last_transition_reason,
                    },
                ),
            )
        }
    }
}

impl FleetHealthCatalog {
    /// An empty catalog.
    pub fn new() -> (r: Self)
        ensures
            r@ == (CatalogModel {
                snapshots: Seq::empty(),
                probe_events: Seq::empty(),
                failovers: Seq::empty(),
                switch_events: Seq::empty(),
                counters: FleetHealthCounters {
                    probe_events_total: 0,
                    probe_failures_total: 0,
                    health_transitions_total: 0,
                    dns_switches_total: 0,
                    dns_switch_failures_total: 0,
                },
            }),
    {
        let r = FleetHealthCatalog {
            snapshots: Vec::new(),
            probe_events: Vec::new(),
            failovers: Vec::new(),
            switch_events: Vec::new(),
            counters: FleetHealthCounters {
                probe_events_total: 0,
                probe_failures_total: 0,
                health_transitions_total: 0,
                dns_switches_total: 0,
                dns_switch_failures_total: 0,
            },
        };
        assert(r@.snapshots =~= Seq::empty());
        assert(r@.probe_events =~= Seq::empty());
        assert(r@.failovers =~= Seq::empty());
        assert(r@.switch_events =~= Seq::empty());
        r
    }

    fn add_snapshot(&mut self, peer_id: u128, now: u64) -> (r: usize)
        ensures
            final(self)@ == (CatalogModel {
                snapshots: with_snapshot(old(self)@.snapshots, peer_id, now),
                ..old(self)@
            }),
            r < final(self).snapshots@.len(),
            r == first_id(snapshot_ids(final(self)@.snapshots), peer_id),
            find_snapshot(final(self)@.snapshots, peer_id) == Some(
                final(self).snapshots@[r as int]@,
            ),
    {
        let ghost before = self@.snapshots;
        match snapshot_position(&self.snapshots, peer_id) {
            Some(i) => {
                assert(self@.snapshots[i as int] == self.snapshots@[i as int]@);
                i
            },
            None => {
                let snapshot = new_snapshot(peer_id, now);
                let ghost sm = snapshot@;
                let i: usize = self.snapshots.len();
                self.snapshots.push(snapshot);
                proof {
                    assert(self@.snapshots =~= before.push(sm));
                    let ids = snapshot_ids(self@.snapshots);
                    lemma_first_id(snapshot_ids(before), peer_id);
                    assert forall|j: int| 0 <= j < i implies ids[j] != peer_id by {
                        assert(ids[j] == snapshot_ids(before)[j]);
                    }
                    lemma_first_id_unique(ids, peer_id, i as int);
                }
                i
            },
        }
    }

    /// Makes sure that a known peer has a snapshot.
    pub fn ensure_peer(&mut self, peers: &Vec<FleetPeer>, peer_id: u128, now: u64) -> (r: Result<
        (),
        FleetHealthError,
    >)
        ensures
            if find_peer(peer_models(peers@), peer_id) is None {
                r == Err::<(), FleetHealthError>(FleetHealthError::PeerMissing) && final(self)@
                    == old(self)@
            } else {
                r is Ok && final(self)@ == (CatalogModel {
                    snapshots: with_snapshot(old(self)@.snapshots, peer_id, now),
                    ..old(self)@
                })
            },
    {
        if peer_position(peers, peer_id).is_none() {
            return Err(FleetHealthError::PeerMissing);
        }
        let _at: usize = self.add_snapshot(peer_id, now);
        Ok(())
    }

    /// The snapshot of a peer.
    pub fn snapshot(&self, peer_id: u128) -> (r: Option<FleetHealthSnapshot>)
        ensures
            match find_snapshot(self@.snapshots, peer_id) {
                Some(snapshot) => r is Some && r->0@ == snapshot,
                None => r is None,
            },
    {
        match snapshot_position(&self.snapshots, peer_id) {
            Some(i) => {
                assert(self@.snapshots[i as int] == self.snapshots@[i as int]@);
                Some(self.snapshots[i].duplicate())
            },
            None => None,
        }
    }

    /// All snapshots by peer.
    pub fn snapshots(&self) -> (r: HashMap<u128, FleetHealthSnapshot>)
        ensures
            forall|id: u128| #[trigger]
                r@.contains_key(id) == (find_snapshot(self@.snapshots, id) is Some),
            forall|id: u128|
                r@.contains_key(id) ==> (#[trigger] r@[id])@ == find_snapshot(
                    self@.snapshots,
                    id,
                )->0,
    {
        let ghost s = self@.snapshots;
        let ghost ids = snapshot_ids(s);
        let mut out: HashMap<u128, FleetHealthSnapshot> = HashMap::new();
        let mut i: usize = self.snapshots.len();
        while i > 0
            invariant
                i <= self.snapshots@.len(),
                s == snapshot_models(self.snapshots@),
                ids == snapshot_ids(s),
                forall|id: u128| #[trigger]
                    out@.contains_key(id) == (first_id(ids.skip(i as int), id) < ids.len() - i),
                forall|id: u128|
                    out@.contains_key(id) ==> (#[trigger] out@[id])@ == s[i + first_id(
                        ids.skip(i as int),
                        id,
                    )],
            decreases i,
        {
            i = i - 1;
            let copy = self.snapshots[i].duplicate();
            proof {
                assert(s[i as int] == self.snapshots@[i as int]@);
                assert(ids[i as int] == copy@.health.peer_id);
                let tail = ids.skip(i as int);
                assert(tail.drop_first() =~= ids.skip(i + 1));
            }
            out.insert(copy.health.peer_id, copy);
        }
        assert(ids.skip(0) =~= ids);
        out
    }

    /// Changes how the health of a peer is judged, and returns its snapshot.
    pub fn update_health_config(
        &mut self,
        peers: &Vec<FleetPeer>,
        peer_id: u128,
        request: UpdateFleetHealthConfig,
        now: u64,
    ) -> (r: Result<Option<FleetHealthSnapshot>, FleetHealthError>)
        ensures
            match config_updated(old(self)@, peer_models(peers@), peer_id, request, now) {
                Ok((after, snapshot)) => r is Ok && r->Ok_0 is Some && r->Ok_0->0@ == snapshot
                    && final(self)@ == after,
                Err(error) => r is Err && r->Err_0 == error && final(self)@ == old(self)@,
            },
    {
        match validate_health_config(&request) {
            Ok(()) => {},
            Err(error) => {
                return Err(error);
            },
        }
        if peer_position(peers, peer_id).is_none() {
            return Err(FleetHealthError::PeerMissing);
        }
        let i: usize = self.add_snapshot(peer_id, now);
        let ghost ensured = self@;
        let mut snapshot = self.snapshots[i].duplicate();
        snapshot.config = FleetHealthConfig {
            peer_id,
            success_threshold: request.success_threshold,
            failure_threshold: request.failure_threshold,
            cooldown_seconds: request.cooldown_seconds,
            updated_unix_seconds: now,
        };
        snapshot.health.cooldown_until_unix_seconds = snapshot.health.state_changed_unix_seconds.saturating_add(
            request.cooldown_seconds as u64,
        );
        let copy = snapshot.duplicate();
        let ghost before = self.snapshots@;
        self.snapshots.set(i, snapshot);
        assert(snapshot_models(self.snapshots@) =~= snapshot_models(before).update(
            i as int,
            copy@,
        ));
        Ok(Some(copy))
    }

    fn remember(
        &mut self,
        peer_id: u128,
        o: &FleetProbeObservation,
        accepted: bool,
        previous: FleetHealthState,
        resulting: FleetHealthState,
        reason: &str,
    )
        ensures
            final(self)@ == remember_probe(
                old(self)@,
                peer_id,
                o@,
                accepted,
                previous,
                resulting,
                reason@,
            ),
    {
        let event = new_event(peer_id, o, accepted, previous, resulting, reason);
        let ghost em = event@;
        let ghost before = self.probe_events@;
        self.probe_events.push(event);
        assert(probe_event_models(self.probe_events@) =~= probe_event_models(before).push(em));
        keep_events(&mut self.probe_events, peer_id);
        self.counters = count_probe(self.counters, o.success, accepted, previous, resulting);
    }

    /// Records a probe of a peer.
    pub fn record_probe(
        &mut self,
        peers: &Vec<FleetPeer>,
        peer_id: u128,
        observation: &FleetProbeObservation,
    ) -> (r: Result<FleetProbeResult, FleetHealthError>)
        ensures
            match probe_recorded(old(self)@, peer_models(peers@), peer_id, observation@) {
                Ok((after, result)) => r is Ok && r->Ok_0@ == result && final(self)@ == after,
                Err(error) => r is Err && r->Err_0 == error && final(self)@ == old(self)@,
            },
    {
        if peer_position(peers, peer_id).is_none() {
            return Err(FleetHealthError::PeerMissing);
        }
        let known = event_position(&self.probe_events, observation.event_id);
        if let Some(e) = known {
            let event = &self.probe_events[e];
            assert(self@.probe_events[e as int] == event@);
            if !(event.peer_id == peer_id && event.observed_unix_seconds
                == observation.observed_unix_seconds && event.success == observation.success) {
                return Err(FleetHealthError::EventConflict);
            }
        }
        let i: usize = self.add_snapshot(peer_id, observation.observed_unix_seconds);
        let current = self.snapshots[i].duplicate();
        let state = current.health.state;
        if known.is_some() {
            return Ok(
                FleetProbeResult {
                    peer_id,
                    accepted: false,
                    duplicate: true,
                    previous_state: state,
                    health: current.health,
                    transition_reason: "duplicate_event_ignored".to_owned(),
                },
            );
        }
        let stale = match current.health.last_probe_unix_seconds {
            Some(last) => observation.observed_unix_seconds < last,
            None => false,
        };
        if stale {
            self.remember(peer_id, observation, false, state, state, "stale_event_ignored");
            return Ok(
                FleetProbeResult {
                    peer_id,
                    accepted: false,
                    duplicate: false,
                    previous_state: state,
                    health: current.health,
                    transition_reason: "stale_event_ignored".to_owned(),
                },
            );
        }
        let health = apply_probe(&current, observation);
        let resulting = health.state;
        let reason = health.last_transition_reason.clone();
        let result_health = health.duplicate();
        let snapshot = FleetHealthSnapshot { config: current.config, health };
        let ghost sm = snapshot@;
        let ghost before = self.snapshots@;
        self.snapshots.set(i, snapshot);
        assert(snapshot_models(self.snapshots@) =~= snapshot_models(before).update(i as int, sm));
        self.remember(peer_id, observation, true, state, resulting, reason.as_str());
        Ok(
            FleetProbeResult {
                peer_id,
                accepted: true,
                duplicate: false,
                previous_state: state,
                health: result_health,
                transition_reason: reason,
            },
        )
    }
}

// ---------------------------------------------------------------------------
// Failovers
// ---------------------------------------------------------------------------

/// Where a failover goes: before the first one with a greater name.
pub open spec fn name_position(s: Seq<FleetDnsFailoverModel>, name: Seq<char>) -> int
    decreases s.len(),
{
    if s.len() == 0 || lex_less(name, s[0].name) {
        0
    } else {
        1 + name_position(s.drop_first(), name)
    }
}

/// The list with a failover in its place.
pub open spec fn placed(s: Seq<FleetDnsFailoverModel>, f: FleetDnsFailoverModel) -> Seq<
    FleetDnsFailoverModel,
> {
    s.insert(name_position(s, f.name), f)
}

/// Names and host names are not shared.
pub open spec fn taken(s: Seq<FleetDnsFailoverModel>, request: UpsertFleetDnsFailoverModel) -> Option<
    FleetDnsError,
> {
    if exists|i: int| 0 <= i < s.len() && (#[trigger] s[i]).name == request.name {
        Some(FleetDnsError::NameTaken)
    } else if exists|i: int| 0 <= i < s.len() && (#[trigger] s[i]).hostname == request.hostname {
        Some(FleetDnsError::HostnameTaken)
    } else {
        None
    }
}

/// A new failover: it has directed its record nowhere yet.
pub open spec fn new_failover(
    id: u128,
    request: UpsertFleetDnsFailoverModel,
    token_configured: bool,
    now: u64,
) -> FleetDnsFailoverModel {
    FleetDnsFailoverModel {
        id,
        name: request.name,
        hostname: request.hostname,
        record_type: request.record_type,
        zone_id: request.zone_id,
        record_id: request.record_id,
        token_env: request.token_env,
        token_configured,
        ttl: request.ttl,
        proxied: request.proxied,
        enabled: request.enabled,
        reconcile_required: true,
        cooldown_seconds: request.cooldown_seconds,
        frozen: false,
        freeze_reason: None,
        current_peer_id: None,
        current_target: None,
        last_switch_unix_seconds: None,
        next_change_not_before_unix_seconds: now,
        last_switch_reason: None,
        last_error_summary: None,
        pending_operation_id: None,
        pending_peer_id: None,
        pending_target: None,
        pending_reason: None,
        pending_started_unix_seconds: None,
        pending_lease_until_unix_seconds: None,
        targets: request.targets,
        created_unix_seconds: now,
        updated_unix_seconds: now,
    }
}

/// A failover after a change of its configuration: the record has to be written
/// again.
pub open spec fn replaced_failover(
    f: FleetDnsFailoverModel,
    request: UpsertFleetDnsFailoverModel,
    token_configured: bool,
    now: u64,
) -> FleetDnsFailoverModel {
    FleetDnsFailoverModel {
        name: request.name,
        hostname: request.hostname,
        record_type: request.record_type,
        zone_id: request.zone_id,
        record_id: request.record_id,
        token_env: request.token_env,
        token_configured,
        ttl: request.ttl,
        proxied: request.proxied,
        enabled: request.enabled,
        cooldown_seconds: request.cooldown_seconds,
        targets: request.targets,
        reconcile_required: true,
        updated_unix_seconds: now,
        ..f
    }
}

/// Adding a failover.
pub open spec fn failover_created(
    c: CatalogModel,
    id: u128,
    request: UpsertFleetDnsFailoverModel,
    peers: Seq<FleetPeerModel>,
    token_configured: bool,
    now: u64,
) -> Result<(CatalogModel, FleetDnsFailoverModel), FleetDnsError> {
    match checked_failover(request, peers) {
        Err(error) => Err(error),
        Ok(valid) => match taken(c.failovers, valid) {
            Some(error) => Err(error),
            None => {
                let f = new_failover(id, valid, token_configured, now);
                Ok((CatalogModel { failovers: placed(c.failovers, f), ..c }, f))
            },
        },
    }
}

/// Replacing the configuration of a failover, which no change may be pending
/// for.
pub open spec fn failover_updated(
    c: CatalogModel,
    id: u128,
    request: UpsertFleetDnsFailoverModel,
    peers: Seq<FleetPeerModel>,
    token_configured: bool,
    now: u64,
) -> Result<(CatalogModel, Option<FleetDnsFailoverModel>), FleetDnsError> {
    match checked_failover(request, peers) {
        Err(error) => Err(error),
        Ok(valid) => {
            let i = first_id(failover_ids(c.failovers), id);
            if i >= c.failovers.len() {
                Ok((c, None))
            } else if c.failovers[i].pending_operation_id is Some {
                Err(FleetDnsError::OperationPending)
            } else {
                let rest = c.failovers.remove(i);
                match taken(rest, valid) {
                    Some(error) => Err(error),
                    None => {
                        let f = replaced_failover(c.failovers[i], valid, token_configured, now);
                        Ok((CatalogModel { failovers: placed(rest, f), ..c }, Some(f)))
                    },
                }
            }
        },
    }
}

/// The history without the changes of a failover.
pub open spec fn events_without(s: Seq<FleetDnsSwitchEventModel>, failover_id: u128) -> Seq<
    FleetDnsSwitchEventModel,
>
    decreases s.len(),
{
    if s.len() == 0 {
        s
    } else if s.last().failover_id == failover_id {
        events_without(s.drop_last(), failover_id)
    } else {
        events_without(s.drop_last(), failover_id).push(s.last())
    }
}

/// Removing a failover, which no change may be pending for, with its history.
pub open spec fn failover_deleted(c: CatalogModel, id: u128) -> Result<
    (CatalogModel, bool),
    FleetDnsError,
> {
    let i = first_id(failover_ids(c.failovers), id);
    if i >= c.failovers.len() {
        Ok((c, false))
    } else if c.failovers[i].pending_operation_id is Some {
        Err(FleetDnsError::OperationPending)
    } else {
        Ok(
            (
                CatalogModel {
                    failovers: c.failovers.remove(i),
                    switch_events: events_without(c.switch_events, id),
                    ..c
                },
                true,
            ),
        )
    }
}

/// Freezing a failover or releasing it.
pub open spec fn freeze_set(
    c: CatalogModel,
    id: u128,
    frozen: bool,
    reason: Option<Seq<char>>,
    now: u64,
) -> Result<(CatalogModel, Option<FleetDnsFailoverModel>), FleetDnsError> {
    let text = error_summary(
        match reason {
            Some(t) => t,
            None => "manual freeze"@,
        },
    );
    let i = first_id(failover_ids(c.failovers), id);
    if frozen && text.len() == 0 {
        Err(FleetDnsError::FreezeReasonRequired)
    } else if i >= c.failovers.len() {
        Ok((c, None))
    } else {
        let f = FleetDnsFailoverModel {
            frozen,
            freeze_reason: if frozen {
                Some(text)
            } else {
                None
            },
            updated_unix_seconds: now,
            ..c.failovers[i]
        };
        Ok((CatalogModel { failovers: c.failovers.update(i, f), ..c }, Some(f)))
    }
}

fn find_taken(v: &Vec<FleetDnsFailover>, request: &UpsertFleetDnsFailover) -> (r: Option<
    FleetDnsError,
>)
    ensures
        r == taken(failover_models(v@), request@),
{
    let ghost s = failover_models(v@);
    let mut host = false;
    let mut i: usize = 0;
    while i < v.len()
        invariant
            i <= v@.len(),
            s == failover_models(v@),
            forall|j: int| 0 <= j < i ==> (#[trigger] s[j]).name != request@.name,
            host == exists|j: int| 0 <= j < i && (#[trigger] s[j]).hostname == request@.hostname,
        decreases v@.len() - i,
    {
        assert(s[i as int] == v@[i as int]@);
        if v[i].name == request.name {
            return Some(FleetDnsError::NameTaken);
        }
        if v[i].hostname == request.hostname {
            assert(s[i as int].hostname == request@.hostname);
            host = true;
        }
        i = i + 1;
    }
    if host {
        Some(FleetDnsError::HostnameTaken)
    } else {
        None
    }
}

/// A failover that has directed its record nowhere yet.
pub(crate) fn fresh_failover(
    id: u128,
    valid: UpsertFleetDnsFailover,
    token_configured: bool,
    now: u64,
) -> (r: FleetDnsFailover)
    ensures
        r@ == new_failover(id, valid@, token_configured, now),
{
    FleetDnsFailover {
        id,
        name: valid.name,
        hostname: valid.hostname,
        record_type: valid.record_type,
        zone_id: valid.zone_id,
        record_id: valid.record_id,
        token_env: valid.token_env,
        token_configured,
        ttl: valid.ttl,
        proxied: valid.proxied,
        enabled: valid.enabled,
        reconcile_required: true,
        cooldown_seconds: valid.cooldown_seconds,
        frozen: false,
        freeze_reason: None,
        current_peer_id: None,
        current_target: None,
        last_switch_unix_seconds: None,
        next_change_not_before_unix_seconds: now,
        last_switch_reason: None,
        last_error_summary: None,
        pending_operation_id: None,
        pending_peer_id: None,
        pending_target: None,
        pending_reason: None,
        pending_started_unix_seconds: None,
        pending_lease_until_unix_seconds: None,
        targets: valid.targets,
        created_unix_seconds: now,
        updated_unix_seconds: now,
    }
}

/// Replaces the configuration of a failover.
pub(crate) fn reconfigure_failover(
    value: &mut FleetDnsFailover,
    valid: UpsertFleetDnsFailover,
    token_configured: bool,
    now: u64,
)
    ensures
        final(value)@ == replaced_failover(old(value)@, valid@, token_configured, now),
{
    value.name = valid.name;
    value.hostname = valid.hostname;
    value.record_type = valid.record_type;
    value.zone_id = valid.zone_id;
    value.record_id = valid.record_id;
    value.token_env = valid.token_env;
    value.token_configured = token_configured;
    value.ttl = valid.ttl;
    value.proxied = valid.proxied;
    value.enabled = valid.enabled;
    value.cooldown_seconds = valid.cooldown_seconds;
    value.targets = valid.targets;
    value.reconcile_required = true;
    value.updated_unix_seconds = now;
}

/// A failover, and the others.
pub(crate) fn taken_out(v: &Vec<FleetDnsFailover>, i: usize) -> (r: (
    Vec<FleetDnsFailover>,
    FleetDnsFailover,
))
    requires
        i < v@.len(),
    ensures
        failover_models(r.0@) == failover_models(v@).remove(i as int),
        r.1@ == failover_models(v@)[i as int],
{
    let mut rest = FleetDnsFailover::duplicate_all(v);
    let ghost all = rest@;
    assert(failover_models(all) == failover_models(v@));
    assert(all.len() == v@.len()) by {
        assert(failover_models(all).len() == all.len());
    }
    let value = rest.remove(i);
    assert(failover_models(rest@) =~= failover_models(v@).remove(i as int)) by {
        assert forall|j: int| 0 <= j < rest@.len() implies failover_models(rest@)[j]
            == failover_models(v@).remove(i as int)[j] by {
            let k = if j < i {
                j
            } else {
                j + 1
            };
            assert(rest@[j] == all[k]);
            assert(failover_models(all)[k] == all[k]@);
        }
    }
    assert(value@ == failover_models(v@)[i as int]) by {
        assert(failover_models(all)[i as int] == all[i as int]@);
    }
    (rest, value)
}

/// Puts a failover at its place by name.
pub(crate) fn place(v: &mut Vec<FleetDnsFailover>, f: FleetDnsFailover)
    ensures
        failover_models(final(v)@) == placed(failover_models(old(v)@), f@),
{
    let ghost models = failover_models(v@);
    let ghost fm = f@;
    let mut at: usize = 0;
    assert(models.skip(0) =~= models);
    while at < v.len() && !text_before(f.name.as_str(), v[at].name.as_str())
        invariant
            at <= v@.len(),
            v@ == old(v)@,
            models == failover_models(v@),
            fm == f@,
            name_position(models, fm.name) == at + name_position(models.skip(at as int), fm.name),
        decreases v@.len() - at,
    {
        assert(models.skip(at as int)[0] == v@[at as int]@);
        assert(models.skip(at as int).drop_first() =~= models.skip(at + 1));
        at = at + 1;
    }
    proof {
        if at < v@.len() {
            assert(models.skip(at as int)[0] == v@[at as int]@);
        }
    }
    v.insert(at, f);
    assert(failover_models(v@) =~= models.insert(at as int, fm));
}

// ---------------------------------------------------------------------------
// Changes
// ---------------------------------------------------------------------------

/// Whether planning looks at a failover: it is enabled, not frozen and, where
/// only one is asked for, that one.
pub open spec fn plannable(f: FleetDnsFailoverModel, only: Option<u128>) -> bool {
    f.enabled && !f.frozen && match only {
        Some(id) => f.id == id,
        None => true,
    }
}

/// Planning over the first failovers of a list.
pub struct PlanFold {
    pub failovers: Seq<FleetDnsFailoverModel>,
    pub plans: Seq<FleetDnsChangePlanModel>,
    pub given_up: Seq<FleetDnsSwitchEventModel>,
    pub failures: nat,
}

/// Planning over the first `n` failovers; the `i`-th one takes the `i`-th fresh
/// identifier where it reserves a change.
pub open spec fn planned(
    s: Seq<FleetDnsFailoverModel>,
    peers: Seq<FleetPeerModel>,
    snapshots: Seq<FleetHealthSnapshotModel>,
    now: u64,
    only: Option<u128>,
    fresh: Seq<u128>,
    n: nat,
) -> PlanFold
    decreases n,
{
    if n == 0 {
        PlanFold {
            failovers: Seq::empty(),
            plans: Seq::empty(),
            given_up: Seq::empty(),
            failures: 0,
        }
    } else {
        let before = planned(s, peers, snapshots, now, only, fresh, (n - 1) as nat);
        let f = s[n - 1];
        if !plannable(f, only) {
            PlanFold { failovers: before.failovers.push(f), ..before }
        } else {
            let step = plan_step(f, peers, snapshots, now, fresh[n - 1]);
            PlanFold {
                failovers: before.failovers.push(step.failover),
                plans: match step.plan {
                    Some(plan) => before.plans.push(plan),
                    None => before.plans,
                },
                given_up: match step.given_up {
                    Some(event) => before.given_up.push(event),
                    None => before.given_up,
                },
                failures: before.failures + if step.failed {
                    1nat
                } else {
                    0nat
                },
            }
        }
    }
}

/// The catalog after planning.
pub open spec fn after_planning(c: CatalogModel, fold: PlanFold) -> CatalogModel {
    CatalogModel {
        failovers: fold.failovers,
        switch_events: c.switch_events + fold.given_up,
        counters: FleetHealthCounters {
            dns_switch_failures_total: sat_add(
                c.counters.dns_switch_failures_total,
                fold.failures,
            ),
            ..c.counters
        },
        ..c
    }
}

/// Whether a recorded change is the planned one.
pub open spec fn same_change(e: FleetDnsSwitchEventModel, plan: FleetDnsChangePlanModel) -> bool {
    e.failover_id == plan.failover_id && e.peer_id == plan.peer_id && e.target == plan.target
        && e.reason == plan.reason
}

/// Whether the pending change of a failover is the planned one.
pub open spec fn pending_is(f: FleetDnsFailoverModel, plan: FleetDnsChangePlanModel) -> bool {
    f.pending_operation_id == Some(plan.operation_id) && f.pending_peer_id == Some(plan.peer_id)
        && f.pending_target == Some(plan.target) && f.pending_reason == Some(plan.reason)
}

/// A failover after its pending change was carried out, or failed with an
/// error. Either way the next change waits for the cooldown.
pub open spec fn completed_failover(
    f: FleetDnsFailoverModel,
    plan: FleetDnsChangePlanModel,
    error: Option<Seq<char>>,
    now: u64,
) -> FleetDnsFailoverModel {
    let settled = FleetDnsFailoverModel {
        last_error_summary: error,
        next_change_not_before_unix_seconds: sat_add(now, f.cooldown_seconds as nat),
        updated_unix_seconds: now,
        ..without_pending(f)
    };
    if error is None {
        FleetDnsFailoverModel {
            current_peer_id: Some(plan.peer_id),
            current_target: Some(plan.target),
            last_switch_unix_seconds: Some(now),
            last_switch_reason: Some(plan.reason),
            reconcile_required: false,
            ..settled
        }
    } else {
        settled
    }
}

/// Recording the outcome of a planned change; `failure` is the error where it
/// failed.
///
/// An outcome that is recorded already is answered from the history. A plan
/// that differs from what is recorded or pending is stale.
pub open spec fn change_completed(
    c: CatalogModel,
    plan: FleetDnsChangePlanModel,
    failure: Option<Seq<char>>,
    now: u64,
) -> Result<(CatalogModel, FleetDnsChangeResultModel), FleetDnsError> {
    let e = first_id(operation_ids(c.switch_events), plan.operation_id);
    let i = first_id(failover_ids(c.failovers), plan.failover_id);
    if e < c.switch_events.len() {
        let event = c.switch_events[e];
        if same_change(event, plan) {
            Ok(
                (
                    c,
                    FleetDnsChangeResultModel {
                        operation_id: plan.operation_id,
                        failover_id: plan.failover_id,
                        peer_id: plan.peer_id,
                        target: plan.target,
                        reason: plan.reason,
                        applied: event.applied,
                        duplicate: true,
                        error_summary: event.error_summary,
                    },
                ),
            )
        } else {
            Err(FleetDnsError::OperationStale)
        }
    } else if i >= c.failovers.len() {
        Err(FleetDnsError::FailoverMissing)
    } else if !pending_is(c.failovers[i], plan) {
        Err(FleetDnsError::OperationStale)
    } else {
        let error = match failure {
            Some(text) => Some(error_summary(text)),
            None => None,
        };
        let applied = failure is None;
        Ok(
            (
                CatalogModel {
                    failovers: c.failovers.update(
                        i,
                        completed_failover(c.failovers[i], plan, error, now),
                    ),
                    switch_events: c.switch_events.push(
                        FleetDnsSwitchEventModel {
                            operation_id: plan.operation_id,
                            failover_id: plan.failover_id,
                            peer_id: plan.peer_id,
                            target: plan.target,
                            reason: plan.reason,
                            applied,
                            error_summary: error,
                            completed_unix_seconds: now,
                        },
                    ),
                    counters: if applied {
                        FleetHealthCounters {
                            dns_switches_total: sat_add(c.counters.dns_switches_total, 1),
                            ..c.counters
                        }
                    } else {
                        FleetHealthCounters {
                            dns_switch_failures_total: sat_add(
                                c.counters.dns_switch_failures_total,
                                1,
                            ),
                            ..c.counters
                        }
                    },
                    ..c
                },
                FleetDnsChangeResultModel {
                    operation_id: plan.operation_id,
                    failover_id: plan.failover_id,
                    peer_id: plan.peer_id,
                    target: plan.target,
                    reason: plan.reason,
                    applied,
                    duplicate: false,
                    error_summary: error,
                },
            ),
        )
    }
}

pub open spec fn plan_models(v: Seq<FleetDnsChangePlan>) -> Seq<FleetDnsChangePlanModel> {
    v.map_values(|x: FleetDnsChangePlan| x@)
}

/// The text of a failed outcome.
pub open spec fn failure_of(result: Result<(), &str>) -> Option<Seq<char>> {
    match result {
        Ok(()) => None,
        Err(text) => Some(text@),
    }
}

impl FleetHealthCatalog {
    /// Adds a failover under a new random identifier.
    pub fn create_dns_failover(
        &mut self,
        request: UpsertFleetDnsFailover,
        peers: &Vec<FleetPeer>,
        token_configured: bool,
        now: u64,
    ) -> (r: Result<FleetDnsFailover, FleetDnsError>)
        ensures
            exists|id: u128| #[trigger]
                random_layout(id) && match failover_created(
                    old(self)@,
                    id,
                    request@,
                    peer_models(peers@),
                    token_configured,
                    now,
                ) {
                    Ok((after, failover)) => r is Ok && r->Ok_0@ == failover && final(self)@
                        == after,
                    Err(error) => r is Err && r->Err_0 == error && final(self)@ == old(self)@,
                },
    {
        let id = new_uuid();
        self.create_dns_failover_as(id, request, peers, token_configured, now)
    }

    /// Adds a failover under the given identifier.
    pub fn create_dns_failover_as(
        &mut self,
        id: u128,
        request: UpsertFleetDnsFailover,
        peers: &Vec<FleetPeer>,
        token_configured: bool,
        now: u64,
    ) -> (r: Result<FleetDnsFailover, FleetDnsError>)
        ensures
            match failover_created(
                old(self)@,
                id,
                request@,
                peer_models(peers@),
                token_configured,
                now,
            ) {
                Ok((after, failover)) => r is Ok && r->Ok_0@ == failover && final(self)@ == after,
                Err(error) => r is Err && r->Err_0 == error && final(self)@ == old(self)@,
            },
    {
        let valid = match validate_dns_failover(request, peers) {
            Ok(valid) => valid,
            Err(error) => {
                return Err(error);
            },
        };
        if let Some(error) = find_taken(&self.failovers, &valid) {
            return Err(error);
        }
        let value = fresh_failover(id, valid, token_configured, now);
        let copy = value.duplicate();
        place(&mut self.failovers, value);
        Ok(copy)
    }

    /// Replaces the configuration of a failover.
    pub fn update_dns_failover(
        &mut self,
        id: u128,
        request: UpsertFleetDnsFailover,
        peers: &Vec<FleetPeer>,
        token_configured: bool,
        now: u64,
    ) -> (r: Result<Option<FleetDnsFailover>, FleetDnsError>)
        ensures
            match failover_updated(
                old(self)@,
                id,
                request@,
                peer_models(peers@),
                token_configured,
                now,
            ) {
                Ok((after, failover)) => r is Ok && final(self)@ == after && match r->Ok_0 {
                    Some(x) => failover == Some(x@),
                    None => failover is None,
                },
                Err(error) => r is Err && r->Err_0 == error && final(self)@ == old(self)@,
            },
    {
        let valid = match validate_dns_failover(request, peers) {
            Ok(valid) => valid,
            Err(error) => {
                return Err(error);
            },
        };
        let i: usize = match failover_position(&self.failovers, id) {
            Some(i) => i,
            None => {
                return Ok(None);
            },
        };
        assert(self@.failovers[i as int] == self.failovers@[i as int]@);
        if self.failovers[i].pending_operation_id.is_some() {
            return Err(FleetDnsError::OperationPending);
        }
        let (mut rest, mut value) = taken_out(&self.failovers, i);
        if let Some(error) = find_taken(&rest, &valid) {
            return Err(error);
        }
        reconfigure_failover(&mut value, valid, token_configured, now);
        let copy = value.duplicate();
        place(&mut rest, value);
        self.failovers = rest;
        Ok(Some(copy))
    }

    /// Removes a failover; whether there was one.
    pub fn delete_dns_failover(&mut self, id: u128) -> (r: Result<bool, FleetDnsError>)
        ensures
            match failover_deleted(old(self)@, id) {
                Ok((after, deleted)) => r == Ok::<bool, FleetDnsError>(deleted) && final(self)@
                    == after,
                Err(error) => r == Err::<bool, FleetDnsError>(error) && final(self)@ == old(self)@,
            },
    {
        let i: usize = match failover_position(&self.failovers, id) {
            Some(i) => i,
            None => {
                return Ok(false);
            },
        };
        assert(self@.failovers[i as int] == self.failovers@[i as int]@);
        if self.failovers[i].pending_operation_id.is_some() {
            return Err(FleetDnsError::OperationPending);
        }
        let ghost before = self.failovers@;
        let ghost events = self@.switch_events;
        self.failovers.remove(i);
        assert(failover_models(self.failovers@) =~= failover_models(before).remove(i as int));
        let mut kept: Vec<FleetDnsSwitchEvent> = Vec::new();
        let mut k: usize = 0;
        assert(switch_event_models(kept@) =~= events_without(events.take(0), id));
        while k < self.switch_events.len()
            invariant
                k <= self.switch_events@.len(),
                events == switch_event_models(self.switch_events@),
                switch_event_models(kept@) == events_without(events.take(k as int), id),
            decreases self.switch_events@.len() - k,
        {
            proof {
                assert(events.take(k + 1).drop_last() =~= events.take(k as int));
                assert(events.take(k + 1).last() == self.switch_events@[k as int]@);
            }
            if self.switch_events[k].failover_id != id {
                let copy = self.switch_events[k].duplicate();
                let ghost old_kept = kept@;
                let ghost cm = copy@;
                kept.push(copy);
                assert(switch_event_models(kept@) =~= switch_event_models(old_kept).push(cm));
            }
            k = k + 1;
        }
        assert(events.take(events.len() as int) =~= events);
        self.switch_events = kept;
        Ok(true)
    }

    /// The failovers by name.
    pub fn list_dns_failovers(&self) -> (r: Vec<FleetDnsFailover>)
        ensures
            failover_models(r@) == self@.failovers,
    {
        FleetDnsFailover::duplicate_all(&self.failovers)
    }

    /// The failover with an identifier.
    pub fn get_dns_failover(&self, id: u128) -> (r: Option<FleetDnsFailover>)
        ensures
            match find_failover(self@.failovers, id) {
                Some(failover) => r is Some && r->0@ == failover,
                None => r is None,
            },
    {
        match failover_position(&self.failovers, id) {
            Some(i) => {
                assert(self@.failovers[i as int] == self.failovers@[i as int]@);
                Some(self.failovers[i].duplicate())
            },
            None => None,
        }
    }

    /// Freezes a failover or releases it.
    pub fn set_dns_frozen(&mut self, id: u128, frozen: bool, reason: Option<&str>, now: u64) -> (r:
        Result<Option<FleetDnsFailover>, FleetDnsError>)
        ensures
            match freeze_set(
                old(self)@,
                id,
                frozen,
                match reason {
                    Some(t) => Some(t@),
                    None => None,
                },
                now,
            ) {
                Ok((after, failover)) => r is Ok && final(self)@ == after && match r->Ok_0 {
                    Some(x) => failover == Some(x@),
                    None => failover is None,
                },
                Err(error) => r is Err && r->Err_0 == error && final(self)@ == old(self)@,
            },
    {
        let freeze_reason: Option<String> = if frozen {
            let text = summarize_error(
                match reason {
                    Some(t) => t,
                    None => "manual freeze",
                },
            );
            if text.as_str().is_empty() {
                return Err(FleetDnsError::FreezeReasonRequired);
            }
            Some(text)
        } else {
            None
        };
        let i: usize = match failover_position(&self.failovers, id) {
            Some(i) => i,
            None => {
                return Ok(None);
            },
        };
        assert(self@.failovers[i as int] == self.failovers@[i as int]@);
        let mut value = self.failovers[i].duplicate();
        value.frozen = frozen;
        value.freeze_reason = freeze_reason;
        value.updated_unix_seconds = now;
        let copy = value.duplicate();
        let ghost before = self.failovers@;
        self.failovers.set(i, value);
        assert(failover_models(self.failovers@) =~= failover_models(before).update(
            i as int,
            copy@,
        ));
        Ok(Some(copy))
    }

    /// Plans the DNS changes that are due, under the given identifiers.
    pub fn plan_dns_changes_as(
        &mut self,
        peers: &Vec<FleetPeer>,
        now: u64,
        only: Option<u128>,
        fresh: &Vec<u128>,
    ) -> (r: Vec<FleetDnsChangePlan>)
        requires
            fresh@.len() >= old(self)@.failovers.len(),
        ensures
            ({
                let fold = planned(
                    old(self)@.failovers,
                    peer_models(peers@),
                    old(self)@.snapshots,
                    now,
                    only,
                    fresh@,
                    old(self)@.failovers.len(),
                );
                plan_models(r@) == fold.plans && final(self)@ == after_planning(old(self)@, fold)
            }),
    {
        let ghost c = self@;
        let ghost s = self@.failovers;
        let ghost ps = peer_models(peers@);
        let ghost hs = self@.snapshots;
        let mut plans: Vec<FleetDnsChangePlan> = Vec::new();
        let mut i: usize = 0;
        proof {
            let start = planned(s, ps, hs, now, only, fresh@, 0);
            assert(start.failovers + s.skip(0) =~= s);
            assert(plan_models(plans@) =~= start.plans);
            assert(self@.switch_events =~= c.switch_events + start.given_up);
        }
        while i < self.failovers.len()
            invariant
                i <= self.failovers@.len(),
                self.failovers@.len() == s.len(),
                fresh@.len() >= s.len(),
                ps == peer_models(peers@),
                hs == c.snapshots,
                hs == snapshot_models(self.snapshots@),
                self@.probe_events == c.probe_events,
                planned(s, ps, hs, now, only, fresh@, i as nat).failovers.len() == i,
                self@.failovers == planned(s, ps, hs, now, only, fresh@, i as nat).failovers
                    + s.skip(i as int),
                plan_models(plans@) == planned(s, ps, hs, now, only, fresh@, i as nat).plans,
                self@.switch_events == c.switch_events + planned(
                    s,
                    ps,
                    hs,
                    now,
                    only,
                    fresh@,
                    i as nat,
                ).given_up,
                self.counters == (FleetHealthCounters {
                    dns_switch_failures_total: sat_add(
                        c.counters.dns_switch_failures_total,
                        planned(s, ps, hs, now, only, fresh@, i as nat).failures,
                    ),
                    ..c.counters
                }),
            decreases self.failovers@.len() - i,
        {
            let ghost fold = planned(s, ps, hs, now, only, fresh@, i as nat);
            let ghost next = planned(s, ps, hs, now, only, fresh@, (i + 1) as nat);
            let ghost before = self.failovers@;
            assert(self@.failovers[i as int] == s[i as int]);
            assert(self@.failovers[i as int] == self.failovers@[i as int]@);
            let wanted = self.failovers[i].enabled && !self.failovers[i].frozen && match only {
                Some(id) => self.failovers[i].id == id,
                None => true,
            };
            if wanted {
                let value = self.failovers[i].duplicate();
                let outcome = plan_failover(value, peers, &self.snapshots, now, fresh[i]);
                let ghost step = outcome@;
                assert(step == plan_step(s[i as int], ps, hs, now, fresh@[i as int]));
                self.failovers.set(i, outcome.failover);
                assert(failover_models(self.failovers@) =~= next.failovers + s.skip(i + 1)) by {
                    assert(failover_models(self.failovers@) =~= failover_models(before).update(
                        i as int,
                        step.failover,
                    ));
                }
                if let Some(plan) = outcome.plan {
                    let ghost old_plans = plans@;
                    let ghost pm = plan@;
                    plans.push(plan);
                    assert(plan_models(plans@) =~= plan_models(old_plans).push(pm));
                }
                if let Some(event) = outcome.given_up {
                    let ghost old_events = self.switch_events@;
                    let ghost em = event@;
                    self.switch_events.push(event);
                    assert(switch_event_models(self.switch_events@) =~= switch_event_models(
                        old_events,
                    ).push(em));
                    assert(self@.switch_events =~= c.switch_events + next.given_up);
                }
                if outcome.failed {
                    self.counters.dns_switch_failures_total =
                    self.counters.dns_switch_failures_total.saturating_add(1);
                }
            } else {
                assert(self@.failovers =~= next.failovers + s.skip(i + 1));
            }
            i = i + 1;
        }
        proof {
            let end = planned(s, ps, hs, now, only, fresh@, s.len());
            assert(end.failovers + s.skip(s.len() as int) =~= end.failovers);
        }
        plans
    }

    /// Plans the DNS changes that are due, each under a new random identifier.
    pub fn plan_dns_changes(&mut self, peers: &Vec<FleetPeer>, now: u64, only: Option<u128>) -> (r:
        Vec<FleetDnsChangePlan>)
        ensures
            exists|fresh: Seq<u128>|
                {
                    &&& fresh.len() == old(self)@.failovers.len()
                    &&& forall|i: int| 0 <= i < fresh.len() ==> random_layout(#[trigger] fresh[i])
                    &&& plan_models(r@) == (#[trigger] planned(
                        old(self)@.failovers,
                        peer_models(peers@),
                        old(self)@.snapshots,
                        now,
                        only,
                        fresh,
                        old(self)@.failovers.len(),
                    )).plans
                    &&& final(self)@ == after_planning(
                        old(self)@,
                        planned(
                            old(self)@.failovers,
                            peer_models(peers@),
                            old(self)@.snapshots,
                            now,
                            only,
                            fresh,
                            old(self)@.failovers.len(),
                        ),
                    )
                },
    {
        let mut fresh: Vec<u128> = Vec::new();
        let mut i: usize = 0;
        while i < self.failovers.len()
            invariant
                i <= self.failovers@.len(),
                fresh@.len() == i,
                forall|j: int| 0 <= j < i ==> random_layout(#[trigger] fresh@[j]),
            decreases self.failovers@.len() - i,
        {
            fresh.push(new_uuid());
            i = i + 1;
        }
        self.plan_dns_changes_as(peers, now, only, &fresh)
    }

    /// Records the outcome of a planned change.
    pub fn complete_dns_change(
        &mut self,
        plan: &FleetDnsChangePlan,
        result: Result<(), &str>,
        now: u64,
    ) -> (r: Result<FleetDnsChangeResult, FleetDnsError>)
        ensures
            match change_completed(old(self)@, plan@, failure_of(result), now) {
                Ok((after, outcome)) => r is Ok && r->Ok_0@ == outcome && final(self)@ == after,
                Err(error) => r is Err && r->Err_0 == error && final(self)@ == old(self)@,
            },
    {
        if let Some(e) = operation_position(&self.switch_events, plan.operation_id) {
            let event = &self.switch_events[e];
            assert(self@.switch_events[e as int] == event@);
            if !(event.failover_id == plan.failover_id && event.peer_id == plan.peer_id
                && event.target == plan.target && event.reason == plan.reason) {
                return Err(FleetDnsError::OperationStale);
            }
            return Ok(
                FleetDnsChangeResult {
                    operation_id: plan.operation_id,
                    failover_id: event.failover_id,
                    peer_id: event.peer_id,
                    target: event.target.clone(),
                    reason: event.reason.clone(),
                    applied: event.applied,
                    duplicate: true,
                    error_summary: copy_optional(&event.error_summary),
                },
            );
        }
        let i: usize = match failover_position(&self.failovers, plan.failover_id) {
            Some(i) => i,
            None => {
                return Err(FleetDnsError::FailoverMissing);
            },
        };
        assert(self@.failovers[i as int] == self.failovers@[i as int]@);
        let same_operation = match self.failovers[i].pending_operation_id {
            Some(id) => id == plan.operation_id,
            None => false,
        };
        let same_peer = match self.failovers[i].pending_peer_id {
            Some(id) => id == plan.peer_id,
            None => false,
        };
        if !(same_operation && same_peer && optional_is(
            &self.failovers[i].pending_target,
            plan.target.as_str(),
        ) && optional_is(&self.failovers[i].pending_reason, plan.reason.as_str())) {
            return Err(FleetDnsError::OperationStale);
        }
        let (applied, error_summary): (bool, Option<String>) = match result {
            Ok(()) => (true, None),
            Err(error) => (false, Some(summarize_error(error))),
        };
        let event = FleetDnsSwitchEvent {
            operation_id: plan.operation_id,
            failover_id: plan.failover_id,
            peer_id: plan.peer_id,
            target: plan.target.clone(),
            reason: plan.reason.clone(),
            applied,
            error_summary: copy_optional(&error_summary),
            completed_unix_seconds: now,
        };
        let ghost em = event@;
        let ghost old_events = self.switch_events@;
        self.switch_events.push(event);
        assert(switch_event_models(self.switch_events@) =~= switch_event_models(old_events).push(
            em,
        ));
        if applied {
            self.counters.dns_switches_total = self.counters.dns_switches_total.saturating_add(1);
        } else {
            self.counters.dns_switch_failures_total =
            self.counters.dns_switch_failures_total.saturating_add(1);
        }
        let mut value = self.failovers[i].duplicate();
        if applied {
            value.current_peer_id = Some(plan.peer_id);
            value.current_target = Some(plan.target.clone());
            value.last_switch_unix_seconds = Some(now);
            value.last_switch_reason = Some(plan.reason.clone());
            value.reconcile_required = false;
        }
        value.last_error_summary = copy_optional(&error_summary);
        value.next_change_not_before_unix_seconds = now.saturating_add(
            value.cooldown_seconds as u64,
        );
        value.updated_unix_seconds = now;
        clear_pending(&mut value);
        let ghost vm = value@;
        let ghost before = self.failovers@;
        self.failovers.set(i, value);
        assert(failover_models(self.failovers@) =~= failover_models(before).update(i as int, vm));
        Ok(
            FleetDnsChangeResult {
                operation_id: plan.operation_id,
                failover_id: plan.failover_id,
                peer_id: plan.peer_id,
                target: plan.target.clone(),
                reason: plan.reason.clone(),
                applied,
                duplicate: false,
                error_summary,
            },
        )
    }
}

// ---------------------------------------------------------------------------
// History, counts and removed peers
// ---------------------------------------------------------------------------

/// Changes are listed from the latest on; of changes at the same time the one
/// with the greater identifier comes first.
pub open spec fn later(a: FleetDnsSwitchEventModel, b: FleetDnsSwitchEventModel) -> bool {
    ||| a.completed_unix_seconds > b.completed_unix_seconds
    ||| a.completed_unix_seconds == b.completed_unix_seconds && a.operation_id > b.operation_id
}

/// The position of the latest change of a failover, -1 where there is none.
pub open spec fn latest_event(s: Seq<FleetDnsSwitchEventModel>, failover_id: u128) -> int
    decreases s.len(),
{
    if s.len() == 0 {
        -1
    } else {
        let best = latest_event(s.drop_last(), failover_id);
        if s.last().failover_id == failover_id && (best < 0 || later(s.last(), s[best])) {
            s.len() - 1
        } else {
            best
        }
    }
}

/// The latest changes of a failover, at most `n` of them.
pub open spec fn latest_events(s: Seq<FleetDnsSwitchEventModel>, failover_id: u128, n: nat) -> Seq<
    FleetDnsSwitchEventModel,
>
    decreases n,
{
    let i = latest_event(s, failover_id);
    if n == 0 || !(0 <= i < s.len()) {
        Seq::empty()
    } else {
        seq![s[i]] + latest_events(s.remove(i), failover_id, (n - 1) as nat)
    }
}

/// The number of changes that are listed for a wish.
pub open spec fn listed_count(limit: usize) -> nat {
    if limit < 1 {
        1
    } else if limit > 500 {
        500
    } else {
        limit as nat
    }
}

/// Counts over the health of a fleet.
#[derive(Clone, Copy, Debug, Default, PartialEq, Eq, Structural)]
pub struct FleetHealthMetrics {
    pub peers_unknown: u64,
    pub peers_healthy: u64,
    pub peers_degraded: u64,
    pub peers_unhealthy: u64,
    pub peers_recovering: u64,
    pub probe_events_total: u64,
    pub probe_failures_total: u64,
    pub health_transitions_total: u64,
    pub dns_failovers_total: u64,
    pub dns_failovers_frozen: u64,
    pub dns_switches_total: u64,
    pub dns_switch_failures_total: u64,
    pub dns_operations_pending: u64,
}

/// The number of enabled peers that are recorded in a state.
pub open spec fn peers_in_state(
    peers: Seq<FleetPeerModel>,
    snapshots: Seq<FleetHealthSnapshotModel>,
    state: FleetHealthState,
) -> nat
    decreases peers.len(),
{
    if peers.len() == 0 {
        0
    } else {
        let peer = peers.last();
        let rest = peers_in_state(peers.drop_last(), snapshots, state);
        match find_snapshot(snapshots, peer.id) {
            Some(snapshot) => if peer.enabled && snapshot.health.state == state {
                rest + 1
            } else {
                rest
            },
            None => rest,
        }
    }
}

pub open spec fn frozen_count(s: Seq<FleetDnsFailoverModel>) -> nat
    decreases s.len(),
{
    if s.len() == 0 {
        0
    } else {
        frozen_count(s.drop_last()) + if s.last().frozen {
            1nat
        } else {
            0nat
        }
    }
}

pub open spec fn pending_count(s: Seq<FleetDnsFailoverModel>) -> nat
    decreases s.len(),
{
    if s.len() == 0 {
        0
    } else {
        pending_count(s.drop_last()) + if s.last().pending_operation_id is Some {
            1nat
        } else {
            0nat
        }
    }
}

/// The targets that do not belong to a peer.
pub open spec fn targets_without(s: Seq<FleetDnsPeerTargetModel>, peer_id: u128) -> Seq<
    FleetDnsPeerTargetModel,
>
    decreases s.len(),
{
    if s.len() == 0 {
        s
    } else if s.last().peer_id == peer_id {
        targets_without(s.drop_last(), peer_id)
    } else {
        targets_without(s.drop_last(), peer_id).push(s.last())
    }
}

/// A failover that no longer refers to a peer.
pub open spec fn without_references(f: FleetDnsFailoverModel, peer_id: u128) -> FleetDnsFailoverModel {
    FleetDnsFailoverModel {
        targets: targets_without(f.targets, peer_id),
        current_peer_id: if f.current_peer_id == Some(peer_id) {
            None
        } else {
            f.current_peer_id
        },
        pending_peer_id: if f.pending_peer_id == Some(peer_id) {
            None
        } else {
            f.pending_peer_id
        },
        ..f
    }
}

pub open spec fn snapshots_without(s: Seq<FleetHealthSnapshotModel>, peer_id: u128) -> Seq<
    FleetHealthSnapshotModel,
>
    decreases s.len(),
{
    if s.len() == 0 {
        s
    } else if s.last().health.peer_id == peer_id {
        snapshots_without(s.drop_last(), peer_id)
    } else {
        snapshots_without(s.drop_last(), peer_id).push(s.last())
    }
}

pub open spec fn probes_without(s: Seq<FleetProbeEventModel>, peer_id: u128) -> Seq<
    FleetProbeEventModel,
>
    decreases s.len(),
{
    if s.len() == 0 {
        s
    } else if s.last().peer_id == peer_id {
        probes_without(s.drop_last(), peer_id)
    } else {
        probes_without(s.drop_last(), peer_id).push(s.last())
    }
}

/// The catalog after a peer has left the fleet: its health and probes are
/// forgotten, failovers no longer refer to it, and the history of changes stays.
pub open spec fn peer_forgotten(c: CatalogModel, peer_id: u128) -> CatalogModel {
    CatalogModel {
        snapshots: snapshots_without(c.snapshots, peer_id),
        probe_events: probes_without(c.probe_events, peer_id),
        failovers: c.failovers.map_values(
            |f: FleetDnsFailoverModel| without_references(f, peer_id),
        ),
        ..c
    }
}

fn drop_references(value: &FleetDnsFailover, peer_id: u128) -> (r: FleetDnsFailover)
    ensures
        r@ == without_references(value@, peer_id),
{
    let ghost s = value@.targets;
    let mut kept: Vec<FleetDnsPeerTarget> = Vec::new();
    let mut i: usize = 0;
    assert(target_models(kept@) =~= targets_without(s.take(0), peer_id));
    while i < value.targets.len()
        invariant
            i <= value.targets@.len(),
            s == target_models(value.targets@),
            target_models(kept@) == targets_without(s.take(i as int), peer_id),
        decreases value.targets@.len() - i,
    {
        proof {
            assert(s.take(i + 1).drop_last() =~= s.take(i as int));
            assert(s.take(i + 1).last() == value.targets@[i as int]@);
        }
        if value.targets[i].peer_id != peer_id {
            let copy = value.targets[i].duplicate();
            let ghost before = kept@;
            let ghost cm = copy@;
            kept.push(copy);
            assert(target_models(kept@) =~= target_models(before).push(cm));
        }
        i = i + 1;
    }
    assert(s.take(s.len() as int) =~= s);
    let mut out = value.duplicate();
    out.targets = kept;
    if let Some(id) = out.current_peer_id {
        if id == peer_id {
            out.current_peer_id = None;
        }
    }
    if let Some(id) = out.pending_peer_id {
        if id == peer_id {
            out.pending_peer_id = None;
        }
    }
    out
}

impl FleetHealthCatalog {
    /// The latest changes of a failover, at least one and at most 500 of them.
    pub fn list_dns_switch_events(&self, failover_id: u128, limit: usize) -> (r: Vec<
        FleetDnsSwitchEvent,
    >)
        ensures
            switch_event_models(r@) == latest_events(
                self@.switch_events,
                failover_id,
                listed_count(limit),
            ),
    {
        let wanted: usize = if limit < 1 {
            1
        } else if limit > 500 {
            500
        } else {
            limit
        };
        let mut rest = FleetDnsSwitchEvent::duplicate_all(&self.switch_events);
        assert(switch_event_models(rest@) == self@.switch_events);
        let mut out: Vec<FleetDnsSwitchEvent> = Vec::new();
        let ghost all = self@.switch_events;
        proof {
            assert(switch_event_models(out@) + latest_events(all, failover_id, wanted as nat)
                =~= latest_events(all, failover_id, wanted as nat));
        }
        let mut left: usize = wanted;
        while left > 0
            invariant
                left <= wanted,
                wanted == listed_count(limit),
                all == self@.switch_events,
                switch_event_models(out@) + latest_events(
                    switch_event_models(rest@),
                    failover_id,
                    left as nat,
                ) == latest_events(all, failover_id, wanted as nat),
            decreases left,
        {
            let ghost s = switch_event_models(rest@);
            let mut best: Option<usize> = None;
            let mut i: usize = 0;
            assert(s.take(0) =~= Seq::empty());
            while i < rest.len()
                invariant
                    i <= rest@.len(),
                    s == switch_event_models(rest@),
                    match best {
                        Some(b) => b < i && b == latest_event(s.take(i as int), failover_id),
                        None => latest_event(s.take(i as int), failover_id) < 0,
                    },
                decreases rest@.len() - i,
            {
                proof {
                    assert(s.take(i + 1).drop_last() =~= s.take(i as int));
                    assert(s.take(i + 1).last() == rest@[i as int]@);
                }
                if rest[i].failover_id == failover_id {
                    match best {
                        Some(b) => {
                            assert(s.take(i + 1)[b as int] == rest@[b as int]@);
                            if rest[i].completed_unix_seconds > rest[b].completed_unix_seconds || (
                            rest[i].completed_unix_seconds == rest[b].completed_unix_seconds
                                && rest[i].operation_id > rest[b].operation_id) {
                                best = Some(i);
                            }
                        },
                        None => {
                            best = Some(i);
                        },
                    }
                }
                i = i + 1;
            }
            assert(s.take(s.len() as int) =~= s);
            match best {
                Some(b) => {
                    let ghost before = rest@;
                    let ghost old_out = switch_event_models(out@);
                    let event = rest.remove(b);
                    let ghost em = event@;
                    assert(switch_event_models(rest@) =~= s.remove(b as int));
                    let ghost raw = out@;
                    out.push(event);
                    proof {
                        assert(switch_event_models(out@) =~= old_out.push(em));
                        let tail = latest_events(
                            s.remove(b as int),
                            failover_id,
                            (left - 1) as nat,
                        );
                        assert(old_out.push(em) + tail =~= old_out + (seq![em] + tail));
                    }
                    left = left - 1;
                },
                None => {
                    assert(switch_event_models(out@) + Seq::empty() =~= switch_event_models(out@));
                    return out;
                },
            }
        }
        assert(switch_event_models(out@) + Seq::empty() =~= switch_event_models(out@));
        out
    }

    /// Counts over the recorded health and the failovers.
    pub fn metrics(&self, peers: &Vec<FleetPeer>) -> (r: FleetHealthMetrics)
        ensures
            ({
                let ps = peer_models(peers@);
                let hs = self@.snapshots;
                &&& r.peers_unknown == peers_in_state(ps, hs, FleetHealthState::Unknown)
                &&& r.peers_healthy == peers_in_state(ps, hs, FleetHealthState::Healthy)
                &&& r.peers_degraded == peers_in_state(ps, hs, FleetHealthState::Degraded)
                &&& r.peers_unhealthy == peers_in_state(ps, hs, FleetHealthState::Unhealthy)
                &&& r.peers_recovering == peers_in_state(ps, hs, FleetHealthState::Recovering)
                &&& r.probe_events_total == self@.counters.probe_events_total
                &&& r.probe_failures_total == self@.counters.probe_failures_total
                &&& r.health_transitions_total == self@.counters.health_transitions_total
                &&& r.dns_failovers_total == self@.failovers.len()
                &&& r.dns_failovers_frozen == frozen_count(self@.failovers)
                &&& r.dns_switches_total == self@.counters.dns_switches_total
                &&& r.dns_switch_failures_total == self@.counters.dns_switch_failures_total
                &&& r.dns_operations_pending == pending_count(self@.failovers)
            }),
    {
        let ghost ps = peer_models(peers@);
        let ghost hs = self@.snapshots;
        let mut m = FleetHealthMetrics {
            peers_unknown: 0,
            peers_healthy: 0,
            peers_degraded: 0,
            peers_unhealthy: 0,
            peers_recovering: 0,
            probe_events_total: self.counters.probe_events_total,
            probe_failures_total: self.counters.probe_failures_total,
            health_transitions_total: self.counters.health_transitions_total,
            dns_failovers_total: self.failovers.len() as u64,
            dns_failovers_frozen: 0,
            dns_switches_total: self.counters.dns_switches_total,
            dns_switch_failures_total: self.counters.dns_switch_failures_total,
            dns_operations_pending: 0,
        };
        let mut i: usize = 0;
        while i < peers.len()
            invariant
                i <= peers@.len(),
                ps == peer_models(peers@),
                hs == self@.snapshots,
                m.peers_unknown <= i,
                m.peers_healthy <= i,
                m.peers_degraded <= i,
                m.peers_unhealthy <= i,
                m.peers_recovering <= i,
                m.peers_unknown == peers_in_state(
                    ps.take(i as int),
                    hs,
                    FleetHealthState::Unknown,
                ),
                m.peers_healthy == peers_in_state(
                    ps.take(i as int),
                    hs,
                    FleetHealthState::Healthy,
                ),
                m.peers_degraded == peers_in_state(
                    ps.take(i as int),
                    hs,
                    FleetHealthState::Degraded,
                ),
                m.peers_unhealthy == peers_in_state(
                    ps.take(i as int),
                    hs,
                    FleetHealthState::Unhealthy,
                ),
                m.peers_recovering == peers_in_state(
                    ps.take(i as int),
                    hs,
                    FleetHealthState::Recovering,
                ),
                m.probe_events_total == self.counters.probe_events_total,
                m.probe_failures_total == self.counters.probe_failures_total,
                m.health_transitions_total == self.counters.health_transitions_total,
                m.dns_failovers_total == self.failovers@.len(),
                m.dns_failovers_frozen == 0,
                m.dns_switches_total == self.counters.dns_switches_total,
                m.dns_switch_failures_total == self.counters.dns_switch_failures_total,
                m.dns_operations_pending == 0,
            decreases peers@.len() - i,
        {
            proof {
                assert(ps.take(i + 1).drop_last() =~= ps.take(i as int));
                assert(ps.take(i + 1).last() == peers@[i as int]@);
            }
            if let Some(h) = snapshot_position(&self.snapshots, peers[i].id) {
                assert(hs[h as int] == self.snapshots@[h as int]@);
                if peers[i].enabled {
                    match self.snapshots[h].health.state {
                        FleetHealthState::Unknown => {
                            m.peers_unknown = m.peers_unknown + 1;
                        },
                        FleetHealthState::Healthy => {
                            m.peers_healthy = m.peers_healthy + 1;
                        },
                        FleetHealthState::Degraded => {
                            m.peers_degraded = m.peers_degraded + 1;
                        },
                        FleetHealthState::Unhealthy => {
                            m.peers_unhealthy = m.peers_unhealthy + 1;
                        },
                        FleetHealthState::Recovering => {
                            m.peers_recovering = m.peers_recovering + 1;
                        },
                    }
                }
            }
            i = i + 1;
        }
        assert(ps.take(ps.len() as int) =~= ps);
        let ghost fs = self@.failovers;
        let mut frozen: u64 = 0;
        let mut pending: u64 = 0;
        let mut k: usize = 0;
        while k < self.failovers.len()
            invariant
                k <= self.failovers@.len(),
                fs == failover_models(self.failovers@),
                frozen <= k,
                pending <= k,
                frozen == frozen_count(fs.take(k as int)),
                pending == pending_count(fs.take(k as int)),
            decreases self.failovers@.len() - k,
        {
            proof {
                assert(fs.take(k + 1).drop_last() =~= fs.take(k as int));
                assert(fs.take(k + 1).last() == self.failovers@[k as int]@);
            }
            if self.failovers[k].frozen {
                frozen = frozen + 1;
            }
            if self.failovers[k].pending_operation_id.is_some() {
                pending = pending + 1;
            }
            k = k + 1;
        }
        assert(fs.take(fs.len() as int) =~= fs);
        m.dns_failovers_frozen = frozen;
        m.dns_operations_pending = pending;
        m
    }

    /// Forgets a peer that has left the fleet.
    pub fn remove_peer(&mut self, peer_id: u128)
        ensures
            final(self)@ == peer_forgotten(old(self)@, peer_id),
    {
        let ghost hs = self@.snapshots;
        let mut snapshots: Vec<FleetHealthSnapshot> = Vec::new();
        let mut i: usize = 0;
        assert(snapshot_models(snapshots@) =~= snapshots_without(hs.take(0), peer_id));
        while i < self.snapshots.len()
            invariant
                i <= self.snapshots@.len(),
                *self == *old(self),
                hs == snapshot_models(self.snapshots@),
                snapshot_models(snapshots@) == snapshots_without(hs.take(i as int), peer_id),
            decreases self.snapshots@.len() - i,
        {
            proof {
                assert(hs.take(i + 1).drop_last() =~= hs.take(i as int));
                assert(hs.take(i + 1).last() == self.snapshots@[i as int]@);
            }
            if self.snapshots[i].health.peer_id != peer_id {
                let copy = self.snapshots[i].duplicate();
                let ghost before = snapshots@;
                let ghost cm = copy@;
                snapshots.push(copy);
                assert(snapshot_models(snapshots@) =~= snapshot_models(before).push(cm));
            }
            i = i + 1;
        }
        assert(hs.take(hs.len() as int) =~= hs);
        let ghost es = self@.probe_events;
        let mut events: Vec<FleetProbeEvent> = Vec::new();
        let mut k: usize = 0;
        assert(probe_event_models(events@) =~= probes_without(es.take(0), peer_id));
        while k < self.probe_events.len()
            invariant
                k <= self.probe_events@.len(),
                *self == *old(self),
                es == probe_event_models(self.probe_events@),
                probe_event_models(events@) == probes_without(es.take(k as int), peer_id),
            decreases self.probe_events@.len() - k,
        {
            proof {
                assert(es.take(k + 1).drop_last() =~= es.take(k as int));
                assert(es.take(k + 1).last() == self.probe_events@[k as int]@);
            }
            if self.probe_events[k].peer_id != peer_id {
                let copy = self.probe_events[k].duplicate();
                let ghost before = events@;
                let ghost cm = copy@;
                events.push(copy);
                assert(probe_event_models(events@) =~= probe_event_models(before).push(cm));
            }
            k = k + 1;
        }
        assert(es.take(es.len() as int) =~= es);
        let ghost fs = self@.failovers;
        let mut failovers: Vec<FleetDnsFailover> = Vec::new();
        let mut j: usize = 0;
        while j < self.failovers.len()
            invariant
                j <= self.failovers@.len(),
                *self == *old(self),
                fs == failover_models(self.failovers@),
                failovers@.len() == j,
                forall|a: int|
                    0 <= a < j ==> (#[trigger] failovers@[a])@ == without_references(fs[a], peer_id),
            decreases self.failovers@.len() - j,
        {
            assert(fs[j as int] == self.failovers@[j as int]@);
            failovers.push(drop_references(&self.failovers[j], peer_id));
            j = j + 1;
        }
        self.snapshots = snapshots;
        self.probe_events = events;
        self.failovers = failovers;
        assert(self@.failovers =~= fs.map_values(
            |f: FleetDnsFailoverModel| without_references(f, peer_id),
        ));
    }
}

// ---------------------------------------------------------------------------
// Laws
// ---------------------------------------------------------------------------

/// Whether the failovers are in the order of their names.
pub open spec fn in_name_order(s: Seq<FleetDnsFailoverModel>) -> bool {
    forall|i: int, j: int|
        0 <= i < j < s.len() ==> lex_less((#[trigger] s[i]).name, (#[trigger] s[j]).name)
}

proof fn lemma_name_position(s: Seq<FleetDnsFailoverModel>, name: Seq<char>)
    requires
        in_name_order(s),
        forall|i: int| 0 <= i < s.len() ==> (#[trigger] s[i]).name != name,
    ensures
        0 <= name_position(s, name) <= s.len(),
        forall|i: int| 0 <= i < name_position(s, name) ==> lex_less((#[trigger] s[i]).name, name),
        forall|i: int|
            name_position(s, name) <= i < s.len() ==> lex_less(name, (#[trigger] s[i]).name),
    decreases s.len(),
{
    if s.len() == 0 {
    } else if lex_less(name, s[0].name) {
        assert forall|i: int| 0 <= i < s.len() implies lex_less(name, (#[trigger] s[i]).name) by {
            if i > 0 {
                crate::text::lemma_lex_transitive(name, s[0].name, s[i].name);
            }
        }
    } else {
        let t = s.drop_first();
        assert(forall|i: int| 0 <= i < t.len() ==> t[i] == s[i + 1]);
        assert(in_name_order(t));
        assert forall|i: int| 0 <= i < t.len() implies (#[trigger] t[i]).name != name by {
            assert(s[i + 1].name != name);
        }
        lemma_name_position(t, name);
        crate::text::lemma_lex_total(s[0].name, name);
        assert(s[0].name != name);
        assert forall|i: int| 0 <= i < name_position(s, name) implies lex_less(
            (#[trigger] s[i]).name,
            name,
        ) by {
            if i > 0 {
                assert(lex_less(t[i - 1].name, name));
            }
        }
        assert forall|i: int| name_position(s, name) <= i < s.len() implies lex_less(
            name,
            (#[trigger] s[i]).name,
        ) by {
            assert(lex_less(name, t[i - 1].name));
        }
    }
}

/// A failover whose name is free goes where the order of names wants it.
pub proof fn law_placed_keeps_the_name_order(
    s: Seq<FleetDnsFailoverModel>,
    f: FleetDnsFailoverModel,
)
    requires
        in_name_order(s),
        forall|i: int| 0 <= i < s.len() ==> (#[trigger] s[i]).name != f.name,
    ensures
        in_name_order(placed(s, f)),
        placed(s, f).contains(f),
        placed(s, f).len() == s.len() + 1,
{
    lemma_name_position(s, f.name);
    let at = name_position(s, f.name);
    let r = placed(s, f);
    assert(r[at] == f);
    assert forall|i: int, j: int| 0 <= i < j < r.len() implies lex_less(
        (#[trigger] r[i]).name,
        (#[trigger] r[j]).name,
    ) by {
        let a = if i < at {
            i
        } else {
            i - 1
        };
        let b = if j < at {
            j
        } else {
            j - 1
        };
        if i != at {
            assert(r[i] == s[a]);
        }
        if j != at {
            assert(r[j] == s[b]);
        }
    }
}

/// Adding a failover keeps the order of names.
pub proof fn law_creation_keeps_the_name_order(
    c: CatalogModel,
    id: u128,
    request: UpsertFleetDnsFailoverModel,
    peers: Seq<FleetPeerModel>,
    token_configured: bool,
    now: u64,
)
    requires
        in_name_order(c.failovers),
        failover_created(c, id, request, peers, token_configured, now) is Ok,
    ensures
        in_name_order(
            failover_created(c, id, request, peers, token_configured, now)->Ok_0.0.failovers,
        ),
{
    let valid = checked_failover(request, peers)->Ok_0;
    let f = new_failover(id, valid, token_configured, now);
    assert forall|i: int| 0 <= i < c.failovers.len() implies (#[trigger] c.failovers[i]).name
        != f.name by {
        if c.failovers[i].name == valid.name {
            assert(taken(c.failovers, valid) is Some);
        }
    }
    law_placed_keeps_the_name_order(c.failovers, f);
}

proof fn lemma_set_snapshot_lookup(
    c: CatalogModel,
    peer_id: u128,
    snapshot: FleetHealthSnapshotModel,
    other: u128,
)
    requires
        find_snapshot(c.snapshots, peer_id) is Some,
        snapshot.health.peer_id == peer_id,
    ensures
        find_snapshot(set_snapshot(c, peer_id, snapshot).snapshots, other) == if other == peer_id {
            Some(snapshot)
        } else {
            find_snapshot(c.snapshots, other)
        },
{
    let s = c.snapshots;
    let i = first_id(snapshot_ids(s), peer_id);
    let t = s.update(i, snapshot);
    lemma_first_id(snapshot_ids(s), peer_id);
    lemma_first_id(snapshot_ids(s), other);
    assert(snapshot_ids(t) =~= snapshot_ids(s));
}

proof fn lemma_with_snapshot_lookup(
    s: Seq<FleetHealthSnapshotModel>,
    peer_id: u128,
    now: u64,
    other: u128,
)
    ensures
        find_snapshot(with_snapshot(s, peer_id, now), peer_id) is Some,
        find_snapshot(with_snapshot(s, peer_id, now), peer_id)->0.health.peer_id == peer_id,
        other != peer_id ==> find_snapshot(with_snapshot(s, peer_id, now), other) == find_snapshot(
            s,
            other,
        ),
{
    let t = with_snapshot(s, peer_id, now);
    lemma_first_id(snapshot_ids(s), peer_id);
    lemma_first_id(snapshot_ids(s), other);
    if find_snapshot(s, peer_id) is None {
        let ids = snapshot_ids(t);
        assert forall|j: int| 0 <= j < s.len() implies ids[j] == snapshot_ids(s)[j] by {}
        lemma_first_id_unique(ids, peer_id, s.len() as int);
        if other != peer_id {
            let k = first_id(snapshot_ids(s), other);
            if k < s.len() {
                lemma_first_id_unique(ids, other, k);
            } else {
                lemma_first_id_unique(ids, other, t.len() as int);
            }
        }
    }
}

/// A probe of one peer leaves the health of every other peer and all failovers
/// as they were.
pub proof fn law_a_probe_only_touches_its_peer(
    c: CatalogModel,
    peers: Seq<FleetPeerModel>,
    peer_id: u128,
    o: FleetProbeObservationModel,
    other: u128,
)
    requires
        probe_recorded(c, peers, peer_id, o) is Ok,
        other != peer_id,
    ensures
        ({
            let after = probe_recorded(c, peers, peer_id, o)->Ok_0.0;
            &&& find_snapshot(after.snapshots, other) == find_snapshot(c.snapshots, other)
            &&& after.failovers == c.failovers
            &&& after.switch_events == c.switch_events
        }),
{
    let at = o.observed_unix_seconds;
    lemma_with_snapshot_lookup(c.snapshots, peer_id, at, other);
    let ensured = CatalogModel { snapshots: with_snapshot(c.snapshots, peer_id, at), ..c };
    let current = find_snapshot(ensured.snapshots, peer_id)->0;
    let moved = FleetHealthSnapshotModel { health: probed(current, o), ..current };
    lemma_set_snapshot_lookup(ensured, peer_id, moved, other);
}

/// After an accepted probe the peer is recorded with exactly the health that
/// was reported.
pub proof fn law_an_accepted_probe_is_recorded(
    c: CatalogModel,
    peers: Seq<FleetPeerModel>,
    peer_id: u128,
    o: FleetProbeObservationModel,
)
    requires
        probe_recorded(c, peers, peer_id, o) is Ok,
    ensures
        ({
            let (after, result) = probe_recorded(c, peers, peer_id, o)->Ok_0;
            &&& find_snapshot(after.snapshots, peer_id) is Some
            &&& find_snapshot(after.snapshots, peer_id)->0.health == result.health
            &&& result.accepted ==> result.health.last_probe_unix_seconds == Some(
                o.observed_unix_seconds,
            )
        }),
{
    let at = o.observed_unix_seconds;
    lemma_with_snapshot_lookup(c.snapshots, peer_id, at, peer_id);
    let ensured = CatalogModel { snapshots: with_snapshot(c.snapshots, peer_id, at), ..c };
    let current = find_snapshot(ensured.snapshots, peer_id)->0;
    let moved = FleetHealthSnapshotModel { health: probed(current, o), ..current };
    lemma_set_snapshot_lookup(ensured, peer_id, moved, peer_id);
}

/// What is kept of a history stood in it.
proof fn lemma_kept_events_stood(s: Seq<FleetProbeEventModel>, peer_id: u128, k: int)
    requires
        0 <= k < kept_events(s, peer_id).len(),
    ensures
        exists|i: int| 0 <= i < s.len() && s[i] == kept_events(s, peer_id)[k],
    decreases s.len(),
{
    let oldest = crate::fleet_health::oldest_event(s, peer_id);
    if crate::fleet_health::peer_event_count(s, peer_id)
        > crate::fleet_health::MAX_PROBE_EVENTS_PER_PEER && 0 <= oldest < s.len() {
        let rest = s.remove(oldest);
        lemma_kept_events_stood(rest, peer_id, k);
        let i = choose|i: int| 0 <= i < rest.len() && rest[i] == kept_events(rest, peer_id)[k];
        assert(s[if i < oldest {
            i
        } else {
            i + 1
        }] == kept_events(s, peer_id)[k]);
    } else {
        assert(s[k] == kept_events(s, peer_id)[k]);
    }
}

/// Recording the same probe again changes nothing and is reported as a
/// duplicate, as long as the history of the peer still holds it.
pub proof fn law_recording_a_probe_twice_counts_once(
    c: CatalogModel,
    peers: Seq<FleetPeerModel>,
    peer_id: u128,
    o: FleetProbeObservationModel,
)
    requires
        probe_recorded(c, peers, peer_id, o) is Ok,
        probe_event_ids(probe_recorded(c, peers, peer_id, o)->Ok_0.0.probe_events).contains(
            o.event_id,
        ),
    ensures
        ({
            let (after, first) = probe_recorded(c, peers, peer_id, o)->Ok_0;
            let again = probe_recorded(after, peers, peer_id, o);
            &&& again is Ok
            &&& again->Ok_0.0 == after
            &&& again->Ok_0.1.duplicate
            &&& !again->Ok_0.1.accepted
            &&& again->Ok_0.1.health == first.health
        }),
{
    let at = o.observed_unix_seconds;
    let (after, first) = probe_recorded(c, peers, peer_id, o)->Ok_0;
    law_an_accepted_probe_is_recorded(c, peers, peer_id, o);
    let ids = probe_event_ids(c.probe_events);
    let known = first_id(ids, o.event_id);
    lemma_first_id(ids, o.event_id);
    assert(with_snapshot(after.snapshots, peer_id, at) == after.snapshots);
    if known >= c.probe_events.len() {
        let new_ids = probe_event_ids(after.probe_events);
        lemma_first_id(new_ids, o.event_id);
        let k = first_id(new_ids, o.event_id);
        let at_k = choose|i: int| 0 <= i < new_ids.len() && new_ids[i] == o.event_id;
        assert(new_ids[at_k] == o.event_id);
        assert(0 <= k < after.probe_events.len());
        let e = after.probe_events[k];
        assert(new_ids[k] == e.event_id);
        assert(same_probe(e, peer_id, o)) by {
            lemma_remembered_probe(c, peers, peer_id, o, k);
        }
    }
}

/// Of the events after a new probe those with its identifier are that probe.
proof fn lemma_remembered_probe(
    c: CatalogModel,
    peers: Seq<FleetPeerModel>,
    peer_id: u128,
    o: FleetProbeObservationModel,
    k: int,
)
    requires
        probe_recorded(c, peers, peer_id, o) is Ok,
        first_id(probe_event_ids(c.probe_events), o.event_id) >= c.probe_events.len(),
        0 <= k < probe_recorded(c, peers, peer_id, o)->Ok_0.0.probe_events.len(),
        probe_recorded(c, peers, peer_id, o)->Ok_0.0.probe_events[k].event_id == o.event_id,
    ensures
        same_probe(probe_recorded(c, peers, peer_id, o)->Ok_0.0.probe_events[k], peer_id, o),
{
    let ids = probe_event_ids(c.probe_events);
    lemma_first_id(ids, o.event_id);
    let after = probe_recorded(c, peers, peer_id, o)->Ok_0.0;
    assert(exists|x: FleetProbeEventModel|
        after.probe_events == kept_events(#[trigger] c.probe_events.push(x), peer_id)
            && same_probe(x, peer_id, o));
    let x = choose|x: FleetProbeEventModel|
        after.probe_events == kept_events(#[trigger] c.probe_events.push(x), peer_id)
            && same_probe(x, peer_id, o);
    let s = c.probe_events.push(x);
    lemma_kept_events_stood(s, peer_id, k);
    let i = choose|i: int| 0 <= i < s.len() && s[i] == kept_events(s, peer_id)[k];
    if i < c.probe_events.len() {
        assert(ids[i] == o.event_id);
    }
}

/// A failover that is disabled or frozen is left alone by planning.
pub proof fn law_planning_leaves_frozen_failovers_alone(
    s: Seq<FleetDnsFailoverModel>,
    peers: Seq<FleetPeerModel>,
    snapshots: Seq<FleetHealthSnapshotModel>,
    now: u64,
    only: Option<u128>,
    fresh: Seq<u128>,
    n: nat,
    i: int,
)
    requires
        0 <= i < n <= s.len(),
        !plannable(s[i], only),
    ensures
        planned(s, peers, snapshots, now, only, fresh, n).failovers.len() == n,
        planned(s, peers, snapshots, now, only, fresh, n).failovers[i] == s[i],
    decreases n,
{
    lemma_planned_shape(s, peers, snapshots, now, only, fresh, (n - 1) as nat);
    if i < n - 1 {
        law_planning_leaves_frozen_failovers_alone(
            s,
            peers,
            snapshots,
            now,
            only,
            fresh,
            (n - 1) as nat,
            i,
        );
    }
}

proof fn lemma_planned_shape(
    s: Seq<FleetDnsFailoverModel>,
    peers: Seq<FleetPeerModel>,
    snapshots: Seq<FleetHealthSnapshotModel>,
    now: u64,
    only: Option<u128>,
    fresh: Seq<u128>,
    n: nat,
)
    ensures
        planned(s, peers, snapshots, now, only, fresh, n).failovers.len() == n,
    decreases n,
{
    if n > 0 {
        lemma_planned_shape(s, peers, snapshots, now, only, fresh, (n - 1) as nat);
    }
}

/// Every planned change comes from a failover that planning looked at.
pub proof fn law_plans_come_from_plannable_failovers(
    s: Seq<FleetDnsFailoverModel>,
    peers: Seq<FleetPeerModel>,
    snapshots: Seq<FleetHealthSnapshotModel>,
    now: u64,
    only: Option<u128>,
    fresh: Seq<u128>,
    n: nat,
    k: int,
)
    requires
        n <= s.len(),
        0 <= k < planned(s, peers, snapshots, now, only, fresh, n).plans.len(),
    ensures
        exists|i: int|
            0 <= i < n && plannable(#[trigger] s[i], only) && plan_step(
                s[i],
                peers,
                snapshots,
                now,
                fresh[i],
            ).plan == Some(planned(s, peers, snapshots, now, only, fresh, n).plans[k]),
    decreases n,
{
    let before = planned(s, peers, snapshots, now, only, fresh, (n - 1) as nat);
    if k < before.plans.len() {
        law_plans_come_from_plannable_failovers(
            s,
            peers,
            snapshots,
            now,
            only,
            fresh,
            (n - 1) as nat,
            k,
        );
    } else {
        assert(plannable(s[n - 1], only));
    }
}

/// Recording the outcome of a change a second time changes nothing and repeats
/// the first answer as a duplicate, whatever the second outcome claims.
pub proof fn law_completing_a_change_twice_counts_once(
    c: CatalogModel,
    plan: FleetDnsChangePlanModel,
    failure: Option<Seq<char>>,
    now: u64,
    later_failure: Option<Seq<char>>,
    later_now: u64,
)
    requires
        change_completed(c, plan, failure, now) is Ok,
    ensures
        ({
            let (after, first) = change_completed(c, plan, failure, now)->Ok_0;
            change_completed(after, plan, later_failure, later_now) == Ok::<
                (CatalogModel, FleetDnsChangeResultModel),
                FleetDnsError,
            >((after, FleetDnsChangeResultModel { duplicate: true, ..first }))
        }),
{
    let (after, first) = change_completed(c, plan, failure, now)->Ok_0;
    let ids = operation_ids(c.switch_events);
    lemma_first_id(ids, plan.operation_id);
    let e = first_id(ids, plan.operation_id);
    if e >= c.switch_events.len() {
        let new_ids = operation_ids(after.switch_events);
        assert forall|j: int| 0 <= j < c.switch_events.len() implies new_ids[j]
            != plan.operation_id by {
            assert(new_ids[j] == ids[j]);
        }
        lemma_first_id_unique(new_ids, plan.operation_id, c.switch_events.len() as int);
    }
}

/// A failed change leaves the record where it was; a change that was carried
/// out moves it to the planned peer. Either way nothing is pending any more and
/// the next change waits for the cooldown.
pub proof fn law_completion_settles_the_failover(
    f: FleetDnsFailoverModel,
    plan: FleetDnsChangePlanModel,
    error: Option<Seq<char>>,
    now: u64,
)
    ensures
        ({
            let after = completed_failover(f, plan, error, now);
            &&& crate::fleet_dns::pending_of(after) is Absent
            &&& after.next_change_not_before_unix_seconds == sat_add(
                now,
                f.cooldown_seconds as nat,
            )
            &&& error is Some ==> after.current_peer_id == f.current_peer_id
                && after.current_target == f.current_target
            &&& error is None ==> after.current_peer_id == Some(plan.peer_id)
                && after.current_target == Some(plan.target)
        }),
{
}

proof fn lemma_targets_without(s: Seq<FleetDnsPeerTargetModel>, peer_id: u128)
    ensures
        forall|i: int|
            0 <= i < targets_without(s, peer_id).len() ==> (#[trigger] targets_without(
                s,
                peer_id,
            )[i]).peer_id != peer_id,
    decreases s.len(),
{
    if s.len() > 0 {
        lemma_targets_without(s.drop_last(), peer_id);
        let rest = targets_without(s.drop_last(), peer_id);
        let r = targets_without(s, peer_id);
        assert forall|i: int| 0 <= i < r.len() implies (#[trigger] r[i]).peer_id != peer_id by {
            if i < rest.len() {
                assert(r[i] == rest[i]);
            }
        }
    }
}

/// A failover does not refer to a peer that has left the fleet.
pub proof fn law_forgotten_peers_are_not_referred_to(f: FleetDnsFailoverModel, peer_id: u128)
    ensures
        ({
            let after = without_references(f, peer_id);
            &&& after.current_peer_id != Some(peer_id)
            &&& after.pending_peer_id != Some(peer_id)
            &&& forall|i: int|
                0 <= i < after.targets.len() ==> (#[trigger] after.targets[i]).peer_id != peer_id
        }),
{
    lemma_targets_without(f.targets, peer_id);
}

/// The changes of a deleted failover go with it; all others stay in their order.
pub proof fn law_only_the_changes_of_the_failover_go(a: Seq<FleetDnsSwitchEventModel>, b: Seq<FleetDnsSwitchEventModel>, x: FleetDnsSwitchEventModel, failover_id: u128)
    ensures
        events_without(a + b, failover_id) == events_without(a, failover_id) + events_without(b, failover_id),
        x.failover_id == failover_id ==> events_without(seq![x], failover_id) == Seq::<FleetDnsSwitchEventModel>::empty(),
        !(x.failover_id == failover_id) ==> events_without(seq![x], failover_id) == seq![x],
    decreases b.len(),
{
    reveal_with_fuel(events_without, 2);
    assert(seq![x].drop_last() =~= Seq::<FleetDnsSwitchEventModel>::empty());
    if b.len() == 0 {
        assert(a + b =~= a);
        assert(events_without(b, failover_id) =~= Seq::<FleetDnsSwitchEventModel>::empty());
    } else {
        law_only_the_changes_of_the_failover_go(a, b.drop_last(), x, failover_id);
        assert((a + b).drop_last() =~= a + b.drop_last());
        assert((a + b).last() == b.last());
        assert(events_without(a + b, failover_id) =~= events_without(a, failover_id) + events_without(b, failover_id));
    }
}


/// A forgotten peer loses its targets; all others stay in their order.
pub proof fn law_only_the_targets_of_the_peer_go(a: Seq<FleetDnsPeerTargetModel>, b: Seq<FleetDnsPeerTargetModel>, x: FleetDnsPeerTargetModel, peer_id: u128)
    ensures
        targets_without(a + b, peer_id) == targets_without(a, peer_id) + targets_without(b, peer_id),
        x.peer_id == peer_id ==> targets_without(seq![x], peer_id) == Seq::<FleetDnsPeerTargetModel>::empty(),
        !(x.peer_id == peer_id) ==> targets_without(seq![x], peer_id) == seq![x],
    decreases b.len(),
{
    reveal_with_fuel(targets_without, 2);
    assert(seq![x].drop_last() =~= Seq::<FleetDnsPeerTargetModel>::empty());
    if b.len() == 0 {
        assert(a + b =~= a);
        assert(targets_without(b, peer_id) =~= Seq::<FleetDnsPeerTargetModel>::empty());
    } else {
        law_only_the_targets_of_the_peer_go(a, b.drop_last(), x, peer_id);
        assert((a + b).drop_last() =~= a + b.drop_last());
        assert((a + b).last() == b.last());
        assert(targets_without(a + b, peer_id) =~= targets_without(a, peer_id) + targets_without(b, peer_id));
    }
}


/// A forgotten peer loses its probes; all others stay in their order.
pub proof fn law_only_the_probes_of_the_peer_go(a: Seq<FleetProbeEventModel>, b: Seq<FleetProbeEventModel>, x: FleetProbeEventModel, peer_id: u128)
    ensures
        probes_without(a + b, peer_id) == probes_without(a, peer_id) + probes_without(b, peer_id),
        x.peer_id == peer_id ==> probes_without(seq![x], peer_id) == Seq::<FleetProbeEventModel>::empty(),
        !(x.peer_id == peer_id) ==> probes_without(seq![x], peer_id) == seq![x],
    decreases b.len(),
{
    reveal_with_fuel(probes_without, 2);
    assert(seq![x].drop_last() =~= Seq::<FleetProbeEventModel>::empty());
    if b.len() == 0 {
        assert(a + b =~= a);
        assert(probes_without(b, peer_id) =~= Seq::<FleetProbeEventModel>::empty());
    } else {
        law_only_the_probes_of_the_peer_go(a, b.drop_last(), x, peer_id);
        assert((a + b).drop_last() =~= a + b.drop_last());
        assert((a + b).last() == b.last());
        assert(probes_without(a + b, peer_id) =~= probes_without(a, peer_id) + probes_without(b, peer_id));
    }
}


/// A forgotten peer loses its health; that of all others stays in its order.
pub proof fn law_only_the_health_of_the_peer_goes(a: Seq<FleetHealthSnapshotModel>, b: Seq<FleetHealthSnapshotModel>, x: FleetHealthSnapshotModel, peer_id: u128)
    ensures
        snapshots_without(a + b, peer_id) == snapshots_without(a, peer_id) + snapshots_without(b, peer_id),
        x.health.peer_id == peer_id ==> snapshots_without(seq![x], peer_id) == Seq::<FleetHealthSnapshotModel>::empty(),
        !(x.health.peer_id == peer_id) ==> snapshots_without(seq![x], peer_id) == seq![x],
    decreases b.len(),
{
    reveal_with_fuel(snapshots_without, 2);
    assert(seq![x].drop_last() =~= Seq::<FleetHealthSnapshotModel>::empty());
    if b.len() == 0 {
        assert(a + b =~= a);
        assert(snapshots_without(b, peer_id) =~= Seq::<FleetHealthSnapshotModel>::empty());
    } else {
        law_only_the_health_of_the_peer_goes(a, b.drop_last(), x, peer_id);
        assert((a + b).drop_last() =~= a + b.drop_last());
        assert((a + b).last() == b.last());
        assert(snapshots_without(a + b, peer_id) =~= snapshots_without(a, peer_id) + snapshots_without(b, peer_id));
    }
}


/// Every frozen failover is counted once, and no other.
pub proof fn law_frozen_failovers_are_counted(s: Seq<FleetDnsFailoverModel>, x: FleetDnsFailoverModel)
    ensures
        frozen_count(Seq::empty()) == 0,
        x.frozen ==> frozen_count(s.push(x)) == frozen_count(s) + 1,
        !(x.frozen) ==> frozen_count(s.push(x)) == frozen_count(s),
{
    assert(s.push(x).drop_last() =~= s);
}


/// Every failover with a change under way is counted once, and no other.
pub proof fn law_pending_failovers_are_counted(s: Seq<FleetDnsFailoverModel>, x: FleetDnsFailoverModel)
    ensures
        pending_count(Seq::empty()) == 0,
        x.pending_operation_id is Some ==> pending_count(s.push(x)) == pending_count(s) + 1,
        !(x.pending_operation_id is Some) ==> pending_count(s.push(x)) == pending_count(s),
{
    assert(s.push(x).drop_last() =~= s);
}

/// Every enabled peer is counted under the state that its health records, and no
/// other peer is.
pub proof fn law_enabled_peers_are_counted_by_state(
    peers: Seq<FleetPeerModel>,
    peer: FleetPeerModel,
    snapshots: Seq<FleetHealthSnapshotModel>,
    state: FleetHealthState,
)
    ensures
        peers_in_state(Seq::empty(), snapshots, state) == 0,
        peer.enabled && find_snapshot(snapshots, peer.id) is Some && find_snapshot(
            snapshots,
            peer.id,
        )->0.health.state == state ==> peers_in_state(peers.push(peer), snapshots, state)
            == peers_in_state(peers, snapshots, state) + 1,
        !peer.enabled || find_snapshot(snapshots, peer.id) is None || find_snapshot(
            snapshots,
            peer.id,
        )->0.health.state != state ==> peers_in_state(peers.push(peer), snapshots, state)
            == peers_in_state(peers, snapshots, state),
{
    assert(peers.push(peer).drop_last() =~= peers);
}

/// Health is found exactly for the peers that have it recorded, and it is theirs.
pub proof fn law_recorded_health_is_found(s: Seq<FleetHealthSnapshotModel>, peer_id: u128)
    ensures
        find_snapshot(s, peer_id) is Some <==> exists|i: int|
            0 <= i < s.len() && (#[trigger] s[i]).health.peer_id == peer_id,
        find_snapshot(s, peer_id) is Some ==> s.contains(find_snapshot(s, peer_id)->0)
            && find_snapshot(s, peer_id)->0.health.peer_id == peer_id,
{
    lemma_first_id(snapshot_ids(s), peer_id);
    if exists|i: int| 0 <= i < s.len() && (#[trigger] s[i]).health.peer_id == peer_id {
        let i = choose|i: int| 0 <= i < s.len() && (#[trigger] s[i]).health.peer_id == peer_id;
        assert(snapshot_ids(s)[i] == peer_id);
    }
    if find_snapshot(s, peer_id) is Some {
        let i = first_id(snapshot_ids(s), peer_id);
        assert(snapshot_ids(s)[i] == s[i].health.peer_id);
    }
}

/// A failover is found exactly if one of that identifier is kept, and what is found
/// bears the identifier.
pub proof fn law_kept_failovers_are_found(s: Seq<FleetDnsFailoverModel>, id: u128)
    ensures
        find_failover(s, id) is Some <==> exists|i: int|
            0 <= i < s.len() && (#[trigger] s[i]).id == id,
        find_failover(s, id) is Some ==> s.contains(find_failover(s, id)->0) && find_failover(
            s,
            id,
        )->0.id == id,
{
    lemma_first_id(failover_ids(s), id);
    if exists|i: int| 0 <= i < s.len() && (#[trigger] s[i]).id == id {
        let i = choose|i: int| 0 <= i < s.len() && (#[trigger] s[i]).id == id;
        assert(failover_ids(s)[i] == id);
    }
    if find_failover(s, id) is Some {
        let i = first_id(failover_ids(s), id);
        assert(failover_ids(s)[i] == s[i].id);
    }
}

/// Ensuring the health of a peer starts it as never probed where none was recorded,
/// and changes nothing where one was.
pub proof fn law_health_starts_as_unknown(
    s: Seq<FleetHealthSnapshotModel>,
    peer_id: u128,
    now: u64,
)
    ensures
        find_snapshot(s, peer_id) is Some ==> with_snapshot(s, peer_id, now) == s,
        find_snapshot(s, peer_id) is None ==> with_snapshot(s, peer_id, now).len() == s.len() + 1
            && with_snapshot(s, peer_id, now).drop_last() == s && with_snapshot(
            s,
            peer_id,
            now,
        ).last().health.peer_id == peer_id && with_snapshot(
            s,
            peer_id,
            now,
        ).last().health.state == FleetHealthState::Unknown && with_snapshot(
            s,
            peer_id,
            now,
        ).last().health.last_probe_unix_seconds is None,
{
    if find_snapshot(s, peer_id) is None {
        assert(with_snapshot(s, peer_id, now).drop_last() =~= s);
    }
}

/// A probe of an unknown peer is refused, and so is one whose identifier was used for
/// another observation. A known observation is a duplicate, an older one than the last
/// is stale, and every other is accepted.
pub proof fn law_probes_are_judged(
    c: CatalogModel,
    peers: Seq<FleetPeerModel>,
    peer_id: u128,
    o: FleetProbeObservationModel,
)
    ensures
        ({
            let r = probe_recorded(c, peers, peer_id, o);
            let known = find_peer(peers, peer_id) is Some;
            let first = first_id(probe_event_ids(c.probe_events), o.event_id);
            let seen = exists|i: int|
                0 <= i < c.probe_events.len() && (#[trigger] c.probe_events[i]).event_id
                    == o.event_id;
            let e = c.probe_events[first];
            let same = e.peer_id == peer_id && e.observed_unix_seconds == o.observed_unix_seconds
                && e.success == o.success;
            let last = match find_snapshot(c.snapshots, peer_id) {
                Some(s) => s.health.last_probe_unix_seconds,
                None => None,
            };
            let old = last is Some && o.observed_unix_seconds < last->0;
            &&& seen ==> 0 <= first < c.probe_events.len() && e.event_id == o.event_id
            &&& r is Err && r->Err_0 is PeerMissing <==> !known
            &&& r is Err && r->Err_0 is EventConflict <==> known && seen && !same
            &&& r is Ok <==> known && (seen ==> same)
            &&& r is Ok ==> {
                &&& r->Ok_0.1.duplicate <==> seen
                &&& r->Ok_0.1.accepted <==> !seen && !old
                &&& r->Ok_0.1.peer_id == peer_id
                &&& find_snapshot(c.snapshots, peer_id) is Some ==> r->Ok_0.1.previous_state
                    == find_snapshot(c.snapshots, peer_id)->0.health.state
                &&& find_snapshot(c.snapshots, peer_id) is None ==> r->Ok_0.1.previous_state
                    is Unknown
                &&& seen ==> r->Ok_0.1.transition_reason == "duplicate_event_ignored"@
                &&& !seen && old ==> r->Ok_0.1.transition_reason == "stale_event_ignored"@
                &&& r->Ok_0.1.accepted ==> r->Ok_0.1.transition_reason
                    == r->Ok_0.1.health.last_transition_reason
                &&& !r->Ok_0.1.accepted ==> r->Ok_0.1.health.state == r->Ok_0.1.previous_state
            }
        }),
{
    lemma_first_id(probe_event_ids(c.probe_events), o.event_id);
    let seen = exists|i: int|
        0 <= i < c.probe_events.len() && (#[trigger] c.probe_events[i]).event_id == o.event_id;
    let first = first_id(probe_event_ids(c.probe_events), o.event_id);
    if seen {
        let i = choose|i: int|
            0 <= i < c.probe_events.len() && (#[trigger] c.probe_events[i]).event_id == o.event_id;
        assert(probe_event_ids(c.probe_events)[i] == o.event_id);
    }
    if first < c.probe_events.len() {
        assert(probe_event_ids(c.probe_events)[first] == c.probe_events[first].event_id);
    }
    if find_snapshot(c.snapshots, peer_id) is None {
        let t = with_snapshot(c.snapshots, peer_id, o.observed_unix_seconds);
        lemma_with_snapshot_lookup(c.snapshots, peer_id, o.observed_unix_seconds, peer_id);
        lemma_first_id(snapshot_ids(c.snapshots), peer_id);
        lemma_first_id(snapshot_ids(t), peer_id);
        let k = first_id(snapshot_ids(t), peer_id);
        assert(snapshot_ids(t)[k] == t[k].health.peer_id);
        if k < c.snapshots.len() {
            assert(t[k] == c.snapshots[k]);
            assert(snapshot_ids(c.snapshots)[k] == peer_id);
        }
        assert(t[k] == initial_snapshot(peer_id, o.observed_unix_seconds));
    }
}

/// Of a duplicate nothing is remembered. Of every other probe one event is remembered
/// and one is counted, as a failure if it was accepted and failed.
pub proof fn law_probes_are_remembered_once(
    c: CatalogModel,
    peers: Seq<FleetPeerModel>,
    peer_id: u128,
    o: FleetProbeObservationModel,
)
    requires
        probe_recorded(c, peers, peer_id, o) is Ok,
    ensures
        ({
            let (after, r) = probe_recorded(c, peers, peer_id, o)->Ok_0;
            let e = event_of(
                peer_id,
                o,
                r.accepted,
                r.previous_state,
                r.health.state,
                r.transition_reason,
            );
            &&& r.duplicate ==> after.probe_events == c.probe_events && after.counters == c.counters
            &&& !r.duplicate ==> after.probe_events == kept_events(
                c.probe_events.push(e),
                peer_id,
            )
            &&& !r.duplicate && c.counters.probe_events_total < u64::MAX
                ==> after.counters.probe_events_total == c.counters.probe_events_total + 1
            &&& r.accepted && !o.success && c.counters.probe_failures_total < u64::MAX
                ==> after.counters.probe_failures_total == c.counters.probe_failures_total + 1
            &&& o.success || !r.accepted ==> after.counters.probe_failures_total
                == c.counters.probe_failures_total
            &&& after.counters.dns_switches_total == c.counters.dns_switches_total
            &&& after.counters.dns_switch_failures_total == c.counters.dns_switch_failures_total
        }),
{
}

/// A new configuration is refused where it is out of bounds or for an unknown peer.
/// Otherwise it becomes the one of the peer, and of no other.
pub proof fn law_configurations_belong_to_their_peer(
    c: CatalogModel,
    peers: Seq<FleetPeerModel>,
    peer_id: u128,
    request: UpdateFleetHealthConfig,
    now: u64,
    other: u128,
)
    ensures
        ({
            let r = config_updated(c, peers, peer_id, request, now);
            &&& r is Ok <==> config_error(request) is None && find_peer(peers, peer_id) is Some
            &&& r is Err && config_error(request) is Some ==> Some(r->Err_0) == config_error(
                request,
            )
            &&& r is Err && config_error(request) is None ==> r->Err_0 is PeerMissing
            &&& r is Ok ==> {
                let (after, snapshot) = r->Ok_0;
                &&& find_snapshot(after.snapshots, peer_id) == Some(snapshot)
                &&& snapshot.config.success_threshold == request.success_threshold
                &&& snapshot.config.failure_threshold == request.failure_threshold
                &&& snapshot.config.cooldown_seconds == request.cooldown_seconds
                &&& other != peer_id ==> find_snapshot(after.snapshots, other) == find_snapshot(
                    c.snapshots,
                    other,
                )
                &&& after == (CatalogModel { snapshots: after.snapshots, ..c })
            }
        }),
{
    if config_updated(c, peers, peer_id, request, now) is Ok {
        lemma_with_snapshot_lookup(c.snapshots, peer_id, now, other);
        let ensured = CatalogModel { snapshots: with_snapshot(c.snapshots, peer_id, now), ..c };
        let snapshot = reconfigured(
            find_snapshot(ensured.snapshots, peer_id)->0,
            peer_id,
            request,
            now,
        );
        lemma_set_snapshot_lookup(ensured, peer_id, snapshot, other);
        lemma_set_snapshot_lookup(ensured, peer_id, snapshot, peer_id);
    }
}

/// A failover is created exactly if the request is sound and neither its name nor its
/// host name is in use. It starts out unfrozen, with nothing current or pending, due
/// at once and to be reconciled.
pub proof fn law_failovers_are_created_fresh(
    c: CatalogModel,
    id: u128,
    request: UpsertFleetDnsFailoverModel,
    peers: Seq<FleetPeerModel>,
    token_configured: bool,
    now: u64,
)
    ensures
        ({
            let r = failover_created(c, id, request, peers, token_configured, now);
            let checked = checked_failover(request, peers);
            let v = checked->Ok_0;
            let name = exists|i: int|
                0 <= i < c.failovers.len() && (#[trigger] c.failovers[i]).name == v.name;
            let host = exists|i: int|
                0 <= i < c.failovers.len() && (#[trigger] c.failovers[i]).hostname == v.hostname;
            &&& checked is Err ==> r is Err && r->Err_0 == checked->Err_0
            &&& checked is Ok ==> {
                &&& r is Ok <==> !name && !host
                &&& name ==> r->Err_0 is NameTaken
                &&& !name && host ==> r->Err_0 is HostnameTaken
            }
            &&& r is Ok ==> {
                let f = r->Ok_0.1;
                &&& r->Ok_0.0 == (CatalogModel { failovers: r->Ok_0.0.failovers, ..c })
                &&& f.id == id && f.token_configured == token_configured
                &&& f.name == v.name && f.hostname == v.hostname && f.record_type == v.record_type
                &&& f.zone_id == v.zone_id && f.record_id == v.record_id && f.token_env
                    == v.token_env
                &&& f.ttl == v.ttl && f.proxied == v.proxied && f.enabled == v.enabled
                &&& f.cooldown_seconds == v.cooldown_seconds && f.targets == v.targets
                &&& f.reconcile_required && !f.frozen && f.freeze_reason is None
                &&& f.current_peer_id is None && f.current_target is None
                &&& f.last_switch_unix_seconds is None && f.last_switch_reason is None
                    && f.last_error_summary is None
                &&& f.pending_operation_id is None && f.pending_peer_id is None && f.pending_target
                    is None && f.pending_reason is None && f.pending_started_unix_seconds is None
                    && f.pending_lease_until_unix_seconds is None
                &&& f.next_change_not_before_unix_seconds == now && f.created_unix_seconds == now
                    && f.updated_unix_seconds == now
            }
        }),
{
}

/// A failover is updated unless the request is unsound, a change is under way or
/// another failover bears the name or the host name. What it asks for is taken over,
/// the failover is to be reconciled, and all else of it stays.
pub proof fn law_failovers_are_updated_as_asked(
    c: CatalogModel,
    id: u128,
    request: UpsertFleetDnsFailoverModel,
    peers: Seq<FleetPeerModel>,
    token_configured: bool,
    now: u64,
)
    ensures
        ({
            let r = failover_updated(c, id, request, peers, token_configured, now);
            let checked = checked_failover(request, peers);
            let v = checked->Ok_0;
            let f = find_failover(c.failovers, id);
            let at = first_id(failover_ids(c.failovers), id);
            let name = exists|i: int|
                0 <= i < c.failovers.len() && i != at && (#[trigger] c.failovers[i]).name == v.name;
            let host = exists|i: int|
                0 <= i < c.failovers.len() && i != at && (#[trigger] c.failovers[i]).hostname
                    == v.hostname;
            &&& checked is Err ==> r is Err && r->Err_0 == checked->Err_0
            &&& checked is Ok && f is None ==> r is Ok && r->Ok_0.1 is None && r->Ok_0.0 == c
            &&& checked is Ok && f is Some ==> {
                let busy = f->0.pending_operation_id is Some;
                &&& r is Ok <==> !busy && !name && !host
                &&& busy ==> r->Err_0 is OperationPending
                &&& !busy && name ==> r->Err_0 is NameTaken
                &&& !busy && !name && host ==> r->Err_0 is HostnameTaken
                &&& r is Ok ==> {
                    let g = r->Ok_0.1->0;
                    &&& r->Ok_0.1 is Some
                    &&& g == (FleetDnsFailoverModel {
                        name: v.name,
                        hostname: v.hostname,
                        record_type: v.record_type,
                        zone_id: v.zone_id,
                        record_id: v.record_id,
                        token_env: v.token_env,
                        token_configured,
                        ttl: v.ttl,
                        proxied: v.proxied,
                        enabled: v.enabled,
                        cooldown_seconds: v.cooldown_seconds,
                        targets: v.targets,
                        reconcile_required: true,
                        updated_unix_seconds: now,
                        ..f->0
                    })
                    &&& r->Ok_0.0 == (CatalogModel { failovers: r->Ok_0.0.failovers, ..c })
                }
            }
        }),
{
    let checked = checked_failover(request, peers);
    let v = checked->Ok_0;
    let at = first_id(failover_ids(c.failovers), id);
    lemma_first_id(failover_ids(c.failovers), id);
    if checked is Ok && at < c.failovers.len() {
        let rest = c.failovers.remove(at);
        assert forall|i: int| 0 <= i < c.failovers.len() && i != at implies rest[if i < at {
            i
        } else {
            i - 1
        }] == #[trigger] c.failovers[i] by {}
        assert forall|j: int| 0 <= j < rest.len() implies #[trigger] rest[j] == c.failovers[if j
            < at {
            j
        } else {
            j + 1
        }] by {}
        assert((exists|i: int| 0 <= i < rest.len() && (#[trigger] rest[i]).name == v.name) == (
        exists|i: int|
            0 <= i < c.failovers.len() && i != at && (#[trigger] c.failovers[i]).name == v.name))
            by {
            if exists|i: int|
                0 <= i < c.failovers.len() && i != at && (#[trigger] c.failovers[i]).name
                    == v.name {
                let i = choose|i: int|
                    0 <= i < c.failovers.len() && i != at && (#[trigger] c.failovers[i]).name
                        == v.name;
                let j = if i < at {
                    i
                } else {
                    i - 1
                };
                assert(rest[j].name == v.name);
            }
        }
        assert((exists|i: int| 0 <= i < rest.len() && (#[trigger] rest[i]).hostname == v.hostname)
            == (exists|i: int|
            0 <= i < c.failovers.len() && i != at && (#[trigger] c.failovers[i]).hostname
                == v.hostname)) by {
            if exists|i: int|
                0 <= i < c.failovers.len() && i != at && (#[trigger] c.failovers[i]).hostname
                    == v.hostname {
                let i = choose|i: int|
                    0 <= i < c.failovers.len() && i != at && (#[trigger] c.failovers[i]).hostname
                        == v.hostname;
                let j = if i < at {
                    i
                } else {
                    i - 1
                };
                assert(rest[j].hostname == v.hostname);
            }
        }
    }
}

/// A failover is deleted unless a change is under way; all other failovers stay.
pub proof fn law_failovers_are_deleted_at_rest(c: CatalogModel, id: u128)
    ensures
        ({
            let r = failover_deleted(c, id);
            let f = find_failover(c.failovers, id);
            &&& f is None ==> r is Ok && !r->Ok_0.1 && r->Ok_0.0 == c
            &&& f is Some && f->0.pending_operation_id is Some ==> r is Err
                && r->Err_0 is OperationPending
            &&& f is Some && f->0.pending_operation_id is None ==> {
                let after = r->Ok_0.0;
                &&& r is Ok && r->Ok_0.1
                &&& after.failovers.len() == c.failovers.len() - 1
                &&& forall|i: int|
                    0 <= i < c.failovers.len() && (#[trigger] c.failovers[i]).id != id
                        ==> after.failovers.contains(c.failovers[i])
                &&& after.switch_events == events_without(c.switch_events, id)
                &&& after.snapshots == c.snapshots && after.probe_events == c.probe_events
                    && after.counters == c.counters
            }
        }),
{
    lemma_first_id(failover_ids(c.failovers), id);
    let at = first_id(failover_ids(c.failovers), id);
    if at < c.failovers.len() {
        let after = c.failovers.remove(at);
        assert(failover_ids(c.failovers)[at] == c.failovers[at].id);
        assert forall|i: int|
            0 <= i < c.failovers.len() && (#[trigger] c.failovers[i]).id != id implies after.contains(
            c.failovers[i],
        ) by {
            let j = if i < at {
                i
            } else {
                i - 1
            };
            assert(after[j] == c.failovers[i]);
        }
    }
}

/// Freezing takes a reason, which is the given one or a standing one; thawing forgets
/// it. Nothing else of the failover changes, and no other failover does.
pub proof fn law_freezing_takes_a_reason(
    c: CatalogModel,
    id: u128,
    frozen: bool,
    reason: Option<Seq<char>>,
    now: u64,
)
    ensures
        ({
            let r = freeze_set(c, id, frozen, reason, now);
            let f = find_failover(c.failovers, id);
            let text = error_summary(
                if reason is Some {
                    reason->0
                } else {
                    "manual freeze"@
                },
            );
            let at = first_id(failover_ids(c.failovers), id);
            &&& r is Err <==> frozen && text.len() == 0
            &&& r is Err ==> r->Err_0 is FreezeReasonRequired
            &&& r is Ok && f is None ==> r->Ok_0.1 is None && r->Ok_0.0 == c
            &&& r is Ok && f is Some ==> {
                let g = r->Ok_0.1->0;
                let after = r->Ok_0.0;
                &&& r->Ok_0.1 is Some
                &&& g.frozen == frozen
                &&& frozen ==> g.freeze_reason == Some(text)
                &&& !frozen ==> g.freeze_reason is None
                &&& g == (FleetDnsFailoverModel {
                    frozen: g.frozen,
                    freeze_reason: g.freeze_reason,
                    updated_unix_seconds: now,
                    ..f->0
                })
                &&& find_failover(after.failovers, id) == Some(g)
                &&& after.failovers.len() == c.failovers.len()
                &&& forall|i: int|
                    0 <= i < c.failovers.len() && i != at ==> (#[trigger] after.failovers[i])
                        == c.failovers[i]
                &&& after == (CatalogModel { failovers: after.failovers, ..c })
            }
        }),
{
    lemma_first_id(failover_ids(c.failovers), id);
    let r = freeze_set(c, id, frozen, reason, now);
    let at = first_id(failover_ids(c.failovers), id);
    if r is Ok && at < c.failovers.len() {
        assert(failover_ids(c.failovers)[at] == c.failovers[at].id);
        assert(failover_ids(r->Ok_0.0.failovers) =~= failover_ids(c.failovers));
    }
}

/// Changes are planned for the failovers that are enabled and not frozen, of which
/// one may be singled out.
pub proof fn law_changes_are_planned_for_active_failovers(
    f: FleetDnsFailoverModel,
    only: Option<u128>,
)
    ensures
        plannable(f, only) <==> f.enabled && !f.frozen && (only is None || only == Some(f.id)),
{
}

/// Planning goes through all failovers: each that may be planned for is left as its
/// own step leaves it, its change is handed out, and what was given up is recorded and
/// counted as a failure.
pub proof fn law_planning_visits_every_failover(
    s: Seq<FleetDnsFailoverModel>,
    peers: Seq<FleetPeerModel>,
    snapshots: Seq<FleetHealthSnapshotModel>,
    now: u64,
    only: Option<u128>,
    fresh: Seq<u128>,
    n: nat,
    i: int,
)
    requires
        0 <= i < n <= s.len(),
        plannable(s[i], only),
    ensures
        ({
            let all = planned(s, peers, snapshots, now, only, fresh, n);
            let step = plan_step(s[i], peers, snapshots, now, fresh[i]);
            &&& all.failovers.len() == n
            &&& all.failovers[i] == step.failover
            &&& step.plan is Some ==> all.plans.contains(step.plan->0)
            &&& step.given_up is Some ==> all.given_up.contains(step.given_up->0)
            &&& step.failed ==> all.failures >= 1
            &&& all.plans.len() <= n && all.given_up.len() <= n && all.failures <= n
        }),
    decreases n,
{
    let before = planned(s, peers, snapshots, now, only, fresh, (n - 1) as nat);
    let all = planned(s, peers, snapshots, now, only, fresh, n);
    lemma_planned_shape(s, peers, snapshots, now, only, fresh, (n - 1) as nat);
    lemma_planned_sizes(s, peers, snapshots, now, only, fresh, (n - 1) as nat);
    let step = plan_step(s[i], peers, snapshots, now, fresh[i]);
    if i < n - 1 {
        law_planning_visits_every_failover(
            s,
            peers,
            snapshots,
            now,
            only,
            fresh,
            (n - 1) as nat,
            i,
        );
        if step.plan is Some {
            let k = choose|k: int| 0 <= k < before.plans.len() && before.plans[k] == step.plan->0;
            assert(all.plans[k] == step.plan->0);
        }
        if step.given_up is Some {
            let k = choose|k: int|
                0 <= k < before.given_up.len() && before.given_up[k] == step.given_up->0;
            assert(all.given_up[k] == step.given_up->0);
        }
    } else {
        if step.plan is Some {
            assert(all.plans[before.plans.len() as int] == step.plan->0);
        }
        if step.given_up is Some {
            assert(all.given_up[before.given_up.len() as int] == step.given_up->0);
        }
    }
}

proof fn lemma_planned_sizes(
    s: Seq<FleetDnsFailoverModel>,
    peers: Seq<FleetPeerModel>,
    snapshots: Seq<FleetHealthSnapshotModel>,
    now: u64,
    only: Option<u128>,
    fresh: Seq<u128>,
    n: nat,
)
    ensures
        planned(s, peers, snapshots, now, only, fresh, n).plans.len() <= n,
        planned(s, peers, snapshots, now, only, fresh, n).given_up.len() <= n,
        planned(s, peers, snapshots, now, only, fresh, n).failures <= n,
    decreases n,
{
    if n > 0 {
        lemma_planned_sizes(s, peers, snapshots, now, only, fresh, (n - 1) as nat);
    }
}

/// Planning adds what was given up behind the recorded changes and its number to the
/// failures, and leaves health and probes as they were.
pub proof fn law_planning_records_what_was_given_up(c: CatalogModel, fold: PlanFold)
    ensures
        ({
            let after = after_planning(c, fold);
            &&& after.failovers == fold.failovers
            &&& after.switch_events.len() == c.switch_events.len() + fold.given_up.len()
            &&& after.switch_events.take(c.switch_events.len() as int) == c.switch_events
            &&& after.switch_events.skip(c.switch_events.len() as int) == fold.given_up
            &&& c.counters.dns_switch_failures_total + fold.failures <= u64::MAX
                ==> after.counters.dns_switch_failures_total
                == c.counters.dns_switch_failures_total + fold.failures
            &&& after.counters.dns_switches_total == c.counters.dns_switches_total
            &&& after.snapshots == c.snapshots && after.probe_events == c.probe_events
        }),
{
    let after = after_planning(c, fold);
    assert(after.switch_events.take(c.switch_events.len() as int) =~= c.switch_events);
    assert(after.switch_events.skip(c.switch_events.len() as int) =~= fold.given_up);
}

/// A change is completed only if it is the pending one of its failover. A success
/// makes its peer and target the current ones; a failure leaves them. Either way the
/// change is no longer pending, the cooldown starts, and the outcome is recorded and
/// counted.
pub proof fn law_pending_changes_are_completed(
    c: CatalogModel,
    plan: FleetDnsChangePlanModel,
    failure: Option<Seq<char>>,
    now: u64,
)
    requires
        forall|i: int|
            0 <= i < c.switch_events.len() ==> (#[trigger] c.switch_events[i]).operation_id
                != plan.operation_id,
    ensures
        ({
            let r = change_completed(c, plan, failure, now);
            let f = find_failover(c.failovers, plan.failover_id);
            let g = f->0;
            let pending = g.pending_operation_id == Some(plan.operation_id) && g.pending_peer_id
                == Some(plan.peer_id) && g.pending_target == Some(plan.target)
                && g.pending_reason == Some(plan.reason);
            let at = first_id(failover_ids(c.failovers), plan.failover_id);
            &&& f is None ==> r is Err && r->Err_0 is FailoverMissing
            &&& f is Some && !pending ==> r is Err && r->Err_0 is OperationStale
            &&& f is Some && pending ==> {
                let (after, outcome) = r->Ok_0;
                let h = after.failovers[at];
                let e = after.switch_events.last();
                &&& r is Ok
                &&& outcome.operation_id == plan.operation_id && outcome.failover_id
                    == plan.failover_id && outcome.peer_id == plan.peer_id && outcome.target
                    == plan.target && outcome.reason == plan.reason
                &&& !outcome.duplicate
                &&& outcome.applied <==> failure is None
                &&& failure is None ==> outcome.error_summary is None
                &&& failure is Some ==> outcome.error_summary == Some(error_summary(failure->0))
                &&& after.switch_events.drop_last() == c.switch_events
                &&& e.operation_id == plan.operation_id && e.failover_id == plan.failover_id
                    && e.peer_id == plan.peer_id && e.target == plan.target && e.reason
                    == plan.reason
                &&& e.applied == outcome.applied && e.error_summary == outcome.error_summary
                    && e.completed_unix_seconds == now
                &&& h.last_error_summary == outcome.error_summary
                &&& h.pending_operation_id is None && h.pending_peer_id is None && h.pending_target
                    is None && h.pending_reason is None && h.pending_started_unix_seconds is None
                    && h.pending_lease_until_unix_seconds is None
                &&& now + g.cooldown_seconds <= u64::MAX ==> h.next_change_not_before_unix_seconds
                    == now + g.cooldown_seconds
                &&& h.updated_unix_seconds == now
                &&& failure is None ==> {
                    &&& h.current_peer_id == Some(plan.peer_id) && h.current_target == Some(
                        plan.target,
                    )
                    &&& h.last_switch_unix_seconds == Some(now) && h.last_switch_reason == Some(
                        plan.reason,
                    )
                    &&& !h.reconcile_required
                    &&& c.counters.dns_switches_total < u64::MAX
                        ==> after.counters.dns_switches_total == c.counters.dns_switches_total + 1
                    &&& after.counters.dns_switch_failures_total
                        == c.counters.dns_switch_failures_total
                }
                &&& failure is Some ==> {
                    &&& h.current_peer_id == g.current_peer_id && h.current_target
                        == g.current_target
                    &&& h.last_switch_unix_seconds == g.last_switch_unix_seconds
                        && h.last_switch_reason == g.last_switch_reason
                    &&& h.reconcile_required == g.reconcile_required
                    &&& c.counters.dns_switch_failures_total < u64::MAX
                        ==> after.counters.dns_switch_failures_total
                        == c.counters.dns_switch_failures_total + 1
                    &&& after.counters.dns_switches_total == c.counters.dns_switches_total
                }
                &&& h.id == g.id && h.name == g.name && h.hostname == g.hostname && h.targets
                    == g.targets && h.enabled == g.enabled && h.frozen == g.frozen
                    && h.cooldown_seconds == g.cooldown_seconds
                &&& after.failovers.len() == c.failovers.len()
                &&& forall|i: int|
                    0 <= i < c.failovers.len() && i != at ==> (#[trigger] after.failovers[i])
                        == c.failovers[i]
                &&& after.snapshots == c.snapshots && after.probe_events == c.probe_events
            }
        }),
{
    lemma_first_id(operation_ids(c.switch_events), plan.operation_id);
    lemma_first_id(failover_ids(c.failovers), plan.failover_id);
    let e = first_id(operation_ids(c.switch_events), plan.operation_id);
    if e < c.switch_events.len() {
        assert(operation_ids(c.switch_events)[e] == c.switch_events[e].operation_id);
    }
    let r = change_completed(c, plan, failure, now);
    if r is Ok {
        assert(r->Ok_0.0.switch_events.drop_last() =~= c.switch_events);
    }
}

/// A change that was completed before is answered as it was then, and nothing changes;
/// a different change under its identifier is refused as stale.
pub proof fn law_completed_changes_are_answered_as_before(
    c: CatalogModel,
    plan: FleetDnsChangePlanModel,
    failure: Option<Seq<char>>,
    now: u64,
    k: int,
)
    requires
        0 <= k < c.switch_events.len(),
        c.switch_events[k].operation_id == plan.operation_id,
        forall|i: int|
            0 <= i < k ==> (#[trigger] c.switch_events[i]).operation_id != plan.operation_id,
    ensures
        ({
            let r = change_completed(c, plan, failure, now);
            let e = c.switch_events[k];
            let same = e.failover_id == plan.failover_id && e.peer_id == plan.peer_id && e.target
                == plan.target && e.reason == plan.reason;
            &&& !same ==> r is Err && r->Err_0 is OperationStale
            &&& same ==> r is Ok && r->Ok_0.0 == c && r->Ok_0.1.duplicate && r->Ok_0.1.applied
                == e.applied && r->Ok_0.1.error_summary == e.error_summary
        }),
{
    assert(operation_ids(c.switch_events)[k] == plan.operation_id);
    lemma_first_id_unique(operation_ids(c.switch_events), plan.operation_id, k);
}

/// A forgotten peer leaves the failovers in place, with all that does not refer to it.
pub proof fn law_failovers_survive_a_forgotten_peer(c: CatalogModel, peer_id: u128, i: int)
    requires
        0 <= i < c.failovers.len(),
    ensures
        ({
            let after = peer_forgotten(c, peer_id);
            let f = c.failovers[i];
            let g = after.failovers[i];
            &&& after.failovers.len() == c.failovers.len()
            &&& after.switch_events == c.switch_events && after.counters == c.counters
            &&& after.snapshots == snapshots_without(c.snapshots, peer_id)
            &&& after.probe_events == probes_without(c.probe_events, peer_id)
            &&& g.targets == targets_without(f.targets, peer_id)
            &&& f.current_peer_id != Some(peer_id) ==> g.current_peer_id == f.current_peer_id
            &&& f.pending_peer_id != Some(peer_id) ==> g.pending_peer_id == f.pending_peer_id
            &&& f.current_peer_id == Some(peer_id) ==> g.current_peer_id is None
            &&& f.pending_peer_id == Some(peer_id) ==> g.pending_peer_id is None
            &&& g == (FleetDnsFailoverModel {
                targets: g.targets,
                current_peer_id: g.current_peer_id,
                pending_peer_id: g.pending_peer_id,
                ..f
            })
        }),
{
}

/// The changes of a failover are listed from the latest on: the first is one that no
/// other was completed after, and the rest are listed as if it had not been recorded.
pub proof fn law_changes_are_listed_from_the_latest(
    s: Seq<FleetDnsSwitchEventModel>,
    failover_id: u128,
    n: nat,
)
    ensures
        ({
            let r = latest_events(s, failover_id, n);
            let i = latest_event(s, failover_id);
            &&& r.len() == 0 <==> n == 0 || forall|j: int|
                0 <= j < s.len() ==> (#[trigger] s[j]).failover_id != failover_id
            &&& r.len() > 0 ==> {
                &&& 0 <= i < s.len() && s[i].failover_id == failover_id
                &&& r == seq![s[i]] + latest_events(s.remove(i), failover_id, (n - 1) as nat)
                &&& forall|j: int|
                    0 <= j < s.len() && (#[trigger] s[j]).failover_id == failover_id
                        ==> s[j].completed_unix_seconds < s[i].completed_unix_seconds
                        || s[j].completed_unix_seconds == s[i].completed_unix_seconds
                        && s[j].operation_id <= s[i].operation_id
            }
        }),
{
    lemma_latest_event(s, failover_id);
    let i = latest_event(s, failover_id);
    if n > 0 && i < 0 {
    } else if n > 0 {
        assert(s[i].failover_id == failover_id);
        assert(latest_events(s, failover_id, n).len() > 0);
    }
}

proof fn lemma_latest_event(s: Seq<FleetDnsSwitchEventModel>, failover_id: u128)
    ensures
        ({
            let i = latest_event(s, failover_id);
            &&& -1 <= i < s.len()
            &&& i >= 0 ==> s[i].failover_id == failover_id
            &&& i < 0 ==> forall|j: int|
                0 <= j < s.len() ==> (#[trigger] s[j]).failover_id != failover_id
            &&& i >= 0 ==> forall|j: int|
                0 <= j < s.len() && (#[trigger] s[j]).failover_id == failover_id
                    ==> s[j].completed_unix_seconds < s[i].completed_unix_seconds
                    || s[j].completed_unix_seconds == s[i].completed_unix_seconds
                    && s[j].operation_id <= s[i].operation_id
        }),
    decreases s.len(),
{
    if s.len() > 0 {
        let t = s.drop_last();
        lemma_latest_event(t, failover_id);
        let i = latest_event(s, failover_id);
        assert forall|j: int|
            0 <= j < s.len() && i >= 0 && (#[trigger] s[j]).failover_id == failover_id implies
            s[j].completed_unix_seconds < s[i].completed_unix_seconds
            || s[j].completed_unix_seconds == s[i].completed_unix_seconds && s[j].operation_id
            <= s[i].operation_id by {
            if j < t.len() {
                assert(t[j] == s[j]);
            }
        }
        assert forall|j: int| 0 <= j < s.len() && i < 0 implies (#[trigger] s[j]).failover_id
            != failover_id by {
            if j < t.len() {
                assert(t[j] == s[j]);
            }
        }
    }
}

/// No fewer than one and no more than 500 changes are asked for.
pub proof fn law_listings_are_bounded(limit: usize)
    ensures
        1 <= listed_count(limit) <= 500,
        1 <= limit <= 500 ==> listed_count(limit) == limit,
        limit < 1 ==> listed_count(limit) == 1,
        limit > 500 ==> listed_count(limit) == 500,
{
}

/// The figures count the enabled peers by state, the failovers, the frozen and the
/// pending ones, and repeat the counters.
pub proof fn law_metrics_repeat_the_catalog(
    catalog: FleetHealthCatalog,
    peers: Vec<FleetPeer>,
    r: FleetHealthMetrics,
)
    requires
        call_ensures(FleetHealthCatalog::metrics, (&catalog, &peers), r),
    ensures
        ({
            let ps = peer_models(peers@);
            let hs = catalog@.snapshots;
            &&& r.peers_unknown == peers_in_state(ps, hs, FleetHealthState::Unknown)
            &&& r.peers_healthy == peers_in_state(ps, hs, FleetHealthState::Healthy)
            &&& r.peers_degraded == peers_in_state(ps, hs, FleetHealthState::Degraded)
            &&& r.peers_unhealthy == peers_in_state(ps, hs, FleetHealthState::Unhealthy)
            &&& r.peers_recovering == peers_in_state(ps, hs, FleetHealthState::Recovering)
            &&& r.dns_failovers_total == catalog@.failovers.len()
            &&& r.dns_failovers_frozen == frozen_count(catalog@.failovers)
            &&& r.dns_operations_pending == pending_count(catalog@.failovers)
            &&& r.probe_events_total == catalog@.counters.probe_events_total
            &&& r.probe_failures_total == catalog@.counters.probe_failures_total
            &&& r.health_transitions_total == catalog@.counters.health_transitions_total
            &&& r.dns_switches_total == catalog@.counters.dns_switches_total
            &&& r.dns_switch_failures_total == catalog@.counters.dns_switch_failures_total
        }),
{
}

/// The health of a peer is ensured exactly if the peer is known; for an unknown one
/// nothing changes.
pub proof fn law_health_is_kept_for_known_peers(
    catalog: &mut FleetHealthCatalog,
    peers: Vec<FleetPeer>,
    peer_id: u128,
    now: u64,
    r: Result<(), FleetHealthError>,
)
    requires
        call_ensures(FleetHealthCatalog::ensure_peer, (catalog, &peers, peer_id, now), r),
    ensures
        r is Ok <==> find_peer(peer_models(peers@), peer_id) is Some,
        r is Err ==> r->Err_0 is PeerMissing && final(catalog)@ == old(catalog)@,
        r is Ok ==> find_snapshot(final(catalog)@.snapshots, peer_id) is Some,
        r is Ok && find_snapshot(old(catalog)@.snapshots, peer_id) is Some ==> final(catalog)@.snapshots == old(catalog)@.snapshots,
{
    lemma_with_snapshot_lookup(old(catalog)@.snapshots, peer_id, now, peer_id);
}

} // verus!
