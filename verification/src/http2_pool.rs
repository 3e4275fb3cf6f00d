//! The pool of multiplexed HTTP/2 backend connections of one route.
//!
//! The senders themselves are kept by the caller under the identifiers that
//! are handed out here; a sender whose identifier is reported as stopped is to
//! be shut down.

use crate::http_backend_pool::{
    admission, added, has_available, oldest_idle, policy_ids, preferred, removals_are, stale_ids,
    with_connection, without, Admission, BackendConnectionId, BackendConnectionMode,
    BackendPoolLimits, BackendPoolState, BackendRemoval, BackendRemovalReason, ConnectionModel,
    OriginKey, OriginModel, PoolModel,
};
use crate::http_proxy_session::{raised, wrap_add, wrap_down};
use std::collections::HashMap;
use vstd::prelude::*;
use vstd::std_specs::hash::*;

verus! {

broadcast use vstd::std_specs::hash::group_hash_axioms;

/// The most connections that a route opens to its backend.
pub const HTTP2_MAX_CONNECTIONS_PER_ROUTE: usize = 16;

/// The idle time after which a connection is closed, in nanoseconds.
pub const HTTP2_IDLE_TIMEOUT_NANOS: u128 = 30_000_000_000;

/// Counters of a pool; they wrap around.
#[derive(Clone, Copy, Debug, Default, PartialEq, Eq, Structural)]
pub struct Http2BackendCounters {
    pub active_connections: u64,
    pub active_streams: u64,
    pub connections_total: u64,
    pub reused_total: u64,
    pub reconnects_total: u64,
    pub goaway_total: u64,
    pub failures_total: u64,
    pub pool_exhausted_total: u64,
}

/// Why no connection could be had.
#[derive(Clone, Copy, Debug, PartialEq, Eq, Structural)]
pub enum Http2BackendAcquireError {
    HandshakeTimeout,
    CapacityBusy,
}

impl Http2BackendAcquireError {
    /// The text for the log.
    pub fn message(self) -> (r: &'static str)
        ensures
            r@ == match self {
                Http2BackendAcquireError::HandshakeTimeout => "HTTP/2 backend handshake timed out"@,
                Http2BackendAcquireError::CapacityBusy => "HTTP/2 backend pool is busy"@,
            },
    {
        match self {
            Http2BackendAcquireError::HandshakeTimeout => "HTTP/2 backend handshake timed out",
            Http2BackendAcquireError::CapacityBusy => "HTTP/2 backend pool is busy",
        }
    }
}

/// What was already seen of a connection; each counts once.
#[derive(Clone, Copy, Debug, PartialEq, Eq, Structural)]
pub struct ConnectionFlags {
    pub draining_observed: bool,
    pub goaway_observed: bool,
    pub failure_observed: bool,
}

/// What a pool holds.
pub struct Http2Model {
    pub origin: OriginModel,
    pub stream_capacity: usize,
    pub pool: PoolModel,
    pub flags: Map<u64, ConnectionFlags>,
    pub counters: Http2BackendCounters,
    pub recovery_pending: bool,
}

/// A pool of HTTP/2 backend connections.
#[derive(Debug)]
pub struct Http2BackendPool {
    origin: OriginKey,
    stream_capacity: usize,
    pool: BackendPoolState,
    flags: HashMap<u64, ConnectionFlags>,
    counters: Http2BackendCounters,
    recovery_pending: bool,
}

impl View for Http2BackendPool {
    type V = Http2Model;

    closed spec fn view(&self) -> Http2Model {
        Http2Model {
            origin: self.origin@,
            stream_capacity: self.stream_capacity,
            pool: self.pool@,
            flags: self.flags@,
            counters: self.counters,
            recovery_pending: self.recovery_pending,
        }
    }
}

// ---------------------------------------------------------------------------
// Sizing
// ---------------------------------------------------------------------------

/// The streams that one connection carries.
pub open spec fn streams_per_connection(route_stream_limit: nat) -> nat {
    if route_stream_limit < 1 {
        1
    } else if route_stream_limit > 100 {
        100
    } else {
        route_stream_limit
    }
}

/// The connections that a route may open: those that its streams need and one
/// more, at least two and at most 16.
pub open spec fn connection_limit(route_stream_limit: nat) -> nat {
    let per = streams_per_connection(route_stream_limit);
    let needed = (route_stream_limit + per - 1) as nat / per;
    if needed + 1 < 2 {
        2
    } else if needed + 1 > HTTP2_MAX_CONNECTIONS_PER_ROUTE {
        HTTP2_MAX_CONNECTIONS_PER_ROUTE as nat
    } else {
        needed + 1
    }
}

fn connection_limit_for(route_stream_limit: usize) -> (r: usize)
    ensures
        r == connection_limit(route_stream_limit as nat),
        2 <= r <= HTTP2_MAX_CONNECTIONS_PER_ROUTE,
{
    if route_stream_limit == 0 {
        assert(connection_limit(0) == 2) by {
            assert((0 + 1 - 1) as nat / 1 == 0);
        }
        return 2;
    }
    if route_stream_limit <= 100 {
        proof {
            let n = route_stream_limit as int;
            assert((n + n - 1) / n == 1) by (nonlinear_arith)
                requires
                    n >= 1,
            ;
        }
        return 2;
    }
    let needed: usize = (route_stream_limit - 1) / 100 + 1;
    proof {
        let n = route_stream_limit as int;
        assert((n + 100 - 1) / 100 == (n - 1) / 100 + 1);
    }
    if needed >= 15 {
        16
    } else {
        needed + 1
    }
}

// ---------------------------------------------------------------------------
// Steps
// ---------------------------------------------------------------------------

/// The pool after one stream was given back, and whether the connection left.
pub open spec fn stream_returned(p: PoolModel, id: u64, now: nat) -> (PoolModel, bool) {
    let m = p.connections;
    if !m.dom().contains(id) || m[id].idle() {
        (p, false)
    } else if m[id].draining && m[id].active_streams == 1 {
        (PoolModel { connections: m.remove(id), ..p }, true)
    } else {
        (
            with_connection(
                p,
                id,
                ConnectionModel {
                    active_streams: (m[id].active_streams - 1) as nat,
                    last_activity: now,
                    ..m[id]
                },
            ),
            false,
        )
    }
}

/// The pool after a connection was told to drain, and whether it left.
pub open spec fn told_to_drain(p: PoolModel, id: u64) -> (PoolModel, bool) {
    let m = p.connections;
    if !m.dom().contains(id) {
        (p, false)
    } else if m[id].idle() {
        (PoolModel { connections: m.remove(id), ..p }, true)
    } else {
        (with_connection(p, id, ConnectionModel { draining: true, ..m[id] }), false)
    }
}

/// The pool without a lost connection, and whether it was there.
pub open spec fn taken_out(p: PoolModel, id: u64) -> (PoolModel, bool) {
    if p.connections.dom().contains(id) {
        (PoolModel { connections: p.connections.remove(id), ..p }, true)
    } else {
        (p, false)
    }
}

/// What goes with a connection that left the pool: its flags and its place
/// among the active ones.
pub open spec fn forgotten(s: Http2Model, id: u64, left: bool) -> Http2Model {
    if left && s.flags.dom().contains(id) {
        Http2Model {
            flags: s.flags.remove(id),
            counters: Http2BackendCounters {
                active_connections: wrap_down(s.counters.active_connections),
                ..s.counters
            },
            ..s
        }
    } else {
        s
    }
}

/// Whether a sender has to be shut down with its connection.
pub open spec fn stops(s: Http2Model, id: u64, left: bool) -> Option<u64> {
    if left && s.flags.dom().contains(id) {
        Some(id)
    } else {
        None
    }
}

/// The sender that has to be shut down after a step: its connection was known
/// before and is not any more.
pub open spec fn newly_stopped(before: Http2Model, after: Http2Model, id: u64) -> Option<u64> {
    if before.flags.dom().contains(id) && !after.flags.dom().contains(id) {
        Some(id)
    } else {
        None
    }
}

/// Giving back a stream.
pub open spec fn stream_released(s: Http2Model, id: u64, now: nat) -> Http2Model {
    let (pool, left) = stream_returned(s.pool, id, now);
    forgotten(
        Http2Model {
            pool,
            counters: Http2BackendCounters {
                active_streams: wrap_down(s.counters.active_streams),
                ..s.counters
            },
            ..s
        },
        id,
        left,
    )
}

/// Draining a known connection; the first time it makes a recovery due.
pub open spec fn drained(s: Http2Model, id: u64) -> Http2Model {
    let (pool, left) = told_to_drain(s.pool, id);
    let f = s.flags[id];
    forgotten(
        Http2Model {
            pool,
            flags: s.flags.insert(id, ConnectionFlags { draining_observed: true, ..f }),
            recovery_pending: s.recovery_pending || !f.draining_observed,
            ..s
        },
        id,
        left,
    )
}

/// A GOAWAY on a known connection; it counts once.
pub open spec fn goaway_observed(s: Http2Model, id: u64) -> Http2Model {
    let f = s.flags[id];
    drained(
        Http2Model {
            flags: s.flags.insert(id, ConnectionFlags { goaway_observed: true, ..f }),
            counters: Http2BackendCounters {
                goaway_total: if f.goaway_observed {
                    s.counters.goaway_total
                } else {
                    wrap_add(s.counters.goaway_total, 1)
                },
                ..s.counters
            },
            ..s
        },
        id,
    )
}

/// A failure of a known connection; it counts once.
pub open spec fn failure_noted(s: Http2Model, id: u64) -> Http2Model {
    let f = s.flags[id];
    Http2Model {
        flags: s.flags.insert(id, ConnectionFlags { failure_observed: true, ..f }),
        counters: Http2BackendCounters {
            failures_total: if f.failure_observed {
                s.counters.failures_total
            } else {
                wrap_add(s.counters.failures_total, 1)
            },
            ..s.counters
        },
        ..s
    }
}

/// Taking out a lost connection.
pub open spec fn disconnected(s: Http2Model, id: u64) -> Http2Model {
    let (pool, left) = taken_out(s.pool, id);
    forgotten(Http2Model { pool, ..s }, id, left)
}

/// The end of a connection's driver: in order after a GOAWAY, or broken, which
/// makes a recovery due and counts as a failure.
pub open spec fn driver_ended(s: Http2Model, id: u64, in_order: bool) -> Http2Model {
    let known = s.flags.dom().contains(id);
    if in_order {
        disconnected(
            if known {
                goaway_observed(s, id)
            } else {
                s
            },
            id,
        )
    } else {
        let due = Http2Model { recovery_pending: true, ..s };
        disconnected(
            if known {
                failure_noted(due, id)
            } else {
                Http2Model {
                    counters: Http2BackendCounters {
                        failures_total: wrap_add(due.counters.failures_total, 1),
                        ..due.counters
                    },
                    ..due
                }
            },
            id,
        )
    }
}

/// A failed request on a connection, whose sender may be closed by now.
pub open spec fn request_broken(s: Http2Model, id: u64, closed: bool) -> Http2Model {
    if !s.flags.dom().contains(id) {
        s
    } else if closed {
        drained(failure_noted(s, id), id)
    } else {
        failure_noted(s, id)
    }
}

/// A stream was taken from the preferred connection.
pub open spec fn stream_taken(s: Http2Model, id: u64, now: nat) -> Http2Model {
    Http2Model {
        pool: with_connection(
            s.pool,
            id,
            ConnectionModel {
                active_streams: s.pool.connections[id].active_streams + 1,
                last_activity: now,
                ..s.pool.connections[id]
            },
        ),
        ..s
    }
}

/// The outcome of asking for a connection.
#[derive(Clone, Copy, Debug, PartialEq, Eq)]
pub enum Http2Candidate {
    /// No connection has room.
    Exhausted,
    /// An unknown connection was dropped; ask again.
    Dropped,
    /// This connection was chosen; its sender has to be looked at.
    Chosen(BackendConnectionId),
}

/// Asking for a connection.
pub open spec fn asked(before: Http2Model, after: Http2Model, now: nat, r: Http2Candidate) -> bool {
    match r {
        Http2Candidate::Exhausted => {
            !has_available(before.pool.connections, before.origin) && after == before
        },
        Http2Candidate::Dropped => exists|id: u64|
            {
                &&& #[trigger] preferred(before.pool.connections, before.origin, id)
                &&& !before.flags.dom().contains(id)
                &&& after == disconnected(stream_taken(before, id, now), id)
            },
        Http2Candidate::Chosen(connection) => {
            &&& preferred(before.pool.connections, before.origin, connection@)
            &&& before.flags.dom().contains(connection@)
            &&& after == stream_taken(before, connection@, now)
        },
    }
}

/// What becomes of a chosen connection once its sender was looked at: a closed
/// one is drained and given back, an open one is in use.
pub open spec fn looked_at(
    s: Http2Model,
    id: u64,
    closed: bool,
    count_reuse: bool,
    now: nat,
) -> Http2Model {
    if closed {
        stream_released(drained(s, id), id, now)
    } else {
        Http2Model {
            counters: Http2BackendCounters {
                reused_total: if count_reuse {
                    wrap_add(s.counters.reused_total, 1)
                } else {
                    s.counters.reused_total
                },
                active_streams: wrap_add(s.counters.active_streams, 1),
                ..s.counters
            },
            ..s
        }
    }
}

/// The pool without the connection that made room for a fresh one.
pub open spec fn made_room(s: Http2Model, evicted: Option<u64>) -> Http2Model {
    match evicted {
        Some(gone) => forgotten(
            Http2Model {
                pool: PoolModel { connections: s.pool.connections.remove(gone), ..s.pool },
                ..s
            },
            gone,
            true,
        ),
        None => s,
    }
}

/// Registering a fresh connection.
pub open spec fn connected(
    before: Http2Model,
    after: Http2Model,
    now: nat,
    r: Result<(BackendConnectionId, Option<u64>), Http2BackendAcquireError>,
) -> bool {
    let mode = BackendConnectionMode::Multiplexed {
        max_concurrent_streams: before.stream_capacity,
    };
    match r {
        Err(error) => {
            &&& error == Http2BackendAcquireError::CapacityBusy
            &&& admission(before.pool, before.origin) is Busy
            &&& after == Http2Model {
                counters: Http2BackendCounters {
                    pool_exhausted_total: wrap_add(before.counters.pool_exhausted_total, 1),
                    ..before.counters
                },
                ..before
            }
        },
        Ok((fresh, evicted)) => {
            let room = made_room(before, evicted);
            &&& match admission(before.pool, before.origin) {
                Admission::Busy => false,
                Admission::Free => evicted is None,
                Admission::Evict { scope, .. } => evicted is Some && oldest_idle(
                    before.pool.connections,
                    scope,
                    evicted->0,
                ),
            }
            &&& added(room.pool, after.pool, fresh@, before.origin, mode, now)
            &&& after == Http2Model {
                pool: after.pool,
                flags: room.flags.insert(
                    fresh@,
                    ConnectionFlags {
                        draining_observed: false,
                        goaway_observed: false,
                        failure_observed: false,
                    },
                ),
                counters: Http2BackendCounters {
                    active_connections: wrap_add(room.counters.active_connections, 1),
                    connections_total: wrap_add(room.counters.connections_total, 1),
                    reconnects_total: if room.recovery_pending {
                        wrap_add(room.counters.reconnects_total, 1)
                    } else {
                        room.counters.reconnects_total
                    },
                    ..room.counters
                },
                recovery_pending: false,
                ..room
            }
        },
    }
}

/// The counters after `n` known connections left.
pub open spec fn after_stops(c: Http2BackendCounters, n: nat) -> Http2BackendCounters
    decreases n,
{
    if n == 0 {
        c
    } else {
        let before = after_stops(c, (n - 1) as nat);
        Http2BackendCounters { active_connections: wrap_down(before.active_connections), ..before }
    }
}

/// The pool without some of its connections.
pub open spec fn all_forgotten(s: Http2Model, gone: Set<u64>) -> Http2Model {
    Http2Model {
        pool: without(s.pool, gone),
        flags: s.flags.remove_keys(gone),
        counters: after_stops(s.counters, s.flags.dom().intersect(gone).len()),
        ..s
    }
}

impl Http2BackendPool {
    /// Validity: the connection states are valid and a connection carries at
    /// least one stream.
    pub closed spec fn wf(&self) -> bool {
        self.pool.wf() && self.stream_capacity > 0
    }

    /// What validity says of the connection states.
    pub proof fn lemma_wf(&self)
        requires
            self.wf(),
        ensures
            crate::http_backend_pool::pool_invariant(self@.pool),
            self@.stream_capacity > 0,
    {
        self.pool.lemma_wf();
    }

    pub fn new(origin: OriginKey, route_stream_limit: usize) -> (r: Self)
        ensures
            r.wf(),
            r@ == (Http2Model {
                origin: origin@,
                stream_capacity: streams_per_connection(route_stream_limit as nat) as usize,
                pool: PoolModel {
                    limits: BackendPoolLimits {
                        max_connections: connection_limit(route_stream_limit as nat) as usize,
                        max_connections_per_origin: connection_limit(
                            route_stream_limit as nat,
                        ) as usize,
                        idle_timeout_nanos: HTTP2_IDLE_TIMEOUT_NANOS,
                    },
                    next_id: 1,
                    connections: Map::empty(),
                },
                flags: Map::empty(),
                counters: Http2BackendCounters {
                    active_connections: 0,
                    active_streams: 0,
                    connections_total: 0,
                    reused_total: 0,
                    reconnects_total: 0,
                    goaway_total: 0,
                    failures_total: 0,
                    pool_exhausted_total: 0,
                },
                recovery_pending: false,
            }),
    {
        let stream_capacity: usize = if route_stream_limit < 1 {
            1
        } else if route_stream_limit > 100 {
            100
        } else {
            route_stream_limit
        };
        let limit: usize = connection_limit_for(route_stream_limit);
        let limits = BackendPoolLimits {
            max_connections: limit,
            max_connections_per_origin: limit,
            idle_timeout_nanos: HTTP2_IDLE_TIMEOUT_NANOS,
        };
        Http2BackendPool {
            origin,
            stream_capacity,
            pool: BackendPoolState::new(limits),
            flags: HashMap::new(),
            counters: Http2BackendCounters {
                active_connections: 0,
                active_streams: 0,
                connections_total: 0,
                reused_total: 0,
                reconnects_total: 0,
                goaway_total: 0,
                failures_total: 0,
                pool_exhausted_total: 0,
            },
            recovery_pending: false,
        }
    }

    /// The counters.
    pub fn counters(&self) -> (r: Http2BackendCounters)
        ensures
            r == self@.counters,
    {
        self.counters
    }

    /// The streams that one connection carries.
    pub fn stream_capacity(&self) -> (r: usize)
        ensures
            r == self@.stream_capacity,
    {
        self.stream_capacity
    }

    /// Counts a connection that could not be made.
    pub fn connect_failed(&mut self)
        ensures
            final(self)@ == (Http2Model {
                counters: Http2BackendCounters {
                    failures_total: wrap_add(old(self)@.counters.failures_total, 1),
                    ..old(self)@.counters
                },
                ..old(self)@
            }),
            old(self).wf() ==> final(self).wf(),
    {
        self.counters.failures_total = self.counters.failures_total.wrapping_add(1);
    }

    fn forget(&mut self, id: u64, left: bool) -> (r: Option<u64>)
        ensures
            final(self).pool == old(self).pool,
            final(self).origin == old(self).origin,
            final(self).stream_capacity == old(self).stream_capacity,
            final(self)@ == forgotten(old(self)@, id, left),
            r == stops(old(self)@, id, left),
    {
        if left && self.flags.contains_key(&id) {
            self.flags.remove(&id);
            self.counters.active_connections = self.counters.active_connections.wrapping_sub(1);
            Some(id)
        } else {
            None
        }
    }

    fn forget_all(
        &mut self,
        removals: &Vec<BackendRemoval>,
        Ghost(m): Ghost<Map<u64, ConnectionModel>>,
        Ghost(gone): Ghost<Set<u64>>,
        Ghost(reason): Ghost<BackendRemovalReason>,
    ) -> (r: Vec<u64>)
        requires
            removals_are(removals@, m, gone, reason),
        ensures
            final(self).pool == old(self).pool,
            final(self).origin == old(self).origin,
            final(self).stream_capacity == old(self).stream_capacity,
            final(self).recovery_pending == old(self).recovery_pending,
            final(self).flags@ == old(self).flags@.remove_keys(gone),
            final(self).counters == after_stops(
                old(self).counters,
                old(self).flags@.dom().intersect(gone).len(),
            ),
            r@.to_set() == old(self).flags@.dom().intersect(gone),
    {
        let ghost flags = self.flags@;
        let mut stopped: Vec<u64> = Vec::new();
        let ghost mut done: Set<u64> = Set::empty();
        let mut i: usize = 0;
        proof {
            assert(flags.remove_keys(done) =~= flags);
            assert(flags.dom().intersect(done) =~= Set::empty());
            assert(stopped@.to_set() =~= Set::empty());
        }
        while i < removals.len()
            invariant
                i <= removals@.len(),
                removals_are(removals@, m, gone, reason),
                flags == old(self).flags@,
                flags.dom().finite(),
                self.pool == old(self).pool,
                self.origin == old(self).origin,
                self.stream_capacity == old(self).stream_capacity,
                self.recovery_pending == old(self).recovery_pending,
                forall|id: u64| #[trigger]
                    done.contains(id) <==> exists|j: int|
                        0 <= j < i && (#[trigger] removals@[j]).connection_id@ == id,
                self.flags@ == flags.remove_keys(done),
                self.counters == after_stops(
                    old(self).counters,
                    flags.dom().intersect(done).len(),
                ),
                stopped@.to_set() == flags.dom().intersect(done),
            decreases removals@.len() - i,
        {
            let ghost id = removals@[i as int].connection_id@;
            let ghost known = flags.dom().intersect(done);
            proof {
                assert(!done.contains(id)) by {
                    if done.contains(id) {
                        let j = choose|j: int|
                            0 <= j < i && (#[trigger] removals@[j]).connection_id@ == id;
                        assert(removals@[j].connection_id@ != removals@[i as int].connection_id@);
                    }
                }
                vstd::set_lib::lemma_len_subset(known, flags.dom());
                if flags.dom().contains(id) {
                    assert(flags.dom().intersect(done.insert(id)) =~= known.insert(id));
                } else {
                    assert(flags.dom().intersect(done.insert(id)) =~= known);
                }
                assert(flags.remove_keys(done).remove(id) =~= flags.remove_keys(done.insert(id)));
                if !flags.dom().contains(id) {
                    assert(flags.remove_keys(done) =~= flags.remove_keys(done.insert(id)));
                }
                assert forall|k: u64| #[trigger] done.insert(id).contains(k) <==> exists|j: int|
                    0 <= j < i + 1 && (#[trigger] removals@[j]).connection_id@ == k by {
                    if done.contains(k) {
                        let j = choose|j: int|
                            0 <= j < i && (#[trigger] removals@[j]).connection_id@ == k;
                        assert(removals@[j].connection_id@ == k);
                    }
                    if k == id {
                        assert(removals@[i as int].connection_id@ == k);
                    }
                }
            }
            let left: u64 = removals[i].connection_id.get();
            if let Some(stop) = self.forget(left, true) {
                proof {
                    assert(stopped@.push(stop).to_set() =~= known.insert(id)) by {
                        lemma_push_to_set(stopped@, stop);
                    }
                }
                stopped.push(stop);
            }
            proof {
                done = done.insert(id);
            }
            i = i + 1;
        }
        proof {
            assert forall|id: u64| gone.contains(id) == done.contains(id) by {
                if gone.contains(id) {
                    let j = choose|j: int|
                        0 <= j < removals@.len() && removals@[j].connection_id@ == id;
                    assert(removals@[j].connection_id@ == id);
                }
                if done.contains(id) {
                    let j = choose|j: int|
                        0 <= j < removals@.len() && (#[trigger] removals@[j]).connection_id@ == id;
                    assert(gone.contains(removals@[j].connection_id@));
                }
            }
            assert(done =~= gone);
        }
        stopped
    }

    /// Drops connections that were idle for too long; the given senders are to
    /// be shut down.
    pub fn prune_idle(&mut self, now: u128) -> (r: Vec<u64>)
        requires
            old(self).wf(),
        ensures
            final(self).wf(),
            final(self)@ == all_forgotten(old(self)@, stale_ids(old(self)@.pool, now as nat)),
            r@.to_set() == old(self)@.flags.dom().intersect(
                stale_ids(old(self)@.pool, now as nat),
            ),
    {
        let ghost before = self.pool@;
        let removals = self.pool.prune_idle(now);
        self.forget_all(
            &removals,
            Ghost(before.connections),
            Ghost(stale_ids(before, now as nat)),
            Ghost(BackendRemovalReason::IdleTimeout),
        )
    }

    /// Drops the connections of the route's policy; the given senders are to be
    /// shut down.
    pub fn invalidate(&mut self) -> (r: Vec<u64>)
        requires
            old(self).wf(),
        ensures
            final(self).wf(),
            final(self)@ == all_forgotten(
                old(self)@,
                policy_ids(old(self)@.pool.connections, old(self)@.origin.policy_id),
            ),
            r@.to_set() == old(self)@.flags.dom().intersect(
                policy_ids(old(self)@.pool.connections, old(self)@.origin.policy_id),
            ),
    {
        let ghost before = self.pool@;
        let policy_id: u128 = self.origin.policy_id();
        let removals = self.pool.invalidate_policy(policy_id);
        self.forget_all(
            &removals,
            Ghost(before.connections),
            Ghost(policy_ids(before.connections, policy_id)),
            Ghost(BackendRemovalReason::PolicyInvalidated),
        )
    }

    /// Asks for a connection with room for a stream.
    pub fn choose_connection(&mut self, now: u128) -> (r: Http2Candidate)
        requires
            old(self).wf(),
        ensures
            final(self).wf(),
            asked(old(self)@, final(self)@, now as nat, r),
    {
        let ghost before = self@;
        match self.pool.acquire(&self.origin, now) {
            None => Http2Candidate::Exhausted,
            Some(lease) => {
                let id: u64 = lease.connection_id.get();
                let ghost taken = self@;
                assert(taken == stream_taken(before, id, now as nat));
                if self.flags.contains_key(&id) {
                    Http2Candidate::Chosen(lease.connection_id)
                } else {
                    let _stop = self.disconnect(lease.connection_id);
                    assert(preferred(before.pool.connections, before.origin, id));
                    Http2Candidate::Dropped
                }
            },
        }
    }

    /// Says whether the sender of a chosen connection was closed; whether the
    /// connection can be used. A sender that is reported is to be shut down.
    pub fn confirm(
        &mut self,
        connection_id: BackendConnectionId,
        closed: bool,
        count_reuse: bool,
        now: u128,
    ) -> (r: (bool, Option<u64>))
        requires
            old(self).wf(),
            old(self)@.flags.dom().contains(connection_id@),
        ensures
            final(self).wf(),
            r.0 == !closed,
            r.1 == newly_stopped(old(self)@, final(self)@, connection_id@),
            final(self)@ == looked_at(
                old(self)@,
                connection_id@,
                closed,
                count_reuse,
                now as nat,
            ),
    {
        if closed {
            let first = self.mark_draining(connection_id);
            let second = self.release(connection_id, now);
            let stop = match first {
                Some(id) => Some(id),
                None => second,
            };
            (false, stop)
        } else {
            if count_reuse {
                self.counters.reused_total = self.counters.reused_total.wrapping_add(1);
            }
            self.counters.active_streams = self.counters.active_streams.wrapping_add(1);
            (true, None)
        }
    }

    /// Registers a connection that was just made. With it comes the connection
    /// that had to make room.
    pub fn connected(&mut self, now: u128) -> (r: Result<
        (BackendConnectionId, Option<u64>),
        Http2BackendAcquireError,
    >)
        requires
            old(self).wf(),
        ensures
            final(self).wf(),
            connected(old(self)@, final(self)@, now as nat, r),
    {
        let ghost before = self@;
        let mode = BackendConnectionMode::Multiplexed {
            max_concurrent_streams: self.stream_capacity,
        };
        match self.pool.register(self.origin.duplicate(), mode, now) {
            Err(_) => {
                self.counters.pool_exhausted_total =
                self.counters.pool_exhausted_total.wrapping_add(1);
                Err(Http2BackendAcquireError::CapacityBusy)
            },
            Ok(registration) => {
                let ghost middle = self.pool@;
                let evicted: Option<u64> = if registration.removals.len() > 0 {
                    let gone: u64 = registration.removals[0].connection_id.get();
                    let _stop = self.forget(gone, true);
                    Some(gone)
                } else {
                    None
                };
                let id: u64 = registration.connection_id.get();
                self.flags.insert(
                    id,
                    ConnectionFlags {
                        draining_observed: false,
                        goaway_observed: false,
                        failure_observed: false,
                    },
                );
                self.counters.active_connections =
                self.counters.active_connections.wrapping_add(1);
                self.counters.connections_total = self.counters.connections_total.wrapping_add(1);
                if self.recovery_pending {
                    self.recovery_pending = false;
                    self.counters.reconnects_total =
                    self.counters.reconnects_total.wrapping_add(1);
                }
                Ok((registration.connection_id, evicted))
            },
        }
    }

    fn mark_draining(&mut self, connection_id: BackendConnectionId) -> (r: Option<u64>)
        requires
            old(self).wf(),
            old(self)@.flags.dom().contains(connection_id@),
        ensures
            final(self).wf(),
            final(self)@ == drained(old(self)@, connection_id@),
            r == newly_stopped(old(self)@, final(self)@, connection_id@),
    {
        let ghost before = self@;
        let id: u64 = connection_id.get();
        let flags: ConnectionFlags = match self.flags.get(&id) {
            Some(flags) => *flags,
            None => ConnectionFlags {
                draining_observed: false,
                goaway_observed: false,
                failure_observed: false,
            },
        };
        if !flags.draining_observed {
            self.recovery_pending = true;
        }
        self.flags.insert(
            id,
            ConnectionFlags {
                draining_observed: true,
                goaway_observed: flags.goaway_observed,
                failure_observed: flags.failure_observed,
            },
        );
        let removal = self.pool.mark_goaway(connection_id);
        self.forget(id, removal.is_some())
    }

    fn observe_goaway(&mut self, connection_id: BackendConnectionId) -> (r: Option<u64>)
        requires
            old(self).wf(),
            old(self)@.flags.dom().contains(connection_id@),
        ensures
            final(self).wf(),
            final(self)@ == goaway_observed(old(self)@, connection_id@),
            r == newly_stopped(old(self)@, final(self)@, connection_id@),
    {
        let id: u64 = connection_id.get();
        let flags: ConnectionFlags = match self.flags.get(&id) {
            Some(flags) => *flags,
            None => ConnectionFlags {
                draining_observed: false,
                goaway_observed: false,
                failure_observed: false,
            },
        };
        if !flags.goaway_observed {
            self.counters.goaway_total = self.counters.goaway_total.wrapping_add(1);
        }
        self.flags.insert(
            id,
            ConnectionFlags {
                draining_observed: flags.draining_observed,
                goaway_observed: true,
                failure_observed: flags.failure_observed,
            },
        );
        self.mark_draining(connection_id)
    }

    fn record_failure(&mut self, connection_id: BackendConnectionId)
        requires
            old(self).wf(),
            old(self)@.flags.dom().contains(connection_id@),
        ensures
            final(self).wf(),
            final(self)@ == failure_noted(old(self)@, connection_id@),
    {
        let id: u64 = connection_id.get();
        let flags: ConnectionFlags = match self.flags.get(&id) {
            Some(flags) => *flags,
            None => ConnectionFlags {
                draining_observed: false,
                goaway_observed: false,
                failure_observed: false,
            },
        };
        if !flags.failure_observed {
            self.counters.failures_total = self.counters.failures_total.wrapping_add(1);
        }
        self.flags.insert(
            id,
            ConnectionFlags {
                draining_observed: flags.draining_observed,
                goaway_observed: flags.goaway_observed,
                failure_observed: true,
            },
        );
    }

    /// Gives a stream back; the sender that is to be shut down with it.
    pub fn release(&mut self, connection_id: BackendConnectionId, now: u128) -> (r: Option<u64>)
        requires
            old(self).wf(),
        ensures
            final(self).wf(),
            final(self)@ == stream_released(old(self)@, connection_id@, now as nat),
            r == stops(
                old(self)@,
                connection_id@,
                stream_returned(old(self)@.pool, connection_id@, now as nat).1,
            ),
    {
        self.counters.active_streams = self.counters.active_streams.wrapping_sub(1);
        let removal = self.pool.release(connection_id, now);
        self.forget(connection_id.get(), removal.is_some())
    }

    fn disconnect(&mut self, connection_id: BackendConnectionId) -> (r: Option<u64>)
        requires
            old(self).wf(),
        ensures
            final(self).wf(),
            final(self)@ == disconnected(old(self)@, connection_id@),
            r == stops(
                old(self)@,
                connection_id@,
                old(self)@.pool.connections.dom().contains(connection_id@),
            ),
    {
        let removal = self.pool.disconnected(connection_id);
        self.forget(connection_id.get(), removal.is_some())
    }

    /// Reports the end of a connection's driver.
    pub fn connection_finished(&mut self, connection_id: BackendConnectionId, in_order: bool)
        requires
            old(self).wf(),
        ensures
            final(self).wf(),
            final(self)@ == driver_ended(old(self)@, connection_id@, in_order),
    {
        let id: u64 = connection_id.get();
        let known = self.flags.contains_key(&id);
        if in_order {
            if known {
                let _stop = self.observe_goaway(connection_id);
            }
        } else {
            self.recovery_pending = true;
            if known {
                self.record_failure(connection_id);
            } else {
                self.counters.failures_total = self.counters.failures_total.wrapping_add(1);
            }
        }
        let _stop = self.disconnect(connection_id);
    }

    /// Reports a failed request, and whether the sender is closed by now.
    pub fn request_failed(&mut self, connection_id: BackendConnectionId, closed: bool) -> (r: Option<
        u64,
    >)
        requires
            old(self).wf(),
        ensures
            final(self).wf(),
            final(self)@ == request_broken(old(self)@, connection_id@, closed),
            r == newly_stopped(old(self)@, final(self)@, connection_id@),
    {
        let id: u64 = connection_id.get();
        if !self.flags.contains_key(&id) {
            return None;
        }
        self.record_failure(connection_id);
        if closed {
            self.mark_draining(connection_id)
        } else {
            None
        }
    }
}

proof fn lemma_push_to_set(s: Seq<u64>, x: u64)
    ensures
        s.push(x).to_set() == s.to_set().insert(x),
{
    assert forall|k: u64| s.push(x).to_set().contains(k) == s.to_set().insert(x).contains(k) by {
        if s.push(x).contains(k) {
            let j = choose|j: int| 0 <= j < s.push(x).len() && s.push(x)[j] == k;
            if j < s.len() {
                assert(s.contains(s[j]));
            }
        }
        if s.contains(k) {
            let j = choose|j: int| 0 <= j < s.len() && s[j] == k;
            assert(s.push(x)[j] == k);
        }
        if k == x {
            assert(s.push(x)[s.len() as int] == k);
        }
    }
    assert(s.push(x).to_set() =~= s.to_set().insert(x));
}

// ---------------------------------------------------------------------------
// Laws
// ---------------------------------------------------------------------------

/// A route opens at least two and at most 16 connections, and unless that
/// bound is in the way they carry all its streams with one connection to spare.
pub proof fn law_connection_limits_cover_the_route(limit: nat)
    ensures
        2 <= connection_limit(limit) <= HTTP2_MAX_CONNECTIONS_PER_ROUTE,
        1 <= streams_per_connection(limit) <= 100,
        connection_limit(limit) < HTTP2_MAX_CONNECTIONS_PER_ROUTE ==> (connection_limit(limit) - 1)
            * streams_per_connection(limit) >= limit,
{
    let per = streams_per_connection(limit) as int;
    let n = limit as int;
    let needed = (n + per - 1) / per;
    assert(needed * per >= n) by (nonlinear_arith)
        requires
            needed == (n + per - 1) / per,
            per >= 1,
            n >= 0,
    ;
    assert(needed >= 0) by (nonlinear_arith)
        requires
            needed == (n + per - 1) / per,
            per >= 1,
            n >= 0,
    ;
    if connection_limit(limit) < HTTP2_MAX_CONNECTIONS_PER_ROUTE {
        let spare = connection_limit(limit) - 1;
        assert(spare >= needed);
        assert(spare * per >= needed * per) by (nonlinear_arith)
            requires
                spare >= needed,
                per >= 1,
        ;
    }
}

/// A GOAWAY that is seen again is not counted again.
pub proof fn law_a_goaway_counts_once(s: Http2Model, id: u64)
    requires
        s.flags.dom().contains(id),
        s.flags[id].goaway_observed,
    ensures
        goaway_observed(s, id).counters.goaway_total == s.counters.goaway_total,
{
}

/// After a connection broke, the next one that is made counts as a reconnect.
pub proof fn law_broken_connections_are_recovered(
    s: Http2Model,
    id: u64,
    after: Http2Model,
    now: nat,
    r: Result<(BackendConnectionId, Option<u64>), Http2BackendAcquireError>,
)
    requires
        connected(driver_ended(s, id, false), after, now, r),
        r is Ok,
    ensures
        after.counters.reconnects_total == wrap_add(s.counters.reconnects_total, 1),
        !after.recovery_pending,
{
}

/// A connection whose driver has ended is gone.
pub proof fn law_ended_connections_are_gone(s: Http2Model, id: u64, in_order: bool)
    ensures
        !driver_ended(s, id, in_order).pool.connections.dom().contains(id),
{
}

/// A connection carries as many streams as the route allows, but at least one and at
/// most 100; a route has room for one connection more than it needs, but at least two
/// and at most 16, and they are idle for 30 seconds.
pub proof fn law_routes_have_room(limit: nat)
    ensures
        1 <= limit <= 100 ==> streams_per_connection(limit) == limit && connection_limit(limit)
            == 2,
        limit == 0 ==> streams_per_connection(limit) == 1 && connection_limit(limit) == 2,
        limit > 100 ==> streams_per_connection(limit) == 100,
        limit > 1500 ==> connection_limit(limit) == 16,
        100 < limit <= 1500 ==> (connection_limit(limit) - 2) * 100 < limit <= (connection_limit(
            limit,
        ) - 1) * 100 || limit > 1400 && connection_limit(limit) == 16,
        HTTP2_IDLE_TIMEOUT_NANOS == 30_000_000_000,
{
    let per = streams_per_connection(limit);
    if 1 <= limit <= 100 {
        assert((limit + limit - 1) as nat / limit == 1) by (nonlinear_arith)
            requires
                1 <= limit,
        ;
    } else if limit == 0 {
        assert((0 + 1 - 1) as nat / 1nat == 0);
    }
}

/// A stream that was returned is taken off its connection, which ends with the last
/// stream if it drains.
pub proof fn law_returned_streams_are_taken_off(p: PoolModel, id: u64, now: nat)
    ensures
        ({
            let (after, left) = stream_returned(p, id, now);
            let m = p.connections;
            let busy = m.dom().contains(id) && m[id].active_streams > 0;
            &&& left <==> busy && m[id].draining && m[id].active_streams == 1
            &&& left ==> !after.connections.dom().contains(id)
            &&& !busy ==> after == p
            &&& busy && !left ==> after.connections[id] == (ConnectionModel {
                active_streams: (m[id].active_streams - 1) as nat,
                last_activity: now,
                ..m[id]
            })
        }),
        ({
            let (after, left) = told_to_drain(p, id);
            let m = p.connections;
            &&& left <==> m.dom().contains(id) && m[id].active_streams == 0
            &&& left ==> !after.connections.dom().contains(id)
            &&& m.dom().contains(id) && !left ==> after.connections[id] == (ConnectionModel {
                draining: true,
                ..m[id]
            })
            &&& !m.dom().contains(id) ==> after == p
        }),
        ({
            let (after, left) = taken_out(p, id);
            &&& left <==> p.connections.dom().contains(id)
            &&& !after.connections.dom().contains(id)
        }),
{
}

/// A connection is forgotten exactly if it left the pool and was known, and is then no
/// longer counted as active; that is when it has to be stopped.
pub proof fn law_connections_that_left_are_forgotten(s: Http2Model, id: u64, left: bool)
    ensures
        ({
            let a = forgotten(s, id, left);
            let gone = left && s.flags.dom().contains(id);
            &&& gone ==> a.flags == s.flags.remove(id) && raised(
                a.counters.active_connections,
                s.counters.active_connections,
                1,
            ) && stops(s, id, left) == Some(id)
            &&& !gone ==> a == s && stops(s, id, left) is None
            &&& a.pool == s.pool && a.recovery_pending == s.recovery_pending && a.origin == s.origin
                && a.stream_capacity == s.stream_capacity
            &&& a.counters == (Http2BackendCounters {
                active_connections: a.counters.active_connections,
                ..s.counters
            })
        }),
{
}

/// A released stream is counted as ended, in any case.
pub proof fn law_released_streams_are_counted(s: Http2Model, id: u64, now: nat)
    ensures
        ({
            let a = stream_released(s, id, now);
            let left = stream_returned(s.pool, id, now).1;
            &&& raised(a.counters.active_streams, s.counters.active_streams, 1)
            &&& a.pool == stream_returned(s.pool, id, now).0
            &&& left && s.flags.dom().contains(id) ==> !a.flags.dom().contains(id) && raised(
                a.counters.active_connections,
                s.counters.active_connections,
                1,
            )
            &&& !left ==> a.flags == s.flags && a.counters.active_connections
                == s.counters.active_connections
            &&& a.counters.failures_total == s.counters.failures_total && a.counters.goaway_total
                == s.counters.goaway_total && a.counters.reused_total == s.counters.reused_total
        }),
{
}

/// A connection that is seen to drain takes no stream any more, and that it was seen
/// for the first time makes the next connection a recovery.
pub proof fn law_draining_is_noticed_once(s: Http2Model, id: u64)
    requires
        s.flags.dom().contains(id),
    ensures
        ({
            let a = drained(s, id);
            let idle = s.pool.connections.dom().contains(id)
                && s.pool.connections[id].active_streams == 0;
            &&& a.recovery_pending <==> s.recovery_pending || !s.flags[id].draining_observed
            &&& idle ==> !a.flags.dom().contains(id) && !a.pool.connections.dom().contains(id)
                && raised(a.counters.active_connections, s.counters.active_connections, 1)
            &&& !idle ==> a.flags.dom().contains(id) && a.flags[id] == (ConnectionFlags {
                draining_observed: true,
                ..s.flags[id]
            }) && a.counters == s.counters
            &&& !idle && s.pool.connections.dom().contains(id)
                ==> a.pool.connections[id].draining
        }),
{
}

/// A connection that was told to go away is counted once and drains.
pub proof fn law_goaways_are_counted_and_drain(s: Http2Model, id: u64)
    requires
        s.flags.dom().contains(id),
    ensures
        ({
            let a = goaway_observed(s, id);
            let idle = s.pool.connections.dom().contains(id)
                && s.pool.connections[id].active_streams == 0;
            &&& !s.flags[id].goaway_observed ==> raised(
                s.counters.goaway_total,
                a.counters.goaway_total,
                1,
            )
            &&& s.flags[id].goaway_observed ==> a.counters.goaway_total == s.counters.goaway_total
            &&& a.recovery_pending <==> s.recovery_pending || !s.flags[id].draining_observed
            &&& !idle ==> a.flags.dom().contains(id) && a.flags[id].goaway_observed
                && a.flags[id].draining_observed
            &&& idle ==> !a.pool.connections.dom().contains(id)
            &&& a.counters.failures_total == s.counters.failures_total
        }),
{
}

/// The failure of a connection is counted once, and changes nothing else of the pool.
pub proof fn law_failures_count_once(s: Http2Model, id: u64)
    requires
        s.flags.dom().contains(id),
    ensures
        ({
            let a = failure_noted(s, id);
            &&& !s.flags[id].failure_observed ==> raised(
                s.counters.failures_total,
                a.counters.failures_total,
                1,
            )
            &&& s.flags[id].failure_observed ==> a.counters.failures_total
                == s.counters.failures_total
            &&& a.flags == s.flags.insert(
                id,
                ConnectionFlags { failure_observed: true, ..s.flags[id] },
            )
            &&& a.pool == s.pool && a.recovery_pending == s.recovery_pending
        }),
{
}

/// A request that failed counts as a failure of its connection where that is known; if
/// the connection is closed it drains as well.
pub proof fn law_failed_requests_are_noted(s: Http2Model, id: u64, closed: bool)
    ensures
        ({
            let a = request_broken(s, id, closed);
            let known = s.flags.dom().contains(id);
            &&& !known ==> a == s
            &&& known && !closed ==> a.pool == s.pool && a.flags[id].failure_observed
                && a.recovery_pending == s.recovery_pending
            &&& known && !s.flags[id].failure_observed ==> raised(
                s.counters.failures_total,
                a.counters.failures_total,
                1,
            )
            &&& known && s.flags[id].failure_observed ==> a.counters.failures_total
                == s.counters.failures_total
            &&& known && closed ==> (a.recovery_pending <==> s.recovery_pending
                || !s.flags[id].draining_observed)
            &&& known && closed && s.pool.connections.dom().contains(id)
                && s.pool.connections[id].active_streams > 0 ==> a.pool.connections[id].draining
        }),
{
}

/// A connection that ended in order counts as told to go away, one that broke as a
/// failure to recover from; both are gone.
pub proof fn law_ends_of_connections_are_told_apart(s: Http2Model, id: u64, in_order: bool)
    ensures
        ({
            let a = driver_ended(s, id, in_order);
            let known = s.flags.dom().contains(id);
            &&& !a.pool.connections.dom().contains(id)
            &&& known && s.pool.connections.dom().contains(id) ==> !a.flags.dom().contains(id)
                && raised(a.counters.active_connections, s.counters.active_connections, 1)
            &&& in_order ==> a.counters.failures_total == s.counters.failures_total
            &&& in_order && known && !s.flags[id].goaway_observed ==> raised(
                s.counters.goaway_total,
                a.counters.goaway_total,
                1,
            )
            &&& in_order && !known ==> a.counters.goaway_total == s.counters.goaway_total
                && a.recovery_pending == s.recovery_pending
            &&& !in_order ==> a.recovery_pending && a.counters.goaway_total
                == s.counters.goaway_total
            &&& !in_order && (!known || !s.flags[id].failure_observed) ==> raised(
                s.counters.failures_total,
                a.counters.failures_total,
                1,
            )
            &&& !in_order && known && s.flags[id].failure_observed ==> a.counters.failures_total
                == s.counters.failures_total
        }),
{
}

/// The chosen connection is known, of the origin and with room, and carries one stream
/// more; nothing is chosen only where no connection has room.
pub proof fn law_chosen_connections_are_known(
    before: Http2Model,
    after: Http2Model,
    now: nat,
    r: Http2Candidate,
)
    requires
        asked(before, after, now, r),
    ensures
        r is Exhausted ==> after == before && forall|id: u64| #[trigger]
            before.pool.connections.dom().contains(id) && before.pool.connections[id].origin
                == before.origin ==> before.pool.connections[id].draining
                || before.pool.connections[id].active_streams
                >= before.pool.connections[id].mode.spec_capacity(),
        r is Chosen ==> {
            let id = r->Chosen_0@;
            let c = before.pool.connections[id];
            &&& before.flags.dom().contains(id) && before.pool.connections.dom().contains(id)
            &&& c.origin == before.origin && !c.draining && c.active_streams
                < c.mode.spec_capacity()
            &&& after.pool.connections[id] == (ConnectionModel {
                active_streams: c.active_streams + 1,
                last_activity: now,
                ..c
            })
            &&& after.flags == before.flags && after.counters == before.counters
        },
        r is Dropped ==> after.counters == before.counters && after.flags == before.flags,
{
    let m = before.pool.connections;
    if r is Exhausted {
        assert forall|id: u64| #[trigger]
            m.dom().contains(id) && m[id].origin == before.origin implies m[id].draining
            || m[id].active_streams >= m[id].mode.spec_capacity() by {
            if m[id].available() {
                assert(has_available(m, before.origin));
            }
        }
    }
}

/// A chosen connection that is open carries the request, which is counted, as a reuse
/// if it is one. One that is closed drains, and gives the stream back.
pub proof fn law_open_connections_carry_the_request(
    s: Http2Model,
    id: u64,
    closed: bool,
    count_reuse: bool,
    now: nat,
)
    ensures
        ({
            let a = looked_at(s, id, closed, count_reuse, now);
            &&& !closed ==> {
                &&& raised(s.counters.active_streams, a.counters.active_streams, 1)
                &&& count_reuse ==> raised(s.counters.reused_total, a.counters.reused_total, 1)
                &&& !count_reuse ==> a.counters.reused_total == s.counters.reused_total
                &&& a.pool == s.pool && a.flags == s.flags && a.recovery_pending
                    == s.recovery_pending
            }
            &&& closed ==> {
                &&& a.counters.reused_total == s.counters.reused_total
                &&& a == stream_released(drained(s, id), id, now)
            }
        }),
{
}

/// A new connection is multiplexed up to the capacity, known without any observation,
/// and counted; it counts as a reconnect exactly if a recovery was due. Where the pool
/// is busy, that is counted, and nothing else changes.
pub proof fn law_new_connections_recover(
    before: Http2Model,
    after: Http2Model,
    now: nat,
    r: Result<(BackendConnectionId, Option<u64>), Http2BackendAcquireError>,
)
    requires
        connected(before, after, now, r),
    ensures
        r is Err ==> r->Err_0 is CapacityBusy && admission(before.pool, before.origin) is Busy
            && after.pool == before.pool && after.flags == before.flags && after.recovery_pending
            == before.recovery_pending && raised(
            before.counters.pool_exhausted_total,
            after.counters.pool_exhausted_total,
            1,
        ) && after.counters.connections_total == before.counters.connections_total,
        r is Ok ==> {
            let (fresh, evicted) = r->Ok_0;
            let c = after.pool.connections[fresh@];
            &&& !(admission(before.pool, before.origin) is Busy)
            &&& after.pool.connections.dom().contains(fresh@)
            &&& c.origin == before.origin && c.active_streams == 0 && !c.draining
                && c.last_activity == now
            &&& c.mode == (BackendConnectionMode::Multiplexed {
                max_concurrent_streams: before.stream_capacity,
            })
            &&& after.flags.dom().contains(fresh@) && !after.flags[fresh@].draining_observed
                && !after.flags[fresh@].goaway_observed && !after.flags[fresh@].failure_observed
            &&& raised(before.counters.connections_total, after.counters.connections_total, 1)
            &&& before.recovery_pending ==> raised(
                before.counters.reconnects_total,
                after.counters.reconnects_total,
                1,
            )
            &&& !before.recovery_pending ==> after.counters.reconnects_total
                == before.counters.reconnects_total
            &&& !after.recovery_pending
            &&& evicted is None ==> raised(
                before.counters.active_connections,
                after.counters.active_connections,
                1,
            )
            &&& evicted is Some && before.flags.dom().contains(evicted->0)
                ==> after.counters.active_connections == before.counters.active_connections
            &&& after.counters.pool_exhausted_total == before.counters.pool_exhausted_total
                && after.counters.active_streams == before.counters.active_streams
        },
{
}

/// Pruned and invalidated connections are forgotten, and each that was known is no
/// longer counted as active.
pub proof fn law_all_that_left_is_forgotten(s: Http2Model, gone: Set<u64>, id: u64, n: nat)
    ensures
        ({
            let a = all_forgotten(s, gone);
            &&& a.flags.dom().contains(id) <==> s.flags.dom().contains(id) && !gone.contains(id)
            &&& a.pool.connections.dom().contains(id) <==> s.pool.connections.dom().contains(id)
                && !gone.contains(id)
            &&& a.counters == after_stops(s.counters, s.flags.dom().intersect(gone).len())
            &&& a.recovery_pending == s.recovery_pending
        }),
        after_stops(s.counters, 0) == s.counters,
        raised(
            after_stops(s.counters, n + 1).active_connections,
            after_stops(s.counters, n).active_connections,
            1,
        ),
        after_stops(s.counters, n + 1) == (Http2BackendCounters {
            active_connections: after_stops(s.counters, n + 1).active_connections,
            ..after_stops(s.counters, n)
        }),
{
}

} // verus!
