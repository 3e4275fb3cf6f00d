//! The pool of exclusive HTTP/1 backend connections.
//!
//! The streams themselves are kept by the caller under the identifiers that
//! are handed out here. A stream may be dropped as soon as its identifier is
//! reported as closed.

use crate::http_backend_pool::{
    admission, added, has_available, policy_ids, preferred, removals_are, stale_ids, without,
    Admission, BackendConnectionId, BackendConnectionMode, BackendPoolLimits, BackendPoolState,
    BackendRemoval, BackendRemovalReason, ConnectionModel, OriginKey, OriginModel, PoolModel,
};
use crate::http_proxy_session::{raised, wrap_add, wrap_down};
use std::collections::HashSet;
use vstd::prelude::*;
use vstd::std_specs::hash::*;

verus! {

broadcast use vstd::std_specs::hash::group_hash_axioms;

/// Counters of a pool; they wrap around.
#[derive(Clone, Copy, Debug, Default, PartialEq, Eq, Structural)]
pub struct Http1BackendCounters {
    pub active_connections: u64,
    pub active_requests: u64,
    pub connections_total: u64,
    pub reused_total: u64,
    pub discarded_total: u64,
    pub idle_timeouts_total: u64,
    pub failures_total: u64,
    pub pool_exhausted_total: u64,
}

/// Why no connection could be had.
#[derive(Clone, Copy, Debug, PartialEq, Eq, Structural)]
pub enum Http1BackendAcquireError {
    CapacityBusy,
}

impl Http1BackendAcquireError {
    /// The text for the log.
    pub fn message(self) -> (r: &'static str)
        ensures
            r@ == "HTTP/1 backend pool is busy"@,
    {
        "HTTP/1 backend pool is busy"
    }
}

/// The counters after one connection left the pool.
pub open spec fn after_removal(c: Http1BackendCounters, reason: BackendRemovalReason) -> Http1BackendCounters {
    Http1BackendCounters {
        active_connections: wrap_down(c.active_connections),
        idle_timeouts_total: if reason == BackendRemovalReason::IdleTimeout {
            wrap_add(c.idle_timeouts_total, 1)
        } else {
            c.idle_timeouts_total
        },
        discarded_total: if reason == BackendRemovalReason::Disconnected {
            wrap_add(c.discarded_total, 1)
        } else {
            c.discarded_total
        },
        ..c
    }
}

/// The counters after `n` connections left the pool for the same reason.
pub open spec fn after_removals(c: Http1BackendCounters, reason: BackendRemovalReason, n: nat) -> Http1BackendCounters
    decreases n,
{
    if n == 0 {
        c
    } else {
        after_removal(after_removals(c, reason, (n - 1) as nat), reason)
    }
}

/// What a pool holds: the state of the connections, the identifiers of the
/// streams that wait for reuse, and the counters.
pub struct Http1Model {
    pub pool: PoolModel,
    pub idle: Set<u64>,
    pub counters: Http1BackendCounters,
}

/// A pool of HTTP/1 backend connections.
#[derive(Debug)]
pub struct Http1BackendPool {
    pool: BackendPoolState,
    idle: HashSet<u64>,
    counters: Http1BackendCounters,
}

impl View for Http1BackendPool {
    type V = Http1Model;

    closed spec fn view(&self) -> Http1Model {
        Http1Model { pool: self.pool@, idle: self.idle@, counters: self.counters }
    }
}

/// The pool without connections that were idle for too long.
pub open spec fn pruned(s: Http1Model, now: nat) -> Http1Model {
    let gone = stale_ids(s.pool, now);
    Http1Model {
        pool: without(s.pool, gone),
        idle: s.idle.difference(gone),
        counters: after_removals(s.counters, BackendRemovalReason::IdleTimeout, gone.len()),
    }
}

/// The pool without the connections of a policy.
pub open spec fn invalidated(s: Http1Model, policy_id: u128) -> Http1Model {
    let gone = policy_ids(s.pool.connections, policy_id);
    Http1Model {
        pool: without(s.pool, gone),
        idle: s.idle.difference(gone),
        counters: after_removals(s.counters, BackendRemovalReason::PolicyInvalidated, gone.len()),
    }
}

/// The pool without one lost connection.
pub open spec fn discarded(s: Http1Model, id: u64) -> Http1Model {
    if s.pool.connections.dom().contains(id) {
        Http1Model {
            pool: PoolModel { connections: s.pool.connections.remove(id), ..s.pool },
            idle: s.idle.remove(id),
            counters: after_removal(s.counters, BackendRemovalReason::Disconnected),
        }
    } else {
        s
    }
}

/// The pool after a stream was lent out.
pub open spec fn lent(s: Http1Model, id: u64, now: nat) -> PoolModel {
    crate::http_backend_pool::with_connection(
        s.pool,
        id,
        ConnectionModel {
            active_streams: s.pool.connections[id].active_streams + 1,
            last_activity: now,
            ..s.pool.connections[id]
        },
    )
}

pub open spec fn id_view(id: Option<BackendConnectionId>) -> Option<u64> {
    match id {
        Some(x) => Some(x@),
        None => None,
    }
}

/// Looking for a connection to reuse: the preferred one whose stream is at
/// hand. Preferred ones without a stream are dropped on the way.
pub open spec fn reused(
    before: Http1Model,
    after: Http1Model,
    origin: OriginModel,
    now: nat,
    dropped: Seq<u64>,
    r: Option<u64>,
) -> bool
    decreases dropped.len(),
{
    if dropped.len() > 0 {
        let id = dropped[0];
        &&& preferred(before.pool.connections, origin, id)
        &&& !before.idle.contains(id)
        &&& reused(
            discarded(before, id),
            after,
            origin,
            now,
            dropped.drop_first(),
            r,
        )
    } else {
        match r {
            None => !has_available(before.pool.connections, origin) && after == before,
            Some(id) => {
                &&& preferred(before.pool.connections, origin, id)
                &&& before.idle.contains(id)
                &&& after == Http1Model {
                    pool: lent(before, id, now),
                    idle: before.idle.remove(id),
                    counters: Http1BackendCounters {
                        reused_total: wrap_add(before.counters.reused_total, 1),
                        active_requests: wrap_add(before.counters.active_requests, 1),
                        ..before.counters
                    },
                }
            },
        }
    }
}

/// The pool without the connection that made room for a fresh one.
pub open spec fn made_room(s: Http1Model, evicted: Option<u64>) -> Http1Model {
    match evicted {
        Some(gone) => Http1Model {
            pool: PoolModel { connections: s.pool.connections.remove(gone), ..s.pool },
            idle: s.idle.remove(gone),
            counters: after_removal(s.counters, BackendRemovalReason::OriginCapacity),
        },
        None => s,
    }
}

/// Registering a fresh connection and lending it out.
pub open spec fn connected(
    before: Http1Model,
    after: Http1Model,
    origin: OriginModel,
    now: nat,
    r: Result<(BackendConnectionId, Option<u64>), Http1BackendAcquireError>,
) -> bool {
    match r {
        Err(_) => {
            &&& admission(before.pool, origin) is Busy
            &&& after == Http1Model {
                counters: Http1BackendCounters {
                    pool_exhausted_total: wrap_add(before.counters.pool_exhausted_total, 1),
                    ..before.counters
                },
                ..before
            }
        },
        Ok((lease, evicted)) => {
            let id = lease@;
            let room = made_room(before, evicted);
            &&& match admission(before.pool, origin) {
                Admission::Busy => false,
                Admission::Free => evicted is None,
                Admission::Evict { scope, .. } => evicted is Some
                    && crate::http_backend_pool::oldest_idle(
                    before.pool.connections,
                    scope,
                    evicted->0,
                ),
            }
            &&& exists|fresh: u64, middle: PoolModel| #[trigger]
                added(
                    made_room(before, evicted).pool,
                    middle,
                    fresh,
                    origin,
                    BackendConnectionMode::Exclusive,
                    now,
                )
                    && preferred(middle.connections, origin, id) && after == (Http1Model {
                    pool: lent(Http1Model { pool: middle, ..room }, id, now),
                    idle: room.idle,
                    counters: Http1BackendCounters {
                        active_connections: wrap_add(room.counters.active_connections, 1),
                        connections_total: wrap_add(room.counters.connections_total, 1),
                        active_requests: wrap_add(room.counters.active_requests, 1),
                        ..room.counters
                    },
                })
        },
    }
}

/// Giving a connection back; whether its stream is kept for reuse.
pub open spec fn finished(
    before: Http1Model,
    after: Http1Model,
    id: u64,
    reusable: bool,
    now: nat,
    kept: bool,
) -> bool {
    let counted = Http1Model {
        counters: Http1BackendCounters {
            active_requests: wrap_down(before.counters.active_requests),
            ..before.counters
        },
        ..before
    };
    let m = before.pool.connections;
    if !reusable {
        !kept && after == discarded(counted, id)
    } else if !m.dom().contains(id) {
        !kept && after == counted
    } else if m[id].draining && m[id].active_streams == 1 {
        !kept && after == Http1Model {
            pool: PoolModel { connections: m.remove(id), ..before.pool },
            idle: before.idle.remove(id),
            counters: after_removal(counted.counters, BackendRemovalReason::GoAway),
        }
    } else {
        &&& kept
        &&& after.idle == before.idle.insert(id)
        &&& after.counters == counted.counters
        &&& after.pool == if m[id].idle() {
            before.pool
        } else {
            crate::http_backend_pool::with_connection(
                before.pool,
                id,
                ConnectionModel {
                    active_streams: (m[id].active_streams - 1) as nat,
                    last_activity: now,
                    ..m[id]
                },
            )
        }
    }
}

impl Http1BackendPool {
    /// Validity: the connection states are valid, and only connections of the
    /// pool have a waiting stream.
    pub closed spec fn wf(&self) -> bool {
        self.pool.wf() && self.idle@.subset_of(self.pool@.connections.dom())
    }

    /// Only connections of the pool have a waiting stream.
    pub proof fn lemma_wf(&self)
        requires
            self.wf(),
        ensures
            crate::http_backend_pool::pool_invariant(self@.pool),
            self@.idle.subset_of(self@.pool.connections.dom()),
    {
        self.pool.lemma_wf();
    }

    pub fn new(limits: BackendPoolLimits) -> (r: Self)
        requires
            limits.wf(),
        ensures
            r.wf(),
            r@.pool == (PoolModel { limits, next_id: 1, connections: Map::empty() }),
            r@.idle == Set::<u64>::empty(),
            r@.counters == (Http1BackendCounters {
                active_connections: 0,
                active_requests: 0,
                connections_total: 0,
                reused_total: 0,
                discarded_total: 0,
                idle_timeouts_total: 0,
                failures_total: 0,
                pool_exhausted_total: 0,
            }),
    {
        Http1BackendPool {
            pool: BackendPoolState::new(limits),
            idle: HashSet::new(),
            counters: Http1BackendCounters {
                active_connections: 0,
                active_requests: 0,
                connections_total: 0,
                reused_total: 0,
                discarded_total: 0,
                idle_timeouts_total: 0,
                failures_total: 0,
                pool_exhausted_total: 0,
            },
        }
    }

    /// The counters.
    pub fn counters(&self) -> (r: Http1BackendCounters)
        ensures
            r == self@.counters,
    {
        self.counters
    }

    /// The number of connections.
    pub fn connections(&self) -> (r: usize)
        requires
            self.wf(),
        ensures
            r == self@.pool.connections.dom().len(),
    {
        self.pool.connection_count()
    }

    /// The number of streams that wait for reuse.
    pub fn idle_len(&self) -> (r: usize)
        ensures
            r == self@.idle.len(),
    {
        self.idle.len()
    }

    /// Counts a connection that could not be made.
    pub fn connect_failed(&mut self)
        ensures
            final(self)@ == (Http1Model {
                counters: Http1BackendCounters {
                    failures_total: wrap_add(old(self)@.counters.failures_total, 1),
                    ..old(self)@.counters
                },
                ..old(self)@
            }),
            old(self).wf() ==> final(self).wf(),
    {
        self.counters.failures_total = self.counters.failures_total.wrapping_add(1);
    }

    fn apply_removal(&mut self, id: u64, reason: BackendRemovalReason)
        ensures
            final(self).pool == old(self).pool,
            final(self).idle@ == old(self).idle@.remove(id),
            final(self).counters == after_removal(old(self).counters, reason),
    {
        self.idle.remove(&id);
        assert(self.idle@ =~= old(self).idle@.remove(id));
        self.counters.active_connections = self.counters.active_connections.wrapping_sub(1);
        match reason {
            BackendRemovalReason::IdleTimeout => {
                self.counters.idle_timeouts_total = self.counters.idle_timeouts_total.wrapping_add(
                    1,
                );
            },
            BackendRemovalReason::Disconnected => {
                self.counters.discarded_total = self.counters.discarded_total.wrapping_add(1);
            },
            _ => {},
        }
    }

    fn apply_removals(
        &mut self,
        removals: &Vec<BackendRemoval>,
        reason: BackendRemovalReason,
        Ghost(m): Ghost<Map<u64, ConnectionModel>>,
        Ghost(ids): Ghost<Set<u64>>,
    ) -> (r: Vec<u64>)
        requires
            removals_are(removals@, m, ids, reason),
        ensures
            final(self).pool == old(self).pool,
            final(self).idle@ == old(self).idle@.difference(ids),
            ids.finite(),
            final(self).counters == after_removals(old(self).counters, reason, ids.len()),
            r@.to_set() == ids,
            r@.no_duplicates(),
    {
        let mut closed: Vec<u64> = Vec::new();
        let ghost mut done: Set<u64> = Set::empty();
        let mut i: usize = 0;
        assert(self.idle@ =~= old(self).idle@.difference(done));
        assert(closed@.to_set() =~= done);
        while i < removals.len()
            invariant
                i <= removals@.len(),
                removals_are(removals@, m, ids, reason),
                self.pool == old(self).pool,
                done.finite(),
                done.len() == i,
                done.subset_of(ids),
                forall|id: u64| #[trigger]
                    done.contains(id) <==> exists|j: int|
                        0 <= j < i && (#[trigger] removals@[j]).connection_id@ == id,
                self.idle@ == old(self).idle@.difference(done),
                self.counters == after_removals(old(self).counters, reason, i as nat),
                closed@.to_set() == done,
                closed@.len() == i,
                forall|j: int| 0 <= j < i ==> closed@[j] == (#[trigger] removals@[j]).connection_id@,
            decreases removals@.len() - i,
        {
            let ghost id = removals@[i as int].connection_id@;
            proof {
                assert(ids.contains(removals@[i as int].connection_id@));
                assert(!done.contains(id)) by {
                    if done.contains(id) {
                        let j = choose|j: int|
                            0 <= j < i && (#[trigger] removals@[j]).connection_id@ == id;
                        assert(removals@[j].connection_id@ != removals@[i as int].connection_id@);
                    }
                }
            }
            let gone: u64 = removals[i].connection_id.get();
            self.apply_removal(gone, reason);
            proof {
                assert(self.idle@ =~= old(self).idle@.difference(done.insert(id)));
                assert forall|k: u64| #[trigger] done.insert(id).contains(k) <==> exists|j: int|
                    0 <= j < i + 1 && (#[trigger] removals@[j]).connection_id@ == k by {
                    if done.contains(k) {
                        let j = choose|j: int|
                            0 <= j < i && (#[trigger] removals@[j]).connection_id@ == k;
                        assert(removals@[j].connection_id@ == k);
                    }
                    if k == id {
                        assert(removals@[i as int].connection_id@ == k);
                    }
                }
                assert(closed@.push(id).to_set() =~= done.insert(id)) by {
                    assert forall|k: u64| closed@.push(id).to_set().contains(k)
                        == done.insert(id).contains(k) by {
                        if closed@.push(id).contains(k) {
                            let j = choose|j: int|
                                0 <= j < closed@.push(id).len() && closed@.push(id)[j] == k;
                            if j < closed@.len() {
                                assert(closed@.contains(closed@[j]));
                                assert(closed@.to_set().contains(k));
                            }
                        }
                        if done.insert(id).contains(k) {
                            if k == id {
                                assert(closed@.push(id)[closed@.len() as int] == k);
                            } else {
                                assert(closed@.to_set().contains(k));
                                let j = choose|j: int| 0 <= j < closed@.len() && closed@[j] == k;
                                assert(closed@.push(id)[j] == k);
                            }
                        }
                    }
                }
                done = done.insert(id);
            }
            closed.push(gone);
            i = i + 1;
        }
        proof {
            assert forall|id: u64| ids.contains(id) implies done.contains(id) by {
                let j = choose|j: int|
                    0 <= j < removals@.len() && removals@[j].connection_id@ == id;
                assert(removals@[j].connection_id@ == id);
            }
            assert(done =~= ids);
            assert forall|a: int, b: int| 0 <= a < closed@.len() && 0 <= b < closed@.len() && a
                != b implies closed@[a] != closed@[b] by {
                if a < b {
                    assert(removals@[a].connection_id@ != removals@[b].connection_id@);
                } else {
                    assert(removals@[b].connection_id@ != removals@[a].connection_id@);
                }
            }
        }
        closed
    }

    /// Drops connections that were idle for too long; their streams are to be
    /// closed.
    pub fn prune(&mut self, now: u128) -> (r: Vec<u64>)
        requires
            old(self).wf(),
        ensures
            final(self).wf(),
            final(self)@ == pruned(old(self)@, now as nat),
            r@.to_set() == stale_ids(old(self)@.pool, now as nat),
            r@.no_duplicates(),
    {
        let ghost before = self.pool@;
        let removals = self.pool.prune_idle(now);
        let closed = self.apply_removals(
            &removals,
            BackendRemovalReason::IdleTimeout,
            Ghost(before.connections),
            Ghost(stale_ids(before, now as nat)),
        );
        closed
    }

    /// Drops the connections of a policy; their streams are to be closed.
    pub fn invalidate_policy(&mut self, policy_id: u128) -> (r: Vec<u64>)
        requires
            old(self).wf(),
        ensures
            final(self).wf(),
            final(self)@ == invalidated(old(self)@, policy_id),
            r@.to_set() == policy_ids(old(self)@.pool.connections, policy_id),
            r@.no_duplicates(),
    {
        let ghost before = self.pool@;
        let removals = self.pool.invalidate_policy(policy_id);
        let closed = self.apply_removals(
            &removals,
            BackendRemovalReason::PolicyInvalidated,
            Ghost(before.connections),
            Ghost(policy_ids(before.connections, policy_id)),
        );
        closed
    }

    /// Looks for a connection to reuse. The dropped ones have no stream.
    pub fn acquire_existing(&mut self, origin: &OriginKey, now: u128) -> (r: (
        Option<BackendConnectionId>,
        Vec<u64>,
    ))
        requires
            old(self).wf(),
        ensures
            final(self).wf(),
            reused(old(self)@, final(self)@, origin@, now as nat, r.1@, id_view(r.0)),
    {
        let ghost start = self@;
        let mut dropped: Vec<u64> = Vec::new();
        loop
            invariant
                self.wf(),
                start == old(self)@,
                forall|after: Http1Model, rest: Seq<u64>, found: Option<u64>| #[trigger]
                    reused(self@, after, origin@, now as nat, rest, found) ==> reused(
                        start,
                        after,
                        origin@,
                        now as nat,
                        dropped@ + rest,
                        found,
                    ),
            decreases self@.pool.connections.dom().len(),
        {
            let ghost here = self@;
            proof {
                self.pool.lemma_wf();
                assert(forall|rest: Seq<u64>| dropped@ + rest =~= dropped@ + rest);
            }
            match self.pool.acquire(origin, now) {
                None => {
                    proof {
                        assert(reused(here, self@, origin@, now as nat, Seq::empty(), None));
                        assert(dropped@ + Seq::<u64>::empty() =~= dropped@);
                    }
                    return (None, dropped);
                },
                Some(lease) => {
                    let id: u64 = lease.connection_id.get();
                    proof {
                        self.pool.lemma_wf();
                    }
                    if self.idle.contains(&id) {
                        self.idle.remove(&id);
                        self.counters.reused_total = self.counters.reused_total.wrapping_add(1);
                        self.counters.active_requests = self.counters.active_requests.wrapping_add(
                            1,
                        );
                        proof {
                            assert(self.idle@ =~= here.idle.remove(id));
                            assert(self@.pool.connections.dom() =~= here.pool.connections.dom());
                            assert(reused(
                                here,
                                self@,
                                origin@,
                                now as nat,
                                Seq::empty(),
                                Some(id),
                            ));
                            assert(dropped@ + Seq::<u64>::empty() =~= dropped@);
                        }
                        return (Some(lease.connection_id), dropped);
                    }
                    let removal = self.pool.disconnected(lease.connection_id);
                    self.apply_removal(id, BackendRemovalReason::Disconnected);
                    proof {
                        let after_drop = discarded(here, id);
                        assert(self@.pool.connections =~= here.pool.connections.remove(id));
                        assert(self.idle@ =~= here.idle.remove(id));
                        assert(self@ == after_drop);
                        assert(self@.pool.connections.dom() =~= here.pool.connections.dom().remove(
                            id,
                        ));
                        assert forall|after: Http1Model, rest: Seq<u64>, found: Option<u64>| #[trigger]
                            reused(self@, after, origin@, now as nat, rest, found) implies reused(
                            start,
                            after,
                            origin@,
                            now as nat,
                            dropped@.push(id) + rest,
                            found,
                        ) by {
                            let longer = seq![id] + rest;
                            assert(longer.drop_first() =~= rest);
                            assert(reused(here, after, origin@, now as nat, longer, found));
                            assert(dropped@ + longer =~= dropped@.push(id) + rest);
                        }
                    }
                    dropped.push(id);
                },
            }
        }
    }

    /// Registers a connection that was just made and lends it out. With it
    /// comes the connection that had to make room, whose stream is to be closed.
    pub fn connected(&mut self, origin: &OriginKey, now: u128) -> (r: Result<
        (BackendConnectionId, Option<u64>),
        Http1BackendAcquireError,
    >)
        requires
            old(self).wf(),
        ensures
            final(self).wf(),
            connected(old(self)@, final(self)@, origin@, now as nat, r),
    {
        let ghost before = self@;
        let ghost om = origin@;
        match self.pool.register(origin.duplicate(), BackendConnectionMode::Exclusive, now) {
            Err(_) => {
                self.counters.pool_exhausted_total =
                self.counters.pool_exhausted_total.wrapping_add(1);
                Err(Http1BackendAcquireError::CapacityBusy)
            },
            Ok(registration) => {
                let ghost middle = self.pool@;
                proof {
                    self.pool.lemma_wf();
                    crate::http_backend_pool::law_registered_connection_is_available(
                        before.pool,
                        middle,
                        om,
                        BackendConnectionMode::Exclusive,
                        now as nat,
                        Ok(registration),
                    );
                }
                let evicted: Option<u64> = if registration.removals.len() > 0 {
                    let gone: u64 = registration.removals[0].connection_id.get();
                    self.apply_removal(gone, BackendRemovalReason::OriginCapacity);
                    Some(gone)
                } else {
                    None
                };
                let ghost room = self@;
                assert(self.idle@.subset_of(middle.connections.dom()));
                match self.pool.acquire(origin, now) {
                    None => {
                        assert(false);
                        Err(Http1BackendAcquireError::CapacityBusy)
                    },
                    Some(lease) => {
                        self.counters.active_connections =
                        self.counters.active_connections.wrapping_add(1);
                        self.counters.connections_total =
                        self.counters.connections_total.wrapping_add(1);
                        self.counters.active_requests =
                        self.counters.active_requests.wrapping_add(1);
                        proof {
                            let fresh = registration.connection_id@;
                            assert(self@.pool.connections.dom() =~= middle.connections.dom());
                            assert(added(
                                made_room(before, evicted).pool,
                                middle,
                                fresh,
                                om,
                                BackendConnectionMode::Exclusive,
                                now as nat,
                            ));
                        }
                        Ok((lease.connection_id, evicted))
                    },
                }
            },
        }
    }

    /// Gives a connection back; whether its stream is to be kept for reuse.
    pub fn finish(&mut self, connection_id: BackendConnectionId, reusable: bool, now: u128) -> (r: bool)
        requires
            old(self).wf(),
        ensures
            final(self).wf(),
            finished(old(self)@, final(self)@, connection_id@, reusable, now as nat, r),
    {
        let ghost before = self@;
        let id: u64 = connection_id.get();
        self.counters.active_requests = self.counters.active_requests.wrapping_sub(1);
        let ghost counted = self@;
        if reusable {
            match self.pool.release(connection_id, now) {
                Some(_removal) => {
                    self.apply_removal(id, BackendRemovalReason::GoAway);
                    false
                },
                None => {
                    if self.pool.contains(connection_id) {
                        self.idle.insert(id);
                        assert(self.idle@ =~= before.idle.insert(id));
                        true
                    } else {
                        false
                    }
                },
            }
        } else {
            match self.pool.disconnected(connection_id) {
                Some(_removal) => {
                    self.apply_removal(id, BackendRemovalReason::Disconnected);
                    false
                },
                None => false,
            }
        }
    }
}

// ---------------------------------------------------------------------------
// Laws
// ---------------------------------------------------------------------------

/// A connection of an invalidated policy does not come back to the pool, even
/// when its user gives it back as reusable.
pub proof fn law_invalidated_connections_do_not_return(
    before: Http1Model,
    policy_id: u128,
    id: u64,
    now: nat,
    after: Http1Model,
    kept: bool,
)
    requires
        before.pool.connections.dom().contains(id),
        before.pool.connections[id].origin.policy_id == policy_id,
        finished(invalidated(before, policy_id), after, id, true, now, kept),
    ensures
        !kept,
        !after.pool.connections.dom().contains(id),
        after.idle == invalidated(before, policy_id).idle,
{
}

/// A connection that is not given back as reusable leaves the pool.
pub proof fn law_only_completed_connections_are_reused(
    before: Http1Model,
    after: Http1Model,
    id: u64,
    now: nat,
    kept: bool,
)
    requires
        finished(before, after, id, false, now, kept),
    ensures
        !kept,
        !after.pool.connections.dom().contains(id),
{
}

proof fn lemma_removals_keep_reuses(c: Http1BackendCounters, reason: BackendRemovalReason, n: nat)
    ensures
        after_removals(c, reason, n).reused_total == c.reused_total,
    decreases n,
{
    if n > 0 {
        lemma_removals_keep_reuses(c, reason, (n - 1) as nat);
    }
}

/// A connection that was given back as reusable is the one that the next request
/// to its origin reuses, as long as it has not been idle for too long. This holds
/// where every other idle connection of the origin was used before it, or at the
/// same time and has a larger identifier; no connection is dropped on the way, and one more reuse is counted.
pub proof fn law_a_recycled_connection_is_reused_next(
    before: Http1Model,
    middle: Http1Model,
    after: Http1Model,
    id: u64,
    given_back: nat,
    now: nat,
    kept: bool,
    dropped: Seq<u64>,
    r: Option<u64>,
)
    requires
        crate::http_backend_pool::pool_invariant(before.pool),
        before.pool.connections.dom().contains(id),
        before.pool.connections[id].active_streams == 1,
        !before.pool.connections[id].draining,
        finished(before, middle, id, true, given_back, kept),
        now < given_back + before.pool.limits.idle_timeout_nanos,
        forall|other: u64| #[trigger]
            before.pool.connections.dom().contains(other) && other != id
                && before.pool.connections[other].origin == before.pool.connections[id].origin
                && before.pool.connections[other].idle() ==> {
                ||| before.pool.connections[other].last_activity < given_back
                ||| before.pool.connections[other].last_activity == given_back && id < other
            },
        reused(
            pruned(middle, now),
            after,
            before.pool.connections[id].origin,
            now,
            dropped,
            r,
        ),
    ensures
        kept,
        r == Some(id),
        dropped.len() == 0,
        after.counters.reused_total == wrap_add(before.counters.reused_total, 1),
        after.pool.connections[id].active_streams == 1,
{
    let origin = before.pool.connections[id].origin;
    let p = pruned(middle, now);
    lemma_removals_keep_reuses(
        middle.counters,
        BackendRemovalReason::IdleTimeout,
        stale_ids(middle.pool, now).len(),
    );
    let m = p.pool.connections;
    assert(m.dom().contains(id));
    assert(m[id].active_streams == 0);
    assert(m[id].last_activity == given_back);
    assert forall|other: u64| #[trigger]
        m.dom().contains(other) && m[other].origin == origin && m[other].available() && other
            != id implies crate::http_backend_pool::ranks_before(
        m[id],
        id,
        m[other],
        other,
    ) by {
        assert(before.pool.connections.dom().contains(other));
        assert(m[other] == before.pool.connections[other]);
    }
    assert(preferred(m, origin, id));
    assert(p.idle.contains(id));
    if dropped.len() > 0 {
        crate::http_backend_pool::law_preferred_is_unique(m, origin, id, dropped[0]);
    } else if r is Some {
        crate::http_backend_pool::law_preferred_is_unique(m, origin, id, r->0);
    } else {
        assert(has_available(m, origin));
    }
}

/// A removed connection is no longer counted as active; only one that was idle for too
/// long is counted as an idle timeout, and only one that broke as discarded.
pub proof fn law_removals_are_counted_by_reason(
    c: Http1BackendCounters,
    reason: BackendRemovalReason,
    n: nat,
)
    ensures
        ({
            let a = after_removal(c, reason);
            &&& raised(a.active_connections, c.active_connections, 1)
            &&& reason is IdleTimeout ==> raised(c.idle_timeouts_total, a.idle_timeouts_total, 1)
            &&& !(reason is IdleTimeout) ==> a.idle_timeouts_total == c.idle_timeouts_total
            &&& reason is Disconnected ==> raised(c.discarded_total, a.discarded_total, 1)
            &&& !(reason is Disconnected) ==> a.discarded_total == c.discarded_total
            &&& a.active_requests == c.active_requests && a.connections_total
                == c.connections_total && a.reused_total == c.reused_total && a.failures_total
                == c.failures_total && a.pool_exhausted_total == c.pool_exhausted_total
        }),
        after_removals(c, reason, 0) == c,
        after_removals(c, reason, n + 1) == after_removal(after_removals(c, reason, n), reason),
{
}

/// Pruning and invalidation take the removed connections out of the idle ones and
/// count each of them.
pub proof fn law_removed_connections_are_not_idle(
    s: Http1Model,
    now: nat,
    policy_id: u128,
    id: u64,
)
    ensures
        ({
            let a = pruned(s, now);
            let m = s.pool.connections;
            let gone = m.dom().contains(id) && m[id].active_streams == 0 && m[id].last_activity
                + s.pool.limits.idle_timeout_nanos <= now;
            &&& a.idle.contains(id) <==> s.idle.contains(id) && !gone
            &&& a.pool.connections.dom().contains(id) <==> m.dom().contains(id) && !gone
            &&& a.counters == after_removals(
                s.counters,
                BackendRemovalReason::IdleTimeout,
                stale_ids(s.pool, now).len(),
            )
        }),
        ({
            let a = invalidated(s, policy_id);
            let m = s.pool.connections;
            let gone = m.dom().contains(id) && m[id].origin.policy_id == policy_id;
            &&& a.idle.contains(id) <==> s.idle.contains(id) && !gone
            &&& a.pool.connections.dom().contains(id) <==> m.dom().contains(id) && !gone
            &&& a.counters == after_removals(
                s.counters,
                BackendRemovalReason::PolicyInvalidated,
                policy_ids(s.pool.connections, policy_id).len(),
            )
        }),
{
}

/// A reused connection was idle, of the origin and with room; it is busy afterwards and
/// counted as a reuse and a request.
pub proof fn law_reused_connections_were_idle(
    before: Http1Model,
    after: Http1Model,
    origin: OriginModel,
    now: nat,
    id: u64,
)
    requires
        reused(before, after, origin, now, Seq::empty(), Some(id)),
    ensures
        ({
            let c = before.pool.connections[id];
            &&& before.pool.connections.dom().contains(id) && before.idle.contains(id)
            &&& c.origin == origin && !c.draining && c.active_streams < c.mode.spec_capacity()
            &&& after.idle == before.idle.remove(id)
            &&& after.pool.connections[id] == (ConnectionModel {
                active_streams: c.active_streams + 1,
                last_activity: now,
                ..c
            })
            &&& raised(before.counters.reused_total, after.counters.reused_total, 1)
            &&& raised(before.counters.active_requests, after.counters.active_requests, 1)
            &&& after.counters == (Http1BackendCounters {
                reused_total: after.counters.reused_total,
                active_requests: after.counters.active_requests,
                ..before.counters
            })
        }),
{
}

/// A preferred connection that is not idle is discarded before another is looked for.
pub proof fn law_connections_that_are_not_idle_are_discarded(
    before: Http1Model,
    after: Http1Model,
    origin: OriginModel,
    now: nat,
    dropped: Seq<u64>,
    r: Option<u64>,
)
    requires
        reused(before, after, origin, now, dropped, r),
        dropped.len() > 0,
    ensures
        ({
            let id = dropped[0];
            let rest = discarded(before, id);
            &&& preferred(before.pool.connections, origin, id)
            &&& !before.idle.contains(id)
            &&& !rest.pool.connections.dom().contains(id) && !rest.idle.contains(id)
            &&& raised(before.counters.discarded_total, rest.counters.discarded_total, 1)
            &&& raised(rest.counters.active_connections, before.counters.active_connections, 1)
            &&& reused(rest, after, origin, now, dropped.drop_first(), r)
        }),
{
}

/// Every preferred connection that is lent has to be idle: nothing is reused where all
/// connections of the origin drain or are full.
pub proof fn law_nothing_is_reused_without_room(
    before: Http1Model,
    after: Http1Model,
    origin: OriginModel,
    now: nat,
)
    requires
        reused(before, after, origin, now, Seq::empty(), None),
    ensures
        after == before,
        forall|id: u64| #[trigger]
            before.pool.connections.dom().contains(id) && before.pool.connections[id].origin
                == origin ==> before.pool.connections[id].draining
                || before.pool.connections[id].active_streams
                >= before.pool.connections[id].mode.spec_capacity(),
{
    let m = before.pool.connections;
    assert forall|id: u64| #[trigger]
        m.dom().contains(id) && m[id].origin == origin implies m[id].draining
        || m[id].active_streams >= m[id].mode.spec_capacity() by {
        if m[id].available() {
            assert(has_available(m, origin));
        }
    }
}

/// A new connection is exclusive and counted as a connection and a request; where the
/// pool is busy, that is counted, and nothing else changes.
pub proof fn law_new_connections_are_counted(
    before: Http1Model,
    after: Http1Model,
    origin: OriginModel,
    now: nat,
    r: Result<(BackendConnectionId, Option<u64>), Http1BackendAcquireError>,
)
    requires
        connected(before, after, origin, now, r),
    ensures
        r is Err ==> admission(before.pool, origin) is Busy && after.pool == before.pool
            && after.idle == before.idle && raised(
            before.counters.pool_exhausted_total,
            after.counters.pool_exhausted_total,
            1,
        ) && after.counters.connections_total == before.counters.connections_total
            && after.counters.active_requests == before.counters.active_requests
            && after.counters.active_connections == before.counters.active_connections,
        r is Ok ==> {
            let (lease, evicted) = r->Ok_0;
            &&& !(admission(before.pool, origin) is Busy)
            &&& raised(before.counters.connections_total, after.counters.connections_total, 1)
            &&& raised(before.counters.active_requests, after.counters.active_requests, 1)
            &&& after.counters.reused_total == before.counters.reused_total
            &&& after.counters.discarded_total == before.counters.discarded_total
            &&& after.counters.idle_timeouts_total == before.counters.idle_timeouts_total
            &&& after.counters.pool_exhausted_total == before.counters.pool_exhausted_total
            &&& evicted is None ==> raised(
                before.counters.active_connections,
                after.counters.active_connections,
                1,
            ) && after.idle == before.idle
            &&& evicted is Some ==> after.counters.active_connections
                == before.counters.active_connections && after.idle == before.idle.remove(
                evicted->0,
            )
            &&& after.pool.connections.dom().contains(lease@)
            &&& after.pool.connections[lease@].origin == origin
            &&& after.pool.connections[lease@].last_activity == now
            &&& after.pool.connections[lease@].active_streams > 0
        },
{
    if r is Ok {
        let (lease, evicted) = r->Ok_0;
        let room = made_room(before, evicted);
        let (fresh, middle) = choose|fresh: u64, middle: PoolModel| #[trigger]
            added(
                made_room(before, evicted).pool,
                middle,
                fresh,
                origin,
                BackendConnectionMode::Exclusive,
                now,
            ) && preferred(middle.connections, origin, lease@) && after == (Http1Model {
                pool: lent(Http1Model { pool: middle, ..room }, lease@, now),
                idle: room.idle,
                counters: Http1BackendCounters {
                    active_connections: wrap_add(room.counters.active_connections, 1),
                    connections_total: wrap_add(room.counters.connections_total, 1),
                    active_requests: wrap_add(room.counters.active_requests, 1),
                    ..room.counters
                },
            });
        assert(preferred(middle.connections, origin, lease@));
    }
}

/// A finished request is no longer active. Its connection is kept exactly if it can be
/// reused, is still in the pool and is not at the end of its draining, and is idle
/// then.
pub proof fn law_finished_connections_are_kept_where_reusable(
    before: Http1Model,
    after: Http1Model,
    id: u64,
    reusable: bool,
    now: nat,
    kept: bool,
)
    requires
        finished(before, after, id, reusable, now, kept),
    ensures
        ({
            let m = before.pool.connections;
            let held = m.dom().contains(id);
            let ends = m[id].draining && m[id].active_streams == 1;
            &&& kept <==> reusable && held && !ends
            &&& raised(after.counters.active_requests, before.counters.active_requests, 1)
            &&& kept ==> after.idle == before.idle.insert(id) && after.pool.connections.dom()
                == m.dom() && after.counters.active_connections
                == before.counters.active_connections
            &&& kept && m[id].active_streams > 0 ==> after.pool.connections[id] == (
            ConnectionModel {
                active_streams: (m[id].active_streams - 1) as nat,
                last_activity: now,
                ..m[id]
            })
            &&& !kept && held ==> !after.pool.connections.dom().contains(id)
                && !after.idle.contains(id) && raised(
                after.counters.active_connections,
                before.counters.active_connections,
                1,
            )
            &&& !reusable && held ==> raised(
                before.counters.discarded_total,
                after.counters.discarded_total,
                1,
            )
            &&& reusable || !held ==> after.counters.discarded_total
                == before.counters.discarded_total
            &&& after.counters.connections_total == before.counters.connections_total
                && after.counters.reused_total == before.counters.reused_total
        }),
{
    let m = before.pool.connections;
    if kept {
        assert(after.pool.connections.dom() =~= m.dom());
    }
}

} // verus!
