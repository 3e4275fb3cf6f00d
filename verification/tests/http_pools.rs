use linklake_server::http1_pool::{Http1BackendAcquireError, Http1BackendPool};
use linklake_server::http2_pool::{Http2BackendPool, Http2Candidate};
use linklake_server::http_backend_pool::{
    BackendConnectionId, BackendPoolLimits, BackendProtocol, BackendSecurity, OriginKey,
};

const SECOND: u128 = 1_000_000_000;

fn origin(port: u16, protocol: BackendProtocol) -> OriginKey {
    OriginKey::new(1, &format!("example.test:{port}"), protocol, BackendSecurity::Plaintext).unwrap()
}

fn pool() -> Http1BackendPool {
    Http1BackendPool::new(BackendPoolLimits::new(2, 2, 30 * SECOND).unwrap())
}

#[test]
fn recycles_only_explicitly_completed_connections() {
    let origin = origin(80, BackendProtocol::Http1);
    let mut pool = pool();
    assert_eq!(pool.acquire_existing(&origin, 0).0, None);
    let (lease, evicted) = pool.connected(&origin, 0).unwrap();
    assert_eq!(evicted, None);
    assert!(pool.finish(lease, true, 1));
    let (reused, dropped) = pool.acquire_existing(&origin, 2);
    assert_eq!(reused, Some(lease));
    assert!(dropped.is_empty());
    assert_eq!(pool.counters().reused_total, 1);
    assert!(!pool.finish(lease, false, 3));
    assert_eq!(pool.counters().active_connections, 0);
    assert_eq!(pool.acquire_existing(&origin, 4).0, None);
}

#[test]
fn policy_invalidation_prevents_late_lease_from_reentering_idle_pool() {
    let origin = origin(80, BackendProtocol::Http1);
    let mut pool = pool();
    let (lease, _) = pool.connected(&origin, 0).unwrap();
    pool.invalidate_policy(1);
    assert!(!pool.finish(lease, true, 1));

    assert_eq!(pool.idle_len(), 0);
    assert_eq!(pool.connections(), 0);
}

#[test]
fn idle_connections_time_out() {
    let origin = origin(80, BackendProtocol::Http1);
    let mut pool = pool();
    let (lease, _) = pool.connected(&origin, 0).unwrap();
    assert!(pool.finish(lease, true, SECOND));
    assert!(pool.prune(30 * SECOND).is_empty());
    assert_eq!(pool.prune(31 * SECOND), vec![lease.get()]);
    assert_eq!(pool.counters().idle_timeouts_total, 1);
    pool.connect_failed();
    assert_eq!(pool.counters().failures_total, 1);
}

#[test]
fn a_full_pool_is_busy() {
    let origin = origin(80, BackendProtocol::Http1);
    let mut pool = pool();
    pool.connected(&origin, 0).unwrap();
    pool.connected(&origin, 0).unwrap();
    assert_eq!(
        pool.connected(&origin, 0),
        Err(Http1BackendAcquireError::CapacityBusy)
    );
    assert_eq!(pool.counters().pool_exhausted_total, 1);
}

fn acquire(pool: &mut Http2BackendPool, count_reuse: bool, now: u128) -> Option<BackendConnectionId> {
    match pool.choose_connection(now) {
        Http2Candidate::Chosen(id) => {
            let (usable, _) = pool.confirm(id, false, count_reuse, now);
            if usable {
                Some(id)
            } else {
                None
            }
        }
        _ => None,
    }
}

fn connect(pool: &mut Http2BackendPool, now: u128) -> BackendConnectionId {
    let (id, evicted) = pool.connected(now).unwrap();
    assert_eq!(evicted, None);
    assert_eq!(acquire(pool, false, now), Some(id));
    id
}

#[test]
fn streams_share_a_connection() {
    let mut pool = Http2BackendPool::new(origin(443, BackendProtocol::Http2), 8);
    assert_eq!(pool.choose_connection(0), Http2Candidate::Exhausted);
    let first = connect(&mut pool, 0);
    assert_eq!(acquire(&mut pool, true, 1), Some(first));
    let counters = pool.counters();
    assert_eq!(counters.connections_total, 1);
    assert_eq!(counters.reused_total, 1);
    assert_eq!(counters.active_streams, 2);
    assert_eq!(pool.release(first, 2), None);
    assert_eq!(pool.release(first, 2), None);
    assert_eq!(pool.counters().active_streams, 0);
    assert_eq!(pool.invalidate(), vec![first.get()]);
    assert_eq!(pool.counters().active_connections, 0);
}

#[test]
fn a_goaway_drains_and_the_next_request_recovers() {
    let mut pool = Http2BackendPool::new(origin(443, BackendProtocol::Http2), 4);
    let first = connect(&mut pool, 0);
    pool.release(first, 1);
    pool.connection_finished(first, true);
    assert_eq!(pool.counters().goaway_total, 1);
    assert_eq!(acquire(&mut pool, true, 2), None);
    let second = connect(&mut pool, 2);
    assert_ne!(second, first);
    assert_eq!(pool.counters().connections_total, 2);
    assert_eq!(pool.counters().reconnects_total, 1);
    pool.release(second, 4);
    pool.invalidate();
}

#[test]
fn broken_connections_are_replaced() {
    let mut pool = Http2BackendPool::new(origin(443, BackendProtocol::Http2), 2);
    assert_eq!(pool.stream_capacity(), 2);
    let first = connect(&mut pool, 0);
    pool.request_failed(first, true);
    assert_eq!(pool.counters().failures_total, 1);
    assert_eq!(acquire(&mut pool, true, 1), None);
    pool.release(first, 2);
    connect(&mut pool, 3);
    assert_eq!(pool.counters().reconnects_total, 1);
    pool.connect_failed();
    assert_eq!(pool.counters().failures_total, 2);
}

#[test]
fn of_connections_recycled_at_one_moment_the_first_is_reused() {
    let origin = origin(80, BackendProtocol::Http1);
    let mut pool = pool();
    let (first, _) = pool.connected(&origin, 0).unwrap();
    let (second, _) = pool.connected(&origin, 0).unwrap();
    assert!(first.get() < second.get());
    assert!(pool.finish(second, true, 5));
    assert!(pool.finish(first, true, 5));
    assert_eq!(pool.acquire_existing(&origin, 6).0, Some(first));
    assert_eq!(pool.acquire_existing(&origin, 6).0, Some(second));
}
