use linklake_server::http_backend_pool::{
    BackendConnectionMode, BackendPoolLimits, BackendPoolLimitsError, BackendPoolSnapshot,
    BackendPoolState, BackendProtocol, BackendRegisterError, BackendRemoval, BackendRemovalReason,
    BackendSecurity, OriginKey, OriginKeyError,
};

const SECOND: u128 = 1_000_000_000;

fn limits(global: usize, per_origin: usize, idle_seconds: u128) -> BackendPoolLimits {
    BackendPoolLimits::new(global, per_origin, idle_seconds * SECOND)
        .expect("test pool limits should be valid")
}

fn origin(policy: u128, target: &str, protocol: BackendProtocol) -> OriginKey {
    OriginKey::new(policy, target, protocol, BackendSecurity::Plaintext)
        .expect("test origin should be valid")
}

fn multiplexed(streams: usize) -> BackendConnectionMode {
    BackendConnectionMode::Multiplexed { max_concurrent_streams: streams }
}

#[test]
fn origin_key_normalizes_authority_and_separates_security_contexts() {
    let policy_id = 7;
    let plaintext = OriginKey::new(
        policy_id,
        " Example.COM.:8080 ",
        BackendProtocol::Http1,
        BackendSecurity::Plaintext,
    )
    .expect("plain origin should normalize");
    let same = OriginKey::new(
        policy_id,
        "example.com:8080",
        BackendProtocol::Http1,
        BackendSecurity::Plaintext,
    )
    .expect("equivalent origin should normalize");
    assert_eq!(plaintext, same);
    assert!(plaintext.same(&same));
    assert_eq!(plaintext.authority(), "example.com:8080");
    assert_ne!(
        plaintext,
        OriginKey::new(
            8,
            "example.com:8080",
            BackendProtocol::Http1,
            BackendSecurity::Plaintext,
        )
        .expect("another policy origin should build")
    );

    let tls = OriginKey::new(
        policy_id,
        "example.com:8080",
        BackendProtocol::Http2,
        BackendSecurity::tls("EXAMPLE.COM.").expect("TLS name should normalize"),
    )
    .expect("TLS origin should build");
    assert_ne!(plaintext, tls);
    assert_eq!(
        tls.security(),
        &BackendSecurity::Tls { server_name: "example.com".into() }
    );
    assert!(OriginKey::new(
        policy_id,
        "missing-port",
        BackendProtocol::Http1,
        BackendSecurity::Plaintext
    )
    .is_err());
    assert!(BackendSecurity::tls("bad_name.example.com").is_err());
}

#[test]
fn origin_keys_canonicalize_socket_addresses() {
    let key = origin(1, "[0:0:0:0:0:0:0:1]:0443", BackendProtocol::Http2);
    assert_eq!(key.authority(), "[::1]:443");
    assert_eq!(key.policy_id(), 1);
    assert_eq!(key.protocol(), BackendProtocol::Http2);
    assert_eq!(
        origin(1, "127.0.0.1:80", BackendProtocol::Http1).authority(),
        "127.0.0.1:80"
    );
    for invalid in ["", "example.com:0", "example.com:65536", "a b:80", "u@example.com:80", "a:b:80"] {
        assert_eq!(
            OriginKey::new(1, invalid, BackendProtocol::Http1, BackendSecurity::Plaintext),
            Err(OriginKeyError::InvalidAuthority),
            "{invalid}"
        );
    }
    assert_eq!(
        BackendSecurity::tls("2001:DB8:0:0:0:0:0:1").unwrap(),
        BackendSecurity::Tls { server_name: "2001:db8::1".into() }
    );
    assert_eq!(OriginKeyError::InvalidAuthority.message(), "HTTP backend authority is invalid");
    assert_eq!(
        BackendSecurity::tls("").unwrap_err().message(),
        "HTTP backend TLS server name is invalid"
    );
}

#[test]
fn exclusive_and_multiplexed_connections_enforce_stream_capacity() {
    let now = 0;
    let mut pool = BackendPoolState::new(limits(4, 4, 30));
    let http1 = origin(1, "127.0.0.1:8080", BackendProtocol::Http1);
    let http2 = origin(2, "[::1]:9090", BackendProtocol::Http2);
    let http1_id = pool
        .register(http1.clone(), BackendConnectionMode::Exclusive, now)
        .expect("HTTP/1 connection should register")
        .connection_id;
    let http2_id = pool
        .register(http2.clone(), multiplexed(2), now)
        .expect("HTTP/2 connection should register")
        .connection_id;

    assert_eq!(pool.acquire(&http1, now).unwrap().connection_id, http1_id);
    assert!(pool.acquire(&http1, now).is_none());
    assert_eq!(pool.acquire(&http2, now).unwrap().connection_id, http2_id);
    assert_eq!(pool.acquire(&http2, now).unwrap().connection_id, http2_id);
    assert!(pool.acquire(&http2, now).is_none());
    assert_eq!(pool.snapshot().active_streams, 3);

    assert!(pool.release(http1_id, now).is_none());
    assert_eq!(pool.acquire(&http1, now).unwrap().connection_id, http1_id);
}

#[test]
fn capacity_evicts_oldest_idle_connection_and_never_active_connections() {
    let now = 0;
    let mut pool = BackendPoolState::new(limits(2, 1, 30));
    let first = origin(1, "one.example:80", BackendProtocol::Http1);
    let second = origin(2, "two.example:80", BackendProtocol::Http1);
    let first_id = pool
        .register(first.clone(), BackendConnectionMode::Exclusive, now)
        .unwrap()
        .connection_id;
    let second_id = pool
        .register(second.clone(), BackendConnectionMode::Exclusive, now + SECOND)
        .unwrap()
        .connection_id;
    let replacement = pool
        .register(second.clone(), BackendConnectionMode::Exclusive, now + 2 * SECOND)
        .expect("idle origin entry should be replaced");
    assert_eq!(replacement.removals.len(), 1);
    assert_eq!(
        replacement.removals[0],
        BackendRemoval {
            connection_id: second_id,
            origin: second.clone(),
            reason: BackendRemovalReason::OriginCapacity,
        }
    );
    assert!(pool.contains(first_id));

    let first_lease = pool.acquire(&first, now).unwrap();
    let second_lease = pool.acquire(&second, now).unwrap();
    let third = origin(3, "three.example:80", BackendProtocol::Http1);
    assert_eq!(
        pool.register(third, BackendConnectionMode::Exclusive, now),
        Err(BackendRegisterError::CapacityBusy)
    );
    assert_eq!(
        BackendRegisterError::CapacityBusy.message(),
        "all HTTP backend connections are busy"
    );
    assert!(pool.contains(first_lease.connection_id));
    assert!(pool.contains(second_lease.connection_id));
}

#[test]
fn global_capacity_evicts_the_least_recently_used_idle_connection() {
    let now = 0;
    let mut pool = BackendPoolState::new(limits(2, 2, 30));
    let first = origin(1, "one.example:80", BackendProtocol::Http1);
    let second = origin(2, "two.example:80", BackendProtocol::Http1);
    let third = origin(3, "three.example:80", BackendProtocol::Http1);
    let first_id = pool
        .register(first.clone(), BackendConnectionMode::Exclusive, now)
        .unwrap()
        .connection_id;
    let second_id = pool
        .register(second, BackendConnectionMode::Exclusive, now + SECOND)
        .unwrap()
        .connection_id;

    let registration = pool
        .register(third, BackendConnectionMode::Exclusive, now + 2 * SECOND)
        .expect("global capacity should recycle one idle connection");
    assert_eq!(registration.removals.len(), 1);
    assert_eq!(registration.removals[0].connection_id, first_id);
    assert_eq!(
        registration.removals[0].reason,
        BackendRemovalReason::GlobalCapacity
    );
    assert!(!pool.contains(first_id));
    assert!(pool.contains(second_id));
    assert!(pool.contains(registration.connection_id));
}

#[test]
fn idle_pruning_ignores_active_connections() {
    let now = 0;
    let mut pool = BackendPoolState::new(limits(4, 4, 10));
    let idle = origin(1, "idle.example:80", BackendProtocol::Http1);
    let active = origin(2, "active.example:80", BackendProtocol::Http1);
    let idle_id = pool
        .register(idle.clone(), BackendConnectionMode::Exclusive, now)
        .unwrap()
        .connection_id;
    let active_id = pool
        .register(active.clone(), BackendConnectionMode::Exclusive, now)
        .unwrap()
        .connection_id;
    pool.acquire(&active, now).expect("connection should lease");

    let removals = pool.prune_idle(now + 10 * SECOND);
    assert_eq!(removals.len(), 1);
    assert_eq!(removals[0].connection_id, idle_id);
    assert_eq!(removals[0].reason, BackendRemovalReason::IdleTimeout);
    assert!(pool.contains(active_id));
}

#[test]
fn policy_invalidation_removes_idle_and_active_connections() {
    let now = 0;
    let policy_id = 42;
    let first = origin(policy_id, "first.example:80", BackendProtocol::Http1);
    let second = origin(policy_id, "second.example:80", BackendProtocol::Http2);
    let other = origin(99, "other.example:80", BackendProtocol::Http1);
    let mut pool = BackendPoolState::new(limits(6, 3, 30));
    let first_id = pool
        .register(first.clone(), BackendConnectionMode::Exclusive, now)
        .unwrap()
        .connection_id;
    let second_id = pool
        .register(second.clone(), multiplexed(8), now)
        .unwrap()
        .connection_id;
    let other_id = pool
        .register(other, BackendConnectionMode::Exclusive, now)
        .unwrap()
        .connection_id;
    pool.acquire(&second, now)
        .expect("HTTP/2 stream should lease");

    let removals = pool.invalidate_policy(policy_id);
    assert_eq!(removals.len(), 2);
    assert!(removals
        .iter()
        .all(|removal| removal.reason == BackendRemovalReason::PolicyInvalidated));
    assert!(!pool.contains(first_id));
    assert!(!pool.contains(second_id));
    assert!(pool.contains(other_id));
    assert_eq!(pool.snapshot().connections, 1);
}

#[test]
fn disconnect_and_goaway_remove_connections_at_the_correct_time() {
    let now = 0;
    let origin = origin(1, "grpc.example:443", BackendProtocol::Http2);
    let mut pool = BackendPoolState::new(limits(4, 4, 30));
    let connection_id = pool
        .register(origin.clone(), multiplexed(8), now)
        .unwrap()
        .connection_id;
    pool.acquire(&origin, now).expect("stream should lease");
    assert!(pool.mark_goaway(connection_id).is_none());
    assert!(pool.acquire(&origin, now).is_none());
    assert_eq!(pool.snapshot().draining_connections, 1);
    let removal = pool
        .release(connection_id, now + SECOND)
        .expect("last GOAWAY stream should remove connection");
    assert_eq!(removal.reason, BackendRemovalReason::GoAway);

    let replacement = pool
        .register(origin, BackendConnectionMode::Exclusive, now)
        .unwrap()
        .connection_id;
    let removal = pool
        .disconnected(replacement)
        .expect("disconnect should remove connection");
    assert_eq!(removal.reason, BackendRemovalReason::Disconnected);
    assert_eq!(pool.snapshot(), BackendPoolSnapshot::default());
}

#[test]
fn pool_limit_validation_is_strict() {
    assert_eq!(
        BackendPoolLimits::new(2, 3, SECOND),
        Err(BackendPoolLimitsError::OriginLimitExceedsGlobalLimit)
    );
    assert_eq!(
        BackendPoolLimits::new(2, 2, 0),
        Err(BackendPoolLimitsError::ZeroIdleTimeout)
    );
}

#[test]
fn default_limits_are_valid() {
    let defaults = BackendPoolLimits::default();
    assert_eq!(
        BackendPoolLimits::new(
            defaults.max_connections,
            defaults.max_connections_per_origin,
            defaults.idle_timeout_nanos,
        ),
        Ok(defaults)
    );
    assert_eq!(
        BackendPoolLimitsError::ZeroIdleTimeout.message(),
        "HTTP backend idle timeout must be greater than zero"
    );
}

#[test]
fn releasing_a_stream_makes_room_for_another() {
    let key = origin(5, "five.example:80", BackendProtocol::Http1);
    let mut pool = BackendPoolState::new(limits(1, 1, 30));
    let id = pool
        .register(key.clone(), BackendConnectionMode::Exclusive, 0)
        .unwrap()
        .connection_id;
    assert_eq!(id.get(), 1);
    assert!(pool.acquire(&key, 1).is_some());
    assert!(pool.register(key.clone(), BackendConnectionMode::Exclusive, 2).is_err());
    assert!(pool.release(id, 3).is_none());
    assert!(pool.release(id, 3).is_none());
    assert!(pool.acquire(&key, 4).is_some());
}
