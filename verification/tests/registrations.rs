use linklake_server::http_proxy_session::{
    HttpProxyRegistration, HttpProxyRegistry, ProxyRegistrationError,
};
use linklake_server::http_routes::{CreateHttpRoutePolicy, HttpRouteCatalog};
use linklake_server::http_tunnel::{HttpRouteRegistry, RouteRegistrationError};
use linklake_server::registrations::{
    register_proxy, register_proxy_as, register_route, register_route_as, RegistrationMetrics, SeenRegistrations,
};

const CLIENT: u128 = 7;
const TARGET: &str = "127.0.0.1:8080";

fn catalog() -> HttpRouteCatalog {
    let mut catalog = HttpRouteCatalog::new();
    let request = CreateHttpRoutePolicy {
        client_id: CLIENT,
        name: "site".to_owned(),
        hostname: "site.example.com".to_owned(),
        target_addr: TARGET.to_owned(),
        max_connections: Some(12),
    };
    catalog.create_as(1, &request, true).unwrap();
    catalog
}

#[test]
fn seen_registrations_are_noted_once() {
    let mut seen = SeenRegistrations::new();
    assert!(!seen.note(1, "a.example"));
    assert!(!seen.note(2, "a.example"));
    assert!(!seen.note(1, "b.example"));
    assert!(seen.note(1, "a.example"));
    assert!(seen.note(2, "a.example"));
}

#[test]
fn route_registrations_are_counted() {
    let catalog = catalog();
    let mut registry = HttpRouteRegistry::new();
    let mut seen = SeenRegistrations::new();
    let mut metrics = RegistrationMetrics::default();
    let mut register = |id: u128, authenticated: bool, name: &str, hostname: &str| {
        register_route_as(
            id,
            &catalog,
            &mut registry,
            &mut seen,
            &mut metrics,
            authenticated,
            CLIENT,
            name,
            hostname,
            TARGET,
        )
    };
    assert_eq!(
        register(1, false, "site", "site.example.com").unwrap_err(),
        RouteRegistrationError::InvalidCredentials
    );
    assert_eq!(
        register(2, true, "site", "bad_host").unwrap_err(),
        RouteRegistrationError::InvalidHostname
    );
    assert_eq!(
        register(3, true, "other", "site.example.com").unwrap_err(),
        RouteRegistrationError::NoPolicy
    );
    let first = register(4, true, "site", "Site.Example.com:443").unwrap();
    assert_eq!(first.hostname, "site.example.com");
    assert_eq!((first.policy.policy_id, first.policy.max_connections), (1, 12));
    assert_eq!(first.origin.authority(), "site.example.com:80");
    assert_eq!((first.replaced, first.reconnected), (None, false));
    assert_eq!(first.audit, "name=site; hostname=site.example.com; target=127.0.0.1:8080");
    let second = register(5, true, "site", "site.example.com").unwrap();
    assert_eq!((second.replaced, second.reconnected), (Some(4), true));
    assert_eq!(registry.registration("site.example.com"), Some(5));
    assert_eq!(
        metrics,
        RegistrationMetrics {
            authentication_failures_total: 1,
            registration_rejections_total: 2,
            tunnel_registrations_total: 2,
            tunnel_reconnects_total: 1,
        }
    );
}

#[test]
fn registrations_have_identifiers_of_their_own() {
    let mut registry = HttpRouteRegistry::new();
    let grant = register_route(
        &catalog(),
        &mut registry,
        &mut SeenRegistrations::new(),
        &mut RegistrationMetrics::default(),
        true,
        CLIENT,
        "site",
        "site.example.com",
        TARGET,
    )
    .unwrap();
    assert_eq!((grant.registration_id >> 76) & 0xf, 4);
    assert_eq!(registry.registration("site.example.com"), Some(grant.registration_id));
}

#[test]
fn proxy_registrations_are_counted() {
    let mut registry = HttpProxyRegistry::new();
    let mut metrics = RegistrationMetrics::default();
    let mut register = |id, authenticated, policy, bound| {
        register_proxy_as(
            id,
            &mut registry,
            &mut metrics,
            authenticated,
            policy,
            bound,
            CLIENT,
            "proxy",
            3128,
        )
    };
    for (result, error) in [
        (register(1, false, Some(9), true), ProxyRegistrationError::InvalidCredentials),
        (register(2, true, None, true), ProxyRegistrationError::NoPolicy),
        (register(3, true, Some(9), false), ProxyRegistrationError::PortUnavailable),
    ] {
        assert_eq!(result.unwrap_err(), error);
    }
    let grant = register(4, true, Some(9), true).unwrap();
    assert_eq!(grant.policy_id, 9);
    assert_eq!(grant.replaced, None);
    assert_eq!(
        grant.audit,
        "client=00000000-0000-0000-0000-000000000007; name=proxy; public_port=3128"
    );
    let next = register(5, true, Some(9), true).unwrap();
    assert_eq!(
        next.replaced,
        Some(HttpProxyRegistration { registration_id: 4, public_port: 3128 })
    );
    let fresh =
        register_proxy(&mut registry, &mut metrics, true, Some(10), true, CLIENT, "b", 3129).unwrap();
    assert_eq!((fresh.registration.registration_id >> 76) & 0xf, 4);
    assert_eq!(metrics.registration_rejections_total, 3);
    assert_eq!(metrics.tunnel_registrations_total, 3);
    assert_eq!(metrics.authentication_failures_total, 0);
}

/// Names of 253 characters are valid, and too long for an origin with a port.
#[test]
fn long_host_names_are_refused_and_counted_like_others() {
    let label = |letter: &str, count: usize| letter.repeat(count);
    let hostname =
        [label("a", 63), label("b", 63), label("c", 63), label("d", 61)].join(".");
    assert_eq!(hostname.len(), 253);
    let catalog = catalog();
    let mut registry = HttpRouteRegistry::new();
    let mut seen = SeenRegistrations::new();
    let mut metrics = RegistrationMetrics::default();
    for (authenticated, error) in [
        (false, RouteRegistrationError::InvalidCredentials),
        (true, RouteRegistrationError::NoPolicy),
    ] {
        let refused = register_route(
            &catalog,
            &mut registry,
            &mut seen,
            &mut metrics,
            authenticated,
            CLIENT,
            "site",
            &hostname,
            TARGET,
        );
        assert_eq!(refused.unwrap_err(), error);
    }
    assert_eq!(
        metrics,
        RegistrationMetrics {
            authentication_failures_total: 1,
            registration_rejections_total: 2,
            tunnel_registrations_total: 0,
            tunnel_reconnects_total: 0,
        }
    );
    assert_eq!(registry.registration(&hostname), None);
}
