use linklake_server::grpc_backend_tls::{
    GrpcBackendRuntimeTransport, GrpcBackendTlsPolicy, GrpcBackendTrust,
};
use linklake_server::http_routes::{
    decode_snapshot, normalize_hostname, requested_policy, route_origin, CreateHttpRouteError,
    CreateHttpRoutePolicy, GrpcBackendTransport, HttpRouteCatalog, HttpRouteRuntimePolicy,
    RouteRowError, SharedRoutePolicy,
};

const CLIENT: u128 = 0xc1;

fn request(hostname: &str) -> CreateHttpRoutePolicy {
    CreateHttpRoutePolicy {
        client_id: CLIENT,
        name: "site".to_owned(),
        hostname: hostname.to_owned(),
        target_addr: "127.0.0.1:8080".to_owned(),
        max_connections: Some(64),
    }
}

#[test]
fn hostname_normalization_is_strict_and_port_aware() {
    assert_eq!(
        normalize_hostname(" Example.COM.:8080 ").expect("hostname should normalize"),
        "example.com"
    );
    assert!(normalize_hostname("http://example.com").is_none());
    assert!(normalize_hostname("127.0.0.1").is_none());
    assert!(normalize_hostname("bad_label.example.com").is_none());
}

#[test]
fn normalized_hostnames_stay_as_they_are() {
    for name in ["Example.COM.", "a.b.c:443", "x-1.example"] {
        let once = normalize_hostname(name).unwrap();
        assert_eq!(normalize_hostname(&once), Some(once.clone()));
    }
    let origin = route_origin(3, "site.example.com").unwrap();
    assert_eq!(origin.authority(), "site.example.com:80");
    assert_eq!(origin.policy_id(), 3);
}

#[test]
fn enabled_policy_authorizes_only_an_exact_route_registration() {
    let mut catalog = HttpRouteCatalog::new();
    let policy = catalog
        .create(
            &CreateHttpRoutePolicy {
                client_id: CLIENT,
                name: "site".to_owned(),
                hostname: "Site.Example.com".to_owned(),
                target_addr: "127.0.0.1:8080".to_owned(),
                max_connections: Some(12),
            },
            true,
        )
        .expect("route should be created");
    assert_eq!(policy.hostname, "site.example.com");
    assert_eq!(
        catalog
            .runtime_policy(CLIENT, "site", "SITE.EXAMPLE.COM:80", "127.0.0.1:8080")
            .expect("authorization should work"),
        Some(HttpRouteRuntimePolicy { policy_id: policy.id, max_connections: 12 })
    );
    assert_eq!(
        catalog.runtime_policy(CLIENT + 1, "site", "site.example.com", "127.0.0.1:8080"),
        Ok(None)
    );
    assert_eq!(
        catalog.runtime_policy(CLIENT, "site", "site.example.com", "127.0.0.1:8081"),
        Ok(None)
    );
    assert!(catalog.set_enabled(policy.id, false));
    assert_eq!(
        catalog
            .runtime_policy(CLIENT, "site", "site.example.com", "127.0.0.1:8080")
            .expect("authorization should work"),
        None
    );
}

#[test]
fn create_reports_stable_validation_errors() {
    let mut catalog = HttpRouteCatalog::new();
    let request = |name: &str, hostname: &str, target_addr: &str, max_connections| {
        CreateHttpRoutePolicy {
            client_id: CLIENT,
            name: name.to_owned(),
            hostname: hostname.to_owned(),
            target_addr: target_addr.to_owned(),
            max_connections,
        }
    };

    assert!(matches!(
        catalog.create(&request("", "site.example.com", "127.0.0.1:8080", Some(1)), true),
        Err(CreateHttpRouteError::InvalidName)
    ));
    assert!(matches!(
        catalog.create(&request("site", "bad_host", "127.0.0.1:8080", Some(1)), true),
        Err(CreateHttpRouteError::InvalidHostname)
    ));
    assert!(matches!(
        catalog.create(&request("site", "site.example.com", "missing-port", Some(1)), false),
        Err(CreateHttpRouteError::InvalidTarget)
    ));
    assert!(matches!(
        catalog.create(
            &request("site", "site.example.com", "127.0.0.1:8080", Some(0)),
            true
        ),
        Err(CreateHttpRouteError::InvalidConnectionLimit)
    ));
    assert!(catalog.list().is_empty());
    assert_eq!(
        catalog
            .create(&request("site", "site.example.com", "127.0.0.1:8080", None), true)
            .unwrap()
            .max_connections,
        64
    );
}

#[test]
fn duplicate_hostname_is_detected_after_normalization() {
    let mut catalog = HttpRouteCatalog::new();
    catalog
        .create(&request("site.example.com"), true)
        .expect("first route should be created");
    assert!(matches!(
        catalog.create(&request("SITE.EXAMPLE.COM.:80"), true),
        Err(CreateHttpRouteError::DuplicateHostname)
    ));
    assert_eq!(catalog.enabled_hostname_exists("Site.Example.com"), Some(true));
    assert_eq!(catalog.enabled_hostname_exists("other.example.com"), Some(false));
    assert_eq!(catalog.enabled_hostname_exists("bad_host"), None);
}

#[test]
fn update_preserves_identity_and_enabled_state() {
    let mut catalog = HttpRouteCatalog::new();
    let policy = catalog
        .create(
            &CreateHttpRoutePolicy {
                client_id: CLIENT,
                name: "old-site".to_owned(),
                hostname: "old.example.com".to_owned(),
                target_addr: "127.0.0.1:8080".to_owned(),
                max_connections: Some(8),
            },
            true,
        )
        .expect("route should create");
    assert!(catalog.set_enabled(policy.id, false));
    let updated = catalog
        .update(
            policy.id,
            &CreateHttpRoutePolicy {
                client_id: CLIENT,
                name: "new-site".to_owned(),
                hostname: "New.Example.com.".to_owned(),
                target_addr: "127.0.0.1:9090".to_owned(),
                max_connections: Some(16),
            },
            true,
        )
        .expect("route should update")
        .expect("route should exist");
    assert_eq!(updated.id, policy.id);
    assert!(!updated.enabled);
    assert_eq!(updated.hostname, "new.example.com");
    assert_eq!(updated.target_addr, "127.0.0.1:9090");
    assert_eq!(updated.max_connections, 16);
    assert_eq!(catalog.policy_by_id(policy.id), Some(updated));
    assert_eq!(catalog.hostname_for_id(policy.id).as_deref(), Some("new.example.com"));
    assert_eq!(catalog.update(policy.id + 1, &request("x.example.com"), true), Ok(None));
    assert!(catalog.delete(policy.id));
    assert!(!catalog.delete(policy.id));
}

#[test]
fn routes_are_listed_by_host_name() {
    let mut catalog = HttpRouteCatalog::new();
    for (id, hostname) in [(1, "m.example.com"), (2, "a.example.com"), (3, "z.example.com")] {
        catalog.create_as(id, &request(hostname), true).unwrap();
    }
    let names: Vec<String> = catalog.list().into_iter().map(|p| p.hostname).collect();
    assert_eq!(names, vec!["a.example.com", "m.example.com", "z.example.com"]);
}

fn policy() -> SharedRoutePolicy {
    SharedRoutePolicy {
        policy: requested_policy(0x1111, true, &request("site.example.com"), true).unwrap(),
        grpc_backend_transport: GrpcBackendTransport::H2c,
        grpc_backend_server_name: None,
        grpc_backend_trust_profile: None,
    }
}

const ID: &str = "00000000-0000-0000-0000-000000001111";
const REVISION: &str = "11111111-2222-4333-8444-555555555555";

#[test]
fn shared_snapshot_rejects_identity_and_revision_corruption() {
    let policy = policy();
    let snapshot =
        decode_snapshot(ID, &policy.policy.hostname, REVISION, policy.clone(), true).unwrap();
    assert!(snapshot.policy == policy);
    assert_eq!(snapshot.revision, 0x11111111_2222_4333_8444_555555555555);
    assert!(decode_snapshot(REVISION, &policy.policy.hostname, REVISION, policy.clone(), true).is_err());
    assert!(
        decode_snapshot(ID, "other.example.com", REVISION, policy.clone(), true).is_err()
    );
    assert_eq!(
        decode_snapshot(ID, &policy.policy.hostname, "invalid-revision", policy.clone(), true)
            .map(|_| ()),
        Err(RouteRowError::Identifier("invalid character: found `i` at 0".to_owned()))
    );
    assert_eq!(
        decode_snapshot("{", "site.example.com", REVISION, policy, true).map(|_| ()),
        Err(RouteRowError::Identifier("invalid character: found `{` at 0".to_owned()))
    );
}

#[test]
fn shared_snapshot_revalidates_runtime_authorization_fields() {
    let original = policy();
    let decode = |policy: SharedRoutePolicy, target_valid: bool| {
        decode_snapshot(ID, "site.example.com", REVISION, policy, target_valid).map(|_| ())
    };
    assert_eq!(decode(original.clone(), true), Ok(()));
    let mut corrupted = original.clone();
    corrupted.policy.max_connections = 0;
    assert_eq!(
        decode(corrupted, true),
        Err(RouteRowError::Invalid(CreateHttpRouteError::InvalidConnectionLimit))
    );
    let mut corrupted = original.clone();
    corrupted.policy.target_addr = "not-a-target".to_owned();
    assert_eq!(
        decode(corrupted, false),
        Err(RouteRowError::Invalid(CreateHttpRouteError::InvalidTarget))
    );
    let mut corrupted = original.clone();
    corrupted.policy.name = " site ".to_owned();
    assert_eq!(decode(corrupted, true), Err(RouteRowError::NotCanonical));
    let mut corrupted = original;
    corrupted.grpc_backend_transport = GrpcBackendTransport::Tls;
    assert_eq!(decode(corrupted, true), Err(RouteRowError::MissingServerName));
}

#[test]
fn shared_routes_carry_their_transport() {
    let mut shared = policy();
    shared.grpc_backend_transport = GrpcBackendTransport::Tls;
    shared.grpc_backend_server_name = Some("grpc.example.test".to_owned());
    let client = shared.policy.client_id;
    let target = shared.policy.target_addr.clone();
    let name = shared.policy.name.clone();
    let decode = |shared: SharedRoutePolicy| {
        decode_snapshot(ID, "site.example.com", REVISION, shared, true).unwrap()
    };
    let granted = |shared: SharedRoutePolicy, client: u128| {
        decode(shared).runtime_policy(client, &name, &target).unwrap()
    };
    let tls = |trust| {
        GrpcBackendRuntimeTransport::Tls(GrpcBackendTlsPolicy {
            server_name: "grpc.example.test".to_owned(),
            trust,
        })
    };
    let system = granted(shared.clone(), client).unwrap();
    assert_eq!(system.policy.policy_id, 0x1111);
    assert_eq!(system.grpc_backend, tls(GrpcBackendTrust::System));
    assert_eq!(granted(shared.clone(), client + 1), None);
    let mut disabled = shared.clone();
    disabled.policy.enabled = false;
    assert_eq!(granted(disabled, client), None);
    shared.grpc_backend_trust_profile = Some("private-ca".to_owned());
    assert_eq!(
        granted(shared, client).unwrap().grpc_backend,
        tls(GrpcBackendTrust::Profile("private-ca".to_owned()))
    );
    assert_eq!(
        granted(policy(), client).unwrap().grpc_backend,
        GrpcBackendRuntimeTransport::H2c
    );
}
