use linklake_server::grpc_backend_tls::{
    admit_sections, backend_identity, check_profile_file, check_system_roots, profile_roots, GrpcBackendConnector,
    GrpcBackendRuntimeTransport, GrpcBackendTlsCounters, GrpcBackendTlsError,
    GrpcBackendTlsPolicy, GrpcBackendTrust, HandshakeOutcome, TrustProfileFile,
    MAX_TRUST_PROFILE_CERTIFICATES, MAX_TRUST_PROFILE_DER_BYTES, MAX_TRUST_PROFILE_FILE_BYTES,
};
use linklake_server::http_backend_pool::BackendSecurity;

const FILE: TrustProfileFile = TrustProfileFile {
    directory_configured: true,
    directory_read: true,
    is_directory: true,
    file_resolved: true,
    inside_directory: true,
    file_opened: true,
    is_regular_file: true,
    length: 0,
};

fn tls(server_name: &str, trust: GrpcBackendTrust) -> GrpcBackendRuntimeTransport {
    GrpcBackendRuntimeTransport::Tls(GrpcBackendTlsPolicy {
        server_name: server_name.to_owned(),
        trust,
    })
}

#[test]
fn h2c_connector_is_plaintext_and_does_not_load_trust() {
    let connector = GrpcBackendConnector::from_policy(
        &GrpcBackendRuntimeTransport::H2c,
        Err(GrpcBackendTlsError::SystemTrustUnavailable),
    )
    .unwrap();
    assert_eq!(connector.transport_name(), "h2c");
    assert_eq!(connector.security(), BackendSecurity::Plaintext);
    assert!(!connector.is_tls());
}

#[test]
fn missing_profile_directory_fails_closed() {
    let file = TrustProfileFile { directory_configured: false, ..FILE };
    let result = GrpcBackendConnector::from_policy(
        &tls("grpc.example.test", GrpcBackendTrust::Profile("private-ca".to_owned())),
        check_profile_file(&file),
    );
    assert!(matches!(
        result,
        Err(GrpcBackendTlsError::TrustProfileDirectoryMissing)
    ));
}

#[test]
fn tls_connectors_need_a_server_name_and_roots() {
    let connector =
        GrpcBackendConnector::from_policy(&tls("GRPC.example.test", GrpcBackendTrust::System), Ok(()))
            .unwrap();
    assert_eq!(connector.transport_name(), "tls");
    assert_eq!(
        connector.security(),
        BackendSecurity::Tls { server_name: "grpc.example.test".into() }
    );
    for name in ["", "bad name", "-"] {
        assert!(matches!(
            GrpcBackendConnector::from_policy(
                &tls(name, GrpcBackendTrust::System),
                Err(GrpcBackendTlsError::SystemTrustUnavailable),
            ),
            Err(GrpcBackendTlsError::InvalidServerName)
        ));
    }
    assert!(matches!(
        GrpcBackendConnector::from_checked_policy(
            &tls("grpc.example.test", GrpcBackendTrust::System),
            true,
            Err(GrpcBackendTlsError::SystemTrustUnavailable),
        ),
        Err(GrpcBackendTlsError::SystemTrustUnavailable)
    ));
    assert_eq!(
        GrpcBackendTrust::Profile("private-ca".into()).file_name().as_deref(),
        Some("private-ca.pem")
    );
    assert_eq!(GrpcBackendTrust::System.file_name(), None);
}

#[test]
fn profile_files_are_checked_in_order() {
    assert_eq!(check_profile_file(&FILE), Ok(()));
    let cases = [
        (TrustProfileFile { directory_read: false, ..FILE }, GrpcBackendTlsError::TrustProfileUnreadable),
        (TrustProfileFile { is_directory: false, ..FILE }, GrpcBackendTlsError::TrustProfileUnreadable),
        (TrustProfileFile { file_resolved: false, ..FILE }, GrpcBackendTlsError::TrustProfileUnreadable),
        (
            TrustProfileFile { inside_directory: false, ..FILE },
            GrpcBackendTlsError::TrustProfileOutsideDirectory,
        ),
        (TrustProfileFile { file_opened: false, ..FILE }, GrpcBackendTlsError::TrustProfileUnreadable),
        (
            TrustProfileFile { is_regular_file: false, ..FILE },
            GrpcBackendTlsError::TrustProfileNotRegularFile,
        ),
        (
            TrustProfileFile { length: MAX_TRUST_PROFILE_FILE_BYTES + 1, ..FILE },
            GrpcBackendTlsError::TrustProfileTooLarge,
        ),
    ];
    for (file, error) in cases {
        assert_eq!(check_profile_file(&file), Err(error));
    }
    assert_eq!(
        GrpcBackendTlsError::TrustProfileTooLarge.message(),
        "gRPC trust profile exceeds the configured budget"
    );
}

#[test]
fn trust_profiles_fail_closed() {
    assert_eq!(profile_roots(b""), Err(GrpcBackendTlsError::TrustProfileEmpty));
    assert_eq!(
        profile_roots(b"-----BEGIN CERTIFICATE-----\nAAAA\n"),
        Err(GrpcBackendTlsError::TrustProfileUnreadable)
    );
    assert_eq!(
        profile_roots(b"-----BEGIN CERTIFICATE-----\nAAAA\n-----END CERTIFICATE-----\n"),
        Err(GrpcBackendTlsError::InvalidTrustCertificate)
    );
    assert_eq!(
        profile_roots(b"-----BEGIN PUBLIC KEY-----\nAAAA\n-----END PUBLIC KEY-----\n"),
        Err(GrpcBackendTlsError::TrustProfileEmpty)
    );
    assert_eq!(
        check_system_roots(&vec![]),
        Err(GrpcBackendTlsError::SystemTrustUnavailable)
    );
    assert_eq!(
        check_system_roots(&vec![vec![1, 2, 3]]),
        Err(GrpcBackendTlsError::InvalidTrustCertificate)
    );
}

#[test]
fn trust_profiles_have_a_budget() {
    let small = vec![Some(vec![1u8]); MAX_TRUST_PROFILE_CERTIFICATES];
    assert_eq!(
        admit_sections(&small, &vec![true; small.len()]).unwrap().len(),
        MAX_TRUST_PROFILE_CERTIFICATES
    );
    let many = vec![Some(vec![1u8]); MAX_TRUST_PROFILE_CERTIFICATES + 1];
    assert_eq!(
        admit_sections(&many, &vec![true; many.len()]),
        Err(GrpcBackendTlsError::TrustProfileTooLarge)
    );
    let large = vec![Some(vec![0u8; MAX_TRUST_PROFILE_DER_BYTES + 1])];
    assert_eq!(
        admit_sections(&large, &vec![true]),
        Err(GrpcBackendTlsError::TrustProfileTooLarge)
    );
}

#[test]
fn handshakes_are_counted() {
    let mut counters = GrpcBackendTlsCounters::default();
    counters.begin_handshake();
    assert_eq!(
        counters.finish_handshake(&HandshakeOutcome::TimedOut, false),
        Err(GrpcBackendTlsError::HandshakeTimeout)
    );
    assert_eq!(
        counters.finish_handshake(&HandshakeOutcome::Failed, false),
        Err(GrpcBackendTlsError::Handshake)
    );
    let http1 = HandshakeOutcome::Completed { alpn: Some(b"http/1.1".to_vec()) };
    assert_eq!(
        counters.finish_handshake(&http1, false),
        Err(GrpcBackendTlsError::AlpnMismatch)
    );
    let h2 = HandshakeOutcome::Completed { alpn: Some(b"h2".to_vec()) };
    assert_eq!(counters.finish_handshake(&h2, false), Ok(()));
    assert_eq!(counters.finish_handshake(&h2, true), Ok(()));
    assert_eq!(
        counters,
        GrpcBackendTlsCounters {
            handshakes_total: 1,
            handshake_failures_total: 2,
            alpn_failures_total: 1,
            system_trust_connections_total: 1,
            profile_trust_connections_total: 1,
        }
    );
}

#[test]
fn trust_tells_backends_apart() {
    let tls = |server_name: &str, trust: GrpcBackendTrust| {
        GrpcBackendRuntimeTransport::Tls(GrpcBackendTlsPolicy {
            server_name: server_name.to_owned(),
            trust,
        })
    };
    let system = tls("GRPC.example.test", GrpcBackendTrust::System);
    let profile = tls("grpc.example.test", GrpcBackendTrust::Profile("private-ca".to_owned()));
    assert_eq!(
        backend_identity(&system),
        Some(("grpc.example.test".to_owned(), GrpcBackendTrust::System))
    );
    assert_eq!(
        backend_identity(&profile),
        Some((
            "grpc.example.test".to_owned(),
            GrpcBackendTrust::Profile("private-ca".to_owned())
        ))
    );
    assert_eq!(backend_identity(&GrpcBackendRuntimeTransport::H2c), None);
    assert_eq!(backend_identity(&tls("", GrpcBackendTrust::System)), None);
    let connector = GrpcBackendConnector::from_policy(&profile, Ok(())).unwrap();
    assert!(connector.profile_trust());
    assert!(!GrpcBackendConnector::from_policy(&system, Ok(())).unwrap().profile_trust());
}
