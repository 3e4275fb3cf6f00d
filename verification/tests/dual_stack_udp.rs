use linklake_server::dual_stack_udp::{
    begin_bind, can_fallback_to_ipv4, finish_bind, reply_family, BindStep, DualStackUdpBinding,
    ParsePublicUdpBindModeError, PublicUdpBindMode, PublicUdpEndpoint, UdpAddressFamily,
    UdpBindCounters, UdpError, UdpErrorKind, UdpPlatform,
};
use linklake_server::ip_address::SocketAddress;

const IPV4: SocketAddress = SocketAddress::V4 { octets: [127, 0, 0, 1], port: 4000 };
const IPV6: SocketAddress = SocketAddress::V6 {
    groups: [0, 0, 0, 0, 0, 0, 0, 1],
    scope: 0,
    port: 4000,
};

fn failed(kind: UdpErrorKind, message: &str) -> UdpError {
    UdpError { kind, raw_os_error: None, message: message.to_owned() }
}

fn bind_with_ipv6(
    port: u16,
    mode: PublicUdpBindMode,
    ipv6: Result<(), UdpError>,
) -> Result<DualStackUdpBinding, UdpError> {
    match begin_bind(port, mode) {
        BindStep::Bound(binding) => Ok(binding),
        BindStep::BindIpv6(port) => finish_bind(port, mode, UdpPlatform::Linux, ipv6),
    }
}

#[test]
fn bind_mode_parser_is_explicit() {
    assert_eq!(PublicUdpBindMode::parse("auto").unwrap(), PublicUdpBindMode::Auto);
    assert_eq!(
        PublicUdpBindMode::parse("ipv4_only").unwrap(),
        PublicUdpBindMode::Ipv4Only
    );
    assert_eq!(
        PublicUdpBindMode::parse("dual_stack_required").unwrap(),
        PublicUdpBindMode::DualStackRequired
    );
    assert!(PublicUdpBindMode::parse("best_effort").is_err());
}

#[test]
fn bind_mode_names_and_aliases_denote_their_mode() {
    for mode in [
        PublicUdpBindMode::Auto,
        PublicUdpBindMode::Ipv4Only,
        PublicUdpBindMode::DualStackRequired,
    ] {
        assert_eq!(PublicUdpBindMode::parse(mode.as_str()), Ok(mode));
    }
    assert_eq!(PublicUdpBindMode::parse(" IPv4 "), Ok(PublicUdpBindMode::Ipv4Only));
    assert_eq!(PublicUdpBindMode::parse("ipv4-only"), Ok(PublicUdpBindMode::Ipv4Only));
    assert_eq!(
        PublicUdpBindMode::parse("Dual-Stack-Required"),
        Ok(PublicUdpBindMode::DualStackRequired)
    );
    assert_eq!(
        PublicUdpBindMode::parse("required"),
        Ok(PublicUdpBindMode::DualStackRequired)
    );
    assert_eq!(PublicUdpBindMode::default(), PublicUdpBindMode::Auto);
    assert_eq!(
        ParsePublicUdpBindModeError.message(),
        "UDP public bind mode must be auto, ipv4_only, or dual_stack_required"
    );
}

#[test]
fn ipv4_only_does_not_create_an_ipv6_socket() {
    let socket = bind_with_ipv6(
        4000,
        PublicUdpBindMode::Ipv4Only,
        Err(failed(UdpErrorKind::Other, "never tried")),
    )
    .unwrap();
    assert_eq!(socket.mode, PublicUdpBindMode::Ipv4Only);
    assert!(!socket.ipv6_enabled);
    assert!(socket.ipv6_fallback_error.is_none());
    assert!(socket.local_port != 0);
    assert!(reply_family(socket.ipv6_enabled, &PublicUdpEndpoint::from_address(IPV6)).is_err());
}

#[test]
fn auto_falls_back_when_ipv6_bind_is_unavailable() {
    let socket = bind_with_ipv6(
        4000,
        PublicUdpBindMode::Auto,
        Err(failed(UdpErrorKind::AddrNotAvailable, "test")),
    )
    .unwrap();
    assert!(!socket.ipv6_enabled);
    assert_eq!(socket.ipv6_fallback_error.as_deref(), Some("test"));
}

#[test]
fn auto_fails_closed_on_ipv6_port_conflicts() {
    let error = bind_with_ipv6(
        4000,
        PublicUdpBindMode::Auto,
        Err(failed(UdpErrorKind::AddrInUse, "test conflict")),
    )
    .unwrap_err();
    assert_eq!(error.kind, UdpErrorKind::AddrInUse);
    assert!(error.message.contains("test conflict"));
}

#[test]
fn auto_fails_closed_on_ipv6_permission_errors() {
    let error = bind_with_ipv6(
        4000,
        PublicUdpBindMode::Auto,
        Err(failed(UdpErrorKind::PermissionDenied, "test permission")),
    )
    .unwrap_err();
    assert_eq!(error.kind, UdpErrorKind::PermissionDenied);
    assert!(error.message.contains("test permission"));
}

#[test]
fn windows_address_family_errors_are_fallback_eligible() {
    // WSAEAFNOSUPPORT is returned when the host has no usable IPv6 stack.
    let error = UdpError {
        kind: UdpErrorKind::Other,
        raw_os_error: Some(10_047),
        message: String::new(),
    };
    assert!(can_fallback_to_ipv4(UdpPlatform::Windows, &error));
    assert!(!can_fallback_to_ipv4(UdpPlatform::Linux, &error));
    assert!(!can_fallback_to_ipv4(UdpPlatform::Other, &error));
    let linux = UdpError { raw_os_error: Some(97), ..error };
    assert!(can_fallback_to_ipv4(UdpPlatform::Linux, &linux));
    assert!(!can_fallback_to_ipv4(UdpPlatform::MacOs, &linux));
}

#[test]
fn required_mode_fails_closed_when_ipv6_bind_is_unavailable() {
    let error = bind_with_ipv6(
        4000,
        PublicUdpBindMode::DualStackRequired,
        Err(failed(UdpErrorKind::AddrNotAvailable, "test")),
    )
    .unwrap_err();
    assert_eq!(error.kind, UdpErrorKind::AddrNotAvailable);
    assert!(error.message.contains("IPv6 UDP bind failed"));
    assert_eq!(error.message, "IPv6 UDP bind failed on port 4000: test");
}

#[test]
fn replies_go_through_the_receiving_family() {
    let socket = bind_with_ipv6(4000, PublicUdpBindMode::DualStackRequired, Ok(())).unwrap();
    assert!(socket.ipv6_enabled);
    let v4 = PublicUdpEndpoint::new(IPV4, UdpAddressFamily::Ipv4).unwrap();
    let v6 = PublicUdpEndpoint::new(IPV6, UdpAddressFamily::Ipv6).unwrap();
    assert_eq!(reply_family(true, &v4).unwrap(), UdpAddressFamily::Ipv4);
    assert_eq!(reply_family(true, &v6).unwrap(), UdpAddressFamily::Ipv6);
    assert_eq!(v4.text(), "127.0.0.1:4000 (ipv4)");
    assert_eq!(v6.text(), "[::1]:4000 (ipv6)");
    assert_eq!(v6.family().as_str(), "ipv6");
    assert_eq!(v4.address(), IPV4);
    let error = PublicUdpEndpoint::new(IPV4, UdpAddressFamily::Ipv6).unwrap_err();
    assert_eq!(error.kind, UdpErrorKind::InvalidInput);
    assert_eq!(
        reply_family(false, &v6).unwrap_err().message,
        "cannot reply to IPv6 because the IPv6 UDP socket is unavailable"
    );
}

#[test]
fn bind_attempts_are_counted() {
    let mut counters = UdpBindCounters {
        failures_total: 0,
        ipv4_successes_total: 0,
        ipv6_successes_total: 0,
        ipv6_fallbacks_total: u64::MAX,
    };
    counters.record(&bind_with_ipv6(1, PublicUdpBindMode::Auto, Ok(())));
    counters.record(&bind_with_ipv6(
        1,
        PublicUdpBindMode::Auto,
        Err(failed(UdpErrorKind::Unsupported, "x")),
    ));
    counters.record(&bind_with_ipv6(
        1,
        PublicUdpBindMode::Auto,
        Err(failed(UdpErrorKind::AddrInUse, "x")),
    ));
    counters.record(&bind_with_ipv6(1, PublicUdpBindMode::Ipv4Only, Ok(())));
    assert_eq!(
        counters,
        UdpBindCounters {
            failures_total: 1,
            ipv4_successes_total: 3,
            ipv6_successes_total: 1,
            ipv6_fallbacks_total: 0,
        }
    );
}
