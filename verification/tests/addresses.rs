use linklake_server::bytes_text::{chars_of_bytes, find_byte, is_crlf_terminated, strip_crlf};
use linklake_server::fleet::{FleetCatalog, UpsertFleetPeer};
use linklake_server::fleet_dns::{default_dns_cooldown, default_dns_ttl, default_true};
use linklake_server::fleet_health::{
    default_failure_threshold, default_health_cooldown, default_success_threshold,
    FleetHealthError, FleetHealthState,
};
use linklake_server::fleet_health_catalog::FleetHealthCatalog;
use linklake_server::host_name::{is_valid_host, is_valid_label, normalize_dns_name};
use linklake_server::http_tunnel::RouteRegistrationError;
use linklake_server::ip_address::{
    ip_to_text, is_loopback, parse_ip, parse_ipv4, parse_ipv6, parse_socket, socket_to_text,
    IpAddress, SocketAddress,
};
use linklake_server::number::parse_number;
use linklake_server::stored_rows::{nonnegative, optional_nonnegative};
use linklake_server::text::{fits_utf8, lowered, split, string_of, text_before, trimmed};

fn chars(s: &str) -> Vec<char> {
    s.chars().collect()
}

#[test]
fn addresses_are_read_and_rewritten() {
    for (text, expected) in [
        ("127.0.0.1", "127.0.0.1"),
        ("0.0.0.0", "0.0.0.0"),
        ("255.255.255.255", "255.255.255.255"),
        ("::", "::"),
        ("::1", "::1"),
        ("1::", "1::"),
        ("2001:DB8:0:0:0:0:0:1", "2001:db8::1"),
        ("1:2:3:4:5:6:7:8", "1:2:3:4:5:6:7:8"),
        ("1:2:3:4:5:6:7::", "1:2:3:4:5:6:7:0"),
        ("::ffff:1.2.3.4", "::ffff:1.2.3.4"),
        ("::ffff:102:304", "::ffff:1.2.3.4"),
        ("0:0:1:0:0:0:1:0", "0:0:1::1:0"),
        ("1:0:0:2:0:0:0:3", "1:0:0:2::3"),
        ("64:ff9b::192.0.2.33", "64:ff9b::c000:221"),
    ] {
        assert_eq!(
            parse_ip(&chars(text)).as_ref().map(ip_to_text).as_deref(),
            Some(expected),
            "{text}"
        );
    }
    for text in [
        "256.0.0.1",
        "01.2.3.4",
        "1.2.3",
        "1.2.3.4.5",
        "1:2:3:4:5:6:7",
        "1:2:3:4:5:6:7:8:9",
        "1::2::3",
        ":::",
        "12345::",
        "fe80::1%1",
        "::1.2.3.4.5",
        "",
        "g::",
        " ::1",
    ] {
        assert_eq!(parse_ip(&chars(text)), None, "{text}");
    }
    for (text, expected) in [
        ("127.0.0.1:80", "127.0.0.1:80"),
        ("127.0.0.1:00080", "127.0.0.1:80"),
        ("[::1]:443", "[::1]:443"),
        ("[::1%5]:443", "[::1%5]:443"),
    ] {
        assert_eq!(
            parse_socket(&chars(text)).as_ref().map(socket_to_text).as_deref(),
            Some(expected),
            "{text}"
        );
    }
    for text in [
        "127.0.0.1:65536",
        "127.0.0.1",
        "[::1]",
        "::1:443",
        "[1.2.3.4]:80",
        "127.0.0.1:",
        "[fe80::1%4294967296]:1",
    ] {
        assert_eq!(parse_socket(&chars(text)), None, "{text}");
    }
}

#[test]
fn written_addresses_read_back() {
    for groups in [
        [0u16, 0, 0, 0, 0, 0, 0, 0],
        [0, 0, 0, 0, 0, 0xffff, 0x102, 0x304],
        [1, 0, 0, 2, 0, 0, 0, 3],
        [0, 1, 0, 1, 0, 1, 0, 1],
        [0xffff; 8],
    ] {
        let address = IpAddress::V6(groups);
        assert_eq!(parse_ip(&chars(&ip_to_text(&address))), Some(address));
        assert_eq!(parse_ipv6(&chars(&ip_to_text(&address))), Some(groups));
        let socket = SocketAddress::V6 { groups, scope: 7, port: 65535 };
        assert_eq!(parse_socket(&chars(&socket_to_text(&socket))), Some(socket));
    }
    let socket = SocketAddress::V4 { octets: [10, 0, 200, 1], port: 0 };
    assert_eq!(socket_to_text(&socket), "10.0.200.1:0");
    assert_eq!(parse_socket(&chars("10.0.200.1:0")), Some(socket));
    assert_eq!(parse_ipv4(&chars("10.0.200.1")), Some([10, 0, 200, 1]));
    assert!(is_loopback(&IpAddress::V4([127, 9, 9, 9])));
    assert!(is_loopback(&IpAddress::V6([0, 0, 0, 0, 0, 0, 0, 1])));
    assert!(!is_loopback(&IpAddress::V6([0; 8])));
}

#[test]
fn texts_agree_with_the_standard_library() {
    for text in ["  a b\u{3000}", "\u{85}x", "", " \t\n", "Äpfel", "a\u{1f600}"] {
        assert_eq!(string_of(&trimmed(&chars(text))), text.trim());
        assert_eq!(string_of(&lowered(&chars(text))), text.to_ascii_lowercase());
        assert!(fits_utf8(&chars(text), text.len()));
        assert!(text.is_empty() || !fits_utf8(&chars(text), text.len() - 1));
    }
    let parts: Vec<String> = split(&chars("a,,b,"), ',').iter().map(|p| string_of(p)).collect();
    assert_eq!(parts, vec!["a", "", "b", ""]);
    assert!(text_before("a", "b") && text_before("a", "ab") && !text_before("b", "a"));
    for text in ["0", "+7", "65535", "65536", "-1", "", "+", " 1", "007"] {
        assert_eq!(
            parse_number(&chars(text), 10, 65535),
            text.parse::<u16>().ok().map(u64::from),
            "{text}"
        );
    }
    assert_eq!(parse_number(&chars("fF"), 16, 255), Some(255));
    assert_eq!(nonnegative(-5), 0);
    assert_eq!(optional_nonnegative(Some(5)), Some(5));
}

#[test]
fn host_names_are_checked() {
    assert!(is_valid_label(&chars("a-1")));
    assert!(!is_valid_label(&chars("-a")));
    assert!(!is_valid_label(&chars(&"a".repeat(64))));
    assert!(is_valid_host(&chars("a.b.c")));
    assert!(!is_valid_host(&chars("a..c")));
    assert_eq!(
        normalize_dns_name(&chars("Example.COM..")).map(|name| string_of(&name)),
        Some("example.com".to_owned())
    );
}

#[test]
fn lines_end_with_crlf() {
    assert!(is_crlf_terminated(b"a\r\n"));
    assert!(!is_crlf_terminated(b"a\n"));
    assert_eq!(strip_crlf(b"abc\r\n"), b"abc");
    assert_eq!(strip_crlf(b"abc"), b"abc");
    assert_eq!(find_byte(b"a:b", b':'), Some(1));
    assert_eq!(chars_of_bytes(b"ab"), vec!['a', 'b']);
}

#[test]
fn defaults_are_fixed() {
    assert_eq!(default_success_threshold(), 2);
    assert_eq!(default_failure_threshold(), 3);
    assert_eq!(default_health_cooldown(), 30);
    assert_eq!(default_dns_ttl(), 60);
    assert_eq!(default_dns_cooldown(), 60);
    assert!(default_true());
    assert!(RouteRegistrationError::InvalidCredentials.counts_as_authentication_failure());
    assert!(RouteRegistrationError::NoPolicy.counts_as_rejection());
}

#[test]
fn new_peers_await_their_first_probe() {
    let mut peers = FleetCatalog::new();
    let peer = peers
        .create(
            UpsertFleetPeer {
                name: "a".into(),
                url: "https://a.example.com".into(),
                region: "r".into(),
                weight: 1,
                priority: 0,
                token_env: "LINKLAKE_A".into(),
                enabled: true,
            },
            false,
            5,
        )
        .unwrap();
    let mut health = FleetHealthCatalog::new();
    assert_eq!(health.ensure_peer(&peers.list(), peer.id, 6), Ok(()));
    let snapshot = health.snapshot(peer.id).unwrap();
    assert_eq!(snapshot.health.state, FleetHealthState::Unknown);
    assert_eq!(snapshot.health.last_transition_reason, "awaiting_first_probe");
    assert_eq!(
        health.ensure_peer(&peers.list(), 1, 6),
        Err(FleetHealthError::PeerMissing)
    );
}
