use axum::http::{header, HeaderMap, HeaderValue};
use linklake_server::http_headers::{
    clean_response_headers, header_name_count, is_native_grpc_request, is_upgrade_request,
    prepare_forward_headers, read_visible, remove_hop_by_hop_headers, trusted_client_ip,
    trusted_forwarded_proto, PublicScheme,
};
use linklake_server::http_tunnel::{
    answer_challenge, check_admission, check_route_registration, check_target, check_tls,
    find_challenge, forward_target, identify_host, negotiated_protocol, pairing_timed_out, redirect_location,
    judge_request, route_audit_text, BackendFailure, ChallengeRequest, GrpcBodyState,
    HttpRouteRegistry, HttpRouteStatistics, PairingResult, PublicProtocol, Refusal, RequestFacts,
    RequestMethod, RequestProtocols, RequestVerdict, RouteRegistrationError,
};
use linklake_server::ip_address::IpAddress;

const LOCAL: IpAddress = IpAddress::V4([127, 0, 0, 1]);
const REMOTE: IpAddress = IpAddress::V4([198, 51, 100, 7]);

fn fields(entries: &[(&'static str, &'static str)]) -> HeaderMap<HeaderValue> {
    let mut headers = HeaderMap::new();
    for (name, value) in entries {
        headers.append(*name, HeaderValue::from_static(value));
    }
    headers
}

fn text<'a>(headers: &'a HeaderMap<HeaderValue>, name: &str) -> Option<&'a str> {
    headers.get(name).map(|value| value.to_str().unwrap())
}

#[test]
fn native_grpc_detection_excludes_grpc_web() {
    for content_type in [
        "application/grpc",
        "application/grpc+proto",
        "Application/GRPC+json; charset=utf-8",
    ] {
        assert!(is_native_grpc_request(&fields(&[("content-type", content_type)])));
    }
    for content_type in [
        "application/grpc-web",
        "application/grpc-web+proto",
        "application/json",
    ] {
        assert!(!is_native_grpc_request(&fields(&[("content-type", content_type)])));
    }
}

#[test]
fn http2_header_cleanup_preserves_only_te_trailers() {
    let mut valid = HeaderMap::new();
    valid.insert(header::TE, HeaderValue::from_static("trailers"));
    valid.insert(header::TRAILER, HeaderValue::from_static("grpc-status"));
    valid.insert(
        header::TRANSFER_ENCODING,
        HeaderValue::from_static("chunked"),
    );
    remove_hop_by_hop_headers(&mut valid, false, true);
    assert_eq!(
        valid.get(header::TE),
        Some(&HeaderValue::from_static("trailers"))
    );
    assert_eq!(
        valid.get(header::TRAILER),
        Some(&HeaderValue::from_static("grpc-status"))
    );
    assert!(!valid.contains_key(header::TRANSFER_ENCODING));

    let mut invalid = HeaderMap::new();
    invalid.insert(header::TE, HeaderValue::from_static("trailers, deflate"));
    invalid.insert(header::CONNECTION, HeaderValue::from_static("keep-alive"));
    invalid.insert("keep-alive", HeaderValue::from_static("timeout=5"));
    remove_hop_by_hop_headers(&mut invalid, false, true);
    assert!(!invalid.contains_key(header::TE));
    assert!(!invalid.contains_key(header::CONNECTION));
    assert!(!invalid.contains_key("keep-alive"));
}

#[test]
fn grpc_terminal_status_and_cancellation_are_counted_once() {
    let mut success_statistics = HttpRouteStatistics::default();
    let mut success = GrpcBodyState {
        status_seen: false,
        failure_recorded: false,
        completed: false,
    };
    success.record_trailers(&mut success_statistics, Some(b"0".to_vec()));
    success.finish(&mut success_statistics);
    success.cancel(&mut success_statistics);
    assert_eq!(success_statistics.grpc_trailers_total, 1);
    assert_eq!(success_statistics.grpc_failures_total, 0);
    assert_eq!(success_statistics.grpc_cancellations_total, 0);

    let mut cancellation_statistics = HttpRouteStatistics::default();
    let mut body = GrpcBodyState {
        status_seen: false,
        failure_recorded: false,
        completed: false,
    };
    body.cancel(&mut cancellation_statistics);
    assert_eq!(cancellation_statistics.grpc_cancellations_total, 1);
    assert_eq!(cancellation_statistics.grpc_failures_total, 0);
}

#[test]
fn failed_grpc_responses_fail_once() {
    let mut statistics = HttpRouteStatistics::default();
    let mut body = GrpcBodyState::new(&mut statistics, 200, None);
    body.record_trailers(&mut statistics, Some(b"13".to_vec()));
    body.finish(&mut statistics);
    body.fail(&mut statistics);
    assert_eq!(statistics.grpc_failures_total, 1);
    let mut statistics = HttpRouteStatistics::default();
    let mut body = GrpcBodyState::new(&mut statistics, 200, None);
    body.finish(&mut statistics);
    assert_eq!(statistics.grpc_failures_total, 1);
}

#[test]
fn forwarding_fields_are_set_anew() {
    let mut headers = fields(&[
        ("host", "site.example.com"),
        ("forwarded", "for=10.0.0.1"),
        ("x-real-ip", "203.0.113.9"),
        ("x-forwarded-for", "203.0.113.9"),
        ("x-forwarded-proto", "https"),
        ("proxy-authorization", "Basic x"),
        ("connection", "x-hop"),
        ("x-hop", "1"),
        ("x-keep", "1"),
    ]);
    let mut again = headers.clone();
    assert_eq!(header_name_count(&headers), 9);
    prepare_forward_headers(&mut headers, REMOTE, "site.example.com", PublicScheme::Http, false);
    assert_eq!(text(&headers, "x-forwarded-for"), Some("198.51.100.7"));
    assert_eq!(text(&headers, "x-real-ip"), Some("198.51.100.7"));
    assert_eq!(text(&headers, "x-forwarded-host"), Some("site.example.com"));
    assert_eq!(text(&headers, "x-forwarded-proto"), Some("http"));
    assert_eq!(text(&headers, "forwarded"), None);
    assert_eq!(text(&headers, "proxy-authorization"), None);
    assert_eq!(text(&headers, "x-hop"), None);
    assert_eq!(text(&headers, "x-keep"), Some("1"));

    prepare_forward_headers(&mut again, LOCAL, "site.example.com", PublicScheme::Http, false);
    assert_eq!(text(&again, "x-forwarded-for"), Some("203.0.113.9"));
    assert_eq!(text(&again, "x-forwarded-proto"), Some("https"));
}

#[test]
fn only_local_proxies_name_the_client() {
    let headers = fields(&[("x-real-ip", "2001:db8::9"), ("x-forwarded-proto", "HTTPS")]);
    assert_eq!(trusted_client_ip(&headers, REMOTE), REMOTE);
    assert_eq!(
        trusted_client_ip(&headers, LOCAL),
        IpAddress::V6([0x2001, 0xdb8, 0, 0, 0, 0, 0, 9])
    );
    assert_eq!(trusted_forwarded_proto(&headers, REMOTE), "http");
    assert_eq!(trusted_forwarded_proto(&headers, LOCAL), "https");
    assert_eq!(trusted_client_ip(&fields(&[("x-real-ip", "nobody")]), LOCAL), LOCAL);
    assert_eq!(read_visible(b"a b"), Some(vec!['a', ' ', 'b']));
    assert_eq!(read_visible(&[0xff]), None);
}

#[test]
fn upgrades_are_recognized() {
    assert!(is_upgrade_request(&fields(&[
        ("connection", "keep-alive, Upgrade"),
        ("upgrade", "websocket")
    ])));
    assert!(!is_upgrade_request(&fields(&[("upgrade", "websocket")])));
    let mut response = fields(&[("connection", "upgrade"), ("upgrade", "websocket")]);
    clean_response_headers(&mut response, 101, false);
    assert_eq!(text(&response, "upgrade"), Some("websocket"));
    let mut response = fields(&[("connection", "upgrade"), ("upgrade", "websocket")]);
    clean_response_headers(&mut response, 200, false);
    assert_eq!(text(&response, "upgrade"), None);
}

#[test]
fn hosts_are_identified() {
    let host = |values: &[&str], authority: Option<&str>, http2: bool| {
        let values: Vec<Vec<u8>> = values.iter().map(|v| v.as_bytes().to_vec()).collect();
        identify_host(&values, authority, http2).map(|host| host.hostname)
    };
    assert_eq!(host(&["Site.Example.com:80"], None, false), Ok("site.example.com".to_owned()));
    assert_eq!(host(&["a.example", "b.example"], None, false), Err(Refusal::MultipleHosts));
    assert_eq!(host(&[], None, false), Err(Refusal::MissingHost));
    assert_eq!(host(&[], None, true), Err(Refusal::MissingAuthority));
    assert_eq!(
        host(&["a.example"], Some("b.example"), true),
        Err(Refusal::AuthorityConflict)
    );
    assert_eq!(host(&[], Some("b.example"), true), Ok("b.example".to_owned()));
    assert_eq!(host(&["bad_host"], None, false), Err(Refusal::InvalidHost));
}

#[test]
fn requests_are_admitted_in_order() {
    assert_eq!(check_admission(true, true, true, true, true), None);
    assert_eq!(check_admission(false, true, true, true, true), Some(Refusal::RouteOffline));
    assert_eq!(check_admission(false, false, true, true, true), Some(Refusal::UnknownRoute));
    assert_eq!(check_admission(true, true, false, true, true), Some(Refusal::TrafficRejected));
    assert_eq!(check_admission(true, true, true, false, true), Some(Refusal::RouteBusy));
    assert_eq!(check_admission(true, true, true, true, false), Some(Refusal::ServerBusy));
    assert_eq!(
        check_target(RequestMethod::Connect, false, false, false, false),
        Some(Refusal::ConnectUnsupported)
    );
    assert_eq!(
        check_target(RequestMethod::Get, false, false, true, false),
        Some(Refusal::GrpcRequiresHttp2)
    );
    assert_eq!(check_target(RequestMethod::Get, false, false, false, false), None);
    assert_eq!(
        check_tls(PublicScheme::Https, None, "a.example", true),
        Some(Refusal::MissingTlsName)
    );
    assert_eq!(
        check_tls(PublicScheme::Https, Some("b.example"), "a.example", true),
        Some(Refusal::TlsNameConflict)
    );
    assert_eq!(
        check_tls(PublicScheme::Https, Some("a.example"), "a.example", false),
        Some(Refusal::CertificateInactive)
    );
    assert_eq!(check_tls(PublicScheme::Http, None, "a.example", false), None);
}

#[test]
fn plain_requests_are_redirected_to_tls() {
    assert_eq!(
        redirect_location(PublicScheme::Http, true, true, "a.example", Some("/x?y=1")).as_deref(),
        Some("https://a.example/x?y=1")
    );
    assert_eq!(redirect_location(PublicScheme::Https, true, true, "a.example", None), None);
    assert_eq!(redirect_location(PublicScheme::Http, true, false, "a.example", None), None);
}

#[test]
fn challenges_are_answered() {
    assert!(matches!(
        find_challenge("/.well-known/acme-challenge/token-1", RequestMethod::Get),
        ChallengeRequest::Lookup { token } if token == "token-1"
    ));
    assert!(matches!(
        find_challenge("/.well-known/acme-challenge/token-1", RequestMethod::Other),
        ChallengeRequest::Refused(Refusal::ChallengeMethod)
    ));
    assert!(matches!(
        find_challenge("/index.html", RequestMethod::Get),
        ChallengeRequest::Absent
    ));
    assert_eq!(
        answer_challenge(Some("token-1.key".into()), RequestMethod::Get),
        Ok("token-1.key".to_owned())
    );
    assert_eq!(
        answer_challenge(None, RequestMethod::Get),
        Err(Refusal::UnknownChallenge)
    );
}

#[test]
fn protocols_follow_alpn() {
    assert_eq!(negotiated_protocol(Some(b"h2")), Some(PublicProtocol::Http2));
    assert_eq!(negotiated_protocol(Some(b"http/1.1")), Some(PublicProtocol::Http1));
    assert_eq!(negotiated_protocol(None), Some(PublicProtocol::Http1));
    assert_eq!(negotiated_protocol(Some(b"spdy")), None);
}

#[test]
fn requests_leave_no_active_trace() {
    let mut statistics = HttpRouteStatistics::default();
    let protocols = RequestProtocols { http2: true, grpc: true };
    statistics.begin_request(protocols);
    assert_eq!(statistics.active_connections, 1);
    assert_eq!(statistics.grpc_active_streams, 1);
    let refusal = statistics.fail_request(BackendFailure::GrpcTimedOut);
    assert_eq!(refusal.status(), 504);
    statistics.end_request(protocols);
    assert_eq!(statistics.active_connections, 0);
    assert_eq!(statistics.http2_active_streams, 0);
    assert_eq!(statistics.grpc_active_streams, 0);
    assert_eq!(statistics.failed_requests, 1);
    assert!(pairing_timed_out(PairingResult::ConnectionTimedOut));
    assert!(!pairing_timed_out(PairingResult::Stopped));
}

#[test]
fn a_late_removal_spares_the_new_registration() {
    let mut registry = HttpRouteRegistry::new();
    assert_eq!(registry.register("a.example".into(), 1), None);
    assert_eq!(registry.register("a.example".into(), 2), Some(1));
    assert!(!registry.remove_route("a.example", 1));
    assert_eq!(registry.registration("a.example"), Some(2));
    assert!(registry.remove_route("a.example", 2));
    assert_eq!(registry.registration("a.example"), None);
    registry.register("b.example".into(), 3);
    assert_eq!(registry.stop_hostname("b.example"), Some(3));
    registry.register("c.example".into(), 4);
    assert_eq!(registry.stop_all().len(), 1);
    assert_eq!(
        check_route_registration(false, "a.example"),
        Err(RouteRegistrationError::InvalidCredentials)
    );
    assert_eq!(
        check_route_registration(true, "bad_host"),
        Err(RouteRegistrationError::InvalidHostname)
    );
    assert_eq!(check_route_registration(true, "A.example"), Ok("a.example".to_owned()));
    assert!(route_audit_text("web", "a.example", "127.0.0.1:80").contains("a.example"));
}

fn facts() -> RequestFacts {
    RequestFacts {
        scheme: PublicScheme::Http,
        tls_name: None,
        has_certificate: false,
        method: RequestMethod::Get,
        path: "/".into(),
        path_and_query: Some("/?q=1".into()),
        has_authority: false,
        has_scheme: false,
        native_grpc: false,
        http2: false,
        redirects: false,
        route_online: true,
        route_configured: true,
        traffic_allowed: true,
        route_permit: true,
        global_permit: true,
    }
}

#[test]
fn requests_are_judged_in_order() {
    let judge = |facts: RequestFacts| judge_request("a.example", &facts);
    assert!(matches!(judge(facts()), RequestVerdict::Admitted));
    assert!(matches!(
        judge(RequestFacts { route_online: false, ..facts() }),
        RequestVerdict::Refused(Refusal::RouteOffline)
    ));
    assert!(matches!(
        judge(RequestFacts {
            path: "/.well-known/acme-challenge/t".into(),
            route_online: false,
            ..facts()
        }),
        RequestVerdict::Challenge { token } if token == "t"
    ));
    assert!(matches!(
        judge(RequestFacts {
            redirects: true,
            has_certificate: true,
            route_online: false,
            ..facts()
        }),
        RequestVerdict::Redirected { location } if location == "https://a.example/?q=1"
    ));
    assert!(matches!(
        judge(RequestFacts {
            scheme: PublicScheme::Https,
            tls_name: Some("b.example".into()),
            has_certificate: true,
            ..facts()
        }),
        RequestVerdict::Refused(Refusal::TlsNameConflict)
    ));
    assert!(matches!(
        judge(RequestFacts {
            scheme: PublicScheme::Https,
            tls_name: Some("A.example".into()),
            has_certificate: true,
            path: "/.well-known/acme-challenge/t".into(),
            ..facts()
        }),
        RequestVerdict::Admitted
    ));
}

#[test]
fn requests_go_on_as_they_came() {
    let grpc = forward_target(true, false, "Site.example.com:8080");
    assert!(grpc.insert_host && grpc.http2);
    assert_eq!(grpc.authority.as_deref(), Some("Site.example.com:8080"));
    let plain = forward_target(false, true, "site.example.com");
    assert!(!plain.insert_host && !plain.http2);
    assert_eq!(plain.authority, None);
}
