use base64::{engine::general_purpose::STANDARD, Engine as _};
use linklake_server::http_proxy::{
    build_forward_head, find_password, header_values, is_token, parse_authority, parse_headers,
    parse_http_uri, parse_proxy_request, proxy_password, split_password, validate_message_framing,
    ProxyRequest, ProxyRequestKind, RequestBody, RequestError,
};
use linklake_server::http_proxy_relay::{
    find_chunked_end, find_request_body_end, find_response_end, parse_chunk_size,
    parse_response_head, parse_status_line, plan_response_body, proxy_response, read_body_line,
    ChunkWant, ChunkedReader, RelayError, RequestHeadReader, ResponseBody, ResponseHeadReader,
};
use linklake_server::http_proxy_session::{
    check_registration, control_action, registration_audit_text, ControlAction, ControlInput,
    HttpProxyRegistration, HttpProxyRegistry, HttpProxyStatistics, PairingOutcome,
    ProxyRegistrationError, ProxySession, RequestOutcome, SessionAction, SessionEvent,
    SessionPhase, TransferOutcome,
};
use sha2::{Digest, Sha256};

fn password() -> (String, String) {
    let password = format!("llh_{}", "a".repeat(64));
    let hash = format!("{:x}", Sha256::digest(password.as_bytes()));
    (password, hash)
}

fn lines(request: &str) -> Vec<Vec<u8>> {
    request
        .split_inclusive("\r\n")
        .filter(|line| *line != "\r\n")
        .map(|line| line.as_bytes().to_vec())
        .collect()
}

fn parse_with_hash(
    lines: &[Vec<u8>],
    username: &str,
    password_hash: &str,
) -> Result<ProxyRequest, RequestError> {
    let matches = proxy_password(lines, username)
        .is_some_and(|password| format!("{:x}", Sha256::digest(&password)) == password_hash);
    parse_proxy_request(lines, username, matches)
}

#[test]
fn parses_authenticated_connect_request() {
    let (password, hash) = password();
    let auth = STANDARD.encode(format!("admin:{password}"));
    let request = format!(
        "CONNECT example.com:443 HTTP/1.1\r\nHost: example.com:443\r\nProxy-Authorization: Basic {auth}\r\n\r\n"
    );
    assert_eq!(
        parse_with_hash(&lines(&request), "admin", &hash),
        Ok(ProxyRequest {
            target_host: "example.com".to_owned(),
            target_port: 443,
            kind: ProxyRequestKind::Connect,
        })
    );
}

#[test]
fn rewrites_absolute_http_uri_and_removes_proxy_credentials() {
    let (password, hash) = password();
    let auth = STANDARD.encode(format!("admin:{password}"));
    let request = format!(
        "GET http://example.com:8080/path?q=1 HTTP/1.1\r\nHost: example.com:8080\r\nProxy-Authorization: Basic {auth}\r\nProxy-Connection: keep-alive\r\nX-Test: yes\r\n\r\n"
    );
    let parsed = parse_with_hash(&lines(&request), "admin", &hash).unwrap();
    let ProxyRequestKind::Forward { encoded_head, .. } = parsed.kind else {
        panic!("expected forward request")
    };
    let encoded = String::from_utf8(encoded_head).unwrap();
    assert!(encoded.starts_with("GET /path?q=1 HTTP/1.1\r\n"));
    assert!(encoded.contains("host: example.com:8080\r\n"));
    assert!(encoded.contains("x-test: yes\r\n"));
    assert!(encoded.ends_with("connection: close\r\n\r\n"));
    assert!(!encoded.contains("proxy-authorization"));
    assert!(!encoded.contains("proxy-connection"));
}

#[test]
fn rejects_missing_auth_https_absolute_uri_and_host_mismatch() {
    let (_, hash) = password();
    assert_eq!(
        parse_with_hash(
            &lines("GET http://example.com/ HTTP/1.1\r\nHost: example.com\r\n\r\n"),
            "admin",
            &hash,
        ),
        Err(RequestError::Authentication)
    );
    let auth = STANDARD.encode(format!("admin:llh_{}", "a".repeat(64)));
    assert_eq!(
        parse_with_hash(
            &lines(&format!("GET https://example.com/ HTTP/1.1\r\nProxy-Authorization: Basic {auth}\r\n\r\n")),
            "admin",
            &hash,
        ),
        Err(RequestError::Malformed)
    );
    assert_eq!(
        parse_with_hash(
            &lines(&format!("GET http://example.com/ HTTP/1.1\r\nHost: other.example\r\nProxy-Authorization: Basic {auth}\r\n\r\n")),
            "admin",
            &hash,
        ),
        Err(RequestError::Malformed)
    );
}

#[test]
fn rejects_ambiguous_http_message_framing() {
    let (password, hash) = password();
    let auth = STANDARD.encode(format!("admin:{password}"));
    for framing in [
        "Content-Length: 1\r\nContent-Length: 1\r\n",
        "Content-Length: 1\r\nTransfer-Encoding: chunked\r\n",
        "Transfer-Encoding: gzip\r\n",
        "Host: example.com\r\nHost: example.com\r\n",
        "Connection: Content-Length\r\nContent-Length: 1\r\n",
    ] {
        let request = format!(
            "POST http://example.com/ HTTP/1.1\r\nHost: example.com\r\nProxy-Authorization: Basic {auth}\r\n{framing}\r\n"
        );
        assert_eq!(
            parse_with_hash(&lines(&request), "admin", &hash),
            Err(RequestError::Malformed)
        );
    }
}

#[test]
fn authority_supports_ipv4_ipv6_and_domains() {
    assert_eq!(
        parse_authority("127.0.0.1:8080", Some(80)).unwrap(),
        ("127.0.0.1".to_owned(), 8080, "127.0.0.1:8080".to_owned())
    );
    assert_eq!(
        parse_authority("[::1]:443", None).unwrap(),
        ("::1".to_owned(), 443, "[::1]:443".to_owned())
    );
    assert_eq!(
        parse_http_uri("http://Example.COM/path").unwrap(),
        (
            "example.com".to_owned(),
            80,
            "example.com".to_owned(),
            "/path".to_owned()
        )
    );
}

#[test]
fn connection_named_headers_are_removed() {
    let headers = vec![
        ("host".to_owned(), "example.com".to_owned()),
        ("connection".to_owned(), "X-Remove".to_owned()),
        ("x-remove".to_owned(), "secret".to_owned()),
        ("x-keep".to_owned(), "ok".to_owned()),
    ];
    let encoded = String::from_utf8(build_forward_head(
        "GET",
        "/",
        "HTTP/1.1",
        &headers,
        "example.com",
    ))
    .unwrap();
    assert!(!encoded.contains("x-remove"));
    assert!(encoded.contains("x-keep: ok"));
}

#[test]
fn chunked_request_body_is_forwarded_with_exact_boundaries() {
    let encoded = b"4\r\ntest\r\n0\r\nX-Trailer: yes\r\n\r\n";
    assert_eq!(find_request_body_end(encoded, RequestBody::Chunked), Ok(encoded.len()));
    let mut longer = encoded.to_vec();
    longer.extend_from_slice(b"GET / HTTP/1.1\r\n");
    assert_eq!(find_request_body_end(&longer, RequestBody::Chunked), Ok(encoded.len()));
    assert_eq!(find_chunked_end(encoded), Ok(encoded.len()));
}

#[test]
fn content_length_response_completes_without_waiting_for_eof() {
    let encoded = b"HTTP/1.1 200 OK\r\nContent-Length: 4\r\n\r\ntest";
    assert_eq!(find_response_end(encoded, false), Ok(encoded.len()));
    let mut longer = encoded.to_vec();
    longer.extend_from_slice(b"more");
    assert_eq!(find_response_end(&longer, false), Ok(encoded.len()));
}

#[test]
fn wrong_passwords_and_names_are_refused() {
    let (password, hash) = password();
    let request = |user: &str, password: &str| {
        let auth = STANDARD.encode(format!("{user}:{password}"));
        lines(&format!(
            "CONNECT example.com:443 HTTP/1.1\r\nHost: example.com:443\r\nProxy-Authorization: Basic {auth}\r\n\r\n"
        ))
    };
    assert!(parse_with_hash(&request("admin", &password), "admin", &hash).is_ok());
    assert_eq!(
        parse_with_hash(&request("admin", "wrong"), "admin", &hash),
        Err(RequestError::Authentication)
    );
    assert_eq!(
        parse_with_hash(&request("root", &password), "admin", &hash),
        Err(RequestError::Authentication)
    );
    assert_eq!(
        proxy_password(&request("admin", &password), "admin"),
        Some(password.as_bytes().to_vec())
    );
    assert_eq!(proxy_password(&request("root", &password), "admin"), None);
    let not_base64 = lines(
        "CONNECT a.example:1 HTTP/1.1\r\nHost: a.example:1\r\nProxy-Authorization: Basic !!!\r\n\r\n",
    );
    assert_eq!(
        parse_with_hash(&not_base64, "admin", &hash),
        Err(RequestError::Authentication)
    );
    assert_eq!(split_password(b"admin:a:b", "admin"), Some(b"a:b".to_vec()));
    assert_eq!(split_password(b"administrator:a", "admin"), None);
    assert_eq!(split_password(b"admin", "admin"), None);
}

#[test]
fn header_fields_are_read_strictly() {
    let headers = parse_headers(&lines("X-Name:  value \r\nx-name: other\r\n")).unwrap();
    assert_eq!(
        headers,
        vec![
            ("x-name".to_owned(), "value".to_owned()),
            ("x-name".to_owned(), "other".to_owned()),
        ]
    );
    assert_eq!(header_values(&headers, "x-name"), vec!["value", "other"]);
    for invalid in ["no colon\r\n", ": empty\r\n", "bad name: x\r\n"] {
        assert_eq!(parse_headers(&lines(invalid)), Err(RequestError::Malformed), "{invalid}");
    }
    assert_eq!(
        parse_headers(&[b"x-a: \xff\r\n".to_vec()]),
        Err(RequestError::Malformed)
    );
    assert!(is_token(&['a', '-', '1']));
    assert!(!is_token(&['a', ' ']));
    assert_eq!(find_password(&headers, "admin"), None);
}

#[test]
fn framing_gives_the_body() {
    let field = |name: &str, value: &str| (name.to_owned(), value.to_owned());
    assert_eq!(validate_message_framing(&[]), Ok(RequestBody::Empty));
    assert_eq!(
        validate_message_framing(&[field("content-length", "42")]),
        Ok(RequestBody::ContentLength(42))
    );
    assert_eq!(
        validate_message_framing(&[field("transfer-encoding", "Chunked")]),
        Ok(RequestBody::Chunked)
    );
    assert_eq!(
        validate_message_framing(&[field("content-length", "-1")]),
        Err(RequestError::Malformed)
    );
}

#[test]
fn authorities_are_checked() {
    assert_eq!(
        parse_authority("Example.com", Some(80)).unwrap(),
        ("example.com".to_owned(), 80, "example.com".to_owned())
    );
    for invalid in ["", "example.com:0", "user@example.com:80", "[::1", "::1", "exa mple.com:80"] {
        assert_eq!(parse_authority(invalid, None), Err(RequestError::Malformed), "{invalid}");
    }
    assert_eq!(parse_http_uri("ftp://example.com/"), Err(RequestError::Malformed));
    assert_eq!(
        parse_http_uri("http://example.com?q=1").unwrap().3,
        "/?q=1"
    );
}

#[test]
fn request_heads_are_bounded() {
    let mut reader = RequestHeadReader::new();
    assert_eq!(reader.accept_line(b"GET / HTTP/1.1\r\n".to_vec()), Ok(false));
    assert_eq!(reader.accept_line(b"\r\n".to_vec()), Ok(true));
    assert_eq!(reader.lines.len(), 1);
    let mut reader = RequestHeadReader::new();
    assert_eq!(
        reader.accept_line(vec![b'a'; 100_000]),
        Err(RequestError::HeaderTooLarge)
    );
    let mut reader = RequestHeadReader::new();
    assert_eq!(reader.accept_line(b"GET / HTTP/1.1\n".to_vec()), Err(RequestError::Malformed));
}

#[test]
fn responses_end_where_their_framing_says() {
    let head = |text: &str| parse_response_head(&lines(text));
    let (status, headers) = head("HTTP/1.1 204 No Content\r\n\r\n").unwrap();
    assert_eq!(status, 204);
    assert_eq!(plan_response_body(status, &headers, false), Ok(ResponseBody::Empty));
    assert_eq!(plan_response_body(100, &[], false), Ok(ResponseBody::Interim));
    assert_eq!(plan_response_body(200, &[], true), Ok(ResponseBody::Empty));
    assert_eq!(plan_response_body(200, &[], false), Ok(ResponseBody::UntilClose));
    assert_eq!(
        plan_response_body(101, &[], false),
        Err(RelayError::UpgradeRequiresConnect)
    );
    assert_eq!(parse_status_line(b"HTTP/1.1 200 OK\r\n"), Ok(200));
    assert_eq!(
        parse_status_line(b"HTTP/2 200 OK\r\n"),
        Err(RelayError::UnsupportedResponseVersion)
    );
    assert_eq!(parse_status_line(b"HTTP/1.1 xx\r\n"), Err(RelayError::InvalidStatusCode));
    let ambiguous = vec![
        ("content-length".to_owned(), "1".to_owned()),
        ("transfer-encoding".to_owned(), "chunked".to_owned()),
    ];
    assert_eq!(
        plan_response_body(200, &ambiguous, false),
        Err(RelayError::AmbiguousResponseFraming)
    );
    let mut reader = ResponseHeadReader::new();
    assert_eq!(reader.accept_line(b"HTTP/1.1 200 OK\r\n".to_vec()), Ok(false));
    assert_eq!(reader.accept_line(b"\r\n".to_vec()), Ok(true));
}

#[test]
fn chunks_are_read_strictly() {
    assert_eq!(parse_chunk_size(b"1f;name=value\r\n"), Ok(31));
    assert_eq!(parse_chunk_size(b"xyz\r\n"), Err(RelayError::InvalidChunkSize));
    assert_eq!(find_chunked_end(b"4\r\ntestXX0\r\n\r\n"), Err(RelayError::InvalidChunkTerminator));
    assert_eq!(find_chunked_end(b"4\r\nte"), Err(RelayError::BodyClosedEarly));
    assert_eq!(find_chunked_end(b"4\r\ntest\r"), Err(RelayError::EarlyEof));
    assert_eq!(read_body_line(b"abc\r\ndef", 64), Ok(5));
    assert_eq!(read_body_line(b"abc\n", 64), Err(RelayError::InvalidChunkLine));
    assert_eq!(RelayError::InvalidChunkLine.message(), "invalid HTTP chunk line");
}

#[test]
fn a_connection_is_counted_and_released() {
    let mut statistics = HttpProxyStatistics::default();
    let mut session = ProxySession::begin(&mut statistics);
    assert_eq!(statistics.active_connections, 1);
    assert_eq!(
        session.advance(
            &mut statistics,
            SessionEvent::Request(RequestOutcome::Read { connect: true })
        ),
        Some(SessionAction::Pair)
    );
    assert_eq!(
        session.advance(&mut statistics, SessionEvent::Pairing(PairingOutcome::Paired)),
        Some(SessionAction::Establish)
    );
    assert_eq!(
        session.advance(&mut statistics, SessionEvent::Established { written: true }),
        Some(SessionAction::Relay)
    );
    assert_eq!(
        session.advance(
            &mut statistics,
            SessionEvent::Transfer(TransferOutcome::Finished { from_public: 3, to_public: 5 })
        ),
        Some(SessionAction::Close)
    );
    assert_eq!(session.phase, SessionPhase::Finished);
    assert_eq!(
        session.advance(&mut statistics, SessionEvent::Transfer(TransferOutcome::Failed)),
        None
    );
    assert_eq!(
        statistics,
        HttpProxyStatistics {
            connections_total: 1,
            requests_total: 1,
            connect_requests: 1,
            bytes_from_public: 3,
            bytes_to_public: 5,
            ..HttpProxyStatistics::default()
        }
    );
}

#[test]
fn refused_requests_get_their_answer() {
    for (error, status) in [
        (RequestError::Authentication, 407),
        (RequestError::Malformed, 400),
        (RequestError::HeaderTooLarge, 400),
    ] {
        let mut statistics = HttpProxyStatistics::default();
        let mut session = ProxySession::begin(&mut statistics);
        assert_eq!(
            session.advance(
                &mut statistics,
                SessionEvent::Request(RequestOutcome::Refused(error))
            ),
            Some(SessionAction::Refuse(status))
        );
        assert_eq!(statistics.active_connections, 0);
        assert!(proxy_response(status).starts_with(&format!("HTTP/1.1 {status} ")));
    }
    let mut statistics = HttpProxyStatistics::default();
    statistics.connection_rejected();
    assert_eq!(statistics.rejected_connections, 1);
}

#[test]
fn registrations_belong_to_their_holder() {
    let mut registry = HttpProxyRegistry::new();
    let first = HttpProxyRegistration { registration_id: 1, public_port: 8080 };
    let second = HttpProxyRegistration { registration_id: 2, public_port: 8081 };
    assert_eq!(registry.register(7, first), None);
    assert_eq!(registry.register(7, second), Some(first));
    assert_eq!(registry.remove_registration(7, 1), None);
    assert_eq!(registry.online_public_port(7), Some(8081));
    assert_eq!(registry.remove_registration(7, 2), Some(second));
    assert_eq!(registry.online_public_port(7), None);
    registry.register(7, first);
    assert_eq!(registry.stop_policy(7), Some(first));
    registry.register(8, second);
    assert_eq!(registry.stop_all().len(), 1);
    assert_eq!(registry.online_public_port(8), None);

    assert_eq!(check_registration(true, true, true), Ok(()));
    assert_eq!(
        check_registration(false, true, true),
        Err(ProxyRegistrationError::InvalidCredentials)
    );
    assert_eq!(check_registration(true, false, true), Err(ProxyRegistrationError::NoPolicy));
    assert_eq!(
        check_registration(true, true, false),
        Err(ProxyRegistrationError::PortUnavailable)
    );
    assert!(registration_audit_text(1, "web", 8080)
        .contains("00000000-0000-0000-0000-000000000001"));
    assert_eq!(
        control_action(ControlInput::Heartbeat { nonce: 9 }),
        ControlAction::Acknowledge { nonce: 9 }
    );
    assert_eq!(control_action(ControlInput::UnexpectedFrame), ControlAction::CloseOnProtocolError);
}

/// Reads a chunked body piece by piece and returns where it ends.
fn read_in_pieces(input: &[u8], piece: u64) -> Result<usize, RelayError> {
    let mut chunks = ChunkedReader::new();
    let mut at = 0;
    loop {
        let rest = &input[at..];
        match chunks.want() {
            ChunkWant::Nothing => return Ok(at),
            ChunkWant::Line { maximum } => {
                let feed = rest.iter().position(|byte| *byte == b'\n');
                let end = feed.map_or(rest.len(), |feed| feed + 1).min(maximum + 1);
                chunks.accept_line(&rest[..end])?;
                at += end;
            }
            ChunkWant::Data { left } => {
                let n = left.min(piece).min(rest.len() as u64);
                if n == 0 {
                    return Err(RelayError::BodyClosedEarly);
                }
                chunks.accept_data(n);
                at += n as usize;
            }
            ChunkWant::Terminator => {
                if rest.len() < 2 {
                    return Err(RelayError::EarlyEof);
                }
                chunks.accept_terminator(rest[0], rest[1])?;
                at += 2;
            }
        }
    }
}

#[test]
fn reading_in_pieces_finds_the_same_end() {
    for input in [
        &b"4\r\ntest\r\n0\r\nX-Trailer: yes\r\n\r\nrest"[..],
        b"a;x=1\r\n0123456789\r\n1\r\nz\r\n0\r\n\r\n",
        b"0\r\n\r\n",
        b"4\r\ntestXX0\r\n\r\n",
        b"4\r\nte",
        b"4\r\ntest\r",
        b"zz\r\n",
        b"4\n",
        b"",
        b"0\r\nno end",
    ] {
        for piece in [1, 3, 1000] {
            assert_eq!(read_in_pieces(input, piece), find_chunked_end(input), "{input:?}");
        }
    }
}
