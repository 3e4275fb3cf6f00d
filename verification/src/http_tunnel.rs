//! Public HTTP requests: which host they are for, whether they are served, and
//! how they are counted.

use crate::http_headers::{read_visible, visible_text, PublicScheme};
use crate::http_proxy_session::{wrap_add, wrap_down};
use crate::http_routes::{hostname_of, normalize_hostname};
use crate::text::{
    chars_of, has_char, has_prefix, opt_view, same_text, slice_of, starts_with, string_of, trim,
    trimmed,
};
use vstd::prelude::*;
use vstd::string::*;

verus! {

/// The protocol of a public connection.
#[derive(Clone, Copy, Debug, PartialEq, Eq, Structural)]
pub enum PublicProtocol {
    Auto,
    Http1,
    Http2,
}

/// The protocol that a TLS handshake settled on; none where it is not served.
pub fn negotiated_protocol(alpn: Option<&[u8]>) -> (r: Option<PublicProtocol>)
    ensures
        r == match alpn {
            None => Some(PublicProtocol::Http1),
            Some(name) => if name@ == seq![104u8, 50] {
                Some(PublicProtocol::Http2)
            } else if name@ == seq![104u8, 116, 116, 112, 47, 49, 46, 49] {
                Some(PublicProtocol::Http1)
            } else {
                None
            },
        },
{
    match alpn {
        None => Some(PublicProtocol::Http1),
        Some(name) => {
            let h2: [u8; 2] = [104, 50];
            let http11: [u8; 8] = [104, 116, 116, 112, 47, 49, 46, 49];
            assert(h2@ =~= seq![104u8, 50]);
            assert(http11@ =~= seq![104u8, 116, 116, 112, 47, 49, 46, 49]);
            if crate::bytes_text::same_bytes(name, &h2) {
                Some(PublicProtocol::Http2)
            } else if crate::bytes_text::same_bytes(name, &http11) {
                Some(PublicProtocol::Http1)
            } else {
                None
            }
        },
    }
}

// ---------------------------------------------------------------------------
// Refusals
// ---------------------------------------------------------------------------

/// Why a request is answered by the server itself.
#[derive(Clone, Copy, Debug, PartialEq, Eq, Structural)]
pub enum Refusal {
    InvalidHost,
    MultipleHosts,
    InvalidAuthority,
    AuthorityConflict,
    MissingAuthority,
    MissingHost,
    MissingTlsName,
    TlsNameConflict,
    CertificateInactive,
    ConnectUnsupported,
    InvalidTarget,
    GrpcRequiresHttp2,
    RouteOffline,
    UnknownRoute,
    TrafficRejected,
    RouteBusy,
    ServerBusy,
    MissingPath,
    BackendBusy,
    BackendUnavailable,
    Http2BackendUnavailable,
    Http2RequestFailed,
    Http2TimedOut,
    HandshakeFailed,
    HandshakeTimedOut,
    RequestFailed,
    ResponseTimedOut,
    UnexpectedUpgrade,
    InvalidRedirect,
    ChallengeMethod,
    UnknownChallenge,
}

/// The status code of a refusal.
pub open spec fn refusal_status(r: Refusal) -> u16 {
    match r {
        Refusal::InvalidHost
        | Refusal::MultipleHosts
        | Refusal::InvalidAuthority
        | Refusal::AuthorityConflict
        | Refusal::MissingAuthority
        | Refusal::MissingHost
        | Refusal::InvalidTarget
        | Refusal::MissingPath
        | Refusal::InvalidRedirect => 400,
        Refusal::TrafficRejected => 403,
        Refusal::UnknownRoute | Refusal::UnknownChallenge => 404,
        Refusal::ConnectUnsupported | Refusal::ChallengeMethod => 405,
        Refusal::MissingTlsName | Refusal::TlsNameConflict | Refusal::CertificateInactive => 421,
        Refusal::BackendUnavailable
        | Refusal::Http2BackendUnavailable
        | Refusal::Http2RequestFailed
        | Refusal::HandshakeFailed
        | Refusal::RequestFailed
        | Refusal::UnexpectedUpgrade => 502,
        Refusal::RouteOffline
        | Refusal::RouteBusy
        | Refusal::ServerBusy
        | Refusal::BackendBusy => 503,
        Refusal::Http2TimedOut | Refusal::HandshakeTimedOut | Refusal::ResponseTimedOut => 504,
        Refusal::GrpcRequiresHttp2 => 505,
    }
}

/// The text of a refusal.
pub open spec fn refusal_text(r: Refusal) -> Seq<char> {
    match r {
        Refusal::InvalidHost => "invalid Host header"@,
        Refusal::MultipleHosts => "multiple Host headers"@,
        Refusal::InvalidAuthority => "invalid request authority"@,
        Refusal::AuthorityConflict => "request authority conflicts with Host"@,
        Refusal::MissingAuthority => "missing request authority"@,
        Refusal::MissingHost => "missing Host header"@,
        Refusal::MissingTlsName => "missing TLS server name"@,
        Refusal::TlsNameConflict => "TLS server name conflicts with Host"@,
        Refusal::CertificateInactive => "HTTPS certificate is no longer active"@,
        Refusal::ConnectUnsupported => "CONNECT is not supported"@,
        Refusal::InvalidTarget => "invalid request target"@,
        Refusal::GrpcRequiresHttp2 => "native gRPC requires HTTP/2"@,
        Refusal::RouteOffline => "HTTP route is offline"@,
        Refusal::UnknownRoute => "unknown HTTP route"@,
        Refusal::TrafficRejected => "HTTP traffic control rejected request"@,
        Refusal::RouteBusy => "HTTP route is busy"@,
        Refusal::ServerBusy => "LinkLake is busy"@,
        Refusal::MissingPath => "missing request path"@,
        Refusal::BackendBusy | Refusal::Http2BackendUnavailable => "HTTP/2 backend is unavailable"@,
        Refusal::BackendUnavailable => "HTTP backend is unavailable"@,
        Refusal::Http2RequestFailed => "HTTP/2 backend request failed"@,
        Refusal::Http2TimedOut => "HTTP/2 backend timed out"@,
        Refusal::HandshakeFailed => "HTTP backend handshake failed"@,
        Refusal::HandshakeTimedOut => "HTTP backend handshake timed out"@,
        Refusal::RequestFailed => "HTTP backend request failed"@,
        Refusal::ResponseTimedOut => "HTTP backend timed out"@,
        Refusal::UnexpectedUpgrade => "backend upgraded a non-upgrade request"@,
        Refusal::InvalidRedirect => "invalid redirect target"@,
        Refusal::ChallengeMethod => "ACME challenge only supports GET and HEAD"@,
        Refusal::UnknownChallenge => "unknown ACME challenge"@,
    }
}

impl Refusal {
    pub fn status(self) -> (r: u16)
        ensures
            r == refusal_status(self),
    {
        match self {
            Refusal::InvalidHost
            | Refusal::MultipleHosts
            | Refusal::InvalidAuthority
            | Refusal::AuthorityConflict
            | Refusal::MissingAuthority
            | Refusal::MissingHost
            | Refusal::InvalidTarget
            | Refusal::MissingPath
            | Refusal::InvalidRedirect => 400,
            Refusal::TrafficRejected => 403,
            Refusal::UnknownRoute | Refusal::UnknownChallenge => 404,
            Refusal::ConnectUnsupported | Refusal::ChallengeMethod => 405,
            Refusal::MissingTlsName | Refusal::TlsNameConflict | Refusal::CertificateInactive => 421,
            Refusal::BackendUnavailable
            | Refusal::Http2BackendUnavailable
            | Refusal::Http2RequestFailed
            | Refusal::HandshakeFailed
            | Refusal::RequestFailed
            | Refusal::UnexpectedUpgrade => 502,
            Refusal::RouteOffline
            | Refusal::RouteBusy
            | Refusal::ServerBusy
            | Refusal::BackendBusy => 503,
            Refusal::Http2TimedOut | Refusal::HandshakeTimedOut | Refusal::ResponseTimedOut => 504,
            Refusal::GrpcRequiresHttp2 => 505,
        }
    }

    pub fn text(self) -> (r: &'static str)
        ensures
            r@ == refusal_text(self),
    {
        match self {
            Refusal::InvalidHost => "invalid Host header",
            Refusal::MultipleHosts => "multiple Host headers",
            Refusal::InvalidAuthority => "invalid request authority",
            Refusal::AuthorityConflict => "request authority conflicts with Host",
            Refusal::MissingAuthority => "missing request authority",
            Refusal::MissingHost => "missing Host header",
            Refusal::MissingTlsName => "missing TLS server name",
            Refusal::TlsNameConflict => "TLS server name conflicts with Host",
            Refusal::CertificateInactive => "HTTPS certificate is no longer active",
            Refusal::ConnectUnsupported => "CONNECT is not supported",
            Refusal::InvalidTarget => "invalid request target",
            Refusal::GrpcRequiresHttp2 => "native gRPC requires HTTP/2",
            Refusal::RouteOffline => "HTTP route is offline",
            Refusal::UnknownRoute => "unknown HTTP route",
            Refusal::TrafficRejected => "HTTP traffic control rejected request",
            Refusal::RouteBusy => "HTTP route is busy",
            Refusal::ServerBusy => "LinkLake is busy",
            Refusal::MissingPath => "missing request path",
            Refusal::BackendBusy | Refusal::Http2BackendUnavailable => {
                "HTTP/2 backend is unavailable"
            },
            Refusal::BackendUnavailable => "HTTP backend is unavailable",
            Refusal::Http2RequestFailed => "HTTP/2 backend request failed",
            Refusal::Http2TimedOut => "HTTP/2 backend timed out",
            Refusal::HandshakeFailed => "HTTP backend handshake failed",
            Refusal::HandshakeTimedOut => "HTTP backend handshake timed out",
            Refusal::RequestFailed => "HTTP backend request failed",
            Refusal::ResponseTimedOut => "HTTP backend timed out",
            Refusal::UnexpectedUpgrade => "backend upgraded a non-upgrade request",
            Refusal::InvalidRedirect => "invalid redirect target",
            Refusal::ChallengeMethod => "ACME challenge only supports GET and HEAD",
            Refusal::UnknownChallenge => "unknown ACME challenge",
        }
    }
}

// ---------------------------------------------------------------------------
// The host of a request
// ---------------------------------------------------------------------------

/// The host of a request as it was written and in its normal form.
#[derive(Debug)]
pub struct RequestHost {
    pub original: String,
    pub hostname: String,
}

pub struct RequestHostModel {
    pub original: Seq<char>,
    pub hostname: Seq<char>,
}

impl View for RequestHost {
    type V = RequestHostModel;

    open spec fn view(&self) -> RequestHostModel {
        RequestHostModel { original: self.original@, hostname: self.hostname@ }
    }
}

/// The host field of a request: none, one readable value, or a refusal.
pub open spec fn host_field(values: Seq<Seq<u8>>) -> Result<Option<Seq<char>>, Refusal> {
    if values.len() == 0 {
        Ok(None)
    } else {
        match visible_text(values[0]) {
            None => Err(Refusal::InvalidHost),
            Some(text) => if values.len() > 1 {
                Err(Refusal::MultipleHosts)
            } else {
                Ok(Some(trim(text)))
            },
        }
    }
}

/// The host of a request: that of its host field, or of its target where it has
/// no such field. Where both are there, they denote the same host.
pub open spec fn request_host(
    hosts: Seq<Seq<u8>>,
    authority: Option<Seq<char>>,
    http2: bool,
) -> Result<RequestHostModel, Refusal> {
    match host_field(hosts) {
        Err(refusal) => Err(refusal),
        Ok(field) => match (field, authority) {
            (None, None) => Err(
                if http2 {
                    Refusal::MissingAuthority
                } else {
                    Refusal::MissingHost
                },
            ),
            (None, Some(a)) => match hostname_of(trim(a)) {
                None => Err(Refusal::InvalidHost),
                Some(hostname) => Ok(RequestHostModel { original: trim(a), hostname }),
            },
            (Some(host), None) => match hostname_of(host) {
                None => Err(Refusal::InvalidHost),
                Some(hostname) => Ok(RequestHostModel { original: host, hostname }),
            },
            (Some(host), Some(a)) => match (hostname_of(host), hostname_of(trim(a))) {
                (None, _) => Err(Refusal::InvalidHost),
                (_, None) => Err(Refusal::InvalidAuthority),
                (Some(hostname), Some(other)) => if hostname != other {
                    Err(Refusal::AuthorityConflict)
                } else {
                    Ok(RequestHostModel { original: host, hostname })
                },
            },
        },
    }
}

pub open spec fn value_views(v: Seq<Vec<u8>>) -> Seq<Seq<u8>> {
    v.map_values(|x: Vec<u8>| x@)
}

fn read_host_field(values: &Vec<Vec<u8>>) -> (r: Result<Option<String>, Refusal>)
    ensures
        match host_field(value_views(values@)) {
            Ok(field) => r is Ok && opt_view(r->Ok_0) == field,
            Err(refusal) => r is Err && r->Err_0 == refusal,
        },
{
    assert(value_views(values@).len() == values@.len());
    if values.len() == 0 {
        return Ok(None);
    }
    assert(value_views(values@)[0] == values@[0]@);
    match read_visible(&values[0]) {
        None => Err(Refusal::InvalidHost),
        Some(text) => {
            if values.len() > 1 {
                return Err(Refusal::MultipleHosts);
            }
            Ok(Some(string_of(&trimmed(&text))))
        },
    }
}

/// The host of a request, from the values of its host field and the authority
/// of its target.
pub fn identify_host(hosts: &Vec<Vec<u8>>, authority: Option<&str>, http2: bool) -> (r: Result<
    RequestHost,
    Refusal,
>)
    ensures
        match request_host(
            value_views(hosts@),
            match authority {
                Some(a) => Some(a@),
                None => None,
            },
            http2,
        ) {
            Ok(host) => r is Ok && r->Ok_0@ == host,
            Err(refusal) => r is Err && r->Err_0 == refusal,
        },
{
    let field = match read_host_field(hosts) {
        Ok(field) => field,
        Err(refusal) => {
            return Err(refusal);
        },
    };
    match field {
        None => match authority {
            None => Err(
                if http2 {
                    Refusal::MissingAuthority
                } else {
                    Refusal::MissingHost
                },
            ),
            Some(a) => {
                let original = crate::text::trim_text(a);
                match normalize_hostname(original.as_str()) {
                    None => Err(Refusal::InvalidHost),
                    Some(hostname) => Ok(RequestHost { original, hostname }),
                }
            },
        },
        Some(original) => {
            let hostname = match normalize_hostname(original.as_str()) {
                None => {
                    return Err(Refusal::InvalidHost);
                },
                Some(hostname) => hostname,
            };
            if let Some(a) = authority {
                let trimmed_authority = crate::text::trim_text(a);
                match normalize_hostname(trimmed_authority.as_str()) {
                    None => {
                        return Err(Refusal::InvalidAuthority);
                    },
                    Some(other) => {
                        if !same_text(hostname.as_str(), other.as_str()) {
                            return Err(Refusal::AuthorityConflict);
                        }
                    },
                }
            }
            Ok(RequestHost { original, hostname })
        },
    }
}

/// What is wrong with the TLS side of a request: the server name of the
/// handshake denotes the requested host, which has an active certificate.
pub open spec fn tls_refusal(
    scheme: PublicScheme,
    tls_name: Option<Seq<char>>,
    hostname: Seq<char>,
    has_certificate: bool,
) -> Option<Refusal> {
    if scheme == PublicScheme::Http {
        None
    } else if tls_name is None || hostname_of(tls_name->0) is None {
        Some(Refusal::MissingTlsName)
    } else if hostname_of(tls_name->0)->0 != hostname {
        Some(Refusal::TlsNameConflict)
    } else if !has_certificate {
        Some(Refusal::CertificateInactive)
    } else {
        None
    }
}

/// What is wrong with the TLS side of a request.
pub fn check_tls(
    scheme: PublicScheme,
    tls_name: Option<&str>,
    hostname: &str,
    has_certificate: bool,
) -> (r: Option<Refusal>)
    ensures
        r == tls_refusal(
            scheme,
            match tls_name {
                Some(n) => Some(n@),
                None => None,
            },
            hostname@,
            has_certificate,
        ),
{
    match scheme {
        PublicScheme::Http => None,
        PublicScheme::Https => {
            let name = match tls_name {
                Some(name) => match normalize_hostname(name) {
                    Some(name) => name,
                    None => {
                        return Some(Refusal::MissingTlsName);
                    },
                },
                None => {
                    return Some(Refusal::MissingTlsName);
                },
            };
            if !same_text(name.as_str(), hostname) {
                Some(Refusal::TlsNameConflict)
            } else if !has_certificate {
                Some(Refusal::CertificateInactive)
            } else {
                None
            }
        },
    }
}

// ---------------------------------------------------------------------------
// Challenges
// ---------------------------------------------------------------------------

/// The method of a request, as far as it matters here.
#[derive(Clone, Copy, Debug, PartialEq, Eq, Structural)]
pub enum RequestMethod {
    Get,
    Head,
    Connect,
    Other,
}

/// What a request path says about a certificate challenge.
#[derive(Debug)]
pub enum ChallengeRequest {
    /// The path is not that of a challenge.
    Absent,
    Refused(Refusal),
    /// The key authorization of this token is asked for.
    Lookup { token: String },
}

pub enum ChallengeRequestModel {
    Absent,
    Refused(Refusal),
    Lookup { token: Seq<char> },
}

impl View for ChallengeRequest {
    type V = ChallengeRequestModel;

    open spec fn view(&self) -> ChallengeRequestModel {
        match self {
            ChallengeRequest::Absent => ChallengeRequestModel::Absent,
            ChallengeRequest::Refused(refusal) => ChallengeRequestModel::Refused(*refusal),
            ChallengeRequest::Lookup { token } => ChallengeRequestModel::Lookup { token: token@ },
        }
    }
}

/// What a request says about a certificate challenge.
pub open spec fn challenge_of(path: Seq<char>, method: RequestMethod) -> ChallengeRequestModel {
    let prefix = "/.well-known/acme-challenge/"@;
    let token = path.skip(prefix.len() as int);
    if !starts_with(path, prefix) {
        ChallengeRequestModel::Absent
    } else if method != RequestMethod::Get && method != RequestMethod::Head {
        ChallengeRequestModel::Refused(Refusal::ChallengeMethod)
    } else if token.len() == 0 || token.contains('/') {
        ChallengeRequestModel::Refused(Refusal::UnknownChallenge)
    } else {
        ChallengeRequestModel::Lookup { token }
    }
}

/// What a request says about a certificate challenge.
pub fn find_challenge(path: &str, method: RequestMethod) -> (r: ChallengeRequest)
    ensures
        r@ == challenge_of(path@, method),
{
    let s = chars_of(path);
    if !has_prefix(&s, "/.well-known/acme-challenge/") {
        return ChallengeRequest::Absent;
    }
    if method != RequestMethod::Get && method != RequestMethod::Head {
        return ChallengeRequest::Refused(Refusal::ChallengeMethod);
    }
    let n: usize = chars_of("/.well-known/acme-challenge/").len();
    let token = slice_of(&s, n, s.len());
    assert(token@ =~= s@.skip(n as int));
    if token.len() == 0 || has_char(&token, '/') {
        return ChallengeRequest::Refused(Refusal::UnknownChallenge);
    }
    ChallengeRequest::Lookup { token: string_of(&token) }
}

/// The answer to a challenge: the key authorization, left out for `HEAD`.
pub fn answer_challenge(key_authorization: Option<String>, method: RequestMethod) -> (r: Result<
    String,
    Refusal,
>)
    ensures
        match key_authorization {
            Some(value) => r is Ok && r->Ok_0@ == if method == RequestMethod::Head {
                Seq::empty()
            } else {
                value@
            },
            None => r is Err && r->Err_0 == Refusal::UnknownChallenge,
        },
{
    match key_authorization {
        Some(value) => if method == RequestMethod::Head {
            Ok(String::new())
        } else {
            Ok(value)
        },
        None => Err(Refusal::UnknownChallenge),
    }
}

// ---------------------------------------------------------------------------
// Admission
// ---------------------------------------------------------------------------

pub open spec fn target_refusal(
    method: RequestMethod,
    has_authority: bool,
    has_scheme: bool,
    native_grpc: bool,
    http2: bool,
) -> Option<Refusal> {
    if method == RequestMethod::Connect {
        Some(Refusal::ConnectUnsupported)
    } else if !has_authority && has_scheme {
        Some(Refusal::InvalidTarget)
    } else if native_grpc && !http2 {
        Some(Refusal::GrpcRequiresHttp2)
    } else {
        None
    }
}

/// What is wrong with the method, target or protocol of a request.
pub fn check_target(
    method: RequestMethod,
    has_authority: bool,
    has_scheme: bool,
    native_grpc: bool,
    http2: bool,
) -> (r: Option<Refusal>)
    ensures
        r == target_refusal(method, has_authority, has_scheme, native_grpc, http2),
{
    if method == RequestMethod::Connect {
        Some(Refusal::ConnectUnsupported)
    } else if !has_authority && has_scheme {
        Some(Refusal::InvalidTarget)
    } else if native_grpc && !http2 {
        Some(Refusal::GrpcRequiresHttp2)
    } else {
        None
    }
}

/// Where a plain request is sent when its host asks for HTTPS and has a
/// certificate.
pub open spec fn redirect_of(
    scheme: PublicScheme,
    redirects: bool,
    has_certificate: bool,
    hostname: Seq<char>,
    path_and_query: Option<Seq<char>>,
) -> Option<Seq<char>> {
    if scheme == PublicScheme::Http && redirects && has_certificate {
        Some(
            "https://"@ + hostname + match path_and_query {
                Some(p) => p,
                None => "/"@,
            },
        )
    } else {
        None
    }
}

/// Where a plain request is sent when its host asks for HTTPS and has a
/// certificate.
pub fn redirect_location(
    scheme: PublicScheme,
    redirects: bool,
    has_certificate: bool,
    hostname: &str,
    path_and_query: Option<&str>,
) -> (r: Option<String>)
    ensures
        opt_view(r) == redirect_of(
            scheme,
            redirects,
            has_certificate,
            hostname@,
            match path_and_query {
                Some(p) => Some(p@),
                None => None,
            },
        ),
{
    if scheme == PublicScheme::Http && redirects && has_certificate {
        let mut out = "https://".to_owned();
        out.append(hostname);
        match path_and_query {
            Some(p) => {
                out.append(p);
            },
            None => {
                out.append("/");
            },
        }
        Some(out)
    } else {
        None
    }
}

/// What stands in the way of a request: its route is not registered, traffic
/// control rejects it, or a limit is reached, in this order.
pub open spec fn admission_refusal(
    route_online: bool,
    route_configured: bool,
    traffic_allowed: bool,
    route_permit: bool,
    global_permit: bool,
) -> Option<Refusal> {
    if !route_online {
        if route_configured {
            Some(Refusal::RouteOffline)
        } else {
            Some(Refusal::UnknownRoute)
        }
    } else if !traffic_allowed {
        Some(Refusal::TrafficRejected)
    } else if !route_permit {
        Some(Refusal::RouteBusy)
    } else if !global_permit {
        Some(Refusal::ServerBusy)
    } else {
        None
    }
}

/// What stands in the way of a request.
pub fn check_admission(
    route_online: bool,
    route_configured: bool,
    traffic_allowed: bool,
    route_permit: bool,
    global_permit: bool,
) -> (r: Option<Refusal>)
    ensures
        r == admission_refusal(
            route_online,
            route_configured,
            traffic_allowed,
            route_permit,
            global_permit,
        ),
{
    if !route_online {
        if route_configured {
            Some(Refusal::RouteOffline)
        } else {
            Some(Refusal::UnknownRoute)
        }
    } else if !traffic_allowed {
        Some(Refusal::TrafficRejected)
    } else if !route_permit {
        Some(Refusal::RouteBusy)
    } else if !global_permit {
        Some(Refusal::ServerBusy)
    } else {
        None
    }
}

/// What is known of a request once its host is.
#[derive(Debug)]
pub struct RequestFacts {
    pub scheme: PublicScheme,
    /// The server name of the TLS connection.
    pub tls_name: Option<String>,
    /// Whether the host has an active certificate.
    pub has_certificate: bool,
    pub method: RequestMethod,
    pub path: String,
    pub path_and_query: Option<String>,
    pub has_authority: bool,
    pub has_scheme: bool,
    pub native_grpc: bool,
    pub http2: bool,
    /// Whether the host sends plain requests on to HTTPS.
    pub redirects: bool,
    pub route_online: bool,
    pub route_configured: bool,
    pub traffic_allowed: bool,
    pub route_permit: bool,
    pub global_permit: bool,
}

/// What becomes of a request.
#[derive(Debug)]
pub enum RequestVerdict {
    Refused(Refusal),
    /// The key authorization of this token is answered.
    Challenge { token: String },
    Redirected { location: String },
    Admitted,
}

pub enum VerdictModel {
    Refused(Refusal),
    Challenge { token: Seq<char> },
    Redirected { location: Seq<char> },
    Admitted,
}

impl View for RequestVerdict {
    type V = VerdictModel;

    open spec fn view(&self) -> VerdictModel {
        match self {
            RequestVerdict::Refused(refusal) => VerdictModel::Refused(*refusal),
            RequestVerdict::Challenge { token } => VerdictModel::Challenge { token: token@ },
            RequestVerdict::Redirected { location } => VerdictModel::Redirected {
                location: location@,
            },
            RequestVerdict::Admitted => VerdictModel::Admitted,
        }
    }
}

/// What becomes of a request for a host. Challenges are answered on plain
/// connections before anything else, and a redirect comes before the route is
/// looked at.
pub open spec fn verdict_of(hostname: Seq<char>, f: RequestFacts) -> VerdictModel {
    match tls_refusal(f.scheme, opt_view(f.tls_name), hostname, f.has_certificate) {
        Some(refusal) => VerdictModel::Refused(refusal),
        None => {
            let challenge = if f.scheme == PublicScheme::Http {
                challenge_of(f.path@, f.method)
            } else {
                ChallengeRequestModel::Absent
            };
            match challenge {
                ChallengeRequestModel::Refused(refusal) => VerdictModel::Refused(refusal),
                ChallengeRequestModel::Lookup { token } => VerdictModel::Challenge { token },
                ChallengeRequestModel::Absent => routed(hostname, f),
            }
        },
    }
}

/// What becomes of a request that is no challenge.
pub open spec fn routed(hostname: Seq<char>, f: RequestFacts) -> VerdictModel {
    match target_refusal(f.method, f.has_authority, f.has_scheme, f.native_grpc, f.http2) {
        Some(refusal) => VerdictModel::Refused(refusal),
        None => match redirect_of(
            f.scheme,
            f.redirects,
            f.has_certificate,
            hostname,
            opt_view(f.path_and_query),
        ) {
            Some(location) => VerdictModel::Redirected { location },
            None => match admission_refusal(
                f.route_online,
                f.route_configured,
                f.traffic_allowed,
                f.route_permit,
                f.global_permit,
            ) {
                Some(refusal) => VerdictModel::Refused(refusal),
                None => VerdictModel::Admitted,
            },
        },
    }
}

fn as_text(v: &Option<String>) -> (r: Option<&str>)
    ensures
        match r {
            Some(s) => opt_view(*v) == Some(s@),
            None => opt_view(*v) is None,
        },
{
    match v {
        Some(s) => Some(s.as_str()),
        None => None,
    }
}

/// What becomes of a request for a host.
pub fn judge_request(hostname: &str, f: &RequestFacts) -> (r: RequestVerdict)
    ensures
        r@ == verdict_of(hostname@, *f),
{
    if let Some(refusal) = check_tls(f.scheme, as_text(&f.tls_name), hostname, f.has_certificate) {
        return RequestVerdict::Refused(refusal);
    }
    if f.scheme == PublicScheme::Http {
        match find_challenge(f.path.as_str(), f.method) {
            ChallengeRequest::Refused(refusal) => {
                return RequestVerdict::Refused(refusal);
            },
            ChallengeRequest::Lookup { token } => {
                return RequestVerdict::Challenge { token };
            },
            ChallengeRequest::Absent => {},
        }
    }
    if let Some(refusal) = check_target(
        f.method,
        f.has_authority,
        f.has_scheme,
        f.native_grpc,
        f.http2,
    ) {
        return RequestVerdict::Refused(refusal);
    }
    if let Some(location) = redirect_location(
        f.scheme,
        f.redirects,
        f.has_certificate,
        hostname,
        as_text(&f.path_and_query),
    ) {
        return RequestVerdict::Redirected { location };
    }
    if let Some(refusal) = check_admission(
        f.route_online,
        f.route_configured,
        f.traffic_allowed,
        f.route_permit,
        f.global_permit,
    ) {
        return RequestVerdict::Refused(refusal);
    }
    RequestVerdict::Admitted
}

// ---------------------------------------------------------------------------
// Counters
// ---------------------------------------------------------------------------

/// Counters of one route; they wrap around.
#[derive(Clone, Copy, Debug, Default, PartialEq, Eq, Structural)]
pub struct HttpRouteStatistics {
    pub active_connections: u64,
    pub requests_total: u64,
    pub failed_requests: u64,
    pub bytes_from_public: u64,
    pub bytes_to_public: u64,
    pub pairing_timeouts: u64,
    pub http2_active_streams: u64,
    pub http2_requests_total: u64,
    pub grpc_active_streams: u64,
    pub grpc_requests_total: u64,
    pub grpc_trailers_total: u64,
    pub grpc_failures_total: u64,
    pub grpc_cancellations_total: u64,
}

/// The protocols of a request.
#[derive(Clone, Copy, Debug, PartialEq, Eq, Structural)]
pub struct RequestProtocols {
    pub http2: bool,
    pub grpc: bool,
}

pub open spec fn up_if(n: u64, condition: bool) -> u64 {
    if condition {
        wrap_add(n, 1)
    } else {
        n
    }
}

pub open spec fn down_if(n: u64, condition: bool) -> u64 {
    if condition {
        wrap_down(n)
    } else {
        n
    }
}

fn bump(n: u64, condition: bool) -> (r: u64)
    ensures
        r == up_if(n, condition),
{
    if condition {
        n.wrapping_add(1)
    } else {
        n
    }
}

fn lessen(n: u64, condition: bool) -> (r: u64)
    ensures
        r == down_if(n, condition),
{
    if condition {
        n.wrapping_sub(1)
    } else {
        n
    }
}

/// The counters when a request is admitted.
pub open spec fn request_begun(s: HttpRouteStatistics, p: RequestProtocols) -> HttpRouteStatistics {
    HttpRouteStatistics {
        active_connections: wrap_add(s.active_connections, 1),
        requests_total: wrap_add(s.requests_total, 1),
        http2_active_streams: up_if(s.http2_active_streams, p.http2),
        http2_requests_total: up_if(s.http2_requests_total, p.http2),
        grpc_active_streams: up_if(s.grpc_active_streams, p.grpc),
        grpc_requests_total: up_if(s.grpc_requests_total, p.grpc),
        ..s
    }
}

/// The counters when a request is done.
pub open spec fn request_ended(s: HttpRouteStatistics, p: RequestProtocols) -> HttpRouteStatistics {
    HttpRouteStatistics {
        active_connections: wrap_down(s.active_connections),
        http2_active_streams: down_if(s.http2_active_streams, p.http2),
        grpc_active_streams: down_if(s.grpc_active_streams, p.grpc),
        ..s
    }
}

/// Why the backend did not answer a request.
#[derive(Clone, Copy, Debug, PartialEq, Eq, Structural)]
pub enum BackendFailure {
    /// No gRPC backend connection: all are busy.
    GrpcBusy,
    /// No gRPC backend connection: it could not be made.
    GrpcUnavailable { pairing_timeout: bool },
    GrpcRequestFailed,
    GrpcTimedOut,
    /// No data connection for a plain request.
    Unavailable { pairing_timeout: bool },
    HandshakeFailed,
    HandshakeTimedOut,
    RequestFailed,
    TimedOut,
    UnexpectedUpgrade,
}

/// How a backend failure is answered.
pub open spec fn failure_refusal(f: BackendFailure) -> Refusal {
    match f {
        BackendFailure::GrpcBusy => Refusal::BackendBusy,
        BackendFailure::GrpcUnavailable { .. } => Refusal::Http2BackendUnavailable,
        BackendFailure::GrpcRequestFailed => Refusal::Http2RequestFailed,
        BackendFailure::GrpcTimedOut => Refusal::Http2TimedOut,
        BackendFailure::Unavailable { .. } => Refusal::BackendUnavailable,
        BackendFailure::HandshakeFailed => Refusal::HandshakeFailed,
        BackendFailure::HandshakeTimedOut => Refusal::HandshakeTimedOut,
        BackendFailure::RequestFailed => Refusal::RequestFailed,
        BackendFailure::TimedOut => Refusal::ResponseTimedOut,
        BackendFailure::UnexpectedUpgrade => Refusal::UnexpectedUpgrade,
    }
}

/// The counters when a backend failure is answered.
pub open spec fn request_failed(s: HttpRouteStatistics, f: BackendFailure) -> HttpRouteStatistics {
    let grpc = match f {
        BackendFailure::GrpcBusy
        | BackendFailure::GrpcUnavailable { .. }
        | BackendFailure::GrpcRequestFailed
        | BackendFailure::GrpcTimedOut => true,
        _ => false,
    };
    let timeout = match f {
        BackendFailure::GrpcUnavailable { pairing_timeout } => pairing_timeout,
        BackendFailure::Unavailable { pairing_timeout } => pairing_timeout,
        _ => false,
    };
    HttpRouteStatistics {
        failed_requests: wrap_add(s.failed_requests, 1),
        grpc_failures_total: up_if(s.grpc_failures_total, grpc),
        pairing_timeouts: up_if(s.pairing_timeouts, timeout),
        ..s
    }
}

impl HttpRouteStatistics {
    /// Counts an admitted request.
    pub fn begin_request(&mut self, protocols: RequestProtocols)
        ensures
            *final(self) == request_begun(*old(self), protocols),
    {
        self.active_connections = bump(self.active_connections, true);
        self.requests_total = bump(self.requests_total, true);
        self.http2_active_streams = bump(self.http2_active_streams, protocols.http2);
        self.http2_requests_total = bump(self.http2_requests_total, protocols.http2);
        self.grpc_active_streams = bump(self.grpc_active_streams, protocols.grpc);
        self.grpc_requests_total = bump(self.grpc_requests_total, protocols.grpc);
    }

    /// Counts a request that is done.
    pub fn end_request(&mut self, protocols: RequestProtocols)
        ensures
            *final(self) == request_ended(*old(self), protocols),
    {
        self.active_connections = lessen(self.active_connections, true);
        self.http2_active_streams = lessen(self.http2_active_streams, protocols.http2);
        self.grpc_active_streams = lessen(self.grpc_active_streams, protocols.grpc);
    }

    /// Counts a backend failure and says how it is answered.
    pub fn fail_request(&mut self, failure: BackendFailure) -> (r: Refusal)
        ensures
            r == failure_refusal(failure),
            *final(self) == request_failed(*old(self), failure),
    {
        self.failed_requests = bump(self.failed_requests, true);
        match failure {
            BackendFailure::GrpcBusy => {
                self.grpc_failures_total = bump(self.grpc_failures_total, true);
                Refusal::BackendBusy
            },
            BackendFailure::GrpcUnavailable { pairing_timeout } => {
                self.grpc_failures_total = bump(self.grpc_failures_total, true);
                self.pairing_timeouts = bump(self.pairing_timeouts, pairing_timeout);
                Refusal::Http2BackendUnavailable
            },
            BackendFailure::GrpcRequestFailed => {
                self.grpc_failures_total = bump(self.grpc_failures_total, true);
                Refusal::Http2RequestFailed
            },
            BackendFailure::GrpcTimedOut => {
                self.grpc_failures_total = bump(self.grpc_failures_total, true);
                Refusal::Http2TimedOut
            },
            BackendFailure::Unavailable { pairing_timeout } => {
                self.pairing_timeouts = bump(self.pairing_timeouts, pairing_timeout);
                Refusal::BackendUnavailable
            },
            BackendFailure::HandshakeFailed => Refusal::HandshakeFailed,
            BackendFailure::HandshakeTimedOut => Refusal::HandshakeTimedOut,
            BackendFailure::RequestFailed => Refusal::RequestFailed,
            BackendFailure::TimedOut => Refusal::ResponseTimedOut,
            BackendFailure::UnexpectedUpgrade => Refusal::UnexpectedUpgrade,
        }
    }
}

/// Whether a data connection was missed for want of time.
pub fn pairing_timed_out(outcome: PairingResult) -> (r: bool)
    ensures
        r == (outcome == PairingResult::CommandTimedOut || outcome
            == PairingResult::ConnectionTimedOut),
{
    outcome == PairingResult::CommandTimedOut || outcome == PairingResult::ConnectionTimedOut
}

/// How the wait for a data connection failed.
#[derive(Clone, Copy, Debug, PartialEq, Eq, Structural)]
pub enum PairingResult {
    NoPermit,
    Stopped,
    CommandFailed,
    CommandTimedOut,
    ConnectionClosed,
    ConnectionTimedOut,
}

// ---------------------------------------------------------------------------
// gRPC responses
// ---------------------------------------------------------------------------

/// What is known of a gRPC response while it is streamed.
#[derive(Clone, Copy, Debug, PartialEq, Eq, Structural)]
pub struct GrpcBodyState {
    pub status_seen: bool,
    pub failure_recorded: bool,
    pub completed: bool,
}

/// A response that just began.
pub open spec fn fresh_body() -> GrpcBodyState {
    GrpcBodyState { status_seen: false, failure_recorded: false, completed: false }
}

/// A recorded failure: it counts once.
pub open spec fn failure_recorded(g: GrpcBodyState, s: HttpRouteStatistics) -> (
    GrpcBodyState,
    HttpRouteStatistics,
) {
    (
        GrpcBodyState { failure_recorded: true, ..g },
        HttpRouteStatistics {
            grpc_failures_total: up_if(s.grpc_failures_total, !g.failure_recorded),
            ..s
        },
    )
}

/// Seen trailers: they count once, and a status other than zero is a failure.
pub open spec fn trailers_recorded(g: GrpcBodyState, s: HttpRouteStatistics, status_zero: bool) -> (
    GrpcBodyState,
    HttpRouteStatistics,
) {
    let g1 = GrpcBodyState { status_seen: true, ..g };
    let s1 = HttpRouteStatistics {
        grpc_trailers_total: up_if(s.grpc_trailers_total, !g.status_seen),
        ..s
    };
    if status_zero {
        (g1, s1)
    } else {
        failure_recorded(g1, s1)
    }
}

/// The end of the stream: without a status it is a failure.
pub open spec fn body_finished(g: GrpcBodyState, s: HttpRouteStatistics) -> (
    GrpcBodyState,
    HttpRouteStatistics,
) {
    if g.completed {
        (g, s)
    } else {
        let g1 = GrpcBodyState { completed: true, ..g };
        if g.status_seen {
            (g1, s)
        } else {
            failure_recorded(g1, s)
        }
    }
}

/// A broken stream is a failure.
pub open spec fn body_failed(g: GrpcBodyState, s: HttpRouteStatistics) -> (
    GrpcBodyState,
    HttpRouteStatistics,
) {
    if g.completed {
        (g, s)
    } else {
        failure_recorded(GrpcBodyState { completed: true, ..g }, s)
    }
}

/// A stream that nobody reads any more was cancelled.
pub open spec fn body_cancelled(g: GrpcBodyState, s: HttpRouteStatistics) -> (
    GrpcBodyState,
    HttpRouteStatistics,
) {
    (
        GrpcBodyState { completed: true, ..g },
        HttpRouteStatistics {
            grpc_cancellations_total: up_if(s.grpc_cancellations_total, !g.completed),
            ..s
        },
    )
}

/// Whether a status value is that of success.
pub open spec fn zero_status(value: Option<Seq<u8>>) -> bool {
    match value {
        Some(v) => visible_text(v) == Some("0"@),
        None => false,
    }
}

/// A response whose head arrived: a status code other than 200 is a failure, and a
/// gRPC status field counts as trailers.
pub open spec fn response_begun(
    s: HttpRouteStatistics,
    status: u16,
    grpc_status: Option<Seq<u8>>,
) -> (GrpcBodyState, HttpRouteStatistics) {
    let (g, a) = if status == 200 {
        (fresh_body(), s)
    } else {
        failure_recorded(fresh_body(), s)
    };
    match grpc_status {
        Some(v) => trailers_recorded(g, a, zero_status(Some(v))),
        None => (g, a),
    }
}

fn is_zero_status(value: &Option<Vec<u8>>) -> (r: bool)
    ensures
        r == zero_status(
            match value {
                Some(v) => Some(v@),
                None => None,
            },
        ),
{
    match value {
        Some(v) => match read_visible(v) {
            Some(text) => crate::text::chars_are(&text, "0"),
            None => false,
        },
        None => false,
    }
}

impl GrpcBodyState {
    /// A response whose head arrived, with its status code and its gRPC status
    /// field, where it has one.
    pub fn new(statistics: &mut HttpRouteStatistics, status: u16, grpc_status: Option<Vec<u8>>) -> (r:
        Self)
        ensures
            (r, *final(statistics)) == response_begun(
                *old(statistics),
                status,
                match grpc_status {
                    Some(v) => Some(v@),
                    None => None,
                },
            ),
    {
        let mut state = GrpcBodyState {
            status_seen: false,
            failure_recorded: false,
            completed: false,
        };
        if status != 200 {
            state.record_failure(statistics);
        }
        if grpc_status.is_some() {
            state.record_trailers(statistics, grpc_status);
        }
        state
    }

    /// Counts trailers with the given gRPC status field.
    pub fn record_trailers(
        &mut self,
        statistics: &mut HttpRouteStatistics,
        grpc_status: Option<Vec<u8>>,
    )
        ensures
            (*final(self), *final(statistics)) == trailers_recorded(
                *old(self),
                *old(statistics),
                zero_status(
                    match grpc_status {
                        Some(v) => Some(v@),
                        None => None,
                    },
                ),
            ),
    {
        if !self.status_seen {
            self.status_seen = true;
            statistics.grpc_trailers_total = bump(statistics.grpc_trailers_total, true);
        }
        if !is_zero_status(&grpc_status) {
            self.record_failure(statistics);
        }
    }

    /// Counts a failure.
    pub fn record_failure(&mut self, statistics: &mut HttpRouteStatistics)
        ensures
            (*final(self), *final(statistics)) == failure_recorded(*old(self), *old(statistics)),
    {
        if !self.failure_recorded {
            self.failure_recorded = true;
            statistics.grpc_failures_total = bump(statistics.grpc_failures_total, true);
        }
    }

    /// Ends the stream.
    pub fn finish(&mut self, statistics: &mut HttpRouteStatistics)
        ensures
            (*final(self), *final(statistics)) == body_finished(*old(self), *old(statistics)),
    {
        if !self.completed {
            self.completed = true;
            if !self.status_seen {
                self.record_failure(statistics);
            }
        }
    }

    /// Breaks the stream.
    pub fn fail(&mut self, statistics: &mut HttpRouteStatistics)
        ensures
            (*final(self), *final(statistics)) == body_failed(*old(self), *old(statistics)),
    {
        if !self.completed {
            self.completed = true;
            self.record_failure(statistics);
        }
    }

    /// Drops the stream.
    pub fn cancel(&mut self, statistics: &mut HttpRouteStatistics)
        ensures
            (*final(self), *final(statistics)) == body_cancelled(*old(self), *old(statistics)),
    {
        if !self.completed {
            self.completed = true;
            statistics.grpc_cancellations_total = bump(statistics.grpc_cancellations_total, true);
        }
    }
}

// ---------------------------------------------------------------------------
// Forwarding
// ---------------------------------------------------------------------------

/// How a request goes on to its backend.
#[derive(Clone, Debug, PartialEq, Eq)]
pub struct ForwardTarget {
    /// Whether the host that the client named is put into a `Host` field.
    pub insert_host: bool,
    /// Whether the request is sent over HTTP/2.
    pub http2: bool,
    /// The authority of an absolute request target; without one the target is a
    /// path.
    pub authority: Option<String>,
}

/// How a request goes on to its backend. Native gRPC keeps its authority and is
/// sent over HTTP/2, all else as HTTP/1.1 with a path.
pub fn forward_target(native_grpc: bool, has_host: bool, original: &str) -> (r: ForwardTarget)
    ensures
        r.insert_host == !has_host,
        r.http2 == native_grpc,
        r.authority is Some == native_grpc,
        native_grpc ==> r.authority->0@ == original@,
{
    ForwardTarget {
        insert_host: !has_host,
        http2: native_grpc,
        authority: if native_grpc {
            Some(original.to_owned())
        } else {
            None
        },
    }
}

// ---------------------------------------------------------------------------
// Registered routes
// ---------------------------------------------------------------------------

/// Why a route was not registered.
#[derive(Clone, Copy, Debug, PartialEq, Eq, Structural)]
pub enum RouteRegistrationError {
    InvalidCredentials,
    InvalidHostname,
    NoPolicy,
}

impl RouteRegistrationError {
    /// The text that the agent receives.
    pub fn message(self) -> (r: &'static str)
        ensures
            r@ == match self {
                RouteRegistrationError::InvalidCredentials => "invalid client credentials"@,
                RouteRegistrationError::InvalidHostname => "invalid HTTP route hostname"@,
                RouteRegistrationError::NoPolicy => {
                    "no enabled management policy matches this HTTP route"@
                },
            },
    {
        match self {
            RouteRegistrationError::InvalidCredentials => "invalid client credentials",
            RouteRegistrationError::InvalidHostname => "invalid HTTP route hostname",
            RouteRegistrationError::NoPolicy => {
                "no enabled management policy matches this HTTP route"
            },
        }
    }

    /// Whether the refusal counts as a rejected registration.
    pub fn counts_as_rejection(self) -> (r: bool)
        ensures
            r == (self != RouteRegistrationError::InvalidHostname),
    {
        self != RouteRegistrationError::InvalidHostname
    }

    /// Whether the refusal counts as a failed authentication.
    pub fn counts_as_authentication_failure(self) -> (r: bool)
        ensures
            r == (self == RouteRegistrationError::InvalidCredentials),
    {
        self == RouteRegistrationError::InvalidCredentials
    }
}

/// The host name under which a route is registered.
pub fn check_route_registration(authenticated: bool, hostname: &str) -> (r: Result<
    String,
    RouteRegistrationError,
>)
    ensures
        if !authenticated {
            r is Err && r->Err_0 == RouteRegistrationError::InvalidCredentials
        } else {
            match hostname_of(hostname@) {
                Some(name) => r is Ok && r->Ok_0@ == name,
                None => r is Err && r->Err_0 == RouteRegistrationError::InvalidHostname,
            }
        },
{
    if !authenticated {
        return Err(RouteRegistrationError::InvalidCredentials);
    }
    match normalize_hostname(hostname) {
        Some(name) => Ok(name),
        None => Err(RouteRegistrationError::InvalidHostname),
    }
}

/// The audit entry of a registered route.
pub fn route_audit_text(name: &str, hostname: &str, target_addr: &str) -> (r: String)
    ensures
        r@ == "name="@ + name@ + "; hostname="@ + hostname@ + "; target="@ + target_addr@,
{
    let mut out = "name=".to_owned();
    out.append(name);
    out.append("; hostname=");
    out.append(hostname);
    out.append("; target=");
    out.append(target_addr);
    out
}

/// A registered route.
#[derive(Debug)]
pub struct HttpRouteRegistration {
    pub hostname: String,
    pub registration_id: u128,
}

/// The registered routes by host name, each host name once.
#[derive(Debug)]
pub struct HttpRouteRegistry {
    routes: Vec<HttpRouteRegistration>,
}

spec fn unique_hosts(s: Seq<HttpRouteRegistration>) -> bool {
    forall|i: int, j: int|
        0 <= i < j < s.len() ==> (#[trigger] s[i]).hostname@ != (#[trigger] s[j]).hostname@
}

spec fn route_map(s: Seq<HttpRouteRegistration>) -> Map<Seq<char>, u128> {
    Map::new(
        |name: Seq<char>| exists|i: int| 0 <= i < s.len() && (#[trigger] s[i]).hostname@ == name,
        |name: Seq<char>|
            s[choose|i: int| 0 <= i < s.len() && (#[trigger] s[i]).hostname@ == name].registration_id,
    )
}

proof fn lemma_route_map(s: Seq<HttpRouteRegistration>, i: int)
    requires
        unique_hosts(s),
        0 <= i < s.len(),
    ensures
        route_map(s).dom().contains(s[i].hostname@),
        route_map(s)[s[i].hostname@] == s[i].registration_id,
{
    let k = choose|k: int| 0 <= k < s.len() && (#[trigger] s[k]).hostname@ == s[i].hostname@;
    assert(s[i].hostname@ == s[i].hostname@);
    if k < i {
        assert(s[k].hostname@ != s[i].hostname@);
    } else if i < k {
        assert(s[i].hostname@ != s[k].hostname@);
    }
}

impl View for HttpRouteRegistry {
    type V = Map<Seq<char>, u128>;

    closed spec fn view(&self) -> Map<Seq<char>, u128> {
        route_map(self.routes@)
    }
}

impl HttpRouteRegistry {
    /// Validity: each host name stands once.
    pub closed spec fn wf(&self) -> bool {
        unique_hosts(self.routes@)
    }

    pub fn new() -> (r: Self)
        ensures
            r.wf(),
            r@ == Map::<Seq<char>, u128>::empty(),
    {
        let r = HttpRouteRegistry { routes: Vec::new() };
        assert(r@ =~= Map::empty());
        r
    }

    fn position(&self, hostname: &str) -> (r: Option<usize>)
        requires
            self.wf(),
        ensures
            match r {
                Some(i) => i < self.routes@.len() && self.routes@[i as int].hostname@ == hostname@
                    && self@.dom().contains(hostname@) && self@[hostname@]
                    == self.routes@[i as int].registration_id,
                None => !self@.dom().contains(hostname@),
            },
    {
        let mut i: usize = 0;
        while i < self.routes.len()
            invariant
                i <= self.routes@.len(),
                self.wf(),
                forall|j: int| 0 <= j < i ==> (#[trigger] self.routes@[j]).hostname@ != hostname@,
            decreases self.routes@.len() - i,
        {
            if same_text(self.routes[i].hostname.as_str(), hostname) {
                proof {
                    lemma_route_map(self.routes@, i as int);
                }
                return Some(i);
            }
            i = i + 1;
        }
        None
    }

    /// The registration that serves a host name.
    pub fn registration(&self, hostname: &str) -> (r: Option<u128>)
        requires
            self.wf(),
        ensures
            r == if self@.dom().contains(hostname@) {
                Some(self@[hostname@])
            } else {
                None
            },
    {
        match self.position(hostname) {
            Some(i) => Some(self.routes[i].registration_id),
            None => None,
        }
    }

    /// Registers a route; the registration that it takes the place of has to be
    /// stopped.
    pub fn register(&mut self, hostname: String, registration_id: u128) -> (r: Option<u128>)
        requires
            old(self).wf(),
        ensures
            final(self).wf(),
            final(self)@ == old(self)@.insert(hostname@, registration_id),
            r == if old(self)@.dom().contains(hostname@) {
                Some(old(self)@[hostname@])
            } else {
                None
            },
    {
        let ghost before = self.routes@;
        let ghost name = hostname@;
        match self.position(hostname.as_str()) {
            Some(i) => {
                let previous: u128 = self.routes[i].registration_id;
                self.routes.set(i, HttpRouteRegistration { hostname, registration_id });
                proof {
                    let after = self.routes@;
                    assert(forall|j: int|
                        0 <= j < after.len() ==> (#[trigger] after[j]).hostname@
                            == before[j].hostname@);
                    assert forall|a: int, b: int| 0 <= a < b < after.len() implies (
                    #[trigger] after[a]).hostname@ != (#[trigger] after[b]).hostname@ by {
                        assert(before[a].hostname@ != before[b].hostname@);
                    }
                    lemma_route_map_insert(before, after, i as int, name, registration_id);
                }
                Some(previous)
            },
            None => {
                self.routes.push(HttpRouteRegistration { hostname, registration_id });
                proof {
                    let after = self.routes@;
                    assert forall|a: int, b: int| 0 <= a < b < after.len() implies (
                    #[trigger] after[a]).hostname@ != (#[trigger] after[b]).hostname@ by {
                        if b < before.len() {
                            assert(before[a].hostname@ != before[b].hostname@);
                        } else {
                            assert(before[a].hostname@ != name) by {
                                lemma_route_map(before, a);
                            }
                        }
                    }
                    lemma_route_map_insert(
                        before,
                        after,
                        before.len() as int,
                        name,
                        registration_id,
                    );
                }
                None
            },
        }
    }

    fn take_out(&mut self, i: usize) -> (r: u128)
        requires
            old(self).wf(),
            i < old(self).routes@.len(),
        ensures
            final(self).wf(),
            r == old(self).routes@[i as int].registration_id,
            final(self)@ == old(self)@.remove(old(self).routes@[i as int].hostname@),
    {
        let ghost before = self.routes@;
        let id: u128 = self.routes[i].registration_id;
        self.routes.remove(i);
        proof {
            let after = self.routes@;
            let name = before[i as int].hostname@;
            assert forall|a: int, b: int| 0 <= a < b < after.len() implies (
            #[trigger] after[a]).hostname@ != (#[trigger] after[b]).hostname@ by {
                let x = if a < i {
                    a
                } else {
                    a + 1
                };
                let y = if b < i {
                    b
                } else {
                    b + 1
                };
                assert(before[x].hostname@ != before[y].hostname@);
            }
            let m = route_map(before).remove(name);
            assert forall|n: Seq<char>| route_map(after).dom().contains(n) == m.dom().contains(n) by {
                if route_map(after).dom().contains(n) {
                    let k = choose|k: int| 0 <= k < after.len() && (#[trigger] after[k]).hostname@ == n;
                    let x = if k < i {
                        k
                    } else {
                        k + 1
                    };
                    assert(before[x] == after[k]);
                    assert(before[x].hostname@ != before[i as int].hostname@);
                    lemma_route_map(before, x);
                }
                if m.dom().contains(n) {
                    let x = choose|x: int| 0 <= x < before.len() && (#[trigger] before[x]).hostname@ == n;
                    let k = if x < i {
                        x
                    } else {
                        x - 1
                    };
                    assert(after[k] == before[x]);
                    assert(after[k].hostname@ == n);
                }
            }
            assert forall|n: Seq<char>| route_map(after).dom().contains(n) implies route_map(
                after,
            )[n] == m[n] by {
                let k = choose|k: int| 0 <= k < after.len() && (#[trigger] after[k]).hostname@ == n;
                let x = if k < i {
                    k
                } else {
                    k + 1
                };
                assert(before[x] == after[k]);
                lemma_route_map(before, x);
                lemma_route_map(after, k);
            }
            assert(route_map(after) =~= m);
        }
        id
    }

    /// Removes a registration, unless another one has taken its place; whether
    /// it was removed and has to be stopped.
    pub fn remove_route(&mut self, hostname: &str, registration_id: u128) -> (r: bool)
        requires
            old(self).wf(),
        ensures
            final(self).wf(),
            r == (old(self)@.dom().contains(hostname@) && old(self)@[hostname@]
                == registration_id),
            final(self)@ == if r {
                old(self)@.remove(hostname@)
            } else {
                old(self)@
            },
    {
        match self.position(hostname) {
            Some(i) => {
                if self.routes[i].registration_id == registration_id {
                    let _stopped: u128 = self.take_out(i);
                    true
                } else {
                    false
                }
            },
            None => false,
        }
    }

    /// Removes the registration of a host name.
    pub fn stop_hostname(&mut self, hostname: &str) -> (r: Option<u128>)
        requires
            old(self).wf(),
        ensures
            final(self).wf(),
            final(self)@ == old(self)@.remove(hostname@),
            r == if old(self)@.dom().contains(hostname@) {
                Some(old(self)@[hostname@])
            } else {
                None
            },
    {
        match self.position(hostname) {
            Some(i) => Some(self.take_out(i)),
            None => {
                assert(self@.remove(hostname@) =~= self@);
                None
            },
        }
    }

    /// Removes all registrations and hands them over.
    pub fn stop_all(&mut self) -> (r: Vec<HttpRouteRegistration>)
        requires
            old(self).wf(),
        ensures
            final(self).wf(),
            final(self)@ == Map::<Seq<char>, u128>::empty(),
            forall|i: int|
                0 <= i < r@.len() ==> old(self)@.dom().contains((#[trigger] r@[i]).hostname@)
                    && old(self)@[r@[i].hostname@] == r@[i].registration_id,
            forall|name: Seq<char>| #[trigger]
                old(self)@.dom().contains(name) ==> exists|i: int|
                    0 <= i < r@.len() && (#[trigger] r@[i]).hostname@ == name,
    {
        let ghost before = self.routes@;
        let mut routes: Vec<HttpRouteRegistration> = Vec::new();
        core::mem::swap(&mut self.routes, &mut routes);
        proof {
            assert(self@ =~= Map::empty());
            assert forall|i: int| 0 <= i < routes@.len() implies route_map(before).dom().contains(
                (#[trigger] routes@[i]).hostname@,
            ) && route_map(before)[routes@[i].hostname@] == routes@[i].registration_id by {
                lemma_route_map(before, i);
            }
        }
        routes
    }
}

proof fn lemma_route_map_insert(
    before: Seq<HttpRouteRegistration>,
    after: Seq<HttpRouteRegistration>,
    i: int,
    name: Seq<char>,
    id: u128,
)
    requires
        unique_hosts(before),
        unique_hosts(after),
        0 <= i <= before.len(),
        after.len() == if i < before.len() {
            before.len()
        } else {
            before.len() + 1
        },
        after[i].hostname@ == name,
        after[i].registration_id == id,
        i < before.len() ==> before[i].hostname@ == name,
        forall|j: int| 0 <= j < before.len() && j != i ==> after[j] == before[j],
    ensures
        route_map(after) == route_map(before).insert(name, id),
{
    let m = route_map(before).insert(name, id);
    assert forall|n: Seq<char>| route_map(after).dom().contains(n) == m.dom().contains(n) by {
        if route_map(after).dom().contains(n) {
            let k = choose|k: int| 0 <= k < after.len() && (#[trigger] after[k]).hostname@ == n;
            if k != i {
                assert(before[k].hostname@ == n);
            }
        }
        if m.dom().contains(n) {
            if n == name {
                assert(after[i].hostname@ == n);
            } else {
                let k = choose|k: int| 0 <= k < before.len() && (#[trigger] before[k]).hostname@ == n;
                assert(after[k].hostname@ == n);
            }
        }
    }
    assert forall|n: Seq<char>| route_map(after).dom().contains(n) implies route_map(after)[n]
        == m[n] by {
        let k = choose|k: int| 0 <= k < after.len() && (#[trigger] after[k]).hostname@ == n;
        lemma_route_map(after, k);
        lemma_route_map(after, i);
        if k != i {
            lemma_route_map(before, k);
            if n == name {
                if k < i {
                    assert(after[k].hostname@ != after[i].hostname@);
                } else {
                    assert(after[i].hostname@ != after[k].hostname@);
                }
            }
        }
    }
    assert(route_map(after) =~= m);
}

// ---------------------------------------------------------------------------
// Laws
// ---------------------------------------------------------------------------

/// Ending a request undoes what beginning it did to the active counts.
pub proof fn law_requests_leave_no_active_trace(s: HttpRouteStatistics, p: RequestProtocols)
    ensures
        ({
            let after = request_ended(request_begun(s, p), p);
            &&& after.active_connections == s.active_connections
            &&& after.http2_active_streams == s.http2_active_streams
            &&& after.grpc_active_streams == s.grpc_active_streams
        }),
{
}

/// Once a gRPC response is completed, further endings count nothing.
pub proof fn law_a_completed_response_is_counted_once(g: GrpcBodyState, s: HttpRouteStatistics)
    requires
        g.completed,
    ensures
        body_finished(g, s) == (g, s),
        body_failed(g, s) == (g, s),
        body_cancelled(g, s).1 == s,
        body_cancelled(g, s).0 == g,
{
}

/// Every way in which a gRPC response ends completes it, with at most one
/// failure counted over its life.
pub proof fn law_a_response_fails_at_most_once(g: GrpcBodyState, s: HttpRouteStatistics, zero: bool)
    ensures
        body_finished(g, s).0.completed,
        body_failed(g, s).0.completed,
        body_cancelled(g, s).0.completed,
        g.failure_recorded ==> trailers_recorded(g, s, zero).1.grpc_failures_total
            == s.grpc_failures_total,
        g.failure_recorded ==> body_finished(g, s).1.grpc_failures_total == s.grpc_failures_total,
        g.failure_recorded ==> body_failed(g, s).1.grpc_failures_total == s.grpc_failures_total,
        trailers_recorded(g, s, zero).1.grpc_failures_total != s.grpc_failures_total
            ==> trailers_recorded(g, s, zero).0.failure_recorded,
{
}

/// A request whose host field and target denote different hosts is refused, and
/// one that is accepted is for the host that both denote.
pub proof fn law_host_and_target_agree(
    hosts: Seq<Seq<u8>>,
    authority: Seq<char>,
    http2: bool,
)
    requires
        request_host(hosts, Some(authority), http2) is Ok,
    ensures
        hostname_of(trim(authority)) == Some(
            request_host(hosts, Some(authority), http2)->Ok_0.hostname,
        ),
        hostname_of(request_host(hosts, Some(authority), http2)->Ok_0.original) == Some(
            request_host(hosts, Some(authority), http2)->Ok_0.hostname,
        ),
{
}

/// An admitted request goes to a registered route within its limits; over TLS
/// it is for the server that the certificate names, and native gRPC came over
/// HTTP/2.
pub proof fn law_admitted_requests_are_allowed(hostname: Seq<char>, f: RequestFacts)
    requires
        verdict_of(hostname, f) is Admitted,
    ensures
        f.route_online && f.traffic_allowed && f.route_permit && f.global_permit,
        f.method != RequestMethod::Connect,
        f.native_grpc ==> f.http2,
        f.scheme == PublicScheme::Https ==> f.has_certificate && f.tls_name is Some && hostname_of(
            f.tls_name->0@,
        ) == Some(hostname),
        f.scheme == PublicScheme::Http ==> !(f.redirects && f.has_certificate),
{
}

/// Challenges are answered whatever the route is like, but only on plain
/// connections.
pub proof fn law_challenges_need_no_route(hostname: Seq<char>, f: RequestFacts)
    requires
        challenge_of(f.path@, f.method) is Lookup,
    ensures
        f.scheme == PublicScheme::Http ==> verdict_of(hostname, f) == (VerdictModel::Challenge {
            token: challenge_of(f.path@, f.method)->token,
        }),
        f.scheme == PublicScheme::Https ==> !(verdict_of(hostname, f) is Challenge),
{
}

/// Whether a path is below that of certificate challenges.
pub open spec fn below_challenges(path: Seq<char>) -> bool {
    path.len() >= 28 && path.take(28) == "/.well-known/acme-challenge/"@
}

/// Whether the TLS side of a request is in order: plain, or for the server that the
/// handshake named, with an active certificate.
pub open spec fn tls_in_order(hostname: Seq<char>, f: RequestFacts) -> bool {
    f.scheme == PublicScheme::Http || f.tls_name is Some && hostname_of(f.tls_name->0@) == Some(
        hostname,
    ) && f.has_certificate
}

/// Whether the method, the target and the protocol of a request are in order.
pub open spec fn target_in_order(f: RequestFacts) -> bool {
    f.method != RequestMethod::Connect && (f.has_authority || !f.has_scheme) && (!f.native_grpc
        || f.http2)
}

/// A request is redirected exactly if it came over plain HTTP, is no challenge, is in
/// order, and its host asks for HTTPS and has an active certificate. It is sent to the
/// same path of the same host.
pub proof fn law_redirects_are_asked_for(hostname: Seq<char>, f: RequestFacts)
    ensures
        verdict_of(hostname, f) is Redirected <==> f.scheme == PublicScheme::Http && f.redirects
            && f.has_certificate && !below_challenges(f.path@) && target_in_order(f),
        verdict_of(hostname, f) is Redirected ==> verdict_of(hostname, f)->location == "https://"@
            + hostname + match f.path_and_query {
            Some(path) => path@,
            None => "/"@,
        },
{
    reveal_strlit("/.well-known/acme-challenge/");
}

/// A request is admitted exactly if its TLS side and its target are in order, it is no
/// challenge, its host does not send it on to HTTPS, its route is registered, traffic
/// control lets it pass and both limits have room.
pub proof fn law_requests_are_admitted_when_all_allows(hostname: Seq<char>, f: RequestFacts)
    ensures
        verdict_of(hostname, f) is Admitted <==> {
            &&& tls_in_order(hostname, f)
            &&& !(f.scheme == PublicScheme::Http && below_challenges(f.path@))
            &&& target_in_order(f)
            &&& !(f.scheme == PublicScheme::Http && f.redirects && f.has_certificate)
            &&& f.route_online
            &&& f.traffic_allowed
            &&& f.route_permit
            &&& f.global_permit
        },
{
    reveal_strlit("/.well-known/acme-challenge/");
}

/// A plain request for one token below the path of challenges is a challenge for that
/// token, whatever else is said of the host and its route.
pub proof fn law_challenges_are_looked_up(hostname: Seq<char>, f: RequestFacts)
    ensures
        verdict_of(hostname, f) is Challenge <==> {
            &&& f.scheme == PublicScheme::Http
            &&& below_challenges(f.path@)
            &&& f.method == RequestMethod::Get || f.method == RequestMethod::Head
            &&& f.path@.len() > 28
            &&& !f.path@.skip(28).contains('/')
        },
        verdict_of(hostname, f) is Challenge ==> verdict_of(hostname, f)->token == f.path@.skip(28),
{
    reveal_strlit("/.well-known/acme-challenge/");
}

/// Each refusal of a request names the first thing that stands in its way.
pub proof fn law_refusals_name_the_obstacle(hostname: Seq<char>, f: RequestFacts)
    requires
        verdict_of(hostname, f) is Refused,
    ensures
        ({
            let r = verdict_of(hostname, f)->Refused_0;
            let plain = f.scheme == PublicScheme::Http;
            let challenge = plain && below_challenges(f.path@);
            let open = tls_in_order(hostname, f) && !challenge;
            let passes = open && target_in_order(f);
            &&& r == Refusal::MissingTlsName <==> !plain && (f.tls_name is None || hostname_of(
                f.tls_name->0@,
            ) is None)
            &&& r == Refusal::TlsNameConflict <==> !plain && f.tls_name is Some && hostname_of(
                f.tls_name->0@,
            ) is Some && hostname_of(f.tls_name->0@) != Some(hostname)
            &&& r == Refusal::CertificateInactive <==> !plain && f.tls_name is Some && hostname_of(
                f.tls_name->0@,
            ) == Some(hostname) && !f.has_certificate
            &&& r == Refusal::ChallengeMethod <==> challenge && f.method != RequestMethod::Get
                && f.method != RequestMethod::Head
            &&& r == Refusal::UnknownChallenge <==> challenge && (f.method == RequestMethod::Get
                || f.method == RequestMethod::Head)
            &&& r == Refusal::ConnectUnsupported <==> open && f.method == RequestMethod::Connect
            &&& r == Refusal::InvalidTarget <==> open && f.method != RequestMethod::Connect
                && !f.has_authority && f.has_scheme
            &&& r == Refusal::GrpcRequiresHttp2 <==> open && f.method != RequestMethod::Connect && (
            f.has_authority || !f.has_scheme) && f.native_grpc && !f.http2
            &&& r == Refusal::RouteOffline <==> passes && !f.route_online && f.route_configured
            &&& r == Refusal::UnknownRoute <==> passes && !f.route_online && !f.route_configured
            &&& r == Refusal::TrafficRejected <==> passes && f.route_online && !f.traffic_allowed
            &&& r == Refusal::RouteBusy <==> passes && f.route_online && f.traffic_allowed
                && !f.route_permit
            &&& r == Refusal::ServerBusy <==> passes && f.route_online && f.traffic_allowed
                && f.route_permit && !f.global_permit
        }),
{
    reveal_strlit("/.well-known/acme-challenge/");
}

/// A location is given exactly for plain requests of hosts that ask for it and have a
/// certificate.
pub proof fn law_locations_are_given_on_request(
    scheme: PublicScheme,
    redirects: bool,
    has_certificate: bool,
    hostname: Seq<char>,
    path_and_query: Option<Seq<char>>,
)
    ensures
        ({
            let r = redirect_of(scheme, redirects, has_certificate, hostname, path_and_query);
            &&& r is Some ==> scheme == PublicScheme::Http && redirects && has_certificate
            &&& scheme == PublicScheme::Http && redirects && has_certificate ==> r is Some
            &&& r is Some ==> r->0.take(8) == "https://"@ && r->0.subrange(
                8,
                8 + hostname.len() as int,
            ) == hostname
            &&& r is Some && path_and_query is Some ==> r->0.skip(8 + hostname.len() as int)
                == path_and_query->0
            &&& r is Some && path_and_query is None ==> r->0.skip(8 + hostname.len() as int) == seq!['/']
        }),
{
    reveal_strlit("https://");
    reveal_strlit("/");
    let r = redirect_of(scheme, redirects, has_certificate, hostname, path_and_query);
    if r is Some {
        assert(r->0.take(8) =~= "https://"@);
        assert(r->0.subrange(8, 8 + hostname.len() as int) =~= hostname);
        if path_and_query is Some {
            assert(r->0.skip(8 + hostname.len() as int) =~= path_and_query->0);
        } else {
            assert(r->0.skip(8 + hostname.len() as int) =~= seq!['/']);
        }
    }
}

/// The host of a request is the one that its host field, its target, or both denote.
/// Two host fields, an unreadable one, or a target that denotes another host are
/// refused.
pub proof fn law_requests_are_for_one_host(
    hosts: Seq<Seq<u8>>,
    authority: Option<Seq<char>>,
    http2: bool,
)
    ensures
        ({
            let r = request_host(hosts, authority, http2);
            let readable = hosts.len() > 0 && visible_text(hosts[0]) is Some;
            let field = trim(visible_text(hosts[0])->0);
            let target = trim(authority->0);
            &&& hosts.len() > 0 && !readable ==> r == Err::<RequestHostModel, Refusal>(
                Refusal::InvalidHost,
            )
            &&& hosts.len() > 1 && readable ==> r == Err::<RequestHostModel, Refusal>(
                Refusal::MultipleHosts,
            )
            &&& hosts.len() == 0 && authority is None ==> r == Err::<RequestHostModel, Refusal>(
                if http2 {
                    Refusal::MissingAuthority
                } else {
                    Refusal::MissingHost
                },
            )
            &&& hosts.len() == 0 && authority is Some ==> (r is Ok <==> hostname_of(target) is Some)
            &&& hosts.len() == 0 && r is Ok ==> r->Ok_0.original == target && hostname_of(target)
                == Some(r->Ok_0.hostname)
            &&& hosts.len() == 1 && readable && authority is None ==> (r is Ok <==> hostname_of(
                field,
            ) is Some)
            &&& hosts.len() == 1 && r is Ok ==> readable && r->Ok_0.original == field
                && hostname_of(field) == Some(r->Ok_0.hostname)
            &&& hosts.len() == 1 && readable && authority is Some ==> (r is Ok <==> hostname_of(
                field,
            ) is Some && hostname_of(field) == hostname_of(target))
            &&& r == Err::<RequestHostModel, Refusal>(Refusal::AuthorityConflict) ==> hostname_of(
                field,
            ) is Some && hostname_of(target) is Some && hostname_of(field) != hostname_of(target)
            &&& r == Err::<RequestHostModel, Refusal>(Refusal::InvalidAuthority) ==> hostname_of(
                field,
            ) is Some && hostname_of(target) is None
            &&& hosts.len() > 1 ==> r is Err
        }),
{
}

/// What a refusal tells the client: a bad request, a request that is not allowed, a
/// host or a method that is not there, the wrong server, a backend that failed, is
/// busy or too late, or the wrong protocol.
pub proof fn law_statuses_tell_what_went_wrong(r: Refusal)
    ensures
        refusal_status(r) == 403 <==> r == Refusal::TrafficRejected,
        refusal_status(r) == 404 <==> (r == Refusal::UnknownRoute || r == Refusal::UnknownChallenge),
        refusal_status(r) == 405 <==> (r == Refusal::ConnectUnsupported || r
            == Refusal::ChallengeMethod),
        refusal_status(r) == 421 <==> (r == Refusal::MissingTlsName || r
            == Refusal::TlsNameConflict || r == Refusal::CertificateInactive),
        refusal_status(r) == 503 <==> (r == Refusal::RouteOffline || r == Refusal::RouteBusy || r
            == Refusal::ServerBusy || r == Refusal::BackendBusy),
        refusal_status(r) == 504 <==> (r == Refusal::Http2TimedOut || r
            == Refusal::HandshakeTimedOut || r == Refusal::ResponseTimedOut),
        refusal_status(r) == 505 <==> r == Refusal::GrpcRequiresHttp2,
        refusal_status(r) == 502 <==> (r == Refusal::BackendUnavailable || r
            == Refusal::Http2BackendUnavailable || r == Refusal::Http2RequestFailed || r
            == Refusal::HandshakeFailed || r == Refusal::RequestFailed || r
            == Refusal::UnexpectedUpgrade),
        refusal_status(r) == 400 || refusal_status(r) == 403 || refusal_status(r) == 404
            || refusal_status(r) == 405 || refusal_status(r) == 421 || 502 <= refusal_status(r)
            <= 505,
{
}

/// A backend failure is answered by what failed: timeouts as timeouts, a busy backend
/// as busy, anything else as a failed backend; gRPC failures are told apart from plain
/// ones.
pub proof fn law_backend_failures_are_answered(f: BackendFailure)
    ensures
        refusal_status(failure_refusal(f)) == 504 <==> (f is GrpcTimedOut || f is HandshakeTimedOut
            || f is TimedOut),
        refusal_status(failure_refusal(f)) == 503 <==> f is GrpcBusy,
        refusal_status(failure_refusal(f)) == 502 || refusal_status(failure_refusal(f)) == 503
            || refusal_status(failure_refusal(f)) == 504,
        failure_refusal(f) == Refusal::BackendUnavailable <==> f is Unavailable,
        failure_refusal(f) == Refusal::Http2BackendUnavailable <==> f is GrpcUnavailable,
        failure_refusal(f) == Refusal::Http2RequestFailed <==> f is GrpcRequestFailed,
        failure_refusal(f) == Refusal::Http2TimedOut <==> f is GrpcTimedOut,
        failure_refusal(f) == Refusal::HandshakeFailed <==> f is HandshakeFailed,
        failure_refusal(f) == Refusal::HandshakeTimedOut <==> f is HandshakeTimedOut,
        failure_refusal(f) == Refusal::RequestFailed <==> f is RequestFailed,
        failure_refusal(f) == Refusal::ResponseTimedOut <==> f is TimedOut,
        failure_refusal(f) == Refusal::UnexpectedUpgrade <==> f is UnexpectedUpgrade,
{
}

/// A counter that goes up by one where `up`, and wraps around.
pub open spec fn counts(before: u64, after: u64, up: bool) -> bool {
    after == if up {
        (before + 1) % 0x1_0000_0000_0000_0000
    } else {
        before as int
    }
}

/// An admitted request counts once in the totals and in the active counts of each of
/// its protocols, and in nothing else.
pub proof fn law_requests_are_counted_by_protocol(s: HttpRouteStatistics, p: RequestProtocols)
    ensures
        ({
            let after = request_begun(s, p);
            &&& counts(s.active_connections, after.active_connections, true)
            &&& counts(s.requests_total, after.requests_total, true)
            &&& counts(s.http2_active_streams, after.http2_active_streams, p.http2)
            &&& counts(s.http2_requests_total, after.http2_requests_total, p.http2)
            &&& counts(s.grpc_active_streams, after.grpc_active_streams, p.grpc)
            &&& counts(s.grpc_requests_total, after.grpc_requests_total, p.grpc)
            &&& after.failed_requests == s.failed_requests
            &&& after.bytes_from_public == s.bytes_from_public
            &&& after.bytes_to_public == s.bytes_to_public
            &&& after.pairing_timeouts == s.pairing_timeouts
            &&& after.grpc_trailers_total == s.grpc_trailers_total
            &&& after.grpc_failures_total == s.grpc_failures_total
            &&& after.grpc_cancellations_total == s.grpc_cancellations_total
            &&& request_ended(after, p) == (HttpRouteStatistics {
                active_connections: s.active_connections,
                http2_active_streams: s.http2_active_streams,
                grpc_active_streams: s.grpc_active_streams,
                ..after
            })
        }),
{
}

/// A backend failure counts as one failed request, as one gRPC failure where it is of
/// gRPC, and as a missed pairing where it was one.
pub proof fn law_failures_are_counted(s: HttpRouteStatistics, f: BackendFailure)
    ensures
        ({
            let after = request_failed(s, f);
            &&& counts(s.failed_requests, after.failed_requests, true)
            &&& counts(
                s.grpc_failures_total,
                after.grpc_failures_total,
                f is GrpcBusy || f is GrpcUnavailable || f is GrpcRequestFailed || f is GrpcTimedOut,
            )
            &&& counts(
                s.pairing_timeouts,
                after.pairing_timeouts,
                f == (BackendFailure::GrpcUnavailable { pairing_timeout: true }) || f == (
                BackendFailure::Unavailable { pairing_timeout: true }),
            )
            &&& after == (HttpRouteStatistics {
                failed_requests: after.failed_requests,
                grpc_failures_total: after.grpc_failures_total,
                pairing_timeouts: after.pairing_timeouts,
                ..s
            })
        }),
{
}

/// Trailers count once, and are a failure unless their status is zero; a stream that
/// ends without a status or breaks is a failure, and one that nobody reads any more is
/// a cancellation.
pub proof fn law_grpc_responses_are_counted(
    g: GrpcBodyState,
    s: HttpRouteStatistics,
    status_zero: bool,
)
    ensures
        ({
            let (t, a) = trailers_recorded(g, s, status_zero);
            &&& t.status_seen
            &&& t.completed == g.completed
            &&& t.failure_recorded == (g.failure_recorded || !status_zero)
            &&& counts(s.grpc_trailers_total, a.grpc_trailers_total, !g.status_seen)
            &&& counts(
                s.grpc_failures_total,
                a.grpc_failures_total,
                !status_zero && !g.failure_recorded,
            )
            &&& a == (HttpRouteStatistics {
                grpc_trailers_total: a.grpc_trailers_total,
                grpc_failures_total: a.grpc_failures_total,
                ..s
            })
        }),
        ({
            let (t, a) = body_finished(g, s);
            &&& t.completed
            &&& t.status_seen == g.status_seen
            &&& t.failure_recorded == (g.failure_recorded || !g.completed && !g.status_seen)
            &&& counts(
                s.grpc_failures_total,
                a.grpc_failures_total,
                !g.completed && !g.status_seen && !g.failure_recorded,
            )
            &&& a == (HttpRouteStatistics { grpc_failures_total: a.grpc_failures_total, ..s })
        }),
        ({
            let (t, a) = body_failed(g, s);
            &&& t.completed
            &&& t.status_seen == g.status_seen
            &&& t.failure_recorded == (g.failure_recorded || !g.completed)
            &&& counts(
                s.grpc_failures_total,
                a.grpc_failures_total,
                !g.completed && !g.failure_recorded,
            )
            &&& a == (HttpRouteStatistics { grpc_failures_total: a.grpc_failures_total, ..s })
        }),
        ({
            let (t, a) = body_cancelled(g, s);
            &&& t == (GrpcBodyState { completed: true, ..g })
            &&& counts(s.grpc_cancellations_total, a.grpc_cancellations_total, !g.completed)
            &&& a == (HttpRouteStatistics {
                grpc_cancellations_total: a.grpc_cancellations_total,
                ..s
            })
        }),
        ({
            let (t, a) = failure_recorded(g, s);
            &&& t == (GrpcBodyState { failure_recorded: true, ..g })
            &&& counts(s.grpc_failures_total, a.grpc_failures_total, !g.failure_recorded)
            &&& a == (HttpRouteStatistics { grpc_failures_total: a.grpc_failures_total, ..s })
        }),
{
}

/// The head of a gRPC response: any status code but 200 is a failure, and a status
/// field counts as trailers.
pub proof fn law_grpc_heads_are_counted(
    s: HttpRouteStatistics,
    status: u16,
    grpc_status: Option<Seq<u8>>,
)
    ensures
        ({
            let (g, a) = response_begun(s, status, grpc_status);
            let bad = grpc_status is Some && visible_text(grpc_status->0) != Some(seq!['0']);
            &&& !g.completed
            &&& g.status_seen == (grpc_status is Some)
            &&& g.failure_recorded == (status != 200 || bad)
            &&& counts(s.grpc_failures_total, a.grpc_failures_total, status != 200 || bad)
            &&& counts(s.grpc_trailers_total, a.grpc_trailers_total, grpc_status is Some)
            &&& a == (HttpRouteStatistics {
                grpc_trailers_total: a.grpc_trailers_total,
                grpc_failures_total: a.grpc_failures_total,
                ..s
            })
        }),
{
    reveal_strlit("0");
    assert("0"@ =~= seq!['0']);
}

/// Only the text "0" is a status of success.
pub proof fn law_only_zero_is_success(value: Option<Seq<u8>>)
    ensures
        zero_status(value) <==> value is Some && visible_text(value->0) == Some(seq!['0']),
{
    reveal_strlit("0");
    assert("0"@ =~= seq!['0']);
}

/// A challenge is answered with its key authorization, without it to HEAD, and an
/// unknown token with a refusal.
pub proof fn law_challenges_are_answered(
    key: Option<String>,
    method: RequestMethod,
    r: Result<String, Refusal>,
)
    requires
        call_ensures(answer_challenge, (key, method), r),
    ensures
        key is None ==> r == Err::<String, Refusal>(Refusal::UnknownChallenge),
        key is Some ==> r is Ok,
        key is Some && method != RequestMethod::Head ==> r->Ok_0@ == key->0@,
        key is Some && method == RequestMethod::Head ==> r->Ok_0@.len() == 0,
{
}

/// A host name is registered only for an authenticated client, in its normal form.
pub proof fn law_registration_takes_credentials_and_a_host(
    authenticated: bool,
    hostname: &str,
    r: Result<String, RouteRegistrationError>,
)
    requires
        call_ensures(check_route_registration, (authenticated, hostname), r),
    ensures
        r is Ok <==> authenticated && hostname_of(hostname@) is Some,
        r is Ok ==> Some(r->Ok_0@) == hostname_of(hostname@),
        !authenticated <==> r == Err::<String, RouteRegistrationError>(
            RouteRegistrationError::InvalidCredentials,
        ),
        authenticated && r is Err ==> r->Err_0 == RouteRegistrationError::InvalidHostname,
{
}

/// Native gRPC goes on over HTTP/2 with the authority that the client named, all else
/// as a path over HTTP/1; a host field is put in where there is none.
pub proof fn law_requests_go_on_in_their_protocol(
    native_grpc: bool,
    has_host: bool,
    original: &str,
    r: ForwardTarget,
)
    requires
        call_ensures(forward_target, (native_grpc, has_host, original), r),
    ensures
        r.http2 <==> native_grpc,
        r.authority is Some <==> native_grpc,
        native_grpc ==> r.authority->0@ == original@,
        r.insert_host <==> !has_host,
{
}

/// Only waits that ran out of time are pairing timeouts.
pub proof fn law_pairing_timeouts_ran_out_of_time(outcome: PairingResult, r: bool)
    requires
        call_ensures(pairing_timed_out, (outcome,), r),
    ensures
        r <==> outcome is CommandTimedOut || outcome is ConnectionTimedOut,
{
}

/// HTTP/2 is spoken where it was negotiated, HTTP/1.1 where that was or nothing was, and
/// no other protocol is spoken.
pub proof fn law_protocols_are_negotiated_by_name(alpn: Option<&[u8]>, r: Option<PublicProtocol>)
    requires
        call_ensures(negotiated_protocol, (alpn,), r),
    ensures
        alpn is None ==> r == Some(PublicProtocol::Http1),
        alpn is Some ==> (r == Some(PublicProtocol::Http2) <==> alpn->0@.len() == 2 && alpn->0@[0]
            == 0x68 && alpn->0@[1] == 0x32),
        alpn is Some && r == Some(PublicProtocol::Http1) ==> alpn->0@.len() == 8 && alpn->0@[0]
            == 0x68 && alpn->0@[7] == 0x31,
        alpn is Some && alpn->0@ == seq![0x68u8, 0x74, 0x74, 0x70, 0x2f, 0x31, 0x2e, 0x31] ==> r
            == Some(PublicProtocol::Http1),
{
    if alpn is Some && alpn->0@.len() == 2 && alpn->0@[0] == 0x68 && alpn->0@[1] == 0x32 {
        assert(alpn->0@ =~= seq![104u8, 50]);
    }
}

/// A registration takes the place of the one that stood under its host name, which is
/// handed back, and of no other.
pub proof fn law_registrations_replace_their_host_only(
    registry: &mut HttpRouteRegistry,
    hostname: String,
    registration_id: u128,
    r: Option<u128>,
    other: Seq<char>,
)
    requires
        old(registry).wf(),
        call_ensures(HttpRouteRegistry::register, (registry, hostname, registration_id), r),
    ensures
        ({
            let m = old(registry)@;
            let n = final(registry)@;
            &&& n.dom().contains(hostname@) && n[hostname@] == registration_id
            &&& other != hostname@ ==> (n.dom().contains(other) <==> m.dom().contains(other))
            &&& other != hostname@ && m.dom().contains(other) ==> n[other] == m[other]
            &&& r is Some <==> m.dom().contains(hostname@)
            &&& r is Some ==> r->0 == m[hostname@]
        }),
{
}

/// A route is removed only by the registration that holds it, so one that was replaced
/// does not take down its successor.
pub proof fn law_routes_are_removed_by_their_registration(
    registry: &mut HttpRouteRegistry,
    hostname: &str,
    registration_id: u128,
    r: bool,
    other: Seq<char>,
)
    requires
        old(registry).wf(),
        call_ensures(HttpRouteRegistry::remove_route, (registry, hostname, registration_id), r),
    ensures
        ({
            let m = old(registry)@;
            let n = final(registry)@;
            &&& r <==> m.dom().contains(hostname@) && m[hostname@] == registration_id
            &&& r ==> !n.dom().contains(hostname@)
            &&& !r ==> n == m
            &&& other != hostname@ ==> (n.dom().contains(other) <==> m.dom().contains(other))
            &&& other != hostname@ && m.dom().contains(other) ==> n[other] == m[other]
        }),
{
}

/// A stopped host name has no registration any more, and the one that it had is handed
/// back.
pub proof fn law_stopped_hosts_are_gone(
    registry: &mut HttpRouteRegistry,
    hostname: &str,
    r: Option<u128>,
    other: Seq<char>,
)
    requires
        old(registry).wf(),
        call_ensures(HttpRouteRegistry::stop_hostname, (registry, hostname), r),
    ensures
        ({
            let m = old(registry)@;
            let n = final(registry)@;
            &&& !n.dom().contains(hostname@)
            &&& r is Some <==> m.dom().contains(hostname@)
            &&& r is Some ==> r->0 == m[hostname@]
            &&& other != hostname@ && m.dom().contains(other) ==> n.dom().contains(other)
                && n[other] == m[other]
        }),
{
}

/// Stopping all hands back every registration and leaves none.
pub proof fn law_all_hosts_are_stopped(
    registry: &mut HttpRouteRegistry,
    r: Vec<HttpRouteRegistration>,
    name: Seq<char>,
)
    requires
        old(registry).wf(),
        call_ensures(HttpRouteRegistry::stop_all, (registry,), r),
    ensures
        !final(registry)@.dom().contains(name),
        old(registry)@.dom().contains(name) ==> exists|i: int|
            0 <= i < r@.len() && (#[trigger] r@[i]).hostname@ == name && r@[i].registration_id
                == old(registry)@[name],
{
    if old(registry)@.dom().contains(name) {
        let i = choose|i: int| 0 <= i < r@.len() && (#[trigger] r@[i]).hostname@ == name;
        assert(old(registry)@.dom().contains(r@[i].hostname@));
    }
}

/// A refused registration counts as a rejection unless its host name was unsound, and as
/// an authentication failure exactly for its credentials.
pub proof fn law_refused_registrations_count(
    e: RouteRegistrationError,
    rejection: bool,
    authentication: bool,
)
    requires
        call_ensures(RouteRegistrationError::counts_as_rejection, (e,), rejection),
        call_ensures(
            RouteRegistrationError::counts_as_authentication_failure,
            (e,),
            authentication,
        ),
    ensures
        rejection <==> e is InvalidCredentials || e is NoPolicy,
        authentication <==> e is InvalidCredentials,
{
}

} // verus!
