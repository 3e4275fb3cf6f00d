//! TLS towards the local targets of gRPC routes: server names, trust roots and
//! the negotiated protocol.

use crate::bytes_text::copy_bytes;
use crate::http_backend_pool::{BackendSecurity, SecurityModel, canonical_server_name};
use crate::http_proxy_session::wrap_add;
use vstd::prelude::*;
use vstd::string::*;

verus! {

pub const MAX_TRUST_PROFILE_FILE_BYTES: u64 = 1048576;

pub const MAX_TRUST_PROFILE_CERTIFICATES: usize = 64;

pub const MAX_TRUST_PROFILE_DER_BYTES: usize = 1048576;

/// Why a backend could not be connected to over TLS.
#[derive(Clone, Copy, Debug, PartialEq, Eq, Structural)]
pub enum GrpcBackendTlsError {
    InvalidServerName,
    SystemTrustUnavailable,
    TrustProfileDirectoryMissing,
    TrustProfileUnreadable,
    TrustProfileOutsideDirectory,
    TrustProfileNotRegularFile,
    TrustProfileTooLarge,
    TrustProfileEmpty,
    InvalidTrustCertificate,
    HandshakeTimeout,
    Handshake,
    AlpnMismatch,
}

pub open spec fn tls_error_text(e: GrpcBackendTlsError) -> Seq<char> {
    match e {
        GrpcBackendTlsError::InvalidServerName => "gRPC backend TLS server name is invalid"@,
        GrpcBackendTlsError::SystemTrustUnavailable => "system TLS trust store is unavailable"@,
        GrpcBackendTlsError::TrustProfileDirectoryMissing => "gRPC trust profile directory is not configured"@,
        GrpcBackendTlsError::TrustProfileUnreadable => "gRPC trust profile cannot be read"@,
        GrpcBackendTlsError::TrustProfileOutsideDirectory => "gRPC trust profile resolves outside the configured directory"@,
        GrpcBackendTlsError::TrustProfileNotRegularFile => "gRPC trust profile is not a regular file"@,
        GrpcBackendTlsError::TrustProfileTooLarge => "gRPC trust profile exceeds the configured budget"@,
        GrpcBackendTlsError::TrustProfileEmpty => "gRPC trust profile contains no certificates"@,
        GrpcBackendTlsError::InvalidTrustCertificate => "gRPC trust profile contains an invalid certificate"@,
        GrpcBackendTlsError::HandshakeTimeout => "gRPC backend TLS handshake timed out"@,
        GrpcBackendTlsError::Handshake => "gRPC backend TLS handshake failed"@,
        GrpcBackendTlsError::AlpnMismatch => "gRPC backend did not negotiate ALPN h2"@,
    }
}

impl GrpcBackendTlsError {
    /// The text shown to operators.
    pub fn message(self) -> (r: &'static str)
        ensures
            r@ == tls_error_text(self),
    {
        match self {
            GrpcBackendTlsError::InvalidServerName => "gRPC backend TLS server name is invalid",
            GrpcBackendTlsError::SystemTrustUnavailable => "system TLS trust store is unavailable",
            GrpcBackendTlsError::TrustProfileDirectoryMissing => "gRPC trust profile directory is not configured",
            GrpcBackendTlsError::TrustProfileUnreadable => "gRPC trust profile cannot be read",
            GrpcBackendTlsError::TrustProfileOutsideDirectory => "gRPC trust profile resolves outside the configured directory",
            GrpcBackendTlsError::TrustProfileNotRegularFile => "gRPC trust profile is not a regular file",
            GrpcBackendTlsError::TrustProfileTooLarge => "gRPC trust profile exceeds the configured budget",
            GrpcBackendTlsError::TrustProfileEmpty => "gRPC trust profile contains no certificates",
            GrpcBackendTlsError::InvalidTrustCertificate => "gRPC trust profile contains an invalid certificate",
            GrpcBackendTlsError::HandshakeTimeout => "gRPC backend TLS handshake timed out",
            GrpcBackendTlsError::Handshake => "gRPC backend TLS handshake failed",
            GrpcBackendTlsError::AlpnMismatch => "gRPC backend did not negotiate ALPN h2",
        }
    }
}

/// Whom to trust when a backend presents its certificate.
#[derive(Clone, Debug, PartialEq, Eq)]
pub enum GrpcBackendTrust {
    System,
    /// A file of certificates in the profile directory.
    Profile(String),
}

pub enum TrustModel {
    System,
    Profile(Seq<char>),
}

impl View for GrpcBackendTrust {
    type V = TrustModel;

    open spec fn view(&self) -> TrustModel {
        match self {
            GrpcBackendTrust::System => TrustModel::System,
            GrpcBackendTrust::Profile(profile) => TrustModel::Profile(profile@),
        }
    }
}

impl GrpcBackendTrust {
    /// A copy of the value.
    pub fn duplicate(&self) -> (r: Self)
        ensures
            r@ == self@,
    {
        match self {
            GrpcBackendTrust::System => GrpcBackendTrust::System,
            GrpcBackendTrust::Profile(profile) => GrpcBackendTrust::Profile(profile.clone()),
        }
    }

    /// The name of the file that holds the certificates of a profile.
    pub fn file_name(&self) -> (r: Option<String>)
        ensures
            match self@ {
                TrustModel::System => r is None,
                TrustModel::Profile(profile) => r is Some && r->0@ == profile + ".pem"@,
            },
    {
        match self {
            GrpcBackendTrust::System => None,
            GrpcBackendTrust::Profile(profile) => {
                let mut out = profile.clone();
                out.append(".pem");
                Some(out)
            },
        }
    }
}

#[derive(Clone, Debug, PartialEq, Eq)]
pub struct GrpcBackendTlsPolicy {
    pub server_name: String,
    pub trust: GrpcBackendTrust,
}

/// How a gRPC backend is spoken to.
#[derive(Clone, Debug, PartialEq, Eq)]
pub enum GrpcBackendRuntimeTransport {
    H2c,
    Tls(GrpcBackendTlsPolicy),
}

pub enum TransportModel {
    H2c,
    Tls { server_name: Seq<char>, trust: TrustModel },
}

impl View for GrpcBackendRuntimeTransport {
    type V = TransportModel;

    open spec fn view(&self) -> TransportModel {
        match self {
            GrpcBackendRuntimeTransport::H2c => TransportModel::H2c,
            GrpcBackendRuntimeTransport::Tls(policy) => TransportModel::Tls {
                server_name: policy.server_name@,
                trust: policy.trust@,
            },
        }
    }
}

// ---------------------------------------------------------------------------
// Connectors
// ---------------------------------------------------------------------------

/// Whether `rustls_pki_types` takes a text for the name of a server.
pub uninterp spec fn is_server_name(text: Seq<char>) -> bool;

/// Calls `rustls_pki_types::ServerName::try_from`. Whether a text is a name
/// depends on the text alone.
#[verifier::external_body]
fn accepts_server_name(text: &str) -> (r: bool)
    ensures
        r == is_server_name(text@),
{
    rustls_pki_types::ServerName::try_from(text).is_ok()
}

/// How connections to a backend are secured.
#[derive(Debug)]
pub enum GrpcBackendConnector {
    H2c,
    Tls { security: BackendSecurity, trust: GrpcBackendTrust },
}

pub enum ConnectorModel {
    H2c,
    Tls { security: SecurityModel, trust: TrustModel },
}

impl View for GrpcBackendConnector {
    type V = ConnectorModel;

    open spec fn view(&self) -> ConnectorModel {
        match self {
            GrpcBackendConnector::H2c => ConnectorModel::H2c,
            GrpcBackendConnector::Tls { security, trust } => ConnectorModel::Tls {
                security: security@,
                trust: trust@,
            },
        }
    }
}

/// The connector of a policy, given whether its server name is one and how its
/// trust roots were loaded. Without TLS neither matters.
pub open spec fn connector_of(
    policy: TransportModel,
    name_accepted: bool,
    roots: Result<(), GrpcBackendTlsError>,
) -> Result<ConnectorModel, GrpcBackendTlsError> {
    match policy {
        TransportModel::H2c => Ok(ConnectorModel::H2c),
        TransportModel::Tls { server_name, trust } => if !name_accepted {
            Err(GrpcBackendTlsError::InvalidServerName)
        } else {
            match roots {
                Err(error) => Err(error),
                Ok(_) => match canonical_server_name(server_name) {
                    None => Err(GrpcBackendTlsError::InvalidServerName),
                    Some(name) => Ok(
                        ConnectorModel::Tls {
                            security: SecurityModel::Tls { server_name: name },
                            trust,
                        },
                    ),
                },
            }
        },
    }
}

impl GrpcBackendConnector {
    /// The connector of a policy, given how its trust roots were loaded.
    pub fn from_policy(
        policy: &GrpcBackendRuntimeTransport,
        roots: Result<(), GrpcBackendTlsError>,
    ) -> (r: Result<Self, GrpcBackendTlsError>)
        ensures
            match connector_of(
                policy@,
                policy@ is Tls && is_server_name(policy@->server_name),
                roots,
            ) {
                Ok(c) => r is Ok && r->Ok_0@ == c,
                Err(error) => r is Err && r->Err_0 == error,
            },
    {
        let name_accepted = match policy {
            GrpcBackendRuntimeTransport::H2c => false,
            GrpcBackendRuntimeTransport::Tls(policy) => accepts_server_name(
                policy.server_name.as_str(),
            ),
        };
        Self::from_checked_policy(policy, name_accepted, roots)
    }

    /// The connector of a policy, given whether its server name is one and how
    /// its trust roots were loaded.
    pub fn from_checked_policy(
        policy: &GrpcBackendRuntimeTransport,
        name_accepted: bool,
        roots: Result<(), GrpcBackendTlsError>,
    ) -> (r: Result<Self, GrpcBackendTlsError>)
        ensures
            match connector_of(policy@, name_accepted, roots) {
                Ok(c) => r is Ok && r->Ok_0@ == c,
                Err(error) => r is Err && r->Err_0 == error,
            },
    {
        match policy {
            GrpcBackendRuntimeTransport::H2c => Ok(GrpcBackendConnector::H2c),
            GrpcBackendRuntimeTransport::Tls(policy) => {
                if !name_accepted {
                    return Err(GrpcBackendTlsError::InvalidServerName);
                }
                if let Err(error) = roots {
                    return Err(error);
                }
                match BackendSecurity::tls(policy.server_name.as_str()) {
                    Ok(security) => Ok(
                        GrpcBackendConnector::Tls { security, trust: policy.trust.duplicate() },
                    ),
                    Err(_) => Err(GrpcBackendTlsError::InvalidServerName),
                }
            },
        }
    }

    /// Whether the connections are in the clear, or the server that they are to.
    /// Whom they trust is for [`backend_identity`] to say.
    pub fn security(&self) -> (r: BackendSecurity)
        ensures
            r@ == match self@ {
                ConnectorModel::H2c => SecurityModel::Plaintext,
                ConnectorModel::Tls { security, .. } => security,
            },
    {
        match self {
            GrpcBackendConnector::H2c => BackendSecurity::Plaintext,
            GrpcBackendConnector::Tls { security, .. } => security.duplicate(),
        }
    }

    pub fn transport_name(&self) -> (r: &'static str)
        ensures
            r@ == if self@ is Tls {
                "tls"@
            } else {
                "h2c"@
            },
    {
        match self {
            GrpcBackendConnector::H2c => "h2c",
            GrpcBackendConnector::Tls { .. } => "tls",
        }
    }

    /// Whether the certificates of a profile are trusted and not those of the
    /// system.
    pub fn profile_trust(&self) -> (r: bool)
        ensures
            r == (self@ is Tls && self@->trust is Profile),
    {
        match self {
            GrpcBackendConnector::H2c => false,
            GrpcBackendConnector::Tls { trust, .. } => match trust {
                GrpcBackendTrust::System => false,
                GrpcBackendTrust::Profile(_) => true,
            },
        }
    }

    pub fn is_tls(&self) -> (r: bool)
        ensures
            r == self@ is Tls,
    {
        match self {
            GrpcBackendConnector::H2c => false,
            GrpcBackendConnector::Tls { .. } => true,
        }
    }
}

/// What tells the TLS connections of one backend from those of another: the
/// canonical name of its server and whom they trust.
pub open spec fn identity_of(policy: TransportModel) -> Option<(Seq<char>, TrustModel)> {
    match policy {
        TransportModel::H2c => None,
        TransportModel::Tls { server_name, trust } => match canonical_server_name(server_name) {
            None => None,
            Some(name) => Some((name, trust)),
        },
    }
}

/// What tells the TLS connections of one backend from those of another. There is
/// none without TLS and for a server name that cannot be one.
pub fn backend_identity(policy: &GrpcBackendRuntimeTransport) -> (r: Option<
    (String, GrpcBackendTrust),
>)
    ensures
        match identity_of(policy@) {
            None => r is None,
            Some(identity) => r is Some && (r->0).0@ == identity.0 && (r->0).1@ == identity.1,
        },
{
    match policy {
        GrpcBackendRuntimeTransport::H2c => None,
        GrpcBackendRuntimeTransport::Tls(policy) => match BackendSecurity::tls(
            policy.server_name.as_str(),
        ) {
            Ok(BackendSecurity::Tls { server_name }) => Some(
                (server_name, policy.trust.duplicate()),
            ),
            Ok(BackendSecurity::Plaintext) => None,
            Err(_) => None,
        },
    }
}

/// Backends that trust different certificates have different identities and
/// different connectors, whatever their servers are called.
pub proof fn law_trust_tells_backends_apart(
    a: TransportModel,
    b: TransportModel,
    a_accepted: bool,
    b_accepted: bool,
    a_roots: Result<(), GrpcBackendTlsError>,
    b_roots: Result<(), GrpcBackendTlsError>,
)
    requires
        a is Tls,
        b is Tls,
        a->trust != b->trust,
    ensures
        identity_of(a) is Some ==> identity_of(a) != identity_of(b),
        connector_of(a, a_accepted, a_roots) is Ok ==> connector_of(a, a_accepted, a_roots)
            != connector_of(b, b_accepted, b_roots),
{
}

/// The connector of a policy is for the server and the trust of its identity.
pub proof fn law_connectors_have_the_identity_of_their_policy(
    policy: TransportModel,
    name_accepted: bool,
    roots: Result<(), GrpcBackendTlsError>,
)
    requires
        policy is Tls,
        connector_of(policy, name_accepted, roots) is Ok,
    ensures
        ({
            let connector = connector_of(policy, name_accepted, roots)->Ok_0;
            &&& connector is Tls
            &&& identity_of(policy) is Some
            &&& connector->security == (SecurityModel::Tls {
                server_name: (identity_of(policy)->0).0,
            })
            &&& connector->trust == (identity_of(policy)->0).1
        }),
{
}

// ---------------------------------------------------------------------------
// Handshakes
// ---------------------------------------------------------------------------

#[derive(Clone, Copy, Debug, PartialEq, Eq, Structural)]
pub struct GrpcBackendTlsCounters {
    pub handshakes_total: u64,
    pub handshake_failures_total: u64,
    pub alpn_failures_total: u64,
    pub system_trust_connections_total: u64,
    pub profile_trust_connections_total: u64,
}

impl Default for GrpcBackendTlsCounters {
    fn default() -> (r: Self)
        ensures
            r == (GrpcBackendTlsCounters {
                handshakes_total: 0,
                handshake_failures_total: 0,
                alpn_failures_total: 0,
                system_trust_connections_total: 0,
                profile_trust_connections_total: 0,
            }),
    {
        GrpcBackendTlsCounters {
            handshakes_total: 0,
            handshake_failures_total: 0,
            alpn_failures_total: 0,
            system_trust_connections_total: 0,
            profile_trust_connections_total: 0,
        }
    }
}

/// How a handshake ended.
#[derive(Debug)]
pub enum HandshakeOutcome {
    TimedOut,
    Failed,
    /// With the protocol that was negotiated.
    Completed { alpn: Option<Vec<u8>> },
}

/// Whether a handshake negotiated HTTP/2.
pub open spec fn negotiated_h2(alpn: Option<Vec<u8>>) -> bool {
    alpn is Some && alpn->0@ == seq![104u8, 50]
}

/// What is wrong with a handshake.
pub open spec fn handshake_error(outcome: HandshakeOutcome) -> Option<GrpcBackendTlsError> {
    match outcome {
        HandshakeOutcome::TimedOut => Some(GrpcBackendTlsError::HandshakeTimeout),
        HandshakeOutcome::Failed => Some(GrpcBackendTlsError::Handshake),
        HandshakeOutcome::Completed { alpn } => if negotiated_h2(alpn) {
            None
        } else {
            Some(GrpcBackendTlsError::AlpnMismatch)
        },
    }
}

/// The counters after a handshake.
pub open spec fn counted(
    c: GrpcBackendTlsCounters,
    error: Option<GrpcBackendTlsError>,
    profile_trust: bool,
) -> GrpcBackendTlsCounters {
    match error {
        Some(GrpcBackendTlsError::AlpnMismatch) => GrpcBackendTlsCounters {
            alpn_failures_total: wrap_add(c.alpn_failures_total, 1),
            ..c
        },
        Some(_) => GrpcBackendTlsCounters {
            handshake_failures_total: wrap_add(c.handshake_failures_total, 1),
            ..c
        },
        None => if profile_trust {
            GrpcBackendTlsCounters {
                profile_trust_connections_total: wrap_add(c.profile_trust_connections_total, 1),
                ..c
            }
        } else {
            GrpcBackendTlsCounters {
                system_trust_connections_total: wrap_add(c.system_trust_connections_total, 1),
                ..c
            }
        },
    }
}

impl GrpcBackendTlsCounters {
    /// Counts a handshake that begins.
    pub fn begin_handshake(&mut self)
        ensures
            *final(self) == (GrpcBackendTlsCounters {
                handshakes_total: wrap_add(old(self).handshakes_total, 1),
                ..*old(self)
            }),
    {
        self.handshakes_total = self.handshakes_total.wrapping_add(1);
    }

    /// Judges and counts a handshake that has ended. Only HTTP/2 will do.
    pub fn finish_handshake(&mut self, outcome: &HandshakeOutcome, profile_trust: bool) -> (r:
        Result<(), GrpcBackendTlsError>)
        ensures
            *final(self) == counted(*old(self), handshake_error(*outcome), profile_trust),
            match handshake_error(*outcome) {
                Some(error) => r == Err::<(), GrpcBackendTlsError>(error),
                None => r is Ok,
            },
    {
        match outcome {
            HandshakeOutcome::TimedOut => {
                self.handshake_failures_total = self.handshake_failures_total.wrapping_add(1);
                Err(GrpcBackendTlsError::HandshakeTimeout)
            },
            HandshakeOutcome::Failed => {
                self.handshake_failures_total = self.handshake_failures_total.wrapping_add(1);
                Err(GrpcBackendTlsError::Handshake)
            },
            HandshakeOutcome::Completed { alpn } => {
                let h2 = match alpn {
                    Some(name) => {
                        let r = name.len() == 2 && name[0] == 104 && name[1] == 50;
                        assert(r ==> name@ =~= seq![104u8, 50]);
                        r
                    },
                    None => false,
                };
                if !h2 {
                    self.alpn_failures_total = self.alpn_failures_total.wrapping_add(1);
                    return Err(GrpcBackendTlsError::AlpnMismatch);
                }
                if profile_trust {
                    self.profile_trust_connections_total =
                    self.profile_trust_connections_total.wrapping_add(1);
                } else {
                    self.system_trust_connections_total =
                    self.system_trust_connections_total.wrapping_add(1);
                }
                Ok(())
            },
        }
    }
}

// ---------------------------------------------------------------------------
// Trust roots
// ---------------------------------------------------------------------------

/// What is known of the file of a trust profile; what follows a step that
/// failed is not.
#[derive(Clone, Copy, Debug, PartialEq, Eq, Structural)]
pub struct TrustProfileFile {
    pub directory_configured: bool,
    /// The configured directory was resolved and looked at.
    pub directory_read: bool,
    pub is_directory: bool,
    /// The path of the file was resolved.
    pub file_resolved: bool,
    pub inside_directory: bool,
    /// The file was opened and looked at.
    pub file_opened: bool,
    pub is_regular_file: bool,
    pub length: u64,
}

/// What is wrong with the file of a trust profile. Links out of the directory
/// are not followed.
pub open spec fn profile_file_error(f: TrustProfileFile) -> Option<GrpcBackendTlsError> {
    if !f.directory_configured {
        Some(GrpcBackendTlsError::TrustProfileDirectoryMissing)
    } else if !f.directory_read || !f.is_directory || !f.file_resolved {
        Some(GrpcBackendTlsError::TrustProfileUnreadable)
    } else if !f.inside_directory {
        Some(GrpcBackendTlsError::TrustProfileOutsideDirectory)
    } else if !f.file_opened {
        Some(GrpcBackendTlsError::TrustProfileUnreadable)
    } else if !f.is_regular_file {
        Some(GrpcBackendTlsError::TrustProfileNotRegularFile)
    } else if f.length > MAX_TRUST_PROFILE_FILE_BYTES {
        Some(GrpcBackendTlsError::TrustProfileTooLarge)
    } else {
        None
    }
}

pub fn check_profile_file(f: &TrustProfileFile) -> (r: Result<(), GrpcBackendTlsError>)
    ensures
        match profile_file_error(*f) {
            Some(error) => r == Err::<(), GrpcBackendTlsError>(error),
            None => r is Ok,
        },
{
    if !f.directory_configured {
        return Err(GrpcBackendTlsError::TrustProfileDirectoryMissing);
    }
    if !f.directory_read || !f.is_directory || !f.file_resolved {
        return Err(GrpcBackendTlsError::TrustProfileUnreadable);
    }
    if !f.inside_directory {
        return Err(GrpcBackendTlsError::TrustProfileOutsideDirectory);
    }
    if !f.file_opened {
        return Err(GrpcBackendTlsError::TrustProfileUnreadable);
    }
    if !f.is_regular_file {
        return Err(GrpcBackendTlsError::TrustProfileNotRegularFile);
    }
    if f.length > MAX_TRUST_PROFILE_FILE_BYTES {
        return Err(GrpcBackendTlsError::TrustProfileTooLarge);
    }
    Ok(())
}

/// The DER certificates that `rustls_pki_types` finds in a PEM file, in their
/// order; nothing stands for a section that cannot be read.
pub uninterp spec fn pem_certificates(pem: Seq<u8>) -> Seq<Option<Seq<u8>>>;

pub open spec fn section_models(v: Seq<Option<Vec<u8>>>) -> Seq<Option<Seq<u8>>> {
    v.map_values(
        |x: Option<Vec<u8>>|
            match x {
                Some(der) => Some(der@),
                None => None,
            },
    )
}

/// Calls `pem_reader_iter` of `rustls_pki_types::CertificateDer` on a file that
/// was read whole, and collects what it gives. The sections depend on the bytes
/// alone.
#[verifier::external_body]
fn read_pem(pem: &[u8]) -> (r: Vec<Option<Vec<u8>>>)
    ensures
        section_models(r@) == pem_certificates(pem@),
{
    <rustls_pki_types::CertificateDer as rustls_pki_types::pem::PemObject>::pem_reader_iter(pem)
        .map(|section| section.ok().map(|der| der.as_ref().to_vec()))
        .collect()
}

/// Whether `rustls` takes a DER certificate for a trust root.
pub uninterp spec fn is_trust_root(der: Seq<u8>) -> bool;

/// Calls `add` on an empty `rustls::RootCertStore`. Whether a certificate is
/// taken depends on its bytes alone.
#[verifier::external_body]
fn accepts_trust_root(der: &[u8]) -> (r: bool)
    ensures
        r == is_trust_root(der@),
{
    let certificate = rustls_pki_types::CertificateDer::from(der);
    tokio_rustls::rustls::RootCertStore::empty().add(certificate).is_ok()
}

/// The number of bytes of certificates.
pub open spec fn der_bytes(s: Seq<Option<Seq<u8>>>) -> nat
    decreases s.len(),
{
    if s.len() == 0 {
        0
    } else {
        der_bytes(s.drop_last()) + match s.last() {
            Some(der) => der.len(),
            None => 0,
        }
    }
}

/// What is wrong with the section at `i` of a profile. `accepted` says which
/// certificates are taken for trust roots.
pub open spec fn section_error(s: Seq<Option<Seq<u8>>>, accepted: Seq<bool>, i: int) -> Option<
    GrpcBackendTlsError,
> {
    match s[i] {
        None => Some(GrpcBackendTlsError::TrustProfileUnreadable),
        Some(der) => if i + 1 > MAX_TRUST_PROFILE_CERTIFICATES || der_bytes(s.take(i + 1))
            > MAX_TRUST_PROFILE_DER_BYTES {
            Some(GrpcBackendTlsError::TrustProfileTooLarge)
        } else if !accepted[i] {
            Some(GrpcBackendTlsError::InvalidTrustCertificate)
        } else {
            None
        },
    }
}

/// The first thing wrong with the sections of a profile from `i` on.
pub open spec fn sections_error(s: Seq<Option<Seq<u8>>>, accepted: Seq<bool>, i: int) -> Option<
    GrpcBackendTlsError,
>
    decreases s.len() - i,
{
    if i < 0 || i >= s.len() {
        None
    } else if section_error(s, accepted, i) is Some {
        section_error(s, accepted, i)
    } else {
        sections_error(s, accepted, i + 1)
    }
}

/// The certificates of a profile, or what is wrong with it.
pub open spec fn profile_roots_of(s: Seq<Option<Seq<u8>>>, accepted: Seq<bool>) -> Result<
    Seq<Seq<u8>>,
    GrpcBackendTlsError,
> {
    match sections_error(s, accepted, 0) {
        Some(error) => Err(error),
        None => if s.len() == 0 {
            Err(GrpcBackendTlsError::TrustProfileEmpty)
        } else {
            Ok(s.map_values(|x: Option<Seq<u8>>| x->0))
        },
    }
}

pub open spec fn der_models(v: Seq<Vec<u8>>) -> Seq<Seq<u8>> {
    v.map_values(|x: Vec<u8>| x@)
}

/// Which sections are taken for trust roots.
pub open spec fn accepted_sections(s: Seq<Option<Seq<u8>>>) -> Seq<bool> {
    s.map_values(|x: Option<Seq<u8>>| x is Some && is_trust_root(x->0))
}

/// Judges the sections of a profile. `accepted` says which of them are taken
/// for trust roots.
pub fn admit_sections(sections: &Vec<Option<Vec<u8>>>, accepted: &Vec<bool>) -> (r: Result<
    Vec<Vec<u8>>,
    GrpcBackendTlsError,
>)
    requires
        accepted@.len() == sections@.len(),
    ensures
        match profile_roots_of(section_models(sections@), accepted@) {
            Ok(ders) => r is Ok && der_models(r->Ok_0@) == ders,
            Err(error) => r is Err && r->Err_0 == error,
        },
{
    let ghost s = section_models(sections@);
    let mut out: Vec<Vec<u8>> = Vec::new();
    let mut total: usize = 0;
    let mut i: usize = 0;
    assert(der_bytes(s.take(0)) == 0);
    while i < sections.len()
        invariant
            i <= sections@.len(),
            s == section_models(sections@),
            accepted@.len() == sections@.len(),
            i <= MAX_TRUST_PROFILE_CERTIFICATES,
            total <= MAX_TRUST_PROFILE_DER_BYTES,
            total == der_bytes(s.take(i as int)),
            out@.len() == i,
            forall|j: int| 0 <= j < i ==> (#[trigger] out@[j])@ == s[j]->0,
            sections_error(s, accepted@, 0) == sections_error(s, accepted@, i as int),
        decreases sections@.len() - i,
    {
        assert(s.take(i + 1).drop_last() =~= s.take(i as int));
        match &sections[i] {
            None => {
                assert(s[i as int] is None);
                return Err(GrpcBackendTlsError::TrustProfileUnreadable);
            },
            Some(der) => {
                assert(s[i as int] == Some(der@));
                if i + 1 > MAX_TRUST_PROFILE_CERTIFICATES || der.len()
                    > MAX_TRUST_PROFILE_DER_BYTES - total {
                    return Err(GrpcBackendTlsError::TrustProfileTooLarge);
                }
                total = total + der.len();
                if !accepted[i] {
                    return Err(GrpcBackendTlsError::InvalidTrustCertificate);
                }
                let copy = copy_bytes(der.as_slice(), 0, der.len());
                assert(copy@ =~= der@);
                out.push(copy);
            },
        }
        i = i + 1;
    }
    if out.len() == 0 {
        return Err(GrpcBackendTlsError::TrustProfileEmpty);
    }
    assert(der_models(out@) =~= s.map_values(|x: Option<Seq<u8>>| x->0));
    Ok(out)
}

/// The certificates of a profile whose file was read whole.
pub fn profile_roots(pem: &[u8]) -> (r: Result<Vec<Vec<u8>>, GrpcBackendTlsError>)
    ensures
        match profile_roots_of(
            pem_certificates(pem@),
            accepted_sections(pem_certificates(pem@)),
        ) {
            Ok(ders) => r is Ok && der_models(r->Ok_0@) == ders,
            Err(error) => r is Err && r->Err_0 == error,
        },
{
    let sections = read_pem(pem);
    let ghost s = section_models(sections@);
    let mut accepted: Vec<bool> = Vec::new();
    let mut i: usize = 0;
    while i < sections.len()
        invariant
            i <= sections@.len(),
            s == section_models(sections@),
            accepted@.len() == i,
            forall|j: int| 0 <= j < i ==> #[trigger] accepted@[j] == accepted_sections(s)[j],
        decreases sections@.len() - i,
    {
        let taken = match &sections[i] {
            None => false,
            Some(der) => accepts_trust_root(der.as_slice()),
        };
        assert(taken == accepted_sections(s)[i as int]);
        accepted.push(taken);
        i = i + 1;
    }
    assert(accepted@ =~= accepted_sections(s));
    admit_sections(&sections, &accepted)
}

/// What is wrong with the system's trust store, given which of its certificates
/// are taken for trust roots.
pub open spec fn system_roots_error(accepted: Seq<bool>) -> Option<GrpcBackendTlsError> {
    if accepted.contains(false) {
        Some(GrpcBackendTlsError::InvalidTrustCertificate)
    } else if accepted.len() == 0 {
        Some(GrpcBackendTlsError::SystemTrustUnavailable)
    } else {
        None
    }
}

/// Judges the certificates of the system's trust store.
pub fn check_system_roots(ders: &Vec<Vec<u8>>) -> (r: Result<(), GrpcBackendTlsError>)
    ensures
        match system_roots_error(
            der_models(ders@).map_values(|der: Seq<u8>| is_trust_root(der)),
        ) {
            Some(error) => r == Err::<(), GrpcBackendTlsError>(error),
            None => r is Ok,
        },
{
    let ghost s = der_models(ders@).map_values(|der: Seq<u8>| is_trust_root(der));
    let mut i: usize = 0;
    while i < ders.len()
        invariant
            i <= ders@.len(),
            s == der_models(ders@).map_values(|der: Seq<u8>| is_trust_root(der)),
            forall|j: int| 0 <= j < i ==> #[trigger] s[j],
        decreases ders@.len() - i,
    {
        if !accepts_trust_root(ders[i].as_slice()) {
            assert(s[i as int] == false);
            return Err(GrpcBackendTlsError::InvalidTrustCertificate);
        }
        assert(s[i as int]);
        i = i + 1;
    }
    assert(!s.contains(false));
    if ders.len() == 0 {
        return Err(GrpcBackendTlsError::SystemTrustUnavailable);
    }
    Ok(())
}

// ---------------------------------------------------------------------------
// Laws
// ---------------------------------------------------------------------------

/// Every handshake that ends moves exactly one of the other counters, and only
/// a successful one moves a counter of trust.
pub proof fn law_handshakes_are_counted_once(
    c: GrpcBackendTlsCounters,
    outcome: HandshakeOutcome,
    profile_trust: bool,
)
    ensures
        ({
            let n = counted(c, handshake_error(outcome), profile_trust);
            let failed = n.handshake_failures_total == wrap_add(c.handshake_failures_total, 1);
            let mismatched = n.alpn_failures_total == wrap_add(c.alpn_failures_total, 1);
            let system = n.system_trust_connections_total == wrap_add(
                c.system_trust_connections_total,
                1,
            );
            let profile = n.profile_trust_connections_total == wrap_add(
                c.profile_trust_connections_total,
                1,
            );
            &&& n.handshakes_total == c.handshakes_total
            &&& failed == (outcome is TimedOut || outcome is Failed)
            &&& mismatched == (outcome is Completed && !negotiated_h2(outcome->alpn))
            &&& system == (outcome is Completed && negotiated_h2(outcome->alpn) && !profile_trust)
            &&& profile == (outcome is Completed && negotiated_h2(outcome->alpn) && profile_trust)
        }),
{
}

/// Trust is loaded fail-closed: a profile that was accepted is within its
/// budget, and every one of its certificates is a trust root.
pub proof fn law_accepted_profiles_are_within_budget(
    s: Seq<Option<Seq<u8>>>,
    accepted: Seq<bool>,
)
    requires
        accepted.len() == s.len(),
        profile_roots_of(s, accepted) is Ok,
    ensures
        0 < s.len() <= MAX_TRUST_PROFILE_CERTIFICATES,
        der_bytes(s) <= MAX_TRUST_PROFILE_DER_BYTES,
        forall|i: int| 0 <= i < s.len() ==> (#[trigger] s[i]) is Some && accepted[i],
{
    lemma_no_section_error(s, accepted, 0);
    let last = s.len() - 1;
    assert(section_error(s, accepted, last) is None);
    assert(s.take(last + 1) =~= s);
    assert forall|i: int| 0 <= i < s.len() implies (#[trigger] s[i]) is Some && accepted[i] by {
        assert(section_error(s, accepted, i) is None);
    }
}

proof fn lemma_no_section_error(s: Seq<Option<Seq<u8>>>, accepted: Seq<bool>, i: int)
    requires
        0 <= i,
        sections_error(s, accepted, i) is None,
    ensures
        forall|j: int| i <= j < s.len() ==> section_error(s, accepted, j) is None,
    decreases s.len() - i,
{
    if i < s.len() {
        lemma_no_section_error(s, accepted, i + 1);
    }
}

/// Without TLS a connector is plaintext, whatever became of the trust roots.
pub proof fn law_h2c_needs_no_trust(name_accepted: bool, roots: Result<(), GrpcBackendTlsError>)
    ensures
        connector_of(TransportModel::H2c, name_accepted, roots) == Ok::<
            ConnectorModel,
            GrpcBackendTlsError,
        >(ConnectorModel::H2c),
{
}

/// A backend over TLS is connected to exactly if its server name is sound and accepted
/// and the trust could be loaded; it then is known by the normal form of its name, and
/// by its trust. What is answered otherwise is the first that is missing.
pub proof fn law_tls_takes_a_name_and_trust(
    policy: TransportModel,
    name_accepted: bool,
    roots: Result<(), GrpcBackendTlsError>,
)
    ensures
        ({
            let r = connector_of(policy, name_accepted, roots);
            let name = canonical_server_name(policy->server_name);
            &&& policy is H2c ==> r is Ok && r->Ok_0 is H2c
            &&& policy is Tls ==> {
                &&& r is Ok <==> name_accepted && roots is Ok && name is Some
                &&& !name_accepted ==> r->Err_0 is InvalidServerName
                &&& name_accepted && roots is Err ==> r->Err_0 == roots->Err_0
                &&& name_accepted && roots is Ok && name is None ==> r->Err_0 is InvalidServerName
                &&& r is Ok ==> r->Ok_0 is Tls && r->Ok_0->trust == policy->trust
                    && r->Ok_0->security == (SecurityModel::Tls { server_name: name->0 })
            }
        }),
{
}

/// A handshake succeeds exactly if it completed and HTTP/2 was negotiated, and what
/// went wrong otherwise is told.
pub proof fn law_handshakes_negotiate_http2(outcome: HandshakeOutcome)
    ensures
        ({
            let e = handshake_error(outcome);
            let alpn = outcome->alpn;
            let h2 = alpn is Some && alpn->0@.len() == 2 && alpn->0@[0] == 0x68 && alpn->0@[1]
                == 0x32;
            &&& e is None <==> outcome is Completed && h2
            &&& outcome is TimedOut ==> e->0 is HandshakeTimeout
            &&& outcome is Failed ==> e->0 is Handshake
            &&& outcome is Completed && !h2 ==> e->0 is AlpnMismatch
        }),
{
    if outcome is Completed && outcome->alpn is Some && outcome->alpn->0@.len() == 2
        && outcome->alpn->0@[0] == 0x68 && outcome->alpn->0@[1] == 0x32 {
        assert(outcome->alpn->0@ =~= seq![104u8, 50]);
    }
}

/// A trust profile is read exactly if its directory is configured and readable, the
/// file lies inside it, is a regular file, and has at most 1048576 bytes.
pub proof fn law_trust_profiles_are_regular_files_of_the_directory(f: TrustProfileFile)
    ensures
        ({
            let e = profile_file_error(f);
            let found = f.directory_read && f.is_directory && f.file_resolved;
            &&& e is None <==> f.directory_configured && found && f.inside_directory
                && f.file_opened && f.is_regular_file && f.length <= 1048576
            &&& !f.directory_configured ==> e->0 is TrustProfileDirectoryMissing
            &&& f.directory_configured && !found ==> e->0 is TrustProfileUnreadable
            &&& f.directory_configured && found && !f.inside_directory ==> e->0
                is TrustProfileOutsideDirectory
            &&& f.directory_configured && found && f.inside_directory && !f.file_opened ==> e->0
                is TrustProfileUnreadable
            &&& f.directory_configured && found && f.inside_directory && f.file_opened
                && !f.is_regular_file ==> e->0 is TrustProfileNotRegularFile
            &&& f.directory_configured && found && f.inside_directory && f.file_opened
                && f.is_regular_file && f.length > 1048576 ==> e->0 is TrustProfileTooLarge
        }),
{
}

/// A certificate of a profile is refused exactly if it cannot be read, if it is beyond
/// the 64th or takes the profile beyond 1048576 bytes, or if it is no trust root.
pub proof fn law_profile_certificates_are_bounded(
    s: Seq<Option<Seq<u8>>>,
    accepted: Seq<bool>,
    i: int,
)
    requires
        0 <= i < s.len(),
    ensures
        ({
            let e = section_error(s, accepted, i);
            let big = i >= 64 || der_bytes(s.take(i + 1)) > 1048576;
            &&& e is None <==> s[i] is Some && !big && accepted[i]
            &&& s[i] is None ==> e->0 is TrustProfileUnreadable
            &&& s[i] is Some && big ==> e->0 is TrustProfileTooLarge
            &&& s[i] is Some && !big && !accepted[i] ==> e->0 is InvalidTrustCertificate
        }),
{
}

/// The bytes of a profile are those of all its certificates.
pub proof fn law_profile_bytes_add_up(s: Seq<Option<Seq<u8>>>, der: Seq<u8>)
    ensures
        der_bytes(Seq::empty()) == 0,
        der_bytes(s.push(Some(der))) == der_bytes(s) + der.len(),
        der_bytes(s.push(None)) == der_bytes(s),
{
    assert(s.push(Some(der)).drop_last() =~= s);
    assert(s.push(None::<Seq<u8>>).drop_last() =~= s);
}

/// A profile gives its certificates, all of them in their order, exactly if it has some
/// and none is refused; otherwise what is wrong with the first refused one is told.
pub proof fn law_profiles_give_all_their_certificates(
    s: Seq<Option<Seq<u8>>>,
    accepted: Seq<bool>,
    i: int,
)
    ensures
        ({
            let r = profile_roots_of(s, accepted);
            &&& r is Ok <==> s.len() > 0 && forall|j: int|
                0 <= j < s.len() ==> (#[trigger] section_error(s, accepted, j)) is None
            &&& s.len() == 0 ==> r->Err_0 is TrustProfileEmpty
            &&& 0 <= i < s.len() && section_error(s, accepted, i) is Some && (forall|j: int|
                0 <= j < i ==> (#[trigger] section_error(s, accepted, j)) is None) ==> r->Err_0
                == section_error(s, accepted, i)->0
            &&& r is Ok ==> r->Ok_0.len() == s.len()
            &&& r is Ok && 0 <= i < s.len() ==> Some(r->Ok_0[i]) == s[i]
        }),
{
    lemma_sections_from(s, accepted, 0, i);
    if profile_roots_of(s, accepted) is Ok && 0 <= i < s.len() {
        assert(section_error(s, accepted, i) is None);
    }
}

proof fn lemma_sections_from(s: Seq<Option<Seq<u8>>>, accepted: Seq<bool>, from: int, i: int)
    requires
        0 <= from,
    ensures
        sections_error(s, accepted, from) is None <==> forall|j: int|
            from <= j < s.len() ==> (#[trigger] section_error(s, accepted, j)) is None,
        from <= i < s.len() && section_error(s, accepted, i) is Some && (forall|j: int|
            from <= j < i ==> (#[trigger] section_error(s, accepted, j)) is None)
            ==> sections_error(s, accepted, from) == section_error(s, accepted, i),
    decreases s.len() - from,
{
    if from < s.len() {
        lemma_sections_from(s, accepted, from + 1, i);
        if section_error(s, accepted, from) is Some {
            assert(!(section_error(s, accepted, from) is None));
        }
    }
}

/// The trust of the system is usable exactly if it has certificates and all of them are
/// trust roots.
pub proof fn law_system_trust_is_sound(accepted: Seq<bool>)
    ensures
        ({
            let e = system_roots_error(accepted);
            let all = forall|i: int| 0 <= i < accepted.len() ==> #[trigger] accepted[i];
            &&& e is None <==> accepted.len() > 0 && all
            &&& !all ==> e->0 is InvalidTrustCertificate
            &&& accepted.len() == 0 ==> e->0 is SystemTrustUnavailable
        }),
{
    if accepted.contains(false) {
        let i = choose|i: int| 0 <= i < accepted.len() && accepted[i] == false;
        assert(!accepted[i]);
    } else {
        assert forall|i: int| 0 <= i < accepted.len() implies #[trigger] accepted[i] by {
            if !accepted[i] {
                assert(accepted.contains(false));
            }
        }
    }
}

/// A backend without TLS is plaintext and called h2c; one with TLS has the security of
/// its name, and a profile is told from the trust of the system.
pub proof fn law_connectors_tell_their_transport(
    connector: GrpcBackendConnector,
    security: BackendSecurity,
    name: &'static str,
    profile: bool,
    tls: bool,
)
    requires
        call_ensures(GrpcBackendConnector::security, (&connector,), security),
        call_ensures(GrpcBackendConnector::transport_name, (&connector,), name),
        call_ensures(GrpcBackendConnector::profile_trust, (&connector,), profile),
        call_ensures(GrpcBackendConnector::is_tls, (&connector,), tls),
    ensures
        connector@ is H2c ==> security@ is Plaintext && name@ == "h2c"@ && !profile && !tls,
        connector@ is Tls ==> security@ == connector@->security && name@ == "tls"@ && tls,
        connector@ is Tls ==> (profile <==> connector@->trust is Profile),
{
}

/// Every handshake that begins is counted.
pub proof fn law_begun_handshakes_are_counted(c: &mut GrpcBackendTlsCounters)
    requires
        call_ensures(GrpcBackendTlsCounters::begin_handshake, (c,), ()),
    ensures
        final(c).handshakes_total == old(c).handshakes_total + 1 || old(c).handshakes_total
            == 0xffff_ffff_ffff_ffff && final(c).handshakes_total == 0,
        *final(c) == (GrpcBackendTlsCounters {
            handshakes_total: final(c).handshakes_total,
            ..*old(c)
        }),
{
}

/// A profile is read from the file of its name with the ending of its kind.
pub proof fn law_profiles_are_files(trust: GrpcBackendTrust, r: Option<String>)
    requires
        call_ensures(GrpcBackendTrust::file_name, (&trust,), r),
    ensures
        r is Some <==> trust@ is Profile,
        r is Some ==> r->0@ == trust@->Profile_0 + ".pem"@,
{
}

} // verus!
