//! Lifecycle state of pooled HTTP backend connections.
//!
//! The pool holds no sockets. It keeps, per connection, the origin it may be
//! used for, how many streams it carries and when it was last used, and decides
//! which connection serves a request, which one makes room for a new one and
//! when one has to go. Times are nanoseconds on one monotonic clock.

use crate::host_name::{dns_name, normalize_dns_name};
use crate::ip_address::{
    ip_address, ip_text, ip_to_text, parse_ip, parse_socket, socket_address, socket_text,
    socket_to_text,
};
use crate::number::{decimal, parse_number, parsed_number, push_decimal};
use crate::text::{
    chars_of, control, fits_utf8, has_char, is_control, is_white_space, last_index, rfind, slice_of,
    string_of, trim, trimmed, utf8_len, white_space,
};
use std::collections::HashMap;
use vstd::prelude::*;
use vstd::std_specs::hash::*;
use vstd::std_specs::iter::IteratorSpec;
use vstd::string::*;

verus! {

broadcast use vstd::std_specs::hash::group_hash_axioms;

// ---------------------------------------------------------------------------
// Origins
// ---------------------------------------------------------------------------

/// The HTTP protocol that was negotiated for a connection.
#[derive(Clone, Copy, Debug, Eq, Hash, PartialEq, Structural)]
pub enum BackendProtocol {
    Http1,
    Http2,
}

/// Whether the backend transport adds TLS.
#[derive(Clone, Debug, Eq, Hash, PartialEq)]
pub enum BackendSecurity {
    Plaintext,
    Tls { server_name: String },
}

/// What a [`BackendSecurity`] says.
pub enum SecurityModel {
    Plaintext,
    Tls { server_name: Seq<char> },
}

impl View for BackendSecurity {
    type V = SecurityModel;

    open spec fn view(&self) -> SecurityModel {
        match self {
            BackendSecurity::Plaintext => SecurityModel::Plaintext,
            BackendSecurity::Tls { server_name } => SecurityModel::Tls { server_name: server_name@ },
        }
    }
}

/// Why an origin could not be formed.
#[derive(Clone, Copy, Debug, Eq, PartialEq, Structural)]
pub enum OriginKeyError {
    InvalidAuthority,
    InvalidServerName,
}

impl OriginKeyError {
    /// The text shown to operators.
    pub fn message(self) -> (r: &'static str)
        ensures
            r@ == match self {
                OriginKeyError::InvalidAuthority => "HTTP backend authority is invalid"@,
                OriginKeyError::InvalidServerName => "HTTP backend TLS server name is invalid"@,
            },
    {
        match self {
            OriginKeyError::InvalidAuthority => "HTTP backend authority is invalid",
            OriginKeyError::InvalidServerName => "HTTP backend TLS server name is invalid",
        }
    }
}

/// A character that may not stand in an authority.
pub open spec fn authority_breaker(c: char) -> bool {
    white_space(c) || control(c) || c == '/' || c == '\\' || c == '?' || c == '#' || c == '@'
}

/// The canonical `host:port` of an authority, where it has one.
///
/// A socket address is rewritten in its usual form; any other authority is a
/// DNS name and a port other than zero.
pub open spec fn canonical_authority(value: Seq<char>) -> Option<Seq<char>> {
    let s = trim(value);
    let colon = last_index(s, ':');
    if s.len() == 0 || utf8_len(s) > 255 || exists|i: int|
        0 <= i < s.len() && authority_breaker(#[trigger] s[i]) {
        None
    } else if socket_address(s) is Some {
        Some(socket_text(socket_address(s)->0))
    } else if colon < 0 || s.take(colon).contains(':') {
        None
    } else {
        match (parsed_number(s.skip(colon + 1), 10, 65535), dns_name(s.take(colon))) {
            (Some(port), Some(host)) => if port != 0 {
                Some(host + seq![':'] + decimal(port))
            } else {
                None
            },
            _ => None,
        }
    }
}

/// The canonical TLS server name: an IP address or a DNS name.
pub open spec fn canonical_server_name(value: Seq<char>) -> Option<Seq<char>> {
    let s = trim(value);
    match ip_address(s) {
        Some(address) => Some(ip_text(address)),
        None => dns_name(s),
    }
}

impl BackendSecurity {
    /// TLS towards a server name.
    pub fn tls(server_name: &str) -> (r: Result<Self, OriginKeyError>)
        ensures
            match canonical_server_name(server_name@) {
                Some(name) => r is Ok && r->Ok_0@ == (SecurityModel::Tls { server_name: name }),
                None => r == Err::<Self, OriginKeyError>(OriginKeyError::InvalidServerName),
            },
    {
        match normalize_server_name(server_name) {
            Ok(name) => Ok(BackendSecurity::Tls { server_name: name }),
            Err(error) => Err(error),
        }
    }

    fn same(&self, other: &Self) -> (r: bool)
        ensures
            r == (self@ == other@),
    {
        match (self, other) {
            (BackendSecurity::Plaintext, BackendSecurity::Plaintext) => true,
            (
                BackendSecurity::Tls { server_name: a },
                BackendSecurity::Tls { server_name: b },
            ) => *a == *b,
            _ => false,
        }
    }

    pub(crate) fn duplicate(&self) -> (r: Self)
        ensures
            r@ == self@,
    {
        match self {
            BackendSecurity::Plaintext => BackendSecurity::Plaintext,
            BackendSecurity::Tls { server_name } => BackendSecurity::Tls {
                server_name: server_name.clone(),
            },
        }
    }
}

/// The key under which backend connections are shared.
///
/// Connections of different policies, targets, HTTP versions or TLS identities
/// are never shared.
#[derive(Clone, Debug, Eq, Hash, PartialEq)]
pub struct OriginKey {
    policy_id: u128,
    authority: String,
    protocol: BackendProtocol,
    security: BackendSecurity,
}

/// What an [`OriginKey`] says.
pub struct OriginModel {
    pub policy_id: u128,
    pub authority: Seq<char>,
    pub protocol: BackendProtocol,
    pub security: SecurityModel,
}

impl View for OriginKey {
    type V = OriginModel;

    closed spec fn view(&self) -> OriginModel {
        OriginModel {
            policy_id: self.policy_id,
            authority: self.authority@,
            protocol: self.protocol,
            security: self.security@,
        }
    }
}

impl OriginKey {
    pub fn new(
        policy_id: u128,
        authority: &str,
        protocol: BackendProtocol,
        security: BackendSecurity,
    ) -> (r: Result<Self, OriginKeyError>)
        ensures
            match canonical_authority(authority@) {
                Some(canonical) => r is Ok && r->Ok_0@ == (OriginModel {
                    policy_id,
                    authority: canonical,
                    protocol,
                    security: security@,
                }),
                None => r == Err::<Self, OriginKeyError>(OriginKeyError::InvalidAuthority),
            },
    {
        match normalize_authority(authority) {
            Ok(authority) => Ok(OriginKey { policy_id, authority, protocol, security }),
            Err(error) => Err(error),
        }
    }

    pub fn policy_id(&self) -> (r: u128)
        ensures
            r == self@.policy_id,
    {
        self.policy_id
    }

    pub fn authority(&self) -> (r: &str)
        ensures
            r@ == self@.authority,
    {
        self.authority.as_str()
    }

    pub fn protocol(&self) -> (r: BackendProtocol)
        ensures
            r == self@.protocol,
    {
        self.protocol
    }

    pub fn security(&self) -> (r: &BackendSecurity)
        ensures
            r@ == self@.security,
    {
        &self.security
    }

    /// Whether two keys denote the same origin.
    pub fn same(&self, other: &Self) -> (r: bool)
        ensures
            r == (self@ == other@),
    {
        self.policy_id == other.policy_id && self.authority == other.authority && self.protocol
            == other.protocol && self.security.same(&other.security)
    }

    /// A key that denotes the same origin.
    pub fn duplicate(&self) -> (r: Self)
        ensures
            r@ == self@,
    {
        OriginKey {
            policy_id: self.policy_id,
            authority: self.authority.clone(),
            protocol: self.protocol,
            security: self.security.duplicate(),
        }
    }
}

fn breaks_authority(s: &[char]) -> (r: bool)
    ensures
        r == exists|i: int| 0 <= i < s@.len() && authority_breaker(#[trigger] s@[i]),
{
    let mut i: usize = 0;
    while i < s.len()
        invariant
            i <= s@.len(),
            forall|j: int| 0 <= j < i ==> !authority_breaker(#[trigger] s@[j]),
        decreases s@.len() - i,
    {
        let c = s[i];
        if is_white_space(c) || is_control(c) || c == '/' || c == '\\' || c == '?' || c == '#' || c
            == '@' {
            assert(authority_breaker(s@[i as int]));
            return true;
        }
        i = i + 1;
    }
    false
}

fn normalize_authority(value: &str) -> (r: Result<String, OriginKeyError>)
    ensures
        match canonical_authority(value@) {
            Some(canonical) => r is Ok && r->Ok_0@ == canonical,
            None => r == Err::<String, OriginKeyError>(OriginKeyError::InvalidAuthority),
        },
{
    let all = chars_of(value);
    let s = trimmed(&all);
    if s.len() == 0 || !fits_utf8(&s, 255) || breaks_authority(&s) {
        return Err(OriginKeyError::InvalidAuthority);
    }
    if let Some(socket) = parse_socket(&s) {
        return Ok(socket_to_text(&socket));
    }
    let colon: usize = match rfind(&s, ':') {
        Some(colon) => colon,
        None => {
            return Err(OriginKeyError::InvalidAuthority);
        },
    };
    let host = slice_of(&s, 0, colon);
    let digits = slice_of(&s, colon + 1, s.len());
    assert(host@ =~= s@.take(colon as int));
    assert(digits@ =~= s@.skip(colon + 1));
    if has_char(&host, ':') {
        return Err(OriginKeyError::InvalidAuthority);
    }
    match (parse_number(&digits, 10, 65535), normalize_dns_name(&host)) {
        (Some(port), Some(name)) => {
            if port == 0 {
                return Err(OriginKeyError::InvalidAuthority);
            }
            let mut out = string_of(&name);
            out.push(':');
            push_decimal(&mut out, port);
            assert(out@ =~= name@ + seq![':'] + decimal(port as nat));
            Ok(out)
        },
        _ => Err(OriginKeyError::InvalidAuthority),
    }
}

fn normalize_server_name(value: &str) -> (r: Result<String, OriginKeyError>)
    ensures
        match canonical_server_name(value@) {
            Some(name) => r is Ok && r->Ok_0@ == name,
            None => r == Err::<String, OriginKeyError>(OriginKeyError::InvalidServerName),
        },
{
    let all = chars_of(value);
    let s = trimmed(&all);
    if let Some(address) = parse_ip(&s) {
        return Ok(ip_to_text(&address));
    }
    match normalize_dns_name(&s) {
        Some(name) => Ok(string_of(&name)),
        None => Err(OriginKeyError::InvalidServerName),
    }
}

// ---------------------------------------------------------------------------
// Limits
// ---------------------------------------------------------------------------

/// How a connection can be lent out.
#[derive(Clone, Copy, Debug, Eq, PartialEq, Structural)]
pub enum BackendConnectionMode {
    /// One request at a time.
    Exclusive,
    /// Several concurrent streams.
    Multiplexed { max_concurrent_streams: usize },
}

impl BackendConnectionMode {
    /// How many streams the connection carries at most.
    pub open spec fn spec_capacity(self) -> nat {
        match self {
            BackendConnectionMode::Exclusive => 1,
            BackendConnectionMode::Multiplexed { max_concurrent_streams } => {
                max_concurrent_streams as nat
            },
        }
    }

    /// A connection carries at least one stream.
    pub open spec fn wf(self) -> bool {
        self.spec_capacity() > 0
    }

    pub fn capacity(self) -> (r: usize)
        ensures
            r == self.spec_capacity(),
    {
        match self {
            BackendConnectionMode::Exclusive => 1,
            BackendConnectionMode::Multiplexed { max_concurrent_streams } => max_concurrent_streams,
        }
    }
}

/// Capacity limits of a pool and the idle time after which a connection goes.
#[derive(Clone, Copy, Debug, Eq, PartialEq, Structural)]
pub struct BackendPoolLimits {
    pub max_connections: usize,
    pub max_connections_per_origin: usize,
    pub idle_timeout_nanos: u128,
}

#[derive(Clone, Copy, Debug, Eq, PartialEq, Structural)]
pub enum BackendPoolLimitsError {
    OriginLimitExceedsGlobalLimit,
    ZeroIdleTimeout,
}

impl BackendPoolLimitsError {
    /// The text shown to operators.
    pub fn message(self) -> (r: &'static str)
        ensures
            r@ == match self {
                BackendPoolLimitsError::OriginLimitExceedsGlobalLimit => {
                    "per-origin HTTP backend limit exceeds the global limit"@
                },
                BackendPoolLimitsError::ZeroIdleTimeout => {
                    "HTTP backend idle timeout must be greater than zero"@
                },
            },
    {
        match self {
            BackendPoolLimitsError::OriginLimitExceedsGlobalLimit => {
                "per-origin HTTP backend limit exceeds the global limit"
            },
            BackendPoolLimitsError::ZeroIdleTimeout => {
                "HTTP backend idle timeout must be greater than zero"
            },
        }
    }
}

impl BackendPoolLimits {
    /// Both counts are positive.
    pub open spec fn wf(self) -> bool {
        self.max_connections > 0 && self.max_connections_per_origin > 0
    }

    pub fn new(
        max_connections: usize,
        max_connections_per_origin: usize,
        idle_timeout_nanos: u128,
    ) -> (r: Result<Self, BackendPoolLimitsError>)
        requires
            max_connections > 0,
            max_connections_per_origin > 0,
        ensures
            r == if max_connections_per_origin > max_connections {
                Err::<Self, BackendPoolLimitsError>(
                    BackendPoolLimitsError::OriginLimitExceedsGlobalLimit,
                )
            } else if idle_timeout_nanos == 0 {
                Err(BackendPoolLimitsError::ZeroIdleTimeout)
            } else {
                Ok(
                    (BackendPoolLimits {
                        max_connections,
                        max_connections_per_origin,
                        idle_timeout_nanos,
                    }),
                )
            },
            r matches Ok(limits) ==> limits.wf(),
    {
        if max_connections_per_origin > max_connections {
            return Err(BackendPoolLimitsError::OriginLimitExceedsGlobalLimit);
        }
        if idle_timeout_nanos == 0 {
            return Err(BackendPoolLimitsError::ZeroIdleTimeout);
        }
        Ok(BackendPoolLimits { max_connections, max_connections_per_origin, idle_timeout_nanos })
    }
}

impl Default for BackendPoolLimits {
    fn default() -> (r: Self)
        ensures
            r == (BackendPoolLimits {
                max_connections: 512,
                max_connections_per_origin: 8,
                idle_timeout_nanos: 30_000_000_000,
            }),
            r.wf(),
    {
        BackendPoolLimits {
            max_connections: 512,
            max_connections_per_origin: 8,
            idle_timeout_nanos: 30_000_000_000,
        }
    }
}

// ---------------------------------------------------------------------------
// What the pool hands out
// ---------------------------------------------------------------------------

/// The stable identifier of a pooled connection.
#[derive(Clone, Copy, Debug, Eq, Hash, Ord, PartialEq, PartialOrd, Structural)]
pub struct BackendConnectionId(u64);

impl View for BackendConnectionId {
    type V = u64;

    closed spec fn view(&self) -> u64 {
        self.0
    }
}

impl BackendConnectionId {
    pub fn get(self) -> (r: u64)
        ensures
            r == self@,
    {
        self.0
    }

}

/// Why a connection left the pool.
#[derive(Clone, Copy, Debug, Eq, PartialEq, Structural)]
pub enum BackendRemovalReason {
    GlobalCapacity,
    OriginCapacity,
    IdleTimeout,
    PolicyInvalidated,
    Disconnected,
    GoAway,
}

#[derive(Clone, Debug, Eq, PartialEq)]
pub struct BackendRemoval {
    pub connection_id: BackendConnectionId,
    pub origin: OriginKey,
    pub reason: BackendRemovalReason,
}

pub struct RemovalModel {
    pub id: u64,
    pub origin: OriginModel,
    pub reason: BackendRemovalReason,
}

impl View for BackendRemoval {
    type V = RemovalModel;

    open spec fn view(&self) -> RemovalModel {
        RemovalModel { id: self.connection_id@, origin: self.origin@, reason: self.reason }
    }
}

#[derive(Clone, Debug, Eq, PartialEq)]
pub struct BackendRegistration {
    pub connection_id: BackendConnectionId,
    pub removals: Vec<BackendRemoval>,
}

#[derive(Clone, Debug, Eq, PartialEq)]
pub struct BackendLease {
    pub connection_id: BackendConnectionId,
    pub origin: OriginKey,
}

#[derive(Clone, Copy, Debug, Eq, PartialEq, Structural)]
pub enum BackendRegisterError {
    CapacityBusy,
}

impl BackendRegisterError {
    /// The text shown to operators.
    pub fn message(self) -> (r: &'static str)
        ensures
            r@ == "all HTTP backend connections are busy"@,
    {
        "all HTTP backend connections are busy"
    }
}

#[derive(Clone, Copy, Debug, Default, Eq, PartialEq, Structural)]
pub struct BackendPoolSnapshot {
    pub connections: usize,
    pub origins: usize,
    pub active_streams: usize,
    pub draining_connections: usize,
}

// ---------------------------------------------------------------------------
// The model of a pool
// ---------------------------------------------------------------------------

/// One pooled connection.
pub struct ConnectionModel {
    pub origin: OriginModel,
    pub mode: BackendConnectionMode,
    pub active_streams: nat,
    pub last_activity: nat,
    pub draining: bool,
}

impl ConnectionModel {
    pub open spec fn idle(self) -> bool {
        self.active_streams == 0
    }

    /// Whether another stream may be opened.
    pub open spec fn available(self) -> bool {
        !self.draining && self.active_streams < self.mode.spec_capacity()
    }
}

/// A pool: its limits, where the search for the next identifier starts, and its
/// connections by identifier.
pub struct PoolModel {
    pub limits: BackendPoolLimits,
    pub next_id: u64,
    pub connections: Map<u64, ConnectionModel>,
}

/// Whether a connection belongs to the scope: one origin, or all of them.
pub open spec fn in_scope(c: ConnectionModel, scope: Option<OriginModel>) -> bool {
    match scope {
        Some(origin) => c.origin == origin,
        None => true,
    }
}

/// The connections of one origin.
pub open spec fn origin_ids(m: Map<u64, ConnectionModel>, origin: OriginModel) -> Set<u64> {
    m.dom().filter(|id: u64| m[id].origin == origin)
}

/// The number of streams over all connections.
pub open spec fn total_streams(m: Map<u64, ConnectionModel>) -> nat
    decreases m.dom().len(),
    when m.dom().finite()
{
    if m.dom().len() == 0 {
        0
    } else {
        let id = m.dom().choose();
        m[id].active_streams + total_streams(m.remove(id))
    }
}

/// Whether `id` is the idle connection of the scope that was used least
/// recently; of equally old ones the one with the smallest identifier.
pub open spec fn oldest_idle(
    m: Map<u64, ConnectionModel>,
    scope: Option<OriginModel>,
    id: u64,
) -> bool {
    &&& m.dom().contains(id)
    &&& m[id].idle()
    &&& in_scope(m[id], scope)
    &&& forall|other: u64| #[trigger]
        m.dom().contains(other) && m[other].idle() && in_scope(m[other], scope) && other != id ==> {
            ||| m[id].last_activity < m[other].last_activity
            ||| m[id].last_activity == m[other].last_activity && id < other
        }
}

/// Whether the scope holds an idle connection.
pub open spec fn has_idle(m: Map<u64, ConnectionModel>, scope: Option<OriginModel>) -> bool {
    exists|id: u64| #[trigger] m.dom().contains(id) && m[id].idle() && in_scope(m[id], scope)
}

/// Whether a request to `origin` goes to `id`: among the available connections
/// of the origin the one with the fewest streams, then the one used most
/// recently, then the one with the smallest identifier.
pub open spec fn preferred(
    m: Map<u64, ConnectionModel>,
    origin: OriginModel,
    id: u64,
) -> bool {
    &&& m.dom().contains(id)
    &&& m[id].origin == origin
    &&& m[id].available()
    &&& forall|other: u64| #[trigger]
        m.dom().contains(other) && m[other].origin == origin && m[other].available() && other != id
            ==> ranks_before(m[id], id, m[other], other)
}

/// The order in which available connections are chosen.
pub open spec fn ranks_before(a: ConnectionModel, a_id: u64, b: ConnectionModel, b_id: u64) -> bool {
    ||| a.active_streams < b.active_streams
    ||| a.active_streams == b.active_streams && a.last_activity > b.last_activity
    ||| a.active_streams == b.active_streams && a.last_activity == b.last_activity && a_id < b_id
}

/// Whether the origin has a connection that can take another stream.
pub open spec fn has_available(m: Map<u64, ConnectionModel>, origin: OriginModel) -> bool {
    exists|id: u64| #[trigger]
        m.dom().contains(id) && m[id].origin == origin && m[id].available()
}

/// The `k`-th identifier after the search position, in a cycle that leaves out
/// zero.
pub open spec fn nth_id(next: u64, k: nat) -> u64 {
    let first = if next == 0 {
        1int
    } else {
        next as int
    };
    ((first - 1 + k) % 0xffff_ffff_ffff_ffff + 1) as u64
}

/// Whether `id` is the first identifier from the search position on that is
/// not in use, `k` steps away.
pub open spec fn first_free_id(
    m: Map<u64, ConnectionModel>,
    next: u64,
    id: u64,
    k: nat,
) -> bool {
    &&& id == nth_id(next, k)
    &&& !m.dom().contains(id)
    &&& forall|j: nat| j < k ==> m.dom().contains(#[trigger] nth_id(next, j))
}

/// How a pool makes room for a connection of an origin.
pub enum Admission {
    Free,
    Evict { scope: Option<OriginModel>, reason: BackendRemovalReason },
    Busy,
}

/// An origin at its limit gives up one of its own idle connections, otherwise a
/// full pool gives up any idle one; with none idle the pool is busy.
pub open spec fn admission(p: PoolModel, origin: OriginModel) -> Admission {
    if origin_ids(p.connections, origin).len() >= p.limits.max_connections_per_origin {
        if has_idle(p.connections, Some(origin)) {
            Admission::Evict {
                scope: Some(origin),
                reason: BackendRemovalReason::OriginCapacity,
            }
        } else {
            Admission::Busy
        }
    } else if p.connections.dom().len() >= p.limits.max_connections {
        if has_idle(p.connections, None) {
            Admission::Evict { scope: None, reason: BackendRemovalReason::GlobalCapacity }
        } else {
            Admission::Busy
        }
    } else {
        Admission::Free
    }
}

/// A freshly registered connection.
pub open spec fn fresh_connection(
    origin: OriginModel,
    mode: BackendConnectionMode,
    now: nat,
) -> ConnectionModel {
    ConnectionModel { origin, mode, active_streams: 0, last_activity: now, draining: false }
}

/// What every operation keeps: the limits hold, no connection carries more
/// streams than its mode allows, and none that is draining is idle.
pub open spec fn pool_invariant(p: PoolModel) -> bool {
    &&& p.limits.wf()
    &&& p.connections.dom().finite()
    &&& p.connections.dom().len() <= p.limits.max_connections
    &&& forall|origin: OriginModel| #[trigger]
        origin_ids(p.connections, origin).len() <= p.limits.max_connections_per_origin
    &&& forall|id: u64| #[trigger]
        p.connections.dom().contains(id) ==> {
            &&& id != 0
            &&& p.connections[id].mode.wf()
            &&& p.connections[id].active_streams <= p.connections[id].mode.spec_capacity()
            &&& p.connections[id].draining ==> !p.connections[id].idle()
        }
}

/// A pool without some of its connections.
pub open spec fn without(p: PoolModel, ids: Set<u64>) -> PoolModel {
    PoolModel { connections: p.connections.remove_keys(ids), ..p }
}

/// A pool with one connection changed or added.
pub open spec fn with_connection(p: PoolModel, id: u64, c: ConnectionModel) -> PoolModel {
    PoolModel { connections: p.connections.insert(id, c), ..p }
}

/// The removals name exactly the given connections, each once, with their
/// origin and the reason.
pub open spec fn removals_are(
    r: Seq<BackendRemoval>,
    m: Map<u64, ConnectionModel>,
    ids: Set<u64>,
    reason: BackendRemovalReason,
) -> bool {
    &&& forall|i: int|
        0 <= i < r.len() ==> {
            &&& ids.contains((#[trigger] r[i]).connection_id@)
            &&& r[i]@ == (RemovalModel {
                id: r[i].connection_id@,
                origin: m[r[i].connection_id@].origin,
                reason,
            })
        }
    &&& forall|i: int, j: int|
        0 <= i < j < r.len() ==> (#[trigger] r[i]).connection_id@ != (#[trigger] r[j]).connection_id@
    &&& forall|id: u64| #[trigger]
        ids.contains(id) ==> exists|i: int| 0 <= i < r.len() && r[i].connection_id@ == id
}

// ---------------------------------------------------------------------------
// The pool
// ---------------------------------------------------------------------------

#[derive(Debug)]
struct BackendEntry {
    origin: OriginKey,
    mode: BackendConnectionMode,
    active_streams: usize,
    last_activity: u128,
    draining: bool,
}

impl BackendEntry {
    spec fn model(self) -> ConnectionModel {
        ConnectionModel {
            origin: self.origin@,
            mode: self.mode,
            active_streams: self.active_streams as nat,
            last_activity: self.last_activity as nat,
            draining: self.draining,
        }
    }

    fn available(&self) -> (r: bool)
        ensures
            r == self.model().available(),
    {
        !self.draining && self.active_streams < self.mode.capacity()
    }

    fn idle(&self) -> (r: bool)
        ensures
            r == self.model().idle(),
    {
        self.active_streams == 0
    }
}

/// The connections in a map of entries.
spec fn entry_map(s: Map<u64, BackendEntry>) -> Map<u64, ConnectionModel> {
    s.map_values(|e: BackendEntry| e.model())
}

/// The state of a pool of backend connections.
#[derive(Debug)]
pub struct BackendPoolState {
    limits: BackendPoolLimits,
    next_connection_id: u64,
    entries: HashMap<u64, BackendEntry>,
}

impl View for BackendPoolState {
    type V = PoolModel;

    closed spec fn view(&self) -> PoolModel {
        PoolModel {
            limits: self.limits,
            next_id: self.next_connection_id,
            connections: entry_map(self.entries@),
        }
    }
}

proof fn lemma_entry_map(s: Map<u64, BackendEntry>)
    ensures
        entry_map(s).dom() == s.dom(),
        forall|id: u64| #[trigger]
            s.dom().contains(id) ==> entry_map(s).dom().contains(id) && entry_map(s)[id]
                == s[id].model(),
{
    assert(entry_map(s).dom() =~= s.dom());
}

proof fn lemma_entry_map_insert(s: Map<u64, BackendEntry>, id: u64, e: BackendEntry)
    ensures
        entry_map(s.insert(id, e)) == entry_map(s).insert(id, e.model()),
{
    assert(entry_map(s.insert(id, e)) =~= entry_map(s).insert(id, e.model()));
}

proof fn lemma_entry_map_remove(s: Map<u64, BackendEntry>, id: u64)
    ensures
        entry_map(s.remove(id)) == entry_map(s).remove(id),
{
    assert(entry_map(s.remove(id)) =~= entry_map(s).remove(id));
}

/// Whether a list holds every identifier of a map once.
spec fn lists_ids(ids: Seq<u64>, m: Map<u64, ConnectionModel>) -> bool {
    &&& forall|i: int, j: int| 0 <= i < j < ids.len() ==> #[trigger] ids[i] != #[trigger] ids[j]
    &&& forall|i: int| 0 <= i < ids.len() ==> m.dom().contains(#[trigger] ids[i])
    &&& forall|id: u64| #[trigger]
        m.dom().contains(id) ==> exists|i: int| 0 <= i < ids.len() && ids[i] == id
}

/// The connections with the first `k` identifiers of a list.
spec fn first_part(m: Map<u64, ConnectionModel>, ids: Seq<u64>, k: int) -> Map<u64, ConnectionModel>
    decreases k,
{
    if k <= 0 {
        Map::empty()
    } else {
        first_part(m, ids, k - 1).insert(ids[k - 1], m[ids[k - 1]])
    }
}

proof fn lemma_first_part(m: Map<u64, ConnectionModel>, ids: Seq<u64>, k: int)
    requires
        lists_ids(ids, m),
        0 <= k <= ids.len(),
    ensures
        first_part(m, ids, k).dom().finite(),
        first_part(m, ids, k).dom().len() == k,
        forall|i: int|
            0 <= i < k ==> first_part(m, ids, k).dom().contains(#[trigger] ids[i]) && first_part(
                m,
                ids,
                k,
            )[ids[i]] == m[ids[i]],
        forall|id: u64| #[trigger]
            first_part(m, ids, k).dom().contains(id) ==> exists|i: int| 0 <= i < k && ids[i] == id,
        forall|i: int| k <= i < ids.len() ==> !first_part(m, ids, k).dom().contains(
            #[trigger] ids[i],
        ),
        k == ids.len() ==> first_part(m, ids, k) == m,
    decreases k,
{
    if k > 0 {
        lemma_first_part(m, ids, k - 1);
        assert forall|id: u64| #[trigger] first_part(m, ids, k).dom().contains(id) implies exists|i:
            int| 0 <= i < k && ids[i] == id by {
            if id == ids[k - 1] {
                assert(ids[k - 1] == id);
            } else {
                assert(first_part(m, ids, k - 1).dom().contains(id));
                let i = choose|i: int| 0 <= i < k - 1 && ids[i] == id;
                assert(ids[i] == id);
            }
        }
    }
    let part = first_part(m, ids, k);
    assert forall|i: int| k <= i < ids.len() implies !part.dom().contains(#[trigger] ids[i]) by {
        if part.dom().contains(ids[i]) {
            let j = choose|j: int| 0 <= j < k && ids[j] == ids[i];
            assert(ids[j] != ids[i]);
        }
    }
    if k == ids.len() {
        assert forall|id: u64| m.dom().contains(id) implies part.dom().contains(id) by {
            let i = choose|i: int| 0 <= i < ids.len() && ids[i] == id;
            assert(part.dom().contains(ids[i]));
        }
        assert forall|id: u64| part.dom().contains(id) implies m.dom().contains(id) && part[id]
            == m[id] by {
            let i = choose|i: int| 0 <= i < k && ids[i] == id;
            assert(part[ids[i]] == m[ids[i]]);
        }
        assert(part =~= m);
    }
}

/// The number of streams counted by taking out any one connection first.
pub proof fn lemma_total_streams_remove(m: Map<u64, ConnectionModel>, id: u64)
    requires
        m.dom().finite(),
        m.dom().contains(id),
    ensures
        total_streams(m) == m[id].active_streams + total_streams(m.remove(id)),
    decreases m.dom().len(),
{
    let k = m.dom().choose();
    assert(m.dom().len() != 0);
    assert(m.dom().contains(k));
    if k != id {
        lemma_total_streams_remove(m.remove(k), id);
        lemma_total_streams_remove(m.remove(id), k);
        assert(m.remove(k).remove(id) =~= m.remove(id).remove(k));
    }
}

/// Adding a connection adds its streams.
pub proof fn lemma_total_streams_insert(
    m: Map<u64, ConnectionModel>,
    id: u64,
    c: ConnectionModel,
)
    requires
        m.dom().finite(),
        !m.dom().contains(id),
    ensures
        total_streams(m.insert(id, c)) == total_streams(m) + c.active_streams,
{
    lemma_total_streams_remove(m.insert(id, c), id);
    assert(m.insert(id, c).remove(id) =~= m);
}

proof fn lemma_nth_id_step(next: u64, k: nat)
    ensures
        nth_id(next, k) != 0,
        nth_id(
            (if nth_id(next, k) == 0xffff_ffff_ffff_ffff {
                1u64
            } else {
                (nth_id(next, k) + 1) as u64
            }),
            0,
        ) == nth_id(next, k + 1),
{
    let first = if next == 0 {
        1int
    } else {
        next as int
    };
    let n = 0xffff_ffff_ffff_ffffint;
    let a = first - 1 + k;
    assert((a + 1) % n == if a % n == n - 1 {
        0
    } else {
        a % n + 1
    }) by (nonlinear_arith)
        requires
            n == 0xffff_ffff_ffff_ffffint,
            a >= 0,
    ;
}

proof fn lemma_nth_id_injective(next: u64, j: nat, k: nat)
    requires
        j < k,
        k - j < 0xffff_ffff_ffff_ffff,
    ensures
        nth_id(next, j) != nth_id(next, k),
{
    let first = if next == 0 {
        1int
    } else {
        next as int
    };
    let n = 0xffff_ffff_ffff_ffffint;
    let a = first - 1 + j;
    let b = first - 1 + k;
    assert(a % n != b % n) by (nonlinear_arith)
        requires
            n == 0xffff_ffff_ffff_ffffint,
            0 <= a < b,
            b - a < n,
    ;
}

/// Taking connections out keeps the invariant.
proof fn lemma_invariant_submap(p: PoolModel, q: PoolModel)
    requires
        pool_invariant(p),
        q.limits == p.limits,
        q.connections.submap_of(p.connections),
    ensures
        pool_invariant(q),
{
    assert(q.connections.dom().subset_of(p.connections.dom()));
    vstd::set_lib::lemma_len_subset(q.connections.dom(), p.connections.dom());
    assert forall|origin: OriginModel| #[trigger]
        origin_ids(q.connections, origin).len() <= q.limits.max_connections_per_origin by {
        let a = origin_ids(q.connections, origin);
        let b = origin_ids(p.connections, origin);
        assert(a.subset_of(b)) by {
            assert forall|id: u64| a.contains(id) implies b.contains(id) by {
                assert(q.connections.dom().contains(id));
                assert(p.connections[id] == q.connections[id]);
            }
        }
        vstd::set_lib::lemma_len_subset(b, p.connections.dom());
        vstd::set_lib::lemma_len_subset(a, b);
        assert(origin_ids(p.connections, origin).len() <= p.limits.max_connections_per_origin);
    }
    assert forall|id: u64| #[trigger] q.connections.dom().contains(id) implies {
        &&& id != 0
        &&& q.connections[id].mode.wf()
        &&& q.connections[id].active_streams <= q.connections[id].mode.spec_capacity()
        &&& q.connections[id].draining ==> !q.connections[id].idle()
    } by {
        assert(p.connections.dom().contains(id));
        assert(p.connections[id] == q.connections[id]);
    }
}

/// Changing a connection without touching its origin keeps the counts.
proof fn lemma_invariant_update(p: PoolModel, id: u64, c: ConnectionModel)
    requires
        pool_invariant(p),
        p.connections.dom().contains(id),
        c.origin == p.connections[id].origin,
        c.mode == p.connections[id].mode,
        c.active_streams <= c.mode.spec_capacity(),
        c.draining ==> !c.idle(),
    ensures
        pool_invariant(with_connection(p, id, c)),
{
    let q = with_connection(p, id, c);
    assert(q.connections.dom() =~= p.connections.dom());
    assert forall|origin: OriginModel| #[trigger]
        origin_ids(q.connections, origin).len() <= q.limits.max_connections_per_origin by {
        assert(origin_ids(q.connections, origin) =~= origin_ids(p.connections, origin));
        assert(origin_ids(p.connections, origin).len() <= p.limits.max_connections_per_origin);
    }
    assert forall|k: u64| #[trigger] q.connections.dom().contains(k) implies {
        &&& k != 0
        &&& q.connections[k].mode.wf()
        &&& q.connections[k].active_streams <= q.connections[k].mode.spec_capacity()
        &&& q.connections[k].draining ==> !q.connections[k].idle()
    } by {
        assert(p.connections.dom().contains(k));
    }
}

/// Adding a connection below the limits keeps the invariant.
proof fn lemma_invariant_insert(
    p: PoolModel,
    id: u64,
    origin: OriginModel,
    mode: BackendConnectionMode,
    now: nat,
    next: u64,
)
    requires
        pool_invariant(p),
        !p.connections.dom().contains(id),
        id != 0,
        mode.wf(),
        p.connections.dom().len() < p.limits.max_connections,
        origin_ids(p.connections, origin).len() < p.limits.max_connections_per_origin,
    ensures
        pool_invariant(
            (PoolModel {
                next_id: next,
                ..with_connection(p, id, fresh_connection(origin, mode, now))
            }),
        ),
{
    let c = fresh_connection(origin, mode, now);
    let q = PoolModel { next_id: next, ..with_connection(p, id, c) };
    assert(q.connections.dom() =~= p.connections.dom().insert(id));
    assert forall|o: OriginModel| #[trigger]
        origin_ids(q.connections, o).len() <= q.limits.max_connections_per_origin by {
        assert(origin_ids(p.connections, o).len() <= p.limits.max_connections_per_origin);
        let before = origin_ids(p.connections, o);
        let after = origin_ids(q.connections, o);
        vstd::set_lib::lemma_len_subset(before, p.connections.dom());
        if o == origin {
            assert(after =~= before.insert(id));
        } else {
            assert(after =~= before);
        }
    }
    assert forall|k: u64| #[trigger] q.connections.dom().contains(k) implies {
        &&& k != 0
        &&& q.connections[k].mode.wf()
        &&& q.connections[k].active_streams <= q.connections[k].mode.spec_capacity()
        &&& q.connections[k].draining ==> !q.connections[k].idle()
    } by {
        if k != id {
            assert(p.connections.dom().contains(k));
        }
    }
}

impl BackendPoolState {
    /// Validity of a pool: [`pool_invariant`] holds.
    pub closed spec fn wf(&self) -> bool {
        pool_invariant(self@)
    }

    /// A valid pool keeps its limits.
    pub proof fn lemma_wf(&self)
        requires
            self.wf(),
        ensures
            pool_invariant(self@),
    {
    }

    pub fn new(limits: BackendPoolLimits) -> (r: Self)
        requires
            limits.wf(),
        ensures
            r.wf(),
            r@ == (PoolModel { limits, next_id: 1, connections: Map::empty() }),
    {
        let r = BackendPoolState { limits, next_connection_id: 1, entries: HashMap::new() };
        proof {
            assert(entry_map(r.entries@) =~= Map::empty());
            assert forall|o: OriginModel| #[trigger] origin_ids(r@.connections, o).len()
                <= limits.max_connections_per_origin by {
                assert(origin_ids(r@.connections, o) =~= Set::empty());
            }
        }
        r
    }

    /// The identifiers in some order.
    fn ids(&self) -> (r: Vec<u64>)
        ensures
            lists_ids(r@, self@.connections),
    {
        let mut out: Vec<u64> = Vec::new();
        let ghost keys = spec_keys_iter(&self.entries).remaining();
        for key in it: self.entries.keys()
            invariant
                it.seq() == keys,
                out@.len() == it.index(),
                forall|j: int| 0 <= j < out@.len() ==> #[trigger] out@[j] == *keys[j],
        {
            out.push(*key);
        }
        proof {
            lemma_entry_map(self.entries@);
            let dom = self.entries@.dom();
            assert(keys.unref().to_set() == dom);
            assert(out@ =~= keys.unref());
            assert forall|i: int, j: int| 0 <= i < j < out@.len() implies #[trigger] out@[i]
                != #[trigger] out@[j] by {
                assert(keys[i] != keys[j]);
            }
            assert forall|i: int| 0 <= i < out@.len() implies dom.contains(#[trigger] out@[i]) by {
                assert(out@.to_set().contains(out@[i]));
            }
            assert forall|id: u64| #[trigger] self@.connections.dom().contains(id) implies exists|
                i: int| 0 <= i < out@.len() && out@[i] == id by {
                assert(out@.to_set().contains(id));
            }
        }
        out
    }

    /// The entry of an identifier that is in the pool.
    fn entry(&self, id: u64) -> (r: &BackendEntry)
        requires
            self@.connections.dom().contains(id),
        ensures
            *r == self.entries@[id],
            r.model() == self@.connections[id],
    {
        proof {
            lemma_entry_map(self.entries@);
        }
        self.entries.get(&id).unwrap()
    }

    /// Whether the connection is in the pool.
    pub fn contains(&self, connection_id: BackendConnectionId) -> (r: bool)
        requires
            self.wf(),
        ensures
            r == self@.connections.dom().contains(connection_id@),
    {
        proof {
            lemma_entry_map(self.entries@);
        }
        self.entries.contains_key(&connection_id.0)
    }

    fn connection_count_for_origin(&self, origin: &OriginKey) -> (r: usize)
        ensures
            r == origin_ids(self@.connections, origin@).len(),
    {
        let ids = self.ids();
        let ghost m = self@.connections;
        let mut count: usize = 0;
        let mut i: usize = 0;
        assert(origin_ids(first_part(m, ids@, 0), origin@) =~= Set::empty());
        while i < ids.len()
            invariant
                i <= ids@.len(),
                count <= i,
                m == self@.connections,
                lists_ids(ids@, m),
                count == origin_ids(first_part(m, ids@, i as int), origin@).len(),
            decreases ids@.len() - i,
        {
            let id: u64 = ids[i];
            proof {
                let part = first_part(m, ids@, i as int);
                lemma_first_part(m, ids@, i as int);
                let before = origin_ids(part, origin@);
                let after = origin_ids(first_part(m, ids@, i + 1), origin@);
                assert(!part.dom().contains(ids@[i as int]));
                vstd::set_lib::lemma_len_subset(before, part.dom());
                if m[id].origin == origin@ {
                    assert(after =~= before.insert(id));
                } else {
                    assert(after =~= before);
                }
            }
            if self.entry(id).origin.same(origin) {
                count = count + 1;
            }
            i = i + 1;
        }
        proof {
            lemma_first_part(m, ids@, ids@.len() as int);
        }
        count
    }

    fn oldest_idle(&self, scope: Option<&OriginKey>) -> (r: Option<u64>)
        ensures
            match r {
                Some(id) => oldest_idle(self@.connections, scope_model(scope), id),
                None => !has_idle(self@.connections, scope_model(scope)),
            },
    {
        let ids = self.ids();
        let ghost m = self@.connections;
        let ghost sm = scope_model(scope);
        let mut best: Option<u64> = None;
        let mut i: usize = 0;
        while i < ids.len()
            invariant
                i <= ids@.len(),
                m == self@.connections,
                lists_ids(ids@, m),
                sm == scope_model(scope),
                match best {
                    Some(b) => {
                        &&& m.dom().contains(b)
                        &&& m[b].idle()
                        &&& in_scope(m[b], sm)
                        &&& exists|k: int| 0 <= k < i && ids@[k] == b
                        &&& forall|j: int|
                            0 <= j < i && #[trigger] ids@[j] != b && m[ids@[j]].idle() && in_scope(
                                m[ids@[j]],
                                sm,
                            ) ==> older(m, b, ids@[j])
                    },
                    None => forall|j: int|
                        0 <= j < i ==> !(m[#[trigger] ids@[j]].idle() && in_scope(m[ids@[j]], sm)),
                },
            decreases ids@.len() - i,
        {
            let id: u64 = ids[i];
            let entry = self.entry(id);
            let candidate: bool = entry.idle() && match scope {
                Some(origin) => entry.origin.same(origin),
                None => true,
            };
            if candidate {
                match best {
                    Some(b) => {
                        let current = self.entry(b);
                        if entry.last_activity < current.last_activity || (entry.last_activity
                            == current.last_activity && id < b) {
                            best = Some(id);
                        }
                    },
                    None => {
                        best = Some(id);
                    },
                }
            }
            assert(ids@[i as int] == id);
            i = i + 1;
        }
        proof {
            match best {
                Some(b) => {
                    assert forall|other: u64| #[trigger]
                        m.dom().contains(other) && m[other].idle() && in_scope(m[other], sm)
                            && other != b implies {
                        ||| m[b].last_activity < m[other].last_activity
                        ||| m[b].last_activity == m[other].last_activity && b < other
                    } by {
                        let j = choose|j: int| 0 <= j < ids@.len() && ids@[j] == other;
                        assert(older(m, b, ids@[j]));
                    }
                },
                None => {
                    if has_idle(m, sm) {
                        let id = choose|id: u64| #[trigger]
                            m.dom().contains(id) && m[id].idle() && in_scope(m[id], sm);
                        let j = choose|j: int| 0 <= j < ids@.len() && ids@[j] == id;
                        assert(m[ids@[j]].idle());
                    }
                },
            }
        }
        best
    }

    fn remove(&mut self, connection_id: BackendConnectionId, reason: BackendRemovalReason) -> (r:
        Option<BackendRemoval>)
        requires
            old(self).wf(),
        ensures
            final(self).wf(),
            removed_or_absent(old(self)@, final(self)@, connection_id@, reason, r),
    {
        let ghost before = self@;
        let ghost s = self.entries@;
        proof {
            lemma_entry_map(s);
            lemma_entry_map_remove(s, connection_id@);
        }
        match self.entries.remove(&connection_id.0) {
            Some(entry) => {
                proof {
                    lemma_invariant_submap(before, self@);
                }
                Some(BackendRemoval { connection_id, origin: entry.origin, reason })
            },
            None => {
                assert(self.entries@ =~= s);
                None
            },
        }
    }

    fn next_available_connection_id(&mut self) -> (r: u64)
        requires
            old(self).wf(),
            old(self)@.connections.dom().len() < old(self)@.limits.max_connections,
        ensures
            final(self).wf(),
            final(self).entries@ == old(self).entries@,
            r != 0,
            exists|k: nat| #[trigger]
                first_free_id(old(self)@.connections, old(self)@.next_id, r, k),
            final(self)@ == (PoolModel { next_id: following_id(r), ..old(self)@ }),
    {
        let ghost start = self.next_connection_id;
        let ghost m = self@.connections;
        let ghost mut k: nat = 0;
        let ghost mut seen: Set<u64> = Set::empty();
        proof {
            lemma_entry_map(self.entries@);
            let first = if start == 0 {
                1int
            } else {
                start as int
            };
            assert((first - 1) % 0xffff_ffff_ffff_ffffint == if first - 1 == 0xffff_ffff_ffff_ffffint {
                0
            } else {
                first - 1
            });
        }
        loop
            invariant
                self.entries@ == old(self).entries@,
                self.limits == old(self).limits,
                m == entry_map(self.entries@),
                m == old(self)@.connections,
                start == old(self)@.next_id,
                m.dom().finite(),
                m.dom().len() < usize::MAX,
                pool_invariant(old(self)@),
                nth_id(self.next_connection_id, 0) == nth_id(start, k),
                seen.finite(),
                seen.len() == k,
                seen.subset_of(m.dom()),
                forall|j: nat| j < k ==> seen.contains(#[trigger] nth_id(start, j)),
                forall|id: u64| #[trigger]
                    seen.contains(id) ==> exists|j: nat| j < k && #[trigger] nth_id(start, j) == id,
            decreases m.dom().len() - k,
        {
            let candidate: u64 = if self.next_connection_id == 0 {
                1
            } else {
                self.next_connection_id
            };
            self.next_connection_id = if candidate == 0xffff_ffff_ffff_ffff {
                1
            } else {
                candidate + 1
            };
            proof {
                vstd::set_lib::lemma_len_subset(seen, m.dom());
                lemma_nth_id_step(start, k);
                assert(candidate == nth_id(start, k)) by {
                    let c = candidate as int;
                    assert((c - 1) % 0xffff_ffff_ffff_ffffint == c - 1);
                }
            }
            let taken = self.entries.contains_key(&candidate);
            if !taken {
                assert(first_free_id(m, start, candidate, k));
                return candidate;
            }
            proof {
                assert(!seen.contains(candidate)) by {
                    if seen.contains(candidate) {
                        let j = choose|j: nat| j < k && #[trigger] nth_id(start, j) == candidate;
                        lemma_nth_id_injective(start, j, k);
                    }
                }
                let next_seen = seen.insert(candidate);
                assert forall|j: nat| j < k + 1 implies next_seen.contains(
                    #[trigger] nth_id(start, j),
                ) by {
                    if j < k {
                        assert(seen.contains(nth_id(start, j)));
                    }
                }
                assert forall|id: u64| #[trigger] next_seen.contains(id) implies exists|j: nat|
                    j < k + 1 && #[trigger] nth_id(start, j) == id by {
                    if id == candidate {
                        assert(nth_id(start, k) == id);
                    } else {
                        let j = choose|j: nat| j < k && #[trigger] nth_id(start, j) == id;
                        assert(nth_id(start, j) == id);
                    }
                }
                seen = next_seen;
                k = k + 1;
                vstd::set_lib::lemma_len_subset(seen, m.dom());
            }
        }
    }

    /// Adds a connection, taking out an idle one where a limit is reached.
    ///
    /// A refused registration leaves the pool as it was.
    pub fn register(
        &mut self,
        origin: OriginKey,
        mode: BackendConnectionMode,
        now: u128,
    ) -> (r: Result<BackendRegistration, BackendRegisterError>)
        requires
            old(self).wf(),
            mode.wf(),
        ensures
            final(self).wf(),
            registered(old(self)@, final(self)@, origin@, mode, now as nat, r),
    {
        let ghost before = self@;
        let mut removals: Vec<BackendRemoval> = Vec::new();
        proof {
            lemma_entry_map(self.entries@);
            assert(origin_ids(before.connections, origin@).len()
                <= before.limits.max_connections_per_origin);
        }
        if self.connection_count_for_origin(&origin) >= self.limits.max_connections_per_origin {
            match self.oldest_idle(Some(&origin)) {
                Some(id) => {
                    let removal = match self.remove(
                        BackendConnectionId(id),
                        BackendRemovalReason::OriginCapacity,
                    ) {
                        Some(removal) => removal,
                        None => {
                            assert(false);
                            return Err(BackendRegisterError::CapacityBusy);
                        },
                    };
                    proof {
                        assert(origin_ids(before.connections, origin@).contains(id));
                        vstd::set_lib::lemma_len_subset(
                            origin_ids(before.connections, origin@),
                            before.connections.dom(),
                        );
                        assert(origin_ids(self@.connections, origin@) =~= origin_ids(
                            before.connections,
                            origin@,
                        ).remove(id));
                        assert(self@.connections.dom() =~= before.connections.dom().remove(id));
                    }
                    removals.push(removal);
                },
                None => {
                    return Err(BackendRegisterError::CapacityBusy);
                },
            }
        }
        let ghost middle = self@;
        proof {
            lemma_entry_map(self.entries@);
        }
        if self.entries.len() >= self.limits.max_connections {
            match self.oldest_idle(None) {
                Some(id) => {
                    let removal = match self.remove(
                        BackendConnectionId(id),
                        BackendRemovalReason::GlobalCapacity,
                    ) {
                        Some(removal) => removal,
                        None => {
                            assert(false);
                            return Err(BackendRegisterError::CapacityBusy);
                        },
                    };
                    proof {
                        let a = origin_ids(self@.connections, origin@);
                        let b = origin_ids(middle.connections, origin@);
                        vstd::set_lib::lemma_len_subset(b, middle.connections.dom());
                        assert(a.subset_of(b));
                        vstd::set_lib::lemma_len_subset(a, b);
                        assert(self@.connections.dom() =~= middle.connections.dom().remove(id));
                    }
                    removals.push(removal);
                },
                None => {
                    return Err(BackendRegisterError::CapacityBusy);
                },
            }
        }
        let ghost room = self@;
        proof {
            lemma_entry_map(self.entries@);
        }
        let id: u64 = self.next_available_connection_id();
        let ghost s = self.entries@;
        let ghost om = origin@;
        let entry = BackendEntry {
            origin,
            mode,
            active_streams: 0,
            last_activity: now,
            draining: false,
        };
        proof {
            lemma_entry_map_insert(s, id, entry);
            lemma_invariant_insert(room, id, om, mode, now as nat, following_id(id));
        }
        self.entries.insert(id, entry);
        assert(self@.connections == room.connections.insert(
            id,
            fresh_connection(om, mode, now as nat),
        ));
        Ok(BackendRegistration { connection_id: BackendConnectionId(id), removals })
    }

    /// Lends out the preferred connection of an origin for one more stream.
    pub fn acquire(&mut self, origin: &OriginKey, now: u128) -> (r: Option<BackendLease>)
        requires
            old(self).wf(),
        ensures
            final(self).wf(),
            acquired(old(self)@, final(self)@, origin@, now as nat, r),
    {
        let ids = self.ids();
        let ghost m = self@.connections;
        let ghost om = origin@;
        let mut best: Option<u64> = None;
        let mut i: usize = 0;
        while i < ids.len()
            invariant
                i <= ids@.len(),
                m == self@.connections,
                lists_ids(ids@, m),
                om == origin@,
                match best {
                    Some(b) => {
                        &&& m.dom().contains(b)
                        &&& m[b].available()
                        &&& m[b].origin == om
                        &&& forall|j: int|
                            0 <= j < i && #[trigger] ids@[j] != b && m[ids@[j]].available()
                                && m[ids@[j]].origin == om ==> ranks_before(
                                m[b],
                                b,
                                m[ids@[j]],
                                ids@[j],
                            )
                    },
                    None => forall|j: int|
                        0 <= j < i ==> !(m[#[trigger] ids@[j]].available() && m[ids@[j]].origin
                            == om),
                },
            decreases ids@.len() - i,
        {
            let id: u64 = ids[i];
            let entry = self.entry(id);
            if entry.available() && entry.origin.same(origin) {
                match best {
                    Some(b) => {
                        let current = self.entry(b);
                        if entry.active_streams < current.active_streams || (entry.active_streams
                            == current.active_streams && (entry.last_activity
                            > current.last_activity || (entry.last_activity
                            == current.last_activity && id < b))) {
                            best = Some(id);
                        }
                    },
                    None => {
                        best = Some(id);
                    },
                }
            }
            assert(ids@[i as int] == id);
            i = i + 1;
        }
        match best {
            Some(id) => {
                proof {
                    assert forall|other: u64| #[trigger]
                        m.dom().contains(other) && m[other].origin == om && m[other].available()
                            && other != id implies ranks_before(m[id], id, m[other], other) by {
                        let j = choose|j: int| 0 <= j < ids@.len() && ids@[j] == other;
                        assert(ids@[j] != id);
                    }
                    assert(preferred(m, om, id));
                }
                let entry = self.entry(id);
                let lease_origin = entry.origin.duplicate();
                let active: usize = entry.active_streams + 1;
                let draining = entry.draining;
                self.set_entry(id, active, now, draining);
                Some(BackendLease { connection_id: BackendConnectionId(id), origin: lease_origin })
            },
            None => {
                proof {
                    if has_available(m, om) {
                        let id = choose|id: u64| #[trigger]
                            m.dom().contains(id) && m[id].origin == om && m[id].available();
                        let j = choose|j: int| 0 <= j < ids@.len() && ids@[j] == id;
                        assert(m[ids@[j]].available());
                    }
                }
                None
            },
        }
    }

    /// Replaces an entry, keeping its origin and mode.
    fn set_entry(&mut self, id: u64, active_streams: usize, last_activity: u128, draining: bool)
        requires
            old(self).wf(),
            old(self)@.connections.dom().contains(id),
            active_streams <= old(self)@.connections[id].mode.spec_capacity(),
            draining ==> active_streams > 0,
        ensures
            final(self).wf(),
            final(self)@ == with_connection(
                old(self)@,
                id,
                (ConnectionModel {
                    active_streams: active_streams as nat,
                    last_activity: last_activity as nat,
                    draining,
                    ..old(self)@.connections[id]
                }),
            ),
    {
        let ghost before = self@;
        let ghost s = self.entries@;
        let current = self.entry(id);
        let entry = BackendEntry {
            origin: current.origin.duplicate(),
            mode: current.mode,
            active_streams,
            last_activity,
            draining,
        };
        proof {
            lemma_entry_map_insert(s, id, entry);
            lemma_invariant_update(before, id, entry.model());
        }
        self.entries.insert(id, entry);
    }

    /// Gives back one stream; a draining connection goes with its last stream.
    pub fn release(&mut self, connection_id: BackendConnectionId, now: u128) -> (r: Option<
        BackendRemoval,
    >)
        requires
            old(self).wf(),
        ensures
            final(self).wf(),
            released(old(self)@, final(self)@, connection_id@, now as nat, r),
    {
        if !self.contains(connection_id) {
            return None;
        }
        let entry = self.entry(connection_id.0);
        if entry.active_streams == 0 {
            return None;
        }
        let active: usize = entry.active_streams - 1;
        let draining = entry.draining;
        if draining && active == 0 {
            return self.remove(connection_id, BackendRemovalReason::GoAway);
        }
        self.set_entry(connection_id.0, active, now, draining);
        None
    }

    /// Stops opening streams on a connection; an idle one goes at once.
    pub fn mark_goaway(&mut self, connection_id: BackendConnectionId) -> (r: Option<BackendRemoval>)
        requires
            old(self).wf(),
        ensures
            final(self).wf(),
            went_away(old(self)@, final(self)@, connection_id@, r),
    {
        if !self.contains(connection_id) {
            return None;
        }
        let entry = self.entry(connection_id.0);
        let active: usize = entry.active_streams;
        let last: u128 = entry.last_activity;
        if active == 0 {
            return self.remove(connection_id, BackendRemovalReason::GoAway);
        }
        self.set_entry(connection_id.0, active, last, true);
        None
    }

    /// Takes out a connection whose transport was lost.
    pub fn disconnected(&mut self, connection_id: BackendConnectionId) -> (r: Option<BackendRemoval>)
        requires
            old(self).wf(),
        ensures
            final(self).wf(),
            removed_or_absent(
                old(self)@,
                final(self)@,
                connection_id@,
                BackendRemovalReason::Disconnected,
                r,
            ),
    {
        self.remove(connection_id, BackendRemovalReason::Disconnected)
    }

    /// Takes out every connection of a policy, idle or not.
    pub fn invalidate_policy(&mut self, policy_id: u128) -> (r: Vec<BackendRemoval>)
        requires
            old(self).wf(),
        ensures
            final(self).wf(),
            final(self)@ == without(old(self)@, policy_ids(old(self)@.connections, policy_id)),
            removals_are(
                r@,
                old(self)@.connections,
                policy_ids(old(self)@.connections, policy_id),
                BackendRemovalReason::PolicyInvalidated,
            ),
    {
        let ids = self.ids();
        let ghost before = self@;
        let ghost gone = policy_ids(before.connections, policy_id);
        let mut removals: Vec<BackendRemoval> = Vec::new();
        let mut i: usize = 0;
        assert(before.connections.remove_keys(Set::<u64>::empty()) =~= before.connections);
        let ghost mut done: Set<u64> = Set::empty();
        while i < ids.len()
            invariant
                i <= ids@.len(),
                self.wf(),
                lists_ids(ids@, before.connections),
                gone == policy_ids(before.connections, policy_id),
                self@ == without(before, done),
                removals_are(
                    removals@,
                    before.connections,
                    done,
                    BackendRemovalReason::PolicyInvalidated,
                ),
                forall|id: u64| #[trigger]
                    done.contains(id) ==> gone.contains(id) && exists|j: int|
                        0 <= j < i && ids@[j] == id,
                forall|j: int|
                    0 <= j < i && gone.contains(#[trigger] ids@[j]) ==> done.contains(ids@[j]),
            decreases ids@.len() - i,
        {
            let id: u64 = ids[i];
            proof {
                assert(before.connections.dom().contains(ids@[i as int]));
                assert(!done.contains(id)) by {
                    if done.contains(id) {
                        let j = choose|j: int| 0 <= j < i && ids@[j] == id;
                        assert(ids@[j] != ids@[i as int]);
                    }
                }
            }
            let entry = self.entry(id);
            if entry.origin.policy_id() == policy_id {
                if let Some(removal) = self.remove(
                    BackendConnectionId(id),
                    BackendRemovalReason::PolicyInvalidated,
                ) {
                    proof {
                        lemma_removals_push(
                            removals@,
                            removal,
                            before.connections,
                            done,
                            BackendRemovalReason::PolicyInvalidated,
                        );
                        assert(before.connections.remove_keys(done).remove(id)
                            =~= before.connections.remove_keys(done.insert(id)));
                        let more = done.insert(id);
                        assert forall|k: u64| #[trigger] more.contains(k) implies gone.contains(k)
                            && exists|j: int| 0 <= j < i + 1 && ids@[j] == k by {
                            if k == id {
                                assert(ids@[i as int] == k);
                            } else {
                                assert(done.contains(k));
                                let j = choose|j: int| 0 <= j < i && ids@[j] == k;
                                assert(ids@[j] == k);
                            }
                        }
                        done = more;
                    }
                    removals.push(removal);
                }
            }
            i = i + 1;
        }
        proof {
            assert forall|id: u64| gone.contains(id) implies done.contains(id) by {
                assert(before.connections.dom().contains(id));
                let j = choose|j: int| 0 <= j < ids@.len() && ids@[j] == id;
                assert(gone.contains(ids@[j]));
            }
            assert(done =~= gone);
        }
        removals
    }

    /// Takes out every connection that has been idle for the idle timeout.
    pub fn prune_idle(&mut self, now: u128) -> (r: Vec<BackendRemoval>)
        requires
            old(self).wf(),
        ensures
            final(self).wf(),
            final(self)@ == without(old(self)@, stale_ids(old(self)@, now as nat)),
            removals_are(
                r@,
                old(self)@.connections,
                stale_ids(old(self)@, now as nat),
                BackendRemovalReason::IdleTimeout,
            ),
    {
        let ids = self.ids();
        let ghost before = self@;
        let ghost gone = stale_ids(before, now as nat);
        let mut removals: Vec<BackendRemoval> = Vec::new();
        let mut i: usize = 0;
        assert(before.connections.remove_keys(Set::<u64>::empty()) =~= before.connections);
        let ghost mut done: Set<u64> = Set::empty();
        while i < ids.len()
            invariant
                i <= ids@.len(),
                self.wf(),
                lists_ids(ids@, before.connections),
                gone == stale_ids(before, now as nat),
                self@ == without(before, done),
                removals_are(
                    removals@,
                    before.connections,
                    done,
                    BackendRemovalReason::IdleTimeout,
                ),
                forall|id: u64| #[trigger]
                    done.contains(id) ==> gone.contains(id) && exists|j: int|
                        0 <= j < i && ids@[j] == id,
                forall|j: int|
                    0 <= j < i && gone.contains(#[trigger] ids@[j]) ==> done.contains(ids@[j]),
            decreases ids@.len() - i,
        {
            let id: u64 = ids[i];
            proof {
                assert(before.connections.dom().contains(ids@[i as int]));
                assert(!done.contains(id)) by {
                    if done.contains(id) {
                        let j = choose|j: int| 0 <= j < i && ids@[j] == id;
                        assert(ids@[j] != ids@[i as int]);
                    }
                }
            }
            let entry = self.entry(id);
            if entry.idle() && entry.last_activity <= now && now - entry.last_activity
                >= self.limits.idle_timeout_nanos {
                if let Some(removal) = self.remove(
                    BackendConnectionId(id),
                    BackendRemovalReason::IdleTimeout,
                ) {
                    proof {
                        lemma_removals_push(
                            removals@,
                            removal,
                            before.connections,
                            done,
                            BackendRemovalReason::IdleTimeout,
                        );
                        assert(before.connections.remove_keys(done).remove(id)
                            =~= before.connections.remove_keys(done.insert(id)));
                        let more = done.insert(id);
                        assert forall|k: u64| #[trigger] more.contains(k) implies gone.contains(k)
                            && exists|j: int| 0 <= j < i + 1 && ids@[j] == k by {
                            if k == id {
                                assert(ids@[i as int] == k);
                            } else {
                                assert(done.contains(k));
                                let j = choose|j: int| 0 <= j < i && ids@[j] == k;
                                assert(ids@[j] == k);
                            }
                        }
                        done = more;
                    }
                    removals.push(removal);
                }
            }
            i = i + 1;
        }
        proof {
            assert forall|id: u64| gone.contains(id) implies done.contains(id) by {
                assert(before.connections.dom().contains(id));
                let j = choose|j: int| 0 <= j < ids@.len() && ids@[j] == id;
                assert(gone.contains(ids@[j]));
            }
            assert(done =~= gone);
        }
        removals
    }

    /// The number of connections.
    pub fn connection_count(&self) -> (r: usize)
        requires
            self.wf(),
        ensures
            r == self@.connections.dom().len(),
    {
        proof {
            lemma_entry_map(self.entries@);
        }
        self.entries.len()
    }

    /// Counts over the pool.
    pub fn snapshot(&self) -> (r: BackendPoolSnapshot)
        requires
            self.wf(),
            total_streams(self@.connections) <= usize::MAX,
        ensures
            r.connections == self@.connections.dom().len(),
            r.origins == origins(self@.connections).len(),
            r.active_streams == total_streams(self@.connections),
            r.draining_connections == draining_ids(self@.connections).len(),
    {
        let ids = self.ids();
        let ghost all = self@.connections;
        let mut origin_count: usize = 0;
        let mut active: usize = 0;
        let mut draining: usize = 0;
        let mut i: usize = 0;
        assert(origins(first_part(all, ids@, 0)) =~= Set::empty());
        assert(draining_ids(first_part(all, ids@, 0)) =~= Set::empty());
        while i < ids.len()
            invariant
                i <= ids@.len(),
                all == self@.connections,
                lists_ids(ids@, all),
                total_streams(all) <= usize::MAX,
                origin_count <= i,
                draining <= i,
                origins(first_part(all, ids@, i as int)).finite(),
                origin_count == origins(first_part(all, ids@, i as int)).len(),
                active == total_streams(first_part(all, ids@, i as int)),
                draining == draining_ids(first_part(all, ids@, i as int)).len(),
            decreases ids@.len() - i,
        {
            let id: u64 = ids[i];
            let entry = self.entry(id);
            let ghost m = first_part(all, ids@, i as int);
            let ghost c = all[id];
            proof {
                lemma_first_part(all, ids@, i as int);
                assert(!m.dom().contains(ids@[i as int]));
                lemma_total_streams_insert(m, id, c);
                lemma_total_streams_part(all, ids@, i + 1);
                let before = draining_ids(m);
                let after = draining_ids(first_part(all, ids@, i + 1));
                vstd::set_lib::lemma_len_subset(before, m.dom());
                if c.draining {
                    assert(after =~= before.insert(id));
                } else {
                    assert(after =~= before);
                }
            }
            let mut known = false;
            let mut j: usize = 0;
            while j < i
                invariant
                    j <= i < ids@.len(),
                    all == self@.connections,
                    lists_ids(ids@, all),
                    entry.model() == c,
                    known == exists|a: int| 0 <= a < j && all[#[trigger] ids@[a]].origin == c.origin,
                decreases i - j,
            {
                if self.entry(ids[j]).origin.same(&entry.origin) {
                    assert(all[ids@[j as int]].origin == c.origin);
                    known = true;
                }
                j = j + 1;
            }
            proof {
                let before = origins(m);
                let after = origins(m.insert(id, c));
                if known {
                    let a = choose|a: int|
                        0 <= a < i && all[#[trigger] ids@[a]].origin == c.origin;
                    assert(m.dom().contains(ids@[a]));
                    assert(m[ids@[a]].origin == c.origin);
                    assert(before.contains(c.origin));
                    lemma_origins_insert(m, id, c);
                    assert(after =~= before);
                } else {
                    assert(!before.contains(c.origin)) by {
                        if before.contains(c.origin) {
                            let k = choose|k: u64| #[trigger]
                                m.dom().contains(k) && m[k].origin == c.origin;
                            let a = choose|a: int| 0 <= a < i && ids@[a] == k;
                            assert(m[ids@[a]] == all[ids@[a]]);
                        }
                    }
                    lemma_origins_insert(m, id, c);
                }
            }
            if !known {
                origin_count = origin_count + 1;
            }
            active = active + entry.active_streams;
            if entry.draining {
                draining = draining + 1;
            }
            i = i + 1;
        }
        proof {
            lemma_first_part(all, ids@, ids@.len() as int);
            lemma_entry_map(self.entries@);
        }
        BackendPoolSnapshot {
            connections: self.entries.len(),
            origins: origin_count,
            active_streams: active,
            draining_connections: draining,
        }
    }
}

/// The identifier after `id` in the cycle that leaves out zero.
pub open spec fn following_id(id: u64) -> u64 {
    if id == 0xffff_ffff_ffff_ffff {
        1
    } else {
        (id + 1) as u64
    }
}

spec fn scope_model(scope: Option<&OriginKey>) -> Option<OriginModel> {
    match scope {
        Some(origin) => Some(origin@),
        None => None,
    }
}

spec fn older(m: Map<u64, ConnectionModel>, a: u64, b: u64) -> bool {
    ||| m[a].last_activity < m[b].last_activity
    ||| m[a].last_activity == m[b].last_activity && a < b
}

/// A connection that is in the pool leaves it with the reason; any other
/// identifier changes nothing.
pub open spec fn removed_or_absent(
    before: PoolModel,
    after: PoolModel,
    id: u64,
    reason: BackendRemovalReason,
    r: Option<BackendRemoval>,
) -> bool {
    if before.connections.dom().contains(id) {
        &&& r is Some
        &&& r->0@ == (RemovalModel { id, origin: before.connections[id].origin, reason })
        &&& after == PoolModel { connections: before.connections.remove(id), ..before }
    } else {
        r is None && after == before
    }
}

/// What registering a connection does.
pub open spec fn registered(
    before: PoolModel,
    after: PoolModel,
    origin: OriginModel,
    mode: BackendConnectionMode,
    now: nat,
    r: Result<BackendRegistration, BackendRegisterError>,
) -> bool {
    match admission(before, origin) {
        Admission::Busy => {
            r == Err::<BackendRegistration, BackendRegisterError>(
                BackendRegisterError::CapacityBusy,
            ) && after == before
        },
        Admission::Free => {
            &&& r is Ok
            &&& r->Ok_0.removals@.len() == 0
            &&& added(before, after, r->Ok_0.connection_id@, origin, mode, now)
        },
        Admission::Evict { scope, reason } => {
            &&& r is Ok
            &&& r->Ok_0.removals@.len() == 1
            &&& oldest_idle(before.connections, scope, r->Ok_0.removals@[0].connection_id@)
            &&& r->Ok_0.removals@[0]@ == (RemovalModel {
                id: r->Ok_0.removals@[0].connection_id@,
                origin: before.connections[r->Ok_0.removals@[0].connection_id@].origin,
                reason,
            })
            &&& added(
                (PoolModel {
                    connections: before.connections.remove(r->Ok_0.removals@[0].connection_id@),
                    ..before
                }),
                after,
                r->Ok_0.connection_id@,
                origin,
                mode,
                now,
            )
        },
    }
}

/// A fresh connection under the first free identifier.
pub open spec fn added(
    room: PoolModel,
    after: PoolModel,
    id: u64,
    origin: OriginModel,
    mode: BackendConnectionMode,
    now: nat,
) -> bool {
    &&& exists|k: nat| #[trigger] first_free_id(room.connections, room.next_id, id, k)
    &&& after == PoolModel {
        limits: room.limits,
        next_id: following_id(id),
        connections: room.connections.insert(id, fresh_connection(origin, mode, now)),
    }
}

/// What lending out a connection does.
pub open spec fn acquired(
    before: PoolModel,
    after: PoolModel,
    origin: OriginModel,
    now: nat,
    r: Option<BackendLease>,
) -> bool {
    match r {
        Some(lease) => {
            let id = lease.connection_id@;
            &&& preferred(before.connections, origin, id)
            &&& lease.origin@ == origin
            &&& after == with_connection(
                before,
                id,
                ConnectionModel {
                    active_streams: before.connections[id].active_streams + 1,
                    last_activity: now,
                    ..before.connections[id]
                },
            )
        },
        None => !has_available(before.connections, origin) && after == before,
    }
}

/// What giving back a stream does.
pub open spec fn released(
    before: PoolModel,
    after: PoolModel,
    id: u64,
    now: nat,
    r: Option<BackendRemoval>,
) -> bool {
    if !before.connections.dom().contains(id) || before.connections[id].idle() {
        r is None && after == before
    } else if before.connections[id].draining && before.connections[id].active_streams == 1 {
        removed_or_absent(before, after, id, BackendRemovalReason::GoAway, r)
    } else {
        &&& r is None
        &&& after == with_connection(
            before,
            id,
            ConnectionModel {
                active_streams: (before.connections[id].active_streams - 1) as nat,
                last_activity: now,
                ..before.connections[id]
            },
        )
    }
}

/// What a GOAWAY does.
pub open spec fn went_away(
    before: PoolModel,
    after: PoolModel,
    id: u64,
    r: Option<BackendRemoval>,
) -> bool {
    if before.connections.dom().contains(id) && !before.connections[id].idle() {
        &&& r is None
        &&& after == with_connection(
            before,
            id,
            ConnectionModel { draining: true, ..before.connections[id] },
        )
    } else {
        removed_or_absent(before, after, id, BackendRemovalReason::GoAway, r)
    }
}

/// The connections of a policy.
pub open spec fn policy_ids(m: Map<u64, ConnectionModel>, policy_id: u128) -> Set<u64> {
    m.dom().filter(|id: u64| m[id].origin.policy_id == policy_id)
}

/// Whether a connection has been idle for the idle timeout.
pub open spec fn stale(c: ConnectionModel, limits: BackendPoolLimits, now: nat) -> bool {
    c.idle() && c.last_activity + limits.idle_timeout_nanos <= now
}

/// The connections that have been idle for the idle timeout.
pub open spec fn stale_ids(p: PoolModel, now: nat) -> Set<u64> {
    p.connections.dom().filter(|id: u64| stale(p.connections[id], p.limits, now))
}

/// The origins that have a connection.
pub open spec fn origins(m: Map<u64, ConnectionModel>) -> Set<OriginModel> {
    Set::new(
        |origin: OriginModel|
            exists|id: u64| #[trigger] m.dom().contains(id) && m[id].origin == origin,
    )
}

/// The connections that take no new streams.
pub open spec fn draining_ids(m: Map<u64, ConnectionModel>) -> Set<u64> {
    m.dom().filter(|id: u64| m[id].draining)
}

proof fn lemma_origins_insert(m: Map<u64, ConnectionModel>, id: u64, c: ConnectionModel)
    requires
        !m.dom().contains(id),
    ensures
        origins(m.insert(id, c)) == origins(m).insert(c.origin),
{
    let a = origins(m.insert(id, c));
    let b = origins(m).insert(c.origin);
    assert forall|o: OriginModel| a.contains(o) == b.contains(o) by {
        if a.contains(o) {
            let k = choose|k: u64| #[trigger]
                m.insert(id, c).dom().contains(k) && m.insert(id, c)[k].origin == o;
            if k != id {
                assert(m.dom().contains(k) && m[k].origin == o);
            }
        }
        if origins(m).contains(o) {
            let k = choose|k: u64| #[trigger] m.dom().contains(k) && m[k].origin == o;
            assert(m.insert(id, c).dom().contains(k) && m.insert(id, c)[k].origin == o);
        }
        if o == c.origin {
            assert(m.insert(id, c).dom().contains(id));
        }
    }
    assert(a =~= b);
}

proof fn lemma_total_streams_part(m: Map<u64, ConnectionModel>, ids: Seq<u64>, k: int)
    requires
        lists_ids(ids, m),
        0 <= k <= ids.len(),
    ensures
        total_streams(first_part(m, ids, k)) <= total_streams(m),
    decreases ids.len() - k,
{
    lemma_first_part(m, ids, k);
    if k < ids.len() {
        lemma_total_streams_part(m, ids, k + 1);
        assert(!first_part(m, ids, k).dom().contains(ids[k]));
        lemma_total_streams_insert(first_part(m, ids, k), ids[k], m[ids[k]]);
    }
}

proof fn lemma_removals_push(
    r: Seq<BackendRemoval>,
    removal: BackendRemoval,
    m: Map<u64, ConnectionModel>,
    ids: Set<u64>,
    reason: BackendRemovalReason,
)
    requires
        removals_are(r, m, ids, reason),
        !ids.contains(removal.connection_id@),
        removal@ == (RemovalModel {
            id: removal.connection_id@,
            origin: m[removal.connection_id@].origin,
            reason,
        }),
    ensures
        removals_are(r.push(removal), m, ids.insert(removal.connection_id@), reason),
{
    let t = r.push(removal);
    let all = ids.insert(removal.connection_id@);
    assert forall|i: int, j: int| 0 <= i < j < t.len() implies (#[trigger] t[i]).connection_id@ != (
    #[trigger] t[j]).connection_id@ by {
        assert(ids.contains(r[i].connection_id@));
    }
    assert forall|id: u64| #[trigger] all.contains(id) implies exists|i: int|
        0 <= i < t.len() && t[i].connection_id@ == id by {
        if ids.contains(id) {
            let i = choose|i: int| 0 <= i < r.len() && r[i].connection_id@ == id;
            assert(t[i].connection_id@ == id);
        } else {
            assert(t[r.len() as int].connection_id@ == id);
        }
    }
}

// ---------------------------------------------------------------------------
// Laws
// ---------------------------------------------------------------------------

/// At most one connection is preferred for an origin.
pub proof fn law_preferred_is_unique(
    m: Map<u64, ConnectionModel>,
    origin: OriginModel,
    a: u64,
    b: u64,
)
    requires
        preferred(m, origin, a),
        preferred(m, origin, b),
    ensures
        a == b,
{
    if a != b {
        assert(ranks_before(m[a], a, m[b], b));
        assert(ranks_before(m[b], b, m[a], a));
    }
}

/// At most one idle connection of a scope is the oldest.
pub proof fn law_oldest_idle_is_unique(
    m: Map<u64, ConnectionModel>,
    scope: Option<OriginModel>,
    a: u64,
    b: u64,
)
    requires
        oldest_idle(m, scope, a),
        oldest_idle(m, scope, b),
    ensures
        a == b,
{
    if a != b {
        assert(m.dom().contains(a) && m.dom().contains(b));
    }
}

/// The identifier that a new connection gets depends on the pool alone.
pub proof fn law_first_free_id_is_unique(
    m: Map<u64, ConnectionModel>,
    next: u64,
    a: u64,
    j: nat,
    b: u64,
    k: nat,
)
    requires
        first_free_id(m, next, a, j),
        first_free_id(m, next, b, k),
    ensures
        a == b,
        j == k,
{
    if j < k {
        assert(m.dom().contains(nth_id(next, j)));
    } else if k < j {
        assert(m.dom().contains(nth_id(next, k)));
    }
}

/// Registering never takes out or changes a connection that carries a stream.
pub proof fn law_register_keeps_active_connections(
    before: PoolModel,
    after: PoolModel,
    origin: OriginModel,
    mode: BackendConnectionMode,
    now: nat,
    r: Result<BackendRegistration, BackendRegisterError>,
    id: u64,
)
    requires
        registered(before, after, origin, mode, now, r),
        before.connections.dom().contains(id),
        !before.connections[id].idle(),
    ensures
        after.connections.dom().contains(id),
        after.connections[id] == before.connections[id],
{
}

/// A new connection can serve its origin at once.
pub proof fn law_registered_connection_is_available(
    before: PoolModel,
    after: PoolModel,
    origin: OriginModel,
    mode: BackendConnectionMode,
    now: nat,
    r: Result<BackendRegistration, BackendRegisterError>,
)
    requires
        registered(before, after, origin, mode, now, r),
        mode.wf(),
        r is Ok,
    ensures
        has_available(after.connections, origin),
        after.connections.dom().contains(r->Ok_0.connection_id@),
{
    assert(after.connections.dom().contains(r->Ok_0.connection_id@));
}

/// Giving back a lent stream restores the connection, but for the time of its
/// last use.
pub proof fn law_release_undoes_acquire(
    before: PoolModel,
    lent: PoolModel,
    after: PoolModel,
    origin: OriginModel,
    lease: BackendLease,
    start: nat,
    end: nat,
    removal: Option<BackendRemoval>,
)
    requires
        acquired(before, lent, origin, start, Some(lease)),
        released(lent, after, lease.connection_id@, end, removal),
    ensures
        removal is None,
        after == with_connection(
            before,
            lease.connection_id@,
            (ConnectionModel {
                last_activity: end,
                ..before.connections[lease.connection_id@]
            }),
        ),
{
    let id = lease.connection_id@;
    assert(after.connections =~= with_connection(
        before,
        id,
        ConnectionModel { last_activity: end, ..before.connections[id] },
    ).connections);
}

/// A connection that went away serves no further stream.
pub proof fn law_goaway_stops_new_streams(
    before: PoolModel,
    after: PoolModel,
    id: u64,
    removal: Option<BackendRemoval>,
    origin: OriginModel,
)
    requires
        went_away(before, after, id, removal),
    ensures
        !preferred(after.connections, origin, id),
{
}

/// An invalidated policy has no connection left, and every other policy keeps
/// its own.
pub proof fn law_invalidation_is_exact(before: PoolModel, policy_id: u128, id: u64)
    ensures
        ({
            let after = without(before, policy_ids(before.connections, policy_id));
            &&& after.connections.dom().contains(id) <==> before.connections.dom().contains(id)
                && before.connections[id].origin.policy_id != policy_id
            &&& after.connections.dom().contains(id) ==> after.connections[id]
                == before.connections[id]
        }),
{
}

/// Lending a stream out touches no connection of another origin.
pub proof fn law_acquire_is_confined_to_the_origin(
    before: PoolModel,
    after: PoolModel,
    origin: OriginModel,
    now: nat,
    r: Option<BackendLease>,
    id: u64,
)
    requires
        acquired(before, after, origin, now, r),
        before.connections.dom().contains(id),
        before.connections[id].origin != origin,
    ensures
        after.connections.dom().contains(id),
        after.connections[id] == before.connections[id],
{
}

/// Of the connections of an origin that take another stream, the one with the fewest
/// streams is lent, and among those the one that was active last. It carries one
/// stream more, and no other connection changes.
pub proof fn law_the_least_loaded_connection_is_lent(
    before: PoolModel,
    after: PoolModel,
    origin: OriginModel,
    now: nat,
    lease: BackendLease,
    other: u64,
)
    requires
        acquired(before, after, origin, now, Some(lease)),
        before.connections.dom().contains(other),
    ensures
        ({
            let id = lease.connection_id@;
            let a = before.connections[id];
            let b = before.connections[other];
            &&& before.connections.dom().contains(id)
            &&& a.origin == origin && lease.origin@ == origin
            &&& !a.draining
            &&& a.mode is Exclusive ==> a.active_streams == 0
            &&& a.mode is Multiplexed ==> a.active_streams < a.mode->max_concurrent_streams
            &&& after.connections[id] == (ConnectionModel {
                active_streams: a.active_streams + 1,
                last_activity: now,
                ..a
            })
            &&& other != id ==> after.connections.dom().contains(other)
                && after.connections[other] == b
            &&& after.limits == before.limits && after.next_id == before.next_id
            &&& b.origin == origin && !b.draining && b.active_streams < b.mode.spec_capacity() ==> {
                &&& a.active_streams <= b.active_streams
                &&& a.active_streams == b.active_streams ==> a.last_activity >= b.last_activity
                &&& a.active_streams == b.active_streams && a.last_activity == b.last_activity
                    ==> id <= other
            }
        }),
{
    let id = lease.connection_id@;
    if other != id && before.connections[other].origin == origin
        && before.connections[other].available() {
        assert(ranks_before(before.connections[id], id, before.connections[other], other));
    }
}

/// Nothing is lent exactly if every connection of the origin drains or is full.
pub proof fn law_connections_are_lent_while_there_is_room(
    before: PoolModel,
    after: PoolModel,
    origin: OriginModel,
    now: nat,
    r: Option<BackendLease>,
)
    requires
        acquired(before, after, origin, now, r),
    ensures
        r is None ==> after == before,
        r is None <==> forall|id: u64| #[trigger]
            before.connections.dom().contains(id) && before.connections[id].origin == origin
                ==> before.connections[id].draining || before.connections[id].active_streams
                >= before.connections[id].mode.spec_capacity(),
{
    if r is Some {
        let id = r->0.connection_id@;
        assert(before.connections.dom().contains(id));
    } else {
        assert forall|id: u64| #[trigger]
            before.connections.dom().contains(id) && before.connections[id].origin
                == origin implies before.connections[id].draining
            || before.connections[id].active_streams
            >= before.connections[id].mode.spec_capacity() by {
            if before.connections[id].available() {
                assert(has_available(before.connections, origin));
            }
        }
    }
}

/// An exclusive connection carries one stream, a multiplexed one as many as agreed.
pub proof fn law_connections_have_a_capacity(mode: BackendConnectionMode)
    ensures
        mode is Exclusive ==> mode.spec_capacity() == 1,
        mode is Multiplexed ==> mode.spec_capacity() == mode->max_concurrent_streams,
        mode.wf() <==> mode is Exclusive || mode->max_concurrent_streams > 0,
{
}

/// A connection is refused exactly if its origin, or else the pool, is full and none of
/// what could make room is idle. What makes room is an idle connection, of the same
/// origin if that is what is full, and none that is idle was inactive for longer.
pub proof fn law_only_idle_connections_make_room(
    before: PoolModel,
    after: PoolModel,
    origin: OriginModel,
    mode: BackendConnectionMode,
    now: nat,
    r: Result<BackendRegistration, BackendRegisterError>,
    other: u64,
)
    requires
        registered(before, after, origin, mode, now, r),
        before.connections.dom().contains(other),
    ensures
        ({
            let m = before.connections;
            let origin_full = origin_ids(m, origin).len()
                >= before.limits.max_connections_per_origin;
            let pool_full = m.dom().len() >= before.limits.max_connections;
            let gone = r->Ok_0.removals@[0]@;
            &&& !origin_full && !pool_full ==> r is Ok && r->Ok_0.removals@.len() == 0
            &&& origin_full && m[other].origin == origin && m[other].active_streams == 0 ==> r is Ok
            &&& !origin_full && m[other].active_streams == 0 ==> r is Ok
            &&& r is Err ==> after == before && (origin_full || pool_full)
            &&& r is Ok && (origin_full || pool_full) ==> {
                &&& r->Ok_0.removals@.len() == 1
                &&& m.dom().contains(gone.id) && m[gone.id].active_streams == 0
                &&& gone.origin == m[gone.id].origin
                &&& origin_full ==> gone.reason is OriginCapacity && gone.origin == origin
                &&& !origin_full ==> gone.reason is GlobalCapacity
                &&& m[other].active_streams == 0 && (origin_full ==> m[other].origin == origin)
                    ==> m[gone.id].last_activity <= m[other].last_activity
            }
            &&& r is Ok && !(after.connections.dom().contains(other)) ==> r->Ok_0.removals@.len()
                == 1 && gone.id == other
        }),
{
    let m = before.connections;
    if m[other].active_streams == 0 {
        assert(m[other].idle());
        assert(has_idle(m, None));
        if m[other].origin == origin {
            assert(has_idle(m, Some(origin)));
        }
    }
    if r is Ok && r->Ok_0.removals@.len() == 1 {
        let id = r->Ok_0.removals@[0].connection_id@;
        assert(r->Ok_0.removals@[0]@.id == id);
        if id != other {
            assert(m.dom().contains(other));
        }
    }
}

/// A registered connection is new under its identifier, of the origin and mode that
/// were asked for, idle and active as of now.
pub proof fn law_registered_connections_start_idle(
    before: PoolModel,
    after: PoolModel,
    origin: OriginModel,
    mode: BackendConnectionMode,
    now: nat,
    r: Result<BackendRegistration, BackendRegisterError>,
)
    requires
        registered(before, after, origin, mode, now, r),
        r is Ok,
    ensures
        ({
            let id = r->Ok_0.connection_id@;
            let c = after.connections[id];
            &&& after.connections.dom().contains(id)
            &&& id != 0
            &&& c.origin == origin && c.mode == mode && c.active_streams == 0 && c.last_activity
                == now && !c.draining
            &&& id < 0xffff_ffff_ffff_ffff ==> after.next_id == id + 1
            &&& id == 0xffff_ffff_ffff_ffff ==> after.next_id == 1
            &&& before.next_id != 0 && !before.connections.dom().contains(before.next_id) ==> id
                == before.next_id
            &&& after.limits == before.limits
        }),
{
    let id = r->Ok_0.connection_id@;
    let room = match admission(before, origin) {
        Admission::Evict { scope, reason } => before.connections.remove(
            r->Ok_0.removals@[0].connection_id@,
        ),
        _ => before.connections,
    };
    let k = choose|k: nat| #[trigger] first_free_id(room, before.next_id, id, k);
    assert(first_free_id(room, before.next_id, id, k));
    lemma_nth_id_step(before.next_id, k);
    if before.next_id != 0 && !before.connections.dom().contains(before.next_id) {
        let n = 0xffff_ffff_ffff_ffffint;
        assert((before.next_id - 1) % n == before.next_id - 1 || before.next_id - 1 == n)
            by (nonlinear_arith)
            requires
                0 <= before.next_id - 1 <= n,
                n == 0xffff_ffff_ffff_ffffint,
        ;
        assert(nth_id(before.next_id, 0) == before.next_id);
        if k > 0 {
            assert(room.dom().contains(nth_id(before.next_id, 0)));
        }
    }
}

/// A stream that ends leaves its connection with one less, active as of now; the last
/// one of a draining connection ends the connection.
pub proof fn law_ended_streams_are_taken_back(
    before: PoolModel,
    after: PoolModel,
    id: u64,
    now: nat,
    r: Option<BackendRemoval>,
    other: u64,
)
    requires
        released(before, after, id, now, r),
    ensures
        ({
            let m = before.connections;
            let busy = m.dom().contains(id) && m[id].active_streams > 0;
            let last = busy && m[id].draining && m[id].active_streams == 1;
            &&& !busy ==> r is None && after == before
            &&& last ==> r is Some && r->0@ == (RemovalModel {
                id,
                origin: m[id].origin,
                reason: BackendRemovalReason::GoAway,
            }) && !after.connections.dom().contains(id)
            &&& busy && !last ==> r is None && after.connections.dom().contains(id)
                && after.connections[id] == (ConnectionModel {
                active_streams: (m[id].active_streams - 1) as nat,
                last_activity: now,
                ..m[id]
            })
            &&& other != id ==> (after.connections.dom().contains(other) <==> m.dom().contains(
                other,
            ))
            &&& other != id && m.dom().contains(other) ==> after.connections[other] == m[other]
        }),
{
}

/// A connection that is told to go away drains while it carries streams, and else is
/// removed at once. One that broke is removed in any case.
pub proof fn law_connections_drain_before_they_go(
    before: PoolModel,
    after: PoolModel,
    id: u64,
    r: Option<BackendRemoval>,
)
    ensures
        ({
            let m = before.connections;
            let n = after.connections;
            &&& went_away(before, after, id, r) ==> {
                &&& m.dom().contains(id) && m[id].active_streams > 0 ==> r is None
                    && n.dom().contains(id) && n[id] == (ConnectionModel {
                    draining: true,
                    ..m[id]
                })
                &&& m.dom().contains(id) && m[id].active_streams == 0 ==> r is Some && r->0@.id
                    == id && r->0@.reason is GoAway && !n.dom().contains(id)
                &&& !m.dom().contains(id) ==> r is None && after == before
            }
            &&& removed_or_absent(before, after, id, BackendRemovalReason::Disconnected, r) ==> {
                &&& r is Some <==> m.dom().contains(id)
                &&& r is Some ==> r->0@ == (RemovalModel {
                    id,
                    origin: m[id].origin,
                    reason: BackendRemovalReason::Disconnected,
                })
                &&& !n.dom().contains(id)
                &&& forall|other: u64|
                    other != id && #[trigger] m.dom().contains(other) ==> n.dom().contains(other)
                        && n[other] == m[other]
            }
        }),
{
}

/// A connection is pruned exactly if it is idle and has been so for the whole timeout.
pub proof fn law_idle_connections_are_pruned_after_the_timeout(p: PoolModel, now: nat, id: u64)
    requires
        p.connections.dom().contains(id),
    ensures
        ({
            let after = without(p, stale_ids(p, now));
            let c = p.connections[id];
            &&& !after.connections.dom().contains(id) <==> c.active_streams == 0 && c.last_activity
                + p.limits.idle_timeout_nanos <= now
            &&& after.connections.dom().contains(id) ==> after.connections[id] == c
            &&& after.limits == p.limits && after.next_id == p.next_id
        }),
{
}

/// What was removed is told once for each removed connection, with its origin and the
/// reason.
pub proof fn law_removals_are_told_once(
    r: Seq<BackendRemoval>,
    m: Map<u64, ConnectionModel>,
    ids: Set<u64>,
    reason: BackendRemovalReason,
    id: u64,
)
    requires
        removals_are(r, m, ids, reason),
    ensures
        ids.contains(id) <==> exists|i: int| 0 <= i < r.len() && (#[trigger] r[i])@.id == id,
        forall|i: int|
            0 <= i < r.len() ==> (#[trigger] r[i])@.origin == m[r[i]@.id].origin && r[i]@.reason
                == reason,
        forall|i: int, j: int|
            0 <= i < j < r.len() ==> (#[trigger] r[i])@.id != (#[trigger] r[j])@.id,
{
    if ids.contains(id) {
        let i = choose|i: int| 0 <= i < r.len() && r[i].connection_id@ == id;
        assert(r[i]@.id == id);
    }
    if exists|i: int| 0 <= i < r.len() && (#[trigger] r[i])@.id == id {
        let i = choose|i: int| 0 <= i < r.len() && (#[trigger] r[i])@.id == id;
        assert(ids.contains(r[i].connection_id@));
    }
    assert forall|i: int| 0 <= i < r.len() implies (#[trigger] r[i])@.origin
        == m[r[i]@.id].origin && r[i]@.reason == reason by {
        assert(ids.contains(r[i].connection_id@));
    }
    assert forall|i: int, j: int| 0 <= i < j < r.len() implies (#[trigger] r[i])@.id != (
    #[trigger] r[j])@.id by {
        assert(r[i].connection_id@ != r[j].connection_id@);
    }
}

/// The figures of a pool count what is in it: the origins that have a connection, the
/// connections that drain, and the streams of all connections.
pub proof fn law_figures_count_what_is_there(
    m: Map<u64, ConnectionModel>,
    id: u64,
    c: ConnectionModel,
    origin: OriginModel,
)
    requires
        m.dom().finite(),
        !m.dom().contains(id),
    ensures
        total_streams(Map::empty()) == 0,
        total_streams(m.insert(id, c)) == total_streams(m) + c.active_streams,
        draining_ids(m).contains(id) ==> m.dom().contains(id),
        draining_ids(m.insert(id, c)).contains(id) <==> c.draining,
        origins(m.insert(id, c)).contains(origin) <==> origins(m).contains(origin) || c.origin
            == origin,
{
    lemma_total_streams_insert(m, id, c);
    let n = m.insert(id, c);
    assert(n.dom().contains(id));
    if origins(m).contains(origin) {
        let k = choose|k: u64| #[trigger] m.dom().contains(k) && m[k].origin == origin;
        assert(n.dom().contains(k) && n[k].origin == origin);
    }
    if origins(n).contains(origin) && c.origin != origin {
        let k = choose|k: u64| #[trigger] n.dom().contains(k) && n[k].origin == origin;
        assert(m.dom().contains(k) && m[k].origin == origin);
    }
}

/// An authority has at most 255 bytes and holds no blank, no control character and none
/// of the characters that end an authority.
pub proof fn law_authorities_hold_no_separators(value: Seq<char>, i: int)
    requires
        canonical_authority(value) is Some,
        0 <= i < trim(value).len(),
    ensures
        utf8_len(trim(value)) <= 255,
        !white_space(trim(value)[i]) && !control(trim(value)[i]),
        trim(value)[i] != '/' && trim(value)[i] != '\\' && trim(value)[i] != '?' && trim(value)[i]
            != '#' && trim(value)[i] != '@',
{
    assert(!authority_breaker(trim(value)[i]));
}

/// A numeric authority is written as its address and port; any other is a DNS name in
/// its normal form and a port other than zero in decimal.
pub proof fn law_authorities_are_written_canonically(value: Seq<char>)
    requires
        canonical_authority(value) is Some,
    ensures
        ({
            let s = trim(value);
            let c = canonical_authority(value)->0;
            let colon = last_index(s, ':');
            let host = dns_name(s.take(colon));
            let port = parsed_number(s.skip(colon + 1), 10, 65535);
            &&& socket_address(s) is Some ==> c == socket_text(socket_address(s)->0)
            &&& socket_address(s) is None ==> colon >= 0 && host is Some && port is Some && 1
                <= port->0 && c == host->0 + seq![':'] + decimal(port->0)
        }),
{
}

/// A server name is an address in its normal form, or a DNS name in its normal form.
pub proof fn law_server_names_are_written_canonically(value: Seq<char>)
    ensures
        canonical_server_name(value) is Some <==> ip_address(trim(value)) is Some || dns_name(
            trim(value),
        ) is Some,
        ip_address(trim(value)) is Some ==> canonical_server_name(value) == Some(
            ip_text(ip_address(trim(value))->0),
        ),
        ip_address(trim(value)) is None ==> canonical_server_name(value) == dns_name(trim(value)),
{
}

/// Limits are accepted exactly if one origin gets no more than all and idle connections
/// are kept for a while; they then are the given ones.
pub proof fn law_limits_are_consistent(
    max_connections: usize,
    max_connections_per_origin: usize,
    idle_timeout_nanos: u128,
    r: Result<BackendPoolLimits, BackendPoolLimitsError>,
)
    requires
        max_connections > 0,
        max_connections_per_origin > 0,
        call_ensures(
            BackendPoolLimits::new,
            (max_connections, max_connections_per_origin, idle_timeout_nanos),
            r,
        ),
    ensures
        r is Ok <==> max_connections_per_origin <= max_connections && idle_timeout_nanos > 0,
        r is Ok ==> r->Ok_0.max_connections == max_connections
            && r->Ok_0.max_connections_per_origin == max_connections_per_origin
            && r->Ok_0.idle_timeout_nanos == idle_timeout_nanos,
        r is Err ==> (r->Err_0 is OriginLimitExceedsGlobalLimit <==> max_connections_per_origin
            > max_connections),
{
}

} // verus!
