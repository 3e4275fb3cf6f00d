//! The life of a proxy connection and of a proxy registration.
//!
//! Sockets and timers are driven elsewhere. What happened is reported here as
//! an event, and the answer says what to do next and how the counters move.

use crate::http_proxy::RequestError;
use crate::number::{decimal, push_decimal};
use crate::uuids::{hyphenated, uuid_text};
use std::collections::HashMap;
use vstd::prelude::*;
use vstd::std_specs::hash::*;
use vstd::string::*;

verus! {

broadcast use vstd::std_specs::hash::group_hash_axioms;

/// Counters of one proxy. They wrap around, as counters that are only ever
/// compared with themselves may.
#[derive(Clone, Copy, Debug, Default, PartialEq, Eq, Structural)]
pub struct HttpProxyStatistics {
    pub active_connections: u64,
    pub connections_total: u64,
    pub requests_total: u64,
    pub connect_requests: u64,
    pub authentication_failures: u64,
    pub rejected_connections: u64,
    pub malformed_requests: u64,
    pub bytes_from_public: u64,
    pub bytes_to_public: u64,
    pub pairing_timeouts: u64,
    pub connect_failures: u64,
    pub transfer_errors: u64,
    pub lifetime_timeouts: u64,
}

/// A counter moved up, wrapping around.
pub open spec fn wrap_add(a: u64, b: u64) -> u64 {
    ((a + b) % 0x1_0000_0000_0000_0000) as u64
}

/// A counter moved down by one, wrapping around.
pub open spec fn wrap_down(a: u64) -> u64 {
    if a == 0 {
        0xffff_ffff_ffff_ffff
    } else {
        (a - 1) as u64
    }
}

fn up(a: u64, b: u64) -> (r: u64)
    ensures
        r == wrap_add(a, b),
{
    a.wrapping_add(b)
}

fn down(a: u64) -> (r: u64)
    ensures
        r == wrap_down(a),
{
    a.wrapping_sub(1)
}

/// How reading the request ended.
#[derive(Clone, Copy, Debug, PartialEq, Eq, Structural)]
pub enum RequestOutcome {
    Read { connect: bool },
    Refused(RequestError),
    TimedOut,
}

/// How the search for a data connection to the target ended.
#[derive(Clone, Copy, Debug, PartialEq, Eq, Structural)]
pub enum PairingOutcome {
    /// Too many connections wait already.
    NoPermit,
    /// The agent could not be asked.
    CommandFailed,
    /// The proxy was stopped.
    Stopped,
    Paired,
    /// The agent gave up.
    Closed,
    TimedOut,
}

/// How the transfer ended.
#[derive(Clone, Copy, Debug, PartialEq, Eq, Structural)]
pub enum TransferOutcome {
    Finished { from_public: u64, to_public: u64 },
    Failed,
    TimedOut,
    Stopped,
}

/// Where a connection stands.
#[derive(Clone, Copy, Debug, PartialEq, Eq, Structural)]
pub enum SessionPhase {
    Reading,
    Pairing { connect: bool },
    Establishing,
    Relaying,
    Finished,
}

/// What happened to a connection.
#[derive(Clone, Copy, Debug, PartialEq, Eq, Structural)]
pub enum SessionEvent {
    Request(RequestOutcome),
    Pairing(PairingOutcome),
    Established { written: bool },
    Transfer(TransferOutcome),
}

/// What to do next.
#[derive(Clone, Copy, Debug, PartialEq, Eq, Structural)]
pub enum SessionAction {
    /// Ask the agent for a data connection.
    Pair,
    /// Tell the client that the tunnel stands.
    Establish,
    /// Forward the exchange, or the bytes of the tunnel.
    Relay,
    /// Answer with a status and close.
    Refuse(u16),
    Close,
}

/// The counters when a connection is accepted.
pub open spec fn opened(s: HttpProxyStatistics) -> HttpProxyStatistics {
    HttpProxyStatistics {
        active_connections: wrap_add(s.active_connections, 1),
        connections_total: wrap_add(s.connections_total, 1),
        ..s
    }
}

/// The counters when a connection is turned away for want of permits.
pub open spec fn rejected(s: HttpProxyStatistics) -> HttpProxyStatistics {
    HttpProxyStatistics { rejected_connections: wrap_add(s.rejected_connections, 1), ..s }
}

/// The counters when a connection is done.
pub open spec fn finished(s: HttpProxyStatistics) -> HttpProxyStatistics {
    HttpProxyStatistics { active_connections: wrap_down(s.active_connections), ..s }
}

/// One step of a connection.
pub struct SessionStep {
    pub phase: SessionPhase,
    pub statistics: HttpProxyStatistics,
    pub action: SessionAction,
}

/// The step that ends a connection.
pub open spec fn ended(s: HttpProxyStatistics, action: SessionAction) -> SessionStep {
    SessionStep { phase: SessionPhase::Finished, statistics: finished(s), action }
}

/// The step of a connection on an event; an event that does not belong to the
/// phase gives none.
pub open spec fn session_step(
    phase: SessionPhase,
    s: HttpProxyStatistics,
    event: SessionEvent,
) -> Option<SessionStep> {
    match (phase, event) {
        (SessionPhase::Reading, SessionEvent::Request(outcome)) => Some(
            match outcome {
                RequestOutcome::Read { connect } => SessionStep {
                    phase: SessionPhase::Pairing { connect },
                    statistics: HttpProxyStatistics {
                        requests_total: wrap_add(s.requests_total, 1),
                        connect_requests: if connect {
                            wrap_add(s.connect_requests, 1)
                        } else {
                            s.connect_requests
                        },
                        ..s
                    },
                    action: SessionAction::Pair,
                },
                RequestOutcome::Refused(RequestError::Authentication) => ended(
                    HttpProxyStatistics {
                        authentication_failures: wrap_add(s.authentication_failures, 1),
                        ..s
                    },
                    SessionAction::Refuse(407),
                ),
                _ => ended(
                    HttpProxyStatistics {
                        malformed_requests: wrap_add(s.malformed_requests, 1),
                        ..s
                    },
                    SessionAction::Refuse(400),
                ),
            },
        ),
        (SessionPhase::Pairing { connect }, SessionEvent::Pairing(outcome)) => Some(
            match outcome {
                PairingOutcome::Paired => if connect {
                    SessionStep {
                        phase: SessionPhase::Establishing,
                        statistics: s,
                        action: SessionAction::Establish,
                    }
                } else {
                    SessionStep {
                        phase: SessionPhase::Relaying,
                        statistics: s,
                        action: SessionAction::Relay,
                    }
                },
                PairingOutcome::NoPermit => ended(rejected(s), SessionAction::Refuse(503)),
                PairingOutcome::Stopped => ended(s, SessionAction::Close),
                PairingOutcome::CommandFailed | PairingOutcome::Closed => ended(
                    HttpProxyStatistics { connect_failures: wrap_add(s.connect_failures, 1), ..s },
                    SessionAction::Refuse(502),
                ),
                PairingOutcome::TimedOut => ended(
                    HttpProxyStatistics {
                        pairing_timeouts: wrap_add(s.pairing_timeouts, 1),
                        connect_failures: wrap_add(s.connect_failures, 1),
                        ..s
                    },
                    SessionAction::Refuse(504),
                ),
            },
        ),
        (SessionPhase::Establishing, SessionEvent::Established { written }) => Some(
            if written {
                SessionStep {
                    phase: SessionPhase::Relaying,
                    statistics: s,
                    action: SessionAction::Relay,
                }
            } else {
                ended(s, SessionAction::Close)
            },
        ),
        (SessionPhase::Relaying, SessionEvent::Transfer(outcome)) => Some(
            match outcome {
                TransferOutcome::Finished { from_public, to_public } => ended(
                    HttpProxyStatistics {
                        bytes_from_public: wrap_add(s.bytes_from_public, from_public),
                        bytes_to_public: wrap_add(s.bytes_to_public, to_public),
                        ..s
                    },
                    SessionAction::Close,
                ),
                TransferOutcome::Failed => ended(
                    HttpProxyStatistics { transfer_errors: wrap_add(s.transfer_errors, 1), ..s },
                    SessionAction::Close,
                ),
                TransferOutcome::TimedOut => ended(
                    HttpProxyStatistics {
                        lifetime_timeouts: wrap_add(s.lifetime_timeouts, 1),
                        ..s
                    },
                    SessionAction::Close,
                ),
                TransferOutcome::Stopped => ended(s, SessionAction::Close),
            },
        ),
        _ => None,
    }
}

impl HttpProxyStatistics {
    /// Counts a connection that was turned away for want of permits.
    pub fn connection_rejected(&mut self)
        ensures
            *final(self) == rejected(*old(self)),
    {
        self.rejected_connections = up(self.rejected_connections, 1);
    }

    /// Counts a connection that is done.
    pub fn finish_connection(&mut self)
        ensures
            *final(self) == finished(*old(self)),
    {
        self.active_connections = down(self.active_connections);
    }
}

/// A connection of the public side.
#[derive(Debug)]
pub struct ProxySession {
    pub phase: SessionPhase,
}

impl ProxySession {
    /// Begins a connection that was accepted.
    pub fn begin(statistics: &mut HttpProxyStatistics) -> (r: Self)
        ensures
            r.phase == SessionPhase::Reading,
            *final(statistics) == opened(*old(statistics)),
    {
        statistics.active_connections = up(statistics.active_connections, 1);
        statistics.connections_total = up(statistics.connections_total, 1);
        ProxySession { phase: SessionPhase::Reading }
    }

    fn end(&mut self, statistics: &mut HttpProxyStatistics, action: SessionAction) -> (r: Option<
        SessionAction,
    >)
        ensures
            r == Some(action),
            final(self).phase == SessionPhase::Finished,
            *final(statistics) == finished(*old(statistics)),
    {
        statistics.finish_connection();
        self.phase = SessionPhase::Finished;
        Some(action)
    }

    /// Moves a connection on.
    pub fn advance(&mut self, statistics: &mut HttpProxyStatistics, event: SessionEvent) -> (r:
        Option<SessionAction>)
        ensures
            match session_step(old(self).phase, *old(statistics), event) {
                Some(step) => r == Some(step.action) && final(self).phase == step.phase
                    && *final(statistics) == step.statistics,
                None => r is None && *final(self) == *old(self) && *final(statistics) == *old(statistics),
            },
    {
        match (self.phase, event) {
            (SessionPhase::Reading, SessionEvent::Request(outcome)) => match outcome {
                RequestOutcome::Read { connect } => {
                    statistics.requests_total = up(statistics.requests_total, 1);
                    if connect {
                        statistics.connect_requests = up(statistics.connect_requests, 1);
                    }
                    self.phase = SessionPhase::Pairing { connect };
                    Some(SessionAction::Pair)
                },
                RequestOutcome::Refused(RequestError::Authentication) => {
                    statistics.authentication_failures = up(statistics.authentication_failures, 1);
                    self.end(statistics, SessionAction::Refuse(407))
                },
                _ => {
                    statistics.malformed_requests = up(statistics.malformed_requests, 1);
                    self.end(statistics, SessionAction::Refuse(400))
                },
            },
            (SessionPhase::Pairing { connect }, SessionEvent::Pairing(outcome)) => match outcome {
                PairingOutcome::Paired => {
                    if connect {
                        self.phase = SessionPhase::Establishing;
                        Some(SessionAction::Establish)
                    } else {
                        self.phase = SessionPhase::Relaying;
                        Some(SessionAction::Relay)
                    }
                },
                PairingOutcome::NoPermit => {
                    statistics.connection_rejected();
                    self.end(statistics, SessionAction::Refuse(503))
                },
                PairingOutcome::Stopped => self.end(statistics, SessionAction::Close),
                PairingOutcome::CommandFailed | PairingOutcome::Closed => {
                    statistics.connect_failures = up(statistics.connect_failures, 1);
                    self.end(statistics, SessionAction::Refuse(502))
                },
                PairingOutcome::TimedOut => {
                    statistics.pairing_timeouts = up(statistics.pairing_timeouts, 1);
                    statistics.connect_failures = up(statistics.connect_failures, 1);
                    self.end(statistics, SessionAction::Refuse(504))
                },
            },
            (SessionPhase::Establishing, SessionEvent::Established { written }) => {
                if written {
                    self.phase = SessionPhase::Relaying;
                    Some(SessionAction::Relay)
                } else {
                    self.end(statistics, SessionAction::Close)
                }
            },
            (SessionPhase::Relaying, SessionEvent::Transfer(outcome)) => {
                match outcome {
                    TransferOutcome::Finished { from_public, to_public } => {
                        statistics.bytes_from_public = up(
                            statistics.bytes_from_public,
                            from_public,
                        );
                        statistics.bytes_to_public = up(statistics.bytes_to_public, to_public);
                    },
                    TransferOutcome::Failed => {
                        statistics.transfer_errors = up(statistics.transfer_errors, 1);
                    },
                    TransferOutcome::TimedOut => {
                        statistics.lifetime_timeouts = up(statistics.lifetime_timeouts, 1);
                    },
                    TransferOutcome::Stopped => {},
                }
                self.end(statistics, SessionAction::Close)
            },
            _ => None,
        }
    }
}

/// A connection leaves the count of active ones exactly when it is finished,
/// and a finished one never moves again.
pub proof fn law_a_connection_is_released_once(
    phase: SessionPhase,
    s: HttpProxyStatistics,
    event: SessionEvent,
)
    ensures
        phase == SessionPhase::Finished ==> session_step(phase, s, event) is None,
        session_step(phase, s, event) matches Some(step) ==> step.statistics.active_connections
            == if step.phase == SessionPhase::Finished {
            wrap_down(s.active_connections)
        } else {
            s.active_connections
        },
{
}

/// A request without the right credentials, and no other, is answered with 407.
pub proof fn law_only_failed_credentials_are_answered_407(
    phase: SessionPhase,
    s: HttpProxyStatistics,
    event: SessionEvent,
)
    requires
        session_step(phase, s, event) is Some,
    ensures
        session_step(phase, s, event)->0.action == SessionAction::Refuse(407) <==> event
            == SessionEvent::Request(RequestOutcome::Refused(RequestError::Authentication)),
{
}

// ---------------------------------------------------------------------------
// Registrations
// ---------------------------------------------------------------------------

/// Why a proxy or a route was not registered.
#[derive(Clone, Copy, Debug, PartialEq, Eq, Structural)]
pub enum ProxyRegistrationError {
    InvalidCredentials,
    NoPolicy,
    PortUnavailable,
}

impl ProxyRegistrationError {
    /// The text that the agent receives.
    pub fn message(self) -> (r: &'static str)
        ensures
            r@ == match self {
                ProxyRegistrationError::InvalidCredentials => "invalid client credentials"@,
                ProxyRegistrationError::NoPolicy => {
                    "no enabled management policy matches this HTTP proxy"@
                },
                ProxyRegistrationError::PortUnavailable => {
                    "HTTP proxy public port is unavailable"@
                },
            },
    {
        match self {
            ProxyRegistrationError::InvalidCredentials => "invalid client credentials",
            ProxyRegistrationError::NoPolicy => {
                "no enabled management policy matches this HTTP proxy"
            },
            ProxyRegistrationError::PortUnavailable => "HTTP proxy public port is unavailable",
        }
    }
}

/// What registering a proxy came to, in the order in which it is tried: the
/// client's credentials, its policy, the public port.
pub fn check_registration(authenticated: bool, policy_found: bool, port_bound: bool) -> (r: Result<
    (),
    ProxyRegistrationError,
>)
    ensures
        r == if !authenticated {
            Err::<(), ProxyRegistrationError>(ProxyRegistrationError::InvalidCredentials)
        } else if !policy_found {
            Err(ProxyRegistrationError::NoPolicy)
        } else if !port_bound {
            Err(ProxyRegistrationError::PortUnavailable)
        } else {
            Ok(())
        },
{
    if !authenticated {
        Err(ProxyRegistrationError::InvalidCredentials)
    } else if !policy_found {
        Err(ProxyRegistrationError::NoPolicy)
    } else if !port_bound {
        Err(ProxyRegistrationError::PortUnavailable)
    } else {
        Ok(())
    }
}

/// The audit entry of a registration.
pub open spec fn registration_audit(client_id: u128, name: Seq<char>, public_port: u16) -> Seq<char> {
    "client="@ + hyphenated(client_id) + "; name="@ + name + "; public_port="@ + decimal(
        public_port as nat,
    )
}

pub fn registration_audit_text(client_id: u128, name: &str, public_port: u16) -> (r: String)
    ensures
        r@ == registration_audit(client_id, name@, public_port),
{
    let mut out = String::new();
    out.append("client=");
    out.append(uuid_text(client_id).as_str());
    out.append("; name=");
    out.append(name);
    out.append("; public_port=");
    push_decimal(&mut out, public_port as u64);
    assert(out@ =~= registration_audit(client_id, name@, public_port));
    out
}

/// A registered proxy.
#[derive(Clone, Copy, Debug, PartialEq, Eq, Structural)]
pub struct HttpProxyRegistration {
    pub registration_id: u128,
    pub public_port: u16,
}

/// The registered proxies by policy.
#[derive(Debug)]
pub struct HttpProxyRegistry {
    pub registrations: HashMap<u128, HttpProxyRegistration>,
}

impl View for HttpProxyRegistry {
    type V = Map<u128, HttpProxyRegistration>;

    open spec fn view(&self) -> Map<u128, HttpProxyRegistration> {
        self.registrations@
    }
}

impl HttpProxyRegistry {
    pub fn new() -> (r: Self)
        ensures
            r@ == Map::<u128, HttpProxyRegistration>::empty(),
    {
        HttpProxyRegistry { registrations: HashMap::new() }
    }

    /// Registers a proxy; the registration that it takes the place of has to be
    /// stopped.
    pub fn register(&mut self, policy_id: u128, registration: HttpProxyRegistration) -> (r: Option<
        HttpProxyRegistration,
    >)
        ensures
            final(self)@ == old(self)@.insert(policy_id, registration),
            r == if old(self)@.dom().contains(policy_id) {
                Some(old(self)@[policy_id])
            } else {
                None
            },
    {
        self.registrations.insert(policy_id, registration)
    }

    /// Removes a registration, unless another one has taken its place.
    pub fn remove_registration(&mut self, policy_id: u128, registration_id: u128) -> (r: Option<
        HttpProxyRegistration,
    >)
        ensures
            if old(self)@.dom().contains(policy_id) && old(self)@[policy_id].registration_id
                == registration_id {
                r == Some(old(self)@[policy_id]) && final(self)@ == old(self)@.remove(policy_id)
            } else {
                r is None && final(self)@ == old(self)@
            },
    {
        let current = match self.registrations.get(&policy_id) {
            Some(registration) => registration.registration_id == registration_id,
            None => false,
        };
        if current {
            self.registrations.remove(&policy_id)
        } else {
            None
        }
    }

    /// Removes the registration of a policy.
    pub fn stop_policy(&mut self, policy_id: u128) -> (r: Option<HttpProxyRegistration>)
        ensures
            final(self)@ == old(self)@.remove(policy_id),
            r == if old(self)@.dom().contains(policy_id) {
                Some(old(self)@[policy_id])
            } else {
                None
            },
    {
        let r = self.registrations.remove(&policy_id);
        assert(!old(self)@.dom().contains(policy_id) ==> old(self)@.remove(policy_id)
            =~= old(self)@);
        r
    }

    /// Removes all registrations.
    pub fn stop_all(&mut self) -> (r: HashMap<u128, HttpProxyRegistration>)
        ensures
            r@ == old(self)@,
            final(self)@ == Map::<u128, HttpProxyRegistration>::empty(),
    {
        let mut empty: HashMap<u128, HttpProxyRegistration> = HashMap::new();
        core::mem::swap(&mut self.registrations, &mut empty);
        empty
    }

    /// The public port of a registered policy.
    pub fn online_public_port(&self, policy_id: u128) -> (r: Option<u16>)
        ensures
            r == if self@.dom().contains(policy_id) {
                Some(self@[policy_id].public_port)
            } else {
                None
            },
    {
        match self.registrations.get(&policy_id) {
            Some(registration) => Some(registration.public_port),
            None => None,
        }
    }
}

/// A registration that was replaced does not remove its successor.
pub proof fn law_a_late_removal_spares_the_successor(
    before: Map<u128, HttpProxyRegistration>,
    policy_id: u128,
    old_id: u128,
    successor: HttpProxyRegistration,
)
    requires
        successor.registration_id != old_id,
    ensures
        ({
            let after = before.insert(policy_id, successor);
            !(after.dom().contains(policy_id) && after[policy_id].registration_id == old_id)
        }),
{
}

// ---------------------------------------------------------------------------
// The control connection
// ---------------------------------------------------------------------------

/// What happened on the control connection of a registration.
#[derive(Clone, Copy, Debug, PartialEq, Eq, Structural)]
pub enum ControlInput {
    Stopped,
    IdleExpired,
    Command,
    CommandsClosed,
    Heartbeat { nonce: u64 },
    UnexpectedFrame,
    FramesClosed,
}

/// What to do about it.
#[derive(Clone, Copy, Debug, PartialEq, Eq, Structural)]
pub enum ControlAction {
    /// Write the command; close if that fails.
    ForwardCommand,
    /// Start the idle time anew and acknowledge; close if that fails.
    Acknowledge { nonce: u64 },
    Close,
    /// Count a protocol error and close.
    CloseOnProtocolError,
}

/// What to do about what happened on the control connection.
pub fn control_action(input: ControlInput) -> (r: ControlAction)
    ensures
        r == match input {
            ControlInput::Command => ControlAction::ForwardCommand,
            ControlInput::Heartbeat { nonce } => ControlAction::Acknowledge { nonce },
            ControlInput::UnexpectedFrame => ControlAction::CloseOnProtocolError,
            _ => ControlAction::Close,
        },
{
    match input {
        ControlInput::Command => ControlAction::ForwardCommand,
        ControlInput::Heartbeat { nonce } => ControlAction::Acknowledge { nonce },
        ControlInput::UnexpectedFrame => ControlAction::CloseOnProtocolError,
        _ => ControlAction::Close,
    }
}

/// The phases of a connection follow one another: it is read, paired, established if
/// it is a tunnel, and relayed. It ends in no other way than by an answer or by
/// closing, and every other event is ignored.
pub proof fn law_connections_go_through_their_phases(
    phase: SessionPhase,
    s: HttpProxyStatistics,
    event: SessionEvent,
)
    ensures
        ({
            let step = session_step(phase, s, event);
            &&& step is Some <==> {
                ||| phase is Reading && event is Request
                ||| phase is Pairing && event is Pairing
                ||| phase is Establishing && event is Established
                ||| phase is Relaying && event is Transfer
            }
            &&& step is Some ==> {
                let action = step->0.action;
                let next = step->0.phase;
                &&& action is Pair <==> next is Pairing
                &&& action is Establish <==> next is Establishing
                &&& action is Relay <==> next is Relaying
                &&& (action is Refuse || action is Close) <==> next is Finished
                &&& next is Pairing ==> event == SessionEvent::Request(
                    RequestOutcome::Read { connect: next->connect },
                )
                &&& next is Establishing ==> phase == (SessionPhase::Pairing { connect: true })
                    && event == SessionEvent::Pairing(PairingOutcome::Paired)
                &&& next is Relaying ==> phase == (SessionPhase::Pairing { connect: false })
                    && event == SessionEvent::Pairing(PairingOutcome::Paired) || event == (
                SessionEvent::Established { written: true })
                &&& event == SessionEvent::Pairing(PairingOutcome::Paired) ==> !(next is Finished)
                &&& event == (SessionEvent::Established { written: true }) ==> next is Relaying
                &&& event is Request && event->Request_0 is Read ==> next is Pairing
            }
        }),
{
}

/// What a client is answered tells why its connection ended: 400 for a request that
/// cannot be read, 407 for its credentials, 503 where too many wait, 504 where the
/// agent took too long, and 502 for any other failure to reach the target.
pub proof fn law_answers_tell_why_a_connection_ended(
    phase: SessionPhase,
    s: HttpProxyStatistics,
    event: SessionEvent,
)
    requires
        session_step(phase, s, event) is Some,
    ensures
        ({
            let action = session_step(phase, s, event)->0.action;
            &&& action == SessionAction::Refuse(400) <==> event is Request && (
            event->Request_0 is TimedOut || event->Request_0 is Refused && event->Request_0
                != RequestOutcome::Refused(RequestError::Authentication))
            &&& action == SessionAction::Refuse(407) <==> event == SessionEvent::Request(
                RequestOutcome::Refused(RequestError::Authentication),
            )
            &&& action == SessionAction::Refuse(503) <==> event == SessionEvent::Pairing(
                PairingOutcome::NoPermit,
            )
            &&& action == SessionAction::Refuse(504) <==> event == SessionEvent::Pairing(
                PairingOutcome::TimedOut,
            )
            &&& action == SessionAction::Refuse(502) <==> (event == SessionEvent::Pairing(
                PairingOutcome::CommandFailed,
            ) || event == SessionEvent::Pairing(PairingOutcome::Closed))
            &&& action == SessionAction::Close <==> (event is Transfer || event == (
            SessionEvent::Established { written: false }) || event == SessionEvent::Pairing(
                PairingOutcome::Stopped,
            ))
        }),
{
}

/// A counter that goes up by `n` and wraps around.
pub open spec fn raised(before: u64, after: u64, n: int) -> bool {
    after == before + n || after == before + n - 0x1_0000_0000_0000_0000
}

/// Each event is counted where it belongs, once, and nowhere else.
#[verifier::spinoff_prover]
#[verifier::rlimit(60)]
pub proof fn law_connections_are_counted(
    phase: SessionPhase,
    s: HttpProxyStatistics,
    event: SessionEvent,
)
    requires
        session_step(phase, s, event) is Some,
    ensures
        ({
            let a = session_step(phase, s, event)->0.statistics;
            let is = |b: bool|
                if b {
                    1int
                } else {
                    0int
                };
            let read = event is Request && event->Request_0 is Read;
            let denied = event == SessionEvent::Request(
                RequestOutcome::Refused(RequestError::Authentication),
            );
            let pairing = |o: PairingOutcome| event == SessionEvent::Pairing(o);
            &&& a.connections_total == s.connections_total
            &&& raised(s.requests_total, a.requests_total, is(read))
            &&& raised(
                s.connect_requests,
                a.connect_requests,
                is(event == SessionEvent::Request(RequestOutcome::Read { connect: true })),
            )
            &&& raised(s.authentication_failures, a.authentication_failures, is(denied))
            &&& raised(
                s.malformed_requests,
                a.malformed_requests,
                is(event is Request && !read && !denied),
            )
            &&& raised(
                s.rejected_connections,
                a.rejected_connections,
                is(pairing(PairingOutcome::NoPermit)),
            )
            &&& raised(
                s.pairing_timeouts,
                a.pairing_timeouts,
                is(pairing(PairingOutcome::TimedOut)),
            )
            &&& raised(
                s.connect_failures,
                a.connect_failures,
                is(
                    pairing(PairingOutcome::TimedOut) || pairing(PairingOutcome::CommandFailed)
                        || pairing(PairingOutcome::Closed),
                ),
            )
            &&& raised(
                s.transfer_errors,
                a.transfer_errors,
                is(event == SessionEvent::Transfer(TransferOutcome::Failed)),
            )
            &&& raised(
                s.lifetime_timeouts,
                a.lifetime_timeouts,
                is(event == SessionEvent::Transfer(TransferOutcome::TimedOut)),
            )
            &&& raised(
                s.bytes_from_public,
                a.bytes_from_public,
                if event is Transfer && event->Transfer_0 is Finished {
                    event->Transfer_0->from_public as int
                } else {
                    0
                },
            )
            &&& raised(
                s.bytes_to_public,
                a.bytes_to_public,
                if event is Transfer && event->Transfer_0 is Finished {
                    event->Transfer_0->to_public as int
                } else {
                    0
                },
            )
        }),
{
}

/// Opening and finishing a connection leave the number of active ones as it was; a
/// connection that was turned away is counted as such alone.
pub proof fn law_opened_connections_are_active(s: HttpProxyStatistics)
    ensures
        raised(s.active_connections, opened(s).active_connections, 1),
        raised(s.connections_total, opened(s).connections_total, 1),
        opened(s) == (HttpProxyStatistics {
            active_connections: opened(s).active_connections,
            connections_total: opened(s).connections_total,
            ..s
        }),
        finished(opened(s)) == (HttpProxyStatistics {
            active_connections: s.active_connections,
            ..opened(s)
        }),
        raised(s.rejected_connections, rejected(s).rejected_connections, 1),
        rejected(s) == (HttpProxyStatistics {
            rejected_connections: rejected(s).rejected_connections,
            ..s
        }),
{
}

/// A proxy is registered for an authenticated client with a policy and a bound port,
/// and the first of these that is missing is named.
pub proof fn law_registrations_take_all_three(
    authenticated: bool,
    policy_found: bool,
    port_bound: bool,
    r: Result<(), ProxyRegistrationError>,
)
    requires
        call_ensures(check_registration, (authenticated, policy_found, port_bound), r),
    ensures
        r is Ok <==> authenticated && policy_found && port_bound,
        r is Err && r->Err_0 == ProxyRegistrationError::InvalidCredentials <==> !authenticated,
        r is Err && r->Err_0 == ProxyRegistrationError::NoPolicy <==> authenticated
            && !policy_found,
        r is Err && r->Err_0 == ProxyRegistrationError::PortUnavailable <==> authenticated
            && policy_found && !port_bound,
{
}

/// Heartbeats are acknowledged with their own number and commands are passed on;
/// anything else ends the control connection, and an unexpected frame as an error.
pub proof fn law_control_connections_end_on_anything_unexpected(
    input: ControlInput,
    r: ControlAction,
)
    requires
        call_ensures(control_action, (input,), r),
    ensures
        r is ForwardCommand <==> input is Command,
        r is Acknowledge <==> input is Heartbeat,
        input is Heartbeat ==> r->nonce == input->nonce,
        r is CloseOnProtocolError <==> input is UnexpectedFrame,
        r is Close <==> (input is Stopped || input is IdleExpired || input is CommandsClosed
            || input is FramesClosed),
{
}

/// A registration takes the place of the one of its policy, which is handed back, and of
/// no other.
pub proof fn law_registrations_replace_their_policy_only(
    registry: &mut HttpProxyRegistry,
    policy_id: u128,
    registration: HttpProxyRegistration,
    r: Option<HttpProxyRegistration>,
    other: u128,
)
    requires
        call_ensures(HttpProxyRegistry::register, (registry, policy_id, registration), r),
    ensures
        ({
            let m = old(registry)@;
            let n = final(registry)@;
            &&& n.dom().contains(policy_id) && n[policy_id] == registration
            &&& other != policy_id ==> (n.dom().contains(other) <==> m.dom().contains(other))
            &&& other != policy_id && m.dom().contains(other) ==> n[other] == m[other]
            &&& r is Some <==> m.dom().contains(policy_id)
            &&& r is Some ==> r->0 == m[policy_id]
        }),
{
}

/// A registration is removed only under its own identifier, so one that was replaced
/// does not take down its successor.
pub proof fn law_registrations_are_removed_by_identifier(
    registry: &mut HttpProxyRegistry,
    policy_id: u128,
    registration_id: u128,
    r: Option<HttpProxyRegistration>,
    other: u128,
)
    requires
        call_ensures(
            HttpProxyRegistry::remove_registration,
            (registry, policy_id, registration_id),
            r,
        ),
    ensures
        ({
            let m = old(registry)@;
            let n = final(registry)@;
            &&& r is Some <==> m.dom().contains(policy_id) && m[policy_id].registration_id
                == registration_id
            &&& r is Some ==> r->0 == m[policy_id] && !n.dom().contains(policy_id)
            &&& r is None ==> n == m
            &&& other != policy_id && m.dom().contains(other) ==> n.dom().contains(other)
                && n[other] == m[other]
        }),
{
}

/// A stopped policy has no registration any more, and the one that it had is handed
/// back.
pub proof fn law_stopped_policies_are_gone(
    registry: &mut HttpProxyRegistry,
    policy_id: u128,
    r: Option<HttpProxyRegistration>,
    other: u128,
)
    requires
        call_ensures(HttpProxyRegistry::stop_policy, (registry, policy_id), r),
    ensures
        ({
            let m = old(registry)@;
            let n = final(registry)@;
            &&& !n.dom().contains(policy_id)
            &&& r is Some <==> m.dom().contains(policy_id)
            &&& r is Some ==> r->0 == m[policy_id]
            &&& other != policy_id && m.dom().contains(other) ==> n.dom().contains(other)
                && n[other] == m[other]
        }),
{
}

/// The port of a policy is the one of its registration, and there is none without.
pub proof fn law_ports_are_those_of_the_registration(
    registry: HttpProxyRegistry,
    policy_id: u128,
    r: Option<u16>,
)
    requires
        call_ensures(HttpProxyRegistry::online_public_port, (&registry, policy_id), r),
    ensures
        r is Some <==> registry@.dom().contains(policy_id),
        r is Some ==> r->0 == registry@[policy_id].public_port,
{
}

} // verus!
