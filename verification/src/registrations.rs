//! Registering routes and proxies: what an agent asks for, what it is granted and
//! what is counted.

use crate::http_backend_pool::{BackendProtocol, OriginKey, OriginModel, SecurityModel};
use crate::http_proxy_session::{
    HttpProxyRegistration, HttpProxyRegistry, ProxyRegistrationError, check_registration,
    registration_audit, registration_audit_text, wrap_add,
};
use crate::http_routes::{
    HttpRouteCatalog, HttpRoutePolicyModel, HttpRouteRuntimePolicy, granted, hostname_of,
    law_host_names_form_backend_origins, law_hostname_normalization_is_idempotent, route_authority,
    route_origin,
};
use crate::http_tunnel::{
    HttpRouteRegistry, RouteRegistrationError, check_route_registration, route_audit_text,
};
use crate::text::same_text;
use crate::uuids::{new_uuid, random_layout};
use vstd::prelude::*;
use vstd::string::*;

verus! {

/// What is counted of registrations. The counters wrap around.
#[derive(Clone, Copy, Debug, PartialEq, Eq, Structural)]
pub struct RegistrationMetrics {
    pub authentication_failures_total: u64,
    pub registration_rejections_total: u64,
    pub tunnel_registrations_total: u64,
    pub tunnel_reconnects_total: u64,
}

impl Default for RegistrationMetrics {
    fn default() -> (r: Self)
        ensures
            r == (RegistrationMetrics {
                authentication_failures_total: 0,
                registration_rejections_total: 0,
                tunnel_registrations_total: 0,
                tunnel_reconnects_total: 0,
            }),
    {
        RegistrationMetrics {
            authentication_failures_total: 0,
            registration_rejections_total: 0,
            tunnel_registrations_total: 0,
            tunnel_reconnects_total: 0,
        }
    }
}

// ---------------------------------------------------------------------------
// Reconnects
// ---------------------------------------------------------------------------

/// A client and a host name that it has registered.
#[derive(Debug)]
pub struct SeenRegistration {
    pub client_id: u128,
    pub hostname: String,
}

/// The clients and host names that have been registered since the start.
#[derive(Debug)]
pub struct SeenRegistrations {
    entries: Vec<SeenRegistration>,
}

spec fn pairs(s: Seq<SeenRegistration>) -> Seq<(u128, Seq<char>)> {
    s.map_values(|e: SeenRegistration| (e.client_id, e.hostname@))
}

impl View for SeenRegistrations {
    type V = Set<(u128, Seq<char>)>;

    closed spec fn view(&self) -> Set<(u128, Seq<char>)> {
        pairs(self.entries@).to_set()
    }
}

impl SeenRegistrations {
    pub fn new() -> (r: Self)
        ensures
            r@ == Set::<(u128, Seq<char>)>::empty(),
    {
        let r = SeenRegistrations { entries: Vec::new() };
        assert(r@ =~= Set::empty());
        r
    }

    /// Notes a registration; whether it had been noted before.
    pub fn note(&mut self, client_id: u128, hostname: &str) -> (r: bool)
        ensures
            r == old(self)@.contains((client_id, hostname@)),
            final(self)@ == old(self)@.insert((client_id, hostname@)),
    {
        let ghost before = self.entries@;
        let mut i: usize = 0;
        while i < self.entries.len()
            invariant
                i <= self.entries@.len(),
                self.entries@ == before,
                before == old(self).entries@,
                forall|j: int|
                    0 <= j < i ==> !((#[trigger] before[j]).client_id == client_id
                        && before[j].hostname@ == hostname@),
            decreases self.entries@.len() - i,
        {
            if self.entries[i].client_id == client_id && same_text(
                self.entries[i].hostname.as_str(),
                hostname,
            ) {
                proof {
                    let s = pairs(before);
                    assert(s[i as int] == (client_id, hostname@));
                    assert(s.to_set().contains((client_id, hostname@)));
                    assert(s.to_set().insert((client_id, hostname@)) =~= s.to_set());
                }
                return true;
            }
            i = i + 1;
        }
        self.entries.push(SeenRegistration { client_id, hostname: hostname.to_owned() });
        proof {
            let x = (client_id, hostname@);
            let s = pairs(before);
            let t = pairs(self.entries@);
            assert(t =~= s.push(x));
            assert(!s.contains(x)) by {
                if s.contains(x) {
                    let j = choose|j: int| 0 <= j < s.len() && s[j] == x;
                    assert(before[j].client_id == client_id);
                }
            }
            assert forall|y: (u128, Seq<char>)|
                t.to_set().contains(y) == s.to_set().insert(x).contains(y) by {
                if s.contains(y) {
                    let j = choose|j: int| 0 <= j < s.len() && s[j] == y;
                    assert(t[j] == y);
                }
                if y == x {
                    assert(t[s.len() as int] == y);
                }
            }
            assert(t.to_set() =~= s.to_set().insert(x));
        }
        false
    }
}

// ---------------------------------------------------------------------------
// Routes
// ---------------------------------------------------------------------------

/// What a registered route was granted.
#[derive(Debug)]
pub struct RouteGrant {
    pub hostname: String,
    pub registration_id: u128,
    pub policy: HttpRouteRuntimePolicy,
    /// Under which its HTTP/2 connections are pooled.
    pub origin: OriginKey,
    /// The registration that it took the place of, which has to be stopped.
    pub replaced: Option<u128>,
    /// Whether the client had registered the host name before.
    pub reconnected: bool,
    /// The audit entry.
    pub audit: String,
}

/// What registering a route comes to, in the order in which it is tried: the
/// client's credentials, the host name, a policy that grants exactly this route.
pub open spec fn route_outcome(
    catalog: Seq<HttpRoutePolicyModel>,
    authenticated: bool,
    client_id: u128,
    name: Seq<char>,
    hostname: Seq<char>,
    target_addr: Seq<char>,
) -> Result<(Seq<char>, HttpRouteRuntimePolicy), RouteRegistrationError> {
    if !authenticated {
        Err(RouteRegistrationError::InvalidCredentials)
    } else {
        match hostname_of(hostname) {
            None => Err(RouteRegistrationError::InvalidHostname),
            Some(host) => match granted(catalog, client_id, name, host, target_addr) {
                None => Err(RouteRegistrationError::NoPolicy),
                Some(policy) => Ok((host, policy)),
            },
        }
    }
}

/// The counters after a route was asked for. A refused host name is not counted.
pub open spec fn route_metrics(
    m: RegistrationMetrics,
    outcome: Result<(Seq<char>, HttpRouteRuntimePolicy), RouteRegistrationError>,
    reconnected: bool,
) -> RegistrationMetrics {
    match outcome {
        Err(RouteRegistrationError::InvalidCredentials) => RegistrationMetrics {
            authentication_failures_total: wrap_add(m.authentication_failures_total, 1),
            registration_rejections_total: wrap_add(m.registration_rejections_total, 1),
            ..m
        },
        Err(RouteRegistrationError::InvalidHostname) => m,
        Err(RouteRegistrationError::NoPolicy) => RegistrationMetrics {
            registration_rejections_total: wrap_add(m.registration_rejections_total, 1),
            ..m
        },
        Ok(_) => RegistrationMetrics {
            tunnel_registrations_total: wrap_add(m.tunnel_registrations_total, 1),
            tunnel_reconnects_total: if reconnected {
                wrap_add(m.tunnel_reconnects_total, 1)
            } else {
                m.tunnel_reconnects_total
            },
            ..m
        },
    }
}

pub open spec fn route_audit(name: Seq<char>, hostname: Seq<char>, target_addr: Seq<char>) -> Seq<
    char,
> {
    "name="@ + name + "; hostname="@ + hostname + "; target="@ + target_addr
}

/// The registration that stands for a host name.
pub open spec fn standing(registry: Map<Seq<char>, u128>, hostname: Seq<char>) -> Option<u128> {
    if registry.dom().contains(hostname) {
        Some(registry[hostname])
    } else {
        None
    }
}

/// Whether a grant is the one of an outcome.
pub open spec fn is_route_grant(
    g: RouteGrant,
    host: Seq<char>,
    policy: HttpRouteRuntimePolicy,
    registration_id: u128,
    registry: Map<Seq<char>, u128>,
    reconnected: bool,
    name: Seq<char>,
    target_addr: Seq<char>,
) -> bool {
    &&& g.hostname@ == host
    &&& g.registration_id == registration_id
    &&& g.policy == policy
    &&& g.origin@ == (OriginModel {
        policy_id: policy.policy_id,
        authority: route_authority(host),
        protocol: BackendProtocol::Http2,
        security: SecurityModel::Plaintext,
    })
    &&& g.replaced == standing(registry, host)
    &&& g.reconnected == reconnected
    &&& g.audit@ == route_audit(name, host, target_addr)
}

fn up(n: u64) -> (r: u64)
    ensures
        r == wrap_add(n, 1),
{
    n.wrapping_add(1)
}

/// Registers a route under a given identifier. A route that is granted has a host
/// name of which a backend origin can be made; what is refused may name anything.
pub fn register_route_as(
    registration_id: u128,
    catalog: &HttpRouteCatalog,
    registry: &mut HttpRouteRegistry,
    seen: &mut SeenRegistrations,
    metrics: &mut RegistrationMetrics,
    authenticated: bool,
    client_id: u128,
    name: &str,
    hostname: &str,
    target_addr: &str,
) -> (r: Result<RouteGrant, RouteRegistrationError>)
    requires
        old(registry).wf(),
        route_outcome(
            catalog@,
            authenticated,
            client_id,
            name@,
            hostname@,
            target_addr@,
        ) is Ok ==> hostname_of(hostname@)->0.len() <= 252,
    ensures
        final(registry).wf(),
        ({
            let outcome = route_outcome(
                catalog@,
                authenticated,
                client_id,
                name@,
                hostname@,
                target_addr@,
            );
            match outcome {
                Err(error) => {
                    &&& r is Err && r->Err_0 == error
                    &&& final(registry)@ == old(registry)@
                    &&& final(seen)@ == old(seen)@
                    &&& *final(metrics) == route_metrics(*old(metrics), outcome, false)
                },
                Ok((host, policy)) => {
                    let reconnected = old(seen)@.contains((client_id, host));
                    &&& r is Ok && is_route_grant(
                        r->Ok_0,
                        host,
                        policy,
                        registration_id,
                        old(registry)@,
                        reconnected,
                        name@,
                        target_addr@,
                    )
                    &&& final(registry)@ == old(registry)@.insert(host, registration_id)
                    &&& final(seen)@ == old(seen)@.insert((client_id, host))
                    &&& *final(metrics) == route_metrics(*old(metrics), outcome, reconnected)
                },
            }
        }),
{
    let host = match check_route_registration(authenticated, hostname) {
        Ok(host) => host,
        Err(error) => {
            if error.counts_as_authentication_failure() {
                metrics.authentication_failures_total = up(metrics.authentication_failures_total);
            }
            if error.counts_as_rejection() {
                metrics.registration_rejections_total = up(metrics.registration_rejections_total);
            }
            return Err(error);
        },
    };
    proof {
        law_hostname_normalization_is_idempotent(hostname@);
    }
    let policy = match catalog.runtime_policy(client_id, name, host.as_str(), target_addr) {
        Ok(Some(policy)) => policy,
        _ => {
            metrics.registration_rejections_total = up(metrics.registration_rejections_total);
            return Err(RouteRegistrationError::NoPolicy);
        },
    };
    proof {
        law_host_names_form_backend_origins(hostname@);
    }
    let origin = match route_origin(policy.policy_id, host.as_str()) {
        Ok(origin) => origin,
        Err(_) => {
            assert(false);
            return Err(RouteRegistrationError::NoPolicy);
        },
    };
    let audit = route_audit_text(name, host.as_str(), target_addr);
    let replaced = registry.register(host.clone(), registration_id);
    metrics.tunnel_registrations_total = up(metrics.tunnel_registrations_total);
    let reconnected = seen.note(client_id, host.as_str());
    if reconnected {
        metrics.tunnel_reconnects_total = up(metrics.tunnel_reconnects_total);
    }
    Ok(
        RouteGrant {
            hostname: host,
            registration_id,
            policy,
            origin,
            replaced,
            reconnected,
            audit,
        },
    )
}

/// Registers a route. The identifier is a new one; all else is as
/// [`register_route_as`] says.
pub fn register_route(
    catalog: &HttpRouteCatalog,
    registry: &mut HttpRouteRegistry,
    seen: &mut SeenRegistrations,
    metrics: &mut RegistrationMetrics,
    authenticated: bool,
    client_id: u128,
    name: &str,
    hostname: &str,
    target_addr: &str,
) -> (r: Result<RouteGrant, RouteRegistrationError>)
    requires
        old(registry).wf(),
        route_outcome(
            catalog@,
            authenticated,
            client_id,
            name@,
            hostname@,
            target_addr@,
        ) is Ok ==> hostname_of(hostname@)->0.len() <= 252,
    ensures
        final(registry).wf(),
        ({
            let outcome = route_outcome(
                catalog@,
                authenticated,
                client_id,
                name@,
                hostname@,
                target_addr@,
            );
            match outcome {
                Err(error) => {
                    &&& r is Err && r->Err_0 == error
                    &&& final(registry)@ == old(registry)@
                    &&& final(seen)@ == old(seen)@
                    &&& *final(metrics) == route_metrics(*old(metrics), outcome, false)
                },
                Ok((host, policy)) => {
                    let reconnected = old(seen)@.contains((client_id, host));
                    &&& r is Ok && random_layout(r->Ok_0.registration_id)
                    &&& is_route_grant(
                        r->Ok_0,
                        host,
                        policy,
                        r->Ok_0.registration_id,
                        old(registry)@,
                        reconnected,
                        name@,
                        target_addr@,
                    )
                    &&& final(registry)@ == old(registry)@.insert(host, r->Ok_0.registration_id)
                    &&& final(seen)@ == old(seen)@.insert((client_id, host))
                    &&& *final(metrics) == route_metrics(*old(metrics), outcome, reconnected)
                },
            }
        }),
{
    register_route_as(
        new_uuid(),
        catalog,
        registry,
        seen,
        metrics,
        authenticated,
        client_id,
        name,
        hostname,
        target_addr,
    )
}

/// A client that registers a host name again is counted as reconnected, whatever
/// was registered between; one that registers it for the first time is not.
pub proof fn law_reconnects_are_registrations_seen_before(
    m: RegistrationMetrics,
    seen: Set<(u128, Seq<char>)>,
    between: Set<(u128, Seq<char>)>,
    client_id: u128,
    host: Seq<char>,
    policy: HttpRouteRuntimePolicy,
)
    requires
        seen.insert((client_id, host)).subset_of(between),
    ensures
        route_metrics(
            m,
            Ok((host, policy)),
            between.contains((client_id, host)),
        ).tunnel_reconnects_total == wrap_add(m.tunnel_reconnects_total, 1),
        !seen.contains((client_id, host)) ==> route_metrics(
            m,
            Ok((host, policy)),
            seen.contains((client_id, host)),
        ).tunnel_reconnects_total == m.tunnel_reconnects_total,
{
    assert(seen.insert((client_id, host)).contains((client_id, host)));
}

// ---------------------------------------------------------------------------
// Proxies
// ---------------------------------------------------------------------------

/// What a registered proxy was granted.
#[derive(Debug)]
pub struct ProxyGrant {
    pub policy_id: u128,
    pub registration: HttpProxyRegistration,
    /// The registration that it took the place of, which has to be stopped.
    pub replaced: Option<HttpProxyRegistration>,
    /// The audit entry.
    pub audit: String,
}

/// What registering a proxy comes to.
pub open spec fn proxy_outcome(
    authenticated: bool,
    policy_id: Option<u128>,
    port_bound: bool,
) -> Result<u128, ProxyRegistrationError> {
    if !authenticated {
        Err(ProxyRegistrationError::InvalidCredentials)
    } else {
        match policy_id {
            None => Err(ProxyRegistrationError::NoPolicy),
            Some(id) => if !port_bound {
                Err(ProxyRegistrationError::PortUnavailable)
            } else {
                Ok(id)
            },
        }
    }
}

/// The counters after a proxy was asked for.
pub open spec fn proxy_metrics(
    m: RegistrationMetrics,
    outcome: Result<u128, ProxyRegistrationError>,
) -> RegistrationMetrics {
    match outcome {
        Err(_) => RegistrationMetrics {
            registration_rejections_total: wrap_add(m.registration_rejections_total, 1),
            ..m
        },
        Ok(_) => RegistrationMetrics {
            tunnel_registrations_total: wrap_add(m.tunnel_registrations_total, 1),
            ..m
        },
    }
}

/// Registers a proxy under a given identifier. The enabled policy that names the
/// client, the proxy and the port is found, and the port is bound, by the caller.
pub fn register_proxy_as(
    registration_id: u128,
    registry: &mut HttpProxyRegistry,
    metrics: &mut RegistrationMetrics,
    authenticated: bool,
    policy_id: Option<u128>,
    port_bound: bool,
    client_id: u128,
    name: &str,
    public_port: u16,
) -> (r: Result<ProxyGrant, ProxyRegistrationError>)
    ensures
        *final(metrics) == proxy_metrics(
            *old(metrics),
            proxy_outcome(authenticated, policy_id, port_bound),
        ),
        match proxy_outcome(authenticated, policy_id, port_bound) {
            Err(error) => r is Err && r->Err_0 == error && final(registry)@ == old(registry)@,
            Ok(id) => {
                &&& r is Ok
                &&& r->Ok_0.policy_id == id
                &&& r->Ok_0.registration == (HttpProxyRegistration { registration_id, public_port })
                &&& final(registry)@ == old(registry)@.insert(id, r->Ok_0.registration)
                &&& r->Ok_0.replaced == if old(registry)@.dom().contains(id) {
                    Some(old(registry)@[id])
                } else {
                    None
                }
                &&& r->Ok_0.audit@ == registration_audit(client_id, name@, public_port)
            },
        },
{
    if let Err(error) = check_registration(authenticated, policy_id.is_some(), port_bound) {
        metrics.registration_rejections_total = up(metrics.registration_rejections_total);
        return Err(error);
    }
    let id: u128 = match policy_id {
        Some(id) => id,
        None => {
            return Err(ProxyRegistrationError::NoPolicy);
        },
    };
    let registration = HttpProxyRegistration { registration_id, public_port };
    let replaced = registry.register(id, registration);
    metrics.tunnel_registrations_total = up(metrics.tunnel_registrations_total);
    let audit = registration_audit_text(client_id, name, public_port);
    Ok(ProxyGrant { policy_id: id, registration, replaced, audit })
}

/// Registers a proxy. The identifier is a new one; all else is as
/// [`register_proxy_as`] says.
pub fn register_proxy(
    registry: &mut HttpProxyRegistry,
    metrics: &mut RegistrationMetrics,
    authenticated: bool,
    policy_id: Option<u128>,
    port_bound: bool,
    client_id: u128,
    name: &str,
    public_port: u16,
) -> (r: Result<ProxyGrant, ProxyRegistrationError>)
    ensures
        *final(metrics) == proxy_metrics(
            *old(metrics),
            proxy_outcome(authenticated, policy_id, port_bound),
        ),
        match proxy_outcome(authenticated, policy_id, port_bound) {
            Err(error) => r is Err && r->Err_0 == error && final(registry)@ == old(registry)@,
            Ok(id) => {
                &&& r is Ok
                &&& r->Ok_0.policy_id == id
                &&& random_layout(r->Ok_0.registration.registration_id)
                &&& r->Ok_0.registration.public_port == public_port
                &&& final(registry)@ == old(registry)@.insert(id, r->Ok_0.registration)
                &&& r->Ok_0.replaced == if old(registry)@.dom().contains(id) {
                    Some(old(registry)@[id])
                } else {
                    None
                }
                &&& r->Ok_0.audit@ == registration_audit(client_id, name@, public_port)
            },
        },
{
    register_proxy_as(
        new_uuid(),
        registry,
        metrics,
        authenticated,
        policy_id,
        port_bound,
        client_id,
        name,
        public_port,
    )
}

/// A route is registered exactly for an authenticated client whose host name is sound
/// and is granted by a policy; what is answered otherwise is the first of these that is
/// missing.
pub proof fn law_routes_take_credentials_a_host_and_a_policy(
    catalog: Seq<HttpRoutePolicyModel>,
    authenticated: bool,
    client_id: u128,
    name: Seq<char>,
    hostname: Seq<char>,
    target_addr: Seq<char>,
)
    ensures
        ({
            let r = route_outcome(catalog, authenticated, client_id, name, hostname, target_addr);
            let host = hostname_of(hostname);
            let policy = granted(catalog, client_id, name, host->0, target_addr);
            &&& r is Ok <==> authenticated && host is Some && policy is Some
            &&& r is Ok ==> r->Ok_0.0 == host->0 && r->Ok_0.1 == policy->0
            &&& r is Err && r->Err_0 is InvalidCredentials <==> !authenticated
            &&& r is Err && r->Err_0 is InvalidHostname <==> authenticated && host is None
            &&& r is Err && r->Err_0 is NoPolicy <==> authenticated && host is Some && policy
                is None
        }),
{
}

/// Registrations are counted as registrations, and as reconnects where the client had
/// registered the host name before. Refusals are counted, those for credentials as
/// authentication failures too; a host name that is unsound is not counted.
pub proof fn law_route_registrations_are_counted(
    m: RegistrationMetrics,
    outcome: Result<(Seq<char>, HttpRouteRuntimePolicy), RouteRegistrationError>,
    reconnected: bool,
)
    ensures
        ({
            let a = route_metrics(m, outcome, reconnected);
            let denied = outcome is Err && outcome->Err_0 is InvalidCredentials;
            let refused = outcome is Err && outcome->Err_0 is NoPolicy;
            let up = |before: u64, after: u64|
                after == before + 1 || before == 0xffff_ffff_ffff_ffff && after == 0;
            &&& denied ==> up(m.authentication_failures_total, a.authentication_failures_total)
            &&& !denied ==> a.authentication_failures_total == m.authentication_failures_total
            &&& denied || refused ==> up(
                m.registration_rejections_total,
                a.registration_rejections_total,
            )
            &&& !denied && !refused ==> a.registration_rejections_total
                == m.registration_rejections_total
            &&& outcome is Ok ==> up(m.tunnel_registrations_total, a.tunnel_registrations_total)
            &&& outcome is Err ==> a.tunnel_registrations_total == m.tunnel_registrations_total
            &&& outcome is Ok && reconnected ==> up(
                m.tunnel_reconnects_total,
                a.tunnel_reconnects_total,
            )
            &&& outcome is Err || !reconnected ==> a.tunnel_reconnects_total
                == m.tunnel_reconnects_total
        }),
{
}

/// A granted route is pooled for its policy in plaintext HTTP/2, takes the place of
/// what stood under its host name, and is audited with its name, host and target.
pub proof fn law_route_grants_tell_what_was_granted(
    g: RouteGrant,
    host: Seq<char>,
    policy: HttpRouteRuntimePolicy,
    registration_id: u128,
    registry: Map<Seq<char>, u128>,
    reconnected: bool,
    name: Seq<char>,
    target_addr: Seq<char>,
)
    requires
        is_route_grant(
            g,
            host,
            policy,
            registration_id,
            registry,
            reconnected,
            name,
            target_addr,
        ),
    ensures
        g.hostname@ == host,
        g.registration_id == registration_id,
        g.policy == policy,
        g.origin@.policy_id == policy.policy_id,
        g.origin@.protocol is Http2,
        g.origin@.security is Plaintext,
        g.reconnected == reconnected,
        g.replaced is Some <==> registry.dom().contains(host),
        g.replaced is Some ==> g.replaced->0 == registry[host],
        g.audit@ == "name="@ + name + "; hostname="@ + host + "; target="@ + target_addr,
{
}

/// A proxy is registered exactly for an authenticated client with a policy and a bound
/// port, under that policy; each refusal is counted, and so is each registration.
pub proof fn law_proxies_take_credentials_a_policy_and_a_port(
    m: RegistrationMetrics,
    authenticated: bool,
    policy_id: Option<u128>,
    port_bound: bool,
)
    ensures
        ({
            let r = proxy_outcome(authenticated, policy_id, port_bound);
            let a = proxy_metrics(m, r);
            let up = |before: u64, after: u64|
                after == before + 1 || before == 0xffff_ffff_ffff_ffff && after == 0;
            &&& r is Ok <==> authenticated && policy_id is Some && port_bound
            &&& r is Ok ==> r->Ok_0 == policy_id->0
            &&& r is Err && r->Err_0 is InvalidCredentials <==> !authenticated
            &&& r is Err && r->Err_0 is NoPolicy <==> authenticated && policy_id is None
            &&& r is Err && r->Err_0 is PortUnavailable <==> authenticated && policy_id is Some
                && !port_bound
            &&& r is Ok ==> up(m.tunnel_registrations_total, a.tunnel_registrations_total)
                && a.registration_rejections_total == m.registration_rejections_total
            &&& r is Err ==> up(m.registration_rejections_total, a.registration_rejections_total)
                && a.tunnel_registrations_total == m.tunnel_registrations_total
            &&& a.authentication_failures_total == m.authentication_failures_total
                && a.tunnel_reconnects_total == m.tunnel_reconnects_total
        }),
{
}

/// Noting a registration tells whether the client had registered that host name before,
/// and remembers it.
pub proof fn law_seen_registrations_are_remembered(
    seen: &mut SeenRegistrations,
    client_id: u128,
    hostname: &str,
    r: bool,
    other: (u128, Seq<char>),
)
    requires
        call_ensures(SeenRegistrations::note, (seen, client_id, hostname), r),
    ensures
        r <==> old(seen)@.contains((client_id, hostname@)),
        final(seen)@.contains((client_id, hostname@)),
        other != (client_id, hostname@) ==> (final(seen)@.contains(other) <==> old(seen)@.contains(
            other,
        )),
{
}

/// A proxy that is registered stands under its policy with its port; a refused one
/// leaves the registry as it was.
pub proof fn law_registered_proxies_stand_under_their_policy(
    registration_id: u128,
    registry: &mut HttpProxyRegistry,
    metrics: &mut RegistrationMetrics,
    authenticated: bool,
    policy_id: Option<u128>,
    port_bound: bool,
    client_id: u128,
    name: &str,
    public_port: u16,
    r: Result<ProxyGrant, ProxyRegistrationError>,
    other: u128,
)
    requires
        call_ensures(
            register_proxy_as,
            (
                registration_id,
                registry,
                metrics,
                authenticated,
                policy_id,
                port_bound,
                client_id,
                name,
                public_port,
            ),
            r,
        ),
    ensures
        ({
            let m = old(registry)@;
            let n = final(registry)@;
            &&& r is Ok <==> authenticated && policy_id is Some && port_bound
            &&& r is Err ==> n == m
            &&& r is Ok ==> {
                let g = r->Ok_0;
                let id = policy_id->0;
                &&& g.policy_id == id
                &&& n.dom().contains(id) && n[id] == g.registration
                &&& g.registration.registration_id == registration_id
                &&& g.registration.public_port == public_port
                &&& g.replaced is Some <==> m.dom().contains(id)
                &&& g.replaced is Some ==> g.replaced->0 == m[id]
                &&& other != id ==> (n.dom().contains(other) <==> m.dom().contains(other))
                &&& other != id && m.dom().contains(other) ==> n[other] == m[other]
            }
        }),
{
}

/// A route that is registered stands under its host name; a refused one leaves the
/// registry, and what was seen, as they were.
pub proof fn law_registered_routes_stand_under_their_host(
    registration_id: u128,
    catalog: HttpRouteCatalog,
    registry: &mut HttpRouteRegistry,
    seen: &mut SeenRegistrations,
    metrics: &mut RegistrationMetrics,
    authenticated: bool,
    client_id: u128,
    name: &str,
    hostname: &str,
    target_addr: &str,
    r: Result<RouteGrant, RouteRegistrationError>,
    other: Seq<char>,
)
    requires
        call_ensures(
            register_route_as,
            (
                registration_id,
                &catalog,
                registry,
                seen,
                metrics,
                authenticated,
                client_id,
                name,
                hostname,
                target_addr,
            ),
            r,
        ),
    ensures
        ({
            let m = old(registry)@;
            let n = final(registry)@;
            let host = hostname_of(hostname@);
            let policy = granted(catalog@, client_id, name@, host->0, target_addr@);
            &&& r is Ok <==> authenticated && host is Some && policy is Some
            &&& r is Err ==> n == m && final(seen)@ == old(seen)@
            &&& r is Ok ==> {
                &&& n.dom().contains(host->0) && n[host->0] == registration_id
                &&& r->Ok_0.policy == policy->0 && r->Ok_0.hostname@ == host->0
                &&& r->Ok_0.reconnected <==> old(seen)@.contains((client_id, host->0))
                &&& final(seen)@.contains((client_id, host->0))
                &&& other != host->0 ==> (n.dom().contains(other) <==> m.dom().contains(other))
                &&& other != host->0 && m.dom().contains(other) ==> n[other] == m[other]
            }
        }),
{
}

} // verus!
