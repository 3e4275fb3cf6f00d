//! Tunnel policies on their way between fleet members: what a member exports,
//! and what an import would create, leave as it is or refuse.

use crate::text::{opt_view, same_text, string_views};
use vstd::prelude::*;
use vstd::string::*;

verus! {

/// A TCP policy as it travels.
#[derive(Clone, Debug, PartialEq, Eq)]
pub struct FleetTcpPolicy {
    pub client_name: String,
    pub name: String,
    pub public_port: u16,
    pub target_addr: String,
    pub max_connections: u16,
    pub bandwidth_limit_bps: Option<u64>,
    pub enabled: bool,
}

/// What a [`FleetTcpPolicy`] says.
pub struct FleetTcpPolicyModel {
    pub client_name: Seq<char>,
    pub name: Seq<char>,
    pub public_port: u16,
    pub target_addr: Seq<char>,
    pub max_connections: u16,
    pub bandwidth_limit_bps: Option<u64>,
    pub enabled: bool,
}

impl View for FleetTcpPolicy {
    type V = FleetTcpPolicyModel;

    open spec fn view(&self) -> FleetTcpPolicyModel {
        FleetTcpPolicyModel {
            client_name: self.client_name@,
            name: self.name@,
            public_port: self.public_port,
            target_addr: self.target_addr@,
            max_connections: self.max_connections,
            bandwidth_limit_bps: self.bandwidth_limit_bps,
            enabled: self.enabled,
        }
    }
}

impl FleetTcpPolicy {
    /// A copy of the value.
    pub fn duplicate(&self) -> (r: Self)
        ensures
            r@ == self@,
    {
        let r = FleetTcpPolicy {
            client_name: self.client_name.clone(),
            name: self.name.clone(),
            public_port: self.public_port,
            target_addr: self.target_addr.clone(),
            max_connections: self.max_connections,
            bandwidth_limit_bps: self.bandwidth_limit_bps,
            enabled: self.enabled,
        };
        r
    }
}

/// A UDP policy as it travels.
#[derive(Clone, Debug, PartialEq, Eq)]
pub struct FleetUdpPolicy {
    pub client_name: String,
    pub name: String,
    pub public_port: u16,
    pub target_addr: String,
    pub max_sessions: u16,
    pub session_idle_timeout_seconds: u32,
    pub bandwidth_limit_bps: Option<u64>,
    pub enabled: bool,
}

/// What a [`FleetUdpPolicy`] says.
pub struct FleetUdpPolicyModel {
    pub client_name: Seq<char>,
    pub name: Seq<char>,
    pub public_port: u16,
    pub target_addr: Seq<char>,
    pub max_sessions: u16,
    pub session_idle_timeout_seconds: u32,
    pub bandwidth_limit_bps: Option<u64>,
    pub enabled: bool,
}

impl View for FleetUdpPolicy {
    type V = FleetUdpPolicyModel;

    open spec fn view(&self) -> FleetUdpPolicyModel {
        FleetUdpPolicyModel {
            client_name: self.client_name@,
            name: self.name@,
            public_port: self.public_port,
            target_addr: self.target_addr@,
            max_sessions: self.max_sessions,
            session_idle_timeout_seconds: self.session_idle_timeout_seconds,
            bandwidth_limit_bps: self.bandwidth_limit_bps,
            enabled: self.enabled,
        }
    }
}

impl FleetUdpPolicy {
    /// A copy of the value.
    pub fn duplicate(&self) -> (r: Self)
        ensures
            r@ == self@,
    {
        let r = FleetUdpPolicy {
            client_name: self.client_name.clone(),
            name: self.name.clone(),
            public_port: self.public_port,
            target_addr: self.target_addr.clone(),
            max_sessions: self.max_sessions,
            session_idle_timeout_seconds: self.session_idle_timeout_seconds,
            bandwidth_limit_bps: self.bandwidth_limit_bps,
            enabled: self.enabled,
        };
        r
    }
}

/// The policies of a member.
#[derive(Clone, Debug, PartialEq, Eq)]
pub struct FleetPolicyBundle {
    pub tcp: Vec<FleetTcpPolicy>,
    pub udp: Vec<FleetUdpPolicy>,
}

/// What a [`FleetPolicyBundle`] says.
pub struct FleetPolicyBundleModel {
    pub tcp: Seq<FleetTcpPolicyModel>,
    pub udp: Seq<FleetUdpPolicyModel>,
}

impl View for FleetPolicyBundle {
    type V = FleetPolicyBundleModel;

    open spec fn view(&self) -> FleetPolicyBundleModel {
        FleetPolicyBundleModel {
            tcp: self.tcp@.map_values(|x: FleetTcpPolicy| x@),
            udp: self.udp@.map_values(|x: FleetUdpPolicy| x@),
        }
    }
}

/// What an import came to.
#[derive(Clone, Debug, PartialEq, Eq)]
pub struct FleetImportResult {
    pub created: usize,
    pub unchanged: usize,
    pub conflicts: Vec<String>,
}

/// What a [`FleetImportResult`] says.
pub struct FleetImportResultModel {
    pub created: usize,
    pub unchanged: usize,
    pub conflicts: Seq<Seq<char>>,
}

impl View for FleetImportResult {
    type V = FleetImportResultModel;

    open spec fn view(&self) -> FleetImportResultModel {
        FleetImportResultModel {
            created: self.created,
            unchanged: self.unchanged,
            conflicts: string_views(self.conflicts@),
        }
    }
}

/// A client that policies belong to.
#[derive(Clone, Debug, PartialEq, Eq)]
pub struct FleetClient {
    pub client_id: u128,
    pub name: String,
    pub enabled: bool,
}

/// What a [`FleetClient`] says.
pub struct FleetClientModel {
    pub client_id: u128,
    pub name: Seq<char>,
    pub enabled: bool,
}

impl View for FleetClient {
    type V = FleetClientModel;

    open spec fn view(&self) -> FleetClientModel {
        FleetClientModel {
            client_id: self.client_id,
            name: self.name@,
            enabled: self.enabled,
        }
    }
}

impl FleetClient {
    /// A copy of the value.
    pub fn duplicate(&self) -> (r: Self)
        ensures
            r@ == self@,
    {
        let r = FleetClient {
            client_id: self.client_id,
            name: self.name.clone(),
            enabled: self.enabled,
        };
        r
    }

    /// Copies of a list of values.
    pub fn duplicate_all(v: &Vec<Self>) -> (r: Vec<Self>)
        ensures
            r@.map_values(|x: Self| x@) == v@.map_values(|x: Self| x@),
    {
        let mut out: Vec<Self> = Vec::new();
        let mut i: usize = 0;
        while i < v.len()
            invariant
                i <= v@.len(),
                out@.len() == i,
                forall|j: int| 0 <= j < i ==> (#[trigger] out@[j])@ == v@[j]@,
            decreases v@.len() - i,
        {
            out.push(v[i].duplicate());
            i = i + 1;
        }
        assert(out@.map_values(|x: Self| x@) =~= v@.map_values(|x: Self| x@));
        out
    }
}

/// What a policy tunnels.
#[derive(Clone, Copy, Debug, PartialEq, Eq, Structural)]
pub enum TunnelKind {
    Tcp,
    Udp,
    /// A tunnel that does not travel.
    Other,
}

pub open spec fn kind_name(kind: TunnelKind) -> Seq<char> {
    match kind {
        TunnelKind::Tcp => "TCP"@,
        TunnelKind::Udp => "UDP"@,
        TunnelKind::Other => "Tunnel"@,
    }
}

impl TunnelKind {
    pub fn as_str(self) -> (r: &'static str)
        ensures
            r@ == kind_name(self),
    {
        match self {
            TunnelKind::Tcp => "TCP",
            TunnelKind::Udp => "UDP",
            TunnelKind::Other => "Tunnel",
        }
    }
}

/// A public port that a policy keeps for itself.
#[derive(Clone, Copy, Debug, PartialEq, Eq, Structural)]
pub struct PortReservation {
    pub kind: TunnelKind,
    pub port: u16,
}

/// A policy of this member. The limit is that of connections or of sessions,
/// and only the latter have an idle timeout.
#[derive(Debug)]
pub struct TunnelPolicy {
    pub id: u128,
    pub kind: TunnelKind,
    pub client_id: u128,
    pub name: String,
    pub public_port: u16,
    pub target_addr: String,
    pub limit: u16,
    pub session_idle_timeout_seconds: Option<u32>,
    pub bandwidth_limit_bps: Option<u64>,
    pub enabled: bool,
    pub reservations: Vec<PortReservation>,
}

pub struct TunnelPolicyModel {
    pub id: u128,
    pub kind: TunnelKind,
    pub client_id: u128,
    pub name: Seq<char>,
    pub public_port: u16,
    pub target_addr: Seq<char>,
    pub limit: u16,
    pub session_idle_timeout_seconds: Option<u32>,
    pub bandwidth_limit_bps: Option<u64>,
    pub enabled: bool,
    pub reservations: Seq<PortReservation>,
}

impl View for TunnelPolicy {
    type V = TunnelPolicyModel;

    open spec fn view(&self) -> TunnelPolicyModel {
        TunnelPolicyModel {
            id: self.id,
            kind: self.kind,
            client_id: self.client_id,
            name: self.name@,
            public_port: self.public_port,
            target_addr: self.target_addr@,
            limit: self.limit,
            session_idle_timeout_seconds: self.session_idle_timeout_seconds,
            bandwidth_limit_bps: self.bandwidth_limit_bps,
            enabled: self.enabled,
            reservations: self.reservations@,
        }
    }
}

impl TunnelPolicy {
    /// A copy of the value.
    pub fn duplicate(&self) -> (r: Self)
        ensures
            r@ == self@,
    {
        let mut reservations: Vec<PortReservation> = Vec::new();
        let mut i: usize = 0;
        while i < self.reservations.len()
            invariant
                i <= self.reservations@.len(),
                reservations@ == self.reservations@.take(i as int),
            decreases self.reservations@.len() - i,
        {
            reservations.push(self.reservations[i]);
            assert(self.reservations@.take(i + 1) =~= self.reservations@.take(i as int).push(
                self.reservations@[i as int],
            ));
            i = i + 1;
        }
        assert(reservations@ =~= self.reservations@);
        TunnelPolicy {
            id: self.id,
            kind: self.kind,
            client_id: self.client_id,
            name: self.name.clone(),
            public_port: self.public_port,
            target_addr: self.target_addr.clone(),
            limit: self.limit,
            session_idle_timeout_seconds: self.session_idle_timeout_seconds,
            bandwidth_limit_bps: self.bandwidth_limit_bps,
            enabled: self.enabled,
            reservations,
        }
    }
}

pub open spec fn policy_models(v: Seq<TunnelPolicy>) -> Seq<TunnelPolicyModel> {
    v.map_values(|x: TunnelPolicy| x@)
}

pub open spec fn client_models(v: Seq<FleetClient>) -> Seq<FleetClientModel> {
    v.map_values(|x: FleetClient| x@)
}

// ---------------------------------------------------------------------------
// Export
// ---------------------------------------------------------------------------

/// The name of a client. Where an identifier occurs twice, the later one
/// counts.
pub open spec fn client_name_of(clients: Seq<FleetClientModel>, id: u128) -> Option<Seq<char>>
    decreases clients.len(),
{
    if clients.len() == 0 {
        None
    } else if clients.last().client_id == id {
        Some(clients.last().name)
    } else {
        client_name_of(clients.drop_last(), id)
    }
}

pub open spec fn exported_tcp(clients: Seq<FleetClientModel>, policies: Seq<TunnelPolicyModel>) -> Seq<
    FleetTcpPolicyModel,
>
    decreases policies.len(),
{
    if policies.len() == 0 {
        Seq::empty()
    } else {
        let rest = exported_tcp(clients, policies.drop_last());
        let p = policies.last();
        match (p.kind, client_name_of(clients, p.client_id)) {
            (TunnelKind::Tcp, Some(client_name)) => rest.push(
                FleetTcpPolicyModel {
                    client_name,
                    name: p.name,
                    public_port: p.public_port,
                    target_addr: p.target_addr,
                    max_connections: p.limit,
                    bandwidth_limit_bps: p.bandwidth_limit_bps,
                    enabled: p.enabled,
                },
            ),
            _ => rest,
        }
    }
}

/// The idle timeout of a policy of sessions.
pub open spec fn idle_timeout(p: TunnelPolicyModel) -> u32 {
    match p.session_idle_timeout_seconds {
        Some(seconds) => seconds,
        None => 0,
    }
}

pub open spec fn exported_udp(clients: Seq<FleetClientModel>, policies: Seq<TunnelPolicyModel>) -> Seq<
    FleetUdpPolicyModel,
>
    decreases policies.len(),
{
    if policies.len() == 0 {
        Seq::empty()
    } else {
        let rest = exported_udp(clients, policies.drop_last());
        let p = policies.last();
        match (p.kind, client_name_of(clients, p.client_id)) {
            (TunnelKind::Udp, Some(client_name)) => rest.push(
                FleetUdpPolicyModel {
                    client_name,
                    name: p.name,
                    public_port: p.public_port,
                    target_addr: p.target_addr,
                    max_sessions: p.limit,
                    session_idle_timeout_seconds: idle_timeout(p),
                    bandwidth_limit_bps: p.bandwidth_limit_bps,
                    enabled: p.enabled,
                },
            ),
            _ => rest,
        }
    }
}

fn find_client_name(clients: &Vec<FleetClient>, id: u128) -> (r: Option<String>)
    ensures
        opt_view(r) == client_name_of(client_models(clients@), id),
{
    let ghost s = client_models(clients@);
    let mut i: usize = clients.len();
    assert(s.take(i as int) =~= s);
    while i > 0
        invariant
            i <= clients@.len(),
            s == client_models(clients@),
            client_name_of(s, id) == client_name_of(s.take(i as int), id),
        decreases i,
    {
        assert(s.take(i as int).drop_last() =~= s.take(i - 1));
        assert(s.take(i as int).last() == clients@[i - 1]@);
        if clients[i - 1].client_id == id {
            return Some(clients[i - 1].name.clone());
        }
        i = i - 1;
    }
    None
}

/// The policies of known clients. Passwords and identifiers do not travel.
pub fn export_policy_bundle(clients: &Vec<FleetClient>, policies: &Vec<TunnelPolicy>) -> (r:
    FleetPolicyBundle)
    ensures
        r@.tcp == exported_tcp(client_models(clients@), policy_models(policies@)),
        r@.udp == exported_udp(client_models(clients@), policy_models(policies@)),
{
    let ghost c = client_models(clients@);
    let ghost s = policy_models(policies@);
    let mut tcp: Vec<FleetTcpPolicy> = Vec::new();
    let mut udp: Vec<FleetUdpPolicy> = Vec::new();
    let mut i: usize = 0;
    assert(tcp@.map_values(|x: FleetTcpPolicy| x@) =~= exported_tcp(c, s.take(0)));
    assert(udp@.map_values(|x: FleetUdpPolicy| x@) =~= exported_udp(c, s.take(0)));
    while i < policies.len()
        invariant
            i <= policies@.len(),
            c == client_models(clients@),
            s == policy_models(policies@),
            tcp@.map_values(|x: FleetTcpPolicy| x@) == exported_tcp(c, s.take(i as int)),
            udp@.map_values(|x: FleetUdpPolicy| x@) == exported_udp(c, s.take(i as int)),
        decreases policies@.len() - i,
    {
        let p = &policies[i];
        assert(s.take(i + 1).drop_last() =~= s.take(i as int));
        assert(s.take(i + 1).last() == p@);
        if let Some(client_name) = find_client_name(clients, p.client_id) {
            match p.kind {
                TunnelKind::Tcp => {
                    let item = FleetTcpPolicy {
                        client_name,
                        name: p.name.clone(),
                        public_port: p.public_port,
                        target_addr: p.target_addr.clone(),
                        max_connections: p.limit,
                        bandwidth_limit_bps: p.bandwidth_limit_bps,
                        enabled: p.enabled,
                    };
                    let ghost before = tcp@;
                    let ghost m = item@;
                    tcp.push(item);
                    assert(tcp@.map_values(|x: FleetTcpPolicy| x@) =~= before.map_values(
                        |x: FleetTcpPolicy| x@,
                    ).push(m));
                },
                TunnelKind::Udp => {
                    let item = FleetUdpPolicy {
                        client_name,
                        name: p.name.clone(),
                        public_port: p.public_port,
                        target_addr: p.target_addr.clone(),
                        max_sessions: p.limit,
                        session_idle_timeout_seconds: match p.session_idle_timeout_seconds {
                            Some(seconds) => seconds,
                            None => 0,
                        },
                        bandwidth_limit_bps: p.bandwidth_limit_bps,
                        enabled: p.enabled,
                    };
                    let ghost before = udp@;
                    let ghost m = item@;
                    udp.push(item);
                    assert(udp@.map_values(|x: FleetUdpPolicy| x@) =~= before.map_values(
                        |x: FleetUdpPolicy| x@,
                    ).push(m));
                },
                TunnelKind::Other => {},
            }
        }
        i = i + 1;
    }
    assert(s.take(s.len() as int) =~= s);
    FleetPolicyBundle { tcp, udp }
}

// ---------------------------------------------------------------------------
// What an import wants
// ---------------------------------------------------------------------------

/// A policy that an import wants.
#[derive(Clone, Debug, PartialEq, Eq)]
pub struct WantedPolicy {
    pub kind: TunnelKind,
    pub client_name: String,
    pub name: String,
    pub public_port: u16,
    pub target_addr: String,
    pub limit: u16,
    pub session_idle_timeout_seconds: Option<u32>,
    pub bandwidth_limit_bps: Option<u64>,
    pub enabled: bool,
}

/// What a [`WantedPolicy`] says.
pub struct WantedPolicyModel {
    pub kind: TunnelKind,
    pub client_name: Seq<char>,
    pub name: Seq<char>,
    pub public_port: u16,
    pub target_addr: Seq<char>,
    pub limit: u16,
    pub session_idle_timeout_seconds: Option<u32>,
    pub bandwidth_limit_bps: Option<u64>,
    pub enabled: bool,
}

impl View for WantedPolicy {
    type V = WantedPolicyModel;

    open spec fn view(&self) -> WantedPolicyModel {
        WantedPolicyModel {
            kind: self.kind,
            client_name: self.client_name@,
            name: self.name@,
            public_port: self.public_port,
            target_addr: self.target_addr@,
            limit: self.limit,
            session_idle_timeout_seconds: self.session_idle_timeout_seconds,
            bandwidth_limit_bps: self.bandwidth_limit_bps,
            enabled: self.enabled,
        }
    }
}

impl WantedPolicy {
    /// A copy of the value.
    pub fn duplicate(&self) -> (r: Self)
        ensures
            r@ == self@,
    {
        let r = WantedPolicy {
            kind: self.kind,
            client_name: self.client_name.clone(),
            name: self.name.clone(),
            public_port: self.public_port,
            target_addr: self.target_addr.clone(),
            limit: self.limit,
            session_idle_timeout_seconds: self.session_idle_timeout_seconds,
            bandwidth_limit_bps: self.bandwidth_limit_bps,
            enabled: self.enabled,
        };
        r
    }
}

pub open spec fn wanted_tcp(p: FleetTcpPolicyModel) -> WantedPolicyModel {
    WantedPolicyModel {
        kind: TunnelKind::Tcp,
        client_name: p.client_name,
        name: p.name,
        public_port: p.public_port,
        target_addr: p.target_addr,
        limit: p.max_connections,
        session_idle_timeout_seconds: None,
        bandwidth_limit_bps: p.bandwidth_limit_bps,
        enabled: p.enabled,
    }
}

pub open spec fn wanted_udp(p: FleetUdpPolicyModel) -> WantedPolicyModel {
    WantedPolicyModel {
        kind: TunnelKind::Udp,
        client_name: p.client_name,
        name: p.name,
        public_port: p.public_port,
        target_addr: p.target_addr,
        limit: p.max_sessions,
        session_idle_timeout_seconds: Some(p.session_idle_timeout_seconds),
        bandwidth_limit_bps: p.bandwidth_limit_bps,
        enabled: p.enabled,
    }
}

/// The policies that a bundle wants: first those for TCP.
pub open spec fn wanted_of(bundle: FleetPolicyBundleModel) -> Seq<WantedPolicyModel> {
    bundle.tcp.map_values(|p: FleetTcpPolicyModel| wanted_tcp(p)) + bundle.udp.map_values(
        |p: FleetUdpPolicyModel| wanted_udp(p),
    )
}

pub open spec fn wanted_models(v: Seq<WantedPolicy>) -> Seq<WantedPolicyModel> {
    v.map_values(|x: WantedPolicy| x@)
}

/// The policies that a bundle wants.
pub fn wanted_policies(bundle: &FleetPolicyBundle) -> (r: Vec<WantedPolicy>)
    ensures
        wanted_models(r@) == wanted_of(bundle@),
{
    let mut out: Vec<WantedPolicy> = Vec::new();
    let mut i: usize = 0;
    while i < bundle.tcp.len()
        invariant
            i <= bundle.tcp@.len(),
            out@.len() == i,
            forall|j: int| 0 <= j < i ==> (#[trigger] out@[j])@ == wanted_tcp(bundle.tcp@[j]@),
        decreases bundle.tcp@.len() - i,
    {
        let p = &bundle.tcp[i];
        out.push(
            WantedPolicy {
                kind: TunnelKind::Tcp,
                client_name: p.client_name.clone(),
                name: p.name.clone(),
                public_port: p.public_port,
                target_addr: p.target_addr.clone(),
                limit: p.max_connections,
                session_idle_timeout_seconds: None,
                bandwidth_limit_bps: p.bandwidth_limit_bps,
                enabled: p.enabled,
            },
        );
        i = i + 1;
    }
    let ghost first = out@;
    let mut i: usize = 0;
    while i < bundle.udp.len()
        invariant
            i <= bundle.udp@.len(),
            first.len() == bundle.tcp@.len(),
            out@.len() == first.len() + i,
            forall|j: int|
                0 <= j < first.len() ==> (#[trigger] out@[j])@ == wanted_tcp(bundle.tcp@[j]@),
            forall|j: int|
                first.len() <= j < out@.len() ==> (#[trigger] out@[j])@ == wanted_udp(
                    bundle.udp@[j - first.len()]@,
                ),
        decreases bundle.udp@.len() - i,
    {
        let p = &bundle.udp[i];
        out.push(
            WantedPolicy {
                kind: TunnelKind::Udp,
                client_name: p.client_name.clone(),
                name: p.name.clone(),
                public_port: p.public_port,
                target_addr: p.target_addr.clone(),
                limit: p.max_sessions,
                session_idle_timeout_seconds: Some(p.session_idle_timeout_seconds),
                bandwidth_limit_bps: p.bandwidth_limit_bps,
                enabled: p.enabled,
            },
        );
        i = i + 1;
    }
    assert(wanted_models(out@) =~= wanted_of(bundle@));
    out
}

/// The identifiers of the enabled clients of a name.
pub open spec fn enabled_ids(clients: Seq<FleetClientModel>, name: Seq<char>) -> Seq<u128>
    decreases clients.len(),
{
    if clients.len() == 0 {
        Seq::empty()
    } else if clients.last().enabled && clients.last().name == name {
        enabled_ids(clients.drop_last(), name).push(clients.last().client_id)
    } else {
        enabled_ids(clients.drop_last(), name)
    }
}

/// How many enabled clients have a name, and one of them.
fn count_clients(clients: &Vec<FleetClient>, name: &str) -> (r: (usize, u128))
    ensures
        r.0 == enabled_ids(client_models(clients@), name@).len(),
        r.0 > 0 ==> r.1 == enabled_ids(client_models(clients@), name@).last(),
{
    let ghost s = client_models(clients@);
    let mut n: usize = 0;
    let mut id: u128 = 0;
    let mut i: usize = 0;
    while i < clients.len()
        invariant
            i <= clients@.len(),
            s == client_models(clients@),
            n <= i,
            n == enabled_ids(s.take(i as int), name@).len(),
            n > 0 ==> id == enabled_ids(s.take(i as int), name@).last(),
        decreases clients@.len() - i,
    {
        assert(s.take(i + 1).drop_last() =~= s.take(i as int));
        assert(s.take(i + 1).last() == clients@[i as int]@);
        if clients[i].enabled && same_text(clients[i].name.as_str(), name) {
            n = n + 1;
            id = clients[i].client_id;
        }
        i = i + 1;
    }
    assert(s.take(s.len() as int) =~= s);
    (n, id)
}

/// The first policy of a kind and name.
pub open spec fn find_policy(s: Seq<TunnelPolicyModel>, kind: TunnelKind, name: Seq<char>) -> Option<
    TunnelPolicyModel,
>
    decreases s.len(),
{
    if s.len() == 0 {
        None
    } else if s[0].kind == kind && s[0].name == name {
        Some(s[0])
    } else {
        find_policy(s.drop_first(), kind, name)
    }
}

fn policy_index(v: &Vec<TunnelPolicy>, kind: TunnelKind, name: &str) -> (r: Option<usize>)
    ensures
        match r {
            Some(i) => i < v@.len() && find_policy(policy_models(v@), kind, name@) == Some(
                v@[i as int]@,
            ),
            None => find_policy(policy_models(v@), kind, name@) is None,
        },
{
    let ghost s = policy_models(v@);
    let mut i: usize = 0;
    assert(s.skip(0) =~= s);
    while i < v.len()
        invariant
            i <= v@.len(),
            s == policy_models(v@),
            find_policy(s, kind, name@) == find_policy(s.skip(i as int), kind, name@),
        decreases v@.len() - i,
    {
        assert(s.skip(i as int)[0] == v@[i as int]@);
        assert(s.skip(i as int).drop_first() =~= s.skip(i + 1));
        if v[i].kind == kind && same_text(v[i].name.as_str(), name) {
            return Some(i);
        }
        i = i + 1;
    }
    None
}

// ---------------------------------------------------------------------------
// Import, one policy after another
// ---------------------------------------------------------------------------

/// What becomes of a wanted policy.
pub enum ImportDecision {
    Conflict(Seq<char>),
    Unchanged,
    /// The policy is created for a client.
    Create(u128),
}

/// Whether an existing policy is what is wanted for a client.
pub open spec fn as_wanted(p: TunnelPolicyModel, w: WantedPolicyModel, client_id: u128) -> bool {
    p.client_id == client_id && p.public_port == w.public_port && p.target_addr == w.target_addr
        && p.limit == w.limit && p.session_idle_timeout_seconds == w.session_idle_timeout_seconds
        && p.bandwidth_limit_bps == w.bandwidth_limit_bps && p.enabled == w.enabled
}

/// The name of a policy as conflicts give it.
pub open spec fn policy_label(w: WantedPolicyModel) -> Seq<char> {
    kind_name(w.kind) + " "@ + w.name + ": "@
}

/// What becomes of a wanted policy. An existing policy is never overwritten.
pub open spec fn decision(
    w: WantedPolicyModel,
    clients: Seq<FleetClientModel>,
    existing: Seq<TunnelPolicyModel>,
) -> ImportDecision {
    let ids = enabled_ids(clients, w.client_name);
    if ids.len() == 0 {
        ImportDecision::Conflict(
            policy_label(w) + "client '"@ + w.client_name + "' is missing"@,
        )
    } else if ids.len() != 1 {
        ImportDecision::Conflict(
            policy_label(w) + "client name '"@ + w.client_name + "' is ambiguous"@,
        )
    } else {
        match find_policy(existing, w.kind, w.name) {
            Some(p) => if as_wanted(p, w, ids[0]) {
                ImportDecision::Unchanged
            } else {
                ImportDecision::Conflict(
                    policy_label(w) + "an incompatible policy with the same name exists"@,
                )
            },
            None => ImportDecision::Create(ids[0]),
        }
    }
}

/// An import under way.
pub struct ImportModel {
    pub wanted: Seq<WantedPolicyModel>,
    pub clients: Seq<FleetClientModel>,
    pub existing: Seq<TunnelPolicyModel>,
    pub dry_run: bool,
    /// The policy that is next.
    pub position: nat,
    pub result: FleetImportResultModel,
}

pub open spec fn with_conflict(r: FleetImportResultModel, text: Seq<char>) -> FleetImportResultModel {
    FleetImportResultModel { conflicts: r.conflicts.push(text), ..r }
}

pub open spec fn with_created(r: FleetImportResultModel) -> FleetImportResultModel {
    FleetImportResultModel { created: (r.created + 1) as usize, ..r }
}

pub open spec fn with_unchanged(r: FleetImportResultModel) -> FleetImportResultModel {
    FleetImportResultModel { unchanged: (r.unchanged + 1) as usize, ..r }
}

/// The import up to the next policy that has to be created, or up to its end. A
/// dry run counts what it would create.
pub open spec fn settled(m: ImportModel) -> ImportModel
    decreases m.wanted.len() - m.position,
{
    if m.position >= m.wanted.len() {
        m
    } else {
        match decision(m.wanted[m.position as int], m.clients, m.existing) {
            ImportDecision::Conflict(text) => settled(
                ImportModel {
                    position: m.position + 1,
                    result: with_conflict(m.result, text),
                    ..m
                },
            ),
            ImportDecision::Unchanged => settled(
                ImportModel { position: m.position + 1, result: with_unchanged(m.result), ..m },
            ),
            ImportDecision::Create(_) => if m.dry_run {
                settled(
                    ImportModel { position: m.position + 1, result: with_created(m.result), ..m },
                )
            } else {
                m
            },
        }
    }
}

/// The import after the policy that it stopped at was created, or could not be.
pub open spec fn answered(m: ImportModel, outcome: Result<TunnelPolicyModel, Seq<char>>) -> ImportModel {
    match outcome {
        Ok(created) => ImportModel {
            position: m.position + 1,
            existing: m.existing.push(created),
            result: with_created(m.result),
            ..m
        },
        Err(error) => ImportModel {
            position: m.position + 1,
            result: with_conflict(
                m.result,
                policy_label(m.wanted[m.position as int]) + error,
            ),
            ..m
        },
    }
}

/// Every policy that was looked at is counted once.
pub open spec fn counts_match(m: ImportModel) -> bool {
    m.position <= m.wanted.len() && m.wanted.len() <= usize::MAX && m.result.created
        + m.result.unchanged + m.result.conflicts.len() == m.position
}

/// A policy to be created for a client. A policy that is not enabled is created
/// and then switched off.
#[derive(Debug)]
pub struct TunnelRequest {
    pub client_id: u128,
    pub policy: WantedPolicy,
}

/// An import under way.
#[derive(Debug)]
pub struct PolicyImport {
    wanted: Vec<WantedPolicy>,
    clients: Vec<FleetClient>,
    existing: Vec<TunnelPolicy>,
    dry_run: bool,
    position: usize,
    result: FleetImportResult,
}

impl View for PolicyImport {
    type V = ImportModel;

    closed spec fn view(&self) -> ImportModel {
        ImportModel {
            wanted: wanted_models(self.wanted@),
            clients: client_models(self.clients@),
            existing: policy_models(self.existing@),
            dry_run: self.dry_run,
            position: self.position as nat,
            result: self.result@,
        }
    }
}

fn label_of(w: &WantedPolicy) -> (r: String)
    ensures
        r@ == policy_label(w@),
{
    let mut out = w.kind.as_str().to_owned();
    out.append(" ");
    out.append(w.name.as_str());
    out.append(": ");
    out
}

fn is_as_wanted(p: &TunnelPolicy, w: &WantedPolicy, client_id: u128) -> (r: bool)
    ensures
        r == as_wanted(p@, w@, client_id),
{
    p.client_id == client_id && p.public_port == w.public_port && p.target_addr == w.target_addr
        && p.limit == w.limit && p.session_idle_timeout_seconds == w.session_idle_timeout_seconds
        && p.bandwidth_limit_bps == w.bandwidth_limit_bps && p.enabled == w.enabled
}

/// What becomes of a wanted policy: the text of a conflict, nothing, or the
/// client that it is created for.
fn decide(w: &WantedPolicy, clients: &Vec<FleetClient>, existing: &Vec<TunnelPolicy>) -> (r: Result<
    Option<u128>,
    String,
>)
    ensures
        match decision(w@, client_models(clients@), policy_models(existing@)) {
            ImportDecision::Conflict(text) => r is Err && r->Err_0@ == text,
            ImportDecision::Unchanged => r is Ok && r->Ok_0 is None,
            ImportDecision::Create(id) => r is Ok && r->Ok_0 == Some(id),
        },
{
    let (n, id) = count_clients(clients, w.client_name.as_str());
    if n == 0 {
        let mut out = label_of(w);
        out.append("client '");
        out.append(w.client_name.as_str());
        out.append("' is missing");
        return Err(out);
    }
    if n != 1 {
        let mut out = label_of(w);
        out.append("client name '");
        out.append(w.client_name.as_str());
        out.append("' is ambiguous");
        return Err(out);
    }
    match policy_index(existing, w.kind, w.name.as_str()) {
        Some(i) => if is_as_wanted(&existing[i], w, id) {
            Ok(None)
        } else {
            let mut out = label_of(w);
            out.append("an incompatible policy with the same name exists");
            Err(out)
        },
        None => Ok(Some(id)),
    }
}

fn push_conflict(result: &mut FleetImportResult, text: String)
    ensures
        final(result)@ == with_conflict(old(result)@, text@),
{
    let ghost before = result.conflicts@;
    result.conflicts.push(text);
    assert(string_views(result.conflicts@) =~= string_views(before).push(text@));
}

fn copy_policies(v: &Vec<TunnelPolicy>) -> (r: Vec<TunnelPolicy>)
    ensures
        policy_models(r@) == policy_models(v@),
{
    let mut out: Vec<TunnelPolicy> = Vec::new();
    let mut i: usize = 0;
    while i < v.len()
        invariant
            i <= v@.len(),
            out@.len() == i,
            forall|j: int| 0 <= j < i ==> (#[trigger] out@[j])@ == v@[j]@,
        decreases v@.len() - i,
    {
        out.push(v[i].duplicate());
        i = i + 1;
    }
    assert(policy_models(out@) =~= policy_models(v@));
    out
}

fn no_result() -> (r: FleetImportResult)
    ensures
        r@ == empty_result(),
{
    let r = FleetImportResult { created: 0, unchanged: 0, conflicts: Vec::new() };
    assert(r@.conflicts =~= Seq::empty());
    r
}

pub open spec fn empty_result() -> FleetImportResultModel {
    FleetImportResultModel { created: 0, unchanged: 0, conflicts: Seq::empty() }
}

/// An import that is about to begin.
pub open spec fn import_of(
    bundle: FleetPolicyBundleModel,
    clients: Seq<FleetClientModel>,
    existing: Seq<TunnelPolicyModel>,
    dry_run: bool,
) -> ImportModel {
    ImportModel {
        wanted: wanted_of(bundle),
        clients,
        existing,
        dry_run,
        position: 0,
        result: empty_result(),
    }
}

impl PolicyImport {
    /// An import of a bundle next to the existing policies.
    pub fn begin(
        bundle: &FleetPolicyBundle,
        clients: &Vec<FleetClient>,
        existing: &Vec<TunnelPolicy>,
        dry_run: bool,
    ) -> (r: Self)
        ensures
            r@ == import_of(
                bundle@,
                client_models(clients@),
                policy_models(existing@),
                dry_run,
            ),
            counts_match(r@),
    {
        let wanted = wanted_policies(bundle);
        let n = wanted.len();
        let r = PolicyImport {
            wanted,
            clients: FleetClient::duplicate_all(clients),
            existing: copy_policies(existing),
            dry_run,
            position: 0,
            result: no_result(),
        };
        assert(r@.wanted.len() == n);
        r
    }

    /// Goes on to the next policy that has to be created, if there is one.
    pub fn advance(&mut self) -> (r: Option<TunnelRequest>)
        requires
            counts_match(old(self)@),
        ensures
            final(self)@ == settled(old(self)@),
            counts_match(final(self)@),
            match r {
                Some(request) => final(self)@.position < final(self)@.wanted.len() && !final(
                    self)@.dry_run && request.policy@ == final(self)@.wanted[final(
                    self)@.position as int] && decision(
                    request.policy@,
                    final(self)@.clients,
                    final(self)@.existing,
                ) == ImportDecision::Create(request.client_id),
                None => final(self)@.position == final(self)@.wanted.len(),
            },
    {
        while self.position < self.wanted.len()
            invariant
                settled(self@) == settled(old(self)@),
                counts_match(self@),
            decreases self.wanted@.len() - self.position,
        {
            let ghost before = self@;
            assert(before.wanted[before.position as int] == self.wanted@[self.position as int]@);
            let decided = decide(&self.wanted[self.position], &self.clients, &self.existing);
            match decided {
                Err(text) => {
                    push_conflict(&mut self.result, text);
                },
                Ok(None) => {
                    self.result.unchanged = self.result.unchanged + 1;
                },
                Ok(Some(client_id)) => {
                    if !self.dry_run {
                        return Some(
                            TunnelRequest {
                                client_id,
                                policy: self.wanted[self.position].duplicate(),
                            },
                        );
                    }
                    self.result.created = self.result.created + 1;
                },
            }
            self.position = self.position + 1;
        }
        None
    }

    /// Takes note of how the creation of the policy that the import stopped at
    /// came out.
    pub fn answer(&mut self, outcome: Result<TunnelPolicy, String>)
        requires
            counts_match(old(self)@),
            old(self)@.position < old(self)@.wanted.len(),
        ensures
            final(self)@ == answered(
                old(self)@,
                match outcome {
                    Ok(created) => Ok(created@),
                    Err(error) => Err(error@),
                },
            ),
            counts_match(final(self)@),
    {
        let ghost before = self@;
        assert(before.wanted.len() == self.wanted@.len());
        assert(before.wanted[before.position as int] == self.wanted@[self.position as int]@);
        match outcome {
            Ok(created) => {
                let ghost m = created@;
                let ghost v = self.existing@;
                self.existing.push(created);
                assert(policy_models(self.existing@) =~= policy_models(v).push(m));
                self.result.created = self.result.created + 1;
            },
            Err(error) => {
                let mut text = label_of(&self.wanted[self.position]);
                text.append(error.as_str());
                push_conflict(&mut self.result, text);
            },
        }
        self.position = self.position + 1;
    }

    /// What the import came to.
    pub fn finish(self) -> (r: FleetImportResult)
        ensures
            r@ == self@.result,
    {
        self.result
    }
}

/// What an import would come to, without creating anything.
pub fn preview_import(
    bundle: &FleetPolicyBundle,
    clients: &Vec<FleetClient>,
    existing: &Vec<TunnelPolicy>,
) -> (r: FleetImportResult)
    ensures
        r@ == settled(
            import_of(bundle@, client_models(clients@), policy_models(existing@), true),
        ).result,
{
    let mut import = PolicyImport::begin(bundle, clients, existing, true);
    let ghost start = import@;
    proof {
        lemma_settled_keeps(start);
    }
    import.advance();
    import.finish()
}

// ---------------------------------------------------------------------------
// Import in one transaction
// ---------------------------------------------------------------------------

/// What a planned import has come to so far.
pub struct PlanModel {
    pub existing: Seq<TunnelPolicyModel>,
    pub planned: Seq<TunnelPolicyModel>,
    pub result: FleetImportResultModel,
}

/// Whether two policies say the same, but for their identifiers.
pub open spec fn same_policy(a: TunnelPolicyModel, b: TunnelPolicyModel) -> bool {
    a.kind == b.kind && a.client_id == b.client_id && a.name == b.name && a.public_port
        == b.public_port && a.target_addr == b.target_addr && a.limit == b.limit
        && a.session_idle_timeout_seconds == b.session_idle_timeout_seconds
        && a.bandwidth_limit_bps == b.bandwidth_limit_bps && a.enabled == b.enabled
}

/// Whether two policies keep the same port for themselves.
pub open spec fn share_a_port(a: Seq<PortReservation>, b: Seq<PortReservation>) -> bool {
    exists|i: int| 0 <= i < a.len() && b.contains(#[trigger] a[i])
}

/// Whether a port of a policy is taken.
pub open spec fn port_taken(existing: Seq<TunnelPolicyModel>, p: TunnelPolicyModel) -> bool {
    exists|i: int|
        0 <= i < existing.len() && share_a_port(
            (#[trigger] existing[i]).reservations,
            p.reservations,
        )
}

/// The plan with one more policy looked at.
pub open spec fn planned_with(m: PlanModel, p: TunnelPolicyModel) -> PlanModel {
    match find_policy(m.existing, p.kind, p.name) {
        Some(old) => PlanModel {
            result: if same_policy(old, p) {
                with_unchanged(m.result)
            } else {
                with_conflict(m.result, p.name + ": incompatible policy with the same name"@)
            },
            ..m
        },
        None => if port_taken(m.existing, p) {
            PlanModel {
                result: with_conflict(m.result, p.name + ": public port is already assigned"@),
                ..m
            }
        } else {
            PlanModel {
                existing: m.existing.push(p),
                planned: m.planned.push(p),
                result: with_created(m.result),
            }
        },
    }
}

/// The plan after the first `n` wanted policies. `requested` gives for each of
/// them the policy that the catalogue makes of it for its client, if it is a
/// valid one.
pub open spec fn plan_of(
    wanted: Seq<WantedPolicyModel>,
    clients: Seq<FleetClientModel>,
    requested: Seq<Option<TunnelPolicyModel>>,
    existing: Seq<TunnelPolicyModel>,
    n: nat,
) -> PlanModel
    decreases n,
{
    if n == 0 {
        PlanModel { existing, planned: Seq::empty(), result: empty_result() }
    } else {
        let m = plan_of(wanted, clients, requested, existing, (n - 1) as nat);
        let w = wanted[n - 1];
        if enabled_ids(clients, w.client_name).len() != 1 {
            PlanModel {
                result: with_conflict(
                    m.result,
                    w.name + ": client '"@ + w.client_name + "' is missing or ambiguous"@,
                ),
                ..m
            }
        } else {
            match requested[n - 1] {
                None => PlanModel {
                    result: with_conflict(m.result, policy_label(w) + "invalid policy"@),
                    ..m
                },
                Some(p) => planned_with(m, p),
            }
        }
    }
}

/// Whether what was requested is for the clients that the wanted policies name.
pub open spec fn requested_for_clients(
    wanted: Seq<WantedPolicyModel>,
    clients: Seq<FleetClientModel>,
    requested: Seq<Option<TunnelPolicyModel>>,
) -> bool {
    forall|i: int|
        0 <= i < wanted.len() && #[trigger] requested[i] is Some ==> (client_named(
            clients,
            wanted[i].client_name,
        ) is Some ==> client_named(clients, wanted[i].client_name) == Some(
            requested[i]->0.client_id,
        ))
}

/// The only enabled client of a name.
pub open spec fn client_named(clients: Seq<FleetClientModel>, name: Seq<char>) -> Option<u128> {
    if enabled_ids(clients, name).len() == 1 {
        Some(enabled_ids(clients, name)[0])
    } else {
        None
    }
}

/// The only enabled client of a name, for which its policies are requested.
pub fn find_client(clients: &Vec<FleetClient>, name: &str) -> (r: Option<u128>)
    ensures
        r == client_named(client_models(clients@), name@),
{
    let (n, id) = count_clients(clients, name);
    if n == 1 {
        Some(id)
    } else {
        None
    }
}

/// A plan under way.
#[derive(Debug)]
pub struct PolicyPlan {
    pub existing: Vec<TunnelPolicy>,
    pub planned: Vec<TunnelPolicy>,
    pub result: FleetImportResult,
}

impl View for PolicyPlan {
    type V = PlanModel;

    open spec fn view(&self) -> PlanModel {
        PlanModel {
            existing: policy_models(self.existing@),
            planned: policy_models(self.planned@),
            result: self.result@,
        }
    }
}

/// The client that a wanted policy belongs to. A missing or ambiguous name is a
/// conflict.
pub fn resolve_client(
    clients: &Vec<FleetClient>,
    client: &str,
    policy: &str,
    result: &mut FleetImportResult,
) -> (r: Option<u128>)
    ensures
        ({
            let ids = enabled_ids(client_models(clients@), client@);
            if ids.len() == 1 {
                r == Some(ids[0]) && final(result)@ == old(result)@
            } else {
                r is None && final(result)@ == with_conflict(
                    old(result)@,
                    policy@ + ": client '"@ + client@ + "' is missing or ambiguous"@,
                )
            }
        }),
{
    if let Some(id) = find_client(clients, client) {
        return Some(id);
    }
    let mut text = policy.to_owned();
    text.append(": client '");
    text.append(client);
    text.append("' is missing or ambiguous");
    push_conflict(result, text);
    None
}

fn shares_a_port(a: &Vec<PortReservation>, b: &Vec<PortReservation>) -> (r: bool)
    ensures
        r == share_a_port(a@, b@),
{
    let mut i: usize = 0;
    while i < a.len()
        invariant
            i <= a@.len(),
            forall|j: int| 0 <= j < i ==> !b@.contains(#[trigger] a@[j]),
        decreases a@.len() - i,
    {
        let mut k: usize = 0;
        while k < b.len()
            invariant
                i < a@.len(),
                k <= b@.len(),
                forall|j: int| 0 <= j < k ==> b@[j] != a@[i as int],
            decreases b@.len() - k,
        {
            if b[k] == a[i] {
                assert(b@.contains(a@[i as int]));
                return true;
            }
            k = k + 1;
        }
        i = i + 1;
    }
    false
}

fn is_port_taken(existing: &Vec<TunnelPolicy>, p: &TunnelPolicy) -> (r: bool)
    ensures
        r == port_taken(policy_models(existing@), p@),
{
    let ghost s = policy_models(existing@);
    let mut i: usize = 0;
    while i < existing.len()
        invariant
            i <= existing@.len(),
            s == policy_models(existing@),
            forall|j: int|
                0 <= j < i ==> !share_a_port((#[trigger] s[j]).reservations, p@.reservations),
        decreases existing@.len() - i,
    {
        assert(s[i as int] == existing@[i as int]@);
        if shares_a_port(&existing[i].reservations, &p.reservations) {
            return true;
        }
        i = i + 1;
    }
    false
}

fn is_same_policy(a: &TunnelPolicy, b: &TunnelPolicy) -> (r: bool)
    ensures
        r == same_policy(a@, b@),
{
    a.kind == b.kind && a.client_id == b.client_id && a.name == b.name && a.public_port
        == b.public_port && a.target_addr == b.target_addr && a.limit == b.limit
        && a.session_idle_timeout_seconds == b.session_idle_timeout_seconds
        && a.bandwidth_limit_bps == b.bandwidth_limit_bps && a.enabled == b.enabled
}

impl PolicyPlan {
    /// Looks at one more policy.
    pub fn plan(&mut self, policy: &TunnelPolicy)
        requires
            old(self)@.result.created < usize::MAX,
            old(self)@.result.unchanged < usize::MAX,
        ensures
            final(self)@ == planned_with(old(self)@, policy@),
    {
        if let Some(i) = policy_index(&self.existing, policy.kind, policy.name.as_str()) {
            if is_same_policy(&self.existing[i], policy) {
                self.result.unchanged = self.result.unchanged + 1;
            } else {
                let mut text = policy.name.clone();
                text.append(": incompatible policy with the same name");
                push_conflict(&mut self.result, text);
            }
            return;
        }
        if is_port_taken(&self.existing, policy) {
            let mut text = policy.name.clone();
            text.append(": public port is already assigned");
            push_conflict(&mut self.result, text);
            return;
        }
        let ghost before = self@;
        self.existing.push(policy.duplicate());
        self.planned.push(policy.duplicate());
        assert(self@.existing =~= before.existing.push(policy@));
        assert(self@.planned =~= before.planned.push(policy@));
        self.result.created = self.result.created + 1;
    }
}

pub open spec fn requested_models(v: Seq<Option<TunnelPolicy>>) -> Seq<Option<TunnelPolicyModel>> {
    v.map_values(
        |x: Option<TunnelPolicy>|
            match x {
                Some(p) => Some(p@),
                None => None,
            },
    )
}

/// Plans an import against one snapshot of the existing policies. What is
/// planned is written unless the import is a dry run; policies that are not
/// enabled are never enabled on the way. Each policy was requested for the client
/// that [`find_client`] gives.
pub fn plan_import(
    wanted: &Vec<WantedPolicy>,
    clients: &Vec<FleetClient>,
    requested: &Vec<Option<TunnelPolicy>>,
    existing: &Vec<TunnelPolicy>,
) -> (r: PolicyPlan)
    requires
        requested@.len() == wanted@.len(),
        requested_for_clients(
            wanted_models(wanted@),
            client_models(clients@),
            requested_models(requested@),
        ),
    ensures
        r@ == plan_of(
            wanted_models(wanted@),
            client_models(clients@),
            requested_models(requested@),
            policy_models(existing@),
            wanted@.len(),
        ),
{
    let ghost w = wanted_models(wanted@);
    let ghost c = client_models(clients@);
    let ghost q = requested_models(requested@);
    let ghost e = policy_models(existing@);
    let mut plan = PolicyPlan {
        existing: copy_policies(existing),
        planned: Vec::new(),
        result: no_result(),
    };
    let mut i: usize = 0;
    assert(plan@.planned =~= Seq::empty());
    while i < wanted.len()
        invariant
            i <= wanted@.len(),
            requested@.len() == wanted@.len(),
            w == wanted_models(wanted@),
            c == client_models(clients@),
            q == requested_models(requested@),
            e == policy_models(existing@),
            plan@ == plan_of(w, c, q, e, i as nat),
            plan@.result.created + plan@.result.unchanged <= i,
        decreases wanted@.len() - i,
    {
        let item = &wanted[i];
        assert(w[i as int] == item@);
        if let Some(_) = resolve_client(
            clients,
            item.client_name.as_str(),
            item.name.as_str(),
            &mut plan.result,
        ) {
            match &requested[i] {
                Some(policy) => {
                    assert(q[i as int] == Some(policy@));
                    plan.plan(policy);
                },
                None => {
                    assert(q[i as int] is None);
                    let mut text = label_of(item);
                    text.append("invalid policy");
                    push_conflict(&mut plan.result, text);
                },
            }
        }
        i = i + 1;
    }
    plan
}

// ---------------------------------------------------------------------------
// Laws
// ---------------------------------------------------------------------------

proof fn lemma_settled_keeps(m: ImportModel)
    requires
        counts_match(m),
    ensures
        settled(m).existing == m.existing,
        settled(m).wanted == m.wanted,
        settled(m).clients == m.clients,
        settled(m).dry_run == m.dry_run,
        counts_match(settled(m)),
        m.position <= settled(m).position,
        m.dry_run ==> settled(m).position == m.wanted.len(),
    decreases m.wanted.len() - m.position,
{
    if m.position < m.wanted.len() {
        match decision(m.wanted[m.position as int], m.clients, m.existing) {
            ImportDecision::Conflict(text) => {
                lemma_settled_keeps(
                    ImportModel {
                        position: m.position + 1,
                        result: with_conflict(m.result, text),
                        ..m
                    },
                );
            },
            ImportDecision::Unchanged => {
                lemma_settled_keeps(
                    ImportModel { position: m.position + 1, result: with_unchanged(m.result), ..m },
                );
            },
            ImportDecision::Create(_) => {
                if m.dry_run {
                    lemma_settled_keeps(
                        ImportModel {
                            position: m.position + 1,
                            result: with_created(m.result),
                            ..m
                        },
                    );
                }
            },
        }
    }
}

/// A dry run comes to its end without creating anything, and counts every
/// policy of the bundle once.
pub proof fn law_dry_runs_create_nothing(
    bundle: FleetPolicyBundleModel,
    clients: Seq<FleetClientModel>,
    existing: Seq<TunnelPolicyModel>,
)
    requires
        wanted_of(bundle).len() <= usize::MAX,
    ensures
        ({
            let end = settled(import_of(bundle, clients, existing, true));
            &&& end.position == wanted_of(bundle).len()
            &&& end.existing == existing
            &&& end.result.created + end.result.unchanged + end.result.conflicts.len()
                == wanted_of(bundle).len()
        }),
{
    lemma_settled_keeps(import_of(bundle, clients, existing, true));
}

/// An import never overwrites: whatever it does, the policies that existed stay
/// as they were, in front of the created ones.
pub proof fn law_imports_do_not_overwrite(
    m: ImportModel,
    outcome: Result<TunnelPolicyModel, Seq<char>>,
)
    requires
        counts_match(m),
        m.position < m.wanted.len(),
    ensures
        settled(m).existing == m.existing,
        m.existing.is_prefix_of(answered(m, outcome).existing),
        outcome is Err ==> answered(m, outcome).existing == m.existing,
{
    lemma_settled_keeps(m);
}

proof fn lemma_find_pushed(
    s: Seq<TunnelPolicyModel>,
    p: TunnelPolicyModel,
    kind: TunnelKind,
    name: Seq<char>,
)
    ensures
        find_policy(s.push(p), kind, name) == if find_policy(s, kind, name) is Some {
            find_policy(s, kind, name)
        } else if p.kind == kind && p.name == name {
            Some(p)
        } else {
            None
        },
    decreases s.len(),
{
    if s.len() > 0 {
        assert(s.push(p).drop_first() =~= s.drop_first().push(p));
        lemma_find_pushed(s.drop_first(), p, kind, name);
    } else {
        assert(s.push(p).drop_first().len() == 0);
        assert(find_policy(s.push(p).drop_first(), kind, name) is None);
        assert(s.push(p)[0] == p);
    }
}

/// Importing again changes nothing: a policy that was created as it was wanted
/// is found unchanged.
pub proof fn law_created_policies_are_found_unchanged(
    w: WantedPolicyModel,
    clients: Seq<FleetClientModel>,
    existing: Seq<TunnelPolicyModel>,
    created: TunnelPolicyModel,
    client_id: u128,
)
    requires
        decision(w, clients, existing) == ImportDecision::Create(client_id),
        created.kind == w.kind,
        created.name == w.name,
        as_wanted(created, w, client_id),
    ensures
        decision(w, clients, existing.push(created)) == ImportDecision::Unchanged,
{
    lemma_find_pushed(existing, created, w.kind, w.name);
}

/// A planned policy takes no port and no name of an existing one, and planning
/// overwrites nothing.
pub proof fn law_plans_do_not_overwrite(m: PlanModel, p: TunnelPolicyModel)
    ensures
        m.existing.is_prefix_of(planned_with(m, p).existing),
        planned_with(m, p).planned != m.planned ==> find_policy(m.existing, p.kind, p.name) is None
            && !port_taken(m.existing, p),
{
}

/// Planning the same policy again changes nothing.
pub proof fn law_planned_policies_are_found_unchanged(m: PlanModel, p: TunnelPolicyModel)
    requires
        find_policy(m.existing, p.kind, p.name) is None,
        !port_taken(m.existing, p),
    ensures
        ({
            let after = planned_with(m, p);
            planned_with(after, p) == (PlanModel { result: with_unchanged(after.result), ..after })
        }),
{
    lemma_find_pushed(m.existing, p, p.kind, p.name);
}

/// Every planned policy belongs to the only enabled client of the name that it was
/// wanted for.
pub proof fn law_planned_policies_belong_to_their_clients(
    wanted: Seq<WantedPolicyModel>,
    clients: Seq<FleetClientModel>,
    requested: Seq<Option<TunnelPolicyModel>>,
    existing: Seq<TunnelPolicyModel>,
    n: nat,
    k: int,
)
    requires
        n <= wanted.len(),
        requested_for_clients(wanted, clients, requested),
        0 <= k < plan_of(wanted, clients, requested, existing, n).planned.len(),
    ensures
        ({
            let p = plan_of(wanted, clients, requested, existing, n).planned[k];
            exists|i: int|
                0 <= i < n && #[trigger] requested[i] == Some(p) && client_named(
                    clients,
                    wanted[i].client_name,
                ) == Some(p.client_id)
        }),
    decreases n,
{
    let m = plan_of(wanted, clients, requested, existing, (n - 1) as nat);
    let p = plan_of(wanted, clients, requested, existing, n).planned[k];
    if k < m.planned.len() {
        law_planned_policies_belong_to_their_clients(
            wanted,
            clients,
            requested,
            existing,
            (n - 1) as nat,
            k,
        );
        let i = choose|i: int|
            0 <= i < n - 1 && #[trigger] requested[i] == Some(m.planned[k]) && client_named(
                clients,
                wanted[i].client_name,
            ) == Some(m.planned[k].client_id);
        assert(p == m.planned[k]);
        assert(requested[i] == Some(p));
    } else {
        assert(requested[n - 1] == Some(p));
    }
}

/// What a member exports, another one with the same clients and policies finds
/// unchanged.
pub proof fn law_exported_tcp_policies_are_found_unchanged(
    p: TunnelPolicyModel,
    clients: Seq<FleetClientModel>,
    existing: Seq<TunnelPolicyModel>,
    client_name: Seq<char>,
)
    requires
        p.kind == TunnelKind::Tcp,
        p.session_idle_timeout_seconds is None,
        enabled_ids(clients, client_name) == seq![p.client_id],
        find_policy(existing, p.kind, p.name) == Some(p),
    ensures
        decision(
            wanted_tcp(
                FleetTcpPolicyModel {
                    client_name,
                    name: p.name,
                    public_port: p.public_port,
                    target_addr: p.target_addr,
                    max_connections: p.limit,
                    bandwidth_limit_bps: p.bandwidth_limit_bps,
                    enabled: p.enabled,
                },
            ),
            clients,
            existing,
        ) == ImportDecision::Unchanged,
{
}

/// Whether none of the policies that were looked at would have to be created.
pub open spec fn nothing_left_to_create(m: ImportModel) -> bool {
    forall|i: int|
        0 <= i < m.position ==> !(decision(#[trigger] m.wanted[i], m.clients, m.existing)
            is Create)
}

/// An import leaves none of its policies to be created, as long as creation
/// succeeds and keeps their kinds and names.
pub proof fn law_import_steps_leave_nothing_to_create(m: ImportModel, created: TunnelPolicyModel)
    requires
        counts_match(m),
        !m.dry_run,
        nothing_left_to_create(m),
    ensures
        nothing_left_to_create(settled(m)),
        m.position < m.wanted.len() && created.kind == m.wanted[m.position as int].kind
            && created.name == m.wanted[m.position as int].name ==> nothing_left_to_create(
            answered(m, Ok(created)),
        ),
{
    lemma_settled_leaves_nothing(m);
    if m.position < m.wanted.len() && created.kind == m.wanted[m.position as int].kind
        && created.name == m.wanted[m.position as int].name {
        let after = answered(m, Ok(created));
        assert forall|i: int| 0 <= i < after.position implies !(decision(
            #[trigger] after.wanted[i],
            after.clients,
            after.existing,
        ) is Create) by {
            let w = m.wanted[i];
            lemma_find_pushed(m.existing, created, w.kind, w.name);
        }
    }
}

proof fn lemma_settled_leaves_nothing(m: ImportModel)
    requires
        counts_match(m),
        !m.dry_run,
        nothing_left_to_create(m),
    ensures
        nothing_left_to_create(settled(m)),
    decreases m.wanted.len() - m.position,
{
    if m.position < m.wanted.len() {
        match decision(m.wanted[m.position as int], m.clients, m.existing) {
            ImportDecision::Conflict(text) => {
                lemma_settled_leaves_nothing(
                    ImportModel {
                        position: m.position + 1,
                        result: with_conflict(m.result, text),
                        ..m
                    },
                );
            },
            ImportDecision::Unchanged => {
                lemma_settled_leaves_nothing(
                    ImportModel { position: m.position + 1, result: with_unchanged(m.result), ..m },
                );
            },
            ImportDecision::Create(_) => {},
        }
    }
}

/// Importing a bundle again creates nothing: once an import has come to its end
/// with nothing left to create, the same import runs through without asking for
/// a single policy.
pub proof fn law_importing_again_creates_nothing(m: ImportModel, dry_run: bool)
    requires
        counts_match(m),
        m.position == m.wanted.len(),
        nothing_left_to_create(m),
    ensures
        ({
            let again = ImportModel { position: 0, result: empty_result(), dry_run, ..m };
            &&& settled(again).position == m.wanted.len()
            &&& settled(again).result.created == 0
            &&& settled(again).existing == m.existing
        }),
{
    let again = ImportModel { position: 0, result: empty_result(), dry_run, ..m };
    lemma_settle_without_creation(again);
}

proof fn lemma_settle_without_creation(m: ImportModel)
    requires
        counts_match(m),
        forall|i: int|
            0 <= i < m.wanted.len() ==> !(decision(#[trigger] m.wanted[i], m.clients, m.existing)
                is Create),
    ensures
        settled(m).position == m.wanted.len(),
        settled(m).result.created == m.result.created,
        settled(m).existing == m.existing,
    decreases m.wanted.len() - m.position,
{
    if m.position < m.wanted.len() {
        match decision(m.wanted[m.position as int], m.clients, m.existing) {
            ImportDecision::Conflict(text) => {
                lemma_settle_without_creation(
                    ImportModel {
                        position: m.position + 1,
                        result: with_conflict(m.result, text),
                        ..m
                    },
                );
            },
            ImportDecision::Unchanged => {
                lemma_settle_without_creation(
                    ImportModel { position: m.position + 1, result: with_unchanged(m.result), ..m },
                );
            },
            ImportDecision::Create(_) => {},
        }
    }
}

/// The clients of a name are the enabled ones that bear it, in their order.
pub proof fn law_only_enabled_clients_of_the_name_count(
    clients: Seq<FleetClientModel>,
    c: FleetClientModel,
    name: Seq<char>,
)
    ensures
        enabled_ids(Seq::empty(), name) == Seq::<u128>::empty(),
        c.enabled && c.name == name ==> enabled_ids(clients.push(c), name) == enabled_ids(
            clients,
            name,
        ).push(c.client_id),
        !c.enabled || c.name != name ==> enabled_ids(clients.push(c), name) == enabled_ids(
            clients,
            name,
        ),
{
    assert(clients.push(c).drop_last() =~= clients);
}

/// A client is resolved by name exactly if one enabled client alone bears it.
pub proof fn law_clients_are_resolved_without_doubt(
    clients: Seq<FleetClientModel>,
    name: Seq<char>,
)
    ensures
        client_named(clients, name) is Some <==> enabled_ids(clients, name).len() == 1,
        client_named(clients, name) is Some ==> enabled_ids(clients, name) == seq![
            client_named(clients, name)->0,
        ],
{
    if client_named(clients, name) is Some {
        assert(enabled_ids(clients, name) =~= seq![client_named(clients, name)->0]);
    }
}

/// Policies are exported under the name of the client that they belong to, the last
/// recorded of its identifier.
pub proof fn law_clients_are_named_by_identifier(
    clients: Seq<FleetClientModel>,
    c: FleetClientModel,
    id: u128,
)
    ensures
        client_name_of(Seq::empty(), id) is None,
        c.client_id == id ==> client_name_of(clients.push(c), id) == Some(c.name),
        c.client_id != id ==> client_name_of(clients.push(c), id) == client_name_of(clients, id),
{
    assert(clients.push(c).drop_last() =~= clients);
}

/// Each TCP and each UDP policy of a known client is exported once, with all that it
/// says; no other policy is.
pub proof fn law_policies_of_known_clients_are_exported(
    clients: Seq<FleetClientModel>,
    policies: Seq<TunnelPolicyModel>,
    p: TunnelPolicyModel,
)
    ensures
        ({
            let tcp = exported_tcp(clients, policies);
            let udp = exported_udp(clients, policies);
            let tcp_after = exported_tcp(clients, policies.push(p));
            let udp_after = exported_udp(clients, policies.push(p));
            let known = client_name_of(clients, p.client_id) is Some;
            let client_name = client_name_of(clients, p.client_id)->0;
            &&& !known || p.kind is Other ==> tcp_after == tcp && udp_after == udp
            &&& known && p.kind is Tcp ==> {
                &&& udp_after == udp
                &&& tcp_after.len() == tcp.len() + 1
                &&& tcp_after.drop_last() == tcp
                &&& tcp_after.last().client_name == client_name
                &&& tcp_after.last().name == p.name
                &&& tcp_after.last().public_port == p.public_port
                &&& tcp_after.last().target_addr == p.target_addr
                &&& tcp_after.last().max_connections == p.limit
                &&& tcp_after.last().bandwidth_limit_bps == p.bandwidth_limit_bps
                &&& tcp_after.last().enabled == p.enabled
            }
            &&& known && p.kind is Udp ==> {
                &&& tcp_after == tcp
                &&& udp_after.len() == udp.len() + 1
                &&& udp_after.drop_last() == udp
                &&& udp_after.last().client_name == client_name
                &&& udp_after.last().name == p.name
                &&& udp_after.last().public_port == p.public_port
                &&& udp_after.last().target_addr == p.target_addr
                &&& udp_after.last().max_sessions == p.limit
                &&& p.session_idle_timeout_seconds is Some ==> Some(
                    udp_after.last().session_idle_timeout_seconds,
                ) == p.session_idle_timeout_seconds
                &&& p.session_idle_timeout_seconds is None
                    ==> udp_after.last().session_idle_timeout_seconds == 0
                &&& udp_after.last().bandwidth_limit_bps == p.bandwidth_limit_bps
                &&& udp_after.last().enabled == p.enabled
            }
        }),
        exported_tcp(clients, Seq::empty()) == Seq::<FleetTcpPolicyModel>::empty(),
        exported_udp(clients, Seq::empty()) == Seq::<FleetUdpPolicyModel>::empty(),
{
    let tcp = exported_tcp(clients, policies);
    let udp = exported_udp(clients, policies);
    assert(policies.push(p).drop_last() =~= policies);
    assert(policies.push(p).last() == p);
    if client_name_of(clients, p.client_id) is Some {
        if p.kind is Tcp {
            assert(exported_tcp(clients, policies.push(p)).drop_last() =~= tcp);
        }
        if p.kind is Udp {
            assert(exported_udp(clients, policies.push(p)).drop_last() =~= udp);
        }
    }
}

/// All that a bundle holds is wanted, the TCP policies before those of UDP, and each
/// with all that it says.
pub proof fn law_all_of_a_bundle_is_wanted(bundle: FleetPolicyBundleModel, i: int)
    ensures
        ({
            let w = wanted_of(bundle);
            let n = bundle.tcp.len() as int;
            &&& w.len() == bundle.tcp.len() + bundle.udp.len()
            &&& 0 <= i < n ==> {
                let p = bundle.tcp[i];
                &&& w[i].kind is Tcp && w[i].client_name == p.client_name && w[i].name == p.name
                &&& w[i].public_port == p.public_port && w[i].target_addr == p.target_addr
                &&& w[i].limit == p.max_connections && w[i].session_idle_timeout_seconds is None
                &&& w[i].bandwidth_limit_bps == p.bandwidth_limit_bps && w[i].enabled == p.enabled
            }
            &&& 0 <= i < bundle.udp.len() ==> {
                let p = bundle.udp[i];
                let u = w[n + i];
                &&& u.kind is Udp && u.client_name == p.client_name && u.name == p.name
                &&& u.public_port == p.public_port && u.target_addr == p.target_addr
                &&& u.limit == p.max_sessions && u.session_idle_timeout_seconds == Some(
                    p.session_idle_timeout_seconds,
                )
                &&& u.bandwidth_limit_bps == p.bandwidth_limit_bps && u.enabled == p.enabled
            }
        }),
{
}

/// A policy is found by kind and name exactly if one of them is kept, and it is the
/// first such.
pub proof fn law_policies_are_found_by_kind_and_name(
    s: Seq<TunnelPolicyModel>,
    kind: TunnelKind,
    name: Seq<char>,
    k: int,
)
    ensures
        find_policy(s, kind, name) is None ==> forall|i: int|
            0 <= i < s.len() ==> (#[trigger] s[i]).kind != kind || s[i].name != name,
        0 <= k < s.len() && s[k].kind == kind && s[k].name == name && (forall|i: int|
            0 <= i < k ==> (#[trigger] s[i]).kind != kind || s[i].name != name) ==> find_policy(
            s,
            kind,
            name,
        ) == Some(s[k]),
        find_policy(s, kind, name) is Some ==> s.contains(find_policy(s, kind, name)->0)
            && find_policy(s, kind, name)->0.kind == kind && find_policy(s, kind, name)->0.name
            == name,
    decreases s.len(),
{
    if s.len() > 0 && !(s[0].kind == kind && s[0].name == name) {
        let t = s.drop_first();
        law_policies_are_found_by_kind_and_name(t, kind, name, k - 1);
        if find_policy(s, kind, name) is None {
            assert forall|i: int| 0 <= i < s.len() implies (#[trigger] s[i]).kind != kind
                || s[i].name != name by {
                if i > 0 {
                    assert(t[i - 1] == s[i]);
                }
            }
        }
        if 0 < k < s.len() && s[k].kind == kind && s[k].name == name && (forall|i: int|
            0 <= i < k ==> (#[trigger] s[i]).kind != kind || s[i].name != name) {
            assert(t[k - 1] == s[k]);
            assert forall|i: int| 0 <= i < k - 1 implies (#[trigger] t[i]).kind != kind
                || t[i].name != name by {
                assert(t[i] == s[i + 1]);
            }
        }
        if find_policy(s, kind, name) is Some {
            let j = choose|j: int| 0 <= j < t.len() && t[j] == find_policy(t, kind, name)->0;
            assert(s[j + 1] == t[j]);
        }
    } else if s.len() > 0 {
        assert(s.contains(s[0]));
        if k > 0 && k < s.len() {
            assert(s[0].kind == kind);
        }
    }
}

/// A wanted policy is created exactly if one enabled client alone bears the name and
/// no policy of its kind and name exists, and it is created for that client. It is
/// left unchanged exactly if one exists that agrees in everything. All else is a
/// conflict.
pub proof fn law_imports_decide_by_client_and_policy(
    w: WantedPolicyModel,
    clients: Seq<FleetClientModel>,
    existing: Seq<TunnelPolicyModel>,
)
    ensures
        ({
            let d = decision(w, clients, existing);
            let ids = enabled_ids(clients, w.client_name);
            let found = find_policy(existing, w.kind, w.name);
            let p = found->0;
            let same = p.client_id == ids[0] && p.public_port == w.public_port && p.target_addr
                == w.target_addr && p.limit == w.limit && p.session_idle_timeout_seconds
                == w.session_idle_timeout_seconds && p.bandwidth_limit_bps == w.bandwidth_limit_bps
                && p.enabled == w.enabled;
            &&& d is Create <==> ids.len() == 1 && found is None
            &&& d is Create ==> d->Create_0 == ids[0]
            &&& d is Unchanged <==> ids.len() == 1 && found is Some && same
            &&& ids.len() == 0 ==> d == ImportDecision::Conflict(
                kind_name(w.kind) + " "@ + w.name + ": "@ + "client '"@ + w.client_name
                    + "' is missing"@,
            )
            &&& ids.len() > 1 ==> d == ImportDecision::Conflict(
                kind_name(w.kind) + " "@ + w.name + ": "@ + "client name '"@ + w.client_name
                    + "' is ambiguous"@,
            )
            &&& ids.len() == 1 && found is Some && !same ==> d == ImportDecision::Conflict(
                kind_name(w.kind) + " "@ + w.name + ": "@
                    + "an incompatible policy with the same name exists"@,
            )
        }),
{
}

/// An import runs on to the first policy that has to be created, which a dry run only
/// counts, and stops at none before.
pub proof fn law_imports_stop_at_what_is_to_be_created(m: ImportModel)
    requires
        m.position <= m.wanted.len(),
    ensures
        ({
            let end = settled(m);
            &&& m.position <= end.position <= m.wanted.len()
            &&& end.wanted == m.wanted && end.clients == m.clients && end.existing == m.existing
                && end.dry_run == m.dry_run
            &&& m.dry_run ==> end.position == m.wanted.len()
            &&& !m.dry_run && end.position < m.wanted.len() ==> decision(
                m.wanted[end.position as int],
                m.clients,
                m.existing,
            ) is Create
            &&& !m.dry_run ==> forall|i: int|
                m.position <= i < end.position ==> !(decision(
                    #[trigger] m.wanted[i],
                    m.clients,
                    m.existing,
                ) is Create)
            &&& !m.dry_run ==> end.result.created == m.result.created
        }),
    decreases m.wanted.len() - m.position,
{
    if m.position < m.wanted.len() {
        match decision(m.wanted[m.position as int], m.clients, m.existing) {
            ImportDecision::Conflict(text) => {
                law_imports_stop_at_what_is_to_be_created(
                    ImportModel {
                        position: m.position + 1,
                        result: with_conflict(m.result, text),
                        ..m
                    },
                );
            },
            ImportDecision::Unchanged => {
                law_imports_stop_at_what_is_to_be_created(
                    ImportModel { position: m.position + 1, result: with_unchanged(m.result), ..m },
                );
            },
            ImportDecision::Create(_) => {
                if m.dry_run {
                    law_imports_stop_at_what_is_to_be_created(
                        ImportModel {
                            position: m.position + 1,
                            result: with_created(m.result),
                            ..m
                        },
                    );
                }
            },
        }
    }
}

/// A policy that is decided on is counted where the decision puts it, once: as a
/// conflict with its text, as unchanged, or in a dry run as created.
pub proof fn law_import_steps_are_counted(m: ImportModel)
    requires
        m.position + 1 == m.wanted.len(),
        m.result.created < usize::MAX,
        m.result.unchanged < usize::MAX,
    ensures
        ({
            let r = settled(m).result;
            let d = decision(m.wanted[m.position as int], m.clients, m.existing);
            &&& d is Conflict ==> r.conflicts == m.result.conflicts.push(d->Conflict_0)
                && r.created == m.result.created && r.unchanged == m.result.unchanged
            &&& d is Unchanged ==> r.conflicts == m.result.conflicts && r.created
                == m.result.created && r.unchanged == m.result.unchanged + 1
            &&& d is Create && m.dry_run ==> r.conflicts == m.result.conflicts && r.created
                == m.result.created + 1 && r.unchanged == m.result.unchanged
            &&& d is Create && !m.dry_run ==> r == m.result
        }),
{
    reveal_with_fuel(settled, 2);
}

/// What became of a requested policy is counted and, where it was created, remembered.
pub proof fn law_answers_are_counted(m: ImportModel, outcome: Result<TunnelPolicyModel, Seq<char>>)
    requires
        m.position < m.wanted.len(),
        m.result.created < usize::MAX,
    ensures
        ({
            let after = answered(m, outcome);
            let w = m.wanted[m.position as int];
            &&& after.position == m.position + 1
            &&& outcome is Ok ==> after.existing == m.existing.push(outcome->Ok_0)
                && after.result.created == m.result.created + 1 && after.result.conflicts
                == m.result.conflicts
            &&& outcome is Err ==> after.existing == m.existing && after.result.created
                == m.result.created && after.result.conflicts == m.result.conflicts.push(
                kind_name(w.kind) + " "@ + w.name + ": "@ + outcome->Err_0,
            )
            &&& after.result.unchanged == m.result.unchanged
            &&& after.wanted == m.wanted && after.clients == m.clients && after.dry_run
                == m.dry_run
        }),
{
}

/// A policy is planned exactly if none of its kind and name exists and none of its
/// ports is reserved. It counts as unchanged exactly if the existing one agrees in
/// everything, and else as a conflict.
pub proof fn law_policies_are_planned_where_there_is_room(m: PlanModel, p: TunnelPolicyModel)
    requires
        m.result.created < usize::MAX,
        m.result.unchanged < usize::MAX,
    ensures
        ({
            let after = planned_with(m, p);
            let found = find_policy(m.existing, p.kind, p.name);
            let o = found->0;
            let same = o.kind == p.kind && o.client_id == p.client_id && o.name == p.name
                && o.public_port == p.public_port && o.target_addr == p.target_addr && o.limit
                == p.limit && o.session_idle_timeout_seconds == p.session_idle_timeout_seconds
                && o.bandwidth_limit_bps == p.bandwidth_limit_bps && o.enabled == p.enabled;
            let taken = exists|i: int, j: int|
                0 <= i < m.existing.len() && 0 <= j < m.existing[i].reservations.len()
                    && p.reservations.contains(#[trigger] m.existing[i].reservations[j]);
            &&& found is None && !taken ==> after.planned == m.planned.push(p) && after.existing
                == m.existing.push(p) && after.result.created == m.result.created + 1
                && after.result.conflicts == m.result.conflicts && after.result.unchanged
                == m.result.unchanged
            &&& found is Some || taken ==> after.planned == m.planned && after.existing
                == m.existing && after.result.created == m.result.created
            &&& found is None && taken ==> after.result.conflicts == m.result.conflicts.push(
                p.name + ": public port is already assigned"@,
            ) && after.result.unchanged == m.result.unchanged
            &&& found is Some && same ==> after.result.unchanged == m.result.unchanged + 1
                && after.result.conflicts == m.result.conflicts
            &&& found is Some && !same ==> after.result.conflicts == m.result.conflicts.push(
                p.name + ": incompatible policy with the same name"@,
            ) && after.result.unchanged == m.result.unchanged
        }),
{
    let taken = exists|i: int, j: int|
        0 <= i < m.existing.len() && 0 <= j < m.existing[i].reservations.len()
            && p.reservations.contains(#[trigger] m.existing[i].reservations[j]);
    if port_taken(m.existing, p) {
        let i = choose|i: int|
            0 <= i < m.existing.len() && share_a_port(
                (#[trigger] m.existing[i]).reservations,
                p.reservations,
            );
        let a = m.existing[i].reservations;
        let j = choose|j: int| 0 <= j < a.len() && p.reservations.contains(#[trigger] a[j]);
        assert(p.reservations.contains(m.existing[i].reservations[j]));
        assert(taken);
    }
    if taken {
        let (i, j) = choose|i: int, j: int|
            0 <= i < m.existing.len() && 0 <= j < m.existing[i].reservations.len()
                && p.reservations.contains(#[trigger] m.existing[i].reservations[j]);
        assert(share_a_port(m.existing[i].reservations, p.reservations));
        assert(port_taken(m.existing, p));
    }
}

/// A plan goes through the wanted policies in order. One of a client that is missing
/// or ambiguous, or one that is invalid, is a conflict; every other is planned.
pub proof fn law_plans_go_through_all_that_is_wanted(
    wanted: Seq<WantedPolicyModel>,
    clients: Seq<FleetClientModel>,
    requested: Seq<Option<TunnelPolicyModel>>,
    existing: Seq<TunnelPolicyModel>,
    n: nat,
)
    requires
        n < wanted.len(),
    ensures
        ({
            let m = plan_of(wanted, clients, requested, existing, n);
            let after = plan_of(wanted, clients, requested, existing, n + 1);
            let w = wanted[n as int];
            let known = enabled_ids(clients, w.client_name).len() == 1;
            let refused = |text: Seq<char>|
                after.planned == m.planned && after.existing == m.existing && after.result.created
                    == m.result.created && after.result.unchanged == m.result.unchanged
                    && after.result.conflicts == m.result.conflicts.push(text);
            &&& !known ==> refused(
                w.name + ": client '"@ + w.client_name + "' is missing or ambiguous"@,
            )
            &&& known && requested[n as int] is None ==> refused(
                kind_name(w.kind) + " "@ + w.name + ": "@ + "invalid policy"@,
            )
            &&& known && requested[n as int] is Some ==> after == planned_with(
                m,
                requested[n as int]->0,
            )
        }),
        plan_of(wanted, clients, requested, existing, 0).existing == existing,
        plan_of(wanted, clients, requested, existing, 0).planned.len() == 0,
        plan_of(wanted, clients, requested, existing, 0).result.created == 0,
        plan_of(wanted, clients, requested, existing, 0).result.unchanged == 0,
        plan_of(wanted, clients, requested, existing, 0).result.conflicts.len() == 0,
{
}

/// The kinds are named TCP, UDP and tunnel.
pub proof fn law_kinds_have_names(kind: TunnelKind)
    ensures
        kind is Tcp ==> kind_name(kind) == "TCP"@,
        kind is Udp ==> kind_name(kind) == "UDP"@,
        kind is Other ==> kind_name(kind) == "Tunnel"@,
{
}

/// A client is resolved exactly if one enabled client alone bears the name; otherwise a
/// conflict is added and nothing else of the result changes.
pub proof fn law_unresolved_clients_are_conflicts(
    clients: Vec<FleetClient>,
    client: &str,
    policy: &str,
    result: &mut FleetImportResult,
    r: Option<u128>,
)
    requires
        call_ensures(resolve_client, (&clients, client, policy, result), r),
    ensures
        ({
            let ids = enabled_ids(client_models(clients@), client@);
            &&& r is Some <==> ids.len() == 1
            &&& r is Some ==> r->0 == ids[0] && final(result)@ == old(result)@
            &&& r is None ==> final(result)@.created == old(result)@.created && final(result)@.unchanged == old(result)@.unchanged && final(result)@.conflicts == old(result)@.conflicts.push(
                policy@ + ": client '"@ + client@ + "' is missing or ambiguous"@,
            )
        }),
{
}

} // verus!
