//! DNS failover: validation of failover records, choice of a target and the
//! life of one DNS change.

use crate::fleet::{
    env_char, are_env_chars, find_peer, peer_ids, peer_models, peer_position, FleetPeer,
    FleetPeerModel,
};
use crate::fleet_health::{
    find_snapshot, sat_add, snapshot_ids, snapshot_models, snapshot_position, FleetHealthSnapshot,
    FleetHealthSnapshotModel, FleetHealthState,
};
use crate::host_name::{is_valid_host, valid_host};
use crate::ids::{first_id, lemma_first_id, lemma_first_id_unique};
use crate::ip_address::{ipv4_octets, ipv6_groups, parse_ipv4, parse_ipv6};
use crate::number::{all_digits, digit_of, digit_value};
use crate::text::{
    chars_of, copy_optional, ends_with, has_prefix, has_suffix, lex_less, lower, lowered, opt_view,
    optional_is, same_text, starts_with, string_of, text_before, trim, trim_end_char, trim_text,
    trimmed, trimmed_end_char,
};
use vstd::prelude::*;
use vstd::string::*;

verus! {

/// The type of a DNS record.
#[derive(Clone, Copy, Debug, PartialEq, Eq, Structural)]
pub enum FleetDnsRecordType {
    A,
    Aaaa,
    Cname,
}

pub open spec fn record_type_name(t: FleetDnsRecordType) -> Seq<char> {
    match t {
        FleetDnsRecordType::A => "A"@,
        FleetDnsRecordType::Aaaa => "AAAA"@,
        FleetDnsRecordType::Cname => "CNAME"@,
    }
}

pub open spec fn record_type_of(name: Seq<char>) -> Option<FleetDnsRecordType> {
    if name == "A"@ {
        Some(FleetDnsRecordType::A)
    } else if name == "AAAA"@ {
        Some(FleetDnsRecordType::Aaaa)
    } else if name == "CNAME"@ {
        Some(FleetDnsRecordType::Cname)
    } else {
        None
    }
}

impl FleetDnsRecordType {
    pub fn as_str(self) -> (r: &'static str)
        ensures
            r@ == record_type_name(self),
    {
        match self {
            FleetDnsRecordType::A => "A",
            FleetDnsRecordType::Aaaa => "AAAA",
            FleetDnsRecordType::Cname => "CNAME",
        }
    }

    pub fn parse(value: &str) -> (r: Option<Self>)
        ensures
            r == record_type_of(value@),
    {
        if same_text(value, "A") {
            Some(FleetDnsRecordType::A)
        } else if same_text(value, "AAAA") {
            Some(FleetDnsRecordType::Aaaa)
        } else if same_text(value, "CNAME") {
            Some(FleetDnsRecordType::Cname)
        } else {
            None
        }
    }
}

/// A stored record type reads back as itself.
pub proof fn law_record_type_reads_back(t: FleetDnsRecordType)
    ensures
        record_type_of(record_type_name(t)) == Some(t),
{
    reveal_strlit("A");
    reveal_strlit("AAAA");
    reveal_strlit("CNAME");
    assert("A"@.len() == 1 && "AAAA"@.len() == 4 && "CNAME"@.len() == 5);
}

/// The time to live of a record that names none, in seconds.
pub fn default_dns_ttl() -> (r: u32)
    ensures
        r == 60,
{
    60
}

/// The cooldown of a failover that names none, in seconds.
pub fn default_dns_cooldown() -> (r: u32)
    ensures
        r == 60,
{
    60
}

/// Failovers are enabled unless a request says otherwise.
pub fn default_true() -> (r: bool)
    ensures
        r,
{
    true
}

/// How long a planned change is reserved for its executor, in seconds.
pub const DNS_OPERATION_LEASE_SECONDS: u64 = 30;

/// The record content that directs traffic to a peer.
#[derive(Clone, Debug, PartialEq, Eq)]
pub struct FleetDnsPeerTarget {
    pub peer_id: u128,
    pub value: String,
}

/// What a [`FleetDnsPeerTarget`] says.
pub struct FleetDnsPeerTargetModel {
    pub peer_id: u128,
    pub value: Seq<char>,
}

impl View for FleetDnsPeerTarget {
    type V = FleetDnsPeerTargetModel;

    open spec fn view(&self) -> FleetDnsPeerTargetModel {
        FleetDnsPeerTargetModel {
            peer_id: self.peer_id,
            value: self.value@,
        }
    }
}

impl FleetDnsPeerTarget {
    /// A copy of the value.
    pub fn duplicate(&self) -> (r: Self)
        ensures
            r@ == self@,
    {
        let r = FleetDnsPeerTarget {
            peer_id: self.peer_id,
            value: self.value.clone(),
        };
        r
    }

    /// Copies of a list of values.
    pub fn duplicate_all(v: &Vec<Self>) -> (r: Vec<Self>)
        ensures
            r@.map_values(|x: Self| x@) == v@.map_values(|x: Self| x@),
    {
        let mut out: Vec<Self> = Vec::new();
        let mut i: usize = 0;
        while i < v.len()
            invariant
                i <= v@.len(),
                out@.len() == i,
                forall|j: int| 0 <= j < i ==> (#[trigger] out@[j])@ == v@[j]@,
            decreases v@.len() - i,
        {
            out.push(v[i].duplicate());
            i = i + 1;
        }
        assert(out@.map_values(|x: Self| x@) =~= v@.map_values(|x: Self| x@));
        out
    }
}

/// A request to add or replace a DNS failover.
#[derive(Clone, Debug, PartialEq, Eq)]
pub struct UpsertFleetDnsFailover {
    pub name: String,
    pub hostname: String,
    pub record_type: FleetDnsRecordType,
    pub zone_id: String,
    pub record_id: String,
    pub token_env: String,
    pub ttl: u32,
    pub proxied: bool,
    pub enabled: bool,
    pub cooldown_seconds: u32,
    pub targets: Vec<FleetDnsPeerTarget>,
}

/// What a [`UpsertFleetDnsFailover`] says.
pub struct UpsertFleetDnsFailoverModel {
    pub name: Seq<char>,
    pub hostname: Seq<char>,
    pub record_type: FleetDnsRecordType,
    pub zone_id: Seq<char>,
    pub record_id: Seq<char>,
    pub token_env: Seq<char>,
    pub ttl: u32,
    pub proxied: bool,
    pub enabled: bool,
    pub cooldown_seconds: u32,
    pub targets: Seq<FleetDnsPeerTargetModel>,
}

impl View for UpsertFleetDnsFailover {
    type V = UpsertFleetDnsFailoverModel;

    open spec fn view(&self) -> UpsertFleetDnsFailoverModel {
        UpsertFleetDnsFailoverModel {
            name: self.name@,
            hostname: self.hostname@,
            record_type: self.record_type,
            zone_id: self.zone_id@,
            record_id: self.record_id@,
            token_env: self.token_env@,
            ttl: self.ttl,
            proxied: self.proxied,
            enabled: self.enabled,
            cooldown_seconds: self.cooldown_seconds,
            targets: self.targets@.map_values(|x: FleetDnsPeerTarget| x@),
        }
    }
}

impl UpsertFleetDnsFailover {
    /// A copy of the value.
    pub fn duplicate(&self) -> (r: Self)
        ensures
            r@ == self@,
    {
        let r = UpsertFleetDnsFailover {
            name: self.name.clone(),
            hostname: self.hostname.clone(),
            record_type: self.record_type,
            zone_id: self.zone_id.clone(),
            record_id: self.record_id.clone(),
            token_env: self.token_env.clone(),
            ttl: self.ttl,
            proxied: self.proxied,
            enabled: self.enabled,
            cooldown_seconds: self.cooldown_seconds,
            targets: FleetDnsPeerTarget::duplicate_all(&self.targets),
        };
        assert(r@.targets =~= self@.targets);
        r
    }
}

/// A DNS record that follows the health of the fleet.
#[derive(Clone, Debug, PartialEq, Eq)]
pub struct FleetDnsFailover {
    pub id: u128,
    pub name: String,
    pub hostname: String,
    pub record_type: FleetDnsRecordType,
    pub zone_id: String,
    pub record_id: String,
    pub token_env: String,
    pub token_configured: bool,
    pub ttl: u32,
    pub proxied: bool,
    pub enabled: bool,
    /// Whether the record has to be written again although its target stays.
    pub reconcile_required: bool,
    pub cooldown_seconds: u32,
    pub frozen: bool,
    pub freeze_reason: Option<String>,
    pub current_peer_id: Option<u128>,
    pub current_target: Option<String>,
    pub last_switch_unix_seconds: Option<u64>,
    pub next_change_not_before_unix_seconds: u64,
    pub last_switch_reason: Option<String>,
    pub last_error_summary: Option<String>,
    pub pending_operation_id: Option<u128>,
    pub pending_peer_id: Option<u128>,
    pub pending_target: Option<String>,
    pub pending_reason: Option<String>,
    pub pending_started_unix_seconds: Option<u64>,
    pub pending_lease_until_unix_seconds: Option<u64>,
    pub targets: Vec<FleetDnsPeerTarget>,
    pub created_unix_seconds: u64,
    pub updated_unix_seconds: u64,
}

/// What a [`FleetDnsFailover`] says.
pub struct FleetDnsFailoverModel {
    pub id: u128,
    pub name: Seq<char>,
    pub hostname: Seq<char>,
    pub record_type: FleetDnsRecordType,
    pub zone_id: Seq<char>,
    pub record_id: Seq<char>,
    pub token_env: Seq<char>,
    pub token_configured: bool,
    pub ttl: u32,
    pub proxied: bool,
    pub enabled: bool,
    pub reconcile_required: bool,
    pub cooldown_seconds: u32,
    pub frozen: bool,
    pub freeze_reason: Option<Seq<char>>,
    pub current_peer_id: Option<u128>,
    pub current_target: Option<Seq<char>>,
    pub last_switch_unix_seconds: Option<u64>,
    pub next_change_not_before_unix_seconds: u64,
    pub last_switch_reason: Option<Seq<char>>,
    pub last_error_summary: Option<Seq<char>>,
    pub pending_operation_id: Option<u128>,
    pub pending_peer_id: Option<u128>,
    pub pending_target: Option<Seq<char>>,
    pub pending_reason: Option<Seq<char>>,
    pub pending_started_unix_seconds: Option<u64>,
    pub pending_lease_until_unix_seconds: Option<u64>,
    pub targets: Seq<FleetDnsPeerTargetModel>,
    pub created_unix_seconds: u64,
    pub updated_unix_seconds: u64,
}

impl View for FleetDnsFailover {
    type V = FleetDnsFailoverModel;

    open spec fn view(&self) -> FleetDnsFailoverModel {
        FleetDnsFailoverModel {
            id: self.id,
            name: self.name@,
            hostname: self.hostname@,
            record_type: self.record_type,
            zone_id: self.zone_id@,
            record_id: self.record_id@,
            token_env: self.token_env@,
            token_configured: self.token_configured,
            ttl: self.ttl,
            proxied: self.proxied,
            enabled: self.enabled,
            reconcile_required: self.reconcile_required,
            cooldown_seconds: self.cooldown_seconds,
            frozen: self.frozen,
            freeze_reason: opt_view(self.freeze_reason),
            current_peer_id: self.current_peer_id,
            current_target: opt_view(self.current_target),
            last_switch_unix_seconds: self.last_switch_unix_seconds,
            next_change_not_before_unix_seconds: self.next_change_not_before_unix_seconds,
            last_switch_reason: opt_view(self.last_switch_reason),
            last_error_summary: opt_view(self.last_error_summary),
            pending_operation_id: self.pending_operation_id,
            pending_peer_id: self.pending_peer_id,
            pending_target: opt_view(self.pending_target),
            pending_reason: opt_view(self.pending_reason),
            pending_started_unix_seconds: self.pending_started_unix_seconds,
            pending_lease_until_unix_seconds: self.pending_lease_until_unix_seconds,
            targets: self.targets@.map_values(|x: FleetDnsPeerTarget| x@),
            created_unix_seconds: self.created_unix_seconds,
            updated_unix_seconds: self.updated_unix_seconds,
        }
    }
}

impl FleetDnsFailover {
    /// A copy of the value.
    pub fn duplicate(&self) -> (r: Self)
        ensures
            r@ == self@,
    {
        let r = FleetDnsFailover {
            id: self.id,
            name: self.name.clone(),
            hostname: self.hostname.clone(),
            record_type: self.record_type,
            zone_id: self.zone_id.clone(),
            record_id: self.record_id.clone(),
            token_env: self.token_env.clone(),
            token_configured: self.token_configured,
            ttl: self.ttl,
            proxied: self.proxied,
            enabled: self.enabled,
            reconcile_required: self.reconcile_required,
            cooldown_seconds: self.cooldown_seconds,
            frozen: self.frozen,
            freeze_reason: copy_optional(&self.freeze_reason),
            current_peer_id: self.current_peer_id,
            current_target: copy_optional(&self.current_target),
            last_switch_unix_seconds: self.last_switch_unix_seconds,
            next_change_not_before_unix_seconds: self.next_change_not_before_unix_seconds,
            last_switch_reason: copy_optional(&self.last_switch_reason),
            last_error_summary: copy_optional(&self.last_error_summary),
            pending_operation_id: self.pending_operation_id,
            pending_peer_id: self.pending_peer_id,
            pending_target: copy_optional(&self.pending_target),
            pending_reason: copy_optional(&self.pending_reason),
            pending_started_unix_seconds: self.pending_started_unix_seconds,
            pending_lease_until_unix_seconds: self.pending_lease_until_unix_seconds,
            targets: FleetDnsPeerTarget::duplicate_all(&self.targets),
            created_unix_seconds: self.created_unix_seconds,
            updated_unix_seconds: self.updated_unix_seconds,
        };
        assert(r@.targets =~= self@.targets);
        r
    }

    /// Copies of a list of values.
    pub fn duplicate_all(v: &Vec<Self>) -> (r: Vec<Self>)
        ensures
            r@.map_values(|x: Self| x@) == v@.map_values(|x: Self| x@),
    {
        let mut out: Vec<Self> = Vec::new();
        let mut i: usize = 0;
        while i < v.len()
            invariant
                i <= v@.len(),
                out@.len() == i,
                forall|j: int| 0 <= j < i ==> (#[trigger] out@[j])@ == v@[j]@,
            decreases v@.len() - i,
        {
            out.push(v[i].duplicate());
            i = i + 1;
        }
        assert(out@.map_values(|x: Self| x@) =~= v@.map_values(|x: Self| x@));
        out
    }
}

/// A DNS change to carry out.
#[derive(Clone, Debug, PartialEq, Eq)]
pub struct FleetDnsChangePlan {
    pub operation_id: u128,
    pub failover_id: u128,
    pub failover_name: String,
    pub hostname: String,
    pub record_type: FleetDnsRecordType,
    pub zone_id: String,
    pub record_id: String,
    pub token_env: String,
    pub ttl: u32,
    pub proxied: bool,
    pub peer_id: u128,
    pub peer_name: String,
    pub target: String,
    pub reason: String,
}

/// What a [`FleetDnsChangePlan`] says.
pub struct FleetDnsChangePlanModel {
    pub operation_id: u128,
    pub failover_id: u128,
    pub failover_name: Seq<char>,
    pub hostname: Seq<char>,
    pub record_type: FleetDnsRecordType,
    pub zone_id: Seq<char>,
    pub record_id: Seq<char>,
    pub token_env: Seq<char>,
    pub ttl: u32,
    pub proxied: bool,
    pub peer_id: u128,
    pub peer_name: Seq<char>,
    pub target: Seq<char>,
    pub reason: Seq<char>,
}

impl View for FleetDnsChangePlan {
    type V = FleetDnsChangePlanModel;

    open spec fn view(&self) -> FleetDnsChangePlanModel {
        FleetDnsChangePlanModel {
            operation_id: self.operation_id,
            failover_id: self.failover_id,
            failover_name: self.failover_name@,
            hostname: self.hostname@,
            record_type: self.record_type,
            zone_id: self.zone_id@,
            record_id: self.record_id@,
            token_env: self.token_env@,
            ttl: self.ttl,
            proxied: self.proxied,
            peer_id: self.peer_id,
            peer_name: self.peer_name@,
            target: self.target@,
            reason: self.reason@,
        }
    }
}

impl FleetDnsChangePlan {
    /// A copy of the value.
    pub fn duplicate(&self) -> (r: Self)
        ensures
            r@ == self@,
    {
        let r = FleetDnsChangePlan {
            operation_id: self.operation_id,
            failover_id: self.failover_id,
            failover_name: self.failover_name.clone(),
            hostname: self.hostname.clone(),
            record_type: self.record_type,
            zone_id: self.zone_id.clone(),
            record_id: self.record_id.clone(),
            token_env: self.token_env.clone(),
            ttl: self.ttl,
            proxied: self.proxied,
            peer_id: self.peer_id,
            peer_name: self.peer_name.clone(),
            target: self.target.clone(),
            reason: self.reason.clone(),
        };
        r
    }
}

/// What became of a DNS change.
#[derive(Clone, Debug, PartialEq, Eq)]
pub struct FleetDnsChangeResult {
    pub operation_id: u128,
    pub failover_id: u128,
    pub peer_id: u128,
    pub target: String,
    pub reason: String,
    pub applied: bool,
    pub duplicate: bool,
    pub error_summary: Option<String>,
}

/// What a [`FleetDnsChangeResult`] says.
pub struct FleetDnsChangeResultModel {
    pub operation_id: u128,
    pub failover_id: u128,
    pub peer_id: u128,
    pub target: Seq<char>,
    pub reason: Seq<char>,
    pub applied: bool,
    pub duplicate: bool,
    pub error_summary: Option<Seq<char>>,
}

impl View for FleetDnsChangeResult {
    type V = FleetDnsChangeResultModel;

    open spec fn view(&self) -> FleetDnsChangeResultModel {
        FleetDnsChangeResultModel {
            operation_id: self.operation_id,
            failover_id: self.failover_id,
            peer_id: self.peer_id,
            target: self.target@,
            reason: self.reason@,
            applied: self.applied,
            duplicate: self.duplicate,
            error_summary: opt_view(self.error_summary),
        }
    }
}

impl FleetDnsChangeResult {
    /// A copy of the value.
    pub fn duplicate(&self) -> (r: Self)
        ensures
            r@ == self@,
    {
        let r = FleetDnsChangeResult {
            operation_id: self.operation_id,
            failover_id: self.failover_id,
            peer_id: self.peer_id,
            target: self.target.clone(),
            reason: self.reason.clone(),
            applied: self.applied,
            duplicate: self.duplicate,
            error_summary: copy_optional(&self.error_summary),
        };
        r
    }
}

/// A DNS change in the history.
#[derive(Clone, Debug, PartialEq, Eq)]
pub struct FleetDnsSwitchEvent {
    pub operation_id: u128,
    pub failover_id: u128,
    pub peer_id: u128,
    pub target: String,
    pub reason: String,
    pub applied: bool,
    pub error_summary: Option<String>,
    pub completed_unix_seconds: u64,
}

/// What a [`FleetDnsSwitchEvent`] says.
pub struct FleetDnsSwitchEventModel {
    pub operation_id: u128,
    pub failover_id: u128,
    pub peer_id: u128,
    pub target: Seq<char>,
    pub reason: Seq<char>,
    pub applied: bool,
    pub error_summary: Option<Seq<char>>,
    pub completed_unix_seconds: u64,
}

impl View for FleetDnsSwitchEvent {
    type V = FleetDnsSwitchEventModel;

    open spec fn view(&self) -> FleetDnsSwitchEventModel {
        FleetDnsSwitchEventModel {
            operation_id: self.operation_id,
            failover_id: self.failover_id,
            peer_id: self.peer_id,
            target: self.target@,
            reason: self.reason@,
            applied: self.applied,
            error_summary: opt_view(self.error_summary),
            completed_unix_seconds: self.completed_unix_seconds,
        }
    }
}

impl FleetDnsSwitchEvent {
    /// A copy of the value.
    pub fn duplicate(&self) -> (r: Self)
        ensures
            r@ == self@,
    {
        let r = FleetDnsSwitchEvent {
            operation_id: self.operation_id,
            failover_id: self.failover_id,
            peer_id: self.peer_id,
            target: self.target.clone(),
            reason: self.reason.clone(),
            applied: self.applied,
            error_summary: copy_optional(&self.error_summary),
            completed_unix_seconds: self.completed_unix_seconds,
        };
        r
    }

    /// Copies of a list of values.
    pub fn duplicate_all(v: &Vec<Self>) -> (r: Vec<Self>)
        ensures
            r@.map_values(|x: Self| x@) == v@.map_values(|x: Self| x@),
    {
        let mut out: Vec<Self> = Vec::new();
        let mut i: usize = 0;
        while i < v.len()
            invariant
                i <= v@.len(),
                out@.len() == i,
                forall|j: int| 0 <= j < i ==> (#[trigger] out@[j])@ == v@[j]@,
            decreases v@.len() - i,
        {
            out.push(v[i].duplicate());
            i = i + 1;
        }
        assert(out@.map_values(|x: Self| x@) =~= v@.map_values(|x: Self| x@));
        out
    }
}

/// A peer that a record may be directed to.
#[derive(Clone, Debug, PartialEq, Eq)]
pub struct DnsCandidate {
    pub peer_id: u128,
    pub peer_name: String,
    pub priority: u16,
    pub weight: u16,
    pub target: String,
}

/// What a [`DnsCandidate`] says.
pub struct DnsCandidateModel {
    pub peer_id: u128,
    pub peer_name: Seq<char>,
    pub priority: u16,
    pub weight: u16,
    pub target: Seq<char>,
}

impl View for DnsCandidate {
    type V = DnsCandidateModel;

    open spec fn view(&self) -> DnsCandidateModel {
        DnsCandidateModel {
            peer_id: self.peer_id,
            peer_name: self.peer_name@,
            priority: self.priority,
            weight: self.weight,
            target: self.target@,
        }
    }
}

impl DnsCandidate {
    /// A copy of the value.
    pub fn duplicate(&self) -> (r: Self)
        ensures
            r@ == self@,
    {
        let r = DnsCandidate {
            peer_id: self.peer_id,
            peer_name: self.peer_name.clone(),
            priority: self.priority,
            weight: self.weight,
            target: self.target.clone(),
        };
        r
    }
}

/// Why a DNS failover operation was refused.
#[derive(Clone, Copy, Debug, PartialEq, Eq, Structural)]
pub enum FleetDnsError {
    InvalidName,
    InvalidHostname,
    InvalidZoneId,
    InvalidRecordId,
    InvalidTokenEnv,
    InvalidTtl,
    InvalidCooldown,
    NoTargets,
    UnknownPeer,
    DuplicatePeer,
    InvalidATarget,
    InvalidAaaaTarget,
    InvalidCnameTarget,
    NameTaken,
    HostnameTaken,
    OperationPending,
    OperationStale,
    FailoverMissing,
    FreezeReasonRequired,
}

/// The text of a refusal.
pub open spec fn dns_error_text(e: FleetDnsError) -> Seq<char> {
    match e {
        FleetDnsError::InvalidName => "fleet DNS failover name is invalid"@,
        FleetDnsError::InvalidHostname => "fleet DNS hostname is invalid"@,
        FleetDnsError::InvalidZoneId => "Cloudflare zone ID is invalid"@,
        FleetDnsError::InvalidRecordId => "Cloudflare record ID is invalid"@,
        FleetDnsError::InvalidTokenEnv => "Cloudflare token environment variable is invalid"@,
        FleetDnsError::InvalidTtl => "fleet DNS TTL must be 1 or between 60 and 86400 seconds"@,
        FleetDnsError::InvalidCooldown => "fleet DNS cooldown must be between 1 and 86400 seconds"@,
        FleetDnsError::NoTargets => "fleet DNS targets are required"@,
        FleetDnsError::UnknownPeer => "fleet DNS target peer does not exist"@,
        FleetDnsError::DuplicatePeer => "fleet DNS target peer is duplicated"@,
        FleetDnsError::InvalidATarget => "fleet DNS A target is invalid"@,
        FleetDnsError::InvalidAaaaTarget => "fleet DNS AAAA target is invalid"@,
        FleetDnsError::InvalidCnameTarget => "fleet DNS CNAME target is invalid"@,
        FleetDnsError::NameTaken => "UNIQUE constraint failed: fleet_dns_failovers.name"@,
        FleetDnsError::HostnameTaken => "UNIQUE constraint failed: fleet_dns_failovers.hostname"@,
        FleetDnsError::OperationPending => "fleet DNS failover operation is pending"@,
        FleetDnsError::OperationStale => "fleet DNS operation is stale"@,
        FleetDnsError::FailoverMissing => "fleet DNS failover does not exist"@,
        FleetDnsError::FreezeReasonRequired => "fleet DNS freeze reason is required"@,
    }
}

impl FleetDnsError {
    /// The text shown to operators.
    pub fn message(self) -> (r: &'static str)
        ensures
            r@ == dns_error_text(self),
    {
        match self {
            FleetDnsError::InvalidName => "fleet DNS failover name is invalid",
            FleetDnsError::InvalidHostname => "fleet DNS hostname is invalid",
            FleetDnsError::InvalidZoneId => "Cloudflare zone ID is invalid",
            FleetDnsError::InvalidRecordId => "Cloudflare record ID is invalid",
            FleetDnsError::InvalidTokenEnv => "Cloudflare token environment variable is invalid",
            FleetDnsError::InvalidTtl => "fleet DNS TTL must be 1 or between 60 and 86400 seconds",
            FleetDnsError::InvalidCooldown => "fleet DNS cooldown must be between 1 and 86400 seconds",
            FleetDnsError::NoTargets => "fleet DNS targets are required",
            FleetDnsError::UnknownPeer => "fleet DNS target peer does not exist",
            FleetDnsError::DuplicatePeer => "fleet DNS target peer is duplicated",
            FleetDnsError::InvalidATarget => "fleet DNS A target is invalid",
            FleetDnsError::InvalidAaaaTarget => "fleet DNS AAAA target is invalid",
            FleetDnsError::InvalidCnameTarget => "fleet DNS CNAME target is invalid",
            FleetDnsError::NameTaken => "UNIQUE constraint failed: fleet_dns_failovers.name",
            FleetDnsError::HostnameTaken => "UNIQUE constraint failed: fleet_dns_failovers.hostname",
            FleetDnsError::OperationPending => "fleet DNS failover operation is pending",
            FleetDnsError::OperationStale => "fleet DNS operation is stale",
            FleetDnsError::FailoverMissing => "fleet DNS failover does not exist",
            FleetDnsError::FreezeReasonRequired => "fleet DNS freeze reason is required",
        }
    }
}

// ---------------------------------------------------------------------------
// Validation
// ---------------------------------------------------------------------------

/// An identifier of the DNS provider: 32 hexadecimal digits.
pub open spec fn provider_id(s: Seq<char>) -> bool {
    s.len() == 32 && all_digits(s, 16)
}

/// The name of a variable that may hold a token of the DNS provider.
pub open spec fn secret_env(s: Seq<char>) -> bool {
    &&& starts_with(s, "LINKLAKE_CLOUDFLARE_"@)
    &&& ends_with(s, "_TOKEN"@)
    &&& s.len() <= 128
    &&& forall|i: int| 0 <= i < s.len() ==> env_char(#[trigger] s[i])
}

/// What is wrong with the content of a record.
pub open spec fn target_value_error(t: FleetDnsRecordType, value: Seq<char>) -> Option<
    FleetDnsError,
> {
    match t {
        FleetDnsRecordType::A => if ipv4_octets(value) is Some {
            None
        } else {
            Some(FleetDnsError::InvalidATarget)
        },
        FleetDnsRecordType::Aaaa => if ipv6_groups(value) is Some {
            None
        } else {
            Some(FleetDnsError::InvalidAaaaTarget)
        },
        FleetDnsRecordType::Cname => if valid_host(value) {
            None
        } else {
            Some(FleetDnsError::InvalidCnameTarget)
        },
    }
}

pub fn valid_provider_id(value: &str) -> (r: bool)
    ensures
        r == provider_id(value@),
{
    let s = chars_of(value);
    if s.len() != 32 {
        return false;
    }
    let mut i: usize = 0;
    while i < s.len()
        invariant
            i <= s@.len(),
            s@.len() == 32,
            s@ == value@,
            forall|j: int| 0 <= j < i ==> digit_value(#[trigger] s@[j]) < 16,
        decreases s@.len() - i,
    {
        if digit_of(s[i], 16).is_none() {
            assert(digit_value(s@[i as int]) >= 16);
            return false;
        }
        i = i + 1;
    }
    true
}

pub fn valid_secret_env(value: &str) -> (r: bool)
    ensures
        r == secret_env(value@),
{
    let s = chars_of(value);
    has_prefix(&s, "LINKLAKE_CLOUDFLARE_") && has_suffix(&s, "_TOKEN") && s.len() <= 128
        && are_env_chars(&s)
}

pub fn valid_dns_name(value: &str) -> (r: bool)
    ensures
        r == valid_host(value@),
{
    is_valid_host(&chars_of(value))
}

pub fn validate_dns_target(record_type: FleetDnsRecordType, value: &str) -> (r: Result<
    (),
    FleetDnsError,
>)
    ensures
        match target_value_error(record_type, value@) {
            Some(error) => r == Err::<(), FleetDnsError>(error),
            None => r is Ok,
        },
{
    let s = chars_of(value);
    match record_type {
        FleetDnsRecordType::A => if parse_ipv4(&s).is_some() {
            Ok(())
        } else {
            Err(FleetDnsError::InvalidATarget)
        },
        FleetDnsRecordType::Aaaa => if parse_ipv6(&s).is_some() {
            Ok(())
        } else {
            Err(FleetDnsError::InvalidAaaaTarget)
        },
        FleetDnsRecordType::Cname => if is_valid_host(&s) {
            Ok(())
        } else {
            Err(FleetDnsError::InvalidCnameTarget)
        },
    }
}

/// The stored form of a target: trimmed, without trailing dots, and in lower
/// case where it is a name.
pub open spec fn stored_target(t: FleetDnsRecordType, target: FleetDnsPeerTargetModel) -> FleetDnsPeerTargetModel {
    let bare = trim_end_char(trim(target.value), '.');
    FleetDnsPeerTargetModel {
        value: if t == FleetDnsRecordType::Cname {
            lower(bare)
        } else {
            bare
        },
        ..target
    }
}

pub open spec fn stored_targets(
    t: FleetDnsRecordType,
    s: Seq<FleetDnsPeerTargetModel>,
) -> Seq<FleetDnsPeerTargetModel> {
    s.map_values(|x: FleetDnsPeerTargetModel| stored_target(t, x))
}

/// What is wrong with the target at a position: its peer is unknown or stands
/// further ahead already, or its content is invalid.
pub open spec fn target_error(
    t: FleetDnsRecordType,
    s: Seq<FleetDnsPeerTargetModel>,
    peers: Seq<FleetPeerModel>,
    i: int,
) -> Option<FleetDnsError> {
    if find_peer(peers, s[i].peer_id) is None {
        Some(FleetDnsError::UnknownPeer)
    } else if exists|j: int| 0 <= j < i && (#[trigger] s[j]).peer_id == s[i].peer_id {
        Some(FleetDnsError::DuplicatePeer)
    } else {
        target_value_error(t, s[i].value)
    }
}

/// The first thing wrong with the first `n` targets.
pub open spec fn targets_error(
    t: FleetDnsRecordType,
    s: Seq<FleetDnsPeerTargetModel>,
    peers: Seq<FleetPeerModel>,
    n: nat,
) -> Option<FleetDnsError>
    decreases n,
{
    if n == 0 {
        None
    } else {
        match targets_error(t, s, peers, (n - 1) as nat) {
            Some(error) => Some(error),
            None => target_error(t, s, peers, n - 1),
        }
    }
}

/// Where a target goes in a list by peer: before the first greater peer.
pub open spec fn target_position(s: Seq<FleetDnsPeerTargetModel>, peer_id: u128) -> int
    decreases s.len(),
{
    if s.len() == 0 || peer_id < s[0].peer_id {
        0
    } else {
        1 + target_position(s.drop_first(), peer_id)
    }
}

/// The targets in the order of their peers.
pub open spec fn sorted_targets(s: Seq<FleetDnsPeerTargetModel>) -> Seq<FleetDnsPeerTargetModel>
    decreases s.len(),
{
    if s.len() == 0 {
        s
    } else {
        let rest = sorted_targets(s.drop_last());
        rest.insert(target_position(rest, s.last().peer_id), s.last())
    }
}

/// A valid request in its stored form, or the first thing wrong with it.
pub open spec fn checked_failover(
    request: UpsertFleetDnsFailoverModel,
    peers: Seq<FleetPeerModel>,
) -> Result<UpsertFleetDnsFailoverModel, FleetDnsError> {
    let name = trim(request.name);
    let hostname = lower(trim_end_char(trim(request.hostname), '.'));
    let zone_id = trim(request.zone_id);
    let record_id = trim(request.record_id);
    let token_env = trim(request.token_env);
    let targets = stored_targets(request.record_type, request.targets);
    if !(1 <= name.len() <= 80) {
        Err(FleetDnsError::InvalidName)
    } else if !valid_host(hostname) {
        Err(FleetDnsError::InvalidHostname)
    } else if !provider_id(zone_id) {
        Err(FleetDnsError::InvalidZoneId)
    } else if !provider_id(record_id) {
        Err(FleetDnsError::InvalidRecordId)
    } else if !secret_env(token_env) {
        Err(FleetDnsError::InvalidTokenEnv)
    } else if request.ttl != 1 && !(60 <= request.ttl <= 86_400) {
        Err(FleetDnsError::InvalidTtl)
    } else if !(1 <= request.cooldown_seconds <= 86_400) {
        Err(FleetDnsError::InvalidCooldown)
    } else if targets.len() == 0 {
        Err(FleetDnsError::NoTargets)
    } else {
        match targets_error(request.record_type, targets, peers, targets.len()) {
            Some(error) => Err(error),
            None => Ok(
                UpsertFleetDnsFailoverModel {
                    name,
                    hostname,
                    zone_id,
                    record_id,
                    token_env,
                    targets: sorted_targets(targets),
                    ..request
                },
            ),
        }
    }
}

pub open spec fn target_models(v: Seq<FleetDnsPeerTarget>) -> Seq<FleetDnsPeerTargetModel> {
    v.map_values(|x: FleetDnsPeerTarget| x@)
}

fn store_targets(record_type: FleetDnsRecordType, v: &Vec<FleetDnsPeerTarget>) -> (r: Vec<
    FleetDnsPeerTarget,
>)
    ensures
        target_models(r@) == stored_targets(record_type, target_models(v@)),
{
    let mut out: Vec<FleetDnsPeerTarget> = Vec::new();
    let mut i: usize = 0;
    while i < v.len()
        invariant
            i <= v@.len(),
            out@.len() == i,
            forall|j: int| 0 <= j < i ==> (#[trigger] out@[j])@ == stored_target(record_type, v@[j]@),
        decreases v@.len() - i,
    {
        let bare = trimmed_end_char(&trimmed(&chars_of(v[i].value.as_str())), '.');
        let value = match record_type {
            FleetDnsRecordType::Cname => string_of(&lowered(&bare)),
            _ => string_of(&bare),
        };
        out.push(FleetDnsPeerTarget { peer_id: v[i].peer_id, value });
        i = i + 1;
    }
    assert(target_models(out@) =~= stored_targets(record_type, target_models(v@)));
    out
}

fn check_targets(
    record_type: FleetDnsRecordType,
    v: &Vec<FleetDnsPeerTarget>,
    peers: &Vec<FleetPeer>,
) -> (r: Option<FleetDnsError>)
    ensures
        r == targets_error(record_type, target_models(v@), peer_models(peers@), v@.len()),
{
    let ghost s = target_models(v@);
    let ghost ps = peer_models(peers@);
    let mut i: usize = 0;
    while i < v.len()
        invariant
            i <= v@.len(),
            s == target_models(v@),
            ps == peer_models(peers@),
            targets_error(record_type, s, ps, i as nat) is None,
        decreases v@.len() - i,
    {
        assert(s[i as int] == v@[i as int]@);
        let mut error: Option<FleetDnsError> = None;
        if peer_position(peers, v[i].peer_id).is_none() {
            error = Some(FleetDnsError::UnknownPeer);
        } else {
            let mut seen = false;
            let mut j: usize = 0;
            while j < i
                invariant
                    j <= i < v@.len(),
                    s == target_models(v@),
                    seen == exists|a: int|
                        0 <= a < j && (#[trigger] s[a]).peer_id == s[i as int].peer_id,
                decreases i - j,
            {
                if v[j].peer_id == v[i].peer_id {
                    assert(s[j as int].peer_id == s[i as int].peer_id);
                    seen = true;
                }
                j = j + 1;
            }
            if seen {
                error = Some(FleetDnsError::DuplicatePeer);
            } else {
                match validate_dns_target(record_type, v[i].value.as_str()) {
                    Ok(()) => {},
                    Err(e) => {
                        error = Some(e);
                    },
                }
            }
        }
        assert(error == target_error(record_type, s, ps, i as int));
        if error.is_some() {
            proof {
                lemma_targets_error_stays(record_type, s, ps, (i + 1) as nat, v@.len());
            }
            return error;
        }
        i = i + 1;
    }
    None
}

proof fn lemma_targets_error_stays(
    t: FleetDnsRecordType,
    s: Seq<FleetDnsPeerTargetModel>,
    peers: Seq<FleetPeerModel>,
    k: nat,
    n: nat,
)
    requires
        k <= n,
        targets_error(t, s, peers, k) is Some,
    ensures
        targets_error(t, s, peers, n) == targets_error(t, s, peers, k),
    decreases n,
{
    if k < n {
        lemma_targets_error_stays(t, s, peers, k, (n - 1) as nat);
    }
}

fn sort_targets(v: &Vec<FleetDnsPeerTarget>) -> (r: Vec<FleetDnsPeerTarget>)
    ensures
        target_models(r@) == sorted_targets(target_models(v@)),
{
    let ghost s = target_models(v@);
    let mut out: Vec<FleetDnsPeerTarget> = Vec::new();
    let mut i: usize = 0;
    assert(target_models(out@) =~= sorted_targets(s.take(0)));
    while i < v.len()
        invariant
            i <= v@.len(),
            s == target_models(v@),
            target_models(out@) == sorted_targets(s.take(i as int)),
        decreases v@.len() - i,
    {
        let ghost models = target_models(out@);
        let mut at: usize = 0;
        assert(models.skip(0) =~= models);
        while at < out.len() && !(v[i].peer_id < out[at].peer_id)
            invariant
                at <= out@.len(),
                i < v@.len(),
                models == target_models(out@),
                target_position(models, v@[i as int].peer_id) == at + target_position(
                    models.skip(at as int),
                    v@[i as int].peer_id,
                ),
            decreases out@.len() - at,
        {
            assert(models.skip(at as int)[0] == out@[at as int]@);
            assert(models.skip(at as int).drop_first() =~= models.skip(at + 1));
            at = at + 1;
        }
        proof {
            if at < out@.len() {
                assert(models.skip(at as int)[0] == out@[at as int]@);
            }
            assert(s.take(i + 1).drop_last() =~= s.take(i as int));
            assert(s.take(i + 1).last() == v@[i as int]@);
        }
        let ghost before = out@;
        let copy = v[i].duplicate();
        out.insert(at, copy);
        assert(target_models(out@) =~= target_models(before).insert(at as int, v@[i as int]@));
        i = i + 1;
    }
    assert(s.take(s.len() as int) =~= s);
    out
}

/// Validates a request against the known peers.
pub fn validate_dns_failover(request: UpsertFleetDnsFailover, peers: &Vec<FleetPeer>) -> (r: Result<
    UpsertFleetDnsFailover,
    FleetDnsError,
>)
    ensures
        match checked_failover(request@, peer_models(peers@)) {
            Ok(valid) => r is Ok && r->Ok_0@ == valid,
            Err(error) => r is Err && r->Err_0 == error,
        },
{
    let name = trimmed(&chars_of(request.name.as_str()));
    let hostname = lowered(&trimmed_end_char(&trimmed(&chars_of(request.hostname.as_str())), '.'));
    let zone_id = trim_text(request.zone_id.as_str());
    let record_id = trim_text(request.record_id.as_str());
    let token_env = trim_text(request.token_env.as_str());
    if name.len() == 0 || name.len() > 80 {
        return Err(FleetDnsError::InvalidName);
    }
    if !is_valid_host(&hostname) {
        return Err(FleetDnsError::InvalidHostname);
    }
    if !valid_provider_id(zone_id.as_str()) {
        return Err(FleetDnsError::InvalidZoneId);
    }
    if !valid_provider_id(record_id.as_str()) {
        return Err(FleetDnsError::InvalidRecordId);
    }
    if !valid_secret_env(token_env.as_str()) {
        return Err(FleetDnsError::InvalidTokenEnv);
    }
    if request.ttl != 1 && (request.ttl < 60 || request.ttl > 86_400) {
        return Err(FleetDnsError::InvalidTtl);
    }
    if request.cooldown_seconds < 1 || request.cooldown_seconds > 86_400 {
        return Err(FleetDnsError::InvalidCooldown);
    }
    if request.targets.len() == 0 {
        return Err(FleetDnsError::NoTargets);
    }
    let targets = store_targets(request.record_type, &request.targets);
    assert(target_models(targets@).len() == targets@.len());
    if let Some(error) = check_targets(request.record_type, &targets, peers) {
        return Err(error);
    }
    Ok(
        UpsertFleetDnsFailover {
            name: string_of(&name),
            hostname: string_of(&hostname),
            record_type: request.record_type,
            zone_id,
            record_id,
            token_env,
            ttl: request.ttl,
            proxied: request.proxied,
            enabled: request.enabled,
            cooldown_seconds: request.cooldown_seconds,
            targets: sort_targets(&targets),
        },
    )
}

// ---------------------------------------------------------------------------
// Candidates
// ---------------------------------------------------------------------------

/// The candidate that a target stands for: its peer is known, enabled, healthy
/// and past its cooldown, and the content is valid.
pub open spec fn candidate_of(
    t: FleetDnsRecordType,
    target: FleetDnsPeerTargetModel,
    peers: Seq<FleetPeerModel>,
    snapshots: Seq<FleetHealthSnapshotModel>,
    now: u64,
) -> Option<DnsCandidateModel> {
    match (find_peer(peers, target.peer_id), find_snapshot(snapshots, target.peer_id)) {
        (Some(peer), Some(snapshot)) => if snapshot.health.dns_eligible(peer.enabled, now)
            && target_value_error(t, target.value) is None {
            Some(
                DnsCandidateModel {
                    peer_id: peer.id,
                    peer_name: peer.name,
                    priority: peer.priority,
                    weight: peer.weight,
                    target: target.value,
                },
            )
        } else {
            None
        },
        _ => None,
    }
}

/// The candidates among a list of targets, in its order.
pub open spec fn candidates_of(
    t: FleetDnsRecordType,
    targets: Seq<FleetDnsPeerTargetModel>,
    peers: Seq<FleetPeerModel>,
    snapshots: Seq<FleetHealthSnapshotModel>,
    now: u64,
) -> Seq<DnsCandidateModel>
    decreases targets.len(),
{
    if targets.len() == 0 {
        Seq::empty()
    } else {
        let rest = candidates_of(t, targets.drop_last(), peers, snapshots, now);
        match candidate_of(t, targets.last(), peers, snapshots, now) {
            Some(candidate) => rest.push(candidate),
            None => rest,
        }
    }
}

/// Candidates are preferred by lower priority, then by higher weight, then by
/// name.
pub open spec fn preferred_over(a: DnsCandidateModel, b: DnsCandidateModel) -> bool {
    ||| a.priority < b.priority
    ||| a.priority == b.priority && a.weight > b.weight
    ||| a.priority == b.priority && a.weight == b.weight && lex_less(a.peer_name, b.peer_name)
}

/// The preferred candidate; of equals the first.
pub open spec fn best_candidate(s: Seq<DnsCandidateModel>) -> Option<DnsCandidateModel>
    decreases s.len(),
{
    if s.len() == 0 {
        None
    } else {
        match best_candidate(s.drop_last()) {
            Some(best) => if preferred_over(s.last(), best) {
                Some(s.last())
            } else {
                Some(best)
            },
            None => Some(s.last()),
        }
    }
}

pub open spec fn candidate_models(v: Seq<DnsCandidate>) -> Seq<DnsCandidateModel> {
    v.map_values(|x: DnsCandidate| x@)
}

/// The candidates of a failover.
pub fn candidates(
    value: &FleetDnsFailover,
    peers: &Vec<FleetPeer>,
    snapshots: &Vec<FleetHealthSnapshot>,
    now: u64,
) -> (r: Vec<DnsCandidate>)
    ensures
        candidate_models(r@) == candidates_of(
            value@.record_type,
            value@.targets,
            peer_models(peers@),
            snapshot_models(snapshots@),
            now,
        ),
{
    let ghost s = value@.targets;
    let ghost ps = peer_models(peers@);
    let ghost hs = snapshot_models(snapshots@);
    let ghost t = value@.record_type;
    let mut out: Vec<DnsCandidate> = Vec::new();
    let mut i: usize = 0;
    assert(s.take(0) =~= Seq::empty());
    assert(candidate_models(out@) =~= candidates_of(t, s.take(0), ps, hs, now));
    while i < value.targets.len()
        invariant
            i <= value.targets@.len(),
            s == value@.targets,
            t == value.record_type,
            ps == peer_models(peers@),
            hs == snapshot_models(snapshots@),
            candidate_models(out@) == candidates_of(t, s.take(i as int), ps, hs, now),
        decreases value.targets@.len() - i,
    {
        let target = &value.targets[i];
        proof {
            assert(s.take(i + 1).drop_last() =~= s.take(i as int));
            assert(s.take(i + 1).last() == target@);
        }
        match (peer_position(peers, target.peer_id), snapshot_position(snapshots, target.peer_id)) {
            (Some(p), Some(h)) => {
                let peer = &peers[p];
                assert(ps[p as int] == peer@);
                assert(hs[h as int] == snapshots@[h as int]@);
                if snapshots[h].health.dns_eligible(peer.enabled, now) && validate_dns_target(
                    value.record_type,
                    target.value.as_str(),
                ).is_ok() {
                    let candidate = DnsCandidate {
                        peer_id: peer.id,
                        peer_name: peer.name.clone(),
                        priority: peer.priority,
                        weight: peer.weight,
                        target: target.value.clone(),
                    };
                    let ghost before = out@;
                    let ghost cm = candidate@;
                    out.push(candidate);
                    assert(candidate_models(out@) =~= candidate_models(before).push(cm));
                }
            },
            _ => {},
        }
        i = i + 1;
    }
    assert(s.take(s.len() as int) =~= s);
    out
}

fn is_preferred_over(a: &DnsCandidate, b: &DnsCandidate) -> (r: bool)
    ensures
        r == preferred_over(a@, b@),
{
    a.priority < b.priority || (a.priority == b.priority && (a.weight > b.weight || (a.weight
        == b.weight && text_before(a.peer_name.as_str(), b.peer_name.as_str()))))
}

/// The position of the preferred candidate.
fn best_position(v: &Vec<DnsCandidate>) -> (r: Option<usize>)
    ensures
        match r {
            Some(i) => i < v@.len() && best_candidate(candidate_models(v@)) == Some(v@[i as int]@),
            None => best_candidate(candidate_models(v@)) is None,
        },
{
    let ghost s = candidate_models(v@);
    let mut best: Option<usize> = None;
    let mut i: usize = 0;
    while i < v.len()
        invariant
            i <= v@.len(),
            s == candidate_models(v@),
            match best {
                Some(b) => b < i && best_candidate(s.take(i as int)) == Some(v@[b as int]@),
                None => best_candidate(s.take(i as int)) is None,
            },
        decreases v@.len() - i,
    {
        proof {
            assert(s.take(i + 1).drop_last() =~= s.take(i as int));
            assert(s.take(i + 1).last() == v@[i as int]@);
        }
        match best {
            Some(b) => {
                if is_preferred_over(&v[i], &v[b]) {
                    best = Some(i);
                }
            },
            None => {
                best = Some(i);
            },
        }
        i = i + 1;
    }
    assert(s.take(s.len() as int) =~= s);
    best
}

/// Whether a peer with a content is among the candidates.
pub open spec fn is_candidate(s: Seq<DnsCandidateModel>, peer_id: u128, target: Seq<char>) -> bool {
    exists|i: int|
        0 <= i < s.len() && (#[trigger] s[i]).peer_id == peer_id && s[i].target == target
}

fn has_candidate(v: &Vec<DnsCandidate>, peer_id: u128, target: &str) -> (r: Option<usize>)
    ensures
        r is Some <==> is_candidate(candidate_models(v@), peer_id, target@),
        r matches Some(i) ==> i < v@.len() && v@[i as int].peer_id == peer_id
            && v@[i as int].target@ == target@,
{
    let ghost s = candidate_models(v@);
    let mut i: usize = 0;
    while i < v.len()
        invariant
            i <= v@.len(),
            s == candidate_models(v@),
            forall|j: int|
                0 <= j < i ==> !((#[trigger] s[j]).peer_id == peer_id && s[j].target == target@),
        decreases v@.len() - i,
    {
        assert(s[i as int] == v@[i as int]@);
        if v[i].peer_id == peer_id && same_text(v[i].target.as_str(), target) {
            return Some(i);
        }
        i = i + 1;
    }
    None
}

// ---------------------------------------------------------------------------
// Keeping or leaving the current peer
// ---------------------------------------------------------------------------

/// Whether the current content is still configured for a peer.
pub open spec fn current_configured(f: FleetDnsFailoverModel, peer_id: u128) -> bool {
    exists|i: int|
        0 <= i < f.targets.len() && (#[trigger] f.targets[i]).peer_id == peer_id
            && f.current_target == Some(f.targets[i].value)
}

/// Whether the record stays with its current peer: the peer is known, enabled
/// and still configured, and is degraded, or healthy within its cooldown.
pub open spec fn holds_current(
    f: FleetDnsFailoverModel,
    peers: Seq<FleetPeerModel>,
    snapshots: Seq<FleetHealthSnapshotModel>,
    now: u64,
) -> bool {
    match f.current_peer_id {
        None => false,
        Some(id) => match (find_peer(peers, id), find_snapshot(snapshots, id)) {
            (Some(peer), Some(snapshot)) => {
                &&& peer.enabled
                &&& current_configured(f, id)
                &&& {
                    ||| snapshot.health.state == FleetHealthState::Degraded
                    ||| snapshot.health.state == FleetHealthState::Healthy && now
                        < snapshot.health.cooldown_until_unix_seconds
                }
            },
            _ => false,
        },
    }
}

/// Why the record moves to a candidate.
pub open spec fn reason_for(
    f: FleetDnsFailoverModel,
    peers: Seq<FleetPeerModel>,
    snapshots: Seq<FleetHealthSnapshotModel>,
    candidate: DnsCandidateModel,
) -> Seq<char> {
    match f.current_peer_id {
        None => "initial_activation"@,
        Some(id) => if id == candidate.peer_id {
            if f.current_target == Some(candidate.target) && f.reconcile_required {
                "configuration_updated"@
            } else {
                "target_value_changed"@
            }
        } else {
            match find_peer(peers, id) {
                None => "current_peer_removed"@,
                Some(peer) => if !peer.enabled {
                    "current_peer_disabled"@
                } else if !current_configured(f, id) {
                    "current_target_removed"@
                } else {
                    match find_snapshot(snapshots, id) {
                        None => "preferred_peer_recovered"@,
                        Some(snapshot) => match snapshot.health.state {
                            FleetHealthState::Unhealthy => "current_peer_unhealthy"@,
                            FleetHealthState::Recovering => "current_peer_recovering"@,
                            FleetHealthState::Unknown => "current_peer_unknown"@,
                            FleetHealthState::Degraded => "current_peer_degraded"@,
                            FleetHealthState::Healthy => "preferred_peer_recovered"@,
                        },
                    }
                },
            }
        },
    }
}

pub fn current_is_configured(value: &FleetDnsFailover, peer_id: u128) -> (r: bool)
    ensures
        r == current_configured(value@, peer_id),
{
    let ghost s = value@.targets;
    let mut i: usize = 0;
    while i < value.targets.len()
        invariant
            i <= value.targets@.len(),
            s == value@.targets,
            forall|j: int|
                0 <= j < i ==> !((#[trigger] s[j]).peer_id == peer_id && value@.current_target
                    == Some(s[j].value)),
        decreases value.targets@.len() - i,
    {
        assert(s[i as int] == value.targets@[i as int]@);
        if value.targets[i].peer_id == peer_id && optional_is(
            &value.current_target,
            value.targets[i].value.as_str(),
        ) {
            return true;
        }
        i = i + 1;
    }
    false
}

pub fn hold_current(
    value: &FleetDnsFailover,
    peers: &Vec<FleetPeer>,
    snapshots: &Vec<FleetHealthSnapshot>,
    now: u64,
) -> (r: bool)
    ensures
        r == holds_current(value@, peer_models(peers@), snapshot_models(snapshots@), now),
{
    match value.current_peer_id {
        None => false,
        Some(id) => match (peer_position(peers, id), snapshot_position(snapshots, id)) {
            (Some(p), Some(h)) => {
                assert(peer_models(peers@)[p as int] == peers@[p as int]@);
                assert(snapshot_models(snapshots@)[h as int] == snapshots@[h as int]@);
                peers[p].enabled && current_is_configured(value, id) && (snapshots[h].health.state
                    == FleetHealthState::Degraded || (snapshots[h].health.state
                    == FleetHealthState::Healthy && now
                    < snapshots[h].health.cooldown_until_unix_seconds))
            },
            _ => false,
        },
    }
}

pub fn switch_reason(
    value: &FleetDnsFailover,
    peers: &Vec<FleetPeer>,
    snapshots: &Vec<FleetHealthSnapshot>,
    candidate: &DnsCandidate,
) -> (r: &'static str)
    ensures
        r@ == reason_for(
            value@,
            peer_models(peers@),
            snapshot_models(snapshots@),
            candidate@,
        ),
{
    let id: u128 = match value.current_peer_id {
        None => {
            return "initial_activation";
        },
        Some(id) => id,
    };
    if id == candidate.peer_id {
        return if optional_is(&value.current_target, candidate.target.as_str())
            && value.reconcile_required {
            "configuration_updated"
        } else {
            "target_value_changed"
        };
    }
    let p: usize = match peer_position(peers, id) {
        None => {
            return "current_peer_removed";
        },
        Some(p) => p,
    };
    assert(peer_models(peers@)[p as int] == peers@[p as int]@);
    if !peers[p].enabled {
        return "current_peer_disabled";
    }
    if !current_is_configured(value, id) {
        return "current_target_removed";
    }
    match snapshot_position(snapshots, id) {
        None => "preferred_peer_recovered",
        Some(h) => {
            assert(snapshot_models(snapshots@)[h as int] == snapshots@[h as int]@);
            match snapshots[h].health.state {
                FleetHealthState::Unhealthy => "current_peer_unhealthy",
                FleetHealthState::Recovering => "current_peer_recovering",
                FleetHealthState::Unknown => "current_peer_unknown",
                FleetHealthState::Degraded => "current_peer_degraded",
                FleetHealthState::Healthy => "preferred_peer_recovered",
            }
        },
    }
}

// ---------------------------------------------------------------------------
// Planning
// ---------------------------------------------------------------------------

/// A failover without a pending change.
pub open spec fn without_pending(f: FleetDnsFailoverModel) -> FleetDnsFailoverModel {
    FleetDnsFailoverModel {
        pending_operation_id: None,
        pending_peer_id: None,
        pending_target: None,
        pending_reason: None,
        pending_started_unix_seconds: None,
        pending_lease_until_unix_seconds: None,
        ..f
    }
}

pub fn clear_pending(value: &mut FleetDnsFailover)
    ensures
        final(value)@ == without_pending(old(value)@),
{
    value.pending_operation_id = None;
    value.pending_peer_id = None;
    value.pending_target = None;
    value.pending_reason = None;
    value.pending_started_unix_seconds = None;
    value.pending_lease_until_unix_seconds = None;
}

/// The change that directs a failover's record to a peer.
pub open spec fn plan_of(
    f: FleetDnsFailoverModel,
    operation_id: u128,
    peer_id: u128,
    peer_name: Seq<char>,
    target: Seq<char>,
    reason: Seq<char>,
) -> FleetDnsChangePlanModel {
    FleetDnsChangePlanModel {
        operation_id,
        failover_id: f.id,
        failover_name: f.name,
        hostname: f.hostname,
        record_type: f.record_type,
        zone_id: f.zone_id,
        record_id: f.record_id,
        token_env: f.token_env,
        ttl: f.ttl,
        proxied: f.proxied,
        peer_id,
        peer_name,
        target,
        reason,
    }
}

pub fn change_plan(
    value: &FleetDnsFailover,
    operation_id: u128,
    peer_id: u128,
    peer_name: String,
    target: String,
    reason: String,
) -> (r: FleetDnsChangePlan)
    ensures
        r@ == plan_of(value@, operation_id, peer_id, peer_name@, target@, reason@),
{
    FleetDnsChangePlan {
        operation_id,
        failover_id: value.id,
        failover_name: value.name.clone(),
        hostname: value.hostname.clone(),
        record_type: value.record_type,
        zone_id: value.zone_id.clone(),
        record_id: value.record_id.clone(),
        token_env: value.token_env.clone(),
        ttl: value.ttl,
        proxied: value.proxied,
        peer_id,
        peer_name,
        target,
        reason,
    }
}

/// What planning does to one failover: its new state, the change to carry out,
/// and the change that was given up, with whether that counts as a failure.
pub struct PlanStep {
    pub failover: FleetDnsFailoverModel,
    pub plan: Option<FleetDnsChangePlanModel>,
    pub given_up: Option<FleetDnsSwitchEventModel>,
    pub failed: bool,
}

/// A change is pending in full, in part or not at all.
pub enum Pending {
    Absent,
    Partial,
    Complete { operation_id: u128, peer_id: u128, target: Seq<char>, reason: Seq<char> },
}

pub open spec fn pending_of(f: FleetDnsFailoverModel) -> Pending {
    match (f.pending_operation_id, f.pending_peer_id, f.pending_target, f.pending_reason) {
        (Some(operation_id), Some(peer_id), Some(target), Some(reason)) => Pending::Complete {
            operation_id,
            peer_id,
            target,
            reason,
        },
        (None, None, None, None) => Pending::Absent,
        _ => Pending::Partial,
    }
}

/// A failover with no pending change reserves one where it is due: the time of
/// the next change has come, the current peer is not held, and the preferred
/// candidate is not served already.
pub open spec fn reserve(
    f: FleetDnsFailoverModel,
    peers: Seq<FleetPeerModel>,
    snapshots: Seq<FleetHealthSnapshotModel>,
    now: u64,
    operation_id: u128,
) -> (FleetDnsFailoverModel, Option<FleetDnsChangePlanModel>) {
    if now < f.next_change_not_before_unix_seconds || holds_current(f, peers, snapshots, now) {
        (f, None)
    } else {
        match best_candidate(candidates_of(f.record_type, f.targets, peers, snapshots, now)) {
            None => (f, None),
            Some(candidate) => if f.current_peer_id == Some(candidate.peer_id) && f.current_target
                == Some(candidate.target) && !f.reconcile_required {
                (f, None)
            } else {
                let reason = reason_for(f, peers, snapshots, candidate);
                (
                    FleetDnsFailoverModel {
                        pending_operation_id: Some(operation_id),
                        pending_peer_id: Some(candidate.peer_id),
                        pending_target: Some(candidate.target),
                        pending_reason: Some(reason),
                        pending_started_unix_seconds: Some(now),
                        pending_lease_until_unix_seconds: Some(
                            sat_add(now, DNS_OPERATION_LEASE_SECONDS as nat),
                        ),
                        updated_unix_seconds: now,
                        ..f
                    },
                    Some(
                        plan_of(
                            f,
                            operation_id,
                            candidate.peer_id,
                            candidate.peer_name,
                            candidate.target,
                            reason,
                        ),
                    ),
                )
            },
        }
    }
}

/// A failover whose pending change was given up.
pub open spec fn given_up(f: FleetDnsFailoverModel, error: Seq<char>, now: u64) -> FleetDnsFailoverModel {
    FleetDnsFailoverModel {
        last_error_summary: Some(error),
        updated_unix_seconds: now,
        ..without_pending(f)
    }
}

/// What planning does to a failover that is enabled and not frozen.
///
/// A pending change under lease stays as it is. One whose lease has run out is
/// handed out again while its peer is still a candidate, and is given up
/// otherwise. One that is incomplete is dropped. Then a new change may be
/// reserved.
pub open spec fn plan_step(
    f: FleetDnsFailoverModel,
    peers: Seq<FleetPeerModel>,
    snapshots: Seq<FleetHealthSnapshotModel>,
    now: u64,
    fresh: u128,
) -> PlanStep {
    let candidates = candidates_of(f.record_type, f.targets, peers, snapshots, now);
    match pending_of(f) {
        Pending::Absent => {
            let (failover, plan) = reserve(f, peers, snapshots, now, fresh);
            PlanStep { failover, plan, given_up: None, failed: false }
        },
        Pending::Partial => {
            let dropped = given_up(f, "incomplete pending DNS operation was cleared"@, now);
            let (failover, plan) = reserve(dropped, peers, snapshots, now, fresh);
            PlanStep { failover, plan, given_up: None, failed: true }
        },
        Pending::Complete { operation_id, peer_id, target, reason } => {
            if f.pending_lease_until_unix_seconds is Some
                && f.pending_lease_until_unix_seconds->0 > now {
                PlanStep { failover: f, plan: None, given_up: None, failed: false }
            } else if is_candidate(candidates, peer_id, target) {
                let failover = FleetDnsFailoverModel {
                    pending_lease_until_unix_seconds: Some(
                        sat_add(now, DNS_OPERATION_LEASE_SECONDS as nat),
                    ),
                    updated_unix_seconds: now,
                    ..f
                };
                let name = find_peer(peers, peer_id)->0.name;
                PlanStep {
                    failover,
                    plan: Some(plan_of(f, operation_id, peer_id, name, target, reason)),
                    given_up: None,
                    failed: false,
                }
            } else {
                let error = "pending DNS target no longer satisfies health and cooldown"@;
                let (failover, plan) = reserve(
                    given_up(f, error, now),
                    peers,
                    snapshots,
                    now,
                    fresh,
                );
                PlanStep {
                    failover,
                    plan,
                    given_up: Some(
                        FleetDnsSwitchEventModel {
                            operation_id,
                            failover_id: f.id,
                            peer_id,
                            target,
                            reason,
                            applied: false,
                            error_summary: Some(error),
                            completed_unix_seconds: now,
                        },
                    ),
                    failed: true,
                }
            }
        },
    }
}

/// What planning did to one failover.
pub struct PlanOutcome {
    pub failover: FleetDnsFailover,
    pub plan: Option<FleetDnsChangePlan>,
    pub given_up: Option<FleetDnsSwitchEvent>,
    pub failed: bool,
}

impl View for PlanOutcome {
    type V = PlanStep;

    open spec fn view(&self) -> PlanStep {
        PlanStep {
            failover: self.failover@,
            plan: match self.plan {
                Some(x) => Some(x@),
                None => None,
            },
            given_up: match self.given_up {
                Some(x) => Some(x@),
                None => None,
            },
            failed: self.failed,
        }
    }
}

proof fn lemma_candidate_peer(
    t: FleetDnsRecordType,
    targets: Seq<FleetDnsPeerTargetModel>,
    peers: Seq<FleetPeerModel>,
    snapshots: Seq<FleetHealthSnapshotModel>,
    now: u64,
    i: int,
)
    requires
        0 <= i < candidates_of(t, targets, peers, snapshots, now).len(),
    ensures
        ({
            let c = candidates_of(t, targets, peers, snapshots, now)[i];
            &&& find_peer(peers, c.peer_id) is Some
            &&& find_peer(peers, c.peer_id)->0.name == c.peer_name
            &&& find_peer(peers, c.peer_id)->0.enabled
            &&& find_snapshot(snapshots, c.peer_id) is Some
            &&& find_snapshot(snapshots, c.peer_id)->0.health.dns_eligible(true, now)
            &&& exists|k: int|
                0 <= k < targets.len() && (#[trigger] targets[k]).peer_id == c.peer_id
                    && targets[k].value == c.target
            &&& target_value_error(t, c.target) is None
        }),
    decreases targets.len(),
{
    let rest = candidates_of(t, targets.drop_last(), peers, snapshots, now);
    if i < rest.len() {
        lemma_candidate_peer(t, targets.drop_last(), peers, snapshots, now, i);
        let c = rest[i];
        let k = choose|k: int|
            0 <= k < targets.drop_last().len() && (#[trigger] targets.drop_last()[k]).peer_id
                == c.peer_id && targets.drop_last()[k].value == c.target;
        assert(targets[k].peer_id == c.peer_id && targets[k].value == c.target);
    } else {
        let last = targets.last();
        lemma_first_id(peer_ids(peers), last.peer_id);
        assert(find_peer(peers, last.peer_id)->0.id == last.peer_id);
        assert(targets[targets.len() - 1] == last);
    }
}

fn reserve_change(
    value: FleetDnsFailover,
    peers: &Vec<FleetPeer>,
    snapshots: &Vec<FleetHealthSnapshot>,
    now: u64,
    operation_id: u128,
) -> (r: (FleetDnsFailover, Option<FleetDnsChangePlan>))
    ensures
        ({
            let (failover, plan) = reserve(
                value@,
                peer_models(peers@),
                snapshot_models(snapshots@),
                now,
                operation_id,
            );
            r.0@ == failover && match r.1 {
                Some(x) => plan == Some(x@),
                None => plan is None,
            }
        }),
{
    if now < value.next_change_not_before_unix_seconds || hold_current(&value, peers, snapshots, now) {
        return (value, None);
    }
    let list = candidates(&value, peers, snapshots, now);
    let best: usize = match best_position(&list) {
        Some(best) => best,
        None => {
            return (value, None);
        },
    };
    let candidate = &list[best];
    let served = match value.current_peer_id {
        Some(id) => id == candidate.peer_id,
        None => false,
    };
    if served && optional_is(&value.current_target, candidate.target.as_str())
        && !value.reconcile_required {
        return (value, None);
    }
    let reason = switch_reason(&value, peers, snapshots, candidate);
    let plan = change_plan(
        &value,
        operation_id,
        candidate.peer_id,
        candidate.peer_name.clone(),
        candidate.target.clone(),
        reason.to_owned(),
    );
    let mut reserved = value;
    reserved.pending_operation_id = Some(operation_id);
    reserved.pending_peer_id = Some(candidate.peer_id);
    reserved.pending_target = Some(candidate.target.clone());
    reserved.pending_reason = Some(reason.to_owned());
    reserved.pending_started_unix_seconds = Some(now);
    reserved.pending_lease_until_unix_seconds = Some(
        now.saturating_add(DNS_OPERATION_LEASE_SECONDS),
    );
    reserved.updated_unix_seconds = now;
    (reserved, Some(plan))
}

fn give_up(value: FleetDnsFailover, error: &str, now: u64) -> (r: FleetDnsFailover)
    ensures
        r@ == given_up(value@, error@, now),
{
    let mut dropped = value;
    clear_pending(&mut dropped);
    dropped.last_error_summary = Some(error.to_owned());
    dropped.updated_unix_seconds = now;
    dropped
}

fn renew_lease(value: FleetDnsFailover, now: u64) -> (r: FleetDnsFailover)
    ensures
        r@ == (FleetDnsFailoverModel {
            pending_lease_until_unix_seconds: Some(
                sat_add(now, DNS_OPERATION_LEASE_SECONDS as nat),
            ),
            updated_unix_seconds: now,
            ..value@
        }),
{
    let mut failover = value;
    failover.pending_lease_until_unix_seconds = Some(
        now.saturating_add(DNS_OPERATION_LEASE_SECONDS),
    );
    failover.updated_unix_seconds = now;
    failover
}

fn plan_complete(
    value: FleetDnsFailover,
    peers: &Vec<FleetPeer>,
    snapshots: &Vec<FleetHealthSnapshot>,
    now: u64,
    fresh: u128,
    operation_id: u128,
    peer_id: u128,
    target: String,
    reason: String,
) -> (r: PlanOutcome)
    requires
        pending_of(value@) == (Pending::Complete {
            operation_id,
            peer_id,
            target: target@,
            reason: reason@,
        }),
    ensures
        r@ == plan_step(value@, peer_models(peers@), snapshot_models(snapshots@), now, fresh),
{
    let ghost f = value@;
    let ghost ps = peer_models(peers@);
    let ghost hs = snapshot_models(snapshots@);
    let leased = match value.pending_lease_until_unix_seconds {
        Some(lease) => lease > now,
        None => false,
    };
    if leased {
        return PlanOutcome { failover: value, plan: None, given_up: None, failed: false };
    }
    let list = candidates(&value, peers, snapshots, now);
    if let Some(i) = has_candidate(&list, peer_id, target.as_str()) {
        proof {
            lemma_candidate_peer(f.record_type, f.targets, ps, hs, now, i as int);
            assert(candidate_models(list@)[i as int] == list@[i as int]@);
        }
        let plan = change_plan(
            &value,
            operation_id,
            peer_id,
            list[i].peer_name.clone(),
            target,
            reason,
        );
        let failover = renew_lease(value, now);
        return PlanOutcome { failover, plan: Some(plan), given_up: None, failed: false };
    }
    let error = "pending DNS target no longer satisfies health and cooldown";
    let event = FleetDnsSwitchEvent {
        operation_id,
        failover_id: value.id,
        peer_id,
        target,
        reason,
        applied: false,
        error_summary: Some(error.to_owned()),
        completed_unix_seconds: now,
    };
    let dropped = give_up(value, error, now);
    let (failover, plan) = reserve_change(dropped, peers, snapshots, now, fresh);
    PlanOutcome { failover, plan, given_up: Some(event), failed: true }
}

/// Plans for one failover that is enabled and not frozen.
pub fn plan_failover(
    value: FleetDnsFailover,
    peers: &Vec<FleetPeer>,
    snapshots: &Vec<FleetHealthSnapshot>,
    now: u64,
    fresh: u128,
) -> (r: PlanOutcome)
    ensures
        r@ == plan_step(value@, peer_models(peers@), snapshot_models(snapshots@), now, fresh),
{
    let ghost f = value@;
    let any = value.pending_operation_id.is_some() || value.pending_peer_id.is_some()
        || value.pending_target.is_some() || value.pending_reason.is_some();
    if !any {
        assert(pending_of(f) is Absent);
        let (failover, plan) = reserve_change(value, peers, snapshots, now, fresh);
        return PlanOutcome { failover, plan, given_up: None, failed: false };
    }
    let target = copy_optional(&value.pending_target);
    let reason = copy_optional(&value.pending_reason);
    match (value.pending_operation_id, value.pending_peer_id, target, reason) {
        (Some(operation_id), Some(peer_id), Some(target), Some(reason)) => plan_complete(
            value,
            peers,
            snapshots,
            now,
            fresh,
            operation_id,
            peer_id,
            target,
            reason,
        ),
        _ => {
            assert(pending_of(f) is Partial);
            let dropped = give_up(value, "incomplete pending DNS operation was cleared", now);
            let (failover, plan) = reserve_change(dropped, peers, snapshots, now, fresh);
            PlanOutcome { failover, plan, given_up: None, failed: true }
        },
    }
}

// ---------------------------------------------------------------------------
// Laws
// ---------------------------------------------------------------------------

proof fn lemma_best_candidate(s: Seq<DnsCandidateModel>)
    ensures
        best_candidate(s) is None <==> s.len() == 0,
        best_candidate(s) matches Some(best) ==> s.contains(best),
        best_candidate(s) matches Some(best) ==> forall|i: int|
            0 <= i < s.len() ==> !preferred_over(#[trigger] s[i], best),
    decreases s.len(),
{
    if s.len() > 0 {
        let t = s.drop_last();
        lemma_best_candidate(t);
        let best = best_candidate(s)->0;
        if best_candidate(t) is Some {
            let b = best_candidate(t)->0;
            assert(t.contains(b));
            let k = choose|k: int| 0 <= k < t.len() && t[k] == b;
            assert(s[k] == b);
            assert forall|i: int| 0 <= i < s.len() implies !preferred_over(#[trigger] s[i], best) by {
                if i < t.len() {
                    assert(s[i] == t[i]);
                    assert(!preferred_over(t[i], b));
                    if preferred_over(s.last(), b) && preferred_over(s[i], s.last()) {
                        lemma_preferred_transitive(s[i], s.last(), b);
                    }
                } else if preferred_over(s.last(), b) {
                    crate::text::lemma_lex_total(s.last().peer_name, s.last().peer_name);
                }
            }
        } else {
            crate::text::lemma_lex_total(s.last().peer_name, s.last().peer_name);
        }
        assert(s.contains(s[s.len() - 1]));
    }
}

proof fn lemma_preferred_transitive(
    a: DnsCandidateModel,
    b: DnsCandidateModel,
    c: DnsCandidateModel,
)
    requires
        preferred_over(a, b),
        preferred_over(b, c),
    ensures
        preferred_over(a, c),
{
    if a.priority == b.priority && b.priority == c.priority && a.weight == b.weight && b.weight
        == c.weight {
        crate::text::lemma_lex_transitive(a.peer_name, b.peer_name, c.peer_name);
    }
}

/// A change is only ever planned towards a peer that is enabled, healthy and
/// past its cooldown, with a valid content that is configured for it.
pub proof fn law_changes_go_to_eligible_peers(
    f: FleetDnsFailoverModel,
    peers: Seq<FleetPeerModel>,
    snapshots: Seq<FleetHealthSnapshotModel>,
    now: u64,
    fresh: u128,
)
    requires
        plan_step(f, peers, snapshots, now, fresh).plan is Some,
    ensures
        ({
            let plan = plan_step(f, peers, snapshots, now, fresh).plan->0;
            &&& find_peer(peers, plan.peer_id) is Some
            &&& find_peer(peers, plan.peer_id)->0.enabled
            &&& find_peer(peers, plan.peer_id)->0.name == plan.peer_name
            &&& find_snapshot(snapshots, plan.peer_id) is Some
            &&& find_snapshot(snapshots, plan.peer_id)->0.health.dns_eligible(true, now)
            &&& target_value_error(f.record_type, plan.target) is None
            &&& exists|k: int|
                0 <= k < f.targets.len() && (#[trigger] f.targets[k]).peer_id == plan.peer_id
                    && f.targets[k].value == plan.target
        }),
{
    let candidates = candidates_of(f.record_type, f.targets, peers, snapshots, now);
    let plan = plan_step(f, peers, snapshots, now, fresh).plan->0;
    lemma_best_candidate(candidates);
    if candidates.len() > 0 {
        let best = best_candidate(candidates)->0;
        let i = choose|i: int| 0 <= i < candidates.len() && candidates[i] == best;
        lemma_candidate_peer(f.record_type, f.targets, peers, snapshots, now, i);
        assert(candidates[i].peer_id == best.peer_id && candidates[i].target == best.target);
    }
    if is_candidate(candidates, plan.peer_id, plan.target) {
        let i = choose|i: int|
            0 <= i < candidates.len() && (#[trigger] candidates[i]).peer_id == plan.peer_id
                && candidates[i].target == plan.target;
        lemma_candidate_peer(f.record_type, f.targets, peers, snapshots, now, i);
    }
}

/// A new change goes to the preferred candidate: no candidate has a lower
/// priority, or at the same priority a higher weight, or at the same weight an
/// earlier name.
pub proof fn law_a_new_change_goes_to_the_preferred_candidate(
    f: FleetDnsFailoverModel,
    peers: Seq<FleetPeerModel>,
    snapshots: Seq<FleetHealthSnapshotModel>,
    now: u64,
    fresh: u128,
    i: int,
)
    requires
        reserve(f, peers, snapshots, now, fresh).1 is Some,
        0 <= i < candidates_of(f.record_type, f.targets, peers, snapshots, now).len(),
    ensures
        ({
            let s = candidates_of(f.record_type, f.targets, peers, snapshots, now);
            let plan = reserve(f, peers, snapshots, now, fresh).1->0;
            exists|k: int|
                0 <= k < s.len() && (#[trigger] s[k]).peer_id == plan.peer_id && s[k].target
                    == plan.target && !preferred_over(s[i], s[k])
        }),
{
    let s = candidates_of(f.record_type, f.targets, peers, snapshots, now);
    lemma_best_candidate(s);
    let best = best_candidate(s)->0;
    let k = choose|k: int| 0 <= k < s.len() && s[k] == best;
    assert(s[k].peer_id == best.peer_id);
}

/// While the current peer is held, nothing new is planned.
pub proof fn law_a_held_peer_is_not_left(
    f: FleetDnsFailoverModel,
    peers: Seq<FleetPeerModel>,
    snapshots: Seq<FleetHealthSnapshotModel>,
    now: u64,
    fresh: u128,
)
    requires
        pending_of(f) is Absent,
        holds_current(f, peers, snapshots, now) || now < f.next_change_not_before_unix_seconds,
    ensures
        plan_step(f, peers, snapshots, now, fresh) == (PlanStep {
            failover: f,
            plan: None,
            given_up: None,
            failed: false,
        }),
{
}

/// A change that was just reserved is not handed out again before its lease has
/// run out.
pub proof fn law_a_leased_change_is_not_planned_again(
    f: FleetDnsFailoverModel,
    peers: Seq<FleetPeerModel>,
    snapshots: Seq<FleetHealthSnapshotModel>,
    now: u64,
    fresh: u128,
    peers_later: Seq<FleetPeerModel>,
    snapshots_later: Seq<FleetHealthSnapshotModel>,
    later: u64,
    fresh_later: u128,
)
    requires
        plan_step(f, peers, snapshots, now, fresh).plan is Some,
        later < sat_add(now, DNS_OPERATION_LEASE_SECONDS as nat),
    ensures
        ({
            let after = plan_step(f, peers, snapshots, now, fresh).failover;
            plan_step(after, peers_later, snapshots_later, later, fresh_later) == (PlanStep {
                failover: after,
                plan: None,
                given_up: None,
                failed: false,
            })
        }),
{
}

/// Planning only ever touches the pending change, the last error and the time
/// of the last update of a failover.
pub proof fn law_planning_keeps_the_configuration(
    f: FleetDnsFailoverModel,
    peers: Seq<FleetPeerModel>,
    snapshots: Seq<FleetHealthSnapshotModel>,
    now: u64,
    fresh: u128,
)
    ensures
        ({
            let after = plan_step(f, peers, snapshots, now, fresh).failover;
            without_pending(after) == FleetDnsFailoverModel {
                last_error_summary: after.last_error_summary,
                updated_unix_seconds: after.updated_unix_seconds,
                ..without_pending(f)
            }
        }),
{
}

/// Whether targets stand in the order of their peers.
pub open spec fn in_peer_order(s: Seq<FleetDnsPeerTargetModel>) -> bool {
    forall|i: int, j: int|
        0 <= i < j < s.len() ==> (#[trigger] s[i]).peer_id <= (#[trigger] s[j]).peer_id
}

proof fn lemma_target_position(s: Seq<FleetDnsPeerTargetModel>, peer_id: u128)
    requires
        in_peer_order(s),
    ensures
        0 <= target_position(s, peer_id) <= s.len(),
        forall|i: int| 0 <= i < target_position(s, peer_id) ==> (#[trigger] s[i]).peer_id <= peer_id,
        forall|i: int|
            target_position(s, peer_id) <= i < s.len() ==> peer_id < (#[trigger] s[i]).peer_id,
    decreases s.len(),
{
    if s.len() == 0 {
    } else if peer_id < s[0].peer_id {
        assert forall|i: int| 0 <= i < s.len() implies peer_id < (#[trigger] s[i]).peer_id by {
            if i > 0 {
                assert(s[0].peer_id <= s[i].peer_id);
            }
        }
    } else {
        let t = s.drop_first();
        assert(forall|i: int| 0 <= i < t.len() ==> t[i] == s[i + 1]);
        assert(in_peer_order(t));
        lemma_target_position(t, peer_id);
        assert forall|i: int| 0 <= i < target_position(s, peer_id) implies (#[trigger] s[i]).peer_id
            <= peer_id by {
            if i > 0 {
                assert(t[i - 1].peer_id <= peer_id);
            }
        }
        assert forall|i: int| target_position(s, peer_id) <= i < s.len() implies peer_id < (
        #[trigger] s[i]).peer_id by {
            assert(peer_id < t[i - 1].peer_id);
        }
    }
}

/// Stored targets stand in the order of their peers, and are the given ones.
pub proof fn law_sorted_targets(s: Seq<FleetDnsPeerTargetModel>)
    ensures
        in_peer_order(sorted_targets(s)),
        sorted_targets(s).to_multiset() =~= s.to_multiset(),
    decreases s.len(),
{
    if s.len() > 0 {
        let rest = sorted_targets(s.drop_last());
        law_sorted_targets(s.drop_last());
        lemma_target_position(rest, s.last().peer_id);
        let at = target_position(rest, s.last().peer_id);
        let r = sorted_targets(s);
        assert forall|i: int, j: int| 0 <= i < j < r.len() implies (#[trigger] r[i]).peer_id <= (
        #[trigger] r[j]).peer_id by {
            let a = if i < at {
                i
            } else {
                i - 1
            };
            let b = if j < at {
                j
            } else {
                j - 1
            };
            if i != at {
                assert(r[i] == rest[a]);
            }
            if j != at {
                assert(r[j] == rest[b]);
            }
        }
        assert(r.remove(at) =~= rest);
        assert(r[at] == s.last());
        r.to_multiset_ensures();
        assert(r.contains(s.last()));
        assert(r.to_multiset() =~= rest.to_multiset().insert(s.last()));
        assert(s.drop_last().push(s.last()) =~= s);
        s.drop_last().to_multiset_ensures();
    }
}

/// A target that DNS may be directed to: its peer, the first one with its
/// identifier, is enabled, the first snapshot of that peer is healthy and past its
/// cooldown, and the content is valid.
pub open spec fn may_be_served(
    f: FleetDnsFailoverModel,
    peers: Seq<FleetPeerModel>,
    snapshots: Seq<FleetHealthSnapshotModel>,
    now: u64,
    k: int,
    p: int,
    h: int,
) -> bool {
    &&& 0 <= k < f.targets.len()
    &&& 0 <= p < peers.len()
    &&& 0 <= h < snapshots.len()
    &&& peers[p].id == f.targets[k].peer_id
    &&& forall|q: int| 0 <= q < p ==> (#[trigger] peers[q]).id != peers[p].id
    &&& snapshots[h].health.peer_id == f.targets[k].peer_id
    &&& forall|q: int| 0 <= q < h ==> (#[trigger] snapshots[q]).health.peer_id != peers[p].id
    &&& peers[p].enabled
    &&& snapshots[h].health.state == FleetHealthState::Healthy
    &&& snapshots[h].health.cooldown_until_unix_seconds <= now
    &&& target_value_error(f.record_type, f.targets[k].value) is None
}

proof fn lemma_served_target_is_candidate(
    t: FleetDnsRecordType,
    targets: Seq<FleetDnsPeerTargetModel>,
    peers: Seq<FleetPeerModel>,
    snapshots: Seq<FleetHealthSnapshotModel>,
    now: u64,
    k: int,
) -> (i: int)
    requires
        0 <= k < targets.len(),
        candidate_of(t, targets[k], peers, snapshots, now) is Some,
    ensures
        0 <= i < candidates_of(t, targets, peers, snapshots, now).len(),
        candidates_of(t, targets, peers, snapshots, now)[i] == candidate_of(
            t,
            targets[k],
            peers,
            snapshots,
            now,
        )->0,
    decreases targets.len(),
{
    let s = candidates_of(t, targets, peers, snapshots, now);
    if k == targets.len() - 1 {
        s.len() - 1
    } else {
        let rest = candidates_of(t, targets.drop_last(), peers, snapshots, now);
        let i = lemma_served_target_is_candidate(
            t,
            targets.drop_last(),
            peers,
            snapshots,
            now,
            k,
        );
        assert(s[i] == rest[i]);
        i
    }
}

proof fn lemma_first_peer(peers: Seq<FleetPeerModel>, p: int)
    requires
        0 <= p < peers.len(),
        forall|q: int| 0 <= q < p ==> (#[trigger] peers[q]).id != peers[p].id,
    ensures
        find_peer(peers, peers[p].id) == Some(peers[p]),
{
    let ids = peer_ids(peers);
    assert forall|q: int| 0 <= q < p implies ids[q] != peers[p].id by {
        assert(ids[q] == peers[q].id);
    }
    lemma_first_id_unique(ids, peers[p].id, p);
}

proof fn lemma_first_snapshot(snapshots: Seq<FleetHealthSnapshotModel>, h: int, id: u128)
    requires
        0 <= h < snapshots.len(),
        snapshots[h].health.peer_id == id,
        forall|q: int| 0 <= q < h ==> (#[trigger] snapshots[q]).health.peer_id != id,
    ensures
        find_snapshot(snapshots, id) == Some(snapshots[h]),
{
    let ids = snapshot_ids(snapshots);
    assert forall|q: int| 0 <= q < h implies ids[q] != id by {
        assert(ids[q] == snapshots[q].health.peer_id);
    }
    lemma_first_id_unique(ids, id, h);
}

proof fn lemma_found_peer(peers: Seq<FleetPeerModel>, id: u128) -> (q: int)
    requires
        find_peer(peers, id) is Some,
    ensures
        0 <= q < peers.len(),
        peers[q] == find_peer(peers, id)->0,
        peers[q].id == id,
        forall|j: int| 0 <= j < q ==> (#[trigger] peers[j]).id != id,
{
    let ids = peer_ids(peers);
    lemma_first_id(ids, id);
    let q = first_id(ids, id);
    assert forall|j: int| 0 <= j < q implies (#[trigger] peers[j]).id != id by {
        assert(ids[j] == peers[j].id);
    }
    q
}

proof fn lemma_preference_of_best(
    f: FleetDnsFailoverModel,
    peers: Seq<FleetPeerModel>,
    snapshots: Seq<FleetHealthSnapshotModel>,
    now: u64,
    k: int,
    p: int,
    h: int,
) -> (q: int)
    requires
        may_be_served(f, peers, snapshots, now, k, p, h),
    ensures
        ({
            let s = candidates_of(f.record_type, f.targets, peers, snapshots, now);
            &&& best_candidate(s) is Some
            &&& 0 <= q < peers.len()
            &&& peers[q].id == best_candidate(s)->0.peer_id
            &&& peers[q].name == best_candidate(s)->0.peer_name
            &&& peers[q].priority <= peers[p].priority
            &&& peers[q].priority == peers[p].priority ==> peers[q].weight >= peers[p].weight
            &&& peers[q].priority == peers[p].priority && peers[q].weight == peers[p].weight
                ==> !lex_less(peers[p].name, peers[q].name)
        }),
{
    let s = candidates_of(f.record_type, f.targets, peers, snapshots, now);
    lemma_first_peer(peers, p);
    lemma_first_snapshot(snapshots, h, peers[p].id);
    let i = lemma_served_target_is_candidate(f.record_type, f.targets, peers, snapshots, now, k);
    lemma_best_candidate(s);
    let best = best_candidate(s)->0;
    assert(!preferred_over(s[i], best));
    let b = choose|b: int| 0 <= b < s.len() && s[b] == best;
    lemma_candidate_is_its_peer(f.record_type, f.targets, peers, snapshots, now, b);
    lemma_found_peer(peers, best.peer_id)
}

proof fn lemma_candidate_is_its_peer(
    t: FleetDnsRecordType,
    targets: Seq<FleetDnsPeerTargetModel>,
    peers: Seq<FleetPeerModel>,
    snapshots: Seq<FleetHealthSnapshotModel>,
    now: u64,
    i: int,
)
    requires
        0 <= i < candidates_of(t, targets, peers, snapshots, now).len(),
    ensures
        ({
            let c = candidates_of(t, targets, peers, snapshots, now)[i];
            &&& find_peer(peers, c.peer_id) is Some
            &&& find_peer(peers, c.peer_id)->0.priority == c.priority
            &&& find_peer(peers, c.peer_id)->0.weight == c.weight
            &&& find_peer(peers, c.peer_id)->0.name == c.peer_name
        }),
    decreases targets.len(),
{
    let rest = candidates_of(t, targets.drop_last(), peers, snapshots, now);
    if i < rest.len() {
        lemma_candidate_is_its_peer(t, targets.drop_last(), peers, snapshots, now, i);
    } else {
        lemma_first_id(peer_ids(peers), targets.last().peer_id);
        assert(find_peer(peers, targets.last().peer_id)->0.id == targets.last().peer_id);
    }
}

/// A new change goes to the peer of the lowest priority among those that may be
/// served, of equal priority to the one of the highest weight, and of equal weight
/// to the first by name.
pub proof fn law_new_changes_go_by_priority_then_weight(
    f: FleetDnsFailoverModel,
    peers: Seq<FleetPeerModel>,
    snapshots: Seq<FleetHealthSnapshotModel>,
    now: u64,
    fresh: u128,
    k: int,
    p: int,
    h: int,
)
    requires
        may_be_served(f, peers, snapshots, now, k, p, h),
        plan_step(f, peers, snapshots, now, fresh).plan is Some,
        f.pending_operation_id is None || f.pending_peer_id is None || f.pending_target is None
            || f.pending_reason is None,
    ensures
        exists|q: int|
            0 <= q < peers.len() && (#[trigger] peers[q]).id == plan_step(
                f,
                peers,
                snapshots,
                now,
                fresh,
            ).plan->0.peer_id && peers[q].name == plan_step(
                f,
                peers,
                snapshots,
                now,
                fresh,
            ).plan->0.peer_name && peers[q].priority <= peers[p].priority && (peers[q].priority
                == peers[p].priority ==> peers[q].weight >= peers[p].weight) && (peers[q].priority
                == peers[p].priority && peers[q].weight == peers[p].weight ==> !lex_less(
                peers[p].name,
                peers[q].name,
            )),
{
    let q = lemma_preference_of_best(f, peers, snapshots, now, k, p, h);
    assert(peers[q].id == plan_step(f, peers, snapshots, now, fresh).plan->0.peer_id);
}

/// The failover does not hold on to its current peer: it has none, or the peer is
/// gone, disabled or no longer configured, or it is neither degraded nor healthy
/// within its cooldown.
pub open spec fn lets_go(
    f: FleetDnsFailoverModel,
    peers: Seq<FleetPeerModel>,
    snapshots: Seq<FleetHealthSnapshotModel>,
    now: u64,
) -> bool {
    match f.current_peer_id {
        None => true,
        Some(id) => {
            ||| forall|q: int| 0 <= q < peers.len() && (#[trigger] peers[q]).id == id ==> !peers[q].enabled
            ||| forall|k: int|
                0 <= k < f.targets.len() && (#[trigger] f.targets[k]).peer_id == id
                    ==> f.current_target != Some(f.targets[k].value)
            ||| forall|q: int|
                0 <= q < snapshots.len() && (#[trigger] snapshots[q]).health.peer_id == id
                    ==> snapshots[q].health.state != FleetHealthState::Degraded
                    && !(snapshots[q].health.state == FleetHealthState::Healthy && now
                    < snapshots[q].health.cooldown_until_unix_seconds)
        },
    }
}

/// Where a peer may be served, the time of the next change has come and the
/// current peer is let go, a change is planned, unless the record already points
/// to a peer at least as much preferred and nothing has to be written again.
pub proof fn law_due_changes_are_planned(
    f: FleetDnsFailoverModel,
    peers: Seq<FleetPeerModel>,
    snapshots: Seq<FleetHealthSnapshotModel>,
    now: u64,
    fresh: u128,
    k: int,
    p: int,
    h: int,
)
    requires
        may_be_served(f, peers, snapshots, now, k, p, h),
        f.next_change_not_before_unix_seconds <= now,
        f.pending_operation_id is None,
        f.pending_peer_id is None,
        f.pending_target is None,
        f.pending_reason is None,
        lets_go(f, peers, snapshots, now),
        plan_step(f, peers, snapshots, now, fresh).plan is None,
    ensures
        !f.reconcile_required,
        f.current_target is Some,
        exists|q: int|
            0 <= q < peers.len() && f.current_peer_id == Some((#[trigger] peers[q]).id)
                && peers[q].priority <= peers[p].priority && (peers[q].priority
                == peers[p].priority ==> peers[q].weight >= peers[p].weight),
        plan_step(f, peers, snapshots, now, fresh).failover == f,
{
    let q = lemma_preference_of_best(f, peers, snapshots, now, k, p, h);
    if f.current_peer_id is Some {
        let id = f.current_peer_id->0;
        if find_peer(peers, id) is Some {
            let a = lemma_found_peer(peers, id);
        }
        if find_snapshot(snapshots, id) is Some {
            let ids = snapshot_ids(snapshots);
            lemma_first_id(ids, id);
            assert(ids[first_id(ids, id)] == snapshots[first_id(ids, id)].health.peer_id);
        }
        assert(!holds_current(f, peers, snapshots, now));
    }
    assert(peers[q].id == peers[q].id);
}

/// While the current peer is enabled, still configured and degraded, or healthy
/// within its cooldown, the record stays where it is. Nothing new is planned
/// before the time of the next change either.
pub proof fn law_current_peers_are_kept_through_degradation(
    f: FleetDnsFailoverModel,
    peers: Seq<FleetPeerModel>,
    snapshots: Seq<FleetHealthSnapshotModel>,
    now: u64,
    fresh: u128,
    k: int,
    p: int,
    h: int,
)
    requires
        f.pending_operation_id is None,
        f.pending_peer_id is None,
        f.pending_target is None,
        f.pending_reason is None,
        now < f.next_change_not_before_unix_seconds || ({
            &&& 0 <= k < f.targets.len()
            &&& 0 <= p < peers.len()
            &&& 0 <= h < snapshots.len()
            &&& f.current_peer_id == Some(f.targets[k].peer_id)
            &&& f.current_target == Some(f.targets[k].value)
            &&& peers[p].id == f.targets[k].peer_id
            &&& forall|q: int| 0 <= q < p ==> (#[trigger] peers[q]).id != peers[p].id
            &&& peers[p].enabled
            &&& snapshots[h].health.peer_id == peers[p].id
            &&& forall|q: int| 0 <= q < h ==> (#[trigger] snapshots[q]).health.peer_id != peers[p].id
            &&& {
                ||| snapshots[h].health.state == FleetHealthState::Degraded
                ||| snapshots[h].health.state == FleetHealthState::Healthy && now
                    < snapshots[h].health.cooldown_until_unix_seconds
            }
        }),
    ensures
        plan_step(f, peers, snapshots, now, fresh).plan is None,
        plan_step(f, peers, snapshots, now, fresh).failover == f,
        plan_step(f, peers, snapshots, now, fresh).given_up is None,
        !plan_step(f, peers, snapshots, now, fresh).failed,
{
    if !(now < f.next_change_not_before_unix_seconds) {
        lemma_first_peer(peers, p);
        lemma_first_snapshot(snapshots, h, peers[p].id);
        assert(f.targets[k].peer_id == peers[p].id);
        assert(holds_current(f, peers, snapshots, now));
    }
}

/// A change is planned only towards a configured target that may be served, and
/// tells the provider exactly the record of the failover.
pub proof fn law_plans_tell_the_record(
    f: FleetDnsFailoverModel,
    peers: Seq<FleetPeerModel>,
    snapshots: Seq<FleetHealthSnapshotModel>,
    now: u64,
    fresh: u128,
)
    requires
        plan_step(f, peers, snapshots, now, fresh).plan is Some,
    ensures
        ({
            let step = plan_step(f, peers, snapshots, now, fresh);
            let plan = step.plan->0;
            let after = step.failover;
            &&& exists|k: int, p: int, h: int| #[trigger]
                may_be_served(f, peers, snapshots, now, k, p, h) && f.targets[k].peer_id
                    == plan.peer_id && f.targets[k].value == plan.target && peers[p].name
                    == plan.peer_name
            &&& plan.failover_id == f.id
            &&& plan.failover_name == f.name
            &&& plan.hostname == f.hostname
            &&& plan.record_type == f.record_type
            &&& plan.zone_id == f.zone_id
            &&& plan.record_id == f.record_id
            &&& plan.token_env == f.token_env
            &&& plan.ttl == f.ttl
            &&& plan.proxied == f.proxied
            &&& after.pending_operation_id == Some(plan.operation_id)
            &&& after.pending_peer_id == Some(plan.peer_id)
            &&& after.pending_target == Some(plan.target)
            &&& after.pending_reason == Some(plan.reason)
            &&& after.pending_lease_until_unix_seconds is Some
            &&& now + 30 <= u64::MAX ==> after.pending_lease_until_unix_seconds == Some(
                (now + 30) as u64,
            )
            &&& after.updated_unix_seconds == now
            &&& plan.operation_id == fresh || f.pending_operation_id == Some(plan.operation_id)
            &&& plan.operation_id == fresh && f.pending_operation_id != Some(fresh)
                ==> after.pending_started_unix_seconds == Some(now)
        }),
{
    law_changes_go_to_eligible_peers(f, peers, snapshots, now, fresh);
    let plan = plan_step(f, peers, snapshots, now, fresh).plan->0;
    let k = choose|k: int|
        0 <= k < f.targets.len() && (#[trigger] f.targets[k]).peer_id == plan.peer_id
            && f.targets[k].value == plan.target;
    let p = lemma_found_peer(peers, plan.peer_id);
    let ids = snapshot_ids(snapshots);
    lemma_first_id(ids, plan.peer_id);
    let h = first_id(ids, plan.peer_id);
    assert(ids[h] == snapshots[h].health.peer_id);
    assert forall|q: int| 0 <= q < h implies (#[trigger] snapshots[q]).health.peer_id
        != peers[p].id by {
        assert(ids[q] == snapshots[q].health.peer_id);
    }
    assert(may_be_served(f, peers, snapshots, now, k, p, h));
}

/// Planning touches nothing of a failover but its pending change, its last error
/// and the time of its last update.
pub proof fn law_planning_leaves_the_rest_alone(
    f: FleetDnsFailoverModel,
    peers: Seq<FleetPeerModel>,
    snapshots: Seq<FleetHealthSnapshotModel>,
    now: u64,
    fresh: u128,
)
    ensures
        ({
            let step = plan_step(f, peers, snapshots, now, fresh);
            let after = step.failover;
            &&& after == FleetDnsFailoverModel {
                pending_operation_id: after.pending_operation_id,
                pending_peer_id: after.pending_peer_id,
                pending_target: after.pending_target,
                pending_reason: after.pending_reason,
                pending_started_unix_seconds: after.pending_started_unix_seconds,
                pending_lease_until_unix_seconds: after.pending_lease_until_unix_seconds,
                last_error_summary: after.last_error_summary,
                updated_unix_seconds: after.updated_unix_seconds,
                ..f
            }
            &&& after.last_error_summary != f.last_error_summary ==> step.failed
            &&& after.updated_unix_seconds == f.updated_unix_seconds || after.updated_unix_seconds
                == now
            &&& step.plan is None && !step.failed ==> after == f
            &&& step.plan is None && step.failed ==> after.pending_operation_id is None
                && after.pending_peer_id is None && after.pending_target is None
                && after.pending_reason is None && after.pending_started_unix_seconds is None
                && after.pending_lease_until_unix_seconds is None && after.updated_unix_seconds
                == now && after.last_error_summary is Some
        }),
{
}

/// A complete pending change is left alone while its lease runs. Then it is handed
/// out again unchanged, as long as its target may be served; otherwise it is given
/// up, which is noted as a failure.
pub proof fn law_pending_changes_are_retried_or_given_up(
    f: FleetDnsFailoverModel,
    peers: Seq<FleetPeerModel>,
    snapshots: Seq<FleetHealthSnapshotModel>,
    now: u64,
    fresh: u128,
)
    requires
        f.pending_operation_id is Some,
        f.pending_peer_id is Some,
        f.pending_target is Some,
        f.pending_reason is Some,
    ensures
        ({
            let step = plan_step(f, peers, snapshots, now, fresh);
            let leased = f.pending_lease_until_unix_seconds is Some
                && f.pending_lease_until_unix_seconds->0 > now;
            let served = exists|k: int, p: int, h: int| #[trigger]
                may_be_served(f, peers, snapshots, now, k, p, h) && f.targets[k].peer_id
                    == f.pending_peer_id->0 && f.targets[k].value == f.pending_target->0;
            &&& leased ==> step.plan is None && step.given_up is None && !step.failed
                && step.failover == f
            &&& !leased && served ==> {
                &&& step.plan is Some
                &&& step.plan->0.operation_id == f.pending_operation_id->0
                &&& step.plan->0.peer_id == f.pending_peer_id->0
                &&& step.plan->0.target == f.pending_target->0
                &&& step.plan->0.reason == f.pending_reason->0
                &&& step.given_up is None
                &&& !step.failed
                &&& step.failover.pending_started_unix_seconds == f.pending_started_unix_seconds
                &&& step.failover.last_error_summary == f.last_error_summary
            }
            &&& !leased && !served ==> {
                &&& step.failed
                &&& step.given_up is Some
                &&& step.given_up->0.operation_id == f.pending_operation_id->0
                &&& step.given_up->0.failover_id == f.id
                &&& step.given_up->0.peer_id == f.pending_peer_id->0
                &&& step.given_up->0.target == f.pending_target->0
                &&& step.given_up->0.reason == f.pending_reason->0
                &&& !step.given_up->0.applied
                &&& step.given_up->0.error_summary == step.failover.last_error_summary
                &&& step.given_up->0.error_summary is Some
                &&& step.given_up->0.completed_unix_seconds == now
                &&& step.plan is Some ==> step.plan->0.operation_id == fresh
            }
        }),
{
    let s = candidates_of(f.record_type, f.targets, peers, snapshots, now);
    let id = f.pending_peer_id->0;
    let target = f.pending_target->0;
    if is_candidate(s, id, target) {
        let i = choose|i: int|
            0 <= i < s.len() && (#[trigger] s[i]).peer_id == id && s[i].target == target;
        lemma_candidate_peer(f.record_type, f.targets, peers, snapshots, now, i);
        let k = choose|k: int|
            0 <= k < f.targets.len() && (#[trigger] f.targets[k]).peer_id == id
                && f.targets[k].value == target;
        let p = lemma_found_peer(peers, id);
        let ids = snapshot_ids(snapshots);
        lemma_first_id(ids, id);
        let h = first_id(ids, id);
        assert(ids[h] == snapshots[h].health.peer_id);
        assert forall|q: int| 0 <= q < h implies (#[trigger] snapshots[q]).health.peer_id
            != peers[p].id by {
            assert(ids[q] == snapshots[q].health.peer_id);
        }
        assert(may_be_served(f, peers, snapshots, now, k, p, h));
    } else {
        assert forall|k: int, p: int, h: int| #[trigger]
            may_be_served(f, peers, snapshots, now, k, p, h) implies !(f.targets[k].peer_id == id
            && f.targets[k].value == target) by {
            lemma_first_peer(peers, p);
            lemma_first_snapshot(snapshots, h, peers[p].id);
            let i = lemma_served_target_is_candidate(
                f.record_type,
                f.targets,
                peers,
                snapshots,
                now,
                k,
            );
            assert(s[i].peer_id == f.targets[k].peer_id && s[i].target == f.targets[k].value);
        }
    }
}

/// A change that is pending in part is dropped and counts as a failure.
pub proof fn law_incomplete_changes_are_dropped(
    f: FleetDnsFailoverModel,
    peers: Seq<FleetPeerModel>,
    snapshots: Seq<FleetHealthSnapshotModel>,
    now: u64,
    fresh: u128,
)
    requires
        f.pending_operation_id is Some || f.pending_peer_id is Some || f.pending_target is Some
            || f.pending_reason is Some,
        f.pending_operation_id is None || f.pending_peer_id is None || f.pending_target is None
            || f.pending_reason is None,
    ensures
        ({
            let step = plan_step(f, peers, snapshots, now, fresh);
            &&& step.failed
            &&& step.given_up is None
            &&& step.failover.last_error_summary == Some(
                "incomplete pending DNS operation was cleared"@,
            )
            &&& step.plan is None ==> step.failover.pending_operation_id is None
                && step.failover.pending_peer_id is None && step.failover.pending_target is None
                && step.failover.pending_reason is None
            &&& step.plan is Some ==> step.plan->0.operation_id == fresh
        }),
{
}

/// The reason of a new change says what became of the current peer.
pub proof fn law_reasons_tell_what_became_of_the_current_peer(
    f: FleetDnsFailoverModel,
    peers: Seq<FleetPeerModel>,
    snapshots: Seq<FleetHealthSnapshotModel>,
    c: DnsCandidateModel,
)
    ensures
        ({
            let reason = reason_for(f, peers, snapshots, c);
            let id = f.current_peer_id->0;
            let moved = f.current_peer_id is Some && id != c.peer_id;
            let peer = find_peer(peers, id);
            let snapshot = find_snapshot(snapshots, id);
            let configured = exists|k: int|
                0 <= k < f.targets.len() && (#[trigger] f.targets[k]).peer_id == id
                    && f.current_target == Some(f.targets[k].value);
            let stays = moved && peer is Some && peer->0.enabled && configured;
            &&& f.current_peer_id is None ==> reason == "initial_activation"@
            &&& f.current_peer_id == Some(c.peer_id) && f.current_target == Some(c.target)
                && f.reconcile_required ==> reason == "configuration_updated"@
            &&& f.current_peer_id == Some(c.peer_id) && f.current_target != Some(c.target)
                ==> reason == "target_value_changed"@
            &&& moved && peer is None ==> reason == "current_peer_removed"@
            &&& moved && peer is Some && !peer->0.enabled ==> reason == "current_peer_disabled"@
            &&& moved && peer is Some && peer->0.enabled && !configured ==> reason
                == "current_target_removed"@
            &&& stays && snapshot is Some && snapshot->0.health.state
                == FleetHealthState::Unhealthy ==> reason == "current_peer_unhealthy"@
            &&& stays && snapshot is Some && snapshot->0.health.state
                == FleetHealthState::Recovering ==> reason == "current_peer_recovering"@
            &&& stays && snapshot is Some && snapshot->0.health.state
                == FleetHealthState::Unknown ==> reason == "current_peer_unknown"@
            &&& stays && snapshot is Some && snapshot->0.health.state
                == FleetHealthState::Degraded ==> reason == "current_peer_degraded"@
            &&& stays && (snapshot is None || snapshot->0.health.state
                == FleetHealthState::Healthy) ==> reason == "preferred_peer_recovered"@
        }),
{
}

proof fn lemma_targets_error(
    t: FleetDnsRecordType,
    s: Seq<FleetDnsPeerTargetModel>,
    peers: Seq<FleetPeerModel>,
    n: nat,
)
    requires
        n <= s.len(),
    ensures
        targets_error(t, s, peers, n) is None <==> forall|i: int|
            0 <= i < n ==> target_error(t, s, peers, i) is None,
    decreases n,
{
    if n > 0 {
        lemma_targets_error(t, s, peers, (n - 1) as nat);
        if targets_error(t, s, peers, n) is None {
            assert forall|i: int| 0 <= i < n implies target_error(t, s, peers, i) is None by {}
        } else if targets_error(t, s, peers, (n - 1) as nat) is None {
            assert(target_error(t, s, peers, n - 1) is Some);
        }
    }
}

/// A request is accepted exactly if its name has 1 to 80 characters, its host name
/// is valid, its identifiers have 32 hexadecimal digits, its variable is one for
/// tokens of the provider, its numbers are within bounds, and it has targets, each
/// valid and for a known peer, no two for the same one.
pub proof fn law_accepted_failovers_are_sound(
    request: UpsertFleetDnsFailoverModel,
    peers: Seq<FleetPeerModel>,
)
    ensures
        ({
            let targets = request.targets;
            checked_failover(request, peers) is Ok <==> {
                &&& 1 <= trim(request.name).len() <= 80
                &&& valid_host(lower(trim_end_char(trim(request.hostname), '.')))
                &&& provider_id(trim(request.zone_id))
                &&& provider_id(trim(request.record_id))
                &&& secret_env(trim(request.token_env))
                &&& request.ttl == 1 || 60 <= request.ttl <= 86400
                &&& 1 <= request.cooldown_seconds <= 86400
                &&& targets.len() > 0
                &&& forall|i: int|
                    0 <= i < targets.len() ==> find_peer(
                        peers,
                        (#[trigger] targets[i]).peer_id,
                    ) is Some && target_value_error(
                        request.record_type,
                        stored_target(request.record_type, targets[i]).value,
                    ) is None
                &&& forall|i: int, j: int|
                    0 <= i < j < targets.len() ==> (#[trigger] targets[i]).peer_id != (
                    #[trigger] targets[j]).peer_id
            }
        }),
{
    let targets = stored_targets(request.record_type, request.targets);
    let t = request.record_type;
    lemma_targets_error(t, targets, peers, targets.len());
    assert(forall|i: int| 0 <= i < targets.len() ==> targets[i] == stored_target(t, request.targets[i]));
    assert(targets.len() == request.targets.len());
    if targets_error(t, targets, peers, targets.len()) is None {
        assert forall|i: int| 0 <= i < request.targets.len() implies find_peer(
            peers,
            (#[trigger] request.targets[i]).peer_id,
        ) is Some && target_value_error(t, stored_target(t, request.targets[i]).value) is None by {
            assert(target_error(t, targets, peers, i) is None);
        }
        assert forall|i: int, j: int| 0 <= i < j < request.targets.len() implies (
        #[trigger] request.targets[i]).peer_id != (#[trigger] request.targets[j]).peer_id by {
            assert(target_error(t, targets, peers, j) is None);
            assert(targets[i].peer_id == request.targets[i].peer_id);
        }
    } else {
        let i = choose|i: int|
            0 <= i < targets.len() && target_error(t, targets, peers, i) is Some;
        assert(targets[i].peer_id == request.targets[i].peer_id);
        if find_peer(peers, request.targets[i].peer_id) is Some && target_value_error(
            t,
            stored_target(t, request.targets[i]).value,
        ) is None {
            let j = choose|j: int| 0 <= j < i && (#[trigger] targets[j]).peer_id == targets[i].peer_id;
            assert(request.targets[j].peer_id == request.targets[i].peer_id);
        }
    }
}

/// What is stored of an accepted request is what was asked for, with names and
/// identifiers trimmed and the targets in the order of their peers.
pub proof fn law_accepted_failovers_are_stored_as_asked(
    request: UpsertFleetDnsFailoverModel,
    peers: Seq<FleetPeerModel>,
)
    requires
        checked_failover(request, peers) is Ok,
    ensures
        ({
            let valid = checked_failover(request, peers)->Ok_0;
            &&& valid.name == trim(request.name)
            &&& valid.hostname == lower(trim_end_char(trim(request.hostname), '.'))
            &&& valid.record_type == request.record_type
            &&& valid.zone_id == trim(request.zone_id)
            &&& valid.record_id == trim(request.record_id)
            &&& valid.token_env == trim(request.token_env)
            &&& valid.ttl == request.ttl
            &&& valid.proxied == request.proxied
            &&& valid.enabled == request.enabled
            &&& valid.cooldown_seconds == request.cooldown_seconds
            &&& valid.targets.len() == request.targets.len()
            &&& in_peer_order(valid.targets)
            &&& forall|i: int|
                0 <= i < request.targets.len() ==> valid.targets.contains(
                    stored_target(request.record_type, #[trigger] request.targets[i]),
                )
            &&& forall|i: int|
                0 <= i < request.targets.len() ==> stored_target(
                    request.record_type,
                    #[trigger] request.targets[i],
                ).peer_id == request.targets[i].peer_id
        }),
{
    let targets = stored_targets(request.record_type, request.targets);
    let valid = checked_failover(request, peers)->Ok_0;
    law_sorted_targets(targets);
    targets.to_multiset_ensures();
    sorted_targets(targets).to_multiset_ensures();
    assert forall|i: int| 0 <= i < request.targets.len() implies valid.targets.contains(
        stored_target(request.record_type, #[trigger] request.targets[i]),
    ) by {
        assert(targets[i] == stored_target(request.record_type, request.targets[i]));
        assert(targets.contains(targets[i]));
        assert(targets.to_multiset().contains(targets[i]));
    }
}

/// Identifiers of the provider are 32 digits of the hexadecimal system, in either
/// case.
pub proof fn law_provider_identifiers_are_hexadecimal(s: Seq<char>)
    ensures
        provider_id(s) <==> s.len() == 32 && forall|i: int|
            0 <= i < s.len() ==> '0' <= (#[trigger] s[i]) <= '9' || 'a' <= s[i] <= 'f' || 'A' <= s[i]
                <= 'F',
{
    if provider_id(s) {
        assert forall|i: int| 0 <= i < s.len() implies '0' <= (#[trigger] s[i]) <= '9' || 'a' <= s[i]
            <= 'f' || 'A' <= s[i] <= 'F' by {
            assert(digit_value(s[i]) < 16);
        }
    } else if s.len() == 32 {
        let i = choose|i: int| 0 <= i < s.len() && digit_value(#[trigger] s[i]) >= 16;
        assert(!('0' <= s[i] <= '9' || 'a' <= s[i] <= 'f' || 'A' <= s[i] <= 'F'));
    }
}

/// A variable of a token of the provider has its own prefix and suffix and holds
/// only capitals, digits and underscores.
pub proof fn law_token_variables_are_scoped(s: Seq<char>)
    ensures
        secret_env(s) <==> {
            &&& 20 <= s.len() <= 128
            &&& s.take(20) == "LINKLAKE_CLOUDFLARE_"@
            &&& s.skip(s.len() - 6) == "_TOKEN"@
            &&& forall|i: int|
                0 <= i < s.len() ==> 'A' <= (#[trigger] s[i]) <= 'Z' || '0' <= s[i] <= '9' || s[i]
                    == '_'
        },
{
    reveal_strlit("LINKLAKE_CLOUDFLARE_");
    reveal_strlit("_TOKEN");
    if secret_env(s) {
        assert forall|i: int| 0 <= i < s.len() implies 'A' <= (#[trigger] s[i]) <= 'Z' || '0' <= s[i]
            <= '9' || s[i] == '_' by {
            assert(env_char(s[i]));
        }
    } else if 20 <= s.len() <= 128 && s.take(20) == "LINKLAKE_CLOUDFLARE_"@ && s.skip(s.len() - 6)
        == "_TOKEN"@ {
        let i = choose|i: int| 0 <= i < s.len() && !env_char(#[trigger] s[i]);
        assert(!('A' <= s[i] <= 'Z' || '0' <= s[i] <= '9' || s[i] == '_'));
    }
}

} // verus!
