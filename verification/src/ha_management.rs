//! What the management plane shows of a cluster. Member metadata, the texts of
//! target errors and credentials are not part of it.

use crate::ha_coordination::{
    HaCoordinator, HaLeases, HaMember, HaMemberModel, LeadershipLease, LeadershipLeaseModel,
    LeasesModel, active_list, expired, leader_stands, member_models, member_position,
};
use crate::ha_runtime::{
    HaRuntime, HaRuntimeEvent, HaRuntimeEventModel, RuntimeModel, opt_lease, token_of,
};
use crate::job_leases::{JobLease, JobLeaseModel, end_job_leases, ended_jobs, job_models};
use crate::text::{copy_optional, opt_view, same_text};
use crate::uuids::{hyphenated, uuid_text};
use vstd::prelude::*;
use vstd::string::*;

verus! {

/// How many events an overview shows.
pub const RECENT_EVENT_LIMIT: usize = 24;

/// The database that holds the coordination state.
#[derive(Clone, Copy, Debug, PartialEq, Eq, Structural)]
pub enum StorageBackend {
    Sqlite,
    Postgres,
}

#[derive(Clone, Copy, Debug, PartialEq, Eq, Structural)]
pub enum HaMode {
    SqliteSingleInstance,
    PostgresHa,
}

/// The right of a process to serve a public port.
#[derive(Clone, Debug, PartialEq, Eq)]
pub struct PublicPortLease {
    pub protocol: String,
    pub public_port: u16,
    pub lease_id: u128,
    pub owner_instance_id: String,
    pub owner_incarnation_id: String,
    pub fencing_token: u64,
    pub policy_id: u128,
    pub acquired_unix_seconds: u64,
    pub renewed_unix_seconds: u64,
    pub lease_until_unix_seconds: u64,
}

/// What a [`PublicPortLease`] says.
pub struct PublicPortLeaseModel {
    pub protocol: Seq<char>,
    pub public_port: u16,
    pub lease_id: u128,
    pub owner_instance_id: Seq<char>,
    pub owner_incarnation_id: Seq<char>,
    pub fencing_token: u64,
    pub policy_id: u128,
    pub acquired_unix_seconds: u64,
    pub renewed_unix_seconds: u64,
    pub lease_until_unix_seconds: u64,
}

impl View for PublicPortLease {
    type V = PublicPortLeaseModel;

    open spec fn view(&self) -> PublicPortLeaseModel {
        PublicPortLeaseModel {
            protocol: self.protocol@,
            public_port: self.public_port,
            lease_id: self.lease_id,
            owner_instance_id: self.owner_instance_id@,
            owner_incarnation_id: self.owner_incarnation_id@,
            fencing_token: self.fencing_token,
            policy_id: self.policy_id,
            acquired_unix_seconds: self.acquired_unix_seconds,
            renewed_unix_seconds: self.renewed_unix_seconds,
            lease_until_unix_seconds: self.lease_until_unix_seconds,
        }
    }
}

impl PublicPortLease {
    /// A copy of the value.
    pub fn duplicate(&self) -> (r: Self)
        ensures
            r@ == self@,
    {
        PublicPortLease {
            protocol: self.protocol.clone(),
            public_port: self.public_port,
            lease_id: self.lease_id,
            owner_instance_id: self.owner_instance_id.clone(),
            owner_incarnation_id: self.owner_incarnation_id.clone(),
            fencing_token: self.fencing_token,
            policy_id: self.policy_id,
            acquired_unix_seconds: self.acquired_unix_seconds,
            renewed_unix_seconds: self.renewed_unix_seconds,
            lease_until_unix_seconds: self.lease_until_unix_seconds,
        }
    }
}

pub open spec fn port_models(v: Seq<PublicPortLease>) -> Seq<PublicPortLeaseModel> {
    v.map_values(|x: PublicPortLease| x@)
}

/// The ports without a running lease; all else is as it was.
pub open spec fn ended_ports(s: Seq<PublicPortLeaseModel>) -> Seq<PublicPortLeaseModel> {
    s.map_values(
        |port: PublicPortLeaseModel| PublicPortLeaseModel { lease_until_unix_seconds: 0, ..port },
    )
}

/// Ends the leases of public ports that an earlier process of a single instance
/// left behind, if the process may.
pub fn end_port_leases(ports: &mut Vec<PublicPortLease>, claimed: bool)
    ensures
        port_models(final(ports)@) == if claimed {
            ended_ports(port_models(old(ports)@))
        } else {
            port_models(old(ports)@)
        },
{
    if !claimed {
        return;
    }
    let ghost s = port_models(ports@);
    let mut i: usize = 0;
    while i < ports.len()
        invariant
            i <= ports@.len(),
            ports@.len() == s.len(),
            forall|j: int|
                0 <= j < i ==> (#[trigger] ports@[j])@ == (PublicPortLeaseModel {
                    lease_until_unix_seconds: 0,
                    ..s[j]
                }),
            forall|j: int| i <= j < s.len() ==> (#[trigger] ports@[j])@ == s[j],
        decreases ports@.len() - i,
    {
        let mut port = ports[i].duplicate();
        port.lease_until_unix_seconds = 0;
        ports.set(i, port);
        i = i + 1;
    }
    assert(port_models(ports@) =~= ended_ports(s));
}

/// Ends every lease that an earlier process of a single instance left behind, if
/// the process may: those of members, of the leader, of public ports and of jobs.
pub fn recover_stale_state(
    leases: &mut HaLeases,
    ports: &mut Vec<PublicPortLease>,
    jobs: &mut Vec<JobLease>,
    claimed: bool,
) -> (r: bool)
    ensures
        r == claimed,
        claimed ==> {
            &&& final(leases)@ == expired(old(leases)@)
            &&& port_models(final(ports)@) == ended_ports(port_models(old(ports)@))
            &&& job_models(final(jobs)@) == ended_jobs(job_models(old(jobs)@))
        },
        !claimed ==> {
            &&& final(leases)@ == old(leases)@
            &&& port_models(final(ports)@) == port_models(old(ports)@)
            &&& job_models(final(jobs)@) == job_models(old(jobs)@)
        },
{
    let recovered = leases.recover_stale_leases(claimed);
    end_port_leases(ports, claimed);
    end_job_leases(jobs, claimed);
    recovered
}

/// After the recovery no earlier lease runs: no member and no leader is active, no
/// port is held and no job is under way, whatever the time is.
pub proof fn law_recovery_ends_every_lease(
    t: LeasesModel,
    ports: Seq<PublicPortLeaseModel>,
    jobs: Seq<JobLeaseModel>,
    now: u64,
)
    ensures
        forall|i: int|
            0 <= i < expired(t).members.len() ==> (
            #[trigger] expired(t).members[i]).lease_until_unix_seconds <= now,
        expired(t).leader is Some ==> expired(t).leader->0.lease_until_unix_seconds <= now,
        forall|i: int|
            0 <= i < ended_ports(ports).len() ==> (
            #[trigger] ended_ports(ports)[i]).lease_until_unix_seconds <= now,
        forall|i: int|
            0 <= i < ended_jobs(jobs).len() ==> (
            #[trigger] ended_jobs(jobs)[i]).lease_until_unix_seconds <= now,
        expired(t).next_token == t.next_token,
{
}

/// The health of a target.
#[derive(Clone, Debug, PartialEq, Eq)]
pub struct TargetHealth {
    pub target_key: String,
    pub member_alive: bool,
    pub control_channel_healthy: bool,
    pub application_healthy: bool,
    pub effective_healthy: bool,
    pub consecutive_successes: u32,
    pub consecutive_failures: u32,
    pub weight: u32,
    pub revision: u64,
    pub last_probe_unix_seconds: Option<u64>,
    pub last_transition_unix_seconds: u64,
    pub last_error_summary: Option<String>,
}

/// What a [`TargetHealth`] says.
pub struct TargetHealthModel {
    pub target_key: Seq<char>,
    pub member_alive: bool,
    pub control_channel_healthy: bool,
    pub application_healthy: bool,
    pub effective_healthy: bool,
    pub consecutive_successes: u32,
    pub consecutive_failures: u32,
    pub weight: u32,
    pub revision: u64,
    pub last_probe_unix_seconds: Option<u64>,
    pub last_transition_unix_seconds: u64,
    pub last_error_summary: Option<Seq<char>>,
}

impl View for TargetHealth {
    type V = TargetHealthModel;

    open spec fn view(&self) -> TargetHealthModel {
        TargetHealthModel {
            target_key: self.target_key@,
            member_alive: self.member_alive,
            control_channel_healthy: self.control_channel_healthy,
            application_healthy: self.application_healthy,
            effective_healthy: self.effective_healthy,
            consecutive_successes: self.consecutive_successes,
            consecutive_failures: self.consecutive_failures,
            weight: self.weight,
            revision: self.revision,
            last_probe_unix_seconds: self.last_probe_unix_seconds,
            last_transition_unix_seconds: self.last_transition_unix_seconds,
            last_error_summary: opt_view(self.last_error_summary),
        }
    }
}

/// A member as it is shown.
#[derive(Clone, Debug, PartialEq, Eq)]
pub struct HaMemberView {
    pub instance_id: String,
    pub incarnation_id: String,
    pub started_unix_seconds: u64,
    pub last_seen_unix_seconds: u64,
    pub lease_until_unix_seconds: u64,
    pub lease_remaining_seconds: u64,
    pub is_current_instance: bool,
    pub is_leader: bool,
}

/// What a [`HaMemberView`] says.
pub struct HaMemberViewModel {
    pub instance_id: Seq<char>,
    pub incarnation_id: Seq<char>,
    pub started_unix_seconds: u64,
    pub last_seen_unix_seconds: u64,
    pub lease_until_unix_seconds: u64,
    pub lease_remaining_seconds: u64,
    pub is_current_instance: bool,
    pub is_leader: bool,
}

impl View for HaMemberView {
    type V = HaMemberViewModel;

    open spec fn view(&self) -> HaMemberViewModel {
        HaMemberViewModel {
            instance_id: self.instance_id@,
            incarnation_id: self.incarnation_id@,
            started_unix_seconds: self.started_unix_seconds,
            last_seen_unix_seconds: self.last_seen_unix_seconds,
            lease_until_unix_seconds: self.lease_until_unix_seconds,
            lease_remaining_seconds: self.lease_remaining_seconds,
            is_current_instance: self.is_current_instance,
            is_leader: self.is_leader,
        }
    }
}

impl HaMemberView {
    /// A copy of the value.
    pub fn duplicate(&self) -> (r: Self)
        ensures
            r@ == self@,
    {
        let r = HaMemberView {
            instance_id: self.instance_id.clone(),
            incarnation_id: self.incarnation_id.clone(),
            started_unix_seconds: self.started_unix_seconds,
            last_seen_unix_seconds: self.last_seen_unix_seconds,
            lease_until_unix_seconds: self.lease_until_unix_seconds,
            lease_remaining_seconds: self.lease_remaining_seconds,
            is_current_instance: self.is_current_instance,
            is_leader: self.is_leader,
        };
        r
    }
}

/// The lease of the leader as it is shown.
#[derive(Clone, Debug, PartialEq, Eq)]
pub struct LeadershipLeaseView {
    pub instance_id: String,
    pub incarnation_id: String,
    pub fencing_token: u64,
    pub acquired_unix_seconds: u64,
    pub renewed_unix_seconds: u64,
    pub lease_until_unix_seconds: u64,
    pub lease_remaining_seconds: u64,
}

/// What a [`LeadershipLeaseView`] says.
pub struct LeadershipLeaseViewModel {
    pub instance_id: Seq<char>,
    pub incarnation_id: Seq<char>,
    pub fencing_token: u64,
    pub acquired_unix_seconds: u64,
    pub renewed_unix_seconds: u64,
    pub lease_until_unix_seconds: u64,
    pub lease_remaining_seconds: u64,
}

impl View for LeadershipLeaseView {
    type V = LeadershipLeaseViewModel;

    open spec fn view(&self) -> LeadershipLeaseViewModel {
        LeadershipLeaseViewModel {
            instance_id: self.instance_id@,
            incarnation_id: self.incarnation_id@,
            fencing_token: self.fencing_token,
            acquired_unix_seconds: self.acquired_unix_seconds,
            renewed_unix_seconds: self.renewed_unix_seconds,
            lease_until_unix_seconds: self.lease_until_unix_seconds,
            lease_remaining_seconds: self.lease_remaining_seconds,
        }
    }
}

/// The lease of a job as it is shown.
#[derive(Clone, Debug, PartialEq, Eq)]
pub struct JobLeaseView {
    pub job_key: String,
    pub job_kind: String,
    pub lease_id: String,
    pub owner_instance_id: String,
    pub owner_incarnation_id: String,
    pub fencing_token: u64,
    pub acquired_unix_seconds: u64,
    pub renewed_unix_seconds: u64,
    pub lease_until_unix_seconds: u64,
    pub lease_remaining_seconds: u64,
    pub last_completed_unix_seconds: Option<u64>,
    pub last_error_code: Option<String>,
}

/// What a [`JobLeaseView`] says.
pub struct JobLeaseViewModel {
    pub job_key: Seq<char>,
    pub job_kind: Seq<char>,
    pub lease_id: Seq<char>,
    pub owner_instance_id: Seq<char>,
    pub owner_incarnation_id: Seq<char>,
    pub fencing_token: u64,
    pub acquired_unix_seconds: u64,
    pub renewed_unix_seconds: u64,
    pub lease_until_unix_seconds: u64,
    pub lease_remaining_seconds: u64,
    pub last_completed_unix_seconds: Option<u64>,
    pub last_error_code: Option<Seq<char>>,
}

impl View for JobLeaseView {
    type V = JobLeaseViewModel;

    open spec fn view(&self) -> JobLeaseViewModel {
        JobLeaseViewModel {
            job_key: self.job_key@,
            job_kind: self.job_kind@,
            lease_id: self.lease_id@,
            owner_instance_id: self.owner_instance_id@,
            owner_incarnation_id: self.owner_incarnation_id@,
            fencing_token: self.fencing_token,
            acquired_unix_seconds: self.acquired_unix_seconds,
            renewed_unix_seconds: self.renewed_unix_seconds,
            lease_until_unix_seconds: self.lease_until_unix_seconds,
            lease_remaining_seconds: self.lease_remaining_seconds,
            last_completed_unix_seconds: self.last_completed_unix_seconds,
            last_error_code: opt_view(self.last_error_code),
        }
    }
}

/// The lease of a public port as it is shown.
#[derive(Clone, Debug, PartialEq, Eq)]
pub struct PublicPortLeaseView {
    pub protocol: String,
    pub public_port: u16,
    pub lease_id: String,
    pub owner_instance_id: String,
    pub owner_incarnation_id: String,
    pub fencing_token: u64,
    pub policy_id: String,
    pub acquired_unix_seconds: u64,
    pub renewed_unix_seconds: u64,
    pub lease_until_unix_seconds: u64,
    pub lease_remaining_seconds: u64,
}

/// What a [`PublicPortLeaseView`] says.
pub struct PublicPortLeaseViewModel {
    pub protocol: Seq<char>,
    pub public_port: u16,
    pub lease_id: Seq<char>,
    pub owner_instance_id: Seq<char>,
    pub owner_incarnation_id: Seq<char>,
    pub fencing_token: u64,
    pub policy_id: Seq<char>,
    pub acquired_unix_seconds: u64,
    pub renewed_unix_seconds: u64,
    pub lease_until_unix_seconds: u64,
    pub lease_remaining_seconds: u64,
}

impl View for PublicPortLeaseView {
    type V = PublicPortLeaseViewModel;

    open spec fn view(&self) -> PublicPortLeaseViewModel {
        PublicPortLeaseViewModel {
            protocol: self.protocol@,
            public_port: self.public_port,
            lease_id: self.lease_id@,
            owner_instance_id: self.owner_instance_id@,
            owner_incarnation_id: self.owner_incarnation_id@,
            fencing_token: self.fencing_token,
            policy_id: self.policy_id@,
            acquired_unix_seconds: self.acquired_unix_seconds,
            renewed_unix_seconds: self.renewed_unix_seconds,
            lease_until_unix_seconds: self.lease_until_unix_seconds,
            lease_remaining_seconds: self.lease_remaining_seconds,
        }
    }
}

/// The health of a target as it is shown.
#[derive(Clone, Debug, PartialEq, Eq)]
pub struct TargetHealthView {
    pub target_key: String,
    pub member_alive: bool,
    pub control_channel_healthy: bool,
    pub application_healthy: bool,
    pub effective_healthy: bool,
    pub consecutive_successes: u32,
    pub consecutive_failures: u32,
    pub weight: u32,
    pub revision: u64,
    pub last_probe_unix_seconds: Option<u64>,
    pub last_transition_unix_seconds: u64,
    pub has_error: bool,
}

/// What a [`TargetHealthView`] says.
pub struct TargetHealthViewModel {
    pub target_key: Seq<char>,
    pub member_alive: bool,
    pub control_channel_healthy: bool,
    pub application_healthy: bool,
    pub effective_healthy: bool,
    pub consecutive_successes: u32,
    pub consecutive_failures: u32,
    pub weight: u32,
    pub revision: u64,
    pub last_probe_unix_seconds: Option<u64>,
    pub last_transition_unix_seconds: u64,
    pub has_error: bool,
}

impl View for TargetHealthView {
    type V = TargetHealthViewModel;

    open spec fn view(&self) -> TargetHealthViewModel {
        TargetHealthViewModel {
            target_key: self.target_key@,
            member_alive: self.member_alive,
            control_channel_healthy: self.control_channel_healthy,
            application_healthy: self.application_healthy,
            effective_healthy: self.effective_healthy,
            consecutive_successes: self.consecutive_successes,
            consecutive_failures: self.consecutive_failures,
            weight: self.weight,
            revision: self.revision,
            last_probe_unix_seconds: self.last_probe_unix_seconds,
            last_transition_unix_seconds: self.last_transition_unix_seconds,
            has_error: self.has_error,
        }
    }
}

/// An event as it is shown.
#[derive(Clone, Debug, PartialEq, Eq)]
pub struct HaEventView {
    pub at_unix_seconds: u64,
    pub code: String,
    pub severity: String,
    pub message: String,
    pub fencing_token: Option<u64>,
}

/// What a [`HaEventView`] says.
pub struct HaEventViewModel {
    pub at_unix_seconds: u64,
    pub code: Seq<char>,
    pub severity: Seq<char>,
    pub message: Seq<char>,
    pub fencing_token: Option<u64>,
}

impl View for HaEventView {
    type V = HaEventViewModel;

    open spec fn view(&self) -> HaEventViewModel {
        HaEventViewModel {
            at_unix_seconds: self.at_unix_seconds,
            code: self.code@,
            severity: self.severity@,
            message: self.message@,
            fencing_token: self.fencing_token,
        }
    }
}

/// The targets and how many of them are well.
#[derive(Clone, Debug, PartialEq, Eq)]
pub struct TargetHealthSummary {
    pub total: usize,
    pub healthy: usize,
    pub unhealthy: usize,
    pub with_errors: usize,
    pub targets: Vec<TargetHealthView>,
}

/// What a [`TargetHealthSummary`] says.
pub struct TargetHealthSummaryModel {
    pub total: usize,
    pub healthy: usize,
    pub unhealthy: usize,
    pub with_errors: usize,
    pub targets: Seq<TargetHealthViewModel>,
}

impl View for TargetHealthSummary {
    type V = TargetHealthSummaryModel;

    open spec fn view(&self) -> TargetHealthSummaryModel {
        TargetHealthSummaryModel {
            total: self.total,
            healthy: self.healthy,
            unhealthy: self.unhealthy,
            with_errors: self.with_errors,
            targets: self.targets@.map_values(|x: TargetHealthView| x@),
        }
    }
}

/// What the management plane shows of a cluster.
#[derive(Clone, Debug, PartialEq, Eq)]
pub struct HaOverview {
    pub mode: HaMode,
    pub backend: StorageBackend,
    pub replicated_state: bool,
    pub generated_unix_seconds: u64,
    pub instance_id: String,
    pub incarnation_id: String,
    pub local_is_leader: bool,
    pub local_fencing_token: Option<u64>,
    pub member_lease: Option<HaMemberView>,
    pub current_leader: Option<LeadershipLeaseView>,
    pub members: Vec<HaMemberView>,
    pub job_leases: Vec<JobLeaseView>,
    pub port_ownership: Vec<PublicPortLeaseView>,
    pub target_health: TargetHealthSummary,
    pub recent_events: Vec<HaEventView>,
}

/// What a [`HaOverview`] says.
pub struct HaOverviewModel {
    pub mode: HaMode,
    pub backend: StorageBackend,
    pub replicated_state: bool,
    pub generated_unix_seconds: u64,
    pub instance_id: Seq<char>,
    pub incarnation_id: Seq<char>,
    pub local_is_leader: bool,
    pub local_fencing_token: Option<u64>,
    pub member_lease: Option<HaMemberViewModel>,
    pub current_leader: Option<LeadershipLeaseViewModel>,
    pub members: Seq<HaMemberViewModel>,
    pub job_leases: Seq<JobLeaseViewModel>,
    pub port_ownership: Seq<PublicPortLeaseViewModel>,
    pub target_health: TargetHealthSummaryModel,
    pub recent_events: Seq<HaEventViewModel>,
}

impl View for HaOverview {
    type V = HaOverviewModel;

    open spec fn view(&self) -> HaOverviewModel {
        HaOverviewModel {
            mode: self.mode,
            backend: self.backend,
            replicated_state: self.replicated_state,
            generated_unix_seconds: self.generated_unix_seconds,
            instance_id: self.instance_id@,
            incarnation_id: self.incarnation_id@,
            local_is_leader: self.local_is_leader,
            local_fencing_token: self.local_fencing_token,
            member_lease: match self.member_lease {
                Some(x) => Some(x@),
                None => None,
            },
            current_leader: match self.current_leader {
                Some(x) => Some(x@),
                None => None,
            },
            members: self.members@.map_values(|x: HaMemberView| x@),
            job_leases: self.job_leases@.map_values(|x: JobLeaseView| x@),
            port_ownership: self.port_ownership@.map_values(|x: PublicPortLeaseView| x@),
            target_health: self.target_health@,
            recent_events: self.recent_events@.map_values(|x: HaEventView| x@),
        }
    }
}

pub open spec fn remaining(until: u64, now: u64) -> u64 {
    if until > now {
        (until - now) as u64
    } else {
        0
    }
}

fn remaining_seconds(until: u64, now: u64) -> (r: u64)
    ensures
        r == remaining(until, now),
{
    if until > now {
        until - now
    } else {
        0
    }
}

pub open spec fn shown_member(
    m: HaMemberModel,
    now: u64,
    instance_id: Seq<char>,
    incarnation_id: Seq<char>,
    leader: Option<LeadershipLeaseModel>,
) -> HaMemberViewModel {
    HaMemberViewModel {
        instance_id: m.instance_id,
        incarnation_id: m.incarnation_id,
        started_unix_seconds: m.started_unix_seconds,
        last_seen_unix_seconds: m.last_seen_unix_seconds,
        lease_until_unix_seconds: m.lease_until_unix_seconds,
        lease_remaining_seconds: remaining(m.lease_until_unix_seconds, now),
        is_current_instance: m.instance_id == instance_id && m.incarnation_id == incarnation_id,
        is_leader: leader is Some && leader->0.instance_id == m.instance_id
            && leader->0.incarnation_id == m.incarnation_id,
    }
}

pub fn member_view(
    member: &HaMember,
    now: u64,
    current_instance_id: &str,
    current_incarnation_id: &str,
    leader: &Option<LeadershipLease>,
) -> (r: HaMemberView)
    ensures
        r@ == shown_member(
            member@,
            now,
            current_instance_id@,
            current_incarnation_id@,
            opt_lease(*leader),
        ),
{
    HaMemberView {
        instance_id: member.instance_id.clone(),
        incarnation_id: member.incarnation_id.clone(),
        started_unix_seconds: member.started_unix_seconds,
        last_seen_unix_seconds: member.last_seen_unix_seconds,
        lease_until_unix_seconds: member.lease_until_unix_seconds,
        lease_remaining_seconds: remaining_seconds(member.lease_until_unix_seconds, now),
        is_current_instance: same_text(member.instance_id.as_str(), current_instance_id)
            && same_text(member.incarnation_id.as_str(), current_incarnation_id),
        is_leader: match leader {
            Some(l) => l.instance_id == member.instance_id && l.incarnation_id
                == member.incarnation_id,
            None => false,
        },
    }
}

pub open spec fn shown_leader(x: LeadershipLeaseModel, now: u64) -> LeadershipLeaseViewModel {
    LeadershipLeaseViewModel {
        instance_id: x.instance_id,
        incarnation_id: x.incarnation_id,
        fencing_token: x.fencing_token,
        acquired_unix_seconds: x.acquired_unix_seconds,
        renewed_unix_seconds: x.renewed_unix_seconds,
        lease_until_unix_seconds: x.lease_until_unix_seconds,
        lease_remaining_seconds: remaining(x.lease_until_unix_seconds, now),
    }
}

pub fn leadership_view(x: &LeadershipLease, now: u64) -> (r: LeadershipLeaseView)
    ensures
        r@ == shown_leader(x@, now),
{
    LeadershipLeaseView {
        instance_id: x.instance_id.clone(),
        incarnation_id: x.incarnation_id.clone(),
        fencing_token: x.fencing_token,
        acquired_unix_seconds: x.acquired_unix_seconds,
        renewed_unix_seconds: x.renewed_unix_seconds,
        lease_until_unix_seconds: x.lease_until_unix_seconds,
        lease_remaining_seconds: remaining_seconds(x.lease_until_unix_seconds, now),
    }
}

pub open spec fn shown_job(x: JobLeaseModel, now: u64) -> JobLeaseViewModel {
    JobLeaseViewModel {
        job_key: x.job_key,
        job_kind: x.job_kind,
        lease_id: hyphenated(x.lease_id),
        owner_instance_id: x.owner_instance_id,
        owner_incarnation_id: x.owner_incarnation_id,
        fencing_token: x.fencing_token,
        acquired_unix_seconds: x.acquired_unix_seconds,
        renewed_unix_seconds: x.renewed_unix_seconds,
        lease_until_unix_seconds: x.lease_until_unix_seconds,
        lease_remaining_seconds: remaining(x.lease_until_unix_seconds, now),
        last_completed_unix_seconds: x.last_completed_unix_seconds,
        last_error_code: x.last_error_code,
    }
}

pub fn job_view(x: &JobLease, now: u64) -> (r: JobLeaseView)
    ensures
        r@ == shown_job(x@, now),
{
    JobLeaseView {
        job_key: x.job_key.clone(),
        job_kind: x.job_kind.clone(),
        lease_id: uuid_text(x.lease_id),
        owner_instance_id: x.owner_instance_id.clone(),
        owner_incarnation_id: x.owner_incarnation_id.clone(),
        fencing_token: x.fencing_token,
        acquired_unix_seconds: x.acquired_unix_seconds,
        renewed_unix_seconds: x.renewed_unix_seconds,
        lease_until_unix_seconds: x.lease_until_unix_seconds,
        lease_remaining_seconds: remaining_seconds(x.lease_until_unix_seconds, now),
        last_completed_unix_seconds: x.last_completed_unix_seconds,
        last_error_code: copy_optional(&x.last_error_code),
    }
}

pub open spec fn shown_port(x: PublicPortLeaseModel, now: u64) -> PublicPortLeaseViewModel {
    PublicPortLeaseViewModel {
        protocol: x.protocol,
        public_port: x.public_port,
        lease_id: hyphenated(x.lease_id),
        owner_instance_id: x.owner_instance_id,
        owner_incarnation_id: x.owner_incarnation_id,
        fencing_token: x.fencing_token,
        policy_id: hyphenated(x.policy_id),
        acquired_unix_seconds: x.acquired_unix_seconds,
        renewed_unix_seconds: x.renewed_unix_seconds,
        lease_until_unix_seconds: x.lease_until_unix_seconds,
        lease_remaining_seconds: remaining(x.lease_until_unix_seconds, now),
    }
}

pub fn port_view(x: &PublicPortLease, now: u64) -> (r: PublicPortLeaseView)
    ensures
        r@ == shown_port(x@, now),
{
    PublicPortLeaseView {
        protocol: x.protocol.clone(),
        public_port: x.public_port,
        lease_id: uuid_text(x.lease_id),
        owner_instance_id: x.owner_instance_id.clone(),
        owner_incarnation_id: x.owner_incarnation_id.clone(),
        fencing_token: x.fencing_token,
        policy_id: uuid_text(x.policy_id),
        acquired_unix_seconds: x.acquired_unix_seconds,
        renewed_unix_seconds: x.renewed_unix_seconds,
        lease_until_unix_seconds: x.lease_until_unix_seconds,
        lease_remaining_seconds: remaining_seconds(x.lease_until_unix_seconds, now),
    }
}

pub open spec fn shown_target(x: TargetHealthModel) -> TargetHealthViewModel {
    TargetHealthViewModel {
        target_key: x.target_key,
        member_alive: x.member_alive,
        control_channel_healthy: x.control_channel_healthy,
        application_healthy: x.application_healthy,
        effective_healthy: x.effective_healthy,
        consecutive_successes: x.consecutive_successes,
        consecutive_failures: x.consecutive_failures,
        weight: x.weight,
        revision: x.revision,
        last_probe_unix_seconds: x.last_probe_unix_seconds,
        last_transition_unix_seconds: x.last_transition_unix_seconds,
        has_error: x.last_error_summary is Some,
    }
}

pub fn target_view(x: &TargetHealth) -> (r: TargetHealthView)
    ensures
        r@ == shown_target(x@),
{
    TargetHealthView {
        target_key: x.target_key.clone(),
        member_alive: x.member_alive,
        control_channel_healthy: x.control_channel_healthy,
        application_healthy: x.application_healthy,
        effective_healthy: x.effective_healthy,
        consecutive_successes: x.consecutive_successes,
        consecutive_failures: x.consecutive_failures,
        weight: x.weight,
        revision: x.revision,
        last_probe_unix_seconds: x.last_probe_unix_seconds,
        last_transition_unix_seconds: x.last_transition_unix_seconds,
        has_error: x.last_error_summary.is_some(),
    }
}

pub open spec fn shown_event(x: HaRuntimeEventModel) -> HaEventViewModel {
    HaEventViewModel {
        at_unix_seconds: x.at_unix_seconds,
        code: x.code,
        severity: x.severity,
        message: x.message,
        fencing_token: x.fencing_token,
    }
}

pub fn event_view(x: &HaRuntimeEvent) -> (r: HaEventView)
    ensures
        r@ == shown_event(x@),
{
    HaEventView {
        at_unix_seconds: x.at_unix_seconds,
        code: x.code.clone(),
        severity: x.severity.clone(),
        message: x.message.clone(),
        fencing_token: x.fencing_token,
    }
}

fn job_views(v: &Vec<JobLease>, now: u64) -> (r: Vec<JobLeaseView>)
    ensures
        r@.map_values(|x: JobLeaseView| x@) == v@.map_values(|x: JobLease| x@).map_values(
            |x: JobLeaseModel| shown_job(x, now),
        ),
{
    let mut out: Vec<JobLeaseView> = Vec::new();
    let mut i: usize = 0;
    while i < v.len()
        invariant
            i <= v@.len(),
            out@.len() == i,
            forall|j: int| 0 <= j < i ==> (#[trigger] out@[j])@ == shown_job(v@[j]@, now),
        decreases v@.len() - i,
    {
        out.push(job_view(&v[i], now));
        i = i + 1;
    }
    assert(out@.map_values(|x: JobLeaseView| x@) =~= v@.map_values(|x: JobLease| x@).map_values(
        |x: JobLeaseModel| shown_job(x, now),
    ));
    out
}

fn port_views(v: &Vec<PublicPortLease>, now: u64) -> (r: Vec<PublicPortLeaseView>)
    ensures
        r@.map_values(|x: PublicPortLeaseView| x@) == v@.map_values(|x: PublicPortLease| x@).map_values(
            |x: PublicPortLeaseModel| shown_port(x, now),
        ),
{
    let mut out: Vec<PublicPortLeaseView> = Vec::new();
    let mut i: usize = 0;
    while i < v.len()
        invariant
            i <= v@.len(),
            out@.len() == i,
            forall|j: int| 0 <= j < i ==> (#[trigger] out@[j])@ == shown_port(v@[j]@, now),
        decreases v@.len() - i,
    {
        out.push(port_view(&v[i], now));
        i = i + 1;
    }
    assert(out@.map_values(|x: PublicPortLeaseView| x@) =~= v@.map_values(|x: PublicPortLease| x@).map_values(
        |x: PublicPortLeaseModel| shown_port(x, now),
    ));
    out
}

fn target_views(v: &Vec<TargetHealth>) -> (r: Vec<TargetHealthView>)
    ensures
        r@.map_values(|x: TargetHealthView| x@) == v@.map_values(|x: TargetHealth| x@).map_values(
            |x: TargetHealthModel| shown_target(x),
        ),
{
    let mut out: Vec<TargetHealthView> = Vec::new();
    let mut i: usize = 0;
    while i < v.len()
        invariant
            i <= v@.len(),
            out@.len() == i,
            forall|j: int| 0 <= j < i ==> (#[trigger] out@[j])@ == shown_target(v@[j]@),
        decreases v@.len() - i,
    {
        out.push(target_view(&v[i]));
        i = i + 1;
    }
    assert(out@.map_values(|x: TargetHealthView| x@) =~= v@.map_values(|x: TargetHealth| x@).map_values(
        |x: TargetHealthModel| shown_target(x),
    ));
    out
}

fn event_views(v: &Vec<HaRuntimeEvent>) -> (r: Vec<HaEventView>)
    ensures
        r@.map_values(|x: HaEventView| x@) == v@.map_values(|x: HaRuntimeEvent| x@).map_values(
            |x: HaRuntimeEventModel| shown_event(x),
        ),
{
    let mut out: Vec<HaEventView> = Vec::new();
    let mut i: usize = 0;
    while i < v.len()
        invariant
            i <= v@.len(),
            out@.len() == i,
            forall|j: int| 0 <= j < i ==> (#[trigger] out@[j])@ == shown_event(v@[j]@),
        decreases v@.len() - i,
    {
        out.push(event_view(&v[i]));
        i = i + 1;
    }
    assert(out@.map_values(|x: HaEventView| x@) =~= v@.map_values(|x: HaRuntimeEvent| x@).map_values(
        |x: HaRuntimeEventModel| shown_event(x),
    ));
    out
}

/// How many targets can be used.
pub open spec fn healthy_count(s: Seq<TargetHealthViewModel>) -> nat
    decreases s.len(),
{
    if s.len() == 0 {
        0
    } else {
        healthy_count(s.drop_last()) + if s.last().effective_healthy {
            1nat
        } else {
            0
        }
    }
}

/// How many targets have an error.
pub open spec fn error_count(s: Seq<TargetHealthViewModel>) -> nat
    decreases s.len(),
{
    if s.len() == 0 {
        0
    } else {
        error_count(s.drop_last()) + if s.last().has_error {
            1nat
        } else {
            0
        }
    }
}

pub open spec fn target_summary(targets: Seq<TargetHealthModel>) -> TargetHealthSummaryModel {
    let views = targets.map_values(|x: TargetHealthModel| shown_target(x));
    TargetHealthSummaryModel {
        total: targets.len() as usize,
        healthy: healthy_count(views) as usize,
        unhealthy: (targets.len() - healthy_count(views)) as usize,
        with_errors: error_count(views) as usize,
        targets: views,
    }
}

/// Every target is either well or not.
pub proof fn law_target_counts_add_up(targets: Seq<TargetHealthModel>)
    requires
        targets.len() <= usize::MAX,
    ensures
        target_summary(targets).healthy + target_summary(targets).unhealthy == targets.len(),
        target_summary(targets).total == targets.len(),
        target_summary(targets).with_errors <= targets.len(),
{
    lemma_counts(targets.map_values(|x: TargetHealthModel| shown_target(x)));
}

proof fn lemma_counts(s: Seq<TargetHealthViewModel>)
    ensures
        healthy_count(s) <= s.len(),
        error_count(s) <= s.len(),
    decreases s.len(),
{
    if s.len() > 0 {
        lemma_counts(s.drop_last());
    }
}

fn summarize_targets(targets: &Vec<TargetHealth>) -> (r: TargetHealthSummary)
    ensures
        r@ == target_summary(targets@.map_values(|x: TargetHealth| x@)),
{
    let views = target_views(targets);
    let ghost s = views@.map_values(|x: TargetHealthView| x@);
    let mut healthy: usize = 0;
    let mut with_errors: usize = 0;
    let mut i: usize = 0;
    while i < views.len()
        invariant
            i <= views@.len(),
            s == views@.map_values(|x: TargetHealthView| x@),
            healthy <= i,
            with_errors <= i,
            healthy == healthy_count(s.take(i as int)),
            with_errors == error_count(s.take(i as int)),
        decreases views@.len() - i,
    {
        assert(s.take(i + 1).drop_last() =~= s.take(i as int));
        assert(s.take(i + 1).last() == views@[i as int]@);
        if views[i].effective_healthy {
            healthy = healthy + 1;
        }
        if views[i].has_error {
            with_errors = with_errors + 1;
        }
        i = i + 1;
    }
    assert(s.take(s.len() as int) =~= s);
    let total = views.len();
    assert(total == targets@.map_values(|x: TargetHealth| x@).len()) by {
        assert(s.len() == targets@.map_values(|x: TargetHealth| x@).len());
    }
    TargetHealthSummary {
        total,
        healthy,
        unhealthy: total - healthy,
        with_errors,
        targets: views,
    }
}

/// The leader that an overview shows.
pub open spec fn leader_now(leases: crate::ha_coordination::LeasesModel, now: u64) -> Option<
    LeadershipLeaseModel,
> {
    if leader_stands(leases, now) {
        leases.leader
    } else {
        None
    }
}

/// The first member that is this process.
pub open spec fn own_member(s: Seq<HaMemberViewModel>) -> Option<HaMemberViewModel>
    decreases s.len(),
{
    if s.len() == 0 {
        None
    } else if s[0].is_current_instance {
        Some(s[0])
    } else {
        own_member(s.drop_first())
    }
}

pub open spec fn shown_members(
    s: Seq<HaMemberModel>,
    now: u64,
    instance_id: Seq<char>,
    incarnation_id: Seq<char>,
    leader: Option<LeadershipLeaseModel>,
) -> Seq<HaMemberViewModel> {
    s.map_values(|m: HaMemberModel| shown_member(m, now, instance_id, incarnation_id, leader))
}

/// The newest events, as many as are shown.
pub open spec fn shown_events(s: Seq<HaRuntimeEventModel>) -> Seq<HaEventViewModel> {
    (if s.len() > RECENT_EVENT_LIMIT {
        s.take(RECENT_EVENT_LIMIT as int)
    } else {
        s
    }).map_values(|x: HaRuntimeEventModel| shown_event(x))
}

/// What the management plane shows of a cluster.
pub open spec fn overview(
    runtime: RuntimeModel,
    coordinator: crate::ha_coordination::CoordinatorModel,
    leases: crate::ha_coordination::LeasesModel,
    jobs: Seq<JobLeaseModel>,
    ports: Seq<PublicPortLeaseModel>,
    targets: Seq<TargetHealthModel>,
    backend: StorageBackend,
    now: u64,
) -> HaOverviewModel {
    let leader = leader_now(leases, now);
    let members = shown_members(
        active_list(leases.members, now),
        now,
        coordinator.instance_id,
        coordinator.incarnation_id,
        leader,
    );
    HaOverviewModel {
        mode: match backend {
            StorageBackend::Sqlite => HaMode::SqliteSingleInstance,
            StorageBackend::Postgres => HaMode::PostgresHa,
        },
        backend,
        replicated_state: backend == StorageBackend::Postgres,
        generated_unix_seconds: now,
        instance_id: coordinator.instance_id,
        incarnation_id: coordinator.incarnation_id,
        local_is_leader: runtime.leader,
        local_fencing_token: token_of(runtime.leadership),
        member_lease: own_member(members),
        current_leader: match leader {
            Some(l) => Some(shown_leader(l, now)),
            None => None,
        },
        members,
        job_leases: jobs.map_values(|x: JobLeaseModel| shown_job(x, now)),
        port_ownership: ports.map_values(|x: PublicPortLeaseModel| shown_port(x, now)),
        target_health: target_summary(targets),
        recent_events: shown_events(runtime.events),
    }
}

fn member_views(
    v: &Vec<HaMember>,
    now: u64,
    instance_id: &str,
    incarnation_id: &str,
    leader: &Option<LeadershipLease>,
) -> (r: Vec<HaMemberView>)
    ensures
        r@.map_values(|x: HaMemberView| x@) == shown_members(
            member_models(v@),
            now,
            instance_id@,
            incarnation_id@,
            opt_lease(*leader),
        ),
{
    let mut out: Vec<HaMemberView> = Vec::new();
    let mut i: usize = 0;
    while i < v.len()
        invariant
            i <= v@.len(),
            out@.len() == i,
            forall|j: int|
                0 <= j < i ==> (#[trigger] out@[j])@ == shown_member(
                    v@[j]@,
                    now,
                    instance_id@,
                    incarnation_id@,
                    opt_lease(*leader),
                ),
        decreases v@.len() - i,
    {
        out.push(member_view(&v[i], now, instance_id, incarnation_id, leader));
        i = i + 1;
    }
    assert(out@.map_values(|x: HaMemberView| x@) =~= shown_members(
        member_models(v@),
        now,
        instance_id@,
        incarnation_id@,
        opt_lease(*leader),
    ));
    out
}

fn find_own(v: &Vec<HaMemberView>) -> (r: Option<HaMemberView>)
    ensures
        match r {
            Some(x) => own_member(v@.map_values(|x: HaMemberView| x@)) == Some(x@),
            None => own_member(v@.map_values(|x: HaMemberView| x@)) is None,
        },
{
    let ghost s = v@.map_values(|x: HaMemberView| x@);
    let mut i: usize = 0;
    assert(s.skip(0) =~= s);
    while i < v.len()
        invariant
            i <= v@.len(),
            s == v@.map_values(|x: HaMemberView| x@),
            own_member(s) == own_member(s.skip(i as int)),
        decreases v@.len() - i,
    {
        assert(s.skip(i as int)[0] == v@[i as int]@);
        assert(s.skip(i as int).drop_first() =~= s.skip(i + 1));
        if v[i].is_current_instance {
            return Some(v[i].duplicate());
        }
        i = i + 1;
    }
    None
}

/// Collects what the management plane shows: nothing is written.
pub fn collect(
    runtime: &HaRuntime,
    coordinator: &HaCoordinator,
    leases: &HaLeases,
    jobs: &Vec<JobLease>,
    ports: &Vec<PublicPortLease>,
    targets: &Vec<TargetHealth>,
    backend: StorageBackend,
    now: u64,
) -> (r: HaOverview)
    ensures
        r@ == overview(
            runtime@,
            coordinator@,
            leases@,
            job_models(jobs@),
            ports@.map_values(|x: PublicPortLease| x@),
            targets@.map_values(|x: TargetHealth| x@),
            backend,
            now,
        ),
{
    let members = leases.active_members(now);
    let leader = leases.current_leader(now);
    let members = member_views(
        &members,
        now,
        coordinator.instance_id.as_str(),
        coordinator.incarnation_id.as_str(),
        &leader,
    );
    let member_lease = find_own(&members);
    let local_fencing_token: Option<u64> = match runtime.leadership() {
        Some(l) => Some(l.fencing_token),
        None => None,
    };
    let current_leader = match &leader {
        Some(l) => Some(leadership_view(l, now)),
        None => None,
    };
    let events = runtime.recent_events(RECENT_EVENT_LIMIT);
    HaOverview {
        mode: match backend {
            StorageBackend::Sqlite => HaMode::SqliteSingleInstance,
            StorageBackend::Postgres => HaMode::PostgresHa,
        },
        backend,
        replicated_state: backend == StorageBackend::Postgres,
        generated_unix_seconds: now,
        instance_id: coordinator.instance_id.clone(),
        incarnation_id: coordinator.incarnation_id.clone(),
        local_is_leader: runtime.is_leader(),
        local_fencing_token,
        member_lease,
        current_leader,
        members,
        job_leases: job_views(jobs, now),
        port_ownership: port_views(ports, now),
        target_health: summarize_targets(targets),
        recent_events: event_views(&events),
    }
}

/// Whether two lists of members agree but for their metadata.
pub open spec fn same_but_metadata(a: Seq<HaMemberModel>, b: Seq<HaMemberModel>) -> bool {
    &&& a.len() == b.len()
    &&& forall|i: int|
        0 <= i < a.len() ==> #[trigger] b[i] == (HaMemberModel {
            metadata_json: b[i].metadata_json,
            ..a[i]
        })
}

/// Whether two lists of targets agree but for the texts of their errors.
pub open spec fn same_but_error_texts(a: Seq<TargetHealthModel>, b: Seq<TargetHealthModel>) -> bool {
    &&& a.len() == b.len()
    &&& forall|i: int|
        0 <= i < a.len() ==> #[trigger] b[i] == (TargetHealthModel {
            last_error_summary: b[i].last_error_summary,
            ..a[i]
        }) && (b[i].last_error_summary is Some <==> a[i].last_error_summary is Some)
}

proof fn lemma_active_but_metadata(a: Seq<HaMemberModel>, b: Seq<HaMemberModel>, now: u64)
    requires
        same_but_metadata(a, b),
    ensures
        same_but_metadata(active_list(a, now), active_list(b, now)),
    decreases a.len(),
{
    if a.len() > 0 {
        let x = a.drop_last();
        let y = b.drop_last();
        assert forall|i: int| 0 <= i < x.len() implies #[trigger] y[i] == (HaMemberModel {
            metadata_json: y[i].metadata_json,
            ..x[i]
        }) by {
            assert(y[i] == b[i]);
        }
        lemma_active_but_metadata(x, y, now);
        assert(b[b.len() - 1] == b.last());
    }
}

proof fn lemma_position_but_metadata(
    a: Seq<HaMemberModel>,
    b: Seq<HaMemberModel>,
    instance_id: Seq<char>,
)
    requires
        same_but_metadata(a, b),
    ensures
        member_position(a, instance_id) == member_position(b, instance_id),
        0 <= member_position(a, instance_id) <= a.len(),
    decreases a.len(),
{
    if a.len() > 0 {
        let x = a.drop_first();
        let y = b.drop_first();
        assert forall|i: int| 0 <= i < x.len() implies #[trigger] y[i] == (HaMemberModel {
            metadata_json: y[i].metadata_json,
            ..x[i]
        }) by {
            assert(y[i] == b[i + 1]);
        }
        lemma_position_but_metadata(x, y, instance_id);
        assert(b[0] == (HaMemberModel { metadata_json: b[0].metadata_json, ..a[0] }));
    }
}

/// The overview shows neither the metadata of members nor the texts of target
/// errors: clusters that differ in these alone look the same.
pub proof fn law_private_texts_are_not_shown(
    runtime: RuntimeModel,
    coordinator: crate::ha_coordination::CoordinatorModel,
    own_metadata: Seq<char>,
    leases: LeasesModel,
    members: Seq<HaMemberModel>,
    jobs: Seq<JobLeaseModel>,
    ports: Seq<PublicPortLeaseModel>,
    targets: Seq<TargetHealthModel>,
    other_targets: Seq<TargetHealthModel>,
    backend: StorageBackend,
    now: u64,
)
    requires
        same_but_metadata(leases.members, members),
        same_but_error_texts(targets, other_targets),
    ensures
        overview(runtime, coordinator, leases, jobs, ports, targets, backend, now) == overview(
            runtime,
            crate::ha_coordination::CoordinatorModel { metadata_json: own_metadata, ..coordinator },
            LeasesModel { members, ..leases },
            jobs,
            ports,
            other_targets,
            backend,
            now,
        ),
{
    let other = LeasesModel { members, ..leases };
    lemma_active_but_metadata(leases.members, members, now);
    if leases.leader is Some {
        let id = leases.leader->0.instance_id;
        lemma_position_but_metadata(leases.members, members, id);
        let i = member_position(members, id);
        if i < members.len() {
            assert(members[i] == (HaMemberModel {
                metadata_json: members[i].metadata_json,
                ..leases.members[i]
            }));
        }
    }
    assert(leader_now(leases, now) == leader_now(other, now));
    let a = active_list(leases.members, now);
    let b = active_list(members, now);
    let leader = leader_now(leases, now);
    let x = shown_members(a, now, coordinator.instance_id, coordinator.incarnation_id, leader);
    let y = shown_members(b, now, coordinator.instance_id, coordinator.incarnation_id, leader);
    assert forall|i: int| 0 <= i < x.len() implies x[i] == y[i] by {
        assert(b[i] == (HaMemberModel { metadata_json: b[i].metadata_json, ..a[i] }));
    }
    assert(x =~= y);
    let p = targets.map_values(|x: TargetHealthModel| shown_target(x));
    let q = other_targets.map_values(|x: TargetHealthModel| shown_target(x));
    assert forall|i: int| 0 <= i < p.len() implies p[i] == q[i] by {
        assert(other_targets[i] == (TargetHealthModel {
            last_error_summary: other_targets[i].last_error_summary,
            ..targets[i]
        }));
    }
    assert(p =~= q);
}

/// What remains of a lease is the time to its end, and nothing once it has ended.
pub proof fn law_remaining_time_runs_out(until: u64, now: u64)
    ensures
        now <= until ==> now + remaining(until, now) == until,
        now > until ==> remaining(until, now) == 0,
{
}

/// A member is shown with its own data and marked as the current instance and as the
/// leader exactly if both its instance and its incarnation are those.
pub proof fn law_members_are_shown_as_they_are(
    m: HaMemberModel,
    now: u64,
    instance_id: Seq<char>,
    incarnation_id: Seq<char>,
    leader: Option<LeadershipLeaseModel>,
)
    ensures
        ({
            let v = shown_member(m, now, instance_id, incarnation_id, leader);
            &&& v.instance_id == m.instance_id && v.incarnation_id == m.incarnation_id
            &&& v.started_unix_seconds == m.started_unix_seconds && v.last_seen_unix_seconds
                == m.last_seen_unix_seconds && v.lease_until_unix_seconds
                == m.lease_until_unix_seconds
            &&& now <= m.lease_until_unix_seconds ==> now + v.lease_remaining_seconds
                == m.lease_until_unix_seconds
            &&& v.is_current_instance <==> m.instance_id == instance_id && m.incarnation_id
                == incarnation_id
            &&& v.is_leader <==> leader is Some && leader->0.instance_id == m.instance_id
                && leader->0.incarnation_id == m.incarnation_id
        }),
{
}

/// Leases of leaders, jobs and ports are shown with their own data and the time that
/// remains.
pub proof fn law_leases_are_shown_as_they_are(
    l: LeadershipLeaseModel,
    j: JobLeaseModel,
    p: PublicPortLeaseModel,
    now: u64,
)
    ensures
        ({
            let v = shown_leader(l, now);
            &&& v.instance_id == l.instance_id && v.incarnation_id == l.incarnation_id
            &&& v.fencing_token == l.fencing_token && v.acquired_unix_seconds
                == l.acquired_unix_seconds && v.renewed_unix_seconds == l.renewed_unix_seconds
                && v.lease_until_unix_seconds == l.lease_until_unix_seconds
            &&& v.lease_remaining_seconds == remaining(l.lease_until_unix_seconds, now)
        }),
        ({
            let v = shown_job(j, now);
            &&& v.job_key == j.job_key && v.job_kind == j.job_kind && v.lease_id == hyphenated(
                j.lease_id,
            )
            &&& v.owner_instance_id == j.owner_instance_id && v.owner_incarnation_id
                == j.owner_incarnation_id && v.fencing_token == j.fencing_token
            &&& v.acquired_unix_seconds == j.acquired_unix_seconds && v.renewed_unix_seconds
                == j.renewed_unix_seconds && v.lease_until_unix_seconds
                == j.lease_until_unix_seconds
            &&& v.lease_remaining_seconds == remaining(j.lease_until_unix_seconds, now)
            &&& v.last_completed_unix_seconds == j.last_completed_unix_seconds
                && v.last_error_code == j.last_error_code
        }),
        ({
            let v = shown_port(p, now);
            &&& v.protocol == p.protocol && v.public_port == p.public_port
            &&& v.lease_id == hyphenated(p.lease_id) && v.policy_id == hyphenated(p.policy_id)
            &&& v.owner_instance_id == p.owner_instance_id && v.owner_incarnation_id
                == p.owner_incarnation_id && v.fencing_token == p.fencing_token
            &&& v.acquired_unix_seconds == p.acquired_unix_seconds && v.renewed_unix_seconds
                == p.renewed_unix_seconds && v.lease_until_unix_seconds
                == p.lease_until_unix_seconds
            &&& v.lease_remaining_seconds == remaining(p.lease_until_unix_seconds, now)
        }),
{
}

/// A target is shown with its own data; of its error, only that there is one.
pub proof fn law_targets_are_shown_as_they_are(x: TargetHealthModel, e: HaRuntimeEventModel)
    ensures
        ({
            let v = shown_target(x);
            &&& v.target_key == x.target_key && v.member_alive == x.member_alive
            &&& v.control_channel_healthy == x.control_channel_healthy && v.application_healthy
                == x.application_healthy && v.effective_healthy == x.effective_healthy
            &&& v.consecutive_successes == x.consecutive_successes && v.consecutive_failures
                == x.consecutive_failures && v.weight == x.weight && v.revision == x.revision
            &&& v.last_probe_unix_seconds == x.last_probe_unix_seconds
                && v.last_transition_unix_seconds == x.last_transition_unix_seconds
            &&& v.has_error <==> x.last_error_summary is Some
        }),
        ({
            let v = shown_event(e);
            &&& v.at_unix_seconds == e.at_unix_seconds && v.code == e.code && v.severity
                == e.severity && v.message == e.message && v.fencing_token == e.fencing_token
        }),
{
}

/// Every healthy target is counted as such and every one with an error as such, once.
pub proof fn law_targets_are_counted_once(
    s: Seq<TargetHealthViewModel>,
    x: TargetHealthViewModel,
)
    ensures
        healthy_count(Seq::empty()) == 0 && error_count(Seq::empty()) == 0,
        x.effective_healthy ==> healthy_count(s.push(x)) == healthy_count(s) + 1,
        !x.effective_healthy ==> healthy_count(s.push(x)) == healthy_count(s),
        x.has_error ==> error_count(s.push(x)) == error_count(s) + 1,
        !x.has_error ==> error_count(s.push(x)) == error_count(s),
{
    assert(s.push(x).drop_last() =~= s);
}

/// The overview shows the active members, the standing leader, all jobs, ports and
/// targets, and the 24 latest events. Which mode it names follows from the storage.
pub proof fn law_overviews_show_all_there_is(
    runtime: RuntimeModel,
    coordinator: crate::ha_coordination::CoordinatorModel,
    leases: LeasesModel,
    jobs: Seq<JobLeaseModel>,
    ports: Seq<PublicPortLeaseModel>,
    targets: Seq<TargetHealthModel>,
    backend: StorageBackend,
    now: u64,
    i: int,
)
    ensures
        ({
            let o = overview(runtime, coordinator, leases, jobs, ports, targets, backend, now);
            let active = active_list(leases.members, now);
            let stands = leader_stands(leases, now);
            &&& o.backend == backend
            &&& o.mode is PostgresHa <==> backend is Postgres
            &&& o.replicated_state <==> backend is Postgres
            &&& o.generated_unix_seconds == now
            &&& o.instance_id == coordinator.instance_id && o.incarnation_id
                == coordinator.incarnation_id
            &&& o.local_is_leader == runtime.leader
            &&& runtime.leadership is Some ==> o.local_fencing_token == Some(
                runtime.leadership->0.fencing_token,
            )
            &&& runtime.leadership is None ==> o.local_fencing_token is None
            &&& o.current_leader is Some <==> stands
            &&& stands ==> o.current_leader->0.instance_id == leases.leader->0.instance_id
                && o.current_leader->0.fencing_token == leases.leader->0.fencing_token
            &&& o.members.len() == active.len()
            &&& 0 <= i < active.len() ==> {
                let v = o.members[i];
                &&& v.instance_id == active[i].instance_id && v.incarnation_id
                    == active[i].incarnation_id
                &&& v.lease_until_unix_seconds == active[i].lease_until_unix_seconds
                &&& v.is_current_instance <==> active[i].instance_id == coordinator.instance_id
                    && active[i].incarnation_id == coordinator.incarnation_id
                &&& v.is_leader <==> stands && leases.leader->0.instance_id
                    == active[i].instance_id && leases.leader->0.incarnation_id
                    == active[i].incarnation_id
            }
            &&& o.job_leases.len() == jobs.len() && o.port_ownership.len() == ports.len()
                && o.target_health.targets.len() == targets.len()
            &&& 0 <= i < jobs.len() ==> o.job_leases[i] == shown_job(jobs[i], now)
            &&& 0 <= i < ports.len() ==> o.port_ownership[i] == shown_port(ports[i], now)
            &&& 0 <= i < targets.len() ==> o.target_health.targets[i] == shown_target(targets[i])
            &&& runtime.events.len() <= 24 ==> o.recent_events.len() == runtime.events.len()
            &&& runtime.events.len() > 24 ==> o.recent_events.len() == 24
            &&& 0 <= i < o.recent_events.len() ==> o.recent_events[i] == shown_event(
                runtime.events[i],
            )
        }),
{
}

/// The own membership is the first member that is marked as the current instance, and
/// none where there is no such.
pub proof fn law_the_own_membership_is_shown(s: Seq<HaMemberViewModel>)
    ensures
        own_member(s) is None <==> forall|i: int|
            0 <= i < s.len() ==> !(#[trigger] s[i]).is_current_instance,
        own_member(s) is Some ==> own_member(s)->0.is_current_instance && s.contains(
            own_member(s)->0,
        ),
    decreases s.len(),
{
    if s.len() > 0 {
        if s[0].is_current_instance {
            assert(s.contains(s[0]));
        } else {
            let t = s.drop_first();
            law_the_own_membership_is_shown(t);
            if own_member(s) is None {
                assert forall|i: int| 0 <= i < s.len() implies !(
                #[trigger] s[i]).is_current_instance by {
                    if i > 0 {
                        assert(t[i - 1] == s[i]);
                    }
                }
            } else {
                let j = choose|j: int| 0 <= j < t.len() && t[j] == own_member(t)->0;
                assert(s[j + 1] == t[j]);
                assert(s[j + 1].is_current_instance);
            }
        }
    }
}

/// Recovery ends the lease of every port and changes nothing else of it.
pub proof fn law_recovery_ends_every_port(ports: Seq<PublicPortLeaseModel>, i: int)
    ensures
        ended_ports(ports).len() == ports.len(),
        0 <= i < ports.len() ==> ended_ports(ports)[i] == (PublicPortLeaseModel {
            lease_until_unix_seconds: 0,
            ..ports[i]
        }),
{
}

} // verus!
