//! The high-availability runtime of a process: its settings, what a heartbeat
//! makes of its leadership, and its recent events.

use crate::ha_coordination::{
    CoordinatorModel, HaCoordinator, HaError, HaLeases, HaMember, HaMemberModel, LeadershipLease,
    LeadershipLeaseModel, LeasesModel, acquisition, find_member, registration, renewed, stored_time,
    with_member,
};
use crate::number::{decimal, parse_number, parsed_number, push_decimal};
use crate::text::{chars_of, opt_view, string_of, trim, trimmed};
use std::collections::VecDeque;
use vstd::prelude::*;
use vstd::string::*;

verus! {

/// How many events are kept.
pub const RUNTIME_EVENT_CAPACITY: usize = 64;

// ---------------------------------------------------------------------------
// Settings
// ---------------------------------------------------------------------------

/// The settings of the environment, where they are given.
#[derive(Debug)]
pub struct HaEnvironment {
    pub instance_id: Option<String>,
    pub metadata_json: Option<String>,
    pub member_lease: Option<String>,
    pub leader_lease: Option<String>,
    pub heartbeat: Option<String>,
    pub resource_lease: Option<String>,
    pub job_lease: Option<String>,
    pub target_success_threshold: Option<String>,
    pub target_failure_threshold: Option<String>,
    pub target_stale_after: Option<String>,
}

pub struct EnvironmentModel {
    pub instance_id: Option<Seq<char>>,
    pub metadata_json: Option<Seq<char>>,
    pub member_lease: Option<Seq<char>>,
    pub leader_lease: Option<Seq<char>>,
    pub heartbeat: Option<Seq<char>>,
    pub resource_lease: Option<Seq<char>>,
    pub job_lease: Option<Seq<char>>,
    pub target_success_threshold: Option<Seq<char>>,
    pub target_failure_threshold: Option<Seq<char>>,
    pub target_stale_after: Option<Seq<char>>,
}

impl View for HaEnvironment {
    type V = EnvironmentModel;

    open spec fn view(&self) -> EnvironmentModel {
        EnvironmentModel {
            instance_id: opt_view(self.instance_id),
            metadata_json: opt_view(self.metadata_json),
            member_lease: opt_view(self.member_lease),
            leader_lease: opt_view(self.leader_lease),
            heartbeat: opt_view(self.heartbeat),
            resource_lease: opt_view(self.resource_lease),
            job_lease: opt_view(self.job_lease),
            target_success_threshold: opt_view(self.target_success_threshold),
            target_failure_threshold: opt_view(self.target_failure_threshold),
            target_stale_after: opt_view(self.target_stale_after),
        }
    }
}

/// The settings of a process. Times are in seconds.
#[derive(Clone, Debug, PartialEq, Eq)]
pub struct HaRuntimeConfig {
    pub instance_id: String,
    pub metadata_json: String,
    pub member_lease: u64,
    pub leader_lease: u64,
    pub heartbeat: u64,
    pub resource_lease: u64,
    pub job_lease: u64,
    pub target_success_threshold: u32,
    pub target_failure_threshold: u32,
    pub target_stale_after: u64,
}

/// What a [`HaRuntimeConfig`] says.
pub struct HaRuntimeConfigModel {
    pub instance_id: Seq<char>,
    pub metadata_json: Seq<char>,
    pub member_lease: u64,
    pub leader_lease: u64,
    pub heartbeat: u64,
    pub resource_lease: u64,
    pub job_lease: u64,
    pub target_success_threshold: u32,
    pub target_failure_threshold: u32,
    pub target_stale_after: u64,
}

impl View for HaRuntimeConfig {
    type V = HaRuntimeConfigModel;

    open spec fn view(&self) -> HaRuntimeConfigModel {
        HaRuntimeConfigModel {
            instance_id: self.instance_id@,
            metadata_json: self.metadata_json@,
            member_lease: self.member_lease,
            leader_lease: self.leader_lease,
            heartbeat: self.heartbeat,
            resource_lease: self.resource_lease,
            job_lease: self.job_lease,
            target_success_threshold: self.target_success_threshold,
            target_failure_threshold: self.target_failure_threshold,
            target_stale_after: self.target_stale_after,
        }
    }
}

/// A trimmed text, or a default where it is blank or missing.
pub open spec fn text_or(value: Option<Seq<char>>, default_text: Seq<char>) -> Seq<char> {
    if value is Some && trim(value->0).len() > 0 {
        trim(value->0)
    } else {
        default_text
    }
}

/// A number within bounds, a default where it is missing, or the text of a
/// refusal.
pub open spec fn bounded(
    name: Seq<char>,
    value: Option<Seq<char>>,
    default_value: nat,
    minimum: nat,
    maximum: nat,
    largest: nat,
    unit: Seq<char>,
) -> Result<nat, Seq<char>> {
    let number = match value {
        Some(s) => parsed_number(trim(s), 10, largest),
        None => Some(default_value),
    };
    match number {
        None => Err(name + " must be an integer"@),
        Some(n) => if minimum <= n <= maximum {
            Ok(n)
        } else {
            Err(
                name + " must be between "@ + decimal(minimum) + " and "@ + decimal(maximum) + unit,
            )
        },
    }
}

/// A time within bounds.
pub open spec fn seconds_of(
    name: Seq<char>,
    value: Option<Seq<char>>,
    default_seconds: nat,
    minimum: nat,
    maximum: nat,
) -> Result<nat, Seq<char>> {
    bounded(name, value, default_seconds, minimum, maximum, u64::MAX as nat, " seconds"@)
}

/// A count within bounds.
pub open spec fn count_of(
    name: Seq<char>,
    value: Option<Seq<char>>,
    default_value: nat,
    minimum: nat,
    maximum: nat,
) -> Result<nat, Seq<char>> {
    bounded(name, value, default_value, minimum, maximum, u32::MAX as nat, ""@)
}

/// The settings of a process, or the first thing wrong with them.
pub open spec fn configured(env: EnvironmentModel, default_instance_id: Seq<char>) -> Result<
    HaRuntimeConfigModel,
    Seq<char>,
> {
    match seconds_of("LINKLAKE_HA_MEMBER_LEASE_SECONDS"@, env.member_lease, 30, 5, 300) {
        Err(error) => Err(error),
        Ok(member_lease) => match seconds_of("LINKLAKE_HA_LEADER_LEASE_SECONDS"@, env.leader_lease, 15, 3, 120) {
            Err(error) => Err(error),
            Ok(leader_lease) => match seconds_of("LINKLAKE_HA_HEARTBEAT_SECONDS"@, env.heartbeat, 5, 1, 60) {
                Err(error) => Err(error),
                Ok(heartbeat) => match seconds_of("LINKLAKE_HA_RESOURCE_LEASE_SECONDS"@, env.resource_lease, 15, 2, 300) {
                    Err(error) => Err(error),
                    Ok(resource_lease) => match seconds_of("LINKLAKE_HA_JOB_LEASE_SECONDS"@, env.job_lease, 30, 2, 300) {
                        Err(error) => Err(error),
                        Ok(job_lease) => if leader_lease > member_lease {
                            Err("HA leader lease must not exceed member lease"@)
                        } else if heartbeat >= leader_lease || heartbeat >= member_lease || heartbeat
                            >= resource_lease || heartbeat >= job_lease {
                            Err(
                                "HA heartbeat must be shorter than member, leader, resource, and job leases"@,
                            )
                        } else {
                            match count_of("LINKLAKE_TARGET_HEALTH_SUCCESS_THRESHOLD"@, env.target_success_threshold, 2, 1, 1000) {
                                Err(error) => Err(error),
                                Ok(target_success_threshold) => match count_of("LINKLAKE_TARGET_HEALTH_FAILURE_THRESHOLD"@, env.target_failure_threshold, 3, 1, 1000) {
                                    Err(error) => Err(error),
                                    Ok(target_failure_threshold) => match seconds_of("LINKLAKE_TARGET_HEALTH_STALE_SECONDS"@, env.target_stale_after, 30, 1, 86400) {
                                        Err(error) => Err(error),
                                        Ok(target_stale_after) => Ok(
                                            HaRuntimeConfigModel {
                                                instance_id: text_or(env.instance_id, default_instance_id),
                                                metadata_json: text_or(env.metadata_json, "{}"@),
                                                member_lease: member_lease as u64,
                                                leader_lease: leader_lease as u64,
                                                heartbeat: heartbeat as u64,
                                                resource_lease: resource_lease as u64,
                                                job_lease: job_lease as u64,
                                                target_success_threshold: target_success_threshold as u32,
                                                target_failure_threshold: target_failure_threshold as u32,
                                                target_stale_after: target_stale_after as u64,
                                            },
                                        ),
                                    },
                                },
                            }
                        },
                    },
                },
            },
        },
    }
}

fn text_or_default(value: &Option<String>, default_text: &str) -> (r: String)
    ensures
        r@ == text_or(opt_view(*value), default_text@),
{
    if let Some(value) = value {
        let s = trimmed(&chars_of(value.as_str()));
        if s.len() > 0 {
            return string_of(&s);
        }
    }
    default_text.to_owned()
}

fn parse_bounded(
    name: &str,
    value: &Option<String>,
    default_value: u64,
    minimum: u64,
    maximum: u64,
    largest: u64,
    unit: &str,
) -> (r: Result<u64, String>)
    ensures
        match bounded(
            name@,
            opt_view(*value),
            default_value as nat,
            minimum as nat,
            maximum as nat,
            largest as nat,
            unit@,
        ) {
            Ok(n) => r is Ok && r->Ok_0 == n,
            Err(error) => r is Err && r->Err_0@ == error,
        },
{
    let number: u64 = match value {
        None => default_value,
        Some(value) => match parse_number(&trimmed(&chars_of(value.as_str())), 10, largest) {
            Some(n) => n,
            None => {
                let mut out = name.to_owned();
                out.append(" must be an integer");
                return Err(out);
            },
        },
    };
    if minimum <= number && number <= maximum {
        Ok(number)
    } else {
        let mut out = name.to_owned();
        out.append(" must be between ");
        push_decimal(&mut out, minimum);
        out.append(" and ");
        push_decimal(&mut out, maximum);
        out.append(unit);
        Err(out)
    }
}

/// A time within bounds, in seconds.
pub fn parse_duration(
    name: &str,
    value: &Option<String>,
    default_seconds: u64,
    minimum_seconds: u64,
    maximum_seconds: u64,
) -> (r: Result<u64, String>)
    ensures
        match seconds_of(
            name@,
            opt_view(*value),
            default_seconds as nat,
            minimum_seconds as nat,
            maximum_seconds as nat,
        ) {
            Ok(n) => r is Ok && r->Ok_0 == n,
            Err(error) => r is Err && r->Err_0@ == error,
        },
{
    parse_bounded(
        name,
        value,
        default_seconds,
        minimum_seconds,
        maximum_seconds,
        0xffff_ffff_ffff_ffff,
        " seconds",
    )
}

/// A count within bounds.
pub fn parse_u32(
    name: &str,
    value: &Option<String>,
    default_value: u32,
    minimum: u32,
    maximum: u32,
) -> (r: Result<u32, String>)
    ensures
        match count_of(
            name@,
            opt_view(*value),
            default_value as nat,
            minimum as nat,
            maximum as nat,
        ) {
            Ok(n) => r is Ok && r->Ok_0 == n,
            Err(error) => r is Err && r->Err_0@ == error,
        },
{
    match parse_bounded(
        name,
        value,
        default_value as u64,
        minimum as u64,
        maximum as u64,
        0xffff_ffff,
        "",
    ) {
        Ok(n) => Ok(n as u32),
        Err(error) => Err(error),
    }
}

impl HaRuntimeConfig {
    /// The settings of a process.
    pub fn from_environment(env: &HaEnvironment, default_instance_id: &str) -> (r: Result<
        Self,
        String,
    >)
        ensures
            match configured(env@, default_instance_id@) {
                Ok(c) => r is Ok && r->Ok_0@ == c,
                Err(error) => r is Err && r->Err_0@ == error,
            },
    {
        let instance_id = text_or_default(&env.instance_id, default_instance_id);
        let metadata_json = text_or_default(&env.metadata_json, "{}");
        let member_lease: u64 = match parse_duration("LINKLAKE_HA_MEMBER_LEASE_SECONDS", &env.member_lease, 30, 5, 300) {
            Ok(n) => n,
            Err(error) => {
                return Err(error);
            },
        };
        let leader_lease: u64 = match parse_duration("LINKLAKE_HA_LEADER_LEASE_SECONDS", &env.leader_lease, 15, 3, 120) {
            Ok(n) => n,
            Err(error) => {
                return Err(error);
            },
        };
        let heartbeat: u64 = match parse_duration("LINKLAKE_HA_HEARTBEAT_SECONDS", &env.heartbeat, 5, 1, 60) {
            Ok(n) => n,
            Err(error) => {
                return Err(error);
            },
        };
        let resource_lease: u64 = match parse_duration("LINKLAKE_HA_RESOURCE_LEASE_SECONDS", &env.resource_lease, 15, 2, 300) {
            Ok(n) => n,
            Err(error) => {
                return Err(error);
            },
        };
        let job_lease: u64 = match parse_duration("LINKLAKE_HA_JOB_LEASE_SECONDS", &env.job_lease, 30, 2, 300) {
            Ok(n) => n,
            Err(error) => {
                return Err(error);
            },
        };
        if leader_lease > member_lease {
            return Err("HA leader lease must not exceed member lease".to_owned());
        }
        if heartbeat >= leader_lease || heartbeat >= member_lease || heartbeat >= resource_lease
            || heartbeat >= job_lease {
            return Err(
                "HA heartbeat must be shorter than member, leader, resource, and job leases".to_owned(),
            );
        }
        let target_success_threshold: u32 = match parse_u32("LINKLAKE_TARGET_HEALTH_SUCCESS_THRESHOLD", &env.target_success_threshold, 2, 1, 1000) {
            Ok(n) => n,
            Err(error) => {
                return Err(error);
            },
        };
        let target_failure_threshold: u32 = match parse_u32("LINKLAKE_TARGET_HEALTH_FAILURE_THRESHOLD", &env.target_failure_threshold, 3, 1, 1000) {
            Ok(n) => n,
            Err(error) => {
                return Err(error);
            },
        };
        let target_stale_after: u64 = match parse_duration("LINKLAKE_TARGET_HEALTH_STALE_SECONDS", &env.target_stale_after, 30, 1, 86400) {
            Ok(n) => n,
            Err(error) => {
                return Err(error);
            },
        };
        Ok(
            HaRuntimeConfig {
                instance_id,
                metadata_json,
                member_lease,
                leader_lease,
                heartbeat,
                resource_lease,
                job_lease,
                target_success_threshold,
                target_failure_threshold,
                target_stale_after,
            },
        )
    }
}

/// Accepted settings let several heartbeats fall into every lease, and a leader
/// never outlives its membership. Their leases are ones that a coordinator
/// accepts.
pub proof fn law_heartbeats_keep_leases(env: EnvironmentModel, default_instance_id: Seq<char>)
    requires
        configured(env, default_instance_id) is Ok,
    ensures
        ({
            let c = configured(env, default_instance_id)->Ok_0;
            &&& 0 < c.heartbeat < c.leader_lease <= c.member_lease
            &&& c.heartbeat < c.resource_lease
            &&& c.heartbeat < c.job_lease
            &&& c.target_success_threshold > 0
            &&& c.target_failure_threshold > 0
            &&& crate::ha_coordination::lease_error(
                c.member_lease,
                "member"@,
                crate::ha_coordination::MAX_MEMBER_LEASE_SECONDS,
            ) is None
            &&& crate::ha_coordination::lease_error(
                c.leader_lease,
                "leader"@,
                crate::ha_coordination::MAX_LEADER_LEASE_SECONDS,
            ) is None
        }),
{
}

// ---------------------------------------------------------------------------
// Leadership
// ---------------------------------------------------------------------------

/// Something that happened to the leadership of this process.
#[derive(Clone, Debug, PartialEq, Eq)]
pub struct HaRuntimeEvent {
    pub at_unix_seconds: u64,
    pub code: String,
    pub severity: String,
    pub message: String,
    pub fencing_token: Option<u64>,
}

/// What a [`HaRuntimeEvent`] says.
pub struct HaRuntimeEventModel {
    pub at_unix_seconds: u64,
    pub code: Seq<char>,
    pub severity: Seq<char>,
    pub message: Seq<char>,
    pub fencing_token: Option<u64>,
}

impl View for HaRuntimeEvent {
    type V = HaRuntimeEventModel;

    open spec fn view(&self) -> HaRuntimeEventModel {
        HaRuntimeEventModel {
            at_unix_seconds: self.at_unix_seconds,
            code: self.code@,
            severity: self.severity@,
            message: self.message@,
            fencing_token: self.fencing_token,
        }
    }
}

impl HaRuntimeEvent {
    /// A copy of the value.
    pub fn duplicate(&self) -> (r: Self)
        ensures
            r@ == self@,
    {
        let r = HaRuntimeEvent {
            at_unix_seconds: self.at_unix_seconds,
            code: self.code.clone(),
            severity: self.severity.clone(),
            message: self.message.clone(),
            fencing_token: self.fencing_token,
        };
        r
    }

    /// Copies of a list of values.
    pub fn duplicate_all(v: &Vec<Self>) -> (r: Vec<Self>)
        ensures
            r@.map_values(|x: Self| x@) == v@.map_values(|x: Self| x@),
    {
        let mut out: Vec<Self> = Vec::new();
        let mut i: usize = 0;
        while i < v.len()
            invariant
                i <= v@.len(),
                out@.len() == i,
                forall|j: int| 0 <= j < i ==> (#[trigger] out@[j])@ == v@[j]@,
            decreases v@.len() - i,
        {
            out.push(v[i].duplicate());
            i = i + 1;
        }
        assert(out@.map_values(|x: Self| x@) =~= v@.map_values(|x: Self| x@));
        out
    }
}

pub open spec fn acquired_event(at: u64, fencing_token: Option<u64>) -> HaRuntimeEventModel {
    HaRuntimeEventModel {
        at_unix_seconds: at,
        code: "leader_acquired"@,
        severity: "info"@,
        message: "HA leadership acquired"@,
        fencing_token,
    }
}

pub open spec fn follower_event(at: u64) -> HaRuntimeEventModel {
    HaRuntimeEventModel {
        at_unix_seconds: at,
        code: "follower_started"@,
        severity: "info"@,
        message: "HA instance is a follower"@,
        fencing_token: None,
    }
}

pub open spec fn lost_event(at: u64, fencing_token: Option<u64>) -> HaRuntimeEventModel {
    HaRuntimeEventModel {
        at_unix_seconds: at,
        code: "leader_lost"@,
        severity: "warning"@,
        message: "HA leadership was lost and mutating work is fenced"@,
        fencing_token,
    }
}

pub open spec fn failed_event(at: u64) -> HaRuntimeEventModel {
    HaRuntimeEventModel {
        at_unix_seconds: at,
        code: "heartbeat_failed"@,
        severity: "warning"@,
        message: "HA heartbeat failed; leadership was cleared"@,
        fencing_token: None,
    }
}

pub open spec fn timeout_event(at: u64) -> HaRuntimeEventModel {
    HaRuntimeEventModel {
        at_unix_seconds: at,
        code: "heartbeat_timeout"@,
        severity: "warning"@,
        message: "HA heartbeat timed out; leadership was cleared"@,
        fencing_token: None,
    }
}

pub open spec fn maintenance_event(at: u64) -> HaRuntimeEventModel {
    HaRuntimeEventModel {
        at_unix_seconds: at,
        code: "lease_maintenance_failed"@,
        severity: "warning"@,
        message: "Expired HA lease maintenance batch failed"@,
        fencing_token: None,
    }
}

/// What a heartbeat made of the leadership of this process.
#[derive(Clone, Copy, Debug, PartialEq, Eq, Structural)]
pub enum LeadershipTransition {
    Gained,
    Retained,
    Lost,
    Follower,
}

pub open spec fn transition_between(before: bool, after: bool) -> LeadershipTransition {
    if before {
        if after {
            LeadershipTransition::Retained
        } else {
            LeadershipTransition::Lost
        }
    } else if after {
        LeadershipTransition::Gained
    } else {
        LeadershipTransition::Follower
    }
}

pub open spec fn token_of(lease: Option<LeadershipLeaseModel>) -> Option<u64> {
    match lease {
        Some(l) => Some(l.fencing_token),
        None => None,
    }
}

pub open spec fn event_models(v: Seq<HaRuntimeEvent>) -> Seq<HaRuntimeEventModel> {
    v.map_values(|x: HaRuntimeEvent| x@)
}

pub open spec fn opt_lease(v: Option<LeadershipLease>) -> Option<LeadershipLeaseModel> {
    match v {
        Some(x) => Some(x@),
        None => None,
    }
}

/// The leadership of this process and its recent events, the newest first.
#[derive(Debug)]
pub struct HaRuntime {
    leadership: Option<LeadershipLease>,
    leader: bool,
    fencing_token: u64,
    events: VecDeque<HaRuntimeEvent>,
}

pub struct RuntimeModel {
    pub leadership: Option<LeadershipLeaseModel>,
    pub leader: bool,
    pub fencing_token: u64,
    pub events: Seq<HaRuntimeEventModel>,
}

impl View for HaRuntime {
    type V = RuntimeModel;

    closed spec fn view(&self) -> RuntimeModel {
        RuntimeModel {
            leadership: opt_lease(self.leadership),
            leader: self.leader,
            fencing_token: self.fencing_token,
            events: event_models(self.events@),
        }
    }
}

/// The flags follow the lease, and the history is bounded.
pub open spec fn runtime_valid(m: RuntimeModel) -> bool {
    &&& m.leader == (m.leadership is Some)
    &&& m.fencing_token == match m.leadership {
        Some(l) => l.fencing_token,
        None => 0,
    }
    &&& m.events.len() <= RUNTIME_EVENT_CAPACITY
}

/// The runtime under a lease, or without one.
pub open spec fn published(m: RuntimeModel, lease: Option<LeadershipLeaseModel>) -> RuntimeModel {
    RuntimeModel {
        leadership: lease,
        leader: lease is Some,
        fencing_token: match lease {
            Some(l) => l.fencing_token,
            None => 0,
        },
        ..m
    }
}

/// The runtime with one more event.
pub open spec fn noted(m: RuntimeModel, event: HaRuntimeEventModel) -> RuntimeModel {
    let all = seq![event] + m.events;
    RuntimeModel {
        events: if all.len() > RUNTIME_EVENT_CAPACITY {
            all.take(RUNTIME_EVENT_CAPACITY as int)
        } else {
            all
        },
        ..m
    }
}

/// The runtime after the first try for leadership.
pub open spec fn bootstrapped(m: RuntimeModel, lease: Option<LeadershipLeaseModel>, at: u64) -> RuntimeModel {
    noted(
        published(m, lease),
        match lease {
            Some(l) => acquired_event(at, Some(l.fencing_token)),
            None => follower_event(at),
        },
    )
}

/// The runtime after a later try for leadership.
pub open spec fn refreshed(m: RuntimeModel, lease: Option<LeadershipLeaseModel>, at: u64) -> RuntimeModel {
    match transition_between(m.leadership is Some, lease is Some) {
        LeadershipTransition::Gained => noted(
            published(m, lease),
            acquired_event(at, token_of(lease)),
        ),
        LeadershipTransition::Lost => noted(
            published(m, lease),
            lost_event(at, token_of(m.leadership)),
        ),
        _ => published(m, lease),
    }
}

/// What a heartbeat does about leadership: a leader renews its lease, and
/// another process tries for leadership.
pub open spec fn attempt(
    t: LeasesModel,
    c: CoordinatorModel,
    held: Option<LeadershipLeaseModel>,
    now: u64,
) -> Result<(LeasesModel, Option<LeadershipLeaseModel>), HaError> {
    match held {
        Some(l) => renewed(t, c, l.fencing_token, now),
        None => acquisition(t, c, now),
    }
}

/// The leases after this process has renewed its membership.
pub open spec fn joined(t: LeasesModel, c: CoordinatorModel, now: u64) -> Result<
    (LeasesModel, HaMemberModel),
    HaError,
> {
    match registration(c, find_member(t.members, c.instance_id), now) {
        Ok(m) => Ok((LeasesModel { members: with_member(t.members, m), ..t }, m)),
        Err(error) => Err(error),
    }
}

impl HaRuntime {
    /// The runtime of a process that has not yet tried to lead.
    pub fn open() -> (r: Self)
        ensures
            r@ == (RuntimeModel {
                leadership: None,
                leader: false,
                fencing_token: 0,
                events: Seq::empty(),
            }),
            runtime_valid(r@),
    {
        let r = HaRuntime { leadership: None, leader: false, fencing_token: 0, events: VecDeque::new() };
        assert(r@.events =~= Seq::empty());
        r
    }

    fn record_event(
        &mut self,
        at: u64,
        code: &str,
        severity: &str,
        message: &str,
        fencing_token: Option<u64>,
    )
        ensures
            final(self)@ == noted(
                old(self)@,
                (HaRuntimeEventModel {
                    at_unix_seconds: at,
                    code: code@,
                    severity: severity@,
                    message: message@,
                    fencing_token,
                }),
            ),
    {
        let event = HaRuntimeEvent {
            at_unix_seconds: at,
            code: code.to_owned(),
            severity: severity.to_owned(),
            message: message.to_owned(),
            fencing_token,
        };
        let ghost before = self@.events;
        let ghost em = event@;
        self.events.push_front(event);
        assert(event_models(self.events@) =~= seq![em] + before);
        let ghost all = event_models(self.events@);
        if self.events.len() > RUNTIME_EVENT_CAPACITY {
            self.events.truncate(RUNTIME_EVENT_CAPACITY);
            assert(event_models(self.events@) =~= all.take(RUNTIME_EVENT_CAPACITY as int));
        }
    }

    /// Gives leadership up and returns whether this process had it.
    pub fn clear_leadership(&mut self) -> (r: bool)
        ensures
            r == old(self)@.leader,
            final(self)@ == published(old(self)@, None),
    {
        let had_leadership = self.leader;
        self.leader = false;
        self.fencing_token = 0;
        self.leadership = None;
        had_leadership
    }

    fn publish_leadership(&mut self, leadership: Option<LeadershipLease>)
        ensures
            final(self)@ == published(old(self)@, opt_lease(leadership)),
    {
        match leadership {
            Some(lease) => {
                self.fencing_token = lease.fencing_token;
                self.leadership = Some(lease);
                self.leader = true;
            },
            None => {
                self.clear_leadership();
            },
        }
    }

    pub fn is_leader(&self) -> (r: bool)
        ensures
            r == self@.leader,
    {
        self.leader
    }

    /// The lease under which this process leads.
    pub fn leadership(&self) -> (r: Option<LeadershipLease>)
        ensures
            opt_lease(r) == self@.leadership,
    {
        match &self.leadership {
            Some(l) => Some(l.duplicate()),
            None => None,
        }
    }

    /// The token under which this process may write.
    pub fn fencing_token(&self) -> (r: Result<u64, &'static str>)
        ensures
            if self@.leader && self@.fencing_token > 0 {
                r == Ok::<u64, &'static str>(self@.fencing_token)
            } else {
                r is Err && r->Err_0@ == "this LinkLake instance is not the active HA leader"@
            },
    {
        if self.leader && self.fencing_token > 0 {
            Ok(self.fencing_token)
        } else {
            Err("this LinkLake instance is not the active HA leader")
        }
    }

    /// The newest events.
    pub fn recent_events(&self, limit: usize) -> (r: Vec<HaRuntimeEvent>)
        ensures
            event_models(r@) == if self@.events.len() > limit {
                self@.events.take(limit as int)
            } else {
                self@.events
            },
    {
        let mut out: Vec<HaRuntimeEvent> = Vec::new();
        let mut i: usize = 0;
        while i < self.events.len() && i < limit
            invariant
                i <= self.events@.len(),
                i <= limit,
                out@.len() == i,
                forall|j: int| 0 <= j < i ==> (#[trigger] out@[j])@ == self.events@[j]@,
            decreases self.events@.len() - i,
        {
            out.push(self.events[i].duplicate());
            i = i + 1;
        }
        assert(event_models(out@) =~= if self@.events.len() > limit {
            self@.events.take(limit as int)
        } else {
            self@.events
        });
        out
    }

    /// Takes note of how the first try for leadership came out.
    pub fn bootstrap_with(&mut self, leadership: Option<LeadershipLease>, at: u64) -> (r:
        LeadershipTransition)
        ensures
            r == transition_between(false, leadership is Some),
            final(self)@ == bootstrapped(old(self)@, opt_lease(leadership), at),
    {
        let token: Option<u64> = match &leadership {
            Some(l) => Some(l.fencing_token),
            None => None,
        };
        self.publish_leadership(leadership);
        match token {
            Some(_) => {
                self.record_event(at, "leader_acquired", "info", "HA leadership acquired", token);
                LeadershipTransition::Gained
            },
            None => {
                self.record_event(
                    at,
                    "follower_started",
                    "info",
                    "HA instance is a follower",
                    None,
                );
                LeadershipTransition::Follower
            },
        }
    }

    /// Joins the cluster and tries to lead it. `now` is the clock of the leases
    /// and `at` that of this process.
    pub fn bootstrap(
        &mut self,
        coordinator: &HaCoordinator,
        leases: &mut HaLeases,
        now: u64,
        at: u64,
    ) -> (r: Result<(HaMember, LeadershipTransition), HaError>)
        requires
            stored_time(now),
        ensures
            match joined(old(leases)@, coordinator@, now) {
                Err(error) => r is Err && r->Err_0 == error && final(leases)@ == old(leases)@
                    && final(self)@ == old(self)@,
                Ok((t, m)) => match acquisition(t, coordinator@, now) {
                    Err(error) => r is Err && r->Err_0 == error && final(leases)@ == t && final(self)@ == old(self)@,
                    Ok((after, lease)) => r is Ok && r->Ok_0.0@ == m && r->Ok_0.1
                        == transition_between(false, lease is Some) && final(leases)@ == after
                        && final(self)@ == bootstrapped(old(self)@, lease, at),
                },
            },
    {
        let member = match coordinator.register_or_renew_member(leases, now) {
            Ok(member) => member,
            Err(error) => {
                return Err(error);
            },
        };
        match coordinator.try_acquire_leadership(leases, now) {
            Ok(leadership) => {
                let transition = self.bootstrap_with(leadership, at);
                Ok((member, transition))
            },
            Err(error) => Err(error),
        }
    }

    /// Takes note of how a later try for leadership came out.
    pub fn refresh_with(&mut self, next: Option<LeadershipLease>, at: u64) -> (r:
        LeadershipTransition)
        ensures
            r == transition_between(old(self)@.leadership is Some, next is Some),
            final(self)@ == refreshed(old(self)@, opt_lease(next), at),
    {
        let previous: Option<u64> = match &self.leadership {
            Some(l) => Some(l.fencing_token),
            None => None,
        };
        let token: Option<u64> = match &next {
            Some(l) => Some(l.fencing_token),
            None => None,
        };
        self.publish_leadership(next);
        match (previous, token) {
            (None, None) => LeadershipTransition::Follower,
            (None, Some(_)) => {
                self.record_event(at, "leader_acquired", "info", "HA leadership acquired", token);
                LeadershipTransition::Gained
            },
            (Some(_), None) => {
                self.record_event(
                    at,
                    "leader_lost",
                    "warning",
                    "HA leadership was lost and mutating work is fenced",
                    previous,
                );
                LeadershipTransition::Lost
            },
            (Some(_), Some(_)) => LeadershipTransition::Retained,
        }
    }

    /// A heartbeat: renews the membership of this process, and its leadership
    /// or the try for it.
    pub fn refresh(
        &mut self,
        coordinator: &HaCoordinator,
        leases: &mut HaLeases,
        now: u64,
        at: u64,
    ) -> (r: Result<LeadershipTransition, HaError>)
        requires
            stored_time(now),
        ensures
            match joined(old(leases)@, coordinator@, now) {
                Err(error) => r is Err && r->Err_0 == error && final(leases)@ == old(leases)@
                    && final(self)@ == old(self)@,
                Ok((t, m)) => match attempt(t, coordinator@, old(self)@.leadership, now) {
                    Err(error) => r is Err && r->Err_0 == error && final(leases)@ == t && final(self)@ == old(self)@,
                    Ok((after, lease)) => r is Ok && r->Ok_0 == transition_between(
                        old(self)@.leadership is Some,
                        lease is Some,
                    ) && final(leases)@ == after && final(self)@ == refreshed(
                        old(self)@,
                        lease,
                        at,
                    ),
                },
            },
    {
        if let Err(error) = coordinator.register_or_renew_member(leases, now) {
            return Err(error);
        }
        let next = match &self.leadership {
            Some(l) => coordinator.renew_leadership(leases, l.fencing_token, now),
            None => coordinator.try_acquire_leadership(leases, now),
        };
        match next {
            Ok(next) => Ok(self.refresh_with(next, at)),
            Err(error) => Err(error),
        }
    }

    /// Gives leadership up because a heartbeat failed.
    pub fn heartbeat_failed(&mut self, at: u64) -> (r: bool)
        ensures
            r == old(self)@.leader,
            final(self)@ == noted(published(old(self)@, None), failed_event(at)),
    {
        let lost = self.clear_leadership();
        self.record_event(
            at,
            "heartbeat_failed",
            "warning",
            "HA heartbeat failed; leadership was cleared",
            None,
        );
        lost
    }

    /// Gives leadership up because a heartbeat took too long.
    pub fn heartbeat_timed_out(&mut self, at: u64) -> (r: bool)
        ensures
            r == old(self)@.leader,
            final(self)@ == noted(published(old(self)@, None), timeout_event(at)),
    {
        let lost = self.clear_leadership();
        self.record_event(
            at,
            "heartbeat_timeout",
            "warning",
            "HA heartbeat timed out; leadership was cleared",
            None,
        );
        lost
    }

    /// What maintenance of expired leases does next. A failed batch is noted,
    /// and does not end the leadership.
    pub fn advance_maintenance(&mut self, event: MaintenanceEvent, shutdown: bool, at: u64) -> (r:
        MaintenanceAction)
        ensures
            r == maintenance_action(event, old(self)@.leader, shutdown),
            final(self)@ == if batch_failed(event) {
                noted(old(self)@, maintenance_event(at))
            } else {
                old(self)@
            },
    {
        let failed = match event {
            MaintenanceEvent::MembersPruned { failed } => failed,
            MaintenanceEvent::PortsPruned { failed } => failed,
            _ => false,
        };
        if failed {
            self.record_event(
                at,
                "lease_maintenance_failed",
                "warning",
                "Expired HA lease maintenance batch failed",
                None,
            );
        }
        match event {
            MaintenanceEvent::Stopped => MaintenanceAction::Stop,
            MaintenanceEvent::Ticked => if self.leader {
                MaintenanceAction::PruneMembers
            } else {
                MaintenanceAction::Wait
            },
            MaintenanceEvent::MembersPruned { .. } => if shutdown {
                MaintenanceAction::Stop
            } else if self.leader {
                MaintenanceAction::PrunePorts
            } else {
                MaintenanceAction::Wait
            },
            MaintenanceEvent::PortsPruned { .. } => MaintenanceAction::Wait,
        }
    }
}

/// What maintenance has seen.
#[derive(Clone, Copy, Debug, PartialEq, Eq, Structural)]
pub enum MaintenanceEvent {
    /// The process is to stop.
    Stopped,
    /// It is time for the next run.
    Ticked,
    MembersPruned { failed: bool },
    PortsPruned { failed: bool },
}

/// What maintenance does.
#[derive(Clone, Copy, Debug, PartialEq, Eq, Structural)]
pub enum MaintenanceAction {
    /// Wait for the next run or the end of the process.
    Wait,
    PruneMembers,
    PrunePorts,
    Stop,
}

pub open spec fn batch_failed(event: MaintenanceEvent) -> bool {
    match event {
        MaintenanceEvent::MembersPruned { failed } => failed,
        MaintenanceEvent::PortsPruned { failed } => failed,
        _ => false,
    }
}

/// Only a leader prunes. A process that is to stop starts no further batch.
pub open spec fn maintenance_action(event: MaintenanceEvent, leader: bool, shutdown: bool) -> MaintenanceAction {
    match event {
        MaintenanceEvent::Stopped => MaintenanceAction::Stop,
        MaintenanceEvent::Ticked => if leader {
            MaintenanceAction::PruneMembers
        } else {
            MaintenanceAction::Wait
        },
        MaintenanceEvent::MembersPruned { .. } => if shutdown {
            MaintenanceAction::Stop
        } else if leader {
            MaintenanceAction::PrunePorts
        } else {
            MaintenanceAction::Wait
        },
        MaintenanceEvent::PortsPruned { .. } => MaintenanceAction::Wait,
    }
}

/// Whether the process is to stop: it was told to, or nobody can tell it any
/// more.
pub fn shutdown_requested(requested: bool, sender_gone: bool) -> (r: bool)
    ensures
        r == (requested || sender_gone),
{
    requested || sender_gone
}

// ---------------------------------------------------------------------------
// Laws
// ---------------------------------------------------------------------------

/// Whatever happens, the flags follow the lease and the history stays bounded.
pub proof fn law_runtime_stays_valid(
    m: RuntimeModel,
    lease: Option<LeadershipLeaseModel>,
    event: HaRuntimeEventModel,
    at: u64,
)
    requires
        runtime_valid(m),
    ensures
        runtime_valid(published(m, lease)),
        runtime_valid(noted(m, event)),
        runtime_valid(bootstrapped(m, lease, at)),
        runtime_valid(refreshed(m, lease, at)),
        runtime_valid(noted(published(m, None), failed_event(at))),
        runtime_valid(noted(published(m, None), timeout_event(at))),
{
}

/// A process that gave leadership up has no fencing token to write under.
pub proof fn law_no_token_without_leadership(m: RuntimeModel, at: u64)
    requires
        runtime_valid(m),
    ensures
        !published(m, None).leader && published(m, None).fencing_token == 0,
        !noted(published(m, None), failed_event(at)).leader,
        !noted(published(m, None), timeout_event(at)).leader,
        m.leadership is None ==> !m.leader && m.fencing_token == 0,
{
}

/// After a heartbeat the process leads exactly if the leases say so, and then
/// its token passes the fence.
pub proof fn law_heartbeats_agree_with_the_leases(
    m: RuntimeModel,
    t: LeasesModel,
    c: CoordinatorModel,
    now: u64,
    at: u64,
)
    requires
        runtime_valid(m),
        crate::ha_coordination::leases_valid(t),
        stored_time(now),
        c.leader_lease_seconds > 0,
        c.member_lease_seconds > 0,
        m.leadership is Some ==> m.leadership->0.fencing_token > 0,
        joined(t, c, now) is Ok,
        attempt(joined(t, c, now)->Ok_0.0, c, m.leadership, now) is Ok,
    ensures
        ({
            let (after, lease) = attempt(joined(t, c, now)->Ok_0.0, c, m.leadership, now)->Ok_0;
            let n = refreshed(m, lease, at);
            &&& n.leader ==> n.fencing_token > 0
            &&& n.leader ==> crate::ha_coordination::fence_error(after, c, n.fencing_token, now)
                is None
        }),
{
    crate::ha_coordination::law_registered_processes_are_members(t, c, now);
}

/// A newer event comes before the older ones.
pub proof fn law_events_are_newest_first(m: RuntimeModel, event: HaRuntimeEventModel)
    ensures
        noted(m, event).events[0] == event,
        forall|i: int|
            0 <= i < noted(m, event).events.len() - 1 ==> (#[trigger] m.events[i]) == noted(
                m,
                event,
            ).events[i + 1],
{
}

/// What a variable says: its number, or the default where it is not set.
pub open spec fn said(value: Option<Seq<char>>, default_value: nat, largest: nat) -> Option<nat> {
    if value is Some {
        parsed_number(trim(value->0), 10, largest)
    } else {
        Some(default_value)
    }
}

/// A variable is read as a number between its bounds, and as its default where it is
/// not set; the answer to anything else tells what was expected.
pub proof fn law_variables_are_bounded_numbers(
    name: Seq<char>,
    value: Option<Seq<char>>,
    default_value: nat,
    minimum: nat,
    maximum: nat,
    largest: nat,
    unit: Seq<char>,
)
    ensures
        ({
            let r = bounded(name, value, default_value, minimum, maximum, largest, unit);
            let n = said(value, default_value, largest);
            &&& r is Ok <==> n is Some && minimum <= n->0 <= maximum
            &&& r is Ok ==> r->Ok_0 == n->0
            &&& n is None ==> r->Err_0 == name + " must be an integer"@
            &&& n is Some && r is Err ==> r->Err_0 == name + " must be between "@ + decimal(minimum)
                + " and "@ + decimal(maximum) + unit
        }),
{
}

/// A configuration is accepted exactly if each variable lies in its range, the leader
/// lease is no longer than the member lease, and the heartbeat is shorter than every
/// lease. It holds what the variables say.
pub proof fn law_configurations_hold_what_the_variables_say(
    env: EnvironmentModel,
    default_instance_id: Seq<char>,
)
    ensures
        ({
            let r = configured(env, default_instance_id);
            let c = r->Ok_0;
            let member = said(env.member_lease, 30, 0xffff_ffff_ffff_ffff);
            let leader = said(env.leader_lease, 15, 0xffff_ffff_ffff_ffff);
            let beat = said(env.heartbeat, 5, 0xffff_ffff_ffff_ffff);
            let resource = said(env.resource_lease, 15, 0xffff_ffff_ffff_ffff);
            let job = said(env.job_lease, 30, 0xffff_ffff_ffff_ffff);
            let success = said(env.target_success_threshold, 2, 0xffff_ffff);
            let failure = said(env.target_failure_threshold, 3, 0xffff_ffff);
            let stale = said(env.target_stale_after, 30, 0xffff_ffff_ffff_ffff);
            &&& r is Ok <==> {
                &&& member is Some && 5 <= member->0 <= 300
                &&& leader is Some && 3 <= leader->0 <= 120
                &&& beat is Some && 1 <= beat->0 <= 60
                &&& resource is Some && 2 <= resource->0 <= 300
                &&& job is Some && 2 <= job->0 <= 300
                &&& success is Some && 1 <= success->0 <= 1000
                &&& failure is Some && 1 <= failure->0 <= 1000
                &&& stale is Some && 1 <= stale->0 <= 86400
                &&& leader->0 <= member->0
                &&& beat->0 < leader->0 && beat->0 < member->0 && beat->0 < resource->0 && beat->0
                    < job->0
            }
            &&& r is Ok ==> {
                &&& c.member_lease == member->0 && c.leader_lease == leader->0
                &&& c.heartbeat == beat->0 && c.resource_lease == resource->0 && c.job_lease
                    == job->0
                &&& c.target_success_threshold == success->0 && c.target_failure_threshold
                    == failure->0 && c.target_stale_after == stale->0
                &&& env.instance_id is Some && trim(env.instance_id->0).len() > 0
                    ==> c.instance_id == trim(env.instance_id->0)
                &&& env.instance_id is None || trim(env.instance_id->0).len() == 0
                    ==> c.instance_id == default_instance_id
                &&& env.metadata_json is Some && trim(env.metadata_json->0).len() > 0
                    ==> c.metadata_json == trim(env.metadata_json->0)
                &&& env.metadata_json is None || trim(env.metadata_json->0).len() == 0
                    ==> c.metadata_json == "{}"@
            }
        }),
{
}

/// Leadership is gained, retained, lost or never held, as it was and is.
pub proof fn law_transitions_tell_what_changed(before: bool, after: bool)
    ensures
        transition_between(before, after) is Gained <==> !before && after,
        transition_between(before, after) is Retained <==> before && after,
        transition_between(before, after) is Lost <==> before && !after,
        transition_between(before, after) is Follower <==> !before && !after,
{
}

/// A process leads exactly while it holds a lease, under the token of that lease.
pub proof fn law_leadership_is_the_lease(m: RuntimeModel, lease: Option<LeadershipLeaseModel>)
    ensures
        published(m, lease).leader <==> lease is Some,
        published(m, lease).leadership == lease,
        lease is Some ==> published(m, lease).fencing_token == lease->0.fencing_token,
        lease is None ==> published(m, lease).fencing_token == 0,
        published(m, lease).events == m.events,
{
}

/// An event is noted exactly when leadership is gained or lost, with the token that was
/// gained or lost; a refresh that changes nothing notes nothing.
pub proof fn law_refreshes_note_what_changed(
    m: RuntimeModel,
    lease: Option<LeadershipLeaseModel>,
    at: u64,
)
    ensures
        ({
            let n = refreshed(m, lease, at);
            let held = m.leadership is Some;
            let holds = lease is Some;
            let e = n.events[0];
            &&& n.leadership == lease && n.leader == holds
            &&& held == holds ==> n.events == m.events
            &&& !held && holds ==> e.code == "leader_acquired"@ && e.severity == "info"@ && e.message
                == "HA leadership acquired"@ && e.fencing_token == Some(lease->0.fencing_token)
                && e.at_unix_seconds == at
            &&& held && !holds ==> e.code == "leader_lost"@ && e.severity == "warning"@ && e.message
                == "HA leadership was lost and mutating work is fenced"@ && e.fencing_token == Some(
                m.leadership->0.fencing_token,
            ) && e.at_unix_seconds == at
            &&& held != holds ==> n.events.len() >= 1
        }),
{
}

/// The start of a process is noted, as a leader or as a follower.
pub proof fn law_the_start_is_noted(
    m: RuntimeModel,
    lease: Option<LeadershipLeaseModel>,
    at: u64,
)
    ensures
        ({
            let n = bootstrapped(m, lease, at);
            let e = n.events[0];
            &&& n.leadership == lease && n.leader == (lease is Some)
            &&& n.events.len() >= 1 && e.at_unix_seconds == at
            &&& lease is Some ==> e.code == "leader_acquired"@ && e.severity == "info"@
                && e.fencing_token == Some(lease->0.fencing_token)
            &&& lease is None ==> e.code == "follower_started"@ && e.severity == "info"@
                && e.message == "HA instance is a follower"@ && e.fencing_token is None
        }),
{
}

/// Failed heartbeats and failed maintenance are noted as warnings that tell which.
pub proof fn law_failures_are_warnings(at: u64)
    ensures
        failed_event(at).code == "heartbeat_failed"@,
        timeout_event(at).code == "heartbeat_timeout"@,
        maintenance_event(at).code == "lease_maintenance_failed"@,
        failed_event(at).severity == "warning"@ && timeout_event(at).severity == "warning"@
            && maintenance_event(at).severity == "warning"@,
        failed_event(at).message == "HA heartbeat failed; leadership was cleared"@,
        timeout_event(at).message == "HA heartbeat timed out; leadership was cleared"@,
        maintenance_event(at).message == "Expired HA lease maintenance batch failed"@,
        failed_event(at).at_unix_seconds == at && timeout_event(at).at_unix_seconds == at
            && maintenance_event(at).at_unix_seconds == at,
        failed_event(at).fencing_token is None && timeout_event(at).fencing_token is None
            && maintenance_event(at).fencing_token is None,
{
}

/// The latest 64 events are kept, the newest first.
pub proof fn law_sixty_four_events_are_kept(m: RuntimeModel, event: HaRuntimeEventModel, i: int)
    ensures
        m.events.len() < 64 ==> noted(m, event).events.len() == m.events.len() + 1,
        m.events.len() >= 64 ==> noted(m, event).events.len() == 64,
        noted(m, event).events[0] == event,
        0 < i < noted(m, event).events.len() ==> noted(m, event).events[i] == m.events[i - 1],
        noted(m, event).leadership == m.leadership,
        noted(m, event).leader == m.leader,
        noted(m, event).fencing_token == m.fencing_token,
{
}

/// A process that holds a lease renews it under its token; one that holds none tries to
/// acquire it. Both come after its membership was renewed.
pub proof fn law_leases_are_renewed_by_their_holder(
    t: LeasesModel,
    c: CoordinatorModel,
    held: Option<LeadershipLeaseModel>,
    now: u64,
)
    ensures
        held is Some ==> attempt(t, c, held, now) == renewed(t, c, held->0.fencing_token, now),
        held is None ==> attempt(t, c, held, now) == acquisition(t, c, now),
        joined(t, c, now) is Ok ==> registration(
            c,
            find_member(t.members, c.instance_id),
            now,
        ) == Ok::<HaMemberModel, HaError>(joined(t, c, now)->Ok_0.1) && joined(
            t,
            c,
            now,
        )->Ok_0.0.leader == t.leader && joined(t, c, now)->Ok_0.0.next_token == t.next_token
            && joined(t, c, now)->Ok_0.0.members == with_member(
            t.members,
            joined(t, c, now)->Ok_0.1,
        ),
        joined(t, c, now) is Err ==> registration(
            c,
            find_member(t.members, c.instance_id),
            now,
        ) == Err::<HaMemberModel, HaError>(joined(t, c, now)->Err_0),
{
}

/// Only a leader prunes, the members first and then the ports; the process stops when
/// it is told to, and between the two batches when a shutdown was asked for.
pub proof fn law_leaders_maintain_the_leases(event: MaintenanceEvent, leader: bool, shutdown: bool)
    ensures
        ({
            let a = maintenance_action(event, leader, shutdown);
            &&& a is PruneMembers <==> event is Ticked && leader
            &&& a is PrunePorts <==> event is MembersPruned && leader && !shutdown
            &&& a is Stop <==> event is Stopped || event is MembersPruned && shutdown
            &&& batch_failed(event) <==> event == (MaintenanceEvent::MembersPruned { failed: true })
                || event == (MaintenanceEvent::PortsPruned { failed: true })
        }),
{
}

/// A token is handed out exactly while the process leads under one.
pub proof fn law_tokens_are_handed_out_while_leading(
    runtime: HaRuntime,
    r: Result<u64, &'static str>,
)
    requires
        call_ensures(HaRuntime::fencing_token, (&runtime,), r),
    ensures
        r is Ok <==> runtime@.leader && runtime@.fencing_token > 0,
        r is Ok ==> r->Ok_0 == runtime@.fencing_token,
        r is Err ==> r->Err_0@ == "this LinkLake instance is not the active HA leader"@,
{
}

/// A process starts by joining the members and then trying to lead; it publishes the
/// lease that it got, or none. What failed before that leaves it as it was.
pub proof fn law_processes_join_before_they_lead(
    runtime: &mut HaRuntime,
    coordinator: HaCoordinator,
    leases: &mut HaLeases,
    now: u64,
    at: u64,
    r: Result<(HaMember, LeadershipTransition), HaError>,
)
    requires
        stored_time(now),
        call_ensures(HaRuntime::bootstrap, (runtime, &coordinator, leases, now, at), r),
    ensures
        ({
            let member = joined(old(leases)@, coordinator@, now);
            let t = member->Ok_0.0;
            let lease = acquisition(t, coordinator@, now);
            &&& member is Err ==> r is Err && r->Err_0 == member->Err_0 && final(leases)@ == old(leases)@ && final(runtime)@ == old(runtime)@
            &&& member is Ok && lease is Err ==> r is Err && r->Err_0 == lease->Err_0
                && final(leases)@ == t && final(runtime)@ == old(runtime)@
            &&& member is Ok && lease is Ok ==> {
                &&& r is Ok && (r->Ok_0).0@ == member->Ok_0.1
                &&& (r->Ok_0).1 is Gained <==> lease->Ok_0.1 is Some
                &&& (r->Ok_0).1 is Follower <==> lease->Ok_0.1 is None
                &&& final(leases)@ == lease->Ok_0.0
                &&& final(runtime)@.leadership == lease->Ok_0.1
                &&& final(runtime)@.leader <==> lease->Ok_0.1 is Some
            }
        }),
{
}

/// A heartbeat renews the membership and then the lease that the process holds, or tries
/// for one; the process leads afterwards exactly if it has a lease. What failed before
/// that leaves it as it was.
pub proof fn law_heartbeats_renew_membership_and_lease(
    runtime: &mut HaRuntime,
    coordinator: HaCoordinator,
    leases: &mut HaLeases,
    now: u64,
    at: u64,
    r: Result<LeadershipTransition, HaError>,
)
    requires
        stored_time(now),
        call_ensures(HaRuntime::refresh, (runtime, &coordinator, leases, now, at), r),
    ensures
        ({
            let member = joined(old(leases)@, coordinator@, now);
            let t = member->Ok_0.0;
            let held = old(runtime)@.leadership;
            let next = if held is Some {
                renewed(t, coordinator@, held->0.fencing_token, now)
            } else {
                acquisition(t, coordinator@, now)
            };
            let leads = next->Ok_0.1 is Some;
            &&& member is Err ==> r is Err && r->Err_0 == member->Err_0 && final(leases)@ == old(leases)@ && final(runtime)@ == old(runtime)@
            &&& member is Ok && next is Err ==> r is Err && r->Err_0 == next->Err_0
                && final(leases)@ == t && final(runtime)@ == old(runtime)@
            &&& member is Ok && next is Ok ==> {
                &&& r is Ok
                &&& r->Ok_0 is Gained <==> held is None && leads
                &&& r->Ok_0 is Retained <==> held is Some && leads
                &&& r->Ok_0 is Lost <==> held is Some && !leads
                &&& r->Ok_0 is Follower <==> held is None && !leads
                &&& final(leases)@ == next->Ok_0.0
                &&& final(runtime)@.leadership == next->Ok_0.1
                &&& final(runtime)@.leader <==> leads
            }
        }),
{
}

/// A heartbeat that failed or took too long ends the leadership, and tells whether there
/// was one.
pub proof fn law_missed_heartbeats_end_the_leadership(
    failing: &mut HaRuntime,
    slow: &mut HaRuntime,
    at: u64,
    led: bool,
    slow_led: bool,
)
    requires
        call_ensures(HaRuntime::heartbeat_failed, (failing, at), led),
        call_ensures(HaRuntime::heartbeat_timed_out, (slow, at), slow_led),
    ensures
        led == old(failing)@.leader && slow_led == old(slow)@.leader,
        !final(failing)@.leader && final(failing)@.leadership is None && final(failing)@.fencing_token == 0,
        !final(slow)@.leader && final(slow)@.leadership is None && final(slow)@.fencing_token == 0,
        final(failing)@.events[0].code == "heartbeat_failed"@ && final(failing)@.events[0].at_unix_seconds == at,
        final(slow)@.events[0].code == "heartbeat_timeout"@ && final(slow)@.events[0].at_unix_seconds == at,
{
}

/// Maintenance is noted exactly if a batch failed, and the leadership stays as it is.
pub proof fn law_failed_batches_are_noted(
    runtime: &mut HaRuntime,
    event: MaintenanceEvent,
    shutdown: bool,
    at: u64,
    r: MaintenanceAction,
)
    requires
        call_ensures(HaRuntime::advance_maintenance, (runtime, event, shutdown, at), r),
    ensures
        ({
            let failed = event == (MaintenanceEvent::MembersPruned { failed: true }) || event == (
            MaintenanceEvent::PortsPruned { failed: true });
            &&& !failed ==> final(runtime)@ == old(runtime)@
            &&& failed ==> final(runtime)@.events[0].code == "lease_maintenance_failed"@
                && final(runtime)@.leadership == old(runtime)@.leadership && final(runtime)@.leader == old(runtime)@.leader
            &&& r is PruneMembers <==> event is Ticked && old(runtime)@.leader
            &&& r is Stop <==> event is Stopped || event is MembersPruned && shutdown
        }),
{
}

/// A shutdown is asked for by a request or by the end of those who could ask.
pub proof fn law_shutdowns_are_asked_for(requested: bool, sender_gone: bool, r: bool)
    requires
        call_ensures(shutdown_requested, (requested, sender_gone), r),
    ensures
        !r <==> !requested && !sender_gone,
{
}

} // verus!
