//! Health of fleet peers: probe results, hysteresis and cooldowns.

use crate::ids::{first_id, lemma_first_id_unique};
use crate::text::{
    control, copy_optional, is_control, lemma_trim_shape, opt_view, same_text, string_of, trim,
    trimmed,
};
use vstd::prelude::*;
use vstd::string::*;

verus! {

/// How healthy a peer is taken to be.
#[derive(Clone, Copy, Debug, PartialEq, Eq, Hash, Structural)]
pub enum FleetHealthState {
    Unknown,
    Healthy,
    Degraded,
    Unhealthy,
    Recovering,
}

/// The stored name of a health state.
pub open spec fn health_state_name(state: FleetHealthState) -> Seq<char> {
    match state {
        FleetHealthState::Unknown => "unknown"@,
        FleetHealthState::Healthy => "healthy"@,
        FleetHealthState::Degraded => "degraded"@,
        FleetHealthState::Unhealthy => "unhealthy"@,
        FleetHealthState::Recovering => "recovering"@,
    }
}

/// The state that a stored name denotes.
pub open spec fn health_state_of(name: Seq<char>) -> Option<FleetHealthState> {
    if name == "unknown"@ {
        Some(FleetHealthState::Unknown)
    } else if name == "healthy"@ {
        Some(FleetHealthState::Healthy)
    } else if name == "degraded"@ {
        Some(FleetHealthState::Degraded)
    } else if name == "unhealthy"@ {
        Some(FleetHealthState::Unhealthy)
    } else if name == "recovering"@ {
        Some(FleetHealthState::Recovering)
    } else {
        None
    }
}

impl FleetHealthState {
    pub fn as_str(self) -> (r: &'static str)
        ensures
            r@ == health_state_name(self),
    {
        match self {
            FleetHealthState::Unknown => "unknown",
            FleetHealthState::Healthy => "healthy",
            FleetHealthState::Degraded => "degraded",
            FleetHealthState::Unhealthy => "unhealthy",
            FleetHealthState::Recovering => "recovering",
        }
    }

    pub fn parse(value: &str) -> (r: Option<Self>)
        ensures
            r == health_state_of(value@),
    {
        if same_text(value, "unknown") {
            Some(FleetHealthState::Unknown)
        } else if same_text(value, "healthy") {
            Some(FleetHealthState::Healthy)
        } else if same_text(value, "degraded") {
            Some(FleetHealthState::Degraded)
        } else if same_text(value, "unhealthy") {
            Some(FleetHealthState::Unhealthy)
        } else if same_text(value, "recovering") {
            Some(FleetHealthState::Recovering)
        } else {
            None
        }
    }
}

/// A stored state reads back as itself.
pub proof fn law_health_state_reads_back(state: FleetHealthState)
    ensures
        health_state_of(health_state_name(state)) == Some(state),
{
    reveal_strlit("unknown");
    reveal_strlit("healthy");
    reveal_strlit("degraded");
    reveal_strlit("unhealthy");
    reveal_strlit("recovering");
    assert("unknown"@[0] == 'u' && "unhealthy"@[0] == 'u');
    assert("unknown"@.len() == 7 && "unhealthy"@.len() == 9);
    assert("healthy"@[0] == 'h' && "degraded"@[0] == 'd' && "recovering"@[0] == 'r');
}

/// The success threshold of a peer that names none.
pub fn default_success_threshold() -> (r: u16)
    ensures
        r == 2,
{
    2
}

/// The failure threshold of a peer that names none.
pub fn default_failure_threshold() -> (r: u16)
    ensures
        r == 3,
{
    3
}

/// The cooldown of a peer that names none, in seconds.
pub fn default_health_cooldown() -> (r: u32)
    ensures
        r == 30,
{
    30
}

/// A request to change how the health of a peer is judged.
#[derive(Clone, Copy, Debug, PartialEq, Eq, Structural)]
pub struct UpdateFleetHealthConfig {
    pub success_threshold: u16,
    pub failure_threshold: u16,
    pub cooldown_seconds: u32,
}

/// How the health of a peer is judged.
#[derive(Clone, Copy, Debug, PartialEq, Eq, Structural)]
pub struct FleetHealthConfig {
    pub peer_id: u128,
    pub success_threshold: u16,
    pub failure_threshold: u16,
    pub cooldown_seconds: u32,
    pub updated_unix_seconds: u64,
}

/// Why a health operation was refused.
#[derive(Clone, Copy, Debug, PartialEq, Eq, Structural)]
pub enum FleetHealthError {
    InvalidSuccessThreshold,
    InvalidFailureThreshold,
    InvalidCooldown,
    PeerMissing,
    EventConflict,
}

/// The text of a refusal.
pub open spec fn health_error_text(e: FleetHealthError) -> Seq<char> {
    match e {
        FleetHealthError::InvalidSuccessThreshold => {
            "fleet health success threshold must be between 1 and 20"@
        },
        FleetHealthError::InvalidFailureThreshold => {
            "fleet health failure threshold must be between 1 and 20"@
        },
        FleetHealthError::InvalidCooldown => {
            "fleet health cooldown must not exceed 86400 seconds"@
        },
        FleetHealthError::PeerMissing => "fleet peer does not exist"@,
        FleetHealthError::EventConflict => {
            "fleet probe event ID conflicts with an existing event"@
        },
    }
}

impl FleetHealthError {
    /// The text shown to operators.
    pub fn message(self) -> (r: &'static str)
        ensures
            r@ == health_error_text(self),
    {
        match self {
            FleetHealthError::InvalidSuccessThreshold => {
                "fleet health success threshold must be between 1 and 20"
            },
            FleetHealthError::InvalidFailureThreshold => {
                "fleet health failure threshold must be between 1 and 20"
            },
            FleetHealthError::InvalidCooldown => {
                "fleet health cooldown must not exceed 86400 seconds"
            },
            FleetHealthError::PeerMissing => "fleet peer does not exist",
            FleetHealthError::EventConflict => {
                "fleet probe event ID conflicts with an existing event"
            },
        }
    }
}

/// The first thing wrong with a configuration.
pub open spec fn config_error(request: UpdateFleetHealthConfig) -> Option<FleetHealthError> {
    if !(1 <= request.success_threshold <= 20) {
        Some(FleetHealthError::InvalidSuccessThreshold)
    } else if !(1 <= request.failure_threshold <= 20) {
        Some(FleetHealthError::InvalidFailureThreshold)
    } else if request.cooldown_seconds > 86_400 {
        Some(FleetHealthError::InvalidCooldown)
    } else {
        None
    }
}

pub fn validate_health_config(request: &UpdateFleetHealthConfig) -> (r: Result<(), FleetHealthError>)
    ensures
        match config_error(*request) {
            Some(error) => r == Err::<(), FleetHealthError>(error),
            None => r is Ok,
        },
{
    if request.success_threshold < 1 || request.success_threshold > 20 {
        return Err(FleetHealthError::InvalidSuccessThreshold);
    }
    if request.failure_threshold < 1 || request.failure_threshold > 20 {
        return Err(FleetHealthError::InvalidFailureThreshold);
    }
    if request.cooldown_seconds > 86_400 {
        return Err(FleetHealthError::InvalidCooldown);
    }
    Ok(())
}

/// The health of a peer as last judged.
#[derive(Clone, Debug, PartialEq, Eq)]
pub struct FleetPeerHealth {
    pub peer_id: u128,
    pub state: FleetHealthState,
    pub consecutive_successes: u16,
    pub consecutive_failures: u16,
    pub last_probe_unix_seconds: Option<u64>,
    pub last_success_unix_seconds: Option<u64>,
    pub last_failure_unix_seconds: Option<u64>,
    pub last_latency_millis: Option<u64>,
    pub last_error_summary: Option<String>,
    pub state_changed_unix_seconds: u64,
    pub cooldown_until_unix_seconds: u64,
    pub last_transition_reason: String,
    pub revision: u64,
    pub active_connections: u64,
    pub bytes_total: u64,
    pub clients: u64,
    pub policies: u64,
}

/// What a [`FleetPeerHealth`] says.
pub struct FleetPeerHealthModel {
    pub peer_id: u128,
    pub state: FleetHealthState,
    pub consecutive_successes: u16,
    pub consecutive_failures: u16,
    pub last_probe_unix_seconds: Option<u64>,
    pub last_success_unix_seconds: Option<u64>,
    pub last_failure_unix_seconds: Option<u64>,
    pub last_latency_millis: Option<u64>,
    pub last_error_summary: Option<Seq<char>>,
    pub state_changed_unix_seconds: u64,
    pub cooldown_until_unix_seconds: u64,
    pub last_transition_reason: Seq<char>,
    pub revision: u64,
    pub active_connections: u64,
    pub bytes_total: u64,
    pub clients: u64,
    pub policies: u64,
}

impl View for FleetPeerHealth {
    type V = FleetPeerHealthModel;

    open spec fn view(&self) -> FleetPeerHealthModel {
        FleetPeerHealthModel {
            peer_id: self.peer_id,
            state: self.state,
            consecutive_successes: self.consecutive_successes,
            consecutive_failures: self.consecutive_failures,
            last_probe_unix_seconds: self.last_probe_unix_seconds,
            last_success_unix_seconds: self.last_success_unix_seconds,
            last_failure_unix_seconds: self.last_failure_unix_seconds,
            last_latency_millis: self.last_latency_millis,
            last_error_summary: opt_view(self.last_error_summary),
            state_changed_unix_seconds: self.state_changed_unix_seconds,
            cooldown_until_unix_seconds: self.cooldown_until_unix_seconds,
            last_transition_reason: self.last_transition_reason@,
            revision: self.revision,
            active_connections: self.active_connections,
            bytes_total: self.bytes_total,
            clients: self.clients,
            policies: self.policies,
        }
    }
}

impl FleetPeerHealth {
    /// A copy of the value.
    pub fn duplicate(&self) -> (r: Self)
        ensures
            r@ == self@,
    {
        let r = FleetPeerHealth {
            peer_id: self.peer_id,
            state: self.state,
            consecutive_successes: self.consecutive_successes,
            consecutive_failures: self.consecutive_failures,
            last_probe_unix_seconds: self.last_probe_unix_seconds,
            last_success_unix_seconds: self.last_success_unix_seconds,
            last_failure_unix_seconds: self.last_failure_unix_seconds,
            last_latency_millis: self.last_latency_millis,
            last_error_summary: copy_optional(&self.last_error_summary),
            state_changed_unix_seconds: self.state_changed_unix_seconds,
            cooldown_until_unix_seconds: self.cooldown_until_unix_seconds,
            last_transition_reason: self.last_transition_reason.clone(),
            revision: self.revision,
            active_connections: self.active_connections,
            bytes_total: self.bytes_total,
            clients: self.clients,
            policies: self.policies,
        };
        r
    }
}

/// The health of a peer and how it is judged.
#[derive(Clone, Debug, PartialEq, Eq)]
pub struct FleetHealthSnapshot {
    pub config: FleetHealthConfig,
    pub health: FleetPeerHealth,
}

/// What a [`FleetHealthSnapshot`] says.
pub struct FleetHealthSnapshotModel {
    pub config: FleetHealthConfig,
    pub health: FleetPeerHealthModel,
}

impl View for FleetHealthSnapshot {
    type V = FleetHealthSnapshotModel;

    open spec fn view(&self) -> FleetHealthSnapshotModel {
        FleetHealthSnapshotModel {
            config: self.config,
            health: self.health@,
        }
    }
}

impl FleetHealthSnapshot {
    /// A copy of the value.
    pub fn duplicate(&self) -> (r: Self)
        ensures
            r@ == self@,
    {
        let r = FleetHealthSnapshot {
            config: self.config,
            health: self.health.duplicate(),
        };
        r
    }

    /// Copies of a list of values.
    pub fn duplicate_all(v: &Vec<Self>) -> (r: Vec<Self>)
        ensures
            r@.map_values(|x: Self| x@) == v@.map_values(|x: Self| x@),
    {
        let mut out: Vec<Self> = Vec::new();
        let mut i: usize = 0;
        while i < v.len()
            invariant
                i <= v@.len(),
                out@.len() == i,
                forall|j: int| 0 <= j < i ==> (#[trigger] out@[j])@ == v@[j]@,
            decreases v@.len() - i,
        {
            out.push(v[i].duplicate());
            i = i + 1;
        }
        assert(out@.map_values(|x: Self| x@) =~= v@.map_values(|x: Self| x@));
        out
    }
}

/// What a probe of a peer saw.
#[derive(Clone, Debug, PartialEq, Eq)]
pub struct FleetProbeObservation {
    pub event_id: u128,
    pub observed_unix_seconds: u64,
    pub success: bool,
    pub latency_millis: Option<u64>,
    pub error_summary: Option<String>,
    pub active_connections: u64,
    pub bytes_total: u64,
    pub clients: u64,
    pub policies: u64,
}

/// What a [`FleetProbeObservation`] says.
pub struct FleetProbeObservationModel {
    pub event_id: u128,
    pub observed_unix_seconds: u64,
    pub success: bool,
    pub latency_millis: Option<u64>,
    pub error_summary: Option<Seq<char>>,
    pub active_connections: u64,
    pub bytes_total: u64,
    pub clients: u64,
    pub policies: u64,
}

impl View for FleetProbeObservation {
    type V = FleetProbeObservationModel;

    open spec fn view(&self) -> FleetProbeObservationModel {
        FleetProbeObservationModel {
            event_id: self.event_id,
            observed_unix_seconds: self.observed_unix_seconds,
            success: self.success,
            latency_millis: self.latency_millis,
            error_summary: opt_view(self.error_summary),
            active_connections: self.active_connections,
            bytes_total: self.bytes_total,
            clients: self.clients,
            policies: self.policies,
        }
    }
}

impl FleetProbeObservation {
    /// A copy of the value.
    pub fn duplicate(&self) -> (r: Self)
        ensures
            r@ == self@,
    {
        let r = FleetProbeObservation {
            event_id: self.event_id,
            observed_unix_seconds: self.observed_unix_seconds,
            success: self.success,
            latency_millis: self.latency_millis,
            error_summary: copy_optional(&self.error_summary),
            active_connections: self.active_connections,
            bytes_total: self.bytes_total,
            clients: self.clients,
            policies: self.policies,
        };
        r
    }
}

/// A recorded probe.
#[derive(Clone, Debug, PartialEq, Eq)]
pub struct FleetProbeEvent {
    pub event_id: u128,
    pub peer_id: u128,
    pub observed_unix_seconds: u64,
    pub success: bool,
    pub accepted: bool,
    pub latency_millis: Option<u64>,
    pub error_summary: Option<String>,
    pub previous_state: FleetHealthState,
    pub resulting_state: FleetHealthState,
    pub transition_reason: String,
}

/// What a [`FleetProbeEvent`] says.
pub struct FleetProbeEventModel {
    pub event_id: u128,
    pub peer_id: u128,
    pub observed_unix_seconds: u64,
    pub success: bool,
    pub accepted: bool,
    pub latency_millis: Option<u64>,
    pub error_summary: Option<Seq<char>>,
    pub previous_state: FleetHealthState,
    pub resulting_state: FleetHealthState,
    pub transition_reason: Seq<char>,
}

impl View for FleetProbeEvent {
    type V = FleetProbeEventModel;

    open spec fn view(&self) -> FleetProbeEventModel {
        FleetProbeEventModel {
            event_id: self.event_id,
            peer_id: self.peer_id,
            observed_unix_seconds: self.observed_unix_seconds,
            success: self.success,
            accepted: self.accepted,
            latency_millis: self.latency_millis,
            error_summary: opt_view(self.error_summary),
            previous_state: self.previous_state,
            resulting_state: self.resulting_state,
            transition_reason: self.transition_reason@,
        }
    }
}

impl FleetProbeEvent {
    /// A copy of the value.
    pub fn duplicate(&self) -> (r: Self)
        ensures
            r@ == self@,
    {
        let r = FleetProbeEvent {
            event_id: self.event_id,
            peer_id: self.peer_id,
            observed_unix_seconds: self.observed_unix_seconds,
            success: self.success,
            accepted: self.accepted,
            latency_millis: self.latency_millis,
            error_summary: copy_optional(&self.error_summary),
            previous_state: self.previous_state,
            resulting_state: self.resulting_state,
            transition_reason: self.transition_reason.clone(),
        };
        r
    }
}

/// What recording a probe did.
#[derive(Clone, Debug, PartialEq, Eq)]
pub struct FleetProbeResult {
    pub peer_id: u128,
    pub accepted: bool,
    pub duplicate: bool,
    pub previous_state: FleetHealthState,
    pub health: FleetPeerHealth,
    pub transition_reason: String,
}

/// What a [`FleetProbeResult`] says.
pub struct FleetProbeResultModel {
    pub peer_id: u128,
    pub accepted: bool,
    pub duplicate: bool,
    pub previous_state: FleetHealthState,
    pub health: FleetPeerHealthModel,
    pub transition_reason: Seq<char>,
}

impl View for FleetProbeResult {
    type V = FleetProbeResultModel;

    open spec fn view(&self) -> FleetProbeResultModel {
        FleetProbeResultModel {
            peer_id: self.peer_id,
            accepted: self.accepted,
            duplicate: self.duplicate,
            previous_state: self.previous_state,
            health: self.health@,
            transition_reason: self.transition_reason@,
        }
    }
}

impl FleetProbeResult {
    /// A copy of the value.
    pub fn duplicate(&self) -> (r: Self)
        ensures
            r@ == self@,
    {
        let r = FleetProbeResult {
            peer_id: self.peer_id,
            accepted: self.accepted,
            duplicate: self.duplicate,
            previous_state: self.previous_state,
            health: self.health.duplicate(),
            transition_reason: self.transition_reason.clone(),
        };
        r
    }
}

impl FleetPeerHealthModel {
    /// Whether traffic may be directed to the peer: it is enabled, healthy and
    /// past its cooldown.
    pub open spec fn dns_eligible(self, enabled: bool, now: u64) -> bool {
        enabled && self.state == FleetHealthState::Healthy && now
            >= self.cooldown_until_unix_seconds
    }
}

impl FleetPeerHealth {
    /// Whether traffic may be directed to the peer.
    pub fn dns_eligible(&self, enabled: bool, now: u64) -> (r: bool)
        ensures
            r == self@.dns_eligible(enabled, now),
    {
        enabled && self.state == FleetHealthState::Healthy && now
            >= self.cooldown_until_unix_seconds
    }
}

// ---------------------------------------------------------------------------
// Hysteresis
// ---------------------------------------------------------------------------

/// A state with the runs of successes and failures that led to it.
pub struct HealthStep {
    pub state: FleetHealthState,
    pub successes: u16,
    pub failures: u16,
    pub reason: Seq<char>,
}

pub open spec fn plus_one(n: u16) -> u16 {
    if n == 0xffff {
        n
    } else {
        (n + 1) as u16
    }
}

/// The judgement after one more probe.
///
/// A healthy peer degrades on its first failure and turns unhealthy when the
/// failures in a row reach the threshold; a peer that is not healthy becomes so
/// when the successes in a row reach theirs. A recovering peer that fails is
/// unhealthy at once.
pub open spec fn health_step(
    current: FleetHealthState,
    successes: u16,
    failures: u16,
    success: bool,
    success_threshold: u16,
    failure_threshold: u16,
) -> HealthStep {
    if success {
        let n = plus_one(successes);
        if current == FleetHealthState::Healthy {
            HealthStep { state: current, successes: n, failures: 0, reason: "probe_succeeded"@ }
        } else if n >= success_threshold {
            HealthStep {
                state: FleetHealthState::Healthy,
                successes: n,
                failures: 0,
                reason: "success_threshold_met"@,
            }
        } else if current == FleetHealthState::Degraded {
            HealthStep {
                state: current,
                successes: n,
                failures: 0,
                reason: "health_confirmation_in_progress"@,
            }
        } else if current == FleetHealthState::Unknown {
            HealthStep {
                state: current,
                successes: n,
                failures: 0,
                reason: "initial_health_confirmation_in_progress"@,
            }
        } else {
            HealthStep {
                state: FleetHealthState::Recovering,
                successes: n,
                failures: 0,
                reason: "recovery_in_progress"@,
            }
        }
    } else {
        let n = plus_one(failures);
        if current == FleetHealthState::Unhealthy {
            HealthStep { state: current, successes: 0, failures: n, reason: "probe_still_failing"@ }
        } else if current == FleetHealthState::Recovering {
            HealthStep {
                state: FleetHealthState::Unhealthy,
                successes: 0,
                failures: n,
                reason: "recovery_failed"@,
            }
        } else if n >= failure_threshold {
            HealthStep {
                state: FleetHealthState::Unhealthy,
                successes: 0,
                failures: n,
                reason: "failure_threshold_met"@,
            }
        } else {
            HealthStep {
                state: FleetHealthState::Degraded,
                successes: 0,
                failures: n,
                reason: "failure_below_threshold"@,
            }
        }
    }
}

/// The judgement after one more probe: the state, the successes and failures in
/// a row, and the reason.
pub fn next_health_state(
    current: FleetHealthState,
    current_successes: u16,
    current_failures: u16,
    success: bool,
    success_threshold: u16,
    failure_threshold: u16,
) -> (r: (FleetHealthState, u16, u16, &'static str))
    ensures
        ({
            let step = health_step(
                current,
                current_successes,
                current_failures,
                success,
                success_threshold,
                failure_threshold,
            );
            r.0 == step.state && r.1 == step.successes && r.2 == step.failures && r.3@
                == step.reason
        }),
{
    if success {
        let successes: u16 = current_successes.saturating_add(1);
        if current == FleetHealthState::Healthy {
            return (FleetHealthState::Healthy, successes, 0, "probe_succeeded");
        }
        if successes >= success_threshold {
            return (FleetHealthState::Healthy, successes, 0, "success_threshold_met");
        }
        return match current {
            FleetHealthState::Degraded => (
                FleetHealthState::Degraded,
                successes,
                0,
                "health_confirmation_in_progress",
            ),
            FleetHealthState::Unknown => (
                FleetHealthState::Unknown,
                successes,
                0,
                "initial_health_confirmation_in_progress",
            ),
            _ => (FleetHealthState::Recovering, successes, 0, "recovery_in_progress"),
        };
    }
    let failures: u16 = current_failures.saturating_add(1);
    if current == FleetHealthState::Unhealthy {
        return (FleetHealthState::Unhealthy, 0, failures, "probe_still_failing");
    }
    if current == FleetHealthState::Recovering {
        return (FleetHealthState::Unhealthy, 0, failures, "recovery_failed");
    }
    if failures >= failure_threshold {
        return (FleetHealthState::Unhealthy, 0, failures, "failure_threshold_met");
    }
    (FleetHealthState::Degraded, 0, failures, "failure_below_threshold")
}

/// The judgement after `k` probes with the same outcome.
pub open spec fn repeated_steps(
    start: HealthStep,
    success: bool,
    success_threshold: u16,
    failure_threshold: u16,
    k: nat,
) -> HealthStep
    decreases k,
{
    if k == 0 {
        start
    } else {
        let before = repeated_steps(
            start,
            success,
            success_threshold,
            failure_threshold,
            (k - 1) as nat,
        );
        health_step(
            before.state,
            before.successes,
            before.failures,
            success,
            success_threshold,
            failure_threshold,
        )
    }
}

/// A healthy peer with no failure behind it is held, degraded, through fewer
/// failures in a row than the threshold, and is unhealthy at the threshold and
/// beyond.
pub proof fn law_failures_reach_unhealthy_exactly_at_the_threshold(
    successes: u16,
    reason: Seq<char>,
    success_threshold: u16,
    failure_threshold: u16,
    k: nat,
)
    requires
        1 <= failure_threshold,
        1 <= k,
    ensures
        ({
            let start = HealthStep {
                state: FleetHealthState::Healthy,
                successes,
                failures: 0,
                reason,
            };
            let end = repeated_steps(start, false, success_threshold, failure_threshold, k);
            &&& k < failure_threshold ==> end.state == FleetHealthState::Degraded
                && end.failures == k
            &&& k >= failure_threshold ==> end.state == FleetHealthState::Unhealthy
            &&& end.failures == if k <= 0xffff {
                k
            } else {
                0xffff
            }
        }),
    decreases k,
{
    if k > 1 {
        law_failures_reach_unhealthy_exactly_at_the_threshold(
            successes,
            reason,
            success_threshold,
            failure_threshold,
            (k - 1) as nat,
        );
    } else {
        let start = HealthStep { state: FleetHealthState::Healthy, successes, failures: 0, reason };
        assert(repeated_steps(start, false, success_threshold, failure_threshold, 0) == start);
    }
}

/// An unhealthy peer recovers through fewer successes in a row than the
/// threshold and is healthy at the threshold and beyond.
pub proof fn law_successes_reach_healthy_exactly_at_the_threshold(
    failures: u16,
    reason: Seq<char>,
    success_threshold: u16,
    failure_threshold: u16,
    k: nat,
)
    requires
        1 <= success_threshold,
        1 <= k,
    ensures
        ({
            let start = HealthStep {
                state: FleetHealthState::Unhealthy,
                successes: 0,
                failures,
                reason,
            };
            let end = repeated_steps(start, true, success_threshold, failure_threshold, k);
            &&& k < success_threshold ==> end.state == FleetHealthState::Recovering
            &&& k >= success_threshold ==> end.state == FleetHealthState::Healthy
            &&& end.successes == if k <= 0xffff {
                k
            } else {
                0xffff
            }
            &&& end.failures == 0
        }),
    decreases k,
{
    if k > 1 {
        law_successes_reach_healthy_exactly_at_the_threshold(
            failures,
            reason,
            success_threshold,
            failure_threshold,
            (k - 1) as nat,
        );
    } else {
        let start = HealthStep { state: FleetHealthState::Unhealthy, successes: 0, failures, reason };
        assert(repeated_steps(start, true, success_threshold, failure_threshold, 0) == start);
    }
}

/// A probe leaves at most one of the two runs standing.
pub proof fn law_a_probe_ends_the_opposite_run(
    current: FleetHealthState,
    successes: u16,
    failures: u16,
    success: bool,
    success_threshold: u16,
    failure_threshold: u16,
)
    ensures
        ({
            let step = health_step(
                current,
                successes,
                failures,
                success,
                success_threshold,
                failure_threshold,
            );
            if success {
                step.failures == 0 && step.successes > 0
            } else {
                step.successes == 0 && step.failures > 0
            }
        }),
{
}

// ---------------------------------------------------------------------------
// Error summaries
// ---------------------------------------------------------------------------

/// The number of characters that an error summary keeps.
pub const MAX_ERROR_SUMMARY_CHARS: usize = 320;

/// Appends text to a summary until it is full; a control character gives one
/// space, and none after a space.
pub open spec fn summary_of(s: Seq<char>, out: Seq<char>) -> Seq<char>
    decreases s.len(),
{
    if s.len() == 0 || out.len() >= MAX_ERROR_SUMMARY_CHARS {
        out
    } else if !control(s[0]) {
        summary_of(s.drop_first(), out.push(s[0]))
    } else if out.len() > 0 && out.last() == ' ' {
        summary_of(s.drop_first(), out)
    } else {
        summary_of(s.drop_first(), out.push(' '))
    }
}

/// A short form of an error text without control characters.
pub open spec fn error_summary(s: Seq<char>) -> Seq<char> {
    trim(summary_of(s, Seq::empty()))
}

/// A short form of an error text without control characters.
pub fn summarize_error(value: &str) -> (r: String)
    ensures
        r@ == error_summary(value@),
{
    let all = crate::text::chars_of(value);
    let mut out: Vec<char> = Vec::new();
    let mut i: usize = 0;
    assert(all@.skip(0) =~= all@);
    assert(out@ =~= Seq::<char>::empty());
    while i < all.len() && out.len() < MAX_ERROR_SUMMARY_CHARS
        invariant
            i <= all@.len(),
            all@ == value@,
            summary_of(value@, Seq::empty()) == summary_of(all@.skip(i as int), out@),
        decreases all@.len() - i,
    {
        let c = all[i];
        assert(all@.skip(i as int)[0] == c);
        assert(all@.skip(i as int).drop_first() =~= all@.skip(i + 1));
        if is_control(c) {
            if out.len() == 0 || out[out.len() - 1] != ' ' {
                out.push(' ');
            }
        } else {
            out.push(c);
        }
        i = i + 1;
    }
    string_of(&trimmed(&out))
}

proof fn lemma_summary_of(s: Seq<char>, out: Seq<char>)
    requires
        forall|i: int| 0 <= i < out.len() ==> !control(#[trigger] out[i]),
        out.len() <= MAX_ERROR_SUMMARY_CHARS,
    ensures
        forall|i: int| 0 <= i < summary_of(s, out).len() ==> !control(#[trigger] summary_of(s, out)[i]),
        summary_of(s, out).len() <= MAX_ERROR_SUMMARY_CHARS,
    decreases s.len(),
{
    if s.len() == 0 || out.len() >= MAX_ERROR_SUMMARY_CHARS {
    } else if !control(s[0]) {
        lemma_summary_of(s.drop_first(), out.push(s[0]));
    } else if out.len() > 0 && out.last() == ' ' {
        lemma_summary_of(s.drop_first(), out);
    } else {
        lemma_summary_of(s.drop_first(), out.push(' '));
    }
}

/// A summary is short and holds no control character, whatever the error text
/// was.
pub proof fn law_summaries_hold_no_control_characters(s: Seq<char>)
    ensures
        error_summary(s).len() <= MAX_ERROR_SUMMARY_CHARS,
        forall|i: int| 0 <= i < error_summary(s).len() ==> !control(#[trigger] error_summary(s)[i]),
{
    lemma_summary_of(s, Seq::empty());
    let all = summary_of(s, Seq::empty());
    lemma_trim_shape(all);
    let (a, b) = choose|a: int, b: int|
        0 <= a <= b <= all.len() && trim(all) == all.subrange(a, b);
    assert forall|i: int| 0 <= i < error_summary(s).len() implies !control(
        #[trigger] error_summary(s)[i],
    ) by {
        assert(error_summary(s)[i] == all[a + i]);
    }
}

// ---------------------------------------------------------------------------
// One probe
// ---------------------------------------------------------------------------

pub open spec fn sat_add(a: u64, b: nat) -> u64 {
    if a + b <= u64::MAX {
        (a + b) as u64
    } else {
        u64::MAX
    }
}

/// The health of a peer that was never probed.
pub open spec fn initial_snapshot(peer_id: u128, now: u64) -> FleetHealthSnapshotModel {
    FleetHealthSnapshotModel {
        config: FleetHealthConfig {
            peer_id,
            success_threshold: 2,
            failure_threshold: 3,
            cooldown_seconds: 30,
            updated_unix_seconds: now,
        },
        health: FleetPeerHealthModel {
            peer_id,
            state: FleetHealthState::Unknown,
            consecutive_successes: 0,
            consecutive_failures: 0,
            last_probe_unix_seconds: None,
            last_success_unix_seconds: None,
            last_failure_unix_seconds: None,
            last_latency_millis: None,
            last_error_summary: None,
            state_changed_unix_seconds: now,
            cooldown_until_unix_seconds: now,
            last_transition_reason: "awaiting_first_probe"@,
            revision: 0,
            active_connections: 0,
            bytes_total: 0,
            clients: 0,
            policies: 0,
        },
    }
}

pub fn new_snapshot(peer_id: u128, now: u64) -> (r: FleetHealthSnapshot)
    ensures
        r@ == initial_snapshot(peer_id, now),
{
    FleetHealthSnapshot {
        config: FleetHealthConfig {
            peer_id,
            success_threshold: default_success_threshold(),
            failure_threshold: default_failure_threshold(),
            cooldown_seconds: default_health_cooldown(),
            updated_unix_seconds: now,
        },
        health: FleetPeerHealth {
            peer_id,
            state: FleetHealthState::Unknown,
            consecutive_successes: 0,
            consecutive_failures: 0,
            last_probe_unix_seconds: None,
            last_success_unix_seconds: None,
            last_failure_unix_seconds: None,
            last_latency_millis: None,
            last_error_summary: None,
            state_changed_unix_seconds: now,
            cooldown_until_unix_seconds: now,
            last_transition_reason: "awaiting_first_probe".to_owned(),
            revision: 0,
            active_connections: 0,
            bytes_total: 0,
            clients: 0,
            policies: 0,
        },
    }
}

/// A snapshot under a changed configuration: the cooldown runs anew from the
/// last change of state.
pub open spec fn reconfigured(
    s: FleetHealthSnapshotModel,
    peer_id: u128,
    request: UpdateFleetHealthConfig,
    now: u64,
) -> FleetHealthSnapshotModel {
    FleetHealthSnapshotModel {
        config: FleetHealthConfig {
            peer_id,
            success_threshold: request.success_threshold,
            failure_threshold: request.failure_threshold,
            cooldown_seconds: request.cooldown_seconds,
            updated_unix_seconds: now,
        },
        health: FleetPeerHealthModel {
            cooldown_until_unix_seconds: sat_add(
                s.health.state_changed_unix_seconds,
                request.cooldown_seconds as nat,
            ),
            ..s.health
        },
    }
}

/// The error that a failed probe leaves behind.
pub open spec fn failure_text(error: Option<Seq<char>>) -> Seq<char> {
    match error {
        Some(text) => if error_summary(text).len() > 0 {
            error_summary(text)
        } else {
            "probe failed"@
        },
        None => "probe failed"@,
    }
}

/// A probe older than the last one is stale.
pub open spec fn stale_probe(h: FleetPeerHealthModel, o: FleetProbeObservationModel) -> bool {
    match h.last_probe_unix_seconds {
        Some(last) => o.observed_unix_seconds < last,
        None => false,
    }
}

/// The health of a peer after an accepted probe.
pub open spec fn probed(
    s: FleetHealthSnapshotModel,
    o: FleetProbeObservationModel,
) -> FleetPeerHealthModel {
    let h = s.health;
    let step = health_step(
        h.state,
        h.consecutive_successes,
        h.consecutive_failures,
        o.success,
        s.config.success_threshold,
        s.config.failure_threshold,
    );
    let changed = step.state != h.state;
    FleetPeerHealthModel {
        peer_id: h.peer_id,
        state: step.state,
        consecutive_successes: step.successes,
        consecutive_failures: step.failures,
        last_probe_unix_seconds: Some(o.observed_unix_seconds),
        last_success_unix_seconds: if o.success {
            Some(o.observed_unix_seconds)
        } else {
            h.last_success_unix_seconds
        },
        last_failure_unix_seconds: if o.success {
            h.last_failure_unix_seconds
        } else {
            Some(o.observed_unix_seconds)
        },
        last_latency_millis: o.latency_millis,
        last_error_summary: if o.success {
            None
        } else {
            Some(failure_text(o.error_summary))
        },
        state_changed_unix_seconds: if changed {
            o.observed_unix_seconds
        } else {
            h.state_changed_unix_seconds
        },
        cooldown_until_unix_seconds: if changed {
            sat_add(o.observed_unix_seconds, s.config.cooldown_seconds as nat)
        } else {
            h.cooldown_until_unix_seconds
        },
        last_transition_reason: step.reason,
        revision: sat_add(h.revision, 1),
        active_connections: o.active_connections,
        bytes_total: o.bytes_total,
        clients: o.clients,
        policies: o.policies,
    }
}

/// The health of a peer after an accepted probe.
pub fn apply_probe(s: &FleetHealthSnapshot, o: &FleetProbeObservation) -> (r: FleetPeerHealth)
    ensures
        r@ == probed(s@, o@),
{
    let h = &s.health;
    let (state, successes, failures, reason) = next_health_state(
        h.state,
        h.consecutive_successes,
        h.consecutive_failures,
        o.success,
        s.config.success_threshold,
        s.config.failure_threshold,
    );
    let changed = state != h.state;
    let at: u64 = o.observed_unix_seconds;
    let last_error_summary: Option<String> = if o.success {
        None
    } else {
        let summary = match &o.error_summary {
            Some(text) => summarize_error(text.as_str()),
            None => String::new(),
        };
        if summary.as_str().is_empty() {
            Some("probe failed".to_owned())
        } else {
            Some(summary)
        }
    };
    FleetPeerHealth {
        peer_id: h.peer_id,
        state,
        consecutive_successes: successes,
        consecutive_failures: failures,
        last_probe_unix_seconds: Some(at),
        last_success_unix_seconds: if o.success {
            Some(at)
        } else {
            h.last_success_unix_seconds
        },
        last_failure_unix_seconds: if o.success {
            h.last_failure_unix_seconds
        } else {
            Some(at)
        },
        last_latency_millis: o.latency_millis,
        last_error_summary,
        state_changed_unix_seconds: if changed {
            at
        } else {
            h.state_changed_unix_seconds
        },
        cooldown_until_unix_seconds: if changed {
            at.saturating_add(s.config.cooldown_seconds as u64)
        } else {
            h.cooldown_until_unix_seconds
        },
        last_transition_reason: reason.to_owned(),
        revision: h.revision.saturating_add(1),
        active_connections: o.active_connections,
        bytes_total: o.bytes_total,
        clients: o.clients,
        policies: o.policies,
    }
}

/// The event that a probe leaves in the history.
pub open spec fn event_of(
    peer_id: u128,
    o: FleetProbeObservationModel,
    accepted: bool,
    previous: FleetHealthState,
    resulting: FleetHealthState,
    reason: Seq<char>,
) -> FleetProbeEventModel {
    FleetProbeEventModel {
        event_id: o.event_id,
        peer_id,
        observed_unix_seconds: o.observed_unix_seconds,
        success: o.success,
        accepted,
        latency_millis: o.latency_millis,
        error_summary: match o.error_summary {
            Some(text) => Some(error_summary(text)),
            None => None,
        },
        previous_state: previous,
        resulting_state: resulting,
        transition_reason: reason,
    }
}

pub fn new_event(
    peer_id: u128,
    o: &FleetProbeObservation,
    accepted: bool,
    previous: FleetHealthState,
    resulting: FleetHealthState,
    reason: &str,
) -> (r: FleetProbeEvent)
    ensures
        r@ == event_of(peer_id, o@, accepted, previous, resulting, reason@),
{
    FleetProbeEvent {
        event_id: o.event_id,
        peer_id,
        observed_unix_seconds: o.observed_unix_seconds,
        success: o.success,
        accepted,
        latency_millis: o.latency_millis,
        error_summary: match &o.error_summary {
            Some(text) => Some(summarize_error(text.as_str())),
            None => None,
        },
        previous_state: previous,
        resulting_state: resulting,
        transition_reason: reason.to_owned(),
    }
}

// ---------------------------------------------------------------------------
// Lists
// ---------------------------------------------------------------------------

pub open spec fn snapshot_models(v: Seq<FleetHealthSnapshot>) -> Seq<FleetHealthSnapshotModel> {
    v.map_values(|x: FleetHealthSnapshot| x@)
}

pub open spec fn snapshot_ids(s: Seq<FleetHealthSnapshotModel>) -> Seq<u128> {
    s.map_values(|x: FleetHealthSnapshotModel| x.health.peer_id)
}

/// The snapshot of a peer.
pub open spec fn find_snapshot(s: Seq<FleetHealthSnapshotModel>, peer_id: u128) -> Option<
    FleetHealthSnapshotModel,
> {
    let i = first_id(snapshot_ids(s), peer_id);
    if i < s.len() {
        Some(s[i])
    } else {
        None
    }
}

pub open spec fn probe_event_models(v: Seq<FleetProbeEvent>) -> Seq<FleetProbeEventModel> {
    v.map_values(|x: FleetProbeEvent| x@)
}

pub open spec fn probe_event_ids(s: Seq<FleetProbeEventModel>) -> Seq<u128> {
    s.map_values(|x: FleetProbeEventModel| x.event_id)
}

pub fn snapshot_position(v: &Vec<FleetHealthSnapshot>, peer_id: u128) -> (r: Option<usize>)
    ensures
        match r {
            Some(i) => i < v@.len() && i == first_id(snapshot_ids(snapshot_models(v@)), peer_id)
                && v@[i as int].health.peer_id == peer_id,
            None => first_id(snapshot_ids(snapshot_models(v@)), peer_id) == v@.len(),
        },
{
    let ghost ids = snapshot_ids(snapshot_models(v@));
    assert(ids.len() == v@.len());
    assert(forall|j: int| 0 <= j < v@.len() ==> ids[j] == v@[j].health.peer_id);
    let mut i: usize = 0;
    while i < v.len()
        invariant
            i <= v@.len(),
            ids == snapshot_ids(snapshot_models(v@)),
            ids.len() == v@.len(),
            forall|j: int| 0 <= j < v@.len() ==> ids[j] == v@[j].health.peer_id,
            forall|j: int| 0 <= j < i ==> ids[j] != peer_id,
        decreases v@.len() - i,
    {
        if v[i].health.peer_id == peer_id {
            proof {
                lemma_first_id_unique(ids, peer_id, i as int);
            }
            return Some(i);
        }
        i = i + 1;
    }
    proof {
        lemma_first_id_unique(ids, peer_id, v@.len() as int);
    }
    None
}

pub fn event_position(v: &Vec<FleetProbeEvent>, event_id: u128) -> (r: Option<usize>)
    ensures
        match r {
            Some(i) => i < v@.len() && i == first_id(
                probe_event_ids(probe_event_models(v@)),
                event_id,
            ) && v@[i as int].event_id == event_id,
            None => first_id(probe_event_ids(probe_event_models(v@)), event_id) == v@.len(),
        },
{
    let ghost ids = probe_event_ids(probe_event_models(v@));
    assert(ids.len() == v@.len());
    assert(forall|j: int| 0 <= j < v@.len() ==> ids[j] == v@[j].event_id);
    let mut i: usize = 0;
    while i < v.len()
        invariant
            i <= v@.len(),
            ids == probe_event_ids(probe_event_models(v@)),
            ids.len() == v@.len(),
            forall|j: int| 0 <= j < v@.len() ==> ids[j] == v@[j].event_id,
            forall|j: int| 0 <= j < i ==> ids[j] != event_id,
        decreases v@.len() - i,
    {
        if v[i].event_id == event_id {
            proof {
                lemma_first_id_unique(ids, event_id, i as int);
            }
            return Some(i);
        }
        i = i + 1;
    }
    proof {
        lemma_first_id_unique(ids, event_id, v@.len() as int);
    }
    None
}

/// The number of probes that are remembered per peer.
pub const MAX_PROBE_EVENTS_PER_PEER: usize = 16_384;

/// The number of remembered probes of a peer.
pub open spec fn peer_event_count(s: Seq<FleetProbeEventModel>, peer_id: u128) -> nat
    decreases s.len(),
{
    if s.len() == 0 {
        0
    } else {
        peer_event_count(s.drop_last(), peer_id) + if s.last().peer_id == peer_id {
            1nat
        } else {
            0nat
        }
    }
}

/// The position of the oldest remembered probe of a peer, -1 where there is
/// none; of equally old ones the one recorded first.
pub open spec fn oldest_event(s: Seq<FleetProbeEventModel>, peer_id: u128) -> int
    decreases s.len(),
{
    if s.len() == 0 {
        -1
    } else {
        let best = oldest_event(s.drop_last(), peer_id);
        if s.last().peer_id == peer_id && (best < 0 || s.last().observed_unix_seconds
            < s[best].observed_unix_seconds) {
            s.len() - 1
        } else {
            best
        }
    }
}

/// The history without the oldest probes of a peer that has too many.
pub open spec fn kept_events(s: Seq<FleetProbeEventModel>, peer_id: u128) -> Seq<
    FleetProbeEventModel,
>
    decreases s.len(),
{
    let oldest = oldest_event(s, peer_id);
    if peer_event_count(s, peer_id) > MAX_PROBE_EVENTS_PER_PEER && 0 <= oldest < s.len() {
        kept_events(s.remove(oldest), peer_id)
    } else {
        s
    }
}

proof fn lemma_oldest_event(s: Seq<FleetProbeEventModel>, peer_id: u128)
    ensures
        -1 <= oldest_event(s, peer_id) < s.len(),
        peer_event_count(s, peer_id) <= s.len(),
        peer_event_count(s, peer_id) > 0 ==> oldest_event(s, peer_id) >= 0,
    decreases s.len(),
{
    if s.len() > 0 {
        lemma_oldest_event(s.drop_last(), peer_id);
    }
}

/// Drops the oldest probes of a peer that has too many.
pub fn keep_events(v: &mut Vec<FleetProbeEvent>, peer_id: u128)
    ensures
        probe_event_models(final(v)@) == kept_events(probe_event_models(old(v)@), peer_id),
{
    let ghost start = probe_event_models(v@);
    loop
        invariant
            start == probe_event_models(old(v)@),
            kept_events(start, peer_id) == kept_events(probe_event_models(v@), peer_id),
        decreases v@.len(),
    {
        let ghost models = probe_event_models(v@);
        let mut count: usize = 0;
        let mut oldest: Option<usize> = None;
        let mut i: usize = 0;
        assert(models.take(0) =~= Seq::empty());
        while i < v.len()
            invariant
                i <= v@.len(),
                models == probe_event_models(v@),
                count <= i,
                count == peer_event_count(models.take(i as int), peer_id),
                match oldest {
                    Some(o) => o < i && o == oldest_event(models.take(i as int), peer_id),
                    None => oldest_event(models.take(i as int), peer_id) < 0,
                },
            decreases v@.len() - i,
        {
            proof {
                assert(models.take(i + 1).drop_last() =~= models.take(i as int));
                assert(models.take(i + 1).last() == v@[i as int]@);
            }
            if v[i].peer_id == peer_id {
                count = count + 1;
                match oldest {
                    Some(o) => {
                        assert(models.take(i + 1)[o as int] == v@[o as int]@);
                        if v[i].observed_unix_seconds < v[o].observed_unix_seconds {
                            oldest = Some(i);
                        }
                    },
                    None => {
                        oldest = Some(i);
                    },
                }
            }
            i = i + 1;
        }
        proof {
            assert(models.take(models.len() as int) =~= models);
            lemma_oldest_event(models, peer_id);
        }
        if count <= MAX_PROBE_EVENTS_PER_PEER {
            return ;
        }
        match oldest {
            Some(o) => {
                let ghost before = v@;
                v.remove(o);
                assert(probe_event_models(v@) =~= probe_event_models(before).remove(o as int));
            },
            None => {
                return ;
            },
        }
    }
}

/// Counters over everything that was ever recorded; each stops at its largest
/// value.
#[derive(Clone, Copy, Debug, Default, PartialEq, Eq, Structural)]
pub struct FleetHealthCounters {
    pub probe_events_total: u64,
    pub probe_failures_total: u64,
    pub health_transitions_total: u64,
    pub dns_switches_total: u64,
    pub dns_switch_failures_total: u64,
}

/// The counters after a recorded probe.
pub open spec fn counted_probe(
    c: FleetHealthCounters,
    success: bool,
    accepted: bool,
    previous: FleetHealthState,
    resulting: FleetHealthState,
) -> FleetHealthCounters {
    FleetHealthCounters {
        probe_events_total: sat_add(c.probe_events_total, 1),
        probe_failures_total: if accepted && !success {
            sat_add(c.probe_failures_total, 1)
        } else {
            c.probe_failures_total
        },
        health_transitions_total: if accepted && previous != resulting {
            sat_add(c.health_transitions_total, 1)
        } else {
            c.health_transitions_total
        },
        ..c
    }
}

pub fn count_probe(
    c: FleetHealthCounters,
    success: bool,
    accepted: bool,
    previous: FleetHealthState,
    resulting: FleetHealthState,
) -> (r: FleetHealthCounters)
    ensures
        r == counted_probe(c, success, accepted, previous, resulting),
{
    FleetHealthCounters {
        probe_events_total: c.probe_events_total.saturating_add(1),
        probe_failures_total: if accepted && !success {
            c.probe_failures_total.saturating_add(1)
        } else {
            c.probe_failures_total
        },
        health_transitions_total: if accepted && previous != resulting {
            c.health_transitions_total.saturating_add(1)
        } else {
            c.health_transitions_total
        },
        dns_switches_total: c.dns_switches_total,
        dns_switch_failures_total: c.dns_switch_failures_total,
    }
}

/// The history of a peer is bounded, and keeping it so forgets no probe of
/// another peer.
pub proof fn law_probe_history_is_bounded(
    s: Seq<FleetProbeEventModel>,
    peer_id: u128,
    other: u128,
)
    ensures
        peer_event_count(kept_events(s, peer_id), peer_id) <= MAX_PROBE_EVENTS_PER_PEER,
        other != peer_id ==> peer_event_count(kept_events(s, peer_id), other)
            == peer_event_count(s, other),
    decreases s.len(),
{
    let oldest = oldest_event(s, peer_id);
    lemma_oldest_event(s, peer_id);
    if peer_event_count(s, peer_id) > MAX_PROBE_EVENTS_PER_PEER {
        lemma_oldest_is_of_the_peer(s, peer_id);
        lemma_event_count_remove(s, oldest, peer_id);
        lemma_event_count_remove(s, oldest, other);
        law_probe_history_is_bounded(s.remove(oldest), peer_id, other);
    }
}

proof fn lemma_oldest_is_of_the_peer(s: Seq<FleetProbeEventModel>, peer_id: u128)
    ensures
        -1 <= oldest_event(s, peer_id) < s.len(),
        oldest_event(s, peer_id) >= 0 ==> s[oldest_event(s, peer_id)].peer_id == peer_id,
    decreases s.len(),
{
    if s.len() > 0 {
        lemma_oldest_is_of_the_peer(s.drop_last(), peer_id);
    }
}

proof fn lemma_event_count_remove(s: Seq<FleetProbeEventModel>, i: int, peer_id: u128)
    requires
        0 <= i < s.len(),
    ensures
        peer_event_count(s, peer_id) == peer_event_count(s.remove(i), peer_id) + if s[i].peer_id
            == peer_id {
            1nat
        } else {
            0nat
        },
    decreases s.len(),
{
    let t = s.remove(i);
    if i == s.len() - 1 {
        assert(t =~= s.drop_last());
    } else {
        lemma_event_count_remove(s.drop_last(), i, peer_id);
        assert(t.drop_last() =~= s.drop_last().remove(i));
        assert(t.last() == s.last());
    }
}

/// A failed probe never makes a peer healthy: it is unhealthy where it was
/// unhealthy or recovering, or where its failures in a row reach the threshold,
/// and is degraded otherwise.
pub proof fn law_failures_never_lead_to_health(
    current: FleetHealthState,
    successes: u16,
    failures: u16,
    success_threshold: u16,
    failure_threshold: u16,
)
    ensures
        ({
            let step = health_step(
                current,
                successes,
                failures,
                false,
                success_threshold,
                failure_threshold,
            );
            &&& step.state == FleetHealthState::Unhealthy || step.state
                == FleetHealthState::Degraded
            &&& step.state == FleetHealthState::Unhealthy <==> (current
                == FleetHealthState::Unhealthy || current == FleetHealthState::Recovering
                || failures + 1 >= failure_threshold)
            &&& step.successes == 0
            &&& step.failures == if failures < 65535 {
                failures + 1
            } else {
                65535
            }
        }),
{
}

/// A peer becomes healthy only by a success that brings its successes in a row to
/// the threshold. Short of it a degraded peer and an unknown one stay what they
/// are, and an unhealthy one recovers.
pub proof fn law_health_takes_enough_successes(
    current: FleetHealthState,
    successes: u16,
    failures: u16,
    success_threshold: u16,
    failure_threshold: u16,
)
    ensures
        ({
            let step = health_step(
                current,
                successes,
                failures,
                true,
                success_threshold,
                failure_threshold,
            );
            &&& step.state == FleetHealthState::Healthy <==> (current == FleetHealthState::Healthy
                || successes + 1 >= success_threshold)
            &&& step.state == FleetHealthState::Degraded ==> current == FleetHealthState::Degraded
            &&& step.state == FleetHealthState::Unknown ==> current == FleetHealthState::Unknown
            &&& step.state == FleetHealthState::Recovering ==> (current
                == FleetHealthState::Unhealthy || current == FleetHealthState::Recovering)
            &&& step.state != FleetHealthState::Unhealthy
            &&& step.failures == 0
            &&& step.successes == if successes < 65535 {
                successes + 1
            } else {
                65535
            }
        }),
{
}

/// The reason of a judgement tells which rule it came from: thresholds are only
/// named where they were met, and no two rules share a reason.
pub proof fn law_reasons_tell_the_rule(
    current: FleetHealthState,
    successes: u16,
    failures: u16,
    success: bool,
    success_threshold: u16,
    failure_threshold: u16,
)
    ensures
        ({
            let step = health_step(
                current,
                successes,
                failures,
                success,
                success_threshold,
                failure_threshold,
            );
            let met = success && successes + 1 >= success_threshold;
            let lost = !success && failures + 1 >= failure_threshold;
            &&& success && current == FleetHealthState::Healthy ==> step.reason
                == "probe_succeeded"@
            &&& met && current != FleetHealthState::Healthy ==> step.reason
                == "success_threshold_met"@
            &&& success && !met && current == FleetHealthState::Degraded ==> step.reason
                == "health_confirmation_in_progress"@
            &&& success && !met && current == FleetHealthState::Unknown ==> step.reason
                == "initial_health_confirmation_in_progress"@
            &&& success && step.state == FleetHealthState::Recovering ==> step.reason
                == "recovery_in_progress"@
            &&& !success && current == FleetHealthState::Unhealthy ==> step.reason
                == "probe_still_failing"@
            &&& !success && current == FleetHealthState::Recovering ==> step.reason
                == "recovery_failed"@
            &&& lost && current != FleetHealthState::Unhealthy && current
                != FleetHealthState::Recovering ==> step.reason == "failure_threshold_met"@
            &&& step.state == FleetHealthState::Degraded && !success ==> step.reason
                == "failure_below_threshold"@
        }),
{
}

/// DNS is directed to a peer only while it is enabled and healthy, from the end of
/// its cooldown on.
pub proof fn law_dns_waits_for_health_and_cooldown(
    h: FleetPeerHealthModel,
    enabled: bool,
    now: u64,
)
    ensures
        h.dns_eligible(enabled, now) <==> (enabled && h.state == FleetHealthState::Healthy && now
            >= h.cooldown_until_unix_seconds),
{
}

/// An accepted probe moves the times, the counts and the load of the peer to what
/// was observed. A cooldown starts where the state changes, and only there.
pub proof fn law_a_probe_moves_the_health_on(
    s: FleetHealthSnapshotModel,
    o: FleetProbeObservationModel,
)
    ensures
        ({
            let h = s.health;
            let after = probed(s, o);
            &&& after.peer_id == h.peer_id
            &&& after.last_probe_unix_seconds == Some(o.observed_unix_seconds)
            &&& o.success ==> after.last_success_unix_seconds == Some(o.observed_unix_seconds)
                && after.last_failure_unix_seconds == h.last_failure_unix_seconds
                && after.last_error_summary is None
            &&& !o.success ==> after.last_failure_unix_seconds == Some(o.observed_unix_seconds)
                && after.last_success_unix_seconds == h.last_success_unix_seconds
                && after.last_error_summary is Some && after.last_error_summary->0.len() > 0
            &&& after.last_latency_millis == o.latency_millis
            &&& after.active_connections == o.active_connections
            &&& after.bytes_total == o.bytes_total
            &&& after.clients == o.clients
            &&& after.policies == o.policies
            &&& h.revision < u64::MAX ==> after.revision == h.revision + 1
            &&& after.state == h.state ==> after.state_changed_unix_seconds
                == h.state_changed_unix_seconds && after.cooldown_until_unix_seconds
                == h.cooldown_until_unix_seconds
            &&& after.state != h.state ==> after.state_changed_unix_seconds
                == o.observed_unix_seconds && (o.observed_unix_seconds + s.config.cooldown_seconds
                <= u64::MAX ==> after.cooldown_until_unix_seconds == o.observed_unix_seconds
                + s.config.cooldown_seconds)
            &&& after.cooldown_until_unix_seconds != h.cooldown_until_unix_seconds
                ==> after.cooldown_until_unix_seconds >= o.observed_unix_seconds
        }),
{
    reveal_strlit("probe failed");
}

/// A peer is healthy after a probe exactly if the probe succeeded and it was healthy
/// before or its run of successes is long enough; it is unhealthy exactly if the probe
/// failed and it was unhealthy or recovering, or its run of failures is long enough.
pub proof fn law_a_healthy_peer_has_succeeded(
    s: FleetHealthSnapshotModel,
    o: FleetProbeObservationModel,
)
    ensures
        probed(s, o).state == FleetHealthState::Healthy <==> (o.success && (s.health.state
            == FleetHealthState::Healthy || s.health.consecutive_successes + 1
            >= s.config.success_threshold)),
        probed(s, o).state == FleetHealthState::Unhealthy <==> (!o.success && (s.health.state
            == FleetHealthState::Unhealthy || s.health.state == FleetHealthState::Recovering
            || s.health.consecutive_failures + 1 >= s.config.failure_threshold)),
        o.success ==> probed(s, o).consecutive_failures == 0
            && probed(s, o).consecutive_successes >= s.health.consecutive_successes,
        !o.success ==> probed(s, o).consecutive_successes == 0 && probed(s, o).consecutive_failures
            >= s.health.consecutive_failures,
{
}

/// A peer that was never probed is unknown, has no run behind it and gets the
/// default thresholds, so that DNS is not directed to it.
pub proof fn law_new_peers_are_unknown(peer_id: u128, now: u64, enabled: bool, later: u64)
    ensures
        ({
            let s = initial_snapshot(peer_id, now);
            &&& s.config.peer_id == peer_id && s.health.peer_id == peer_id
            &&& s.config.success_threshold == 2
            &&& s.config.failure_threshold == 3
            &&& s.config.cooldown_seconds == 30
            &&& config_error(
                UpdateFleetHealthConfig {
                    success_threshold: s.config.success_threshold,
                    failure_threshold: s.config.failure_threshold,
                    cooldown_seconds: s.config.cooldown_seconds,
                },
            ) is None
            &&& s.health.consecutive_successes == 0 && s.health.consecutive_failures == 0
            &&& s.health.last_probe_unix_seconds is None
            &&& s.health.revision == 0
            &&& !s.health.dns_eligible(enabled, later)
            &&& s.config.updated_unix_seconds == now
            &&& s.health.state_changed_unix_seconds == now
            &&& s.health.last_success_unix_seconds is None
            &&& s.health.last_failure_unix_seconds is None
            &&& s.health.last_error_summary is None
            &&& s.health.last_transition_reason == "awaiting_first_probe"@
        }),
{
}

/// Thresholds are at least one and at most twenty, and a cooldown is at most a
/// day; the first rule that is broken is named.
pub proof fn law_configurations_are_bounded(request: UpdateFleetHealthConfig)
    ensures
        config_error(request) is None <==> 1 <= request.success_threshold <= 20 && 1
            <= request.failure_threshold <= 20 && request.cooldown_seconds <= 86400,
        config_error(request) == Some(FleetHealthError::InvalidSuccessThreshold) <==> !(1
            <= request.success_threshold <= 20),
        config_error(request) == Some(FleetHealthError::InvalidCooldown) ==> request.cooldown_seconds
            > 86400,
        config_error(request) == Some(FleetHealthError::InvalidFailureThreshold) ==> !(1
            <= request.failure_threshold <= 20),
{
}

/// A change of configuration judges nothing anew: only the thresholds, the
/// cooldown and its end, counted from the last change of state, are others.
pub proof fn law_reconfiguring_keeps_the_judgement(
    s: FleetHealthSnapshotModel,
    peer_id: u128,
    request: UpdateFleetHealthConfig,
    now: u64,
)
    ensures
        ({
            let after = reconfigured(s, peer_id, request, now);
            &&& after.config.success_threshold == request.success_threshold
            &&& after.config.failure_threshold == request.failure_threshold
            &&& after.config.cooldown_seconds == request.cooldown_seconds
            &&& after.config.peer_id == peer_id
            &&& after.config.updated_unix_seconds == now
            &&& after.health == (FleetPeerHealthModel {
                cooldown_until_unix_seconds: after.health.cooldown_until_unix_seconds,
                ..s.health
            })
            &&& s.health.state_changed_unix_seconds + request.cooldown_seconds <= u64::MAX
                ==> after.health.cooldown_until_unix_seconds
                == s.health.state_changed_unix_seconds + request.cooldown_seconds
            &&& after.health.cooldown_until_unix_seconds >= s.health.state_changed_unix_seconds
        }),
{
}

/// A probe is stale exactly where a later one was recorded.
pub proof fn law_only_older_probes_are_stale(
    s: FleetHealthSnapshotModel,
    first: FleetProbeObservationModel,
    second: FleetProbeObservationModel,
)
    ensures
        s.health.last_probe_unix_seconds is None ==> !stale_probe(s.health, first),
        stale_probe(probed(s, first), second) <==> second.observed_unix_seconds
            < first.observed_unix_seconds,
{
}

/// Probes are counted one by one: every recorded one, every accepted failure, and
/// every accepted change of state.
pub proof fn law_probes_are_counted(
    c: FleetHealthCounters,
    success: bool,
    accepted: bool,
    previous: FleetHealthState,
    resulting: FleetHealthState,
)
    ensures
        ({
            let after = counted_probe(c, success, accepted, previous, resulting);
            &&& c.probe_events_total < u64::MAX ==> after.probe_events_total
                == c.probe_events_total + 1
            &&& c.probe_failures_total < u64::MAX ==> after.probe_failures_total
                - c.probe_failures_total == if accepted && !success {
                1int
            } else {
                0int
            }
            &&& c.health_transitions_total < u64::MAX ==> after.health_transitions_total
                - c.health_transitions_total == if accepted && previous != resulting {
                1int
            } else {
                0int
            }
            &&& after.dns_switches_total == c.dns_switches_total
            &&& after.dns_switch_failures_total == c.dns_switch_failures_total
        }),
{
}

/// What a probe leaves in the history is what was observed, with the error in its
/// short form.
pub proof fn law_events_tell_what_was_observed(
    peer_id: u128,
    o: FleetProbeObservationModel,
    accepted: bool,
    previous: FleetHealthState,
    resulting: FleetHealthState,
    reason: Seq<char>,
)
    ensures
        ({
            let e = event_of(peer_id, o, accepted, previous, resulting, reason);
            &&& e.event_id == o.event_id
            &&& e.peer_id == peer_id
            &&& e.observed_unix_seconds == o.observed_unix_seconds
            &&& e.success == o.success
            &&& e.accepted == accepted
            &&& e.latency_millis == o.latency_millis
            &&& e.previous_state == previous
            &&& e.resulting_state == resulting
            &&& e.transition_reason == reason
            &&& e.error_summary is Some <==> o.error_summary is Some
            &&& o.error_summary is Some ==> e.error_summary->0 == error_summary(
                o.error_summary->0,
            )
        }),
{
}

proof fn lemma_summary_of_plain(s: Seq<char>, out: Seq<char>)
    requires
        forall|i: int| 0 <= i < s.len() ==> !control(#[trigger] s[i]),
        out.len() <= 320,
    ensures
        summary_of(s, out) == (out + s).take(
            if out.len() + s.len() <= 320 {
                (out.len() + s.len()) as int
            } else {
                320
            },
        ),
    decreases s.len(),
{
    if s.len() == 0 || out.len() >= MAX_ERROR_SUMMARY_CHARS {
        if s.len() == 0 {
            assert((out + s).take(out.len() as int) =~= out);
        } else {
            assert((out + s).take(320) =~= out);
        }
    } else {
        let t = s.drop_first();
        assert forall|i: int| 0 <= i < t.len() implies !control(#[trigger] t[i]) by {
            assert(t[i] == s[i + 1]);
        }
        assert(!control(s[0]));
        lemma_summary_of_plain(t, out.push(s[0]));
        assert(out.push(s[0]) + t =~= out + s);
    }
}

/// The summary of a text without control characters is its beginning, trimmed: all
/// of it where it has at most 320 characters.
pub proof fn law_plain_texts_are_their_own_summary(s: Seq<char>)
    requires
        forall|i: int| 0 <= i < s.len() ==> !control(#[trigger] s[i]),
    ensures
        s.len() <= 320 ==> error_summary(s) == trim(s),
        s.len() > 320 ==> error_summary(s) == trim(s.take(320)),
{
    lemma_summary_of_plain(s, Seq::empty());
    assert(Seq::<char>::empty() + s =~= s);
    assert(s.take(s.len() as int) =~= s);
}

proof fn lemma_summary_of_append(a: Seq<char>, b: Seq<char>, out: Seq<char>)
    ensures
        summary_of(a + b, out) == summary_of(b, summary_of(a, out)),
    decreases a.len(),
{
    if a.len() == 0 {
        assert(a + b =~= b);
    } else if out.len() >= MAX_ERROR_SUMMARY_CHARS {
    } else {
        let t = a.drop_first();
        assert((a + b).drop_first() =~= t + b);
        assert((a + b)[0] == a[0]);
        if !control(a[0]) {
            lemma_summary_of_append(t, b, out.push(a[0]));
        } else if out.len() > 0 && out.last() == ' ' {
            lemma_summary_of_append(t, b, out);
        } else {
            lemma_summary_of_append(t, b, out.push(' '));
        }
    }
}

/// Control characters in a row stand for one space: a control character reads as a
/// space would, and one more after it changes nothing.
pub proof fn law_control_characters_read_as_one_space(
    a: Seq<char>,
    b: Seq<char>,
    c: char,
    d: char,
)
    requires
        control(c),
        control(d),
    ensures
        error_summary(a + seq![c, d] + b) == error_summary(a + seq![c] + b),
        (a.len() == 0 || a.last() != ' ' && !control(a.last())) ==> error_summary(
            a + seq![c] + b,
        ) == error_summary(a + seq![' '] + b),
{
    let e = Seq::<char>::empty();
    let out = summary_of(a, e);
    lemma_summary_of(a, e);
    lemma_summary_of_append(a, seq![c, d] + b, e);
    lemma_summary_of_append(a, seq![c] + b, e);
    lemma_summary_of_append(a, seq![' '] + b, e);
    assert(a + seq![c, d] + b =~= a + (seq![c, d] + b));
    assert(a + seq![c] + b =~= a + (seq![c] + b));
    assert(a + seq![' '] + b =~= a + (seq![' '] + b));
    lemma_summary_of_append(seq![c, d], b, out);
    lemma_summary_of_append(seq![c], b, out);
    lemma_summary_of_append(seq![' '], b, out);
    assert(seq![c, d].drop_first() =~= seq![d]);
    assert(seq![d].drop_first() =~= e);
    assert(seq![c].drop_first() =~= e);
    assert(seq![' '].drop_first() =~= e);
    reveal_with_fuel(summary_of, 3);
    assert(!control(' '));
    if a.len() > 0 && a.last() != ' ' && !control(a.last()) {
        let f = a.drop_last();
        assert(f + seq![a.last()] =~= a);
        lemma_summary_of_append(f, seq![a.last()], e);
        lemma_summary_of(f, e);
        assert(seq![a.last()].drop_first() =~= e);
        assert(out.len() >= 320 || out == summary_of(f, e).push(a.last()));
    }
}

proof fn lemma_oldest_is_oldest(s: Seq<FleetProbeEventModel>, peer_id: u128)
    ensures
        -1 <= oldest_event(s, peer_id) < s.len(),
        oldest_event(s, peer_id) >= 0 ==> s[oldest_event(s, peer_id)].peer_id == peer_id,
        oldest_event(s, peer_id) < 0 ==> peer_event_count(s, peer_id) == 0,
        forall|i: int|
            0 <= i < s.len() && (#[trigger] s[i]).peer_id == peer_id && oldest_event(s, peer_id)
                >= 0 ==> s[oldest_event(s, peer_id)].observed_unix_seconds
                <= s[i].observed_unix_seconds,
    decreases s.len(),
{
    if s.len() > 0 {
        let t = s.drop_last();
        lemma_oldest_is_oldest(t, peer_id);
        let best = oldest_event(t, peer_id);
        if best < 0 {
            assert forall|i: int| 0 <= i < t.len() implies (#[trigger] s[i]).peer_id != peer_id by {
                lemma_counted(t, peer_id, i);
                assert(s[i] == t[i]);
            }
        }
        assert forall|i: int|
            0 <= i < s.len() && (#[trigger] s[i]).peer_id == peer_id && oldest_event(s, peer_id)
                >= 0 implies s[oldest_event(s, peer_id)].observed_unix_seconds
            <= s[i].observed_unix_seconds by {
            if i < t.len() {
                assert(s[i] == t[i]);
            }
        }
    }
}

proof fn lemma_counted(s: Seq<FleetProbeEventModel>, peer_id: u128, i: int)
    requires
        0 <= i < s.len(),
    ensures
        s[i].peer_id == peer_id ==> peer_event_count(s, peer_id) > 0,
    decreases s.len(),
{
    if i < s.len() - 1 {
        lemma_counted(s.drop_last(), peer_id, i);
    }
}

/// The history forgets no more than it has to, and the oldest first: it keeps the
/// probes of a peer down to 16384, and no forgotten probe is newer than one of the
/// same peer that is kept.
pub proof fn law_the_oldest_probes_are_forgotten(s: Seq<FleetProbeEventModel>, peer_id: u128)
    ensures
        peer_event_count(kept_events(s, peer_id), peer_id) == if peer_event_count(s, peer_id)
            > 16384 {
            16384
        } else {
            peer_event_count(s, peer_id)
        },
        peer_event_count(s, peer_id) <= 16384 ==> kept_events(s, peer_id) == s,
        forall|i: int|
            0 <= i < s.len() && (#[trigger] s[i]).peer_id != peer_id ==> kept_events(
                s,
                peer_id,
            ).contains(s[i]),
        forall|i: int, j: int|
            0 <= i < s.len() && 0 <= j < kept_events(s, peer_id).len() && (
            #[trigger] s[i]).peer_id == peer_id && (#[trigger] kept_events(
                s,
                peer_id,
            )[j]).peer_id == peer_id && !kept_events(s, peer_id).contains(s[i])
                ==> s[i].observed_unix_seconds <= kept_events(
                s,
                peer_id,
            )[j].observed_unix_seconds,
        forall|j: int|
            0 <= j < kept_events(s, peer_id).len() ==> s.contains(
                #[trigger] kept_events(s, peer_id)[j],
            ),
    decreases s.len(),
{
    let oldest = oldest_event(s, peer_id);
    lemma_oldest_is_oldest(s, peer_id);
    lemma_oldest_event(s, peer_id);
    let kept = kept_events(s, peer_id);
    if peer_event_count(s, peer_id) > 16384 {
        let t = s.remove(oldest);
        lemma_event_count_remove(s, oldest, peer_id);
        law_the_oldest_probes_are_forgotten(t, peer_id);
        assert(kept == kept_events(t, peer_id));
        assert forall|j: int| 0 <= j < kept.len() implies s.contains(#[trigger] kept[j]) by {
            assert(t.contains(kept[j]));
            let k = choose|k: int| 0 <= k < t.len() && t[k] == kept[j];
            assert(s[if k < oldest {
                k
            } else {
                k + 1
            }] == kept[j]);
        }
        assert forall|i: int| 0 <= i < s.len() && (#[trigger] s[i]).peer_id != peer_id implies kept.contains(
            s[i],
        ) by {
            let k = if i < oldest {
                i
            } else {
                i - 1
            };
            assert(t[k] == s[i]);
        }
        assert forall|i: int, j: int|
            0 <= i < s.len() && 0 <= j < kept.len() && (#[trigger] s[i]).peer_id == peer_id && (
            #[trigger] kept[j]).peer_id == peer_id && !kept.contains(s[i]) implies s[i].observed_unix_seconds
            <= kept[j].observed_unix_seconds by {
            if i == oldest {
                assert(s.contains(kept[j]));
                let k = choose|k: int| 0 <= k < s.len() && s[k] == kept[j];
                assert(s[k].peer_id == peer_id);
            } else {
                let k = if i < oldest {
                    i
                } else {
                    i - 1
                };
                assert(t[k] == s[i]);
            }
        }
    }
}

} // verus!
