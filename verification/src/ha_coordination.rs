//! Membership leases of the instances of a cluster, the election of a leader
//! and the fencing of its writes.

use crate::fleet_coordination::{has_control, holds_control};
use crate::number::{decimal, push_decimal};
use crate::stored_numbers::MAX_STORED;
use crate::text::{
    chars_of, fits_utf8, lemma_lex_total, lemma_lex_transitive, lex_less, same_text, string_of,
    text_before, trim, trimmed, utf8_len,
};
use crate::uuids::{hyphenated, new_uuid, random_layout, uuid_text};
use vstd::prelude::*;
use vstd::string::*;

verus! {

pub const MAX_INSTANCE_ID_BYTES: usize = 128;

pub const MAX_METADATA_JSON_BYTES: usize = 16384;

pub const MAX_MEMBER_LEASE_SECONDS: u64 = 300;

pub const MAX_LEADER_LEASE_SECONDS: u64 = 120;

/// How many expired leases one maintenance run deletes.
pub const EXPIRED_LEASE_BATCH_SIZE: u64 = 128;

/// The lease of an instance.
#[derive(Clone, Debug, PartialEq, Eq)]
pub struct HaMember {
    pub instance_id: String,
    pub incarnation_id: String,
    pub started_unix_seconds: u64,
    pub last_seen_unix_seconds: u64,
    pub lease_until_unix_seconds: u64,
    pub metadata_json: String,
}

/// What a [`HaMember`] says.
pub struct HaMemberModel {
    pub instance_id: Seq<char>,
    pub incarnation_id: Seq<char>,
    pub started_unix_seconds: u64,
    pub last_seen_unix_seconds: u64,
    pub lease_until_unix_seconds: u64,
    pub metadata_json: Seq<char>,
}

impl View for HaMember {
    type V = HaMemberModel;

    open spec fn view(&self) -> HaMemberModel {
        HaMemberModel {
            instance_id: self.instance_id@,
            incarnation_id: self.incarnation_id@,
            started_unix_seconds: self.started_unix_seconds,
            last_seen_unix_seconds: self.last_seen_unix_seconds,
            lease_until_unix_seconds: self.lease_until_unix_seconds,
            metadata_json: self.metadata_json@,
        }
    }
}

impl HaMember {
    /// A copy of the value.
    pub fn duplicate(&self) -> (r: Self)
        ensures
            r@ == self@,
    {
        let r = HaMember {
            instance_id: self.instance_id.clone(),
            incarnation_id: self.incarnation_id.clone(),
            started_unix_seconds: self.started_unix_seconds,
            last_seen_unix_seconds: self.last_seen_unix_seconds,
            lease_until_unix_seconds: self.lease_until_unix_seconds,
            metadata_json: self.metadata_json.clone(),
        };
        r
    }

    /// Copies of a list of values.
    pub fn duplicate_all(v: &Vec<Self>) -> (r: Vec<Self>)
        ensures
            r@.map_values(|x: Self| x@) == v@.map_values(|x: Self| x@),
    {
        let mut out: Vec<Self> = Vec::new();
        let mut i: usize = 0;
        while i < v.len()
            invariant
                i <= v@.len(),
                out@.len() == i,
                forall|j: int| 0 <= j < i ==> (#[trigger] out@[j])@ == v@[j]@,
            decreases v@.len() - i,
        {
            out.push(v[i].duplicate());
            i = i + 1;
        }
        assert(out@.map_values(|x: Self| x@) =~= v@.map_values(|x: Self| x@));
        out
    }
}

/// The lease of the leader. Every acquisition of leadership has a larger fencing
/// token than those before it.
#[derive(Clone, Debug, PartialEq, Eq)]
pub struct LeadershipLease {
    pub instance_id: String,
    pub incarnation_id: String,
    pub fencing_token: u64,
    pub acquired_unix_seconds: u64,
    pub renewed_unix_seconds: u64,
    pub lease_until_unix_seconds: u64,
}

/// What a [`LeadershipLease`] says.
pub struct LeadershipLeaseModel {
    pub instance_id: Seq<char>,
    pub incarnation_id: Seq<char>,
    pub fencing_token: u64,
    pub acquired_unix_seconds: u64,
    pub renewed_unix_seconds: u64,
    pub lease_until_unix_seconds: u64,
}

impl View for LeadershipLease {
    type V = LeadershipLeaseModel;

    open spec fn view(&self) -> LeadershipLeaseModel {
        LeadershipLeaseModel {
            instance_id: self.instance_id@,
            incarnation_id: self.incarnation_id@,
            fencing_token: self.fencing_token,
            acquired_unix_seconds: self.acquired_unix_seconds,
            renewed_unix_seconds: self.renewed_unix_seconds,
            lease_until_unix_seconds: self.lease_until_unix_seconds,
        }
    }
}

impl LeadershipLease {
    /// A copy of the value.
    pub fn duplicate(&self) -> (r: Self)
        ensures
            r@ == self@,
    {
        let r = LeadershipLease {
            instance_id: self.instance_id.clone(),
            incarnation_id: self.incarnation_id.clone(),
            fencing_token: self.fencing_token,
            acquired_unix_seconds: self.acquired_unix_seconds,
            renewed_unix_seconds: self.renewed_unix_seconds,
            lease_until_unix_seconds: self.lease_until_unix_seconds,
        };
        r
    }
}

/// Why a lease operation was refused.
#[derive(Clone, Copy, Debug, PartialEq, Eq, Structural)]
pub enum HaError {
    AnotherIncarnation,
    MemberLeaseRequired,
    ZeroFencingToken,
    StaleFencingToken,
    ValueTooLarge,
}

pub open spec fn ha_error_text(e: HaError) -> Seq<char> {
    match e {
        HaError::AnotherIncarnation => "another incarnation is active for this HA instance ID"@,
        HaError::MemberLeaseRequired => "active HA member lease is required before acquiring leadership"@,
        HaError::ZeroFencingToken => "fencing token must be positive"@,
        HaError::StaleFencingToken => "leadership fencing token is stale; refusing write"@,
        HaError::ValueTooLarge => "value exceeds database integer range"@,
    }
}

impl HaError {
    /// The text shown to operators.
    pub fn message(self) -> (r: &'static str)
        ensures
            r@ == ha_error_text(self),
    {
        match self {
            HaError::AnotherIncarnation => "another incarnation is active for this HA instance ID",
            HaError::MemberLeaseRequired => "active HA member lease is required before acquiring leadership",
            HaError::ZeroFencingToken => "fencing token must be positive",
            HaError::StaleFencingToken => "leadership fencing token is stale; refusing write",
            HaError::ValueTooLarge => "value exceeds database integer range",
        }
    }
}

// ---------------------------------------------------------------------------
// Configuration
// ---------------------------------------------------------------------------

/// What is wrong with a trimmed instance ID.
pub open spec fn instance_id_error(s: Seq<char>) -> Option<Seq<char>> {
    if s.len() == 0 {
        Some("HA instance ID is required"@)
    } else if utf8_len(s) > MAX_INSTANCE_ID_BYTES {
        Some("HA instance ID exceeds 128 bytes"@)
    } else if has_control(s) {
        Some("HA instance ID must not contain control characters"@)
    } else {
        None
    }
}

pub fn validate_instance_id(instance_id: &str) -> (r: Result<(), &'static str>)
    ensures
        match instance_id_error(instance_id@) {
            Some(text) => r is Err && r->Err_0@ == text,
            None => r is Ok,
        },
{
    let s = chars_of(instance_id);
    if s.len() == 0 {
        return Err("HA instance ID is required");
    }
    if !fits_utf8(&s, MAX_INSTANCE_ID_BYTES) {
        return Err("HA instance ID exceeds 128 bytes");
    }
    if holds_control(&s) {
        return Err("HA instance ID must not contain control characters");
    }
    Ok(())
}

/// Whether `serde_json` reads an object from a text, or the text of its error.
pub uninterp spec fn json_object(text: Seq<char>) -> Result<bool, Seq<char>>;

/// Calls `serde_json::from_str` for a `serde_json::Value` and `is_object` on
/// the value. The answer depends on the text alone.
#[verifier::external_body]
fn reads_json_object(text: &str) -> (r: Result<bool, String>)
    ensures
        match r {
            Ok(object) => json_object(text@) == Ok::<bool, Seq<char>>(object),
            Err(error) => json_object(text@) == Err::<bool, Seq<char>>(error@),
        },
{
    match serde_json::from_str::<serde_json::Value>(text) {
        Ok(value) => Ok(value.is_object()),
        Err(error) => Err(error.to_string()),
    }
}

/// The compact form that `serde_json` gives a JSON text, or the text of its
/// error.
pub uninterp spec fn compact_json(text: Seq<char>) -> Result<Seq<char>, Seq<char>>;

/// Calls `serde_json::to_string` on the `serde_json::Value` that
/// `serde_json::from_str` reads. The text written depends on the text read
/// alone.
#[verifier::external_body]
fn to_compact_json(text: &str) -> (r: Result<String, String>)
    ensures
        match r {
            Ok(compact) => compact_json(text@) == Ok::<Seq<char>, Seq<char>>(compact@),
            Err(error) => compact_json(text@) == Err::<Seq<char>, Seq<char>>(error@),
        },
{
    let value: Result<serde_json::Value, serde_json::Error> = serde_json::from_str(text);
    match value {
        Ok(value) => serde_json::to_string(&value).map_err(|error| error.to_string()),
        Err(error) => Err(error.to_string()),
    }
}

/// What is wrong with a text as metadata, given what was read from it.
pub open spec fn metadata_error(text: Seq<char>, read: Result<bool, Seq<char>>) -> Option<
    Seq<char>,
> {
    if utf8_len(text) > MAX_METADATA_JSON_BYTES {
        Some("HA member metadata exceeds 16384 bytes"@)
    } else {
        match read {
            Err(error) => Some("HA member metadata must be valid JSON: "@ + error),
            Ok(object) => if object {
                None
            } else {
                Some("HA member metadata must be a JSON object"@)
            },
        }
    }
}

/// Judges metadata by what was read from it.
pub fn check_metadata(text: &str, read: Result<bool, String>) -> (r: Result<(), String>)
    ensures
        match metadata_error(
            text@,
            match read {
                Ok(object) => Ok(object),
                Err(error) => Err(error@),
            },
        ) {
            Some(error) => r is Err && r->Err_0@ == error,
            None => r is Ok,
        },
{
    if !fits_utf8(&chars_of(text), MAX_METADATA_JSON_BYTES) {
        return Err("HA member metadata exceeds 16384 bytes".to_owned());
    }
    match read {
        Err(error) => {
            let mut out = "HA member metadata must be valid JSON: ".to_owned();
            out.append(error.as_str());
            Err(out)
        },
        Ok(object) => if object {
            Ok(())
        } else {
            Err("HA member metadata must be a JSON object".to_owned())
        },
    }
}

pub fn validate_metadata_json(metadata_json: &str) -> (r: Result<(), String>)
    ensures
        match metadata_error(metadata_json@, json_object(metadata_json@)) {
            Some(error) => r is Err && r->Err_0@ == error,
            None => r is Ok,
        },
{
    check_metadata(metadata_json, reads_json_object(metadata_json))
}

/// The stored form of metadata, given what was read from its text.
pub open spec fn stored_metadata(
    text: Seq<char>,
    read: Result<bool, Seq<char>>,
    compact: Result<Seq<char>, Seq<char>>,
) -> Result<Seq<char>, Seq<char>> {
    match metadata_error(text, read) {
        Some(error) => Err(error),
        None => match compact {
            Err(error) => Err(error),
            Ok(s) => if utf8_len(s) > MAX_METADATA_JSON_BYTES {
                Err("HA member metadata exceeds 16384 bytes"@)
            } else {
                Ok(s)
            },
        },
    }
}

/// Judges the compact form of metadata.
pub fn check_compact(compact: Result<String, String>) -> (r: Result<String, String>)
    ensures
        match compact {
            Err(error) => r is Err && r->Err_0@ == error@,
            Ok(s) => if utf8_len(s@) > MAX_METADATA_JSON_BYTES {
                r is Err && r->Err_0@ == "HA member metadata exceeds 16384 bytes"@
            } else {
                r is Ok && r->Ok_0@ == s@
            },
        },
{
    match compact {
        Err(error) => Err(error),
        Ok(s) => if fits_utf8(&chars_of(s.as_str()), MAX_METADATA_JSON_BYTES) {
            Ok(s)
        } else {
            Err("HA member metadata exceeds 16384 bytes".to_owned())
        },
    }
}

pub fn normalize_metadata_json(metadata_json: &str) -> (r: Result<String, String>)
    ensures
        match stored_metadata(
            metadata_json@,
            json_object(metadata_json@),
            compact_json(metadata_json@),
        ) {
            Ok(s) => r is Ok && r->Ok_0@ == s,
            Err(error) => r is Err && r->Err_0@ == error,
        },
{
    match validate_metadata_json(metadata_json) {
        Err(error) => Err(error),
        Ok(()) => check_compact(to_compact_json(metadata_json)),
    }
}

/// What is wrong with the length of a lease.
pub open spec fn lease_error(seconds: u64, name: Seq<char>, maximum: u64) -> Option<Seq<char>> {
    if seconds < 2 {
        Some(name + " lease must be at least two seconds"@)
    } else if seconds > maximum {
        Some(name + " lease must not exceed "@ + decimal(maximum as nat) + " seconds"@)
    } else {
        None
    }
}

pub fn lease_seconds(seconds: u64, name: &str, maximum: u64) -> (r: Result<u64, String>)
    ensures
        match lease_error(seconds, name@, maximum) {
            Some(error) => r is Err && r->Err_0@ == error,
            None => r is Ok && r->Ok_0 == seconds,
        },
{
    if seconds < 2 {
        let mut out = name.to_owned();
        out.append(" lease must be at least two seconds");
        return Err(out);
    }
    if seconds > maximum {
        let mut out = name.to_owned();
        out.append(" lease must not exceed ");
        push_decimal(&mut out, maximum);
        out.append(" seconds");
        return Err(out);
    }
    Ok(seconds)
}

/// A process of the cluster: its instance and the run of that instance.
#[derive(Clone, Debug, PartialEq, Eq)]
pub struct HaCoordinator {
    pub instance_id: String,
    pub incarnation_id: String,
    pub metadata_json: String,
    pub member_lease_seconds: u64,
    pub leader_lease_seconds: u64,
}

pub struct CoordinatorModel {
    pub instance_id: Seq<char>,
    pub incarnation_id: Seq<char>,
    pub metadata_json: Seq<char>,
    pub member_lease_seconds: u64,
    pub leader_lease_seconds: u64,
}

impl View for HaCoordinator {
    type V = CoordinatorModel;

    open spec fn view(&self) -> CoordinatorModel {
        CoordinatorModel {
            instance_id: self.instance_id@,
            incarnation_id: self.incarnation_id@,
            metadata_json: self.metadata_json@,
            member_lease_seconds: self.member_lease_seconds,
            leader_lease_seconds: self.leader_lease_seconds,
        }
    }
}

/// A coordinator of a process with a given incarnation, or the first thing
/// wrong with its configuration.
pub open spec fn opened(
    instance_id: Seq<char>,
    metadata: Result<Seq<char>, Seq<char>>,
    member_lease: u64,
    leader_lease: u64,
    incarnation_id: Seq<char>,
) -> Result<CoordinatorModel, Seq<char>> {
    match instance_id_error(trim(instance_id)) {
        Some(error) => Err(error),
        None => match metadata {
            Err(error) => Err(error),
            Ok(metadata_json) => match lease_error(
                member_lease,
                "member"@,
                MAX_MEMBER_LEASE_SECONDS,
            ) {
                Some(error) => Err(error),
                None => match lease_error(leader_lease, "leader"@, MAX_LEADER_LEASE_SECONDS) {
                    Some(error) => Err(error),
                    None => if leader_lease > member_lease {
                        Err("leader lease must not exceed member lease"@)
                    } else {
                        Ok(
                            CoordinatorModel {
                                instance_id: trim(instance_id),
                                incarnation_id,
                                metadata_json,
                                member_lease_seconds: member_lease,
                                leader_lease_seconds: leader_lease,
                            },
                        )
                    },
                },
            },
        },
    }
}

/// Whether a lease was given out before `now` by a clock that a column holds.
pub open spec fn stored_time(now: u64) -> bool {
    now <= MAX_STORED
}

pub open spec fn saturating_sum(a: u64, b: u64) -> u64 {
    if a + b > u64::MAX {
        u64::MAX
    } else {
        (a + b) as u64
    }
}

/// The membership leases, the leader and the next fencing token.
#[derive(Debug)]
pub struct HaLeases {
    pub members: Vec<HaMember>,
    pub leader: Option<LeadershipLease>,
    pub next_token: u64,
}

pub struct LeasesModel {
    /// In the order of instance IDs.
    pub members: Seq<HaMemberModel>,
    pub leader: Option<LeadershipLeaseModel>,
    pub next_token: u64,
}

pub open spec fn member_models(v: Seq<HaMember>) -> Seq<HaMemberModel> {
    v.map_values(|x: HaMember| x@)
}

impl View for HaLeases {
    type V = LeasesModel;

    open spec fn view(&self) -> LeasesModel {
        LeasesModel {
            members: member_models(self.members@),
            leader: match self.leader {
                Some(x) => Some(x@),
                None => None,
            },
            next_token: self.next_token,
        }
    }
}

/// Members are listed by their instance IDs, each of which occurs once.
pub open spec fn in_order(s: Seq<HaMemberModel>) -> bool {
    forall|i: int, j: int|
        0 <= i < j < s.len() ==> lex_less((#[trigger] s[i]).instance_id, (
        #[trigger] s[j]).instance_id)
}

/// The tokens given out are smaller than the next one.
pub open spec fn leases_valid(t: LeasesModel) -> bool {
    &&& in_order(t.members)
    &&& 0 < t.next_token <= MAX_STORED
    &&& t.leader is Some ==> 0 < t.leader->0.fencing_token < t.next_token
}

/// Where an instance is, or goes, in the list of members.
pub open spec fn member_position(s: Seq<HaMemberModel>, instance_id: Seq<char>) -> int
    decreases s.len(),
{
    if s.len() == 0 || !lex_less(s[0].instance_id, instance_id) {
        0
    } else {
        1 + member_position(s.drop_first(), instance_id)
    }
}

pub open spec fn find_member(s: Seq<HaMemberModel>, instance_id: Seq<char>) -> Option<
    HaMemberModel,
> {
    let i = member_position(s, instance_id);
    if 0 <= i < s.len() && s[i].instance_id == instance_id {
        Some(s[i])
    } else {
        None
    }
}

/// Whether a process holds a membership lease.
pub open spec fn member_active(
    s: Seq<HaMemberModel>,
    instance_id: Seq<char>,
    incarnation_id: Seq<char>,
    now: u64,
) -> bool {
    match find_member(s, instance_id) {
        Some(m) => m.incarnation_id == incarnation_id && m.lease_until_unix_seconds > now,
        None => false,
    }
}

/// The member that registration writes, or why it is refused. Another run of
/// the same instance is only replaced once its lease has ended.
pub open spec fn registration(
    c: CoordinatorModel,
    current: Option<HaMemberModel>,
    now: u64,
) -> Result<HaMemberModel, HaError> {
    let until = saturating_sum(now, c.member_lease_seconds);
    let started = match current {
        Some(m) => if m.incarnation_id == c.incarnation_id {
            m.started_unix_seconds
        } else {
            now
        },
        None => now,
    };
    if current is Some && current->0.incarnation_id != c.incarnation_id
        && current->0.lease_until_unix_seconds > now {
        Err(HaError::AnotherIncarnation)
    } else if until > MAX_STORED {
        Err(HaError::ValueTooLarge)
    } else {
        Ok(
            HaMemberModel {
                instance_id: c.instance_id,
                incarnation_id: c.incarnation_id,
                started_unix_seconds: started,
                last_seen_unix_seconds: now,
                lease_until_unix_seconds: until,
                metadata_json: c.metadata_json,
            },
        )
    }
}

/// The members with one of them written.
pub open spec fn with_member(s: Seq<HaMemberModel>, m: HaMemberModel) -> Seq<HaMemberModel> {
    let i = member_position(s, m.instance_id);
    if 0 <= i < s.len() && s[i].instance_id == m.instance_id {
        s.update(i, m)
    } else {
        s.insert(i, m)
    }
}

/// The members whose leases run.
pub open spec fn active_list(s: Seq<HaMemberModel>, now: u64) -> Seq<HaMemberModel>
    decreases s.len(),
{
    if s.len() == 0 {
        s
    } else if s.last().lease_until_unix_seconds > now {
        active_list(s.drop_last(), now).push(s.last())
    } else {
        active_list(s.drop_last(), now)
    }
}

/// Whether the lease of the member at `a` ended before that of the member at
/// `b`, or at the same time under an earlier position.
pub open spec fn ended_before(s: Seq<HaMemberModel>, a: int, b: int) -> bool {
    s[a].lease_until_unix_seconds < s[b].lease_until_unix_seconds || (
    s[a].lease_until_unix_seconds == s[b].lease_until_unix_seconds && a < b)
}

/// Whether the member at `i` is the one whose lease ended first.
pub open spec fn is_longest_expired(s: Seq<HaMemberModel>, now: u64, i: int) -> bool {
    &&& 0 <= i < s.len()
    &&& s[i].lease_until_unix_seconds <= now
    &&& forall|j: int|
        0 <= j < s.len() && j != i && (#[trigger] s[j]).lease_until_unix_seconds <= now
            ==> ended_before(s, i, j)
}

/// The members that are left when up to `n` of those with ended leases go, the
/// longest ended first.
pub open spec fn pruned(s: Seq<HaMemberModel>, now: u64, n: nat) -> Seq<HaMemberModel>
    decreases n,
{
    if n == 0 || !(exists|i: int| is_longest_expired(s, now, i)) {
        s
    } else {
        pruned(s.remove(choose|i: int| is_longest_expired(s, now, i)), now, (n - 1) as nat)
    }
}

/// Whether a lease of the leader is that of a process and still runs.
pub open spec fn leads(
    l: LeadershipLeaseModel,
    c: CoordinatorModel,
    fencing_token: u64,
    now: u64,
) -> bool {
    l.instance_id == c.instance_id && l.incarnation_id == c.incarnation_id && l.fencing_token
        == fencing_token && l.lease_until_unix_seconds > now
}

/// Renewing a lease of the leader, if it is that of the process and still
/// runs.
pub open spec fn renewal(t: LeasesModel, c: CoordinatorModel, fencing_token: u64, now: u64) -> Result<
    Option<LeadershipLeaseModel>,
    HaError,
> {
    let until = saturating_sum(now, c.leader_lease_seconds);
    if fencing_token > MAX_STORED || until > MAX_STORED {
        Err(HaError::ValueTooLarge)
    } else if t.leader is Some && leads(t.leader->0, c, fencing_token, now) {
        Ok(
            Some(
                LeadershipLeaseModel {
                    renewed_unix_seconds: now,
                    lease_until_unix_seconds: until,
                    ..t.leader->0
                },
            ),
        )
    } else {
        Ok(None)
    }
}

/// Whether the leader holds its lease and is a member.
pub open spec fn leader_stands(t: LeasesModel, now: u64) -> bool {
    t.leader is Some && t.leader->0.lease_until_unix_seconds > now && member_active(
        t.members,
        t.leader->0.instance_id,
        t.leader->0.incarnation_id,
        now,
    )
}

/// Trying to become the leader. A leader renews its lease, another one is
/// waited for, and otherwise the process leads under the next fencing token.
pub open spec fn acquisition(t: LeasesModel, c: CoordinatorModel, now: u64) -> Result<
    (LeasesModel, Option<LeadershipLeaseModel>),
    HaError,
> {
    let until = saturating_sum(now, c.leader_lease_seconds);
    if !member_active(t.members, c.instance_id, c.incarnation_id, now) {
        Err(HaError::MemberLeaseRequired)
    } else if leader_stands(t, now) && t.leader->0.instance_id == c.instance_id
        && t.leader->0.incarnation_id == c.incarnation_id {
        match renewal(t, c, t.leader->0.fencing_token, now) {
            Ok(lease) => Ok((LeasesModel { leader: lease, ..t }, lease)),
            Err(error) => Err(error),
        }
    } else if leader_stands(t, now) {
        Ok((t, None))
    } else if t.next_token >= MAX_STORED || until > MAX_STORED {
        Err(HaError::ValueTooLarge)
    } else {
        let lease = LeadershipLeaseModel {
            instance_id: c.instance_id,
            incarnation_id: c.incarnation_id,
            fencing_token: t.next_token,
            acquired_unix_seconds: now,
            renewed_unix_seconds: now,
            lease_until_unix_seconds: until,
        };
        Ok(
            (
                LeasesModel { leader: Some(lease), next_token: (t.next_token + 1) as u64, ..t },
                Some(lease),
            ),
        )
    }
}

/// Renewing leadership under a fencing token. A process without a membership
/// lease does not lead.
pub open spec fn renewed(t: LeasesModel, c: CoordinatorModel, fencing_token: u64, now: u64) -> Result<
    (LeasesModel, Option<LeadershipLeaseModel>),
    HaError,
> {
    if !member_active(t.members, c.instance_id, c.incarnation_id, now) {
        Ok((t, None))
    } else {
        match renewal(t, c, fencing_token, now) {
            Ok(Some(lease)) => Ok((LeasesModel { leader: Some(lease), ..t }, Some(lease))),
            Ok(None) => Ok((t, None)),
            Err(error) => Err(error),
        }
    }
}

/// What stands in the way of a write of a process under a fencing token.
pub open spec fn fence_error(
    t: LeasesModel,
    c: CoordinatorModel,
    fencing_token: u64,
    now: u64,
) -> Option<HaError> {
    if fencing_token == 0 {
        Some(HaError::ZeroFencingToken)
    } else if fencing_token > MAX_STORED {
        Some(HaError::ValueTooLarge)
    } else if t.leader is Some && leads(t.leader->0, c, fencing_token, now) && member_active(
        t.members,
        c.instance_id,
        c.incarnation_id,
        now,
    ) {
        None
    } else {
        Some(HaError::StaleFencingToken)
    }
}

/// All leases ended.
pub open spec fn expired(t: LeasesModel) -> LeasesModel {
    LeasesModel {
        members: t.members.map_values(
            |m: HaMemberModel| HaMemberModel { lease_until_unix_seconds: 0, ..m },
        ),
        leader: match t.leader {
            Some(l) => Some(LeadershipLeaseModel { lease_until_unix_seconds: 0, ..l }),
            None => None,
        },
        ..t
    }
}

fn saturating_time(now: u64, seconds: u64) -> (r: u64)
    ensures
        r == saturating_sum(now, seconds),
{
    if seconds > 0xffff_ffff_ffff_ffff - now {
        0xffff_ffff_ffff_ffff
    } else {
        now + seconds
    }
}

impl HaLeases {
    /// No members and no leader.
    pub fn new() -> (r: Self)
        ensures
            r@ == (LeasesModel { members: Seq::empty(), leader: None, next_token: 1 }),
            leases_valid(r@),
    {
        let r = HaLeases { members: Vec::new(), leader: None, next_token: 1 };
        assert(r@.members =~= Seq::empty());
        r
    }

    fn position(&self, instance_id: &str) -> (r: usize)
        ensures
            r <= self.members@.len(),
            r == member_position(self@.members, instance_id@),
    {
        let ghost s = self@.members;
        let mut i: usize = 0;
        assert(s.skip(0) =~= s);
        while i < self.members.len()
            invariant
                i <= self.members@.len(),
                s == self@.members,
                member_position(s, instance_id@) == i + member_position(
                    s.skip(i as int),
                    instance_id@,
                ),
            decreases self.members@.len() - i,
        {
            assert(s.skip(i as int)[0] == self.members@[i as int]@);
            assert(s.skip(i as int).drop_first() =~= s.skip(i + 1));
            if !text_before(self.members[i].instance_id.as_str(), instance_id) {
                return i;
            }
            i = i + 1;
        }
        i
    }

    fn find(&self, instance_id: &str) -> (r: Option<usize>)
        ensures
            match r {
                Some(i) => i < self.members@.len() && i == member_position(
                    self@.members,
                    instance_id@,
                ) && find_member(self@.members, instance_id@) == Some(self.members@[i as int]@),
                None => find_member(self@.members, instance_id@) is None,
            },
    {
        let i = self.position(instance_id);
        if i < self.members.len() && same_text(
            self.members[i].instance_id.as_str(),
            instance_id,
        ) {
            assert(self@.members[i as int] == self.members@[i as int]@);
            Some(i)
        } else {
            if i < self.members.len() {
                assert(self@.members[i as int] == self.members@[i as int]@);
            }
            None
        }
    }

    /// Whether a process holds a membership lease.
    pub fn member_is_active(&self, instance_id: &str, incarnation_id: &str, now: u64) -> (r: bool)
        ensures
            r == member_active(self@.members, instance_id@, incarnation_id@, now),
    {
        match self.find(instance_id) {
            Some(i) => same_text(self.members[i].incarnation_id.as_str(), incarnation_id)
                && self.members[i].lease_until_unix_seconds > now,
            None => false,
        }
    }

    /// The members whose leases run, in the order of their instance IDs.
    pub fn active_members(&self, now: u64) -> (r: Vec<HaMember>)
        ensures
            member_models(r@) == active_list(self@.members, now),
    {
        let ghost s = self@.members;
        let mut out: Vec<HaMember> = Vec::new();
        let mut i: usize = 0;
        assert(member_models(out@) =~= active_list(s.take(0), now));
        while i < self.members.len()
            invariant
                i <= self.members@.len(),
                s == self@.members,
                member_models(out@) == active_list(s.take(i as int), now),
            decreases self.members@.len() - i,
        {
            let m = &self.members[i];
            assert(s.take(i + 1).drop_last() =~= s.take(i as int));
            assert(s.take(i + 1).last() == m@);
            if m.lease_until_unix_seconds > now {
                let ghost before = out@;
                let copy = m.duplicate();
                out.push(copy);
                assert(member_models(out@) =~= member_models(before).push(m@));
            }
            i = i + 1;
        }
        assert(s.take(s.len() as int) =~= s);
        out
    }

    fn longest_expired(&self, now: u64) -> (r: Option<usize>)
        ensures
            match r {
                Some(i) => is_longest_expired(self@.members, now, i as int),
                None => forall|i: int| !is_longest_expired(self@.members, now, i),
            },
    {
        let ghost s = self@.members;
        let mut best: Option<usize> = None;
        let mut i: usize = 0;
        while i < self.members.len()
            invariant
                i <= self.members@.len(),
                s == self@.members,
                match best {
                    Some(b) => b < i && s[b as int].lease_until_unix_seconds <= now && forall|j: int|
                        0 <= j < i && j != b && (#[trigger] s[j]).lease_until_unix_seconds <= now
                            ==> ended_before(s, b as int, j),
                    None => forall|j: int|
                        0 <= j < i ==> (#[trigger] s[j]).lease_until_unix_seconds > now,
                },
            decreases self.members@.len() - i,
        {
            assert(s[i as int] == self.members@[i as int]@);
            let until: u64 = self.members[i].lease_until_unix_seconds;
            if until <= now {
                match best {
                    Some(b) => {
                        assert(s[b as int] == self.members@[b as int]@);
                        if until < self.members[b].lease_until_unix_seconds {
                            best = Some(i);
                        }
                    },
                    None => {
                        best = Some(i);
                    },
                }
            }
            i = i + 1;
        }
        best
    }

    /// Deletes a batch of the members whose leases have ended and returns how
    /// many.
    pub fn prune_expired_members(&mut self, now: u64) -> (r: u64)
        ensures
            final(self)@ == (LeasesModel {
                members: pruned(old(self)@.members, now, EXPIRED_LEASE_BATCH_SIZE as nat),
                ..old(self)@
            }),
            r == old(self)@.members.len() - final(self)@.members.len(),
    {
        let ghost s = self@.members;
        let mut deleted: u64 = 0;
        while deleted < EXPIRED_LEASE_BATCH_SIZE
            invariant
                deleted <= EXPIRED_LEASE_BATCH_SIZE,
                s == old(self)@.members,
                self@.leader == old(self)@.leader,
                self@.next_token == old(self)@.next_token,
                self@.members.len() + deleted == s.len(),
                pruned(s, now, EXPIRED_LEASE_BATCH_SIZE as nat) == pruned(
                    self@.members,
                    now,
                    (EXPIRED_LEASE_BATCH_SIZE - deleted) as nat,
                ),
            decreases EXPIRED_LEASE_BATCH_SIZE - deleted,
        {
            let ghost before = self@.members;
            match self.longest_expired(now) {
                Some(i) => {
                    proof {
                        lemma_longest_expired_unique(before, now, i as int);
                    }
                    self.members.remove(i);
                    assert(self@.members =~= before.remove(i as int));
                },
                None => {
                    return deleted;
                },
            }
            deleted = deleted + 1;
        }
        deleted
    }

    /// The leader, as long as it holds its lease and is a member.
    pub fn current_leader(&self, now: u64) -> (r: Option<LeadershipLease>)
        ensures
            match r {
                Some(l) => leader_stands(self@, now) && self@.leader == Some(l@),
                None => !leader_stands(self@, now),
            },
    {
        match &self.leader {
            Some(l) => if l.lease_until_unix_seconds > now && self.member_is_active(
                l.instance_id.as_str(),
                l.incarnation_id.as_str(),
                now,
            ) {
                Some(l.duplicate())
            } else {
                None
            },
            None => None,
        }
    }

    /// Ends the leases of members and of the leader that an earlier process of a
    /// single instance left behind, if the process may: only the first one of a database does. The
    /// sequence of fencing tokens goes on.
    pub fn recover_stale_leases(&mut self, claimed: bool) -> (r: bool)
        ensures
            r == claimed,
            final(self)@ == if claimed {
                expired(old(self)@)
            } else {
                old(self)@
            },
    {
        if !claimed {
            return false;
        }
        let ghost s = self@.members;
        let mut i: usize = 0;
        while i < self.members.len()
            invariant
                i <= self.members@.len(),
                s == old(self)@.members,
                self@.leader == old(self)@.leader,
                self@.next_token == old(self)@.next_token,
                self.members@.len() == s.len(),
                forall|j: int|
                    0 <= j < i ==> (#[trigger] self.members@[j])@ == (HaMemberModel {
                        lease_until_unix_seconds: 0,
                        ..s[j]
                    }),
                forall|j: int| i <= j < s.len() ==> (#[trigger] self.members@[j])@ == s[j],
            decreases self.members@.len() - i,
        {
            let mut m = self.members[i].duplicate();
            m.lease_until_unix_seconds = 0;
            self.members.set(i, m);
            i = i + 1;
        }
        assert(self@.members =~= expired(old(self)@).members);
        if let Some(l) = &self.leader {
            let mut l = l.duplicate();
            l.lease_until_unix_seconds = 0;
            self.leader = Some(l);
        }
        true
    }
}

proof fn lemma_longest_expired_unique(s: Seq<HaMemberModel>, now: u64, i: int)
    requires
        is_longest_expired(s, now, i),
    ensures
        i == (choose|k: int| is_longest_expired(s, now, k)),
{
    let k = choose|k: int| is_longest_expired(s, now, k);
    assert(is_longest_expired(s, now, k));
    if k != i {
        assert(ended_before(s, i, k));
        assert(ended_before(s, k, i));
    }
}

impl HaCoordinator {
    /// A coordinator for this process. Every process has an incarnation of its
    /// own, written as a random identifier.
    pub fn open(
        instance_id: &str,
        metadata_json: &str,
        member_lease_seconds: u64,
        leader_lease_seconds: u64,
    ) -> (r: Result<Self, String>)
        ensures
            exists|id: u128| #[trigger]
                random_layout(id) && match opened(
                    instance_id@,
                    stored_metadata(
                        metadata_json@,
                        json_object(metadata_json@),
                        compact_json(metadata_json@),
                    ),
                    member_lease_seconds,
                    leader_lease_seconds,
                    hyphenated(id),
                ) {
                    Ok(c) => r is Ok && r->Ok_0@ == c,
                    Err(error) => r is Err && r->Err_0@ == error,
                },
    {
        let id: u128 = new_uuid();
        let incarnation_id = uuid_text(id);
        assert(random_layout(id));
        let metadata = normalize_metadata_json(metadata_json);
        Self::open_as(
            instance_id,
            metadata,
            member_lease_seconds,
            leader_lease_seconds,
            incarnation_id,
        )
    }

    /// A coordinator with a given incarnation and the given outcome of reading
    /// its metadata.
    pub fn open_as(
        instance_id: &str,
        metadata_json: Result<String, String>,
        member_lease: u64,
        leader_lease: u64,
        incarnation_id: String,
    ) -> (r: Result<Self, String>)
        ensures
            match opened(
                instance_id@,
                match metadata_json {
                    Ok(s) => Ok(s@),
                    Err(error) => Err(error@),
                },
                member_lease,
                leader_lease,
                incarnation_id@,
            ) {
                Ok(c) => r is Ok && r->Ok_0@ == c,
                Err(error) => r is Err && r->Err_0@ == error,
            },
    {
        let instance_id = string_of(&trimmed(&chars_of(instance_id)));
        if let Err(error) = validate_instance_id(instance_id.as_str()) {
            return Err(error.to_owned());
        }
        let metadata_json = match metadata_json {
            Ok(s) => s,
            Err(error) => {
                return Err(error);
            },
        };
        let member_lease_seconds: u64 = match lease_seconds(
            member_lease,
            "member",
            MAX_MEMBER_LEASE_SECONDS,
        ) {
            Ok(n) => n,
            Err(error) => {
                return Err(error);
            },
        };
        let leader_lease_seconds: u64 = match lease_seconds(
            leader_lease,
            "leader",
            MAX_LEADER_LEASE_SECONDS,
        ) {
            Ok(n) => n,
            Err(error) => {
                return Err(error);
            },
        };
        if leader_lease_seconds > member_lease_seconds {
            return Err("leader lease must not exceed member lease".to_owned());
        }
        Ok(
            HaCoordinator {
                instance_id,
                incarnation_id,
                metadata_json,
                member_lease_seconds,
                leader_lease_seconds,
            },
        )
    }

    /// Registers this process as a member, or renews its lease.
    pub fn register_or_renew_member(&self, leases: &mut HaLeases, now: u64) -> (r: Result<
        HaMember,
        HaError,
    >)
        requires
            stored_time(now),
        ensures
            match registration(self@, find_member(old(leases)@.members, self@.instance_id), now) {
                Ok(m) => r is Ok && r->Ok_0@ == m && final(leases)@ == (LeasesModel {
                    members: with_member(old(leases)@.members, m),
                    ..old(leases)@
                }),
                Err(error) => r is Err && r->Err_0 == error && final(leases)@ == old(leases)@,
            },
    {
        let until = saturating_time(now, self.member_lease_seconds);
        let found = leases.find(self.instance_id.as_str());
        let started: u64 = match found {
            Some(i) => {
                let m = &leases.members[i];
                if m.incarnation_id == self.incarnation_id {
                    m.started_unix_seconds
                } else {
                    if m.lease_until_unix_seconds > now {
                        return Err(HaError::AnotherIncarnation);
                    }
                    now
                }
            },
            None => now,
        };
        if until > MAX_STORED {
            return Err(HaError::ValueTooLarge);
        }
        let m = HaMember {
            instance_id: self.instance_id.clone(),
            incarnation_id: self.incarnation_id.clone(),
            started_unix_seconds: started,
            last_seen_unix_seconds: now,
            lease_until_unix_seconds: until,
            metadata_json: self.metadata_json.clone(),
        };
        let copy = m.duplicate();
        let ghost before = leases@.members;
        match found {
            Some(i) => {
                assert(before[i as int] == leases.members@[i as int]@);
                leases.members.set(i, m);
                assert(leases@.members =~= before.update(i as int, copy@));
            },
            None => {
                let i = leases.position(self.instance_id.as_str());
                leases.members.insert(i, m);
                assert(leases@.members =~= before.insert(i as int, copy@));
            },
        }
        Ok(copy)
    }

    fn renew(&self, leases: &mut HaLeases, fencing_token: u64, now: u64) -> (r: Result<
        Option<LeadershipLease>,
        HaError,
    >)
        ensures
            match renewal(old(leases)@, self@, fencing_token, now) {
                Ok(Some(lease)) => r is Ok && r->Ok_0 is Some && r->Ok_0->0@ == lease
                    && final(leases)@ == (LeasesModel { leader: Some(lease), ..old(leases)@ }),
                Ok(None) => r is Ok && r->Ok_0 is None && final(leases)@ == old(leases)@,
                Err(error) => r is Err && r->Err_0 == error && final(leases)@ == old(leases)@,
            },
    {
        let until = saturating_time(now, self.leader_lease_seconds);
        if fencing_token > MAX_STORED || until > MAX_STORED {
            return Err(HaError::ValueTooLarge);
        }
        match &leases.leader {
            Some(l) => {
                if l.instance_id == self.instance_id && l.incarnation_id == self.incarnation_id
                    && l.fencing_token == fencing_token && l.lease_until_unix_seconds > now {
                    let mut lease = l.duplicate();
                    lease.renewed_unix_seconds = now;
                    lease.lease_until_unix_seconds = until;
                    let copy = lease.duplicate();
                    leases.leader = Some(lease);
                    Ok(Some(copy))
                } else {
                    Ok(None)
                }
            },
            None => Ok(None),
        }
    }

    /// Tries to become the leader, or to stay it.
    pub fn try_acquire_leadership(&self, leases: &mut HaLeases, now: u64) -> (r: Result<
        Option<LeadershipLease>,
        HaError,
    >)
        requires
            stored_time(now),
        ensures
            match acquisition(old(leases)@, self@, now) {
                Ok((after, lease)) => r is Ok && final(leases)@ == after && match r->Ok_0 {
                    Some(l) => lease == Some(l@),
                    None => lease is None,
                },
                Err(error) => r is Err && r->Err_0 == error && final(leases)@ == old(leases)@,
            },
    {
        if !leases.member_is_active(
            self.instance_id.as_str(),
            self.incarnation_id.as_str(),
            now,
        ) {
            return Err(HaError::MemberLeaseRequired);
        }
        if let Some(current) = leases.current_leader(now) {
            if current.instance_id == self.instance_id && current.incarnation_id
                == self.incarnation_id {
                return self.renew(leases, current.fencing_token, now);
            }
            return Ok(None);
        }
        let until = saturating_time(now, self.leader_lease_seconds);
        if leases.next_token >= MAX_STORED || until > MAX_STORED {
            return Err(HaError::ValueTooLarge);
        }
        let lease = LeadershipLease {
            instance_id: self.instance_id.clone(),
            incarnation_id: self.incarnation_id.clone(),
            fencing_token: leases.next_token,
            acquired_unix_seconds: now,
            renewed_unix_seconds: now,
            lease_until_unix_seconds: until,
        };
        let copy = lease.duplicate();
        leases.leader = Some(lease);
        leases.next_token = leases.next_token + 1;
        Ok(Some(copy))
    }

    /// Renews the lease of the leader, if this process is it under the token.
    pub fn renew_leadership(&self, leases: &mut HaLeases, fencing_token: u64, now: u64) -> (r:
        Result<Option<LeadershipLease>, HaError>)
        requires
            stored_time(now),
        ensures
            match renewed(old(leases)@, self@, fencing_token, now) {
                Ok((after, lease)) => r is Ok && final(leases)@ == after && match r->Ok_0 {
                    Some(l) => lease == Some(l@),
                    None => lease is None,
                },
                Err(error) => r is Err && r->Err_0 == error && final(leases)@ == old(leases)@,
            },
    {
        if !leases.member_is_active(
            self.instance_id.as_str(),
            self.incarnation_id.as_str(),
            now,
        ) {
            return Ok(None);
        }
        self.renew(leases, fencing_token, now)
    }

    /// Whether this process may write under a fencing token. The answer holds
    /// within the transaction that the write belongs to.
    pub fn assert_transaction_fence(&self, leases: &HaLeases, fencing_token: u64, now: u64) -> (r:
        Result<(), HaError>)
        ensures
            match fence_error(leases@, self@, fencing_token, now) {
                Some(error) => r is Err && r->Err_0 == error,
                None => r is Ok,
            },
    {
        if fencing_token == 0 {
            return Err(HaError::ZeroFencingToken);
        }
        if fencing_token > MAX_STORED {
            return Err(HaError::ValueTooLarge);
        }
        match &leases.leader {
            Some(l) => {
                if l.instance_id == self.instance_id && l.incarnation_id == self.incarnation_id
                    && l.fencing_token == fencing_token && l.lease_until_unix_seconds > now
                    && leases.member_is_active(
                    self.instance_id.as_str(),
                    self.incarnation_id.as_str(),
                    now,
                ) {
                    Ok(())
                } else {
                    Err(HaError::StaleFencingToken)
                }
            },
            None => Err(HaError::StaleFencingToken),
        }
    }
}

// ---------------------------------------------------------------------------
// Laws
// ---------------------------------------------------------------------------

proof fn lemma_member_position(s: Seq<HaMemberModel>, id: Seq<char>)
    ensures
        0 <= member_position(s, id) <= s.len(),
        forall|j: int|
            0 <= j < member_position(s, id) ==> lex_less((#[trigger] s[j]).instance_id, id),
        member_position(s, id) < s.len() ==> !lex_less(
            s[member_position(s, id)].instance_id,
            id,
        ),
    decreases s.len(),
{
    if s.len() > 0 && lex_less(s[0].instance_id, id) {
        let t = s.drop_first();
        lemma_member_position(t, id);
        assert forall|j: int| 0 <= j < member_position(s, id) implies lex_less(
            (#[trigger] s[j]).instance_id,
            id,
        ) by {
            if j > 0 {
                assert(t[j - 1] == s[j]);
            }
        }
        if member_position(s, id) < s.len() {
            assert(s[member_position(s, id)] == t[member_position(t, id)]);
        }
    }
}

/// In an ordered list an instance is found exactly where it stands.
proof fn lemma_find_member(s: Seq<HaMemberModel>, i: int)
    requires
        in_order(s),
        0 <= i < s.len(),
    ensures
        member_position(s, s[i].instance_id) == i,
        find_member(s, s[i].instance_id) == Some(s[i]),
{
    let id = s[i].instance_id;
    lemma_member_position(s, id);
    let k = member_position(s, id);
    lemma_lex_total(id, id);
    if k < i {
        assert(lex_less(s[k].instance_id, s[i].instance_id));
    } else if i < k {
        assert(lex_less(s[i].instance_id, id));
    }
}

proof fn lemma_with_member(s: Seq<HaMemberModel>, m: HaMemberModel)
    requires
        in_order(s),
    ensures
        in_order(with_member(s, m)),
        find_member(with_member(s, m), m.instance_id) == Some(m),
{
    let id = m.instance_id;
    let t = with_member(s, m);
    let p = member_position(s, id);
    lemma_member_position(s, id);
    lemma_lex_total(id, id);
    if p < s.len() && s[p].instance_id == id {
        assert(in_order(t)) by {
            assert forall|i: int, j: int| 0 <= i < j < t.len() implies lex_less(
                (#[trigger] t[i]).instance_id,
                (#[trigger] t[j]).instance_id,
            ) by {
                assert(t[i].instance_id == s[i].instance_id);
                assert(t[j].instance_id == s[j].instance_id);
            }
        }
        lemma_find_member(t, p);
    } else {
        assert(in_order(t)) by {
            assert forall|i: int, j: int| 0 <= i < j < t.len() implies lex_less(
                (#[trigger] t[i]).instance_id,
                (#[trigger] t[j]).instance_id,
            ) by {
                if j < p {
                    assert(t[i] == s[i] && t[j] == s[j]);
                } else if j == p {
                    assert(t[i] == s[i]);
                } else {
                    assert(t[j] == s[j - 1]);
                    lemma_lex_total(id, s[p].instance_id);
                    assert(lex_less(id, s[p].instance_id));
                    if j - 1 > p {
                        assert(lex_less(s[p].instance_id, s[j - 1].instance_id));
                        lemma_lex_transitive(id, s[p].instance_id, s[j - 1].instance_id);
                    }
                    if i < p {
                        assert(t[i] == s[i]);
                    } else if i > p {
                        assert(t[i] == s[i - 1]);
                    }
                }
            }
        }
        assert(t[p] == m);
        lemma_find_member(t, p);
    }
}

/// Registration keeps the leases valid, and a process that has registered is a
/// member.
pub proof fn law_registered_processes_are_members(t: LeasesModel, c: CoordinatorModel, now: u64)
    requires
        leases_valid(t),
        stored_time(now),
        c.member_lease_seconds > 0,
        registration(c, find_member(t.members, c.instance_id), now) is Ok,
    ensures
        ({
            let m = registration(c, find_member(t.members, c.instance_id), now)->Ok_0;
            let after = LeasesModel { members: with_member(t.members, m), ..t };
            &&& leases_valid(after)
            &&& member_active(after.members, c.instance_id, c.incarnation_id, now)
        }),
{
    let m = registration(c, find_member(t.members, c.instance_id), now)->Ok_0;
    lemma_with_member(t.members, m);
}

/// A running process is not displaced: as long as its membership lease runs,
/// no other run of its instance can register.
pub proof fn law_active_members_are_not_displaced(
    t: LeasesModel,
    c: CoordinatorModel,
    now: u64,
    incarnation_id: Seq<char>,
)
    requires
        member_active(t.members, c.instance_id, incarnation_id, now),
        incarnation_id != c.incarnation_id,
    ensures
        registration(c, find_member(t.members, c.instance_id), now)
            == Err::<HaMemberModel, HaError>(HaError::AnotherIncarnation),
{
}

/// Trying to lead keeps the leases valid, and the token of a new leader is the next
/// one of the sequence.
pub proof fn law_fencing_tokens_grow(t: LeasesModel, c: CoordinatorModel, now: u64)
    requires
        leases_valid(t),
        acquisition(t, c, now) is Ok,
    ensures
        ({
            let (after, lease) = acquisition(t, c, now)->Ok_0;
            &&& leases_valid(after)
            &&& after.next_token >= t.next_token
            &&& lease is Some && t.leader is Some ==> lease->0.fencing_token
                >= t.leader->0.fencing_token
            &&& lease is Some && (t.leader is None || t.leader->0.instance_id != c.instance_id
                || t.leader->0.incarnation_id != c.incarnation_id) ==> lease->0.fencing_token
                == t.next_token
        }),
{
}

/// What can happen to the leases.
pub enum LeaseStep {
    Register { process: CoordinatorModel, now: u64 },
    Acquire { process: CoordinatorModel, now: u64 },
    Renew { process: CoordinatorModel, fencing_token: u64, now: u64 },
    Prune { now: u64 },
    Recover { claimed: bool },
}

/// The leases after a step. What is refused changes nothing.
pub open spec fn after_step(t: LeasesModel, step: LeaseStep) -> LeasesModel {
    match step {
        LeaseStep::Register { process, now } => match registration(
            process,
            find_member(t.members, process.instance_id),
            now,
        ) {
            Ok(m) => LeasesModel { members: with_member(t.members, m), ..t },
            Err(_) => t,
        },
        LeaseStep::Acquire { process, now } => match acquisition(t, process, now) {
            Ok((after, _)) => after,
            Err(_) => t,
        },
        LeaseStep::Renew { process, fencing_token, now } => match renewed(
            t,
            process,
            fencing_token,
            now,
        ) {
            Ok((after, _)) => after,
            Err(_) => t,
        },
        LeaseStep::Prune { now } => LeasesModel {
            members: pruned(t.members, now, EXPIRED_LEASE_BATCH_SIZE as nat),
            ..t
        },
        LeaseStep::Recover { claimed } => if claimed {
            expired(t)
        } else {
            t
        },
    }
}

/// The leases after a run of steps.
pub open spec fn after_steps(t: LeasesModel, steps: Seq<LeaseStep>) -> LeasesModel
    decreases steps.len(),
{
    if steps.len() == 0 {
        t
    } else {
        after_step(after_steps(t, steps.drop_last()), steps.last())
    }
}

/// The token of a leadership that a step begins. A leader that asks again goes on
/// under its token, which is no new one.
pub open spec fn begun_token(t: LeasesModel, step: LeaseStep) -> Option<u64> {
    match step {
        LeaseStep::Acquire { process, now } => match acquisition(t, process, now) {
            Ok((_, Some(lease))) => if leader_stands(t, now) {
                None
            } else {
                Some(lease.fencing_token)
            },
            _ => None,
        },
        _ => None,
    }
}

proof fn lemma_step(t: LeasesModel, step: LeaseStep)
    requires
        leases_valid(t),
    ensures
        leases_valid(after_step(t, step)),
        t.next_token <= after_step(t, step).next_token,
        begun_token(t, step) is Some ==> begun_token(t, step)->0 == t.next_token && t.next_token
            < after_step(t, step).next_token,
{
    match step {
        LeaseStep::Register { process, now } => {
            if let Ok(m) = registration(process, find_member(t.members, process.instance_id), now) {
                lemma_with_member(t.members, m);
            }
        },
        LeaseStep::Acquire { process, now } => {},
        LeaseStep::Renew { process, fencing_token, now } => {},
        LeaseStep::Prune { now } => {
            law_maintenance_spares_active_members(
                t.members,
                now,
                EXPIRED_LEASE_BATCH_SIZE as nat,
            );
        },
        LeaseStep::Recover { claimed } => {
            lemma_expired_valid(t);
        },
    }
}

/// Leases stay valid over any run of steps, and the sequence of tokens never goes
/// back.
pub proof fn law_leases_stay_valid(t: LeasesModel, steps: Seq<LeaseStep>)
    requires
        leases_valid(t),
    ensures
        leases_valid(after_steps(t, steps)),
        t.next_token <= after_steps(t, steps).next_token,
    decreases steps.len(),
{
    if steps.len() > 0 {
        law_leases_stay_valid(t, steps.drop_last());
        lemma_step(after_steps(t, steps.drop_last()), steps.last());
    }
}

proof fn lemma_tokens_so_far(t: LeasesModel, steps: Seq<LeaseStep>, i: int)
    requires
        leases_valid(t),
        0 <= i < steps.len(),
    ensures
        leases_valid(after_steps(t, steps.take(i))),
        begun_token(after_steps(t, steps.take(i)), steps[i]) is Some ==> begun_token(
            after_steps(t, steps.take(i)),
            steps[i],
        )->0 < after_steps(t, steps).next_token,
    decreases steps.len(),
{
    let before = steps.drop_last();
    law_leases_stay_valid(t, before);
    law_leases_stay_valid(t, steps.take(i));
    lemma_step(after_steps(t, before), steps.last());
    if i < steps.len() - 1 {
        lemma_tokens_so_far(t, before, i);
        assert(before.take(i) =~= steps.take(i));
    } else {
        assert(steps.take(i) =~= before);
    }
}

/// Whatever is registered, renewed, pruned and recovered between, a leadership that
/// begins has a larger fencing token than every leadership that began before it,
/// and than that of every leader that there was.
pub proof fn law_every_leadership_has_a_larger_token(
    t: LeasesModel,
    steps: Seq<LeaseStep>,
    i: int,
    j: int,
)
    requires
        leases_valid(t),
        0 <= i < j < steps.len(),
        begun_token(after_steps(t, steps.take(j)), steps[j]) is Some,
    ensures
        ({
            let earlier = after_steps(t, steps.take(i));
            let token = begun_token(after_steps(t, steps.take(j)), steps[j])->0;
            &&& begun_token(earlier, steps[i]) is Some ==> begun_token(earlier, steps[i])->0 < token
            &&& earlier.leader is Some ==> earlier.leader->0.fencing_token < token
        }),
{
    let s = steps.take(j);
    law_leases_stay_valid(t, s);
    law_leases_stay_valid(t, steps.take(i));
    lemma_step(after_steps(t, s), steps[j]);
    lemma_tokens_so_far(t, s, i);
    assert(s.take(i) =~= steps.take(i));
    lemma_tokens_keep_up(t, s, i);
}

proof fn lemma_tokens_keep_up(t: LeasesModel, steps: Seq<LeaseStep>, i: int)
    requires
        leases_valid(t),
        0 <= i <= steps.len(),
    ensures
        after_steps(t, steps.take(i)).next_token <= after_steps(t, steps).next_token,
    decreases steps.len(),
{
    if i == steps.len() {
        assert(steps.take(i) =~= steps);
    } else {
        let before = steps.drop_last();
        law_leases_stay_valid(t, before);
        lemma_step(after_steps(t, before), steps.last());
        lemma_tokens_keep_up(t, before, i);
        assert(before.take(i) =~= steps.take(i));
    }
}

/// What a member that tries to lead is told. A leader that stands goes on under its
/// token and keeps the time since when it leads; while another one stands nothing
/// changes; and where none stands the process leads under the next token, which no
/// leader had. Every lease that is granted runs from now for the time of a lease.
pub proof fn law_leadership_is_kept_awaited_or_begun(
    t: LeasesModel,
    c: CoordinatorModel,
    now: u64,
)
    requires
        leases_valid(t),
        t.next_token < MAX_STORED,
        now + c.leader_lease_seconds <= MAX_STORED,
    ensures
        !member_active(t.members, c.instance_id, c.incarnation_id, now) ==> acquisition(t, c, now)
            is Err,
        member_active(t.members, c.instance_id, c.incarnation_id, now) ==> {
            let own = t.leader is Some && t.leader->0.instance_id == c.instance_id
                && t.leader->0.incarnation_id == c.incarnation_id;
            &&& acquisition(t, c, now) is Ok
            &&& match acquisition(t, c, now)->Ok_0.1 {
                None => leader_stands(t, now) && !own && acquisition(t, c, now)->Ok_0.0 == t,
                Some(lease) => {
                    &&& !leader_stands(t, now) || own
                    &&& lease.lease_until_unix_seconds == now + c.leader_lease_seconds
                    &&& leader_stands(t, now) ==> lease.fencing_token
                        == t.leader->0.fencing_token && lease.acquired_unix_seconds
                        == t.leader->0.acquired_unix_seconds
                    &&& !leader_stands(t, now) ==> lease.fencing_token == t.next_token
                        && lease.acquired_unix_seconds == now && (t.leader is Some
                        ==> t.leader->0.fencing_token < lease.fencing_token)
                },
            }
        },
{
}

/// There is one leader: while a leader stands, no other process acquires
/// leadership or may write.
pub proof fn law_leadership_is_exclusive(
    t: LeasesModel,
    c: CoordinatorModel,
    fencing_token: u64,
    now: u64,
)
    requires
        leader_stands(t, now),
        t.leader->0.instance_id != c.instance_id || t.leader->0.incarnation_id
            != c.incarnation_id,
    ensures
        acquisition(t, c, now) is Ok ==> acquisition(t, c, now)->Ok_0 == (
            t,
            None::<LeadershipLeaseModel>,
        ),
        fence_error(t, c, fencing_token, now) is Some,
{
}

/// A process that leads may write under its token, and one that was replaced
/// may not.
pub proof fn law_only_the_leader_passes_the_fence(
    t: LeasesModel,
    c: CoordinatorModel,
    now: u64,
    other: CoordinatorModel,
    old_token: u64,
)
    requires
        leases_valid(t),
        stored_time(now),
        c.leader_lease_seconds > 0,
        acquisition(t, c, now) is Ok,
        acquisition(t, c, now)->Ok_0.1 is Some,
    ensures
        ({
            let (after, lease) = acquisition(t, c, now)->Ok_0;
            &&& fence_error(after, c, lease->0.fencing_token, now) is None
            &&& old_token != lease->0.fencing_token ==> fence_error(after, other, old_token, now)
                is Some
        }),
{
}

/// At any time at most one process may write, and only under one token.
pub proof fn law_at_most_one_process_passes_the_fence(
    t: LeasesModel,
    a: CoordinatorModel,
    a_token: u64,
    b: CoordinatorModel,
    b_token: u64,
    now: u64,
)
    requires
        fence_error(t, a, a_token, now) is None,
        fence_error(t, b, b_token, now) is None,
    ensures
        a.instance_id == b.instance_id,
        a.incarnation_id == b.incarnation_id,
        a_token == b_token,
{
}

/// A leader renews its lease under its token.
pub proof fn law_leaders_renew(t: LeasesModel, c: CoordinatorModel, token: u64, now: u64)
    requires
        fence_error(t, c, token, now) is None,
        saturating_sum(now, c.leader_lease_seconds) <= MAX_STORED,
        c.leader_lease_seconds > 0,
    ensures
        renewed(t, c, token, now) is Ok,
        renewed(t, c, token, now)->Ok_0.1 is Some,
        fence_error(renewed(t, c, token, now)->Ok_0.0, c, token, now) is None,
{
}

/// Recovery ends every lease, and the sequence of tokens goes on: no token of
/// the time before passes the fence.
pub proof fn law_recovery_fences_earlier_leaders(
    t: LeasesModel,
    c: CoordinatorModel,
    token: u64,
    now: u64,
)
    requires
        leases_valid(t),
    ensures
        leases_valid(expired(t)),
        expired(t).next_token == t.next_token,
        fence_error(expired(t), c, token, now) is Some,
        !leader_stands(expired(t), now),
{
    lemma_expired_valid(t);
}

proof fn lemma_expired_valid(t: LeasesModel)
    requires
        leases_valid(t),
    ensures
        leases_valid(expired(t)),
{
    let e = expired(t);
    assert forall|i: int, j: int| 0 <= i < j < e.members.len() implies lex_less(
        (#[trigger] e.members[i]).instance_id,
        (#[trigger] e.members[j]).instance_id,
    ) by {
        assert(e.members[i].instance_id == t.members[i].instance_id);
        assert(e.members[j].instance_id == t.members[j].instance_id);
    }
}

/// Maintenance only deletes members whose leases have ended, and at most a
/// batch of them.
pub proof fn law_maintenance_spares_active_members(s: Seq<HaMemberModel>, now: u64, n: nat)
    requires
        in_order(s),
    ensures
        in_order(pruned(s, now, n)),
        active_list(pruned(s, now, n), now) == active_list(s, now),
        s.len() - n <= pruned(s, now, n).len() <= s.len(),
    decreases n,
{
    if n > 0 && exists|i: int| is_longest_expired(s, now, i) {
        let i = choose|i: int| is_longest_expired(s, now, i);
        let t = s.remove(i);
        assert forall|a: int, b: int| 0 <= a < b < t.len() implies lex_less(
            (#[trigger] t[a]).instance_id,
            (#[trigger] t[b]).instance_id,
        ) by {
            let x = if a < i {
                a
            } else {
                a + 1
            };
            let y = if b < i {
                b
            } else {
                b + 1
            };
            assert(t[a] == s[x] && t[b] == s[y]);
        }
        lemma_active_list_remove(s, now, i);
        law_maintenance_spares_active_members(t, now, (n - 1) as nat);
    }
}

proof fn lemma_active_list_remove(s: Seq<HaMemberModel>, now: u64, i: int)
    requires
        0 <= i < s.len(),
        s[i].lease_until_unix_seconds <= now,
    ensures
        active_list(s.remove(i), now) == active_list(s, now),
    decreases s.len(),
{
    let t = s.remove(i);
    if i == s.len() - 1 {
        assert(t =~= s.drop_last());
    } else {
        assert(t.drop_last() =~= s.drop_last().remove(i));
        assert(t.last() == s.last());
        lemma_active_list_remove(s.drop_last(), now, i);
    }
}

/// The active members are those whose lease has not ended, in their order.
pub proof fn law_members_are_active_until_their_lease_ends(a: Seq<HaMemberModel>, b: Seq<HaMemberModel>, x: HaMemberModel, now: u64)
    ensures
        active_list(a + b, now) == active_list(a, now) + active_list(b, now),
        x.lease_until_unix_seconds <= now ==> active_list(seq![x], now) == Seq::<HaMemberModel>::empty(),
        !(x.lease_until_unix_seconds <= now) ==> active_list(seq![x], now) == seq![x],
    decreases b.len(),
{
    reveal_with_fuel(active_list, 2);
    assert(seq![x].drop_last() =~= Seq::<HaMemberModel>::empty());
    if b.len() == 0 {
        assert(a + b =~= a);
        assert(active_list(b, now) =~= Seq::<HaMemberModel>::empty());
    } else {
        law_members_are_active_until_their_lease_ends(a, b.drop_last(), x, now);
        assert((a + b).drop_last() =~= a + b.drop_last());
        assert((a + b).last() == b.last());
        assert(active_list(a + b, now) =~= active_list(a, now) + active_list(b, now));
    }
}

/// A process is an active member exactly if the directory holds its instance with its
/// incarnation and a lease that has not ended.
pub proof fn law_membership_is_held_by_incarnation(
    s: Seq<HaMemberModel>,
    instance_id: Seq<char>,
    incarnation_id: Seq<char>,
    now: u64,
)
    requires
        in_order(s),
    ensures
        member_active(s, instance_id, incarnation_id, now) <==> exists|i: int|
            0 <= i < s.len() && (#[trigger] s[i]).instance_id == instance_id && s[i].incarnation_id
                == incarnation_id && s[i].lease_until_unix_seconds > now,
{
    if exists|i: int|
        0 <= i < s.len() && (#[trigger] s[i]).instance_id == instance_id && s[i].incarnation_id
            == incarnation_id && s[i].lease_until_unix_seconds > now {
        let i = choose|i: int|
            0 <= i < s.len() && (#[trigger] s[i]).instance_id == instance_id && s[i].incarnation_id
                == incarnation_id && s[i].lease_until_unix_seconds > now;
        lemma_find_member(s, i);
    }
    if member_active(s, instance_id, incarnation_id, now) {
        let i = member_position(s, instance_id);
        assert(s[i].instance_id == instance_id);
    }
}

/// A registered member is the only one of its instance, and all other members stay as
/// they were.
pub proof fn law_registering_keeps_the_other_members(
    s: Seq<HaMemberModel>,
    m: HaMemberModel,
    x: HaMemberModel,
)
    requires
        in_order(s),
    ensures
        with_member(s, m).contains(x) <==> x == m || s.contains(x) && x.instance_id
            != m.instance_id,
{
    let t = with_member(s, m);
    let p = member_position(s, m.instance_id);
    lemma_member_position(s, m.instance_id);
    lemma_with_member(s, m);
    let at = p < s.len() && s[p].instance_id == m.instance_id;
    assert(t[p] == m);
    if s.contains(x) && x.instance_id != m.instance_id {
        let i = choose|i: int| 0 <= i < s.len() && s[i] == x;
        if at || i < p {
            assert(t[i] == x);
        } else {
            assert(t[i + 1] == x);
        }
    }
    if t.contains(x) && x != m {
        let j = choose|j: int| 0 <= j < t.len() && t[j] == x;
        lemma_find_member(t, j);
        lemma_find_member(t, p);
        if at || j < p {
            assert(s[j] == x);
        } else {
            assert(s[j - 1] == x);
        }
    }
}

/// A process is registered unless another incarnation of its instance is active. Its
/// lease then runs for the configured time from now, and it keeps the time at which
/// it started.
pub proof fn law_registrations_renew_the_lease(
    c: CoordinatorModel,
    current: Option<HaMemberModel>,
    now: u64,
)
    ensures
        ({
            let r = registration(c, current, now);
            let displaced = current is Some && current->0.incarnation_id != c.incarnation_id
                && current->0.lease_until_unix_seconds > now;
            &&& r is Err && r->Err_0 is AnotherIncarnation <==> displaced
            &&& r is Ok <==> !displaced && now + c.member_lease_seconds <= 0x7fff_ffff_ffff_ffff
            &&& r is Err && !displaced ==> r->Err_0 is ValueTooLarge
            &&& r is Ok ==> {
                let m = r->Ok_0;
                &&& m.instance_id == c.instance_id && m.incarnation_id == c.incarnation_id
                &&& m.metadata_json == c.metadata_json
                &&& m.last_seen_unix_seconds == now
                &&& m.lease_until_unix_seconds == now + c.member_lease_seconds
                &&& current is Some && current->0.incarnation_id == c.incarnation_id
                    ==> m.started_unix_seconds == current->0.started_unix_seconds
                &&& current is None || current->0.incarnation_id != c.incarnation_id
                    ==> m.started_unix_seconds == now
            }
        }),
{
}

/// A leader stands exactly while its own lease and that of its membership run.
pub proof fn law_leaders_stand_while_their_leases_run(t: LeasesModel, now: u64)
    requires
        in_order(t.members),
    ensures
        leader_stands(t, now) <==> t.leader is Some && t.leader->0.lease_until_unix_seconds > now
            && exists|i: int|
            0 <= i < t.members.len() && (#[trigger] t.members[i]).instance_id
                == t.leader->0.instance_id && t.members[i].incarnation_id
                == t.leader->0.incarnation_id && t.members[i].lease_until_unix_seconds > now,
{
    if t.leader is Some {
        law_membership_is_held_by_incarnation(
            t.members,
            t.leader->0.instance_id,
            t.leader->0.incarnation_id,
            now,
        );
    }
}

/// A write passes the fence exactly if its token is that of the leader, whose lease
/// runs, and the writer is that leader and an active member.
pub proof fn law_writes_pass_the_fence_of_their_leader(
    t: LeasesModel,
    c: CoordinatorModel,
    fencing_token: u64,
    now: u64,
)
    ensures
        ({
            let e = fence_error(t, c, fencing_token, now);
            &&& e is None <==> {
                &&& 0 < fencing_token <= 0x7fff_ffff_ffff_ffff
                &&& t.leader is Some
                &&& t.leader->0.instance_id == c.instance_id
                &&& t.leader->0.incarnation_id == c.incarnation_id
                &&& t.leader->0.fencing_token == fencing_token
                &&& t.leader->0.lease_until_unix_seconds > now
                &&& member_active(t.members, c.instance_id, c.incarnation_id, now)
            }
            &&& e is Some && e->0 is ZeroFencingToken <==> fencing_token == 0
            &&& e is Some && e->0 is ValueTooLarge <==> fencing_token > 0x7fff_ffff_ffff_ffff
            &&& e is Some && 0 < fencing_token <= 0x7fff_ffff_ffff_ffff ==> e->0
                is StaleFencingToken
        }),
{
}

/// Leadership is renewed exactly for the active member that holds it under the given
/// token while it runs. Only the times of the lease change.
pub proof fn law_leaders_alone_renew(
    t: LeasesModel,
    c: CoordinatorModel,
    fencing_token: u64,
    now: u64,
)
    requires
        fencing_token <= 0x7fff_ffff_ffff_ffff,
        now + c.leader_lease_seconds <= 0x7fff_ffff_ffff_ffff,
    ensures
        ({
            let r = renewed(t, c, fencing_token, now);
            let (after, lease) = r->Ok_0;
            let l = t.leader->0;
            let holds = t.leader is Some && l.instance_id == c.instance_id && l.incarnation_id
                == c.incarnation_id && l.fencing_token == fencing_token
                && l.lease_until_unix_seconds > now && member_active(
                t.members,
                c.instance_id,
                c.incarnation_id,
                now,
            );
            &&& r is Ok
            &&& lease is Some <==> holds
            &&& !holds ==> after == t
            &&& holds ==> {
                &&& after == (LeasesModel { leader: lease, ..t })
                &&& lease->0 == (LeadershipLeaseModel {
                    renewed_unix_seconds: now,
                    lease_until_unix_seconds: (now + c.leader_lease_seconds) as u64,
                    ..l
                })
            }
        }),
{
}

/// A begun leadership belongs to the process that asked, runs for the configured time
/// from now, and uses up one token.
pub proof fn law_begun_leaderships_belong_to_who_asked(
    t: LeasesModel,
    c: CoordinatorModel,
    now: u64,
)
    requires
        acquisition(t, c, now) is Ok,
    ensures
        ({
            let (after, lease) = acquisition(t, c, now)->Ok_0;
            &&& after.members == t.members
            &&& lease is Some ==> {
                &&& after.leader == lease
                &&& lease->0.instance_id == c.instance_id
                &&& lease->0.incarnation_id == c.incarnation_id
                &&& lease->0.renewed_unix_seconds == now
                &&& lease->0.lease_until_unix_seconds == now + c.leader_lease_seconds
            }
            &&& lease is Some && !leader_stands(t, now) ==> after.next_token == t.next_token + 1
                && lease->0.fencing_token == t.next_token && lease->0.acquired_unix_seconds == now
            &&& leader_stands(t, now) ==> after.next_token == t.next_token
        }),
{
}

/// Without an active membership there is no leadership; that is what is answered.
pub proof fn law_leadership_takes_membership(t: LeasesModel, c: CoordinatorModel, now: u64)
    ensures
        ({
            let r = acquisition(t, c, now);
            let member = member_active(t.members, c.instance_id, c.incarnation_id, now);
            &&& r is Err && r->Err_0 is MemberLeaseRequired <==> !member
            &&& r is Err && member ==> r->Err_0 is ValueTooLarge
        }),
{
}

/// Recovery ends every lease and changes nothing else.
pub proof fn law_recovery_ends_every_lease(t: LeasesModel, i: int)
    ensures
        expired(t).members.len() == t.members.len(),
        0 <= i < t.members.len() ==> expired(t).members[i] == (HaMemberModel {
            lease_until_unix_seconds: 0,
            ..t.members[i]
        }),
        t.leader is None ==> expired(t).leader is None,
        t.leader is Some ==> expired(t).leader == Some(
            LeadershipLeaseModel { lease_until_unix_seconds: 0, ..t.leader->0 },
        ),
        expired(t).next_token == t.next_token,
{
}

/// Maintenance takes the member whose lease ended first, and goes on with the rest; it
/// stops when none is left whose lease has ended, or at the size of the batch.
pub proof fn law_the_longest_expired_go_first(s: Seq<HaMemberModel>, now: u64, n: nat, i: int)
    requires
        0 <= i < s.len(),
        s[i].lease_until_unix_seconds <= now,
        forall|j: int|
            0 <= j < s.len() && j != i && (#[trigger] s[j]).lease_until_unix_seconds <= now
                ==> s[i].lease_until_unix_seconds < s[j].lease_until_unix_seconds || (
            s[i].lease_until_unix_seconds == s[j].lease_until_unix_seconds && i < j),
    ensures
        pruned(s, now, 0) == s,
        n > 0 ==> pruned(s, now, n) == pruned(s.remove(i), now, (n - 1) as nat),
{
    assert forall|j: int|
        0 <= j < s.len() && j != i && (#[trigger] s[j]).lease_until_unix_seconds
            <= now implies ended_before(s, i, j) by {}
    assert(is_longest_expired(s, now, i));
    lemma_longest_expired_unique(s, now, i);
}

/// A batch of maintenance holds 128 members.
pub proof fn law_batches_are_bounded(t: LeasesModel, now: u64)
    requires
        in_order(t.members),
    ensures
        after_step(t, LeaseStep::Prune { now }).members.len() >= t.members.len() - 128,
        after_step(t, LeaseStep::Prune { now }).leader == t.leader,
        after_step(t, LeaseStep::Prune { now }).next_token == t.next_token,
        after_step(t, LeaseStep::Prune { now }).members == pruned(t.members, now, 128),
{
    law_maintenance_spares_active_members(t.members, now, 128);
}

/// A lease is accepted between two seconds and its maximum, and what is wrong with
/// another is told.
pub proof fn law_leases_have_bounds(seconds: u64, name: Seq<char>, maximum: u64)
    ensures
        lease_error(seconds, name, maximum) is None <==> 2 <= seconds <= maximum,
        seconds < 2 ==> lease_error(seconds, name, maximum) == Some(
            name + " lease must be at least two seconds"@,
        ),
        seconds >= 2 && seconds > maximum ==> lease_error(seconds, name, maximum) == Some(
            name + " lease must not exceed "@ + decimal(maximum as nat) + " seconds"@,
        ),
{
}

/// An instance is named by 1 to 128 bytes without control characters.
pub proof fn law_instances_are_named(s: Seq<char>)
    ensures
        instance_id_error(s) is None <==> s.len() > 0 && utf8_len(s) <= 128 && !has_control(s),
        s.len() == 0 ==> instance_id_error(s) == Some("HA instance ID is required"@),
        s.len() > 0 && utf8_len(s) > 128 ==> instance_id_error(s) == Some(
            "HA instance ID exceeds 128 bytes"@,
        ),
        s.len() > 0 && utf8_len(s) <= 128 && has_control(s) ==> instance_id_error(s) == Some(
            "HA instance ID must not contain control characters"@,
        ),
{
}

/// Metadata is stored in its compact form exactly if it is a JSON object, and neither
/// it nor that form has more than 16384 bytes.
pub proof fn law_metadata_is_a_bounded_object(
    text: Seq<char>,
    read: Result<bool, Seq<char>>,
    compact: Result<Seq<char>, Seq<char>>,
)
    ensures
        stored_metadata(text, read, compact) is Ok <==> utf8_len(text) <= 16384 && read is Ok
            && read->Ok_0 && compact is Ok && utf8_len(compact->Ok_0) <= 16384,
        stored_metadata(text, read, compact) is Ok ==> stored_metadata(text, read, compact)
            == compact,
        metadata_error(text, read) is None <==> utf8_len(text) <= 16384 && read is Ok
            && read->Ok_0,
        utf8_len(text) > 16384 ==> metadata_error(text, read) == Some(
            "HA member metadata exceeds 16384 bytes"@,
        ),
        utf8_len(text) <= 16384 && read is Err ==> metadata_error(text, read) == Some(
            "HA member metadata must be valid JSON: "@ + read->Err_0,
        ),
        utf8_len(text) <= 16384 && read is Ok && !read->Ok_0 ==> metadata_error(text, read)
            == Some("HA member metadata must be a JSON object"@),
{
}

/// A coordinator is opened exactly for a sound instance and sound metadata, with a
/// member lease of 2 to 300 seconds and a leader lease of 2 to 120 seconds that is not
/// the longer of the two. It keeps what it was given.
pub proof fn law_coordinators_are_opened_within_bounds(
    instance_id: Seq<char>,
    metadata: Result<Seq<char>, Seq<char>>,
    member_lease: u64,
    leader_lease: u64,
    incarnation_id: Seq<char>,
)
    ensures
        ({
            let r = opened(instance_id, metadata, member_lease, leader_lease, incarnation_id);
            let id = trim(instance_id);
            &&& r is Ok <==> id.len() > 0 && utf8_len(id) <= 128 && !has_control(id) && metadata
                is Ok && 2 <= member_lease <= 300 && 2 <= leader_lease <= 120 && leader_lease
                <= member_lease
            &&& r is Ok ==> {
                &&& r->Ok_0.instance_id == id
                &&& r->Ok_0.incarnation_id == incarnation_id
                &&& r->Ok_0.metadata_json == metadata->Ok_0
                &&& r->Ok_0.member_lease_seconds == member_lease
                &&& r->Ok_0.leader_lease_seconds == leader_lease
            }
        }),
{
}

} // verus!
