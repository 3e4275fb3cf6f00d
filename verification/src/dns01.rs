//! The journal of DNS-01 challenges. An intent is written down before its record
//! is created at the provider, and is only forgotten once the record is known to
//! be gone or never to have been there.

use crate::ha_coordination::{HaLeases, LeasesModel};
use crate::ids::{first_id, lemma_first_id, lemma_first_id_unique};
use crate::job_leases::{JobLease, JobLeaseModel, is_issuer_active, issuer_active, job_models};
use crate::stored_numbers::MAX_STORED;
use crate::text::{
    ascii_alphanumeric, chars_of, copy_optional, fits_utf8, has_prefix, is_ascii_alphanumeric,
    opt_view, same_text, slice_of, starts_with, string_of, utf8_len,
};
use crate::uuids::{hyphenated, uuid_text};
use vstd::prelude::*;
use vstd::string::*;

verus! {

/// How many intents the journal holds.
pub const MAX_INTENTS: usize = 4096;

/// How many intents one cleanup run takes up.
pub const DUE_LIMIT: usize = 32;

/// The intent to publish the record of a challenge.
#[derive(Clone, Debug, PartialEq, Eq)]
pub struct Dns01Intent {
    pub id: u128,
    pub identifier: String,
    pub provider: String,
    pub zone_id: String,
    pub record_name: String,
    pub value: String,
    pub record_id: Option<String>,
    pub creation_observed: bool,
    pub creation_rejected: bool,
    pub job_key: String,
    pub job_lease_id: String,
    pub cleanup_requested: bool,
    pub next_cleanup: i64,
}

/// What a [`Dns01Intent`] says.
pub struct Dns01IntentModel {
    pub id: u128,
    pub identifier: Seq<char>,
    pub provider: Seq<char>,
    pub zone_id: Seq<char>,
    pub record_name: Seq<char>,
    pub value: Seq<char>,
    pub record_id: Option<Seq<char>>,
    pub creation_observed: bool,
    pub creation_rejected: bool,
    pub job_key: Seq<char>,
    pub job_lease_id: Seq<char>,
    pub cleanup_requested: bool,
    pub next_cleanup: i64,
}

impl View for Dns01Intent {
    type V = Dns01IntentModel;

    open spec fn view(&self) -> Dns01IntentModel {
        Dns01IntentModel {
            id: self.id,
            identifier: self.identifier@,
            provider: self.provider@,
            zone_id: self.zone_id@,
            record_name: self.record_name@,
            value: self.value@,
            record_id: opt_view(self.record_id),
            creation_observed: self.creation_observed,
            creation_rejected: self.creation_rejected,
            job_key: self.job_key@,
            job_lease_id: self.job_lease_id@,
            cleanup_requested: self.cleanup_requested,
            next_cleanup: self.next_cleanup,
        }
    }
}

impl Dns01Intent {
    /// A copy of the value.
    pub fn duplicate(&self) -> (r: Self)
        ensures
            r@ == self@,
    {
        let r = Dns01Intent {
            id: self.id,
            identifier: self.identifier.clone(),
            provider: self.provider.clone(),
            zone_id: self.zone_id.clone(),
            record_name: self.record_name.clone(),
            value: self.value.clone(),
            record_id: copy_optional(&self.record_id),
            creation_observed: self.creation_observed,
            creation_rejected: self.creation_rejected,
            job_key: self.job_key.clone(),
            job_lease_id: self.job_lease_id.clone(),
            cleanup_requested: self.cleanup_requested,
            next_cleanup: self.next_cleanup,
        };
        r
    }

    /// Copies of a list of values.
    pub fn duplicate_all(v: &Vec<Self>) -> (r: Vec<Self>)
        ensures
            r@.map_values(|x: Self| x@) == v@.map_values(|x: Self| x@),
    {
        let mut out: Vec<Self> = Vec::new();
        let mut i: usize = 0;
        while i < v.len()
            invariant
                i <= v@.len(),
                out@.len() == i,
                forall|j: int| 0 <= j < i ==> (#[trigger] out@[j])@ == v@[j]@,
            decreases v@.len() - i,
        {
            out.push(v[i].duplicate());
            i = i + 1;
        }
        assert(out@.map_values(|x: Self| x@) =~= v@.map_values(|x: Self| x@));
        out
    }
}

pub open spec fn cleanup_key(id: u128) -> Seq<char> {
    "dns01_cleanup:"@ + hyphenated(id)
}

impl Dns01Intent {
    /// The comment by which the record is found again.
    pub fn comment(&self) -> (r: String)
        ensures
            r@ == "LinkLake DNS-01 "@ + hyphenated(self.id),
    {
        let mut out = "LinkLake DNS-01 ".to_owned();
        out.append(uuid_text(self.id).as_str());
        out
    }

    /// The key of the job that cleans up after the intent.
    pub fn cleanup_job_key(&self) -> (r: String)
        ensures
            r@ == cleanup_key(self.id),
    {
        cleanup_key_of(self.id)
    }
}

fn cleanup_key_of(id: u128) -> (r: String)
    ensures
        r@ == cleanup_key(id),
{
    let mut out = "dns01_cleanup:".to_owned();
    out.append(uuid_text(id).as_str());
    out
}

/// What happens to an intent.
#[derive(Debug)]
pub enum Dns01Mutation {
    Create(Dns01Intent),
    Published(String),
    Rejected,
    RequestCleanup,
    AuthorizeCleanup,
    ObservedCreation,
    RetryCleanup,
    CompleteCleanup,
}

pub enum MutationModel {
    Create(Dns01IntentModel),
    Published(Seq<char>),
    Rejected,
    RequestCleanup,
    AuthorizeCleanup,
    ObservedCreation,
    RetryCleanup,
    CompleteCleanup,
}

impl View for Dns01Mutation {
    type V = MutationModel;

    open spec fn view(&self) -> MutationModel {
        match self {
            Dns01Mutation::Create(intent) => MutationModel::Create(intent@),
            Dns01Mutation::Published(record_id) => MutationModel::Published(record_id@),
            Dns01Mutation::Rejected => MutationModel::Rejected,
            Dns01Mutation::RequestCleanup => MutationModel::RequestCleanup,
            Dns01Mutation::AuthorizeCleanup => MutationModel::AuthorizeCleanup,
            Dns01Mutation::ObservedCreation => MutationModel::ObservedCreation,
            Dns01Mutation::RetryCleanup => MutationModel::RetryCleanup,
            Dns01Mutation::CompleteCleanup => MutationModel::CompleteCleanup,
        }
    }
}

/// Whether a mutation belongs to the job that cleans up.
pub open spec fn cleans_up(m: MutationModel) -> bool {
    m is AuthorizeCleanup || m is ObservedCreation || m is RetryCleanup || m is CompleteCleanup
}

impl Dns01Mutation {
    pub fn cleanup(&self) -> (r: bool)
        ensures
            r == cleans_up(self@),
    {
        match self {
            Dns01Mutation::AuthorizeCleanup
            | Dns01Mutation::ObservedCreation
            | Dns01Mutation::RetryCleanup
            | Dns01Mutation::CompleteCleanup => true,
            _ => false,
        }
    }
}

/// What the certificate catalogue and the provider say about the texts of an
/// intent; an error is the text of a refusal.
#[derive(Debug)]
pub struct Dns01Facts {
    /// The certificate identifier of the intent in its normal form.
    pub identifier: Result<String, String>,
    /// The key of the job that issues the certificate.
    pub job_key: Result<String, String>,
    /// Whether the zone of the intent can be one of the provider's.
    pub zone: Result<(), String>,
    /// Whether the published record can be one of the provider's.
    pub record: Result<(), String>,
}

pub struct FactsModel {
    pub identifier: Result<Seq<char>, Seq<char>>,
    pub job_key: Result<Seq<char>, Seq<char>>,
    pub zone: Result<(), Seq<char>>,
    pub record: Result<(), Seq<char>>,
}

pub open spec fn text_result(r: Result<String, String>) -> Result<Seq<char>, Seq<char>> {
    match r {
        Ok(s) => Ok(s@),
        Err(error) => Err(error@),
    }
}

pub open spec fn unit_result(r: Result<(), String>) -> Result<(), Seq<char>> {
    match r {
        Ok(u) => Ok(u),
        Err(error) => Err(error@),
    }
}

impl View for Dns01Facts {
    type V = FactsModel;

    open spec fn view(&self) -> FactsModel {
        FactsModel {
            identifier: text_result(self.identifier),
            job_key: text_result(self.job_key),
            zone: unit_result(self.zone),
            record: unit_result(self.record),
        }
    }
}

pub open spec fn saturating_instant(now: i64, seconds: int) -> i64 {
    if now + seconds > i64::MAX {
        i64::MAX
    } else {
        (now + seconds) as i64
    }
}

/// A step of the job that cleans up. It does not interrupt an issuer at work
/// and does not forget a record that may exist.
pub open spec fn cleanup_step(
    id: u128,
    lease: JobLeaseModel,
    current: Option<Dns01IntentModel>,
    m: MutationModel,
    owner_active: bool,
    now: i64,
) -> Result<Option<Dns01IntentModel>, Seq<char>> {
    if lease.job_kind != "dns01_cleanup"@ || lease.job_key != cleanup_key(id) {
        Err("DNS-01 cleanup job does not match intent"@)
    } else {
        match current {
            None => Ok(None),
            Some(intent) => if intent.id != id || !(intent.cleanup_requested || !owner_active) {
                Err("DNS-01 issuance is still active; refusing cleanup"@)
            } else if m is CompleteCleanup {
                if intent.creation_observed || intent.creation_rejected {
                    Ok(None)
                } else {
                    Err("DNS-01 creation is unresolved; retain the cleanup intent"@)
                }
            } else {
                Ok(
                    Some(
                        Dns01IntentModel {
                            cleanup_requested: true,
                            creation_observed: intent.creation_observed || m is ObservedCreation,
                            next_cleanup: saturating_instant(now, 60),
                            ..intent
                        },
                    ),
                )
            },
        }
    }
}

pub open spec fn value_char(c: char) -> bool {
    ascii_alphanumeric(c) || c == '-' || c == '_'
}

/// A challenge value: a SHA-256 digest in base64url without padding.
pub open spec fn challenge_value(s: Seq<char>) -> bool {
    s.len() == 43 && forall|i: int| 0 <= i < s.len() ==> value_char(#[trigger] s[i])
}

/// The name under which the record of an identifier is published.
pub open spec fn challenge_name(identifier: Seq<char>) -> Seq<char> {
    "_acme-challenge."@ + if starts_with(identifier, "*."@) {
        identifier.skip(2)
    } else {
        identifier
    }
}

/// A new intent as it is written down, or why it is refused.
pub open spec fn created(
    id: u128,
    current: Option<Dns01IntentModel>,
    intent: Dns01IntentModel,
    facts: FactsModel,
    now: i64,
) -> Result<Dns01IntentModel, Seq<char>> {
    if current is Some || intent.id != id || intent.record_id is Some || intent.cleanup_requested
        || intent.creation_observed || intent.creation_rejected {
        Err("DNS-01 intent already exists or is invalid"@)
    } else {
        match facts.identifier {
            Err(error) => Err(error),
            Ok(normalized) => if normalized != intent.identifier || intent.record_name
                != challenge_name(normalized) || utf8_len(intent.record_name) > 253 {
                Err("DNS-01 intent domain does not match certificate identifier"@)
            } else {
                match facts.zone {
                    Err(error) => Err(error),
                    Ok(_) => if utf8_len(intent.provider) > 4096 || !challenge_value(
                        intent.value,
                    ) {
                        Err("DNS-01 publication context is invalid"@)
                    } else {
                        Ok(
                            Dns01IntentModel {
                                next_cleanup: saturating_instant(now, 30),
                                ..intent
                            },
                        )
                    },
                }
            },
        }
    }
}

/// Whether a lease is that of the job which issues the certificate of an
/// intent, or the text of a refusal.
pub open spec fn issuing_error(
    id: u128,
    lease: JobLeaseModel,
    intent: Dns01IntentModel,
    job_key: Result<Seq<char>, Seq<char>>,
) -> Option<Seq<char>> {
    if lease.job_kind != "certificate"@ {
        Some("DNS-01 intent does not match issuing job"@)
    } else {
        match job_key {
            Err(error) => Some(error),
            Ok(key) => if lease.job_key != key || intent.job_key != lease.job_key
                || intent.job_lease_id != hyphenated(lease.lease_id) {
                Some("DNS-01 intent does not match issuing job"@)
            } else if intent.id != id {
                Some("DNS-01 intent identity differs from its row"@)
            } else {
                None
            },
        }
    }
}

/// What a step of the issuing job makes of an intent.
pub open spec fn issued(
    intent: Dns01IntentModel,
    m: MutationModel,
    facts: FactsModel,
    now: i64,
) -> Result<Dns01IntentModel, Seq<char>> {
    match m {
        MutationModel::Published(record_id) => match facts.record {
            Err(error) => Err(error),
            Ok(_) => if intent.cleanup_requested || (intent.record_id is Some
                && intent.record_id->0 != record_id) {
                Err("DNS-01 publication is no longer current"@)
            } else {
                Ok(
                    Dns01IntentModel {
                        record_id: Some(record_id),
                        creation_observed: true,
                        ..intent
                    },
                )
            },
        },
        MutationModel::Rejected => if intent.creation_observed {
            Err("DNS-01 creation was already observed"@)
        } else {
            Ok(
                Dns01IntentModel {
                    creation_rejected: true,
                    cleanup_requested: true,
                    next_cleanup: now,
                    ..intent
                },
            )
        },
        MutationModel::RequestCleanup => Ok(
            Dns01IntentModel { cleanup_requested: true, next_cleanup: now, ..intent },
        ),
        _ => Ok(intent),
    }
}

/// What a mutation makes of the intent of a row; nothing stands for a row that
/// goes.
pub open spec fn transition_of(
    id: u128,
    lease: JobLeaseModel,
    current: Option<Dns01IntentModel>,
    m: MutationModel,
    facts: FactsModel,
    owner_active: bool,
    now: i64,
) -> Result<Option<Dns01IntentModel>, Seq<char>> {
    if cleans_up(m) {
        cleanup_step(id, lease, current, m, owner_active, now)
    } else {
        let base = match m {
            MutationModel::Create(intent) => created(id, current, intent, facts, now),
            _ => match current {
                Some(intent) => Ok(intent),
                None => Err("DNS-01 intent does not exist"@),
            },
        };
        match base {
            Err(error) => Err(error),
            Ok(intent) => match issuing_error(id, lease, intent, facts.job_key) {
                Some(error) => Err(error),
                None => match issued(intent, m, facts, now) {
                    Ok(next) => Ok(Some(next)),
                    Err(error) => Err(error),
                },
            },
        }
    }
}

pub open spec fn opt_intent(v: Option<Dns01Intent>) -> Option<Dns01IntentModel> {
    match v {
        Some(x) => Some(x@),
        None => None,
    }
}

fn later(now: i64, seconds: i64) -> (r: i64)
    requires
        0 <= seconds,
    ensures
        r == saturating_instant(now, seconds as int),
{
    if now > 0x7fff_ffff_ffff_ffff - seconds {
        0x7fff_ffff_ffff_ffff
    } else {
        now + seconds
    }
}

fn is_challenge_value(s: &str) -> (r: bool)
    ensures
        r == challenge_value(s@),
{
    let c = chars_of(s);
    if c.len() != 43 {
        return false;
    }
    let mut i: usize = 0;
    while i < c.len()
        invariant
            i <= c@.len(),
            c@ == s@,
            forall|j: int| 0 <= j < i ==> value_char(#[trigger] s@[j]),
        decreases c@.len() - i,
    {
        if !(is_ascii_alphanumeric(c[i]) || c[i] == '-' || c[i] == '_') {
            assert(!value_char(s@[i as int]));
            return false;
        }
        i = i + 1;
    }
    true
}

fn challenge_name_of(identifier: &str) -> (r: String)
    ensures
        r@ == challenge_name(identifier@),
{
    let c = chars_of(identifier);
    let mut out = "_acme-challenge.".to_owned();
    proof {
        reveal_strlit("*.");
    }
    if has_prefix(&c, "*.") {
        let rest = slice_of(&c, 2, c.len());
        assert(rest@ =~= identifier@.skip(2));
        out.append(string_of(&rest).as_str());
    } else {
        out.append(identifier);
    }
    out
}

fn create(
    id: u128,
    current: &Option<Dns01Intent>,
    intent: &Dns01Intent,
    facts: &Dns01Facts,
    now: i64,
) -> (r: Result<Dns01Intent, String>)
    ensures
        match created(id, opt_intent(*current), intent@, facts@, now) {
            Ok(x) => r is Ok && r->Ok_0@ == x,
            Err(error) => r is Err && r->Err_0@ == error,
        },
{
    if current.is_some() || intent.id != id || intent.record_id.is_some()
        || intent.cleanup_requested || intent.creation_observed || intent.creation_rejected {
        return Err("DNS-01 intent already exists or is invalid".to_owned());
    }
    let mut intent = intent.duplicate();
    match &facts.identifier {
        Err(error) => {
            return Err(error.clone());
        },
        Ok(normalized) => {
            let name = challenge_name_of(normalized.as_str());
            if *normalized != intent.identifier || intent.record_name != name || !fits_utf8(
                &chars_of(intent.record_name.as_str()),
                253,
            ) {
                return Err(
                    "DNS-01 intent domain does not match certificate identifier".to_owned(),
                );
            }
        },
    }
    if let Err(error) = &facts.zone {
        return Err(error.clone());
    }
    if !fits_utf8(&chars_of(intent.provider.as_str()), 4096) || !is_challenge_value(
        intent.value.as_str(),
    ) {
        return Err("DNS-01 publication context is invalid".to_owned());
    }
    intent.next_cleanup = later(now, 30);
    Ok(intent)
}

fn clean_up(
    id: u128,
    lease: &JobLease,
    current: Option<Dns01Intent>,
    mutation: &Dns01Mutation,
    owner_active: bool,
    now: i64,
) -> (r: Result<Option<Dns01Intent>, String>)
    ensures
        match cleanup_step(id, lease@, opt_intent(current), mutation@, owner_active, now) {
            Ok(next) => r is Ok && opt_intent(r->Ok_0) == next,
            Err(error) => r is Err && r->Err_0@ == error,
        },
{
    let key = cleanup_key_of(id);
    if !same_text(lease.job_kind.as_str(), "dns01_cleanup") || lease.job_key != key {
        return Err("DNS-01 cleanup job does not match intent".to_owned());
    }
    let mut intent = match current {
        None => {
            return Ok(None);
        },
        Some(intent) => intent,
    };
    if intent.id != id || !(intent.cleanup_requested || !owner_active) {
        return Err("DNS-01 issuance is still active; refusing cleanup".to_owned());
    }
    if let Dns01Mutation::CompleteCleanup = mutation {
        if intent.creation_observed || intent.creation_rejected {
            return Ok(None);
        }
        return Err("DNS-01 creation is unresolved; retain the cleanup intent".to_owned());
    }
    intent.cleanup_requested = true;
    if let Dns01Mutation::ObservedCreation = mutation {
        intent.creation_observed = true;
    }
    intent.next_cleanup = later(now, 60);
    Ok(Some(intent))
}

fn check_issuer(
    id: u128,
    lease: &JobLease,
    intent: &Dns01Intent,
    job_key: &Result<String, String>,
) -> (r: Result<(), String>)
    ensures
        match issuing_error(id, lease@, intent@, text_result(*job_key)) {
            Some(error) => r is Err && r->Err_0@ == error,
            None => r is Ok,
        },
{
    if !same_text(lease.job_kind.as_str(), "certificate") {
        return Err("DNS-01 intent does not match issuing job".to_owned());
    }
    match job_key {
        Err(error) => Err(error.clone()),
        Ok(key) => {
            let lease_id = uuid_text(lease.lease_id);
            if lease.job_key != *key || intent.job_key != lease.job_key || intent.job_lease_id
                != lease_id {
                return Err("DNS-01 intent does not match issuing job".to_owned());
            }
            if intent.id != id {
                return Err("DNS-01 intent identity differs from its row".to_owned());
            }
            Ok(())
        },
    }
}

fn issue(mut intent: Dns01Intent, mutation: Dns01Mutation, facts: &Dns01Facts, now: i64) -> (r:
    Result<Dns01Intent, String>)
    ensures
        match issued(intent@, mutation@, facts@, now) {
            Ok(next) => r is Ok && r->Ok_0@ == next,
            Err(error) => r is Err && r->Err_0@ == error,
        },
{
    match mutation {
        Dns01Mutation::Published(record_id) => {
            if let Err(error) = &facts.record {
                return Err(error.clone());
            }
            let same = match &intent.record_id {
                Some(current) => *current == record_id,
                None => true,
            };
            if intent.cleanup_requested || !same {
                return Err("DNS-01 publication is no longer current".to_owned());
            }
            intent.record_id = Some(record_id);
            intent.creation_observed = true;
        },
        Dns01Mutation::Rejected => {
            if intent.creation_observed {
                return Err("DNS-01 creation was already observed".to_owned());
            }
            intent.creation_rejected = true;
            intent.cleanup_requested = true;
            intent.next_cleanup = now;
        },
        Dns01Mutation::RequestCleanup => {
            intent.cleanup_requested = true;
            intent.next_cleanup = now;
        },
        _ => {},
    }
    Ok(intent)
}

/// What a mutation makes of the intent of a row.
pub fn transition(
    id: u128,
    lease: &JobLease,
    current: Option<Dns01Intent>,
    mutation: Dns01Mutation,
    facts: &Dns01Facts,
    owner_active: bool,
    now: i64,
) -> (r: Result<Option<Dns01Intent>, String>)
    ensures
        match transition_of(
            id,
            lease@,
            opt_intent(current),
            mutation@,
            facts@,
            owner_active,
            now,
        ) {
            Ok(next) => r is Ok && opt_intent(r->Ok_0) == next,
            Err(error) => r is Err && r->Err_0@ == error,
        },
{
    if mutation.cleanup() {
        return clean_up(id, lease, current, &mutation, owner_active, now);
    }
    let base = match &mutation {
        Dns01Mutation::Create(intent) => create(id, &current, intent, facts, now),
        _ => match current {
            Some(intent) => Ok(intent),
            None => Err("DNS-01 intent does not exist".to_owned()),
        },
    };
    let intent = match base {
        Ok(intent) => intent,
        Err(error) => {
            return Err(error);
        },
    };
    if let Err(error) = check_issuer(id, lease, &intent, &facts.job_key) {
        return Err(error);
    }
    match issue(intent, mutation, facts, now) {
        Ok(next) => Ok(Some(next)),
        Err(error) => Err(error),
    }
}

// ---------------------------------------------------------------------------
// The journal
// ---------------------------------------------------------------------------

/// A row of the journal.
#[derive(Clone, Debug, PartialEq, Eq)]
pub struct Dns01Row {
    pub id: u128,
    pub intent: Dns01Intent,
}

/// What a [`Dns01Row`] says.
pub struct Dns01RowModel {
    pub id: u128,
    pub intent: Dns01IntentModel,
}

impl View for Dns01Row {
    type V = Dns01RowModel;

    open spec fn view(&self) -> Dns01RowModel {
        Dns01RowModel {
            id: self.id,
            intent: self.intent@,
        }
    }
}

impl Dns01Row {
    /// A copy of the value.
    pub fn duplicate(&self) -> (r: Self)
        ensures
            r@ == self@,
    {
        let r = Dns01Row {
            id: self.id,
            intent: self.intent.duplicate(),
        };
        r
    }
}

pub open spec fn row_models(v: Seq<Dns01Row>) -> Seq<Dns01RowModel> {
    v.map_values(|x: Dns01Row| x@)
}

pub open spec fn row_ids(s: Seq<Dns01RowModel>) -> Seq<u128> {
    s.map_values(|x: Dns01RowModel| x.id)
}

pub open spec fn find_intent(s: Seq<Dns01RowModel>, id: u128) -> Option<Dns01IntentModel> {
    let i = first_id(row_ids(s), id);
    if i < s.len() {
        Some(s[i].intent)
    } else {
        None
    }
}

/// The journal with a row written, or taken out.
pub open spec fn with_row(s: Seq<Dns01RowModel>, id: u128, next: Option<Dns01IntentModel>) -> Seq<
    Dns01RowModel,
> {
    let i = first_id(row_ids(s), id);
    match next {
        Some(intent) => if i < s.len() {
            s.update(i, Dns01RowModel { id, intent })
        } else {
            s.push(Dns01RowModel { id, intent })
        },
        None => if i < s.len() {
            s.remove(i)
        } else {
            s
        },
    }
}

/// Whether the issuer of a stored intent is at work.
pub open spec fn owner_at_work(
    current: Option<Dns01IntentModel>,
    jobs: Seq<JobLeaseModel>,
    t: LeasesModel,
    now: u64,
) -> bool {
    match current {
        Some(intent) => issuer_active(jobs, t, intent.job_key, intent.job_lease_id, now),
        None => false,
    }
}

/// What a mutation does to the journal.
pub open spec fn applied(
    s: Seq<Dns01RowModel>,
    jobs: Seq<JobLeaseModel>,
    t: LeasesModel,
    id: u128,
    lease: JobLeaseModel,
    m: MutationModel,
    facts: FactsModel,
    now: u64,
) -> Result<(Seq<Dns01RowModel>, Option<Dns01IntentModel>), Seq<char>> {
    let current = find_intent(s, id);
    if m is Create && s.len() >= MAX_INTENTS {
        Err("DNS-01 cleanup journal capacity reached"@)
    } else {
        match transition_of(
            id,
            lease,
            current,
            m,
            facts,
            owner_at_work(current, jobs, t, now),
            now as i64,
        ) {
            Ok(next) => Ok((with_row(s, id, next), next)),
            Err(error) => Err(error),
        }
    }
}

/// Whether an intent is to be cleaned up.
pub open spec fn is_due(
    r: Dns01RowModel,
    provider: Seq<char>,
    jobs: Seq<JobLeaseModel>,
    t: LeasesModel,
    now: u64,
) -> bool {
    r.intent.provider == provider && r.intent.next_cleanup <= now && (r.intent.cleanup_requested
        || !issuer_active(jobs, t, r.intent.job_key, r.intent.job_lease_id, now))
}

pub open spec fn row_before(a: Dns01RowModel, b: Dns01RowModel) -> bool {
    a.intent.next_cleanup < b.intent.next_cleanup || (a.intent.next_cleanup
        == b.intent.next_cleanup && a.id < b.id)
}

pub open spec fn row_position(s: Seq<Dns01RowModel>, r: Dns01RowModel) -> int
    decreases s.len(),
{
    if s.len() == 0 || row_before(r, s[0]) {
        0
    } else {
        1 + row_position(s.drop_first(), r)
    }
}

/// The due rows by the time of their cleanup, those of one time by their
/// identifiers.
pub open spec fn due_rows(
    s: Seq<Dns01RowModel>,
    provider: Seq<char>,
    jobs: Seq<JobLeaseModel>,
    t: LeasesModel,
    now: u64,
) -> Seq<Dns01RowModel>
    decreases s.len(),
{
    if s.len() == 0 {
        s
    } else {
        let rest = due_rows(s.drop_last(), provider, jobs, t, now);
        if is_due(s.last(), provider, jobs, t, now) {
            rest.insert(row_position(rest, s.last()), s.last())
        } else {
            rest
        }
    }
}

/// The first of the due intents. Those of issuers at work are left out before
/// the list is cut, so they do not starve the others.
pub open spec fn due_intents(
    s: Seq<Dns01RowModel>,
    provider: Seq<char>,
    jobs: Seq<JobLeaseModel>,
    t: LeasesModel,
    now: u64,
) -> Seq<Dns01IntentModel> {
    let rows = due_rows(s, provider, jobs, t, now);
    let cut = if rows.len() > DUE_LIMIT {
        rows.take(DUE_LIMIT as int)
    } else {
        rows
    };
    cut.map_values(|r: Dns01RowModel| r.intent)
}

/// The journal of intents.
#[derive(Debug)]
pub struct Dns01Journal {
    pub rows: Vec<Dns01Row>,
}

impl View for Dns01Journal {
    type V = Seq<Dns01RowModel>;

    open spec fn view(&self) -> Seq<Dns01RowModel> {
        row_models(self.rows@)
    }
}

impl Dns01Journal {
    /// An empty journal.
    pub fn open() -> (r: Self)
        ensures
            r@ == Seq::<Dns01RowModel>::empty(),
    {
        let r = Dns01Journal { rows: Vec::new() };
        assert(r@ =~= Seq::empty());
        r
    }

    fn index(&self, id: u128) -> (r: Option<usize>)
        ensures
            match r {
                Some(i) => i < self.rows@.len() && i == first_id(row_ids(self@), id),
                None => first_id(row_ids(self@), id) == self.rows@.len(),
            },
    {
        let ghost ids = row_ids(self@);
        assert(ids.len() == self.rows@.len());
        assert(forall|j: int| 0 <= j < ids.len() ==> ids[j] == self.rows@[j].id);
        let mut i: usize = 0;
        while i < self.rows.len()
            invariant
                i <= self.rows@.len(),
                ids == row_ids(self@),
                ids.len() == self.rows@.len(),
                forall|j: int| 0 <= j < ids.len() ==> ids[j] == self.rows@[j].id,
                forall|j: int| 0 <= j < i ==> ids[j] != id,
            decreases self.rows@.len() - i,
        {
            if self.rows[i].id == id {
                proof {
                    lemma_first_id_unique(ids, id, i as int);
                }
                return Some(i);
            }
            i = i + 1;
        }
        proof {
            lemma_first_id_unique(ids, id, ids.len() as int);
        }
        None
    }

    /// Applies a mutation to the intent of a row.
    pub fn apply(
        &mut self,
        jobs: &Vec<JobLease>,
        leases: &HaLeases,
        id: u128,
        lease: &JobLease,
        mutation: Dns01Mutation,
        facts: &Dns01Facts,
        now: u64,
    ) -> (r: Result<Option<Dns01Intent>, String>)
        requires
            now <= MAX_STORED,
        ensures
            match applied(
                old(self)@,
                job_models(jobs@),
                leases@,
                id,
                lease@,
                mutation@,
                facts@,
                now,
            ) {
                Ok((after, next)) => r is Ok && opt_intent(r->Ok_0) == next && final(self)@
                    == after,
                Err(error) => r is Err && r->Err_0@ == error && final(self)@ == old(self)@,
            },
    {
        let found = self.index(id);
        let current = match found {
            Some(i) => {
                assert(self@[i as int] == self.rows@[i as int]@);
                Some(self.rows[i].intent.duplicate())
            },
            None => None,
        };
        if let Dns01Mutation::Create(_) = &mutation {
            if self.rows.len() >= MAX_INTENTS {
                return Err("DNS-01 cleanup journal capacity reached".to_owned());
            }
        }
        let owner_active = match &current {
            Some(intent) => is_issuer_active(
                jobs,
                leases,
                intent.job_key.as_str(),
                intent.job_lease_id.as_str(),
                now,
            ),
            None => false,
        };
        match transition(id, lease, current, mutation, facts, owner_active, now as i64) {
            Err(error) => Err(error),
            Ok(next) => {
                let ghost before = self@;
                match &next {
                    Some(intent) => {
                        let row = Dns01Row { id, intent: intent.duplicate() };
                        let ghost rm = row@;
                        match found {
                            Some(i) => {
                                self.rows.set(i, row);
                                assert(self@ =~= before.update(i as int, rm));
                            },
                            None => {
                                self.rows.push(row);
                                assert(self@ =~= before.push(rm));
                            },
                        }
                    },
                    None => {
                        if let Some(i) = found {
                            self.rows.remove(i);
                            assert(self@ =~= before.remove(i as int));
                        }
                    },
                }
                Ok(next)
            },
        }
    }

    /// The intents of a provider that are to be cleaned up now.
    pub fn due(&self, jobs: &Vec<JobLease>, leases: &HaLeases, provider: &str, now: u64) -> (r: Vec<
        Dns01Intent,
    >)
        requires
            now <= MAX_STORED,
        ensures
            r@.map_values(|x: Dns01Intent| x@) == due_intents(
                self@,
                provider@,
                job_models(jobs@),
                leases@,
                now,
            ),
    {
        let ghost s = self@;
        let ghost jm = job_models(jobs@);
        let mut found: Vec<Dns01Row> = Vec::new();
        let mut i: usize = 0;
        assert(row_models(found@) =~= due_rows(s.take(0), provider@, jm, leases@, now));
        while i < self.rows.len()
            invariant
                i <= self.rows@.len(),
                s == self@,
                jm == job_models(jobs@),
                now <= MAX_STORED,
                row_models(found@) == due_rows(s.take(i as int), provider@, jm, leases@, now),
            decreases self.rows@.len() - i,
        {
            let row = &self.rows[i];
            assert(s.take(i + 1).drop_last() =~= s.take(i as int));
            assert(s.take(i + 1).last() == row@);
            if same_text(row.intent.provider.as_str(), provider) && row.intent.next_cleanup
                <= now as i64 && (row.intent.cleanup_requested || !is_issuer_active(
                jobs,
                leases,
                row.intent.job_key.as_str(),
                row.intent.job_lease_id.as_str(),
                now,
            )) {
                let ghost models = row_models(found@);
                let mut at: usize = 0;
                assert(models.skip(0) =~= models);
                while at < found.len() && !(row.intent.next_cleanup < found[at].intent.next_cleanup
                    || (row.intent.next_cleanup == found[at].intent.next_cleanup && row.id
                    < found[at].id))
                    invariant
                        at <= found@.len(),
                        models == row_models(found@),
                        row_position(models, row@) == at + row_position(
                            models.skip(at as int),
                            row@,
                        ),
                    decreases found@.len() - at,
                {
                    assert(models.skip(at as int)[0] == found@[at as int]@);
                    assert(models.skip(at as int).drop_first() =~= models.skip(at + 1));
                    at = at + 1;
                }
                proof {
                    if at < found@.len() {
                        assert(models.skip(at as int)[0] == found@[at as int]@);
                    }
                }
                let copy = row.duplicate();
                let ghost before = found@;
                found.insert(at, copy);
                assert(row_models(found@) =~= row_models(before).insert(at as int, row@));
            }
            i = i + 1;
        }
        assert(s.take(s.len() as int) =~= s);
        let mut out: Vec<Dns01Intent> = Vec::new();
        let mut k: usize = 0;
        while k < found.len() && k < DUE_LIMIT
            invariant
                k <= found@.len(),
                k <= DUE_LIMIT,
                out@.len() == k,
                forall|j: int| 0 <= j < k ==> (#[trigger] out@[j])@ == found@[j].intent@,
            decreases found@.len() - k,
        {
            out.push(found[k].intent.duplicate());
            k = k + 1;
        }
        assert(out@.map_values(|x: Dns01Intent| x@) =~= due_intents(
            s,
            provider@,
            jm,
            leases@,
            now,
        ));
        out
    }
}

// ---------------------------------------------------------------------------
// Laws
// ---------------------------------------------------------------------------

/// Cleanup does not interrupt an issuer at work, unless the issuer asked for
/// it.
pub proof fn law_active_issuers_are_not_interrupted(
    id: u128,
    lease: JobLeaseModel,
    intent: Dns01IntentModel,
    m: MutationModel,
    facts: FactsModel,
    now: i64,
)
    requires
        cleans_up(m),
        !intent.cleanup_requested,
    ensures
        transition_of(id, lease, Some(intent), m, facts, true, now) is Err,
{
}

/// An intent is only forgotten once its record was seen or its creation was
/// refused.
pub proof fn law_unknown_creations_are_kept(
    id: u128,
    lease: JobLeaseModel,
    intent: Dns01IntentModel,
    m: MutationModel,
    facts: FactsModel,
    owner_active: bool,
    now: i64,
)
    requires
        transition_of(id, lease, Some(intent), m, facts, owner_active, now) == Ok::<
            Option<Dns01IntentModel>,
            Seq<char>,
        >(None),
    ensures
        m is CompleteCleanup,
        intent.creation_observed || intent.creation_rejected,
        intent.cleanup_requested || !owner_active,
{
}

/// Once cleanup was asked for it is not called off, and nothing more is
/// published.
pub proof fn law_cleanup_is_not_called_off(
    id: u128,
    lease: JobLeaseModel,
    intent: Dns01IntentModel,
    m: MutationModel,
    facts: FactsModel,
    owner_active: bool,
    now: i64,
)
    requires
        intent.cleanup_requested,
        transition_of(id, lease, Some(intent), m, facts, owner_active, now) is Ok,
        transition_of(id, lease, Some(intent), m, facts, owner_active, now)->Ok_0 is Some,
    ensures
        ({
            let next = transition_of(id, lease, Some(intent), m, facts, owner_active, now)->Ok_0->0;
            &&& next.cleanup_requested
            &&& next.record_id == intent.record_id
            &&& intent.creation_observed ==> next.creation_observed
            &&& !(m is Published)
        }),
{
}

/// A step never changes which record an intent is about.
pub proof fn law_steps_keep_the_challenge(
    id: u128,
    lease: JobLeaseModel,
    intent: Dns01IntentModel,
    m: MutationModel,
    facts: FactsModel,
    owner_active: bool,
    now: i64,
)
    requires
        transition_of(id, lease, Some(intent), m, facts, owner_active, now) is Ok,
        transition_of(id, lease, Some(intent), m, facts, owner_active, now)->Ok_0 is Some,
    ensures
        ({
            let next = transition_of(id, lease, Some(intent), m, facts, owner_active, now)->Ok_0->0;
            &&& next.id == intent.id
            &&& next.identifier == intent.identifier
            &&& next.provider == intent.provider
            &&& next.zone_id == intent.zone_id
            &&& next.record_name == intent.record_name
            &&& next.value == intent.value
            &&& next.job_key == intent.job_key
            &&& next.job_lease_id == intent.job_lease_id
        }),
{
}

/// A mutation only touches the row it names, and the journal stays within its
/// capacity.
pub proof fn law_mutations_are_confined(
    s: Seq<Dns01RowModel>,
    jobs: Seq<JobLeaseModel>,
    t: LeasesModel,
    id: u128,
    lease: JobLeaseModel,
    m: MutationModel,
    facts: FactsModel,
    now: u64,
    other: u128,
)
    requires
        s.len() <= MAX_INTENTS,
        row_ids(s).no_duplicates(),
        other != id,
        applied(s, jobs, t, id, lease, m, facts, now) is Ok,
    ensures
        ({
            let after = applied(s, jobs, t, id, lease, m, facts, now)->Ok_0.0;
            &&& after.len() <= MAX_INTENTS
            &&& row_ids(after).no_duplicates()
            &&& find_intent(after, other) == find_intent(s, other)
            &&& find_intent(after, id) == applied(s, jobs, t, id, lease, m, facts, now)->Ok_0.1
        }),
{
    let next = applied(s, jobs, t, id, lease, m, facts, now)->Ok_0.1;
    let after = with_row(s, id, next);
    let ids = row_ids(s);
    let new_ids = row_ids(after);
    lemma_first_id(ids, id);
    lemma_first_id(ids, other);
    let i = first_id(ids, id);
    let k = first_id(ids, other);
    match next {
        Some(intent) => {
            if i < s.len() {
                assert(new_ids =~= ids);
            } else {
                assert(new_ids =~= ids.push(id));
                assert forall|j: int| 0 <= j < s.len() implies new_ids[j] != id by {
                    assert(ids[j] != id);
                }
                lemma_first_id_unique(new_ids, id, s.len() as int);
                if k < s.len() {
                    assert forall|j: int| 0 <= j < k implies new_ids[j] != other by {
                        assert(ids[j] != other);
                    }
                    lemma_first_id_unique(new_ids, other, k);
                } else {
                    lemma_first_id_unique(new_ids, other, new_ids.len() as int);
                }
            }
        },
        None => {
            if i < s.len() {
                assert(new_ids =~= ids.remove(i));
                assert forall|a: int, b: int|
                    0 <= a < new_ids.len() && 0 <= b < new_ids.len() && a != b implies new_ids[a]
                    != new_ids[b] by {
                    let x = if a < i {
                        a
                    } else {
                        a + 1
                    };
                    let y = if b < i {
                        b
                    } else {
                        b + 1
                    };
                    assert(ids[x] != ids[y]);
                }
                assert forall|j: int| 0 <= j < new_ids.len() implies new_ids[j] != id by {
                    let x = if j < i {
                        j
                    } else {
                        j + 1
                    };
                    assert(ids[x] != ids[i]);
                }
                lemma_first_id_unique(new_ids, id, new_ids.len() as int);
                if k < s.len() {
                    let p = if k < i {
                        k
                    } else {
                        k - 1
                    };
                    assert(new_ids[p] == other);
                    assert forall|j: int| 0 <= j < p implies new_ids[j] != other by {
                        let x = if j < i {
                            j
                        } else {
                            j + 1
                        };
                        assert(ids[x] != ids[k]);
                    }
                    lemma_first_id_unique(new_ids, other, p);
                    assert(after[p] == s[k]);
                } else {
                    assert forall|j: int| 0 <= j < new_ids.len() implies new_ids[j] != other by {
                        let x = if j < i {
                            j
                        } else {
                            j + 1
                        };
                        assert(ids[x] != other);
                    }
                    lemma_first_id_unique(new_ids, other, new_ids.len() as int);
                }
            }
        },
    }
}

/// What is due belongs to the provider, and no issuer at work is disturbed.
pub proof fn law_due_intents_may_be_cleaned(
    s: Seq<Dns01RowModel>,
    provider: Seq<char>,
    jobs: Seq<JobLeaseModel>,
    t: LeasesModel,
    now: u64,
)
    ensures
        due_intents(s, provider, jobs, t, now).len() <= DUE_LIMIT,
        forall|i: int|
            0 <= i < due_rows(s, provider, jobs, t, now).len() ==> is_due(
                #[trigger] due_rows(s, provider, jobs, t, now)[i],
                provider,
                jobs,
                t,
                now,
            ),
        forall|i: int, j: int|
            0 <= i < j < due_rows(s, provider, jobs, t, now).len() ==> !row_before(
                #[trigger] due_rows(s, provider, jobs, t, now)[j],
                #[trigger] due_rows(s, provider, jobs, t, now)[i],
            ),
    decreases s.len(),
{
    if s.len() > 0 {
        law_due_intents_may_be_cleaned(s.drop_last(), provider, jobs, t, now);
        let rest = due_rows(s.drop_last(), provider, jobs, t, now);
        let all = due_rows(s, provider, jobs, t, now);
        if is_due(s.last(), provider, jobs, t, now) {
            let p = row_position(rest, s.last());
            lemma_row_position(rest, s.last());
            assert forall|i: int| 0 <= i < all.len() implies is_due(
                #[trigger] all[i],
                provider,
                jobs,
                t,
                now,
            ) by {
                if i < p {
                    assert(all[i] == rest[i]);
                } else if i > p {
                    assert(all[i] == rest[i - 1]);
                }
            }
            assert forall|i: int, j: int| 0 <= i < j < all.len() implies !row_before(
                #[trigger] all[j],
                #[trigger] all[i],
            ) by {
                if j < p {
                    assert(all[i] == rest[i] && all[j] == rest[j]);
                } else if j == p {
                    assert(all[i] == rest[i]);
                    assert(!row_before(s.last(), rest[i]));
                } else {
                    assert(all[j] == rest[j - 1]);
                    if i < p {
                        assert(all[i] == rest[i]);
                    } else if i > p {
                        assert(all[i] == rest[i - 1]);
                    } else {
                        assert(row_before(s.last(), rest[p]));
                        if j - 1 > p {
                            assert(!row_before(rest[j - 1], rest[p]));
                        }
                    }
                }
            }
        }
    }
}

proof fn lemma_row_position(s: Seq<Dns01RowModel>, r: Dns01RowModel)
    ensures
        0 <= row_position(s, r) <= s.len(),
        forall|j: int| 0 <= j < row_position(s, r) ==> !row_before(r, #[trigger] s[j]),
        row_position(s, r) < s.len() ==> row_before(r, s[row_position(s, r)]),
    decreases s.len(),
{
    if s.len() > 0 && !row_before(r, s[0]) {
        let t = s.drop_first();
        lemma_row_position(t, r);
        assert forall|j: int| 0 <= j < row_position(s, r) implies !row_before(
            r,
            #[trigger] s[j],
        ) by {
            if j > 0 {
                assert(t[j - 1] == s[j]);
            }
        }
        if row_position(s, r) < s.len() {
            assert(s[row_position(s, r)] == t[row_position(t, r)]);
        }
    }
}

/// An intent is cleaned up only by its own cleanup job, and only once that was asked
/// for or its issuer is gone. It is dropped only if it is known whether the record was
/// created; otherwise it is kept and tried again a minute later.
pub proof fn law_cleanup_follows_the_issuance(
    id: u128,
    lease: JobLeaseModel,
    current: Option<Dns01IntentModel>,
    m: MutationModel,
    facts: FactsModel,
    owner_active: bool,
    now: i64,
)
    requires
        m is AuthorizeCleanup || m is ObservedCreation || m is RetryCleanup || m is CompleteCleanup,
    ensures
        ({
            let r = transition_of(id, lease, current, m, facts, owner_active, now);
            let own = lease.job_kind == "dns01_cleanup"@ && lease.job_key == "dns01_cleanup:"@
                + hyphenated(id);
            let i = current->0;
            let open = i.id == id && (i.cleanup_requested || !owner_active);
            let settled = i.creation_observed || i.creation_rejected;
            &&& !own ==> r is Err && r->Err_0 == "DNS-01 cleanup job does not match intent"@
            &&& own && current is None ==> r is Ok && r->Ok_0 is None
            &&& own && current is Some && !open ==> r is Err && r->Err_0
                == "DNS-01 issuance is still active; refusing cleanup"@
            &&& own && current is Some && open && m is CompleteCleanup && settled ==> r is Ok
                && r->Ok_0 is None
            &&& own && current is Some && open && m is CompleteCleanup && !settled ==> r is Err
                && r->Err_0 == "DNS-01 creation is unresolved; retain the cleanup intent"@
            &&& own && current is Some && open && !(m is CompleteCleanup) ==> {
                let n = r->Ok_0->0;
                &&& r is Ok && r->Ok_0 is Some
                &&& n.cleanup_requested
                &&& n.creation_observed <==> i.creation_observed || m is ObservedCreation
                &&& now + 60 <= i64::MAX ==> n.next_cleanup == now + 60
                &&& n == (Dns01IntentModel {
                    cleanup_requested: n.cleanup_requested,
                    creation_observed: n.creation_observed,
                    next_cleanup: n.next_cleanup,
                    ..i
                })
            }
        }),
{
}

/// The value of a challenge has 43 characters, each a letter, a digit, a hyphen or an
/// underscore.
pub proof fn law_challenge_values_have_one_shape(s: Seq<char>)
    ensures
        challenge_value(s) <==> s.len() == 43 && forall|i: int|
            0 <= i < s.len() ==> 'a' <= (#[trigger] s[i]) <= 'z' || 'A' <= s[i] <= 'Z' || '0'
                <= s[i] <= '9' || s[i] == '-' || s[i] == '_',
{
    if challenge_value(s) {
        assert forall|i: int| 0 <= i < s.len() implies 'a' <= (#[trigger] s[i]) <= 'z' || 'A'
            <= s[i] <= 'Z' || '0' <= s[i] <= '9' || s[i] == '-' || s[i] == '_' by {
            assert(value_char(s[i]));
        }
    } else if s.len() == 43 {
        let i = choose|i: int| 0 <= i < s.len() && !value_char(#[trigger] s[i]);
        assert(!value_char(s[i]));
    }
}

/// The record of a challenge stands under the domain of its identifier, whether that is
/// a wildcard or not.
pub proof fn law_challenges_stand_under_their_domain(domain: Seq<char>)
    ensures
        challenge_name("*."@ + domain) == "_acme-challenge."@ + domain,
        !(domain.len() >= 2 && domain[0] == '*' && domain[1] == '.') ==> challenge_name(domain)
            == "_acme-challenge."@ + domain,
{
    reveal_strlit("*.");
    let w = "*."@ + domain;
    assert(w.take(2) =~= "*."@);
    assert(starts_with(w, "*."@));
    assert(w.skip(2) =~= domain);
    if starts_with(domain, "*."@) {
        assert(domain.take(2) == "*."@);
        assert(domain.take(2)[0] == '*' && domain.take(2)[1] == '.');
    }
}

/// An intent is created exactly if there is none yet, it is fresh, its record stands
/// under its identifier, the zone is sound, and its context is bounded. It is first
/// looked at half a minute later.
pub proof fn law_intents_are_created_fresh(
    id: u128,
    current: Option<Dns01IntentModel>,
    intent: Dns01IntentModel,
    facts: FactsModel,
    now: i64,
)
    ensures
        ({
            let r = created(id, current, intent, facts, now);
            let fresh = current is None && intent.id == id && intent.record_id is None
                && !intent.cleanup_requested && !intent.creation_observed
                && !intent.creation_rejected;
            let named = facts.identifier is Ok && facts.identifier->Ok_0 == intent.identifier
                && intent.record_name == challenge_name(intent.identifier) && utf8_len(
                intent.record_name,
            ) <= 253;
            let bounded = utf8_len(intent.provider) <= 4096 && challenge_value(intent.value);
            &&& r is Ok <==> fresh && named && facts.zone is Ok && bounded
            &&& !fresh ==> r->Err_0 == "DNS-01 intent already exists or is invalid"@
            &&& fresh && facts.identifier is Err ==> r->Err_0 == facts.identifier->Err_0
            &&& fresh && facts.identifier is Ok && !named ==> r->Err_0
                == "DNS-01 intent domain does not match certificate identifier"@
            &&& fresh && named && facts.zone is Err ==> r->Err_0 == facts.zone->Err_0
            &&& fresh && named && facts.zone is Ok && !bounded ==> r->Err_0
                == "DNS-01 publication context is invalid"@
            &&& r is Ok ==> r->Ok_0 == (Dns01IntentModel {
                next_cleanup: r->Ok_0.next_cleanup,
                ..intent
            })
            &&& r is Ok && now + 30 <= i64::MAX ==> r->Ok_0.next_cleanup == now + 30
        }),
{
}

/// What an intent becomes is decided only for the job that issues its certificate: the
/// job of that kind, key and lease that the intent names.
pub proof fn law_intents_belong_to_their_job(
    id: u128,
    lease: JobLeaseModel,
    intent: Dns01IntentModel,
    job_key: Result<Seq<char>, Seq<char>>,
)
    ensures
        issuing_error(id, lease, intent, job_key) is None <==> {
            &&& lease.job_kind == "certificate"@
            &&& job_key is Ok && lease.job_key == job_key->Ok_0
            &&& intent.job_key == lease.job_key
            &&& intent.job_lease_id == hyphenated(lease.lease_id)
            &&& intent.id == id
        },
        lease.job_kind != "certificate"@ ==> issuing_error(id, lease, intent, job_key) == Some(
            "DNS-01 intent does not match issuing job"@,
        ),
{
}

/// A publication is recorded unless cleanup was asked for or another record is known. A
/// rejection is recorded unless the record was seen. Either way, and when cleanup is
/// asked for, nothing else of the intent changes.
pub proof fn law_publications_are_recorded(
    intent: Dns01IntentModel,
    m: MutationModel,
    facts: FactsModel,
    now: i64,
)
    ensures
        ({
            let r = issued(intent, m, facts, now);
            &&& m is Published ==> {
                let record = m->Published_0;
                let current = !intent.cleanup_requested && (intent.record_id is None
                    || intent.record_id->0 == record);
                &&& r is Ok <==> facts.record is Ok && current
                &&& facts.record is Err ==> r->Err_0 == facts.record->Err_0
                &&& facts.record is Ok && !current ==> r->Err_0
                    == "DNS-01 publication is no longer current"@
                &&& r is Ok ==> r->Ok_0 == (Dns01IntentModel {
                    record_id: Some(record),
                    creation_observed: true,
                    ..intent
                })
            }
            &&& m is Rejected ==> {
                &&& r is Ok <==> !intent.creation_observed
                &&& r is Err ==> r->Err_0 == "DNS-01 creation was already observed"@
                &&& r is Ok ==> r->Ok_0 == (Dns01IntentModel {
                    creation_rejected: true,
                    cleanup_requested: true,
                    next_cleanup: now,
                    ..intent
                })
            }
            &&& m is RequestCleanup ==> r is Ok && r->Ok_0 == (Dns01IntentModel {
                cleanup_requested: true,
                next_cleanup: now,
                ..intent
            })
            &&& m is Create ==> r is Ok && r->Ok_0 == intent
        }),
{
}

/// A step of the issuance goes through creation, the check of the job and the change,
/// and fails with the first of them.
pub proof fn law_issuing_steps_are_checked(
    id: u128,
    lease: JobLeaseModel,
    current: Option<Dns01IntentModel>,
    m: MutationModel,
    facts: FactsModel,
    owner_active: bool,
    now: i64,
)
    requires
        m is Create || m is Published || m is Rejected || m is RequestCleanup,
    ensures
        ({
            let r = transition_of(id, lease, current, m, facts, owner_active, now);
            let fresh = created(id, current, m->Create_0, facts, now);
            let i = if m is Create {
                fresh->Ok_0
            } else {
                current->0
            };
            let there = if m is Create {
                fresh is Ok
            } else {
                current is Some
            };
            &&& r is Ok <==> there && issuing_error(id, lease, i, facts.job_key) is None && issued(
                i,
                m,
                facts,
                now,
            ) is Ok
            &&& r is Ok ==> r->Ok_0 == Some(issued(i, m, facts, now)->Ok_0)
            &&& !there && !(m is Create) ==> r->Err_0 == "DNS-01 intent does not exist"@
        }),
{
}

/// The journal holds at most 4096 intents; beyond that none is created.
pub proof fn law_the_journal_is_bounded(
    s: Seq<Dns01RowModel>,
    jobs: Seq<JobLeaseModel>,
    t: LeasesModel,
    id: u128,
    lease: JobLeaseModel,
    m: MutationModel,
    facts: FactsModel,
    now: u64,
)
    ensures
        ({
            let r = applied(s, jobs, t, id, lease, m, facts, now);
            let current = find_intent(s, id);
            let active = current is Some && issuer_active(
                jobs,
                t,
                current->0.job_key,
                current->0.job_lease_id,
                now,
            );
            let step = transition_of(id, lease, current, m, facts, active, now as i64);
            &&& m is Create && s.len() >= 4096 ==> r is Err && r->Err_0
                == "DNS-01 cleanup journal capacity reached"@
            &&& !(m is Create && s.len() >= 4096) ==> {
                &&& r is Ok <==> step is Ok
                &&& r is Ok ==> r->Ok_0.1 == step->Ok_0
                &&& r is Err ==> r->Err_0 == step->Err_0
            }
        }),
{
}

/// An intent is due exactly if it is of the provider, its time has come, and its
/// cleanup was asked for or its issuer is gone.
#[verifier::spinoff_prover]
#[verifier::rlimit(60)]
pub proof fn law_intents_are_due_when_their_time_has_come(
    s: Seq<Dns01RowModel>,
    provider: Seq<char>,
    jobs: Seq<JobLeaseModel>,
    t: LeasesModel,
    now: u64,
    x: Dns01RowModel,
)
    ensures
        due_rows(s, provider, jobs, t, now).contains(x) <==> s.contains(x) && x.intent.provider
            == provider && x.intent.next_cleanup <= now && (x.intent.cleanup_requested
            || !issuer_active(jobs, t, x.intent.job_key, x.intent.job_lease_id, now)),
    decreases s.len(),
{
    let r = due_rows(s, provider, jobs, t, now);
    if s.len() > 0 {
        let b = s.drop_last();
        let rest = due_rows(b, provider, jobs, t, now);
        let last = s.last();
        law_intents_are_due_when_their_time_has_come(b, provider, jobs, t, now, x);
        assert(s.contains(x) <==> b.contains(x) || x == last) by {
            if s.contains(x) {
                let i = choose|i: int| 0 <= i < s.len() && s[i] == x;
                if i < b.len() {
                    assert(b[i] == x);
                }
            }
            if b.contains(x) {
                let i = choose|i: int| 0 <= i < b.len() && b[i] == x;
                assert(s[i] == x);
            }
            if x == last {
                assert(s[s.len() - 1] == x);
            }
        }
        if is_due(last, provider, jobs, t, now) {
            let p = row_position(rest, last);
            lemma_row_place(rest, last);
            assert(r[p] == last);
            assert(r.contains(x) <==> rest.contains(x) || x == last) by {
                if r.contains(x) && x != last {
                    let i = choose|i: int| 0 <= i < r.len() && r[i] == x;
                    if i < p {
                        assert(rest[i] == x);
                    } else {
                        assert(rest[i - 1] == x);
                    }
                }
                if rest.contains(x) {
                    let i = choose|i: int| 0 <= i < rest.len() && rest[i] == x;
                    if i < p {
                        assert(r[i] == x);
                    } else {
                        assert(r[i + 1] == x);
                    }
                }
            }
        }
    }
}

proof fn lemma_row_place(s: Seq<Dns01RowModel>, r: Dns01RowModel)
    ensures
        0 <= row_position(s, r) <= s.len(),
    decreases s.len(),
{
    if s.len() > 0 && !row_before(r, s[0]) {
        lemma_row_place(s.drop_first(), r);
    }
}

/// The due intents come in the order of their time, those of one time by identifier, and
/// no more than 32 of them.
pub proof fn law_due_intents_come_in_the_order_of_their_time(
    s: Seq<Dns01RowModel>,
    provider: Seq<char>,
    jobs: Seq<JobLeaseModel>,
    t: LeasesModel,
    now: u64,
    i: int,
    j: int,
)
    requires
        0 <= i < j < due_rows(s, provider, jobs, t, now).len(),
    ensures
        ({
            let rows = due_rows(s, provider, jobs, t, now);
            let due = due_intents(s, provider, jobs, t, now);
            &&& rows[i].intent.next_cleanup <= rows[j].intent.next_cleanup
            &&& rows[i].intent.next_cleanup == rows[j].intent.next_cleanup ==> rows[i].id
                <= rows[j].id
            &&& rows.len() <= 32 ==> due.len() == rows.len()
            &&& rows.len() > 32 ==> due.len() == 32
            &&& i < due.len() ==> due[i] == rows[i].intent
        }),
{
    law_due_intents_may_be_cleaned(s, provider, jobs, t, now);
    let rows = due_rows(s, provider, jobs, t, now);
    assert(!row_before(rows[j], rows[i]));
}

} // verus!
