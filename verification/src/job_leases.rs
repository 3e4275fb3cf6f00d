//! Leases of background jobs.

use crate::ha_coordination::{HaLeases, LeasesModel, member_active};
use crate::text::{copy_optional, opt_view, same_text};
use crate::uuids::{hyphenated, uuid_text};
use vstd::prelude::*;
use vstd::string::*;

verus! {

/// The right of a process to run a job.
#[derive(Clone, Debug, PartialEq, Eq)]
pub struct JobLease {
    pub job_key: String,
    pub job_kind: String,
    pub lease_id: u128,
    pub owner_instance_id: String,
    pub owner_incarnation_id: String,
    pub fencing_token: u64,
    pub acquired_unix_seconds: u64,
    pub renewed_unix_seconds: u64,
    pub lease_until_unix_seconds: u64,
    pub last_completed_unix_seconds: Option<u64>,
    pub last_error_code: Option<String>,
}

/// What a [`JobLease`] says.
pub struct JobLeaseModel {
    pub job_key: Seq<char>,
    pub job_kind: Seq<char>,
    pub lease_id: u128,
    pub owner_instance_id: Seq<char>,
    pub owner_incarnation_id: Seq<char>,
    pub fencing_token: u64,
    pub acquired_unix_seconds: u64,
    pub renewed_unix_seconds: u64,
    pub lease_until_unix_seconds: u64,
    pub last_completed_unix_seconds: Option<u64>,
    pub last_error_code: Option<Seq<char>>,
}

impl View for JobLease {
    type V = JobLeaseModel;

    open spec fn view(&self) -> JobLeaseModel {
        JobLeaseModel {
            job_key: self.job_key@,
            job_kind: self.job_kind@,
            lease_id: self.lease_id,
            owner_instance_id: self.owner_instance_id@,
            owner_incarnation_id: self.owner_incarnation_id@,
            fencing_token: self.fencing_token,
            acquired_unix_seconds: self.acquired_unix_seconds,
            renewed_unix_seconds: self.renewed_unix_seconds,
            lease_until_unix_seconds: self.lease_until_unix_seconds,
            last_completed_unix_seconds: self.last_completed_unix_seconds,
            last_error_code: opt_view(self.last_error_code),
        }
    }
}

impl JobLease {
    /// A copy of the value.
    pub fn duplicate(&self) -> (r: Self)
        ensures
            r@ == self@,
    {
        let r = JobLease {
            job_key: self.job_key.clone(),
            job_kind: self.job_kind.clone(),
            lease_id: self.lease_id,
            owner_instance_id: self.owner_instance_id.clone(),
            owner_incarnation_id: self.owner_incarnation_id.clone(),
            fencing_token: self.fencing_token,
            acquired_unix_seconds: self.acquired_unix_seconds,
            renewed_unix_seconds: self.renewed_unix_seconds,
            lease_until_unix_seconds: self.lease_until_unix_seconds,
            last_completed_unix_seconds: self.last_completed_unix_seconds,
            last_error_code: copy_optional(&self.last_error_code),
        };
        r
    }
}

pub open spec fn job_models(v: Seq<JobLease>) -> Seq<JobLeaseModel> {
    v.map_values(|x: JobLease| x@)
}

/// Whether a job is the certificate job of a lease, held by the leader while
/// job, leadership and membership leases all run.
pub open spec fn issues_certificate(
    job: JobLeaseModel,
    t: LeasesModel,
    job_key: Seq<char>,
    lease_id: Seq<char>,
    now: u64,
) -> bool {
    &&& job.job_key == job_key
    &&& hyphenated(job.lease_id) == lease_id
    &&& job.job_kind == "certificate"@
    &&& job.lease_until_unix_seconds > now
    &&& t.leader is Some
    &&& t.leader->0.instance_id == job.owner_instance_id
    &&& t.leader->0.incarnation_id == job.owner_incarnation_id
    &&& t.leader->0.fencing_token == job.fencing_token
    &&& t.leader->0.lease_until_unix_seconds > now
    &&& member_active(t.members, job.owner_instance_id, job.owner_incarnation_id, now)
}

pub open spec fn issuer_active(
    jobs: Seq<JobLeaseModel>,
    t: LeasesModel,
    job_key: Seq<char>,
    lease_id: Seq<char>,
    now: u64,
) -> bool {
    exists|i: int|
        0 <= i < jobs.len() && issues_certificate(#[trigger] jobs[i], t, job_key, lease_id, now)
}

fn is_issuing(job: &JobLease, leases: &HaLeases, job_key: &str, lease_id: &str, now: u64) -> (r:
    bool)
    ensures
        r == issues_certificate(job@, leases@, job_key@, lease_id@, now),
{
    if !same_text(job.job_key.as_str(), job_key) || !same_text(job.job_kind.as_str(), "certificate")
        || job.lease_until_unix_seconds <= now {
        return false;
    }
    let id = uuid_text(job.lease_id);
    if !same_text(id.as_str(), lease_id) {
        return false;
    }
    match &leases.leader {
        None => false,
        Some(l) => l.instance_id == job.owner_instance_id && l.incarnation_id
            == job.owner_incarnation_id && l.fencing_token == job.fencing_token
            && l.lease_until_unix_seconds > now && leases.member_is_active(
            job.owner_instance_id.as_str(),
            job.owner_incarnation_id.as_str(),
            now,
        ),
    }
}

/// Whether the process that holds a certificate job is still at work.
pub fn is_issuer_active(
    jobs: &Vec<JobLease>,
    leases: &HaLeases,
    job_key: &str,
    lease_id: &str,
    now: u64,
) -> (r: bool)
    ensures
        r == issuer_active(job_models(jobs@), leases@, job_key@, lease_id@, now),
{
    let ghost s = job_models(jobs@);
    let mut i: usize = 0;
    while i < jobs.len()
        invariant
            i <= jobs@.len(),
            s == job_models(jobs@),
            forall|j: int|
                0 <= j < i ==> !issues_certificate(
                    #[trigger] s[j],
                    leases@,
                    job_key@,
                    lease_id@,
                    now,
                ),
        decreases jobs@.len() - i,
    {
        assert(s[i as int] == jobs@[i as int]@);
        if is_issuing(&jobs[i], leases, job_key, lease_id, now) {
            return true;
        }
        i = i + 1;
    }
    false
}

/// The jobs without a running lease; all else is as it was.
pub open spec fn ended_jobs(s: Seq<JobLeaseModel>) -> Seq<JobLeaseModel> {
    s.map_values(|job: JobLeaseModel| JobLeaseModel { lease_until_unix_seconds: 0, ..job })
}

/// Ends the job leases that an earlier process of a single instance left behind,
/// if the process may.
pub fn end_job_leases(jobs: &mut Vec<JobLease>, claimed: bool)
    ensures
        job_models(final(jobs)@) == if claimed {
            ended_jobs(job_models(old(jobs)@))
        } else {
            job_models(old(jobs)@)
        },
{
    if !claimed {
        return;
    }
    let ghost s = job_models(jobs@);
    let mut i: usize = 0;
    while i < jobs.len()
        invariant
            i <= jobs@.len(),
            jobs@.len() == s.len(),
            forall|j: int|
                0 <= j < i ==> (#[trigger] jobs@[j])@ == (JobLeaseModel {
                    lease_until_unix_seconds: 0,
                    ..s[j]
                }),
            forall|j: int| i <= j < s.len() ==> (#[trigger] jobs@[j])@ == s[j],
        decreases jobs@.len() - i,
    {
        let mut job = jobs[i].duplicate();
        job.lease_until_unix_seconds = 0;
        jobs.set(i, job);
        i = i + 1;
    }
    assert(job_models(jobs@) =~= ended_jobs(s));
}

/// Once its lease was ended no earlier issuer counts as active.
pub proof fn law_ended_jobs_have_no_active_issuer(
    jobs: Seq<JobLeaseModel>,
    t: LeasesModel,
    job_key: Seq<char>,
    lease_id: Seq<char>,
    now: u64,
)
    ensures
        !issuer_active(ended_jobs(jobs), t, job_key, lease_id, now),
{
}

/// A job issues certificates exactly if a certificate job of that key and lease still
/// runs, and its owner leads under the token of the job, with a lease that runs, and
/// is an active member.
pub proof fn law_issuers_lead_and_hold_the_job(
    jobs: Seq<JobLeaseModel>,
    t: LeasesModel,
    job_key: Seq<char>,
    lease_id: Seq<char>,
    now: u64,
)
    ensures
        issuer_active(jobs, t, job_key, lease_id, now) <==> t.leader is Some && exists|i: int|
            0 <= i < jobs.len() && (#[trigger] jobs[i]).job_key == job_key && hyphenated(
                jobs[i].lease_id,
            ) == lease_id && jobs[i].job_kind == "certificate"@
                && jobs[i].lease_until_unix_seconds > now && jobs[i].owner_instance_id
                == t.leader->0.instance_id && jobs[i].owner_incarnation_id
                == t.leader->0.incarnation_id && jobs[i].fencing_token
                == t.leader->0.fencing_token && t.leader->0.lease_until_unix_seconds > now
                && member_active(
                t.members,
                t.leader->0.instance_id,
                t.leader->0.incarnation_id,
                now,
            ),
{
    if issuer_active(jobs, t, job_key, lease_id, now) {
        let i = choose|i: int|
            0 <= i < jobs.len() && issues_certificate(#[trigger] jobs[i], t, job_key, lease_id, now);
        assert(jobs[i].job_key == job_key);
    }
    if t.leader is Some && exists|i: int|
        0 <= i < jobs.len() && (#[trigger] jobs[i]).job_key == job_key && hyphenated(
            jobs[i].lease_id,
        ) == lease_id && jobs[i].job_kind == "certificate"@ && jobs[i].lease_until_unix_seconds
            > now && jobs[i].owner_instance_id == t.leader->0.instance_id
            && jobs[i].owner_incarnation_id == t.leader->0.incarnation_id && jobs[i].fencing_token
            == t.leader->0.fencing_token && t.leader->0.lease_until_unix_seconds > now
            && member_active(
            t.members,
            t.leader->0.instance_id,
            t.leader->0.incarnation_id,
            now,
        ) {
        let i = choose|i: int|
            0 <= i < jobs.len() && (#[trigger] jobs[i]).job_key == job_key && hyphenated(
                jobs[i].lease_id,
            ) == lease_id && jobs[i].job_kind == "certificate"@
                && jobs[i].lease_until_unix_seconds > now && jobs[i].owner_instance_id
                == t.leader->0.instance_id && jobs[i].owner_incarnation_id
                == t.leader->0.incarnation_id && jobs[i].fencing_token
                == t.leader->0.fencing_token && t.leader->0.lease_until_unix_seconds > now
                && member_active(
                t.members,
                t.leader->0.instance_id,
                t.leader->0.incarnation_id,
                now,
            );
        assert(issues_certificate(jobs[i], t, job_key, lease_id, now));
    }
}

/// Recovery ends the lease of every job and changes nothing else of it.
pub proof fn law_recovery_ends_every_job(jobs: Seq<JobLeaseModel>, i: int)
    ensures
        ended_jobs(jobs).len() == jobs.len(),
        0 <= i < jobs.len() ==> ended_jobs(jobs)[i] == (JobLeaseModel {
            lease_until_unix_seconds: 0,
            ..jobs[i]
        }),
{
}

} // verus!
