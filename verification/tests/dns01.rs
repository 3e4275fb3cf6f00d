use linklake_server::dns01::{transition, Dns01Facts, Dns01Intent, Dns01Journal, Dns01Mutation};
use linklake_server::ha_coordination::{HaCoordinator, HaLeases};
use linklake_server::job_leases::{is_issuer_active, JobLease};

const ID: u128 = 0xaaaa;
const KEY: &str = "certificate:site.example.com";

fn lease(kind: &str, key: &str, lease_id: u128) -> JobLease {
    JobLease {
        job_key: key.to_owned(),
        job_kind: kind.to_owned(),
        lease_id,
        owner_instance_id: "test".to_owned(),
        owner_incarnation_id: "session".to_owned(),
        fencing_token: 1,
        acquired_unix_seconds: 10,
        renewed_unix_seconds: 10,
        lease_until_unix_seconds: 40,
        last_completed_unix_seconds: None,
        last_error_code: None,
    }
}

fn facts() -> Dns01Facts {
    Dns01Facts {
        identifier: Ok("site.example.com".to_owned()),
        job_key: Ok(KEY.to_owned()),
        zone: Ok(()),
        record: Ok(()),
    }
}

fn wanted(issuer: &JobLease) -> Dns01Intent {
    Dns01Intent {
        id: ID,
        identifier: "site.example.com".to_owned(),
        provider: "https://api.cloudflare.com/client/v4/".to_owned(),
        zone_id: "zone-1".to_owned(),
        record_name: "_acme-challenge.site.example.com".to_owned(),
        value: "A".repeat(43),
        record_id: None,
        creation_observed: false,
        creation_rejected: false,
        job_key: issuer.job_key.clone(),
        job_lease_id: format!("00000000-0000-0000-0000-{:012x}", issuer.lease_id),
        cleanup_requested: false,
        next_cleanup: 0,
    }
}

fn pending() -> (Dns01Intent, JobLease) {
    let issuer = lease("certificate", KEY, 0x11);
    let intent = wanted(&issuer);
    let intent = transition(
        ID,
        &issuer,
        None,
        Dns01Mutation::Create(intent),
        &facts(),
        true,
        10,
    )
    .unwrap()
    .unwrap();
    (intent, issuer)
}

fn cleanup_lease(intent: &Dns01Intent) -> JobLease {
    lease("dns01_cleanup", &intent.cleanup_job_key(), 0x22)
}

fn step(
    lease: &JobLease,
    intent: Dns01Intent,
    mutation: Dns01Mutation,
    owner_active: bool,
    now: i64,
) -> Result<Option<Dns01Intent>, String> {
    transition(ID, lease, Some(intent), mutation, &facts(), owner_active, now)
}

#[test]
fn cleanup_cannot_interrupt_an_active_issuer_or_forget_unknown_creation() {
    let (intent, issuer) = pending();
    let cleanup = cleanup_lease(&intent);
    assert!(step(&cleanup, intent.clone(), Dns01Mutation::AuthorizeCleanup, true, 11).is_err());
    let claimed = step(&cleanup, intent.clone(), Dns01Mutation::AuthorizeCleanup, false, 41)
        .unwrap()
        .unwrap();
    assert!(claimed.cleanup_requested);
    assert!(step(
        &issuer,
        claimed.clone(),
        Dns01Mutation::Published("record-1".to_owned()),
        false,
        42
    )
    .is_err());
    assert!(step(&cleanup, claimed.clone(), Dns01Mutation::CompleteCleanup, false, 42).is_err());
    let observed = step(&cleanup, claimed, Dns01Mutation::ObservedCreation, false, 42)
        .unwrap()
        .unwrap();
    assert!(step(&cleanup, observed, Dns01Mutation::CompleteCleanup, false, 43)
        .unwrap()
        .is_none());
}

#[test]
fn normal_cleanup_requires_the_issuing_lease_and_explicit_release() {
    let (intent, issuer) = pending();
    let stale = lease("certificate", &issuer.job_key, 0x33);
    assert!(step(&stale, intent.clone(), Dns01Mutation::RequestCleanup, true, 11).is_err());
    let published = step(
        &issuer,
        intent.clone(),
        Dns01Mutation::Published("record-1".to_owned()),
        true,
        11,
    )
    .unwrap()
    .unwrap();
    let released = step(&issuer, published, Dns01Mutation::RequestCleanup, true, 12)
        .unwrap()
        .unwrap();
    let cleanup = cleanup_lease(&intent);
    assert!(step(&cleanup, released, Dns01Mutation::AuthorizeCleanup, true, 13).is_ok());
    let other = lease(
        "dns01_cleanup",
        "dns01_cleanup:00000000-0000-0000-0000-00000000bbbb",
        0x44,
    );
    assert!(step(&other, intent, Dns01Mutation::AuthorizeCleanup, false, 41).is_err());
}

#[test]
fn confirmed_rejection_can_retire_without_observing_a_record() {
    let (intent, issuer) = pending();
    let rejected = step(&issuer, intent.clone(), Dns01Mutation::Rejected, true, 11)
        .unwrap()
        .unwrap();
    let cleanup = cleanup_lease(&intent);
    assert!(step(&cleanup, rejected, Dns01Mutation::CompleteCleanup, true, 12)
        .unwrap()
        .is_none());
}

#[test]
fn intents_name_their_record_and_jobs() {
    let (intent, _) = pending();
    assert_eq!(intent.next_cleanup, 40);
    assert_eq!(intent.comment(), "LinkLake DNS-01 00000000-0000-0000-0000-00000000aaaa");
    assert_eq!(
        intent.cleanup_job_key(),
        "dns01_cleanup:00000000-0000-0000-0000-00000000aaaa"
    );
}

#[test]
fn new_intents_are_checked() {
    let issuer = lease("certificate", KEY, 0x11);
    let create = |change: &dyn Fn(&mut Dns01Intent), facts: Dns01Facts| {
        let mut intent = wanted(&issuer);
        change(&mut intent);
        transition(ID, &issuer, None, Dns01Mutation::Create(intent), &facts, true, 10)
            .map(|_| ())
            .unwrap_err()
    };
    assert_eq!(
        create(&|i| i.cleanup_requested = true, facts()),
        "DNS-01 intent already exists or is invalid"
    );
    assert_eq!(
        create(&|_| (), Dns01Facts { identifier: Err("no name".into()), ..facts() }),
        "no name"
    );
    assert_eq!(
        create(&|i| i.record_name = "site.example.com".into(), facts()),
        "DNS-01 intent domain does not match certificate identifier"
    );
    assert_eq!(
        create(&|_| (), Dns01Facts { zone: Err("bad zone".into()), ..facts() }),
        "bad zone"
    );
    assert_eq!(
        create(&|i| i.value = "A".repeat(42), facts()),
        "DNS-01 publication context is invalid"
    );
    assert_eq!(
        create(&|i| i.job_key = "other".into(), facts()),
        "DNS-01 intent does not match issuing job"
    );
    assert_eq!(
        transition(ID, &issuer, None, Dns01Mutation::Rejected, &facts(), true, 10).unwrap_err(),
        "DNS-01 intent does not exist"
    );
    let mut wildcard = wanted(&issuer);
    wildcard.identifier = "*.example.com".into();
    wildcard.record_name = "_acme-challenge.example.com".into();
    let known = Dns01Facts { identifier: Ok("*.example.com".into()), ..facts() };
    assert!(
        transition(ID, &issuer, None, Dns01Mutation::Create(wildcard), &known, true, 10).is_ok()
    );
}

#[test]
fn the_journal_hands_out_what_is_due() {
    let coordinator = HaCoordinator::open_as("test", Ok("{}".into()), 30, 15, "session".into())
        .unwrap();
    let mut leases = HaLeases::new();
    coordinator.register_or_renew_member(&mut leases, 10).unwrap();
    coordinator.try_acquire_leadership(&mut leases, 10).unwrap();
    let issuer = lease("certificate", KEY, 0x11);
    let jobs = vec![issuer.clone()];
    let intent = wanted(&issuer);
    assert!(is_issuer_active(&jobs, &leases, KEY, &intent.job_lease_id, 20));
    assert!(!is_issuer_active(&jobs, &leases, KEY, &intent.job_lease_id, 40));

    let mut journal = Dns01Journal::open();
    let provider = intent.provider.clone();
    journal
        .apply(&jobs, &leases, ID, &issuer, Dns01Mutation::Create(intent), &facts(), 10)
        .unwrap()
        .unwrap();
    assert!(journal.due(&jobs, &leases, &provider, 39).is_empty());
    // The leader's lease has ended by then, so the issuer is no longer at work.
    assert_eq!(journal.due(&jobs, &leases, &provider, 40).len(), 1);
    assert!(journal.due(&jobs, &leases, "https://other.example/", 40).is_empty());

    let cleanup = cleanup_lease(&journal.due(&jobs, &leases, &provider, 40)[0]);
    assert_eq!(
        journal
            .apply(&jobs, &leases, ID, &cleanup, Dns01Mutation::AuthorizeCleanup, &facts(), 20)
            .unwrap_err(),
        "DNS-01 issuance is still active; refusing cleanup"
    );
    for mutation in [Dns01Mutation::AuthorizeCleanup, Dns01Mutation::ObservedCreation] {
        journal.apply(&jobs, &leases, ID, &cleanup, mutation, &facts(), 41).unwrap().unwrap();
    }
    assert!(journal
        .apply(&jobs, &leases, ID, &cleanup, Dns01Mutation::CompleteCleanup, &facts(), 42)
        .unwrap()
        .is_none());
    assert!(journal.due(&jobs, &leases, &provider, 1000).is_empty());
}
