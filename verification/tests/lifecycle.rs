use pulsar_payment::interval::aligned_boundary;
use pulsar_payment::payment_type::PaymentType;
use pulsar_payment::pulsar_payment::PulsarPayment;
use pulsar_payment::release::Release;
use pulsar_payment::schedule::Schedule;
use pulsar_payment::schedule_release::ScheduleRelease;
use pulsar_payment::schedule_type::ScheduleType;

const ONE_TITLE: u64 = 1000;

#[test]
fn created_titles_flow_through_claims_to_exhaustion() {
    // create one entitlement, claim it mid-stream, then claim the reissued
    // title past its end; the payouts and the tax account for the principal
    let mut e = PulsarPayment::init(b"PAY-123456".to_vec(), b"CXL-123456".to_vec(), 0);
    let now = 1000u64;
    let principal = 1_000_000_000u128;
    let request = Release {
        start_date: now + 10,
        end_date: now + 110,
        interval_seconds: 10,
        amount: principal,
    };
    let out = e
        .create(
            now,
            PaymentType::Vesting,
            b"grant".to_vec(),
            false,
            vec![b"alice".to_vec()],
            vec![request],
            b"WEGLD-abcdef".to_vec(),
            0,
            principal,
            b"creator-address".to_vec(),
        )
        .unwrap();
    let p = out.payments.into_iter().next().unwrap();

    let first = e.claim_payment(p, ONE_TITLE, now + 35);
    assert_eq!(first.paid, 200_000_000);
    let reissued = first.reissue.unwrap();
    assert_eq!(reissued.releases[0].start_date, now + 30);

    let second = e.claim_payment(reissued, ONE_TITLE, now + 200);
    assert_eq!(second.paid, 800_000_000);
    assert!(second.reissue.is_none());

    assert_eq!(out.tax + first.paid + second.paid, principal);
}

#[test]
fn schedule_naming_mirrors_the_payment_naming() {
    let release = Release { start_date: 10, end_date: 110, interval_seconds: 10, amount: 7 };
    let sr = ScheduleRelease::of_release(release);
    assert_eq!(sr.duration, 10);
    assert_eq!(sr.amount, 7);
    assert_eq!(sr.to_release(), release);

    let p = pulsar_payment::payment::Payment {
        version: 2,
        payment_type: PaymentType::Vault,
        identifier: 3,
        name: b"grant".to_vec(),
        start_date: 10,
        end_date: 110,
        release_token: b"WEGLD-abcdef".to_vec(),
        release_nonce: 4,
        creator: b"creator-address".to_vec(),
        amount: 70,
        cancelable: false,
        releases: vec![release],
    };
    let s = Schedule::of_payment(&p);
    assert_eq!(s.schedule_type, ScheduleType::Vault);
    assert_eq!(s.identifier, 3);
    assert_eq!(s.name, b"grant".to_vec());
    assert_eq!(s.start_date, 10);
    assert_eq!(s.end_date, 110);
    assert_eq!(s.release_token, b"WEGLD-abcdef".to_vec());
    assert_eq!(s.release_nonce, 4);
    assert_eq!(s.releases.len(), 1);
    assert_eq!(s.releases[0].duration, 10);
}

#[test]
fn aligned_boundary_snaps_to_the_latest_interval_start() {
    assert_eq!(aligned_boundary(1045, 1010, 10), 1040);
    assert_eq!(aligned_boundary(1040, 1010, 10), 1040);
    assert_eq!(aligned_boundary(1010, 1010, 10), 1010);
    assert_eq!(aligned_boundary(1019, 1010, 10), 1010);
}
