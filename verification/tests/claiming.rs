use pulsar_payment::errors::PaymentError;
use pulsar_payment::payment_type::PaymentType;
use pulsar_payment::pulsar_payment::PaymentTransfer;
use pulsar_payment::pulsar_payment::PulsarPayment;
use pulsar_payment::release::Release;

const ONE_TITLE: u64 = 1000;

fn engine() -> PulsarPayment {
    PulsarPayment::init(b"PAY-123456".to_vec(), b"CXL-123456".to_vec(), 0)
}

fn component(start: u64, end: u64, interval: u64, per_interval: u128) -> Release {
    Release { start_date: start, end_date: end, interval_seconds: interval, amount: per_interval }
}

fn title(identifier: u64, releases: Vec<Release>) -> pulsar_payment::payment::Payment {
    pulsar_payment::payment::Payment {
        version: 2,
        payment_type: PaymentType::PulsarPayment,
        identifier,
        name: b"salary".to_vec(),
        start_date: 0,
        end_date: 0,
        release_token: b"WEGLD-abcdef".to_vec(),
        release_nonce: 0,
        creator: b"creator-address".to_vec(),
        amount: 0,
        cancelable: false,
        releases,
    }
}

#[test]
fn claim_mid_stream_pays_elapsed_intervals_and_advances_the_start() {
    // a component paying 100 per 10-second interval over [1010, 1110);
    // claiming the whole title at 1035 settles two whole intervals
    let e = engine();
    let r = component(1010, 1110, 10, 100);
    let (paid, kept) = e.claim_release(r, ONE_TITLE, 7, 1035);
    assert_eq!(paid, 200);
    let kept = kept.unwrap();
    assert_eq!(kept.start_date, 1030);
    assert_eq!(kept.end_date, 1110);
    assert_eq!(kept.interval_seconds, 10);
    assert_eq!(kept.amount, 100);
    // the surviving window is still a whole number of intervals
    assert_eq!((kept.end_date - kept.start_date) % kept.interval_seconds, 0);
}

#[test]
fn claim_before_start_is_a_noop_and_repeats_are_too() {
    let e = engine();
    let r = component(1010, 1110, 10, 100);
    let (paid, kept) = e.claim_release(r, ONE_TITLE, 7, 1005);
    assert_eq!(paid, 0);
    assert_eq!(kept, Some(r));
    let (paid2, kept2) = e.claim_release(kept.unwrap(), ONE_TITLE, 7, 1010);
    assert_eq!(paid2, 0);
    assert_eq!(kept2, Some(r));
}

#[test]
fn claim_after_end_exhausts_the_component() {
    let e = engine();
    let r = component(1010, 1110, 10, 100);
    let (paid, kept) = e.claim_release(r, ONE_TITLE, 7, 2000);
    // ten whole intervals, nothing reissued, nothing left to claim
    assert_eq!(paid, 1000);
    assert_eq!(kept, None);
}

#[test]
fn partial_quantities_get_their_share_rounded_down() {
    let e = engine();
    let r = component(1010, 1110, 10, 105);
    // a third of the title over three intervals: 333 * 3 * 105 / 1000
    let (paid, _) = e.claim_release(r, 333, 7, 1040);
    assert_eq!(paid, 104);
}

#[test]
fn fractional_interval_pays_nothing_but_survives() {
    let e = engine();
    let r = component(1010, 1110, 10, 100);
    let (paid, kept) = e.claim_release(r, ONE_TITLE, 7, 1015);
    assert_eq!(paid, 0);
    assert_eq!(kept, Some(r));
}

#[test]
fn claim_payment_splits_surviving_and_exhausted_components() {
    let e = engine();
    let active = component(1010, 1110, 10, 100);
    let over = component(100, 200, 10, 50);
    let p = title(4, vec![active, over]);
    let settlement = e.claim_payment(p, ONE_TITLE, 1035);
    // 200 from the active component, the full 500 from the ended one
    assert_eq!(settlement.paid, 700);
    let reissued = settlement.reissue.unwrap();
    assert_eq!(reissued.releases.len(), 1);
    assert_eq!(reissued.releases[0].start_date, 1030);
    assert_eq!(reissued.identifier, 4);
    assert_eq!(reissued.name, b"salary".to_vec());
}

#[test]
fn fully_exhausted_title_is_not_reissued() {
    let e = engine();
    let over = component(100, 200, 10, 50);
    let p = title(4, vec![over]);
    let settlement = e.claim_payment(p, ONE_TITLE, 5000);
    assert_eq!(settlement.paid, 500);
    assert!(settlement.reissue.is_none());
}

#[test]
fn claim_batch_rejects_a_wrong_asset() {
    let e = engine();
    let p = title(4, vec![component(1010, 1110, 10, 100)]);
    let transfer = PaymentTransfer {
        token_identifier: b"OTHER-123456".to_vec(),
        token_nonce: 1,
        amount: ONE_TITLE,
        payment: p,
    };
    let res = e.claim(1035, vec![transfer]);
    assert_eq!(res.unwrap_err(), PaymentError::WrongPaymentToken);
}

#[test]
fn claim_batch_settles_each_presented_title() {
    let e = engine();
    let p = title(4, vec![component(1010, 1110, 10, 100)]);
    let transfer = PaymentTransfer {
        token_identifier: b"PAY-123456".to_vec(),
        token_nonce: 1,
        amount: ONE_TITLE,
        payment: p,
    };
    let settlements = e.claim(1035, vec![transfer]).unwrap();
    assert_eq!(settlements.len(), 1);
    assert_eq!(settlements[0].paid, 200);
    assert!(settlements[0].reissue.is_some());
}

#[test]
fn claimable_estimate_matches_the_claim() {
    let e = engine();
    let releases = vec![component(1010, 1110, 10, 100), component(100, 200, 10, 50)];
    let estimate = e.get_claimable_amount(4, ONE_TITLE, &releases, 1035);
    assert_eq!(estimate, 700);
    let settlement = e.claim_payment(title(4, releases), ONE_TITLE, 1035);
    assert_eq!(settlement.paid, estimate);
}
