use pulsar_payment::cancellation::Cancellation;
use pulsar_payment::errors::PaymentError;
use pulsar_payment::pulsar_payment::CancellationTransfer;
use pulsar_payment::pulsar_payment::PulsarPayment;
use pulsar_payment::release::Release;

const ONE_TITLE: u64 = 1000;

fn engine() -> PulsarPayment {
    PulsarPayment::init(b"PAY-123456".to_vec(), b"CXL-123456".to_vec(), 0)
}

fn component(start: u64, end: u64, interval: u64, per_interval: u128) -> Release {
    Release { start_date: start, end_date: end, interval_seconds: interval, amount: per_interval }
}

fn cancellation(identifier: u64, releases: Vec<Release>) -> Cancellation {
    Cancellation {
        payment_identifier: identifier,
        release_token: b"WEGLD-abcdef".to_vec(),
        release_nonce: 0,
        releases,
    }
}

#[test]
fn cancel_refunds_the_unvested_window_and_marks_the_ledger() {
    // cancelling at 1045: the latest boundary is 1040, so the refund covers
    // [1040, 1110): seven intervals of 100
    let mut e = engine();
    let refund = e.cancel_internal(cancellation(9, vec![component(1010, 1110, 10, 100)]), 1045);
    assert_eq!(refund, 700);
    assert!(e.is_cancelled(9));
    assert_eq!(e.cancel_date(9), 1045);
}

#[test]
fn cancel_before_start_refunds_everything() {
    let mut e = engine();
    let refund = e.cancel_internal(cancellation(9, vec![component(1010, 1110, 10, 100)]), 900);
    assert_eq!(refund, 1000);
}

#[test]
fn cancel_after_end_refunds_nothing_but_still_marks() {
    let mut e = engine();
    let refund = e.cancel_internal(cancellation(9, vec![component(1010, 1110, 10, 100)]), 2000);
    assert_eq!(refund, 0);
    assert!(e.is_cancelled(9));
}

#[test]
fn claims_after_cancellation_are_capped_at_the_cancellation_date() {
    // the lifecycle of one entitlement: claim at 1035, cancel at 1045, then
    // a late claim only settles up to the cancellation date and drops the
    // component
    let mut e = engine();
    let r = component(1010, 1110, 10, 100);
    let (paid, kept) = e.claim_release(r, ONE_TITLE, 9, 1035);
    assert_eq!(paid, 200);
    let kept = kept.unwrap();
    assert_eq!(kept.start_date, 1030);

    let refund = e.cancel_internal(cancellation(9, vec![r]), 1045);
    assert_eq!(refund, 700);

    let (late_paid, late_kept) = e.claim_release(kept, ONE_TITLE, 9, 2000);
    assert_eq!(late_paid, 100);
    assert_eq!(late_kept, None);

    // everything distributed over the lifetime stays within the component's
    // value; here the one interval straddling the cancellation is forfeited
    assert!(paid + refund + late_paid <= 1000);
    assert_eq!(paid + refund + late_paid, 1000);
}

#[test]
fn cancellation_before_a_component_starts_drops_it_from_claims() {
    let mut e = engine();
    let r = component(1010, 1110, 10, 100);
    e.cancel_internal(cancellation(9, vec![r]), 1000);
    let (paid, kept) = e.claim_release(r, ONE_TITLE, 9, 5000);
    assert_eq!(paid, 0);
    assert_eq!(kept, None);
}

#[test]
fn cancel_batch_rejects_a_wrong_asset() {
    let mut e = engine();
    let transfer = CancellationTransfer {
        token_identifier: b"OTHER-123456".to_vec(),
        token_nonce: 1,
        amount: 1,
        cancellation: cancellation(9, vec![component(1010, 1110, 10, 100)]),
    };
    let res = e.cancel(1045, vec![transfer]);
    assert_eq!(res.unwrap_err(), PaymentError::WrongCancellationToken);
    assert!(!e.is_cancelled(9));
}

#[test]
fn cancel_batch_refunds_each_presented_title() {
    let mut e = engine();
    let transfer = CancellationTransfer {
        token_identifier: b"CXL-123456".to_vec(),
        token_nonce: 1,
        amount: 1,
        cancellation: cancellation(9, vec![component(1010, 1110, 10, 100)]),
    };
    let refunds = e.cancel(1045, vec![transfer]).unwrap();
    assert_eq!(refunds, vec![700]);
    assert!(e.is_cancelled(9));
}

#[test]
fn a_second_cancellation_overwrites_the_timestamp() {
    // the ledger write is unconditional: a replayed cancellation re-records
    // its timestamp and recomputes the refund from its snapshot
    let mut e = engine();
    let r = component(1010, 1110, 10, 100);
    e.cancel_internal(cancellation(9, vec![r]), 1045);
    let refund = e.cancel_internal(cancellation(9, vec![r]), 1055);
    assert_eq!(refund, 600);
    assert_eq!(e.cancel_date(9), 1055);
}
