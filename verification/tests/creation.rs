use pulsar_payment::errors::PaymentError;
use pulsar_payment::payment_type::PaymentType;
use pulsar_payment::pulsar_payment::PulsarPayment;
use pulsar_payment::release::Release;

fn engine(fee: u64) -> PulsarPayment {
    PulsarPayment::init(b"PAY-123456".to_vec(), b"CXL-123456".to_vec(), fee)
}

fn request(start: u64, end: u64, interval: u64, amount: u128) -> Release {
    Release { start_date: start, end_date: end, interval_seconds: interval, amount }
}

fn one_receiver() -> Vec<Vec<u8>> {
    vec![b"receiver-address".to_vec()]
}

fn create_simple(
    e: &mut PulsarPayment,
    now: u64,
    releases: Vec<Release>,
    receivers: Vec<Vec<u8>>,
    amount: u128,
    cancelable: bool,
) -> Result<pulsar_payment::pulsar_payment::CreateOutcome, PaymentError> {
    e.create(
        now,
        PaymentType::PulsarPayment,
        b"salary".to_vec(),
        cancelable,
        receivers,
        releases,
        b"WEGLD-abcdef".to_vec(),
        0,
        amount,
        b"creator-address".to_vec(),
    )
}

#[test]
fn accepts_a_simple_batch_and_computes_the_components() {
    let mut e = engine(0);
    let now = 1000u64;
    let principal = 1_000_000_000u128;
    let r = request(now + 10, now + 110, 10, principal);
    let out = create_simple(&mut e, now, vec![r], one_receiver(), principal, false).unwrap();
    // no fee: the principal spread over 100 seconds, rescaled to one
    // 10-second interval, is a tenth of it per interval
    assert_eq!(out.tax, 0);
    assert_eq!(out.payments.len(), 1);
    let p = &out.payments[0];
    assert_eq!(p.identifier, 1);
    assert_eq!(p.version, 2);
    assert_eq!(p.amount, principal);
    assert_eq!(p.start_date, now + 10);
    assert_eq!(p.end_date, now + 110);
    assert_eq!(p.releases.len(), 1);
    assert_eq!(p.releases[0].amount, 100_000_000);
    assert_eq!(p.releases[0].start_date, now + 10);
    assert_eq!(p.releases[0].end_date, now + 110);
    assert_eq!(p.releases[0].interval_seconds, 10);
    assert!(out.cancellations.is_empty());
    assert_eq!(e.last_id, 1);
}

#[test]
fn fee_is_taken_once_and_conserved() {
    // a 5% fee on the principal: post-tax 95%, tax exactly the rest
    let mut e = engine(50);
    let now = 500u64;
    let principal = 1_000_000_000u128;
    let r = request(now + 10, now + 110, 10, principal);
    let out = create_simple(&mut e, now, vec![r], one_receiver(), principal, false).unwrap();
    assert_eq!(out.payments[0].amount, 950_000_000);
    assert_eq!(out.payments[0].releases[0].amount, 95_000_000);
    assert_eq!(out.tax, 50_000_000);
    assert_eq!(out.tax + out.payments[0].amount, principal);
}

#[test]
fn mismatched_total_is_rejected_with_no_side_effects() {
    let mut e = engine(0);
    let now = 1000u64;
    let r = request(now + 10, now + 110, 10, 999_000_000);
    let res = create_simple(&mut e, now, vec![r], one_receiver(), 1_000_000_000, false);
    assert_eq!(res.unwrap_err(), PaymentError::AmountMismatch);
    assert_eq!(e.last_id, 0);
}

#[test]
fn empty_batches_are_rejected() {
    let mut e = engine(0);
    let res = create_simple(&mut e, 0, vec![], one_receiver(), 1, false);
    assert_eq!(res.unwrap_err(), PaymentError::NoReleases);
    let r = request(10, 110, 10, 1);
    let res = create_simple(&mut e, 0, vec![r], vec![], 1, false);
    assert_eq!(res.unwrap_err(), PaymentError::NoReceivers);
}

#[test]
fn invalid_windows_are_rejected() {
    let mut e = engine(0);
    let now = 1000u64;
    let backwards = request(now + 110, now + 10, 10, 1_000_000_000);
    let res = create_simple(&mut e, now, vec![backwards], one_receiver(), 1_000_000_000, false);
    assert_eq!(res.unwrap_err(), PaymentError::EndNotAfterStart);

    let zero_interval = request(now + 10, now + 110, 0, 1_000_000_000);
    let res =
        create_simple(&mut e, now, vec![zero_interval], one_receiver(), 1_000_000_000, false);
    assert_eq!(res.unwrap_err(), PaymentError::InvalidInterval);

    let year = 31_536_000u64;
    let interval_too_long = request(now, now + 2 * (year + 1), year + 1, 1_000_000_000);
    let res =
        create_simple(&mut e, now, vec![interval_too_long], one_receiver(), 1_000_000_000, false);
    assert_eq!(res.unwrap_err(), PaymentError::InvalidInterval);

    let in_the_past = request(now - 1, now + 110, 10, 1_000_000_000);
    let res = create_simple(&mut e, now, vec![in_the_past], one_receiver(), 1_000_000_000, false);
    assert_eq!(res.unwrap_err(), PaymentError::StartInPast);

    let misaligned = request(now + 10, now + 115, 10, 1_000_000_000);
    let res = create_simple(&mut e, now, vec![misaligned], one_receiver(), 1_000_000_000, false);
    assert_eq!(res.unwrap_err(), PaymentError::IntervalNotAligned);
}

#[test]
fn dust_rates_are_rejected_for_divisible_payments() {
    let mut e = engine(0);
    let now = 1000u64;
    // 1000 over 100 seconds at interval 10 gives 100 per interval: far under
    // the minimum rate
    let r = request(now + 10, now + 110, 10, 1000);
    let res = create_simple(&mut e, now, vec![r], one_receiver(), 1000, false);
    assert_eq!(res.unwrap_err(), PaymentError::RateTooLow);
}

#[test]
fn unit_payments_skip_the_dust_floor() {
    let mut e = engine(0);
    let now = 1000u64;
    let r = request(now + 10, now + 110, 10, 1);
    let out = create_simple(&mut e, now, vec![r], one_receiver(), 1, false).unwrap();
    // everything below one unit per interval floors to zero, and the whole
    // unit is collected as rounding dust by the tax payment
    assert_eq!(out.payments[0].releases[0].amount, 0);
    assert_eq!(out.tax, 1);
}

#[test]
fn each_receiver_gets_an_identifier_and_a_cancellation_title() {
    let mut e = engine(0);
    let now = 1000u64;
    let principal = 1_000_000_000u128;
    let receivers = vec![b"alice".to_vec(), b"bob".to_vec()];
    let r = request(now + 10, now + 110, 10, principal);
    let out = create_simple(&mut e, now, vec![r], receivers, principal, true).unwrap();
    assert_eq!(out.payments.len(), 2);
    assert_eq!(out.cancellations.len(), 2);
    assert_eq!(out.payments[0].identifier, 1);
    assert_eq!(out.payments[1].identifier, 2);
    assert_eq!(out.cancellations[0].payment_identifier, 1);
    assert_eq!(out.cancellations[1].payment_identifier, 2);
    assert_eq!(e.last_id, 2);
    // the split: 1e9 / 100 seconds / 2 receivers * 10 = 50_000_000 per
    // interval each; both titles record the recomputed post-tax total
    assert_eq!(out.payments[0].releases[0].amount, 50_000_000);
    assert_eq!(out.payments[0].amount, 1_000_000_000);
    assert_eq!(out.tax, 0);
}

#[test]
fn window_spans_all_requests() {
    let mut e = engine(0);
    let now = 1000u64;
    let a = request(now + 50, now + 150, 10, 500_000_000);
    let b = request(now + 10, now + 110, 10, 500_000_000);
    let out =
        create_simple(&mut e, now, vec![a, b], one_receiver(), 1_000_000_000, false).unwrap();
    assert_eq!(out.payments[0].start_date, now + 10);
    assert_eq!(out.payments[0].end_date, now + 150);
    assert_eq!(out.payments[0].releases.len(), 2);
}

#[test]
fn set_fee_changes_only_the_fee() {
    let mut e = engine(0);
    e.set_fee(25);
    assert_eq!(e.fee, 25);
    assert_eq!(e.last_id, 0);
}
