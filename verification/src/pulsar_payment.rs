use vstd::prelude::*;
use std::collections::HashMap;
use crate::FEE_DENOMINATOR;
use crate::MAX_INTERVAL_SECONDS;
use crate::ONE_PAYMENT_TOKEN;
use crate::payment_type::PaymentType;
use crate::release::request_error;
use crate::release::request_valid;
use crate::cancellation::Cancellation;
use crate::cancellation::cancellation_wf;
use crate::cancel::spec_refund_total;
use crate::cancel::spec_release_refund;
use crate::cancel::spec_refund_effective_start;
use crate::cancel::lemma_release_refund_bounds;
use crate::cancel::lemma_refund_push;
use crate::cancel::lemma_refund_seq_bounds;
use crate::claim::spec_claim_horizon;
use crate::claim::spec_claim_paid;
use crate::claim::spec_claim_result;
use crate::claim::spec_claim_surviving;
use crate::claim::spec_claim_total;
use crate::claim::spec_claim_units;
use crate::claim::lemma_claim_release_bounds;
use crate::claim::lemma_claim_seq_bounds;
use crate::claim::lemma_claim_seq_push;
use crate::create::spec_built_release;
use crate::create::spec_built_releases;
use crate::create::spec_create_error;
use crate::create::spec_first_request_error;
use crate::create::spec_is_window_end;
use crate::create::spec_is_window_start;
use crate::create::spec_per_interval;
use crate::create::spec_post_tax;
use crate::create::spec_rate_too_low;
use crate::create::spec_recomputed_post_tax;
use crate::create::spec_sum_amounts;
use crate::create::spec_total_post_tax;
use crate::create::lemma_batch_arith;
use crate::create::lemma_create_sums_push;
use crate::create::lemma_first_error_step;
use crate::create::lemma_request_arith;
use crate::errors::PaymentError;
use crate::interval::aligned_boundary;
use crate::interval::lemma_div_mul_le;
use crate::interval::lemma_elapsed_units_monotone;
use crate::interval::lemma_mul_div_split;
use crate::interval::spec_aligned_boundary;
use crate::payment::Payment;
use crate::payment::payment_wf;
use crate::release::Release;
use crate::release::release_total_units;
use crate::release::release_value;
use crate::release::release_wf;
use crate::release::releases_value;
use crate::release::releases_wf;
use crate::release::lemma_release_units_pos;
use crate::release::lemma_releases_value_bounds;
use crate::release::lemma_releases_value_split;
use crate::release::lemma_releases_wf_subrange;

verus! {

broadcast use
    vstd::std_specs::hash::group_hash_axioms,
    vstd::std_specs::hash::axiom_u64_obeys_hash_table_key_model,
    vstd::std_specs::hash::axiom_random_state_builds_valid_hashers,
;

/// The engine's conventionally persisted state.  Everything else lives inside
/// the titles themselves.  `cancel_list` maps an entitlement identifier to
/// its cancellation timestamp; an absent key means "never cancelled", and the
/// sentinel value 0 means the same.
pub struct PulsarPayment {
    /// Asset identifier under which entitlement titles are minted.
    pub payment_token_id: Vec<u8>,
    /// Asset identifier under which cancellation titles are minted.
    pub cancel_token_id: Vec<u8>,
    /// Creation-time tax, in per-mille units: a value of `x` takes `x`
    /// thousandths of each requested amount.
    pub fee: u64,
    /// Source of entitlement identifiers; incremented once per receiver per
    /// creation and never decremented.
    pub last_id: u64,
    /// The cancellation ledger.
    pub cancel_list: HashMap<u64, u64>,
}

impl PulsarPayment {
    /// The fee never exceeds the whole: rates above the denominator would
    /// make the tax subtraction meaningless.
    pub open spec fn wf(&self) -> bool {
        self.fee <= FEE_DENOMINATOR
    }

    /// The recorded cancellation timestamp for `identifier`, with the
    /// 0 sentinel standing for "never cancelled".
    pub open spec fn spec_cancel_date(&self, identifier: u64) -> u64 {
        if self.cancel_list@.contains_key(identifier) {
            self.cancel_list@[identifier]
        } else {
            0
        }
    }

    /// Configure a fresh engine: the two title asset identifiers and the
    /// initial fee rate.
    pub fn init(payment_token_id: Vec<u8>, cancel_token_id: Vec<u8>, fee: u64) -> (s: Self)
        requires
            fee <= FEE_DENOMINATOR,
        ensures
            s.wf(),
            s.payment_token_id@ == payment_token_id@,
            s.cancel_token_id@ == cancel_token_id@,
            s.fee == fee,
            s.last_id == 0,
            s.cancel_list@ == Map::<u64, u64>::empty(),
    {
        PulsarPayment {
            payment_token_id,
            cancel_token_id,
            fee,
            last_id: 0,
            cancel_list: HashMap::new(),
        }
    }

    /// Change the fee rate.  Already-issued titles keep their arithmetic:
    /// tax is baked into each component's amount at mint time.
    pub fn set_fee(&mut self, fee: u64)
        requires
            fee <= FEE_DENOMINATOR,
        ensures
            final(self).wf(),
            final(self).fee == fee,
            final(self).payment_token_id == old(self).payment_token_id,
            final(self).cancel_token_id == old(self).cancel_token_id,
            final(self).last_id == old(self).last_id,
            final(self).cancel_list == old(self).cancel_list,
    {
        self.fee = fee;
    }

    /// Allocate the next entitlement identifier.
    pub fn increment_last_id(&mut self) -> (identifier: u64)
        requires
            old(self).last_id < u64::MAX,
        ensures
            identifier == old(self).last_id + 1,
            final(self).last_id == old(self).last_id + 1,
            final(self).payment_token_id == old(self).payment_token_id,
            final(self).cancel_token_id == old(self).cancel_token_id,
            final(self).fee == old(self).fee,
            final(self).cancel_list == old(self).cancel_list,
    {
        let last_id = self.last_id;
        self.last_id = last_id + 1;
        last_id + 1
    }

    /// Whether a cancellation has ever been recorded for `identifier`.
    pub fn is_cancelled(&self, identifier: u64) -> (r: bool)
        ensures
            r <==> self.spec_cancel_date(identifier) > 0,
    {
        match self.cancel_list.get(&identifier) {
            Some(date) => *date > 0,
            None => false,
        }
    }

    /// The cancellation timestamp for `identifier`, 0 when none is recorded.
    pub fn cancel_date(&self, identifier: u64) -> (r: u64)
        ensures
            r == self.spec_cancel_date(identifier),
    {
        match self.cancel_list.get(&identifier) {
            Some(date) => *date,
            None => 0,
        }
    }
}

/// One presented unit batch of an entitlement title: the asset identity the
/// host saw, the quantity presented, and the title state decoded from the
/// credential payload.
pub struct PaymentTransfer {
    pub token_identifier: Vec<u8>,
    pub token_nonce: u64,
    pub amount: u64,
    pub payment: Payment,
}

/// A presented cancellation title, decoded from the credential payload.
pub struct CancellationTransfer {
    pub token_identifier: Vec<u8>,
    pub token_nonce: u64,
    pub amount: u64,
    pub cancellation: Cancellation,
}

/// Byte-for-byte equality of two identifiers.
fn bytes_eq(a: &Vec<u8>, b: &Vec<u8>) -> (r: bool)
    ensures
        r <==> a@ == b@,
{
    if a.len() != b.len() {
        return false;
    }
    let n = a.len();
    let mut i: usize = 0;
    while i < n
        invariant
            n == a@.len() == b@.len(),
            0 <= i <= n,
            forall|j: int| 0 <= j < i ==> a@[j] == b@[j],
        decreases n - i,
    {
        if a[i] != b[i] {
            return false;
        }
        i = i + 1;
    }
    proof {
        assert(a@ =~= b@);
    }
    true
}

impl PulsarPayment {
    /// Every transfer in a claim batch must present the entitlement asset.
    pub fn verify_payment_token_payments(&self, payments: &Vec<PaymentTransfer>) -> (r: Result<
        (),
        PaymentError,
    >)
        ensures
            r is Ok <==> (forall|i: int|
                0 <= i < payments@.len() ==> (#[trigger] payments@[i].token_identifier@)
                    == self.payment_token_id@),
            r is Err ==> r->Err_0 == PaymentError::WrongPaymentToken,
    {
        let n = payments.len();
        let mut i: usize = 0;
        while i < n
            invariant
                n == payments@.len(),
                0 <= i <= n,
                forall|j: int|
                    0 <= j < i ==> (#[trigger] payments@[j].token_identifier@)
                        == self.payment_token_id@,
            decreases n - i,
        {
            if !bytes_eq(&payments[i].token_identifier, &self.payment_token_id) {
                return Err(PaymentError::WrongPaymentToken);
            }
            i = i + 1;
        }
        Ok(())
    }

    /// Every transfer in a cancel batch must present the cancellation asset.
    pub fn verify_cancellation_token_payments(&self, payments: &Vec<CancellationTransfer>) -> (r:
        Result<(), PaymentError>)
        ensures
            r is Ok <==> (forall|i: int|
                0 <= i < payments@.len() ==> (#[trigger] payments@[i].token_identifier@)
                    == self.cancel_token_id@),
            r is Err ==> r->Err_0 == PaymentError::WrongCancellationToken,
    {
        let n = payments.len();
        let mut i: usize = 0;
        while i < n
            invariant
                n == payments@.len(),
                0 <= i <= n,
                forall|j: int|
                    0 <= j < i ==> (#[trigger] payments@[j].token_identifier@)
                        == self.cancel_token_id@,
            decreases n - i,
        {
            if !bytes_eq(&payments[i].token_identifier, &self.cancel_token_id) {
                return Err(PaymentError::WrongCancellationToken);
            }
            i = i + 1;
        }
        Ok(())
    }
}

/// What the claim engine settles for one presented title: the amount of the
/// release asset owed to the claimer, and the replacement title to mint when
/// any component survives.  The presented quantity is burned either way.
#[derive(Debug)]
pub struct ClaimSettlement {
    pub paid: u128,
    pub reissue: Option<Payment>,
}

/// Copy a byte identifier.
fn copy_bytes(v: &Vec<u8>) -> (r: Vec<u8>)
    ensures
        r@ == v@,
{
    let n = v.len();
    let mut r: Vec<u8> = Vec::new();
    let mut i: usize = 0;
    while i < n
        invariant
            n == v@.len(),
            0 <= i <= n,
            r@ == v@.take(i as int),
        decreases n - i,
    {
        r.push(v[i]);
        proof {
            assert(v@.take(i as int).push(v@[i as int]) =~= v@.take(i as int + 1));
        }
        i = i + 1;
    }
    proof {
        assert(v@.take(n as int) =~= v@);
    }
    r
}

impl PulsarPayment {
    /// What one claim settles for one presented title, as the claim engine
    /// promises it: the paid total, and a reissued title exactly when any
    /// component survives, carrying the surviving components and otherwise
    /// unchanged metadata.
    pub open spec fn claim_settles(
        &self,
        p: Payment,
        quantity: u64,
        now: u64,
        s: ClaimSettlement,
    ) -> bool {
        let cd = self.spec_cancel_date(p.identifier);
        let surv = spec_claim_surviving(p.releases@, cd, now);
        &&& s.paid == spec_claim_total(p.releases@, quantity, cd, now)
        &&& (s.reissue is None <==> surv.len() == 0)
        &&& (s.reissue matches Some(p2) ==> {
            &&& p2.releases@ == surv
            &&& payment_wf(p2)
            &&& p2.version == p.version
            &&& p2.payment_type == p.payment_type
            &&& p2.identifier == p.identifier
            &&& p2.name@ == p.name@
            &&& p2.start_date == p.start_date
            &&& p2.end_date == p.end_date
            &&& p2.release_token@ == p.release_token@
            &&& p2.release_nonce == p.release_nonce
            &&& p2.creator@ == p.creator@
            &&& p2.amount == p.amount
            &&& p2.cancelable == p.cancelable
        })
    }

    /// Settle one component of the title with identifier `identifier`, for a
    /// presented quantity `amount` of the title, at time `now`: how much it
    /// pays, and what survives of it.
    pub fn claim_release(&self, release: Release, amount: u64, identifier: u64, now: u64) -> (res: (
        u128,
        Option<Release>,
    ))
        requires
            release_wf(release),
            amount <= ONE_PAYMENT_TOKEN,
            release_value(release) <= u128::MAX,
        ensures
            res.0 == spec_claim_paid(release, amount, self.spec_cancel_date(identifier), now),
            res.1 == spec_claim_result(release, self.spec_cancel_date(identifier), now),
            0 <= res.0 <= release_value(release),
    {
        let cancel_date = self.cancel_date(identifier);
        proof {
            lemma_claim_release_bounds(release, amount, cancel_date, now);
        }
        if cancel_date > 0 && cancel_date <= release.start_date {
            return (0u128, None);
        }
        if now <= release.start_date {
            return (0u128, Some(release));
        }
        let m = if now <= release.end_date {
            now
        } else {
            release.end_date
        };
        let release_end = if cancel_date > 0 && cancel_date < m {
            cancel_date
        } else {
            m
        };
        assert(release_end == spec_claim_horizon(release, cancel_date, now));
        let claimable_intervals = (release_end - release.start_date) / release.interval_seconds;
        assert(claimable_intervals == spec_claim_units(release, cancel_date, now));
        if claimable_intervals == 0 {
            return (0u128, Some(release));
        }
        let ghost units = spec_claim_units(release, cancel_date, now);
        proof {
            lemma_release_units_pos(release);
            lemma_elapsed_units_monotone(
                release_end as int,
                release.end_date as int,
                release.start_date as int,
                release.interval_seconds as int,
            );
            assert(units * release.amount <= release_value(release)) by (nonlinear_arith)
                requires
                    1 <= units <= release_total_units(release),
                    0 <= release.amount,
                    release_value(release) == release.amount * release_total_units(release),
            ;
        }
        let a: u128 = (claimable_intervals as u128) * release.amount;
        let one: u128 = ONE_PAYMENT_TOKEN as u128;
        proof {
            lemma_mul_div_split(a as int, amount as int, one as int);
            if amount > 0 {
                lemma_div_mul_le(a as int, one as int, amount as int);
            }
            vstd::arithmetic::div_mod::lemma_mod_division_less_than_divisor(a as int, one as int);
            assert(((a as int) % (one as int)) * (amount as int) < 1000 * 1001) by (nonlinear_arith)
                requires
                    0 <= (a as int) % (one as int) < 1000,
                    0 <= amount as int <= 1000,
            ;
            assert(amount * units * release.amount == a * amount) by (nonlinear_arith)
                requires
                    a == units * release.amount,
            ;
        }
        let claimable_amount: u128 = (a / one) * (amount as u128) + ((a % one) * (amount as u128))
            / one;
        assert(claimable_amount == spec_claim_paid(
            release,
            amount,
            self.spec_cancel_date(identifier),
            now,
        ));
        if cancel_date == 0 && now < release.end_date {
            let new_start = aligned_boundary(now, release.start_date, release.interval_seconds);
            let release_attributes = Release {
                amount: release.amount,
                start_date: new_start,
                end_date: release.end_date,
                interval_seconds: release.interval_seconds,
            };
            assert(new_start == spec_aligned_boundary(
                now as int,
                release.start_date as int,
                release.interval_seconds as int,
            ) as u64);
            return (claimable_amount, Some(release_attributes));
        }
        (claimable_amount, None)
    }

    /// Settle one presented title: pay out every component's vested value,
    /// burn the presented quantity, and reissue the surviving components
    /// under unchanged metadata, if any survive.
    pub fn claim_payment(&self, payment: Payment, amount: u64, now: u64) -> (res: ClaimSettlement)
        requires
            payment_wf(payment),
            amount <= ONE_PAYMENT_TOKEN,
        ensures
            self.claim_settles(payment, amount, now, res),
    {
        let ghost cd = self.spec_cancel_date(payment.identifier);
        let ghost rs = payment.releases@;
        let mut releases: Vec<Release> = Vec::new();
        let mut total: u128 = 0;
        let n = payment.releases.len();
        let mut i: usize = 0;
        while i < n
            invariant
                n == rs.len(),
                0 <= i <= n,
                rs == payment.releases@,
                releases_wf(rs),
                releases_value(rs) <= u128::MAX,
                amount <= ONE_PAYMENT_TOKEN,
                cd == self.spec_cancel_date(payment.identifier),
                total == spec_claim_total(rs.take(i as int), amount, cd, now),
                releases@ == spec_claim_surviving(rs.take(i as int), cd, now),
            decreases n - i,
        {
            let ghost k = i as int;
            proof {
                lemma_releases_value_bounds(rs);
            }
            let release = payment.releases[i];
            let (paid, kept) = self.claim_release(release, amount, payment.identifier, now);
            proof {
                assert(rs.take(k).push(rs[k]) =~= rs.take(k + 1));
                lemma_claim_seq_push(rs.take(k), rs[k], amount, cd, now);
                lemma_releases_wf_subrange(rs, 0, k + 1);
                lemma_claim_seq_bounds(rs.take(k + 1), amount, cd, now);
                lemma_releases_value_split(rs, k + 1);
                lemma_releases_wf_subrange(rs, k + 1, rs.len() as int);
                lemma_releases_value_bounds(rs.skip(k + 1));
                assert(releases_value(rs.take(k + 1)) <= releases_value(rs));
                assert(total + paid <= u128::MAX);
            }
            total = total + paid;
            match kept {
                Some(r2) => {
                    releases.push(r2);
                    proof {
                        assert(releases@ =~= spec_claim_surviving(rs.take(k), cd, now) + seq![r2]);
                    }
                },
                None => {
                    proof {
                        assert(releases@ =~= spec_claim_surviving(rs.take(k), cd, now)
                            + Seq::<Release>::empty());
                    }
                },
            }
            i = i + 1;
        }
        proof {
            assert(rs.take(n as int) =~= rs);
            lemma_claim_seq_bounds(rs, amount, cd, now);
        }
        if releases.len() != 0 {
            let reissued = Payment {
                version: payment.version,
                payment_type: payment.payment_type,
                identifier: payment.identifier,
                name: payment.name,
                start_date: payment.start_date,
                end_date: payment.end_date,
                release_token: payment.release_token,
                release_nonce: payment.release_nonce,
                creator: payment.creator,
                amount: payment.amount,
                cancelable: payment.cancelable,
                releases,
            };
            ClaimSettlement { paid: total, reissue: Some(reissued) }
        } else {
            ClaimSettlement { paid: total, reissue: None }
        }
    }

    /// Settle a whole claim batch.  Every presented transfer must carry the
    /// entitlement asset; a wrong asset rejects the whole batch with no
    /// settlement at all.
    pub fn claim(&self, now: u64, payments: Vec<PaymentTransfer>) -> (res: Result<
        Vec<ClaimSettlement>,
        PaymentError,
    >)
        requires
            forall|i: int|
                0 <= i < payments@.len() ==> payment_wf(#[trigger] payments@[i].payment)
                    && payments@[i].amount <= ONE_PAYMENT_TOKEN,
        ensures
            res is Ok <==> (forall|i: int|
                0 <= i < payments@.len() ==> (#[trigger] payments@[i].token_identifier@)
                    == self.payment_token_id@),
            res is Err ==> res->Err_0 == PaymentError::WrongPaymentToken,
            res matches Ok(outs) ==> outs@.len() == payments@.len() && (forall|i: int|
                0 <= i < payments@.len() ==> self.claim_settles(
                    (#[trigger] payments@[i]).payment,
                    payments@[i].amount,
                    now,
                    outs@[i],
                )),
    {
        match self.verify_payment_token_payments(&payments) {
            Err(e) => {
                return Err(e);
            },
            Ok(()) => {},
        }
        let mut outs: Vec<ClaimSettlement> = Vec::new();
        let n = payments.len();
        let mut i: usize = 0;
        while i < n
            invariant
                n == payments@.len(),
                0 <= i <= n,
                outs@.len() == i,
                forall|j: int|
                    0 <= j < payments@.len() ==> payment_wf(#[trigger] payments@[j].payment)
                        && payments@[j].amount <= ONE_PAYMENT_TOKEN,
                forall|j: int|
                    0 <= j < i ==> self.claim_settles(
                        (#[trigger] payments@[j]).payment,
                        payments@[j].amount,
                        now,
                        outs@[j],
                    ),
            decreases n - i,
        {
            let transfer = &payments[i];
            let payment_copy = Payment {
                version: transfer.payment.version,
                payment_type: transfer.payment.payment_type,
                identifier: transfer.payment.identifier,
                name: copy_bytes(&transfer.payment.name),
                start_date: transfer.payment.start_date,
                end_date: transfer.payment.end_date,
                release_token: copy_bytes(&transfer.payment.release_token),
                release_nonce: transfer.payment.release_nonce,
                creator: copy_bytes(&transfer.payment.creator),
                amount: transfer.payment.amount,
                cancelable: transfer.payment.cancelable,
                releases: copy_releases(&transfer.payment.releases),
            };
            let settlement = self.claim_payment(payment_copy, transfer.amount, now);
            outs.push(settlement);
            i = i + 1;
        }
        Ok(outs)
    }

    /// The read-only claim estimate: what a claim of `quantity` against the
    /// given components of entitlement `identifier` would pay at `now`,
    /// without settling anything.
    pub fn get_claimable_amount(
        &self,
        identifier: u64,
        quantity: u64,
        releases: &Vec<Release>,
        now: u64,
    ) -> (r: u128)
        requires
            releases_wf(releases@),
            releases_value(releases@) <= u128::MAX,
            quantity <= ONE_PAYMENT_TOKEN,
        ensures
            r == spec_claim_total(releases@, quantity, self.spec_cancel_date(identifier), now),
    {
        let ghost cd = self.spec_cancel_date(identifier);
        let ghost rs = releases@;
        let mut total: u128 = 0;
        let n = releases.len();
        let mut i: usize = 0;
        while i < n
            invariant
                n == rs.len(),
                0 <= i <= n,
                rs == releases@,
                releases_wf(rs),
                releases_value(rs) <= u128::MAX,
                quantity <= ONE_PAYMENT_TOKEN,
                cd == self.spec_cancel_date(identifier),
                total == spec_claim_total(rs.take(i as int), quantity, cd, now),
            decreases n - i,
        {
            let ghost k = i as int;
            proof {
                lemma_releases_value_bounds(rs);
            }
            let (paid, _kept) = self.claim_release(releases[i], quantity, identifier, now);
            proof {
                assert(rs.take(k).push(rs[k]) =~= rs.take(k + 1));
                lemma_claim_seq_push(rs.take(k), rs[k], quantity, cd, now);
                lemma_releases_wf_subrange(rs, 0, k + 1);
                lemma_claim_seq_bounds(rs.take(k + 1), quantity, cd, now);
                lemma_releases_value_split(rs, k + 1);
                lemma_releases_wf_subrange(rs, k + 1, rs.len() as int);
                lemma_releases_value_bounds(rs.skip(k + 1));
                assert(total + paid <= u128::MAX);
            }
            total = total + paid;
            i = i + 1;
        }
        proof {
            assert(rs.take(n as int) =~= rs);
        }
        total
    }
}

/// What the creation engine issues for an accepted batch: the tax owed to
/// the contract owner, one entitlement title per receiver, and, for a
/// cancelable batch, one cancellation title per receiver owed to the caller.
#[derive(Debug)]
pub struct CreateOutcome {
    pub tax: u128,
    pub payments: Vec<Payment>,
    pub cancellations: Vec<Cancellation>,
}

impl PulsarPayment {
    /// Validate a creation batch and issue its titles.  Every request must
    /// span a forward window of whole intervals starting no earlier than
    /// `now`; the requested amounts must exactly exhaust the attached
    /// principal `amount`; a rejected batch leaves the engine untouched and
    /// issues nothing.  On success the tax plus the recomputed post-tax
    /// total account for the principal exactly, and every receiver's title
    /// carries the same post-tax component list.
    pub fn create(
        &mut self,
        now: u64,
        payment_type: PaymentType,
        name: Vec<u8>,
        cancelable: bool,
        receivers: Vec<Vec<u8>>,
        releases: Vec<Release>,
        token: Vec<u8>,
        nonce: u64,
        amount: u128,
        caller: Vec<u8>,
    ) -> (res: Result<CreateOutcome, PaymentError>)
        requires
            old(self).wf(),
            old(self).last_id + receivers@.len() <= u64::MAX,
        ensures
            final(self).wf(),
            final(self).payment_token_id == old(self).payment_token_id,
            final(self).cancel_token_id == old(self).cancel_token_id,
            final(self).fee == old(self).fee,
            final(self).cancel_list == old(self).cancel_list,
            res is Err ==> *final(self) == *old(self) && spec_create_error(
                releases@,
                receivers@.len() as int,
                now,
                old(self).fee,
                amount,
            ) == Some(res->Err_0),
            res is Ok ==> spec_create_error(
                releases@,
                receivers@.len() as int,
                now,
                old(self).fee,
                amount,
            ) is None && final(self).last_id == old(self).last_id + receivers@.len(),
            res matches Ok(out) ==> {
                let n = receivers@.len() as int;
                let fee = old(self).fee;
                let built = spec_built_releases(releases@, fee, n);
                let total_post_tax = spec_total_post_tax(releases@, fee, n);
                &&& out.tax == amount - total_post_tax
                &&& out.tax + total_post_tax == amount
                &&& 0 <= total_post_tax <= amount
                &&& out.payments@.len() == receivers@.len()
                &&& (forall|j: int|
                    0 <= j < receivers@.len() ==> {
                        let p = #[trigger] out.payments@[j];
                        &&& p.version == 2u8
                        &&& p.payment_type == payment_type
                        &&& p.identifier == old(self).last_id + 1 + j
                        &&& p.name@ == name@
                        &&& spec_is_window_start(p.start_date, releases@)
                        &&& spec_is_window_end(p.end_date, releases@)
                        &&& p.release_token@ == token@
                        &&& p.release_nonce == nonce
                        &&& p.creator@ == caller@
                        &&& p.amount == total_post_tax
                        &&& p.cancelable == cancelable
                        &&& p.releases@ == built
                        &&& payment_wf(p)
                    })
                &&& (cancelable ==> out.cancellations@.len() == receivers@.len() && (forall|j: int|
                    0 <= j < receivers@.len() ==> {
                        let c = #[trigger] out.cancellations@[j];
                        &&& c.payment_identifier == old(self).last_id + 1 + j
                        &&& c.release_token@ == token@
                        &&& c.release_nonce == nonce
                        &&& c.releases@ == built
                        &&& cancellation_wf(c)
                    }))
                &&& (!cancelable ==> out.cancellations@.len() == 0)
            },
    {
        let ghost rs = releases@;
        let ghost n_spec = receivers@.len() as int;
        if releases.len() == 0 {
            return Err(PaymentError::NoReleases);
        }
        if receivers.len() == 0 {
            return Err(PaymentError::NoReceivers);
        }
        let fee = self.fee;
        let receiver_count = receivers.len();
        let rc128 = receiver_count as u128;

        // the title window: earliest start, latest end, over the raw batch
        let n = releases.len();
        let mut start_date = releases[0].start_date;
        let mut end_date = releases[0].end_date;
        let mut w: usize = 1;
        while w < n
            invariant
                n == rs.len(),
                1 <= w <= n,
                rs == releases@,
                exists|t: int| 0 <= t < w && (#[trigger] rs[t]).start_date == start_date,
                forall|t: int| 0 <= t < w ==> start_date <= (#[trigger] rs[t]).start_date,
                exists|t: int| 0 <= t < w && (#[trigger] rs[t]).end_date == end_date,
                forall|t: int| 0 <= t < w ==> end_date >= (#[trigger] rs[t]).end_date,
            decreases n - w,
        {
            if releases[w].start_date < start_date {
                start_date = releases[w].start_date;
            }
            if releases[w].end_date > end_date {
                end_date = releases[w].end_date;
            }
            w = w + 1;
        }

        // validate every request, in order, and build the component list
        let mut payment_releases: Vec<Release> = Vec::new();
        let mut total_amount: u128 = 0;
        let mut total_amount_post_tax: u128 = 0;
        let mut amount_overflow = false;
        let mut post_tax_overflow = false;
        let mut i: usize = 0;
        proof {
            assert(rs.skip(0) =~= rs);
            assert(rs.take(0) =~= Seq::<Release>::empty());
            assert(spec_built_releases(rs.take(0), fee, n_spec) =~= Seq::<Release>::empty());
        }
        while i < n
            invariant
                n == rs.len(),
                0 <= i <= n,
                rs == releases@,
                n_spec == receivers@.len() as int,
                1 <= n_spec,
                receiver_count == receivers@.len(),
                rc128 == receiver_count as u128,
                fee == old(self).fee,
                fee <= FEE_DENOMINATOR,
                forall|t: int|
                    0 <= t < i ==> request_valid(#[trigger] rs[t], now) && !spec_rate_too_low(
                        rs[t],
                        fee,
                        n_spec,
                        amount,
                    ),
                spec_first_request_error(rs, now, fee, n_spec, amount)
                    == spec_first_request_error(rs.skip(i as int), now, fee, n_spec, amount),
                payment_releases@ == spec_built_releases(rs.take(i as int), fee, n_spec),
                !amount_overflow ==> total_amount == spec_sum_amounts(rs.take(i as int)),
                amount_overflow ==> spec_sum_amounts(rs.take(i as int)) > u128::MAX,
                !post_tax_overflow ==> total_amount_post_tax == spec_total_post_tax(
                    rs.take(i as int),
                    fee,
                    n_spec,
                ),
                post_tax_overflow ==> spec_total_post_tax(rs.take(i as int), fee, n_spec)
                    > u128::MAX,
            decreases n - i,
        {
            let ghost k = i as int;
            proof {
                assert(rs.skip(k)[0] == rs[k]);
            }
            let release_request = releases[i];
            if release_request.end_date <= release_request.start_date {
                proof {
                    assert(request_error(rs[k], now) == Some(PaymentError::EndNotAfterStart));
                }
                return Err(PaymentError::EndNotAfterStart);
            }
            if release_request.interval_seconds < 1 || release_request.interval_seconds
                > MAX_INTERVAL_SECONDS {
                proof {
                    assert(request_error(rs[k], now) == Some(PaymentError::InvalidInterval));
                }
                return Err(PaymentError::InvalidInterval);
            }
            if release_request.start_date < now {
                proof {
                    assert(request_error(rs[k], now) == Some(PaymentError::StartInPast));
                }
                return Err(PaymentError::StartInPast);
            }
            if (release_request.end_date - release_request.start_date)
                % release_request.interval_seconds != 0 {
                proof {
                    assert(request_error(rs[k], now) == Some(PaymentError::IntervalNotAligned));
                }
                return Err(PaymentError::IntervalNotAligned);
            }
            proof {
                assert(request_error(rs[k], now) is None);
                assert(request_valid(rs[k], now));
                lemma_request_arith(rs[k], fee, n_spec, now);
            }
            let a = release_request.amount;
            let fd: u128 = FEE_DENOMINATOR as u128;
            let kfee: u128 = (FEE_DENOMINATOR - fee) as u128;
            proof {
                lemma_mul_div_split(a as int, kfee as int, fd as int);
                vstd::arithmetic::div_mod::lemma_mod_division_less_than_divisor(a as int, fd as int);
                assert(((a as int) % (fd as int)) * (kfee as int) < 1000 * 1001) by (nonlinear_arith)
                    requires
                        0 <= (a as int) % (fd as int) < 1000,
                        0 <= kfee as int <= 1000,
                ;
            }
            let amount_post_tax = (a / fd) * kfee + ((a % fd) * kfee) / fd;
            assert(amount_post_tax == spec_post_tax(a, fee));
            let duration = (release_request.end_date - release_request.start_date) as u128;
            let x = amount_post_tax / duration;
            let y = x / rc128;
            assert(y * (release_request.interval_seconds as int) == spec_per_interval(
                rs[k],
                fee,
                n_spec,
            ));
            let amount_per_interval = y * (release_request.interval_seconds as u128);
            if amount != 1 {
                if amount_per_interval <= 100_000 {
                    proof {
                        assert(spec_rate_too_low(rs[k], fee, n_spec, amount));
                        assert(spec_first_request_error(rs.skip(k), now, fee, n_spec, amount)
                            == Some(PaymentError::RateTooLow));
                    }
                    return Err(PaymentError::RateTooLow);
                }
            }
            proof {
                assert(!spec_rate_too_low(rs[k], fee, n_spec, amount));
                lemma_div_mul_le(x as int, n_spec, n_spec);
            }
            let z = y * rc128;
            assert((z as int) * (duration as int) == spec_recomputed_post_tax(rs[k], fee, n_spec));
            let amount_post_tax_calculated = z * duration;
            // accumulate, tracking overflow: an overflowing requested sum can
            // never match the principal, so it surfaces as a mismatch below
            if total_amount > u128::MAX - a {
                amount_overflow = true;
            } else {
                total_amount = total_amount + a;
            }
            if total_amount_post_tax > u128::MAX - amount_post_tax_calculated {
                post_tax_overflow = true;
            } else {
                total_amount_post_tax = total_amount_post_tax + amount_post_tax_calculated;
            }
            let built = Release {
                amount: amount_per_interval,
                start_date: release_request.start_date,
                end_date: release_request.end_date,
                interval_seconds: release_request.interval_seconds,
            };
            payment_releases.push(built);
            proof {
                assert(built == spec_built_release(rs[k], fee, n_spec));
                assert(rs.take(k).push(rs[k]) =~= rs.take(k + 1));
                lemma_create_sums_push(rs.take(k), rs[k], fee, n_spec);
                assert(spec_built_releases(rs.take(k + 1), fee, n_spec) =~= spec_built_releases(
                    rs.take(k),
                    fee,
                    n_spec,
                ).push(built));
                lemma_first_error_step(rs, k, now, fee, n_spec, amount);
            }
            i = i + 1;
        }
        proof {
            assert(rs.skip(n as int) =~= Seq::<Release>::empty());
            assert(spec_first_request_error(rs, now, fee, n_spec, amount) is None);
            assert(rs.take(n as int) =~= rs);
        }
        if amount_overflow || total_amount != amount {
            proof {
                assert(spec_sum_amounts(rs) != amount);
                assert(spec_create_error(rs, n_spec, now, fee, amount) == Some(
                    PaymentError::AmountMismatch,
                ));
            }
            return Err(PaymentError::AmountMismatch);
        }
        proof {
            assert(spec_sum_amounts(rs) == amount);
            lemma_batch_arith(rs, fee, n_spec, now);
            assert(spec_total_post_tax(rs, fee, n_spec) <= amount);
            assert(!post_tax_overflow);
            assert(releases_wf(payment_releases@));
            assert(releases_value(payment_releases@) <= u128::MAX);
        }
        let tax = amount - total_amount_post_tax;

        // issue one title per receiver, plus its cancellation title when the
        // batch is cancelable
        let mut payments: Vec<Payment> = Vec::new();
        let mut cancellations: Vec<Cancellation> = Vec::new();
        let mut j: usize = 0;
        while j < receiver_count
            invariant
                receiver_count == receivers@.len(),
                0 <= j <= receiver_count,
                n_spec == receivers@.len() as int,
                rs == releases@,
                fee == old(self).fee,
                self.wf(),
                self.fee == old(self).fee,
                self.payment_token_id == old(self).payment_token_id,
                self.cancel_token_id == old(self).cancel_token_id,
                self.cancel_list == old(self).cancel_list,
                self.last_id == old(self).last_id + j,
                old(self).last_id + receiver_count <= u64::MAX,
                payments@.len() == j,
                cancelable ==> cancellations@.len() == j,
                !cancelable ==> cancellations@.len() == 0,
                payment_releases@ == spec_built_releases(rs, fee, n_spec),
                releases_wf(payment_releases@),
                releases_value(payment_releases@) <= u128::MAX,
                total_amount_post_tax == spec_total_post_tax(rs, fee, n_spec),
                spec_is_window_start(start_date, rs),
                spec_is_window_end(end_date, rs),
                forall|t: int|
                    0 <= t < j ==> {
                        let p = #[trigger] payments@[t];
                        &&& p.version == 2u8
                        &&& p.payment_type == payment_type
                        &&& p.identifier == old(self).last_id + 1 + t
                        &&& p.name@ == name@
                        &&& p.start_date == start_date
                        &&& p.end_date == end_date
                        &&& p.release_token@ == token@
                        &&& p.release_nonce == nonce
                        &&& p.creator@ == caller@
                        &&& p.amount == total_amount_post_tax
                        &&& p.cancelable == cancelable
                        &&& p.releases@ == payment_releases@
                    },
                cancelable ==> (forall|t: int|
                    0 <= t < j ==> {
                        let c = #[trigger] cancellations@[t];
                        &&& c.payment_identifier == old(self).last_id + 1 + t
                        &&& c.release_token@ == token@
                        &&& c.release_nonce == nonce
                        &&& c.releases@ == payment_releases@
                    }),
            decreases receiver_count - j,
        {
            let identifier = self.increment_last_id();
            let payment = Payment {
                version: 2u8,
                payment_type,
                identifier,
                name: copy_bytes(&name),
                start_date,
                end_date,
                release_token: copy_bytes(&token),
                release_nonce: nonce,
                creator: copy_bytes(&caller),
                amount: total_amount_post_tax,
                cancelable,
                releases: copy_releases(&payment_releases),
            };
            payments.push(payment);
            if cancelable {
                let cancellation = Cancellation {
                    payment_identifier: identifier,
                    release_token: copy_bytes(&token),
                    release_nonce: nonce,
                    releases: copy_releases(&payment_releases),
                };
                cancellations.push(cancellation);
            }
            j = j + 1;
        }
        Ok(CreateOutcome { tax, payments, cancellations })
    }
}

/// The cancellation ledger after recording every identifier of a batch at
/// time `now`, in presentation order.
pub open spec fn spec_ledger_after(m: Map<u64, u64>, cs: Seq<Cancellation>, now: u64) -> Map<
    u64,
    u64,
>
    decreases cs.len(),
{
    if cs.len() == 0 {
        m
    } else {
        spec_ledger_after(m.insert(cs[0].payment_identifier, now), cs.drop_first(), now)
    }
}

impl PulsarPayment {
    /// Settle one presented cancellation title: record the cancellation
    /// timestamp, and refund the unvested remainder of every component that
    /// is still running.  The presented title is burned by the host whatever
    /// the refund comes to.
    pub fn cancel_internal(&mut self, cancellation: Cancellation, now: u64) -> (refund: u128)
        requires
            cancellation_wf(cancellation),
        ensures
            refund == spec_refund_total(cancellation.releases@, now),
            final(self).cancel_list@ == old(self).cancel_list@.insert(
                cancellation.payment_identifier,
                now,
            ),
            final(self).payment_token_id == old(self).payment_token_id,
            final(self).cancel_token_id == old(self).cancel_token_id,
            final(self).fee == old(self).fee,
            final(self).last_id == old(self).last_id,
    {
        self.cancel_list.insert(cancellation.payment_identifier, now);
        let ghost rs = cancellation.releases@;
        let mut refund: u128 = 0;
        let n = cancellation.releases.len();
        let mut i: usize = 0;
        while i < n
            invariant
                n == rs.len(),
                0 <= i <= n,
                rs == cancellation.releases@,
                releases_wf(rs),
                releases_value(rs) <= u128::MAX,
                refund == spec_refund_total(rs.take(i as int), now),
            decreases n - i,
        {
            let ghost k = i as int;
            let release = cancellation.releases[i];
            proof {
                lemma_release_refund_bounds(release, now);
                lemma_release_units_pos(release);
                lemma_releases_value_bounds(rs);
            }
            if now < release.end_date {
                let current_date_in_interval = if now > release.start_date {
                    aligned_boundary(now, release.start_date, release.interval_seconds)
                } else {
                    release.start_date
                };
                let start_date = if current_date_in_interval > release.start_date {
                    current_date_in_interval
                } else {
                    release.start_date
                };
                assert(start_date == spec_refund_effective_start(release, now));
                let remaining_time = release.end_date - start_date;
                let remaining_units = remaining_time / release.interval_seconds;
                let ghost ru = remaining_units as int;
                proof {
                    vstd::arithmetic::div_mod::lemma_div_is_ordered(
                        remaining_time as int,
                        release.end_date - release.start_date,
                        release.interval_seconds as int,
                    );
                    assert(release.amount * ru <= release_value(release)) by (nonlinear_arith)
                        requires
                            0 <= ru <= release_total_units(release),
                            0 <= release.amount,
                            release_value(release) == release.amount * release_total_units(release),
                    ;
                }
                let remaining_amount: u128 = release.amount * (remaining_units as u128);
                proof {
                    assert(remaining_amount == spec_release_refund(release, now));
                    lemma_releases_wf_subrange(rs, 0, k + 1);
                    lemma_refund_seq_bounds(rs.take(k + 1), now);
                    lemma_releases_value_split(rs, k + 1);
                    lemma_releases_wf_subrange(rs, k + 1, rs.len() as int);
                    lemma_releases_value_bounds(rs.skip(k + 1));
                    lemma_refund_push(rs.take(k), rs[k], now);
                    assert(rs.take(k).push(rs[k]) =~= rs.take(k + 1));
                }
                refund = refund + remaining_amount;
            } else {
                proof {
                    lemma_refund_push(rs.take(k), rs[k], now);
                    assert(rs.take(k).push(rs[k]) =~= rs.take(k + 1));
                }
            }
            i = i + 1;
        }
        proof {
            assert(rs.take(n as int) =~= rs);
        }
        refund
    }

    /// Settle a whole cancellation batch.  Every presented transfer must
    /// carry the cancellation asset; a wrong asset rejects the whole batch
    /// untouched.  Each recorded identifier reads as cancelled at `now` from
    /// then on.
    pub fn cancel(&mut self, now: u64, cancellations: Vec<CancellationTransfer>) -> (res: Result<
        Vec<u128>,
        PaymentError,
    >)
        requires
            forall|i: int|
                0 <= i < cancellations@.len() ==> cancellation_wf(
                    (#[trigger] cancellations@[i]).cancellation,
                ),
        ensures
            res is Ok <==> (forall|i: int|
                0 <= i < cancellations@.len() ==> (#[trigger] cancellations@[i].token_identifier@)
                    == old(self).cancel_token_id@),
            res is Err ==> res->Err_0 == PaymentError::WrongCancellationToken && *final(self)
                == *old(self),
            final(self).payment_token_id == old(self).payment_token_id,
            final(self).cancel_token_id == old(self).cancel_token_id,
            final(self).fee == old(self).fee,
            final(self).last_id == old(self).last_id,
            res matches Ok(refunds) ==> {
                &&& refunds@.len() == cancellations@.len()
                &&& (forall|i: int|
                    0 <= i < cancellations@.len() ==> refunds@[i] == spec_refund_total(
                        (#[trigger] cancellations@[i]).cancellation.releases@,
                        now,
                    ))
                &&& final(self).cancel_list@ == spec_ledger_after(
                    old(self).cancel_list@,
                    cancellations@.map_values(|t: CancellationTransfer| t.cancellation),
                    now,
                )
                &&& (forall|i: int|
                    0 <= i < cancellations@.len() ==> final(self).spec_cancel_date(
                        (#[trigger] cancellations@[i]).cancellation.payment_identifier,
                    ) == now)
            },
    {
        match self.verify_cancellation_token_payments(&cancellations) {
            Err(e) => {
                return Err(e);
            },
            Ok(()) => {},
        }
        let ghost cs = cancellations@.map_values(|t: CancellationTransfer| t.cancellation);
        let ghost target = spec_ledger_after(self.cancel_list@, cs, now);
        proof {
            assert(cs.skip(0) =~= cs);
        }
        let mut refunds: Vec<u128> = Vec::new();
        let n = cancellations.len();
        let mut i: usize = 0;
        while i < n
            invariant
                n == cancellations@.len(),
                0 <= i <= n,
                refunds@.len() == i,
                cs == cancellations@.map_values(|t: CancellationTransfer| t.cancellation),
                forall|j: int|
                    0 <= j < n ==> cancellation_wf((#[trigger] cancellations@[j]).cancellation),
                forall|j: int|
                    0 <= j < i ==> refunds@[j] == spec_refund_total(
                        (#[trigger] cancellations@[j]).cancellation.releases@,
                        now,
                    ),
                forall|j: int|
                    0 <= j < i ==> self.spec_cancel_date(
                        (#[trigger] cancellations@[j]).cancellation.payment_identifier,
                    ) == now,
                spec_ledger_after(self.cancel_list@, cs.skip(i as int), now) == target,
                self.payment_token_id == old(self).payment_token_id,
                self.cancel_token_id == old(self).cancel_token_id,
                self.fee == old(self).fee,
                self.last_id == old(self).last_id,
            decreases n - i,
        {
            let ghost k = i as int;
            let transfer = &cancellations[i];
            let cancellation_copy = Cancellation {
                payment_identifier: transfer.cancellation.payment_identifier,
                release_token: copy_bytes(&transfer.cancellation.release_token),
                release_nonce: transfer.cancellation.release_nonce,
                releases: copy_releases(&transfer.cancellation.releases),
            };
            proof {
                assert(cs.skip(k)[0] == cs[k]);
                assert(cs.skip(k).drop_first() =~= cs.skip(k + 1));
            }
            let refund = self.cancel_internal(cancellation_copy, now);
            refunds.push(refund);
            i = i + 1;
        }
        proof {
            assert(cs.skip(n as int) =~= Seq::<Cancellation>::empty());
        }
        Ok(refunds)
    }
}

/// Copy a component list.
fn copy_releases(v: &Vec<Release>) -> (r: Vec<Release>)
    ensures
        r@ == v@,
{
    let n = v.len();
    let mut r: Vec<Release> = Vec::new();
    let mut i: usize = 0;
    while i < n
        invariant
            n == v@.len(),
            0 <= i <= n,
            r@ == v@.take(i as int),
        decreases n - i,
    {
        r.push(v[i]);
        proof {
            assert(v@.take(i as int).push(v@[i as int]) =~= v@.take(i as int + 1));
        }
        i = i + 1;
    }
    proof {
        assert(v@.take(n as int) =~= v@);
    }
    r
}

} // verus!
