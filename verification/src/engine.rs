//! Compliance engine: stores attestations and derives two independent
//! views of a commitment's health score.
//!
//! The *stored* score starts at 100 and moves by a fixed delta per
//! attestation (violations subtract a severity penalty, other positive
//! attestations add one), clamped to `[0, 100]` after every update. The
//! *recomputed* score is a pure function of the current ledger snapshot
//! alone and never folds in attestation deltas. The two views are expected
//! to diverge; they are deliberately kept separate.

use vstd::prelude::*;
use std::collections::HashMap;
use crate::errors::AttestationError;
use crate::guard::ReentrancyGuard;
use crate::ledger::{Commitment, CommitmentLedger, MAX_LOCKED_AMOUNT};
use crate::types::{AttestationKind, AttestationPayload, Severity};

verus! {

/// A timestamped claim about a commitment's condition, immutable once
/// stored.
#[derive(Clone, Copy, Debug, PartialEq, Eq, Structural)]
pub struct Attestation {
    /// Commitment the claim is about.
    pub commitment_id: u64,
    /// Kind of claim.
    pub attestation_type: AttestationKind,
    /// The payload fields scoring reads.
    pub data: AttestationPayload,
    /// Whether the claim speaks in the commitment's favor.
    pub positive: bool,
    /// Who recorded the claim.
    pub verifier: u64,
    /// When it was recorded.
    pub timestamp: u64,
}

/// Health view of a commitment: ledger snapshot merged with the engine's
/// own stored fields.
#[derive(Clone, Copy, Debug, PartialEq, Eq, Structural)]
pub struct HealthMetrics {
    pub commitment_id: u64,
    pub initial_value: i128,
    pub current_value: i128,
    pub drawdown_percent: u32,
    pub fees_generated: i128,
    pub volatility_exposure: u32,
    pub last_attestation: u64,
    pub compliance_score: u32,
}

/// What the engine persists per commitment; everything else in
/// [`HealthMetrics`] is recomputed from the ledger snapshot at read time.
#[derive(Clone, Copy, Debug, PartialEq, Eq, Structural)]
pub struct StoredHealthRecord {
    /// Accumulated fees recorded for the commitment.
    pub fees_generated: i128,
    /// Incrementally updated score, always in `[0, 100]`.
    pub compliance_score: u32,
    /// Time of the latest attestation, 0 before the first.
    pub last_attestation: u64,
    /// Display-only drawdown override, distinct from the computed value.
    pub drawdown_percent: u32,
}

/// The record an untouched commitment is treated as having: score 100,
/// nothing accumulated.
pub open spec fn default_record() -> StoredHealthRecord {
    StoredHealthRecord {
        fees_generated: 0,
        compliance_score: 100,
        last_attestation: 0,
        drawdown_percent: 0,
    }
}

/// Percentage loss of current value relative to the initial locked amount:
/// 0 when the amount is zero or value has not fallen, else
/// `(amount - current) * 100 / amount`.
pub open spec fn spec_drawdown_percent(amount: i128, current: i128) -> int {
    if amount <= 0 {
        0
    } else if current >= amount {
        0
    } else {
        (amount - current) * 100 / (amount as int)
    }
}

/// Clamp a score to `[0, 100]`.
pub open spec fn spec_clamp_score(s: int) -> int {
    if s < 0 {
        0
    } else if s > 100 {
        100
    } else {
        s
    }
}

/// The on-demand score recomputed from a ledger snapshot alone: start at
/// 100, add 10 before expiry, subtract the drawdown excess over the
/// tolerated loss, clamp to `[0, 100]`.
pub open spec fn spec_compliance_score(
    amount: i128,
    current: i128,
    max_loss: u32,
    expires_at: u64,
    now: u64,
) -> int {
    let base: int = if now < expires_at {
        110
    } else {
        100
    };
    let dd = spec_drawdown_percent(amount, current);
    spec_clamp_score(
        if dd > max_loss {
            base - (dd - max_loss)
        } else {
            base
        },
    )
}

/// The recomputed score for a looked-up commitment; an unknown id scores
/// with zero values (the explicit division-by-zero guard).
pub open spec fn spec_score_of_snapshot(c: Option<Commitment>, now: u64) -> int {
    match c {
        Some(c) => spec_compliance_score(
            c.amount,
            c.current_value,
            c.rules.max_loss_percent,
            c.expires_at,
            now,
        ),
        None => 100,
    }
}

/// Penalty a violation's severity carries; absent or unrecognized
/// severities count as medium.
pub open spec fn spec_severity_penalty(sev: Option<Severity>) -> int {
    match sev {
        Some(Severity::Low) => 10,
        Some(Severity::Medium) => 20,
        Some(Severity::High) => 30,
        None => 20,
    }
}

/// The fixed delta one attestation applies to the stored score.
pub open spec fn spec_attest_delta(
    kind: AttestationKind,
    data: AttestationPayload,
    positive: bool,
) -> int {
    if kind is Violation {
        -spec_severity_penalty(data.severity)
    } else if positive {
        1
    } else {
        0
    }
}

/// The attestation `attest` stores.
pub open spec fn spec_attestation(
    caller: u64,
    commitment_id: u64,
    kind: AttestationKind,
    data: AttestationPayload,
    positive: bool,
    now: u64,
) -> Attestation {
    Attestation {
        commitment_id,
        attestation_type: kind,
        data,
        positive,
        verifier: caller,
        timestamp: now,
    }
}

/// Compliance verdict on a snapshot: drawdown within the tolerated loss
/// and no open violation reported by the oracle. Expiry and the fee
/// threshold are deliberately not consulted.
pub open spec fn spec_verify_compliance(c: Option<Commitment>, violation_flag: bool) -> bool {
    match c {
        Some(c) => spec_drawdown_percent(c.amount, c.current_value)
            <= c.rules.max_loss_percent && !violation_flag,
        None => !violation_flag,
    }
}

/// The attestations about one commitment, oldest first.
pub open spec fn spec_filter_attestations(s: Seq<Attestation>, id: u64) -> Seq<Attestation>
    decreases s.len(),
{
    if s.len() == 0 {
        Seq::empty()
    } else {
        let rest = spec_filter_attestations(s.drop_last(), id);
        if s.last().commitment_id == id {
            rest.push(s.last())
        } else {
            rest
        }
    }
}

/// Drawdown percent of a snapshot, as executable code.
pub fn drawdown_percent(amount: i128, current: i128) -> (r: u32)
    requires
        amount <= MAX_LOCKED_AMOUNT,
        current >= 0,
    ensures
        r == spec_drawdown_percent(amount, current),
        r <= 100,
{
    if amount <= 0 {
        0
    } else if current >= amount {
        0
    } else {
        let diff = amount - current;
        proof {
            assert(diff * 100 <= amount * 100) by (nonlinear_arith)
                requires
                    diff <= amount,
            ;
            assert(diff * 100 / (amount as int) <= 100) by (nonlinear_arith)
                requires
                    amount > 0,
                    diff * 100 <= amount * 100,
            ;
            assert(diff * 100 / (amount as int) >= 0) by (nonlinear_arith)
                requires
                    amount > 0,
                    diff >= 0,
            ;
        }
        (diff * 100 / amount) as u32
    }
}

/// The recomputed compliance score, as executable code.
pub fn compute_compliance_score(
    amount: i128,
    current: i128,
    max_loss: u32,
    expires_at: u64,
    now: u64,
) -> (r: u32)
    requires
        amount <= MAX_LOCKED_AMOUNT,
        current >= 0,
    ensures
        r == spec_compliance_score(amount, current, max_loss, expires_at, now),
        r <= 100,
{
    let base: i64 = if now < expires_at {
        110
    } else {
        100
    };
    let dd = drawdown_percent(amount, current);
    let s: i64 = if dd > max_loss {
        base - (dd as i64 - max_loss as i64)
    } else {
        base
    };
    if s < 0 {
        0
    } else if s > 100 {
        100
    } else {
        s as u32
    }
}

/// The compliance engine. Owns its attestation log, per-commitment stored
/// records, verifier list and fee bookkeeping; reads ledger snapshots
/// passed in by the caller.
pub struct AttestationEngineContract {
    admin: Option<u64>,
    core_contract: Option<u64>,
    verifiers: Vec<u64>,
    attestations: Vec<Attestation>,
    metrics: HashMap<u64, StoredHealthRecord>,
    attestation_fee: i128,
    fee_asset: Option<u64>,
    fee_recipient: Option<u64>,
    collected_fees: HashMap<u64, i128>,
    /// Reentrancy guard wrapping the mutating entry points.
    pub guard: ReentrancyGuard,
}

impl AttestationEngineContract {
    /// Whether the reentrancy guard is currently held.
    pub closed spec fn guard_held(self) -> bool {
        self.guard.is_held()
    }

    /// The configured admin, if initialized.
    pub closed spec fn admin_id(self) -> Option<u64> {
        self.admin
    }

    /// The linked ledger contract, if initialized.
    pub closed spec fn core_id(self) -> Option<u64> {
        self.core_contract
    }

    /// Registered verifiers, in registration order.
    pub closed spec fn verifiers_seq(self) -> Seq<u64> {
        self.verifiers@
    }

    /// The full attestation log, oldest first.
    pub closed spec fn attestations_seq(self) -> Seq<Attestation> {
        self.attestations@
    }

    /// The persisted per-commitment records.
    pub closed spec fn metrics_map(self) -> Map<u64, StoredHealthRecord> {
        self.metrics@
    }

    /// The configured attestation fee.
    pub closed spec fn fee_config(self) -> (i128, Option<u64>) {
        (self.attestation_fee, self.fee_asset)
    }

    /// The configured fee recipient.
    pub closed spec fn fee_recipient_id(self) -> Option<u64> {
        self.fee_recipient
    }

    /// Fees collected so far, per asset.
    pub closed spec fn collected_map(self) -> Map<u64, i128> {
        self.collected_fees@
    }

    /// The stored record for a commitment, defaulted if untouched.
    pub open spec fn stored_record(self, id: u64) -> StoredHealthRecord {
        if self.metrics_map().contains_key(id) {
            self.metrics_map()[id]
        } else {
            default_record()
        }
    }

    /// The stored running score (100 before any attestation).
    pub open spec fn stored_score(self, id: u64) -> u32 {
        self.stored_record(id).compliance_score
    }

    /// Accumulated fees recorded for a commitment.
    pub open spec fn stored_fees(self, id: u64) -> i128 {
        self.stored_record(id).fees_generated
    }

    /// Time of the latest attestation (0 before the first).
    pub open spec fn stored_last_attestation(self, id: u64) -> u64 {
        self.stored_record(id).last_attestation
    }

    /// Whether `v` is a registered verifier.
    pub open spec fn is_verifier(self, v: u64) -> bool {
        self.verifiers_seq().contains(v)
    }

    /// Whether `caller` may record attestations and fees.
    pub open spec fn is_authorized(self, caller: u64) -> bool {
        self.admin_id() == Some(caller) || self.is_verifier(caller)
    }

    /// The attestations about one commitment, oldest first.
    pub open spec fn attestations_for(self, id: u64) -> Seq<Attestation> {
        spec_filter_attestations(self.attestations_seq(), id)
    }

    /// Everything persisted, compared; the guard flag is not part of it.
    pub open spec fn same_records(a: Self, b: Self) -> bool {
        &&& a.admin_id() == b.admin_id()
        &&& a.core_id() == b.core_id()
        &&& a.verifiers_seq() == b.verifiers_seq()
        &&& a.attestations_seq() == b.attestations_seq()
        &&& a.metrics_map() == b.metrics_map()
        &&& a.fee_config() == b.fee_config()
        &&& a.fee_recipient_id() == b.fee_recipient_id()
        &&& a.collected_map() == b.collected_map()
    }

    /// Every stored score sits in `[0, 100]` and collected fees are
    /// non-negative.
    pub open spec fn wf(self) -> bool {
        &&& forall|id: u64|
            self.metrics_map().contains_key(id) ==> (#[trigger] self.metrics_map()[id]).compliance_score <= 100
        &&& forall|a: u64|
            self.collected_map().contains_key(a) ==> (#[trigger] self.collected_map()[a]) >= 0
    }

    /// A fresh, uninitialized engine.
    pub fn new() -> (e: AttestationEngineContract)
        ensures
            e.wf(),
            e.admin_id() is None,
            e.core_id() is None,
            e.verifiers_seq() == Seq::<u64>::empty(),
            e.attestations_seq() == Seq::<Attestation>::empty(),
            e.metrics_map() == Map::<u64, StoredHealthRecord>::empty(),
            e.fee_config() == (0int as i128, None::<u64>),
            e.fee_recipient_id() is None,
            e.collected_map() == Map::<u64, i128>::empty(),
            !e.guard_held(),
    {
        AttestationEngineContract {
            admin: None,
            core_contract: None,
            verifiers: Vec::new(),
            attestations: Vec::new(),
            metrics: HashMap::new(),
            attestation_fee: 0,
            fee_asset: None,
            fee_recipient: None,
            collected_fees: HashMap::new(),
            guard: ReentrancyGuard::new(),
        }
    }

    /// Configure admin and ledger once; a second call fails
    /// `AlreadyInitialized` and changes nothing.
    pub fn initialize(&mut self, admin: u64, core_contract: u64) -> (r: Result<
        (),
        AttestationError,
    >)
        ensures
            old(self).admin_id() is Some ==> r == Err::<(), AttestationError>(
                AttestationError::AlreadyInitialized,
            ) && *final(self) == *old(self),
            old(self).admin_id() is None ==> {
                &&& r == Ok::<(), AttestationError>(())
                &&& final(self).admin_id() == Some(admin)
                &&& final(self).core_id() == Some(core_contract)
            },
            final(self).verifiers_seq() == old(self).verifiers_seq(),
            final(self).attestations_seq() == old(self).attestations_seq(),
            final(self).metrics_map() == old(self).metrics_map(),
            final(self).fee_config() == old(self).fee_config(),
            final(self).fee_recipient_id() == old(self).fee_recipient_id(),
            final(self).collected_map() == old(self).collected_map(),
            final(self).guard_held() == old(self).guard_held(),
            final(self).wf() == old(self).wf(),
    {
        if self.admin.is_some() {
            return Err(AttestationError::AlreadyInitialized);
        }
        self.admin = Some(admin);
        self.core_contract = Some(core_contract);
        Ok(())
    }

    /// The admin, or `NotInitialized`.
    pub fn get_admin(&self) -> (r: Result<u64, AttestationError>)
        ensures
            match self.admin_id() {
                Some(a) => r == Ok::<u64, AttestationError>(a),
                None => r == Err::<u64, AttestationError>(AttestationError::NotInitialized),
            },
    {
        match self.admin {
            Some(a) => Ok(a),
            None => Err(AttestationError::NotInitialized),
        }
    }

    /// The linked ledger contract, or `NotInitialized`.
    pub fn get_core_contract(&self) -> (r: Result<u64, AttestationError>)
        ensures
            match self.core_id() {
                Some(c) => r == Ok::<u64, AttestationError>(c),
                None => r == Err::<u64, AttestationError>(AttestationError::NotInitialized),
            },
    {
        match self.core_contract {
            Some(c) => Ok(c),
            None => Err(AttestationError::NotInitialized),
        }
    }

    /// Whether `v` is a registered verifier, as executable code.
    fn verifier_registered(&self, v: u64) -> (r: bool)
        ensures
            r == self.is_verifier(v),
    {
        let n = self.verifiers.len();
        let mut i: usize = 0;
        while i < n
            invariant
                n == self.verifiers@.len(),
                i <= n,
                forall|j: int| 0 <= j < i ==> self.verifiers@[j] != v,
            decreases n - i,
        {
            if self.verifiers[i] == v {
                return true;
            }
            i += 1;
        }
        false
    }

    /// The stored record for a commitment, or the default for an
    /// untouched one.
    fn stored_or_default(&self, commitment_id: u64) -> (r: StoredHealthRecord)
        ensures
            r == self.stored_record(commitment_id),
    {
        match self.metrics.get(&commitment_id) {
            Some(rec) => *rec,
            None => StoredHealthRecord {
                fees_generated: 0,
                compliance_score: 100,
                last_attestation: 0,
                drawdown_percent: 0,
            },
        }
    }

    /// Register a verifier; admin only.
    pub fn add_verifier(&mut self, caller: u64, verifier: u64) -> (r: Result<(), AttestationError>)
        ensures
            old(self).admin_id() is None ==> r == Err::<(), AttestationError>(
                AttestationError::NotInitialized,
            ) && *final(self) == *old(self),
            old(self).admin_id() is Some && old(self).admin_id() != Some(caller) ==> r == Err::<
                (),
                AttestationError,
            >(AttestationError::NotAuthorized) && *final(self) == *old(self),
            old(self).admin_id() == Some(caller) ==> {
                &&& r == Ok::<(), AttestationError>(())
                &&& final(self).verifiers_seq() == old(self).verifiers_seq().push(verifier)
                &&& final(self).is_verifier(verifier)
            },
            final(self).admin_id() == old(self).admin_id(),
            final(self).core_id() == old(self).core_id(),
            final(self).attestations_seq() == old(self).attestations_seq(),
            final(self).metrics_map() == old(self).metrics_map(),
            final(self).fee_config() == old(self).fee_config(),
            final(self).fee_recipient_id() == old(self).fee_recipient_id(),
            final(self).collected_map() == old(self).collected_map(),
            final(self).guard_held() == old(self).guard_held(),
            final(self).wf() == old(self).wf(),
    {
        let admin = match self.admin {
            Some(a) => a,
            None => {
                return Err(AttestationError::NotInitialized);
            },
        };
        if caller != admin {
            return Err(AttestationError::NotAuthorized);
        }
        self.verifiers.push(verifier);
        proof {
            assert(self.verifiers@.last() == verifier);
        }
        Ok(())
    }

    /// Record an attestation and apply its fixed delta to the stored
    /// score, clamped to `[0, 100]`; updates the last-attestation time.
    /// Guarded against reentrancy; authorization-checked before any write.
    pub fn attest(
        &mut self,
        caller: u64,
        commitment_id: u64,
        attestation_type: AttestationKind,
        data: AttestationPayload,
        positive: bool,
        now: u64,
    ) -> (r: Result<(), AttestationError>)
        requires
            old(self).wf(),
        ensures
            final(self).wf(),
            old(self).guard_held() ==> {
                &&& r == Err::<(), AttestationError>(AttestationError::ReentrancyDetected)
                &&& final(self).guard_held()
                &&& Self::same_records(*final(self), *old(self))
            },
            !old(self).guard_held() ==> !final(self).guard_held(),
            !old(self).guard_held() && old(self).admin_id() is None ==> r == Err::<
                (),
                AttestationError,
            >(AttestationError::NotInitialized) && Self::same_records(*final(self), *old(self)),
            !old(self).guard_held() && old(self).admin_id() is Some && !old(self).is_authorized(
                caller,
            ) ==> r == Err::<(), AttestationError>(AttestationError::NotAuthorized)
                && Self::same_records(*final(self), *old(self)),
            !old(self).guard_held() && old(self).admin_id() is Some && old(self).is_authorized(
                caller,
            ) ==> {
                &&& r == Ok::<(), AttestationError>(())
                &&& final(self).attestations_seq() == old(self).attestations_seq().push(
                    spec_attestation(caller, commitment_id, attestation_type, data, positive, now),
                )
                &&& final(self).stored_score(commitment_id) == spec_clamp_score(
                    old(self).stored_score(commitment_id) + spec_attest_delta(
                        attestation_type,
                        data,
                        positive,
                    ),
                )
                &&& final(self).stored_last_attestation(commitment_id) == now
                &&& final(self).stored_fees(commitment_id) == old(self).stored_fees(commitment_id)
                &&& final(self).stored_record(commitment_id).drawdown_percent == old(
                    self,
                ).stored_record(commitment_id).drawdown_percent
                &&& forall|id2: u64|
                    id2 != commitment_id ==> final(self).stored_record(id2) == old(
                        self,
                    ).stored_record(id2)
                &&& final(self).admin_id() == old(self).admin_id()
                &&& final(self).core_id() == old(self).core_id()
                &&& final(self).verifiers_seq() == old(self).verifiers_seq()
                &&& final(self).fee_config() == old(self).fee_config()
                &&& final(self).fee_recipient_id() == old(self).fee_recipient_id()
                &&& final(self).collected_map() == old(self).collected_map()
            },
    {
        if !self.guard.try_acquire() {
            proof {
                assert(self.metrics_map() == old(self).metrics_map());
                assert(self.collected_map() == old(self).collected_map());
                assert(self.wf());
            }
            return Err(AttestationError::ReentrancyDetected);
        }
        if self.admin.is_none() {
            self.guard.release();
            proof {
                assert(self.metrics_map() == old(self).metrics_map());
                assert(self.collected_map() == old(self).collected_map());
                assert(self.wf());
            }
            return Err(AttestationError::NotInitialized);
        }
        let authorized = match self.admin {
            Some(a) => a == caller,
            None => false,
        } || self.verifier_registered(caller);
        if !authorized {
            self.guard.release();
            proof {
                assert(self.metrics_map() == old(self).metrics_map());
                assert(self.collected_map() == old(self).collected_map());
                assert(self.wf());
            }
            return Err(AttestationError::NotAuthorized);
        }
        let old_rec = self.stored_or_default(commitment_id);
        let delta: i64 = if matches!(attestation_type, AttestationKind::Violation) {
            match data.severity {
                Some(Severity::Low) => -10,
                Some(Severity::Medium) => -20,
                Some(Severity::High) => -30,
                None => -20,
            }
        } else if positive {
            1
        } else {
            0
        };
        let s: i64 = old_rec.compliance_score as i64 + delta;
        let clamped: u32 = if s < 0 {
            0
        } else if s > 100 {
            100
        } else {
            s as u32
        };
        self.metrics.insert(
            commitment_id,
            StoredHealthRecord {
                fees_generated: old_rec.fees_generated,
                compliance_score: clamped,
                last_attestation: now,
                drawdown_percent: old_rec.drawdown_percent,
            },
        );
        self.attestations.push(
            Attestation {
                commitment_id,
                attestation_type,
                data,
                positive,
                verifier: caller,
                timestamp: now,
            },
        );
        self.guard.release();
        proof {
            assert(self.collected_map() == old(self).collected_map());
            assert forall|id: u64| self.metrics_map().contains_key(id) implies (
            #[trigger] self.metrics_map()[id]).compliance_score <= 100 by {
                if id != commitment_id {
                    assert(old(self).metrics_map().contains_key(id));
                }
                if old(self).metrics_map().contains_key(id) {
                    assert(old(self).metrics_map()[id].compliance_score <= 100);
                }
            }
            assert(self.wf());
        }
        Ok(())
    }

    /// All attestations recorded for a commitment, oldest first; empty for
    /// an unknown id.
    pub fn get_attestations(&self, commitment_id: u64) -> (r: Vec<Attestation>)
        ensures
            r@ == self.attestations_for(commitment_id),
    {
        let mut out: Vec<Attestation> = Vec::new();
        let n = self.attestations.len();
        let mut i: usize = 0;
        while i < n
            invariant
                n == self.attestations@.len(),
                i <= n,
                out@ == spec_filter_attestations(self.attestations@.take(i as int), commitment_id),
            decreases n - i,
        {
            let a = self.attestations[i];
            proof {
                assert(self.attestations@.take(i as int + 1).drop_last() =~= self.attestations@
                    .take(i as int));
                assert(self.attestations@.take(i as int + 1).last() == self.attestations@[i as int]);
            }
            if a.commitment_id == commitment_id {
                out.push(a);
            }
            i += 1;
        }
        proof {
            assert(self.attestations@.take(n as int) =~= self.attestations@);
        }
        out
    }

    /// The on-demand score recomputed from the current ledger snapshot
    /// only; independent of stored attestation history.
    pub fn calculate_compliance_score(
        &self,
        ledger: &CommitmentLedger,
        commitment_id: u64,
        now: u64,
    ) -> (r: u32)
        requires
            ledger.wf(),
        ensures
            r == spec_score_of_snapshot(ledger.spec_get_commitment(commitment_id), now),
            r <= 100,
    {
        match ledger.get_commitment(commitment_id) {
            Ok(c) => compute_compliance_score(
                c.amount,
                c.current_value,
                c.rules.max_loss_percent,
                c.expires_at,
                now,
            ),
            Err(_) => 100,
        }
    }

    /// True iff the snapshot's drawdown is within the tolerated loss and
    /// the violations oracle reports no open violation. Expiry and the fee
    /// threshold are deliberately not checked.
    pub fn verify_compliance(
        &self,
        ledger: &CommitmentLedger,
        commitment_id: u64,
        violation_flag: bool,
    ) -> (r: bool)
        requires
            ledger.wf(),
        ensures
            r == spec_verify_compliance(ledger.spec_get_commitment(commitment_id), violation_flag),
    {
        if violation_flag {
            return false;
        }
        match ledger.get_commitment(commitment_id) {
            Ok(c) => {
                let dd = drawdown_percent(c.amount, c.current_value);
                dd <= c.rules.max_loss_percent
            },
            Err(_) => true,
        }
    }

    /// Ledger snapshot merged with the engine's stored fields; an unknown
    /// commitment reads as zero values with drawdown 0.
    pub fn get_health_metrics(
        &self,
        ledger: &CommitmentLedger,
        commitment_id: u64,
    ) -> (r: HealthMetrics)
        requires
            ledger.wf(),
        ensures
            r.commitment_id == commitment_id,
            r.initial_value == match ledger.spec_get_commitment(commitment_id) {
                Some(c) => c.amount,
                None => 0,
            },
            r.current_value == match ledger.spec_get_commitment(commitment_id) {
                Some(c) => c.current_value,
                None => 0,
            },
            r.drawdown_percent == match ledger.spec_get_commitment(commitment_id) {
                Some(c) => spec_drawdown_percent(c.amount, c.current_value),
                None => 0,
            },
            r.fees_generated == self.stored_fees(commitment_id),
            r.volatility_exposure == 0,
            r.last_attestation == self.stored_last_attestation(commitment_id),
            r.compliance_score == self.stored_score(commitment_id),
    {
        let (initial_value, current_value, dd) = match ledger.get_commitment(commitment_id) {
            Ok(c) => (c.amount, c.current_value, drawdown_percent(c.amount, c.current_value)),
            Err(_) => (0, 0, 0),
        };
        let rec = self.stored_or_default(commitment_id);
        HealthMetrics {
            commitment_id,
            initial_value,
            current_value,
            drawdown_percent: dd,
            fees_generated: rec.fees_generated,
            volatility_exposure: 0,
            last_attestation: rec.last_attestation,
            compliance_score: rec.compliance_score,
        }
    }

    /// The stored record alone, as a metrics view; `None` until something
    /// has been recorded for the commitment. Snapshot-derived fields read
    /// as zero, drawdown as the display-only override.
    pub fn get_stored_health_metrics(&self, commitment_id: u64) -> (r: Option<HealthMetrics>)
        ensures
            match r {
                Some(m) => {
                    &&& self.metrics_map().contains_key(commitment_id)
                    &&& m.commitment_id == commitment_id
                    &&& m.initial_value == 0
                    &&& m.current_value == 0
                    &&& m.drawdown_percent == self.stored_record(commitment_id).drawdown_percent
                    &&& m.fees_generated == self.stored_fees(commitment_id)
                    &&& m.volatility_exposure == 0
                    &&& m.last_attestation == self.stored_last_attestation(commitment_id)
                    &&& m.compliance_score == self.stored_score(commitment_id)
                },
                None => !self.metrics_map().contains_key(commitment_id),
            },
    {
        match self.metrics.get(&commitment_id) {
            Some(rec) => Some(
                HealthMetrics {
                    commitment_id,
                    initial_value: 0,
                    current_value: 0,
                    drawdown_percent: rec.drawdown_percent,
                    fees_generated: rec.fees_generated,
                    volatility_exposure: 0,
                    last_attestation: rec.last_attestation,
                    compliance_score: rec.compliance_score,
                },
            ),
            None => None,
        }
    }

    /// Accumulate fees recorded for a commitment; fails `InvalidAmount` on
    /// a non-positive amount or if accumulation would leave the machine
    /// range. Authorization-checked before any write.
    pub fn record_fees(&mut self, caller: u64, commitment_id: u64, amount: i128) -> (r: Result<
        (),
        AttestationError,
    >)
        requires
            old(self).wf(),
        ensures
            final(self).wf(),
            final(self).guard_held() == old(self).guard_held(),
            old(self).admin_id() is None ==> r == Err::<(), AttestationError>(
                AttestationError::NotInitialized,
            ) && Self::same_records(*final(self), *old(self)),
            old(self).admin_id() is Some && !old(self).is_authorized(caller) ==> r == Err::<
                (),
                AttestationError,
            >(AttestationError::NotAuthorized) && Self::same_records(*final(self), *old(self)),
            old(self).admin_id() is Some && old(self).is_authorized(caller) && (amount <= 0
                || old(self).stored_fees(commitment_id) + amount > i128::MAX) ==> r == Err::<
                (),
                AttestationError,
            >(AttestationError::InvalidAmount) && Self::same_records(*final(self), *old(self)),
            old(self).admin_id() is Some && old(self).is_authorized(caller) && amount > 0 && old(
                self,
            ).stored_fees(commitment_id) + amount <= i128::MAX ==> {
                &&& r == Ok::<(), AttestationError>(())
                &&& final(self).stored_fees(commitment_id) == old(self).stored_fees(commitment_id)
                    + amount
                &&& final(self).stored_score(commitment_id) == old(self).stored_score(
                    commitment_id,
                )
                &&& final(self).stored_last_attestation(commitment_id) == old(
                    self,
                ).stored_last_attestation(commitment_id)
                &&& forall|id2: u64|
                    id2 != commitment_id ==> final(self).stored_record(id2) == old(
                        self,
                    ).stored_record(id2)
                &&& final(self).attestations_seq() == old(self).attestations_seq()
                &&& final(self).admin_id() == old(self).admin_id()
                &&& final(self).core_id() == old(self).core_id()
                &&& final(self).verifiers_seq() == old(self).verifiers_seq()
                &&& final(self).fee_config() == old(self).fee_config()
                &&& final(self).fee_recipient_id() == old(self).fee_recipient_id()
                &&& final(self).collected_map() == old(self).collected_map()
            },
    {
        if self.admin.is_none() {
            return Err(AttestationError::NotInitialized);
        }
        let authorized = match self.admin {
            Some(a) => a == caller,
            None => false,
        } || self.verifier_registered(caller);
        if !authorized {
            return Err(AttestationError::NotAuthorized);
        }
        if amount <= 0 {
            return Err(AttestationError::InvalidAmount);
        }
        let old_rec = self.stored_or_default(commitment_id);
        if old_rec.fees_generated > i128::MAX - amount {
            return Err(AttestationError::InvalidAmount);
        }
        self.metrics.insert(
            commitment_id,
            StoredHealthRecord {
                fees_generated: old_rec.fees_generated + amount,
                compliance_score: old_rec.compliance_score,
                last_attestation: old_rec.last_attestation,
                drawdown_percent: old_rec.drawdown_percent,
            },
        );
        proof {
            assert(self.collected_map() == old(self).collected_map());
            assert forall|id: u64| self.metrics_map().contains_key(id) implies (
            #[trigger] self.metrics_map()[id]).compliance_score <= 100 by {
                if id != commitment_id {
                    assert(old(self).metrics_map().contains_key(id));
                }
                if old(self).metrics_map().contains_key(id) {
                    assert(old(self).metrics_map()[id].compliance_score <= 100);
                }
            }
            assert(self.wf());
        }
        Ok(())
    }

    /// Store the display-only drawdown override, distinct from the
    /// computed value used in scoring.
    pub fn record_drawdown(&mut self, caller: u64, commitment_id: u64, percent: u32) -> (r: Result<
        (),
        AttestationError,
    >)
        requires
            old(self).wf(),
        ensures
            final(self).wf(),
            final(self).guard_held() == old(self).guard_held(),
            old(self).admin_id() is None ==> r == Err::<(), AttestationError>(
                AttestationError::NotInitialized,
            ) && Self::same_records(*final(self), *old(self)),
            old(self).admin_id() is Some && !old(self).is_authorized(caller) ==> r == Err::<
                (),
                AttestationError,
            >(AttestationError::NotAuthorized) && Self::same_records(*final(self), *old(self)),
            old(self).admin_id() is Some && old(self).is_authorized(caller) ==> {
                &&& r == Ok::<(), AttestationError>(())
                &&& final(self).stored_record(commitment_id).drawdown_percent == percent
                &&& final(self).stored_fees(commitment_id) == old(self).stored_fees(commitment_id)
                &&& final(self).stored_score(commitment_id) == old(self).stored_score(
                    commitment_id,
                )
                &&& final(self).stored_last_attestation(commitment_id) == old(
                    self,
                ).stored_last_attestation(commitment_id)
                &&& forall|id2: u64|
                    id2 != commitment_id ==> final(self).stored_record(id2) == old(
                        self,
                    ).stored_record(id2)
                &&& final(self).attestations_seq() == old(self).attestations_seq()
            },
    {
        if self.admin.is_none() {
            return Err(AttestationError::NotInitialized);
        }
        let authorized = match self.admin {
            Some(a) => a == caller,
            None => false,
        } || self.verifier_registered(caller);
        if !authorized {
            return Err(AttestationError::NotAuthorized);
        }
        let old_rec = self.stored_or_default(commitment_id);
        self.metrics.insert(
            commitment_id,
            StoredHealthRecord {
                fees_generated: old_rec.fees_generated,
                compliance_score: old_rec.compliance_score,
                last_attestation: old_rec.last_attestation,
                drawdown_percent: percent,
            },
        );
        proof {
            assert(self.collected_map() == old(self).collected_map());
            assert forall|id: u64| self.metrics_map().contains_key(id) implies (
            #[trigger] self.metrics_map()[id]).compliance_score <= 100 by {
                if id != commitment_id {
                    assert(old(self).metrics_map().contains_key(id));
                }
                if old(self).metrics_map().contains_key(id) {
                    assert(old(self).metrics_map()[id].compliance_score <= 100);
                }
            }
            assert(self.wf());
        }
        Ok(())
    }

    /// Configure the attestation fee; admin only.
    pub fn set_attestation_fee(&mut self, caller: u64, amount: i128, asset: u64) -> (r: Result<
        (),
        AttestationError,
    >)
        ensures
            old(self).admin_id() is None ==> r == Err::<(), AttestationError>(
                AttestationError::NotInitialized,
            ) && *final(self) == *old(self),
            old(self).admin_id() is Some && old(self).admin_id() != Some(caller) ==> r == Err::<
                (),
                AttestationError,
            >(AttestationError::NotAuthorized) && *final(self) == *old(self),
            old(self).admin_id() == Some(caller) ==> r == Ok::<(), AttestationError>(())
                && final(self).fee_config() == (amount, Some(asset)),
            final(self).admin_id() == old(self).admin_id(),
            final(self).metrics_map() == old(self).metrics_map(),
            final(self).collected_map() == old(self).collected_map(),
            final(self).fee_recipient_id() == old(self).fee_recipient_id(),
            final(self).wf() == old(self).wf(),
            final(self).guard_held() == old(self).guard_held(),
    {
        let admin = match self.admin {
            Some(a) => a,
            None => {
                return Err(AttestationError::NotInitialized);
            },
        };
        if caller != admin {
            return Err(AttestationError::NotAuthorized);
        }
        self.attestation_fee = amount;
        self.fee_asset = Some(asset);
        Ok(())
    }

    /// The configured attestation fee: 0 and no asset before any
    /// configuration.
    pub fn get_attestation_fee(&self) -> (r: (i128, Option<u64>))
        ensures
            r == self.fee_config(),
    {
        (self.attestation_fee, self.fee_asset)
    }

    /// Configure where withdrawn fees go; admin only.
    pub fn set_fee_recipient(&mut self, caller: u64, recipient: u64) -> (r: Result<
        (),
        AttestationError,
    >)
        ensures
            old(self).admin_id() is None ==> r == Err::<(), AttestationError>(
                AttestationError::NotInitialized,
            ) && *final(self) == *old(self),
            old(self).admin_id() is Some && old(self).admin_id() != Some(caller) ==> r == Err::<
                (),
                AttestationError,
            >(AttestationError::NotAuthorized) && *final(self) == *old(self),
            old(self).admin_id() == Some(caller) ==> r == Ok::<(), AttestationError>(())
                && final(self).fee_recipient_id() == Some(recipient),
            final(self).admin_id() == old(self).admin_id(),
            final(self).metrics_map() == old(self).metrics_map(),
            final(self).collected_map() == old(self).collected_map(),
            final(self).fee_config() == old(self).fee_config(),
            final(self).wf() == old(self).wf(),
            final(self).guard_held() == old(self).guard_held(),
    {
        let admin = match self.admin {
            Some(a) => a,
            None => {
                return Err(AttestationError::NotInitialized);
            },
        };
        if caller != admin {
            return Err(AttestationError::NotAuthorized);
        }
        self.fee_recipient = Some(recipient);
        Ok(())
    }

    /// The configured fee recipient, if any.
    pub fn get_fee_recipient(&self) -> (r: Option<u64>)
        ensures
            r == self.fee_recipient_id(),
    {
        self.fee_recipient
    }

    /// Fees collected so far for an asset; 0 before any collection.
    pub fn get_collected_fees(&self, asset: u64) -> (r: i128)
        ensures
            r == if self.collected_map().contains_key(asset) {
                self.collected_map()[asset]
            } else {
                0
            },
    {
        match self.collected_fees.get(&asset) {
            Some(v) => *v,
            None => 0,
        }
    }

    /// Withdraw collected fees to the configured recipient; admin only.
    /// Fails `NoFeeRecipient` until a recipient is configured and
    /// `InvalidAmount` unless `0 < amount <=` the collected balance.
    pub fn withdraw_fees(&mut self, caller: u64, asset: u64, amount: i128) -> (r: Result<
        u64,
        AttestationError,
    >)
        requires
            old(self).wf(),
        ensures
            final(self).wf(),
            final(self).guard_held() == old(self).guard_held(),
            old(self).admin_id() is None ==> r == Err::<u64, AttestationError>(
                AttestationError::NotInitialized,
            ) && *final(self) == *old(self),
            old(self).admin_id() is Some && old(self).admin_id() != Some(caller) ==> r == Err::<
                u64,
                AttestationError,
            >(AttestationError::NotAuthorized) && *final(self) == *old(self),
            old(self).admin_id() == Some(caller) && old(self).fee_recipient_id() is None ==> r
                == Err::<u64, AttestationError>(AttestationError::NoFeeRecipient) && *final(self)
                == *old(self),
            old(self).admin_id() == Some(caller) && old(self).fee_recipient_id() is Some && !(0
                < amount <= old(self).spec_collected(asset)) ==> r == Err::<u64, AttestationError>(
                AttestationError::InvalidAmount,
            ) && *final(self) == *old(self),
            old(self).admin_id() == Some(caller) && old(self).fee_recipient_id() is Some && 0
                < amount <= old(self).spec_collected(asset) ==> {
                &&& r == Ok::<u64, AttestationError>(old(self).fee_recipient_id().unwrap())
                &&& final(self).spec_collected(asset) == old(self).spec_collected(asset) - amount
                &&& forall|a2: u64|
                    a2 != asset ==> final(self).spec_collected(a2) == old(self).spec_collected(a2)
                &&& final(self).metrics_map() == old(self).metrics_map()
                &&& final(self).attestations_seq() == old(self).attestations_seq()
                &&& final(self).admin_id() == old(self).admin_id()
                &&& final(self).fee_recipient_id() == old(self).fee_recipient_id()
                &&& final(self).fee_config() == old(self).fee_config()
            },
    {
        let admin = match self.admin {
            Some(a) => a,
            None => {
                return Err(AttestationError::NotInitialized);
            },
        };
        if caller != admin {
            return Err(AttestationError::NotAuthorized);
        }
        let recipient = match self.fee_recipient {
            Some(t) => t,
            None => {
                return Err(AttestationError::NoFeeRecipient);
            },
        };
        let collected = match self.collected_fees.get(&asset) {
            Some(v) => *v,
            None => 0,
        };
        if amount <= 0 || amount > collected {
            return Err(AttestationError::InvalidAmount);
        }
        self.collected_fees.insert(asset, collected - amount);
        proof {
            assert(self.metrics_map() == old(self).metrics_map());
            assert forall|a2: u64| self.collected_map().contains_key(a2) implies (
            #[trigger] self.collected_map()[a2]) >= 0 by {
                if a2 != asset {
                    assert(old(self).collected_map().contains_key(a2));
                    assert(old(self).collected_map()[a2] >= 0);
                }
            }
            assert(self.wf());
        }
        Ok(recipient)
    }

    /// Fees collected so far for an asset, defaulted to 0.
    pub open spec fn spec_collected(self, asset: u64) -> i128 {
        if self.collected_map().contains_key(asset) {
            self.collected_map()[asset]
        } else {
            0
        }
    }
}

} // verus!
