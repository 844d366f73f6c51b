//! Commitment ledger: canonical commitment records and their lifecycle
//! state machine.
//!
//! A commitment is `Active` from creation; `settle` (after expiry) moves it
//! to `Settled` and `early_exit` (any time while active) to `EarlyExit`.
//! Both are terminal: every operation that would transition out of them
//! fails rather than silently succeeding.

use vstd::prelude::*;
use crate::errors::LedgerError;
use crate::types::{CommitmentStatus, CommitmentType};

verus! {

/// Seconds in a day, used to turn a duration in days into an expiry time.
pub const SECONDS_PER_DAY: u64 = 86400;

/// Largest locked amount the ledger accepts (`i128::MAX / 100`). The bound
/// keeps the drawdown computation `(amount - current) * 100 / amount`
/// inside `i128`.
pub const MAX_LOCKED_AMOUNT: i128 = 1701411834604692317316873037158841057;

/// Rule set governing a commitment.
#[derive(Clone, Copy, Debug, PartialEq, Eq, Structural)]
pub struct CommitmentRules {
    /// Lifetime of the commitment in days; must be positive.
    pub duration_days: u32,
    /// Largest tolerated drawdown, in percent.
    pub max_loss_percent: u32,
    /// Risk profile.
    pub commitment_type: CommitmentType,
    /// Penalty taken on voluntary early termination, in percent of the
    /// locked amount.
    pub early_exit_penalty: u32,
    /// Fee threshold carried in the rule set (not consulted by compliance
    /// verification, by design).
    pub min_fee_threshold: i128,
    /// Grace period carried in the rule set.
    pub grace_period_days: u32,
}

/// A time-bound value-locking position.
#[derive(Clone, Copy, Debug, PartialEq, Eq, Structural)]
pub struct Commitment {
    /// Ledger-assigned identifier, sequential from 1.
    pub commitment_id: u64,
    /// Owner principal.
    pub owner: u64,
    /// Token minted for this commitment in the ownership registry, once
    /// linked by the host (0 while unlinked).
    pub nft_token_id: u32,
    /// Governing rule set.
    pub rules: CommitmentRules,
    /// Locked amount; positive.
    pub amount: i128,
    /// Asset the amount is denominated in.
    pub asset_address: u64,
    /// Creation time.
    pub created_at: u64,
    /// Expiry time: `created_at + duration_days * 86400`.
    pub expires_at: u64,
    /// Latest reported value; never negative.
    pub current_value: i128,
    /// Lifecycle state.
    pub status: CommitmentStatus,
}

/// The record `create_commitment` stores for a fresh commitment.
pub open spec fn spec_new_commitment(
    id: u64,
    owner: u64,
    amount: i128,
    asset_address: u64,
    rules: CommitmentRules,
    now: u64,
) -> Commitment {
    Commitment {
        commitment_id: id,
        owner,
        nft_token_id: 0,
        rules,
        amount,
        asset_address,
        created_at: now,
        expires_at: (now + rules.duration_days as u64 * SECONDS_PER_DAY) as u64,
        current_value: amount,
        status: CommitmentStatus::Active,
    }
}

/// What `settle` does to the stored records: the new records and the result.
pub open spec fn spec_settle(l: Seq<Commitment>, id: u64, now: u64) -> (Seq<Commitment>, Result<
    (),
    LedgerError,
>) {
    if !(1 <= id && id <= l.len()) {
        (l, Err(LedgerError::NotFound))
    } else {
        let c = l[id as int - 1];
        if c.status != CommitmentStatus::Active {
            (l, Err(LedgerError::AlreadySettled))
        } else if now < c.expires_at {
            (l, Err(LedgerError::NotExpired))
        } else {
            (
                l.update(id as int - 1, Commitment { status: CommitmentStatus::Settled, ..c }),
                Ok(()),
            )
        }
    }
}

/// What `early_exit` does: the new records and the result (the penalty
/// amount on success).
pub open spec fn spec_early_exit(l: Seq<Commitment>, id: u64, owner: u64) -> (Seq<Commitment>, Result<
    i128,
    LedgerError,
>) {
    if !(1 <= id && id <= l.len()) {
        (l, Err(LedgerError::NotFound))
    } else {
        let c = l[id as int - 1];
        if c.owner != owner {
            (l, Err(LedgerError::NotOwner))
        } else if c.status != CommitmentStatus::Active {
            (l, Err(LedgerError::AlreadySettled))
        } else {
            (
                l.update(id as int - 1, Commitment { status: CommitmentStatus::EarlyExit, ..c }),
                Ok((c.amount * c.rules.early_exit_penalty as i128 / 100) as i128),
            )
        }
    }
}

/// Well-formedness of the record stored at index `i`.
pub open spec fn commitment_wf_at(c: Commitment, i: int) -> bool {
    &&& c.commitment_id == i + 1
    &&& 0 < c.amount <= MAX_LOCKED_AMOUNT
    &&& c.current_value >= 0
    &&& c.rules.duration_days >= 1
    &&& c.rules.early_exit_penalty <= 100
    &&& c.expires_at == c.created_at + c.rules.duration_days as u64 * SECONDS_PER_DAY
}

/// The commitment ledger. Records are identified by their position:
/// commitment `id` lives at index `id - 1` and ids are assigned
/// sequentially from 1. Records are never deleted.
pub struct CommitmentLedger {
    admin: Option<u64>,
    nft_contract: Option<u64>,
    commitments: Vec<Commitment>,
}

impl CommitmentLedger {
    /// The stored records, in id order.
    pub closed spec fn commitments_seq(self) -> Seq<Commitment> {
        self.commitments@
    }

    /// The configured admin, if initialized.
    pub closed spec fn admin_id(self) -> Option<u64> {
        self.admin
    }

    /// The linked registry contract, if initialized.
    pub closed spec fn nft_contract_id(self) -> Option<u64> {
        self.nft_contract
    }

    /// The record with the given id, if any.
    pub open spec fn spec_get_commitment(self, id: u64) -> Option<Commitment> {
        if 1 <= id && id <= self.commitments_seq().len() {
            Some(self.commitments_seq()[id as int - 1])
        } else {
            None
        }
    }

    /// Every stored record is well-formed and sits at its own id.
    pub open spec fn wf(self) -> bool {
        forall|i: int|
            0 <= i < self.commitments_seq().len() ==> commitment_wf_at(
                #[trigger] self.commitments_seq()[i],
                i,
            )
    }

    /// An empty, uninitialized ledger.
    pub fn new() -> (l: CommitmentLedger)
        ensures
            l.wf(),
            l.commitments_seq().len() == 0,
            l.admin_id() is None,
            l.nft_contract_id() is None,
    {
        CommitmentLedger { admin: None, nft_contract: None, commitments: Vec::new() }
    }

    /// Configure admin and registry once; a second call fails
    /// `AlreadyInitialized` and changes nothing.
    pub fn initialize(&mut self, admin: u64, nft_contract: u64) -> (r: Result<(), LedgerError>)
        ensures
            final(self).commitments_seq() == old(self).commitments_seq(),
            old(self).admin_id() is Some ==> r == Err::<(), LedgerError>(
                LedgerError::AlreadyInitialized,
            ) && *final(self) == *old(self),
            old(self).admin_id() is None ==> r == Ok::<(), LedgerError>(()) && final(self).admin_id()
                == Some(admin) && final(self).nft_contract_id() == Some(nft_contract),
    {
        if self.admin.is_some() {
            return Err(LedgerError::AlreadyInitialized);
        }
        self.admin = Some(admin);
        self.nft_contract = Some(nft_contract);
        Ok(())
    }

    /// Create a commitment: fails `InvalidAmount` if `amount <= 0` and
    /// `InvalidDuration` if `duration_days == 0`; otherwise stores a fresh
    /// `Active` record expiring `duration_days` days after `now`, with the
    /// locked amount as its initial current value, and returns its id.
    pub fn create_commitment(
        &mut self,
        owner: u64,
        amount: i128,
        asset_address: u64,
        rules: CommitmentRules,
        now: u64,
    ) -> (r: Result<u64, LedgerError>)
        requires
            old(self).wf(),
            // machine limits: expiry must fit the clock's range, the amount
            // and penalty must keep scoring and penalty math inside i128
            now + rules.duration_days as u64 * SECONDS_PER_DAY <= u64::MAX,
            amount <= MAX_LOCKED_AMOUNT,
            rules.early_exit_penalty <= 100,
            old(self).commitments_seq().len() < u64::MAX,
        ensures
            final(self).wf(),
            final(self).admin_id() == old(self).admin_id(),
            final(self).nft_contract_id() == old(self).nft_contract_id(),
            r is Err ==> final(self).commitments_seq() == old(self).commitments_seq(),
            amount <= 0 ==> r == Err::<u64, LedgerError>(LedgerError::InvalidAmount),
            amount > 0 && rules.duration_days == 0 ==> r == Err::<u64, LedgerError>(
                LedgerError::InvalidDuration,
            ),
            amount > 0 && rules.duration_days > 0 ==> {
                let id = (old(self).commitments_seq().len() + 1) as u64;
                &&& r == Ok::<u64, LedgerError>(id)
                &&& final(self).commitments_seq() == old(self).commitments_seq().push(
                    spec_new_commitment(id, owner, amount, asset_address, rules, now),
                )
            },
    {
        if amount <= 0 {
            return Err(LedgerError::InvalidAmount);
        }
        if rules.duration_days == 0 {
            return Err(LedgerError::InvalidDuration);
        }
        let id = self.commitments.len() as u64 + 1;
        let expires_at = now + rules.duration_days as u64 * SECONDS_PER_DAY;
        let c = Commitment {
            commitment_id: id,
            owner,
            nft_token_id: 0,
            rules,
            amount,
            asset_address,
            created_at: now,
            expires_at,
            current_value: amount,
            status: CommitmentStatus::Active,
        };
        self.commitments.push(c);
        Ok(id)
    }

    /// Overwrite the commitment's current value; fails `NotFound` on an
    /// unknown id and `InvalidAmount` on a negative value. The lifecycle
    /// state never changes.
    pub fn update_value(&mut self, id: u64, new_value: i128) -> (r: Result<(), LedgerError>)
        requires
            old(self).wf(),
        ensures
            final(self).wf(),
            final(self).admin_id() == old(self).admin_id(),
            final(self).nft_contract_id() == old(self).nft_contract_id(),
            old(self).spec_get_commitment(id) is None ==> r == Err::<(), LedgerError>(
                LedgerError::NotFound,
            ) && final(self).commitments_seq() == old(self).commitments_seq(),
            old(self).spec_get_commitment(id) is Some && new_value < 0 ==> r == Err::<
                (),
                LedgerError,
            >(LedgerError::InvalidAmount) && final(self).commitments_seq() == old(
                self,
            ).commitments_seq(),
            old(self).spec_get_commitment(id) is Some && new_value >= 0 ==> {
                let c = old(self).spec_get_commitment(id).unwrap();
                &&& r == Ok::<(), LedgerError>(())
                &&& final(self).commitments_seq() == old(self).commitments_seq().update(
                    id as int - 1,
                    Commitment { current_value: new_value, ..c },
                )
            },
    {
        if id < 1 || id > self.commitments.len() as u64 {
            return Err(LedgerError::NotFound);
        }
        if new_value < 0 {
            return Err(LedgerError::InvalidAmount);
        }
        let i = (id - 1) as usize;
        let c = self.commitments[i];
        self.commitments.set(i, Commitment { current_value: new_value, ..c });
        Ok(())
    }

    /// Record the token minted for a commitment in the ownership
    /// registry; fails `NotFound` on an unknown id. Nothing else changes.
    pub fn link_token(&mut self, id: u64, token_id: u32) -> (r: Result<(), LedgerError>)
        requires
            old(self).wf(),
        ensures
            final(self).wf(),
            final(self).admin_id() == old(self).admin_id(),
            final(self).nft_contract_id() == old(self).nft_contract_id(),
            old(self).spec_get_commitment(id) is None ==> r == Err::<(), LedgerError>(
                LedgerError::NotFound,
            ) && final(self).commitments_seq() == old(self).commitments_seq(),
            old(self).spec_get_commitment(id) is Some ==> {
                let c = old(self).spec_get_commitment(id).unwrap();
                &&& r == Ok::<(), LedgerError>(())
                &&& final(self).commitments_seq() == old(self).commitments_seq().update(
                    id as int - 1,
                    Commitment { nft_token_id: token_id, ..c },
                )
            },
    {
        if id < 1 || id > self.commitments.len() as u64 {
            return Err(LedgerError::NotFound);
        }
        let i = (id - 1) as usize;
        let c = self.commitments[i];
        self.commitments.set(i, Commitment { nft_token_id: token_id, ..c });
        Ok(())
    }

    /// Settle after expiry: fails `NotFound` on an unknown id,
    /// `AlreadySettled` out of `Active`, `NotExpired` before `expires_at`;
    /// otherwise transitions to `Settled`.
    pub fn settle(&mut self, id: u64, now: u64) -> (r: Result<(), LedgerError>)
        requires
            old(self).wf(),
        ensures
            final(self).wf(),
            final(self).admin_id() == old(self).admin_id(),
            final(self).nft_contract_id() == old(self).nft_contract_id(),
            final(self).commitments_seq() == spec_settle(
                old(self).commitments_seq(),
                id,
                now,
            ).0,
            r == spec_settle(old(self).commitments_seq(), id, now).1,
    {
        if id < 1 || id > self.commitments.len() as u64 {
            return Err(LedgerError::NotFound);
        }
        let i = (id - 1) as usize;
        let c = self.commitments[i];
        if !matches!(c.status, CommitmentStatus::Active) {
            return Err(LedgerError::AlreadySettled);
        }
        if now < c.expires_at {
            return Err(LedgerError::NotExpired);
        }
        self.commitments.set(i, Commitment { status: CommitmentStatus::Settled, ..c });
        Ok(())
    }

    /// Voluntary termination while `Active`, any time: fails `NotFound` on
    /// an unknown id, `NotOwner` unless `owner` owns the commitment,
    /// `AlreadySettled` out of `Active`; otherwise transitions to
    /// `EarlyExit` and returns the penalty amount
    /// (`early_exit_penalty` percent of the locked amount) without moving
    /// funds.
    pub fn early_exit(&mut self, id: u64, owner: u64) -> (r: Result<i128, LedgerError>)
        requires
            old(self).wf(),
        ensures
            final(self).wf(),
            final(self).admin_id() == old(self).admin_id(),
            final(self).nft_contract_id() == old(self).nft_contract_id(),
            final(self).commitments_seq() == spec_early_exit(
                old(self).commitments_seq(),
                id,
                owner,
            ).0,
            r == spec_early_exit(old(self).commitments_seq(), id, owner).1,
    {
        if id < 1 || id > self.commitments.len() as u64 {
            return Err(LedgerError::NotFound);
        }
        let i = (id - 1) as usize;
        let c = self.commitments[i];
        if c.owner != owner {
            return Err(LedgerError::NotOwner);
        }
        if !matches!(c.status, CommitmentStatus::Active) {
            return Err(LedgerError::AlreadySettled);
        }
        proof {
            assert(c.amount * c.rules.early_exit_penalty as i128 <= c.amount * 100)
                by (nonlinear_arith)
                requires
                    c.rules.early_exit_penalty <= 100,
                    c.amount >= 0,
            ;
            assert(c.amount * c.rules.early_exit_penalty as i128 >= 0) by (nonlinear_arith)
                requires
                    c.amount >= 0,
                    c.rules.early_exit_penalty >= 0,
            ;
        }
        let penalty = c.amount * (c.rules.early_exit_penalty as i128) / 100;
        self.commitments.set(i, Commitment { status: CommitmentStatus::EarlyExit, ..c });
        Ok(penalty)
    }

    /// Read a commitment; fails `NotFound` on an unknown id.
    pub fn get_commitment(&self, id: u64) -> (r: Result<Commitment, LedgerError>)
        ensures
            match self.spec_get_commitment(id) {
                Some(c) => r == Ok::<Commitment, LedgerError>(c),
                None => r == Err::<Commitment, LedgerError>(LedgerError::NotFound),
            },
    {
        if id < 1 || id > self.commitments.len() as u64 {
            return Err(LedgerError::NotFound);
        }
        Ok(self.commitments[(id - 1) as usize])
    }

    /// Number of commitments ever created.
    pub fn commitment_count(&self) -> (n: u64)
        requires
            self.commitments_seq().len() <= u64::MAX,
        ensures
            n == self.commitments_seq().len(),
    {
        self.commitments.len() as u64
    }
}

/// Terminality of settlement: after a successful `settle`, a second
/// `settle` fails `AlreadySettled`, and so does `early_exit` — there is no
/// transition out of a terminal state, whatever time or owner is presented.
pub proof fn lemma_settle_terminal(
    l: Seq<Commitment>,
    id: u64,
    now: u64,
    now2: u64,
    owner: u64,
)
    requires
        spec_settle(l, id, now).1 is Ok,
    ensures
        spec_settle(spec_settle(l, id, now).0, id, now2).1 == Err::<(), LedgerError>(
            LedgerError::AlreadySettled,
        ),
        spec_early_exit(spec_settle(l, id, now).0, id, owner).1 is Err,
        owner == l[id as int - 1].owner ==> spec_early_exit(
            spec_settle(l, id, now).0,
            id,
            owner,
        ).1 == Err::<i128, LedgerError>(LedgerError::AlreadySettled),
        spec_settle(spec_settle(l, id, now).0, id, now2).0 == spec_settle(l, id, now).0,
        spec_early_exit(spec_settle(l, id, now).0, id, owner).0 == spec_settle(l, id, now).0,
{
}

/// Terminality of early exit: after a successful `early_exit`, neither
/// `settle` nor a second `early_exit` can succeed.
pub proof fn lemma_early_exit_terminal(
    l: Seq<Commitment>,
    id: u64,
    owner: u64,
    now: u64,
    owner2: u64,
)
    requires
        spec_early_exit(l, id, owner).1 is Ok,
    ensures
        spec_settle(spec_early_exit(l, id, owner).0, id, now).1 == Err::<(), LedgerError>(
            LedgerError::AlreadySettled,
        ),
        spec_early_exit(spec_early_exit(l, id, owner).0, id, owner).1 == Err::<
            i128,
            LedgerError,
        >(LedgerError::AlreadySettled),
        owner2 != spec_early_exit(l, id, owner).0[id as int - 1].owner ==> spec_early_exit(
            spec_early_exit(l, id, owner).0,
            id,
            owner2,
        ).1 == Err::<i128, LedgerError>(LedgerError::NotOwner),
{
}

} // verus!
