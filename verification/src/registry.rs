//! Ownership registry: a token per commitment, per-owner balance counters
//! and token lists, with guarded single and batch mutation.
//!
//! The registry's observable state is captured by [`RegistryView`]: the
//! token records in mint order, the balance counters and the per-owner
//! token lists. A single transfer's effect is the spec function
//! [`apply_transfer`]; the batch engine accumulates per-address deltas and
//! list edits and flushes each once, and its contract states that the
//! outcome equals folding [`apply_transfer`] over the items one at a time —
//! the defining correctness property of the batch optimization.

use vstd::prelude::*;
use std::collections::HashMap;
use vstd::pervasive::VecAdditionalExecFns;
use crate::assoc::KvCache;
use crate::batch::{BatchError, BatchErrorCode, BatchMode, BatchProcessor, BatchResultVoid};
use crate::errors::ContractError;
use crate::guard::ReentrancyGuard;
use crate::ledger::SECONDS_PER_DAY;
use crate::types::CommitmentType;

verus! {

/// Commitment terms snapshotted into a token at mint time.
#[derive(Clone, Copy, Debug, PartialEq, Eq, Structural)]
pub struct CommitmentMetadata {
    /// The commitment the token stands for.
    pub commitment_id: u64,
    /// Duration in days.
    pub duration_days: u32,
    /// Largest tolerated drawdown, in percent (0-100).
    pub max_loss_percent: u32,
    /// Risk profile.
    pub commitment_type: CommitmentType,
    /// Mint time.
    pub created_at: u64,
    /// Expiry time: `created_at + duration_days * 86400`.
    pub expires_at: u64,
    /// Amount locked at creation.
    pub initial_amount: i128,
    /// Asset the amount is denominated in.
    pub asset_address: u64,
}

/// A commitment token: ownership record plus metadata snapshot.
#[derive(Clone, Copy, Debug, PartialEq, Eq, Structural)]
pub struct CommitmentNFT {
    /// Current owner.
    pub owner: u64,
    /// Token id, sequential from 1.
    pub token_id: u32,
    /// Snapshot of the commitment terms.
    pub metadata: CommitmentMetadata,
    /// Cleared once by `settle`; `true` from mint until then.
    pub is_active: bool,
    /// Early-exit penalty percent carried with the token.
    pub early_exit_penalty: u32,
}

/// One transfer order within a batch.
#[derive(Clone, Copy, Debug, PartialEq, Eq, Structural)]
pub struct TransferParams {
    /// Current owner, whose authorization the host has checked.
    pub from: u64,
    /// New owner.
    pub to: u64,
    /// Token to move.
    pub token_id: u32,
}

/// The registry's observable state: token records in mint order (token
/// `t` at index `t - 1`), balance counters and per-owner token lists.
#[verifier::ext_equal]
pub struct RegistryView {
    pub nfts: Seq<CommitmentNFT>,
    pub balances: Map<u64, u32>,
    pub owner_tokens: Map<u64, Seq<u32>>,
}

/// An owner's balance counter, 0 if absent.
pub open spec fn bal_of(v: RegistryView, a: u64) -> u32 {
    if v.balances.contains_key(a) {
        v.balances[a]
    } else {
        0
    }
}

/// An owner's token list, empty if absent.
pub open spec fn toks_of(v: RegistryView, a: u64) -> Seq<u32> {
    if v.owner_tokens.contains_key(a) {
        v.owner_tokens[a]
    } else {
        Seq::empty()
    }
}

/// Why a single transfer would fail on this state, if it would.
pub open spec fn transfer_error(v: RegistryView, p: TransferParams) -> Option<ContractError> {
    if !(1 <= p.token_id && p.token_id <= v.nfts.len()) {
        Some(ContractError::TokenNotFound)
    } else if v.nfts[p.token_id as int - 1].owner != p.from {
        Some(ContractError::NotOwner)
    } else {
        None
    }
}

/// The effect of one successful transfer, applied sequentially: the
/// record's owner changes; the sender's counter is decremented (floored at
/// 0) and the receiver's incremented; the token id moves from the sender's
/// list (first occurrence) to the end of the receiver's. Reads after
/// writes, so a self-transfer leaves counters unchanged.
pub open spec fn apply_transfer(v: RegistryView, p: TransferParams) -> RegistryView {
    let i = p.token_id as int - 1;
    let nft = v.nfts[i];
    let bfrom = bal_of(v, p.from);
    let b1 = v.balances.insert(
        p.from,
        if bfrom > 0 {
            (bfrom - 1) as u32
        } else {
            0u32
        },
    );
    let v1 = RegistryView { balances: b1, ..v };
    let b2 = b1.insert(p.to, (bal_of(v1, p.to) + 1) as u32);
    let t1 = v.owner_tokens.insert(p.from, toks_of(v, p.from).remove_value(p.token_id));
    let v2 = RegistryView { owner_tokens: t1, ..v };
    let t2 = t1.insert(p.to, toks_of(v2, p.to).push(p.token_id));
    RegistryView {
        nfts: v.nfts.update(i, CommitmentNFT { owner: p.to, ..nft }),
        balances: b2,
        owner_tokens: t2,
    }
}

/// One batch step: apply the transfer if its checks pass, else leave the
/// state as it is.
pub open spec fn step_transfer(v: RegistryView, p: TransferParams) -> RegistryView {
    if transfer_error(v, p) is None {
        apply_transfer(v, p)
    } else {
        v
    }
}

/// The state after applying a list of transfers sequentially, one at a
/// time, failing items skipped.
pub open spec fn fold_transfers(v: RegistryView, ps: Seq<TransferParams>) -> RegistryView
    decreases ps.len(),
{
    if ps.len() == 0 {
        v
    } else {
        step_transfer(fold_transfers(v, ps.drop_last()), ps.last())
    }
}

/// Index and error of the first item that fails when the list is applied
/// sequentially, if any.
pub open spec fn first_failure(v: RegistryView, ps: Seq<TransferParams>) -> Option<
    (int, ContractError),
>
    decreases ps.len(),
{
    if ps.len() == 0 {
        None
    } else {
        match first_failure(v, ps.drop_last()) {
            Some(e) => Some(e),
            None => match transfer_error(fold_transfers(v, ps.drop_last()), ps.last()) {
                Some(err) => Some((ps.len() - 1, err)),
                None => None,
            },
        }
    }
}

/// The state after applying every transfer of a list unconditionally,
/// one at a time.
pub open spec fn apply_transfers(v: RegistryView, ps: Seq<TransferParams>) -> RegistryView
    decreases ps.len(),
{
    if ps.len() == 0 {
        v
    } else {
        apply_transfer(apply_transfers(v, ps.drop_last()), ps.last())
    }
}

/// Batch equivalence: when every item of a batch passes its checks — as in
/// a successful atomic batch — the batch outcome [`fold_transfers`] is
/// exactly the state reached by performing the single transfers one at a
/// time, in order, and each of those single transfers succeeds on the
/// state it finds.
pub proof fn lemma_batch_equals_sequential(v: RegistryView, ps: Seq<TransferParams>)
    requires
        first_failure(v, ps) is None,
    ensures
        fold_transfers(v, ps) == apply_transfers(v, ps),
        forall|i: int|
            0 <= i < ps.len() ==> transfer_error(
                apply_transfers(v, #[trigger] ps.take(i)),
                ps[i],
            ) is None,
    decreases ps.len(),
{
    if ps.len() > 0 {
        let dl = ps.drop_last();
        lemma_batch_equals_sequential(v, dl);
        assert forall|i: int| 0 <= i < ps.len() implies transfer_error(
            apply_transfers(v, #[trigger] ps.take(i)),
            ps[i],
        ) is None by {
            if i < ps.len() - 1 {
                assert(ps.take(i) =~= dl.take(i));
                assert(ps[i] == dl[i]);
            } else {
                assert(ps.take(i) =~= dl);
            }
        }
    }
}

/// The per-item failure reports of a best-effort batch, in index order.
pub open spec fn batch_error_seq(v: RegistryView, ps: Seq<TransferParams>) -> Seq<BatchError>
    decreases ps.len(),
{
    if ps.len() == 0 {
        Seq::empty()
    } else {
        let pre = batch_error_seq(v, ps.drop_last());
        match transfer_error(fold_transfers(v, ps.drop_last()), ps.last()) {
            Some(err) => pre.push(
                BatchError {
                    index: (ps.len() - 1) as usize,
                    error: BatchErrorCode::Contract(err),
                },
            ),
            None => pre,
        }
    }
}

/// Registry-wide invariant: token `t` sits at index `t - 1`; each owner's
/// token list is duplicate-free and holds exactly the tokens the records
/// say they own; each balance counter equals that list's length, i.e. the
/// number of tokens the records say that owner holds.
pub open spec fn wf_view(v: RegistryView) -> bool {
    &&& v.nfts.len() <= u32::MAX
    &&& forall|i: int| 0 <= i < v.nfts.len() ==> (#[trigger] v.nfts[i]).token_id == i + 1
    &&& forall|a: u64| (#[trigger] toks_of(v, a)).no_duplicates()
    &&& forall|a: u64, t: u32|
        #[trigger] toks_of(v, a).contains(t) <==> (1 <= t <= v.nfts.len() && v.nfts[t as int
            - 1].owner == a)
    &&& forall|a: u64| (#[trigger] bal_of(v, a)) as int == toks_of(v, a).len()
}

/// Tokens among the first `k` whose owner is `a`, as a set of token ids.
pub open spec fn owned_upto(nfts: Seq<CommitmentNFT>, a: u64, k: int) -> Set<u32> {
    Set::new(|t: u32| 1 <= t <= k && nfts[t as int - 1].owner == a)
}

/// Number of tokens among the first `k` whose owner is `a`.
pub open spec fn count_owned_upto(nfts: Seq<CommitmentNFT>, a: u64, k: int) -> int
    decreases k,
{
    if k <= 0 {
        0
    } else {
        count_owned_upto(nfts, a, k - 1) + if nfts[k - 1].owner == a {
            1int
        } else {
            0int
        }
    }
}

/// Number of tokens among the first `k` whose owner belongs to `owners`.
pub open spec fn count_owned_by_upto(
    nfts: Seq<CommitmentNFT>,
    owners: Set<u64>,
    k: int,
) -> int
    decreases k,
{
    if k <= 0 {
        0
    } else {
        count_owned_by_upto(nfts, owners, k - 1) + if owners.contains(nfts[k - 1].owner) {
            1int
        } else {
            0int
        }
    }
}

/// Sum of the balance counters over a finite set of owners.
pub open spec fn sum_balances(v: RegistryView, owners: Set<u64>) -> int
    decreases owners.len() when owners.finite()
{
    if !owners.finite() || owners.is_empty() {
        0
    } else {
        let a = owners.choose();
        bal_of(v, a) + sum_balances(v, owners.remove(a))
    }
}

/// The owned-token set is finite and counting it from the front counts
/// it all.
proof fn lemma_owned_upto_card(nfts: Seq<CommitmentNFT>, a: u64, k: int)
    requires
        0 <= k <= nfts.len() <= u32::MAX,
    ensures
        owned_upto(nfts, a, k).finite(),
        owned_upto(nfts, a, k).len() == count_owned_upto(nfts, a, k),
    decreases k,
{
    if k == 0 {
        assert(owned_upto(nfts, a, 0) =~= Set::<u32>::empty());
    } else {
        lemma_owned_upto_card(nfts, a, k - 1);
        if nfts[k - 1].owner == a {
            assert(owned_upto(nfts, a, k) =~= owned_upto(nfts, a, k - 1).insert(k as u32));
            assert(!owned_upto(nfts, a, k - 1).contains(k as u32));
        } else {
            assert(owned_upto(nfts, a, k) =~= owned_upto(nfts, a, k - 1));
        }
    }
}

/// In a well-formed view the balance counter counts the owned tokens.
proof fn lemma_balance_counts_owned(v: RegistryView, a: u64)
    requires
        wf_view(v),
    ensures
        bal_of(v, a) == count_owned_upto(v.nfts, a, v.nfts.len() as int),
{
    let toks = toks_of(v, a);
    toks.unique_seq_to_set();
    assert(toks.to_set() =~= owned_upto(v.nfts, a, v.nfts.len() as int)) by {
        assert forall|t: u32| toks.to_set().contains(t) implies owned_upto(
            v.nfts,
            a,
            v.nfts.len() as int,
        ).contains(t) by {
            assert(toks.contains(t));
        }
        assert forall|t: u32| owned_upto(v.nfts, a, v.nfts.len() as int).contains(t) implies toks
            .to_set().contains(t) by {
            assert(toks.contains(t));
        }
    }
    lemma_owned_upto_card(v.nfts, a, v.nfts.len() as int);
}

/// Removing one owner from the counted set removes exactly that owner's
/// tokens from the count.
proof fn lemma_count_owned_by_split(nfts: Seq<CommitmentNFT>, owners: Set<u64>, a: u64, k: int)
    requires
        owners.contains(a),
        0 <= k <= nfts.len(),
    ensures
        count_owned_by_upto(nfts, owners, k) == count_owned_by_upto(nfts, owners.remove(a), k)
            + count_owned_upto(nfts, a, k),
    decreases k,
{
    if k > 0 {
        lemma_count_owned_by_split(nfts, owners, a, k - 1);
    }
}

/// Owners outside the records contribute nothing.
proof fn lemma_count_owned_by_covering(nfts: Seq<CommitmentNFT>, owners: Set<u64>, k: int)
    requires
        0 <= k <= nfts.len(),
        forall|i: int| 0 <= i < nfts.len() ==> owners.contains((#[trigger] nfts[i]).owner),
    ensures
        count_owned_by_upto(nfts, owners, k) == k,
    decreases k,
{
    if k > 0 {
        lemma_count_owned_by_covering(nfts, owners, k - 1);
    }
}

/// An empty owner set counts no tokens.
proof fn lemma_count_owned_by_empty(nfts: Seq<CommitmentNFT>, owners: Set<u64>, k: int)
    requires
        0 <= k <= nfts.len(),
        forall|a: u64| !owners.contains(a),
    ensures
        count_owned_by_upto(nfts, owners, k) == 0,
    decreases k,
{
    if k > 0 {
        lemma_count_owned_by_empty(nfts, owners, k - 1);
    }
}

/// Summing balances over any finite owner set counts the tokens those
/// owners hold.
proof fn lemma_sum_balances_counts(v: RegistryView, owners: Set<u64>)
    requires
        wf_view(v),
        owners.finite(),
    ensures
        sum_balances(v, owners) == count_owned_by_upto(v.nfts, owners, v.nfts.len() as int),
    decreases owners.len(),
{
    let n = v.nfts.len() as int;
    if owners.is_empty() {
        lemma_count_owned_by_empty(v.nfts, owners, n);
    } else {
        let a = owners.choose();
        lemma_sum_balances_counts(v, owners.remove(a));
        lemma_balance_counts_owned(v, a);
        lemma_count_owned_by_split(v.nfts, owners, a, n);
    }
}

/// Ledger-wide invariant: over any finite set of owners that covers every
/// token's owner, the per-owner balance counters sum to the number of
/// minted tokens.
pub proof fn lemma_balances_sum_to_supply(v: RegistryView, owners: Set<u64>)
    requires
        wf_view(v),
        owners.finite(),
        forall|i: int| 0 <= i < v.nfts.len() ==> owners.contains((#[trigger] v.nfts[i]).owner),
    ensures
        sum_balances(v, owners) == v.nfts.len(),
{
    lemma_sum_balances_counts(v, owners);
    lemma_count_owned_by_covering(v.nfts, owners, v.nfts.len() as int);
}

/// The token `mint` stores.
pub open spec fn spec_minted_nft(
    token_id: u32,
    owner: u64,
    commitment_id: u64,
    duration_days: u32,
    max_loss_percent: u32,
    commitment_type: CommitmentType,
    initial_amount: i128,
    asset_address: u64,
    early_exit_penalty: u32,
    now: u64,
) -> CommitmentNFT {
    CommitmentNFT {
        owner,
        token_id,
        metadata: CommitmentMetadata {
            commitment_id,
            duration_days,
            max_loss_percent,
            commitment_type,
            created_at: now,
            expires_at: (now + duration_days as u64 * SECONDS_PER_DAY) as u64,
            initial_amount,
            asset_address,
        },
        is_active: true,
        early_exit_penalty,
    }
}

/// What `settle` does to the view: the new view and the result.
pub open spec fn spec_settle_token(v: RegistryView, token_id: u32, now: u64) -> (RegistryView, Result<
    (),
    ContractError,
>) {
    if !(1 <= token_id && token_id <= v.nfts.len()) {
        (v, Err(ContractError::TokenNotFound))
    } else {
        let nft = v.nfts[token_id as int - 1];
        if !nft.is_active {
            (v, Err(ContractError::AlreadySettled))
        } else if now < nft.metadata.expires_at {
            (v, Err(ContractError::NotExpired))
        } else {
            (
                RegistryView {
                    nfts: v.nfts.update(
                        token_id as int - 1,
                        CommitmentNFT { is_active: false, ..nft },
                    ),
                    ..v
                },
                Ok(()),
            )
        }
    }
}

/// Pushing a fresh element keeps a sequence duplicate-free.
proof fn lemma_push_nodup(s: Seq<u32>, x: u32)
    requires
        s.no_duplicates(),
        !s.contains(x),
    ensures
        s.push(x).no_duplicates(),
{
    let s2 = s.push(x);
    assert forall|i: int, j: int|
        0 <= i < s2.len() && 0 <= j < s2.len() && i != j implies s2[i] != s2[j] by {
        if i < s.len() && j < s.len() {
            assert(s2[i] == s[i] && s2[j] == s[j]);
        } else if i < s.len() {
            assert(s2[j] == x && s2[i] == s[i]);
            assert(s.contains(s[i]) == true);
        } else {
            assert(s2[i] == x && s2[j] == s[j]);
            assert(s.contains(s[j]) == true);
        }
    }
}

/// Membership of a push.
proof fn lemma_push_contains(s: Seq<u32>, x: u32, y: u32)
    ensures
        s.push(x).contains(y) <==> (s.contains(y) || y == x),
{
    let s2 = s.push(x);
    if s.contains(y) {
        let j = choose|j: int| 0 <= j < s.len() && s[j] == y;
        assert(s2[j] == y);
    }
    if y == x {
        assert(s2[s.len() as int] == y);
    }
    if s2.contains(y) && y != x {
        let j = choose|j: int| 0 <= j < s2.len() && s2[j] == y;
        assert(j < s.len());
        assert(s[j] == y);
    }
}

/// Removing the first occurrence of a value from a duplicate-free
/// sequence removes exactly that value.
proof fn lemma_remove_value_props(s: Seq<u32>, x: u32)
    requires
        s.no_duplicates(),
        s.contains(x),
    ensures
        s.remove_value(x).no_duplicates(),
        s.remove_value(x).len() == s.len() - 1,
        forall|y: u32| #[trigger] s.remove_value(x).contains(y) <==> (s.contains(y) && y != x),
{
    s.index_of_first_ensures(x);
    let i = s.index_of_first(x).unwrap();
    s.remove_ensures(i);
    let r = s.remove(i);
    assert forall|y: u32| #[trigger] r.contains(y) implies (s.contains(y) && y != x) by {
        let j = choose|j: int| 0 <= j < r.len() && r[j] == y;
        if j < i {
            assert(s[j] == y);
        } else {
            assert(s[j + 1] == y);
            assert(j + 1 != i);
        }
        if y == x {
            if j < i {
                assert(s[j] == x && s[i] == x && j != i);
            } else {
                assert(s[j + 1] == x && s[i] == x && j + 1 != i);
            }
        }
    }
    assert forall|y: u32| s.contains(y) && y != x implies #[trigger] r.contains(y) by {
        let j = choose|j: int| 0 <= j < s.len() && s[j] == y;
        assert(j != i);
        if j < i {
            assert(r[j] == y);
        } else {
            assert(r[j - 1] == y);
        }
    }
    assert forall|a: int, b: int|
        0 <= a < r.len() && 0 <= b < r.len() && a != b implies r[a] != r[b] by {
        let a2 = if a < i {
            a
        } else {
            a + 1
        };
        let b2 = if b < i {
            b
        } else {
            b + 1
        };
        assert(r[a] == s[a2] && r[b] == s[b2] && a2 != b2);
    }
}

/// A duplicate-free sequence of values in `[1, n]` has at most `n`
/// elements.
proof fn lemma_nodup_range_len(s: Seq<u32>, n: int)
    requires
        s.no_duplicates(),
        forall|j: int| 0 <= j < s.len() ==> 1 <= #[trigger] s[j] <= n,
        0 <= n <= u32::MAX,
    ensures
        s.len() <= n,
    decreases n,
{
    if s.len() > 0 {
        assert(1 <= s[0] <= n);
        if s.contains(n as u32) {
            lemma_remove_value_props(s, n as u32);
            let s2 = s.remove_value(n as u32);
            assert forall|j: int| 0 <= j < s2.len() implies 1 <= #[trigger] s2[j] <= n - 1 by {
                assert(s2.contains(s2[j]));
                let k = choose|k: int| 0 <= k < s.len() && s[k] == s2[j];
                assert(1 <= s[k] <= n);
            }
            lemma_nodup_range_len(s2, n - 1);
        } else {
            assert forall|j: int| 0 <= j < s.len() implies 1 <= #[trigger] s[j] <= n - 1 by {
                if s[j] == n as u32 {
                    assert(s.contains(n as u32));
                }
            }
            lemma_nodup_range_len(s, n - 1);
        }
    }
}

/// ... and at most `n - 1` elements if some value of the range is absent.
proof fn lemma_nodup_range_excl_len(s: Seq<u32>, n: int, e: u32)
    requires
        s.no_duplicates(),
        forall|j: int| 0 <= j < s.len() ==> 1 <= #[trigger] s[j] <= n,
        1 <= e <= n <= u32::MAX,
        !s.contains(e),
    ensures
        s.len() <= n - 1,
{
    lemma_push_nodup(s, e);
    let s2 = s.push(e);
    assert forall|j: int| 0 <= j < s2.len() implies 1 <= #[trigger] s2[j] <= n by {
        if j < s.len() {
            assert(s2[j] == s[j]);
        }
    }
    lemma_nodup_range_len(s2, n);
}

/// In a well-formed view, no balance counter exceeds the number of
/// minted tokens.
pub proof fn lemma_balance_bound(v: RegistryView, a: u64)
    requires
        wf_view(v),
    ensures
        bal_of(v, a) <= v.nfts.len(),
{
    let toks = toks_of(v, a);
    assert forall|j: int| 0 <= j < toks.len() implies 1 <= #[trigger] toks[j] <= v.nfts.len() by {
        assert(toks.contains(toks[j]));
    }
    lemma_nodup_range_len(toks, v.nfts.len() as int);
}

/// ... and an owner who does not own token `t` has at most `len - 1`.
pub proof fn lemma_balance_bound_excl(v: RegistryView, a: u64, t: u32)
    requires
        wf_view(v),
        1 <= t <= v.nfts.len(),
        v.nfts[t as int - 1].owner != a,
    ensures
        bal_of(v, a) <= v.nfts.len() - 1,
{
    let toks = toks_of(v, a);
    assert forall|j: int| 0 <= j < toks.len() implies 1 <= #[trigger] toks[j] <= v.nfts.len() by {
        assert(toks.contains(toks[j]));
    }
    assert(!toks.contains(t));
    lemma_nodup_range_excl_len(toks, v.nfts.len() as int, t);
}

/// A successful transfer preserves the registry invariant, and the sender
/// held a positive balance going in.
pub proof fn lemma_step_preserves_wf(v: RegistryView, p: TransferParams)
    requires
        wf_view(v),
        transfer_error(v, p) is None,
    ensures
        wf_view(apply_transfer(v, p)),
        apply_transfer(v, p).nfts.len() == v.nfts.len(),
        bal_of(v, p.from) >= 1,
        p.to != p.from ==> bal_of(v, p.to) < u32::MAX,
{
    let tid = p.token_id;
    let i = tid as int - 1;
    let v2 = apply_transfer(v, p);
    let tfrom = toks_of(v, p.from);
    let tto = toks_of(v, p.to);
    assert(tfrom.contains(tid));
    assert(bal_of(v, p.from) >= 1) by {
        let j = choose|j: int| 0 <= j < tfrom.len() && tfrom[j] == tid;
    }
    lemma_remove_value_props(tfrom, tid);
    let tfrom2 = tfrom.remove_value(tid);
    if p.to != p.from {
        assert(!tto.contains(tid));
        lemma_balance_bound_excl(v, p.to, tid);
    }

    // The two list edits, resolved through the map inserts.
    assert(toks_of(v2, p.to) == if p.to == p.from {
        tfrom2.push(tid)
    } else {
        tto.push(tid)
    });
    if p.to != p.from {
        assert(toks_of(v2, p.from) == tfrom2);
    }

    // token ids are untouched
    assert forall|k: int| 0 <= k < v2.nfts.len() implies (#[trigger] v2.nfts[k]).token_id == k
        + 1 by {
        if k != i {
            assert(v2.nfts[k] == v.nfts[k]);
        }
    }

    // lists stay duplicate-free
    assert forall|a: u64| (#[trigger] toks_of(v2, a)).no_duplicates() by {
        if a == p.to {
            if p.to == p.from {
                assert(!tfrom2.contains(tid));
                lemma_push_nodup(tfrom2, tid);
            } else {
                lemma_push_nodup(tto, tid);
            }
        } else if a == p.from {
        } else {
            assert(toks_of(v2, a) == toks_of(v, a));
        }
    }

    // membership matches the updated ownership
    assert forall|a: u64, t: u32| #[trigger] toks_of(v2, a).contains(t) <==> (1 <= t
        <= v2.nfts.len() && v2.nfts[t as int - 1].owner == a) by {
        if t == tid {
            assert(v2.nfts[i].owner == p.to);
        } else if 1 <= t <= v.nfts.len() {
            assert(v2.nfts[t as int - 1] == v.nfts[t as int - 1]);
        }
        if a == p.to {
            if p.to == p.from {
                lemma_push_contains(tfrom2, tid, t);
            } else {
                lemma_push_contains(tto, tid, t);
            }
        } else if a == p.from {
            assert(toks_of(v2, a) == tfrom2);
        } else {
            assert(toks_of(v2, a) == toks_of(v, a));
            if toks_of(v, a).contains(t) {
                assert(t != tid);
            }
        }
    }

    // balances match list lengths
    assert forall|a: u64| (#[trigger] bal_of(v2, a)) as int == toks_of(v2, a).len() by {
        if p.to == p.from {
            if a == p.from {
                assert(bal_of(v2, a) == bal_of(v, a));
                assert(toks_of(v2, a).len() == tfrom2.len() + 1);
            } else {
                assert(bal_of(v2, a) == bal_of(v, a));
                assert(toks_of(v2, a) == toks_of(v, a));
            }
        } else {
            if a == p.from {
                assert(bal_of(v2, a) as int == bal_of(v, a) - 1);
                assert(toks_of(v2, a) == tfrom2);
            } else if a == p.to {
                assert(bal_of(v2, a) as int == bal_of(v, a) + 1);
                assert(toks_of(v2, a).len() == tto.len() + 1);
            } else {
                assert(bal_of(v2, a) == bal_of(v, a));
                assert(toks_of(v2, a) == toks_of(v, a));
            }
        }
    }
}

/// Sequential application of any transfer list preserves the registry
/// invariant: each item either fails (leaving the state as it was) or is
/// a well-formed transfer.
pub proof fn lemma_fold_preserves_wf(v: RegistryView, ps: Seq<TransferParams>)
    requires
        wf_view(v),
    ensures
        wf_view(fold_transfers(v, ps)),
        fold_transfers(v, ps).nfts.len() == v.nfts.len(),
    decreases ps.len(),
{
    if ps.len() > 0 {
        lemma_fold_preserves_wf(v, ps.drop_last());
        let pre = fold_transfers(v, ps.drop_last());
        if transfer_error(pre, ps.last()) is None {
            lemma_step_preserves_wf(pre, ps.last());
        }
    }
}

/// A settle preserves the registry invariant: ownership is untouched.
pub proof fn lemma_settle_preserves_wf(v: RegistryView, token_id: u32, now: u64)
    requires
        wf_view(v),
    ensures
        wf_view(spec_settle_token(v, token_id, now).0),
{
    let v2 = spec_settle_token(v, token_id, now).0;
    let i = token_id as int - 1;
    assert forall|k: int| 0 <= k < v2.nfts.len() implies (#[trigger] v2.nfts[k]).token_id == k
        + 1 by {
        if k != i {
            assert(v2.nfts[k] == v.nfts[k]);
        }
    }
    assert forall|a: u64, t: u32| #[trigger] toks_of(v2, a).contains(t) <==> (1 <= t
        <= v2.nfts.len() && v2.nfts[t as int - 1].owner == a) by {
        assert(toks_of(v2, a) == toks_of(v, a));
        if 1 <= t <= v.nfts.len() && t as int - 1 != i {
            assert(v2.nfts[t as int - 1] == v.nfts[t as int - 1]);
        }
    }
    assert forall|a: u64| (#[trigger] bal_of(v2, a)) as int == toks_of(v2, a).len() by {
        assert(bal_of(v2, a) == bal_of(v, a));
        assert(toks_of(v2, a) == toks_of(v, a));
    }
    assert forall|a: u64| (#[trigger] toks_of(v2, a)).no_duplicates() by {
        assert(toks_of(v2, a) == toks_of(v, a));
    }
}

/// Terminality of token settlement: after a successful `settle`, a second
/// one fails `AlreadySettled`, whatever time is presented.
pub proof fn lemma_token_settle_terminal(v: RegistryView, token_id: u32, now: u64, now2: u64)
    requires
        spec_settle_token(v, token_id, now).1 is Ok,
    ensures
        spec_settle_token(spec_settle_token(v, token_id, now).0, token_id, now2).1 == Err::<
            (),
            ContractError,
        >(ContractError::AlreadySettled),
        spec_settle_token(spec_settle_token(v, token_id, now).0, token_id, now2).0
            == spec_settle_token(v, token_id, now).0,
{
}

/// A balance table's counter for an owner, 0 if absent.
pub open spec fn map_bal(m: Map<u64, u32>, a: u64) -> u32 {
    if m.contains_key(a) {
        m[a]
    } else {
        0
    }
}

/// A token-list table's list for an owner, empty if absent.
pub open spec fn map_toks(m: Map<u64, Vec<u32>>, a: u64) -> Seq<u32> {
    if m.contains_key(a) {
        m[a]@
    } else {
        Seq::empty()
    }
}

/// Once a prefix applies cleanly and the next item fails, that item is the
/// batch's first failure, whatever follows it.
proof fn lemma_first_failure_extend(v: RegistryView, ps: Seq<TransferParams>, i: int)
    requires
        0 <= i < ps.len(),
        first_failure(v, ps.take(i)) is None,
        transfer_error(fold_transfers(v, ps.take(i)), ps[i]) is Some,
    ensures
        first_failure(v, ps) == Some(
            (i, transfer_error(fold_transfers(v, ps.take(i)), ps[i]).unwrap()),
        ),
    decreases ps.len(),
{
    if i == ps.len() - 1 {
        assert(ps.take(i) =~= ps.drop_last());
        assert(ps.last() == ps[i]);
    } else {
        assert(ps.drop_last().take(i) =~= ps.take(i));
        assert(ps.drop_last()[i] == ps[i]);
        lemma_first_failure_extend(v, ps.drop_last(), i);
    }
}

/// The view of a per-owner token-list table.
pub open spec fn vec_map_view(m: Map<u64, Vec<u32>>) -> Map<u64, Seq<u32>> {
    m.map_values(|l: Vec<u32>| l@)
}

/// Inserting into the table and viewing commutes.
proof fn lemma_vec_map_view_insert(m: Map<u64, Vec<u32>>, k: u64, l: Vec<u32>)
    ensures
        vec_map_view(m.insert(k, l)) =~= vec_map_view(m).insert(k, l@),
{
}

/// An element-wise copy of a token list.
fn copy_list(src: &Vec<u32>) -> (r: Vec<u32>)
    ensures
        r@ == src@,
{
    let mut r: Vec<u32> = Vec::new();
    let n = src.len();
    let mut i: usize = 0;
    while i < n
        invariant
            n == src@.len(),
            i <= n,
            r@ == src@.take(i as int),
        decreases n - i,
    {
        r.push(src[i]);
        proof {
            assert(r@ =~= src@.take(i as int + 1));
        }
        i += 1;
    }
    proof {
        assert(src@.take(n as int) =~= src@);
    }
    r
}

/// Remove the first occurrence of `x`, if any.
fn remove_first_value(list: &mut Vec<u32>, x: u32)
    ensures
        final(list)@ == old(list)@.remove_value(x),
{
    let n = list.len();
    let mut i: usize = 0;
    while i < n
        invariant
            *list == *old(list),
            n == list@.len(),
            i <= n,
            forall|j: int| 0 <= j < i ==> list@[j] != x,
        decreases n - i,
    {
        if list[i] == x {
            proof {
                list@.index_of_first_ensures(x);
                assert(list@.contains(x));
                let k = list@.index_of_first(x).unwrap();
                assert(list@[k] == x);
                assert(k == i as int);
            }
            list.remove(i);
            return ;
        }
        i += 1;
    }
    proof {
        assert(!list@.contains(x));
        list@.index_of_first_ensures(x);
    }
}

/// The commitment token registry. Token ids are assigned sequentially
/// from 1; records are never deleted.
pub struct CommitmentNFTContract {
    admin: Option<u64>,
    core_contract: Option<u64>,
    token_counter: u32,
    nfts: Vec<CommitmentNFT>,
    balances: HashMap<u64, u32>,
    owner_tokens: HashMap<u64, Vec<u32>>,
    token_ids: Vec<u32>,
    /// Reentrancy guard wrapping the mutating entry points.
    pub guard: ReentrancyGuard,
}

impl View for CommitmentNFTContract {
    type V = RegistryView;

    closed spec fn view(&self) -> RegistryView {
        RegistryView {
            nfts: self.nfts@,
            balances: self.balances@,
            owner_tokens: vec_map_view(self.owner_tokens@),
        }
    }
}

impl CommitmentNFTContract {
    /// Whether the reentrancy guard is currently held.
    pub closed spec fn guard_held(self) -> bool {
        self.guard.is_held()
    }

    /// The configured admin, if initialized.
    pub closed spec fn admin_opt(self) -> Option<u64> {
        self.admin
    }

    /// The authorized settlement contract, if configured.
    pub closed spec fn core_opt(self) -> Option<u64> {
        self.core_contract
    }

    /// The global token-id list, in mint order.
    pub closed spec fn token_ids_seq(self) -> Seq<u32> {
        self.token_ids@
    }

    /// Representation invariant: the counter and the global id list track
    /// the records, and the view is well-formed.
    pub closed spec fn wf(self) -> bool {
        &&& self.nfts@.len() == self.token_counter as int
        &&& self.token_ids@.len() == self.token_counter as int
        &&& forall|i: int| 0 <= i < self.token_ids@.len() ==> #[trigger] self.token_ids@[i] == i + 1
        &&& wf_view(self@)
    }

    /// A fresh, uninitialized registry.
    pub fn new() -> (c: CommitmentNFTContract)
        ensures
            c.wf(),
            c.admin_opt() is None,
            c.core_opt() is None,
            c@.nfts == Seq::<CommitmentNFT>::empty(),
            c@.balances == Map::<u64, u32>::empty(),
            c@.owner_tokens == Map::<u64, Seq<u32>>::empty(),
            c.token_ids_seq() == Seq::<u32>::empty(),
            !c.guard_held(),
    {
        let c = CommitmentNFTContract {
            admin: None,
            core_contract: None,
            token_counter: 0,
            nfts: Vec::new(),
            balances: HashMap::new(),
            owner_tokens: HashMap::new(),
            token_ids: Vec::new(),
            guard: ReentrancyGuard::new(),
        };
        proof {
            assert(vec_map_view(c.owner_tokens@) =~= Map::<u64, Seq<u32>>::empty());
        }
        c
    }

    /// Configure the admin once; a second call fails `AlreadyInitialized`
    /// and changes nothing.
    pub fn initialize(&mut self, admin: u64) -> (r: Result<(), ContractError>)
        requires
            old(self).wf(),
        ensures
            final(self).wf(),
            final(self)@ == old(self)@,
            final(self).token_ids_seq() == old(self).token_ids_seq(),
            final(self).core_opt() == old(self).core_opt(),
            final(self).guard_held() == old(self).guard_held(),
            old(self).admin_opt() is Some ==> r == Err::<(), ContractError>(
                ContractError::AlreadyInitialized,
            ) && final(self).admin_opt() == old(self).admin_opt(),
            old(self).admin_opt() is None ==> r == Ok::<(), ContractError>(())
                && final(self).admin_opt() == Some(admin),
    {
        if self.admin.is_some() {
            return Err(ContractError::AlreadyInitialized);
        }
        self.admin = Some(admin);
        Ok(())
    }

    /// Set the authorized settlement contract; admin only.
    pub fn set_core_contract(&mut self, caller: u64, core_contract: u64) -> (r: Result<
        (),
        ContractError,
    >)
        requires
            old(self).wf(),
        ensures
            final(self).wf(),
            final(self)@ == old(self)@,
            final(self).token_ids_seq() == old(self).token_ids_seq(),
            final(self).admin_opt() == old(self).admin_opt(),
            final(self).guard_held() == old(self).guard_held(),
            old(self).admin_opt() is None ==> r == Err::<(), ContractError>(
                ContractError::NotInitialized,
            ) && final(self).core_opt() == old(self).core_opt(),
            old(self).admin_opt() is Some && old(self).admin_opt() != Some(caller) ==> r == Err::<
                (),
                ContractError,
            >(ContractError::NotAuthorized) && final(self).core_opt() == old(self).core_opt(),
            old(self).admin_opt() == Some(caller) ==> r == Ok::<(), ContractError>(())
                && final(self).core_opt() == Some(core_contract),
    {
        let admin = match self.admin {
            Some(a) => a,
            None => {
                return Err(ContractError::NotInitialized);
            },
        };
        if caller != admin {
            return Err(ContractError::NotAuthorized);
        }
        self.core_contract = Some(core_contract);
        Ok(())
    }

    /// The authorized settlement contract, or `NotInitialized`.
    pub fn get_core_contract(&self) -> (r: Result<u64, ContractError>)
        ensures
            match self.core_opt() {
                Some(c) => r == Ok::<u64, ContractError>(c),
                None => r == Err::<u64, ContractError>(ContractError::NotInitialized),
            },
    {
        match self.core_contract {
            Some(c) => Ok(c),
            None => Err(ContractError::NotInitialized),
        }
    }

    /// The admin, or `NotInitialized`.
    pub fn get_admin(&self) -> (r: Result<u64, ContractError>)
        ensures
            match self.admin_opt() {
                Some(a) => r == Ok::<u64, ContractError>(a),
                None => r == Err::<u64, ContractError>(ContractError::NotInitialized),
            },
    {
        match self.admin {
            Some(a) => Ok(a),
            None => Err(ContractError::NotInitialized),
        }
    }

    /// Mint a token for a commitment: validates the terms, assigns the
    /// next sequential token id (starting at 1, whoever the owner is),
    /// stores the record, increments the owner's balance and appends to
    /// the owner's and the global token lists. Guarded against reentrancy.
    pub fn mint(
        &mut self,
        owner: u64,
        commitment_id: u64,
        duration_days: u32,
        max_loss_percent: u32,
        commitment_type: Option<CommitmentType>,
        initial_amount: i128,
        asset_address: u64,
        early_exit_penalty: u32,
        now: u64,
    ) -> (r: Result<u32, ContractError>)
        requires
            old(self).wf(),
            // machine limits: the id counter and the expiry clock must not wrap
            old(self)@.nfts.len() < u32::MAX,
            now + duration_days as u64 * SECONDS_PER_DAY <= u64::MAX,
        ensures
            final(self).wf(),
            final(self).admin_opt() == old(self).admin_opt(),
            final(self).core_opt() == old(self).core_opt(),
            old(self).guard_held() ==> r == Err::<u32, ContractError>(
                ContractError::ReentrancyDetected,
            ) && final(self).guard_held() && final(self)@ == old(self)@
                && final(self).token_ids_seq() == old(self).token_ids_seq(),
            !old(self).guard_held() ==> !final(self).guard_held() && {
                if old(self).admin_opt() is None {
                    r == Err::<u32, ContractError>(ContractError::NotInitialized) && final(self)@
                        == old(self)@ && final(self).token_ids_seq() == old(self).token_ids_seq()
                } else if duration_days == 0 {
                    r == Err::<u32, ContractError>(ContractError::InvalidDuration) && final(self)@
                        == old(self)@ && final(self).token_ids_seq() == old(self).token_ids_seq()
                } else if max_loss_percent > 100 {
                    r == Err::<u32, ContractError>(ContractError::InvalidMaxLoss) && final(self)@
                        == old(self)@ && final(self).token_ids_seq() == old(self).token_ids_seq()
                } else if commitment_type is None {
                    r == Err::<u32, ContractError>(ContractError::InvalidCommitmentType)
                        && final(self)@ == old(self)@ && final(self).token_ids_seq() == old(self).token_ids_seq()
                } else if initial_amount <= 0 {
                    r == Err::<u32, ContractError>(ContractError::InvalidAmount) && final(self)@
                        == old(self)@ && final(self).token_ids_seq() == old(self).token_ids_seq()
                } else {
                    let tid = (old(self)@.nfts.len() + 1) as u32;
                    &&& r == Ok::<u32, ContractError>(tid)
                    &&& final(self)@.nfts == old(self)@.nfts.push(
                        spec_minted_nft(
                            tid,
                            owner,
                            commitment_id,
                            duration_days,
                            max_loss_percent,
                            commitment_type.unwrap(),
                            initial_amount,
                            asset_address,
                            early_exit_penalty,
                            now,
                        ),
                    )
                    &&& final(self)@.balances == old(self)@.balances.insert(
                        owner,
                        (bal_of(old(self)@, owner) + 1) as u32,
                    )
                    &&& final(self)@.owner_tokens == old(self)@.owner_tokens.insert(
                        owner,
                        toks_of(old(self)@, owner).push(tid),
                    )
                    &&& final(self).token_ids_seq() == old(self).token_ids_seq().push(tid)
                }
            },
    {
        if !self.guard.try_acquire() {
            return Err(ContractError::ReentrancyDetected);
        }
        if self.admin.is_none() {
            self.guard.release();
            return Err(ContractError::NotInitialized);
        }
        if duration_days == 0 {
            self.guard.release();
            return Err(ContractError::InvalidDuration);
        }
        if max_loss_percent > 100 {
            self.guard.release();
            return Err(ContractError::InvalidMaxLoss);
        }
        let ctype = match commitment_type {
            Some(t) => t,
            None => {
                self.guard.release();
                return Err(ContractError::InvalidCommitmentType);
            },
        };
        if initial_amount <= 0 {
            self.guard.release();
            return Err(ContractError::InvalidAmount);
        }
        let ghost v0 = self@;
        let token_id = self.token_counter + 1;
        self.token_counter = token_id;
        let expires_at = now + duration_days as u64 * SECONDS_PER_DAY;
        let nft = CommitmentNFT {
            owner,
            token_id,
            metadata: CommitmentMetadata {
                commitment_id,
                duration_days,
                max_loss_percent,
                commitment_type: ctype,
                created_at: now,
                expires_at,
                initial_amount,
                asset_address,
            },
            is_active: true,
            early_exit_penalty,
        };
        self.nfts.push(nft);
        proof {
            lemma_balance_bound(v0, owner);
        }
        let bal = match self.balances.get(&owner) {
            Some(b) => *b,
            None => 0,
        };
        self.balances.insert(owner, bal + 1);
        let mut list = match self.owner_tokens.get(&owner) {
            Some(l) => copy_list(l),
            None => Vec::new(),
        };
        list.push(token_id);
        let ghost list_snap = list@;
        let ghost list_val = list;
        let ghost ot0 = self.owner_tokens@;
        self.owner_tokens.insert(owner, list);
        self.token_ids.push(token_id);
        self.guard.release();
        proof {
            let v2 = self@;
            lemma_vec_map_view_insert(ot0, owner, list_val);
            assert(v2.owner_tokens =~= v0.owner_tokens.insert(
                owner,
                toks_of(v0, owner).push(token_id),
            )) by {
                assert(v2.owner_tokens =~= vec_map_view(ot0).insert(owner, list_snap));
                assert(list_snap =~= toks_of(v0, owner).push(token_id));
            }
            assert(v2.nfts =~= v0.nfts.push(nft));
            assert(v2.balances =~= v0.balances.insert(owner, (bal_of(v0, owner) + 1) as u32));
            // invariant preservation
            let tid = token_id;
            assert forall|k: int| 0 <= k < v2.nfts.len() implies (#[trigger] v2.nfts[k]).token_id
                == k + 1 by {
                if k < v0.nfts.len() {
                    assert(v2.nfts[k] == v0.nfts[k]);
                }
            }
            assert(!toks_of(v0, owner).contains(tid)) by {
                if toks_of(v0, owner).contains(tid) {
                    assert(1 <= tid <= v0.nfts.len());
                }
            }
            assert forall|a: u64| (#[trigger] toks_of(v2, a)).no_duplicates() by {
                if a == owner {
                    lemma_push_nodup(toks_of(v0, owner), tid);
                    assert(toks_of(v2, a) == toks_of(v0, owner).push(tid));
                } else {
                    assert(toks_of(v2, a) == toks_of(v0, a));
                }
            }
            assert forall|a: u64, t: u32| #[trigger] toks_of(v2, a).contains(t) <==> (1 <= t
                <= v2.nfts.len() && v2.nfts[t as int - 1].owner == a) by {
                if t == tid {
                    assert(v2.nfts[t as int - 1] == nft);
                } else if 1 <= t <= v0.nfts.len() {
                    assert(v2.nfts[t as int - 1] == v0.nfts[t as int - 1]);
                }
                if a == owner {
                    assert(toks_of(v2, a) == toks_of(v0, owner).push(tid));
                    lemma_push_contains(toks_of(v0, owner), tid, t);
                } else {
                    assert(toks_of(v2, a) == toks_of(v0, a));
                    if toks_of(v0, a).contains(t) {
                        assert(1 <= t <= v0.nfts.len());
                    }
                }
            }
            assert forall|a: u64| (#[trigger] bal_of(v2, a)) as int == toks_of(v2, a).len() by {
                if a == owner {
                    assert(bal_of(v2, a) as int == bal_of(v0, a) + 1);
                    assert(toks_of(v2, a).len() == toks_of(v0, a).len() + 1);
                } else {
                    assert(bal_of(v2, a) == bal_of(v0, a));
                    assert(toks_of(v2, a) == toks_of(v0, a));
                }
            }
            assert(wf_view(v2));
        }
        Ok(token_id)
    }

    /// The full token record; fails `TokenNotFound` on an unknown id.
    pub fn get_metadata(&self, token_id: u32) -> (r: Result<CommitmentNFT, ContractError>)
        ensures
            1 <= token_id <= self@.nfts.len() ==> r == Ok::<CommitmentNFT, ContractError>(
                self@.nfts[token_id as int - 1],
            ),
            !(1 <= token_id <= self@.nfts.len()) ==> r == Err::<CommitmentNFT, ContractError>(
                ContractError::TokenNotFound,
            ),
    {
        if token_id < 1 || token_id as usize > self.nfts.len() {
            return Err(ContractError::TokenNotFound);
        }
        Ok(self.nfts[(token_id - 1) as usize])
    }

    /// The token's current owner; fails `TokenNotFound` on an unknown id.
    pub fn owner_of(&self, token_id: u32) -> (r: Result<u64, ContractError>)
        ensures
            1 <= token_id <= self@.nfts.len() ==> r == Ok::<u64, ContractError>(
                self@.nfts[token_id as int - 1].owner,
            ),
            !(1 <= token_id <= self@.nfts.len()) ==> r == Err::<u64, ContractError>(
                ContractError::TokenNotFound,
            ),
    {
        match self.get_metadata(token_id) {
            Ok(nft) => Ok(nft.owner),
            Err(e) => Err(e),
        }
    }

    /// Whether the token is still active; fails `TokenNotFound` on an
    /// unknown id.
    pub fn is_active(&self, token_id: u32) -> (r: Result<bool, ContractError>)
        ensures
            1 <= token_id <= self@.nfts.len() ==> r == Ok::<bool, ContractError>(
                self@.nfts[token_id as int - 1].is_active,
            ),
            !(1 <= token_id <= self@.nfts.len()) ==> r == Err::<bool, ContractError>(
                ContractError::TokenNotFound,
            ),
    {
        match self.get_metadata(token_id) {
            Ok(nft) => Ok(nft.is_active),
            Err(e) => Err(e),
        }
    }

    /// Number of tokens ever minted.
    pub fn total_supply(&self) -> (n: u32)
        requires
            self.wf(),
        ensures
            n as int == self@.nfts.len(),
    {
        self.token_counter
    }

    /// The owner's balance counter; 0 for an unknown owner.
    pub fn balance_of(&self, owner: u64) -> (n: u32)
        ensures
            n == bal_of(self@, owner),
    {
        match self.balances.get(&owner) {
            Some(b) => *b,
            None => 0,
        }
    }

    /// Whether a token with this id has been minted.
    pub fn token_exists(&self, token_id: u32) -> (r: bool)
        ensures
            r == (1 <= token_id <= self@.nfts.len()),
    {
        token_id >= 1 && token_id as usize <= self.nfts.len()
    }

    /// All token records, in mint order.
    pub fn get_all_metadata(&self) -> (r: Vec<CommitmentNFT>)
        ensures
            r@ == self@.nfts,
    {
        let n = self.nfts.len();
        let mut out: Vec<CommitmentNFT> = Vec::new();
        let mut i: usize = 0;
        while i < n
            invariant
                n == self.nfts@.len(),
                i <= n,
                out@ == self.nfts@.take(i as int),
            decreases n - i,
        {
            out.push(self.nfts[i]);
            proof {
                assert(out@ =~= self.nfts@.take(i as int + 1));
            }
            i += 1;
        }
        proof {
            assert(self.nfts@.take(n as int) =~= self.nfts@);
        }
        out
    }

    /// The records of the owner's tokens, in the owner-list order.
    pub fn get_nfts_by_owner(&self, owner: u64) -> (r: Vec<CommitmentNFT>)
        requires
            self.wf(),
        ensures
            r@.len() == toks_of(self@, owner).len(),
            forall|j: int|
                0 <= j < r@.len() ==> #[trigger] r@[j] == self@.nfts[toks_of(self@, owner)[j]
                    as int - 1],
    {
        let mut out: Vec<CommitmentNFT> = Vec::new();
        let empty: Vec<u32> = Vec::new();
        let list = match self.owner_tokens.get(&owner) {
            Some(l) => l,
            None => &empty,
        };
        proof {
            assert(list@ == toks_of(self@, owner));
        }
        let n = list.len();
        let mut i: usize = 0;
        while i < n
            invariant
                self.wf(),
                list@ == toks_of(self@, owner),
                n == list@.len(),
                i <= n,
                out@.len() == i,
                forall|j: int|
                    0 <= j < i ==> #[trigger] out@[j] == self@.nfts[list@[j] as int - 1],
            decreases n - i,
        {
            let t = list[i];
            proof {
                assert(toks_of(self@, owner).contains(t)) by {
                    assert(toks_of(self@, owner)[i as int] == t);
                }
            }
            out.push(self.nfts[(t - 1) as usize]);
            i += 1;
        }
        out
    }

    /// Transfer a token to a new owner. Ownership is checked; active and
    /// settled tokens transfer alike (an explicit design choice). Guarded
    /// against reentrancy.
    pub fn transfer(&mut self, from: u64, to: u64, token_id: u32) -> (r: Result<(), ContractError>)
        requires
            old(self).wf(),
        ensures
            final(self).wf(),
            final(self).admin_opt() == old(self).admin_opt(),
            final(self).core_opt() == old(self).core_opt(),
            final(self).token_ids_seq() == old(self).token_ids_seq(),
            old(self).guard_held() ==> r == Err::<(), ContractError>(
                ContractError::ReentrancyDetected,
            ) && final(self).guard_held() && final(self)@ == old(self)@,
            !old(self).guard_held() ==> !final(self).guard_held() && {
                let p = (TransferParams { from, to, token_id });
                match transfer_error(old(self)@, p) {
                    Some(e) => r == Err::<(), ContractError>(e) && final(self)@ == old(self)@,
                    None => r == Ok::<(), ContractError>(()) && final(self)@ == apply_transfer(
                        old(self)@,
                        p,
                    ),
                }
            },
    {
        if !self.guard.try_acquire() {
            return Err(ContractError::ReentrancyDetected);
        }
        let ghost v0 = self@;
        let ghost p = TransferParams { from, to, token_id };
        if token_id < 1 || token_id as usize > self.nfts.len() {
            self.guard.release();
            return Err(ContractError::TokenNotFound);
        }
        let idx = (token_id - 1) as usize;
        let nft = self.nfts[idx];
        if nft.owner != from {
            self.guard.release();
            return Err(ContractError::NotOwner);
        }
        proof {
            lemma_step_preserves_wf(v0, p);
        }
        self.nfts.set(idx, CommitmentNFT { owner: to, ..nft });
        let bfrom = match self.balances.get(&from) {
            Some(b) => *b,
            None => 0,
        };
        let newf = if bfrom > 0 {
            bfrom - 1
        } else {
            0
        };
        self.balances.insert(from, newf);
        let bto = match self.balances.get(&to) {
            Some(b) => *b,
            None => 0,
        };
        self.balances.insert(to, bto + 1);
        let mut from_list = match self.owner_tokens.get(&from) {
            Some(l) => copy_list(l),
            None => Vec::new(),
        };
        remove_first_value(&mut from_list, token_id);
        let ghost from_snap = from_list@;
        let ghost from_val = from_list;
        let ghost ot0 = self.owner_tokens@;
        self.owner_tokens.insert(from, from_list);
        let mut to_list = match self.owner_tokens.get(&to) {
            Some(l) => copy_list(l),
            None => Vec::new(),
        };
        to_list.push(token_id);
        let ghost to_snap = to_list@;
        let ghost to_val = to_list;
        let ghost ot1 = self.owner_tokens@;
        self.owner_tokens.insert(to, to_list);
        self.guard.release();
        proof {
            let va = apply_transfer(v0, p);
            assert(self@.nfts =~= va.nfts);
            assert(self@.balances =~= va.balances);
            lemma_vec_map_view_insert(ot0, from, from_val);
            lemma_vec_map_view_insert(ot1, to, to_val);
            assert(vec_map_view(ot1) =~= vec_map_view(ot0).insert(from, from_snap));
            assert(self@.owner_tokens =~= vec_map_view(ot1).insert(to, to_snap));
            assert(self@.owner_tokens =~= va.owner_tokens);
            assert(self@ =~= va);
        }
        Ok(())
    }

    /// Mark a token settled after its expiry: fails `TokenNotFound` on an
    /// unknown id, `AlreadySettled` once inactive (idempotent calls after
    /// the first must fail), `NotExpired` before the stored expiry.
    /// Guarded against reentrancy.
    pub fn settle(&mut self, token_id: u32, now: u64) -> (r: Result<(), ContractError>)
        requires
            old(self).wf(),
        ensures
            final(self).wf(),
            final(self).admin_opt() == old(self).admin_opt(),
            final(self).core_opt() == old(self).core_opt(),
            final(self).token_ids_seq() == old(self).token_ids_seq(),
            old(self).guard_held() ==> r == Err::<(), ContractError>(
                ContractError::ReentrancyDetected,
            ) && final(self).guard_held() && final(self)@ == old(self)@,
            !old(self).guard_held() ==> !final(self).guard_held() && final(self)@
                == spec_settle_token(old(self)@, token_id, now).0 && r == spec_settle_token(
                old(self)@,
                token_id,
                now,
            ).1,
    {
        if !self.guard.try_acquire() {
            return Err(ContractError::ReentrancyDetected);
        }
        let ghost v0 = self@;
        if token_id < 1 || token_id as usize > self.nfts.len() {
            self.guard.release();
            return Err(ContractError::TokenNotFound);
        }
        let idx = (token_id - 1) as usize;
        let nft = self.nfts[idx];
        if !nft.is_active {
            self.guard.release();
            return Err(ContractError::AlreadySettled);
        }
        if now < nft.metadata.expires_at {
            self.guard.release();
            return Err(ContractError::NotExpired);
        }
        self.nfts.set(idx, CommitmentNFT { is_active: false, ..nft });
        self.guard.release();
        proof {
            lemma_settle_preserves_wf(v0, token_id, now);
            assert(self@.nfts =~= spec_settle_token(v0, token_id, now).0.nfts);
            assert(self@ =~= spec_settle_token(v0, token_id, now).0);
        }
        Ok(())
    }

    /// Whether the token's commitment has expired at `now`; fails
    /// `TokenNotFound` on an unknown id.
    pub fn is_expired(&self, token_id: u32, now: u64) -> (r: Result<bool, ContractError>)
        ensures
            1 <= token_id <= self@.nfts.len() ==> r == Ok::<bool, ContractError>(
                now >= self@.nfts[token_id as int - 1].metadata.expires_at,
            ),
            !(1 <= token_id <= self@.nfts.len()) ==> r == Err::<bool, ContractError>(
                ContractError::TokenNotFound,
            ),
    {
        match self.get_metadata(token_id) {
            Ok(nft) => Ok(now >= nft.metadata.expires_at),
            Err(e) => Err(e),
        }
    }

    /// Transfer many tokens in one call. The batch size is validated
    /// against the ceiling before any mutation. Per-address balance deltas
    /// and token-list edits are accumulated across the whole batch and
    /// applied once per address at the end; the contract states that the
    /// final state is observationally identical to applying the items
    /// sequentially one at a time ([`fold_transfers`]). `Atomic` aborts on
    /// the first failing item with zero mutations applied; `BestEffort`
    /// records failures per index and carries on. Guarded against
    /// reentrancy, the guard released on every exit path.
    #[verifier::rlimit(100)]
    pub fn batch_transfer(&mut self, params_list: &Vec<TransferParams>, mode: BatchMode) -> (r:
        BatchResultVoid)
        requires
            old(self).wf(),
        ensures
            final(self).wf(),
            final(self).admin_opt() == old(self).admin_opt(),
            final(self).core_opt() == old(self).core_opt(),
            final(self).token_ids_seq() == old(self).token_ids_seq(),
            old(self).guard_held() ==> final(self).guard_held() && final(self)@ == old(self)@
                && r.successful == 0 && r.errors@ == seq![
                (BatchError {
                    index: 0,
                    error: BatchErrorCode::Contract(ContractError::ReentrancyDetected),
                }),
            ],
            !old(self).guard_held() ==> !final(self).guard_held() && {
                if params_list@.len() > crate::batch::MAX_BATCH_SIZE as int {
                    &&& final(self)@ == old(self)@
                    &&& r.successful == 0
                    &&& r.errors@ == seq![
                        (BatchError { index: 0, error: BatchErrorCode::SizeExceeded }),
                    ]
                } else if mode is Atomic {
                    match first_failure(old(self)@, params_list@) {
                        None => {
                            &&& final(self)@ == fold_transfers(old(self)@, params_list@)
                            &&& r.successful == params_list@.len()
                            &&& r.errors@.len() == 0
                        },
                        Some(fe) => {
                            &&& final(self)@ == old(self)@
                            &&& r.successful == 0
                            &&& r.errors@ == seq![
                                (BatchError {
                                    index: fe.0 as usize,
                                    error: BatchErrorCode::Contract(fe.1),
                                }),
                            ]
                        },
                    }
                } else {
                    &&& final(self)@ == fold_transfers(old(self)@, params_list@)
                    &&& r.errors@ == batch_error_seq(old(self)@, params_list@)
                    &&& r.successful + r.errors@.len() == params_list@.len()
                }
            },
    {
        if !self.guard.try_acquire() {
            let mut errors: Vec<BatchError> = Vec::new();
            errors.push(
                BatchError {
                    index: 0,
                    error: BatchErrorCode::Contract(ContractError::ReentrancyDetected),
                },
            );
            return BatchResultVoid { successful: 0, errors };
        }
        let n = params_list.len();
        match BatchProcessor::enforce_batch_limits(n) {
            Err(code) => {
                self.guard.release();
                let mut errors: Vec<BatchError> = Vec::new();
                errors.push(BatchError { index: 0, error: code });
                proof {
                    assert(self@ =~= old(self)@);
                }
                return BatchResultVoid { successful: 0, errors };
            },
            Ok(()) => {},
        }
        let ghost v0 = self@;
        let ghost mut fv: RegistryView = v0;
        let mut errors: Vec<BatchError> = Vec::new();
        let mut successful: usize = 0;
        let mut owner_updates: KvCache<u64> = KvCache::new();
        let mut balance_deltas: KvCache<i64> = KvCache::new();
        let mut token_updates: KvCache<Vec<u32>> = KvCache::new();
        let mut i: usize = 0;
        proof {
            assert(params_list@.take(0) =~= Seq::<TransferParams>::empty());
        }
        while i < n
            invariant
                old(self).wf(),
                self.guard.is_held(),
                !old(self).guard_held(),
                self.nfts@ == old(self).nfts@,
                self.balances@ == old(self).balances@,
                self.owner_tokens@ == old(self).owner_tokens@,
                self.admin == old(self).admin,
                self.core_contract == old(self).core_contract,
                self.token_counter == old(self).token_counter,
                self.token_ids@ == old(self).token_ids@,
                v0 == old(self)@,
                wf_view(v0),
                n == params_list@.len(),
                n <= crate::batch::MAX_BATCH_SIZE,
                i <= n,
                owner_updates.keys_unique(),
                balance_deltas.keys_unique(),
                token_updates.keys_unique(),
                fv == fold_transfers(v0, params_list@.take(i as int)),
                wf_view(fv),
                fv.nfts.len() == v0.nfts.len(),
                forall|k: int|
                    0 <= k < v0.nfts.len() ==> #[trigger] fv.nfts[k] == (match owner_updates.spec_get(
                        (k + 1) as u64,
                    ) {
                        Some(o) => CommitmentNFT { owner: o, ..v0.nfts[k] },
                        None => v0.nfts[k],
                    }),
                forall|k: u64| #[trigger] owner_updates.spec_contains(k) ==> 1 <= k <= v0.nfts.len(),
                forall|a: u64|
                    (#[trigger] bal_of(fv, a)) as int == bal_of(v0, a) + (
                    match balance_deltas.spec_get(a) {
                        Some(d) => d as int,
                        None => 0,
                    }),
                forall|a: u64|
                    #[trigger] fv.balances.contains_key(a) <==> (v0.balances.contains_key(a)
                        || balance_deltas.spec_contains(a)),
                forall|a: u64|
                    #[trigger] balance_deltas.spec_get(a) is Some ==> -(i as int)
                        <= balance_deltas.spec_get(a).unwrap() as int <= i as int,
                forall|a: u64|
                    (#[trigger] toks_of(fv, a)) == (match token_updates.spec_get(a) {
                        Some(l) => l@,
                        None => toks_of(v0, a),
                    }),
                forall|a: u64|
                    #[trigger] fv.owner_tokens.contains_key(a) <==> (v0.owner_tokens.contains_key(a)
                        || token_updates.spec_contains(a)),
                mode is Atomic ==> errors@.len() == 0 && first_failure(
                    v0,
                    params_list@.take(i as int),
                ) is None,
                mode is BestEffort ==> errors@ == batch_error_seq(v0, params_list@.take(i as int)),
                successful as int == i - errors@.len(),
                errors@.len() <= i,
            decreases n - i,
        {
            let p = params_list[i];
            let ghost fv_pre = fv;
            proof {
                assert(params_list@.take(i as int + 1).drop_last() =~= params_list@.take(i as int));
                assert(params_list@.take(i as int + 1).last() == params_list@[i as int]);
            }
            let mut item_err: Option<ContractError> = None;
            if p.token_id < 1 || p.token_id as usize > self.nfts.len() {
                item_err = Some(ContractError::TokenNotFound);
            } else {
                let cur_owner = match owner_updates.get(p.token_id as u64) {
                    Some(o) => *o,
                    None => self.nfts[(p.token_id - 1) as usize].owner,
                };
                proof {
                    assert(fv.nfts[p.token_id as int - 1] == (match owner_updates.spec_get(
                        p.token_id as u64,
                    ) {
                        Some(o) => CommitmentNFT { owner: o, ..v0.nfts[p.token_id as int - 1] },
                        None => v0.nfts[p.token_id as int - 1],
                    }));
                    assert(cur_owner == fv.nfts[p.token_id as int - 1].owner);
                }
                if cur_owner != p.from {
                    item_err = Some(ContractError::NotOwner);
                }
            }
            proof {
                assert(item_err == transfer_error(fv, p));
            }
            match item_err {
                Some(e) => {
                    if matches!(mode, BatchMode::Atomic) {
                        proof {
                            lemma_first_failure_extend(v0, params_list@, i as int);
                        }
                        self.guard.release();
                        let mut aerrs: Vec<BatchError> = Vec::new();
                        aerrs.push(BatchError { index: i, error: BatchErrorCode::Contract(e) });
                        proof {
                            assert(self@ =~= old(self)@);
                            assert(aerrs@ =~= seq![
                                (BatchError { index: i, error: BatchErrorCode::Contract(e) }),
                            ]);
                        }
                        return BatchResultVoid { successful: 0, errors: aerrs };
                    }
                    errors.push(BatchError { index: i, error: BatchErrorCode::Contract(e) });
                    proof {
                        fv = step_transfer(fv, p);
                        assert(fv == fv_pre);
                        assert(errors@ =~= batch_error_seq(v0, params_list@.take(i as int + 1)));
                    }
                },
                None => {
                    proof {
                        lemma_step_preserves_wf(fv, p);
                    }
                    let tid64 = p.token_id as u64;
                    let ghost ou_pre = owner_updates;
                    owner_updates.set(tid64, p.to);
                    proof {
                        assert forall|k: u64| #[trigger] owner_updates.spec_contains(k) implies 1
                            <= k <= v0.nfts.len() by {
                            if k != tid64 {
                                assert(owner_updates.spec_get(k) == ou_pre.spec_get(k));
                                assert(ou_pre.spec_contains(k));
                            }
                        }
                    }
                    let dfrom = match balance_deltas.get(p.from) {
                        Some(d) => *d,
                        None => 0,
                    };
                    balance_deltas.set(p.from, dfrom - 1);
                    let dto = match balance_deltas.get(p.to) {
                        Some(d) => *d,
                        None => 0,
                    };
                    balance_deltas.set(p.to, dto + 1);
                    let mut flist = match token_updates.get(p.from) {
                        Some(l) => copy_list(l),
                        None => match self.owner_tokens.get(&p.from) {
                            Some(l) => copy_list(l),
                            None => Vec::new(),
                        },
                    };
                    proof {
                        assert(flist@ == toks_of(fv_pre, p.from));
                    }
                    remove_first_value(&mut flist, p.token_id);
                    let ghost flist_snap = flist@;
                    token_updates.set(p.from, flist);
                    let mut tlist = match token_updates.get(p.to) {
                        Some(l) => copy_list(l),
                        None => match self.owner_tokens.get(&p.to) {
                            Some(l) => copy_list(l),
                            None => Vec::new(),
                        },
                    };
                    tlist.push(p.token_id);
                    let ghost tlist_snap = tlist@;
                    token_updates.set(p.to, tlist);
                    successful = successful + 1;
                    proof {
                        fv = step_transfer(fv_pre, p);
                        let va = apply_transfer(fv_pre, p);
                        assert(fv == va);
                        if mode is BestEffort {
                            assert(errors@ =~= batch_error_seq(
                                v0,
                                params_list@.take(i as int + 1),
                            ));
                        }
                        // owner overlay
                        assert forall|k: int| 0 <= k < v0.nfts.len() implies #[trigger] fv.nfts[k]
                            == (match owner_updates.spec_get((k + 1) as u64) {
                            Some(o) => CommitmentNFT { owner: o, ..v0.nfts[k] },
                            None => v0.nfts[k],
                        }) by {
                            if k == p.token_id as int - 1 {
                                assert(fv.nfts[k] == CommitmentNFT {
                                    owner: p.to,
                                    ..fv_pre.nfts[k]
                                });
                                assert(fv.nfts[k] == CommitmentNFT { owner: p.to, ..v0.nfts[k] });
                            } else {
                                assert(fv.nfts[k] == fv_pre.nfts[k]);
                                assert((k + 1) as u64 != tid64);
                            }
                        }
                        // balances overlay
                        assert forall|a: u64| (#[trigger] bal_of(fv, a)) as int == bal_of(v0, a)
                            + (match balance_deltas.spec_get(a) {
                            Some(d) => d as int,
                            None => 0,
                        }) by {
                            if p.to == p.from {
                                if a == p.from {
                                    assert(bal_of(fv, a) == bal_of(fv_pre, a));
                                    assert(balance_deltas.spec_get(a) == Some((dto + 1) as i64));
                                    assert(dto == dfrom - 1);
                                } else {
                                    assert(bal_of(fv, a) == bal_of(fv_pre, a));
                                }
                            } else {
                                if a == p.from {
                                    assert(bal_of(fv, a) as int == bal_of(fv_pre, a) - 1);
                                    assert(balance_deltas.spec_get(a) == Some((dfrom - 1) as i64));
                                } else if a == p.to {
                                    assert(bal_of(fv, a) as int == bal_of(fv_pre, a) + 1);
                                    assert(balance_deltas.spec_get(a) == Some((dto + 1) as i64));
                                } else {
                                    assert(bal_of(fv, a) == bal_of(fv_pre, a));
                                }
                            }
                        }
                        assert forall|a: u64| #[trigger] fv.balances.contains_key(a) <==> (
                        v0.balances.contains_key(a) || balance_deltas.spec_contains(a)) by {
                            if a != p.from && a != p.to {
                                assert(fv.balances.contains_key(a)
                                    == fv_pre.balances.contains_key(a));
                            }
                        }
                        // token list overlay
                        assert forall|a: u64| (#[trigger] toks_of(fv, a)) == (
                        match token_updates.spec_get(a) {
                            Some(l) => l@,
                            None => toks_of(v0, a),
                        }) by {
                            if a == p.to {
                                assert(token_updates.spec_get(a) is Some);
                                assert(token_updates.spec_get(a).unwrap()@ == tlist_snap);
                                if p.to == p.from {
                                    assert(toks_of(fv, a) == flist_snap.push(p.token_id));
                                } else {
                                    assert(toks_of(fv, a) == toks_of(fv_pre, p.to).push(
                                        p.token_id,
                                    ));
                                }
                            } else if a == p.from {
                                assert(toks_of(fv, a) == flist_snap);
                            } else {
                                assert(toks_of(fv, a) == toks_of(fv_pre, a));
                            }
                        }
                        assert forall|a: u64| #[trigger] fv.owner_tokens.contains_key(a) <==> (
                        v0.owner_tokens.contains_key(a) || token_updates.spec_contains(a)) by {
                            if a != p.from && a != p.to {
                                assert(fv.owner_tokens.contains_key(a)
                                    == fv_pre.owner_tokens.contains_key(a));
                            }
                        }
                    }
                },
            }
            i += 1;
        }
        proof {
            assert(params_list@.take(n as int) =~= params_list@);
        }
        // Flush the cached owner updates, one write per token.
        while owner_updates.len() > 0
            invariant
                old(self).wf(),
                self.guard.is_held(),
                !old(self).guard_held(),
                self.balances@ == old(self).balances@,
                self.owner_tokens@ == old(self).owner_tokens@,
                self.admin == old(self).admin,
                self.core_contract == old(self).core_contract,
                self.token_counter == old(self).token_counter,
                self.token_ids@ == old(self).token_ids@,
                v0 == old(self)@,
                wf_view(fv),
                fv.nfts.len() == v0.nfts.len(),
                self.nfts@.len() == v0.nfts.len(),
                owner_updates.keys_unique(),
                forall|k: u64| #[trigger] owner_updates.spec_contains(k) ==> 1 <= k <= v0.nfts.len(),
                forall|k: int| #![trigger fv.nfts[k]]
                    0 <= k < v0.nfts.len() ==> (match owner_updates.spec_get((k + 1) as u64) {
                        Some(o) => self.nfts@[k] == v0.nfts[k] && fv.nfts[k] == CommitmentNFT {
                            owner: o,
                            ..v0.nfts[k]
                        },
                        None => self.nfts@[k] == fv.nfts[k],
                    }),
            decreases owner_updates.entries_seq().len(),
        {
            let ghost cache_pre = owner_updates;
            let ghost nfts_pre = self.nfts@;
            let e = owner_updates.pop();
            match e {
                Some((tid, o)) => {
                    proof {
                        assert(cache_pre.spec_contains(tid));
                        assert(1 <= tid <= v0.nfts.len());
                        assert(fv.nfts[tid as int - 1] == CommitmentNFT {
                            owner: o,
                            ..v0.nfts[tid as int - 1]
                        });
                        assert(nfts_pre[tid as int - 1] == v0.nfts[tid as int - 1]);
                    }
                    let idx = (tid - 1) as usize;
                    let nft = self.nfts[idx];
                    self.nfts.set(idx, CommitmentNFT { owner: o, ..nft });
                    proof {
                        assert forall|k: u64| #[trigger] owner_updates.spec_contains(k) implies 1
                            <= k <= v0.nfts.len() by {
                            assert(owner_updates.spec_get(k) == cache_pre.spec_get(k));
                            assert(cache_pre.spec_contains(k));
                        }
                        assert forall|k: int| #![trigger fv.nfts[k]] 0 <= k < v0.nfts.len() implies (
                        match owner_updates.spec_get((k + 1) as u64) {
                            Some(o2) => self.nfts@[k] == v0.nfts[k] && fv.nfts[k]
                                == CommitmentNFT { owner: o2, ..v0.nfts[k] },
                            None => self.nfts@[k] == fv.nfts[k],
                        }) by {
                            if k == tid as int - 1 {
                                assert(owner_updates.spec_get((k + 1) as u64) is None);
                                assert(self.nfts@[k] == CommitmentNFT {
                                    owner: o,
                                    ..v0.nfts[k]
                                });
                            } else {
                                assert(owner_updates.spec_get((k + 1) as u64) == cache_pre.spec_get(
                                    (k + 1) as u64,
                                ));
                                assert(self.nfts@[k] == nfts_pre[k]);
                            }
                        }
                    }
                },
                None => {},
            }
        }
        proof {
            assert forall|k: int| 0 <= k < v0.nfts.len() implies self.nfts@[k] == fv.nfts[k] by {}
            assert(self.nfts@ =~= fv.nfts);
        }
        // Flush the accumulated balance deltas, one write per address.
        while balance_deltas.len() > 0
            invariant
                old(self).wf(),
                self.guard.is_held(),
                !old(self).guard_held(),
                self.nfts@ == fv.nfts,
                self.owner_tokens@ == old(self).owner_tokens@,
                self.admin == old(self).admin,
                self.core_contract == old(self).core_contract,
                self.token_counter == old(self).token_counter,
                self.token_ids@ == old(self).token_ids@,
                v0 == old(self)@,
                wf_view(fv),
                fv.nfts.len() == v0.nfts.len(),
                n <= crate::batch::MAX_BATCH_SIZE,
                balance_deltas.keys_unique(),
                forall|a: u64|
                    #[trigger] balance_deltas.spec_get(a) is Some ==> -(n as int)
                        <= balance_deltas.spec_get(a).unwrap() as int <= n as int,
                forall|a: u64| #![trigger balance_deltas.spec_get(a)]
                    match balance_deltas.spec_get(a) {
                        Some(d) => map_bal(self.balances@, a) == bal_of(v0, a) && (
                        self.balances@.contains_key(a) <==> v0.balances.contains_key(a)) && bal_of(
                            fv,
                            a,
                        ) as int == bal_of(v0, a) + d as int && fv.balances.contains_key(a),
                        None => map_bal(self.balances@, a) == bal_of(fv, a) && (
                        self.balances@.contains_key(a) <==> fv.balances.contains_key(a)),
                    },
            decreases balance_deltas.entries_seq().len(),
        {
            let ghost cache_pre = balance_deltas;
            let ghost bal_pre = self.balances@;
            let e = balance_deltas.pop();
            match e {
                Some((addr, d)) => {
                    proof {
                        assert(cache_pre.spec_get(addr) == Some(d));
                    }
                    let base = match self.balances.get(&addr) {
                        Some(b) => *b,
                        None => 0,
                    };
                    proof {
                        assert(base == bal_of(v0, addr));
                        assert(bal_of(fv, addr) as int == base + d as int);
                        lemma_balance_bound(fv, addr);
                    }
                    let nb_raw: i64 = base as i64 + d;
                    let nb: i64 = if nb_raw < 0 {
                        0
                    } else {
                        nb_raw
                    };
                    self.balances.insert(addr, nb as u32);
                    proof {
                        assert(nb as u32 == bal_of(fv, addr));
                        assert forall|a: u64| #![trigger balance_deltas.spec_get(a)] true implies (match balance_deltas.spec_get(a) {
                            Some(d2) => map_bal(self.balances@, a) == bal_of(v0, a) && (
                            self.balances@.contains_key(a) <==> v0.balances.contains_key(a))
                                && bal_of(fv, a) as int == bal_of(v0, a) + d2 as int
                                && fv.balances.contains_key(a),
                            None => map_bal(self.balances@, a) == bal_of(fv, a) && (
                            self.balances@.contains_key(a) <==> fv.balances.contains_key(a)),
                        }) by {
                            if a == addr {
                                assert(balance_deltas.spec_get(a) is None);
                                assert(map_bal(self.balances@, a) == bal_of(fv, a));
                                assert(fv.balances.contains_key(a));
                            } else {
                                assert(balance_deltas.spec_get(a) == cache_pre.spec_get(a));
                                assert(map_bal(self.balances@, a) == map_bal(bal_pre, a));
                                assert(self.balances@.contains_key(a) == bal_pre.contains_key(a));
                            }
                        }
                    }
                },
                None => {},
            }
        }
        proof {
            assert forall|a: u64| #![trigger self.balances@.contains_key(a)] self.balances@.contains_key(a) == fv.balances.contains_key(a) by {
                assert(balance_deltas.spec_get(a) is None);
            }
            assert forall|a: u64| fv.balances.contains_key(a) implies #[trigger] self.balances@[a]
                == fv.balances[a] by {
                assert(balance_deltas.spec_get(a) is None);
                assert(map_bal(self.balances@, a) == bal_of(fv, a));
            }
            assert(self.balances@ =~= fv.balances);
        }
        // Flush the cached token-list edits, one write per address.
        while token_updates.len() > 0
            invariant
                old(self).wf(),
                self.guard.is_held(),
                !old(self).guard_held(),
                self.nfts@ == fv.nfts,
                self.balances@ == fv.balances,
                self.admin == old(self).admin,
                self.core_contract == old(self).core_contract,
                self.token_counter == old(self).token_counter,
                self.token_ids@ == old(self).token_ids@,
                v0 == old(self)@,
                wf_view(fv),
                fv.nfts.len() == v0.nfts.len(),
                token_updates.keys_unique(),
                forall|a: u64| #![trigger token_updates.spec_get(a)]
                    match token_updates.spec_get(a) {
                        Some(l) => map_toks(self.owner_tokens@, a) == toks_of(v0, a) && (
                        self.owner_tokens@.contains_key(a) <==> v0.owner_tokens.contains_key(a))
                            && toks_of(fv, a) == l@ && fv.owner_tokens.contains_key(a),
                        None => map_toks(self.owner_tokens@, a) == toks_of(fv, a) && (
                        self.owner_tokens@.contains_key(a) <==> fv.owner_tokens.contains_key(a)),
                    },
            decreases token_updates.entries_seq().len(),
        {
            let ghost cache_pre = token_updates;
            let ghost ot_pre = self.owner_tokens@;
            let e = token_updates.pop();
            match e {
                Some((addr, l)) => {
                    let ghost l_snap = l@;
                    proof {
                        assert(cache_pre.spec_get(addr) is Some);
                        assert(toks_of(fv, addr) == l_snap);
                        assert(fv.owner_tokens.contains_key(addr));
                    }
                    self.owner_tokens.insert(addr, l);
                    proof {
                        assert(map_toks(self.owner_tokens@, addr) == l_snap);
                        assert forall|a: u64| #![trigger token_updates.spec_get(a)] true implies (match token_updates.spec_get(a) {
                            Some(l2) => map_toks(self.owner_tokens@, a) == toks_of(v0, a) && (
                            self.owner_tokens@.contains_key(a) <==> v0.owner_tokens.contains_key(
                                a,
                            )) && toks_of(fv, a) == l2@ && fv.owner_tokens.contains_key(a),
                            None => map_toks(self.owner_tokens@, a) == toks_of(fv, a) && (
                            self.owner_tokens@.contains_key(a) <==> fv.owner_tokens.contains_key(
                                a,
                            )),
                        }) by {
                            if a == addr {
                                assert(token_updates.spec_get(a) is None);
                            } else {
                                assert(token_updates.spec_get(a) == cache_pre.spec_get(a));
                                assert(map_toks(self.owner_tokens@, a) == map_toks(ot_pre, a));
                                assert(self.owner_tokens@.contains_key(a) == ot_pre.contains_key(
                                    a,
                                ));
                            }
                        }
                    }
                },
                None => {},
            }
        }
        self.guard.release();
        proof {
            assert forall|a: u64| #![trigger self@.owner_tokens.contains_key(a)] self@.owner_tokens.contains_key(a) == fv.owner_tokens.contains_key(a) by {
                assert(token_updates.spec_get(a) is None);
                assert(self@.owner_tokens.contains_key(a) == self.owner_tokens@.contains_key(a));
            }
            assert forall|a: u64| fv.owner_tokens.contains_key(a) implies #[trigger] self@.owner_tokens[a]
                == fv.owner_tokens[a] by {
                assert(token_updates.spec_get(a) is None);
                assert(map_toks(self.owner_tokens@, a) == toks_of(fv, a));
                assert(self@.owner_tokens[a] == self.owner_tokens@[a]@);
            }
            assert(self@.owner_tokens =~= fv.owner_tokens);
            assert(self@.balances =~= fv.balances);
            assert(self@.nfts =~= fv.nfts);
            assert(self@ =~= fv);
            assert(self.wf());
        }
        BatchResultVoid { successful, errors }
    }
}

} // verus!
