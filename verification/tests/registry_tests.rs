use commitments::batch::{BatchErrorCode, BatchMode};
use commitments::errors::ContractError;
use commitments::registry::{CommitmentNFTContract, TransferParams};
use commitments::types::CommitmentType;

const ADMIN: u64 = 1;
const OWNER: u64 = 10;
const USER1: u64 = 11;
const USER2: u64 = 12;
const ASSET: u64 = 40;
const COMMITMENT: u64 = 1;

fn setup() -> CommitmentNFTContract {
    let mut registry = CommitmentNFTContract::new();
    registry.initialize(ADMIN).unwrap();
    registry
}

fn mint_test_token(registry: &mut CommitmentNFTContract, owner: u64) -> u32 {
    registry
        .mint(
            owner,
            COMMITMENT,
            30,
            10,
            Some(CommitmentType::Safe),
            1000_0000000,
            ASSET,
            0,
            0,
        )
        .unwrap()
}

#[test]
fn tests_test_initialize() {
    let mut registry = setup();
    let token_id = mint_test_token(&mut registry, OWNER);
    assert_eq!(token_id, 1);
}

#[test]
fn test_initialize_twice_should_fail() {
    let mut registry = setup();
    assert_eq!(
        registry.initialize(ADMIN),
        Err(ContractError::AlreadyInitialized)
    );
}

#[test]
fn test_mint() {
    let mut registry = setup();
    let token_id = mint_test_token(&mut registry, OWNER);
    assert_eq!(token_id, 1);

    let nft = registry.get_metadata(token_id).unwrap();
    assert_eq!(nft.metadata.commitment_id, COMMITMENT);
    assert_eq!(nft.metadata.duration_days, 30);
    assert_eq!(nft.metadata.max_loss_percent, 10);
    assert_eq!(nft.metadata.commitment_type, CommitmentType::Safe);
    assert_eq!(nft.metadata.initial_amount, 1000_0000000);
    assert_eq!(nft.metadata.asset_address, ASSET);

    let owner = registry.owner_of(token_id).unwrap();
    assert_eq!(owner, OWNER);

    assert!(registry.is_active(token_id).unwrap());
}

#[test]
fn test_mint_multiple() {
    let mut registry = setup();
    for i in 0..5u32 {
        let token_id = registry
            .mint(
                OWNER,
                7,
                30,
                10,
                Some(CommitmentType::Aggressive),
                1000_0000000,
                ASSET,
                0,
                0,
            )
            .unwrap();
        assert_eq!(token_id, i + 1);
    }
}

#[test]
fn test_get_metadata() {
    let mut registry = setup();
    let token_id = mint_test_token(&mut registry, OWNER);
    let nft = registry.get_metadata(token_id).unwrap();
    assert_eq!(nft.metadata.commitment_id, COMMITMENT);
    assert!(nft.metadata.expires_at >= nft.metadata.created_at);
}

#[test]
fn test_get_metadata_nonexistent_token() {
    let registry = setup();
    assert_eq!(
        registry.get_metadata(999),
        Err(ContractError::TokenNotFound)
    );
}

#[test]
fn test_owner_of() {
    let mut registry = setup();
    let token_id = mint_test_token(&mut registry, OWNER);
    assert_eq!(registry.owner_of(token_id).unwrap(), OWNER);
}

#[test]
fn test_owner_of_nonexistent_token() {
    let registry = setup();
    assert_eq!(registry.owner_of(999), Err(ContractError::TokenNotFound));
}

#[test]
fn test_transfer() {
    let mut registry = setup();
    let token_id = mint_test_token(&mut registry, OWNER);
    registry.transfer(OWNER, USER1, token_id).unwrap();
    assert_eq!(registry.owner_of(token_id).unwrap(), USER1);
}

#[test]
fn test_transfer_by_non_owner() {
    let mut registry = setup();
    let token_id = mint_test_token(&mut registry, OWNER);
    assert_eq!(
        registry.transfer(USER1, USER2, token_id),
        Err(ContractError::NotOwner)
    );
    assert_eq!(registry.owner_of(token_id).unwrap(), OWNER);
}

#[test]
fn test_is_active() {
    let mut registry = setup();
    let token_id = mint_test_token(&mut registry, OWNER);
    assert!(registry.is_active(token_id).unwrap());
}

#[test]
fn test_is_active_nonexistent_token() {
    let registry = setup();
    assert!(!registry.is_active(999).unwrap_or(false));
}

#[test]
fn tests_test_settle() {
    let mut registry = setup();
    let token_id = mint_test_token(&mut registry, OWNER);
    let expires_at = registry.get_metadata(token_id).unwrap().metadata.expires_at;
    registry.settle(token_id, expires_at + 1).unwrap();
    assert!(!registry.is_active(token_id).unwrap());
}

#[test]
fn test_settle_before_expiration() {
    let mut registry = setup();
    let token_id = mint_test_token(&mut registry, OWNER);
    assert_eq!(registry.settle(token_id, 0), Err(ContractError::NotExpired));
}

#[test]
fn test_settle_nonexistent_token() {
    let mut registry = setup();
    assert_eq!(registry.settle(999, 0), Err(ContractError::TokenNotFound));
}

#[test]
fn test_settle_twice_fails() {
    let mut registry = setup();
    let token_id = mint_test_token(&mut registry, OWNER);
    let expires_at = registry.get_metadata(token_id).unwrap().metadata.expires_at;
    registry.settle(token_id, expires_at).unwrap();
    assert_eq!(
        registry.settle(token_id, expires_at + 7),
        Err(ContractError::AlreadySettled)
    );
}

#[test]
fn test_transfer_after_settle_is_allowed() {
    // Settled tokens transfer like active ones: an explicit design
    // choice of the registry, not an oversight.
    let mut registry = setup();
    let token_id = mint_test_token(&mut registry, OWNER);
    let expires_at = registry.get_metadata(token_id).unwrap().metadata.expires_at;
    registry.settle(token_id, expires_at + 1).unwrap();
    registry.transfer(OWNER, USER1, token_id).unwrap();
    assert_eq!(registry.owner_of(token_id).unwrap(), USER1);
}

#[test]
fn test_mint_with_zero_duration() {
    let mut registry = setup();
    let r = registry.mint(
        OWNER,
        COMMITMENT,
        0,
        10,
        Some(CommitmentType::Aggressive),
        1000_0000000,
        ASSET,
        0,
        0,
    );
    assert_eq!(r, Err(ContractError::InvalidDuration));
}

#[test]
fn test_mint_with_max_values() {
    let mut registry = setup();
    let token_id = registry
        .mint(
            OWNER,
            COMMITMENT,
            u32::MAX,
            100,
            Some(CommitmentType::Aggressive),
            i128::MAX,
            ASSET,
            0,
            0,
        )
        .unwrap();
    assert_eq!(token_id, 1);
}

#[test]
fn test_mint_validation_errors() {
    let mut registry = setup();
    assert_eq!(
        registry.mint(OWNER, COMMITMENT, 30, 101, Some(CommitmentType::Safe), 5, ASSET, 0, 0),
        Err(ContractError::InvalidMaxLoss)
    );
    assert_eq!(
        registry.mint(OWNER, COMMITMENT, 30, 10, None, 5, ASSET, 0, 0),
        Err(ContractError::InvalidCommitmentType)
    );
    assert_eq!(
        registry.mint(OWNER, COMMITMENT, 30, 10, Some(CommitmentType::Safe), 0, ASSET, 0, 0),
        Err(ContractError::InvalidAmount)
    );
    assert_eq!(registry.total_supply(), 0);
}

#[test]
fn test_mint_ids_increase_by_one_across_owners() {
    // Token ids increase strictly by 1 starting at 1, independent of
    // which owner receives them.
    let mut registry = setup();
    let owners = [OWNER, USER2, USER1, OWNER, USER2];
    for (i, owner) in owners.iter().enumerate() {
        let token_id = registry
            .mint(
                *owner,
                COMMITMENT,
                30,
                10,
                Some(CommitmentType::Balanced),
                7,
                ASSET,
                0,
                0,
            )
            .unwrap();
        assert_eq!(token_id as usize, i + 1);
    }
    assert_eq!(registry.total_supply(), 5);
}

#[test]
fn test_balances_and_token_lists_follow_transfers() {
    let mut registry = setup();
    let t1 = mint_test_token(&mut registry, OWNER);
    let t2 = mint_test_token(&mut registry, OWNER);
    assert_eq!(registry.balance_of(OWNER), 2);
    assert_eq!(registry.balance_of(USER1), 0);
    registry.transfer(OWNER, USER1, t1).unwrap();
    assert_eq!(registry.balance_of(OWNER), 1);
    assert_eq!(registry.balance_of(USER1), 1);
    let owned = registry.get_nfts_by_owner(OWNER);
    assert_eq!(owned.len(), 1);
    assert_eq!(owned[0].token_id, t2);
    let owned1 = registry.get_nfts_by_owner(USER1);
    assert_eq!(owned1.len(), 1);
    assert_eq!(owned1[0].token_id, t1);
    assert_eq!(registry.get_all_metadata().len(), 2);
    assert!(registry.token_exists(t1));
    assert!(!registry.token_exists(3));
}

#[test]
fn test_batch_transfer_atomic_matches_sequential() {
    // An atomic batch over distinct tokens leaves exactly the state that
    // applying the transfers one at a time leaves.
    let mut batch_reg = setup();
    let mut seq_reg = setup();
    for _ in 0..3 {
        mint_test_token(&mut batch_reg, OWNER);
        mint_test_token(&mut seq_reg, OWNER);
    }
    let transfers = vec![
        TransferParams { from: OWNER, to: USER1, token_id: 1 },
        TransferParams { from: OWNER, to: USER2, token_id: 2 },
        TransferParams { from: USER1, to: USER2, token_id: 1 },
    ];
    let result = batch_reg.batch_transfer(&transfers, BatchMode::Atomic);
    assert_eq!(result.successful, 3);
    assert!(result.errors.is_empty());
    for p in &transfers {
        seq_reg.transfer(p.from, p.to, p.token_id).unwrap();
    }
    for owner in [OWNER, USER1, USER2] {
        assert_eq!(batch_reg.balance_of(owner), seq_reg.balance_of(owner));
        let b: Vec<u32> = batch_reg.get_nfts_by_owner(owner).iter().map(|n| n.token_id).collect();
        let s: Vec<u32> = seq_reg.get_nfts_by_owner(owner).iter().map(|n| n.token_id).collect();
        assert_eq!(b, s);
    }
    for t in 1..=3u32 {
        assert_eq!(batch_reg.owner_of(t).unwrap(), seq_reg.owner_of(t).unwrap());
    }
}

#[test]
fn test_batch_transfer_atomic_failure_changes_nothing() {
    let mut registry = setup();
    let t1 = mint_test_token(&mut registry, OWNER);
    let _t2 = mint_test_token(&mut registry, OWNER);
    let transfers = vec![
        TransferParams { from: OWNER, to: USER1, token_id: t1 },
        TransferParams { from: USER2, to: USER1, token_id: 2 },
    ];
    let result = registry.batch_transfer(&transfers, BatchMode::Atomic);
    assert_eq!(result.successful, 0);
    assert_eq!(result.errors.len(), 1);
    assert_eq!(result.errors[0].index, 1);
    assert_eq!(
        result.errors[0].error,
        BatchErrorCode::Contract(ContractError::NotOwner)
    );
    // zero mutations applied
    assert_eq!(registry.owner_of(t1).unwrap(), OWNER);
    assert_eq!(registry.balance_of(OWNER), 2);
    assert_eq!(registry.balance_of(USER1), 0);
}

#[test]
fn test_batch_transfer_best_effort_skips_failures() {
    let mut registry = setup();
    let t1 = mint_test_token(&mut registry, OWNER);
    let t2 = mint_test_token(&mut registry, OWNER);
    let transfers = vec![
        TransferParams { from: OWNER, to: USER1, token_id: t1 },
        TransferParams { from: OWNER, to: USER1, token_id: 99 },
        TransferParams { from: OWNER, to: USER2, token_id: t2 },
    ];
    let result = registry.batch_transfer(&transfers, BatchMode::BestEffort);
    assert_eq!(result.successful, 2);
    assert_eq!(result.errors.len(), 1);
    assert_eq!(result.errors[0].index, 1);
    assert_eq!(
        result.errors[0].error,
        BatchErrorCode::Contract(ContractError::TokenNotFound)
    );
    assert_eq!(registry.owner_of(t1).unwrap(), USER1);
    assert_eq!(registry.owner_of(t2).unwrap(), USER2);
}

#[test]
fn test_batch_transfer_size_ceiling() {
    let mut registry = setup();
    let t1 = mint_test_token(&mut registry, OWNER);
    let transfers: Vec<TransferParams> = (0..101)
        .map(|_| TransferParams { from: OWNER, to: USER1, token_id: t1 })
        .collect();
    let result = registry.batch_transfer(&transfers, BatchMode::BestEffort);
    assert_eq!(result.successful, 0);
    assert_eq!(result.errors.len(), 1);
    assert_eq!(result.errors[0].index, 0);
    assert_eq!(result.errors[0].error, BatchErrorCode::SizeExceeded);
    assert_eq!(registry.owner_of(t1).unwrap(), OWNER);
}

#[test]
fn test_guarded_operations_reject_reentry() {
    // Entering a guarded operation while the guard is held fails with
    // ReentrancyDetected; a completed call leaves the guard released.
    let mut registry = setup();
    let token_id = mint_test_token(&mut registry, OWNER);
    assert!(!registry.guard.held());

    assert!(registry.guard.try_acquire());
    assert_eq!(
        registry.transfer(OWNER, USER1, token_id),
        Err(ContractError::ReentrancyDetected)
    );
    assert_eq!(
        registry.mint(OWNER, COMMITMENT, 30, 10, Some(CommitmentType::Safe), 5, ASSET, 0, 0),
        Err(ContractError::ReentrancyDetected)
    );
    assert_eq!(registry.settle(token_id, 0), Err(ContractError::ReentrancyDetected));
    let result = registry.batch_transfer(&Vec::new(), BatchMode::Atomic);
    assert_eq!(result.successful, 0);
    assert_eq!(
        result.errors[0].error,
        BatchErrorCode::Contract(ContractError::ReentrancyDetected)
    );
    registry.guard.release();

    // success and failure paths both release the guard
    registry.transfer(OWNER, USER1, token_id).unwrap();
    assert!(!registry.guard.held());
    assert_eq!(
        registry.transfer(OWNER, USER2, token_id),
        Err(ContractError::NotOwner)
    );
    assert!(!registry.guard.held());
}

#[test]
fn test_core_contract_admin_controls() {
    let mut registry = setup();
    assert_eq!(
        registry.get_core_contract(),
        Err(ContractError::NotInitialized)
    );
    assert_eq!(
        registry.set_core_contract(USER1, 77),
        Err(ContractError::NotAuthorized)
    );
    registry.set_core_contract(ADMIN, 77).unwrap();
    assert_eq!(registry.get_core_contract().unwrap(), 77);
    assert_eq!(registry.get_admin().unwrap(), ADMIN);
}

#[test]
fn test_is_expired_tracks_time() {
    let mut registry = setup();
    let token_id = mint_test_token(&mut registry, OWNER);
    let expires_at = registry.get_metadata(token_id).unwrap().metadata.expires_at;
    assert!(!registry.is_expired(token_id, expires_at - 1).unwrap());
    assert!(registry.is_expired(token_id, expires_at).unwrap());
    assert_eq!(registry.is_expired(999, 0), Err(ContractError::TokenNotFound));
}

#[test]
fn test_mint_requires_initialization() {
    let mut registry = CommitmentNFTContract::new();
    assert_eq!(
        registry.mint(OWNER, COMMITMENT, 30, 10, Some(CommitmentType::Safe), 5, ASSET, 0, 0),
        Err(ContractError::NotInitialized)
    );
    assert!(!registry.guard.held());
}

#[test]
fn test_balance_counters_sum_to_supply() {
    // Over all owners, the balance counters always sum to the number of
    // minted tokens.
    let mut registry = setup();
    for owner in [OWNER, OWNER, USER1, USER2] {
        mint_test_token(&mut registry, owner);
    }
    registry.transfer(OWNER, USER2, 1).unwrap();
    registry.transfer(USER1, USER2, 3).unwrap();
    let total: u32 = [OWNER, USER1, USER2]
        .iter()
        .map(|o| registry.balance_of(*o))
        .sum();
    assert_eq!(total, registry.total_supply());
}
