use commitments::engine::AttestationEngineContract;
use commitments::errors::AttestationError;
use commitments::ledger::{CommitmentLedger, CommitmentRules};
use commitments::types::{AttestationKind, AttestationPayload, CommitmentType, Severity};

const ADMIN: u64 = 1;
const CORE: u64 = 2;
const OWNER: u64 = 10;
const ASSET: u64 = 40;

fn setup_test_env() -> (AttestationEngineContract, CommitmentLedger) {
    let mut engine = AttestationEngineContract::new();
    engine.initialize(ADMIN, CORE).unwrap();
    let mut ledger = CommitmentLedger::new();
    ledger.initialize(ADMIN, CORE).unwrap();
    (engine, ledger)
}

fn store_core_commitment(
    ledger: &mut CommitmentLedger,
    owner: u64,
    initial: i128,
    current: i128,
    max_loss: u32,
    duration_days: u32,
    created_at: u64,
) -> u64 {
    let rules = CommitmentRules {
        duration_days,
        max_loss_percent: max_loss,
        commitment_type: CommitmentType::Safe,
        early_exit_penalty: 0,
        min_fee_threshold: 100,
        grace_period_days: 0,
    };
    let id = ledger
        .create_commitment(owner, initial, ASSET, rules, created_at)
        .unwrap();
    ledger.update_value(id, current).unwrap();
    id
}

fn payload(severity: Option<Severity>) -> AttestationPayload {
    AttestationPayload { severity }
}

#[test]
fn test_initialize_and_getters() {
    let mut engine = AttestationEngineContract::new();
    assert_eq!(engine.initialize(ADMIN, CORE), Ok(()));
    assert_eq!(engine.get_admin().unwrap(), ADMIN);
    assert_eq!(engine.get_core_contract().unwrap(), CORE);
}

#[test]
fn test_initialize_twice_fails() {
    let (mut engine, mut ledger) = setup_test_env();
    engine.add_verifier(ADMIN, ADMIN).unwrap();

    // Happy path: in-range drawdown, fees recorded, no open violation.
    let c1 = store_core_commitment(&mut ledger, OWNER, 1_000, 900, 20, 10, 0);
    engine.record_fees(ADMIN, c1, 100).unwrap();
    assert!(engine.verify_compliance(&ledger, c1, false));

    // Loss limit exceeded: 30% drawdown over a 20% tolerance.
    ledger.update_value(c1, 700).unwrap();
    assert!(!engine.verify_compliance(&ledger, c1, false));

    // Expiry is not checked by compliance verification.
    ledger.update_value(c1, 900).unwrap();
    let expires = ledger.get_commitment(c1).unwrap().expires_at;
    assert!(engine.verify_compliance(&ledger, c1, false));
    assert!(expires > 0);

    // Fee thresholds are not checked either.
    let c2 = store_core_commitment(&mut ledger, OWNER, 1_000, 900, 20, 10, 0);
    assert!(engine.verify_compliance(&ledger, c2, false));

    // Violations recorded for c2; the oracle now reports them open.
    for _ in 0..3 {
        engine
            .attest(
                ADMIN,
                c2,
                AttestationKind::Violation,
                payload(Some(Severity::High)),
                false,
                0,
            )
            .unwrap();
    }
    assert!(!engine.verify_compliance(&ledger, c2, true));

    // Unknown commitment: the division-by-zero guard reads zero values.
    assert!(engine.verify_compliance(&ledger, 999, false));
}

#[test]
fn engine_test_initialize() {
    let (engine, _ledger) = setup_test_env();
    let attestations = engine.get_attestations(5);
    assert!(attestations.is_empty());
}

#[test]
fn test_fee_get_attestation_fee_default() {
    let (engine, _ledger) = setup_test_env();
    let (amount, asset) = engine.get_attestation_fee();
    assert_eq!(amount, 0);
    assert!(asset.is_none());
}

#[test]
fn test_fee_set_attestation_fee() {
    let (mut engine, _ledger) = setup_test_env();
    let fee_asset: u64 = 55;
    engine.set_attestation_fee(ADMIN, 100, fee_asset).unwrap();
    let (amount, asset) = engine.get_attestation_fee();
    assert_eq!(amount, 100);
    assert_eq!(asset.unwrap(), fee_asset);
}

#[test]
fn test_fee_set_fee_recipient() {
    let (mut engine, _ledger) = setup_test_env();
    assert!(engine.get_fee_recipient().is_none());
    let treasury: u64 = 66;
    engine.set_fee_recipient(ADMIN, treasury).unwrap();
    assert_eq!(engine.get_fee_recipient().unwrap(), treasury);
}

#[test]
fn test_fee_get_collected_fees_default() {
    let (engine, _ledger) = setup_test_env();
    assert_eq!(engine.get_collected_fees(ASSET), 0);
}

#[test]
fn test_fee_withdraw_requires_recipient() {
    // Withdraw fails when no fee recipient is configured.
    let (mut engine, _ledger) = setup_test_env();
    assert_eq!(
        engine.withdraw_fees(ADMIN, ASSET, 100),
        Err(AttestationError::NoFeeRecipient)
    );
}

#[test]
fn test_get_attestations_empty() {
    let (engine, _ledger) = setup_test_env();
    let attestations = engine.get_attestations(1);
    assert_eq!(attestations.len(), 0);
}

#[test]
fn test_get_health_metrics_basic() {
    let (engine, mut ledger) = setup_test_env();
    let id = store_core_commitment(&mut ledger, OWNER, 1000, 950, 10, 30, 1000);
    let metrics = engine.get_health_metrics(&ledger, id);
    assert_eq!(metrics.commitment_id, id);
    assert!(metrics.compliance_score <= 100);
}

#[test]
fn test_get_health_metrics_drawdown_calculation() {
    let (engine, mut ledger) = setup_test_env();
    let id = store_core_commitment(&mut ledger, OWNER, 1000, 900, 10, 30, 1000);
    let metrics = engine.get_health_metrics(&ledger, id);
    // initial 1000, current 900: 10% drawdown
    assert_eq!(metrics.drawdown_percent, 10);
}

#[test]
fn test_get_health_metrics_zero_initial_value() {
    let (engine, ledger) = setup_test_env();
    // An unknown commitment reads as zero values; the drawdown guard
    // yields 0 instead of dividing by zero.
    let metrics = engine.get_health_metrics(&ledger, 1);
    assert!(metrics.drawdown_percent == 0);
    assert_eq!(metrics.initial_value, 0);
}

#[test]
fn test_calculate_compliance_score_base() {
    let (engine, mut ledger) = setup_test_env();
    let id = store_core_commitment(&mut ledger, OWNER, 1000, 950, 10, 30, 1000);
    let score = engine.calculate_compliance_score(&ledger, id, 0);
    assert!(score <= 100);
}

#[test]
fn test_calculate_compliance_score_clamping() {
    let (engine, mut ledger) = setup_test_env();
    let id = store_core_commitment(&mut ledger, OWNER, 1000, 950, 10, 30, 1000);
    let score = engine.calculate_compliance_score(&ledger, id, 0);
    assert!(score <= 100);
}

#[test]
fn test_get_health_metrics_includes_compliance_score() {
    let (engine, mut ledger) = setup_test_env();
    let id = store_core_commitment(&mut ledger, OWNER, 1000, 950, 10, 30, 1000);
    let metrics = engine.get_health_metrics(&ledger, id);
    assert!(metrics.compliance_score <= 100);
}

#[test]
fn test_compliance_score_no_attestations_default() {
    let (engine, mut ledger) = setup_test_env();
    let id = store_core_commitment(&mut ledger, OWNER, 1000, 1000, 10, 30, 5000);
    let score = engine.calculate_compliance_score(&ledger, id, 10000);
    // Base 100 + 10 duration bonus = 110, clamped to 100.
    assert_eq!(score, 100);
}

#[test]
fn test_compliance_score_only_positive_attestations() {
    let (mut engine, mut ledger) = setup_test_env();
    let id = store_core_commitment(&mut ledger, OWNER, 1000, 1000, 10, 30, 5000);
    engine
        .attest(ADMIN, id, AttestationKind::HealthCheck, payload(None), true, 10000)
        .unwrap();
    let score = engine.calculate_compliance_score(&ledger, id, 10000);
    assert_eq!(score, 100);
}

#[test]
fn test_compliance_score_with_single_violation() {
    let (mut engine, mut ledger) = setup_test_env();
    let id = store_core_commitment(&mut ledger, OWNER, 1000, 1000, 10, 30, 5000);
    engine
        .attest(
            ADMIN,
            id,
            AttestationKind::Violation,
            payload(Some(Severity::Medium)),
            false,
            10000,
        )
        .unwrap();
    let metrics = engine.get_stored_health_metrics(id);
    // Base 100 - 20 (medium violation) = 80.
    assert_eq!(metrics.unwrap().compliance_score, 80);
}

#[test]
fn test_compliance_score_with_multiple_violations() {
    let (mut engine, mut ledger) = setup_test_env();
    let id = store_core_commitment(&mut ledger, OWNER, 1000, 1000, 10, 30, 5000);
    engine
        .attest(
            ADMIN,
            id,
            AttestationKind::Violation,
            payload(Some(Severity::Low)),
            false,
            10000,
        )
        .unwrap();
    engine
        .attest(
            ADMIN,
            id,
            AttestationKind::Violation,
            payload(Some(Severity::Medium)),
            false,
            10000,
        )
        .unwrap();
    let metrics = engine.get_stored_health_metrics(id);
    // Base 100 - 10 (low) - 20 (medium) = 70.
    assert_eq!(metrics.unwrap().compliance_score, 70);
}

#[test]
fn test_compliance_score_with_drawdown_penalty() {
    let (engine, mut ledger) = setup_test_env();
    // Initial 1000, current 700: 30% drawdown over a 10% tolerance.
    let id = store_core_commitment(&mut ledger, OWNER, 1000, 700, 10, 30, 5000);
    let score = engine.calculate_compliance_score(&ledger, id, 10000);
    // Base 100 + 10 (duration) - 20 (drawdown excess) = 90.
    assert_eq!(score, 90);
}

#[test]
fn test_compliance_score_with_fees_and_drawdown() {
    let (mut engine, mut ledger) = setup_test_env();
    // 15% drawdown, 5% over the tolerance.
    let id = store_core_commitment(&mut ledger, OWNER, 1000, 850, 10, 30, 5000);
    engine
        .attest(ADMIN, id, AttestationKind::FeeGeneration, payload(None), true, 10000)
        .unwrap();
    let score = engine.calculate_compliance_score(&ledger, id, 10000);
    // Base 100 + 10 (duration) - 5 = 105, clamped to 100; attestations
    // never fold in.
    assert_eq!(score, 100);
}

#[test]
fn test_compliance_score_clamped_at_zero() {
    let (mut engine, mut ledger) = setup_test_env();
    let id = store_core_commitment(&mut ledger, OWNER, 1000, 100, 10, 30, 5000);
    for _ in 0..5 {
        engine
            .attest(
                ADMIN,
                id,
                AttestationKind::Violation,
                payload(Some(Severity::High)),
                false,
                10000,
            )
            .unwrap();
    }
    let metrics = engine.get_stored_health_metrics(id);
    // Base 100 - 150 (five high violations at 30 each), clamped to 0.
    assert_eq!(metrics.unwrap().compliance_score, 0);
}

#[test]
fn test_compliance_score_clamped_at_100() {
    let (engine, mut ledger) = setup_test_env();
    // Gained value: no drawdown, within the duration.
    let id = store_core_commitment(&mut ledger, OWNER, 1000, 1100, 10, 30, 5000);
    let score = engine.calculate_compliance_score(&ledger, id, 10000);
    // Base 100 + 10 (duration) = 110, clamped to 100.
    assert_eq!(score, 100);
}

#[test]
fn test_compliance_score_mixed_attestations() {
    let (mut engine, mut ledger) = setup_test_env();
    let id = store_core_commitment(&mut ledger, OWNER, 1000, 880, 10, 30, 5000);
    engine
        .attest(ADMIN, id, AttestationKind::HealthCheck, payload(None), true, 10000)
        .unwrap();
    engine
        .attest(
            ADMIN,
            id,
            AttestationKind::Violation,
            payload(Some(Severity::Low)),
            false,
            10000,
        )
        .unwrap();
    engine
        .attest(ADMIN, id, AttestationKind::Drawdown, payload(None), true, 10000)
        .unwrap();
    let metrics = engine.get_stored_health_metrics(id);
    // 100 +1 (clamped at 100) - 10 (low violation) + 1 (drawdown) = 91;
    // the stored score never folds in the snapshot's drawdown penalty.
    assert_eq!(metrics.unwrap().compliance_score, 91);
}

#[test]
fn test_get_health_metrics_last_attestation() {
    let (engine, mut ledger) = setup_test_env();
    let id = store_core_commitment(&mut ledger, OWNER, 1000, 950, 10, 30, 1000);
    let metrics = engine.get_health_metrics(&ledger, id);
    assert_eq!(metrics.last_attestation, 0);
}

#[test]
fn test_all_three_functions_work_together() {
    let (engine, mut ledger) = setup_test_env();
    let id = store_core_commitment(&mut ledger, OWNER, 1000, 950, 10, 30, 1000);
    let attestations = engine.get_attestations(id);
    let metrics = engine.get_health_metrics(&ledger, id);
    let score = engine.calculate_compliance_score(&ledger, id, 0);
    assert_eq!(attestations.len(), 0);
    assert_eq!(metrics.commitment_id, id);
    assert!(score <= 100);
    assert_eq!(metrics.compliance_score, score);
}

#[test]
fn test_get_attestations_returns_empty_vec_when_none_exist() {
    let (engine, _ledger) = setup_test_env();
    let attestations1 = engine.get_attestations(1);
    let attestations2 = engine.get_attestations(2);
    assert_eq!(attestations1.len(), 0);
    assert_eq!(attestations2.len(), 0);
}

#[test]
fn test_health_metrics_structure() {
    let (engine, mut ledger) = setup_test_env();
    let id = store_core_commitment(&mut ledger, OWNER, 1000, 1000, 10, 30, 1000);
    let metrics = engine.get_health_metrics(&ledger, id);
    assert_eq!(metrics.commitment_id, id);
    assert_eq!(metrics.current_value, 1000);
    assert_eq!(metrics.initial_value, 1000);
    assert_eq!(metrics.drawdown_percent, 0);
    assert_eq!(metrics.fees_generated, 0);
    assert_eq!(metrics.volatility_exposure, 0);
    assert_eq!(metrics.last_attestation, 0);
    assert!(metrics.compliance_score <= 100);
}

#[test]
fn test_attest_and_get_metrics() {
    let (mut engine, mut ledger) = setup_test_env();
    let id = store_core_commitment(&mut ledger, OWNER, 1000, 1000, 10, 30, 1000);
    engine
        .attest(ADMIN, id, AttestationKind::HealthCheck, payload(None), true, 12345)
        .unwrap();
    let attestations = engine.get_attestations(id);
    assert_eq!(attestations.len(), 1);
    assert_eq!(attestations[0].attestation_type, AttestationKind::HealthCheck);
    let metrics = engine.get_health_metrics(&ledger, id);
    assert!(metrics.last_attestation > 0);
}

#[test]
fn test_attest_reentrancy_protection() {
    let (mut engine, mut ledger) = setup_test_env();
    let id = store_core_commitment(&mut ledger, OWNER, 1000, 1000, 10, 30, 1000);
    // Simulate reentry by holding the guard across the call.
    assert!(engine.guard.try_acquire());
    assert_eq!(
        engine.attest(ADMIN, id, AttestationKind::HealthCheck, payload(None), true, 0),
        Err(AttestationError::ReentrancyDetected)
    );
    // The holder's flag survives; once released, attestation succeeds and
    // releases the guard again on exit.
    engine.guard.release();
    engine
        .attest(ADMIN, id, AttestationKind::HealthCheck, payload(None), true, 0)
        .unwrap();
    assert!(!engine.guard.held());
}

#[test]
fn test_add_verifier_success() {
    let (mut engine, _ledger) = setup_test_env();
    let verifier: u64 = 33;
    engine.add_verifier(ADMIN, verifier).unwrap();
    let second = engine.initialize(ADMIN, CORE);
    assert_eq!(second, Err(AttestationError::AlreadyInitialized));
}

#[test]
fn tests_test_get_attestations_empty() {
    let mut engine = AttestationEngineContract::new();
    engine.initialize(ADMIN, CORE).unwrap();
    let attestations = engine.get_attestations(1);
    assert_eq!(attestations.len(), 0);
}

#[test]
fn test_get_health_metrics_no_attestations_returns_defaults() {
    let (engine, mut ledger) = setup_test_env();
    let id = store_core_commitment(&mut ledger, OWNER, 1000, 1000, 10, 30, 5000);
    let metrics = engine.get_health_metrics(&ledger, id);
    assert_eq!(metrics.commitment_id, id);
    assert_eq!(metrics.initial_value, 1000);
    assert_eq!(metrics.current_value, 1000);
    assert_eq!(metrics.drawdown_percent, 0);
    assert_eq!(metrics.fees_generated, 0);
    assert_eq!(metrics.volatility_exposure, 0);
    assert_eq!(metrics.last_attestation, 0);
    assert_eq!(metrics.compliance_score, 100);
}

#[test]
fn test_get_health_metrics_updates_after_first_attestation() {
    let (mut engine, mut ledger) = setup_test_env();
    let id = store_core_commitment(&mut ledger, OWNER, 1000, 1000, 10, 30, 5000);
    let metrics_before = engine.get_health_metrics(&ledger, id);
    assert_eq!(metrics_before.last_attestation, 0);
    engine
        .attest(ADMIN, id, AttestationKind::HealthCheck, payload(None), true, 1000)
        .unwrap();
    let metrics_after = engine.get_health_metrics(&ledger, id);
    assert_eq!(metrics_after.last_attestation, 1000);
    assert_eq!(metrics_after.commitment_id, id);
}

#[test]
fn test_score_duality() {
    // The stored running score and the on-demand recompute are two
    // independent views: a violation moves only the stored one.
    let (mut engine, mut ledger) = setup_test_env();
    let id = store_core_commitment(&mut ledger, OWNER, 1000, 1000, 10, 30, 5000);
    assert_eq!(engine.calculate_compliance_score(&ledger, id, 10000), 100);
    assert_eq!(engine.get_health_metrics(&ledger, id).compliance_score, 100);
    engine
        .attest(
            ADMIN,
            id,
            AttestationKind::Violation,
            payload(Some(Severity::Medium)),
            false,
            10000,
        )
        .unwrap();
    assert_eq!(engine.get_stored_health_metrics(id).unwrap().compliance_score, 80);
    assert_eq!(engine.calculate_compliance_score(&ledger, id, 10000), 100);
}

#[test]
fn test_unrecognized_severity_defaults_to_medium() {
    let (mut engine, mut ledger) = setup_test_env();
    let id = store_core_commitment(&mut ledger, OWNER, 1000, 1000, 10, 30, 5000);
    engine
        .attest(ADMIN, id, AttestationKind::Violation, payload(None), false, 0)
        .unwrap();
    assert_eq!(engine.get_stored_health_metrics(id).unwrap().compliance_score, 80);
}

#[test]
fn test_attest_requires_authorization() {
    let (mut engine, mut ledger) = setup_test_env();
    let id = store_core_commitment(&mut ledger, OWNER, 1000, 1000, 10, 30, 0);
    let stranger: u64 = 77;
    assert_eq!(
        engine.attest(stranger, id, AttestationKind::HealthCheck, payload(None), true, 0),
        Err(AttestationError::NotAuthorized)
    );
    engine.add_verifier(ADMIN, stranger).unwrap();
    engine
        .attest(stranger, id, AttestationKind::HealthCheck, payload(None), true, 0)
        .unwrap();
    assert_eq!(engine.get_attestations(id).len(), 1);
}

#[test]
fn test_record_fees_accumulates() {
    let (mut engine, mut ledger) = setup_test_env();
    let id = store_core_commitment(&mut ledger, OWNER, 1000, 1000, 10, 30, 0);
    assert_eq!(
        engine.record_fees(ADMIN, id, 0),
        Err(AttestationError::InvalidAmount)
    );
    assert_eq!(
        engine.record_fees(ADMIN, id, -5),
        Err(AttestationError::InvalidAmount)
    );
    engine.record_fees(ADMIN, id, 300).unwrap();
    engine.record_fees(ADMIN, id, 200).unwrap();
    let metrics = engine.get_health_metrics(&ledger, id);
    assert_eq!(metrics.fees_generated, 500);
}

#[test]
fn test_record_drawdown_is_display_only() {
    let (mut engine, mut ledger) = setup_test_env();
    let id = store_core_commitment(&mut ledger, OWNER, 1000, 1000, 10, 30, 5000);
    engine.record_drawdown(ADMIN, id, 42).unwrap();
    // The override shows in the stored record but never in scoring.
    assert_eq!(engine.get_stored_health_metrics(id).unwrap().drawdown_percent, 42);
    assert_eq!(engine.calculate_compliance_score(&ledger, id, 10000), 100);
    // The snapshot-derived drawdown is still computed from the ledger.
    assert_eq!(engine.get_health_metrics(&ledger, id).drawdown_percent, 0);
}

#[test]
fn test_withdraw_fees_bookkeeping() {
    let (mut engine, _ledger) = setup_test_env();
    engine.set_fee_recipient(ADMIN, 66).unwrap();
    assert_eq!(
        engine.withdraw_fees(ADMIN, ASSET, 100),
        Err(AttestationError::InvalidAmount)
    );
    assert_eq!(
        engine.withdraw_fees(77, ASSET, 100),
        Err(AttestationError::NotAuthorized)
    );
}

#[test]
fn test_engine_requires_initialization() {
    let mut engine = AttestationEngineContract::new();
    assert_eq!(engine.get_admin(), Err(AttestationError::NotInitialized));
    assert_eq!(engine.get_core_contract(), Err(AttestationError::NotInitialized));
    assert_eq!(
        engine.attest(ADMIN, 1, AttestationKind::HealthCheck, payload(None), true, 0),
        Err(AttestationError::NotInitialized)
    );
    assert!(!engine.guard.held());
}

#[test]
fn test_non_positive_other_attestation_leaves_score() {
    let (mut engine, mut ledger) = setup_test_env();
    let id = store_core_commitment(&mut ledger, OWNER, 1000, 1000, 10, 30, 0);
    engine
        .attest(ADMIN, id, AttestationKind::Other, payload(None), false, 7)
        .unwrap();
    let stored = engine.get_stored_health_metrics(id).unwrap();
    assert_eq!(stored.compliance_score, 100);
    assert_eq!(stored.last_attestation, 7);
    assert_eq!(engine.get_attestations(id).len(), 1);
}
