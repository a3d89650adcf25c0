use proof_of_emotion::biometric::{BiometricReading, BiometricType, EmotionalValidator};
use proof_of_emotion::byzantine::ByzantineDetector;
use proof_of_emotion::checkpoint::{CheckpointManager, ValidatorSignature};
use proof_of_emotion::consensus::{quorum_reached, required_votes, ConsensusConfig, ProofOfEmotionEngine};
use proof_of_emotion::crypto::{hash_biometric_data, KeyPair, Signature};
use proof_of_emotion::error::ConsensusError;
use proof_of_emotion::fork::ForkDetector;
use proof_of_emotion::health::{HealthIssue, HealthState, HealthStatus};
use proof_of_emotion::staking::{EmotionalStaking, SlashingOffense, SlashingSeverity};
use proof_of_emotion::types::{Block, BlockHeader, Transaction, Vote};
use proof_of_emotion::utils::{emotional_multiplier_permille, integer_sqrt};

fn now_ms() -> u64 {
    std::time::SystemTime::now().duration_since(std::time::UNIX_EPOCH).unwrap().as_millis() as u64
}

fn readings(t: u64, heart: i64, stress: i64, focus: i64, quality: u64) -> Vec<BiometricReading> {
    vec![
        BiometricReading {
            device_id: "d_heart".to_string(),
            biometric_type: BiometricType::HeartRate,
            value_milli: heart,
            quality_permille: quality,
            timestamp: t,
        },
        BiometricReading {
            device_id: "d_stress".to_string(),
            biometric_type: BiometricType::StressLevel,
            value_milli: stress,
            quality_permille: quality,
            timestamp: t + 100,
        },
        BiometricReading {
            device_id: "d_focus".to_string(),
            biometric_type: BiometricType::FocusLevel,
            value_milli: focus,
            quality_permille: quality,
            timestamp: t + 200,
        },
    ]
}

fn meta_block(height: u64, hash: &str, score: u8, strength: u8, timestamp: u64) -> Block {
    Block {
        header: BlockHeader {
            height,
            epoch: 0,
            previous_hash: "0".repeat(64),
            merkle_root: "merkle".to_string(),
            timestamp,
            difficulty: 0,
            nonce: 0,
            validator_id: "v".to_string(),
            emotional_score: score,
            consensus_strength: strength,
        },
        hash: hash.to_string(),
        transactions: vec![],
        signature: String::new(),
        proposer_public_key: String::new(),
        emotional_proof: None,
        consensus_metadata: None,
    }
}

// ---- engine, detectors and data model ----

#[test]
fn integration_tests_test_validator_registration() {
    let config = ConsensusConfig::default();
    let mut engine = ProofOfEmotionEngine::new(config).unwrap();

    let validator = EmotionalValidator::new("test-validator", 10_000).unwrap();
    assert!(engine.register_validator(validator).is_ok());

    let validator2 = EmotionalValidator::new("test-validator-2", 5_000).unwrap();
    assert!(engine.register_validator(validator2).is_err());
}

#[test]
fn test_emotional_validation() {
    let mut validator = EmotionalValidator::new("test", 10_000).unwrap();
    validator.update_emotional_state(readings(now_ms(), 70_000, 20_000, 85_000, 900)).unwrap();
    let score = validator.get_emotional_score();
    assert!(score > 0 && score <= 100);
}

#[test]
fn test_cryptographic_signatures() {
    let keypair = KeyPair::generate().unwrap();
    let message = b"test message";
    let signature = keypair.sign(message).unwrap();
    assert!(KeyPair::verify(message, &signature, &keypair.public_key_hex()).unwrap());
}

#[test]
fn test_staking_and_rewards() {
    let mut staking = EmotionalStaking::new(10_000);
    staking.register_validator("validator-1".to_string(), "addr1".to_string(), 10_000, 5).unwrap();
    staking.delegate_stake("validator-1".to_string(), "addr1".to_string(), 5_000, 21 * 24 * 60 * 60).unwrap();

    let distribution = staking.distribute_rewards(&vec![("validator-1".to_string(), 85u8)]).unwrap();
    assert_eq!(distribution.epoch, 1);
    assert_eq!(distribution.total_rewards, 100_000);
    // One validator holds all the weight: reward 100000 * 1.03 = 103000,
    // commission 5% = 5150, delegators 97850.
    assert_eq!(distribution.validator_rewards, vec![("validator-1".to_string(), 5150)]);
    assert_eq!(distribution.delegator_rewards, vec![("validator-1".to_string(), 97850)]);
}

#[test]
fn integration_tests_test_slashing() {
    let mut staking = EmotionalStaking::new(10_000);
    staking.register_validator("validator-1".to_string(), "addr1".to_string(), 10_000, 5).unwrap();
    let stake_before = staking.get_validator("validator-1").unwrap().stake;
    staking
        .slash_validator("validator-1", SlashingOffense::PoorEmotionalBehavior, "Score below threshold".to_string())
        .unwrap();
    let validator_after = staking.get_validator("validator-1").unwrap();
    assert!(validator_after.stake < stake_before);
}

#[test]
fn integration_tests_test_block_creation() {
    let tx1 = Transaction::new("addr1".to_string(), "addr2".to_string(), 1000, 10);
    let block = Block::new(1, 0, "0".repeat(64), "validator1".to_string(), 85, vec![tx1]);
    assert_eq!(block.header.height, 1);
    assert!(block.verify_hash());
}

#[test]
fn test_transaction_validation() {
    let tx = Transaction::new("sender".to_string(), "receiver".to_string(), 1000, 10);
    assert!(tx.verify_hash());
    assert_eq!(tx.amount, 1000);
    assert_eq!(tx.fee, 10);
}

#[test]
fn test_byzantine_threshold() {
    let config = ConsensusConfig { byzantine_threshold: 67, committee_size: 10, ..ConsensusConfig::default() };
    let engine = ProofOfEmotionEngine::new(config).unwrap();
    assert_eq!(required_votes(10, 67), 7);
    assert_eq!(engine.get_validator_count(), 0);
}

#[test]
fn test_emotional_threshold_enforcement() {
    let mut validator = EmotionalValidator::new("test", 10_000).unwrap();
    assert!(!validator.is_eligible(75, 10_000));
    validator.update_emotional_state(readings(now_ms(), 70_000, 20_000, 85_000, 900)).unwrap();
    let score = validator.get_emotional_score();
    assert!(score > 0, "Emotional score should be > 0 after update");
}

#[test]
fn integration_tests_test_double_voting_detection() {
    let mut detector = ByzantineDetector::new();
    let vote1 = Vote::new("byzantine-validator".to_string(), "block-hash-abc".to_string(), 1, 0, 80, true);
    detector.record_vote(&vote1).unwrap();
    let vote2 = Vote::new("byzantine-validator".to_string(), "block-hash-abc".to_string(), 1, 0, 80, false);
    let result = detector.record_vote(&vote2);
    assert!(result.is_err(), "Double voting should be detected");
    assert!(result.unwrap_err().contains("Double voting"));
    let events = detector.get_slashing_events();
    assert!(!events.is_empty(), "Slashing event should be created");
    assert_eq!(events[0].validator_id, "byzantine-validator");
}

#[test]
fn integration_tests_test_equivocation_detection() {
    let mut detector = ByzantineDetector::new();
    let vote1 = Vote::new("equivocating-validator".to_string(), "block-hash-1".to_string(), 1, 0, 80, true);
    detector.record_vote(&vote1).unwrap();
    let vote2 = Vote::new("equivocating-validator".to_string(), "block-hash-2".to_string(), 1, 0, 80, true);
    let result = detector.record_vote(&vote2);
    assert!(result.is_err(), "Equivocation should be detected");
    assert!(!detector.get_slashing_events().is_empty());
}

#[test]
fn test_double_block_proposal() {
    let mut detector = ByzantineDetector::new();
    detector.record_proposal("double-signer", 1, "block-hash-A").unwrap();
    let result = detector.record_proposal("double-signer", 1, "block-hash-B");
    assert!(result.is_err(), "Double signing should be detected");
    assert!(result.unwrap_err().contains("Double signing"));
    let events = detector.get_slashing_events();
    assert!(!events.is_empty());
    assert_eq!(events[0].validator_id, "double-signer");
}

#[test]
fn test_invalid_block_rejection() {
    let validator = EmotionalValidator::new("test-validator", 10_000).unwrap();
    let tx = Transaction::new("sender".to_string(), "receiver".to_string(), 1000, 10);
    let mut block = Block::new(1, 0, "0".repeat(64), "test-validator".to_string(), 80, vec![tx]);
    block.sign(validator.key_pair()).unwrap();
    block.header.merkle_root = "invalid_merkle_root".to_string();
    let result = validator.validate_block(&block, &"0".repeat(64), 1, 0);
    assert!(result.is_err(), "Invalid merkle root should be rejected");
}

#[test]
fn test_invalid_signature_rejection() {
    let validator1 = EmotionalValidator::new("validator-1", 10_000).unwrap();
    let validator2 = EmotionalValidator::new("validator-2", 10_000).unwrap();
    let tx = Transaction::new("sender".to_string(), "receiver".to_string(), 1000, 10);
    let mut block = Block::new(1, 0, "0".repeat(64), "validator-1".to_string(), 80, vec![tx]);
    block.sign(validator1.key_pair()).unwrap();
    let fake_sig = validator2.key_pair().sign(b"fake").unwrap();
    block.signature = fake_sig.to_text();
    block.proposer_public_key = validator2.public_key_hex();
    let result = validator1.validate_block(&block, &"0".repeat(64), 1, 0);
    assert!(result.is_err(), "Invalid signature should be rejected");
}

#[test]
fn test_future_timestamp_rejection() {
    let validator = EmotionalValidator::new("test-validator", 10_000).unwrap();
    let tx = Transaction::new("sender".to_string(), "receiver".to_string(), 1000, 10);
    let future_time = now_ms() + 10_000;
    let mut block = Block::new_at(1, 0, "0".repeat(64), "test-validator".to_string(), 80, vec![tx], future_time);
    block.sign(validator.key_pair()).unwrap();
    let result = validator.validate_block(&block, &"0".repeat(64), 1, 0);
    assert!(result.is_err(), "Future timestamp should be rejected");
}

#[test]
fn test_replay_attack_prevention() {
    let validator = EmotionalValidator::new("test-validator", 10_000).unwrap();
    let tx = Transaction::new("sender".to_string(), "receiver".to_string(), 1000, 10);
    let mut block = Block::new(1, 1, "0".repeat(64), "test-validator".to_string(), 80, vec![tx]);
    block.sign(validator.key_pair()).unwrap();
    let result = validator.validate_block(&block, &"0".repeat(64), 1, 2);
    assert!(result.is_err(), "Old epoch block should be rejected (replay attack prevention)");
    assert!(result.unwrap_err().contains("Epoch mismatch"));
}

#[test]
fn test_transaction_expiration() {
    let tx = Transaction::new("sender".to_string(), "receiver".to_string(), 1000, 10);
    let now = now_ms();
    let max_age = 5 * 60 * 1000;
    assert!(!tx.is_expired(now, max_age), "Fresh transaction should not be expired");
    let future_time = now + max_age + 1000;
    assert!(tx.is_expired(future_time, max_age), "Old transaction should be expired");
}

// ---- scenarios and properties on concrete values ----

#[test]
fn happy_epoch_finalizes_blocks() {
    let config = ConsensusConfig {
        epoch_duration: 5_000,
        emotional_threshold: 50,
        committee_size: 3,
        minimum_stake: 1_000,
        ..ConsensusConfig::default()
    };
    let mut engine = ProofOfEmotionEngine::new(config).unwrap();
    for i in 1..=5 {
        let v = EmotionalValidator::new(&format!("validator-{}", i), 10_000).unwrap();
        engine.register_validator(v).unwrap();
    }
    engine.start().unwrap();
    for _ in 0..3 {
        let now = now_ms();
        let all: Vec<Vec<BiometricReading>> = (0..5).map(|_| readings(now, 70_000, 20_000, 85_000, 900)).collect();
        engine.execute_epoch(&all, now).unwrap();
    }
    let state = engine.get_state();
    assert!(state.current_epoch >= 2);
    let blocks = engine.get_finalized_blocks();
    assert!(blocks.len() >= 1);
    assert!(state.consensus_strength >= 67);
    for i in 1..blocks.len() {
        assert_eq!(blocks[i].header.height, blocks[i - 1].header.height + 1);
        assert_eq!(blocks[i].header.previous_hash, blocks[i - 1].hash);
    }
    assert_eq!(blocks[0].header.previous_hash, "0".repeat(64));
    engine.stop().unwrap();
}

#[test]
fn epoch_without_fit_validators_fails() {
    let config = ConsensusConfig { emotional_threshold: 90, committee_size: 3, minimum_stake: 1_000, ..ConsensusConfig::default() };
    let mut engine = ProofOfEmotionEngine::new(config).unwrap();
    engine.register_validator(EmotionalValidator::new("v1", 10_000).unwrap()).unwrap();
    let now = now_ms();
    let r = engine.execute_epoch(&vec![readings(now, 120_000, 90_000, 10_000, 900)], now);
    assert!(matches!(r, Err(ConsensusError::CommitteeSelectionFailed { .. })));
    assert_eq!(engine.get_finalized_blocks().len(), 0);
    assert_eq!(engine.get_state().current_epoch, 1);
}

#[test]
fn double_vote_records_critical_event() {
    let mut detector = ByzantineDetector::new();
    detector.record_vote(&Vote::new("V".to_string(), "H".to_string(), 1, 0, 80, true)).unwrap();
    assert!(detector.record_vote(&Vote::new("V".to_string(), "H".to_string(), 1, 0, 80, false)).is_err());
    let events = detector.get_slashing_events();
    assert_eq!(events.len(), 1);
    assert_eq!(events[0].validator_id, "V");
    assert_eq!(events[0].offense, SlashingOffense::DoubleSigning);
    assert_eq!(events[0].severity, SlashingSeverity::Critical);
    assert_eq!(events[0].slashing_rate, 15);
}

#[test]
fn equivocation_records_major_event() {
    let mut detector = ByzantineDetector::new();
    detector.record_vote(&Vote::new("V".to_string(), "H1".to_string(), 1, 0, 80, true)).unwrap();
    assert!(detector.record_vote(&Vote::new("V".to_string(), "H2".to_string(), 1, 0, 80, true)).is_err());
    let events = detector.get_slashing_events();
    assert_eq!(events.len(), 1);
    assert_eq!(events[0].severity, SlashingSeverity::Major);
    assert_eq!(events[0].slashing_rate, 5);
}

#[test]
fn same_vote_twice_is_accepted() {
    let mut detector = ByzantineDetector::new();
    detector.record_vote(&Vote::new("V".to_string(), "H".to_string(), 1, 0, 80, true)).unwrap();
    detector.record_vote(&Vote::new("V".to_string(), "H".to_string(), 1, 0, 80, true)).unwrap();
    detector.record_vote(&Vote::new("V".to_string(), "H2".to_string(), 2, 0, 80, true)).unwrap();
    assert_eq!(detector.get_slashing_events().len(), 0);
}

#[test]
fn double_sign_records_one_event() {
    let mut detector = ByzantineDetector::new();
    detector.record_proposal("V", 1, "A").unwrap();
    assert!(detector.record_proposal("V", 1, "B").is_err());
    let events = detector.get_slashing_events();
    assert_eq!(events.len(), 1);
    assert_eq!(events[0].validator_id, "V");
}

#[test]
fn fork_resolution_by_score() {
    let mut detector = ForkDetector::new();
    detector.record_block(&meta_block(1, "h85", 85, 80, 1000)).unwrap();
    assert!(matches!(detector.record_block(&meta_block(1, "h90", 90, 80, 1000)), Err(ConsensusError::ForkDetected { height: 1 })));
    assert_eq!(detector.resolve_fork(1).unwrap(), "h90");
}

#[test]
fn fork_choice_ignores_insertion_order_and_repeats() {
    let blocks = vec![
        meta_block(4, "c", 80, 70, 500),
        meta_block(4, "a", 80, 70, 400),
        meta_block(4, "b", 80, 70, 400),
        meta_block(4, "d", 80, 60, 100),
    ];
    let mut forward = ForkDetector::new();
    for b in blocks.iter() {
        let _ = forward.record_block(b);
    }
    let mut backward = ForkDetector::new();
    for b in blocks.iter().rev() {
        let _ = backward.record_block(b);
    }
    let w1 = forward.resolve_fork(4).unwrap();
    let w2 = forward.resolve_fork(4).unwrap();
    let w3 = backward.resolve_fork(4).unwrap();
    assert_eq!(w1, "a");
    assert_eq!(w1, w2);
    assert_eq!(w1, w3);
}

#[test]
fn fork_choice_prefers_strength_then_earlier_time() {
    let mut d = ForkDetector::new();
    let _ = d.record_block(&meta_block(2, "x", 80, 70, 100));
    let _ = d.record_block(&meta_block(2, "y", 80, 75, 900));
    assert_eq!(d.resolve_fork(2).unwrap(), "y");
    let mut e = ForkDetector::new();
    let _ = e.record_block(&meta_block(2, "x", 80, 70, 900));
    let _ = e.record_block(&meta_block(2, "y", 80, 70, 100));
    assert_eq!(e.resolve_fork(2).unwrap(), "y");
}

#[test]
fn resolve_fork_without_blocks_fails() {
    let mut d = ForkDetector::new();
    assert!(matches!(d.resolve_fork(7), Err(ConsensusError::Internal { .. })));
}

#[test]
fn checkpoint_insufficiency_and_success() {
    let mut manager = CheckpointManager::new(100);
    manager.update_total_stake(10_000);
    let block = meta_block(100, "hash100", 85, 80, 1000);
    let keypair = KeyPair::generate().unwrap();
    let sig = manager.sign_checkpoint(100, "hash100", 0, "merkle", &keypair).unwrap();
    let low = ValidatorSignature { validator_id: "v".to_string(), stake: 5_000, signature: sig.clone(), public_key: keypair.public_key_hex() };
    assert!(matches!(manager.create_checkpoint(&block, vec![low]), Err(ConsensusError::ConfigError { .. })));
    assert!(manager.get_latest_checkpoint().is_none());
    let high = ValidatorSignature { validator_id: "v".to_string(), stake: 7_000, signature: sig, public_key: keypair.public_key_hex() };
    manager.create_checkpoint(&block, vec![high]).unwrap();
    assert_eq!(manager.get_latest_checkpoint().unwrap().height, block.header.height);
}

#[test]
fn checkpoint_payload_text() {
    let manager = CheckpointManager::new(100);
    assert_eq!(manager.create_checkpoint_data(100, "hash100", 10, "root"), "checkpoint:100:hash100:10:root");
}

#[test]
fn checkpoint_without_signatures_fails() {
    let mut manager = CheckpointManager::new(100);
    let block = meta_block(100, "hash100", 85, 80, 1000);
    assert!(matches!(manager.create_checkpoint(&block, vec![]), Err(ConsensusError::SignatureVerificationFailed { .. })));
}

#[test]
fn insufficient_stake_leaves_registry_unchanged() {
    let mut staking = EmotionalStaking::new(10_000);
    let r = staking.register_validator("v".to_string(), "a".to_string(), 9_999, 5);
    assert!(matches!(r, Err(ConsensusError::InsufficientStake { stake: 9_999, minimum: 10_000 })));
    assert!(staking.get_all_validators().is_empty());

    let mut engine = ProofOfEmotionEngine::new(ConsensusConfig::default()).unwrap();
    let r = engine.register_validator(EmotionalValidator::new("v", 5_000).unwrap());
    assert!(matches!(r, Err(ConsensusError::InsufficientStake { stake: 5_000, minimum: 10_000 })));
    assert_eq!(engine.get_validator_count(), 0);
}

#[test]
fn commission_above_twenty_is_refused() {
    let mut staking = EmotionalStaking::new(10_000);
    assert!(matches!(
        staking.register_validator("v".to_string(), "a".to_string(), 10_000, 21),
        Err(ConsensusError::ConfigError { .. })
    ));
}

#[test]
fn pending_pool_drops_expired_transactions() {
    let mut engine = ProofOfEmotionEngine::new(ConsensusConfig::default()).unwrap();
    let now = now_ms();
    for i in 0..10_000u64 {
        let ts = if i % 2 == 0 { now - 400_000 } else { now - 1_000 };
        engine.submit_transaction(Transaction::new_at("a".to_string(), "b".to_string(), i, 1, ts)).unwrap();
    }
    assert_eq!(engine.get_state().pending_transactions, 10_000);
    engine.cleanup_transaction_pool(now);
    assert_eq!(engine.get_state().pending_transactions, 5_000);
    engine.cleanup_transaction_pool(now + 400_000);
    assert_eq!(engine.get_state().pending_transactions, 0);
}

#[test]
fn quorum_matches_ceiling() {
    assert!(quorum_reached(7, 10, 67));
    assert!(!quorum_reached(6, 10, 67));
    assert_eq!(required_votes(3, 67), 3);
    assert!(quorum_reached(2, 3, 51));
    assert!(!quorum_reached(1, 3, 51));
    assert_eq!(required_votes(21, 67), 15);
}

#[test]
fn expiry_boundary() {
    let tx = Transaction::new_at("a".to_string(), "b".to_string(), 1, 1, 1_000);
    assert!(!tx.is_expired(301_000, 300_000));
    assert!(tx.is_expired(301_001, 300_000));
    assert!(!tx.is_expired(0, 300_000));
}

#[test]
fn block_hashes_recompute() {
    let txs = vec![
        Transaction::new_at("a".to_string(), "b".to_string(), 1, 1, 10),
        Transaction::new_at("c".to_string(), "d".to_string(), 2, 1, 11),
        Transaction::new_at("e".to_string(), "f".to_string(), 3, 1, 12),
    ];
    let block = Block::new_at(3, 2, "0".repeat(64), "v".to_string(), 70, txs, 99);
    assert!(block.verify_hash());
    assert_eq!(Block::calculate_merkle_root(&block.transactions), block.header.merkle_root);
    assert_eq!(Block::calculate_block_hash(&block.header, &block.transactions), block.hash);
    let mut changed = block.clone();
    changed.header.height = 4;
    assert!(!changed.verify_hash());
}

#[test]
fn empty_block_merkle_root_is_digest_of_empty() {
    assert_eq!(Block::calculate_merkle_root(&vec![]), hash_biometric_data(b"empty"));
}

#[test]
fn sha256_and_hex_of_known_input() {
    assert_eq!(hash_biometric_data(b"abc"), "ba7816bf8f01cfea414140de5dae2223b00361a396177a9cb410ff61f20015ad");
}

#[test]
fn signature_round_trip_and_tamper() {
    let kp = KeyPair::generate().unwrap();
    let msg = b"consensus message".to_vec();
    let sig = kp.sign(&msg).unwrap();
    assert!(KeyPair::verify(&msg, &sig, &kp.public_key_hex()).unwrap());
    for i in 0..msg.len() {
        let mut tampered = msg.clone();
        tampered[i] ^= 1;
        let r = KeyPair::verify(&tampered, &sig, &kp.public_key_hex());
        assert!(!matches!(r, Ok(true)));
    }
    let text = sig.to_text();
    let back = Signature::from_text(&text).unwrap();
    assert_eq!(back.signature, sig.signature);
    assert_eq!(back.recovery_id, sig.recovery_id);
    assert!(KeyPair::verify(&msg, &sig, "zz").is_err());
}

#[test]
fn keypair_from_secret_bytes() {
    assert!(KeyPair::from_secret_bytes(&[1u8; 31]).is_err());
    let kp = KeyPair::from_secret_bytes(&[7u8; 32]).unwrap();
    assert_eq!(kp.secret_key_hex(), "07".repeat(32));
    assert_eq!(kp.public_key_hex().len(), 66);
}

#[test]
fn signed_transaction_verifies() {
    let kp = KeyPair::generate().unwrap();
    let mut tx = Transaction::new("a".to_string(), "b".to_string(), 5, 1);
    assert!(tx.verify_signature().is_err());
    tx.sign(&kp).unwrap();
    assert!(tx.verify_signature().unwrap());
    tx.amount = 6;
    assert!(!tx.verify_signature().unwrap());
}

#[test]
fn slash_never_raises_stake_and_keeps_reputation_bounded() {
    let mut staking = EmotionalStaking::new(20_000);
    staking.register_validator("v".to_string(), "a".to_string(), 100_000, 5).unwrap();
    let mut last = 100_000;
    for _ in 0..10 {
        staking.slash_validator("v", SlashingOffense::DoubleSigning, "evidence".to_string()).unwrap();
        let v = staking.get_validator("v").unwrap();
        assert!(v.stake <= last);
        assert!(v.reputation <= 100);
        last = v.stake;
    }
    let v = staking.get_validator("v").unwrap();
    assert_eq!(v.reputation, 0);
    // 100000 * 0.85^10, rounded down at each step.
    assert_eq!(v.stake, 19_690);
    assert!(!v.is_active);
    assert_eq!(staking.get_slashing_events().len(), 10);
    assert!(matches!(
        staking.slash_validator("missing", SlashingOffense::Downtime, String::new()),
        Err(ConsensusError::ValidatorNotFound { .. })
    ));
}

#[test]
fn minor_slash_takes_one_percent() {
    let mut staking = EmotionalStaking::new(10_000);
    staking.register_validator("v".to_string(), "a".to_string(), 50_000, 5).unwrap();
    staking.slash_validator("v", SlashingOffense::Downtime, String::new()).unwrap();
    let v = staking.get_validator("v").unwrap();
    assert_eq!(v.stake, 49_500);
    assert_eq!(v.reputation, 95);
    assert_eq!(v.available_stake, 49_500);
}

#[test]
fn lock_and_unbonding() {
    let mut staking = EmotionalStaking::new(10_000);
    staking.register_validator("v".to_string(), "a".to_string(), 20_000, 5).unwrap();
    assert!(matches!(staking.lock_stake("v", 30_000, 1), Err(ConsensusError::InsufficientStake { stake: 20_000, minimum: 30_000 })));
    staking.lock_stake("v", 5_000, 1).unwrap();
    let v = staking.get_validator("v").unwrap();
    assert_eq!((v.available_stake, v.locked_stake), (15_000, 5_000));
    staking.unlock_stake("v").unwrap();
    staking.begin_unbonding("v", 4_000).unwrap();
    assert!(matches!(staking.begin_unbonding("v", 1), Err(ConsensusError::ConfigError { .. })));
    assert!(matches!(staking.complete_unbonding("v"), Err(ConsensusError::ConfigError { .. })));
    let v = staking.get_validator("v").unwrap();
    assert_eq!(v.unlock_epoch, Some(2016));
    assert!(!v.is_active);
}

#[test]
fn score_and_multiplier_values() {
    let mut v = EmotionalValidator::new("s", 10_000).unwrap();
    // heart 100, stress 100 - 20 = 80, focus 85: average 88.
    v.update_emotional_state(readings(0, 70_000, 20_000, 85_000, 1000)).unwrap();
    assert_eq!(v.get_emotional_score(), 88);
    // extremes stay within 0 to 100.
    v.update_emotional_state(readings(0, 0, 1_000_000, -5_000, 1000)).unwrap();
    assert_eq!(v.get_emotional_score(), 16);
    assert!(matches!(
        v.update_emotional_state(readings(0, 70_000, 0, 0, 0)),
        Err(ConsensusError::BiometricValidationFailed { .. })
    ));
    assert!(matches!(v.update_emotional_state(vec![]), Err(ConsensusError::BiometricValidationFailed { .. })));
    assert_eq!(emotional_multiplier_permille(50, 75), 875);
    assert_eq!(emotional_multiplier_permille(75, 75), 1000);
    assert_eq!(emotional_multiplier_permille(90, 75), 1045);
    assert_eq!(integer_sqrt(10_000), 100);
    assert_eq!(integer_sqrt(40_000), 200);
    assert_eq!(integer_sqrt(99), 9);
}

#[test]
fn health_classification_from_state() {
    let engine = ProofOfEmotionEngine::new(ConsensusConfig::default()).unwrap();
    let mut metrics = engine.get_metrics();
    metrics.total_epochs = 10;
    metrics.byzantine_failures = 2;
    let state = engine.get_state();
    let h = HealthStatus::from_state(state, metrics, 100, 160);
    assert_eq!(h.uptime_seconds, 60);
    assert_eq!(
        h.issues,
        vec![
            HealthIssue::LowConsensus(0),
            HealthIssue::LowParticipation(0),
            HealthIssue::InsufficientValidators(0),
            HealthIssue::HighByzantineRate(200),
        ]
    );
    assert_eq!(h.status, HealthState::Critical);
    assert!(h.issues_summary().contains("High Byzantine rate (20.0%)"));
}

#[test]
fn error_messages() {
    assert_eq!(ConsensusError::fork_detected(12).message(), "Fork detected at height 12");
    assert_eq!(ConsensusError::insufficient_stake(5, 10).message(), "Insufficient stake: 5 < 10");
    assert_eq!(ConsensusError::NotRunning.message(), "Consensus engine is not running");
}

#[test]
fn engine_config_validation_and_running_flag() {
    assert!(matches!(
        ProofOfEmotionEngine::new(ConsensusConfig { byzantine_threshold: 50, ..ConsensusConfig::default() }),
        Err(ConsensusError::ConfigError { .. })
    ));
    assert!(matches!(
        ProofOfEmotionEngine::new(ConsensusConfig { committee_size: 0, ..ConsensusConfig::default() }),
        Err(ConsensusError::ConfigError { .. })
    ));
    let mut engine = ProofOfEmotionEngine::new(ConsensusConfig::default()).unwrap();
    assert!(matches!(engine.stop(), Err(ConsensusError::NotRunning)));
    engine.start().unwrap();
    assert!(matches!(engine.start(), Err(ConsensusError::AlreadyRunning)));
    assert!(engine.recover_from_crash().is_ok());
}

#[test]
fn detector_queries() {
    let mut detector = ByzantineDetector::new();
    assert!(detector.detect_double_voting("V", 1).is_none());
    detector.record_vote(&Vote::new("V".to_string(), "H1".to_string(), 1, 0, 80, true)).unwrap();
    detector.record_vote(&Vote::new("W".to_string(), "H2".to_string(), 1, 0, 80, true)).unwrap();
    assert!(detector.detect_double_voting("V", 1).is_none());
    assert!(detector.detect_equivocation("V").is_none());
    detector.record_proposal("P", 3, "X").unwrap();
    detector.record_proposal("P", 3, "X").unwrap();
    assert!(detector.detect_double_signing("P", 3).is_none());
    assert!(detector.record_proposal("P", 3, "Y").is_err());
    assert!(detector.detect_double_signing("P", 3).is_none());
    detector.cleanup_old_data(200, 100);
    assert!(detector.detect_equivocation("V").is_none());
}
