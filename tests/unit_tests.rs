use proof_of_emotion::biometric::{BiometricReading, BiometricType, EmotionalValidator};
use proof_of_emotion::byzantine::ByzantineDetector;
use proof_of_emotion::checkpoint::{Checkpoint, CheckpointManager, ValidatorSignature};
use proof_of_emotion::consensus::{ConsensusConfig, ProofOfEmotionEngine};
use proof_of_emotion::crypto::{EmotionalProof, KeyPair};
use proof_of_emotion::error::ConsensusError;
use proof_of_emotion::fork::ForkDetector;
use proof_of_emotion::health::{HealthIssue, HealthState, HealthStatus, LivenessCheck, ReadinessCheck};
use proof_of_emotion::staking::{EmotionalStaking, SlashingOffense};
use proof_of_emotion::types::{Block, BlockHeader, Transaction, Vote};
use proof_of_emotion::utils::{calculate_percentage, clamp, format_poe_amount, string_to_seed};
use proof_of_emotion::{MIN_VALIDATOR_STAKE, TICKER};

fn now_ms() -> u64 {
    std::time::SystemTime::now().duration_since(std::time::UNIX_EPOCH).unwrap().as_millis() as u64
}

fn good_readings(device: &str) -> Vec<BiometricReading> {
    let t = now_ms();
    vec![
        BiometricReading {
            device_id: format!("{}_heart", device),
            biometric_type: BiometricType::HeartRate,
            value_milli: 70_000,
            quality_permille: 900,
            timestamp: t,
        },
        BiometricReading {
            device_id: format!("{}_stress", device),
            biometric_type: BiometricType::StressLevel,
            value_milli: 20_000,
            quality_permille: 900,
            timestamp: t + 100,
        },
        BiometricReading {
            device_id: format!("{}_focus", device),
            biometric_type: BiometricType::FocusLevel,
            value_milli: 85_000,
            quality_permille: 900,
            timestamp: t + 200,
        },
    ]
}

fn fork_test_block(height: u64, hash: &str, emotional_score: u8, validator: &str) -> Block {
    Block {
        header: BlockHeader {
            height,
            epoch: 0,
            previous_hash: "0".repeat(64),
            merkle_root: "merkle".to_string(),
            timestamp: 1000000,
            difficulty: 0,
            nonce: 0,
            validator_id: validator.to_string(),
            emotional_score,
            consensus_strength: 80,
        },
        hash: hash.to_string(),
        transactions: vec![],
        signature: String::new(),
        proposer_public_key: String::new(),
        emotional_proof: None,
        consensus_metadata: None,
    }
}

fn checkpoint_test_block(height: u64, hash: &str) -> Block {
    Block {
        header: BlockHeader {
            height,
            epoch: height / 10,
            previous_hash: "0".repeat(64),
            merkle_root: "merkle_root".to_string(),
            timestamp: 1000000,
            difficulty: 0,
            nonce: 0,
            validator_id: "validator1".to_string(),
            emotional_score: 85,
            consensus_strength: 80,
        },
        hash: hash.to_string(),
        transactions: vec![],
        signature: String::new(),
        proposer_public_key: String::new(),
        emotional_proof: None,
        consensus_metadata: None,
    }
}

// ---- constants, errors, utilities ----

#[test]
fn test_constants() {
    assert_eq!(TICKER, "POE");
    assert_eq!(MIN_VALIDATOR_STAKE, 10_000);
}

#[test]
fn test_error_creation() {
    let err = ConsensusError::insufficient_emotional_fitness(65, 75);
    assert!(err.message().contains("65"));
    assert!(err.message().contains("75"));

    let err = ConsensusError::byzantine_failure("double voting");
    assert!(err.message().contains("double voting"));
}

#[test]
fn test_format_poe() {
    assert_eq!(format_poe_amount(1_500_000), "1.500000 POE");
    assert_eq!(format_poe_amount(10_000_000), "10.000000 POE");
}

#[test]
fn test_percentage() {
    assert_eq!(calculate_percentage(50, 100), 50);
    assert_eq!(calculate_percentage(1, 3), 33);
}

#[test]
fn test_clamp() {
    assert_eq!(clamp(5, 0, 10), 5);
    assert_eq!(clamp(-5, 0, 10), 0);
    assert_eq!(clamp(15, 0, 10), 10);
}

#[test]
fn test_string_to_seed() {
    let seed1 = string_to_seed("validator-1");
    let seed2 = string_to_seed("validator-1");
    let seed3 = string_to_seed("validator-2");

    assert_eq!(seed1, seed2);
    assert_ne!(seed1, seed3);
}

// ---- data model ----

#[test]
fn test_transaction_creation() {
    let tx = Transaction::new("addr1".to_string(), "addr2".to_string(), 1000, 10);

    assert!(tx.verify_hash());
    assert_eq!(tx.amount, 1000);
    assert_eq!(tx.fee, 10);
}

#[test]
fn types_test_block_creation() {
    let txs = vec![
        Transaction::new("addr1".to_string(), "addr2".to_string(), 1000, 10),
        Transaction::new("addr3".to_string(), "addr4".to_string(), 2000, 20),
    ];

    let block = Block::new(1, 0, "0".repeat(64), "validator1".to_string(), 85, txs);

    assert!(block.verify_hash());
    assert_eq!(block.header.height, 1);
    assert_eq!(block.transactions.len(), 2);
}

#[test]
fn test_merkle_root() {
    let txs = vec![Transaction::new("addr1".to_string(), "addr2".to_string(), 1000, 10)];

    let root1 = Block::calculate_merkle_root(&txs);
    let root2 = Block::calculate_merkle_root(&txs);

    assert_eq!(root1, root2);
    assert!(!root1.is_empty());
}

#[test]
fn test_vote_creation() {
    let vote = Vote::new("validator1".to_string(), "blockhash123".to_string(), 0, 0, 85, true);

    assert!(vote.approved);
    assert_eq!(vote.emotional_score, 85);
}

// ---- crypto ----

#[test]
fn test_keypair_generation() {
    let keypair = KeyPair::generate().unwrap();
    assert!(!keypair.public_key_hex().is_empty());
    assert!(!keypair.secret_key_hex().is_empty());
}

#[test]
fn test_signing_and_verification() {
    let keypair = KeyPair::generate().unwrap();
    let message = b"test message";

    let signature = keypair.sign(message).unwrap();
    let valid = KeyPair::verify(message, &signature, &keypair.public_key_hex()).unwrap();

    assert!(valid);
}

#[test]
fn test_invalid_signature() {
    let keypair1 = KeyPair::generate().unwrap();
    let keypair2 = KeyPair::generate().unwrap();
    let message = b"test message";

    let signature = keypair1.sign(message).unwrap();
    let valid = KeyPair::verify(message, &signature, &keypair2.public_key_hex()).unwrap();

    assert!(!valid);
}

#[test]
fn test_emotional_proof_creation() {
    let keypair = KeyPair::generate().unwrap();
    let scores = vec![("validator1".to_string(), 85u8), ("validator2".to_string(), 90u8)];
    let hashes = vec![
        ("validator1".to_string(), "hash1".to_string()),
        ("validator2".to_string(), "hash2".to_string()),
    ];

    let proof = EmotionalProof::new(
        vec!["validator1".to_string(), "validator2".to_string()],
        scores,
        hashes,
        30000,
        &keypair,
    )
    .unwrap();

    assert!(proof.verify(&keypair.public_key_hex()).unwrap());
}

#[test]
fn test_consensus_strength_calculation() {
    let scores = vec![("v1".to_string(), 85u8), ("v2".to_string(), 87u8), ("v3".to_string(), 83u8)];

    let strength = EmotionalProof::calculate_consensus_strength(&scores);
    assert!(strength > 80);
}

// ---- biometric ----

#[test]
fn test_validator_creation() {
    let validator = EmotionalValidator::new("test-validator", 10000).unwrap();
    assert_eq!(validator.get_stake(), 10000);
    assert_eq!(validator.get_emotional_score(), 0);
}

#[test]
fn test_emotional_state_update() {
    let mut validator = EmotionalValidator::new("test-validator", 10000).unwrap();
    validator.update_emotional_state(good_readings("device1")).unwrap();

    let score = validator.get_emotional_score();
    assert!(score > 0);
    assert!(score <= 100);
}

#[test]
fn test_eligibility_check() {
    let mut validator = EmotionalValidator::new("test-validator", 10000).unwrap();
    validator.update_emotional_state(good_readings("device1")).unwrap();

    assert!(validator.is_eligible(50, 10000));
}

// ---- byzantine ----

#[test]
fn test_detector_creation() {
    let detector = ByzantineDetector::new();
    let events = detector.get_slashing_events();
    assert_eq!(events.len(), 0);
}

#[test]
fn byzantine_test_double_voting_detection() {
    let mut detector = ByzantineDetector::new();

    let vote1 = Vote::new("validator-1".to_string(), "block-hash-1".to_string(), 1, 0, 80, true);
    detector.record_vote(&vote1).unwrap();

    let vote2 = Vote::new("validator-1".to_string(), "block-hash-1".to_string(), 1, 0, 80, false);
    let result = detector.record_vote(&vote2);
    assert!(result.is_err());

    let events = detector.get_slashing_events();
    assert_eq!(events.len(), 1);
    assert_eq!(events[0].offense, SlashingOffense::DoubleSigning);
}

#[test]
fn test_double_signing_detection() {
    let mut detector = ByzantineDetector::new();

    detector.record_proposal("validator-1", 1, "block-hash-1").unwrap();
    let result = detector.record_proposal("validator-1", 1, "block-hash-2");

    assert!(result.is_err());

    let events = detector.get_slashing_events();
    assert_eq!(events.len(), 1);
    assert_eq!(events[0].offense, SlashingOffense::DoubleSigning);
}

#[test]
fn byzantine_test_equivocation_detection() {
    let mut detector = ByzantineDetector::new();

    let vote1 = Vote::new("validator-1".to_string(), "block-hash-1".to_string(), 1, 0, 80, true);
    detector.record_vote(&vote1).unwrap();

    let vote2 = Vote::new("validator-1".to_string(), "block-hash-2".to_string(), 1, 0, 80, true);
    let result = detector.record_vote(&vote2);
    assert!(result.is_err());
}

// ---- checkpoint ----

#[test]
fn test_checkpoint_interval() {
    let manager = CheckpointManager::new(100);

    assert!(manager.should_create_checkpoint(100));
    assert!(manager.should_create_checkpoint(200));
    assert!(!manager.should_create_checkpoint(150));
    assert!(!manager.should_create_checkpoint(99));
}

#[test]
fn test_create_checkpoint() {
    let mut manager = CheckpointManager::new(100);
    manager.update_total_stake(10_000);

    let block = checkpoint_test_block(100, "hash100");

    let keypair = KeyPair::generate().unwrap();
    let checkpoint_data = manager.create_checkpoint_data(100, "hash100", 10, "merkle_root");
    let signature = keypair.sign(checkpoint_data.as_bytes()).unwrap();

    let validator_sig = ValidatorSignature {
        validator_id: "validator1".to_string(),
        stake: 7_000,
        signature,
        public_key: keypair.public_key_hex(),
    };

    let checkpoint = manager.create_checkpoint(&block, vec![validator_sig]).unwrap();

    assert_eq!(checkpoint.height, 100);
    assert_eq!(checkpoint.block_hash, "hash100");
    assert_eq!(checkpoint.total_stake_signed, 7_000);
}

#[test]
fn test_verify_checkpoint() {
    let mut manager = CheckpointManager::new(100);
    manager.update_total_stake(10_000);

    let keypair = KeyPair::generate().unwrap();
    let signature = manager.sign_checkpoint(100, "hash100", 10, "merkle_root", &keypair).unwrap();

    let validator_sig = ValidatorSignature {
        validator_id: "validator1".to_string(),
        stake: 7_000,
        signature,
        public_key: keypair.public_key_hex(),
    };

    let checkpoint = Checkpoint {
        height: 100,
        block_hash: "hash100".to_string(),
        epoch: 10,
        timestamp: 1000000,
        validator_signatures: vec![validator_sig],
        total_stake_signed: 7_000,
        state_root: "merkle_root".to_string(),
    };

    let is_valid = manager.verify_checkpoint(&checkpoint).unwrap();
    assert!(is_valid);
}

#[test]
fn checkpoint_test_insufficient_stake() {
    let mut manager = CheckpointManager::new(100);
    manager.update_total_stake(10_000);

    let block = checkpoint_test_block(100, "hash100");

    let keypair = KeyPair::generate().unwrap();
    let signature = manager.sign_checkpoint(100, "hash100", 10, "merkle_root", &keypair).unwrap();

    let validator_sig = ValidatorSignature {
        validator_id: "validator1".to_string(),
        stake: 5_000,
        signature,
        public_key: keypair.public_key_hex(),
    };

    let result = manager.create_checkpoint(&block, vec![validator_sig]);
    assert!(result.is_err());
}

#[test]
fn test_get_latest_checkpoint() {
    let mut manager = CheckpointManager::new(100);
    manager.update_total_stake(10_000);

    assert!(manager.get_latest_checkpoint().is_none());

    let block1 = checkpoint_test_block(100, "hash100");
    let keypair = KeyPair::generate().unwrap();
    let sig = manager.sign_checkpoint(100, "hash100", 10, "merkle_root", &keypair).unwrap();

    let validator_sig = ValidatorSignature {
        validator_id: "validator1".to_string(),
        stake: 7_000,
        signature: sig,
        public_key: keypair.public_key_hex(),
    };

    manager.create_checkpoint(&block1, vec![validator_sig]).unwrap();

    let latest = manager.get_latest_checkpoint().unwrap();
    assert_eq!(latest.height, 100);
}

#[test]
fn test_checkpoint_statistics() {
    let mut manager = CheckpointManager::new(100);
    manager.update_total_stake(10_000);

    let stats = manager.get_checkpoint_statistics();
    assert_eq!(stats.total_checkpoints, 0);
    assert_eq!(stats.checkpoint_interval, 100);

    let block = checkpoint_test_block(100, "hash100");
    let keypair = KeyPair::generate().unwrap();
    let sig = manager.sign_checkpoint(100, "hash100", 10, "merkle_root", &keypair).unwrap();

    let validator_sig = ValidatorSignature {
        validator_id: "validator1".to_string(),
        stake: 7_000,
        signature: sig,
        public_key: keypair.public_key_hex(),
    };

    manager.create_checkpoint(&block, vec![validator_sig]).unwrap();

    let stats = manager.get_checkpoint_statistics();
    assert_eq!(stats.total_checkpoints, 1);
    assert_eq!(stats.latest_checkpoint_height, 100);
}

// ---- consensus engine ----

#[test]
fn test_consensus_engine_creation() {
    let config = ConsensusConfig::default();
    let engine = ProofOfEmotionEngine::new(config).unwrap();
    assert_eq!(engine.get_validator_count(), 0);
}

#[test]
fn consensus_test_validator_registration() {
    let config = ConsensusConfig::default();
    let mut engine = ProofOfEmotionEngine::new(config).unwrap();

    let validator = EmotionalValidator::new("validator-1", 10_000).unwrap();
    engine.register_validator(validator).unwrap();

    assert_eq!(engine.get_validator_count(), 1);
}

#[test]
fn test_insufficient_stake_registration() {
    let config = ConsensusConfig::default();
    let mut engine = ProofOfEmotionEngine::new(config).unwrap();

    let validator = EmotionalValidator::new("validator-1", 5_000).unwrap();
    let result = engine.register_validator(validator);

    assert!(result.is_err());
}

// ---- fork ----

#[test]
fn test_no_fork_single_block() {
    let mut detector = ForkDetector::new();
    let block = fork_test_block(1, "hash1", 85, "validator1");

    let result = detector.record_block(&block);
    assert!(result.is_ok());
    assert!(!detector.has_fork(1));
}

#[test]
fn test_fork_detection() {
    let mut detector = ForkDetector::new();

    let block1 = fork_test_block(1, "hash1", 85, "validator1");
    detector.record_block(&block1).unwrap();

    let block2 = fork_test_block(1, "hash2", 90, "validator2");
    let result = detector.record_block(&block2);

    assert!(result.is_err());
    assert!(detector.has_fork(1));
}

#[test]
fn test_fork_resolution_by_emotional_score() {
    let mut detector = ForkDetector::new();

    let block1 = fork_test_block(1, "hash1", 85, "validator1");
    let block2 = fork_test_block(1, "hash2", 90, "validator2");

    detector.record_block(&block1).unwrap();
    let _ = detector.record_block(&block2);

    let winner = detector.resolve_fork(1).unwrap();

    assert_eq!(winner, "hash2");
}

#[test]
fn test_fork_statistics() {
    let mut detector = ForkDetector::new();

    let block1 = fork_test_block(1, "hash1", 85, "validator1");
    let block2 = fork_test_block(1, "hash2", 90, "validator2");

    detector.record_block(&block1).unwrap();
    let _ = detector.record_block(&block2);

    let stats = detector.get_fork_statistics();
    assert_eq!(stats.total_forks, 1);
    assert_eq!(stats.unresolved_forks, 1);

    detector.resolve_fork(1).unwrap();

    let stats = detector.get_fork_statistics();
    assert_eq!(stats.resolved_forks, 1);
    assert_eq!(stats.unresolved_forks, 0);
}

#[test]
fn test_cleanup_old_forks() {
    let mut detector = ForkDetector::new();

    for height in 1..=3 {
        let block = fork_test_block(height, &format!("hash{}", height), 85, "validator1");
        detector.record_block(&block).unwrap();
    }

    detector.cleanup_old_forks(10, 8);

    assert!(!detector.has_blocks_at(1));
    assert!(!detector.has_blocks_at(2));
    assert!(detector.has_blocks_at(3));
}

// ---- health ----

fn health(status: HealthState, strength: u8, validators: usize, pending: usize, participation: u8, issues: Vec<HealthIssue>) -> HealthStatus {
    HealthStatus {
        status,
        version: "1.0.0".to_string(),
        uptime_seconds: 3600,
        current_epoch: 100,
        consensus_strength: strength,
        validator_count: validators,
        active_validators: validators,
        last_finalized_block: 100,
        pending_transactions: pending,
        participation_rate: participation,
        issues,
        checked_at: 1234567890,
    }
}

#[test]
fn test_health_state_healthy() {
    let health = health(HealthState::Healthy, 95, 10, 5, 90, vec![]);

    assert!(health.is_healthy());
    assert!(!health.is_degraded());
    assert!(!health.is_critical());
    assert_eq!(health.status_message(), "All systems operational");
}

#[test]
fn test_health_state_degraded() {
    let health = health(
        HealthState::Degraded,
        60,
        10,
        5,
        45,
        vec![HealthIssue::LowConsensus(60), HealthIssue::LowParticipation(45)],
    );

    assert!(!health.is_healthy());
    assert!(health.is_degraded());
    assert!(!health.is_critical());
    assert!(health.status_message().contains("degraded"));
    assert!(health.status_message().contains("Low consensus"));
}

#[test]
fn test_health_state_critical() {
    let health = health(
        HealthState::Critical,
        30,
        2,
        2000,
        20,
        vec![
            HealthIssue::LowConsensus(30),
            HealthIssue::LowParticipation(20),
            HealthIssue::InsufficientValidators(2),
            HealthIssue::TransactionBacklog(2000),
        ],
    );

    assert!(!health.is_healthy());
    assert!(!health.is_degraded());
    assert!(health.is_critical());
    assert!(health.status_message().contains("critical"));
}

#[test]
fn test_liveness_check() {
    let liveness = LivenessCheck::new();
    assert!(liveness.alive);
    assert!(liveness.timestamp > 0);
}

#[test]
fn test_readiness_check_from_healthy() {
    let health = health(HealthState::Healthy, 95, 10, 5, 90, vec![]);

    let readiness = ReadinessCheck::from_health(&health);
    assert!(readiness.ready);
    assert!(readiness.reason.is_none());
}

#[test]
fn test_readiness_check_from_critical() {
    let health = health(HealthState::Critical, 30, 2, 2000, 20, vec![HealthIssue::LowConsensus(30)]);

    let readiness = ReadinessCheck::from_health(&health);
    assert!(!readiness.ready);
    assert!(readiness.reason.is_some());
}

#[test]
fn test_health_issue_messages() {
    let issues = vec![
        HealthIssue::LowConsensus(50),
        HealthIssue::LowParticipation(40),
        HealthIssue::StaleChain(10),
        HealthIssue::InsufficientValidators(3),
        HealthIssue::TransactionBacklog(1500),
        HealthIssue::HighByzantineRate(150),
    ];

    let health = health(HealthState::Critical, 50, 3, 1500, 40, issues);

    let summary = health.issues_summary();
    assert!(summary.contains("Low consensus"));
    assert!(summary.contains("Low participation"));
    assert!(summary.contains("Stale chain"));
    assert!(summary.contains("Insufficient validators"));
    assert!(summary.contains("Transaction backlog"));
    assert!(summary.contains("High Byzantine rate"));
}

// ---- staking ----

#[test]
fn staking_test_validator_registration() {
    let mut staking = EmotionalStaking::new(10_000);

    let result = staking.register_validator("validator-1".to_string(), "addr1".to_string(), 10_000, 5);

    assert!(result.is_ok());
    assert!(staking.get_validator("validator-1").is_some());
}

#[test]
fn staking_test_insufficient_stake() {
    let mut staking = EmotionalStaking::new(10_000);

    let result = staking.register_validator("validator-1".to_string(), "addr1".to_string(), 5_000, 5);

    assert!(result.is_err());
}

#[test]
fn test_stake_delegation() {
    let mut staking = EmotionalStaking::new(10_000);

    staking.register_validator("validator-1".to_string(), "addr1".to_string(), 10_000, 5).unwrap();

    let result = staking.delegate_stake("validator-1".to_string(), "delegator1".to_string(), 5_000, 21 * 24 * 60 * 60);

    assert!(result.is_ok());
}

#[test]
fn staking_test_slashing() {
    let mut staking = EmotionalStaking::new(10_000);

    staking.register_validator("validator-1".to_string(), "addr1".to_string(), 10_000, 5).unwrap();

    let result = staking.slash_validator("validator-1", SlashingOffense::PoorEmotionalBehavior, "Score below 40".to_string());

    assert!(result.is_ok());

    let validator = staking.get_validator("validator-1").unwrap();
    assert!(validator.stake < 10_000);
}
