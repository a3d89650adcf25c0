//! The closed set of failures the engine reports.

use vstd::prelude::*;
use vstd::string::*;
use crate::utils::{decimal, decimal_text};

verus! {

/// Errors that consensus operations can report.
#[derive(Debug, Clone)]
pub enum ConsensusError {
    /// A validator's emotional score is below the threshold.
    InsufficientEmotionalFitness { score: u8, threshold: u8 },
    /// A stake is below the required minimum.
    InsufficientStake { stake: u64, minimum: u64 },
    /// Byzantine behaviour was detected.
    ByzantineFailure { reason: String },
    /// No validator has the given id.
    ValidatorNotFound { id: String },
    /// A block proposal is invalid.
    InvalidBlock { reason: String },
    /// A vote is invalid.
    InvalidVote { reason: String },
    /// A consensus round ran out of time.
    RoundTimeout { duration_ms: u64 },
    /// The network is partitioned.
    NetworkPartition,
    /// A signature did not verify.
    SignatureVerificationFailed { reason: String },
    /// Biometric readings were rejected.
    BiometricValidationFailed { reason: String },
    /// No committee could be formed.
    CommitteeSelectionFailed { reason: String },
    /// Two different blocks were seen at one height.
    ForkDetected { height: u64 },
    /// Storage failed.
    StorageError { message: String },
    /// A configuration value is out of range.
    ConfigError { message: String },
    /// The engine is already running.
    AlreadyRunning,
    /// The engine is not running.
    NotRunning,
    /// An internal invariant failed.
    Internal { message: String },
}

impl ConsensusError {
    /// An insufficient emotional fitness error.
    pub fn insufficient_emotional_fitness(score: u8, threshold: u8) -> (r: Self)
        ensures
            r == (ConsensusError::InsufficientEmotionalFitness { score, threshold }),
    {
        ConsensusError::InsufficientEmotionalFitness { score, threshold }
    }

    /// An insufficient stake error.
    pub fn insufficient_stake(stake: u64, minimum: u64) -> (r: Self)
        ensures
            r == (ConsensusError::InsufficientStake { stake, minimum }),
    {
        ConsensusError::InsufficientStake { stake, minimum }
    }

    /// A Byzantine failure error.
    pub fn byzantine_failure(reason: &str) -> (r: Self)
        ensures
            r is ByzantineFailure,
            r->ByzantineFailure_reason@ == reason@,
    {
        ConsensusError::ByzantineFailure { reason: reason.to_owned() }
    }

    /// A validator-not-found error.
    pub fn validator_not_found(id: &str) -> (r: Self)
        ensures
            r is ValidatorNotFound,
            r->ValidatorNotFound_id@ == id@,
    {
        ConsensusError::ValidatorNotFound { id: id.to_owned() }
    }

    /// An invalid block error.
    pub fn invalid_block(reason: &str) -> (r: Self)
        ensures
            r is InvalidBlock,
            r->InvalidBlock_reason@ == reason@,
    {
        ConsensusError::InvalidBlock { reason: reason.to_owned() }
    }

    /// An invalid vote error.
    pub fn invalid_vote(reason: &str) -> (r: Self)
        ensures
            r is InvalidVote,
            r->InvalidVote_reason@ == reason@,
    {
        ConsensusError::InvalidVote { reason: reason.to_owned() }
    }

    /// A round timeout error.
    pub fn round_timeout(duration_ms: u64) -> (r: Self)
        ensures
            r == (ConsensusError::RoundTimeout { duration_ms }),
    {
        ConsensusError::RoundTimeout { duration_ms }
    }

    /// A signature verification error.
    pub fn signature_verification_failed(reason: &str) -> (r: Self)
        ensures
            r is SignatureVerificationFailed,
            r->SignatureVerificationFailed_reason@ == reason@,
    {
        ConsensusError::SignatureVerificationFailed { reason: reason.to_owned() }
    }

    /// A biometric validation error.
    pub fn biometric_validation_failed(reason: &str) -> (r: Self)
        ensures
            r is BiometricValidationFailed,
            r->BiometricValidationFailed_reason@ == reason@,
    {
        ConsensusError::BiometricValidationFailed { reason: reason.to_owned() }
    }

    /// A committee selection error.
    pub fn committee_selection_failed(reason: &str) -> (r: Self)
        ensures
            r is CommitteeSelectionFailed,
            r->CommitteeSelectionFailed_reason@ == reason@,
    {
        ConsensusError::CommitteeSelectionFailed { reason: reason.to_owned() }
    }

    /// A fork error at `height`.
    pub fn fork_detected(height: u64) -> (r: Self)
        ensures
            r == (ConsensusError::ForkDetected { height }),
    {
        ConsensusError::ForkDetected { height }
    }

    /// A storage error.
    pub fn storage_error(message: &str) -> (r: Self)
        ensures
            r is StorageError,
            r->StorageError_message@ == message@,
    {
        ConsensusError::StorageError { message: message.to_owned() }
    }

    /// A configuration error.
    pub fn config_error(message: &str) -> (r: Self)
        ensures
            r is ConfigError,
            r->ConfigError_message@ == message@,
    {
        ConsensusError::ConfigError { message: message.to_owned() }
    }

    /// An internal error.
    pub fn internal(message: &str) -> (r: Self)
        ensures
            r is Internal,
            r->Internal_message@ == message@,
    {
        ConsensusError::Internal { message: message.to_owned() }
    }

    /// The text that describes this error.
    pub open spec fn message_spec(&self) -> Seq<char> {
        match self {
            ConsensusError::InsufficientEmotionalFitness { score, threshold } =>
                "Insufficient emotional fitness: "@ + decimal(*score as nat) + " < "@
                    + decimal(*threshold as nat),
            ConsensusError::InsufficientStake { stake, minimum } =>
                "Insufficient stake: "@ + decimal(*stake as nat) + " < "@ + decimal(*minimum as nat),
            ConsensusError::ByzantineFailure { reason } =>
                "Byzantine behavior detected: "@ + reason@,
            ConsensusError::ValidatorNotFound { id } => "Validator not found: "@ + id@,
            ConsensusError::InvalidBlock { reason } => "Invalid block: "@ + reason@,
            ConsensusError::InvalidVote { reason } => "Invalid vote: "@ + reason@,
            ConsensusError::RoundTimeout { duration_ms } =>
                "Consensus round timed out after "@ + decimal(*duration_ms as nat) + "ms"@,
            ConsensusError::NetworkPartition => "Network partition detected"@,
            ConsensusError::SignatureVerificationFailed { reason } =>
                "Signature verification failed: "@ + reason@,
            ConsensusError::BiometricValidationFailed { reason } =>
                "Biometric validation failed: "@ + reason@,
            ConsensusError::CommitteeSelectionFailed { reason } =>
                "Committee selection failed: "@ + reason@,
            ConsensusError::ForkDetected { height } =>
                "Fork detected at height "@ + decimal(*height as nat),
            ConsensusError::StorageError { message } => "Storage error: "@ + message@,
            ConsensusError::ConfigError { message } => "Configuration error: "@ + message@,
            ConsensusError::AlreadyRunning => "Consensus engine is already running"@,
            ConsensusError::NotRunning => "Consensus engine is not running"@,
            ConsensusError::Internal { message } => "Internal error: "@ + message@,
        }
    }

    /// Describes this error in words.
    pub fn message(&self) -> (r: String)
        ensures
            r@ == self.message_spec(),
    {
        match self {
            ConsensusError::InsufficientEmotionalFitness { score, threshold } => {
                let mut s = String::from_str("Insufficient emotional fitness: ");
                s.append(decimal_text(*score as u64).as_str());
                s.append(" < ");
                s.append(decimal_text(*threshold as u64).as_str());
                s
            },
            ConsensusError::InsufficientStake { stake, minimum } => {
                let mut s = String::from_str("Insufficient stake: ");
                s.append(decimal_text(*stake).as_str());
                s.append(" < ");
                s.append(decimal_text(*minimum).as_str());
                s
            },
            ConsensusError::ByzantineFailure { reason } => {
                String::from_str("Byzantine behavior detected: ").concat(reason.as_str())
            },
            ConsensusError::ValidatorNotFound { id } => {
                String::from_str("Validator not found: ").concat(id.as_str())
            },
            ConsensusError::InvalidBlock { reason } => {
                String::from_str("Invalid block: ").concat(reason.as_str())
            },
            ConsensusError::InvalidVote { reason } => {
                String::from_str("Invalid vote: ").concat(reason.as_str())
            },
            ConsensusError::RoundTimeout { duration_ms } => {
                let mut s = String::from_str("Consensus round timed out after ");
                s.append(decimal_text(*duration_ms).as_str());
                s.append("ms");
                s
            },
            ConsensusError::NetworkPartition => String::from_str("Network partition detected"),
            ConsensusError::SignatureVerificationFailed { reason } => {
                String::from_str("Signature verification failed: ").concat(reason.as_str())
            },
            ConsensusError::BiometricValidationFailed { reason } => {
                String::from_str("Biometric validation failed: ").concat(reason.as_str())
            },
            ConsensusError::CommitteeSelectionFailed { reason } => {
                String::from_str("Committee selection failed: ").concat(reason.as_str())
            },
            ConsensusError::ForkDetected { height } => {
                let mut s = String::from_str("Fork detected at height ");
                s.append(decimal_text(*height).as_str());
                s
            },
            ConsensusError::StorageError { message } => {
                String::from_str("Storage error: ").concat(message.as_str())
            },
            ConsensusError::ConfigError { message } => {
                String::from_str("Configuration error: ").concat(message.as_str())
            },
            ConsensusError::AlreadyRunning => String::from_str("Consensus engine is already running"),
            ConsensusError::NotRunning => String::from_str("Consensus engine is not running"),
            ConsensusError::Internal { message } => {
                String::from_str("Internal error: ").concat(message.as_str())
            },
        }
    }
}

} // verus!
