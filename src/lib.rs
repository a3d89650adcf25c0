//! A Byzantine fault-tolerant consensus engine whose committee is gated by
//! an emotional-fitness score, with a stake ledger, Byzantine and fork
//! detection, and checkpoints for crash recovery.

pub mod utils;
pub mod error;
pub mod crypto;
pub mod types;
pub mod staking;
pub mod byzantine;
pub mod fork;
pub mod checkpoint;
pub mod biometric;
pub mod consensus;
pub mod health;

pub use biometric::{BiometricReading, BiometricSimulator, BiometricType, EmotionalProfile, EmotionalTrend, EmotionalValidator};
pub use byzantine::ByzantineDetector;
pub use checkpoint::{Checkpoint, CheckpointManager, CheckpointStatistics, ValidatorSignature};
pub use consensus::{ConsensusConfig, ConsensusMetrics, ConsensusState, ProofOfEmotionEngine, RoundPhase};
pub use crypto::{EmotionalProof, KeyPair, Signature};
pub use error::ConsensusError;
pub use fork::{ForkDetector, ForkInfo, ForkStatistics};
pub use staking::{EmotionalStaking, RewardDistribution, SlashingEvent, Validator};
pub use types::{Block, BlockHeader, Transaction, Vote, VotingResult};

use vstd::prelude::*;

verus! {

/// Ticker symbol of the native token.
pub const TICKER: &'static str = "POE";

/// Minimum stake a validator needs to be registered.
pub const MIN_VALIDATOR_STAKE: u64 = 10_000;

/// Largest committee the engine will form.
pub const MAX_COMMITTEE_SIZE: usize = 101;

/// Default emotional-fitness threshold for committee eligibility.
pub const DEFAULT_EMOTIONAL_THRESHOLD: u8 = 75;

/// Default share of committee approvals, in percent, that finalizes a block.
pub const DEFAULT_BYZANTINE_THRESHOLD: u8 = 67;

/// Default epoch length in milliseconds.
pub const DEFAULT_EPOCH_DURATION: u64 = 30_000;

/// Protocol version string.
pub const PROTOCOL_VERSION: &'static str = "1.0.0";

/// Unbonding period in epochs.
pub const UNBONDING_PERIOD_EPOCHS: u64 = 2016;

/// Age in milliseconds after which a pending transaction expires.
pub const MAX_TX_AGE_MS: u64 = 300_000;

} // verus!
