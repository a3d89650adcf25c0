//! The consensus engine: one epoch at a time, assessment, committee
//! selection, proposal, voting and finalization.

use vstd::prelude::*;
use vstd::string::*;
use crate::crypto::text_signature_outcome;
use crate::biometric::{block_valid, qualities_valid, BiometricReading, EmotionalValidator};
use crate::byzantine::ByzantineDetector;
use crate::checkpoint::CheckpointManager;
use crate::error::ConsensusError;
use crate::fork::{lemma_text_less_asymmetric, lemma_text_less_total, lemma_text_less_transitive, text_less, text_less_exec, ForkDetector};
use crate::staking::{isqrt, lemma_isqrt_unique, SlashingEvent};
use crate::types::{block_hashes_valid, clone_strings, expired, BlockModel, ConsensusMetadata, Transaction, TransactionModel, Vote, VoteModel, VotingResult, Block, tx_models};
use crate::utils::{decimal, integer_sqrt, percentage, text_eq, zero_padded, zero_padded_text};
use crate::MAX_TX_AGE_MS;

verus! {

/// Engine parameters.
#[derive(Debug, Clone, Copy)]
pub struct ConsensusConfig {
    /// Epoch length in milliseconds.
    pub epoch_duration: u64,
    /// Minimum emotional score for eligibility, 0 to 100.
    pub emotional_threshold: u8,
    /// Share of the committee, in percent, whose approval finalizes a block,
    /// 51 to 100.
    pub byzantine_threshold: u8,
    /// Committee size, above 0.
    pub committee_size: usize,
    /// Minimum stake of a validator.
    pub minimum_stake: u64,
    /// Voting budget in milliseconds.
    pub voting_timeout: u64,
    /// Proposal budget in milliseconds.
    pub proposal_timeout: u64,
    /// Finality budget in milliseconds.
    pub finality_timeout: u64,
}

impl ConsensusConfig {
    /// The default parameters.
    pub fn default_config() -> (r: ConsensusConfig)
        ensures
            r.epoch_duration == 30_000,
            r.emotional_threshold == 75,
            r.byzantine_threshold == 67,
            r.committee_size == 21,
            r.minimum_stake == 10_000,
            r.voting_timeout == 8_000,
            r.proposal_timeout == 10_000,
            r.finality_timeout == 2_000,
    {
        ConsensusConfig {
            epoch_duration: 30_000,
            emotional_threshold: 75,
            byzantine_threshold: 67,
            committee_size: 21,
            minimum_stake: 10_000,
            voting_timeout: 8_000,
            proposal_timeout: 10_000,
            finality_timeout: 2_000,
        }
    }
}

impl Default for ConsensusConfig {
    fn default() -> (r: ConsensusConfig)
        ensures
            r.epoch_duration == 30_000,
            r.emotional_threshold == 75,
            r.byzantine_threshold == 67,
            r.committee_size == 21,
            r.minimum_stake == 10_000,
    {
        ConsensusConfig::default_config()
    }
}

/// The observed state of consensus.
#[derive(Debug, Clone, Copy)]
pub struct ConsensusState {
    /// Current epoch.
    pub current_epoch: u64,
    /// Network health, 0 to 100.
    pub network_health: u8,
    /// Consensus strength of the last finalized block, in percent.
    pub consensus_strength: u8,
    /// Average emotional score of its voters.
    pub emotional_fitness: u8,
    /// Votes counted as a percentage of registered validators.
    pub participation_rate: u8,
    /// Height of the last finalized block.
    pub last_finalized_height: u64,
    /// Pending transactions.
    pub pending_transactions: usize,
    /// Registered validators.
    pub total_validators: usize,
    /// Active validators.
    pub active_validators: usize,
}

/// Phase of a consensus round.
#[derive(Debug, Clone, Copy, PartialEq, Eq, Structural)]
pub enum RoundPhase {
    /// A block is being proposed.
    Propose,
    /// The committee is voting.
    Vote,
    /// The block is being committed.
    Commit,
    /// The block is finalized.
    Finalized,
    /// The round was aborted.
    Aborted,
}

/// One consensus round: a proposal and the votes on it.
#[derive(Debug)]
pub struct ConsensusRound {
    /// Round id.
    pub id: String,
    /// Current phase.
    pub phase: RoundPhase,
    /// The proposed block, once proposed.
    pub proposed_block: Option<Block>,
    /// The votes collected.
    pub votes: Vec<Vote>,
    /// Start of the round, in milliseconds since the Unix epoch.
    pub start_time: u64,
}

/// Counters of the engine's work. Averages are integers: committee size in
/// thousandths of a validator, participation in percent.
#[derive(Debug, Clone, Copy)]
pub struct ConsensusMetrics {
    /// Epochs completed.
    pub total_epochs: u64,
    /// Epochs that finalized a block.
    pub successful_epochs: u64,
    /// Epochs that failed.
    pub failed_epochs: u64,
    /// Average epoch duration in milliseconds.
    pub average_duration_ms: u64,
    /// Average emotional score.
    pub average_emotional_score: u8,
    /// Byzantine behaviours detected.
    pub byzantine_failures: u64,
    /// Blocks rejected.
    pub rejected_blocks: u64,
    /// Votes rejected.
    pub rejected_votes: u64,
    /// Rounds that timed out.
    pub timeout_rounds: u64,
    /// Epochs failed for lack of fit validators.
    pub emotional_failures: u64,
    /// Network partitions detected.
    pub network_partitions: u64,
    /// Forks detected.
    pub fork_detections: u64,
    /// Blocks finalized.
    pub blocks_finalized: u64,
    /// Transactions finalized.
    pub transactions_processed: u64,
    /// Average committee size, in thousandths of a validator.
    pub average_committee_size: u64,
    /// Average participation rate, in percent.
    pub average_participation_rate: u64,
    /// Average proposal time in milliseconds.
    pub average_proposal_time_ms: u64,
    /// Average voting time in milliseconds.
    pub average_voting_time_ms: u64,
    /// Average finalization time in milliseconds.
    pub average_finalization_time_ms: u64,
    /// Rewards distributed.
    pub total_rewards_distributed: u64,
    /// Stake slashed.
    pub total_stake_slashed: u64,
    /// Registered validators at the last finalization.
    pub active_validators: usize,
}

/// Metrics with every counter at zero.
pub fn zero_metrics() -> (r: ConsensusMetrics)
    ensures
        r.total_epochs == 0 && r.successful_epochs == 0 && r.failed_epochs == 0 && r.blocks_finalized == 0
            && r.byzantine_failures == 0,
{
    ConsensusMetrics {
        total_epochs: 0,
        successful_epochs: 0,
        failed_epochs: 0,
        average_duration_ms: 0,
        average_emotional_score: 0,
        byzantine_failures: 0,
        rejected_blocks: 0,
        rejected_votes: 0,
        timeout_rounds: 0,
        emotional_failures: 0,
        network_partitions: 0,
        fork_detections: 0,
        blocks_finalized: 0,
        transactions_processed: 0,
        average_committee_size: 0,
        average_participation_rate: 0,
        average_proposal_time_ms: 0,
        average_voting_time_ms: 0,
        average_finalization_time_ms: 0,
        total_rewards_distributed: 0,
        total_stake_slashed: 0,
        active_validators: 0,
    }
}

/// The number of approvals a committee of `committee_size` needs at a
/// threshold in percent: the ceiling of their product over 100.
pub open spec fn required_votes_spec(committee_size: nat, threshold: nat) -> nat {
    (committee_size * threshold + 99) / 100
}

/// Whether `approvals` reach the quorum.
pub open spec fn quorum(approvals: nat, committee_size: nat, threshold: nat) -> bool {
    approvals * 100 >= committee_size * threshold
}

/// Reaching the quorum is having at least the ceiling of committee size times
/// threshold over 100 approvals.
pub proof fn lemma_quorum_is_ceiling(approvals: nat, committee_size: nat, threshold: nat)
    ensures
        quorum(approvals, committee_size, threshold) <==> approvals >= required_votes_spec(committee_size, threshold),
{
    let p = committee_size * threshold;
    let q = (p + 99) / 100;
    assert(q * 100 <= p + 99 && p + 99 < q * 100 + 100) by (nonlinear_arith)
        requires q == (p + 99) / 100;
    if approvals >= q {
        assert(approvals * 100 >= q * 100) by (nonlinear_arith)
            requires approvals >= q;
    } else {
        assert(approvals * 100 <= q * 100 - 100) by (nonlinear_arith)
            requires approvals + 1 <= q;
    }
}

/// The approvals a committee needs.
pub fn required_votes(committee_size: usize, byzantine_threshold: u8) -> (r: u128)
    ensures
        r as nat == required_votes_spec(committee_size as nat, byzantine_threshold as nat),
{
    proof {
        assert((committee_size as u128) * (byzantine_threshold as u128) <= 0x1_0000_0000_0000_0000 * 256) by (nonlinear_arith)
            requires committee_size < 0x1_0000_0000_0000_0000, byzantine_threshold < 256;
    }
    ((committee_size as u128) * (byzantine_threshold as u128) + 99) / 100
}

/// Whether `approvals` reach the quorum of a committee.
pub fn quorum_reached(approvals: usize, committee_size: usize, byzantine_threshold: u8) -> (r: bool)
    ensures
        r == quorum(approvals as nat, committee_size as nat, byzantine_threshold as nat),
        r == (approvals as nat >= required_votes_spec(committee_size as nat, byzantine_threshold as nat)),
{
    proof {
        lemma_quorum_is_ceiling(approvals as nat, committee_size as nat, byzantine_threshold as nat);
        assert((committee_size as u128) * (byzantine_threshold as u128) <= 0x1_0000_0000_0000_0000 * 256) by (nonlinear_arith)
            requires committee_size < 0x1_0000_0000_0000_0000, byzantine_threshold < 256;
    }
    (approvals as u128) * 100 >= (committee_size as u128) * (byzantine_threshold as u128)
}

/// The hash that precedes the first block: 64 zeros.
pub open spec fn genesis_hash() -> Seq<char> {
    Seq::new(64, |i: int| '0')
}

/// Whether a list of finalized blocks forms a chain: heights run from 1 by
/// one, each block names the hash of the one before (the first names the
/// genesis hash), epochs do not decrease, and every hash and Merkle root
/// recomputes.
pub open spec fn chain_valid(blocks: Seq<BlockModel>) -> bool {
    &&& forall|i: int| 0 <= i < blocks.len() ==> (#[trigger] blocks[i]).header.height == i + 1
    &&& forall|i: int| 0 < i < blocks.len() ==> (#[trigger] blocks[i]).header.previous_hash == blocks[i - 1].hash
    &&& forall|i: int| 0 < i < blocks.len() ==> (#[trigger] blocks[i]).header.epoch >= blocks[i - 1].header.epoch
    &&& blocks.len() > 0 ==> blocks[0].header.previous_hash == genesis_hash()
    &&& forall|i: int| 0 <= i < blocks.len() ==> block_hashes_valid(#[trigger] blocks[i])
}

/// The views of a list of blocks.
pub open spec fn block_models(v: Seq<Block>) -> Seq<BlockModel> {
    Seq::new(v.len(), |i: int| v[i]@)
}

/// The ranking key of a validator in fixed point: a thousand times score
/// times the square root of stake times reputation over 100, rounded down,
/// computed exactly as the integer square root of its square.
pub open spec fn rank_of(score: u8, stake: u64, reputation: u8) -> nat {
    isqrt(100 * (score as nat * score as nat) * (reputation as nat * reputation as nat) * stake as nat)
}

/// The committee order: higher rank first, then the smaller id.
pub open spec fn ranks_before(ra: nat, ida: Seq<char>, rb: nat, idb: Seq<char>) -> bool {
    ra > rb || (ra == rb && text_less(ida, idb))
}

/// The consensus engine.
pub struct ProofOfEmotionEngine {
    /// Parameters.
    pub config: ConsensusConfig,
    validators: Vec<EmotionalValidator>,
    pending_transactions: Vec<Transaction>,
    state: ConsensusState,
    is_running: bool,
    metrics: ConsensusMetrics,
    finalized_blocks: Vec<Block>,
    byzantine_detector: ByzantineDetector,
    fork_detector: ForkDetector,
    checkpoint_manager: CheckpointManager,
}

/// Heights between checkpoints.
pub const CHECKPOINT_INTERVAL: u64 = 100;

/// Transactions a block takes at most.
pub const MAX_BLOCK_TRANSACTIONS: usize = 1000;

impl ProofOfEmotionEngine {
    /// The finalized blocks, oldest first.
    pub closed spec fn chain(&self) -> Seq<BlockModel> {
        block_models(self.finalized_blocks@)
    }

    /// The pending transactions, in submission order.
    pub closed spec fn pending(&self) -> Seq<TransactionModel> {
        tx_models(self.pending_transactions@)
    }

    /// The ids of the registered validators.
    pub closed spec fn validator_ids(&self) -> Seq<Seq<char>> {
        Seq::new(self.validators@.len(), |i: int| self.validators@[i].id_spec())
    }

    /// The reputations of the registered validators, in registry order.
    pub closed spec fn reputations(&self) -> Seq<u8> {
        Seq::new(self.validators@.len(), |i: int| self.validators@[i].reputation_spec())
    }

    /// The votes the Byzantine detector has accepted, oldest first.
    pub closed spec fn detector_votes(&self) -> Seq<VoteModel> {
        self.byzantine_detector.votes_spec()
    }

    /// The proposals the Byzantine detector has accepted, oldest first.
    pub closed spec fn detector_proposals(&self) -> Seq<crate::byzantine::ProposalModel> {
        self.byzantine_detector.proposals_spec()
    }

    /// Whether the validator at `i` is eligible after assessing `readings`:
    /// it has readings of positive total quality, and is active with enough
    /// stake and a high enough score.
    pub closed spec fn assessed_eligible(&self, readings: Seq<Vec<BiometricReading>>, i: int) -> bool {
        &&& 0 <= i < self.validators@.len()
        &&& i < readings.len()
        &&& readings[i]@.len() > 0
        &&& crate::biometric::quality_sum(readings[i]@) > 0
        &&& self.validators@[i].active_spec()
        &&& self.validators@[i].stake_spec() >= self.config.minimum_stake
        &&& self.validators@[i].score_spec() >= self.config.emotional_threshold
    }

    /// There is one reputation per registered validator.
    pub proof fn lemma_reputations_len(&self)
        ensures
            self.reputations().len() == self.validator_ids().len(),
    {
    }

    /// The observed state.
    pub closed spec fn state_spec(&self) -> ConsensusState {
        self.state
    }

    /// The metrics.
    pub closed spec fn metrics_spec(&self) -> ConsensusMetrics {
        self.metrics
    }

    /// The consensus metadata of the last finalized block: participants,
    /// strength, emotional fitness and Byzantine failures.
    pub closed spec fn last_metadata(&self) -> Option<(usize, u8, u8, usize)> {
        if self.finalized_blocks@.len() == 0 {
            None
        } else {
            match self.finalized_blocks@.last().consensus_metadata {
                Some(m) => Some((m.participant_count, m.consensus_strength, m.emotional_fitness, m.byzantine_failures)),
                None => None,
            }
        }
    }

    /// The engine's parameters.
    pub closed spec fn config_spec(&self) -> ConsensusConfig {
        self.config
    }

    /// Whether the latest checkpoint verifies against the manager's total
    /// network stake.
    pub closed spec fn latest_checkpoint_verifies(&self) -> bool {
        self.checkpoint_manager.latest_verifies()
    }

    /// The checkpoints the engine's manager holds.
    pub closed spec fn checkpoints(&self) -> Seq<crate::checkpoint::CheckpointModel> {
        self.checkpoint_manager.checkpoints_spec()
    }

    /// The current epoch.
    pub closed spec fn epoch(&self) -> u64 {
        self.state.current_epoch
    }

    /// Whether the engine is running.
    pub closed spec fn running(&self) -> bool {
        self.is_running
    }

    /// The engine's invariant: the finalized blocks form a chain whose last
    /// height is the state's, validators are consistent and their ids
    /// unique, and the detectors and checkpoint manager are consistent.
    pub closed spec fn wf(&self) -> bool {
        &&& chain_valid(self.chain())
        &&& self.state.last_finalized_height == self.finalized_blocks@.len()
        &&& forall|i: int| 0 <= i < self.validators@.len() ==> (#[trigger] self.validators@[i]).wf()
        &&& forall|i: int, j: int| 0 <= i < self.validators@.len() && 0 <= j < self.validators@.len() && i != j
            ==> self.validators@[i].id_spec() != self.validators@[j].id_spec()
        &&& self.fork_detector.wf()
        &&& self.checkpoint_manager.wf()
        &&& self.config.committee_size > 0
        &&& 51 <= self.config.byzantine_threshold <= 100
        &&& self.config.emotional_threshold <= 100
        &&& self.state.pending_transactions == self.pending_transactions@.len()
        &&& self.state.total_validators == self.validators@.len()
        &&& self.finalized_blocks@.len() > 0 ==> self.chain().last().header.epoch <= self.state.current_epoch
    }

    /// The finalized chain of a well-formed engine links up: each block is one
    /// higher than the one before and names its hash.
    pub proof fn lemma_chain_continuity(&self, i: int)
        requires
            self.wf(),
            0 < i < self.chain().len(),
        ensures
            self.chain()[i].header.height == self.chain()[i - 1].header.height + 1,
            self.chain()[i].header.previous_hash == self.chain()[i - 1].hash,
            self.chain()[i].header.epoch >= self.chain()[i - 1].header.epoch,
    {
        assert(self.chain()[i].header.height == i + 1);
        assert(self.chain()[i - 1].header.height == i);
    }

    /// An engine with no validators, blocks or transactions, at epoch 0 and
    /// stopped. An emotional threshold above 100, a Byzantine threshold
    /// outside 51 to 100, or a committee size of 0 is a `ConfigError`.
    pub fn new(config: ConsensusConfig) -> (r: Result<ProofOfEmotionEngine, ConsensusError>)
        ensures
            (config.emotional_threshold > 100 || config.byzantine_threshold < 51 || config.byzantine_threshold > 100
                || config.committee_size == 0) ==> (r matches Err(ConsensusError::ConfigError { .. })),
            !(config.emotional_threshold > 100 || config.byzantine_threshold < 51 || config.byzantine_threshold > 100
                || config.committee_size == 0) ==> (r matches Ok(e) && e.wf() && e.chain().len() == 0
                && e.pending().len() == 0 && e.validator_ids().len() == 0 && e.epoch() == 0 && !e.running()
                && e.config_spec() == config),
    {
        if config.emotional_threshold > 100 {
            return Err(ConsensusError::config_error("Emotional threshold must be <= 100"));
        }
        if config.byzantine_threshold < 51 || config.byzantine_threshold > 100 {
            return Err(ConsensusError::config_error("Byzantine threshold must be 51-100"));
        }
        if config.committee_size == 0 {
            return Err(ConsensusError::config_error("Committee size must be > 0"));
        }
        let e = ProofOfEmotionEngine {
            config,
            validators: Vec::new(),
            pending_transactions: Vec::new(),
            state: ConsensusState {
                current_epoch: 0,
                network_health: 100,
                consensus_strength: 0,
                emotional_fitness: 0,
                participation_rate: 0,
                last_finalized_height: 0,
                pending_transactions: 0,
                total_validators: 0,
                active_validators: 0,
            },
            is_running: false,
            metrics: zero_metrics(),
            finalized_blocks: Vec::new(),
            byzantine_detector: ByzantineDetector::new(),
            fork_detector: ForkDetector::new(),
            checkpoint_manager: CheckpointManager::new(CHECKPOINT_INTERVAL),
        };
        assert(e.chain() =~= Seq::<BlockModel>::empty());
        assert(e.pending() =~= Seq::<TransactionModel>::empty());
        assert(e.validator_ids() =~= Seq::<Seq<char>>::empty());
        Ok(e)
    }

    /// Registers a validator. A stake below the configured minimum is
    /// `InsufficientStake` and leaves the registry unchanged; a validator
    /// with a registered id replaces it.
    pub fn register_validator(&mut self, validator: EmotionalValidator) -> (r: Result<(), ConsensusError>)
        requires
            old(self).wf(),
            validator.wf(),
        ensures
            final(self).wf(),
            final(self).chain() == old(self).chain(),
            final(self).pending() == old(self).pending(),
            final(self).epoch() == old(self).epoch(),
            final(self).running() == old(self).running(),
            validator.stake_spec() < old(self).config_spec().minimum_stake ==> r == Err::<(), ConsensusError>(
                ConsensusError::InsufficientStake { stake: validator.stake_spec(), minimum: old(self).config_spec().minimum_stake })
                && final(self).validator_ids() == old(self).validator_ids(),
            validator.stake_spec() >= old(self).config_spec().minimum_stake ==> r is Ok
                && final(self).validator_ids().contains(validator.id_spec())
                && (old(self).validator_ids().contains(validator.id_spec()) ==> final(self).validator_ids() == old(self).validator_ids())
                && (!old(self).validator_ids().contains(validator.id_spec())
                    ==> final(self).validator_ids() == old(self).validator_ids().push(validator.id_spec())),
    {
        if validator.get_stake() < self.config.minimum_stake {
            return Err(ConsensusError::insufficient_stake(validator.get_stake(), self.config.minimum_stake));
        }
        let ghost ids = self.validator_ids();
        let mut i: usize = 0;
        while i < self.validators.len()
            invariant
                i <= self.validators@.len(),
                self.validators@ == old(self).validators@,
                self.wf(),
                validator.wf(),
                validator.stake_spec() >= self.config.minimum_stake,
                self == old(self),
                ids == self.validator_ids(),
                forall|k: int| 0 <= k < i ==> self.validators@[k].id_spec() != validator.id_spec(),
            decreases self.validators@.len() - i,
        {
            if text_eq(self.validators[i].id(), validator.id()) {
                let ghost vid = validator.id_spec();
                self.validators.set(i, validator);
                proof {
                    assert(self.validator_ids() =~= ids);
                    assert(ids[i as int] == vid);
                    assert forall|a: int, b: int| 0 <= a < self.validators@.len() && 0 <= b < self.validators@.len() && a != b
                        implies self.validators@[a].id_spec() != self.validators@[b].id_spec() by {
                        assert(self.validator_ids()[a] == ids[a]);
                        assert(self.validator_ids()[b] == ids[b]);
                        assert(ids[a] == old(self).validators@[a].id_spec());
                        assert(ids[b] == old(self).validators@[b].id_spec());
                    }
                }
                return Ok(());
            }
            i = i + 1;
        }
        let ghost vid = validator.id_spec();
        self.validators.push(validator);
        self.state.total_validators = self.validators.len();
        proof {
            assert(self.validator_ids() =~= ids.push(vid));
            assert(self.validator_ids()[ids.len() as int] == vid);
            assert(!ids.contains(vid));
        }
        Ok(())
    }

    /// Marks the engine running; `AlreadyRunning` when it is.
    pub fn start(&mut self) -> (r: Result<(), ConsensusError>)
        requires
            old(self).wf(),
        ensures
            final(self).wf(),
            final(self).chain() == old(self).chain(),
            final(self).pending() == old(self).pending(),
            final(self).epoch() == old(self).epoch(),
            final(self).validator_ids() == old(self).validator_ids(),
            old(self).running() ==> r == Err::<(), ConsensusError>(ConsensusError::AlreadyRunning),
            !old(self).running() ==> r is Ok,
            final(self).running(),
    {
        if self.is_running {
            return Err(ConsensusError::AlreadyRunning);
        }
        self.is_running = true;
        Ok(())
    }

    /// Marks the engine stopped; `NotRunning` when it is not running.
    pub fn stop(&mut self) -> (r: Result<(), ConsensusError>)
        requires
            old(self).wf(),
        ensures
            final(self).wf(),
            final(self).chain() == old(self).chain(),
            final(self).pending() == old(self).pending(),
            final(self).epoch() == old(self).epoch(),
            final(self).validator_ids() == old(self).validator_ids(),
            !old(self).running() ==> r == Err::<(), ConsensusError>(ConsensusError::NotRunning),
            old(self).running() ==> r is Ok,
            !final(self).running(),
    {
        if !self.is_running {
            return Err(ConsensusError::NotRunning);
        }
        self.is_running = false;
        Ok(())
    }

    /// Whether the engine is running.
    pub fn is_running(&self) -> (r: bool)
        ensures
            r == self.running(),
    {
        self.is_running
    }

    /// Adds a transaction to the end of the pending buffer.
    pub fn submit_transaction(&mut self, transaction: Transaction) -> (r: Result<(), ConsensusError>)
        requires
            old(self).wf(),
        ensures
            final(self).wf(),
            r is Ok,
            final(self).pending() == old(self).pending().push(transaction@),
            final(self).chain() == old(self).chain(),
            final(self).epoch() == old(self).epoch(),
            final(self).validator_ids() == old(self).validator_ids(),
            final(self).running() == old(self).running(),
    {
        let ghost t = transaction@;
        self.pending_transactions.push(transaction);
        self.state.pending_transactions = self.pending_transactions.len();
        assert(self.pending() =~= old(self).pending().push(t));
        Ok(())
    }

    /// Removes expired transactions from the pending buffer, keeping the
    /// order of the rest.
    pub fn cleanup_transaction_pool(&mut self, now: u64)
        requires
            old(self).wf(),
        ensures
            final(self).wf(),
            final(self).pending() == old(self).pending().filter(not_expired_at(now)),
            forall|i: int| 0 <= i < final(self).pending().len()
                ==> !expired(#[trigger] final(self).pending()[i].timestamp, now, MAX_TX_AGE_MS),
            final(self).chain() == old(self).chain(),
            final(self).epoch() == old(self).epoch(),
            final(self).validator_ids() == old(self).validator_ids(),
            final(self).running() == old(self).running(),
    {
        let ghost keep = not_expired_at(now);
        let ghost all = self.pending();
        let mut kept: Vec<Transaction> = Vec::new();
        proof {
            reveal(Seq::filter);
            assert(tx_models(kept@) =~= all.subrange(0, 0).filter(keep));
        }
        let mut i: usize = 0;
        while i < self.pending_transactions.len()
            invariant
                all == tx_models(self.pending_transactions@),
                keep == not_expired_at(now),
                i <= all.len(),
                tx_models(kept@) == all.subrange(0, i as int).filter(keep),
            decreases all.len() - i,
        {
            let ghost before = tx_models(kept@);
            proof {
                assert(all.subrange(0, i as int + 1) =~= all.subrange(0, i as int).push(all[i as int]));
                all.subrange(0, i as int).lemma_filter_push(all[i as int], keep);
                assert(all[i as int] == self.pending_transactions@[i as int]@);
            }
            if !self.pending_transactions[i].is_expired(now, MAX_TX_AGE_MS) {
                kept.push(self.pending_transactions[i].clone());
                assert(tx_models(kept@) =~= before.push(all[i as int]));
            }
            i = i + 1;
        }
        proof {
            assert(all.subrange(0, all.len() as int) =~= all);
        }
        self.pending_transactions = kept;
        self.state.pending_transactions = self.pending_transactions.len();
        proof {
            let f = all.filter(keep);
            assert forall|i: int| 0 <= i < f.len() implies !expired(#[trigger] f[i].timestamp, now, MAX_TX_AGE_MS) by {
                all.lemma_filter_pred(keep, i);
            }
        }
    }
}

/// The hash a new block must name: the last block's, or the genesis hash.
pub open spec fn expected_previous(c: Seq<BlockModel>) -> Seq<char> {
    if c.len() == 0 { genesis_hash() } else { c.last().hash }
}

/// The number of approving votes among vote views.
pub open spec fn model_approvals(votes: Seq<VoteModel>) -> nat
    decreases votes.len(),
{
    if votes.len() == 0 {
        0
    } else {
        model_approvals(votes.drop_last()) + if votes.last().approved { 1nat } else { 0nat }
    }
}

proof fn lemma_approvals_of_models(votes: Seq<Vote>)
    ensures
        approved_count(votes) == model_approvals(crate::byzantine::vote_models(votes)),
    decreases votes.len(),
{
    if votes.len() > 0 {
        assert(crate::byzantine::vote_models(votes).drop_last() =~= crate::byzantine::vote_models(votes.drop_last()));
        lemma_approvals_of_models(votes.drop_last());
    }
}

proof fn lemma_quality_sum_eq(a: Seq<BiometricReading>, b: Seq<BiometricReading>)
    requires
        a.len() == b.len(),
        forall|i: int| 0 <= i < a.len() ==> a[i].quality_permille == b[i].quality_permille,
    ensures
        crate::biometric::quality_sum(a) == crate::biometric::quality_sum(b),
    decreases a.len(),
{
    if a.len() > 0 {
        lemma_quality_sum_eq(a.drop_last(), b.drop_last());
    }
}

/// The number of approving votes.
pub open spec fn approved_count(votes: Seq<Vote>) -> nat
    decreases votes.len(),
{
    if votes.len() == 0 {
        0
    } else {
        approved_count(votes.drop_last()) + if votes.last().approved { 1nat } else { 0nat }
    }
}

/// The hashes of a block's transactions.
pub open spec fn block_tx_hashes(b: BlockModel) -> Set<Seq<char>> {
    Set::new(|h: Seq<char>| exists|k: int| 0 <= k < b.transactions.len() && b.transactions[k].hash == h)
}

/// Whether a pending transaction stays after finalizing `b` at `now`.
pub open spec fn stays_after(b: BlockModel, now: u64) -> spec_fn(TransactionModel) -> bool {
    |t: TransactionModel| !block_tx_hashes(b).contains(t.hash) && !expired(t.timestamp, now, MAX_TX_AGE_MS)
}

/// Whether `b` may follow the chain `c` at epoch `epoch`: it is one higher,
/// names the last hash (or the genesis hash), is not of an earlier epoch,
/// and its hashes recompute.
pub open spec fn extends(c: Seq<BlockModel>, b: BlockModel, epoch: u64) -> bool {
    &&& b.header.height == c.len() + 1
    &&& b.header.previous_hash == if c.len() == 0 { genesis_hash() } else { c.last().hash }
    &&& b.header.epoch == epoch
    &&& (c.len() > 0 ==> c.last().header.epoch <= epoch)
    &&& block_hashes_valid(b)
}

/// A chain extended by a block that may follow it is a chain.
pub proof fn lemma_extend_chain(c: Seq<BlockModel>, b: BlockModel, epoch: u64)
    requires
        chain_valid(c),
        extends(c, b, epoch),
    ensures
        chain_valid(c.push(b)),
{
    let d = c.push(b);
    assert forall|i: int| 0 < i < d.len() implies (#[trigger] d[i]).header.previous_hash == d[i - 1].hash by {
        if i < c.len() {
            assert(d[i] == c[i]);
            assert(d[i - 1] == c[i - 1]);
        }
    }
    assert forall|i: int| 0 < i < d.len() implies (#[trigger] d[i]).header.epoch >= d[i - 1].header.epoch by {
        if i < c.len() {
            assert(d[i] == c[i]);
            assert(d[i - 1] == c[i - 1]);
        }
    }
    assert forall|i: int| 0 <= i < d.len() implies (#[trigger] d[i]).header.height == i + 1 by {
        if i < c.len() {
            assert(d[i] == c[i]);
        }
    }
    assert forall|i: int| 0 <= i < d.len() implies block_hashes_valid(#[trigger] d[i]) by {
        if i < c.len() {
            assert(d[i] == c[i]);
        }
    }
}

/// Whether a candidate ranks before another in the committee order.
pub open spec fn candidate_before(a: EmotionalValidator, b: EmotionalValidator) -> bool {
    ranks_before(rank_of(a.score_spec(), a.stake_spec(), a.reputation_spec()), a.id_spec(),
        rank_of(b.score_spec(), b.stake_spec(), b.reputation_spec()), b.id_spec())
}

proof fn lemma_before_transitive(a: EmotionalValidator, b: EmotionalValidator, c: EmotionalValidator)
    requires
        candidate_before(a, b),
        candidate_before(b, c),
    ensures
        candidate_before(a, c),
{
    if text_less(a.id_spec(), b.id_spec()) && text_less(b.id_spec(), c.id_spec()) {
        lemma_text_less_transitive(a.id_spec(), b.id_spec(), c.id_spec());
    }
}

proof fn lemma_before_total(a: EmotionalValidator, b: EmotionalValidator)
    requires
        a.id_spec() != b.id_spec(),
    ensures
        candidate_before(a, b) || candidate_before(b, a),
{
    lemma_text_less_total(a.id_spec(), b.id_spec());
}

fn rank_exec(v: &EmotionalValidator) -> (r: u64)
    requires
        v.wf(),
    ensures
        r as nat == rank_of(v.score_spec(), v.stake_spec(), v.reputation_spec()),
{
    let s = v.get_emotional_score();
    let rep = v.get_reputation();
    let stake = v.get_stake();
    proof {
        v.lemma_bounds();
    }
    proof {
        assert((s as u128) * (s as u128) <= 10_000) by (nonlinear_arith) requires s <= 100;
        assert((rep as u128) * (rep as u128) <= 10_000) by (nonlinear_arith) requires rep <= 100;
    }
    let ss: u128 = (s as u128) * (s as u128);
    let rr: u128 = (rep as u128) * (rep as u128);
    proof {
        assert(ss <= 10_000) by (nonlinear_arith) requires s <= 100, ss == s as int * s as int;
        assert(rr <= 10_000) by (nonlinear_arith) requires rep <= 100, rr == rep as int * rep as int;
    }
    let t1: u128 = 100 * ss;
    proof {
        assert(t1 * rr <= 10_000_000_000) by (nonlinear_arith) requires t1 <= 1_000_000, rr <= 10_000;
    }
    let t2: u128 = t1 * rr;
    proof {
        assert(t2 * (stake as u128) <= 10_000_000_000 * 0xffff_ffff_ffff_ffff) by (nonlinear_arith)
            requires t2 <= 10_000_000_000, stake <= 0xffff_ffff_ffff_ffffu64;
    }
    let sq: u128 = t2 * (stake as u128);
    let w = crate::utils::integer_sqrt_wide(sq);
    proof {
        lemma_isqrt_unique(sq as nat, w as nat);
    }
    w
}

impl ProofOfEmotionEngine {
    /// The invariant holds of an engine that differs from a well-formed one
    /// only in its detector of Byzantine behaviour, metrics or running flag.
    #[verifier::rlimit(60)]
    proof fn lemma_wf_frame(&self, before: Self)
        requires
            before.wf(),
            self.validators@ == before.validators@,
            self.finalized_blocks@ == before.finalized_blocks@,
            self.pending_transactions@ == before.pending_transactions@,
            self.state == before.state,
            self.config == before.config,
            self.fork_detector == before.fork_detector,
            self.checkpoint_manager == before.checkpoint_manager,
        ensures
            self.wf(),
            self.validator_ids() == before.validator_ids(),
            self.chain() == before.chain(),
            self.pending() == before.pending(),
    {
    }

    proof fn lemma_member_wf(&self, i: int)
        requires
            self.wf(),
            0 <= i < self.validators@.len(),
        ensures
            self.validators@[i].wf(),
            self.config.committee_size > 0,
            51 <= self.config.byzantine_threshold <= 100,
    {
    }

    fn advance_epoch(&mut self)
        requires
            old(self).wf(),
            old(self).state.current_epoch < u64::MAX,
        ensures
            final(self).wf(),
            final(self).state.current_epoch == old(self).state.current_epoch + 1,
            final(self).validators@ == old(self).validators@,
            final(self).finalized_blocks@ == old(self).finalized_blocks@,
            final(self).pending_transactions@ == old(self).pending_transactions@,
            final(self).config == old(self).config,
            final(self).is_running == old(self).is_running,
            final(self).validator_ids() == old(self).validator_ids(),
            final(self).chain() == old(self).chain(),
            final(self).pending() == old(self).pending(),
            final(self).byzantine_detector == old(self).byzantine_detector,
    {
        self.state.current_epoch = self.state.current_epoch + 1;
    }

    /// Removes the validator at `i` from the registry and returns it.
    fn take_validator(&mut self, i: usize) -> (r: EmotionalValidator)
        requires
            i < old(self).validators@.len(),
        ensures
            r == old(self).validators@[i as int],
            final(self).validators@ == old(self).validators@.remove(i as int),
            final(self).config == old(self).config,
            final(self).state == old(self).state,
            final(self).finalized_blocks@ == old(self).finalized_blocks@,
            final(self).pending_transactions@ == old(self).pending_transactions@,
            final(self).fork_detector == old(self).fork_detector,
            final(self).checkpoint_manager == old(self).checkpoint_manager,
            final(self).byzantine_detector == old(self).byzantine_detector,
            final(self).is_running == old(self).is_running,
            final(self).metrics == old(self).metrics,
    {
        self.validators.remove(i)
    }

    proof fn lemma_put_back(&self, before: Self, i: int, v: EmotionalValidator)
        requires
            before.wf(),
            0 <= i < before.validators@.len(),
            self.validators@ == before.validators@.update(i, v),
            v.wf(),
            v.id_spec() == before.validators@[i].id_spec(),
            self.config == before.config,
            self.state == before.state,
            self.finalized_blocks@ == before.finalized_blocks@,
            self.pending_transactions@ == before.pending_transactions@,
            self.fork_detector == before.fork_detector,
            self.checkpoint_manager == before.checkpoint_manager,
        ensures
            self.wf(),
            self.validator_ids() == before.validator_ids(),
            self.chain() == before.chain(),
            self.pending() == before.pending(),
    {
        assert forall|k: int| 0 <= k < self.validators@.len() implies (#[trigger] self.validators@[k]).wf() by {
            if k != i {
                assert(self.validators@[k] == before.validators@[k]);
            }
        }
        assert forall|a: int, b: int| 0 <= a < self.validators@.len() && 0 <= b < self.validators@.len() && a != b
            implies self.validators@[a].id_spec() != self.validators@[b].id_spec() by {
            assert(self.validators@[a].id_spec() == before.validators@[a].id_spec());
            assert(self.validators@[b].id_spec() == before.validators@[b].id_spec());
        }
        assert(self.validator_ids() =~= before.validator_ids());
        assert(self.chain() =~= before.chain());
        assert(self.pending() =~= before.pending());
    }

    /// Lowers the reputation of the validator at `i` by 20, as the engine's
    /// penalty for Byzantine behaviour.
    fn penalize(&mut self, i: usize)
        requires
            old(self).wf(),
            i < old(self).validators@.len(),
        ensures
            final(self).wf(),
            final(self).validator_ids() == old(self).validator_ids(),
            final(self).chain() == old(self).chain(),
            final(self).pending() == old(self).pending(),
            final(self).state == old(self).state,
            final(self).config == old(self).config,
            final(self).byzantine_detector == old(self).byzantine_detector,
            final(self).is_running == old(self).is_running,
            final(self).validators@.len() == old(self).validators@.len(),
            final(self).reputations() == old(self).reputations().update(i as int,
                if old(self).reputations()[i as int] >= 20 { (old(self).reputations()[i as int] - 20) as u8 } else { 0u8 }),
            final(self).finalized_blocks@ == old(self).finalized_blocks@,
            final(self).metrics == old(self).metrics,
    {
        let ghost before = *self;
        let mut v = self.take_validator(i);
        let ghost old_rep = v.reputation_spec();
        proof {
            v.lemma_bounds();
        }
        v.adjust_reputation(-20);
        let ghost new_rep: u8 = if old_rep >= 20 { (old_rep - 20) as u8 } else { 0u8 };
        assert(v.reputation_spec() == new_rep);
        self.validators.insert(i, v);
        proof {
            assert(self.validators@ =~= before.validators@.update(i as int, v));
            assert(before.reputations()[i as int] == old_rep);
            self.lemma_put_back(before, i as int, v);
            assert(self.reputations() =~= before.reputations().update(i as int,
                if before.reputations()[i as int] >= 20 { (before.reputations()[i as int] - 20) as u8 } else { 0u8 }));
        }
    }

    /// Slashes a validator for Byzantine behaviour: its reputation drops by
    /// 20, floored at 0. An unknown id is an `InvalidBlock` and changes
    /// nothing.
    pub fn slash_validator(&mut self, validator_id: &str, reason: &str) -> (r: Result<(), ConsensusError>)
        requires
            old(self).wf(),
        ensures
            final(self).wf(),
            final(self).validator_ids() == old(self).validator_ids(),
            final(self).chain() == old(self).chain(),
            final(self).pending() == old(self).pending(),
            final(self).epoch() == old(self).epoch(),
            !old(self).validator_ids().contains(validator_id@) ==> (r matches Err(ConsensusError::InvalidBlock { .. }))
                && final(self).reputations() == old(self).reputations(),
            forall|i: int| 0 <= i < old(self).validator_ids().len() && old(self).validator_ids()[i] == validator_id@
                ==> r is Ok && final(self).reputations() == old(self).reputations().update(i,
                    if old(self).reputations()[i] >= 20 { (old(self).reputations()[i] - 20) as u8 } else { 0u8 }),
    {
        let mut i: usize = 0;
        while i < self.validators.len()
            invariant
                i <= self.validators@.len(),
                self.wf(),
                self.validators@ == old(self).validators@,
                self.finalized_blocks@ == old(self).finalized_blocks@,
                self.pending_transactions@ == old(self).pending_transactions@,
                self.state == old(self).state,
                forall|k: int| 0 <= k < i ==> self.validators@[k].id_spec() != validator_id@,
            decreases self.validators@.len() - i,
        {
            if text_eq(self.validators[i].id(), validator_id) {
                proof {
                    assert(self.validator_ids()[i as int] == validator_id@);
                    assert forall|k: int| 0 <= k < self.validator_ids().len() && self.validator_ids()[k] == validator_id@
                        implies k == i as int by {
                        if k != i as int {
                            assert(self.validators@[k].id_spec() != self.validators@[i as int].id_spec());
                        }
                    }
                }
                self.penalize(i);
                return Ok(());
            }
            i = i + 1;
        }
        proof {
            assert forall|k: int| 0 <= k < self.validator_ids().len() implies self.validator_ids()[k] != validator_id@ by {
                assert(self.validator_ids()[k] == self.validators@[k].id_spec());
            }
            assert(self.validator_ids() =~= old(self).validator_ids());
            assert(self.reputations() =~= old(self).reputations());
            assert(self.chain() =~= old(self).chain());
            assert(self.pending() =~= old(self).pending());
        }
        let mut msg = String::from_str("Validator ");
        msg.append(validator_id);
        msg.append(" not found for slashing: ");
        msg.append(reason);
        Err(ConsensusError::invalid_block(msg.as_str()))
    }

    /// Assesses every validator on its readings and returns the positions
    /// of the eligible ones, in registry order.
    fn assess(&mut self, readings: &Vec<Vec<BiometricReading>>) -> (r: Vec<usize>)
        requires
            old(self).wf(),
            forall|i: int| 0 <= i < readings@.len() ==> qualities_valid(#[trigger] readings@[i]@),
        ensures
            final(self).wf(),
            final(self).validator_ids() == old(self).validator_ids(),
            final(self).chain() == old(self).chain(),
            final(self).pending() == old(self).pending(),
            final(self).state == old(self).state,
            final(self).config == old(self).config,
            final(self).byzantine_detector == old(self).byzantine_detector,
            final(self).is_running == old(self).is_running,
            final(self).validators@.len() == old(self).validators@.len(),
            forall|k: int| 0 <= k < r@.len() ==> (#[trigger] r@[k]) < final(self).validators@.len()
                && final(self).validators@[r@[k] as int].active_spec()
                && final(self).validators@[r@[k] as int].stake_spec() >= final(self).config.minimum_stake
                && final(self).validators@[r@[k] as int].score_spec() >= final(self).config.emotional_threshold,
            forall|a: int, b: int| 0 <= a < b < r@.len() ==> r@[a] < r@[b],
            forall|k: int| 0 <= k < final(self).validators@.len() && !r@.contains(k as usize)
                ==> !final(self).assessed_eligible(readings@, k),
    {
        let mut eligible: Vec<usize> = Vec::new();
        let n = self.validators.len();
        let mut i: usize = 0;
        while i < n
            invariant
                self.wf(),
                n == self.validators@.len(),
                self.validator_ids() == old(self).validator_ids(),
                self.chain() == old(self).chain(),
                self.pending() == old(self).pending(),
                self.state == old(self).state,
                self.config == old(self).config,
                self.byzantine_detector == old(self).byzantine_detector,
                self.is_running == old(self).is_running,
                forall|j: int| 0 <= j < readings@.len() ==> qualities_valid(#[trigger] readings@[j]@),
                i <= n,
                forall|k: int| 0 <= k < eligible@.len() ==> (#[trigger] eligible@[k]) < i
                    && self.validators@[eligible@[k] as int].active_spec()
                    && self.validators@[eligible@[k] as int].stake_spec() >= self.config.minimum_stake
                    && self.validators@[eligible@[k] as int].score_spec() >= self.config.emotional_threshold,
                forall|a: int, b: int| 0 <= a < b < eligible@.len() ==> eligible@[a] < eligible@[b],
                forall|k: int| 0 <= k < i && !eligible@.contains(k as usize) ==> !self.assessed_eligible(readings@, k),
            decreases n - i,
        {
            let ghost before_el = eligible@;
            let ghost before_self = *self;
            if i < readings.len() {
                let rs = copy_readings(&readings[i]);
                assert(qualities_valid(readings@[i as int]@));
                proof {
                    lemma_quality_sum_eq(rs@, readings@[i as int]@);
                }
                let ghost before = *self;
                let mut v = self.take_validator(i);
                let ok = v.update_emotional_state(rs);
                let eligible_now = ok.is_ok() && v.is_eligible(self.config.emotional_threshold, self.config.minimum_stake);
                self.validators.insert(i, v);
                proof {
                    assert(self.validators@ =~= before.validators@.update(i as int, v));
                    self.lemma_put_back(before, i as int, v);
                    assert forall|k: int| 0 <= k < eligible@.len() implies self.validators@[eligible@[k] as int] == before.validators@[eligible@[k] as int] by {
                        assert(eligible@[k] < i);
                    }
                }
                if eligible_now {
                    eligible.push(i);
                    assert(eligible@[eligible@.len() - 1] == i);
                } else {
                    assert(!self.assessed_eligible(readings@, i as int));
                }
                assert(eligible@.contains(i) || !self.assessed_eligible(readings@, i as int));
            }
            proof {
                assert forall|k: int| 0 <= k < i + 1 && !eligible@.contains(k as usize) implies !self.assessed_eligible(readings@, k) by {
                    if k < i {
                        assert(self.validators@[k] == before_self.validators@[k]);
                        assert(self.validators@.len() == before_self.validators@.len());
                        assert(self.config == before_self.config);
                        if before_el.contains(k as usize) {
                            let q = choose|q: int| 0 <= q < before_el.len() && before_el[q] == k as usize;
                            assert(eligible@[q] == k as usize);
                            assert(eligible@.contains(k as usize));
                        }
                        assert(!before_self.assessed_eligible(readings@, k));
                    } else {
                        assert(k == i as int);
                    }
                }
            }
            i = i + 1;
        }
        eligible
    }

    /// Picks the committee among eligible positions: the best-ranked
    /// first, then the best of the rest, up to the committee size.
    fn select_committee(&self, eligible: &Vec<usize>) -> (r: Vec<usize>)
        requires
            self.wf(),
            forall|k: int| 0 <= k < eligible@.len() ==> (#[trigger] eligible@[k]) < self.validators@.len(),
            forall|a: int, b: int| 0 <= a < b < eligible@.len() ==> eligible@[a] < eligible@[b],
        ensures
            r@.len() == if eligible@.len() < self.config.committee_size { eligible@.len() as int } else { self.config.committee_size as int },
            forall|t: int| 0 <= t < r@.len() ==> eligible@.contains(#[trigger] r@[t]),
            forall|s: int, t: int| 0 <= s < t < r@.len() ==> r@[s] != r@[t],
            forall|t: int, j: int| #![trigger r@[t], eligible@[j]] 0 <= t < r@.len() && 0 <= j < eligible@.len()
                && (forall|s: int| 0 <= s < t ==> r@[s] != eligible@[j]) && eligible@[j] != r@[t]
                ==> candidate_before(self.validators@[r@[t] as int], self.validators@[eligible@[j] as int]),
    {
        let m = eligible.len();
        let k = if m < self.config.committee_size { m } else { self.config.committee_size };
        let mut ranks: Vec<u64> = Vec::new();
        let mut j: usize = 0;
        while j < m
            invariant
                self.wf(),
                m == eligible@.len(),
                forall|q: int| 0 <= q < eligible@.len() ==> (#[trigger] eligible@[q]) < self.validators@.len(),
                j <= m,
                ranks@.len() == j,
                forall|q: int| 0 <= q < j ==> #[trigger] ranks@[q] as nat == rank_of(self.validators@[eligible@[q] as int].score_spec(),
                    self.validators@[eligible@[q] as int].stake_spec(), self.validators@[eligible@[q] as int].reputation_spec()),
            decreases m - j,
        {
            assert(self.validators@[eligible@[j as int] as int].wf());
            ranks.push(rank_exec(&self.validators[eligible[j]]));
            j = j + 1;
        }
        let mut chosen: Vec<bool> = Vec::new();
        let mut q: usize = 0;
        while q < m
            invariant
                q <= m,
                chosen@.len() == q,
                forall|a: int| 0 <= a < q ==> !chosen@[a],
            decreases m - q,
        {
            chosen.push(false);
            q = q + 1;
        }
        let ghost vs = self.validators@;
        let mut r: Vec<usize> = Vec::new();
        let mut picked: Vec<usize> = Vec::new();
        while r.len() < k
            invariant
                self.wf(),
                vs == self.validators@,
                m == eligible@.len(),
                k <= m,
                k <= self.config.committee_size,
                k == if eligible@.len() < self.config.committee_size { eligible@.len() as int } else { self.config.committee_size as int },
                forall|q: int| 0 <= q < eligible@.len() ==> (#[trigger] eligible@[q]) < vs.len(),
                forall|a: int, b: int| 0 <= a < b < eligible@.len() ==> eligible@[a] < eligible@[b],
                ranks@.len() == m,
                forall|q: int| 0 <= q < m ==> #[trigger] ranks@[q] as nat == rank_of(vs[eligible@[q] as int].score_spec(),
                    vs[eligible@[q] as int].stake_spec(), vs[eligible@[q] as int].reputation_spec()),
                chosen@.len() == m,
                picked@.len() == r@.len(),
                r@.len() <= k,
                forall|t: int| 0 <= t < picked@.len() ==> (#[trigger] picked@[t]) < m && r@[t] == eligible@[picked@[t] as int],
                forall|a: int| 0 <= a < m ==> (chosen@[a] <==> exists|t: int| 0 <= t < picked@.len() && picked@[t] == a),
                forall|s: int, t: int| 0 <= s < t < picked@.len() ==> picked@[s] != picked@[t],
                forall|t: int, a: int| #![trigger picked@[t], eligible@[a]] 0 <= t < picked@.len() && 0 <= a < m
                    && (forall|s: int| 0 <= s < t ==> picked@[s] != a) && a != picked@[t]
                    ==> candidate_before(vs[r@[t] as int], vs[eligible@[a] as int]),
            decreases k - r@.len(),
        {
            let mut best: usize = m;
            let mut a: usize = 0;
            while a < m
                invariant
                    self.wf(),
                    vs == self.validators@,
                    m == eligible@.len(),
                    forall|q: int| 0 <= q < eligible@.len() ==> (#[trigger] eligible@[q]) < vs.len(),
                    ranks@.len() == m,
                    forall|q: int| 0 <= q < m ==> #[trigger] ranks@[q] as nat == rank_of(vs[eligible@[q] as int].score_spec(),
                        vs[eligible@[q] as int].stake_spec(), vs[eligible@[q] as int].reputation_spec()),
                    chosen@.len() == m,
                    forall|x: int, y: int| 0 <= x < y < eligible@.len() ==> eligible@[x] < eligible@[y],
                    a <= m,
                    best == m ==> forall|c: int| 0 <= c < a ==> chosen@[c],
                    best < m ==> best < a && !chosen@[best as int]
                        && forall|c: int| 0 <= c < a && !chosen@[c] && c != best
                            ==> candidate_before(vs[eligible@[best as int] as int], #[trigger] vs[eligible@[c] as int]),
                    best <= m,
                decreases m - a,
            {
                if !chosen[a] {
                    if best == m {
                        best = a;
                    } else {
                        let before = ranks[a] > ranks[best] || (ranks[a] == ranks[best]
                            && text_less_exec(self.validators[eligible[a]].id(), self.validators[eligible[best]].id()));
                        proof {
                            let va = vs[eligible@[a as int] as int];
                            let vb = vs[eligible@[best as int] as int];
                            assert(before == candidate_before(va, vb));
                            assert(eligible@[a as int] != eligible@[best as int]);
                            assert(va.id_spec() != vb.id_spec());
                            lemma_before_total(va, vb);
                            if text_less(va.id_spec(), vb.id_spec()) {
                                lemma_text_less_asymmetric(va.id_spec(), vb.id_spec());
                            }
                        }
                        if before {
                            proof {
                                let va = vs[eligible@[a as int] as int];
                                let vb = vs[eligible@[best as int] as int];
                                assert forall|c: int| 0 <= c < a + 1 && !chosen@[c] && c != a
                                    implies candidate_before(va, #[trigger] vs[eligible@[c] as int]) by {
                                    if c != best as int {
                                        lemma_before_transitive(va, vb, vs[eligible@[c] as int]);
                                    }
                                }
                            }
                            best = a;
                        }
                    }
                }
                a = a + 1;
            }
            proof {
                if best == m {
                    assert(forall|c: int| 0 <= c < m ==> chosen@[c]);
                    assert(false) by {
                        lemma_pigeon(picked@, m as nat, chosen@);
                    }
                }
            }
            let ghost old_picked = picked@;
            let ghost old_r = r@;
            let ghost old_chosen = chosen@;
            chosen.set(best, true);
            picked.push(best);
            r.push(eligible[best]);
            proof {
                assert forall|t: int, c: int| #![trigger picked@[t], eligible@[c]] 0 <= t < picked@.len() && 0 <= c < m
                    && (forall|s: int| 0 <= s < t ==> picked@[s] != c) && c != picked@[t]
                    implies candidate_before(vs[r@[t] as int], vs[eligible@[c] as int]) by {
                    if t < old_picked.len() {
                        assert(picked@[t] == old_picked[t]);
                        assert forall|s: int| 0 <= s < t implies old_picked[s] != c by {
                            assert(picked@[s] == old_picked[s]);
                        }
                    } else {
                        assert forall|s: int| 0 <= s < old_picked.len() implies old_picked[s] != c by {
                            assert(picked@[s] == old_picked[s]);
                        }
                        assert(!old_chosen[c]);
                    }
                }
                assert forall|c: int| 0 <= c < m implies (chosen@[c] <==> exists|t: int| 0 <= t < picked@.len() && picked@[t] == c) by {
                    if c == best as int {
                        assert(picked@[old_picked.len() as int] == c);
                    } else {
                        if exists|t: int| 0 <= t < picked@.len() && picked@[t] == c {
                            let t = choose|t: int| 0 <= t < picked@.len() && picked@[t] == c;
                            assert(t < old_picked.len());
                            assert(old_picked[t] == c);
                        }
                        if old_chosen[c] {
                            let t = choose|t: int| 0 <= t < old_picked.len() && old_picked[t] == c;
                            assert(picked@[t] == c);
                        }
                    }
                }
                assert forall|s: int, t: int| 0 <= s < t < picked@.len() implies picked@[s] != picked@[t] by {
                    if t == old_picked.len() {
                        assert(picked@[s] == old_picked[s]);
                        assert(old_chosen[old_picked[s] as int]);
                    }
                }
            }
        }
        proof {
            assert forall|t: int| 0 <= t < r@.len() implies eligible@.contains(#[trigger] r@[t]) by {
                assert(eligible@[picked@[t] as int] == r@[t]);
            }
            assert forall|s: int, t: int| 0 <= s < t < r@.len() implies r@[s] != r@[t] by {
                assert(picked@[s] != picked@[t]);
                if picked@[s] < picked@[t] {
                    assert(eligible@[picked@[s] as int] < eligible@[picked@[t] as int]);
                } else {
                    assert(eligible@[picked@[t] as int] < eligible@[picked@[s] as int]);
                }
            }
            assert forall|t: int, j: int| #![trigger r@[t], eligible@[j]] 0 <= t < r@.len() && 0 <= j < eligible@.len()
                && (forall|s: int| 0 <= s < t ==> r@[s] != eligible@[j]) && eligible@[j] != r@[t]
                implies candidate_before(self.validators@[r@[t] as int], self.validators@[eligible@[j] as int]) by {
                assert forall|s: int| 0 <= s < t implies picked@[s] != j by {
                    assert(r@[s] == eligible@[picked@[s] as int]);
                }
                assert(j != picked@[t] as int);
            }
        }
        r
    }
}

impl ProofOfEmotionEngine {
    fn previous_hash(&self) -> (r: String)
        ensures
            r@ == expected_previous(self.chain()),
    {
        let n = self.finalized_blocks.len();
        if n == 0 {
            let z = zero_padded_text(0, 64);
            proof {
                assert(decimal(0) == seq!['0']);
                assert(zero_padded(decimal(0), 64) =~= genesis_hash());
            }
            z
        } else {
            let h = self.finalized_blocks[n - 1].hash.clone();
            assert(self.chain().last() == self.finalized_blocks@[n - 1]@);
            h
        }
    }

    /// The primary builds the next block from up to 1000 pending
    /// transactions in submission order, signs it and submits it to the
    /// Byzantine detector. Double signing penalizes the primary and is an
    /// `InvalidBlock`.
    fn propose_block(&mut self, committee: &Vec<usize>, now: u64) -> (r: Result<Block, ConsensusError>)
        requires
            old(self).wf(),
            committee@.len() > 0,
            forall|k: int| 0 <= k < committee@.len() ==> (#[trigger] committee@[k]) < old(self).validators@.len(),
            old(self).chain().len() < u64::MAX,
        ensures
            final(self).wf(),
            final(self).validator_ids() == old(self).validator_ids(),
            final(self).chain() == old(self).chain(),
            final(self).pending() == old(self).pending(),
            final(self).state == old(self).state,
            final(self).config == old(self).config,
            final(self).is_running == old(self).is_running,
            final(self).validators@.len() == old(self).validators@.len(),
            final(self).detector_votes() == old(self).detector_votes(),
            r is Err ==> !(r matches Err(ConsensusError::CommitteeSelectionFailed { .. })),
            r is Err ==> exists|k: int| 0 <= k < old(self).detector_proposals().len()
                && old(self).detector_proposals()[k].height == (old(self).chain().len() + 1) as u64,
            r matches Ok(b) ==> extends(old(self).chain(), b@, old(self).state.current_epoch)
                && b@.header.validator_id == old(self).validator_ids()[committee@[0] as int]
                && text_signature_outcome(crate::types::block_signing_message(b@), b@.signature, b@.proposer_public_key) == Some(true)
                && b@.transactions == old(self).pending().subrange(0,
                    if old(self).pending().len() < MAX_BLOCK_TRANSACTIONS { old(self).pending().len() as int } else { MAX_BLOCK_TRANSACTIONS as int }),
    {
        let primary = committee[0];
        let take = if self.pending_transactions.len() < MAX_BLOCK_TRANSACTIONS { self.pending_transactions.len() } else { MAX_BLOCK_TRANSACTIONS };
        let mut txs: Vec<Transaction> = Vec::new();
        let mut i: usize = 0;
        while i < take
            invariant
                take <= self.pending_transactions@.len(),
                i <= take,
                txs@.len() == i,
                forall|k: int| 0 <= k < i ==> (#[trigger] txs@[k])@ == self.pending_transactions@[k]@,
            decreases take - i,
        {
            txs.push(self.pending_transactions[i].clone());
            i = i + 1;
        }
        proof {
            assert(tx_models(txs@) =~= self.pending().subrange(0, take as int));
        }
        let height = self.finalized_blocks.len() as u64 + 1;
        let previous_hash = self.previous_hash();
        proof {
            self.lemma_member_wf(primary as int);
        }
        let v = &self.validators[primary];
        let mut block = Block::new_at(height, self.state.current_epoch, previous_hash, v.id().to_owned(),
            v.get_emotional_score(), txs, now);
        match block.sign(v.key_pair()) {
            Ok(()) => {},
            Err(_) => {
                return Err(ConsensusError::internal("Failed to sign block"));
            },
        }
        let recorded = self.byzantine_detector.record_proposal(v.id(), block.header.height, block.hash.as_str());
        match recorded {
            Ok(()) => {},
            Err(e) => {
                proof {
                    let k = choose|k: int| 0 <= k < old(self).detector_proposals().len()
                        && crate::byzantine::proposals_conflict(old(self).detector_proposals()[k], v.id_spec(), block.header.height, block.hash@);
                }
                self.penalize(primary);
                return Err(ConsensusError::invalid_block(e.as_str()));
            },
        }
        proof {
            if self.finalized_blocks@.len() > 0 {
                assert(self.chain().last().header.epoch <= self.state.current_epoch);
            }
        }
        Ok(block)
    }

    /// One committee member validates the block and votes. A vote the
    /// Byzantine detector refuses penalizes the member and gives `None`.
    fn cast_vote(&mut self, member: usize, block: &Block, previous_hash: &String, height: u64, epoch: u64, now: u64)
        -> (r: Option<Vote>)
        requires
            old(self).wf(),
            member < old(self).validators@.len(),
        ensures
            final(self).wf(),
            final(self).validator_ids() == old(self).validator_ids(),
            final(self).chain() == old(self).chain(),
            final(self).pending() == old(self).pending(),
            final(self).state == old(self).state,
            final(self).config == old(self).config,
            final(self).is_running == old(self).is_running,
            final(self).validators@.len() == old(self).validators@.len(),
            r matches Some(v) ==> v.emotional_score <= 100
                && v.approved == block_valid(block@, previous_hash@, height, epoch, now)
                && v@.validator_id == old(self).validator_ids()[member as int],
            r matches Some(v) ==> final(self).detector_votes() == old(self).detector_votes().push(v@),
            r is None ==> final(self).detector_votes() == old(self).detector_votes(),
            r is None <==> crate::byzantine::first_conflict(old(self).detector_votes(), VoteModel {
                validator_id: old(self).validator_ids()[member as int],
                block_hash: block.hash@,
                epoch: block.header.epoch,
                round: 0,
                emotional_score: old(self).validators@[member as int].score_spec(),
                approved: block_valid(block@, previous_hash@, height, epoch, now),
            }) is Some,
    {
        proof {
            self.lemma_member_wf(member as int);
        }
        let v = &self.validators[member];
        proof {
            v.lemma_bounds();
        }
        let checked = v.validate_block_at(block, previous_hash.as_str(), height, epoch, now);
        let score = v.get_emotional_score();
        let approved = checked.is_ok();
        let mut vote = Vote::new_at(v.id().to_owned(), block.hash.clone(), block.header.epoch, 0, score, approved, now);
        match checked {
            Ok(()) => {},
            Err(e) => {
                vote.reason = Some(e);
            },
        }
        let ghost before = *self;
        let recorded = self.byzantine_detector.record_vote(&vote);
        proof {
            self.lemma_wf_frame(before);
        }
        match recorded {
            Ok(()) => Some(vote),
            Err(_) => {
                self.penalize(member);
                None
            },
        }
    }

    /// Collects the committee's votes on `block`: the counted votes, their
    /// approvals, the sum of their scores and the number of refused votes.
    #[verifier::spinoff_prover]
    #[verifier::rlimit(100)]
    fn collect_votes(&mut self, committee: &Vec<usize>, block: &Block, now: u64) -> (r: (Vec<Vote>, usize, u128, usize))
        requires
            old(self).wf(),
            forall|k: int| 0 <= k < committee@.len() ==> (#[trigger] committee@[k]) < old(self).validators@.len(),
        ensures
            final(self).wf(),
            final(self).validator_ids() == old(self).validator_ids(),
            final(self).chain() == old(self).chain(),
            final(self).pending() == old(self).pending(),
            final(self).state == old(self).state,
            final(self).config == old(self).config,
            final(self).is_running == old(self).is_running,
            final(self).validators@.len() == old(self).validators@.len(),
            r.1 == approved_count(r.0@),
            r.0@.len() + r.3 == committee@.len(),
            final(self).detector_votes() == old(self).detector_votes() + crate::byzantine::vote_models(r.0@),
            forall|k: int| 0 <= k < r.0@.len() ==> (#[trigger] r.0@[k]).approved == block_valid(block@,
                expected_previous(old(self).chain()), (old(self).chain().len() + 1) as u64, old(self).state.current_epoch, now),
            forall|k: int| 0 <= k < r.0@.len() ==> exists|j: int| 0 <= j < committee@.len()
                && (#[trigger] r.0@[k])@.validator_id == old(self).validator_ids()[committee@[j] as int],
    {
        let previous_hash = self.previous_hash();
        let height = (self.finalized_blocks.len() as u128 + 1) as u64;
        let epoch = self.state.current_epoch;
        let mut votes: Vec<Vote> = Vec::new();
        let mut approvals: usize = 0;
        let mut total_score: u128 = 0;
        let mut byzantine: usize = 0;
        let mut i: usize = 0;
        while i < committee.len()
            invariant
                self.wf(),
                self.validator_ids() == old(self).validator_ids(),
                self.chain() == old(self).chain(),
                self.pending() == old(self).pending(),
                self.state == old(self).state,
                self.config == old(self).config,
                self.is_running == old(self).is_running,
                self.validators@.len() == old(self).validators@.len(),
                forall|k: int| 0 <= k < committee@.len() ==> (#[trigger] committee@[k]) < self.validators@.len(),
                i <= committee@.len(),
                approvals == approved_count(votes@),
                approvals <= i,
                byzantine <= i,
                total_score <= 100 * i,
                votes@.len() + byzantine == i,
                self.detector_votes() == old(self).detector_votes() + crate::byzantine::vote_models(votes@),
                previous_hash@ == expected_previous(old(self).chain()),
                height == (old(self).chain().len() + 1) as u64,
                epoch == old(self).state.current_epoch,
                forall|k: int| 0 <= k < votes@.len() ==> (#[trigger] votes@[k]).approved == block_valid(block@,
                    expected_previous(old(self).chain()), (old(self).chain().len() + 1) as u64, old(self).state.current_epoch, now),
                forall|k: int| 0 <= k < votes@.len() ==> exists|j: int| 0 <= j < i
                    && (#[trigger] votes@[k])@.validator_id == old(self).validator_ids()[committee@[j] as int],
            decreases committee@.len() - i,
        {
            let member = committee[i];
            let cast = self.cast_vote(member, block, &previous_hash, height, epoch, now);
            match cast {
                Some(vote) => {
                    proof {
                        assert(votes@.push(vote).drop_last() =~= votes@);
                    }
                    if vote.approved {
                        approvals = approvals + 1;
                    }
                    total_score = total_score + vote.emotional_score as u128;
                    let ghost before = votes@;
                    let ghost vm = vote@;
                    votes.push(vote);
                    proof {
                        assert(crate::byzantine::vote_models(votes@) =~= crate::byzantine::vote_models(before).push(vm));
                        assert forall|k: int| 0 <= k < votes@.len() implies exists|j: int| 0 <= j < i + 1
                            && (#[trigger] votes@[k])@.validator_id == old(self).validator_ids()[committee@[j] as int] by {
                            if k < before.len() {
                                assert(votes@[k] == before[k]);
                            } else {
                                assert(votes@[k]@.validator_id == old(self).validator_ids()[committee@[i as int] as int]);
                            }
                        }
                    }
                },
                None => {
                    byzantine = byzantine + 1;
                },
            }
            i = i + 1;
        }
        (votes, approvals, total_score, byzantine)
    }

    /// Each committee member validates the block and votes; a vote the
    /// Byzantine detector refuses penalizes its voter and is not counted.
    /// The round succeeds when the approvals reach the quorum of the
    /// configured committee size.
    fn execute_voting(&mut self, committee: &Vec<usize>, block: &Block, now: u64) -> (r: VotingResult)
        requires
            old(self).wf(),
            committee@.len() > 0,
            forall|k: int| 0 <= k < committee@.len() ==> (#[trigger] committee@[k]) < old(self).validators@.len(),
        ensures
            final(self).wf(),
            final(self).validator_ids() == old(self).validator_ids(),
            final(self).chain() == old(self).chain(),
            final(self).pending() == old(self).pending(),
            final(self).state == old(self).state,
            final(self).config == old(self).config,
            final(self).is_running == old(self).is_running,
            final(self).validators@.len() == old(self).validators@.len(),
            r.success == quorum(approved_count(r.votes@), old(self).config.committee_size as nat,
                old(self).config.byzantine_threshold as nat),
            r.participant_count == r.votes@.len(),
            r.votes@.len() + r.byzantine_count == committee@.len(),
            forall|k: int| 0 <= k < r.votes@.len() ==> (#[trigger] r.votes@[k]).approved == block_valid(block@,
                expected_previous(old(self).chain()), (old(self).chain().len() + 1) as u64, old(self).state.current_epoch, now),
            forall|k: int| 0 <= k < r.votes@.len() ==> exists|j: int| 0 <= j < committee@.len()
                && (#[trigger] r.votes@[k])@.validator_id == old(self).validator_ids()[committee@[j] as int],
            r.consensus_strength as nat == percentage(approved_count(r.votes@), committee@.len() as nat),
            final(self).detector_votes() == old(self).detector_votes() + crate::byzantine::vote_models(r.votes@),
            r.reason is None <==> r.success,
    {
        let (votes, approvals, total_score, byzantine) = self.collect_votes(committee, block, now);
        let success = quorum_reached(approvals, self.config.committee_size, self.config.byzantine_threshold);
        let strength = crate::utils::calculate_percentage(approvals, committee.len());
        let participants = votes.len();
        let average = average_score(total_score, participants);
        let mut ids: Vec<String> = Vec::new();
        let mut j: usize = 0;
        while j < committee.len()
            invariant
                j <= committee@.len(),
                forall|k: int| 0 <= k < committee@.len() ==> (#[trigger] committee@[k]) < self.validators@.len(),
            decreases committee@.len() - j,
        {
            ids.push(self.validators[committee[j]].id().to_owned());
            j = j + 1;
        }
        VotingResult {
            success,
            consensus_strength: strength,
            participant_count: participants,
            byzantine_count: byzantine,
            average_emotional_score: average,
            participants: ids,
            votes,
            reason: if success { None } else { Some(String::from_str("Insufficient votes")) },
        }
    }

    /// Appends a block to the chain with its consensus metadata, updates
    /// the state, drops pending transactions the block holds or that have
    /// expired, records the block with the fork detector and updates the
    /// checkpoint manager's total stake at checkpoint heights.
    fn finalize_block(&mut self, block: Block, result: &VotingResult, now: u64)
        requires
            old(self).wf(),
            extends(old(self).chain(), block@, old(self).state.current_epoch),
        ensures
            final(self).wf(),
            final(self).validator_ids() == old(self).validator_ids(),
            final(self).chain() == old(self).chain().push(block@),
            final(self).pending() == old(self).pending().filter(stays_after(block@, now)),
            final(self).last_metadata() == Some((result.participant_count, result.consensus_strength,
                result.average_emotional_score, result.byzantine_count)),
            final(self).state.current_epoch == old(self).state.current_epoch,
            final(self).config == old(self).config,
            final(self).is_running == old(self).is_running,
    {
        let mut block = block;
        let ghost bm = block@;
        block.consensus_metadata = Some(ConsensusMetadata {
            participant_count: result.participant_count,
            consensus_strength: result.consensus_strength,
            emotional_fitness: result.average_emotional_score,
            byzantine_failures: result.byzantine_count,
            finalized_at: now,
            participants: clone_strings(&result.participants),
        });
        assert(block@ == bm);
        let _ = self.fork_detector.record_block(&block);
        let height = block.header.height;
        let tx_count = block.transactions.len();
        let ghost keep = stays_after(bm, now);
        let ghost all = self.pending();
        let mut kept: Vec<Transaction> = Vec::new();
        proof {
            reveal(Seq::filter);
            assert(tx_models(kept@) =~= all.subrange(0, 0).filter(keep));
        }
        let mut i: usize = 0;
        while i < self.pending_transactions.len()
            invariant
                all == tx_models(self.pending_transactions@),
                keep == stays_after(bm, now),
                bm == block@,
                i <= all.len(),
                tx_models(kept@) == all.subrange(0, i as int).filter(keep),
            decreases all.len() - i,
        {
            let ghost before = tx_models(kept@);
            proof {
                assert(all.subrange(0, i as int + 1) =~= all.subrange(0, i as int).push(all[i as int]));
                all.subrange(0, i as int).lemma_filter_push(all[i as int], keep);
                assert(all[i as int] == self.pending_transactions@[i as int]@);
            }
            let t = &self.pending_transactions[i];
            let mut included = false;
            let mut k: usize = 0;
            while k < block.transactions.len()
                invariant
                    bm == block@,
                    k <= block.transactions@.len(),
                    included == exists|q: int| 0 <= q < k && bm.transactions[q].hash == t.hash@,
                decreases block.transactions@.len() - k,
            {
                assert(bm.transactions[k as int] == block.transactions@[k as int]@);
                if text_eq(block.transactions[k].hash.as_str(), t.hash.as_str()) {
                    included = true;
                }
                k = k + 1;
            }
            assert(included == block_tx_hashes(bm).contains(t.hash@));
            if !included && !t.is_expired(now, MAX_TX_AGE_MS) {
                kept.push(t.clone());
                assert(tx_models(kept@) =~= before.push(all[i as int]));
            }
            i = i + 1;
        }
        proof {
            assert(all.subrange(0, all.len() as int) =~= all);
        }
        self.pending_transactions = kept;
        let ghost old_chain = self.chain();
        self.finalized_blocks.push(block);
        proof {
            assert(self.chain() =~= old_chain.push(bm));
            lemma_extend_chain(old_chain, bm, self.state.current_epoch);
        }
        self.state.last_finalized_height = height;
        self.state.consensus_strength = result.consensus_strength;
        self.state.emotional_fitness = result.average_emotional_score;
        let n = self.validators.len();
        self.state.participation_rate = if n == 0 { 0 } else {
            let p = (result.participant_count as u128) * 100 / (n as u128);
            if p > 100 { 100 } else { p as u8 }
        };
        self.state.pending_transactions = self.pending_transactions.len();
        self.metrics.blocks_finalized = self.metrics.blocks_finalized.saturating_add(1);
        self.metrics.transactions_processed = self.metrics.transactions_processed.saturating_add(tx_count as u64);
        self.metrics.active_validators = n;
        if self.checkpoint_manager.should_create_checkpoint(height) {
            let mut total: u64 = 0;
            let mut j: usize = 0;
            while j < self.validators.len()
                invariant
                    j <= self.validators@.len(),
                decreases self.validators@.len() - j,
            {
                total = total.saturating_add(self.validators[j].get_stake());
                j = j + 1;
            }
            self.checkpoint_manager.update_total_stake(total);
        }
    }

    /// Runs one epoch at time `now`, with each registered validator's
    /// readings in registry order: the epoch advances; the eligible
    /// validators are found; the committee is selected; the primary proposes
    /// a block; the committee votes; and a block that reaches the quorum is
    /// finalized. No eligible validator is a `CommitteeSelectionFailed`; a
    /// block short of the quorum an `InvalidBlock`. On any error the chain and
    /// the pending transactions are unchanged. Success and failure are
    /// counted in the metrics.
    #[verifier::spinoff_prover]
    #[verifier::rlimit(100)]
    pub fn execute_epoch(&mut self, readings: &Vec<Vec<BiometricReading>>, now: u64) -> (r: Result<(), ConsensusError>)
        requires
            old(self).wf(),
            old(self).epoch() < u64::MAX,
            old(self).chain().len() < u64::MAX,
            forall|i: int| 0 <= i < readings@.len() ==> qualities_valid(#[trigger] readings@[i]@),
        ensures
            final(self).wf(),
            final(self).epoch() == old(self).epoch() + 1,
            final(self).validator_ids() == old(self).validator_ids(),
            final(self).running() == old(self).running(),
            r is Err ==> final(self).chain() == old(self).chain() && final(self).pending() == old(self).pending(),
            (exists|i: int| final(self).assessed_eligible(readings@, i))
                && (forall|k: int| 0 <= k < old(self).detector_proposals().len()
                    ==> old(self).detector_proposals()[k].height != (old(self).chain().len() + 1) as u64)
                && quorum(model_approvals(final(self).detector_votes().subrange(old(self).detector_votes().len() as int,
                    final(self).detector_votes().len() as int)), old(self).config_spec().committee_size as nat,
                    old(self).config_spec().byzantine_threshold as nat)
                ==> r is Ok,
            (r matches Err(ConsensusError::CommitteeSelectionFailed { .. })) ==> forall|i: int| !final(self).assessed_eligible(readings@, i),
            r is Ok ==> exists|b: BlockModel| extends(old(self).chain(), b, final(self).epoch())
                && final(self).chain() == old(self).chain().push(b)
                && final(self).pending() == old(self).pending().filter(stays_after(b, now)),
    {
        let r = self.run_phases(readings, now);
        let ghost before = *self;
        let ghost mid = *self;
        match r {
            Ok(()) => {
                self.metrics.successful_epochs = self.metrics.successful_epochs.saturating_add(1);
                self.metrics.total_epochs = self.metrics.total_epochs.saturating_add(1);
            },
            Err(_) => {
                self.metrics.failed_epochs = self.metrics.failed_epochs.saturating_add(1);
            },
        }
        proof {
            self.lemma_wf_frame(before);
            assert(self.detector_votes() == mid.detector_votes());
            assert(self.validators@ == mid.validators@);
            assert(self.config == mid.config);
            assert forall|i: int| self.assessed_eligible(readings@, i) == mid.assessed_eligible(readings@, i) by {}
            if exists|i: int| self.assessed_eligible(readings@, i) {
                let i = choose|i: int| self.assessed_eligible(readings@, i);
                assert(mid.assessed_eligible(readings@, i));
            }
            if r matches Err(ConsensusError::CommitteeSelectionFailed { .. }) {
                assert forall|i: int| !self.assessed_eligible(readings@, i) by {
                    assert(!mid.assessed_eligible(readings@, i));
                }
            }
        }
        r
    }

    #[verifier::spinoff_prover]
    #[verifier::rlimit(100)]
    fn run_phases(&mut self, readings: &Vec<Vec<BiometricReading>>, now: u64) -> (r: Result<(), ConsensusError>)
        requires
            old(self).wf(),
            old(self).epoch() < u64::MAX,
            old(self).chain().len() < u64::MAX,
            forall|i: int| 0 <= i < readings@.len() ==> qualities_valid(#[trigger] readings@[i]@),
        ensures
            final(self).wf(),
            final(self).epoch() == old(self).epoch() + 1,
            final(self).validator_ids() == old(self).validator_ids(),
            final(self).running() == old(self).running(),
            r is Err ==> final(self).chain() == old(self).chain() && final(self).pending() == old(self).pending(),
            (exists|i: int| final(self).assessed_eligible(readings@, i))
                && (forall|k: int| 0 <= k < old(self).detector_proposals().len()
                    ==> old(self).detector_proposals()[k].height != (old(self).chain().len() + 1) as u64)
                && quorum(model_approvals(final(self).detector_votes().subrange(old(self).detector_votes().len() as int,
                    final(self).detector_votes().len() as int)), old(self).config_spec().committee_size as nat,
                    old(self).config_spec().byzantine_threshold as nat)
                ==> r is Ok,
            (r matches Err(ConsensusError::CommitteeSelectionFailed { .. })) ==> forall|i: int| !final(self).assessed_eligible(readings@, i),
            r is Ok ==> exists|b: BlockModel| extends(old(self).chain(), b, final(self).epoch())
                && final(self).chain() == old(self).chain().push(b)
                && final(self).pending() == old(self).pending().filter(stays_after(b, now)),
    {
        let ghost start = *self;
        self.advance_epoch();
        let eligible = self.assess(readings);
        assert(self.detector_proposals() == start.detector_proposals());
        assert(self.detector_votes() == start.detector_votes());
        proof {
            assert forall|i: int| self.assessed_eligible(readings@, i) implies eligible@.len() > 0 by {
                if eligible@.len() == 0 {
                    assert(!eligible@.contains(i as usize));
                }
            }
        }
        if eligible.len() == 0 {
            let ghost before = *self;
            self.metrics.emotional_failures = self.metrics.emotional_failures.saturating_add(1);
            proof {
                self.lemma_wf_frame(before);
                assert forall|i: int| !self.assessed_eligible(readings@, i) by {
                    assert(self.assessed_eligible(readings@, i) == before.assessed_eligible(readings@, i));
                }
            }
            return Err(ConsensusError::committee_selection_failed("No validators meet emotional fitness threshold"));
        }
        let committee = self.select_committee(&eligible);
        proof {
            assert forall|k: int| 0 <= k < committee@.len() implies (#[trigger] committee@[k]) < self.validators@.len() by {
                assert(eligible@.contains(committee@[k]));
            }
        }
        let block = match self.propose_block(&committee, now) {
            Ok(b) => b,
            Err(e) => {
                return Err(e);
            },
        };
        let ghost votes_before = self.detector_votes();
        assert(votes_before == start.detector_votes());
        let result = self.execute_voting(&committee, &block, now);
        proof {
            assert(self.detector_votes().subrange(votes_before.len() as int, self.detector_votes().len() as int)
                =~= crate::byzantine::vote_models(result.votes@));
            lemma_approvals_of_models(result.votes@);
        }
        if !result.success {
            let ghost before = *self;
            self.metrics.rejected_blocks = self.metrics.rejected_blocks.saturating_add(1);
            proof {
                self.lemma_wf_frame(before);
                assert(self.detector_votes() == before.detector_votes());
            }
            return Err(ConsensusError::invalid_block("Insufficient votes"));
        }
        self.finalize_block(block, &result, now);
        Ok(())
    }
}

impl ProofOfEmotionEngine {
    /// The observed state.
    pub fn get_state(&self) -> (r: ConsensusState)
        requires
            self.wf(),
        ensures
            r.current_epoch == self.epoch(),
            r.last_finalized_height == self.chain().len(),
            r.pending_transactions == self.pending().len(),
            r.total_validators == self.validator_ids().len(),
            r == self.state_spec(),
    {
        self.state
    }

    /// The metrics.
    pub fn get_metrics(&self) -> (r: ConsensusMetrics)
        ensures
            r == self.metrics_spec(),
    {
        self.metrics
    }

    /// The ids of the registered validators, in registry order: the order
    /// in which `execute_epoch` takes their readings.
    pub fn get_validator_ids(&self) -> (r: Vec<String>)
        ensures
            Seq::new(r@.len(), |i: int| r@[i]@) == self.validator_ids(),
    {
        let mut r: Vec<String> = Vec::new();
        let mut i: usize = 0;
        while i < self.validators.len()
            invariant
                i <= self.validators@.len(),
                r@.len() == i,
                forall|k: int| 0 <= k < i ==> (#[trigger] r@[k])@ == self.validators@[k].id_spec(),
            decreases self.validators@.len() - i,
        {
            r.push(self.validators[i].id().to_owned());
            i = i + 1;
        }
        assert(Seq::new(r@.len(), |i: int| r@[i]@) =~= self.validator_ids());
        r
    }

    /// The number of registered validators.
    pub fn get_validator_count(&self) -> (r: usize)
        ensures
            r == self.validator_ids().len(),
    {
        self.validators.len()
    }

    /// Copies of the finalized blocks, oldest first.
    pub fn get_finalized_blocks(&self) -> (r: Vec<Block>)
        ensures
            block_models(r@) == self.chain(),
    {
        let mut r: Vec<Block> = Vec::new();
        let mut i: usize = 0;
        while i < self.finalized_blocks.len()
            invariant
                i <= self.finalized_blocks@.len(),
                r@.len() == i,
                forall|k: int| 0 <= k < i ==> (#[trigger] r@[k])@ == self.finalized_blocks@[k]@,
            decreases self.finalized_blocks@.len() - i,
        {
            r.push(self.finalized_blocks[i].clone());
            i = i + 1;
        }
        assert(block_models(r@) =~= self.chain());
        r
    }

    /// The slashing events the Byzantine detector recorded.
    pub fn get_byzantine_events(&self) -> (r: Vec<SlashingEvent>) {
        self.byzantine_detector.get_slashing_events()
    }

    /// Drops Byzantine detection data older than 100 epochs.
    pub fn cleanup_byzantine_data(&mut self)
        requires
            old(self).wf(),
        ensures
            final(self).wf(),
            final(self).chain() == old(self).chain(),
            final(self).pending() == old(self).pending(),
            final(self).validator_ids() == old(self).validator_ids(),
            final(self).epoch() == old(self).epoch(),
    {
        let ghost before = *self;
        self.byzantine_detector.cleanup_old_data(self.state.current_epoch, 100);
        proof {
            self.lemma_wf_frame(before);
        }
    }

    /// The fork detector.
    pub fn get_fork_detector(&self) -> (r: &ForkDetector) {
        &self.fork_detector
    }

    /// The checkpoint manager.
    pub fn get_checkpoint_manager(&self) -> (r: &CheckpointManager) {
        &self.checkpoint_manager
    }

    /// At a checkpoint height, refreshes the checkpoint manager's total
    /// network stake from the registered validators. Signatures are not
    /// collected here, so no checkpoint is created: the result is always
    /// `Ok(None)`.
    pub fn try_create_checkpoint(&mut self, block: &Block) -> (r: Result<Option<crate::checkpoint::Checkpoint>, ConsensusError>)
        requires
            old(self).wf(),
        ensures
            final(self).wf(),
            r == Ok::<Option<crate::checkpoint::Checkpoint>, ConsensusError>(None),
            final(self).chain() == old(self).chain(),
            final(self).pending() == old(self).pending(),
            final(self).validator_ids() == old(self).validator_ids(),
            final(self).epoch() == old(self).epoch(),
    {
        if !self.checkpoint_manager.should_create_checkpoint(block.header.height) {
            return Ok(None);
        }
        let mut total: u64 = 0;
        let mut j: usize = 0;
        while j < self.validators.len()
            invariant
                j <= self.validators@.len(),
            decreases self.validators@.len() - j,
        {
            total = total.saturating_add(self.validators[j].get_stake());
            j = j + 1;
        }
        self.checkpoint_manager.update_total_stake(total);
        Ok(None)
    }

    /// Recovers after a crash from the latest checkpoint: it must verify and
    /// lie within the chain; the epoch moves up to the checkpoint's if it is
    /// behind, and the finalized blocks after the checkpoint are replayed
    /// into the fork detector. Without a checkpoint nothing is restored. The
    /// chain itself, continuous by the engine's invariant, is unchanged.
    pub fn recover_from_crash(&mut self) -> (r: Result<(), ConsensusError>)
        requires
            old(self).wf(),
        ensures
            final(self).wf(),
            final(self).chain() == old(self).chain(),
            final(self).pending() == old(self).pending(),
            final(self).validator_ids() == old(self).validator_ids(),
            final(self).epoch() >= old(self).epoch(),
            old(self).checkpoints().len() == 0 ==> r is Ok && final(self).epoch() == old(self).epoch(),
            old(self).checkpoints().len() > 0
                && old(self).checkpoints().last().height > old(self).chain().len()
                ==> (r matches Err(ConsensusError::Internal { .. })),
            old(self).checkpoints().len() > 0 && old(self).checkpoints().last().height <= old(self).chain().len()
                ==> (r is Ok <==> old(self).latest_checkpoint_verifies()),
            old(self).checkpoints().len() > 0 && r is Ok ==> final(self).epoch() == if old(self).checkpoints().last().epoch > old(self).epoch() {
                old(self).checkpoints().last().epoch
            } else {
                old(self).epoch()
            },
    {
        let checkpoint = match self.checkpoint_manager.get_latest_checkpoint() {
            Some(cp) => cp,
            None => {
                return Ok(());
            },
        };
        if checkpoint.height > self.finalized_blocks.len() as u64 {
            return Err(ConsensusError::internal("State inconsistency: checkpoint beyond the chain"));
        }
        match self.checkpoint_manager.verify_checkpoint(&checkpoint) {
            Ok(true) => {},
            _ => {
                return Err(ConsensusError::internal("Invalid checkpoint"));
            },
        }
        if checkpoint.epoch > self.state.current_epoch {
            self.state.current_epoch = checkpoint.epoch;
        }
        let mut i: usize = 0;
        while i < self.finalized_blocks.len()
            invariant
                self.wf(),
                self.chain() == old(self).chain(),
                self.pending() == old(self).pending(),
                self.validator_ids() == old(self).validator_ids(),
                self.state.current_epoch >= old(self).state.current_epoch,
                self.state.current_epoch == if checkpoint.epoch > old(self).state.current_epoch {
                    checkpoint.epoch
                } else {
                    old(self).state.current_epoch
                },
                i <= self.finalized_blocks@.len(),
            decreases self.finalized_blocks@.len() - i,
        {
            if self.finalized_blocks[i].header.height > checkpoint.height && self.finalized_blocks[i].verify_hash() {
                let h = self.finalized_blocks[i].header.height;
                let ghost before = *self;
                let recorded = self.fork_detector.record_block(&self.finalized_blocks[i]);
                if recorded.is_err() {
                    let _ = self.fork_detector.resolve_fork(h);
                }
                proof {
                    assert(self.validators@ == before.validators@);
                    assert(self.chain() =~= before.chain());
                    assert(self.pending() =~= before.pending());
                    assert(self.validator_ids() =~= before.validator_ids());
                }
            }
            i = i + 1;
        }
        Ok(())
    }
}

/// The average of scores summing to `total` over `count` voters, 0 without
/// voters.
fn average_score(total: u128, count: usize) -> (r: u8)
    ensures
        count == 0 ==> r == 0,
        count > 0 && total as nat / count as nat <= 255 ==> r as nat == total as nat / count as nat,
{
    if count == 0 {
        0
    } else {
        let a = total / (count as u128);
        if a > 255 { 255 } else { a as u8 }
    }
}

/// There are never more picks than positions when all picks are distinct
/// positions: if every position is chosen, more picks than positions
/// would be needed.
proof fn lemma_pigeon(picked: Seq<usize>, m: nat, chosen: Seq<bool>)
    requires
        chosen.len() == m,
        picked.len() < m,
        forall|a: int| 0 <= a < m ==> (chosen[a] <==> exists|t: int| 0 <= t < picked.len() && picked[t] == a),
        forall|s: int, t: int| 0 <= s < t < picked.len() ==> picked[s] != picked[t],
        forall|t: int| 0 <= t < picked.len() ==> picked[t] < m,
    ensures
        exists|a: int| 0 <= a < m && !chosen[a],
{
    let ps = picked.to_set();
    let all = Set::new(|a: int| 0 <= a < m);
    assert(picked.no_duplicates());
    picked.unique_seq_to_set();
    if forall|a: int| 0 <= a < m ==> chosen[a] {
        let f = |u: usize| u as int;
        vstd::set_lib::lemma_int_range(0, m as int);
        assert forall|a: int| #[trigger] all.contains(a) implies ps.map(f).contains(a) by {
            assert(chosen[a]);
            let t = choose|t: int| 0 <= t < picked.len() && picked[t] == a;
            assert(ps.contains(picked[t]));
            assert(f(picked[t]) == a);
        }
        assert forall|a: int| #[trigger] ps.map(f).contains(a) implies all.contains(a) by {
            let u = choose|u: usize| ps.contains(u) && f(u) == a;
            let t = choose|t: int| 0 <= t < picked.len() && picked[t] == u;
        }
        assert(ps.map(f) =~= all);
        assert(all =~= vstd::set_lib::set_int_range(0, m as int));
        assert(vstd::relations::injective_on(f, ps)) by {
            assert forall|x1: usize, x2: usize| ps.contains(x1) && ps.contains(x2) && #[trigger] f(x1) == #[trigger] f(x2) implies x1 == x2 by {}
        }
        vstd::set_lib::lemma_map_size(ps, all, f);
    }
}

/// Copies of readings with the same kinds, values, qualities and times.
fn copy_readings(v: &Vec<BiometricReading>) -> (r: Vec<BiometricReading>)
    ensures
        r@.len() == v@.len(),
        forall|i: int| 0 <= i < v@.len() ==> (#[trigger] r@[i]).quality_permille == v@[i].quality_permille,
        qualities_valid(v@) ==> qualities_valid(r@),
{
    let mut r: Vec<BiometricReading> = Vec::new();
    let mut i: usize = 0;
    while i < v.len()
        invariant
            i <= v@.len(),
            r@.len() == i,
            forall|k: int| 0 <= k < i ==> (#[trigger] r@[k]).quality_permille == v@[k].quality_permille,
        decreases v@.len() - i,
    {
        r.push(v[i].clone());
        i = i + 1;
    }
    r
}

/// Whether a transaction has not expired at `now`.
pub open spec fn not_expired_at(now: u64) -> spec_fn(TransactionModel) -> bool {
    |t: TransactionModel| !expired(t.timestamp, now, MAX_TX_AGE_MS)
}

} // verus!
