//! The stake ledger: registration, delegation, locking, unbonding, slashing
//! and reward distribution.

use vstd::prelude::*;
use vstd::string::*;
use crate::error::ConsensusError;
use crate::utils::{
    decimal_text, emotional_multiplier, emotional_multiplier_permille, integer_sqrt_wide, is_isqrt, now_millis, text_eq,
};
use crate::UNBONDING_PERIOD_EPOCHS;

verus! {

/// Kind of offense that leads to a slash.
#[derive(Debug, Clone, Copy, PartialEq, Eq, Structural)]
pub enum SlashingOffense {
    /// Poor emotional behaviour.
    PoorEmotionalBehavior,
    /// Missed consensus participation.
    MissedConsensus,
    /// Invalid biometric data.
    InvalidBiometric,
    /// Double signing, double voting or equivocation.
    DoubleSigning,
    /// Extended downtime.
    Downtime,
}

/// How severe a slash is.
#[derive(Debug, Clone, Copy, PartialEq, Eq, Structural)]
pub enum SlashingSeverity {
    /// 1% of stake.
    Minor,
    /// 5% of stake.
    Major,
    /// 15% of stake.
    Critical,
}

/// The severity that an offense carries.
pub open spec fn severity_of(offense: SlashingOffense) -> SlashingSeverity {
    match offense {
        SlashingOffense::PoorEmotionalBehavior => SlashingSeverity::Minor,
        SlashingOffense::MissedConsensus => SlashingSeverity::Minor,
        SlashingOffense::InvalidBiometric => SlashingSeverity::Major,
        SlashingOffense::DoubleSigning => SlashingSeverity::Critical,
        SlashingOffense::Downtime => SlashingSeverity::Minor,
    }
}

/// The share of stake, in percent, that a severity slashes.
pub open spec fn slash_rate(s: SlashingSeverity) -> u8 {
    match s {
        SlashingSeverity::Minor => 1,
        SlashingSeverity::Major => 5,
        SlashingSeverity::Critical => 15,
    }
}

/// The reputation points that a severity costs.
pub open spec fn reputation_penalty(s: SlashingSeverity) -> u8 {
    match s {
        SlashingSeverity::Minor => 5,
        SlashingSeverity::Major => 10,
        SlashingSeverity::Critical => 20,
    }
}

impl SlashingOffense {
    /// The severity of this offense.
    pub fn severity(self) -> (r: SlashingSeverity)
        ensures
            r == severity_of(self),
    {
        match self {
            SlashingOffense::PoorEmotionalBehavior => SlashingSeverity::Minor,
            SlashingOffense::MissedConsensus => SlashingSeverity::Minor,
            SlashingOffense::InvalidBiometric => SlashingSeverity::Major,
            SlashingOffense::DoubleSigning => SlashingSeverity::Critical,
            SlashingOffense::Downtime => SlashingSeverity::Minor,
        }
    }
}

impl SlashingSeverity {
    /// The share of stake, in percent, this severity slashes.
    pub fn rate_percent(self) -> (r: u8)
        ensures
            r == slash_rate(self),
    {
        match self {
            SlashingSeverity::Minor => 1,
            SlashingSeverity::Major => 5,
            SlashingSeverity::Critical => 15,
        }
    }

    /// The reputation points this severity costs.
    pub fn reputation_penalty(self) -> (r: u8)
        ensures
            r == reputation_penalty(self),
    {
        match self {
            SlashingSeverity::Minor => 5,
            SlashingSeverity::Major => 10,
            SlashingSeverity::Critical => 20,
        }
    }
}

/// A recorded slash.
#[derive(Debug)]
pub struct SlashingEvent {
    /// Event id.
    pub id: String,
    /// Id of the slashed validator.
    pub validator_id: String,
    /// The offense.
    pub offense: SlashingOffense,
    /// Its severity.
    pub severity: SlashingSeverity,
    /// Share of stake slashed, in percent.
    pub slashing_rate: u8,
    /// Amount slashed; 0 where the detector records the event before any
    /// stake is taken.
    pub amount: u64,
    /// Time of the event, in milliseconds since the Unix epoch.
    pub timestamp: u64,
    /// What was observed.
    pub evidence: String,
}

impl Clone for SlashingEvent {
    fn clone(&self) -> (r: Self)
        ensures
            r.id@ == self.id@,
            r.validator_id@ == self.validator_id@,
            r.offense == self.offense,
            r.severity == self.severity,
            r.slashing_rate == self.slashing_rate,
            r.amount == self.amount,
            r.timestamp == self.timestamp,
            r.evidence@ == self.evidence@,
    {
        SlashingEvent {
            id: self.id.clone(),
            validator_id: self.validator_id.clone(),
            offense: self.offense,
            severity: self.severity,
            slashing_rate: self.slashing_rate,
            amount: self.amount,
            timestamp: self.timestamp,
            evidence: self.evidence.clone(),
        }
    }
}

/// What a validator's ledger entry holds, as plain values.
pub struct ValidatorModel {
    pub id: Seq<char>,
    pub address: Seq<char>,
    pub stake: u64,
    pub locked_stake: u64,
    pub available_stake: u64,
    pub unlock_epoch: Option<u64>,
    pub emotional_score: u8,
    pub reputation: u8,
    pub is_active: bool,
    pub commission: u8,
    pub total_rewards: u64,
    pub total_penalties: u64,
}

/// A validator's ledger entry.
#[derive(Debug)]
pub struct Validator {
    /// Validator id.
    pub id: String,
    /// Payout address.
    pub address: String,
    /// Total stake.
    pub stake: u64,
    /// Stake locked for consensus participation or unbonding.
    pub locked_stake: u64,
    /// Stake free to lock or withdraw.
    pub available_stake: u64,
    /// Epoch at which unbonding completes, while unbonding.
    pub unlock_epoch: Option<u64>,
    /// Emotional score.
    pub emotional_score: u8,
    /// Reputation, 0 to 100.
    pub reputation: u8,
    /// Whether the validator takes part in consensus.
    pub is_active: bool,
    /// Commission in percent, 0 to 20.
    pub commission: u8,
    /// Time of the last change, in milliseconds since the Unix epoch.
    pub last_activity: u64,
    /// Rewards earned.
    pub total_rewards: u64,
    /// Stake slashed.
    pub total_penalties: u64,
}

impl View for Validator {
    type V = ValidatorModel;

    open spec fn view(&self) -> ValidatorModel {
        ValidatorModel {
            id: self.id@,
            address: self.address@,
            stake: self.stake,
            locked_stake: self.locked_stake,
            available_stake: self.available_stake,
            unlock_epoch: self.unlock_epoch,
            emotional_score: self.emotional_score,
            reputation: self.reputation,
            is_active: self.is_active,
            commission: self.commission,
            total_rewards: self.total_rewards,
            total_penalties: self.total_penalties,
        }
    }
}

impl Clone for Validator {
    fn clone(&self) -> (r: Self)
        ensures
            r@ == self@,
    {
        Validator {
            id: self.id.clone(),
            address: self.address.clone(),
            stake: self.stake,
            locked_stake: self.locked_stake,
            available_stake: self.available_stake,
            unlock_epoch: self.unlock_epoch,
            emotional_score: self.emotional_score,
            reputation: self.reputation,
            is_active: self.is_active,
            commission: self.commission,
            last_activity: self.last_activity,
            total_rewards: self.total_rewards,
            total_penalties: self.total_penalties,
        }
    }
}

/// Whether a ledger entry's numbers are consistent.
pub open spec fn validator_wf(v: ValidatorModel) -> bool {
    v.reputation <= 100 && v.commission <= 20 && v.locked_stake + v.available_stake <= v.stake
}

/// Status of a delegation.
#[derive(Debug, Clone, Copy, PartialEq, Eq, Structural)]
pub enum StakeStatus {
    /// Active.
    Active,
    /// Unbonding.
    Unbonding,
    /// Slashed.
    Slashed,
    /// Withdrawn.
    Withdrawn,
}

/// Stake delegated to a validator.
#[derive(Debug)]
pub struct StakeEntry {
    /// Id of the validator.
    pub validator_id: String,
    /// Address of the delegator.
    pub delegator: String,
    /// Amount delegated.
    pub amount: u64,
    /// Time of delegation, in milliseconds since the Unix epoch.
    pub timestamp: u64,
    /// Lockup period in seconds.
    pub lockup_period: u64,
    /// Rewards accumulated.
    pub rewards: u64,
    /// Status.
    pub status: StakeStatus,
}

/// The rewards of one epoch.
#[derive(Debug)]
pub struct RewardDistribution {
    /// Epoch number.
    pub epoch: u64,
    /// Time of distribution, in milliseconds since the Unix epoch.
    pub timestamp: u64,
    /// The epoch's reward pool.
    pub total_rewards: u64,
    /// Commission paid to each rewarded validator, in the order of the scores.
    pub validator_rewards: Vec<(String, u64)>,
    /// Remainder attributed to each rewarded validator's delegators.
    pub delegator_rewards: Vec<(String, u64)>,
}

/// What a reward distribution holds, as plain values.
pub struct DistributionModel {
    pub epoch: u64,
    pub total_rewards: u64,
    pub validator_rewards: Seq<(Seq<char>, u64)>,
    pub delegator_rewards: Seq<(Seq<char>, u64)>,
}

/// The view of a reward distribution.
pub open spec fn distribution_model(d: RewardDistribution) -> DistributionModel {
    DistributionModel {
        epoch: d.epoch,
        total_rewards: d.total_rewards,
        validator_rewards: Seq::new(d.validator_rewards@.len(), |i: int| (d.validator_rewards@[i].0@, d.validator_rewards@[i].1)),
        delegator_rewards: Seq::new(d.delegator_rewards@.len(), |i: int| (d.delegator_rewards@[i].0@, d.delegator_rewards@[i].1)),
    }
}

/// The reward pool of each epoch.
pub const BASE_REWARD_POOL: u64 = 100_000;

/// The smallest delegation accepted.
pub const MIN_DELEGATION: u64 = 1000;

/// The entry with `id` in a list of entries, searching from the end.
pub open spec fn lookup(vs: Seq<ValidatorModel>, id: Seq<char>) -> Option<ValidatorModel>
    decreases vs.len(),
{
    if vs.len() == 0 {
        None
    } else if vs.last().id == id {
        Some(vs.last())
    } else {
        lookup(vs.drop_last(), id)
    }
}

/// The ledger as a map from validator id to entry.
pub open spec fn ledger_map(vs: Seq<ValidatorModel>) -> Map<Seq<char>, ValidatorModel> {
    Map::new(|id: Seq<char>| lookup(vs, id) is Some, |id: Seq<char>| lookup(vs, id).unwrap())
}

/// Whether no two entries share an id.
pub open spec fn ids_unique(vs: Seq<ValidatorModel>) -> bool {
    forall|i: int, j: int| 0 <= i < vs.len() && 0 <= j < vs.len() && i != j ==> vs[i].id != vs[j].id
}

/// The views of a list of entries.
pub open spec fn validator_models(vs: Seq<Validator>) -> Seq<ValidatorModel> {
    Seq::new(vs.len(), |i: int| vs[i]@)
}

proof fn lemma_lookup_absent(vs: Seq<ValidatorModel>, id: Seq<char>)
    requires
        forall|i: int| 0 <= i < vs.len() ==> vs[i].id != id,
    ensures
        lookup(vs, id) is None,
    decreases vs.len(),
{
    if vs.len() > 0 {
        lemma_lookup_absent(vs.drop_last(), id);
    }
}

proof fn lemma_lookup_at(vs: Seq<ValidatorModel>, i: int)
    requires
        ids_unique(vs),
        0 <= i < vs.len(),
    ensures
        lookup(vs, vs[i].id) == Some(vs[i]),
    decreases vs.len(),
{
    if i != vs.len() - 1 {
        lemma_lookup_at(vs.drop_last(), i);
    }
}

proof fn lemma_lookup_update(vs: Seq<ValidatorModel>, i: int, v: ValidatorModel, id: Seq<char>)
    requires
        ids_unique(vs),
        0 <= i < vs.len(),
        v.id == vs[i].id,
    ensures
        lookup(vs.update(i, v), id) == if id == v.id { Some(v) } else { lookup(vs, id) },
    decreases vs.len(),
{
    let ws = vs.update(i, v);
    if i == vs.len() - 1 {
        assert(ws.drop_last() =~= vs.drop_last());
    } else {
        assert(ws.drop_last() =~= vs.drop_last().update(i, v));
        lemma_lookup_update(vs.drop_last(), i, v, id);
    }
}

proof fn lemma_lookup_push(vs: Seq<ValidatorModel>, v: ValidatorModel, id: Seq<char>)
    ensures
        lookup(vs.push(v), id) == if id == v.id { Some(v) } else { lookup(vs, id) },
{
    assert(vs.push(v).drop_last() =~= vs);
}

/// The stake ledger.
pub struct EmotionalStaking {
    validators: Vec<Validator>,
    stakes: Vec<StakeEntry>,
    slashing_events: Vec<SlashingEvent>,
    reward_history: Vec<RewardDistribution>,
    min_stake: u64,
    current_epoch: u64,
}

impl EmotionalStaking {
    /// The ledger as a map from validator id to entry.
    pub closed spec fn ledger(&self) -> Map<Seq<char>, ValidatorModel> {
        ledger_map(validator_models(self.validators@))
    }

    /// The minimum stake for registration.
    pub closed spec fn min_stake_spec(&self) -> u64 {
        self.min_stake
    }

    /// The ledger's epoch counter.
    pub closed spec fn epoch_spec(&self) -> u64 {
        self.current_epoch
    }

    /// The stake weight of the active validators: the sum of the square roots
    /// of their stakes, each in thousandths rounded down.
    pub closed spec fn stake_weight(&self) -> nat {
        total_weight(validator_models(self.validators@))
    }

    /// The number of reward distributions recorded.
    pub closed spec fn reward_count(&self) -> nat {
        self.reward_history@.len()
    }

    /// The reward distributions recorded, oldest first.
    pub closed spec fn reward_records(&self) -> Seq<DistributionModel> {
        Seq::new(self.reward_history@.len(), |i: int| distribution_model(self.reward_history@[i]))
    }

    /// The recorded slashes: validator id, offense, severity and amount.
    pub closed spec fn event_records(&self) -> Seq<(Seq<char>, SlashingOffense, SlashingSeverity, u64)> {
        Seq::new(self.slashing_events@.len(), |i: int| (self.slashing_events@[i].validator_id@,
            self.slashing_events@[i].offense, self.slashing_events@[i].severity, self.slashing_events@[i].amount))
    }

    /// The number of slashes recorded.
    pub closed spec fn slash_count(&self) -> nat {
        self.slashing_events@.len()
    }

    /// The ledger's invariant: ids are unique and every entry is consistent.
    pub closed spec fn wf(&self) -> bool {
        &&& ids_unique(validator_models(self.validators@))
        &&& forall|i: int| 0 <= i < self.validators@.len() ==> validator_wf(#[trigger] self.validators@[i]@)
    }

    /// Every entry of a well-formed ledger is consistent.
    pub proof fn lemma_entries_wf(&self, id: Seq<char>)
        requires
            self.wf(),
            self.ledger().contains_key(id),
        ensures
            validator_wf(self.ledger()[id]),
    {
        let vs = validator_models(self.validators@);
        if forall|i: int| 0 <= i < vs.len() ==> vs[i].id != id {
            lemma_lookup_absent(vs, id);
        }
        let i = choose|i: int| 0 <= i < vs.len() && vs[i].id == id;
        lemma_lookup_at(vs, i);
        assert(self.validators@[i]@ == vs[i]);
    }

    /// An empty ledger with a minimum stake, at epoch 0.
    pub fn new(min_stake: u64) -> (r: Self)
        ensures
            r.wf(),
            r.ledger() == Map::<Seq<char>, ValidatorModel>::empty(),
            r.min_stake_spec() == min_stake,
            r.epoch_spec() == 0,
            r.slash_count() == 0,
    {
        let r = EmotionalStaking {
            validators: Vec::new(),
            stakes: Vec::new(),
            slashing_events: Vec::new(),
            reward_history: Vec::new(),
            min_stake,
            current_epoch: 0,
        };
        assert(r.ledger() =~= Map::<Seq<char>, ValidatorModel>::empty());
        r
    }

    fn find(&self, id: &str) -> (r: Option<usize>)
        ensures
            match r {
                Some(i) => i < self.validators@.len() && self.validators@[i as int].id@ == id@,
                None => forall|i: int| 0 <= i < self.validators@.len() ==> self.validators@[i].id@ != id@,
            },
    {
        let mut i: usize = 0;
        while i < self.validators.len()
            invariant
                i <= self.validators@.len(),
                forall|k: int| 0 <= k < i ==> self.validators@[k].id@ != id@,
            decreases self.validators@.len() - i,
        {
            if text_eq(self.validators[i].id.as_str(), id) {
                return Some(i);
            }
            i = i + 1;
        }
        None
    }

    /// Replaces the entry at `i` by `v`, which has the same id.
    fn replace_at(&mut self, i: usize, v: Validator)
        requires
            old(self).wf(),
            i < old(self).validators@.len(),
            v.id@ == old(self).validators@[i as int].id@,
            validator_wf(v@),
        ensures
            final(self).wf(),
            final(self).ledger() == old(self).ledger().insert(v.id@, v@),
            final(self).min_stake == old(self).min_stake,
            final(self).current_epoch == old(self).current_epoch,
            final(self).slashing_events@ == old(self).slashing_events@,
            final(self).stakes@ == old(self).stakes@,
            final(self).reward_history@ == old(self).reward_history@,
    {
        let ghost old_vs = validator_models(self.validators@);
        let ghost vm = v@;
        self.validators.set(i, v);
        proof {
            let new_vs = validator_models(self.validators@);
            assert(new_vs =~= old_vs.update(i as int, vm));
            assert forall|id: Seq<char>| #[trigger] lookup(new_vs, id) == (if id == vm.id { Some(vm) } else { lookup(old_vs, id) }) by {
                lemma_lookup_update(old_vs, i as int, vm, id);
            }
            assert(self.ledger() =~= old(self).ledger().insert(vm.id, vm));
            assert forall|a: int, b: int| 0 <= a < new_vs.len() && 0 <= b < new_vs.len() && a != b implies new_vs[a].id != new_vs[b].id by {
                assert(old_vs[a].id == new_vs[a].id);
                assert(old_vs[b].id == new_vs[b].id);
            }
            assert forall|k: int| 0 <= k < self.validators@.len() implies validator_wf(#[trigger] self.validators@[k]@) by {
                if k != i as int {
                    assert(self.validators@[k] == old(self).validators@[k]);
                }
            }
        }
    }

    /// Registers a validator with `initial_stake`, all of it available, full
    /// reputation and active. A stake below the minimum is refused with
    /// `InsufficientStake`, a commission above 20% with `ConfigError`; either
    /// way the ledger is unchanged. An existing entry with the id is replaced.
    pub fn register_validator(&mut self, id: String, address: String, initial_stake: u64, commission: u8)
        -> (r: Result<(), ConsensusError>)
        requires
            old(self).wf(),
        ensures
            final(self).wf(),
            final(self).min_stake_spec() == old(self).min_stake_spec(),
            final(self).epoch_spec() == old(self).epoch_spec(),
            final(self).slash_count() == old(self).slash_count(),
            initial_stake < old(self).min_stake_spec() ==> r == Err::<(), ConsensusError>(
                ConsensusError::InsufficientStake { stake: initial_stake, minimum: old(self).min_stake_spec() }),
            initial_stake >= old(self).min_stake_spec() && commission > 20 ==> (r matches Err(ConsensusError::ConfigError { .. })),
            r is Err ==> final(self).ledger() == old(self).ledger(),
            r is Ok <==> initial_stake >= old(self).min_stake_spec() && commission <= 20,
            r is Ok ==> final(self).ledger() == old(self).ledger().insert(id@, ValidatorModel {
                id: id@,
                address: address@,
                stake: initial_stake,
                locked_stake: 0,
                available_stake: initial_stake,
                unlock_epoch: None,
                emotional_score: 0,
                reputation: 100,
                is_active: true,
                commission,
                total_rewards: 0,
                total_penalties: 0,
            }),
    {
        if initial_stake < self.min_stake {
            return Err(ConsensusError::insufficient_stake(initial_stake, self.min_stake));
        }
        if commission > 20 {
            return Err(ConsensusError::config_error("Commission must be <= 20%"));
        }
        let v = Validator {
            id,
            address,
            stake: initial_stake,
            locked_stake: 0,
            available_stake: initial_stake,
            unlock_epoch: None,
            emotional_score: 0,
            reputation: 100,
            is_active: true,
            commission,
            last_activity: now_millis(),
            total_rewards: 0,
            total_penalties: 0,
        };
        match self.find(v.id.as_str()) {
            Some(i) => {
                self.replace_at(i, v);
            },
            None => {
                let ghost old_vs = validator_models(self.validators@);
                let ghost vm = v@;
                self.validators.push(v);
                proof {
                    let new_vs = validator_models(self.validators@);
                    assert(new_vs =~= old_vs.push(vm));
                    assert forall|k: Seq<char>| #[trigger] lookup(new_vs, k) == (if k == vm.id { Some(vm) } else { lookup(old_vs, k) }) by {
                        lemma_lookup_push(old_vs, vm, k);
                    }
                    assert(self.ledger() =~= old(self).ledger().insert(vm.id, vm));
                    assert forall|a: int, b: int| 0 <= a < new_vs.len() && 0 <= b < new_vs.len() && a != b implies new_vs[a].id != new_vs[b].id by {
                        if a < old_vs.len() && b < old_vs.len() {
                            assert(old_vs[a] == new_vs[a]);
                            assert(old_vs[b] == new_vs[b]);
                        } else if a < old_vs.len() {
                            assert(old_vs[a] == new_vs[a]);
                        } else {
                            assert(old_vs[b] == new_vs[b]);
                        }
                    }
                    assert forall|k: int| 0 <= k < self.validators@.len() implies validator_wf(#[trigger] self.validators@[k]@) by {
                        if k < old_vs.len() {
                            assert(self.validators@[k] == old(self).validators@[k]);
                        }
                    }
                }
            },
        }
        Ok(())
    }
}

/// The amount a slash takes from an entry.
pub open spec fn slash_amount(v: ValidatorModel, offense: SlashingOffense) -> u64 {
    (v.stake as nat * slash_rate(severity_of(offense)) as nat / 100) as u64
}

/// An entry after a slash: the amount leaves its stake, first from available
/// then from locked stake; reputation drops by the severity's penalty; it is
/// deactivated when its stake falls below `min_stake`.
pub open spec fn slashed(v: ValidatorModel, offense: SlashingOffense, min_stake: u64) -> ValidatorModel {
    let amount = slash_amount(v, offense);
    let from_available: u64 = if amount <= v.available_stake { amount } else { v.available_stake };
    let from_locked: u64 = (amount - from_available) as u64;
    let stake = (v.stake - amount) as u64;
    ValidatorModel {
        stake,
        available_stake: (v.available_stake - from_available) as u64,
        locked_stake: if from_locked <= v.locked_stake { (v.locked_stake - from_locked) as u64 } else { 0 },
        reputation: if v.reputation >= reputation_penalty(severity_of(offense)) {
            (v.reputation - reputation_penalty(severity_of(offense))) as u8
        } else {
            0
        },
        is_active: v.is_active && stake >= min_stake,
        total_penalties: if v.total_penalties + amount > u64::MAX { u64::MAX } else { (v.total_penalties + amount) as u64 },
        ..v
    }
}

/// A slash never raises a validator's stake, and never raises its
/// reputation above 100.
pub proof fn lemma_slash_stake_non_increasing(v: ValidatorModel, offense: SlashingOffense, min_stake: u64)
    requires
        validator_wf(v),
    ensures
        slashed(v, offense, min_stake).stake <= v.stake,
        slashed(v, offense, min_stake).reputation <= 100,
        validator_wf(slashed(v, offense, min_stake)),
{
    let amount = slash_amount(v, offense);
    assert(v.stake as nat * slash_rate(severity_of(offense)) as nat / 100 <= v.stake as nat) by (nonlinear_arith)
        requires slash_rate(severity_of(offense)) <= 15;
}

/// The integer square root of `n`.
pub open spec fn isqrt(n: nat) -> nat {
    choose|r: nat| is_isqrt(n, r)
}

/// The integer square root is the only number with its property.
pub proof fn lemma_isqrt_unique(n: nat, r: nat)
    requires
        is_isqrt(n, r),
    ensures
        isqrt(n) == r,
{
    let q = isqrt(n);
    assert(is_isqrt(n, q));
    if q < r {
        assert((q + 1) * (q + 1) <= r * r) by (nonlinear_arith)
            requires q + 1 <= r;
    } else if r < q {
        assert((r + 1) * (r + 1) <= q * q) by (nonlinear_arith)
            requires r + 1 <= q;
    }
}

/// The stake weight of the active entries: the sum of the square roots of
/// their stakes, each in thousandths rounded down.
pub open spec fn total_weight(vs: Seq<ValidatorModel>) -> nat
    decreases vs.len(),
{
    if vs.len() == 0 {
        0
    } else {
        total_weight(vs.drop_last()) + if vs.last().is_active { isqrt(vs.last().stake as nat * 1_000_000) } else { 0 }
    }
}

/// An active validator's reward for an epoch: its share of the pool by stake
/// weight (the square root of its stake in thousandths over the total),
/// scaled by the multiplier of its emotional score.
pub open spec fn epoch_reward(stake: u64, score: u8, total: nat) -> nat {
    if total == 0 {
        0
    } else {
        (BASE_REWARD_POOL as nat * isqrt(stake as nat * 1_000_000) / total) * emotional_multiplier(score as nat, 75) / 1000
    }
}

/// The reward lines of an epoch, one per score of an active validator in the
/// ledger: the validator's id, its commission, and the remainder for its
/// delegators.
pub open spec fn reward_lines(scores: Seq<(Seq<char>, u8)>, ledger: Map<Seq<char>, ValidatorModel>, total: nat)
    -> Seq<(Seq<char>, nat, nat)>
    decreases scores.len(),
{
    if scores.len() == 0 {
        Seq::empty()
    } else {
        let prev = reward_lines(scores.drop_last(), ledger, total);
        let id = scores.last().0;
        if ledger.contains_key(id) && ledger[id].is_active {
            let reward = epoch_reward(ledger[id].stake, scores.last().1, total);
            let commission = reward * ledger[id].commission as nat / 100;
            prev.push((id, commission, (reward - commission) as nat))
        } else {
            prev
        }
    }
}

/// The views of a list of scores.
pub open spec fn score_models(scores: Seq<(String, u8)>) -> Seq<(Seq<char>, u8)> {
    Seq::new(scores.len(), |i: int| (scores[i].0@, scores[i].1))
}

impl EmotionalStaking {
    proof fn lemma_entry_at(&self, i: int)
        requires
            self.wf(),
            0 <= i < self.validators@.len(),
        ensures
            self.ledger().contains_key(self.validators@[i].id@),
            self.ledger()[self.validators@[i].id@] == self.validators@[i]@,
            validator_wf(self.validators@[i]@),
    {
        let vs = validator_models(self.validators@);
        lemma_lookup_at(vs, i);
        assert(vs[i] == self.validators@[i]@);
    }

    proof fn lemma_absent(&self, id: Seq<char>)
        requires
            forall|i: int| 0 <= i < self.validators@.len() ==> self.validators@[i].id@ != id,
        ensures
            !self.ledger().contains_key(id),
    {
        let vs = validator_models(self.validators@);
        assert forall|i: int| 0 <= i < vs.len() implies vs[i].id != id by {
            assert(vs[i] == self.validators@[i]@);
        }
        lemma_lookup_absent(vs, id);
    }

    /// Slashes a validator for an offense: the severity's share of its stake
    /// is taken, its reputation drops, it is deactivated if its stake falls
    /// below the minimum, and the slash is recorded. An unknown id is
    /// `ValidatorNotFound` and changes nothing.
    pub fn slash_validator(&mut self, validator_id: &str, offense: SlashingOffense, evidence: String)
        -> (r: Result<(), ConsensusError>)
        requires
            old(self).wf(),
        ensures
            final(self).wf(),
            final(self).min_stake_spec() == old(self).min_stake_spec(),
            final(self).epoch_spec() == old(self).epoch_spec(),
            !old(self).ledger().contains_key(validator_id@) ==> (r matches Err(ConsensusError::ValidatorNotFound { .. }))
                && final(self).ledger() == old(self).ledger() && final(self).slash_count() == old(self).slash_count(),
            old(self).ledger().contains_key(validator_id@) ==> r is Ok
                && final(self).ledger() == old(self).ledger().insert(validator_id@,
                    slashed(old(self).ledger()[validator_id@], offense, old(self).min_stake_spec()))
                && final(self).slash_count() == old(self).slash_count() + 1
                && final(self).event_records() == old(self).event_records().push((validator_id@, offense,
                    severity_of(offense), slash_amount(old(self).ledger()[validator_id@], offense))),
    {
        let i = match self.find(validator_id) {
            Some(i) => i,
            None => {
                proof {
                    self.lemma_absent(validator_id@);
                }
                return Err(ConsensusError::validator_not_found(validator_id));
            },
        };
        proof {
            self.lemma_entry_at(i as int);
            lemma_slash_stake_non_increasing(self.validators@[i as int]@, offense, self.min_stake);
        }
        let mut v = self.validators[i].clone();
        let severity = offense.severity();
        let rate = severity.rate_percent();
        proof {
            assert(v.stake as int * rate as int / 100 <= v.stake as int) by (nonlinear_arith)
                requires rate <= 15;
        }
        let amount = ((v.stake as u128) * (rate as u128) / 100) as u64;
        let from_available = if amount <= v.available_stake { amount } else { v.available_stake };
        let from_locked = amount - from_available;
        v.stake = v.stake - amount;
        v.available_stake = v.available_stake - from_available;
        v.locked_stake = v.locked_stake.saturating_sub(from_locked);
        v.total_penalties = v.total_penalties.saturating_add(amount);
        v.reputation = v.reputation.saturating_sub(severity.reputation_penalty());
        if v.stake < self.min_stake {
            v.is_active = false;
        }
        v.last_activity = now_millis();
        self.replace_at(i, v);
        let mut event_id = String::from_str("slash-");
        event_id.append(validator_id);
        event_id.append("-");
        event_id.append(decimal_text(self.slashing_events.len() as u64).as_str());
        let event = SlashingEvent {
            id: event_id,
            validator_id: validator_id.to_owned(),
            offense,
            severity,
            slashing_rate: rate,
            amount,
            timestamp: now_millis(),
            evidence,
        };
        self.slashing_events.push(event);
        assert(self.event_records() =~= old(self).event_records().push((validator_id@, offense,
            severity_of(offense), slash_amount(old(self).ledger()[validator_id@], offense))));
        Ok(())
    }

    /// Moves `amount` of a validator's available stake to locked stake.
    /// Unknown ids are `ValidatorNotFound`; less available stake than `amount`
    /// is `InsufficientStake`; either way nothing changes.
    pub fn lock_stake(&mut self, validator_id: &str, amount: u64, epochs: u64) -> (r: Result<(), ConsensusError>)
        requires
            old(self).wf(),
        ensures
            final(self).wf(),
            final(self).min_stake_spec() == old(self).min_stake_spec(),
            final(self).epoch_spec() == old(self).epoch_spec(),
            final(self).slash_count() == old(self).slash_count(),
            r is Err ==> final(self).ledger() == old(self).ledger(),
            !old(self).ledger().contains_key(validator_id@) ==> (r matches Err(ConsensusError::ValidatorNotFound { .. })),
            old(self).ledger().contains_key(validator_id@) ==> ({
                let v = old(self).ledger()[validator_id@];
                &&& v.available_stake < amount ==> r == Err::<(), ConsensusError>(ConsensusError::InsufficientStake {
                    stake: v.available_stake,
                    minimum: amount,
                })
                &&& v.available_stake >= amount ==> r is Ok && final(self).ledger() == old(self).ledger().insert(
                    validator_id@,
                    ValidatorModel {
                        available_stake: (v.available_stake - amount) as u64,
                        locked_stake: (v.locked_stake + amount) as u64,
                        ..v
                    },
                )
            }),
    {
        let i = match self.find(validator_id) {
            Some(i) => i,
            None => {
                proof {
                    self.lemma_absent(validator_id@);
                }
                return Err(ConsensusError::validator_not_found(validator_id));
            },
        };
        proof {
            self.lemma_entry_at(i as int);
        }
        let mut v = self.validators[i].clone();
        if v.available_stake < amount {
            return Err(ConsensusError::insufficient_stake(v.available_stake, amount));
        }
        v.available_stake = v.available_stake - amount;
        v.locked_stake = v.locked_stake + amount;
        self.replace_at(i, v);
        Ok(())
    }

    /// Makes all of a validator's locked stake available again. Unknown ids
    /// are `ValidatorNotFound` and change nothing.
    pub fn unlock_stake(&mut self, validator_id: &str) -> (r: Result<(), ConsensusError>)
        requires
            old(self).wf(),
        ensures
            final(self).wf(),
            final(self).min_stake_spec() == old(self).min_stake_spec(),
            final(self).epoch_spec() == old(self).epoch_spec(),
            final(self).slash_count() == old(self).slash_count(),
            !old(self).ledger().contains_key(validator_id@) ==> (r matches Err(ConsensusError::ValidatorNotFound { .. }))
                && final(self).ledger() == old(self).ledger(),
            old(self).ledger().contains_key(validator_id@) ==> r is Ok && ({
                let v = old(self).ledger()[validator_id@];
                final(self).ledger() == old(self).ledger().insert(
                    validator_id@,
                    ValidatorModel {
                        available_stake: (v.available_stake + v.locked_stake) as u64,
                        locked_stake: 0,
                        ..v
                    },
                )
            }),
    {
        let i = match self.find(validator_id) {
            Some(i) => i,
            None => {
                proof {
                    self.lemma_absent(validator_id@);
                }
                return Err(ConsensusError::validator_not_found(validator_id));
            },
        };
        proof {
            self.lemma_entry_at(i as int);
        }
        let mut v = self.validators[i].clone();
        v.available_stake = v.available_stake + v.locked_stake;
        v.locked_stake = 0;
        self.replace_at(i, v);
        Ok(())
    }

    /// Starts unbonding `amount` of a validator's available stake: it is
    /// locked until the unbonding period has passed, and the validator is
    /// deactivated. Unknown ids are `ValidatorNotFound`; a validator already
    /// unbonding is a `ConfigError`; less available stake than `amount` is
    /// `InsufficientStake`. On an error nothing changes.
    pub fn begin_unbonding(&mut self, validator_id: &str, amount: u64) -> (r: Result<(), ConsensusError>)
        requires
            old(self).wf(),
        ensures
            final(self).wf(),
            final(self).min_stake_spec() == old(self).min_stake_spec(),
            final(self).epoch_spec() == old(self).epoch_spec(),
            final(self).slash_count() == old(self).slash_count(),
            r is Err ==> final(self).ledger() == old(self).ledger(),
            !old(self).ledger().contains_key(validator_id@) ==> (r matches Err(ConsensusError::ValidatorNotFound { .. })),
            old(self).ledger().contains_key(validator_id@) ==> ({
                let v = old(self).ledger()[validator_id@];
                &&& v.unlock_epoch is Some ==> (r matches Err(ConsensusError::ConfigError { .. }))
                &&& v.unlock_epoch is None && v.available_stake < amount ==> r == Err::<(), ConsensusError>(
                    ConsensusError::InsufficientStake { stake: v.available_stake, minimum: amount })
                &&& v.unlock_epoch is None && v.available_stake >= amount ==> r is Ok
                    && final(self).ledger() == old(self).ledger().insert(
                    validator_id@,
                    ValidatorModel {
                        available_stake: (v.available_stake - amount) as u64,
                        locked_stake: (v.locked_stake + amount) as u64,
                        unlock_epoch: Some(
                            if old(self).epoch_spec() + UNBONDING_PERIOD_EPOCHS > u64::MAX { u64::MAX }
                            else { (old(self).epoch_spec() + UNBONDING_PERIOD_EPOCHS) as u64 }),
                        is_active: false,
                        ..v
                    },
                )
            }),
    {
        let i = match self.find(validator_id) {
            Some(i) => i,
            None => {
                proof {
                    self.lemma_absent(validator_id@);
                }
                return Err(ConsensusError::validator_not_found(validator_id));
            },
        };
        proof {
            self.lemma_entry_at(i as int);
        }
        let mut v = self.validators[i].clone();
        if v.unlock_epoch.is_some() {
            return Err(ConsensusError::config_error("Validator is already unbonding"));
        }
        if v.available_stake < amount {
            return Err(ConsensusError::insufficient_stake(v.available_stake, amount));
        }
        v.available_stake = v.available_stake - amount;
        v.locked_stake = v.locked_stake + amount;
        v.unlock_epoch = Some(self.current_epoch.saturating_add(UNBONDING_PERIOD_EPOCHS));
        v.is_active = false;
        self.replace_at(i, v);
        Ok(())
    }

    /// Completes unbonding once the unlock epoch is reached: the locked stake
    /// leaves the validator's stake and is returned. Unknown ids are
    /// `ValidatorNotFound`; a validator that is not unbonding, or whose unlock
    /// epoch is still ahead, is a `ConfigError`. On an error nothing changes.
    pub fn complete_unbonding(&mut self, validator_id: &str) -> (r: Result<u64, ConsensusError>)
        requires
            old(self).wf(),
        ensures
            final(self).wf(),
            final(self).min_stake_spec() == old(self).min_stake_spec(),
            final(self).epoch_spec() == old(self).epoch_spec(),
            final(self).slash_count() == old(self).slash_count(),
            r is Err ==> final(self).ledger() == old(self).ledger(),
            !old(self).ledger().contains_key(validator_id@) ==> (r matches Err(ConsensusError::ValidatorNotFound { .. })),
            old(self).ledger().contains_key(validator_id@) ==> ({
                let v = old(self).ledger()[validator_id@];
                &&& v.unlock_epoch is None ==> (r matches Err(ConsensusError::ConfigError { .. }))
                &&& v.unlock_epoch is Some && old(self).epoch_spec() < v.unlock_epoch->Some_0 ==> (r matches Err(ConsensusError::ConfigError { .. }))
                &&& v.unlock_epoch is Some && old(self).epoch_spec() >= v.unlock_epoch->Some_0 ==> r == Ok::<u64, ConsensusError>(v.locked_stake)
                    && final(self).ledger() == old(self).ledger().insert(
                    validator_id@,
                    ValidatorModel {
                        stake: (v.stake - v.locked_stake) as u64,
                        locked_stake: 0,
                        unlock_epoch: None,
                        ..v
                    },
                )
            }),
    {
        let i = match self.find(validator_id) {
            Some(i) => i,
            None => {
                proof {
                    self.lemma_absent(validator_id@);
                }
                return Err(ConsensusError::validator_not_found(validator_id));
            },
        };
        proof {
            self.lemma_entry_at(i as int);
        }
        let mut v = self.validators[i].clone();
        let unlock = match v.unlock_epoch {
            Some(e) => e,
            None => {
                return Err(ConsensusError::config_error("Validator is not unbonding"));
            },
        };
        if self.current_epoch < unlock {
            let mut msg = String::from_str("Unbonding period not complete. ");
            msg.append(decimal_text(unlock - self.current_epoch).as_str());
            msg.append(" epochs remaining");
            return Err(ConsensusError::config_error(msg.as_str()));
        }
        let amount = v.locked_stake;
        v.stake = v.stake - amount;
        v.locked_stake = 0;
        v.unlock_epoch = None;
        self.replace_at(i, v);
        Ok(amount)
    }

    /// Whether a delegation of `amount` from `delegator` to `validator_id` is
    /// recorded.
    pub closed spec fn has_delegation(&self, validator_id: Seq<char>, delegator: Seq<char>, amount: u64) -> bool {
        exists|k: int| 0 <= k < self.stakes@.len() && self.stakes@[k].validator_id@ == validator_id
            && self.stakes@[k].delegator@ == delegator && self.stakes@[k].amount == amount
    }

    /// Delegates `amount` from `delegator` to an active validator, replacing an
    /// earlier delegation between the two. Less than the minimum delegation is
    /// `InsufficientStake`, an unknown validator `ValidatorNotFound`, an
    /// inactive one `InvalidVote`. The ledger of validators never changes.
    pub fn delegate_stake(&mut self, validator_id: String, delegator: String, amount: u64, lockup_period: u64)
        -> (r: Result<(), ConsensusError>)
        requires
            old(self).wf(),
        ensures
            final(self).wf(),
            final(self).ledger() == old(self).ledger(),
            final(self).min_stake_spec() == old(self).min_stake_spec(),
            final(self).epoch_spec() == old(self).epoch_spec(),
            final(self).slash_count() == old(self).slash_count(),
            amount < MIN_DELEGATION ==> r == Err::<(), ConsensusError>(
                ConsensusError::InsufficientStake { stake: amount, minimum: MIN_DELEGATION }),
            amount >= MIN_DELEGATION && !old(self).ledger().contains_key(validator_id@)
                ==> (r matches Err(ConsensusError::ValidatorNotFound { .. })),
            amount >= MIN_DELEGATION && old(self).ledger().contains_key(validator_id@)
                && !old(self).ledger()[validator_id@].is_active ==> (r matches Err(ConsensusError::InvalidVote { .. })),
            amount >= MIN_DELEGATION && old(self).ledger().contains_key(validator_id@)
                && old(self).ledger()[validator_id@].is_active ==> r is Ok
                && final(self).has_delegation(validator_id@, delegator@, amount),
    {
        if amount < MIN_DELEGATION {
            return Err(ConsensusError::insufficient_stake(amount, MIN_DELEGATION));
        }
        let i = match self.find(validator_id.as_str()) {
            Some(i) => i,
            None => {
                proof {
                    self.lemma_absent(validator_id@);
                }
                return Err(ConsensusError::validator_not_found(validator_id.as_str()));
            },
        };
        proof {
            self.lemma_entry_at(i as int);
        }
        if !self.validators[i].is_active {
            return Err(ConsensusError::invalid_vote("Validator is not active"));
        }
        let ghost vid = validator_id@;
        let ghost del = delegator@;
        let entry = StakeEntry {
            validator_id,
            delegator,
            amount,
            timestamp: now_millis(),
            lockup_period,
            rewards: 0,
            status: StakeStatus::Active,
        };
        let mut k: usize = 0;
        while k < self.stakes.len()
            invariant
                k <= self.stakes@.len(),
                self.validators@ == old(self).validators@,
                self.wf(),
                self.ledger() == old(self).ledger(),
                amount >= MIN_DELEGATION,
                vid == validator_id@,
                del == delegator@,
                old(self).ledger().contains_key(vid),
                old(self).ledger()[vid].is_active,
                entry.validator_id@ == vid,
                entry.delegator@ == del,
                entry.amount == amount,
                self.stakes@ == old(self).stakes@,
                self.slashing_events@ == old(self).slashing_events@,
                self.min_stake == old(self).min_stake,
                self.current_epoch == old(self).current_epoch,
            decreases self.stakes@.len() - k,
        {
            if text_eq(self.stakes[k].validator_id.as_str(), entry.validator_id.as_str())
                && text_eq(self.stakes[k].delegator.as_str(), entry.delegator.as_str()) {
                self.stakes.set(k, entry);
                assert(self.stakes@[k as int].validator_id@ == vid);
                assert(self.stakes@[k as int].delegator@ == del);
                return Ok(());
            }
            k = k + 1;
        }
        self.stakes.push(entry);
        assert(self.stakes@[self.stakes@.len() - 1].amount == amount);
        Ok(())
    }

    /// The reward line of one score: the commission and the delegators'
    /// remainder, when the validator is known and active.
    fn reward_line(&self, id: &str, score: u8, total: u128) -> (r: Option<(u64, u64)>)
        requires
            self.wf(),
            total as nat == self.stake_weight(),
        ensures
            self.ledger().contains_key(id@) && self.ledger()[id@].is_active ==> ({
                let reward = epoch_reward(self.ledger()[id@].stake, score, total as nat);
                let commission = reward * self.ledger()[id@].commission as nat / 100;
                r == Some(((commission as u64), ((reward - commission) as u64)))
                    && commission <= u64::MAX && reward - commission <= u64::MAX && commission <= reward
            }),
            !(self.ledger().contains_key(id@) && self.ledger()[id@].is_active) ==> r is None,
    {
        let k = match self.find(id) {
            Some(k) => k,
            None => {
                proof {
                    self.lemma_absent(id@);
                }
                return None;
            },
        };
        proof {
            self.lemma_entry_at(k as int);
        }
        let v = &self.validators[k];
        if !v.is_active {
            return None;
        }
        let w = integer_sqrt_wide((v.stake as u128) * 1_000_000);
        proof {
            lemma_isqrt_unique(v.stake as nat * 1_000_000, w as nat);
                assert(w < 0x800_0000_0000) by (nonlinear_arith)
                    requires w * w <= v.stake as nat * 1_000_000, v.stake <= 0xffff_ffff_ffff_ffffu64;
            assert((BASE_REWARD_POOL as int) * (w as int) <= 100_000 * 0x800_0000_0000) by (nonlinear_arith)
                requires w < 0x800_0000_0000, BASE_REWARD_POOL == 100_000;
            if total != 0 {
                assert((BASE_REWARD_POOL as int) * (w as int) / (total as int) <= (BASE_REWARD_POOL as int) * (w as int)) by (nonlinear_arith)
                    requires total >= 1, w >= 0;
            }
        }
        let base: u128 = if total == 0 { 0 } else { (BASE_REWARD_POOL as u128) * (w as u128) / total };
        let mult = emotional_multiplier_permille(score, 75);
        proof {
            assert(base * mult <= 100_000 * 0x800_0000_0000 * 1300) by (nonlinear_arith)
                requires base <= 100_000 * 0x800_0000_0000, mult <= 1300;
        }
        let reward: u128 = base * (mult as u128) / 1000;
        proof {
            assert(base * (mult as u128) / 1000 <= base * 1300) by (nonlinear_arith)
                requires mult <= 1300;
            assert(reward * (v.commission as u128) / 100 <= reward) by (nonlinear_arith)
                requires v.commission <= 20;
        }
        let commission: u128 = reward * (v.commission as u128) / 100;
        Some((commission as u64, (reward - commission) as u64))
    }

    /// Distributes an epoch's rewards. The epoch counter advances. Each score
    /// of an active validator in the ledger gives it its share of the pool by
    /// stake weight, scaled by the score's multiplier; the validator's
    /// commission is split off and the remainder goes to its delegators.
    /// Scores of unknown or inactive validators are skipped.
    #[verifier::rlimit(40)]
    pub fn distribute_rewards(&mut self, validator_scores: &Vec<(String, u8)>) -> (r: Result<RewardDistribution, ConsensusError>)
        requires
            old(self).wf(),
        ensures
            final(self).wf(),
            final(self).ledger() == old(self).ledger(),
            final(self).min_stake_spec() == old(self).min_stake_spec(),
            final(self).slash_count() == old(self).slash_count(),
            final(self).epoch_spec() == if old(self).epoch_spec() < u64::MAX { (old(self).epoch_spec() + 1) as u64 } else { u64::MAX },
            r matches Ok(d) && final(self).reward_records() == old(self).reward_records().push(distribution_model(d)),
            r matches Ok(d) && d.epoch == final(self).epoch_spec() && d.total_rewards == BASE_REWARD_POOL && ({
                let lines = reward_lines(score_models(validator_scores@), old(self).ledger(),
                    old(self).stake_weight());
                &&& d.validator_rewards@.len() == lines.len()
                &&& d.delegator_rewards@.len() == lines.len()
                &&& forall|i: int| 0 <= i < lines.len() ==> {
                    &&& #[trigger] d.validator_rewards@[i].0@ == lines[i].0
                    &&& d.validator_rewards@[i].1 == lines[i].1
                    &&& d.delegator_rewards@[i].0@ == lines[i].0
                    &&& d.delegator_rewards@[i].1 == lines[i].2
                }
            }),
    {
        self.current_epoch = self.current_epoch.saturating_add(1);
        let epoch = self.current_epoch;
        let ghost vs = validator_models(self.validators@);
        let mut total: u128 = 0;
        let mut i: usize = 0;
        while i < self.validators.len()
            invariant
                vs == validator_models(self.validators@),
                i <= vs.len(),
                total as nat == total_weight(vs.subrange(0, i as int)),
                total <= i as nat * 0x800_0000_0000,
            decreases vs.len() - i,
        {
            let v = &self.validators[i];
            let w = integer_sqrt_wide((v.stake as u128) * 1_000_000);
            proof {
                lemma_isqrt_unique(v.stake as nat * 1_000_000, w as nat);
                assert(w < 0x800_0000_0000) by (nonlinear_arith)
                    requires w * w <= v.stake as nat * 1_000_000, v.stake <= 0xffff_ffff_ffff_ffffu64;
                assert(vs.subrange(0, i as int + 1).drop_last() =~= vs.subrange(0, i as int));
                assert(vs[i as int] == v@);
                assert(total + w <= (i as nat + 1) * 0x800_0000_0000) by (nonlinear_arith)
                    requires total <= i as nat * 0x800_0000_0000, w < 0x800_0000_0000;
            }
            if v.is_active {
                total = total + w as u128;
            }
            i = i + 1;
        }
        proof {
            assert(vs.subrange(0, vs.len() as int) =~= vs);
        }
        let ghost scores = score_models(validator_scores@);
        let ghost ledger = self.ledger();
        let mut validator_rewards: Vec<(String, u64)> = Vec::new();
        let mut delegator_rewards: Vec<(String, u64)> = Vec::new();
        let mut j: usize = 0;
        while j < validator_scores.len()
            invariant
                self.wf(),
                ledger == self.ledger(),
                vs == validator_models(self.validators@),
                total as nat == total_weight(vs),
                scores == score_models(validator_scores@),
                j <= scores.len(),
                ({
                    let lines = reward_lines(scores.subrange(0, j as int), ledger, total as nat);
                    &&& validator_rewards@.len() == lines.len()
                    &&& delegator_rewards@.len() == lines.len()
                    &&& forall|k: int| 0 <= k < lines.len() ==> {
                        &&& #[trigger] validator_rewards@[k].0@ == lines[k].0
                        &&& validator_rewards@[k].1 == lines[k].1
                        &&& delegator_rewards@[k].0@ == lines[k].0
                        &&& delegator_rewards@[k].1 == lines[k].2
                    }
                }),
            decreases scores.len() - j,
        {
            let ghost prev = reward_lines(scores.subrange(0, j as int), ledger, total as nat);
            proof {
                assert(scores.subrange(0, j as int + 1).drop_last() =~= scores.subrange(0, j as int));
                assert(scores.subrange(0, j as int + 1).last() == scores[j as int]);
            }
            let id = &validator_scores[j].0;
            let score = validator_scores[j].1;
            proof {
                assert(scores.subrange(0, j as int + 1).last().0 == id@);
                assert(scores.subrange(0, j as int + 1).last().1 == score);
            }
            let line = self.reward_line(id.as_str(), score, total);
            let ghost vr0 = validator_rewards@;
            let ghost dr0 = delegator_rewards@;
            match line {
                Some((commission, rest)) => {
                    validator_rewards.push((id.clone(), commission));
                    delegator_rewards.push((id.clone(), rest));
                },
                None => {},
            }
            proof {
                let lines = reward_lines(scores.subrange(0, j as int + 1), ledger, total as nat);
                assert forall|m: int| 0 <= m < lines.len() implies {
                    &&& #[trigger] validator_rewards@[m].0@ == lines[m].0
                    &&& validator_rewards@[m].1 == lines[m].1
                    &&& delegator_rewards@[m].0@ == lines[m].0
                    &&& delegator_rewards@[m].1 == lines[m].2
                } by {
                    if m < prev.len() {
                        assert(lines[m] == prev[m]);
                        assert(validator_rewards@[m] == vr0[m]);
                        assert(delegator_rewards@[m] == dr0[m]);
                    }
                }
            }
            j = j + 1;
        }
        proof {
            assert(scores.subrange(0, scores.len() as int) =~= scores);
        }
        let d = RewardDistribution {
            epoch,
            timestamp: now_millis(),
            total_rewards: BASE_REWARD_POOL,
            validator_rewards,
            delegator_rewards,
        };
        let copy = RewardDistribution {
            epoch,
            timestamp: d.timestamp,
            total_rewards: BASE_REWARD_POOL,
            validator_rewards: clone_pairs(&d.validator_rewards),
            delegator_rewards: clone_pairs(&d.delegator_rewards),
        };
        let ghost old_records = self.reward_records();
        proof {
            assert(distribution_model(copy).validator_rewards =~= distribution_model(d).validator_rewards);
            assert(distribution_model(copy).delegator_rewards =~= distribution_model(d).delegator_rewards);
        }
        self.reward_history.push(copy);
        assert(self.reward_records() =~= old_records.push(distribution_model(d)));
        Ok(d)
    }

    /// A copy of the entry with `id`, if any.
    pub fn get_validator(&self, id: &str) -> (r: Option<Validator>)
        requires
            self.wf(),
        ensures
            match r {
                Some(v) => self.ledger().contains_key(id@) && v@ == self.ledger()[id@],
                None => !self.ledger().contains_key(id@),
            },
    {
        match self.find(id) {
            Some(i) => {
                proof {
                    self.lemma_entry_at(i as int);
                }
                Some(self.validators[i].clone())
            },
            None => {
                proof {
                    self.lemma_absent(id@);
                }
                None
            },
        }
    }

    /// Copies of all entries, in registration order.
    pub fn get_all_validators(&self) -> (r: Vec<Validator>)
        ensures
            ledger_map(validator_models(r@)) == self.ledger(),
    {
        let mut r: Vec<Validator> = Vec::new();
        let mut i: usize = 0;
        while i < self.validators.len()
            invariant
                i <= self.validators@.len(),
                r@.len() == i,
                forall|k: int| 0 <= k < i ==> #[trigger] r@[k]@ == self.validators@[k]@,
            decreases self.validators@.len() - i,
        {
            r.push(self.validators[i].clone());
            i = i + 1;
        }
        assert(validator_models(r@) =~= validator_models(self.validators@));
        r
    }

    /// Copies of the recorded slashes, oldest first.
    pub fn get_slashing_events(&self) -> (r: Vec<SlashingEvent>)
        ensures
            r@.len() == self.slash_count(),
    {
        let mut r: Vec<SlashingEvent> = Vec::new();
        let mut i: usize = 0;
        while i < self.slashing_events.len()
            invariant
                i <= self.slashing_events@.len(),
                r@.len() == i,
            decreases self.slashing_events@.len() - i,
        {
            r.push(self.slashing_events[i].clone());
            i = i + 1;
        }
        r
    }

    /// Copies of the reward distributions, oldest first.
    pub fn get_reward_history(&self) -> (r: Vec<RewardDistribution>)
        ensures
            r@.len() == self.reward_count(),
    {
        let mut r: Vec<RewardDistribution> = Vec::new();
        let mut i: usize = 0;
        while i < self.reward_history.len()
            invariant
                i <= self.reward_history@.len(),
                r@.len() == i,
            decreases self.reward_history@.len() - i,
        {
            let d = &self.reward_history[i];
            r.push(RewardDistribution {
                epoch: d.epoch,
                timestamp: d.timestamp,
                total_rewards: d.total_rewards,
                validator_rewards: clone_pairs(&d.validator_rewards),
                delegator_rewards: clone_pairs(&d.delegator_rewards),
            });
            i = i + 1;
        }
        r
    }
}

/// A copy of a list of id and amount pairs.
pub fn clone_pairs(v: &Vec<(String, u64)>) -> (r: Vec<(String, u64)>)
    ensures
        r@.len() == v@.len(),
        forall|i: int| 0 <= i < v@.len() ==> #[trigger] r@[i].0@ == v@[i].0@ && r@[i].1 == v@[i].1,
{
    let mut r: Vec<(String, u64)> = Vec::new();
    let mut i: usize = 0;
    while i < v.len()
        invariant
            i <= v@.len(),
            r@.len() == i,
            forall|k: int| 0 <= k < i ==> #[trigger] r@[k].0@ == v@[k].0@ && r@[k].1 == v@[k].1,
        decreases v@.len() - i,
    {
        r.push((v[i].0.clone(), v[i].1));
        i = i + 1;
    }
    r
}

/// In a well-formed ledger every validator's reputation lies in 0 to 100.
pub proof fn lemma_reputation_bounded(ledger: &EmotionalStaking, id: Seq<char>)
    requires
        ledger.wf(),
        ledger.ledger().contains_key(id),
    ensures
        ledger.ledger()[id].reputation <= 100,
{
    ledger.lemma_entries_wf(id);
}

} // verus!
