//! Quorum-signed checkpoints for crash recovery.

use vstd::prelude::*;
use vstd::string::*;
use crate::crypto::{utf8_bytes, verify_outcome, KeyPair, Signature};
use crate::error::ConsensusError;
use crate::types::Block;
use crate::utils::{decimal, decimal_text, now_millis};

verus! {

/// A validator's signature on a checkpoint.
#[derive(Debug)]
pub struct ValidatorSignature {
    /// Id of the signer.
    pub validator_id: String,
    /// Stake of the signer when signing.
    pub stake: u64,
    /// Signature over the checkpoint payload.
    pub signature: Signature,
    /// Signer's public key as hex.
    pub public_key: String,
}

/// A finalized state at a block height, signed by validators.
#[derive(Debug)]
pub struct Checkpoint {
    /// Block height.
    pub height: u64,
    /// Block hash.
    pub block_hash: String,
    /// Epoch of the block.
    pub epoch: u64,
    /// Creation time, in milliseconds since the Unix epoch.
    pub timestamp: u64,
    /// Validators' signatures.
    pub validator_signatures: Vec<ValidatorSignature>,
    /// Sum of the signers' stakes.
    pub total_stake_signed: u64,
    /// Merkle root of the block.
    pub state_root: String,
}

/// Counts and averages over the stored checkpoints.
#[derive(Debug, Clone, Copy)]
pub struct CheckpointStatistics {
    /// Number of checkpoints.
    pub total_checkpoints: usize,
    /// Height of the latest checkpoint, 0 when there is none.
    pub latest_checkpoint_height: u64,
    /// Heights between checkpoints.
    pub checkpoint_interval: u64,
    /// Average stake signed per checkpoint, 0 when there is none.
    pub average_stake_signed: u64,
    /// Total stake of the network.
    pub total_network_stake: u64,
}

/// Share of the network's stake, in percent, that must sign a checkpoint.
pub const CHECKPOINT_STAKE_PERCENT: u64 = 67;

/// Whether `signed` is enough of `total` network stake; any amount is enough
/// while the total is unknown (0).
pub open spec fn stake_sufficient(signed: nat, total: nat) -> bool {
    total == 0 || signed * 100 / total >= CHECKPOINT_STAKE_PERCENT
}

/// The canonical text a checkpoint signature covers.
pub open spec fn checkpoint_payload(height: u64, block_hash: Seq<char>, epoch: u64, state_root: Seq<char>) -> Seq<char> {
    "checkpoint:"@ + decimal(height as nat) + ":"@ + block_hash + ":"@ + decimal(epoch as nat) + ":"@ + state_root
}

/// The sum of the signers' stakes.
pub open spec fn stake_sum(sigs: Seq<ValidatorSignature>) -> nat
    decreases sigs.len(),
{
    if sigs.len() == 0 {
        0
    } else {
        stake_sum(sigs.drop_last()) + sigs.last().stake as nat
    }
}

/// What a validator signature holds, as plain values: signature hex,
/// recovery id and public key hex.
pub open spec fn sig_models(sigs: Seq<ValidatorSignature>) -> Seq<(Seq<char>, u8, Seq<char>)> {
    Seq::new(sigs.len(), |i: int| (sigs[i].signature.signature@, sigs[i].signature.recovery_id, sigs[i].public_key@))
}

/// The outcome of checking signatures over a payload in order: `None` at the
/// first malformed one, `Some(false)` at the first that another key made,
/// `Some(true)` when all verify.
pub open spec fn sigs_outcome(payload: Seq<u8>, sigs: Seq<(Seq<char>, u8, Seq<char>)>) -> Option<bool>
    decreases sigs.len(),
{
    if sigs.len() == 0 {
        Some(true)
    } else {
        match verify_outcome(payload, sigs[0].0, sigs[0].1, sigs[0].2) {
            None => None,
            Some(false) => Some(false),
            Some(true) => sigs_outcome(payload, sigs.subrange(1, sigs.len() as int)),
        }
    }
}

/// Whether a checkpoint verifies against a total network stake: it has
/// signatures, all verify over its payload, and they carry enough stake.
pub open spec fn checkpoint_verifies(cp: Checkpoint, total_stake: u64) -> bool {
    &&& cp.validator_signatures@.len() > 0
    &&& sigs_outcome(utf8_bytes(checkpoint_payload(cp.height, cp.block_hash@, cp.epoch, cp.state_root@)),
        sig_models(cp.validator_signatures@)) == Some(true)
    &&& stake_sufficient(cp.total_stake_signed as nat, total_stake as nat)
}

/// What identifies a checkpoint, as plain values.
pub struct CheckpointModel {
    pub height: u64,
    pub block_hash: Seq<char>,
    pub epoch: u64,
    pub total_stake_signed: u64,
    pub state_root: Seq<char>,
}

impl View for Checkpoint {
    type V = CheckpointModel;

    open spec fn view(&self) -> CheckpointModel {
        CheckpointModel {
            height: self.height,
            block_hash: self.block_hash@,
            epoch: self.epoch,
            total_stake_signed: self.total_stake_signed,
            state_root: self.state_root@,
        }
    }
}

fn copy_signature(s: &Signature) -> (r: Signature)
    ensures
        r.signature@ == s.signature@,
        r.recovery_id == s.recovery_id,
        r.algorithm@ == s.algorithm@,
{
    Signature { signature: s.signature.clone(), recovery_id: s.recovery_id, algorithm: s.algorithm.clone() }
}

fn copy_validator_signatures(v: &Vec<ValidatorSignature>) -> (r: Vec<ValidatorSignature>)
    ensures
        r@.len() == v@.len(),
        forall|i: int| 0 <= i < v@.len() ==> (#[trigger] r@[i]).stake == v@[i].stake,
        sig_models(r@) == sig_models(v@),
{
    let mut r: Vec<ValidatorSignature> = Vec::new();
    let mut i: usize = 0;
    while i < v.len()
        invariant
            i <= v@.len(),
            r@.len() == i,
            forall|k: int| 0 <= k < i ==> (#[trigger] r@[k]).stake == v@[k].stake,
            forall|k: int| 0 <= k < i ==> (#[trigger] r@[k]).signature.signature@ == v@[k].signature.signature@
                && r@[k].signature.recovery_id == v@[k].signature.recovery_id && r@[k].public_key@ == v@[k].public_key@,
        decreases v@.len() - i,
    {
        let s = &v[i];
        r.push(ValidatorSignature {
            validator_id: s.validator_id.clone(),
            stake: s.stake,
            signature: copy_signature(&s.signature),
            public_key: s.public_key.clone(),
        });
        i = i + 1;
    }
    assert(sig_models(r@) =~= sig_models(v@));
    r
}

impl Checkpoint {
    /// A copy of the checkpoint.
    pub fn copy(&self) -> (r: Checkpoint)
        ensures
            r@ == self@,
            r.timestamp == self.timestamp,
            r.validator_signatures@.len() == self.validator_signatures@.len(),
            sig_models(r.validator_signatures@) == sig_models(self.validator_signatures@),
            checkpoint_verifies(r, 0) == checkpoint_verifies(*self, 0),
            forall|t: u64| checkpoint_verifies(r, t) == checkpoint_verifies(*self, t),
    {
        Checkpoint {
            height: self.height,
            block_hash: self.block_hash.clone(),
            epoch: self.epoch,
            timestamp: self.timestamp,
            validator_signatures: copy_validator_signatures(&self.validator_signatures),
            total_stake_signed: self.total_stake_signed,
            state_root: self.state_root.clone(),
        }
    }
}

/// Creates, verifies and stores checkpoints.
pub struct CheckpointManager {
    checkpoints: Vec<Checkpoint>,
    checkpoint_interval: u64,
    total_network_stake: u64,
}

impl CheckpointManager {
    /// The stored checkpoints, oldest first.
    pub closed spec fn checkpoints_spec(&self) -> Seq<CheckpointModel> {
        Seq::new(self.checkpoints@.len(), |i: int| self.checkpoints@[i]@)
    }

    /// Whether the latest checkpoint verifies against the total stake.
    pub closed spec fn latest_verifies(&self) -> bool {
        self.checkpoints@.len() > 0 && checkpoint_verifies(self.checkpoints@.last(), self.total_network_stake)
    }

    /// Heights between checkpoints.
    pub closed spec fn interval_spec(&self) -> u64 {
        self.checkpoint_interval
    }

    /// The total network stake the stake gate uses.
    pub closed spec fn total_stake_spec(&self) -> u64 {
        self.total_network_stake
    }

    /// The manager's invariant: a positive interval.
    pub closed spec fn wf(&self) -> bool {
        self.checkpoint_interval > 0
    }

    /// A manager that checkpoints every `checkpoint_interval` heights, with no
    /// checkpoint and an unknown network stake.
    pub fn new(checkpoint_interval: u64) -> (r: Self)
        requires
            checkpoint_interval > 0,
        ensures
            r.wf(),
            r.checkpoints_spec().len() == 0,
            r.interval_spec() == checkpoint_interval,
            r.total_stake_spec() == 0,
    {
        let r = CheckpointManager { checkpoints: Vec::new(), checkpoint_interval, total_network_stake: 0 };
        assert(r.checkpoints_spec() =~= Seq::<CheckpointModel>::empty());
        r
    }

    /// Whether a checkpoint is due at `height`.
    pub fn should_create_checkpoint(&self, height: u64) -> (r: bool)
        requires
            self.wf(),
        ensures
            r == (height % self.interval_spec() == 0),
    {
        height % self.checkpoint_interval == 0
    }

    /// Sets the total network stake used by the stake gate.
    pub fn update_total_stake(&mut self, total_stake: u64)
        ensures
            final(self).total_stake_spec() == total_stake,
            final(self).checkpoints_spec() == old(self).checkpoints_spec(),
            final(self).interval_spec() == old(self).interval_spec(),
            final(self).wf() == old(self).wf(),
    {
        self.total_network_stake = total_stake;
    }

    /// The canonical text signed for a checkpoint:
    /// `checkpoint:height:block_hash:epoch:state_root`.
    pub fn create_checkpoint_data(&self, height: u64, block_hash: &str, epoch: u64, state_root: &str) -> (r: String)
        ensures
            r@ == checkpoint_payload(height, block_hash@, epoch, state_root@),
    {
        let mut s = String::from_str("checkpoint:");
        s.append(decimal_text(height).as_str());
        s.append(":");
        s.append(block_hash);
        s.append(":");
        s.append(decimal_text(epoch).as_str());
        s.append(":");
        s.append(state_root);
        s
    }

    /// Signs the checkpoint payload of the given values.
    pub fn sign_checkpoint(&self, height: u64, block_hash: &str, epoch: u64, state_root: &str, key_pair: &KeyPair)
        -> (r: Result<Signature, ConsensusError>)
        ensures
            key_pair.wf() ==> (r matches Ok(sig) && verify_outcome(utf8_bytes(checkpoint_payload(height, block_hash@, epoch,
                state_root@)), sig.signature@, sig.recovery_id, key_pair.public_key_text()) == Some(true)),
    {
        let data = self.create_checkpoint_data(height, block_hash, epoch, state_root);
        match key_pair.sign(data.as_str().as_bytes()) {
            Ok(s) => Ok(s),
            Err(_) => Err(ConsensusError::internal("Failed to sign checkpoint")),
        }
    }

    /// Verifies a checkpoint: it has signatures, each verifies over its
    /// payload, and the stake signed passes the stake gate. No signatures, or
    /// a malformed one, is an error; a signature by another key or too little
    /// stake gives `Ok(false)`.
    pub fn verify_checkpoint(&self, checkpoint: &Checkpoint) -> (r: Result<bool, ConsensusError>)
        ensures
            checkpoint.validator_signatures@.len() == 0 ==> (r matches Err(ConsensusError::SignatureVerificationFailed { .. })),
            checkpoint.validator_signatures@.len() > 0 ==> match sigs_outcome(
                utf8_bytes(checkpoint_payload(checkpoint.height, checkpoint.block_hash@, checkpoint.epoch, checkpoint.state_root@)),
                sig_models(checkpoint.validator_signatures@)) {
                None => r is Err,
                Some(false) => r == Ok::<bool, ConsensusError>(false),
                Some(true) => r == Ok::<bool, ConsensusError>(
                    stake_sufficient(checkpoint.total_stake_signed as nat, self.total_stake_spec() as nat)),
            },
            r == Ok::<bool, ConsensusError>(true) <==> checkpoint_verifies(*checkpoint, self.total_stake_spec()),
    {
        if checkpoint.validator_signatures.len() == 0 {
            return Err(ConsensusError::signature_verification_failed("No validator signatures in checkpoint"));
        }
        let data = self.create_checkpoint_data(checkpoint.height, checkpoint.block_hash.as_str(), checkpoint.epoch,
            checkpoint.state_root.as_str());
        let ghost payload = utf8_bytes(checkpoint_payload(checkpoint.height, checkpoint.block_hash@, checkpoint.epoch, checkpoint.state_root@));
        let ghost all = sig_models(checkpoint.validator_signatures@);
        assert(all.subrange(0, all.len() as int) =~= all);
        let msg = data.as_str().as_bytes();
        assert(msg@ == payload);
        let mut i: usize = 0;
        while i < checkpoint.validator_signatures.len()
            invariant
                i <= checkpoint.validator_signatures@.len(),
                checkpoint.validator_signatures@.len() > 0,
                data@ == checkpoint_payload(checkpoint.height, checkpoint.block_hash@, checkpoint.epoch, checkpoint.state_root@),
                all == sig_models(checkpoint.validator_signatures@),
                msg@ == payload,
                payload == utf8_bytes(checkpoint_payload(checkpoint.height, checkpoint.block_hash@, checkpoint.epoch, checkpoint.state_root@)),
                sigs_outcome(payload, all) == sigs_outcome(payload, all.subrange(i as int, all.len() as int)),
            decreases checkpoint.validator_signatures@.len() - i,
        {
            let vs = &checkpoint.validator_signatures[i];
            let ghost rest = all.subrange(i as int, all.len() as int);
            proof {
                assert(rest[0] == all[i as int]);
                assert(rest.subrange(1, rest.len() as int) =~= all.subrange(i as int + 1, all.len() as int));
                assert(all[i as int] == (vs.signature.signature@, vs.signature.recovery_id, vs.public_key@));
            }
            match KeyPair::verify(msg, &vs.signature, vs.public_key.as_str()) {
                Ok(true) => {},
                Ok(false) => {
                    assert(verify_outcome(payload, rest[0].0, rest[0].1, rest[0].2) == Some(false));
                    assert(sigs_outcome(payload, rest) == Some(false));
                    return Ok(false);
                },
                Err(e) => {
                    return Err(e);
                },
            }
            i = i + 1;
        }
        assert(all.subrange(all.len() as int, all.len() as int).len() == 0);
        Ok(self.stake_passes(checkpoint.total_stake_signed))
    }

    fn stake_passes(&self, signed: u64) -> (r: bool)
        ensures
            r == stake_sufficient(signed as nat, self.total_stake_spec() as nat),
    {
        if self.total_network_stake == 0 {
            return true;
        }
        (signed as u128) * 100 / (self.total_network_stake as u128) >= CHECKPOINT_STAKE_PERCENT as u128
    }

    /// Creates and stores a checkpoint of `block` signed by
    /// `validator_signatures`. Too little stake signed is a `ConfigError`; no
    /// signatures, or a checkpoint that does not verify, is a
    /// `SignatureVerificationFailed` (or the error verification gave). On an
    /// error nothing is stored.
    pub fn create_checkpoint(&mut self, block: &Block, validator_signatures: Vec<ValidatorSignature>)
        -> (r: Result<Checkpoint, ConsensusError>)
        requires
            stake_sum(validator_signatures@) <= u64::MAX,
        ensures
            final(self).total_stake_spec() == old(self).total_stake_spec(),
            final(self).interval_spec() == old(self).interval_spec(),
            final(self).wf() == old(self).wf(),
            !stake_sufficient(stake_sum(validator_signatures@), old(self).total_stake_spec() as nat)
                ==> (r matches Err(ConsensusError::ConfigError { .. })),
            stake_sufficient(stake_sum(validator_signatures@), old(self).total_stake_spec() as nat)
                && validator_signatures@.len() == 0 ==> (r matches Err(ConsensusError::SignatureVerificationFailed { .. })),
            r is Err ==> final(self).checkpoints_spec() == old(self).checkpoints_spec(),
            r is Ok <==> stake_sufficient(stake_sum(validator_signatures@), old(self).total_stake_spec() as nat)
                && validator_signatures@.len() > 0
                && sigs_outcome(utf8_bytes(checkpoint_payload(block.header.height, block.hash@, block.header.epoch,
                    block.header.merkle_root@)), sig_models(validator_signatures@)) == Some(true),
            r is Ok ==> r->Ok_0@ == (CheckpointModel {
                height: block.header.height,
                block_hash: block.hash@,
                epoch: block.header.epoch,
                total_stake_signed: stake_sum(validator_signatures@) as u64,
                state_root: block.header.merkle_root@,
            }) && final(self).checkpoints_spec() == old(self).checkpoints_spec().push(r->Ok_0@)
                && validator_signatures@.len() > 0,
    {
        let mut total: u64 = 0;
        let mut i: usize = 0;
        while i < validator_signatures.len()
            invariant
                i <= validator_signatures@.len(),
                stake_sum(validator_signatures@) <= u64::MAX,
                total as nat == stake_sum(validator_signatures@.subrange(0, i as int)),
            decreases validator_signatures@.len() - i,
        {
            proof {
                assert(validator_signatures@.subrange(0, i as int + 1).drop_last() =~= validator_signatures@.subrange(0, i as int));
                lemma_stake_sum_prefix(validator_signatures@, i as int + 1);
            }
            total = total + validator_signatures[i].stake;
            i = i + 1;
        }
        proof {
            assert(validator_signatures@.subrange(0, validator_signatures@.len() as int) =~= validator_signatures@);
        }
        if !self.stake_passes(total) {
            let mut msg = String::from_str("Insufficient stake for checkpoint: ");
            msg.append(decimal_text(total).as_str());
            msg.append(" of ");
            msg.append(decimal_text(self.total_network_stake).as_str());
            return Err(ConsensusError::config_error(msg.as_str()));
        }
        let checkpoint = Checkpoint {
            height: block.header.height,
            block_hash: block.hash.clone(),
            epoch: block.header.epoch,
            timestamp: now_millis(),
            validator_signatures,
            total_stake_signed: total,
            state_root: block.header.merkle_root.clone(),
        };
        match self.verify_checkpoint(&checkpoint) {
            Ok(true) => {},
            Ok(false) => {
                return Err(ConsensusError::signature_verification_failed("Checkpoint signatures do not verify"));
            },
            Err(e) => {
                return Err(e);
            },
        }
        let stored = checkpoint.copy();
        self.checkpoints.push(stored);
        proof {
            assert(self.checkpoints_spec() =~= old(self).checkpoints_spec().push(checkpoint@));
        }
        Ok(checkpoint)
    }

    /// A copy of the latest checkpoint, if any.
    pub fn get_latest_checkpoint(&self) -> (r: Option<Checkpoint>)
        ensures
            self.checkpoints_spec().len() == 0 ==> r is None,
            self.checkpoints_spec().len() > 0 ==> (r matches Some(cp) && cp@ == self.checkpoints_spec().last()
                && (checkpoint_verifies(cp, self.total_stake_spec()) <==> self.latest_verifies())),
    {
        let n = self.checkpoints.len();
        if n == 0 {
            None
        } else {
            Some(self.checkpoints[n - 1].copy())
        }
    }

    /// A copy of the oldest checkpoint at `height`, if any.
    pub fn get_checkpoint_at_height(&self, height: u64) -> (r: Option<Checkpoint>)
        ensures
            match r {
                Some(cp) => cp.height == height && exists|i: int| 0 <= i < self.checkpoints_spec().len()
                    && self.checkpoints_spec()[i] == cp@
                    && forall|k: int| 0 <= k < i ==> self.checkpoints_spec()[k].height != height,
                None => forall|i: int| 0 <= i < self.checkpoints_spec().len() ==> self.checkpoints_spec()[i].height != height,
            },
    {
        let mut i: usize = 0;
        while i < self.checkpoints.len()
            invariant
                i <= self.checkpoints@.len(),
                forall|k: int| 0 <= k < i ==> self.checkpoints_spec()[k].height != height,
            decreases self.checkpoints@.len() - i,
        {
            if self.checkpoints[i].height == height {
                let cp = self.checkpoints[i].copy();
                assert(self.checkpoints_spec()[i as int] == cp@);
                return Some(cp);
            }
            i = i + 1;
        }
        None
    }

    /// Copies of all checkpoints, oldest first.
    pub fn get_all_checkpoints(&self) -> (r: Vec<Checkpoint>)
        ensures
            Seq::new(r@.len(), |i: int| r@[i]@) == self.checkpoints_spec(),
    {
        let mut r: Vec<Checkpoint> = Vec::new();
        let mut i: usize = 0;
        while i < self.checkpoints.len()
            invariant
                i <= self.checkpoints@.len(),
                r@.len() == i,
                forall|k: int| 0 <= k < i ==> (#[trigger] r@[k])@ == self.checkpoints@[k]@,
            decreases self.checkpoints@.len() - i,
        {
            r.push(self.checkpoints[i].copy());
            i = i + 1;
        }
        assert(Seq::new(r@.len(), |i: int| r@[i]@) =~= self.checkpoints_spec());
        r
    }

    /// Keeps only the newest `keep_count` checkpoints.
    pub fn prune_old_checkpoints(&mut self, keep_count: usize)
        ensures
            old(self).checkpoints_spec().len() > keep_count ==> final(self).checkpoints_spec()
                == old(self).checkpoints_spec().subrange(old(self).checkpoints_spec().len() - keep_count,
                    old(self).checkpoints_spec().len() as int),
            old(self).checkpoints_spec().len() <= keep_count ==> final(self).checkpoints_spec() == old(self).checkpoints_spec(),
            final(self).interval_spec() == old(self).interval_spec(),
            final(self).total_stake_spec() == old(self).total_stake_spec(),
            final(self).wf() == old(self).wf(),
    {
        let n = self.checkpoints.len();
        if n <= keep_count {
            return;
        }
        let start = n - keep_count;
        let mut kept: Vec<Checkpoint> = Vec::new();
        let mut i: usize = start;
        while i < n
            invariant
                n == self.checkpoints@.len(),
                start <= i <= n,
                kept@.len() == i - start,
                forall|k: int| 0 <= k < kept@.len() ==> (#[trigger] kept@[k])@ == self.checkpoints@[start + k]@,
            decreases n - i,
        {
            kept.push(self.checkpoints[i].copy());
            i = i + 1;
        }
        let ghost before = self.checkpoints_spec();
        self.checkpoints = kept;
        assert(self.checkpoints_spec() =~= before.subrange(start as int, n as int));
    }

    /// Counts and averages over the stored checkpoints.
    pub fn get_checkpoint_statistics(&self) -> (r: CheckpointStatistics)
        ensures
            r.total_checkpoints == self.checkpoints_spec().len(),
            r.latest_checkpoint_height == if self.checkpoints_spec().len() == 0 { 0 } else { self.checkpoints_spec().last().height },
            r.checkpoint_interval == self.interval_spec(),
            r.total_network_stake == self.total_stake_spec(),
            self.checkpoints_spec().len() == 0 ==> r.average_stake_signed == 0,
            self.checkpoints_spec().len() > 0 ==> r.average_stake_signed as nat
                == signed_sum(self.checkpoints_spec()) / self.checkpoints_spec().len(),
    {
        let n = self.checkpoints.len();
        let ghost cs = self.checkpoints_spec();
        let mut sum: u128 = 0;
        let mut i: usize = 0;
        while i < n
            invariant
                n == cs.len(),
                cs == self.checkpoints_spec(),
                i <= n,
                sum as nat == signed_sum(cs.subrange(0, i as int)),
                sum <= i as nat * u64::MAX as nat,
            decreases n - i,
        {
            proof {
                assert(cs.subrange(0, i as int + 1).drop_last() =~= cs.subrange(0, i as int));
                assert(cs[i as int] == self.checkpoints@[i as int]@);
                assert(sum + self.checkpoints@[i as int].total_stake_signed <= (i as nat + 1) * u64::MAX as nat) by (nonlinear_arith)
                    requires sum <= i as nat * u64::MAX as nat, self.checkpoints@[i as int].total_stake_signed <= u64::MAX;
            }
            sum = sum + self.checkpoints[i].total_stake_signed as u128;
            i = i + 1;
        }
        proof {
            assert(cs.subrange(0, n as int) =~= cs);
        }
        let average: u64 = if n == 0 {
            0
        } else {
            proof {
                assert(sum / (n as u128) <= u64::MAX) by (nonlinear_arith)
                    requires sum <= n as nat * u64::MAX as nat, n >= 1;
            }
            (sum / (n as u128)) as u64
        };
        CheckpointStatistics {
            total_checkpoints: n,
            latest_checkpoint_height: if n == 0 { 0 } else { self.checkpoints[n - 1].height },
            checkpoint_interval: self.checkpoint_interval,
            average_stake_signed: average,
            total_network_stake: self.total_network_stake,
        }
    }

    /// The heights to replay after a checkpoint, up to `current_height`.
    pub fn get_blocks_since_checkpoint(&self, checkpoint: &Checkpoint, current_height: u64) -> (r: Vec<u64>)
        ensures
            r@ == Seq::new(if current_height > checkpoint.height { (current_height - checkpoint.height) as nat } else { 0 },
                |i: int| (checkpoint.height + 1 + i) as u64),
    {
        let mut r: Vec<u64> = Vec::new();
        if current_height <= checkpoint.height {
            assert(r@ =~= Seq::new(0, |i: int| (checkpoint.height + 1 + i) as u64));
            return r;
        }
        let mut h: u64 = checkpoint.height;
        while h < current_height
            invariant
                checkpoint.height <= h <= current_height,
                r@ == Seq::new((h - checkpoint.height) as nat, |i: int| (checkpoint.height + 1 + i) as u64),
            decreases current_height - h,
        {
            h = h + 1;
            r.push(h);
            assert(r@ =~= Seq::new((h - checkpoint.height) as nat, |i: int| (checkpoint.height + 1 + i) as u64));
        }
        r
    }
}

/// The sum of the stake signed over checkpoints.
pub open spec fn signed_sum(cs: Seq<CheckpointModel>) -> nat
    decreases cs.len(),
{
    if cs.len() == 0 {
        0
    } else {
        signed_sum(cs.drop_last()) + cs.last().total_stake_signed as nat
    }
}

proof fn lemma_stake_sum_prefix(sigs: Seq<ValidatorSignature>, i: int)
    requires
        0 <= i <= sigs.len(),
    ensures
        stake_sum(sigs.subrange(0, i)) <= stake_sum(sigs),
    decreases sigs.len(),
{
    if i < sigs.len() {
        assert(sigs.drop_last().subrange(0, i) =~= sigs.subrange(0, i));
        lemma_stake_sum_prefix(sigs.drop_last(), i);
    } else {
        assert(sigs.subrange(0, i) =~= sigs);
    }
}

} // verus!
