//! Transactions, blocks and votes, with the byte layouts that their hashes
//! and signatures cover.

use vstd::prelude::*;
use vstd::string::*;
use crate::crypto::{
    hex_decode, hex_decoded, hex_encode, hex_of, lemma_text_outcome, sha256, sha256_of, text_signature_outcome, utf8_bytes, KeyPair, Signature,
};
use crate::utils::{le_bytes, now_millis, push_bytes, push_le_bytes};

verus! {

/// What a transaction holds, as plain values.
pub struct TransactionModel {
    pub hash: Seq<char>,
    pub from: Seq<char>,
    pub to: Seq<char>,
    pub amount: u64,
    pub fee: u64,
    pub timestamp: u64,
    pub signature: Seq<char>,
    pub public_key: Seq<char>,
    pub data: Seq<u8>,
}

/// A transfer of tokens between two addresses.
#[derive(Debug)]
pub struct Transaction {
    /// Hex digest of the fields that are not the signature.
    pub hash: String,
    /// Sender address.
    pub from: String,
    /// Recipient address.
    pub to: String,
    /// Amount in the smallest unit.
    pub amount: u64,
    /// Fee in the smallest unit.
    pub fee: u64,
    /// Creation time, in milliseconds since the Unix epoch.
    pub timestamp: u64,
    /// Compact signature text, empty until signed.
    pub signature: String,
    /// Signer's public key as hex, empty until signed.
    pub public_key: String,
    /// Opaque payload.
    pub data: Vec<u8>,
}

impl View for Transaction {
    type V = TransactionModel;

    open spec fn view(&self) -> TransactionModel {
        TransactionModel {
            hash: self.hash@,
            from: self.from@,
            to: self.to@,
            amount: self.amount,
            fee: self.fee,
            timestamp: self.timestamp,
            signature: self.signature@,
            public_key: self.public_key@,
            data: self.data@,
        }
    }
}

impl Clone for Transaction {
    fn clone(&self) -> (r: Self)
        ensures
            r@ == self@,
    {
        Transaction {
            hash: self.hash.clone(),
            from: self.from.clone(),
            to: self.to.clone(),
            amount: self.amount,
            fee: self.fee,
            timestamp: self.timestamp,
            signature: self.signature.clone(),
            public_key: self.public_key.clone(),
            data: self.data.clone(),
        }
    }
}

/// The bytes a transaction hash covers.
pub open spec fn tx_hash_message(from: Seq<char>, to: Seq<char>, amount: u64, fee: u64, timestamp: u64) -> Seq<u8> {
    utf8_bytes(from) + utf8_bytes(to) + le_bytes(amount) + le_bytes(fee) + le_bytes(timestamp)
}

/// The hash of a transaction's fields: hex of their SHA-256 digest.
pub open spec fn tx_hash_text(from: Seq<char>, to: Seq<char>, amount: u64, fee: u64, timestamp: u64) -> Seq<char> {
    hex_of(sha256_of(tx_hash_message(from, to, amount, fee, timestamp)))
}

/// Whether a transaction's stored hash matches its fields.
pub open spec fn tx_hash_valid(t: TransactionModel) -> bool {
    t.hash == tx_hash_text(t.from, t.to, t.amount, t.fee, t.timestamp)
}

/// The bytes a transaction signature covers.
pub open spec fn tx_signing_message(t: TransactionModel) -> Seq<u8> {
    utf8_bytes(t.hash) + utf8_bytes(t.from) + utf8_bytes(t.to) + le_bytes(t.amount) + le_bytes(t.fee)
        + le_bytes(t.timestamp) + t.data
}

/// Whether a transaction created at `timestamp` has expired at `now` under a
/// maximum age.
pub open spec fn expired(timestamp: u64, now: u64, max_age_ms: u64) -> bool {
    now as int - timestamp as int > max_age_ms as int
}

impl Transaction {
    /// A transaction created now.
    pub fn new(from: String, to: String, amount: u64, fee: u64) -> (r: Transaction)
        ensures
            r@.from == from@,
            r@.to == to@,
            r@.amount == amount,
            r@.fee == fee,
            tx_hash_valid(r@),
            r@.signature.len() == 0,
            r@.public_key.len() == 0,
            r@.data.len() == 0,
    {
        Transaction::new_at(from, to, amount, fee, now_millis())
    }

    /// A transaction created at `timestamp`.
    pub fn new_at(from: String, to: String, amount: u64, fee: u64, timestamp: u64) -> (r: Transaction)
        ensures
            r@.from == from@,
            r@.to == to@,
            r@.amount == amount,
            r@.fee == fee,
            r@.timestamp == timestamp,
            tx_hash_valid(r@),
            r@.signature.len() == 0,
            r@.public_key.len() == 0,
            r@.data.len() == 0,
    {
        let hash = Transaction::calculate_tx_hash(from.as_str(), to.as_str(), amount, fee, timestamp);
        Transaction {
            hash,
            from,
            to,
            amount,
            fee,
            timestamp,
            signature: String::new(),
            public_key: String::new(),
            data: Vec::new(),
        }
    }

    /// The hash of a transaction's fields.
    pub fn calculate_tx_hash(from: &str, to: &str, amount: u64, fee: u64, timestamp: u64) -> (r: String)
        ensures
            r@ == tx_hash_text(from@, to@, amount, fee, timestamp),
    {
        let mut m: Vec<u8> = Vec::new();
        push_bytes(&mut m, from.as_bytes());
        push_bytes(&mut m, to.as_bytes());
        push_le_bytes(&mut m, amount);
        push_le_bytes(&mut m, fee);
        push_le_bytes(&mut m, timestamp);
        let d = sha256(m.as_slice());
        hex_encode(d.as_slice())
    }

    /// Whether the stored hash matches the fields.
    pub fn verify_hash(&self) -> (r: bool)
        ensures
            r == tx_hash_valid(self@),
    {
        let h = Transaction::calculate_tx_hash(self.from.as_str(), self.to.as_str(), self.amount, self.fee, self.timestamp);
        h == self.hash
    }

    /// Whether the transaction has expired at `now`: it is older than
    /// `max_age_ms`.
    pub fn is_expired(&self, now: u64, max_age_ms: u64) -> (r: bool)
        ensures
            r == expired(self.timestamp, now, max_age_ms),
    {
        now > self.timestamp && now - self.timestamp > max_age_ms
    }

    fn signing_message(&self) -> (r: Vec<u8>)
        ensures
            r@ == tx_signing_message(self@),
    {
        let mut m: Vec<u8> = Vec::new();
        push_bytes(&mut m, self.hash.as_str().as_bytes());
        push_bytes(&mut m, self.from.as_str().as_bytes());
        push_bytes(&mut m, self.to.as_str().as_bytes());
        push_le_bytes(&mut m, self.amount);
        push_le_bytes(&mut m, self.fee);
        push_le_bytes(&mut m, self.timestamp);
        push_bytes(&mut m, self.data.as_slice());
        m
    }

    /// Signs the transaction, setting its signature text and public key.
    /// Nothing but the signature and the public key changes.
    pub fn sign(&mut self, key_pair: &KeyPair) -> (r: Result<(), String>)
        ensures
            final(self)@.hash == old(self)@.hash,
            final(self)@.from == old(self)@.from,
            final(self)@.to == old(self)@.to,
            final(self)@.amount == old(self)@.amount,
            final(self)@.fee == old(self)@.fee,
            final(self)@.timestamp == old(self)@.timestamp,
            final(self)@.data == old(self)@.data,
            r is Ok ==> final(self)@.signature.len() > 0 && final(self)@.public_key == key_pair.public_key_text(),
            key_pair.wf() ==> r is Ok && text_signature_outcome(tx_signing_message(final(self)@), final(self)@.signature,
                final(self)@.public_key) == Some(true),
    {
        let m = self.signing_message();
        match key_pair.sign(m.as_slice()) {
            Ok(sig) => {
                proof {
                    if key_pair.wf() {
                        let b = choose|b: Seq<u8>| b.len() == 64 && #[trigger] hex_of(b) == sig.signature@;
                        key_pair.lemma_key_text();
                        lemma_text_outcome(m@, b, sig.recovery_id, key_pair.public_key_text());
                    }
                }
                let text = sig.to_text();
                self.signature = text;
                self.public_key = key_pair.public_key_hex();
                Ok(())
            },
            Err(_) => Err(String::from_str("Failed to sign transaction")),
        }
    }

    /// Checks the transaction's signature against its public key. An unsigned
    /// transaction, or one whose signature text cannot be read, is an error.
    pub fn verify_signature(&self) -> (r: Result<bool, String>)
        ensures
            match text_signature_outcome(tx_signing_message(self@), self@.signature, self@.public_key) {
                Some(b) => r == Ok::<bool, String>(b),
                None => r is Err,
            },
    {
        if self.signature.as_str().unicode_len() == 0 {
            return Err(String::from_str("Transaction has no signature"));
        }
        if self.public_key.as_str().unicode_len() == 0 {
            return Err(String::from_str("Transaction has no public key"));
        }
        let sig = match Signature::from_text(self.signature.as_str()) {
            Some(s) => s,
            None => {
                return Err(String::from_str("Failed to read signature"));
            },
        };
        let m = self.signing_message();
        match KeyPair::verify(m.as_slice(), &sig, self.public_key.as_str()) {
            Ok(b) => Ok(b),
            Err(_) => Err(String::from_str("Transaction signature verification failed")),
        }
    }
}

} // verus!

verus! {

/// What a block header holds, as plain values.
pub struct BlockHeaderModel {
    pub height: u64,
    pub epoch: u64,
    pub previous_hash: Seq<char>,
    pub merkle_root: Seq<char>,
    pub timestamp: u64,
    pub difficulty: u32,
    pub nonce: u64,
    pub validator_id: Seq<char>,
    pub emotional_score: u8,
    pub consensus_strength: u8,
}

/// Block metadata that the hash and signature cover.
#[derive(Debug)]
pub struct BlockHeader {
    /// Position in the chain, starting at 1.
    pub height: u64,
    /// Epoch in which the block was proposed.
    pub epoch: u64,
    /// Hash of the previous block, or 64 zeros for the first.
    pub previous_hash: String,
    /// Merkle root of the transaction hashes.
    pub merkle_root: String,
    /// Creation time, in milliseconds since the Unix epoch.
    pub timestamp: u64,
    /// Unused; always 0.
    pub difficulty: u32,
    /// Unused; always 0.
    pub nonce: u64,
    /// Id of the proposing validator.
    pub validator_id: String,
    /// Emotional score of the proposer, 0 to 100.
    pub emotional_score: u8,
    /// Consensus strength in percent.
    pub consensus_strength: u8,
}

impl View for BlockHeader {
    type V = BlockHeaderModel;

    open spec fn view(&self) -> BlockHeaderModel {
        BlockHeaderModel {
            height: self.height,
            epoch: self.epoch,
            previous_hash: self.previous_hash@,
            merkle_root: self.merkle_root@,
            timestamp: self.timestamp,
            difficulty: self.difficulty,
            nonce: self.nonce,
            validator_id: self.validator_id@,
            emotional_score: self.emotional_score,
            consensus_strength: self.consensus_strength,
        }
    }
}

impl Clone for BlockHeader {
    fn clone(&self) -> (r: Self)
        ensures
            r@ == self@,
    {
        BlockHeader {
            height: self.height,
            epoch: self.epoch,
            previous_hash: self.previous_hash.clone(),
            merkle_root: self.merkle_root.clone(),
            timestamp: self.timestamp,
            difficulty: self.difficulty,
            nonce: self.nonce,
            validator_id: self.validator_id.clone(),
            emotional_score: self.emotional_score,
            consensus_strength: self.consensus_strength,
        }
    }
}

/// Consensus metadata attached to a block when it is finalized.
#[derive(Debug)]
pub struct ConsensusMetadata {
    /// Number of votes counted.
    pub participant_count: usize,
    /// Consensus strength achieved, in percent.
    pub consensus_strength: u8,
    /// Average emotional score of the voters.
    pub emotional_fitness: u8,
    /// Number of votes dropped for Byzantine behaviour.
    pub byzantine_failures: usize,
    /// Finalization time, in milliseconds since the Unix epoch.
    pub finalized_at: u64,
    /// Ids of the committee members.
    pub participants: Vec<String>,
}

/// A copy of a list of strings with the same texts.
pub fn clone_strings(v: &Vec<String>) -> (r: Vec<String>)
    ensures
        r@.len() == v@.len(),
        forall|i: int| 0 <= i < v@.len() ==> #[trigger] r@[i]@ == v@[i]@,
{
    let mut r: Vec<String> = Vec::new();
    let mut i: usize = 0;
    while i < v.len()
        invariant
            i <= v@.len(),
            r@.len() == i,
            forall|j: int| 0 <= j < i ==> #[trigger] r@[j]@ == v@[j]@,
        decreases v@.len() - i,
    {
        r.push(v[i].clone());
        i = i + 1;
    }
    r
}

impl Clone for ConsensusMetadata {
    fn clone(&self) -> (r: Self)
        ensures
            r.participant_count == self.participant_count,
            r.consensus_strength == self.consensus_strength,
            r.emotional_fitness == self.emotional_fitness,
            r.byzantine_failures == self.byzantine_failures,
            r.finalized_at == self.finalized_at,
    {
        ConsensusMetadata {
            participant_count: self.participant_count,
            consensus_strength: self.consensus_strength,
            emotional_fitness: self.emotional_fitness,
            byzantine_failures: self.byzantine_failures,
            finalized_at: self.finalized_at,
            participants: clone_strings(&self.participants),
        }
    }
}

/// What a block holds, as plain values; the finalization metadata is left
/// out.
pub struct BlockModel {
    pub header: BlockHeaderModel,
    pub hash: Seq<char>,
    pub transactions: Seq<TransactionModel>,
    pub signature: Seq<char>,
    pub proposer_public_key: Seq<char>,
}

/// A block of transactions.
#[derive(Debug)]
pub struct Block {
    /// Header.
    pub header: BlockHeader,
    /// Hex digest of the header and the transaction hashes.
    pub hash: String,
    /// Transactions in order.
    pub transactions: Vec<Transaction>,
    /// Compact signature text of the proposer, empty until signed.
    pub signature: String,
    /// Proposer's public key as hex, empty until signed.
    pub proposer_public_key: String,
    /// Serialized emotional proof, if any.
    pub emotional_proof: Option<Vec<u8>>,
    /// Consensus metadata, attached at finalization.
    pub consensus_metadata: Option<ConsensusMetadata>,
}

/// The views of a list of transactions.
pub open spec fn tx_models(txs: Seq<Transaction>) -> Seq<TransactionModel> {
    Seq::new(txs.len(), |i: int| txs[i]@)
}

impl View for Block {
    type V = BlockModel;

    open spec fn view(&self) -> BlockModel {
        BlockModel {
            header: self.header@,
            hash: self.hash@,
            transactions: tx_models(self.transactions@),
            signature: self.signature@,
            proposer_public_key: self.proposer_public_key@,
        }
    }
}

/// A copy of a list of transactions with the same views.
pub fn clone_transactions(v: &Vec<Transaction>) -> (r: Vec<Transaction>)
    ensures
        tx_models(r@) == tx_models(v@),
{
    let mut r: Vec<Transaction> = Vec::new();
    let mut i: usize = 0;
    while i < v.len()
        invariant
            i <= v@.len(),
            r@.len() == i,
            forall|j: int| 0 <= j < i ==> #[trigger] r@[j]@ == v@[j]@,
        decreases v@.len() - i,
    {
        r.push(v[i].clone());
        i = i + 1;
    }
    assert(tx_models(r@) =~= tx_models(v@));
    r
}

impl Clone for Block {
    fn clone(&self) -> (r: Self)
        ensures
            r@ == self@,
    {
        let emotional_proof = match &self.emotional_proof {
            Some(p) => Some(p.clone()),
            None => None,
        };
        let consensus_metadata = match &self.consensus_metadata {
            Some(m) => Some(m.clone()),
            None => None,
        };
        Block {
            header: self.header.clone(),
            hash: self.hash.clone(),
            transactions: clone_transactions(&self.transactions),
            signature: self.signature.clone(),
            proposer_public_key: self.proposer_public_key.clone(),
            emotional_proof,
            consensus_metadata,
        }
    }
}

/// The bytes of the transaction hashes, in order.
pub open spec fn tx_hash_bytes(txs: Seq<TransactionModel>) -> Seq<u8>
    decreases txs.len(),
{
    if txs.len() == 0 {
        Seq::empty()
    } else {
        tx_hash_bytes(txs.drop_last()) + utf8_bytes(txs.last().hash)
    }
}

/// The header bytes that the hash and the signature of a block cover.
pub open spec fn header_bytes(h: BlockHeaderModel) -> Seq<u8> {
    le_bytes(h.height) + le_bytes(h.epoch) + utf8_bytes(h.previous_hash) + utf8_bytes(h.merkle_root)
        + le_bytes(h.timestamp) + utf8_bytes(h.validator_id) + seq![h.emotional_score]
}

/// The hash of a block: hex of the SHA-256 digest of its header bytes and
/// transaction hashes.
pub open spec fn block_hash_text(h: BlockHeaderModel, txs: Seq<TransactionModel>) -> Seq<char> {
    hex_of(sha256_of(header_bytes(h) + tx_hash_bytes(txs)))
}

/// The bytes a block signature covers: header, block hash and transaction
/// hashes.
pub open spec fn block_signing_message(b: BlockModel) -> Seq<u8> {
    header_bytes(b.header) + utf8_bytes(b.hash) + tx_hash_bytes(b.transactions)
}

/// The leaf of a transaction hash in the Merkle tree: the bytes its hex
/// encodes, or nothing when it is not hex.
pub open spec fn merkle_leaf(hash: Seq<char>) -> Seq<u8> {
    match hex_decoded(utf8_bytes(hash)) {
        Some(b) => b,
        None => Seq::empty(),
    }
}

/// The node above a pair of Merkle nodes.
pub open spec fn merkle_parent(a: Seq<u8>, b: Seq<u8>) -> Seq<u8> {
    sha256_of(a + b)
}

/// One level up a Merkle tree; a last node without a partner is paired with
/// itself.
pub open spec fn merkle_level(level: Seq<Seq<u8>>) -> Seq<Seq<u8>> {
    Seq::new(
        ((level.len() + 1) / 2) as nat,
        |i: int|
            if 2 * i + 1 < level.len() {
                merkle_parent(level[2 * i], level[2 * i + 1])
            } else {
                merkle_parent(level[2 * i], level[2 * i])
            },
    )
}

/// The root above a non-empty Merkle level.
pub open spec fn merkle_top(level: Seq<Seq<u8>>) -> Seq<u8>
    decreases level.len(),
{
    if level.len() <= 1 {
        level[0]
    } else {
        merkle_top(merkle_level(level))
    }
}

/// The Merkle root of transactions as hex: of their hash leaves, or of the
/// digest of `empty` when there are none.
pub open spec fn merkle_root_text(txs: Seq<TransactionModel>) -> Seq<char> {
    if txs.len() == 0 {
        hex_of(sha256_of(seq![101u8, 109u8, 112u8, 116u8, 121u8]))
    } else {
        hex_of(merkle_top(Seq::new(txs.len(), |i: int| merkle_leaf(txs[i].hash))))
    }
}

/// Whether a block's stored hash and Merkle root match its contents.
pub open spec fn block_hashes_valid(b: BlockModel) -> bool {
    b.hash == block_hash_text(b.header, b.transactions)
        && b.header.merkle_root == merkle_root_text(b.transactions)
}

fn push_tx_hashes(m: &mut Vec<u8>, txs: &Vec<Transaction>)
    ensures
        final(m)@ == old(m)@ + tx_hash_bytes(tx_models(txs@)),
{
    let ghost start = m@;
    let mut i: usize = 0;
    while i < txs.len()
        invariant
            i <= txs@.len(),
            m@ == start + tx_hash_bytes(tx_models(txs@).subrange(0, i as int)),
        decreases txs@.len() - i,
    {
        push_bytes(m, txs[i].hash.as_str().as_bytes());
        proof {
            let s = tx_models(txs@).subrange(0, i as int + 1);
            assert(s.drop_last() =~= tx_models(txs@).subrange(0, i as int));
        }
        i = i + 1;
    }
    assert(tx_models(txs@).subrange(0, txs@.len() as int) =~= tx_models(txs@));
}

fn push_header(m: &mut Vec<u8>, h: &BlockHeader)
    ensures
        final(m)@ == old(m)@ + header_bytes(h@),
{
    let ghost start = m@;
    push_le_bytes(m, h.height);
    push_le_bytes(m, h.epoch);
    push_bytes(m, h.previous_hash.as_str().as_bytes());
    push_bytes(m, h.merkle_root.as_str().as_bytes());
    push_le_bytes(m, h.timestamp);
    push_bytes(m, h.validator_id.as_str().as_bytes());
    m.push(h.emotional_score);
    assert(m@ =~= start + header_bytes(h@));
}

proof fn lemma_merkle_level_shorter(level: Seq<Seq<u8>>)
    requires
        level.len() > 1,
    ensures
        merkle_level(level).len() < level.len(),
{
}

/// Computes the Merkle root of a non-empty level of nodes.
fn merkle_reduce(level: Vec<Vec<u8>>) -> (r: Vec<u8>)
    requires
        level@.len() > 0,
    ensures
        r@ == merkle_top(Seq::new(level@.len(), |i: int| level@[i]@)),
    decreases level@.len(),
{
    let ghost lv = Seq::new(level@.len(), |i: int| level@[i]@);
    if level.len() == 1 {
        return level[0].clone();
    }
    let mut next: Vec<Vec<u8>> = Vec::new();
    let mut i: usize = 0;
    let n = level.len();
    while i < n
        invariant
            n == level@.len(),
            n > 1,
            lv == Seq::new(level@.len(), |k: int| level@[k]@),
            i % 2 == 0 || i == n,
            i <= n,
            next@.len() == (i + 1) / 2,
            forall|k: int| 0 <= k < next@.len() ==> #[trigger] next@[k]@ == merkle_level(lv)[k],
        decreases n - i,
    {
        let mut joined: Vec<u8> = Vec::new();
        push_bytes(&mut joined, level[i].as_slice());
        if i + 1 < n {
            push_bytes(&mut joined, level[i + 1].as_slice());
        } else {
            push_bytes(&mut joined, level[i].as_slice());
        }
        let node = sha256(joined.as_slice());
        next.push(node);
        i = if n - i >= 2 { i + 2 } else { n };
    }
    proof {
        lemma_merkle_level_shorter(lv);
        assert(Seq::new(next@.len(), |k: int| next@[k]@) =~= merkle_level(lv));
    }
    merkle_reduce(next)
}

impl Block {
    /// A block created now; see `new_at`.
    pub fn new(
        height: u64,
        epoch: u64,
        previous_hash: String,
        validator_id: String,
        emotional_score: u8,
        transactions: Vec<Transaction>,
    ) -> (r: Block)
        ensures
            r@.header.height == height,
            r@.header.epoch == epoch,
            r@.header.previous_hash == previous_hash@,
            r@.header.validator_id == validator_id@,
            r@.header.emotional_score == emotional_score,
            r@.header.consensus_strength == 0,
            r@.transactions == tx_models(transactions@),
            block_hashes_valid(r@),
            r@.signature.len() == 0,
            r@.proposer_public_key.len() == 0,
            r.consensus_metadata is None,
    {
        Block::new_at(height, epoch, previous_hash, validator_id, emotional_score, transactions, now_millis())
    }

    /// A block with the given contents and creation time: its Merkle root and
    /// hash are computed, and it is unsigned.
    pub fn new_at(
        height: u64,
        epoch: u64,
        previous_hash: String,
        validator_id: String,
        emotional_score: u8,
        transactions: Vec<Transaction>,
        timestamp: u64,
    ) -> (r: Block)
        ensures
            r@.header.height == height,
            r@.header.epoch == epoch,
            r@.header.previous_hash == previous_hash@,
            r@.header.validator_id == validator_id@,
            r@.header.emotional_score == emotional_score,
            r@.header.timestamp == timestamp,
            r@.header.consensus_strength == 0,
            r@.transactions == tx_models(transactions@),
            block_hashes_valid(r@),
            r@.signature.len() == 0,
            r@.proposer_public_key.len() == 0,
            r.consensus_metadata is None,
    {
        let merkle_root = Block::calculate_merkle_root(&transactions);
        let header = BlockHeader {
            height,
            epoch,
            previous_hash,
            merkle_root,
            timestamp,
            difficulty: 0,
            nonce: 0,
            validator_id,
            emotional_score,
            consensus_strength: 0,
        };
        let hash = Block::calculate_block_hash(&header, &transactions);
        Block {
            header,
            hash,
            transactions,
            signature: String::new(),
            proposer_public_key: String::new(),
            emotional_proof: None,
            consensus_metadata: None,
        }
    }

    /// The hash of a header and transactions.
    pub fn calculate_block_hash(header: &BlockHeader, transactions: &Vec<Transaction>) -> (r: String)
        ensures
            r@ == block_hash_text(header@, tx_models(transactions@)),
    {
        let mut m: Vec<u8> = Vec::new();
        push_header(&mut m, header);
        push_tx_hashes(&mut m, transactions);
        let d = sha256(m.as_slice());
        hex_encode(d.as_slice())
    }

    /// The Merkle root of the transaction hashes as hex.
    pub fn calculate_merkle_root(transactions: &Vec<Transaction>) -> (r: String)
        ensures
            r@ == merkle_root_text(tx_models(transactions@)),
    {
        if transactions.len() == 0 {
            let mut e: Vec<u8> = Vec::new();
            e.push(101u8);
            e.push(109u8);
            e.push(112u8);
            e.push(116u8);
            e.push(121u8);
            assert(e@ =~= seq![101u8, 109u8, 112u8, 116u8, 121u8]);
            let d = sha256(e.as_slice());
            return hex_encode(d.as_slice());
        }
        let mut leaves: Vec<Vec<u8>> = Vec::new();
        let mut i: usize = 0;
        while i < transactions.len()
            invariant
                i <= transactions@.len(),
                leaves@.len() == i,
                forall|k: int| 0 <= k < i ==> #[trigger] leaves@[k]@ == merkle_leaf(transactions@[k].hash@),
            decreases transactions@.len() - i,
        {
            let leaf = match hex_decode(transactions[i].hash.as_str().as_bytes()) {
                Some(b) => b,
                None => Vec::new(),
            };
            leaves.push(leaf);
            i = i + 1;
        }
        let ghost txs = tx_models(transactions@);
        assert(Seq::new(leaves@.len(), |k: int| leaves@[k]@) =~= Seq::new(txs.len(), |k: int| merkle_leaf(txs[k].hash)));
        let root = merkle_reduce(leaves);
        hex_encode(root.as_slice())
    }

    /// Whether the stored hash matches the header and transactions.
    pub fn verify_hash(&self) -> (r: bool)
        ensures
            r == (self@.hash == block_hash_text(self@.header, self@.transactions)),
    {
        let h = Block::calculate_block_hash(&self.header, &self.transactions);
        h == self.hash
    }

    fn signing_message(&self) -> (r: Vec<u8>)
        ensures
            r@ == block_signing_message(self@),
    {
        let mut m: Vec<u8> = Vec::new();
        push_header(&mut m, &self.header);
        push_bytes(&mut m, self.hash.as_str().as_bytes());
        push_tx_hashes(&mut m, &self.transactions);
        assert(m@ =~= block_signing_message(self@));
        m
    }

    /// Signs the block, setting its signature text and the proposer's public
    /// key. Nothing else changes.
    pub fn sign(&mut self, key_pair: &KeyPair) -> (r: Result<(), String>)
        ensures
            final(self)@.header == old(self)@.header,
            final(self)@.hash == old(self)@.hash,
            final(self)@.transactions == old(self)@.transactions,
            final(self).consensus_metadata == old(self).consensus_metadata,
            r is Ok ==> final(self)@.signature.len() > 0 && final(self)@.proposer_public_key == key_pair.public_key_text(),
            key_pair.wf() ==> r is Ok && text_signature_outcome(block_signing_message(final(self)@), final(self)@.signature,
                final(self)@.proposer_public_key) == Some(true),
    {
        let m = self.signing_message();
        match key_pair.sign(m.as_slice()) {
            Ok(sig) => {
                proof {
                    if key_pair.wf() {
                        let b = choose|b: Seq<u8>| b.len() == 64 && #[trigger] hex_of(b) == sig.signature@;
                        key_pair.lemma_key_text();
                        lemma_text_outcome(m@, b, sig.recovery_id, key_pair.public_key_text());
                    }
                }
                self.signature = sig.to_text();
                self.proposer_public_key = key_pair.public_key_hex();
                Ok(())
            },
            Err(_) => Err(String::from_str("Failed to sign block")),
        }
    }

    /// Checks the block's signature against the proposer's public key. An
    /// unsigned block, or one whose signature text cannot be read, is an
    /// error.
    pub fn verify_signature(&self) -> (r: Result<bool, String>)
        ensures
            match text_signature_outcome(block_signing_message(self@), self@.signature, self@.proposer_public_key) {
                Some(b) => r == Ok::<bool, String>(b),
                None => r is Err,
            },
    {
        if self.signature.as_str().unicode_len() == 0 {
            return Err(String::from_str("Block has no signature"));
        }
        if self.proposer_public_key.as_str().unicode_len() == 0 {
            return Err(String::from_str("Block has no public key"));
        }
        let sig = match Signature::from_text(self.signature.as_str()) {
            Some(s) => s,
            None => {
                return Err(String::from_str("Failed to read signature"));
            },
        };
        let m = self.signing_message();
        match KeyPair::verify(m.as_slice(), &sig, self.proposer_public_key.as_str()) {
            Ok(b) => Ok(b),
            Err(_) => Err(String::from_str("Signature verification failed")),
        }
    }
}

/// Recomputing a new block's hash from its stored header and transactions
/// gives the stored hash, and recomputing its Merkle root from its stored
/// transactions gives the stored root.
pub proof fn lemma_new_block_hashes_recompute(b: BlockModel)
    requires
        block_hashes_valid(b),
    ensures
        block_hash_text(b.header, b.transactions) == b.hash,
        merkle_root_text(b.transactions) == b.header.merkle_root,
{
}

} // verus!

verus! {

/// What a vote holds, as plain values; the reason is left out.
pub struct VoteModel {
    pub validator_id: Seq<char>,
    pub block_hash: Seq<char>,
    pub epoch: u64,
    pub round: u64,
    pub emotional_score: u8,
    pub approved: bool,
}

/// A committee member's verdict on a proposed block.
#[derive(Debug)]
pub struct Vote {
    /// Id of the voter.
    pub validator_id: String,
    /// Hash of the block voted on.
    pub block_hash: String,
    /// Epoch of the vote.
    pub epoch: u64,
    /// Round within the epoch.
    pub round: u64,
    /// Voter's emotional score when voting.
    pub emotional_score: u8,
    /// Signature text, empty when unsigned.
    pub signature: String,
    /// Time of the vote, in milliseconds since the Unix epoch.
    pub timestamp: u64,
    /// Whether the vote approves the block.
    pub approved: bool,
    /// Why the block was rejected, if it was.
    pub reason: Option<String>,
}

impl View for Vote {
    type V = VoteModel;

    open spec fn view(&self) -> VoteModel {
        VoteModel {
            validator_id: self.validator_id@,
            block_hash: self.block_hash@,
            epoch: self.epoch,
            round: self.round,
            emotional_score: self.emotional_score,
            approved: self.approved,
        }
    }
}

impl Clone for Vote {
    fn clone(&self) -> (r: Self)
        ensures
            r@ == self@,
            r.timestamp == self.timestamp,
    {
        let reason = match &self.reason {
            Some(s) => Some(s.clone()),
            None => None,
        };
        Vote {
            validator_id: self.validator_id.clone(),
            block_hash: self.block_hash.clone(),
            epoch: self.epoch,
            round: self.round,
            emotional_score: self.emotional_score,
            signature: self.signature.clone(),
            timestamp: self.timestamp,
            approved: self.approved,
            reason,
        }
    }
}

impl Vote {
    /// A vote cast now, without a reason.
    pub fn new(
        validator_id: String,
        block_hash: String,
        epoch: u64,
        round: u64,
        emotional_score: u8,
        approved: bool,
    ) -> (r: Vote)
        ensures
            r@ == (VoteModel {
                validator_id: validator_id@,
                block_hash: block_hash@,
                epoch,
                round,
                emotional_score,
                approved,
            }),
            r.reason is None,
            r.signature@.len() == 0,
    {
        Vote::new_at(validator_id, block_hash, epoch, round, emotional_score, approved, now_millis())
    }

    /// A vote cast at `timestamp`, without a reason.
    pub fn new_at(
        validator_id: String,
        block_hash: String,
        epoch: u64,
        round: u64,
        emotional_score: u8,
        approved: bool,
        timestamp: u64,
    ) -> (r: Vote)
        ensures
            r@ == (VoteModel {
                validator_id: validator_id@,
                block_hash: block_hash@,
                epoch,
                round,
                emotional_score,
                approved,
            }),
            r.timestamp == timestamp,
            r.reason is None,
            r.signature@.len() == 0,
    {
        Vote {
            validator_id,
            block_hash,
            epoch,
            round,
            emotional_score,
            signature: String::new(),
            timestamp,
            approved,
            reason: None,
        }
    }
}

/// The outcome of a voting round.
#[derive(Debug)]
pub struct VotingResult {
    /// Whether the approvals reached the quorum.
    pub success: bool,
    /// Approvals as a percentage of the committee.
    pub consensus_strength: u8,
    /// Number of votes counted.
    pub participant_count: usize,
    /// Number of votes dropped for Byzantine behaviour.
    pub byzantine_count: usize,
    /// Average emotional score of the counted voters.
    pub average_emotional_score: u8,
    /// Ids of the committee members.
    pub participants: Vec<String>,
    /// The counted votes.
    pub votes: Vec<Vote>,
    /// Why the round failed, if it did.
    pub reason: Option<String>,
}

} // verus!
