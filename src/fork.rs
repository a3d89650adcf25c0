//! Fork detection and the deterministic fork-choice rule.

use vstd::prelude::*;
use vstd::string::*;
use crate::error::ConsensusError;
use crate::types::Block;
use crate::utils::{now_millis, text_eq};

verus! {

/// What the fork choice needs of a block.
pub struct BlockMetaModel {
    pub hash: Seq<char>,
    pub height: u64,
    pub emotional_score: u8,
    pub consensus_strength: u8,
    pub timestamp: u64,
}

/// What the fork choice needs of a recorded block.
#[derive(Debug)]
pub struct BlockMeta {
    /// Block hash.
    pub hash: String,
    /// Block height.
    pub height: u64,
    /// Proposer's emotional score.
    pub emotional_score: u8,
    /// Consensus strength in the header.
    pub consensus_strength: u8,
    /// Block timestamp.
    pub timestamp: u64,
}

impl View for BlockMeta {
    type V = BlockMetaModel;

    open spec fn view(&self) -> BlockMetaModel {
        BlockMetaModel {
            hash: self.hash@,
            height: self.height,
            emotional_score: self.emotional_score,
            consensus_strength: self.consensus_strength,
            timestamp: self.timestamp,
        }
    }
}

/// A detected fork.
#[derive(Debug)]
pub struct ForkInfo {
    /// Height of the fork.
    pub height: u64,
    /// Hashes of the competing blocks.
    pub competing_hashes: Vec<String>,
    /// Time of detection, in milliseconds since the Unix epoch.
    pub detected_at: u64,
    /// Rule that resolved the fork, once resolved.
    pub resolution_method: Option<String>,
    /// Winning hash, once resolved.
    pub winning_hash: Option<String>,
}

/// What a fork record holds, as plain values.
pub struct ForkModel {
    pub height: u64,
    pub competing: Seq<Seq<char>>,
    pub winning: Option<Seq<char>>,
}

/// The view of a fork record.
pub open spec fn fork_model(f: ForkInfo) -> ForkModel {
    ForkModel {
        height: f.height,
        competing: Seq::new(f.competing_hashes@.len(), |j: int| f.competing_hashes@[j]@),
        winning: match f.winning_hash {
            Some(h) => Some(h@),
            None => None,
        },
    }
}

/// The hashes of the records at a height, in record order.
pub open spec fn hashes_in_order(v: Seq<BlockMetaModel>, height: u64) -> Seq<Seq<char>>
    decreases v.len(),
{
    if v.len() == 0 {
        Seq::empty()
    } else if v.last().height == height {
        hashes_in_order(v.drop_last(), height).push(v.last().hash)
    } else {
        hashes_in_order(v.drop_last(), height)
    }
}

/// The position of the first unresolved fork record at a height, if any.
pub open spec fn first_open(forks: Seq<ForkModel>, height: u64) -> Option<int> {
    if exists|k: int| 0 <= k < forks.len() && forks[k].height == height && forks[k].winning is None {
        Some(choose|k: int| 0 <= k < forks.len() && forks[k].height == height && forks[k].winning is None
            && forall|j: int| 0 <= j < k ==> !(forks[j].height == height && forks[j].winning is None))
    } else {
        None
    }
}

/// Counts of forks and heights.
#[derive(Debug, Clone, Copy)]
pub struct ForkStatistics {
    /// Forks detected.
    pub total_forks: usize,
    /// Forks resolved.
    pub resolved_forks: usize,
    /// Forks awaiting resolution.
    pub unresolved_forks: usize,
    /// Heights at which blocks are recorded.
    pub heights_with_forks: usize,
}

/// Lexicographic order of texts by character code.
pub open spec fn text_less(a: Seq<char>, b: Seq<char>) -> bool
    decreases a.len(),
{
    if a.len() == 0 {
        b.len() > 0
    } else if b.len() == 0 {
        false
    } else if a[0] != b[0] {
        (a[0] as u32) < (b[0] as u32)
    } else {
        text_less(a.subrange(1, a.len() as int), b.subrange(1, b.len() as int))
    }
}

/// The fork-choice order: whether block `a` beats block `b`. Higher emotional
/// score wins; then higher consensus strength; then the earlier timestamp;
/// then the smaller hash.
pub open spec fn beats(a: BlockMetaModel, b: BlockMetaModel) -> bool {
    if a.emotional_score != b.emotional_score {
        a.emotional_score > b.emotional_score
    } else if a.consensus_strength != b.consensus_strength {
        a.consensus_strength > b.consensus_strength
    } else if a.timestamp != b.timestamp {
        a.timestamp < b.timestamp
    } else {
        text_less(a.hash, b.hash)
    }
}

/// No text is below itself, and of two texts at most one is below the other.
pub proof fn lemma_text_less_asymmetric(a: Seq<char>, b: Seq<char>)
    ensures
        !(text_less(a, b) && text_less(b, a)),
    decreases a.len(),
{
    if a.len() > 0 && b.len() > 0 && a[0] == b[0] {
        lemma_text_less_asymmetric(a.subrange(1, a.len() as int), b.subrange(1, b.len() as int));
    }
}

/// Two different texts are ordered one way or the other.
pub proof fn lemma_text_less_total(a: Seq<char>, b: Seq<char>)
    requires
        a != b,
    ensures
        text_less(a, b) || text_less(b, a),
    decreases a.len(),
{
    if a.len() > 0 && b.len() > 0 && a[0] == b[0] {
        let a1 = a.subrange(1, a.len() as int);
        let b1 = b.subrange(1, b.len() as int);
        if a1 == b1 {
            assert(a =~= seq![a[0]] + a1);
            assert(b =~= seq![b[0]] + b1);
        }
        lemma_text_less_total(a1, b1);
    } else if a.len() == 0 && b.len() == 0 {
        assert(a =~= b);
    } else if a.len() > 0 && b.len() > 0 {
        vstd::utf8::char_u32_cast(a[0], a[0] as u32);
        vstd::utf8::char_u32_cast(b[0], b[0] as u32);
    }
}

/// Whether `w` wins the fork choice at `height` among the records `v`: it is
/// recorded there and beats every other block recorded at that height.
pub open spec fn wins_at(v: Seq<BlockMetaModel>, height: u64, w: BlockMetaModel) -> bool {
    &&& w.height == height
    &&& exists|i: int| 0 <= i < v.len() && v[i] == w
    &&& forall|j: int| 0 <= j < v.len() && v[j].height == height && v[j].hash != w.hash ==> beats(w, #[trigger] v[j])
}

/// The blocks recorded at a height, as a set.
pub open spec fn blocks_at(v: Seq<BlockMetaModel>, height: u64) -> Set<BlockMetaModel> {
    Set::new(|m: BlockMetaModel| m.height == height && exists|i: int| 0 <= i < v.len() && v[i] == m)
}

/// The text order is transitive.
pub proof fn lemma_text_less_transitive(a: Seq<char>, b: Seq<char>, c: Seq<char>)
    requires
        text_less(a, b),
        text_less(b, c),
    ensures
        text_less(a, c),
    decreases a.len(),
{
    if a.len() > 0 && b.len() > 0 && c.len() > 0 {
        vstd::utf8::char_u32_cast(a[0], a[0] as u32);
        vstd::utf8::char_u32_cast(b[0], b[0] as u32);
        vstd::utf8::char_u32_cast(c[0], c[0] as u32);
        if a[0] == b[0] && b[0] == c[0] {
            lemma_text_less_transitive(a.subrange(1, a.len() as int), b.subrange(1, b.len() as int), c.subrange(1, c.len() as int));
        }
    }
}

/// The fork-choice order is transitive.
pub proof fn lemma_beats_transitive(a: BlockMetaModel, b: BlockMetaModel, c: BlockMetaModel)
    requires
        beats(a, b),
        beats(b, c),
    ensures
        beats(a, c),
{
    if a.emotional_score == b.emotional_score && b.emotional_score == c.emotional_score
        && a.consensus_strength == b.consensus_strength && b.consensus_strength == c.consensus_strength
        && a.timestamp == b.timestamp && b.timestamp == c.timestamp {
        lemma_text_less_transitive(a.hash, b.hash, c.hash);
    }
}

/// Of two blocks with different hashes, one beats the other and not both.
pub proof fn lemma_beats_total(a: BlockMetaModel, b: BlockMetaModel)
    requires
        a.hash != b.hash,
    ensures
        beats(a, b) || beats(b, a),
        !(beats(a, b) && beats(b, a)),
{
    lemma_text_less_total(a.hash, b.hash);
    lemma_text_less_asymmetric(a.hash, b.hash);
}

/// The fork choice depends on the set of competing blocks alone: two winners
/// at a height where the same blocks are recorded, in whatever order and
/// among whatever other records, are the same block. So resolving a fork
/// twice, or after recording its blocks in another order, picks the same
/// winner.
pub proof fn lemma_fork_choice_unique(v1: Seq<BlockMetaModel>, v2: Seq<BlockMetaModel>, height: u64, w1: BlockMetaModel, w2: BlockMetaModel)
    requires
        blocks_at(v1, height) == blocks_at(v2, height),
        wins_at(v1, height, w1),
        wins_at(v2, height, w2),
    ensures
        w1.hash == w2.hash,
{
    if w1.hash != w2.hash {
        assert(blocks_at(v1, height).contains(w1));
        assert(blocks_at(v2, height).contains(w1));
        let j = choose|j: int| 0 <= j < v2.len() && v2[j] == w1;
        assert(blocks_at(v2, height).contains(w2));
        assert(blocks_at(v1, height).contains(w2));
        let k = choose|k: int| 0 <= k < v1.len() && v1[k] == w2;
        assert(beats(w1, v1[k]));
        assert(beats(w2, v2[j]));
        lemma_beats_total(w1, w2);
    }
}

/// The views of a list of records.
pub open spec fn meta_models(v: Seq<BlockMeta>) -> Seq<BlockMetaModel> {
    Seq::new(v.len(), |i: int| v[i]@)
}

/// Whether no two records share a hash.
pub open spec fn hashes_unique(v: Seq<BlockMetaModel>) -> bool {
    forall|i: int, j: int| 0 <= i < v.len() && 0 <= j < v.len() && i != j ==> v[i].hash != v[j].hash
}

/// Whether text `a` comes before text `b` by character code.
pub fn text_less_exec(a: &str, b: &str) -> (r: bool)
    ensures
        r == text_less(a@, b@),
{
    let la = a.unicode_len();
    let lb = b.unicode_len();
    assert(a@.subrange(0, la as int) =~= a@);
    assert(b@.subrange(0, lb as int) =~= b@);
    let mut i: usize = 0;
    while i < la && i < lb
        invariant
            la == a@.len(),
            lb == b@.len(),
            i <= la,
            i <= lb,
            text_less(a@, b@) == text_less(a@.subrange(i as int, la as int), b@.subrange(i as int, lb as int)),
        decreases la - i,
    {
        let ca = a.get_char(i);
        let cb = b.get_char(i);
        proof {
            let sa = a@.subrange(i as int, la as int);
            let sb = b@.subrange(i as int, lb as int);
            assert(sa[0] == ca);
            assert(sb[0] == cb);
            assert(sa.subrange(1, sa.len() as int) =~= a@.subrange(i as int + 1, la as int));
            assert(sb.subrange(1, sb.len() as int) =~= b@.subrange(i as int + 1, lb as int));
        }
        if ca != cb {
            return (ca as u32) < (cb as u32);
        }
        i = i + 1;
    }
    i == la && i < lb
}

fn beats_exec(a: &BlockMeta, b: &BlockMeta) -> (r: bool)
    ensures
        r == beats(a@, b@),
{
    if a.emotional_score != b.emotional_score {
        a.emotional_score > b.emotional_score
    } else if a.consensus_strength != b.consensus_strength {
        a.consensus_strength > b.consensus_strength
    } else if a.timestamp != b.timestamp {
        a.timestamp < b.timestamp
    } else {
        text_less_exec(a.hash.as_str(), b.hash.as_str())
    }
}

/// Records blocks by height and resolves forks among them.
pub struct ForkDetector {
    records: Vec<BlockMeta>,
    canonical_chain: Vec<String>,
    forks: Vec<ForkInfo>,
}

impl ForkDetector {
    /// The recorded blocks, one per hash.
    pub closed spec fn records_spec(&self) -> Seq<BlockMetaModel> {
        meta_models(self.records@)
    }

    /// The fork records, oldest first.
    pub closed spec fn forks_spec(&self) -> Seq<ForkModel> {
        Seq::new(self.forks@.len(), |i: int| fork_model(self.forks@[i]))
    }

    /// The number of forks detected and still kept.
    pub closed spec fn fork_count(&self) -> nat {
        self.forks@.len()
    }

    /// The detector's invariant: one record per hash.
    pub closed spec fn wf(&self) -> bool {
        hashes_unique(meta_models(self.records@))
    }

    /// A detector with nothing recorded.
    pub fn new() -> (r: Self)
        ensures
            r.wf(),
            r.records_spec().len() == 0,
            r.fork_count() == 0,
    {
        ForkDetector { records: Vec::new(), canonical_chain: Vec::new(), forks: Vec::new() }
    }
}

/// `v` with the record of `m`'s hash replaced by `m`, or `m` added.
pub open spec fn upsert(v: Seq<BlockMetaModel>, m: BlockMetaModel) -> Seq<BlockMetaModel> {
    if exists|i: int| 0 <= i < v.len() && v[i].hash == m.hash {
        v.update(choose|i: int| 0 <= i < v.len() && v[i].hash == m.hash, m)
    } else {
        v.push(m)
    }
}

/// Whether recording a block of `hash` at `height` forks the chain: another
/// block is recorded there and this one is not.
pub open spec fn forks_at(v: Seq<BlockMetaModel>, height: u64, hash: Seq<char>) -> bool {
    (exists|i: int| 0 <= i < v.len() && v[i].height == height && v[i].hash != hash)
        && !(exists|i: int| 0 <= i < v.len() && v[i].height == height && v[i].hash == hash)
}

/// Whether two different blocks are recorded at `height`.
pub open spec fn has_fork_at(v: Seq<BlockMetaModel>, height: u64) -> bool {
    exists|i: int, j: int| 0 <= i < v.len() && 0 <= j < v.len() && v[i].height == height && v[j].height == height
        && v[i].hash != v[j].hash
}

/// The number of distinct heights among records.
pub open spec fn distinct_heights(v: Seq<BlockMetaModel>) -> nat
    decreases v.len(),
{
    if v.len() == 0 {
        0
    } else {
        distinct_heights(v.drop_last()) + if (exists|i: int| 0 <= i < v.len() - 1 && v[i].height == v.last().height) { 0nat } else { 1nat }
    }
}

/// The number of resolved forks among fork records.
pub open spec fn resolved_count(v: Seq<ForkInfo>) -> nat
    decreases v.len(),
{
    if v.len() == 0 {
        0
    } else {
        resolved_count(v.drop_last()) + if v.last().winning_hash is Some { 1nat } else { 0nat }
    }
}

proof fn lemma_resolved_le(v: Seq<ForkInfo>)
    ensures
        resolved_count(v) <= v.len(),
    decreases v.len(),
{
    if v.len() > 0 {
        lemma_resolved_le(v.drop_last());
    }
}

/// A copy of a fork record.
fn copy_fork(f: &ForkInfo) -> (r: ForkInfo)
    ensures
        r.height == f.height,
        r.winning_hash is Some == f.winning_hash is Some,
{
    ForkInfo {
        height: f.height,
        competing_hashes: crate::types::clone_strings(&f.competing_hashes),
        detected_at: f.detected_at,
        resolution_method: match &f.resolution_method {
            Some(m) => Some(m.clone()),
            None => None,
        },
        winning_hash: match &f.winning_hash {
            Some(h) => Some(h.clone()),
            None => None,
        },
    }
}

impl ForkDetector {
    /// The canonical chain of block hashes.
    pub closed spec fn canonical_spec(&self) -> Seq<Seq<char>> {
        Seq::new(self.canonical_chain@.len(), |i: int| self.canonical_chain@[i]@)
    }

    /// Records a block. When another block is already recorded at its height
    /// and this one is not, a fork is recorded and `ForkDetected` returned;
    /// the block is recorded either way. Otherwise the block extends the
    /// canonical chain when its height is the chain's length, or when the
    /// chain is empty.
    pub fn record_block(&mut self, block: &Block) -> (r: Result<(), ConsensusError>)
        requires
            old(self).wf(),
        ensures
            final(self).wf(),
            final(self).records_spec() == upsert(old(self).records_spec(), BlockMetaModel {
                hash: block.hash@,
                height: block.header.height,
                emotional_score: block.header.emotional_score,
                consensus_strength: block.header.consensus_strength,
                timestamp: block.header.timestamp,
            }),
            forks_at(old(self).records_spec(), block.header.height, block.hash@) ==> r == Err::<(), ConsensusError>(
                ConsensusError::ForkDetected { height: block.header.height })
                && final(self).forks_spec() == old(self).forks_spec().push(ForkModel {
                    height: block.header.height,
                    competing: hashes_in_order(final(self).records_spec(), block.header.height),
                    winning: None,
                })
                && final(self).fork_count() == old(self).fork_count() + 1
                && final(self).canonical_spec() == old(self).canonical_spec(),
            !forks_at(old(self).records_spec(), block.header.height, block.hash@) ==> r is Ok
                && final(self).fork_count() == old(self).fork_count()
                && final(self).canonical_spec() == if old(self).canonical_spec().len() == 0
                    || block.header.height == old(self).canonical_spec().len() {
                    old(self).canonical_spec().push(block.hash@)
                } else {
                    old(self).canonical_spec()
                },
    {
        let height = block.header.height;
        let ghost v = self.records_spec();
        let ghost m = BlockMetaModel {
            hash: block.hash@,
            height,
            emotional_score: block.header.emotional_score,
            consensus_strength: block.header.consensus_strength,
            timestamp: block.header.timestamp,
        };
        let mut other: Option<usize> = None;
        let mut same_at_height = false;
        let mut existing: Option<usize> = None;
        let mut i: usize = 0;
        while i < self.records.len()
            invariant
                v == meta_models(self.records@),
                i <= v.len(),
                match other {
                    Some(k) => k < i && v[k as int].height == height && v[k as int].hash != block.hash@,
                    None => forall|k: int| 0 <= k < i ==> !(v[k].height == height && v[k].hash != block.hash@),
                },
                same_at_height == exists|k: int| 0 <= k < i && v[k].height == height && v[k].hash == block.hash@,
                match existing {
                    Some(k) => k < i && v[k as int].hash == block.hash@,
                    None => forall|k: int| 0 <= k < i ==> v[k].hash != block.hash@,
                },
            decreases v.len() - i,
        {
            let rec = &self.records[i];
            assert(v[i as int] == rec@);
            let same_hash = text_eq(rec.hash.as_str(), block.hash.as_str());
            if same_hash {
                existing = Some(i);
                if rec.height == height {
                    same_at_height = true;
                }
            } else if rec.height == height && other.is_none() {
                other = Some(i);
            }
            i = i + 1;
        }
        let meta = BlockMeta {
            hash: block.hash.clone(),
            height,
            emotional_score: block.header.emotional_score,
            consensus_strength: block.header.consensus_strength,
            timestamp: block.header.timestamp,
        };
        match existing {
            Some(k) => {
                proof {
                    assert forall|a: int| 0 <= a < v.len() && v[a].hash == m.hash implies a == k by {}
                    let c = choose|a: int| 0 <= a < v.len() && v[a].hash == m.hash;
                    assert(c == k);
                }
                self.records.set(k, meta);
                proof {
                    assert(meta_models(self.records@) =~= v.update(k as int, m));
                }
            },
            None => {
                self.records.push(meta);
                proof {
                    assert(meta_models(self.records@) =~= v.push(m));
                }
            },
        }
        proof {
            let w = meta_models(self.records@);
            assert forall|a: int, b: int| 0 <= a < w.len() && 0 <= b < w.len() && a != b implies w[a].hash != w[b].hash by {
                if existing is None {
                    if a < v.len() && b < v.len() {} else if a < v.len() { assert(v[a].hash != m.hash); } else { assert(v[b].hash != m.hash); }
                } else {
                    let k = existing->Some_0 as int;
                    if a != k && b != k {} else if a == k { assert(v[b].hash != v[k].hash); } else { assert(v[a].hash != v[k].hash); }
                }
            }
        }
        if other.is_some() && !same_at_height {
            let mut competing: Vec<String> = Vec::new();
            let ghost w = meta_models(self.records@);
            let mut j: usize = 0;
            while j < self.records.len()
                invariant
                    j <= self.records@.len(),
                    w == meta_models(self.records@),
                    Seq::new(competing@.len(), |q: int| competing@[q]@) == hashes_in_order(w.subrange(0, j as int), height),
                decreases self.records@.len() - j,
            {
                proof {
                    assert(w.subrange(0, j as int + 1).drop_last() =~= w.subrange(0, j as int));
                    assert(w[j as int] == self.records@[j as int]@);
                }
                let ghost before = competing@;
                if self.records[j].height == height {
                    competing.push(self.records[j].hash.clone());
                    assert(Seq::new(competing@.len(), |q: int| competing@[q]@) =~= Seq::new(before.len(), |q: int| before[q]@).push(w[j as int].hash));
                }
                j = j + 1;
            }
            assert(w.subrange(0, w.len() as int) =~= w);
            let ghost old_forks = self.forks_spec();
            self.forks.push(ForkInfo {
                height,
                competing_hashes: competing,
                detected_at: now_millis(),
                resolution_method: None,
                winning_hash: None,
            });
            assert(self.forks_spec() =~= old_forks.push(ForkModel { height, competing: hashes_in_order(w, height), winning: None }));
            return Err(ConsensusError::fork_detected(height));
        }
        let len = self.canonical_chain.len();
        if len == 0 || height as u128 == len as u128 {
            self.canonical_chain.push(block.hash.clone());
            proof {
                assert(self.canonical_spec() =~= old(self).canonical_spec().push(block.hash@));
            }
        }
        Ok(())
    }

    /// Resolves the fork at `height` by the fork-choice rule and returns the
    /// winning hash; the first unresolved fork record at that height notes the
    /// winner. Nothing recorded at the height is an internal error. The
    /// recorded blocks do not change, so resolving again gives the same hash.
    pub fn resolve_fork(&mut self, height: u64) -> (r: Result<String, ConsensusError>)
        requires
            old(self).wf(),
        ensures
            final(self).wf(),
            final(self).records_spec() == old(self).records_spec(),
            final(self).canonical_spec() == old(self).canonical_spec(),
            final(self).fork_count() == old(self).fork_count(),
            r matches Ok(w) ==> final(self).forks_spec() == match first_open(old(self).forks_spec(), height) {
                Some(k) => old(self).forks_spec().update(k, ForkModel { winning: Some(w@), ..old(self).forks_spec()[k] }),
                None => old(self).forks_spec(),
            },
            r is Err ==> final(self).forks_spec() == old(self).forks_spec(),
            !(exists|i: int| 0 <= i < old(self).records_spec().len() && old(self).records_spec()[i].height == height)
                ==> (r matches Err(ConsensusError::Internal { .. })),
            (exists|i: int| 0 <= i < old(self).records_spec().len() && old(self).records_spec()[i].height == height)
                ==> (r matches Ok(w) && exists|i: int| 0 <= i < old(self).records_spec().len()
                    && old(self).records_spec()[i].hash == w@
                    && wins_at(old(self).records_spec(), height, old(self).records_spec()[i])),
    {
        let ghost v = self.records_spec();
        let mut best: Option<usize> = None;
        let mut i: usize = 0;
        while i < self.records.len()
            invariant
                v == meta_models(self.records@),
                v == old(self).records_spec(),
                self.records@ == old(self).records@,
                self.forks@ == old(self).forks@,
                self.canonical_chain@ == old(self).canonical_chain@,
                hashes_unique(v),
                i <= v.len(),
                match best {
                    Some(b) => b < i && v[b as int].height == height
                        && forall|k: int| 0 <= k < i && v[k].height == height && v[k].hash != v[b as int].hash
                            ==> beats(v[b as int], #[trigger] v[k]),
                    None => forall|k: int| 0 <= k < i ==> v[k].height != height,
                },
            decreases v.len() - i,
        {
            let rec = &self.records[i];
            assert(v[i as int] == rec@);
            if rec.height == height {
                match best {
                    None => {
                        best = Some(i);
                    },
                    Some(b) => {
                        if beats_exec(rec, &self.records[b]) {
                            proof {
                                assert forall|k: int| 0 <= k < i + 1 && v[k].height == height && v[k].hash != v[i as int].hash
                                    implies beats(v[i as int], #[trigger] v[k]) by {
                                    if k != b as int && k != i as int {
                                        if v[k].hash != v[b as int].hash {
                                            lemma_beats_transitive(v[i as int], v[b as int], v[k]);
                                        }
                                    }
                                }
                            }
                            best = Some(i);
                        } else {
                            proof {
                                assert(v[i as int].hash != v[b as int].hash);
                                lemma_beats_total(v[i as int], v[b as int]);
                            }
                        }
                    },
                }
            }
            i = i + 1;
        }
        match best {
            None => Err(ConsensusError::internal("No blocks at height")),
            Some(b) => {
                let winner = self.records[b].hash.clone();
                proof {
                    assert(v[b as int] == self.records@[b as int]@);
                    assert(wins_at(v, height, v[b as int]));
                }
                self.mark_resolved(height, &winner);
                Ok(winner)
            },
        }
    }

    /// Notes `winner` as the winning hash of the first unresolved fork record
    /// at `height`, if there is one.
    #[verifier::spinoff_prover]
    #[verifier::rlimit(100)]
    fn mark_resolved(&mut self, height: u64, winner: &String)
        requires
            old(self).wf(),
        ensures
            final(self).wf(),
            final(self).records@ == old(self).records@,
            final(self).canonical_chain@ == old(self).canonical_chain@,
            final(self).forks@.len() == old(self).forks@.len(),
            final(self).forks_spec() == match first_open(old(self).forks_spec(), height) {
                Some(k) => old(self).forks_spec().update(k, ForkModel { winning: Some(winner@), ..old(self).forks_spec()[k] }),
                None => old(self).forks_spec(),
            },
    {
        match self.first_open_fork(height) {
            Some(k) => {
                let ghost old_forks = self.forks_spec();
                let f = ForkInfo {
                    height,
                    competing_hashes: crate::types::clone_strings(&self.forks[k].competing_hashes),
                    detected_at: self.forks[k].detected_at,
                    resolution_method: Some(String::from_str("Emotional Score Rule")),
                    winning_hash: Some(winner.clone()),
                };
                let ghost fm = fork_model(f);
                assert(fm.competing =~= old_forks[k as int].competing);
                assert(fm == ForkModel { winning: Some(winner@), ..old_forks[k as int] });
                self.forks.set(k, f);
                assert(self.forks_spec() =~= old_forks.update(k as int,
                    ForkModel { winning: Some(winner@), ..old_forks[k as int] }));
            },
            None => {},
        }
    }

    fn first_open_fork(&self, height: u64) -> (r: Option<usize>)
        ensures
            r matches Some(k) ==> first_open(self.forks_spec(), height) == Some(k as int),
            r is None ==> first_open(self.forks_spec(), height) is None,
            r matches Some(k) ==> k < self.forks@.len() && self.forks_spec()[k as int].height == height
                && self.forks_spec()[k as int].winning is None,
    {
        let ghost fs = self.forks_spec();
        let mut k: usize = 0;
        while k < self.forks.len()
            invariant
                fs == self.forks_spec(),
                k <= fs.len(),
                forall|j: int| 0 <= j < k ==> !(fs[j].height == height && fs[j].winning is None),
            decreases fs.len() - k,
        {
            assert(fs[k as int] == fork_model(self.forks@[k as int]));
            if self.forks[k].height == height && self.forks[k].winning_hash.is_none() {
                proof {
                    let c = choose|q: int| 0 <= q < fs.len() && fs[q].height == height && fs[q].winning is None
                        && forall|j: int| 0 <= j < q ==> !(fs[j].height == height && fs[j].winning is None);
                    assert(c == k as int) by {
                        if c < k as int {
                        } else if c > k as int {
                            assert(!(fs[k as int].height == height && fs[k as int].winning is None));
                        }
                    }
                }
                return Some(k);
            }
            k = k + 1;
        }
        None
    }

    /// Whether two different blocks are recorded at `height`.
    pub fn has_fork(&self, height: u64) -> (r: bool)
        ensures
            r == has_fork_at(self.records_spec(), height),
    {
        let ghost v = self.records_spec();
        let mut first: Option<usize> = None;
        let mut i: usize = 0;
        while i < self.records.len()
            invariant
                v == meta_models(self.records@),
                i <= v.len(),
                match first {
                    Some(f) => f < i && v[f as int].height == height
                        && forall|k: int| 0 <= k < i && v[k].height == height ==> v[k].hash == v[f as int].hash,
                    None => forall|k: int| 0 <= k < i ==> v[k].height != height,
                },
            decreases v.len() - i,
        {
            let rec = &self.records[i];
            assert(v[i as int] == rec@);
            if rec.height == height {
                match first {
                    None => {
                        first = Some(i);
                    },
                    Some(f) => {
                        if !text_eq(rec.hash.as_str(), self.records[f].hash.as_str()) {
                            assert(v[f as int] == self.records@[f as int]@);
                            return true;
                        }
                    },
                }
            }
            i = i + 1;
        }
        false
    }

    /// Whether any block is recorded at `height`.
    pub fn has_blocks_at(&self, height: u64) -> (r: bool)
        ensures
            r == exists|i: int| 0 <= i < self.records_spec().len() && self.records_spec()[i].height == height,
    {
        let ghost v = self.records_spec();
        let mut i: usize = 0;
        while i < self.records.len()
            invariant
                v == meta_models(self.records@),
                i <= v.len(),
                forall|k: int| 0 <= k < i ==> v[k].height != height,
            decreases v.len() - i,
        {
            assert(v[i as int] == self.records@[i as int]@);
            if self.records[i].height == height {
                assert(self.records_spec()[i as int].height == height);
                return true;
            }
            i = i + 1;
        }
        false
    }

    /// The canonical chain of block hashes.
    pub fn get_canonical_chain(&self) -> (r: Vec<String>)
        ensures
            Seq::new(r@.len(), |i: int| r@[i]@) == self.canonical_spec(),
    {
        let r = crate::types::clone_strings(&self.canonical_chain);
        assert(Seq::new(r@.len(), |i: int| r@[i]@) =~= self.canonical_spec());
        r
    }

    /// Copies of the fork records, oldest first.
    pub fn get_forks(&self) -> (r: Vec<ForkInfo>)
        ensures
            r@.len() == self.fork_count(),
    {
        let mut r: Vec<ForkInfo> = Vec::new();
        let mut i: usize = 0;
        while i < self.forks.len()
            invariant
                i <= self.forks@.len(),
                r@.len() == i,
            decreases self.forks@.len() - i,
        {
            r.push(copy_fork(&self.forks[i]));
            i = i + 1;
        }
        r
    }

    /// Drops records and fork records at heights up to `current_height -
    /// keep_height`; nothing when `current_height <= keep_height`.
    pub fn cleanup_old_forks(&mut self, current_height: u64, keep_height: u64)
        requires
            old(self).wf(),
        ensures
            final(self).wf(),
            current_height <= keep_height ==> final(self).records_spec() == old(self).records_spec()
                && final(self).fork_count() == old(self).fork_count(),
            current_height > keep_height ==> final(self).records_spec() == old(self).records_spec().filter(
                kept_above((current_height - keep_height) as u64)),
            final(self).canonical_spec() == old(self).canonical_spec(),
    {
        if current_height <= keep_height {
            return;
        }
        let cutoff = current_height - keep_height;
        let ghost keep = kept_above(cutoff);
        let ghost all = self.records_spec();
        let mut kept: Vec<BlockMeta> = Vec::new();
        proof {
            reveal(Seq::filter);
            assert(meta_models(kept@) =~= all.subrange(0, 0).filter(keep));
        }
        let mut i: usize = 0;
        while i < self.records.len()
            invariant
                all == meta_models(self.records@),
                all == old(self).records_spec(),
                hashes_unique(all),
                self.canonical_chain@ == old(self).canonical_chain@,
                keep == kept_above(cutoff),
                i <= all.len(),
                meta_models(kept@) == all.subrange(0, i as int).filter(keep),
            decreases all.len() - i,
        {
            let ghost before = meta_models(kept@);
            proof {
                assert(all.subrange(0, i as int + 1) =~= all.subrange(0, i as int).push(all[i as int]));
                all.subrange(0, i as int).lemma_filter_push(all[i as int], keep);
                assert(all[i as int] == self.records@[i as int]@);
            }
            if self.records[i].height > cutoff {
                let r = &self.records[i];
                kept.push(BlockMeta {
                    hash: r.hash.clone(),
                    height: r.height,
                    emotional_score: r.emotional_score,
                    consensus_strength: r.consensus_strength,
                    timestamp: r.timestamp,
                });
                assert(meta_models(kept@) =~= before.push(all[i as int]));
            }
            i = i + 1;
        }
        proof {
            assert(all.subrange(0, all.len() as int) =~= all);
            let f = all.filter(keep);
            assert forall|a: int, b: int| 0 <= a < f.len() && 0 <= b < f.len() && a != b implies f[a].hash != f[b].hash by {
                lemma_filter_unique_hashes(all, keep);
            }
        }
        self.records = kept;
        let mut forks: Vec<ForkInfo> = Vec::new();
        let mut j: usize = 0;
        while j < self.forks.len()
            invariant
                j <= self.forks@.len(),
            decreases self.forks@.len() - j,
        {
            if self.forks[j].height > cutoff {
                forks.push(copy_fork(&self.forks[j]));
            }
            j = j + 1;
        }
        self.forks = forks;
    }

    /// Counts of forks and of heights with recorded blocks.
    pub fn get_fork_statistics(&self) -> (r: ForkStatistics)
        ensures
            r.total_forks == self.fork_count(),
            r.resolved_forks == self.resolved_spec(),
            r.unresolved_forks == self.fork_count() - self.resolved_spec(),
            r.heights_with_forks == distinct_heights(self.records_spec()),
    {
        let mut resolved: usize = 0;
        let mut i: usize = 0;
        while i < self.forks.len()
            invariant
                i <= self.forks@.len(),
                resolved == resolved_count(self.forks@.subrange(0, i as int)),
            decreases self.forks@.len() - i,
        {
            proof {
                assert(self.forks@.subrange(0, i as int + 1).drop_last() =~= self.forks@.subrange(0, i as int));
                lemma_resolved_le(self.forks@.subrange(0, i as int));
            }
            if self.forks[i].winning_hash.is_some() {
                resolved = resolved + 1;
            }
            i = i + 1;
        }
        proof {
            assert(self.forks@.subrange(0, self.forks@.len() as int) =~= self.forks@);
            lemma_resolved_le(self.forks@);
        }
        let ghost v = self.records_spec();
        let mut heights: usize = 0;
        let mut j: usize = 0;
        while j < self.records.len()
            invariant
                v == meta_models(self.records@),
                j <= v.len(),
                heights == distinct_heights(v.subrange(0, j as int)),
                heights <= j,
            decreases v.len() - j,
        {
            let h = self.records[j].height;
            let mut seen = false;
            let mut k: usize = 0;
            while k < j
                invariant
                    v == meta_models(self.records@),
                    j < v.len(),
                    k <= j,
                    h == v[j as int].height,
                    seen == exists|a: int| 0 <= a < k && v[a].height == h,
                decreases j - k,
            {
                assert(v[k as int] == self.records@[k as int]@);
                if self.records[k].height == h {
                    seen = true;
                }
                k = k + 1;
            }
            proof {
                let s = v.subrange(0, j as int + 1);
                assert(s.drop_last() =~= v.subrange(0, j as int));
                assert(s.last() == v[j as int]);
                assert((exists|a: int| 0 <= a < s.len() - 1 && s[a].height == s.last().height)
                    == (exists|a: int| 0 <= a < j && v[a].height == h)) by {
                    if exists|a: int| 0 <= a < j && v[a].height == h {
                        let a = choose|a: int| 0 <= a < j && v[a].height == h;
                        assert(s[a] == v[a]);
                    }
                }
            }
            if !seen {
                heights = heights + 1;
            }
            j = j + 1;
        }
        proof {
            assert(v.subrange(0, v.len() as int) =~= v);
        }
        ForkStatistics {
            total_forks: self.forks.len(),
            resolved_forks: resolved,
            unresolved_forks: self.forks.len() - resolved,
            heights_with_forks: heights,
        }
    }

    /// The number of resolved forks.
    pub closed spec fn resolved_spec(&self) -> nat {
        resolved_count(self.forks@)
    }
}

/// Whether a record lies above a cleanup cutoff height.
pub open spec fn kept_above(cutoff: u64) -> spec_fn(BlockMetaModel) -> bool {
    |m: BlockMetaModel| m.height > cutoff
}

proof fn lemma_filter_unique_hashes(v: Seq<BlockMetaModel>, p: spec_fn(BlockMetaModel) -> bool)
    requires
        hashes_unique(v),
    ensures
        hashes_unique(v.filter(p)),
    decreases v.len(),
{
    reveal(Seq::filter);
    if v.len() > 0 {
        let d = v.drop_last();
        assert(hashes_unique(d));
        lemma_filter_unique_hashes(d, p);
        if p(v.last()) {
            let f = d.filter(p);
            assert forall|k: int| 0 <= k < f.len() implies f[k].hash != v.last().hash by {
                assert(f.contains(f[k]));
                lemma_filter_member(d, p, f[k]);
            }
        }
    }
}

proof fn lemma_filter_member(v: Seq<BlockMetaModel>, p: spec_fn(BlockMetaModel) -> bool, m: BlockMetaModel)
    requires
        v.filter(p).contains(m),
    ensures
        v.contains(m),
    decreases v.len(),
{
    reveal(Seq::filter);
    if v.len() > 0 {
        if m != v.last() {
            let d = v.drop_last();
            if p(v.last()) {
                assert(d.filter(p).push(v.last()).contains(m));
                let k = choose|k: int| 0 <= k < d.filter(p).push(v.last()).len() && d.filter(p).push(v.last())[k] == m;
                assert(d.filter(p).contains(m));
            }
            lemma_filter_member(d, p, m);
        }
    }
}

} // verus!
