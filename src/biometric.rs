//! The biometric gate: readings, the emotional score, its trend and
//! confidence, eligibility, and block validation by a validator.

use vstd::prelude::*;
use vstd::string::*;
use crate::crypto::KeyPair;
use crate::error::ConsensusError;
use crate::types::{block_hash_text, block_signing_message, merkle_root_text, tx_hash_valid, tx_signing_message, Block, BlockModel};
use crate::crypto::text_signature_outcome;
use crate::utils::{decimal, decimal_text, now_millis, seed_of, string_to_seed, text_eq};

verus! {

/// Kind of biometric reading.
#[derive(Debug, Clone, Copy, PartialEq, Eq, Hash, Structural)]
pub enum BiometricType {
    /// Heart rate in beats per minute.
    HeartRate,
    /// Stress level, 0 to 100.
    StressLevel,
    /// Focus level, 0 to 100.
    FocusLevel,
    /// Skin conductance.
    SkinConductance,
    /// Skin temperature.
    SkinTemperature,
}

/// One reading from a device. Values are fixed-point: thousandths of the
/// reading's unit, and quality in thousandths (0 to 1000).
#[derive(Debug)]
pub struct BiometricReading {
    /// Id of the device.
    pub device_id: String,
    /// Kind of reading.
    pub biometric_type: BiometricType,
    /// Value in thousandths of the unit.
    pub value_milli: i64,
    /// Quality weight in thousandths, 0 to 1000.
    pub quality_permille: u64,
    /// Time of the reading, in milliseconds since the Unix epoch.
    pub timestamp: u64,
}

impl Clone for BiometricReading {
    fn clone(&self) -> (r: Self)
        ensures
            r.biometric_type == self.biometric_type,
            r.value_milli == self.value_milli,
            r.quality_permille == self.quality_permille,
            r.timestamp == self.timestamp,
    {
        BiometricReading {
            device_id: self.device_id.clone(),
            biometric_type: self.biometric_type,
            value_milli: self.value_milli,
            quality_permille: self.quality_permille,
            timestamp: self.timestamp,
        }
    }
}

/// Direction of a validator's recent scores.
#[derive(Debug, Clone, Copy, PartialEq, Eq, Structural)]
pub enum EmotionalTrend {
    /// Scores are rising.
    Improving,
    /// Scores are level.
    Stable,
    /// Scores are falling.
    Declining,
}

/// A validator's latest assessment.
#[derive(Debug)]
pub struct EmotionalProfile {
    /// Emotional score, 0 to 100.
    pub emotional_score: u8,
    /// Trend of the recent scores.
    pub trend: EmotionalTrend,
    /// Confidence in the score, 0 to 100.
    pub confidence: u8,
    /// Time of the assessment, in milliseconds since the Unix epoch.
    pub last_updated: u64,
    /// The readings assessed.
    pub recent_readings: Vec<BiometricReading>,
}

/// `v` limited to the range from `lo` to `hi`.
pub open spec fn clamp_int(v: int, lo: int, hi: int) -> int {
    if v < lo { lo } else if v > hi { hi } else { v }
}

/// A reading's contribution to the score, in thousandths of a point: heart
/// rate scores 100 from 60 to 80 BPM, 80 from 50 to 100 and 50 otherwise;
/// stress scores 100 minus the stress; focus scores the focus; other kinds
/// score 75. Stress and focus are first clamped to 0 to 100.
pub open spec fn contribution(t: BiometricType, value_milli: i64) -> nat {
    match t {
        BiometricType::HeartRate => if 60_000 <= value_milli <= 80_000 {
            100_000
        } else if 50_000 <= value_milli <= 100_000 {
            80_000
        } else {
            50_000
        },
        BiometricType::StressLevel => (100_000 - clamp_int(value_milli as int, 0, 100_000)) as nat,
        BiometricType::FocusLevel => clamp_int(value_milli as int, 0, 100_000) as nat,
        _ => 75_000,
    }
}

/// The sum of the readings' quality weights.
pub open spec fn quality_sum(rs: Seq<BiometricReading>) -> nat
    decreases rs.len(),
{
    if rs.len() == 0 { 0 } else { quality_sum(rs.drop_last()) + rs.last().quality_permille as nat }
}

/// The sum of the readings' contributions weighted by quality.
pub open spec fn weighted_sum(rs: Seq<BiometricReading>) -> nat
    decreases rs.len(),
{
    if rs.len() == 0 {
        0
    } else {
        weighted_sum(rs.drop_last()) + contribution(rs.last().biometric_type, rs.last().value_milli)
            * rs.last().quality_permille as nat
    }
}

/// The emotional score of readings with a positive total weight: the
/// quality-weighted average contribution, in whole points.
pub open spec fn emotional_score_of(rs: Seq<BiometricReading>) -> nat {
    weighted_sum(rs) / quality_sum(rs) / 1000
}

/// Whether every reading's quality lies in 0 to 1000.
pub open spec fn qualities_valid(rs: Seq<BiometricReading>) -> bool {
    forall|i: int| 0 <= i < rs.len() ==> rs[i].quality_permille <= 1000
}

/// The trend of scores in time order, by the slope of their least-squares
/// line over the last five: above 2 points per step is improving, below -2
/// declining; fewer than three scores are stable.
pub open spec fn trend_of(history: Seq<u8>) -> EmotionalTrend {
    if history.len() < 3 {
        EmotionalTrend::Stable
    } else {
        let w = if history.len() > 5 { history.subrange(history.len() - 5, history.len() as int) } else { history };
        let n = w.len() as int;
        let sx = sum_x(n);
        let sy = sum_y(w);
        let sxy = sum_xy(w);
        let sxx = sum_xx(n);
        let num = n * sxy - sx * sy;
        let den = n * sxx - sx * sx;
        if num > 2 * den {
            EmotionalTrend::Improving
        } else if num < -2 * den {
            EmotionalTrend::Declining
        } else {
            EmotionalTrend::Stable
        }
    }
}

/// The sum of positions 0 to n - 1.
pub open spec fn sum_x(n: int) -> int
    decreases n,
{
    if n <= 0 { 0 } else { sum_x(n - 1) + (n - 1) }
}

/// The sum of squared positions 0 to n - 1.
pub open spec fn sum_xx(n: int) -> int
    decreases n,
{
    if n <= 0 { 0 } else { sum_xx(n - 1) + (n - 1) * (n - 1) }
}

/// The sum of the scores.
pub open spec fn sum_y(w: Seq<u8>) -> int
    decreases w.len(),
{
    if w.len() == 0 { 0 } else { sum_y(w.drop_last()) + w.last() as int }
}

/// The sum of each score times its position.
pub open spec fn sum_xy(w: Seq<u8>) -> int
    decreases w.len(),
{
    if w.len() == 0 { 0 } else { sum_xy(w.drop_last()) + (w.len() - 1) * w.last() as int }
}

/// The number of distinct kinds among readings.
pub open spec fn kinds_count(rs: Seq<BiometricReading>) -> nat
    decreases rs.len(),
{
    if rs.len() == 0 {
        0
    } else {
        kinds_count(rs.drop_last()) + if (exists|i: int| 0 <= i < rs.len() - 1 && rs[i].biometric_type == rs.last().biometric_type) {
            0nat
        } else {
            1nat
        }
    }
}

/// The largest timestamp among readings.
pub open spec fn max_time(rs: Seq<BiometricReading>) -> u64
    decreases rs.len(),
{
    if rs.len() == 0 { 0 } else if rs.len() == 1 { rs[0].timestamp } else {
        let m = max_time(rs.drop_last());
        if rs.last().timestamp > m { rs.last().timestamp } else { m }
    }
}

/// The smallest timestamp among readings.
pub open spec fn min_time(rs: Seq<BiometricReading>) -> u64
    decreases rs.len(),
{
    if rs.len() == 0 { 0 } else if rs.len() == 1 { rs[0].timestamp } else {
        let m = min_time(rs.drop_last());
        if rs.last().timestamp < m { rs.last().timestamp } else { m }
    }
}

/// Confidence in a score from non-empty readings: the average quality in
/// percent, 5 more per distinct kind up to 20, and 10 more when the readings
/// span under 5 seconds or 5 more under a minute; at most 100.
pub open spec fn confidence_of(rs: Seq<BiometricReading>) -> nat {
    let quality = quality_sum(rs) / (10 * rs.len());
    let kinds = if 5 * kinds_count(rs) > 20 { 20 } else { 5 * kinds_count(rs) };
    let span = max_time(rs) - min_time(rs);
    let temporal: nat = if span < 5000 { 10 } else if span < 60000 { 5 } else { 0 };
    if quality + kinds + temporal > 100 { 100 } else { quality + kinds + temporal }
}

proof fn lemma_min_le_max(rs: Seq<BiometricReading>)
    ensures
        min_time(rs) <= max_time(rs),
    decreases rs.len(),
{
    if rs.len() > 1 {
        lemma_min_le_max(rs.drop_last());
    }
}

proof fn lemma_kinds_le(rs: Seq<BiometricReading>)
    ensures
        kinds_count(rs) <= rs.len(),
    decreases rs.len(),
{
    if rs.len() > 0 {
        lemma_kinds_le(rs.drop_last());
    }
}

proof fn lemma_quality_bound(rs: Seq<BiometricReading>)
    requires
        qualities_valid(rs),
    ensures
        quality_sum(rs) <= 1000 * rs.len(),
    decreases rs.len(),
{
    if rs.len() > 0 {
        assert(qualities_valid(rs.drop_last())) by {
            assert forall|i: int| 0 <= i < rs.drop_last().len() implies rs.drop_last()[i].quality_permille <= 1000 by {
                assert(rs.drop_last()[i] == rs[i]);
            }
        }
        lemma_quality_bound(rs.drop_last());
    }
}

proof fn lemma_weighted_bound(rs: Seq<BiometricReading>)
    ensures
        weighted_sum(rs) <= 100_000 * quality_sum(rs),
    decreases rs.len(),
{
    if rs.len() > 0 {
        lemma_weighted_bound(rs.drop_last());
        let c = contribution(rs.last().biometric_type, rs.last().value_milli);
        let q = rs.last().quality_permille as nat;
        assert(c * q <= 100_000 * q) by (nonlinear_arith)
            requires c <= 100_000;
    }
}

/// The score of any readings with positive total weight lies in 0 to 100.
pub proof fn lemma_score_bounded(rs: Seq<BiometricReading>)
    requires
        quality_sum(rs) > 0,
    ensures
        emotional_score_of(rs) <= 100,
{
    lemma_weighted_bound(rs);
    let q = quality_sum(rs);
    let w = weighted_sum(rs);
    assert(w / q <= 100_000) by (nonlinear_arith)
        requires w <= 100_000 * q, q > 0;
}

fn contribution_exec(t: BiometricType, v: i64) -> (r: u64)
    ensures
        r as nat == contribution(t, v),
        r <= 100_000,
{
    match t {
        BiometricType::HeartRate => {
            if 60_000 <= v && v <= 80_000 {
                100_000
            } else if 50_000 <= v && v <= 100_000 {
                80_000
            } else {
                50_000
            }
        },
        BiometricType::StressLevel => {
            let c: i64 = if v < 0 { 0 } else if v > 100_000 { 100_000 } else { v };
            (100_000 - c) as u64
        },
        BiometricType::FocusLevel => {
            let c: i64 = if v < 0 { 0 } else if v > 100_000 { 100_000 } else { v };
            c as u64
        },
        _ => 75_000,
    }
}

/// The emotional score of readings. No readings, or readings whose qualities
/// sum to zero, are a `BiometricValidationFailed`.
pub fn calculate_emotional_score(readings: &Vec<BiometricReading>) -> (r: Result<u8, ConsensusError>)
    requires
        qualities_valid(readings@),
    ensures
        quality_sum(readings@) == 0 ==> (r matches Err(ConsensusError::BiometricValidationFailed { .. })),
        quality_sum(readings@) > 0 ==> r == Ok::<u8, ConsensusError>(emotional_score_of(readings@) as u8)
            && emotional_score_of(readings@) <= 100,
{
    let ghost rs = readings@;
    let mut total: u128 = 0;
    let mut weight: u128 = 0;
    let mut i: usize = 0;
    proof {
        lemma_quality_bound(rs);
    }
    while i < readings.len()
        invariant
            rs == readings@,
            qualities_valid(rs),
            quality_sum(rs) <= 1000 * rs.len(),
            i <= rs.len(),
            weight as nat == quality_sum(rs.subrange(0, i as int)),
            total as nat == weighted_sum(rs.subrange(0, i as int)),
            weight <= 1000 * i,
            total <= 100_000 * weight,
        decreases rs.len() - i,
    {
        let r = &readings[i];
        let c = contribution_exec(r.biometric_type, r.value_milli);
        proof {
            assert(rs.subrange(0, i as int + 1).drop_last() =~= rs.subrange(0, i as int));
            assert(rs.subrange(0, i as int + 1).last() == rs[i as int]);
            assert(r.quality_permille <= 1000);
            assert(c * r.quality_permille <= 100_000 * r.quality_permille) by (nonlinear_arith)
                requires c <= 100_000;
            assert(weight + r.quality_permille <= 1000 * (i + 1));
            assert(100_000 * (weight + r.quality_permille) == 100_000 * weight + 100_000 * r.quality_permille) by (nonlinear_arith);
        }
        total = total + (c as u128) * (r.quality_permille as u128);
        weight = weight + r.quality_permille as u128;
        i = i + 1;
    }
    proof {
        assert(rs.subrange(0, rs.len() as int) =~= rs);
    }
    if weight == 0 {
        return Err(ConsensusError::biometric_validation_failed("No valid readings with quality > 0"));
    }
    proof {
        lemma_score_bounded(rs);
    }
    Ok((total / weight / 1000) as u8)
}

fn trend_exec(history: &Vec<u8>) -> (r: EmotionalTrend)
    ensures
        r == trend_of(history@),
{
    let n = history.len();
    if n < 3 {
        return EmotionalTrend::Stable;
    }
    let start: usize = if n > 5 { n - 5 } else { 0 };
    let ghost w = if history@.len() > 5 { history@.subrange(history@.len() - 5, history@.len() as int) } else { history@ };
    assert(w =~= history@.subrange(start as int, n as int));
    let m: usize = n - start;
    let mut sx: i64 = 0;
    let mut sy: i64 = 0;
    let mut sxy: i64 = 0;
    let mut sxx: i64 = 0;
    let mut k: usize = 0;
    while k < m
        invariant
            m == w.len(),
            3 <= m <= 5,
            w == history@.subrange(start as int, n as int),
            start + m == n,
            n == history@.len(),
            k <= m,
            sx as int == sum_x(k as int),
            sxx as int == sum_xx(k as int),
            sy as int == sum_y(w.subrange(0, k as int)),
            sxy as int == sum_xy(w.subrange(0, k as int)),
            0 <= sx <= 5 * k,
            0 <= sxx <= 25 * k,
            0 <= sy <= 255 * k,
            0 <= sxy <= 1275 * k,
        decreases m - k,
    {
        let y = history[start + k];
        proof {
            assert(w.subrange(0, k as int + 1).drop_last() =~= w.subrange(0, k as int));
            assert(w.subrange(0, k as int + 1).last() == y);
            assert(w.subrange(0, k as int + 1).len() - 1 == k);
            assert(k * y <= 4 * 255) by (nonlinear_arith)
                requires k <= 4, y <= 255;
            assert(k * k <= 16) by (nonlinear_arith)
                requires k <= 4;
            assert((k as i64) * (y as i64) <= 4 * 255) by (nonlinear_arith)
                requires 0 <= k <= 4, 0 <= y <= 255;
            assert((k as i64) * (y as i64) >= 0) by (nonlinear_arith)
                requires 0 <= k <= 4, y >= 0;
        }
        sx = sx + k as i64;
        sxx = sxx + (k * k) as i64;
        sy = sy + y as i64;
        sxy = sxy + (k as i64) * (y as i64);
        k = k + 1;
    }
    proof {
        assert(w.subrange(0, m as int) =~= w);
    }
    let mi = m as i64;
    proof {
        assert(k == m);
        assert(0 <= sx <= 25);
        assert(0 <= sxx <= 125);
        assert(0 <= sy <= 255 * 5);
        assert(0 <= sxy <= 6375);
        assert(mi * sxy <= 5 * 6375) by (nonlinear_arith)
            requires mi <= 5, 0 <= sxy <= 6375;
        assert(sx * sy <= 25 * 255 * 5) by (nonlinear_arith)
            requires 0 <= sx <= 25, 0 <= sy <= 255 * 5;
        assert(mi * sxx <= 5 * 125) by (nonlinear_arith)
            requires mi <= 5, 0 <= sxx <= 125;
        assert(sx * sx <= 625) by (nonlinear_arith)
            requires 0 <= sx <= 25;
        assert(mi * sxy >= 0) by (nonlinear_arith)
            requires mi >= 0, sxy >= 0;
        assert(sx * sy >= 0) by (nonlinear_arith)
            requires sx >= 0, sy >= 0;
        assert(mi * sxx >= 0) by (nonlinear_arith)
            requires mi >= 0, sxx >= 0;
        assert(sx * sx >= 0) by (nonlinear_arith);
    }
    let num = mi * sxy - sx * sy;
    let den = mi * sxx - sx * sx;
    if num > 2 * den {
        EmotionalTrend::Improving
    } else if num < -2 * den {
        EmotionalTrend::Declining
    } else {
        EmotionalTrend::Stable
    }
}

/// The confidence in a score from non-empty readings.
pub fn calculate_confidence(readings: &Vec<BiometricReading>) -> (r: u8)
    requires
        qualities_valid(readings@),
    ensures
        readings@.len() == 0 ==> r == 0,
        readings@.len() > 0 ==> r as nat == confidence_of(readings@),
        r <= 100,
{
    let n = readings.len();
    if n == 0 {
        return 0;
    }
    let ghost rs = readings@;
    proof {
        lemma_quality_bound(rs);
    }
    let mut qsum: u128 = 0;
    let mut kinds: u64 = 0;
    let mut tmax: u64 = readings[0].timestamp;
    let mut tmin: u64 = readings[0].timestamp;
    let mut i: usize = 0;
    while i < n
        invariant
            n == rs.len(),
            n > 0,
            rs == readings@,
            qualities_valid(rs),
            i <= n,
            qsum as nat == quality_sum(rs.subrange(0, i as int)),
            qsum <= 1000 * i,
            kinds as nat == kinds_count(rs.subrange(0, i as int)),
            kinds <= i,
            i > 0 ==> tmax == max_time(rs.subrange(0, i as int)) && tmin == min_time(rs.subrange(0, i as int)),
            i == 0 ==> tmax == rs[0].timestamp && tmin == rs[0].timestamp,
        decreases n - i,
    {
        let r = &readings[i];
        let mut seen = false;
        let mut k: usize = 0;
        while k < i
            invariant
                n == rs.len(),
                rs == readings@,
                i < n,
                k <= i,
                r.biometric_type == rs[i as int].biometric_type,
                seen == exists|a: int| 0 <= a < k && rs[a].biometric_type == rs[i as int].biometric_type,
            decreases i - k,
        {
            if readings[k].biometric_type == r.biometric_type {
                seen = true;
            }
            k = k + 1;
        }
        proof {
            let s = rs.subrange(0, i as int + 1);
            assert(s.drop_last() =~= rs.subrange(0, i as int));
            assert(s.last() == rs[i as int]);
            assert((exists|a: int| 0 <= a < s.len() - 1 && s[a].biometric_type == s.last().biometric_type)
                == (exists|a: int| 0 <= a < i && rs[a].biometric_type == rs[i as int].biometric_type)) by {
                if exists|a: int| 0 <= a < i && rs[a].biometric_type == rs[i as int].biometric_type {
                    let a = choose|a: int| 0 <= a < i && rs[a].biometric_type == rs[i as int].biometric_type;
                    assert(s[a] == rs[a]);
                }
            }
            if i == 0 {
                assert(s.len() == 1 && s[0] == rs[0]);
            }
        }
        if !seen {
            assert(kinds < n);
            kinds = kinds + 1;
        }
        assert(r.quality_permille <= 1000);
        qsum = qsum + r.quality_permille as u128;
        if i > 0 {
            if r.timestamp > tmax {
                tmax = r.timestamp;
            }
            if r.timestamp < tmin {
                tmin = r.timestamp;
            }
        }
        i = i + 1;
    }
    proof {
        assert(rs.subrange(0, n as int) =~= rs);
        lemma_min_le_max(rs);
    }
    let quality = qsum / (10 * n as u128);
    proof {
        assert((qsum as int) / (10 * n as int) <= 100) by (nonlinear_arith)
            requires qsum <= 1000 * n, n > 0;
    }
    let multimodal: u64 = if kinds > 4 { 20 } else { 5 * kinds };
    let span = tmax - tmin;
    let temporal: u64 = if span < 5000 { 10 } else if span < 60000 { 5 } else { 0 };
    let total = quality + multimodal as u128 + temporal as u128;
    if total > 100 { 100 } else { total as u8 }
}

/// How many scores a validator's history keeps.
pub const SCORE_HISTORY_LEN: usize = 100;

/// A validator with its keys, stake, reputation and emotional assessment.
pub struct EmotionalValidator {
    /// Validator id.
    pub id: String,
    /// Signing key pair.
    pub key_pair: KeyPair,
    stake: u64,
    balance: u64,
    is_active: bool,
    emotional_profile: Option<EmotionalProfile>,
    score_history: Vec<u8>,
    reputation: u8,
}

/// The score a profile gives, or 0 without one.
pub open spec fn profile_score(p: Option<EmotionalProfile>) -> u8 {
    match p {
        Some(p) => p.emotional_score,
        None => 0,
    }
}

impl EmotionalValidator {
    /// The validator's stake.
    pub closed spec fn stake_spec(&self) -> u64 {
        self.stake
    }

    /// The validator's id.
    pub closed spec fn id_spec(&self) -> Seq<char> {
        self.id@
    }

    /// Whether the validator has been assessed.
    pub closed spec fn assessed(&self) -> bool {
        self.emotional_profile is Some
    }

    /// The validator's reward balance.
    pub closed spec fn balance_spec(&self) -> u64 {
        self.balance
    }

    /// Whether the validator is active.
    pub closed spec fn active_spec(&self) -> bool {
        self.is_active
    }

    /// The validator's reputation.
    pub closed spec fn reputation_spec(&self) -> u8 {
        self.reputation
    }

    /// The validator's current emotional score, 0 before any assessment.
    pub closed spec fn score_spec(&self) -> u8 {
        profile_score(self.emotional_profile)
    }

    /// The scores assessed so far, oldest first, at most the last 100.
    pub closed spec fn history_spec(&self) -> Seq<u8> {
        self.score_history@
    }

    /// The validator's invariant: reputation and score lie in 0 to 100, and
    /// the history keeps at most 100 scores.
    pub closed spec fn wf(&self) -> bool {
        &&& self.reputation <= 100
        &&& profile_score(self.emotional_profile) <= 100
        &&& self.score_history@.len() <= SCORE_HISTORY_LEN
        &&& self.key_pair.wf()
    }

    /// A validator with a fresh random key pair.
    pub fn new(id: &str, stake: u64) -> (r: Result<EmotionalValidator, ConsensusError>)
        ensures
            r matches Ok(v) && v.wf() && v.id_spec() == id@ && v.stake_spec() == stake && v.balance_spec() == 0
                && v.active_spec() && v.reputation_spec() == 100 && v.score_spec() == 0 && v.history_spec().len() == 0,
    {
        match KeyPair::generate() {
            Ok(key_pair) => Ok(EmotionalValidator::from_keypair(id, stake, key_pair)),
            Err(e) => Err(e),
        }
    }

    /// A validator with the given key pair.
    pub fn from_keypair(id: &str, stake: u64, key_pair: KeyPair) -> (r: EmotionalValidator)
        requires
            key_pair.wf(),
        ensures
            r.wf(),
            r.id_spec() == id@,
            r.stake_spec() == stake,
            r.balance_spec() == 0,
            r.active_spec(),
            r.reputation_spec() == 100,
            r.score_spec() == 0,
            r.history_spec().len() == 0,
    {
        EmotionalValidator {
            id: id.to_owned(),
            key_pair,
            stake,
            balance: 0,
            is_active: true,
            emotional_profile: None,
            score_history: Vec::new(),
            reputation: 100,
        }
    }

    /// Assesses readings: the score, its trend over the earlier scores, and
    /// the confidence become the profile, and the score joins the history.
    /// No readings, or readings of zero total quality, are a
    /// `BiometricValidationFailed` and change nothing.
    pub fn update_emotional_state(&mut self, readings: Vec<BiometricReading>) -> (r: Result<(), ConsensusError>)
        requires
            old(self).wf(),
            qualities_valid(readings@),
        ensures
            final(self).wf(),
            final(self).stake_spec() == old(self).stake_spec(),
            final(self).balance_spec() == old(self).balance_spec(),
            final(self).active_spec() == old(self).active_spec(),
            final(self).reputation_spec() == old(self).reputation_spec(),
            final(self).id_spec() == old(self).id_spec(),
            readings@.len() == 0 || quality_sum(readings@) == 0 ==> (r matches Err(ConsensusError::BiometricValidationFailed { .. }))
                && final(self).score_spec() == old(self).score_spec()
                && final(self).history_spec() == old(self).history_spec(),
            readings@.len() > 0 && quality_sum(readings@) > 0 ==> r is Ok
                && final(self).score_spec() as nat == emotional_score_of(readings@)
                && final(self).trend_spec() == trend_of(old(self).history_spec())
                && final(self).confidence_spec() as nat == confidence_of(readings@)
                && final(self).confidence_spec() <= 100
                && final(self).recent_readings_spec() == readings@
                && final(self).history_spec() == kept_history(old(self).history_spec().push(final(self).score_spec())),
    {
        if readings.len() == 0 {
            return Err(ConsensusError::biometric_validation_failed("No biometric readings provided"));
        }
        let score = match calculate_emotional_score(&readings) {
            Ok(s) => s,
            Err(e) => {
                return Err(e);
            },
        };
        let trend = trend_exec(&self.score_history);
        let confidence = calculate_confidence(&readings);
        let profile = EmotionalProfile {
            emotional_score: score,
            trend,
            confidence,
            last_updated: now_millis(),
            recent_readings: readings,
        };
        self.emotional_profile = Some(profile);
        let ghost before = self.score_history@;
        self.score_history.push(score);
        if self.score_history.len() > SCORE_HISTORY_LEN {
            self.score_history.remove(0);
            assert(self.score_history@ =~= kept_history(before.push(score)));
        } else {
            assert(self.score_history@ =~= kept_history(before.push(score)));
        }
        Ok(())
    }

    /// The confidence of the latest assessment, 0 before any.
    pub closed spec fn confidence_spec(&self) -> u8 {
        match self.emotional_profile {
            Some(p) => p.confidence,
            None => 0,
        }
    }

    /// The readings of the latest assessment, none before any.
    pub closed spec fn recent_readings_spec(&self) -> Seq<BiometricReading> {
        match self.emotional_profile {
            Some(p) => p.recent_readings@,
            None => Seq::empty(),
        }
    }

    /// The trend of the latest assessment, stable before any.
    pub closed spec fn trend_spec(&self) -> EmotionalTrend {
        match self.emotional_profile {
            Some(p) => p.trend,
            None => EmotionalTrend::Stable,
        }
    }

    /// A well-formed validator's score and reputation lie in 0 to 100.
    pub proof fn lemma_bounds(&self)
        requires
            self.wf(),
        ensures
            self.score_spec() <= 100,
            self.reputation_spec() <= 100,
    {
    }

    /// The current emotional score, 0 before any assessment.
    pub fn get_emotional_score(&self) -> (r: u8)
        ensures
            r == self.score_spec(),
    {
        match &self.emotional_profile {
            Some(p) => p.emotional_score,
            None => 0,
        }
    }

    /// The score, trend and confidence of the latest assessment, if any.
    pub fn get_emotional_profile(&self) -> (r: Option<(u8, EmotionalTrend, u8)>)
        ensures
            r is None <==> !self.assessed(),
            r matches Some(p) ==> p.0 == self.score_spec() && p.1 == self.trend_spec(),
    {
        match &self.emotional_profile {
            Some(p) => Some((p.emotional_score, p.trend, p.confidence)),
            None => None,
        }
    }

    /// Whether the validator may join a committee: active, with enough
    /// stake and a high enough score.
    pub fn is_eligible(&self, emotional_threshold: u8, minimum_stake: u64) -> (r: bool)
        ensures
            r == (self.active_spec() && self.stake_spec() >= minimum_stake && self.score_spec() >= emotional_threshold),
    {
        self.is_active && self.stake >= minimum_stake && self.get_emotional_score() >= emotional_threshold
    }

    /// Adds a reward to the balance, saturating.
    pub fn add_reward(&mut self, amount: u64)
        requires
            old(self).wf(),
        ensures
            final(self).wf(),
            final(self).balance_spec() == if old(self).balance_spec() + amount > u64::MAX { u64::MAX } else { (old(self).balance_spec() + amount) as u64 },
            final(self).stake_spec() == old(self).stake_spec(),
            final(self).reputation_spec() == old(self).reputation_spec(),
            final(self).score_spec() == old(self).score_spec(),
            final(self).active_spec() == old(self).active_spec(),
    {
        self.balance = self.balance.saturating_add(amount);
    }

    /// Takes `amount` from the stake, saturating, and lowers reputation by ten
    /// times the amount's share of the remaining stake, at most 20 (20 when
    /// nothing remains).
    pub fn apply_slashing(&mut self, amount: u64)
        requires
            old(self).wf(),
        ensures
            final(self).wf(),
            final(self).stake_spec() == if old(self).stake_spec() >= amount { (old(self).stake_spec() - amount) as u64 } else { 0 },
            final(self).stake_spec() <= old(self).stake_spec(),
            final(self).reputation_spec() <= old(self).reputation_spec(),
            final(self).reputation_spec() == ({
                let rest = final(self).stake_spec();
                let penalty: int = if rest == 0 { 20 } else if amount as int * 10 / rest as int > 20 { 20 } else { amount as int * 10 / rest as int };
                if old(self).reputation_spec() >= penalty { (old(self).reputation_spec() - penalty) as u8 } else { 0u8 }
            }),
            final(self).score_spec() == old(self).score_spec(),
            final(self).active_spec() == old(self).active_spec(),
    {
        self.stake = self.stake.saturating_sub(amount);
        let penalty: u8 = if self.stake == 0 {
            20
        } else {
            let p = (amount as u128) * 10 / (self.stake as u128);
            if p > 20 { 20 } else { p as u8 }
        };
        self.reputation = self.reputation.saturating_sub(penalty);
    }

    /// Changes reputation by `delta`, kept within 0 to 100.
    pub fn adjust_reputation(&mut self, delta: i16)
        requires
            old(self).wf(),
        ensures
            final(self).wf(),
            final(self).reputation_spec() as int == clamp_int(old(self).reputation_spec() + delta, 0, 100),
            final(self).stake_spec() == old(self).stake_spec(),
            final(self).score_spec() == old(self).score_spec(),
            final(self).active_spec() == old(self).active_spec(),
            final(self).history_spec() == old(self).history_spec(),
            final(self).id_spec() == old(self).id_spec(),
    {
        let v = self.reputation as i32 + delta as i32;
        self.reputation = if v < 0 { 0 } else if v > 100 { 100 } else { v as u8 };
    }

    /// Validator id.
    pub fn id(&self) -> (r: &str)
        ensures
            r@ == self.id_spec(),
    {
        self.id.as_str()
    }

    /// The validator's public key as hex.
    pub closed spec fn key_text(&self) -> Seq<char> {
        self.key_pair.public_key_text()
    }

    /// The signing key pair.
    pub fn key_pair(&self) -> (r: &KeyPair)
        ensures
            r.public_key_text() == self.key_text(),
            self.wf() ==> r.wf(),
    {
        &self.key_pair
    }

    /// Public key as hex.
    pub fn public_key_hex(&self) -> (r: String)
        ensures
            r@ == self.key_text(),
            self.wf() ==> r@.len() == 66,
    {
        self.key_pair.public_key_hex()
    }

    /// Current stake.
    pub fn get_stake(&self) -> (r: u64)
        ensures
            r == self.stake_spec(),
    {
        self.stake
    }

    /// Current reward balance.
    pub fn get_balance(&self) -> (r: u64)
        ensures
            r == self.balance_spec(),
    {
        self.balance
    }

    /// Current reputation.
    pub fn get_reputation(&self) -> (r: u8)
        ensures
            r == self.reputation_spec(),
    {
        self.reputation
    }
}

/// Whether a block passes the checks that do not involve signatures: its
/// hash and Merkle root recompute, it follows `previous_hash` at `height` in
/// `epoch`, each transaction hash recomputes, its timestamp is at most 5
/// seconds after `now` and at most an hour before, and it names a proposer.
pub open spec fn block_checks_pass(b: BlockModel, previous_hash: Seq<char>, height: u64, epoch: u64, now: u64) -> bool {
    &&& b.hash == block_hash_text(b.header, b.transactions)
    &&& b.header.previous_hash == previous_hash
    &&& b.header.height == height
    &&& b.header.epoch == epoch
    &&& forall|i: int| 0 <= i < b.transactions.len() ==> tx_hash_valid(#[trigger] b.transactions[i])
    &&& b.header.merkle_root == merkle_root_text(b.transactions)
    &&& b.header.timestamp <= now + 5000
    &&& b.header.timestamp >= now - 3_600_000
    &&& b.header.validator_id.len() > 0
}

/// Whether a block is valid at `now`: it passes `block_checks_pass`, its
/// signature verifies against the proposer's key, and so does every
/// transaction's signature against its sender's key.
pub open spec fn block_valid(b: BlockModel, previous_hash: Seq<char>, height: u64, epoch: u64, now: u64) -> bool {
    &&& block_checks_pass(b, previous_hash, height, epoch, now)
    &&& text_signature_outcome(block_signing_message(b), b.signature, b.proposer_public_key) == Some(true)
    &&& forall|i: int| 0 <= i < b.transactions.len() ==> text_signature_outcome(
        tx_signing_message(#[trigger] b.transactions[i]), b.transactions[i].signature, b.transactions[i].public_key) == Some(true)
}

/// The reason given for a block of another epoch.
pub open spec fn epoch_mismatch_reason(expected: u64, got: u64) -> Seq<char> {
    "Epoch mismatch: expected "@ + decimal(expected as nat) + ", got "@ + decimal(got as nat)
}

fn index_reason(prefix: &str, i: usize, suffix: &str) -> (r: String) {
    let mut s = String::from_str(prefix);
    s.append(decimal_text(i as u64).as_str());
    s.append(suffix);
    s
}

impl EmotionalValidator {
    /// Validates a proposed block against the expected previous hash, height
    /// and epoch at the current time; see `validate_block_at`.
    pub fn validate_block(&self, block: &Block, expected_previous_hash: &str, expected_height: u64, expected_epoch: u64)
        -> (r: Result<(), String>)
        ensures
            r is Ok ==> exists|now: u64| block_valid(block@, expected_previous_hash@, expected_height, expected_epoch, now),
            block@.hash == block_hash_text(block@.header, block@.transactions)
                && block@.header.previous_hash == expected_previous_hash@
                && block@.header.height == expected_height && block@.header.epoch != expected_epoch
                ==> (r matches Err(reason) && reason@ == epoch_mismatch_reason(expected_epoch, block@.header.epoch)),
    {
        self.validate_block_at(block, expected_previous_hash, expected_height, expected_epoch, now_millis())
    }

    /// Validates a proposed block at time `now`: the checks of
    /// `block_checks_pass` in order, then the block signature, then each
    /// transaction signature. The first failure is returned as the reason.
    pub fn validate_block_at(&self, block: &Block, expected_previous_hash: &str, expected_height: u64,
        expected_epoch: u64, now: u64) -> (r: Result<(), String>)
        ensures
            r is Ok <==> block_valid(block@, expected_previous_hash@, expected_height, expected_epoch, now),
            block@.hash == block_hash_text(block@.header, block@.transactions)
                && block@.header.previous_hash == expected_previous_hash@
                && block@.header.height == expected_height && block@.header.epoch != expected_epoch
                ==> (r matches Err(reason) && reason@ == epoch_mismatch_reason(expected_epoch, block@.header.epoch)),
    {
        if !block.verify_hash() {
            return Err(String::from_str("Block hash does not match content"));
        }
        if !text_eq(block.header.previous_hash.as_str(), expected_previous_hash) {
            let mut s = String::from_str("Previous hash mismatch: expected ");
            s.append(expected_previous_hash);
            s.append(", got ");
            s.append(block.header.previous_hash.as_str());
            return Err(s);
        }
        if block.header.height != expected_height {
            let mut s = String::from_str("Block height mismatch: expected ");
            s.append(decimal_text(expected_height).as_str());
            s.append(", got ");
            s.append(decimal_text(block.header.height).as_str());
            return Err(s);
        }
        if block.header.epoch != expected_epoch {
            let mut s = String::from_str("Epoch mismatch: expected ");
            s.append(decimal_text(expected_epoch).as_str());
            s.append(", got ");
            s.append(decimal_text(block.header.epoch).as_str());
            return Err(s);
        }
        match first_bad_tx_hash(block) {
            Some(i) => {
                return Err(index_reason("Transaction ", i, " has invalid hash"));
            },
            None => {},
        }
        let root = Block::calculate_merkle_root(&block.transactions);
        if !(root == block.header.merkle_root) {
            let mut s = String::from_str("Merkle root mismatch: expected ");
            s.append(root.as_str());
            s.append(", got ");
            s.append(block.header.merkle_root.as_str());
            return Err(s);
        }
        if block.header.timestamp > now && block.header.timestamp - now > 5000 {
            return Err(String::from_str("Block timestamp is too far in the future"));
        }
        if block.header.timestamp < now.saturating_sub(3_600_000) {
            return Err(String::from_str("Block timestamp is too old (>1 hour)"));
        }
        if block.header.validator_id.as_str().unicode_len() == 0 {
            return Err(String::from_str("Block has no validator ID"));
        }
        assert(block_checks_pass(block@, expected_previous_hash@, expected_height, expected_epoch, now));
        match block.verify_signature() {
            Ok(true) => {},
            Ok(false) => {
                return Err(String::from_str("Block signature verification failed"));
            },
            Err(e) => {
                let mut s = String::from_str("Block signature error: ");
                s.append(e.as_str());
                return Err(s);
            },
        }
        tx_signatures_valid(block)
    }
}


/// The position of the first transaction whose hash does not recompute.
fn first_bad_tx_hash(block: &Block) -> (r: Option<usize>)
    ensures
        r is None <==> forall|k: int| 0 <= k < block@.transactions.len() ==> tx_hash_valid(#[trigger] block@.transactions[k]),
{
    let mut i: usize = 0;
    while i < block.transactions.len()
        invariant
            i <= block.transactions@.len(),
            forall|k: int| 0 <= k < i ==> tx_hash_valid(#[trigger] block@.transactions[k]),
        decreases block.transactions@.len() - i,
    {
        assert(block@.transactions[i as int] == block.transactions@[i as int]@);
        if !block.transactions[i].verify_hash() {
            return Some(i);
        }
        i = i + 1;
    }
    None
}

/// Checks every transaction signature of a block, in order; the first one
/// that fails gives the reason.
fn tx_signatures_valid(block: &Block) -> (r: Result<(), String>)
    ensures
        r is Ok <==> forall|i: int| 0 <= i < block@.transactions.len() ==> text_signature_outcome(
            tx_signing_message(#[trigger] block@.transactions[i]), block@.transactions[i].signature,
            block@.transactions[i].public_key) == Some(true),
{
        let mut j: usize = 0;
        while j < block.transactions.len()
            invariant
                j <= block.transactions@.len(),
                forall|k: int| 0 <= k < j ==> text_signature_outcome(tx_signing_message(#[trigger] block@.transactions[k]),
                    block@.transactions[k].signature, block@.transactions[k].public_key) == Some(true),
            decreases block.transactions@.len() - j,
        {
            assert(block@.transactions[j as int] == block.transactions@[j as int]@);
            match block.transactions[j].verify_signature() {
                Ok(true) => {},
                Ok(false) => {
                    return Err(index_reason("Transaction ", j, " signature verification failed"));
                },
                Err(e) => {
                    let mut s = index_reason("Transaction ", j, " signature error: ");
                    s.append(e.as_str());
                    return Err(s);
                },
            }
            j = j + 1;
        }
        Ok(())
}

/// The history kept after adding a score: the last 100.
pub open spec fn kept_history(h: Seq<u8>) -> Seq<u8> {
    if h.len() > SCORE_HISTORY_LEN { h.subrange(1, h.len() as int) } else { h }
}

/// A reputation kept within bounds stays within 0 to 100 whatever the change.
pub proof fn lemma_reputation_stays_bounded(rep: u8, delta: i16)
    ensures
        0 <= clamp_int(rep + delta, 0, 100) <= 100,
{
}

/// Simulated readings for a validator come from a seed derived from its id.
#[derive(Debug)]
pub struct BiometricSimulator {
    device_id: String,
    validator_seed: u64,
}

impl BiometricSimulator {
    /// A simulator for `validator_id` whose readings carry `device_id`.
    pub fn new(device_id: String, validator_id: &str) -> (r: BiometricSimulator)
        ensures
            r.device_spec() == device_id@,
            r.seed() == seed_of(validator_id.spec_bytes()),
    {
        BiometricSimulator { device_id, validator_seed: string_to_seed(validator_id) }
    }

    /// The simulator's device id.
    pub closed spec fn device_spec(&self) -> Seq<char> {
        self.device_id@
    }

    /// The simulator's seed.
    pub closed spec fn seed(&self) -> u64 {
        self.validator_seed
    }

    /// The device id.
    pub fn device_id(&self) -> (r: &str)
        ensures
            r@ == self.device_spec(),
    {
        self.device_id.as_str()
    }

    /// The seed derived from the validator id.
    pub fn validator_seed(&self) -> (r: u64)
        ensures
            r == self.seed(),
    {
        self.validator_seed
    }

    /// Whether the device works; a simulator always does.
    pub fn is_healthy(&self) -> (r: bool)
        ensures
            r,
    {
        true
    }
}

} // verus!
