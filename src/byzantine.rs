//! Detection of double voting, equivocation and double signing.

use vstd::prelude::*;
use vstd::string::*;
use crate::staking::{SlashingEvent, SlashingOffense, SlashingSeverity};
use crate::types::{Vote, VoteModel};
use crate::utils::{decimal, decimal_text, now_millis, text_eq};

verus! {

/// A block proposal, as plain values.
pub struct ProposalModel {
    pub validator_id: Seq<char>,
    pub height: u64,
    pub block_hash: Seq<char>,
}

/// Evidence that a validator proposed a block.
#[derive(Debug)]
pub struct ProposalEvidence {
    /// Id of the proposer.
    pub validator_id: String,
    /// Height of the block.
    pub height: u64,
    /// Hash of the block.
    pub block_hash: String,
    /// Time of the proposal, in milliseconds since the Unix epoch.
    pub timestamp: u64,
}

impl View for ProposalEvidence {
    type V = ProposalModel;

    open spec fn view(&self) -> ProposalModel {
        ProposalModel { validator_id: self.validator_id@, height: self.height, block_hash: self.block_hash@ }
    }
}

/// Whether an earlier vote conflicts with a new one: the same validator in
/// the same epoch, on another block or with the other verdict.
pub open spec fn votes_conflict(earlier: VoteModel, new: VoteModel) -> bool {
    earlier.validator_id == new.validator_id && earlier.epoch == new.epoch
        && (earlier.block_hash != new.block_hash || earlier.approved != new.approved)
}

/// The first recorded vote that conflicts with a new one: `Some(true)` when it
/// is on the same block with the other verdict (double voting), `Some(false)`
/// when it is on another block (equivocation), `None` when none conflicts.
pub open spec fn first_conflict(votes: Seq<VoteModel>, new: VoteModel) -> Option<bool>
    decreases votes.len(),
{
    if votes.len() == 0 {
        None
    } else if votes_conflict(votes[0], new) {
        Some(votes[0].block_hash == new.block_hash)
    } else {
        first_conflict(votes.subrange(1, votes.len() as int), new)
    }
}

/// Whether an earlier proposal conflicts with a new one: the same validator
/// at the same height with another block.
pub open spec fn proposals_conflict(earlier: ProposalModel, validator_id: Seq<char>, height: u64, block_hash: Seq<char>) -> bool {
    earlier.validator_id == validator_id && earlier.height == height && earlier.block_hash != block_hash
}

/// What a slashing event records, as plain values.
pub open spec fn event_is(e: SlashingEvent, validator_id: Seq<char>, severity: SlashingSeverity) -> bool {
    &&& e.validator_id@ == validator_id
    &&& e.offense == SlashingOffense::DoubleSigning
    &&& e.severity == severity
    &&& e.slashing_rate == (if severity == SlashingSeverity::Critical { 15u8 } else { 5u8 })
    &&& e.amount == 0
}

/// Whether a vote is kept by a cleanup with the given cutoff epoch.
pub open spec fn vote_retained(cutoff: u64) -> spec_fn(VoteModel) -> bool {
    |v: VoteModel| v.epoch >= cutoff
}

/// The error text for double voting.
pub open spec fn double_vote_message(validator_id: Seq<char>, epoch: u64) -> Seq<char> {
    "Double voting detected for validator "@ + validator_id + " in epoch "@ + decimal(epoch as nat)
}

/// The error text for equivocation.
pub open spec fn equivocation_message(validator_id: Seq<char>, epoch: u64) -> Seq<char> {
    "Equivocation detected for validator "@ + validator_id + " in epoch "@ + decimal(epoch as nat)
}

/// The error text for double signing.
pub open spec fn double_sign_message(validator_id: Seq<char>, height: u64) -> Seq<char> {
    "Double signing detected for validator "@ + validator_id + " at height "@ + decimal(height as nat)
}

/// The views of a list of votes.
pub open spec fn vote_models(v: Seq<Vote>) -> Seq<VoteModel> {
    Seq::new(v.len(), |i: int| v[i]@)
}

/// The views of a list of proposals.
pub open spec fn proposal_models(v: Seq<ProposalEvidence>) -> Seq<ProposalModel> {
    Seq::new(v.len(), |i: int| v[i]@)
}

/// Records votes and proposals and detects Byzantine behaviour as they
/// arrive.
pub struct ByzantineDetector {
    votes: Vec<Vote>,
    proposals: Vec<ProposalEvidence>,
    slashing_events: Vec<SlashingEvent>,
}

impl ByzantineDetector {
    /// The recorded votes.
    pub closed spec fn votes_spec(&self) -> Seq<VoteModel> {
        vote_models(self.votes@)
    }

    /// The recorded proposals.
    pub closed spec fn proposals_spec(&self) -> Seq<ProposalModel> {
        proposal_models(self.proposals@)
    }

    /// The slashing events detected, oldest first.
    pub closed spec fn events_spec(&self) -> Seq<SlashingEvent> {
        self.slashing_events@
    }

    /// A detector with nothing recorded.
    pub fn new() -> (r: Self)
        ensures
            r.votes_spec().len() == 0,
            r.proposals_spec().len() == 0,
            r.events_spec().len() == 0,
    {
        ByzantineDetector { votes: Vec::new(), proposals: Vec::new(), slashing_events: Vec::new() }
    }

    fn make_event(validator_id: &str, number: u64, kind: &str, severity: SlashingSeverity, evidence: String) -> (r: SlashingEvent)
        ensures
            event_is(r, validator_id@, severity),
    {
        let mut id = String::from_str(kind);
        id.append("-");
        id.append(validator_id);
        id.append("-");
        id.append(decimal_text(number).as_str());
        let rate: u8 = match severity {
            SlashingSeverity::Critical => 15,
            _ => 5,
        };
        SlashingEvent {
            id,
            validator_id: validator_id.to_owned(),
            offense: SlashingOffense::DoubleSigning,
            severity,
            slashing_rate: rate,
            amount: 0,
            timestamp: now_millis(),
            evidence,
        }
    }

    /// Records a vote. A vote that conflicts with one recorded earlier is
    /// refused: the first such vote decides whether it is double voting, a
    /// critical offense, or equivocation, a major one; the event is recorded
    /// and the vote is not. Otherwise the vote is stored.
    pub fn record_vote(&mut self, vote: &Vote) -> (r: Result<(), String>)
        ensures
            match first_conflict(old(self).votes_spec(), vote@) {
                None => r is Ok && final(self).votes_spec() == old(self).votes_spec().push(vote@)
                    && final(self).events_spec() == old(self).events_spec(),
                Some(double) => (r matches Err(m) && m@ == if double {
                    double_vote_message(vote@.validator_id, vote@.epoch)
                } else {
                    equivocation_message(vote@.validator_id, vote@.epoch)
                }) && final(self).votes_spec() == old(self).votes_spec()
                    && final(self).events_spec().len() == old(self).events_spec().len() + 1
                    && final(self).events_spec().drop_last() == old(self).events_spec()
                    && event_is(final(self).events_spec().last(), vote@.validator_id,
                        if double { SlashingSeverity::Critical } else { SlashingSeverity::Major }),
            },
            final(self).proposals_spec() == old(self).proposals_spec(),
    {
        let ghost all = self.votes_spec();
        assert(all.subrange(0, all.len() as int) =~= all);
        let mut i: usize = 0;
        while i < self.votes.len()
            invariant
                all == vote_models(self.votes@),
                all == old(self).votes_spec(),
                self.votes@ == old(self).votes@,
                self.proposals@ == old(self).proposals@,
                self.slashing_events@ == old(self).slashing_events@,
                i <= all.len(),
                first_conflict(all, vote@) == first_conflict(all.subrange(i as int, all.len() as int), vote@),
            decreases all.len() - i,
        {
            let e = &self.votes[i];
            proof {
                let rest = all.subrange(i as int, all.len() as int);
                assert(rest[0] == e@);
                assert(rest.subrange(1, rest.len() as int) =~= all.subrange(i as int + 1, all.len() as int));
            }
            if text_eq(e.validator_id.as_str(), vote.validator_id.as_str()) && e.epoch == vote.epoch {
                let same_block = text_eq(e.block_hash.as_str(), vote.block_hash.as_str());
                if same_block && e.approved != vote.approved {
                    let mut evidence = String::from_str("Double voting in epoch ");
                    evidence.append(decimal_text(vote.epoch).as_str());
                    evidence.append(": conflicting votes on the same block");
                    let event = ByzantineDetector::make_event(vote.validator_id.as_str(), vote.epoch, "double-vote",
                        SlashingSeverity::Critical, evidence);
                    self.slashing_events.push(event);
                    let mut msg = String::from_str("Double voting detected for validator ");
                    msg.append(vote.validator_id.as_str());
                    msg.append(" in epoch ");
                    msg.append(decimal_text(vote.epoch).as_str());
                    proof {
                        assert(self.slashing_events@.drop_last() =~= old(self).slashing_events@);
                    }
                    return Err(msg);
                }
                if !same_block {
                    let mut evidence = String::from_str("Equivocation in epoch ");
                    evidence.append(decimal_text(vote.epoch).as_str());
                    evidence.append(": voted on different blocks");
                    let event = ByzantineDetector::make_event(vote.validator_id.as_str(), vote.epoch, "equivocation",
                        SlashingSeverity::Major, evidence);
                    self.slashing_events.push(event);
                    let mut msg = String::from_str("Equivocation detected for validator ");
                    msg.append(vote.validator_id.as_str());
                    msg.append(" in epoch ");
                    msg.append(decimal_text(vote.epoch).as_str());
                    proof {
                        assert(self.slashing_events@.drop_last() =~= old(self).slashing_events@);
                    }
                    return Err(msg);
                }
            }
            i = i + 1;
        }
        self.votes.push(vote.clone());
        proof {
            assert(all.subrange(all.len() as int, all.len() as int).len() == 0);
            assert(vote_models(self.votes@) =~= all.push(vote@));
        }
        Ok(())
    }

    /// Records a block proposal. A proposal by the same validator at the same
    /// height with another block is double signing: a critical event is
    /// recorded and the proposal is refused. Otherwise it is stored.
    pub fn record_proposal(&mut self, validator_id: &str, height: u64, block_hash: &str) -> (r: Result<(), String>)
        ensures
            (exists|i: int| 0 <= i < old(self).proposals_spec().len()
                && proposals_conflict(#[trigger] old(self).proposals_spec()[i], validator_id@, height, block_hash@)) ==> {
                &&& r matches Err(m) && m@ == double_sign_message(validator_id@, height)
                &&& final(self).proposals_spec() == old(self).proposals_spec()
                &&& final(self).events_spec().len() == old(self).events_spec().len() + 1
                &&& final(self).events_spec().drop_last() == old(self).events_spec()
                &&& event_is(final(self).events_spec().last(), validator_id@, SlashingSeverity::Critical)
            },
            !(exists|i: int| 0 <= i < old(self).proposals_spec().len()
                && proposals_conflict(#[trigger] old(self).proposals_spec()[i], validator_id@, height, block_hash@)) ==> {
                &&& r is Ok
                &&& final(self).proposals_spec() == old(self).proposals_spec().push(
                    ProposalModel { validator_id: validator_id@, height, block_hash: block_hash@ })
                &&& final(self).events_spec() == old(self).events_spec()
            },
            final(self).votes_spec() == old(self).votes_spec(),
    {
        let ghost all = self.proposals_spec();
        let mut i: usize = 0;
        while i < self.proposals.len()
            invariant
                all == proposal_models(self.proposals@),
                all == old(self).proposals_spec(),
                self.proposals@ == old(self).proposals@,
                self.slashing_events@ == old(self).slashing_events@,
                self.votes@ == old(self).votes@,
                i <= all.len(),
                forall|k: int| 0 <= k < i ==> !proposals_conflict(#[trigger] all[k], validator_id@, height, block_hash@),
            decreases all.len() - i,
        {
            let p = &self.proposals[i];
            assert(all[i as int] == p@);
            if p.height == height && text_eq(p.validator_id.as_str(), validator_id)
                && !text_eq(p.block_hash.as_str(), block_hash) {
                assert(proposals_conflict(all[i as int], validator_id@, height, block_hash@));
                let mut evidence = String::from_str("Double signing at height ");
                evidence.append(decimal_text(height).as_str());
                evidence.append(": proposed ");
                evidence.append(p.block_hash.as_str());
                evidence.append(" and ");
                evidence.append(block_hash);
                let event = ByzantineDetector::make_event(validator_id, height, "double-sign", SlashingSeverity::Critical, evidence);
                self.slashing_events.push(event);
                let mut msg = String::from_str("Double signing detected for validator ");
                msg.append(validator_id);
                msg.append(" at height ");
                msg.append(decimal_text(height).as_str());
                proof {
                    assert(self.slashing_events@.drop_last() =~= old(self).slashing_events@);
                }
                return Err(msg);
            }
            i = i + 1;
        }
        let evidence = ProposalEvidence {
            validator_id: validator_id.to_owned(),
            height,
            block_hash: block_hash.to_owned(),
            timestamp: now_millis(),
        };
        self.proposals.push(evidence);
        proof {
            assert(proposal_models(self.proposals@) =~= all.push(
                ProposalModel { validator_id: validator_id@, height, block_hash: block_hash@ }));
        }
        Ok(())
    }

    /// Whether two recorded votes of `validator_id` in `epoch` are on the
    /// same block with opposite verdicts (`same_block`), or on different
    /// blocks (otherwise).
    pub closed spec fn has_vote_pair(&self, validator_id: Seq<char>, epoch: Option<u64>, same_block: bool) -> bool {
        let v = self.votes_spec();
        exists|i: int, j: int| 0 <= i < v.len() && 0 <= j < v.len()
            && v[i].validator_id == validator_id && v[j].validator_id == validator_id
            && v[i].epoch == v[j].epoch
            && (epoch matches Some(e) ==> v[i].epoch == e)
            && if same_block {
                v[i].block_hash == v[j].block_hash && v[i].approved != v[j].approved
            } else {
                v[i].block_hash != v[j].block_hash
            }
    }

    fn scan_vote_pairs(&self, validator_id: &str, epoch: Option<u64>, same_block: bool) -> (r: Option<u64>)
        ensures
            r is Some <==> self.has_vote_pair(validator_id@, epoch, same_block),
    {
        let ghost v = self.votes_spec();
        let n = self.votes.len();
        let mut i: usize = 0;
        while i < n
            invariant
                v == vote_models(self.votes@),
                n == v.len(),
                i <= n,
                forall|a: int, b: int| 0 <= a < i && 0 <= b < n ==> !(
                    v[a].validator_id == validator_id@ && v[b].validator_id == validator_id@
                    && v[a].epoch == v[b].epoch && (epoch matches Some(e) ==> v[a].epoch == e)
                    && if same_block {
                        v[a].block_hash == v[b].block_hash && v[a].approved != v[b].approved
                    } else {
                        v[a].block_hash != v[b].block_hash
                    }),
            decreases n - i,
        {
            let a = &self.votes[i];
            assert(v[i as int] == a@);
            let mut j: usize = 0;
            while j < n
                invariant
                    v == vote_models(self.votes@),
                    n == v.len(),
                    i < n,
                    j <= n,
                    v[i as int] == a@,
                    forall|b: int| 0 <= b < j ==> !(
                        v[i as int].validator_id == validator_id@ && v[b].validator_id == validator_id@
                        && v[i as int].epoch == v[b].epoch && (epoch matches Some(e) ==> v[i as int].epoch == e)
                        && if same_block {
                            v[i as int].block_hash == v[b].block_hash && v[i as int].approved != v[b].approved
                        } else {
                            v[i as int].block_hash != v[b].block_hash
                        }),
                decreases n - j,
            {
                let b = &self.votes[j];
                assert(v[j as int] == b@);
                let epoch_ok = match epoch {
                    Some(e) => a.epoch == e,
                    None => true,
                };
                let same_hash = text_eq(a.block_hash.as_str(), b.block_hash.as_str());
                let kind_ok = if same_block { same_hash && a.approved != b.approved } else { !same_hash };
                if text_eq(a.validator_id.as_str(), validator_id) && text_eq(b.validator_id.as_str(), validator_id)
                    && a.epoch == b.epoch && epoch_ok && kind_ok {
                    assert(self.votes_spec()[i as int] == v[i as int]);
                    return Some(a.epoch);
                }
                j = j + 1;
            }
            i = i + 1;
        }
        None
    }

    /// Detects double voting by a validator in an epoch: two votes on the
    /// same block with opposite verdicts give a critical event; failing
    /// that, votes on two blocks give a major equivocation event.
    pub fn detect_double_voting(&self, validator_id: &str, epoch: u64) -> (r: Option<SlashingEvent>)
        ensures
            self.has_vote_pair(validator_id@, Some(epoch), true)
                ==> (r matches Some(e) && event_is(e, validator_id@, SlashingSeverity::Critical)),
            !self.has_vote_pair(validator_id@, Some(epoch), true) && self.has_vote_pair(validator_id@, Some(epoch), false)
                ==> (r matches Some(e) && event_is(e, validator_id@, SlashingSeverity::Major)),
            !self.has_vote_pair(validator_id@, Some(epoch), true) && !self.has_vote_pair(validator_id@, Some(epoch), false)
                ==> r is None,
    {
        if self.scan_vote_pairs(validator_id, Some(epoch), true).is_some() {
            let mut evidence = String::from_str("Double voting in epoch ");
            evidence.append(decimal_text(epoch).as_str());
            return Some(ByzantineDetector::make_event(validator_id, epoch, "double-vote", SlashingSeverity::Critical, evidence));
        }
        if self.scan_vote_pairs(validator_id, Some(epoch), false).is_some() {
            let mut evidence = String::from_str("Equivocation in epoch ");
            evidence.append(decimal_text(epoch).as_str());
            return Some(ByzantineDetector::make_event(validator_id, epoch, "equivocation", SlashingSeverity::Major, evidence));
        }
        None
    }

    /// Detects equivocation by a validator in any epoch: votes on two blocks
    /// in one epoch give a major event.
    pub fn detect_equivocation(&self, validator_id: &str) -> (r: Option<SlashingEvent>)
        ensures
            self.has_vote_pair(validator_id@, None, false) ==> (r matches Some(e) && event_is(e, validator_id@, SlashingSeverity::Major)),
            !self.has_vote_pair(validator_id@, None, false) ==> r is None,
    {
        match self.scan_vote_pairs(validator_id, None, false) {
            Some(epoch) => {
                let mut evidence = String::from_str("Equivocation in epoch ");
                evidence.append(decimal_text(epoch).as_str());
                Some(ByzantineDetector::make_event(validator_id, epoch, "equivocation", SlashingSeverity::Major, evidence))
            },
            None => None,
        }
    }

    /// Detects double signing by a validator at a height: two recorded
    /// proposals of different blocks give a critical event.
    pub fn detect_double_signing(&self, validator_id: &str, height: u64) -> (r: Option<SlashingEvent>)
        ensures
            (exists|i: int, j: int| 0 <= i < self.proposals_spec().len() && 0 <= j < self.proposals_spec().len()
                && self.proposals_spec()[i].validator_id == validator_id@ && self.proposals_spec()[i].height == height
                && proposals_conflict(self.proposals_spec()[j], validator_id@, height, self.proposals_spec()[i].block_hash))
                ==> (r matches Some(e) && event_is(e, validator_id@, SlashingSeverity::Critical)),
            !(exists|i: int, j: int| 0 <= i < self.proposals_spec().len() && 0 <= j < self.proposals_spec().len()
                && self.proposals_spec()[i].validator_id == validator_id@ && self.proposals_spec()[i].height == height
                && proposals_conflict(self.proposals_spec()[j], validator_id@, height, self.proposals_spec()[i].block_hash))
                ==> r is None,
    {
        let ghost v = self.proposals_spec();
        let n = self.proposals.len();
        let mut i: usize = 0;
        while i < n
            invariant
                v == proposal_models(self.proposals@),
                n == v.len(),
                i <= n,
                forall|a: int, b: int| 0 <= a < i && 0 <= b < n ==> !(v[a].validator_id == validator_id@ && v[a].height == height
                    && proposals_conflict(v[b], validator_id@, height, v[a].block_hash)),
            decreases n - i,
        {
            let a = &self.proposals[i];
            assert(v[i as int] == a@);
            let mut j: usize = 0;
            while j < n
                invariant
                    v == proposal_models(self.proposals@),
                    n == v.len(),
                    i < n,
                    j <= n,
                    v[i as int] == a@,
                    forall|b: int| 0 <= b < j ==> !(v[i as int].validator_id == validator_id@ && v[i as int].height == height
                        && proposals_conflict(v[b], validator_id@, height, v[i as int].block_hash)),
                decreases n - j,
            {
                let b = &self.proposals[j];
                assert(v[j as int] == b@);
                if a.height == height && b.height == height && text_eq(a.validator_id.as_str(), validator_id)
                    && text_eq(b.validator_id.as_str(), validator_id) && !text_eq(a.block_hash.as_str(), b.block_hash.as_str()) {
                    let mut evidence = String::from_str("Double signing at height ");
                    evidence.append(decimal_text(height).as_str());
                    assert(self.proposals_spec()[i as int] == v[i as int]);
                    assert(self.proposals_spec()[j as int] == v[j as int]);
                    assert(self.proposals_spec()[i as int].validator_id == validator_id@ && self.proposals_spec()[i as int].height == height
                        && proposals_conflict(self.proposals_spec()[j as int], validator_id@, height, self.proposals_spec()[i as int].block_hash));
                    return Some(ByzantineDetector::make_event(validator_id, height, "double-sign", SlashingSeverity::Critical, evidence));
                }
                j = j + 1;
            }
            i = i + 1;
        }
        proof {
            assert(v == self.proposals_spec());
            assert forall|a: int, b: int| 0 <= a < v.len() && 0 <= b < v.len() implies !(
                self.proposals_spec()[a].validator_id == validator_id@ && self.proposals_spec()[a].height == height
                && proposals_conflict(self.proposals_spec()[b], validator_id@, height, self.proposals_spec()[a].block_hash)) by {
                assert(self.proposals_spec()[a] == v[a]);
                assert(self.proposals_spec()[b] == v[b]);
            }
        }
        None
    }

    /// Copies of the detected slashing events, oldest first.
    pub fn get_slashing_events(&self) -> (r: Vec<SlashingEvent>)
        ensures
            r@.len() == self.events_spec().len(),
            forall|i: int| 0 <= i < r@.len() ==> #[trigger] r@[i].validator_id@ == self.events_spec()[i].validator_id@
                && r@[i].offense == self.events_spec()[i].offense && r@[i].severity == self.events_spec()[i].severity,
    {
        let mut r: Vec<SlashingEvent> = Vec::new();
        let mut i: usize = 0;
        while i < self.slashing_events.len()
            invariant
                i <= self.slashing_events@.len(),
                r@.len() == i,
                forall|k: int| 0 <= k < i ==> (#[trigger] r@[k]).validator_id@ == self.slashing_events@[k].validator_id@
                    && r@[k].offense == self.slashing_events@[k].offense && r@[k].severity == self.slashing_events@[k].severity,
            decreases self.slashing_events@.len() - i,
        {
            let e = self.slashing_events[i].clone();
            assert(e.validator_id@ == self.slashing_events@[i as int].validator_id@);
            r.push(e);
            assert(r@[i as int].validator_id@ == self.slashing_events@[i as int].validator_id@);
            i = i + 1;
        }
        r
    }

    /// Drops the votes of epochs older than `retention_epochs` before
    /// `current_epoch`; proposals and events stay.
    pub fn cleanup_old_data(&mut self, current_epoch: u64, retention_epochs: u64)
        ensures
            final(self).votes_spec() == old(self).votes_spec().filter(
                vote_retained(if current_epoch >= retention_epochs { (current_epoch - retention_epochs) as u64 } else { 0 })),
            final(self).proposals_spec() == old(self).proposals_spec(),
            final(self).events_spec() == old(self).events_spec(),
    {
        let cutoff = current_epoch.saturating_sub(retention_epochs);
        let ghost keep = vote_retained(cutoff);
        let ghost all = self.votes_spec();
        let mut kept: Vec<Vote> = Vec::new();
        proof {
            reveal(Seq::filter);
            assert(vote_models(kept@) =~= all.subrange(0, 0).filter(keep));
        }
        let mut i: usize = 0;
        while i < self.votes.len()
            invariant
                all == vote_models(self.votes@),
                all == old(self).votes_spec(),
                self.votes@ == old(self).votes@,
                self.proposals@ == old(self).proposals@,
                self.slashing_events@ == old(self).slashing_events@,
                keep == vote_retained(cutoff),
                i <= all.len(),
                vote_models(kept@) == all.subrange(0, i as int).filter(keep),
            decreases all.len() - i,
        {
            proof {
                assert(all.subrange(0, i as int + 1).drop_last() =~= all.subrange(0, i as int));
                assert(all.subrange(0, i as int + 1).last() == self.votes@[i as int]@);
                reveal(Seq::filter);
            }
            let ghost before = vote_models(kept@);
            proof {
                assert(all.subrange(0, i as int + 1) =~= all.subrange(0, i as int).push(all[i as int]));
                all.subrange(0, i as int).lemma_filter_push(all[i as int], keep);
                assert(all[i as int] == self.votes@[i as int]@);
            }
            if self.votes[i].epoch >= cutoff {
                kept.push(self.votes[i].clone());
                assert(vote_models(kept@) =~= before.push(all[i as int]));

            } else {

            }
            i = i + 1;
        }
        proof {
            assert(all.subrange(0, all.len() as int) =~= all);
        }
        self.votes = kept;
    }
}

} // verus!
