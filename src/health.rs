//! Health classification of the consensus engine.

use vstd::prelude::*;
use vstd::string::*;
use crate::consensus::{ConsensusMetrics, ConsensusState, ProofOfEmotionEngine};
use crate::utils::{decimal, decimal_text, now_millis};

verus! {

/// Overall health.
#[derive(Debug, Clone, Copy, PartialEq, Eq, Structural)]
pub enum HealthState {
    /// No issue.
    Healthy,
    /// One or two issues, none of them critical.
    Degraded,
    /// More issues, or the network is unresponsive.
    Critical,
}

/// A detected health issue.
#[derive(Debug, Clone, Copy, PartialEq, Eq, Structural)]
pub enum HealthIssue {
    /// Consensus strength below 67%.
    LowConsensus(u8),
    /// Participation below 50%.
    LowParticipation(u8),
    /// No block finalized after 5 epochs; the epoch.
    StaleChain(u64),
    /// Fewer than 4 validators.
    InsufficientValidators(usize),
    /// More than 1000 pending transactions.
    TransactionBacklog(usize),
    /// The network does not respond.
    NetworkUnresponsive,
    /// Byzantine failures in more than 10% of epochs; the rate in thousandths.
    HighByzantineRate(u64),
}

/// A health report.
#[derive(Debug)]
pub struct HealthStatus {
    /// Overall health.
    pub status: HealthState,
    /// Protocol version.
    pub version: String,
    /// Seconds since start.
    pub uptime_seconds: u64,
    /// Current epoch.
    pub current_epoch: u64,
    /// Consensus strength in percent.
    pub consensus_strength: u8,
    /// Registered validators.
    pub validator_count: usize,
    /// Active validators.
    pub active_validators: usize,
    /// Height of the last finalized block.
    pub last_finalized_block: u64,
    /// Pending transactions.
    pub pending_transactions: usize,
    /// Participation rate in percent.
    pub participation_rate: u8,
    /// Issues found.
    pub issues: Vec<HealthIssue>,
    /// Time of the check, in seconds since the Unix epoch.
    pub checked_at: u64,
}

/// The Byzantine failure rate in thousandths, when there were epochs.
pub open spec fn byzantine_rate(m: ConsensusMetrics) -> nat {
    if m.total_epochs == 0 { 0 } else { m.byzantine_failures as nat * 1000 / m.total_epochs as nat }
}

/// The issues a state and metrics show, in a fixed order.
pub open spec fn issues_of(s: ConsensusState, m: ConsensusMetrics) -> Seq<HealthIssue> {
    let a = if s.consensus_strength < 67 { seq![HealthIssue::LowConsensus(s.consensus_strength)] } else { seq![] };
    let b = if s.participation_rate < 50 { seq![HealthIssue::LowParticipation(s.participation_rate)] } else { seq![] };
    let c = if s.last_finalized_height == 0 && s.current_epoch > 5 { seq![HealthIssue::StaleChain(s.current_epoch)] } else { seq![] };
    let d = if s.total_validators < 4 { seq![HealthIssue::InsufficientValidators(s.total_validators)] } else { seq![] };
    let e = if s.pending_transactions > 1000 { seq![HealthIssue::TransactionBacklog(s.pending_transactions)] } else { seq![] };
    let f = if m.total_epochs > 0 && m.byzantine_failures as nat * 10 > m.total_epochs as nat {
        seq![HealthIssue::HighByzantineRate(byzantine_rate(m) as u64)]
    } else {
        seq![]
    };
    a + b + c + d + e + f
}

/// The overall health that issues give: healthy without issues, degraded
/// with one or two and none unresponsive, critical otherwise.
pub open spec fn classify(issues: Seq<HealthIssue>) -> HealthState {
    if issues.len() == 0 {
        HealthState::Healthy
    } else if issues.len() <= 2 && !(exists|i: int| 0 <= i < issues.len() && issues[i] == HealthIssue::NetworkUnresponsive) {
        HealthState::Degraded
    } else {
        HealthState::Critical
    }
}

/// The text of one issue.
pub open spec fn issue_text(i: HealthIssue) -> Seq<char> {
    match i {
        HealthIssue::LowConsensus(x) => "Low consensus ("@ + decimal(x as nat) + "%)"@,
        HealthIssue::LowParticipation(x) => "Low participation ("@ + decimal(x as nat) + "%)"@,
        HealthIssue::StaleChain(e) => "Stale chain (epoch "@ + decimal(e as nat) + ")"@,
        HealthIssue::InsufficientValidators(n) => "Insufficient validators ("@ + decimal(n as nat) + ")"@,
        HealthIssue::TransactionBacklog(n) => "Transaction backlog ("@ + decimal(n as nat) + ")"@,
        HealthIssue::NetworkUnresponsive => "Network unresponsive"@,
        HealthIssue::HighByzantineRate(p) => "High Byzantine rate ("@ + decimal(p as nat / 10) + "."@
            + decimal(p as nat % 10) + "%)"@,
    }
}

/// The texts of issues joined by commas.
pub open spec fn issues_text(issues: Seq<HealthIssue>) -> Seq<char>
    decreases issues.len(),
{
    if issues.len() == 0 {
        Seq::empty()
    } else if issues.len() == 1 {
        issue_text(issues[0])
    } else {
        issues_text(issues.drop_last()) + ", "@ + issue_text(issues.last())
    }
}

fn issue_message(i: HealthIssue) -> (r: String)
    ensures
        r@ == issue_text(i),
{
    match i {
        HealthIssue::LowConsensus(x) => {
            let mut s = String::from_str("Low consensus (");
            s.append(decimal_text(x as u64).as_str());
            s.append("%)");
            s
        },
        HealthIssue::LowParticipation(x) => {
            let mut s = String::from_str("Low participation (");
            s.append(decimal_text(x as u64).as_str());
            s.append("%)");
            s
        },
        HealthIssue::StaleChain(e) => {
            let mut s = String::from_str("Stale chain (epoch ");
            s.append(decimal_text(e).as_str());
            s.append(")");
            s
        },
        HealthIssue::InsufficientValidators(n) => {
            let mut s = String::from_str("Insufficient validators (");
            s.append(decimal_text(n as u64).as_str());
            s.append(")");
            s
        },
        HealthIssue::TransactionBacklog(n) => {
            let mut s = String::from_str("Transaction backlog (");
            s.append(decimal_text(n as u64).as_str());
            s.append(")");
            s
        },
        HealthIssue::NetworkUnresponsive => String::from_str("Network unresponsive"),
        HealthIssue::HighByzantineRate(p) => {
            let mut s = String::from_str("High Byzantine rate (");
            s.append(decimal_text(p / 10).as_str());
            s.append(".");
            s.append(decimal_text(p % 10).as_str());
            s.append("%)");
            s
        },
    }
}

impl HealthStatus {
    /// A health report from the engine's state and metrics, checked now.
    pub fn from_consensus(engine: &ProofOfEmotionEngine, start_time: u64) -> (r: HealthStatus)
        requires
            engine.wf(),
        ensures
            r.issues@ == issues_of(engine.state_spec(), engine.metrics_spec()),
            r.status == classify(issues_of(engine.state_spec(), engine.metrics_spec())),
            r.current_epoch == engine.epoch(),
            r.pending_transactions == engine.pending().len(),
            r.consensus_strength == engine.state_spec().consensus_strength,
            r.participation_rate == engine.state_spec().participation_rate,
            r.validator_count == engine.state_spec().total_validators,
            r.last_finalized_block == engine.state_spec().last_finalized_height,
            r.uptime_seconds == if r.checked_at >= start_time { (r.checked_at - start_time) as u64 } else { 0 },
    {
        let now = now_millis() / 1000;
        HealthStatus::from_state(engine.get_state(), engine.get_metrics(), start_time, now)
    }

    /// A health report from a state and metrics at `now`, in seconds: the
    /// issues they show and the health those give.
    pub fn from_state(state: ConsensusState, metrics: ConsensusMetrics, start_time: u64, now: u64) -> (r: HealthStatus)
        ensures
            r.issues@ == issues_of(state, metrics),
            r.status == classify(issues_of(state, metrics)),
            r.current_epoch == state.current_epoch,
            r.consensus_strength == state.consensus_strength,
            r.uptime_seconds == if now >= start_time { (now - start_time) as u64 } else { 0 },
            r.checked_at == now,
            r.pending_transactions == state.pending_transactions,
            r.participation_rate == state.participation_rate,
            r.validator_count == state.total_validators,
            r.last_finalized_block == state.last_finalized_height,
    {
        let ghost a: Seq<HealthIssue> = if state.consensus_strength < 67 { seq![HealthIssue::LowConsensus(state.consensus_strength)] } else { seq![] };
        let ghost b: Seq<HealthIssue> = if state.participation_rate < 50 { seq![HealthIssue::LowParticipation(state.participation_rate)] } else { seq![] };
        let ghost c: Seq<HealthIssue> = if state.last_finalized_height == 0 && state.current_epoch > 5 { seq![HealthIssue::StaleChain(state.current_epoch)] } else { seq![] };
        let ghost d: Seq<HealthIssue> = if state.total_validators < 4 { seq![HealthIssue::InsufficientValidators(state.total_validators)] } else { seq![] };
        let ghost e: Seq<HealthIssue> = if state.pending_transactions > 1000 { seq![HealthIssue::TransactionBacklog(state.pending_transactions)] } else { seq![] };
        let ghost f: Seq<HealthIssue> = if metrics.total_epochs > 0 && metrics.byzantine_failures as nat * 10 > metrics.total_epochs as nat {
            seq![HealthIssue::HighByzantineRate(byzantine_rate(metrics) as u64)]
        } else {
            seq![]
        };
        let mut issues: Vec<HealthIssue> = Vec::new();
        if state.consensus_strength < 67 {
            issues.push(HealthIssue::LowConsensus(state.consensus_strength));
        }
        assert(issues@ =~= a);
        if state.participation_rate < 50 {
            issues.push(HealthIssue::LowParticipation(state.participation_rate));
        }
        assert(issues@ =~= a + b);
        if state.last_finalized_height == 0 && state.current_epoch > 5 {
            issues.push(HealthIssue::StaleChain(state.current_epoch));
        }
        assert(issues@ =~= a + b + c);
        if state.total_validators < 4 {
            issues.push(HealthIssue::InsufficientValidators(state.total_validators));
        }
        assert(issues@ =~= a + b + c + d);
        if state.pending_transactions > 1000 {
            issues.push(HealthIssue::TransactionBacklog(state.pending_transactions));
        }
        assert(issues@ =~= a + b + c + d + e);
        if metrics.total_epochs > 0 && (metrics.byzantine_failures as u128) * 10 > metrics.total_epochs as u128 {
            let rate = (metrics.byzantine_failures as u128) * 1000 / (metrics.total_epochs as u128);
            proof {
                assert((metrics.byzantine_failures as int) * 1000 / (metrics.total_epochs as int) <= (metrics.byzantine_failures as int) * 1000) by (nonlinear_arith)
                    requires metrics.total_epochs >= 1, metrics.byzantine_failures >= 0;
            }
            issues.push(HealthIssue::HighByzantineRate(rate as u64));
        }
        assert(issues@ =~= a + b + c + d + e + f);
        let mut unresponsive = false;
        let mut i: usize = 0;
        while i < issues.len()
            invariant
                i <= issues@.len(),
                unresponsive == exists|k: int| 0 <= k < i && issues@[k] == HealthIssue::NetworkUnresponsive,
            decreases issues@.len() - i,
        {
            if issues[i] == HealthIssue::NetworkUnresponsive {
                unresponsive = true;
            }
            i = i + 1;
        }
        let status = if issues.len() == 0 {
            HealthState::Healthy
        } else if issues.len() <= 2 && !unresponsive {
            HealthState::Degraded
        } else {
            HealthState::Critical
        };
        proof {
            reveal_strlit("1.0.0");
        }
        HealthStatus {
            status,
            version: String::from_str(crate::PROTOCOL_VERSION),
            uptime_seconds: now.saturating_sub(start_time),
            current_epoch: state.current_epoch,
            consensus_strength: state.consensus_strength,
            validator_count: state.total_validators,
            active_validators: state.active_validators,
            last_finalized_block: state.last_finalized_height,
            pending_transactions: state.pending_transactions,
            participation_rate: state.participation_rate,
            issues,
            checked_at: now,
        }
    }

    /// Whether the system is healthy.
    pub fn is_healthy(&self) -> (r: bool)
        ensures
            r == (self.status == HealthState::Healthy),
    {
        self.status == HealthState::Healthy
    }

    /// Whether the system is degraded.
    pub fn is_degraded(&self) -> (r: bool)
        ensures
            r == (self.status == HealthState::Degraded),
    {
        self.status == HealthState::Degraded
    }

    /// Whether the system is critical.
    pub fn is_critical(&self) -> (r: bool)
        ensures
            r == (self.status == HealthState::Critical),
    {
        self.status == HealthState::Critical
    }

    /// The issues' texts joined by commas.
    pub fn issues_summary(&self) -> (r: String)
        ensures
            r@ == issues_text(self.issues@),
    {
        let mut s = String::new();
        let mut i: usize = 0;
        while i < self.issues.len()
            invariant
                i <= self.issues@.len(),
                s@ == issues_text(self.issues@.subrange(0, i as int)),
            decreases self.issues@.len() - i,
        {
            proof {
                let p = self.issues@.subrange(0, i as int + 1);
                assert(p.drop_last() =~= self.issues@.subrange(0, i as int));
                reveal_strlit(", ");
            }
            if i > 0 {
                s.append(", ");
            }
            s.append(issue_message(self.issues[i]).as_str());
            proof {
                if i == 0 {
                    assert(s@ =~= issues_text(self.issues@.subrange(0, 1)));
                }
            }
            i = i + 1;
        }
        assert(self.issues@.subrange(0, self.issues@.len() as int) =~= self.issues@);
        s
    }

    /// A message describing the health.
    pub fn status_message(&self) -> (r: String)
        ensures
            self.status == HealthState::Healthy ==> r@ == "All systems operational"@,
            self.status == HealthState::Degraded ==> r@ == "System degraded with "@ + decimal(self.issues@.len())
                + " issue(s): "@ + issues_text(self.issues@),
            self.status == HealthState::Critical ==> r@ == "System critical with "@ + decimal(self.issues@.len())
                + " issue(s): "@ + issues_text(self.issues@),
    {
        match self.status {
            HealthState::Healthy => String::from_str("All systems operational"),
            HealthState::Degraded => {
                let mut s = String::from_str("System degraded with ");
                s.append(decimal_text(self.issues.len() as u64).as_str());
                s.append(" issue(s): ");
                s.append(self.issues_summary().as_str());
                s
            },
            HealthState::Critical => {
                let mut s = String::from_str("System critical with ");
                s.append(decimal_text(self.issues.len() as u64).as_str());
                s.append(" issue(s): ");
                s.append(self.issues_summary().as_str());
                s
            },
        }
    }
}

/// A liveness probe.
#[derive(Debug, Clone, Copy)]
pub struct LivenessCheck {
    /// Always true when answered.
    pub alive: bool,
    /// Time of the probe, in seconds since the Unix epoch.
    pub timestamp: u64,
}

impl LivenessCheck {
    /// A liveness probe answered now.
    pub fn new() -> (r: LivenessCheck)
        ensures
            r.alive,
    {
        LivenessCheck { alive: true, timestamp: now_millis() / 1000 }
    }
}

/// A readiness probe.
#[derive(Debug)]
pub struct ReadinessCheck {
    /// Whether the engine is ready: it is not critical.
    pub ready: bool,
    /// Why it is not ready.
    pub reason: Option<String>,
    /// Time of the health check, in seconds since the Unix epoch.
    pub timestamp: u64,
}

impl ReadinessCheck {
    /// Readiness from a health report: ready unless critical, with the
    /// status message as the reason when not.
    pub fn from_health(health: &HealthStatus) -> (r: ReadinessCheck)
        ensures
            r.ready == (health.status != HealthState::Critical),
            r.reason is Some <==> !r.ready,
            r.timestamp == health.checked_at,
    {
        let ready = !health.is_critical();
        let reason = if ready { None } else { Some(health.status_message()) };
        ReadinessCheck { ready, reason, timestamp: health.checked_at }
    }
}

} // verus!
