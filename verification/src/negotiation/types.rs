//! Types of the intent negotiation protocol.
//!
//! The protocol carries amendments (of type `A`) without reading them.

use vstd::prelude::*;
use crate::AgentId;
use crate::ids::{ConstraintId, ProposalId, SessionId, TaskId};

verus! {

/// A constraint that an amendment may add to an execution plan.
#[derive(Debug)]
pub struct Constraint {
    pub id: ConstraintId,
    pub description: String,
}

impl Clone for Constraint {
    fn clone(&self) -> (r: Self)
        ensures
            r == *self,
    {
        Constraint { id: self.id, description: self.description.clone() }
    }
}

/// Status of an amendment proposal within a session.
#[derive(Debug, Clone, Copy, PartialEq, Eq, Structural)]
pub enum ProposalStatus {
    Distributed,
    Evaluating,
    CounterProposalReceived,
    FinalVoting,
    Accepted,
    Rejected,
    Aborted,
}

/// An amendment proposal submitted by a level-3 agent.
#[derive(Debug)]
pub struct AmendmentProposal<A> {
    pub id: ProposalId,
    pub proposer: AgentId,
    pub target_agent: AgentId,
    pub amendment: A,
    pub rationale: String,
    /// Submission time, in milliseconds since the Unix epoch.
    pub timestamp: i64,
    pub status: ProposalStatus,
}

/// An affected agent's first answer to a proposal.
#[derive(Debug)]
pub enum InitialResponse<A> {
    Accept,
    Reject { rationale: String },
    CounterProposal { amendment: A, rationale: String },
    Abstain,
}

/// A counter-proposal with the agents that support it.
#[derive(Debug)]
pub struct CounterProposal<A> {
    pub proposer: AgentId,
    pub amendment: A,
    pub rationale: String,
    pub supporters: Vec<AgentId>,
}

/// Final vote on the (possibly amended) proposal.
#[derive(Debug, Clone, Copy, PartialEq, Eq, Structural)]
pub enum VoteDecision {
    Accept,
    Reject,
    Abstain,
}

/// A recorded final vote.
#[derive(Debug)]
pub struct Vote {
    pub agent_id: AgentId,
    pub decision: VoteDecision,
    pub rationale: String,
    /// Time of the vote, in milliseconds since the Unix epoch.
    pub timestamp: i64,
}

/// Outcome of a completed negotiation.
#[derive(Debug, Clone, Copy, PartialEq, Eq, Structural)]
pub enum Outcome {
    Accepted,
    Rejected,
}

/// Why a negotiation was aborted.
#[derive(Debug, Clone, Copy, PartialEq, Eq, Structural)]
pub enum AbortReason {
    ProposerTerminated,
    TotalTimeout,
    ConstitutionViolation,
}

/// Phase of a negotiation session.
#[derive(Debug, Clone, Copy, PartialEq, Eq, Structural)]
pub enum NegotiationPhase {
    ProposalDistributed,
    EvaluationInProgress,
    CounterProposalResolved,
    FinalVoting,
    Completed(Outcome),
    Aborted(AbortReason),
}

/// Whether a session in this phase has ended.
pub open spec fn phase_ended(p: NegotiationPhase) -> bool {
    p is Completed || p is Aborted
}

/// The name a phase is shown by.
pub open spec fn phase_text(p: NegotiationPhase) -> Seq<char> {
    match p {
        NegotiationPhase::ProposalDistributed => "ProposalDistributed"@,
        NegotiationPhase::EvaluationInProgress => "EvaluationInProgress"@,
        NegotiationPhase::CounterProposalResolved => "CounterProposalResolved"@,
        NegotiationPhase::FinalVoting => "FinalVoting"@,
        NegotiationPhase::Completed(o) => "Completed("@ + outcome_text(o) + ")"@,
        NegotiationPhase::Aborted(r) => "Aborted("@ + abort_reason_text(r) + ")"@,
    }
}

/// The name an outcome is shown by.
pub open spec fn outcome_text(o: Outcome) -> Seq<char> {
    match o {
        Outcome::Accepted => "Accepted"@,
        Outcome::Rejected => "Rejected"@,
    }
}

/// The name an abort reason is shown by.
pub open spec fn abort_reason_text(r: AbortReason) -> Seq<char> {
    match r {
        AbortReason::ProposerTerminated => "ProposerTerminated"@,
        AbortReason::TotalTimeout => "TotalTimeout"@,
        AbortReason::ConstitutionViolation => "ConstitutionViolation"@,
    }
}

impl NegotiationPhase {
    /// Whether the session has ended (completed or aborted).
    pub fn is_ended(&self) -> (r: bool)
        ensures
            r == phase_ended(*self),
    {
        match self {
            NegotiationPhase::Completed(_) | NegotiationPhase::Aborted(_) => true,
            _ => false,
        }
    }

    /// The phase's name, as its debug form shows it.
    pub fn to_text(&self) -> (s: String)
        ensures
            s@ == phase_text(*self),
    {
        match self {
            NegotiationPhase::ProposalDistributed => String::from_str("ProposalDistributed"),
            NegotiationPhase::EvaluationInProgress => String::from_str("EvaluationInProgress"),
            NegotiationPhase::CounterProposalResolved => String::from_str("CounterProposalResolved"),
            NegotiationPhase::FinalVoting => String::from_str("FinalVoting"),
            NegotiationPhase::Completed(o) => {
                let mut s = String::from_str("Completed(");
                match o {
                    Outcome::Accepted => s.append("Accepted"),
                    Outcome::Rejected => s.append("Rejected"),
                }
                s.append(")");
                s
            },
            NegotiationPhase::Aborted(r) => {
                let mut s = String::from_str("Aborted(");
                match r {
                    AbortReason::ProposerTerminated => s.append("ProposerTerminated"),
                    AbortReason::TotalTimeout => s.append("TotalTimeout"),
                    AbortReason::ConstitutionViolation => s.append("ConstitutionViolation"),
                }
                s.append(")");
                s
            },
        }
    }
}

/// Events of a collaboration that move bilateral and global trust.
#[derive(Debug, Clone, Copy, PartialEq, Eq, Structural)]
pub enum CollaborationEvent {
    ProposalAccepted { proposal_id: ProposalId },
    ProposalRejected { proposal_id: ProposalId },
    CommitmentFulfilled { task_id: TaskId },
    CommitmentViolated { task_id: TaskId },
    CounterProposalConstructive { proposal_id: ProposalId },
    AmendmentBoundaryViolation { proposal_id: ProposalId },
}

/// Limits of the negotiation engine.
#[derive(Debug, Clone, Copy)]
pub struct NegotiationConfig {
    /// Most sessions held at once.
    pub max_active_sessions: usize,
    /// Inactivity after which a session times out, in milliseconds.
    pub default_timeout_ms: u64,
    /// Most sessions an agent may create per window.
    pub rate_limit_per_agent: u32,
    /// Length of the rate-limit window, in seconds.
    pub rate_limit_window_secs: u64,
}

impl Default for NegotiationConfig {
    fn default() -> (c: Self)
        ensures
            c.max_active_sessions == 100,
            c.default_timeout_ms == 300_000,
            c.rate_limit_per_agent == 10,
            c.rate_limit_window_secs == 60,
    {
        NegotiationConfig {
            max_active_sessions: 100,
            default_timeout_ms: 300_000,
            rate_limit_per_agent: 10,
            rate_limit_window_secs: 60,
        }
    }
}

/// Errors of the negotiation protocol.
#[derive(Debug, Clone, PartialEq, Eq)]
pub enum NegotiationError {
    InsufficientLevel(AgentId),
    SessionNotFound(String),
    NotAParticipant(AgentId),
    InvalidPhaseTransition(String),
    ConstitutionImmutable,
    ProposalNotFound(String),
    DuplicateResponse(AgentId),
    DuplicateVote(AgentId),
    SessionEnded,
    /// A session timed out after the given time, in milliseconds.
    SessionTimeout(String, u64),
    Backpressure(usize, usize),
    RateLimited(AgentId, u32),
}

} // verus!
