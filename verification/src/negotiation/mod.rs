//! Intent negotiation: level-3 agents propose amendments to an execution
//! plan, affected agents answer (possibly with counter-proposals), the
//! best supported counter-proposal replaces the original, and the
//! participants vote.
//!
//! This module keeps the protocol's sessions and decides every step; the
//! weighing of votes by trust, which is arithmetic on trust scores, is done
//! by the caller, which hands the outcome back.

pub mod collector;
pub mod engine;
pub mod laws;
pub mod messages;
pub mod session;
pub mod types;

pub use collector::CollaborationCollector;
pub use engine::NegotiationEngine;
pub use messages::{CreateProposalRequest, InitialResponsePayload, NegotiationMessage};
pub use session::NegotiationSession;
pub use types::{
    AbortReason, AmendmentProposal, CollaborationEvent, Constraint, CounterProposal, InitialResponse,
    NegotiationConfig, NegotiationError, NegotiationPhase, Outcome, ProposalStatus, Vote, VoteDecision,
};
