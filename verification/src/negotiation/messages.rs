//! Negotiation messages carried over IPC, and the engine's side of them:
//! the notifications it prepares for the participants and the messages it
//! accepts from them.
//!
//! Messages carry an amendment (`A`) and a vote weight (`W`) that the
//! engine passes along without reading.

use vstd::prelude::*;
use crate::AgentId;
use crate::ids::SessionId;
use crate::sovereignty::SovereigntyLevel;
use super::engine::{answered, cast, NegotiationEngine};
use super::session::NegotiationSession;
use super::types::{AbortReason, InitialResponse, NegotiationError, NegotiationPhase, Outcome, VoteDecision};

verus! {

/// A request to open a negotiation.
#[derive(Debug)]
pub struct CreateProposalRequest<A, W> {
    pub proposer: AgentId,
    pub target_agent: AgentId,
    pub amendment: A,
    pub rationale: String,
    pub affected_agents: Vec<AgentId>,
    pub consensus_threshold: W,
}

/// A first answer as carried by a message.
#[derive(Debug)]
pub enum InitialResponsePayload<A> {
    Accept,
    Reject { rationale: String },
    CounterProposal { amendment: A, rationale: String },
    Abstain,
}

/// A negotiation message.
#[derive(Debug)]
pub enum NegotiationMessage<A, W> {
    /// The proposal, sent to each affected agent.
    ProposalBroadcast {
        session_id: SessionId,
        proposer: AgentId,
        target_agent: AgentId,
        amendment: A,
        rationale: String,
        affected_agents: Vec<AgentId>,
    },
    /// An affected agent's first answer.
    ResponseMessage { session_id: SessionId, responder: AgentId, response: InitialResponsePayload<A> },
    /// The final vote has started on this amendment.
    VotingStarted { session_id: SessionId, final_amendment: A },
    /// A participant's final vote (the weight is the engine's to compute).
    VoteMessage { session_id: SessionId, voter: AgentId, decision: VoteDecision, rationale: String, weight: W },
    /// The negotiation's outcome.
    NegotiationResult { session_id: SessionId, outcome: Outcome, final_amendment: Option<A> },
    /// The negotiation was aborted.
    NegotiationAborted { session_id: SessionId, reason: AbortReason },
}

/// The answer a payload carries.
pub open spec fn payload_response<A>(p: InitialResponsePayload<A>) -> InitialResponse<A> {
    match p {
        InitialResponsePayload::Accept => InitialResponse::Accept,
        InitialResponsePayload::Reject { rationale } => InitialResponse::Reject { rationale },
        InitialResponsePayload::CounterProposal { amendment, rationale } => InitialResponse::CounterProposal {
            amendment,
            rationale,
        },
        InitialResponsePayload::Abstain => InitialResponse::Abstain,
    }
}

/// The payload that carries an answer.
pub open spec fn response_payload<A>(r: InitialResponse<A>) -> InitialResponsePayload<A> {
    match r {
        InitialResponse::Accept => InitialResponsePayload::Accept,
        InitialResponse::Reject { rationale } => InitialResponsePayload::Reject { rationale },
        InitialResponse::CounterProposal { amendment, rationale } => InitialResponsePayload::CounterProposal {
            amendment,
            rationale,
        },
        InitialResponse::Abstain => InitialResponsePayload::Abstain,
    }
}

impl<A> InitialResponsePayload<A> {
    /// The payload carrying an answer.
    pub fn from_response(r: InitialResponse<A>) -> (p: Self)
        ensures
            p == response_payload(r),
    {
        match r {
            InitialResponse::Accept => InitialResponsePayload::Accept,
            InitialResponse::Reject { rationale } => InitialResponsePayload::Reject { rationale },
            InitialResponse::CounterProposal { amendment, rationale } => InitialResponsePayload::CounterProposal {
                amendment,
                rationale,
            },
            InitialResponse::Abstain => InitialResponsePayload::Abstain,
        }
    }

    /// The answer the payload carries.
    pub fn into_response(self) -> (r: InitialResponse<A>)
        ensures
            r == payload_response(self),
    {
        match self {
            InitialResponsePayload::Accept => InitialResponse::Accept,
            InitialResponsePayload::Reject { rationale } => InitialResponse::Reject { rationale },
            InitialResponsePayload::CounterProposal { amendment, rationale } => InitialResponse::CounterProposal {
                amendment,
                rationale,
            },
            InitialResponsePayload::Abstain => InitialResponse::Abstain,
        }
    }
}

/// Converting an answer to a payload and back gives the answer.
pub proof fn lemma_payload_roundtrip<A>(r: InitialResponse<A>)
    ensures
        payload_response(response_payload(r)) == r,
{
}

/// A step's answer and the engine's reply to the message that asked for
/// it: the same error, or no reply on success.
pub open spec fn same_outcome<M>(r0: Result<(), NegotiationError>, r: Result<Option<M>, NegotiationError>) -> bool {
    match r0 {
        Ok(_) => r matches Ok(m) && m is None,
        Err(e) => r == Err::<Option<M>, NegotiationError>(e),
    }
}

/// The participants other than the proposer, in order.
pub open spec fn recipients(s: Seq<AgentId>, proposer: AgentId) -> Seq<AgentId>
    decreases s.len(),
{
    if s.len() == 0 {
        Seq::empty()
    } else {
        let r = recipients(s.drop_last(), proposer);
        if s.last() != proposer {
            r.push(s.last())
        } else {
            r
        }
    }
}

/// `m` is the proposal broadcast of session `s`.
pub open spec fn is_proposal_broadcast<A: Clone, W>(m: NegotiationMessage<A, W>, s: NegotiationSession<A>) -> bool {
    m matches NegotiationMessage::ProposalBroadcast { session_id, proposer, target_agent, amendment, rationale, affected_agents }
        && session_id == s.id && proposer == s.proposal.proposer && target_agent == s.proposal.target_agent
        && cloned::<A>(s.proposal.amendment, amendment) && rationale@ == s.proposal.rationale@ && affected_agents@
        == s.affected_agents@
}

/// `m` announces the final vote of session `s`.
pub open spec fn is_voting_started<A: Clone, W>(m: NegotiationMessage<A, W>, s: NegotiationSession<A>) -> bool {
    m matches NegotiationMessage::VotingStarted { session_id, final_amendment } && session_id == s.id && cloned::<A>(
        s.active_amendment,
        final_amendment,
    )
}

/// The text of the error a notification meant for agents meets when it is
/// handed to the engine.
pub open spec fn misrouted_text<A, W>(m: NegotiationMessage<A, W>) -> Seq<char> {
    match m {
        NegotiationMessage::ProposalBroadcast { .. } => "ProposalBroadcast is for agents to receive, not for engine to process"@,
        NegotiationMessage::VotingStarted { .. } => "VotingStarted is for agents to receive, not for engine to process"@,
        NegotiationMessage::NegotiationResult { .. } => "NegotiationResult is for agents to receive, not for engine to process"@,
        _ => "NegotiationAborted is for agents to receive, not for engine to process"@,
    }
}

/// A copy of a list of agents.
fn clone_agents(v: &Vec<AgentId>) -> (r: Vec<AgentId>)
    ensures
        r@ == v@,
{
    let r = v.clone();
    assert(r@ =~= v@);
    r
}

impl<A: Clone> NegotiationEngine<A> {
    /// The proposal broadcasts of a session: one per participant other than
    /// the proposer; none for an unknown session.
    pub fn broadcast_proposal<W>(&self, session_id: SessionId) -> (r: Vec<NegotiationMessage<A, W>>)
        requires
            self.wf(),
        ensures
            !self.sessions_view().contains_key(session_id) ==> r@.len() == 0,
            self.sessions_view().contains_key(session_id) ==> {
                let s = self.sessions_view()[session_id];
                &&& r@.len() == recipients(s.affected_agents@, s.proposal.proposer).len()
                &&& forall|i: int| 0 <= i < r@.len() ==> is_proposal_broadcast(#[trigger] r@[i], s)
            },
    {
        let mut messages: Vec<NegotiationMessage<A, W>> = Vec::new();
        let s = match self.get_session(session_id) {
            Ok(s) => s,
            Err(_) => return messages,
        };
        let ghost aff = s.affected_agents@;
        let ghost p = s.proposal.proposer;
        let mut i: usize = 0;
        assert(aff.take(0) =~= Seq::<AgentId>::empty());
        assert(recipients(aff.take(0), p) =~= Seq::<AgentId>::empty());
        while i < s.affected_agents.len()
            invariant
                aff == s.affected_agents@,
                p == s.proposal.proposer,
                s.id == session_id,
                i <= aff.len(),
                messages@.len() == recipients(aff.take(i as int), p).len(),
                forall|k: int| 0 <= k < messages@.len() ==> is_proposal_broadcast(#[trigger] messages@[k], *s),
            decreases aff.len() - i,
        {
            proof {
                let t = aff.take(i + 1);
                assert(t.drop_last() =~= aff.take(i as int));
                assert(t.last() == aff[i as int]);
            }
            let agent = s.affected_agents[i];
            if agent != s.proposal.proposer {
                let ghost m0 = messages@;
                let msg = NegotiationMessage::ProposalBroadcast {
                    session_id,
                    proposer: s.proposal.proposer,
                    target_agent: s.proposal.target_agent,
                    amendment: s.proposal.amendment.clone(),
                    rationale: s.proposal.rationale.clone(),
                    affected_agents: clone_agents(&s.affected_agents),
                };
                messages.push(msg);
                proof {
                    assert forall|k: int| 0 <= k < messages@.len() implies is_proposal_broadcast(#[trigger] messages@[k], *s) by {
                        if k < m0.len() {
                            assert(messages@[k] == m0[k]);
                        }
                    }
                }
            }
            i = i + 1;
        }
        proof {
            assert(aff.take(aff.len() as int) =~= aff);
        }
        messages
    }

    /// The notifications that the final vote of a session has started: one
    /// per participant other than the proposer; none for an unknown session
    /// or one not in the final vote.
    pub fn broadcast_voting_started<W>(&self, session_id: SessionId) -> (r: Vec<NegotiationMessage<A, W>>)
        requires
            self.wf(),
        ensures
            !self.sessions_view().contains_key(session_id) ==> r@.len() == 0,
            self.sessions_view().contains_key(session_id) ==> {
                let s = self.sessions_view()[session_id];
                &&& s.phase != NegotiationPhase::FinalVoting ==> r@.len() == 0
                &&& s.phase == NegotiationPhase::FinalVoting ==> r@.len() == recipients(
                    s.affected_agents@,
                    s.proposal.proposer,
                ).len() && forall|i: int| 0 <= i < r@.len() ==> is_voting_started(#[trigger] r@[i], s)
            },
    {
        let mut messages: Vec<NegotiationMessage<A, W>> = Vec::new();
        let s = match self.get_session(session_id) {
            Ok(s) => s,
            Err(_) => return messages,
        };
        if s.phase != NegotiationPhase::FinalVoting {
            return messages;
        }
        let ghost aff = s.affected_agents@;
        let ghost p = s.proposal.proposer;
        let mut i: usize = 0;
        assert(aff.take(0) =~= Seq::<AgentId>::empty());
        assert(recipients(aff.take(0), p) =~= Seq::<AgentId>::empty());
        while i < s.affected_agents.len()
            invariant
                aff == s.affected_agents@,
                p == s.proposal.proposer,
                s.id == session_id,
                i <= aff.len(),
                messages@.len() == recipients(aff.take(i as int), p).len(),
                forall|k: int| 0 <= k < messages@.len() ==> is_voting_started(#[trigger] messages@[k], *s),
            decreases aff.len() - i,
        {
            proof {
                let t = aff.take(i + 1);
                assert(t.drop_last() =~= aff.take(i as int));
                assert(t.last() == aff[i as int]);
            }
            let agent = s.affected_agents[i];
            if agent != s.proposal.proposer {
                let ghost m0 = messages@;
                let msg = NegotiationMessage::VotingStarted { session_id, final_amendment: s.active_amendment.clone() };
                messages.push(msg);
                proof {
                    assert forall|k: int| 0 <= k < messages@.len() implies is_voting_started(#[trigger] messages@[k], *s) by {
                        if k < m0.len() {
                            assert(messages@[k] == m0[k]);
                        }
                    }
                }
            }
            i = i + 1;
        }
        proof {
            assert(aff.take(aff.len() as int) =~= aff);
        }
        messages
    }

    /// The result notification of a completed session (carrying a clone of
    /// the amendment voted on); none otherwise.
    pub fn broadcast_result<W>(&self, session_id: SessionId) -> (r: Option<NegotiationMessage<A, W>>)
        requires
            self.wf(),
        ensures
            !self.sessions_view().contains_key(session_id) ==> r is None,
            self.sessions_view().contains_key(session_id) ==> {
                let s = self.sessions_view()[session_id];
                match s.phase {
                    NegotiationPhase::Completed(o) => r matches Some(
                        NegotiationMessage::NegotiationResult { session_id: sid, outcome, final_amendment: Some(a) },
                    ) && sid == session_id && outcome == o && cloned::<A>(s.active_amendment, a),
                    _ => r is None,
                }
            },
    {
        let s = match self.get_session(session_id) {
            Ok(s) => s,
            Err(_) => return None,
        };
        match s.phase {
            NegotiationPhase::Completed(outcome) => Some(
                NegotiationMessage::NegotiationResult {
                    session_id,
                    outcome,
                    final_amendment: Some(s.active_amendment.clone()),
                },
            ),
            _ => None,
        }
    }

    /// The abort notification of an aborted session; none otherwise.
    pub fn broadcast_abort<W>(&self, session_id: SessionId) -> (r: Option<NegotiationMessage<A, W>>)
        requires
            self.wf(),
        ensures
            !self.sessions_view().contains_key(session_id) ==> r is None,
            self.sessions_view().contains_key(session_id) ==> match self.sessions_view()[session_id].phase {
                NegotiationPhase::Aborted(reason) => r == Some(
                    NegotiationMessage::<A, W>::NegotiationAborted { session_id, reason },
                ),
                _ => r is None,
            },
    {
        let s = match self.get_session(session_id) {
            Ok(s) => s,
            Err(_) => return None,
        };
        match s.phase {
            NegotiationPhase::Aborted(reason) => Some(NegotiationMessage::NegotiationAborted { session_id, reason }),
            _ => None,
        }
    }

    /// Handle a message from a participant: an answer is submitted, a vote
    /// is cast (its weight ignored; the engine computes weights); the
    /// notifications meant for agents are refused. No reply is produced.
    pub fn handle_ipc_message<W>(&mut self, msg: NegotiationMessage<A, W>) -> (r: Result<
        Option<NegotiationMessage<A, W>>,
        NegotiationError,
    >)
        requires
            old(self).wf(),
        ensures
            final(self).wf(),
            match msg {
                NegotiationMessage::ResponseMessage { session_id, responder, response } => exists|now: i64, r0: Result<(), NegotiationError>|
                    #[trigger] answered(*old(self), *final(self), session_id, responder, payload_response(response), now, r0)
                    && same_outcome(r0, r),
                NegotiationMessage::VoteMessage { session_id, voter, decision, rationale, weight } => exists|now: i64, r0: Result<(), NegotiationError>|
                    #[trigger] cast(*old(self), *final(self), session_id, voter, decision, rationale, now, r0)
                    && same_outcome(r0, r),
                _ => (r matches Err(NegotiationError::InvalidPhaseTransition(t)) && t@ == misrouted_text(msg))
                    && final(self).unchanged(&*old(self)),
            },
    {
        match msg {
            NegotiationMessage::ResponseMessage { session_id, responder, response } => {
                let internal = response.into_response();
                match self.submit_response(session_id, responder, internal) {
                    Ok(()) => Ok(None),
                    Err(e) => Err(e),
                }
            },
            NegotiationMessage::VoteMessage { session_id, voter, decision, rationale, weight: _ } => {
                match self.submit_vote(session_id, voter, decision, rationale) {
                    Ok(()) => Ok(None),
                    Err(e) => Err(e),
                }
            },
            NegotiationMessage::ProposalBroadcast { .. } => Err(
                NegotiationError::InvalidPhaseTransition(
                    String::from_str("ProposalBroadcast is for agents to receive, not for engine to process"),
                ),
            ),
            NegotiationMessage::VotingStarted { .. } => Err(
                NegotiationError::InvalidPhaseTransition(
                    String::from_str("VotingStarted is for agents to receive, not for engine to process"),
                ),
            ),
            NegotiationMessage::NegotiationResult { .. } => Err(
                NegotiationError::InvalidPhaseTransition(
                    String::from_str("NegotiationResult is for agents to receive, not for engine to process"),
                ),
            ),
            NegotiationMessage::NegotiationAborted { .. } => Err(
                NegotiationError::InvalidPhaseTransition(
                    String::from_str("NegotiationAborted is for agents to receive, not for engine to process"),
                ),
            ),
        }
    }
}

impl<A: Clone> NegotiationEngine<A> {
    /// Open a session from a request and prepare its proposal broadcasts.
    /// The request's consensus threshold is not used.
    pub fn create_session_from_ipc<W>(&mut self, request: CreateProposalRequest<A, W>, proposer_level: SovereigntyLevel) -> (r:
        Result<(SessionId, Vec<NegotiationMessage<A, W>>), NegotiationError>)
        requires
            old(self).wf(),
        ensures
            final(self).wf(),
            exists|now: i64, r0: Result<SessionId, NegotiationError>|
                #[trigger] NegotiationEngine::<A>::created(
                    *old(self),
                    *final(self),
                    request.proposer,
                    proposer_level,
                    request.target_agent,
                    request.affected_agents@,
                    request.amendment,
                    request.rationale@,
                    now,
                    r0,
                ) && match r0 {
                    Err(e) => r == Err::<(SessionId, Vec<NegotiationMessage<A, W>>), NegotiationError>(e),
                    Ok(id) => r matches Ok((id2, msgs)) && id2 == id && {
                        let s = final(self).sessions_view()[id];
                        &&& msgs@.len() == recipients(s.affected_agents@, s.proposal.proposer).len()
                        &&& forall|i: int| 0 <= i < msgs@.len() ==> is_proposal_broadcast(#[trigger] msgs@[i], s)
                    },
                },
    {
        let CreateProposalRequest { proposer, target_agent, amendment, rationale, affected_agents, consensus_threshold: _ } =
            request;
        let session_id = match self.create_session(proposer, proposer_level, target_agent, affected_agents, amendment, rationale) {
            Ok(id) => id,
            Err(e) => return Err(e),
        };
        let msgs = self.broadcast_proposal(session_id);
        Ok((session_id, msgs))
    }
}

} // verus!
