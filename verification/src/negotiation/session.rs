//! A negotiation session and the protocol steps on it: responses,
//! counter-proposal resolution, votes, completion and abort.

use vstd::prelude::*;
use vstd::multiset::Multiset;
use crate::AgentId;
use crate::ids::SessionId;
use super::types::{
    phase_ended, phase_text, AbortReason, AmendmentProposal, CollaborationEvent, CounterProposal, InitialResponse,
    NegotiationError, NegotiationPhase, Outcome, ProposalStatus, Vote, VoteDecision,
};

verus! {

broadcast use vstd::seq_lib::group_to_multiset_ensures;

/// A negotiation session: one proposal, its participants, their responses
/// and votes, and the amendment currently put to the vote.
#[derive(Debug)]
pub struct NegotiationSession<A> {
    pub id: SessionId,
    pub proposal: AmendmentProposal<A>,
    /// Participants: the proposer first, then each affected agent once.
    pub affected_agents: Vec<AgentId>,
    pub phase: NegotiationPhase,
    /// First answers, in the order they arrived; at most one per agent.
    pub initial_responses: Vec<(AgentId, InitialResponse<A>)>,
    /// Counter-proposals that did not win, best supported first.
    pub counter_proposals: Vec<CounterProposal<A>>,
    /// Final votes, in the order they arrived; at most one per agent.
    pub final_votes: Vec<Vote>,
    /// The amendment put to the final vote.
    pub active_amendment: A,
    /// Creation time, in milliseconds since the Unix epoch.
    pub created_at: i64,
    /// Inactivity after which the session times out, in milliseconds.
    pub timeout_ms: u64,
    /// Time of the last response or vote, in milliseconds since the Unix epoch.
    pub last_activity_at: i64,
}

/// The agents that answered, in order.
pub open spec fn responders<A>(rs: Seq<(AgentId, InitialResponse<A>)>) -> Seq<AgentId> {
    rs.map_values(|p: (AgentId, InitialResponse<A>)| p.0)
}

/// The agents that voted, in order.
pub open spec fn voters(vs: Seq<Vote>) -> Seq<AgentId> {
    vs.map_values(|v: Vote| v.agent_id)
}

/// The agents other than `p` whose first answer accepts or abstains, in
/// the order of the answers: the supporters of `p`'s counter-proposal.
pub open spec fn supporters_of<A>(rs: Seq<(AgentId, InitialResponse<A>)>, p: AgentId) -> Seq<AgentId>
    decreases rs.len(),
{
    if rs.len() == 0 {
        Seq::empty()
    } else {
        let rest = supporters_of(rs.drop_last(), p);
        let (a, resp) = rs.last();
        if a != p && (resp is Accept || resp is Abstain) {
            rest.push(a)
        } else {
            rest
        }
    }
}

/// The agents that answered with a counter-proposal, in order.
pub open spec fn counter_proposers<A>(rs: Seq<(AgentId, InitialResponse<A>)>) -> Seq<AgentId>
    decreases rs.len(),
{
    if rs.len() == 0 {
        Seq::empty()
    } else {
        let rest = counter_proposers(rs.drop_last());
        if rs.last().1 is CounterProposal {
            rest.push(rs.last().0)
        } else {
            rest
        }
    }
}

/// The error a response from `agent` meets, if any: not a participant,
/// already answered, or the session has ended.
pub open spec fn response_error<A>(s: NegotiationSession<A>, agent: AgentId) -> Option<NegotiationError> {
    if !s.affected_agents@.contains(agent) {
        Some(NegotiationError::NotAParticipant(agent))
    } else if responders(s.initial_responses@).contains(agent) {
        Some(NegotiationError::DuplicateResponse(agent))
    } else if phase_ended(s.phase) {
        Some(NegotiationError::SessionEnded)
    } else {
        None
    }
}

/// The phase after a first response arrives.
pub open spec fn phase_after_response(p: NegotiationPhase) -> NegotiationPhase {
    if p == NegotiationPhase::ProposalDistributed {
        NegotiationPhase::EvaluationInProgress
    } else {
        p
    }
}

/// Whether `agent` may vote: a participant that has not voted yet, while
/// the session is in the final vote.
pub open spec fn vote_allowed<A>(s: NegotiationSession<A>, agent: AgentId) -> bool {
    &&& s.affected_agents@.contains(agent)
    &&& !voters(s.final_votes@).contains(agent)
    &&& s.phase == NegotiationPhase::FinalVoting
}

/// The message of the error a vote out of phase meets.
pub open spec fn vote_phase_message(p: NegotiationPhase) -> Seq<char> {
    "Cannot vote in phase "@ + phase_text(p)
}

/// The trust event a final vote yields: acceptance or rejection of the
/// proposal; none for an abstention.
pub open spec fn vote_event(d: VoteDecision, proposal: crate::ids::ProposalId) -> Option<CollaborationEvent> {
    match d {
        VoteDecision::Accept => Some(CollaborationEvent::ProposalAccepted { proposal_id: proposal }),
        VoteDecision::Reject => Some(CollaborationEvent::ProposalRejected { proposal_id: proposal }),
        VoteDecision::Abstain => None,
    }
}

/// The events the votes yield, with their voters, in vote order.
pub open spec fn vote_events(vs: Seq<Vote>, proposal: crate::ids::ProposalId) -> Seq<(AgentId, CollaborationEvent)>
    decreases vs.len(),
{
    if vs.len() == 0 {
        Seq::empty()
    } else {
        let rest = vote_events(vs.drop_last(), proposal);
        match vote_event(vs.last().decision, proposal) {
            Some(e) => rest.push((vs.last().agent_id, e)),
            None => rest,
        }
    }
}

/// The proposal status a completed session ends with.
pub open spec fn status_for(o: Outcome) -> ProposalStatus {
    match o {
        Outcome::Accepted => ProposalStatus::Accepted,
        Outcome::Rejected => ProposalStatus::Rejected,
    }
}

/// A finished session's status names its outcome: it is `Accepted`
/// exactly for an accepted outcome and `Rejected` exactly for a rejected
/// one, so the two outcomes never end with the same status.
pub proof fn lemma_status_names_outcome(o: Outcome, p: Outcome)
    ensures
        status_for(o) == ProposalStatus::Accepted <==> o == Outcome::Accepted,
        status_for(o) == ProposalStatus::Rejected <==> o == Outcome::Rejected,
        status_for(o) == status_for(p) <==> o == p,
{
}

/// Counter-proposals sorted from most to fewest supporters.
pub open spec fn ranked<A>(cps: Seq<CounterProposal<A>>) -> bool {
    forall|i: int, j: int| 0 <= i < j < cps.len() ==> cps[i].supporters@.len() >= cps[j].supporters@.len()
}

/// The proposers of a list of counter-proposals.
pub open spec fn cp_proposers<A>(cps: Seq<CounterProposal<A>>) -> Seq<AgentId> {
    cps.map_values(|c: CounterProposal<A>| c.proposer)
}

/// A counter-proposal built from `p`'s answer: its amendment a clone of
/// the answer's, the same rationale, and `p`'s supporters.
pub open spec fn built_from<A: Clone>(c: CounterProposal<A>, rs: Seq<(AgentId, InitialResponse<A>)>) -> bool {
    exists|j: int|
        0 <= j < rs.len() && #[trigger] rs[j].0 == c.proposer && (rs[j].1 matches InitialResponse::CounterProposal {
            amendment,
            rationale,
        } && cloned::<A>(amendment, c.amendment) && c.rationale@ == rationale@) && c.supporters@ == supporters_of(
            rs,
            c.proposer,
        )
}

/// `new` is `old` after `agent`'s first answer `response` at `now`: the
/// answer appended, the activity time set, an untouched proposal moved to
/// evaluation; nothing else changed.
pub open spec fn responded<A>(
    old: NegotiationSession<A>,
    new: NegotiationSession<A>,
    agent: AgentId,
    response: InitialResponse<A>,
    now: i64,
) -> bool {
    &&& new.initial_responses@ == old.initial_responses@.push((agent, response))
    &&& new.last_activity_at == now
    &&& new.phase == phase_after_response(old.phase)
    &&& new.id == old.id
    &&& new.proposal == old.proposal
    &&& new.affected_agents == old.affected_agents
    &&& new.counter_proposals == old.counter_proposals
    &&& new.final_votes == old.final_votes
    &&& new.active_amendment == old.active_amendment
    &&& new.created_at == old.created_at
    &&& new.timeout_ms == old.timeout_ms
}

/// `new` is `old` after `agent`'s vote at `now`: the vote appended and the
/// activity time set; nothing else changed.
pub open spec fn voted<A>(
    old: NegotiationSession<A>,
    new: NegotiationSession<A>,
    agent: AgentId,
    decision: VoteDecision,
    rationale: String,
    now: i64,
) -> bool {
    &&& new.final_votes@ == old.final_votes@.push(Vote { agent_id: agent, decision, rationale, timestamp: now })
    &&& new.last_activity_at == now
    &&& new.phase == old.phase
    &&& new.id == old.id
    &&& new.proposal == old.proposal
    &&& new.affected_agents == old.affected_agents
    &&& new.initial_responses == old.initial_responses
    &&& new.counter_proposals == old.counter_proposals
    &&& new.active_amendment == old.active_amendment
    &&& new.created_at == old.created_at
    &&& new.timeout_ms == old.timeout_ms
}

/// `new` is `old` with its counter-proposals resolved and the final vote
/// open. Without counter-proposals the original amendment stays. Otherwise
/// some counter-proposal `w` built from an answer wins: its amendment is
/// put to the vote, and `w` followed by the kept counter-proposals is
/// ranked by supporters and holds each counter-proposer once.
pub open spec fn resolved<A: Clone>(old: NegotiationSession<A>, new: NegotiationSession<A>) -> bool {
    &&& new.phase == NegotiationPhase::FinalVoting
    &&& new.proposal == (AmendmentProposal { status: ProposalStatus::FinalVoting, ..old.proposal })
    &&& new.id == old.id
    &&& new.affected_agents == old.affected_agents
    &&& new.initial_responses == old.initial_responses
    &&& new.final_votes == old.final_votes
    &&& new.created_at == old.created_at
    &&& new.timeout_ms == old.timeout_ms
    &&& new.last_activity_at == old.last_activity_at
    &&& counter_proposers(old.initial_responses@).len() == 0 ==> new.active_amendment == old.active_amendment
        && new.counter_proposals == old.counter_proposals
    &&& counter_proposers(old.initial_responses@).len() > 0 ==> exists|w: CounterProposal<A>|
        {
            let all = seq![w] + new.counter_proposals@;
            &&& #[trigger] built_from(w, old.initial_responses@)
            &&& new.active_amendment == w.amendment
            &&& ranked(all)
            &&& cp_proposers(all).to_multiset() == counter_proposers(old.initial_responses@).to_multiset()
            &&& forall|k: int|
                0 <= k < new.counter_proposals@.len() ==> built_from(
                    #[trigger] new.counter_proposals@[k],
                    old.initial_responses@,
                )
        }
}

impl<A> NegotiationSession<A> {
    /// Record `agent`'s first answer at time `now`.
    pub fn respond(&mut self, agent: AgentId, response: InitialResponse<A>, now: i64) -> (r: Result<(), NegotiationError>)
        ensures
            match response_error(*old(self), agent) {
                Some(e) => r == Err::<(), NegotiationError>(e) && *final(self) == *old(self),
                None => r is Ok && responded(*old(self), *final(self), agent, response, now),
            },
    {
        if !contains_agent(&self.affected_agents, agent) {
            return Err(NegotiationError::NotAParticipant(agent));
        }
        if self.has_responded(agent) {
            return Err(NegotiationError::DuplicateResponse(agent));
        }
        if self.phase.is_ended() {
            return Err(NegotiationError::SessionEnded);
        }
        let ghost rs0 = self.initial_responses@;
        self.initial_responses.push((agent, response));
        self.last_activity_at = now;
        if self.phase == NegotiationPhase::ProposalDistributed {
            self.phase = NegotiationPhase::EvaluationInProgress;
        }
        Ok(())
    }

    fn has_responded(&self, agent: AgentId) -> (r: bool)
        ensures
            r == responders(self.initial_responses@).contains(agent),
    {
        let mut i: usize = 0;
        while i < self.initial_responses.len()
            invariant
                i <= self.initial_responses@.len(),
                forall|j: int| 0 <= j < i ==> self.initial_responses@[j].0 != agent,
            decreases self.initial_responses@.len() - i,
        {
            if self.initial_responses[i].0 == agent {
                assert(responders(self.initial_responses@)[i as int] == agent);
                return true;
            }
            i = i + 1;
        }
        proof {
            if responders(self.initial_responses@).contains(agent) {
                let j = choose|j: int|
                    0 <= j < responders(self.initial_responses@).len() && responders(self.initial_responses@)[j]
                        == agent;
                assert(self.initial_responses@[j].0 == agent);
            }
        }
        false
    }

    fn has_voted(&self, agent: AgentId) -> (r: bool)
        ensures
            r == voters(self.final_votes@).contains(agent),
    {
        let mut i: usize = 0;
        while i < self.final_votes.len()
            invariant
                i <= self.final_votes@.len(),
                forall|j: int| 0 <= j < i ==> self.final_votes@[j].agent_id != agent,
            decreases self.final_votes@.len() - i,
        {
            if self.final_votes[i].agent_id == agent {
                assert(voters(self.final_votes@)[i as int] == agent);
                return true;
            }
            i = i + 1;
        }
        proof {
            if voters(self.final_votes@).contains(agent) {
                let j = choose|j: int|
                    0 <= j < voters(self.final_votes@).len() && voters(self.final_votes@)[j] == agent;
                assert(self.final_votes@[j].agent_id == agent);
            }
        }
        false
    }

    /// Record `agent`'s final vote at time `now`.
    pub fn vote(&mut self, agent: AgentId, decision: VoteDecision, rationale: String, now: i64) -> (r: Result<
        (),
        NegotiationError,
    >)
        ensures
            !old(self).affected_agents@.contains(agent) ==> r == Err::<(), NegotiationError>(
                NegotiationError::NotAParticipant(agent),
            ) && *final(self) == *old(self),
            old(self).affected_agents@.contains(agent) && voters(old(self).final_votes@).contains(agent) ==> r
                == Err::<(), NegotiationError>(NegotiationError::DuplicateVote(agent)) && *final(self) == *old(self),
            old(self).affected_agents@.contains(agent) && !voters(old(self).final_votes@).contains(agent)
                && old(self).phase != NegotiationPhase::FinalVoting ==> (r matches Err(
                NegotiationError::InvalidPhaseTransition(m),
            ) && m@ == vote_phase_message(old(self).phase)) && *final(self) == *old(self),
            vote_allowed(*old(self), agent) ==> r is Ok && voted(*old(self), *final(self), agent, decision, rationale, now),
    {
        if !contains_agent(&self.affected_agents, agent) {
            return Err(NegotiationError::NotAParticipant(agent));
        }
        if self.has_voted(agent) {
            return Err(NegotiationError::DuplicateVote(agent));
        }
        if self.phase != NegotiationPhase::FinalVoting {
            let mut m = String::from_str("Cannot vote in phase ");
            let p = self.phase.to_text();
            m.append(p.as_str());
            return Err(NegotiationError::InvalidPhaseTransition(m));
        }
        self.final_votes.push(Vote { agent_id: agent, decision, rationale, timestamp: now });
        self.last_activity_at = now;
        Ok(())
    }

    /// Abort the session for `reason`, unless it has already ended.
    pub fn abort(&mut self, reason: AbortReason) -> (r: Result<(), NegotiationError>)
        ensures
            phase_ended(old(self).phase) ==> r == Err::<(), NegotiationError>(NegotiationError::SessionEnded)
                && *final(self) == *old(self),
            !phase_ended(old(self).phase) ==> r is Ok && *final(self) == (NegotiationSession {
                phase: NegotiationPhase::Aborted(reason),
                proposal: AmendmentProposal { status: ProposalStatus::Aborted, ..old(self).proposal },
                ..*old(self)
            }),
    {
        if self.phase.is_ended() {
            return Err(NegotiationError::SessionEnded);
        }
        self.phase = NegotiationPhase::Aborted(reason);
        self.proposal.status = ProposalStatus::Aborted;
        Ok(())
    }

    /// Close the session with `outcome` (decided from the weighted votes),
    /// unless it has already ended; returns the trust events of the votes,
    /// with their voters, in vote order.
    pub fn finish(&mut self, outcome: Outcome) -> (r: Result<Vec<(AgentId, CollaborationEvent)>, NegotiationError>)
        ensures
            phase_ended(old(self).phase) ==> r == Err::<Vec<(AgentId, CollaborationEvent)>, NegotiationError>(
                NegotiationError::SessionEnded,
            ) && *final(self) == *old(self),
            !phase_ended(old(self).phase) ==> (r matches Ok(ev) && ev@ == vote_events(
                old(self).final_votes@,
                old(self).proposal.id,
            )) && *final(self) == (NegotiationSession {
                phase: NegotiationPhase::Completed(outcome),
                proposal: AmendmentProposal { status: status_for(outcome), ..old(self).proposal },
                ..*old(self)
            }),
    {
        if self.phase.is_ended() {
            return Err(NegotiationError::SessionEnded);
        }
        let proposal_id = self.proposal.id;
        let mut events: Vec<(AgentId, CollaborationEvent)> = Vec::new();
        let mut i: usize = 0;
        assert(self.final_votes@.take(0) =~= Seq::<Vote>::empty());
        assert(events@ =~= Seq::<(AgentId, CollaborationEvent)>::empty());
        while i < self.final_votes.len()
            invariant
                i <= self.final_votes@.len(),
                proposal_id == self.proposal.id,
                events@ == vote_events(self.final_votes@.take(i as int), proposal_id),
            decreases self.final_votes@.len() - i,
        {
            proof {
                let t = self.final_votes@.take(i + 1);
                assert(t.drop_last() =~= self.final_votes@.take(i as int));
                assert(t.last() == self.final_votes@[i as int]);
            }
            let agent = self.final_votes[i].agent_id;
            match self.final_votes[i].decision {
                VoteDecision::Accept => events.push(
                    (agent, CollaborationEvent::ProposalAccepted { proposal_id }),
                ),
                VoteDecision::Reject => events.push(
                    (agent, CollaborationEvent::ProposalRejected { proposal_id }),
                ),
                VoteDecision::Abstain => {},
            }
            i = i + 1;
        }
        proof {
            assert(self.final_votes@.take(self.final_votes@.len() as int) =~= self.final_votes@);
        }
        self.phase = NegotiationPhase::Completed(outcome);
        self.proposal.status = match outcome {
            Outcome::Accepted => ProposalStatus::Accepted,
            Outcome::Rejected => ProposalStatus::Rejected,
        };
        Ok(events)
    }
}


impl<A: Clone> NegotiationSession<A> {
    /// The supporters of `p`'s counter-proposal.
    fn supporters(&self, p: AgentId) -> (v: Vec<AgentId>)
        ensures
            v@ == supporters_of(self.initial_responses@, p),
    {
        let mut v: Vec<AgentId> = Vec::new();
        let mut i: usize = 0;
        assert(self.initial_responses@.take(0) =~= Seq::<(AgentId, InitialResponse<A>)>::empty());
        while i < self.initial_responses.len()
            invariant
                i <= self.initial_responses@.len(),
                v@ == supporters_of(self.initial_responses@.take(i as int), p),
            decreases self.initial_responses@.len() - i,
        {
            proof {
                let t = self.initial_responses@.take(i + 1);
                assert(t.drop_last() =~= self.initial_responses@.take(i as int));
                assert(t.last() == self.initial_responses@[i as int]);
            }
            let a = self.initial_responses[i].0;
            if a != p {
                match &self.initial_responses[i].1 {
                    InitialResponse::Accept | InitialResponse::Abstain => v.push(a),
                    _ => {},
                }
            }
            i = i + 1;
        }
        proof {
            assert(self.initial_responses@.take(self.initial_responses@.len() as int) =~= self.initial_responses@);
        }
        v
    }

    /// The counter-proposals of the answers, in answer order.
    fn collect_counter_proposals(&self) -> (v: Vec<CounterProposal<A>>)
        ensures
            cp_proposers(v@) == counter_proposers(self.initial_responses@),
            forall|k: int| 0 <= k < v@.len() ==> built_from(#[trigger] v@[k], self.initial_responses@),
    {
        let ghost rs = self.initial_responses@;
        let mut v: Vec<CounterProposal<A>> = Vec::new();
        let mut i: usize = 0;
        assert(rs.take(0) =~= Seq::<(AgentId, InitialResponse<A>)>::empty());
        assert(cp_proposers(v@) =~= Seq::<AgentId>::empty());
        while i < self.initial_responses.len()
            invariant
                rs == self.initial_responses@,
                i <= rs.len(),
                cp_proposers(v@) == counter_proposers(rs.take(i as int)),
                forall|k: int| 0 <= k < v@.len() ==> built_from(#[trigger] v@[k], rs),
            decreases rs.len() - i,
        {
            proof {
                let t = rs.take(i + 1);
                assert(t.drop_last() =~= rs.take(i as int));
                assert(t.last() == rs[i as int]);
            }
            let a = self.initial_responses[i].0;
            match &self.initial_responses[i].1 {
                InitialResponse::CounterProposal { amendment, rationale } => {
                    let cp = CounterProposal {
                        proposer: a,
                        amendment: amendment.clone(),
                        rationale: rationale.clone(),
                        supporters: self.supporters(a),
                    };
                    assert(built_from(cp, rs)) by {
                        assert(rs[i as int].0 == cp.proposer);
                    }
                    let ghost v0 = v@;
                    v.push(cp);
                    proof {
                        assert(cp_proposers(v@) =~= cp_proposers(v0).push(a));
                        assert forall|k: int| 0 <= k < v@.len() implies built_from(#[trigger] v@[k], rs) by {
                            if k < v0.len() {
                                assert(v@[k] == v0[k]);
                            }
                        }
                    }
                },
                _ => {},
            }
            i = i + 1;
        }
        proof {
            assert(rs.take(rs.len() as int) =~= rs);
        }
        v
    }

    /// Resolve counter-proposals and open the final vote. Without
    /// counter-proposals the original amendment stays. Otherwise the
    /// counter-proposals are ranked by their number of supporters; the best
    /// one's amendment is put to the vote and the others are kept, best
    /// first.
    pub fn resolve(&mut self)
        ensures
            resolved(*old(self), *final(self)),
    {
        let ghost rs = self.initial_responses@;
        let mut pool = self.collect_counter_proposals();
        if pool.len() == 0 {
            self.phase = NegotiationPhase::FinalVoting;
            self.proposal.status = ProposalStatus::FinalVoting;
            return;
        }
        let ghost target = counter_proposers(rs).to_multiset();
        let mut ranked_v: Vec<CounterProposal<A>> = Vec::new();
        assert(cp_proposers(ranked_v@) =~= Seq::<AgentId>::empty());
        assert(cp_proposers(ranked_v@).to_multiset() =~= Multiset::<AgentId>::empty());
        while pool.len() > 0
            invariant
                ranked(ranked_v@),
                forall|a: int, b: int|
                    0 <= a < ranked_v@.len() && 0 <= b < pool@.len() ==> ranked_v@[a].supporters@.len()
                        >= pool@[b].supporters@.len(),
                cp_proposers(ranked_v@).to_multiset().add(cp_proposers(pool@).to_multiset()) == target,
                forall|k: int| 0 <= k < ranked_v@.len() ==> built_from(#[trigger] ranked_v@[k], rs),
                forall|k: int| 0 <= k < pool@.len() ==> built_from(#[trigger] pool@[k], rs),
                ranked_v@.len() + pool@.len() > 0,
            decreases pool@.len(),
        {
            let mut best: usize = 0;
            let mut j: usize = 1;
            while j < pool.len()
                invariant
                    0 < pool@.len(),
                    best < pool@.len(),
                    1 <= j <= pool@.len(),
                    forall|b: int| 0 <= b < j ==> pool@[best as int].supporters@.len() >= pool@[b].supporters@.len(),
                decreases pool@.len() - j,
            {
                if pool[j].supporters.len() > pool[best].supporters.len() {
                    best = j;
                }
                j = j + 1;
            }
            let ghost p0 = pool@;
            let ghost r0 = ranked_v@;
            let x = pool.remove(best);
            proof {
                assert(cp_proposers(pool@) =~= cp_proposers(p0).remove(best as int));
                assert(cp_proposers(p0)[best as int] == x.proposer);
            }
            ranked_v.push(x);
            proof {
                assert(cp_proposers(ranked_v@) =~= cp_proposers(r0).push(x.proposer));
                assert(cp_proposers(ranked_v@).to_multiset().add(cp_proposers(pool@).to_multiset()) =~= target);
                assert forall|a: int, b: int| 0 <= a < b < ranked_v@.len() implies ranked_v@[a].supporters@.len()
                    >= ranked_v@[b].supporters@.len() by {
                    if b == r0.len() {
                        assert(ranked_v@[a] == r0[a]);
                        assert(ranked_v@[b] == p0[best as int]);
                    } else {
                        assert(ranked_v@[a] == r0[a] && ranked_v@[b] == r0[b]);
                    }
                }
                assert forall|a: int, b: int|
                    0 <= a < ranked_v@.len() && 0 <= b < pool@.len() implies ranked_v@[a].supporters@.len()
                    >= pool@[b].supporters@.len() by {
                    let b0 = if b < best { b } else { b + 1 };
                    assert(pool@[b] == p0[b0]);
                    if a < r0.len() {
                        assert(ranked_v@[a] == r0[a]);
                    }
                }
                assert forall|k: int| 0 <= k < ranked_v@.len() implies built_from(#[trigger] ranked_v@[k], rs) by {
                    if k < r0.len() {
                        assert(ranked_v@[k] == r0[k]);
                    } else {
                        assert(ranked_v@[k] == p0[best as int]);
                    }
                }
                assert forall|k: int| 0 <= k < pool@.len() implies built_from(#[trigger] pool@[k], rs) by {
                    let k0 = if k < best { k } else { k + 1 };
                    assert(pool@[k] == p0[k0]);
                }
            }
        }
        let ghost all = ranked_v@;
        let winner = ranked_v.remove(0);
        let ghost wg = winner;
        proof {
            assert(cp_proposers(pool@).to_multiset() =~= Multiset::<AgentId>::empty());
            assert(all =~= seq![winner] + ranked_v@);
            assert(built_from(all[0], rs));
            assert forall|k: int| 0 <= k < ranked_v@.len() implies built_from(#[trigger] ranked_v@[k], rs) by {
                assert(ranked_v@[k] == all[k + 1]);
            }
        }
        self.active_amendment = winner.amendment;
        self.counter_proposals = ranked_v;
        self.phase = NegotiationPhase::FinalVoting;
        self.proposal.status = ProposalStatus::FinalVoting;
        proof {
            assert(seq![wg] + self.counter_proposals@ == all);
            assert(built_from(wg, rs));
            assert(self.active_amendment == wg.amendment);
            assert(ranked(all));
            assert(cp_proposers(all).to_multiset().add(Multiset::<AgentId>::empty()) =~= cp_proposers(all).to_multiset());
            assert(cp_proposers(all).to_multiset() == counter_proposers(rs).to_multiset());
            assert(counter_proposers(rs).len() > 0);
        }
    }
}

/// Whether `v` holds `a`.
pub fn contains_agent(v: &Vec<AgentId>, a: AgentId) -> (r: bool)
    ensures
        r == v@.contains(a),
{
    let mut i: usize = 0;
    while i < v.len()
        invariant
            i <= v@.len(),
            forall|j: int| 0 <= j < i ==> v@[j] != a,
        decreases v@.len() - i,
    {
        if v[i] == a {
            return true;
        }
        i = i + 1;
    }
    false
}

} // verus!
