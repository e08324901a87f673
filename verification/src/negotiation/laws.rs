//! Properties of the protocol that span several steps.

use vstd::prelude::*;
use crate::AgentId;
use crate::ids::SessionId;
use super::engine::{answered, cast, participants, timed_out, touched, NegotiationEngine};
use super::session::{responders, voters, NegotiationSession};
use super::types::{phase_ended, InitialResponse, NegotiationError, VoteDecision};

verus! {

/// The proposer is always a participant of its own session: listed first,
/// with every affected agent after it, each participant once, and nobody
/// else.
pub proof fn lemma_participants(proposer: AgentId, affected: Seq<AgentId>)
    ensures
        participants(proposer, affected).len() >= 1,
        participants(proposer, affected)[0] == proposer,
        participants(proposer, affected).no_duplicates(),
        forall|a: AgentId| #[trigger] affected.contains(a) ==> participants(proposer, affected).contains(a),
        forall|a: AgentId|
            #[trigger] participants(proposer, affected).contains(a) ==> a == proposer || affected.contains(a),
    decreases affected.len(),
{
    if affected.len() == 0 {
        assert(participants(proposer, affected) =~= seq![proposer]);
        assert forall|a: AgentId| #[trigger] participants(proposer, affected).contains(a) implies a == proposer
            || affected.contains(a) by {
            assert(participants(proposer, affected)[0] == a);
        }
    } else {
        let rest = affected.drop_last();
        let acc = participants(proposer, rest);
        let last = affected.last();
        lemma_participants(proposer, rest);
        assert forall|a: AgentId| #[trigger] affected.contains(a) implies participants(proposer, affected).contains(
            a,
        ) by {
            let j = choose|j: int| 0 <= j < affected.len() && affected[j] == a;
            if j < affected.len() - 1 {
                assert(rest[j] == a);
                assert(rest.contains(a));
                assert(acc.contains(a));
                if last != proposer && !acc.contains(last) {
                    let k = choose|k: int| 0 <= k < acc.len() && acc[k] == a;
                    assert(acc.push(last)[k] == a);
                }
            } else {
                if last != proposer && !acc.contains(last) {
                    assert(acc.push(last)[acc.len() as int] == a);
                } else if last == proposer {
                    assert(acc[0] == a);
                }
            }
        }
        assert forall|a: AgentId| #[trigger] participants(proposer, affected).contains(a) implies a == proposer
            || affected.contains(a) by {
            if last != proposer && !acc.contains(last) {
                let k = choose|k: int| 0 <= k < acc.len() + 1 && acc.push(last)[k] == a;
                if k < acc.len() {
                    assert(acc[k] == a);
                    assert(acc.contains(a));
                    if a != proposer {
                        assert(rest.contains(a));
                        let j = choose|j: int| 0 <= j < rest.len() && rest[j] == a;
                        assert(affected[j] == a);
                    }
                } else {
                    assert(affected[affected.len() - 1] == a);
                }
            } else {
                if a != proposer {
                    assert(rest.contains(a));
                    let j = choose|j: int| 0 <= j < rest.len() && rest[j] == a;
                    assert(affected[j] == a);
                }
            }
        }
        if last != proposer && !acc.contains(last) {
            assert(acc.push(last)[0] == proposer);
            assert forall|i: int, j: int| 0 <= i < j < acc.len() + 1 implies acc.push(last)[i] != acc.push(
                last,
            )[j] by {
                if j == acc.len() {
                    assert(acc[i] != last) by {
                        if acc[i] == last {
                            assert(acc.contains(last));
                        }
                    }
                }
            }
        }
    }
}

/// An agent answers a session at most once: after an accepted answer, a
/// second answer of the same agent to the same session is refused with
/// `DuplicateResponse` and changes nothing.
pub proof fn lemma_answer_once<A>(
    e0: NegotiationEngine<A>,
    e1: NegotiationEngine<A>,
    e2: NegotiationEngine<A>,
    sid: SessionId,
    agent: AgentId,
    first: InitialResponse<A>,
    second: InitialResponse<A>,
    t1: i64,
    t2: i64,
    r1: Result<(), NegotiationError>,
    r2: Result<(), NegotiationError>,
)
    requires
        answered(e0, e1, sid, agent, first, t1, r1),
        r1 is Ok,
        answered(e1, e2, sid, agent, second, t2, r2),
    ensures
        r2 == Err::<(), NegotiationError>(NegotiationError::DuplicateResponse(agent)),
        e2.sessions_view() == e1.sessions_view(),
{
    assert(e0.sessions_view().contains_key(sid));
    let s0 = e0.sessions_view()[sid];
    let s1 = e1.sessions_view()[sid];
    assert(s1.initial_responses@ == s0.initial_responses@.push((agent, first)));
    assert(responders(s1.initial_responses@)[s0.initial_responses@.len() as int] == agent);
    assert(responders(s1.initial_responses@).contains(agent));
}

/// An agent votes at most once: after an accepted vote, a second vote of
/// the same agent in the same session is refused with `DuplicateVote` and
/// changes nothing.
pub proof fn lemma_vote_once<A>(
    e0: NegotiationEngine<A>,
    e1: NegotiationEngine<A>,
    e2: NegotiationEngine<A>,
    sid: SessionId,
    agent: AgentId,
    first: VoteDecision,
    second: VoteDecision,
    why1: String,
    why2: String,
    t1: i64,
    t2: i64,
    r1: Result<(), NegotiationError>,
    r2: Result<(), NegotiationError>,
)
    requires
        cast(e0, e1, sid, agent, first, why1, t1, r1),
        r1 is Ok,
        cast(e1, e2, sid, agent, second, why2, t2, r2),
    ensures
        r2 == Err::<(), NegotiationError>(NegotiationError::DuplicateVote(agent)),
        e2.sessions_view() == e1.sessions_view(),
{
    assert(e0.sessions_view().contains_key(sid));
    let s0 = e0.sessions_view()[sid];
    let s1 = e1.sessions_view()[sid];
    assert(s1.final_votes@.len() == s0.final_votes@.len() + 1);
    assert(voters(s1.final_votes@)[s0.final_votes@.len() as int] == agent);
    assert(voters(s1.final_votes@).contains(agent));
}

/// Activity defers a timeout: a session just touched at `now` has not timed
/// out at any time up to its timeout after `now`; an ended session never
/// times out.
pub proof fn lemma_activity_defers_timeout<A>(s: NegotiationSession<A>, now: i64, t: i64)
    ensures
        t - now <= s.timeout_ms ==> !timed_out(touched(s, now), t),
        phase_ended(s.phase) ==> !timed_out(s, t),
{
}

} // verus!
