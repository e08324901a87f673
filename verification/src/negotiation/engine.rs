//! The negotiation engine: its sessions, backpressure and per-agent rate
//! limiting of session creation, and timeouts.

use vstd::prelude::*;
use crate::AgentId;
use crate::ids::{uuid_text, ProposalId, SessionId};
use crate::sovereignty::{level_number, SovereigntyLevel};
use crate::table::{keyed_map, lemma_keyed_len, lemma_keyed_push, lemma_keyed_remove, lemma_keyed_set, lemma_slot, lemma_slot_of_present};
use super::session::{
    contains_agent, resolved, responded, response_error, vote_allowed, vote_events, vote_phase_message, voted,
    voters, NegotiationSession, status_for,
};
use super::types::{
    phase_ended, AbortReason, AmendmentProposal, CollaborationEvent, InitialResponse, NegotiationConfig,
    NegotiationError, NegotiationPhase, Outcome, ProposalStatus, Vote, VoteDecision,
};

verus! {

/// The participants of a session: the proposer, then each affected agent
/// once, in order.
pub open spec fn participants(proposer: AgentId, affected: Seq<AgentId>) -> Seq<AgentId>
    decreases affected.len(),
{
    if affected.len() == 0 {
        seq![proposer]
    } else {
        let acc = participants(proposer, affected.drop_last());
        let a = affected.last();
        if a != proposer && !acc.contains(a) {
            acc.push(a)
        } else {
            acc
        }
    }
}

/// Whether the rate-limit window that started at `start` has passed at `now`.
pub open spec fn window_expired(now: i64, start: i64, window_secs: u64) -> bool {
    now - start > window_secs * 1000
}

/// An agent's rate-limit entry (sessions created, window start) at `now`,
/// before counting a new session: a fresh window when there was none or it
/// has passed.
pub open spec fn rate_entry_at(entry: Option<(u32, i64)>, now: i64, window_secs: u64) -> (u32, i64) {
    match entry {
        None => (0, now),
        Some(e) => if window_expired(now, e.1, window_secs) {
            (0, now)
        } else {
            e
        },
    }
}

/// A session as creation makes it.
pub open spec fn fresh_session<A: Clone>(
    s: NegotiationSession<A>,
    id: SessionId,
    proposer: AgentId,
    target: AgentId,
    affected: Seq<AgentId>,
    amendment: A,
    rationale: Seq<char>,
    now: i64,
    timeout_ms: u64,
) -> bool {
    &&& s.id == id
    &&& s.proposal.proposer == proposer
    &&& s.proposal.target_agent == target
    &&& cloned::<A>(amendment, s.proposal.amendment)
    &&& s.proposal.rationale@ == rationale
    &&& s.proposal.timestamp == now
    &&& s.proposal.status == ProposalStatus::Distributed
    &&& s.affected_agents@ == participants(proposer, affected)
    &&& s.phase == NegotiationPhase::ProposalDistributed
    &&& s.initial_responses@.len() == 0
    &&& s.counter_proposals@.len() == 0
    &&& s.final_votes@.len() == 0
    &&& s.active_amendment == amendment
    &&& s.created_at == now
    &&& s.timeout_ms == timeout_ms
    &&& s.last_activity_at == now
}

/// Whether a session has timed out at `now`: still open and inactive for
/// longer than its timeout.
pub open spec fn timed_out<A>(s: NegotiationSession<A>, now: i64) -> bool {
    !phase_ended(s.phase) && now - s.last_activity_at > s.timeout_ms
}

/// A session aborted for `reason`.
pub open spec fn aborted<A>(s: NegotiationSession<A>, reason: AbortReason) -> NegotiationSession<A> {
    NegotiationSession {
        phase: NegotiationPhase::Aborted(reason),
        proposal: AmendmentProposal { status: ProposalStatus::Aborted, ..s.proposal },
        ..s
    }
}

/// The sessions that have timed out at `now`.
pub open spec fn timed_out_ids<A>(v: Map<SessionId, NegotiationSession<A>>, now: i64) -> Set<SessionId> {
    v.dom().filter(|k: SessionId| timed_out(v[k], now))
}

/// A session with its last activity set to `now`.
pub open spec fn touched<A>(s: NegotiationSession<A>, now: i64) -> NegotiationSession<A> {
    NegotiationSession { last_activity_at: now, ..s }
}

/// What an answer from `agent` to session `sid` at `now` answered (`r`)
/// and did (`old` to `new`): `SessionNotFound` for an unknown session,
/// else the error of `response_error`, else the answer recorded.
pub open spec fn answered<A>(
    old: NegotiationEngine<A>,
    new: NegotiationEngine<A>,
    sid: SessionId,
    agent: AgentId,
    response: InitialResponse<A>,
    now: i64,
    r: Result<(), NegotiationError>,
) -> bool {
    &&& new.rate_view() == old.rate_view()
    &&& new.cfg() == old.cfg()
    &&& !old.sessions_view().contains_key(sid) ==> (r matches Err(e) && NegotiationEngine::<A>::not_found(e, sid))
        && new.sessions_view() == old.sessions_view()
    &&& old.sessions_view().contains_key(sid) ==> match response_error(old.sessions_view()[sid], agent) {
        Some(e) => r == Err::<(), NegotiationError>(e) && new.sessions_view() == old.sessions_view(),
        None => r is Ok && new.sessions_view().contains_key(sid) && new.sessions_view() == old.sessions_view().insert(
            sid,
            new.sessions_view()[sid],
        ) && responded(old.sessions_view()[sid], new.sessions_view()[sid], agent, response, now),
    }
}

/// What a vote from `agent` in session `sid` at `now` answered (`r`) and
/// did: `SessionNotFound` for an unknown session; `NotAParticipant`,
/// `DuplicateVote`, or `InvalidPhaseTransition` naming the phase outside
/// the final vote; else the vote recorded.
pub open spec fn cast<A>(
    old: NegotiationEngine<A>,
    new: NegotiationEngine<A>,
    sid: SessionId,
    agent: AgentId,
    decision: VoteDecision,
    rationale: String,
    now: i64,
    r: Result<(), NegotiationError>,
) -> bool {
    &&& new.rate_view() == old.rate_view()
    &&& new.cfg() == old.cfg()
    &&& !old.sessions_view().contains_key(sid) ==> (r matches Err(e) && NegotiationEngine::<A>::not_found(e, sid))
        && new.sessions_view() == old.sessions_view()
    &&& old.sessions_view().contains_key(sid) ==> {
        let s = old.sessions_view()[sid];
        &&& !s.affected_agents@.contains(agent) ==> r == Err::<(), NegotiationError>(
            NegotiationError::NotAParticipant(agent),
        ) && new.sessions_view() == old.sessions_view()
        &&& s.affected_agents@.contains(agent) && voters(s.final_votes@).contains(agent) ==> r == Err::<
            (),
            NegotiationError,
        >(NegotiationError::DuplicateVote(agent)) && new.sessions_view() == old.sessions_view()
        &&& s.affected_agents@.contains(agent) && !voters(s.final_votes@).contains(agent) && s.phase
            != NegotiationPhase::FinalVoting ==> (r matches Err(NegotiationError::InvalidPhaseTransition(m)) && m@
            == vote_phase_message(s.phase)) && new.sessions_view() == old.sessions_view()
        &&& vote_allowed(s, agent) ==> r is Ok && new.sessions_view().contains_key(sid) && new.sessions_view()
            == old.sessions_view().insert(sid, new.sessions_view()[sid]) && voted(
            s,
            new.sessions_view()[sid],
            agent,
            decision,
            rationale,
            now,
        )
    }
}

/// An agent's rate-limit state.
#[derive(Debug, Clone, Copy)]
struct RateLimitEntry {
    agent: AgentId,
    count: u32,
    /// Start of the window, in milliseconds since the Unix epoch.
    window_start: i64,
}

/// The identifiers of sessions, in order.
pub open spec fn ids_of<A>(s: Seq<NegotiationSession<A>>) -> Seq<SessionId> {
    s.map_values(|x: NegotiationSession<A>| x.id)
}

/// The negotiation engine.
#[derive(Debug)]
pub struct NegotiationEngine<A> {
    /// Sessions, with distinct identifiers.
    sessions: Vec<NegotiationSession<A>>,
    config: NegotiationConfig,
    /// Rate-limit entries, one per agent.
    rate_limits: Vec<RateLimitEntry>,
}

impl<A> NegotiationEngine<A> {
    /// The sessions, by identifier.
    pub closed spec fn sessions_view(&self) -> Map<SessionId, NegotiationSession<A>> {
        keyed_map(ids_of(self.sessions@), self.sessions@)
    }

    /// Each agent's rate-limit entry: sessions created in the window and
    /// the window's start.
    pub closed spec fn rate_view(&self) -> Map<AgentId, (u32, i64)> {
        keyed_map(
            self.rate_limits@.map_values(|e: RateLimitEntry| e.agent),
            self.rate_limits@.map_values(|e: RateLimitEntry| (e.count, e.window_start)),
        )
    }

    /// The limits the engine was made with.
    pub closed spec fn cfg(&self) -> NegotiationConfig {
        self.config
    }

    /// The engine's consistency.
    pub closed spec fn wf(&self) -> bool {
        &&& ids_of(self.sessions@).no_duplicates()
        &&& self.rate_limits@.map_values(|e: RateLimitEntry| e.agent).no_duplicates()
    }

    /// Nothing observable changed.
    pub open spec fn unchanged(&self, other: &Self) -> bool {
        &&& self.sessions_view() == other.sessions_view()
        &&& self.rate_view() == other.rate_view()
        &&& self.cfg() == other.cfg()
    }

    /// The error for an unknown session: its identifier's text.
    pub open spec fn not_found(r: NegotiationError, id: SessionId) -> bool {
        r matches NegotiationError::SessionNotFound(m) && m@ == uuid_text(id.0)
    }

    /// An engine with the default limits.
    pub fn new() -> (e: Self)
        ensures
            e.wf(),
            e.sessions_view() == Map::<SessionId, NegotiationSession<A>>::empty(),
            e.rate_view() == Map::<AgentId, (u32, i64)>::empty(),
            e.cfg() == NegotiationConfig::default_spec(),
    {
        Self::with_config(NegotiationConfig::default())
    }

    /// An engine with the given limits.
    pub fn with_config(config: NegotiationConfig) -> (e: Self)
        ensures
            e.wf(),
            e.sessions_view() == Map::<SessionId, NegotiationSession<A>>::empty(),
            e.rate_view() == Map::<AgentId, (u32, i64)>::empty(),
            e.cfg() == config,
    {
        let e = NegotiationEngine { sessions: Vec::new(), config, rate_limits: Vec::new() };
        assert(e.sessions_view() =~= Map::<SessionId, NegotiationSession<A>>::empty());
        assert(e.rate_view() =~= Map::<AgentId, (u32, i64)>::empty());
        e
    }

    /// The engine's limits.
    pub fn config(&self) -> (r: &NegotiationConfig)
        ensures
            *r == self.cfg(),
    {
        &self.config
    }

    /// An engine holds finitely many sessions, so their number is a count
    /// that each operation moves by the sessions it adds or drops.
    pub proof fn lemma_sessions_finite(&self)
        requires
            self.wf(),
        ensures
            self.sessions_view().dom().finite(),
    {
        lemma_keyed_len(ids_of(self.sessions@), self.sessions@);
        vstd::seq_lib::seq_to_set_is_finite(ids_of(self.sessions@));
    }

    /// The number of sessions held.
    pub fn session_count(&self) -> (r: usize)
        requires
            self.wf(),
        ensures
            r == self.sessions_view().len(),
            self.sessions_view().dom().finite(),
    {
        proof {
            self.lemma_sessions_finite();
        }
        proof {
            lemma_keyed_len(ids_of(self.sessions@), self.sessions@);
        }
        self.sessions.len()
    }

    fn find(&self, id: SessionId) -> (r: Option<usize>)
        requires
            self.wf(),
        ensures
            r matches Some(i) ==> i < self.sessions@.len() && self.sessions@[i as int].id == id
                && self.sessions_view().contains_key(id) && self.sessions_view()[id] == self.sessions@[i as int],
            r is None ==> !self.sessions_view().contains_key(id),
    {
        let mut i: usize = 0;
        while i < self.sessions.len()
            invariant
                self.wf(),
                i <= self.sessions@.len(),
                forall|j: int| 0 <= j < i ==> self.sessions@[j].id != id,
            decreases self.sessions@.len() - i,
        {
            if self.sessions[i].id == id {
                proof {
                    assert(ids_of(self.sessions@)[i as int] == id);
                    lemma_slot(ids_of(self.sessions@), i as int);
                }
                return Some(i);
            }
            i = i + 1;
        }
        proof {
            if ids_of(self.sessions@).contains(id) {
                let j = choose|j: int| 0 <= j < ids_of(self.sessions@).len() && ids_of(self.sessions@)[j] == id;
                assert(self.sessions@[j].id == id);
            }
        }
        None
    }

    /// The session with this identifier.
    pub fn get_session(&self, session_id: SessionId) -> (r: Result<&NegotiationSession<A>, NegotiationError>)
        requires
            self.wf(),
        ensures
            self.sessions_view().contains_key(session_id) ==> (r matches Ok(s) && *s == self.sessions_view()[session_id]
                && s.id == session_id),
            !self.sessions_view().contains_key(session_id) ==> (r matches Err(e) && Self::not_found(e, session_id)),
    {
        match self.find(session_id) {
            Some(i) => Ok(&self.sessions[i]),
            None => Err(NegotiationError::SessionNotFound(session_id.to_string())),
        }
    }
}


/// The entry a map holds for a key, if any.
pub open spec fn entry_of<K, V>(m: Map<K, V>, k: K) -> Option<V> {
    if m.contains_key(k) {
        Some(m[k])
    } else {
        None
    }
}

/// Per-proposer rate limiting, for a level-3 proposer while the engine is
/// below its session limit: when the proposer has no window or its window
/// has passed (more than the window's length in ms since it started), a
/// new window starts at the creation time and holds this creation (or
/// none, under a limit of zero, which refuses it); within a window, a
/// creation counts one more if the window holds fewer than the limit,
/// and is otherwise refused with the window as it was.
pub proof fn lemma_rate_window<A: Clone>(
    old: NegotiationEngine<A>,
    new: NegotiationEngine<A>,
    proposer: AgentId,
    level: SovereigntyLevel,
    target: AgentId,
    affected: Seq<AgentId>,
    amendment: A,
    rationale: Seq<char>,
    now: i64,
    r: Result<SessionId, NegotiationError>,
)
    requires
        NegotiationEngine::<A>::created(old, new, proposer, level, target, affected, amendment, rationale, now, r),
        level_number(level) >= 3,
        old.sessions_view().len() < old.cfg().max_active_sessions,
    ensures
        ({
            let w = old.cfg().rate_limit_window_secs * 1000;
            let lim = old.cfg().rate_limit_per_agent;
            let rv = old.rate_view();
            &&& (!rv.contains_key(proposer) || now - rv[proposer].1 > w) ==> {
                &&& lim > 0 ==> r is Ok && new.rate_view()[proposer] == (1u32, now)
                &&& lim == 0 ==> r == Err::<SessionId, NegotiationError>(NegotiationError::RateLimited(proposer, lim))
                    && new.rate_view()[proposer] == (0u32, now)
            }
            &&& (rv.contains_key(proposer) && now - rv[proposer].1 <= w) ==> {
                &&& rv[proposer].0 >= lim ==> r == Err::<SessionId, NegotiationError>(
                    NegotiationError::RateLimited(proposer, lim),
                ) && new.rate_view()[proposer] == rv[proposer]
                &&& rv[proposer].0 < lim ==> r is Ok && new.rate_view()[proposer] == (
                    (rv[proposer].0 + 1) as u32,
                    rv[proposer].1,
                )
            }
        }),
{
}

/// The identifiers of the sessions of `m` that have ended.
pub open spec fn ended_sessions<A>(m: Map<SessionId, NegotiationSession<A>>) -> Set<SessionId> {
    m.dom().filter(|k: SessionId| phase_ended(m[k].phase))
}

impl<A: Clone> NegotiationEngine<A> {
    /// What creating a session at `now` answered (`r`) and did (`old` to
    /// `new`). A proposer below level 3 is refused; so is any proposer
    /// while the engine holds its limit of sessions. Otherwise the
    /// proposer's rate-limit entry is renewed if its window has passed; a
    /// proposer that has used up its window is refused (the renewed entry
    /// kept); else the entry counts one more session and a fresh session
    /// is added.
    pub open spec fn created(
        old: Self,
        new: Self,
        proposer: AgentId,
        level: SovereigntyLevel,
        target: AgentId,
        affected: Seq<AgentId>,
        amendment: A,
        rationale: Seq<char>,
        now: i64,
        r: Result<SessionId, NegotiationError>,
    ) -> bool {
        if level_number(level) < 3 {
            r == Err::<SessionId, NegotiationError>(NegotiationError::InsufficientLevel(proposer)) && new.unchanged(&old)
        } else if old.sessions_view().len() >= old.cfg().max_active_sessions {
            r == Err::<SessionId, NegotiationError>(
                NegotiationError::Backpressure(old.sessions_view().len() as usize, old.cfg().max_active_sessions),
            ) && new.unchanged(&old)
        } else {
            let e = rate_entry_at(entry_of(old.rate_view(), proposer), now, old.cfg().rate_limit_window_secs);
            &&& new.cfg() == old.cfg()
            &&& e.0 >= old.cfg().rate_limit_per_agent ==> {
                &&& r == Err::<SessionId, NegotiationError>(
                    NegotiationError::RateLimited(proposer, old.cfg().rate_limit_per_agent),
                )
                &&& new.sessions_view() == old.sessions_view()
                &&& new.rate_view() == old.rate_view().insert(proposer, e)
            }
            &&& e.0 < old.cfg().rate_limit_per_agent ==> {
                &&& new.rate_view() == old.rate_view().insert(proposer, ((e.0 + 1) as u32, e.1))
                &&& r matches Ok(id) && new.sessions_view().contains_key(id) && new.sessions_view()
                    == old.sessions_view().insert(id, new.sessions_view()[id]) && fresh_session(
                    new.sessions_view()[id],
                    id,
                    proposer,
                    target,
                    affected,
                    amendment,
                    rationale,
                    now,
                    old.cfg().default_timeout_ms,
                )
            }
        }
    }

    /// How a creation moves the number of sessions: both counts are finite;
    /// a refusal leaves the sessions as they were; a creation happens only
    /// below the limit and adds one session, unless the new identifier was
    /// already held, so the count never rises past the limit.
    pub open spec fn counted(old: Self, new: Self, r: Result<SessionId, NegotiationError>) -> bool {
        &&& old.sessions_view().dom().finite()
        &&& new.sessions_view().dom().finite()
        &&& r is Err ==> new.sessions_view() == old.sessions_view()
        &&& r matches Ok(id) ==> {
            &&& old.sessions_view().len() < old.cfg().max_active_sessions
            &&& new.sessions_view().len() == old.sessions_view().len() + if old.sessions_view().contains_key(id) {
                0int
            } else {
                1int
            }
        }
        &&& old.sessions_view().len() <= old.cfg().max_active_sessions ==> new.sessions_view().len()
            <= new.cfg().max_active_sessions
    }

    /// Count a session creation by `agent` at `now` against its rate limit.
    fn check_rate_limit(&mut self, agent: AgentId, now: i64) -> (r: Result<(), NegotiationError>)
        requires
            old(self).wf(),
        ensures
            final(self).wf(),
            final(self).sessions_view() == old(self).sessions_view(),
            final(self).cfg() == old(self).cfg(),
            ({
                let e = rate_entry_at(entry_of(old(self).rate_view(), agent), now, old(self).cfg().rate_limit_window_secs);
                &&& e.0 >= old(self).cfg().rate_limit_per_agent ==> r == Err::<(), NegotiationError>(
                    NegotiationError::RateLimited(agent, old(self).cfg().rate_limit_per_agent),
                ) && final(self).rate_view() == old(self).rate_view().insert(agent, e)
                &&& e.0 < old(self).cfg().rate_limit_per_agent ==> r is Ok && final(self).rate_view() == old(
                    self,
                ).rate_view().insert(agent, ((e.0 + 1) as u32, e.1))
            }),
    {
        let ghost keys0 = self.rate_limits@.map_values(|e: RateLimitEntry| e.agent);
        let ghost vals0 = self.rate_limits@.map_values(|e: RateLimitEntry| (e.count, e.window_start));
        let mut i: usize = 0;
        while i < self.rate_limits.len()
            invariant
                i <= self.rate_limits@.len(),
                forall|j: int| 0 <= j < i ==> self.rate_limits@[j].agent != agent,
            ensures
                i <= self.rate_limits@.len(),
                forall|j: int| 0 <= j < i ==> self.rate_limits@[j].agent != agent,
                i < self.rate_limits@.len() ==> self.rate_limits@[i as int].agent == agent,
            decreases self.rate_limits@.len() - i,
        {
            if self.rate_limits[i].agent == agent {
                break;
            }
            i = i + 1;
        }
        let mut entry = if i < self.rate_limits.len() {
            proof {
                assert(keys0[i as int] == agent);
                lemma_slot(keys0, i as int);
            }
            self.rate_limits[i]
        } else {
            proof {
                if keys0.contains(agent) {
                    let j = choose|j: int| 0 <= j < keys0.len() && keys0[j] == agent;
                    assert(self.rate_limits@[j].agent == agent);
                }
            }
            RateLimitEntry { agent, count: 0, window_start: now }
        };
        let window: i128 = self.config.rate_limit_window_secs as i128 * 1000;
        if now as i128 - entry.window_start as i128 > window {
            entry.window_start = now;
            entry.count = 0;
        }
        let limited = entry.count >= self.config.rate_limit_per_agent;
        if !limited {
            entry.count = entry.count + 1;
        }
        let ghost before = self.rate_limits@;
        if i < self.rate_limits.len() {
            self.rate_limits.set(i, entry);
            proof {
                assert(self.rate_limits@.map_values(|e: RateLimitEntry| e.agent) =~= keys0);
                assert(self.rate_limits@.map_values(|e: RateLimitEntry| (e.count, e.window_start)) =~= vals0.update(
                    i as int,
                    (entry.count, entry.window_start),
                ));
                lemma_keyed_set(keys0, vals0, i as int, (entry.count, entry.window_start));
            }
        } else {
            self.rate_limits.push(entry);
            proof {
                assert(self.rate_limits@.map_values(|e: RateLimitEntry| e.agent) =~= keys0.push(agent));
                assert(self.rate_limits@.map_values(|e: RateLimitEntry| (e.count, e.window_start)) =~= vals0.push(
                    (entry.count, entry.window_start),
                ));
                lemma_keyed_push(keys0, vals0, agent, (entry.count, entry.window_start));
            }
        }
        if limited {
            Err(NegotiationError::RateLimited(agent, self.config.rate_limit_per_agent))
        } else {
            Ok(())
        }
    }

    /// Create a session at time `now` (see `created`).
    pub fn create_session_at(
        &mut self,
        proposer: AgentId,
        proposer_level: SovereigntyLevel,
        target_agent: AgentId,
        affected_agents: Vec<AgentId>,
        amendment: A,
        rationale: String,
        now: i64,
    ) -> (r: Result<SessionId, NegotiationError>)
        requires
            old(self).wf(),
        ensures
            final(self).wf(),
            Self::created(
                *old(self),
                *final(self),
                proposer,
                proposer_level,
                target_agent,
                affected_agents@,
                amendment,
                rationale@,
                now,
                r,
            ),
            Self::counted(*old(self), *final(self), r),
    {
        proof {
            old(self).lemma_sessions_finite();
        }
        if proposer_level.as_u8() < 3 {
            return Err(NegotiationError::InsufficientLevel(proposer));
        }
        proof {
            lemma_keyed_len(ids_of(self.sessions@), self.sessions@);
        }
        if self.sessions.len() >= self.config.max_active_sessions {
            return Err(NegotiationError::Backpressure(self.sessions.len(), self.config.max_active_sessions));
        }
        match self.check_rate_limit(proposer, now) {
            Ok(()) => {},
            Err(e) => return Err(e),
        }
        let session_id = SessionId::new();
        let proposal_id = ProposalId::new();
        let all = participants_of(proposer, &affected_agents);
        let proposal_amendment = amendment.clone();
        let session = NegotiationSession {
            id: session_id,
            proposal: AmendmentProposal {
                id: proposal_id,
                proposer,
                target_agent,
                amendment: proposal_amendment,
                rationale,
                timestamp: now,
                status: ProposalStatus::Distributed,
            },
            affected_agents: all,
            phase: NegotiationPhase::ProposalDistributed,
            initial_responses: Vec::new(),
            counter_proposals: Vec::new(),
            final_votes: Vec::new(),
            active_amendment: amendment,
            created_at: now,
            timeout_ms: self.config.default_timeout_ms,
            last_activity_at: now,
        };
        let ghost sg = session;
        self.install(session);
        proof {
            assert(self.sessions_view()[session_id] == sg);
        }
        Ok(session_id)
    }

    /// Create a session now (see `created`, at the time read from the clock).
    pub fn create_session(
        &mut self,
        proposer: AgentId,
        proposer_level: SovereigntyLevel,
        target_agent: AgentId,
        affected_agents: Vec<AgentId>,
        amendment: A,
        rationale: String,
    ) -> (r: Result<SessionId, NegotiationError>)
        requires
            old(self).wf(),
        ensures
            final(self).wf(),
            exists|now: i64|
                #[trigger] Self::created(
                    *old(self),
                    *final(self),
                    proposer,
                    proposer_level,
                    target_agent,
                    affected_agents@,
                    amendment,
                    rationale@,
                    now,
                    r,
                ),
            Self::counted(*old(self), *final(self), r),
    {
        let now = crate::clock::now_millis();
        self.create_session_at(proposer, proposer_level, target_agent, affected_agents, amendment, rationale, now)
    }
}

impl<A> NegotiationEngine<A> {
    /// Add a session, replacing one with the same identifier.
    fn install(&mut self, s: NegotiationSession<A>)
        requires
            old(self).wf(),
        ensures
            final(self).wf(),
            final(self).sessions_view() == old(self).sessions_view().insert(s.id, s),
            final(self).rate_view() == old(self).rate_view(),
            final(self).cfg() == old(self).cfg(),
    {
        let ghost ids0 = ids_of(self.sessions@);
        let ghost sg = s;
        match self.find(s.id) {
            Some(i) => {
                self.sessions.set(i, s);
                proof {
                    assert(ids_of(self.sessions@) =~= ids0);
                    lemma_keyed_set(ids0, old(self).sessions@, i as int, sg);
                }
            },
            None => {
                self.sessions.push(s);
                proof {
                    assert(ids_of(self.sessions@) =~= ids0.push(sg.id));
                    lemma_keyed_push(ids0, old(self).sessions@, sg.id, sg);
                }
            },
        }
    }

    /// Replace the session at slot `i` by one with the same identifier.
    proof fn lemma_replace(old_e: Self, new_e: Self, i: int)
        requires
            old_e.wf(),
            0 <= i < old_e.sessions@.len(),
            new_e.sessions@ == old_e.sessions@.update(i, new_e.sessions@[i]),
            new_e.sessions@[i].id == old_e.sessions@[i].id,
            new_e.rate_limits == old_e.rate_limits,
        ensures
            new_e.wf(),
            new_e.sessions_view() == old_e.sessions_view().insert(old_e.sessions@[i].id, new_e.sessions@[i]),
            old_e.sessions_view()[old_e.sessions@[i].id] == old_e.sessions@[i],
            new_e.rate_view() == old_e.rate_view(),
    {
        let ids0 = ids_of(old_e.sessions@);
        assert(ids_of(new_e.sessions@) =~= ids0);
        lemma_keyed_set(ids0, old_e.sessions@, i, new_e.sessions@[i]);
        lemma_slot(ids0, i);
    }

    /// Record `agent`'s first answer to a session at `now` (see `answered`).
    pub fn submit_response_at(&mut self, session_id: SessionId, agent_id: AgentId, response: InitialResponse<A>, now: i64) -> (r:
        Result<(), NegotiationError>)
        requires
            old(self).wf(),
        ensures
            final(self).wf(),
            answered(*old(self), *final(self), session_id, agent_id, response, now, r),
    {
        match self.find(session_id) {
            None => Err(NegotiationError::SessionNotFound(session_id.to_string())),
            Some(i) => {
                let ghost before = *self;
                let r = self.sessions[i].respond(agent_id, response, now);
                proof {
                    Self::lemma_replace(before, *self, i as int);
                    if r is Err {
                        assert(self.sessions_view() =~= before.sessions_view());
                    }
                }
                r
            },
        }
    }

    /// Record `agent`'s first answer to a session now (see `answered`).
    pub fn submit_response(&mut self, session_id: SessionId, agent_id: AgentId, response: InitialResponse<A>) -> (r:
        Result<(), NegotiationError>)
        requires
            old(self).wf(),
        ensures
            final(self).wf(),
            exists|now: i64| #[trigger] answered(*old(self), *final(self), session_id, agent_id, response, now, r),
    {
        let now = crate::clock::now_millis();
        self.submit_response_at(session_id, agent_id, response, now)
    }

    /// Record `agent`'s final vote in a session at `now` (see `cast`).
    pub fn submit_vote_at(&mut self, session_id: SessionId, agent_id: AgentId, decision: VoteDecision, rationale: String, now: i64) -> (r:
        Result<(), NegotiationError>)
        requires
            old(self).wf(),
        ensures
            final(self).wf(),
            cast(*old(self), *final(self), session_id, agent_id, decision, rationale, now, r),
    {
        match self.find(session_id) {
            None => Err(NegotiationError::SessionNotFound(session_id.to_string())),
            Some(i) => {
                let ghost before = *self;
                let r = self.sessions[i].vote(agent_id, decision, rationale, now);
                proof {
                    Self::lemma_replace(before, *self, i as int);
                    if r is Err {
                        assert(self.sessions_view() =~= before.sessions_view());
                    }
                }
                r
            },
        }
    }

    /// Record `agent`'s final vote in a session now (see `cast`).
    pub fn submit_vote(&mut self, session_id: SessionId, agent_id: AgentId, decision: VoteDecision, rationale: String) -> (r:
        Result<(), NegotiationError>)
        requires
            old(self).wf(),
        ensures
            final(self).wf(),
            exists|now: i64| #[trigger] cast(*old(self), *final(self), session_id, agent_id, decision, rationale, now, r),
    {
        let now = crate::clock::now_millis();
        self.submit_vote_at(session_id, agent_id, decision, rationale, now)
    }

    /// Abort a session for `reason`, unless it has ended.
    pub fn abort_session(&mut self, session_id: SessionId, reason: AbortReason) -> (r: Result<(), NegotiationError>)
        requires
            old(self).wf(),
        ensures
            final(self).wf(),
            final(self).rate_view() == old(self).rate_view(),
            final(self).cfg() == old(self).cfg(),
            !old(self).sessions_view().contains_key(session_id) ==> (r matches Err(e) && Self::not_found(e, session_id))
                && final(self).sessions_view() == old(self).sessions_view(),
            old(self).sessions_view().contains_key(session_id) ==> {
                let s = old(self).sessions_view()[session_id];
                &&& phase_ended(s.phase) ==> r == Err::<(), NegotiationError>(NegotiationError::SessionEnded)
                    && final(self).sessions_view() == old(self).sessions_view()
                &&& !phase_ended(s.phase) ==> r is Ok && final(self).sessions_view() == old(self).sessions_view().insert(
                    session_id,
                    aborted(s, reason),
                )
            },
    {
        match self.find(session_id) {
            None => Err(NegotiationError::SessionNotFound(session_id.to_string())),
            Some(i) => {
                let ghost before = *self;
                let r = self.sessions[i].abort(reason);
                proof {
                    Self::lemma_replace(before, *self, i as int);
                    if r is Err {
                        assert(self.sessions_view() =~= before.sessions_view());
                    }
                }
                r
            },
        }
    }

    /// Close a session with `outcome`, decided by the caller from the
    /// trust-weighted votes; returns the trust events of the votes, with
    /// their voters, in vote order.
    pub fn finish_session(&mut self, session_id: SessionId, outcome: Outcome) -> (r: Result<
        Vec<(AgentId, CollaborationEvent)>,
        NegotiationError,
    >)
        requires
            old(self).wf(),
        ensures
            final(self).wf(),
            final(self).rate_view() == old(self).rate_view(),
            final(self).cfg() == old(self).cfg(),
            !old(self).sessions_view().contains_key(session_id) ==> (r matches Err(e) && Self::not_found(e, session_id))
                && final(self).sessions_view() == old(self).sessions_view(),
            old(self).sessions_view().contains_key(session_id) ==> {
                let s = old(self).sessions_view()[session_id];
                &&& phase_ended(s.phase) ==> r == Err::<Vec<(AgentId, CollaborationEvent)>, NegotiationError>(
                    NegotiationError::SessionEnded,
                ) && final(self).sessions_view() == old(self).sessions_view()
                &&& !phase_ended(s.phase) ==> (r matches Ok(ev) && ev@ == vote_events(s.final_votes@, s.proposal.id))
                    && final(self).sessions_view() == old(self).sessions_view().insert(
                    session_id,
                    NegotiationSession {
                        phase: NegotiationPhase::Completed(outcome),
                        proposal: AmendmentProposal { status: status_for(outcome), ..s.proposal },
                        ..s
                    },
                )
            },
    {
        match self.find(session_id) {
            None => Err(NegotiationError::SessionNotFound(session_id.to_string())),
            Some(i) => {
                let ghost before = *self;
                let r = self.sessions[i].finish(outcome);
                proof {
                    Self::lemma_replace(before, *self, i as int);
                    if r is Err {
                        assert(self.sessions_view() =~= before.sessions_view());
                    }
                }
                r
            },
        }
    }

    /// Whether a session has timed out at `now`; `false` once it has ended.
    pub fn check_timeout_at(&self, session_id: SessionId, now: i64) -> (r: Result<bool, NegotiationError>)
        requires
            self.wf(),
        ensures
            !self.sessions_view().contains_key(session_id) ==> (r matches Err(e) && Self::not_found(e, session_id)),
            self.sessions_view().contains_key(session_id) ==> r == Ok::<bool, NegotiationError>(
                timed_out(self.sessions_view()[session_id], now),
            ),
    {
        match self.find(session_id) {
            None => Err(NegotiationError::SessionNotFound(session_id.to_string())),
            Some(i) => {
                if self.sessions[i].phase.is_ended() {
                    return Ok(false);
                }
                Ok(now as i128 - self.sessions[i].last_activity_at as i128 > self.sessions[i].timeout_ms as i128)
            },
        }
    }

    /// Whether a session has timed out now; `false` once it has ended.
    pub fn check_timeout(&self, session_id: SessionId) -> (r: Result<bool, NegotiationError>)
        requires
            self.wf(),
        ensures
            !self.sessions_view().contains_key(session_id) ==> (r matches Err(e) && Self::not_found(e, session_id)),
            self.sessions_view().contains_key(session_id) ==> r is Ok,
            r == Ok::<bool, NegotiationError>(true) ==> !phase_ended(self.sessions_view()[session_id].phase),
    {
        let now = crate::clock::now_millis();
        self.check_timeout_at(session_id, now)
    }

    /// Set a session's last activity to `now`.
    pub fn update_last_activity_at(&mut self, session_id: SessionId, now: i64) -> (r: Result<(), NegotiationError>)
        requires
            old(self).wf(),
        ensures
            final(self).wf(),
            final(self).rate_view() == old(self).rate_view(),
            final(self).cfg() == old(self).cfg(),
            !old(self).sessions_view().contains_key(session_id) ==> (r matches Err(e) && Self::not_found(e, session_id))
                && final(self).sessions_view() == old(self).sessions_view(),
            old(self).sessions_view().contains_key(session_id) ==> r is Ok && final(self).sessions_view() == old(
                self,
            ).sessions_view().insert(
                session_id,
                touched(old(self).sessions_view()[session_id], now),
            ),
    {
        match self.find(session_id) {
            None => Err(NegotiationError::SessionNotFound(session_id.to_string())),
            Some(i) => {
                let ghost before = *self;
                self.sessions[i].last_activity_at = now;
                proof {
                    Self::lemma_replace(before, *self, i as int);
                }
                Ok(())
            },
        }
    }

    /// Set a session's last activity to now.
    pub fn update_last_activity(&mut self, session_id: SessionId) -> (r: Result<(), NegotiationError>)
        requires
            old(self).wf(),
        ensures
            final(self).wf(),
            final(self).rate_view() == old(self).rate_view(),
            final(self).cfg() == old(self).cfg(),
            !old(self).sessions_view().contains_key(session_id) ==> (r matches Err(e) && Self::not_found(e, session_id))
                && final(self).sessions_view() == old(self).sessions_view(),
            old(self).sessions_view().contains_key(session_id) ==> r is Ok && exists|now: i64|
                final(self).sessions_view() == old(self).sessions_view().insert(
                    session_id,
                    #[trigger] touched(old(self).sessions_view()[session_id], now),
                ),
    {
        let now = crate::clock::now_millis();
        self.update_last_activity_at(session_id, now)
    }
}

impl<A: Clone> NegotiationEngine<A> {
    /// Resolve a session's counter-proposals and open its final vote; a
    /// session that has ended is refused and left as it was.
    pub fn resolve_counter_proposals(&mut self, session_id: SessionId) -> (r: Result<(), NegotiationError>)
        requires
            old(self).wf(),
        ensures
            final(self).wf(),
            final(self).rate_view() == old(self).rate_view(),
            final(self).cfg() == old(self).cfg(),
            !old(self).sessions_view().contains_key(session_id) ==> (r matches Err(e) && Self::not_found(e, session_id))
                && final(self).sessions_view() == old(self).sessions_view(),
            old(self).sessions_view().contains_key(session_id) && phase_ended(
                old(self).sessions_view()[session_id].phase,
            ) ==> r == Err::<(), NegotiationError>(NegotiationError::SessionEnded) && final(self).sessions_view()
                == old(self).sessions_view(),
            old(self).sessions_view().contains_key(session_id) && !phase_ended(
                old(self).sessions_view()[session_id].phase,
            ) ==> r is Ok && final(self).sessions_view().contains_key(session_id) && final(self).sessions_view()
                == old(self).sessions_view().insert(session_id, final(self).sessions_view()[session_id])
                && resolved(old(self).sessions_view()[session_id], final(self).sessions_view()[session_id]),
    {
        match self.find(session_id) {
            None => Err(NegotiationError::SessionNotFound(session_id.to_string())),
            Some(i) => {
                if self.sessions[i].phase.is_ended() {
                    return Err(NegotiationError::SessionEnded);
                }
                let ghost before = *self;
                self.sessions[i].resolve();
                proof {
                    Self::lemma_replace(before, *self, i as int);
                }
                Ok(())
            },
        }
    }
}

/// The participants of a session: the proposer, then each affected agent
/// once.
fn participants_of(proposer: AgentId, affected: &Vec<AgentId>) -> (v: Vec<AgentId>)
    ensures
        v@ == participants(proposer, affected@),
{
    let mut v: Vec<AgentId> = Vec::new();
    v.push(proposer);
    let mut i: usize = 0;
    assert(affected@.take(0) =~= Seq::<AgentId>::empty());
    assert(v@ =~= seq![proposer]);
    while i < affected.len()
        invariant
            i <= affected@.len(),
            v@ == participants(proposer, affected@.take(i as int)),
        decreases affected@.len() - i,
    {
        proof {
            let t = affected@.take(i + 1);
            assert(t.drop_last() =~= affected@.take(i as int));
            assert(t.last() == affected@[i as int]);
        }
        let a = affected[i];
        if a != proposer && !contains_agent(&v, a) {
            v.push(a);
        }
        i = i + 1;
    }
    proof {
        assert(affected@.take(affected@.len() as int) =~= affected@);
    }
    v
}

impl<A> NegotiationEngine<A> {
    /// Abort every open session that has timed out at `now`; returns how
    /// many were aborted.
    pub fn check_all_timeouts_at(&mut self, now: i64) -> (r: usize)
        requires
            old(self).wf(),
        ensures
            final(self).wf(),
            final(self).rate_view() == old(self).rate_view(),
            final(self).cfg() == old(self).cfg(),
            final(self).sessions_view().dom() == old(self).sessions_view().dom(),
            forall|k: SessionId|
                #[trigger] old(self).sessions_view().contains_key(k) ==> final(self).sessions_view()[k] == if timed_out(
                    old(self).sessions_view()[k],
                    now,
                ) {
                    aborted(old(self).sessions_view()[k], AbortReason::TotalTimeout)
                } else {
                    old(self).sessions_view()[k]
                },
            r == timed_out_ids(old(self).sessions_view(), now).len(),
    {
        let ghost s0 = self.sessions@;
        let ghost ids0 = ids_of(s0);
        let _ = self.sessions.len();
        let mut count: usize = 0;
        let mut i: usize = 0;
        let ghost mut timed: Seq<SessionId> = Seq::empty();
        while i < self.sessions.len()
            invariant
                self.rate_limits == old(self).rate_limits,
                self.config == old(self).config,
                s0 == old(self).sessions@,
                ids0 == ids_of(s0),
                ids0.no_duplicates(),
                self.sessions@.len() == s0.len(),
                i <= s0.len(),
                forall|j: int| 0 <= j < s0.len() ==> (#[trigger] self.sessions@[j]).id == s0[j].id,
                forall|j: int|
                    0 <= j < i ==> #[trigger] self.sessions@[j] == if timed_out(s0[j], now) {
                        aborted(s0[j], AbortReason::TotalTimeout)
                    } else {
                        s0[j]
                    },
                forall|j: int| i <= j < s0.len() ==> #[trigger] self.sessions@[j] == s0[j],
                count == timed.len(),
                count <= i,
                s0.len() <= usize::MAX,
                timed.no_duplicates(),
                forall|k: SessionId|
                    #[trigger] timed.contains(k) <==> exists|j: int| 0 <= j < i && ids0[j] == k && timed_out(s0[j], now),
            decreases s0.len() - i,
        {
            let ghost before = self.sessions@;
            let out = !self.sessions[i].phase.is_ended() && (now as i128 - self.sessions[i].last_activity_at as i128
                > self.sessions[i].timeout_ms as i128);
            if out {
                let _ = self.sessions[i].abort(AbortReason::TotalTimeout);
                proof {
                    assert(!timed.contains(ids0[i as int])) by {
                        if timed.contains(ids0[i as int]) {
                            let j = choose|j: int| 0 <= j < i && ids0[j] == ids0[i as int] && timed_out(s0[j], now);
                            assert(ids0[j] == ids0[i as int]);
                        }
                    }
                    let t2 = timed.push(ids0[i as int]);
                    assert forall|a: int, b: int| 0 <= a < b < t2.len() implies t2[a] != t2[b] by {
                        if b == timed.len() {
                            assert(timed.contains(t2[a]));
                        }
                    }
                    assert forall|k: SessionId|
                        #[trigger] t2.contains(k) <==> exists|j: int| 0 <= j < i + 1 && ids0[j] == k && timed_out(s0[j], now) by {
                        if t2.contains(k) && k != ids0[i as int] {
                            let m = choose|m: int| 0 <= m < t2.len() && t2[m] == k;
                            assert(timed[m] == k);
                            assert(timed.contains(k));
                        }
                        if k == ids0[i as int] {
                            assert(t2[timed.len() as int] == k);
                        }
                        if exists|j: int| 0 <= j < i + 1 && ids0[j] == k && timed_out(s0[j], now) {
                            let j = choose|j: int| 0 <= j < i + 1 && ids0[j] == k && timed_out(s0[j], now);
                            if j < i {
                                assert(timed.contains(k));
                                let m = choose|m: int| 0 <= m < timed.len() && timed[m] == k;
                                assert(t2[m] == k);
                            }
                        }
                    }
                    timed = t2;
                }
                count = count + 1;
            } else {
                proof {
                    assert forall|k: SessionId|
                        #[trigger] timed.contains(k) <==> exists|j: int| 0 <= j < i + 1 && ids0[j] == k && timed_out(s0[j], now) by {
                        if exists|j: int| 0 <= j < i + 1 && ids0[j] == k && timed_out(s0[j], now) {
                            let j = choose|j: int| 0 <= j < i + 1 && ids0[j] == k && timed_out(s0[j], now);
                            assert(j != i);
                        }
                    }
                }
            }
            proof {
                assert forall|j: int| 0 <= j < s0.len() implies (#[trigger] self.sessions@[j]).id == s0[j].id by {
                    if j != i {
                        assert(self.sessions@[j] == before[j]);
                    }
                }
            }
            i = i + 1;
        }
        proof {
            let old_view = old(self).sessions_view();
            assert(ids_of(self.sessions@) =~= ids0);
            assert forall|k: SessionId| #[trigger] old_view.contains_key(k) implies self.sessions_view()[k] == if timed_out(
                old_view[k],
                now,
            ) {
                aborted(old_view[k], AbortReason::TotalTimeout)
            } else {
                old_view[k]
            } by {
                lemma_slot_of_present(ids0, k);
            }
            assert(self.sessions_view().dom() =~= old_view.dom());
            let f = timed_out_ids(old_view, now);
            assert(timed.to_set() =~= f) by {
                assert forall|k: SessionId| timed.to_set().contains(k) <==> f.contains(k) by {
                    if timed.contains(k) {
                        let j = choose|j: int| 0 <= j < s0.len() && ids0[j] == k && timed_out(s0[j], now);
                        lemma_slot(ids0, j);
                        assert(ids0.contains(k));
                    }
                    if f.contains(k) {
                        lemma_slot_of_present(ids0, k);
                        let j = ids0.index_of(k);
                        assert(ids0[j] == k && timed_out(s0[j], now));
                    }
                }
            }
            timed.unique_seq_to_set();
        }
        count
    }

    /// Abort every open session that has timed out now; returns how many.
    pub fn check_all_timeouts(&mut self) -> (r: usize)
        requires
            old(self).wf(),
        ensures
            final(self).wf(),
            final(self).rate_view() == old(self).rate_view(),
            final(self).cfg() == old(self).cfg(),
            final(self).sessions_view().dom() == old(self).sessions_view().dom(),
            exists|now: i64|
                r == (#[trigger] timed_out_ids(old(self).sessions_view(), now)).len() && forall|k: SessionId|
                    #[trigger] old(self).sessions_view().contains_key(k) ==> final(self).sessions_view()[k]
                        == if timed_out(old(self).sessions_view()[k], now) {
                        aborted(old(self).sessions_view()[k], AbortReason::TotalTimeout)
                    } else {
                        old(self).sessions_view()[k]
                    },
    {
        let now = crate::clock::now_millis();
        self.check_all_timeouts_at(now)
    }

    /// Drop the sessions that have ended; returns how many were dropped.
    pub fn cleanup_completed(&mut self) -> (r: usize)
        requires
            old(self).wf(),
        ensures
            final(self).wf(),
            final(self).rate_view() == old(self).rate_view(),
            final(self).cfg() == old(self).cfg(),
            forall|k: SessionId|
                #[trigger] final(self).sessions_view().contains_key(k) <==> old(self).sessions_view().contains_key(k)
                    && !phase_ended(old(self).sessions_view()[k].phase),
            forall|k: SessionId|
                #[trigger] final(self).sessions_view().contains_key(k) ==> final(self).sessions_view()[k] == old(
                    self,
                ).sessions_view()[k],
            r == old(self).sessions_view().len() - final(self).sessions_view().len(),
            r == ended_sessions(old(self).sessions_view()).len(),
    {
        proof {
            lemma_keyed_len(ids_of(self.sessions@), self.sessions@);
        }
        let n0 = self.sessions.len();
        let ghost v0 = self.sessions_view();
        let mut i: usize = 0;
        while i < self.sessions.len()
            invariant
                self.wf(),
                self.rate_limits == old(self).rate_limits,
                self.config == old(self).config,
                v0 == old(self).sessions_view(),
                n0 == v0.len(),
                i <= self.sessions@.len(),
                self.sessions@.len() <= n0,
                forall|j: int| 0 <= j < i ==> !phase_ended((#[trigger] self.sessions@[j]).phase),
                forall|k: SessionId|
                    #[trigger] self.sessions_view().contains_key(k) ==> v0.contains_key(k) && self.sessions_view()[k]
                        == v0[k],
                forall|k: SessionId|
                    #[trigger] v0.contains_key(k) && !phase_ended(v0[k].phase) ==> self.sessions_view().contains_key(k),
            decreases self.sessions@.len() - i,
        {
            if self.sessions[i].phase.is_ended() {
                let ghost before = *self;
                let ghost ids_b = ids_of(before.sessions@);
                proof {
                    lemma_keyed_remove(ids_b, before.sessions@, i as int);
                    lemma_slot(ids_b, i as int);
                }
                self.sessions.remove(i);
                proof {
                    assert(ids_of(self.sessions@) =~= ids_b.remove(i as int));
                    assert(self.sessions_view() == before.sessions_view().remove(ids_b[i as int]));
                    assert forall|k: SessionId| #[trigger] self.sessions_view().contains_key(k) implies v0.contains_key(k)
                        && self.sessions_view()[k] == v0[k] by {
                        assert(before.sessions_view().contains_key(k));
                    }
                    assert(before.sessions_view()[ids_b[i as int]] == before.sessions@[i as int]);
                    assert forall|k: SessionId| #[trigger] v0.contains_key(k) && !phase_ended(v0[k].phase) implies self.sessions_view().contains_key(k) by {
                        assert(before.sessions_view().contains_key(k));
                        if k == ids_b[i as int] {
                            assert(v0[k] == before.sessions@[i as int]);
                        }
                    }
                    assert forall|j: int| 0 <= j < i implies !phase_ended((#[trigger] self.sessions@[j]).phase) by {
                        assert(self.sessions@[j] == before.sessions@[j]);
                    }
                }
            } else {
                i = i + 1;
            }
        }
        proof {
            lemma_keyed_len(ids_of(self.sessions@), self.sessions@);
            assert forall|k: SessionId|
                #[trigger] self.sessions_view().contains_key(k) implies !phase_ended(v0[k].phase) by {
                lemma_slot_of_present(ids_of(self.sessions@), k);
            }
            old(self).lemma_sessions_finite();
            self.lemma_sessions_finite();
            let ended = ended_sessions(v0);
            let kept = self.sessions_view().dom();
            assert(ended.finite()) by {
                vstd::set_lib::lemma_len_subset(ended, v0.dom());
            }
            assert(kept.disjoint(ended));
            assert(kept + ended =~= v0.dom());
            vstd::set_lib::lemma_set_disjoint_lens(kept, ended);
        }
        n0 - self.sessions.len()
    }
}

impl NegotiationConfig {
    /// The limits `default` gives.
    pub open spec fn default_spec() -> NegotiationConfig {
        NegotiationConfig {
            max_active_sessions: 100,
            default_timeout_ms: 300_000,
            rate_limit_per_agent: 10,
            rate_limit_window_secs: 60,
        }
    }
}

} // verus!
