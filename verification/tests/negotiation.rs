use runtime::ids::{ConstraintId, ProposalId, SessionId, TaskId};
use runtime::negotiation::types::{
    AbortReason, AmendmentProposal, CollaborationEvent, Constraint, InitialResponse, NegotiationConfig,
    NegotiationError, NegotiationPhase, Outcome, ProposalStatus, VoteDecision,
};
use runtime::negotiation::{
    CollaborationCollector, CreateProposalRequest, InitialResponsePayload, NegotiationEngine, NegotiationMessage,
    NegotiationSession,
};
use runtime::{AgentId, GoalDescription, SovereigntyLevel};

/// An amendment type for the tests, shaped as an execution-plan amendment.
#[derive(Debug, Clone)]
enum PlanAmendment {
    ModifyGoal { new_goal: GoalDescription },
    AddConstraint { constraint: Constraint },
    ModifyPriority { new_priorities: Vec<(String, f64)> },
}

fn neg_agent(n: u64) -> AgentId {
    let bytes = n.to_le_bytes();
    let mut uuid_bytes = [0u8; 16];
    uuid_bytes[..8].copy_from_slice(&bytes);
    AgentId::from_bytes(uuid_bytes)
}

fn goal(s: &str) -> PlanAmendment {
    PlanAmendment::ModifyGoal { new_goal: GoalDescription::new(s) }
}

fn goal_of(a: &PlanAmendment) -> String {
    match a {
        PlanAmendment::ModifyGoal { new_goal } => new_goal.as_str().to_string(),
        _ => panic!("Expected ModifyGoal"),
    }
}

fn create_test_session(
    engine: &mut NegotiationEngine<PlanAmendment>,
    proposer: AgentId,
    proposer_level: SovereigntyLevel,
    target: AgentId,
    affected: Vec<AgentId>,
    amendment: PlanAmendment,
) -> SessionId {
    engine
        .create_session(proposer, proposer_level, target, affected, amendment, "Test rationale".to_string())
        .unwrap()
}

fn response_of(engine: &NegotiationEngine<PlanAmendment>, id: SessionId, agent: AgentId) -> Option<InitialResponse<PlanAmendment>> {
    let session = engine.get_session(id).unwrap();
    session
        .initial_responses
        .iter()
        .find(|(a, _)| *a == agent)
        .map(|(_, r)| match r {
            InitialResponse::Accept => InitialResponse::Accept,
            InitialResponse::Reject { rationale } => InitialResponse::Reject { rationale: rationale.clone() },
            InitialResponse::CounterProposal { amendment, rationale } => InitialResponse::CounterProposal {
                amendment: amendment.clone(),
                rationale: rationale.clone(),
            },
            InitialResponse::Abstain => InitialResponse::Abstain,
        })
}

// ─── types ──────────────────────────────────────────────────

#[test]
fn test_proposal_id_uniqueness() {
    let id1 = ProposalId::new();
    let id2 = ProposalId::new();
    assert_ne!(id1, id2);
}

#[test]
fn test_session_id_uniqueness() {
    let id1 = SessionId::new();
    let id2 = SessionId::new();
    assert_ne!(id1, id2);
}

#[test]
fn test_plan_amendment_modify_goal() {
    let amendment = PlanAmendment::ModifyGoal { new_goal: GoalDescription::new("New goal") };
    match amendment {
        PlanAmendment::ModifyGoal { ref new_goal } => assert_eq!(new_goal.as_str(), "New goal"),
        _ => panic!("Expected ModifyGoal"),
    }
}

#[test]
fn test_plan_amendment_modify_priority() {
    let amendment =
        PlanAmendment::ModifyPriority { new_priorities: vec![("task_a".to_string(), 0.9), ("task_b".to_string(), 0.3)] };
    match amendment {
        PlanAmendment::ModifyPriority { ref new_priorities } => {
            assert_eq!(new_priorities.len(), 2);
            assert_eq!(new_priorities[0].1, 0.9);
        }
        _ => panic!("Expected ModifyPriority"),
    }
}

#[test]
fn test_negotiation_session_creation() {
    let proposer = neg_agent(1);
    let target = neg_agent(2);
    let affected = vec![neg_agent(2), neg_agent(3)];
    let amendment = goal("Updated goal");
    let now = chrono::Utc::now().timestamp_millis();
    let session = NegotiationSession {
        id: SessionId::new(),
        proposal: AmendmentProposal {
            id: ProposalId::new(),
            proposer,
            target_agent: target,
            amendment: amendment.clone(),
            rationale: "Requirement changed".to_string(),
            timestamp: now,
            status: ProposalStatus::Distributed,
        },
        affected_agents: affected.clone(),
        phase: NegotiationPhase::ProposalDistributed,
        initial_responses: Vec::new(),
        counter_proposals: Vec::new(),
        final_votes: Vec::new(),
        active_amendment: amendment,
        created_at: now,
        timeout_ms: 300_000,
        last_activity_at: now,
    };
    assert_eq!(session.affected_agents.len(), 2);
    assert_eq!(session.phase, NegotiationPhase::ProposalDistributed);
}

#[test]
fn test_initial_response_payload_conversion() {
    let payload = InitialResponsePayload::from_response(InitialResponse::<PlanAmendment>::Accept);
    assert!(matches!(payload.into_response(), InitialResponse::Accept));

    let payload = InitialResponsePayload::from_response(InitialResponse::<PlanAmendment>::Reject {
        rationale: "Too risky".to_string(),
    });
    match payload.into_response() {
        InitialResponse::Reject { rationale } => assert_eq!(rationale, "Too risky"),
        _ => panic!("Expected Reject"),
    }

    let payload = InitialResponsePayload::from_response(InitialResponse::CounterProposal {
        amendment: goal("Better goal"),
        rationale: "Improvement".to_string(),
    });
    match payload.into_response() {
        InitialResponse::CounterProposal { rationale, .. } => assert_eq!(rationale, "Improvement"),
        _ => panic!("Expected CounterProposal"),
    }

    let payload = InitialResponsePayload::from_response(InitialResponse::<PlanAmendment>::Abstain);
    assert!(matches!(payload.into_response(), InitialResponse::Abstain));
}

#[test]
fn test_plan_amendment_add_constraint() {
    let constraint = Constraint { id: ConstraintId::new(), description: "No destructive operations".to_string() };
    let amendment = PlanAmendment::AddConstraint { constraint: constraint.clone() };
    match amendment {
        PlanAmendment::AddConstraint { constraint: ref c } => {
            assert_eq!(c.description, "No destructive operations");
            assert_eq!(c.id, constraint.id);
        }
        _ => panic!("Expected AddConstraint"),
    }
}

#[test]
fn test_initial_response_variants() {
    let accept: InitialResponse<PlanAmendment> = InitialResponse::Accept;
    let reject: InitialResponse<PlanAmendment> = InitialResponse::Reject { rationale: "Too risky".to_string() };
    let counter = InitialResponse::CounterProposal { amendment: goal("Modified goal"), rationale: "Better approach".to_string() };
    let abstain: InitialResponse<PlanAmendment> = InitialResponse::Abstain;

    assert!(matches!(accept, InitialResponse::Accept));
    assert!(matches!(reject, InitialResponse::Reject { .. }));
    assert!(matches!(counter, InitialResponse::CounterProposal { .. }));
    assert!(matches!(abstain, InitialResponse::Abstain));
}

#[test]
fn test_vote_decision_eq() {
    assert_eq!(VoteDecision::Accept, VoteDecision::Accept);
    assert_ne!(VoteDecision::Accept, VoteDecision::Reject);
}

#[test]
fn test_negotiation_phase_completed() {
    let phase = NegotiationPhase::Completed(Outcome::Accepted);
    assert!(matches!(phase, NegotiationPhase::Completed(Outcome::Accepted)));
}

#[test]
fn negotiation_phase_text_and_end() {
    assert_eq!(NegotiationPhase::Completed(Outcome::Accepted).to_text(), "Completed(Accepted)");
    assert_eq!(NegotiationPhase::Aborted(AbortReason::TotalTimeout).to_text(), "Aborted(TotalTimeout)");
    assert_eq!(NegotiationPhase::FinalVoting.to_text(), "FinalVoting");
    assert!(NegotiationPhase::Aborted(AbortReason::ProposerTerminated).is_ended());
    assert!(!NegotiationPhase::EvaluationInProgress.is_ended());
}

#[test]
fn negotiation_config_defaults() {
    let c = NegotiationConfig::default();
    assert_eq!(c.max_active_sessions, 100);
    assert_eq!(c.default_timeout_ms, 300_000);
    assert_eq!(c.rate_limit_per_agent, 10);
    assert_eq!(c.rate_limit_window_secs, 60);
}

// ─── engine ─────────────────────────────────────────────────

#[test]
fn test_engine_creation() {
    let engine: NegotiationEngine<PlanAmendment> = NegotiationEngine::new();
    assert_eq!(engine.session_count(), 0);
}

#[test]
fn test_create_session_requires_level3() {
    let mut engine = NegotiationEngine::new();
    let result = engine.create_session(
        neg_agent(1),
        SovereigntyLevel::Level2,
        neg_agent(2),
        vec![neg_agent(2), neg_agent(3)],
        goal("New goal"),
        "Requirement changed".to_string(),
    );
    assert!(matches!(result, Err(NegotiationError::InsufficientLevel(_))));
    assert_eq!(engine.session_count(), 0);
}

#[test]
fn test_create_session_level3_succeeds() {
    let mut engine = NegotiationEngine::new();
    let result = engine.create_session(
        neg_agent(1),
        SovereigntyLevel::Level3,
        neg_agent(2),
        vec![neg_agent(2), neg_agent(3)],
        goal("New goal"),
        "Requirement changed".to_string(),
    );
    assert!(result.is_ok());
    assert_eq!(engine.session_count(), 1);
}

#[test]
fn test_proposer_is_in_affected_agents() {
    let mut engine = NegotiationEngine::new();
    let proposer = neg_agent(1);
    let id = create_test_session(&mut engine, proposer, SovereigntyLevel::Level3, neg_agent(2), vec![neg_agent(2), neg_agent(3)], goal("New"));
    let session = engine.get_session(id).unwrap();
    assert!(session.affected_agents.contains(&proposer));
    assert_eq!(session.affected_agents.len(), 3);
    assert_eq!(session.affected_agents[0], proposer);
}

#[test]
fn proposer_listed_once_when_also_affected() {
    let mut engine = NegotiationEngine::new();
    let proposer = neg_agent(1);
    let id = create_test_session(
        &mut engine,
        proposer,
        SovereigntyLevel::Level3,
        neg_agent(2),
        vec![neg_agent(2), proposer, neg_agent(2)],
        goal("New"),
    );
    let session = engine.get_session(id).unwrap();
    assert_eq!(session.affected_agents, vec![proposer, neg_agent(2)]);
}

#[test]
fn test_submit_response() {
    let mut engine = NegotiationEngine::new();
    let voter = neg_agent(2);
    let id = create_test_session(&mut engine, neg_agent(1), SovereigntyLevel::Level3, neg_agent(2), vec![neg_agent(2), neg_agent(3)], goal("New"));
    engine.submit_response(id, voter, InitialResponse::Accept).unwrap();
    let session = engine.get_session(id).unwrap();
    assert_eq!(session.initial_responses.len(), 1);
    assert_eq!(session.phase, NegotiationPhase::EvaluationInProgress);
}

#[test]
fn test_submit_response_not_participant() {
    let mut engine = NegotiationEngine::new();
    let id = create_test_session(&mut engine, neg_agent(1), SovereigntyLevel::Level3, neg_agent(2), vec![neg_agent(2), neg_agent(3)], goal("New"));
    let result = engine.submit_response(id, neg_agent(99), InitialResponse::Accept);
    assert!(matches!(result, Err(NegotiationError::NotAParticipant(_))));
}

#[test]
fn test_duplicate_response_rejected() {
    let mut engine = NegotiationEngine::new();
    let voter = neg_agent(2);
    let id = create_test_session(&mut engine, neg_agent(1), SovereigntyLevel::Level3, neg_agent(2), vec![voter], goal("New"));
    engine.submit_response(id, voter, InitialResponse::Accept).unwrap();
    let result = engine.submit_response(id, voter, InitialResponse::Reject { rationale: "Changed mind".to_string() });
    assert!(matches!(result, Err(NegotiationError::DuplicateResponse(_))));
}

#[test]
fn response_to_unknown_session_not_found() {
    let mut engine: NegotiationEngine<PlanAmendment> = NegotiationEngine::new();
    let result = engine.submit_response(SessionId::new(), neg_agent(1), InitialResponse::Accept);
    assert!(matches!(result, Err(NegotiationError::SessionNotFound(_))));
}

#[test]
fn test_resolve_no_counter_proposals() {
    let mut engine = NegotiationEngine::new();
    let affected = vec![neg_agent(2)];
    let id = create_test_session(&mut engine, neg_agent(1), SovereigntyLevel::Level3, neg_agent(2), affected.clone(), goal("New"));
    engine.submit_response(id, affected[0], InitialResponse::Accept).unwrap();
    engine.resolve_counter_proposals(id).unwrap();
    let session = engine.get_session(id).unwrap();
    assert_eq!(session.phase, NegotiationPhase::FinalVoting);
    assert_eq!(goal_of(&session.active_amendment), "New");
}

#[test]
fn test_resolve_single_counter_proposal() {
    let mut engine = NegotiationEngine::new();
    let affected = vec![neg_agent(2)];
    let id = create_test_session(&mut engine, neg_agent(1), SovereigntyLevel::Level3, neg_agent(2), affected.clone(), goal("Original"));
    engine
        .submit_response(
            id,
            affected[0],
            InitialResponse::CounterProposal { amendment: goal("Modified"), rationale: "Better approach".to_string() },
        )
        .unwrap();
    engine.resolve_counter_proposals(id).unwrap();
    let session = engine.get_session(id).unwrap();
    assert_eq!(session.phase, NegotiationPhase::FinalVoting);
    assert_eq!(goal_of(&session.active_amendment), "Modified");
}

#[test]
fn test_multiple_counter_proposals_ranked_by_supporters() {
    let mut engine = NegotiationEngine::new();
    let (a2, a3, a4, a5) = (neg_agent(2), neg_agent(3), neg_agent(4), neg_agent(5));
    let id = create_test_session(&mut engine, neg_agent(1), SovereigntyLevel::Level3, neg_agent(6), vec![a2, a3, a4, a5], goal("Original"));
    engine
        .submit_response(id, a2, InitialResponse::CounterProposal { amendment: goal("CounterA"), rationale: "Approach A".to_string() })
        .unwrap();
    engine
        .submit_response(id, a3, InitialResponse::CounterProposal { amendment: goal("CounterB"), rationale: "Approach B".to_string() })
        .unwrap();
    engine.submit_response(id, a4, InitialResponse::Accept).unwrap();
    engine.submit_response(id, a5, InitialResponse::Accept).unwrap();
    engine.resolve_counter_proposals(id).unwrap();
    let session = engine.get_session(id).unwrap();
    let g = goal_of(&session.active_amendment);
    assert!(g == "CounterA" || g == "CounterB", "Expected one of the counter-proposals, got: {}", g);
    assert_eq!(session.counter_proposals.len(), 1);
}

#[test]
fn tied_counter_proposals_keep_arrival_order() {
    let mut engine = NegotiationEngine::new();
    let (a2, a3, a4) = (neg_agent(2), neg_agent(3), neg_agent(4));
    let id = create_test_session(&mut engine, neg_agent(1), SovereigntyLevel::Level3, neg_agent(6), vec![a2, a3, a4], goal("Original"));
    engine
        .submit_response(id, a2, InitialResponse::CounterProposal { amendment: goal("CounterA"), rationale: "A".to_string() })
        .unwrap();
    engine
        .submit_response(id, a3, InitialResponse::CounterProposal { amendment: goal("CounterB"), rationale: "B".to_string() })
        .unwrap();
    engine.submit_response(id, a4, InitialResponse::Reject { rationale: "No".to_string() }).unwrap();
    engine.resolve_counter_proposals(id).unwrap();
    let session = engine.get_session(id).unwrap();
    // Neither has a supporter: the first stays first.
    assert_eq!(goal_of(&session.active_amendment), "CounterA");
    assert_eq!(session.counter_proposals.len(), 1);
    assert_eq!(goal_of(&session.counter_proposals[0].amendment), "CounterB");
}

#[test]
fn vote_outside_final_voting_is_refused() {
    let mut engine = NegotiationEngine::new();
    let voter = neg_agent(2);
    let id = create_test_session(&mut engine, neg_agent(1), SovereigntyLevel::Level3, neg_agent(3), vec![voter], goal("New"));
    let result = engine.submit_vote(id, voter, VoteDecision::Accept, "Yes".to_string());
    match result {
        Err(NegotiationError::InvalidPhaseTransition(m)) => assert_eq!(m, "Cannot vote in phase ProposalDistributed"),
        other => panic!("unexpected {:?}", other),
    }
}

#[test]
fn votes_recorded_once_each() {
    let mut engine = NegotiationEngine::new();
    let voter = neg_agent(2);
    let id = create_test_session(&mut engine, neg_agent(1), SovereigntyLevel::Level3, neg_agent(3), vec![voter], goal("New"));
    engine.submit_response(id, voter, InitialResponse::Accept).unwrap();
    engine.resolve_counter_proposals(id).unwrap();
    engine.submit_vote(id, voter, VoteDecision::Accept, "Yes".to_string()).unwrap();
    let again = engine.submit_vote(id, voter, VoteDecision::Reject, "No".to_string());
    assert!(matches!(again, Err(NegotiationError::DuplicateVote(_))));
    let outsider = engine.submit_vote(id, neg_agent(77), VoteDecision::Accept, "Yes".to_string());
    assert!(matches!(outsider, Err(NegotiationError::NotAParticipant(_))));
    let session = engine.get_session(id).unwrap();
    assert_eq!(session.final_votes.len(), 1);
    assert_eq!(session.final_votes[0].decision, VoteDecision::Accept);
    assert_eq!(session.final_votes[0].rationale, "Yes");
}

#[test]
fn finish_session_returns_vote_events() {
    let mut engine = NegotiationEngine::new();
    let (proposer, a2, a3) = (neg_agent(1), neg_agent(2), neg_agent(3));
    let id = create_test_session(&mut engine, proposer, SovereigntyLevel::Level3, neg_agent(4), vec![a2, a3], goal("New"));
    engine.submit_response(id, a2, InitialResponse::Accept).unwrap();
    engine.submit_response(id, a3, InitialResponse::Accept).unwrap();
    engine.resolve_counter_proposals(id).unwrap();
    engine.submit_vote(id, a2, VoteDecision::Accept, "Yes".to_string()).unwrap();
    engine.submit_vote(id, a3, VoteDecision::Reject, "No".to_string()).unwrap();
    engine.submit_vote(id, proposer, VoteDecision::Abstain, "-".to_string()).unwrap();
    let events = engine.finish_session(id, Outcome::Accepted).unwrap();
    assert_eq!(events.len(), 2);
    assert_eq!(events[0].0, a2);
    assert!(matches!(events[0].1, CollaborationEvent::ProposalAccepted { .. }));
    assert_eq!(events[1].0, a3);
    assert!(matches!(events[1].1, CollaborationEvent::ProposalRejected { .. }));
    let session = engine.get_session(id).unwrap();
    assert_eq!(session.phase, NegotiationPhase::Completed(Outcome::Accepted));
    assert!(matches!(engine.finish_session(id, Outcome::Rejected), Err(NegotiationError::SessionEnded)));
}

#[test]
fn test_abort_session() {
    let mut engine = NegotiationEngine::new();
    let id = create_test_session(&mut engine, neg_agent(1), SovereigntyLevel::Level3, neg_agent(2), vec![neg_agent(2)], goal("New"));
    engine.abort_session(id, AbortReason::ProposerTerminated).unwrap();
    let session = engine.get_session(id).unwrap();
    assert!(matches!(session.phase, NegotiationPhase::Aborted(AbortReason::ProposerTerminated)));
    assert!(matches!(engine.abort_session(id, AbortReason::TotalTimeout), Err(NegotiationError::SessionEnded)));
}

#[test]
fn resolve_refuses_an_ended_session() {
    let mut engine = NegotiationEngine::new();
    let id = create_test_session(&mut engine, neg_agent(1), SovereigntyLevel::Level3, neg_agent(2), vec![neg_agent(2)], goal("New"));
    engine.abort_session(id, AbortReason::ProposerTerminated).unwrap();
    assert!(matches!(engine.resolve_counter_proposals(id), Err(NegotiationError::SessionEnded)));
    let session = engine.get_session(id).unwrap();
    assert!(matches!(session.phase, NegotiationPhase::Aborted(AbortReason::ProposerTerminated)));
    assert!(matches!(session.proposal.status, ProposalStatus::Aborted));
    assert_eq!(goal_of(&session.active_amendment), "New");
}

#[test]
fn test_backpressure_max_sessions() {
    let config = NegotiationConfig { max_active_sessions: 2, ..NegotiationConfig::default() };
    let mut engine = NegotiationEngine::with_config(config);
    let (proposer, target) = (neg_agent(1), neg_agent(2));
    let affected = vec![neg_agent(2)];
    let session1 = engine
        .create_session(proposer, SovereigntyLevel::Level3, target, affected.clone(), goal("Goal1"), "Rationale".to_string())
        .unwrap();
    let _session2 = engine
        .create_session(proposer, SovereigntyLevel::Level3, target, affected.clone(), goal("Goal2"), "Rationale".to_string())
        .unwrap();
    let result = engine.create_session(proposer, SovereigntyLevel::Level3, target, affected, goal("Goal3"), "Rationale".to_string());
    assert!(matches!(result, Err(NegotiationError::Backpressure(2, 2))));

    engine.finish_session(session1, Outcome::Accepted).unwrap();
    engine.cleanup_completed();

    let _session3 = engine
        .create_session(proposer, SovereigntyLevel::Level3, target, vec![neg_agent(2)], goal("Goal3"), "Rationale".to_string())
        .unwrap();
    assert_eq!(engine.session_count(), 2);
}

#[test]
fn test_rate_limit_per_agent() {
    let config = NegotiationConfig { rate_limit_per_agent: 2, rate_limit_window_secs: 60, ..NegotiationConfig::default() };
    let mut engine = NegotiationEngine::with_config(config);
    let (proposer, target) = (neg_agent(1), neg_agent(2));
    let affected = vec![neg_agent(2)];
    engine
        .create_session(proposer, SovereigntyLevel::Level3, target, affected.clone(), goal("Goal1"), "Rationale".to_string())
        .unwrap();
    engine
        .create_session(proposer, SovereigntyLevel::Level3, target, affected.clone(), goal("Goal2"), "Rationale".to_string())
        .unwrap();
    let result = engine.create_session(proposer, SovereigntyLevel::Level3, target, affected, goal("Goal3"), "Rationale".to_string());
    assert!(matches!(result, Err(NegotiationError::RateLimited(_, 2))));
}

#[test]
fn rate_limit_window_resets() {
    let config = NegotiationConfig { rate_limit_per_agent: 1, rate_limit_window_secs: 60, ..NegotiationConfig::default() };
    let mut engine = NegotiationEngine::with_config(config);
    let (proposer, target) = (neg_agent(1), neg_agent(2));
    engine
        .create_session_at(proposer, SovereigntyLevel::Level3, target, vec![target], goal("G1"), "R".to_string(), 1_000)
        .unwrap();
    let limited = engine.create_session_at(proposer, SovereigntyLevel::Level3, target, vec![target], goal("G2"), "R".to_string(), 30_000);
    assert!(matches!(limited, Err(NegotiationError::RateLimited(_, 1))));
    engine
        .create_session_at(proposer, SovereigntyLevel::Level3, target, vec![target], goal("G3"), "R".to_string(), 62_000)
        .unwrap();
    assert_eq!(engine.session_count(), 2);
}

#[test]
fn test_timeout_detection() {
    let config = NegotiationConfig { default_timeout_ms: 10, ..NegotiationConfig::default() };
    let mut engine = NegotiationEngine::with_config(config);
    let id = engine
        .create_session_at(neg_agent(1), SovereigntyLevel::Level3, neg_agent(2), vec![neg_agent(2)], goal("Goal"), "Rationale".to_string(), 1_000)
        .unwrap();
    assert!(!engine.check_timeout_at(id, 1_005).unwrap());
    assert!(engine.check_timeout_at(id, 1_020).unwrap());
}

#[test]
fn test_check_all_timeouts_aborts() {
    let config = NegotiationConfig { default_timeout_ms: 10, ..NegotiationConfig::default() };
    let mut engine = NegotiationEngine::with_config(config);
    let id = engine
        .create_session_at(neg_agent(1), SovereigntyLevel::Level3, neg_agent(2), vec![neg_agent(2)], goal("Goal"), "Rationale".to_string(), 1_000)
        .unwrap();
    assert_eq!(engine.check_all_timeouts_at(1_005), 0);
    assert_eq!(engine.check_all_timeouts_at(1_020), 1);
    let session = engine.get_session(id).unwrap();
    assert!(matches!(session.phase, NegotiationPhase::Aborted(AbortReason::TotalTimeout)));
    assert!(!engine.check_timeout_at(id, 5_000).unwrap());
}

#[test]
fn test_activity_updates_prevent_timeout() {
    let config = NegotiationConfig { default_timeout_ms: 10, ..NegotiationConfig::default() };
    let mut engine = NegotiationEngine::with_config(config);
    let id = engine
        .create_session_at(neg_agent(1), SovereigntyLevel::Level3, neg_agent(2), vec![neg_agent(2)], goal("Goal"), "Rationale".to_string(), 1_000)
        .unwrap();
    for step in 1..=3i64 {
        engine.update_last_activity_at(id, 1_000 + 8 * step).unwrap();
    }
    assert!(!engine.check_timeout_at(id, 1_030).unwrap());
}

#[test]
fn test_cleanup_completed() {
    let mut engine = NegotiationEngine::new();
    let (proposer, target) = (neg_agent(1), neg_agent(2));
    let affected = vec![neg_agent(2)];
    let session1 = engine
        .create_session(proposer, SovereigntyLevel::Level3, target, affected.clone(), goal("Goal1"), "Rationale".to_string())
        .unwrap();
    let session2 = engine
        .create_session(proposer, SovereigntyLevel::Level3, target, affected.clone(), goal("Goal2"), "Rationale".to_string())
        .unwrap();
    assert_eq!(engine.session_count(), 2);
    engine.abort_session(session1, AbortReason::ProposerTerminated).unwrap();
    assert_eq!(engine.cleanup_completed(), 1);
    assert_eq!(engine.session_count(), 1);
    assert!(engine.get_session(session2).is_ok());
    assert!(matches!(engine.get_session(session1), Err(NegotiationError::SessionNotFound(_))));
}

// ─── messages ───────────────────────────────────────────────

#[test]
fn test_create_session_from_ipc() {
    let mut engine = NegotiationEngine::new();
    let (proposer, target) = (neg_agent(1), neg_agent(2));
    let request = CreateProposalRequest {
        proposer,
        target_agent: target,
        amendment: goal("New goal from IPC"),
        rationale: "Business requirement changed".to_string(),
        affected_agents: vec![neg_agent(2), neg_agent(3)],
        consensus_threshold: 0.6f64,
    };
    let (session_id, broadcast_msgs) = engine.create_session_from_ipc(request, SovereigntyLevel::Level3).unwrap();
    assert_eq!(engine.session_count(), 1);
    assert_eq!(broadcast_msgs.len(), 2);
    for msg in &broadcast_msgs {
        match msg {
            NegotiationMessage::ProposalBroadcast {
                session_id: sid,
                proposer: p,
                target_agent: t,
                amendment,
                rationale,
                affected_agents: aff,
            } => {
                assert_eq!(*sid, session_id);
                assert_eq!(*p, proposer);
                assert_eq!(*t, target);
                assert_eq!(goal_of(amendment), "New goal from IPC");
                assert_eq!(rationale, "Business requirement changed");
                assert_eq!(aff.len(), 3);
            }
            _ => panic!("Expected ProposalBroadcast"),
        }
    }
}

#[test]
fn test_create_session_from_ipc_requires_level3() {
    let mut engine = NegotiationEngine::new();
    let request = CreateProposalRequest {
        proposer: neg_agent(1),
        target_agent: neg_agent(2),
        amendment: goal("New goal"),
        rationale: "Test".to_string(),
        affected_agents: vec![neg_agent(2)],
        consensus_threshold: 0.6f64,
    };
    let result = engine.create_session_from_ipc(request, SovereigntyLevel::Level2);
    assert!(matches!(result, Err(NegotiationError::InsufficientLevel(_))));
}

#[test]
fn test_handle_ipc_response_message() {
    let mut engine = NegotiationEngine::new();
    let responder = neg_agent(2);
    let id = create_test_session(&mut engine, neg_agent(1), SovereigntyLevel::Level3, neg_agent(3), vec![responder], goal("Test"));
    let msg: NegotiationMessage<PlanAmendment, f64> =
        NegotiationMessage::ResponseMessage { session_id: id, responder, response: InitialResponsePayload::Accept };
    let result = engine.handle_ipc_message(msg).unwrap();
    assert!(result.is_none());
    let session = engine.get_session(id).unwrap();
    assert_eq!(session.initial_responses.len(), 1);
    assert!(matches!(response_of(&engine, id, responder), Some(InitialResponse::Accept)));
}

#[test]
fn test_handle_ipc_response_with_counter_proposal() {
    let mut engine = NegotiationEngine::new();
    let responder = neg_agent(2);
    let id = create_test_session(&mut engine, neg_agent(1), SovereigntyLevel::Level3, neg_agent(3), vec![responder], goal("Original"));
    let msg: NegotiationMessage<PlanAmendment, f64> = NegotiationMessage::ResponseMessage {
        session_id: id,
        responder,
        response: InitialResponsePayload::CounterProposal { amendment: goal("Better approach"), rationale: "More efficient".to_string() },
    };
    engine.handle_ipc_message(msg).unwrap();
    match response_of(&engine, id, responder) {
        Some(InitialResponse::CounterProposal { rationale, amendment }) => {
            assert_eq!(rationale, "More efficient");
            assert_eq!(goal_of(&amendment), "Better approach");
        }
        _ => panic!("Expected CounterProposal"),
    }
}

#[test]
fn test_handle_ipc_vote_message() {
    let mut engine = NegotiationEngine::new();
    let voter = neg_agent(2);
    let id = create_test_session(&mut engine, neg_agent(1), SovereigntyLevel::Level3, neg_agent(3), vec![voter], goal("Test"));
    engine.submit_response(id, voter, InitialResponse::Accept).unwrap();
    engine.resolve_counter_proposals(id).unwrap();
    let msg = NegotiationMessage::VoteMessage {
        session_id: id,
        voter,
        decision: VoteDecision::Accept,
        rationale: "Agreed".to_string(),
        weight: 0.75f64,
    };
    engine.handle_ipc_message(msg).unwrap();
    let session = engine.get_session(id).unwrap();
    assert_eq!(session.final_votes.len(), 1);
    let vote = session.final_votes.iter().find(|v| v.agent_id == voter).unwrap();
    assert_eq!(vote.decision, VoteDecision::Accept);
    assert_eq!(vote.rationale, "Agreed");
}

#[test]
fn agent_bound_messages_are_refused() {
    let mut engine = NegotiationEngine::new();
    let id = create_test_session(&mut engine, neg_agent(1), SovereigntyLevel::Level3, neg_agent(3), vec![neg_agent(2)], goal("Test"));
    let msg: NegotiationMessage<PlanAmendment, f64> =
        NegotiationMessage::NegotiationAborted { session_id: id, reason: AbortReason::TotalTimeout };
    match engine.handle_ipc_message(msg) {
        Err(NegotiationError::InvalidPhaseTransition(m)) => {
            assert_eq!(m, "NegotiationAborted is for agents to receive, not for engine to process")
        }
        other => panic!("unexpected {:?}", other),
    }
    let session = engine.get_session(id).unwrap();
    assert_eq!(session.phase, NegotiationPhase::ProposalDistributed);
}

#[test]
fn test_broadcast_proposal() {
    let mut engine = NegotiationEngine::new();
    let proposer = neg_agent(1);
    let affected = vec![neg_agent(2), neg_agent(3), neg_agent(4)];
    let id = create_test_session(&mut engine, proposer, SovereigntyLevel::Level3, neg_agent(5), affected, goal("New goal"));
    let broadcasts = engine.broadcast_proposal::<f64>(id);
    assert_eq!(broadcasts.len(), 3);
    for msg in &broadcasts {
        match msg {
            NegotiationMessage::ProposalBroadcast { proposer: p, affected_agents: aff, .. } => {
                assert_eq!(*p, proposer);
                assert_eq!(aff.len(), 4);
            }
            _ => panic!("Expected ProposalBroadcast"),
        }
    }
    assert!(engine.broadcast_proposal::<f64>(SessionId::new()).is_empty());
}

#[test]
fn test_broadcast_voting_started() {
    let mut engine = NegotiationEngine::new();
    let (a2, a3) = (neg_agent(2), neg_agent(3));
    let id = create_test_session(&mut engine, neg_agent(1), SovereigntyLevel::Level3, neg_agent(4), vec![a2, a3], goal("Test"));
    assert!(engine.broadcast_voting_started::<f64>(id).is_empty());
    engine.submit_response(id, a2, InitialResponse::Accept).unwrap();
    engine.submit_response(id, a3, InitialResponse::Accept).unwrap();
    engine.resolve_counter_proposals(id).unwrap();
    let voting_started = engine.broadcast_voting_started::<f64>(id);
    assert_eq!(voting_started.len(), 2);
    for msg in &voting_started {
        match msg {
            NegotiationMessage::VotingStarted { session_id: sid, final_amendment } => {
                assert_eq!(*sid, id);
                assert_eq!(goal_of(final_amendment), "Test");
            }
            _ => panic!("Expected VotingStarted"),
        }
    }
}

#[test]
fn test_broadcast_result_accepted() {
    let mut engine = NegotiationEngine::new();
    let (proposer, voter) = (neg_agent(1), neg_agent(2));
    let id = create_test_session(&mut engine, proposer, SovereigntyLevel::Level3, neg_agent(3), vec![voter], goal("Test"));
    engine.submit_response(id, voter, InitialResponse::Accept).unwrap();
    engine.resolve_counter_proposals(id).unwrap();
    engine.submit_vote(id, voter, VoteDecision::Accept, "Yes".to_string()).unwrap();
    engine.submit_vote(id, proposer, VoteDecision::Accept, "Proposer yes".to_string()).unwrap();
    assert!(engine.broadcast_result::<f64>(id).is_none());
    engine.finish_session(id, Outcome::Accepted).unwrap();
    let result_msg = engine.broadcast_result::<f64>(id);
    assert!(result_msg.is_some());
    match result_msg.unwrap() {
        NegotiationMessage::NegotiationResult { session_id: sid, outcome, final_amendment } => {
            assert_eq!(sid, id);
            assert_eq!(outcome, Outcome::Accepted);
            assert_eq!(goal_of(&final_amendment.unwrap()), "Test");
        }
        _ => panic!("Expected NegotiationResult"),
    }
}

#[test]
fn broadcast_result_rejected_still_carries_amendment() {
    let mut engine = NegotiationEngine::new();
    let voter = neg_agent(2);
    let id = create_test_session(&mut engine, neg_agent(1), SovereigntyLevel::Level3, neg_agent(3), vec![voter], goal("Test"));
    engine.submit_response(id, voter, InitialResponse::Accept).unwrap();
    engine.resolve_counter_proposals(id).unwrap();
    engine.finish_session(id, Outcome::Rejected).unwrap();
    match engine.broadcast_result::<f64>(id) {
        Some(NegotiationMessage::NegotiationResult { outcome, final_amendment, .. }) => {
            assert_eq!(outcome, Outcome::Rejected);
            assert_eq!(goal_of(&final_amendment.unwrap()), "Test");
        }
        _ => panic!("Expected NegotiationResult"),
    }
}

#[test]
fn test_broadcast_abort() {
    let mut engine = NegotiationEngine::new();
    let id = create_test_session(&mut engine, neg_agent(1), SovereigntyLevel::Level3, neg_agent(3), vec![neg_agent(2)], goal("Test"));
    assert!(engine.broadcast_abort::<f64>(id).is_none());
    engine.abort_session(id, AbortReason::ProposerTerminated).unwrap();
    let abort_msg = engine.broadcast_abort::<f64>(id);
    assert!(abort_msg.is_some());
    match abort_msg.unwrap() {
        NegotiationMessage::NegotiationAborted { session_id: sid, reason } => {
            assert_eq!(sid, id);
            assert_eq!(reason, AbortReason::ProposerTerminated);
        }
        _ => panic!("Expected NegotiationAborted"),
    }
}

#[test]
fn test_ipc_full_negotiation_flow() {
    let mut engine = NegotiationEngine::new();
    let (proposer, a2, a3) = (neg_agent(1), neg_agent(2), neg_agent(3));
    let request = CreateProposalRequest {
        proposer,
        target_agent: neg_agent(4),
        amendment: goal("New goal"),
        rationale: "Business requirement change".to_string(),
        affected_agents: vec![a2, a3],
        consensus_threshold: 0.6f64,
    };
    let (id, broadcasts) = engine.create_session_from_ipc(request, SovereigntyLevel::Level3).unwrap();
    assert_eq!(broadcasts.len(), 2);
    for responder in [a2, a3] {
        engine
            .handle_ipc_message(NegotiationMessage::<PlanAmendment, f64>::ResponseMessage {
                session_id: id,
                responder,
                response: InitialResponsePayload::Accept,
            })
            .unwrap();
    }
    engine.resolve_counter_proposals(id).unwrap();
    assert_eq!(engine.broadcast_voting_started::<f64>(id).len(), 2);
    for (voter, rationale) in [(a2, "Agreed"), (a3, "Agreed"), (proposer, "Proposer agrees")] {
        engine
            .handle_ipc_message(NegotiationMessage::<PlanAmendment, f64>::VoteMessage {
                session_id: id,
                voter,
                decision: VoteDecision::Accept,
                rationale: rationale.to_string(),
                weight: 0.0,
            })
            .unwrap();
    }
    let events = engine.finish_session(id, Outcome::Accepted).unwrap();
    assert_eq!(events.len(), 3);
    match engine.broadcast_result::<f64>(id) {
        Some(NegotiationMessage::NegotiationResult { outcome, final_amendment: Some(a), .. }) => {
            assert_eq!(outcome, Outcome::Accepted);
            assert_eq!(goal_of(&a), "New goal");
        }
        _ => panic!("Expected NegotiationResult"),
    }
}

#[test]
fn payload_roundtrip_keeps_counter_proposal() {
    let r = InitialResponse::CounterProposal { amendment: goal("X"), rationale: "why".to_string() };
    let p = InitialResponsePayload::from_response(r);
    match p.into_response() {
        InitialResponse::CounterProposal { amendment, rationale } => {
            assert_eq!(goal_of(&amendment), "X");
            assert_eq!(rationale, "why");
        }
        _ => panic!("Expected CounterProposal"),
    }
}

// ─── collector ──────────────────────────────────────────────

#[test]
fn test_collector_creation() {
    let collector = CollaborationCollector::new();
    assert_eq!(collector.pending_count(), 0);
}

#[test]
fn test_collector_add_event() {
    let mut collector = CollaborationCollector::new();
    collector.add_event(neg_agent(1), CollaborationEvent::ProposalAccepted { proposal_id: ProposalId::new() });
    assert_eq!(collector.pending_count(), 1);
}

#[test]
fn collector_take_pending_groups_by_agent() {
    let mut collector = CollaborationCollector::new();
    let (a, b) = (neg_agent(1), neg_agent(2));
    let task = TaskId::new();
    collector.add_event(a, CollaborationEvent::ProposalAccepted { proposal_id: ProposalId::new() });
    collector.add_event(b, CollaborationEvent::CommitmentViolated { task_id: task });
    collector.add_event(a, CollaborationEvent::CommitmentFulfilled { task_id: task });
    let groups = collector.take_pending();
    assert_eq!(collector.pending_count(), 0);
    assert_eq!(groups.len(), 2);
    assert_eq!(groups[0].0, a);
    assert_eq!(groups[0].1.len(), 2);
    assert!(matches!(groups[0].1[1], CollaborationEvent::CommitmentFulfilled { .. }));
    assert_eq!(groups[1].0, b);
    assert_eq!(groups[1].1, vec![CollaborationEvent::CommitmentViolated { task_id: task }]);
    assert!(collector.take_pending().is_empty());
}
