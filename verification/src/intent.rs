//! Intent descriptor for agents.

use vstd::prelude::*;
use crate::{AgentId, AgentMetrics, Constraints, CriteriaMet, Criterion, IntentId, Metadata};
use crate::criterion_verdict;

verus! {

/// Human- and machine-readable description of the goal.
#[derive(Debug, Clone)]
pub struct GoalDescription(pub String);

impl GoalDescription {
    pub fn new(s: &str) -> (g: Self)
        ensures
            g.0@ == s@,
    {
        GoalDescription(String::from_str(s))
    }

    pub fn as_str(&self) -> (s: &str)
        ensures
            s@ == self.0@,
    {
        self.0.as_str()
    }
}

impl AsRef<str> for GoalDescription {
    fn as_ref(&self) -> (s: &str)
        ensures
            s@ == self.0@,
    {
        self.0.as_str()
    }
}

/// Intent — the agent's "why am I running".
#[derive(Debug)]
pub struct Intent {
    /// Unique identity for this intent.
    pub id: IntentId,
    /// The goal description.
    pub goal: GoalDescription,
    /// Success criteria.
    pub success_criteria: Vec<Criterion>,
    /// Constraints (token budget, deadline, etc.).
    pub constraints: Constraints,
    /// Parent intent ID if delegated.
    pub parent: Option<IntentId>,
    /// Metadata (created_at, creator_agent, etc.).
    pub metadata: Metadata,
}

/// One step of the fold over success criteria: a `Yes` is kept once
/// reached; otherwise `Unknown` overrides, `No` keeps the accumulator and
/// `Maybe` resets it to `Maybe`.
pub open spec fn success_step(acc: CriteriaMet, v: CriteriaMet) -> CriteriaMet {
    match v {
        CriteriaMet::Yes => CriteriaMet::Yes,
        CriteriaMet::No => if acc == CriteriaMet::Yes { CriteriaMet::Yes } else { acc },
        CriteriaMet::Maybe => if acc == CriteriaMet::Yes { CriteriaMet::Yes } else { CriteriaMet::Maybe },
        CriteriaMet::Unknown => if acc == CriteriaMet::Yes { CriteriaMet::Yes } else { CriteriaMet::Unknown },
    }
}

/// The fold of `success_step` over the verdicts of `s`, starting at `Maybe`.
pub open spec fn success_fold(s: Seq<Criterion>, m: AgentMetrics) -> CriteriaMet
    decreases s.len(),
{
    if s.len() == 0 {
        CriteriaMet::Maybe
    } else {
        success_step(success_fold(s.drop_last(), m), criterion_verdict(s.last(), m))
    }
}

/// Whether constraints are violated by the given counters at time `now`.
pub open spec fn constraints_violated(c: Constraints, tokens: u64, steps: u64, now: i64) -> bool {
    ||| (c.token_budget matches Some(b) && tokens >= b.tokens)
    ||| (c.step_budget matches Some(l) && steps >= l)
    ||| (c.deadline matches Some(d) && now > d)
}

/// Whether the counters alone (not the deadline) violate the constraints.
pub open spec fn budget_violated(c: Constraints, tokens: u64, steps: u64) -> bool {
    ||| (c.token_budget matches Some(b) && tokens >= b.tokens)
    ||| (c.step_budget matches Some(l) && steps >= l)
}

/// The check is whether any success criterion is met: the fold is `Yes`
/// exactly when some criterion's verdict is `Yes`, whatever their order.
pub proof fn lemma_success_any_yes(s: Seq<Criterion>, m: AgentMetrics)
    ensures
        success_fold(s, m) == CriteriaMet::Yes <==> exists|i: int|
            0 <= i < s.len() && #[trigger] criterion_verdict(s[i], m) == CriteriaMet::Yes,
    decreases s.len(),
{
    if s.len() > 0 {
        let init = s.drop_last();
        lemma_success_any_yes(init, m);
        if exists|i: int| 0 <= i < init.len() && #[trigger] criterion_verdict(init[i], m) == CriteriaMet::Yes {
            let i = choose|i: int| 0 <= i < init.len() && #[trigger] criterion_verdict(init[i], m) == CriteriaMet::Yes;
            assert(s[i] == init[i]);
        }
        if exists|i: int| 0 <= i < s.len() && #[trigger] criterion_verdict(s[i], m) == CriteriaMet::Yes {
            let i = choose|i: int| 0 <= i < s.len() && #[trigger] criterion_verdict(s[i], m) == CriteriaMet::Yes;
            if i < s.len() - 1 {
                assert(init[i] == s[i]);
            }
        }
    }
}

impl Intent {
    /// Create a new root intent: no criteria, default constraints, no
    /// parent, version 1, created now.
    pub fn new_root(id: IntentId, goal: &str, creator_agent: Option<AgentId>) -> (r: Self)
        ensures
            r.id == id,
            r.goal.0@ == goal@,
            r.success_criteria@.len() == 0,
            r.constraints.token_budget is None,
            r.constraints.deadline is None,
            r.constraints.step_budget is None,
            r.constraints.capability_bounds@.len() == 0,
            r.parent is None,
            r.metadata.creator_agent == creator_agent,
            r.metadata.version == 1,
            r.metadata.labels@.len() == 0,
    {
        Intent {
            id,
            goal: GoalDescription(String::from_str(goal)),
            success_criteria: Vec::new(),
            constraints: Constraints::default(),
            parent: None,
            metadata: Metadata {
                created_at: crate::clock::now_millis(),
                creator_agent,
                version: 1,
                labels: Vec::new(),
            },
        }
    }

    /// Fold the verdicts of the success criteria (see `success_step`).
    pub fn check_success_criteria(&self, metrics: &AgentMetrics) -> (r: CriteriaMet)
        ensures
            r == success_fold(self.success_criteria@, *metrics),
    {
        let mut acc = CriteriaMet::Maybe;
        let mut i: usize = 0;
        while i < self.success_criteria.len()
            invariant
                i <= self.success_criteria@.len(),
                acc == success_fold(self.success_criteria@.take(i as int), *metrics),
            decreases self.success_criteria@.len() - i,
        {
            proof {
                assert(self.success_criteria@.take(i + 1).drop_last() =~= self.success_criteria@.take(
                    i as int,
                ));
            }
            let v = self.success_criteria[i].is_met(metrics);
            acc = match v {
                CriteriaMet::Yes => CriteriaMet::Yes,
                CriteriaMet::No => if acc == CriteriaMet::Yes { CriteriaMet::Yes } else { acc },
                CriteriaMet::Maybe => if acc == CriteriaMet::Yes { CriteriaMet::Yes } else { CriteriaMet::Maybe },
                CriteriaMet::Unknown => if acc == CriteriaMet::Yes { CriteriaMet::Yes } else { CriteriaMet::Unknown },
            };
            i = i + 1;
        }
        proof {
            assert(self.success_criteria@.take(self.success_criteria@.len() as int) =~= self.success_criteria@);
        }
        acc
    }

    /// Whether the constraints are violated at time `now` (milliseconds).
    pub fn check_constraints_at(&self, metrics: &AgentMetrics, now: i64) -> (r: bool)
        ensures
            r == constraints_violated(self.constraints, metrics.tokens_consumed, metrics.steps_executed, now),
    {
        self.constraints.violated_by(metrics.tokens_consumed, metrics.steps_executed, now)
    }

    /// Whether the constraints are violated now. The budgets decide alone
    /// when they are exceeded; otherwise only a deadline, read against the
    /// clock, can make the answer `true`.
    pub fn check_constraints(&self, metrics: &AgentMetrics) -> (r: bool)
        ensures
            budget_violated(self.constraints, metrics.tokens_consumed, metrics.steps_executed) ==> r,
            r ==> budget_violated(self.constraints, metrics.tokens_consumed, metrics.steps_executed)
                || self.constraints.deadline is Some,
    {
        let now = crate::clock::now_millis();
        self.check_constraints_at(metrics, now)
    }
}

impl Clone for Intent {
    /// A copy whose criteria give the same verdicts as the original's.
    fn clone(&self) -> (r: Self)
        ensures
            r.id == self.id,
            r.goal.0@ == self.goal.0@,
            r.success_criteria@.len() == self.success_criteria@.len(),
            forall|i: int, m: AgentMetrics|
                0 <= i < self.success_criteria@.len() ==> #[trigger] criterion_verdict(
                    r.success_criteria@[i],
                    m,
                ) == criterion_verdict(self.success_criteria@[i], m),
            r.constraints.token_budget == self.constraints.token_budget,
            r.constraints.deadline == self.constraints.deadline,
            r.constraints.step_budget == self.constraints.step_budget,
            r.constraints.capability_bounds@ == self.constraints.capability_bounds@,
            r.parent == self.parent,
            r.metadata.created_at == self.metadata.created_at,
            r.metadata.creator_agent == self.metadata.creator_agent,
            r.metadata.version == self.metadata.version,
            r.metadata.labels@ == self.metadata.labels@,
    {
        let mut crit: Vec<Criterion> = Vec::new();
        let mut i: usize = 0;
        while i < self.success_criteria.len()
            invariant
                i <= self.success_criteria@.len(),
                crit@.len() == i,
                forall|j: int, m: AgentMetrics|
                    0 <= j < i ==> #[trigger] criterion_verdict(crit@[j], m) == criterion_verdict(
                        self.success_criteria@[j],
                        m,
                    ),
            decreases self.success_criteria@.len() - i,
        {
            crit.push(self.success_criteria[i].clone());
            i = i + 1;
        }
        Intent {
            id: self.id,
            goal: GoalDescription(self.goal.0.clone()),
            success_criteria: crit,
            constraints: self.constraints.clone(),
            parent: self.parent,
            metadata: self.metadata.clone(),
        }
    }
}

} // verus!
