//! A minimal scripted agent, for exercising the agent surface and the
//! runtime without a reasoning model.

use vstd::prelude::*;
use crate::intent::constraints_violated;
use crate::text::{digits_of, u64_text};
use crate::{
    AgentId, AgentProgram, DeliveryError, Intent, IntentId, InterruptReason, Message, SchedulingState, StepMetrics,
    StepOutput, StepResult, StepStatus, TerminationReason,
};

verus! {

/// A mock agent that counts its steps and stops when its intent's
/// constraints are violated.
#[derive(Debug)]
pub struct MockAgent {
    id: AgentId,
    state: SchedulingState,
    intent: Intent,
    script_index: usize,
    terminated: bool,
}

/// The text of a successful step `n`.
pub open spec fn step_text(n: nat) -> Seq<char> {
    "Step "@ + digits_of(n) + " completed"@
}

impl MockAgent {
    pub closed spec fn spec_id(&self) -> AgentId {
        self.id
    }

    pub closed spec fn spec_state(&self) -> SchedulingState {
        self.state
    }

    pub closed spec fn spec_intent(&self) -> Intent {
        self.intent
    }

    /// The number of steps completed.
    pub closed spec fn steps(&self) -> nat {
        self.script_index as nat
    }

    pub closed spec fn spec_terminated(&self) -> bool {
        self.terminated
    }

    /// Whether the intent's constraints are violated at `now`, counting the
    /// steps taken and no tokens.
    pub open spec fn violated_at(&self, now: i64) -> bool {
        constraints_violated(self.spec_intent().constraints, 0, self.steps() as u64, now)
    }

    /// A fresh agent: ready, no step taken. The program is not used.
    pub fn new(id: AgentId, intent: Intent, program: AgentProgram) -> (r: Self)
        ensures
            r.spec_id() == id,
            r.spec_intent() == intent,
            r.spec_state() == SchedulingState::Ready,
            r.steps() == 0,
            !r.spec_terminated(),
    {
        MockAgent { id, state: SchedulingState::Ready, intent, script_index: 0, terminated: false }
    }

    /// The script line being executed; scripts are not supported yet, so
    /// always empty.
    pub fn current_script_line(&self) -> (r: &str)
        ensures
            r@ == Seq::<char>::empty(),
    {
        let r = "";
        proof {
            reveal_strlit("");
        }
        r
    }

    pub fn id(&self) -> (r: AgentId)
        ensures
            r == self.spec_id(),
    {
        self.id
    }

    pub fn intent(&self) -> (r: &Intent)
        ensures
            *r == self.spec_intent(),
    {
        &self.intent
    }

    pub fn state(&self) -> (r: SchedulingState)
        ensures
            r == self.spec_state(),
    {
        self.state.clone()
    }

    /// Whether the agent has been terminated.
    pub fn is_terminated(&self) -> (r: bool)
        ensures
            r == self.spec_terminated(),
    {
        self.terminated
    }

    /// Whether the constraints are violated at `now` (see `violated_at`).
    pub fn check_constraints_violated_at(&self, now: i64) -> (r: bool)
        ensures
            r == self.violated_at(now),
    {
        self.intent.constraints.violated_by(0, self.script_index as u64, now)
    }

    /// Whether the constraints are violated now: the step budget decides
    /// alone when it is used up (as does a token budget of zero);
    /// otherwise only a deadline, read against the clock, can make the
    /// answer `true`.
    pub fn check_constraints_violated(&self) -> (r: bool)
        ensures
            crate::intent::budget_violated(self.spec_intent().constraints, 0, self.steps() as u64) ==> r,
            r ==> crate::intent::budget_violated(self.spec_intent().constraints, 0, self.steps() as u64)
                || self.spec_intent().constraints.deadline is Some,
    {
        let now = crate::clock::now_millis();
        self.check_constraints_violated_at(now)
    }

    /// What one step at time `now` answered (`r`) and did (`old` to
    /// `new`). A terminated agent is interrupted as forcefully terminated
    /// and left as it was; an agent whose constraints are violated at `now`
    /// is terminated for it and interrupted as over its token limit;
    /// otherwise the step count goes up by one and the step succeeds,
    /// using 10 tokens and 1 ms.
    pub open spec fn stepped(old: Self, new: Self, now: i64, r: StepResult) -> bool {
        &&& new.spec_id() == old.spec_id()
        &&& new.spec_intent() == old.spec_intent()
        &&& !r.wants_yield
        &&& old.spec_terminated() ==> {
            &&& r.status == (StepStatus::Interrupted { reason: InterruptReason::ForcefullyTerminated })
            &&& r.output matches StepOutput::Text(t) && t@ == "Agent already terminated"@
            &&& r.metrics.tokens_used == 0 && r.metrics.wall_time_ms == 0
            &&& new == old
        }
        &&& !old.spec_terminated() && old.violated_at(now) ==> {
            &&& r.status == (StepStatus::Interrupted { reason: InterruptReason::TokenLimitExceeded })
            &&& r.output matches StepOutput::Text(t) && t@ == "Constraints violated"@
            &&& r.metrics.tokens_used == 0 && r.metrics.wall_time_ms == 0
            &&& new.spec_terminated()
            &&& new.spec_state() == (SchedulingState::Terminated {
                reason: TerminationReason::ConstraintViolation,
                at: now,
            })
            &&& new.steps() == old.steps()
        }
        &&& !old.spec_terminated() && !old.violated_at(now) ==> {
            &&& r.status == StepStatus::Success
            &&& r.output matches StepOutput::Text(t) && t@ == step_text(old.steps() + 1)
            &&& r.metrics.tokens_used == 10 && r.metrics.wall_time_ms == 1
            &&& !new.spec_terminated()
            &&& new.spec_state() == old.spec_state()
            &&& new.steps() == old.steps() + 1
        }
    }

    /// One step at time `now` (see `stepped`).
    pub fn step_at(&mut self, now: i64) -> (r: StepResult)
        requires
            old(self).steps() < usize::MAX,
        ensures
            Self::stepped(*old(self), *final(self), now, r),
    {
        if self.terminated {
            return StepResult {
                status: StepStatus::Interrupted { reason: InterruptReason::ForcefullyTerminated },
                output: StepOutput::Text(String::from_str("Agent already terminated")),
                wants_yield: false,
                metrics: StepMetrics { tokens_used: 0, wall_time_ms: 0 },
            };
        }
        if self.check_constraints_violated_at(now) {
            self.terminated = true;
            self.state = SchedulingState::Terminated { reason: TerminationReason::ConstraintViolation, at: now };
            return StepResult {
                status: StepStatus::Interrupted { reason: InterruptReason::TokenLimitExceeded },
                output: StepOutput::Text(String::from_str("Constraints violated")),
                wants_yield: false,
                metrics: StepMetrics { tokens_used: 0, wall_time_ms: 0 },
            };
        }
        self.script_index = self.script_index + 1;
        let mut text = String::from_str("Step ");
        let n = u64_text(self.script_index as u64);
        text.append(n.as_str());
        text.append(" completed");
        StepResult {
            status: StepStatus::Success,
            output: StepOutput::Text(text),
            wants_yield: false,
            metrics: StepMetrics { tokens_used: 10, wall_time_ms: 1 },
        }
    }

    /// One step now (see `stepped`, at the time read from the clock). The
    /// clock decides only through a deadline: without one, a live agent
    /// within its budgets steps and succeeds, and one past a budget is
    /// terminated, whatever the time.
    pub fn step(&mut self) -> (r: StepResult)
        requires
            old(self).steps() < usize::MAX,
        ensures
            exists|now: i64| #[trigger] Self::stepped(*old(self), *final(self), now, r),
            !old(self).spec_terminated() && crate::intent::budget_violated(
                old(self).spec_intent().constraints,
                0,
                old(self).steps() as u64,
            ) ==> r.status == (StepStatus::Interrupted { reason: InterruptReason::TokenLimitExceeded })
                && final(self).spec_terminated() && final(self).steps() == old(self).steps(),
            !old(self).spec_terminated() && old(self).spec_intent().constraints.deadline is None
                && !crate::intent::budget_violated(old(self).spec_intent().constraints, 0, old(self).steps() as u64)
                ==> r.status == StepStatus::Success && final(self).steps() == old(self).steps() + 1 && (
            r.output matches StepOutput::Text(t) && t@ == step_text(old(self).steps() + 1)),
    {
        let now = crate::clock::now_millis();
        self.step_at(now)
    }

    /// The number of steps taken.
    pub fn step_count(&self) -> (r: usize)
        ensures
            r == self.steps(),
    {
        self.script_index
    }

    /// Accept any message; the mock agent does nothing with it.
    pub fn receive(&mut self, msg: Message) -> (r: Result<(), DeliveryError>)
        ensures
            r is Ok,
            *final(self) == *old(self),
    {
        Ok(())
    }

    /// Yielding changes nothing.
    pub fn yield_now(&mut self)
        ensures
            *final(self) == *old(self),
    {
    }

    /// Resuming changes nothing.
    pub fn resume(&mut self)
        ensures
            *final(self) == *old(self),
    {
    }

    /// Terminate for `reason` at time `now`.
    pub fn terminate_at(&mut self, reason: TerminationReason, now: i64)
        ensures
            final(self).spec_terminated(),
            final(self).spec_state() == (SchedulingState::Terminated { reason, at: now }),
            final(self).spec_id() == old(self).spec_id(),
            final(self).spec_intent() == old(self).spec_intent(),
            final(self).steps() == old(self).steps(),
    {
        self.terminated = true;
        self.state = SchedulingState::Terminated { reason, at: now };
    }

    /// Terminate for `reason` now.
    pub fn terminate(&mut self, reason: TerminationReason)
        ensures
            final(self).spec_terminated(),
            exists|now: i64| final(self).spec_state() == (SchedulingState::Terminated { reason, at: now }),
            final(self).spec_id() == old(self).spec_id(),
            final(self).spec_intent() == old(self).spec_intent(),
            final(self).steps() == old(self).steps(),
    {
        let now = crate::clock::now_millis();
        self.terminate_at(reason, now);
    }
}

impl Default for MockAgent {
    /// A ready agent with a fresh identifier, working on a root intent
    /// "Mock task" that it created.
    fn default() -> (r: Self)
        ensures
            r.spec_state() == SchedulingState::Ready,
            r.steps() == 0,
            !r.spec_terminated(),
            r.spec_intent().goal.0@ == "Mock task"@,
            r.spec_intent().parent is None,
            r.spec_intent().metadata.creator_agent == Some(r.spec_id()),
    {
        let id = AgentId::new();
        let intent_id = IntentId::new();
        let intent = Intent::new_root(intent_id, "Mock task", Some(id));
        let program = AgentProgram::new(
            crate::program::ModelDescriptor::new("mock", "v1"),
            crate::program::PromptDescriptor::new("You are a mock agent."),
        );
        MockAgent::new(id, intent, program)
    }
}

} // verus!
