//! Scheduling: the policy interface that decides which ready agent runs
//! next, a FIFO policy, and the runtime that drives them.

pub mod fifo_scheduler;
pub mod runtime;

pub use fifo_scheduler::FifoScheduler;
pub use runtime::Runtime;

use vstd::prelude::*;
use crate::{AgentId, BlockReason, TerminationReason};
use crate::record::SchedulingContext;

verus! {

/// External events that may affect scheduling decisions.
#[derive(Debug, Clone)]
pub enum SchedulingEvent {
    /// Timer fired (for time-based scheduling).
    TimerFired,
    /// Message arrived for a blocked agent.
    MessageArrived { target: AgentId },
    /// Tool result ready for a blocked agent.
    ToolResultReady { target: AgentId },
    /// Custom event (for extensibility).
    Custom(String),
}

/// A scheduling policy: which ready agent runs next.
///
/// Every policy keeps a set of ready agents: becoming ready or yielding adds
/// an agent, blocking or terminating removes it, and `next_to_run` hands out
/// (and removes) one of them.
pub trait Scheduler {
    /// The policy's internal consistency.
    spec fn inv(&self) -> bool;

    /// The agents currently ready to run.
    spec fn ready_set(&self) -> Set<AgentId>;

    /// The next agent to run, removed from the ready set; `None` when no
    /// agent is ready.
    fn next_to_run(&mut self) -> (r: Option<AgentId>)
        requires
            old(self).inv(),
        ensures
            final(self).inv(),
            r matches Some(a) ==> old(self).ready_set().contains(a) && final(self).ready_set() == old(
                self,
            ).ready_set().remove(a),
            r is None ==> old(self).ready_set() == Set::<AgentId>::empty() && final(self).ready_set()
                == old(self).ready_set(),
    ;

    /// The agent gave up its turn; it becomes ready again.
    fn on_yield(&mut self, agent_id: AgentId)
        requires
            old(self).inv(),
        ensures
            final(self).inv(),
            final(self).ready_set() == old(self).ready_set().insert(agent_id),
    ;

    /// The agent is blocked; it is no longer ready.
    fn on_block(&mut self, agent_id: AgentId, reason: BlockReason)
        requires
            old(self).inv(),
        ensures
            final(self).inv(),
            final(self).ready_set() == old(self).ready_set().remove(agent_id),
    ;

    /// The agent is ready (e.g. after resuming).
    fn on_ready(&mut self, agent_id: AgentId)
        requires
            old(self).inv(),
        ensures
            final(self).inv(),
            final(self).ready_set() == old(self).ready_set().insert(agent_id),
    ;

    /// The agent terminated; it is no longer ready.
    fn on_terminate(&mut self, agent_id: AgentId, reason: TerminationReason)
        requires
            old(self).inv(),
        ensures
            final(self).inv(),
            final(self).ready_set() == old(self).ready_set().remove(agent_id),
    ;

    /// An external event.
    fn on_event(&mut self, event: SchedulingEvent)
        requires
            old(self).inv(),
        ensures
            final(self).inv(),
    ;

    /// A change of an agent's scheduling context (e.g. its priority).
    fn update_agent_context(&mut self, agent_id: AgentId, context: &SchedulingContext)
        requires
            old(self).inv(),
        ensures
            final(self).inv(),
    ;

    /// The number of ready agents.
    fn ready_count(&self) -> (r: usize)
        requires
            self.inv(),
        ensures
            r == self.ready_set().len(),
    ;

    /// Whether some agent is ready.
    fn has_ready(&self) -> (r: bool)
        requires
            self.inv(),
        ensures
            r == (self.ready_set().len() > 0),
    {
        self.ready_count() > 0
    }
}

} // verus!
