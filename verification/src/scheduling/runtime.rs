//! The runtime: a process table of agent records, a pluggable scheduling
//! policy and an IPC broker.
//!
//! The runtime provides the mechanism (state bookkeeping, routing); the
//! policy alone decides which ready agent runs next.

use vstd::prelude::*;
use crate::{AgentId, AgentProgram, BlockReason, Intent, Message, SchedulingState};
use crate::ipc::{ChannelId, IpcBroker, IpcError};
use crate::ipc::broker::{capped, drained_all, installed_broadcast, installed_p2p, pending_all, routed_send};
use crate::intent::{budget_violated, constraints_violated};
use crate::program::{ModelDescriptor, PromptDescriptor};
use crate::record::{after_step, after_tokens, fresh_record, snapshot_of, with_state, AgentRecord, StateSnapshot};
use crate::table::{keyed_map, lemma_keyed_len, lemma_keyed_push, lemma_keyed_set, lemma_slot};
use super::Scheduler;

verus! {

/// The map from identifiers to records that two parallel tables describe.
pub open spec fn table_view(ids: Seq<AgentId>, recs: Seq<AgentRecord>) -> Map<AgentId, AgentRecord> {
    keyed_map(ids, recs)
}

/// The ready set after the policy hears that `id` moved to state `s`.
pub open spec fn ready_after(ready: Set<AgentId>, id: AgentId, s: SchedulingState) -> Set<AgentId> {
    match s {
        SchedulingState::Ready => ready.insert(id),
        SchedulingState::Running => ready,
        _ => ready.remove(id),
    }
}

/// Whether a record shows its agent blocked.
pub open spec fn is_blocked(r: AgentRecord) -> bool {
    r.state.current@ == "Blocked"@
}

/// The program a spawned agent starts with: a placeholder model ("mock",
/// "v1"), an empty prompt and no tools.
pub open spec fn placeholder_program(p: AgentProgram) -> bool {
    &&& p.model.provider@ == "mock"@
    &&& p.model.model_name@ == "v1"@
    &&& p.prompt.system_prompt@ == ""@
    &&& p.prompt.persona is None
    &&& p.prompt.rules@.len() == 0
    &&& p.tools.tools@.len() == 0
}

/// The runtime: agent records, a scheduling policy and an IPC broker.
pub struct Runtime<S: Scheduler> {
    /// Identifiers of the agents in the process table, all distinct.
    ids: Vec<AgentId>,
    /// The record of the agent whose identifier stands at the same place.
    records: Vec<AgentRecord>,
    /// Scheduling policy.
    scheduler: S,
    /// Broker for inter-agent communication.
    ipc_broker: IpcBroker,
}

impl<S: Scheduler> Runtime<S> {
    /// The process table is consistent.
    pub closed spec fn table_wf(&self) -> bool {
        &&& self.ids@.len() == self.records@.len()
        &&& self.ids@.no_duplicates()
    }

    /// The process table: each agent's record.
    pub closed spec fn records_view(&self) -> Map<AgentId, AgentRecord> {
        table_view(self.ids@, self.records@)
    }

    /// The scheduling policy.
    pub closed spec fn sched(&self) -> S {
        self.scheduler
    }

    /// The IPC broker.
    pub closed spec fn broker(&self) -> IpcBroker {
        self.ipc_broker
    }

    /// The runtime's consistency: table, policy and broker.
    pub open spec fn wf(&self) -> bool {
        &&& self.table_wf()
        &&& self.sched().inv()
        &&& self.broker().wf()
    }

    fn find(&self, id: AgentId) -> (r: Option<usize>)
        requires
            self.table_wf(),
        ensures
            r matches Some(i) ==> i < self.ids@.len() && self.ids@[i as int] == id && self.ids@.index_of(id)
                == i,
            r is None ==> !self.ids@.contains(id),
    {
        let mut i: usize = 0;
        while i < self.ids.len()
            invariant
                self.table_wf(),
                i <= self.ids@.len(),
                forall|j: int| 0 <= j < i ==> self.ids@[j] != id,
            decreases self.ids@.len() - i,
        {
            if self.ids[i] == id {
                proof {
                    lemma_slot(self.ids@, i as int);
                }
                return Some(i);
            }
            i = i + 1;
        }
        None
    }

    /// A runtime with an empty process table, the given policy and a
    /// broker without channels.
    pub fn new(scheduler: Box<S>) -> (rt: Self)
        requires
            scheduler.inv(),
        ensures
            rt.wf(),
            rt.records_view() == Map::<AgentId, AgentRecord>::empty(),
            rt.sched() == *scheduler,
            rt.broker().chans().len() == 0,
    {
        let rt = Runtime { ids: Vec::new(), records: Vec::new(), scheduler: *scheduler, ipc_broker: IpcBroker::new() };
        assert(rt.records_view() =~= Map::<AgentId, AgentRecord>::empty());
        rt
    }

    /// A runtime with an empty process table, the given policy and broker.
    pub fn with_ipc(scheduler: Box<S>, ipc_broker: IpcBroker) -> (rt: Self)
        requires
            scheduler.inv(),
            ipc_broker.wf(),
        ensures
            rt.wf(),
            rt.records_view() == Map::<AgentId, AgentRecord>::empty(),
            rt.sched() == *scheduler,
            rt.broker() == ipc_broker,
    {
        let rt = Runtime { ids: Vec::new(), records: Vec::new(), scheduler: *scheduler, ipc_broker };
        assert(rt.records_view() =~= Map::<AgentId, AgentRecord>::empty());
        rt
    }

    /// Add an agent to the process table with a fresh record (replacing
    /// any record it had) and mark it ready. Returns its identifier.
    pub fn spawn(&mut self, id: AgentId, intent: Intent) -> (r: AgentId)
        requires
            old(self).wf(),
        ensures
            final(self).wf(),
            r == id,
            final(self).records_view().contains_key(id),
            fresh_record(final(self).records_view()[id], id, intent, final(self).records_view()[id].program),
            placeholder_program(final(self).records_view()[id].program),
            final(self).records_view() == old(self).records_view().insert(id, final(self).records_view()[id]),
            final(self).sched().ready_set() == old(self).sched().ready_set().insert(id),
            final(self).broker() == old(self).broker(),
    {
        let program = AgentProgram::new(ModelDescriptor::new("mock", "v1"), PromptDescriptor::new(""));
        let record = AgentRecord::new(id, intent, program);
        let ghost rec = record;
        match self.find(id) {
            Some(i) => {
                proof {
                    lemma_keyed_set(self.ids@, self.records@, i as int, rec);
                }
                self.records.set(i, record);
            },
            None => {
                proof {
                    lemma_keyed_push(self.ids@, self.records@, id, rec);
                }
                self.ids.push(id);
                self.records.push(record);
            },
        }
        self.scheduler.on_ready(id);
        id
    }

    /// The next agent to run, as the policy chooses.
    pub fn next_to_run(&mut self) -> (r: Option<AgentId>)
        requires
            old(self).wf(),
        ensures
            final(self).wf(),
            r matches Some(a) ==> old(self).sched().ready_set().contains(a) && final(self).sched().ready_set()
                == old(self).sched().ready_set().remove(a),
            r is None ==> old(self).sched().ready_set() == Set::<AgentId>::empty()
                && final(self).sched().ready_set() == old(self).sched().ready_set(),
            final(self).records_view() == old(self).records_view(),
            final(self).broker() == old(self).broker(),
    {
        self.scheduler.next_to_run()
    }

    /// The agent's record, if it is in the process table.
    pub fn get_record(&self, agent_id: AgentId) -> (r: Option<&AgentRecord>)
        requires
            self.wf(),
        ensures
            r matches Some(rec) ==> self.records_view().contains_key(agent_id) && *rec
                == self.records_view()[agent_id],
            r is None ==> !self.records_view().contains_key(agent_id),
    {
        match self.find(agent_id) {
            Some(i) => Some(&self.records[i]),
            None => None,
        }
    }

    /// The agent's record for update, if it is in the process table.
    pub fn get_record_mut(&mut self, agent_id: AgentId) -> (r: Option<&mut AgentRecord>)
        requires
            old(self).wf(),
        ensures
            r is None ==> !old(self).records_view().contains_key(agent_id) && *final(self) == *old(self),
            r is Some ==> old(self).records_view().contains_key(agent_id) && *r->Some_0
                == old(self).records_view()[agent_id],
            r is Some ==> final(self).records_view() == old(self).records_view().insert(
                agent_id,
                *final(r->Some_0),
            ),
            r is Some ==> final(self).wf() && final(self).sched() == old(self).sched() && final(self).broker()
                == old(self).broker(),
    {
        match self.find(agent_id) {
            Some(i) => {
                let ghost recs0 = self.records@;
                proof {
                    lemma_slot(self.ids@, i as int);
                }
                let rec = &mut self.records[i];
                proof {
                    lemma_keyed_set(old(self).ids@, recs0, i as int, *final(rec));
                }
                Some(rec)
            },
            None => None,
        }
    }

    /// Record the agent's new state and tell the policy: a ready agent is
    /// added to the ready set, a blocked, suspended or terminated one
    /// removed, a running one left as it is. Nothing happens for an agent
    /// that is not in the process table.
    pub fn update_state(&mut self, agent_id: AgentId, new_state: SchedulingState)
        requires
            old(self).wf(),
        ensures
            final(self).wf(),
            !old(self).records_view().contains_key(agent_id) ==> *final(self) == *old(self),
            old(self).records_view().contains_key(agent_id) ==> {
                let rec = final(self).records_view()[agent_id];
                &&& snapshot_of(rec.state, new_state)
                &&& final(self).records_view() == old(self).records_view().insert(
                    agent_id,
                    with_state(old(self).records_view()[agent_id], rec.state),
                )
                &&& final(self).sched().ready_set() == ready_after(
                    old(self).sched().ready_set(),
                    agent_id,
                    new_state,
                )
                &&& final(self).broker() == old(self).broker()
            },
    {
        match self.find(agent_id) {
            None => {},
            Some(i) => {
                let ghost before = self.records@[i as int];
                let ghost st = new_state;
                match &new_state {
                    SchedulingState::Ready => self.scheduler.on_ready(agent_id),
                    SchedulingState::Running => {},
                    SchedulingState::Blocked { reason } => self.scheduler.on_block(agent_id, reason.clone()),
                    SchedulingState::Suspended => self.scheduler.on_block(
                        agent_id,
                        BlockReason::Other(String::from_str("suspended")),
                    ),
                    SchedulingState::Terminated { reason, .. } => self.scheduler.on_terminate(
                        agent_id,
                        reason.clone(),
                    ),
                }
                let snap = StateSnapshot::from(new_state);
                self.records[i].update_state(snap);
                proof {
                    lemma_keyed_set(self.ids@, old(self).records@, i as int, with_state(before, snap));
                    lemma_slot(self.ids@, i as int);
                }
            },
        }
    }

    /// Record a completed step of the agent that used `tokens_used`
    /// tokens. Nothing happens for an agent that is not in the table.
    pub fn record_step(&mut self, agent_id: AgentId, tokens_used: u64)
        requires
            old(self).wf(),
            old(self).records_view().contains_key(agent_id) ==> {
                let m = old(self).records_view()[agent_id].metrics;
                m.steps_executed < u64::MAX && m.tokens_consumed + tokens_used <= u64::MAX
            },
        ensures
            final(self).wf(),
            !old(self).records_view().contains_key(agent_id) ==> *final(self) == *old(self),
            old(self).records_view().contains_key(agent_id) ==> {
                let rec = final(self).records_view()[agent_id];
                &&& rec.metrics.last_stepped_at is Some
                &&& final(self).records_view() == old(self).records_view().insert(
                    agent_id,
                    after_tokens(
                        after_step(old(self).records_view()[agent_id], rec.metrics.last_stepped_at->Some_0),
                        tokens_used,
                    ),
                )
                &&& final(self).sched() == old(self).sched()
                &&& final(self).broker() == old(self).broker()
            },
    {
        match self.find(agent_id) {
            None => {},
            Some(i) => {
                let ghost before = self.records@[i as int];
                self.records[i].record_step();
                self.records[i].record_tokens(tokens_used);
                proof {
                    lemma_keyed_set(self.ids@, old(self).records@, i as int, self.records@[i as int]);
                    lemma_slot(self.ids@, i as int);
                }
            },
        }
    }

    /// Whether the agent's constraints are violated at time `now`; `false`
    /// for an agent that is not in the process table.
    pub fn check_constraints_at(&self, agent_id: AgentId, now: i64) -> (r: bool)
        requires
            self.wf(),
        ensures
            r == (self.records_view().contains_key(agent_id) && {
                let rec = self.records_view()[agent_id];
                constraints_violated(rec.intent.constraints, rec.metrics.tokens_consumed, rec.metrics.steps_executed, now)
            }),
    {
        match self.find(agent_id) {
            None => false,
            Some(i) => self.records[i].check_constraints_violated_at(now),
        }
    }

    /// Whether the agent's constraints are violated now; `false` for an
    /// agent that is not in the process table.
    pub fn check_constraints(&self, agent_id: AgentId) -> (r: bool)
        requires
            self.wf(),
        ensures
            !self.records_view().contains_key(agent_id) ==> !r,
            self.records_view().contains_key(agent_id) ==> {
                let rec = self.records_view()[agent_id];
                let c = rec.intent.constraints;
                &&& budget_violated(c, rec.metrics.tokens_consumed, rec.metrics.steps_executed) ==> r
                &&& r ==> budget_violated(c, rec.metrics.tokens_consumed, rec.metrics.steps_executed)
                    || c.deadline is Some
            },
    {
        match self.find(agent_id) {
            None => false,
            Some(i) => self.records[i].check_constraints_violated(),
        }
    }

    /// The number of agents in the process table.
    pub fn agent_count(&self) -> (r: usize)
        requires
            self.wf(),
        ensures
            r == self.records_view().len(),
    {
        proof {
            lemma_keyed_len(self.ids@, self.records@);
        }
        self.ids.len()
    }

    /// The number of ready agents, as the policy counts them.
    pub fn ready_count(&self) -> (r: usize)
        requires
            self.wf(),
        ensures
            r == self.sched().ready_set().len(),
    {
        self.scheduler.ready_count()
    }

    /// Whether some agent is ready.
    pub fn has_ready(&self) -> (r: bool)
        requires
            self.wf(),
        ensures
            r == (self.sched().ready_set().len() > 0),
    {
        self.scheduler.has_ready()
    }

    /// The scheduling policy.
    pub fn scheduler(&self) -> (r: &S)
        ensures
            *r == self.sched(),
    {
        &self.scheduler
    }

    /// The scheduling policy, for update.
    pub fn scheduler_mut(&mut self) -> (r: &mut S)
        ensures
            *r == old(self).sched(),
            final(self).sched() == *final(r),
            final(self).records_view() == old(self).records_view(),
            final(self).table_wf() == old(self).table_wf(),
            final(self).broker() == old(self).broker(),
    {
        &mut self.scheduler
    }

    /// The IPC broker.
    pub fn ipc_broker(&self) -> (r: &IpcBroker)
        ensures
            *r == self.broker(),
    {
        &self.ipc_broker
    }

    /// The IPC broker, for update.
    pub fn ipc_broker_mut(&mut self) -> (r: &mut IpcBroker)
        ensures
            *r == old(self).broker(),
            final(self).broker() == *final(r),
            final(self).records_view() == old(self).records_view(),
            final(self).table_wf() == old(self).table_wf(),
            final(self).sched() == old(self).sched(),
    {
        &mut self.ipc_broker
    }

    /// Create a point-to-point channel; always succeeds.
    pub fn create_p2p_channel(&mut self, sender: AgentId, receiver: AgentId, capacity: usize) -> (r: Result<
        ChannelId,
        IpcError,
    >)
        requires
            old(self).wf(),
        ensures
            final(self).wf(),
            r is Ok,
            installed_p2p(old(self).broker(), final(self).broker(), r->Ok_0, sender, receiver, capacity),
            final(self).records_view() == old(self).records_view(),
            final(self).sched() == old(self).sched(),
    {
        self.ipc_broker.create_p2p_channel(sender, receiver, capacity)
    }

    /// Create a broadcast channel; always succeeds.
    pub fn create_broadcast_channel(&mut self, sender: AgentId, receivers: Vec<AgentId>, capacity: usize) -> (r:
        Result<ChannelId, IpcError>)
        requires
            old(self).wf(),
        ensures
            final(self).wf(),
            r is Ok,
            installed_broadcast(old(self).broker(), final(self).broker(), r->Ok_0, sender, receivers@, capacity),
            final(self).records_view() == old(self).records_view(),
            final(self).sched() == old(self).sched(),
    {
        self.ipc_broker.create_broadcast_channel(sender, receivers, capacity)
    }

    /// Send a message through a channel. When it is delivered and its
    /// receiver is blocked, the receiver is woken: the policy hears that it
    /// is ready (its record is not changed).
    pub fn send_ipc(&mut self, channel_id: ChannelId, msg: Message) -> (r: Result<(), IpcError>)
        requires
            old(self).wf(),
        ensures
            final(self).wf(),
            routed_send(old(self).broker(), final(self).broker(), channel_id, msg, r),
            final(self).records_view() == old(self).records_view(),
            ({
                let wakes = r is Ok && old(self).records_view().contains_key(msg.receiver) && is_blocked(
                    old(self).records_view()[msg.receiver],
                );
                &&& wakes ==> final(self).sched().ready_set() == old(self).sched().ready_set().insert(
                    msg.receiver,
                )
                &&& !wakes ==> final(self).sched() == old(self).sched()
            }),
    {
        let receiver = msg.receiver;
        let result = self.ipc_broker.send(channel_id, msg);
        if result.is_ok() {
            match self.find(receiver) {
                Some(i) => {
                    let blocked = String::from_str("Blocked");
                    proof {
                        lemma_slot(self.ids@, i as int);
                    }
                    if self.records[i].state.current == blocked {
                        self.scheduler.on_ready(receiver);
                    }
                },
                None => {},
            }
        }
        result
    }

    /// Take the messages every channel holds for the agent.
    pub fn poll_ipc_messages(&mut self, agent_id: AgentId) -> (r: Vec<Message>)
        requires
            old(self).wf(),
        ensures
            final(self).wf(),
            r@ == pending_all(old(self).broker().chans(), agent_id),
            drained_all(old(self).broker(), final(self).broker(), agent_id),
            final(self).records_view() == old(self).records_view(),
            final(self).sched() == old(self).sched(),
    {
        self.ipc_broker.poll_all(agent_id)
    }

    /// The number of messages held for the agent across all channels
    /// (capped at `usize::MAX`).
    pub fn pending_ipc_count(&self, agent_id: AgentId) -> (r: usize)
        requires
            self.wf(),
        ensures
            r == capped(pending_all(self.broker().chans(), agent_id).len()),
    {
        self.ipc_broker.pending_count(agent_id)
    }
}

} // verus!
