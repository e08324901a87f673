//! AgentRecord — the process-table entry the runtime holds for an agent.

use vstd::prelude::*;
use crate::{AgentId, AgentProgram, Intent, SchedulingState};
use crate::intent::{budget_violated, constraints_violated};
use crate::state::{block_reason_text, TerminationReason};

verus! {

/// What `format!("{:?}", s)` writes for a text: the text quoted, with
/// its special characters escaped.
pub uninterp spec fn debug_quoted(s: Seq<char>) -> Seq<char>;

/// Calls `format!("{:?}", s)`: std's debug form of a `str`, the text in
/// double quotes with quotes, backslashes and unprintable characters
/// escaped. The result is named `debug_quoted`; its escaping rules are
/// not spelled out.
#[verifier::external_body]
fn debug_text(s: &str) -> (r: String)
    ensures
        r@ == debug_quoted(s@),
{
    format!("{:?}", s)
}

/// The description a terminated state's snapshot carries: the reason in
/// its debug form.
pub open spec fn terminated_text(r: TerminationReason) -> Seq<char> {
    "Terminated: "@ + match r {
        TerminationReason::Success => "Success"@,
        TerminationReason::Failure => "Failure"@,
        TerminationReason::ConstraintViolation => "ConstraintViolation"@,
        TerminationReason::ForcefullyTerminated => "ForcefullyTerminated"@,
        TerminationReason::IntentAdopted => "IntentAdopted"@,
        TerminationReason::Custom(m) => "Custom("@ + debug_quoted(m@) + ")"@,
    }
}

fn terminated_description(reason: &TerminationReason) -> (s: String)
    ensures
        s@ == terminated_text(*reason),
{
    let mut s = String::from_str("Terminated: ");
    match reason {
        TerminationReason::Success => s.append("Success"),
        TerminationReason::Failure => s.append("Failure"),
        TerminationReason::ConstraintViolation => s.append("ConstraintViolation"),
        TerminationReason::ForcefullyTerminated => s.append("ForcefullyTerminated"),
        TerminationReason::IntentAdopted => s.append("IntentAdopted"),
        TerminationReason::Custom(m) => {
            s.append("Custom(");
            let q = debug_text(m.as_str());
            s.append(q.as_str());
            s.append(")");
        },
    }
    s
}

/// Snapshot of a scheduling state at a point in time.
#[derive(Debug)]
pub struct StateSnapshot {
    /// "Ready", "Running", "Blocked", "Suspended" or "Terminated".
    pub current: String,
    /// Time of the transition, in milliseconds since the Unix epoch.
    pub updated_at: i64,
    pub block_reason: Option<String>,
}

/// The name of a scheduling state.
pub open spec fn state_name(s: SchedulingState) -> Seq<char> {
    match s {
        SchedulingState::Ready => "Ready"@,
        SchedulingState::Running => "Running"@,
        SchedulingState::Blocked { .. } => "Blocked"@,
        SchedulingState::Suspended => "Suspended"@,
        SchedulingState::Terminated { .. } => "Terminated"@,
    }
}

/// The reason text a snapshot of the state carries.
pub open spec fn state_reason(s: SchedulingState) -> Option<Seq<char>> {
    match s {
        SchedulingState::Blocked { reason } => Some(block_reason_text(reason)),
        SchedulingState::Terminated { reason, .. } => Some(terminated_text(reason)),
        _ => None,
    }
}

/// Whether a snapshot records the given state (its name and reason).
pub open spec fn snapshot_of(snap: StateSnapshot, s: SchedulingState) -> bool {
    &&& snap.current@ == state_name(s)
    &&& match (snap.block_reason, state_reason(s)) {
        (Some(a), Some(b)) => a@ == b,
        (None, None) => true,
        _ => false,
    }
    &&& (s matches SchedulingState::Terminated { at, .. } ==> snap.updated_at == at)
}

impl StateSnapshot {
    /// Snapshot of a state, taken now (or at the termination time for a
    /// terminated state).
    pub fn from(state: SchedulingState) -> (snap: Self)
        ensures
            snapshot_of(snap, state),
    {
        match state {
            SchedulingState::Ready => StateSnapshot {
                current: String::from_str("Ready"),
                updated_at: crate::clock::now_millis(),
                block_reason: None,
            },
            SchedulingState::Running => StateSnapshot {
                current: String::from_str("Running"),
                updated_at: crate::clock::now_millis(),
                block_reason: None,
            },
            SchedulingState::Blocked { reason } => StateSnapshot {
                current: String::from_str("Blocked"),
                updated_at: crate::clock::now_millis(),
                block_reason: Some(reason.to_string()),
            },
            SchedulingState::Suspended => StateSnapshot {
                current: String::from_str("Suspended"),
                updated_at: crate::clock::now_millis(),
                block_reason: None,
            },
            SchedulingState::Terminated { reason, at } => StateSnapshot {
                current: String::from_str("Terminated"),
                updated_at: at,
                block_reason: Some(terminated_description(&reason)),
            },
        }
    }
}

/// Scheduling metadata that policies may read; the runtime core does not
/// interpret it.
#[derive(Debug, Clone, Copy)]
pub struct SchedulingContext {
    /// Higher number = higher priority.
    pub priority: i32,
    /// Accumulated execution quantum.
    pub quantum_used: u64,
    /// Time of the last step, in milliseconds since the Unix epoch.
    pub last_run: Option<i64>,
    /// Deadline for the agent's current intent, in milliseconds since the
    /// Unix epoch; `None` means no deadline.
    pub deadline: Option<i64>,
}

impl SchedulingContext {
    /// Priority 0, no quantum used, never run, no deadline.
    pub fn new() -> (c: Self)
        ensures
            c.priority == 0,
            c.quantum_used == 0,
            c.last_run is None,
            c.deadline is None,
    {
        SchedulingContext { priority: 0, quantum_used: 0, last_run: None, deadline: None }
    }

    /// Set the priority (higher = more important).
    pub fn with_priority(self, priority: i32) -> (c: Self)
        ensures
            c == (SchedulingContext { priority, ..self }),
    {
        SchedulingContext { priority, ..self }
    }

    /// Set the deadline.
    pub fn with_deadline(self, deadline: i64) -> (c: Self)
        ensures
            c == (SchedulingContext { deadline: Some(deadline), ..self }),
    {
        SchedulingContext { deadline: Some(deadline), ..self }
    }

    /// Milliseconds from `now` until the deadline (negative once past;
    /// clamped to the `i64` range), or `None` without a deadline.
    pub fn time_until_deadline_at(&self, now: i64) -> (r: Option<i64>)
        ensures
            r == deadline_gap(self.deadline, now),
    {
        match self.deadline {
            Some(d) => {
                let diff: i128 = d as i128 - now as i128;
                if diff > i64::MAX as i128 {
                    Some(i64::MAX)
                } else if diff < i64::MIN as i128 {
                    Some(i64::MIN)
                } else {
                    Some(diff as i64)
                }
            },
            None => None,
        }
    }

    /// Milliseconds until the deadline, measured against the clock, or
    /// `None` without a deadline.
    pub fn time_until_deadline(&self) -> (r: Option<i64>)
        ensures
            r is Some <==> self.deadline is Some,
    {
        let now = crate::clock::now_millis();
        self.time_until_deadline_at(now)
    }

    /// Whether the deadline has passed at time `now`.
    pub fn is_overdue_at(&self, now: i64) -> (r: bool)
        ensures
            r == overdue(self.deadline, now),
    {
        match self.deadline {
            Some(d) => now > d,
            None => false,
        }
    }

    /// Whether the deadline has passed, against the clock; never without a
    /// deadline.
    pub fn is_overdue(&self) -> (r: bool)
        ensures
            self.deadline is None ==> !r,
            exists|now: i64| r == #[trigger] overdue(self.deadline, now),
    {
        let now = crate::clock::now_millis();
        self.is_overdue_at(now)
    }
}

/// Milliseconds from `now` until `deadline` (negative once past), clamped
/// to the `i64` range; `None` without a deadline.
pub open spec fn deadline_gap(deadline: Option<i64>, now: i64) -> Option<i64> {
    match deadline {
        None => None,
        Some(d) => Some(
            if d - now > i64::MAX {
                i64::MAX
            } else if d - now < i64::MIN {
                i64::MIN
            } else {
                (d - now) as i64
            },
        ),
    }
}

/// Whether `deadline` has passed at `now`.
pub open spec fn overdue(deadline: Option<i64>, now: i64) -> bool {
    deadline matches Some(d) && now > d
}

/// A context is overdue exactly when the time left until its deadline is
/// negative.
pub proof fn lemma_overdue_iff_gap_negative(deadline: Option<i64>, now: i64)
    ensures
        overdue(deadline, now) <==> (deadline_gap(deadline, now) matches Some(x) && x < 0),
{
}

impl Default for SchedulingContext {
    fn default() -> (c: Self)
        ensures
            c.priority == 0,
            c.quantum_used == 0,
            c.last_run is None,
            c.deadline is None,
    {
        SchedulingContext::new()
    }
}

/// Snapshot of an agent's counters, for auditability.
#[derive(Debug, Clone, Copy)]
pub struct MetricsSnapshot {
    pub agent_id: AgentId,
    pub steps_executed: u64,
    pub tokens_consumed: u64,
    pub messages_sent: u64,
    pub messages_received: u64,
    /// Creation time, in milliseconds since the Unix epoch.
    pub created_at: i64,
    /// Time of the last step, in milliseconds since the Unix epoch.
    pub last_stepped_at: Option<i64>,
}

impl MetricsSnapshot {
    /// Zero counters for the agent, created now, never stepped.
    pub fn new(agent_id: AgentId) -> (m: Self)
        ensures
            m.agent_id == agent_id,
            m.steps_executed == 0,
            m.tokens_consumed == 0,
            m.messages_sent == 0,
            m.messages_received == 0,
            m.last_stepped_at is None,
    {
        MetricsSnapshot {
            agent_id,
            steps_executed: 0,
            tokens_consumed: 0,
            messages_sent: 0,
            messages_received: 0,
            created_at: crate::clock::now_millis(),
            last_stepped_at: None,
        }
    }
}

/// The complete picture of an agent held by the runtime.
#[derive(Debug)]
pub struct AgentRecord {
    /// Identity.
    pub id: AgentId,
    /// Scheduling state (managed by the runtime).
    pub state: StateSnapshot,
    /// The agent's intent (read-only from the runtime's perspective).
    pub intent: Intent,
    /// The three-layer program.
    pub program: AgentProgram,
    /// Memory handles (capabilities).
    pub memory_handles: Vec<String>,
    /// Channel endpoints.
    pub channel_endpoints: Vec<String>,
    /// Current capabilities.
    pub capabilities: Vec<String>,
    /// Scheduling context (opaque to the runtime core).
    pub scheduling_context: SchedulingContext,
    /// Metrics for auditability.
    pub metrics: MetricsSnapshot,
}

/// A record as `AgentRecord::new` makes it: state `Ready`, no handles,
/// endpoints or capabilities, the default scheduling context, zero
/// counters, never stepped.
pub open spec fn fresh_record(r: AgentRecord, id: AgentId, intent: Intent, program: AgentProgram) -> bool {
    &&& r.id == id
    &&& r.intent == intent
    &&& r.program == program
    &&& snapshot_of(r.state, SchedulingState::Ready)
    &&& r.memory_handles@.len() == 0
    &&& r.channel_endpoints@.len() == 0
    &&& r.capabilities@.len() == 0
    &&& r.scheduling_context == SchedulingContext::new_spec()
    &&& r.metrics.agent_id == id
    &&& r.metrics.steps_executed == 0
    &&& r.metrics.tokens_consumed == 0
    &&& r.metrics.messages_sent == 0
    &&& r.metrics.messages_received == 0
    &&& r.metrics.last_stepped_at is None
}

/// `r` with its state replaced.
pub open spec fn with_state(r: AgentRecord, state: StateSnapshot) -> AgentRecord {
    AgentRecord { state, ..r }
}

/// `r` after one more step, taken at time `at`.
pub open spec fn after_step(r: AgentRecord, at: i64) -> AgentRecord {
    AgentRecord {
        metrics: MetricsSnapshot {
            steps_executed: (r.metrics.steps_executed + 1) as u64,
            last_stepped_at: Some(at),
            ..r.metrics
        },
        ..r
    }
}

/// `r` with `amount` more tokens consumed.
pub open spec fn after_tokens(r: AgentRecord, amount: u64) -> AgentRecord {
    AgentRecord {
        metrics: MetricsSnapshot { tokens_consumed: (r.metrics.tokens_consumed + amount) as u64, ..r.metrics },
        ..r
    }
}

/// Tokens accumulate: recording `a` tokens and then `b` more leaves the
/// record's count raised by `a` and then by `a + b` in all, with nothing
/// else about the record changed.
pub proof fn lemma_tokens_accumulate(r: AgentRecord, a: u64, b: u64)
    requires
        r.metrics.tokens_consumed + a + b <= u64::MAX,
    ensures
        after_tokens(r, a).metrics.tokens_consumed == r.metrics.tokens_consumed + a,
        after_tokens(after_tokens(r, a), b).metrics.tokens_consumed == r.metrics.tokens_consumed + a + b,
        after_tokens(r, a).metrics.steps_executed == r.metrics.steps_executed,
        after_tokens(r, a).id == r.id,
        after_tokens(r, a).intent == r.intent,
        after_tokens(r, a).scheduling_context == r.scheduling_context,
        after_tokens(r, 0) == r,
{
    assert(after_tokens(r, 0).metrics =~= r.metrics);
}

impl AgentRecord {
    /// A fresh record: state `Ready`, no handles, endpoints or
    /// capabilities, default scheduling context, zero metrics.
    pub fn new(id: AgentId, intent: Intent, program: AgentProgram) -> (r: Self)
        ensures
            fresh_record(r, id, intent, program),
    {
        AgentRecord {
            id,
            state: StateSnapshot::from(SchedulingState::Ready),
            intent,
            program,
            memory_handles: Vec::new(),
            channel_endpoints: Vec::new(),
            capabilities: Vec::new(),
            scheduling_context: SchedulingContext::new(),
            metrics: MetricsSnapshot::new(id),
        }
    }

    /// Record a state transition.
    pub fn update_state(&mut self, new_state: StateSnapshot)
        ensures
            *final(self) == with_state(*old(self), new_state),
    {
        self.state = new_state;
    }

    /// Record a step completion: one more step, stepped now.
    pub fn record_step(&mut self)
        requires
            old(self).metrics.steps_executed < u64::MAX,
        ensures
            final(self).metrics.last_stepped_at is Some,
            *final(self) == after_step(*old(self), final(self).metrics.last_stepped_at->Some_0),
    {
        self.metrics.steps_executed = self.metrics.steps_executed + 1;
        self.metrics.last_stepped_at = Some(crate::clock::now_millis());
    }

    /// Record tokens consumed in a step.
    pub fn record_tokens(&mut self, amount: u64)
        requires
            old(self).metrics.tokens_consumed + amount <= u64::MAX,
        ensures
            *final(self) == after_tokens(*old(self), amount),
    {
        self.metrics.tokens_consumed = self.metrics.tokens_consumed + amount;
    }

    /// Whether the intent's constraints are violated at time `now`.
    pub fn check_constraints_violated_at(&self, now: i64) -> (r: bool)
        ensures
            r == constraints_violated(
                self.intent.constraints,
                self.metrics.tokens_consumed,
                self.metrics.steps_executed,
                now,
            ),
    {
        self.intent.constraints.violated_by(self.metrics.tokens_consumed, self.metrics.steps_executed, now)
    }

    /// Whether the intent's constraints are violated now: always when a
    /// budget is exhausted, otherwise only through a passed deadline.
    pub fn check_constraints_violated(&self) -> (r: bool)
        ensures
            budget_violated(self.intent.constraints, self.metrics.tokens_consumed, self.metrics.steps_executed)
                ==> r,
            r ==> budget_violated(
                self.intent.constraints,
                self.metrics.tokens_consumed,
                self.metrics.steps_executed,
            ) || self.intent.constraints.deadline is Some,
    {
        let now = crate::clock::now_millis();
        self.check_constraints_violated_at(now)
    }
}

impl SchedulingContext {
    /// The value `new` returns.
    pub open spec fn new_spec() -> SchedulingContext {
        SchedulingContext { priority: 0, quantum_used: 0, last_run: None, deadline: None }
    }
}

} // verus!
