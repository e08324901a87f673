//! Agent runtime: identities, intents, scheduling, inter-agent channels,
//! the agent file system, the sovereignty access rules, intent
//! negotiation and the runtime's own tools, with their contracts proved
//! by Verus.

mod clock;
pub mod error;
pub mod fs;
pub mod ids;
pub mod intent;
pub mod ipc;
pub mod json;
pub mod level_order;
pub mod lists;
pub mod metrics;
pub mod mock_agent;
pub mod negotiation;
pub mod program;
pub mod record;
pub mod scheduling;
pub mod search;
pub mod sovereignty;
pub mod state;
pub mod table;
pub mod text;
pub mod tool;

pub use error::{AgentError, MemoryError};
pub use ids::{AgentId, IntentId};
pub use intent::{GoalDescription, Intent};
pub use metrics::AgentMetrics;
pub use mock_agent::MockAgent;
pub use program::{AgentProgram, ModelDescriptor, PromptDescriptor, ToolDescriptor, ToolSet};
pub use record::{AgentRecord, SchedulingContext};
pub use state::{BlockReason, SchedulingState, TerminationReason};
pub use scheduling::{FifoScheduler, Runtime, Scheduler, SchedulingEvent};
pub use ipc::{BroadcastChannel, Channel, ChannelId, ChannelType, IpcBroker, IpcError, UnidirectionalChannel};
pub use sovereignty::{SovereigntyApi, SovereigntyError, SovereigntyLevel, TrustBehavior};
pub use sovereignty::{ResponseStyle, SimulatedLLM};
pub use tool::{ToolOutcome, ToolResult};

use vstd::prelude::*;

verus! {

/// Result of checking whether success criteria have been met.
#[derive(Debug, Clone, Copy, PartialEq, Eq, Structural)]
pub enum CriteriaMet {
    Yes,
    No,
    Maybe,
    /// Cannot determine without external validation.
    Unknown,
}

/// Token budget constraint.
#[derive(Debug, Clone, Copy, PartialEq, Eq, Structural)]
pub struct TokenBudget {
    /// Total tokens allowed.
    pub tokens: u64,
}

impl TokenBudget {
    pub fn new(tokens: u64) -> (b: Self)
        ensures
            b.tokens == tokens,
    {
        TokenBudget { tokens }
    }
}

/// Internal check criteria (time-bound, step-count bound, resource consumption).
#[derive(Debug, Clone, Copy)]
pub struct CheckCriterion {
    /// Maximum wall-clock duration allowed, in milliseconds.
    pub duration_limit: Option<u64>,
    /// Maximum steps allowed.
    pub step_limit: Option<u64>,
    /// Maximum token budget.
    pub token_limit: Option<TokenBudget>,
}

/// External validation criterion (requires a validator agent).
#[derive(Debug)]
pub struct ValidationCriterion {
    /// Identifier of the validator agent (or pattern for matching validators).
    pub validator: String,
    /// Additional context to pass to the validator.
    pub context: serde_json::Value,
}

/// Criteria for determining whether an intent's goal has been achieved.
#[derive(Debug)]
pub enum Criterion {
    /// Internal bounds that, when all hold, indicate success.
    Check(CheckCriterion),
    /// External validation from another agent or service.
    Validation(ValidationCriterion),
    /// All sub-criteria must be met.
    And(Vec<Criterion>),
    /// Any one criterion suffices.
    Or(Vec<Criterion>),
}

/// Whether every bound of a check criterion holds for the metrics.
pub open spec fn check_holds(cc: CheckCriterion, m: AgentMetrics) -> bool {
    &&& (cc.duration_limit matches Some(d) ==> d >= m.steps_executed)
    &&& (cc.step_limit matches Some(n) ==> n > m.steps_executed)
    &&& (cc.token_limit matches Some(t) ==> t.tokens > m.tokens_consumed)
}

/// Summary of the verdicts of a list of criteria:
/// (all are `Yes`, some is `Yes`, all are `No`, some is `No`).
pub open spec fn verdict_summary(s: Seq<Criterion>, m: AgentMetrics) -> (bool, bool, bool, bool)
    decreases s,
{
    if s.len() == 0 {
        (true, false, true, false)
    } else {
        let p = verdict_summary(s.drop_last(), m);
        let v = criterion_verdict(s.last(), m);
        (
            p.0 && v == CriteriaMet::Yes,
            p.1 || v == CriteriaMet::Yes,
            p.2 && v == CriteriaMet::No,
            p.3 || v == CriteriaMet::No,
        )
    }
}

/// The verdict of a criterion on the given metrics.
pub open spec fn criterion_verdict(c: Criterion, m: AgentMetrics) -> CriteriaMet
    decreases c,
{
    match c {
        Criterion::Check(cc) => if check_holds(cc, m) {
            CriteriaMet::Yes
        } else {
            CriteriaMet::Maybe
        },
        Criterion::Validation(_) => CriteriaMet::Unknown,
        Criterion::And(v) => {
            let p = verdict_summary(v@, m);
            if p.0 {
                CriteriaMet::Yes
            } else if p.3 {
                CriteriaMet::No
            } else {
                CriteriaMet::Maybe
            }
        },
        Criterion::Or(v) => {
            let p = verdict_summary(v@, m);
            if p.1 {
                CriteriaMet::Yes
            } else if p.2 {
                CriteriaMet::No
            } else {
                CriteriaMet::Maybe
            }
        },
    }
}

/// Summarises the verdicts of `criteria` as `verdict_summary` does.
fn summarize(criteria: &Vec<Criterion>, metrics: &AgentMetrics, Ghost(whole): Ghost<Criterion>) -> (r: (
    bool,
    bool,
    bool,
    bool,
))
    requires
        decreases_to!(whole => *criteria),
    ensures
        r == verdict_summary(criteria@, *metrics),
    decreases whole, 0nat,
{
    let mut r = (true, false, true, false);
    let mut i: usize = 0;
    while i < criteria.len()
        invariant
            i <= criteria@.len(),
            decreases_to!(whole => *criteria),
            r == verdict_summary(criteria@.take(i as int), *metrics),
        decreases criteria@.len() - i,
    {
        proof {
            assert(decreases_to!(*criteria => criteria@));
            assert(decreases_to!(criteria@ => criteria@[i as int]));
            assert(criteria@.take(i + 1).drop_last() =~= criteria@.take(i as int));
        }
        let v = criteria[i].is_met(metrics);
        r = (
            r.0 && v == CriteriaMet::Yes,
            r.1 || v == CriteriaMet::Yes,
            r.2 && v == CriteriaMet::No,
            r.3 || v == CriteriaMet::No,
        );
        i = i + 1;
    }
    proof {
        assert(criteria@.take(criteria@.len() as int) =~= criteria@);
    }
    r
}

impl Criterion {
    /// Evaluate the criterion against current metrics.
    pub fn is_met(&self, metrics: &AgentMetrics) -> (r: CriteriaMet)
        ensures
            r == criterion_verdict(*self, *metrics),
        decreases *self, 1nat,
    {
        match self {
            Criterion::Check(cc) => {
                let d_ok = match cc.duration_limit {
                    Some(d) => d >= metrics.steps_executed,
                    None => true,
                };
                let s_ok = match cc.step_limit {
                    Some(n) => n > metrics.steps_executed,
                    None => true,
                };
                let t_ok = match &cc.token_limit {
                    Some(t) => t.tokens > metrics.tokens_consumed,
                    None => true,
                };
                if d_ok && s_ok && t_ok {
                    CriteriaMet::Yes
                } else {
                    CriteriaMet::Maybe
                }
            },
            Criterion::Validation(_) => CriteriaMet::Unknown,
            Criterion::And(criteria) => {
                let p = summarize(criteria, metrics, Ghost(*self));
                if p.0 {
                    CriteriaMet::Yes
                } else if p.3 {
                    CriteriaMet::No
                } else {
                    CriteriaMet::Maybe
                }
            },
            Criterion::Or(criteria) => {
                let p = summarize(criteria, metrics, Ghost(*self));
                if p.1 {
                    CriteriaMet::Yes
                } else if p.2 {
                    CriteriaMet::No
                } else {
                    CriteriaMet::Maybe
                }
            },
        }
    }
}

impl Clone for ValidationCriterion {
    fn clone(&self) -> (r: Self)
        ensures
            r == *self,
    {
        ValidationCriterion { validator: self.validator.clone(), context: self.context.clone() }
    }
}

/// Lists whose elements have pairwise equal verdicts have equal summaries.
proof fn lemma_same_summary(a: Seq<Criterion>, b: Seq<Criterion>, m: AgentMetrics)
    requires
        a.len() == b.len(),
        forall|i: int, mm: AgentMetrics|
            0 <= i < b.len() ==> #[trigger] criterion_verdict(a[i], mm) == criterion_verdict(b[i], mm),
    ensures
        verdict_summary(a, m) == verdict_summary(b, m),
    decreases a.len(),
{
    if a.len() > 0 {
        assert(criterion_verdict(a[a.len() - 1], m) == criterion_verdict(b[b.len() - 1], m));
        lemma_same_summary(a.drop_last(), b.drop_last(), m);
    }
}

impl Clone for Criterion {
    /// A deep copy, with the same verdict as the original on all metrics.
    fn clone(&self) -> (r: Self)
        ensures
            forall|m: AgentMetrics| #[trigger] criterion_verdict(r, m) == criterion_verdict(*self, m),
        decreases *self, 1nat,
    {
        match self {
            Criterion::Check(cc) => {
                let r = Criterion::Check(*cc);
                assert(r == *self);
                r
            },
            Criterion::Validation(v) => {
                let r = Criterion::Validation(v.clone());
                assert(r == *self);
                r
            },
            Criterion::And(v) => {
                let out = clone_criteria(v, Ghost(*self));
                proof {
                    assert forall|m: AgentMetrics| #[trigger] criterion_verdict(Criterion::And(out), m)
                        == criterion_verdict(*self, m) by {
                        lemma_same_summary(out@, v@, m);
                    }
                }
                Criterion::And(out)
            },
            Criterion::Or(v) => {
                let out = clone_criteria(v, Ghost(*self));
                proof {
                    assert forall|m: AgentMetrics| #[trigger] criterion_verdict(Criterion::Or(out), m)
                        == criterion_verdict(*self, m) by {
                        lemma_same_summary(out@, v@, m);
                    }
                }
                Criterion::Or(out)
            },
        }
    }
}

fn clone_criteria(v: &Vec<Criterion>, Ghost(whole): Ghost<Criterion>) -> (r: Vec<Criterion>)
    requires
        decreases_to!(whole => *v),
    ensures
        r@.len() == v@.len(),
        forall|i: int, m: AgentMetrics|
            0 <= i < v@.len() ==> #[trigger] criterion_verdict(r@[i], m) == criterion_verdict(v@[i], m),
    decreases whole, 0nat,
{
    let mut out: Vec<Criterion> = Vec::new();
    let mut i: usize = 0;
    while i < v.len()
        invariant
            i <= v@.len(),
            decreases_to!(whole => *v),
            out@.len() == i,
            forall|j: int, m: AgentMetrics|
                0 <= j < i ==> #[trigger] criterion_verdict(out@[j], m) == criterion_verdict(v@[j], m),
        decreases v@.len() - i,
    {
        proof {
            assert(decreases_to!(*v => v@));
            assert(decreases_to!(v@ => v@[i as int]));
        }
        out.push(v[i].clone());
        i = i + 1;
    }
    out
}

/// Hard constraints within which an agent must operate.
#[derive(Debug)]
pub struct Constraints {
    /// Maximum tokens this intent may consume across all agents working on it.
    pub token_budget: Option<TokenBudget>,
    /// Wall-clock deadline, in milliseconds since the Unix epoch.
    pub deadline: Option<i64>,
    /// Maximum number of steps.
    pub step_budget: Option<u64>,
    /// Capability bounds (what this intent is allowed to touch).
    pub capability_bounds: Vec<String>,
}

impl Constraints {
    /// No budget, no deadline, no step limit, no capability bounds.
    pub fn default() -> (c: Self)
        ensures
            c.token_budget is None,
            c.deadline is None,
            c.step_budget is None,
            c.capability_bounds@.len() == 0,
    {
        Constraints { token_budget: None, deadline: None, step_budget: None, capability_bounds: Vec::new() }
    }

    /// Whether the given counters, at time `now`, violate the constraints.
    pub fn violated_by(&self, tokens: u64, steps: u64, now: i64) -> (r: bool)
        ensures
            r == crate::intent::constraints_violated(*self, tokens, steps, now),
    {
        if let Some(budget) = &self.token_budget {
            if tokens >= budget.tokens {
                return true;
            }
        }
        if let Some(limit) = self.step_budget {
            if steps >= limit {
                return true;
            }
        }
        if let Some(deadline) = self.deadline {
            if now > deadline {
                return true;
            }
        }
        false
    }
}

/// Copies a list of strings.
pub fn clone_strings(v: &Vec<String>) -> (r: Vec<String>)
    ensures
        r@ == v@,
{
    let r = v.clone();
    proof {
        assert forall|i: int| 0 <= i < v@.len() implies r@[i] == v@[i] by {
            assert(cloned::<String>(v@[i], r@[i]));
        }
        assert(r@ =~= v@);
    }
    r
}

impl Clone for Constraints {
    fn clone(&self) -> (r: Self)
        ensures
            r.token_budget == self.token_budget,
            r.deadline == self.deadline,
            r.step_budget == self.step_budget,
            r.capability_bounds@ == self.capability_bounds@,
    {
        Constraints {
            token_budget: self.token_budget,
            deadline: self.deadline,
            step_budget: self.step_budget,
            capability_bounds: clone_strings(&self.capability_bounds),
        }
    }
}

/// Metadata for tracking intent provenance.
#[derive(Debug)]
pub struct Metadata {
    /// Creation time, in milliseconds since the Unix epoch.
    pub created_at: i64,
    pub creator_agent: Option<AgentId>,
    pub version: u64,
    pub labels: Vec<String>,
}

impl Clone for Metadata {
    fn clone(&self) -> (r: Self)
        ensures
            r.created_at == self.created_at,
            r.creator_agent == self.creator_agent,
            r.version == self.version,
            r.labels@ == self.labels@,
    {
        Metadata {
            created_at: self.created_at,
            creator_agent: self.creator_agent,
            version: self.version,
            labels: clone_strings(&self.labels),
        }
    }
}

/// Capability granted by the runtime.
#[derive(Debug, Clone)]
pub struct Capability {
    /// Resource type (memory, tool, channel, etc.).
    pub resource_type: String,
    /// Resource identifier.
    pub resource_id: String,
    /// Access level (read, write, execute, etc.).
    pub access_level: String,
}

/// Token counting helper for enforcing budgets.
#[derive(Debug, Clone)]
pub struct TokenCounter(pub u64);

impl TokenCounter {
    pub fn new(initial: u64) -> (c: Self)
        ensures
            c.0 == initial,
    {
        TokenCounter(initial)
    }

    pub fn consumed(&self) -> (r: u64)
        ensures
            r == self.0,
    {
        self.0
    }

    /// Adds `amount` to the consumed count (the sum must fit in a `u64`).
    pub fn add(&mut self, amount: u64)
        requires
            old(self).0 + amount <= u64::MAX,
        ensures
            final(self).0 == old(self).0 + amount,
    {
        self.0 = self.0 + amount;
    }

    /// Tokens left under the budget (unlimited when there is none), never below zero.
    pub fn remaining(&self, budget: Option<&TokenBudget>) -> (r: u64)
        ensures
            r == (match budget {
                Some(b) => if b.tokens >= self.0 { (b.tokens - self.0) as u64 } else { 0u64 },
                None => (u64::MAX - self.0) as u64,
            }),
    {
        let limit = match budget {
            Some(b) => b.tokens,
            None => u64::MAX,
        };
        limit.saturating_sub(self.0)
    }
}

/// Hint to the agent about scheduling context.
#[derive(Debug, Clone, Copy, PartialEq, Eq, Structural)]
pub enum SchedulingHint {
    /// Continue normally.
    Normal,
    /// Agent is behind schedule; consider accelerating.
    Urgent,
    /// Agent has low priority currently.
    LowPriority,
}

/// Reason for interruption.
#[derive(Debug, Clone, Copy, PartialEq, Eq, Structural)]
pub enum InterruptReason {
    /// Step exceeded allocated tokens.
    TokenLimitExceeded,
    /// Step exceeded time limit.
    TimeLimitExceeded,
    /// Step exceeded step count for the intent.
    StepLimitExceeded,
    /// Agent was forcibly terminated by runtime.
    ForcefullyTerminated,
}

/// Status of a step execution.
#[derive(Debug, Clone)]
pub enum StepStatus {
    /// Step completed successfully.
    Success,
    /// Step failed due to an error (tool call failed, etc.).
    Failed { reason: String },
    /// Step was interrupted (timeout, budget exceeded).
    Interrupted { reason: InterruptReason },
}

/// Step metrics captured during execution.
#[derive(Debug, Clone, Copy)]
pub struct StepMetrics {
    pub tokens_used: u64,
    pub wall_time_ms: u64,
}

/// What a step produced.
#[derive(Debug)]
pub enum StepOutput {
    /// Plain text output from the agent.
    Text(String),
    /// Request to invoke a tool.
    ToolCall(ToolCallRequest),
    /// Request to communicate with another agent.
    Communication(Message),
    /// State transition request.
    StateChange(SchedulingState),
    /// Memory operation request.
    MemoryOperation(MemoryOp),
    /// Request to send a message through an IPC channel.
    SendIpc { channel_id: ChannelId, message: Message },
    /// Request to create an IPC channel.
    CreateChannel { channel_type: ChannelType, receivers: Vec<AgentId>, capacity: usize },
}

/// The result of one step of an agent.
#[derive(Debug)]
pub struct StepResult {
    /// Success, failure or interruption.
    pub status: StepStatus,
    /// What the step produced.
    pub output: StepOutput,
    /// Whether the agent yields voluntarily.
    pub wants_yield: bool,
    /// Resources the step used.
    pub metrics: StepMetrics,
}

/// Memory tier.
#[derive(Debug, Clone, Copy, PartialEq, Eq, Structural)]
pub enum MemoryTier {
    Working,
    Episodic,
    Semantic,
}

/// Memory operation type.
#[derive(Debug, Clone, Copy, PartialEq, Eq, Structural)]
pub enum MemoryOperation {
    Read,
    Write,
    Update,
    Delete,
}

/// Request to invoke a tool.
#[derive(Debug)]
pub struct ToolCallRequest {
    /// Stable identifier for this call, used to match the eventual result.
    pub call_id: String,
    /// Name of the tool to invoke.
    pub tool_name: String,
    /// Arguments to pass to the tool, encoded as JSON.
    pub args: serde_json::Value,
}

/// Memory operation request.
#[derive(Debug)]
pub struct MemoryOp {
    pub tier: MemoryTier,
    pub operation: MemoryOperation,
    pub data: serde_json::Value,
}

/// Delivery metadata of a message.
#[derive(Debug, Clone, Copy)]
pub struct MessageMetadata {
    /// Sending time, in milliseconds since the Unix epoch.
    pub sent_at: i64,
    pub priority: u8,
    pub requires_ack: bool,
}

/// Message between agents.
#[derive(Debug)]
pub struct Message {
    pub sender: AgentId,
    pub receiver: AgentId,
    pub message_type: String,
    pub payload: serde_json::Value,
    pub metadata: MessageMetadata,
}

impl Clone for Message {
    fn clone(&self) -> (r: Self)
        ensures
            r == *self,
    {
        Message {
            sender: self.sender,
            receiver: self.receiver,
            message_type: self.message_type.clone(),
            payload: self.payload.clone(),
            metadata: self.metadata,
        }
    }
}

/// Error types for delivery failures.
#[derive(Debug, Clone)]
pub enum DeliveryError {
    ReceiverNotFound,
    MessageTooLarge,
    PermissionDenied(String),
    Other(String),
}

} // verus!
