//! Scheduling states of an agent.

use vstd::prelude::*;

verus! {

/// Reason an agent is blocked.
#[derive(Debug, PartialEq, Eq)]
pub enum BlockReason {
    /// Waiting for a message from another agent.
    WaitForMessage,
    /// Waiting for a tool call result.
    WaitForToolResult,
    /// Waiting for user input.
    WaitForUserInput,
    /// Waiting for memory retrieval.
    WaitForMemory,
    /// Waiting for an external event (timer, etc.).
    WaitForEvent,
    /// Other blocking reason.
    Other(String),
}

/// Reason for agent termination.
#[derive(Debug, PartialEq, Eq)]
pub enum TerminationReason {
    /// Agent completed its goal successfully.
    Success,
    /// Agent failed to complete its goal.
    Failure,
    /// A constraint was violated (token budget, deadline, etc.).
    ConstraintViolation,
    /// The runtime forcibly terminated the agent.
    ForcefullyTerminated,
    /// The parent intent was adopted by another agent.
    IntentAdopted,
    /// Custom termination reason provided by a supervisor.
    Custom(String),
}

/// The agent's scheduling state.
#[derive(Debug, PartialEq, Eq)]
pub enum SchedulingState {
    /// Ready to run but not currently scheduled.
    Ready,
    /// Currently executing.
    Running,
    /// Blocked waiting for something.
    Blocked { reason: BlockReason },
    /// Voluntarily suspended.
    Suspended,
    /// Terminated, at the given time (milliseconds since the Unix epoch).
    Terminated { reason: TerminationReason, at: i64 },
}

impl Clone for BlockReason {
    fn clone(&self) -> (r: Self)
        ensures
            r == *self,
    {
        match self {
            BlockReason::WaitForMessage => BlockReason::WaitForMessage,
            BlockReason::WaitForToolResult => BlockReason::WaitForToolResult,
            BlockReason::WaitForUserInput => BlockReason::WaitForUserInput,
            BlockReason::WaitForMemory => BlockReason::WaitForMemory,
            BlockReason::WaitForEvent => BlockReason::WaitForEvent,
            BlockReason::Other(s) => BlockReason::Other(s.clone()),
        }
    }
}

impl Clone for TerminationReason {
    fn clone(&self) -> (r: Self)
        ensures
            r == *self,
    {
        match self {
            TerminationReason::Success => TerminationReason::Success,
            TerminationReason::Failure => TerminationReason::Failure,
            TerminationReason::ConstraintViolation => TerminationReason::ConstraintViolation,
            TerminationReason::ForcefullyTerminated => TerminationReason::ForcefullyTerminated,
            TerminationReason::IntentAdopted => TerminationReason::IntentAdopted,
            TerminationReason::Custom(s) => TerminationReason::Custom(s.clone()),
        }
    }
}

impl Clone for SchedulingState {
    fn clone(&self) -> (r: Self)
        ensures
            r == *self,
    {
        match self {
            SchedulingState::Ready => SchedulingState::Ready,
            SchedulingState::Running => SchedulingState::Running,
            SchedulingState::Blocked { reason } => SchedulingState::Blocked { reason: reason.clone() },
            SchedulingState::Suspended => SchedulingState::Suspended,
            SchedulingState::Terminated { reason, at } => SchedulingState::Terminated {
                reason: reason.clone(),
                at: *at,
            },
        }
    }
}

/// The text form of a block reason.
pub open spec fn block_reason_text(r: BlockReason) -> Seq<char> {
    match r {
        BlockReason::WaitForMessage => "wait_for_message"@,
        BlockReason::WaitForToolResult => "wait_for_tool_result"@,
        BlockReason::WaitForUserInput => "wait_for_user_input"@,
        BlockReason::WaitForMemory => "wait_for_memory"@,
        BlockReason::WaitForEvent => "wait_for_event"@,
        BlockReason::Other(s) => s@,
    }
}

/// The text form of a termination reason.
pub open spec fn termination_reason_text(r: TerminationReason) -> Seq<char> {
    match r {
        TerminationReason::Success => "success"@,
        TerminationReason::Failure => "failure"@,
        TerminationReason::ConstraintViolation => "constraint_violation"@,
        TerminationReason::ForcefullyTerminated => "forcefully_terminated"@,
        TerminationReason::IntentAdopted => "intent_adopted"@,
        TerminationReason::Custom(s) => s@,
    }
}

impl BlockReason {
    /// The text form of the reason.
    pub fn to_string(&self) -> (s: String)
        ensures
            s@ == block_reason_text(*self),
    {
        match self {
            BlockReason::WaitForMessage => String::from_str("wait_for_message"),
            BlockReason::WaitForToolResult => String::from_str("wait_for_tool_result"),
            BlockReason::WaitForUserInput => String::from_str("wait_for_user_input"),
            BlockReason::WaitForMemory => String::from_str("wait_for_memory"),
            BlockReason::WaitForEvent => String::from_str("wait_for_event"),
            BlockReason::Other(s) => s.clone(),
        }
    }
}

impl TerminationReason {
    /// The text form of the reason.
    pub fn to_string(&self) -> (s: String)
        ensures
            s@ == termination_reason_text(*self),
    {
        match self {
            TerminationReason::Success => String::from_str("success"),
            TerminationReason::Failure => String::from_str("failure"),
            TerminationReason::ConstraintViolation => String::from_str("constraint_violation"),
            TerminationReason::ForcefullyTerminated => String::from_str("forcefully_terminated"),
            TerminationReason::IntentAdopted => String::from_str("intent_adopted"),
            TerminationReason::Custom(s) => s.clone(),
        }
    }
}

} // verus!
