//! Errors of agent and memory operations.

use vstd::prelude::*;

verus! {

/// Errors related to agent operations.
#[derive(Debug, Clone, PartialEq, Eq)]
pub enum AgentError {
    NotFound(String),
    InvalidState(String),
    StepFailed(String),
    AlreadyTerminated(String),
}

/// The message of an agent error.
pub open spec fn agent_error_text(e: AgentError) -> Seq<char> {
    match e {
        AgentError::NotFound(m) => "agent not found: "@ + m@,
        AgentError::InvalidState(m) => "invalid agent state: "@ + m@,
        AgentError::StepFailed(m) => "step execution failed: "@ + m@,
        AgentError::AlreadyTerminated(m) => "agent already terminated: "@ + m@,
    }
}

impl AgentError {
    /// The error's message.
    pub fn to_string(&self) -> (s: String)
        ensures
            s@ == agent_error_text(*self),
    {
        let (mut s, m) = match self {
            AgentError::NotFound(m) => (String::from_str("agent not found: "), m),
            AgentError::InvalidState(m) => (String::from_str("invalid agent state: "), m),
            AgentError::StepFailed(m) => (String::from_str("step execution failed: "), m),
            AgentError::AlreadyTerminated(m) => (String::from_str("agent already terminated: "), m),
        };
        s.append(m.as_str());
        s
    }
}

/// Errors related to memory operations.
#[derive(Debug, Clone, PartialEq, Eq)]
pub enum MemoryError {
    TierNotFound(String),
    AccessDenied(String),
    MemoryFull,
    Other(String),
}

/// The message of a memory error.
pub open spec fn memory_error_text(e: MemoryError) -> Seq<char> {
    match e {
        MemoryError::TierNotFound(m) => "memory tier not found: "@ + m@,
        MemoryError::AccessDenied(m) => "access denied to tier: "@ + m@,
        MemoryError::MemoryFull => "memory full"@,
        MemoryError::Other(m) => "other: "@ + m@,
    }
}

impl MemoryError {
    /// The error's message.
    pub fn to_string(&self) -> (s: String)
        ensures
            s@ == memory_error_text(*self),
    {
        match self {
            MemoryError::TierNotFound(m) => {
                let mut s = String::from_str("memory tier not found: ");
                s.append(m.as_str());
                s
            },
            MemoryError::AccessDenied(m) => {
                let mut s = String::from_str("access denied to tier: ");
                s.append(m.as_str());
                s
            },
            MemoryError::MemoryFull => String::from_str("memory full"),
            MemoryError::Other(m) => {
                let mut s = String::from_str("other: ");
                s.append(m.as_str());
                s
            },
        }
    }
}

} // verus!
