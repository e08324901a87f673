//! Agent metrics collected for auditability.

use vstd::prelude::*;

verus! {

/// Agent metrics collected for auditability.
#[derive(Debug, Clone)]
pub struct AgentMetrics {
    pub steps_executed: u64,
    pub tokens_consumed: u64,
    pub messages_sent: u64,
    pub messages_received: u64,
    /// Creation time, in milliseconds since the Unix epoch.
    pub created_at: i64,
    /// Time of the last step, in milliseconds since the Unix epoch.
    pub last_stepped_at: Option<i64>,
}

impl AgentMetrics {
    /// Fresh metrics: all counters zero, created now, never stepped.
    pub fn new() -> (m: Self)
        ensures
            m.steps_executed == 0,
            m.tokens_consumed == 0,
            m.messages_sent == 0,
            m.messages_received == 0,
            m.last_stepped_at is None,
    {
        AgentMetrics {
            steps_executed: 0,
            tokens_consumed: 0,
            messages_sent: 0,
            messages_received: 0,
            created_at: crate::clock::now_millis(),
            last_stepped_at: None,
        }
    }
}

} // verus!
