use runtime::record::{SchedulingContext, StateSnapshot};
use runtime::{
    AgentId, BlockReason, FifoScheduler, Intent, IntentId, Message, MessageMetadata, Runtime, Scheduler,
    SchedulingEvent, SchedulingState, TerminationReason,
};

fn sched_agent(n: u64) -> AgentId {
    let bytes = n.to_le_bytes();
    let mut uuid_bytes = [0u8; 16];
    uuid_bytes[..8].copy_from_slice(&bytes);
    AgentId::from_bytes(uuid_bytes)
}

fn mock_intent(id: AgentId) -> Intent {
    Intent::new_root(IntentId::new(), "Mock task", Some(id))
}

fn spawn_mock(runtime: &mut Runtime<FifoScheduler>) -> AgentId {
    let id = AgentId::new();
    runtime.spawn(id, mock_intent(id))
}

fn now_ms() -> i64 {
    chrono::Utc::now().timestamp_millis()
}

// ---- FIFO policy through the policy interface ----

#[test]
fn test_fifo_scheduler_empty() {
    let mut scheduler = FifoScheduler::new();
    assert_eq!(scheduler.ready_count(), 0);
    assert!(!scheduler.has_ready());
    assert!(scheduler.next_to_run().is_none());
}

#[test]
fn test_fifo_scheduler_single_agent() {
    let mut scheduler = FifoScheduler::new();
    let agent = sched_agent(1);

    scheduler.on_ready(agent);
    assert_eq!(scheduler.ready_count(), 1);
    assert!(scheduler.has_ready());

    let next = scheduler.next_to_run();
    assert_eq!(next, Some(agent));
    assert_eq!(scheduler.ready_count(), 0);
}

#[test]
fn test_fifo_scheduler_fifo_order() {
    let mut scheduler = FifoScheduler::new();
    let agent1 = sched_agent(1);
    let agent2 = sched_agent(2);
    let agent3 = sched_agent(3);

    scheduler.on_ready(agent1);
    scheduler.on_ready(agent2);
    scheduler.on_ready(agent3);

    assert_eq!(scheduler.ready_count(), 3);

    assert_eq!(scheduler.next_to_run(), Some(agent1));
    assert_eq!(scheduler.next_to_run(), Some(agent2));
    assert_eq!(scheduler.next_to_run(), Some(agent3));
    assert_eq!(scheduler.next_to_run(), None);
}

#[test]
fn test_fifo_scheduler_on_block() {
    let mut scheduler = FifoScheduler::new();
    let agent1 = sched_agent(1);
    let agent2 = sched_agent(2);

    scheduler.on_ready(agent1);
    scheduler.on_ready(agent2);

    scheduler.on_block(agent1, BlockReason::WaitForMessage);

    assert_eq!(scheduler.next_to_run(), Some(agent2));
    assert_eq!(scheduler.next_to_run(), None);
}

#[test]
fn test_fifo_scheduler_on_terminate() {
    let mut scheduler = FifoScheduler::new();
    let agent1 = sched_agent(1);
    let agent2 = sched_agent(2);

    scheduler.on_ready(agent1);
    scheduler.on_ready(agent2);

    scheduler.on_terminate(agent1, TerminationReason::Success);

    assert_eq!(scheduler.next_to_run(), Some(agent2));
    assert_eq!(scheduler.next_to_run(), None);
}

#[test]
fn test_fifo_scheduler_on_yield() {
    let mut scheduler = FifoScheduler::new();
    let agent1 = sched_agent(1);
    let agent2 = sched_agent(2);

    scheduler.on_ready(agent1);
    scheduler.on_ready(agent2);

    assert_eq!(scheduler.next_to_run(), Some(agent1));

    scheduler.on_yield(agent1);

    assert_eq!(scheduler.next_to_run(), Some(agent2));
    assert_eq!(scheduler.next_to_run(), Some(agent1));
}

#[test]
fn test_fifo_scheduler_no_duplicates() {
    let mut scheduler = FifoScheduler::new();
    let agent = sched_agent(1);

    scheduler.on_ready(agent);
    scheduler.on_ready(agent);

    assert_eq!(scheduler.ready_count(), 1);
    assert_eq!(scheduler.next_to_run(), Some(agent));
    assert_eq!(scheduler.next_to_run(), None);
}

#[test]
fn test_fifo_scheduler_on_event_no_op() {
    let mut scheduler = FifoScheduler::new();
    let agent = sched_agent(1);

    scheduler.on_ready(agent);

    scheduler.on_event(SchedulingEvent::TimerFired);
    scheduler.on_event(SchedulingEvent::MessageArrived { target: agent });

    assert_eq!(scheduler.next_to_run(), Some(agent));
}

#[test]
fn test_fifo_scheduler_update_context_no_op() {
    let mut scheduler = FifoScheduler::new();
    let agent = sched_agent(1);
    let context = SchedulingContext::default();

    scheduler.on_ready(agent);

    scheduler.update_agent_context(agent, &context);

    assert_eq!(scheduler.next_to_run(), Some(agent));
}

#[test]
fn test_fifo_scheduler_complex_scenario() {
    let mut scheduler = FifoScheduler::new();
    let agent1 = sched_agent(1);
    let agent2 = sched_agent(2);
    let agent3 = sched_agent(3);

    scheduler.on_ready(agent1);
    scheduler.on_ready(agent2);
    scheduler.on_ready(agent3);

    assert_eq!(scheduler.next_to_run(), Some(agent1));

    scheduler.on_block(agent2, BlockReason::WaitForToolResult);

    assert_eq!(scheduler.next_to_run(), Some(agent3));

    scheduler.on_yield(agent1);

    assert_eq!(scheduler.next_to_run(), Some(agent1));

    scheduler.on_ready(agent2);

    assert_eq!(scheduler.next_to_run(), Some(agent2));

    assert_eq!(scheduler.next_to_run(), None);
    assert_eq!(scheduler.ready_count(), 0);
}

// ---- FIFO policy internals ----

#[test]
fn test_fifo_new() {
    let scheduler = FifoScheduler::new();
    assert_eq!(scheduler.ready_count(), 0);
    assert_eq!(scheduler.queue_len(), 0);
    assert!(!scheduler.is_ready(sched_agent(1)));
}

#[test]
fn test_fifo_on_ready_adds_to_queue() {
    let mut scheduler = FifoScheduler::new();
    let agent = sched_agent(1);

    scheduler.on_ready(agent);

    assert_eq!(scheduler.ready_count(), 1);
    assert!(scheduler.is_ready(agent));
    assert_eq!(scheduler.queue_len(), 1);
}

#[test]
fn test_fifo_on_ready_deduplicates() {
    let mut scheduler = FifoScheduler::new();
    let agent = sched_agent(1);

    scheduler.on_ready(agent);
    scheduler.on_ready(agent);

    assert_eq!(scheduler.ready_count(), 1);
    assert_eq!(scheduler.queue_len(), 1);
}

#[test]
fn test_fifo_next_to_run_pops_from_front() {
    let mut scheduler = FifoScheduler::new();
    let agent1 = sched_agent(1);
    let agent2 = sched_agent(2);

    scheduler.on_ready(agent1);
    scheduler.on_ready(agent2);

    assert_eq!(scheduler.next_to_run(), Some(agent1));
    assert_eq!(scheduler.ready_count(), 1);
    assert!(!scheduler.is_ready(agent1));
}

#[test]
fn test_fifo_lazy_deletion_on_block() {
    let mut scheduler = FifoScheduler::new();
    let agent1 = sched_agent(1);
    let agent2 = sched_agent(2);
    let agent3 = sched_agent(3);

    scheduler.on_ready(agent1);
    scheduler.on_ready(agent2);
    scheduler.on_ready(agent3);

    scheduler.on_block(agent1, BlockReason::WaitForMessage);

    assert_eq!(scheduler.queue_len(), 3);
    assert_eq!(scheduler.ready_count(), 2);

    assert_eq!(scheduler.next_to_run(), Some(agent2));
    assert_eq!(scheduler.next_to_run(), Some(agent3));
    assert_eq!(scheduler.next_to_run(), None);

    assert_eq!(scheduler.queue_len(), 0);
}

#[test]
fn test_fifo_yield_re_adds_to_back() {
    let mut scheduler = FifoScheduler::new();
    let agent1 = sched_agent(1);
    let agent2 = sched_agent(2);

    scheduler.on_ready(agent1);
    scheduler.on_ready(agent2);

    assert_eq!(scheduler.next_to_run(), Some(agent1));

    scheduler.on_yield(agent1);

    assert_eq!(scheduler.next_to_run(), Some(agent2));
    assert_eq!(scheduler.next_to_run(), Some(agent1));
}

#[test]
fn test_fifo_terminate_removes_permanently() {
    let mut scheduler = FifoScheduler::new();
    let agent = sched_agent(1);

    scheduler.on_ready(agent);
    scheduler.on_terminate(agent, TerminationReason::Success);

    assert_eq!(scheduler.next_to_run(), None);
    assert_eq!(scheduler.ready_count(), 0);
}

#[test]
fn fifo_readied_again_goes_to_the_back() {
    let mut scheduler = FifoScheduler::new();
    let a = sched_agent(1);
    let b = sched_agent(2);
    scheduler.on_ready(a);
    scheduler.on_ready(b);
    scheduler.on_block(a, BlockReason::WaitForEvent);
    scheduler.on_ready(a);
    // `a` became ready again after `b`: its older entry is gone and it waits
    // behind `b`.
    assert_eq!(scheduler.queue_len(), 2);
    assert_eq!(scheduler.next_to_run(), Some(b));
    assert_eq!(scheduler.next_to_run(), Some(a));
    assert_eq!(scheduler.next_to_run(), None);
    assert_eq!(scheduler.queue_len(), 0);
}

// ---- runtime ----

#[test]
fn test_runtime_creation() {
    let runtime = Runtime::new(Box::new(FifoScheduler::new()));
    assert_eq!(runtime.agent_count(), 0);
    assert_eq!(runtime.ready_count(), 0);
}

#[test]
fn test_runtime_spawn() {
    let mut runtime = Runtime::new(Box::new(FifoScheduler::new()));

    let id = spawn_mock(&mut runtime);
    assert_eq!(runtime.agent_count(), 1);
    assert_eq!(runtime.ready_count(), 1);
    assert!(runtime.get_record(id).is_some());
}

#[test]
fn test_runtime_next_to_run() {
    let mut runtime = Runtime::new(Box::new(FifoScheduler::new()));

    let id1 = spawn_mock(&mut runtime);
    let id2 = spawn_mock(&mut runtime);

    assert_eq!(runtime.next_to_run(), Some(id1));
    assert_eq!(runtime.next_to_run(), Some(id2));
    assert_eq!(runtime.next_to_run(), None);
}

#[test]
fn test_runtime_update_state() {
    let mut runtime = Runtime::new(Box::new(FifoScheduler::new()));

    let id = spawn_mock(&mut runtime);
    assert_eq!(runtime.ready_count(), 1);

    runtime.update_state(id, SchedulingState::Blocked { reason: BlockReason::WaitForMessage });
    assert_eq!(runtime.ready_count(), 0);

    runtime.update_state(id, SchedulingState::Ready);
    assert_eq!(runtime.ready_count(), 1);
}

#[test]
fn test_runtime_record_step() {
    let mut runtime = Runtime::new(Box::new(FifoScheduler::new()));

    let id = spawn_mock(&mut runtime);
    runtime.record_step(id, 100);

    let record = runtime.get_record(id).unwrap();
    assert_eq!(record.metrics.steps_executed, 1);
    assert_eq!(record.metrics.tokens_consumed, 100);
}

#[test]
fn test_runtime_terminate() {
    let mut runtime = Runtime::new(Box::new(FifoScheduler::new()));

    let id = spawn_mock(&mut runtime);
    runtime.update_state(id, SchedulingState::Terminated { reason: TerminationReason::Success, at: now_ms() });

    assert_eq!(runtime.ready_count(), 0);
    assert_eq!(runtime.next_to_run(), None);
}

#[test]
fn runtime_state_snapshots_name_the_state() {
    let mut runtime = Runtime::new(Box::new(FifoScheduler::new()));
    let id = spawn_mock(&mut runtime);
    assert_eq!(runtime.get_record(id).unwrap().state.current, "Ready");
    runtime.update_state(id, SchedulingState::Blocked { reason: BlockReason::Other("disk".to_string()) });
    let rec = runtime.get_record(id).unwrap();
    assert_eq!(rec.state.current, "Blocked");
    assert_eq!(rec.state.block_reason.as_deref(), Some("disk"));
    runtime.update_state(id, SchedulingState::Suspended);
    assert_eq!(runtime.get_record(id).unwrap().state.current, "Suspended");
    assert_eq!(runtime.ready_count(), 0);
    runtime.update_state(id, SchedulingState::Running);
    assert_eq!(runtime.get_record(id).unwrap().state.current, "Running");
    assert_eq!(runtime.ready_count(), 0);
}

#[test]
fn runtime_terminated_snapshot_keeps_its_time() {
    let mut runtime = Runtime::new(Box::new(FifoScheduler::new()));
    let id = spawn_mock(&mut runtime);
    runtime.update_state(id, SchedulingState::Terminated { reason: TerminationReason::Failure, at: 1234 });
    let rec = runtime.get_record(id).unwrap();
    assert_eq!(rec.state.current, "Terminated");
    assert_eq!(rec.state.updated_at, 1234);
    assert_eq!(rec.state.block_reason.as_deref(), Some("Terminated: Failure"));
}

#[test]
fn runtime_unknown_agent_is_ignored() {
    let mut runtime = Runtime::new(Box::new(FifoScheduler::new()));
    let ghost_agent = sched_agent(42);
    runtime.update_state(ghost_agent, SchedulingState::Ready);
    runtime.record_step(ghost_agent, 5);
    assert_eq!(runtime.agent_count(), 0);
    assert_eq!(runtime.ready_count(), 0);
    assert!(runtime.get_record(ghost_agent).is_none());
    assert!(!runtime.check_constraints(ghost_agent));
}

#[test]
fn runtime_respawn_replaces_the_record() {
    let mut runtime = Runtime::new(Box::new(FifoScheduler::new()));
    let id = sched_agent(7);
    runtime.spawn(id, mock_intent(id));
    runtime.record_step(id, 10);
    runtime.spawn(id, mock_intent(id));
    assert_eq!(runtime.agent_count(), 1);
    assert_eq!(runtime.get_record(id).unwrap().metrics.steps_executed, 0);
    assert_eq!(runtime.get_record(id).unwrap().program.model.provider, "mock");
}

#[test]
fn runtime_get_record_mut_writes_through() {
    let mut runtime = Runtime::new(Box::new(FifoScheduler::new()));
    let id = spawn_mock(&mut runtime);
    runtime.get_record_mut(id).unwrap().scheduling_context.priority = 9;
    assert_eq!(runtime.get_record(id).unwrap().scheduling_context.priority, 9);
    assert!(runtime.get_record_mut(sched_agent(99)).is_none());
}

#[test]
fn runtime_budget_violation_is_reported() {
    let mut runtime = Runtime::new(Box::new(FifoScheduler::new()));
    let id = sched_agent(3);
    let mut intent = mock_intent(id);
    intent.constraints.step_budget = Some(2);
    runtime.spawn(id, intent);
    runtime.record_step(id, 1);
    assert!(!runtime.check_constraints(id));
    runtime.record_step(id, 1);
    assert!(runtime.check_constraints(id));
    assert!(runtime.check_constraints_at(id, 0));
}

#[test]
fn runtime_send_ipc_wakes_a_blocked_receiver() {
    let mut runtime = Runtime::new(Box::new(FifoScheduler::new()));
    let a = spawn_mock(&mut runtime);
    let b = spawn_mock(&mut runtime);
    assert_eq!(runtime.next_to_run(), Some(a));
    assert_eq!(runtime.next_to_run(), Some(b));
    runtime.update_state(b, SchedulingState::Blocked { reason: BlockReason::WaitForMessage });
    let chan = runtime.create_p2p_channel(a, b, 4).unwrap();
    let mut map = serde_json::Map::new();
    map.insert("k".to_string(), serde_json::Value::Bool(true));
    let msg = Message {
        sender: a,
        receiver: b,
        message_type: "note".to_string(),
        payload: serde_json::Value::Object(map),
        metadata: MessageMetadata { sent_at: now_ms(), priority: 1, requires_ack: false },
    };
    assert!(runtime.send_ipc(chan, msg).is_ok());
    assert_eq!(runtime.pending_ipc_count(b), 1);
    assert_eq!(runtime.next_to_run(), Some(b));
    let got = runtime.poll_ipc_messages(b);
    assert_eq!(got.len(), 1);
    assert_eq!(runtime.pending_ipc_count(b), 0);
}

#[test]
fn runtime_broadcast_channel_and_broker_access() {
    let mut runtime = Runtime::new(Box::new(FifoScheduler::new()));
    let a = spawn_mock(&mut runtime);
    let b = spawn_mock(&mut runtime);
    let c = runtime.create_broadcast_channel(a, vec![b], 2).unwrap();
    assert!(runtime.ipc_broker().channel_exists(c));
    assert!(runtime.ipc_broker_mut().destroy_channel(c));
    assert_eq!(runtime.ipc_broker().channel_count(), 0);
    assert!(runtime.has_ready());
    assert_eq!(runtime.scheduler().ready_count(), 2);
    runtime.scheduler_mut().on_block(a, BlockReason::WaitForEvent);
    assert_eq!(runtime.ready_count(), 1);
}

// ---- scheduling context ----

#[test]
fn test_scheduling_context_default() {
    let ctx = SchedulingContext::default();
    assert_eq!(ctx.priority, 0);
    assert_eq!(ctx.quantum_used, 0);
    assert!(ctx.last_run.is_none());
    assert!(ctx.deadline.is_none());
}

#[test]
fn test_scheduling_context_builder() {
    let deadline = now_ms() + 60_000;
    let ctx = SchedulingContext::new().with_priority(100).with_deadline(deadline);

    assert_eq!(ctx.priority, 100);
    assert!(ctx.deadline.is_some());
}

#[test]
fn test_scheduling_context_no_deadline() {
    let ctx = SchedulingContext::new();
    assert!(ctx.time_until_deadline().is_none());
    assert!(!ctx.is_overdue());
}

#[test]
fn test_scheduling_context_future_deadline() {
    let deadline = now_ms() + 3_600_000;
    let ctx = SchedulingContext::new().with_deadline(deadline);

    let remaining = ctx.time_until_deadline().unwrap();
    assert!(remaining > 0);
    assert!(!ctx.is_overdue());
}

#[test]
fn test_scheduling_context_past_deadline() {
    let deadline = now_ms() - 3_600_000;
    let ctx = SchedulingContext::new().with_deadline(deadline);

    let remaining = ctx.time_until_deadline().unwrap();
    assert!(remaining < 0);
    assert!(ctx.is_overdue());
}

#[test]
fn scheduling_context_deadline_arithmetic_is_exact() {
    let ctx = SchedulingContext::new().with_deadline(10_000);
    assert_eq!(ctx.time_until_deadline_at(4_000), Some(6_000));
    assert_eq!(ctx.time_until_deadline_at(12_500), Some(-2_500));
    assert!(!ctx.is_overdue_at(10_000));
    assert!(ctx.is_overdue_at(10_001));
}

#[test]
fn state_snapshot_of_blocked_state_records_the_reason_text() {
    let snap = StateSnapshot::from(SchedulingState::Blocked { reason: BlockReason::WaitForToolResult });
    assert_eq!(snap.current, "Blocked");
    assert_eq!(snap.block_reason.as_deref(), Some("wait_for_tool_result"));
}
