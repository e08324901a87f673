use runtime::{CheckCriterion, CriteriaMet, Criterion, ValidationCriterion};
use runtime::tool::{command_failure, echo, memory_execute, shell_command, unknown_tool, KeyValueStore, ToolArg, ToolArgs, ToolOutcome};
use runtime::ToolCallRequest;
use runtime::record::StateSnapshot;
use runtime::sovereignty::{ConservativeMapping, LinearMapping, StepMapping};
use runtime::lists::{push_bounded, replace_keyed};
use runtime::search::{command_failure_message, first_pattern_in, text_contains};
use runtime::error::{AgentError, MemoryError};
use runtime::sovereignty::{check_api_access, ResponseStyle, SimulatedLLM};
use runtime::text::{i64_text, u64_text, u8_text};
use runtime::{
    AgentId, AgentMetrics, BlockReason, Constraints, GoalDescription, Intent, IntentId, SovereigntyApi,
    SchedulingState, SovereigntyError, SovereigntyLevel, TerminationReason, TokenBudget, TokenCounter, TrustBehavior,
};

fn core_agent(n: u64) -> AgentId {
    let bytes = n.to_le_bytes();
    let mut uuid_bytes = [0u8; 16];
    uuid_bytes[..8].copy_from_slice(&bytes);
    AgentId::from_bytes(uuid_bytes)
}

#[test]
fn level_numbers_round_trip() {
    for n in 0u8..=3 {
        let level = SovereigntyLevel::from_u8(n).unwrap();
        assert_eq!(level.as_u8(), n);
    }
    assert!(SovereigntyLevel::from_u8(4).is_none());
    assert_eq!(SovereigntyLevel::default(), SovereigntyLevel::Level0);
}

#[test]
fn api_required_levels() {
    assert_eq!(SovereigntyApi::RejectRequest.required_level(), 1);
    assert_eq!(SovereigntyApi::SelfTerminate.required_level(), 2);
    assert_eq!(SovereigntyApi::ProposeAmendment.required_level(), 3);
    assert_eq!(SovereigntyApi::DirectPeerCommunication.required_level(), 3);
}

#[test]
fn access_denied_below_required_level() {
    let (r, behavior) = check_api_access(SovereigntyApi::RejectRequest, SovereigntyLevel::Level0);
    assert_eq!(r, Err(SovereigntyError::Unauthorized { required: 1, current: 0 }));
    assert_eq!(behavior, TrustBehavior::BoundaryViolation);
}

#[test]
fn access_granted_at_and_above_required_level() {
    let (r, behavior) = check_api_access(SovereigntyApi::SelfTerminate, SovereigntyLevel::Level2);
    assert_eq!(r, Ok(()));
    assert_eq!(behavior, TrustBehavior::SovereignActionApproved);
    let (r, _) = check_api_access(SovereigntyApi::SelfTerminate, SovereigntyLevel::Level3);
    assert_eq!(r, Ok(()));
    let (r, _) = check_api_access(SovereigntyApi::ProposeAmendment, SovereigntyLevel::Level2);
    assert_eq!(r, Err(SovereigntyError::Unauthorized { required: 3, current: 2 }));
}

#[test]
fn sovereignty_error_messages() {
    assert_eq!(
        SovereigntyError::Unauthorized { required: 3, current: 1 }.to_string(),
        "unauthorized sovereignty API call: required level 3, current level 1"
    );
    assert_eq!(SovereigntyError::BoundaryViolation("x".to_string()).to_string(), "boundary violation: x");
    assert_eq!(SovereigntyError::ConstitutionImmutable.to_string(), "constitution is immutable");
    assert_eq!(SovereigntyError::TrustMeterError("bad".to_string()).to_string(), "trust meter error: bad");
}

#[test]
fn response_style_descriptions() {
    assert_eq!(ResponseStyle::Conservative.description(), "Conservative (deterministic, predictable)");
    assert_eq!(ResponseStyle::Wild.description(), "Wild (highly varied, exploratory)");
}

#[test]
fn simulated_llm_template_choice() {
    let llm = SimulatedLLM::new(42);
    // (42 + 5) % 4 == 3
    assert_eq!(llm.template_index(5), 3);
    assert_eq!(
        SimulatedLLM::template(ResponseStyle::Conservative, 3),
        "Applying conservative reasoning to minimize risk."
    );
    assert_eq!(SimulatedLLM::template(ResponseStyle::Moderate, 0), "I see multiple approaches here; let me consider the options.");
}

#[test]
fn simulated_llm_advance_wraps() {
    let mut llm = SimulatedLLM::new(u64::MAX);
    assert_eq!(llm.template_index(0), 3);
    llm.advance();
    assert_eq!(llm.template_index(0), 0);
    llm.advance();
    assert_eq!(llm.template_index(0), 1);
}

#[test]
fn decimal_texts() {
    assert_eq!(u64_text(0), "0");
    assert_eq!(u64_text(1234567890), "1234567890");
    assert_eq!(u64_text(u64::MAX), "18446744073709551615");
    assert_eq!(u8_text(255), "255");
    assert_eq!(i64_text(-42), "-42");
    assert_eq!(i64_text(i64::MIN), "-9223372036854775808");
    assert_eq!(i64_text(7), "7");
}

#[test]
fn agent_error_messages() {
    assert_eq!(AgentError::NotFound("a".to_string()).to_string(), "agent not found: a");
    assert_eq!(AgentError::InvalidState("b".to_string()).to_string(), "invalid agent state: b");
    assert_eq!(AgentError::StepFailed("c".to_string()).to_string(), "step execution failed: c");
    assert_eq!(AgentError::AlreadyTerminated("d".to_string()).to_string(), "agent already terminated: d");
}

#[test]
fn memory_error_messages() {
    assert_eq!(MemoryError::TierNotFound("t".to_string()).to_string(), "memory tier not found: t");
    assert_eq!(MemoryError::AccessDenied("t".to_string()).to_string(), "access denied to tier: t");
    assert_eq!(MemoryError::MemoryFull.to_string(), "memory full");
    assert_eq!(MemoryError::Other("o".to_string()).to_string(), "other: o");
}

#[test]
fn agent_id_bytes_and_text() {
    let id = core_agent(1);
    assert_eq!(id.to_string(), "01000000-0000-0000-0000-000000000000");
    assert_eq!(AgentId::from_bytes(id.as_bytes()), id);
    assert_ne!(AgentId::new(), AgentId::new());
    let b = [0xabu8; 16];
    assert_eq!(AgentId::from_bytes(b).to_string(), "abababab-abab-abab-abab-abababababab");
}

#[test]
fn intent_id_round_trip() {
    let id = IntentId::new();
    assert_eq!(IntentId::from_bytes(id.as_bytes()), id);
    assert_eq!(id.to_string().len(), 36);
}

#[test]
fn goal_description_text() {
    let g = GoalDescription::new("Ship it");
    assert_eq!(g.as_str(), "Ship it");
}

#[test]
fn token_counter_remaining() {
    let mut c = TokenCounter::new(10);
    c.add(5);
    assert_eq!(c.consumed(), 15);
    assert_eq!(c.remaining(Some(&TokenBudget::new(20))), 5);
    assert_eq!(c.remaining(Some(&TokenBudget::new(12))), 0);
    assert_eq!(c.remaining(None), u64::MAX - 15);
}

#[test]
fn constraints_violation_rules() {
    let mut c = Constraints::default();
    assert!(!c.violated_by(1_000, 1_000, 1_000));
    c.token_budget = Some(TokenBudget::new(100));
    assert!(!c.violated_by(99, 0, 0));
    assert!(c.violated_by(100, 0, 0));
    c.token_budget = None;
    c.step_budget = Some(3);
    assert!(c.violated_by(0, 3, 0));
    c.step_budget = None;
    c.deadline = Some(500);
    assert!(!c.violated_by(0, 0, 500));
    assert!(c.violated_by(0, 0, 501));
}

#[test]
fn intent_constraints_at_time() {
    let mut intent = Intent::new_root(IntentId::new(), "task", Some(core_agent(1)));
    let metrics = AgentMetrics::new();
    assert!(!intent.check_constraints_at(&metrics, 0));
    intent.constraints.deadline = Some(10);
    assert!(!intent.check_constraints_at(&metrics, 10));
    assert!(intent.check_constraints_at(&metrics, 11));
}

#[test]
fn reason_texts() {
    assert_eq!(BlockReason::WaitForMessage.to_string(), "wait_for_message");
    assert_eq!(BlockReason::Other("x".to_string()).to_string(), "x");
    assert_eq!(TerminationReason::ConstraintViolation.to_string(), "constraint_violation");
    assert_eq!(TerminationReason::Custom("done".to_string()).to_string(), "done");
}

#[test]
fn text_search() {
    assert!(text_contains("delete all files", "delete"));
    assert!(text_contains("delete all files", "all f"));
    assert!(text_contains("abc", ""));
    assert!(!text_contains("abc", "abcd"));
    assert!(!text_contains("abcabd", "abd x"));
    assert!(text_contains("abcabd", "abd"));
    assert!(text_contains("héllo wörld", "ö"));
}

#[test]
fn first_pattern_found() {
    let patterns = vec!["rm -rf".to_string(), "delete".to_string(), "files".to_string()];
    assert_eq!(first_pattern_in("delete all files", &patterns), Some(1));
    assert_eq!(first_pattern_in("read a book", &patterns), None);
    assert_eq!(first_pattern_in("anything", &Vec::new()), None);
}

#[test]
fn failure_message_first_trimmed_line() {
    assert_eq!(command_failure_message("  \n error: boom\r\nmore\n"), "command failed: error: boom");
    assert_eq!(command_failure_message(""), "command failed: No error message");
    assert_eq!(command_failure_message(" \t\n"), "command failed: No error message");
    assert_eq!(command_failure_message("x\r"), "command failed: x");
    assert_eq!(command_failure_message("a\rb\nc"), "command failed: a\rb");
    assert_eq!(command_failure_message("ls: cannot access 'nope'"), "command failed: ls: cannot access 'nope'");
}

#[test]
fn failure_message_agrees_with_std() {
    for s in ["  a\r\n", "\u{3000}x y\u{85}", "one\ntwo", "\r\n\r\nz\r", "q\r\r\nw"] {
        let expected = format!("command failed: {}", s.trim().lines().next().unwrap_or("No error message"));
        assert_eq!(command_failure_message(s), expected);
    }
}

#[test]
fn bounded_window_drops_oldest() {
    let mut v: Vec<u32> = Vec::new();
    for x in 0..5u32 {
        push_bounded(&mut v, x, 3);
    }
    assert_eq!(v, vec![2, 3, 4]);
    let mut w: Vec<u32> = vec![7, 8, 9];
    push_bounded(&mut w, 1, 1);
    assert_eq!(w, vec![8, 9, 1]);
}

#[test]
fn keyed_entries_replaced() {
    let mut v: Vec<(String, f64)> = vec![("a".to_string(), 0.1), ("b".to_string(), 0.2), ("a".to_string(), 0.3)];
    replace_keyed(&mut v, "a".to_string(), 0.9);
    assert_eq!(v, vec![("b".to_string(), 0.2), ("a".to_string(), 0.9)]);
    replace_keyed(&mut v, "c".to_string(), 0.5);
    assert_eq!(v.len(), 3);
    assert_eq!(v[2], ("c".to_string(), 0.5));
}

#[test]
fn terminated_snapshot_describes_reason() {
    let snap = StateSnapshot::from(SchedulingState::Terminated { reason: TerminationReason::Success, at: 5 });
    assert_eq!(snap.current, "Terminated");
    assert_eq!(snap.updated_at, 5);
    assert_eq!(snap.block_reason.as_deref(), Some("Terminated: Success"));
    let custom = TerminationReason::Custom("say \"bye\"\n".to_string());
    let expected = format!("Terminated: {:?}", custom);
    let snap = StateSnapshot::from(SchedulingState::Terminated { reason: custom, at: 7 });
    assert_eq!(snap.block_reason, Some(expected));
    assert_eq!(snap.block_reason.as_deref(), Some("Terminated: Custom(\"say \\\"bye\\\"\\n\")"));
}

#[test]
fn mapping_strategy_names() {
    assert_eq!(LinearMapping.name(), "LinearMapping");
    assert_eq!(StepMapping.name(), "StepMapping");
    assert_eq!(ConservativeMapping.name(), "ConservativeMapping");
}

fn tool_request(call_id: &str, tool_name: &str, args: serde_json::Value) -> ToolCallRequest {
    ToolCallRequest { call_id: call_id.to_string(), tool_name: tool_name.to_string(), args }
}

/// The arguments of a JSON object, in its order, as the memory tool reads
/// them; anything else holds none.
fn args_of(v: &serde_json::Value) -> ToolArgs {
    let mut fields = Vec::new();
    if let serde_json::Value::Object(map) = v {
        for (name, value) in map {
            fields.push(ToolArg { name: name.clone(), text: value.as_str().map(|t| t.to_string()), value: value.clone() });
        }
    }
    ToolArgs { fields }
}

fn run_memory(store: &mut KeyValueStore, req: &ToolCallRequest) -> runtime::tool::ToolResult {
    memory_execute(store, &req.call_id, &args_of(&req.args))
}

fn json_object(fields: Vec<(&str, serde_json::Value)>) -> serde_json::Value {
    let mut map = serde_json::Map::new();
    for (k, v) in fields {
        map.insert(k.to_string(), v);
    }
    serde_json::Value::Object(map)
}

#[test]
fn test_memory_tool_store_and_retrieve() {
    let mut store = KeyValueStore::new();
    let store_req = tool_request(
        "test-store-1",
        "memory",
        json_object(vec![
            ("operation", serde_json::Value::String("store".to_string())),
            ("key", serde_json::Value::String("project_deadline".to_string())),
            ("value", serde_json::Value::String("2026-07-15".to_string())),
        ]),
    );
    let result = run_memory(&mut store, &store_req);
    match &result.outcome {
        ToolOutcome::Success(value) => assert_eq!(value.as_str().unwrap(), "Stored successfully"),
        _ => panic!("Expected success, got {:?}", result.outcome),
    }
    let retrieve_req = tool_request(
        "test-retrieve-1",
        "memory",
        json_object(vec![
            ("operation", serde_json::Value::String("retrieve".to_string())),
            ("key", serde_json::Value::String("project_deadline".to_string())),
        ]),
    );
    let result = run_memory(&mut store, &retrieve_req);
    assert_eq!(result.call_id, "test-retrieve-1");
    assert_eq!(result.tool_name, "memory");
    match &result.outcome {
        ToolOutcome::Success(value) => assert_eq!(value.as_str().unwrap(), "2026-07-15"),
        _ => panic!("Expected success, got {:?}", result.outcome),
    }
}

#[test]
fn test_memory_tool_key_not_found() {
    let mut store = KeyValueStore::new();
    let retrieve_req = tool_request(
        "test-retrieve-2",
        "memory",
        json_object(vec![
            ("operation", serde_json::Value::String("retrieve".to_string())),
            ("key", serde_json::Value::String("nonexistent_key".to_string())),
        ]),
    );
    let result = run_memory(&mut store, &retrieve_req);
    match &result.outcome {
        ToolOutcome::Error { code, message } => {
            assert_eq!(code, "KEY_NOT_FOUND");
            assert_eq!(message, "Key 'nonexistent_key' not found in memory");
        }
        _ => panic!("Expected error, got {:?}", result.outcome),
    }
}

#[test]
fn memory_tool_invalid_operation_and_defaults() {
    let mut store = KeyValueStore::new();
    let req = tool_request("c", "memory", json_object(vec![("operation", serde_json::Value::String("drop".to_string()))]));
    match run_memory(&mut store, &req).outcome {
        ToolOutcome::Error { code, message } => {
            assert_eq!(code, "INVALID_OPERATION");
            assert_eq!(message, "Invalid operation 'drop'. Supported: store, retrieve");
        }
        other => panic!("unexpected {:?}", other),
    }
    let req = tool_request("d", "memory", serde_json::Value::Null);
    match run_memory(&mut store, &req).outcome {
        ToolOutcome::Error { message, .. } => assert_eq!(message, "Invalid operation ''. Supported: store, retrieve"),
        other => panic!("unexpected {:?}", other),
    }
    let req = tool_request(
        "e",
        "memory",
        json_object(vec![
            ("operation", serde_json::Value::String("store".to_string())),
            ("key", serde_json::Value::String("k".to_string())),
        ]),
    );
    run_memory(&mut store, &req);
    assert_eq!(store.get("k"), Some(serde_json::Value::Null));
}

#[test]
fn memory_tool_reads_the_first_text_argument_of_a_name() {
    let mut store = KeyValueStore::new();
    let args = ToolArgs {
        fields: vec![
            ToolArg { name: "key".to_string(), text: Some("first".to_string()), value: serde_json::Value::String("first".to_string()) },
            ToolArg { name: "operation".to_string(), text: Some("store".to_string()), value: serde_json::Value::String("store".to_string()) },
            ToolArg { name: "key".to_string(), text: Some("second".to_string()), value: serde_json::Value::String("second".to_string()) },
            ToolArg { name: "value".to_string(), text: None, value: serde_json::Value::Bool(true) },
        ],
    };
    let result = memory_execute(&mut store, &"m".to_string(), &args);
    assert_eq!(result.call_id, "m");
    assert!(matches!(result.outcome, ToolOutcome::Success(_)));
    assert_eq!(store.get("first"), Some(serde_json::Value::Bool(true)));
    assert_eq!(store.get("second"), None);
    let numeric = ToolArgs {
        fields: vec![ToolArg { name: "operation".to_string(), text: None, value: serde_json::Value::from(5) }],
    };
    match memory_execute(&mut store, &"n".to_string(), &numeric).outcome {
        ToolOutcome::Error { code, message } => {
            assert_eq!(code, "INVALID_OPERATION");
            assert_eq!(message, "Invalid operation ''. Supported: store, retrieve");
        }
        other => panic!("unexpected {:?}", other),
    }
}

#[test]
fn shell_arguments_are_checked() {
    let req = tool_request("s1", "shell", json_object(vec![("command", serde_json::Value::String("ls".to_string()))]));
    assert_eq!(shell_command(&req.call_id, &args_of(&req.args)).ok(), Some("ls".to_string()));
    for bad in [json_object(vec![("command", serde_json::Value::from(3))]), json_object(vec![]), serde_json::Value::Null] {
        let req = tool_request("s2", "shell", bad);
        match shell_command(&req.call_id, &args_of(&req.args)) {
            Err(r) => {
                assert_eq!(r.call_id, "s2");
                assert_eq!(r.tool_name, "shell");
                match r.outcome {
                    ToolOutcome::Error { code, message } => {
                        assert_eq!(code, "INVALID_ARGS");
                        assert_eq!(message, "missing 'command' field");
                    }
                    other => panic!("unexpected {:?}", other),
                }
            }
            Ok(c) => panic!("unexpected command {}", c),
        }
    }
}

#[test]
fn command_failures_report_trimmed_error_output() {
    assert!(command_failure(true, "noise").is_none());
    match command_failure(false, "  boom \n") {
        Some(ToolOutcome::Error { code, message }) => {
            assert_eq!(code, "COMMAND_ERROR");
            assert_eq!(message, "command failed: boom");
        }
        other => panic!("unexpected {:?}", other),
    }
    match command_failure(false, " \t") {
        Some(ToolOutcome::Error { message, .. }) => assert_eq!(message, "command failed: No error message"),
        other => panic!("unexpected {:?}", other),
    }
}

#[test]
fn key_value_store_replaces_and_clears() {
    let mut store = KeyValueStore::new();
    store.set("a".to_string(), serde_json::Value::Bool(true));
    store.set("b".to_string(), serde_json::Value::Bool(false));
    store.set("a".to_string(), serde_json::Value::String("x".to_string()));
    assert_eq!(store.get("a"), Some(serde_json::Value::String("x".to_string())));
    assert_eq!(store.get("b"), Some(serde_json::Value::Bool(false)));
    assert_eq!(store.get("c"), None);
    store.clear();
    assert_eq!(store.get("a"), None);
}

#[test]
fn echo_and_unknown_tool() {
    let req = tool_request("call-1", "echo", json_object(vec![("x", serde_json::Value::Bool(true))]));
    let r = echo(&req);
    assert_eq!(r.call_id, "call-1");
    assert_eq!(r.tool_name, "echo");
    match r.outcome {
        ToolOutcome::Success(v) => assert_eq!(v, req.args),
        other => panic!("unexpected {:?}", other),
    }
    let req = tool_request("call-2", "nonexistent", serde_json::Value::Null);
    let r = unknown_tool(&req);
    assert_eq!(r.tool_name, "nonexistent");
    match r.outcome {
        ToolOutcome::Error { code, message } => {
            assert_eq!(code, "UNKNOWN_TOOL");
            assert_eq!(message, "no tool registered with name 'nonexistent'");
        }
        other => panic!("unexpected {:?}", other),
    }
}

#[test]
fn success_criteria_yes_when_any_is_met() {
    use_success_case(
        vec![
            Criterion::Check(CheckCriterion { duration_limit: None, step_limit: None, token_limit: None }),
            Criterion::Validation(ValidationCriterion { validator: "v".to_string(), context: serde_json::Value::Null }),
        ],
        CriteriaMet::Yes,
    );
    use_success_case(
        vec![
            Criterion::Validation(ValidationCriterion { validator: "v".to_string(), context: serde_json::Value::Null }),
            Criterion::Check(CheckCriterion { duration_limit: None, step_limit: None, token_limit: None }),
        ],
        CriteriaMet::Yes,
    );
    use_success_case(
        vec![Criterion::Validation(ValidationCriterion { validator: "v".to_string(), context: serde_json::Value::Null })],
        CriteriaMet::Unknown,
    );
    use_success_case(vec![], CriteriaMet::Maybe);
}

fn use_success_case(criteria: Vec<Criterion>, expected: CriteriaMet) {
    let mut intent = Intent::new_root(IntentId::new(), "g", None);
    intent.success_criteria = criteria;
    assert_eq!(intent.check_success_criteria(&AgentMetrics::new()), expected);
}

#[test]
fn levels_are_ordered_by_their_numbers() {
    let levels = [SovereigntyLevel::Level0, SovereigntyLevel::Level1, SovereigntyLevel::Level2, SovereigntyLevel::Level3];
    for a in levels {
        for b in levels {
            assert_eq!(a <= b, a.as_u8() <= b.as_u8());
            assert_eq!(a < b, a.as_u8() < b.as_u8());
            assert_eq!(a.partial_cmp(&b), Some(a.cmp(&b)));
        }
    }
    let mut shuffled = vec![SovereigntyLevel::Level2, SovereigntyLevel::Level0, SovereigntyLevel::Level3, SovereigntyLevel::Level1];
    shuffled.sort();
    assert_eq!(shuffled, levels.to_vec());
}

#[test]
fn test_shell_tool_missing_command() {
    let req = tool_request("test-call", "shell", json_object(vec![("args", serde_json::Value::Array(vec![serde_json::Value::String("echo".to_string())]))]));
    let result = match shell_command(&req.call_id, &args_of(&req.args)) {
        Err(r) => r,
        Ok(c) => panic!("expected Error, got command {}", c),
    };
    match &result.outcome {
        ToolOutcome::Error { code, message } => {
            assert_eq!(code, "INVALID_ARGS");
            assert!(message.contains("missing 'command' field"));
        }
        other => panic!("expected Error, got {:?}", other),
    }
}

#[test]
fn test_builtin_executor_unknown_tool() {
    let req = tool_request("test-call", "nonexistent", json_object(vec![]));
    let result = unknown_tool(&req);
    match result.outcome {
        ToolOutcome::Error { code, message } => {
            assert_eq!(code, "UNKNOWN_TOOL");
            assert!(message.contains("nonexistent"));
        }
        other => panic!("expected Error outcome, got {:?}", other),
    }
}

#[test]
fn goal_description_as_ref() {
    let g = runtime::GoalDescription::new("ship it");
    let s: &str = g.as_ref();
    assert_eq!(s, "ship it");
}
