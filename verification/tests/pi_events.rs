use pi_grok_adapter::json::{Json, JsonNumber};
use pi_grok_adapter::pi_events::{event_step, retry_status_text, AdapterState, EventAction, StopReason};
use pi_grok_adapter::plan_mode::{PiPlanState, PiPlanTracker};
use pi_grok_adapter::queue_bridge::QueueMirror;

fn to_json(v: &serde_json::Value) -> Json {
    match v {
        serde_json::Value::Null => Json::Null,
        serde_json::Value::Bool(b) => Json::Bool(*b),
        serde_json::Value::Number(n) => Json::Number(JsonNumber {
            as_u64: n.as_u64(),
            as_i64: n.as_i64(),
            rounded: match (n.as_u64(), n.as_i64(), n.as_f64()) {
                (Some(u), _, _) => Some(u),
                (None, Some(_), _) => None,
                (None, None, Some(f)) if f >= 0.0 => Some(f.round() as u64),
                _ => None,
            },
            text: n.to_string(),
        }),
        serde_json::Value::String(s) => Json::Str(s.clone()),
        serde_json::Value::Array(items) => Json::Array(items.iter().map(to_json).collect()),
        serde_json::Value::Object(map) => {
            Json::Object(map.iter().map(|(k, v)| (k.clone(), to_json(v))).collect())
        }
    }
}

fn parse(text: &str) -> Json {
    to_json(&serde_json::from_str::<serde_json::Value>(text).expect("valid JSON"))
}

fn state() -> AdapterState {
    AdapterState {
        prompts_started: vec![false, false],
        plan_mode: PiPlanTracker::new("/tmp/s".to_string()),
        queue_mirror: QueueMirror::new(),
    }
}

#[test]
fn agent_start_marks_prompts_started() {
    let mut s = state();
    let actions = event_step(&mut s, &parse(r#"{"type": "agent_start"}"#));
    assert!(actions.is_empty());
    assert_eq!(s.prompts_started, vec![true, true]);
}

#[test]
fn agent_settled_completes_a_deferred_plan_exit() {
    let mut s = state();
    s.plan_mode.enter_pending();
    s.plan_mode.build_reminder_for_prompt();
    s.plan_mode.user_exit(true);
    assert_eq!(s.plan_mode.state(), PiPlanState::ExitPending);
    s.queue_mirror.set_running("p1".to_string());
    let actions = event_step(&mut s, &parse(r#"{"type": "agent_settled"}"#));
    assert_eq!(s.plan_mode.state(), PiPlanState::Inactive);
    assert!(s.plan_mode.has_pending_exit_reminder());
    assert_eq!(s.queue_mirror.snapshot().running_prompt_id, None);
    assert!(matches!(actions[0], EventAction::RefreshContextUsage));
    assert!(matches!(actions[1], EventAction::PersistPlanMode));
    assert!(matches!(actions[2], EventAction::SyncPlanModeControl));
    assert!(matches!(&actions[3], EventAction::SendModeUpdate(m) if m == "default"));
    assert!(matches!(actions[5], EventAction::FinishPrompts(StopReason::EndTurn)));
    assert_eq!(actions.len(), 7);
    let again = event_step(&mut s, &parse(r#"{"event": "agent_settled"}"#));
    assert_eq!(again.len(), 4);
}

#[test]
fn notifications_and_retries() {
    let mut s = state();
    let a = event_step(&mut s, &parse(r#"{"type": "extension_error", "error": "boom"}"#));
    assert!(matches!(&a[0], EventAction::Notify(m, l) if m == "boom" && l == "error"));
    let a = event_step(&mut s, &parse(r#"{"type": "extension_error", "error": ""}"#));
    assert!(matches!(&a[0], EventAction::Notify(m, _) if m == "Pi extension error"));
    let a = event_step(&mut s, &parse(r#"{"type": "auto_retry_start", "attempt": 2, "maxAttempts": 3, "delayMs": 1500, "errorMessage": "overloaded"}"#));
    assert!(matches!(&a[0], EventAction::RetryStarted { attempt: 2, maximum: 3, delay_ms: 1500, error } if error == "overloaded"));
    let a = event_step(&mut s, &parse(r#"{"type": "auto_retry_end", "success": false, "finalError": "gave up"}"#));
    assert!(matches!(&a[0], EventAction::ClearStatus(k) if k == "retry"));
    assert!(matches!(&a[1], EventAction::Notify(m, l) if m == "gave up" && l == "error"));
    let a = event_step(&mut s, &parse(r#"{"type": "adapter_process_exit"}"#));
    assert!(matches!(&a[0], EventAction::Notify(m, _) if m == "Pi RPC process exited"));
    assert!(matches!(a[1], EventAction::FinishPrompts(StopReason::Cancelled)));
    assert!(event_step(&mut s, &parse(r#"{"type": 7, "event": "turn_end"}"#)).is_empty());
    assert!(event_step(&mut s, &parse(r#"{"type": "agent_end"}"#)).is_empty());
    let a = event_step(&mut s, &parse(r#"{"type": "message_start", "message": {"role": "assistant"}}"#));
    assert!(matches!(a[0], EventAction::StartAssistantMessage));
    assert!(event_step(&mut s, &parse(r#"{"type": "message_start", "message": {"role": "user"}}"#)).is_empty());
}

#[test]
fn retry_status_lines() {
    assert_eq!(retry_status_text(2, 3, Some("1.5"), "overloaded"), "Retrying 2/3 in 1.5s: overloaded");
    assert_eq!(retry_status_text(1, 0, None, ""), "Retrying");
}
