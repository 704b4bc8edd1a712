use pi_grok_adapter::background_bash_bridge::{
    background_control, kill_control,
    background_bash_notification, background_bash_output_update, parse_background_bash_message,
    parse_background_bash_tool_result, BackgroundBashProjection,
};
use pi_grok_adapter::json::{Json, JsonNumber};

fn to_json(v: &serde_json::Value) -> Json {
    match v {
        serde_json::Value::Null => Json::Null,
        serde_json::Value::Bool(b) => Json::Bool(*b),
        serde_json::Value::Number(n) => Json::Number(JsonNumber {
            as_u64: n.as_u64(),
            as_i64: n.as_i64(),
            rounded: match (n.as_u64(), n.as_i64(), n.as_f64()) {
                (Some(u), _, _) => Some(u),
                (None, Some(_), _) => None,
                (None, None, Some(f)) if f >= 0.0 => Some(f.round() as u64),
                _ => None,
            },
            text: n.to_string(),
        }),
        serde_json::Value::String(s) => Json::Str(s.clone()),
        serde_json::Value::Array(items) => Json::Array(items.iter().map(to_json).collect()),
        serde_json::Value::Object(map) => {
            Json::Object(map.iter().map(|(k, v)| (k.clone(), to_json(v))).collect())
        }
    }
}

fn parse(text: &str) -> Json {
    to_json(&serde_json::from_str::<serde_json::Value>(text).expect("valid JSON"))
}

fn get<'a>(v: &'a Json, key: &str) -> Option<&'a Json> {
    v.get(key)
}

fn text_of(v: Option<&Json>) -> Option<&str> {
    match v {
        Some(Json::Str(s)) => Some(s.as_str()),
        _ => None,
    }
}

fn started(description: Option<&str>) -> BackgroundBashProjection {
    BackgroundBashProjection::Started {
        task_id: "bash-1".into(),
        tool_call_id: "call-1".into(),
        command: "cargo test".into(),
        cwd: "/repo".into(),
        output_file: "/tmp/task.log".into(),
        description: description.map(str::to_string),
    }
}

fn same(a: &BackgroundBashProjection, b: &BackgroundBashProjection) -> bool {
    format!("{a:?}") == format!("{b:?}")
}

#[test]
fn parses_started_task() {
    let event = parse(
        r#"{ "message": { "role": "custom", "customType": "pi-grok-background-bash/v1",
            "details": { "event": "started", "taskId": "bash-1", "toolCallId": "call-1", "command": "cargo test",
                         "cwd": "/repo", "outputFile": "/tmp/task.log", "description": "Run tests" } } }"#,
    );
    let p = parse_background_bash_message(&event).unwrap();
    assert!(same(&p, &started(Some("Run tests"))));
}

#[test]
fn parses_background_tool_result_for_initial_or_promoted_bash() {
    let result = parse(
        r#"{ "details": { "background": true, "taskId": "bash-1", "command": "cargo test", "cwd": "/repo",
                          "outputFile": "/tmp/task.log" } }"#,
    );
    let p = parse_background_bash_tool_result("bash", "call-1", None, &result).unwrap();
    assert!(same(&p, &started(None)));
    let args = parse(r#"{ "command": "cargo test", "task_name": "运行测试" }"#);
    let p = parse_background_bash_tool_result("bash", "call-1", Some(&args), &result).unwrap();
    assert!(same(&p, &started(Some("运行测试"))));
}

#[test]
fn parses_completed_task() {
    let event = parse(
        r#"{ "message": { "role": "custom", "customType": "pi-grok-background-bash/v1",
            "details": { "event": "completed", "toolCallId": "call-1",
                         "taskSnapshot": { "task_id": "bash-1", "completed": true } } } }"#,
    );
    match parse_background_bash_message(&event) {
        Some(BackgroundBashProjection::Completed { tool_call_id, task_snapshot }) => {
            assert_eq!(tool_call_id, "call-1");
            assert_eq!(text_of(get(&task_snapshot, "task_id")), Some("bash-1"));
            assert!(matches!(get(&task_snapshot, "completed"), Some(Json::Bool(true))));
        }
        other => panic!("unexpected {other:?}"),
    }
}

#[test]
fn ignores_non_bridge_messages() {
    assert!(parse_background_bash_message(&parse(
        r#"{ "message": { "role": "custom", "customType": "pi-grok-recap/v1" } }"#
    ))
    .is_none());
}

#[test]
fn blank_fields_and_foreground_results_are_ignored() {
    let blank = parse(
        r#"{ "role": "custom", "customType": "pi-grok-background-bash/v1",
             "event": "started", "taskId": "  ", "toolCallId": "c", "command": "x", "cwd": "/", "outputFile": "o" }"#,
    );
    assert!(parse_background_bash_message(&blank).is_none());
    let foreground = parse(r#"{ "details": { "background": false, "taskId": "bash-1" } }"#);
    assert!(parse_background_bash_tool_result("bash", "c", None, &foreground).is_none());
    assert!(parse_background_bash_tool_result("read", "c", None, &foreground).is_none());
}

#[test]
fn builds_pager_task_notifications() {
    let (method, started_note) = background_bash_notification("session-1", &started(None));
    assert_eq!(method, "x.ai/task_backgrounded");
    assert_eq!(text_of(get(&started_note, "sessionId")), Some("session-1"));
    let update = get(&started_note, "update").unwrap();
    assert_eq!(text_of(get(update, "sessionUpdate")), Some("task_backgrounded"));
    assert_eq!(text_of(get(update, "task_id")), Some("bash-1"));
    assert!(matches!(get(update, "description"), Some(Json::Null)));

    let completed = BackgroundBashProjection::Completed {
        tool_call_id: "call-1".into(),
        task_snapshot: parse(r#"{ "task_id": "bash-1", "completed": true }"#),
    };
    let (method, completed_note) = background_bash_notification("session-1", &completed);
    assert_eq!(method, "x.ai/task_completed");
    let update = get(&completed_note, "update").unwrap();
    assert_eq!(text_of(get(update, "sessionUpdate")), Some("task_completed"));
    assert!(matches!(get(update, "will_wake"), Some(Json::Bool(false))));
}

#[test]
fn builds_cumulative_output_update_before_completion() {
    let update = background_bash_output_update(&BackgroundBashProjection::Completed {
        tool_call_id: "call-1".into(),
        task_snapshot: parse(r#"{ "task_id": "bash-1", "output": "test output\n", "truncated": true }"#),
    })
    .expect("completed projection creates output update");
    assert_eq!(text_of(get(&update, "toolCallId")), Some("call-1"));
    let raw = get(&update, "rawOutput").unwrap();
    assert_eq!(text_of(get(raw, "type")), Some("Bash"));
    assert_eq!(text_of(get(raw, "output_for_prompt")), Some("test output\n"));
    assert!(matches!(get(raw, "truncated"), Some(Json::Bool(true))));
    assert!(background_bash_output_update(&started(None)).is_none());
}

#[test]
fn background_control_only_for_an_active_tool() {
    let meta = parse(r#"{"controlPath": "/tmp/control.jsonl", "activeToolCallIds": ["tool-1"]}"#);
    let (path, line) = background_control(&meta, "tool-1").unwrap();
    assert_eq!(path, "/tmp/control.jsonl");
    assert_eq!(line, "{\"op\":\"background\",\"toolCallId\":\"tool-1\"}");
    assert_eq!(background_control(&meta, "tool-2").unwrap_err(), "Pi Bash tool is not promotable: tool-2");
    let no_path = parse(r#"{"controlPath": "  ", "activeToolCallIds": ["tool-1"]}"#);
    assert_eq!(background_control(&no_path, "tool-1").unwrap_err(), "Pi Bash control metadata missing controlPath");
}

#[test]
fn kill_control_only_for_a_running_task() {
    let meta = parse(r#"{"controlPath": "/tmp/c", "activeToolCallIds": [], "runningTaskIds": ["bash-1"]}"#);
    assert_eq!(
        kill_control(&meta, "bash-1").unwrap(),
        Some(("/tmp/c".to_string(), "{\"op\":\"kill\",\"taskId\":\"bash-1\"}".to_string()))
    );
    assert_eq!(kill_control(&meta, "bash-missing").unwrap(), None);
    let broken = parse(r#"{"runningTaskIds": ["bash-1"]}"#);
    assert!(kill_control(&broken, "bash-1").is_err());
}
