use pi_grok_adapter::goal_host::{goal_notification_at, GoalControl, GoalHost};
use pi_grok_adapter::json::{Json, JsonNumber};
use pi_grok_adapter::model::{
    filter_sessions_by_cwd, json_text, parse_session_file, sort_sessions_by_modified, PiSessionInfo,
};
use pi_grok_adapter::workflow_host::{
    format_outcome_for_tool, outcome_to_json, parse_workflow_request, WorkflowOutcome, WorkflowRequest,
};

fn to_json(v: &serde_json::Value) -> Json {
    match v {
        serde_json::Value::Null => Json::Null,
        serde_json::Value::Bool(b) => Json::Bool(*b),
        serde_json::Value::Number(n) => Json::Number(JsonNumber {
            as_u64: n.as_u64(),
            as_i64: n.as_i64(),
            rounded: match (n.as_u64(), n.as_i64(), n.as_f64()) {
                (Some(u), _, _) => Some(u),
                (None, Some(_), _) => None,
                (None, None, Some(f)) if f >= 0.0 => Some(f.round() as u64),
                _ => None,
            },
            text: n.to_string(),
        }),
        serde_json::Value::String(s) => Json::Str(s.clone()),
        serde_json::Value::Array(items) => Json::Array(items.iter().map(to_json).collect()),
        serde_json::Value::Object(map) => {
            Json::Object(map.iter().map(|(k, v)| (k.clone(), to_json(v))).collect())
        }
    }
}

fn parse(text: &str) -> Json {
    to_json(&serde_json::from_str::<serde_json::Value>(text).expect("valid JSON"))
}

fn text_at<'a>(v: &'a Json, path: &[&str]) -> Option<&'a str> {
    let mut cur = v;
    for key in path {
        cur = cur.get(key)?;
    }
    match cur {
        Json::Str(s) => Some(s.as_str()),
        _ => None,
    }
}

fn request(name: &str, args: &str) -> Result<WorkflowRequest, String> {
    let parsed = serde_json::from_str::<serde_json::Value>(args.trim()).ok().map(|v| to_json(&v));
    parse_workflow_request(name, args, parsed)
}

#[test]
fn parses_launch_and_manage() {
    match request("deep-research", "compare postgres").unwrap() {
        WorkflowRequest::Launch { name, objective, .. } => {
            assert_eq!(name, "deep-research");
            assert!(objective.contains("postgres"));
        }
        other => panic!("{other:?}"),
    }
    match request("pause", "deep-research").unwrap() {
        WorkflowRequest::Manage { op, target } => {
            assert_eq!(op, "pause");
            assert_eq!(target, "deep-research");
        }
        other => panic!("{other:?}"),
    }
}

#[test]
fn workflow_requests_cover_every_shape() {
    assert_eq!(request("  ", "x").unwrap_err(), "workflow name is required");
    match request("run-1", " stop ").unwrap() {
        WorkflowRequest::Manage { op, target } => assert_eq!((op.as_str(), target.as_str()), ("stop", "run-1")),
        other => panic!("{other:?}"),
    }
    match request("flow", r#"{"objective": "ship it", "n": 2}"#).unwrap() {
        WorkflowRequest::Launch { objective, args, .. } => {
            assert_eq!(objective, "ship it");
            assert!(matches!(args, Json::Object(ref m) if m.len() == 2));
        }
        other => panic!("{other:?}"),
    }
    match request("flow", "").unwrap() {
        WorkflowRequest::Launch { objective, args, .. } => {
            assert_eq!(objective, "flow");
            assert!(matches!(args, Json::Object(ref m) if m.is_empty()));
        }
        other => panic!("{other:?}"),
    }
}

#[test]
fn workflow_outcomes_render() {
    let done = WorkflowOutcome::Completed { result: parse(r#"{"ok": true}"#) };
    assert_eq!(format_outcome_for_tool("r1", &done), "Workflow run `r1` completed.\n\n{\n  \"ok\": true\n}");
    let failed = WorkflowOutcome::Failed { error: "boom".into() };
    assert_eq!(format_outcome_for_tool("r1", &failed), "Workflow run `r1` failed: boom");
    assert_eq!(text_at(&outcome_to_json(&failed), &["status"]), Some("failed"));
    assert_eq!(text_at(&outcome_to_json(&WorkflowOutcome::Cancelled), &["status"]), Some("cancelled"));
}

fn control() -> GoalControl {
    GoalControl {
        goal_id: "g1".into(),
        objective: "done".into(),
        status: "active".into(),
        phase: "executing".into(),
        token_budget: None,
        token_baseline: 0,
        tokens_used: 10,
        created_at: "t".into(),
        pause_message: None,
        last_event: None,
        last_event_detail: None,
    }
}

#[test]
fn load_and_notify() {
    let mut host = GoalHost::new("/tmp/goal.json".into());
    let c = control();
    host.apply_control(control());
    assert!(c.is_active());
    let payload = host.notification_payload("sess", &c);
    assert_eq!(text_at(&payload, &["update", "sessionUpdate"]), Some("goal_updated"));
    assert_eq!(text_at(&payload, &["update", "goal_id"]), Some("g1"));
    assert_eq!(text_at(&payload, &["update", "status"]), Some("active"));
}

#[test]
fn goal_notification_carries_the_elapsed_time() {
    let payload = goal_notification_at("sess", &control(), 1234);
    match payload.get("update").and_then(|u| u.get("elapsed_ms")) {
        Some(Json::Number(n)) => assert_eq!(n.as_u64, Some(1234)),
        other => panic!("{other:?}"),
    }
    assert!(matches!(payload.get("update").and_then(|u| u.get("token_budget")), Some(Json::Null)));
}

fn lines(text: &str) -> Vec<Option<Json>> {
    text.lines()
        .map(|line| serde_json::from_str::<serde_json::Value>(line).ok().map(|v| to_json(&v)))
        .collect()
}

#[test]
fn session_file_metadata() {
    let file = [
        r#"{"type":"session","id":"session-1","timestamp":"2026-07-01T00:00:00.000Z","cwd":"/repo"}"#,
        r#"{"type":"message","id":"1","message":{"role":"user","content":"hello","timestamp":17}}"#,
        r#"{"type":"session_info","id":"2","name":" Named session "}"#,
    ]
    .join("\n");
    let s = parse_session_file("/s/a.jsonl", &lines(&file)).unwrap();
    assert_eq!(s.id, "session-1");
    assert_eq!(s.cwd, "/repo");
    assert_eq!(s.name.as_deref(), Some("Named session"));
    assert_eq!(s.message_count, 1);
    assert_eq!(s.first_message, "hello");
    assert_eq!(s.modified_at, "17");
    assert!(parse_session_file("/s/b.jsonl", &lines("not json\n")).is_none());
    assert!(parse_session_file("/s/c.jsonl", &lines("{\"type\":\"message\"}\n")).is_none());
    let empty = parse_session_file("/s/d.jsonl", &lines("{\"type\":\"session\",\"id\":\"x\",\"timestamp\":\"t0\"}\n")).unwrap();
    assert_eq!(empty.first_message, "(no messages)");
    assert_eq!(empty.modified_at, "t0");
}

fn session(id: &str, cwd: &str, modified: &str) -> PiSessionInfo {
    PiSessionInfo {
        path: format!("/s/{id}.jsonl"),
        id: id.into(),
        cwd: cwd.into(),
        name: None,
        created_at: "c".into(),
        modified_at: modified.into(),
        message_count: 0,
        first_message: "(no messages)".into(),
    }
}

#[test]
fn sessions_sort_newest_first_and_filter_by_cwd() {
    let all = vec![session("a", "/x", "1"), session("b", "/y", "3"), session("c", "/x", "2"), session("d", "/x", "3")];
    let sorted: Vec<String> = sort_sessions_by_modified(&all).into_iter().map(|s| s.id).collect();
    assert_eq!(sorted, vec!["b", "d", "c", "a"]);
    let here: Vec<String> = filter_sessions_by_cwd(&all, "/x").into_iter().map(|s| s.id).collect();
    assert_eq!(here, vec!["a", "c", "d"]);
}

#[test]
fn json_text_for_display() {
    assert_eq!(json_text(&parse("null")), "");
    assert_eq!(json_text(&parse("\"plain\"")), "plain");
    assert_eq!(json_text(&parse("[1]")), "[\n  1\n]");
}
