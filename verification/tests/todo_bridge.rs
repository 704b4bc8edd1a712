use pi_grok_adapter::json::{Json, JsonNumber};
use pi_grok_adapter::todo_bridge::{plan_update_for_tool, PlanEntryStatus};

fn to_json(v: &serde_json::Value) -> Json {
    match v {
        serde_json::Value::Null => Json::Null,
        serde_json::Value::Bool(b) => Json::Bool(*b),
        serde_json::Value::Number(n) => Json::Number(JsonNumber {
            as_u64: n.as_u64(),
            as_i64: n.as_i64(),
            rounded: match (n.as_u64(), n.as_i64(), n.as_f64()) {
                (Some(u), _, _) => Some(u),
                (None, Some(_), _) => None,
                (None, None, Some(f)) if f >= 0.0 => Some(f.round() as u64),
                _ => None,
            },
            text: n.to_string(),
        }),
        serde_json::Value::String(s) => Json::Str(s.clone()),
        serde_json::Value::Array(items) => Json::Array(items.iter().map(to_json).collect()),
        serde_json::Value::Object(map) => {
            Json::Object(map.iter().map(|(k, v)| (k.clone(), to_json(v))).collect())
        }
    }
}

fn parse(text: &str) -> Json {
    to_json(&serde_json::from_str::<serde_json::Value>(text).expect("valid JSON"))
}

const SAMPLE_TASKS: &str = r#"[
    { "id": 1, "subject": "Wire adapter", "status": "completed" },
    { "id": 2, "subject": "Ship tests", "status": "in_progress", "activeForm": "writing tests" },
    { "id": 3, "subject": "Polish docs", "status": "pending" },
    { "id": 4, "subject": "Gone", "status": "deleted" }
]"#;

fn meta_value<'a>(meta: &'a Option<Vec<(String, Json)>>, key: &str) -> Option<&'a Json> {
    meta.as_ref().and_then(|m| m.iter().find(|(k, _)| k == key).map(|(_, v)| v))
}

#[test]
fn rpiv_live_envelope_projects_plan_and_drops_deleted() {
    let result = parse(&format!(
        r#"{{ "content": [{{ "type": "text", "text": "Updated #2" }}],
              "details": {{ "action": "update", "params": {{}}, "tasks": {SAMPLE_TASKS}, "nextId": 5 }} }}"#
    ));
    let plan = plan_update_for_tool("todo", &result, false).expect("plan");
    assert_eq!(plan.len(), 3);
    assert_eq!(plan[0].content, "Wire adapter");
    assert_eq!(plan[0].status, PlanEntryStatus::Completed);
    assert_eq!(plan[1].status, PlanEntryStatus::InProgress);
    assert_eq!(plan[2].status, PlanEntryStatus::Pending);
    assert!(matches!(meta_value(&plan[1].meta, "activeForm"), Some(Json::Str(s)) if s == "writing tests"));
    assert!(matches!(meta_value(&plan[0].meta, "rpivId"), Some(Json::Number(n)) if n.as_i64 == Some(1)));
}

#[test]
fn rpiv_history_details_shape_also_projects() {
    let details = parse(&format!(r#"{{ "action": "list", "params": {{}}, "tasks": {SAMPLE_TASKS}, "nextId": 5 }}"#));
    let plan = plan_update_for_tool("todo", &details, false).expect("plan");
    assert_eq!(plan.len(), 3);
}

#[test]
fn clear_emits_empty_plan() {
    let result = parse(
        r#"{ "content": [{ "type": "text", "text": "Cleared 2 tasks" }],
             "details": { "action": "clear", "params": {}, "tasks": [], "nextId": 1 } }"#,
    );
    let plan = plan_update_for_tool("todo", &result, false).expect("plan");
    assert!(plan.is_empty());
}

#[test]
fn error_flag_or_details_error_skips_refresh() {
    let result = parse(&format!(
        r#"{{ "content": [{{ "type": "text", "text": "Error: bad" }}],
              "details": {{ "action": "update", "params": {{}}, "tasks": {SAMPLE_TASKS}, "nextId": 5,
                           "error": "invalid transition" }} }}"#
    ));
    assert!(plan_update_for_tool("todo", &result, false).is_none());
    let ok = parse(&format!(r#"{{ "details": {{ "tasks": {SAMPLE_TASKS} }} }}"#));
    assert!(plan_update_for_tool("todo", &ok, true).is_none());
}

#[test]
fn non_todo_tools_are_ignored() {
    let result = parse(&format!(r#"{{ "details": {{ "tasks": {SAMPLE_TASKS} }} }}"#));
    assert!(plan_update_for_tool("bash", &result, false).is_none());
    assert!(plan_update_for_tool("TodoWrite", &result, false).is_none());
}

#[test]
fn task_extras_and_blank_subjects() {
    let result = parse(
        r#"{ "details": { "error": null, "tasks": [
            { "subject": "  ", "status": "pending" },
            { "subject": " Plan ", "owner": " ann ", "blockedBy": [1, 2] }
        ] } }"#,
    );
    let plan = plan_update_for_tool("todo", &result, false).expect("plan");
    assert_eq!(plan.len(), 1);
    assert_eq!(plan[0].content, "Plan");
    assert_eq!(plan[0].status, PlanEntryStatus::Pending);
    assert!(matches!(meta_value(&plan[0].meta, "owner"), Some(Json::Str(s)) if s == "ann"));
    assert!(matches!(meta_value(&plan[0].meta, "blockedBy"), Some(Json::Array(v)) if v.len() == 2));
    assert!(meta_value(&plan[0].meta, "rpivId").is_none());
}
