use pi_grok_adapter::ext_requests::{parse_ext_request, ExtRefusal, ExtRequest};
use pi_grok_adapter::json::{Json, JsonNumber};

fn to_json(v: &serde_json::Value) -> Json {
    match v {
        serde_json::Value::Null => Json::Null,
        serde_json::Value::Bool(b) => Json::Bool(*b),
        serde_json::Value::Number(n) => Json::Number(JsonNumber {
            as_u64: n.as_u64(),
            as_i64: n.as_i64(),
            rounded: match (n.as_u64(), n.as_i64(), n.as_f64()) {
                (Some(u), _, _) => Some(u),
                (None, Some(_), _) => None,
                (None, None, Some(f)) if f >= 0.0 => Some(f.round() as u64),
                _ => None,
            },
            text: n.to_string(),
        }),
        serde_json::Value::String(s) => Json::Str(s.clone()),
        serde_json::Value::Array(items) => Json::Array(items.iter().map(to_json).collect()),
        serde_json::Value::Object(map) => {
            Json::Object(map.iter().map(|(k, v)| (k.clone(), to_json(v))).collect())
        }
    }
}

fn parse(text: &str) -> Json {
    to_json(&serde_json::from_str::<serde_json::Value>(text).expect("valid JSON"))
}

#[test]
fn tree_requests_need_an_entry() {
    let r = parse_ext_request("pi/session/fork", &parse(r#"{"id": "  e7 "}"#)).unwrap();
    assert!(matches!(r, ExtRequest::Fork { entry_id } if entry_id == "e7"));
    let e = parse_ext_request("pi/session/rollback_execute", &parse(r#"{"entryId": "   "}"#)).unwrap_err();
    assert!(matches!(e, ExtRefusal::InvalidParams(m) if m == "entryId is required"));
    let r = parse_ext_request("pi/session/tree_label", &parse(r#"{"targetId": "x", "clear": true, "label": "L"}"#)).unwrap();
    assert!(matches!(r, ExtRequest::TreeLabel { entry_id, label: None } if entry_id == "x"));
    let r = parse_ext_request("pi/session/navigate_tree", &parse(r#"{"entryId": "x", "summarize": true, "instructions": "short"}"#)).unwrap();
    assert!(matches!(r, ExtRequest::NavigateTree { summarize: true, custom_instructions: Some(c), .. } if c == "short"));
}

#[test]
fn session_and_queue_requests() {
    let r = parse_ext_request("pi/session/search", &parse(r#"{"query": "  resume  ", "cwd": " "}"#)).unwrap();
    assert!(matches!(r, ExtRequest::SessionSearch { query, cwd: None, limit: 20 } if query == "resume"));
    let r = parse_ext_request("pi/session/list", &parse(r#"{"scope": "all", "usePsmIndex": true, "cwd": "/repo"}"#)).unwrap();
    assert!(matches!(r, ExtRequest::SessionList { cwd: Some(c), all: true, use_psm_index: true } if c == "/repo"));
    let r = parse_ext_request("pi/queue/mode", &parse(r#"{"mode": " all ", "steering": true}"#)).unwrap();
    assert!(matches!(r, ExtRequest::QueueMode { mode, steering: true } if mode == "all"));
    let e = parse_ext_request("pi/queue/mode", &parse(r#"{"mode": "some"}"#)).unwrap_err();
    assert!(matches!(e, ExtRefusal::InvalidParams(m) if m == "mode must be 'all' or 'one-at-a-time'"));
    let r = parse_ext_request("x.ai/compact_conversation", &parse(r#"{"context": "keep tests"}"#)).unwrap();
    assert!(matches!(r, ExtRequest::Compact { custom_instructions: Some(c) } if c == "keep tests"));
}

#[test]
fn workflow_requests_and_unknown_methods() {
    let r = parse_ext_request("x.ai/workflow/launch", &parse(r#"{"workflow": " review ", "input": "src"}"#)).unwrap();
    assert!(matches!(r, ExtRequest::WorkflowLaunch { name, args } if name == "review" && args == "src"));
    let e = parse_ext_request("x.ai/session/rename", &parse(r#"{"title": ""}"#)).unwrap_err();
    assert!(matches!(e, ExtRefusal::InvalidParams(m) if m == "session title is empty"));
    let e = parse_ext_request("x.ai/nope", &parse("{}")).unwrap_err();
    assert!(matches!(e, ExtRefusal::MethodNotFound(m) if m == "Method not found: x.ai/nope"));
    assert!(matches!(parse_ext_request("x.ai/session/info", &parse("{}")).unwrap(), ExtRequest::SessionInfo));
}
