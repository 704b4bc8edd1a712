use pi_grok_adapter::json::{to_compact_string, Json, JsonNumber};
use pi_grok_adapter::pi_rpc::{invalid_json_event, needs_deep_parse, prepare_request, request_id, response_id, response_result, SpawnConfig};

fn to_json(v: &serde_json::Value) -> Json {
    match v {
        serde_json::Value::Null => Json::Null,
        serde_json::Value::Bool(b) => Json::Bool(*b),
        serde_json::Value::Number(n) => Json::Number(JsonNumber {
            as_u64: n.as_u64(),
            as_i64: n.as_i64(),
            rounded: match (n.as_u64(), n.as_i64(), n.as_f64()) {
                (Some(u), _, _) => Some(u),
                (None, Some(_), _) => None,
                (None, None, Some(f)) if f >= 0.0 => Some(f.round() as u64),
                _ => None,
            },
            text: n.to_string(),
        }),
        serde_json::Value::String(s) => Json::Str(s.clone()),
        serde_json::Value::Array(items) => Json::Array(items.iter().map(to_json).collect()),
        serde_json::Value::Object(map) => {
            Json::Object(map.iter().map(|(k, v)| (k.clone(), to_json(v))).collect())
        }
    }
}

fn parse(text: &str) -> Json {
    to_json(&serde_json::from_str::<serde_json::Value>(text).expect("valid JSON"))
}

#[test]
fn pi_starts_in_rpc_mode_between_prefix_and_arguments() {
    let config = SpawnConfig {
        program: "node".into(),
        prefix_args: vec!["cli.js".into()],
        cwd: "/repo".into(),
        pi_args: vec!["--continue".into(), "--model".into(), "m".into()],
        env: Vec::new(),
    };
    assert_eq!(config.command_args(), vec!["cli.js", "--mode", "rpc", "--continue", "--model", "m"]);
}

#[test]
fn requests_are_stamped_with_their_id() {
    assert_eq!(request_id(7), "pi-grok-7");
    let stamped = prepare_request(&parse(r#"{"type":"get_state"}"#), 3).unwrap();
    assert_eq!(to_compact_string(&stamped), r#"{"type":"get_state","id":"pi-grok-3"}"#);
    let replaced = prepare_request(&parse(r#"{"id":"old","type":"bash"}"#), 4).unwrap();
    assert_eq!(to_compact_string(&replaced), r#"{"id":"pi-grok-4","type":"bash"}"#);
    assert_eq!(prepare_request(&parse(r#"{"cmd":"x"}"#), 1).unwrap_err(), "Pi RPC command is missing its type");
    assert_eq!(prepare_request(&parse(r#"["type"]"#), 1).unwrap_err(), "Pi RPC command is missing its type");
}

#[test]
fn responses_are_matched_and_unwrapped() {
    assert_eq!(response_id(&parse(r#"{"type":"response","id":"pi-grok-1"}"#)), Some("pi-grok-1".to_string()));
    assert_eq!(response_id(&parse(r#"{"type":"agent_start","id":"pi-grok-1"}"#)), None);
    let ok = response_result(&parse(r#"{"type":"response","success":true,"data":{"a":1}}"#)).unwrap();
    assert_eq!(to_compact_string(&ok), r#"{"a":1}"#);
    assert!(matches!(response_result(&parse(r#"{"type":"response"}"#)), Ok(Json::Null)));
    assert_eq!(response_result(&parse(r#"{"success":false,"error":"nope"}"#)).unwrap_err(), "nope");
    assert_eq!(response_result(&parse(r#"{"success":false}"#)).unwrap_err(), "Pi RPC command failed");
}

#[test]
fn deep_parser_takes_large_or_deeply_nested_lines() {
    assert!(needs_deep_parse(70_000, "EOF while parsing"));
    assert!(needs_deep_parse(10, "recursion limit exceeded at line 1 column 200"));
    assert!(!needs_deep_parse(10, "expected value"));
}

#[test]
fn invalid_output_lines_become_diagnostics() {
    assert_eq!(
        to_compact_string(&invalid_json_event(12, "expected value at line 1 column 1")),
        r#"{"type":"adapter_diagnostic","message":"Invalid Pi RPC JSON (12 bytes): expected value at line 1 column 1"}"#
    );
}
