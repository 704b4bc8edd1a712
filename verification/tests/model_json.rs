use pi_grok_adapter::json::{Json, JsonNumber};
use pi_grok_adapter::model::{
    extract_delta, parse_commands, parse_messages, parse_model, parse_models, parse_session_switch,
    parse_state, PiHistoryItem, PiSessionSwitch, PiToolContent,
};

fn to_json(v: &serde_json::Value) -> Json {
    match v {
        serde_json::Value::Null => Json::Null,
        serde_json::Value::Bool(b) => Json::Bool(*b),
        serde_json::Value::Number(n) => Json::Number(JsonNumber {
            as_u64: n.as_u64(),
            as_i64: n.as_i64(),
            rounded: match (n.as_u64(), n.as_i64(), n.as_f64()) {
                (Some(u), _, _) => Some(u),
                (None, Some(_), _) => None,
                (None, None, Some(f)) if f >= 0.0 => Some(f.round() as u64),
                _ => None,
            },
            text: n.to_string(),
        }),
        serde_json::Value::String(s) => Json::Str(s.clone()),
        serde_json::Value::Array(items) => Json::Array(items.iter().map(to_json).collect()),
        serde_json::Value::Object(map) => {
            Json::Object(map.iter().map(|(k, v)| (k.clone(), to_json(v))).collect())
        }
    }
}

fn parse(text: &str) -> Json {
    to_json(&serde_json::from_str::<serde_json::Value>(text).expect("valid JSON"))
}

#[test]
fn history_preserves_reasoning_tools_and_results() {
    let items = parse_messages(&parse(
        r#"{
        "messages": [
            { "role": "user", "content": "hello" },
            { "role": "assistant", "content": [
                { "type": "thinking", "thinking": "plan" },
                { "type": "toolCall", "id": "tool-1", "name": "read", "arguments": { "path": "README.md" } },
                { "type": "text", "text": "done" } ] },
            { "role": "toolResult", "toolCallId": "tool-1", "toolName": "read",
              "content": [{ "type": "text", "text": "file" }], "isError": false }
        ]
    }"#,
    ));
    assert!(matches!(items[0], PiHistoryItem::UserText(ref text) if text == "hello"));
    assert!(matches!(items[1], PiHistoryItem::AgentThought(ref text) if text == "plan"));
    assert!(matches!(items[2], PiHistoryItem::ToolStart { ref id, .. } if id == "tool-1"));
    assert!(matches!(items[3], PiHistoryItem::AgentText(ref text) if text == "done"));
    assert!(matches!(items[4], PiHistoryItem::ToolEnd { ref id, .. } if id == "tool-1"));
}

#[test]
fn parses_cancelled_session_switch_without_state_mutation_signal() {
    assert_eq!(parse_session_switch(&parse(r#"{ "cancelled": true }"#)), PiSessionSwitch { cancelled: true });
    assert_eq!(parse_session_switch(&parse(r#"{ "cancelled": false }"#)), PiSessionSwitch { cancelled: false });
}

#[test]
fn assistant_errors_are_preserved_without_content() {
    let items = parse_messages(&parse(
        r#"{ "messages": [{ "role": "assistant", "errorMessage": "request failed" }] }"#,
    ));
    assert!(matches!(items.as_slice(), [PiHistoryItem::AgentText(text)] if text == "**Pi error:** request failed"));
}

#[test]
fn delta_parser_ignores_toolcall_stream_fragments() {
    assert_eq!(
        extract_delta(&parse(r#"{ "assistantMessageEvent": { "type": "toolcall_delta", "delta": "{\"path\":" } }"#)),
        (String::new(), String::new())
    );
}

#[test]
fn delta_parser_splits_text_and_thinking() {
    assert_eq!(
        extract_delta(&parse(r#"{ "assistantMessageEvent": { "type": "text_delta", "delta": "hi" } }"#)),
        ("hi".to_string(), String::new())
    );
    assert_eq!(
        extract_delta(&parse(r#"{ "messageEvent": { "kind": "Thinking_Delta", "textDelta": "hmm" } }"#)),
        (String::new(), "hmm".to_string())
    );
}

#[test]
fn bash_runs_become_tool_start_and_end() {
    let items = parse_messages(&parse(
        r#"[ { "role": "bashExecution", "command": "ls", "output": "a", "exitCode": 2 } ]"#,
    ));
    assert_eq!(items.len(), 2);
    match &items[0] {
        PiHistoryItem::ToolStart { id, name, arguments } => {
            assert_eq!(id, "pi-history-bash-0");
            assert_eq!(name, "bash");
            assert!(matches!(arguments, Some(Json::Object(m)) if m.len() == 1 && m[0].0 == "command"));
        }
        other => panic!("unexpected {other:?}"),
    }
    match &items[1] {
        PiHistoryItem::ToolEnd { content, is_error, .. } => {
            assert!(*is_error);
            assert!(matches!(content.as_slice(), [PiToolContent::Text(t)] if t == "a\n\nCommand exited with code 2"));
        }
        other => panic!("unexpected {other:?}"),
    }
}

#[test]
fn summaries_and_hidden_custom_messages() {
    let items = parse_messages(&parse(
        r#"{ "history": [
            { "role": "compactionSummary", "summary": "short" },
            { "role": "custom", "display": false, "content": "hidden" },
            { "message": { "role": "custom", "content": "shown" } },
            { "role": "assistant", "content": [ { "type": "tool_call" } ] }
        ] }"#,
    ));
    assert!(matches!(items[0], PiHistoryItem::AgentText(ref t) if t == "**Compaction summary**\n\nshort"));
    assert!(matches!(items[1], PiHistoryItem::AgentText(ref t) if t == "shown"));
    assert!(matches!(items[2], PiHistoryItem::ToolStart { ref id, ref name, .. } if id == "pi-history-tool-3-0" && name == "Tool"));
    assert_eq!(items.len(), 3);
}

#[test]
fn state_reads_defaults() {
    let s = parse_state(&parse(r#"{ "model": { "id": "m1", "provider": "p" }, "isStreaming": true }"#));
    assert_eq!(s.session_id, "pi-session");
    assert_eq!(s.thinking_level, "medium");
    assert!(s.is_streaming);
    let m = s.model.unwrap();
    assert_eq!(m.label, "p/m1");
    assert_eq!(m.thinking_levels, vec!["off".to_string()]);
}

#[test]
fn model_levels_follow_the_thinking_level_map() {
    let m = parse_model(&parse(
        r#"{ "modelId": "x", "reasoning": true, "contextWindow": 1000,
             "thinkingLevelMap": { "minimal": null, "max": "max" }, "inputModalities": ["text", "image"] }"#,
    ))
    .unwrap();
    assert_eq!(m.thinking_levels, vec!["off", "low", "medium", "high", "max"]);
    assert_eq!(m.context_window, Some(1000));
    assert!(m.accepts_images);
    assert_eq!(m.label, "x");
    assert!(parse_model(&parse(r#"{ "name": "no id" }"#)).is_none());
}

#[test]
fn models_are_sorted_by_label_and_deduplicated() {
    let models = parse_models(&parse(
        r#"{ "models": { "zeta": ["b-model", "a-model"], "other": { "id": "a-model", "provider": "zeta", "name": "zeta/a-model" } } }"#,
    ));
    let labels: Vec<&str> = models.iter().map(|m| m.label.as_str()).collect();
    assert_eq!(labels, vec!["zeta/a-model", "zeta/b-model"]);
    assert_eq!(models[0].provider, "zeta");
}

#[test]
fn commands_are_sorted_and_deduplicated_by_name() {
    let commands = parse_commands(&parse(
        r#"{ "commands": [
            { "name": "/review", "description": "Review changes", "source": "extension" },
            { "command": "brief", "help": "Brief", "origin": "prompt" },
            { "id": "review", "title": "Duplicate" },
            { "description": "no name" }
        ] }"#,
    ));
    let names: Vec<&str> = commands.iter().map(|c| c.name.as_str()).collect();
    assert_eq!(names, vec!["brief", "review"]);
    assert_eq!(commands[1].description, "Review changes");
    assert_eq!(commands[0].source, "prompt");
}

#[test]
fn arrays_expose_their_items() {
    let v = parse(r#"[1, "a"]"#);
    assert_eq!(v.as_array().map(|a| a.len()), Some(2));
    assert!(parse(r#"{"a": 1}"#).as_array().is_none());
}
