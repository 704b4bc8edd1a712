use pi_grok_adapter::context::{
    build_session_info_response, context_tokens_from_stats, context_tokens_from_usage,
    context_window_from_stats, estimate_entries_tokens, estimate_message_tokens, parse_context_breakdown,
    percent_from_stats, session_info_json, ContextBreakdownRaw, ContextFileRaw,
};
use pi_grok_adapter::json::{to_compact_string, Json, JsonNumber};
use pi_grok_adapter::model::PiModel;

fn to_json(v: &serde_json::Value) -> Json {
    match v {
        serde_json::Value::Null => Json::Null,
        serde_json::Value::Bool(b) => Json::Bool(*b),
        serde_json::Value::Number(n) => Json::Number(JsonNumber {
            as_u64: n.as_u64(),
            as_i64: n.as_i64(),
            rounded: match (n.as_u64(), n.as_i64(), n.as_f64()) {
                (Some(u), _, _) => Some(u),
                (None, Some(_), _) => None,
                (None, None, Some(f)) if f >= 0.0 => Some(f.round() as u64),
                _ => None,
            },
            text: n.to_string(),
        }),
        serde_json::Value::String(s) => Json::Str(s.clone()),
        serde_json::Value::Array(items) => Json::Array(items.iter().map(to_json).collect()),
        serde_json::Value::Object(map) => {
            Json::Object(map.iter().map(|(k, v)| (k.clone(), to_json(v))).collect())
        }
    }
}

fn parse(text: &str) -> Json {
    to_json(&serde_json::from_str::<serde_json::Value>(text).expect("valid JSON"))
}

#[test]
fn context_tokens_prefer_session_stats_and_usage_total() {
    assert_eq!(
        context_tokens_from_stats(&parse(
            r#"{ "contextUsage": { "tokens": 60000, "contextWindow": 200000, "percent": 30.0 } }"#
        )),
        Some(60_000)
    );
    assert_eq!(
        context_tokens_from_stats(&parse(
            r#"{ "contextUsage": { "tokens": null, "contextWindow": 200000, "percent": null } }"#
        )),
        None
    );
    assert_eq!(
        context_tokens_from_usage(&parse(r#"{ "totalTokens": 12345, "input": 1, "output": 2 }"#)),
        Some(12_345)
    );
    assert_eq!(
        context_tokens_from_usage(&parse(r#"{ "input": 100, "output": 50, "cacheRead": 20, "cacheWrite": 5 }"#)),
        Some(175)
    );
}

#[test]
fn stats_window_and_percent_are_rounded() {
    let stats = parse(r#"{ "contextUsage": { "tokens": 10.6, "context_window": 2000.4, "percent": 150.2 } }"#);
    assert_eq!(context_tokens_from_stats(&stats), Some(11));
    assert_eq!(context_window_from_stats(&stats), Some(2000));
    assert_eq!(percent_from_stats(&stats), Some(100));
    assert_eq!(percent_from_stats(&parse(r#"{ "contextUsage": { "percent": -4 } }"#)), Some(0));
    assert_eq!(context_tokens_from_usage(&parse(r#"{ "totalTokens": 0 }"#)), None);
}

fn test_model() -> PiModel {
    PiModel {
        provider: "openai".into(),
        id: "gpt-test".into(),
        label: "GPT Test".into(),
        context_window: Some(200_000),
        reasoning: false,
        accepts_images: false,
        thinking_levels: vec!["off".into()],
    }
}

#[test]
fn session_info_maps_pi_stats_into_native_context_shape() {
    let model = test_model();
    let stats = parse(
        r#"{ "sessionId": "sess-1", "userMessages": 3, "assistantMessages": 2, "toolCalls": 4,
             "toolResults": 4, "totalMessages": 9,
             "contextUsage": { "tokens": 10000, "contextWindow": 200000, "percent": 5.0 } }"#,
    );
    let messages = parse(
        r#"{ "messages": [
            { "role": "user", "content": "hello world" },
            { "role": "assistant", "content": [
                { "type": "text", "text": "thinking out loud" },
                { "type": "toolCall", "id": "t1", "name": "read", "arguments": { "path": "a.rs" } } ] },
            { "role": "toolResult", "toolCallId": "t1", "content": [{ "type": "text", "text": "fn main() {}" }] }
        ] }"#,
    );
    let response = build_session_info_response(&stats, Some(&messages), "sess-1", "/repo", Some(&model), None, None);
    assert_eq!(response.session_id, "sess-1");
    assert_eq!(response.cwd, "/repo");
    assert_eq!(response.model.as_deref(), Some("gpt-test"));
    assert_eq!(response.model_display_name.as_deref(), Some("GPT Test"));
    assert_eq!(response.turns, 3);
    assert_eq!(response.agent_name, "pi");
    assert!(!response.show_model_fingerprint);
    assert_eq!(response.turn_count, 3);
    assert_eq!(response.turn_index, 2);
    assert_eq!(response.context.auto_compact_threshold_percent, 85);
    assert!(to_compact_string(&session_info_json(&response)).ends_with(r#"]},"model":"gpt-test","modelDisplayName":"GPT Test"}"#));
    assert_eq!(response.context.used, 10_000);
    assert_eq!(response.context.total, 200_000);
    assert_eq!(response.context.free_tokens, 190_000);
    assert_eq!(response.context.usage_pct, 5);
    assert_eq!(response.tool_call_count, 4);
    assert_eq!(response.message_count, 9);
    assert!(response.context.message_tokens > 0);
    assert!(response.context.message_tokens <= 10_000);
    assert_eq!(response.context.system_prompt_tokens, 0);
    assert_eq!(response.context.tool_definitions_tokens, 0);
}

#[test]
fn session_info_scales_system_and_tool_breakdown() {
    let stats = parse(
        r#"{ "userMessages": 1, "toolCalls": 0, "totalMessages": 2,
             "contextUsage": { "tokens": 10000, "contextWindow": 100000, "percent": 10.0 } }"#,
    );
    let messages = parse(
        r#"{ "messages": [ { "role": "user", "content": "hello world" }, { "role": "assistant", "content": "hi" } ] }"#,
    );
    let breakdown = ContextBreakdownRaw {
        system_prompt_tokens_raw: 4_000,
        tool_definitions_count: 5,
        tool_definitions_tokens_raw: 1_000,
        append_tokens_raw: 100,
        context_files: vec![ContextFileRaw { path: "/repo/AGENTS.md".into(), tokens_raw: 400 }],
        skills_count: 2,
        skills_tokens_raw: 200,
    };
    let response =
        build_session_info_response(&stats, Some(&messages), "sess-3", "/repo", None, None, Some(&breakdown));
    let system = response.context.system_prompt_tokens;
    let tools = response.context.tool_definitions_tokens;
    let messages_tokens = response.context.message_tokens;
    assert!(system > 0);
    assert!(tools > 0);
    assert!(messages_tokens > 0);
    assert_eq!(response.context.tool_definitions_count, 5);
    assert!(system + messages_tokens <= 10_000);
    let categories = &response.context.usage_categories;
    assert!(categories.iter().any(|row| row.label == "Append system prompt"));
    assert!(categories.iter().any(|row| row.label == "AGENTS.md"));
    assert!(categories.iter().any(|row| row.label == "Skills"));
}

#[test]
fn session_info_falls_back_to_cached_tokens_when_stats_null() {
    let stats = parse(
        r#"{ "userMessages": 1, "toolCalls": 0, "totalMessages": 1,
             "contextUsage": { "tokens": null, "contextWindow": 100000, "percent": null } }"#,
    );
    let response = build_session_info_response(&stats, None, "sess-2", "/tmp", None, Some(42_000), None);
    assert_eq!(response.context.used, 42_000);
    assert_eq!(response.context.total, 100_000);
    assert_eq!(response.context.free_tokens, 58_000);
    assert_eq!(response.context.message_tokens, 42_000);
    assert!(response.model.is_none());
}

#[test]
fn entries_payload_projects_message_roles() {
    let entries = parse(
        r#"{ "entries": [
            { "type": "message", "message": { "role": "user", "content": "hi there" } },
            { "type": "message", "message": { "role": "assistant", "content": [{ "type": "text", "text": "hello" }] } }
        ] }"#,
    );
    let estimate = estimate_entries_tokens(&entries);
    assert!(estimate.messages > 0);
    assert_eq!(estimate.messages, 2 + 2);
}

#[test]
fn message_estimate_counts_categories() {
    let e = estimate_message_tokens(&parse(
        r#"[ { "role": "bashExecution", "command": "ls -la", "output": "abcdefgh" },
             { "role": "compactionSummary", "summary": "abcd" },
             { "role": "assistant", "content": [ { "type": "tool-call", "name": "abcd" } ] },
             { "role": "system", "content": "ignored" } ]"#,
    ));
    assert_eq!(e.tool_payload, 2 + 2 + 3 + 1);
    assert_eq!(e.messages, 1);
    assert_eq!(e.compaction_count, 1);
}

#[test]
fn breakdown_file_is_read_with_defaults() {
    let b = parse_context_breakdown(&parse(
        r#"{ "systemPromptTokensRaw": 10, "tool_definitions_count": 3,
             "contextFiles": [ { "path": "/a/AGENTS.md", "tokensRaw": 7 }, { "tokens_raw": 2 } ] }"#,
    ));
    assert_eq!(b.system_prompt_tokens_raw, 10);
    assert_eq!(b.tool_definitions_count, 3);
    assert_eq!(b.skills_count, 0);
    assert_eq!(b.context_files.len(), 2);
    assert_eq!(b.context_files[1].path, "");
    assert_eq!(b.context_files[1].tokens_raw, 2);
}

#[test]
fn session_info_wire_shape() {
    let stats = parse(
        r#"{ "userMessages": 1, "toolCalls": 0, "totalMessages": 1,
             "contextUsage": { "tokens": null, "contextWindow": 100000, "percent": null } }"#,
    );
    let response = build_session_info_response(&stats, None, "sess-2", "/tmp", None, Some(42_000), None);
    let text = to_compact_string(&session_info_json(&response));
    let expected = format!(
        "{}{}{}{}",
        r#"{"sessionId":"sess-2","cwd":"/tmp","agentName":"pi","showModelFingerprint":false,"turns":1,"turnIndex":0,"#,
        r#""context":{"used":42000,"total":100000,"systemPromptTokens":0,"toolDefinitionsCount":0,"#,
        r#""toolDefinitionsTokens":0,"compactionCount":0,"turnCount":1,"toolCallCount":0,"messageCount":1,"#,
        format!(
            r#""messageTokens":42000,"freeTokens":58000,"usagePct":{},"autoCompactThresholdPercent":85,"usageCategories":[]}}}}"#,
            response.context.usage_pct
        ),
    );
    assert_eq!(text, expected);
    assert!(!text.contains("\"model\""));
}
