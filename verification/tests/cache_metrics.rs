use pi_grok_adapter::cache_metrics::{
    cache_hit_fraction, collect_cache_session_metrics, estimate_tokens_value, json_u64, text_number,
};
use pi_grok_adapter::json::{Json, JsonNumber};

fn to_json(v: &serde_json::Value) -> Json {
    match v {
        serde_json::Value::Null => Json::Null,
        serde_json::Value::Bool(b) => Json::Bool(*b),
        serde_json::Value::Number(n) => Json::Number(JsonNumber {
            as_u64: n.as_u64(),
            as_i64: n.as_i64(),
            rounded: match (n.as_u64(), n.as_i64(), n.as_f64()) {
                (Some(u), _, _) => Some(u),
                (None, Some(_), _) => None,
                (None, None, Some(f)) if f >= 0.0 => Some(f.round() as u64),
                _ => None,
            },
            text: n.to_string(),
        }),
        serde_json::Value::String(s) => Json::Str(s.clone()),
        serde_json::Value::Array(items) => Json::Array(items.iter().map(to_json).collect()),
        serde_json::Value::Object(map) => {
            Json::Object(map.iter().map(|(k, v)| (k.clone(), to_json(v))).collect())
        }
    }
}

fn parse(text: &str) -> Json {
    to_json(&serde_json::from_str::<serde_json::Value>(text).expect("valid JSON"))
}

fn hit_percent(input: u64, cache_read: u64, cache_write: u64) -> f64 {
    match cache_hit_fraction(input, cache_read, cache_write) {
        Some((n, d)) => (n as f64 / d as f64) * 100.0,
        None => 0.0,
    }
}

#[test]
fn hit_percent_matches_pi_cache_graph_formula() {
    assert!((hit_percent(50, 50, 0) - 50.0).abs() < f64::EPSILON);
    assert!((hit_percent(10, 80, 10) - 80.0).abs() < f64::EPSILON);
    assert_eq!(hit_percent(0, 0, 0), 0.0);
}

#[test]
fn collect_marks_active_branch_via_parent_chain() {
    let payload = parse(
        r#"{
        "leafId": "a2",
        "entries": [
            { "id": "u1", "parentId": null, "type": "message", "timestamp": "2026-01-01T00:00:00Z",
              "message": { "role": "user", "content": "hi" } },
            { "id": "a1", "parentId": "u1", "type": "message", "timestamp": "2026-01-01T00:00:01Z",
              "message": { "role": "assistant", "provider": "xai", "model": "grok",
                "usage": { "input": 100, "output": 10, "cacheRead": 0, "cacheWrite": 50, "totalTokens": 160 } } },
            { "id": "u2", "parentId": "a1", "type": "message", "timestamp": "2026-01-01T00:00:02Z",
              "message": { "role": "user", "content": "again" } },
            { "id": "a2", "parentId": "u2", "type": "message", "timestamp": "2026-01-01T00:00:03Z",
              "message": { "role": "assistant", "provider": "xai", "model": "grok",
                "usage": { "input": 20, "output": 5, "cacheRead": 80, "cacheWrite": 0, "totalTokens": 105 } } },
            { "id": "a_side", "parentId": "u1", "type": "message", "timestamp": "2026-01-01T00:00:04Z",
              "message": { "role": "assistant", "provider": "xai", "model": "grok",
                "usage": { "input": 5, "output": 1, "cacheRead": 0, "cacheWrite": 0, "totalTokens": 6 } } }
        ]
    }"#,
    );
    let metrics = collect_cache_session_metrics(&payload);
    let all = &metrics.all_messages;
    assert_eq!(all.len(), 3);
    assert_eq!(metrics.tree_totals.assistant_messages, 3);
    assert_eq!(metrics.active_branch_totals.assistant_messages, 2);
    let side = all.iter().find(|m| m.entry_id == "a_side").unwrap();
    assert_eq!(side.is_on_active_branch, false);
    let a2 = all.iter().find(|m| m.entry_id == "a2").unwrap();
    assert_eq!(a2.is_on_active_branch, true);
    assert!((hit_percent(a2.input, a2.cache_read, a2.cache_write) - 80.0).abs() < 0.01);
    let on: Vec<&str> = all.iter().filter(|m| m.is_on_active_branch).map(|m| m.entry_id.as_str()).collect();
    let branch: Vec<&str> = metrics.active_branch_messages.iter().map(|m| m.entry_id.as_str()).collect();
    assert_eq!(on, branch);
    assert_eq!(metrics.tree_totals.input, all.iter().map(|m| m.input).sum::<u64>());
    assert_eq!(
        metrics.active_branch_totals.cache_read,
        metrics.active_branch_messages.iter().map(|m| m.cache_read).sum::<u64>()
    );
    let (read, total) = a2.cache_hit.unwrap();
    assert_eq!(read, a2.cache_read);
    assert_eq!(total, a2.input + a2.cache_read + a2.cache_write);
    assert_eq!(metrics.estimated_count, 0);
}

#[test]
fn branch_sequences_and_totals_follow_the_leaf_chain() {
    let payload = parse(
        r#"{
        "leafId": "a2",
        "entries": [
            { "id": "a1", "parentId": null, "type": "message", "timestamp": "t1",
              "message": { "role": "assistant", "usage": { "input": 1, "output": 2 } } },
            { "id": "a_side", "parentId": "a1", "type": "MESSAGE",
              "message": { "role": "assistant", "usage": { "input": 10 }, "timestamp": 1700 } },
            { "id": "a2", "parentId": "a1", "type": "message",
              "message": { "role": "assistant", "usage": { "prompt_tokens": "7", "cached_tokens": 3.6 } } }
        ]
    }"#,
    );
    let m = collect_cache_session_metrics(&payload);
    let seqs: Vec<u32> = m.all_messages.iter().map(|x| x.sequence).collect();
    assert_eq!(seqs, vec![1, 2, 3]);
    assert_eq!(m.all_messages[1].timestamp, "1700");
    assert_eq!(m.all_messages[0].total_tokens, 3);
    assert_eq!(m.all_messages[2].input, 7);
    assert_eq!(m.all_messages[2].cache_read, 4);
    assert_eq!(m.all_messages[2].total_tokens, 11);
    let branch: Vec<&str> = m.active_branch_messages.iter().map(|x| x.entry_id.as_str()).collect();
    assert_eq!(branch, vec!["a1", "a2"]);
    assert_eq!(m.active_branch_messages[1].active_branch_sequence, Some(2));
    assert_eq!(m.all_messages[1].active_branch_sequence, None);
    assert_eq!(m.tree_totals.input, 18);
    assert_eq!(m.active_branch_totals.input, 8);
}

#[test]
fn zero_usage_falls_back_to_content_estimate() {
    let long_text = "hello world ".repeat(40);
    let payload = parse(&format!(
        r#"{{
        "leafId": "a1",
        "entries": [
            {{ "id": "a1", "parentId": null, "type": "message", "timestamp": "2026-01-01T00:00:00Z",
               "message": {{ "role": "assistant", "provider": "3838", "model": "qwen3.8max",
                 "content": [{{ "type": "text", "text": "{long_text}" }}],
                 "usage": {{ "input": 0, "output": 0, "cacheRead": 0, "cacheWrite": 0, "totalTokens": 0 }} }} }}
        ]
    }}"#
    ));
    let metrics = collect_cache_session_metrics(&payload);
    let all = &metrics.all_messages;
    assert_eq!(all.len(), 1);
    assert!(all[0].output > 0, "output estimated from content");
    assert!(all[0].input > 0, "input proxy estimated");
    assert_eq!(all[0].usage_estimated, true);
    assert_eq!(metrics.estimated_count, 1);
    assert_eq!(hit_percent(all[0].input, all[0].cache_read, all[0].cache_write), 0.0);
    // 480 bytes of text: 120 output tokens, and a prompt proxy of 4 × 120.
    assert_eq!(all[0].output, 120);
    assert_eq!(all[0].input, 480);
    assert_eq!(all[0].total_tokens, 600);
}

#[test]
fn tool_calls_raise_the_prompt_proxy() {
    let payload = parse(
        r#"{ "entries": [
            { "id": "a1", "type": "message", "message": { "role": "assistant",
              "content": [ { "type": "text", "text": "abcd" }, { "type": "TOOLCALL", "name": "x" } ] } }
        ] }"#,
    );
    let m = collect_cache_session_metrics(&payload);
    // Output: 1 for the text, 2 + 1 for the tool part's members; the proxy
    // is max(16, 260) plus 128 for the one tool call.
    assert_eq!(m.all_messages[0].output, 4);
    assert_eq!(m.all_messages[0].input, 260 + 128);
    assert!(m.all_messages[0].is_on_active_branch);
}

#[test]
fn empty_entries_yield_empty_metrics() {
    let metrics = collect_cache_session_metrics(&parse(r#"{ "entries": [], "leafId": null }"#));
    assert!(metrics.all_messages.is_empty());
    assert_eq!(metrics.tree_totals.assistant_messages, 0);
}

#[test]
fn json_u64_accepts_float_and_string() {
    assert_eq!(json_u64(Some(&parse("12.7"))), Some(13));
    assert_eq!(json_u64(Some(&parse("\"42\""))), Some(42));
    assert_eq!(json_u64(Some(&parse("-3"))), Some(0));
}

#[test]
fn numeric_text_reading() {
    assert_eq!(text_number(" +17 "), Some(17));
    assert_eq!(text_number("2.5"), Some(3));
    assert_eq!(text_number("2.49"), Some(2));
    assert_eq!(text_number(".5"), Some(1));
    assert_eq!(text_number("-0.0"), Some(0));
    assert_eq!(text_number("-1"), None);
    assert_eq!(text_number("abc"), None);
    assert_eq!(text_number("99999999999999999999"), Some(u64::MAX));
}

#[test]
fn token_estimate_prefers_text_fields() {
    assert_eq!(estimate_tokens_value(&parse(r#"{ "text": "abcdefgh", "other": "zzzzzzzzzzzz" }"#)), 2);
    assert_eq!(estimate_tokens_value(&parse(r#"[ "abcde", true, 12345 ]"#)), 2 + 1 + 2);
    assert_eq!(estimate_tokens_value(&parse("null")), 0);
}
