use pi_grok_adapter::adapter::{
    compaction_end_notification, compaction_start_notification, extension_answer, extension_dialog_timeout,
    extension_tool_call_id, message_role,
};
use pi_grok_adapter::json::{to_compact_string, to_pretty_string, Json, JsonNumber};

fn to_json(v: &serde_json::Value) -> Json {
    match v {
        serde_json::Value::Null => Json::Null,
        serde_json::Value::Bool(b) => Json::Bool(*b),
        serde_json::Value::Number(n) => Json::Number(JsonNumber {
            as_u64: n.as_u64(),
            as_i64: n.as_i64(),
            rounded: match (n.as_u64(), n.as_i64(), n.as_f64()) {
                (Some(u), _, _) => Some(u),
                (None, Some(_), _) => None,
                (None, None, Some(f)) if f >= 0.0 => Some(f.round() as u64),
                _ => None,
            },
            text: n.to_string(),
        }),
        serde_json::Value::String(s) => Json::Str(s.clone()),
        serde_json::Value::Array(items) => Json::Array(items.iter().map(to_json).collect()),
        serde_json::Value::Object(map) => {
            Json::Object(map.iter().map(|(k, v)| (k.clone(), to_json(v))).collect())
        }
    }
}

fn parse(text: &str) -> Json {
    to_json(&serde_json::from_str::<serde_json::Value>(text).expect("valid JSON"))
}

fn at<'a>(v: &'a Json, path: &[&str]) -> &'a Json {
    let mut cur = v;
    for key in path {
        cur = cur.get(key).expect("member");
    }
    cur
}

fn text(v: &Json) -> &str {
    match v {
        Json::Str(s) => s.as_str(),
        _ => panic!("not a string"),
    }
}

fn count(v: &Json) -> Option<u64> {
    match v {
        Json::Number(n) => n.as_u64,
        _ => None,
    }
}

#[test]
fn pi_input_and_editor_prefer_native_freeform_annotations() {
    let result = parse(
        r#"{ "answers": { "pi-question": ["Other"] },
             "annotations": { "pi-question": { "notes": "typed in Grok PromptWidget" } },
             "value": "fallback" }"#,
    );
    assert_eq!(extension_answer("input", &result).as_deref(), Some("typed in Grok PromptWidget"));
    assert_eq!(extension_answer("editor", &result).as_deref(), Some("typed in Grok PromptWidget"));
}

#[test]
fn pi_select_and_confirm_prefer_native_selected_option() {
    let result = parse(
        r#"{ "answers": { "pi-question": ["Yes"] },
             "annotations": { "pi-question": { "notes": "ignored freeform" } },
             "value": "fallback" }"#,
    );
    assert_eq!(extension_answer("select", &result).as_deref(), Some("Yes"));
    assert_eq!(extension_answer("confirm", &result).as_deref(), Some("Yes"));
}

#[test]
fn extension_answer_falls_back_to_value() {
    assert_eq!(extension_answer("select", &parse(r#"{ "value": "fallback" }"#)).as_deref(), Some("fallback"));
    assert_eq!(extension_answer("input", &parse(r#"{ "answers": { "q": "plain" } }"#)).as_deref(), Some("plain"));
    assert_eq!(extension_answer("input", &parse(r#"{ "answers": { "q": [] } }"#)), None);
}

#[test]
fn pi_extension_timeout_is_milliseconds_and_zero_means_no_timeout() {
    assert_eq!(extension_dialog_timeout(&parse(r#"{ "timeout": 2500 }"#)), Some(2500));
    assert_eq!(extension_dialog_timeout(&parse(r#"{ "timeout": 0 }"#)), None);
    assert_eq!(extension_dialog_timeout(&parse("{}")), None);
}

#[test]
fn extension_tool_call_ids_are_stable_and_namespaced() {
    assert_eq!(extension_tool_call_id(&parse("\"dialog-7\"")), "pi-extension-ui:dialog-7");
    assert_eq!(extension_tool_call_id(&parse("17")), "pi-extension-ui:17");
    assert_eq!(extension_tool_call_id(&parse(r#"{"a":[1,"x"]}"#)), r#"pi-extension-ui:{"a":[1,"x"]}"#);
}

#[test]
fn compaction_events_project_to_native_session_updates() {
    let start = compaction_start_notification("session-1", &parse(r#"{ "reason": "threshold" }"#), 85_000, 100_000);
    assert_eq!(text(at(&start, &["update", "sessionUpdate"])), "auto_compact_started");
    assert_eq!(count(at(&start, &["update", "percentage"])), Some(85));

    let success = compaction_end_notification(
        "session-1",
        &parse(r#"{ "result": { "tokensBefore": 100000, "estimatedTokensAfter": 20000, "summary": "Retained recent work" } }"#),
        Some(500),
    )
    .expect("success projection");
    assert_eq!(text(at(&success, &["sessionId"])), "session-1");
    assert_eq!(text(at(&success, &["update", "sessionUpdate"])), "auto_compact_completed");
    assert_eq!(count(at(&success, &["update", "tokens_before"])), Some(100_000));
    assert_eq!(count(at(&success, &["update", "tokens_after"])), Some(20_000));
    assert_eq!(count(at(&success, &["update", "elapsed_ms"])), Some(500));

    let failure =
        compaction_end_notification("session-1", &parse(r#"{ "errorMessage": "compaction failed" }"#), None)
            .expect("failure projection");
    assert_eq!(text(at(&failure, &["update", "sessionUpdate"])), "auto_compact_failed");

    let cancelled = compaction_end_notification("session-1", &parse(r#"{ "aborted": true, "reason": "user" }"#), None)
        .expect("cancelled projection");
    assert_eq!(text(at(&cancelled, &["update", "sessionUpdate"])), "auto_compact_cancelled");
    assert!(compaction_end_notification("s", &parse(r#"{ "result": {} }"#), None).is_none());
}

#[test]
fn compaction_start_reason_defaults_and_unknown_window() {
    let start = compaction_start_notification("s", &parse("{}"), 5, 0);
    assert_eq!(text(at(&start, &["update", "reason"])), "unknown");
    assert_eq!(count(at(&start, &["update", "percentage"])), Some(100));
}

#[test]
fn message_roles_come_from_the_message() {
    assert_eq!(message_role(&parse(r#"{ "message": { "type": "custom" } }"#)), Some("custom"));
    assert_eq!(message_role(&parse(r#"{ "role": "user" }"#)), None);
}

#[test]
fn json_text_matches_serde_json() {
    let text = r#"{"a":[1,true,null,"q\"\n\u0001"],"b":{},"c":[]}"#;
    let value: serde_json::Value = serde_json::from_str(text).unwrap();
    let json = to_json(&value);
    assert_eq!(to_compact_string(&json), serde_json::to_string(&value).unwrap());
    assert_eq!(to_pretty_string(&json), serde_json::to_string_pretty(&value).unwrap());
}
