use pi_grok_adapter::extension_ui::{
    ask_question_params, extension_ui_cancelled, extension_ui_reply, plan_approval_outcome, plan_approval_params,
    ui_method, PlanApproval,
};
use pi_grok_adapter::json::{to_compact_string, Json, JsonNumber};

fn to_json(v: &serde_json::Value) -> Json {
    match v {
        serde_json::Value::Null => Json::Null,
        serde_json::Value::Bool(b) => Json::Bool(*b),
        serde_json::Value::Number(n) => Json::Number(JsonNumber {
            as_u64: n.as_u64(),
            as_i64: n.as_i64(),
            rounded: match (n.as_u64(), n.as_i64(), n.as_f64()) {
                (Some(u), _, _) => Some(u),
                (None, Some(_), _) => None,
                (None, None, Some(f)) if f >= 0.0 => Some(f.round() as u64),
                _ => None,
            },
            text: n.to_string(),
        }),
        serde_json::Value::String(s) => Json::Str(s.clone()),
        serde_json::Value::Array(items) => Json::Array(items.iter().map(to_json).collect()),
        serde_json::Value::Object(map) => {
            Json::Object(map.iter().map(|(k, v)| (k.clone(), to_json(v))).collect())
        }
    }
}

fn parse(text: &str) -> Json {
    to_json(&serde_json::from_str::<serde_json::Value>(text).expect("valid JSON"))
}

#[test]
fn select_dialog_becomes_a_closed_question() {
    let event = parse(r#"{"id": "7", "method": "Select", "title": "Pick one", "options": ["a", 1, "b"]}"#);
    assert_eq!(ui_method(&event), "select");
    let params = ask_question_params("s1", &event).unwrap();
    assert_eq!(
        to_compact_string(&params),
        concat_parts(&[
            r#"{"sessionId":"s1","toolCallId":"pi-extension-ui:7","questions":[{"question":"Pick one","options":["#,
            r#"{"label":"a","description":"","preview":null,"id":null},"#,
            r#"{"label":"b","description":"","preview":null,"id":null}],"#,
            r#""multiSelect":false,"id":"pi-question"}],"mode":"default","initialText":"","noFreeform":true}"#,
        ])
    );
}

fn concat_parts(parts: &[&str]) -> String {
    parts.join("")
}

#[test]
fn confirm_input_and_editor_dialogs() {
    let confirm = ask_question_params("s", &parse(r#"{"id": 3, "method": "confirm", "title": "T", "message": "Sure?"}"#)).unwrap();
    let text = to_compact_string(&confirm);
    assert!(text.contains(r#""toolCallId":"pi-extension-ui:3""#));
    assert!(text.contains(r#""question":"Sure?""#));
    assert!(text.contains(r#"{"label":"Yes","description":"","preview":null,"id":null},{"label":"No""#));
    assert!(text.ends_with(r#""noFreeform":true}"#));
    let input = ask_question_params("s", &parse(r#"{"id": "i", "method": "input", "title": "Name", "placeholder": "e.g. Bob"}"#)).unwrap();
    let text = to_compact_string(&input);
    assert!(text.contains(r#""question":"Name\n\ne.g. Bob""#));
    assert!(text.contains(r#""options":[]"#));
    assert!(text.ends_with(r#""noFreeform":false}"#));
    let editor = ask_question_params("s", &parse(r#"{"id": "e", "method": "editor", "prefill": "draft"}"#)).unwrap();
    let text = to_compact_string(&editor);
    assert!(text.contains(r#""question":"Pi extension""#));
    assert!(text.contains(r#""initialText":"draft""#));
    assert_eq!(ask_question_params("s", &parse(r#"{"method": "input"}"#)).unwrap_err(), "Pi extension UI request has no id");
}

#[test]
fn replies_carry_the_answer_back_to_pi() {
    let id = parse(r#""7""#);
    let cancelled = extension_ui_reply(&id, "select", &parse(r#"{"result": {"outcome": "cancelled"}}"#));
    assert_eq!(to_compact_string(&cancelled), r#"{"type":"extension_ui_response","id":"7","cancelled":true}"#);
    assert_eq!(to_compact_string(&extension_ui_cancelled(&id)), to_compact_string(&cancelled));
    let confirmed = extension_ui_reply(&id, "confirm", &parse(r#"{"result": {"outcome": "selected", "value": "YES"}}"#));
    assert_eq!(to_compact_string(&confirmed), r#"{"type":"extension_ui_response","id":"7","confirmed":true}"#);
    let value = extension_ui_reply(&id, "input", &parse(r#"{"outcome": "answered", "value": "Bob"}"#));
    assert_eq!(to_compact_string(&value), r#"{"type":"extension_ui_response","id":"7","value":"Bob"}"#);
    let empty = extension_ui_reply(&id, "input", &parse(r#"{"outcome": "answered"}"#));
    assert_eq!(to_compact_string(&empty), r#"{"type":"extension_ui_response","id":"7","value":""}"#);
}

#[test]
fn plan_approval_request_and_answers() {
    assert_eq!(
        to_compact_string(&plan_approval_params("s", "t", Some("# Plan"))),
        r##"{"sessionId":"s","toolCallId":"t","planContent":"# Plan"}"##
    );
    assert_eq!(
        to_compact_string(&plan_approval_params("s", "t", Some("  \n"))),
        r#"{"sessionId":"s","toolCallId":"t","planContent":null}"#
    );
    assert_eq!(plan_approval_outcome(&parse(r#"{"result": {"outcome": "approved"}}"#)), PlanApproval::Approved);
    assert_eq!(plan_approval_outcome(&parse(r#"{"outcome": "abandoned"}"#)), PlanApproval::Approved);
    assert_eq!(plan_approval_outcome(&parse(r#"{}"#)), PlanApproval::Rejected { follow_up: None });
    assert_eq!(
        plan_approval_outcome(&parse(r#"{"result": {"outcome": "rejected", "feedback": "add tests"}}"#)),
        PlanApproval::Rejected { follow_up: Some("The user requested plan changes:\nadd tests".to_string()) }
    );
}
