use pi_grok_adapter::json::{to_compact_string, Json, JsonNumber};
use pi_grok_adapter::model::{
    default_session_dir_name, parse_commands, parse_models, scan_local_sessions, scan_local_sessions_for_cwd,
};
use pi_grok_adapter::queue_bridge::{queue_changed_params, string_list, QueueLane, QueueMirror};

fn to_json(v: &serde_json::Value) -> Json {
    match v {
        serde_json::Value::Null => Json::Null,
        serde_json::Value::Bool(b) => Json::Bool(*b),
        serde_json::Value::Number(n) => Json::Number(JsonNumber {
            as_u64: n.as_u64(),
            as_i64: n.as_i64(),
            rounded: match (n.as_u64(), n.as_i64(), n.as_f64()) {
                (Some(u), _, _) => Some(u),
                (None, Some(_), _) => None,
                (None, None, Some(f)) if f >= 0.0 => Some(f.round() as u64),
                _ => None,
            },
            text: n.to_string(),
        }),
        serde_json::Value::String(s) => Json::Str(s.clone()),
        serde_json::Value::Array(items) => Json::Array(items.iter().map(to_json).collect()),
        serde_json::Value::Object(map) => {
            Json::Object(map.iter().map(|(k, v)| (k.clone(), to_json(v))).collect())
        }
    }
}

fn parse(text: &str) -> Json {
    to_json(&serde_json::from_str::<serde_json::Value>(text).expect("valid JSON"))
}

fn lines(text: &str) -> Vec<Option<Json>> {
    text.lines()
        .map(|line| serde_json::from_str::<serde_json::Value>(line).ok().map(|v| to_json(&v)))
        .collect()
}

fn session_file(id: &str, cwd: &str, ts: i64) -> Vec<Option<Json>> {
    lines(&format!(
        "{{\"type\":\"session\",\"id\":\"{id}\",\"cwd\":\"{cwd}\",\"timestamp\":\"t\"}}\n{{\"type\":\"message\",\"message\":{{\"role\":\"user\",\"content\":\"hi\",\"timestamp\":{ts}}}}}"
    ))
}

#[test]
fn project_directory_names_follow_the_default_store() {
    assert_eq!(default_session_dir_name("/home/u/repo"), "--home-u-repo--");
    assert_eq!(default_session_dir_name("C:\\work\\x"), "--C--work-x--");
    assert_eq!(default_session_dir_name("//srv"), "--srv--");
}

#[test]
fn store_scan_skips_foreign_files_and_sorts_newest_first() {
    let files = vec![
        ("/s/a.jsonl".to_string(), session_file("a", "/x", 5)),
        ("/s/junk.jsonl".to_string(), lines("not json")),
        ("/s/b.jsonl".to_string(), session_file("b", "/y", 7)),
        ("/s/c.jsonl".to_string(), session_file("c", "/x", 6)),
    ];
    let ids: Vec<String> = scan_local_sessions(&files).into_iter().map(|s| s.id).collect();
    assert_eq!(ids, vec!["b", "c", "a"]);
    let here: Vec<String> = scan_local_sessions_for_cwd(false, &files, "/x").into_iter().map(|s| s.id).collect();
    assert_eq!(here, vec!["c", "a"]);
    let project: Vec<String> = scan_local_sessions_for_cwd(true, &files, "/x").into_iter().map(|s| s.id).collect();
    assert_eq!(project, vec!["b", "c", "a"]);
}

#[test]
fn catalogs_are_ordered_and_unique() {
    let models = parse_models(&parse(r#"["b", "a", "c", "a"]"#));
    let labels: Vec<&str> = models.iter().map(|m| m.label.as_str()).collect();
    assert_eq!(labels, vec!["a", "b", "c"]);
    for w in models.windows(2) {
        assert!(w[0].label <= w[1].label);
    }
    let commands = parse_commands(&parse(r#"[{"name":"/z"},{"name":"y"},{"name":"z"},{"name":"//y"}]"#));
    let names: Vec<&str> = commands.iter().map(|c| c.name.as_str()).collect();
    assert_eq!(names, vec!["y", "z"]);
}

#[test]
fn string_lists_keep_only_strings() {
    let v = parse(r#"{"steering": ["a", 1, "b", null], "followUp": "x"}"#);
    assert_eq!(string_list(v.get("steering")), vec!["a".to_string(), "b".to_string()]);
    assert!(string_list(v.get("followUp")).is_empty());
    assert!(string_list(v.get("missing")).is_empty());
}

#[test]
fn queue_changed_params_carry_rows_and_running_id() {
    let mut mirror = QueueMirror::new();
    mirror.reserve("p1".to_string(), "hello".to_string(), QueueLane::Steering);
    let snapshot = mirror.apply_queue_update(&["hello".to_string()], &[]);
    let params = queue_changed_params("s1", &snapshot);
    assert_eq!(
        to_compact_string(&params),
        r#"{"sessionId":"s1","entries":[{"id":"p1","version":0,"kind":"prompt","text":"hello","position":0}]}"#
    );
    mirror.set_running("p1".to_string());
    let params = queue_changed_params("s1", &mirror.snapshot());
    assert_eq!(params.get("runningPromptId").and_then(|v| v.as_str()), Some("p1"));
}
