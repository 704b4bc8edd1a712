use pi_grok_adapter::adapter::{
    allocate_operation_id, bridge_command_message, catalog_session_dir, command_catalog,
    compaction_percentage, first_apple_language, format_input_short, format_protocol_short,
    is_bridge_command, model_key, model_reasoning_efforts, normalize_language_tag,
    pi_effort_to_acp, plan_file_path, plan_state_path, request_timeout, PiBootstrap,
    NAVIGATE_TREE_COMMAND, LABEL_TREE_COMMAND, RELOAD_COMMAND,
};
use pi_grok_adapter::model::{PiCommand, PiModel, PiState};
use std::time::Duration;

#[test]
fn session_file_discovers_a_settings_configured_session_directory() {
    let fallback = "/home/user/.pi/agent/sessions";
    let state = PiState {
        session_file: Some("/data/pi-sessions/current.jsonl".to_string()),
        ..PiState::default()
    };
    assert_eq!(catalog_session_dir(&state, fallback), "/data/pi-sessions".to_string());

    let default_state = PiState {
        session_file: Some("/home/user/.pi/agent/sessions/project/current.jsonl".to_string()),
        ..PiState::default()
    };
    assert_eq!(catalog_session_dir(&default_state, fallback), fallback.to_string());
}

#[test]
fn normalizes_system_language_tags() {
    assert_eq!(normalize_language_tag("zh_CN.UTF-8"), Some("zh-CN".into()));
    assert_eq!(normalize_language_tag("\"en-US\""), Some("en-US".into()));
    assert_eq!(normalize_language_tag("C"), None);
    assert_eq!(normalize_language_tag("POSIX"), None);
}

#[test]
fn parses_first_macos_preferred_language() {
    assert_eq!(
        first_apple_language("(\n    \"zh-Hans-CN\",\n    \"en-CN\"\n)"),
        Some("zh-Hans-CN".into())
    );
    assert_eq!(first_apple_language("(\n)"), None);
}

#[test]
fn plan_sidecar_is_scoped_to_jsonl_session() {
    let state = PiState {
        session_id: "session-1".into(),
        session_file: Some("/tmp/pi/project/session.jsonl".into()),
        ..PiState::default()
    };
    let plan = plan_file_path(&state, "/tmp/pi");
    assert_eq!(plan, "/tmp/pi/project/session.plan.md".to_string());
    assert_eq!(plan_state_path(&plan), "/tmp/pi/project/session.plan-mode.json".to_string());
}

#[test]
fn plan_sidecar_falls_back_to_session_id() {
    let state = PiState { session_id: "s9".into(), ..PiState::default() };
    assert_eq!(plan_file_path(&state, "/tmp/pi"), "/tmp/pi/grok-pi-plans/s9.plan.md");
    assert_eq!(plan_state_path("/x/notes.md"), "/x/notes.md.plan-mode.json");
}

#[test]
fn only_long_running_pi_operations_skip_the_default_deadline() {
    assert_eq!(request_timeout("bash").map(Duration::from_secs), None);
    assert_eq!(request_timeout("compact").map(Duration::from_secs), None);
    assert_eq!(request_timeout("get_state").map(Duration::from_secs), Some(Duration::from_secs(300)));
}

#[test]
fn command_catalog_is_pi_owned_and_deduplicated() {
    let commands = vec![
        PiCommand { name: "/review".into(), description: "Review changes".into(), source: "extension".into() },
        PiCommand { name: "REVIEW".into(), description: "Duplicate".into(), source: "prompt".into() },
        PiCommand { name: "brief".into(), description: String::new(), source: "skill".into() },
        PiCommand { name: NAVIGATE_TREE_COMMAND.into(), description: "internal".into(), source: "extension".into() },
        PiCommand { name: LABEL_TREE_COMMAND.into(), description: "internal".into(), source: "extension".into() },
        PiCommand { name: RELOAD_COMMAND.into(), description: "internal".into(), source: "extension".into() },
    ];
    let catalog = command_catalog(&commands);
    let entries = catalog.entries();
    assert_eq!(entries.len(), 2);
    assert_eq!(entries[0].name, "review");
    assert_eq!(entries[0].description, "Review changes");
    assert_eq!(entries[0].source.as_deref(), Some("extension"));
    assert_eq!(entries[1].name, "brief");
    assert_eq!(entries[1].description, "Pi skill command");
}

#[test]
fn workflow_commands_are_added_once() {
    let commands = vec![PiCommand { name: "workflow".into(), description: "mine".into(), source: String::new() }];
    let mut catalog = command_catalog(&commands);
    catalog.inject_workflow_commands(&vec![("deploy".to_string(), "Ship it".to_string())]);
    let entries = catalog.entries();
    let names: Vec<&str> = entries.iter().map(|e| e.name.as_str()).collect();
    assert_eq!(names, vec!["workflow", "workflows", "create-workflow", "deploy"]);
    assert_eq!(entries[0].description, "mine");
    assert_eq!(entries[0].source, None);
    assert_eq!(entries[3].description, "Workflow: Ship it");
    assert_eq!(entries[3].hint.as_deref(), Some("<args>"));
    assert_eq!(entries[2].hint.as_deref(), Some("[goal]"));
}

#[test]
fn bridge_commands_are_recognised_case_insensitively() {
    assert!(is_bridge_command("__PI_RELOAD"));
    assert!(is_bridge_command("__pi_workflow_spawn"));
    assert!(!is_bridge_command("review"));
    assert_eq!(bridge_command_message("__pi_reload", "  "), "/__pi_reload");
    assert_eq!(bridge_command_message("__pi_tree_label", "a b"), "/__pi_tree_label a b");
}

#[test]
fn efforts_and_labels() {
    assert_eq!(pi_effort_to_acp("OFF"), "none");
    assert_eq!(pi_effort_to_acp("max"), "xhigh");
    assert_eq!(pi_effort_to_acp("weird"), "medium");
    assert_eq!(format_protocol_short("anthropic-messages"), Some("anth"));
    assert_eq!(format_protocol_short("other"), None);
    assert_eq!(format_input_short(&[], true), "txt+img");
    assert_eq!(format_input_short(&["text".to_string(), "Image".to_string()], false), "txt+img");
    assert_eq!(format_input_short(&["video".to_string()], false), "txt");
    assert_eq!(format_input_short(&["audio".to_string()], true), "img+aud");
    let mut m = PiModel::default();
    m.id = "gpt".into();
    assert_eq!(model_key(&m), "gpt");
    m.provider = "openai".into();
    assert_eq!(model_key(&m), "openai::gpt");
}

#[test]
fn reasoning_efforts_offer_the_top_slot_once() {
    let mut m = PiModel::default();
    m.thinking_levels = vec!["off".into(), "high".into(), "xhigh".into(), "max".into(), "bogus".into()];
    let efforts = model_reasoning_efforts(&m);
    let values: Vec<&str> = efforts.iter().map(|e| e.value).collect();
    assert_eq!(values, vec!["none", "high", "xhigh"]);
    assert_eq!(efforts[2].label, "Extra high");
}

#[test]
fn thinking_levels_follow_the_model() {
    let mut m = PiModel::default();
    m.thinking_levels = vec!["off".into(), "low".into(), "XHIGH".into()];
    assert!(m.supports_thinking_level("xhigh"));
    assert_eq!(m.pi_level_for_acp_effort("max"), Some("xhigh"));
    assert_eq!(m.pi_level_for_acp_effort("none"), Some("off"));
    assert_eq!(m.pi_level_for_acp_effort("medium"), None);
    assert_eq!(m.pi_level_for_acp_effort("ludicrous"), None);
    m.thinking_levels.push("max".into());
    assert_eq!(m.pi_level_for_acp_effort("xhigh"), Some("max"));
}

#[test]
fn compaction_percentage_is_capped() {
    assert_eq!(compaction_percentage(50, 200), 25);
    assert_eq!(compaction_percentage(500, 200), 100);
    assert_eq!(compaction_percentage(5, 0), 100);
    assert_eq!(compaction_percentage(u64::MAX, u64::MAX), 1);
}

#[test]
fn operation_ids_skip_zero_after_wrapping() {
    let mut counter = u64::MAX;
    assert_eq!(allocate_operation_id(&mut counter), u64::MAX);
    assert_eq!(counter, 1);
    assert_eq!(allocate_operation_id(&mut counter), 1);
    assert_eq!(counter, 2);
}

#[test]
fn bootstrap_offers_the_current_model() {
    let mut current = PiModel::default();
    current.provider = "xai".into();
    current.id = "grok".into();
    let state = PiState {
        session_id: "s1".into(),
        session_name: Some("Title".into()),
        model: Some(current),
        ..PiState::default()
    };
    let mut other = PiModel::default();
    other.provider = "xai".into();
    other.id = "mini".into();
    let boot = PiBootstrap::from_parts(state, vec![other], Vec::new());
    assert_eq!(boot.session_id(), "s1");
    assert_eq!(boot.session_title(), Some("Title"));
    assert_eq!(boot.models().len(), 2);
    assert_eq!(boot.models()[1].id, "grok");
}
