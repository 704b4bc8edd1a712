use pi_grok_adapter::session_paths::{expand_home, last_session_dir_arg, pi_session_dir, resolve_pi_path};

#[test]
fn session_dir_uses_the_last_pi_session_dir_argument() {
    let cwd = "/project";
    let args = vec![
        "--session-dir".to_string(),
        "old".to_string(),
        "--session-dir".to_string(),
        "sessions".to_string(),
    ];
    assert_eq!(
        pi_session_dir(&args, cwd, &None, &None, &None),
        "/project/sessions".to_string()
    );
}

#[test]
fn session_dir_defaults_under_resolved_pi_agent_home() {
    let cwd = "/project";
    let agent = "/home/u/.pi/agent".to_string();
    let dir = pi_session_dir(&vec![], cwd, &None, &None, &Some(agent.clone()));
    assert!(dir.ends_with("sessions"), "expected .../sessions, got {}", dir);
    assert_eq!(dir, format!("{}/sessions", agent));
}

#[test]
fn trailing_flag_without_value_is_ignored() {
    let args = vec!["--session-dir".to_string(), "a".to_string(), "--session-dir".to_string()];
    assert_eq!(last_session_dir_arg(&args), Some("a".to_string()));
    assert_eq!(last_session_dir_arg(&vec!["--session-dir".to_string()]), None);
}

#[test]
fn environment_setting_applies_when_not_blank() {
    let home = Some("/home/u".to_string());
    let env = Some("  ~/pi-sessions ".to_string());
    assert_eq!(
        pi_session_dir(&vec![], "/work", &env, &home, &None),
        "/home/u/pi-sessions".to_string()
    );
    let blank = Some("   ".to_string());
    assert_eq!(
        pi_session_dir(&vec![], "/work", &blank, &home, &None),
        "/home/u/.pi/agent/sessions".to_string()
    );
    assert_eq!(pi_session_dir(&vec![], "/work", &None, &None, &None), ".pi/agent/sessions".to_string());
}

#[test]
fn home_expansion_and_absolute_paths() {
    let home = Some("/home/u".to_string());
    assert_eq!(expand_home("~", &home), "/home/u".to_string());
    assert_eq!(expand_home("~/x", &home), "/home/u/x".to_string());
    assert_eq!(expand_home("~x", &home), "~x".to_string());
    assert_eq!(expand_home("~/x", &None), "~/x".to_string());
    assert_eq!(resolve_pi_path("/abs/dir", "/work", &home), "/abs/dir".to_string());
    assert_eq!(resolve_pi_path("rel", "/work/", &home), "/work/rel".to_string());
}
