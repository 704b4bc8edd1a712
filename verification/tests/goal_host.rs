use pi_grok_adapter::goal_host::{default_phase, parse_goal_set_args, GoalControl, GoalHost};

fn control(goal_id: &str, status: &str) -> GoalControl {
    GoalControl {
        goal_id: goal_id.into(),
        objective: "x".into(),
        status: status.into(),
        phase: "idle".into(),
        token_budget: None,
        token_baseline: 0,
        tokens_used: 0,
        created_at: String::new(),
        pause_message: None,
        last_event: None,
        last_event_detail: None,
    }
}

#[test]
fn parse_goal_set_args_budget() {
    let (obj, budget) = parse_goal_set_args("ship auth --budget 50000");
    assert_eq!(obj, "ship auth");
    assert_eq!(budget, Some(50000));
}

#[test]
fn cleared_not_present() {
    let c = GoalControl {
        goal_id: "g".into(),
        objective: "x".into(),
        status: "cleared".into(),
        phase: "idle".into(),
        token_budget: None,
        token_baseline: 0,
        tokens_used: 0,
        created_at: String::new(),
        pause_message: None,
        last_event: None,
        last_event_detail: None,
    };
    assert!(!c.is_present());
}

#[test]
fn goal_args_edge_cases() {
    assert_eq!(parse_goal_set_args("--budget -5 fix it"), ("fix it".to_string(), Some(0)));
    assert_eq!(parse_goal_set_args("a --budget x b"), ("a --budget x b".to_string(), None));
    assert_eq!(parse_goal_set_args("  a   b --budget"), ("a b --budget".to_string(), None));
    assert_eq!(parse_goal_set_args("--budget 1 a --budget 2"), ("a".to_string(), Some(2)));
    assert_eq!(parse_goal_set_args(""), (String::new(), None));
}

#[test]
fn present_and_active_goals() {
    assert!(control("g1", "active").is_active());
    assert!(control("g1", "active").is_present());
    assert!(!control("", "active").is_present());
    assert!(control("g1", "blocked").is_present());
    assert!(!control("g1", "blocked").is_active());
}

#[test]
fn host_times_only_present_goals() {
    let mut host = GoalHost::new("/tmp/goal.json".to_string());
    assert_eq!(host.control_path(), "/tmp/goal.json");
    assert!(host.snapshot().is_none());
    assert_eq!(host.elapsed_ms(), 0);
    host.apply_control(control("g1", "cleared"));
    assert_eq!(host.elapsed_ms(), 0);
    assert_eq!(host.snapshot().map(|c| c.status.clone()), Some("cleared".to_string()));
    host.apply_control(control("g1", "active"));
    assert_eq!(host.snapshot().map(|c| c.goal_id.clone()), Some("g1".to_string()));
    host.apply_control(control("g1", "cleared"));
    assert_eq!(host.elapsed_ms(), 0);
}

#[test]
fn continuation_directive_names_the_objective() {
    let mut c = control("g", "active");
    c.objective = "ship it".into();
    let text = GoalHost::continuation_directive(&c);
    assert!(text.starts_with("<system-reminder>\nGoal still ACTIVE. Objective: ship it\nContinue working."));
    assert!(text.ends_with("running checks.\n</system-reminder>"));
}

#[test]
fn missing_phase_defaults_to_executing() {
    assert_eq!(default_phase(), "executing");
}
