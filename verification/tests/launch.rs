use pi_grok_adapter::launch::{
    bridge_selection, child_env, launch_args, launch_plan, ApprovedResources, BridgeExtensions, ChildEnvInputs,
    EnvSwitches, FeatureToggles,
};

fn strings(v: &[&str]) -> Vec<String> {
    v.iter().map(|s| s.to_string()).collect()
}

fn no_bridges() -> BridgeExtensions {
    BridgeExtensions {
        rpc_compat: None,
        remote_tui: None,
        shortcut_manager: None,
        rust_tui_bridge: None,
        subagent: None,
        workflow: None,
        goal: None,
        loop_mode: None,
        ask_user: None,
        btw: None,
        recap: None,
        context: None,
        auth: None,
        export: None,
        native_commands: None,
        bash: None,
        tools: None,
        rollback: None,
        plan_mode: None,
    }
}

fn no_resources() -> ApprovedResources {
    ApprovedResources { extensions: Vec::new(), skills: Vec::new(), prompts: Vec::new(), themes: Vec::new() }
}

fn inputs() -> ChildEnvInputs {
    ChildEnvInputs {
        builtin_tools: Some("read,write".to_string()),
        tool_exclusions: String::new(),
        terminal_size: Some((120, 40)),
        shortcut_keys: None,
        rollback_state: "/state".to_string(),
        rollback_control: None,
    }
}

#[test]
fn no_extensions_selects_no_bridge() {
    let switches = EnvSwitches { bash: None, native_commands: Some("1".into()), remote_tui: None, rust_tui_bridge: Some("yes".into()) };
    let toggles = FeatureToggles { workflows: true, goal: true, loop_mode: true, ask_user_question: true, btw: true };
    let off = bridge_selection(true, &switches, &toggles);
    assert!(!off.subagent && !off.remote_tui && !off.plan_mode && !off.bash && !off.native_commands);
    let on = bridge_selection(false, &switches, &toggles);
    assert!(on.subagent && on.bash && on.remote_tui && on.shortcut_manager && on.rust_tui_bridge && on.native_commands);
    let quiet = EnvSwitches { bash: Some("off".into()), native_commands: None, remote_tui: Some("0".into()), rust_tui_bridge: Some("1".into()) };
    let some = bridge_selection(false, &quiet, &toggles);
    assert!(!some.bash && !some.remote_tui && !some.shortcut_manager && !some.rust_tui_bridge && !some.native_commands);
}

#[test]
fn blocked_extensions_are_dropped_and_resources_approved() {
    let mut b = no_bridges();
    b.rpc_compat = Some("/x/rpc.ts".into());
    b.plan_mode = Some(("/x/plan.ts".into(), "/x/plan.json".into()));
    b.subagent = Some("/x/sub.ts".into());
    let approved = ApprovedResources {
        extensions: strings(&["/ok/ext.ts"]),
        skills: strings(&["/ok/skill"]),
        prompts: Vec::new(),
        themes: Vec::new(),
    };
    let args = launch_args(
        &strings(&["--model", "m", "--extension", "/bad.ts", "--extension", "/good.ts", "--no-themes"]),
        &strings(&["/bad.ts"]),
        false,
        false,
        &b,
        &approved,
    );
    assert_eq!(
        args,
        strings(&[
            "--extension", "/x/rpc.ts", "--model", "m", "--extension", "/good.ts", "--no-themes",
            "--no-extensions", "--extension", "/ok/ext.ts", "--no-skills", "--skill", "/ok/skill",
            "--no-prompt-templates", "--extension", "/x/sub.ts", "--extension", "/x/plan.ts",
        ])
    );
    let disabled = launch_args(&strings(&["--no-extensions"]), &Vec::new(), false, true, &no_bridges(), &approved);
    assert_eq!(disabled, strings(&["--no-extensions", "--no-prompt-templates", "--no-themes"]));
}

#[test]
fn child_environment_follows_the_bridges() {
    let mut b = no_bridges();
    b.tools = Some("/x/tools.ts".into());
    b.goal = Some(("/x/goal.ts".into(), "/x/goal.json".into()));
    b.remote_tui = Some("/x/remote.ts".into());
    b.context = Some(("/x/ctx.ts".into(), "/x/ctx.json".into()));
    let env = child_env(&b, &inputs());
    let pairs: Vec<(&str, &str)> = env.iter().map(|(k, v)| (k.as_str(), v.as_str())).collect();
    assert_eq!(
        pairs,
        vec![
            ("PI_GROK", "1"),
            ("PI_GROK_BUILTIN_TOOLS", "read,write"),
            ("PI_GROK_GOAL", "1"),
            ("PI_GROK_GOAL_CONTROL", "/x/goal.json"),
            ("PI_GROK_CONTEXT_BREAKDOWN", "/x/ctx.json"),
            ("PI_GROK_REMOTE_TUI", "1"),
            ("PI_GROK_EXTENSION_TUI_COMPAT", "1"),
            ("COLUMNS", "120"),
            ("LINES", "40"),
            ("PI_GROK_REMOTE_TUI_WIDTH", "120"),
            ("PI_GROK_REMOTE_TUI_ROWS", "40"),
        ]
    );
    let (args, env2) = launch_plan(&Vec::new(), &Vec::new(), true, false, &no_bridges(), &no_resources(), &inputs());
    assert_eq!(args, strings(&["--no-skills", "--no-prompt-templates", "--no-themes"]));
    assert_eq!(env2, vec![("PI_GROK".to_string(), "1".to_string())]);
}
