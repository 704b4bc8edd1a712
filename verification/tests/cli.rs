use pi_grok_adapter::cli::{
    env_flag_default_off, env_flag_default_on, ext_identity_from_path, extract_extension_paths,
    normalize_compound_short_flags, pi_args_with_startup_flags, pi_grok_native_commands,
    remove_extension_path, strip_extension_args, StartupFlags, has_explicit_tools_arg, configured_builtin_tools,
};

fn strings(items: &[&str]) -> Vec<String> {
    items.iter().map(|s| s.to_string()).collect()
}

#[test]
fn continue_flag_is_forwarded_to_pi() {
    let flags = StartupFlags { continue_last_session: true, ..StartupFlags::default() };
    assert!(flags.continue_last_session);
    assert_eq!(pi_args_with_startup_flags(Vec::new(), &flags, None), vec!["--continue"]);
}

#[test]
fn short_continue_flag_is_forwarded_to_pi() {
    let flags = StartupFlags { continue_last_session: true, ..StartupFlags::default() };
    assert!(flags.continue_last_session);
    assert_eq!(pi_args_with_startup_flags(Vec::new(), &flags, None), vec!["--continue"]);
}

#[test]
fn pi_startup_flags_are_forwarded_to_pi() {
    let flags = StartupFlags {
        provider: Some("openai".into()),
        model: Some("openai/gpt-4o".into()),
        models: Some("openai/*,anthropic/*".into()),
        thinking: Some("high".into()),
        session: Some("sess-abc".into()),
        session_id: Some("exact-id".into()),
        fork: Some("fork-src".into()),
        session_dir: Some("/tmp/sessions".into()),
        system_prompt: Some("base prompt".into()),
        append_system_prompts: strings(&["first addition", "second addition"]),
        no_skills: true,
        no_context_files: true,
        extensions: strings(&["first.ts", "second.ts"]),
        no_extensions: true,
        tools: Some("read,bash".into()),
        exclude_tools: Some("write".into()),
        no_tools: true,
        no_builtin_tools: true,
        no_session: true,
        name: Some("named-session".into()),
        approve: true,
        offline: true,
        ..StartupFlags::default()
    };
    assert_eq!(
        pi_args_with_startup_flags(Vec::new(), &flags, Some("/tmp/bridge.ts")),
        strings(&[
            "--provider", "openai", "--model", "openai/gpt-4o", "--models", "openai/*,anthropic/*",
            "--thinking", "high", "--session", "sess-abc", "--session-id", "exact-id", "--fork",
            "fork-src", "--session-dir", "/tmp/sessions", "--system-prompt", "base prompt",
            "--append-system-prompt", "first addition", "--append-system-prompt", "second addition",
            "--no-skills", "--no-context-files", "--extension", "first.ts", "--extension",
            "second.ts", "--extension", "/tmp/bridge.ts", "--no-extensions", "--tools", "read,bash",
            "--exclude-tools", "write", "--no-tools", "--no-builtin-tools", "--no-session", "--name",
            "named-session", "--approve", "--offline",
        ])
    );
}

#[test]
fn no_approve_short_flag_is_forwarded_to_pi() {
    let args = normalize_compound_short_flags(vec![Some("grok-pi".into()), Some("-na".into())]);
    assert_eq!(args, vec![Some("grok-pi".to_string()), Some("--no-approve".to_string())]);
    let flags = StartupFlags { no_approve: true, ..StartupFlags::default() };
    assert_eq!(pi_args_with_startup_flags(Vec::new(), &flags, None), vec!["--no-approve"]);
}

#[test]
fn compound_short_flags_after_double_dash_are_not_rewritten() {
    let raw = ["grok-pi", "--", "-ns", "-nc", "-ne", "-nt", "-nbt", "-xt", "-na"];
    let args: Vec<Option<String>> = raw.iter().map(|s| Some(s.to_string())).collect();
    assert_eq!(normalize_compound_short_flags(args.clone()), args);
}

#[test]
fn compound_short_flags_before_double_dash_are_spelled_out() {
    let args = vec![Some("-ns".to_string()), None, Some("-nbt".to_string()), Some("-x".to_string())];
    assert_eq!(
        normalize_compound_short_flags(args),
        vec![Some("--no-skills".to_string()), None, Some("--no-builtin-tools".to_string()), Some("-x".to_string())]
    );
}

#[test]
fn grok_pi_command_profile_includes_native_navigation() {
    let commands = pi_grok_native_commands();
    assert!(commands.contains(&"jump"));
    assert!(commands.contains(&"review-session"));
    assert!(commands.contains(&"review-message"));
    assert!(commands.contains(&"voice"));
    assert!(commands.contains(&"doctor"));
    assert!(commands.contains(&"hotkeys"));
    assert!(commands.contains(&"session-info"));
    assert!(commands.contains(&"tree"));
    assert!(commands.contains(&"fork"));
    assert!(commands.contains(&"clone"));
    assert!(commands.contains(&"reload"));
    assert!(commands.contains(&"pi-shortcut-manager"));
}

#[test]
fn default_on_when_unset() {
    assert!(env_flag_default_on(None));
}

#[test]
fn native_commands_default_off() {
    assert!(!env_flag_default_off(None));
}

#[test]
fn experimental_flags_require_an_explicit_opt_in() {
    assert!(env_flag_default_off(Some("yes")));
    assert!(env_flag_default_off(Some(" TRUE ")));
    assert!(!env_flag_default_off(Some("maybe")));
}

#[test]
fn off_values_disable() {
    for value in ["0", "false", "OFF", "No"] {
        assert!(!env_flag_default_on(Some(value)), "{value}");
    }
    assert!(env_flag_default_on(Some("1")));
}

#[test]
fn extension_arguments_are_picked_out() {
    let args = strings(&["--model", "m", "--extension", "a.ts", "--extension", "b.ts", "--extension"]);
    assert_eq!(extract_extension_paths(&args), strings(&["a.ts", "b.ts"]));
    assert_eq!(strip_extension_args(&args), strings(&["--model", "m", "--extension"]));
    assert_eq!(
        remove_extension_path(&args, "a.ts"),
        strings(&["--model", "m", "--extension", "b.ts", "--extension"])
    );
}

#[test]
fn extension_identities_hide_absolute_paths() {
    assert_eq!(
        ext_identity_from_path("/home/u/.npm/node_modules/@scope/pkg/dist/index.js"),
        ("pkg".to_string(), "@scope/pkg".to_string())
    );
    assert_eq!(
        ext_identity_from_path("/x/node_modules/plain/index.js"),
        ("plain".to_string(), "plain".to_string())
    );
    assert_eq!(
        ext_identity_from_path("C:\\Users\\u\\.pi\\extensions\\mine\\index.ts"),
        ("mine".to_string(), "mine".to_string())
    );
    assert_eq!(
        ext_identity_from_path("/work/tools/helper.ts.ts"),
        ("helper".to_string(), "tools".to_string())
    );
    assert_eq!(
        ext_identity_from_path("/work/.hidden/tool.mjs"),
        ("tool".to_string(), "tool".to_string())
    );
    assert_eq!(ext_identity_from_path(""), ("unknown".to_string(), "unknown".to_string()));
}

#[test]
fn detects_explicit_tools_allowlist() {
    assert!(has_explicit_tools_arg(&vec!["--tools".into(), "read,grep".into()]));
    assert!(has_explicit_tools_arg(&vec!["-t".into(), "read,grep".into()]));
    assert!(!has_explicit_tools_arg(&vec!["--exclude-tools".into(), "bash".into()]));
}

#[test]
fn builtin_tools_follow_the_configuration_table() {
    assert_eq!(configured_builtin_tools(None), "read,bash,edit,write");
    let table = vec![
        ("edit".to_string(), Some(false)),
        ("grep".to_string(), Some(true)),
        ("ls".to_string(), None),
    ];
    assert_eq!(configured_builtin_tools(Some(&table)), "read,bash,write,grep");
}
